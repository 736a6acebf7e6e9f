use sglib04::aoj::grid_accounts;
use sglib04::geo2::volta_stations;
use sglib04::geo3::{population_tables, province_field};
use sglib04::pattern::parse_i32;

fn s(v: &str) -> String {
    v.to_string()
}

#[test]
fn population_rows_split_into_municipalities_and_districts() {
    let rows = [
        ("จ.เชียงราย", "-"),
        ("x", "ท้องถิ่นเทศบาลA"),
        ("x", "อ.เมือง"),
        ("กรุงเทพมหานคร", "-"),
        ("x", "ท้องถิ่นเขตบางรัก"),
        ("x", "อ.เมือง"),
        ("จ.ลำพูน", "-"),
        ("x", "ท้องถิ่นเทศบาลA"),
    ];
    let provs: Vec<String> = rows.iter().map(|r| s(r.0)).collect();
    let amps: Vec<String> = rows.iter().map(|r| s(r.1)).collect();
    let (mu, am) = population_tables(&provs, &amps, false);
    assert_eq!(mu, vec![(s("เทศบาลA"), 7)]);
    assert_eq!(am, vec![(s("อ.เมือง"), 5), (s("เขตบางรัก"), 4)]);
}

#[test]
fn population_province_prefix_is_stripped_on_request() {
    let provs = vec![s("จังหวัดกรุงเทพมหานคร"), s("x")];
    let amps = vec![s("-"), s("ท้องถิ่นเขตบางรัก")];
    let (mu, am) = population_tables(&provs, &amps, true);
    assert_eq!(mu, vec![]);
    assert_eq!(am, vec![(s("เขตบางรัก"), 1)]);
    let (mu, am) = population_tables(&provs, &amps, false);
    assert_eq!(mu, vec![(s("เขตบางรัก"), 1)]);
    assert_eq!(am, vec![]);
    assert_eq!(province_field("จังหวัดลำพูน", true), "ลำพูน");
    assert_eq!(province_field("จังหวัดลำพูน", false), "จังหวัดลำพูน");
    assert_eq!(province_field("ลำพูน", true), "ลำพูน");
}

#[test]
fn counts_parse_as_signed_32_bit_numbers() {
    assert_eq!(parse_i32("27878"), Some(27878));
    assert_eq!(parse_i32("+12"), Some(12));
    assert_eq!(parse_i32("-12"), Some(-12));
    assert_eq!(parse_i32("2147483647"), Some(i32::MAX));
    assert_eq!(parse_i32("-2147483648"), Some(i32::MIN));
    assert_eq!(parse_i32("2147483648"), None);
    assert_eq!(parse_i32("-"), None);
    assert_eq!(parse_i32(""), None);
    assert_eq!(parse_i32("1,000"), None);
    for t in ["0", "-0", "+7", "99999999999", "12a", " 1"] {
        assert_eq!(parse_i32(t), t.parse::<i32>().ok());
    }
}

#[test]
fn chargers_go_to_the_station_of_their_number() {
    let sts = vec![(s("A"), s("1")), (s("B"), s("")), (s("C"), s("2")), (s("A"), s("3")), (s(""), s("4"))];
    let chs = vec![
        (s("50"), s("2"), s("3")),
        (s("7"), s("1"), s("1")),
        (s("x"), s("1"), s("2")),
        (s("22"), s("4"), s("2")),
        (s("1"), s("1"), s("9")),
    ];
    let (table, chargers) = volta_stations(&sts, &chs);
    assert_eq!(table, vec![(s("A"), 3), (s("C"), 2)]);
    assert_eq!(chargers, vec![vec![(50, 2), (7, 1)], vec![(22, 4)]]);
}

#[test]
fn areas_and_provinces_of_the_substations() {
    let subs = vec![
        (s("S1"), s("A1"), s("Area1"), s("P1")),
        (s("S2"), s("A1"), s("Area1"), s("P2")),
        (s("S3"), s("A2"), s("Area2"), s("P1")),
        (s("S1"), s("A1"), s("Area1"), s("P1")),
    ];
    let sel = vec![(s("P1"), vec![s("S1"), s("S9")])];
    let (areas, provs, chosen) = grid_accounts(&subs, &sel);
    assert_eq!(areas.len(), 2);
    assert_eq!(areas[0].arid, "A1");
    assert_eq!(areas[0].name, "Area1");
    assert_eq!(areas[0].provs, vec![s("P1"), s("P2")]);
    assert_eq!(areas[0].subs, vec![s("S1"), s("S2")]);
    assert!(areas[0].mark);
    assert_eq!(areas[1].subs, vec![s("S3")]);
    assert!(areas[1].mark);
    assert_eq!(provs.len(), 2);
    assert_eq!(provs[0].name, "P1");
    assert_eq!(provs[0].subs, vec![s("S1"), s("S3")]);
    assert!(provs[0].mark);
    assert_eq!(provs[1].subs, vec![s("S2")]);
    assert!(!provs[1].mark);
    assert_eq!(chosen, vec![s("S1"), s("S1")]);
}
