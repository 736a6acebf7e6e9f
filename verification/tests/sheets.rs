use sglib04::geo2::{volta_area, volta_month_columns, volta_sheet_month};
use sglib04::geo4::{solar_sheet_area, solar_sheet_layout, SolarReader, XlsxSolarType};
use sglib04::group::group_by_key;
use sglib04::pattern::{parse_u32, scan_header};

fn sheet(rows: &[&[&str]]) -> Vec<Vec<String>> {
    rows.iter().map(|r| r.iter().map(|c| c.to_string()).collect()).collect()
}

#[test]
fn scan_header_keeps_last_claimed_cell() {
    let d = sheet(&[&["a", "kWp", "x"], &["", "b", "kWp"], &["a"]]);
    let pats = vec!["kWp", "a"];
    let r = scan_header(&d, 10, &pats);
    assert_eq!(r, vec![Some((1, 2)), Some((2, 0))]);
    let r2 = scan_header(&d, 1, &pats);
    assert_eq!(r2, vec![Some((0, 1)), Some((0, 0))]);
}

#[test]
fn scan_header_first_pattern_claims_the_cell() {
    let d = sheet(&[&["ab"]]);
    let pats = vec!["a", "b"];
    assert_eq!(scan_header(&d, 10, &pats), vec![Some((0, 0)), None]);
}

#[test]
fn solar_type2_sheet() {
    let d = sheet(&[&["title"], &["กำลัง (MW)", "แรงดัน (kV)", "ที่เชื่อมโยง"], &["1.0", "22", "x"]]);
    let (ty, rd) = solar_sheet_layout(&d);
    assert_eq!(ty, XlsxSolarType::Type2);
    assert_eq!(rd, Some(SolarReader::LowVolt3 { r: 1, p: 0, v: 1, c: 2 }));
}

#[test]
fn solar_type2_rows_must_agree() {
    let d = sheet(&[&["(MW)", "(kV)"], &["", "", "ที่เชื่อมโยง"]]);
    assert_eq!(solar_sheet_layout(&d), (XlsxSolarType::Unknown, None));
}

#[test]
fn solar_type5_sheet() {
    let d = sheet(&[&["หมายเลขหม้อแปลงจำหน่ายที่เชื่อมโยง", "ปริมาณรวม (kW)"], &["T1", "5"]]);
    let (ty, rd) = solar_sheet_layout(&d);
    assert_eq!(ty, XlsxSolarType::Type5);
    assert_eq!(rd, Some(SolarReader::LvTr2 { r: 0, p: 1, t: 0 }));
}

#[test]
fn solar_type_b_sheet() {
    let d = sheet(&[&["x"], &["สัญญา", "PEA No. หม้อแปลง"]]);
    let (ty, rd) = solar_sheet_layout(&d);
    assert_eq!(ty, XlsxSolarType::TypeB);
    assert_eq!(rd, Some(SolarReader::LvTr2 { r: 1, p: 0, t: 1 }));
}

#[test]
fn solar_unknown_sheet() {
    let d = sheet(&[&["nothing"], &["here"]]);
    assert_eq!(solar_sheet_layout(&d), (XlsxSolarType::Unknown, None));
}

#[test]
fn solar_sheet_area_from_path() {
    assert_eq!(solar_sheet_area("/data/กวว. ก.1/f.xlsx"), Some("C1"));
    assert_eq!(solar_sheet_area("/data/กวว. ต.3/f.xlsx"), Some("S3"));
    assert_eq!(solar_sheet_area("/data/other/f.xlsx"), None);
}

#[test]
fn volta_sheet_months() {
    assert_eq!(volta_sheet_month("ม.ค. 67"), Some(6701));
    assert_eq!(volta_sheet_month("ก.พ. 66"), Some(6602));
    assert_eq!(volta_sheet_month("ธ.ค. 66"), Some(6612));
    assert_eq!(volta_sheet_month("มี.ค. 67"), None);
    assert_eq!(volta_sheet_month("Station"), None);
}

#[test]
fn volta_area_codes() {
    assert_eq!(volta_area("กฟน.1"), "N1");
    assert_eq!(volta_area("กฟฉ.2"), "NE2");
    assert_eq!(volta_area("none"), "");
}

#[test]
fn volta_month_columns_on_one_row() {
    let d = sheet(&[&["รายงาน"], &["ลำดับ", "ชื่อสถานี", "รหัสสถานี", "จำนวนหน่วย (kWh)"], &["1", "A", "S1", "10"]]);
    assert_eq!(volta_month_columns(&d), Some((1, 1, 3)));
    let e = sheet(&[&["ชื่อสถานี"], &["", "จำนวนหน่วย"]]);
    assert_eq!(volta_month_columns(&e), None);
}

#[test]
fn parse_u32_like_std() {
    assert_eq!(parse_u32("123"), Some(123));
    assert_eq!(parse_u32("+7"), Some(7));
    assert_eq!(parse_u32("007"), Some(7));
    assert_eq!(parse_u32(""), None);
    assert_eq!(parse_u32("+"), None);
    assert_eq!(parse_u32("-1"), None);
    assert_eq!(parse_u32("12a"), None);
    assert_eq!(parse_u32("4294967295"), Some(u32::MAX));
    assert_eq!(parse_u32("4294967296"), None);
    for s in ["0", "42", "+1000", "99999999999", "x1"] {
        assert_eq!(parse_u32(s), s.parse::<u32>().ok());
    }
}

#[test]
fn group_by_key_in_first_appearance_order() {
    let keys: Vec<String> = ["N1", "S1", "N1", "C2", "S1"].iter().map(|s| s.to_string()).collect();
    let g = group_by_key(&keys);
    assert_eq!(
        g,
        vec![("N1".to_string(), vec![0, 2]), ("S1".to_string(), vec![1, 4]), ("C2".to_string(), vec![3])]
    );
    assert!(group_by_key(&vec![]).is_empty());
}

use sglib04::geo3::{amp_gis_key, amp_pop_key, muni_key, place_key, tesaban_map};
use sglib04::text::trim_ws;

#[test]
fn trim_like_std() {
    for t in ["  a b  ", "\t\nx\r", "", "   ", "\u{3000}ชื่อ\u{a0}", "none"] {
        assert_eq!(trim_ws(t), t.trim());
    }
}

#[test]
fn municipality_keys_drop_the_prefix() {
    assert_eq!(muni_key(" เทศบาลนครขอนแก่น ", "ขอนแก่น"), "ขอนแก่น-ขอนแก่น");
    assert_eq!(muni_key("เทศบาลตำบลเมืองพล", "ขอนแก่น"), "พล-ขอนแก่น");
    assert_eq!(muni_key("บ้านไผ่", "ขอนแก่น"), "บ้านไผ่-ขอนแก่น");
}

#[test]
fn district_keys() {
    assert_eq!(amp_pop_key("อำเภอเมืองขอนแก่น", "ขอนแก่น"), "เมืองขอนแก่น-ขอนแก่น");
    assert_eq!(amp_gis_key("อ.บึงกาฬ", "หนองคาย"), "เมืองบึงกาฬ-บึงกาฬ");
    assert_eq!(amp_gis_key("อ.พล", "ขอนแก่น"), "พล-ขอนแก่น");
    assert_eq!(tesaban_map("เซกา-หนองคาย"), Some("เซกา-บึงกาฬ"));
    assert_eq!(place_key(" x ", "p", &vec![]), "x-p");
}
