use sglib04::aoj::{map4, zone_code, zone_desc};
use sglib04::geo2::{ar_th_code, ar_th_code_table, p12_check_sbfd, th_mon_no, th_mon_no_table};
use sglib04::geo3::{aoj_area, pea_ar_cd, pea_ar_cd2, province_name, records_by_area, substring};
use sglib04::ld1::{meter_is_small, owned_by_pea, zone_factor};

#[test]
fn thai_area_names_map_to_area_codes() {
    assert_eq!(ar_th_code("ก.1"), Some("C1"));
    assert_eq!(ar_th_code("น.3"), Some("N3"));
    assert_eq!(ar_th_code("ฉ.2"), Some("NE2"));
    assert_eq!(ar_th_code("ต.3"), Some("S3"));
    assert_eq!(ar_th_code("ก.4"), None);
    assert_eq!(ar_th_code(""), None);
    assert_eq!(ar_th_code_table().len(), 12);
}

#[test]
fn thai_month_names_map_to_month_numbers() {
    assert_eq!(th_mon_no("ม.ค."), Some(1));
    assert_eq!(th_mon_no("มี.ค."), Some(3));
    assert_eq!(th_mon_no("มิ.ย."), Some(6));
    assert_eq!(th_mon_no("ธ.ค."), Some(12));
    assert_eq!(th_mon_no("Jan"), None);
    let t = th_mon_no_table();
    assert_eq!(t.len(), 12);
    for (i, (_, m)) in t.iter().enumerate() {
        assert_eq!(*m as usize, i + 1);
    }
}

#[test]
fn pea_area_numbers_and_prefixes() {
    assert_eq!(pea_ar_cd("11"), Some("N1"));
    assert_eq!(pea_ar_cd("31"), Some("C1"));
    assert_eq!(pea_ar_cd("43"), Some("S3"));
    assert_eq!(pea_ar_cd("44"), None);
    assert_eq!(pea_ar_cd2("A"), Some("N1"));
    assert_eq!(pea_ar_cd2("G"), Some("C1"));
    assert_eq!(pea_ar_cd2("L"), Some("S3"));
    assert_eq!(pea_ar_cd2("M"), None);
}

#[test]
fn aoj_area_prefers_the_area_number() {
    assert_eq!(aoj_area("31", "G14101"), "C1");
    assert_eq!(aoj_area("3101", "G14101"), "C1");
    assert_eq!(aoj_area("11", "G14101"), "N1");
    assert_eq!(aoj_area("99", "G14101"), "C1");
    assert_eq!(aoj_area("99", "Z14101"), "XX");
    assert_eq!(aoj_area("21", "D1"), "NE1");
}

#[test]
fn zone_table_has_one_entry_per_code() {
    let t = zone_code();
    assert_eq!(t.len(), 12);
    assert_eq!(t[0], ("11", "นิคมอุตสาหกรรม"));
    assert_eq!(zone_desc("51"), Some("ชนบท"));
    assert_eq!(zone_desc("41"), Some("เทศบาลตำบล"));
    assert_eq!(zone_desc("42"), None);
    for (i, (a, _)) in t.iter().enumerate() {
        for (b, _) in t.iter().skip(i + 1) {
            assert_ne!(a, b);
        }
    }
}

#[test]
fn zone_factor_weights() {
    assert_eq!(zone_factor(Some("22")), 21);
    assert_eq!(zone_factor(Some("21")), 12);
    assert_eq!(zone_factor(Some("11")), 17);
    assert_eq!(zone_factor(Some("51")), 10);
    assert_eq!(zone_factor(Some("99")), 10);
    assert_eq!(zone_factor(None), 10);
}

#[test]
fn meters_split_by_rate_and_main_meter() {
    assert!(meter_is_small("11", ""));
    assert!(meter_is_small("2", ""));
    assert!(meter_is_small("A2B", ""));
    assert!(!meter_is_small("33", ""));
    assert!(!meter_is_small("45", ""));
    assert!(!meter_is_small("11", "M001"));
}

#[test]
fn pea_ownership() {
    assert!(owned_by_pea("PEA"));
    assert!(!owned_by_pea("CUS"));
    assert!(!owned_by_pea("pea"));
}

#[test]
fn placeholder_passes_succeed() {
    assert_eq!(p12_check_sbfd(), Ok(()));
    assert_eq!(map4(), Ok(()));
}

#[test]
fn substring_takes_characters_and_clamps() {
    let th = "จ.เชียงราย";
    assert_eq!(substring(th, 2, th.len()), "เชียงราย");
    assert_eq!(substring("abcdef", 1, 3), "bc");
    assert_eq!(substring("abc", 2, 10), "c");
    assert_eq!(substring("abc", 5, 10), "");
    assert_eq!(substring("abc", 2, 2), "");
    assert_eq!(substring("abc", 3, 1), "");
}

#[test]
fn provinces_of_layer_records() {
    assert_eq!(province_name(Some("จ.เชียงราย")), "เชียงราย");
    assert_eq!(province_name(Some("จ")), "");
    assert_eq!(province_name(None), "---");
}

#[test]
fn layer_records_grouped_by_province_area() {
    let s = |v: &str| v.to_string();
    let provs = vec![s("เชียงราย"), s("---"), s("ลำพูน"), s("เชียงราย"), s("น่าน")];
    let prv2ar = vec![(s("เชียงราย"), s("N1")), (s("ลำพูน"), s("N1")), (s("เชียงราย"), s("N2")), (s("น่าน"), s("--"))];
    assert_eq!(records_by_area(&provs, &prv2ar), vec![(s("N1"), vec![0, 2, 3])]);
    let prv2ar2 = vec![(s("ลำพูน"), s("N2")), (s("เชียงราย"), s("N1"))];
    assert_eq!(records_by_area(&provs, &prv2ar2), vec![(s("N1"), vec![0, 3]), (s("N2"), vec![2])]);
}
