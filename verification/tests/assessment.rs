use sglib04::geo1::{meter_n1d, transformer_records};
use sglib04::geo2::{contract_row, der_rows_by_area, der_sheet};
use sglib04::ld1::{lp_feeder_id, meter_counts, year_profiles, MeterCounts, TransMeters};

fn s(v: &str) -> String {
    v.to_string()
}

fn bill(rate: &str, main: &str) -> Option<(String, String)> {
    Some((s(rate), s(main)))
}

#[test]
fn substation_counts_transformers_and_meters() {
    let ts = vec![
        TransMeters { owner: Some(s("PEA")), meters: vec![bill("1.1", ""), bill("4.5", ""), None, bill("2.1", "M1")] },
        TransMeters { owner: Some(s("CUST")), meters: vec![bill("1.2", ""), bill("5", "")] },
        TransMeters { owner: None, meters: vec![bill("1.1", ""), bill("1.1", "")] },
        TransMeters { owner: Some(s("PEA")), meters: vec![] },
    ];
    let c = meter_counts(&ts);
    assert_eq!(c, MeterCounts { trpe: 2, trcu: 1, mt13: 2, mt45: 3, mtpe: 3, mtcu: 2 });
    assert_eq!(c.mt13 + c.mt45, c.mtpe + c.mtcu);
}

#[test]
fn substation_counts_of_nothing() {
    let c = meter_counts(&vec![]);
    assert_eq!(c, MeterCounts { trpe: 0, trcu: 0, mt13: 0, mt45: 0, mtpe: 0, mtcu: 0 });
}

#[test]
fn load_profile_feeder_ids() {
    assert_eq!(lp_feeder_id("ABC_01VB-01"), Some(s("ABC01")));
    assert_eq!(lp_feeder_id("KLA_12W1"), Some(s("KLA12")));
    assert_eq!(lp_feeder_id("xKLA_12W1"), Some(s("KLA12")));
    assert_eq!(lp_feeder_id("ABC_01X1"), None);
    assert_eq!(lp_feeder_id("ABC_1VB"), None);
    assert_eq!(lp_feeder_id("ABC_01V"), None);
}

#[test]
fn meter_takes_transformer_node_when_it_has_none() {
    assert_eq!(meter_n1d(Some(5), Some(7)), Some(5));
    assert_eq!(meter_n1d(None, Some(7)), Some(7));
    assert_eq!(meter_n1d(None, None), None);
    assert_eq!(meter_n1d(Some(0), Some(7)), Some(7));
    assert_eq!(meter_n1d(Some(0), Some(0)), Some(0));
    assert_eq!(meter_n1d(Some(0), None), Some(0));
    assert_eq!(meter_n1d(Some(3), None), Some(3));
}

#[test]
fn first_record_of_each_transformer() {
    let tr = vec![Some(9), None, Some(4), Some(9), Some(4), Some(1), None, Some(9)];
    assert_eq!(transformer_records(&tr), vec![0, 2, 5]);
    assert_eq!(transformer_records(&vec![None, None]), Vec::<usize>::new());
    assert_eq!(transformer_records(&vec![]), Vec::<usize>::new());
}

#[test]
fn producer_sheet_is_the_last_of_its_name() {
    let names = vec![s("SPP หลัก"), s("อื่น"), s("SPP หลัก"), s("สถานะทำสัญญา")];
    assert_eq!(der_sheet(&names, "SPP หลัก"), Some(2));
    assert_eq!(der_sheet(&names, "สถานะทำสัญญา"), Some(3));
    assert_eq!(der_sheet(&names, "สถานะ VSPP - หลัก"), None);
}

#[test]
fn producer_rows_grouped_by_area() {
    let row = |a: &str| vec![s("x"), s(a)];
    let data = vec![row("ก.1"), row("น.2"), row("ก.1"), row("zz"), row("น.2"), row("ต.3")];
    let g = der_rows_by_area(&data, 1);
    assert_eq!(g, vec![(s("N2"), vec![1, 4]), (s("C1"), vec![2]), (s("S3"), vec![5])]);
    assert_eq!(der_rows_by_area(&vec![row("ก.1")], 1), Vec::<(String, Vec<usize>)>::new());
}

#[test]
fn producer_contract_is_the_last_row_of_its_project() {
    let pids = vec![s("P1"), s(""), s("P2"), s("P1")];
    assert_eq!(contract_row(&pids, "P1"), Some(3));
    assert_eq!(contract_row(&pids, "P2"), Some(2));
    assert_eq!(contract_row(&pids, ""), None);
    assert_eq!(contract_row(&pids, "P3"), None);
}

#[test]
fn one_representative_profile_per_year() {
    let keys = vec![s("SB1"), s("SB2"), s("SB1"), s("SB1"), s("SB1")];
    let years = vec![2021usize, 2021, 2022, 2021, 2023];
    assert_eq!(year_profiles(&keys, &years, "SB1"), vec![(2022, 2), (2021, 3), (2023, 4)]);
    assert_eq!(year_profiles(&keys, &years, "SB2"), vec![(2021, 1)]);
    assert_eq!(year_profiles(&keys, &years, "SB3"), Vec::<(usize, usize)>::new());
}
