use sglib04::aoj::{record_transformer, SubstAreaZone};
use sglib04::geo2::form_sub_feeds;
use sglib04::geo4::{positions, power_prod_type, replan_sbid, reps_of_subs, PowerProdType};
use std::collections::HashSet;

fn set(v: &[usize]) -> HashSet<usize> {
    v.iter().cloned().collect()
}

#[test]
fn record_transformer_accumulates_per_substation() {
    let mut subs: Vec<SubstAreaZone> = Vec::new();
    assert_eq!(record_transformer(&mut subs, "ABC1234", &vec![1, 2], &vec![3], 0), Some(0));
    assert_eq!(record_transformer(&mut subs, "ABC99", &vec![2, 5], &vec![], 1), Some(0));
    assert_eq!(record_transformer(&mut subs, "XYZ12", &vec![], &vec![7], 2), Some(1));
    assert_eq!(record_transformer(&mut subs, "AB", &vec![9], &vec![9], 3), None);
    assert_eq!(record_transformer(&mut subs, "ABCD", &vec![9], &vec![9], 4), None);
    assert_eq!(subs.len(), 2);
    assert_eq!(subs[0].sbid, "ABC");
    assert_eq!(subs[0].offs, set(&[1, 2, 5]));
    assert_eq!(subs[0].izns, set(&[3]));
    assert_eq!(subs[0].trxs, set(&[0, 1]));
    assert_eq!(subs[1].sbid, "XYZ");
    assert_eq!(subs[1].offs, set(&[]));
    assert_eq!(subs[1].izns, set(&[7]));
    assert_eq!(subs[1].trxs, set(&[2]));
}

#[test]
fn power_producer_kinds() {
    assert_eq!(power_prod_type("ABC01VB01", ""), PowerProdType::VSPP);
    assert_eq!(power_prod_type("ABC01VB01", "สถานี"), PowerProdType::VSPP);
    assert_eq!(power_prod_type("ABC", "สถานีบางปะอิน"), PowerProdType::SPP);
    assert_eq!(power_prod_type("", ""), PowerProdType::Unknown);
    assert_eq!(PowerProdType::default(), PowerProdType::Unknown);
}

#[test]
fn plan_rows_find_their_substation() {
    let names = vec![
        ("บางปะอิน".to_string(), "BPA".to_string()),
        ("ลำพูน".to_string(), "LPA".to_string()),
        ("บางปะอิน".to_string(), "BPB".to_string()),
    ];
    assert_eq!(replan_sbid(PowerProdType::VSPP, "KLA01VB01", "", &names), Some("KLA".to_string()));
    assert_eq!(replan_sbid(PowerProdType::SPP, "", "ลำพูน", &names), Some("LPA".to_string()));
    assert_eq!(replan_sbid(PowerProdType::SPP, "", "บางปะอิน", &names), Some("BPB".to_string()));
    assert_eq!(replan_sbid(PowerProdType::SPP, "", "เชียงใหม่", &names), None);
    assert_eq!(replan_sbid(PowerProdType::Unknown, "KLA01VB01", "ลำพูน", &names), None);
}

#[test]
fn plan_rows_per_substation() {
    let reps = vec![Some("AAA".to_string()), None, Some("BBB".to_string()), Some("AAA".to_string())];
    assert_eq!(positions(&reps, "AAA"), vec![0, 3]);
    assert_eq!(positions(&reps, "CCC"), Vec::<usize>::new());
    let subs = vec!["BBB".to_string(), "AAA".to_string(), "ZZZ".to_string()];
    assert_eq!(reps_of_subs(&reps, &subs), vec![vec![2], vec![0, 3], vec![]]);
}

#[test]
fn substations_collect_feeders_and_transformers() {
    let fids = vec![
        Some("ABC01".to_string()),
        None,
        Some("ABC02".to_string()),
        Some("XYZ01".to_string()),
        Some("ABC01".to_string()),
        Some("DEF07".to_string()),
    ];
    let known = vec![("DEF".to_string(), 5000u64, "H".to_string()), ("ABC".to_string(), 100u64, "M".to_string())];
    let eqnds = vec![90u64, 104, 130, 4000];
    let subs = form_sub_feeds(&fids, &known, &eqnds);
    assert_eq!(subs.len(), 2);
    assert_eq!(subs[0].sbid, "ABC");
    assert_eq!(subs[0].conf, "M");
    assert_eq!(subs[0].n1d_s, 100);
    assert_eq!(subs[0].n1d_f, 104);
    assert_eq!(subs[0].feed, vec![("ABC01".to_string(), vec![0, 4]), ("ABC02".to_string(), vec![2])]);
    assert_eq!(subs[1].sbid, "DEF");
    assert_eq!(subs[1].n1d_f, 4000);
    assert_eq!(subs[1].feed, vec![("DEF07".to_string(), vec![5])]);
}

#[test]
fn conductor_nodes_are_taken_in_increasing_order() {
    let fids = vec![Some("ABC01".to_string())];
    let known = vec![("ABC".to_string(), 100u64, "M".to_string())];
    let subs = form_sub_feeds(&fids, &known, &vec![4000u64, 130, 90, 104]);
    assert_eq!(subs[0].n1d_f, 104);
}

#[test]
fn substations_without_survey_are_left_out() {
    let fids = vec![Some("QQQ01".to_string())];
    let subs = form_sub_feeds(&fids, &vec![], &vec![]);
    assert!(subs.is_empty());
}

use sglib04::geo1::{GridNode, NodeInfo, NodeType};
use sglib04::geo2::{bill_meters, bills_to_meters, cnl_transformers};
use sglib04::ld1::aoj_ranking;

fn s(x: &str) -> String {
    x.to_string()
}

#[test]
fn bills_go_to_meters_by_installation_then_pea_number() {
    let meters = vec![
        (Some(s("I1")), Some(s("P1"))),
        (Some(s("I2")), None),
        (Some(s("I3")), Some(s("P3"))),
        (Some(s("I1")), Some(s("P4"))),
    ];
    let bills = vec![(s("I3"), s("zz")), (s("I9"), s("P1")), (s("I2"), s("P9")), (s("I1"), s("P3")), (s("I8"), s("P4"))];
    let r = bills_to_meters(&meters, &bills);
    assert_eq!(r, vec![vec![1, 3], vec![], vec![0], vec![4]]);
}

fn gn(ly: &str, ix: usize, ntp: NodeType) -> GridNode {
    GridNode { ar: s("N1"), ly: s(ly), ix, n1d: 0, ntp, lix: 0, pix: 0 }
}

#[test]
fn transformers_from_connection_records() {
    let nodes = vec![
        NodeInfo { n1d: 500, nodes: vec![gn("GIS_LVCNL", 0, NodeType::Bridge), gn("DS_Transformer", 9, NodeType::Bridge)], ..Default::default() },
        NodeInfo { n1d: 600, nodes: vec![gn("GIS_LVCNL", 1, NodeType::Bridge), gn("GIS_LVCNL", 2, NodeType::Meter)], ..Default::default() },
        NodeInfo { n1d: 700, nodes: vec![gn("GIS_LVCNL", 3, NodeType::Bridge)], ..Default::default() },
    ];
    let cnl = vec![
        (Some(12u64), Some(s("T1")), 0usize),
        (Some(12u64), Some(s("T1")), 1usize),
        (Some(40u64), Some(s("T2")), 2usize),
        (None, Some(s("T3")), 3usize),
        (Some(40u64), Some(s("T2")), 4usize),
    ];
    let r = cnl_transformers(&nodes, &cnl);
    assert_eq!(r.len(), 1);
    assert_eq!(r[0].trid, "12-T1");
    assert_eq!(r[0].pea, "T1");
    assert_eq!(r[0].n1d, 12);
    assert_eq!(r[0].n1d_f, 500);
    assert_eq!(r[0].ix, 0);
    assert_eq!(r[0].lix, 0);
    assert_eq!(r[0].mts, vec![0, 1]);
}

#[test]
fn offices_ranked_by_transformer_count() {
    assert_eq!(aoj_ranking(&vec![4, 7, 4, 9, 7, 4, 2]), vec![(3, 4), (2, 7), (1, 9), (1, 2)]);
    assert_eq!(aoj_ranking(&vec![5, 6, 6, 5]), vec![(2, 5), (2, 6)]);
    assert_eq!(aoj_ranking(&vec![]), vec![]);
}

#[test]
fn bills_find_their_meter_by_installation_then_pea_number() {
    let meters = vec![
        (Some(s("I1")), Some(s("P1"))),
        (Some(s("I2")), None),
        (Some(s("I3")), Some(s("P3"))),
        (Some(s("I1")), Some(s("P4"))),
    ];
    let bills = vec![(s("I3"), s("zz")), (s("I9"), s("P1")), (s("I2"), s("P9")), (s("I1"), s("P3")), (s("I8"), s("P4"))];
    let r = bill_meters(&meters, &bills);
    assert_eq!(r, vec![Some((2, true)), Some((0, false)), None, Some((0, true)), Some((3, false))]);
    let per_meter = bills_to_meters(&meters, &bills);
    for (i, m) in r.iter().enumerate() {
        for (k, list) in per_meter.iter().enumerate() {
            assert_eq!(list.contains(&i), *m == Some((k, true)) || *m == Some((k, false)));
        }
    }
}
