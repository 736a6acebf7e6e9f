use sglib04::geo1::{find_node, is_area, n1d_interleave, n1d_split, nid_cell, nid_of};

#[test]
fn find_node_picks_nearest_with_ties_to_lower() {
    let v = vec![10u64, 20, 30, 40];
    assert_eq!(find_node(25, &v), 20);
    assert_eq!(find_node(26, &v), 30);
    assert_eq!(find_node(24, &v), 20);
    assert_eq!(find_node(30, &v), 30);
    assert_eq!(find_node(10, &v), 10);
    assert_eq!(find_node(40, &v), 40);
}

#[test]
fn find_node_clamps_out_of_range() {
    let v = vec![10u64, 20, 30, 40];
    assert_eq!(find_node(5, &v), 10);
    assert_eq!(find_node(0, &v), 10);
    assert_eq!(find_node(50, &v), 40);
    assert_eq!(find_node(u64::MAX, &v), 40);
}

#[test]
fn find_node_short_lists_give_first_entry_in_range() {
    let v = vec![10u64, 20];
    assert_eq!(find_node(19, &v), 10);
    assert_eq!(find_node(20, &v), 10);
    assert_eq!(find_node(25, &v), 20);
    assert_eq!(find_node(3, &v), 10);
    let one = vec![7u64];
    assert_eq!(find_node(7, &one), 7);
    assert_eq!(find_node(9, &one), 7);
    assert_eq!(find_node(1, &one), 7);
}

#[test]
fn find_node_members_map_to_themselves() {
    let v = vec![3u64, 8, 8, 15, 21, 40, 41, 100];
    for &x in &v {
        assert_eq!(find_node(x, &v), x);
    }
}

#[test]
fn find_node_keeps_order() {
    let v = vec![3u64, 8, 15, 21, 40, 41, 100];
    let mut last = 0;
    for n in 0..120u64 {
        let r = find_node(n, &v);
        assert!(r >= last);
        last = r;
    }
}

#[test]
fn n1d_interleave_places_x_on_odd_bits() {
    assert_eq!(n1d_interleave(1, 0), 2);
    assert_eq!(n1d_interleave(0, 1), 1);
    assert_eq!(n1d_interleave(3, 0), 0b1010);
    assert_eq!(n1d_interleave(0, 3), 0b0101);
    assert_eq!(n1d_interleave(5, 6), 0b110110);
    assert_eq!(n1d_interleave(u32::MAX, u32::MAX), u64::MAX);
    assert_eq!(n1d_interleave(u32::MAX, 0), 0xaaaa_aaaa_aaaa_aaaa);
}

#[test]
fn n1d_split_inverts_interleave() {
    assert_eq!(n1d_split(0b1010), (3, 0));
    assert_eq!(n1d_split(0b110110), (5, 6));
    for &(x, y) in &[(0u32, 0u32), (1, 2), (1_234_567, 7_654_321), (u32::MAX, 12), (99, u32::MAX)] {
        assert_eq!(n1d_split(n1d_interleave(x, y)), (x, y));
    }
    for &n in &[0u64, 1, 2, 0xdead_beef_0123_4567, u64::MAX] {
        let (x, y) = n1d_split(n);
        assert_eq!(n1d_interleave(x, y), n);
    }
}

#[test]
fn every_area_is_processed() {
    assert!(is_area("NE1"));
    assert!(is_area("C2"));
    assert!(is_area(""));
}

#[test]
fn nid_of_gives_six_base64_symbols_per_coordinate() {
    assert_eq!(nid_of(0, 0), "AAAAAA-AAAAAA");
    assert_eq!(nid_of(1, 0), "AAAAAQ-AAAAAA");
    assert_eq!(nid_of(0, 255), "AAAAAA-AAAA/w");
    assert_eq!(nid_of(u32::MAX, 0), "/////w-AAAAAA");
}

#[test]
fn nid_cell_reads_back_nid_of() {
    for &(x, y) in &[(0u32, 0u32), (1, 255), (670_123, 1_500_456), (u32::MAX, u32::MAX)] {
        assert_eq!(nid_cell(&nid_of(x, y)), Some((x, y)));
    }
}

#[test]
fn nid_cell_rejects_malformed_ids() {
    assert_eq!(nid_cell("AAAAAA"), None);
    assert_eq!(nid_cell(""), None);
    assert_eq!(nid_cell("AAA!AA-AAAAAA"), None);
    assert_eq!(nid_cell("AAAAAA-AAAAAB"), None);
    assert_eq!(nid_cell("ก.1ก.1-AAAAAA"), None);
    assert_eq!(nid_cell("AAAAAQ-AAAAAA"), Some((1, 0)));
}

use sglib04::geo1::{line_nodes, NodeType};

#[test]
fn line_nodes_and_dangling_lines() {
    let lines = vec![
        ("A".to_string(), 0usize, 1u64, 2u64),
        ("A".to_string(), 1usize, 3u64, 4u64),
        ("B".to_string(), 0usize, 4u64, 5u64),
        ("B".to_string(), 1usize, 4u64, 6u64),
    ];
    let (nodes, dis) = line_nodes("N1", &lines);
    let ids: Vec<u64> = nodes.iter().map(|n| n.n1d).collect();
    assert_eq!(ids, vec![1, 2, 3, 4, 5, 6]);
    assert_eq!(dis, vec![true, false, false, false]);
    let marked: Vec<bool> = nodes.iter().map(|n| n.dis).collect();
    assert_eq!(marked, vec![true, true, false, false, false, false]);
    assert_eq!(nodes[3].nodes.len(), 3);
    assert_eq!(nodes[0].nodes[0].ntp, NodeType::LineEnd(2));
    assert_eq!(nodes[1].nodes[0].ntp, NodeType::LineEnd(1));
    assert_eq!(nodes[3].nodes[0].lix, 1);
    assert_eq!(nodes[3].nodes[1].ly, "B");
    assert_eq!(nodes[3].nodes[1].ix, 0);
    assert_eq!(nodes[0].nodes[0].ar, "N1");
}

#[test]
fn zero_length_line_is_not_dangling() {
    let lines = vec![("A".to_string(), 0usize, 7u64, 7u64)];
    let (nodes, dis) = line_nodes("S1", &lines);
    assert_eq!(nodes.len(), 1);
    assert_eq!(nodes[0].nodes.len(), 2);
    assert_eq!(dis, vec![false]);
}

use sglib04::geo1::{attach_equipment, volta_transformers, NodeInfo};
use std::collections::HashMap;

fn node_map(ids: &[u64]) -> HashMap<u64, NodeInfo> {
    ids.iter().map(|n| (*n, NodeInfo { n1d: *n, ..Default::default() })).collect()
}

#[test]
fn equipment_attaches_to_its_node_or_the_nearest() {
    let mut nds = node_map(&[10, 20, 30, 40]);
    let keys = vec![10u64, 20, 30, 40];
    let trs = vec![
        ("DS_Transformer".to_string(), 0usize, 20u64, NodeType::Bridge, 0usize),
        ("DS_Transformer".to_string(), 1usize, 33u64, NodeType::Bridge, 1usize),
    ];
    let found = attach_equipment("N1", &mut nds, &keys, &trs, true);
    assert_eq!(found, vec![20]);
    assert_eq!(nds[&20].nodes.len(), 1);
    assert_eq!(nds[&20].nodes[0].lix, 0);
    assert_eq!(nds[&30].nodes.len(), 1);
    assert_eq!(nds[&30].nodes[0].n1d, 30);
    assert_eq!(nds[&30].nodes[0].ix, 1);
    assert_eq!(nds[&30].nodes[0].ntp, NodeType::Bridge);
    let cnl = vec![
        ("GIS_LVCNL".to_string(), 5usize, 40u64, NodeType::Bridge, 0usize),
        ("GIS_LVCNL".to_string(), 6usize, 27u64, NodeType::Bridge, 1usize),
    ];
    let found2 = attach_equipment("N1", &mut nds, &found, &cnl, true);
    assert_eq!(found2, vec![40]);
    assert_eq!(nds[&40].nodes.len(), 1);
    assert_eq!(nds[&20].nodes.len(), 2);
    assert_eq!(nds[&20].nodes[1].ix, 6);
    assert_eq!(nds[&20].nodes[1].lix, 1);
    assert_eq!(nds[&10].nodes.len(), 0);
}

#[test]
fn equipment_keeps_its_role() {
    let mut nds = node_map(&[5]);
    let sws = vec![("DS_Switch".to_string(), 3usize, 9u64, NodeType::Load, 0usize)];
    attach_equipment("S1", &mut nds, &vec![5], &sws, true);
    assert_eq!(nds[&5].nodes[0].ntp, NodeType::Load);
    assert_eq!(nds[&5].nodes[0].n1d, 5);
    assert_eq!(nds.len(), 1);
}

#[test]
fn equipment_found_at_its_node_may_record_no_number() {
    let mut nds = node_map(&[10, 20]);
    let eqs = vec![
        ("p12_N1_spp".to_string(), 0usize, 20u64, NodeType::Source, 0usize),
        ("p12_N1_spp".to_string(), 1usize, 12u64, NodeType::Source, 0usize),
    ];
    let found = attach_equipment("N1", &mut nds, &vec![10, 20], &eqs, false);
    assert_eq!(found, vec![20]);
    assert_eq!(nds[&20].nodes[0].n1d, 0);
    assert_eq!(nds[&10].nodes[0].n1d, 10);
    assert_eq!(nds[&10].nodes[0].ix, 1);
}

#[test]
fn charging_stations_per_transformer() {
    let mut nds = node_map(&[10, 20, 30]);
    let keys = vec![20u64, 30, 40];
    let tr_nodes = vec![30u64, 20, 40, 30];
    let sts = vec![Some(10u64), None, Some(31), Some(20), Some(39)];
    let r = volta_transformers(&nds, &keys, &sts, &tr_nodes);
    assert_eq!(r, vec![vec![], vec![3], vec![4], vec![2]]);
    let eqs: Vec<(String, usize, u64, NodeType, usize)> = sts
        .iter()
        .enumerate()
        .filter_map(|(ix, s)| s.map(|n| ("p13_N1_volta".to_string(), ix, n, NodeType::Load, ix)))
        .collect();
    attach_equipment("N1", &mut nds, &keys, &eqs, true);
    assert_eq!(nds[&30].nodes.len(), 1);
    assert_eq!(nds[&30].nodes[0].ix, 2);
    assert_eq!(nds[&20].nodes[0].ix, 3);
    assert_eq!(nds[&10].nodes[0].ix, 0);
    assert_eq!(nds.len(), 3);
}

#[test]
fn equipment_snaps_onto_unsorted_keys_in_increasing_order() {
    let mut nds = node_map(&[10, 20, 30, 40]);
    let keys = vec![40u64, 10, 30, 20];
    let trs = vec![("DS_Transformer".to_string(), 1usize, 33u64, NodeType::Bridge, 1usize)];
    let found = attach_equipment("N1", &mut nds, &keys, &trs, true);
    assert_eq!(found, Vec::<u64>::new());
    assert_eq!(nds[&30].nodes.len(), 1);
    assert_eq!(nds[&30].nodes[0].n1d, 30);
}
