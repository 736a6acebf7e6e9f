use sglib04::der::{producers_of_subs, sb_th_adj1, sb_th_adj2, sb_th_vspp, spp_substation, vspp_substation};

fn s(v: &str) -> String {
    v.to_string()
}

#[test]
fn producer_name_tables() {
    assert_eq!(sb_th_adj1("พิษณุโลก 4 / F2"), Some("พิษณุโลก 4"));
    assert_eq!(sb_th_adj1("คลองแงะ (ลานไก) - สะเดา 2 (ชั่วคราว)"), Some("คลองแงะ"));
    assert_eq!(sb_th_adj1("เทิง"), None);
    assert_eq!(sb_th_adj2("อ.ระโนด จ.สงขลา"), Some("สงขลา 1"));
    assert_eq!(sb_th_vspp("KDA"), Some("เขื่อนแก่งกระจาน"));
    assert_eq!(sb_th_vspp("โชคชัย 1 "), Some("โชคชัย 1"));
    assert_eq!(sb_th_vspp("สงขลา 3"), Some("สงขลา 3 (ช)"));
    assert_eq!(sb_th_vspp("โชคชัย 1"), None);
}

#[test]
fn small_producer_substations() {
    let names = vec![(s("พิษณุโลก 4"), s("PLK04")), (s("เทิง"), s("TEN")), (s("เทิง"), s("TEX"))];
    assert_eq!(spp_substation(&names, Some("เทิง"), Some("x")), "TEN");
    assert_eq!(spp_substation(&names, Some("พิษณุโลก 4 / F2"), Some("x")), "PLK04");
    assert_eq!(spp_substation(&names, Some("แรงสูงเทิง - จุน"), Some("x")), "TEN");
    assert_eq!(spp_substation(&names, Some("ลำปาง 3 (ชั่วคราว) - แจ้ห่ม"), Some("x")), "___");
    assert_eq!(spp_substation(&names, Some("zzz"), Some("อ.ระโนด จ.สงขลา")), "___");
    assert_eq!(spp_substation(&names, Some("เทิง"), None), "___");
    assert_eq!(spp_substation(&names, None, Some("x")), "___");
}

#[test]
fn very_small_producer_substations() {
    let names = vec![(s("เทิง"), s("TEN"))];
    let subs = vec![s("ABC"), s("TEN")];
    assert_eq!(vspp_substation(&names, &subs, Some("ABC"), Some(1)), "ABC");
    assert_eq!(vspp_substation(&names, &subs, Some("ABC"), None), "___");
    assert_eq!(vspp_substation(&names, &subs, Some("เทิง"), Some(2)), "TEN");
    assert_eq!(vspp_substation(&names, &subs, Some("KDA"), Some(1)), "___");
    let names2 = vec![(s("เขื่อนแก่งกระจาน"), s("KDA1"))];
    assert_eq!(vspp_substation(&names2, &subs, Some("KDA"), Some(1)), "KDA1");
    assert_eq!(vspp_substation(&names2, &subs, None, Some(1)), "___");
}

#[test]
fn producers_go_to_the_last_substation_of_their_id() {
    let prod = vec![Some(s("A")), Some(s("___")), Some(s("B")), None, Some(s("A"))];
    let subs = vec![s("A"), s("B"), s("C"), s("A")];
    assert_eq!(producers_of_subs(&prod, &subs), vec![vec![], vec![2], vec![], vec![0, 4]]);
    assert_eq!(producers_of_subs(&prod, &vec![]), Vec::<Vec<usize>>::new());
}
