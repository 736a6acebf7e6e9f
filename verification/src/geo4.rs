//! Renewable-energy plan rows and the recognition of the low-voltage solar
//! spreadsheets by their header cells.

use vstd::prelude::*;
use vstd::utf8::*;
use vstd::string::*;
use crate::text::{byte_prefix, str_eq};
use crate::pattern::{area_code_in, area_in_text, rows_last, scan_header, scanned_rows};

verus! {

/// The kind of a power producer in the renewable-energy plan.
#[derive(Debug, Clone, Copy, PartialEq, Eq, Structural, Default)]
pub enum PowerProdType {
    IPP,
    SPP,
    VSPP,
    ISP,
    #[default]
    Unknown,
}

/// The kind of a plan row: a feeder id of at least five bytes marks a very
/// small producer, else a substation name marks a small producer, else the
/// kind is unknown.
pub open spec fn power_prod_type_of(fid: &str, sub_th: &str) -> PowerProdType {
    if fid.len() >= 5 {
        PowerProdType::VSPP
    } else if sub_th@.len() > 0 {
        PowerProdType::SPP
    } else {
        PowerProdType::Unknown
    }
}

/// The kind of a plan row from its feeder-id cell and its substation-name cell.
pub fn power_prod_type(fid: &str, sub_th: &str) -> (r: PowerProdType)
    ensures
        r == power_prod_type_of(fid, sub_th),
{
    if fid.len() >= 5 {
        PowerProdType::VSPP
    } else if !sub_th.is_empty() {
        PowerProdType::SPP
    } else {
        PowerProdType::Unknown
    }
}

/// The substation id of the last entry of `names` (Thai substation name,
/// substation id) whose name is `name`.
pub open spec fn last_named(names: Seq<(String, String)>, name: Seq<char>) -> Option<Seq<char>>
    decreases names.len(),
{
    if names.len() == 0 {
        None
    } else if names.last().0@ == name {
        Some(names.last().1@)
    } else {
        last_named(names.drop_last(), name)
    }
}

/// The substation a plan row belongs to: for a small producer the substation
/// whose Thai name is in the row (the last such entry of `names`), for a very
/// small producer the first three bytes of its feeder id, otherwise none.
pub fn replan_sbid(pptp: PowerProdType, fid: &str, sub_th: &str, names: &Vec<(String, String)>) -> (r: Option<String>)
    requires
        pptp == PowerProdType::VSPP ==> is_char_boundary(fid.spec_bytes(), 3),
    ensures
        pptp == PowerProdType::SPP ==> match r {
            Some(s) => last_named(names@, sub_th@) == Some(s@),
            None => last_named(names@, sub_th@) is None,
        },
        pptp == PowerProdType::VSPP ==> r is Some && r->0@ == decode_utf8(fid.spec_bytes().subrange(0, 3)),
        pptp != PowerProdType::SPP && pptp != PowerProdType::VSPP ==> r is None,
{
    match pptp {
        PowerProdType::SPP => {
            let mut i = names.len();
            assert(names@.subrange(0, i as int) =~= names@);
            while i > 0
                invariant
                    pptp == PowerProdType::SPP,
                    i <= names@.len(),
                    last_named(names@, sub_th@) == last_named(names@.subrange(0, i as int), sub_th@),
                decreases i,
            {
                let ghost pre = names@.subrange(0, i as int);
                assert(pre.drop_last() =~= names@.subrange(0, i - 1));
                if str_eq(names[i - 1].0.as_str(), sub_th) {
                    return Some(names[i - 1].1.clone());
                }
                i = i - 1;
            }
            None
        },
        PowerProdType::VSPP => {
            let p = byte_prefix(fid, 3).unwrap();
            Some(p.to_owned())
        },
        _ => None,
    }
}

/// The positions of the entries of `keys` that are `Some(key)`, in order.
pub open spec fn positions_of(keys: Seq<Option<String>>, key: Seq<char>) -> Seq<usize>
    decreases keys.len(),
{
    if keys.len() == 0 {
        Seq::empty()
    } else {
        let rest = positions_of(keys.drop_last(), key);
        match keys.last() {
            Some(k) => if k@ == key {
                rest.push((keys.len() - 1) as usize)
            } else {
                rest
            },
            None => rest,
        }
    }
}

/// The positions of the entries of `keys` that are `Some(key)`, in order.
pub fn positions(keys: &Vec<Option<String>>, key: &str) -> (r: Vec<usize>)
    ensures
        r@ == positions_of(keys@, key@),
{
    let mut r: Vec<usize> = Vec::new();
    let mut i: usize = 0;
    while i < keys.len()
        invariant
            i <= keys@.len(),
            r@ == positions_of(keys@.subrange(0, i as int), key@),
        decreases keys@.len() - i,
    {
        let ghost pre = keys@.subrange(0, i + 1);
        assert(pre.drop_last() =~= keys@.subrange(0, i as int));
        match &keys[i] {
            Some(k) => {
                if str_eq(k.as_str(), key) {
                    r.push(i);
                }
            },
            None => {},
        }
        i = i + 1;
    }
    assert(keys@.subrange(0, i as int) =~= keys@);
    r
}

/// For each substation of `sub_ids`, the positions of the plan rows that
/// belong to it.
pub fn reps_of_subs(rep_sbids: &Vec<Option<String>>, sub_ids: &Vec<String>) -> (r: Vec<Vec<usize>>)
    ensures
        r@.len() == sub_ids@.len(),
        forall|s: int| 0 <= s < sub_ids@.len() ==> #[trigger] r@[s]@ == positions_of(rep_sbids@, sub_ids@[s]@),
{
    let mut r: Vec<Vec<usize>> = Vec::new();
    let mut s: usize = 0;
    while s < sub_ids.len()
        invariant
            s <= sub_ids@.len(),
            r@.len() == s,
            forall|t: int| 0 <= t < s ==> #[trigger] r@[t]@ == positions_of(rep_sbids@, sub_ids@[t]@),
        decreases sub_ids@.len() - s,
    {
        r.push(positions(rep_sbids, sub_ids[s].as_str()));
        s = s + 1;
    }
    r
}

// ---------------------------------------------------------------------------
// Low-voltage solar sheets.

/// The layout families of the low-voltage solar sheets.
#[derive(Debug, Clone, Copy, PartialEq, Eq, Structural)]
pub enum XlsxSolarType {
    Type2,
    Type3,
    Type4,
    Type5,
    Type6,
    Type7,
    Type8,
    Type9,
    TypeA,
    TypeB,
    Unknown,
}

/// Which row reader a sheet takes, with the header row and the columns it
/// reads: power, voltage, substation, circuit, transformer.
#[derive(Debug, Clone, Copy, PartialEq, Eq, Structural)]
pub enum SolarReader {
    /// Power, voltage and circuit columns.
    LowVolt3 { r: usize, p: usize, v: usize, c: usize },
    /// Power, voltage, substation and circuit columns.
    LowVolt4 { r: usize, p: usize, v: usize, s: usize, c: usize },
    /// Power, transformer, substation and circuit columns.
    LvTr4 { r: usize, p: usize, t: usize, s: usize, c: usize },
    /// Power and transformer columns.
    LvTr2 { r: usize, p: usize, t: usize },
}

/// The header patterns of the solar sheet families, one list per family in
/// the order they are tried on a cell: `[power, voltage, circuit]`,
/// `[power, voltage, substation, circuit]`,
/// `[power, transformer, substation, circuit]`, then seven
/// `[power, transformer]` families.
pub open spec fn solar_patterns() -> Seq<Seq<&'static str>> {
    seq![
        seq![r"(MW)", r"(kV)", r"ที่เชื่อมโยง"],
        seq![r"กำลังการผลิตติดตั้ง\s\(MW\)", r"แรงดันที่เชื่อมโยง\s\(\skV\s\)", r"สถานีไฟฟ้า", r"วงจร"],
        seq![r"กำลังผลิตติดตั้งตามสัญญา\s\(kWp\)", r"หมายเลขหม้อแปลงจำหน่ายที่เชื่อมโยง", r"สถานีไฟฟ้า", r"หม้อแปลงจำหน่ายรับไฟ\s22\skV\sจากวงจรที่"],
        seq![r"ปริมาณรวม\s\(kW\)", r"หมายเลขหม้อแปลงจำหน่ายที่เชื่อมโยง"],
        seq![r"Total\sPV\sCapacity\s\(kWp\)", r"รหัสวงจร"],
        seq![r"รวมกำลังการผลิตติดตั้ง\s\([kK]Wp\)", r"รหัสหม้อแปลง"],
        seq![r"\(kWp?\)", r"รหัสวงจร.*"],
        seq![r"\(\skW\s\)", r"หม้อแปลง\sPEA\sNO\."],
        seq![r"kWp", r"หม้อแปลง"],
        seq![r"สัญญา", r"PEA No. หม้อแปลง"],
    ]
}

/// The header patterns of family `g` of the solar sheets.
fn solar_group(g: usize) -> (r: Vec<&'static str>)
    requires
        g < 10,
    ensures
        r@ == solar_patterns()[g as int],
{
    if g == 0 {
        let mut v = Vec::new();
        v.push(r"(MW)");
        v.push(r"(kV)");
        v.push(r"ที่เชื่อมโยง");
        proof { assert(v@ =~= solar_patterns()[0]); }
        v
    } else if g == 1 {
        let mut v = Vec::new();
        v.push(r"กำลังการผลิตติดตั้ง\s\(MW\)");
        v.push(r"แรงดันที่เชื่อมโยง\s\(\skV\s\)");
        v.push(r"สถานีไฟฟ้า");
        v.push(r"วงจร");
        proof { assert(v@ =~= solar_patterns()[1]); }
        v
    } else if g == 2 {
        let mut v = Vec::new();
        v.push(r"กำลังผลิตติดตั้งตามสัญญา\s\(kWp\)");
        v.push(r"หมายเลขหม้อแปลงจำหน่ายที่เชื่อมโยง");
        v.push(r"สถานีไฟฟ้า");
        v.push(r"หม้อแปลงจำหน่ายรับไฟ\s22\skV\sจากวงจรที่");
        proof { assert(v@ =~= solar_patterns()[2]); }
        v
    } else if g == 3 {
        let mut v = Vec::new();
        v.push(r"ปริมาณรวม\s\(kW\)");
        v.push(r"หมายเลขหม้อแปลงจำหน่ายที่เชื่อมโยง");
        proof { assert(v@ =~= solar_patterns()[3]); }
        v
    } else if g == 4 {
        let mut v = Vec::new();
        v.push(r"Total\sPV\sCapacity\s\(kWp\)");
        v.push(r"รหัสวงจร");
        proof { assert(v@ =~= solar_patterns()[4]); }
        v
    } else if g == 5 {
        let mut v = Vec::new();
        v.push(r"รวมกำลังการผลิตติดตั้ง\s\([kK]Wp\)");
        v.push(r"รหัสหม้อแปลง");
        proof { assert(v@ =~= solar_patterns()[5]); }
        v
    } else if g == 6 {
        let mut v = Vec::new();
        v.push(r"\(kWp?\)");
        v.push(r"รหัสวงจร.*");
        proof { assert(v@ =~= solar_patterns()[6]); }
        v
    } else if g == 7 {
        let mut v = Vec::new();
        v.push(r"\(\skW\s\)");
        v.push(r"หม้อแปลง\sPEA\sNO\.");
        proof { assert(v@ =~= solar_patterns()[7]); }
        v
    } else if g == 8 {
        let mut v = Vec::new();
        v.push(r"kWp");
        v.push(r"หม้อแปลง");
        proof { assert(v@ =~= solar_patterns()[8]); }
        v
    } else if g == 9 {
        let mut v = Vec::new();
        v.push(r"สัญญา");
        v.push(r"PEA No. หม้อแปลง");
        proof { assert(v@ =~= solar_patterns()[9]); }
        v
    } else {
        let mut v = Vec::new();
        proof { assert(false); }
        v
    }
}

/// For family `g`, the header cell each of its patterns claims last within
/// the first ten rows.
pub open spec fn solar_heads(d: Seq<Vec<String>>) -> Seq<Seq<Option<(usize, usize)>>> {
    Seq::new(
        10,
        |g: int| Seq::new(solar_patterns()[g].len(), |p: int| rows_last(d, solar_patterns()[g], p, scanned_rows(d, 10))),
    )
}

/// Family `ty` of two header cells (power, transformer) on one row reads
/// from that row; cells on different rows give no layout; without both cells
/// the next family is tried.
pub open spec fn pair_layout(h: Seq<Option<(usize, usize)>>, ty: XlsxSolarType, next: (XlsxSolarType, Option<SolarReader>)) -> (XlsxSolarType, Option<SolarReader>) {
    if h[0] is Some && h[1] is Some {
        let (p, t) = (h[0]->0, h[1]->0);
        if p.0 == t.0 {
            (ty, Some(SolarReader::LvTr2 { r: t.0, p: p.1, t: t.1 }))
        } else {
            (XlsxSolarType::Unknown, None)
        }
    } else {
        next
    }
}

/// The family and reader of a solar sheet from its header cells. The first
/// family whose header cells are all present decides: when their rows fit
/// the family's shape the sheet is of that family, otherwise of none.
pub open spec fn solar_layout_of(h: Seq<Seq<Option<(usize, usize)>>>) -> (XlsxSolarType, Option<SolarReader>) {
    let (g2, g3, g4) = (h[0], h[1], h[2]);
    if g2[0] is Some && g2[1] is Some && g2[2] is Some {
        let (mw, kv, co) = (g2[0]->0, g2[1]->0, g2[2]->0);
        if mw.0 == kv.0 && kv.0 == co.0 {
            (XlsxSolarType::Type2, Some(SolarReader::LowVolt3 { r: mw.0, p: mw.1, v: kv.1, c: co.1 }))
        } else {
            (XlsxSolarType::Unknown, None)
        }
    } else if g3[0] is Some && g3[1] is Some && g3[2] is Some && g3[3] is Some {
        let (p3, v3, s3, c3) = (g3[0]->0, g3[1]->0, g3[2]->0, g3[3]->0);
        if p3.0 == v3.0 && v3.0 + 2 == s3.0 && s3.0 == c3.0 {
            (XlsxSolarType::Type3, Some(SolarReader::LowVolt4 { r: s3.0, p: p3.1, v: v3.1, s: s3.1, c: c3.1 }))
        } else {
            (XlsxSolarType::Unknown, None)
        }
    } else if g4[0] is Some && g4[1] is Some && g4[2] is Some && g4[3] is Some {
        let (p4, t4, s4, c4) = (g4[0]->0, g4[1]->0, g4[2]->0, g4[3]->0);
        if p4.0 + 1 == t4.0 && t4.0 == s4.0 && s4.0 == c4.0 {
            (XlsxSolarType::Type4, Some(SolarReader::LvTr4 { r: t4.0, p: p4.1, t: t4.1, s: s4.1, c: c4.1 }))
        } else {
            (XlsxSolarType::Unknown, None)
        }
    } else {
        pair_layout(h[3], XlsxSolarType::Type5,
        pair_layout(h[4], XlsxSolarType::Type6,
        pair_layout(h[5], XlsxSolarType::Type7,
        pair_layout(h[6], XlsxSolarType::Type8,
        pair_layout(h[7], XlsxSolarType::Type9,
        pair_layout(h[8], XlsxSolarType::TypeA,
        pair_layout(h[9], XlsxSolarType::TypeB, (XlsxSolarType::Unknown, None))))))))
    }
}

/// `pair_layout` on a family's scan result.
fn pair_layout_of(h: &Vec<Option<(usize, usize)>>, ty: XlsxSolarType) -> (r: Option<(XlsxSolarType, Option<SolarReader>)>)
    requires
        h@.len() == 2,
    ensures
        r is None <==> !(h@[0] is Some && h@[1] is Some),
        r is Some ==> r->0 == pair_layout(h@, ty, (XlsxSolarType::Unknown, None)),
{
    match (h[0], h[1]) {
        (Some(p), Some(t)) => {
            if p.0 == t.0 {
                Some((ty, Some(SolarReader::LvTr2 { r: t.0, p: p.1, t: t.1 })))
            } else {
                Some((XlsxSolarType::Unknown, None))
            }
        },
        _ => None,
    }
}

/// The layout family of a low-voltage solar sheet and the reader for its
/// rows, from the header cells found in its first ten rows.
pub fn solar_sheet_layout(data: &Vec<Vec<String>>) -> (r: (XlsxSolarType, Option<SolarReader>))
    ensures
        r == solar_layout_of(solar_heads(data@)),
        ({
            let h = solar_heads(data@);
            let (g0, g1, g2) = (h[0], h[1], h[2]);
            &&& r.1 is None <==> r.0 == XlsxSolarType::Unknown
            &&& r.0 == XlsxSolarType::Type2 <==> all_found(g0)
                && cell_row(g0[0]) == cell_row(g0[1]) && cell_row(g0[1]) == cell_row(g0[2])
            &&& r.0 == XlsxSolarType::Type2 ==> r.1 == Some(SolarReader::LowVolt3 {
                r: cell_row(g0[0]), p: cell_col(g0[0]), v: cell_col(g0[1]), c: cell_col(g0[2]) })
            &&& r.0 == XlsxSolarType::Type3 <==> !all_found(g0) && all_found(g1)
                && cell_row(g1[0]) == cell_row(g1[1]) && cell_row(g1[1]) + 2 == cell_row(g1[2]) && cell_row(g1[2]) == cell_row(g1[3])
            &&& r.0 == XlsxSolarType::Type3 ==> r.1 == Some(SolarReader::LowVolt4 {
                r: cell_row(g1[2]), p: cell_col(g1[0]), v: cell_col(g1[1]), s: cell_col(g1[2]), c: cell_col(g1[3]) })
            &&& r.0 == XlsxSolarType::Type4 <==> !all_found(g0) && !all_found(g1) && all_found(g2)
                && cell_row(g2[0]) + 1 == cell_row(g2[1]) && cell_row(g2[1]) == cell_row(g2[2]) && cell_row(g2[2]) == cell_row(g2[3])
            &&& r.0 == XlsxSolarType::Type4 ==> r.1 == Some(SolarReader::LvTr4 {
                r: cell_row(g2[1]), p: cell_col(g2[0]), t: cell_col(g2[1]), s: cell_col(g2[2]), c: cell_col(g2[3]) })
        }),
        forall|k: int| 3 <= k < 10 ==> (#[trigger] pair_type(k) == r.0 <==>
            (forall|j: int| 0 <= j < k ==> !all_found(#[trigger] solar_heads(data@)[j])) && all_found(solar_heads(data@)[k])
                && cell_row(solar_heads(data@)[k][0]) == cell_row(solar_heads(data@)[k][1])),
        forall|k: int| 3 <= k < 10 && #[trigger] pair_type(k) == r.0 ==>
            r.1 == Some(SolarReader::LvTr2 { r: cell_row(solar_heads(data@)[k][0]), p: cell_col(solar_heads(data@)[k][0]), t: cell_col(solar_heads(data@)[k][1]) }),
{
    proof {
        lemma_solar_heads_shaped(data@);
        lemma_solar_layout_families(solar_heads(data@));
    }
    let mut heads: Vec<Vec<Option<(usize, usize)>>> = Vec::new();
    let mut g: usize = 0;
    while g < 10
        invariant
            g <= 10,
            heads@.len() == g,
            forall|k: int| 0 <= k < g ==> #[trigger] heads@[k]@ == solar_heads(data@)[k],
        decreases 10 - g,
    {
        let pats = solar_group(g);
        let h = scan_header(data, 10, &pats);
        proof {
            assert(h@ =~= solar_heads(data@)[g as int]);
        }
        heads.push(h);
        g = g + 1;
    }
    let ghost hs = solar_heads(data@);
    assert(heads@[0]@ == hs[0]);
    assert(heads@[1]@ == hs[1]);
    assert(heads@[2]@ == hs[2]);
    let g2 = &heads[0];
    let g3 = &heads[1];
    let g4 = &heads[2];
    if let (Some(mw), Some(kv), Some(co)) = (g2[0], g2[1], g2[2]) {
        if mw.0 == kv.0 && kv.0 == co.0 {
            return (XlsxSolarType::Type2, Some(SolarReader::LowVolt3 { r: mw.0, p: mw.1, v: kv.1, c: co.1 }));
        }
        return (XlsxSolarType::Unknown, None);
    }
    if let (Some(p3), Some(v3), Some(s3), Some(c3)) = (g3[0], g3[1], g3[2], g3[3]) {
        if p3.0 == v3.0 && s3.0 >= 2 && v3.0 == s3.0 - 2 && s3.0 == c3.0 {
            return (XlsxSolarType::Type3, Some(SolarReader::LowVolt4 { r: s3.0, p: p3.1, v: v3.1, s: s3.1, c: c3.1 }));
        }
        return (XlsxSolarType::Unknown, None);
    }
    if let (Some(p4), Some(t4), Some(s4), Some(c4)) = (g4[0], g4[1], g4[2], g4[3]) {
        if t4.0 >= 1 && p4.0 == t4.0 - 1 && t4.0 == s4.0 && s4.0 == c4.0 {
            return (XlsxSolarType::Type4, Some(SolarReader::LvTr4 { r: t4.0, p: p4.1, t: t4.1, s: s4.1, c: c4.1 }));
        }
        return (XlsxSolarType::Unknown, None);
    }
    let tys = [
        XlsxSolarType::Type5,
        XlsxSolarType::Type6,
        XlsxSolarType::Type7,
        XlsxSolarType::Type8,
        XlsxSolarType::Type9,
        XlsxSolarType::TypeA,
        XlsxSolarType::TypeB,
    ];
    let mut k: usize = 3;
    proof {
        assert(tys@ =~= seq![XlsxSolarType::Type5, XlsxSolarType::Type6, XlsxSolarType::Type7, XlsxSolarType::Type8, XlsxSolarType::Type9, XlsxSolarType::TypeA, XlsxSolarType::TypeB]);
        reveal_with_fuel(pair_chain, 8);
        assert(solar_layout_of(hs) == pair_chain(hs, tys@, 3));
    }
    while k < 10
        invariant
            3 <= k <= 10,
            heads@.len() == 10,
            forall|q: int| 0 <= q < 10 ==> #[trigger] heads@[q]@ == hs[q],
            tys@ == seq![XlsxSolarType::Type5, XlsxSolarType::Type6, XlsxSolarType::Type7, XlsxSolarType::Type8, XlsxSolarType::Type9, XlsxSolarType::TypeA, XlsxSolarType::TypeB],
            solar_layout_of(hs) == pair_chain(hs, tys@, k as int),
            hs == solar_heads(data@),
        decreases 10 - k,
    {
        assert(heads@[k as int]@ == hs[k as int]);
        match pair_layout_of(&heads[k], tys[k - 3]) {
            Some(r) => {
                return r;
            },
            None => {},
        }
        k = k + 1;
    }
    (XlsxSolarType::Unknown, None)
}

/// The pair families from family `k` on, tried in order.
pub open spec fn pair_chain(h: Seq<Seq<Option<(usize, usize)>>>, tys: Seq<XlsxSolarType>, k: int) -> (XlsxSolarType, Option<SolarReader>)
    decreases 10 - k,
{
    if k < 3 || k >= 10 {
        (XlsxSolarType::Unknown, None)
    } else {
        pair_layout(h[k], tys[k - 3], pair_chain(h, tys, k + 1))
    }
}

/// The row of a found header cell.
pub open spec fn cell_row(c: Option<(usize, usize)>) -> usize {
    match c {
        Some(x) => x.0,
        None => 0,
    }
}

/// The column of a found header cell.
pub open spec fn cell_col(c: Option<(usize, usize)>) -> usize {
    match c {
        Some(x) => x.1,
        None => 0,
    }
}

/// Whether every header cell of a family was found.
pub open spec fn all_found(g: Seq<Option<(usize, usize)>>) -> bool {
    forall|i: int| 0 <= i < g.len() ==> #[trigger] g[i] is Some
}

/// The sheet type of pair family `k` (families 3 to 9).
pub open spec fn pair_type(k: int) -> XlsxSolarType {
    if k == 3 {
        XlsxSolarType::Type5
    } else if k == 4 {
        XlsxSolarType::Type6
    } else if k == 5 {
        XlsxSolarType::Type7
    } else if k == 6 {
        XlsxSolarType::Type8
    } else if k == 7 {
        XlsxSolarType::Type9
    } else if k == 8 {
        XlsxSolarType::TypeA
    } else {
        XlsxSolarType::TypeB
    }
}

/// Header cells of the right shape: ten families, with three, four and four
/// cells in the first three and two in each pair family.
pub open spec fn solar_heads_shaped(h: Seq<Seq<Option<(usize, usize)>>>) -> bool {
    &&& h.len() == 10
    &&& h[0].len() == 3
    &&& h[1].len() == 4
    &&& h[2].len() == 4
    &&& forall|k: int| 3 <= k < 10 ==> #[trigger] h[k].len() == 2
}

/// The header cells found in a sheet have the shape of the families.
pub proof fn lemma_solar_heads_shaped(d: Seq<Vec<String>>)
    ensures
        solar_heads_shaped(solar_heads(d)),
{
    let pats = solar_patterns();
    assert(pats.len() == 10);
    assert(pats[0].len() == 3 && pats[1].len() == 4 && pats[2].len() == 4);
    assert(pats[3].len() == 2 && pats[4].len() == 2 && pats[5].len() == 2 && pats[6].len() == 2);
    assert(pats[7].len() == 2 && pats[8].len() == 2 && pats[9].len() == 2);
}

/// How the header cells decide a solar sheet's layout. The families are
/// tried in order and the first one whose header cells are all present
/// decides:
/// - family 0 (MW, kV, circuit) on one row is `Type2`, read from that row;
/// - family 1 with power and voltage on one row and substation and circuit
///   two rows lower is `Type3`, read from the substation row;
/// - family 2 with power exactly one row above the transformer, substation
///   and circuit headers, which share a row, is `Type4`, read from that row;
/// - a pair family (power, transformer) on one row is its own type, read
///   from that row;
/// - a deciding family whose cells lie otherwise, or no complete family,
///   gives no layout and no reader.
pub proof fn lemma_solar_layout_families(h: Seq<Seq<Option<(usize, usize)>>>)
    requires
        solar_heads_shaped(h),
    ensures
        ({
            let r = solar_layout_of(h);
            let (g0, g1, g2) = (h[0], h[1], h[2]);
            &&& r.1 is None <==> r.0 == XlsxSolarType::Unknown
            &&& r.0 == XlsxSolarType::Type2 <==> all_found(g0)
                && cell_row(g0[0]) == cell_row(g0[1]) && cell_row(g0[1]) == cell_row(g0[2])
            &&& r.0 == XlsxSolarType::Type2 ==> r.1 == Some(SolarReader::LowVolt3 {
                r: cell_row(g0[0]), p: cell_col(g0[0]), v: cell_col(g0[1]), c: cell_col(g0[2]) })
            &&& r.0 == XlsxSolarType::Type3 <==> !all_found(g0) && all_found(g1)
                && cell_row(g1[0]) == cell_row(g1[1]) && cell_row(g1[1]) + 2 == cell_row(g1[2]) && cell_row(g1[2]) == cell_row(g1[3])
            &&& r.0 == XlsxSolarType::Type3 ==> r.1 == Some(SolarReader::LowVolt4 {
                r: cell_row(g1[2]), p: cell_col(g1[0]), v: cell_col(g1[1]), s: cell_col(g1[2]), c: cell_col(g1[3]) })
            &&& r.0 == XlsxSolarType::Type4 <==> !all_found(g0) && !all_found(g1) && all_found(g2)
                && cell_row(g2[0]) + 1 == cell_row(g2[1]) && cell_row(g2[1]) == cell_row(g2[2]) && cell_row(g2[2]) == cell_row(g2[3])
            &&& r.0 == XlsxSolarType::Type4 ==> r.1 == Some(SolarReader::LvTr4 {
                r: cell_row(g2[1]), p: cell_col(g2[0]), t: cell_col(g2[1]), s: cell_col(g2[2]), c: cell_col(g2[3]) })
        }),
        forall|k: int| 3 <= k < 10 ==> (#[trigger] pair_type(k) == solar_layout_of(h).0 <==>
            (forall|j: int| 0 <= j < k ==> !all_found(#[trigger] h[j])) && all_found(h[k])
                && cell_row(h[k][0]) == cell_row(h[k][1])),
        forall|k: int| 3 <= k < 10 && #[trigger] pair_type(k) == solar_layout_of(h).0 ==>
            solar_layout_of(h).1 == Some(SolarReader::LvTr2 { r: cell_row(h[k][0]), p: cell_col(h[k][0]), t: cell_col(h[k][1]) }),
{
    let (g0, g1, g2) = (h[0], h[1], h[2]);
    assert(all_found(g0) <==> g0[0] is Some && g0[1] is Some && g0[2] is Some);
    assert(all_found(g1) <==> g1[0] is Some && g1[1] is Some && g1[2] is Some && g1[3] is Some);
    assert(all_found(g2) <==> g2[0] is Some && g2[1] is Some && g2[2] is Some && g2[3] is Some);
    assert forall|k: int| 3 <= k < 10 implies (all_found(#[trigger] h[k]) <==> h[k][0] is Some && h[k][1] is Some) by {
        assert(h[k].len() == 2);
    }
    assert(h[3].len() == 2 && h[4].len() == 2 && h[5].len() == 2 && h[6].len() == 2);
    assert(h[7].len() == 2 && h[8].len() == 2 && h[9].len() == 2);
    assert(all_found(h[3]) <==> h[3][0] is Some && h[3][1] is Some);
    assert(all_found(h[4]) <==> h[4][0] is Some && h[4][1] is Some);
    assert(all_found(h[5]) <==> h[5][0] is Some && h[5][1] is Some);
    assert(all_found(h[6]) <==> h[6][0] is Some && h[6][1] is Some);
    assert(all_found(h[7]) <==> h[7][0] is Some && h[7][1] is Some);
    assert(all_found(h[8]) <==> h[8][0] is Some && h[8][1] is Some);
    assert(all_found(h[9]) <==> h[9][0] is Some && h[9][1] is Some);
    assert forall|k: int| 3 <= k < 10 implies (#[trigger] pair_type(k) == solar_layout_of(h).0 <==>
        (forall|j: int| 0 <= j < k ==> !all_found(#[trigger] h[j])) && all_found(h[k])
            && cell_row(h[k][0]) == cell_row(h[k][1])) by {
        if (forall|j: int| 0 <= j < k ==> !all_found(#[trigger] h[j])) && all_found(h[k]) && cell_row(h[k][0]) == cell_row(h[k][1]) {
        } else {
            if pair_type(k) == solar_layout_of(h).0 {
                assert(!all_found(h[0]) && !all_found(h[1]) && !all_found(h[2]));
                assert forall|j: int| 0 <= j < k implies !all_found(#[trigger] h[j]) by {
                    if 3 <= j && all_found(h[j]) {
                        assert(false);
                    }
                }
            }
        }
    }
}

/// The area code of a solar sheet from its file path: the Thai area name in
/// the directory named after the area's planning division.
pub fn solar_sheet_area(path: &str) -> (r: Option<&'static str>)
    ensures
        r == area_in_text(r"/กวว. (.?\.[0-9])/"@, path@),
{
    area_code_in(r"/กวว. (.?\.[0-9])/", path)
}

} // verus!
