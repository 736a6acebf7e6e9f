//! Office and land-use zone accounting of the distribution transformers:
//! the zone code table and the per-substation sets of offices, zones and
//! transformers.

use vstd::prelude::*;
use vstd::utf8::*;
use vstd::string::*;
use std::collections::HashSet;
use crate::text::{byte_prefix, keyed, lookup, str_eq, table_lookup};

verus! {

broadcast use vstd::std_specs::hash::group_hash_axioms;

/// The land-use zone codes with their Thai descriptions.
pub open spec fn zone_codes() -> Seq<(Seq<char>, &'static str)> {
    seq![
        ("11"@, "นิคมอุตสาหกรรม"),
        ("12"@, "เขตอุตสาหกรรม"),
        ("13"@, "สวนอุตสาหกรรม"),
        ("14"@, "ย่านอุตสาหกรรม"),
        ("21"@, "เทศศบาลนคร"),
        ("22"@, "เทศบาลเมืองที่เป็นพื้นที่ธุรกิจ"),
        ("23"@, "เทศบาลเมืองที่เป็นพื้นที่สำคัญ"),
        ("24"@, "เทศบาลตำบลที่เป็นพื้นที่ธุรกิจ"),
        ("25"@, "เทศบาลตำบลที่เป็นพื้นที่สำคัญ"),
        ("31"@, "เทศบาลเมือง"),
        ("41"@, "เทศบาลตำบล"),
        ("51"@, "ชนบท"),
    ]
}

/// The zone table: land-use zone code (such as `11`) to its Thai description, one entry per code.
pub fn zone_code() -> (r: Vec<(&'static str, &'static str)>)
    ensures
        keyed(r@) == zone_codes(),
{
    let mut r = Vec::new();
    r.push(("11", "นิคมอุตสาหกรรม"));
    r.push(("12", "เขตอุตสาหกรรม"));
    r.push(("13", "สวนอุตสาหกรรม"));
    r.push(("14", "ย่านอุตสาหกรรม"));
    r.push(("21", "เทศศบาลนคร"));
    r.push(("22", "เทศบาลเมืองที่เป็นพื้นที่ธุรกิจ"));
    r.push(("23", "เทศบาลเมืองที่เป็นพื้นที่สำคัญ"));
    r.push(("24", "เทศบาลตำบลที่เป็นพื้นที่ธุรกิจ"));
    r.push(("25", "เทศบาลตำบลที่เป็นพื้นที่สำคัญ"));
    r.push(("31", "เทศบาลเมือง"));
    r.push(("41", "เทศบาลตำบล"));
    r.push(("51", "ชนบท"));
    assert(keyed(r@) =~= zone_codes());
    r
}

/// The Thai description of a land-use zone code, if the table has it.
pub fn zone_desc(code: &str) -> (r: Option<&'static str>)
    ensures
        r == table_lookup(zone_codes(), code@),
{
    lookup(&zone_code(), code)
}
/// The offices, land-use zones and transformers seen for one substation.
#[derive(Debug, Default)]
pub struct SubstAreaZone {
    pub sbid: String,
    pub offs: HashSet<usize>,
    pub izns: HashSet<usize>,
    pub trxs: HashSet<usize>,
}

/// A grid area with its provinces and substations (each listed once, in
/// order of first appearance) and whether its last substation's province is
/// among the selected ones.
#[derive(Debug, Default)]
pub struct GridArea {
    pub arid: String,
    pub name: String,
    pub provs: Vec<String>,
    pub subs: Vec<String>,
    pub mark: bool,
}

/// A province with its substations (each listed once, in order of first
/// appearance) and whether it is among the selected provinces.
#[derive(Debug, Default)]
pub struct GridProv {
    pub name: String,
    pub subs: Vec<String>,
    pub mark: bool,
}

/// No two entries name the same substation.
pub open spec fn distinct_sbids(v: Seq<SubstAreaZone>) -> bool {
    forall|i: int, j: int| 0 <= i < v.len() && 0 <= j < v.len() && i != j ==> v[i].sbid@ != v[j].sbid@
}

/// The substation of a feeder: the first three bytes of the feeder id.
pub open spec fn feeder_sbid(fid: &str) -> Seq<char> {
    decode_utf8(fid.spec_bytes().subrange(0, 3))
}

/// Adds every item of `items` to the set.
fn insert_all(set: &mut HashSet<usize>, items: &Vec<usize>)
    ensures
        final(set)@ == old(set)@.union(items@.to_set()),
{
    let ghost orig = set@;
    let mut k: usize = 0;
    assert(items@.subrange(0, 0).to_set() =~= Set::<usize>::empty());
    while k < items.len()
        invariant
            k <= items@.len(),
            set@ == orig.union(items@.subrange(0, k as int).to_set()),
        decreases items@.len() - k,
    {
        set.insert(items[k]);
        proof {
            let p = items@.subrange(0, k + 1);
            assert(p.drop_last() =~= items@.subrange(0, k as int));
            assert(p.drop_last().to_set().insert(p.last()) =~= p.to_set());
            assert(set@ =~= orig.union(p.to_set()));
        }
        k = k + 1;
    }
    proof {
        assert(items@.subrange(0, k as int) =~= items@);
    }
}

/// The position of the entry for substation `sbid`, if there is one.
fn find_sub(subazm: &Vec<SubstAreaZone>, sbid: &str) -> (r: Option<usize>)
    requires
        distinct_sbids(subazm@),
    ensures
        r is Some ==> r->0 < subazm@.len() && subazm@[r->0 as int].sbid@ == sbid@,
        r is None ==> forall|i: int| 0 <= i < subazm@.len() ==> subazm@[i].sbid@ != sbid@,
{
    let mut i: usize = 0;
    while i < subazm.len()
        invariant
            i <= subazm@.len(),
            forall|j: int| 0 <= j < i ==> subazm@[j].sbid@ != sbid@,
        decreases subazm@.len() - i,
    {
        if str_eq(subazm[i].sbid.as_str(), sbid) {
            return Some(i);
        }
        i = i + 1;
    }
    None
}

/// Records a distribution transformer of feeder `fid` that lies in the
/// offices `offs` and the zones `izns` under transformer number `trx`.
///
/// A feeder id shorter than five bytes is skipped (`None`). Otherwise the
/// substation is the first three bytes of the feeder id: its entry, created
/// when missing, gains the offices, the zones and the transformer. The result
/// is the position of that entry.
pub fn record_transformer(
    subazm: &mut Vec<SubstAreaZone>,
    fid: &str,
    offs: &Vec<usize>,
    izns: &Vec<usize>,
    trx: usize,
) -> (r: Option<usize>)
    requires
        distinct_sbids(old(subazm)@),
        fid.len() >= 5 ==> is_char_boundary(fid.spec_bytes(), 3),
    ensures
        distinct_sbids(final(subazm)@),
        r is None <==> fid.len() < 5,
        r is None ==> final(subazm)@ == old(subazm)@,
        r is Some ==> {
            let i = r->0 as int;
            let key = feeder_sbid(fid);
            &&& i <= old(subazm)@.len()
            &&& final(subazm)@.len() == if i < old(subazm)@.len() { old(subazm)@.len() } else { old(subazm)@.len() + 1 }
            &&& forall|j: int| 0 <= j < old(subazm)@.len() && j != i ==> final(subazm)@[j] == old(subazm)@[j]
            &&& final(subazm)@[i].sbid@ == key
            &&& i < old(subazm)@.len() ==> {
                &&& old(subazm)@[i].sbid@ == key
                &&& final(subazm)@[i].offs@ == old(subazm)@[i].offs@.union(offs@.to_set())
                &&& final(subazm)@[i].izns@ == old(subazm)@[i].izns@.union(izns@.to_set())
                &&& final(subazm)@[i].trxs@ == old(subazm)@[i].trxs@.insert(trx)
            }
            &&& i == old(subazm)@.len() ==> {
                &&& forall|j: int| 0 <= j < old(subazm)@.len() ==> old(subazm)@[j].sbid@ != key
                &&& final(subazm)@[i].offs@ == offs@.to_set()
                &&& final(subazm)@[i].izns@ == izns@.to_set()
                &&& final(subazm)@[i].trxs@ == set![trx]
            }
        },
{
    if fid.len() < 5 {
        return None;
    }
    let sbid = byte_prefix(fid, 3).unwrap();
    match find_sub(subazm, sbid) {
        Some(i) => {
            let mut e = subazm.remove(i);
            insert_all(&mut e.offs, offs);
            insert_all(&mut e.izns, izns);
            e.trxs.insert(trx);
            subazm.insert(i, e);
            proof {
                assert forall|a: int, b: int| 0 <= a < subazm@.len() && 0 <= b < subazm@.len() && a != b
                    implies subazm@[a].sbid@ != subazm@[b].sbid@ by {
                    assert(subazm@ == old(subazm)@.update(i as int, e));
                }
            }
            Some(i)
        },
        None => {
            let mut e = SubstAreaZone {
                sbid: sbid.to_owned(),
                offs: HashSet::new(),
                izns: HashSet::new(),
                trxs: HashSet::new(),
            };
            insert_all(&mut e.offs, offs);
            insert_all(&mut e.izns, izns);
            e.trxs.insert(trx);
            proof {
                assert(e.offs@ =~= offs@.to_set());
                assert(e.izns@ =~= izns@.to_set());
                assert(e.trxs@ =~= set![trx]);
            }
            let n = subazm.len();
            subazm.push(e);
            Some(n)
        },
    }
}

/// The fourth map pass; it draws nothing and always succeeds.
pub fn map4() -> (r: Result<(), String>)
    ensures
        r is Ok,
{
    Ok(())
}


// ---------------------------------------------------------------------------
// Areas and provinces of the substations, with the selection marks.

/// The texts as character sequences.
pub open spec fn texts(v: Seq<String>) -> Seq<Seq<char>> {
    v.map_values(|t: String| t@)
}

/// The list with `x` added at the end unless it is already there.
pub open spec fn set_add(s: Seq<Seq<char>>, x: Seq<char>) -> Seq<Seq<char>> {
    if s.contains(x) {
        s
    } else {
        s.push(x)
    }
}

/// An area as id, name, provinces, substations and mark.
pub type AreaView = (Seq<char>, Seq<char>, Seq<Seq<char>>, Seq<Seq<char>>, bool);

/// A province as name, substations and mark.
pub type ProvView = (Seq<char>, Seq<Seq<char>>, bool);

/// The view of an area.
pub open spec fn area_view(a: GridArea) -> AreaView {
    (a.arid@, a.name@, texts(a.provs@), texts(a.subs@), a.mark)
}

/// The view of a province.
pub open spec fn prov_view(p: GridProv) -> ProvView {
    (p.name@, texts(p.subs@), p.mark)
}

/// The selected substations of province `p` (the first entry for it), if the
/// province is selected.
pub open spec fn sel_of(sel: Seq<(String, Vec<String>)>, p: Seq<char>) -> Option<Seq<Seq<char>>>
    decreases sel.len(),
{
    if sel.len() == 0 {
        None
    } else if sel[0].0@ == p {
        Some(texts(sel[0].1@))
    } else {
        sel_of(sel.drop_first(), p)
    }
}

/// A substation (id, area id, area name, province) is selected: its province
/// is, and lists it.
pub open spec fn sub_selected(sel: Seq<(String, Vec<String>)>, sb: (String, String, String, String)) -> bool {
    match sel_of(sel, sb.3@) {
        Some(l) => l.contains(sb.0@),
        None => false,
    }
}

/// The first area with id `a`.
pub open spec fn area_pos(v: Seq<AreaView>, a: Seq<char>, j: int) -> Option<int>
    decreases v.len() - j,
{
    if j < 0 || j >= v.len() {
        None
    } else if v[j].0 == a {
        Some(j)
    } else {
        area_pos(v, a, j + 1)
    }
}

/// The first province named `p`.
pub open spec fn prov_pos(v: Seq<ProvView>, p: Seq<char>, j: int) -> Option<int>
    decreases v.len() - j,
{
    if j < 0 || j >= v.len() {
        None
    } else if v[j].0 == p {
        Some(j)
    } else {
        prov_pos(v, p, j + 1)
    }
}

/// The areas after the first `n` substations: an existing area gains the
/// province and the substation and takes the substation's province mark; a
/// new area starts with them.
pub open spec fn areas_after(subs: Seq<(String, String, String, String)>, sel: Seq<(String, Vec<String>)>, n: int) -> Seq<AreaView>
    decreases n,
{
    if n <= 0 {
        Seq::empty()
    } else {
        let v = areas_after(subs, sel, n - 1);
        let sb = subs[n - 1];
        let mk = sel_of(sel, sb.3@) is Some;
        match area_pos(v, sb.1@, 0) {
            Some(q) => v.update(q, (v[q].0, v[q].1, set_add(v[q].2, sb.3@), set_add(v[q].3, sb.0@), mk)),
            None => v.push((sb.1@, sb.2@, seq![sb.3@], seq![sb.0@], mk)),
        }
    }
}

/// The provinces after the first `n` substations: an existing province
/// gains the substation; a new one starts with it and its mark.
pub open spec fn provs_after(subs: Seq<(String, String, String, String)>, sel: Seq<(String, Vec<String>)>, n: int) -> Seq<ProvView>
    decreases n,
{
    if n <= 0 {
        Seq::empty()
    } else {
        let v = provs_after(subs, sel, n - 1);
        let sb = subs[n - 1];
        match prov_pos(v, sb.3@, 0) {
            Some(q) => v.update(q, (v[q].0, set_add(v[q].1, sb.0@), v[q].2)),
            None => v.push((sb.3@, seq![sb.0@], sel_of(sel, sb.3@) is Some)),
        }
    }
}

/// The selected substations among the first `n`, in order.
pub open spec fn selected_after(subs: Seq<(String, String, String, String)>, sel: Seq<(String, Vec<String>)>, n: int) -> Seq<Seq<char>>
    decreases n,
{
    if n <= 0 {
        Seq::empty()
    } else if sub_selected(sel, subs[n - 1]) {
        selected_after(subs, sel, n - 1).push(subs[n - 1].0@)
    } else {
        selected_after(subs, sel, n - 1)
    }
}

fn has_text(v: &Vec<String>, x: &str) -> (r: bool)
    ensures
        r == texts(v@).contains(x@),
{
    let mut i: usize = 0;
    while i < v.len()
        invariant
            i <= v@.len(),
            forall|k: int| 0 <= k < i ==> v@[k]@ != x@,
        decreases v@.len() - i,
    {
        if str_eq(v[i].as_str(), x) {
            proof {
                assert(texts(v@)[i as int] == x@);
            }
            return true;
        }
        i = i + 1;
    }
    proof {
        if texts(v@).contains(x@) {
            let k = choose|k: int| 0 <= k < texts(v@).len() && texts(v@)[k] == x@;
            assert(v@[k]@ == x@);
        }
    }
    false
}

fn add_text(v: &mut Vec<String>, x: &str)
    ensures
        texts(final(v)@) == set_add(texts(old(v)@), x@),
{
    if !has_text(v, x) {
        let ghost before = texts(v@);
        v.push(x.to_owned());
        proof {
            assert(texts(v@) =~= before.push(x@));
        }
    }
}

fn selection(sel: &Vec<(String, Vec<String>)>, p: &str) -> (r: Option<usize>)
    ensures
        match r {
            Some(i) => i < sel@.len() && sel_of(sel@, p@) == Some(texts(sel@[i as int].1@)),
            None => sel_of(sel@, p@) is None,
        },
{
    let mut i: usize = 0;
    assert(sel@.subrange(0, sel@.len() as int) =~= sel@);
    while i < sel.len()
        invariant
            i <= sel@.len(),
            sel_of(sel@, p@) == sel_of(sel@.subrange(i as int, sel@.len() as int), p@),
        decreases sel@.len() - i,
    {
        let ghost rest = sel@.subrange(i as int, sel@.len() as int);
        assert(rest.drop_first() =~= sel@.subrange(i + 1, sel@.len() as int));
        if str_eq(sel[i].0.as_str(), p) {
            return Some(i);
        }
        i = i + 1;
    }
    None
}

/// The areas, the provinces and the selected substations of the substation
/// list (`subs`: id, area id, area name, province of each, in order), given
/// the selected substations of each selected province (`sel`). Areas and
/// provinces come in order of first appearance.
pub fn grid_accounts(subs: &Vec<(String, String, String, String)>, sel: &Vec<(String, Vec<String>)>) -> (r: (Vec<GridArea>, Vec<GridProv>, Vec<String>))
    ensures
        r.0@.map_values(|a: GridArea| area_view(a)) == areas_after(subs@, sel@, subs@.len() as int),
        r.1@.map_values(|p: GridProv| prov_view(p)) == provs_after(subs@, sel@, subs@.len() as int),
        texts(r.2@) == selected_after(subs@, sel@, subs@.len() as int),
{
    let mut areas: Vec<GridArea> = Vec::new();
    let mut provs: Vec<GridProv> = Vec::new();
    let mut chosen: Vec<String> = Vec::new();
    let mut n: usize = 0;
    assert(areas@.map_values(|a: GridArea| area_view(a)) =~= Seq::<AreaView>::empty());
    assert(provs@.map_values(|p: GridProv| prov_view(p)) =~= Seq::<ProvView>::empty());
    assert(texts(chosen@) =~= Seq::<Seq<char>>::empty());
    while n < subs.len()
        invariant
            n <= subs@.len(),
            areas@.map_values(|a: GridArea| area_view(a)) == areas_after(subs@, sel@, n as int),
            provs@.map_values(|p: GridProv| prov_view(p)) == provs_after(subs@, sel@, n as int),
            texts(chosen@) == selected_after(subs@, sel@, n as int),
        decreases subs@.len() - n,
    {
        let sb = &subs[n];
        let ghost av = areas@.map_values(|a: GridArea| area_view(a));
        let ghost pv = provs@.map_values(|p: GridProv| prov_view(p));
        let si = selection(sel, sb.3.as_str());
        let pvmk = si.is_some();
        let sbmk = match si {
            Some(i) => has_text(&sel[i].1, sb.0.as_str()),
            None => false,
        };
        if sbmk {
            let ghost c0 = texts(chosen@);
            chosen.push(sb.0.clone());
            proof {
                assert(texts(chosen@) =~= c0.push(sb.0@));
            }
        }
        // the area of the substation
        let mut q: usize = 0;
        while q < areas.len() && !str_eq(areas[q].arid.as_str(), sb.1.as_str())
            invariant
                q <= areas@.len(),
                av == areas@.map_values(|a: GridArea| area_view(a)),
                area_pos(av, sb.1@, 0) == area_pos(av, sb.1@, q as int),
            decreases areas@.len() - q,
        {
            q = q + 1;
        }
        if q < areas.len() {
            let mut a = areas.remove(q);
            add_text(&mut a.provs, sb.3.as_str());
            add_text(&mut a.subs, sb.0.as_str());
            a.mark = pvmk;
            areas.insert(q, a);
            proof {
                assert(areas@.map_values(|a: GridArea| area_view(a)) =~= av.update(q as int,
                    (av[q as int].0, av[q as int].1, set_add(av[q as int].2, sb.3@), set_add(av[q as int].3, sb.0@), pvmk)));
            }
        } else {
            let mut ps: Vec<String> = Vec::new();
            ps.push(sb.3.clone());
            let mut ss: Vec<String> = Vec::new();
            ss.push(sb.0.clone());
            let a = GridArea { arid: sb.1.clone(), name: sb.2.clone(), provs: ps, subs: ss, mark: pvmk };
            proof {
                assert(texts(a.provs@) =~= seq![sb.3@]);
                assert(texts(a.subs@) =~= seq![sb.0@]);
            }
            areas.push(a);
            proof {
                assert(areas@.map_values(|a: GridArea| area_view(a)) =~= av.push((sb.1@, sb.2@, seq![sb.3@], seq![sb.0@], pvmk)));
            }
        }
        // the province of the substation
        let mut q: usize = 0;
        while q < provs.len() && !str_eq(provs[q].name.as_str(), sb.3.as_str())
            invariant
                q <= provs@.len(),
                pv == provs@.map_values(|p: GridProv| prov_view(p)),
                prov_pos(pv, sb.3@, 0) == prov_pos(pv, sb.3@, q as int),
            decreases provs@.len() - q,
        {
            q = q + 1;
        }
        if q < provs.len() {
            let mut p = provs.remove(q);
            add_text(&mut p.subs, sb.0.as_str());
            provs.insert(q, p);
            proof {
                assert(provs@.map_values(|p: GridProv| prov_view(p)) =~= pv.update(q as int,
                    (pv[q as int].0, set_add(pv[q as int].1, sb.0@), pv[q as int].2)));
            }
        } else {
            let mut ss: Vec<String> = Vec::new();
            ss.push(sb.0.clone());
            let p = GridProv { name: sb.3.clone(), subs: ss, mark: pvmk };
            proof {
                assert(texts(p.subs@) =~= seq![sb.0@]);
            }
            provs.push(p);
            proof {
                assert(provs@.map_values(|p: GridProv| prov_view(p)) =~= pv.push((sb.3@, seq![sb.0@], pvmk)));
            }
        }
        n = n + 1;
    }
    (areas, provs, chosen)
}

} // verus!
