//! Substation assessment rules: the zone weight of a transformer's land-use
//! zone and the split of meters into small and large customers.

use vstd::prelude::*;
use crate::text::{keyed, lookup, str_eq, table_lookup};
use crate::pattern::{capture_group, hits, pattern_group, pattern_hits};

verus! {

/// The land-use zone codes with the weight each zone gives a transformer.
pub open spec fn zone_weights() -> Seq<(Seq<char>, u32)> {
    seq![
        ("21"@, 12u32),
        ("22"@, 21u32),
        ("23"@, 20u32),
        ("24"@, 19u32),
        ("25"@, 18u32),
        ("11"@, 17u32),
        ("12"@, 16u32),
        ("13"@, 15u32),
        ("14"@, 14u32),
        ("31"@, 13u32),
        ("41"@, 12u32),
        ("42"@, 11u32),
        ("51"@, 10u32),
    ]
}

/// The zone-weight table: land-use zone code (such as `22`) to its weight.
pub fn zone_weight_table() -> (r: Vec<(&'static str, u32)>)
    ensures
        keyed(r@) == zone_weights(),
{
    let mut r = Vec::new();
    r.push(("21", 12u32));
    r.push(("22", 21u32));
    r.push(("23", 20u32));
    r.push(("24", 19u32));
    r.push(("25", 18u32));
    r.push(("11", 17u32));
    r.push(("12", 16u32));
    r.push(("13", 15u32));
    r.push(("14", 14u32));
    r.push(("31", 13u32));
    r.push(("41", 12u32));
    r.push(("42", 11u32));
    r.push(("51", 10u32));
    assert(keyed(r@) =~= zone_weights());
    r
}

/// The weight of a land-use zone code, if the table has it.
pub fn zone_weight(code: &str) -> (r: Option<u32>)
    ensures
        r == table_lookup(zone_weights(), code@),
{
    lookup(&zone_weight_table(), code)
}
/// The weight of a transformer's zone: the table weight of its zone code,
/// or the rural weight 10 when it has no code or an unknown one.
pub open spec fn zone_factor_of(zncd: Option<&str>) -> u32 {
    match zncd {
        Some(c) => match table_lookup(zone_weights(), c@) {
            Some(w) => w,
            None => 10,
        },
        None => 10,
    }
}

/// The weight of a transformer's zone from its zone code.
pub fn zone_factor(zncd: Option<&str>) -> (r: u32)
    ensures
        r == zone_factor_of(zncd),
{
    match zncd {
        Some(c) => match zone_weight(c) {
            Some(w) => w,
            None => 10,
        },
        None => 10,
    }
}

/// A meter bills a small customer when its rate code contains a `1` or a
/// `2` (the pattern `[12].*` matches) and it has no main meter.
pub fn meter_is_small(rate: &str, main: &str) -> (r: bool)
    ensures
        r == (hits(r"[12].*"@, rate@) && main@.len() == 0),
{
    pattern_hits(r"[12].*", rate) && main.is_empty()
}

/// Whether a transformer belongs to PEA itself (owner `PEA`) rather than to
/// a customer.
pub fn owned_by_pea(owner: &str) -> (r: bool)
    ensures
        r == (owner@ == "PEA"@),
{
    str_eq(owner, "PEA")
}

// ---------------------------------------------------------------------------
// Offices (AOJ) of a substation ranked by how many of its transformers they
// serve.

/// The position of the entry for office `a`, from `j` on.
pub open spec fn tally_pos_from(t: Seq<(usize, usize)>, a: usize, j: int) -> Option<int>
    decreases t.len() - j,
{
    if j < 0 || j >= t.len() {
        None
    } else if t[j].1 == a {
        Some(j)
    } else {
        tally_pos_from(t, a, j + 1)
    }
}

/// The tally `(count, office)` after one more occurrence of office `a`.
pub open spec fn tally_add(t: Seq<(usize, usize)>, a: usize) -> Seq<(usize, usize)> {
    match tally_pos_from(t, a, 0) {
        Some(p) => t.update(p, ((t[p].0 + 1) as usize, a)),
        None => t.push((1usize, a)),
    }
}

/// The tally of the first `n` occurrences: one `(count, office)` entry per
/// office in order of first occurrence.
pub open spec fn tally_of(occ: Seq<usize>, n: int) -> Seq<(usize, usize)>
    decreases n,
{
    if n <= 0 {
        Seq::empty()
    } else {
        tally_add(tally_of(occ, n - 1), occ[n - 1])
    }
}

/// How many of the first `n` occurrences are of office `a`.
pub open spec fn count_in(occ: Seq<usize>, n: int, a: usize) -> int
    decreases n,
{
    if n <= 0 {
        0
    } else {
        count_in(occ, n - 1, a) + if occ[n - 1] == a {
            1int
        } else {
            0int
        }
    }
}

proof fn lemma_tally_pos(t: Seq<(usize, usize)>, a: usize, j: int)
    requires
        0 <= j,
    ensures
        tally_pos_from(t, a, j) matches Some(p) ==> j <= p < t.len() && t[p].1 == a,
        tally_pos_from(t, a, j) is None ==> forall|q: int| j <= q < t.len() ==> t[q].1 != a,
    decreases t.len() - j,
{
    if j < t.len() && t[j].1 != a {
        lemma_tally_pos(t, a, j + 1);
    }
}

/// Occurrence `i` of the first `n` has an entry in their tally.
pub open spec fn tallied(occ: Seq<usize>, n: int, i: int) -> bool {
    exists|k: int| 0 <= k < tally_of(occ, n).len() && #[trigger] tally_of(occ, n)[k].1 == occ[i]
}

/// The tally is right: each office once, with the number of its
/// occurrences, and every occurring office is in it.
pub proof fn lemma_tally_counts(occ: Seq<usize>, n: int)
    requires
        0 <= n <= occ.len(),
        occ.len() < usize::MAX,
    ensures
        forall|k: int| 0 <= k < tally_of(occ, n).len() ==> #[trigger] tally_of(occ, n)[k].0 == count_in(occ, n, tally_of(occ, n)[k].1),
        forall|k: int, l: int| 0 <= k < l < tally_of(occ, n).len() ==> #[trigger] tally_of(occ, n)[k].1 != #[trigger] tally_of(occ, n)[l].1,
        forall|i: int| 0 <= i < n ==> #[trigger] tallied(occ, n, i),
    decreases n,
{
    if n > 0 {
        lemma_tally_counts(occ, n - 1);
        let t = tally_of(occ, n - 1);
        let a = occ[n - 1];
        lemma_tally_pos(t, a, 0);
        let u = tally_of(occ, n);
        assert(u == tally_add(t, a));
        assert forall|k: int| 0 <= k < u.len() implies #[trigger] u[k].0 == count_in(occ, n, u[k].1) by {
            match tally_pos_from(t, a, 0) {
                Some(p) => {
                    if k == p {
                        assert(tally_of(occ, n - 1)[k].0 == count_in(occ, n - 1, tally_of(occ, n - 1)[k].1));
                        lemma_count_bound(occ, n - 1, a);
                    } else {
                        assert(tally_of(occ, n - 1)[k].0 == count_in(occ, n - 1, tally_of(occ, n - 1)[k].1));
                        if k < p {
                            assert(tally_of(occ, n - 1)[k].1 != tally_of(occ, n - 1)[p].1);
                        } else {
                            assert(tally_of(occ, n - 1)[p].1 != tally_of(occ, n - 1)[k].1);
                        }
                    }
                },
                None => {
                    if k < t.len() {
                        assert(tally_of(occ, n - 1)[k].0 == count_in(occ, n - 1, tally_of(occ, n - 1)[k].1));
                    } else {
                        assert forall|i: int| 0 <= i < n - 1 implies occ[i] != a by {
                            assert(tallied(occ, n - 1, i));
                        }
                        lemma_count_zero(occ, n - 1, a);
                    }
                },
            }
        }
        assert forall|k: int, l: int| 0 <= k < l < u.len() implies #[trigger] u[k].1 != #[trigger] u[l].1 by {
            if l < t.len() {
                assert(tally_of(occ, n - 1)[k].1 != tally_of(occ, n - 1)[l].1);
            }
        }
        assert forall|i: int| 0 <= i < n implies #[trigger] tallied(occ, n, i) by {
            if i < n - 1 {
                assert(tallied(occ, n - 1, i));
                let k = choose|k: int| 0 <= k < tally_of(occ, n - 1).len() && #[trigger] tally_of(occ, n - 1)[k].1 == occ[i];
                assert(tally_of(occ, n)[k].1 == occ[i]);
            } else {
                match tally_pos_from(t, a, 0) {
                    Some(p) => {
                        assert(tally_of(occ, n)[p].1 == occ[i]);
                    },
                    None => {
                        assert(tally_of(occ, n)[t.len() as int].1 == occ[i]);
                    },
                }
            }
        }
    }
}

proof fn lemma_count_zero(occ: Seq<usize>, n: int, a: usize)
    requires
        0 <= n,
        forall|i: int| 0 <= i < n ==> occ[i] != a,
    ensures
        count_in(occ, n, a) == 0,
    decreases n,
{
    if n > 0 {
        lemma_count_zero(occ, n - 1, a);
    }
}

proof fn lemma_count_bound(occ: Seq<usize>, n: int, a: usize)
    requires
        0 <= n,
    ensures
        0 <= count_in(occ, n, a) <= n,
    decreases n,
{
    if n > 0 {
        lemma_count_bound(occ, n - 1, a);
    }
}

/// Where an entry with count `c` goes in a list ranked by count: after every
/// entry with a count of at least `c`, from `j` on.
pub open spec fn rank_pos_from(s: Seq<(usize, usize)>, c: usize, j: int) -> int
    decreases s.len() - j,
{
    if j < 0 || j >= s.len() {
        s.len() as int
    } else if s[j].0 < c {
        j
    } else {
        rank_pos_from(s, c, j + 1)
    }
}

/// The first `n` tally entries ranked by count, highest first, keeping the
/// order of first occurrence among equal counts.
pub open spec fn ranked(t: Seq<(usize, usize)>, n: int) -> Seq<(usize, usize)>
    decreases n,
{
    if n <= 0 {
        Seq::empty()
    } else {
        let s = ranked(t, n - 1);
        s.insert(rank_pos_from(s, t[n - 1].0, 0), t[n - 1])
    }
}

/// The counts never increase along the list.
pub open spec fn ranked_by_count(s: Seq<(usize, usize)>) -> bool {
    forall|i: int, j: int| 0 <= i <= j < s.len() ==> s[i].0 >= s[j].0
}

proof fn lemma_rank_pos(s: Seq<(usize, usize)>, c: usize, j: int)
    requires
        0 <= j <= s.len(),
    ensures
        j <= rank_pos_from(s, c, j) <= s.len(),
        forall|k: int| j <= k < rank_pos_from(s, c, j) ==> s[k].0 >= c,
        rank_pos_from(s, c, j) < s.len() ==> s[rank_pos_from(s, c, j)].0 < c,
    decreases s.len() - j,
{
    if j < s.len() && s[j].0 >= c {
        lemma_rank_pos(s, c, j + 1);
    }
}

/// Ranking keeps the list ordered by count and holds each tally entry once.
pub proof fn lemma_ranked(t: Seq<(usize, usize)>, n: int)
    requires
        0 <= n <= t.len(),
    ensures
        ranked_by_count(ranked(t, n)),
        ranked(t, n).len() == n,
        ranked(t, n).to_multiset() == t.subrange(0, n).to_multiset(),
    decreases n,
{
    if n > 0 {
        lemma_ranked(t, n - 1);
        let s = ranked(t, n - 1);
        let x = t[n - 1];
        let p = rank_pos_from(s, x.0, 0);
        lemma_rank_pos(s, x.0, 0);
        let r = s.insert(p, x);
        assert forall|i: int, j: int| 0 <= i <= j < r.len() implies r[i].0 >= r[j].0 by {
            if j < p {
                assert(r[i] == s[i] && r[j] == s[j]);
            } else if j == p {
                if i < p {
                    assert(r[i] == s[i]);
                }
            } else {
                assert(r[j] == s[j - 1]);
                if i < p {
                    assert(r[i] == s[i]);
                } else if i == p {
                    if p < s.len() {
                        assert(s[p].0 < x.0);
                        assert(s[p].0 >= s[j - 1].0);
                    }
                } else {
                    assert(r[i] == s[i - 1]);
                }
            }
        }
        broadcast use vstd::seq_lib::group_to_multiset_ensures, vstd::multiset::group_multiset_axioms;
        let a = s.subrange(0, p);
        let b = s.subrange(p, s.len() as int);
        assert(s =~= a + b);
        vstd::seq_lib::lemma_multiset_commutative(a, b);
        vstd::seq_lib::lemma_multiset_commutative(a.push(x), b);
        assert(r =~= a.push(x) + b);
        assert(a.push(x).to_multiset() =~= a.to_multiset().insert(x));
        assert(r.to_multiset() =~= s.to_multiset().insert(x));
        assert(t.subrange(0, n) =~= t.subrange(0, n - 1).push(x));
        assert(t.subrange(0, n).to_multiset() =~= t.subrange(0, n - 1).to_multiset().insert(x));
        assert(ranked(t, n) == r);
    } else {
        broadcast use vstd::seq_lib::group_to_multiset_ensures, vstd::multiset::group_multiset_axioms;
        assert(t.subrange(0, 0) =~= Seq::<(usize, usize)>::empty());
        assert(ranked(t, n) =~= Seq::<(usize, usize)>::empty());
        assert(t.subrange(0, 0).to_multiset() =~= vstd::multiset::Multiset::empty());
        assert(ranked(t, n).to_multiset() =~= vstd::multiset::Multiset::empty());
    }
}

/// The tally of the office occurrences.
fn tally(occ: &Vec<usize>) -> (r: Vec<(usize, usize)>)
    requires
        occ@.len() < usize::MAX,
    ensures
        r@ == tally_of(occ@, occ@.len() as int),
{
    let mut r: Vec<(usize, usize)> = Vec::new();
    let mut i: usize = 0;
    while i < occ.len()
        invariant
            i <= occ@.len(),
            occ@.len() < usize::MAX,
            r@ == tally_of(occ@, i as int),
            forall|k: int| 0 <= k < r@.len() ==> #[trigger] r@[k].0 <= i,
        decreases occ@.len() - i,
    {
        let a = occ[i];
        let ghost before = r@;
        let mut j: usize = 0;
        while j < r.len() && r[j].1 != a
            invariant
                j <= r@.len(),
                r@ == before,
                tally_pos_from(before, a, 0) == tally_pos_from(before, a, j as int),
            decreases r@.len() - j,
        {
            j = j + 1;
        }
        if j < r.len() {
            let c = r[j].0;
            r.set(j, (c + 1, a));
        } else {
            r.push((1, a));
        }
        i = i + 1;
    }
    r
}

/// Ranks a tally by count, highest first, keeping the order of first
/// occurrence among equal counts.
fn rank(t: &Vec<(usize, usize)>) -> (r: Vec<(usize, usize)>)
    ensures
        r@ == ranked(t@, t@.len() as int),
{
    let mut r: Vec<(usize, usize)> = Vec::new();
    let mut i: usize = 0;
    while i < t.len()
        invariant
            i <= t@.len(),
            r@ == ranked(t@, i as int),
        decreases t@.len() - i,
    {
        let x = t[i];
        let ghost before = r@;
        let mut j: usize = 0;
        while j < r.len() && r[j].0 >= x.0
            invariant
                j <= r@.len(),
                r@ == before,
                rank_pos_from(before, x.0, 0) == rank_pos_from(before, x.0, j as int),
            decreases r@.len() - j,
        {
            j = j + 1;
        }
        r.insert(j, x);
        i = i + 1;
    }
    r
}

/// The offices serving a substation's transformers, from the office of each
/// transformer in turn: `(count, office)` for each office, the office serving
/// most transformers first, offices with equal counts in order of first
/// occurrence.
pub fn aoj_ranking(occ: &Vec<usize>) -> (r: Vec<(usize, usize)>)
    requires
        occ@.len() < usize::MAX,
    ensures
        r@ == ranked(tally_of(occ@, occ@.len() as int), tally_of(occ@, occ@.len() as int).len() as int),
        ranked_by_count(r@),
{
    let t = tally(occ);
    let r = rank(&t);
    proof {
        lemma_ranked(t@, t@.len() as int);
    }
    r
}


// ---------------------------------------------------------------------------
// Transformer and meter counts of a substation.

/// A transformer as the assessment counts it: its owner, when recorded, and
/// for each of its meters the rate code and main-meter field of the meter's
/// first bill (`None` for a meter without bills).
pub struct TransMeters {
    pub owner: Option<String>,
    pub meters: Vec<Option<(String, String)>>,
}

/// The counts of a substation: transformers owned by PEA and by customers,
/// meters of small and of large customers, and meters under PEA's and under
/// customers' transformers.
#[derive(Clone, Copy, Debug, PartialEq, Eq, Structural)]
pub struct MeterCounts {
    pub trpe: usize,
    pub trcu: usize,
    pub mt13: usize,
    pub mt45: usize,
    pub mtpe: usize,
    pub mtcu: usize,
}

/// Whether a transformer is PEA's (`Some(true)`), a customer's
/// (`Some(false)`), or has no recorded owner (`None`).
pub open spec fn owner_pea(t: TransMeters) -> Option<bool> {
    match t.owner {
        Some(o) => Some(o@ == "PEA"@),
        None => None,
    }
}

/// A billed meter is a small customer's (see `meter_is_small`).
pub open spec fn small_meter(m: (String, String)) -> bool {
    hits(r"[12].*"@, m.0@) && m.1@.len() == 0
}

/// The number of billed meters among the first `n`.
pub open spec fn billed(ms: Seq<Option<(String, String)>>, n: int) -> int
    decreases n,
{
    if n <= 0 {
        0
    } else {
        billed(ms, n - 1) + if ms[n - 1] is Some { 1int } else { 0int }
    }
}

/// The number of billed meters among the first `n` that are small
/// customers' (`small`) or large customers' (`!small`).
pub open spec fn billed_class(ms: Seq<Option<(String, String)>>, n: int, small: bool) -> int
    decreases n,
{
    if n <= 0 {
        0
    } else {
        billed_class(ms, n - 1, small) + match ms[n - 1] {
            Some(m) => if small_meter(m) == small { 1int } else { 0int },
            None => 0int,
        }
    }
}

/// The number of transformers among the first `n` that are PEA's (`pea`)
/// or customers' (`!pea`).
pub open spec fn trans_count(ts: Seq<TransMeters>, n: int, pea: bool) -> int
    decreases n,
{
    if n <= 0 {
        0
    } else {
        trans_count(ts, n - 1, pea) + if owner_pea(ts[n - 1]) == Some(pea) { 1int } else { 0int }
    }
}

/// The number of billed meters under the first `n` transformers that are
/// PEA's (`pea`) or customers' (`!pea`).
pub open spec fn meter_count(ts: Seq<TransMeters>, n: int, pea: bool) -> int
    decreases n,
{
    if n <= 0 {
        0
    } else {
        meter_count(ts, n - 1, pea) + if owner_pea(ts[n - 1]) == Some(pea) {
            billed(ts[n - 1].meters@, ts[n - 1].meters@.len() as int)
        } else {
            0int
        }
    }
}

/// The number of small (`small`) or large (`!small`) customers' billed
/// meters under the first `n` transformers that have a recorded owner.
pub open spec fn class_count(ts: Seq<TransMeters>, n: int, small: bool) -> int
    decreases n,
{
    if n <= 0 {
        0
    } else {
        class_count(ts, n - 1, small) + if ts[n - 1].owner is Some {
            billed_class(ts[n - 1].meters@, ts[n - 1].meters@.len() as int, small)
        } else {
            0int
        }
    }
}

/// The first `n` transformers and all their meters, counted together.
pub open spec fn meter_load(ts: Seq<TransMeters>, n: int) -> int
    decreases n,
{
    if n <= 0 {
        0
    } else {
        meter_load(ts, n - 1) + 1 + ts[n - 1].meters@.len()
    }
}

proof fn lemma_load_mono(ts: Seq<TransMeters>, a: int, b: int)
    requires
        0 <= a <= b,
    ensures
        meter_load(ts, a) <= meter_load(ts, b),
    decreases b - a,
{
    if a < b {
        lemma_load_mono(ts, a, b - 1);
    }
}

/// Counts the transformers of a substation and the billed meters under them.
/// A transformer without a recorded owner is left out together with its
/// meters; a meter without bills is left out.
pub fn meter_counts(ts: &Vec<TransMeters>) -> (r: MeterCounts)
    requires
        meter_load(ts@, ts@.len() as int) <= usize::MAX,
    ensures
        r.trpe == trans_count(ts@, ts@.len() as int, true),
        r.trcu == trans_count(ts@, ts@.len() as int, false),
        r.mtpe == meter_count(ts@, ts@.len() as int, true),
        r.mtcu == meter_count(ts@, ts@.len() as int, false),
        r.mt13 == class_count(ts@, ts@.len() as int, true),
        r.mt45 == class_count(ts@, ts@.len() as int, false),
        r.mt13 + r.mt45 == r.mtpe + r.mtcu,
{
    let mut c = MeterCounts { trpe: 0, trcu: 0, mt13: 0, mt45: 0, mtpe: 0, mtcu: 0 };
    let mut i: usize = 0;
    while i < ts.len()
        invariant
            i <= ts@.len(),
            meter_load(ts@, ts@.len() as int) <= usize::MAX,
            c.trpe == trans_count(ts@, i as int, true),
            c.trcu == trans_count(ts@, i as int, false),
            c.mtpe == meter_count(ts@, i as int, true),
            c.mtcu == meter_count(ts@, i as int, false),
            c.mt13 == class_count(ts@, i as int, true),
            c.mt45 == class_count(ts@, i as int, false),
            c.mt13 + c.mt45 == c.mtpe + c.mtcu,
            c.trpe + c.trcu + c.mtpe + c.mtcu <= meter_load(ts@, i as int),
        decreases ts@.len() - i,
    {
        proof {
            lemma_load_mono(ts@, i + 1, ts@.len() as int);
        }
        let t = &ts[i];
        match &t.owner {
            None => {},
            Some(o) => {
                let pea = owned_by_pea(o.as_str());
                if pea {
                    c.trpe = c.trpe + 1;
                } else {
                    c.trcu = c.trcu + 1;
                }
                let ghost c0 = c;
                let ms = &t.meters;
                let mut j: usize = 0;
                while j < ms.len()
                    invariant
                        j <= ms@.len(),
                        ms@ == ts@[i as int].meters@,
                        meter_load(ts@, i + 1) <= usize::MAX,
                        c0.trpe + c0.trcu + c0.mtpe + c0.mtcu <= meter_load(ts@, i as int) + 1,
                        c.trpe == c0.trpe,
                        c.trcu == c0.trcu,
                        c.mtpe == c0.mtpe + if pea { billed(ms@, j as int) } else { 0int },
                        c.mtcu == c0.mtcu + if pea { 0int } else { billed(ms@, j as int) },
                        c.mt13 == c0.mt13 + billed_class(ms@, j as int, true),
                        c.mt45 == c0.mt45 + billed_class(ms@, j as int, false),
                        c0.mt13 + c0.mt45 == c0.mtpe + c0.mtcu,
                        billed_class(ms@, j as int, true) + billed_class(ms@, j as int, false) == billed(ms@, j as int),
                        billed(ms@, j as int) <= j,
                    decreases ms@.len() - j,
                {
                    match &ms[j] {
                        None => {},
                        Some(m) => {
                            if meter_is_small(m.0.as_str(), m.1.as_str()) {
                                c.mt13 = c.mt13 + 1;
                            } else {
                                c.mt45 = c.mt45 + 1;
                            }
                            if pea {
                                c.mtpe = c.mtpe + 1;
                            } else {
                                c.mtcu = c.mtcu + 1;
                            }
                        },
                    }
                    j = j + 1;
                }
            },
        }
        i = i + 1;
    }
    c
}


// ---------------------------------------------------------------------------
// Feeders of the raw load profiles.

/// The feeder id in the name of a raw load-profile record: the
/// three-character substation code and the two-digit feeder number of the
/// first match of `(...)_([0-9][0-9])[VW].+`, joined.
pub open spec fn lp_feeder_of(feed: Seq<char>) -> Option<Seq<char>> {
    match (
        capture_group(r"(...)_([0-9][0-9])[VW].+"@, feed, 1),
        capture_group(r"(...)_([0-9][0-9])[VW].+"@, feed, 2),
    ) {
        (Some(sb), Some(no)) => Some(sb + no),
        _ => None,
    }
}

/// The feeder id (such as `ABC01`) in the name of a raw load-profile record
/// (such as `ABC_01VB-01`), or `None` when the name has none.
pub fn lp_feeder_id(feed: &str) -> (r: Option<String>)
    ensures
        match r {
            Some(f) => lp_feeder_of(feed@) == Some(f@),
            None => lp_feeder_of(feed@) is None,
        },
{
    let sb = pattern_group(r"(...)_([0-9][0-9])[VW].+", feed, 1);
    let no = pattern_group(r"(...)_([0-9][0-9])[VW].+", feed, 2);
    match (sb, no) {
        (Some(mut sb), Some(no)) => {
            sb.append(no.as_str());
            Some(sb)
        },
        _ => None,
    }
}


// ---------------------------------------------------------------------------
// Representative load profiles by year.

/// Profile `q` is the last one of `key` for its year.
pub open spec fn last_of_year(keys: Seq<String>, years: Seq<usize>, key: Seq<char>, q: int) -> bool {
    &&& keys[q]@ == key
    &&& forall|u: int| q < u < keys.len() && #[trigger] keys[u]@ == key ==> years[u] != years[q]
}

/// The profiles among the first `n` that are the last of `key` for their
/// year, as `(year, position)`, in order.
pub open spec fn year_lasts(keys: Seq<String>, years: Seq<usize>, key: Seq<char>, n: int) -> Seq<(usize, usize)>
    decreases n,
{
    if n <= 0 {
        Seq::empty()
    } else {
        let prev = year_lasts(keys, years, key, n - 1);
        if last_of_year(keys, years, key, n - 1) {
            prev.push((years[n - 1], (n - 1) as usize))
        } else {
            prev
        }
    }
}

/// The representative load profile of each year for substation or feeder
/// `key`: from the profiles' keys and years, the last profile of `key` for
/// each year, as `(year, position)` in the order of the profiles.
pub fn year_profiles(keys: &Vec<String>, years: &Vec<usize>, key: &str) -> (r: Vec<(usize, usize)>)
    requires
        keys@.len() == years@.len(),
    ensures
        r@ == year_lasts(keys@, years@, key@, keys@.len() as int),
{
    let mut r: Vec<(usize, usize)> = Vec::new();
    let mut q: usize = 0;
    while q < keys.len()
        invariant
            q <= keys@.len(),
            keys@.len() == years@.len(),
            r@ == year_lasts(keys@, years@, key@, q as int),
        decreases keys@.len() - q,
    {
        if str_eq(keys[q].as_str(), key) {
            let y = years[q];
            let mut last = true;
            let mut u = q + 1;
            while u < keys.len()
                invariant
                    q < u <= keys@.len(),
                    keys@.len() == years@.len(),
                    y == years@[q as int],
                    last == forall|w: int| q < w < u && #[trigger] keys@[w]@ == key@ ==> years@[w] != y,
                decreases keys@.len() - u,
            {
                if years[u] == y && str_eq(keys[u].as_str(), key) {
                    last = false;
                }
                u = u + 1;
            }
            if last {
                r.push((y, q));
            }
        }
        q = q + 1;
    }
    r
}


proof fn lemma_year_lasts_prefix(keys: Seq<String>, years: Seq<usize>, key: Seq<char>, n: int)
    requires
        keys.len() == years.len(),
        keys.len() <= usize::MAX,
        0 <= n <= keys.len(),
    ensures
        ({
            let r = year_lasts(keys, years, key, n);
            &&& forall|k: int| 0 <= k < r.len() ==> (#[trigger] r[k]).1 < n && last_of_year(keys, years, key, r[k].1 as int)
                && years[r[k].1 as int] == r[k].0
            &&& forall|a: int, b: int| 0 <= a < b < r.len() ==> (#[trigger] r[a]).1 < (#[trigger] r[b]).1
            &&& forall|l: int| 0 <= l < n && last_of_year(keys, years, key, l) ==> exists|k: int| 0 <= k < r.len() && (#[trigger] r[k]).1 == l
        }),
    decreases n,
{
    if n > 0 {
        lemma_year_lasts_prefix(keys, years, key, n - 1);
        let prev = year_lasts(keys, years, key, n - 1);
        let r = year_lasts(keys, years, key, n);
        if last_of_year(keys, years, key, n - 1) {
            assert(r == prev.push((years[n - 1], (n - 1) as usize)));
            assert forall|l: int| 0 <= l < n && last_of_year(keys, years, key, l) implies exists|k: int| 0 <= k < r.len() && (#[trigger] r[k]).1 == l by {
                if l < n - 1 {
                    let k = choose|k: int| 0 <= k < prev.len() && (#[trigger] prev[k]).1 == l;
                    assert(r[k] == prev[k]);
                } else {
                    assert(r[prev.len() as int].1 == l);
                }
            }
            assert forall|k: int| 0 <= k < r.len() implies (#[trigger] r[k]).1 < n && last_of_year(keys, years, key, r[k].1 as int)
                && years[r[k].1 as int] == r[k].0 by {
                if k < prev.len() {
                    assert(r[k] == prev[k]);
                }
            }
            assert forall|a: int, b: int| 0 <= a < b < r.len() implies (#[trigger] r[a]).1 < (#[trigger] r[b]).1 by {
                assert(r[a] == prev[a]);
                if b < prev.len() {
                    assert(r[b] == prev[b]);
                }
            }
        }
    }
}

/// For substation or feeder `key`, the representative profiles hold one
/// profile for each year that `key` has, the last one of that year.
pub proof fn lemma_one_profile_per_year(keys: Seq<String>, years: Seq<usize>, key: Seq<char>)
    requires
        keys.len() == years.len(),
        keys.len() <= usize::MAX,
    ensures
        ({
            let r = year_lasts(keys, years, key, keys.len() as int);
            &&& forall|q: int| 0 <= q < keys.len() && #[trigger] keys[q]@ == key ==> exists|k: int| 0 <= k < r.len() && (#[trigger] r[k]).0 == years[q]
            &&& forall|a: int, b: int| 0 <= a < b < r.len() ==> (#[trigger] r[a]).0 != (#[trigger] r[b]).0
            &&& forall|k: int| 0 <= k < r.len() ==> last_of_year(keys, years, key, (#[trigger] r[k]).1 as int) && years[r[k].1 as int] == r[k].0
        }),
{
    let n = keys.len() as int;
    lemma_year_lasts_prefix(keys, years, key, n);
    let r = year_lasts(keys, years, key, n);
    assert forall|q: int| 0 <= q < keys.len() && #[trigger] keys[q]@ == key implies exists|k: int| 0 <= k < r.len() && (#[trigger] r[k]).0 == years[q] by {
        let l = lemma_last_of_year_from(keys, years, key, q);
        let k = choose|k: int| 0 <= k < r.len() && (#[trigger] r[k]).1 == l;
        assert(r[k].0 == years[q]);
    }
    assert forall|a: int, b: int| 0 <= a < b < r.len() implies (#[trigger] r[a]).0 != (#[trigger] r[b]).0 by {
        let pa = r[a].1 as int;
        let pb = r[b].1 as int;
        assert(pa < pb);
        assert(keys[pb]@ == key);
    }
}

/// The last profile, from `q` on, of `key` in the year of profile `q`.
proof fn lemma_last_of_year_from(keys: Seq<String>, years: Seq<usize>, key: Seq<char>, q: int) -> (l: int)
    requires
        keys.len() == years.len(),
        0 <= q < keys.len(),
        keys[q]@ == key,
    ensures
        q <= l < keys.len(),
        years[l] == years[q],
        last_of_year(keys, years, key, l),
    decreases keys.len() - q,
{
    if exists|u: int| q < u < keys.len() && #[trigger] keys[u]@ == key && years[u] == years[q] {
        let u = choose|u: int| q < u < keys.len() && #[trigger] keys[u]@ == key && years[u] == years[q];
        lemma_last_of_year_from(keys, years, key, u)
    } else {
        q
    }
}

} // verus!
