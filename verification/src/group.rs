//! Grouping of records by a text key (such as an area code), the way the
//! per-area output files are formed.

use vstd::prelude::*;
use crate::text::str_eq;

verus! {

/// The position of the first group with key `k`, searching from group `j`.
pub open spec fn group_pos_from(gs: Seq<(Seq<char>, Seq<usize>)>, k: Seq<char>, j: int) -> Option<int>
    decreases gs.len() - j,
{
    if j < 0 || j >= gs.len() {
        None
    } else if gs[j].0 == k {
        Some(j)
    } else {
        group_pos_from(gs, k, j + 1)
    }
}

proof fn lemma_group_pos(gs: Seq<(Seq<char>, Seq<usize>)>, k: Seq<char>, j: int)
    requires
        0 <= j,
    ensures
        group_pos_from(gs, k, j) matches Some(p) ==> j <= p < gs.len() && gs[p].0 == k,
        group_pos_from(gs, k, j) is None ==> forall|q: int| j <= q < gs.len() ==> gs[q].0 != k,
    decreases gs.len() - j,
{
    if j < gs.len() && gs[j].0 != k {
        lemma_group_pos(gs, k, j + 1);
    }
}

/// The groups after adding record `i` with key `k`: appended to the group of
/// that key, or a new group at the end.
pub open spec fn add_to_groups(gs: Seq<(Seq<char>, Seq<usize>)>, k: Seq<char>, i: usize) -> Seq<(Seq<char>, Seq<usize>)> {
    match group_pos_from(gs, k, 0) {
        Some(g) => gs.update(g, (k, gs[g].1.push(i))),
        None => gs.push((k, seq![i])),
    }
}

/// No two groups have the same key.
pub open spec fn distinct_keys(gs: Seq<(Seq<char>, Seq<usize>)>) -> bool {
    forall|a: int, b: int| 0 <= a < gs.len() && 0 <= b < gs.len() && a != b ==> gs[a].0 != gs[b].0
}

/// Adding a record keeps the group keys distinct.
pub proof fn lemma_add_keeps_keys_distinct(gs: Seq<(Seq<char>, Seq<usize>)>, k: Seq<char>, i: usize)
    requires
        distinct_keys(gs),
    ensures
        distinct_keys(add_to_groups(gs, k, i)),
{
    lemma_group_pos(gs, k, 0);
    let ng = add_to_groups(gs, k, i);
    match group_pos_from(gs, k, 0) {
        Some(p) => {
            assert forall|a: int, b: int| 0 <= a < ng.len() && 0 <= b < ng.len() && a != b implies ng[a].0 != ng[b].0 by {
                assert(ng[a].0 == gs[a].0);
                assert(ng[b].0 == gs[b].0);
            }
        },
        None => {
            assert forall|a: int, b: int| 0 <= a < ng.len() && 0 <= b < ng.len() && a != b implies ng[a].0 != ng[b].0 by {
                if a < gs.len() && b < gs.len() {
                    assert(ng[a] == gs[a]);
                    assert(ng[b] == gs[b]);
                } else if a < gs.len() {
                    assert(ng[a] == gs[a]);
                } else {
                    assert(ng[b] == gs[b]);
                }
            }
        },
    }
}

/// The groups of the keys: one group per distinct key in order of first
/// appearance, each listing the positions of its records in order.
pub open spec fn groups_of(keys: Seq<Seq<char>>) -> Seq<(Seq<char>, Seq<usize>)>
    decreases keys.len(),
{
    if keys.len() == 0 {
        Seq::empty()
    } else {
        add_to_groups(groups_of(keys.drop_last()), keys.last(), (keys.len() - 1) as usize)
    }
}

/// The keys as character sequences.
pub open spec fn key_views(keys: Seq<String>) -> Seq<Seq<char>> {
    keys.map_values(|k: String| k@)
}

/// The groups as character sequences and position sequences.
pub open spec fn group_views(r: Seq<(String, Vec<usize>)>) -> Seq<(Seq<char>, Seq<usize>)> {
    r.map_values(|g: (String, Vec<usize>)| (g.0@, g.1@))
}

/// The first group with key `key`, searching from group `j`.
fn find_group(r: &Vec<(String, Vec<usize>)>, key: &str) -> (g: Option<usize>)
    ensures
        match g {
            Some(p) => group_pos_from(group_views(r@), key@, 0) == Some(p as int),
            None => group_pos_from(group_views(r@), key@, 0) is None,
        },
{
    let ghost gs = group_views(r@);
    let mut j: usize = 0;
    while j < r.len()
        invariant
            gs == group_views(r@),
            j <= r@.len(),
            group_pos_from(gs, key@, 0) == group_pos_from(gs, key@, j as int),
        decreases r@.len() - j,
    {
        if str_eq(r[j].0.as_str(), key) {
            return Some(j);
        }
        j = j + 1;
    }
    None
}

/// Adds record `i` with key `key`: to the end of the group of that key, or
/// as a new group at the end.
pub fn add_record(groups: &mut Vec<(String, Vec<usize>)>, key: &str, i: usize)
    ensures
        group_views(final(groups)@) == add_to_groups(group_views(old(groups)@), key@, i),
{
    let ghost before = group_views(groups@);
    let fg = find_group(groups, key);
    proof {
        lemma_group_pos(before, key@, 0);
    }
    match fg {
        Some(g) => {
            let (k, mut v) = groups.remove(g);
            v.push(i);
            groups.insert(g, (k, v));
            proof {
                assert(group_views(groups@) =~= before.update(g as int, (key@, before[g as int].1.push(i))));
            }
        },
        None => {
            let mut v = Vec::new();
            v.push(i);
            groups.push((key.to_owned(), v));
            proof {
                assert(group_views(groups@) =~= before.push((key@, seq![i])));
            }
        },
    }
}

/// Groups the positions of `keys` by key: one group per distinct key in
/// order of first appearance, each with the increasing positions of the
/// records that carry that key.
pub fn group_by_key(keys: &Vec<String>) -> (r: Vec<(String, Vec<usize>)>)
    ensures
        group_views(r@) == groups_of(key_views(keys@)),
{
    let mut r: Vec<(String, Vec<usize>)> = Vec::new();
    let mut i: usize = 0;
    assert(key_views(keys@).subrange(0, 0) =~= Seq::<Seq<char>>::empty());
    assert(group_views(r@) =~= Seq::<(Seq<char>, Seq<usize>)>::empty());
    while i < keys.len()
        invariant
            i <= keys@.len(),
            group_views(r@) == groups_of(key_views(keys@).subrange(0, i as int)),
        decreases keys@.len() - i,
    {
        let ghost ks = key_views(keys@).subrange(0, i + 1);
        assert(ks.drop_last() =~= key_views(keys@).subrange(0, i as int));
        assert(ks.last() == keys@[i as int]@);
        add_record(&mut r, keys[i].as_str(), i);
        i = i + 1;
    }
    assert(key_views(keys@).subrange(0, i as int) =~= key_views(keys@));
    r
}

/// Record `i` is listed in a group with its key.
pub open spec fn listed(keys: Seq<Seq<char>>, i: int) -> bool {
    exists|g: int|
        0 <= g < groups_of(keys).len() && groups_of(keys)[g].0 == keys[i] && #[trigger] groups_of(keys)[g].1.contains(
            i as usize,
        )
}

/// The groups partition the records by key: group keys are distinct, every
/// listed position carries its group's key and positions increase within a
/// group, and every record is listed in the group of its key.
pub proof fn lemma_groups_partition(keys: Seq<Seq<char>>)
    requires
        keys.len() <= usize::MAX,
    ensures
        forall|a: int, b: int|
            0 <= a < groups_of(keys).len() && 0 <= b < groups_of(keys).len() && a != b ==> groups_of(keys)[a].0
                != groups_of(keys)[b].0,
        forall|g: int, t: int|
            0 <= g < groups_of(keys).len() && 0 <= t < groups_of(keys)[g].1.len() ==> #[trigger] groups_of(keys)[g].1[t]
                < keys.len() && keys[groups_of(keys)[g].1[t] as int] == groups_of(keys)[g].0,
        forall|g: int, t: int, u: int|
            0 <= g < groups_of(keys).len() && 0 <= t < u < groups_of(keys)[g].1.len() ==> #[trigger] groups_of(keys)[g].1[t]
                < #[trigger] groups_of(keys)[g].1[u],
        forall|i: int| 0 <= i < keys.len() ==> #[trigger] listed(keys, i),
    decreases keys.len(),
{
    if keys.len() > 0 {
        let pre = keys.drop_last();
        lemma_groups_partition(pre);
        let gs = groups_of(pre);
        let k = keys.last();
        let n = (keys.len() - 1) as usize;
        lemma_group_pos(gs, k, 0);
        let ng = groups_of(keys);
        assert(ng == add_to_groups(gs, k, n));
        assert forall|i: int| 0 <= i < keys.len() implies #[trigger] listed(keys, i) by {
            if i < keys.len() - 1 {
                assert(pre[i] == keys[i]);
                assert(listed(pre, i));
                let g = choose|g: int| 0 <= g < groups_of(pre).len() && groups_of(pre)[g].0 == pre[i] && #[trigger] groups_of(pre)[g].1.contains(i as usize);
                let t = choose|t: int| 0 <= t < gs[g].1.len() && gs[g].1[t] == i as usize;
                match group_pos_from(gs, k, 0) {
                    Some(p) => {
                        if p == g {
                            assert(ng[g].1[t] == i as usize);
                        } else {
                            assert(ng[g] == gs[g]);
                        }
                    },
                    None => {
                        assert(ng[g] == gs[g]);
                    },
                }
                assert(ng[g].1.contains(i as usize));
                assert(ng[g].0 == keys[i]);
            } else {
                match group_pos_from(gs, k, 0) {
                    Some(p) => {
                        assert(ng[p].1[ng[p].1.len() - 1] == n);
                        assert(ng[p].1.contains(i as usize));
                        assert(ng[p].0 == keys[i]);
                    },
                    None => {
                        assert(ng[gs.len() as int].1[0] == n);
                        assert(ng[gs.len() as int].1.contains(i as usize));
                        assert(ng[gs.len() as int].0 == keys[i]);
                    },
                }
            }
        }
        assert forall|g: int, t: int|
            0 <= g < ng.len() && 0 <= t < ng[g].1.len() implies #[trigger] ng[g].1[t] < keys.len() && keys[ng[g].1[t] as int] == ng[g].0 by {
            match group_pos_from(gs, k, 0) {
                Some(p) => {
                    if g != p {
                        assert(ng[g] == gs[g]);
                        assert(groups_of(pre)[g].1[t] < pre.len());
                        assert(pre[gs[g].1[t] as int] == keys[gs[g].1[t] as int]);
                    } else if t < gs[g].1.len() {
                        assert(ng[g].1[t] == gs[g].1[t]);
                        assert(groups_of(pre)[g].1[t] < pre.len());
                        assert(pre[gs[g].1[t] as int] == keys[gs[g].1[t] as int]);
                    } else {
                        assert(ng[g].1[t] == n);
                    }
                },
                None => {
                    if g < gs.len() {
                        assert(ng[g] == gs[g]);
                        assert(groups_of(pre)[g].1[t] < pre.len());
                        assert(pre[gs[g].1[t] as int] == keys[gs[g].1[t] as int]);
                    } else {
                        assert(ng[g].1[t] == n);
                    }
                },
            }
        }
        assert forall|g: int, t: int, u: int|
            0 <= g < ng.len() && 0 <= t < u < ng[g].1.len() implies #[trigger] ng[g].1[t] < #[trigger] ng[g].1[u] by {
            match group_pos_from(gs, k, 0) {
                Some(p) => {
                    if g != p {
                        assert(ng[g] == gs[g]);
                        assert(groups_of(pre)[g].1[t] < groups_of(pre)[g].1[u]);
                    } else if u < gs[g].1.len() {
                        assert(ng[g].1[t] == gs[g].1[t]);
                        assert(ng[g].1[u] == gs[g].1[u]);
                        assert(groups_of(pre)[g].1[t] < groups_of(pre)[g].1[u]);
                    } else {
                        assert(ng[g].1[t] == gs[g].1[t]);
                        assert(ng[g].1[u] == n);
                        assert(groups_of(pre)[g].1[t] < pre.len());
                    }
                },
                None => {
                    if g < gs.len() {
                        assert(ng[g] == gs[g]);
                        assert(groups_of(pre)[g].1[t] < groups_of(pre)[g].1[u]);
                    }
                },
            }
        }
    }
}


// ---------------------------------------------------------------------------
// Tables from a text key to a record position, a later record of a key
// taking the place of an earlier one.

/// The position of the first entry with key `k`, searching from entry `j`.
pub open spec fn key_pos_from(t: Seq<(Seq<char>, usize)>, k: Seq<char>, j: int) -> Option<int>
    decreases t.len() - j,
{
    if j < 0 || j >= t.len() {
        None
    } else if t[j].0 == k {
        Some(j)
    } else {
        key_pos_from(t, k, j + 1)
    }
}

/// The table after setting key `k` to record `i`: the entry of that key takes
/// `i`, or a new entry goes at the end.
pub open spec fn table_set(t: Seq<(Seq<char>, usize)>, k: Seq<char>, i: usize) -> Seq<(Seq<char>, usize)> {
    match key_pos_from(t, k, 0) {
        Some(p) => t.update(p, (k, i)),
        None => t.push((k, i)),
    }
}

/// The value of key `k` in the table, if it has one.
pub open spec fn table_get(t: Seq<(Seq<char>, usize)>, k: Seq<char>) -> Option<usize> {
    match key_pos_from(t, k, 0) {
        Some(p) => Some(t[p].1),
        None => None,
    }
}

/// The entries as character sequences.
pub open spec fn table_views(r: Seq<(String, usize)>) -> Seq<(Seq<char>, usize)> {
    r.map_values(|e: (String, usize)| (e.0@, e.1))
}

/// The position of the entry with key `key`.
pub fn table_pos(t: &Vec<(String, usize)>, key: &str) -> (r: Option<usize>)
    ensures
        match r {
            Some(p) => p < t@.len() && key_pos_from(table_views(t@), key@, 0) == Some(p as int),
            None => key_pos_from(table_views(t@), key@, 0) is None,
        },
{
    let ghost tv = table_views(t@);
    let mut j: usize = 0;
    while j < t.len()
        invariant
            tv == table_views(t@),
            j <= t@.len(),
            key_pos_from(tv, key@, 0) == key_pos_from(tv, key@, j as int),
        decreases t@.len() - j,
    {
        if str_eq(t[j].0.as_str(), key) {
            return Some(j);
        }
        j = j + 1;
    }
    None
}

proof fn lemma_key_pos(t: Seq<(Seq<char>, usize)>, k: Seq<char>, j: int)
    requires
        0 <= j,
    ensures
        key_pos_from(t, k, j) matches Some(p) ==> j <= p < t.len() && t[p].0 == k,
    decreases t.len() - j,
{
    if j < t.len() && t[j].0 != k {
        lemma_key_pos(t, k, j + 1);
    }
}

proof fn lemma_key_pos_same_keys(t1: Seq<(Seq<char>, usize)>, t2: Seq<(Seq<char>, usize)>, q: Seq<char>, j: int)
    requires
        0 <= j,
        t1.len() == t2.len(),
        forall|x: int| 0 <= x < t1.len() ==> #[trigger] t1[x].0 == t2[x].0,
    ensures
        key_pos_from(t1, q, j) == key_pos_from(t2, q, j),
    decreases t1.len() - j,
{
    if j < t1.len() {
        lemma_key_pos_same_keys(t1, t2, q, j + 1);
    }
}

proof fn lemma_key_pos_push(t: Seq<(Seq<char>, usize)>, e: (Seq<char>, usize), q: Seq<char>, j: int)
    requires
        0 <= j <= t.len(),
    ensures
        key_pos_from(t.push(e), q, j) == match key_pos_from(t, q, j) {
            Some(p) => Some(p),
            None => if e.0 == q { Some(t.len() as int) } else { None },
        },
    decreases t.len() - j,
{
    if j < t.len() {
        assert(t.push(e)[j] == t[j]);
        lemma_key_pos_push(t, e, q, j + 1);
    } else {
        assert(t.push(e)[j] == e);
        assert(key_pos_from(t.push(e), q, j + 1) is None);
    }
}

/// Reading a key back after setting it gives the record set; other keys
/// keep their values.
pub proof fn lemma_table_set_get(t: Seq<(Seq<char>, usize)>, k: Seq<char>, i: usize, q: Seq<char>)
    ensures
        table_get(table_set(t, k, i), q) == if q == k { Some(i) } else { table_get(t, q) },
{
    lemma_key_pos(t, k, 0);
    lemma_key_pos(t, q, 0);
    match key_pos_from(t, k, 0) {
        Some(p) => {
            let u = t.update(p, (k, i));
            lemma_key_pos_same_keys(t, u, q, 0);
            if q == k {
                assert(u[p] == (k, i));
            } else {
                if let Some(pq) = key_pos_from(t, q, 0) {
                    assert(pq != p);
                    assert(u[pq] == t[pq]);
                }
            }
        },
        None => {
            lemma_key_pos_push(t, (k, i), q, 0);
            if q == k {
                lemma_key_pos_absent(t, k, 0);
                assert(t.push((k, i))[t.len() as int] == (k, i));
            } else if let Some(pq) = key_pos_from(t, q, 0) {
                assert(t.push((k, i))[pq] == t[pq]);
            }
        },
    }
}

proof fn lemma_key_pos_absent(t: Seq<(Seq<char>, usize)>, k: Seq<char>, j: int)
    requires
        0 <= j,
    ensures
        key_pos_from(t, k, j) is None ==> forall|x: int| j <= x < t.len() ==> t[x].0 != k,
    decreases t.len() - j,
{
    if j < t.len() && t[j].0 != k {
        lemma_key_pos_absent(t, k, j + 1);
    }
}

/// No two entries of the table share a key.
pub open spec fn table_keys_distinct(t: Seq<(Seq<char>, usize)>) -> bool {
    forall|a: int, b: int| 0 <= a < b < t.len() ==> #[trigger] t[a].0 != #[trigger] t[b].0
}

/// In a table whose keys are distinct, the search for a key finds exactly
/// the entry holding it, and finds nothing when no entry holds it.
pub proof fn lemma_key_pos_distinct(t: Seq<(Seq<char>, usize)>, k: Seq<char>)
    requires
        table_keys_distinct(t),
    ensures
        forall|p: int| 0 <= p < t.len() && #[trigger] t[p].0 == k ==> key_pos_from(t, k, 0) == Some(p),
        key_pos_from(t, k, 0) is None <==> forall|p: int| 0 <= p < t.len() ==> #[trigger] t[p].0 != k,
        key_pos_from(t, k, 0) matches Some(p) ==> 0 <= p < t.len() && t[p].0 == k,
{
    lemma_key_pos(t, k, 0);
    lemma_key_pos_absent(t, k, 0);
}

/// Setting a key keeps the keys distinct, keeps every earlier key at its
/// place, and leaves the key set in the table.
pub proof fn lemma_table_set_keys(t: Seq<(Seq<char>, usize)>, k: Seq<char>, i: usize)
    requires
        table_keys_distinct(t),
    ensures
        table_keys_distinct(table_set(t, k, i)),
        table_set(t, k, i).len() >= t.len(),
        forall|a: int| 0 <= a < t.len() ==> #[trigger] table_set(t, k, i)[a].0 == t[a].0,
        exists|p: int| 0 <= p < table_set(t, k, i).len() && #[trigger] table_set(t, k, i)[p] == (k, i),
        forall|p: int| t.len() <= p < table_set(t, k, i).len() ==> #[trigger] table_set(t, k, i)[p].0 == k,
{
    lemma_key_pos(t, k, 0);
    lemma_key_pos_absent(t, k, 0);
    let u = table_set(t, k, i);
    match key_pos_from(t, k, 0) {
        Some(p) => {
            assert(u[p] == (k, i));
        },
        None => {
            assert(u[t.len() as int] == (k, i));
        },
    }
}

/// Sets key `key` to record `i`.
pub fn table_put(t: &mut Vec<(String, usize)>, key: &str, i: usize)
    ensures
        table_views(final(t)@) == table_set(table_views(old(t)@), key@, i),
{
    let ghost before = table_views(t@);
    let p = table_pos(t, key);
    proof {
        lemma_key_pos(before, key@, 0);
    }
    match p {
        Some(p) => {
            t.set(p, (key.to_owned(), i));
            proof {
                assert(table_views(t@) =~= before.update(p as int, (key@, i)));
            }
        },
        None => {
            t.push((key.to_owned(), i));
            proof {
                assert(table_views(t@) =~= before.push((key@, i)));
            }
        },
    }
}

/// The value of key `key` in the table.
pub fn table_find(t: &Vec<(String, usize)>, key: &str) -> (r: Option<usize>)
    ensures
        r == table_get(table_views(t@), key@),
{
    let p = table_pos(t, key);
    proof {
        lemma_key_pos(table_views(t@), key@, 0);
    }
    match p {
        Some(p) => Some(t[p].1),
        None => None,
    }
}

} // verus!
