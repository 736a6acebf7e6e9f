//! Area and month tables of the Thai source sheets, substation feeder
//! grouping, and the transformer records of the low-voltage connections.

use vstd::prelude::*;
use crate::text::{keyed, lookup, table_lookup};
use vstd::utf8::*;
use vstd::string::*;
use crate::text::{byte_prefix, str_eq};
use crate::group::{
    add_record, add_to_groups, distinct_keys, group_views, key_pos_from, lemma_add_keeps_keys_distinct, table_find,
    table_get, table_pos, table_put, table_set, table_views, lemma_table_set_get, table_keys_distinct,
    lemma_key_pos_distinct, lemma_table_set_keys,
};
use crate::geo1::{find_node, lemma_sorted_keys, snapped, sort_keys, sorted_keys, GridNode, NodeInfo, NodeType};
use crate::pattern::{
    area_code_in, area_in_text, capture_group, parse_u32, pattern_group, rows_last, scan_header,
    scanned_rows, u32_of_text,
};

verus! {

/// The Thai short names of the twelve PEA areas with their area codes.
pub open spec fn ar_th_codes() -> Seq<(Seq<char>, &'static str)> {
    seq![
        ("ก.1"@, "C1"),
        ("ก.2"@, "C2"),
        ("ก.3"@, "C3"),
        ("น.1"@, "N1"),
        ("น.2"@, "N2"),
        ("น.3"@, "N3"),
        ("ฉ.1"@, "NE1"),
        ("ฉ.2"@, "NE2"),
        ("ฉ.3"@, "NE3"),
        ("ต.1"@, "S1"),
        ("ต.2"@, "S2"),
        ("ต.3"@, "S3"),
    ]
}

/// The area table: Thai short name (such as `ก.1`) to area code (such as `C1`).
pub fn ar_th_code_table() -> (r: Vec<(&'static str, &'static str)>)
    ensures
        keyed(r@) == ar_th_codes(),
{
    let mut r = Vec::new();
    r.push(("ก.1", "C1"));
    r.push(("ก.2", "C2"));
    r.push(("ก.3", "C3"));
    r.push(("น.1", "N1"));
    r.push(("น.2", "N2"));
    r.push(("น.3", "N3"));
    r.push(("ฉ.1", "NE1"));
    r.push(("ฉ.2", "NE2"));
    r.push(("ฉ.3", "NE3"));
    r.push(("ต.1", "S1"));
    r.push(("ต.2", "S2"));
    r.push(("ต.3", "S3"));
    assert(keyed(r@) =~= ar_th_codes());
    r
}

/// The area code of a Thai short area name, if the table has it.
pub fn ar_th_code(th: &str) -> (r: Option<&'static str>)
    ensures
        r == table_lookup(ar_th_codes(), th@),
{
    lookup(&ar_th_code_table(), th)
}
/// The Thai abbreviated month names with their month numbers.
pub open spec fn th_mon_nos() -> Seq<(Seq<char>, u32)> {
    seq![
        ("ม.ค."@, 1u32),
        ("ก.พ."@, 2u32),
        ("มี.ค."@, 3u32),
        ("เม.ย."@, 4u32),
        ("พ.ค."@, 5u32),
        ("มิ.ย."@, 6u32),
        ("ก.ค."@, 7u32),
        ("ส.ค."@, 8u32),
        ("ก.ย."@, 9u32),
        ("ต.ค."@, 10u32),
        ("พ.ย."@, 11u32),
        ("ธ.ค."@, 12u32),
    ]
}

/// The month table: Thai abbreviated month name (such as `ม.ค.`) to month number.
pub fn th_mon_no_table() -> (r: Vec<(&'static str, u32)>)
    ensures
        keyed(r@) == th_mon_nos(),
{
    let mut r = Vec::new();
    r.push(("ม.ค.", 1u32));
    r.push(("ก.พ.", 2u32));
    r.push(("มี.ค.", 3u32));
    r.push(("เม.ย.", 4u32));
    r.push(("พ.ค.", 5u32));
    r.push(("มิ.ย.", 6u32));
    r.push(("ก.ค.", 7u32));
    r.push(("ส.ค.", 8u32));
    r.push(("ก.ย.", 9u32));
    r.push(("ต.ค.", 10u32));
    r.push(("พ.ย.", 11u32));
    r.push(("ธ.ค.", 12u32));
    assert(keyed(r@) =~= th_mon_nos());
    r
}

/// The month number of a Thai abbreviated month name, if the table has it.
pub fn th_mon_no(th: &str) -> (r: Option<u32>)
    ensures
        r == table_lookup(th_mon_nos(), th@),
{
    lookup(&th_mon_no_table(), th)
}
/// A consistency pass over the substation/feeder grouping files; it checks
/// nothing and always succeeds.
pub fn p12_check_sbfd() -> (r: Result<(), String>)
    ensures
        r is Ok,
{
    Ok(())
}

/// The year-month number `yy * 100 + mm` of a monthly charging sheet, from
/// its name: the first match of `(.\..\.) ([0-9][0-9])` gives the Thai month
/// abbreviation and the two-digit year. `None` when the name does not match,
/// the month is not in the month table, or the number does not fit.
pub open spec fn sheet_month_of(name: Seq<char>) -> Option<u32> {
    let pat = r"(.\..\.) ([0-9][0-9])"@;
    match (capture_group(pat, name, 1), capture_group(pat, name, 2)) {
        (Some(mo), Some(yr)) => match (u32_of_text(yr), table_lookup(th_mon_nos(), mo)) {
            (Some(y), Some(m)) => if y * 100 + m <= u32::MAX {
                Some((y * 100 + m) as u32)
            } else {
                None
            },
            _ => None,
        },
        _ => None,
    }
}

/// The year-month number of a monthly charging sheet from its name.
pub fn volta_sheet_month(name: &str) -> (r: Option<u32>)
    ensures
        r == sheet_month_of(name@),
{
    let pat = r"(.\..\.) ([0-9][0-9])";
    let mo = pattern_group(pat, name, 1);
    let yr = pattern_group(pat, name, 2);
    match (mo, yr) {
        (Some(mo), Some(yr)) => {
            match (parse_u32(yr.as_str()), th_mon_no(mo.as_str())) {
                (Some(y), Some(m)) => {
                    if y <= (0xffff_ffffu32 - m) / 100 {
                        Some(y * 100 + m)
                    } else {
                        None
                    }
                },
                _ => None,
            }
        },
        _ => None,
    }
}

/// The area code of a charging station from its area text: the Thai short
/// area name that follows two non-digits, or the empty code when there is
/// none or the area table does not have it.
pub fn volta_area(area: &str) -> (r: &'static str)
    ensures
        match area_in_text(r"[^0-9][^0-9]([^0-9].[0-9]+)"@, area@) {
            Some(a) => r == a,
            None => r@ == ""@,
        },
{
    match area_code_in(r"[^0-9][^0-9]([^0-9].[0-9]+)", area) {
        Some(a) => a,
        None => "",
    }
}

/// The header patterns of a monthly charging sheet: station name, energy
/// units, station id.
pub open spec fn volta_patterns() -> Seq<&'static str> {
    seq![r"(ชื่อสถานี).*", r"(จำนวนหน่วย).*", r"(รหัสสถานี).*"]
}

/// The header row, the station-name column and the units column of a monthly
/// charging sheet: the last cells claimed by the name and units patterns over
/// the whole sheet, when both exist and lie on one row.
pub open spec fn volta_columns_of(d: Seq<Vec<String>>) -> Option<(usize, usize, usize)> {
    let pats = volta_patterns();
    let nm = rows_last(d, pats, 0, scanned_rows(d, d.len() as usize));
    let un = rows_last(d, pats, 1, scanned_rows(d, d.len() as usize));
    match (nm, un) {
        (Some(a), Some(b)) => if a.0 == b.0 {
            Some((a.0, a.1, b.1))
        } else {
            None
        },
        _ => None,
    }
}

/// The header row, station-name column and units column of a monthly
/// charging sheet.
pub fn volta_month_columns(data: &Vec<Vec<String>>) -> (r: Option<(usize, usize, usize)>)
    ensures
        r == volta_columns_of(data@),
{
    let mut pats: Vec<&str> = Vec::new();
    pats.push(r"(ชื่อสถานี).*");
    pats.push(r"(จำนวนหน่วย).*");
    pats.push(r"(รหัสสถานี).*");
    assert(pats@ =~= volta_patterns());
    let h = scan_header(data, data.len(), &pats);
    match (h[0], h[1]) {
        (Some(nm), Some(un)) => {
            if nm.0 == un.0 {
                Some((nm.0, nm.1, un.1))
            } else {
                None
            }
        },
        _ => None,
    }
}

// ---------------------------------------------------------------------------
// Charging stations and their chargers.

/// A station row counts when it has both a name and a station number.
pub open spec fn station_row_ok(r: (String, String)) -> bool {
    r.0@.len() > 0 && r.1@.len() > 0
}

/// The stations of the first `n` rows (name, station number): from each
/// name to its last counting row.
pub open spec fn station_table(sts: Seq<(String, String)>, n: int) -> Seq<(Seq<char>, usize)>
    decreases n,
{
    if n <= 0 {
        Seq::empty()
    } else if station_row_ok(sts[n - 1]) {
        table_set(station_table(sts, n - 1), sts[n - 1].0@, (n - 1) as usize)
    } else {
        station_table(sts, n - 1)
    }
}

/// The station numbers of the first `n` rows: from each number to its last
/// counting row.
pub open spec fn number_table(sts: Seq<(String, String)>, n: int) -> Seq<(Seq<char>, usize)>
    decreases n,
{
    if n <= 0 {
        Seq::empty()
    } else if station_row_ok(sts[n - 1]) {
        table_set(number_table(sts, n - 1), sts[n - 1].1@, (n - 1) as usize)
    } else {
        number_table(sts, n - 1)
    }
}

/// The station (position in the station table) a charger with station
/// number `st` belongs to: that of the name of the last row with the number.
pub open spec fn charger_station(sts: Seq<(String, String)>, st: Seq<char>) -> Option<int> {
    match table_get(number_table(sts, sts.len() as int), st) {
        Some(row) => key_pos_from(station_table(sts, sts.len() as int), sts[row as int].0@, 0),
        None => None,
    }
}

/// The chargers (power, count) of station `k` among the first `m` charger
/// rows (power, count, station number): rows of its stations whose power and
/// count both parse, in order.
pub open spec fn chargers_of(sts: Seq<(String, String)>, chs: Seq<(String, String, String)>, k: int, m: int) -> Seq<(u32, u32)>
    decreases m,
{
    if m <= 0 {
        Seq::empty()
    } else {
        let prev = chargers_of(sts, chs, k, m - 1);
        let c = chs[m - 1];
        match (charger_station(sts, c.2@), u32_of_text(c.0@), u32_of_text(c.1@)) {
            (Some(s), Some(p), Some(q)) => if s == k {
                prev.push((p, q))
            } else {
                prev
            },
            _ => prev,
        }
    }
}

/// The charging stations of the station sheet (name and station number of
/// each row) and the chargers of each from the charger sheet (power, count
/// and station number of each row): the station table maps each name to its
/// last row having both fields; a charger goes to the station named by the
/// last such row with its station number.
pub fn volta_stations(sts: &Vec<(String, String)>, chs: &Vec<(String, String, String)>) -> (r: (Vec<(String, usize)>, Vec<Vec<(u32, u32)>>))
    ensures
        table_views(r.0@) == station_table(sts@, sts@.len() as int),
        r.1@.len() == r.0@.len(),
        forall|k: int| 0 <= k < r.1@.len() ==> #[trigger] r.1@[k]@ == chargers_of(sts@, chs@, k, chs@.len() as int),
        forall|a: int, b: int| 0 <= a < b < r.0@.len() ==> #[trigger] r.0@[a].0@ != #[trigger] r.0@[b].0@,
        forall|k: int| 0 <= k < r.0@.len() ==> last_name_row(sts@, #[trigger] r.0@[k].0@, r.0@[k].1 as int),
        forall|i: int| 0 <= i < sts@.len() && station_row_ok(#[trigger] sts@[i]) ==>
            exists|k: int| 0 <= k < r.0@.len() && r.0@[k].0@ == sts@[i].0@,
        forall|k: int| 0 <= k < r.1@.len() ==> #[trigger] r.1@[k]@ == chs@.filter_map(
            (|c: (String, String, String)| charger_entry(sts@, c, r.0@[k].0@)),
        ),
{
    let mut names: Vec<(String, usize)> = Vec::new();
    let mut nums: Vec<(String, usize)> = Vec::new();
    let mut i: usize = 0;
    assert(table_views(names@) =~= Seq::<(Seq<char>, usize)>::empty());
    assert(table_views(nums@) =~= Seq::<(Seq<char>, usize)>::empty());
    while i < sts.len()
        invariant
            i <= sts@.len(),
            table_views(names@) == station_table(sts@, i as int),
            table_views(nums@) == number_table(sts@, i as int),
        decreases sts@.len() - i,
    {
        let (nm, st) = (&sts[i].0, &sts[i].1);
        if !nm.as_str().is_empty() && !st.as_str().is_empty() {
            table_put(&mut names, nm.as_str(), i);
            table_put(&mut nums, st.as_str(), i);
        }
        i = i + 1;
    }
    let mut r: Vec<Vec<(u32, u32)>> = Vec::new();
    let mut k: usize = 0;
    while k < names.len()
        invariant
            k <= names@.len(),
            r@.len() == k,
            forall|q: int| 0 <= q < k ==> #[trigger] r@[q]@ == Seq::<(u32, u32)>::empty(),
        decreases names@.len() - k,
    {
        r.push(Vec::new());
        k = k + 1;
    }
    let mut j: usize = 0;
    while j < chs.len()
        invariant
            j <= chs@.len(),
            i == sts@.len(),
            table_views(names@) == station_table(sts@, sts@.len() as int),
            table_views(nums@) == number_table(sts@, sts@.len() as int),
            r@.len() == names@.len(),
            forall|q: int| 0 <= q < r@.len() ==> #[trigger] r@[q]@ == chargers_of(sts@, chs@, q, j as int),
        decreases chs@.len() - j,
    {
        let c = &chs[j];
        let row = table_find(&nums, c.2.as_str());
        let mut target: Option<usize> = None;
        match row {
            Some(row) => {
                if row < sts.len() {
                    target = table_pos(&names, sts[row].0.as_str());
                }
            },
            None => {},
        }
        proof {
            if let Some(rw) = table_get(number_table(sts@, sts@.len() as int), chs@[j as int].2@) {
                lemma_number_rows(sts@, sts@.len() as int, chs@[j as int].2@);
            }
            assert(match target {
                Some(t) => charger_station(sts@, chs@[j as int].2@) == Some(t as int),
                None => charger_station(sts@, chs@[j as int].2@) is None,
            });
        }
        let pw = parse_u32(c.0.as_str());
        let no = parse_u32(c.1.as_str());
        match (target, pw, no) {
            (Some(t), Some(p), Some(q)) => {
                let ghost before = r@;
                let mut v = r.remove(t);
                v.push((p, q));
                r.insert(t, v);
                proof {
                    assert forall|x: int| 0 <= x < r@.len() implies #[trigger] r@[x]@ == chargers_of(sts@, chs@, x, j + 1) by {
                        if x == t {
                            assert(r@[x] == v);
                        } else {
                            assert(r@[x] == before[x]);
                        }
                    }
                }
            },
            _ => {},
        }
        j = j + 1;
    }
    proof {
        let t = station_table(sts@, sts@.len() as int);
        lemma_station_table(sts@);
        assert forall|k: int| 0 <= k < names@.len() implies #[trigger] names@[k].0@ == t[k].0 && names@[k].1 == t[k].1 by {
            assert(table_views(names@)[k] == t[k]);
        }
        assert forall|i: int| 0 <= i < sts@.len() && station_row_ok(#[trigger] sts@[i]) implies
            exists|k: int| 0 <= k < names@.len() && names@[k].0@ == sts@[i].0@ by {
            let k = choose|k: int| 0 <= k < t.len() && t[k].0 == sts@[i].0@;
            assert(names@[k].0@ == t[k].0);
        }
        assert forall|k: int| 0 <= k < r@.len() implies #[trigger] r@[k]@ == chs@.filter_map(
            (|c: (String, String, String)| charger_entry(sts@, c, names@[k].0@))) by {
            lemma_chargers_listed(sts@, chs@, k, chs@.len() as int);
            assert(chs@.take(chs@.len() as int) =~= chs@);
        }
    }
    (names, r)
}

/// Row `i` is the last counting row of the station sheet whose station
/// number is `st`.
pub open spec fn last_number_row(sts: Seq<(String, String)>, st: Seq<char>, i: int) -> bool {
    &&& 0 <= i < sts.len()
    &&& station_row_ok(sts[i])
    &&& sts[i].1@ == st
    &&& forall|j: int| i < j < sts.len() && station_row_ok(#[trigger] sts[j]) ==> sts[j].1@ != st
}

/// Row `i` is the last counting row of the station sheet whose name is `nm`.
pub open spec fn last_name_row(sts: Seq<(String, String)>, nm: Seq<char>, i: int) -> bool {
    &&& 0 <= i < sts.len()
    &&& station_row_ok(sts[i])
    &&& sts[i].0@ == nm
    &&& forall|j: int| i < j < sts.len() && station_row_ok(#[trigger] sts[j]) ==> sts[j].0@ != nm
}

/// A charger with station number `st` belongs to the station named `nm`:
/// the last counting row carrying that number has that name.
pub open spec fn charger_goes_to(sts: Seq<(String, String)>, st: Seq<char>, nm: Seq<char>) -> bool {
    exists|i: int| last_number_row(sts, st, i) && sts[i].0@ == nm
}

/// The (power, count) entry a charger row gives the station named `nm`: one
/// when the charger belongs to that station and both numbers parse.
pub open spec fn charger_entry(sts: Seq<(String, String)>, c: (String, String, String), nm: Seq<char>) -> Option<(u32, u32)> {
    match (u32_of_text(c.0@), u32_of_text(c.1@)) {
        (Some(p), Some(q)) => if charger_goes_to(sts, c.2@, nm) {
            Some((p, q))
        } else {
            None
        },
        _ => None,
    }
}

/// The station-number table of the first `n` rows gives for each number its
/// last counting row among them, and nothing for a number no counting row
/// carries.
proof fn lemma_number_table_rows(sts: Seq<(String, String)>, n: int, st: Seq<char>)
    requires
        sts.len() <= usize::MAX,
        0 <= n <= sts.len(),
    ensures
        match table_get(number_table(sts, n), st) {
            Some(row) => 0 <= row < n && station_row_ok(sts[row as int]) && sts[row as int].1@ == st
                && forall|j: int| row < j < n && station_row_ok(#[trigger] sts[j]) ==> sts[j].1@ != st,
            None => forall|j: int| 0 <= j < n && station_row_ok(#[trigger] sts[j]) ==> sts[j].1@ != st,
        },
    decreases n,
{
    if n > 0 {
        lemma_number_table_rows(sts, n - 1, st);
        if station_row_ok(sts[n - 1]) {
            lemma_table_set_get(number_table(sts, n - 1), sts[n - 1].1@, (n - 1) as usize, st);
        }
    }
}

/// The station table of the first `n` rows has distinct names and gives for
/// each name its last counting row among them, and nothing for a name no
/// counting row carries.
proof fn lemma_station_table_rows(sts: Seq<(String, String)>, n: int, nm: Seq<char>)
    requires
        sts.len() <= usize::MAX,
        0 <= n <= sts.len(),
    ensures
        table_keys_distinct(station_table(sts, n)),
        match table_get(station_table(sts, n), nm) {
            Some(row) => 0 <= row < n && station_row_ok(sts[row as int]) && sts[row as int].0@ == nm
                && forall|j: int| row < j < n && station_row_ok(#[trigger] sts[j]) ==> sts[j].0@ != nm,
            None => forall|j: int| 0 <= j < n && station_row_ok(#[trigger] sts[j]) ==> sts[j].0@ != nm,
        },
    decreases n,
{
    if n > 0 {
        lemma_station_table_rows(sts, n - 1, nm);
        if station_row_ok(sts[n - 1]) {
            lemma_table_set_get(station_table(sts, n - 1), sts[n - 1].0@, (n - 1) as usize, nm);
            lemma_table_set_keys(station_table(sts, n - 1), sts[n - 1].0@, (n - 1) as usize);
        }
    }
}

/// The station table of the whole sheet: no name twice, each entry holds
/// the last counting row with its name, and every counting row's name has
/// an entry.
pub proof fn lemma_station_table(sts: Seq<(String, String)>)
    requires
        sts.len() <= usize::MAX,
    ensures
        table_keys_distinct(station_table(sts, sts.len() as int)),
        forall|k: int| 0 <= k < station_table(sts, sts.len() as int).len() ==>
            last_name_row(sts, #[trigger] station_table(sts, sts.len() as int)[k].0, station_table(sts, sts.len() as int)[k].1 as int),
        forall|i: int| 0 <= i < sts.len() && station_row_ok(#[trigger] sts[i]) ==>
            exists|k: int| 0 <= k < station_table(sts, sts.len() as int).len() && station_table(sts, sts.len() as int)[k].0 == sts[i].0@,
{
    let n = sts.len() as int;
    let t = station_table(sts, n);
    lemma_station_table_rows(sts, n, Seq::empty());
    assert forall|k: int| 0 <= k < t.len() implies last_name_row(sts, #[trigger] t[k].0, t[k].1 as int) by {
        lemma_station_table_rows(sts, n, t[k].0);
        lemma_key_pos_distinct(t, t[k].0);
    }
    assert forall|i: int| 0 <= i < sts.len() && station_row_ok(#[trigger] sts[i]) implies
        exists|k: int| 0 <= k < t.len() && t[k].0 == sts[i].0@ by {
        lemma_station_table_rows(sts, n, sts[i].0@);
        lemma_key_pos_distinct(t, sts[i].0@);
        let k = key_pos_from(t, sts[i].0@, 0)->0;
        assert(t[k].0 == sts[i].0@);
    }
}

/// Which station a charger is listed under: a charger with station number
/// `st` goes to the table entry named by the last counting row carrying that
/// number, and to no station when no counting row carries it.
pub proof fn lemma_charger_station(sts: Seq<(String, String)>, st: Seq<char>)
    requires
        sts.len() <= usize::MAX,
    ensures
        charger_station(sts, st) matches Some(k) ==> 0 <= k < station_table(sts, sts.len() as int).len()
            && charger_goes_to(sts, st, station_table(sts, sts.len() as int)[k].0),
        forall|k: int| 0 <= k < station_table(sts, sts.len() as int).len()
            && charger_goes_to(sts, st, #[trigger] station_table(sts, sts.len() as int)[k].0)
            ==> charger_station(sts, st) == Some(k),
        charger_station(sts, st) is None <==> forall|i: int| 0 <= i < sts.len() && station_row_ok(#[trigger] sts[i]) ==> sts[i].1@ != st,
{
    let n = sts.len() as int;
    let t = station_table(sts, n);
    lemma_number_table_rows(sts, n, st);
    lemma_station_table_rows(sts, n, Seq::empty());
    match table_get(number_table(sts, n), st) {
        Some(row) => {
            let row = row as int;
            assert(last_number_row(sts, st, row));
            let nm = sts[row].0@;
            lemma_station_table_rows(sts, n, nm);
            lemma_key_pos_distinct(t, nm);
            let k0 = key_pos_from(t, nm, 0)->0;
            assert(charger_station(sts, st) == Some(k0));
            assert(charger_goes_to(sts, st, t[k0].0));
            assert forall|k: int| 0 <= k < t.len() && charger_goes_to(sts, st, #[trigger] t[k].0)
                implies charger_station(sts, st) == Some(k) by {
                let i = choose|i: int| last_number_row(sts, st, i) && sts[i].0@ == t[k].0;
                if i < row {
                    assert(station_row_ok(sts[row]));
                } else if i > row {
                    assert(station_row_ok(sts[i]));
                }
                assert(i == row);
                lemma_key_pos_distinct(t, nm);
            }
        },
        None => {
            assert forall|k: int| 0 <= k < t.len() && charger_goes_to(sts, st, #[trigger] t[k].0)
                implies charger_station(sts, st) == Some(k) by {
                let i = choose|i: int| last_number_row(sts, st, i) && sts[i].0@ == t[k].0;
                assert(station_row_ok(sts[i]));
            }
        },
    }
}

/// The chargers listed under station `k` are exactly the entries the charger
/// rows give that station's name, in row order.
pub proof fn lemma_chargers_listed(sts: Seq<(String, String)>, chs: Seq<(String, String, String)>, k: int, m: int)
    requires
        sts.len() <= usize::MAX,
        0 <= k < station_table(sts, sts.len() as int).len(),
        0 <= m <= chs.len(),
    ensures
        chargers_of(sts, chs, k, m) == chs.take(m).filter_map(
            (|c: (String, String, String)| charger_entry(sts, c, station_table(sts, sts.len() as int)[k].0)),
        ),
    decreases m,
{
    let nm = station_table(sts, sts.len() as int)[k].0;
    let f = |c: (String, String, String)| charger_entry(sts, c, nm);
    if m == 0 {
        assert(chs.take(0).len() == 0);
    } else {
        lemma_chargers_listed(sts, chs, k, m - 1);
        let c = chs[m - 1];
        assert(chs.take(m).drop_last() =~= chs.take(m - 1));
        assert(chs.take(m).last() == c);
        lemma_charger_station(sts, c.2@);
        let prev = chargers_of(sts, chs, k, m - 1);
        match f(c) {
            Some(e) => {
                assert(prev + seq![e] =~= prev.push(e));
            },
            None => {},
        }
    }
}

/// Every row the station-number table names is a row of the sheet.
proof fn lemma_number_rows(sts: Seq<(String, String)>, n: int, st: Seq<char>)
    requires
        0 <= n <= sts.len(),
    ensures
        table_get(number_table(sts, n), st) matches Some(row) ==> row < n,
    decreases n,
{
    if n > 0 {
        lemma_number_rows(sts, n - 1, st);
        if station_row_ok(sts[n - 1]) {
            lemma_table_set_get(number_table(sts, n - 1), sts[n - 1].1@, (n - 1) as usize, st);
        }
    }
}

// ---------------------------------------------------------------------------
// Producer sheets: the sheet of each kind, the rows of each area, and the
// contract of a producer.

/// The last of the first `n` sheet names equal to `name`.
pub open spec fn last_sheet(names: Seq<String>, name: Seq<char>, n: int) -> Option<int>
    decreases n,
{
    if n <= 0 {
        None
    } else if names[n - 1]@ == name {
        Some(n - 1)
    } else {
        last_sheet(names, name, n - 1)
    }
}

/// The position of the last sheet with the given name (a workbook list may
/// hold several; the last one read is the one used).
pub fn der_sheet(names: &Vec<String>, name: &str) -> (r: Option<usize>)
    ensures
        match r {
            Some(i) => last_sheet(names@, name@, names@.len() as int) == Some(i as int),
            None => last_sheet(names@, name@, names@.len() as int) is None,
        },
{
    let mut i = names.len();
    while i > 0
        invariant
            i <= names@.len(),
            last_sheet(names@, name@, names@.len() as int) == last_sheet(names@, name@, i as int),
        decreases i,
    {
        if str_eq(names[i - 1].as_str(), name) {
            return Some(i - 1);
        }
        i = i - 1;
    }
    None
}

/// The rows before `n`, from row 1 on (row 0 is the header), whose cell
/// `col` is a Thai area name of the area table, grouped by area code: one
/// group per area in order of first appearance, each with its rows in order.
pub open spec fn area_groups(data: Seq<Vec<String>>, col: int, n: int) -> Seq<(Seq<char>, Seq<usize>)>
    decreases n,
{
    if n <= 1 {
        Seq::empty()
    } else {
        let g = area_groups(data, col, n - 1);
        match table_lookup(ar_th_codes(), data[n - 1]@[col]@) {
            Some(ar) => add_to_groups(g, ar@, (n - 1) as usize),
            None => g,
        }
    }
}

/// The data rows of a producer sheet grouped by the area named in column
/// `col`; rows naming no known area are left out.
pub fn der_rows_by_area(data: &Vec<Vec<String>>, col: usize) -> (r: Vec<(String, Vec<usize>)>)
    requires
        data@.len() >= 1,
        forall|i: int| 1 <= i < data@.len() ==> col < #[trigger] data@[i]@.len(),
    ensures
        group_views(r@) == area_groups(data@, col as int, data@.len() as int),
{
    let mut r: Vec<(String, Vec<usize>)> = Vec::new();
    let mut i: usize = 1;
    assert(group_views(r@) =~= Seq::<(Seq<char>, Seq<usize>)>::empty());
    while i < data.len()
        invariant
            1 <= i <= data@.len(),
            forall|k: int| 1 <= k < data@.len() ==> col < #[trigger] data@[k]@.len(),
            group_views(r@) == area_groups(data@, col as int, i as int),
        decreases data@.len() - i,
    {
        let row = &data[i];
        match ar_th_code(row[col].as_str()) {
            Some(ar) => add_record(&mut r, ar, i),
            None => {},
        }
        i = i + 1;
    }
    r
}

/// The last contract row, of the first `n`, of project `prj`: a row whose
/// project id is `prj`, rows without a project id never matching.
pub open spec fn last_contract(pids: Seq<String>, prj: Seq<char>, n: int) -> Option<int>
    decreases n,
{
    if n <= 0 || prj.len() == 0 {
        None
    } else if pids[n - 1]@ == prj {
        Some(n - 1)
    } else {
        last_contract(pids, prj, n - 1)
    }
}

/// The contract row of project `prj` from the project id of each contract
/// row: the last row with that id; none for an empty id.
pub fn contract_row(pids: &Vec<String>, prj: &str) -> (r: Option<usize>)
    ensures
        match r {
            Some(i) => last_contract(pids@, prj@, pids@.len() as int) == Some(i as int),
            None => last_contract(pids@, prj@, pids@.len() as int) is None,
        },
{
    if prj.is_empty() {
        return None;
    }
    let mut i = pids.len();
    while i > 0
        invariant
            i <= pids@.len(),
            prj@.len() > 0,
            last_contract(pids@, prj@, pids@.len() as int) == last_contract(pids@, prj@, i as int),
        decreases i,
    {
        if str_eq(pids[i - 1].as_str(), prj) {
            return Some(i - 1);
        }
        i = i - 1;
    }
    None
}

// ---------------------------------------------------------------------------
// Substations with their feeders and the transformers on each feeder.

/// A substation with its node, the node of its nearest medium-voltage
/// conductor, and its feeders, each with the positions of its transformers.
#[derive(Debug, Default)]
pub struct SubFeedTrans {
    pub sbid: String,
    pub conf: String,
    pub n1d_s: u64,
    pub n1d_f: u64,
    pub feed: Vec<(String, Vec<usize>)>,
}

/// A substation as id, configuration, surveyed node and feeder groups.
pub type SubFeedView = (Seq<char>, Seq<char>, u64, Seq<(Seq<char>, Seq<usize>)>);

/// The view of a substation record (its conductor node aside).
pub open spec fn sub_feed_view(s: SubFeedTrans) -> SubFeedView {
    (s.sbid@, s.conf@, s.n1d_s, group_views(s.feed@))
}

/// The views of a list of substation records.
pub open spec fn sub_feed_views(r: Seq<SubFeedTrans>) -> Seq<SubFeedView> {
    r.map_values(|s: SubFeedTrans| sub_feed_view(s))
}

/// The substation id of a feeder id: its first three bytes.
pub open spec fn feeder_prefix(fid: Seq<char>) -> Seq<char> {
    decode_utf8(encode_utf8(fid).subrange(0, 3))
}

/// The node and configuration of the first surveyed substation with id `sb`.
pub open spec fn known_sub(known: Seq<(String, u64, String)>, sb: Seq<char>) -> Option<(u64, Seq<char>)>
    decreases known.len(),
{
    if known.len() == 0 {
        None
    } else if known[0].0@ == sb {
        Some((known[0].1, known[0].2@))
    } else {
        known_sub(known.drop_first(), sb)
    }
}

/// The position of the first substation with id `sb`, from position `j` on.
pub open spec fn sub_pos_from(subs: Seq<SubFeedView>, sb: Seq<char>, j: int) -> Option<int>
    decreases subs.len() - j,
{
    if j < 0 || j >= subs.len() {
        None
    } else if subs[j].0 == sb {
        Some(j)
    } else {
        sub_pos_from(subs, sb, j + 1)
    }
}

/// The substations after transformer `ti` with feeder `fo`: a feeder of a
/// surveyed substation adds the transformer to that feeder of that
/// substation, creating either when missing; anything else changes nothing.
pub open spec fn feed_step(subs: Seq<SubFeedView>, fo: Option<String>, ti: usize, known: Seq<(String, u64, String)>) -> Seq<SubFeedView> {
    match fo {
        None => subs,
        Some(f) => {
            let sb = feeder_prefix(f@);
            match known_sub(known, sb) {
                None => subs,
                Some((nd, cf)) => match sub_pos_from(subs, sb, 0) {
                    Some(p) => subs.update(p, (subs[p].0, subs[p].1, subs[p].2, add_to_groups(subs[p].3, f@, ti))),
                    None => subs.push((sb, cf, nd, add_to_groups(Seq::empty(), f@, ti))),
                },
            }
        },
    }
}

/// The substations formed from the first `n` transformers.
pub open spec fn subs_after(fids: Seq<Option<String>>, known: Seq<(String, u64, String)>, n: int) -> Seq<SubFeedView>
    decreases n,
{
    if n <= 0 {
        Seq::empty()
    } else {
        feed_step(subs_after(fids, known, n - 1), fids[n - 1], (n - 1) as usize, known)
    }
}

proof fn lemma_subs_after_grows(fids: Seq<Option<String>>, known: Seq<(String, u64, String)>, n: int, m: int)
    requires
        0 <= n <= m,
    ensures
        subs_after(fids, known, n).len() <= subs_after(fids, known, m).len(),
    decreases m - n,
{
    if n < m {
        lemma_subs_after_grows(fids, known, n, m - 1);
        let prev = subs_after(fids, known, m - 1);
        assert(subs_after(fids, known, m) == feed_step(prev, fids[m - 1], (m - 1) as usize, known));
        match fids[m - 1] {
            None => {},
            Some(f) => {
                match known_sub(known, feeder_prefix(f@)) {
                    None => {},
                    Some((nd, cf)) => {
                        lemma_sub_pos(prev, feeder_prefix(f@), 0);
                    },
                }
            },
        }
    }
}

proof fn lemma_sub_pos(subs: Seq<SubFeedView>, sb: Seq<char>, j: int)
    requires
        0 <= j,
    ensures
        sub_pos_from(subs, sb, j) matches Some(p) ==> j <= p < subs.len() && subs[p].0 == sb,
        sub_pos_from(subs, sb, j) is None ==> forall|q: int| j <= q < subs.len() ==> subs[q].0 != sb,
    decreases subs.len() - j,
{
    if j < subs.len() && subs[j].0 != sb {
        lemma_sub_pos(subs, sb, j + 1);
    }
}

/// The substations formed from the transformers have distinct ids, and the
/// feeders of each substation have distinct ids.
pub proof fn lemma_subs_distinct(fids: Seq<Option<String>>, known: Seq<(String, u64, String)>, n: int)
    requires
        0 <= n <= fids.len(),
    ensures
        forall|a: int, b: int|
            0 <= a < subs_after(fids, known, n).len() && 0 <= b < subs_after(fids, known, n).len() && a != b
                ==> subs_after(fids, known, n)[a].0 != subs_after(fids, known, n)[b].0,
        forall|s: int| 0 <= s < subs_after(fids, known, n).len() ==> distinct_keys(#[trigger] subs_after(fids, known, n)[s].3),
    decreases n,
{
    if n > 0 {
        lemma_subs_distinct(fids, known, n - 1);
        let prev = subs_after(fids, known, n - 1);
        let next = subs_after(fids, known, n);
        assert(next == feed_step(prev, fids[n - 1], (n - 1) as usize, known));
        match fids[n - 1] {
            None => {},
            Some(f) => {
                let sb = feeder_prefix(f@);
                match known_sub(known, sb) {
                    None => {},
                    Some((nd, cf)) => {
                        lemma_sub_pos(prev, sb, 0);
                        match sub_pos_from(prev, sb, 0) {
                            Some(p) => {
                                lemma_add_keeps_keys_distinct(prev[p].3, f@, (n - 1) as usize);
                                assert forall|s: int| 0 <= s < next.len() implies distinct_keys(#[trigger] next[s].3) by {
                                    if s != p {
                                        assert(next[s] == prev[s]);
                                    }
                                }
                                assert forall|a: int, b: int| 0 <= a < next.len() && 0 <= b < next.len() && a != b
                                    implies next[a].0 != next[b].0 by {
                                    assert(next[a].0 == prev[a].0);
                                    assert(next[b].0 == prev[b].0);
                                }
                            },
                            None => {
                                lemma_add_keeps_keys_distinct(Seq::empty(), f@, (n - 1) as usize);
                                assert forall|s: int| 0 <= s < next.len() implies distinct_keys(#[trigger] next[s].3) by {
                                    if s < prev.len() {
                                        assert(next[s] == prev[s]);
                                    }
                                }
                                assert forall|a: int, b: int| 0 <= a < next.len() && 0 <= b < next.len() && a != b
                                    implies next[a].0 != next[b].0 by {
                                    if a < prev.len() {
                                        assert(next[a] == prev[a]);
                                    }
                                    if b < prev.len() {
                                        assert(next[b] == prev[b]);
                                    }
                                }
                            },
                        }
                    },
                }
            },
        }
    }
}

/// The node and configuration of the first surveyed substation with id `sb`.
fn find_known(known: &Vec<(String, u64, String)>, sb: &str) -> (r: Option<(u64, String)>)
    ensures
        match r {
            Some((n, c)) => known_sub(known@, sb@) == Some((n, c@)),
            None => known_sub(known@, sb@) is None,
        },
{
    let mut i: usize = 0;
    assert(known@.subrange(0, known@.len() as int) =~= known@);
    while i < known.len()
        invariant
            i <= known@.len(),
            known_sub(known@, sb@) == known_sub(known@.subrange(i as int, known@.len() as int), sb@),
        decreases known@.len() - i,
    {
        let ghost rest = known@.subrange(i as int, known@.len() as int);
        assert(rest.drop_first() =~= known@.subrange(i + 1, known@.len() as int));
        if str_eq(known[i].0.as_str(), sb) {
            return Some((known[i].1, known[i].2.clone()));
        }
        i = i + 1;
    }
    None
}

/// The position of the substation with id `sb`.
fn find_sub_feed(subs: &Vec<SubFeedTrans>, sb: &str) -> (r: Option<usize>)
    ensures
        match r {
            Some(p) => sub_pos_from(sub_feed_views(subs@), sb@, 0) == Some(p as int),
            None => sub_pos_from(sub_feed_views(subs@), sb@, 0) is None,
        },
{
    let ghost v = sub_feed_views(subs@);
    let mut j: usize = 0;
    while j < subs.len()
        invariant
            v == sub_feed_views(subs@),
            j <= subs@.len(),
            sub_pos_from(v, sb@, 0) == sub_pos_from(v, sb@, j as int),
        decreases subs@.len() - j,
    {
        if str_eq(subs[j].sbid.as_str(), sb) {
            return Some(j);
        }
        j = j + 1;
    }
    None
}

/// Forms the substations from the feeder ids of the transformers (position
/// `ti` being transformer `ti`), keeping the feeders of the surveyed
/// substations `known` (id, node, configuration): substations and feeders in
/// order of first appearance, transformers in order. A new substation's
/// conductor node is its surveyed node snapped onto the conductor nodes
/// `eqnds` taken in increasing order.
pub fn form_sub_feeds(fids: &Vec<Option<String>>, known: &Vec<(String, u64, String)>, eqnds: &Vec<u64>) -> (r: Vec<SubFeedTrans>)
    requires
        forall|i: int| 0 <= i < fids@.len() && #[trigger] fids@[i] is Some ==> is_char_boundary(encode_utf8(fids@[i]->0@), 3),
        eqnds@.len() > 0 || subs_after(fids@, known@, fids@.len() as int).len() == 0,
    ensures
        sub_feed_views(r@) == subs_after(fids@, known@, fids@.len() as int),
        forall|s: int| 0 <= s < r@.len() ==> snapped(sorted_keys(eqnds@), #[trigger] r@[s].n1d_s, r@[s].n1d_f),
{
    let sk = sort_keys(eqnds);
    proof {
        lemma_sorted_keys(eqnds@);
    }
    let mut r: Vec<SubFeedTrans> = Vec::new();
    let mut ti: usize = 0;
    assert(sub_feed_views(r@) =~= Seq::<SubFeedView>::empty());
    while ti < fids.len()
        invariant
            ti <= fids@.len(),
            forall|i: int| 0 <= i < fids@.len() && #[trigger] fids@[i] is Some ==> is_char_boundary(encode_utf8(fids@[i]->0@), 3),
            sk@ == sorted_keys(eqnds@),
            sk@.len() == eqnds@.len(),
            eqnds@.len() > 0 || subs_after(fids@, known@, fids@.len() as int).len() == 0,
            sub_feed_views(r@) == subs_after(fids@, known@, ti as int),
            forall|s: int| 0 <= s < r@.len() ==> snapped(sk@, #[trigger] r@[s].n1d_s, r@[s].n1d_f),
        decreases fids@.len() - ti,
    {
        let ghost before = sub_feed_views(r@);
        proof {
            lemma_subs_after_grows(fids@, known@, ti + 1, fids@.len() as int);
        }
        match &fids[ti] {
            None => {},
            Some(fid) => {
                assert(fids@[ti as int] is Some);
                let fs = fid.as_str();
                proof {
                    assert(fs.spec_bytes() == encode_utf8(fid@));
                }
                let sb = byte_prefix(fs, 3).unwrap();
                match find_known(known, sb) {
                    None => {},
                    Some((nd, cf)) => {
                        let fp = find_sub_feed(&r, sb);
                        proof {
                            lemma_sub_pos(before, sb@, 0);
                        }
                        match fp {
                            Some(p) => {
                                let mut e = r.remove(p);
                                add_record(&mut e.feed, fid.as_str(), ti);
                                r.insert(p, e);
                                proof {
                                    assert(sub_feed_views(r@) =~= before.update(p as int, (before[p as int].0, before[p as int].1, before[p as int].2, add_to_groups(before[p as int].3, fid@, ti))));
                                }
                            },
                            None => {
                                let n1d_f = find_node(nd, &sk);
                                let mut feed: Vec<(String, Vec<usize>)> = Vec::new();
                                assert(group_views(feed@) =~= Seq::<(Seq<char>, Seq<usize>)>::empty());
                                add_record(&mut feed, fid.as_str(), ti);
                                let e = SubFeedTrans { sbid: sb.to_owned(), conf: cf, n1d_s: nd, n1d_f, feed };
                                r.push(e);
                                proof {
                                    assert(sub_feed_views(r@) =~= before.push((sb@, cf@, nd, add_to_groups(Seq::empty(), fid@, ti))));
                                }
                            },
                        }
                    },
                }
            },
        }
        ti = ti + 1;
    }
    r
}

// ---------------------------------------------------------------------------
// Bills to meters.

/// The first meter from position `j` on that has both numbers, with
/// installation number `ins` (when `by_ins`) or PEA number `pea` (otherwise).
pub open spec fn first_meter_from(meters: Seq<(Option<String>, Option<String>)>, key: Seq<char>, by_ins: bool, j: int) -> Option<int>
    decreases meters.len() - j,
{
    if j < 0 || j >= meters.len() {
        None
    } else if meters[j].0 is Some && meters[j].1 is Some && (if by_ins {
        meters[j].0->0@
    } else {
        meters[j].1->0@
    }) == key {
        Some(j)
    } else {
        first_meter_from(meters, key, by_ins, j + 1)
    }
}

/// The meter a bill (installation number, PEA number) goes to: the first
/// meter with its installation number, else the first with its PEA number.
pub open spec fn meter_of_bill(meters: Seq<(Option<String>, Option<String>)>, bill: (String, String)) -> Option<int> {
    match first_meter_from(meters, bill.0@, true, 0) {
        Some(m) => Some(m),
        None => first_meter_from(meters, bill.1@, false, 0),
    }
}

/// The positions of the bills that go to meter `m`, in order.
pub open spec fn bills_of_meter(meters: Seq<(Option<String>, Option<String>)>, bills: Seq<(String, String)>, m: int) -> Seq<usize>
    decreases bills.len(),
{
    if bills.len() == 0 {
        Seq::empty()
    } else {
        let rest = bills_of_meter(meters, bills.drop_last(), m);
        if meter_of_bill(meters, bills.last()) == Some(m) {
            rest.push((bills.len() - 1) as usize)
        } else {
            rest
        }
    }
}

proof fn lemma_first_meter(meters: Seq<(Option<String>, Option<String>)>, key: Seq<char>, by_ins: bool, j: int)
    requires
        0 <= j,
    ensures
        first_meter_from(meters, key, by_ins, j) matches Some(p) ==> j <= p < meters.len(),
    decreases meters.len() - j,
{
    if j < meters.len() {
        lemma_first_meter(meters, key, by_ins, j + 1);
    }
}

/// The first meter with both numbers whose installation number (or PEA
/// number) is `key`.
fn first_meter(meters: &Vec<(Option<String>, Option<String>)>, key: &str, by_ins: bool) -> (r: Option<usize>)
    ensures
        match r {
            Some(m) => first_meter_from(meters@, key@, by_ins, 0) == Some(m as int),
            None => first_meter_from(meters@, key@, by_ins, 0) is None,
        },
{
    let mut j: usize = 0;
    while j < meters.len()
        invariant
            j <= meters@.len(),
            first_meter_from(meters@, key@, by_ins, 0) == first_meter_from(meters@, key@, by_ins, j as int),
        decreases meters@.len() - j,
    {
        match (&meters[j].0, &meters[j].1) {
            (Some(ins), Some(pea)) => {
                let k = if by_ins {
                    ins
                } else {
                    pea
                };
                if str_eq(k.as_str(), key) {
                    return Some(j);
                }
            },
            _ => {},
        }
        j = j + 1;
    }
    None
}

/// For each meter (installation number, PEA number), the positions of the
/// bills (installation number, PEA number) it receives: a bill goes to the
/// first meter that has both numbers and its installation number, else to the
/// first such meter with its PEA number, else nowhere.
pub fn bills_to_meters(meters: &Vec<(Option<String>, Option<String>)>, bills: &Vec<(String, String)>) -> (r: Vec<Vec<usize>>)
    ensures
        r@.len() == meters@.len(),
        forall|m: int| 0 <= m < meters@.len() ==> #[trigger] r@[m]@ == bills_of_meter(meters@, bills@, m),
{
    let mut r: Vec<Vec<usize>> = Vec::new();
    let mut m: usize = 0;
    while m < meters.len()
        invariant
            m <= meters@.len(),
            r@.len() == m,
            forall|q: int| 0 <= q < m ==> #[trigger] r@[q]@ == Seq::<usize>::empty(),
        decreases meters@.len() - m,
    {
        r.push(Vec::new());
        m = m + 1;
    }
    let mut i: usize = 0;
    assert(bills@.subrange(0, 0) =~= Seq::<(String, String)>::empty());
    while i < bills.len()
        invariant
            i <= bills@.len(),
            r@.len() == meters@.len(),
            forall|q: int| 0 <= q < meters@.len() ==> #[trigger] r@[q]@ == bills_of_meter(meters@, bills@.subrange(0, i as int), q),
        decreases bills@.len() - i,
    {
        let ghost pre = bills@.subrange(0, i + 1);
        assert(pre.drop_last() =~= bills@.subrange(0, i as int));
        assert(pre.last() == bills@[i as int]);
        let t = match first_meter(meters, bills[i].0.as_str(), true) {
            Some(mm) => Some(mm),
            None => first_meter(meters, bills[i].1.as_str(), false),
        };
        proof {
            lemma_first_meter(meters@, bills@[i as int].0@, true, 0);
            lemma_first_meter(meters@, bills@[i as int].1@, false, 0);
            assert(match t {
                Some(mm) => meter_of_bill(meters@, bills@[i as int]) == Some(mm as int),
                None => meter_of_bill(meters@, bills@[i as int]) is None,
            });
        }
        match t {
            Some(mm) => {
                let ghost before = r@;
                let mut v = r.remove(mm);
                v.push(i);
                r.insert(mm, v);
                proof {
                    assert forall|q: int| 0 <= q < meters@.len() implies #[trigger] r@[q]@ == bills_of_meter(meters@, pre, q) by {
                        if q == mm {
                            assert(r@[q] == v);
                        } else {
                            assert(r@[q] == before[q]);
                        }
                    }
                }
            },
            None => {},
        }
        i = i + 1;
    }
    assert(bills@.subrange(0, i as int) =~= bills@);
    r
}

/// The meter of a bill and whether it was found by installation number
/// (`true`) or by PEA number (`false`).
pub open spec fn bill_match(meters: Seq<(Option<String>, Option<String>)>, bill: (String, String)) -> Option<(usize, bool)> {
    match first_meter_from(meters, bill.0@, true, 0) {
        Some(m) => Some((m as usize, true)),
        None => match first_meter_from(meters, bill.1@, false, 0) {
            Some(m) => Some((m as usize, false)),
            None => None,
        },
    }
}

/// For each bill (installation number, PEA number), the meter it goes to (as
/// in `bills_to_meters`) and whether its installation number found it.
pub fn bill_meters(meters: &Vec<(Option<String>, Option<String>)>, bills: &Vec<(String, String)>) -> (r: Vec<Option<(usize, bool)>>)
    ensures
        r@.len() == bills@.len(),
        forall|i: int| 0 <= i < bills@.len() ==> #[trigger] r@[i] == bill_match(meters@, bills@[i]),
{
    let mut r: Vec<Option<(usize, bool)>> = Vec::new();
    let mut i: usize = 0;
    while i < bills.len()
        invariant
            i <= bills@.len(),
            r@.len() == i,
            forall|k: int| 0 <= k < i ==> #[trigger] r@[k] == bill_match(meters@, bills@[k]),
        decreases bills@.len() - i,
    {
        let t = match first_meter(meters, bills[i].0.as_str(), true) {
            Some(m) => Some((m, true)),
            None => match first_meter(meters, bills[i].1.as_str(), false) {
                Some(m) => Some((m, false)),
                None => None,
            },
        };
        r.push(t);
        i = i + 1;
    }
    r
}

proof fn lemma_bills_of_meter(meters: Seq<(Option<String>, Option<String>)>, bills: Seq<(String, String)>, m: int, i: usize)
    requires
        bills.len() <= usize::MAX,
    ensures
        bills_of_meter(meters, bills, m).contains(i) <==> (i < bills.len() && meter_of_bill(meters, bills[i as int]) == Some(m)),
    decreases bills.len(),
{
    if bills.len() > 0 {
        let rest = bills.drop_last();
        let rr = bills_of_meter(meters, rest, m);
        let last = (bills.len() - 1) as usize;
        lemma_bills_of_meter(meters, rest, m, i);
        if i < rest.len() {
            assert(rest[i as int] == bills[i as int]);
        }
        if meter_of_bill(meters, bills.last()) == Some(m) {
            let r = rr.push(last);
            assert(r.contains(i) <==> (rr.contains(i) || i == last)) by {
                if r.contains(i) && i != last {
                    let k = choose|k: int| 0 <= k < r.len() && r[k] == i;
                    assert(k < rr.len());
                    assert(rr[k] == i);
                }
                if rr.contains(i) {
                    let k = choose|k: int| 0 <= k < rr.len() && rr[k] == i;
                    assert(r[k] == i);
                }
                if i == last {
                    assert(r[r.len() - 1] == i);
                }
            }
        }
    }
}

/// A bill is listed under a meter by `bills_to_meters` exactly when
/// `bill_meters` gives that meter for it.
pub proof fn lemma_bill_listed_under_its_meter(meters: Seq<(Option<String>, Option<String>)>, bills: Seq<(String, String)>, m: int, i: usize)
    requires
        bills.len() <= usize::MAX,
        meters.len() <= usize::MAX,
        0 <= m < meters.len(),
        i < bills.len(),
    ensures
        bills_of_meter(meters, bills, m).contains(i) <==> (bill_match(meters, bills[i as int]) matches Some(t) && t.0 == m),
{
    lemma_bills_of_meter(meters, bills, m, i);
    lemma_first_meter(meters, bills[i as int].0@, true, 0);
    lemma_first_meter(meters, bills[i as int].1@, false, 0);
}

// ---------------------------------------------------------------------------
// Distribution transformers of the low-voltage connection records.

/// A distribution transformer known from the low-voltage connection records:
/// its id `{node}-{PEA number}`, PEA number, node, the network node it was
/// found at, its connection record, its own position, and the connection
/// records of its meters.
#[derive(Debug, Clone, Default)]
pub struct CnlTrans {
    pub trid: String,
    pub pea: String,
    pub n1d: u64,
    pub n1d_f: u64,
    pub ix: usize,
    pub lix: usize,
    pub mts: Vec<usize>,
}

/// The decimal digit `d`.
pub open spec fn digit_char(d: nat) -> char {
    (48 + d) as char
}

/// The decimal digits of `n`, most significant first.
pub open spec fn dec_text(n: nat) -> Seq<char>
    decreases n,
{
    if n < 10 {
        seq![digit_char(n)]
    } else {
        dec_text(n / 10).push(digit_char(n % 10))
    }
}

/// The transformer id of node `n` and PEA number `pea`.
pub open spec fn trid_of(n: u64, pea: Seq<char>) -> Seq<char> {
    dec_text(n as nat) + seq!['-'] + pea
}

/// The decimal digit `d` as text.
fn digit_text(d: u64) -> (r: &'static str)
    requires
        d < 10,
    ensures
        r@ == seq![digit_char(d as nat)],
{
    match d {
        0 => {
            proof {
                reveal_strlit("0");
            }
            "0"
        },
        1 => {
            proof {
                reveal_strlit("1");
            }
            "1"
        },
        2 => {
            proof {
                reveal_strlit("2");
            }
            "2"
        },
        3 => {
            proof {
                reveal_strlit("3");
            }
            "3"
        },
        4 => {
            proof {
                reveal_strlit("4");
            }
            "4"
        },
        5 => {
            proof {
                reveal_strlit("5");
            }
            "5"
        },
        6 => {
            proof {
                reveal_strlit("6");
            }
            "6"
        },
        7 => {
            proof {
                reveal_strlit("7");
            }
            "7"
        },
        8 => {
            proof {
                reveal_strlit("8");
            }
            "8"
        },
        _ => {
            proof {
                reveal_strlit("9");
            }
            "9"
        },
    }
}

/// The decimal digits of `n`, most significant first.
fn dec_string(n: u64) -> (r: String)
    ensures
        r@ == dec_text(n as nat),
    decreases n,
{
    if n < 10 {
        digit_text(n).to_owned()
    } else {
        let mut s = dec_string(n / 10);
        s.append(digit_text(n % 10));
        s
    }
}

/// The transformer id `{n}-{pea}`: the decimal digits of `n`, a `-`, then
/// `pea`.
fn trans_id_text(n: u64, pea: &str) -> (r: String)
    ensures
        r@ == trid_of(n, pea@),
{
    let mut r = dec_string(n);
    r.append("-");
    r.append(pea);
    proof {
        reveal_strlit("-");
    }
    r
}

/// A transformer record as id, PEA number, node, found-at node, connection
/// record, position and meter records.
pub type CnlTransView = (Seq<char>, Seq<char>, u64, u64, usize, usize, Seq<usize>);

/// The view of a transformer record.
pub open spec fn cnl_trans_view(c: CnlTrans) -> CnlTransView {
    (c.trid@, c.pea@, c.n1d, c.n1d_f, c.ix, c.lix, c.mts@)
}

/// The views of a list of transformer records.
pub open spec fn cnl_trans_views(r: Seq<CnlTrans>) -> Seq<CnlTransView> {
    r.map_values(|c: CnlTrans| cnl_trans_view(c))
}

/// The position of the first transformer with id `trid`, from `j` on.
pub open spec fn trid_pos_from(ctrs: Seq<CnlTransView>, trid: Seq<char>, j: int) -> Option<int>
    decreases ctrs.len() - j,
{
    if j < 0 || j >= ctrs.len() {
        None
    } else if ctrs[j].0 == trid {
        Some(j)
    } else {
        trid_pos_from(ctrs, trid, j + 1)
    }
}

proof fn lemma_trid_pos(ctrs: Seq<CnlTransView>, trid: Seq<char>, j: int)
    requires
        0 <= j,
    ensures
        trid_pos_from(ctrs, trid, j) matches Some(p) ==> j <= p < ctrs.len() && ctrs[p].0 == trid,
    decreases ctrs.len() - j,
{
    if j < ctrs.len() && ctrs[j].0 != trid {
        lemma_trid_pos(ctrs, trid, j + 1);
    }
}

/// A connection record as transformer node, transformer PEA number and the
/// record's own position.
pub type CnlRef = (Option<u64>, Option<String>, usize);

/// The transformers after equipment `e` at network node `nf`: a bridge in
/// the low-voltage connection layer whose record names a transformer (node and
/// PEA number) adds that transformer unless its id is already known.
pub open spec fn eq_step(ctrs: Seq<CnlTransView>, nf: u64, e: GridNode, cnl: Seq<CnlRef>) -> Seq<CnlTransView> {
    if e.ntp == NodeType::Bridge && e.ly@ == "GIS_LVCNL"@ && cnl[e.ix as int].0 is Some && cnl[e.ix as int].1 is Some {
        let n = cnl[e.ix as int].0->0;
        let pea = cnl[e.ix as int].1->0@;
        let trid = trid_of(n, pea);
        if trid_pos_from(ctrs, trid, 0) is Some {
            ctrs
        } else {
            ctrs.push((trid, pea, n, nf, e.ix, ctrs.len() as usize, Seq::empty()))
        }
    } else {
        ctrs
    }
}

/// The transformers after the first `k` pieces of equipment of node `nd`.
pub open spec fn eqs_step(ctrs: Seq<CnlTransView>, nd: NodeInfo, cnl: Seq<CnlRef>, k: int) -> Seq<CnlTransView>
    decreases k,
{
    if k <= 0 {
        ctrs
    } else {
        eq_step(eqs_step(ctrs, nd, cnl, k - 1), nd.n1d, nd.nodes@[k - 1], cnl)
    }
}

/// The transformers found at the first `n` network nodes.
pub open spec fn ctrs_of_nodes(nodes: Seq<NodeInfo>, cnl: Seq<CnlRef>, n: int) -> Seq<CnlTransView>
    decreases n,
{
    if n <= 0 {
        Seq::empty()
    } else {
        let nd = nodes[n - 1];
        eqs_step(ctrs_of_nodes(nodes, cnl, n - 1), nd, cnl, nd.nodes@.len() as int)
    }
}

/// The transformers after connection record `c`: a record naming a known
/// transformer adds itself to that transformer's meters.
pub open spec fn meter_step(ctrs: Seq<CnlTransView>, c: CnlRef) -> Seq<CnlTransView> {
    if c.0 is Some && c.1 is Some {
        match trid_pos_from(ctrs, trid_of(c.0->0, c.1->0@), 0) {
            Some(p) => ctrs.update(p, (ctrs[p].0, ctrs[p].1, ctrs[p].2, ctrs[p].3, ctrs[p].4, ctrs[p].5, ctrs[p].6.push(c.2))),
            None => ctrs,
        }
    } else {
        ctrs
    }
}

/// The transformers after the first `m` connection records.
pub open spec fn ctrs_with_meters(ctrs: Seq<CnlTransView>, cnl: Seq<CnlRef>, m: int) -> Seq<CnlTransView>
    decreases m,
{
    if m <= 0 {
        ctrs
    } else {
        meter_step(ctrs_with_meters(ctrs, cnl, m - 1), cnl[m - 1])
    }
}

/// No two transformers share an id.
pub open spec fn distinct_trids(ctrs: Seq<CnlTransView>) -> bool {
    forall|a: int, b: int| 0 <= a < ctrs.len() && 0 <= b < ctrs.len() && a != b ==> ctrs[a].0 != ctrs[b].0
}

/// The positions of the first `m` connection records that name transformer
/// `trid` (node and PEA number giving that id), in order.
pub open spec fn records_naming(cnl: Seq<CnlRef>, trid: Seq<char>, m: int) -> Seq<usize>
    decreases m,
{
    if m <= 0 {
        Seq::empty()
    } else {
        let prev = records_naming(cnl, trid, m - 1);
        let c = cnl[m - 1];
        if c.0 is Some && c.1 is Some && trid_of(c.0->0, c.1->0@) == trid {
            prev.push(c.2)
        } else {
            prev
        }
    }
}

proof fn lemma_trid_absent(ctrs: Seq<CnlTransView>, trid: Seq<char>, j: int)
    requires
        0 <= j,
        trid_pos_from(ctrs, trid, j) is None,
    ensures
        forall|q: int| j <= q < ctrs.len() ==> ctrs[q].0 != trid,
    decreases ctrs.len() - j,
{
    if j < ctrs.len() {
        lemma_trid_absent(ctrs, trid, j + 1);
    }
}

proof fn lemma_eqs_step(ctrs: Seq<CnlTransView>, nd: NodeInfo, cnl: Seq<CnlRef>, k: int)
    requires
        distinct_trids(ctrs),
        forall|p: int| 0 <= p < ctrs.len() ==> (#[trigger] ctrs[p]).6 == Seq::<usize>::empty(),
    ensures
        distinct_trids(eqs_step(ctrs, nd, cnl, k)),
        forall|p: int| 0 <= p < eqs_step(ctrs, nd, cnl, k).len() ==> (#[trigger] eqs_step(ctrs, nd, cnl, k)[p]).6 == Seq::<usize>::empty(),
    decreases k,
{
    if k > 0 {
        lemma_eqs_step(ctrs, nd, cnl, k - 1);
        let prev = eqs_step(ctrs, nd, cnl, k - 1);
        let e = nd.nodes@[k - 1];
        if e.ntp == NodeType::Bridge && e.ly@ == "GIS_LVCNL"@ && cnl[e.ix as int].0 is Some && cnl[e.ix as int].1 is Some {
            let trid = trid_of(cnl[e.ix as int].0->0, cnl[e.ix as int].1->0@);
            if trid_pos_from(prev, trid, 0) is None {
                lemma_trid_absent(prev, trid, 0);
                let next = eq_step(prev, nd.n1d, e, cnl);
                assert forall|a: int, b: int| 0 <= a < next.len() && 0 <= b < next.len() && a != b implies next[a].0 != next[b].0 by {
                    if a < prev.len() {
                        assert(next[a] == prev[a]);
                    }
                    if b < prev.len() {
                        assert(next[b] == prev[b]);
                    }
                }
                assert forall|p: int| 0 <= p < next.len() implies (#[trigger] next[p]).6 == Seq::<usize>::empty() by {
                    if p < prev.len() {
                        assert(next[p] == prev[p]);
                    }
                }
            }
        }
    }
}

proof fn lemma_ctrs_of_nodes(nodes: Seq<NodeInfo>, cnl: Seq<CnlRef>, n: int)
    ensures
        distinct_trids(ctrs_of_nodes(nodes, cnl, n)),
        forall|p: int| 0 <= p < ctrs_of_nodes(nodes, cnl, n).len() ==> (#[trigger] ctrs_of_nodes(nodes, cnl, n)[p]).6 == Seq::<usize>::empty(),
    decreases n,
{
    if n > 0 {
        lemma_ctrs_of_nodes(nodes, cnl, n - 1);
        lemma_eqs_step(ctrs_of_nodes(nodes, cnl, n - 1), nodes[n - 1], cnl, nodes[n - 1].nodes@.len() as int);
    }
}

proof fn lemma_ctrs_with_meters(ctrs: Seq<CnlTransView>, cnl: Seq<CnlRef>, m: int)
    requires
        0 <= m <= cnl.len(),
        distinct_trids(ctrs),
        forall|p: int| 0 <= p < ctrs.len() ==> (#[trigger] ctrs[p]).6 == Seq::<usize>::empty(),
    ensures
        ctrs_with_meters(ctrs, cnl, m).len() == ctrs.len(),
        forall|p: int| 0 <= p < ctrs.len() ==> (#[trigger] ctrs_with_meters(ctrs, cnl, m)[p]).0 == ctrs[p].0,
        forall|p: int| 0 <= p < ctrs.len() ==> (#[trigger] ctrs_with_meters(ctrs, cnl, m)[p]).6 == records_naming(cnl, ctrs[p].0, m),
    decreases m,
{
    if m > 0 {
        lemma_ctrs_with_meters(ctrs, cnl, m - 1);
        let prev = ctrs_with_meters(ctrs, cnl, m - 1);
        let next = ctrs_with_meters(ctrs, cnl, m);
        let c = cnl[m - 1];
        assert(next == meter_step(prev, c));
        if c.0 is Some && c.1 is Some {
            let t = trid_of(c.0->0, c.1->0@);
            lemma_trid_pos(prev, t, 0);
            match trid_pos_from(prev, t, 0) {
                Some(p) => {
                    assert forall|q: int| 0 <= q < ctrs.len() implies (#[trigger] next[q]).6 == records_naming(cnl, ctrs[q].0, m) by {
                        if q != p {
                            assert(next[q] == prev[q]);
                            assert(prev[q].0 != prev[p].0);
                        }
                    }
                    assert forall|q: int| 0 <= q < ctrs.len() implies (#[trigger] next[q]).0 == ctrs[q].0 by {
                        if q != p {
                            assert(next[q] == prev[q]);
                        }
                    }
                },
                None => {
                    lemma_trid_absent(prev, t, 0);
                    assert forall|q: int| 0 <= q < ctrs.len() implies (#[trigger] next[q]).6 == records_naming(cnl, ctrs[q].0, m) by {
                        assert(prev[q].0 != t);
                    }
                },
            }
        }
    }
}

/// The transformers of the connection records have distinct ids, and the
/// meters of each are exactly the connection records that name it, in
/// record order.
pub proof fn lemma_cnl_transformers(nodes: Seq<NodeInfo>, cnl: Seq<CnlRef>)
    ensures
        ({
            let r = ctrs_with_meters(ctrs_of_nodes(nodes, cnl, nodes.len() as int), cnl, cnl.len() as int);
            &&& distinct_trids(r)
            &&& forall|p: int| 0 <= p < r.len() ==> (#[trigger] r[p]).6 == records_naming(cnl, r[p].0, cnl.len() as int)
        }),
{
    let base = ctrs_of_nodes(nodes, cnl, nodes.len() as int);
    lemma_ctrs_of_nodes(nodes, cnl, nodes.len() as int);
    lemma_ctrs_with_meters(base, cnl, cnl.len() as int);
    let r = ctrs_with_meters(base, cnl, cnl.len() as int);
    assert forall|a: int, b: int| 0 <= a < r.len() && 0 <= b < r.len() && a != b implies r[a].0 != r[b].0 by {
        assert(r[a].0 == base[a].0);
        assert(r[b].0 == base[b].0);
    }
    assert forall|p: int| 0 <= p < r.len() implies (#[trigger] r[p]).6 == records_naming(cnl, r[p].0, cnl.len() as int) by {
        assert(r[p].0 == base[p].0);
    }
}

/// Every low-voltage connection bridge points at a connection record.
pub open spec fn bridges_in_range(nodes: Seq<NodeInfo>, n_cnl: int) -> bool {
    forall|a: int, b: int|
        0 <= a < nodes.len() && 0 <= b < nodes[a].nodes@.len() && #[trigger] nodes[a].nodes@[b].ntp == NodeType::Bridge
            && nodes[a].nodes@[b].ly@ == "GIS_LVCNL"@ ==> nodes[a].nodes@[b].ix < n_cnl
}

/// The position of the transformer with id `trid`.
fn find_trid(ctrs: &Vec<CnlTrans>, trid: &str) -> (r: Option<usize>)
    ensures
        match r {
            Some(p) => trid_pos_from(cnl_trans_views(ctrs@), trid@, 0) == Some(p as int),
            None => trid_pos_from(cnl_trans_views(ctrs@), trid@, 0) is None,
        },
{
    let ghost v = cnl_trans_views(ctrs@);
    let mut j: usize = 0;
    while j < ctrs.len()
        invariant
            v == cnl_trans_views(ctrs@),
            j <= ctrs@.len(),
            trid_pos_from(v, trid@, 0) == trid_pos_from(v, trid@, j as int),
        decreases ctrs@.len() - j,
    {
        if str_eq(ctrs[j].trid.as_str(), trid) {
            return Some(j);
        }
        j = j + 1;
    }
    None
}

/// The distribution transformers of an area: walking the network nodes in
/// order, each low-voltage connection bridge whose connection record names a
/// transformer (node and PEA number) gives that transformer, once per id;
/// then every connection record that names a known transformer is added to
/// its meters, in record order.
pub fn cnl_transformers(nodes: &Vec<NodeInfo>, cnl: &Vec<CnlRef>) -> (r: Vec<CnlTrans>)
    requires
        bridges_in_range(nodes@, cnl@.len() as int),
    ensures
        cnl_trans_views(r@) == ctrs_with_meters(ctrs_of_nodes(nodes@, cnl@, nodes@.len() as int), cnl@, cnl@.len() as int),
{
    let mut r: Vec<CnlTrans> = Vec::new();
    let mut n: usize = 0;
    assert(cnl_trans_views(r@) =~= Seq::<CnlTransView>::empty());
    while n < nodes.len()
        invariant
            n <= nodes@.len(),
            bridges_in_range(nodes@, cnl@.len() as int),
            cnl_trans_views(r@) == ctrs_of_nodes(nodes@, cnl@, n as int),
        decreases nodes@.len() - n,
    {
        let nd = &nodes[n];
        let ghost start = cnl_trans_views(r@);
        let mut k: usize = 0;
        while k < nd.nodes.len()
            invariant
                n < nodes@.len(),
                *nd == nodes@[n as int],
                k <= nd.nodes@.len(),
                bridges_in_range(nodes@, cnl@.len() as int),
                cnl_trans_views(r@) == eqs_step(start, *nd, cnl@, k as int),
            decreases nd.nodes@.len() - k,
        {
            let e = &nd.nodes[k];
            let ghost before = cnl_trans_views(r@);
            if e.ntp == NodeType::Bridge && str_eq(e.ly.as_str(), "GIS_LVCNL") {
                assert(nodes@[n as int].nodes@[k as int].ntp == NodeType::Bridge);
                let c = &cnl[e.ix];
                match (&c.0, &c.1) {
                    (Some(n0), Some(pea)) => {
                        let trid = trans_id_text(*n0, pea.as_str());
                        match find_trid(&r, trid.as_str()) {
                            Some(_) => {},
                            None => {
                                let lix = r.len();
                                let t = CnlTrans {
                                    trid,
                                    pea: pea.clone(),
                                    n1d: *n0,
                                    n1d_f: nd.n1d,
                                    ix: e.ix,
                                    lix,
                                    mts: Vec::new(),
                                };
                                r.push(t);
                                proof {
                                    assert(cnl_trans_views(r@) =~= before.push((trid_of(*n0, pea@), pea@, *n0, nd.n1d, e.ix, lix, Seq::empty())));
                                }
                            },
                        }
                    },
                    _ => {},
                }
            }
            k = k + 1;
        }
        n = n + 1;
    }
    let ghost found = cnl_trans_views(r@);
    let mut m: usize = 0;
    while m < cnl.len()
        invariant
            m <= cnl@.len(),
            found == ctrs_of_nodes(nodes@, cnl@, nodes@.len() as int),
            cnl_trans_views(r@) == ctrs_with_meters(found, cnl@, m as int),
        decreases cnl@.len() - m,
    {
        let c = &cnl[m];
        let ghost before = cnl_trans_views(r@);
        match (&c.0, &c.1) {
            (Some(n0), Some(pea)) => {
                let trid = trans_id_text(*n0, pea.as_str());
                let fp = find_trid(&r, trid.as_str());
                proof {
                    lemma_trid_pos(before, trid@, 0);
                }
                match fp {
                    Some(p) => {
                        let mut t = r.remove(p);
                        t.mts.push(c.2);
                        r.insert(p, t);
                        proof {
                            assert(cnl_trans_views(r@) =~= before.update(p as int, (before[p as int].0, before[p as int].1, before[p as int].2, before[p as int].3, before[p as int].4, before[p as int].5, before[p as int].6.push(c.2))));
                        }
                    },
                    None => {},
                }
            },
            _ => {},
        }
        m = m + 1;
    }
    r
}

} // verus!
