//! Pattern matching on spreadsheet text: the regular-expression calls, the
//! header-cell scan that locates the columns of a sheet, decimal numbers and
//! the Thai area names found inside longer texts.

use vstd::prelude::*;
use regex::Regex;
use crate::text::table_lookup;
use crate::geo2::{ar_th_code, ar_th_codes};

verus! {

/// Name for whether `regex::Regex::new` accepts the pattern.
pub uninterp spec fn regex_compiles(pat: Seq<char>) -> bool;

/// Name for what `Regex::is_match` answers for the compiled pattern on the
/// text: whether the pattern matches anywhere in it.
pub uninterp spec fn regex_finds(pat: Seq<char>, text: Seq<char>) -> bool;

/// Name for what `Regex::captures` gives for the compiled pattern on the text:
/// the capture groups of the first match (group 0 the whole match, a group
/// that took no part `None`), or `None` when nothing matches.
pub uninterp spec fn regex_first_captures(pat: Seq<char>, text: Seq<char>) -> Option<Seq<Option<Seq<char>>>>;

/// Calls `regex::Regex::new` on the pattern and, when it compiles,
/// `Regex::is_match` on the text. Claimed: `None` exactly when the pattern
/// does not compile, otherwise the named answer of `is_match`.
#[verifier::external_body]
fn regex_is_match(pat: &str, text: &str) -> (r: Option<bool>)
    ensures
        r is None <==> !regex_compiles(pat@),
        r is Some ==> r->0 == regex_finds(pat@, text@),
{
    match Regex::new(pat) {
        Ok(re) => Some(re.is_match(text)),
        Err(_) => None,
    }
}

/// The capture groups as character sequences.
pub open spec fn captures_view(r: Option<Vec<Option<String>>>) -> Option<Seq<Option<Seq<char>>>> {
    match r {
        Some(v) => Some(v@.map_values(|g: Option<String>| match g {
            Some(s) => Some(s@),
            None => None,
        })),
        None => None,
    }
}

/// Calls `regex::Regex::new` on the pattern and, when it compiles,
/// `Regex::captures` on the text, copying out every group (`Captures::get`,
/// `Match::as_str`). Claimed: `None` when the pattern does not compile;
/// otherwise the named groups of the first match.
#[verifier::external_body]
fn regex_captures(pat: &str, text: &str) -> (r: Option<Vec<Option<String>>>)
    ensures
        !regex_compiles(pat@) ==> r is None,
        regex_compiles(pat@) ==> captures_view(r) == regex_first_captures(pat@, text@),
{
    let re = match Regex::new(pat) { Ok(re) => re, Err(_) => return None };
    let caps = match re.captures(text) { Some(c) => c, None => return None };
    let mut groups = Vec::new();
    for i in 0..caps.len() {
        match caps.get(i) { Some(m) => groups.push(Some(m.as_str().to_string())), None => groups.push(None) }
    }
    Some(groups)
}

/// The pattern compiles and matches somewhere in the text.
pub open spec fn hits(pat: Seq<char>, text: Seq<char>) -> bool {
    regex_compiles(pat) && regex_finds(pat, text)
}

/// Whether the pattern compiles and matches somewhere in the text.
pub fn pattern_hits(pat: &str, text: &str) -> (r: bool)
    ensures
        r == hits(pat@, text@),
{
    match regex_is_match(pat, text) {
        Some(b) => b,
        None => false,
    }
}

/// Capture group `g` of the first match of the pattern in the text, when the
/// pattern compiles, matches, and the group took part in the match.
pub open spec fn capture_group(pat: Seq<char>, text: Seq<char>, g: int) -> Option<Seq<char>> {
    if !regex_compiles(pat) {
        None
    } else {
        match regex_first_captures(pat, text) {
            Some(groups) => if 0 <= g < groups.len() {
                groups[g]
            } else {
                None
            },
            None => None,
        }
    }
}

/// Capture group `g` of the first match of the pattern in the text.
pub fn pattern_group(pat: &str, text: &str, g: usize) -> (r: Option<String>)
    ensures
        match r {
            Some(s) => capture_group(pat@, text@, g as int) == Some(s@),
            None => capture_group(pat@, text@, g as int) is None,
        },
{
    let caps = regex_captures(pat, text);
    match caps {
        Some(groups) => {
            if g < groups.len() {
                match &groups[g] {
                    Some(s) => Some(s.clone()),
                    None => None,
                }
            } else {
                None
            }
        },
        None => None,
    }
}

// ---------------------------------------------------------------------------
// Header scan: every cell of the first rows is tried against a list of
// patterns in order; the first pattern that matches claims the cell, and each
// pattern remembers the last cell (in reading order) it claimed.

/// The first pattern of `pats` from index `k` on that hits the text.
pub open spec fn first_hit_from(pats: Seq<&str>, text: Seq<char>, k: int) -> Option<int>
    decreases pats.len() - k,
{
    if k < 0 || k >= pats.len() {
        None
    } else if hits(pats[k]@, text) {
        Some(k)
    } else {
        first_hit_from(pats, text, k + 1)
    }
}

/// The first pattern of `pats` that hits the text.
pub open spec fn first_hit(pats: Seq<&str>, text: Seq<char>) -> Option<int> {
    first_hit_from(pats, text, 0)
}

/// The last column before `n` of row `j` that pattern `p` claims.
pub open spec fn row_last(d: Seq<Vec<String>>, pats: Seq<&str>, p: int, j: int, n: int) -> Option<int>
    decreases n,
{
    if n <= 0 {
        None
    } else if first_hit(pats, d[j]@[n - 1]@) == Some(p) {
        Some(n - 1)
    } else {
        row_last(d, pats, p, j, n - 1)
    }
}

/// The last cell of the rows before `j` that pattern `p` claims.
pub open spec fn rows_last(d: Seq<Vec<String>>, pats: Seq<&str>, p: int, j: int) -> Option<(usize, usize)>
    decreases j,
{
    if j <= 0 {
        None
    } else {
        match row_last(d, pats, p, j - 1, d[j - 1]@.len() as int) {
            Some(c) => Some(((j - 1) as usize, c as usize)),
            None => rows_last(d, pats, p, j - 1),
        }
    }
}

/// The number of rows scanned: the first `rows`, or all when there are fewer.
pub open spec fn scanned_rows(d: Seq<Vec<String>>, rows: usize) -> int {
    if rows < d.len() {
        rows as int
    } else {
        d.len() as int
    }
}

/// The index of the first pattern that hits the text.
fn first_hit_of(pats: &Vec<&str>, text: &str) -> (r: Option<usize>)
    ensures
        match r {
            Some(k) => first_hit(pats@, text@) == Some(k as int),
            None => first_hit(pats@, text@) is None,
        },
{
    let mut k: usize = 0;
    while k < pats.len()
        invariant
            k <= pats@.len(),
            first_hit(pats@, text@) == first_hit_from(pats@, text@, k as int),
        decreases pats@.len() - k,
    {
        if pattern_hits(pats[k], text) {
            return Some(k);
        }
        k = k + 1;
    }
    None
}

/// For each pattern of `pats`, the last cell among the first `rows` rows of
/// `data` (read row by row, left to right) that it claims, a cell being
/// claimed by the first pattern that matches it.
pub fn scan_header(data: &Vec<Vec<String>>, rows: usize, pats: &Vec<&str>) -> (r: Vec<Option<(usize, usize)>>)
    ensures
        r@.len() == pats@.len(),
        forall|p: int| 0 <= p < pats@.len() ==> r@[p] == rows_last(data@, pats@, p, scanned_rows(data@, rows)),
{
    let mut r: Vec<Option<(usize, usize)>> = Vec::new();
    let mut k: usize = 0;
    while k < pats.len()
        invariant
            k <= pats@.len(),
            r@.len() == k,
            forall|p: int| 0 <= p < k ==> r@[p] is None,
        decreases pats@.len() - k,
    {
        r.push(None);
        k = k + 1;
    }
    let nrows = if rows < data.len() {
        rows
    } else {
        data.len()
    };
    let mut j: usize = 0;
    while j < nrows
        invariant
            nrows == scanned_rows(data@, rows),
            nrows <= data@.len(),
            j <= nrows,
            r@.len() == pats@.len(),
            forall|p: int| 0 <= p < pats@.len() ==> r@[p] == rows_last(data@, pats@, p, j as int),
        decreases nrows - j,
    {
        let row = &data[j];
        let mut c: usize = 0;
        while c < row.len()
            invariant
                j < data@.len(),
                row@ == data@[j as int]@,
                c <= row@.len(),
                r@.len() == pats@.len(),
                forall|p: int| 0 <= p < pats@.len() ==> r@[p] == match row_last(data@, pats@, p, j as int, c as int) {
                    Some(cc) => Some((j, cc as usize)),
                    None => rows_last(data@, pats@, p, j as int),
                },
            decreases row@.len() - c,
        {
            let fh = first_hit_of(pats, row[c].as_str());
            match fh {
                Some(p0) => {
                    proof {
                        assert(first_hit_from(pats@, row@[c as int]@, 0) == Some(p0 as int));
                        reveal_with_fuel(first_hit_from, 1);
                    }
                    if p0 < r.len() {
                        r.set(p0, Some((j, c)));
                    }
                },
                None => {},
            }
            proof {
                assert forall|p: int| 0 <= p < pats@.len() implies r@[p] == match row_last(data@, pats@, p, j as int, c + 1) {
                    Some(cc) => Some((j, cc as usize)),
                    None => rows_last(data@, pats@, p, j as int),
                } by {
                    assert(data@[j as int]@[c as int] == row@[c as int]);
                }
            }
            c = c + 1;
        }
        proof {
            assert forall|p: int| 0 <= p < pats@.len() implies r@[p] == rows_last(data@, pats@, p, j + 1) by {
            }
        }
        j = j + 1;
    }
    r
}

// ---------------------------------------------------------------------------
// Decimal numbers.

/// The value of a sequence of decimal digits.
pub open spec fn digits_value(s: Seq<char>) -> int
    decreases s.len(),
{
    if s.len() == 0 {
        0
    } else {
        digits_value(s.drop_last()) * 10 + (s.last() as int - '0' as int)
    }
}

/// Every character is an ASCII decimal digit.
pub open spec fn all_digits(s: Seq<char>) -> bool {
    forall|i: int| 0 <= i < s.len() ==> '0' <= #[trigger] s[i] <= '9'
}

/// What `str::parse::<u32>` gives: an optional `+`, then one or more decimal
/// digits whose value fits in 32 bits.
pub open spec fn u32_of_text(s: Seq<char>) -> Option<u32> {
    let ds = if s.len() > 0 && s[0] == '+' {
        s.drop_first()
    } else {
        s
    };
    if ds.len() > 0 && all_digits(ds) && digits_value(ds) <= u32::MAX {
        Some(digits_value(ds) as u32)
    } else {
        None
    }
}

proof fn lemma_digits_value_nonneg(s: Seq<char>)
    requires
        all_digits(s),
    ensures
        digits_value(s) >= 0,
    decreases s.len(),
{
    if s.len() > 0 {
        assert(all_digits(s.drop_last())) by {
            assert forall|i: int| 0 <= i < s.drop_last().len() implies '0' <= #[trigger] s.drop_last()[i] <= '9' by {
                assert(s.drop_last()[i] == s[i]);
            }
        }
        lemma_digits_value_nonneg(s.drop_last());
        assert('0' <= s[s.len() - 1] <= '9');
    }
}

/// Parses a decimal number the way `str::parse::<u32>` does.
pub fn parse_u32(text: &str) -> (r: Option<u32>)
    ensures
        r == u32_of_text(text@),
{
    let n = text.unicode_len();
    let mut i: usize = 0;
    let ghost s = text@;
    if n > 0 && text.get_char(0) == '+' {
        i = 1;
    }
    let ghost ds = if s.len() > 0 && s[0] == '+' {
        s.drop_first()
    } else {
        s
    };
    let start = i;
    if start >= n {
        return None;
    }
    let mut v: u64 = 0;
    while i < n
        invariant
            n == s.len(),
            s == text@,
            start <= i <= n,
            start == s.len() - ds.len(),
            ds == (if s.len() > 0 && s[0] == '+' { s.drop_first() } else { s }),
            ds == s.subrange(start as int, s.len() as int),
            all_digits(ds.subrange(0, i - start)),
            v == digits_value(ds.subrange(0, i - start)),
            v <= u32::MAX,
        decreases n - i,
    {
        let ch = text.get_char(i);
        let ghost pre = ds.subrange(0, i - start);
        let ghost next = ds.subrange(0, i + 1 - start);
        assert(next.drop_last() =~= pre);
        assert(next.last() == ch);
        if ch < '0' || ch > '9' {
            proof {
                assert(ds[i - start] == s[i as int]);
                assert(!all_digits(ds));
            }
            return None;
        }
        let d = (ch as u32 - '0' as u32) as u64;
        v = v * 10 + d;
        if v > 0xffff_ffffu64 {
            proof {
                assert(digits_value(next) > u32::MAX);
                if all_digits(ds) {
                    lemma_digits_value_prefix(ds, i + 1 - start);
                }
            }
            return None;
        }
        i = i + 1;
    }
    proof {
        assert(ds.subrange(0, n - start) =~= ds);
    }
    Some(v as u32)
}

/// What `str::parse::<i32>` gives: an optional `+` or `-`, then one or more
/// decimal digits, the signed value fitting in 32 bits.
pub open spec fn i32_of_text(s: Seq<char>) -> Option<i32> {
    let neg = s.len() > 0 && s[0] == '-';
    let ds = if s.len() > 0 && (s[0] == '+' || s[0] == '-') {
        s.drop_first()
    } else {
        s
    };
    let v = if neg { -digits_value(ds) } else { digits_value(ds) };
    if ds.len() > 0 && all_digits(ds) && i32::MIN <= v <= i32::MAX {
        Some(v as i32)
    } else {
        None
    }
}

/// Parses a decimal number the way `str::parse::<i32>` does.
pub fn parse_i32(text: &str) -> (r: Option<i32>)
    ensures
        r == i32_of_text(text@),
{
    let n = text.unicode_len();
    let ghost s = text@;
    let mut i: usize = 0;
    let mut neg = false;
    if n > 0 && (text.get_char(0) == '+' || text.get_char(0) == '-') {
        neg = text.get_char(0) == '-';
        i = 1;
    }
    let ghost ds = if s.len() > 0 && (s[0] == '+' || s[0] == '-') {
        s.drop_first()
    } else {
        s
    };
    let start = i;
    if start >= n {
        return None;
    }
    let mut v: u64 = 0;
    while i < n
        invariant
            n == s.len(),
            s == text@,
            start <= i <= n,
            start == s.len() - ds.len(),
            ds == (if s.len() > 0 && (s[0] == '+' || s[0] == '-') { s.drop_first() } else { s }),
            neg == (s.len() > 0 && s[0] == '-'),
            ds == s.subrange(start as int, s.len() as int),
            all_digits(ds.subrange(0, i - start)),
            v == digits_value(ds.subrange(0, i - start)),
            v <= 0x8000_0000,
        decreases n - i,
    {
        let ch = text.get_char(i);
        let ghost pre = ds.subrange(0, i - start);
        let ghost next = ds.subrange(0, i + 1 - start);
        assert(next.drop_last() =~= pre);
        assert(next.last() == ch);
        if ch < '0' || ch > '9' {
            proof {
                assert(ds[i - start] == s[i as int]);
                assert(!all_digits(ds));
            }
            return None;
        }
        let d = (ch as u32 - '0' as u32) as u64;
        v = v * 10 + d;
        if v > 0x8000_0000u64 {
            proof {
                assert(digits_value(next) > 0x8000_0000);
                if all_digits(ds) {
                    lemma_digits_value_prefix(ds, i + 1 - start);
                }
            }
            return None;
        }
        i = i + 1;
    }
    proof {
        assert(ds.subrange(0, n - start) =~= ds);
    }
    if neg {
        if v == 0x8000_0000u64 {
            Some(-0x8000_0000i32)
        } else {
            Some(-(v as i32))
        }
    } else {
        if v == 0x8000_0000u64 {
            None
        } else {
            Some(v as i32)
        }
    }
}

/// The value of a digit sequence is at least the value of each prefix.
proof fn lemma_digits_value_prefix(s: Seq<char>, k: int)
    requires
        all_digits(s),
        0 <= k <= s.len(),
    ensures
        digits_value(s) >= digits_value(s.subrange(0, k)),
    decreases s.len() - k,
{
    if k < s.len() {
        lemma_digits_value_prefix(s, k + 1);
        let a = s.subrange(0, k + 1);
        assert(a.drop_last() =~= s.subrange(0, k));
        assert(all_digits(s.subrange(0, k))) by {
            assert forall|i: int| 0 <= i < k implies '0' <= #[trigger] s.subrange(0, k)[i] <= '9' by {
                assert(s.subrange(0, k)[i] == s[i]);
            }
        }
        lemma_digits_value_nonneg(s.subrange(0, k));
        assert('0' <= a.last() <= '9') by {
            assert(a.last() == s[k]);
        }
    } else {
        assert(s.subrange(0, k) =~= s);
    }
}

// ---------------------------------------------------------------------------
// Thai area names inside longer texts.

/// The area code named by capture group 1 of the pattern's first match in the
/// text, when there is one and the area table has it.
pub open spec fn area_in_text(pat: Seq<char>, text: Seq<char>) -> Option<&'static str> {
    match capture_group(pat, text, 1) {
        Some(th) => table_lookup(ar_th_codes(), th),
        None => None,
    }
}

/// The area code named by capture group 1 of the pattern's first match in the
/// text (a Thai short area name such as `ก.1`), if the area table has it.
pub fn area_code_in(pat: &str, text: &str) -> (r: Option<&'static str>)
    ensures
        r == area_in_text(pat@, text@),
{
    match pattern_group(pat, text, 1) {
        Some(th) => ar_th_code(th.as_str()),
        None => None,
    }
}

} // verus!
