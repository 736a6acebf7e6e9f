//! Small verified string helpers shared by the table lookups and parsers.

use vstd::prelude::*;
use vstd::utf8::*;
use vstd::string::*;

verus! {

broadcast use vstd::utf8::encode_utf8_decode_utf8;

/// Character-wise equality of two string slices, decided on their UTF-8 bytes.
pub fn str_eq(a: &str, b: &str) -> (r: bool)
    ensures
        r == (a@ == b@),
{
    let ab = a.as_bytes();
    let bb = b.as_bytes();
    if ab.len() != bb.len() {
        return false;
    }
    let mut i: usize = 0;
    while i < ab.len()
        invariant
            ab@ == a.spec_bytes(),
            bb@ == b.spec_bytes(),
            ab@.len() == bb@.len(),
            i <= ab@.len(),
            forall|k: int| 0 <= k < i ==> ab@[k] == bb@[k],
        decreases ab@.len() - i,
    {
        if ab[i] != bb[i] {
            return false;
        }
        i = i + 1;
    }
    proof {
        assert(a.spec_bytes() =~= b.spec_bytes());
        assert(decode_utf8(encode_utf8(a@)) == a@);
        assert(decode_utf8(encode_utf8(b@)) == b@);
    }
    true
}

/// A table of string keys, each with its value, as the keys' characters.
pub open spec fn keyed<V>(t: Seq<(&str, V)>) -> Seq<(Seq<char>, V)> {
    t.map_values(|e: (&str, V)| (e.0@, e.1))
}

/// The value of the first entry of `t` whose key is `k`, if there is one.
pub open spec fn table_lookup<V>(t: Seq<(Seq<char>, V)>, k: Seq<char>) -> Option<V>
    decreases t.len(),
{
    if t.len() == 0 {
        None
    } else if t[0].0 == k {
        Some(t[0].1)
    } else {
        table_lookup(t.drop_first(), k)
    }
}

/// A table lookup finds the value of the first entry holding the key, and
/// nothing when no entry holds it.
pub proof fn lemma_table_lookup_first<V>(t: Seq<(Seq<char>, V)>, k: Seq<char>)
    ensures
        table_lookup(t, k) is None <==> forall|i: int| 0 <= i < t.len() ==> #[trigger] t[i].0 != k,
        forall|i: int| 0 <= i < t.len() && #[trigger] t[i].0 == k && (forall|j: int| 0 <= j < i ==> t[j].0 != k)
            ==> table_lookup(t, k) == Some(t[i].1),
    decreases t.len(),
{
    if t.len() > 0 {
        lemma_table_lookup_first(t.drop_first(), k);
        assert forall|i: int| 0 < i < t.len() implies #[trigger] t[i] == t.drop_first()[i - 1] by {}
        if t[0].0 != k {
            assert forall|i: int| 0 <= i < t.len() && #[trigger] t[i].0 == k && (forall|j: int| 0 <= j < i ==> t[j].0 != k)
                implies table_lookup(t, k) == Some(t[i].1) by {
                assert(t.drop_first()[i - 1].0 == k);
                assert forall|j: int| 0 <= j < i - 1 implies t.drop_first()[j].0 != k by {
                    assert(t[j + 1] == t.drop_first()[j]);
                }
            }
            if table_lookup(t, k) is None {
                assert forall|i: int| 0 <= i < t.len() implies #[trigger] t[i].0 != k by {
                    if i > 0 {
                        assert(t[i] == t.drop_first()[i - 1]);
                    }
                }
            }
        }
    }
}

/// The value of the first entry of the table whose key is `key`.
pub fn lookup<V: Copy>(table: &Vec<(&str, V)>, key: &str) -> (r: Option<V>)
    ensures
        r == table_lookup(keyed(table@), key@),
        r is None <==> forall|i: int| 0 <= i < table@.len() ==> #[trigger] table@[i].0@ != key@,
        forall|i: int| 0 <= i < table@.len() && #[trigger] table@[i].0@ == key@
            && (forall|j: int| 0 <= j < i ==> table@[j].0@ != key@) ==> r == Some(table@[i].1),
{
    proof {
        let t = keyed(table@);
        lemma_table_lookup_first(t, key@);
        assert forall|i: int| 0 <= i < table@.len() implies #[trigger] table@[i] == table@[i] && t[i] == (table@[i].0@, table@[i].1) by {}
        if table_lookup(t, key@) is None {
            assert forall|i: int| 0 <= i < table@.len() implies #[trigger] table@[i].0@ != key@ by {
                assert(t[i].0 != key@);
            }
        } else {
            if forall|i: int| 0 <= i < table@.len() ==> #[trigger] table@[i].0@ != key@ {
                assert forall|i: int| 0 <= i < t.len() implies #[trigger] t[i].0 != key@ by {
                    assert(table@[i].0@ != key@);
                }
            }
        }
        assert forall|i: int| 0 <= i < table@.len() && #[trigger] table@[i].0@ == key@
            && (forall|j: int| 0 <= j < i ==> table@[j].0@ != key@) implies table_lookup(t, key@) == Some(table@[i].1) by {
            assert(t[i].0 == key@);
            assert forall|j: int| 0 <= j < i implies t[j].0 != key@ by {
                assert(table@[j].0@ != key@);
            }
        }
    }
    let ghost t = keyed(table@);
    let mut i: usize = 0;
    assert(t.subrange(0, t.len() as int) =~= t);
    while i < table.len()
        invariant
            t == keyed(table@),
            i <= table@.len(),
            table_lookup(t, key@) == table_lookup(t.subrange(i as int, t.len() as int), key@),
            forall|q: int| 0 <= q < table@.len() && #[trigger] table@[q].0@ == key@
                && (forall|j: int| 0 <= j < q ==> table@[j].0@ != key@) ==> table_lookup(t, key@) == Some(table@[q].1),
        decreases table@.len() - i,
    {
        let ghost rest = t.subrange(i as int, t.len() as int);
        assert(rest[0] == t[i as int]);
        assert(rest.drop_first() =~= t.subrange(i + 1, t.len() as int));
        if str_eq(table[i].0, key) {
            return Some(table[i].1);
        }
        i = i + 1;
    }
    proof {
        assert(t.subrange(i as int, t.len() as int).len() == 0);
    }
    None
}

/// The first `n` bytes of `s` as a string slice, when byte `n` starts a
/// character (or ends the string); `None` otherwise.
pub fn byte_prefix(s: &str, n: usize) -> (r: Option<&str>)
    ensures
        r is Some <==> is_char_boundary(s.spec_bytes(), n as int),
        r is Some ==> r->0.spec_bytes() == s.spec_bytes().subrange(0, n as int) && r->0@ == decode_utf8(
            s.spec_bytes().subrange(0, n as int),
        ),
{
    if s.is_char_boundary(n) {
        let (p, _) = s.split_at(n);
        proof {
            assert(p.spec_bytes() =~= s.spec_bytes().subrange(0, n as int));
            assert(decode_utf8(encode_utf8(p@)) == p@);
        }
        Some(p)
    } else {
        None
    }
}

/// A character with the Unicode `White_Space` property (what
/// `char::is_whitespace` answers).
pub open spec fn is_ws(c: char) -> bool {
    ||| '\t' <= c <= '\r'
    ||| c == ' '
    ||| c == '\u{85}'
    ||| c == '\u{a0}'
    ||| c == '\u{1680}'
    ||| '\u{2000}' <= c <= '\u{200a}'
    ||| c == '\u{2028}'
    ||| c == '\u{2029}'
    ||| c == '\u{202f}'
    ||| c == '\u{205f}'
    ||| c == '\u{3000}'
}

/// The text without its leading white space.
pub open spec fn trim_start(s: Seq<char>) -> Seq<char>
    decreases s.len(),
{
    if s.len() > 0 && is_ws(s[0]) {
        trim_start(s.drop_first())
    } else {
        s
    }
}

/// The text without its trailing white space.
pub open spec fn trim_end(s: Seq<char>) -> Seq<char>
    decreases s.len(),
{
    if s.len() > 0 && is_ws(s.last()) {
        trim_end(s.drop_last())
    } else {
        s
    }
}

/// The text without leading and trailing white space (what `str::trim`
/// gives).
pub open spec fn trimmed(s: Seq<char>) -> Seq<char> {
    trim_end(trim_start(s))
}

fn is_ws_char(c: char) -> (r: bool)
    ensures
        r == is_ws(c),
{
    ('\t' <= c && c <= '\r') || c == ' ' || c == '\u{85}' || c == '\u{a0}' || c == '\u{1680}' || ('\u{2000}'
        <= c && c <= '\u{200a}') || c == '\u{2028}' || c == '\u{2029}' || c == '\u{202f}' || c == '\u{205f}'
        || c == '\u{3000}'
}

proof fn lemma_trim_start(s: Seq<char>, i: int)
    requires
        0 <= i <= s.len(),
        forall|k: int| 0 <= k < i ==> is_ws(#[trigger] s[k]),
        i == s.len() || !is_ws(s[i]),
    ensures
        trim_start(s) == s.subrange(i, s.len() as int),
    decreases i,
{
    if i == 0 {
        assert(s.subrange(0, s.len() as int) =~= s);
    } else {
        let t = s.drop_first();
        assert forall|k: int| 0 <= k < i - 1 implies is_ws(#[trigger] t[k]) by {
            assert(t[k] == s[k + 1]);
        }
        assert(is_ws(s[0]));
        lemma_trim_start(t, i - 1);
        assert(t.subrange(i - 1, t.len() as int) =~= s.subrange(i, s.len() as int));
    }
}

proof fn lemma_trim_end(s: Seq<char>, j: int)
    requires
        0 <= j <= s.len(),
        forall|k: int| j <= k < s.len() ==> is_ws(#[trigger] s[k]),
        j == 0 || !is_ws(s[j - 1]),
    ensures
        trim_end(s) == s.subrange(0, j),
    decreases s.len() - j,
{
    if j == s.len() {
        assert(s.subrange(0, j) =~= s);
    } else {
        let t = s.drop_last();
        assert forall|k: int| j <= k < t.len() implies is_ws(#[trigger] t[k]) by {
            assert(t[k] == s[k]);
        }
        assert(is_ws(s.last()));
        lemma_trim_end(t, j);
        assert(t.subrange(0, j) =~= s.subrange(0, j));
    }
}

/// The text without leading and trailing white space.
pub fn trim_ws(s: &str) -> (r: &str)
    ensures
        r@ == trimmed(s@),
{
    let n = s.unicode_len();
    let mut i: usize = 0;
    while i < n && is_ws_char(s.get_char(i))
        invariant
            n == s@.len(),
            i <= n,
            forall|k: int| 0 <= k < i ==> is_ws(#[trigger] s@[k]),
        decreases n - i,
    {
        i = i + 1;
    }
    let mut j: usize = n;
    while j > i && is_ws_char(s.get_char(j - 1))
        invariant
            n == s@.len(),
            i <= j <= n,
            forall|k: int| j <= k < n ==> is_ws(#[trigger] s@[k]),
        decreases j,
    {
        j = j - 1;
    }
    proof {
        lemma_trim_start(s@, i as int);
        let t = s@.subrange(i as int, n as int);
        assert forall|k: int| j - i <= k < t.len() implies is_ws(#[trigger] t[k]) by {
            assert(t[k] == s@[k + i]);
        }
        if j > i {
            assert(t[j - i - 1] == s@[j - 1]);
        }
        lemma_trim_end(t, j - i);
        assert(t.subrange(0, j - i) =~= s@.subrange(i as int, j as int));
    }
    s.substring_char(i, j)
}

} // verus!
