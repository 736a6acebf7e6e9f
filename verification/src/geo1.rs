//! Network node indexing: node numbers that interleave the bits of two grid
//! coordinates, and the nearest-node search over a sorted node list.

use vstd::prelude::*;
use vstd::string::*;
use vstd::utf8::*;
use base64::prelude::BASE64_STANDARD;
use base64::Engine;
use std::collections::HashMap;

verus! {

broadcast use vstd::string::group_string_axioms, vstd::std_specs::hash::group_hash_axioms;

/// The values never decrease along the sequence.
pub open spec fn is_sorted(s: Seq<u64>) -> bool {
    forall|i: int, j: int| 0 <= i <= j < s.len() ==> s[i] <= s[j]
}

/// Distance between two node numbers.
pub open spec fn dist(a: u64, b: u64) -> int {
    if a >= b {
        a - b
    } else {
        b - a
    }
}

/// `r` is an element of `s` closest to `n`; among equally close elements it
/// is the smallest.
pub open spec fn is_nearest(s: Seq<u64>, n: u64, r: u64) -> bool {
    &&& s.contains(r)
    &&& forall|k: int| 0 <= k < s.len() ==> dist(r, n) <= #[trigger] dist(s[k], n)
    &&& forall|k: int| 0 <= k < s.len() && dist(s[k], n) == dist(r, n) ==> r <= #[trigger] s[k]
}

/// `r` is what snapping `n` onto the list `s` gives: an entry of the list;
/// the last entry for a number above it, the first for a number below the
/// first (and not above the last); the first entry for a number in range of a
/// list of one or two entries; the nearest entry, the lower one on a tie, on a
/// sorted list of any other length.
pub open spec fn snapped(s: Seq<u64>, n: u64, r: u64) -> bool {
    &&& s.contains(r)
    &&& n > s.last() ==> r == s.last()
    &&& n < s[0] && n <= s.last() ==> r == s[0]
    &&& s.len() <= 2 && s[0] <= n <= s.last() ==> r == s[0]
    &&& is_sorted(s) && s.len() != 2 ==> is_nearest(s, n, r)
}

/// Snaps the node number `n1d0` onto the list `n1ds` (meant to be sorted).
///
/// A number above the last entry gives the last entry, one below the first
/// gives the first. Inside that range a list of one or two entries gives its
/// first entry; a longer sorted list gives its nearest entry, the lower one
/// on a tie.
pub fn find_node(n1d0: u64, n1ds: &Vec<u64>) -> (r: u64)
    requires
        n1ds@.len() > 0,
    ensures
        n1ds@.contains(r),
        n1d0 > n1ds@.last() ==> r == n1ds@.last(),
        n1d0 < n1ds@[0] && n1d0 <= n1ds@.last() ==> r == n1ds@[0],
        n1ds@.len() <= 2 && n1ds@[0] <= n1d0 <= n1ds@.last() ==> r == n1ds@[0],
        is_sorted(n1ds@) && n1ds@.len() != 2 ==> is_nearest(n1ds@, n1d0, r),
        snapped(n1ds@, n1d0, r),
{
    let ghost s = n1ds@;
    let last = n1ds.len() - 1;
    if n1d0 > n1ds[last] {
        proof {
            assert(s.contains(s[last as int]));
            if is_sorted(s) {
                assert forall|k: int| 0 <= k < s.len() && dist(s[k], n1d0) == dist(s[last as int], n1d0)
                    implies s[last as int] <= s[k] by {
                    assert(s[k] <= s[last as int]);
                }
            }
        }
        return n1ds[last];
    }
    if n1d0 < n1ds[0] {
        proof {
            assert(s.contains(s[0]));
            if is_sorted(s) {
                assert forall|k: int| 0 <= k < s.len() implies dist(s[0], n1d0) <= #[trigger] dist(s[k], n1d0) by {
                    assert(s[0] <= s[k]);
                }
            }
        }
        return n1ds[0];
    }
    if last < 2 {
        proof {
            assert(s.contains(s[0]));
        }
        return n1ds[0];
    }
    let mut xbt: usize = 0;
    let mut xtp: usize = last;
    while xtp - xbt > 1
        invariant
            s == n1ds@,
            s.len() >= 3,
            last == s.len() - 1,
            xbt < xtp <= last,
            s[0] <= n1d0 <= s[last as int],
            s[xbt as int] <= n1d0 <= s[xtp as int],
        decreases xtp - xbt,
    {
        let xi = xbt + (xtp - xbt) / 2;
        if n1ds[xi] > n1d0 {
            xtp = xi;
        } else if n1ds[xi] < n1d0 {
            xbt = xi;
        } else {
            proof {
                assert(s.contains(s[xi as int]));
                assert forall|k: int| 0 <= k < s.len() && dist(s[k], n1d0) == dist(n1d0, n1d0)
                    implies n1d0 <= #[trigger] s[k] by {
                }
            }
            return n1ds[xi];
        }
    }
    let tp = n1ds[xtp] - n1d0;
    let bt = n1d0 - n1ds[xbt];
    let r = if tp < bt {
        n1ds[xtp]
    } else {
        n1ds[xbt]
    };
    proof {
        assert(s.contains(s[xtp as int]));
        assert(s.contains(s[xbt as int]));
        if is_sorted(s) {
            assert forall|k: int| 0 <= k < s.len() implies dist(r, n1d0) <= #[trigger] dist(s[k], n1d0)
                && (dist(s[k], n1d0) == dist(r, n1d0) ==> r <= s[k]) by {
                if k <= xbt {
                    assert(s[k] <= s[xbt as int]);
                } else {
                    assert(xtp <= k);
                    assert(s[xtp as int] <= s[k]);
                }
            }
        }
    }
    r
}

/// The nearest element is unique: the search result is determined by the
/// list and the number alone.
pub proof fn lemma_nearest_unique(s: Seq<u64>, n: u64, r1: u64, r2: u64)
    requires
        is_nearest(s, n, r1),
        is_nearest(s, n, r2),
    ensures
        r1 == r2,
{
    let k1 = choose|k: int| 0 <= k < s.len() && s[k] == r1;
    let k2 = choose|k: int| 0 <= k < s.len() && s[k] == r2;
    assert(dist(r1, n) <= dist(s[k2], n));
    assert(dist(r2, n) <= dist(s[k1], n));
}

/// A node number that is already in a sorted list snaps onto itself.
pub proof fn lemma_nearest_of_member(s: Seq<u64>, n: u64, r: u64)
    requires
        is_sorted(s),
        s.contains(n),
        is_nearest(s, n, r),
    ensures
        r == n,
{
    let k = choose|k: int| 0 <= k < s.len() && s[k] == n;
    assert(dist(r, n) <= dist(s[k], n));
}

/// Snapping onto a sorted list keeps the order of the node numbers.
pub proof fn lemma_nearest_monotone(s: Seq<u64>, n: u64, m: u64, rn: u64, rm: u64)
    requires
        is_sorted(s),
        n <= m,
        is_nearest(s, n, rn),
        is_nearest(s, m, rm),
    ensures
        rn <= rm,
{
    let kn = choose|k: int| 0 <= k < s.len() && s[k] == rn;
    let km = choose|k: int| 0 <= k < s.len() && s[k] == rm;
    assert(dist(rn, n) <= dist(s[km], n));
    assert(dist(rm, m) <= dist(s[kn], m));
    if rn > rm {
        assert(dist(s[km], n) == dist(rn, n) ==> rn <= s[km]);
    }
}

/// Bit `i` of `v`.
pub open spec fn bit(v: u64, i: u64) -> bool {
    (v >> i) & 1u64 == 1u64
}

/// Spreads the low 32 bits of `v` onto the even bit positions (bit `i` to
/// bit `2 i`); the odd positions are zero.
pub open spec fn spread_bits(v: u64) -> u64 {
    let v = v & 0xffff_ffffu64;
    let v = (v | (v << 16u64)) & 0x0000_ffff_0000_ffffu64;
    let v = (v | (v << 8u64)) & 0x00ff_00ff_00ff_00ffu64;
    let v = (v | (v << 4u64)) & 0x0f0f_0f0f_0f0f_0f0fu64;
    let v = (v | (v << 2u64)) & 0x3333_3333_3333_3333u64;
    (v | (v << 1u64)) & 0x5555_5555_5555_5555u64
}

/// Gathers the even bit positions of `v` into a 32-bit value (bit `2 i` to
/// bit `i`); the inverse of `spread_bits`.
pub open spec fn gather_bits(v: u64) -> u64 {
    let v = v & 0x5555_5555_5555_5555u64;
    let v = (v | (v >> 1u64)) & 0x3333_3333_3333_3333u64;
    let v = (v | (v >> 2u64)) & 0x0f0f_0f0f_0f0f_0f0fu64;
    let v = (v | (v >> 4u64)) & 0x00ff_00ff_00ff_00ffu64;
    let v = (v | (v >> 8u64)) & 0x0000_ffff_0000_ffffu64;
    (v | (v >> 16u64)) & 0x0000_0000_ffff_ffffu64
}

/// The node number of grid cell `(x, y)`: bit `i` of `x` at bit `2 i + 1`,
/// bit `i` of `y` at bit `2 i`.
pub open spec fn n1d_of(x: u32, y: u32) -> u64 {
    (spread_bits(x as u64) << 1u64) | spread_bits(y as u64)
}

/// The grid cell `(x, y)` of node number `n`: the odd bits give `x`, the
/// even bits give `y`.
pub open spec fn cell_of(n: u64) -> (u32, u32) {
    (gather_bits(n >> 1u64) as u32, gather_bits(n) as u32)
}

/// The bit layout of a node number, bit by bit.
pub open spec fn interleaves(n: u64, x: u32, y: u32) -> bool {
    forall|i: u64| #![trigger bit(x as u64, i)] #![trigger bit(y as u64, i)]
        i < 32 ==> bit(n, (2 * i + 1) as u64) == bit(x as u64, i) && bit(n, (2 * i) as u64) == bit(y as u64, i)
}

proof fn lemma_interleaves(x: u32, y: u32)
    ensures
        interleaves(n1d_of(x, y), x, y),
{
    let n = n1d_of(x, y);
    assert forall|i: u64| i < 32 implies #[trigger] bit(x as u64, i) == bit(n, (2 * i + 1) as u64)
        && bit(n, (2 * i) as u64) == bit(y as u64, i) by {
        let xx = x as u64;
        let yy = y as u64;
        assert(bit((spread_bits(xx) << 1u64) | spread_bits(yy), (2 * i + 1) as u64) == bit(xx, i)
            && bit((spread_bits(xx) << 1u64) | spread_bits(yy), (2 * i) as u64) == bit(yy, i))
            by (bit_vector)
            requires
                i < 32,
                xx < 0x1_0000_0000u64,
                yy < 0x1_0000_0000u64,
        ;
    }
}

/// Node number of the grid cell `(x, y)`, interleaving the bits of the two
/// coordinates (`x` on the odd bits, `y` on the even bits).
pub fn n1d_interleave(x: u32, y: u32) -> (r: u64)
    ensures
        r == n1d_of(x, y),
        interleaves(r, x, y),
{
    let mut a: u64 = x as u64;
    a = (a | (a << 16u64)) & 0x0000_ffff_0000_ffffu64;
    a = (a | (a << 8u64)) & 0x00ff_00ff_00ff_00ffu64;
    a = (a | (a << 4u64)) & 0x0f0f_0f0f_0f0f_0f0fu64;
    a = (a | (a << 2u64)) & 0x3333_3333_3333_3333u64;
    a = (a | (a << 1u64)) & 0x5555_5555_5555_5555u64;
    let mut b: u64 = y as u64;
    b = (b | (b << 16u64)) & 0x0000_ffff_0000_ffffu64;
    b = (b | (b << 8u64)) & 0x00ff_00ff_00ff_00ffu64;
    b = (b | (b << 4u64)) & 0x0f0f_0f0f_0f0f_0f0fu64;
    b = (b | (b << 2u64)) & 0x3333_3333_3333_3333u64;
    b = (b | (b << 1u64)) & 0x5555_5555_5555_5555u64;
    proof {
        let xx = x as u64;
        let yy = y as u64;
        assert(xx & 0xffff_ffffu64 == xx) by (bit_vector)
            requires
                xx < 0x1_0000_0000u64,
        ;
        assert(yy & 0xffff_ffffu64 == yy) by (bit_vector)
            requires
                yy < 0x1_0000_0000u64,
        ;
        lemma_interleaves(x, y);
    }
    (a << 1u64) | b
}

/// Grid cell `(x, y)` of a node number: the odd bits give `x`, the even bits
/// give `y`.
pub fn n1d_split(n1d: u64) -> (r: (u32, u32))
    ensures
        r == cell_of(n1d),
        interleaves(n1d, r.0, r.1),
{
    let mut a: u64 = (n1d >> 1u64) & 0x5555_5555_5555_5555u64;
    a = (a | (a >> 1u64)) & 0x3333_3333_3333_3333u64;
    a = (a | (a >> 2u64)) & 0x0f0f_0f0f_0f0f_0f0fu64;
    a = (a | (a >> 4u64)) & 0x00ff_00ff_00ff_00ffu64;
    a = (a | (a >> 8u64)) & 0x0000_ffff_0000_ffffu64;
    a = (a | (a >> 16u64)) & 0x0000_0000_ffff_ffffu64;
    let mut b: u64 = n1d & 0x5555_5555_5555_5555u64;
    b = (b | (b >> 1u64)) & 0x3333_3333_3333_3333u64;
    b = (b | (b >> 2u64)) & 0x0f0f_0f0f_0f0f_0f0fu64;
    b = (b | (b >> 4u64)) & 0x00ff_00ff_00ff_00ffu64;
    b = (b | (b >> 8u64)) & 0x0000_ffff_0000_ffffu64;
    b = (b | (b >> 16u64)) & 0x0000_0000_ffff_ffffu64;
    proof {
        lemma_n1d_of_cell(n1d);
        lemma_interleaves(cell_of(n1d).0, cell_of(n1d).1);
    }
    (a as u32, b as u32)
}

/// Splitting the node number of a cell gives the cell back.
pub proof fn lemma_cell_of_n1d(x: u32, y: u32)
    ensures
        cell_of(n1d_of(x, y)) == (x, y),
{
    let xx = x as u64;
    let yy = y as u64;
    assert(gather_bits(((spread_bits(xx) << 1u64) | spread_bits(yy)) >> 1u64) as u32 == x
        && gather_bits((spread_bits(xx) << 1u64) | spread_bits(yy)) as u32 == y) by (bit_vector)
        requires
            xx == x as u64,
            yy == y as u64,
    ;
}

/// Interleaving the cell of a node number gives the node number back: every
/// 64-bit node number is the number of exactly one cell.
pub proof fn lemma_n1d_of_cell(n: u64)
    ensures
        n1d_of(cell_of(n).0, cell_of(n).1) == n,
{
    let a = gather_bits(n >> 1u64);
    let b = gather_bits(n);
    assert((spread_bits((a as u32) as u64) << 1u64) | spread_bits((b as u32) as u64) == n) by (bit_vector)
        requires
            a == gather_bits(n >> 1u64),
            b == gather_bits(n),
    ;
}

/// Whether an area takes part in the processing; every area does.
pub fn is_area(ar: &str) -> (r: bool)
    ensures
        r,
{
    true
}

// ---------------------------------------------------------------------------
// Text node identifiers: the two grid coordinates, each as big-endian bytes in
// standard base64 cut to its six significant symbols, joined by `-`.

/// Name for what `BASE64_STANDARD.encode` returns for the given bytes.
pub uninterp spec fn base64_standard_encoding(bytes: Seq<u8>) -> Seq<char>;

/// Name for what `BASE64_STANDARD.decode` returns for the given text; `None`
/// stands for its error.
pub uninterp spec fn base64_standard_decoding(text: Seq<char>) -> Option<Seq<u8>>;

/// Calls `base64::Engine::encode` on the engine `BASE64_STANDARD` (standard
/// alphabet, padded). Claimed of it: the text is the named encoding of the
/// bytes, made of ASCII symbols only; four bytes give eight symbols whose last
/// two are the pad `=` (one full three-byte group, then one byte as two
/// symbols and two pads). The length bound keeps the crate's length
/// computation, which panics on overflow, far from overflowing.
#[verifier::external_body]
fn b64_encode(bytes: &[u8]) -> (r: String)
    requires
        bytes@.len() <= 0x1000_0000,
    ensures
        r@ == base64_standard_encoding(bytes@),
        is_ascii_chars(r@),
        bytes@.len() == 4 ==> r@.len() == 8 && r@[6] == '=' && r@[7] == '=',
{
    BASE64_STANDARD.encode(bytes)
}

/// Calls `base64::Engine::decode` on the engine `BASE64_STANDARD`. Claimed of
/// it: the result is the named decoding of the text (`None` for the crate's
/// error), and a text that the engine's encoding gave for some bytes decodes
/// back to exactly those bytes.
#[verifier::external_body]
fn b64_decode(text: &str) -> (r: Option<Vec<u8>>)
    ensures
        (r is Some) == (base64_standard_decoding(text@) is Some),
        r is Some ==> base64_standard_decoding(text@) == Some(r->0@),
        forall|b: Seq<u8>|
            b.len() <= 0x1000_0000 && #[trigger] base64_standard_encoding(b) == text@ ==> r is Some && r->0@ == b,
{
    BASE64_STANDARD.decode(text).ok()
}

/// Big-endian bytes of a 32-bit value.
pub open spec fn be_bytes(v: u32) -> Seq<u8> {
    seq![(v / 0x100_0000) as u8, ((v / 0x1_0000) % 0x100) as u8, ((v / 0x100) % 0x100) as u8, (v % 0x100) as u8]
}

/// The 32-bit value of the first four bytes, big-endian.
pub open spec fn be_value(b: Seq<u8>) -> u32 {
    (b[0] * 0x100_0000 + b[1] * 0x1_0000 + b[2] * 0x100 + b[3]) as u32
}

/// The text identifier of grid cell `(x, y)`.
pub open spec fn nid_text(x: u32, y: u32) -> Seq<char> {
    base64_standard_encoding(be_bytes(x)).take(6) + seq!['-'] + base64_standard_encoding(be_bytes(y)).take(6)
}

/// The encodings behind `nid_text(x, y)` have the padded eight-symbol ASCII
/// form that the identifier cuts.
pub open spec fn nid_text_ok(x: u32, y: u32) -> bool {
    &&& padded_quad(base64_standard_encoding(be_bytes(x)))
    &&& padded_quad(base64_standard_encoding(be_bytes(y)))
}

/// Eight ASCII symbols ending in two pads.
pub open spec fn padded_quad(t: Seq<char>) -> bool {
    &&& is_ascii_chars(t)
    &&& t.len() == 8
    &&& t[6] == '='
    &&& t[7] == '='
}

/// The grid cell named by a text identifier: the six symbols before position
/// 6 and the symbols after it, each completed with two pads and decoded, must
/// give at least four bytes each; anything else names no cell.
pub open spec fn nid_cell_of(id: Seq<char>) -> Option<(u32, u32)> {
    if !is_ascii_chars(id) || id.len() < 7 {
        None
    } else {
        let dx = base64_standard_decoding(id.subrange(0, 6) + seq!['=', '=']);
        let dy = base64_standard_decoding(id.subrange(7, id.len() as int) + seq!['=', '=']);
        match (dx, dy) {
            (Some(bx), Some(by)) => if bx.len() >= 4 && by.len() >= 4 {
                Some((be_value(bx), be_value(by)))
            } else {
                None
            },
            _ => None,
        }
    }
}

proof fn lemma_be_roundtrip(v: u32)
    ensures
        be_value(be_bytes(v)) == v,
        be_bytes(v).len() == 4,
{
    let b = be_bytes(v);
    assert(b[0] == v / 0x100_0000);
    assert(b[1] == (v / 0x1_0000) % 0x100);
    assert(b[2] == (v / 0x100) % 0x100);
    assert(b[3] == v % 0x100);
    assert((v / 0x100_0000) * 0x100_0000 + ((v / 0x1_0000) % 0x100) * 0x1_0000 + ((v / 0x100) % 0x100)
        * 0x100 + v % 0x100 == v) by (nonlinear_arith);
}

/// The big-endian bytes of a 32-bit value.
fn be_bytes_vec(v: u32) -> (r: Vec<u8>)
    ensures
        r@ == be_bytes(v),
{
    let b0 = (v / 0x100_0000) as u8;
    let b1 = ((v / 0x1_0000) % 0x100) as u8;
    let b2 = ((v / 0x100) % 0x100) as u8;
    let b3 = (v % 0x100) as u8;
    let r = vec![b0, b1, b2, b3];
    assert(r@ =~= be_bytes(v));
    r
}

/// The 32-bit value of the first four bytes, big-endian.
fn be_value_of(b: &Vec<u8>) -> (r: u32)
    requires
        b@.len() >= 4,
    ensures
        r == be_value(b@),
{
    let v: u64 = (b[0] as u64) * 0x100_0000 + (b[1] as u64) * 0x1_0000 + (b[2] as u64) * 0x100 + (b[3] as u64);
    v as u32
}

/// The text identifier of grid cell `(x, y)`: each coordinate as big-endian
/// bytes in standard base64, cut to its first six symbols, joined by `-`.
pub fn nid_of(x: u32, y: u32) -> (r: String)
    ensures
        r@ == nid_text(x, y),
        nid_text_ok(x, y),
{
    let xb = be_bytes_vec(x);
    let yb = be_bytes_vec(y);
    let xs = b64_encode(xb.as_slice());
    let ys = b64_encode(yb.as_slice());
    let x6 = xs.as_str().substring_ascii(0, 6);
    let y6 = ys.as_str().substring_ascii(0, 6);
    let mut r = x6.to_owned();
    r.append("-");
    r.append(y6);
    proof {
        reveal_strlit("-");
        assert(r@ =~= nid_text(x, y));
    }
    r
}

/// The grid cell named by a text identifier; `None` where the identifier is
/// not one (too short, not ASCII, or a part that base64 does not decode to at
/// least four bytes). The text that `nid_of` gives for a cell names that cell.
pub fn nid_cell(id: &str) -> (r: Option<(u32, u32)>)
    ensures
        r == nid_cell_of(id@),
        forall|x: u32, y: u32| #[trigger] nid_text(x, y) == id@ && nid_text_ok(x, y) ==> r == Some((x, y)),
{
    if !id.is_ascii() {
        return None;
    }
    let n = id.unicode_len();
    if n < 7 {
        return None;
    }
    let mut xt = id.substring_ascii(0, 6).to_owned();
    xt.append("==");
    let mut yt = id.substring_ascii(7, n).to_owned();
    yt.append("==");
    proof {
        reveal_strlit("==");
        assert(xt@ =~= id@.subrange(0, 6) + seq!['=', '=']);
        assert(yt@ =~= id@.subrange(7, id@.len() as int) + seq!['=', '=']);
        assert forall|x: u32, y: u32| #[trigger] nid_text(x, y) == id@ && nid_text_ok(x, y) implies
            base64_standard_encoding(be_bytes(x)) == xt@ && base64_standard_encoding(be_bytes(y)) == yt@ by {
            let ex = base64_standard_encoding(be_bytes(x));
            let ey = base64_standard_encoding(be_bytes(y));
            assert(id@.subrange(0, 6) =~= ex.take(6));
            assert(id@.subrange(7, id@.len() as int) =~= ey.take(6));
            assert(ex =~= xt@);
            assert(ey =~= yt@);
        }
    }
    let dx = b64_decode(xt.as_str());
    let dy = b64_decode(yt.as_str());
    proof {
        assert forall|x: u32, y: u32| #[trigger] nid_text(x, y) == id@ && nid_text_ok(x, y) implies
            dx is Some && dx->0@ == be_bytes(x) && dy is Some && dy->0@ == be_bytes(y) by {
            lemma_be_roundtrip(x);
            lemma_be_roundtrip(y);
        }
    }
    match (dx, dy) {
        (Some(bx), Some(by)) => {
            if bx.len() >= 4 && by.len() >= 4 {
                let r = Some((be_value_of(&bx), be_value_of(&by)));
                proof {
                    assert forall|x: u32, y: u32| #[trigger] nid_text(x, y) == id@ && nid_text_ok(x, y)
                        implies r == Some((x, y)) by {
                        lemma_be_roundtrip(x);
                        lemma_be_roundtrip(y);
                    }
                }
                r
            } else {
                proof {
                    assert forall|x: u32, y: u32| #[trigger] nid_text(x, y) == id@ && nid_text_ok(x, y)
                        implies false by {
                        lemma_be_roundtrip(x);
                        lemma_be_roundtrip(y);
                    }
                }
                None
            }
        },
        _ => {
            proof {
                assert forall|x: u32, y: u32| #[trigger] nid_text(x, y) == id@ && nid_text_ok(x, y)
                    implies false by {
                    lemma_be_roundtrip(x);
                    lemma_be_roundtrip(y);
                }
            }
            None
        },
    }
}

// ---------------------------------------------------------------------------
// Network nodes.

/// The role of a piece of equipment at a network node.
#[derive(Debug, Clone, Copy, PartialEq, Eq, Structural, Default)]
pub enum NodeType {
    #[default]
    Meter,
    Source,
    Customer,
    Load,
    Bridge,
    LineEnd(u64),
}

/// A piece of equipment at a network node: its area, GIS layer, record
/// position in that layer, node, role, and line positions.
#[derive(Debug, Clone, Default)]
pub struct GridNode {
    pub ar: String,
    pub ly: String,
    pub ix: usize,
    pub n1d: u64,
    pub ntp: NodeType,
    pub lix: usize,
    pub pix: usize,
}

/// A network node with the equipment found there.
#[derive(Debug, Clone, Default)]
pub struct NodeInfo {
    pub n1d: u64,
    pub nodes: Vec<GridNode>,
    pub dis: bool,
    pub fg1: bool,
    pub fg2: bool,
}

/// A piece of equipment as area, layer, record, node, role, line, point.
pub type GridNodeView = (Seq<char>, Seq<char>, usize, u64, NodeType, usize, usize);

/// The view of a piece of equipment.
pub open spec fn grid_node_view(g: GridNode) -> GridNodeView {
    (g.ar@, g.ly@, g.ix, g.n1d, g.ntp, g.lix, g.pix)
}

/// A network node as node number, equipment, and the three flags.
pub type NodeView = (u64, Seq<GridNodeView>, bool, bool, bool);

/// The view of a network node.
pub open spec fn node_view(n: NodeInfo) -> NodeView {
    (n.n1d, n.nodes@.map_values(|g: GridNode| grid_node_view(g)), n.dis, n.fg1, n.fg2)
}

/// The views of a list of network nodes.
pub open spec fn node_views(v: Seq<NodeInfo>) -> Seq<NodeView> {
    v.map_values(|n: NodeInfo| node_view(n))
}

/// No two nodes carry the same node number.
pub open spec fn distinct_nodes(ns: Seq<NodeView>) -> bool {
    forall|i: int, j: int| 0 <= i < ns.len() && 0 <= j < ns.len() && i != j ==> ns[i].0 != ns[j].0
}

/// Some node carries node number `n`.
pub open spec fn has_node(ns: Seq<NodeView>, n: u64) -> bool {
    exists|p: int| 0 <= p < ns.len() && ns[p].0 == n
}

/// The position of the node with number `n` (meaningful when there is one).
pub open spec fn node_at(ns: Seq<NodeView>, n: u64) -> int {
    choose|p: int| 0 <= p < ns.len() && ns[p].0 == n
}

/// The nodes after adding equipment `g` at its node: appended to that node's
/// equipment, or a new node at the end.
pub open spec fn add_end(ns: Seq<NodeView>, g: GridNodeView) -> Seq<NodeView> {
    if has_node(ns, g.3) {
        let p = node_at(ns, g.3);
        ns.update(p, (ns[p].0, ns[p].1.push(g), ns[p].2, ns[p].3, ns[p].4))
    } else {
        ns.push((g.3, seq![g], false, false, false))
    }
}

/// A line of a line layer: its layer, its record, the node of its first
/// point and the node of its last point.
pub type LineRec = (String, usize, u64, u64);

/// The nodes after line `l` (line number `lix`) of area `ar`: its head at
/// the first node, pointing at the last, then its tail at the last node,
/// pointing at the first.
pub open spec fn line_step(ns: Seq<NodeView>, ar: Seq<char>, l: LineRec, lix: usize) -> Seq<NodeView> {
    let head = (ar, l.0@, l.1, l.2, NodeType::LineEnd(l.3), lix, 0usize);
    let tail = (ar, l.0@, l.1, l.3, NodeType::LineEnd(l.2), lix, 0usize);
    add_end(add_end(ns, head), tail)
}

/// The nodes of the first `k` lines.
pub open spec fn nodes_of_lines(ar: Seq<char>, lines: Seq<LineRec>, k: int) -> Seq<NodeView>
    decreases k,
{
    if k <= 0 {
        Seq::empty()
    } else {
        line_step(nodes_of_lines(ar, lines, k - 1), ar, lines[k - 1], (k - 1) as usize)
    }
}

/// Every piece of every node carries that node's number.
pub open spec fn ends_at_own_node(ns: Seq<NodeView>) -> bool {
    forall|q: int, t: int| 0 <= q < ns.len() && 0 <= t < ns[q].1.len() ==> (#[trigger] ns[q].1[t]).3 == ns[q].0
}

proof fn lemma_add_end(ns: Seq<NodeView>, g: GridNodeView)
    requires
        ends_at_own_node(ns),
    ensures
        ends_at_own_node(add_end(ns, g)),
        forall|x: u64| has_node(add_end(ns, g), x) <==> (has_node(ns, x) || x == g.3),
{
    let r = add_end(ns, g);
    if has_node(ns, g.3) {
        let p = node_at(ns, g.3);
        assert forall|q: int, t: int| 0 <= q < r.len() && 0 <= t < r[q].1.len() implies (#[trigger] r[q].1[t]).3 == r[q].0 by {
            if q == p {
                if t < ns[p].1.len() {
                    assert(r[q].1[t] == ns[p].1[t]);
                }
            } else {
                assert(r[q] == ns[q]);
            }
        }
        assert forall|x: u64| has_node(r, x) <==> (has_node(ns, x) || x == g.3) by {
            if has_node(r, x) {
                let q = choose|q: int| 0 <= q < r.len() && r[q].0 == x;
                assert(ns[q].0 == x);
            }
            if has_node(ns, x) {
                let q = choose|q: int| 0 <= q < ns.len() && ns[q].0 == x;
                assert(r[q].0 == x);
            }
        }
    } else {
        assert forall|q: int, t: int| 0 <= q < r.len() && 0 <= t < r[q].1.len() implies (#[trigger] r[q].1[t]).3 == r[q].0 by {
            if q < ns.len() {
                assert(r[q] == ns[q]);
            }
        }
        assert forall|x: u64| has_node(r, x) <==> (has_node(ns, x) || x == g.3) by {
            if has_node(r, x) {
                let q = choose|q: int| 0 <= q < r.len() && r[q].0 == x;
                if q < ns.len() {
                    assert(ns[q].0 == x);
                }
            }
            if has_node(ns, x) {
                let q = choose|q: int| 0 <= q < ns.len() && ns[q].0 == x;
                assert(r[q].0 == x);
            }
            if x == g.3 {
                assert(r[ns.len() as int].0 == x);
            }
        }
    }
}

/// The nodes of the lines are exactly the line ends: a number is a node
/// when some line starts or ends there, and every end sits at the node of its
/// own number.
pub proof fn lemma_line_ends(ar: Seq<char>, lines: Seq<LineRec>, k: int)
    requires
        0 <= k <= lines.len(),
    ensures
        ends_at_own_node(nodes_of_lines(ar, lines, k)),
        forall|x: u64| has_node(nodes_of_lines(ar, lines, k), x) <==> exists|l: int| 0 <= l < k && (lines[l].2 == x || lines[l].3 == x),
    decreases k,
{
    if k > 0 {
        lemma_line_ends(ar, lines, k - 1);
        let prev = nodes_of_lines(ar, lines, k - 1);
        let l = lines[k - 1];
        let lix = (k - 1) as usize;
        let head = (ar, l.0@, l.1, l.2, NodeType::LineEnd(l.3), lix, 0usize);
        let tail = (ar, l.0@, l.1, l.3, NodeType::LineEnd(l.2), lix, 0usize);
        lemma_add_end(prev, head);
        lemma_add_end(add_end(prev, head), tail);
        let r = nodes_of_lines(ar, lines, k);
        assert(r == add_end(add_end(prev, head), tail));
        assert forall|x: u64| has_node(r, x) <==> exists|j: int| 0 <= j < k && (lines[j].2 == x || lines[j].3 == x) by {
            if has_node(r, x) {
                if has_node(prev, x) {
                    let j = choose|j: int| 0 <= j < k - 1 && (lines[j].2 == x || lines[j].3 == x);
                    assert(0 <= j < k && (lines[j].2 == x || lines[j].3 == x));
                } else {
                    assert(lines[k - 1].2 == x || lines[k - 1].3 == x);
                }
            }
            if exists|j: int| 0 <= j < k && (lines[j].2 == x || lines[j].3 == x) {
                let j = choose|j: int| 0 <= j < k && (lines[j].2 == x || lines[j].3 == x);
                if j < k - 1 {
                    assert(has_node(prev, x));
                }
            }
        }
    }
}

/// Node `p` is the lone end of a line whose other end is also alone at its
/// node: the position of that other node.
pub open spec fn dangling(ns: Seq<NodeView>, p: int) -> Option<int> {
    if ns[p].1.len() == 1 {
        match ns[p].1[0].4 {
            NodeType::LineEnd(ed) => if has_node(ns, ed) && ns[node_at(ns, ed)].1.len() == 1 {
                Some(node_at(ns, ed))
            } else {
                None
            },
            _ => None,
        }
    } else {
        None
    }
}

/// Line `l` is a dangling line: one of its ends is a dangling node.
pub open spec fn line_dangles(ns: Seq<NodeView>, l: usize) -> bool {
    exists|p: int| 0 <= p < ns.len() && dangling(ns, p) is Some && ns[p].1[0].5 == l
}

/// Node `q` is an end of a dangling line.
pub open spec fn node_dangles(ns: Seq<NodeView>, q: int) -> bool {
    dangling(ns, q) is Some || exists|p: int| 0 <= p < ns.len() && dangling(ns, p) == Some(q)
}

/// A node with its equipment and flags; the `dis` flag replaced.
pub open spec fn with_dis(n: NodeView, d: bool) -> NodeView {
    (n.0, n.1, d, n.3, n.4)
}

proof fn lemma_node_at_unique(ns: Seq<NodeView>, n: u64, p: int)
    requires
        distinct_nodes(ns),
        0 <= p < ns.len(),
        ns[p].0 == n,
    ensures
        has_node(ns, n),
        node_at(ns, n) == p,
{
    assert(has_node(ns, n));
}

/// Adds equipment `g` at its node, keeping the index from node number to
/// node position.
fn add_end_exec(nodes: &mut Vec<NodeInfo>, idx: &mut HashMap<u64, usize>, g: GridNode)
    requires
        distinct_nodes(node_views(old(nodes)@)),
        forall|n: u64| #[trigger] old(idx)@.contains_key(n) <==> has_node(node_views(old(nodes)@), n),
        forall|n: u64| #[trigger] old(idx)@.contains_key(n) ==> old(idx)@[n] < old(nodes)@.len() && old(nodes)@[old(idx)@[n] as int].n1d == n,
        old(nodes)@.len() < usize::MAX,
    ensures
        node_views(final(nodes)@) == add_end(node_views(old(nodes)@), grid_node_view(g)),
        distinct_nodes(node_views(final(nodes)@)),
        forall|n: u64| #[trigger] final(idx)@.contains_key(n) <==> has_node(node_views(final(nodes)@), n),
        forall|n: u64| #[trigger] final(idx)@.contains_key(n) ==> final(idx)@[n] < final(nodes)@.len() && final(nodes)@[final(idx)@[n] as int].n1d == n,
        final(nodes)@.len() <= old(nodes)@.len() + 1,
{
    let ghost ns = node_views(nodes@);
    let ghost gv = grid_node_view(g);
    let n = g.n1d;
    match idx.get(&n) {
        Some(p) => {
            let p = *p;
            proof {
                assert(ns[p as int].0 == n);
                lemma_node_at_unique(ns, n, p as int);
            }
            let mut nd = nodes.remove(p);
            nd.nodes.push(g);
            nodes.insert(p, nd);
            proof {
                assert(node_views(nodes@) =~= ns.update(p as int, (ns[p as int].0, ns[p as int].1.push(gv), ns[p as int].2, ns[p as int].3, ns[p as int].4))) by {
                    assert(node_view(nd).1 =~= ns[p as int].1.push(gv));
                }
                assert forall|a: int, b: int| 0 <= a < node_views(nodes@).len() && 0 <= b < node_views(nodes@).len() && a != b
                    implies node_views(nodes@)[a].0 != node_views(nodes@)[b].0 by {
                    assert(ns[a].0 != ns[b].0);
                }
                assert forall|m: u64| #[trigger] idx@.contains_key(m) <==> has_node(node_views(nodes@), m) by {
                    if has_node(node_views(nodes@), m) {
                        let q = choose|q: int| 0 <= q < node_views(nodes@).len() && node_views(nodes@)[q].0 == m;
                        assert(ns[q].0 == m);
                    }
                    if idx@.contains_key(m) {
                        assert(has_node(ns, m));
                        let q = choose|q: int| 0 <= q < ns.len() && ns[q].0 == m;
                        assert(node_views(nodes@)[q].0 == m);
                    }
                }
            }
        },
        None => {
            let mut v: Vec<GridNode> = Vec::new();
            v.push(g);
            let nd = NodeInfo { n1d: n, nodes: v, dis: false, fg1: false, fg2: false };
            let len = nodes.len();
            nodes.push(nd);
            idx.insert(n, len);
            proof {
                assert(!has_node(ns, n));
                assert(node_views(nodes@) =~= ns.push((n, seq![gv], false, false, false))) by {
                    assert(node_view(nd).1 =~= seq![gv]);
                }
                assert forall|a: int, b: int| 0 <= a < node_views(nodes@).len() && 0 <= b < node_views(nodes@).len() && a != b
                    implies node_views(nodes@)[a].0 != node_views(nodes@)[b].0 by {
                    if a < ns.len() && b < ns.len() {
                        assert(ns[a].0 != ns[b].0);
                    } else if a < ns.len() {
                        assert(ns[a].0 != n);
                    } else {
                        assert(ns[b].0 != n);
                    }
                }
                assert forall|m: u64| #[trigger] idx@.contains_key(m) <==> has_node(node_views(nodes@), m) by {
                    if has_node(node_views(nodes@), m) && m != n {
                        let q = choose|q: int| 0 <= q < node_views(nodes@).len() && node_views(nodes@)[q].0 == m;
                        assert(q < ns.len());
                        assert(ns[q].0 == m);
                    }
                    if m == n {
                        assert(node_views(nodes@)[len as int].0 == m);
                    } else if idx@.contains_key(m) {
                        assert(has_node(ns, m));
                        let q = choose|q: int| 0 <= q < ns.len() && ns[q].0 == m;
                        assert(node_views(nodes@)[q].0 == m);
                    }
                }
            }
        },
    }
}

/// The network nodes of an area's lines (line `l` of `lines` being line
/// number `l`), in order of first appearance, and which lines dangle: a line
/// dangles when one of its ends is alone at its node and the node of its
/// other end holds nothing else either. The nodes at both ends of a dangling
/// line are marked.
pub fn line_nodes(ar: &str, lines: &Vec<LineRec>) -> (r: (Vec<NodeInfo>, Vec<bool>))
    requires
        lines@.len() < usize::MAX / 4,
    ensures
        ({
            let ns = nodes_of_lines(ar@, lines@, lines@.len() as int);
            &&& node_views(r.0@).len() == ns.len()
            &&& forall|q: int| 0 <= q < ns.len() ==> #[trigger] node_views(r.0@)[q] == with_dis(ns[q], node_dangles(ns, q))
            &&& r.1@.len() == lines@.len()
            &&& forall|l: int| 0 <= l < lines@.len() ==> #[trigger] r.1@[l] == line_dangles(ns, l as usize)
        }),
        distinct_nodes(node_views(r.0@)),
{
    let mut nodes: Vec<NodeInfo> = Vec::new();
    let mut idx: HashMap<u64, usize> = HashMap::new();
    let mut k: usize = 0;
    assert(node_views(nodes@) =~= Seq::<NodeView>::empty());
    while k < lines.len()
        invariant
            k <= lines@.len(),
            lines@.len() < usize::MAX / 4,
            nodes@.len() <= 2 * k,
            node_views(nodes@) == nodes_of_lines(ar@, lines@, k as int),
            distinct_nodes(node_views(nodes@)),
            forall|n: u64| #[trigger] idx@.contains_key(n) <==> has_node(node_views(nodes@), n),
            forall|n: u64| #[trigger] idx@.contains_key(n) ==> idx@[n] < nodes@.len() && nodes@[idx@[n] as int].n1d == n,
        decreases lines@.len() - k,
    {
        let l = &lines[k];
        let head = GridNode { ar: ar.to_owned(), ly: l.0.clone(), ix: l.1, n1d: l.2, ntp: NodeType::LineEnd(l.3), lix: k, pix: 0 };
        let tail = GridNode { ar: ar.to_owned(), ly: l.0.clone(), ix: l.1, n1d: l.3, ntp: NodeType::LineEnd(l.2), lix: k, pix: 0 };
        add_end_exec(&mut nodes, &mut idx, head);
        add_end_exec(&mut nodes, &mut idx, tail);
        k = k + 1;
    }
    let ghost ns = node_views(nodes@);
    let mut line_dis: Vec<bool> = Vec::new();
    let mut j: usize = 0;
    while j < lines.len()
        invariant
            j <= lines@.len(),
            line_dis@.len() == j,
            forall|l: int| 0 <= l < j ==> !#[trigger] line_dis@[l],
        decreases lines@.len() - j,
    {
        line_dis.push(false);
        j = j + 1;
    }
    let mut marks: Vec<bool> = Vec::new();
    let mut q: usize = 0;
    while q < nodes.len()
        invariant
            q <= nodes@.len(),
            marks@.len() == q,
            forall|i: int| 0 <= i < q ==> !#[trigger] marks@[i],
        decreases nodes@.len() - q,
    {
        marks.push(false);
        q = q + 1;
    }
    let mut p: usize = 0;
    while p < nodes.len()
        invariant
            ns == node_views(nodes@),
            ns == nodes_of_lines(ar@, lines@, lines@.len() as int),
            distinct_nodes(ns),
            forall|n: u64| #[trigger] idx@.contains_key(n) <==> has_node(ns, n),
            forall|n: u64| #[trigger] idx@.contains_key(n) ==> idx@[n] < nodes@.len() && nodes@[idx@[n] as int].n1d == n,
            p <= nodes@.len(),
            marks@.len() == nodes@.len(),
            line_dis@.len() == lines@.len(),
            forall|l: int| 0 <= l < lines@.len() ==> #[trigger] line_dis@[l] == exists|a: int| 0 <= a < p && dangling(ns, a) is Some && ns[a].1[0].5 == l,
            forall|i: int| 0 <= i < nodes@.len() ==> #[trigger] marks@[i] == exists|a: int| 0 <= a < p && dangling(ns, a) is Some && (a == i || dangling(ns, a) == Some(i)),
        decreases nodes@.len() - p,
    {
        let ghost before_l = line_dis@;
        let ghost before_m = marks@;
        let nd = &nodes[p];
        let mut hit: Option<(usize, usize)> = None;
        if nd.nodes.len() == 1 {
            match nd.nodes[0].ntp {
                NodeType::LineEnd(ed) => {
                    match idx.get(&ed) {
                        Some(qq) => {
                            let qq = *qq;
                            if nodes[qq].nodes.len() == 1 {
                                hit = Some((qq, nd.nodes[0].lix));
                            }
                        },
                        None => {},
                    }
                },
                _ => {},
            }
        }
        proof {
            if ns[p as int].1.len() == 1 {
                match ns[p as int].1[0].4 {
                    NodeType::LineEnd(ed) => {
                        if idx@.contains_key(ed) {
                            lemma_node_at_unique(ns, ed, idx@[ed] as int);
                        }
                    },
                    _ => {},
                }
            }
            assert(match hit {
                Some((qq, l)) => dangling(ns, p as int) == Some(qq as int) && ns[p as int].1[0].5 == l,
                None => dangling(ns, p as int) is None,
            });
        }
        match hit {
            Some((qq, l)) => {
                if l < line_dis.len() {
                    line_dis.set(l, true);
                }
                marks.set(p, true);
                marks.set(qq, true);
            },
            None => {},
        }
        proof {
            assert forall|l: int| 0 <= l < lines@.len() implies #[trigger] line_dis@[l] == exists|a: int| 0 <= a < p + 1 && dangling(ns, a) is Some && ns[a].1[0].5 == l by {
                if exists|a: int| 0 <= a < p + 1 && dangling(ns, a) is Some && ns[a].1[0].5 == l {
                    let a = choose|a: int| 0 <= a < p + 1 && dangling(ns, a) is Some && ns[a].1[0].5 == l;
                    if a < p {
                        assert(before_l[l]);
                    }
                }
                if before_l[l] {
                    let a = choose|a: int| 0 <= a < p && dangling(ns, a) is Some && ns[a].1[0].5 == l;
                    assert(0 <= a < p + 1);
                }
            }
            assert forall|i: int| 0 <= i < nodes@.len() implies #[trigger] marks@[i] == exists|a: int| 0 <= a < p + 1 && dangling(ns, a) is Some && (a == i || dangling(ns, a) == Some(i)) by {
                if exists|a: int| 0 <= a < p + 1 && dangling(ns, a) is Some && (a == i || dangling(ns, a) == Some(i)) {
                    let a = choose|a: int| 0 <= a < p + 1 && dangling(ns, a) is Some && (a == i || dangling(ns, a) == Some(i));
                    if a < p {
                        assert(before_m[i]);
                    }
                }
                if before_m[i] {
                    let a = choose|a: int| 0 <= a < p && dangling(ns, a) is Some && (a == i || dangling(ns, a) == Some(i));
                    assert(0 <= a < p + 1);
                }
            }
        }
        p = p + 1;
    }
    let mut i: usize = 0;
    while i < nodes.len()
        invariant
            i <= nodes@.len(),
            node_views(nodes@).len() == ns.len(),
            marks@.len() == ns.len(),
            forall|t: int| 0 <= t < i ==> #[trigger] node_views(nodes@)[t] == with_dis(ns[t], marks@[t]),
            forall|t: int| i <= t < ns.len() ==> #[trigger] node_views(nodes@)[t] == ns[t],
        decreases ns.len() - i,
    {
        let ghost before = node_views(nodes@);
        let ghost old_nd = nodes@[i as int];
        let mut nd = nodes.remove(i);
        nd.dis = marks[i];
        nodes.insert(i, nd);
        proof {
            assert(before[i as int] == node_view(old_nd));
            assert(node_views(nodes@)[i as int] == node_view(nd));
            assert(node_view(nd) == with_dis(node_view(old_nd), marks@[i as int]));
            assert forall|t: int| 0 <= t < i + 1 implies #[trigger] node_views(nodes@)[t] == with_dis(ns[t], marks@[t]) by {
                if t < i {
                    assert(node_views(nodes@)[t] == before[t]);
                }
            }
            assert forall|t: int| i + 1 <= t < ns.len() implies #[trigger] node_views(nodes@)[t] == ns[t] by {
                assert(node_views(nodes@)[t] == before[t]);
            }
        }
        i = i + 1;
    }
    proof {
        assert forall|q: int| 0 <= q < ns.len() implies #[trigger] node_views(nodes@)[q] == with_dis(ns[q], node_dangles(ns, q)) by {
            assert(marks@[q] == node_dangles(ns, q));
        }
        assert forall|a: int, b: int| 0 <= a < node_views(nodes@).len() && 0 <= b < node_views(nodes@).len() && a != b
            implies node_views(nodes@)[a].0 != node_views(nodes@)[b].0 by {
            assert(node_views(nodes@)[a] == with_dis(ns[a], node_dangles(ns, a)));
            assert(node_views(nodes@)[b] == with_dis(ns[b], node_dangles(ns, b)));
        }
    }
    (nodes, line_dis)
}

// ---------------------------------------------------------------------------
// Transformers attached to the network nodes.

/// On a sorted list the snapped entry is determined by the list and the
/// number.
pub proof fn lemma_snapped_unique(s: Seq<u64>, n: u64, r1: u64, r2: u64)
    requires
        is_sorted(s),
        snapped(s, n, r1),
        snapped(s, n, r2),
    ensures
        r1 == r2,
{
    if s.len() >= 3 {
        lemma_nearest_unique(s, n, r1, r2);
    } else if s.len() == 1 {
        let k1 = choose|k: int| 0 <= k < s.len() && s[k] == r1;
        let k2 = choose|k: int| 0 <= k < s.len() && s[k] == r2;
    } else {
        assert(s[0] <= s[1]);
    }
}

/// The entry that snapping `n` onto the sorted list `s` gives.
pub open spec fn snap(s: Seq<u64>, n: u64) -> u64 {
    choose|r: u64| snapped(s, n, r)
}

/// The order of node numbers.
pub open spec fn u64_le() -> spec_fn(u64, u64) -> bool {
    |a: u64, b: u64| a <= b
}

/// The node numbers of `keys` in increasing order.
pub open spec fn sorted_keys(keys: Seq<u64>) -> Seq<u64> {
    keys.sort_by(u64_le())
}

proof fn lemma_u64_le_total()
    ensures
        vstd::relations::total_ordering(u64_le()),
{
    let le = u64_le();
    assert(vstd::relations::reflexive(le)) by {
        assert forall|x: u64| #[trigger] le(x, x) by {}
    }
    assert(vstd::relations::antisymmetric(le)) by {
        assert forall|x: u64, y: u64| #[trigger] le(x, y) && #[trigger] le(y, x) implies x == y by {}
    }
    assert(vstd::relations::transitive(le)) by {
        assert forall|x: u64, y: u64, z: u64| #[trigger] le(x, y) && #[trigger] le(y, z) implies le(x, z) by {}
    }
    assert(vstd::relations::strongly_connected(le)) by {
        assert forall|x: u64, y: u64| #[trigger] le(x, y) || #[trigger] le(y, x) by {}
    }
}

/// The node numbers of `keys` in increasing order, with their length.
pub proof fn lemma_sorted_keys(keys: Seq<u64>)
    ensures
        is_sorted(sorted_keys(keys)),
        sorted_keys(keys).len() == keys.len(),
        sorted_keys(keys).to_multiset() == keys.to_multiset(),
{
    broadcast use vstd::seq_lib::group_to_multiset_ensures;
    lemma_u64_le_total();
    keys.lemma_sort_by_ensures(u64_le());
    let s = sorted_keys(keys);
    assert forall|i: int, j: int| 0 <= i <= j < s.len() implies s[i] <= s[j] by {
        if i < j {
            assert(u64_le()(s[i], s[j]));
        }
    }
    assert(s.to_multiset().len() == keys.to_multiset().len());
}

/// Sorts node numbers into increasing order.
pub fn sort_keys(v: &Vec<u64>) -> (r: Vec<u64>)
    ensures
        r@ == sorted_keys(v@),
{
    broadcast use vstd::seq_lib::group_to_multiset_ensures;
    let mut r: Vec<u64> = Vec::new();
    let mut i: usize = 0;
    assert(v@.subrange(0, 0) =~= Seq::<u64>::empty());
    while i < v.len()
        invariant
            i <= v@.len(),
            is_sorted(r@),
            r@.to_multiset() == v@.subrange(0, i as int).to_multiset(),
        decreases v@.len() - i,
    {
        let x = v[i];
        let mut j: usize = 0;
        while j < r.len() && r[j] <= x
            invariant
                j <= r@.len(),
                forall|k: int| 0 <= k < j ==> r@[k] <= x,
            decreases r@.len() - j,
        {
            j = j + 1;
        }
        let ghost before = r@;
        r.insert(j, x);
        proof {
            assert(r@ == before.insert(j as int, x));
            assert forall|a: int, b: int| 0 <= a <= b < r@.len() implies r@[a] <= r@[b] by {
                if b < j {
                    assert(r@[a] == before[a] && r@[b] == before[b]);
                } else if b == j {
                    if a < j {
                        assert(r@[a] == before[a]);
                    }
                } else if a < j {
                    assert(r@[a] == before[a] && r@[b] == before[b - 1]);
                } else if a == j {
                    assert(r@[b] == before[b - 1]);
                    assert(before[j as int] > x);
                } else {
                    assert(r@[a] == before[a - 1] && r@[b] == before[b - 1]);
                }
            }
            assert(v@.subrange(0, i + 1) =~= v@.subrange(0, i as int).push(x));
            vstd::seq_lib::to_multiset_insert(before, j as int, x);
            vstd::seq_lib::to_multiset_build(v@.subrange(0, i as int), x);
        }
        i = i + 1;
    }
    proof {
        assert(v@.subrange(0, i as int) =~= v@);
        lemma_u64_le_total();
        v@.lemma_sort_by_ensures(u64_le());
        assert(vstd::relations::sorted_by(r@, u64_le())) by {
            assert forall|a: int, b: int| 0 <= a < b < r@.len() implies #[trigger] u64_le()(r@[a], r@[b]) by {
                assert(r@[a] <= r@[b]);
            }
        }
        vstd::seq_lib::lemma_sorted_unique(r@, sorted_keys(v@), u64_le());
    }
    r
}

/// Snaps onto a sorted list: the result is `snap`.
fn snap_node(n: u64, s: &Vec<u64>) -> (r: u64)
    requires
        s@.len() > 0,
        is_sorted(s@),
    ensures
        r == snap(s@, n),
        s@.contains(r),
{
    let r = find_node(n, s);
    proof {
        assert(snapped(s@, n, r));
        let c = snap(s@, n);
        assert(snapped(s@, n, c));
        lemma_snapped_unique(s@, n, r, c);
    }
    r
}

/// Equipment to attach: its layer, its record, its node, its role and its
/// line number.
pub type EquipRec = (String, usize, u64, NodeType, usize);

/// The nodes, as a map from node number, after attaching equipment `g` to
/// node `k`; nothing changes when there is no such node.
pub open spec fn attach(m: Map<u64, NodeView>, k: u64, g: GridNodeView) -> Map<u64, NodeView> {
    if m.contains_key(k) {
        m.insert(k, (m[k].0, m[k].1.push(g), m[k].2, m[k].3, m[k].4))
    } else {
        m
    }
}

/// Equipment `e` of area `ar` placed at node `n`.
pub open spec fn equip_at(ar: Seq<char>, e: EquipRec, n: u64) -> GridNodeView {
    (ar, e.0@, e.1, n, e.3, e.4, 0usize)
}

/// The node a piece of equipment is attached to: its own node when there is
/// one, else its node snapped onto `keys`.
pub open spec fn target_node(m: Map<u64, NodeView>, keys: Seq<u64>, n: u64) -> u64 {
    if m.contains_key(n) {
        n
    } else {
        snap(keys, n)
    }
}

/// The node number a piece of equipment placed at node `n` records: `n`,
/// except that a piece found at its own node (`own`) records 0 unless
/// `mark_own` is set.
pub open spec fn recorded_n1d(own: bool, n: u64, mark_own: bool) -> u64 {
    if own && !mark_own {
        0
    } else {
        n
    }
}

/// The nodes after the first `k` pieces of equipment of `eqs`, each attached
/// to its target node.
pub open spec fn attach_all(m: Map<u64, NodeView>, ar: Seq<char>, keys: Seq<u64>, eqs: Seq<EquipRec>, k: int, mark_own: bool) -> Map<u64, NodeView>
    decreases k,
{
    if k <= 0 {
        m
    } else {
        let prev = attach_all(m, ar, keys, eqs, k - 1, mark_own);
        let e = eqs[k - 1];
        let n = target_node(prev, keys, e.2);
        attach(prev, n, equip_at(ar, e, recorded_n1d(prev.contains_key(e.2), n, mark_own)))
    }
}

/// The nodes as a map from node number to node view.
pub open spec fn node_map(m: Map<u64, NodeInfo>) -> Map<u64, NodeView> {
    m.map_values(|n: NodeInfo| node_view(n))
}

/// Attaching never adds or removes a node.
proof fn lemma_attach_all_dom(m: Map<u64, NodeView>, ar: Seq<char>, keys: Seq<u64>, eqs: Seq<EquipRec>, k: int, mark_own: bool)
    ensures
        attach_all(m, ar, keys, eqs, k, mark_own).dom() == m.dom(),
    decreases k,
{
    if k > 0 {
        lemma_attach_all_dom(m, ar, keys, eqs, k - 1, mark_own);
        let prev = attach_all(m, ar, keys, eqs, k - 1, mark_own);
        let e = eqs[k - 1];
        let n = target_node(prev, keys, e.2);
        let g = equip_at(ar, e, recorded_n1d(prev.contains_key(e.2), n, mark_own));
        if prev.contains_key(n) {
            assert(attach(prev, n, g).dom() =~= prev.dom());
        }
    }
}

/// Attaches equipment `e` to node `n` of the map, recording node number
/// `rec` on it.
fn attach_exec(ar: &str, nds: &mut HashMap<u64, NodeInfo>, e: &EquipRec, n: u64, rec: u64)
    ensures
        node_map(final(nds)@) == attach(node_map(old(nds)@), n, equip_at(ar@, *e, rec)),
{
    let ghost before = node_map(nds@);
    match nds.remove(&n) {
        Some(mut nd) => {
            let g = GridNode { ar: ar.to_owned(), ly: e.0.clone(), ix: e.1, n1d: rec, ntp: e.3, lix: e.4, pix: 0 };
            nd.nodes.push(g);
            let ghost nv = node_view(nd);
            nds.insert(n, nd);
            proof {
                assert(nv.1 =~= before[n].1.push(equip_at(ar@, *e, rec)));
                assert(node_map(nds@) =~= attach(before, n, equip_at(ar@, *e, rec)));
            }
        },
        None => {
            proof {
                assert(node_map(nds@) =~= before);
            }
        },
    }
}

/// Attaches equipment to the network nodes: each piece to the node at its
/// own node number, or else to the node its number snaps to on the node
/// numbers `keys` taken in increasing order (nothing happens when that node does not exist). Each
/// piece records the node it went to, except that with `mark_own` unset a
/// piece found at its own node records 0. The result lists, in order, the
/// node numbers of the pieces that found their own node.
pub fn attach_equipment(ar: &str, nds: &mut HashMap<u64, NodeInfo>, keys: &Vec<u64>, eqs: &Vec<EquipRec>, mark_own: bool) -> (found: Vec<u64>)
    requires
        keys@.len() > 0 || forall|i: int| 0 <= i < eqs@.len() ==> old(nds)@.dom().contains(#[trigger] eqs@[i].2),
    ensures
        node_map(final(nds)@) == attach_all(node_map(old(nds)@), ar@, sorted_keys(keys@), eqs@, eqs@.len() as int, mark_own),
        final(nds)@.dom() == old(nds)@.dom(),
        forall|i: int| 0 <= i < found@.len() ==> old(nds)@.dom().contains(#[trigger] found@[i]),
{
    let sk = sort_keys(keys);
    proof {
        lemma_sorted_keys(keys@);
    }
    let ghost m0 = node_map(nds@);
    let mut found: Vec<u64> = Vec::new();
    let mut k: usize = 0;
    while k < eqs.len()
        invariant
            k <= eqs@.len(),
            is_sorted(sk@),
            sk@ == sorted_keys(keys@),
            sk@.len() == keys@.len(),
            m0.dom() == old(nds)@.dom(),
            sk@.len() > 0 || forall|i: int| 0 <= i < eqs@.len() ==> m0.dom().contains(#[trigger] eqs@[i].2),
            node_map(nds@) == attach_all(m0, ar@, sk@, eqs@, k as int, mark_own),
            forall|i: int| 0 <= i < found@.len() ==> m0.dom().contains(#[trigger] found@[i]),
        decreases eqs@.len() - k,
    {
        let e = &eqs[k];
        proof {
            lemma_attach_all_dom(m0, ar@, sk@, eqs@, k as int, mark_own);
        }
        if nds.contains_key(&e.2) {
            let rec = if mark_own {
                e.2
            } else {
                0
            };
            attach_exec(ar, nds, e, e.2, rec);
            found.push(e.2);
        } else {
            proof {
                assert(m0.dom().contains(eqs@[k as int].2) || sk@.len() > 0);
            }
            let n0 = snap_node(e.2, &sk);
            attach_exec(ar, nds, e, n0, n0);
        }
        k = k + 1;
    }
    proof {
        lemma_attach_all_dom(m0, ar@, sk@, eqs@, eqs@.len() as int, mark_own);
        assert(node_map(nds@).dom() == nds@.dom());
    }
    found
}


/// Attaching equipment never changes where a later piece goes: the target
/// of a node number is the same before and after any number of pieces have
/// been attached.
pub proof fn lemma_target_stable(m: Map<u64, NodeView>, ar: Seq<char>, keys: Seq<u64>, eqs: Seq<EquipRec>, k: int, mark_own: bool, n: u64)
    ensures
        target_node(attach_all(m, ar, keys, eqs, k, mark_own), keys, n) == target_node(m, keys, n),
{
    lemma_attach_all_dom(m, ar, keys, eqs, k, mark_own);
    let a = attach_all(m, ar, keys, eqs, k, mark_own);
    assert(a.contains_key(n) == m.contains_key(n));
}

/// The pieces among the first `k` of `eqs` that go to node `n`, as attached
/// there, in order.
pub open spec fn pieces_at(m: Map<u64, NodeView>, ar: Seq<char>, keys: Seq<u64>, eqs: Seq<EquipRec>, k: int, mark_own: bool, n: u64) -> Seq<GridNodeView>
    decreases k,
{
    if k <= 0 {
        Seq::empty()
    } else {
        let prev = pieces_at(m, ar, keys, eqs, k - 1, mark_own, n);
        let e = eqs[k - 1];
        if target_node(m, keys, e.2) == n {
            prev.push(equip_at(ar, e, recorded_n1d(m.contains_key(e.2), n, mark_own)))
        } else {
            prev
        }
    }
}

/// After attaching, each node holds its former equipment followed by exactly
/// the pieces whose target it is, in order; nothing else about it changes.
pub proof fn lemma_attached_pieces(m: Map<u64, NodeView>, ar: Seq<char>, keys: Seq<u64>, eqs: Seq<EquipRec>, k: int, mark_own: bool, n: u64)
    requires
        m.contains_key(n),
    ensures
        attach_all(m, ar, keys, eqs, k, mark_own).contains_key(n),
        attach_all(m, ar, keys, eqs, k, mark_own)[n] == (m[n].0, m[n].1 + pieces_at(m, ar, keys, eqs, k, mark_own, n), m[n].2, m[n].3, m[n].4),
    decreases k,
{
    lemma_attach_all_dom(m, ar, keys, eqs, k, mark_own);
    if k <= 0 {
        assert(m[n].1 + Seq::<GridNodeView>::empty() =~= m[n].1);
    } else {
        lemma_attached_pieces(m, ar, keys, eqs, k - 1, mark_own, n);
        lemma_attach_all_dom(m, ar, keys, eqs, k - 1, mark_own);
        let prev = attach_all(m, ar, keys, eqs, k - 1, mark_own);
        let e = eqs[k - 1];
        lemma_target_stable(m, ar, keys, eqs, k - 1, mark_own, e.2);
        let t = target_node(prev, keys, e.2);
        assert(prev.contains_key(e.2) == m.contains_key(e.2));
        let pp = pieces_at(m, ar, keys, eqs, k - 1, mark_own, n);
        if t == n {
            let g = equip_at(ar, e, recorded_n1d(m.contains_key(e.2), n, mark_own));
            assert(m[n].1 + pp.push(g) =~= (m[n].1 + pp).push(g));
        }
    }
}

/// The node each station goes to (see `target_node`), for the stations that
/// have a node.
pub open spec fn station_targets(m: Map<u64, NodeView>, keys: Seq<u64>, sts: Seq<Option<u64>>) -> Seq<Option<u64>> {
    sts.map_values(|s: Option<u64>| match s {
        Some(n) => Some(target_node(m, keys, n)),
        None => None,
    })
}

/// The positions of the entries of `ts` that are `Some(n)`, in order.
pub open spec fn positions_at(ts: Seq<Option<u64>>, n: u64) -> Seq<usize>
    decreases ts.len(),
{
    if ts.len() == 0 {
        Seq::empty()
    } else {
        let rest = positions_at(ts.drop_last(), n);
        if ts.last() == Some(n) {
            rest.push((ts.len() - 1) as usize)
        } else {
            rest
        }
    }
}

/// Entry `t` of `ns` is the last one with its value.
pub open spec fn last_with_value(ns: Seq<u64>, t: int) -> bool {
    forall|u: int| t < u < ns.len() ==> #[trigger] ns[u] != ns[t]
}

/// The stations of transformer `t`: those going to its node (targets `tg`)
/// when it is the last transformer at that node, none otherwise.
pub open spec fn tr_stations(tg: Seq<Option<u64>>, tr_nodes: Seq<u64>, t: int) -> Seq<usize> {
    if last_with_value(tr_nodes, t) {
        positions_at(tg, tr_nodes[t])
    } else {
        Seq::empty()
    }
}

proof fn lemma_positions_at(ts: Seq<Option<u64>>, n: u64, p: usize)
    requires
        ts.len() <= usize::MAX,
    ensures
        positions_at(ts, n).contains(p) <==> (p < ts.len() && ts[p as int] == Some(n)),
    decreases ts.len(),
{
    if ts.len() > 0 {
        let rest = ts.drop_last();
        let rr = positions_at(rest, n);
        let last = (ts.len() - 1) as usize;
        lemma_positions_at(rest, n, p);
        if p < rest.len() {
            assert(rest[p as int] == ts[p as int]);
        }
        if ts.last() == Some(n) {
            let r = rr.push(last);
            assert(r.contains(p) <==> (rr.contains(p) || p == last)) by {
                if r.contains(p) && p != last {
                    let k = choose|k: int| 0 <= k < r.len() && r[k] == p;
                    assert(k < rr.len());
                    assert(rr[k] == p);
                }
                if rr.contains(p) {
                    let k = choose|k: int| 0 <= k < rr.len() && rr[k] == p;
                    assert(r[k] == p);
                }
                if p == last {
                    assert(r[r.len() - 1] == p);
                }
            }
        }
    }
}

/// The last transformer, from `t` on, at the node of transformer `t`.
proof fn lemma_last_at_node(tr_nodes: Seq<u64>, t: int) -> (l: int)
    requires
        0 <= t < tr_nodes.len(),
    ensures
        t <= l < tr_nodes.len(),
        tr_nodes[l] == tr_nodes[t],
        last_with_value(tr_nodes, l),
    decreases tr_nodes.len() - t,
{
    if exists|u: int| t < u < tr_nodes.len() && #[trigger] tr_nodes[u] == tr_nodes[t] {
        let u = choose|u: int| t < u < tr_nodes.len() && #[trigger] tr_nodes[u] == tr_nodes[t];
        lemma_last_at_node(tr_nodes, u)
    } else {
        t
    }
}

/// Every station whose target node is that of some transformer belongs to
/// exactly one transformer.
pub proof fn lemma_station_in_one_transformer(tg: Seq<Option<u64>>, tr_nodes: Seq<u64>, p: usize)
    requires
        tg.len() <= usize::MAX,
        p < tg.len(),
        exists|t: int| 0 <= t < tr_nodes.len() && tg[p as int] == Some(#[trigger] tr_nodes[t]),
    ensures
        exists|t: int| 0 <= t < tr_nodes.len() && #[trigger] tr_stations(tg, tr_nodes, t).contains(p),
        forall|t: int, u: int|
            0 <= t < tr_nodes.len() && 0 <= u < tr_nodes.len() && #[trigger] tr_stations(tg, tr_nodes, t).contains(p)
                && #[trigger] tr_stations(tg, tr_nodes, u).contains(p) ==> t == u,
{
    let t0 = choose|t: int| 0 <= t < tr_nodes.len() && tg[p as int] == Some(#[trigger] tr_nodes[t]);
    let l = lemma_last_at_node(tr_nodes, t0);
    lemma_positions_at(tg, tr_nodes[l], p);
    assert(tr_stations(tg, tr_nodes, l).contains(p));
    assert forall|t: int, u: int|
        0 <= t < tr_nodes.len() && 0 <= u < tr_nodes.len() && #[trigger] tr_stations(tg, tr_nodes, t).contains(p)
            && #[trigger] tr_stations(tg, tr_nodes, u).contains(p) implies t == u by {
        lemma_positions_at(tg, tr_nodes[t], p);
        lemma_positions_at(tg, tr_nodes[u], p);
        if t < u {
            assert(tr_nodes[u] != tr_nodes[t]);
        } else if u < t {
            assert(tr_nodes[t] != tr_nodes[u]);
        }
    }
}

/// For each transformer (by its feeder-side node in `tr_nodes`), the charging
/// stations that go to its node: each station with a node (`sts`) goes to its
/// own node when the network has it, or else to the node its number snaps to
/// on the numbers `keys` taken in increasing order; of several transformers at one node, the
/// last one takes the stations.
pub fn volta_transformers(nds: &HashMap<u64, NodeInfo>, keys: &Vec<u64>, sts: &Vec<Option<u64>>, tr_nodes: &Vec<u64>) -> (r: Vec<Vec<usize>>)
    requires
        keys@.len() > 0 || forall|i: int| 0 <= i < sts@.len() && #[trigger] sts@[i] is Some ==> nds@.dom().contains(sts@[i]->0),
    ensures
        r@.len() == tr_nodes@.len(),
        forall|t: int| 0 <= t < tr_nodes@.len() ==> #[trigger] r@[t]@ == tr_stations(station_targets(node_map(nds@), sorted_keys(keys@), sts@), tr_nodes@, t),
{
    let sk = sort_keys(keys);
    proof {
        lemma_sorted_keys(keys@);
    }
    let ghost m = node_map(nds@);
    let mut tg: Vec<Option<u64>> = Vec::new();
    let mut i: usize = 0;
    while i < sts.len()
        invariant
            i <= sts@.len(),
            m == node_map(nds@),
            is_sorted(sk@),
            sk@ == sorted_keys(keys@),
            sk@.len() == keys@.len(),
            sk@.len() > 0 || forall|j: int| 0 <= j < sts@.len() && #[trigger] sts@[j] is Some ==> nds@.dom().contains(sts@[j]->0),
            tg@ == station_targets(m, sk@, sts@).subrange(0, i as int),
        decreases sts@.len() - i,
    {
        let ghost before = tg@;
        match sts[i] {
            Some(n) => {
                if nds.contains_key(&n) {
                    tg.push(Some(n));
                } else {
                    proof {
                        assert(sts@[i as int] is Some);
                    }
                    let n0 = snap_node(n, &sk);
                    tg.push(Some(n0));
                }
            },
            None => {
                tg.push(None);
            },
        }
        proof {
            assert(tg@ =~= station_targets(m, sk@, sts@).subrange(0, i + 1));
        }
        i = i + 1;
    }
    proof {
        assert(station_targets(m, sk@, sts@).subrange(0, sts@.len() as int) =~= station_targets(m, sk@, sts@));
    }
    let mut r: Vec<Vec<usize>> = Vec::new();
    let mut t: usize = 0;
    while t < tr_nodes.len()
        invariant
            t <= tr_nodes@.len(),
            r@.len() == t,
            tg@ == station_targets(m, sk@, sts@),
            m == node_map(nds@),
            forall|u: int| 0 <= u < t ==> #[trigger] r@[u]@ == tr_stations(tg@, tr_nodes@, u),
        decreases tr_nodes@.len() - t,
    {
        let n = tr_nodes[t];
        let mut last = true;
        let mut u = t + 1;
        while u < tr_nodes.len()
            invariant
                t < u <= tr_nodes@.len(),
                n == tr_nodes@[t as int],
                last == forall|w: int| t < w < u ==> #[trigger] tr_nodes@[w] != n,
            decreases tr_nodes@.len() - u,
        {
            if tr_nodes[u] == n {
                last = false;
            }
            u = u + 1;
        }
        if last {
            let mut ps: Vec<usize> = Vec::new();
            let mut p: usize = 0;
            assert(tg@.subrange(0, 0) =~= Seq::<Option<u64>>::empty());
            while p < tg.len()
                invariant
                    p <= tg@.len(),
                    ps@ == positions_at(tg@.subrange(0, p as int), n),
                decreases tg@.len() - p,
            {
                let ghost pre = tg@.subrange(0, p + 1);
                assert(pre.drop_last() =~= tg@.subrange(0, p as int));
                if tg[p] == Some(n) {
                    ps.push(p);
                }
                p = p + 1;
            }
            assert(tg@.subrange(0, p as int) =~= tg@);
            r.push(ps);
        } else {
            r.push(Vec::new());
        }
        t = t + 1;
    }
    r
}

// ---------------------------------------------------------------------------
// Low-voltage connection records: where a meter stands, and the records that
// introduce each transformer.

/// The node of a connection record's meter: its own node, except that a
/// meter with no node, or with node 0 while its transformer's node is not 0,
/// takes its transformer's node.
pub open spec fn meter_n1d_of(mt_n1d: Option<u64>, tr_n1d: Option<u64>) -> Option<u64> {
    match mt_n1d {
        None => tr_n1d,
        Some(m) => match tr_n1d {
            Some(t) => if m == 0 && t != 0 {
                tr_n1d
            } else {
                mt_n1d
            },
            None => mt_n1d,
        },
    }
}

/// The node of a connection record's meter from the meter's own node and
/// its transformer's node.
pub fn meter_n1d(mt_n1d: Option<u64>, tr_n1d: Option<u64>) -> (r: Option<u64>)
    ensures
        r == meter_n1d_of(mt_n1d, tr_n1d),
{
    match mt_n1d {
        None => tr_n1d,
        Some(m) => match tr_n1d {
            Some(t) => if m == 0 && t != 0 {
                tr_n1d
            } else {
                mt_n1d
            },
            None => mt_n1d,
        },
    }
}

/// Record `i` introduces its transformer: it has a transformer node and no
/// earlier record has the same one.
pub open spec fn opens_transformer(tr: Seq<Option<u64>>, i: int) -> bool {
    &&& 0 <= i < tr.len()
    &&& tr[i] is Some
    &&& forall|j: int| 0 <= j < i ==> tr[j] != tr[i]
}

/// The records that introduce the transformers, from each record's
/// transformer node: for each distinct node, the first record at it, in the
/// order of the records.
pub fn transformer_records(tr_n1d: &Vec<Option<u64>>) -> (r: Vec<usize>)
    ensures
        forall|k: int| 0 <= k < r@.len() ==> opens_transformer(tr_n1d@, #[trigger] r@[k] as int),
        forall|i: int| opens_transformer(tr_n1d@, i) ==> r@.contains(i as usize),
        forall|a: int, b: int| 0 <= a < b < r@.len() ==> r@[a] < r@[b],
{
    let mut r: Vec<usize> = Vec::new();
    let mut seen: HashMap<u64, usize> = HashMap::new();
    let mut i: usize = 0;
    while i < tr_n1d.len()
        invariant
            i <= tr_n1d@.len(),
            forall|k: int| 0 <= k < r@.len() ==> #[trigger] r@[k] < i && opens_transformer(tr_n1d@, r@[k] as int),
            forall|j: int| 0 <= j < i && opens_transformer(tr_n1d@, j) ==> r@.contains(j as usize),
            forall|a: int, b: int| 0 <= a < b < r@.len() ==> r@[a] < r@[b],
            forall|n: u64| #[trigger] seen@.contains_key(n) <==> exists|j: int| 0 <= j < i && tr_n1d@[j] == Some(n),
        decreases tr_n1d@.len() - i,
    {
        match tr_n1d[i] {
            None => {
                proof {
                    assert forall|n: u64| #[trigger] seen@.contains_key(n) <==> exists|j: int| 0 <= j < i + 1 && tr_n1d@[j] == Some(n) by {
                        if exists|j: int| 0 <= j < i + 1 && tr_n1d@[j] == Some(n) {
                            let j = choose|j: int| 0 <= j < i + 1 && tr_n1d@[j] == Some(n);
                            assert(j < i);
                        }
                    }
                }
            },
            Some(n) => {
                if seen.contains_key(&n) {
                    proof {
                        let j0 = choose|j: int| 0 <= j < i && tr_n1d@[j] == Some(n);
                        assert(!opens_transformer(tr_n1d@, i as int)) by {
                            assert(tr_n1d@[j0] == tr_n1d@[i as int]);
                        }
                        assert forall|m: u64| #[trigger] seen@.contains_key(m) <==> exists|j: int| 0 <= j < i + 1 && tr_n1d@[j] == Some(m) by {
                            if exists|j: int| 0 <= j < i + 1 && tr_n1d@[j] == Some(m) {
                                let j = choose|j: int| 0 <= j < i + 1 && tr_n1d@[j] == Some(m);
                                if j == i {
                                    assert(tr_n1d@[j0] == Some(m));
                                }
                            }
                        }
                    }
                } else {
                    proof {
                        assert(opens_transformer(tr_n1d@, i as int)) by {
                            assert forall|j: int| 0 <= j < i implies tr_n1d@[j] != tr_n1d@[i as int] by {
                                if tr_n1d@[j] == tr_n1d@[i as int] {
                                    assert(seen@.contains_key(n));
                                }
                            }
                        }
                    }
                    let ghost r0 = r@;
                    r.push(i);
                    seen.insert(n, i);
                    proof {
                        assert forall|j: int| 0 <= j < i + 1 && opens_transformer(tr_n1d@, j) implies r@.contains(j as usize) by {
                            if j < i {
                                assert(r0.contains(j as usize));
                                let k = choose|k: int| 0 <= k < r0.len() && r0[k] == j as usize;
                                assert(r@[k] == j as usize);
                            } else {
                                assert(r@[r0.len() as int] == i);
                            }
                        }
                        assert forall|m: u64| #[trigger] seen@.contains_key(m) <==> exists|j: int| 0 <= j < i + 1 && tr_n1d@[j] == Some(m) by {
                            if m == n {
                                assert(tr_n1d@[i as int] == Some(m));
                            } else if exists|j: int| 0 <= j < i + 1 && tr_n1d@[j] == Some(m) {
                                let j = choose|j: int| 0 <= j < i + 1 && tr_n1d@[j] == Some(m);
                                assert(j < i);
                            }
                        }
                    }
                }
            },
        }
        i = i + 1;
    }
    r
}

} // verus!
