//! Big-endian fixed-width integer encodings and their order properties.
use vstd::prelude::*;

verus! {

/// 256 raised to `n`.
pub open spec fn pow256(n: nat) -> nat
    decreases n,
{
    if n == 0 {
        1
    } else {
        256 * pow256((n - 1) as nat)
    }
}

/// The number that a big-endian byte sequence denotes.
pub open spec fn be_value(s: Seq<u8>) -> nat
    decreases s.len(),
{
    if s.len() == 0 {
        0
    } else {
        be_value(s.drop_last()) * 256 + s.last() as nat
    }
}

/// The `w` big-endian bytes of `v` (the low `w` bytes when `v` is larger).
pub open spec fn be_encode(v: nat, w: nat) -> Seq<u8>
    decreases w,
{
    if w == 0 {
        Seq::empty()
    } else {
        be_encode(v / 256, (w - 1) as nat).push((v % 256) as u8)
    }
}

/// Strict lexicographic order on two byte sequences of equal length.
pub open spec fn lex_lt(x: Seq<u8>, y: Seq<u8>) -> bool
    decreases x.len(),
{
    if x.len() == 0 || y.len() == 0 {
        false
    } else {
        lex_lt(x.drop_last(), y.drop_last()) || (x.drop_last() == y.drop_last() && x.last()
            < y.last())
    }
}

pub proof fn lemma_be_encode_len(v: nat, w: nat)
    ensures
        be_encode(v, w).len() == w,
    decreases w,
{
    if w > 0 {
        lemma_be_encode_len(v / 256, (w - 1) as nat);
    }
}

pub proof fn lemma_be_value_bound(s: Seq<u8>)
    ensures
        be_value(s) < pow256(s.len()),
    decreases s.len(),
{
    if s.len() > 0 {
        lemma_be_value_bound(s.drop_last());
        let p = pow256((s.len() - 1) as nat);
        let a = be_value(s.drop_last());
        assert(a * 256 + (s.last() as nat) < p * 256) by (nonlinear_arith)
            requires
                a < p,
                s.last() < 256,
        ;
    }
}

/// Decoding the encoding of a value that fits gives the value back.
pub proof fn lemma_be_round_trip(v: nat, w: nat)
    requires
        v < pow256(w),
    ensures
        be_value(be_encode(v, w)) == v,
    decreases w,
{
    if w > 0 {
        let p = pow256((w - 1) as nat);
        assert(v / 256 < p) by (nonlinear_arith)
            requires
                v < 256 * p,
        ;
        lemma_be_round_trip(v / 256, (w - 1) as nat);
        let e = be_encode(v, w);
        assert(e.drop_last() == be_encode(v / 256, (w - 1) as nat));
        assert((v / 256) * 256 + v % 256 == v) by (nonlinear_arith);
    } else {
        assert(v == 0);
    }
}

/// On equal-width encodings, lexicographic byte order is numeric order.
pub proof fn lemma_be_order(a: nat, b: nat, w: nat)
    requires
        a < pow256(w),
        b < pow256(w),
    ensures
        lex_lt(be_encode(a, w), be_encode(b, w)) <==> a < b,
    decreases w,
{
    if w > 0 {
        let p = pow256((w - 1) as nat);
        assert(a / 256 < p && b / 256 < p) by (nonlinear_arith)
            requires
                a < 256 * p,
                b < 256 * p,
        ;
        lemma_be_order(a / 256, b / 256, (w - 1) as nat);
        lemma_be_round_trip(a / 256, (w - 1) as nat);
        lemma_be_round_trip(b / 256, (w - 1) as nat);
        let ea = be_encode(a, w);
        let eb = be_encode(b, w);
        assert(ea.drop_last() == be_encode(a / 256, (w - 1) as nat));
        assert(eb.drop_last() == be_encode(b / 256, (w - 1) as nat));
        assert(a < b <==> (a / 256 < b / 256 || (a / 256 == b / 256 && a % 256 < b % 256)))
            by (nonlinear_arith);
        if ea.drop_last() == eb.drop_last() {
            assert(a / 256 == b / 256);
        }
    } else {
        assert(a == 0 && b == 0);
    }
}

/// Writes the low `w` bytes of `v`, most significant first.
pub fn encode_be(v: u64, w: usize) -> (r: Vec<u8>)
    requires
        w <= 8,
    ensures
        r@ == be_encode(v as nat, w as nat),
    decreases w,
{
    if w == 0 {
        Vec::new()
    } else {
        let mut r = encode_be(v / 256, w - 1);
        r.push((v % 256) as u8);
        r
    }
}

/// Reads `w` big-endian bytes starting at `start`.
pub fn decode_be(b: &Vec<u8>, start: usize, w: usize) -> (r: u64)
    requires
        w <= 8,
        start + w <= b@.len(),
    ensures
        r as nat == be_value(b@.subrange(start as int, start + w)),
{
    let len: usize = b.len();
    let mut acc: u64 = 0;
    let mut i: usize = 0;
    while i < w
        invariant
            i <= w <= 8,
            start + w <= b@.len(),
            len == b@.len(),
            acc as nat == be_value(b@.subrange(start as int, start + i)),
        decreases w - i,
    {
        proof {
            let s = b@.subrange(start as int, start + i + 1);
            assert(s.drop_last() == b@.subrange(start as int, start + i));
            lemma_be_value_bound(b@.subrange(start as int, start + i));
            lemma_pow256_le(i as nat, 7);
            reveal_with_fuel(pow256, 8);
            assert(pow256(7) == 0x100_0000_0000_0000nat);
            assert(acc * 256 + 255 < 0x1_0000_0000_0000_0000nat);
        }
        let byte: u64 = b[start + i] as u64;
        let next: u64 = acc * 256 + byte;
        acc = next;
        i = i + 1;
    }
    acc
}

pub proof fn lemma_pow256_le(n: nat, m: nat)
    requires
        n <= m,
    ensures
        pow256(n) <= pow256(m),
    decreases m,
{
    if n < m {
        lemma_pow256_le(n, (m - 1) as nat);
    }
}

} // verus!
