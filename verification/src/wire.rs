//! The mathematical model of the wire layout: big-endian byte images of
//! unsigned integers, the value a byte sequence denotes, and the laws that
//! relate the two.

use vstd::prelude::*;
use vstd::arithmetic::div_mod::{
    lemma_div_denominator, lemma_fundamental_div_mod, lemma_fundamental_div_mod_converse,
    lemma_multiply_divide_lt,
};
use vstd::arithmetic::mul::lemma_mul_inequality;

verus! {

/// 256 raised to the given power: one more than the largest value that a
/// big-endian field of `w` bytes can carry.
pub open spec fn pow256(w: nat) -> nat
    decreases w,
{
    if w == 0 {
        1
    } else {
        256 * pow256((w - 1) as nat)
    }
}

/// The big-endian image of `v` in exactly `w` bytes, most significant byte
/// first.  Only the low `w` bytes of `v` appear in the image.
pub open spec fn be_bytes(v: nat, w: nat) -> Seq<u8>
    decreases w,
{
    if w == 0 {
        Seq::empty()
    } else {
        be_bytes(v / 256, (w - 1) as nat) + seq![(v % 256) as u8]
    }
}

/// The value that a big-endian byte sequence denotes.
pub open spec fn be_value(s: Seq<u8>) -> nat
    decreases s.len(),
{
    if s.len() == 0 {
        0
    } else {
        be_value(s.drop_last()) * 256 + (s.last() as nat)
    }
}

pub proof fn lemma_pow256_pos(w: nat)
    ensures
        pow256(w) >= 1,
    decreases w,
{
    if w > 0 {
        lemma_pow256_pos((w - 1) as nat);
    }
}

/// The concrete powers that the fixed-width codecs use.
pub proof fn lemma_pow256_values()
    ensures
        pow256(0) == 1,
        pow256(1) == 0x100,
        pow256(2) == 0x1_0000,
        pow256(3) == 0x100_0000,
        pow256(4) == 0x1_0000_0000,
        pow256(8) == 0x1_0000_0000_0000_0000,
        pow256(16) == 0x1_0000_0000_0000_0000_0000_0000_0000_0000,
{
    assert(pow256(0) == 1);
    assert(pow256(1) == 0x100);
    assert(pow256(2) == 0x1_0000);
    assert(pow256(3) == 0x100_0000);
    assert(pow256(4) == 0x1_0000_0000);
    assert(pow256(5) == 0x100_0000_0000);
    assert(pow256(6) == 0x1_0000_0000_0000);
    assert(pow256(7) == 0x100_0000_0000_0000);
    assert(pow256(8) == 0x1_0000_0000_0000_0000);
    assert(pow256(9) == 0x100_0000_0000_0000_0000);
    assert(pow256(10) == 0x1_0000_0000_0000_0000_0000);
    assert(pow256(11) == 0x100_0000_0000_0000_0000_0000);
    assert(pow256(12) == 0x1_0000_0000_0000_0000_0000_0000);
    assert(pow256(13) == 0x100_0000_0000_0000_0000_0000_0000);
    assert(pow256(14) == 0x1_0000_0000_0000_0000_0000_0000_0000);
    assert(pow256(15) == 0x100_0000_0000_0000_0000_0000_0000_0000);
    assert(pow256(16) == 0x1_0000_0000_0000_0000_0000_0000_0000_0000);
}

pub proof fn lemma_be_bytes_len(v: nat, w: nat)
    ensures
        be_bytes(v, w).len() == w,
    decreases w,
{
    if w > 0 {
        lemma_be_bytes_len(v / 256, (w - 1) as nat);
    }
}

/// Peeling the most significant byte off a big-endian image.
pub proof fn lemma_be_bytes_prepend(v: nat, w: nat)
    ensures
        be_bytes(v, w + 1) == seq![((v / pow256(w)) % 256) as u8] + be_bytes(v, w),
    decreases w,
{
    lemma_be_bytes_len(v, w + 1);
    lemma_be_bytes_len(v, w);
    if w == 0 {
        vstd::arithmetic::div_mod::lemma_div_basics_2(v as int);
        assert(be_bytes(v, 1) =~= seq![((v / pow256(0)) % 256) as u8] + be_bytes(v, 0));
    } else {
        lemma_be_bytes_prepend(v / 256, (w - 1) as nat);
        lemma_pow256_pos((w - 1) as nat);
        lemma_div_denominator(v as int, 256, pow256((w - 1) as nat) as int);
        assert(v / 256 / pow256((w - 1) as nat) == v / pow256(w));
        assert(be_bytes(v, w + 1) == be_bytes(v / 256, w) + seq![(v % 256) as u8]);
        assert(be_bytes(v / 256, w) == seq![((v / pow256(w)) % 256) as u8] + be_bytes(
            v / 256,
            (w - 1) as nat,
        ));
        assert(be_bytes(v, w + 1) =~= seq![((v / pow256(w)) % 256) as u8] + be_bytes(v, w));
    }
}

/// Each byte of the image, indexed from the most significant end.
pub proof fn lemma_be_bytes_index(v: nat, w: nat, j: int)
    requires
        0 <= j < w,
    ensures
        be_bytes(v, w).len() == w,
        be_bytes(v, w)[j] == ((v / pow256((w - 1 - j) as nat)) % 256) as u8,
    decreases w,
{
    lemma_be_bytes_len(v, w);
    lemma_be_bytes_prepend(v, (w - 1) as nat);
    lemma_be_bytes_len(v, (w - 1) as nat);
    if j == 0 {
    } else {
        lemma_be_bytes_index(v, (w - 1) as nat, j - 1);
    }
}

pub proof fn lemma_be_value_bound(s: Seq<u8>)
    ensures
        be_value(s) < pow256(s.len()),
    decreases s.len(),
{
    if s.len() > 0 {
        lemma_be_value_bound(s.drop_last());
        let hi = be_value(s.drop_last());
        let cap = pow256((s.len() - 1) as nat);
        assert(hi <= cap - 1);
        lemma_mul_inequality(hi as int, cap - 1, 256);
        assert(hi * 256 <= (cap - 1) * 256);
    }
}

/// Reading back a `w`-byte image recovers the value, for any value the
/// field can carry.
pub proof fn lemma_be_value_of_be_bytes(v: nat, w: nat)
    requires
        v < pow256(w),
    ensures
        be_value(be_bytes(v, w)) == v,
    decreases w,
{
    lemma_be_bytes_len(v, w);
    if w == 0 {
    } else {
        let head = be_bytes(v / 256, (w - 1) as nat);
        lemma_be_bytes_len(v / 256, (w - 1) as nat);
        let s = be_bytes(v, w);
        assert(s == head + seq![(v % 256) as u8]);
        assert(s.drop_last() =~= head);
        assert(s.last() == (v % 256) as u8);
        lemma_pow256_pos((w - 1) as nat);
        lemma_multiply_divide_lt(v as int, 256, pow256((w - 1) as nat) as int);
        lemma_be_value_of_be_bytes(v / 256, (w - 1) as nat);
        lemma_fundamental_div_mod(v as int, 256);
    }
}

} // verus!
