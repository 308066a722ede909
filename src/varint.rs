//! The variable-length size fields of a delta header: base-128 groups, least
//! significant first, where bit 7 of a byte says that another byte follows.
use vstd::prelude::*;

use crate::error::DeltaError;

verus! {

/// `128` raised to the power `i`: the weight of the `i`-th seven-bit group.
pub open spec fn pow128(i: nat) -> nat
    decreases i,
{
    if i == 0 {
        1
    } else {
        128 * pow128((i - 1) as nat)
    }
}

/// The value carried by the first `n` bytes of `s`: the low seven bits of
/// byte `i`, weighted by `128^i`, summed.
pub open spec fn group_sum(s: Seq<u8>, n: nat) -> nat
    decreases n,
{
    if n == 0 || n > s.len() {
        0
    } else {
        group_sum(s, (n - 1) as nat) + (s[n - 1] % 128) as nat * pow128((n - 1) as nat)
    }
}

/// One past the index of the first byte at or after `i` whose bit 7 is clear;
/// `None` when every byte from `i` on has it set.
pub open spec fn terminator_from(s: Seq<u8>, i: nat) -> Option<nat>
    decreases s.len() - i,
{
    if i >= s.len() {
        None
    } else if s[i as int] < 128 {
        Some(i + 1)
    } else {
        terminator_from(s, i + 1)
    }
}

/// How many bytes the size field at the front of `s` occupies.
pub open spec fn varint_width(s: Seq<u8>) -> Option<nat> {
    terminator_from(s, 0)
}

/// The most groups a size field may have: enough for the bits of a `usize`.
pub open spec fn max_groups() -> nat {
    ((usize::BITS + 6) / 7) as nat
}

/// The size field at the front of `s`, decoded: its value and its width, or
/// why it cannot be decoded. A field that would run past `max_groups()`
/// bytes is too large, whether or not the stream ends before its terminator.
pub open spec fn decode_varint(s: Seq<u8>) -> Result<(usize, nat), DeltaError> {
    match varint_width(s) {
        Some(n) if n <= max_groups() => if group_sum(s, n) <= usize::MAX {
            Ok((group_sum(s, n) as usize, n))
        } else {
            Err(DeltaError::SizeOverflow)
        },
        _ => if s.len() >= max_groups() {
            Err(DeltaError::SizeOverflow)
        } else {
            Err(DeltaError::TruncatedStream)
        },
    }
}

/// A decoded size field lies within the bytes it was read from.
pub proof fn lemma_width_bound(s: Seq<u8>, n: nat)
    requires
        decode_varint(s) matches Ok((_, w)) && w == n,
    ensures
        0 < n <= s.len(),
{
    lemma_terminator_bound(s, 0);
}

/// A terminator found from `i` on lies past `i` and within `s`.
pub proof fn lemma_terminator_bound(s: Seq<u8>, i: nat)
    ensures
        terminator_from(s, i) matches Some(n) ==> i < n <= s.len(),
    decreases s.len() - i,
{
    if i < s.len() && s[i as int] >= 128 {
        lemma_terminator_bound(s, i + 1);
    }
}

/// Where `g` exceeds `m / w`, the product `g * w` exceeds `m`.
pub proof fn lemma_above_quotient(g: int, m: int, w: int)
    requires
        w > 0,
        m >= 0,
        g > m / w,
    ensures
        g * w > m,
{
    vstd::arithmetic::div_mod::lemma_fundamental_div_mod(m, w);
    vstd::arithmetic::div_mod::lemma_mod_bound(m, w);
    assert(g * w >= (m / w + 1) * w) by (nonlinear_arith)
        requires
            g >= m / w + 1,
            w > 0,
    ;
    assert((m / w + 1) * w == w * (m / w) + w) by (nonlinear_arith);
}

/// Where `g` is at most `m / w`, the product `g * w` is at most `m`.
pub proof fn lemma_within_quotient(g: int, m: int, w: int)
    requires
        w > 0,
        m >= 0,
        0 <= g <= m / w,
    ensures
        g * w <= m,
{
    vstd::arithmetic::div_mod::lemma_fundamental_div_mod(m, w);
    vstd::arithmetic::div_mod::lemma_mod_bound(m, w);
    assert(g * w <= (m / w) * w) by (nonlinear_arith)
        requires
            g <= m / w,
            w > 0,
    ;
    assert((m / w) * w == w * (m / w)) by (nonlinear_arith);
}


/// The shortest size field that holds `v`.
pub open spec fn encode_varint(v: nat) -> Seq<u8>
    decreases v,
{
    if v < 128 {
        seq![v as u8]
    } else {
        seq![(v % 128 + 128) as u8] + encode_varint(v / 128)
    }
}

/// Looking for the terminator one byte further into `seq![b] + t` is looking
/// in `t`.
pub proof fn lemma_terminator_shift(b: u8, t: Seq<u8>, i: nat)
    ensures
        terminator_from(seq![b] + t, i + 1) == match terminator_from(t, i) {
            Some(n) => Some(n + 1),
            None => None::<nat>,
        },
    decreases t.len() - i,
{
    let s = seq![b] + t;
    if i < t.len() {
        assert(s[i + 1 as int] == t[i as int]);
        lemma_terminator_shift(b, t, i + 1);
    }
}

/// The groups of `seq![b] + t` are the group of `b` followed by those of
/// `t`, each weighted 128 times more.
pub proof fn lemma_group_sum_shift(b: u8, t: Seq<u8>, n: nat)
    requires
        n <= t.len(),
    ensures
        group_sum(seq![b] + t, n + 1) == (b % 128) as nat + 128 * group_sum(t, n),
    decreases n,
{
    let s = seq![b] + t;
    if n == 0 {
        assert(s[0] == b);
        assert(group_sum(s, 1) == group_sum(s, 0) + (s[0] % 128) as nat * pow128(0));
        assert(pow128(0) == 1);
        assert(group_sum(t, 0) == 0);
        assert((b % 128) as nat * 1 == (b % 128) as nat);
    } else {
        let k = (n - 1) as nat;
        lemma_group_sum_shift(b, t, k);
        assert(s[n as int] == t[k as int]);
        let g = (t[k as int] % 128) as nat;
        let p = pow128(k);
        let gs = group_sum(t, k);
        assert(group_sum(t, n) == gs + g * p);
        assert(group_sum(s, n + 1) == group_sum(s, n) + g * pow128(n));
        assert(pow128(n) == 128 * p);
        assert((b % 128) as nat + 128 * gs + g * (128 * p) == (b % 128) as nat + 128 * (gs + g * p))
            by (nonlinear_arith);
    }
}

/// A value below `128^m` needs at most `m` groups.
pub proof fn lemma_encode_varint_width(v: nat, m: nat)
    requires
        m >= 1,
        v < pow128(m),
    ensures
        encode_varint(v).len() <= m,
    decreases v,
{
    if v >= 128 {
        let p = pow128((m - 1) as nat);
        if m == 1 {
            assert(pow128(1) == 128 * pow128(0));
        }
        assert(v / 128 < p) by (nonlinear_arith)
            requires
                v < 128 * p,
        ;
        lemma_encode_varint_width(v / 128, (m - 1) as nat);
    }
}

/// Every `usize` is below `128^max_groups()`.
pub proof fn lemma_usize_below_cap()
    ensures
        usize::MAX < pow128(max_groups()),
        max_groups() >= 1,
{
    reveal_with_fuel(pow128, 11);
    assert(pow128(5) == 0x8_0000_0000);
    assert(pow128(10) == 0x40_0000_0000_0000_0000);
}

/// The shortest size field of `v`, whatever follows it, decodes to `v` and
/// occupies its own bytes.
pub proof fn lemma_encode_varint(v: nat, rest: Seq<u8>)
    ensures
        varint_width(encode_varint(v) + rest) == Some(encode_varint(v).len()),
        group_sum(encode_varint(v) + rest, encode_varint(v).len()) == v,
    decreases v,
{
    let e = encode_varint(v);
    let s = e + rest;
    if v < 128 {
        assert(s[0] == v as u8);
        assert(group_sum(s, 1) == group_sum(s, 0) + (s[0] % 128) as nat * pow128(0));
        assert(pow128(0) == 1);
        assert(group_sum(s, 0) == 0);
        assert((s[0] % 128) as nat * 1 == v);
    } else {
        let b = (v % 128 + 128) as u8;
        let e1 = encode_varint(v / 128);
        let t = e1 + rest;
        lemma_encode_varint(v / 128, rest);
        assert(s =~= seq![b] + t);
        assert(s[0] == b);
        lemma_terminator_shift(b, t, 0);
        lemma_group_sum_shift(b, t, e1.len());
        assert(b % 128 == v % 128);
        vstd::arithmetic::div_mod::lemma_fundamental_div_mod(v as int, 128);
        assert(e.len() == e1.len() + 1);
    }
}

/// The shortest size field of a `usize`, whatever follows it, decodes to
/// that value and occupies its own bytes.
pub proof fn lemma_decode_encoded(v: nat, rest: Seq<u8>)
    requires
        v <= usize::MAX,
    ensures
        decode_varint(encode_varint(v) + rest) == Ok::<(usize, nat), DeltaError>(
            (v as usize, encode_varint(v).len()),
        ),
{
    lemma_encode_varint(v, rest);
    lemma_usize_below_cap();
    lemma_encode_varint_width(v, max_groups());
}

} // verus!
