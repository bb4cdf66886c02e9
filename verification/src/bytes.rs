//! Big-endian integers and fixed-width byte strings.

use vstd::arithmetic::power::{lemma_pow0, pow};
use vstd::prelude::*;
use vstd::slice::slice_to_vec;

verus! {

/// The natural number that `s` spells in base 256, most significant byte first.
pub open spec fn be_value(s: Seq<u8>) -> nat
    decreases s.len(),
{
    if s.len() == 0 {
        0
    } else {
        be_value(s.drop_last()) * 256 + s.last() as nat
    }
}

/// The `width` low base-256 digits of `v`, most significant first.
pub open spec fn be_bytes(v: nat, width: nat) -> Seq<u8>
    decreases width,
{
    if width == 0 {
        Seq::empty()
    } else {
        be_bytes(v / 256, (width - 1) as nat).push((v % 256) as u8)
    }
}

/// `n` zero bytes.
pub open spec fn zeros(n: nat) -> Seq<u8> {
    Seq::new(n, |i: int| 0u8)
}

/// `s` behind as many zero bytes as make it `width` bytes long.
pub open spec fn left_padded(s: Seq<u8>, width: nat) -> Seq<u8> {
    zeros((width - s.len()) as nat) + s
}

/// `s` without its leading zero bytes.
pub open spec fn without_leading_zeros(s: Seq<u8>) -> Seq<u8>
    decreases s.len(),
{
    if s.len() > 0 && s[0] == 0 {
        without_leading_zeros(s.drop_first())
    } else {
        s
    }
}

/// The first 32 bytes of `s`, with zero bytes behind it if it has fewer.
pub open spec fn right_padded32(s: Seq<u8>) -> Seq<u8> {
    if s.len() >= 32 {
        s.take(32)
    } else {
        s + zeros((32 - s.len()) as nat)
    }
}

/// The shortest big-endian form of `v`; that of zero is empty.
pub open spec fn minimal_be(v: nat) -> Seq<u8>
    decreases v,
{
    if v == 0 {
        Seq::empty()
    } else {
        minimal_be(v / 256).push((v % 256) as u8)
    }
}

// ---- laws -----------------------------------------------------------------------------

/// `be_bytes` gives as many bytes as it is asked for.
pub proof fn lemma_be_bytes_len(v: nat, width: nat)
    ensures
        be_bytes(v, width).len() == width,
    decreases width,
{
    if width > 0 {
        lemma_be_bytes_len(v / 256, (width - 1) as nat);
    }
}

/// A number that fits in `width` bytes is read back from its `width`-byte form.
pub proof fn lemma_be_round_trip(v: nat, width: nat)
    requires
        v < pow(256, width),
    ensures
        be_value(be_bytes(v, width)) == v,
    decreases width,
{
    lemma_pow0(256);
    if width > 0 {
        vstd::arithmetic::power::lemma_pow_adds(256, 1, (width - 1) as nat);
        vstd::arithmetic::power::lemma_pow1(256);
        lemma_be_round_trip(v / 256, (width - 1) as nat);
        let s = be_bytes(v, width);
        assert(s.drop_last() =~= be_bytes(v / 256, (width - 1) as nat));
    }
}

/// Bytes are read back from the number that they spell, at their own width.
pub proof fn lemma_bytes_round_trip(s: Seq<u8>)
    ensures
        be_bytes(be_value(s), s.len()) == s,
    decreases s.len(),
{
    if s.len() > 0 {
        lemma_bytes_round_trip(s.drop_last());
        let v = be_value(s);
        assert(v / 256 == be_value(s.drop_last()));
        assert(v % 256 == s.last());
        assert(be_bytes(v, s.len()) =~= s);
    } else {
        assert(be_bytes(0, 0) =~= s);
    }
}

/// Zero bytes in front do not change the number.
pub proof fn lemma_padding_keeps_value(n: nat, s: Seq<u8>)
    ensures
        be_value(zeros(n) + s) == be_value(s),
    decreases s.len(), n,
{
    if s.len() > 0 {
        lemma_padding_keeps_value(n, s.drop_last());
        assert((zeros(n) + s).drop_last() =~= zeros(n) + s.drop_last());
    } else if n > 0 {
        lemma_padding_keeps_value((n - 1) as nat, s);
        assert((zeros(n) + s).drop_last() =~= zeros((n - 1) as nat) + s);
    } else {
        assert(zeros(0) + s =~= s);
    }
}

/// Removing the leading zero bytes does not change the number, and leaves none.
pub proof fn lemma_trimming_keeps_value(s: Seq<u8>)
    ensures
        be_value(without_leading_zeros(s)) == be_value(s),
        without_leading_zeros(s).len() <= s.len(),
        without_leading_zeros(s).len() > 0 ==> without_leading_zeros(s)[0] != 0,
    decreases s.len(),
{
    if s.len() > 0 && s[0] == 0 {
        let t = s.drop_first();
        lemma_trimming_keeps_value(t);
        assert(zeros(1) + t =~= s);
        lemma_padding_keeps_value(1, t);
    }
}

/// The shortest form of a number spells that number, and begins with no zero byte.
pub proof fn lemma_minimal_be(v: nat)
    ensures
        be_value(minimal_be(v)) == v,
        minimal_be(v).len() > 0 ==> minimal_be(v)[0] != 0,
        minimal_be(v).len() == 0 <==> v == 0,
    decreases v,
{
    if v > 0 {
        lemma_minimal_be(v / 256);
        assert(minimal_be(v).drop_last() =~= minimal_be(v / 256));
    }
}

/// Trimming a fixed-width form gives the shortest form of the number.
pub proof fn lemma_trimmed_is_minimal(s: Seq<u8>)
    ensures
        without_leading_zeros(s) == minimal_be(be_value(s)),
    decreases s.len(),
{
    if s.len() == 0 {
    } else if s[0] == 0 {
        let t = s.drop_first();
        lemma_trimmed_is_minimal(t);
        assert(zeros(1) + t =~= s);
        lemma_padding_keeps_value(1, t);
    } else {
        lemma_leading_digit(s);
        let init = s.drop_last();
        assert(be_value(s) / 256 == be_value(init));
        assert(be_value(s) % 256 == s.last());
        if init.len() > 0 {
            lemma_trimmed_is_minimal(init);
        } else {
            assert(minimal_be(0) =~= init);
        }
        assert(minimal_be(be_value(s)) =~= s);
    }
}

proof fn lemma_leading_digit(s: Seq<u8>)
    requires
        s.len() > 0,
        s[0] != 0,
    ensures
        be_value(s) > 0,
    decreases s.len(),
{
    if s.len() > 1 {
        lemma_leading_digit(s.drop_last());
    }
}

/// Bytes spell a number in base 256, the first ones counting most: a byte spells itself, and of two
/// byte strings one behind the other, the first counts as many times 256 as the second has bytes.
pub proof fn law_big_endian(a: Seq<u8>, b: Seq<u8>, x: u8)
    ensures
        be_value(Seq::empty()) == 0,
        be_value(seq![x]) == x,
        be_value(a + b) == be_value(a) * pow(256, b.len()) + be_value(b),
    decreases b.len(),
{
    let one = seq![x];
    assert(one.drop_last() =~= Seq::<u8>::empty());
    assert(be_value(one.drop_last()) == 0);
    lemma_pow0(256);
    if b.len() == 0 {
        assert(a + b =~= a);
        assert(be_value(a) * 1 == be_value(a));
    } else {
        let f = b.drop_last();
        law_big_endian(a, f, x);
        assert((a + b).drop_last() =~= a + f);
        assert((a + b).last() == b.last());
        vstd::arithmetic::power::lemma_pow_adds(256, f.len(), 1);
        vstd::arithmetic::power::lemma_pow1(256);
        let v = be_value(a) as int;
        let p = pow(256, f.len());
        assert((v * p) * 256 == v * (p * 256)) by (nonlinear_arith);
    }
}

// ---- executable forms -----------------------------------------------------------------

/// Puts the bytes of `s` behind those of `v`.
pub fn extend(v: &mut Vec<u8>, s: &[u8])
    ensures
        final(v)@ == old(v)@ + s@,
{
    let ghost before = v@;
    v.extend_from_slice(s);
    assert(v@ =~= before + s@);
}

/// The 20 bytes of `b` as an array.
pub fn array20(b: &[u8]) -> (out: [u8; 20])
    requires
        b@.len() == 20,
    ensures
        out@ == b@,
{
    let mut out: [u8; 20] = [0u8; 20];
    let mut i: usize = 0;
    while i < 20
        invariant
            i <= 20,
            b@.len() == 20,
            forall|k: int| 0 <= k < i ==> out@[k] == b@[k],
        decreases 20 - i,
    {
        out[i] = b[i];
        i += 1;
    }
    assert(out@ =~= b@);
    out
}

/// The 32 bytes of `b` as an array.
pub fn array32(b: &[u8]) -> (out: [u8; 32])
    requires
        b@.len() == 32,
    ensures
        out@ == b@,
{
    let out = left_pad32(b);
    assert(out@ =~= b@);
    out
}

/// `v` in `width` big-endian bytes.
pub fn be_vec(v: u128, width: usize) -> (out: Vec<u8>)
    ensures
        out@ == be_bytes(v as nat, width as nat),
    decreases width,
{
    if width == 0 {
        Vec::new()
    } else {
        let mut out = be_vec(v / 256, width - 1);
        out.push((v % 256) as u8);
        out
    }
}

/// `b` without its leading zero bytes.
pub fn trim_left(b: &[u8]) -> (out: Vec<u8>)
    ensures
        out@ == without_leading_zeros(b@),
{
    let n: usize = b.len();
    let mut i: usize = 0;
    assert(b@.subrange(0, n as int) =~= b@);
    while i < n && b[i] == 0
        invariant
            i <= n,
            n == b@.len(),
            without_leading_zeros(b@) == without_leading_zeros(b@.subrange(i as int, n as int)),
        decreases n - i,
    {
        assert(b@.subrange(i as int, n as int).drop_first() =~= b@.subrange(i + 1, n as int));
        i += 1;
    }
    slice_to_vec(vstd::slice::slice_subrange(b, i, n))
}

/// The shortest big-endian form of `v`.
pub fn min_be(v: u128) -> (out: Vec<u8>)
    ensures
        out@ == minimal_be(v as nat),
{
    let full = be_vec(v, 16);
    proof {
        assert(pow(256, 16) == 0x1_0000_0000_0000_0000_0000_0000_0000_0000int) by {
            reveal(pow);
            reveal_with_fuel(pow, 17);
        }
        lemma_be_round_trip(v as nat, 16);
        lemma_trimmed_is_minimal(full@);
    }
    trim_left(full.as_slice())
}

/// The first 32 bytes of `b`, with zero bytes behind it if it has fewer.
pub fn right_pad32(b: &[u8]) -> (out: [u8; 32])
    ensures
        out@ == right_padded32(b@),
{
    let mut out: [u8; 32] = [0u8; 32];
    let n: usize = if b.len() < 32 { b.len() } else { 32 };
    let mut i: usize = 0;
    while i < n
        invariant
            i <= n,
            n <= 32,
            n <= b@.len(),
            forall|k: int| 0 <= k < i ==> out@[k] == b@[k],
            forall|k: int| n <= k < 32 ==> out@[k] == 0,
        decreases n - i,
    {
        out[i] = b[i];
        i += 1;
    }
    assert(out@ =~= right_padded32(b@));
    out
}

/// `bytes` as the low end of a 32-byte word.
pub fn left_pad32(bytes: &[u8]) -> (out: [u8; 32])
    requires
        bytes@.len() <= 32,
    ensures
        out@ == left_padded(bytes@, 32),
{
    let mut out: [u8; 32] = [0u8; 32];
    let n: usize = bytes.len();
    let mut i: usize = 0;
    while i < n
        invariant
            i <= n,
            n == bytes@.len(),
            n <= 32,
            forall|k: int| 0 <= k < 32 - n ==> out@[k] == 0,
            forall|k: int| 32 - n <= k < 32 - n + i ==> out@[k] == bytes@[k - (32 - n)],
        decreases n - i,
    {
        out[32 - n + i] = bytes[i];
        i += 1;
    }
    assert(out@ =~= left_padded(bytes@, 32));
    out
}

/// `v` as a 32-byte big-endian word.
pub fn word(v: u128) -> (out: [u8; 32])
    ensures
        out@ == be_bytes(v as nat, 32),
{
    let mut out: [u8; 32] = [0u8; 32];
    let mut rest: u128 = v;
    let mut i: usize = 32;
    while i > 0
        invariant
            i <= 32,
            be_bytes(v as nat, 32) == be_bytes(rest as nat, i as nat) + out@.subrange(i as int, 32),
        decreases i,
    {
        let digit: u8 = (rest % 256) as u8;
        let ghost before = out@;
        i -= 1;
        out[i] = digit;
        proof {
            assert(be_bytes(rest as nat, (i + 1) as nat) == be_bytes(
                rest as nat / 256,
                i as nat,
            ).push(digit));
            assert(out@.subrange(i as int, 32) =~= seq![digit] + before.subrange(i + 1, 32));
            assert(be_bytes(rest as nat / 256, i as nat).push(digit) + before.subrange(i + 1, 32)
                =~= be_bytes(rest as nat / 256, i as nat) + out@.subrange(i as int, 32));
        }
        rest = rest / 256;
    }
    assert(out@.subrange(0, 32) =~= out@);
    assert(be_bytes(rest as nat, 0) + out@ =~= out@);
    out
}

} // verus!
