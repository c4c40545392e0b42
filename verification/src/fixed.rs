use crate::error::ProtoCodecError;
use vstd::prelude::*;

verus! {

/// 256 to the power `k`: the number of values that fit in `k` bytes.
pub open spec fn pow256(k: nat) -> nat
    decreases k,
{
    if k == 0 {
        1
    } else {
        256 * pow256((k - 1) as nat)
    }
}

/// The little-endian encoding of `n` in exactly `width` bytes: the least
/// significant byte comes first.
pub open spec fn le_encoding(n: nat, width: nat) -> Seq<u8>
    decreases width,
{
    if width == 0 {
        Seq::empty()
    } else {
        seq![(n % 256) as u8] + le_encoding(n / 256, (width - 1) as nat)
    }
}

/// The number that the bytes of `s` spell in little-endian order.
pub open spec fn le_value(s: Seq<u8>) -> nat
    decreases s.len(),
{
    if s.len() == 0 {
        0
    } else {
        s[0] as nat + 256 * le_value(s.skip(1))
    }
}

/// The unsigned number with the same two's complement representation as
/// `n` in `width` bytes.
pub open spec fn to_unsigned(n: int, width: nat) -> nat {
    if n >= 0 {
        n as nat
    } else {
        (n + pow256(width)) as nat
    }
}

/// The signed number with the same two's complement representation as `u`
/// in `width` bytes.
pub open spec fn to_signed(u: nat, width: nat) -> int {
    if 2 * u < pow256(width) {
        u as int
    } else {
        u - pow256(width)
    }
}

/// What a value of `width` bytes at the front of `s` is, read as a
/// little-endian unsigned number, and how many bytes it occupies.
pub open spec fn le_parse(s: Seq<u8>, width: nat) -> Result<(nat, nat), ProtoCodecError> {
    if s.len() < width {
        Err(ProtoCodecError::TruncatedInput)
    } else {
        Ok((le_value(s.take(width as int)), width))
    }
}

/// A little-endian `u16` at the front of `s`.
pub open spec fn le_u16_parse(s: Seq<u8>) -> Result<(u16, nat), ProtoCodecError> {
    match le_parse(s, 2) {
        Ok((v, k)) => Ok((v as u16, k)),
        Err(e) => Err(e),
    }
}

/// A little-endian `u32` at the front of `s`.
pub open spec fn le_u32_parse(s: Seq<u8>) -> Result<(u32, nat), ProtoCodecError> {
    match le_parse(s, 4) {
        Ok((v, k)) => Ok((v as u32, k)),
        Err(e) => Err(e),
    }
}

/// A little-endian `u64` at the front of `s`.
pub open spec fn le_u64_parse(s: Seq<u8>) -> Result<(u64, nat), ProtoCodecError> {
    match le_parse(s, 8) {
        Ok((v, k)) => Ok((v as u64, k)),
        Err(e) => Err(e),
    }
}

/// A little-endian two's complement `i32` at the front of `s`.
pub open spec fn le_i32_parse(s: Seq<u8>) -> Result<(i32, nat), ProtoCodecError> {
    match le_parse(s, 4) {
        Ok((v, k)) => Ok((to_signed(v, 4) as i32, k)),
        Err(e) => Err(e),
    }
}

/// A little-endian two's complement `i64` at the front of `s`.
pub open spec fn le_i64_parse(s: Seq<u8>) -> Result<(i64, nat), ProtoCodecError> {
    match le_parse(s, 8) {
        Ok((v, k)) => Ok((to_signed(v, 8) as i64, k)),
        Err(e) => Err(e),
    }
}

/// The first powers of 256.
pub proof fn lemma_pow256_values()
    ensures
        pow256(0) == 1,
        pow256(1) == 0x100,
        pow256(2) == 0x1_0000,
        pow256(3) == 0x100_0000,
        pow256(4) == 0x1_0000_0000,
        pow256(5) == 0x100_0000_0000,
        pow256(6) == 0x1_0000_0000_0000,
        pow256(7) == 0x100_0000_0000_0000,
        pow256(8) == 0x1_0000_0000_0000_0000,
{
    reveal_with_fuel(pow256, 9);
}

/// An encoding has exactly the width asked for.
pub proof fn lemma_le_encoding_len(n: nat, width: nat)
    ensures
        le_encoding(n, width).len() == width,
    decreases width,
{
    if width > 0 {
        lemma_le_encoding_len(n / 256, (width - 1) as nat);
    }
}

/// Any run of bytes spells a number below 256 to the power of its length.
pub proof fn lemma_le_value_bound(s: Seq<u8>)
    ensures
        le_value(s) < pow256(s.len()),
    decreases s.len(),
{
    if s.len() > 0 {
        lemma_le_value_bound(s.skip(1));
    }
}

/// Reading the fixed-width encoding of a number that fits gives it back.
pub proof fn lemma_le_roundtrip(n: nat, width: nat)
    requires
        n < pow256(width),
    ensures
        le_value(le_encoding(n, width)) == n,
    decreases width,
{
    if width > 0 {
        let s = le_encoding(n, width);
        let t = le_encoding(n / 256, (width - 1) as nat);
        assert(s.skip(1) =~= t);
        assert(s[0] == (n % 256) as u8);
        let p = pow256((width - 1) as nat);
        assert(n / 256 < p) by (nonlinear_arith)
            requires
                n < 256 * p,
        ;
        lemma_le_roundtrip(n / 256, (width - 1) as nat);
    }
}

/// Writing the number that a run of bytes spells gives the bytes back.
pub proof fn lemma_le_encoding_of_value(s: Seq<u8>)
    ensures
        le_encoding(le_value(s), s.len()) == s,
    decreases s.len(),
{
    if s.len() > 0 {
        let t = s.skip(1);
        lemma_le_encoding_of_value(t);
        let n = le_value(s);
        assert(n % 256 == s[0] as nat && n / 256 == le_value(t)) by (nonlinear_arith)
            requires
                n == s[0] as nat + 256 * le_value(t),
                s[0] < 256,
        ;
        assert(le_encoding(n, s.len()) =~= s);
    } else {
        assert(le_encoding(le_value(s), s.len()) =~= s);
    }
}

/// The two's complement maps are inverse to each other on the signed
/// values of their width.
pub proof fn lemma_signed_roundtrip(n: int, width: nat)
    requires
        -(pow256(width) as int) <= 2 * n < pow256(width),
    ensures
        to_signed(to_unsigned(n, width), width) == n,
        to_unsigned(n, width) < pow256(width),
{
}

/// The two's complement maps are inverse to each other on the unsigned
/// values of their width.
pub proof fn lemma_unsigned_roundtrip(u: nat, width: nat)
    requires
        u < pow256(width),
    ensures
        to_unsigned(to_signed(u, width), width) == u,
        -(pow256(width) as int) <= 2 * to_signed(u, width) < pow256(width),
{
}

/// An unsigned value of `width` bytes survives being written and read
/// back, whatever follows it in the input.
pub proof fn lemma_le_parse_roundtrip(n: nat, width: nat, rest: Seq<u8>)
    requires
        n < pow256(width),
    ensures
        le_parse(le_encoding(n, width) + rest, width) == Ok::<(nat, nat), ProtoCodecError>(
            (n, width),
        ),
{
    lemma_le_encoding_len(n, width);
    lemma_le_roundtrip(n, width);
    assert((le_encoding(n, width) + rest).take(width as int) =~= le_encoding(n, width));
}

/// A signed value of `width` bytes survives being written and read back.
pub proof fn lemma_le_parse_signed_roundtrip(n: int, width: nat, rest: Seq<u8>)
    requires
        -(pow256(width) as int) <= 2 * n < pow256(width),
    ensures
        match le_parse(le_encoding(to_unsigned(n, width), width) + rest, width) {
            Ok((v, k)) => to_signed(v, width) == n && k == width,
            Err(_) => false,
        },
{
    lemma_signed_roundtrip(n, width);
    lemma_le_parse_roundtrip(to_unsigned(n, width), width, rest);
}

} // verus!
