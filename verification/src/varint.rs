use crate::error::ProtoCodecError;
use vstd::prelude::*;

verus! {

/// Largest number of seven-bit groups a 32-bit value can occupy.
pub const MAX_GROUPS_32: usize = 5;

/// Largest number of seven-bit groups a 64-bit value can occupy.
pub const MAX_GROUPS_64: usize = 10;

/// 128 to the power `k`: the number of values that fit in `k` groups.
pub open spec fn pow128(k: nat) -> nat
    decreases k,
{
    if k == 0 {
        1
    } else {
        128 * pow128((k - 1) as nat)
    }
}

/// The variable-width encoding of `n`: seven bits per byte, least
/// significant group first, the high bit set on every byte but the last.
pub open spec fn uvar_encoding(n: nat) -> Seq<u8>
    decreases n,
{
    if n < 128 {
        seq![n as u8]
    } else {
        seq![(128 + n % 128) as u8] + uvar_encoding(n / 128)
    }
}

/// The number of seven-bit groups needed to write `n`.
pub open spec fn group_count(n: nat) -> nat
    decreases n,
{
    if n < 128 {
        1
    } else {
        1 + group_count(n / 128)
    }
}

/// What reading one variable-width integer from the front of `s` yields
/// when at most `max_groups` groups are accepted: the value and the number
/// of bytes it occupied, or the reason why there is none.
///
/// A value needs a final byte with the high bit clear. When `max_groups`
/// bytes with the high bit set have gone by, the value is too wide
/// (`Overflow`); when the input ends before that, it is cut short
/// (`TruncatedInput`).
pub open spec fn uvar_parse(s: Seq<u8>, max_groups: nat) -> Result<(nat, nat), ProtoCodecError>
    decreases max_groups,
{
    if max_groups == 0 {
        Err(ProtoCodecError::Overflow)
    } else if s.len() == 0 {
        Err(ProtoCodecError::TruncatedInput)
    } else if s[0] < 128 {
        Ok((s[0] as nat, 1))
    } else {
        match uvar_parse(s.skip(1), (max_groups - 1) as nat) {
            Ok((v, k)) => Ok((((s[0] - 128) + 128 * v) as nat, k + 1)),
            Err(e) => Err(e),
        }
    }
}

/// An unsigned 32-bit value read from the front of `s`.
pub open spec fn var_u32_parse(s: Seq<u8>) -> Result<(u32, nat), ProtoCodecError> {
    match uvar_parse(s, MAX_GROUPS_32 as nat) {
        Ok((v, k)) => if v <= u32::MAX {
            Ok((v as u32, k))
        } else {
            Err(ProtoCodecError::Overflow)
        },
        Err(e) => Err(e),
    }
}

/// An unsigned 64-bit value read from the front of `s`.
pub open spec fn var_u64_parse(s: Seq<u8>) -> Result<(u64, nat), ProtoCodecError> {
    match uvar_parse(s, MAX_GROUPS_64 as nat) {
        Ok((v, k)) => if v <= u64::MAX {
            Ok((v as u64, k))
        } else {
            Err(ProtoCodecError::Overflow)
        },
        Err(e) => Err(e),
    }
}

/// The zigzag image of a signed value: 0, -1, 1, -2, 2, ... become
/// 0, 1, 2, 3, 4, ...
pub open spec fn zigzag(n: int) -> nat {
    if n >= 0 {
        (2 * n) as nat
    } else {
        (-2 * n - 1) as nat
    }
}

/// The signed value whose zigzag image is `z`.
pub open spec fn unzigzag(z: nat) -> int {
    if z % 2 == 0 {
        z as int / 2
    } else {
        -((z as int + 1) / 2)
    }
}

/// A signed 32-bit value read from the front of `s`.
pub open spec fn var_i32_parse(s: Seq<u8>) -> Result<(i32, nat), ProtoCodecError> {
    match var_u32_parse(s) {
        Ok((z, k)) => Ok((unzigzag(z as nat) as i32, k)),
        Err(e) => Err(e),
    }
}

/// A signed 64-bit value read from the front of `s`.
pub open spec fn var_i64_parse(s: Seq<u8>) -> Result<(i64, nat), ProtoCodecError> {
    match var_u64_parse(s) {
        Ok((z, k)) => Ok((unzigzag(z as nat) as i64, k)),
        Err(e) => Err(e),
    }
}

/// An encoding is never empty and is as long as the group count says.
pub proof fn lemma_uvar_encoding_len(n: nat)
    ensures
        uvar_encoding(n).len() == group_count(n),
        group_count(n) >= 1,
    decreases n,
{
    if n >= 128 {
        lemma_uvar_encoding_len(n / 128);
    }
}

/// The encoded length is the least number of seven-bit groups that can
/// hold the value: `n` fits in `k` groups exactly when its encoding is at
/// most `k` bytes long.
pub proof fn lemma_uvar_encoding_minimal(n: nat, k: nat)
    requires
        k >= 1,
    ensures
        n < pow128(k) <==> uvar_encoding(n).len() <= k,
    decreases k,
{
    lemma_uvar_encoding_len(n);
    reveal_with_fuel(pow128, 2);
    if k == 1 {
        if n >= 128 {
            lemma_uvar_encoding_len(n / 128);
        }
    } else {
        if n >= 128 {
            lemma_uvar_encoding_minimal(n / 128, (k - 1) as nat);
            lemma_uvar_encoding_len(n / 128);
            let p = pow128((k - 1) as nat);
            assert(n < 128 * p <==> n / 128 < p) by (nonlinear_arith);
        } else {
            lemma_pow128_positive((k - 1) as nat);
        }
    }
}

/// Powers of 128 are at least one.
pub proof fn lemma_pow128_positive(k: nat)
    ensures
        pow128(k) >= 1,
    decreases k,
{
    if k > 0 {
        lemma_pow128_positive((k - 1) as nat);
    }
}

/// Every value below 2^32 is written in at most five bytes, every value
/// below 2^64 in at most ten.
pub proof fn lemma_uvar_encoding_bounds(n: nat)
    ensures
        n <= u32::MAX ==> uvar_encoding(n).len() <= MAX_GROUPS_32,
        n <= u64::MAX ==> uvar_encoding(n).len() <= MAX_GROUPS_64,
{
    reveal_with_fuel(pow128, 11);
    assert(pow128(5) == 0x8_0000_0000);
    assert(pow128(10) == 0x40_0000_0000_0000_0000);
    lemma_uvar_encoding_minimal(n, 5);
    lemma_uvar_encoding_minimal(n, 10);
}

/// A read that succeeds consumes at least one byte, no more bytes than
/// there are, and no more groups than were allowed.
pub proof fn lemma_uvar_parse_consumed(s: Seq<u8>, max_groups: nat)
    ensures
        uvar_parse(s, max_groups) matches Ok((_, k)) ==> 1 <= k <= s.len() && k <= max_groups,
    decreases max_groups,
{
    if max_groups > 0 && s.len() > 0 && s[0] >= 128 {
        lemma_uvar_parse_consumed(s.skip(1), (max_groups - 1) as nat);
    }
}

/// Reading what was written gives the value back, and consumes exactly the
/// bytes of the encoding, whatever follows them.
pub proof fn lemma_uvar_roundtrip(n: nat, rest: Seq<u8>, max_groups: nat)
    requires
        group_count(n) <= max_groups,
    ensures
        uvar_parse(uvar_encoding(n) + rest, max_groups) == Ok::<(nat, nat), ProtoCodecError>(
            (n, group_count(n)),
        ),
    decreases n,
{
    let s = uvar_encoding(n) + rest;
    if n < 128 {
        assert(s[0] == n as u8);
    } else {
        let tail = uvar_encoding(n / 128) + rest;
        assert(s[0] == (128 + n % 128) as u8);
        assert(s.skip(1) =~= tail);
        lemma_uvar_roundtrip(n / 128, rest, (max_groups - 1) as nat);
    }
}

/// An input that is all continuation bytes and shorter than the widest
/// encoding is reported as cut short.
pub proof fn lemma_uvar_unterminated(s: Seq<u8>, max_groups: nat)
    requires
        s.len() < max_groups,
        forall|i: int| 0 <= i < s.len() ==> s[i] >= 128,
    ensures
        uvar_parse(s, max_groups) == Err::<(nat, nat), ProtoCodecError>(
            ProtoCodecError::TruncatedInput,
        ),
    decreases max_groups,
{
    if s.len() > 0 {
        let t = s.skip(1);
        assert forall|i: int| 0 <= i < t.len() implies t[i] >= 128 by {
            assert(t[i] == s[i + 1]);
        }
        lemma_uvar_unterminated(t, (max_groups - 1) as nat);
    }
}

/// Zigzag is undone by its inverse on every integer.
pub proof fn lemma_zigzag_roundtrip(n: int)
    ensures
        unzigzag(zigzag(n)) == n,
{
}

/// The zigzag image of a 32-bit value fits in 32 bits, that of a 64-bit
/// value in 64.
pub proof fn lemma_zigzag_bounds(n: int)
    ensures
        i32::MIN <= n <= i32::MAX ==> zigzag(n) <= u32::MAX,
        i64::MIN <= n <= i64::MAX ==> zigzag(n) <= u64::MAX,
        0 <= zigzag(n) <= u32::MAX ==> i32::MIN <= n <= i32::MAX,
{
}

/// An unsigned 32-bit value survives being written and read back, whatever
/// follows it in the input, and the read consumes exactly what was written.
pub proof fn lemma_var_u32_roundtrip(v: u32, rest: Seq<u8>)
    ensures
        var_u32_parse(uvar_encoding(v as nat) + rest) == Ok::<(u32, nat), ProtoCodecError>(
            (v, uvar_encoding(v as nat).len()),
        ),
        1 <= uvar_encoding(v as nat).len() <= MAX_GROUPS_32,
{
    lemma_uvar_encoding_len(v as nat);
    lemma_uvar_encoding_bounds(v as nat);
    lemma_uvar_roundtrip(v as nat, rest, MAX_GROUPS_32 as nat);
}

/// An unsigned 64-bit value survives being written and read back.
pub proof fn lemma_var_u64_roundtrip(v: u64, rest: Seq<u8>)
    ensures
        var_u64_parse(uvar_encoding(v as nat) + rest) == Ok::<(u64, nat), ProtoCodecError>(
            (v, uvar_encoding(v as nat).len()),
        ),
        1 <= uvar_encoding(v as nat).len() <= MAX_GROUPS_64,
{
    lemma_uvar_encoding_len(v as nat);
    lemma_uvar_encoding_bounds(v as nat);
    lemma_uvar_roundtrip(v as nat, rest, MAX_GROUPS_64 as nat);
}

/// A signed 32-bit value survives being written and read back, from
/// `i32::MIN` to `i32::MAX`.
pub proof fn lemma_var_i32_roundtrip(n: i32, rest: Seq<u8>)
    ensures
        var_i32_parse(uvar_encoding(zigzag(n as int)) + rest) == Ok::<(i32, nat), ProtoCodecError>(
            (n, uvar_encoding(zigzag(n as int)).len()),
        ),
        1 <= uvar_encoding(zigzag(n as int)).len() <= MAX_GROUPS_32,
{
    lemma_zigzag_bounds(n as int);
    lemma_zigzag_roundtrip(n as int);
    lemma_var_u32_roundtrip(zigzag(n as int) as u32, rest);
}

/// A signed 64-bit value survives being written and read back, from
/// `i64::MIN` to `i64::MAX`.
pub proof fn lemma_var_i64_roundtrip(n: i64, rest: Seq<u8>)
    ensures
        var_i64_parse(uvar_encoding(zigzag(n as int)) + rest) == Ok::<(i64, nat), ProtoCodecError>(
            (n, uvar_encoding(zigzag(n as int)).len()),
        ),
        1 <= uvar_encoding(zigzag(n as int)).len() <= MAX_GROUPS_64,
{
    lemma_zigzag_bounds(n as int);
    lemma_zigzag_roundtrip(n as int);
    lemma_var_u64_roundtrip(zigzag(n as int) as u64, rest);
}

/// A 32-bit read of an input that is nothing but continuation bytes, and
/// fewer of them than a 32-bit value may have groups, fails as cut short.
pub proof fn lemma_var_u32_unterminated(s: Seq<u8>)
    requires
        s.len() < MAX_GROUPS_32,
        forall|i: int| 0 <= i < s.len() ==> s[i] >= 128,
    ensures
        var_u32_parse(s) == Err::<(u32, nat), ProtoCodecError>(ProtoCodecError::TruncatedInput),
        var_i32_parse(s) == Err::<(i32, nat), ProtoCodecError>(ProtoCodecError::TruncatedInput),
{
    lemma_uvar_unterminated(s, MAX_GROUPS_32 as nat);
}

/// A 64-bit read of an input that is nothing but continuation bytes, and
/// fewer of them than a 64-bit value may have groups, fails as cut short.
pub proof fn lemma_var_u64_unterminated(s: Seq<u8>)
    requires
        s.len() < MAX_GROUPS_64,
        forall|i: int| 0 <= i < s.len() ==> s[i] >= 128,
    ensures
        var_u64_parse(s) == Err::<(u64, nat), ProtoCodecError>(ProtoCodecError::TruncatedInput),
        var_i64_parse(s) == Err::<(i64, nat), ProtoCodecError>(ProtoCodecError::TruncatedInput),
{
    lemma_uvar_unterminated(s, MAX_GROUPS_64 as nat);
}

/// Maps a signed 32-bit value to the unsigned value that goes on the wire.
pub fn zigzag_encode_i32(n: i32) -> (z: u32)
    ensures
        z == zigzag(n as int),
{
    let z: u32 = ((n as u32) << 1) ^ ((n >> 31) as u32);
    assert(n >= 0 ==> z == 2 * n) by (bit_vector)
        requires
            z == ((n as u32) << 1) ^ ((n >> 31) as u32),
    ;
    assert(n < 0 ==> z == -2 * n - 1) by (bit_vector)
        requires
            z == ((n as u32) << 1) ^ ((n >> 31) as u32),
    ;
    z
}

/// Maps a signed 64-bit value to the unsigned value that goes on the wire.
pub fn zigzag_encode_i64(n: i64) -> (z: u64)
    ensures
        z == zigzag(n as int),
{
    let z: u64 = ((n as u64) << 1) ^ ((n >> 63) as u64);
    assert(n >= 0 ==> z == 2 * n) by (bit_vector)
        requires
            z == ((n as u64) << 1) ^ ((n >> 63) as u64),
    ;
    assert(n < 0 ==> z == -2 * n - 1) by (bit_vector)
        requires
            z == ((n as u64) << 1) ^ ((n >> 63) as u64),
    ;
    z
}

/// Maps an unsigned value from the wire back to the signed value it stands for.
pub fn zigzag_decode_i32(z: u32) -> (n: i32)
    ensures
        n == unzigzag(z as nat),
{
    let half: u32 = z / 2;
    let n: i32 = if z % 2 == 0 {
        half as i32
    } else {
        -(half as i32) - 1
    };
    n
}

/// Maps an unsigned value from the wire back to the signed value it stands for.
pub fn zigzag_decode_i64(z: u64) -> (n: i64)
    ensures
        n == unzigzag(z as nat),
{
    let half: u64 = z / 2;
    let n: i64 = if z % 2 == 0 {
        half as i64
    } else {
        -(half as i64) - 1
    };
    n
}

} // verus!
