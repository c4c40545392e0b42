use crate::error::ProtoCodecError;
use crate::fixed::{
    le_encoding, le_i32_parse, le_i64_parse, le_parse, le_u16_parse, le_u32_parse, le_u64_parse,
    le_value, lemma_le_value_bound, lemma_pow256_values, pow256, to_unsigned,
};
use crate::varint::{
    pow128, uvar_encoding, uvar_parse, var_i32_parse, var_i64_parse, var_u32_parse, var_u64_parse,
    zigzag, zigzag_decode_i32, zigzag_decode_i64, zigzag_encode_i32, zigzag_encode_i64,
    MAX_GROUPS_32, MAX_GROUPS_64,
};
use vstd::prelude::*;

verus! {

/// A read position in a borrowed run of bytes.
///
/// Every read either succeeds and moves past exactly the bytes of the
/// value, or fails and leaves the position where it was.
#[derive(Clone, Copy)]
pub struct ByteReader<'a> {
    data: &'a [u8],
    pos: usize,
}

/// What the next `n` bytes at the front of `s` are.
pub open spec fn bytes_parse(s: Seq<u8>, n: nat) -> Result<(Seq<u8>, nat), ProtoCodecError> {
    if s.len() < n {
        Err(ProtoCodecError::TruncatedInput)
    } else {
        Ok((s.take(n as int), n))
    }
}

spec fn lift(
    r: Result<(nat, nat), ProtoCodecError>,
    acc: nat,
    mult: nat,
    i: nat,
) -> Result<(nat, nat), ProtoCodecError> {
    match r {
        Ok((v, k)) => Ok((acc + mult * v, k + i)),
        Err(e) => Err(e),
    }
}

proof fn lemma_pow128_values()
    ensures
        pow128(0) == 1,
        pow128(1) == 0x80,
        pow128(2) == 0x4000,
        pow128(3) == 0x20_0000,
        pow128(4) == 0x1000_0000,
        pow128(5) == 0x8_0000_0000,
        pow128(6) == 0x400_0000_0000,
        pow128(7) == 0x2_0000_0000_0000,
        pow128(8) == 0x100_0000_0000_0000,
        pow128(9) == 0x8000_0000_0000_0000,
        pow128(10) == 0x40_0000_0000_0000_0000,
{
    reveal_with_fuel(pow128, 11);
}

proof fn lemma_lift_step(s: Seq<u8>, i: nat, groups: nat, acc: nat, mult: nat)
    requires
        i < groups,
        i < s.len(),
        s[i as int] >= 128,
    ensures
        lift(uvar_parse(s.skip(i as int), (groups - i) as nat), acc, mult, i) == lift(
            uvar_parse(s.skip(i as int + 1), (groups - i - 1) as nat),
            acc + mult * (s[i as int] - 128) as nat,
            mult * 128,
            i + 1,
        ),
{
    let here = s.skip(i as int);
    assert(here[0] == s[i as int]);
    assert(here.skip(1) =~= s.skip(i as int + 1));
    let b = (s[i as int] - 128) as nat;
    match uvar_parse(s.skip(i as int + 1), (groups - i - 1) as nat) {
        Ok((v, k)) => {
            assert(acc + mult * (b + 128 * v) == (acc + mult * b) + (mult * 128) * v)
                by (nonlinear_arith);
        },
        Err(e) => {},
    }
}

/// Scans one variable-width integer of at most `max_groups` groups that
/// starts at `start`.
fn scan_uvar(data: &[u8], start: usize, max_groups: usize) -> (r: Result<
    (u128, usize),
    ProtoCodecError,
>)
    requires
        start <= data@.len(),
        max_groups <= MAX_GROUPS_64,
    ensures
        match uvar_parse(data@.skip(start as int), max_groups as nat) {
            Ok((v, k)) => r == Ok::<(u128, usize), ProtoCodecError>((v as u128, k as usize))
                && v < pow128(max_groups as nat) && v <= u128::MAX && 1 <= k <= max_groups
                && start + k <= data@.len(),
            Err(e) => r == Err::<(u128, usize), ProtoCodecError>(e),
        },
{
    let ghost s = data@.skip(start as int);
    let mut acc: u128 = 0;
    let mut mult: u128 = 1;
    let mut i: usize = 0;
    let len: usize = data.len();
    proof {
        lemma_pow128_values();
        assert(s.skip(0) =~= s);
    }
    while i < max_groups
        invariant
            i <= max_groups <= MAX_GROUPS_64,
            len == data@.len(),
            start + i <= len,
            s == data@.skip(start as int),
            mult == pow128(i as nat),
            acc < mult,
            uvar_parse(s, max_groups as nat) == lift(
                uvar_parse(s.skip(i as int), (max_groups - i) as nat),
                acc as nat,
                mult as nat,
                i as nat,
            ),
        decreases max_groups - i,
    {
        proof {
            lemma_pow128_values();
            reveal_with_fuel(pow128, 2);
        }
        if start + i >= len {
            assert(s.skip(i as int).len() == 0);
            return Err(ProtoCodecError::TruncatedInput);
        }
        let b: u8 = data[start + i];
        assert(s.skip(i as int)[0] == b);
        assert(mult <= 0x8000_0000_0000_0000);
        if b < 128 {
            assert(mult * b <= mult * 127) by (nonlinear_arith)
                requires
                    b <= 127,
                    mult >= 0,
            ;
            let v: u128 = acc + mult * (b as u128);
            assert(v < pow128(max_groups as nat)) by {
                assert(acc + mult * b < mult * 128) by (nonlinear_arith)
                    requires
                        acc < mult,
                        b <= 127,
                ;
                lemma_pow128_monotonic((i + 1) as nat, max_groups as nat);
            }
            return Ok((v, i + 1));
        }
        proof {
            lemma_lift_step(s, i as nat, max_groups as nat, acc as nat, mult as nat);
            assert(mult * (b - 128) <= mult * 127) by (nonlinear_arith)
                requires
                    128 <= b <= 255,
                    mult >= 0,
            ;
            assert(acc + mult * (b - 128) < mult * 128) by (nonlinear_arith)
                requires
                    acc < mult,
                    128 <= b <= 255,
            ;
        }
        acc = acc + mult * ((b - 128) as u128);
        mult = mult * 128;
        i = i + 1;
    }
    Err(ProtoCodecError::Overflow)
}

proof fn lemma_pow128_monotonic(a: nat, b: nat)
    requires
        a <= b,
    ensures
        pow128(a) <= pow128(b),
    decreases b,
{
    if a < b {
        lemma_pow128_monotonic(a, (b - 1) as nat);
    }
}

/// The outcome `r` of a read that took a reader from `pre` to `post`
/// agrees with `expected`, the value and width that the bytes in front of
/// `pre` spell: on success the reader has moved past exactly those bytes,
/// on failure it has not moved.
pub open spec fn read_outcome<T>(
    pre: ByteReader,
    post: ByteReader,
    r: Result<T, ProtoCodecError>,
    expected: Result<(T, nat), ProtoCodecError>,
) -> bool {
    &&& post.source() == pre.source()
    &&& post.offset() <= post.source().len()
    &&& match expected {
        Ok((v, k)) => r == Ok::<T, ProtoCodecError>(v) && post.offset() == pre.offset() + k,
        Err(e) => r == Err::<T, ProtoCodecError>(e) && post.offset() == pre.offset(),
    }
}

impl<'a> ByteReader<'a> {
    #[verifier::type_invariant]
    spec fn in_bounds(self) -> bool {
        self.pos <= self.data@.len()
    }

    /// All the bytes the reader was made over.
    pub closed spec fn source(&self) -> Seq<u8> {
        self.data@
    }

    /// How many bytes have been read.
    pub closed spec fn offset(&self) -> nat {
        self.pos as nat
    }

    /// The bytes that have not been read yet.
    pub open spec fn remaining(&self) -> Seq<u8> {
        self.source().skip(self.offset() as int)
    }

    /// A reader at the start of `data`.
    pub fn new(data: &'a [u8]) -> (r: Self)
        ensures
            r.source() == data@,
            r.offset() == 0,
    {
        ByteReader { data, pos: 0 }
    }

    /// The number of bytes read so far.
    pub fn position(&self) -> (p: usize)
        ensures
            p == self.offset(),
            p <= self.source().len(),
    {
        proof {
            use_type_invariant(self);
        }
        self.pos
    }

    /// The number of bytes left to read.
    pub fn remaining_len(&self) -> (n: usize)
        ensures
            n == self.remaining().len(),
            n == self.source().len() - self.offset(),
    {
        proof {
            use_type_invariant(self);
        }
        self.data.len() - self.pos
    }

    /// Whether every byte has been read.
    pub fn is_exhausted(&self) -> (b: bool)
        ensures
            b == (self.remaining().len() == 0),
    {
        proof {
            use_type_invariant(self);
        }
        self.pos == self.data.len()
    }

    /// Reads one byte.
    pub fn read_u8(&mut self) -> (r: Result<u8, ProtoCodecError>)
        ensures
            read_outcome(
                *old(self),
                *final(self),
                r,
                if old(self).remaining().len() > 0 {
                    Ok((old(self).remaining()[0], 1nat))
                } else {
                    Err(ProtoCodecError::TruncatedInput)
                },
            ),
    {
        proof {
            use_type_invariant(&*self);
        }
        if self.pos >= self.data.len() {
            return Err(ProtoCodecError::TruncatedInput);
        }
        let b = self.data[self.pos];
        self.pos = self.pos + 1;
        Ok(b)
    }

    /// Reads the next `n` bytes.
    pub fn read_bytes(&mut self, n: usize) -> (r: Result<Vec<u8>, ProtoCodecError>)
        ensures
            final(self).source() == old(self).source(),
            final(self).offset() <= final(self).source().len(),
            match bytes_parse(old(self).remaining(), n as nat) {
                Ok((bytes, k)) => r is Ok && r->Ok_0@ == bytes && final(self).offset() == old(
                    self,
                ).offset() + k,
                Err(e) => r == Err::<Vec<u8>, ProtoCodecError>(e) && final(self).offset() == old(
                    self,
                ).offset(),
            },
    {
        proof {
            use_type_invariant(&*self);
        }
        if self.data.len() - self.pos < n {
            return Err(ProtoCodecError::TruncatedInput);
        }
        let mut out: Vec<u8> = Vec::new();
        let mut i: usize = 0;
        let start: usize = self.pos;
        let data: &[u8] = self.data;
        let len: usize = data.len();
        while i < n
            invariant
                i <= n,
                len == data@.len(),
                start + n <= len,
                out@ == data@.subrange(start as int, start + i),
            decreases n - i,
        {
            out.push(data[start + i]);
            i = i + 1;
            assert(out@ =~= data@.subrange(start as int, start + i));
        }
        self.pos = start + n;
        assert(out@ =~= old(self).remaining().take(n as int));
        Ok(out)
    }

    /// Reads an unsigned 32-bit value in variable-width form.
    pub fn read_var_u32(&mut self) -> (r: Result<u32, ProtoCodecError>)
        ensures
            read_outcome(*old(self), *final(self), r, var_u32_parse(old(self).remaining())),
    {
        proof {
            use_type_invariant(&*self);
        }
        let len: usize = self.data.len();
        match scan_uvar(self.data, self.pos, MAX_GROUPS_32) {
            Ok((v, k)) => {
                if v > u32::MAX as u128 {
                    Err(ProtoCodecError::Overflow)
                } else {
                    self.pos = self.pos + k;
                    Ok(v as u32)
                }
            },
            Err(e) => Err(e),
        }
    }

    /// Reads an unsigned 64-bit value in variable-width form.
    pub fn read_var_u64(&mut self) -> (r: Result<u64, ProtoCodecError>)
        ensures
            read_outcome(*old(self), *final(self), r, var_u64_parse(old(self).remaining())),
    {
        proof {
            use_type_invariant(&*self);
        }
        let len: usize = self.data.len();
        match scan_uvar(self.data, self.pos, MAX_GROUPS_64) {
            Ok((v, k)) => {
                if v > u64::MAX as u128 {
                    Err(ProtoCodecError::Overflow)
                } else {
                    self.pos = self.pos + k;
                    Ok(v as u64)
                }
            },
            Err(e) => Err(e),
        }
    }

    /// Reads a signed 32-bit value in zigzag variable-width form.
    pub fn read_var_i32(&mut self) -> (r: Result<i32, ProtoCodecError>)
        ensures
            read_outcome(*old(self), *final(self), r, var_i32_parse(old(self).remaining())),
    {
        match self.read_var_u32() {
            Ok(z) => Ok(zigzag_decode_i32(z)),
            Err(e) => Err(e),
        }
    }

    /// Reads a signed 64-bit value in zigzag variable-width form.
    pub fn read_var_i64(&mut self) -> (r: Result<i64, ProtoCodecError>)
        ensures
            read_outcome(*old(self), *final(self), r, var_i64_parse(old(self).remaining())),
    {
        match self.read_var_u64() {
            Ok(z) => Ok(zigzag_decode_i64(z)),
            Err(e) => Err(e),
        }
    }

    /// Reads an unsigned little-endian value of `width` bytes.
    fn read_le(&mut self, width: usize) -> (r: Result<u64, ProtoCodecError>)
        requires
            width <= 8,
        ensures
            final(self).source() == old(self).source(),
            final(self).offset() <= final(self).source().len(),
            match le_parse(old(self).remaining(), width as nat) {
                Ok((v, k)) => r == Ok::<u64, ProtoCodecError>(v as u64) && v < pow256(
                    width as nat,
                ) && v <= u64::MAX && final(self).offset() == old(self).offset() + k,
                Err(e) => r == Err::<u64, ProtoCodecError>(e) && final(self).offset() == old(
                    self,
                ).offset(),
            },
    {
        proof {
            use_type_invariant(&*self);
            lemma_pow256_values();
        }
        let data: &[u8] = self.data;
        let len: usize = data.len();
        let start: usize = self.pos;
        if len - start < width {
            return Err(ProtoCodecError::TruncatedInput);
        }
        let ghost field = data@.subrange(start as int, start + width);
        let mut acc: u64 = 0;
        let mut i: usize = width;
        assert(field.skip(width as int) =~= Seq::<u8>::empty());
        while i > 0
            invariant
                i <= width <= 8,
                len == data@.len(),
                start + width <= len,
                field == data@.subrange(start as int, start + width),
                acc == le_value(field.skip(i as int)),
            decreases i,
        {
            i = i - 1;
            proof {
                let here = field.skip(i as int);
                assert(here[0] == data@[start + i]);
                assert(here.skip(1) =~= field.skip(i as int + 1));
                lemma_le_value_bound(field.skip(i as int + 1));
                lemma_pow256_values();
                lemma_pow256_monotonic((width - i - 1) as nat, 7);
            }
            acc = acc * 256 + data[start + i] as u64;
        }
        proof {
            assert(field.skip(0) =~= field);
            assert(field =~= old(self).remaining().take(width as int));
            lemma_le_value_bound(field);
            lemma_pow256_monotonic(width as nat, 8);
        }
        self.pos = start + width;
        Ok(acc)
    }

    /// Reads a little-endian `u16`.
    pub fn read_le_u16(&mut self) -> (r: Result<u16, ProtoCodecError>)
        ensures
            read_outcome(*old(self), *final(self), r, le_u16_parse(old(self).remaining())),
    {
        proof {
            lemma_pow256_values();
        }
        match self.read_le(2) {
            Ok(v) => Ok(v as u16),
            Err(e) => Err(e),
        }
    }

    /// Reads a little-endian `u32`.
    pub fn read_le_u32(&mut self) -> (r: Result<u32, ProtoCodecError>)
        ensures
            read_outcome(*old(self), *final(self), r, le_u32_parse(old(self).remaining())),
    {
        proof {
            lemma_pow256_values();
        }
        match self.read_le(4) {
            Ok(v) => Ok(v as u32),
            Err(e) => Err(e),
        }
    }

    /// Reads a little-endian `u64`.
    pub fn read_le_u64(&mut self) -> (r: Result<u64, ProtoCodecError>)
        ensures
            read_outcome(*old(self), *final(self), r, le_u64_parse(old(self).remaining())),
    {
        self.read_le(8)
    }

    /// Reads a little-endian two's complement `i32`.
    pub fn read_le_i32(&mut self) -> (r: Result<i32, ProtoCodecError>)
        ensures
            read_outcome(*old(self), *final(self), r, le_i32_parse(old(self).remaining())),
    {
        proof {
            lemma_pow256_values();
        }
        match self.read_le(4) {
            Ok(v) => {
                let u: u32 = v as u32;
                let n: i32 = u as i32;
                assert(n == (if u < 0x8000_0000u32 {
                    u as int
                } else {
                    u - 0x1_0000_0000
                })) by (bit_vector)
                    requires
                        n == u as i32,
                ;
                Ok(n)
            },
            Err(e) => Err(e),
        }
    }

    /// Reads a little-endian two's complement `i64`.
    pub fn read_le_i64(&mut self) -> (r: Result<i64, ProtoCodecError>)
        ensures
            read_outcome(*old(self), *final(self), r, le_i64_parse(old(self).remaining())),
    {
        proof {
            lemma_pow256_values();
        }
        match self.read_le(8) {
            Ok(u) => {
                let n: i64 = u as i64;
                assert(n == (if u < 0x8000_0000_0000_0000u64 {
                    u as int
                } else {
                    u - 0x1_0000_0000_0000_0000
                })) by (bit_vector)
                    requires
                        n == u as i64,
                ;
                Ok(n)
            },
            Err(e) => Err(e),
        }
    }
}

/// Appends `n` in variable-width form.
fn write_uvar(out: &mut Vec<u8>, n: u64)
    ensures
        final(out)@ == old(out)@ + uvar_encoding(n as nat),
{
    let mut v: u64 = n;
    assert(out@ + uvar_encoding(v as nat) =~= old(out)@ + uvar_encoding(n as nat));
    while v >= 128
        invariant
            out@ + uvar_encoding(v as nat) == old(out)@ + uvar_encoding(n as nat),
        decreases v,
    {
        let ghost before = out@;
        let b: u8 = (128 + v % 128) as u8;
        out.push(b);
        proof {
            assert(uvar_encoding(v as nat) =~= seq![b] + uvar_encoding((v / 128) as nat));
            assert(out@ + uvar_encoding((v / 128) as nat) =~= before + uvar_encoding(v as nat));
        }
        v = v / 128;
    }
    let ghost before = out@;
    out.push(v as u8);
    assert(out@ =~= before + uvar_encoding(v as nat));
}

/// Appends an unsigned 32-bit value in variable-width form.
pub fn write_var_u32(out: &mut Vec<u8>, v: u32)
    ensures
        final(out)@ == old(out)@ + uvar_encoding(v as nat),
{
    write_uvar(out, v as u64)
}

/// Appends an unsigned 64-bit value in variable-width form.
pub fn write_var_u64(out: &mut Vec<u8>, v: u64)
    ensures
        final(out)@ == old(out)@ + uvar_encoding(v as nat),
{
    write_uvar(out, v)
}

/// Appends a signed 32-bit value in zigzag variable-width form.
pub fn write_var_i32(out: &mut Vec<u8>, n: i32)
    ensures
        final(out)@ == old(out)@ + uvar_encoding(zigzag(n as int)),
{
    write_uvar(out, zigzag_encode_i32(n) as u64)
}

/// Appends a signed 64-bit value in zigzag variable-width form.
pub fn write_var_i64(out: &mut Vec<u8>, n: i64)
    ensures
        final(out)@ == old(out)@ + uvar_encoding(zigzag(n as int)),
{
    write_uvar(out, zigzag_encode_i64(n))
}

/// Appends the low `width` bytes of `n`, least significant first.
fn write_le(out: &mut Vec<u8>, n: u64, width: usize)
    requires
        width <= 8,
    ensures
        final(out)@ == old(out)@ + le_encoding(n as nat, width as nat),
{
    let mut v: u64 = n;
    let mut i: usize = 0;
    assert(out@ + le_encoding(v as nat, width as nat) =~= old(out)@ + le_encoding(
        n as nat,
        width as nat,
    ));
    while i < width
        invariant
            i <= width,
            out@ + le_encoding(v as nat, (width - i) as nat) == old(out)@ + le_encoding(
                n as nat,
                width as nat,
            ),
        decreases width - i,
    {
        let ghost before = out@;
        let b: u8 = (v % 256) as u8;
        out.push(b);
        proof {
            assert(le_encoding(v as nat, (width - i) as nat) =~= seq![b] + le_encoding(
                (v / 256) as nat,
                (width - i - 1) as nat,
            ));
            assert(out@ + le_encoding((v / 256) as nat, (width - i - 1) as nat) =~= before
                + le_encoding(v as nat, (width - i) as nat));
        }
        v = v / 256;
        i = i + 1;
    }
    assert(le_encoding(v as nat, 0) =~= Seq::<u8>::empty());
    assert(out@ =~= out@ + Seq::<u8>::empty());
}

/// Appends one byte.
pub fn write_u8(out: &mut Vec<u8>, b: u8)
    ensures
        final(out)@ == old(out)@.push(b),
{
    out.push(b);
}

/// Appends a run of bytes as it stands.
pub fn write_bytes(out: &mut Vec<u8>, bytes: &[u8])
    ensures
        final(out)@ == old(out)@ + bytes@,
{
    out.extend_from_slice(bytes);
}

/// Appends a `u16` in little-endian order.
pub fn write_le_u16(out: &mut Vec<u8>, v: u16)
    ensures
        final(out)@ == old(out)@ + le_encoding(v as nat, 2),
{
    write_le(out, v as u64, 2)
}

/// Appends a `u32` in little-endian order.
pub fn write_le_u32(out: &mut Vec<u8>, v: u32)
    ensures
        final(out)@ == old(out)@ + le_encoding(v as nat, 4),
{
    write_le(out, v as u64, 4)
}

/// Appends a `u64` in little-endian order.
pub fn write_le_u64(out: &mut Vec<u8>, v: u64)
    ensures
        final(out)@ == old(out)@ + le_encoding(v as nat, 8),
{
    write_le(out, v, 8)
}

/// Appends an `i32` in little-endian two's complement.
pub fn write_le_i32(out: &mut Vec<u8>, n: i32)
    ensures
        final(out)@ == old(out)@ + le_encoding(to_unsigned(n as int, 4), 4),
{
    let u: u32 = n as u32;
    assert(u == (if n >= 0 {
        n as int
    } else {
        n + 0x1_0000_0000
    })) by (bit_vector)
        requires
            u == n as u32,
    ;
    proof {
        lemma_pow256_values();
    }
    write_le(out, u as u64, 4)
}

/// Appends an `i64` in little-endian two's complement.
pub fn write_le_i64(out: &mut Vec<u8>, n: i64)
    ensures
        final(out)@ == old(out)@ + le_encoding(to_unsigned(n as int, 8), 8),
{
    let u: u64 = n as u64;
    assert(u == (if n >= 0 {
        n as int
    } else {
        n + 0x1_0000_0000_0000_0000
    })) by (bit_vector)
        requires
            u == n as u64,
    ;
    proof {
        lemma_pow256_values();
    }
    write_le(out, u, 8)
}

proof fn lemma_pow256_monotonic(a: nat, b: nat)
    requires
        a <= b,
    ensures
        pow256(a) <= pow256(b),
    decreases b,
{
    if a < b {
        lemma_pow256_monotonic(a, (b - 1) as nat);
    }
}

} // verus!
