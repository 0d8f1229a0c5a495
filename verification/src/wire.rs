//! Wire format policy: the six integer width classes, the byte sequences
//! they map to, and the primitive read/write operations on byte buffers.
//!
//! Fixed-width integers are little-endian. The variable-length class is an
//! LEB128-style base-128 encoding: low seven bits per byte, least significant
//! group first, high bit set on every byte but the last.

use vstd::arithmetic::div_mod::lemma_fundamental_div_mod;
use vstd::prelude::*;

use crate::error::CodecError;

verus! {

/// An integer width class used for length prefixes, sum-type tags and
/// primitive fields: a 7-bit value packed into one byte, fixed-width
/// 8/16/32/64-bit little-endian integers, and a variable-length
/// (LEB128-style) encoding of a 64-bit value.
#[derive(Clone, Copy, Debug, PartialEq, Eq, Structural)]
pub enum Width {
    W7,
    W8,
    W16,
    W32,
    W64,
    WVar,
}

/// The largest value representable in a width class.
pub open spec fn spec_width_max(w: Width) -> u64 {
    match w {
        Width::W7 => 0x7f,
        Width::W8 => 0xff,
        Width::W16 => 0xffff,
        Width::W32 => 0xffff_ffff,
        Width::W64 => 0xffff_ffff_ffff_ffff,
        Width::WVar => 0xffff_ffff_ffff_ffff,
    }
}

/// The byte count a width class contributes to a minimum-size analysis: the
/// exact size of the fixed widths, and one byte for the 7-bit and
/// variable-length classes, whose smallest encoding is a single byte.
pub open spec fn spec_width_min_bytes(w: Width) -> u64 {
    match w {
        Width::W7 => 1,
        Width::W8 => 1,
        Width::W16 => 2,
        Width::W32 => 4,
        Width::W64 => 8,
        Width::WVar => 1,
    }
}

pub fn width_max(w: Width) -> (r: u64)
    ensures
        r == spec_width_max(w),
{
    match w {
        Width::W7 => 0x7f,
        Width::W8 => 0xff,
        Width::W16 => 0xffff,
        Width::W32 => 0xffff_ffff,
        Width::W64 => 0xffff_ffff_ffff_ffff,
        Width::WVar => 0xffff_ffff_ffff_ffff,
    }
}

pub fn width_min_bytes(w: Width) -> (r: u64)
    ensures
        r == spec_width_min_bytes(w),
{
    match w {
        Width::W7 => 1,
        Width::W8 => 1,
        Width::W16 => 2,
        Width::W32 => 4,
        Width::W64 => 8,
        Width::WVar => 1,
    }
}

/// 256 to the power `n`: the number of values `n` bytes can hold.
pub open spec fn pow256(n: nat) -> nat
    decreases n,
{
    if n == 0 {
        1
    } else {
        256 * pow256((n - 1) as nat)
    }
}

proof fn lemma_pow256_positive(n: nat)
    ensures
        pow256(n) >= 1,
    decreases n,
{
    if n > 0 {
        lemma_pow256_positive((n - 1) as nat);
    }
}

proof fn lemma_pow256_monotonic(m: nat, n: nat)
    requires
        m <= n,
    ensures
        pow256(m) <= pow256(n),
    decreases n,
{
    if m < n {
        lemma_pow256_monotonic(m, (n - 1) as nat);
        lemma_pow256_positive((n - 1) as nat);
    }
}

/// The little-endian encoding of `x` in exactly `n` bytes (high bits beyond
/// `8 * n` are dropped, as a narrowing integer cast would drop them).
pub open spec fn le_bytes(x: nat, n: nat) -> Seq<u8>
    decreases n,
{
    if n == 0 {
        Seq::empty()
    } else {
        seq![(x % 256) as u8] + le_bytes(x / 256, (n - 1) as nat)
    }
}

/// The value of a little-endian byte sequence.
pub open spec fn le_value(s: Seq<u8>) -> nat
    decreases s.len(),
{
    if s.len() == 0 {
        0
    } else {
        s[0] as nat + 256 * le_value(s.skip(1))
    }
}

pub proof fn lemma_le_bytes_len(x: nat, n: nat)
    ensures
        le_bytes(x, n).len() == n,
    decreases n,
{
    if n > 0 {
        lemma_le_bytes_len(x / 256, (n - 1) as nat);
    }
}

pub proof fn lemma_le_value_bound(s: Seq<u8>)
    ensures
        le_value(s) < pow256(s.len()),
    decreases s.len(),
{
    if s.len() == 0 {
    } else {
        lemma_le_value_bound(s.skip(1));
        assert(le_value(s) == s[0] as nat + 256 * le_value(s.skip(1)));
        assert(256 * le_value(s.skip(1)) <= 256 * (pow256((s.len() - 1) as nat) - 1))
            by (nonlinear_arith)
            requires
                le_value(s.skip(1)) <= pow256((s.len() - 1) as nat) - 1,
        ;
    }
}

/// Encoding then decoding a value that fits in `n` bytes gives it back.
pub proof fn lemma_le_round_trip(x: nat, n: nat)
    requires
        x < pow256(n),
    ensures
        le_value(le_bytes(x, n)) == x,
    decreases n,
{
    if n == 0 {
        assert(pow256(0) == 1);
    } else {
        let rest = le_bytes(x / 256, (n - 1) as nat);
        assert(x / 256 < pow256((n - 1) as nat)) by (nonlinear_arith)
            requires
                x < 256 * pow256((n - 1) as nat),
        ;
        lemma_le_round_trip(x / 256, (n - 1) as nat);
        lemma_le_bytes_len(x / 256, (n - 1) as nat);
        let whole = seq![(x % 256) as u8] + rest;
        assert(whole.skip(1) =~= rest);
        assert(le_value(whole) == x % 256 + 256 * le_value(rest));
        lemma_fundamental_div_mod(x as int, 256);
    }
}

/// The LEB128-style encoding of `x`: low seven bits per byte, least
/// significant group first, high bit set on every byte but the last.
pub open spec fn varint_bytes(x: nat) -> Seq<u8>
    decreases x,
{
    if x < 128 {
        seq![x as u8]
    } else {
        seq![(x % 128 + 128) as u8] + varint_bytes(x / 128)
    }
}

/// 128 to the power `n`.
pub open spec fn pow128(n: nat) -> nat
    decreases n,
{
    if n == 0 {
        1
    } else {
        128 * pow128((n - 1) as nat)
    }
}

pub proof fn lemma_varint_len(x: nat, k: nat)
    requires
        k >= 1,
        x < pow128(k),
    ensures
        1 <= varint_bytes(x).len() <= k,
    decreases k,
{
    if x < 128 {
    } else {
        assert(k >= 2) by {
            if k == 1 {
                assert(pow128(1) == 128) by {
                    reveal_with_fuel(pow128, 2);
                }
            }
        }
        assert(x / 128 < pow128((k - 1) as nat)) by (nonlinear_arith)
            requires
                x < 128 * pow128((k - 1) as nat),
        ;
        lemma_varint_len(x / 128, (k - 1) as nat);
    }
}

/// Every 64-bit value's variable-length encoding fits in ten bytes.
pub proof fn lemma_varint_len_u64(x: u64)
    ensures
        1 <= varint_bytes(x as nat).len() <= 10,
{
    assert(pow128(10) > 0xffff_ffff_ffff_ffff) by {
        reveal_with_fuel(pow128, 11);
    }
    lemma_varint_len(x as nat, 10);
}

/// Decode a variable-length integer starting at `pos`; `fuel` bounds the
/// number of bytes examined. Returns the value and the position after it, or
/// an error with the position at which decoding failed.
pub open spec fn spec_dec_varint(data: Seq<u8>, pos: int, fuel: nat) -> Result<
    (u64, int),
    (CodecError, int),
>
    decreases fuel,
{
    if !(0 <= pos < data.len()) {
        Err((CodecError::UnexpectedEof, pos))
    } else if fuel == 0 {
        Err((CodecError::OutOfRange, pos))
    } else {
        let b = data[pos];
        if b < 128 {
            Ok((b as u64, pos + 1))
        } else {
            match spec_dec_varint(data, pos + 1, (fuel - 1) as nat) {
                Ok((v, p)) => {
                    if (b - 128) + 128 * (v as nat) <= u64::MAX {
                        Ok((((b - 128) + 128 * (v as nat)) as u64, p))
                    } else {
                        Err((CodecError::OutOfRange, pos))
                    }
                },
                Err(e) => Err(e),
            }
        }
    }
}

/// Decoding a variable-length encoding embedded in a larger buffer yields
/// the encoded value and consumes exactly its bytes.
pub proof fn lemma_varint_round_trip(x: u64, pre: Seq<u8>, suf: Seq<u8>, fuel: nat)
    requires
        fuel >= varint_bytes(x as nat).len(),
    ensures
        spec_dec_varint(pre + varint_bytes(x as nat) + suf, pre.len() as int, fuel) == Ok::<
            (u64, int),
            (CodecError, int),
        >((x, pre.len() + varint_bytes(x as nat).len() as int)),
    decreases x,
{
    let enc = varint_bytes(x as nat);
    let data = pre + enc + suf;
    let pos = pre.len() as int;
    if x < 128 {
        assert(data[pos] == x as u8);
    } else {
        let b = (x as nat % 128 + 128) as u8;
        let rest = varint_bytes(x as nat / 128);
        assert(data[pos] == b);
        let x2 = (x / 128) as u64;
        assert(x2 as nat == x as nat / 128);
        assert(pre + enc + suf =~= (pre + seq![b]) + rest + suf);
        lemma_varint_round_trip(x2, pre + seq![b], suf, (fuel - 1) as nat);
        assert(spec_dec_varint(data, pos + 1, (fuel - 1) as nat) == Ok::<
            (u64, int),
            (CodecError, int),
        >((x2, pos + 1 + rest.len())));
        lemma_fundamental_div_mod(x as int, 128);
        assert((b - 128) + 128 * (x2 as nat) == x);
    }
}

/// Encode `x` in width class `w`: the byte sequence, or an error when the
/// value does not fit the class.
pub open spec fn spec_enc_uint(w: Width, x: u64) -> Result<Seq<u8>, CodecError> {
    if x > spec_width_max(w) {
        Err(CodecError::OutOfRange)
    } else {
        match w {
            Width::W7 => Ok(seq![x as u8]),
            Width::W8 => Ok(le_bytes(x as nat, 1)),
            Width::W16 => Ok(le_bytes(x as nat, 2)),
            Width::W32 => Ok(le_bytes(x as nat, 4)),
            Width::W64 => Ok(le_bytes(x as nat, 8)),
            Width::WVar => Ok(varint_bytes(x as nat)),
        }
    }
}

/// Decode an integer of width class `w` at `pos`. A 7-bit read rejects a
/// byte with the high bit set; fixed widths read exactly their byte count;
/// the variable-length class reads up to ten bytes.
pub open spec fn spec_dec_uint(w: Width, data: Seq<u8>, pos: int) -> Result<
    (u64, int),
    (CodecError, int),
> {
    match w {
        Width::W7 => {
            if !(0 <= pos < data.len()) {
                Err((CodecError::UnexpectedEof, pos))
            } else if data[pos] >= 128 {
                Err((CodecError::OutOfRange, pos))
            } else {
                Ok((data[pos] as u64, pos + 1))
            }
        },
        Width::WVar => spec_dec_varint(data, pos, 10),
        _ => {
            let k = spec_width_min_bytes(w) as int;
            if 0 <= pos && pos + k <= data.len() {
                Ok((le_value(data.subrange(pos, pos + k)) as u64, pos + k))
            } else {
                Err((CodecError::UnexpectedEof, pos))
            }
        },
    }
}

/// Decoding an encoded integer embedded in a larger buffer yields the value
/// back and consumes exactly its bytes.
pub proof fn lemma_uint_round_trip(w: Width, x: u64, pre: Seq<u8>, suf: Seq<u8>)
    requires
        spec_enc_uint(w, x) is Ok,
    ensures
        ({
            let enc = spec_enc_uint(w, x)->Ok_0;
            spec_dec_uint(w, pre + enc + suf, pre.len() as int) == Ok::<
                (u64, int),
                (CodecError, int),
            >((x, pre.len() + enc.len() as int))
        }),
{
    let enc = spec_enc_uint(w, x)->Ok_0;
    let data = pre + enc + suf;
    let pos = pre.len() as int;
    match w {
        Width::W7 => {
            assert(data[pos] == x as u8);
        },
        Width::WVar => {
            lemma_varint_len_u64(x);
            lemma_varint_round_trip(x, pre, suf, 10);
        },
        _ => {
            let k = spec_width_min_bytes(w) as nat;
            lemma_le_bytes_len(x as nat, k);
            assert((x as nat) < pow256(k)) by {
                reveal_with_fuel(pow256, 9);
            }
            lemma_le_round_trip(x as nat, k);
            assert(data.subrange(pos, pos + k as int) =~= enc);
        },
    }
}

proof fn lemma_dec_varint_consumes(data: Seq<u8>, pos: int, fuel: nat)
    requires
        0 <= pos <= data.len(),
    ensures
        spec_dec_varint(data, pos, fuel) matches Ok((v, p)) ==> pos + 1 <= p <= data.len(),
        spec_dec_varint(data, pos, fuel) matches Err((e, p)) ==> pos <= p <= data.len(),
    decreases fuel,
{
    if 0 <= pos < data.len() && fuel > 0 && data[pos] >= 128 {
        lemma_dec_varint_consumes(data, pos + 1, (fuel - 1) as nat);
    }
}

/// A successful integer read consumes at least the width's minimum byte
/// count and stays within the buffer; a failing one reports a position
/// within the buffer, at or after where it began.
pub proof fn lemma_dec_uint_consumes(w: Width, data: Seq<u8>, pos: int)
    requires
        0 <= pos <= data.len(),
    ensures
        spec_dec_uint(w, data, pos) matches Ok((v, p)) ==> pos + spec_width_min_bytes(w) <= p
            <= data.len(),
        spec_dec_uint(w, data, pos) matches Err((e, p)) ==> pos <= p <= data.len(),
{
    if w == Width::WVar {
        lemma_dec_varint_consumes(data, pos, 10);
    }
}

/// Read `n <= 8` little-endian bytes at `pos` as an integer.
fn read_le(data: &Vec<u8>, pos: usize, n: usize) -> (r: u64)
    requires
        pos + n <= data@.len(),
        n <= 8,
    ensures
        r as nat == le_value(data@.subrange(pos as int, pos + n)),
    decreases n,
{
    if n == 0 {
        assert(data@.subrange(pos as int, pos as int).len() == 0);
        0
    } else {
        let b = data[pos];
        proof {
            assert(data.len() == data@.len());
        }
        let rest = read_le(data, pos + 1, n - 1);
        proof {
            let s = data@.subrange(pos as int, pos + n);
            assert(s.skip(1) =~= data@.subrange(pos + 1, pos + n));
            lemma_le_value_bound(data@.subrange(pos + 1, pos + n));
            lemma_pow256_monotonic((n - 1) as nat, 7);
            assert(pow256(7) == 0x100_0000_0000_0000) by {
                reveal_with_fuel(pow256, 8);
            }
            assert(s[0] == data@[pos as int]);
        }
        b as u64 + 256 * rest
    }
}

/// Append the `n <= 8`-byte little-endian encoding of `x`.
fn write_le(out: &mut Vec<u8>, x: u64, n: usize)
    requires
        n <= 8,
    ensures
        final(out)@ == old(out)@ + le_bytes(x as nat, n as nat),
    decreases n,
{
    if n == 0 {
        assert(final(out)@ =~= old(out)@ + le_bytes(x as nat, 0));
    } else {
        let b = (x % 256) as u8;
        out.push(b);
        write_le(out, x / 256, n - 1);
        proof {
            assert((x / 256) as nat == x as nat / 256);
            assert(b as nat == x as nat % 256);
            assert(old(out)@ + le_bytes(x as nat, n as nat) =~= (old(out)@ + seq![b]) + le_bytes(
                x as nat / 256,
                (n - 1) as nat,
            ));
        }
    }
}

/// Read a variable-length integer; `fuel` bounds the bytes examined.
fn read_varint(data: &Vec<u8>, pos: usize, fuel: usize) -> (r: Result<
    (u64, usize),
    (CodecError, usize),
>)
    ensures
        r matches Ok((v, p)) ==> spec_dec_varint(data@, pos as int, fuel as nat) == Ok::<
            (u64, int),
            (CodecError, int),
        >((v, p as int)),
        r matches Err((e, p)) ==> spec_dec_varint(data@, pos as int, fuel as nat) == Err::<
            (u64, int),
            (CodecError, int),
        >((e, p as int)),
    decreases fuel,
{
    if pos >= data.len() {
        Err((CodecError::UnexpectedEof, pos))
    } else if fuel == 0 {
        Err((CodecError::OutOfRange, pos))
    } else {
        let b = data[pos];
        if b < 128 {
            Ok((b as u64, pos + 1))
        } else {
            match read_varint(data, pos + 1, fuel - 1) {
                Ok((v, p)) => {
                    let low = (b - 128) as u64;
                    if v <= (u64::MAX - low) / 128 {
                        proof {
                            assert(128 * (v as nat) <= u64::MAX - low) by (nonlinear_arith)
                                requires
                                    v as nat <= ((u64::MAX - low) as nat) / 128,
                                    low <= 127,
                            ;
                        }
                        Ok((low + 128 * v, p))
                    } else {
                        proof {
                            assert(low + 128 * (v as nat) > u64::MAX) by (nonlinear_arith)
                                requires
                                    v as nat > ((u64::MAX - low) as nat) / 128,
                                    low <= 127,
                            ;
                        }
                        Err((CodecError::OutOfRange, pos))
                    }
                },
                Err(e) => Err(e),
            }
        }
    }
}

/// Append the variable-length encoding of `x`.
fn write_varint(out: &mut Vec<u8>, x: u64)
    ensures
        final(out)@ == old(out)@ + varint_bytes(x as nat),
    decreases x,
{
    if x < 128 {
        out.push(x as u8);
        assert(final(out)@ =~= old(out)@ + varint_bytes(x as nat));
    } else {
        let b = ((x % 128) + 128) as u8;
        out.push(b);
        write_varint(out, x / 128);
        proof {
            assert((x / 128) as nat == x as nat / 128);
            assert(old(out)@ + varint_bytes(x as nat) =~= (old(out)@ + seq![b]) + varint_bytes(
                x as nat / 128,
            ));
        }
    }
}

/// Read an integer of width class `w` at `pos` in `data`.
pub fn read_uint(w: Width, data: &Vec<u8>, pos: usize) -> (r: Result<
    (u64, usize),
    (CodecError, usize),
>)
    ensures
        r matches Ok((v, p)) ==> spec_dec_uint(w, data@, pos as int) == Ok::<
            (u64, int),
            (CodecError, int),
        >((v, p as int)),
        r matches Err((e, p)) ==> spec_dec_uint(w, data@, pos as int) == Err::<
            (u64, int),
            (CodecError, int),
        >((e, p as int)),
{
    match w {
        Width::W7 => {
            if pos >= data.len() {
                Err((CodecError::UnexpectedEof, pos))
            } else {
                let b = data[pos];
                if b >= 128 {
                    Err((CodecError::OutOfRange, pos))
                } else {
                    Ok((b as u64, pos + 1))
                }
            }
        },
        Width::WVar => read_varint(data, pos, 10),
        _ => {
            let k = width_min_bytes(w) as usize;
            if data.len() < k || pos > data.len() - k {
                Err((CodecError::UnexpectedEof, pos))
            } else {
                let v = read_le(data, pos, k);
                Ok((v, pos + k))
            }
        },
    }
}

/// Append the encoding of `x` in width class `w`, or report that the value
/// does not fit the class, leaving the buffer unchanged.
pub fn write_uint(w: Width, x: u64, out: &mut Vec<u8>) -> (r: Result<(), CodecError>)
    ensures
        spec_enc_uint(w, x) matches Ok(bs) ==> r is Ok && final(out)@ == old(out)@ + bs,
        spec_enc_uint(w, x) matches Err(e) ==> r == Err::<(), CodecError>(e) && final(out)@ == old(
            out,
        )@,
{
    let max = width_max(w);
    if x > max {
        return Err(CodecError::OutOfRange);
    }
    match w {
        Width::W7 => {
            out.push(x as u8);
            assert(final(out)@ =~= old(out)@ + spec_enc_uint(w, x)->Ok_0);
        },
        Width::W8 => write_le(out, x, 1),
        Width::W16 => write_le(out, x, 2),
        Width::W32 => write_le(out, x, 4),
        Width::W64 => write_le(out, x, 8),
        Width::WVar => write_varint(out, x),
    }
    Ok(())
}

} // verus!
