//! Little endian base 128 variable-length integer compression.
//!
//! A LEB128 encoding splits an integer into 7-bit groups, least significant
//! first, and stores one group per byte; the high bit of each byte says
//! whether another byte follows.  `ULEB128` carries a `u64` through the
//! unsigned flavour, `SLEB128` an `i64` through the two's-complement signed
//! flavour.  Decoding accepts at most ten bytes and rejects encodings whose
//! value does not fit the 64-bit payload.

use vstd::prelude::*;

verus! {

/// Errors that can occur when decoding LEB128 compressed values.
#[derive(Debug, Copy, Clone, PartialEq, Eq, Structural)]
pub enum LEB128DecodeError {
    /// More bytes required than are available to complete the deserialization.
    BufferOverflow,
    /// The compressed value represents a larger number than can be decoded.
    IntegerOverflow,
}

/// Errors that can occur when encoding values using LEB128 compression.
#[derive(Debug, Copy, Clone, PartialEq, Eq, Structural)]
pub enum LEB128EncodeError {
    /// More bytes required than are available to complete the serialization.
    BufferOverflow,
}

/// A value that can be (de)serialized using unsigned LEB128 compression.
#[derive(Debug, Copy, Clone, PartialEq, Eq, Structural)]
pub struct ULEB128(pub u64);

/// A value that can be (de)serialized using signed LEB128 compression.
#[derive(Debug, Copy, Clone, PartialEq, Eq, Structural)]
pub struct SLEB128(pub i64);

/// 128 raised to the power `n`; the place value of the `n`-th 7-bit group.
pub open spec fn pow128(n: nat) -> nat
    decreases n,
{
    if n == 0 {
        1
    } else {
        128 * pow128((n - 1) as nat)
    }
}

/// True when the byte's high bit marks it as a continuation byte.
pub open spec fn continues(b: u8) -> bool {
    b & 0x80u8 != 0
}

/// True when the first `n` bytes of `s` are all continuation bytes.
pub open spec fn all_continue(s: Seq<u8>, n: int) -> bool {
    forall|j: int| 0 <= j < n ==> continues(s[j])
}

/// The unsigned value carried by the low 7 bits of each byte of `s`,
/// least significant group first.
pub open spec fn leb_value(s: Seq<u8>) -> nat
    decreases s.len(),
{
    if s.len() == 0 {
        0
    } else {
        (s[0] & 0x7fu8) as nat + 128 * leb_value(s.drop_first())
    }
}

proof fn lemma_pow128_increases(a: nat, b: nat)
    requires
        a <= b,
    ensures
        pow128(a) <= pow128(b),
    decreases b,
{
    if a < b {
        lemma_pow128_increases(a, (b - 1) as nat);
    }
}

proof fn lemma_leb_value_snoc(s: Seq<u8>, b: u8)
    ensures
        leb_value(s.push(b)) == leb_value(s) + (b & 0x7fu8) * pow128(s.len()),
    decreases s.len(),
{
    if s.len() == 0 {
        assert(s.push(b).drop_first() =~= Seq::<u8>::empty());
        assert(s.push(b)[0] == b);
        assert(leb_value(s.push(b)) == (b & 0x7fu8) as nat + 128 * leb_value(
            s.push(b).drop_first(),
        ));
        assert(leb_value(s.push(b).drop_first()) == 0);
        assert(leb_value(s) == 0);
        assert(pow128(s.len()) == 1);
    } else {
        lemma_leb_value_snoc(s.drop_first(), b);
        assert(s.push(b).drop_first() =~= s.drop_first().push(b));
        assert(s.push(b)[0] == s[0]);
        assert(leb_value(s.push(b)) == (s[0] & 0x7fu8) as nat + 128 * leb_value(
            s.drop_first().push(b),
        ));
        assert(128 * (leb_value(s.drop_first()) + (b & 0x7fu8) as nat * pow128(
            (s.len() - 1) as nat,
        )) == 128 * leb_value(s.drop_first()) + 128 * ((b & 0x7fu8) as nat * pow128(
            (s.len() - 1) as nat,
        ))) by (nonlinear_arith);
        assert(128 * ((b & 0x7fu8) as nat * pow128((s.len() - 1) as nat)) == (b
            & 0x7fu8) as nat * (128 * pow128((s.len() - 1) as nat))) by (nonlinear_arith);
        assert(pow128(s.len()) == 128 * pow128((s.len() - 1) as nat));
    }
}

/// The first `n` bytes of `s` form one complete unsigned LEB128 encoding
/// carrying `val`: a run of continuation bytes closed by one terminating
/// byte, at most ten in all, the tenth confined to the two top-most bits
/// of the 64-bit payload.
pub open spec fn uleb_decode_ok(s: Seq<u8>, val: ULEB128, n: usize) -> bool {
    &&& 1 <= n <= s.len()
    &&& n <= 10
    &&& all_continue(s, n - 1)
    &&& !continues(s[n - 1])
    &&& n == 10 ==> s[9] <= 1
    &&& val.0 as nat == leb_value(s.subrange(0, n as int))
}

/// The first `n` bytes of `s` form one complete signed LEB128 encoding
/// carrying `val`; a tenth byte may only repeat the sign of bit 63.
pub open spec fn sleb_decode_ok(s: Seq<u8>, val: SLEB128, n: usize) -> bool {
    &&& 1 <= n <= s.len()
    &&& n <= 10
    &&& all_continue(s, n - 1)
    &&& !continues(s[n - 1])
    &&& n == 10 ==> (s[9] == 0 || s[9] == 0x7f)
    &&& val.0 == sleb_value(s.subrange(0, n as int))
}

/// The canonical unsigned LEB128 encoding of `v`: 7-bit groups, least
/// significant first, as few bytes as possible, the high bit set on every
/// byte but the last.
pub open spec fn uleb_bytes(v: nat) -> Seq<u8>
    decreases v,
{
    if v < 128 {
        seq![v as u8]
    } else {
        seq![((v % 128) + 128) as u8] + uleb_bytes(v / 128)
    }
}

impl ULEB128 {
    /// Attempts to write a value into a buffer using unsigned LEB128
    /// compression.
    ///
    /// On success this will return the number of bytes that were written,
    /// leaving the rest of the buffer untouched.  When the buffer is too
    /// short the bytes that fit have been written and `BufferOverflow` is
    /// returned.
    pub fn write_into(self, buf: &mut [u8]) -> (r: Result<usize, LEB128EncodeError>)
        ensures
            final(buf)@.len() == old(buf)@.len(),
            match r {
                Ok(n) => {
                    &&& n as nat == uleb_bytes(self.0 as nat).len()
                    &&& n <= old(buf)@.len()
                    &&& final(buf)@ == uleb_bytes(self.0 as nat) + old(buf)@.skip(n as int)
                },
                Err(e) => {
                    &&& e == LEB128EncodeError::BufferOverflow
                    &&& uleb_bytes(self.0 as nat).len() > old(buf)@.len()
                    &&& final(buf)@ == uleb_bytes(self.0 as nat).take(old(buf)@.len() as int)
                },
            },
            (r is Ok) == (uleb_bytes(self.0 as nat).len() <= old(buf)@.len()),
    {
        let n_len = buf.len();
        let mut value: u64 = self.0;
        let mut i: usize = 0;
        loop
            invariant
                buf@.len() == n_len,
                n_len == old(buf)@.len(),
                i <= n_len,
                uleb_bytes(self.0 as nat) =~= buf@.subrange(0, i as int) + uleb_bytes(
                    value as nat,
                ),
                forall|j: int| i <= j < n_len ==> buf@[j] == old(buf)@[j],
            decreases value,
        {
            proof {
                assert(uleb_bytes(self.0 as nat).len() == i + uleb_bytes(value as nat).len());
            }
            if i == n_len {
                proof {
                    assert(uleb_bytes(value as nat).len() >= 1);
                    assert(final(buf)@ =~= uleb_bytes(self.0 as nat).take(n_len as int));
                }
                return Err(LEB128EncodeError::BufferOverflow);
            }
            let byte: u8 = (value % 128) as u8;
            if value < 128 {
                buf[i] = byte;
                proof {
                    assert(uleb_bytes(value as nat) =~= seq![value as u8]);
                    assert(value as u8 == byte);
                    assert(final(buf)@ =~= uleb_bytes(self.0 as nat) + old(buf)@.skip(
                        i + 1,
                    ));
                }
                return Ok(i + 1);
            }
            buf[i] = byte + 128;
            proof {
                assert(uleb_bytes(value as nat) =~= seq![((value as nat % 128) + 128) as u8]
                    + uleb_bytes(value as nat / 128));
                assert(uleb_bytes(self.0 as nat) =~= buf@.subrange(0, i + 1) + uleb_bytes(
                    value as nat / 128,
                ));
                assert(value as nat / 128 == (value / 128) as nat);
            }
            value = value / 128;
            i = i + 1;
        }
    }

    /// Attempts to read an unsigned LEB128 compressed value from a buffer.
    ///
    /// On success this will return the decompressed value and the number of
    /// bytes that were read: the continuation bytes and the final byte that
    /// terminates the encoding.  The read fails with `BufferOverflow` when
    /// the buffer ends before a terminating byte (which can only happen for
    /// buffers shorter than ten bytes), and with `IntegerOverflow` when a
    /// tenth byte would carry bits beyond the 64-bit payload.
    pub fn read_from(buf: &[u8]) -> (r: Result<(ULEB128, usize), LEB128DecodeError>)
        ensures
            match r {
                Ok((val, n)) => uleb_decode_ok(buf@, val, n),
                Err(e) => match e {
                    LEB128DecodeError::BufferOverflow => {
                        &&& buf@.len() <= 9
                        &&& all_continue(buf@, buf@.len() as int)
                    },
                    LEB128DecodeError::IntegerOverflow => {
                        &&& buf@.len() >= 10
                        &&& all_continue(buf@, 9)
                        &&& buf@[9] > 1
                    },
                },
            },
    {
        let n_len = buf.len();
        let mut result: u64 = 0;
        let mut mult: u64 = 1;
        let mut i: usize = 0;
        while i < n_len
            invariant
                n_len == buf@.len(),
                i <= n_len,
                i <= 9,
                all_continue(buf@, i as int),
                mult as nat == pow128(i as nat),
                result as nat == leb_value(buf@.subrange(0, i as int)),
                result < mult,
            decreases n_len - i,
        {
            let b = buf[i];
            if i == 9 && b > 1 {
                return Err(LEB128DecodeError::IntegerOverflow);
            }
            let b7 = b & 0x7f;
            proof {
                assert(b & 0x7fu8 < 128 && (b <= 1 ==> (b & 0x7fu8) == b && b & 0x80u8 == 0))
                    by (bit_vector);
                assert(pow128(9) == 0x8000000000000000) by {
                    reveal_with_fuel(pow128, 10);
                }
                if i <= 8 {
                    lemma_pow128_increases((i + 1) as nat, 9);
                    assert(b7 as nat * pow128(i as nat) <= 127 * pow128(i as nat))
                        by (nonlinear_arith)
                        requires
                            b7 < 128,
                    ;
                    assert(result + b7 as nat * pow128(i as nat) < 128 * pow128(i as nat));
                } else {
                    assert(b7 as nat * pow128(9) <= pow128(9)) by (nonlinear_arith)
                        requires
                            b7 <= 1,
                    ;
                }
                lemma_leb_value_snoc(buf@.subrange(0, i as int), b);
                assert(buf@.subrange(0, i as int).push(b) =~= buf@.subrange(0, i + 1));
            }
            result = result + (b7 as u64) * mult;
            if b & 0x80 == 0 {
                return Ok((ULEB128(result), i + 1));
            }
            i = i + 1;
            mult = mult * 128;
        }
        Err(LEB128DecodeError::BufferOverflow)
    }
}

/// Recursion measure for [`sleb_bytes`]: the distance of `v` from the
/// nearest fixed point of the arithmetic shift `v >> 7` (`0` or `-1`).
pub open spec fn sleb_measure(v: i64) -> nat {
    if v < 0 {
        (-1 - v) as nat
    } else {
        v as nat
    }
}

/// The canonical signed LEB128 encoding of `v`: 7-bit groups, least
/// significant first, stopping as soon as the remaining bits are all equal
/// to the sign bit of the last group.
pub open spec fn sleb_bytes(v: i64) -> Seq<u8>
    decreases sleb_measure(v),
{
    let byte = (v as u8) & 0x7fu8;
    let rest = v >> 7;
    if (rest == 0 && byte & 0x40u8 == 0) || (rest == -1 && byte & 0x40u8 != 0) {
        seq![byte]
    } else {
        proof {
            lemma_sleb_shift_shrinks(v);
        }
        seq![byte | 0x80u8] + sleb_bytes(rest)
    }
}

/// Unless the encoding of `v` ends at the current group, the arithmetic
/// shift by 7 moves `v` strictly closer to its fixed point.
pub proof fn lemma_sleb_shift_shrinks(v: i64)
    ensures
        !(((v >> 7) == 0 && ((v as u8) & 0x7fu8) & 0x40u8 == 0) || ((v >> 7) == -1 && ((v as u8)
            & 0x7fu8) & 0x40u8 != 0)) ==> ((v >= 0 ==> 0 <= (v >> 7) < v) && (v < 0 ==> v < (v
            >> 7) < 0)),
{
    assert(!(((v >> 7) == 0 && ((v as u8) & 0x7fu8) & 0x40u8 == 0) || ((v >> 7) == -1 && ((v
        as u8) & 0x7fu8) & 0x40u8 != 0)) ==> ((v >= 0 ==> 0 <= (v >> 7) < v) && (v < 0 ==> v < (v
        >> 7) < 0))) by (bit_vector);
}

/// The two's-complement value carried by a signed LEB128 group sequence:
/// the unsigned group value, sign-extended from the top bit of the last
/// group, truncated to 64 bits when the groups carry more.
pub open spec fn sleb_value(s: Seq<u8>) -> int {
    if s.len() == 0 {
        0
    } else if 7 * s.len() < 64 {
        if s.last() & 0x40u8 != 0 {
            leb_value(s) - pow128(s.len())
        } else {
            leb_value(s) as int
        }
    } else {
        let m = leb_value(s) as int % 0x10000000000000000;
        if m >= 0x8000000000000000 {
            m - 0x10000000000000000
        } else {
            m
        }
    }
}

/// `1u64 << (7 * k)` is the place value of the `k`-th 7-bit group.
proof fn lemma_pow128_shl(k: u32)
    requires
        k <= 9,
    ensures
        (1u64 << (7 * k)) as nat == pow128(k as nat),
    decreases k,
{
    if k == 0 {
        assert((1u64 << (7 * 0u32)) == 1) by (bit_vector);
    } else {
        lemma_pow128_shl((k - 1) as u32);
        assert((1u64 << (7 * k)) == 128 * (1u64 << ((7 * (k - 1)) as u32))) by (bit_vector)
            requires
                1 <= k <= 9,
        ;
    }
}

impl SLEB128 {
    /// Attempts to write a value into a buffer using signed LEB128
    /// compression.
    ///
    /// On success this will return the number of bytes that were written,
    /// leaving the rest of the buffer untouched.  When the buffer is too
    /// short the bytes that fit have been written and `BufferOverflow` is
    /// returned.
    pub fn write_into(self, buf: &mut [u8]) -> (r: Result<usize, LEB128EncodeError>)
        ensures
            final(buf)@.len() == old(buf)@.len(),
            match r {
                Ok(n) => {
                    &&& n as nat == sleb_bytes(self.0).len()
                    &&& n <= old(buf)@.len()
                    &&& final(buf)@ == sleb_bytes(self.0) + old(buf)@.skip(n as int)
                },
                Err(e) => {
                    &&& e == LEB128EncodeError::BufferOverflow
                    &&& sleb_bytes(self.0).len() > old(buf)@.len()
                    &&& final(buf)@ == sleb_bytes(self.0).take(old(buf)@.len() as int)
                },
            },
            (r is Ok) == (sleb_bytes(self.0).len() <= old(buf)@.len()),
    {
        let n_len = buf.len();
        let mut value: i64 = self.0;
        let mut i: usize = 0;
        loop
            invariant
                buf@.len() == n_len,
                n_len == old(buf)@.len(),
                i <= n_len,
                sleb_bytes(self.0) =~= buf@.subrange(0, i as int) + sleb_bytes(value),
                forall|j: int| i <= j < n_len ==> buf@[j] == old(buf)@[j],
            decreases sleb_measure(value),
        {
            proof {
                assert(sleb_bytes(self.0).len() == i + sleb_bytes(value).len());
                assert(sleb_bytes(value).len() >= 1);
            }
            if i == n_len {
                proof {
                    assert(final(buf)@ =~= sleb_bytes(self.0).take(n_len as int));
                }
                return Err(LEB128EncodeError::BufferOverflow);
            }
            let byte: u8 = (value as u8) & 0x7f;
            let rest: i64 = value >> 7;
            if (rest == 0 && byte & 0x40 == 0) || (rest == -1 && byte & 0x40 != 0) {
                buf[i] = byte;
                proof {
                    assert(sleb_bytes(value) =~= seq![byte]);
                    assert(final(buf)@ =~= sleb_bytes(self.0) + old(buf)@.skip(i + 1));
                }
                return Ok(i + 1);
            }
            buf[i] = byte | 0x80;
            proof {
                lemma_sleb_shift_shrinks(value);
                assert(sleb_bytes(value) =~= seq![byte | 0x80u8] + sleb_bytes(rest));
                assert(sleb_bytes(self.0) =~= buf@.subrange(0, i + 1) + sleb_bytes(rest));
            }
            value = rest;
            i = i + 1;
        }
    }

    /// Attempts to read a signed LEB128 compressed value from a buffer.
    ///
    /// On success this will return the decompressed value and the number of
    /// bytes that were read.  The read fails with `BufferOverflow` when the
    /// buffer ends before a terminating byte, and with `IntegerOverflow`
    /// when a tenth byte would carry bits beyond the 64-bit payload (only
    /// `0x00` and `0x7f` are consistent there with a 64-bit value).
    pub fn read_from(buf: &[u8]) -> (r: Result<(SLEB128, usize), LEB128DecodeError>)
        ensures
            match r {
                Ok((val, n)) => sleb_decode_ok(buf@, val, n),
                Err(e) => match e {
                    LEB128DecodeError::BufferOverflow => {
                        &&& buf@.len() <= 9
                        &&& all_continue(buf@, buf@.len() as int)
                    },
                    LEB128DecodeError::IntegerOverflow => {
                        &&& buf@.len() >= 10
                        &&& all_continue(buf@, 9)
                        &&& buf@[9] != 0 && buf@[9] != 0x7f
                    },
                },
            },
    {
        let n_len = buf.len();
        let mut raw: u64 = 0;
        let mut mult: u64 = 1;
        let mut i: usize = 0;
        while i < n_len
            invariant
                n_len == buf@.len(),
                i <= n_len,
                i <= 9,
                all_continue(buf@, i as int),
                mult as nat == pow128(i as nat),
                raw as nat == leb_value(buf@.subrange(0, i as int)),
                raw < mult,
            decreases n_len - i,
        {
            let b = buf[i];
            proof {
                assert(pow128(9) == 0x8000000000000000) by {
                    reveal_with_fuel(pow128, 10);
                }
                lemma_leb_value_snoc(buf@.subrange(0, i as int), b);
                assert(buf@.subrange(0, i as int).push(b) =~= buf@.subrange(0, i + 1));
            }
            if i == 9 {
                if b != 0 && b != 0x7f {
                    return Err(LEB128DecodeError::IntegerOverflow);
                }
                // The tenth group may only repeat the sign of bit 63; its
                // contribution modulo 2^64 is either nothing or bit 63.
                let r2: u64 = if b == 0x7f {
                    raw + 0x8000000000000000
                } else {
                    raw
                };
                let value = r2 as i64;
                proof {
                    assert((b == 0 || b == 0x7f) ==> b & 0x80u8 == 0 && (b & 0x7fu8) == b)
                        by (bit_vector);
                    let s10 = buf@.subrange(0, 10);
                    assert(s10.len() == 10);
                    if b == 0x7f {
                        assert(leb_value(s10) == raw + 127 * pow128(9));
                        vstd::arithmetic::div_mod::lemma_mod_multiples_vanish(
                            63,
                            raw + 0x8000000000000000,
                            0x10000000000000000,
                        );
                        vstd::arithmetic::div_mod::lemma_small_mod(
                            (raw + 0x8000000000000000) as nat,
                            0x10000000000000000,
                        );
                        assert(leb_value(s10) as int % 0x10000000000000000 == raw
                            + 0x8000000000000000);
                        assert(r2 >= 0x8000000000000000 ==> r2 as i64 == r2
                            - 0x10000000000000000) by (bit_vector);
                    } else {
                        assert(b == 0);
                        assert(b & 0x7fu8 == 0);
                        assert(s10 =~= buf@.subrange(0, i as int).push(b));
                        assert(leb_value(s10) == leb_value(buf@.subrange(0, i as int)) + (b
                            & 0x7fu8) * pow128(9));
                        assert(leb_value(s10) == raw as nat);
                        vstd::arithmetic::div_mod::lemma_small_mod(
                            raw as nat,
                            0x10000000000000000,
                        );
                    }
                }
                return Ok((SLEB128(value), i + 1));
            }
            let b7 = b & 0x7f;
            proof {
                assert(b & 0x7fu8 < 128) by (bit_vector);
                lemma_pow128_increases((i + 1) as nat, 9);
                assert(b7 as nat * pow128(i as nat) <= 127 * pow128(i as nat)) by (nonlinear_arith)
                    requires
                        b7 < 128,
                ;
                assert(raw + b7 as nat * pow128(i as nat) < 128 * pow128(i as nat));
            }
            raw = raw + (b7 as u64) * mult;
            if b & 0x80 == 0 {
                let n_bits: u32 = 7 * (i as u32) + 7;
                let value: i64 = if b & 0x40 != 0 {
                    raw | (u64::MAX << n_bits)
                } else {
                    raw
                } as i64;
                proof {
                    let s_n = buf@.subrange(0, i + 1);
                    assert(s_n.last() == b);
                    lemma_pow128_shl((i + 1) as u32);
                    if b & 0x40u8 != 0 {
                        assert({
                            &&& 7 <= n_bits <= 63
                            &&& raw < (1u64 << n_bits)
                        } ==> (raw | (u64::MAX << n_bits)) as i64 == raw - (1u64 << n_bits))
                            by (bit_vector);
                    }
                }
                return Ok((SLEB128(value), i + 1));
            }
            i = i + 1;
            mult = mult * 128;
        }
        Err(LEB128DecodeError::BufferOverflow)
    }
}

#[verifier::external_type_specification]
#[verifier::external_body]
pub struct ExIoError(std::io::Error);

/// Relies on `std::io::Read::read_exact` with a one-byte buffer: on `Ok`
/// exactly one byte was taken from the reader.  Which byte comes back
/// depends on the reader alone, so nothing is promised of it.
#[verifier::external_body]
fn read_byte<R: std::io::Read>(reader: &mut R) -> (r: Result<u8, std::io::Error>) {
    let mut byte = [0u8; 1];
    match reader.read_exact(&mut byte) {
        Ok(()) => Ok(byte[0]),
        Err(e) => Err(e),
    }
}

/// Relies on `std::io::Write::write_all`: on `Ok` the whole buffer was
/// handed to the writer.
#[verifier::external_body]
fn write_all_bytes<W: std::io::Write>(writer: &mut W, buf: &Vec<u8>) -> (r: Result<
    (),
    std::io::Error,
>) {
    writer.write_all(buf.as_slice())
}

/// Relies on the `std::io::Error` conversion from
/// `std::io::ErrorKind::UnexpectedEof`.
#[verifier::external_body]
fn io_error_unexpected_eof() -> (r: std::io::Error) {
    std::io::ErrorKind::UnexpectedEof.into()
}

/// Relies on the `std::io::Error` conversion from
/// `std::io::ErrorKind::InvalidData`.
#[verifier::external_body]
fn io_error_invalid_data() -> (r: std::io::Error) {
    std::io::ErrorKind::InvalidData.into()
}

impl LEB128DecodeError {
    /// The `std::io::Error` equivalent of this decode error: a truncated
    /// input maps to `UnexpectedEof`, an oversized value to `InvalidData`.
    pub fn to_io_error(self) -> std::io::Error {
        match self {
            LEB128DecodeError::BufferOverflow => io_error_unexpected_eof(),
            LEB128DecodeError::IntegerOverflow => io_error_invalid_data(),
        }
    }
}

impl LEB128EncodeError {
    /// The `std::io::Error` equivalent of this encode error: a too-short
    /// output buffer maps to `UnexpectedEof`.
    pub fn to_io_error(self) -> std::io::Error {
        match self {
            LEB128EncodeError::BufferOverflow => io_error_unexpected_eof(),
        }
    }
}

impl ULEB128 {
    /// The canonical unsigned LEB128 encoding of this value as a fresh
    /// byte vector.
    fn encode_vec(self) -> (r: Vec<u8>)
        ensures
            r@ == uleb_bytes(self.0 as nat),
    {
        let mut value: u64 = self.0;
        let mut out: Vec<u8> = Vec::new();
        loop
            invariant
                uleb_bytes(self.0 as nat) =~= out@ + uleb_bytes(value as nat),
            decreases value,
        {
            let byte: u8 = (value % 128) as u8;
            if value < 128 {
                out.push(byte);
                proof {
                    assert(uleb_bytes(value as nat) =~= seq![value as u8]);
                    assert(out@ =~= uleb_bytes(self.0 as nat));
                }
                return out;
            }
            out.push(byte + 128);
            proof {
                assert(uleb_bytes(value as nat) =~= seq![((value as nat % 128) + 128) as u8]
                    + uleb_bytes(value as nat / 128));
                assert(uleb_bytes(self.0 as nat) =~= out@ + uleb_bytes(value as nat / 128));
            }
            value = value / 128;
        }
    }

    /// Attempts to read an unsigned LEB128 compressed value from an
    /// implementor of `std::io::Read`, one byte at a time.
    ///
    /// On success this will return the decompressed value and the number
    /// of bytes that were read.
    pub fn read_from_std_io<R: std::io::Read>(reader: R) -> (r: Result<
        (ULEB128, usize),
        std::io::Error,
    >)
        ensures
            r matches Ok((val, n)) ==> exists|s: Seq<u8>|
                s.len() == n && uleb_decode_ok(s, val, n),
    {
        let mut reader = reader;
        let mut buf: Vec<u8> = Vec::new();
        loop
            invariant
                buf@.len() <= 9,
                all_continue(buf@, buf@.len() as int),
            decreases 10 - buf@.len(),
        {
            let byte = match read_byte(&mut reader) {
                Ok(b) => b,
                Err(e) => {
                    return Err(e);
                },
            };
            buf.push(byte);
            match ULEB128::read_from(buf.as_slice()) {
                Ok((val, n)) => {
                    proof {
                        // The accumulated bytes witness a complete
                        // encoding: their last byte terminated the run.
                        assert(n == buf@.len());
                        assert(uleb_decode_ok(buf@, val, n));
                    }
                    return Ok((val, n));
                },
                Err(LEB128DecodeError::IntegerOverflow) => {
                    return Err(LEB128DecodeError::IntegerOverflow.to_io_error());
                },
                Err(LEB128DecodeError::BufferOverflow) => {},
            }
        }
    }

    /// Attempts to write a value into an implementor of `std::io::Write`
    /// using unsigned LEB128 compression.
    ///
    /// On success this will return the number of bytes that were written.
    pub fn write_into_std_io<W: std::io::Write>(self, writer: W) -> (r: Result<
        usize,
        std::io::Error,
    >)
        ensures
            r matches Ok(n) ==> n as nat == uleb_bytes(self.0 as nat).len(),
    {
        let mut writer = writer;
        let buf = self.encode_vec();
        match write_all_bytes(&mut writer, &buf) {
            Ok(()) => Ok(buf.len()),
            Err(e) => Err(e),
        }
    }
}

impl SLEB128 {
    /// The canonical signed LEB128 encoding of this value as a fresh byte
    /// vector.
    fn encode_vec(self) -> (r: Vec<u8>)
        ensures
            r@ == sleb_bytes(self.0),
    {
        let mut value: i64 = self.0;
        let mut out: Vec<u8> = Vec::new();
        loop
            invariant
                sleb_bytes(self.0) =~= out@ + sleb_bytes(value),
            decreases sleb_measure(value),
        {
            let byte: u8 = (value as u8) & 0x7f;
            let rest: i64 = value >> 7;
            if (rest == 0 && byte & 0x40 == 0) || (rest == -1 && byte & 0x40 != 0) {
                out.push(byte);
                proof {
                    assert(sleb_bytes(value) =~= seq![byte]);
                    assert(out@ =~= sleb_bytes(self.0));
                }
                return out;
            }
            out.push(byte | 0x80);
            proof {
                lemma_sleb_shift_shrinks(value);
                assert(sleb_bytes(value) =~= seq![byte | 0x80u8] + sleb_bytes(rest));
                assert(sleb_bytes(self.0) =~= out@ + sleb_bytes(rest));
            }
            value = rest;
        }
    }

    /// Attempts to read a signed LEB128 compressed value from an
    /// implementor of `std::io::Read`, one byte at a time.
    ///
    /// On success this will return the decompressed value and the number
    /// of bytes that were read.
    pub fn read_from_std_io<R: std::io::Read>(reader: R) -> (r: Result<
        (SLEB128, usize),
        std::io::Error,
    >)
        ensures
            r matches Ok((val, n)) ==> exists|s: Seq<u8>|
                s.len() == n && sleb_decode_ok(s, val, n),
    {
        let mut reader = reader;
        let mut buf: Vec<u8> = Vec::new();
        loop
            invariant
                buf@.len() <= 9,
                all_continue(buf@, buf@.len() as int),
            decreases 10 - buf@.len(),
        {
            let byte = match read_byte(&mut reader) {
                Ok(b) => b,
                Err(e) => {
                    return Err(e);
                },
            };
            buf.push(byte);
            match SLEB128::read_from(buf.as_slice()) {
                Ok((val, n)) => {
                    proof {
                        assert(n == buf@.len());
                        assert(sleb_decode_ok(buf@, val, n));
                    }
                    return Ok((val, n));
                },
                Err(LEB128DecodeError::IntegerOverflow) => {
                    return Err(LEB128DecodeError::IntegerOverflow.to_io_error());
                },
                Err(LEB128DecodeError::BufferOverflow) => {},
            }
        }
    }

    /// Attempts to write a value into an implementor of `std::io::Write`
    /// using signed LEB128 compression.
    ///
    /// On success this will return the number of bytes that were written.
    pub fn write_into_std_io<W: std::io::Write>(self, writer: W) -> (r: Result<
        usize,
        std::io::Error,
    >)
        ensures
            r matches Ok(n) ==> n as nat == sleb_bytes(self.0).len(),
    {
        let mut writer = writer;
        let buf = self.encode_vec();
        match write_all_bytes(&mut writer, &buf) {
            Ok(()) => Ok(buf.len()),
            Err(e) => Err(e),
        }
    }
}

proof fn lemma_uleb_len(v: nat, k: nat)
    requires
        1 <= k,
        v < pow128(k),
    ensures
        uleb_bytes(v).len() <= k,
    decreases v,
{
    if v >= 128 {
        assert(pow128(0) == 1);
        assert(pow128(1) == 128);
        assert(k >= 2) by {
            if k == 1 {
                assert(false);
            }
        }
        assert(pow128(k) == 128 * pow128((k - 1) as nat));
        vstd::arithmetic::div_mod::lemma_multiply_divide_lt(
            v as int,
            128,
            pow128((k - 1) as nat) as int,
        );
        lemma_uleb_len(v / 128, (k - 1) as nat);
    }
}

proof fn lemma_uleb_decode_encode(v: nat)
    ensures
        leb_value(uleb_bytes(v)) == v,
        uleb_bytes(v).len() >= 1,
        all_continue(uleb_bytes(v), uleb_bytes(v).len() - 1),
        !continues(uleb_bytes(v).last()),
    decreases v,
{
    if v < 128 {
        let b: u8 = v as u8;
        assert(b < 128 ==> (b & 0x7fu8) == b && b & 0x80u8 == 0) by (bit_vector);
        assert(uleb_bytes(v) =~= seq![b]);
        assert(seq![b].drop_first() =~= Seq::<u8>::empty());
        assert(leb_value(seq![b]) == (b & 0x7fu8) as nat + 128 * leb_value(Seq::<u8>::empty()));
    } else {
        lemma_uleb_decode_encode(v / 128);
        let b: u8 = ((v % 128) + 128) as u8;
        let rest = uleb_bytes(v / 128);
        assert(v % 128 < 128);
        assert(b >= 128 ==> ((b & 0x7fu8) as int == b - 128 && b & 0x80u8 != 0)) by (bit_vector);
        assert(uleb_bytes(v) =~= seq![b] + rest);
        assert((seq![b] + rest).drop_first() =~= rest);
        assert((seq![b] + rest)[0] == b);
        assert(leb_value(uleb_bytes(v)) == (b & 0x7fu8) as nat + 128 * leb_value(rest));
        vstd::arithmetic::div_mod::lemma_fundamental_div_mod(v as int, 128);
        assert(leb_value(uleb_bytes(v)) == v);
        assert forall|j: int| 0 <= j < uleb_bytes(v).len() - 1 implies continues(
            uleb_bytes(v)[j],
        ) by {
            if j > 0 {
                assert(uleb_bytes(v)[j] == rest[j - 1]);
                assert(continues(rest[j - 1]));
            }
        }
        assert(uleb_bytes(v).last() == rest.last());
    }
}

/// Law: writing a value with the unsigned codec and reading the bytes back
/// recovers it.  The canonical encoding is a run of at most nine
/// continuation bytes closed by one terminating byte, at most ten in all,
/// so `ULEB128::read_from` accepts exactly this prefix and, by its own
/// contract, returns exactly `v`.
pub proof fn lemma_uleb_round_trip(v: u64)
    ensures
        leb_value(uleb_bytes(v as nat)) == v,
        1 <= uleb_bytes(v as nat).len() <= 10,
        all_continue(uleb_bytes(v as nat), uleb_bytes(v as nat).len() - 1),
        !continues(uleb_bytes(v as nat).last()),
{
    lemma_uleb_decode_encode(v as nat);
    assert(pow128(10) > u64::MAX) by {
        reveal_with_fuel(pow128, 11);
    }
    lemma_uleb_len(v as nat, 10);
}

proof fn lemma_leb_value_bound(s: Seq<u8>)
    ensures
        leb_value(s) < pow128(s.len()),
    decreases s.len(),
{
    if s.len() > 0 {
        lemma_leb_value_bound(s.drop_first());
        let b0 = s[0];
        assert(b0 & 0x7fu8 < 128) by (bit_vector);
    }
}

/// The terminal case of the signed encoding is reached exactly for the
/// values whose bits fit one 7-bit group with its sign.
proof fn lemma_sleb_terminal_range(v: i64)
    ensures
        (((v >> 7) == 0 && ((v as u8) & 0x7fu8) & 0x40u8 == 0) || ((v >> 7) == -1 && ((v as u8)
            & 0x7fu8) & 0x40u8 != 0)) == (-64 <= v < 64),
{
    assert((((v >> 7) == 0 && ((v as u8) & 0x7fu8) & 0x40u8 == 0) || ((v >> 7) == -1 && ((v
        as u8) & 0x7fu8) & 0x40u8 != 0)) == (-64 <= v < 64)) by (bit_vector);
}

/// Splitting off the low group: `v` is its last 7-bit group plus 128 times
/// the arithmetically shifted rest, and the shift keeps the sign.
proof fn lemma_sleb_split(v: i64)
    ensures
        ((v as u8) & 0x7fu8) < 128,
        v == ((v as u8) & 0x7fu8) + 128 * (v >> 7),
        ((v >> 7) < 0) == (v < 0),
        -0x100000000000000 <= (v >> 7) < 0x100000000000000,
{
    assert(((v as u8) & 0x7fu8) < 128) by (bit_vector);
    assert(v == ((v as u8) & 0x7fu8) + 128 * (v >> 7)) by (bit_vector);
    assert(((v >> 7) < 0) == (v < 0)) by (bit_vector);
    assert(-0x100000000000000 <= (v >> 7) < 0x100000000000000) by (bit_vector);
}

proof fn lemma_sleb_len(v: i64, k: nat)
    requires
        1 <= k,
        -(pow128(k) as int) <= 2 * v < pow128(k),
    ensures
        sleb_bytes(v).len() <= k,
    decreases sleb_measure(v),
{
    lemma_sleb_terminal_range(v);
    if !(-64 <= v < 64) {
        let rest = v >> 7;
        lemma_sleb_split(v);
        lemma_sleb_shift_shrinks(v);
        assert(k >= 2) by {
            if k == 1 {
                assert(pow128(0) == 1);
        assert(pow128(1) == 128);
                assert(false);
            }
        }
        assert(pow128(k) == 128 * pow128((k - 1) as nat));
        assert(-(pow128((k - 1) as nat) as int) <= 2 * rest < pow128((k - 1) as nat));
        lemma_sleb_len(rest, (k - 1) as nat);
    }
}

proof fn lemma_sleb_value_cons(b: u8, s: Seq<u8>)
    requires
        1 <= s.len() <= 9,
        -0x100000000000000 <= sleb_value(s) < 0x100000000000000,
        (s.last() & 0x40u8 != 0) == (sleb_value(s) < 0),
    ensures
        sleb_value(seq![b] + s) == (b & 0x7fu8) + 128 * sleb_value(s),
{
    let cons = seq![b] + s;
    let sv = sleb_value(s);
    assert(cons.drop_first() =~= s);
    assert(cons[0] == b);
    assert(cons.last() == s.last());
    assert(leb_value(cons) == (b & 0x7fu8) as nat + 128 * leb_value(s));
    assert(b & 0x7fu8 < 128) by (bit_vector);
    lemma_leb_value_bound(s);
    if s.len() <= 8 {
        assert(pow128(cons.len()) == 128 * pow128(s.len()));
    } else {
        let x = (b & 0x7fu8) + 128 * sv;
        assert(pow128(9) == 0x8000000000000000) by {
            reveal_with_fuel(pow128, 10);
        }
        if s.last() & 0x40u8 != 0 {
            // The last group is negative: the unsigned group value carries
            // an extra bit 63, which truncation folds back out.
            assert(leb_value(s) == sv + 0x8000000000000000);
            let lv: int = leb_value(s) as int;
            assert(128 * lv == 128 * sv + 0x400000000000000000) by (nonlinear_arith)
                requires
                    lv == sv + 0x8000000000000000,
            ;
            assert(leb_value(cons) == (b & 0x7fu8) + 128 * lv);
            assert(leb_value(cons) == x + 0x400000000000000000);
            assert(-0x8000000000000000 <= x < 0) by {
                assert(sv <= -1);
            }
            vstd::arithmetic::div_mod::lemma_mod_multiples_vanish(
                64,
                x,
                0x10000000000000000,
            );
            vstd::arithmetic::div_mod::lemma_mod_multiples_vanish(1, x, 0x10000000000000000);
            vstd::arithmetic::div_mod::lemma_small_mod(
                (x + 0x10000000000000000) as nat,
                0x10000000000000000,
            );
            assert(leb_value(cons) as int % 0x10000000000000000 == x + 0x10000000000000000);
        } else {
            assert(leb_value(cons) == x);
            assert(0 <= x < 0x8000000000000000);
            vstd::arithmetic::div_mod::lemma_small_mod(x as nat, 0x10000000000000000);
        }
    }
}

proof fn lemma_sleb_decode_encode(v: i64)
    ensures
        sleb_value(sleb_bytes(v)) == v,
        1 <= sleb_bytes(v).len() <= 10,
        all_continue(sleb_bytes(v), sleb_bytes(v).len() - 1),
        !continues(sleb_bytes(v).last()),
        (sleb_bytes(v).last() & 0x40u8 != 0) == (v < 0),
    decreases sleb_measure(v),
{
    let b7 = (v as u8) & 0x7f;
    let rest = v >> 7;
    lemma_sleb_split(v);
    lemma_sleb_terminal_range(v);
    assert(b7 == (v as u8) & 0x7fu8 ==> ((b7 & 0x7fu8) == b7 && b7 & 0x80u8 == 0 && (b7
        | 0x80u8) & 0x7fu8 == b7 && (b7 | 0x80u8) & 0x80u8 != 0 && (b7 | 0x80u8) & 0x40u8 == b7
        & 0x40u8)) by (bit_vector);
    if -64 <= v < 64 {
        assert(sleb_bytes(v) =~= seq![b7]);
        assert(seq![b7].drop_first() =~= Seq::<u8>::empty());
        assert(leb_value(seq![b7]) == (b7 & 0x7fu8) as nat + 128 * leb_value(
            Seq::<u8>::empty(),
        ));
        assert(pow128(0) == 1);
        assert(pow128(1) == 128);
        if b7 & 0x40u8 != 0 {
            assert(rest == -1);
            assert(sleb_value(seq![b7]) == b7 - 128);
        } else {
            assert(rest == 0);
            assert(sleb_value(seq![b7]) == b7);
        }
    } else {
        lemma_sleb_shift_shrinks(v);
        lemma_sleb_decode_encode(rest);
        let s = sleb_bytes(rest);
        assert(pow128(9) == 0x8000000000000000) by {
            reveal_with_fuel(pow128, 10);
        }
        lemma_sleb_len(rest, 9);
        lemma_sleb_value_cons(b7 | 0x80, s);
        assert(sleb_bytes(v) =~= seq![b7 | 0x80u8] + s);
        assert(sleb_value(sleb_bytes(v)) == b7 + 128 * rest);
        assert forall|j: int| 0 <= j < sleb_bytes(v).len() - 1 implies continues(
            sleb_bytes(v)[j],
        ) by {
            if j > 0 {
                assert(sleb_bytes(v)[j] == s[j - 1]);
                assert(continues(s[j - 1]));
            }
        }
        assert(sleb_bytes(v).last() == s.last());
    }
}

/// Law: writing a value with the signed codec and reading the bytes back
/// recovers it.  The canonical encoding is a run of at most nine
/// continuation bytes closed by one terminating byte, at most ten in all,
/// so `SLEB128::read_from` accepts exactly this prefix and, by its own
/// contract, returns exactly `v`.
pub proof fn lemma_sleb_round_trip(v: i64)
    ensures
        sleb_value(sleb_bytes(v)) == v,
        1 <= sleb_bytes(v).len() <= 10,
        all_continue(sleb_bytes(v), sleb_bytes(v).len() - 1),
        !continues(sleb_bytes(v).last()),
{
    lemma_sleb_decode_encode(v);
}

impl From<u64> for ULEB128 {
    /// Wraps a `u64` for unsigned LEB128 (de)serialization.
    fn from(val: u64) -> (r: ULEB128) {
        ULEB128(val)
    }
}

impl vstd::std_specs::convert::FromSpecImpl<u64> for ULEB128 {
    open spec fn obeys_from_spec() -> bool {
        true
    }

    open spec fn from_spec(val: u64) -> ULEB128 {
        ULEB128(val)
    }
}

impl From<i64> for SLEB128 {
    /// Wraps an `i64` for signed LEB128 (de)serialization.
    fn from(val: i64) -> (r: SLEB128) {
        SLEB128(val)
    }
}

impl vstd::std_specs::convert::FromSpecImpl<i64> for SLEB128 {
    open spec fn obeys_from_spec() -> bool {
        true
    }

    open spec fn from_spec(val: i64) -> SLEB128 {
        SLEB128(val)
    }
}

} // verus!
