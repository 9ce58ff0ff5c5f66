//! Primitives of the tagged, length-delimited wire format: unsigned varints
//! and the byte-level helpers that the message codecs build on.

use vstd::prelude::*;

verus! {

/// Why a byte sequence was rejected while decoding a message.
#[derive(Clone, Copy, Debug, PartialEq, Eq, Structural)]
pub enum DecodeError {
    /// The input ended before the encoding of the current item was complete.
    Truncated,
    /// A varint ran past ten bytes or did not fit in 64 bits.
    MalformedVarint,
    /// A field key was zero or did not fit in 32 bits.
    InvalidKey,
    /// A known field carried a wire type other than the one the schema
    /// declares for it, or an unknown field carried an unsupported wire type.
    WireTypeMismatch,
    /// A string field held bytes that are not valid UTF-8.
    InvalidUtf8,
}

/// 128 raised to the power `k`: the weight of the `k`-th base-128 digit of a
/// varint.
pub open spec fn pow128(k: nat) -> nat
    decreases k,
{
    if k == 0 {
        1
    } else {
        128 * pow128((k - 1) as nat)
    }
}

/// The canonical varint encoding of `n`: base-128 digits, least significant
/// first, each non-final byte marked with the continuation bit.
pub open spec fn varint_bytes(n: nat) -> Seq<u8>
    decreases n,
{
    if n < 128 {
        seq![n as u8]
    } else {
        seq![(n % 128 + 128) as u8] + varint_bytes(n / 128)
    }
}

/// One step of varint parsing: `count` digits already read into `acc`.
/// Mirrors the usual ten-byte bound on 64-bit varints: a varint longer than
/// ten bytes, or whose tenth digit exceeds 1, is malformed.
pub open spec fn parse_varint_rec(s: Seq<u8>, count: nat, acc: nat) -> Result<
    (nat, Seq<u8>),
    DecodeError,
>
    decreases s.len(),
{
    if count >= 10 {
        Err(DecodeError::MalformedVarint)
    } else if s.len() == 0 {
        Err(DecodeError::Truncated)
    } else {
        let b = s[0];
        if b < 128 {
            if count == 9 && b >= 2 {
                Err(DecodeError::MalformedVarint)
            } else {
                Ok(((acc + b * pow128(count)) as nat, s.drop_first()))
            }
        } else {
            parse_varint_rec(s.drop_first(), count + 1, (acc + (b - 128) * pow128(count)) as nat)
        }
    }
}

/// Parse one varint from the front of `s`, returning its value and the
/// remaining bytes.
pub open spec fn parse_varint(s: Seq<u8>) -> Result<(nat, Seq<u8>), DecodeError> {
    parse_varint_rec(s, 0, 0)
}

pub proof fn lemma_pow128_pos(k: nat)
    ensures
        pow128(k) >= 1,
    decreases k,
{
    if k > 0 {
        lemma_pow128_pos((k - 1) as nat);
    }
}

pub proof fn lemma_pow128_mono(j: nat, k: nat)
    requires
        j <= k,
    ensures
        pow128(j) <= pow128(k),
    decreases k,
{
    if j < k {
        lemma_pow128_mono(j, (k - 1) as nat);
        lemma_pow128_pos((k - 1) as nat);
        assert(pow128(k) == 128 * pow128((k - 1) as nat));
    }
}

pub proof fn lemma_pow128_values()
    ensures
        pow128(9) == 0x8000000000000000,
        pow128(8) == 0x100000000000000,
{
    reveal_with_fuel(pow128, 10);
}

/// A successful varint parse yields a value below 2^64 and consumes at least
/// one byte.
pub proof fn lemma_parse_varint_rec_bound(s: Seq<u8>, count: nat, acc: nat)
    requires
        count <= 9,
        acc < pow128(count),
    ensures
        parse_varint_rec(s, count, acc) matches Ok(r) ==> r.0 < 0x10000000000000000 && r.1.len()
            < s.len(),
    decreases s.len(),
{
    lemma_pow128_values();
    if s.len() > 0 {
        let b = s[0];
        if b < 128 {
            if !(count == 9 && b >= 2) {
                lemma_pow128_pos(count);
                if count < 9 {
                    lemma_pow128_mono(count + 1, 9);
                    assert(acc + b * pow128(count) < 128 * pow128(count)) by (nonlinear_arith)
                        requires
                            acc < pow128(count),
                            b < 128,
                            pow128(count) >= 1,
                    ;
                    assert(128 * pow128(count) == pow128(count + 1));
                } else {
                    assert(acc + b * pow128(count) < 2 * pow128(count)) by (nonlinear_arith)
                        requires
                            acc < pow128(count),
                            b < 2,
                            pow128(count) >= 1,
                    ;
                }
            }
        } else {
            if count < 9 {
                let acc2 = (acc + (b - 128) * pow128(count)) as nat;
                assert(acc + (b - 128) * pow128(count) < 128 * pow128(count)) by (nonlinear_arith)
                    requires
                        acc < pow128(count),
                        b - 128 < 128,
                        0 <= b - 128,
                        pow128(count) >= 1,
                ;
                assert(128 * pow128(count) == pow128(count + 1));
                lemma_parse_varint_rec_bound(s.drop_first(), count + 1, acc2);
            }
        }
    }
}

/// Parsing resumes the canonical encoding: reading `varint_bytes(n)` from the
/// front of the input adds `n` at the current digit weight and leaves the
/// trailing bytes untouched.
pub proof fn lemma_parse_varint_rec_encoding(n: nat, t: Seq<u8>, count: nat, acc: nat)
    requires
        count <= 9,
        acc < pow128(count),
        acc + n * pow128(count) < 0x10000000000000000,
    ensures
        parse_varint_rec(varint_bytes(n) + t, count, acc) == Ok::<(nat, Seq<u8>), DecodeError>(
            ((acc + n * pow128(count)) as nat, t),
        ),
    decreases n,
{
    lemma_pow128_values();
    lemma_pow128_pos(count);
    let s = varint_bytes(n) + t;
    if n < 128 {
        assert(s[0] == n as u8);
        assert(s.drop_first() =~= t);
        if count == 9 {
            assert(n < 2) by (nonlinear_arith)
                requires
                    n * 0x8000000000000000 < 0x10000000000000000,
                    n < 128,
            ;
        }
    } else {
        let b = (n % 128 + 128) as u8;
        assert(s[0] == b);
        assert(s.drop_first() =~= varint_bytes(n / 128) + t);
        // A continuation byte at digit nine would push the value past 2^64.
        assert(count < 9) by {
            if count >= 9 {
                assert(n * pow128(count) >= 128 * 0x8000000000000000) by (nonlinear_arith)
                    requires
                        n >= 128,
                        pow128(count) >= 0x8000000000000000,
                ;
            }
        }
        let acc2 = (acc + (n % 128) * pow128(count)) as nat;
        assert(acc2 < pow128(count + 1)) by (nonlinear_arith)
            requires
                acc < pow128(count),
                acc2 == acc + (n % 128) * pow128(count),
                n % 128 < 128,
                pow128(count) >= 1,
                pow128(count + 1) == 128 * pow128(count),
        ;
        assert(acc2 + (n / 128) * pow128(count + 1) == acc + n * pow128(count)) by (nonlinear_arith)
            requires
                acc2 == acc + (n % 128) * pow128(count),
                pow128(count + 1) == 128 * pow128(count),
        ;
        lemma_parse_varint_rec_encoding(n / 128, t, count + 1, acc2);
        assert((b - 128) as nat == n % 128);
    }
}

/// A successful varint parse at the front of the input yields a value below
/// 2^64 and consumes at least one byte.
pub proof fn lemma_parse_varint_shrinks(s: Seq<u8>)
    ensures
        parse_varint(s) matches Ok(r) ==> r.0 < 0x10000000000000000 && r.1.len() < s.len(),
{
    assert(pow128(0) == 1);
    lemma_parse_varint_rec_bound(s, 0, 0);
}

/// Round trip for a single varint: parsing its canonical encoding yields the
/// encoded value and the bytes that follow it.
pub proof fn lemma_parse_varint_encoding(n: nat, t: Seq<u8>)
    requires
        n < 0x10000000000000000,
    ensures
        parse_varint(varint_bytes(n) + t) == Ok::<(nat, Seq<u8>), DecodeError>((n, t)),
{
    lemma_parse_varint_rec_encoding(n, t, 0, 0);
    assert(pow128(0) == 1);
    assert(0 + n * 1 == n) by (nonlinear_arith);
}

/// Append the canonical varint encoding of `n` to `out`.
pub fn write_varint(out: &mut Vec<u8>, n: u64)
    ensures
        final(out)@ == old(out)@ + varint_bytes(n as nat),
    decreases n,
{
    let ghost pre = out@;
    if n < 128 {
        out.push(n as u8);
        assert(out@ =~= pre + varint_bytes(n as nat));
    } else {
        out.push((n % 128 + 128) as u8);
        write_varint(out, n / 128);
        assert(out@ =~= pre + varint_bytes(n as nat));
    }
}

fn decode_varint_rec(s: &Vec<u8>, pos: usize, count: u32, acc: u64, mult: u64) -> (r: Result<
    (u64, usize),
    DecodeError,
>)
    requires
        pos <= s@.len(),
        count <= 9,
        mult == pow128(count as nat),
        acc < pow128(count as nat),
    ensures
        ({
            let p = parse_varint_rec(
                s@.subrange(pos as int, s@.len() as int),
                count as nat,
                acc as nat,
            );
            match r {
                Ok(vp) => pos <= vp.1 <= s@.len() && p == Ok::<(nat, Seq<u8>), DecodeError>(
                    (vp.0 as nat, s@.subrange(vp.1 as int, s@.len() as int)),
                ),
                Err(e) => p == Err::<(nat, Seq<u8>), DecodeError>(e),
            }
        }),
    decreases s@.len() - pos,
{
    proof {
        lemma_pow128_values();
        lemma_pow128_mono(count as nat, 9);
        lemma_pow128_pos(count as nat);
    }
    let ghost rem = s@.subrange(pos as int, s@.len() as int);
    if pos == s.len() {
        return Err(DecodeError::Truncated);
    }
    let b = s[pos];
    assert(b == rem[0]);
    assert(rem.drop_first() =~= s@.subrange(pos as int + 1, s@.len() as int));
    if b < 128 {
        if count == 9 && b >= 2 {
            Err(DecodeError::MalformedVarint)
        } else {
            if count < 9 {
                assert(acc + b * mult < 128 * pow128(count as nat)) by (nonlinear_arith)
                    requires
                        acc < pow128(count as nat),
                        mult == pow128(count as nat),
                        b < 128,
                        pow128(count as nat) >= 1,
                ;
                assert(128 * pow128(count as nat) == pow128(count as nat + 1));
                proof {
                    lemma_pow128_mono(count as nat + 1, 9);
                }
            } else {
                assert(acc + b * mult < 2 * pow128(9)) by (nonlinear_arith)
                    requires
                        acc < pow128(9),
                        mult == pow128(9),
                        b < 2,
                        pow128(9) >= 1,
                ;
            }
            Ok((acc + (b as u64) * mult, pos + 1))
        }
    } else {
        if count == 9 {
            // The spec parser takes one more step and then rejects the
            // eleventh digit; the outcome is the same.
            proof {
                reveal_with_fuel(parse_varint_rec, 2);
            }
            assert(parse_varint_rec(rem, count as nat, acc as nat) == Err::<
                (nat, Seq<u8>),
                DecodeError,
            >(DecodeError::MalformedVarint));
            Err(DecodeError::MalformedVarint)
        } else {
            assert(acc + (b - 128) * mult < 128 * pow128(count as nat)) by (nonlinear_arith)
                requires
                    acc < pow128(count as nat),
                    mult == pow128(count as nat),
                    0 <= b - 128 < 128,
                    pow128(count as nat) >= 1,
            ;
            assert(128 * pow128(count as nat) == pow128(count as nat + 1));
            proof {
                lemma_pow128_mono(count as nat + 1, 9);
                lemma_pow128_mono(count as nat, 8);
            }
            assert(mult * 128 == pow128(count as nat + 1));
            decode_varint_rec(s, pos + 1, count + 1, acc + ((b - 128) as u64) * mult, mult * 128)
        }
    }
}

/// Parse one varint from `s` starting at `pos`, returning its value and the
/// position of the first byte after it.
pub fn decode_varint_from(s: &Vec<u8>, pos: usize) -> (r: Result<(u64, usize), DecodeError>)
    requires
        pos <= s@.len(),
    ensures
        ({
            let p = parse_varint(s@.subrange(pos as int, s@.len() as int));
            match r {
                Ok(vp) => pos <= vp.1 <= s@.len() && p == Ok::<(nat, Seq<u8>), DecodeError>(
                    (vp.0 as nat, s@.subrange(vp.1 as int, s@.len() as int)),
                ),
                Err(e) => p == Err::<(nat, Seq<u8>), DecodeError>(e),
            }
        }),
{
    decode_varint_rec(s, pos, 0, 0, 1)
}

} // verus!
