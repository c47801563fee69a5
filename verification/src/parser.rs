//! The chunk parser: a strict sequential scanner for the hyphenated
//! hexadecimal form of a GUID (8-4-4-4-12 hex digits, either case).

use vstd::prelude::*;

use crate::chunks::{u48, Chunks};

verus! {

/// What went wrong at one byte of the input.
#[derive(Eq, PartialEq, Clone, Copy, Debug)]
pub enum ErrorKind {
    /// A byte outside the hex-digit alphabet stood where a hex digit was
    /// required.
    UnexpectedByte,
    /// The input was exhausted before a fixed-width field was complete.
    TooShort,
    /// A required hyphen was missing or replaced by another byte.
    ExpectedSeparator,
    /// The input went on after a complete GUID (reported only by the entry
    /// points that demand that the whole input be one GUID).
    TrailingContent,
}

/// A terminal parse failure: its kind, and the byte offset at which it
/// occurred.
#[derive(Eq, PartialEq, Clone, Copy, Debug)]
pub struct ParseError {
    pub kind: ErrorKind,
    pub offset: usize,
}

/// Whether a byte is an ASCII hex digit (`0-9`, `A-F`, `a-f`).
pub open spec fn is_hex_digit(b: u8) -> bool {
    (48 <= b && b <= 57) || (65 <= b && b <= 70) || (97 <= b && b <= 102)
}

/// The 4-bit value of an ASCII hex digit (0 for any other byte).
pub open spec fn hex_val(b: u8) -> u8 {
    if 48 <= b && b <= 57 {
        (b - 48) as u8
    } else if 65 <= b && b <= 70 {
        (b - 65 + 10) as u8
    } else if 97 <= b && b <= 102 {
        (b - 97 + 10) as u8
    } else {
        0
    }
}

/// The value of a run of hex digits read big-endian: the first digit is the
/// most significant nibble.
pub open spec fn chunk_val(s: Seq<u8>) -> nat
    decreases s.len(),
{
    if s.len() == 0 {
        0
    } else {
        (16 * chunk_val(s.drop_last()) + hex_val(s.last())) as nat
    }
}

/// 16 to the power `n`: the number of values a run of `n` hex digits can
/// take.
pub open spec fn pow16(n: nat) -> nat
    decreases n,
{
    if n == 0 {
        1
    } else {
        16 * pow16((n - 1) as nat)
    }
}

/// The input holds `n` hex digits starting at `pos`.
pub open spec fn digits_ok(s: Seq<u8>, pos: int, n: int) -> bool {
    &&& 0 <= pos
    &&& pos + n <= s.len()
    &&& forall|k: int| pos <= k < pos + n ==> is_hex_digit(s[k])
}

/// The offset at which a fixed-width field read of `n` digits starting at
/// `pos` gives up: the first position that is past the end of the input or
/// holds a non-hex byte (`pos + n` itself if the whole field is present).
pub open spec fn field_fail_at(s: Seq<u8>, pos: int, n: int) -> int
    decreases n,
{
    if n <= 0 {
        pos
    } else if pos >= s.len() || !is_hex_digit(s[pos]) {
        pos
    } else {
        field_fail_at(s, pos + 1, n - 1)
    }
}

/// The failure a single hex-digit read at `pos` reports: `TooShort` past the
/// end of the input, `UnexpectedByte` on a non-hex byte.
pub open spec fn digit_error(s: Seq<u8>, pos: int) -> ParseError {
    if pos >= s.len() {
        ParseError { kind: ErrorKind::TooShort, offset: pos as usize }
    } else {
        ParseError { kind: ErrorKind::UnexpectedByte, offset: pos as usize }
    }
}

/// The failure a fixed-width field read of `n` digits at `pos` reports.
pub open spec fn field_error(s: Seq<u8>, pos: int, n: int) -> ParseError {
    digit_error(s, field_fail_at(s, pos, n))
}

/// The ASCII hyphen that separates the five fields.
pub open spec fn spec_hyphen() -> u8 {
    45
}

/// The input holds a hyphen at `pos`.
pub open spec fn sep_ok(s: Seq<u8>, pos: int) -> bool {
    pos < s.len() && s[pos] == spec_hyphen()
}

/// The outcome of the whole sequential parse: the five fields and the four
/// separators in order, each field of its exact width, with the first
/// failure reported at the offset where it occurred.  A successful parse
/// consumes exactly 36 bytes; what follows them is left to the caller.
pub open spec fn spec_parse(s: Seq<u8>) -> Result<Chunks, ParseError> {
    if !digits_ok(s, 0, 8) {
        Err(field_error(s, 0, 8))
    } else if !sep_ok(s, 8) {
        Err(ParseError { kind: ErrorKind::ExpectedSeparator, offset: 8 })
    } else if !digits_ok(s, 9, 4) {
        Err(field_error(s, 9, 4))
    } else if !sep_ok(s, 13) {
        Err(ParseError { kind: ErrorKind::ExpectedSeparator, offset: 13 })
    } else if !digits_ok(s, 14, 4) {
        Err(field_error(s, 14, 4))
    } else if !sep_ok(s, 18) {
        Err(ParseError { kind: ErrorKind::ExpectedSeparator, offset: 18 })
    } else if !digits_ok(s, 19, 4) {
        Err(field_error(s, 19, 4))
    } else if !sep_ok(s, 23) {
        Err(ParseError { kind: ErrorKind::ExpectedSeparator, offset: 23 })
    } else if !digits_ok(s, 24, 12) {
        Err(field_error(s, 24, 12))
    } else {
        Ok(spec_chunks(s))
    }
}

/// The chunks a successful parse of `s` decodes: each field is the value of
/// its digits, read big-endian.
pub open spec fn spec_chunks(s: Seq<u8>) -> Chunks {
    Chunks {
        chunk1: chunk_val(s.subrange(0, 8)) as u32,
        chunk2: chunk_val(s.subrange(9, 13)) as u16,
        chunk3: chunk_val(s.subrange(14, 18)) as u16,
        chunk4: chunk_val(s.subrange(19, 23)) as u16,
        chunk5: u48 {
            hi: chunk_val(s.subrange(24, 28)) as u16,
            lo: chunk_val(s.subrange(28, 36)) as u32,
        },
    }
}

/// A 36-byte sequence is the canonical form of a GUID: hyphens at offsets 8,
/// 13, 18 and 23, hex digits everywhere else.
pub open spec fn is_canonical(s: Seq<u8>) -> bool {
    &&& s.len() == 36
    &&& s[8] == spec_hyphen()
    &&& s[13] == spec_hyphen()
    &&& s[18] == spec_hyphen()
    &&& s[23] == spec_hyphen()
    &&& forall|k: int|
        0 <= k < 36 && k != 8 && k != 13 && k != 18 && k != 23 ==> is_hex_digit(s[k])
}

/// The value of a run of digits is below 16 to the number of digits.
pub proof fn lemma_chunk_val_bound(s: Seq<u8>)
    ensures
        chunk_val(s) < pow16(s.len()),
    decreases s.len(),
{
    if s.len() > 0 {
        lemma_chunk_val_bound(s.drop_last());
    }
}

/// Appending one digit multiplies the value by 16 and adds the digit.
pub proof fn lemma_chunk_val_step(s: Seq<u8>, pos: int, i: int)
    requires
        0 <= pos <= i < s.len(),
    ensures
        chunk_val(s.subrange(pos, i + 1)) == 16 * chunk_val(s.subrange(pos, i)) + hex_val(s[i]),
{
    assert(s.subrange(pos, i + 1).drop_last() =~= s.subrange(pos, i));
    assert(s.subrange(pos, i + 1).last() == s[i]);
}

/// Reading a field of `n` digits at `pos`, the first `k` of which are
/// present, gives up exactly where a field of `n - k` digits at `pos + k`
/// does.
pub proof fn lemma_field_skip(s: Seq<u8>, pos: int, n: int, k: int)
    requires
        0 <= k <= n,
        digits_ok(s, pos, k),
    ensures
        field_fail_at(s, pos, n) == field_fail_at(s, pos + k, n - k),
        digits_ok(s, pos, n) <==> digits_ok(s, pos + k, n - k),
    decreases k,
{
    if k > 0 {
        assert(is_hex_digit(s[pos]));
        assert(digits_ok(s, pos + 1, k - 1));
        lemma_field_skip(s, pos + 1, n - 1, k - 1);
        assert(digits_ok(s, pos, n) <==> digits_ok(s, pos + 1, n - 1));
    }
}

/// Read one hex digit at `pos` and return its 4-bit value; any other byte,
/// or the end of the input, is a failure at `pos`.
pub fn hex_digit(i: &[u8], pos: usize) -> (r: Result<u8, ParseError>)
    ensures
        pos < i@.len() && is_hex_digit(i@[pos as int]) ==> r == Ok::<u8, ParseError>(
            hex_val(i@[pos as int]),
        ),
        !(pos < i@.len() && is_hex_digit(i@[pos as int])) ==> r == Err::<u8, ParseError>(
            digit_error(i@, pos as int),
        ),
{
    if pos >= i.len() {
        return Err(ParseError { kind: ErrorKind::TooShort, offset: pos });
    }
    let b = i[pos];
    if 48 <= b && b <= 57 {
        Ok(b - 48)
    } else if 65 <= b && b <= 70 {
        Ok(b - 65 + 10)
    } else if 97 <= b && b <= 102 {
        Ok(b - 97 + 10)
    } else {
        Err(ParseError { kind: ErrorKind::UnexpectedByte, offset: pos })
    }
}

/// Read exactly `n` hex digits at `pos` and combine them big-endian into an
/// unsigned integer.  Fails where the first missing or non-hex byte stands;
/// never consumes an `n + 1`-th digit.
pub fn hex_field(i: &[u8], pos: usize, n: usize) -> (r: Result<u64, ParseError>)
    requires
        n <= 12,
    ensures
        digits_ok(i@, pos as int, n as int) ==> r == Ok::<u64, ParseError>(
            chunk_val(i@.subrange(pos as int, pos + n)) as u64,
        ),
        !digits_ok(i@, pos as int, n as int) ==> r == Err::<u64, ParseError>(
            field_error(i@, pos as int, n as int),
        ),
{
    if pos > i.len() {
        return Err(ParseError { kind: ErrorKind::TooShort, offset: pos });
    }
    let mut v: u64 = 0;
    let mut k: usize = 0;
    while k < n
        invariant
            n <= 12,
            k <= n,
            pos + k <= i@.len() <= usize::MAX,
            digits_ok(i@, pos as int, k as int),
            v == chunk_val(i@.subrange(pos as int, pos + k)),
        decreases n - k,
    {
        proof {
            lemma_chunk_val_bound(i@.subrange(pos as int, pos + k));
            lemma_pow16_le(k as nat, 11);
            assert(pow16(11) == 0x1000_0000_0000) by {
                reveal_with_fuel(pow16, 12);
            }
        }
        match hex_digit(i, pos + k) {
            Ok(d) => {
                proof {
                    lemma_chunk_val_step(i@, pos as int, pos + k);
                    assert(digits_ok(i@, pos as int, k + 1));
                }
                v = 16 * v + (d as u64);
                k = k + 1;
            },
            Err(e) => {
                proof {
                    lemma_field_skip(i@, pos as int, n as int, k as int);
                    assert(field_fail_at(i@, pos + k, n - k) == pos + k);
                }
                return Err(e);
            },
        }
    }
    Ok(v)
}

/// Widening a field read that has already failed does not move the failure.
pub proof fn lemma_field_fail_mono(s: Seq<u8>, pos: int, n: int, m: int)
    requires
        0 <= pos,
        0 <= n <= m,
        !digits_ok(s, pos, n),
    ensures
        field_fail_at(s, pos, m) == field_fail_at(s, pos, n),
        !digits_ok(s, pos, m),
    decreases n,
{
    if n == 0 {
        assert(pos > s.len());
    } else if pos < s.len() && is_hex_digit(s[pos]) {
        assert(!digits_ok(s, pos + 1, n - 1)) by {
            if digits_ok(s, pos + 1, n - 1) {
                assert(forall|k: int| pos <= k < pos + n ==> is_hex_digit(s[k]));
            }
        }
        lemma_field_fail_mono(s, pos + 1, n - 1, m - 1);
        assert(!digits_ok(s, pos, m)) by {
            if digits_ok(s, pos, m) {
                assert(digits_ok(s, pos + 1, m - 1));
            }
        }
    }
}

/// Read the four hex digits of a 16-bit field at `pos`.
pub fn short_chunk(i: &[u8], pos: usize) -> (r: Result<u16, ParseError>)
    ensures
        digits_ok(i@, pos as int, 4) ==> r == Ok::<u16, ParseError>(
            chunk_val(i@.subrange(pos as int, pos + 4)) as u16,
        ),
        !digits_ok(i@, pos as int, 4) ==> r == Err::<u16, ParseError>(
            field_error(i@, pos as int, 4),
        ),
{
    match hex_field(i, pos, 4) {
        Ok(v) => {
            proof {
                lemma_chunk_val_bound(i@.subrange(pos as int, pos + 4));
                assert(pow16(4) == 0x1_0000) by {
                    reveal_with_fuel(pow16, 5);
                }
            }
            Ok(v as u16)
        },
        Err(e) => Err(e),
    }
}

/// Read the eight hex digits of a 32-bit field at `pos`.
pub fn medium_chunk(i: &[u8], pos: usize) -> (r: Result<u32, ParseError>)
    ensures
        digits_ok(i@, pos as int, 8) ==> r == Ok::<u32, ParseError>(
            chunk_val(i@.subrange(pos as int, pos + 8)) as u32,
        ),
        !digits_ok(i@, pos as int, 8) ==> r == Err::<u32, ParseError>(
            field_error(i@, pos as int, 8),
        ),
{
    match hex_field(i, pos, 8) {
        Ok(v) => {
            proof {
                lemma_chunk_val_bound(i@.subrange(pos as int, pos + 8));
                assert(pow16(8) == 0x1_0000_0000) by {
                    reveal_with_fuel(pow16, 9);
                }
            }
            Ok(v as u32)
        },
        Err(e) => Err(e),
    }
}

/// Read the twelve hex digits of a 48-bit field at `pos`: a 16-bit high part
/// followed by a 32-bit low part.
pub fn long_chunk(i: &[u8], pos: usize) -> (r: Result<u48, ParseError>)
    requires
        pos + 12 <= usize::MAX,
    ensures
        digits_ok(i@, pos as int, 12) ==> r == Ok::<u48, ParseError>(
            u48 {
                hi: chunk_val(i@.subrange(pos as int, pos + 4)) as u16,
                lo: chunk_val(i@.subrange(pos + 4, pos + 12)) as u32,
            },
        ),
        !digits_ok(i@, pos as int, 12) ==> r == Err::<u48, ParseError>(
            field_error(i@, pos as int, 12),
        ),
{
    let hi = match short_chunk(i, pos) {
        Ok(v) => v,
        Err(e) => {
            proof {
                lemma_field_fail_mono(i@, pos as int, 4, 12);
            }
            return Err(e);
        },
    };
    let lo = match medium_chunk(i, pos + 4) {
        Ok(v) => v,
        Err(e) => {
            proof {
                lemma_field_skip(i@, pos as int, 12, 4);
            }
            return Err(e);
        },
    };
    proof {
        lemma_field_skip(i@, pos as int, 12, 4);
    }
    Ok(u48 { hi, lo })
}

/// Consume exactly one literal hyphen at `pos`.
pub fn separator(i: &[u8], pos: usize) -> (r: Result<(), ParseError>)
    ensures
        sep_ok(i@, pos as int) ==> r == Ok::<(), ParseError>(()),
        !sep_ok(i@, pos as int) ==> r == Err::<(), ParseError>(
            ParseError { kind: ErrorKind::ExpectedSeparator, offset: pos },
        ),
{
    if pos < i.len() && i[pos] == 45 {
        Ok(())
    } else {
        Err(ParseError { kind: ErrorKind::ExpectedSeparator, offset: pos })
    }
}

/// Parse the five chunks of a GUID at the start of the input: a 32-bit
/// field, then, each after one hyphen, a 16-bit, a 16-bit, a 16-bit and a
/// 48-bit field.  The first failure aborts the parse with its offset; a
/// successful parse consumes exactly 36 bytes and says nothing about what
/// follows them.
pub fn chunks(i: &[u8]) -> (r: Result<Chunks, ParseError>)
    ensures
        r == spec_parse(i@),
{
    let chunk1 = match medium_chunk(i, 0) {
        Ok(v) => v,
        Err(e) => return Err(e),
    };
    match separator(i, 8) {
        Ok(_) => (),
        Err(e) => return Err(e),
    }
    let chunk2 = match short_chunk(i, 9) {
        Ok(v) => v,
        Err(e) => return Err(e),
    };
    match separator(i, 13) {
        Ok(_) => (),
        Err(e) => return Err(e),
    }
    let chunk3 = match short_chunk(i, 14) {
        Ok(v) => v,
        Err(e) => return Err(e),
    };
    match separator(i, 18) {
        Ok(_) => (),
        Err(e) => return Err(e),
    }
    let chunk4 = match short_chunk(i, 19) {
        Ok(v) => v,
        Err(e) => return Err(e),
    };
    match separator(i, 23) {
        Ok(_) => (),
        Err(e) => return Err(e),
    }
    let chunk5 = match long_chunk(i, 24) {
        Ok(v) => v,
        Err(e) => return Err(e),
    };
    proof {
        assert(i@.subrange(24, 28) =~= i@.subrange(24int, (24 + 4) as int));
        assert(i@.subrange(28, 36) =~= i@.subrange((24 + 4) as int, (24 + 12) as int));
    }
    Ok(Chunks { chunk1, chunk2, chunk3, chunk4, chunk5 })
}

/// Law: the parse succeeds exactly on inputs that begin with the canonical
/// 36-character form — five fields of 8, 4, 4, 4 and 12 hex digits with a
/// hyphen between neighbours — and nowhere else.
pub proof fn lemma_parse_ok_iff_canonical(s: Seq<u8>)
    ensures
        spec_parse(s) is Ok <==> s.len() >= 36 && is_canonical(s.subrange(0, 36)),
{
    if spec_parse(s) is Ok {
        let t = s.subrange(0, 36);
        assert forall|k: int|
            0 <= k < 36 && k != 8 && k != 13 && k != 18 && k != 23 implies is_hex_digit(
            t[k],
        ) by {
            assert(t[k] == s[k]);
            if k < 8 {
                assert(digits_ok(s, 0, 8));
            } else if k < 13 {
                assert(digits_ok(s, 9, 4));
            } else if k < 18 {
                assert(digits_ok(s, 14, 4));
            } else if k < 23 {
                assert(digits_ok(s, 19, 4));
            } else {
                assert(digits_ok(s, 24, 12));
            }
        }
        assert(is_canonical(t));
    }
    if s.len() >= 36 && is_canonical(s.subrange(0, 36)) {
        let t = s.subrange(0, 36);
        assert forall|k: int| 0 <= k < 36 && k != 8 && k != 13 && k != 18 && k != 23
            implies is_hex_digit(s[k]) by {
            assert(is_hex_digit(t[k]));
            assert(t[k] == s[k]);
        }
        assert(s[8] == t[8] && s[13] == t[13] && s[18] == t[18] && s[23] == t[23]);
        assert(digits_ok(s, 0, 8));
        assert(digits_ok(s, 9, 4));
        assert(digits_ok(s, 14, 4));
        assert(digits_ok(s, 19, 4));
        assert(digits_ok(s, 24, 12));
    }
}

/// `pow16` does not shrink as the exponent grows.
pub proof fn lemma_pow16_le(a: nat, b: nat)
    requires
        a <= b,
    ensures
        pow16(a) <= pow16(b),
    decreases b,
{
    if a < b {
        lemma_pow16_le(a, (b - 1) as nat);
        assert(pow16(b) == 16 * pow16((b - 1) as nat));
    }
}

} // verus!

