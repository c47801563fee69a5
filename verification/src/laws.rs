//! Laws of the parser that relate several functions: the round trip from a
//! 16-byte layout through its canonical text and back, and the indifference
//! of the parse to the case of its hex digits.

use vstd::prelude::*;

use vstd::arithmetic::div_mod::{
    lemma_fundamental_div_mod, lemma_fundamental_div_mod_converse, lemma_small_mod,
};

use crate::chunks::guid_bytes;
use crate::parser::{
    chunk_val, digits_ok, is_canonical, is_hex_digit, hex_val, pow16, spec_chunks, spec_hyphen,
    spec_parse,
};

verus! {

/// The lowercase hex digit of a 4-bit value.
pub open spec fn hex_char(v: u8) -> u8 {
    if v < 10 {
        (48 + v) as u8
    } else {
        (87 + v) as u8
    }
}

/// The two lowercase hex digits of a byte, most significant nibble first.
pub open spec fn byte_text(b: u8) -> Seq<u8> {
    seq![hex_char(b / 16), hex_char(b % 16)]
}

/// The four lowercase hex digits of the two bytes at `j` and `j + 1`.
pub open spec fn pair_text(bs: Seq<u8>, j: int) -> Seq<u8> {
    byte_text(bs[j]) + byte_text(bs[j + 1])
}

/// The eight lowercase hex digits of the four bytes at `j` to `j + 3`.
pub open spec fn quad_text(bs: Seq<u8>, j: int) -> Seq<u8> {
    byte_text(bs[j]) + byte_text(bs[j + 1]) + byte_text(bs[j + 2]) + byte_text(bs[j + 3])
}

/// The canonical hyphenated lowercase text of a 16-byte GUID layout.
pub open spec fn canonical_text(bs: Seq<u8>) -> Seq<u8> {
    quad_text(bs, 0) + seq![spec_hyphen()] + pair_text(bs, 4) + seq![spec_hyphen()] + pair_text(
        bs,
        6,
    ) + seq![spec_hyphen()] + pair_text(bs, 8) + seq![spec_hyphen()] + pair_text(bs, 10)
        + quad_text(bs, 12)
}

/// The two digits of a byte are hex digits and decode back to the byte.
proof fn lemma_byte_text(b: u8)
    ensures
        byte_text(b).len() == 2,
        is_hex_digit(byte_text(b)[0]),
        is_hex_digit(byte_text(b)[1]),
        chunk_val(byte_text(b)) == b,
{
    let s = byte_text(b);
    lemma_fundamental_div_mod(b as int, 16);
    assert(b / 16 < 16 && b % 16 < 16);
    assert(s.drop_last() =~= seq![hex_char(b / 16)]);
    assert(seq![hex_char(b / 16)].drop_last() =~= Seq::<u8>::empty());
    assert(chunk_val(Seq::<u8>::empty()) == 0);
    assert(chunk_val(seq![hex_char(b / 16)]) == hex_val(hex_char(b / 16)));
    assert(s.last() == hex_char(b % 16));
    assert(chunk_val(s) == 16 * hex_val(hex_char(b / 16)) + hex_val(hex_char(b % 16)));
}

/// Decoding a run of digits after another run weighs the first run by 16 to
/// the length of the second.
proof fn lemma_chunk_val_concat(a: Seq<u8>, b: Seq<u8>)
    ensures
        chunk_val(a + b) == chunk_val(a) * pow16(b.len()) + chunk_val(b),
    decreases b.len(),
{
    if b.len() == 0 {
        assert(a + b =~= a);
        assert(chunk_val(b) == 0);
        assert(pow16(b.len()) == 1);
        assert(chunk_val(a + b) == chunk_val(a) * pow16(b.len()) + chunk_val(b));
    } else {
        lemma_chunk_val_concat(a, b.drop_last());
        assert((a + b).drop_last() =~= a + b.drop_last());
        assert((a + b).last() == b.last());
        let p = pow16((b.len() - 1) as nat);
        assert(chunk_val(a + b) == 16 * chunk_val(a + b.drop_last()) + hex_val(b.last()));
        assert(chunk_val(b) == 16 * chunk_val(b.drop_last()) + hex_val(b.last()));
        assert(chunk_val(a + b) == 16 * (chunk_val(a) * p + chunk_val(b.drop_last())) + hex_val(
            b.last(),
        ));
        assert(16 * (chunk_val(a) * p) == chunk_val(a) * (16 * p)) by (nonlinear_arith);
        assert(chunk_val(a + b) == chunk_val(a) * (16 * p) + (16 * chunk_val(b.drop_last())
            + hex_val(b.last())));
        assert(pow16(b.len()) == 16 * p);
    }
}

/// The four digits of two bytes decode to their big-endian value.
proof fn lemma_pair_text(x: u8, y: u8)
    ensures
        (byte_text(x) + byte_text(y)).len() == 4,
        chunk_val(byte_text(x) + byte_text(y)) == 0x100 * x + y,
        forall|k: int|
            0 <= k < 4 ==> is_hex_digit(#[trigger] (byte_text(x) + byte_text(y))[k]),
{
    lemma_byte_text(x);
    lemma_byte_text(y);
    lemma_chunk_val_concat(byte_text(x), byte_text(y));
    assert(pow16(2) == 256) by {
        reveal_with_fuel(pow16, 3);
    }
}

/// The eight digits of four bytes decode to their big-endian value.
proof fn lemma_quad_text(x0: u8, x1: u8, x2: u8, x3: u8)
    ensures
        (byte_text(x0) + byte_text(x1) + byte_text(x2) + byte_text(x3)).len() == 8,
        chunk_val(byte_text(x0) + byte_text(x1) + byte_text(x2) + byte_text(x3)) == 0x100_0000 * x0
            + 0x1_0000 * x1 + 0x100 * x2 + x3,
        forall|k: int|
            0 <= k < 8 ==> is_hex_digit(
                #[trigger] (byte_text(x0) + byte_text(x1) + byte_text(x2) + byte_text(x3))[k],
            ),
{
    lemma_byte_text(x0);
    lemma_byte_text(x1);
    lemma_byte_text(x2);
    lemma_byte_text(x3);
    lemma_chunk_val_concat(byte_text(x0), byte_text(x1));
    lemma_chunk_val_concat(byte_text(x0) + byte_text(x1), byte_text(x2));
    lemma_chunk_val_concat(byte_text(x0) + byte_text(x1) + byte_text(x2), byte_text(x3));
    assert(pow16(2) == 0x100 && pow16(4) == 0x1_0000 && pow16(6) == 0x100_0000) by {
        reveal_with_fuel(pow16, 7);
    }
}

/// A big-endian 4-byte value gives its bytes back by division and remainder.
proof fn lemma_unpack4(c: int, b0: int, b1: int, b2: int, b3: int)
    requires
        0 <= b0 < 0x100,
        0 <= b1 < 0x100,
        0 <= b2 < 0x100,
        0 <= b3 < 0x100,
        c == 0x100_0000 * b0 + 0x1_0000 * b1 + 0x100 * b2 + b3,
    ensures
        (c / 0x100_0000) % 0x100 == b0,
        (c / 0x1_0000) % 0x100 == b1,
        (c / 0x100) % 0x100 == b2,
        c % 0x100 == b3,
{
    lemma_fundamental_div_mod_converse(c, 0x100_0000, b0, 0x1_0000 * b1 + 0x100 * b2 + b3);
    lemma_small_mod(b0 as nat, 0x100);
    lemma_fundamental_div_mod_converse(c, 0x1_0000, 0x100 * b0 + b1, 0x100 * b2 + b3);
    lemma_fundamental_div_mod_converse(0x100 * b0 + b1, 0x100, b0, b1);
    lemma_fundamental_div_mod_converse(c, 0x100, 0x1_0000 * b0 + 0x100 * b1 + b2, b3);
    lemma_fundamental_div_mod_converse(0x1_0000 * b0 + 0x100 * b1 + b2, 0x100, 0x100 * b0 + b1, b2);
}

/// A big-endian 2-byte value gives its bytes back by division and remainder.
proof fn lemma_unpack2(c: int, b0: int, b1: int)
    requires
        0 <= b0 < 0x100,
        0 <= b1 < 0x100,
        c == 0x100 * b0 + b1,
    ensures
        (c / 0x100) % 0x100 == b0,
        c % 0x100 == b1,
{
    lemma_fundamental_div_mod_converse(c, 0x100, b0, b1);
    lemma_small_mod(b0 as nat, 0x100);
}

/// Law: round trip.  Formatting any 16-byte layout as the canonical
/// hyphenated hex string and parsing the string back yields the same 16
/// bytes.
pub proof fn lemma_round_trip(bs: Seq<u8>)
    requires
        bs.len() == 16,
    ensures
        canonical_text(bs).len() == 36,
        is_canonical(canonical_text(bs)),
        spec_parse(canonical_text(bs)) is Ok,
        guid_bytes(spec_chunks(canonical_text(bs))) == bs,
{
    let t = canonical_text(bs);
    lemma_quad_text(bs[0], bs[1], bs[2], bs[3]);
    lemma_pair_text(bs[4], bs[5]);
    lemma_pair_text(bs[6], bs[7]);
    lemma_pair_text(bs[8], bs[9]);
    lemma_pair_text(bs[10], bs[11]);
    lemma_quad_text(bs[12], bs[13], bs[14], bs[15]);
    assert(t.len() == 36);
    assert(t.subrange(0, 8) =~= quad_text(bs, 0));
    assert(t[8] == spec_hyphen());
    assert(t.subrange(9, 13) =~= pair_text(bs, 4));
    assert(t[13] == spec_hyphen());
    assert(t.subrange(14, 18) =~= pair_text(bs, 6));
    assert(t[18] == spec_hyphen());
    assert(t.subrange(19, 23) =~= pair_text(bs, 8));
    assert(t[23] == spec_hyphen());
    assert(t.subrange(24, 28) =~= pair_text(bs, 10));
    assert(t.subrange(28, 36) =~= quad_text(bs, 12));

    assert forall|k: int|
        0 <= k < 36 && k != 8 && k != 13 && k != 18 && k != 23 implies is_hex_digit(t[k]) by {
        if k < 8 {
            assert(t[k] == t.subrange(0, 8)[k]);
        } else if k < 13 {
            assert(t[k] == t.subrange(9, 13)[k - 9]);
        } else if k < 18 {
            assert(t[k] == t.subrange(14, 18)[k - 14]);
        } else if k < 23 {
            assert(t[k] == t.subrange(19, 23)[k - 19]);
        } else if k < 28 {
            assert(t[k] == t.subrange(24, 28)[k - 24]);
        } else {
            assert(t[k] == t.subrange(28, 36)[k - 28]);
        }
    }
    assert(is_canonical(t));
    crate::parser::lemma_parse_ok_iff_canonical(t);
    assert(t.subrange(0, 36) =~= t);

    let c = spec_chunks(t);
    assert(c.chunk1 == 0x100_0000 * bs[0] + 0x1_0000 * bs[1] + 0x100 * bs[2] + bs[3]);
    assert(c.chunk2 == 0x100 * bs[4] + bs[5]);
    assert(c.chunk3 == 0x100 * bs[6] + bs[7]);
    assert(c.chunk4 == 0x100 * bs[8] + bs[9]);
    assert(c.chunk5.hi == 0x100 * bs[10] + bs[11]);
    assert(c.chunk5.lo == 0x100_0000 * bs[12] + 0x1_0000 * bs[13] + 0x100 * bs[14] + bs[15]);
    lemma_unpack4(c.chunk1 as int, bs[0] as int, bs[1] as int, bs[2] as int, bs[3] as int);
    lemma_unpack2(c.chunk2 as int, bs[4] as int, bs[5] as int);
    lemma_unpack2(c.chunk3 as int, bs[6] as int, bs[7] as int);
    lemma_unpack2(c.chunk4 as int, bs[8] as int, bs[9] as int);
    lemma_unpack2(c.chunk5.hi as int, bs[10] as int, bs[11] as int);
    lemma_unpack4(c.chunk5.lo as int, bs[12] as int, bs[13] as int, bs[14] as int, bs[15] as int);
    assert(guid_bytes(c) =~= bs);
}

/// Two bytes are the same up to ASCII letter case.
pub open spec fn case_fold_eq(a: u8, b: u8) -> bool {
    ||| a == b
    ||| (65 <= a <= 90 && b == a + 32)
    ||| (65 <= b <= 90 && a == b + 32)
}

/// Runs of digits that agree up to case decode to the same value.
proof fn lemma_chunk_val_case(s: Seq<u8>, t: Seq<u8>)
    requires
        s.len() == t.len(),
        forall|k: int| 0 <= k < s.len() ==> case_fold_eq(s[k], t[k]),
    ensures
        chunk_val(s) == chunk_val(t),
    decreases s.len(),
{
    if s.len() > 0 {
        assert(case_fold_eq(s.last(), t.last()));
        assert forall|k: int| 0 <= k < s.len() - 1 implies case_fold_eq(
            s.drop_last()[k],
            t.drop_last()[k],
        ) by {
            assert(case_fold_eq(s[k], t[k]));
        }
        lemma_chunk_val_case(s.drop_last(), t.drop_last());
    }
}

/// The digits of a subrange agree up to case, so their value is the same.
proof fn lemma_chunk_val_case_range(s: Seq<u8>, t: Seq<u8>, lo: int, hi: int)
    requires
        s.len() == t.len(),
        0 <= lo <= hi <= s.len(),
        forall|k: int| 0 <= k < s.len() ==> case_fold_eq(s[k], t[k]),
    ensures
        chunk_val(s.subrange(lo, hi)) == chunk_val(t.subrange(lo, hi)),
{
    assert forall|k: int| 0 <= k < hi - lo implies case_fold_eq(
        s.subrange(lo, hi)[k],
        t.subrange(lo, hi)[k],
    ) by {
        assert(case_fold_eq(s[lo + k], t[lo + k]));
    }
    lemma_chunk_val_case(s.subrange(lo, hi), t.subrange(lo, hi));
}

/// A field read behaves the same, byte for byte, on inputs that agree up to
/// case: it succeeds on the same inputs and gives up at the same offset.
proof fn lemma_field_case(s: Seq<u8>, t: Seq<u8>, pos: int, n: int)
    requires
        s.len() == t.len(),
        0 <= pos,
        forall|k: int| 0 <= k < s.len() ==> case_fold_eq(s[k], t[k]),
    ensures
        crate::parser::field_fail_at(s, pos, n) == crate::parser::field_fail_at(t, pos, n),
        digits_ok(s, pos, n) == digits_ok(t, pos, n),
    decreases n,
{
    if n > 0 && pos < s.len() {
        assert(case_fold_eq(s[pos], t[pos]));
        assert(is_hex_digit(s[pos]) == is_hex_digit(t[pos]));
        if is_hex_digit(s[pos]) {
            lemma_field_case(s, t, pos + 1, n - 1);
            assert(digits_ok(s, pos, n) == digits_ok(s, pos + 1, n - 1));
            assert(digits_ok(t, pos, n) == digits_ok(t, pos + 1, n - 1));
        } else {
            assert(!digits_ok(s, pos, n) && !digits_ok(t, pos, n));
        }
    } else {
        assert(digits_ok(s, pos, n) == digits_ok(t, pos, n));
    }
}

/// Law: the parse is indifferent to the case of its hex digits.  Two inputs
/// that agree byte for byte up to ASCII letter case parse to the same
/// outcome — the same chunks, or the same failure at the same offset.
pub proof fn lemma_case_insensitive(s: Seq<u8>, t: Seq<u8>)
    requires
        s.len() == t.len(),
        forall|k: int| 0 <= k < s.len() ==> case_fold_eq(s[k], t[k]),
    ensures
        spec_parse(s) == spec_parse(t),
{
    lemma_field_case(s, t, 0, 8);
    lemma_field_case(s, t, 9, 4);
    lemma_field_case(s, t, 14, 4);
    lemma_field_case(s, t, 19, 4);
    lemma_field_case(s, t, 24, 12);
    if s.len() > 8 {
        assert(case_fold_eq(s[8], t[8]));
    }
    if s.len() > 13 {
        assert(case_fold_eq(s[13], t[13]));
    }
    if s.len() > 18 {
        assert(case_fold_eq(s[18], t[18]));
    }
    if s.len() > 23 {
        assert(case_fold_eq(s[23], t[23]));
    }
    if spec_parse(s) is Ok {
        lemma_chunk_val_case_range(s, t, 0, 8);
        lemma_chunk_val_case_range(s, t, 9, 13);
        lemma_chunk_val_case_range(s, t, 14, 18);
        lemma_chunk_val_case_range(s, t, 19, 23);
        lemma_chunk_val_case_range(s, t, 24, 28);
        lemma_chunk_val_case_range(s, t, 28, 36);
        assert(spec_chunks(s) == spec_chunks(t));
    }
}

} // verus!
