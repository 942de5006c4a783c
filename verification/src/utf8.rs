//! Lossy UTF-8 decoding, building on `vstd::utf8`.
//!
//! `decode_lossy` gives the mathematical meaning of decoding a byte sequence
//! as UTF-8 while substituting U+FFFD for each maximal invalid subpart,
//! exactly as Rust's `String::from_utf8_lossy` does. `decode_utf8_lossy` is
//! the verified executable decoder, and `encode_str` the verified executable
//! encoder. On valid input, lossy decoding agrees with the strict decoding of
//! `vstd::utf8` (`lemma_decode_lossy_valid`), so encoding followed by lossy
//! decoding is the identity (`lemma_decode_lossy_of_encode`).

use vstd::prelude::*;
use vstd::utf8::*;

verus! {

/// The replacement character substituted for invalid byte sequences.
pub open spec fn replacement() -> char {
    '\u{FFFD}'
}

/// The admissible second byte of a three-byte sequence starting with `b0`.
/// The narrowed ranges after `0xE0` and `0xED` exclude overlong encodings
/// and surrogate code points.
pub open spec fn valid_second_of_3(b0: u8, b1: u8) -> bool {
    if b0 == 0xE0 {
        0xA0 <= b1 && b1 <= 0xBF
    } else if b0 == 0xED {
        0x80 <= b1 && b1 <= 0x9F
    } else {
        is_continuation_byte(b1)
    }
}

/// The admissible second byte of a four-byte sequence starting with `b0`.
/// The narrowed ranges after `0xF0` and `0xF4` exclude overlong encodings
/// and code points above U+10FFFF.
pub open spec fn valid_second_of_4(b0: u8, b1: u8) -> bool {
    if b0 == 0xF0 {
        0x90 <= b1 && b1 <= 0xBF
    } else if b0 == 0xF4 {
        0x80 <= b1 && b1 <= 0x8F
    } else {
        is_continuation_byte(b1)
    }
}

/// One step of lossy decoding at the front of `s`: the character produced
/// and the number of bytes consumed. An invalid sequence consumes its
/// maximal valid prefix (at least one byte) and produces U+FFFD.
pub open spec fn utf8_step(s: Seq<u8>) -> (char, int)
    recommends
        s.len() > 0,
{
    let b0 = s[0];
    if b0 < 0x80 {
        (codepoint_width_1(b0) as char, 1)
    } else if 0xC2 <= b0 && b0 <= 0xDF {
        if s.len() >= 2 && is_continuation_byte(s[1]) {
            (codepoint_width_2(b0, s[1]) as char, 2)
        } else {
            (replacement(), 1)
        }
    } else if 0xE0 <= b0 && b0 <= 0xEF {
        if s.len() >= 2 && valid_second_of_3(b0, s[1]) {
            if s.len() >= 3 && is_continuation_byte(s[2]) {
                (codepoint_width_3(b0, s[1], s[2]) as char, 3)
            } else {
                (replacement(), 2)
            }
        } else {
            (replacement(), 1)
        }
    } else if 0xF0 <= b0 && b0 <= 0xF4 {
        if s.len() >= 2 && valid_second_of_4(b0, s[1]) {
            if s.len() >= 3 && is_continuation_byte(s[2]) {
                if s.len() >= 4 && is_continuation_byte(s[3]) {
                    (codepoint_width_4(b0, s[1], s[2], s[3]) as char, 4)
                } else {
                    (replacement(), 3)
                }
            } else {
                (replacement(), 2)
            }
        } else {
            (replacement(), 1)
        }
    } else {
        (replacement(), 1)
    }
}

/// Lossy UTF-8 decoding of a whole byte sequence.
pub open spec fn decode_lossy(s: Seq<u8>) -> Seq<char>
    decreases s.len(),
{
    if s.len() == 0 {
        Seq::empty()
    } else {
        seq![utf8_step(s).0] + decode_lossy(s.skip(utf8_step(s).1))
    }
}

/// Relies on `char::from_u32`: it returns `Some` exactly for Unicode scalar
/// values, and the resulting character has the given code point.
pub assume_specification[ char::from_u32 ](i: u32) -> (r: Option<char>)
    ensures
        r == if is_scalar(i) {
            Some(i as char)
        } else {
            None::<char>
        },
;

/// Relies on `String::push`: it appends the given character to the string.
#[verifier::external_body]
fn push_char(s: &mut String, c: char)
    ensures
        final(s)@ == old(s)@.push(c),
{
    s.push(c);
}

/// Turns a code point known to be a scalar value into a `char`.
fn char_of_scalar(v: u32) -> (c: char)
    requires
        is_scalar(v),
    ensures
        c == v as char,
{
    match char::from_u32(v) {
        Some(c) => c,
        None => {
            proof {
                assert(false);
            }
            '\u{FFFD}'
        },
    }
}

/// Decodes `bytes` as UTF-8, substituting U+FFFD for each maximal invalid
/// subpart, exactly as `decode_lossy` describes.
pub fn decode_utf8_lossy(bytes: &Vec<u8>) -> (s: String)
    ensures
        s@ == decode_lossy(bytes@),
{
    let mut out = String::new();
    let mut i: usize = 0;
    proof {
        assert(bytes@.skip(0) =~= bytes@);
        assert(out@ + decode_lossy(bytes@) =~= decode_lossy(bytes@));
    }
    while i < bytes.len()
        invariant
            i <= bytes.len(),
            decode_lossy(bytes@) == out@ + decode_lossy(bytes@.skip(i as int)),
        decreases bytes.len() - i,
    {
        let ghost rest = bytes@.skip(i as int);
        let b0 = bytes[i];
        let n: usize;
        let c: char;
        if b0 < 0x80 {
            let w = (b0 & 0x7F) as u32;
            assert(is_scalar(w)) by (bit_vector)
                requires
                    w == (b0 & 0x7F) as u32,
            ;
            c = char_of_scalar(w);
            n = 1;
        } else if 0xC2 <= b0 && b0 <= 0xDF {
            if i + 1 < bytes.len() && 0x80 <= bytes[i + 1] && bytes[i + 1] <= 0xBF {
                let b1 = bytes[i + 1];
                let w = (((b0 & 0x1F) as u32) << 6) | ((b1 & 0x3F) as u32);
                assert(w == codepoint_width_2(b0, b1));
                assert(is_scalar(codepoint_width_2(b0, b1))) by (bit_vector)
                    requires
                        0xC2 <= b0 && b0 <= 0xDF && 0x80 <= b1 && b1 <= 0xBF,
                ;
                c = char_of_scalar(w);
                n = 2;
            } else {
                c = '\u{FFFD}';
                n = 1;
            }
        } else if 0xE0 <= b0 && b0 <= 0xEF {
            if i + 1 < bytes.len() && second_of_3_ok(b0, bytes[i + 1]) {
                if i + 2 < bytes.len() && 0x80 <= bytes[i + 2] && bytes[i + 2] <= 0xBF {
                    let b1 = bytes[i + 1];
                    let b2 = bytes[i + 2];
                    let w = (((b0 & 0x0F) as u32) << 12) | (((b1 & 0x3F) as u32) << 6) | ((b2
                        & 0x3F) as u32);
                    assert(w == codepoint_width_3(b0, b1, b2));
                    assert(is_scalar(codepoint_width_3(b0, b1, b2))) by (bit_vector)
                        requires
                            0xE0 <= b0 && b0 <= 0xEF,
                            0x80 <= b2 && b2 <= 0xBF,
                            b0 == 0xE0 ==> 0xA0 <= b1 && b1 <= 0xBF,
                            b0 == 0xED ==> 0x80 <= b1 && b1 <= 0x9F,
                            b0 != 0xE0 && b0 != 0xED ==> 0x80 <= b1 && b1 <= 0xBF,
                    ;
                    c = char_of_scalar(w);
                    n = 3;
                } else {
                    c = '\u{FFFD}';
                    n = 2;
                }
            } else {
                c = '\u{FFFD}';
                n = 1;
            }
        } else if 0xF0 <= b0 && b0 <= 0xF4 {
            if i + 1 < bytes.len() && second_of_4_ok(b0, bytes[i + 1]) {
                if i + 2 < bytes.len() && 0x80 <= bytes[i + 2] && bytes[i + 2] <= 0xBF {
                    if i + 3 < bytes.len() && 0x80 <= bytes[i + 3] && bytes[i + 3] <= 0xBF {
                        let b1 = bytes[i + 1];
                        let b2 = bytes[i + 2];
                        let b3 = bytes[i + 3];
                        let w = (((b0 & 0x07) as u32) << 18) | (((b1 & 0x3F) as u32) << 12) | (((
                        b2 & 0x3F) as u32) << 6) | ((b3 & 0x3F) as u32);
                        assert(w == codepoint_width_4(b0, b1, b2, b3));
                        assert(is_scalar(codepoint_width_4(b0, b1, b2, b3))) by (bit_vector)
                            requires
                                0xF0 <= b0 && b0 <= 0xF4,
                                0x80 <= b2 && b2 <= 0xBF,
                                0x80 <= b3 && b3 <= 0xBF,
                                b0 == 0xF0 ==> 0x90 <= b1 && b1 <= 0xBF,
                                b0 == 0xF4 ==> 0x80 <= b1 && b1 <= 0x8F,
                                b0 != 0xF0 && b0 != 0xF4 ==> 0x80 <= b1 && b1 <= 0xBF,
                        ;
                        c = char_of_scalar(w);
                        n = 4;
                    } else {
                        c = '\u{FFFD}';
                        n = 3;
                    }
                } else {
                    c = '\u{FFFD}';
                    n = 2;
                }
            } else {
                c = '\u{FFFD}';
                n = 1;
            }
        } else {
            c = '\u{FFFD}';
            n = 1;
        }
        proof {
            assert(rest[0] == bytes@[i as int]);
            assert(utf8_step(rest) == (c, n as int));
            assert(rest.skip(n as int) =~= bytes@.skip(i as int + n as int));
            assert(out@.push(c) + decode_lossy(bytes@.skip(i as int + n as int)) =~= out@
                + decode_lossy(bytes@.skip(i as int)));
        }
        push_char(&mut out, c);
        i = i + n;
    }
    proof {
        assert(bytes@.skip(bytes@.len() as int) =~= Seq::<u8>::empty());
        assert(out@ + Seq::<char>::empty() =~= out@);
    }
    out
}

/// On a byte sequence that begins with a well-formed scalar encoding, one
/// lossy step decodes that scalar and consumes exactly its bytes.
proof fn lemma_step_of_valid_first(s: Seq<u8>)
    requires
        valid_first_scalar(s),
    ensures
        utf8_step(s).0 == decode_first_scalar(s) as char,
        utf8_step(s).1 == length_of_first_scalar(s),
{
    let b0 = s[0];
    if is_leading_byte_width_1(b0) {
    } else if is_leading_byte_width_2(b0) {
        let b1 = s[1];
        assert(0xC2 <= b0) by (bit_vector)
            requires
                0xC0 <= b0 && b0 <= 0xDF,
                0x80 <= b1 && b1 <= 0xBF,
                0x80 <= codepoint_width_2(b0, b1),
        ;
    } else if is_leading_byte_width_3(b0) {
        let b1 = s[1];
        let b2 = s[2];
        assert((b0 == 0xE0 ==> 0xA0 <= b1 && b1 <= 0xBF) && (b0 == 0xED ==> 0x80 <= b1 && b1
            <= 0x9F)) by (bit_vector)
            requires
                0xE0 <= b0 && b0 <= 0xEF,
                0x80 <= b1 && b1 <= 0xBF,
                0x80 <= b2 && b2 <= 0xBF,
                0x800 <= codepoint_width_3(b0, b1, b2),
                !(0xD800 <= codepoint_width_3(b0, b1, b2) && codepoint_width_3(b0, b1, b2)
                    <= 0xDFFF),
        ;
    } else {
        let b1 = s[1];
        let b2 = s[2];
        let b3 = s[3];
        assert(b0 <= 0xF4 && (b0 == 0xF0 ==> 0x90 <= b1 && b1 <= 0xBF) && (b0 == 0xF4 ==> 0x80
            <= b1 && b1 <= 0x8F)) by (bit_vector)
            requires
                0xF0 <= b0 && b0 <= 0xF7,
                0x80 <= b1 && b1 <= 0xBF,
                0x80 <= b2 && b2 <= 0xBF,
                0x80 <= b3 && b3 <= 0xBF,
                0x10000 <= codepoint_width_4(b0, b1, b2, b3),
                codepoint_width_4(b0, b1, b2, b3) <= 0x10FFFF,
        ;
    }
}

/// On a byte sequence that does not begin with a well-formed scalar
/// encoding, one lossy step substitutes the replacement character.
proof fn lemma_invalid_first_step_replaces(s: Seq<u8>)
    requires
        s.len() > 0,
        !valid_first_scalar(s),
    ensures
        utf8_step(s).0 == replacement(),
{
    let b0 = s[0];
    if b0 < 0x80 {
        assert(not_overlong_encoding(codepoint_width_1(b0), 1) && not_surrogate(
            codepoint_width_1(b0),
        )) by (bit_vector)
            requires
                b0 < 0x80,
        ;
    } else if 0xC2 <= b0 && b0 <= 0xDF && s.len() >= 2 && is_continuation_byte(s[1]) {
        let b1 = s[1];
        assert(not_overlong_encoding(codepoint_width_2(b0, b1), 2) && not_surrogate(
            codepoint_width_2(b0, b1),
        )) by (bit_vector)
            requires
                0xC2 <= b0 && b0 <= 0xDF,
                0x80 <= b1 && b1 <= 0xBF,
        ;
    } else if 0xE0 <= b0 && b0 <= 0xEF && s.len() >= 3 && valid_second_of_3(b0, s[1])
        && is_continuation_byte(s[2]) {
        let b1 = s[1];
        let b2 = s[2];
        assert(not_overlong_encoding(codepoint_width_3(b0, b1, b2), 3) && not_surrogate(
            codepoint_width_3(b0, b1, b2),
        )) by (bit_vector)
            requires
                0xE0 <= b0 && b0 <= 0xEF,
                0x80 <= b2 && b2 <= 0xBF,
                b0 == 0xE0 ==> 0xA0 <= b1 && b1 <= 0xBF,
                b0 == 0xED ==> 0x80 <= b1 && b1 <= 0x9F,
                b0 != 0xE0 && b0 != 0xED ==> 0x80 <= b1 && b1 <= 0xBF,
        ;
    } else if 0xF0 <= b0 && b0 <= 0xF4 && s.len() >= 4 && valid_second_of_4(b0, s[1])
        && is_continuation_byte(s[2]) && is_continuation_byte(s[3]) {
        let b1 = s[1];
        let b2 = s[2];
        let b3 = s[3];
        assert(not_overlong_encoding(codepoint_width_4(b0, b1, b2, b3), 4) && not_surrogate(
            codepoint_width_4(b0, b1, b2, b3),
        )) by (bit_vector)
            requires
                0xF0 <= b0 && b0 <= 0xF4,
                0x80 <= b2 && b2 <= 0xBF,
                0x80 <= b3 && b3 <= 0xBF,
                b0 == 0xF0 ==> 0x90 <= b1 && b1 <= 0xBF,
                b0 == 0xF4 ==> 0x80 <= b1 && b1 <= 0x8F,
                b0 != 0xF0 && b0 != 0xF4 ==> 0x80 <= b1 && b1 <= 0xBF,
        ;
    }
}

/// Lossily decoding a byte sequence that is not valid UTF-8 still yields a
/// character sequence, and the damage is marked: at least one replacement
/// character appears in it.
pub proof fn lemma_invalid_input_yields_replacement(bytes: Seq<u8>)
    requires
        !valid_utf8(bytes),
    ensures
        decode_lossy(bytes).contains(replacement()),
    decreases bytes.len(),
{
    if !valid_first_scalar(bytes) {
        lemma_invalid_first_step_replaces(bytes);
        assert(decode_lossy(bytes)[0] == replacement());
    } else {
        lemma_step_of_valid_first(bytes);
        assert(bytes.skip(utf8_step(bytes).1) =~= pop_first_scalar(bytes));
        lemma_invalid_input_yields_replacement(pop_first_scalar(bytes));
        let tail = decode_lossy(pop_first_scalar(bytes));
        let i = choose|i: int| 0 <= i < tail.len() && tail[i] == replacement();
        assert(decode_lossy(bytes)[i + 1] == replacement());
    }
}

/// On a valid UTF-8 byte sequence, lossy decoding agrees with the strict
/// decoding of `vstd::utf8`: no replacement character is ever produced.
pub proof fn lemma_decode_lossy_valid(bytes: Seq<u8>)
    requires
        valid_utf8(bytes),
    ensures
        decode_lossy(bytes) == decode_utf8(bytes),
    decreases bytes.len(),
{
    if bytes.len() == 0 {
        assert(decode_lossy(bytes) =~= decode_utf8(bytes));
    } else {
        lemma_step_of_valid_first(bytes);
        assert(bytes.skip(utf8_step(bytes).1) =~= pop_first_scalar(bytes));
        lemma_decode_lossy_valid(pop_first_scalar(bytes));
    }
}

/// Encoding a character sequence as UTF-8 and then decoding it lossily
/// returns the original sequence: on validly-encoded input the decoded
/// content is recovered exactly.
pub proof fn lemma_decode_lossy_of_encode(chars: Seq<char>)
    ensures
        decode_lossy(encode_utf8(chars)) == chars,
{
    encode_utf8_valid_utf8(chars);
    lemma_decode_lossy_valid(encode_utf8(chars));
    encode_utf8_decode_utf8(chars);
}

/// Appends the UTF-8 encoding of `c` to `out`.
fn push_char_utf8(out: &mut Vec<u8>, c: char)
    ensures
        final(out)@ == old(out)@ + encode_scalar(c as u32),
{
    proof {
        char_is_scalar(c);
    }
    let v = c as u32;
    if v < 0x80 {
        out.push((v & 0x7F) as u8);
        assert(out@ =~= old(out)@ + encode_scalar(c as u32));
    } else if v < 0x800 {
        out.push(0xC0 | ((v >> 6) & 0x1F) as u8);
        out.push(0x80 | (v & 0x3F) as u8);
        assert(out@ =~= old(out)@ + encode_scalar(c as u32));
    } else if v < 0x10000 {
        out.push(0xE0 | ((v >> 12) & 0x0F) as u8);
        out.push(0x80 | ((v >> 6) & 0x3F) as u8);
        out.push(0x80 | (v & 0x3F) as u8);
        assert(out@ =~= old(out)@ + encode_scalar(c as u32));
    } else {
        out.push(0xF0 | ((v >> 18) & 0x7) as u8);
        out.push(0x80 | ((v >> 12) & 0x3F) as u8);
        out.push(0x80 | ((v >> 6) & 0x3F) as u8);
        out.push(0x80 | (v & 0x3F) as u8);
        assert(out@ =~= old(out)@ + encode_scalar(c as u32));
    }
}

/// Encodes the characters of `text` as UTF-8 bytes.
pub fn encode_str(text: &str) -> (v: Vec<u8>)
    ensures
        v@ == encode_utf8(text@),
{
    let n = text.unicode_len();
    let mut out: Vec<u8> = Vec::new();
    let mut i: usize = 0;
    proof {
        assert(text@.skip(0) =~= text@);
        assert(out@ + encode_utf8(text@) =~= encode_utf8(text@));
    }
    while i < n
        invariant
            i <= n,
            n == text@.len(),
            encode_utf8(text@) == out@ + encode_utf8(text@.skip(i as int)),
        decreases n - i,
    {
        let ghost rest = text@.skip(i as int);
        let c = text.get_char(i);
        push_char_utf8(&mut out, c);
        proof {
            assert(rest[0] == c);
            assert(rest.drop_first() =~= text@.skip(i as int + 1));
            assert(out@ + encode_utf8(text@.skip(i as int + 1)) =~= encode_utf8(text@));
        }
        i = i + 1;
    }
    proof {
        assert(text@.skip(text@.len() as int) =~= Seq::<char>::empty());
        assert(out@ + encode_utf8(Seq::<char>::empty()) =~= out@);
    }
    out
}

/// Executable test for `valid_second_of_3`.
fn second_of_3_ok(b0: u8, b1: u8) -> (r: bool)
    ensures
        r == valid_second_of_3(b0, b1),
{
    if b0 == 0xE0 {
        0xA0 <= b1 && b1 <= 0xBF
    } else if b0 == 0xED {
        0x80 <= b1 && b1 <= 0x9F
    } else {
        0x80 <= b1 && b1 <= 0xBF
    }
}

/// Executable test for `valid_second_of_4`.
fn second_of_4_ok(b0: u8, b1: u8) -> (r: bool)
    ensures
        r == valid_second_of_4(b0, b1),
{
    if b0 == 0xF0 {
        0x90 <= b1 && b1 <= 0xBF
    } else if b0 == 0xF4 {
        0x80 <= b1 && b1 <= 0x8F
    } else {
        0x80 <= b1 && b1 <= 0xBF
    }
}

} // verus!
