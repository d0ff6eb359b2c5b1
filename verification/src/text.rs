//! Character and byte utilities shared by the codecs and the parsers:
//! hexadecimal digits, decimal formatting, whitespace, UTF-8 encoding and
//! decoding of character sequences, and conversions between `str`/`String`
//! and `Vec<char>`.

use vstd::prelude::*;
use vstd::string::*;
use vstd::utf8::*;

verus! {

/// The uppercase hexadecimal digit for a value below 16.
pub open spec fn hex_digit(v: u8) -> char
    recommends
        v < 16,
{
    if v < 10 {
        (0x30 + v) as char
    } else {
        (0x41 + v - 10) as char
    }
}

/// The numeric value of a hexadecimal digit character, in either case,
/// or `None` for any other character.
pub open spec fn hex_value(c: char) -> Option<u8> {
    if '0' <= c && c <= '9' {
        Some((c as u8 - 0x30) as u8)
    } else if 'A' <= c && c <= 'F' {
        Some((c as u8 - 0x41 + 10) as u8)
    } else if 'a' <= c && c <= 'f' {
        Some((c as u8 - 0x61 + 10) as u8)
    } else {
        None
    }
}

/// Computes the uppercase hexadecimal digit of a value below 16.
pub fn hex_digit_char(v: u8) -> (c: char)
    requires
        v < 16,
    ensures
        c == hex_digit(v),
{
    if v < 10 {
        (0x30 + v) as char
    } else {
        (0x41 + v - 10) as char
    }
}

/// Reads the numeric value of a hexadecimal digit character.
pub fn hex_value_of(c: char) -> (r: Option<u8>)
    ensures
        r == hex_value(c),
{
    if '0' <= c && c <= '9' {
        Some(c as u8 - 0x30)
    } else if 'A' <= c && c <= 'F' {
        Some(c as u8 - 0x41 + 10)
    } else if 'a' <= c && c <= 'f' {
        Some(c as u8 - 0x61 + 10)
    } else {
        None
    }
}

/// Round trip of the hexadecimal digit maps: reading back the digit of a
/// value below 16 gives that value, and the digit is never a `%`.
pub proof fn lemma_hex_digit_value(v: u8)
    requires
        v < 16,
    ensures
        hex_value(hex_digit(v)) == Some(v),
        hex_digit(v) != '%',
{
}

/// The decimal digit character for a value below 10.
pub open spec fn dec_digit(v: u8) -> char
    recommends
        v < 10,
{
    (0x30 + v) as char
}

/// The decimal notation of a number, most significant digit first,
/// without leading zeros (a single `0` for zero).
pub open spec fn dec_seq(n: nat) -> Seq<char>
    decreases n,
{
    if n < 10 {
        seq![dec_digit(n as u8)]
    } else {
        dec_seq(n / 10).push(dec_digit((n % 10) as u8))
    }
}

/// Computes the decimal digits of a 16-bit number, most significant first.
pub fn dec_chars_u16(n: u16) -> (r: Vec<char>)
    ensures
        r@ == dec_seq(n as nat),
    decreases n,
{
    if n < 10 {
        let mut v: Vec<char> = Vec::new();
        v.push((0x30 + n as u8) as char);
        assert(v@ =~= dec_seq(n as nat));
        v
    } else {
        let mut v = dec_chars_u16(n / 10);
        v.push((0x30 + (n % 10) as u8) as char);
        assert(v@ =~= dec_seq(n as nat));
        v
    }
}

/// True for the characters with the Unicode `White_Space` property, the set
/// that `str::trim` and `str::split_whitespace` go by.
pub open spec fn is_ws(c: char) -> bool {
    ||| c == '\u{0009}'
    ||| c == '\u{000A}'
    ||| c == '\u{000B}'
    ||| c == '\u{000C}'
    ||| c == '\u{000D}'
    ||| c == '\u{0020}'
    ||| c == '\u{0085}'
    ||| c == '\u{00A0}'
    ||| c == '\u{1680}'
    ||| ('\u{2000}' <= c && c <= '\u{200A}')
    ||| c == '\u{2028}'
    ||| c == '\u{2029}'
    ||| c == '\u{202F}'
    ||| c == '\u{205F}'
    ||| c == '\u{3000}'
}

/// Decides whether a character has the Unicode `White_Space` property.
pub fn is_ws_char(c: char) -> (r: bool)
    ensures
        r == is_ws(c),
{
    c == '\u{0009}' || c == '\u{000A}' || c == '\u{000B}' || c == '\u{000C}' || c == '\u{000D}'
        || c == '\u{0020}' || c == '\u{0085}' || c == '\u{00A0}' || c == '\u{1680}' || ('\u{2000}'
        <= c && c <= '\u{200A}') || c == '\u{2028}' || c == '\u{2029}' || c == '\u{202F}' || c
        == '\u{205F}' || c == '\u{3000}'
}

/// True when every character of the sequence is a decimal digit.
pub open spec fn all_dec_digits(s: Seq<char>) -> bool {
    forall|i: int| 0 <= i < s.len() ==> '0' <= #[trigger] s[i] && s[i] <= '9'
}

/// The numeric value of a sequence of decimal digits.
pub open spec fn dec_value(s: Seq<char>) -> nat
    decreases s.len(),
{
    if s.len() == 0 {
        0
    } else {
        dec_value(s.drop_last()) * 10 + (s.last() as u32 - 0x30) as nat
    }
}

/// The value of an unsigned 16-bit decimal literal with an optional leading
/// `+`, as `str::parse::<u16>` reads it: `None` when the digits are missing,
/// a character is not a digit, or the value does not fit.
pub open spec fn parse_u16(s: Seq<char>) -> Option<u16> {
    let t = if s.len() > 0 && s[0] == '+' {
        s.drop_first()
    } else {
        s
    };
    if t.len() > 0 && all_dec_digits(t) && dec_value(t) <= 0xFFFF {
        Some(dec_value(t) as u16)
    } else {
        None
    }
}

proof fn lemma_dec_value_take_succ(s: Seq<char>, i: int)
    requires
        0 <= i < s.len(),
        '0' <= s[i] && s[i] <= '9',
    ensures
        dec_value(s.take(i + 1)) == dec_value(s.take(i)) * 10 + (s[i] as u32 - 0x30),
{
    assert(s.take(i + 1).drop_last() =~= s.take(i));
    assert(s.take(i + 1).last() == s[i]);
}

/// Reads an unsigned 16-bit decimal literal from the characters of `s`.
pub fn parse_u16_chars(s: &Vec<char>) -> (r: Option<u16>)
    ensures
        r == parse_u16(s@),
{
    let ghost whole = s@;
    let start: usize = if s.len() > 0 && s[0] == '+' {
        1
    } else {
        0
    };
    let ghost t = if whole.len() > 0 && whole[0] == '+' {
        whole.drop_first()
    } else {
        whole
    };
    assert(t =~= whole.skip(start as int));
    if s.len() == start {
        return None;
    }
    let mut acc: u32 = 0;
    let mut i: usize = start;
    while i < s.len()
        invariant
            start <= i <= s@.len(),
            s@ == whole,
            t == whole.skip(start as int),
            t == (if whole.len() > 0 && whole[0] == '+' {
                whole.drop_first()
            } else {
                whole
            }),
            start + t.len() == whole.len(),
            all_dec_digits(t.take(i - start)),
            dec_value(t.take(i - start)) <= 0xFFFF ==> acc == dec_value(t.take(i - start)),
            acc > 0xFFFF <==> dec_value(t.take(i - start)) > 0xFFFF,
            acc <= 100000,
        decreases s@.len() - i,
    {
        let c = s[i];
        if !('0' <= c && c <= '9') {
            assert(t[i - start] == c);
            assert(!all_dec_digits(t));
            assert(parse_u16(whole) is None);
            return None;
        }
        let d: u32 = c as u32 - 0x30;
        proof {
            lemma_dec_value_take_succ(t, i - start);
        }
        let next: u32 = acc * 10 + d;
        acc = if next > 0xFFFF {
            if acc > 0xFFFF {
                acc
            } else {
                proof {
                    lemma_dec_value_monotone(t, i - start + 1, t.len() as int);
                }
                100000
            }
        } else {
            next
        };
        proof {
            if dec_value(t.take(i - start + 1)) > 0xFFFF {
                assert(acc > 0xFFFF);
            }
        }
        i += 1;
    }
    assert(t.take(i - start) =~= t);
    if acc <= 0xFFFF {
        assert(parse_u16(whole) == Some(acc as u16));
        Some(acc as u16)
    } else {
        None
    }
}

proof fn lemma_dec_value_monotone(s: Seq<char>, i: int, j: int)
    requires
        0 <= i <= j <= s.len(),
    ensures
        dec_value(s.take(i)) <= dec_value(s.take(j)),
    decreases j - i,
{
    if i < j {
        lemma_dec_value_monotone(s, i, j - 1);
        assert(s.take(j).drop_last() =~= s.take(j - 1));
    }
}

/// Relies on `String::push`: appends the given character to the end of the
/// string.
#[verifier::external_body]
fn push_char(s: &mut String, c: char)
    ensures
        final(s)@ == old(s)@.push(c),
{
    s.push(c)
}

/// Relies on `char::from_u32`: returns `Some` exactly for the Unicode scalar
/// values, the code points outside the surrogate range, and then returns the
/// character with that value.
#[verifier::external_body]
fn char_from_u32(v: u32) -> (r: Option<char>)
    ensures
        r is Some <==> (v < 0xD800 || (0xE000 <= v && v <= 0x10FFFF)),
        r matches Some(c) ==> c as u32 == v,
{
    char::from_u32(v)
}

/// Builds a string holding exactly the given characters.
pub fn chars_to_string(chars: &Vec<char>) -> (r: String)
    ensures
        r@ == chars@,
{
    let mut out = String::new();
    let mut i: usize = 0;
    while i < chars.len()
        invariant
            i <= chars@.len(),
            out@ == chars@.take(i as int),
        decreases chars@.len() - i,
    {
        push_char(&mut out, chars[i]);
        assert(out@ =~= chars@.take(i + 1));
        i += 1;
    }
    assert(chars@.take(chars@.len() as int) =~= chars@);
    out
}

/// Appends the UTF-8 encoding of one character to a byte vector.
pub fn push_utf8_char(out: &mut Vec<u8>, c: char)
    ensures
        final(out)@ == old(out)@ + encode_scalar(c as u32),
{
    let v: u32 = c as u32;
    proof {
        char_is_scalar(c);
    }
    if v <= 0x7F {
        out.push((v & 0x7F) as u8);
        assert(out@ =~= old(out)@ + encode_scalar(c as u32));
    } else if v <= 0x7FF {
        out.push(0xC0 | ((v >> 6) & 0x1F) as u8);
        out.push(0x80 | (v & 0x3F) as u8);
        assert(out@ =~= old(out)@ + encode_scalar(c as u32));
    } else if v <= 0xFFFF {
        out.push(0xE0 | ((v >> 12) & 0x0F) as u8);
        out.push(0x80 | ((v >> 6) & 0x3F) as u8);
        out.push(0x80 | (v & 0x3F) as u8);
        assert(out@ =~= old(out)@ + encode_scalar(c as u32));
    } else {
        out.push(0xF0 | ((v >> 18) & 0x7) as u8);
        out.push(0x80 | ((v >> 12) & 0x3F) as u8);
        out.push(0x80 | ((v >> 6) & 0x3F) as u8);
        out.push(0x80 | (v & 0x3F) as u8);
        assert(out@ =~= old(out)@ + encode_scalar(c as u32));
    }
}

/// The number of bytes in the UTF-8 encoding led by the given byte, or
/// `None` when no encoding starts with it.
pub open spec fn lead_width(b: u8) -> Option<int> {
    if is_leading_byte_width_1(b) {
        Some(1)
    } else if is_leading_byte_width_2(b) {
        Some(2)
    } else if is_leading_byte_width_3(b) {
        Some(3)
    } else if is_leading_byte_width_4(b) {
        Some(4)
    } else {
        None
    }
}

/// Reads the UTF-8 encoding of one character starting at index `i` of the
/// byte vector; returns the character and the width of its encoding, or
/// `None` when no well-formed encoding of a single scalar starts there.
pub fn decode_scalar_at(bytes: &Vec<u8>, i: usize) -> (r: Option<(char, usize)>)
    requires
        i < bytes@.len(),
    ensures
        match r {
            Some(p) => {
                &&& valid_first_scalar(bytes@.skip(i as int))
                &&& p.1 == length_of_first_scalar(bytes@.skip(i as int))
                &&& i + p.1 <= bytes@.len()
                &&& p.0 as u32 == decode_first_scalar(bytes@.skip(i as int))
            },
            None => !valid_first_scalar(bytes@.skip(i as int)),
        },
{
    let ghost suffix = bytes@.skip(i as int);
    let n = bytes.len();
    let b0 = bytes[i];
    assert(suffix[0] == b0);
    if b0 <= 0x7F {
        let cp: u32 = (b0 & 0x7F) as u32;
        assert(cp == codepoint_width_1(b0));
        assert(cp < 0xD800) by (bit_vector)
            requires
                b0 <= 0x7F && cp == (b0 & 0x7F) as u32,
        ;
        let c = char_from_u32(cp).unwrap();
        Some((c, 1))
    } else if 0xC0 <= b0 && b0 <= 0xDF {
        if n - i < 2 {
            assert(!valid_leading_and_continuation_bytes_first_codepoint(suffix));
            return None;
        }
        let b1 = bytes[i + 1];
        assert(suffix[1] == b1);
        if !(0x80 <= b1 && b1 <= 0xBF) {
            assert(!valid_leading_and_continuation_bytes_first_codepoint(suffix));
            return None;
        }
        let cp: u32 = (((b0 & 0x1F) as u32) << 6) | ((b1 & 0x3F) as u32);
        assert(cp == codepoint_width_2(b0, b1));
        if cp < 0x80 {
            assert(!not_overlong_encoding(decode_first_codepoint(suffix), 2));
            return None;
        }
        assert(cp < 0xD800) by (bit_vector)
            requires
                cp == (((b0 & 0x1F) as u32) << 6) | ((b1 & 0x3F) as u32),
        ;
        let c = char_from_u32(cp).unwrap();
        Some((c, 2))
    } else if 0xE0 <= b0 && b0 <= 0xEF {
        if n - i < 3 {
            assert(!valid_leading_and_continuation_bytes_first_codepoint(suffix));
            return None;
        }
        let b1 = bytes[i + 1];
        let b2 = bytes[i + 2];
        assert(suffix[1] == b1 && suffix[2] == b2);
        if !(0x80 <= b1 && b1 <= 0xBF) || !(0x80 <= b2 && b2 <= 0xBF) {
            assert(!valid_leading_and_continuation_bytes_first_codepoint(suffix));
            return None;
        }
        let cp: u32 = (((b0 & 0x0F) as u32) << 12) | (((b1 & 0x3F) as u32) << 6) | ((b2
            & 0x3F) as u32);
        assert(cp == codepoint_width_3(b0, b1, b2));
        assert(cp <= 0xFFFF) by (bit_vector)
            requires
                cp == (((b0 & 0x0F) as u32) << 12) | (((b1 & 0x3F) as u32) << 6) | ((b2
                    & 0x3F) as u32),
        ;
        if cp < 0x800 {
            assert(!not_overlong_encoding(decode_first_codepoint(suffix), 3));
            return None;
        }
        if 0xD800 <= cp && cp <= 0xDFFF {
            assert(!not_surrogate(decode_first_codepoint(suffix)));
            return None;
        }
        let c = char_from_u32(cp).unwrap();
        Some((c, 3))
    } else if 0xF0 <= b0 && b0 <= 0xF7 {
        if n - i < 4 {
            assert(!valid_leading_and_continuation_bytes_first_codepoint(suffix));
            return None;
        }
        let b1 = bytes[i + 1];
        let b2 = bytes[i + 2];
        let b3 = bytes[i + 3];
        assert(suffix[1] == b1 && suffix[2] == b2 && suffix[3] == b3);
        if !(0x80 <= b1 && b1 <= 0xBF) || !(0x80 <= b2 && b2 <= 0xBF) || !(0x80 <= b3 && b3
            <= 0xBF) {
            assert(!valid_leading_and_continuation_bytes_first_codepoint(suffix));
            return None;
        }
        let cp: u32 = (((b0 & 0x07) as u32) << 18) | (((b1 & 0x3F) as u32) << 12) | (((b2
            & 0x3F) as u32) << 6) | ((b3 & 0x3F) as u32);
        assert(cp == codepoint_width_4(b0, b1, b2, b3));
        if !(0x10000 <= cp && cp <= 0x10FFFF) {
            assert(!not_overlong_encoding(decode_first_codepoint(suffix), 4));
            return None;
        }
        let c = char_from_u32(cp).unwrap();
        Some((c, 4))
    } else {
        assert(!valid_leading_and_continuation_bytes_first_codepoint(suffix));
        None
    }
}

/// Decodes a byte vector as UTF-8; returns `None` exactly when the bytes are
/// not a valid UTF-8 encoding.
pub fn utf8_decode(bytes: &Vec<u8>) -> (r: Option<Vec<char>>)
    ensures
        r is Some <==> valid_utf8(bytes@),
        r matches Some(cs) ==> cs@ == decode_utf8(bytes@),
{
    let mut out: Vec<char> = Vec::new();
    let mut i: usize = 0;
    let n = bytes.len();
    while i < n
        invariant
            i <= n,
            n == bytes@.len(),
            partial_valid_utf8(bytes@, i as int),
            out@ == decode_utf8(bytes@.subrange(0, i as int)),
        decreases n - i,
    {
        let ghost prefix = bytes@.subrange(0, i as int);
        let ghost suffix = bytes@.skip(i as int);
        match decode_scalar_at(bytes, i) {
            None => {
                proof {
                    assert(!valid_utf8(suffix));
                    assert(suffix == bytes@.subrange(i as int, bytes@.len() as int));
                    partial_valid_partial_invalid_utf8(bytes@, i as int);
                }
                return None;
            },
            Some((c, w)) => {
                proof {
                    assert(suffix =~= bytes@.subrange(i as int, bytes@.len() as int));
                    partial_valid_utf8_extend(bytes@, i as int);
                    let ext = bytes@.subrange(0, i + w);
                    assert(valid_utf8(ext));
                    assert(0 <= i < ext.len());
                    assert(ext[i as int] == suffix[0]);
                    assert(!is_continuation_byte(ext[i as int])) by {
                        assert(valid_leading_and_continuation_bytes_first_codepoint(suffix));
                    }
                    is_char_boundary_iff_not_is_continuation_byte(ext, i as int);
                    decode_utf8_split(ext, i as int);
                    assert(ext.subrange(0, i as int) =~= prefix);
                    let one = ext.subrange(i as int, i + w);
                    assert(one =~= take_first_scalar(suffix));
                    valid_utf8_split(ext, i as int);
                    assert(valid_utf8(one));
                    assert(one.len() == w);
                    assert(one =~= suffix.take(w as int));
                    assert(valid_first_scalar(one)) by {
                        assert(forall|k: int|
                            0 <= k < w ==> one[k] == #[trigger] suffix[k]);
                    }
                    assert(decode_first_scalar(one) == decode_first_scalar(suffix));
                    assert(length_of_first_scalar(one) == w);
                    assert(pop_first_scalar(one) =~= Seq::<u8>::empty());
                    assert(decode_utf8(one) =~= seq![decode_first_scalar(one) as char]) by {
                        reveal_with_fuel(decode_utf8, 2);
                    }
                    char_u32_cast(c, decode_first_scalar(suffix));
                    assert(decode_utf8(ext) =~= decode_utf8(prefix).push(c));
                }
                out.push(c);
                proof {
                    assert(out@ =~= decode_utf8(bytes@.subrange(0, i + w)));
                }
                i += w;
            },
        }
    }
    proof {
        assert(bytes@.subrange(0, n as int) =~= bytes@);
    }
    Some(out)
}

/// Collects the characters of a string slice.
pub fn str_to_chars(s: &str) -> (r: Vec<char>)
    ensures
        r@ == s@,
{
    let n = s.unicode_len();
    let mut out: Vec<char> = Vec::new();
    let mut i: usize = 0;
    while i < n
        invariant
            i <= n,
            n == s@.len(),
            out@ == s@.take(i as int),
        decreases n - i,
    {
        out.push(s.get_char(i));
        assert(out@ =~= s@.take(i + 1));
        i += 1;
    }
    assert(s@.take(n as int) =~= s@);
    out
}

} // verus!
