//! Percent-encoding and decoding of text, over the RFC 3986 unreserved set.
//!
//! Encoding leaves an unreserved character as it is and writes every other
//! character as the `%XX` escapes of its UTF-8 bytes, two uppercase
//! hexadecimal digits for each byte. Decoding reverses this: a literal
//! character passes through, and a `%` starts the escapes of one UTF-8
//! encoded character, whose width the first byte announces. Decoding every
//! encoder output gives the input text back, which
//! [`lemma_percent_round_trip`] proves.

use vstd::prelude::*;
use vstd::string::*;
use vstd::utf8::*;
use crate::text::chars_to_string;
use crate::text::decode_scalar_at;
use crate::text::hex_digit;
use crate::text::hex_digit_char;
use crate::text::hex_value;
use crate::text::hex_value_of;
use crate::text::lead_width;
use crate::text::lemma_hex_digit_value;
use crate::text::push_utf8_char;
use crate::text::str_to_chars;

verus! {

/// The error of a failed percent-decoding: a `%` not followed by two
/// hexadecimal digits, an input ending in the middle of an escape, or
/// escaped bytes that are not a valid UTF-8 character.
#[derive(Debug)]
pub struct DecodeError {
    pub message: String,
}

impl DecodeError {
    /// Wraps a message describing why decoding failed.
    pub fn new(message: String) -> (r: DecodeError)
        ensures
            r.message == message,
    {
        DecodeError { message }
    }
}

/// True for the characters that percent-encoding leaves untouched, the
/// unreserved set of RFC 3986: letters, digits, `-`, `.`, `_` and `~`.
pub open spec fn is_unreserved(c: char) -> bool {
    ||| ('A' <= c && c <= 'Z')
    ||| ('a' <= c && c <= 'z')
    ||| ('0' <= c && c <= '9')
    ||| c == '-'
    ||| c == '.'
    ||| c == '_'
    ||| c == '~'
}

/// Decides whether a character is in the unreserved set.
pub fn is_unreserved_char(c: char) -> (r: bool)
    ensures
        r == is_unreserved(c),
{
    ('A' <= c && c <= 'Z') || ('a' <= c && c <= 'z') || ('0' <= c && c <= '9') || c == '-' || c
        == '.' || c == '_' || c == '~'
}

/// The `%XX` escapes of a byte sequence, one escape of two uppercase
/// hexadecimal digits for each byte.
pub open spec fn percent_escapes(bytes: Seq<u8>) -> Seq<char>
    decreases bytes.len(),
{
    if bytes.len() == 0 {
        Seq::<char>::empty()
    } else {
        seq!['%', hex_digit(bytes[0] / 16), hex_digit(bytes[0] % 16)] + percent_escapes(
            bytes.drop_first(),
        )
    }
}

/// The percent-encoding of one character: itself when unreserved, else the
/// escapes of its UTF-8 bytes.
pub open spec fn percent_encode_char(c: char) -> Seq<char> {
    if is_unreserved(c) {
        seq![c]
    } else {
        percent_escapes(encode_scalar(c as u32))
    }
}

/// The percent-encoding of a character sequence.
pub open spec fn percent_encoded(s: Seq<char>) -> Seq<char>
    decreases s.len(),
{
    if s.len() == 0 {
        Seq::<char>::empty()
    } else {
        percent_encode_char(s[0]) + percent_encoded(s.drop_first())
    }
}

proof fn lemma_percent_escapes_concat(a: Seq<u8>, b: Seq<u8>)
    ensures
        percent_escapes(a + b) == percent_escapes(a) + percent_escapes(b),
    decreases a.len(),
{
    if a.len() == 0 {
        assert(a + b =~= b);
        assert(percent_escapes(a) + percent_escapes(b) =~= percent_escapes(b));
    } else {
        assert((a + b).drop_first() =~= a.drop_first() + b);
        lemma_percent_escapes_concat(a.drop_first(), b);
        assert(percent_escapes(a + b) =~= percent_escapes(a) + percent_escapes(b));
    }
}

proof fn lemma_percent_encoded_concat(a: Seq<char>, b: Seq<char>)
    ensures
        percent_encoded(a + b) == percent_encoded(a) + percent_encoded(b),
    decreases a.len(),
{
    if a.len() == 0 {
        assert(a + b =~= b);
        assert(percent_encoded(a) + percent_encoded(b) =~= percent_encoded(b));
    } else {
        assert((a + b).drop_first() =~= a.drop_first() + b);
        lemma_percent_encoded_concat(a.drop_first(), b);
        assert(percent_encoded(a + b) =~= percent_encoded(a) + percent_encoded(b));
    }
}

/// Percent-encodes a string: unreserved characters pass through, every
/// other character becomes the `%XX` escapes of its UTF-8 bytes.
pub fn encode(input: &str) -> (r: String)
    ensures
        r@ == percent_encoded(input@),
{
    let chars = str_to_chars(input);
    let mut out: Vec<char> = Vec::new();
    let mut i: usize = 0;
    while i < chars.len()
        invariant
            i <= chars@.len(),
            chars@ == input@,
            out@ == percent_encoded(chars@.take(i as int)),
        decreases chars@.len() - i,
    {
        let c = chars[i];
        proof {
            assert(chars@.take(i + 1) =~= chars@.take(i as int) + seq![c]);
            lemma_percent_encoded_concat(chars@.take(i as int), seq![c]);
            assert(percent_encoded(seq![c]) =~= percent_encode_char(c)) by {
                reveal_with_fuel(percent_encoded, 2);
                assert(seq![c].drop_first() =~= Seq::<char>::empty());
            }
        }
        if is_unreserved_char(c) {
            out.push(c);
            assert(out@ =~= percent_encoded(chars@.take(i + 1)));
        } else {
            let mut bs: Vec<u8> = Vec::new();
            push_utf8_char(&mut bs, c);
            proof {
                char_is_scalar(c);
                assert(bs@ == Seq::<u8>::empty() + encode_scalar(c as u32));
                assert(Seq::<u8>::empty() + encode_scalar(c as u32) =~= encode_scalar(c as u32));
            }
            let ghost before = out@;
            let mut j: usize = 0;
            while j < bs.len()
                invariant
                    j <= bs@.len(),
                    bs@ == encode_scalar(c as u32),
                    out@ == before + percent_escapes(bs@.take(j as int)),
                decreases bs@.len() - j,
            {
                let b = bs[j];
                proof {
                    assert(bs@.take(j + 1) =~= bs@.take(j as int) + seq![b]);
                    lemma_percent_escapes_concat(bs@.take(j as int), seq![b]);
                    assert(percent_escapes(seq![b]) =~= seq![
                        '%',
                        hex_digit(b / 16),
                        hex_digit(b % 16),
                    ]) by {
                        reveal_with_fuel(percent_escapes, 2);
                        assert(seq![b].drop_first() =~= Seq::<u8>::empty());
                    }
                }
                out.push('%');
                out.push(hex_digit_char(b / 16));
                out.push(hex_digit_char(b % 16));
                proof {
                    assert(out@ =~= before + percent_escapes(bs@.take(j + 1)));
                }
                j += 1;
            }
            proof {
                assert(bs@.take(bs@.len() as int) =~= bs@);
                assert(out@ =~= percent_encoded(chars@.take(i + 1)));
            }
        }
        i += 1;
    }
    proof {
        assert(chars@.take(chars@.len() as int) =~= chars@);
    }
    chars_to_string(&out)
}

/// The byte of one `%XX` escape at the head of the sequence, or `None` when
/// none starts there.
pub open spec fn escape_byte_head(s: Seq<char>) -> Option<u8> {
    if s.len() >= 3 && s[0] == '%' && hex_value(s[1]) is Some && hex_value(s[2]) is Some {
        Some((hex_value(s[1])->0 * 16 + hex_value(s[2])->0) as u8)
    } else {
        None
    }
}

/// The bytes of `k` consecutive `%XX` escapes at the head of the sequence.
pub open spec fn group_bytes(s: Seq<char>, k: nat) -> Option<Seq<u8>>
    decreases k,
{
    if k == 0 {
        Some(Seq::<u8>::empty())
    } else {
        match escape_byte_head(s) {
            None => None,
            Some(b) => match group_bytes(s.skip(3), (k - 1) as nat) {
                None => None,
                Some(r) => Some(seq![b] + r),
            },
        }
    }
}

/// The percent-decoding of a character sequence: a literal character passes
/// through; a `%` begins the escapes of one UTF-8 encoded character, as many
/// of them as the first escaped byte announces. `None` when an escape is
/// malformed, the input ends inside one, or the bytes are not one valid
/// UTF-8 character.
pub open spec fn percent_decoded(s: Seq<char>) -> Option<Seq<char>>
    decreases s.len(),
{
    if s.len() == 0 {
        Some(Seq::<char>::empty())
    } else if s[0] != '%' {
        match percent_decoded(s.drop_first()) {
            Some(t) => Some(seq![s[0]] + t),
            None => None,
        }
    } else {
        match escape_byte_head(s) {
            None => None,
            Some(b0) => match lead_width(b0) {
                None => None,
                Some(w) => match group_bytes(s, w as nat) {
                    None => None,
                    Some(bs) => if valid_first_scalar(bs) && 3 * w <= s.len() {
                        match percent_decoded(s.skip(3 * w)) {
                            Some(t) => Some(seq![decode_first_scalar(bs) as char] + t),
                            None => None,
                        }
                    } else {
                        None
                    },
                },
            },
        }
    }
}

/// Reads the `%XX` escape starting at index `i` of `chars`.
fn read_escape(chars: &Vec<char>, i: usize) -> (r: Option<u8>)
    requires
        i <= chars@.len(),
    ensures
        r == escape_byte_head(chars@.skip(i as int)),
{
    let ghost suffix = chars@.skip(i as int);
    if chars.len() - i < 3 {
        return None;
    }
    assert(suffix[0] == chars@[i as int] && suffix[1] == chars@[i + 1] && suffix[2] == chars@[i
        + 2]);
    if chars[i] != '%' {
        return None;
    }
    let h1 = hex_value_of(chars[i + 1]);
    let h2 = hex_value_of(chars[i + 2]);
    match (h1, h2) {
        (Some(a), Some(b)) => Some(a * 16 + b),
        _ => None,
    }
}

/// Decodes a percent-encoded string back to text. Fails when a `%` is not
/// followed by two hexadecimal digits, the input ends in the middle of an
/// escape, or the escaped bytes are not valid UTF-8.
pub fn decode(input: &str) -> (r: Result<String, DecodeError>)
    ensures
        match percent_decoded(input@) {
            Some(t) => r matches Ok(s) && s@ == t,
            None => r is Err,
        },
{
    let chars = str_to_chars(input);
    let n = chars.len();
    let mut out: Vec<char> = Vec::new();
    let mut i: usize = 0;
    proof {
        assert(chars@.skip(0) =~= chars@);
    }
    while i < n
        invariant
            i <= n,
            n == chars@.len(),
            chars@ == input@,
            percent_decoded(chars@) == (match percent_decoded(chars@.skip(i as int)) {
                Some(t) => Some(out@ + t),
                None => None::<Seq<char>>,
            }),
        decreases n - i,
    {
        let ghost suffix = chars@.skip(i as int);
        let ghost before = out@;
        let c = chars[i];
        assert(suffix[0] == c);
        if c != '%' {
            proof {
                assert(suffix.drop_first() =~= chars@.skip(i + 1));
            }
            out.push(c);
            proof {
                match percent_decoded(chars@.skip(i + 1)) {
                    Some(t) => {
                        assert(before + (seq![c] + t) =~= out@ + t);
                    },
                    None => {},
                }
            }
            i += 1;
        } else {
            let b0 = match read_escape(&chars, i) {
                None => {
                    return Err(DecodeError::new(String::from_str("Invalid percent escape")));
                },
                Some(b) => b,
            };
            assert(suffix.len() >= 3 && i + 3 <= n);
            let w: usize = if b0 <= 0x7F {
                1
            } else if 0xC0 <= b0 && b0 <= 0xDF {
                2
            } else if 0xE0 <= b0 && b0 <= 0xEF {
                3
            } else if 0xF0 <= b0 && b0 <= 0xF7 {
                4
            } else {
                assert(lead_width(b0) is None);
                return Err(DecodeError::new(String::from_str("Invalid UTF-8 escape sequence")));
            };
            assert(lead_width(b0) == Some(w as int));
            let mut bs: Vec<u8> = Vec::new();
            bs.push(b0);
            proof {
                assert(suffix.skip(3) =~= chars@.skip(i + 3));
                assert(bs@ =~= seq![b0]);
            }
            let mut k: usize = 1;
            while k < w
                invariant
                    1 <= k <= w <= 4,
                    i + 3 * k <= n,
                    n == chars@.len(),
                    chars@ == input@,
                    suffix == chars@.skip(i as int),
                    i <= n,
                    percent_decoded(suffix) is None ==> percent_decoded(chars@) is None,
                    suffix[0] == '%',
                    escape_byte_head(suffix) == Some(b0),
                    lead_width(b0) == Some(w as int),
                    bs@.len() == k,
                    group_bytes(suffix, w as nat) == (match group_bytes(
                        chars@.skip(i + 3 * k),
                        (w - k) as nat,
                    ) {
                        Some(rst) => Some(bs@ + rst),
                        None => None::<Seq<u8>>,
                    }),
                decreases w - k,
            {
                let ghost at = chars@.skip(i + 3 * k);
                let b = match read_escape(&chars, i + 3 * k) {
                    None => {
                        proof {
                            assert(group_bytes(at, (w - k) as nat) is None);
                            assert(group_bytes(suffix, w as nat) is None);
                            assert(percent_decoded(suffix) is None);
                        }
                        return Err(DecodeError::new(String::from_str("Invalid percent escape")));
                    },
                    Some(b) => b,
                };
                assert(at.len() >= 3 && i + 3 * k + 3 <= n);
                let ghost bs_before = bs@;
                bs.push(b);
                proof {
                    assert(at.skip(3) =~= chars@.skip(i + 3 * (k + 1)));
                    match group_bytes(chars@.skip(i + 3 * (k + 1)), (w - k - 1) as nat) {
                        Some(rst) => {
                            assert(bs_before + (seq![b] + rst) =~= bs@ + rst);
                        },
                        None => {},
                    }
                }
                k += 1;
            }
            proof {
                assert(group_bytes(chars@.skip(i + 3 * w), 0) == Some(Seq::<u8>::empty()));
                assert(bs@ + Seq::<u8>::empty() =~= bs@);
                assert(group_bytes(suffix, w as nat) == Some(bs@));
            }
            match decode_scalar_at(&bs, 0) {
                None => {
                    proof {
                        assert(bs@.skip(0) =~= bs@);
                        assert(percent_decoded(suffix) is None);
                    }
                    return Err(DecodeError::new(String::from_str("Invalid UTF-8 escape sequence")));
                },
                Some((c2, _wl)) => {
                    proof {
                        assert(bs@.skip(0) =~= bs@);
                        char_u32_cast(c2, decode_first_scalar(bs@));
                        assert(suffix.skip(3 * w) =~= chars@.skip(i + 3 * w));
                    }
                    out.push(c2);
                    proof {
                        match percent_decoded(chars@.skip(i + 3 * w)) {
                            Some(t) => {
                                assert(before + (seq![c2] + t) =~= out@ + t);
                            },
                            None => {},
                        }
                    }
                    i += 3 * w;
                },
            }
        }
    }
    proof {
        assert(chars@.skip(n as int) =~= Seq::<char>::empty());
        match percent_decoded(chars@) {
            Some(t) => {
                assert(out@ + Seq::<char>::empty() =~= out@);
            },
            None => {},
        }
    }
    Ok(chars_to_string(&out))
}

proof fn lemma_percent_escapes_len(bs: Seq<u8>)
    ensures
        percent_escapes(bs).len() == 3 * bs.len(),
    decreases bs.len(),
{
    if bs.len() != 0 {
        lemma_percent_escapes_len(bs.drop_first());
    }
}

proof fn lemma_group_bytes_escapes(bs: Seq<u8>, tail: Seq<char>)
    ensures
        group_bytes(percent_escapes(bs) + tail, bs.len()) == Some(bs),
        (percent_escapes(bs) + tail).skip(3 * bs.len() as int) == tail,
    decreases bs.len(),
{
    lemma_percent_escapes_len(bs);
    let e = percent_escapes(bs) + tail;
    if bs.len() == 0 {
        assert(e.skip(0) =~= tail);
        assert(bs =~= Seq::<u8>::empty());
    } else {
        let b = bs[0];
        let rest = bs.drop_first();
        assert(e[0] == '%' && e[1] == hex_digit(b / 16) && e[2] == hex_digit(b % 16));
        lemma_hex_digit_value(b / 16);
        lemma_hex_digit_value(b % 16);
        assert((b / 16) * 16 + b % 16 == b);
        assert(escape_byte_head(e) == Some(b));
        assert(e.skip(3) =~= percent_escapes(rest) + tail);
        lemma_group_bytes_escapes(rest, tail);
        assert(seq![b] + rest =~= bs);
        assert((percent_escapes(rest) + tail).skip(3 * rest.len() as int) == tail);
        assert(e.skip(3 * bs.len() as int) =~= (percent_escapes(rest) + tail).skip(3 * rest.len() as int));
    }
}

/// Percent-decoding inverts percent-encoding: decoding the encoding of any
/// text gives exactly that text back.
pub proof fn lemma_percent_round_trip(s: Seq<char>)
    ensures
        percent_decoded(percent_encoded(s)) == Some(s),
    decreases s.len(),
{
    if s.len() == 0 {
        assert(percent_encoded(s) =~= Seq::<char>::empty());
    } else {
        let c = s[0];
        let rest = s.drop_first();
        lemma_percent_round_trip(rest);
        let e = percent_encoded(s);
        let tail = percent_encoded(rest);
        if is_unreserved(c) {
            assert(c != '%');
            assert(e == seq![c] + tail);
            assert(e[0] == c);
            assert(e.drop_first() =~= tail);
            assert(seq![c] + rest =~= s);
        } else {
            char_is_scalar(c);
            let bs = encode_scalar(c as u32);
            assert(encode_utf8(seq![c]) =~= bs) by {
                reveal_with_fuel(encode_utf8, 2);
                assert(seq![c].drop_first() =~= Seq::<char>::empty());
            }
            encode_utf8_first_scalar(seq![c]);
            assert(valid_first_scalar(bs));
            assert(decode_first_scalar(bs) == c as u32);
            assert(length_of_first_scalar(bs) == bs.len());
            assert(e == percent_escapes(bs) + tail);
            lemma_percent_escapes_len(bs);
            assert(bs.len() >= 1);
            assert(e[0] == '%');
            lemma_group_bytes_escapes(bs, tail);
            assert(group_bytes(e, bs.len()) == Some(bs));
            let b0 = bs[0];
            assert(escape_byte_head(e) == Some(b0)) by {
                reveal_with_fuel(group_bytes, 1);
            }
            assert(lead_width(b0) == Some(bs.len() as int));
            assert(3 * bs.len() <= e.len());
            assert(e.skip(3 * bs.len() as int) == tail);
            char_u32_cast(c, decode_first_scalar(bs));
            assert(percent_decoded(e) == Some(seq![c] + rest));
            assert(seq![c] + rest =~= s);
        }
    }
}

} // verus!
