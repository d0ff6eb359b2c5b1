//! Base64 encoding of the UTF-8 bytes of a string, over the standard
//! 64-symbol alphabet, with `=` padding up to a multiple of four characters.

use vstd::prelude::*;
use vstd::string::*;
use vstd::utf8::encode_utf8;
use crate::text::chars_to_string;

verus! {

/// The standard Base64 alphabet symbol for a 6-bit value.
pub open spec fn b64_char(v: u8) -> char
    recommends
        v < 64,
{
    if v < 26 {
        (0x41 + v) as char
    } else if v < 52 {
        (0x61 + v - 26) as char
    } else if v < 62 {
        (0x30 + v - 52) as char
    } else if v == 62 {
        '+'
    } else {
        '/'
    }
}

/// Computes the standard Base64 alphabet symbol for a 6-bit value.
fn b64_char_of(v: u8) -> (c: char)
    requires
        v < 64,
    ensures
        c == b64_char(v),
{
    if v < 26 {
        (0x41 + v) as char
    } else if v < 52 {
        (0x61 + v - 26) as char
    } else if v < 62 {
        (0x30 + v - 52) as char
    } else if v == 62 {
        '+'
    } else {
        '/'
    }
}

/// The Base64 encoding of a byte sequence: each group of three bytes
/// becomes four alphabet symbols; a final group of one or two bytes becomes
/// two or three symbols, padded with `=` to a multiple of four.
pub open spec fn base64_of(bytes: Seq<u8>) -> Seq<char>
    decreases bytes.len(),
{
    if bytes.len() == 0 {
        Seq::<char>::empty()
    } else if bytes.len() == 1 {
        let a = bytes[0];
        seq![b64_char(a / 4), b64_char(((a % 4) * 16) as u8), '=', '=']
    } else if bytes.len() == 2 {
        let a = bytes[0];
        let b = bytes[1];
        seq![
            b64_char(a / 4),
            b64_char(((a % 4) * 16 + b / 16) as u8),
            b64_char(((b % 16) * 4) as u8),
            '=',
        ]
    } else {
        let a = bytes[0];
        let b = bytes[1];
        let c = bytes[2];
        seq![
            b64_char(a / 4),
            b64_char(((a % 4) * 16 + b / 16) as u8),
            b64_char(((b % 16) * 4 + c / 64) as u8),
            b64_char((c % 64) as u8),
        ] + base64_of(bytes.skip(3))
    }
}

/// Encodes the UTF-8 bytes of a string in Base64.
///
/// The empty string encodes to the empty string.
pub fn base64_encode(input: &str) -> (r: String)
    ensures
        r@ == base64_of(encode_utf8(input@)),
        input@.len() == 0 ==> r@.len() == 0,
{
    let bytes = input.as_bytes_vec();
    let ghost all = bytes@;
    let n = bytes.len();
    let mut out: Vec<char> = Vec::new();
    let mut i: usize = 0;
    proof {
        assert(all.skip(0) =~= all);
    }
    while n - i >= 3
        invariant
            i <= n,
            n == all.len(),
            bytes@ == all,
            base64_of(all) == out@ + base64_of(all.skip(i as int)),
        decreases n - i,
    {
        let ghost rest = all.skip(i as int);
        let a = bytes[i];
        let b = bytes[i + 1];
        let c = bytes[i + 2];
        proof {
            assert(rest[0] == a && rest[1] == b && rest[2] == c);
            assert(rest.skip(3) =~= all.skip(i + 3));
        }
        out.push(b64_char_of(a / 4));
        out.push(b64_char_of((a % 4) * 16 + b / 16));
        out.push(b64_char_of((b % 16) * 4 + c / 64));
        out.push(b64_char_of(c % 64));
        proof {
            assert(base64_of(all) =~= out@ + base64_of(all.skip(i + 3)));
        }
        i += 3;
    }
    if n - i == 1 {
        let ghost rest = all.skip(i as int);
        let a = bytes[i];
        proof {
            assert(rest[0] == a);
        }
        out.push(b64_char_of(a / 4));
        out.push(b64_char_of((a % 4) * 16));
        out.push('=');
        out.push('=');
        proof {
            assert(base64_of(all) =~= out@);
        }
    } else if n - i == 2 {
        let ghost rest = all.skip(i as int);
        let a = bytes[i];
        let b = bytes[i + 1];
        proof {
            assert(rest[0] == a && rest[1] == b);
        }
        out.push(b64_char_of(a / 4));
        out.push(b64_char_of((a % 4) * 16 + b / 16));
        out.push(b64_char_of((b % 16) * 4));
        out.push('=');
        proof {
            assert(base64_of(all) =~= out@);
        }
    } else {
        proof {
            assert(all.skip(i as int) =~= Seq::<u8>::empty());
            assert(base64_of(all) =~= out@);
        }
    }
    chars_to_string(&out)
}

} // verus!
