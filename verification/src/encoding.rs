//! Percent-encoding of one path segment of an address.

use vstd::prelude::*;
use vstd::string::*;
use vstd::utf8::{encode_utf8, encode_utf8_decode_utf8};

verus! {

/// Bytes that stand for themselves in a path segment.
pub open spec fn is_unreserved(b: u8) -> bool {
    ||| 65 <= b <= 90
    ||| 97 <= b <= 122
    ||| 48 <= b <= 57
    ||| b == 45
    ||| b == 95
    ||| b == 46
    ||| b == 126
}

/// The upper-case hexadecimal digit for `n`, a number below sixteen.
pub open spec fn hex_digit(n: u8) -> char {
    if n < 10 {
        (48 + n) as char
    } else {
        (55 + n) as char
    }
}

/// A byte as it is written in a path segment.
pub open spec fn encode_byte(b: u8) -> Seq<char> {
    if is_unreserved(b) {
        seq![b as char]
    } else {
        seq!['%', hex_digit(b / 16), hex_digit(b % 16)]
    }
}

/// Bytes as they are written in a path segment.
pub open spec fn encode_model(bytes: Seq<u8>) -> Seq<char>
    decreases bytes.len(),
{
    if bytes.len() == 0 {
        Seq::empty()
    } else {
        encode_byte(bytes[0]) + encode_model(bytes.skip(1))
    }
}

fn hex_char(n: u8) -> (r: char)
    requires
        n < 16,
    ensures
        r == hex_digit(n),
{
    if n < 10 {
        (48u8 + n) as char
    } else {
        (55u8 + n) as char
    }
}

/// Percent-encodes `s`, so that it can stand as one segment of a path.
pub fn urlencoding_encode(s: &str) -> (r: String)
    ensures
        r@ == encode_model(encode_utf8(s@)),
{
    let bytes = s.as_bytes();
    let mut out = String::new();
    let mut i: usize = 0;
    proof {
        assert(bytes@.skip(0) =~= bytes@);
        assert(out@ + encode_model(bytes@) =~= encode_model(bytes@));
    }
    while i < bytes.len()
        invariant
            i <= bytes@.len(),
            out@ + encode_model(bytes@.skip(i as int)) == encode_model(bytes@),
        decreases bytes.len() - i,
    {
        let b: u8 = bytes[i];
        let ghost before = out@;
        if (65 <= b && b <= 90) || (97 <= b && b <= 122) || (48 <= b && b <= 57) || b == 45 || b
            == 95 || b == 46 || b == 126 {
            out.push(b as char);
        } else {
            out.push('%');
            out.push(hex_char(b / 16));
            out.push(hex_char(b % 16));
        }
        proof {
            assert(out@ =~= before + encode_byte(b));
            assert(bytes@.skip(i as int).skip(1) =~= bytes@.skip(i + 1));
            assert(before + (encode_byte(b) + encode_model(bytes@.skip(i + 1))) =~= out@
                + encode_model(bytes@.skip(i + 1)));
        }
        i = i + 1;
    }
    proof {
        assert(out@ + encode_model(bytes@.skip(i as int)) =~= out@);
    }
    out
}

/// The number that a hexadecimal digit stands for.
pub open spec fn hex_value(c: char) -> int {
    if '0' <= c <= '9' {
        c as int - 48
    } else {
        c as int - 55
    }
}

/// Reads a percent-encoded segment back.
pub open spec fn decode_model(s: Seq<char>) -> Seq<u8>
    decreases s.len(),
{
    if s.len() == 0 {
        Seq::empty()
    } else if s[0] == '%' && s.len() >= 3 {
        seq![(16 * hex_value(s[1]) + hex_value(s[2])) as u8] + decode_model(s.skip(3))
    } else {
        seq![s[0] as u8] + decode_model(s.skip(1))
    }
}

/// Decoding gives back the bytes that were encoded.
pub proof fn law_encoding_decodes_back(bytes: Seq<u8>)
    ensures
        decode_model(encode_model(bytes)) == bytes,
    decreases bytes.len(),
{
    if bytes.len() > 0 {
        let b = bytes[0];
        let rest = bytes.skip(1);
        let s = encode_model(bytes);
        law_encoding_decodes_back(rest);
        if is_unreserved(b) {
            assert(s.skip(1) =~= encode_model(rest));
            assert(s[0] == b as char);
        } else {
            assert(s.skip(3) =~= encode_model(rest));
            assert(s[0] == '%');
            assert(s[1] == hex_digit(b / 16));
            assert(s[2] == hex_digit(b % 16));
            assert(hex_value(hex_digit(b / 16)) == b / 16);
            assert(hex_value(hex_digit(b % 16)) == b % 16);
        }
        assert(decode_model(s) =~= seq![b] + rest);
        assert(seq![b] + rest =~= bytes);
    } else {
        assert(decode_model(encode_model(bytes)) =~= bytes);
    }
}

/// Two texts that differ are never written alike, so no document is fetched in
/// another's place.
pub proof fn law_encoding_tells_texts_apart(a: Seq<char>, b: Seq<char>)
    requires
        encode_model(encode_utf8(a)) == encode_model(encode_utf8(b)),
    ensures
        a == b,
{
    law_encoding_decodes_back(encode_utf8(a));
    law_encoding_decodes_back(encode_utf8(b));
    encode_utf8_decode_utf8(a);
    encode_utf8_decode_utf8(b);
}

/// A character that may stand in an encoded segment.
pub open spec fn is_segment_char(c: char) -> bool {
    c == '%' || ((c as int) < 128 && is_unreserved(c as u8))
}

/// An encoded text holds only characters that are safe inside one segment: no
/// slash, no `?`, no `#`, no space.
pub proof fn law_encoding_stays_in_one_segment(bytes: Seq<u8>)
    ensures
        forall|i: int|
            0 <= i < encode_model(bytes).len() ==> is_segment_char(
                #[trigger] encode_model(bytes)[i],
            ),
    decreases bytes.len(),
{
    if bytes.len() > 0 {
        let head = encode_byte(bytes[0]);
        let tail = encode_model(bytes.skip(1));
        law_encoding_stays_in_one_segment(bytes.skip(1));
        assert forall|i: int| 0 <= i < encode_model(bytes).len() implies is_segment_char(
            #[trigger] encode_model(bytes)[i],
        ) by {
            if i < head.len() {
                assert(encode_model(bytes)[i] == head[i]);
            } else {
                assert(encode_model(bytes)[i] == tail[i - head.len()]);
            }
        }
    }
}

/// What needs no encoding is written as it is.
pub proof fn law_plain_bytes_are_kept(bytes: Seq<u8>)
    requires
        forall|i: int| 0 <= i < bytes.len() ==> is_unreserved(#[trigger] bytes[i]),
    ensures
        encode_model(bytes) == bytes.map_values(|b: u8| b as char),
    decreases bytes.len(),
{
    if bytes.len() > 0 {
        assert(is_unreserved(bytes[0]));
        assert forall|i: int| 0 <= i < bytes.skip(1).len() implies is_unreserved(
            #[trigger] bytes.skip(1)[i],
        ) by {
            assert(bytes.skip(1)[i] == bytes[i + 1]);
        }
        law_plain_bytes_are_kept(bytes.skip(1));
    }
    assert(encode_model(bytes) =~= bytes.map_values(|b: u8| b as char));
}

/// A text is encoded byte by byte: what stands before and after a byte makes no
/// difference to how the byte is written.
pub proof fn law_bytes_are_encoded_one_by_one(a: Seq<u8>, b: Seq<u8>)
    ensures
        encode_model(a + b) == encode_model(a) + encode_model(b),
        encode_model(Seq::empty()) == Seq::<char>::empty(),
    decreases a.len(),
{
    if a.len() == 0 {
        assert(a + b =~= b);
        assert(encode_model(a) + encode_model(b) =~= encode_model(b));
    } else {
        law_bytes_are_encoded_one_by_one(a.skip(1), b);
        assert((a + b).skip(1) =~= a.skip(1) + b);
        assert((a + b)[0] == a[0]);
        assert(encode_byte(a[0]) + (encode_model(a.skip(1)) + encode_model(b)) =~= encode_byte(
            a[0],
        ) + encode_model(a.skip(1)) + encode_model(b));
    }
}

/// How each byte is written: letters, digits, `-`, `_`, `.` and `~` as they are,
/// and every other byte as a percent sign and its two hexadecimal digits, in
/// capitals.
pub proof fn law_a_byte_is_kept_or_escaped(b: u8)
    ensures
        ({
            let c = b as char;
            let kept = 'A' <= c <= 'Z' || 'a' <= c <= 'z' || '0' <= c <= '9' || c == '-' || c == '_'
                || c == '.' || c == '~';
            let digits = "0123456789ABCDEF"@;
            encode_model(seq![b]) == if kept {
                seq![c]
            } else {
                seq!['%', digits[b as int / 16], digits[b as int % 16]]
            }
        }),
{
    reveal_strlit("0123456789ABCDEF");
    assert(seq![b].skip(1) =~= Seq::empty());
    reveal_with_fuel(encode_model, 2);
    let high = b / 16;
    let low = b % 16;
    assert("0123456789ABCDEF"@[high as int] == hex_digit(high));
    assert("0123456789ABCDEF"@[low as int] == hex_digit(low));
    assert(encode_model(seq![b]) =~= encode_byte(b));
}

} // verus!
