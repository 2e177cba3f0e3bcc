//! The text-safe encoding that carries user-supplied strings into the remote
//! script: standard base64 with padding, and the decoding the script applies.
use vstd::prelude::*;
use vstd::string::StringSliceAdditionalSpecFns;

verus! {

/// The base64 digit for a value below 64.
pub open spec fn b64_digit(v: int) -> char {
    if v < 26 {
        (v + 'A' as int) as char
    } else if v < 52 {
        (v - 26 + 'a' as int) as char
    } else if v < 62 {
        (v - 52 + '0' as int) as char
    } else if v == 62 {
        '+'
    } else {
        '/'
    }
}

/// The value of a base64 digit.
pub open spec fn b64_value(c: char) -> Option<int> {
    if 'A' <= c && c <= 'Z' {
        Some(c as int - 'A' as int)
    } else if 'a' <= c && c <= 'z' {
        Some(c as int - 'a' as int + 26)
    } else if '0' <= c && c <= '9' {
        Some(c as int - '0' as int + 52)
    } else if c == '+' {
        Some(62)
    } else if c == '/' {
        Some(63)
    } else {
        None
    }
}

/// Standard base64 of `b`: each three bytes become four digits, and a final one
/// or two bytes are padded with `=` to four characters.
pub open spec fn b64_encode(b: Seq<u8>) -> Seq<char>
    decreases b.len(),
{
    if b.len() == 0 {
        Seq::empty()
    } else if b.len() == 1 {
        let x = b[0] as int;
        seq![b64_digit(x / 4), b64_digit((x % 4) * 16), '=', '=']
    } else if b.len() == 2 {
        let x = b[0] as int;
        let y = b[1] as int;
        seq![b64_digit(x / 4), b64_digit((x % 4) * 16 + y / 16), b64_digit((y % 16) * 4), '=']
    } else {
        let x = b[0] as int;
        let y = b[1] as int;
        let z = b[2] as int;
        seq![
            b64_digit(x / 4),
            b64_digit((x % 4) * 16 + y / 16),
            b64_digit((y % 16) * 4 + z / 64),
            b64_digit(z % 64),
        ] + b64_encode(b.subrange(3, b.len() as int))
    }
}

/// Decoding of standard base64, as the remote script applies it: `None` where
/// the text is not a whole number of four-character groups of digits, with
/// padding only in the last group.
pub open spec fn b64_decode(s: Seq<char>) -> Option<Seq<u8>>
    decreases s.len(),
{
    if s.len() == 0 {
        Some(Seq::empty())
    } else if s.len() < 4 {
        None
    } else {
        match (b64_value(s[0]), b64_value(s[1])) {
            (Some(a), Some(b)) => {
                let x = (a * 4 + b / 16) as u8;
                if s.len() == 4 && s[2] == '=' && s[3] == '=' {
                    Some(seq![x])
                } else {
                    match b64_value(s[2]) {
                        Some(c) => {
                            let y = ((b % 16) * 16 + c / 4) as u8;
                            if s.len() == 4 && s[3] == '=' {
                                Some(seq![x, y])
                            } else {
                                match b64_value(s[3]) {
                                    Some(d) => {
                                        let z = ((c % 4) * 64 + d) as u8;
                                        match b64_decode(s.subrange(4, s.len() as int)) {
                                            Some(rest) => Some(seq![x, y, z] + rest),
                                            None => None,
                                        }
                                    },
                                    None => None,
                                }
                            }
                        },
                        None => None,
                    }
                }
            },
            _ => None,
        }
    }
}

proof fn lemma_digit_value(v: int)
    requires
        0 <= v < 64,
    ensures
        b64_value(b64_digit(v)) == Some(v),
{
}

/// Decoding the encoding of any bytes gives those bytes back.
pub proof fn lemma_base64_round_trip(b: Seq<u8>)
    ensures
        b64_decode(b64_encode(b)) == Some(b),
    decreases b.len(),
{
    if b.len() == 0 {
    } else if b.len() == 1 {
        let x = b[0] as int;
        lemma_digit_value(x / 4);
        lemma_digit_value((x % 4) * 16);
        assert(((x / 4) * 4 + ((x % 4) * 16) / 16) as u8 == b[0]);
        assert(seq![b[0]] =~= b);
    } else if b.len() == 2 {
        let x = b[0] as int;
        let y = b[1] as int;
        lemma_digit_value(x / 4);
        lemma_digit_value((x % 4) * 16 + y / 16);
        lemma_digit_value((y % 16) * 4);
        assert(((x / 4) * 4 + ((x % 4) * 16 + y / 16) / 16) as u8 == b[0]);
        assert(((((x % 4) * 16 + y / 16) % 16) * 16 + ((y % 16) * 4) / 4) as u8 == b[1]);
        assert(seq![b[0], b[1]] =~= b);
    } else {
        let x = b[0] as int;
        let y = b[1] as int;
        let z = b[2] as int;
        let e = b64_encode(b);
        let rest = b.subrange(3, b.len() as int);
        lemma_base64_round_trip(rest);
        lemma_digit_value(x / 4);
        lemma_digit_value((x % 4) * 16 + y / 16);
        lemma_digit_value((y % 16) * 4 + z / 64);
        lemma_digit_value(z % 64);
        assert(((x / 4) * 4 + ((x % 4) * 16 + y / 16) / 16) as u8 == b[0]);
        assert(((((x % 4) * 16 + y / 16) % 16) * 16 + ((y % 16) * 4 + z / 64) / 4) as u8 == b[1]);
        assert(((((y % 16) * 4 + z / 64) % 4) * 64 + z % 64) as u8 == b[2]);
        assert(e.subrange(4, e.len() as int) =~= b64_encode(rest));
        assert(e.len() >= 8 || rest.len() == 0);
        assert(seq![b[0], b[1], b[2]] + rest =~= b);
    }
}

/// A character that cannot end a quoted string or a line in a script: a base64
/// digit or the padding sign.
pub open spec fn script_safe(c: char) -> bool {
    b64_value(c) is Some || c == '='
}

/// Every character of an encoding is a base64 digit or padding.
pub proof fn lemma_base64_script_safe(b: Seq<u8>)
    ensures
        forall|i: int| 0 <= i < b64_encode(b).len() ==> script_safe(#[trigger] b64_encode(b)[i]),
    decreases b.len(),
{
    if b.len() >= 3 {
        let rest = b.subrange(3, b.len() as int);
        lemma_base64_script_safe(rest);
        let e = b64_encode(b);
        let x = b[0] as int;
        let y = b[1] as int;
        let z = b[2] as int;
        lemma_digit_value(x / 4);
        lemma_digit_value((x % 4) * 16 + y / 16);
        lemma_digit_value((y % 16) * 4 + z / 64);
        lemma_digit_value(z % 64);
        assert forall|i: int| 0 <= i < e.len() implies script_safe(#[trigger] e[i]) by {
            if i >= 4 {
                assert(e[i] == b64_encode(rest)[i - 4]);
            }
        }
    } else if b.len() == 2 {
        let x = b[0] as int;
        let y = b[1] as int;
        lemma_digit_value(x / 4);
        lemma_digit_value((x % 4) * 16 + y / 16);
        lemma_digit_value((y % 16) * 4);
    } else if b.len() == 1 {
        let x = b[0] as int;
        lemma_digit_value(x / 4);
        lemma_digit_value((x % 4) * 16);
    }
}

/// Relies on base64's `STANDARD` engine: the standard alphabet, with padding.
#[verifier::external_body]
fn base64_standard(b: &[u8]) -> (r: String)
    ensures
        r@ == b64_encode(b@),
{
    base64::Engine::encode(&base64::engine::general_purpose::STANDARD, b)
}

/// The base64 text of the UTF-8 bytes of `s`.
pub fn encode_text(s: &str) -> (r: String)
    ensures
        r@ == b64_encode(s.spec_bytes()),
        b64_decode(r@) == Some(s.spec_bytes()),
{
    proof {
        lemma_base64_round_trip(s.spec_bytes());
    }
    base64_standard(s.as_bytes())
}

} // verus!
