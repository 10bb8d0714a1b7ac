//! Text: bytes that are UTF-8, comparison of strings, and decimal numerals.

use crate::term::signed_value;
use num_bigint::{BigInt, Sign};
use vstd::prelude::*;
use vstd::string::StringExecFns;
use vstd::utf8::{decode_utf8, encode_utf8, valid_utf8};

verus! {

/// How a float with the given bits is written out, as `eetf::Float` displays it.
pub uninterp spec fn float_numeral(bits: u64) -> Seq<char>;

/// The character of a decimal digit.
pub open spec fn digit_char(d: int) -> char {
    if d == 0 {
        '0'
    } else if d == 1 {
        '1'
    } else if d == 2 {
        '2'
    } else if d == 3 {
        '3'
    } else if d == 4 {
        '4'
    } else if d == 5 {
        '5'
    } else if d == 6 {
        '6'
    } else if d == 7 {
        '7'
    } else if d == 8 {
        '8'
    } else {
        '9'
    }
}

/// The decimal digits of a natural number, without leading zeros.
pub open spec fn digits(n: nat) -> Seq<char>
    decreases n,
{
    if n < 10 {
        seq![digit_char(n as int)]
    } else {
        digits(n / 10).push(digit_char((n % 10) as int))
    }
}

/// The decimal numeral of an integer, with `-` before a negative one.
pub open spec fn decimal(v: int) -> Seq<char> {
    if v < 0 {
        seq!['-'] + digits((-v) as nat)
    } else {
        digits(v as nat)
    }
}

/// The text that a byte string holds, if it is UTF-8.
pub open spec fn text_of(bytes: Seq<u8>) -> Option<Seq<char>> {
    if valid_utf8(bytes) {
        Some(decode_utf8(bytes))
    } else {
        None
    }
}

/// Reads bytes as text with `core::str::from_utf8`, which accepts exactly the
/// byte strings that are UTF-8 and gives their characters.
#[verifier::external_body]
pub(crate) fn utf8_text(bytes: &[u8]) -> (r: Option<&str>)
    ensures
        match r {
            Some(s) => text_of(bytes@) == Some(s@),
            None => text_of(bytes@) is None,
        },
{
    core::str::from_utf8(bytes).ok()
}

/// Writes a big integer out with `BigInt::to_string`, which gives its decimal
/// numeral. The integer is made from its sign and little-endian magnitude by
/// `BigInt::from_bytes_le`.
#[verifier::external_body]
pub(crate) fn big_decimal(negative: bool, magnitude: &[u8]) -> (r: String)
    ensures
        r@ == decimal(signed_value(negative, magnitude@)),
{
    BigInt::from_bytes_le(if negative { Sign::Minus } else { Sign::Plus }, magnitude).to_string()
}

/// Writes a float out as `eetf::Float` displays it.
#[verifier::external_body]
pub(crate) fn float_text(bits: u64) -> (r: String)
    ensures
        r@ == float_numeral(bits),
{
    eetf::Float { value: num_traits::FromBytes::from_be_bytes(&bits.to_be_bytes()) }.to_string()
}

/// Whether two byte strings are the same.
pub fn same_bytes(a: &[u8], b: &[u8]) -> (r: bool)
    ensures
        r == (a@ == b@),
{
    if a.len() != b.len() {
        return false;
    }
    let mut i: usize = 0;
    while i < a.len()
        invariant
            a@.len() == b@.len(),
            i <= a@.len(),
            forall|j: int| 0 <= j < i ==> a@[j] == b@[j],
        decreases a@.len() - i,
    {
        if a[i] != b[i] {
            return false;
        }
        i = i + 1;
    }
    assert(a@ =~= b@);
    true
}

/// Whether two strings hold the same characters.
pub fn same_text(a: &str, b: &str) -> (r: bool)
    ensures
        r == (a@ == b@),
{
    broadcast use vstd::utf8::encode_utf8_decode_utf8;

    let r = same_bytes(a.as_bytes(), b.as_bytes());
    proof {
        if r {
            assert(decode_utf8(encode_utf8(a@)) == decode_utf8(encode_utf8(b@)));
        }
    }
    r
}

/// Whether a byte string is the UTF-8 form of the given text.
pub fn bytes_spell(bytes: &[u8], text: &str) -> (r: bool)
    ensures
        r == (text_of(bytes@) == Some(text@)),
{
    broadcast use vstd::utf8::encode_utf8_decode_utf8;
    broadcast use vstd::utf8::encode_utf8_valid_utf8;
    broadcast use vstd::utf8::decode_utf8_encode_utf8;

    let r = same_bytes(bytes, text.as_bytes());
    proof {
        if r {
            assert(bytes@ == encode_utf8(text@));
        } else if valid_utf8(bytes@) && decode_utf8(bytes@) == text@ {
            assert(encode_utf8(decode_utf8(bytes@)) == bytes@);
        }
    }
    r
}

/// The one-character string of a decimal digit.
pub fn digit_text(d: u8) -> (r: &'static str)
    requires
        d < 10,
    ensures
        r@ == seq![digit_char(d as int)],
{
    proof {
        reveal_strlit("0");
        reveal_strlit("1");
        reveal_strlit("2");
        reveal_strlit("3");
        reveal_strlit("4");
        reveal_strlit("5");
        reveal_strlit("6");
        reveal_strlit("7");
        reveal_strlit("8");
        reveal_strlit("9");
    }
    let r = if d == 0 {
        "0"
    } else if d == 1 {
        "1"
    } else if d == 2 {
        "2"
    } else if d == 3 {
        "3"
    } else if d == 4 {
        "4"
    } else if d == 5 {
        "5"
    } else if d == 6 {
        "6"
    } else if d == 7 {
        "7"
    } else if d == 8 {
        "8"
    } else {
        "9"
    };
    assert(r@ =~= seq![digit_char(d as int)]);
    r
}

/// The decimal digits of a number.
pub fn digits_text(n: u64) -> (r: String)
    ensures
        r@ == digits(n as nat),
    decreases n,
{
    if n < 10 {
        String::from_str(digit_text(n as u8))
    } else {
        let mut r = digits_text(n / 10);
        r.append(digit_text((n % 10) as u8));
        assert(r@ =~= digits(n as nat));
        r
    }
}

/// The decimal numeral of an integer.
pub fn decimal_text(v: i64) -> (r: String)
    ensures
        r@ == decimal(v as int),
{
    if v < 0 {
        let magnitude: u64 = if v == i64::MIN {
            9223372036854775808u64
        } else {
            (-v) as u64
        };
        let mut r = String::from_str("-");
        let tail = digits_text(magnitude);
        r.append(tail.as_str());
        proof {
            reveal_strlit("-");
            assert(r@ =~= decimal(v as int));
        }
        r
    } else {
        digits_text(v as u64)
    }
}

} // verus!
