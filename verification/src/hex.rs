//! Hex text for 32-byte values: parsing the arguments of the off-chain
//! commitment helper, and printing the commitment it computes.

use vstd::prelude::*;
use vstd::string::StringExecFns;
use vstd::string::StringSliceAdditionalSpecFns;

verus! {

/// The value of one hex digit, either case.
pub open spec fn hex_digit_value(c: u8) -> Option<u8> {
    if 48 <= c <= 57 {
        Some((c - 48) as u8)
    } else if 97 <= c <= 102 {
        Some((c - 87) as u8)
    } else if 65 <= c <= 70 {
        Some((c - 55) as u8)
    } else {
        None
    }
}

/// The byte that two characters of text stand for when read as a base-16
/// number the way `u8::from_str_radix` reads it: two digits, or a `+` sign
/// and one digit.
pub open spec fn hex_pair_value(hi: u8, lo: u8) -> Option<u8> {
    match (hex_digit_value(hi), hex_digit_value(lo)) {
        (Some(h), Some(l)) => Some((h * 16 + l) as u8),
        (None, Some(l)) if hi == 43 => Some(l),
        _ => None,
    }
}

/// The lowercase hex digit for a value below 16.
pub open spec fn hex_char(n: int) -> char {
    if n < 10 {
        (48 + n) as char
    } else {
        (87 + n) as char
    }
}

/// Lowercase hex text of `bytes`, two digits per byte.
pub open spec fn hex_text(bytes: Seq<u8>) -> Seq<char>
    decreases bytes.len(),
{
    if bytes.len() == 0 {
        Seq::empty()
    } else {
        hex_text(bytes.drop_last()) + seq![
            hex_char(bytes.last() as int / 16),
            hex_char(bytes.last() as int % 16),
        ]
    }
}

fn digit_value(c: u8) -> (r: Option<u8>)
    ensures
        r == hex_digit_value(c),
{
    if 48 <= c && c <= 57 {
        Some(c - 48)
    } else if 97 <= c && c <= 102 {
        Some(c - 87)
    } else if 65 <= c && c <= 70 {
        Some(c - 55)
    } else {
        None
    }
}

fn pair_value(hi: u8, lo: u8) -> (r: Option<u8>)
    ensures
        r == hex_pair_value(hi, lo),
{
    match (digit_value(hi), digit_value(lo)) {
        (Some(h), Some(l)) => Some(h * 16 + l),
        (None, Some(l)) => if hi == 43 {
            Some(l)
        } else {
            None
        },
        _ => None,
    }
}

/// Reads 64 characters of hex text as 32 bytes. Returns `None` when the
/// text is not 64 bytes long or a pair of characters is not a base-16
/// byte: the two cases in which the commitment helper stops with an error
/// message instead of computing anything.
pub fn decode_hex_32(hex: &str) -> (r: Option<[u8; 32]>)
    ensures
        match r {
            Some(bytes) => {
                &&& hex.spec_bytes().len() == 64
                &&& forall|i: int| #![trigger bytes@[i]] 0 <= i < 32 ==> hex_pair_value(
                    hex.spec_bytes()[2 * i],
                    hex.spec_bytes()[2 * i + 1],
                ) == Some(bytes@[i])
            },
            None => hex.spec_bytes().len() != 64 || exists|i: int|
                0 <= i < 32 && #[trigger] hex_pair_value(
                    hex.spec_bytes()[2 * i],
                    hex.spec_bytes()[2 * i + 1],
                ) is None,
        },
{
    let text = hex.as_bytes();
    if text.len() != 64 {
        return None;
    }
    let mut bytes = [0u8; 32];
    let mut i: usize = 0;
    while i < 32
        invariant
            i <= 32,
            text@ == hex.spec_bytes(),
            text@.len() == 64,
            forall|j: int| #![trigger bytes@[j]] 0 <= j < i ==> hex_pair_value(
                text@[2 * j],
                text@[2 * j + 1],
            ) == Some(bytes@[j]),
        decreases 32 - i,
    {
        match pair_value(text[2 * i], text[2 * i + 1]) {
            Some(b) => {
                bytes[i] = b;
            },
            None => {
                assert(hex_pair_value(text@[2 * i as int], text@[2 * i as int + 1]) is None);
                return None;
            },
        }
        i = i + 1;
    }
    Some(bytes)
}

/// The one-character text of a hex digit.
fn digit_text(n: u8) -> (s: &'static str)
    requires
        n < 16,
    ensures
        s@ == seq![hex_char(n as int)],
{
    proof {
        reveal_strlit("0");
        reveal_strlit("1");
        reveal_strlit("2");
        reveal_strlit("3");
        reveal_strlit("4");
        reveal_strlit("5");
        reveal_strlit("6");
        reveal_strlit("7");
        reveal_strlit("8");
        reveal_strlit("9");
        reveal_strlit("a");
        reveal_strlit("b");
        reveal_strlit("c");
        reveal_strlit("d");
        reveal_strlit("e");
        reveal_strlit("f");
    }
    match n {
        0 => "0",
        1 => "1",
        2 => "2",
        3 => "3",
        4 => "4",
        5 => "5",
        6 => "6",
        7 => "7",
        8 => "8",
        9 => "9",
        10 => "a",
        11 => "b",
        12 => "c",
        13 => "d",
        14 => "e",
        _ => "f",
    }
}

/// Lowercase hex text of `bytes`, two digits per byte.
pub fn encode_hex(bytes: &[u8]) -> (r: String)
    ensures
        r@ == hex_text(bytes@),
{
    let mut out = String::new();
    let mut i: usize = 0;
    while i < bytes.len()
        invariant
            i <= bytes@.len(),
            out@ == hex_text(bytes@.subrange(0, i as int)),
        decreases bytes.len() - i,
    {
        let b = bytes[i];
        out.append(digit_text(b / 16));
        out.append(digit_text(b % 16));
        proof {
            let pre = bytes@.subrange(0, i + 1);
            assert(pre.drop_last() == bytes@.subrange(0, i as int));
            assert(pre.last() == b);
        }
        i = i + 1;
    }
    assert(bytes@.subrange(0, bytes@.len() as int) == bytes@);
    out
}

/// A hex digit is an ASCII character whose byte is the digit's code.
proof fn lemma_hex_char_code(n: int)
    requires
        0 <= n < 16,
    ensures
        '\0' <= hex_char(n) <= '\u{7f}',
        hex_char(n) as u8 == if n < 10 { 48 + n } else { 87 + n },
{
    let c = hex_char(n);
    assert(c as int == if n < 10 { 48 + n } else { 87 + n });
}

/// Where each byte's two digits stand in `hex_text(bytes)`.
proof fn lemma_hex_text_digits(bytes: Seq<u8>)
    ensures
        hex_text(bytes).len() == 2 * bytes.len(),
        forall|i: int| #![trigger bytes[i]] 0 <= i < bytes.len() ==> {
            &&& hex_text(bytes)[2 * i] == hex_char(bytes[i] as int / 16)
            &&& hex_text(bytes)[2 * i + 1] == hex_char(bytes[i] as int % 16)
        },
    decreases bytes.len(),
{
    if bytes.len() > 0 {
        let init = bytes.drop_last();
        lemma_hex_text_digits(init);
        assert forall|i: int| #![trigger bytes[i]] 0 <= i < bytes.len() implies {
            &&& hex_text(bytes)[2 * i] == hex_char(bytes[i] as int / 16)
            &&& hex_text(bytes)[2 * i + 1] == hex_char(bytes[i] as int % 16)
        } by {
            if i < init.len() {
                assert(init[i] == bytes[i]);
            }
        }
    }
}

/// Hex text reads back as the bytes it was printed from: the text
/// `encode_hex` prints for 32 bytes is 64 ASCII characters, and each pair of
/// them is the base-16 byte `decode_hex_32` reads there, so decoding what
/// was encoded gives the same 32 bytes back.
pub proof fn lemma_hex_round_trip(bytes: Seq<u8>)
    requires
        bytes.len() == 32,
    ensures
        ({
            let text = vstd::utf8::encode_utf8(hex_text(bytes));
            &&& text.len() == 64
            &&& forall|i: int| #![trigger bytes[i]] 0 <= i < 32 ==> hex_pair_value(
                text[2 * i],
                text[2 * i + 1],
            ) == Some(bytes[i])
        }),
{
    let chars = hex_text(bytes);
    lemma_hex_text_digits(bytes);
    assert(vstd::utf8::is_ascii_chars(chars)) by {
        assert forall|k: int| 0 <= k < chars.len() implies '\0' <= #[trigger] chars[k] <= '\u{7f}' by {
            let i = k / 2;
            assert(bytes[i] == bytes[i]);
            lemma_hex_char_code(bytes[i] as int / 16);
            lemma_hex_char_code(bytes[i] as int % 16);
            if k % 2 == 0 {
                assert(k == 2 * i);
            } else {
                assert(k == 2 * i + 1);
            }
        }
    }
    vstd::utf8::is_ascii_chars_encode_utf8(chars);
    let text = vstd::utf8::encode_utf8(chars);
    assert forall|i: int| #![trigger bytes[i]] 0 <= i < 32 implies hex_pair_value(
        text[2 * i],
        text[2 * i + 1],
    ) == Some(bytes[i]) by {
        let h = bytes[i] as int / 16;
        let l = bytes[i] as int % 16;
        lemma_hex_char_code(h);
        lemma_hex_char_code(l);
        assert(chars[2 * i] as u8 == text[2 * i]);
        assert(chars[2 * i + 1] as u8 == text[2 * i + 1]);
        assert(hex_digit_value(text[2 * i]) == Some(h as u8));
        assert(hex_digit_value(text[2 * i + 1]) == Some(l as u8));
        assert(h * 16 + l == bytes[i]);
    }
}

/// Hex digits read as their base-16 values in either case: each printed
/// digit `0`-`9`, `a`-`f` reads back as its value, a character is read as a
/// digit only if its lowercase form is the printed digit of that value, and
/// a character reads the same as its lowercase form; so a pair, and a whole
/// text, decodes to the same bytes as its lowercase form.
pub proof fn lemma_hex_digits_any_case(c: u8, hi: u8, lo: u8)
    ensures
        forall|n: int| #![trigger hex_char(n)] 0 <= n < 16 ==> {
            &&& hex_char(n) == seq!['0', '1', '2', '3', '4', '5', '6', '7', '8', '9', 'a', 'b', 'c', 'd', 'e', 'f'][n]
            &&& hex_digit_value(hex_char(n) as u8) == Some(n as u8)
        },
        hex_digit_value(c) == hex_digit_value(if 65 <= c <= 90 { (c + 32) as u8 } else { c }),
        hex_digit_value(c) matches Some(v) ==> v < 16 && hex_char(v as int) as u8 == (if 65 <= c <= 90 {
            (c + 32) as u8
        } else {
            c
        }),
        hex_pair_value(hi, lo) == hex_pair_value(
            if 65 <= hi <= 90 { (hi + 32) as u8 } else { hi },
            if 65 <= lo <= 90 { (lo + 32) as u8 } else { lo },
        ),
{
    assert forall|n: int| #![trigger hex_char(n)] 0 <= n < 16 implies {
        &&& hex_char(n) == seq!['0', '1', '2', '3', '4', '5', '6', '7', '8', '9', 'a', 'b', 'c', 'd', 'e', 'f'][n]
        &&& hex_digit_value(hex_char(n) as u8) == Some(n as u8)
    } by {
        lemma_hex_char_code(n);
    }
    if let Some(v) = hex_digit_value(c) {
        lemma_hex_char_code(v as int);
    }
}

} // verus!
