//! Small operations on names and numbers as text.

use vstd::prelude::*;
use vstd::string::*;
use vstd::utf8::*;

verus! {

/// An ASCII capital letter as its small letter; any other byte as it is.
pub open spec fn ascii_lowered(byte: u8) -> u8 {
    if 0x41 <= byte <= 0x5a {
        (byte + 0x20) as u8
    } else {
        byte
    }
}

/// Two byte strings are equal but for the case of their ASCII letters.
pub open spec fn equal_ignoring_case(a: Seq<u8>, b: Seq<u8>) -> bool {
    &&& a.len() == b.len()
    &&& forall|i: int| 0 <= i < a.len() ==> ascii_lowered(#[trigger] a[i]) == ascii_lowered(b[i])
}

/// The character of a decimal digit.
pub open spec fn digit(value: nat) -> char {
    if value == 0 {
        '0'
    } else if value == 1 {
        '1'
    } else if value == 2 {
        '2'
    } else if value == 3 {
        '3'
    } else if value == 4 {
        '4'
    } else if value == 5 {
        '5'
    } else if value == 6 {
        '6'
    } else if value == 7 {
        '7'
    } else if value == 8 {
        '8'
    } else {
        '9'
    }
}

/// A number in decimal, without leading zeros.
pub open spec fn decimal_text(value: nat) -> Seq<char>
    decreases value,
{
    if value < 10 {
        seq![digit(value)]
    } else {
        decimal_text(value / 10).push(digit(value % 10))
    }
}

/// The UTF-8 bytes of two texts, one after the other, are the bytes of the
/// two texts joined.
pub proof fn lemma_utf8_of_joined(first: Seq<char>, second: Seq<char>)
    ensures
        encode_utf8(first + second) == encode_utf8(first) + encode_utf8(second),
    decreases first.len(),
{
    if first.len() == 0 {
        assert(first + second =~= second);
        assert(encode_utf8(first) + encode_utf8(second) =~= encode_utf8(second));
    } else {
        lemma_utf8_of_joined(first.drop_first(), second);
        assert((first + second).drop_first() =~= first.drop_first() + second);
        assert(encode_utf8(first + second) =~= encode_utf8(first) + encode_utf8(second));
    }
}

/// Texts with the same UTF-8 bytes are the same text.
pub proof fn lemma_utf8_distinguishes(first: Seq<char>, second: Seq<char>)
    requires
        encode_utf8(first) == encode_utf8(second),
    ensures
        first == second,
{
    encode_utf8_decode_utf8(first);
    encode_utf8_decode_utf8(second);
}

/// Whether two byte strings are equal.
pub fn same_bytes(a: &[u8], b: &[u8]) -> (same: bool)
    ensures
        same == (a@ == b@),
{
    if a.len() != b.len() {
        return false;
    }
    let length: usize = a.len();
    let mut k: usize = 0;
    while k < length
        invariant
            k <= length,
            length == a@.len(),
            length == b@.len(),
            forall|i: int| 0 <= i < k ==> a@[i] == b@[i],
        decreases length - k,
    {
        if a[k] != b[k] {
            return false;
        }
        k = k + 1;
    }
    assert(a@ =~= b@);
    true
}

/// Whether two texts are equal.
pub fn same_text(a: &str, b: &str) -> (same: bool)
    ensures
        same == (a@ == b@),
{
    let same = same_bytes(a.as_bytes(), b.as_bytes());
    proof {
        if same {
            lemma_utf8_distinguishes(a@, b@);
        }
    }
    same
}

/// An ASCII capital letter as its small letter; any other byte as it is.
pub fn lower_ascii(byte: u8) -> (lowered: u8)
    ensures
        lowered == ascii_lowered(byte),
{
    if 0x41 <= byte && byte <= 0x5a {
        byte + 0x20
    } else {
        byte
    }
}

/// Whether two texts are equal but for the case of their ASCII letters.
pub fn same_ignoring_case(a: &str, b: &str) -> (same: bool)
    ensures
        same == equal_ignoring_case(a.spec_bytes(), b.spec_bytes()),
{
    let left = a.as_bytes();
    let right = b.as_bytes();
    if left.len() != right.len() {
        return false;
    }
    let length: usize = left.len();
    let mut k: usize = 0;
    while k < length
        invariant
            k <= length,
            length == left@.len(),
            length == right@.len(),
            left@ == a.spec_bytes(),
            right@ == b.spec_bytes(),
            forall|i: int|
                0 <= i < k ==> ascii_lowered(#[trigger] left@[i]) == ascii_lowered(right@[i]),
        decreases length - k,
    {
        if lower_ascii(left[k]) != lower_ascii(right[k]) {
            assert(ascii_lowered(left@[k as int]) != ascii_lowered(right@[k as int]));
            return false;
        }
        k = k + 1;
    }
    true
}

/// The text of one decimal digit.
fn digit_text(value: usize) -> (text: &'static str)
    requires
        value < 10,
    ensures
        text@ == seq![digit(value as nat)],
{
    proof {
        reveal_strlit("0");
        reveal_strlit("1");
        reveal_strlit("2");
        reveal_strlit("3");
        reveal_strlit("4");
        reveal_strlit("5");
        reveal_strlit("6");
        reveal_strlit("7");
        reveal_strlit("8");
        reveal_strlit("9");
    }
    let text = if value == 0 {
        "0"
    } else if value == 1 {
        "1"
    } else if value == 2 {
        "2"
    } else if value == 3 {
        "3"
    } else if value == 4 {
        "4"
    } else if value == 5 {
        "5"
    } else if value == 6 {
        "6"
    } else if value == 7 {
        "7"
    } else if value == 8 {
        "8"
    } else {
        "9"
    };
    assert(text@ =~= seq![digit(value as nat)]);
    text
}

/// Writes a number in decimal.
pub fn decimal(value: usize) -> (text: String)
    ensures
        text@ == decimal_text(value as nat),
    decreases value,
{
    if value < 10 {
        String::from_str(digit_text(value))
    } else {
        let head = decimal(value / 10);
        head.concat(digit_text(value % 10))
    }
}

} // verus!
