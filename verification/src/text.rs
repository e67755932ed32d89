//! Building the texts the rules produce, one character at a time.

use vstd::prelude::*;
use vstd::string::*;

verus! {

/// The characters `0` to `9`, then `a` to `f`.
pub open spec fn digit_char(digit: int) -> char {
    if digit < 10 {
        (digit + 48) as char
    } else {
        (digit + 87) as char
    }
}

/// A number in decimal.
pub open spec fn decimal(value: nat) -> Seq<char>
    decreases value,
{
    if value < 10 {
        seq![digit_char(value as int)]
    } else {
        decimal(value / 10).push(digit_char((value % 10) as int))
    }
}

/// A byte as two hexadecimal digits.
pub open spec fn hex_byte(value: u8) -> Seq<char> {
    seq![digit_char(value as int / 16), digit_char(value as int % 16)]
}

fn push_digit(text: &mut String, digit: u8)
    requires
        digit < 16,
    ensures
        final(text)@ == old(text)@.push(digit_char(digit as int)),
{
    proof {
        reveal_strlit("0");
        reveal_strlit("1");
        reveal_strlit("2");
        reveal_strlit("3");
        reveal_strlit("4");
        reveal_strlit("5");
        reveal_strlit("6");
        reveal_strlit("7");
        reveal_strlit("8");
        reveal_strlit("9");
        reveal_strlit("a");
        reveal_strlit("b");
        reveal_strlit("c");
        reveal_strlit("d");
        reveal_strlit("e");
        reveal_strlit("f");
    }
    let shown: &str = match digit {
        0 => "0",
        1 => "1",
        2 => "2",
        3 => "3",
        4 => "4",
        5 => "5",
        6 => "6",
        7 => "7",
        8 => "8",
        9 => "9",
        10 => "a",
        11 => "b",
        12 => "c",
        13 => "d",
        14 => "e",
        _ => "f",
    };
    text.append(shown);
    assert(text@ =~= old(text)@.push(digit_char(digit as int)));
}

/// Append a number in decimal.
pub fn push_decimal(text: &mut String, value: u64)
    ensures
        final(text)@ == old(text)@ + decimal(value as nat),
    decreases value,
{
    if value >= 10 {
        push_decimal(text, value / 10);
    }
    push_digit(text, (value % 10) as u8);
    assert(text@ =~= old(text)@ + decimal(value as nat));
}

/// Append a byte as two hexadecimal digits.
pub fn push_hex_byte(text: &mut String, value: u8)
    ensures
        final(text)@ == old(text)@ + hex_byte(value),
{
    push_digit(text, value / 16);
    push_digit(text, value % 16);
    assert(text@ =~= old(text)@ + hex_byte(value));
}

/// Whether two texts hold the same characters.
pub fn same_text(left: &str, right: &str) -> (same: bool)
    ensures
        same == (left@ == right@),
{
    let length: usize = left.unicode_len();
    if right.unicode_len() != length {
        return false;
    }
    let mut index: usize = 0;
    while index < length
        invariant
            index <= length,
            left@.len() == length,
            right@.len() == length,
            forall|k: int| 0 <= k < index ==> left@[k] == right@[k],
        decreases length - index,
    {
        if left.get_char(index) != right.get_char(index) {
            return false;
        }
        index = index + 1;
    }
    assert(left@ =~= right@);
    true
}

/// The number a text of digits says.
pub open spec fn said(text: Seq<char>) -> int
    decreases text.len(),
{
    if text.len() == 0 {
        0
    } else {
        10 * said(text.drop_last()) + (text.last() as int - '0' as int)
    }
}

/// A number is written so that it can be read again: in digits only, without
/// leading zeros, and saying exactly that number.
pub proof fn law_decimals_say_their_number(value: nat)
    ensures
        said(decimal(value)) == value,
        decimal(value).len() > 0,
        forall|i: int| 0 <= i < decimal(value).len() ==> '0' <= #[trigger] decimal(value)[i] <= '9',
        value > 0 ==> decimal(value)[0] != '0',
    decreases value,
{
    let text = decimal(value);
    if value < 10 {
        assert(text.drop_last() =~= Seq::empty());
        assert(said(text.drop_last()) == 0);
        assert(text.last() as int == value + 48);
    } else {
        law_decimals_say_their_number(value / 10);
        assert(text.drop_last() =~= decimal(value / 10));
        assert(text.last() as int == value % 10 + 48);
    }
}

/// A byte is written as two digits of sixteen: the high one first, and different
/// bytes differently.
pub proof fn law_hex_bytes_are_two_digits(value: u8, other: u8)
    ensures
        hex_byte(value).len() == 2,
        value < 16 ==> hex_byte(value)[0] == '0',
        hex_byte(value) == hex_byte(other) ==> value == other,
        value as int % 16 == other as int % 16 ==> hex_byte(value)[1] == hex_byte(other)[1],
        value as int / 16 == other as int / 16 ==> hex_byte(value)[0] == hex_byte(other)[0],
{
    let (a, b) = (hex_byte(value), hex_byte(other));
    if a == b {
        assert(a[0] == b[0] && a[1] == b[1]);
        assert(digit_char(value as int / 16) as int == digit_char(other as int / 16) as int);
    }
}

} // verus!
