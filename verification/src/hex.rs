//! Lower-case hexadecimal text.

use vstd::prelude::*;

verus! {

/// The hexadecimal digit of a number below sixteen.
pub open spec fn hex_digit(n: int) -> char {
    if n < 10 {
        ('0' as int + n) as char
    } else {
        ('a' as int + (n - 10)) as char
    }
}

/// Different numbers below sixteen have different digits.
pub proof fn hex_digit_injective(a: int, b: int)
    requires
        0 <= a < 16,
        0 <= b < 16,
        hex_digit(a) == hex_digit(b),
    ensures
        a == b,
{
    assert('0' as int == 48 && 'a' as int == 97);
    assert(hex_digit(a) as int == if a < 10 { 48 + a } else { 87 + a });
    assert(hex_digit(b) as int == if b < 10 { 48 + b } else { 87 + b });
}

/// The two hexadecimal digits of a byte.
pub open spec fn byte_text(b: u8) -> Seq<char> {
    seq![hex_digit(b as int / 16), hex_digit(b as int % 16)]
}

/// Every byte's two digits, one byte after the other.
pub open spec fn bytes_text(bytes: Seq<u8>) -> Seq<char> {
    Seq::new(2 * bytes.len(), |i: int| byte_text(bytes[i / 2])[i % 2])
}

/// The digit for `n`, which is below sixteen.
fn digit(n: u8) -> (c: char)
    requires
        n < 16,
    ensures
        c == hex_digit(n as int),
{
    if n < 10 {
        (48u8 + n) as char
    } else {
        (87u8 + n) as char
    }
}

/// The bytes as lower-case hexadecimal text, two digits each.
pub fn hex_text(bytes: &[u8]) -> (text: String)
    ensures
        text@ == bytes_text(bytes@),
{
    let mut text = String::new();
    let mut i: usize = 0;
    while i < bytes.len()
        invariant
            i <= bytes.len(),
            text@ == bytes_text(bytes@.take(i as int)),
        decreases bytes.len() - i,
    {
        let b = bytes[i];
        text.push(digit(b / 16));
        text.push(digit(b % 16));
        i += 1;
    }
    assert(bytes@.take(bytes.len() as int) == bytes@);
    text
}

} // verus!
