//! Universally unique identifiers as 128-bit numbers, and their texts.

use uuid::Uuid;
use vstd::prelude::*;

use crate::hex::{hex_digit, hex_digit_injective};

verus! {

/// The `i`th of the 32 hexadecimal digits of `id`, the highest first.
pub open spec fn nibble(id: u128, i: int) -> u128 {
    (id >> ((4 * (31 - i)) as u128)) & 0xf
}

/// The 32 lower-case hexadecimal digits of `id`.
pub open spec fn simple_text(id: u128) -> Seq<char> {
    Seq::new(32, |i: int| hex_digit(nibble(id, i) as int))
}

/// The digits of `id` in groups of eight, four, four, four and twelve, with
/// hyphens between the groups.
pub open spec fn uuid_text(id: u128) -> Seq<char> {
    let digits = simple_text(id);
    digits.subrange(0, 8).push('-') + digits.subrange(8, 12).push('-') + digits.subrange(
        12,
        16,
    ).push('-') + digits.subrange(16, 20).push('-') + digits.subrange(20, 32)
}

/// Whether `text` is the hyphenated text of some identifier.
pub open spec fn is_uuid_text(text: Seq<char>) -> bool {
    exists|id: u128| text == #[trigger] uuid_text(id)
}

/// What `Uuid::parse_str` gives for a text that is not the hyphenated
/// lower-case text of an identifier: the identifier it reads in another
/// notation, or the text of its error.
pub uninterp spec fn other_uuid_reading(text: Seq<char>) -> Result<u128, Seq<char>>;

/// The identifier that `text` stands for, or the text of the parser's error.
pub open spec fn uuid_reading(text: Seq<char>) -> Result<u128, Seq<char>> {
    if is_uuid_text(text) {
        Ok(choose|id: u128| text == #[trigger] uuid_text(id))
    } else {
        other_uuid_reading(text)
    }
}

/// A successful reading.
pub open spec fn accepted(id: u128) -> Result<u128, String> {
    Ok(id)
}

/// A reading with its error message as plain text.
pub open spec fn shown(reading: Result<u128, String>) -> Result<u128, Seq<char>> {
    match reading {
        Ok(id) => Ok(id),
        Err(message) => Err(message@),
    }
}

/// Whether an identifier bears the marks of a random UUID: version four in its
/// thirteenth digit, and the variant of RFC 9562 in the upper two bits of its
/// seventeenth.
pub open spec fn is_version_four(id: u128) -> bool {
    &&& nibble(id, 12) == 4
    &&& 8 <= nibble(id, 16) < 12
}

/// `Uuid::new_v4`: an identifier of version four. Its other bits come from the
/// operating system's random numbers, so nothing is promised of them, not even
/// that two calls give different ones. It panics where the system has no random
/// bytes to give.
#[verifier::external_body]
pub(crate) fn random_uuid() -> (id: u128)
    ensures
        is_version_four(id),
{
    Uuid::new_v4().as_u128()
}

/// `Uuid::simple` printed: the 32 lower-case hexadecimal digits.
#[verifier::external_body]
pub(crate) fn print_simple(id: u128) -> (text: String)
    ensures
        text@ == simple_text(id),
{
    Uuid::from_u128(id).simple().to_string()
}

/// `Uuid` printed: the digits in five hyphenated groups.
#[verifier::external_body]
pub(crate) fn print_uuid(id: u128) -> (text: String)
    ensures
        text@ == uuid_text(id),
{
    Uuid::from_u128(id).to_string()
}

/// `Uuid::parse_str`: reads the hyphenated text of an identifier as that
/// identifier; what it makes of any other text has a name only.
#[verifier::external_body]
fn parse_str(text: &str) -> (reading: Result<u128, String>)
    ensures
        forall|id: u128| text@ == #[trigger] uuid_text(id) ==> reading == accepted(id),
        !is_uuid_text(text@) ==> shown(reading) == other_uuid_reading(text@),
{
    match Uuid::parse_str(text) {
        Ok(id) => Ok(id.as_u128()),
        Err(error) => Err(error.to_string()),
    }
}

/// Two identifiers with the same 32 digits are the same.
pub proof fn simple_text_injective(a: u128, b: u128)
    requires
        simple_text(a) == simple_text(b),
    ensures
        a == b,
{
    assert forall|i: int| 0 <= i < 32 implies nibble(a, i) == nibble(b, i) by {
        assert(simple_text(a)[i] == hex_digit(nibble(a, i) as int));
        assert(simple_text(b)[i] == hex_digit(nibble(b, i) as int));
        let m: u128 = (4 * (31 - i)) as u128;
        assert((a >> m) & 0xf < 16) by (bit_vector);
        assert((b >> m) & 0xf < 16) by (bit_vector);
        assert(nibble(a, i) < 16 && nibble(b, i) < 16);
        hex_digit_injective(nibble(a, i) as int, nibble(b, i) as int);
    }
    let n = |i: int| nibble(a, i) == nibble(b, i);
    assert(n(0) && n(1) && n(2) && n(3) && n(4) && n(5) && n(6) && n(7));
    assert(n(8) && n(9) && n(10) && n(11) && n(12) && n(13) && n(14) && n(15));
    assert(n(16) && n(17) && n(18) && n(19) && n(20) && n(21) && n(22) && n(23));
    assert(n(24) && n(25) && n(26) && n(27) && n(28) && n(29) && n(30) && n(31));
    assert(a == b) by (bit_vector)
        requires
            (a >> 124u128) & 0xf == (b >> 124u128) & 0xf,
            (a >> 120u128) & 0xf == (b >> 120u128) & 0xf,
            (a >> 116u128) & 0xf == (b >> 116u128) & 0xf,
            (a >> 112u128) & 0xf == (b >> 112u128) & 0xf,
            (a >> 108u128) & 0xf == (b >> 108u128) & 0xf,
            (a >> 104u128) & 0xf == (b >> 104u128) & 0xf,
            (a >> 100u128) & 0xf == (b >> 100u128) & 0xf,
            (a >> 96u128) & 0xf == (b >> 96u128) & 0xf,
            (a >> 92u128) & 0xf == (b >> 92u128) & 0xf,
            (a >> 88u128) & 0xf == (b >> 88u128) & 0xf,
            (a >> 84u128) & 0xf == (b >> 84u128) & 0xf,
            (a >> 80u128) & 0xf == (b >> 80u128) & 0xf,
            (a >> 76u128) & 0xf == (b >> 76u128) & 0xf,
            (a >> 72u128) & 0xf == (b >> 72u128) & 0xf,
            (a >> 68u128) & 0xf == (b >> 68u128) & 0xf,
            (a >> 64u128) & 0xf == (b >> 64u128) & 0xf,
            (a >> 60u128) & 0xf == (b >> 60u128) & 0xf,
            (a >> 56u128) & 0xf == (b >> 56u128) & 0xf,
            (a >> 52u128) & 0xf == (b >> 52u128) & 0xf,
            (a >> 48u128) & 0xf == (b >> 48u128) & 0xf,
            (a >> 44u128) & 0xf == (b >> 44u128) & 0xf,
            (a >> 40u128) & 0xf == (b >> 40u128) & 0xf,
            (a >> 36u128) & 0xf == (b >> 36u128) & 0xf,
            (a >> 32u128) & 0xf == (b >> 32u128) & 0xf,
            (a >> 28u128) & 0xf == (b >> 28u128) & 0xf,
            (a >> 24u128) & 0xf == (b >> 24u128) & 0xf,
            (a >> 20u128) & 0xf == (b >> 20u128) & 0xf,
            (a >> 16u128) & 0xf == (b >> 16u128) & 0xf,
            (a >> 12u128) & 0xf == (b >> 12u128) & 0xf,
            (a >> 8u128) & 0xf == (b >> 8u128) & 0xf,
            (a >> 4u128) & 0xf == (b >> 4u128) & 0xf,
            (a >> 0u128) & 0xf == (b >> 0u128) & 0xf,
    ;
}

/// Two identifiers with the same hyphenated text are the same.
pub proof fn uuid_text_injective(a: u128, b: u128)
    requires
        uuid_text(a) == uuid_text(b),
    ensures
        a == b,
{
    let s = simple_text(a);
    let t = simple_text(b);
    assert forall|i: int| 0 <= i < 32 implies s[i] == t[i] by {
        let j = if i < 8 {
            i
        } else if i < 12 {
            i + 1
        } else if i < 16 {
            i + 2
        } else if i < 20 {
            i + 3
        } else {
            i + 4
        };
        assert(uuid_text(a)[j] == s[i]);
        assert(uuid_text(b)[j] == t[i]);
    }
    assert(s =~= t);
    simple_text_injective(a, b);
}

/// Reading an identifier's hyphenated text gives the identifier back.
pub proof fn uuid_text_reads_back(id: u128)
    ensures
        uuid_reading(uuid_text(id)) == Ok::<u128, Seq<char>>(id),
{
    let text = uuid_text(id);
    assert(is_uuid_text(text));
    let read = choose|other: u128| text == #[trigger] uuid_text(other);
    uuid_text_injective(read, id);
}

/// The identifier that `text` stands for, or the text of the parser's error.
pub fn read_uuid(text: &str) -> (reading: Result<u128, String>)
    ensures
        shown(reading) == uuid_reading(text@),
{
    let reading = parse_str(text);
    proof {
        if is_uuid_text(text@) {
            let id = choose|id: u128| text@ == #[trigger] uuid_text(id);
            assert(reading == accepted(id));
        }
    }
    reading
}

} // verus!
