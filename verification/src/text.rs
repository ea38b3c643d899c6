//! Building, comparing and searching text.

use vstd::prelude::*;
use vstd::string::StringExecFns;

verus! {

/// `String::push` appends one character.
pub assume_specification[ String::push ](text: &mut String, c: char)
    ensures
        final(text)@ == old(text)@.push(c),
;

/// The views of the elements of a sequence.
pub open spec fn views<T: View>(items: Seq<T>) -> Seq<T::V> {
    items.map_values(|item: T| item@)
}

/// The view of an optional value.
pub open spec fn view_of<T: View>(item: Option<T>) -> Option<T::V> {
    match item {
        Some(item) => Some(item@),
        None => None,
    }
}

/// Taking one more element adds that element's view.
pub proof fn views_step<T: View>(items: Seq<T>, i: int)
    requires
        0 <= i < items.len(),
    ensures
        views(items.take(i + 1)) == views(items.take(i)).push(items[i]@),
{
    assert(views(items.take(i + 1)) =~= views(items.take(i)).push(items[i]@));
}

/// Appending an element appends its view.
pub proof fn views_push<T: View>(items: Seq<T>, item: T)
    ensures
        views(items.push(item)) == views(items).push(item@),
{
    assert(views(items.push(item)) =~= views(items).push(item@));
}

/// A copy of an optional text.
pub fn copy_text(text: &Option<String>) -> (copy: Option<String>)
    ensures
        view_of(copy) == view_of(*text),
{
    match text {
        Some(text) => Some(text.clone()),
        None => None,
    }
}

/// Whether two texts are the same.
pub fn same_text(a: &str, b: &str) -> (same: bool)
    ensures
        same == (a@ == b@),
{
    a.to_string() == b.to_string()
}

/// Whether two optional texts are the same.
pub fn same_optional_text(a: &Option<String>, b: &Option<String>) -> (same: bool)
    ensures
        same == (view_of(*a) == view_of(*b)),
{
    match (a, b) {
        (Some(a), Some(b)) => same_text(a.as_str(), b.as_str()),
        (None, None) => true,
        _ => false,
    }
}

/// Whether two lists of texts are the same.
pub fn same_texts(a: &Vec<String>, b: &Vec<String>) -> (same: bool)
    ensures
        same == (views(a@) == views(b@)),
{
    if a.len() != b.len() {
        assert(views(a@).len() != views(b@).len());
        return false;
    }
    let mut i: usize = 0;
    while i < a.len()
        invariant
            a.len() == b.len(),
            i <= a.len(),
            forall|j: int| 0 <= j < i ==> a@[j]@ == b@[j]@,
        decreases a.len() - i,
    {
        if !same_text(a[i].as_str(), b[i].as_str()) {
            assert(views(a@)[i as int] != views(b@)[i as int]);
            return false;
        }
        i += 1;
    }
    assert(views(a@) =~= views(b@));
    true
}

/// A copy of a list of texts.
pub fn copy_texts(texts: &Vec<String>) -> (copies: Vec<String>)
    ensures
        views(copies@) == views(texts@),
{
    let mut copies: Vec<String> = Vec::new();
    let mut i: usize = 0;
    while i < texts.len()
        invariant
            i <= texts.len(),
            copies.len() == i,
            forall|j: int| 0 <= j < i ==> copies@[j]@ == texts@[j]@,
        decreases texts.len() - i,
    {
        copies.push(texts[i].clone());
        i += 1;
    }
    assert(views(copies@) =~= views(texts@));
    copies
}

/// The texts one after the other, with `separator` between neighbours.
pub open spec fn joined(texts: Seq<Seq<char>>, separator: Seq<char>) -> Seq<char>
    decreases texts.len(),
{
    if texts.len() == 0 {
        Seq::empty()
    } else if texts.len() == 1 {
        texts[0]
    } else {
        joined(texts.drop_last(), separator) + separator + texts.last()
    }
}

/// The texts one after the other, with `separator` between neighbours.
pub fn join(texts: &Vec<String>, separator: &str) -> (text: String)
    ensures
        text@ == joined(views(texts@), separator@),
{
    let mut text = String::new();
    let mut i: usize = 0;
    while i < texts.len()
        invariant
            i <= texts.len(),
            text@ == joined(views(texts@.take(i as int)), separator@),
        decreases texts.len() - i,
    {
        proof {
            views_step(texts@, i as int);
            assert(views(texts@.take(i + 1)).drop_last() =~= views(texts@.take(i as int)));
        }
        if i > 0 {
            text.append(separator);
        }
        let ghost before = text@;
        text.append(texts[i].as_str());
        assert(i == 0 ==> before + texts@[0]@ =~= texts@[0]@);
        i += 1;
    }
    assert(texts@.take(texts.len() as int) == texts@);
    text
}

/// Whether a text comes before another character by character: where they first
/// differ it has the lower character, or it ends there.
pub open spec fn sorts_before(a: Seq<char>, b: Seq<char>) -> bool {
    exists|n: int| #[trigger] parts_at(a, b, n)
}

/// Whether two texts are alike up to a place where the first of them ends or has
/// the lower character.
pub open spec fn parts_at(a: Seq<char>, b: Seq<char>, n: int) -> bool {
    &&& 0 <= n <= a.len()
    &&& n < b.len()
    &&& a.take(n) == b.take(n)
    &&& n == a.len() || a[n] < b[n]
}

/// Whether `part` occurs somewhere in `text`.
pub open spec fn occurs(part: Seq<char>, text: Seq<char>) -> bool {
    exists|i: int|
        0 <= i <= text.len() - part.len() && #[trigger] text.subrange(i, i + part.len()) == part
}

/// `str::contains` with a text: whether the text occurs in the other.
#[verifier::external_body]
pub(crate) fn contains(text: &str, part: &str) -> (found: bool)
    ensures
        found == occurs(part@, text@),
{
    text.contains(part)
}

/// Whether a text is of ASCII characters alone.
pub open spec fn all_ascii(text: Seq<char>) -> bool {
    forall|i: int| 0 <= i < text.len() ==> (#[trigger] text[i]) <= '\u{7f}'
}

/// An ASCII character with an upper-case letter made lower-case.
pub open spec fn ascii_lower(c: char) -> char {
    if 'A' <= c <= 'Z' {
        (c as int + 32) as char
    } else {
        c
    }
}

/// The lower-case form of a text, as Unicode defines it.
pub uninterp spec fn unicode_lowercase(text: Seq<char>) -> Seq<char>;

/// The lower-case form of a text.
pub open spec fn lowercase(text: Seq<char>) -> Seq<char> {
    if all_ascii(text) {
        text.map_values(|c: char| ascii_lower(c))
    } else {
        unicode_lowercase(text)
    }
}

/// `str::to_lowercase`: of an ASCII text it makes each upper-case letter
/// lower-case and keeps the rest. What the lower-case form of any other text is
/// has a name only.
#[verifier::external_body]
pub(crate) fn to_lowercase(text: &str) -> (lower: String)
    ensures
        lower@ == if all_ascii(text@) {
            text@.map_values(|c: char| ascii_lower(c))
        } else {
            unicode_lowercase(text@)
        },
{
    text.to_lowercase()
}

/// The decimal digit of a number below ten.
pub open spec fn decimal_digit(n: int) -> char {
    ('0' as int + n) as char
}

/// The decimal digits of a number, without leading zeros.
pub open spec fn decimal_digits(n: nat) -> Seq<char>
    decreases n,
{
    if n < 10 {
        seq![decimal_digit(n as int)]
    } else {
        decimal_digits(n / 10).push(decimal_digit((n % 10) as int))
    }
}

/// The decimal text of an integer, with a minus sign below zero.
pub open spec fn integer_text(n: int) -> Seq<char> {
    if n < 0 {
        seq!['-'] + decimal_digits((-n) as nat)
    } else {
        decimal_digits(n as nat)
    }
}

/// Whether every character is a decimal digit.
pub open spec fn all_digits(text: Seq<char>) -> bool {
    forall|i: int| 0 <= i < text.len() ==> '0' <= #[trigger] text[i] <= '9'
}

/// The number that decimal digits stand for.
pub open spec fn digits_value(text: Seq<char>) -> nat
    decreases text.len(),
{
    if text.len() == 0 {
        0
    } else {
        (digits_value(text.drop_last()) * 10 + (text.last() as int - '0' as int)) as nat
    }
}

/// The number that an optional sign and at least one decimal digit stand for,
/// if it fits.
pub open spec fn integer_reading(text: Seq<char>) -> Option<i64> {
    let signed = text.len() > 0 && (text[0] == '-' || text[0] == '+');
    let digits = if signed {
        text.drop_first()
    } else {
        text
    };
    let value: int = if signed && text[0] == '-' {
        -(digits_value(digits) as int)
    } else {
        digits_value(digits) as int
    };
    if digits.len() == 0 || !all_digits(digits) || value < i64::MIN || value > i64::MAX {
        None
    } else {
        Some(value as i64)
    }
}

/// `i64` printed: its decimal text.
#[verifier::external_body]
pub(crate) fn print_integer(n: i64) -> (text: String)
    ensures
        text@ == integer_text(n as int),
{
    n.to_string()
}

/// `str::parse` to an `i64`: an optional sign and decimal digits, in range.
#[verifier::external_body]
pub(crate) fn read_integer(text: &str) -> (n: Option<i64>)
    ensures
        n == integer_reading(text@),
{
    text.parse().ok()
}

proof fn digits_value_of_digits(n: nat)
    ensures
        all_digits(decimal_digits(n)),
        decimal_digits(n).len() > 0,
        digits_value(decimal_digits(n)) == n,
    decreases n,
{
    reveal_with_fuel(digits_value, 2);
    assert('0' as int == 48 && '9' as int == 57);
    if n < 10 {
        assert(decimal_digits(n).drop_last() =~= Seq::empty());
    } else {
        digits_value_of_digits(n / 10);
        let head = decimal_digits(n / 10);
        let last = decimal_digit((n % 10) as int);
        assert(head.push(last).drop_last() =~= head);
        assert(last as int == 48 + n % 10);
    }
}

/// Reading an integer's decimal text gives the integer back.
pub proof fn integer_text_reads_back(n: i64)
    ensures
        integer_reading(integer_text(n as int)) == Some(n),
{
    if n < 0 {
        digits_value_of_digits((-n) as nat);
        let digits = decimal_digits((-n) as nat);
        assert((seq!['-'] + digits).drop_first() =~= digits);
    } else {
        digits_value_of_digits(n as nat);
        let digits = decimal_digits(n as nat);
        assert('0' <= digits[0] <= '9');
    }
}

} // verus!
