//! What becomes of each value when its field is given another kind, said on
//! the bits of numbers and the characters of texts.

use vstd::prelude::*;

use crate::codec::{coerced, number_shown, number_text, offers};
use crate::date::{date_reading, two_digits, year_text, DateView};
use crate::json::json_fault;
use crate::number::{same_bits_same_number, Number};
use crate::record::{BlobRefView, ValueView};
use crate::schema::{FieldKindView, SelectionOptionView};
use crate::text::lowercase;

verus! {

/// A number is zero just where its bits without the sign are all zero, and is
/// no number just where they are above those of an infinity. Two numbers are
/// equal where they have the same bits or are both zero, and never where one
/// of them is no number.
pub proof fn numbers_are_their_bits(a: Number, b: Number)
    ensures
        a.spec_is_zero() <==> a.spec_bits() == 0 || a.spec_bits() == 0x8000_0000_0000_0000,
        a.spec_is_nan() <==> 0x7ff0_0000_0000_0000 < a.spec_bits() < 0x8000_0000_0000_0000
            || 0xfff0_0000_0000_0000 < a.spec_bits(),
        a.equals(b) <==> {
            &&& a.spec_bits() <= 0x7ff0_0000_0000_0000 || 0x8000_0000_0000_0000 <= a.spec_bits()
                <= 0xfff0_0000_0000_0000
            &&& b.spec_bits() <= 0x7ff0_0000_0000_0000 || 0x8000_0000_0000_0000 <= b.spec_bits()
                <= 0xfff0_0000_0000_0000
            &&& a.spec_bits() == b.spec_bits() || {
                &&& a.spec_bits() == 0 || a.spec_bits() == 0x8000_0000_0000_0000
                &&& b.spec_bits() == 0 || b.spec_bits() == 0x8000_0000_0000_0000
            }
        },
{
    if a.spec_bits() == b.spec_bits() {
        same_bits_same_number(a, b);
    }
}

/// Every number becomes a truth value: false just where its bits without the
/// sign are all zero, true for every other number and for what is no number.
pub proof fn number_becomes_boolean(number: Number, read: Option<Number>, printed: Seq<char>)
    ensures
        ({
            let became = coerced(
                ValueView::Number(number),
                FieldKindView::Boolean,
                read,
                printed,
            );
            &&& became is Boolean
            &&& became == ValueView::Boolean(false) <==> number.spec_bits()
                % 0x8000_0000_0000_0000u64 == 0
        }),
{
}

/// A truth value becomes the number one or zero, and the word for it.
pub proof fn boolean_becomes_number_and_text(b: bool, read: Option<Number>, printed: Seq<char>)
    ensures
        coerced(ValueView::Boolean(b), FieldKindView::Number, read, printed) matches
            ValueView::Number(number) && number.spec_bits() == if b {
            0x3ff0_0000_0000_0000u64
        } else {
            0u64
        },
        coerced(ValueView::Boolean(true), FieldKindView::Text, read, printed) == ValueView::Text(
            "true"@,
        ),
        coerced(ValueView::Boolean(false), FieldKindView::Text, read, printed) == ValueView::Text(
            "false"@,
        ),
{
    Number::of_bool_bits(b);
}

/// A number becomes the text that was printed for it, and the number that is
/// printed is the value's own, for that change of kind alone.
pub proof fn number_becomes_its_text(number: Number, read: Option<Number>, printed: Seq<char>)
    ensures
        coerced(ValueView::Number(number), FieldKindView::Text, read, printed) == ValueView::Text(
            printed,
        ),
        number_shown(ValueView::Number(number), FieldKindView::Text) == Some(number),
        forall|value: ValueView, kind: FieldKindView| #[trigger]
            number_shown(value, kind) is Some ==> value is Number && kind is Text,
{
}

/// A text becomes the number that it reads as, and so does a selection by the
/// first of its names. Where the text reads as nothing, or as what is no
/// number, and where nothing is selected, the value becomes empty.
pub proof fn text_becomes_number(
    text: Seq<char>,
    names: Seq<Seq<char>>,
    read: Option<Number>,
    printed: Seq<char>,
)
    ensures
        number_text(ValueView::Text(text), FieldKindView::Number) == Some(text),
        names.len() > 0 ==> number_text(ValueView::Selection(names), FieldKindView::Number) == Some(
            names[0],
        ),
        forall|value: ValueView, kind: FieldKindView| #[trigger]
            number_text(value, kind) is Some ==> (value is Text || value is Selection)
                && kind is Number,
        read matches Some(number) ==> number.spec_bits() % 0x8000_0000_0000_0000u64
            <= 0x7ff0_0000_0000_0000u64 ==> {
            &&& coerced(ValueView::Text(text), FieldKindView::Number, read, printed)
                == ValueView::Number(number)
            &&& names.len() > 0 ==> coerced(
                ValueView::Selection(names),
                FieldKindView::Number,
                read,
                printed,
            ) == ValueView::Number(number)
        },
        read is None ==> {
            &&& coerced(ValueView::Text(text), FieldKindView::Number, read, printed)
                == ValueView::Empty
            &&& coerced(ValueView::Selection(names), FieldKindView::Number, read, printed)
                == ValueView::Empty
        },
        read matches Some(number) ==> number.spec_bits() % 0x8000_0000_0000_0000u64
            > 0x7ff0_0000_0000_0000u64 ==> {
            &&& coerced(ValueView::Text(text), FieldKindView::Number, read, printed)
                == ValueView::Empty
            &&& coerced(ValueView::Selection(names), FieldKindView::Number, read, printed)
                == ValueView::Empty
        },
        names.len() == 0 ==> coerced(
            ValueView::Selection(names),
            FieldKindView::Number,
            read,
            printed,
        ) == ValueView::Empty,
{
}

/// The lower-case form of an ASCII text has a character for each character of
/// it: an upper-case letter's is the one thirty-two places on, and every other
/// character is its own.
pub proof fn ascii_text_is_made_lower(text: Seq<char>, i: int)
    requires
        forall|j: int| 0 <= j < text.len() ==> (#[trigger] text[j] as int) < 128,
        0 <= i < text.len(),
    ensures
        lowercase(text).len() == text.len(),
        65 <= text[i] as int <= 90 ==> lowercase(text)[i] as int == text[i] as int + 32,
        !(65 <= text[i] as int <= 90) ==> lowercase(text)[i] == text[i],
{
    assert('A' as int == 65 && 'Z' as int == 90 && '\u{7f}' as int == 127);
}

/// Two ASCII texts have the same lower-case form just where they have the same
/// characters but for the case of letters.
pub proof fn case_is_all_that_is_lost(a: Seq<char>, b: Seq<char>)
    requires
        forall|j: int| 0 <= j < a.len() ==> (#[trigger] a[j] as int) < 128,
        forall|j: int| 0 <= j < b.len() ==> (#[trigger] b[j] as int) < 128,
    ensures
        lowercase(a) == lowercase(b) <==> a.len() == b.len() && forall|j: int|
            0 <= j < a.len() ==> {
                ||| #[trigger] a[j] == b[j]
                ||| 65 <= a[j] as int <= 90 && b[j] as int == a[j] as int + 32
                ||| 65 <= b[j] as int <= 90 && a[j] as int == b[j] as int + 32
            },
{
    assert('A' as int == 65 && 'Z' as int == 90 && '\u{7f}' as int == 127);
    if lowercase(a) == lowercase(b) {
        assert(lowercase(a).len() == a.len() && lowercase(b).len() == b.len());
        assert forall|j: int| 0 <= j < a.len() implies {
            ||| #[trigger] a[j] == b[j]
            ||| 65 <= a[j] as int <= 90 && b[j] as int == a[j] as int + 32
            ||| 65 <= b[j] as int <= 90 && a[j] as int == b[j] as int + 32
        } by {
            ascii_text_is_made_lower(a, j);
            ascii_text_is_made_lower(b, j);
        }
    } else if a.len() == b.len() && (forall|j: int|
        0 <= j < a.len() ==> {
            ||| #[trigger] a[j] == b[j]
            ||| 65 <= a[j] as int <= 90 && b[j] as int == a[j] as int + 32
            ||| 65 <= b[j] as int <= 90 && a[j] as int == b[j] as int + 32
        }) {
        assert(lowercase(a) =~= lowercase(b)) by {
            assert forall|j: int| 0 <= j < a.len() implies lowercase(a)[j] == lowercase(b)[j] by {
                ascii_text_is_made_lower(a, j);
                ascii_text_is_made_lower(b, j);
                assert(a[j] == a[j]);
            }
        }
    }
}

/// A text becomes a truth value just where its lower-case form is the word for
/// it, and becomes empty otherwise.
pub proof fn text_becomes_boolean(text: Seq<char>, read: Option<Number>, printed: Seq<char>)
    ensures
        ({
            let became = coerced(ValueView::Text(text), FieldKindView::Boolean, read, printed);
            &&& lowercase(text) == "true"@ ==> became == ValueView::Boolean(true)
            &&& lowercase(text) == "false"@ ==> became == ValueView::Boolean(false)
            &&& lowercase(text) != "true"@ && lowercase(text) != "false"@ ==> became
                == ValueView::Empty
        }),
{
    reveal_strlit("true");
    reveal_strlit("false");
    assert("true"@.len() != "false"@.len());
}

/// A text becomes the date that it is read as, and empty where it is read as
/// none.
pub proof fn text_becomes_date(
    text: Seq<char>,
    date: DateView,
    read: Option<Number>,
    printed: Seq<char>,
)
    ensures
        coerced(ValueView::Text(text), FieldKindView::Date, read, printed) == ValueView::Date(date)
            <==> date_reading(text) == Some(date),
        coerced(ValueView::Text(text), FieldKindView::Date, read, printed) == ValueView::Empty
            <==> date_reading(text) is None,
{
}

/// A text becomes itself as a document just where it is one, and a document
/// becomes its own text.
pub proof fn text_becomes_document(text: Seq<char>, read: Option<Number>, printed: Seq<char>)
    ensures
        json_fault(text) is None ==> coerced(
            ValueView::Text(text),
            FieldKindView::Json,
            read,
            printed,
        ) == ValueView::Json(text),
        json_fault(text) is Some ==> coerced(
            ValueView::Text(text),
            FieldKindView::Json,
            read,
            printed,
        ) == ValueView::Empty,
        coerced(ValueView::Json(text), FieldKindView::Text, read, printed) == ValueView::Text(text),
{
}

/// A text becomes the selection of just itself where some option has it for a
/// name, and empty where none has.
pub proof fn text_becomes_selection(
    text: Seq<char>,
    multi: bool,
    options: Seq<SelectionOptionView>,
    read: Option<Number>,
    printed: Seq<char>,
)
    ensures
        ({
            let became = coerced(
                ValueView::Text(text),
                FieldKindView::Selection { multi, options },
                read,
                printed,
            );
            &&& (exists|i: int| 0 <= i < options.len() && (#[trigger] options[i]).name == text)
                ==> became == ValueView::Selection(seq![text])
            &&& (forall|i: int| 0 <= i < options.len() ==> (#[trigger] options[i]).name != text)
                ==> became == ValueView::Empty
        }),
{
}

/// The names of a selection that some option has.
pub open spec fn names_kept(names: Seq<Seq<char>>, options: Seq<SelectionOptionView>) -> Seq<
    Seq<char>,
> {
    names.filter(
        |name: Seq<char>|
            exists|i: int| 0 <= i < options.len() && (#[trigger] options[i]).name == name,
    )
}

/// A selection keeps just the names that some option has, in their order. It
/// becomes empty where names were selected and none is left.
pub proof fn selection_keeps_what_is_offered(
    names: Seq<Seq<char>>,
    multi: bool,
    options: Seq<SelectionOptionView>,
    read: Option<Number>,
    printed: Seq<char>,
)
    ensures
        ({
            let became = coerced(
                ValueView::Selection(names),
                FieldKindView::Selection { multi, options },
                read,
                printed,
            );
            &&& names_kept(names, options).len() > 0 ==> became == ValueView::Selection(
                names_kept(names, options),
            )
            &&& names.len() == 0 ==> became == ValueView::Selection(Seq::empty())
            &&& names.len() > 0 && names_kept(names, options).len() == 0 ==> became
                == ValueView::Empty
        }),
        forall|i: int|
            0 <= i < names.len() ==> (names_kept(names, options).contains(#[trigger] names[i])
                <==> exists|k: int|
                0 <= k < options.len() && (#[trigger] options[k]).name == names[i]),
{
    broadcast use vstd::seq_lib::group_filter_ensures;

    let kept = |name: Seq<char>|
        exists|i: int| 0 <= i < options.len() && (#[trigger] options[i]).name == name;
    let offered = |name: Seq<char>| offers(options, name);
    assert(kept =~= offered);
    if names.len() == 0 {
        reveal(Seq::filter);
        assert(names.filter(offered) =~= Seq::empty());
    }
    assert forall|i: int| 0 <= i < names.len() implies (names_kept(names, options).contains(
        #[trigger] names[i],
    ) <==> kept(names[i])) by {
        if kept(names[i]) {
            assert(names.contains(names[i]));
        }
        if names.filter(kept).contains(names[i]) {
            let j = names.filter(kept).index_of(names[i]);
            assert(kept(names.filter(kept)[j]));
        }
    }
}

/// A selection becomes the text of its names, with a comma and a space between
/// neighbours: nothing selected is the empty text, one name is that name, and
/// a further name is added behind a comma and a space.
pub proof fn selection_becomes_its_names(
    names: Seq<Seq<char>>,
    name: Seq<char>,
    read: Option<Number>,
    printed: Seq<char>,
)
    ensures
        coerced(
            ValueView::Selection(Seq::<Seq<char>>::empty()),
            FieldKindView::Text,
            read,
            printed,
        ) == ValueView::Text(Seq::empty()),
        coerced(ValueView::Selection(seq![name]), FieldKindView::Text, read, printed)
            == ValueView::Text(name),
        names.len() > 0 ==> (coerced(
            ValueView::Selection(names),
            FieldKindView::Text,
            read,
            printed,
        ) matches ValueView::Text(shown) && coerced(
            ValueView::Selection(names.push(name)),
            FieldKindView::Text,
            read,
            printed,
        ) == ValueView::Text(shown + seq![',', ' '] + name)),
{
    reveal_strlit(", ");
    assert(", "@ =~= seq![',', ' ']);
    assert(names.push(name).drop_last() =~= names);
}

/// Two digits are those of the tens and of the units.
proof fn two_digits_are_places(n: int)
    requires
        0 <= n < 100,
    ensures
        two_digits(n)[0] as int == 48 + n / 10,
        two_digits(n)[1] as int == 48 + n % 10,
{
    assert('0' as int == 48);
}

/// A date of a year of at most four digits becomes its year, its month and its
/// day in four, two and two digits with a dash between them.
pub proof fn date_becomes_its_text(date: DateView, read: Option<Number>, printed: Seq<char>)
    requires
        0 <= date.year < 10000,
        1 <= date.month <= 12,
        1 <= date.day <= 31,
    ensures
        coerced(ValueView::Date(date), FieldKindView::Text, read, printed) matches ValueView::Text(
            text,
        ) && {
            &&& text.len() == 10
            &&& text[0] as int == 48 + date.year / 1000
            &&& text[1] as int == 48 + date.year / 100 % 10
            &&& text[2] as int == 48 + date.year / 10 % 10
            &&& text[3] as int == 48 + date.year % 10
            &&& text[4] == '-'
            &&& text[5] as int == 48 + date.month / 10
            &&& text[6] as int == 48 + date.month % 10
            &&& text[7] == '-'
            &&& text[8] as int == 48 + date.day / 10
            &&& text[9] as int == 48 + date.day % 10
        },
{
    let (year, month, day) = (date.year, date.month, date.day);
    two_digits_are_places(year / 100);
    two_digits_are_places(year % 100);
    two_digits_are_places(month);
    two_digits_are_places(day);
    assert(year / 100 / 10 == year / 1000) by (nonlinear_arith)
        requires
            0 <= year,
    ;
    assert(year % 100 / 10 == year / 10 % 10 && year % 100 % 10 == year % 10) by (nonlinear_arith)
        requires
            0 <= year,
    ;
    let head = two_digits(year / 100) + two_digits(year % 100);
    assert(((year as nat) / 100) as int == year / 100);
    assert(((year as nat) % 100) as int == year % 100);
    assert(year_text(year) == head);
    let text = head + seq!['-'] + two_digits(month) + seq!['-'] + two_digits(day);
    assert(date.text() == text);
    assert(text.len() == 10);
    assert(text[0] == two_digits(year / 100)[0] && text[1] == two_digits(year / 100)[1]);
    assert(text[2] == two_digits(year % 100)[0] && text[3] == two_digits(year % 100)[1]);
    assert(text[5] == two_digits(month)[0] && text[6] == two_digits(month)[1]);
    assert(text[8] == two_digits(day)[0] && text[9] == two_digits(day)[1]);
}

/// A value of a kind without parts stays what it is when its field is given
/// that kind again, whatever the value is.
pub proof fn value_stays_under_its_own_kind(
    text: Seq<char>,
    number: Number,
    b: bool,
    date: DateView,
    blob: BlobRefView,
    read: Option<Number>,
    printed: Seq<char>,
)
    ensures
        coerced(ValueView::Text(text), FieldKindView::Text, read, printed) == ValueView::Text(text),
        coerced(ValueView::Number(number), FieldKindView::Number, read, printed)
            == ValueView::Number(number),
        coerced(ValueView::Boolean(b), FieldKindView::Boolean, read, printed)
            == ValueView::Boolean(b),
        coerced(ValueView::Date(date), FieldKindView::Date, read, printed) == ValueView::Date(date),
        coerced(ValueView::Blob(blob), FieldKindView::Blob, read, printed) == ValueView::Blob(blob),
        coerced(ValueView::Json(text), FieldKindView::Json, read, printed) == ValueView::Json(text),
{
}

/// A plugin's bytes stay what they are under the plugin's own kind and become
/// empty under another's.
pub proof fn plugin_bytes_stay_with_their_plugin(
    own: Seq<char>,
    other: Seq<char>,
    data: Seq<u8>,
    read: Option<Number>,
    printed: Seq<char>,
)
    ensures
        ({
            let value = ValueView::Custom { kind_id: own, data };
            let became = coerced(value, FieldKindView::Custom { kind_id: other }, read, printed);
            &&& own == other ==> became == value
            &&& own != other ==> became == ValueView::Empty
        }),
{
}

/// A blob keeps its hash and its filename whatever tag it is given, whether it
/// had one before or not.
pub proof fn blob_takes_the_tag(
    blob: BlobRefView,
    own: Seq<char>,
    other: Seq<char>,
    read: Option<Number>,
    printed: Seq<char>,
)
    ensures
        coerced(
            ValueView::Blob(blob),
            FieldKindView::CustomBlob { kind_id: other },
            read,
            printed,
        ) == (ValueView::CustomBlob { kind_id: other, blob }),
        coerced(
            ValueView::CustomBlob { kind_id: own, blob },
            FieldKindView::CustomBlob { kind_id: other },
            read,
            printed,
        ) == (ValueView::CustomBlob { kind_id: other, blob }),
        coerced(
            ValueView::CustomBlob { kind_id: own, blob },
            FieldKindView::Blob,
            read,
            printed,
        ) == ValueView::Blob(blob),
{
}

/// A value that does not become empty goes from its kind to the same kind, from
/// a text to any kind that can be read from one, to a text from any kind that
/// can be written as one, or between truth values, numbers and selections as
/// the laws above say. Every other change of kind empties it.
pub proof fn nothing_else_is_carried_over(
    value: ValueView,
    kind: FieldKindView,
    read: Option<Number>,
    printed: Seq<char>,
)
    requires
        coerced(value, kind, read, printed) != ValueView::Empty,
    ensures
        match value {
            ValueView::Text(_) => kind is Text || kind is Number || kind is Boolean || kind is Date
                || kind is Json || kind is Selection,
            ValueView::Number(_) => kind is Number || kind is Text || kind is Boolean,
            ValueView::Boolean(_) => kind is Boolean || kind is Text || kind is Number,
            ValueView::Selection(_) => kind is Selection || kind is Text || kind is Number,
            ValueView::Date(_) => kind is Date || kind is Text,
            ValueView::Blob(_) => kind is Blob || kind is CustomBlob,
            ValueView::CustomBlob { .. } => kind is Blob || kind is CustomBlob,
            ValueView::Json(_) => kind is Json || kind is Text,
            ValueView::Custom { .. } => kind is Custom,
            ValueView::Reference(_) => false,
            ValueView::Empty => false,
        },
{
}

} // verus!
