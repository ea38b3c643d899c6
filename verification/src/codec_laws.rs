//! What holds of every value that is stored or carried from kind to kind.

use vstd::prelude::*;

use crate::codec::{
    becomes, coerced, decoded_value, encoded_value, offers, truth_values_are_named,
};
use crate::date::{date_reading, DateView};
use crate::error::ErrorView;
use crate::ids::FieldId;
use crate::json::json_fault;
use crate::kind::column_type;
use crate::number::Number;
use crate::record::{BlobRefView, ValueView};
use crate::registry_laws::filter_keeps_all;
use crate::schema::FieldKindView;
use crate::sql::{CellView, SqlView};

verus! {

/// Whether a field of this kind accepts a value.
pub open spec fn accepts(kind: FieldKindView, value: ValueView) -> bool {
    encoded_value(FieldId(0), kind, value) is Ok
}

/// Whether a field accepts a value does not depend on which field it is.
pub proof fn accepting_is_by_kind(field: FieldId, kind: FieldKindView, value: ValueView)
    ensures
        encoded_value(field, kind, value) is Ok == accepts(kind, value),
{
}

/// The type of column that a value in it has of its own.
pub open spec fn type_of(value: SqlView) -> Option<Seq<char>> {
    match value {
        SqlView::Null => None,
        SqlView::Integer(_) => Some("INTEGER"@),
        SqlView::Real(_) => Some("REAL"@),
        SqlView::Text(_) => Some("TEXT"@),
        SqlView::Blob(_) => Some("BLOB"@),
    }
}

/// What is written to a column is null or of the column's own type, so that
/// the column never converts it.
pub proof fn column_holds_its_type(field: FieldId, kind: FieldKindView, value: ValueView)
    requires
        encoded_value(field, kind, value) is Ok,
    ensures
        ({
            let held = encoded_value(field, kind, value)->Ok_0;
            held is Null || type_of(held) == column_type(kind)
        }),
        encoded_value(field, kind, value)->Ok_0 is Null == (value is Empty),
{
}

/// The empty value is accepted by every field.
pub proof fn empty_is_accepted(field: FieldId, kind: FieldKindView)
    ensures
        encoded_value(field, kind, ValueView::Empty) == Ok::<SqlView, ErrorView>(SqlView::Null),
{
}

/// Null is read as the empty value under every kind, that of a reference
/// included.
pub proof fn null_is_empty(kind: FieldKindView, cell: CellView)
    requires
        cell.value is Null,
    ensures
        decoded_value(kind, cell) == Ok::<ValueView, ErrorView>(ValueView::Empty),
{
}

/// A reference field accepts no value but the empty one, and no field accepts
/// links: references are not set as values.
pub proof fn references_are_not_values(kind: FieldKindView, value: ValueView)
    requires
        value !is Empty,
        kind is Reference || value is Reference,
    ensures
        !accepts(kind, value),
{
}

/// Whether a kind can represent all of a value as it is: the value is of the
/// kind, and everything that it selects is offered.
pub open spec fn represents(kind: FieldKindView, value: ValueView) -> bool {
    accepts(kind, value) && match (kind, value) {
        (FieldKindView::Selection { options, .. }, ValueView::Selection(names)) => forall|i: int|
            0 <= i < names.len() ==> offers(options, #[trigger] names[i]),
        _ => true,
    }
}

/// Retyping to a kind that can represent a value as it is changes nothing.
pub proof fn coercion_keeps_what_fits(
    value: ValueView,
    kind: FieldKindView,
    read: Option<Number>,
    printed: Seq<char>,
)
    requires
        represents(kind, value),
    ensures
        coerced(value, kind, read, printed) == value,
{
    match (kind, value) {
        (FieldKindView::Selection { options, .. }, ValueView::Selection(names)) => {
            filter_keeps_all(names, |name: Seq<char>| offers(options, name));
        },
        _ => {},
    }
}

/// What a value becomes under another kind is accepted by a field of that
/// kind, whatever kind it had before.
pub proof fn coerced_is_accepted(
    field: FieldId,
    value: ValueView,
    old_kind: FieldKindView,
    kind: FieldKindView,
    read: Option<Number>,
    printed: Seq<char>,
)
    requires
        accepts(old_kind, value),
        kind !is Reference,
    ensures
        encoded_value(field, kind, coerced(value, kind, read, printed)) is Ok,
{
}

/// An empty value stays empty under every kind.
pub proof fn empty_stays_empty(kind: FieldKindView, read: Option<Number>, printed: Seq<char>)
    ensures
        coerced(ValueView::Empty, kind, read, printed) == ValueView::Empty,
{
}

/// A blob that is given a plugin's tag and loses it again is what it was.
pub proof fn tag_comes_and_goes(
    blob: BlobRefView,
    kind_id: Seq<char>,
    read: Option<Number>,
    printed: Seq<char>,
)
    ensures
        coerced(
            coerced(ValueView::Blob(blob), FieldKindView::CustomBlob { kind_id }, read, printed),
            FieldKindView::Blob,
            read,
            printed,
        ) == ValueView::Blob(blob),
{
}

/// A blob with a plugin's tag that loses it and is given it again is what it
/// was.
pub proof fn tag_goes_and_comes(
    blob: BlobRefView,
    kind_id: Seq<char>,
    read: Option<Number>,
    printed: Seq<char>,
)
    ensures
        becomes(
            coerced(
                ValueView::CustomBlob { kind_id, blob },
                FieldKindView::Blob,
                read,
                printed,
            ),
            FieldKindView::CustomBlob { kind_id },
            ValueView::CustomBlob { kind_id, blob },
        ),
{
}

/// A truth value comes back from its text and from its number as it was.
pub proof fn boolean_comes_back(b: bool, read: Option<Number>, printed: Seq<char>)
    ensures
        becomes(
            coerced(ValueView::Boolean(b), FieldKindView::Text, read, printed),
            FieldKindView::Boolean,
            ValueView::Boolean(b),
        ),
        becomes(
            coerced(ValueView::Boolean(b), FieldKindView::Number, read, printed),
            FieldKindView::Boolean,
            ValueView::Boolean(b),
        ),
{
    truth_values_are_named();
    Number::of_bool_is_a_number();
}

/// A number comes back from its text as it was: as the number that the text
/// that was printed for it reads as. What is not a number is left out, since it
/// comes back as empty.
pub proof fn number_comes_back(
    number: Number,
    read: Option<Number>,
    printed: Seq<char>,
    other_printed: Seq<char>,
)
    requires
        !number.spec_is_nan(),
    ensures
        coerced(
            coerced(ValueView::Number(number), FieldKindView::Text, read, printed),
            FieldKindView::Number,
            Some(number),
            other_printed,
        ) == ValueView::Number(number),
{
}

/// A date whose text reads as the date, as that of every date of the calendar
/// does, comes back from its text as it was.
pub proof fn date_comes_back(date: DateView, read: Option<Number>, printed: Seq<char>)
    requires
        date_reading(date.text()) == Some(date),
    ensures
        becomes(
            coerced(ValueView::Date(date), FieldKindView::Text, read, printed),
            FieldKindView::Date,
            ValueView::Date(date),
        ),
{
}

/// A JSON document comes back from its text as it was.
pub proof fn json_comes_back(json: Seq<char>, read: Option<Number>, printed: Seq<char>)
    requires
        json_fault(json) is None,
    ensures
        becomes(
            coerced(ValueView::Json(json), FieldKindView::Text, read, printed),
            FieldKindView::Json,
            ValueView::Json(json),
        ),
{
}

/// Nothing but a blob becomes a blob.
pub proof fn only_blobs_become_blobs(
    value: ValueView,
    kind: FieldKindView,
    read: Option<Number>,
    printed: Seq<char>,
)
    requires
        kind is Blob || kind is CustomBlob,
        value !is Blob,
        value !is CustomBlob,
    ensures
        coerced(value, kind, read, printed) == ValueView::Empty,
{
}

} // verus!
