//! What crosses the boundary, and what the store says of what went wrong.

use vstd::prelude::*;

use crate::date::{date_reading, DateView};
use crate::error::ErrorView;
use crate::ffi::error::{error_shown, TextErrorView};
use crate::ffi::parse::id_read;
use crate::ffi::types::{
    field_shown, kind_read, kind_shown, link_texts, shows_values, value_read, value_shown,
    TextFieldView, TextKindView, TextValueView, Value,
};
use crate::ids::{DatabaseId, FieldId, Link, ReferenceId};
use crate::number::Number;
use crate::record::{BlobRefView, ValueView};
use crate::schema::{FieldKindView, FieldView, SelectionOptionView};
use crate::uuids::{uuid_reading, uuid_text, uuid_text_reads_back};

verus! {

/// What is missing is named by its id, or by its hash where it is a blob.
pub proof fn missing_things_are_named(id: u128, blob: BlobRefView)
    ensures
        ErrorView::DatabaseNotFound(DatabaseId(id)).message() == "database not found: "@
            + uuid_text(id),
        ErrorView::FieldNotFound(FieldId(id)).message() == "field not found: "@ + uuid_text(id),
        ErrorView::RecordNotFound(Link(id)).message() == "record not found: "@ + uuid_text(id),
        ErrorView::ReferenceNotFound(ReferenceId(id)).message() == "reference not found: "@
            + uuid_text(id),
        ErrorView::BlobNotFound(blob).message() == "blob not found: "@ + blob.hash,
{
}

/// What is refused is explained: by the field, and by what was expected of it.
pub proof fn refusals_are_explained(
    field: FieldId,
    word: Seq<char>,
    expected: DatabaseId,
    actual: DatabaseId,
    message: Seq<char>,
)
    ensures
        (ErrorView::ValueKindMismatch { field, expected: word }).message() == "value for field '"@
            + uuid_text(field.0) + "' does not match its kind (expected "@ + word + ")"@,
        (ErrorView::UnsupportedFieldKindForValue { field, kind: word }).message() == "field '"@
            + uuid_text(field.0) + "' has kind '"@ + word
            + "', which record value operations don't support yet"@,
        (ErrorView::ReferenceTargetDatabaseMismatch { field, expected, actual }).message()
            == "field '"@ + uuid_text(field.0) + "' points at database "@ + uuid_text(expected.0)
            + ", but the given record belongs to "@ + uuid_text(actual.0),
        ErrorView::ReferenceFieldRetypeNotSupported(field).message() == "field '"@ + uuid_text(
            field.0,
        ) + "' is a reference field; retyping is only supported between scalar kinds"@,
        ErrorView::Storage(message).message() == "storage error: "@ + message,
{
}

/// An error goes out as the same error, with every id as its text and a blob as
/// its hash.
pub proof fn errors_go_out_as_they_are(
    id: u128,
    blob: BlobRefView,
    field: FieldId,
    word: Seq<char>,
    expected: DatabaseId,
    actual: DatabaseId,
)
    ensures
        error_shown(ErrorView::DatabaseNotFound(DatabaseId(id))) == (
        TextErrorView::DatabaseNotFound { id: uuid_text(id) }),
        error_shown(ErrorView::FieldNotFound(FieldId(id))) == (TextErrorView::FieldNotFound {
            id: uuid_text(id),
        }),
        error_shown(ErrorView::RecordNotFound(Link(id))) == (TextErrorView::RecordNotFound {
            id: uuid_text(id),
        }),
        error_shown(ErrorView::ReferenceNotFound(ReferenceId(id))) == (
        TextErrorView::ReferenceNotFound { id: uuid_text(id) }),
        error_shown(ErrorView::BlobNotFound(blob)) == (TextErrorView::BlobNotFound {
            hash: blob.hash,
        }),
        error_shown(ErrorView::ValueKindMismatch { field, expected: word }) == (
        TextErrorView::ValueKindMismatch { field: uuid_text(field.0), expected: word }),
        error_shown(ErrorView::UnsupportedFieldKindForValue { field, kind: word }) == (
        TextErrorView::UnsupportedFieldKindForValue { field: uuid_text(field.0), kind: word }),
        error_shown(ErrorView::ReferenceTargetDatabaseMismatch { field, expected, actual }) == (
        TextErrorView::ReferenceTargetDatabaseMismatch {
            field: uuid_text(field.0),
            expected: uuid_text(expected.0),
            actual: uuid_text(actual.0),
        }),
        error_shown(ErrorView::ReferenceFieldRetypeNotSupported(field)) == (
        TextErrorView::ReferenceFieldRetypeNotSupported { field: uuid_text(field.0) }),
        error_shown(ErrorView::Storage(word)) == (TextErrorView::Storage { message: word }),
{
}

/// An id that comes in is the id that its text stands for; a text that stands
/// for none is refused, with the text and what is wrong with it.
pub proof fn ids_come_in(id: u128, text: Seq<char>)
    ensures
        id_read(uuid_text(id)) == Ok::<u128, TextErrorView>(id),
        uuid_reading(text) matches Ok(read) ==> id_read(text) == Ok::<u128, TextErrorView>(read),
        uuid_reading(text) matches Err(fault) ==> id_read(text) == Err::<u128, TextErrorView>(
            TextErrorView::Storage { message: "invalid id '"@ + text + "': "@ + fault },
        ),
{
    uuid_text_reads_back(id);
}

/// A kind goes out as the same kind: a selection with its options, a plugin's
/// kind with its plugin, a reference with its ids as text.
pub proof fn kinds_go_out_as_they_are(
    multi: bool,
    options: Seq<SelectionOptionView>,
    target: DatabaseId,
    pair: FieldId,
    kind_id: Seq<char>,
)
    ensures
        kind_shown(FieldKindView::Text) == TextKindView::Text,
        kind_shown(FieldKindView::Number) == TextKindView::Number,
        kind_shown(FieldKindView::Boolean) == TextKindView::Boolean,
        kind_shown(FieldKindView::Date) == TextKindView::Date,
        kind_shown(FieldKindView::Blob) == TextKindView::Blob,
        kind_shown(FieldKindView::Json) == TextKindView::Json,
        kind_shown(FieldKindView::Selection { multi, options }) == (TextKindView::Selection {
            multi,
            options,
        }),
        kind_shown(FieldKindView::Custom { kind_id }) == (TextKindView::Custom { kind_id }),
        kind_shown(FieldKindView::CustomBlob { kind_id }) == (TextKindView::CustomBlob { kind_id }),
        kind_shown(
            FieldKindView::Reference { target_database: target, paired_field: Some(pair) },
        ) == (TextKindView::Reference {
            target_database: uuid_text(target.0),
            paired_field: Some(uuid_text(pair.0)),
        }),
        kind_shown(FieldKindView::Reference { target_database: target, paired_field: None }) == (
        TextKindView::Reference { target_database: uuid_text(target.0), paired_field: None }),
{
}

/// A kind comes in as the same kind. A reference comes in without a pair,
/// whatever pair was given, and is refused where its target is no id.
pub proof fn kinds_come_in_as_they_are(
    multi: bool,
    options: Seq<SelectionOptionView>,
    target: DatabaseId,
    text: Seq<char>,
    pair: Option<Seq<char>>,
    kind_id: Seq<char>,
)
    ensures
        kind_read(TextKindView::Text) == Ok::<FieldKindView, TextErrorView>(FieldKindView::Text),
        kind_read(TextKindView::Number) == Ok::<FieldKindView, TextErrorView>(
            FieldKindView::Number,
        ),
        kind_read(TextKindView::Boolean) == Ok::<FieldKindView, TextErrorView>(
            FieldKindView::Boolean,
        ),
        kind_read(TextKindView::Date) == Ok::<FieldKindView, TextErrorView>(FieldKindView::Date),
        kind_read(TextKindView::Blob) == Ok::<FieldKindView, TextErrorView>(FieldKindView::Blob),
        kind_read(TextKindView::Json) == Ok::<FieldKindView, TextErrorView>(FieldKindView::Json),
        kind_read(TextKindView::Selection { multi, options }) == Ok::<
            FieldKindView,
            TextErrorView,
        >(FieldKindView::Selection { multi, options }),
        kind_read(TextKindView::Custom { kind_id }) == Ok::<FieldKindView, TextErrorView>(
            FieldKindView::Custom { kind_id },
        ),
        kind_read(TextKindView::CustomBlob { kind_id }) == Ok::<FieldKindView, TextErrorView>(
            FieldKindView::CustomBlob { kind_id },
        ),
        kind_read(
            TextKindView::Reference {
                target_database: uuid_text(target.0),
                paired_field: pair,
            },
        ) == Ok::<FieldKindView, TextErrorView>(
            FieldKindView::Reference { target_database: target, paired_field: None },
        ),
        uuid_reading(text) matches Err(fault) ==> kind_read(
            TextKindView::Reference { target_database: text, paired_field: pair },
        ) == Err::<FieldKindView, TextErrorView>(
            TextErrorView::Storage { message: "invalid id '"@ + text + "': "@ + fault },
        ),
{
    uuid_text_reads_back(target.0);
}

/// A field goes out under the text of its id, with its name, its kind and its
/// ordering.
pub proof fn fields_go_out_as_they_are(field: FieldView)
    ensures
        field_shown(field) == (TextFieldView {
            id: uuid_text(field.id.0),
            name: field.name,
            kind: kind_shown(field.kind),
            ordering: field.ordering,
        }),
{
}

/// A value goes out as the same value: links and dates as text, a blob as its
/// hash alone.
pub proof fn values_go_out_as_they_are(
    text: Seq<char>,
    number: Number,
    b: bool,
    names: Seq<Seq<char>>,
    date: DateView,
    links: Seq<Link>,
    blob: BlobRefView,
    kind_id: Seq<char>,
    data: Seq<u8>,
)
    ensures
        value_shown(ValueView::Text(text)) == TextValueView::Text(text),
        value_shown(ValueView::Number(number)) == TextValueView::Number(number),
        value_shown(ValueView::Boolean(b)) == TextValueView::Boolean(b),
        value_shown(ValueView::Selection(names)) == TextValueView::Selection(names),
        value_shown(ValueView::Date(date)) == TextValueView::Date(date.text()),
        value_shown(ValueView::Reference(links)) == TextValueView::Reference(
            Seq::new(links.len(), |i: int| uuid_text(links[i].0)),
        ),
        value_shown(ValueView::Blob(blob)) == TextValueView::Blob(blob.hash),
        value_shown(ValueView::Json(text)) == TextValueView::Json(text),
        value_shown(ValueView::Custom { kind_id, data }) == (TextValueView::Custom {
            kind_id,
            data,
        }),
        value_shown(ValueView::CustomBlob { kind_id, blob }) == (TextValueView::CustomBlob {
            kind_id,
            hash: blob.hash,
        }),
        value_shown(ValueView::Empty) == TextValueView::Empty,
{
    assert(link_texts(links) =~= Seq::new(links.len(), |i: int| uuid_text(links[i].0)));
}

/// A value comes in as the same value: a date as what it is read as, a hash as
/// a handle without a filename. What is no date is refused.
pub proof fn values_come_in_as_they_are(
    text: Seq<char>,
    number: Number,
    b: bool,
    names: Seq<Seq<char>>,
    kind_id: Seq<char>,
    data: Seq<u8>,
)
    ensures
        value_read(TextValueView::Text(text)) == Ok::<ValueView, TextErrorView>(
            ValueView::Text(text),
        ),
        value_read(TextValueView::Number(number)) == Ok::<ValueView, TextErrorView>(
            ValueView::Number(number),
        ),
        value_read(TextValueView::Boolean(b)) == Ok::<ValueView, TextErrorView>(
            ValueView::Boolean(b),
        ),
        value_read(TextValueView::Selection(names)) == Ok::<ValueView, TextErrorView>(
            ValueView::Selection(names),
        ),
        date_reading(text) matches Some(date) ==> value_read(TextValueView::Date(text)) == Ok::<
            ValueView,
            TextErrorView,
        >(ValueView::Date(date)),
        date_reading(text) is None ==> value_read(TextValueView::Date(text)) == Err::<
            ValueView,
            TextErrorView,
        >(TextErrorView::Storage { message: "invalid date: "@ + text }),
        value_read(TextValueView::Blob(text)) == Ok::<ValueView, TextErrorView>(
            ValueView::Blob(BlobRefView { hash: text, filename: None }),
        ),
        value_read(TextValueView::Json(text)) == Ok::<ValueView, TextErrorView>(
            ValueView::Json(text),
        ),
        value_read(TextValueView::Custom { kind_id, data }) == Ok::<ValueView, TextErrorView>(
            ValueView::Custom { kind_id, data },
        ),
        value_read(TextValueView::CustomBlob { kind_id, hash: text }) == Ok::<
            ValueView,
            TextErrorView,
        >(
            ValueView::CustomBlob { kind_id, blob: BlobRefView { hash: text, filename: None } },
        ),
        value_read(TextValueView::Empty) == Ok::<ValueView, TextErrorView>(ValueView::Empty),
{
}

/// Links come in as the links that their texts stand for, in their order.
pub proof fn links_come_in(links: Seq<Link>)
    ensures
        value_read(
            TextValueView::Reference(Seq::new(links.len(), |i: int| uuid_text(links[i].0))),
        ) == Ok::<ValueView, TextErrorView>(ValueView::Reference(links)),
    decreases links.len(),
{
    let texts = Seq::new(links.len(), |i: int| uuid_text(links[i].0));
    if links.len() == 0 {
        assert(links =~= Seq::empty());
    } else {
        let rest = links.drop_last();
        links_come_in(rest);
        assert(texts.drop_last() =~= Seq::new(rest.len(), |i: int| uuid_text(rest[i].0)));
        uuid_text_reads_back(links.last().0);
        assert(rest.push(links.last()) =~= links);
    }
}

/// The first text that is no link is what a list of links is refused for.
pub proof fn bad_links_are_refused(good: Seq<Link>, bad: Seq<char>, behind: Seq<Seq<char>>)
    requires
        uuid_reading(bad) is Err,
    ensures
        value_read(
            TextValueView::Reference(
                Seq::new(good.len(), |i: int| uuid_text(good[i].0)).push(bad) + behind,
            ),
        ) == Err::<ValueView, TextErrorView>(
            TextErrorView::Storage {
                message: "invalid id '"@ + bad + "': "@ + uuid_reading(bad)->Err_0,
            },
        ),
    decreases behind.len(),
{
    let texts = Seq::new(good.len(), |i: int| uuid_text(good[i].0));
    let whole = texts.push(bad) + behind;
    if behind.len() == 0 {
        links_come_in(good);
        assert(whole =~= texts.push(bad));
        assert(texts.push(bad).drop_last() =~= texts);
    } else {
        bad_links_are_refused(good, bad, behind.drop_last());
        assert(whole.drop_last() =~= texts.push(bad) + behind.drop_last());
    }
}

/// A record's values go out once each: every field that has a value is in the
/// list under the text of its id, with that value, and the list holds nothing
/// else.
pub proof fn every_value_goes_out_once(
    list: Seq<(String, Value)>,
    values: Map<FieldId, ValueView>,
    fields: Seq<FieldId>,
    field: FieldId,
)
    requires
        shows_values(list, values, fields),
        values.dom().contains(field),
    ensures
        exists|i: int|
            0 <= i < list.len() && (#[trigger] list[i]).0@ == uuid_text(field.0) && list[i].1@
                == value_shown(values[field]),
        forall|i: int|
            0 <= i < list.len() ==> exists|own: FieldId|
                values.dom().contains(own) && (#[trigger] list[i]).0@ == #[trigger] uuid_text(
                    own.0,
                ),
{
    assert(fields.contains(field));
    let i = fields.index_of(field);
    assert(list[i].0@ == uuid_text(field.0));
    assert forall|j: int| 0 <= j < list.len() implies exists|own: FieldId|
        values.dom().contains(own) && (#[trigger] list[j]).0@ == #[trigger] uuid_text(own.0) by {
        assert(fields.contains(fields[j]));
        assert(list[j].0@ == uuid_text(fields[j].0));
    }
}

} // verus!
