//! How values are written to columns, read from them, and carried from one
//! kind to another.

use vstd::prelude::*;
use vstd::string::StringExecFns;

use crate::date::{date_reading, Date};
use crate::error::{outcome, DataLineError, ErrorView, Result};
use crate::ids::FieldId;
use crate::json::{find_fault, json_fault, json_of_texts, read_texts, texts_of_json, write_texts};
use crate::kind::{kind_label, label_of};
use crate::number::Number;
use crate::record::{copy_bytes, BlobRef, BlobRefView, Value, ValueView};
use crate::schema::{FieldKind, FieldKindView, SelectionOption, SelectionOptionView};
use crate::sql::{Cell, CellView, SqlValue, SqlView};
use crate::text::{join, joined, lowercase, same_text, to_lowercase, view_of, views, views_push};

verus! {

/// The refusal of a value that is not of its field's kind.
pub open spec fn kind_mismatch(field: FieldId, kind: FieldKindView) -> ErrorView {
    ErrorView::ValueKindMismatch { field, expected: label_of(kind) }
}

/// What a column of this kind holds for a value, or why the value is refused.
pub open spec fn encoded_value(field: FieldId, kind: FieldKindView, value: ValueView) -> core::result::Result<
    SqlView,
    ErrorView,
> {
    match (kind, value) {
        (_, ValueView::Empty) => Ok(SqlView::Null),
        (FieldKindView::Text, ValueView::Text(text)) => Ok(SqlView::Text(text)),
        (FieldKindView::Number, ValueView::Number(number)) => Ok(SqlView::Real(number)),
        (FieldKindView::Boolean, ValueView::Boolean(b)) => Ok(
            SqlView::Integer(
                if b {
                    1i64
                } else {
                    0i64
                },
            ),
        ),
        (FieldKindView::Date, ValueView::Date(date)) => Ok(SqlView::Text(date.text())),
        (FieldKindView::Selection { .. }, ValueView::Selection(names)) => Ok(
            SqlView::Text(json_of_texts(names)),
        ),
        (FieldKindView::Blob, ValueView::Blob(blob)) => Ok(SqlView::Text(blob.hash)),
        (FieldKindView::Json, ValueView::Json(json)) => match json_fault(json) {
            Some(fault) => Err(ErrorView::Storage("invalid JSON value: "@ + fault)),
            None => Ok(SqlView::Text(json)),
        },
        (FieldKindView::Custom { kind_id }, ValueView::Custom { kind_id: own, data }) => if kind_id
            == own {
            Ok(SqlView::Blob(data))
        } else {
            Err(kind_mismatch(field, kind))
        },
        (FieldKindView::CustomBlob { kind_id }, ValueView::CustomBlob { kind_id: own, blob }) => if kind_id
            == own {
            Ok(SqlView::Text(blob.hash))
        } else {
            Err(kind_mismatch(field, kind))
        },
        _ => Err(kind_mismatch(field, kind)),
    }
}

/// What remains of a value in its column: all of it but a blob's filename,
/// which is kept with the blob.
pub open spec fn column_value(value: ValueView) -> ValueView {
    match value {
        ValueView::Blob(blob) => ValueView::Blob(BlobRefView { filename: None, ..blob }),
        ValueView::CustomBlob { kind_id, blob } => ValueView::CustomBlob {
            kind_id,
            blob: BlobRefView { filename: None, ..blob },
        },
        _ => value,
    }
}

/// Whether a column that holds `held` is read as `value`.
pub open spec fn reads_back(kind: FieldKindView, held: SqlView, value: ValueView) -> bool {
    forall|cell: CellView|
        cell.value == held ==> #[trigger] decoded_value(kind, cell) == Ok::<ValueView, ErrorView>(
            value,
        )
}

/// What a column of this kind holds for a value. The empty value is null under
/// every kind; a value of another kind than the field's is refused. Reading
/// what is held gives the value back.
pub fn encode_scalar_value(field_id: FieldId, kind: &FieldKind, value: &Value) -> (encoded: Result<
    SqlValue,
>)
    ensures
        outcome(encoded) == encoded_value(field_id, kind@, value@),
        encoded matches Ok(held) ==> reads_back(kind@, held@, column_value(value@)),
{
    if value.is_empty() {
        return Ok(SqlValue::Null);
    }
    match (kind, value) {
        (FieldKind::Text, Value::Text(text)) => Ok(SqlValue::Text(text.clone())),
        (FieldKind::Number, Value::Number(number)) => Ok(SqlValue::Real(*number)),
        (FieldKind::Boolean, Value::Boolean(b)) => Ok(
            SqlValue::Integer(
                if *b {
                    1
                } else {
                    0
                },
            ),
        ),
        (FieldKind::Date, Value::Date(date)) => Ok(SqlValue::Text(date.to_string())),
        (FieldKind::Selection { .. }, Value::Selection(names)) => Ok(
            SqlValue::Text(write_texts(names)),
        ),
        (FieldKind::Blob, Value::Blob(blob)) => Ok(SqlValue::Text(blob.hash().to_string())),
        (FieldKind::Json, Value::Json(json)) => match find_fault(json.as_str()) {
            Some(fault) => Err(
                DataLineError::Storage(
                    "invalid JSON value: ".to_string().concat(fault.as_str()),
                ),
            ),
            None => Ok(SqlValue::Text(json.clone())),
        },
        (FieldKind::Custom { kind_id }, Value::Custom { kind_id: own, data }) => {
            if !same_text(kind_id.as_str(), own.as_str()) {
                return Err(
                    DataLineError::ValueKindMismatch {
                        field: field_id,
                        expected: kind_label(kind),
                    },
                );
            }
            Ok(SqlValue::Blob(copy_bytes(data)))
        },
        (FieldKind::CustomBlob { kind_id }, Value::CustomBlob { kind_id: own, blob }) => {
            if !same_text(kind_id.as_str(), own.as_str()) {
                return Err(
                    DataLineError::ValueKindMismatch {
                        field: field_id,
                        expected: kind_label(kind),
                    },
                );
            }
            Ok(SqlValue::Text(blob.hash().to_string()))
        },
        _ => Err(
            DataLineError::ValueKindMismatch { field: field_id, expected: kind_label(kind) },
        ),
    }
}

/// The complaint about a column value of the wrong type.
pub open spec fn wrong_type(article: Seq<char>, cell: CellView) -> ErrorView {
    ErrorView::Storage("expected "@ + article + " column value, got "@ + cell.shown)
}

/// The text in a column.
pub open spec fn text_in(cell: CellView) -> core::result::Result<Seq<char>, ErrorView> {
    match cell.value {
        SqlView::Text(text) => Ok(text),
        _ => Err(wrong_type("a TEXT"@, cell)),
    }
}

/// The number in a column; an integer counts as the double nearest to it.
pub open spec fn real_in(cell: CellView) -> core::result::Result<Number, ErrorView> {
    match cell.value {
        SqlView::Real(number) => Ok(number),
        SqlView::Integer(_) => Ok(cell.nearest),
        _ => Err(wrong_type("a REAL"@, cell)),
    }
}

/// The integer in a column.
pub open spec fn integer_in(cell: CellView) -> core::result::Result<i64, ErrorView> {
    match cell.value {
        SqlView::Integer(n) => Ok(n),
        _ => Err(wrong_type("an INTEGER"@, cell)),
    }
}

/// The bytes in a column.
pub open spec fn blob_in(cell: CellView) -> core::result::Result<Seq<u8>, ErrorView> {
    match cell.value {
        SqlView::Blob(bytes) => Ok(bytes),
        _ => Err(wrong_type("a BLOB"@, cell)),
    }
}

fn wrong_type_error(article: &str, cell: &Cell) -> (error: DataLineError)
    ensures
        error@ == wrong_type(article@, cell@),
{
    DataLineError::Storage(
        "expected ".to_string().concat(article).concat(" column value, got ").concat(
            cell.shown.as_str(),
        ),
    )
}

/// The text in a column.
pub fn expect_text(cell: &Cell) -> (text: Result<String>)
    ensures
        outcome(text) == text_in(cell@),
{
    match &cell.value {
        SqlValue::Text(text) => Ok(text.clone()),
        _ => Err(wrong_type_error("a TEXT", cell)),
    }
}

/// The number in a column; an integer counts as the double nearest to it.
pub fn expect_real(cell: &Cell) -> (number: Result<Number>)
    ensures
        match number {
            Ok(number) => real_in(cell@) == Ok::<Number, ErrorView>(number),
            Err(error) => real_in(cell@) == Err::<Number, ErrorView>(error@),
        },
{
    match &cell.value {
        SqlValue::Real(number) => Ok(*number),
        SqlValue::Integer(_) => Ok(cell.nearest),
        _ => Err(wrong_type_error("a REAL", cell)),
    }
}

/// The integer in a column.
pub fn expect_integer(cell: &Cell) -> (n: Result<i64>)
    ensures
        outcome(n) == integer_in(cell@),
{
    match &cell.value {
        SqlValue::Integer(n) => Ok(*n),
        _ => Err(wrong_type_error("an INTEGER", cell)),
    }
}

/// The bytes in a column.
pub fn expect_blob(cell: &Cell) -> (bytes: Result<Vec<u8>>)
    ensures
        match bytes {
            Ok(bytes) => blob_in(cell@) == Ok::<Seq<u8>, ErrorView>(bytes@),
            Err(error) => blob_in(cell@) == Err::<Seq<u8>, ErrorView>(error@),
        },
{
    match &cell.value {
        SqlValue::Blob(bytes) => Ok(copy_bytes(bytes)),
        _ => Err(wrong_type_error("a BLOB", cell)),
    }
}

/// A handle without a filename.
pub open spec fn bare_blob(hash: Seq<char>) -> BlobRefView {
    BlobRefView { hash, filename: None }
}

/// The value that a column of this kind stands for, or what is wrong with it.
pub open spec fn decoded_value(kind: FieldKindView, cell: CellView) -> core::result::Result<
    ValueView,
    ErrorView,
> {
    if cell.value is Null {
        Ok(ValueView::Empty)
    } else {
        match kind {
            FieldKindView::Text => match text_in(cell) {
                Ok(text) => Ok(ValueView::Text(text)),
                Err(error) => Err(error),
            },
            FieldKindView::Number => match real_in(cell) {
                Ok(number) => Ok(ValueView::Number(number)),
                Err(error) => Err(error),
            },
            FieldKindView::Boolean => match integer_in(cell) {
                Ok(n) => Ok(ValueView::Boolean(n != 0)),
                Err(error) => Err(error),
            },
            FieldKindView::Date => match text_in(cell) {
                Ok(text) => match date_reading(text) {
                    Some(date) => Ok(ValueView::Date(date)),
                    None => Err(ErrorView::Storage("invalid stored date: "@ + text)),
                },
                Err(error) => Err(error),
            },
            FieldKindView::Selection { .. } => match text_in(cell) {
                Ok(json) => match texts_of_json(json) {
                    Ok(names) => Ok(ValueView::Selection(names)),
                    Err(message) => Err(ErrorView::Storage(message)),
                },
                Err(error) => Err(error),
            },
            FieldKindView::Blob => match text_in(cell) {
                Ok(hash) => Ok(ValueView::Blob(bare_blob(hash))),
                Err(error) => Err(error),
            },
            FieldKindView::Json => match text_in(cell) {
                Ok(json) => Ok(ValueView::Json(json)),
                Err(error) => Err(error),
            },
            FieldKindView::Custom { kind_id } => match blob_in(cell) {
                Ok(data) => Ok(ValueView::Custom { kind_id, data }),
                Err(error) => Err(error),
            },
            FieldKindView::CustomBlob { kind_id } => match text_in(cell) {
                Ok(hash) => Ok(ValueView::CustomBlob { kind_id, blob: bare_blob(hash) }),
                Err(error) => Err(error),
            },
            // A reference has no column.
            FieldKindView::Reference { .. } => Ok(ValueView::Empty),
        }
    }
}

/// The value that a column of this kind stands for. Null is the empty value
/// under every kind. A reference has no column, so nothing else stands there.
pub fn decode_scalar_value(kind: &FieldKind, cell: &Cell) -> (value: Result<Value>)
    requires
        kind@ is Reference ==> cell@.value is Null,
    ensures
        outcome(value) == decoded_value(kind@, cell@),
{
    match &cell.value {
        SqlValue::Null => {
            return Ok(Value::Empty);
        },
        _ => {},
    }
    match kind {
        FieldKind::Text => match expect_text(cell) {
            Ok(text) => Ok(Value::Text(text)),
            Err(error) => Err(error),
        },
        FieldKind::Number => match expect_real(cell) {
            Ok(number) => Ok(Value::Number(number)),
            Err(error) => Err(error),
        },
        FieldKind::Boolean => match expect_integer(cell) {
            Ok(n) => Ok(Value::Boolean(n != 0)),
            Err(error) => Err(error),
        },
        FieldKind::Date => match expect_text(cell) {
            Ok(text) => match Date::parse(text.as_str()) {
                Some(date) => Ok(Value::Date(date)),
                None => Err(
                    DataLineError::Storage(
                        "invalid stored date: ".to_string().concat(text.as_str()),
                    ),
                ),
            },
            Err(error) => Err(error),
        },
        FieldKind::Selection { .. } => match expect_text(cell) {
            Ok(json) => match read_texts(json.as_str()) {
                Ok(names) => Ok(Value::Selection(names)),
                Err(message) => Err(DataLineError::Storage(message)),
            },
            Err(error) => Err(error),
        },
        FieldKind::Blob => match expect_text(cell) {
            Ok(hash) => Ok(Value::Blob(BlobRef::from_hash(hash.as_str()))),
            Err(error) => Err(error),
        },
        FieldKind::Json => match expect_text(cell) {
            Ok(json) => Ok(Value::Json(json)),
            Err(error) => Err(error),
        },
        FieldKind::Custom { kind_id } => match expect_blob(cell) {
            Ok(data) => Ok(Value::Custom { kind_id: kind_id.clone(), data }),
            Err(error) => Err(error),
        },
        FieldKind::CustomBlob { kind_id } => match expect_text(cell) {
            Ok(hash) => Ok(
                Value::CustomBlob {
                    kind_id: kind_id.clone(),
                    blob: BlobRef::from_hash(hash.as_str()),
                },
            ),
            Err(error) => Err(error),
        },
        FieldKind::Reference { .. } => Ok(Value::Empty),
    }
}

/// Whether a selection offers an option of this name.
pub open spec fn offers(options: Seq<SelectionOptionView>, name: Seq<char>) -> bool {
    exists|i: int| 0 <= i < options.len() && (#[trigger] options[i]).name == name
}

/// The names that a selection offers.
pub open spec fn names_offered(names: Seq<Seq<char>>, options: Seq<SelectionOptionView>) -> Seq<
    Seq<char>,
> {
    names.filter(|name: Seq<char>| offers(options, name))
}

/// Whether a selection offers an option of this name.
fn has_option(options: &Vec<SelectionOption>, name: &str) -> (found: bool)
    ensures
        found == offers(views(options@), name@),
{
    let mut i: usize = 0;
    while i < options.len()
        invariant
            i <= options.len(),
            forall|j: int| 0 <= j < i ==> (#[trigger] views(options@)[j]).name != name@,
        decreases options.len() - i,
    {
        assert(views(options@)[i as int] == options@[i as int]@);
        if same_text(options[i].name.as_str(), name) {
            return true;
        }
        i += 1;
    }
    false
}

/// The names that a selection offers.
fn keep_offered(names: &Vec<String>, options: &Vec<SelectionOption>) -> (kept: Vec<String>)
    ensures
        views(kept@) == names_offered(views(names@), views(options@)),
{
    let mut kept: Vec<String> = Vec::new();
    let mut i: usize = 0;
    while i < names.len()
        invariant
            i <= names.len(),
            views(kept@) == names_offered(views(names@).take(i as int), views(options@)),
        decreases names.len() - i,
    {
        proof {
            reveal(Seq::filter);
            assert(views(names@).take(i + 1).drop_last() =~= views(names@).take(i as int));
        }
        if has_option(options, names[i].as_str()) {
            let name = names[i].clone();
            proof {
                views_push(kept@, name);
            }
            kept.push(name);
        }
        i += 1;
    }
    assert(views(names@).take(names.len() as int) =~= views(names@));
    kept
}

/// The text that has to be read as a number to carry a value over.
pub open spec fn number_text(value: ValueView, target: FieldKindView) -> Option<Seq<char>> {
    match (value, target) {
        (ValueView::Text(text), FieldKindView::Number) => Some(text),
        (ValueView::Selection(names), FieldKindView::Number) => if names.len() > 0 {
            Some(names[0])
        } else {
            None
        },
        _ => None,
    }
}

/// The text that has to be read as a number to carry a value over.
pub fn number_to_read(value: &Value, target: &FieldKind) -> (text: Option<String>)
    ensures
        view_of(text) == number_text(value@, target@),
{
    match (value, target) {
        (Value::Text(text), FieldKind::Number) => Some(text.clone()),
        (Value::Selection(names), FieldKind::Number) => if names.len() > 0 {
            Some(names[0].clone())
        } else {
            None
        },
        _ => None,
    }
}

/// The number that has to be printed to carry a value over.
pub open spec fn number_shown(value: ValueView, target: FieldKindView) -> Option<Number> {
    match (value, target) {
        (ValueView::Number(number), FieldKindView::Text) => Some(number),
        _ => None,
    }
}

/// The number that has to be printed to carry a value over.
pub fn number_to_print(value: &Value, target: &FieldKind) -> (number: Option<Number>)
    ensures
        number == number_shown(value@, target@),
{
    match (value, target) {
        (Value::Number(number), FieldKind::Text) => Some(*number),
        _ => None,
    }
}

/// The number, if there is one. What is not a number is empty, since no column
/// can hold it.
pub open spec fn number_or_empty(number: Option<Number>) -> ValueView {
    match number {
        Some(number) => if number.spec_is_nan() {
            ValueView::Empty
        } else {
            ValueView::Number(number)
        },
        None => ValueView::Empty,
    }
}

/// The number, if there is one. What is not a number is empty, since no column
/// can hold it.
fn number_value(number: Option<Number>) -> (value: Value)
    ensures
        value@ == number_or_empty(number),
{
    match number {
        Some(number) => if number.is_nan() {
            Value::Empty
        } else {
            Value::Number(number)
        },
        None => Value::Empty,
    }
}

/// The truth value that a lower-case text names, if it names one.
pub open spec fn boolean_named(lower: Seq<char>) -> Option<bool> {
    if lower == "true"@ {
        Some(true)
    } else if lower == "false"@ {
        Some(false)
    } else {
        None
    }
}

/// The truth value that a lower-case text names, if it names one.
pub fn read_boolean(lower: &str) -> (b: Option<bool>)
    ensures
        b == boolean_named(lower@),
        b == Some(true) <==> lower@ == "true"@,
        b == Some(false) <==> lower@ == "false"@,
{
    proof {
        reveal_strlit("true");
        reveal_strlit("false");
        assert("true"@.len() != "false"@.len());
    }
    if same_text(lower, "true") {
        Some(true)
    } else if same_text(lower, "false") {
        Some(false)
    } else {
        None
    }
}

/// What becomes of a value when its field is given another kind: it passes
/// through, is converted, or is empty where the new kind cannot represent it.
/// `read` is what the text named by `number_text` reads as, `printed` the text
/// of the number named by `number_shown`.
pub open spec fn coerced(
    value: ValueView,
    target: FieldKindView,
    read: Option<Number>,
    printed: Seq<char>,
) -> ValueView {
    match (value, target) {
        (ValueView::Text(_), FieldKindView::Text) => value,
        (ValueView::Number(_), FieldKindView::Number) => value,
        (ValueView::Boolean(_), FieldKindView::Boolean) => value,
        (ValueView::Date(_), FieldKindView::Date) => value,
        (ValueView::Blob(_), FieldKindView::Blob) => value,
        (ValueView::Json(_), FieldKindView::Json) => value,
        (ValueView::Custom { kind_id: own, .. }, FieldKindView::Custom { kind_id }) => if own
            == kind_id {
            value
        } else {
            ValueView::Empty
        },
        (ValueView::Blob(blob), FieldKindView::CustomBlob { kind_id }) => ValueView::CustomBlob {
            kind_id,
            blob,
        },
        (ValueView::CustomBlob { blob, .. }, FieldKindView::Blob) => ValueView::Blob(blob),
        (ValueView::CustomBlob { blob, .. }, FieldKindView::CustomBlob { kind_id }) => ValueView::CustomBlob {
            kind_id,
            blob,
        },
        (ValueView::Selection(names), FieldKindView::Selection { options, .. }) => {
            let kept = names_offered(names, options);
            if kept.len() == 0 && names.len() > 0 {
                ValueView::Empty
            } else {
                ValueView::Selection(kept)
            }
        },
        (ValueView::Text(_), FieldKindView::Number) => number_or_empty(read),
        (ValueView::Text(text), FieldKindView::Boolean) => match boolean_named(lowercase(text)) {
            Some(b) => ValueView::Boolean(b),
            None => ValueView::Empty,
        },
        (ValueView::Text(text), FieldKindView::Date) => match date_reading(text) {
            Some(date) => ValueView::Date(date),
            None => ValueView::Empty,
        },
        (ValueView::Text(text), FieldKindView::Json) => if json_fault(text) is None {
            ValueView::Json(text)
        } else {
            ValueView::Empty
        },
        (ValueView::Json(json), FieldKindView::Text) => ValueView::Text(json),
        (ValueView::Text(text), FieldKindView::Selection { options, .. }) => if offers(
            options,
            text,
        ) {
            ValueView::Selection(seq![text])
        } else {
            ValueView::Empty
        },
        (ValueView::Number(_), FieldKindView::Text) => ValueView::Text(printed),
        (ValueView::Number(number), FieldKindView::Boolean) => ValueView::Boolean(
            !number.spec_is_zero(),
        ),
        (ValueView::Boolean(b), FieldKindView::Text) => ValueView::Text(
            if b {
                "true"@
            } else {
                "false"@
            },
        ),
        (ValueView::Boolean(b), FieldKindView::Number) => ValueView::Number(Number::of_bool(b)),
        (ValueView::Selection(names), FieldKindView::Text) => ValueView::Text(
            joined(names, ", "@),
        ),
        (ValueView::Selection(names), FieldKindView::Number) => if names.len() > 0 {
            number_or_empty(read)
        } else {
            ValueView::Empty
        },
        (ValueView::Date(date), FieldKindView::Text) => ValueView::Text(date.text()),
        _ => ValueView::Empty,
    }
}

/// The kind to which a value that was carried to another kind can go back.
pub open spec fn way_back(value: ValueView, target: FieldKindView) -> Option<FieldKindView> {
    match (value, target) {
        (ValueView::Boolean(_), FieldKindView::Text) => Some(FieldKindView::Boolean),
        (ValueView::Boolean(_), FieldKindView::Number) => Some(FieldKindView::Boolean),
        (ValueView::Date(_), FieldKindView::Text) => Some(FieldKindView::Date),
        (ValueView::Json(json), FieldKindView::Text) => if json_fault(json) is None {
            Some(FieldKindView::Json)
        } else {
            None
        },
        (ValueView::Blob(_), FieldKindView::CustomBlob { .. }) => Some(FieldKindView::Blob),
        (ValueView::CustomBlob { kind_id, .. }, FieldKindView::Blob) => Some(
            FieldKindView::CustomBlob { kind_id },
        ),
        _ => None,
    }
}

/// Whether a value becomes another under a kind, whatever is read and printed.
pub open spec fn becomes(value: ValueView, kind: FieldKindView, other: ValueView) -> bool {
    forall|read: Option<Number>, printed: Seq<char>| #[trigger]
        coerced(value, kind, read, printed) == other
}

/// The lower-case words for the truth values name them.
pub proof fn truth_values_are_named()
    ensures
        boolean_named(lowercase("true"@)) == Some(true),
        boolean_named(lowercase("false"@)) == Some(false),
{
    reveal_strlit("true");
    reveal_strlit("false");
    assert(lowercase("true"@) =~= "true"@);
    assert(lowercase("false"@) =~= "false"@);
    assert("true"@.len() != "false"@.len());
}

/// What becomes of a value when its field is given another kind. `read` is
/// what the text of `number_to_read` reads as, if it reads as a number at all;
/// `printed` is the text of the number of `number_to_print`. Neither is looked
/// at where those give nothing. What `way_back` speaks of comes back as it was.
pub fn coerce_value(value: &Value, target_kind: &FieldKind, read: Option<Number>, printed: &str) -> (
coerced_value: Value)
    ensures
        coerced_value@ == coerced(value@, target_kind@, read, printed@),
        way_back(value@, target_kind@) matches Some(kind) ==> becomes(
            coerced_value@,
            kind,
            value@,
        ),
{
    proof {
        truth_values_are_named();
        Number::of_bool_is_a_number();
    }
    match (value, target_kind) {
        (Value::Text(_), FieldKind::Text) => value.clone(),
        (Value::Number(_), FieldKind::Number) => value.clone(),
        (Value::Boolean(_), FieldKind::Boolean) => value.clone(),
        (Value::Date(_), FieldKind::Date) => value.clone(),
        (Value::Blob(_), FieldKind::Blob) => value.clone(),
        (Value::Json(_), FieldKind::Json) => value.clone(),
        (Value::Custom { kind_id: own, .. }, FieldKind::Custom { kind_id }) => {
            if same_text(own.as_str(), kind_id.as_str()) {
                value.clone()
            } else {
                Value::Empty
            }
        },
        // A blob is the same handle with or without a plugin's tag, so going
        // between the two loses nothing.
        (Value::Blob(blob), FieldKind::CustomBlob { kind_id }) => Value::CustomBlob {
            kind_id: kind_id.clone(),
            blob: blob.clone(),
        },
        (Value::CustomBlob { blob, .. }, FieldKind::Blob) => Value::Blob(blob.clone()),
        (Value::CustomBlob { blob, .. }, FieldKind::CustomBlob { kind_id }) => Value::CustomBlob {
            kind_id: kind_id.clone(),
            blob: blob.clone(),
        },
        // Taking an option away is retyping a field to itself with fewer
        // options: what was selected and is no longer offered is dropped.
        (Value::Selection(names), FieldKind::Selection { options, .. }) => {
            let kept = keep_offered(names, options);
            if kept.len() == 0 && names.len() > 0 {
                Value::Empty
            } else {
                Value::Selection(kept)
            }
        },
        (Value::Text(_), FieldKind::Number) => number_value(read),
        (Value::Text(text), FieldKind::Boolean) => match read_boolean(
            to_lowercase(text.as_str()).as_str(),
        ) {
            Some(b) => Value::Boolean(b),
            None => Value::Empty,
        },
        (Value::Text(text), FieldKind::Date) => match Date::parse(text.as_str()) {
            Some(date) => Value::Date(date),
            None => Value::Empty,
        },
        (Value::Text(text), FieldKind::Json) => match find_fault(text.as_str()) {
            Some(_) => Value::Empty,
            None => Value::Json(text.clone()),
        },
        (Value::Json(json), FieldKind::Text) => Value::Text(json.clone()),
        (Value::Text(text), FieldKind::Selection { options, .. }) => {
            if has_option(options, text.as_str()) {
                let mut names: Vec<String> = Vec::new();
                names.push(text.clone());
                assert(views(names@) =~= seq![text@]);
                Value::Selection(names)
            } else {
                Value::Empty
            }
        },
        (Value::Number(_), FieldKind::Text) => Value::Text(printed.to_string()),
        (Value::Number(number), FieldKind::Boolean) => Value::Boolean(!number.is_zero()),
        (Value::Boolean(b), FieldKind::Text) => Value::Text(
            if *b {
                "true".to_string()
            } else {
                "false".to_string()
            },
        ),
        (Value::Boolean(b), FieldKind::Number) => Value::Number(Number::from_bool(*b)),
        (Value::Selection(names), FieldKind::Text) => Value::Text(join(names, ", ")),
        (Value::Selection(names), FieldKind::Number) => {
            if names.len() > 0 {
                number_value(read)
            } else {
                Value::Empty
            }
        },
        (Value::Date(date), FieldKind::Text) => Value::Text(date.to_string()),
        // Everything else, such as anything at all to a blob, whose hash has to
        // come from bytes that were written, is not representable.
        _ => Value::Empty,
    }
}

} // verus!
