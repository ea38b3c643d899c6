//! The types that cross the boundary, and their conversion from and to the
//! store's own.

use vstd::prelude::*;
use vstd::string::StringExecFns;

use crate::codec::column_value;
use crate::date::{date_reading, Date};
use crate::ffi::error::{DataLineError, TextErrorView};
use crate::ffi::parse::{blob_ref_from_hash, id_read, id_text_reads_back, parse_database_id, parse_link};
use crate::ids::{DatabaseId, FieldId, Link};
use crate::number::Number;
use crate::record::{BlobRefView, ValueView};
use crate::registry::unpaired;
use crate::schema::{FieldKindView, FieldView, SelectionOptionView};
use crate::text::{view_of, views};
use crate::timestamp::rfc3339_text;
use crate::uuids::uuid_text;

verus! {

/// One of the choices of a selection field.
#[derive(Debug, PartialEq)]
pub struct SelectionOption {
    pub name: String,
    pub color: String,
}

impl View for SelectionOption {
    type V = SelectionOptionView;

    open spec fn view(&self) -> SelectionOptionView {
        SelectionOptionView { name: self.name@, color: self.color@ }
    }
}

/// What kind of value a field holds.
#[derive(Debug, PartialEq)]
pub enum FieldKind {
    Text,
    Number,
    Boolean,
    Selection { multi: bool, options: Vec<SelectionOption> },
    Date,
    /// `target_database` is a database id. `paired_field` is ignored on the way
    /// in: pairing is established by the store.
    Reference { target_database: String, paired_field: Option<String> },
    Blob,
    Json,
    Custom { kind_id: String },
    CustomBlob { kind_id: String },
}

/// What kind of value a field holds, with ids as text.
pub ghost enum TextKindView {
    Text,
    Number,
    Boolean,
    Selection { multi: bool, options: Seq<SelectionOptionView> },
    Date,
    Reference { target_database: Seq<char>, paired_field: Option<Seq<char>> },
    Blob,
    Json,
    Custom { kind_id: Seq<char> },
    CustomBlob { kind_id: Seq<char> },
}

impl View for FieldKind {
    type V = TextKindView;

    open spec fn view(&self) -> TextKindView {
        match self {
            FieldKind::Text => TextKindView::Text,
            FieldKind::Number => TextKindView::Number,
            FieldKind::Boolean => TextKindView::Boolean,
            FieldKind::Selection { multi, options } => TextKindView::Selection {
                multi: *multi,
                options: views(options@),
            },
            FieldKind::Date => TextKindView::Date,
            FieldKind::Reference { target_database, paired_field } => TextKindView::Reference {
                target_database: target_database@,
                paired_field: view_of(*paired_field),
            },
            FieldKind::Blob => TextKindView::Blob,
            FieldKind::Json => TextKindView::Json,
            FieldKind::Custom { kind_id } => TextKindView::Custom { kind_id: kind_id@ },
            FieldKind::CustomBlob { kind_id } => TextKindView::CustomBlob { kind_id: kind_id@ },
        }
    }
}

/// A field of a database.
#[derive(Debug, PartialEq)]
pub struct FieldDefinition {
    pub id: String,
    pub name: String,
    pub kind: FieldKind,
    pub ordering: i32,
}

/// A field of a database, with its id as text.
pub ghost struct TextFieldView {
    pub id: Seq<char>,
    pub name: Seq<char>,
    pub kind: TextKindView,
    pub ordering: i32,
}

impl View for FieldDefinition {
    type V = TextFieldView;

    open spec fn view(&self) -> TextFieldView {
        TextFieldView { id: self.id@, name: self.name@, kind: self.kind@, ordering: self.ordering }
    }
}

/// A database: a name and the fields that all its records share.
#[derive(Debug, PartialEq)]
pub struct Database {
    pub id: String,
    pub name: String,
    pub fields: Vec<FieldDefinition>,
}

/// What a field holds in a record.
#[derive(Debug, PartialEq)]
pub enum Value {
    Text(String),
    Number(Number),
    Boolean(bool),
    Selection(Vec<String>),
    /// `"YYYY-MM-DD"`.
    Date(String),
    /// Links.
    Reference(Vec<String>),
    /// A blob's content hash.
    Blob(String),
    Json(String),
    Custom { kind_id: String, data: Vec<u8> },
    CustomBlob { kind_id: String, hash: String },
    Empty,
}

/// What a field holds in a record, with links and dates as text.
pub ghost enum TextValueView {
    Text(Seq<char>),
    Number(Number),
    Boolean(bool),
    Selection(Seq<Seq<char>>),
    Date(Seq<char>),
    Reference(Seq<Seq<char>>),
    Blob(Seq<char>),
    Json(Seq<char>),
    Custom { kind_id: Seq<char>, data: Seq<u8> },
    CustomBlob { kind_id: Seq<char>, hash: Seq<char> },
    Empty,
}

impl View for Value {
    type V = TextValueView;

    open spec fn view(&self) -> TextValueView {
        match self {
            Value::Text(text) => TextValueView::Text(text@),
            Value::Number(number) => TextValueView::Number(*number),
            Value::Boolean(b) => TextValueView::Boolean(*b),
            Value::Selection(names) => TextValueView::Selection(views(names@)),
            Value::Date(date) => TextValueView::Date(date@),
            Value::Reference(links) => TextValueView::Reference(views(links@)),
            Value::Blob(hash) => TextValueView::Blob(hash@),
            Value::Json(json) => TextValueView::Json(json@),
            Value::Custom { kind_id, data } => TextValueView::Custom {
                kind_id: kind_id@,
                data: data@,
            },
            Value::CustomBlob { kind_id, hash } => TextValueView::CustomBlob {
                kind_id: kind_id@,
                hash: hash@,
            },
            Value::Empty => TextValueView::Empty,
        }
    }
}

/// A record, with every field that has a value once.
#[derive(Debug)]
pub struct Record {
    pub link: String,
    pub database_id: String,
    pub values: Vec<(String, Value)>,
    /// In the form of RFC 3339.
    pub created_at: String,
    /// In the form of RFC 3339.
    pub updated_at: String,
}

/// One relationship between two records, seen from one of them.
#[derive(Debug, PartialEq)]
pub struct Reference {
    pub id: String,
    pub source_link: String,
    pub source_field: String,
    pub target_link: String,
    pub target_field: String,
}

/// Which records lost a value when a field was given another kind.
#[derive(Debug, PartialEq)]
pub struct RetypeReport {
    pub cleared_links: Vec<String>,
}

/// The texts of links.
pub open spec fn link_texts(links: Seq<Link>) -> Seq<Seq<char>> {
    links.map_values(|link: Link| uuid_text(link.0))
}

/// The texts of links.
pub fn show_links(links: &Vec<Link>) -> (texts: Vec<String>)
    ensures
        views(texts@) == link_texts(links@),
{
    let mut texts: Vec<String> = Vec::new();
    let mut i: usize = 0;
    while i < links.len()
        invariant
            i <= links.len(),
            texts.len() == i,
            forall|j: int| 0 <= j < i ==> (#[trigger] texts@[j])@ == uuid_text(links@[j].0),
        decreases links.len() - i,
    {
        texts.push(links[i].to_string());
        i += 1;
    }
    assert(views(texts@) =~= link_texts(links@));
    texts
}

/// The report of a retype.
pub fn retype_report_from_core(report: crate::store::RetypeReport) -> (shown: RetypeReport)
    ensures
        views(shown.cleared_links@) == link_texts(report.cleared_links@),
{
    RetypeReport { cleared_links: show_links(&report.cleared_links) }
}

/// One of the choices of a selection field.
pub fn selection_option_from_core(option: crate::schema::SelectionOption) -> (shown: SelectionOption)
    ensures
        shown@ == option@,
{
    SelectionOption { name: option.name, color: option.color }
}

/// One of the choices of a selection field.
pub fn selection_option_to_core(option: SelectionOption) -> (own: crate::schema::SelectionOption)
    ensures
        own@ == option@,
{
    crate::schema::SelectionOption { name: option.name, color: option.color }
}

/// A kind with ids as text.
pub open spec fn kind_shown(kind: FieldKindView) -> TextKindView {
    match kind {
        FieldKindView::Text => TextKindView::Text,
        FieldKindView::Number => TextKindView::Number,
        FieldKindView::Boolean => TextKindView::Boolean,
        FieldKindView::Selection { multi, options } => TextKindView::Selection { multi, options },
        FieldKindView::Date => TextKindView::Date,
        FieldKindView::Reference { target_database, paired_field } => TextKindView::Reference {
            target_database: uuid_text(target_database.0),
            paired_field: match paired_field {
                Some(pair) => Some(uuid_text(pair.0)),
                None => None,
            },
        },
        FieldKindView::Blob => TextKindView::Blob,
        FieldKindView::Json => TextKindView::Json,
        FieldKindView::Custom { kind_id } => TextKindView::Custom { kind_id },
        FieldKindView::CustomBlob { kind_id } => TextKindView::CustomBlob { kind_id },
    }
}

/// The kind that a kind with ids as text stands for, without a pair, or what is
/// wrong with its ids.
pub open spec fn kind_read(kind: TextKindView) -> Result<FieldKindView, TextErrorView> {
    match kind {
        TextKindView::Text => Ok(FieldKindView::Text),
        TextKindView::Number => Ok(FieldKindView::Number),
        TextKindView::Boolean => Ok(FieldKindView::Boolean),
        TextKindView::Selection { multi, options } => Ok(
            FieldKindView::Selection { multi, options },
        ),
        TextKindView::Date => Ok(FieldKindView::Date),
        TextKindView::Reference { target_database, .. } => match id_read(target_database) {
            Ok(id) => Ok(
                FieldKindView::Reference { target_database: DatabaseId(id), paired_field: None },
            ),
            Err(error) => Err(error),
        },
        TextKindView::Blob => Ok(FieldKindView::Blob),
        TextKindView::Json => Ok(FieldKindView::Json),
        TextKindView::Custom { kind_id } => Ok(FieldKindView::Custom { kind_id }),
        TextKindView::CustomBlob { kind_id } => Ok(FieldKindView::CustomBlob { kind_id }),
    }
}

/// A kind that goes out and comes in again is what it was, but for its pair,
/// which only the store establishes.
pub proof fn kind_comes_back(kind: FieldKindView)
    ensures
        kind_read(kind_shown(kind)) == Ok::<FieldKindView, TextErrorView>(unpaired(kind)),
{
    if let FieldKindView::Reference { target_database, .. } = kind {
        id_text_reads_back(target_database.0);
    }
}

fn options_from_core(options: &Vec<crate::schema::SelectionOption>) -> (shown: Vec<SelectionOption>)
    ensures
        views(shown@) == views(options@),
{
    let mut shown: Vec<SelectionOption> = Vec::new();
    let mut i: usize = 0;
    while i < options.len()
        invariant
            i <= options.len(),
            shown.len() == i,
            forall|j: int| 0 <= j < i ==> (#[trigger] shown@[j])@ == options@[j]@,
        decreases options.len() - i,
    {
        shown.push(selection_option_from_core(options[i].clone()));
        i += 1;
    }
    assert(views(shown@) =~= views(options@));
    shown
}

fn options_to_core(options: &Vec<SelectionOption>) -> (own: Vec<crate::schema::SelectionOption>)
    ensures
        views(own@) == views(options@),
{
    let mut own: Vec<crate::schema::SelectionOption> = Vec::new();
    let mut i: usize = 0;
    while i < options.len()
        invariant
            i <= options.len(),
            own.len() == i,
            forall|j: int| 0 <= j < i ==> (#[trigger] own@[j])@ == options@[j]@,
        decreases options.len() - i,
    {
        let option = SelectionOption {
            name: options[i].name.clone(),
            color: options[i].color.clone(),
        };
        own.push(selection_option_to_core(option));
        i += 1;
    }
    assert(views(own@) =~= views(options@));
    own
}

/// A kind with ids as text.
pub fn field_kind_from_core(kind: crate::schema::FieldKind) -> (shown: FieldKind)
    ensures
        shown@ == kind_shown(kind@),
{
    match kind {
        crate::schema::FieldKind::Text => FieldKind::Text,
        crate::schema::FieldKind::Number => FieldKind::Number,
        crate::schema::FieldKind::Boolean => FieldKind::Boolean,
        crate::schema::FieldKind::Date => FieldKind::Date,
        crate::schema::FieldKind::Blob => FieldKind::Blob,
        crate::schema::FieldKind::Json => FieldKind::Json,
        crate::schema::FieldKind::Custom { kind_id } => FieldKind::Custom { kind_id },
        crate::schema::FieldKind::CustomBlob { kind_id } => FieldKind::CustomBlob { kind_id },
        crate::schema::FieldKind::Selection { multi, options } => FieldKind::Selection {
            multi,
            options: options_from_core(&options),
        },
        crate::schema::FieldKind::Reference { target_database, paired_field } =>
            FieldKind::Reference {
            target_database: target_database.to_string(),
            paired_field: match paired_field {
                Some(pair) => Some(pair.to_string()),
                None => None,
            },
        },
    }
}

/// The kind that a kind with ids as text stands for. A pair is not taken over.
pub fn field_kind_to_core(kind: FieldKind) -> (own: Result<crate::schema::FieldKind, DataLineError>)
    ensures
        match own {
            Ok(own) => kind_read(kind@) == Ok::<FieldKindView, TextErrorView>(own@),
            Err(error) => kind_read(kind@) == Err::<FieldKindView, TextErrorView>(error@),
        },
{
    match kind {
        FieldKind::Text => Ok(crate::schema::FieldKind::Text),
        FieldKind::Number => Ok(crate::schema::FieldKind::Number),
        FieldKind::Boolean => Ok(crate::schema::FieldKind::Boolean),
        FieldKind::Date => Ok(crate::schema::FieldKind::Date),
        FieldKind::Blob => Ok(crate::schema::FieldKind::Blob),
        FieldKind::Json => Ok(crate::schema::FieldKind::Json),
        FieldKind::Custom { kind_id } => Ok(crate::schema::FieldKind::Custom { kind_id }),
        FieldKind::CustomBlob { kind_id } => Ok(crate::schema::FieldKind::CustomBlob { kind_id }),
        FieldKind::Selection { multi, options } => Ok(
            crate::schema::FieldKind::Selection { multi, options: options_to_core(&options) },
        ),
        FieldKind::Reference { target_database, .. } => match parse_database_id(
            target_database.as_str(),
        ) {
            Ok(target_database) => Ok(
                crate::schema::FieldKind::Reference { target_database, paired_field: None },
            ),
            Err(error) => Err(error),
        },
    }
}

/// A field with its id as text.
pub open spec fn field_shown(field: FieldView) -> TextFieldView {
    TextFieldView {
        id: uuid_text(field.id.0),
        name: field.name,
        kind: kind_shown(field.kind),
        ordering: field.ordering,
    }
}

/// A field with its id as text.
pub fn field_definition_from_core(field: crate::schema::FieldDefinition) -> (shown: FieldDefinition)
    ensures
        shown@ == field_shown(field@),
{
    FieldDefinition {
        id: field.id.to_string(),
        name: field.name,
        kind: field_kind_from_core(field.kind),
        ordering: field.ordering,
    }
}

/// A database with every id as text.
pub fn database_from_core(database: &crate::schema::Database) -> (shown: Database)
    ensures
        shown.id@ == uuid_text(database@.id.0),
        shown.name@ == database@.name,
        views(shown.fields@) == database@.fields.map_values(|field: FieldView| field_shown(field)),
{
    let mut fields: Vec<FieldDefinition> = Vec::new();
    let mut i: usize = 0;
    while i < database.fields.len()
        invariant
            i <= database.fields.len(),
            fields.len() == i,
            forall|j: int|
                0 <= j < i ==> (#[trigger] fields@[j])@ == field_shown(database.fields@[j]@),
        decreases database.fields.len() - i,
    {
        fields.push(field_definition_from_core(database.fields[i].clone()));
        i += 1;
    }
    assert(views(fields@) =~= database@.fields.map_values(|field: FieldView| field_shown(field)));
    Database { id: database.id.to_string(), name: database.name.clone(), fields }
}

/// A value with links and dates as text. A blob is its hash alone.
pub open spec fn value_shown(value: ValueView) -> TextValueView {
    match value {
        ValueView::Text(text) => TextValueView::Text(text),
        ValueView::Number(number) => TextValueView::Number(number),
        ValueView::Boolean(b) => TextValueView::Boolean(b),
        ValueView::Selection(names) => TextValueView::Selection(names),
        ValueView::Date(date) => TextValueView::Date(date.text()),
        ValueView::Reference(links) => TextValueView::Reference(link_texts(links)),
        ValueView::Blob(blob) => TextValueView::Blob(blob.hash),
        ValueView::Json(json) => TextValueView::Json(json),
        ValueView::Custom { kind_id, data } => TextValueView::Custom { kind_id, data },
        ValueView::CustomBlob { kind_id, blob } => TextValueView::CustomBlob {
            kind_id,
            hash: blob.hash,
        },
        ValueView::Empty => TextValueView::Empty,
    }
}

/// The links that texts stand for, or what is wrong with the first bad one.
pub open spec fn links_parsed(texts: Seq<Seq<char>>) -> Result<Seq<Link>, TextErrorView>
    decreases texts.len(),
{
    if texts.len() == 0 {
        Ok(Seq::empty())
    } else {
        match links_parsed(texts.drop_last()) {
            Ok(links) => match id_read(texts.last()) {
                Ok(id) => Ok(links.push(Link(id))),
                Err(error) => Err(error),
            },
            Err(error) => Err(error),
        }
    }
}

proof fn bad_link_stays(texts: Seq<Seq<char>>, n: int)
    requires
        0 <= n <= texts.len(),
        links_parsed(texts.take(n)) is Err,
    ensures
        links_parsed(texts) == links_parsed(texts.take(n)),
    decreases texts.len() - n,
{
    if n == texts.len() {
        assert(texts.take(n) =~= texts);
    } else {
        assert(texts.take(n + 1).drop_last() =~= texts.take(n));
        bad_link_stays(texts, n + 1);
    }
}

proof fn links_come_back(links: Seq<Link>)
    ensures
        links_parsed(link_texts(links)) == Ok::<Seq<Link>, TextErrorView>(links),
    decreases links.len(),
{
    if links.len() == 0 {
        assert(link_texts(links) =~= Seq::empty());
        assert(links =~= Seq::empty());
    } else {
        links_come_back(links.drop_last());
        assert(link_texts(links).drop_last() =~= link_texts(links.drop_last()));
        id_text_reads_back(links.last().0);
        assert(links.drop_last().push(links.last()) =~= links);
    }
}

/// The value that a value with links and dates as text stands for, or what is
/// wrong with it.
pub open spec fn value_read(value: TextValueView) -> Result<ValueView, TextErrorView> {
    match value {
        TextValueView::Text(text) => Ok(ValueView::Text(text)),
        TextValueView::Number(number) => Ok(ValueView::Number(number)),
        TextValueView::Boolean(b) => Ok(ValueView::Boolean(b)),
        TextValueView::Selection(names) => Ok(ValueView::Selection(names)),
        TextValueView::Date(text) => match date_reading(text) {
            Some(date) => Ok(ValueView::Date(date)),
            None => Err(TextErrorView::Storage { message: "invalid date: "@ + text }),
        },
        TextValueView::Reference(texts) => match links_parsed(texts) {
            Ok(links) => Ok(ValueView::Reference(links)),
            Err(error) => Err(error),
        },
        TextValueView::Blob(hash) => Ok(ValueView::Blob(BlobRefView { hash, filename: None })),
        TextValueView::Json(json) => Ok(ValueView::Json(json)),
        TextValueView::Custom { kind_id, data } => Ok(ValueView::Custom { kind_id, data }),
        TextValueView::CustomBlob { kind_id, hash } => Ok(
            ValueView::CustomBlob { kind_id, blob: BlobRefView { hash, filename: None } },
        ),
        TextValueView::Empty => Ok(ValueView::Empty),
    }
}

/// A value with links and dates as text. Coming in again it is what it was, but
/// for a blob's filename, which is kept with the blob.
pub fn value_from_core(value: crate::record::Value) -> (shown: Value)
    ensures
        shown@ == value_shown(value@),
        value_read(shown@) == Ok::<ValueView, TextErrorView>(column_value(value@)),
{
    match value {
        crate::record::Value::Text(text) => Value::Text(text),
        crate::record::Value::Number(number) => Value::Number(number),
        crate::record::Value::Boolean(b) => Value::Boolean(b),
        crate::record::Value::Selection(names) => Value::Selection(names),
        crate::record::Value::Date(date) => Value::Date(date.to_string()),
        crate::record::Value::Reference(links) => {
            proof {
                links_come_back(links@);
            }
            Value::Reference(show_links(&links))
        },
        crate::record::Value::Blob(blob) => Value::Blob(blob.hash().to_string()),
        crate::record::Value::Json(json) => Value::Json(json),
        crate::record::Value::Custom { kind_id, data } => Value::Custom { kind_id, data },
        crate::record::Value::CustomBlob { kind_id, blob } => Value::CustomBlob {
            kind_id,
            hash: blob.hash().to_string(),
        },
        crate::record::Value::Empty => Value::Empty,
    }
}

fn parse_links(texts: &Vec<String>) -> (links: Result<Vec<Link>, DataLineError>)
    ensures
        match links {
            Ok(links) => links_parsed(views(texts@)) == Ok::<Seq<Link>, TextErrorView>(links@),
            Err(error) => links_parsed(views(texts@)) == Err::<Seq<Link>, TextErrorView>(error@),
        },
{
    let ghost all = views(texts@);
    let mut links: Vec<Link> = Vec::new();
    let mut i: usize = 0;
    while i < texts.len()
        invariant
            i <= texts.len(),
            all == views(texts@),
            links_parsed(all.take(i as int)) == Ok::<Seq<Link>, TextErrorView>(links@),
        decreases texts.len() - i,
    {
        assert(all.take(i + 1).drop_last() =~= all.take(i as int));
        match parse_link(texts[i].as_str()) {
            Ok(link) => {
                links.push(link);
            },
            Err(error) => {
                proof {
                    bad_link_stays(all, i + 1);
                }
                return Err(error);
            },
        }
        i += 1;
    }
    assert(all.take(texts.len() as int) =~= all);
    Ok(links)
}

/// The value that a value with links and dates as text stands for.
pub fn value_to_core(value: Value) -> (own: Result<crate::record::Value, DataLineError>)
    ensures
        match own {
            Ok(own) => value_read(value@) == Ok::<ValueView, TextErrorView>(own@),
            Err(error) => value_read(value@) == Err::<ValueView, TextErrorView>(error@),
        },
{
    match value {
        Value::Text(text) => Ok(crate::record::Value::Text(text)),
        Value::Number(number) => Ok(crate::record::Value::Number(number)),
        Value::Boolean(b) => Ok(crate::record::Value::Boolean(b)),
        Value::Selection(names) => Ok(crate::record::Value::Selection(names)),
        Value::Date(text) => match Date::parse(text.as_str()) {
            Some(date) => Ok(crate::record::Value::Date(date)),
            None => Err(
                DataLineError::Storage {
                    message: "invalid date: ".to_string().concat(text.as_str()),
                },
            ),
        },
        Value::Reference(texts) => match parse_links(&texts) {
            Ok(links) => Ok(crate::record::Value::Reference(links)),
            Err(error) => Err(error),
        },
        Value::Blob(hash) => Ok(crate::record::Value::Blob(blob_ref_from_hash(hash, None))),
        Value::Json(json) => Ok(crate::record::Value::Json(json)),
        Value::Custom { kind_id, data } => Ok(crate::record::Value::Custom { kind_id, data }),
        Value::CustomBlob { kind_id, hash } => Ok(
            crate::record::Value::CustomBlob { kind_id, blob: blob_ref_from_hash(hash, None) },
        ),
        Value::Empty => Ok(crate::record::Value::Empty),
    }
}

/// Whether the list shows every value of a record once, under the text of its
/// field's id.
pub open spec fn shows_values(
    list: Seq<(String, Value)>,
    values: Map<FieldId, ValueView>,
    fields: Seq<FieldId>,
) -> bool {
    &&& fields.no_duplicates()
    &&& forall|field: FieldId| #[trigger] fields.contains(field) == values.dom().contains(field)
    &&& list.len() == fields.len()
    &&& forall|i: int|
        0 <= i < list.len() ==> (#[trigger] list[i]).0@ == uuid_text(fields[i].0) && list[i].1@
            == value_shown(values[fields[i]])
}

/// Whether the list shows every value of a record once.
pub open spec fn shows_record(list: Seq<(String, Value)>, values: Map<FieldId, ValueView>) -> bool {
    exists|fields: Seq<FieldId>| #[trigger] shows_values(list, values, fields)
}

/// A record with ids, links, dates and times as text.
pub fn record_from_core(record: crate::record::Record) -> (shown: Record)
    ensures
        shown.link@ == uuid_text(record@.link.0),
        shown.database_id@ == uuid_text(record@.database_id.0),
        shows_record(shown.values@, record@.values),
        shown.created_at@ == rfc3339_text(
            record@.created_at.spec_seconds(),
            record@.created_at.spec_nanoseconds(),
        ),
        shown.updated_at@ == rfc3339_text(
            record@.updated_at.spec_seconds(),
            record@.updated_at.spec_nanoseconds(),
        ),
{
    let fields = record.values.fields();
    let ghost values = record.values@;
    let mut list: Vec<(String, Value)> = Vec::new();
    let mut i: usize = 0;
    while i < fields.len()
        invariant
            i <= fields.len(),
            values == record.values@,
            forall|field: FieldId| #[trigger]
                fields@.contains(field) == values.dom().contains(field),
            list.len() == i,
            forall|j: int|
                0 <= j < i ==> (#[trigger] list@[j]).0@ == uuid_text(fields@[j].0) && list@[j].1@
                    == value_shown(values[fields@[j]]),
        decreases fields.len() - i,
    {
        let field = fields[i];
        assert(fields@.contains(field));
        let value = match record.values.get(&field) {
            Some(value) => value.clone(),
            None => crate::record::Value::Empty,
        };
        list.push((field.to_string(), value_from_core(value)));
        i += 1;
    }
    assert(shows_values(list@, values, fields@));
    Record {
        link: record.link.to_string(),
        database_id: record.database_id.to_string(),
        values: list,
        created_at: record.created_at.to_rfc3339(),
        updated_at: record.updated_at.to_rfc3339(),
    }
}

/// A relationship with every id as text.
pub fn reference_from_core(reference: crate::reference::Reference) -> (shown: Reference)
    ensures
        shown.id@ == uuid_text(reference.id.0),
        shown.source_link@ == uuid_text(reference.source_link.0),
        shown.source_field@ == uuid_text(reference.source_field.0),
        shown.target_link@ == uuid_text(reference.target_link.0),
        shown.target_field@ == uuid_text(reference.target_field.0),
{
    Reference {
        id: reference.id.to_string(),
        source_link: reference.source_link.to_string(),
        source_field: reference.source_field.to_string(),
        target_link: reference.target_link.to_string(),
        target_field: reference.target_field.to_string(),
    }
}

} // verus!
