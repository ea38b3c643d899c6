//! Records and the values they hold.

use vstd::prelude::*;

use crate::date::{Date, DateView};
use crate::ids::{DatabaseId, FieldId, Link};
use crate::number::Number;
use crate::text::{
    copy_text, copy_texts, same_optional_text, same_text, same_texts, view_of, views,
};
use crate::timestamp::Timestamp;

verus! {

/// A blob's content hash and the filename it was stored with.
pub ghost struct BlobRefView {
    pub hash: Seq<char>,
    pub filename: Option<Seq<char>>,
}

/// A handle on stored bytes: the SHA-256 hash of the bytes in hexadecimal
/// digits, and the filename that they were first written with. Any text is
/// accepted as a hash here; whether such a blob exists is tested where the
/// handle is stored in a record.
#[derive(Debug, PartialEq, Eq)]
pub struct BlobRef {
    hash: String,
    filename: Option<String>,
}

impl View for BlobRef {
    type V = BlobRefView;

    closed spec fn view(&self) -> BlobRefView {
        BlobRefView { hash: self.hash@, filename: view_of(self.filename) }
    }
}

impl Clone for BlobRef {
    fn clone(&self) -> (copy: Self)
        ensures
            copy@ == self@,
    {
        BlobRef { hash: self.hash.clone(), filename: copy_text(&self.filename) }
    }
}

impl BlobRef {
    /// A handle without a filename.
    pub fn from_hash(hash: &str) -> (blob: Self)
        ensures
            blob@ == (BlobRefView { hash: hash@, filename: None }),
    {
        BlobRef { hash: hash.to_string(), filename: None }
    }

    /// A handle with a filename, if there is one.
    pub fn from_hash_and_filename(hash: &str, filename: Option<String>) -> (blob: Self)
        ensures
            blob@ == (BlobRefView { hash: hash@, filename: view_of(filename) }),
    {
        BlobRef { hash: hash.to_string(), filename }
    }

    /// The content hash.
    pub fn hash(&self) -> (hash: &str)
        ensures
            hash@ == self@.hash,
    {
        self.hash.as_str()
    }

    /// The filename, if there is one.
    pub fn filename(&self) -> (filename: Option<&str>)
        ensures
            view_of(filename) == self@.filename,
    {
        match &self.filename {
            Some(filename) => Some(filename.as_str()),
            None => None,
        }
    }

    /// The content hash, which is how a blob is shown.
    pub fn to_string(&self) -> (text: String)
        ensures
            text@ == self@.hash,
    {
        self.hash.clone()
    }

    /// Whether the two handles are the same.
    pub fn same(&self, other: &BlobRef) -> (same: bool)
        ensures
            same == (self@ == other@),
    {
        same_text(self.hash.as_str(), other.hash.as_str()) && same_optional_text(
            &self.filename,
            &other.filename,
        )
    }
}

/// What a field holds in a record.
#[derive(Debug, PartialEq)]
pub enum Value {
    Text(String),
    Number(Number),
    Boolean(bool),
    /// The names of the selected options.
    Selection(Vec<String>),
    Date(Date),
    /// The records referred to. Such values are read and written through
    /// references, not through a column.
    Reference(Vec<Link>),
    Blob(BlobRef),
    /// The text of a JSON document, stored verbatim.
    Json(String),
    /// Bytes that a plugin gives a meaning, stored inline.
    Custom { kind_id: String, data: Vec<u8> },
    /// A blob that a plugin gives a meaning.
    CustomBlob { kind_id: String, blob: BlobRef },
    Empty,
}

/// What a field holds in a record.
pub ghost enum ValueView {
    Text(Seq<char>),
    Number(Number),
    Boolean(bool),
    Selection(Seq<Seq<char>>),
    Date(DateView),
    Reference(Seq<Link>),
    Blob(BlobRefView),
    Json(Seq<char>),
    Custom { kind_id: Seq<char>, data: Seq<u8> },
    CustomBlob { kind_id: Seq<char>, blob: BlobRefView },
    Empty,
}

impl View for Value {
    type V = ValueView;

    open spec fn view(&self) -> ValueView {
        match self {
            Value::Text(text) => ValueView::Text(text@),
            Value::Number(number) => ValueView::Number(*number),
            Value::Boolean(b) => ValueView::Boolean(*b),
            Value::Selection(names) => ValueView::Selection(views(names@)),
            Value::Date(date) => ValueView::Date(date@),
            Value::Reference(links) => ValueView::Reference(links@),
            Value::Blob(blob) => ValueView::Blob(blob@),
            Value::Json(json) => ValueView::Json(json@),
            Value::Custom { kind_id, data } => ValueView::Custom { kind_id: kind_id@, data: data@ },
            Value::CustomBlob { kind_id, blob } => ValueView::CustomBlob {
                kind_id: kind_id@,
                blob: blob@,
            },
            Value::Empty => ValueView::Empty,
        }
    }
}

/// A copy of some bytes.
pub fn copy_bytes(bytes: &Vec<u8>) -> (copy: Vec<u8>)
    ensures
        copy@ == bytes@,
{
    let copy = bytes.clone();
    assert(copy@ =~= bytes@);
    copy
}

/// A copy of some links.
pub fn copy_links(links: &Vec<Link>) -> (copies: Vec<Link>)
    ensures
        copies@ == links@,
{
    let mut copies: Vec<Link> = Vec::new();
    let mut i: usize = 0;
    while i < links.len()
        invariant
            i <= links.len(),
            copies@ == links@.take(i as int),
        decreases links.len() - i,
    {
        copies.push(links[i]);
        i += 1;
    }
    copies
}

impl Clone for Value {
    fn clone(&self) -> (copy: Self)
        ensures
            copy@ == self@,
    {
        match self {
            Value::Text(text) => Value::Text(text.clone()),
            Value::Number(number) => Value::Number(*number),
            Value::Boolean(b) => Value::Boolean(*b),
            Value::Selection(names) => Value::Selection(copy_texts(names)),
            Value::Date(date) => Value::Date(*date),
            Value::Reference(links) => Value::Reference(copy_links(links)),
            Value::Blob(blob) => Value::Blob(blob.clone()),
            Value::Json(json) => Value::Json(json.clone()),
            Value::Custom { kind_id, data } => Value::Custom {
                kind_id: kind_id.clone(),
                data: copy_bytes(data),
            },
            Value::CustomBlob { kind_id, blob } => Value::CustomBlob {
                kind_id: kind_id.clone(),
                blob: blob.clone(),
            },
            Value::Empty => Value::Empty,
        }
    }
}

/// Whether two values count as equal when records are looked up by value:
/// numbers compare numerically, blobs by their content hash alone, everything
/// else by its contents.
pub open spec fn values_match(a: ValueView, b: ValueView) -> bool {
    match (a, b) {
        (ValueView::Number(x), ValueView::Number(y)) => x.equals(y),
        (ValueView::Blob(x), ValueView::Blob(y)) => x.hash == y.hash,
        _ => a == b,
    }
}

/// Whether the two lists of bytes are the same.
fn same_bytes(a: &Vec<u8>, b: &Vec<u8>) -> (same: bool)
    ensures
        same == (a@ == b@),
{
    if a.len() != b.len() {
        return false;
    }
    let mut i: usize = 0;
    while i < a.len()
        invariant
            a.len() == b.len(),
            i <= a.len(),
            forall|j: int| 0 <= j < i ==> a@[j] == b@[j],
        decreases a.len() - i,
    {
        if a[i] != b[i] {
            return false;
        }
        i += 1;
    }
    assert(a@ =~= b@);
    true
}

/// Whether the two lists of links are the same.
fn same_links(a: &Vec<Link>, b: &Vec<Link>) -> (same: bool)
    ensures
        same == (a@ == b@),
{
    if a.len() != b.len() {
        return false;
    }
    let mut i: usize = 0;
    while i < a.len()
        invariant
            a.len() == b.len(),
            i <= a.len(),
            forall|j: int| 0 <= j < i ==> a@[j] == b@[j],
        decreases a.len() - i,
    {
        if a[i] != b[i] {
            return false;
        }
        i += 1;
    }
    assert(a@ =~= b@);
    true
}

impl Value {
    /// Whether the two values count as equal when records are looked up by
    /// value.
    pub fn matches(&self, other: &Value) -> (matches: bool)
        ensures
            matches == values_match(self@, other@),
    {
        match (self, other) {
            (Value::Text(a), Value::Text(b)) => same_text(a.as_str(), b.as_str()),
            (Value::Number(a), Value::Number(b)) => a.same(b),
            (Value::Boolean(a), Value::Boolean(b)) => *a == *b,
            (Value::Selection(a), Value::Selection(b)) => same_texts(a, b),
            (Value::Date(a), Value::Date(b)) => a.same(b),
            (Value::Reference(a), Value::Reference(b)) => same_links(a, b),
            (Value::Blob(a), Value::Blob(b)) => same_text(a.hash(), b.hash()),
            (Value::Json(a), Value::Json(b)) => same_text(a.as_str(), b.as_str()),
            (
                Value::Custom { kind_id: a, data: data_a },
                Value::Custom { kind_id: b, data: data_b },
            ) => same_text(a.as_str(), b.as_str()) && same_bytes(data_a, data_b),
            (
                Value::CustomBlob { kind_id: a, blob: blob_a },
                Value::CustomBlob { kind_id: b, blob: blob_b },
            ) => same_text(a.as_str(), b.as_str()) && blob_a.same(blob_b),
            (Value::Empty, Value::Empty) => true,
            _ => false,
        }
    }

    /// Whether the value is the empty one.
    pub fn is_empty(&self) -> (empty: bool)
        ensures
            empty == (self@ == ValueView::Empty),
    {
        match self {
            Value::Empty => true,
            _ => false,
        }
    }
}

/// Where the value of `field` stands among the entries.
pub open spec fn entry_at(entries: Seq<(FieldId, Value)>, field: FieldId, i: int) -> bool {
    0 <= i < entries.len() && entries[i].0 == field
}

/// The entries as a map. Later sections only build entries with every field
/// at most once.
pub open spec fn entries_map(entries: Seq<(FieldId, Value)>) -> Map<FieldId, ValueView> {
    Map::new(
        |field: FieldId| exists|i: int| entry_at(entries, field, i),
        |field: FieldId| entries[choose|i: int| entry_at(entries, field, i)].1@,
    )
}

/// Whether no field occurs twice.
pub open spec fn entries_distinct(entries: Seq<(FieldId, Value)>) -> bool {
    forall|i: int, j: int|
        0 <= i < j < entries.len() ==> (#[trigger] entries[i]).0 != (#[trigger] entries[j]).0
}

proof fn entries_map_at(entries: Seq<(FieldId, Value)>, i: int)
    requires
        entries_distinct(entries),
        0 <= i < entries.len(),
    ensures
        entries_map(entries).dom().contains(entries[i].0),
        entries_map(entries)[entries[i].0] == entries[i].1@,
{
    let field = entries[i].0;
    assert(entry_at(entries, field, i));
    let j = choose|j: int| entry_at(entries, field, j);
    assert(j == i);
}

/// The values of a record, by field.
#[derive(Debug)]
pub struct Values {
    entries: Vec<(FieldId, Value)>,
}

impl View for Values {
    type V = Map<FieldId, ValueView>;

    closed spec fn view(&self) -> Map<FieldId, ValueView> {
        entries_map(self.entries@)
    }
}

impl Values {
    #[verifier::type_invariant]
    spec fn well_formed(self) -> bool {
        entries_distinct(self.entries@)
    }

    /// No values.
    pub fn new() -> (values: Self)
        ensures
            values@ == Map::<FieldId, ValueView>::empty(),
    {
        let values = Values { entries: Vec::new() };
        assert(values@ =~= Map::<FieldId, ValueView>::empty());
        values
    }

    /// The value of a field, if it has one.
    pub fn get(&self, field: &FieldId) -> (value: Option<&Value>)
        ensures
            match value {
                Some(value) => self@.dom().contains(*field) && self@[*field] == value@,
                None => !self@.dom().contains(*field),
            },
    {
        proof {
            use_type_invariant(self);
        }
        let mut i: usize = 0;
        while i < self.entries.len()
            invariant
                entries_distinct(self.entries@),
                i <= self.entries.len(),
                forall|j: int| 0 <= j < i ==> (#[trigger] self.entries@[j]).0 != *field,
            decreases self.entries.len() - i,
        {
            if self.entries[i].0 == *field {
                proof {
                    entries_map_at(self.entries@, i as int);
                }
                return Some(&self.entries[i].1);
            }
            i += 1;
        }
        None
    }

    /// Gives a field a value, in place of the one it had.
    pub fn insert(&mut self, field: FieldId, value: Value)
        ensures
            final(self)@ == old(self)@.insert(field, value@),
    {
        proof {
            use_type_invariant(&*self);
        }
        let ghost before = self.entries@;
        let mut entries: Vec<(FieldId, Value)> = Vec::new();
        std::mem::swap(&mut entries, &mut self.entries);
        let mut i: usize = 0;
        while i < entries.len() && entries[i].0 != field
            invariant
                entries@ == before,
                i <= entries.len(),
                forall|j: int| 0 <= j < i ==> (#[trigger] entries@[j]).0 != field,
            decreases entries.len() - i,
        {
            i += 1;
        }
        if i < entries.len() {
            entries.set(i, (field, value));
            proof {
                let after = entries@;
                assert forall|id: FieldId| #[trigger]
                    entries_map(after).dom().contains(id) == entries_map(before).insert(
                        field,
                        value@,
                    ).dom().contains(id) by {
                    if exists|k: int| entry_at(after, id, k) {
                        let k = choose|k: int| entry_at(after, id, k);
                        assert(entry_at(before, id, k));
                    }
                    if exists|k: int| entry_at(before, id, k) {
                        let k = choose|k: int| entry_at(before, id, k);
                        assert(entry_at(after, id, k));
                    }
                    if id == field {
                        assert(entry_at(after, id, i as int));
                    }
                }
                assert forall|id: FieldId| #[trigger]
                    entries_map(after).dom().contains(id) implies entries_map(after)[id]
                    == entries_map(before).insert(field, value@)[id] by {
                    let k = choose|k: int| entry_at(after, id, k);
                    entries_map_at(after, k);
                    entries_map_at(before, k);
                }
                assert(entries_map(after) =~= entries_map(before).insert(field, value@));
            }
        } else {
            entries.push((field, value));
            proof {
                let after = entries@;
                assert forall|id: FieldId| #[trigger]
                    entries_map(after).dom().contains(id) == entries_map(before).insert(
                        field,
                        value@,
                    ).dom().contains(id) by {
                    if exists|k: int| entry_at(after, id, k) {
                        let k = choose|k: int| entry_at(after, id, k);
                        if k < before.len() {
                            assert(entry_at(before, id, k));
                        }
                    }
                    if exists|k: int| entry_at(before, id, k) {
                        let k = choose|k: int| entry_at(before, id, k);
                        assert(entry_at(after, id, k));
                    }
                    if id == field {
                        assert(entry_at(after, id, before.len() as int));
                    }
                }
                assert forall|id: FieldId| #[trigger]
                    entries_map(after).dom().contains(id) implies entries_map(after)[id]
                    == entries_map(before).insert(field, value@)[id] by {
                    let k = choose|k: int| entry_at(after, id, k);
                    entries_map_at(after, k);
                    if k < before.len() {
                        entries_map_at(before, k);
                    }
                }
                assert(entries_map(after) =~= entries_map(before).insert(field, value@));
            }
        }
        self.entries = entries;
    }
}

impl Values {
    /// The fields that have a value, each of them once.
    pub fn fields(&self) -> (fields: Vec<FieldId>)
        ensures
            fields@.no_duplicates(),
            forall|field: FieldId| #[trigger]
                fields@.contains(field) == self@.dom().contains(field),
    {
        proof {
            use_type_invariant(self);
        }
        let mut fields: Vec<FieldId> = Vec::new();
        let mut i: usize = 0;
        while i < self.entries.len()
            invariant
                i <= self.entries.len(),
                fields.len() == i,
                forall|j: int| 0 <= j < i ==> fields@[j] == (#[trigger] self.entries@[j]).0,
            decreases self.entries.len() - i,
        {
            fields.push(self.entries[i].0);
            i += 1;
        }
        proof {
            let entries = self.entries@;
            assert forall|a: int, b: int|
                0 <= a < fields@.len() && 0 <= b < fields@.len() && a != b implies fields@[a]
                != fields@[b] by {
                assert(fields@[a] == entries[a].0 && fields@[b] == entries[b].0);
            }
            assert forall|field: FieldId| #[trigger]
                fields@.contains(field) == self@.dom().contains(field) by {
                if fields@.contains(field) {
                    let j = choose|j: int| 0 <= j < fields@.len() && fields@[j] == field;
                    assert(entries[j].0 == field);
                    assert(entry_at(entries, field, j));
                }
                if self@.dom().contains(field) {
                    let j = choose|j: int| entry_at(entries, field, j);
                    assert(fields@[j] == entries[j].0);
                }
            }
        }
        fields
    }
}

impl Clone for Values {
    fn clone(&self) -> (copy: Self)
        ensures
            copy@ == self@,
    {
        let fields = self.fields();
        let ghost values = self@;
        let mut copy = Values::new();
        let mut i: usize = 0;
        while i < fields.len()
            invariant
                i <= fields.len(),
                values == self@,
                forall|field: FieldId| #[trigger]
                    fields@.contains(field) == values.dom().contains(field),
                forall|field: FieldId| #[trigger]
                    copy@.dom().contains(field) == fields@.take(i as int).contains(field),
                forall|field: FieldId| #[trigger]
                    copy@.dom().contains(field) ==> copy@[field] == values[field],
            decreases fields.len() - i,
        {
            let field = fields[i];
            assert(fields@.contains(field));
            let ghost before = copy@;
            match self.get(&field) {
                Some(value) => {
                    copy.insert(field, value.clone());
                },
                None => {},
            }
            proof {
                let some = fields@.take(i as int);
                let more = fields@.take(i + 1);
                assert forall|other: FieldId| #[trigger]
                    copy@.dom().contains(other) == more.contains(other) by {
                    assert(more =~= some.push(field));
                    if some.contains(other) {
                        let j = choose|j: int| 0 <= j < some.len() && some[j] == other;
                        assert(more[j] == other);
                    }
                    if other == field {
                        assert(more[i as int] == field);
                    }
                    if more.contains(other) && other != field {
                        let j = choose|j: int| 0 <= j < more.len() && more[j] == other;
                        assert(some[j] == other);
                    }
                    assert(before.dom().contains(other) == some.contains(other));
                }
            }
            i += 1;
        }
        assert(fields@.take(fields.len() as int) =~= fields@);
        assert forall|field: FieldId| #[trigger]
            copy@.dom().contains(field) == values.dom().contains(field) by {
            assert(fields@.contains(field) == values.dom().contains(field));
        }
        assert(copy@ =~= values);
        copy
    }
}

/// A record: its identity, where it belongs, and its values.
#[derive(Debug)]
pub struct Record {
    pub link: Link,
    pub database_id: DatabaseId,
    pub values: Values,
    pub created_at: Timestamp,
    pub updated_at: Timestamp,
}

/// A record: its identity, where it belongs, and its values.
pub ghost struct RecordView {
    pub link: Link,
    pub database_id: DatabaseId,
    pub values: Map<FieldId, ValueView>,
    pub created_at: Timestamp,
    pub updated_at: Timestamp,
}

impl View for Record {
    type V = RecordView;

    open spec fn view(&self) -> RecordView {
        RecordView {
            link: self.link,
            database_id: self.database_id,
            values: self.values@,
            created_at: self.created_at,
            updated_at: self.updated_at,
        }
    }
}

impl Clone for Record {
    fn clone(&self) -> (copy: Self)
        ensures
            copy@ == self@,
    {
        Record {
            link: self.link,
            database_id: self.database_id,
            values: self.values.clone(),
            created_at: self.created_at,
            updated_at: self.updated_at,
        }
    }
}

} // verus!
