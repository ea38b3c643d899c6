//! Operations on records: what they ask of the tables, and what becomes of the
//! answers.

use vstd::prelude::*;

use crate::codec::{
    column_value, decode_scalar_value, decoded_value, encode_scalar_value, encoded_value, reads_back,
};
use crate::error::{outcome, DataLineError, ErrorView, Result};
use crate::ids::{DatabaseId, FieldId, Link};
use crate::kind::{column_type, kind_label, label_of, parse_uuid, parsed_uuid, scalar_sql_type};
use crate::queries::{Query, QueryView};
use crate::record::{BlobRef, BlobRefView, Record, RecordView, Value, ValueView, Values};
use crate::reference::Reference;
use crate::registry::{database_of, field_error, field_in, has_database};
use crate::schema::{
    field_position_found, DatabaseView, FieldDefinition, FieldKind, FieldKindView, FieldView,
};
use crate::sql::{Cell, CellView};
use crate::steps::{Step, StepView};
use crate::store::Store;
use crate::text::{copy_text, view_of, views, views_push};
use crate::timestamp::{rfc3339_reading, Timestamp};
use crate::uuids::is_version_four;

verus! {

/// The database that a record belongs to, from the row of its link, or why it
/// cannot be told.
pub open spec fn resolved(link: Link, row: Option<Seq<char>>) -> core::result::Result<
    DatabaseId,
    ErrorView,
> {
    match row {
        Some(text) => match parsed_uuid(text) {
            Ok(id) => Ok(DatabaseId(id)),
            Err(error) => Err(error),
        },
        None => Err(ErrorView::RecordNotFound(link)),
    }
}

/// The query for the database that a record belongs to.
pub fn database_query(link: Link) -> (query: Query)
    ensures
        query@ == (QueryView::DatabaseOf { link }),
{
    Query::DatabaseOf { link }
}

/// The database that a record belongs to. `row` is what the query for it gave.
pub fn resolve_database_id(link: Link, row: &Option<String>) -> (id: Result<DatabaseId>)
    ensures
        match id {
            Ok(id) => resolved(link, view_of(*row)) == Ok::<DatabaseId, ErrorView>(id),
            Err(error) => resolved(link, view_of(*row)) == Err::<DatabaseId, ErrorView>(error@),
        },
{
    match row {
        Some(text) => match parse_uuid(text.as_str()) {
            Ok(id) => Ok(DatabaseId::from_uuid(id)),
            Err(error) => Err(error),
        },
        None => Err(DataLineError::RecordNotFound(link)),
    }
}

/// The record's database, and its field with this id, or why there is none.
pub open spec fn located_field(
    databases: Seq<DatabaseView>,
    link: Link,
    row: Option<Seq<char>>,
    field_id: FieldId,
) -> core::result::Result<(DatabaseId, FieldView), ErrorView> {
    match resolved(link, row) {
        Ok(database_id) => match field_error(databases, database_id, field_id) {
            Some(error) => Err(error),
            None => Ok((database_id, field_in(databases, database_id, field_id))),
        },
        Err(error) => Err(error),
    }
}

/// The steps that create a record.
pub open spec fn create_record_steps(database_id: DatabaseId, link: Link, now: Seq<char>) -> Seq<
    StepView,
> {
    seq![
        StepView::InsertLink { link, database_id },
        StepView::InsertRecord { database_id, link, now },
    ]
}

/// The fields that have a column.
pub open spec fn scalar_fields(fields: Seq<FieldView>) -> Seq<FieldView> {
    fields.filter(|field: FieldView| column_type(field.kind) is Some)
}

/// The reference fields.
pub open spec fn reference_fields(fields: Seq<FieldView>) -> Seq<FieldView> {
    fields.filter(|field: FieldView| field.kind is Reference)
}

/// The ids of fields.
pub open spec fn ids_of(fields: Seq<FieldView>) -> Seq<FieldId> {
    fields.map_values(|field: FieldView| field.id)
}

/// The instant that a stored time stands for.
pub open spec fn parsed_time(text: Seq<char>) -> core::result::Result<Timestamp, ErrorView> {
    match rfc3339_reading(text) {
        Ok(parts) => Ok(Timestamp::of(parts)),
        Err(message) => Err(ErrorView::Storage(message)),
    }
}

/// The instant that a stored time stands for.
pub fn parse_rfc3339(text: &str) -> (instant: Result<Timestamp>)
    ensures
        match instant {
            Ok(instant) => parsed_time(text@) == Ok::<Timestamp, ErrorView>(instant),
            Err(error) => parsed_time(text@) == Err::<Timestamp, ErrorView>(error@),
        },
{
    match Timestamp::parse(text) {
        Ok(instant) => Ok(instant),
        Err(message) => Err(DataLineError::Storage(message)),
    }
}

/// A record's row as it was read: its times, and its cells in the order of the
/// fields asked for.
#[derive(Debug)]
pub struct RecordCells {
    pub created_at: String,
    pub updated_at: String,
    pub cells: Vec<Cell>,
}

/// A record's row as it was read.
pub ghost struct RecordCellsView {
    pub created_at: Seq<char>,
    pub updated_at: Seq<char>,
    pub cells: Seq<CellView>,
}

impl View for RecordCells {
    type V = RecordCellsView;

    open spec fn view(&self) -> RecordCellsView {
        RecordCellsView {
            created_at: self.created_at@,
            updated_at: self.updated_at@,
            cells: views(self.cells@),
        }
    }
}

/// A record's row with its link.
#[derive(Debug)]
pub struct ListedCells {
    pub link: String,
    pub row: RecordCells,
}

/// A record's row with its link.
pub ghost struct ListedCellsView {
    pub link: Seq<char>,
    pub row: RecordCellsView,
}

impl View for ListedCells {
    type V = ListedCellsView;

    open spec fn view(&self) -> ListedCellsView {
        ListedCellsView { link: self.link@, row: self.row@ }
    }
}

/// A record of which only the columns are known yet: its blobs have no
/// filenames, and its references are not there.
#[derive(Debug)]
pub struct Draft {
    pub link: Link,
    pub created_at: Timestamp,
    pub updated_at: Timestamp,
    pub values: Values,
}

/// A record of which only the columns are known yet.
pub ghost struct DraftView {
    pub link: Link,
    pub created_at: Timestamp,
    pub updated_at: Timestamp,
    pub values: Map<FieldId, ValueView>,
}

impl View for Draft {
    type V = DraftView;

    open spec fn view(&self) -> DraftView {
        DraftView {
            link: self.link,
            created_at: self.created_at,
            updated_at: self.updated_at,
            values: self.values@,
        }
    }
}

/// The values of the first `n` fields, or what is wrong with the first bad
/// cell.
pub open spec fn decoded_cells(fields: Seq<FieldView>, cells: Seq<CellView>, n: nat) -> core::result::Result<
    Map<FieldId, ValueView>,
    ErrorView,
>
    decreases n,
{
    if n == 0 {
        Ok(Map::empty())
    } else {
        match decoded_cells(fields, cells, (n - 1) as nat) {
            Ok(values) => match decoded_value(fields[n - 1].kind, cells[n - 1]) {
                Ok(value) => Ok(values.insert(fields[n - 1].id, value)),
                Err(error) => Err(error),
            },
            Err(error) => Err(error),
        }
    }
}

/// The record that a row stands for, as far as its columns say, or what is
/// wrong with it.
pub open spec fn drafted(fields: Seq<FieldView>, link: Link, row: RecordCellsView) -> core::result::Result<
    DraftView,
    ErrorView,
> {
    match (parsed_time(row.created_at), parsed_time(row.updated_at)) {
        (Err(error), _) => Err(error),
        (_, Err(error)) => Err(error),
        (Ok(created_at), Ok(updated_at)) => match decoded_cells(fields, row.cells, fields.len()) {
            Ok(values) => Ok(DraftView { link, created_at, updated_at, values }),
            Err(error) => Err(error),
        },
    }
}

/// The record that a row with a link stands for, as far as its columns say.
pub open spec fn drafted_listed(fields: Seq<FieldView>, row: ListedCellsView) -> core::result::Result<
    DraftView,
    ErrorView,
> {
    match parsed_uuid(row.link) {
        Ok(link) => drafted(fields, Link(link), row.row),
        Err(error) => Err(error),
    }
}

/// The records that the rows stand for, in their order, or what is wrong with
/// the first bad one.
pub open spec fn drafted_all(fields: Seq<FieldView>, rows: Seq<ListedCellsView>) -> core::result::Result<
    Seq<DraftView>,
    ErrorView,
>
    decreases rows.len(),
{
    if rows.len() == 0 {
        Ok(Seq::empty())
    } else {
        match drafted_all(fields, rows.drop_last()) {
            Ok(drafts) => match drafted_listed(fields, rows.last()) {
                Ok(draft) => Ok(drafts.push(draft)),
                Err(error) => Err(error),
            },
            Err(error) => Err(error),
        }
    }
}

proof fn draft_failure_stays(fields: Seq<FieldView>, rows: Seq<ListedCellsView>, n: int)
    requires
        0 <= n <= rows.len(),
        drafted_all(fields, rows.take(n)) is Err,
    ensures
        drafted_all(fields, rows) == drafted_all(fields, rows.take(n)),
    decreases rows.len() - n,
{
    if n == rows.len() {
        assert(rows.take(n) =~= rows);
    } else {
        assert(rows.take(n + 1).drop_last() =~= rows.take(n));
        draft_failure_stays(fields, rows, n + 1);
    }
}

proof fn cell_failure_stays(fields: Seq<FieldView>, cells: Seq<CellView>, n: nat, m: nat)
    requires
        n <= m,
        decoded_cells(fields, cells, n) is Err,
    ensures
        decoded_cells(fields, cells, m) == decoded_cells(fields, cells, n),
    decreases m,
{
    if n < m {
        cell_failure_stays(fields, cells, n, (m - 1) as nat);
    }
}

/// What has to be read to read records of a database: the columns of its
/// fields, and its reference fields.
pub struct ReadPlan {
    database_id: DatabaseId,
    scalars: Vec<FieldDefinition>,
    references: Vec<FieldId>,
}

impl ReadPlan {
    #[verifier::type_invariant]
    spec fn well_formed(self) -> bool {
        forall|i: int|
            0 <= i < self.scalars@.len() ==> (#[trigger] self.scalars@[i])@.kind !is Reference
    }

    /// The database that the records belong to.
    pub closed spec fn spec_database_id(self) -> DatabaseId {
        self.database_id
    }

    /// The fields that have a column, in the order in which they are read.
    pub closed spec fn spec_scalars(self) -> Seq<FieldView> {
        views(self.scalars@)
    }

    /// The reference fields.
    pub closed spec fn spec_references(self) -> Seq<FieldId> {
        self.references@
    }

    /// The database that the records belong to.
    pub fn database_id(&self) -> (id: DatabaseId)
        ensures
            id == self.spec_database_id(),
    {
        self.database_id
    }

    /// How many cells a row has.
    pub fn width(&self) -> (width: usize)
        ensures
            width == self.spec_scalars().len(),
    {
        self.scalars.len()
    }

    /// The reference fields, whose values are read through their
    /// relationships.
    pub fn references(&self) -> (references: &Vec<FieldId>)
        ensures
            references@ == self.spec_references(),
    {
        &self.references
    }

    fn columns(&self) -> (columns: Vec<FieldId>)
        ensures
            columns@ == ids_of(self.spec_scalars()),
    {
        let mut columns: Vec<FieldId> = Vec::new();
        let mut i: usize = 0;
        while i < self.scalars.len()
            invariant
                i <= self.scalars.len(),
                columns.len() == i,
                forall|j: int| 0 <= j < i ==> columns@[j] == (#[trigger] self.scalars@[j]).id,
            decreases self.scalars.len() - i,
        {
            columns.push(self.scalars[i].id);
            i += 1;
        }
        assert(columns@ =~= ids_of(self.spec_scalars()));
        columns
    }

    /// The query for the row of one record.
    pub fn row_query(&self, link: Link) -> (query: Query)
        ensures
            query@ == (QueryView::RecordRow {
                database_id: self.spec_database_id(),
                fields: ids_of(self.spec_scalars()),
                link,
            }),
    {
        Query::RecordRow { database_id: self.database_id, fields: self.columns(), link }
    }

    /// The query for the rows of every record, the oldest first.
    pub fn rows_query(&self) -> (query: Query)
        ensures
            query@ == (QueryView::RecordRows {
                database_id: self.spec_database_id(),
                fields: ids_of(self.spec_scalars()),
            }),
    {
        Query::RecordRows { database_id: self.database_id, fields: self.columns() }
    }

    /// The record that a row stands for, as far as its columns say.
    pub fn draft(&self, link: Link, row: &RecordCells) -> (draft: Result<Draft>)
        requires
            row.cells.len() == self.spec_scalars().len(),
        ensures
            outcome(draft) == drafted(self.spec_scalars(), link, row@),
    {
        proof {
            use_type_invariant(self);
        }
        let created_at = match parse_rfc3339(row.created_at.as_str()) {
            Ok(created_at) => created_at,
            Err(error) => {
                return Err(error);
            },
        };
        let updated_at = match parse_rfc3339(row.updated_at.as_str()) {
            Ok(updated_at) => updated_at,
            Err(error) => {
                return Err(error);
            },
        };
        let ghost fields = self.spec_scalars();
        let ghost cells = views(row.cells@);
        let mut values = Values::new();
        let mut i: usize = 0;
        while i < self.scalars.len()
            invariant
                i <= self.scalars.len(),
                row.cells.len() == self.scalars.len(),
                fields == views(self.scalars@),
                cells == views(row.cells@),
                forall|j: int|
                    0 <= j < self.scalars@.len() ==> (#[trigger] self.scalars@[j])@.kind
                        !is Reference,
                decoded_cells(fields, cells, i as nat) == Ok::<
                    Map<FieldId, ValueView>,
                    ErrorView,
                >(values@),
                drafted(fields, link, row@) == match decoded_cells(fields, cells, fields.len()) {
                    Ok(values) => Ok::<DraftView, ErrorView>(
                        DraftView { link, created_at, updated_at, values },
                    ),
                    Err(error) => Err(error),
                },
            decreases self.scalars.len() - i,
        {
            let field = &self.scalars[i];
            assert(fields[i as int] == field@ && cells[i as int] == row.cells@[i as int]@);
            match decode_scalar_value(&field.kind, &row.cells[i]) {
                Ok(value) => {
                    values.insert(field.id, value);
                },
                Err(error) => {
                    proof {
                        cell_failure_stays(fields, cells, (i + 1) as nat, fields.len());
                    }
                    return Err(error);
                },
            }
            i += 1;
        }
        Ok(Draft { link, created_at, updated_at, values })
    }

    /// The record that the row of a query for one record stands for, as far as
    /// its columns say. Where there is no row, there is no such record.
    pub fn get(&self, link: Link, row: &Option<RecordCells>) -> (draft: Result<Draft>)
        requires
            row matches Some(cells) ==> cells.cells.len() == self.spec_scalars().len(),
        ensures
            match row {
                Some(cells) => outcome(draft) == drafted(self.spec_scalars(), link, cells@),
                None => draft matches Err(error) && error@ == ErrorView::RecordNotFound(link),
            },
    {
        match row {
            Some(cells) => self.draft(link, cells),
            None => Err(DataLineError::RecordNotFound(link)),
        }
    }

    /// The records that the rows of a query for every record stand for, as far
    /// as their columns say.
    pub fn list(&self, rows: &Vec<ListedCells>) -> (drafts: Result<Vec<Draft>>)
        requires
            forall|i: int|
                0 <= i < rows.len() ==> (#[trigger] rows@[i]).row.cells.len()
                    == self.spec_scalars().len(),
        ensures
            match drafts {
                Ok(drafts) => drafted_all(self.spec_scalars(), views(rows@)) == Ok::<
                    Seq<DraftView>,
                    ErrorView,
                >(views(drafts@)),
                Err(error) => drafted_all(self.spec_scalars(), views(rows@)) == Err::<
                    Seq<DraftView>,
                    ErrorView,
                >(error@),
            },
    {
        let ghost all = views(rows@);
        let ghost fields = self.spec_scalars();
        let mut drafts: Vec<Draft> = Vec::new();
        let mut i: usize = 0;
        assert(views(drafts@) =~= Seq::<DraftView>::empty());
        while i < rows.len()
            invariant
                i <= rows.len(),
                all == views(rows@),
                fields == self.spec_scalars(),
                forall|j: int|
                    0 <= j < rows.len() ==> (#[trigger] rows@[j]).row.cells.len()
                        == self.spec_scalars().len(),
                drafted_all(fields, all.take(i as int)) == Ok::<Seq<DraftView>, ErrorView>(
                    views(drafts@),
                ),
            decreases rows.len() - i,
        {
            assert(all.take(i + 1).drop_last() =~= all.take(i as int));
            assert(all[i as int] == rows@[i as int]@);
            let drafted_row = match parse_uuid(rows[i].link.as_str()) {
                Ok(link) => self.draft(Link::from_uuid(link), &rows[i].row),
                Err(error) => Err(error),
            };
            match drafted_row {
                Ok(draft) => {
                    proof {
                        views_push(drafts@, draft);
                    }
                    drafts.push(draft);
                },
                Err(error) => {
                    proof {
                        draft_failure_stays(fields, all, i + 1);
                    }
                    return Err(error);
                },
            }
            i += 1;
        }
        assert(all.take(rows.len() as int) =~= all);
        Ok(drafts)
    }
}

/// The value with a blob's filename filled in.
pub open spec fn hydrated(value: ValueView, filename: Option<Seq<char>>) -> ValueView {
    match value {
        ValueView::Blob(blob) => ValueView::Blob(BlobRefView { filename, ..blob }),
        ValueView::CustomBlob { kind_id, blob } => ValueView::CustomBlob {
            kind_id,
            blob: BlobRefView { filename, ..blob },
        },
        _ => value,
    }
}

/// Fills in a blob's filename.
pub fn hydrate_blob_filename(value: &mut Value, filename: Option<String>)
    ensures
        final(value)@ == hydrated(old(value)@, view_of(filename)),
{
    let filled = match &*value {
        Value::Blob(blob) => Value::Blob(BlobRef::from_hash_and_filename(blob.hash(), filename)),
        Value::CustomBlob { kind_id, blob } => Value::CustomBlob {
            kind_id: kind_id.clone(),
            blob: BlobRef::from_hash_and_filename(blob.hash(), filename),
        },
        other => other.clone(),
    };
    *value = filled;
}

/// The filename of a blob, from the row of the query for it: none where there
/// is no such blob or it has none.
pub fn blob_filename(row: Option<Option<String>>) -> (filename: Option<String>)
    ensures
        filename == match row {
            Some(filename) => filename,
            None => None,
        },
{
    match row {
        Some(filename) => filename,
        None => None,
    }
}

/// The hash of the blob that a value is a handle on.
pub open spec fn blob_hash(value: ValueView) -> Option<Seq<char>> {
    match value {
        ValueView::Blob(blob) => Some(blob.hash),
        ValueView::CustomBlob { blob, .. } => Some(blob.hash),
        _ => None,
    }
}

/// The hash of the blob that a value is a handle on.
fn hash_of(value: &Value) -> (hash: Option<String>)
    ensures
        view_of(hash) == blob_hash(value@),
{
    match value {
        Value::Blob(blob) => Some(blob.hash().to_string()),
        Value::CustomBlob { blob, .. } => Some(blob.hash().to_string()),
        _ => None,
    }
}

/// Whether the list names every blob among the values, by its field and hash,
/// and each of them once.
pub open spec fn names_blobs(
    list: Seq<(FieldId, Seq<char>)>,
    values: Map<FieldId, ValueView>,
) -> bool {
    &&& forall|i: int, j: int|
        0 <= i < j < list.len() ==> (#[trigger] list[i]).0 != (#[trigger] list[j]).0
    &&& forall|i: int|
        0 <= i < list.len() ==> values.dom().contains((#[trigger] list[i]).0) && blob_hash(
            values[list[i].0],
        ) == Some(list[i].1)
    &&& forall|field: FieldId|
        values.dom().contains(field) && blob_hash(#[trigger] values[field]) is Some ==> exists|
            i: int,
        |
            0 <= i < list.len() && (#[trigger] list[i]).0 == field
}

/// Fields with hashes.
pub open spec fn hashes_read(list: Seq<(FieldId, String)>) -> Seq<(FieldId, Seq<char>)> {
    list.map_values(|entry: (FieldId, String)| (entry.0, entry.1@))
}

/// Fields with filenames.
pub open spec fn filenames_read(list: Seq<(FieldId, Option<String>)>) -> Seq<
    (FieldId, Option<Seq<char>>),
> {
    list.map_values(|entry: (FieldId, Option<String>)| (entry.0, view_of(entry.1)))
}

/// The values with the filenames of their blobs filled in.
pub open spec fn with_filenames(
    values: Map<FieldId, ValueView>,
    filenames: Seq<(FieldId, Option<Seq<char>>)>,
) -> Map<FieldId, ValueView>
    decreases filenames.len(),
{
    if filenames.len() == 0 {
        values
    } else {
        let before = with_filenames(values, filenames.drop_last());
        let (field, filename) = filenames.last();
        if before.dom().contains(field) {
            before.insert(field, hydrated(before[field], filename))
        } else {
            before
        }
    }
}

/// The records at the other end of relationships.
pub open spec fn targets(references: Seq<Reference>) -> Seq<Link> {
    references.map_values(|reference: Reference| reference.target_link)
}

/// Fields with the records that they refer to.
pub open spec fn links_read(list: Seq<(FieldId, Vec<Reference>)>) -> Seq<(FieldId, Seq<Link>)> {
    list.map_values(|entry: (FieldId, Vec<Reference>)| (entry.0, targets(entry.1@)))
}

/// The values with those of the reference fields.
pub open spec fn with_references(
    values: Map<FieldId, ValueView>,
    references: Seq<(FieldId, Seq<Link>)>,
) -> Map<FieldId, ValueView>
    decreases references.len(),
{
    if references.len() == 0 {
        values
    } else {
        with_references(values, references.drop_last()).insert(
            references.last().0,
            ValueView::Reference(references.last().1),
        )
    }
}

/// The records at the other end of relationships.
fn target_links(references: &Vec<Reference>) -> (links: Vec<Link>)
    ensures
        links@ == targets(references@),
{
    let mut links: Vec<Link> = Vec::new();
    let mut i: usize = 0;
    while i < references.len()
        invariant
            i <= references.len(),
            links.len() == i,
            forall|j: int| 0 <= j < i ==> links@[j] == (#[trigger] references@[j]).target_link,
        decreases references.len() - i,
    {
        links.push(references[i].target_link);
        i += 1;
    }
    assert(links@ =~= targets(references@));
    links
}

impl Draft {
    /// The blobs among the values, by field and hash: their filenames have to
    /// be looked up.
    pub fn blobs(&self) -> (list: Vec<(FieldId, String)>)
        ensures
            names_blobs(hashes_read(list@), self@.values),
    {
        let fields = self.values.fields();
        let ghost values = self.values@;
        let mut list: Vec<(FieldId, String)> = Vec::new();
        let mut i: usize = 0;
        while i < fields.len()
            invariant
                i <= fields.len(),
                values == self.values@,
                fields@.no_duplicates(),
                forall|field: FieldId| #[trigger]
                    fields@.contains(field) == values.dom().contains(field),
                forall|a: int|
                    0 <= a < list@.len() ==> exists|b: int|
                        0 <= b < i && fields@[b] == (#[trigger] list@[a]).0,
                forall|a: int, b: int|
                    0 <= a < b < list@.len() ==> (#[trigger] list@[a]).0 != (#[trigger] list@[b]).0,
                forall|a: int|
                    0 <= a < list@.len() ==> values.dom().contains((#[trigger] list@[a]).0)
                        && blob_hash(values[list@[a].0]) == Some(list@[a].1@),
                forall|b: int|
                    0 <= b < i && blob_hash(values[#[trigger] fields@[b]]) is Some ==> exists|
                        a: int,
                    |
                        0 <= a < list@.len() && (#[trigger] list@[a]).0 == fields@[b],
            decreases fields.len() - i,
        {
            let field = fields[i];
            assert(fields@.contains(field));
            let ghost before = list@;
            match self.values.get(&field) {
                Some(value) => match hash_of(value) {
                    Some(hash) => {
                        list.push((field, hash));
                        proof {
                            assert forall|a: int, b: int|
                                0 <= a < b < list@.len() implies (#[trigger] list@[a]).0 != (
                            #[trigger] list@[b]).0 by {
                                if b == before.len() {
                                    let c = choose|c: int|
                                        0 <= c < i && fields@[c] == before[a].0;
                                    assert(list@[a] == before[a]);
                                    assert(fields@[c] != fields@[i as int]);
                                }
                            }
                            assert forall|b: int|
                                0 <= b < i + 1 && blob_hash(
                                    values[#[trigger] fields@[b]],
                                ) is Some implies exists|a: int|
                                0 <= a < list@.len() && (#[trigger] list@[a]).0 == fields@[b] by {
                                if b < i {
                                    let a = choose|a: int|
                                        0 <= a < before.len() && (#[trigger] before[a]).0
                                            == fields@[b];
                                    assert(list@[a] == before[a]);
                                } else {
                                    assert(list@[before.len() as int].0 == field);
                                }
                            }
                        }
                    },
                    None => {},
                },
                None => {},
            }
            i += 1;
        }
        proof {
            let read = hashes_read(list@);
            assert forall|field: FieldId|
                values.dom().contains(field) && blob_hash(
                    #[trigger] values[field],
                ) is Some implies exists|a: int|
                0 <= a < read.len() && (#[trigger] read[a]).0 == field by {
                assert(fields@.contains(field));
                let b = choose|b: int| 0 <= b < fields@.len() && fields@[b] == field;
                assert(blob_hash(values[fields@[b]]) is Some);
                let a = choose|a: int| 0 <= a < list@.len() && (#[trigger] list@[a]).0 == fields@[b];
                assert(read[a].0 == field);
            }
        }
        list
    }

    /// The record, with the filenames of its blobs and the values of its
    /// reference fields.
    pub fn finish(
        self,
        database_id: DatabaseId,
        filenames: &Vec<(FieldId, Option<String>)>,
        references: &Vec<(FieldId, Vec<Reference>)>,
    ) -> (record: Record)
        ensures
            record@ == (RecordView {
                link: self@.link,
                database_id,
                values: with_references(
                    with_filenames(self@.values, filenames_read(filenames@)),
                    links_read(references@),
                ),
                created_at: self@.created_at,
                updated_at: self@.updated_at,
            }),
    {
        let ghost start = self.values@;
        let ghost names = filenames_read(filenames@);
        let ghost links = links_read(references@);
        let mut values = self.values;
        let mut i: usize = 0;
        while i < filenames.len()
            invariant
                i <= filenames.len(),
                names == filenames_read(filenames@),
                values@ == with_filenames(start, names.take(i as int)),
            decreases filenames.len() - i,
        {
            assert(names.take(i + 1).drop_last() =~= names.take(i as int));
            let field = filenames[i].0;
            let found = match values.get(&field) {
                Some(value) => Some(value.clone()),
                None => None,
            };
            match found {
                Some(mut value) => {
                    hydrate_blob_filename(&mut value, copy_text(&filenames[i].1));
                    values.insert(field, value);
                },
                None => {},
            }
            i += 1;
        }
        assert(names.take(names.len() as int) =~= names);
        let ghost named = values@;
        i = 0;
        while i < references.len()
            invariant
                i <= references.len(),
                links == links_read(references@),
                values@ == with_references(named, links.take(i as int)),
            decreases references.len() - i,
        {
            assert(links.take(i + 1).drop_last() =~= links.take(i as int));
            let list = target_links(&references[i].1);
            values.insert(references[i].0, Value::Reference(list));
            i += 1;
        }
        assert(links.take(links.len() as int) =~= links);
        Record {
            link: self.link,
            database_id,
            values,
            created_at: self.created_at,
            updated_at: self.updated_at,
        }
    }
}

/// Why a value cannot be set, or what setting it writes. `row` is what the
/// query for the record's database gave, and `blob_exists` says whether the
/// blob of `blob_checked` exists.
pub open spec fn set_value_step(
    databases: Seq<DatabaseView>,
    link: Link,
    field_id: FieldId,
    value: ValueView,
    row: Option<Seq<char>>,
    blob_exists: bool,
    now: Seq<char>,
) -> core::result::Result<StepView, ErrorView> {
    match located_field(databases, link, row, field_id) {
        Err(error) => Err(error),
        Ok((database_id, field)) => if field.kind is Reference {
            Err(
                ErrorView::UnsupportedFieldKindForValue {
                    field: field_id,
                    kind: label_of(field.kind),
                },
            )
        } else {
            match blob_checked(field.kind, value) {
                Some(blob) if !blob_exists => Err(ErrorView::BlobNotFound(blob)),
                _ => match encoded_value(field_id, field.kind, value) {
                    Ok(value) => Ok(
                        StepView::SetValue { database_id, field: field_id, value, now, link },
                    ),
                    Err(error) => Err(error),
                },
            }
        },
    }
}

/// The blob that has to exist for a field of this kind to accept a value.
pub open spec fn blob_checked(kind: FieldKindView, value: ValueView) -> Option<BlobRefView> {
    match (kind, value) {
        (FieldKindView::Blob, ValueView::Blob(blob)) => Some(blob),
        (FieldKindView::CustomBlob { .. }, ValueView::CustomBlob { blob, .. }) => Some(blob),
        _ => None,
    }
}

/// The blob that has to exist for a field of this kind to accept a value.
fn checked_blob<'a>(kind: &FieldKind, value: &'a Value) -> (blob: Option<&'a BlobRef>)
    ensures
        view_of(blob) == blob_checked(kind@, value@),
{
    match (kind, value) {
        (FieldKind::Blob, Value::Blob(blob)) => Some(blob),
        (FieldKind::CustomBlob { .. }, Value::CustomBlob { blob, .. }) => Some(blob),
        _ => None,
    }
}

/// The steps that delete the relationships of a record, field by field.
pub open spec fn unlink_steps(fields: Seq<FieldView>, link: Link) -> Seq<StepView>
    decreases fields.len(),
{
    if fields.len() == 0 {
        Seq::empty()
    } else {
        let before = unlink_steps(fields.drop_last(), link);
        match fields.last().kind.pair() {
            Some(pair) => before.push(
                StepView::DeleteReferencesOf { field: fields.last().id, pair, link },
            ),
            None => before,
        }
    }
}

/// The steps that delete a record, with every relationship that it has.
pub open spec fn delete_record_steps(
    fields: Seq<FieldView>,
    database_id: DatabaseId,
    link: Link,
) -> Seq<StepView> {
    unlink_steps(fields, link) + seq![
        StepView::DeleteRecord { database_id, link },
        StepView::DeleteLink { link },
    ]
}

impl Store {
    /// Creates an empty record under a given link.
    pub fn create_record_with_link(&self, database_id: DatabaseId, link: Link, now: &str) -> (steps:
        Result<Vec<Step>>)
        ensures
            match steps {
                Ok(steps) => has_database(self@, database_id) && views(steps@)
                    == create_record_steps(database_id, link, now@),
                Err(error) => !has_database(self@, database_id) && error@
                    == ErrorView::DatabaseNotFound(database_id),
            },
    {
        match self.get_database(database_id) {
            Ok(_) => {},
            Err(error) => {
                return Err(error);
            },
        }
        let mut steps: Vec<Step> = Vec::new();
        steps.push(Step::InsertLink { link, database_id });
        steps.push(Step::InsertRecord { database_id, link, now: now.to_string() });
        assert(views(steps@) =~= create_record_steps(database_id, link, now@));
        Ok(steps)
    }

    /// Creates an empty record under a fresh link.
    pub fn create_record(&self, database_id: DatabaseId, now: &str) -> (result: Result<
        (Link, Vec<Step>),
    >)
        ensures
            match result {
                Ok((link, steps)) => is_version_four(link.0) && has_database(self@, database_id)
                    && views(steps@) == create_record_steps(database_id, link, now@),
                Err(error) => !has_database(self@, database_id) && error@
                    == ErrorView::DatabaseNotFound(database_id),
            },
    {
        let link = Link::new();
        match self.create_record_with_link(database_id, link, now) {
            Ok(steps) => Ok((link, steps)),
            Err(error) => Err(error),
        }
    }

    /// The fields of a database that have a column, and its reference fields.
    pub fn field_lists(&self, database_id: DatabaseId) -> (lists: Result<
        (Vec<FieldDefinition>, Vec<FieldId>),
    >)
        ensures
            match lists {
                Ok((scalars, references)) => {
                    let fields = database_of(self@, database_id).fields;
                    &&& has_database(self@, database_id)
                    &&& views(scalars@) == scalar_fields(fields)
                    &&& references@ == ids_of(reference_fields(fields))
                    &&& forall|i: int|
                        0 <= i < scalars@.len() ==> (#[trigger] scalars@[i])@.kind !is Reference
                },
                Err(error) => !has_database(self@, database_id) && error@
                    == ErrorView::DatabaseNotFound(database_id),
            },
    {
        let database = match self.get_database(database_id) {
            Ok(database) => database,
            Err(error) => {
                return Err(error);
            },
        };
        let ghost fields = database@.fields;
        let mut scalars: Vec<FieldDefinition> = Vec::new();
        let mut references: Vec<FieldId> = Vec::new();
        let mut i: usize = 0;
        proof {
            reveal(Seq::filter);
            assert(views(scalars@) =~= scalar_fields(fields.take(0)));
            assert(references@ =~= ids_of(reference_fields(fields.take(0))));
        }
        while i < database.fields.len()
            invariant
                i <= database.fields.len(),
                fields == views(database.fields@),
                views(scalars@) == scalar_fields(fields.take(i as int)),
                references@ == ids_of(reference_fields(fields.take(i as int))),
                forall|j: int|
                    0 <= j < scalars@.len() ==> (#[trigger] scalars@[j])@.kind !is Reference,
            decreases database.fields.len() - i,
        {
            let field = &database.fields[i];
            proof {
                reveal(Seq::filter);
                assert(fields.take(i + 1).drop_last() =~= fields.take(i as int));
                assert(fields[i as int] == field@);
            }
            if scalar_sql_type(&field.kind).is_some() {
                let copy = field.clone();
                proof {
                    views_push(scalars@, copy);
                }
                scalars.push(copy);
            }
            if field.kind.is_reference() {
                let ghost before = reference_fields(fields.take(i as int));
                references.push(field.id);
                assert(references@ =~= ids_of(before.push(field@)));
            }
            i += 1;
        }
        assert(fields.take(fields.len() as int) =~= fields);
        Ok((scalars, references))
    }

    /// What has to be read to list the records of a database.
    pub fn list_records(&self, database_id: DatabaseId) -> (plan: Result<ReadPlan>)
        ensures
            match plan {
                Ok(plan) => {
                    let fields = database_of(self@, database_id).fields;
                    &&& has_database(self@, database_id)
                    &&& plan.spec_database_id() == database_id
                    &&& plan.spec_scalars() == scalar_fields(fields)
                    &&& plan.spec_references() == ids_of(reference_fields(fields))
                },
                Err(error) => !has_database(self@, database_id) && error@
                    == ErrorView::DatabaseNotFound(database_id),
            },
    {
        match self.field_lists(database_id) {
            Ok((scalars, references)) => Ok(ReadPlan { database_id, scalars, references }),
            Err(error) => Err(error),
        }
    }

    /// What has to be read to get a record. `row` is what the query for its
    /// database gave.
    pub fn get_record(&self, link: Link, row: &Option<String>) -> (plan: Result<ReadPlan>)
        ensures
            match resolved(link, view_of(*row)) {
                Err(error) => plan matches Err(e) && e@ == error,
                Ok(database_id) => match plan {
                    Ok(plan) => {
                        let fields = database_of(self@, database_id).fields;
                        &&& has_database(self@, database_id)
                        &&& plan.spec_database_id() == database_id
                        &&& plan.spec_scalars() == scalar_fields(fields)
                        &&& plan.spec_references() == ids_of(reference_fields(fields))
                    },
                    Err(error) => !has_database(self@, database_id) && error@
                        == ErrorView::DatabaseNotFound(database_id),
                },
            },
    {
        match resolve_database_id(link, row) {
            Ok(database_id) => self.list_records(database_id),
            Err(error) => Err(error),
        }
    }

    /// The record's database, and its field with this id.
    pub(crate) fn locate_field(&self, link: Link, row: &Option<String>, field_id: FieldId) -> (found:
        Result<(DatabaseId, &FieldDefinition)>)
        ensures
            match found {
                Ok((database_id, field)) => located_field(self@, link, view_of(*row), field_id)
                    == Ok::<(DatabaseId, FieldView), ErrorView>((database_id, field@)) && field.id
                    == field_id,
                Err(error) => located_field(self@, link, view_of(*row), field_id) == Err::<
                    (DatabaseId, FieldView),
                    ErrorView,
                >(error@),
            },
    {
        let database_id = match resolve_database_id(link, row) {
            Ok(database_id) => database_id,
            Err(error) => {
                return Err(error);
            },
        };
        let database = match self.get_database(database_id) {
            Ok(database) => database,
            Err(error) => {
                return Err(error);
            },
        };
        proof {
            field_position_found(database@.fields, field_id);
        }
        match database.field(field_id) {
            Some(field) => Ok((database_id, field)),
            None => Err(DataLineError::FieldNotFound(field_id)),
        }
    }

    /// The blob that has to be looked up before a value is set, if there is
    /// one. `row` is what the query for the record's database gave.
    pub fn blob_to_check(
        &self,
        link: Link,
        field_id: FieldId,
        value: &Value,
        row: &Option<String>,
    ) -> (blob: Result<Option<BlobRef>>)
        ensures
            match located_field(self@, link, view_of(*row), field_id) {
                Err(error) => blob matches Err(e) && e@ == error,
                Ok((_, field)) => if field.kind is Reference {
                    &&& blob matches Err(e)
                    &&& e@ == ErrorView::UnsupportedFieldKindForValue {
                        field: field_id,
                        kind: label_of(field.kind),
                    }
                } else {
                    blob matches Ok(blob) && view_of(blob) == blob_checked(field.kind, value@)
                },
            },
    {
        match self.locate_field(link, row, field_id) {
            Ok((_, field)) => {
                if field.kind.is_reference() {
                    return Err(
                        DataLineError::UnsupportedFieldKindForValue {
                            field: field_id,
                            kind: kind_label(&field.kind),
                        },
                    );
                }
                match checked_blob(&field.kind, value) {
                    Some(blob) => Ok(Some(blob.clone())),
                    None => Ok(None),
                }
            },
            Err(error) => Err(error),
        }
    }

    /// Sets the value of a field of a record. References are not set this way,
    /// a value of another kind than the field's is refused, and so is a blob
    /// that does not exist. `row` is what the query for the record's database
    /// gave, `blob_exists` whether the blob of `blob_to_check` exists. Reading
    /// what is written gives the value back. (What is not a number a column
    /// takes as null, so it is read as empty.)
    pub fn set_value(
        &self,
        link: Link,
        field_id: FieldId,
        value: &Value,
        row: &Option<String>,
        blob_exists: bool,
        now: &str,
    ) -> (step: Result<Step>)
        ensures
            outcome(step) == set_value_step(
                self@,
                link,
                field_id,
                value@,
                view_of(*row),
                blob_exists,
                now@,
            ),
            step matches Ok(step) ==> {
                &&& step@ matches StepView::SetValue { database_id, value: held, .. }
                &&& reads_back(
                    field_in(self@, database_id, field_id).kind,
                    held,
                    column_value(value@),
                )
            },
    {
        let (database_id, field) = match self.locate_field(link, row, field_id) {
            Ok(found) => found,
            Err(error) => {
                return Err(error);
            },
        };
        if field.kind.is_reference() {
            return Err(
                DataLineError::UnsupportedFieldKindForValue {
                    field: field_id,
                    kind: kind_label(&field.kind),
                },
            );
        }
        match checked_blob(&field.kind, value) {
            Some(blob) => {
                if !blob_exists {
                    return Err(DataLineError::BlobNotFound(blob.clone()));
                }
            },
            None => {},
        }
        match encode_scalar_value(field_id, &field.kind, value) {
            Ok(value) => Ok(
                Step::SetValue { database_id, field: field_id, value, now: now.to_string(), link },
            ),
            Err(error) => Err(error),
        }
    }

    /// Deletes a record, first every relationship that it has. `row` is what
    /// the query for its database gave.
    pub fn delete_record(&self, link: Link, row: &Option<String>) -> (steps: Result<Vec<Step>>)
        ensures
            match resolved(link, view_of(*row)) {
                Err(error) => steps matches Err(e) && e@ == error,
                Ok(database_id) => match steps {
                    Ok(steps) => has_database(self@, database_id) && views(steps@)
                        == delete_record_steps(
                        database_of(self@, database_id).fields,
                        database_id,
                        link,
                    ),
                    Err(error) => !has_database(self@, database_id) && error@
                        == ErrorView::DatabaseNotFound(database_id),
                },
            },
    {
        let database_id = match resolve_database_id(link, row) {
            Ok(database_id) => database_id,
            Err(error) => {
                return Err(error);
            },
        };
        let database = match self.get_database(database_id) {
            Ok(database) => database,
            Err(error) => {
                return Err(error);
            },
        };
        let ghost fields = database@.fields;
        let mut steps: Vec<Step> = Vec::new();
        let mut i: usize = 0;
        assert(views(steps@) =~= unlink_steps(fields.take(0), link));
        while i < database.fields.len()
            invariant
                i <= database.fields.len(),
                fields == views(database.fields@),
                views(steps@) == unlink_steps(fields.take(i as int), link),
            decreases database.fields.len() - i,
        {
            assert(fields.take(i + 1).drop_last() =~= fields.take(i as int));
            let field = &database.fields[i];
            assert(fields[i as int] == field@);
            match field.kind.pair() {
                Some(pair) => {
                    let step = Step::DeleteReferencesOf { field: field.id, pair, link };
                    proof {
                        views_push(steps@, step);
                    }
                    steps.push(step);
                },
                None => {},
            }
            i += 1;
        }
        assert(fields.take(fields.len() as int) =~= fields);
        let ghost unlinking = views(steps@);
        steps.push(Step::DeleteRecord { database_id, link });
        steps.push(Step::DeleteLink { link });
        assert(views(steps@) =~= delete_record_steps(fields, database_id, link));
        Ok(steps)
    }
}

/// What setting a value comes to, from the number of rows that were changed.
pub fn value_set(link: Link, affected: usize) -> (result: Result<()>)
    ensures
        match result {
            Ok(_) => affected != 0,
            Err(error) => affected == 0 && error@ == ErrorView::RecordNotFound(link),
        },
{
    if affected == 0 {
        Err(DataLineError::RecordNotFound(link))
    } else {
        Ok(())
    }
}

} // verus!
