//! Finding records by what they hold.

use vstd::prelude::*;

use crate::error::{DataLineError, ErrorView, Result};
use crate::ids::{DatabaseId, FieldId};
use crate::kind::{kind_label, label_of};
use crate::record::{values_match, Record, RecordView, Value, ValueView, Values};
use crate::registry::{field_error, field_in, has_database};
use crate::schema::{field_position_found, DatabaseView};
use crate::store::Store;
use crate::text::{contains, lowercase, occurs, to_lowercase, view_of, views, views_push};

verus! {

/// Whether a record holds this value under a field.
pub open spec fn holds(record: RecordView, field: FieldId, value: ValueView) -> bool {
    record.values.dom().contains(field) && values_match(record.values[field], value)
}

/// The records that hold this value under a field.
pub open spec fn holding(records: Seq<RecordView>, field: FieldId, value: ValueView) -> Seq<
    RecordView,
> {
    records.filter(|record: RecordView| holds(record, field, value))
}

/// Whether a text under some field contains `needle` when its case is ignored.
pub open spec fn mentions(values: Map<FieldId, ValueView>, needle: Seq<char>) -> bool {
    exists|field: FieldId| #[trigger] mentions_under(values, field, needle)
}

/// Whether the text under a field contains `needle` when its case is ignored.
pub open spec fn mentions_under(
    values: Map<FieldId, ValueView>,
    field: FieldId,
    needle: Seq<char>,
) -> bool {
    values.dom().contains(field) && (values[field] matches ValueView::Text(text) && occurs(
        needle,
        lowercase(text),
    ))
}

/// The records of which some text contains `needle` when its case is ignored.
pub open spec fn mentioning(records: Seq<RecordView>, needle: Seq<char>) -> Seq<RecordView> {
    records.filter(|record: RecordView| mentions(record.values, needle))
}

/// Why records cannot be looked up by the value of a field.
pub open spec fn search_error(
    databases: Seq<DatabaseView>,
    database_id: DatabaseId,
    field_id: FieldId,
) -> Option<ErrorView> {
    match field_error(databases, database_id, field_id) {
        Some(error) => Some(error),
        None => {
            let kind = field_in(databases, database_id, field_id).kind;
            if kind is Reference {
                Some(
                    ErrorView::UnsupportedFieldKindForValue {
                        field: field_id,
                        kind: label_of(kind),
                    },
                )
            } else {
                None
            }
        },
    }
}

impl Store {
    /// Whether records can be looked up by the value of a field: not by that of
    /// a reference.
    pub fn check_searchable(&self, database_id: DatabaseId, field_id: FieldId) -> (result: Result<()>)
        ensures
            match search_error(self@, database_id, field_id) {
                Some(error) => result matches Err(e) && e@ == error,
                None => result is Ok,
            },
    {
        let database = match self.get_database(database_id) {
            Ok(database) => database,
            Err(error) => {
                return Err(error);
            },
        };
        proof {
            field_position_found(database@.fields, field_id);
        }
        match database.field(field_id) {
            Some(field) => if field.kind.is_reference() {
                Err(
                    DataLineError::UnsupportedFieldKindForValue {
                        field: field_id,
                        kind: kind_label(&field.kind),
                    },
                )
            } else {
                Ok(())
            },
            None => Err(DataLineError::FieldNotFound(field_id)),
        }
    }

    /// The records of a database that hold this value under a field, in their
    /// order, out of `records`, which are all of them. A blob is looked up by
    /// its content hash alone, and a reference field is refused.
    pub fn find_by_value(
        &self,
        database_id: DatabaseId,
        field_id: FieldId,
        value: &Value,
        records: &Vec<Record>,
    ) -> (found: Result<Vec<Record>>)
        ensures
            match search_error(self@, database_id, field_id) {
                Some(error) => found matches Err(e) && e@ == error,
                None => found matches Ok(found) && views(found@) == holding(
                    views(records@),
                    field_id,
                    value@,
                ),
            },
    {
        match self.check_searchable(database_id, field_id) {
            Ok(_) => Ok(keep_holding(records, field_id, value)),
            Err(error) => Err(error),
        }
    }

    /// The records of a database of which some text contains the query when
    /// case is ignored, in their order, out of `records`, which are all of
    /// them. Only texts are searched, and an empty query finds nothing.
    pub fn search_text(&self, database_id: DatabaseId, query: &str, records: &Vec<Record>) -> (found:
        Result<Vec<Record>>)
        ensures
            match found {
                Ok(found) => if query@.len() == 0 {
                    found@.len() == 0
                } else {
                    has_database(self@, database_id) && views(found@) == mentioning(
                        views(records@),
                        lowercase(query@),
                    )
                },
                Err(error) => query@.len() > 0 && !has_database(self@, database_id) && error@
                    == ErrorView::DatabaseNotFound(database_id),
            },
    {
        match search_needle(query) {
            None => Ok(Vec::new()),
            Some(needle) => match self.get_database(database_id) {
                Ok(_) => Ok(keep_mentioning(records, needle.as_str())),
                Err(error) => Err(error),
            },
        }
    }
}

/// The records that hold this value under a field, in their order.
fn keep_holding(records: &Vec<Record>, field_id: FieldId, value: &Value) -> (found: Vec<Record>)
    ensures
        views(found@) == holding(views(records@), field_id, value@),
{
    let ghost all = views(records@);
    let mut found: Vec<Record> = Vec::new();
    let mut i: usize = 0;
    while i < records.len()
        invariant
            i <= records.len(),
            all == views(records@),
            views(found@) == holding(all.take(i as int), field_id, value@),
        decreases records.len() - i,
    {
        proof {
            reveal(Seq::filter);
            assert(all.take(i + 1).drop_last() =~= all.take(i as int));
            assert(all[i as int] == records@[i as int]@);
        }
        let matching = match records[i].values.get(&field_id) {
            Some(own) => own.matches(value),
            None => false,
        };
        if matching {
            let record = records[i].clone();
            proof {
                views_push(found@, record);
            }
            found.push(record);
        }
        i += 1;
    }
    assert(all.take(records.len() as int) =~= all);
    found
}

/// What is searched for: the query without its case, or nothing where the query
/// is empty, which no record matches.
pub fn search_needle(query: &str) -> (needle: Option<String>)
    ensures
        view_of(needle) == if query@.len() == 0 {
            None
        } else {
            Some(lowercase(query@))
        },
{
    if query.is_empty() {
        None
    } else {
        Some(to_lowercase(query))
    }
}

/// Whether a text under some field contains `needle` when its case is ignored.
fn mentions_needle(values: &Values, needle: &str) -> (found: bool)
    ensures
        found == mentions(values@, needle@),
{
    let fields = values.fields();
    let ghost held = values@;
    let mut i: usize = 0;
    while i < fields.len()
        invariant
            i <= fields.len(),
            held == values@,
            forall|field: FieldId| #[trigger]
                fields@.contains(field) == held.dom().contains(field),
            forall|j: int| 0 <= j < i ==> !mentions_under(held, #[trigger] fields@[j], needle@),
        decreases fields.len() - i,
    {
        let field = fields[i];
        assert(fields@.contains(field));
        let here = match values.get(&field) {
            Some(Value::Text(text)) => {
                let lower = to_lowercase(text.as_str());
                contains(lower.as_str(), needle)
            },
            _ => false,
        };
        if here {
            assert(mentions_under(held, field, needle@));
            return true;
        }
        i += 1;
    }
    assert forall|field: FieldId| !(#[trigger] mentions_under(held, field, needle@)) by {
        if held.dom().contains(field) {
            assert(fields@.contains(field));
            let j = choose|j: int| 0 <= j < fields@.len() && fields@[j] == field;
            assert(!mentions_under(held, fields@[j], needle@));
        }
    }
    false
}

/// The records of which some text contains `needle` when its case is ignored,
/// in their order.
fn keep_mentioning(records: &Vec<Record>, needle: &str) -> (found: Vec<Record>)
    ensures
        views(found@) == mentioning(views(records@), needle@),
{
    let ghost all = views(records@);
    let mut found: Vec<Record> = Vec::new();
    let mut i: usize = 0;
    while i < records.len()
        invariant
            i <= records.len(),
            all == views(records@),
            views(found@) == mentioning(all.take(i as int), needle@),
        decreases records.len() - i,
    {
        proof {
            reveal(Seq::filter);
            assert(all.take(i + 1).drop_last() =~= all.take(i as int));
            assert(all[i as int] == records@[i as int]@);
        }
        if mentions_needle(&records[i].values, needle) {
            let record = records[i].clone();
            proof {
                views_push(found@, record);
            }
            found.push(record);
        }
        i += 1;
    }
    assert(all.take(records.len() as int) =~= all);
    found
}

} // verus!
