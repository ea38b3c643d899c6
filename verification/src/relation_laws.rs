//! Being related is mutual, and is what the lists of relationships say.

use vstd::prelude::*;

use crate::error::ErrorView;
use crate::ids::{DatabaseId, FieldId, Link, ReferenceId};
use crate::naming::{ordered_pair, pair_agrees};
use crate::persist_laws::{schema_field, standing_field, stands_at};
use crate::records::reference_fields;
use crate::reference::Reference;
use crate::registry::{database_index, database_index_is, database_of, is_database};
use crate::registry_laws::{
    are_paired, field_at, has_counterpart, is_field, kept_from, kept_from_is,
};
use crate::relations::{is_related, is_target, read_reference, read_references};
use crate::schema::{DatabaseView, FieldView};
use crate::store_laws::{ends_exist, listed_from_both_ends, lists, sound};
use crate::tables::{at, Tables};
use crate::uuids::{uuid_text, uuid_text_reads_back};

verus! {

/// The field that a reference field is paired with.
pub open spec fn pair_of(databases: Seq<DatabaseView>, field: FieldId) -> Option<FieldId> {
    match schema_field(databases, field) {
        Some((_, definition)) => definition.kind.pair(),
        None => None,
    }
}

/// Whether a relationship leads a record to another through a field of the
/// record's database.
pub open spec fn leads(
    tables: Tables,
    databases: Seq<DatabaseView>,
    link: Link,
    other: Link,
    field: FieldId,
    id: ReferenceId,
) -> bool {
    &&& schema_field(databases, field) matches Some((owner, _)) && at(tables.links, link) == Some(
        owner,
    )
    &&& pair_of(databases, field) matches Some(pair) && lists(
        tables,
        field,
        pair,
        link,
        id,
        other,
    )
}

/// Whether a record is related to another.
pub open spec fn are_related(
    tables: Tables,
    databases: Seq<DatabaseView>,
    link: Link,
    other: Link,
) -> bool {
    exists|field: FieldId, id: ReferenceId| leads(tables, databases, link, other, field, id)
}

/// A relationship that leads a record to another leads back, through the field
/// that its field is paired with.
pub proof fn leads_back(
    tables: Tables,
    databases: Seq<DatabaseView>,
    link: Link,
    other: Link,
    field: FieldId,
    id: ReferenceId,
)
    requires
        sound(tables, databases),
        leads(tables, databases, link, other, field, id),
    ensures
        ({
            let pair = pair_of(databases, field)->0;
            &&& leads(tables, databases, other, link, pair, id)
            &&& pair_of(databases, pair) == Some(field)
        }),
{
    let (i, k) = choose|i: int, k: int| stands_at(databases, field, i, k);
    standing_field(databases, i, k);
    let own = field_at(databases, i, k);
    assert(has_counterpart(databases, i, k));
    let (j, m) = choose|j: int, m: int| #[trigger] are_paired(databases, i, k, j, m);
    standing_field(databases, j, m);
    let pair = field_at(databases, j, m).id;
    assert(field != pair) by {
        assert(field_at(databases, i, k).id != field_at(databases, j, m).id);
    }
    pair_agrees(field, pair);
    listed_from_both_ends(tables, field, pair, link, id, other);
    let key = (ordered_pair(field, pair).0, id);
    assert(tables.references.dom().contains(key));
    assert(ends_exist(tables, databases, key.0, tables.references[key]));
}

/// Being related is mutual: a record is related to another just where the other
/// is related to it.
pub proof fn being_related_is_mutual(
    tables: Tables,
    databases: Seq<DatabaseView>,
    link: Link,
    other: Link,
)
    requires
        sound(tables, databases),
    ensures
        are_related(tables, databases, link, other) == are_related(tables, databases, other, link),
{
    if are_related(tables, databases, link, other) {
        let (field, id) = choose|field: FieldId, id: ReferenceId|
            leads(tables, databases, link, other, field, id);
        leads_back(tables, databases, link, other, field, id);
    }
    if are_related(tables, databases, other, link) {
        let (field, id) = choose|field: FieldId, id: ReferenceId|
            leads(tables, databases, other, link, field, id);
        leads_back(tables, databases, other, link, field, id);
    }
}

/// The row of the query for relationships that stands for one of them.
pub open spec fn reference_row_of(id: ReferenceId, other: Link) -> (Seq<char>, Seq<char>) {
    (uuid_text(id.0), uuid_text(other.0))
}

/// Whether a row stands for a relationship of a record through a field.
pub open spec fn is_reference_row(
    tables: Tables,
    field: FieldId,
    pair: FieldId,
    link: Link,
    row: (Seq<char>, Seq<char>),
) -> bool {
    exists|id: ReferenceId, other: Link|
        row == reference_row_of(id, other) && #[trigger] lists(
            tables,
            field,
            pair,
            link,
            id,
            other,
        )
}

/// Whether the rows are those of the query for the relationships of a record
/// through a field: one for each of them, and no other.
pub open spec fn are_reference_rows(
    tables: Tables,
    field: FieldId,
    pair: FieldId,
    link: Link,
    rows: Seq<(Seq<char>, Seq<char>)>,
) -> bool {
    &&& forall|k: int|
        0 <= k < rows.len() ==> is_reference_row(tables, field, pair, link, #[trigger] rows[k])
    &&& forall|id: ReferenceId, other: Link| #[trigger]
        lists(tables, field, pair, link, id, other) ==> rows.contains(reference_row_of(id, other))
}

/// The relationships of a record through a field can be read, and what is read
/// is what the tables hold.
pub proof fn stored_references_read(
    tables: Tables,
    field: FieldId,
    pair: FieldId,
    link: Link,
    rows: Seq<(Seq<char>, Seq<char>)>,
)
    requires
        are_reference_rows(tables, field, pair, link, rows),
    ensures
        read_references(link, field, pair, rows) is Ok,
        ({
            let references = read_references(link, field, pair, rows)->Ok_0;
            &&& forall|k: int|
                0 <= k < references.len() ==> lists(
                    tables,
                    field,
                    pair,
                    link,
                    (#[trigger] references[k]).id,
                    references[k].target_link,
                )
            &&& forall|id: ReferenceId, other: Link| #[trigger]
                lists(tables, field, pair, link, id, other) ==> references.contains(
                    Reference {
                        id,
                        source_link: link,
                        source_field: field,
                        target_link: other,
                        target_field: pair,
                    },
                )
        }),
{
    rows_read_one_by_one(tables, field, pair, link, rows);
    let references = read_references(link, field, pair, rows)->Ok_0;
    assert forall|k: int| 0 <= k < references.len() implies lists(
        tables,
        field,
        pair,
        link,
        (#[trigger] references[k]).id,
        references[k].target_link,
    ) by {
        assert(is_reference_row(tables, field, pair, link, rows[k]));
        let (id, other) = choose|id: ReferenceId, other: Link|
            rows[k] == reference_row_of(id, other) && #[trigger] lists(
                tables,
                field,
                pair,
                link,
                id,
                other,
            );
        uuid_text_reads_back(id.0);
        uuid_text_reads_back(other.0);
    }
    assert forall|id: ReferenceId, other: Link| #[trigger]
        lists(tables, field, pair, link, id, other) implies references.contains(
        Reference {
            id,
            source_link: link,
            source_field: field,
            target_link: other,
            target_field: pair,
        },
    ) by {
        assert(rows.contains(reference_row_of(id, other)));
        let k = choose|k: int| 0 <= k < rows.len() && rows[k] == reference_row_of(id, other);
        uuid_text_reads_back(id.0);
        uuid_text_reads_back(other.0);
        assert(references[k] == read_reference(link, field, pair, rows[k])->Ok_0);
    }
}

proof fn rows_read_one_by_one(
    tables: Tables,
    field: FieldId,
    pair: FieldId,
    link: Link,
    rows: Seq<(Seq<char>, Seq<char>)>,
)
    requires
        forall|k: int|
            0 <= k < rows.len() ==> is_reference_row(tables, field, pair, link, #[trigger] rows[k]),
    ensures
        read_references(link, field, pair, rows) is Ok,
        ({
            let references = read_references(link, field, pair, rows)->Ok_0;
            &&& references.len() == rows.len()
            &&& forall|k: int|
                0 <= k < rows.len() ==> read_reference(link, field, pair, rows[k]) == Ok::<
                    Reference,
                    ErrorView,
                >(#[trigger] references[k])
        }),
    decreases rows.len(),
{
    if rows.len() > 0 {
        let rest = rows.drop_last();
        let last = rows.len() - 1;
        assert forall|k: int| 0 <= k < rest.len() implies is_reference_row(
            tables,
            field,
            pair,
            link,
            #[trigger] rest[k],
        ) by {
            assert(rest[k] == rows[k]);
        }
        rows_read_one_by_one(tables, field, pair, link, rest);
        assert(is_reference_row(tables, field, pair, link, rows[last]));
        let (id, other) = choose|id: ReferenceId, other: Link|
            rows[last] == reference_row_of(id, other) && #[trigger] lists(
                tables,
                field,
                pair,
                link,
                id,
                other,
            );
        uuid_text_reads_back(id.0);
        uuid_text_reads_back(other.0);
        let fewer = read_references(link, field, pair, rest)->Ok_0;
        let references = read_references(link, field, pair, rows)->Ok_0;
        assert forall|k: int| 0 <= k < rows.len() implies read_reference(link, field, pair, rows[k])
            == Ok::<Reference, ErrorView>(#[trigger] references[k]) by {
            if k < last {
                assert(rest[k] == rows[k]);
                assert(references[k] == fewer[k]);
            }
        }
    }
}

/// Whether each list holds the relationships that were read for a record
/// through the reference field in the same place.
pub open spec fn are_lists_of(
    tables: Tables,
    fields: Seq<FieldView>,
    link: Link,
    rows: Seq<Seq<(Seq<char>, Seq<char>)>>,
    lists_read: Seq<Vec<Reference>>,
) -> bool {
    &&& rows.len() == fields.len()
    &&& lists_read.len() == fields.len()
    &&& forall|n: int|
        0 <= n < fields.len() ==> {
            let pair = (#[trigger] fields[n]).kind.pair()->0;
            &&& are_reference_rows(tables, fields[n].id, pair, link, rows[n])
            &&& read_references(link, fields[n].id, pair, rows[n]) == Ok::<
                Seq<Reference>,
                ErrorView,
            >(lists_read[n]@)
        }
}

/// The records that `Store::related_records` finds in the lists that were read
/// for a record are just those that it is related to.
pub proof fn related_records_are_found(
    tables: Tables,
    databases: Seq<DatabaseView>,
    database_id: DatabaseId,
    link: Link,
    rows: Seq<Seq<(Seq<char>, Seq<char>)>>,
    lists_read: Seq<Vec<Reference>>,
    other: Link,
)
    requires
        sound(tables, databases),
        at(tables.links, link) == Some(database_id),
        are_lists_of(
            tables,
            reference_fields(database_of(databases, database_id).fields),
            link,
            rows,
            lists_read,
        ),
    ensures
        is_related(lists_read, other) == are_related(tables, databases, link, other),
{
    let all = database_of(databases, database_id).fields;
    let reference = |field: FieldView| field.kind is Reference;
    let fields = reference_fields(all);
    assert(fields == all.filter(reference));
    kept_from_is(all, reference);
    assert(tables.links.dom().contains(link));
    let d = database_index(databases, database_id);
    assert(is_database(databases, database_id, d));
    assert forall|n: int| 0 <= n < fields.len() implies {
        &&& schema_field(databases, (#[trigger] fields[n]).id) == Some((database_id, fields[n]))
        &&& fields[n].kind.pair() is Some
    } by {
        let k = kept_from(all, reference, n);
        assert(is_field(databases, d, k));
        assert(field_at(databases, d, k) == fields[n]);
        standing_field(databases, d, k);
        assert(has_counterpart(databases, d, k));
    }
    if is_related(lists_read, other) {
        let (n, k) = choose|n: int, k: int| #[trigger] is_target(lists_read, other, n, k);
        let pair = fields[n].kind.pair()->0;
        stored_references_read(tables, fields[n].id, pair, link, rows[n]);
        assert(lists(tables, fields[n].id, pair, link, lists_read[n]@[k].id, other));
        assert(leads(tables, databases, link, other, fields[n].id, lists_read[n]@[k].id));
    }
    if are_related(tables, databases, link, other) {
        let (field, id) = choose|field: FieldId, id: ReferenceId|
            leads(tables, databases, link, other, field, id);
        let pair = pair_of(databases, field)->0;
        let (i, k) = choose|i: int, k: int| stands_at(databases, field, i, k);
        standing_field(databases, i, k);
        assert(is_database(databases, database_id, i));
        database_index_is(databases, database_id, i);
        assert(all[k] == field_at(databases, i, k));
        assert(reference(all[k]));
        let n = choose|n: int|
            0 <= n < fields.len() && #[trigger] kept_from(all, reference, n) == k;
        assert(fields[n] == all[k]);
        stored_references_read(tables, field, pair, link, rows[n]);
        let found = Reference {
            id,
            source_link: link,
            source_field: field,
            target_link: other,
            target_field: pair,
        };
        assert(lists_read[n]@.contains(found));
        let m = choose|m: int| 0 <= m < lists_read[n]@.len() && lists_read[n]@[m] == found;
        assert(is_target(lists_read, other, n, m));
    }
}

} // verus!
