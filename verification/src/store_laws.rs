//! What every operation of the store keeps, and what each of them comes to in
//! the tables.

use vstd::prelude::*;

use crate::blobs::{content_hash, write_blob_step};
use crate::codec::{column_value, decoded_value, encoded_value, reads_back};
use crate::diff::diff_steps;
use crate::error::ErrorView;
use crate::ids::{DatabaseId, FieldId, Link, ReferenceId};
use crate::naming::{ordered_pair, pair_agrees, side_of, ReferenceSide};
use crate::number::Number;
use crate::persist_laws::{
    all_schema_steps, database_goes, diff_is_schema_steps, follows, former_stands, holds_schema,
    is_schema_step, persisting_keeps_the_rest, persisting_reaches_the_new_schema, schema_column, schema_field, schema_reference,
    standing_field, stands_at,
};
use crate::record::{values_match, ValueView};
use crate::records::{create_record_steps, delete_record_steps, resolved, unlink_steps};
use crate::reference::Reference;
use crate::registry::{
    database_index, database_index_is, database_of, field_in, has_database, is_database,
};
use crate::registry_laws::{are_paired, consistent, field_at, has_counterpart, is_field};
use crate::relations::{in_columns, insert_reference_step, reference_created};
use crate::schema::{field_position_found, DatabaseView, FieldKindView, FieldView};
use crate::sql::{CellView, SqlView};
use crate::steps::StepView;
use crate::tables::{
    all_applied, applied, applied_in_turn, at, map_of_at, reference_row, same_rows, unless_null,
    BlobRow, RecordTimes, RowNumbers, Tables,
};
use crate::uuids::{uuid_text, uuid_text_reads_back};

verus! {

/// Whether every record has its link and every link its record.
pub open spec fn links_match(tables: Tables) -> bool {
    forall|database_id: DatabaseId, link: Link|
        #![trigger tables.records.dom().contains((database_id, link))]
        tables.records.dom().contains((database_id, link)) == (at(tables.links, link) == Some(
            database_id,
        ))
}

/// Whether a relationship is between two records of the databases that its two
/// fields belong to.
pub open spec fn ends_exist(
    tables: Tables,
    databases: Seq<DatabaseView>,
    lower: FieldId,
    links: (Link, Link),
) -> bool {
    match schema_field(databases, lower) {
        Some((database_id, field)) => {
            &&& schema_reference(databases, lower) is Some
            &&& at(tables.links, links.0) == Some(database_id)
            &&& at(tables.links, links.1) == field.kind.target()
        },
        None => false,
    }
}

/// Whether no relationship dangles.
pub open spec fn references_anchored(tables: Tables, databases: Seq<DatabaseView>) -> bool {
    forall|key: (FieldId, ReferenceId)|
        #![trigger tables.references.dom().contains(key)]
        tables.references.dom().contains(key) ==> ends_exist(
            tables,
            databases,
            key.0,
            tables.references[key],
        )
}

/// Whether every cell belongs to a record and to a column.
pub open spec fn cells_belong(tables: Tables) -> bool {
    forall|key: (DatabaseId, Link, FieldId)|
        #![trigger tables.cells.dom().contains(key)]
        tables.cells.dom().contains(key) ==> tables.records.dom().contains((key.0, key.1))
            && tables.columns.dom().contains((key.0, key.2))
}

/// Whether the tables are those of a store with this registry: they hold its
/// schema, every record has its link and lives in one of its databases, and
/// every relationship is between two records that exist, of the databases that
/// its fields belong to.
pub open spec fn sound(tables: Tables, databases: Seq<DatabaseView>) -> bool {
    &&& consistent(databases)
    &&& holds_schema(tables, databases)
    &&& links_match(tables)
    &&& forall|link: Link| #[trigger]
        tables.links.dom().contains(link) ==> has_database(databases, tables.links[link])
    &&& references_anchored(tables, databases)
    &&& cells_belong(tables)
    &&& tables.spare_columns == Map::<(DatabaseId, FieldId), Seq<char>>::empty()
    &&& tables.spare_cells == Map::<(DatabaseId, Link, FieldId), SqlView>::empty()
}

/// The tables of a store without databases.
pub open spec fn empty_tables() -> Tables {
    Tables {
        databases: Map::empty(),
        fields: Map::empty(),
        numbers: RowNumbers { of: Map::empty(), next: 0 },
        links: Map::empty(),
        record_tables: Map::empty(),
        columns: Map::empty(),
        records: Map::empty(),
        cells: Map::empty(),
        spare_columns: Map::empty(),
        spare_cells: Map::empty(),
        reference_tables: Map::empty(),
        references: Map::empty(),
        blobs: Map::empty(),
    }
}

/// A store without databases is sound.
pub proof fn empty_store_is_sound()
    ensures
        sound(empty_tables(), Seq::empty()),
{
    let databases = Seq::<DatabaseView>::empty();
    assert forall|id: DatabaseId| !has_database(databases, id) by {
        if has_database(databases, id) {
            assert(is_database(databases, id, database_index(databases, id)));
        }
    }
    assert forall|id: FieldId| #[trigger] schema_field(databases, id) is None by {}
}

/// What a step does to the tables, row by row, where it touches them at all.
pub(crate) proof fn rows_of_applied(tables: Tables, step: StepView)
    ensures
        ({
            let end = applied(tables, step);
            &&& forall|key: DatabaseId| #[trigger]
                at(end.databases, key) == crate::tables::database_row(
                    step,
                    key,
                    at(tables.databases, key),
                )
            &&& forall|key: FieldId| #[trigger]
                at(end.fields, key) == crate::tables::field_row(step, key, at(tables.fields, key))
            &&& forall|key: Link| #[trigger]
                at(end.links, key) == crate::tables::link_row(step, key, at(tables.links, key))
            &&& forall|key: DatabaseId| #[trigger]
                at(end.record_tables, key) == crate::tables::record_table_row(
                    step,
                    key,
                    at(tables.record_tables, key),
                )
            &&& forall|key: (DatabaseId, FieldId)| #[trigger]
                at(end.columns, key) == crate::tables::column_row(
                    step,
                    key,
                    at(tables.columns, key),
                    at(tables.spare_columns, key),
                )
            &&& forall|key: (DatabaseId, Link)| #[trigger]
                at(end.records, key) == crate::tables::record_row(
                    step,
                    key,
                    at(tables.records, key),
                )
            &&& forall|key: (DatabaseId, Link, FieldId)| #[trigger]
                at(end.cells, key) == crate::tables::cell_row(
                    step,
                    key,
                    at(tables.cells, key),
                    tables.records.dom().contains((key.0, key.1)),
                    at(tables.spare_cells, key),
                )
            &&& forall|key: (DatabaseId, FieldId)| #[trigger]
                at(end.spare_columns, key) == crate::tables::spare_column_row(
                    step,
                    key,
                    at(tables.spare_columns, key),
                )
            &&& forall|key: (DatabaseId, Link, FieldId)| #[trigger]
                at(end.spare_cells, key) == crate::tables::spare_cell_row(
                    step,
                    key,
                    at(tables.spare_cells, key),
                    tables.records.dom().contains((key.0, key.1)),
                )
            &&& forall|key: FieldId| #[trigger]
                at(end.reference_tables, key) == crate::tables::reference_table_row(
                    step,
                    key,
                    at(tables.reference_tables, key),
                )
            &&& forall|key: (FieldId, ReferenceId)| #[trigger]
                at(end.references, key) == reference_row(step, key, at(tables.references, key))
            &&& forall|key: Seq<char>| #[trigger]
                at(end.blobs, key) == crate::tables::blob_row(step, key, at(tables.blobs, key))
        }),
{
    broadcast use map_of_at;

}

/// The tables after creating a record: it is there, with its link and its
/// times, and has no values. Nothing else changes, and the store stays sound.
pub proof fn create_record_comes_to(
    tables: Tables,
    databases: Seq<DatabaseView>,
    database_id: DatabaseId,
    link: Link,
    now: Seq<char>,
)
    requires
        sound(tables, databases),
        has_database(databases, database_id),
        !tables.links.dom().contains(link),
    ensures
        ({
            let end = all_applied(tables, create_record_steps(database_id, link, now));
            &&& sound(end, databases)
            &&& end == (Tables {
                links: tables.links.insert(link, database_id),
                records: tables.records.insert(
                    (database_id, link),
                    RecordTimes { created_at: now, updated_at: now },
                ),
                ..tables
            })
            &&& forall|field: FieldId| #[trigger]
                at(end.cells, (database_id, link, field)) is None
        }),
{
    let steps = create_record_steps(database_id, link, now);
    let first = StepView::InsertLink { link, database_id };
    let second = StepView::InsertRecord { database_id, link, now };
    assert(steps.drop_last() =~= seq![first]);
    assert(seq![first].drop_last() =~= Seq::empty());
    reveal_with_fuel(all_applied, 3);
    let middle = applied(tables, first);
    let end = applied(middle, second);
    assert(end == all_applied(tables, steps));
    rows_of_applied(tables, first);
    rows_of_applied(middle, second);
    same_rows(end.databases, tables.databases);
    same_rows(end.fields, tables.fields);
    same_rows(end.record_tables, tables.record_tables);
    same_rows(end.columns, tables.columns);
    same_rows(end.cells, tables.cells);
    same_rows(end.spare_columns, tables.spare_columns);
    same_rows(end.spare_cells, tables.spare_cells);
    same_rows(end.reference_tables, tables.reference_tables);
    same_rows(end.references, tables.references);
    same_rows(end.blobs, tables.blobs);
    same_rows(end.links, tables.links.insert(link, database_id));
    same_rows(
        end.records,
        tables.records.insert(
            (database_id, link),
            RecordTimes { created_at: now, updated_at: now },
        ),
    );
    assert forall|field: FieldId| #[trigger]
        at(end.cells, (database_id, link, field)) is None by {
        if tables.cells.dom().contains((database_id, link, field)) {
            assert(tables.records.dom().contains((database_id, link)));
        }
    }
    assert forall|key: (FieldId, ReferenceId)|
        #![trigger end.references.dom().contains(key)]
        end.references.dom().contains(key) implies ends_exist(
        end,
        databases,
        key.0,
        end.references[key],
    ) by {
        assert(tables.references.dom().contains(key));
    }
}

/// What is read from a column for a record: null where there is nothing.
pub open spec fn cell_value(tables: Tables, key: (DatabaseId, Link, FieldId)) -> SqlView {
    match at(tables.cells, key) {
        Some(value) => value,
        None => SqlView::Null,
    }
}

/// The tables after setting a value: the cell holds it, the record counts as
/// updated, nothing else changes, and the store stays sound.
pub proof fn set_value_comes_to(
    tables: Tables,
    databases: Seq<DatabaseView>,
    database_id: DatabaseId,
    field: FieldId,
    value: SqlView,
    now: Seq<char>,
    link: Link,
)
    requires
        sound(tables, databases),
        at(tables.links, link) == Some(database_id),
        schema_column(databases, (database_id, field)) is Some,
    ensures
        ({
            let key = (database_id, link, field);
            let end = applied(
                tables,
                StepView::SetValue { database_id, field, value, now, link },
            );
            &&& sound(end, databases)
            &&& at(end.cells, key) == unless_null(value)
            &&& forall|other: (DatabaseId, Link, FieldId)|
                other != key ==> #[trigger] at(end.cells, other) == at(tables.cells, other)
            &&& end.records == tables.records.insert(
                (database_id, link),
                RecordTimes { updated_at: now, ..tables.records[(database_id, link)] },
            )
            &&& end == (Tables { cells: end.cells, records: end.records, ..tables })
        }),
{
    let step = StepView::SetValue { database_id, field, value, now, link };
    let end = applied(tables, step);
    rows_of_applied(tables, step);
    assert(tables.records.dom().contains((database_id, link)));
    same_rows(end.databases, tables.databases);
    same_rows(end.fields, tables.fields);
    same_rows(end.links, tables.links);
    same_rows(end.record_tables, tables.record_tables);
    same_rows(end.columns, tables.columns);
    same_rows(end.spare_columns, tables.spare_columns);
    same_rows(end.spare_cells, tables.spare_cells);
    same_rows(end.reference_tables, tables.reference_tables);
    same_rows(end.references, tables.references);
    same_rows(end.blobs, tables.blobs);
    same_rows(
        end.records,
        tables.records.insert(
            (database_id, link),
            RecordTimes { updated_at: now, ..tables.records[(database_id, link)] },
        ),
    );
    assert(at(tables.columns, (database_id, field)) is Some);
    assert forall|key: (DatabaseId, Link, FieldId)|
        #![trigger end.cells.dom().contains(key)]
        end.cells.dom().contains(key) implies end.records.dom().contains((key.0, key.1))
        && end.columns.dom().contains((key.0, key.2)) by {
        assert(at(end.cells, key) is Some);
        if key != (database_id, link, field) {
            assert(tables.cells.dom().contains(key));
        }
    }
    assert forall|d: DatabaseId, l: Link|
        #![trigger end.records.dom().contains((d, l))]
        end.records.dom().contains((d, l)) == (at(end.links, l) == Some(d)) by {
        assert(tables.records.dom().contains((d, l)) == (at(tables.links, l) == Some(d)));
    }
    assert forall|key: (FieldId, ReferenceId)|
        #![trigger end.references.dom().contains(key)]
        end.references.dom().contains(key) implies ends_exist(
        end,
        databases,
        key.0,
        end.references[key],
    ) by {
        assert(tables.references.dom().contains(key));
    }
}

/// A value that was set is read back as it was: what `Store::set_value` writes
/// reads as the value, and it is what the column comes to hold. What is not a
/// number is left out, since a column cannot hold it; zero may lose its sign,
/// which leaves it equal.
pub proof fn set_value_reads_back(
    tables: Tables,
    databases: Seq<DatabaseView>,
    database_id: DatabaseId,
    field: FieldId,
    kind: FieldKindView,
    value: ValueView,
    held: SqlView,
    now: Seq<char>,
    link: Link,
    cell: CellView,
)
    requires
        sound(tables, databases),
        at(tables.links, link) == Some(database_id),
        schema_field(databases, field) matches Some((owner, definition)) && owner == database_id
            && definition.kind == kind,
        kind !is Reference,
        reads_back(kind, held, column_value(value)),
        encoded_value(field, kind, value) == Ok::<SqlView, ErrorView>(held),
        value matches ValueView::Number(number) ==> !number.spec_is_nan(),
        cell.value == cell_value(
            applied(tables, StepView::SetValue { database_id, field, value: held, now, link }),
            (database_id, link, field),
        ),
    ensures
        decoded_value(kind, cell) matches Ok(read) && (read == column_value(value) || values_match(
            read,
            column_value(value),
        )),
{
    assert(schema_column(databases, (database_id, field)) is Some);
    set_value_comes_to(tables, databases, database_id, field, held, now, link);
    if let ValueView::Number(number) = value {
        if number.spec_is_zero() {
            Number::of_bool_is_a_number();
        }
    }
}

/// Whether deleting a record's relationships through the `k`th field deletes
/// this one: it is in the field's table, with the record on the field's side.
spec fn unlinked_by(
    fields: Seq<FieldView>,
    k: int,
    lower: FieldId,
    links: (Link, Link),
    link: Link,
) -> bool {
    &&& 0 <= k < fields.len()
    &&& fields[k].kind.pair() matches Some(pair)
    &&& lower == ordered_pair(fields[k].id, pair).0
    &&& link == if side_of(fields[k].id, pair) == ReferenceSide::A {
        links.0
    } else {
        links.1
    }
}

/// What the steps that delete a record's relationships do to one of them.
proof fn unlinked(tables: Tables, fields: Seq<FieldView>, link: Link, key: (FieldId, ReferenceId))
    ensures
        ({
            let end = all_applied(tables, unlink_steps(fields, link));
            at(end.references, key) == match at(tables.references, key) {
                Some(links) => if exists|k: int| #[trigger]
                    unlinked_by(fields, k, key.0, links, link) {
                    None
                } else {
                    Some(links)
                },
                None => None,
            }
        }),
    decreases fields.len(),
{
    if fields.len() > 0 {
        let rest = fields.drop_last();
        let last = fields.len() - 1;
        unlinked(tables, rest, link, key);
        let before = all_applied(tables, unlink_steps(rest, link));
        match fields.last().kind.pair() {
            Some(pair) => {
                let step = StepView::DeleteReferencesOf { field: fields.last().id, pair, link };
                assert(unlink_steps(fields, link).drop_last() =~= unlink_steps(rest, link));
                rows_of_applied(before, step);
            },
            None => {},
        }
        if let Some(links) = at(tables.references, key) {
            if exists|k: int| #[trigger] unlinked_by(rest, k, key.0, links, link) {
                let k = choose|k: int| #[trigger] unlinked_by(rest, k, key.0, links, link);
                assert(unlinked_by(fields, k, key.0, links, link));
            }
            if exists|k: int| #[trigger] unlinked_by(fields, k, key.0, links, link) {
                let k = choose|k: int| #[trigger] unlinked_by(fields, k, key.0, links, link);
                if k < last {
                    assert(unlinked_by(rest, k, key.0, links, link));
                }
            } else {
                assert(!unlinked_by(fields, last, key.0, links, link));
            }
        }
    }
}

/// Deleting relationships leaves everything else as it is.
proof fn unlinking_keeps_the_rest(tables: Tables, fields: Seq<FieldView>, link: Link)
    ensures
        ({
            let end = all_applied(tables, unlink_steps(fields, link));
            end == (Tables { references: end.references, ..tables })
        }),
    decreases fields.len(),
{
    if fields.len() > 0 {
        let rest = fields.drop_last();
        unlinking_keeps_the_rest(tables, rest, link);
        match fields.last().kind.pair() {
            Some(pair) => {
                let before = all_applied(tables, unlink_steps(rest, link));
                let step = StepView::DeleteReferencesOf { field: fields.last().id, pair, link };
                assert(unlink_steps(fields, link).drop_last() =~= unlink_steps(rest, link));
                let end = applied(before, step);
                rows_of_applied(before, step);
                same_rows(end.databases, before.databases);
                same_rows(end.fields, before.fields);
                same_rows(end.links, before.links);
                same_rows(end.record_tables, before.record_tables);
                same_rows(end.columns, before.columns);
                same_rows(end.records, before.records);
                same_rows(end.cells, before.cells);
                same_rows(end.spare_columns, before.spare_columns);
                same_rows(end.spare_cells, before.spare_cells);
                same_rows(end.reference_tables, before.reference_tables);
                same_rows(end.blobs, before.blobs);
            },
            None => {},
        }
    }
}

/// Whether a relationship touches a record.
pub open spec fn touches(links: (Link, Link), link: Link) -> bool {
    links.0 == link || links.1 == link
}

/// Every relationship that touches a record is deleted through one of the
/// fields of the record's own database.
proof fn own_fields_suffice(
    tables: Tables,
    databases: Seq<DatabaseView>,
    database_id: DatabaseId,
    link: Link,
    key: (FieldId, ReferenceId),
)
    requires
        sound(tables, databases),
        at(tables.links, link) == Some(database_id),
        tables.references.dom().contains(key),
    ensures
        (exists|k: int| #[trigger]
            unlinked_by(
                database_of(databases, database_id).fields,
                k,
                key.0,
                tables.references[key],
                link,
            )) == touches(tables.references[key], link),
{
    let links = tables.references[key];
    let lower = key.0;
    let fields = database_of(databases, database_id).fields;
    assert(ends_exist(tables, databases, lower, links));
    let (i, k) = choose|i: int, k: int| stands_at(databases, lower, i, k);
    standing_field(databases, i, k);
    assert(is_field(databases, i, k));
    let field = field_at(databases, i, k);
    assert(field.kind is Reference);
    assert(has_counterpart(databases, i, k));
    let (j, m) = choose|j: int, m: int| #[trigger] are_paired(databases, i, k, j, m);
    let pair = field_at(databases, j, m).id;
    assert(field.id != pair) by {
        assert(field_at(databases, i, k).id != field_at(databases, j, m).id);
    }
    if links.0 == link {
        assert(databases[i].id == database_id);
        assert(is_database(databases, database_id, i));
        database_index_is(databases, database_id, i);
        assert(unlinked_by(fields, k, lower, links, link));
    }
    if links.1 == link {
        assert(databases[j].id == database_id);
        assert(is_database(databases, database_id, j));
        database_index_is(databases, database_id, j);
        assert(fields[m] == field_at(databases, j, m));
        assert(unlinked_by(fields, m, lower, links, link));
    }
}

/// The tables after deleting a record: the record, its link and its cells are
/// gone, and so is every relationship that touched it, from whichever side.
/// Every other relationship, record and cell is as it was, and the store stays
/// sound.
pub proof fn delete_record_comes_to(
    tables: Tables,
    databases: Seq<DatabaseView>,
    database_id: DatabaseId,
    link: Link,
)
    requires
        sound(tables, databases),
        at(tables.links, link) == Some(database_id),
    ensures
        ({
            let end = all_applied(
                tables,
                delete_record_steps(database_of(databases, database_id).fields, database_id, link),
            );
            &&& sound(end, databases)
            &&& end.links == tables.links.remove(link)
            &&& end.records == tables.records.remove((database_id, link))
            &&& forall|key: (DatabaseId, Link, FieldId)| #[trigger]
                at(end.cells, key) == if key.1 == link {
                    None
                } else {
                    at(tables.cells, key)
                }
            &&& forall|key: (FieldId, ReferenceId)| #[trigger]
                at(end.references, key) == match at(tables.references, key) {
                    Some(links) => if touches(links, link) {
                        None
                    } else {
                        Some(links)
                    },
                    None => None,
                }
            &&& end == (Tables {
                links: end.links,
                records: end.records,
                cells: end.cells,
                references: end.references,
                ..tables
            })
        }),
{
    let fields = database_of(databases, database_id).fields;
    let first = unlink_steps(fields, link);
    let delete = StepView::DeleteRecord { database_id, link };
    let forget = StepView::DeleteLink { link };
    let second = seq![delete, forget];
    applied_in_turn(tables, first, second);
    let middle = all_applied(tables, first);
    let late = applied(middle, delete);
    let end = applied(late, forget);
    assert(second.drop_last() =~= seq![delete]);
    assert(seq![delete].drop_last() =~= Seq::empty());
    assert(end == all_applied(middle, second)) by {
        reveal_with_fuel(all_applied, 3);
    }
    unlinking_keeps_the_rest(tables, fields, link);
    rows_of_applied(middle, delete);
    rows_of_applied(late, forget);
    assert forall|key: (FieldId, ReferenceId)| #[trigger]
        at(end.references, key) == match at(tables.references, key) {
            Some(links) => if touches(links, link) {
                None
            } else {
                Some(links)
            },
            None => None,
        } by {
        unlinked(tables, fields, link, key);
        if tables.references.dom().contains(key) {
            own_fields_suffice(tables, databases, database_id, link, key);
        }
        assert(at(end.references, key) == at(middle.references, key));
    }
    same_rows(end.links, tables.links.remove(link));
    same_rows(end.records, tables.records.remove((database_id, link)));
    same_rows(end.databases, tables.databases);
    same_rows(end.fields, tables.fields);
    same_rows(end.record_tables, tables.record_tables);
    same_rows(end.columns, tables.columns);
    same_rows(end.spare_columns, tables.spare_columns);
    same_rows(end.spare_cells, tables.spare_cells);
    same_rows(end.reference_tables, tables.reference_tables);
    same_rows(end.blobs, tables.blobs);
    assert forall|key: (DatabaseId, Link, FieldId)| #[trigger]
        at(end.cells, key) == if key.1 == link {
            None
        } else {
            at(tables.cells, key)
        } by {
        if key.1 == link && key.0 != database_id && tables.cells.dom().contains(key) {
            assert(tables.records.dom().contains((key.0, key.1)));
        }
    }
    assert forall|d: DatabaseId, l: Link|
        #![trigger end.records.dom().contains((d, l))]
        end.records.dom().contains((d, l)) == (at(end.links, l) == Some(d)) by {
        assert(tables.records.dom().contains((d, l)) == (at(tables.links, l) == Some(d)));
    }
    assert forall|l: Link| #[trigger] end.links.dom().contains(l) implies has_database(
        databases,
        end.links[l],
    ) by {
        assert(tables.links.dom().contains(l));
    }
    assert forall|key: (FieldId, ReferenceId)|
        #![trigger end.references.dom().contains(key)]
        end.references.dom().contains(key) implies ends_exist(
        end,
        databases,
        key.0,
        end.references[key],
    ) by {
        assert(at(end.references, key) is Some);
        assert(tables.references.dom().contains(key));
        assert(ends_exist(tables, databases, key.0, tables.references[key]));
    }
    assert forall|key: (DatabaseId, Link, FieldId)|
        #![trigger end.cells.dom().contains(key)]
        end.cells.dom().contains(key) implies end.records.dom().contains((key.0, key.1))
        && end.columns.dom().contains((key.0, key.2)) by {
        assert(at(end.cells, key) is Some);
        assert(tables.cells.dom().contains(key));
    }
}

/// What the query for a record's database gives.
pub open spec fn link_text(tables: Tables, link: Link) -> Option<Seq<char>> {
    match at(tables.links, link) {
        Some(database_id) => Some(uuid_text(database_id.0)),
        None => None,
    }
}

/// Whether the query for the relationships of a record through a field lists
/// this one, with this record at the other end.
pub open spec fn lists(
    tables: Tables,
    field: FieldId,
    pair: FieldId,
    link: Link,
    id: ReferenceId,
    other: Link,
) -> bool {
    at(tables.references, (ordered_pair(field, pair).0, id)) == Some(
        in_columns(field, pair, link, other),
    )
}

/// A record that is found belongs to the database that its link says.
pub(crate) proof fn found_where_linked(tables: Tables, link: Link)
    ensures
        match at(tables.links, link) {
            Some(database_id) => resolved(link, link_text(tables, link)) == Ok::<
                DatabaseId,
                ErrorView,
            >(database_id),
            None => resolved(link, link_text(tables, link)) == Err::<DatabaseId, ErrorView>(
                ErrorView::RecordNotFound(link),
            ),
        },
{
    if let Some(database_id) = at(tables.links, link) {
        uuid_text_reads_back(database_id.0);
    }
}

/// A new record has no values and no relationships: every column reads as
/// empty, and no field lists anything from either end.
pub proof fn new_record_is_empty(
    tables: Tables,
    databases: Seq<DatabaseView>,
    database_id: DatabaseId,
    link: Link,
    now: Seq<char>,
    kind: FieldKindView,
    field: FieldId,
    pair: FieldId,
    id: ReferenceId,
    other: Link,
    cell: CellView,
)
    requires
        sound(tables, databases),
        has_database(databases, database_id),
        !tables.links.dom().contains(link),
        cell.value == cell_value(
            all_applied(tables, create_record_steps(database_id, link, now)),
            (database_id, link, field),
        ),
    ensures
        decoded_value(kind, cell) == Ok::<ValueView, ErrorView>(ValueView::Empty),
        ({
            let end = all_applied(tables, create_record_steps(database_id, link, now));
            &&& !lists(end, field, pair, link, id, other)
            &&& !lists(end, field, pair, other, id, link)
        }),
{
    create_record_comes_to(tables, databases, database_id, link, now);
    let key = (ordered_pair(field, pair).0, id);
    if tables.references.dom().contains(key) {
        assert(ends_exist(tables, databases, key.0, tables.references[key]));
        assert(at(tables.links, link) is None);
    }
}

/// A record that was deleted is not found, and no relationship leads to it
/// from anywhere.
pub proof fn deleted_record_is_gone(
    tables: Tables,
    databases: Seq<DatabaseView>,
    database_id: DatabaseId,
    link: Link,
    field: FieldId,
    pair: FieldId,
    id: ReferenceId,
    other: Link,
)
    requires
        sound(tables, databases),
        at(tables.links, link) == Some(database_id),
    ensures
        ({
            let end = all_applied(
                tables,
                delete_record_steps(database_of(databases, database_id).fields, database_id, link),
            );
            &&& resolved(link, link_text(end, link)) == Err::<DatabaseId, ErrorView>(
                ErrorView::RecordNotFound(link),
            )
            &&& !lists(end, field, pair, link, id, other)
            &&& !lists(end, field, pair, other, id, link)
        }),
{
    let end = all_applied(
        tables,
        delete_record_steps(database_of(databases, database_id).fields, database_id, link),
    );
    delete_record_comes_to(tables, databases, database_id, link);
    found_where_linked(end, link);
    let key = (ordered_pair(field, pair).0, id);
    assert(at(end.references, key) matches Some(links) ==> !touches(links, link));
}

/// The tables after creating a relationship: it is listed from both of its
/// ends, nothing else changes, and the store stays sound.
pub proof fn create_reference_comes_to(
    tables: Tables,
    databases: Seq<DatabaseView>,
    source_link: Link,
    source_field: FieldId,
    target_link: Link,
    id: ReferenceId,
    reference: Reference,
)
    requires
        sound(tables, databases),
        reference_created(
            databases,
            source_link,
            source_field,
            target_link,
            link_text(tables, source_link),
            link_text(tables, target_link),
            id,
        ) == Ok::<Reference, ErrorView>(reference),
    ensures
        ({
            let end = applied(tables, insert_reference_step(reference));
            let pair = reference.target_field;
            &&& sound(end, databases)
            &&& lists(end, source_field, pair, source_link, id, target_link)
            &&& lists(end, pair, source_field, target_link, id, source_link)
            &&& end == (Tables {
                references: tables.references.insert(
                    (ordered_pair(source_field, pair).0, id),
                    in_columns(source_field, pair, source_link, target_link),
                ),
                ..tables
            })
        }),
{
    let step = insert_reference_step(reference);
    let end = applied(tables, step);
    let pair = reference.target_field;
    rows_of_applied(tables, step);
    found_where_linked(tables, source_link);
    found_where_linked(tables, target_link);
    let d = at(tables.links, source_link)->0;
    field_position_found(database_of(databases, d).fields, source_field);
    let (i, k) = former_stands(databases, d, source_field);
    standing_field(databases, i, k);
    let field = field_at(databases, i, k);
    assert(field == field_in(databases, d, source_field));
    assert(field.kind is Reference);
    assert(has_counterpart(databases, i, k));
    let (j, m) = choose|j: int, m: int| #[trigger] are_paired(databases, i, k, j, m);
    standing_field(databases, j, m);
    assert(field_at(databases, j, m).id == pair);
    assert(source_field != pair) by {
        assert(field_at(databases, i, k).id != field_at(databases, j, m).id);
    }
    pair_agrees(source_field, pair);
    let lower = ordered_pair(source_field, pair).0;
    let key = (lower, id);
    let links = in_columns(source_field, pair, source_link, target_link);
    same_rows(end.databases, tables.databases);
    same_rows(end.fields, tables.fields);
    same_rows(end.links, tables.links);
    same_rows(end.record_tables, tables.record_tables);
    same_rows(end.columns, tables.columns);
    same_rows(end.records, tables.records);
    same_rows(end.cells, tables.cells);
    same_rows(end.spare_columns, tables.spare_columns);
    same_rows(end.spare_cells, tables.spare_cells);
    same_rows(end.reference_tables, tables.reference_tables);
    same_rows(end.blobs, tables.blobs);
    same_rows(end.references, tables.references.insert(key, links));
    assert(ends_exist(end, databases, lower, links));
    assert forall|other: (FieldId, ReferenceId)|
        #![trigger end.references.dom().contains(other)]
        end.references.dom().contains(other) implies ends_exist(
        end,
        databases,
        other.0,
        end.references[other],
    ) by {
        if other != key {
            assert(tables.references.dom().contains(other));
        }
    }
}

/// Both fields of a pair delete the same relationship.
pub proof fn either_field_deletes(tables: Tables, field: FieldId, pair: FieldId, id: ReferenceId)
    ensures
        applied(tables, StepView::DeleteReference { field, pair, id }) == applied(
            tables,
            StepView::DeleteReference { field: pair, pair: field, id },
        ),
{
    let one = StepView::DeleteReference { field, pair, id };
    let other = StepView::DeleteReference { field: pair, pair: field, id };
    pair_agrees(field, pair);
    let a = applied(tables, one);
    let b = applied(tables, other);
    rows_of_applied(tables, one);
    rows_of_applied(tables, other);
    same_rows(a.databases, b.databases);
    same_rows(a.fields, b.fields);
    same_rows(a.links, b.links);
    same_rows(a.record_tables, b.record_tables);
    same_rows(a.columns, b.columns);
    same_rows(a.records, b.records);
    same_rows(a.cells, b.cells);
    same_rows(a.spare_columns, b.spare_columns);
    same_rows(a.spare_cells, b.spare_cells);
    same_rows(a.reference_tables, b.reference_tables);
    same_rows(a.references, b.references);
    same_rows(a.blobs, b.blobs);
}

/// The tables after deleting a relationship: it is listed from neither of its
/// ends, nothing else changes, and the store stays sound.
pub proof fn delete_reference_comes_to(
    tables: Tables,
    databases: Seq<DatabaseView>,
    field: FieldId,
    pair: FieldId,
    id: ReferenceId,
)
    requires
        sound(tables, databases),
    ensures
        ({
            let end = applied(tables, StepView::DeleteReference { field, pair, id });
            &&& sound(end, databases)
            &&& end == (Tables {
                references: tables.references.remove((ordered_pair(field, pair).0, id)),
                ..tables
            })
            &&& forall|link: Link, other: Link| !#[trigger]
                lists(end, field, pair, link, id, other) && !lists(
                    end,
                    pair,
                    field,
                    link,
                    id,
                    other,
                )
        }),
{
    let step = StepView::DeleteReference { field, pair, id };
    let end = applied(tables, step);
    rows_of_applied(tables, step);
    pair_agrees(field, pair);
    same_rows(end.databases, tables.databases);
    same_rows(end.fields, tables.fields);
    same_rows(end.links, tables.links);
    same_rows(end.record_tables, tables.record_tables);
    same_rows(end.columns, tables.columns);
    same_rows(end.records, tables.records);
    same_rows(end.cells, tables.cells);
    same_rows(end.spare_columns, tables.spare_columns);
    same_rows(end.spare_cells, tables.spare_cells);
    same_rows(end.reference_tables, tables.reference_tables);
    same_rows(end.blobs, tables.blobs);
    same_rows(end.references, tables.references.remove((ordered_pair(field, pair).0, id)));
    assert forall|key: (FieldId, ReferenceId)|
        #![trigger end.references.dom().contains(key)]
        end.references.dom().contains(key) implies ends_exist(
        end,
        databases,
        key.0,
        end.references[key],
    ) by {
        assert(tables.references.dom().contains(key));
    }
}

/// The relationships that a record has are seen alike from both ends.
pub proof fn listed_from_both_ends(
    tables: Tables,
    field: FieldId,
    pair: FieldId,
    link: Link,
    id: ReferenceId,
    other: Link,
)
    requires
        field != pair,
    ensures
        lists(tables, field, pair, link, id, other) == lists(tables, pair, field, other, id, link),
{
    pair_agrees(field, pair);
}

/// Persisting a change of the registry keeps the store sound.
pub proof fn persisting_keeps_sound(
    tables: Tables,
    before: Seq<DatabaseView>,
    after: Seq<DatabaseView>,
)
    requires
        sound(tables, before),
        consistent(after),
        follows(before, after),
    ensures
        sound(all_applied(tables, diff_steps(before, after)), after),
{
    let end = all_applied(tables, diff_steps(before, after));
    persisting_reaches_the_new_schema(tables, before, after);
    persisting_keeps_the_rest(tables, before, after);
    assert forall|link: Link| #[trigger] end.links.dom().contains(link) implies has_database(
        after,
        end.links[link],
    ) by {
        assert(at(end.links, link) is Some);
        assert(tables.links.dom().contains(link));
    }
    assert forall|d: DatabaseId, l: Link|
        #![trigger end.records.dom().contains((d, l))]
        end.records.dom().contains((d, l)) == (at(end.links, l) == Some(d)) by {
        assert(at(end.records, (d, l)) == if database_goes(before, after, d) {
            None
        } else {
            at(tables.records, (d, l))
        });
        assert(tables.records.dom().contains((d, l)) == (at(tables.links, l) == Some(d)));
        assert(at(end.links, l) == match at(tables.links, l) {
            Some(id) => if database_goes(before, after, id) {
                None
            } else {
                Some(id)
            },
            None => None,
        });
    }
    assert forall|key: (FieldId, ReferenceId)|
        #![trigger end.references.dom().contains(key)]
        end.references.dom().contains(key) implies ends_exist(
        end,
        after,
        key.0,
        end.references[key],
    ) by {
        let lower = key.0;
        assert(at(end.references, key) is Some);
        assert(tables.references.dom().contains(key));
        let links = tables.references[key];
        assert(ends_exist(tables, before, lower, links));
        let (i, k) = choose|i: int, k: int| stands_at(before, lower, i, k);
        standing_field(before, i, k);
        assert(schema_field(after, lower) is Some);
        let (j, m) = choose|j: int, m: int| stands_at(after, lower, j, m);
        standing_field(after, j, m);
        assert(field_at(before, i, k).id == field_at(after, j, m).id);
        assert(field_at(after, j, m).kind is Reference);
        assert(has_counterpart(after, j, m));
        let (p, q) = choose|p: int, q: int| #[trigger] are_paired(after, j, m, p, q);
        standing_field(after, p, q);
        assert(at(end.links, links.0) == Some(after[j].id));
        assert(at(end.links, links.1) == Some(after[p].id));
    }
    assert forall|key: (DatabaseId, Link, FieldId)|
        #![trigger end.cells.dom().contains(key)]
        end.cells.dom().contains(key) implies end.records.dom().contains((key.0, key.1))
        && end.columns.dom().contains((key.0, key.2)) by {
        assert(at(end.cells, key) is Some);
        assert(tables.cells.dom().contains(key));
        assert(tables.records.dom().contains((key.0, key.1)));
        assert(at(end.records, (key.0, key.1)) is Some);
        assert(at(tables.columns, (key.0, key.2)) == schema_column(before, (key.0, key.2)));
        assert(at(end.columns, (key.0, key.2)) == schema_column(after, (key.0, key.2)));
        let (i, k) = choose|i: int, k: int| stands_at(before, key.2, i, k);
        standing_field(before, i, k);
        assert(schema_field(after, key.2) is Some);
        let (j, m) = choose|j: int, m: int| stands_at(after, key.2, j, m);
        standing_field(after, j, m);
        assert(field_at(before, i, k).id == field_at(after, j, m).id);
    }
    spare_stays_empty(tables, before, after);
}

/// Persisting a change of the registry uses no spare columns.
proof fn spare_stays_empty(tables: Tables, before: Seq<DatabaseView>, after: Seq<DatabaseView>)
    requires
        tables.spare_columns == Map::<(DatabaseId, FieldId), Seq<char>>::empty(),
        tables.spare_cells == Map::<(DatabaseId, Link, FieldId), SqlView>::empty(),
    ensures
        ({
            let end = all_applied(tables, diff_steps(before, after));
            &&& end.spare_columns == Map::<(DatabaseId, FieldId), Seq<char>>::empty()
            &&& end.spare_cells == Map::<(DatabaseId, Link, FieldId), SqlView>::empty()
        }),
{
    diff_is_schema_steps(before, after);
    spare_untouched(tables, diff_steps(before, after));
}

proof fn spare_untouched(tables: Tables, steps: Seq<StepView>)
    requires
        tables.spare_columns == Map::<(DatabaseId, FieldId), Seq<char>>::empty(),
        tables.spare_cells == Map::<(DatabaseId, Link, FieldId), SqlView>::empty(),
        all_schema_steps(steps),
    ensures
        ({
            let end = all_applied(tables, steps);
            &&& end.spare_columns == Map::<(DatabaseId, FieldId), Seq<char>>::empty()
            &&& end.spare_cells == Map::<(DatabaseId, Link, FieldId), SqlView>::empty()
        }),
    decreases steps.len(),
{
    if steps.len() > 0 {
        let rest = steps.drop_last();
        assert forall|i: int| 0 <= i < rest.len() implies is_schema_step(#[trigger] rest[i]) by {
            assert(rest[i] == steps[i]);
        }
        spare_untouched(tables, rest);
        let before = all_applied(tables, rest);
        let step = steps[steps.len() - 1];
        assert(is_schema_step(step));
        rows_of_applied(before, step);
        let end = applied(before, step);
        same_rows(end.spare_columns, Map::empty());
        same_rows(end.spare_cells, Map::empty());
    }
}

/// Whether every blob is stored under the hash of its bytes.
pub open spec fn content_addressed(tables: Tables) -> bool {
    forall|hash: Seq<char>| #[trigger]
        tables.blobs.dom().contains(hash) ==> content_hash(tables.blobs[hash].bytes) == hash
}

/// The tables after writing a blob: bytes whose hash is there already change
/// nothing, so that the first filename stays; other bytes are stored with
/// theirs. Every blob is still stored under the hash of its bytes.
pub proof fn write_blob_comes_to(
    tables: Tables,
    bytes: Seq<u8>,
    filename: Option<Seq<char>>,
    now: Seq<char>,
)
    requires
        content_addressed(tables),
    ensures
        ({
            let hash = content_hash(bytes);
            let end = applied(tables, write_blob_step(bytes, filename, now));
            &&& content_addressed(end)
            &&& end == (Tables {
                blobs: if tables.blobs.dom().contains(hash) {
                    tables.blobs
                } else {
                    tables.blobs.insert(hash, BlobRow { bytes, filename })
                },
                ..tables
            })
        }),
{
    let hash = content_hash(bytes);
    let step = write_blob_step(bytes, filename, now);
    let end = applied(tables, step);
    rows_of_applied(tables, step);
    same_rows(end.databases, tables.databases);
    same_rows(end.fields, tables.fields);
    same_rows(end.links, tables.links);
    same_rows(end.record_tables, tables.record_tables);
    same_rows(end.columns, tables.columns);
    same_rows(end.records, tables.records);
    same_rows(end.cells, tables.cells);
    same_rows(end.spare_columns, tables.spare_columns);
    same_rows(end.spare_cells, tables.spare_cells);
    same_rows(end.reference_tables, tables.reference_tables);
    same_rows(end.references, tables.references);
    same_rows(
        end.blobs,
        if tables.blobs.dom().contains(hash) {
            tables.blobs
        } else {
            tables.blobs.insert(hash, BlobRow { bytes, filename })
        },
    );
}

/// The filename that a blob is stored with.
pub open spec fn stored_filename(tables: Tables, hash: Seq<char>) -> Option<Seq<char>> {
    match at(tables.blobs, hash) {
        Some(row) => row.filename,
        None => None,
    }
}

/// The handle on bytes that were written has the filename of the first to write
/// them, which is the one just given only where they were not there before.
pub proof fn first_filename_stays(
    tables: Tables,
    bytes: Seq<u8>,
    filename: Option<Seq<char>>,
    now: Seq<char>,
)
    requires
        content_addressed(tables),
    ensures
        stored_filename(
            applied(tables, write_blob_step(bytes, filename, now)),
            content_hash(bytes),
        ) == if tables.blobs.dom().contains(content_hash(bytes)) {
            stored_filename(tables, content_hash(bytes))
        } else {
            filename
        },
{
    write_blob_comes_to(tables, bytes, filename, now);
}

/// Writing the same bytes again changes nothing, whatever their filename.
pub proof fn writing_again_changes_nothing(
    tables: Tables,
    bytes: Seq<u8>,
    filename: Option<Seq<char>>,
    now: Seq<char>,
    other_filename: Option<Seq<char>>,
    later: Seq<char>,
)
    requires
        content_addressed(tables),
    ensures
        ({
            let once = applied(tables, write_blob_step(bytes, filename, now));
            applied(once, write_blob_step(bytes, other_filename, later)) == once
        }),
{
    write_blob_comes_to(tables, bytes, filename, now);
    let once = applied(tables, write_blob_step(bytes, filename, now));
    write_blob_comes_to(once, bytes, other_filename, later);
}

/// Bytes that were written are read back as they were, unless other bytes with
/// the same hash were there before.
pub proof fn written_blob_reads_back(
    tables: Tables,
    bytes: Seq<u8>,
    filename: Option<Seq<char>>,
    now: Seq<char>,
)
    requires
        content_addressed(tables),
        at(tables.blobs, content_hash(bytes)) matches Some(row) ==> row.bytes == bytes,
    ensures
        at(
            applied(tables, write_blob_step(bytes, filename, now)).blobs,
            content_hash(bytes),
        ) matches Some(row) && row.bytes == bytes,
{
    write_blob_comes_to(tables, bytes, filename, now);
}

} // verus!
