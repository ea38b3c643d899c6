//! What giving a field another kind comes to in the tables.

use vstd::prelude::*;

use crate::cell_laws::{
    cells_readable, is_nan, is_readable_cell, stored_cell_reads, written_is_readable,
};
use crate::codec::{coerced, column_value, decoded_value};
use crate::codec_laws::{accepts, coerced_is_accepted, column_holds_its_type};
use crate::error::ErrorView;
use crate::ids::{DatabaseId, FieldId, Link, ReferenceId};
use crate::kind::{column_type, parsed_uuid};
use crate::number::Number;
use crate::persist_laws::{
    holds_schema, schema_column, schema_database, schema_field, schema_reference, standing_field,
    stands_at,
};
use crate::record::values_match;
use crate::registry::{
    database_index, database_of, field_in, field_replaced, has_database, is_database, retype_error,
    with_fields_keeps,
};
use crate::registry_laws::{consistent, field_at, is_field, retype_field_keeps_consistent};
use crate::schema::{
    field_position, field_position_found, DatabaseView, FieldKindView, FieldView,
};
use crate::sql::{CellView, SqlView};
use crate::steps::StepView;
use crate::store::{migrated, migrated_reads_back, migrated_rows, retype_steps, RetypeRowView};
use crate::store_laws::{cell_value, ends_exist, rows_of_applied, sound};
use crate::tables::{all_applied, applied, applied_in_turn, at, same_rows, unless_null, Tables};
use crate::uuids::{uuid_text, uuid_text_injective, uuid_text_reads_back};

verus! {

/// Whether the rows are those of the query for one field of every record: each
/// record of the database has one, with what its column holds.
pub open spec fn are_rows_of(
    tables: Tables,
    database_id: DatabaseId,
    field: FieldId,
    rows: Seq<RetypeRowView>,
    links: Seq<Link>,
) -> bool {
    &&& links.len() == rows.len()
    &&& links.no_duplicates()
    &&& forall|link: Link| #[trigger]
        links.contains(link) == tables.records.dom().contains((database_id, link))
    &&& forall|i: int|
        0 <= i < rows.len() ==> {
            &&& (#[trigger] rows[i]).link == uuid_text(links[i].0)
            &&& rows[i].cell.value == cell_value(tables, (database_id, links[i], field))
        }
}

/// What migrating many rows comes to, row by row.
pub(crate) proof fn migrated_row_by_row(
    database_id: DatabaseId,
    field: FieldId,
    old_kind: FieldKindView,
    new_kind: FieldKindView,
    rows: Seq<RetypeRowView>,
)
    requires
        migrated_rows(database_id, field, old_kind, new_kind, rows) is Ok,
    ensures
        ({
            let (steps, lost) = migrated_rows(database_id, field, old_kind, new_kind, rows)->Ok_0;
            &&& steps.len() == rows.len()
            &&& forall|i: int|
                0 <= i < rows.len() ==> {
                    &&& migrated(field, old_kind, new_kind, rows[i]) is Ok
                    &&& (#[trigger] steps[i]) == (StepView::SetSpareValue {
                        database_id,
                        field,
                        value: migrated(field, old_kind, new_kind, rows[i])->Ok_0.value,
                        link: rows[i].link,
                    })
                }
        }),
    decreases rows.len(),
{
    if rows.len() > 0 {
        migrated_row_by_row(database_id, field, old_kind, new_kind, rows.drop_last());
        let rest = rows.drop_last();
        let (fewer, _) = migrated_rows(database_id, field, old_kind, new_kind, rest)->Ok_0;
        let (steps, _) = migrated_rows(database_id, field, old_kind, new_kind, rows)->Ok_0;
        assert forall|i: int| 0 <= i < rows.len() implies {
            &&& migrated(field, old_kind, new_kind, rows[i]) is Ok
            &&& (#[trigger] steps[i]) == (StepView::SetSpareValue {
                database_id,
                field,
                value: migrated(field, old_kind, new_kind, rows[i])->Ok_0.value,
                link: rows[i].link,
            })
        } by {
            if i < rest.len() {
                assert(rest[i] == rows[i]);
                assert(fewer[i] == steps[i]);
            }
        }
    }
}

/// Whether a record's value is lost: it has one, and the new kind cannot
/// represent it.
pub open spec fn is_lost(
    old_kind: FieldKindView,
    new_kind: FieldKindView,
    row: RetypeRowView,
) -> bool {
    decoded_value(old_kind, row.cell) matches Ok(value) && value !is Empty && coerced(
        value,
        new_kind,
        row.read,
        row.printed,
    ) is Empty
}

/// The report of a retype names just the records whose value was lost: never
/// one that had none, and never fewer.
pub proof fn report_names_what_was_lost(
    database_id: DatabaseId,
    field: FieldId,
    old_kind: FieldKindView,
    new_kind: FieldKindView,
    rows: Seq<RetypeRowView>,
    link: Link,
)
    requires
        migrated_rows(database_id, field, old_kind, new_kind, rows) is Ok,
    ensures
        migrated_rows(database_id, field, old_kind, new_kind, rows)->Ok_0.1.contains(link) == (
        exists|i: int|
            0 <= i < rows.len() && is_lost(old_kind, new_kind, #[trigger] rows[i]) && parsed_uuid(
                rows[i].link,
            ) == Ok::<u128, ErrorView>(link.0)),
    decreases rows.len(),
{
    let (_, lost) = migrated_rows(database_id, field, old_kind, new_kind, rows)->Ok_0;
    if rows.len() > 0 {
        let rest = rows.drop_last();
        report_names_what_was_lost(database_id, field, old_kind, new_kind, rest, link);
        let (_, fewer) = migrated_rows(database_id, field, old_kind, new_kind, rest)->Ok_0;
        let last = rows.len() - 1;
        let done = migrated(field, old_kind, new_kind, rows.last())->Ok_0;
        if fewer.contains(link) {
            let n = choose|n: int| 0 <= n < fewer.len() && fewer[n] == link;
            assert(lost[n] == link);
            let i = choose|i: int|
                0 <= i < rest.len() && is_lost(old_kind, new_kind, #[trigger] rest[i])
                    && parsed_uuid(rest[i].link) == Ok::<u128, ErrorView>(link.0);
            assert(rows[i] == rest[i]);
        }
        if done.cleared == Some(link) {
            assert(lost[fewer.len() as int] == link);
            assert(is_lost(old_kind, new_kind, rows[last]));
        }
        if lost.contains(link) {
            let n = choose|n: int| 0 <= n < lost.len() && lost[n] == link;
            if n < fewer.len() {
                assert(fewer[n] == link);
            }
        }
        if exists|i: int|
            0 <= i < rows.len() && is_lost(old_kind, new_kind, #[trigger] rows[i]) && parsed_uuid(
                rows[i].link,
            ) == Ok::<u128, ErrorView>(link.0) {
            let i = choose|i: int|
                0 <= i < rows.len() && is_lost(old_kind, new_kind, #[trigger] rows[i])
                    && parsed_uuid(rows[i].link) == Ok::<u128, ErrorView>(link.0);
            if i < last {
                assert(rest[i] == rows[i]);
            }
        }
    }
}

/// A retype does not fail on what the store wrote: where every column reads as
/// a value that its kind accepts, and every link is one.
pub proof fn migration_succeeds(
    database_id: DatabaseId,
    field: FieldId,
    old_kind: FieldKindView,
    new_kind: FieldKindView,
    rows: Seq<RetypeRowView>,
    links: Seq<Link>,
)
    requires
        new_kind !is Reference,
        links.len() == rows.len(),
        forall|i: int|
            0 <= i < rows.len() ==> {
                &&& (#[trigger] rows[i]).link == uuid_text(links[i].0)
                &&& decoded_value(old_kind, rows[i].cell) matches Ok(value) && accepts(
                    old_kind,
                    value,
                )
            },
    ensures
        migrated_rows(database_id, field, old_kind, new_kind, rows) is Ok,
    decreases rows.len(),
{
    if rows.len() > 0 {
        let rest = rows.drop_last();
        assert forall|i: int| 0 <= i < rest.len() implies {
            &&& (#[trigger] rest[i]).link == uuid_text(links.drop_last()[i].0)
            &&& decoded_value(old_kind, rest[i].cell) matches Ok(value) && accepts(old_kind, value)
        } by {
            assert(rest[i] == rows[i]);
        }
        migration_succeeds(database_id, field, old_kind, new_kind, rest, links.drop_last());
        let last = rows.len() - 1;
        let row = rows[last];
        assert(row.link == uuid_text(links[last].0));
        uuid_text_reads_back(links[last].0);
        let value = decoded_value(old_kind, row.cell)->Ok_0;
        coerced_is_accepted(field, value, old_kind, new_kind, row.read, row.printed);
    }
}

/// The schema with another definition of one field.
pub(crate) proof fn replaced_schema(databases: Seq<DatabaseView>, database_id: DatabaseId, field: FieldView)
    requires
        consistent(databases),
        consistent(field_replaced(databases, database_id, field)),
        has_database(databases, database_id),
        field_position(database_of(databases, database_id).fields, field.id) is Some,
    ensures
        ({
            let after = field_replaced(databases, database_id, field);
            &&& forall|id: FieldId| #[trigger]
                schema_field(after, id) == if id == field.id {
                    Some((database_id, field))
                } else {
                    schema_field(databases, id)
                }
            &&& schema_field(databases, field.id) == Some(
                (database_id, field_in(databases, database_id, field.id)),
            )
            &&& forall|id: DatabaseId|
                #![trigger has_database(after, id)]
                has_database(after, id) == has_database(databases, id)
            &&& forall|id: DatabaseId| #[trigger]
                schema_database(after, id) == schema_database(databases, id)
        }),
{
    let after = field_replaced(databases, database_id, field);
    let s = database_index(databases, database_id);
    assert(is_database(databases, database_id, s));
    let fields = databases[s].fields;
    field_position_found(fields, field.id);
    let p = field_position(fields, field.id)->0;
    with_fields_keeps(databases, database_id, fields.update(p, field));
    assert(is_field(databases, s, p));
    standing_field(databases, s, p);
    assert(is_field(after, s, p) && field_at(after, s, p) == field);
    standing_field(after, s, p);
    assert(after[s].id == database_id);
    assert forall|id: FieldId| #[trigger]
        schema_field(after, id) == if id == field.id {
            Some((database_id, field))
        } else {
            schema_field(databases, id)
        } by {
        if id != field.id {
            if exists|i: int, k: int| stands_at(databases, id, i, k) {
                let (i, k) = choose|i: int, k: int| stands_at(databases, id, i, k);
                assert(stands_at(after, id, i, k));
                standing_field(databases, i, k);
                standing_field(after, i, k);
                assert(field_at(after, i, k) == field_at(databases, i, k));
            }
            if exists|i: int, k: int| stands_at(after, id, i, k) {
                let (i, k) = choose|i: int, k: int| stands_at(after, id, i, k);
                assert(stands_at(databases, id, i, k));
            }
        }
    }
    assert forall|id: DatabaseId| #[trigger]
        schema_database(after, id) == schema_database(databases, id) by {
        assert(has_database(after, id) == has_database(databases, id));
        if has_database(databases, id) && id != database_id {
            assert(database_of(after, id) == database_of(databases, id));
        }
    }
}

/// The tables after the spare column was added and the first `n` values were
/// written to it: everything else is as it was.
proof fn spare_filled(
    tables: Tables,
    database_id: DatabaseId,
    field: FieldId,
    old_kind: FieldKindView,
    new_kind: FieldKindView,
    rows: Seq<RetypeRowView>,
    links: Seq<Link>,
    n: nat,
) -> (filled: Tables)
    requires
        n <= rows.len(),
        are_rows_of(tables, database_id, field, rows, links),
        migrated_rows(database_id, field, old_kind, new_kind, rows) is Ok,
        tables.spare_columns == Map::<(DatabaseId, FieldId), Seq<char>>::empty(),
        tables.spare_cells == Map::<(DatabaseId, Link, FieldId), SqlView>::empty(),
    ensures
        ({
            let sql_type = column_type(new_kind)->0;
            let add = StepView::AddSpareColumn { database_id, field, sql_type };
            let (steps, _) = migrated_rows(database_id, field, old_kind, new_kind, rows)->Ok_0;
            &&& filled == all_applied(tables, seq![add] + steps.take(n as int))
            &&& filled == (Tables {
                spare_columns: filled.spare_columns,
                spare_cells: filled.spare_cells,
                ..tables
            })
            &&& forall|key: (DatabaseId, FieldId)| #[trigger]
                at(filled.spare_columns, key) == if key == (database_id, field) {
                    Some(sql_type)
                } else {
                    None
                }
            &&& forall|key: (DatabaseId, Link, FieldId)|
                key.0 != database_id || key.2 != field ==> #[trigger] at(filled.spare_cells, key)
                    is None
            &&& forall|i: int|
                0 <= i < n ==> #[trigger] at(filled.spare_cells, (database_id, links[i], field))
                    == unless_null(migrated(field, old_kind, new_kind, rows[i])->Ok_0.value)
            &&& forall|link: Link|
                !links.take(n as int).contains(link) ==> #[trigger] at(
                    filled.spare_cells,
                    (database_id, link, field),
                ) is None
        }),
    decreases n,
{
    let sql_type = column_type(new_kind)->0;
    let add = StepView::AddSpareColumn { database_id, field, sql_type };
    let (steps, _) = migrated_rows(database_id, field, old_kind, new_kind, rows)->Ok_0;
    migrated_row_by_row(database_id, field, old_kind, new_kind, rows);
    if n == 0 {
        assert(seq![add] + steps.take(0) =~= seq![add]);
        assert(seq![add].drop_last() =~= Seq::empty());
        reveal_with_fuel(all_applied, 2);
        let filled = applied(tables, add);
        rows_of_applied(tables, add);
        same_rows(filled.databases, tables.databases);
        same_rows(filled.fields, tables.fields);
        same_rows(filled.links, tables.links);
        same_rows(filled.record_tables, tables.record_tables);
        same_rows(filled.columns, tables.columns);
        same_rows(filled.records, tables.records);
        same_rows(filled.cells, tables.cells);
        same_rows(filled.reference_tables, tables.reference_tables);
        same_rows(filled.references, tables.references);
        same_rows(filled.blobs, tables.blobs);
        filled
    } else {
        let b = (n - 1) as nat;
        let before = spare_filled(
            tables,
            database_id,
            field,
            old_kind,
            new_kind,
            rows,
            links,
            b,
        );
        let step = steps[b as int];
        let all = seq![add] + steps.take(n as int);
        assert(all.drop_last() =~= seq![add] + steps.take(b as int));
        assert(all.last() == step);
        let filled = applied(before, step);
        rows_of_applied(before, step);
        same_rows(filled.databases, tables.databases);
        same_rows(filled.fields, tables.fields);
        same_rows(filled.links, tables.links);
        same_rows(filled.record_tables, tables.record_tables);
        same_rows(filled.columns, tables.columns);
        same_rows(filled.records, tables.records);
        same_rows(filled.cells, tables.cells);
        same_rows(filled.reference_tables, tables.reference_tables);
        same_rows(filled.references, tables.references);
        same_rows(filled.blobs, tables.blobs);
        let own = links[b as int];
        let value = migrated(field, old_kind, new_kind, rows[b as int])->Ok_0.value;
        assert(rows[b as int].link == uuid_text(own.0));
        assert(links.contains(own));
        assert(tables.records.dom().contains((database_id, own)));
        assert forall|link: Link| #[trigger]
            at(filled.spare_cells, (database_id, link, field)) == if link == own {
                unless_null(value)
            } else {
                at(before.spare_cells, (database_id, link, field))
            } by {
            if uuid_text(link.0) == uuid_text(own.0) {
                uuid_text_injective(link.0, own.0);
            }
        }
        assert forall|i: int| 0 <= i < n implies #[trigger] at(
            filled.spare_cells,
            (database_id, links[i], field),
        ) == unless_null(migrated(field, old_kind, new_kind, rows[i])->Ok_0.value) by {
            if i < b {
                assert(links[i] != own);
            }
        }
        assert forall|link: Link| !links.take(n as int).contains(link) implies #[trigger] at(
            filled.spare_cells,
            (database_id, link, field),
        ) is None by {
            let some = links.take(n as int);
            assert(some[b as int] == own);
            if links.take(b as int).contains(link) {
                let i = choose|i: int|
                    0 <= i < links.take(b as int).len() && links.take(b as int)[i] == link;
                assert(some[i] == link);
            }
        }
        filled
    }
}

/// The tables after a retype: the field has its new kind and a column of the
/// new type, every record of the database holds its migrated value in it, and
/// nothing else has changed. The store stays sound.
pub proof fn retype_field_comes_to(
    tables: Tables,
    databases: Seq<DatabaseView>,
    database_id: DatabaseId,
    field_id: FieldId,
    new_kind: FieldKindView,
    rows: Seq<RetypeRowView>,
    links: Seq<Link>,
)
    requires
        sound(tables, databases),
        retype_error(databases, database_id, field_id, new_kind) is None,
        are_rows_of(tables, database_id, field_id, rows, links),
        migrated_rows(
            database_id,
            field_id,
            field_in(databases, database_id, field_id).kind,
            new_kind,
            rows,
        ) is Ok,
    ensures
        ({
            let field = field_in(databases, database_id, field_id);
            let after = field_replaced(
                databases,
                database_id,
                FieldView { kind: new_kind, ..field },
            );
            let (values, _) = migrated_rows(
                database_id,
                field_id,
                field.kind,
                new_kind,
                rows,
            )->Ok_0;
            let end = all_applied(
                tables,
                retype_steps(database_id, field_id, new_kind, values),
            );
            &&& sound(end, after)
            &&& forall|i: int|
                0 <= i < rows.len() ==> #[trigger] at(
                    end.cells,
                    (database_id, links[i], field_id),
                ) == unless_null(migrated(field_id, field.kind, new_kind, rows[i])->Ok_0.value)
            &&& forall|key: (DatabaseId, Link, FieldId)|
                key.0 != database_id || key.2 != field_id ==> #[trigger] at(end.cells, key) == at(
                    tables.cells,
                    key,
                )
            &&& end == (Tables {
                fields: end.fields,
                columns: end.columns,
                cells: end.cells,
                ..tables
            })
        }),
{
    let field = field_in(databases, database_id, field_id);
    let new_field = FieldView { kind: new_kind, ..field };
    let after = field_replaced(databases, database_id, new_field);
    let (values, _) = migrated_rows(database_id, field_id, field.kind, new_kind, rows)->Ok_0;
    migrated_row_by_row(database_id, field_id, field.kind, new_kind, rows);
    field_position_found(database_of(databases, database_id).fields, field_id);
    retype_field_keeps_consistent(databases, database_id, field_id, new_kind);
    replaced_schema(databases, database_id, new_field);
    let sql_type = column_type(new_kind)->0;
    let add = StepView::AddSpareColumn { database_id, field: field_id, sql_type };
    let drop = StepView::DropColumn { database_id, field: field_id };
    let rename = StepView::RenameSpareColumn { database_id, field: field_id };
    let update = StepView::UpdateFieldKind { field: field_id, kind: new_kind };
    let filled = spare_filled(
        tables,
        database_id,
        field_id,
        field.kind,
        new_kind,
        rows,
        links,
        rows.len(),
    );
    assert(values.take(rows.len() as int) =~= values);
    let steps = retype_steps(database_id, field_id, new_kind, values);
    applied_in_turn(tables, seq![add] + values, seq![drop, rename, update]);
    let t1 = applied(filled, drop);
    let t2 = applied(t1, rename);
    let end = applied(t2, update);
    let tail = seq![drop, rename, update];
    assert(tail.drop_last() =~= seq![drop, rename]);
    assert(seq![drop, rename].drop_last() =~= seq![drop]);
    assert(seq![drop].drop_last() =~= Seq::empty());
    assert(all_applied(filled, tail) == end) by {
        reveal_with_fuel(all_applied, 4);
    }
    assert(end == all_applied(tables, steps));
    rows_of_applied(filled, drop);
    rows_of_applied(t1, rename);
    rows_of_applied(t2, update);
    same_rows(end.databases, tables.databases);
    same_rows(end.links, tables.links);
    same_rows(end.record_tables, tables.record_tables);
    same_rows(end.records, tables.records);
    same_rows(end.reference_tables, tables.reference_tables);
    same_rows(end.references, tables.references);
    same_rows(end.blobs, tables.blobs);
    assert forall|key: (DatabaseId, FieldId)| #[trigger] at(end.spare_columns, key) is None by {
        assert(at(filled.spare_columns, key) == if key == (database_id, field_id) {
            Some(sql_type)
        } else {
            None
        });
    }
    same_rows(end.spare_columns, tables.spare_columns);
    assert forall|key: (DatabaseId, Link, FieldId)| #[trigger]
        at(end.spare_cells, key) is None by {
        assert(at(t1.spare_cells, key) == at(filled.spare_cells, key));
    }
    same_rows(end.spare_cells, tables.spare_cells);
    assert forall|key: (DatabaseId, Link, FieldId)| #[trigger]
        at(end.cells, key) == if key.0 == database_id && key.2 == field_id {
            at(filled.spare_cells, key)
        } else {
            at(tables.cells, key)
        } by {
        assert(at(t1.spare_cells, key) == at(filled.spare_cells, key));
        assert(at(t2.cells, key) == at(end.cells, key));
    }
    assert forall|i: int| 0 <= i < rows.len() implies #[trigger] at(
        end.cells,
        (database_id, links[i], field_id),
    ) == unless_null(migrated(field_id, field.kind, new_kind, rows[i])->Ok_0.value) by {
        assert(at(filled.spare_cells, (database_id, links[i], field_id)) == unless_null(
            migrated(field_id, field.kind, new_kind, rows[i])->Ok_0.value,
        ));
    }
    // The schema.
    assert forall|id: FieldId| #[trigger] at(end.fields, id) == schema_field(after, id) by {
        assert(at(tables.fields, id) == schema_field(databases, id));
    }
    assert forall|key: (DatabaseId, FieldId)| #[trigger]
        at(end.columns, key) == schema_column(after, key) by {
        assert(at(tables.columns, key) == schema_column(databases, key));
        assert(at(t1.spare_columns, key) == at(filled.spare_columns, key));
        assert(at(t2.columns, key) == at(end.columns, key));
        assert(schema_field(after, key.1) == if key.1 == field_id {
            Some((database_id, new_field))
        } else {
            schema_field(databases, key.1)
        });
    }
    assert forall|lower: FieldId| #[trigger]
        at(end.reference_tables, lower) == schema_reference(after, lower) by {
        assert(at(tables.reference_tables, lower) == schema_reference(databases, lower));
        assert(schema_field(after, lower) == if lower == field_id {
            Some((database_id, new_field))
        } else {
            schema_field(databases, lower)
        });
    }
    assert forall|id: DatabaseId| #[trigger]
        at(end.databases, id) == schema_database(after, id) by {
        assert(at(tables.databases, id) == schema_database(databases, id));
        assert(schema_database(after, id) == schema_database(databases, id));
    }
    assert forall|id: DatabaseId| #[trigger]
        end.record_tables.dom().contains(id) == has_database(after, id) by {
        assert(tables.record_tables.dom().contains(id) == has_database(databases, id));
    }
    assert(holds_schema(end, after));
    // The records.
    assert forall|link: Link| #[trigger] end.links.dom().contains(link) implies has_database(
        after,
        end.links[link],
    ) by {
        assert(tables.links.dom().contains(link));
    }
    assert forall|key: (FieldId, ReferenceId)|
        #![trigger end.references.dom().contains(key)]
        end.references.dom().contains(key) implies ends_exist(
        end,
        after,
        key.0,
        end.references[key],
    ) by {
        assert(tables.references.dom().contains(key));
        assert(ends_exist(tables, databases, key.0, tables.references[key]));
        assert(schema_field(after, key.0) == if key.0 == field_id {
            Some((database_id, new_field))
        } else {
            schema_field(databases, key.0)
        });
    }
    assert forall|key: (DatabaseId, Link, FieldId)|
        #![trigger end.cells.dom().contains(key)]
        end.cells.dom().contains(key) implies end.records.dom().contains((key.0, key.1))
        && end.columns.dom().contains((key.0, key.2)) by {
        assert(at(end.cells, key) is Some);
        if key.0 == database_id && key.2 == field_id {
            assert(at(filled.spare_cells, key) is Some);
            assert(links.take(rows.len() as int) =~= links);
            assert(links.contains(key.1));
            assert(at(end.columns, (key.0, key.2)) == schema_column(after, (key.0, key.2)));
        } else {
            assert(tables.cells.dom().contains(key));
            assert(at(end.columns, (key.0, key.2)) == schema_column(after, (key.0, key.2)));
            assert(at(tables.columns, (key.0, key.2)) == schema_column(
                databases,
                (key.0, key.2),
            ));
        }
    }
}

/// What the cell of a row stands for: a value that the field accepts, and the
/// empty one just where nothing is stored.
proof fn row_reads(
    tables: Tables,
    databases: Seq<DatabaseView>,
    database_id: DatabaseId,
    field_id: FieldId,
    new_kind: FieldKindView,
    rows: Seq<RetypeRowView>,
    links: Seq<Link>,
    i: int,
)
    requires
        sound(tables, databases),
        cells_readable(tables, databases),
        retype_error(databases, database_id, field_id, new_kind) is None,
        are_rows_of(tables, database_id, field_id, rows, links),
        0 <= i < rows.len(),
    ensures
        ({
            let kind = field_in(databases, database_id, field_id).kind;
            decoded_value(kind, rows[i].cell) matches Ok(value) && accepts(kind, value) && !is_nan(
                value,
            ) && value is Empty == at(tables.cells, (database_id, links[i], field_id)) is None
        }),
{
    let s = database_index(databases, database_id);
    assert(is_database(databases, database_id, s));
    field_position_found(databases[s].fields, field_id);
    let p = field_position(databases[s].fields, field_id)->0;
    assert(is_field(databases, s, p));
    standing_field(databases, s, p);
    assert(rows[i].cell.value == cell_value(tables, (database_id, links[i], field_id)));
    stored_cell_reads(
        tables,
        databases,
        (database_id, links[i], field_id),
        field_in(databases, database_id, field_id),
        rows[i].cell,
    );
}

/// A retype that is allowed never fails on what is stored.
pub proof fn stored_values_migrate(
    tables: Tables,
    databases: Seq<DatabaseView>,
    database_id: DatabaseId,
    field_id: FieldId,
    new_kind: FieldKindView,
    rows: Seq<RetypeRowView>,
    links: Seq<Link>,
)
    requires
        sound(tables, databases),
        cells_readable(tables, databases),
        retype_error(databases, database_id, field_id, new_kind) is None,
        are_rows_of(tables, database_id, field_id, rows, links),
    ensures
        migrated_rows(
            database_id,
            field_id,
            field_in(databases, database_id, field_id).kind,
            new_kind,
            rows,
        ) is Ok,
{
    let old_kind = field_in(databases, database_id, field_id).kind;
    assert forall|i: int| 0 <= i < rows.len() implies {
        &&& (#[trigger] rows[i]).link == uuid_text(links[i].0)
        &&& decoded_value(old_kind, rows[i].cell) matches Ok(value) && accepts(old_kind, value)
    } by {
        row_reads(tables, databases, database_id, field_id, new_kind, rows, links, i);
    }
    migration_succeeds(database_id, field_id, old_kind, new_kind, rows, links);
}

/// After a retype every record holds what its value became under the new kind:
/// that is what is read of it. Zero may lose its sign, which leaves it equal.
pub proof fn retyped_value_reads_back(
    tables: Tables,
    databases: Seq<DatabaseView>,
    database_id: DatabaseId,
    field_id: FieldId,
    new_kind: FieldKindView,
    rows: Seq<RetypeRowView>,
    links: Seq<Link>,
    i: int,
    later: CellView,
)
    requires
        sound(tables, databases),
        cells_readable(tables, databases),
        retype_error(databases, database_id, field_id, new_kind) is None,
        are_rows_of(tables, database_id, field_id, rows, links),
        0 <= i < rows.len(),
        migrated_reads_back(
            field_id,
            field_in(databases, database_id, field_id).kind,
            new_kind,
            rows[i],
        ),
        ({
            let (values, _) = migrated_rows(
                database_id,
                field_id,
                field_in(databases, database_id, field_id).kind,
                new_kind,
                rows,
            )->Ok_0;
            later.value == cell_value(
                all_applied(tables, retype_steps(database_id, field_id, new_kind, values)),
                (database_id, links[i], field_id),
            )
        }),
    ensures
        ({
            let old_kind = field_in(databases, database_id, field_id).kind;
            let old_value = decoded_value(old_kind, rows[i].cell)->Ok_0;
            let new_value = coerced(old_value, new_kind, rows[i].read, rows[i].printed);
            &&& decoded_value(old_kind, rows[i].cell) is Ok
            &&& decoded_value(new_kind, later) matches Ok(read) && (read == column_value(new_value)
                || values_match(read, column_value(new_value)))
        }),
{
    let old_kind = field_in(databases, database_id, field_id).kind;
    stored_values_migrate(tables, databases, database_id, field_id, new_kind, rows, links);
    retype_field_comes_to(tables, databases, database_id, field_id, new_kind, rows, links);
    migrated_row_by_row(database_id, field_id, old_kind, new_kind, rows);
    row_reads(tables, databases, database_id, field_id, new_kind, rows, links, i);
    let (values, _) = migrated_rows(database_id, field_id, old_kind, new_kind, rows)->Ok_0;
    let end = all_applied(tables, retype_steps(database_id, field_id, new_kind, values));
    assert(values[i] is SetSpareValue);
    let old_value = decoded_value(old_kind, rows[i].cell)->Ok_0;
    let new_value = coerced(old_value, new_kind, rows[i].read, rows[i].printed);
    let held = migrated(field_id, old_kind, new_kind, rows[i])->Ok_0.value;
    assert(at(end.cells, (database_id, links[i], field_id)) == unless_null(held));
    Number::of_bool_is_a_number();
    assert(!is_nan(new_value));
    column_holds_its_type(field_id, new_kind, new_value);
}

/// A retype leaves every cell readable.
pub proof fn retype_field_keeps_cells_readable(
    tables: Tables,
    databases: Seq<DatabaseView>,
    database_id: DatabaseId,
    field_id: FieldId,
    new_kind: FieldKindView,
    rows: Seq<RetypeRowView>,
    links: Seq<Link>,
)
    requires
        sound(tables, databases),
        cells_readable(tables, databases),
        retype_error(databases, database_id, field_id, new_kind) is None,
        are_rows_of(tables, database_id, field_id, rows, links),
        forall|i: int|
            0 <= i < rows.len() ==> migrated_reads_back(
                field_id,
                field_in(databases, database_id, field_id).kind,
                new_kind,
                #[trigger] rows[i],
            ),
    ensures
        ({
            let field = field_in(databases, database_id, field_id);
            let (values, _) = migrated_rows(
                database_id,
                field_id,
                field.kind,
                new_kind,
                rows,
            )->Ok_0;
            cells_readable(
                all_applied(tables, retype_steps(database_id, field_id, new_kind, values)),
                field_replaced(databases, database_id, FieldView { kind: new_kind, ..field }),
            )
        }),
{
    let field = field_in(databases, database_id, field_id);
    let new_field = FieldView { kind: new_kind, ..field };
    let after = field_replaced(databases, database_id, new_field);
    stored_values_migrate(tables, databases, database_id, field_id, new_kind, rows, links);
    let (values, _) = migrated_rows(database_id, field_id, field.kind, new_kind, rows)->Ok_0;
    let end = all_applied(tables, retype_steps(database_id, field_id, new_kind, values));
    retype_field_comes_to(tables, databases, database_id, field_id, new_kind, rows, links);
    migrated_row_by_row(database_id, field_id, field.kind, new_kind, rows);
    field_position_found(database_of(databases, database_id).fields, field_id);
    retype_field_keeps_consistent(databases, database_id, field_id, new_kind);
    replaced_schema(databases, database_id, new_field);
    assert forall|key: (DatabaseId, Link, FieldId)|
        (#[trigger] at(end.cells, key)) is Some implies is_readable_cell(
        after,
        key,
        end.cells[key],
    ) by {
        if key.0 == database_id && key.2 == field_id {
            assert(end.cells.dom().contains(key));
            assert(end.records.dom().contains((key.0, key.1)));
            assert(links.contains(key.1));
            let i = choose|i: int| 0 <= i < links.len() && links[i] == key.1;
            assert(values[i] is SetSpareValue);
            let done = migrated(field_id, field.kind, new_kind, rows[i])->Ok_0;
            assert(at(end.cells, (database_id, links[i], field_id)) == unless_null(done.value));
            assert(migrated_reads_back(field_id, field.kind, new_kind, rows[i]));
            let new_value = coerced(
                decoded_value(field.kind, rows[i].cell)->Ok_0,
                new_kind,
                rows[i].read,
                rows[i].printed,
            );
            written_is_readable(field_id, new_kind, new_value, done.value);
        } else {
            assert(at(end.cells, key) == at(tables.cells, key));
            assert(is_readable_cell(databases, key, tables.cells[key]));
        }
    }
}

/// The report of a retype names a record once if its value was lost, and no
/// other record.
pub proof fn report_is_exact(
    database_id: DatabaseId,
    field: FieldId,
    old_kind: FieldKindView,
    new_kind: FieldKindView,
    rows: Seq<RetypeRowView>,
    links: Seq<Link>,
)
    requires
        links.len() == rows.len(),
        links.no_duplicates(),
        forall|i: int| 0 <= i < rows.len() ==> (#[trigger] rows[i]).link == uuid_text(links[i].0),
        migrated_rows(database_id, field, old_kind, new_kind, rows) is Ok,
    ensures
        ({
            let lost = migrated_rows(database_id, field, old_kind, new_kind, rows)->Ok_0.1;
            &&& lost.no_duplicates()
            &&& forall|link: Link| #[trigger] lost.contains(link) ==> links.contains(link)
            &&& forall|i: int|
                0 <= i < rows.len() ==> lost.contains(links[i]) == is_lost(
                    old_kind,
                    new_kind,
                    #[trigger] rows[i],
                )
        }),
    decreases rows.len(),
{
    let (_, lost) = migrated_rows(database_id, field, old_kind, new_kind, rows)->Ok_0;
    if rows.len() > 0 {
        let rest = rows.drop_last();
        let others = links.drop_last();
        let last = rows.len() - 1;
        assert forall|i: int| 0 <= i < rest.len() implies (#[trigger] rest[i]).link == uuid_text(
            others[i].0,
        ) by {
            assert(rest[i] == rows[i]);
        }
        report_is_exact(database_id, field, old_kind, new_kind, rest, others);
        let (_, fewer) = migrated_rows(database_id, field, old_kind, new_kind, rest)->Ok_0;
        let done = migrated(field, old_kind, new_kind, rows.last())->Ok_0;
        assert(rows[last].link == uuid_text(links[last].0));
        uuid_text_reads_back(links[last].0);
        assert(!fewer.contains(links[last])) by {
            if fewer.contains(links[last]) {
                assert(others.contains(links[last]));
                let i = choose|i: int| 0 <= i < others.len() && others[i] == links[last];
                assert(links[i] == links[last]);
            }
        }
        if done.cleared is Some {
            assert(done.cleared == Some(links[last]));
            assert(lost == fewer.push(links[last]));
            assert(lost[fewer.len() as int] == links[last]);
        } else {
            assert(lost == fewer);
        }
        assert forall|link: Link| #[trigger] lost.contains(link) == (fewer.contains(link)
            || done.cleared == Some(link)) by {
            if fewer.contains(link) {
                let n = choose|n: int| 0 <= n < fewer.len() && fewer[n] == link;
                assert(lost[n] == link);
            }
            if lost.contains(link) {
                let n = choose|n: int| 0 <= n < lost.len() && lost[n] == link;
                if n < fewer.len() {
                    assert(fewer[n] == link);
                }
            }
        }
        assert forall|link: Link| #[trigger] lost.contains(link) implies links.contains(link) by {
            if fewer.contains(link) {
                assert(others.contains(link));
                let i = choose|i: int| 0 <= i < others.len() && others[i] == link;
                assert(links[i] == link);
            } else {
                assert(links[last] == link);
            }
        }
        assert forall|i: int| 0 <= i < rows.len() implies lost.contains(links[i]) == is_lost(
            old_kind,
            new_kind,
            #[trigger] rows[i],
        ) by {
            if i < last {
                assert(rest[i] == rows[i]);
                assert(others[i] == links[i]);
                assert(links[i] != links[last]);
            }
        }
    }
}

/// A retype loses nothing in silence: a record that had a value and has none
/// afterwards is in the report.
pub proof fn nothing_is_lost_in_silence(
    tables: Tables,
    databases: Seq<DatabaseView>,
    database_id: DatabaseId,
    field_id: FieldId,
    new_kind: FieldKindView,
    rows: Seq<RetypeRowView>,
    links: Seq<Link>,
    i: int,
)
    requires
        sound(tables, databases),
        cells_readable(tables, databases),
        retype_error(databases, database_id, field_id, new_kind) is None,
        are_rows_of(tables, database_id, field_id, rows, links),
        0 <= i < rows.len(),
        at(tables.cells, (database_id, links[i], field_id)) is Some,
    ensures
        ({
            let (values, lost) = migrated_rows(
                database_id,
                field_id,
                field_in(databases, database_id, field_id).kind,
                new_kind,
                rows,
            )->Ok_0;
            let end = all_applied(
                tables,
                retype_steps(database_id, field_id, new_kind, values),
            );
            at(end.cells, (database_id, links[i], field_id)) is None == lost.contains(links[i])
        }),
{
    let old_kind = field_in(databases, database_id, field_id).kind;
    stored_values_migrate(tables, databases, database_id, field_id, new_kind, rows, links);
    retype_field_comes_to(tables, databases, database_id, field_id, new_kind, rows, links);
    migrated_row_by_row(database_id, field_id, old_kind, new_kind, rows);
    row_reads(tables, databases, database_id, field_id, new_kind, rows, links, i);
    report_is_exact(database_id, field_id, old_kind, new_kind, rows, links);
    let (values, lost) = migrated_rows(database_id, field_id, old_kind, new_kind, rows)->Ok_0;
    assert(values[i] is SetSpareValue);
    let end = all_applied(tables, retype_steps(database_id, field_id, new_kind, values));
    Number::of_bool_is_a_number();
    let done = migrated(field_id, old_kind, new_kind, rows[i])->Ok_0;
    assert(at(end.cells, (database_id, links[i], field_id)) == unless_null(done.value));
    let old_value = decoded_value(old_kind, rows[i].cell)->Ok_0;
    let new_value = coerced(old_value, new_kind, rows[i].read, rows[i].printed);
    column_holds_its_type(field_id, new_kind, new_value);
    assert(!is_nan(new_value));
    assert(lost.contains(links[i]) == is_lost(old_kind, new_kind, rows[i]));
}

} // verus!
