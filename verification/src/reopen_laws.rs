//! What a store is like when it is opened again.

use vstd::prelude::*;

use crate::error::ErrorView;
use crate::ids::{DatabaseId, FieldId, Link, ReferenceId};
use crate::opening::{
    distinct_databases_are_held, loaded_databases, loaded_fields, stored_database_loads,
    stored_fields_load, stored_row, FieldRowView,
};
use crate::order_laws::{numbers_rise, stands_before};
use crate::persist_laws::{
    holds_schema, schema_column, schema_database, schema_field, schema_reference, standing_field,
    stands_at,
};
use crate::registry::{
    collected, database_index, database_index_is, database_of, has_database, ids_distinct,
    is_database,
};
use crate::registry_laws::{are_paired, consistent, field_at, has_counterpart, is_field};
use crate::schema::{DatabaseView, FieldView};
use crate::store_laws::{ends_exist, sound};
use crate::tables::{at, Tables};
use crate::uuids::uuid_text;

verus! {

/// Whether every row of a database is read, once.
pub open spec fn reads_databases(tables: Tables, order: Seq<DatabaseId>) -> bool {
    &&& order.no_duplicates()
    &&& forall|id: DatabaseId| #[trigger]
        order.contains(id) == tables.databases.dom().contains(id)
}

/// Whether every row of a field of this database is read, once, and in the order
/// of the rows' numbers.
pub open spec fn reads_fields(tables: Tables, database_id: DatabaseId, order: Seq<FieldId>) -> bool {
    &&& order.no_duplicates()
    &&& forall|id: FieldId| #[trigger]
        order.contains(id) == (at(tables.fields, id) is Some && tables.fields[id].0 == database_id)
    &&& forall|i: int, j: int|
        0 <= i < j < order.len() ==> tables.numbers.of[#[trigger] order[i]]
            <= tables.numbers.of[#[trigger] order[j]]
}

/// Whether the rows of every database's fields are read in this way.
pub open spec fn reads_all_fields(
    tables: Tables,
    order: Seq<DatabaseId>,
    field_order: spec_fn(DatabaseId) -> Seq<FieldId>,
) -> bool {
    forall|id: DatabaseId|
        order.contains(id) ==> #[trigger] reads_fields(tables, id, field_order(id))
}

/// The rows of the databases in the order in which they are read.
pub open spec fn database_rows_read(tables: Tables, order: Seq<DatabaseId>) -> Seq<
    (Seq<char>, Seq<char>),
> {
    order.map_values(|id: DatabaseId| (uuid_text(id.0), tables.databases[id]))
}

/// The fields in the order in which they are read.
pub open spec fn fields_read(tables: Tables, order: Seq<FieldId>) -> Seq<FieldView> {
    order.map_values(|id: FieldId| tables.fields[id].1)
}

/// The rows of the fields in the order in which they are read, where `json` is
/// the JSON text of their options.
pub open spec fn field_rows_read(
    tables: Tables,
    order: Seq<FieldId>,
    json: spec_fn(FieldView) -> Seq<char>,
) -> Seq<FieldRowView> {
    fields_read(tables, order).map_values(|field: FieldView| stored_row(field, json(field)))
}

/// The database that the rows come to.
pub open spec fn database_read(
    tables: Tables,
    field_order: spec_fn(DatabaseId) -> Seq<FieldId>,
    id: DatabaseId,
) -> DatabaseView {
    DatabaseView {
        id,
        name: tables.databases[id],
        fields: fields_read(tables, field_order(id)),
    }
}

/// The registry that the rows come to.
pub open spec fn registry_read(
    tables: Tables,
    order: Seq<DatabaseId>,
    field_order: spec_fn(DatabaseId) -> Seq<FieldId>,
) -> Seq<DatabaseView> {
    order.map_values(|id: DatabaseId| database_read(tables, field_order, id))
}

/// Whether two registries say the same, whatever the order in which they say
/// it: they have the same databases by name, with the same fields.
pub open spec fn same_schema(a: Seq<DatabaseView>, b: Seq<DatabaseView>) -> bool {
    &&& forall|id: DatabaseId| #[trigger] schema_database(a, id) == schema_database(b, id)
    &&& forall|id: FieldId| #[trigger] schema_field(a, id) == schema_field(b, id)
}

proof fn bare_databases_load(tables: Tables, order: Seq<DatabaseId>)
    ensures
        loaded_databases(database_rows_read(tables, order)) == Ok::<Seq<DatabaseView>, ErrorView>(
            order.map_values(
                |id: DatabaseId|
                    DatabaseView { id, name: tables.databases[id], fields: Seq::empty() },
            ),
        ),
    decreases order.len(),
{
    let bare = |id: DatabaseId|
        DatabaseView { id, name: tables.databases[id], fields: Seq::empty() };
    let rows = database_rows_read(tables, order);
    if order.len() == 0 {
        assert(order.map_values(bare) =~= Seq::empty());
    } else {
        let rest = order.drop_last();
        bare_databases_load(tables, rest);
        assert(rows.drop_last() =~= database_rows_read(tables, rest));
        stored_database_loads(order.last(), tables.databases[order.last()]);
        assert(rest.map_values(bare).push(bare(order.last())) =~= order.map_values(bare));
    }
}

/// Opening a store again gives its schema back: every row is accepted, whatever
/// the order in which the databases are read, and what the rows come to says
/// just what the registry said.
pub proof fn reopening_gives_the_schema_back(
    tables: Tables,
    databases: Seq<DatabaseView>,
    order: Seq<DatabaseId>,
    field_order: spec_fn(DatabaseId) -> Seq<FieldId>,
    json: spec_fn(FieldView) -> Seq<char>,
)
    requires
        consistent(databases),
        holds_schema(tables, databases),
        reads_databases(tables, order),
        reads_all_fields(tables, order, field_order),
    ensures
        loaded_databases(database_rows_read(tables, order)) == Ok::<Seq<DatabaseView>, ErrorView>(
            order.map_values(
                |id: DatabaseId|
                    DatabaseView { id, name: tables.databases[id], fields: Seq::empty() },
            ),
        ),
        forall|id: DatabaseId| #[trigger]
            loaded_fields(field_rows_read(tables, field_order(id), json)) == Ok::<Seq<FieldView>, ErrorView>(fields_read(tables, field_order(id))),
        collected(registry_read(tables, order, field_order)) == registry_read(
            tables,
            order,
            field_order,
        ),
        same_schema(registry_read(tables, order, field_order), databases),
{
    let read = registry_read(tables, order, field_order);
    bare_databases_load(tables, order);
    assert forall|id: DatabaseId| #[trigger]
        loaded_fields(field_rows_read(tables, field_order(id), json)) == Ok::<Seq<FieldView>, ErrorView>(fields_read(tables, field_order(id))) by {
        stored_fields_load(fields_read(tables, field_order(id)), json);
    }
    assert(ids_distinct(read)) by {
        assert forall|i: int, j: int| 0 <= i < j < read.len() implies (#[trigger] read[i]).id != (
        #[trigger] read[j]).id by {
            assert(order[i] != order[j]);
        }
    }
    distinct_databases_are_held(read);
    names_read(tables, databases, order, field_order);
    fields_found(tables, databases, order, field_order);
}

proof fn names_read(
    tables: Tables,
    databases: Seq<DatabaseView>,
    order: Seq<DatabaseId>,
    field_order: spec_fn(DatabaseId) -> Seq<FieldId>,
)
    requires
        holds_schema(tables, databases),
        reads_databases(tables, order),
    ensures
        forall|id: DatabaseId| #[trigger]
            schema_database(registry_read(tables, order, field_order), id) == schema_database(
                databases,
                id,
            ),
{
    let read = registry_read(tables, order, field_order);
    assert forall|id: DatabaseId| #[trigger] schema_database(read, id) == schema_database(
        databases,
        id,
    ) by {
        assert(at(tables.databases, id) == schema_database(databases, id));
        if order.contains(id) {
            let i = choose|i: int| 0 <= i < order.len() && order[i] == id;
            assert(read[i].id == id);
            assert(is_database(read, id, i)) by {
                assert forall|j: int| 0 <= j < i implies (#[trigger] read[j]).id != id by {
                    assert(order[j] != order[i]);
                }
            }
            database_index_is(read, id, i);
        } else {
            assert(!has_database(read, id)) by {
                if has_database(read, id) {
                    let i = database_index(read, id);
                    assert(read[i].id == id);
                    assert(order[i] == id);
                }
            }
        }
    }
}

proof fn fields_found(
    tables: Tables,
    databases: Seq<DatabaseView>,
    order: Seq<DatabaseId>,
    field_order: spec_fn(DatabaseId) -> Seq<FieldId>,
)
    requires
        consistent(databases),
        holds_schema(tables, databases),
        reads_databases(tables, order),
        reads_all_fields(tables, order, field_order),
    ensures
        forall|id: FieldId| #[trigger]
            schema_field(registry_read(tables, order, field_order), id) == schema_field(
                databases,
                id,
            ),
{
    let read = registry_read(tables, order, field_order);
    assert forall|id: FieldId| #[trigger] schema_field(read, id) == schema_field(databases, id) by {
        assert(at(tables.fields, id) == schema_field(databases, id));
        if exists|i: int, k: int| stands_at(read, id, i, k) {
            let (i, k) = choose|i: int, k: int| stands_at(read, id, i, k);
            let own = order[i];
            assert(order.contains(own));
            assert(reads_fields(tables, own, field_order(own)));
            let found = field_order(own)[k];
            assert(field_order(own).contains(found));
            assert(at(tables.fields, found) == schema_field(databases, found));
            found_field_has_its_id(databases, found);
        }
        if schema_field(databases, id) is Some {
            let owner = tables.fields[id].0;
            found_field_has_its_id(databases, id);
            assert(at(tables.databases, owner) == schema_database(databases, owner));
            assert(order.contains(owner));
            let i = choose|i: int| 0 <= i < order.len() && order[i] == owner;
            assert(reads_fields(tables, owner, field_order(owner)));
            assert(field_order(owner).contains(id));
            let own = field_order(owner);
            let k = choose|k: int| 0 <= k < own.len() && own[k] == id;
            assert(read[i].fields[k] == tables.fields[id].1);
            assert(stands_at(read, id, i, k));
        }
    }
}

/// A field that is found has the id it is found by, in a database that is
/// there.
proof fn found_field_has_its_id(databases: Seq<DatabaseView>, id: FieldId)
    requires
        consistent(databases),
    ensures
        schema_field(databases, id) matches Some((owner, field)) ==> field.id == id
            && has_database(databases, owner),
{
    if schema_field(databases, id) is Some {
        let (i, k) = choose|i: int, k: int| stands_at(databases, id, i, k);
        standing_field(databases, i, k);
    }
}

/// A store that is opened again is sound: the registry that was read is
/// consistent, and the tables are those of a store with it.
pub proof fn reopening_keeps_sound(
    tables: Tables,
    databases: Seq<DatabaseView>,
    order: Seq<DatabaseId>,
    field_order: spec_fn(DatabaseId) -> Seq<FieldId>,
)
    requires
        sound(tables, databases),
        reads_databases(tables, order),
        reads_all_fields(tables, order, field_order),
    ensures
        same_schema(registry_read(tables, order, field_order), databases),
        sound(tables, registry_read(tables, order, field_order)),
{
    let read = registry_read(tables, order, field_order);
    names_read(tables, databases, order, field_order);
    fields_found(tables, databases, order, field_order);
    read_is_consistent(tables, databases, order, field_order);
    assert forall|id: DatabaseId| #[trigger] has_database(read, id) == has_database(
        databases,
        id,
    ) by {
        assert(schema_database(read, id) == schema_database(databases, id));
    }
    assert forall|id: DatabaseId| #[trigger]
        at(tables.databases, id) == schema_database(read, id) by {}
    assert forall|key: (DatabaseId, FieldId)| #[trigger]
        at(tables.columns, key) == schema_column(read, key) by {
        assert(schema_field(read, key.1) == schema_field(databases, key.1));
    }
    assert forall|lower: FieldId| #[trigger]
        at(tables.reference_tables, lower) == schema_reference(read, lower) by {
        assert(schema_field(read, lower) == schema_field(databases, lower));
    }
    assert forall|id: DatabaseId| #[trigger]
        tables.record_tables.dom().contains(id) == has_database(read, id) by {
        assert(has_database(read, id) == has_database(databases, id));
    }
    assert(holds_schema(tables, read));
    assert forall|link: Link| #[trigger] tables.links.dom().contains(link) implies has_database(
        read,
        tables.links[link],
    ) by {
        assert(has_database(read, tables.links[link]) == has_database(
            databases,
            tables.links[link],
        ));
    }
    assert forall|key: (FieldId, ReferenceId)|
        #![trigger tables.references.dom().contains(key)]
        tables.references.dom().contains(key) implies ends_exist(
        tables,
        read,
        key.0,
        tables.references[key],
    ) by {
        assert(ends_exist(tables, databases, key.0, tables.references[key]));
        assert(schema_field(read, key.0) == schema_field(databases, key.0));
    }
}

/// Where the fields stand that were read: each under its own id.
proof fn read_field_is(
    tables: Tables,
    databases: Seq<DatabaseView>,
    order: Seq<DatabaseId>,
    field_order: spec_fn(DatabaseId) -> Seq<FieldId>,
    i: int,
    k: int,
)
    requires
        consistent(databases),
        holds_schema(tables, databases),
        is_field(registry_read(tables, order, field_order), i, k),
        reads_all_fields(tables, order, field_order),
    ensures
        ({
            let read = registry_read(tables, order, field_order);
            let id = field_order(order[i])[k];
            &&& read[i].id == order[i]
            &&& field_at(read, i, k).id == id
            &&& schema_field(databases, id) == Some((order[i], field_at(read, i, k)))
        }),
{
    let own = order[i];
    assert(order.contains(own));
    assert(reads_fields(tables, own, field_order(own)));
    let id = field_order(own)[k];
    assert(field_order(own).contains(id));
    assert(at(tables.fields, id) == schema_field(databases, id));
    found_field_has_its_id(databases, id);
}

proof fn read_is_consistent(
    tables: Tables,
    databases: Seq<DatabaseView>,
    order: Seq<DatabaseId>,
    field_order: spec_fn(DatabaseId) -> Seq<FieldId>,
)
    requires
        consistent(databases),
        holds_schema(tables, databases),
        reads_databases(tables, order),
        reads_all_fields(tables, order, field_order),
    ensures
        consistent(registry_read(tables, order, field_order)),
{
    let read = registry_read(tables, order, field_order);
    fields_found(tables, databases, order, field_order);
    assert forall|i: int, j: int| 0 <= i < j < read.len() implies (#[trigger] read[i]).id != (
    #[trigger] read[j]).id by {
        assert(order[i] != order[j]);
    }
    assert forall|i: int, k: int, j: int, m: int|
        is_field(read, i, k) && is_field(read, j, m) && (i != j || k != m) implies (
    #[trigger] field_at(read, i, k)).id != (#[trigger] field_at(read, j, m)).id by {
        read_field_is(tables, databases, order, field_order, i, k);
        read_field_is(tables, databases, order, field_order, j, m);
        if i == j {
            assert(order.contains(order[i]));
            assert(reads_fields(tables, order[i], field_order(order[i])));
        } else {
            assert(order[i] != order[j]);
        }
    }
    assert forall|i: int, k: int|
        is_field(read, i, k) && (#[trigger] field_at(read, i, k)).kind
            is Reference implies has_counterpart(read, i, k) by {
        read_field_is(tables, databases, order, field_order, i, k);
        let field = field_at(read, i, k);
        let (a, b) = choose|a: int, b: int| stands_at(databases, field.id, a, b);
        standing_field(databases, a, b);
        assert(has_counterpart(databases, a, b));
        let (c, d) = choose|c: int, d: int| #[trigger] are_paired(databases, a, b, c, d);
        standing_field(databases, c, d);
        let pair = field_at(databases, c, d);
        assert(field_at(databases, a, b).id != field_at(databases, c, d).id);
        assert(schema_field(read, pair.id) == schema_field(databases, pair.id));
        let (j, m) = choose|j: int, m: int| stands_at(read, pair.id, j, m);
        assert(are_paired(read, i, k, j, m));
    }
}

/// The same fields, each once and by rank, are the same sequence when the ranks
/// rise.
proof fn order_is_fixed(a: Seq<FieldView>, b: Seq<FieldView>, rank: spec_fn(FieldView) -> int)
    requires
        forall|i: int, j: int|
            0 <= i < j < a.len() ==> rank(#[trigger] a[i]) <= rank(#[trigger] a[j]),
        forall|i: int, j: int|
            0 <= i < j < b.len() ==> rank(#[trigger] b[i]) < rank(#[trigger] b[j]),
        a.no_duplicates(),
        forall|field: FieldView| #[trigger] a.contains(field) == b.contains(field),
    ensures
        a == b,
    decreases b.len(),
{
    if b.len() == 0 {
        if a.len() > 0 {
            assert(a.contains(a[0]));
        }
        assert(a =~= b);
    } else {
        let last = b.len() - 1;
        assert(b.contains(b[last]));
        assert(a.contains(b[last]));
        let p = choose|p: int| 0 <= p < a.len() && a[p] == b[last];
        let end = a.len() - 1;
        assert(a.contains(a[end]));
        let q = choose|q: int| 0 <= q < b.len() && b[q] == a[end];
        assert(rank(a[p]) <= rank(a[end]));
        assert(q == last) by {
            if q < last {
                assert(rank(b[q]) < rank(b[last]));
            }
        }
        let fewer = a.drop_last();
        let rest = b.drop_last();
        assert forall|field: FieldView| #[trigger] fewer.contains(field) == rest.contains(
            field,
        ) by {
            if fewer.contains(field) {
                let n = choose|n: int| 0 <= n < fewer.len() && fewer[n] == field;
                assert(a[n] == field && a[n] != a[end]);
                assert(a.contains(field));
                let m = choose|m: int| 0 <= m < b.len() && b[m] == field;
                assert(m != last);
                assert(rest[m] == field);
            }
            if rest.contains(field) {
                let m = choose|m: int| 0 <= m < rest.len() && rest[m] == field;
                assert(b[m] == field);
                assert(rank(b[m]) < rank(b[last]));
                assert(b.contains(field));
                assert(a.contains(field));
                let n = choose|n: int| 0 <= n < a.len() && a[n] == field;
                assert(n != end);
                assert(fewer[n] == field);
            }
        }
        assert forall|i: int, j: int| 0 <= i < j < fewer.len() implies rank(#[trigger] fewer[i])
            <= rank(#[trigger] fewer[j]) by {
            assert(rank(a[i]) <= rank(a[j]));
        }
        assert forall|i: int, j: int| 0 <= i < j < rest.len() implies rank(#[trigger] rest[i])
            < rank(#[trigger] rest[j]) by {
            assert(rank(b[i]) < rank(b[j]));
        }
        order_is_fixed(fewer, rest, rank);
        assert(a =~= fewer.push(a[end]));
        assert(b =~= rest.push(b[last]));
    }
}

/// Opening a store again gives the list of a database's fields back, in its
/// order: their rows are read by their numbers, and these rise along the list.
pub proof fn reopening_keeps_the_order(
    tables: Tables,
    databases: Seq<DatabaseView>,
    database_id: DatabaseId,
    order: Seq<FieldId>,
)
    requires
        consistent(databases),
        holds_schema(tables, databases),
        numbers_rise(tables, databases),
        has_database(databases, database_id),
        reads_fields(tables, database_id, order),
    ensures
        fields_read(tables, order) == database_of(databases, database_id).fields,
{
    let read = fields_read(tables, order);
    let i = database_index(databases, database_id);
    let fields = database_of(databases, database_id).fields;
    let rank = |field: FieldView| tables.numbers.of[field.id];
    assert forall|n: int| 0 <= n < order.len() implies (#[trigger] read[n]).id == order[n]
        && fields.contains(read[n]) by {
        let id = order[n];
        assert(order.contains(id));
        assert(at(tables.fields, id) == schema_field(databases, id));
        found_field_has_its_id(databases, id);
        let (j, k) = choose|j: int, k: int| stands_at(databases, id, j, k);
        assert(is_database(databases, database_id, j));
        database_index_is(databases, database_id, j);
        assert(fields[k] == read[n]);
    }
    assert(read.no_duplicates()) by {
        assert forall|n: int, m: int| 0 <= n < m < read.len() implies read[n] != read[m] by {
            assert(order[n] != order[m]);
            assert(read[n].id == order[n] && read[m].id == order[m]);
        }
    }
    assert forall|field: FieldView| #[trigger] read.contains(field) == fields.contains(field) by {
        if read.contains(field) {
            let n = choose|n: int| 0 <= n < read.len() && read[n] == field;
            assert(fields.contains(read[n]));
        }
        if fields.contains(field) {
            let k = choose|k: int| 0 <= k < fields.len() && fields[k] == field;
            assert(is_field(databases, i, k));
            assert(field_at(databases, i, k) == field);
            standing_field(databases, i, k);
            assert(at(tables.fields, field.id) == schema_field(databases, field.id));
            assert(order.contains(field.id));
            let n = choose|n: int| 0 <= n < order.len() && order[n] == field.id;
            assert(read[n] == field);
        }
    }
    assert forall|n: int, m: int| 0 <= n < m < read.len() implies rank(#[trigger] read[n]) <= rank(
        #[trigger] read[m],
    ) by {
        assert(read[n].id == order[n] && read[m].id == order[m]);
    }
    assert forall|n: int, m: int| 0 <= n < m < fields.len() implies rank(#[trigger] fields[n])
        < rank(#[trigger] fields[m]) by {
        assert(stands_at(databases, fields[n].id, i, n));
        assert(stands_at(databases, fields[m].id, i, m));
        assert(stands_before(databases, fields[n].id, fields[m].id));
    }
    order_is_fixed(read, fields, rank);
}

/// Whether two registries answer alike for every id: with the same database,
/// its fields in the same order, or with none.
pub open spec fn same_answers(a: Seq<DatabaseView>, b: Seq<DatabaseView>) -> bool {
    &&& forall|id: DatabaseId| #[trigger] has_database(a, id) == has_database(b, id)
    &&& forall|id: DatabaseId|
        has_database(b, id) ==> #[trigger] database_of(a, id) == database_of(b, id)
}

/// Opening a store again gives its registry back: every id finds the same
/// database, with the same name and the same list of fields.
pub proof fn reopening_gives_the_registry_back(
    tables: Tables,
    databases: Seq<DatabaseView>,
    order: Seq<DatabaseId>,
    field_order: spec_fn(DatabaseId) -> Seq<FieldId>,
)
    requires
        consistent(databases),
        holds_schema(tables, databases),
        numbers_rise(tables, databases),
        reads_databases(tables, order),
        reads_all_fields(tables, order, field_order),
    ensures
        same_answers(registry_read(tables, order, field_order), databases),
{
    let read = registry_read(tables, order, field_order);
    names_read(tables, databases, order, field_order);
    assert(ids_distinct(read)) by {
        assert forall|i: int, j: int| 0 <= i < j < read.len() implies (#[trigger] read[i]).id != (
        #[trigger] read[j]).id by {
            assert(order[i] != order[j]);
        }
    }
    assert forall|id: DatabaseId| #[trigger] has_database(read, id) == has_database(
        databases,
        id,
    ) by {
        assert(schema_database(read, id) == schema_database(databases, id));
    }
    assert forall|id: DatabaseId| has_database(databases, id) implies #[trigger] database_of(
        read,
        id,
    ) == database_of(databases, id) by {
        assert(at(tables.databases, id) == schema_database(databases, id));
        assert(order.contains(id));
        let i = choose|i: int| 0 <= i < order.len() && order[i] == id;
        assert(is_database(read, id, i));
        database_index_is(read, id, i);
        assert(reads_fields(tables, id, field_order(id)));
        reopening_keeps_the_order(tables, databases, id, field_order(id));
        assert(is_database(databases, id, database_index(databases, id)));
    }
}

/// A store that is opened again has the rows of its fields numbered along the
/// lists that were read.
pub proof fn reopening_keeps_numbers_rising(
    tables: Tables,
    databases: Seq<DatabaseView>,
    order: Seq<DatabaseId>,
    field_order: spec_fn(DatabaseId) -> Seq<FieldId>,
)
    requires
        consistent(databases),
        holds_schema(tables, databases),
        numbers_rise(tables, databases),
        reads_databases(tables, order),
        reads_all_fields(tables, order, field_order),
    ensures
        numbers_rise(tables, registry_read(tables, order, field_order)),
{
    let read = registry_read(tables, order, field_order);
    fields_found(tables, databases, order, field_order);
    reopening_gives_the_registry_back(tables, databases, order, field_order);
    assert forall|id: FieldId| #[trigger] schema_field(read, id) is Some implies at(
        tables.numbers.of,
        id,
    ) is Some by {
        assert(schema_field(databases, id) is Some);
    }
    assert(ids_distinct(read)) by {
        assert forall|i: int, j: int| 0 <= i < j < read.len() implies (#[trigger] read[i]).id != (
        #[trigger] read[j]).id by {
            assert(order[i] != order[j]);
        }
    }
    assert forall|a: FieldId, b: FieldId| #[trigger] stands_before(
        read,
        a,
        b,
    ) implies tables.numbers.of[a] < tables.numbers.of[b] by {
        let (j, p, q) = choose|j: int, p: int, q: int|
            p < q && #[trigger] stands_at(read, a, j, p) && #[trigger] stands_at(read, b, j, q);
        let id = read[j].id;
        assert(is_database(read, id, j));
        database_index_is(read, id, j);
        assert(has_database(read, id) == has_database(databases, id));
        assert(database_of(read, id) == database_of(databases, id));
        let i = database_index(databases, id);
        assert(is_database(databases, id, i));
        assert(stands_at(databases, a, i, p));
        assert(stands_at(databases, b, i, q));
        assert(stands_before(databases, a, b));
    }
}

} // verus!
