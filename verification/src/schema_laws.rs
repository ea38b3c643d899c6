//! What each change to a registry does, database by database and field by
//! field.

use vstd::prelude::*;

use crate::error::ErrorView;
use crate::ids::{DatabaseId, FieldId};
use crate::registry::{
    add_field_error, collected, database_index_is, database_of, database_removed, empty_database,
    field_added, field_error, field_in, field_removed, field_replaced, fields_without, has_database,
    ids_distinct, is_database, ordering_after, retype_error, with_database, with_database_distinct,
    with_database_puts, with_fields,
};
use crate::registry_laws::{
    field_added_shape, filter_agrees, filter_keeps_all, filter_twice, is_fresh_field,
};
use crate::schema::{
    field_position_found, field_position_is, DatabaseView, FieldKindView, FieldView,
};

verus! {

/// A database is there just where one of them has the id, and what is found
/// under the id is that one.
pub proof fn database_is_found_by_its_id(databases: Seq<DatabaseView>, id: DatabaseId)
    requires
        forall|i: int, j: int|
            0 <= i < j < databases.len() ==> (#[trigger] databases[i]).id != (
            #[trigger] databases[j]).id,
    ensures
        has_database(databases, id) <==> exists|i: int|
            0 <= i < databases.len() && (#[trigger] databases[i]).id == id,
        forall|i: int|
            0 <= i < databases.len() && (#[trigger] databases[i]).id == id ==> database_of(
                databases,
                id,
            ) == databases[i],
{
    if has_database(databases, id) {
        let i = choose|i: int| is_database(databases, id, i);
        assert(databases[i].id == id);
    }
    assert forall|i: int|
        0 <= i < databases.len() && (#[trigger] databases[i]).id == id implies has_database(
        databases,
        id,
    ) && database_of(databases, id) == databases[i] by {
        assert(is_database(databases, id, i));
        database_index_is(databases, id, i);
    }
}

/// A database that is created stands behind the others under its name, without
/// fields, and the others stay as they are.
pub proof fn created_database_stands(databases: Seq<DatabaseView>, id: DatabaseId, name: Seq<char>)
    requires
        forall|i: int| 0 <= i < databases.len() ==> (#[trigger] databases[i]).id != id,
    ensures
        with_database(databases, empty_database(id, name)) == databases.push(
            DatabaseView { id, name, fields: Seq::empty() },
        ),
{
}

/// A database that is created under an id that is taken stands in the place of
/// the one that had it.
pub proof fn created_database_replaces(
    databases: Seq<DatabaseView>,
    d: int,
    name: Seq<char>,
)
    requires
        ids_distinct(databases),
        0 <= d < databases.len(),
    ensures
        with_database(databases, empty_database(databases[d].id, name)) == databases.update(
            d,
            DatabaseView { id: databases[d].id, name, fields: Seq::empty() },
        ),
{
    assert(is_database(databases, databases[d].id, d));
    database_index_is(databases, databases[d].id, d);
}

/// Whether the `i`th of a list of databases has an id, and no later one has it.
pub open spec fn is_last_of(list: Seq<DatabaseView>, id: DatabaseId, i: int) -> bool {
    &&& 0 <= i < list.len()
    &&& list[i].id == id
    &&& forall|j: int| i < j < list.len() ==> (#[trigger] list[j]).id != id
}

/// Of a list of databases, each id finds the last one that has it.
pub proof fn last_of_an_id_is_held(list: Seq<DatabaseView>, id: DatabaseId, i: int)
    requires
        is_last_of(list, id, i),
    ensures
        has_database(collected(list), id),
        database_of(collected(list), id) == list[i],
    decreases list.len(),
{
    let rest = list.drop_last();
    let last = list.len() - 1;
    collected_ids_differ(rest);
    with_database_puts(collected(rest), list.last());
    if i < last {
        assert(list[last].id != id);
        assert(rest[i] == list[i]);
        assert forall|j: int| i < j < rest.len() implies (#[trigger] rest[j]).id != id by {
            assert(list[j].id != id);
        }
        last_of_an_id_is_held(rest, id, i);
    }
}

/// An id that no database of a list has finds nothing.
pub proof fn absent_id_is_not_held(list: Seq<DatabaseView>, id: DatabaseId)
    requires
        forall|i: int| 0 <= i < list.len() ==> (#[trigger] list[i]).id != id,
    ensures
        !has_database(collected(list), id),
    decreases list.len(),
{
    if list.len() > 0 {
        let rest = list.drop_last();
        assert forall|i: int| 0 <= i < rest.len() implies (#[trigger] rest[i]).id != id by {
            assert(list[i].id != id);
        }
        absent_id_is_not_held(rest, id);
        collected_ids_differ(rest);
        with_database_puts(collected(rest), list.last());
        assert(list[list.len() - 1].id != id);
        assert(has_database(collected(list), id) == has_database(collected(rest), id));
    }
}

/// No two of the databases that are held share an id.
pub proof fn collected_ids_differ(list: Seq<DatabaseView>)
    ensures
        ids_distinct(collected(list)),
    decreases list.len(),
{
    if list.len() > 0 {
        collected_ids_differ(list.drop_last());
        with_database_distinct(collected(list.drop_last()), list.last());
    }
}

/// The ordering of a new field is how many fields come before it.
proof fn ordering_is_the_count(len: nat)
    requires
        len <= 0x7fff_ffff,
    ensures
        ordering_after(len) as int == len,
{
}

/// A field that is no reference is added at the end of its database, under the
/// name and of the kind that were given, options and plugin included. Its
/// ordering is how many fields came before it, and everything else stays.
pub proof fn added_field_stands_last(
    databases: Seq<DatabaseView>,
    d: int,
    name: Seq<char>,
    kind: FieldKindView,
    field_id: FieldId,
    back_id: FieldId,
)
    requires
        ids_distinct(databases),
        0 <= d < databases.len(),
        databases[d].fields.len() <= 0x7fff_ffff,
        is_fresh_field(databases, field_id),
        kind !is Reference,
    ensures
        add_field_error(databases, databases[d].id, kind) is None,
        ({
            let own = databases[d];
            let after = field_added(databases, own.id, name, kind, field_id, back_id);
            &&& after == databases.update(d, after[d])
            &&& after[d].id == own.id
            &&& after[d].name == own.name
            &&& after[d].fields == own.fields.push(after[d].fields.last())
            &&& after[d].fields.last().id == field_id
            &&& after[d].fields.last().name == name
            &&& after[d].fields.last().kind == kind
            &&& after[d].fields.last().ordering == own.fields.len()
        }),
{
    assert(is_database(databases, databases[d].id, d));
    database_index_is(databases, databases[d].id, d);
    let (s, t) = field_added_shape(databases, databases[d].id, name, kind, field_id, back_id);
    assert(s == d);
    ordering_is_the_count(databases[d].fields.len());
    let after = field_added(databases, databases[d].id, name, kind, field_id, back_id);
    assert(after =~= databases.update(d, after[d]));
}

/// A reference that is added to another database stands at the end of its own,
/// and its back-reference at the end of the other, named after the first
/// database and the field. Each points at the other's database and names the
/// other as its pair, whatever pair was asked for, and everything else stays.
pub proof fn added_reference_stands_on_both_sides(
    databases: Seq<DatabaseView>,
    d: int,
    t: int,
    name: Seq<char>,
    asked: Option<FieldId>,
    field_id: FieldId,
    back_id: FieldId,
)
    requires
        ids_distinct(databases),
        0 <= d < databases.len(),
        0 <= t < databases.len(),
        d != t,
        databases[d].fields.len() <= 0x7fff_ffff,
        databases[t].fields.len() <= 0x7fff_ffff,
        is_fresh_field(databases, field_id),
    ensures
        ({
            let own = databases[d];
            let their = databases[t];
            let kind = FieldKindView::Reference { target_database: their.id, paired_field: asked };
            let after = field_added(databases, own.id, name, kind, field_id, back_id);
            let forward = after[d].fields.last();
            let back = after[t].fields.last();
            &&& add_field_error(databases, own.id, kind) is None
            &&& after == databases.update(d, after[d]).update(t, after[t])
            &&& after[d].id == own.id && after[d].name == own.name
            &&& after[t].id == their.id && after[t].name == their.name
            &&& after[d].fields == own.fields.push(forward)
            &&& after[t].fields == their.fields.push(back)
            &&& forward.id == field_id
            &&& forward.name == name
            &&& forward.kind == (FieldKindView::Reference {
                target_database: their.id,
                paired_field: Some(back_id),
            })
            &&& forward.ordering == own.fields.len()
            &&& back.id == back_id
            &&& back.name == own.name + " (via "@ + name + ")"@
            &&& back.kind == (FieldKindView::Reference {
                target_database: own.id,
                paired_field: Some(field_id),
            })
            &&& back.ordering == their.fields.len()
        }),
{
    let kind = FieldKindView::Reference { target_database: databases[t].id, paired_field: asked };
    assert(is_database(databases, databases[d].id, d));
    assert(is_database(databases, databases[t].id, t));
    database_index_is(databases, databases[d].id, d);
    database_index_is(databases, databases[t].id, t);
    let (a, b) = field_added_shape(databases, databases[d].id, name, kind, field_id, back_id);
    assert(a == d && b == t);
    ordering_is_the_count(databases[d].fields.len());
    ordering_is_the_count(databases[t].fields.len());
    let after = field_added(databases, databases[d].id, name, kind, field_id, back_id);
    assert(after =~= databases.update(d, after[d]).update(t, after[t]));
}

/// A reference of a database to itself is added with its back-reference behind
/// it, each with the other as its pair.
pub proof fn added_own_reference_stands_twice(
    databases: Seq<DatabaseView>,
    d: int,
    name: Seq<char>,
    asked: Option<FieldId>,
    field_id: FieldId,
    back_id: FieldId,
)
    requires
        ids_distinct(databases),
        0 <= d < databases.len(),
        databases[d].fields.len() < 0x7fff_ffff,
        is_fresh_field(databases, field_id),
    ensures
        ({
            let own = databases[d];
            let kind = FieldKindView::Reference { target_database: own.id, paired_field: asked };
            let after = field_added(databases, own.id, name, kind, field_id, back_id);
            let forward = after[d].fields[own.fields.len() as int];
            let back = after[d].fields.last();
            &&& add_field_error(databases, own.id, kind) is None
            &&& after == databases.update(d, after[d])
            &&& after[d].id == own.id && after[d].name == own.name
            &&& after[d].fields == own.fields.push(forward).push(back)
            &&& forward.id == field_id
            &&& forward.name == name
            &&& forward.kind == (FieldKindView::Reference {
                target_database: own.id,
                paired_field: Some(back_id),
            })
            &&& forward.ordering == own.fields.len()
            &&& back.id == back_id
            &&& back.name == own.name + " (via "@ + name + ")"@
            &&& back.kind == (FieldKindView::Reference {
                target_database: own.id,
                paired_field: Some(field_id),
            })
            &&& back.ordering == own.fields.len() + 1
        }),
{
    let kind = FieldKindView::Reference { target_database: databases[d].id, paired_field: asked };
    assert(is_database(databases, databases[d].id, d));
    database_index_is(databases, databases[d].id, d);
    let (a, b) = field_added_shape(databases, databases[d].id, name, kind, field_id, back_id);
    assert(a == d && b == d);
    ordering_is_the_count(databases[d].fields.len());
    ordering_is_the_count(databases[d].fields.len() + 1);
    let after = field_added(databases, databases[d].id, name, kind, field_id, back_id);
    assert(after =~= databases.update(d, after[d]));
}

/// A field cannot be added to a database that is not there, nor a reference to
/// one that is not, and the refusal names the one that is missing. Every other
/// field can be added.
pub proof fn adding_fails_on_what_is_missing(
    databases: Seq<DatabaseView>,
    database_id: DatabaseId,
    kind: FieldKindView,
)
    ensures
        (forall|i: int| 0 <= i < databases.len() ==> (#[trigger] databases[i]).id != database_id)
            ==> add_field_error(databases, database_id, kind) == Some(
            ErrorView::DatabaseNotFound(database_id),
        ),
        (exists|i: int| 0 <= i < databases.len() && (#[trigger] databases[i]).id == database_id)
            ==> match kind {
            FieldKindView::Reference { target_database, .. } => {
                &&& (forall|i: int|
                    0 <= i < databases.len() ==> (#[trigger] databases[i]).id != target_database)
                    ==> add_field_error(databases, database_id, kind) == Some(
                    ErrorView::DatabaseNotFound(target_database),
                )
                &&& (exists|i: int|
                    0 <= i < databases.len() && (#[trigger] databases[i]).id == target_database)
                    ==> add_field_error(databases, database_id, kind) is None
            },
            _ => add_field_error(databases, database_id, kind) is None,
        },
{
    if exists|i: int| 0 <= i < databases.len() && (#[trigger] databases[i]).id == database_id {
        let i = choose|i: int| 0 <= i < databases.len() && (#[trigger] databases[i]).id
            == database_id;
        assert(is_database(databases, database_id, i));
    }
    if let FieldKindView::Reference { target_database, .. } = kind {
        if exists|i: int| 0 <= i < databases.len() && (#[trigger] databases[i]).id
            == target_database {
            let i = choose|i: int|
                0 <= i < databases.len() && (#[trigger] databases[i]).id == target_database;
            assert(is_database(databases, target_database, i));
        }
    }
}

/// A field is found just where it stands: in the database with the id, as the
/// first field with the id. What is missing is what the refusal names.
pub proof fn field_is_found_in_its_database(
    databases: Seq<DatabaseView>,
    d: int,
    k: int,
    field_id: FieldId,
)
    requires
        ids_distinct(databases),
        0 <= d < databases.len(),
    ensures
        0 <= k < databases[d].fields.len() && databases[d].fields[k].id == field_id && (forall|
            i: int,
        |
            0 <= i < k ==> (#[trigger] databases[d].fields[i]).id != field_id) ==> {
            &&& field_error(databases, databases[d].id, field_id) is None
            &&& field_in(databases, databases[d].id, field_id) == databases[d].fields[k]
        },
        (forall|i: int|
            0 <= i < databases[d].fields.len() ==> (#[trigger] databases[d].fields[i]).id
                != field_id) ==> field_error(databases, databases[d].id, field_id) == Some(
            ErrorView::FieldNotFound(field_id),
        ),
        forall|id: DatabaseId|
            (forall|i: int| 0 <= i < databases.len() ==> (#[trigger] databases[i]).id != id)
                ==> #[trigger] field_error(databases, id, field_id) == Some(
                ErrorView::DatabaseNotFound(id),
            ),
{
    assert(is_database(databases, databases[d].id, d));
    database_index_is(databases, databases[d].id, d);
    field_position_found(databases[d].fields, field_id);
    if 0 <= k < databases[d].fields.len() && databases[d].fields[k].id == field_id && (forall|
        i: int,
    |
        0 <= i < k ==> (#[trigger] databases[d].fields[i]).id != field_id) {
        field_position_is(databases[d].fields, field_id, k);
    }
}

/// Renaming a field gives it the name and changes nothing else; retyping it
/// gives it the kind and changes nothing else.
pub proof fn renamed_and_retyped_field_changes_alone(
    databases: Seq<DatabaseView>,
    d: int,
    k: int,
    name: Seq<char>,
    kind: FieldKindView,
)
    requires
        ids_distinct(databases),
        0 <= d < databases.len(),
        0 <= k < databases[d].fields.len(),
        forall|i: int|
            0 <= i < k ==> (#[trigger] databases[d].fields[i]).id != databases[d].fields[k].id,
    ensures
        ({
            let own = databases[d];
            let field = own.fields[k];
            let found = field_in(databases, own.id, field.id);
            let renamed = field_replaced(databases, own.id, FieldView { name, ..found });
            let retyped = field_replaced(databases, own.id, FieldView { kind, ..found });
            &&& renamed == databases.update(
                d,
                DatabaseView {
                    id: own.id,
                    name: own.name,
                    fields: own.fields.update(
                        k,
                        FieldView {
                            id: field.id,
                            name,
                            kind: field.kind,
                            ordering: field.ordering,
                        },
                    ),
                },
            )
            &&& retyped == databases.update(
                d,
                DatabaseView {
                    id: own.id,
                    name: own.name,
                    fields: own.fields.update(
                        k,
                        FieldView {
                            id: field.id,
                            name: field.name,
                            kind,
                            ordering: field.ordering,
                        },
                    ),
                },
            )
        }),
{
    assert(is_database(databases, databases[d].id, d));
    database_index_is(databases, databases[d].id, d);
    field_position_is(databases[d].fields, databases[d].fields[k].id, k);
}

/// A field that is there can be given every kind but that of a reference, and
/// a reference can be given none.
pub proof fn references_are_not_retyped(
    databases: Seq<DatabaseView>,
    d: int,
    k: int,
    kind: FieldKindView,
)
    requires
        ids_distinct(databases),
        0 <= d < databases.len(),
        0 <= k < databases[d].fields.len(),
        forall|i: int|
            0 <= i < k ==> (#[trigger] databases[d].fields[i]).id != databases[d].fields[k].id,
    ensures
        ({
            let field = databases[d].fields[k];
            let error = retype_error(databases, databases[d].id, field.id, kind);
            &&& field.kind !is Reference && kind !is Reference ==> error is None
            &&& field.kind is Reference || kind is Reference ==> error == Some(
                ErrorView::ReferenceFieldRetypeNotSupported(field.id),
            )
        }),
        forall|id: DatabaseId, field_id: FieldId|
            (forall|i: int| 0 <= i < databases.len() ==> (#[trigger] databases[i]).id != id)
                ==> #[trigger] retype_error(databases, id, field_id, kind) == Some(
                ErrorView::DatabaseNotFound(id),
            ),
        forall|field_id: FieldId|
            (forall|i: int|
                0 <= i < databases[d].fields.len() ==> (#[trigger] databases[d].fields[i]).id
                    != field_id) ==> #[trigger] retype_error(
                databases,
                databases[d].id,
                field_id,
                kind,
            ) == Some(ErrorView::FieldNotFound(field_id)),
{
    field_is_found_in_its_database(databases, d, k, databases[d].fields[k].id);
    assert forall|field_id: FieldId|
        (forall|i: int|
            0 <= i < databases[d].fields.len() ==> (#[trigger] databases[d].fields[i]).id
                != field_id) implies #[trigger] retype_error(
        databases,
        databases[d].id,
        field_id,
        kind,
    ) == Some(ErrorView::FieldNotFound(field_id)) by {
        field_is_found_in_its_database(databases, d, k, field_id);
    }
}

/// Leaving out an id leaves out the one field that has it.
proof fn without_one(fields: Seq<FieldView>, k: int)
    requires
        0 <= k < fields.len(),
        forall|i: int, j: int|
            0 <= i < j < fields.len() ==> (#[trigger] fields[i]).id != (#[trigger] fields[j]).id,
    ensures
        fields_without(fields, fields[k].id) == fields.remove(k),
{
    let id = fields[k].id;
    let kept = |field: FieldView| field.id != id;
    let before = fields.subrange(0, k);
    let behind = fields.subrange(k + 1, fields.len() as int);
    let one = seq![fields[k]];
    assert(fields =~= before + one + behind);
    assert(fields.remove(k) =~= before + behind);
    Seq::filter_distributes_over_add(before + one, behind, kept);
    Seq::filter_distributes_over_add(before, one, kept);
    assert forall|i: int| 0 <= i < before.len() implies kept(#[trigger] before[i]) by {
        assert(before[i] == fields[i]);
    }
    assert forall|i: int| 0 <= i < behind.len() implies kept(#[trigger] behind[i]) by {
        assert(behind[i] == fields[k + 1 + i]);
    }
    filter_keeps_all(before, kept);
    filter_keeps_all(behind, kept);
    assert(one.filter(kept) =~= Seq::empty()) by {
        reveal(Seq::filter);
        assert(one.drop_last() =~= Seq::empty());
        assert(Seq::<FieldView>::empty().filter(kept) =~= Seq::empty());
    }
    assert(before + Seq::<FieldView>::empty() =~= before);
}

/// A field that is no reference is removed alone: the fields of its database
/// close up behind it, and everything else stays.
pub proof fn removed_field_leaves_the_others(databases: Seq<DatabaseView>, d: int, k: int)
    requires
        ids_distinct(databases),
        0 <= d < databases.len(),
        0 <= k < databases[d].fields.len(),
        forall|i: int, j: int|
            0 <= i < j < databases[d].fields.len() ==> (#[trigger] databases[d].fields[i]).id != (
            #[trigger] databases[d].fields[j]).id,
        databases[d].fields[k].kind !is Reference,
    ensures
        field_removed(databases, databases[d].id, databases[d].fields[k].id) == databases.update(
            d,
            DatabaseView {
                id: databases[d].id,
                name: databases[d].name,
                fields: databases[d].fields.remove(k),
            },
        ),
{
    assert(is_database(databases, databases[d].id, d));
    database_index_is(databases, databases[d].id, d);
    field_position_is(databases[d].fields, databases[d].fields[k].id, k);
    without_one(databases[d].fields, k);
}

/// A reference to another database is removed together with its pair there,
/// and everything else stays.
pub proof fn removed_reference_takes_its_pair(
    databases: Seq<DatabaseView>,
    d: int,
    k: int,
    t: int,
    m: int,
)
    requires
        ids_distinct(databases),
        0 <= d < databases.len(),
        0 <= t < databases.len(),
        d != t,
        0 <= k < databases[d].fields.len(),
        0 <= m < databases[t].fields.len(),
        forall|i: int, j: int|
            0 <= i < j < databases[d].fields.len() ==> (#[trigger] databases[d].fields[i]).id != (
            #[trigger] databases[d].fields[j]).id,
        forall|i: int, j: int|
            0 <= i < j < databases[t].fields.len() ==> (#[trigger] databases[t].fields[i]).id != (
            #[trigger] databases[t].fields[j]).id,
        databases[d].fields[k].kind == (FieldKindView::Reference {
            target_database: databases[t].id,
            paired_field: Some(databases[t].fields[m].id),
        }),
    ensures
        field_removed(databases, databases[d].id, databases[d].fields[k].id) == databases.update(
            d,
            DatabaseView {
                id: databases[d].id,
                name: databases[d].name,
                fields: databases[d].fields.remove(k),
            },
        ).update(
            t,
            DatabaseView {
                id: databases[t].id,
                name: databases[t].name,
                fields: databases[t].fields.remove(m),
            },
        ),
{
    assert(is_database(databases, databases[d].id, d));
    database_index_is(databases, databases[d].id, d);
    field_position_is(databases[d].fields, databases[d].fields[k].id, k);
    without_one(databases[d].fields, k);
    without_one(databases[t].fields, m);
    let alone = with_fields(
        databases,
        databases[d].id,
        databases[d].fields.remove(k),
    );
    assert(ids_distinct(alone));
    assert(is_database(alone, databases[t].id, t));
    database_index_is(alone, databases[t].id, t);
}

/// A reference of a database to itself is removed together with its pair: just
/// the fields with neither id are left, in their order.
pub proof fn removed_own_reference_takes_its_pair(
    databases: Seq<DatabaseView>,
    d: int,
    k: int,
    pair: FieldId,
)
    requires
        ids_distinct(databases),
        0 <= d < databases.len(),
        0 <= k < databases[d].fields.len(),
        forall|i: int|
            0 <= i < k ==> (#[trigger] databases[d].fields[i]).id != databases[d].fields[k].id,
        databases[d].fields[k].kind == (FieldKindView::Reference {
            target_database: databases[d].id,
            paired_field: Some(pair),
        }),
    ensures
        field_removed(databases, databases[d].id, databases[d].fields[k].id) == databases.update(
            d,
            DatabaseView {
                id: databases[d].id,
                name: databases[d].name,
                fields: databases[d].fields.filter(
                    |field: FieldView| field.id != databases[d].fields[k].id && field.id != pair,
                ),
            },
        ),
{
    let own = databases[d];
    let id = own.fields[k].id;
    assert(is_database(databases, own.id, d));
    database_index_is(databases, own.id, d);
    field_position_is(own.fields, id, k);
    let rest = fields_without(own.fields, id);
    let alone = with_fields(databases, own.id, rest);
    assert(ids_distinct(alone));
    assert(is_database(alone, own.id, d));
    database_index_is(alone, own.id, d);
    let first = |field: FieldView| field.id != id;
    let second = |field: FieldView| field.id != pair;
    let both = |field: FieldView| field.id != id && field.id != pair;
    filter_twice(own.fields, first, second);
    filter_agrees(own.fields, |field: FieldView| first(field) && second(field), both);
    assert(fields_without(rest, pair) == own.fields.filter(both));
    assert(alone.update(d, DatabaseView { fields: own.fields.filter(both), ..alone[d] })
        =~= databases.update(d, DatabaseView { fields: own.fields.filter(both), ..own }));
}

/// A database that is removed is gone, and the others close up behind it. Each
/// of them keeps just the fields that did not point at it, in their order.
pub proof fn removed_database_takes_what_points_at_it(databases: Seq<DatabaseView>, d: int, i: int)
    requires
        ids_distinct(databases),
        0 <= d < databases.len(),
        0 <= i < databases.len() - 1,
    ensures
        ({
            let after = database_removed(databases, databases[d].id);
            let kept = databases.remove(d)[i];
            &&& after.len() == databases.len() - 1
            &&& after[i].id == kept.id
            &&& after[i].name == kept.name
            &&& after[i].fields == kept.fields.filter(
                |field: FieldView|
                    match field.kind {
                        FieldKindView::Reference { target_database, .. } => target_database
                            != databases[d].id,
                        _ => true,
                    },
            )
        }),
{
    assert(is_database(databases, databases[d].id, d));
    database_index_is(databases, databases[d].id, d);
    let kept = databases.remove(d)[i];
    filter_agrees(
        kept.fields,
        |field: FieldView| field.kind.target() != Some(databases[d].id),
        |field: FieldView|
            match field.kind {
                FieldKindView::Reference { target_database, .. } => target_database
                    != databases[d].id,
                _ => true,
            },
    );
}

} // verus!
