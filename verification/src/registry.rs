//! The catalogue of databases, held in memory.

use vstd::prelude::*;
use vstd::string::StringExecFns;

use crate::error::{DataLineError, ErrorView, Result};
use crate::ids::{DatabaseId, FieldId};
use crate::schema::{
    copy_fields, field_of, field_position, field_position_found, field_position_is, Database,
    DatabaseView, FieldDefinition, FieldKind, FieldKindView, FieldView,
};
use crate::text::{views, views_push};
use crate::uuids::is_version_four;

verus! {

/// Whether the `i`th database has this id.
pub open spec fn is_database(databases: Seq<DatabaseView>, id: DatabaseId, i: int) -> bool {
    0 <= i < databases.len() && databases[i].id == id
}

/// Whether some database has this id.
pub open spec fn has_database(databases: Seq<DatabaseView>, id: DatabaseId) -> bool {
    exists|i: int| is_database(databases, id, i)
}

/// Where the database with this id stands.
pub open spec fn database_index(databases: Seq<DatabaseView>, id: DatabaseId) -> int {
    choose|i: int| is_database(databases, id, i)
}

/// The database with this id.
pub open spec fn database_of(databases: Seq<DatabaseView>, id: DatabaseId) -> DatabaseView {
    databases[database_index(databases, id)]
}

/// Whether no two databases share an id.
pub open spec fn ids_distinct(databases: Seq<DatabaseView>) -> bool {
    forall|i: int, j: int|
        0 <= i < j < databases.len() ==> (#[trigger] databases[i]).id != (
        #[trigger] databases[j]).id
}

/// A database is found where it stands.
pub proof fn database_index_is(databases: Seq<DatabaseView>, id: DatabaseId, i: int)
    requires
        ids_distinct(databases),
        is_database(databases, id, i),
    ensures
        has_database(databases, id),
        database_index(databases, id) == i,
        database_of(databases, id) == databases[i],
{
    let j = database_index(databases, id);
    assert(is_database(databases, id, j));
}

/// The databases with `database` among them, in place of one with the same id
/// or else at the end.
pub open spec fn with_database(
    databases: Seq<DatabaseView>,
    database: DatabaseView,
) -> Seq<DatabaseView> {
    if has_database(databases, database.id) {
        databases.update(database_index(databases, database.id), database)
    } else {
        databases.push(database)
    }
}

/// The databases with other fields in one of them.
pub open spec fn with_fields(
    databases: Seq<DatabaseView>,
    id: DatabaseId,
    fields: Seq<FieldView>,
) -> Seq<DatabaseView> {
    let i = database_index(databases, id);
    databases.update(i, DatabaseView { fields, ..databases[i] })
}

/// Putting a database among others keeps the ids distinct.
pub proof fn with_database_distinct(databases: Seq<DatabaseView>, database: DatabaseView)
    requires
        ids_distinct(databases),
    ensures
        ids_distinct(with_database(databases, database)),
        has_database(with_database(databases, database), database.id),
        database_of(with_database(databases, database), database.id) == database,
{
    let after = with_database(databases, database);
    if has_database(databases, database.id) {
        let i = database_index(databases, database.id);
        assert(is_database(databases, database.id, i));
        assert(ids_distinct(after));
        assert(is_database(after, database.id, i));
        database_index_is(after, database.id, i);
    } else {
        assert forall|i: int, j: int| 0 <= i < j < after.len() implies (#[trigger] after[i]).id != (
        #[trigger] after[j]).id by {
            if j == databases.len() {
                assert(!is_database(databases, database.id, i));
            }
        }
        assert(is_database(after, database.id, databases.len() as int));
        database_index_is(after, database.id, databases.len() as int);
    }
}

/// Giving a database other fields changes nothing else.
pub proof fn with_fields_keeps(
    databases: Seq<DatabaseView>,
    id: DatabaseId,
    fields: Seq<FieldView>,
)
    requires
        ids_distinct(databases),
        has_database(databases, id),
    ensures
        ids_distinct(with_fields(databases, id, fields)),
        with_fields(databases, id, fields).len() == databases.len(),
        database_of(with_fields(databases, id, fields), id) == (DatabaseView {
            fields,
            ..database_of(databases, id)
        }),
        forall|other: DatabaseId|
            #![trigger has_database(with_fields(databases, id, fields), other)]
            #![trigger has_database(databases, other)]
            has_database(with_fields(databases, id, fields), other) == has_database(
                databases,
                other,
            ),
        forall|other: DatabaseId|
            other != id && has_database(databases, other) ==> #[trigger] database_of(
                with_fields(databases, id, fields),
                other,
            ) == database_of(databases, other),
{
    let after = with_fields(databases, id, fields);
    let i = database_index(databases, id);
    assert(is_database(databases, id, i));
    assert(is_database(after, id, i));
    assert(ids_distinct(after));
    database_index_is(after, id, i);
    assert forall|other: DatabaseId|
        #![trigger has_database(after, other)]
        #![trigger has_database(databases, other)]
        has_database(after, other) == has_database(databases, other) by {
        if has_database(databases, other) {
            let k = database_index(databases, other);
            assert(is_database(databases, other, k));
            assert(is_database(after, other, k));
        }
        if has_database(after, other) {
            let k = database_index(after, other);
            assert(is_database(after, other, k));
            assert(is_database(databases, other, k));
        }
    }
    assert forall|other: DatabaseId|
        other != id && has_database(databases, other) implies #[trigger] database_of(after, other)
        == database_of(databases, other) by {
        let k = database_index(databases, other);
        assert(is_database(databases, other, k));
        assert(is_database(after, other, k));
        database_index_is(after, other, k);
    }
}

/// Whether every other id finds what it found before.
pub open spec fn others_found(
    before: Seq<DatabaseView>,
    after: Seq<DatabaseView>,
    id: DatabaseId,
) -> bool {
    &&& forall|other: DatabaseId|
        other != id ==> #[trigger] has_database(after, other) == has_database(before, other)
    &&& forall|other: DatabaseId|
        other != id && has_database(before, other) ==> #[trigger] database_of(after, other)
            == database_of(before, other)
}

/// Whether a database is found under its id, and under every other id what was
/// found there before.
pub open spec fn is_database_put(
    before: Seq<DatabaseView>,
    after: Seq<DatabaseView>,
    database: DatabaseView,
) -> bool {
    &&& has_database(after, database.id)
    &&& database_of(after, database.id) == database
    &&& others_found(before, after, database.id)
}

/// A database that is put among others is found there, and so is every other
/// one.
pub proof fn with_database_puts(databases: Seq<DatabaseView>, database: DatabaseView)
    requires
        ids_distinct(databases),
    ensures
        is_database_put(databases, with_database(databases, database), database),
{
    let after = with_database(databases, database);
    with_database_distinct(databases, database);
    assert forall|other: DatabaseId| other != database.id implies #[trigger] has_database(
        after,
        other,
    ) == has_database(databases, other) && (has_database(databases, other) ==> database_of(
        after,
        other,
    ) == database_of(databases, other)) by {
        if has_database(databases, other) {
            let k = database_index(databases, other);
            assert(is_database(databases, other, k));
            assert(is_database(after, other, k));
            database_index_is(after, other, k);
        }
        if has_database(after, other) {
            let k = database_index(after, other);
            assert(is_database(after, other, k));
            assert(is_database(databases, other, k));
        }
    }
    assert forall|other: DatabaseId|
        other != database.id && has_database(databases, other) implies #[trigger] database_of(
        after,
        other,
    ) == database_of(databases, other) by {
        assert(has_database(after, other) == has_database(databases, other));
    }
}

/// A database with other fields is found under its id, and every other one as
/// it was.
pub proof fn with_fields_puts(databases: Seq<DatabaseView>, id: DatabaseId, fields: Seq<FieldView>)
    requires
        ids_distinct(databases),
        has_database(databases, id),
    ensures
        is_database_put(
            databases,
            with_fields(databases, id, fields),
            DatabaseView { fields, ..database_of(databases, id) },
        ),
{
    with_fields_keeps(databases, id, fields);
    let i = database_index(databases, id);
    assert(is_database(databases, id, i));
    assert(has_database(with_fields(databases, id, fields), id));
}

/// The ordering of a field that `len` fields come before.
pub open spec fn ordering_after(len: nat) -> i32 {
    (len as usize) as i32
}

/// The kind with no pair established.
pub open spec fn unpaired(kind: FieldKindView) -> FieldKindView {
    match kind {
        FieldKindView::Reference { target_database, .. } => FieldKindView::Reference {
            target_database,
            paired_field: None,
        },
        _ => kind,
    }
}

/// The kind with its pair established.
pub open spec fn paired_with(kind: FieldKindView, pair: FieldId) -> FieldKindView {
    match kind {
        FieldKindView::Reference { target_database, .. } => FieldKindView::Reference {
            target_database,
            paired_field: Some(pair),
        },
        _ => kind,
    }
}

/// The databases with one more field at the end of one of them.
pub open spec fn field_pushed(
    databases: Seq<DatabaseView>,
    id: DatabaseId,
    field_id: FieldId,
    name: Seq<char>,
    kind: FieldKindView,
) -> Seq<DatabaseView> {
    let fields = database_of(databases, id).fields;
    let field = FieldView { id: field_id, name, kind, ordering: ordering_after(fields.len()) };
    with_fields(databases, id, fields.push(field))
}

/// The fields with the first one of this id paired.
pub open spec fn fields_paired(fields: Seq<FieldView>, id: FieldId, pair: FieldId) -> Seq<
    FieldView,
> {
    match field_position(fields, id) {
        Some(i) => fields.update(i, FieldView { kind: paired_with(fields[i].kind, pair), ..fields[i]
        }),
        None => fields,
    }
}

/// The name that a back-reference field is given.
pub open spec fn back_name(database: Seq<char>, field: Seq<char>) -> Seq<char> {
    database + " (via "@ + field + ")"@
}

/// Why a field of this kind cannot be added.
pub open spec fn add_field_error(
    databases: Seq<DatabaseView>,
    database_id: DatabaseId,
    kind: FieldKindView,
) -> Option<ErrorView> {
    if !has_database(databases, database_id) {
        Some(ErrorView::DatabaseNotFound(database_id))
    } else {
        match kind.target() {
            Some(target) => if has_database(databases, target) {
                None
            } else {
                Some(ErrorView::DatabaseNotFound(target))
            },
            None => None,
        }
    }
}

/// The databases with a field added, and with its back-reference on the target
/// database where the field is a reference.
pub open spec fn field_added(
    databases: Seq<DatabaseView>,
    database_id: DatabaseId,
    name: Seq<char>,
    kind: FieldKindView,
    field_id: FieldId,
    back_id: FieldId,
) -> Seq<DatabaseView> {
    let forward = field_pushed(databases, database_id, field_id, name, unpaired(kind));
    match kind.target() {
        Some(target) => {
            let both = field_pushed(
                forward,
                target,
                back_id,
                back_name(database_of(databases, database_id).name, name),
                FieldKindView::Reference {
                    target_database: database_id,
                    paired_field: Some(field_id),
                },
            );
            with_fields(
                both,
                database_id,
                fields_paired(database_of(both, database_id).fields, field_id, back_id),
            )
        },
        None => forward,
    }
}

/// Whether `after` holds the databases with a field added under this id, its
/// back-reference under some id; both are random ids.
pub open spec fn is_field_added(
    databases: Seq<DatabaseView>,
    after: Seq<DatabaseView>,
    database_id: DatabaseId,
    name: Seq<char>,
    kind: FieldKindView,
    field_id: FieldId,
) -> bool {
    is_version_four(field_id.0) && exists|back_id: FieldId|
        is_version_four(back_id.0) && after == #[trigger] field_added(
            databases,
            database_id,
            name,
            kind,
            field_id,
            back_id,
        )
}

/// A field as it is added after `len` others.
pub open spec fn field_for(id: FieldId, name: Seq<char>, kind: FieldKindView, len: nat) -> FieldView {
    FieldView { id, name, kind, ordering: ordering_after(len) }
}

/// The back-reference of a field, as it is added after `len` others.
pub open spec fn back_field(
    database: DatabaseView,
    name: Seq<char>,
    field_id: FieldId,
    back_id: FieldId,
    len: nat,
) -> FieldView {
    field_for(
        back_id,
        back_name(database.name, name),
        FieldKindView::Reference { target_database: database.id, paired_field: Some(field_id) },
        len,
    )
}

/// Whether a field is found at the end of its database, and its back-reference
/// at the end of the target database where it is a reference, while everything
/// else is found as it was. A field whose id its database already has is not
/// spoken of.
pub open spec fn is_field_put(
    before: Seq<DatabaseView>,
    after: Seq<DatabaseView>,
    database_id: DatabaseId,
    name: Seq<char>,
    kind: FieldKindView,
    field_id: FieldId,
    back_id: FieldId,
) -> bool {
    let own = database_of(before, database_id);
    let field = field_for(field_id, name, paired_with(kind, back_id), own.fields.len());
    &&& forall|other: DatabaseId| #[trigger]
        has_database(after, other) == has_database(before, other)
    &&& forall|other: DatabaseId|
        has_database(before, other) && other != database_id && kind.target() != Some(other)
            ==> #[trigger] database_of(after, other) == database_of(before, other)
    &&& field_position(own.fields, field_id) is None ==> match kind.target() {
        Some(target) => if target == database_id {
            let back = back_field(own, name, field_id, back_id, own.fields.len() + 1);
            database_of(after, database_id) == (DatabaseView {
                fields: own.fields.push(field).push(back),
                ..own
            })
        } else {
            let their = database_of(before, target);
            let back = back_field(own, name, field_id, back_id, their.fields.len());
            &&& database_of(after, database_id) == (DatabaseView {
                fields: own.fields.push(field),
                ..own
            })
            &&& database_of(after, target) == (DatabaseView {
                fields: their.fields.push(back),
                ..their
            })
        },
        None => database_of(after, database_id) == (DatabaseView {
            fields: own.fields.push(field),
            ..own
        }),
    }
}

/// Whether a field is found where it should be, with its back-reference under
/// some id.
pub open spec fn is_field_found(
    before: Seq<DatabaseView>,
    after: Seq<DatabaseView>,
    database_id: DatabaseId,
    name: Seq<char>,
    kind: FieldKindView,
    field_id: FieldId,
) -> bool {
    exists|back_id: FieldId| #[trigger]
        is_field_put(before, after, database_id, name, kind, field_id, back_id)
}

/// A field that is added is found where it should be.
pub proof fn field_added_puts(
    databases: Seq<DatabaseView>,
    database_id: DatabaseId,
    name: Seq<char>,
    kind: FieldKindView,
    field_id: FieldId,
    back_id: FieldId,
)
    requires
        ids_distinct(databases),
        add_field_error(databases, database_id, kind) is None,
    ensures
        is_field_put(
            databases,
            field_added(databases, database_id, name, kind, field_id, back_id),
            database_id,
            name,
            kind,
            field_id,
            back_id,
        ),
{
    let own = database_of(databases, database_id);
    let i = database_index(databases, database_id);
    assert(is_database(databases, database_id, i));
    assert(own.id == database_id);
    let plain = field_for(field_id, name, unpaired(kind), own.fields.len());
    let forward = field_pushed(databases, database_id, field_id, name, unpaired(kind));
    with_fields_keeps(databases, database_id, own.fields.push(plain));
    if let Some(target) = kind.target() {
        let back_kind = FieldKindView::Reference {
            target_database: database_id,
            paired_field: Some(field_id),
        };
        let back_label = back_name(own.name, name);
        let both = field_pushed(forward, target, back_id, back_label, back_kind);
        assert(has_database(forward, target) == has_database(databases, target));
        with_fields_keeps(
            forward,
            target,
            database_of(forward, target).fields.push(
                field_for(
                    back_id,
                    back_label,
                    back_kind,
                    database_of(forward, target).fields.len(),
                ),
            ),
        );
        assert(has_database(both, database_id) == has_database(forward, database_id));
        assert(has_database(forward, database_id) == has_database(databases, database_id));
        let listed = database_of(both, database_id).fields;
        with_fields_keeps(both, database_id, fields_paired(listed, field_id, back_id));
        if field_position(own.fields, field_id) is None {
            let field = field_for(field_id, name, paired_with(kind, back_id), own.fields.len());
            field_position_found(own.fields, field_id);
            assert forall|k: int| 0 <= k < own.fields.len() implies (#[trigger] listed[k]).id
                != field_id by {
                assert(listed[k] == own.fields[k]);
            }
            assert(listed[own.fields.len() as int] == plain);
            field_position_is(listed, field_id, own.fields.len() as int);
            if target == database_id {
                let back = back_field(own, name, field_id, back_id, own.fields.len() + 1);
                assert(fields_paired(listed, field_id, back_id) =~= own.fields.push(field).push(
                    back,
                ));
            } else {
                assert(fields_paired(listed, field_id, back_id) =~= own.fields.push(field));
            }
        }
    }
}

/// Why a field cannot be found.
pub open spec fn field_error(
    databases: Seq<DatabaseView>,
    database_id: DatabaseId,
    field_id: FieldId,
) -> Option<ErrorView> {
    if !has_database(databases, database_id) {
        Some(ErrorView::DatabaseNotFound(database_id))
    } else if field_position(database_of(databases, database_id).fields, field_id) is None {
        Some(ErrorView::FieldNotFound(field_id))
    } else {
        None
    }
}

/// The databases with another definition of one field.
pub open spec fn field_replaced(
    databases: Seq<DatabaseView>,
    database_id: DatabaseId,
    field: FieldView,
) -> Seq<DatabaseView> {
    let fields = database_of(databases, database_id).fields;
    with_fields(
        databases,
        database_id,
        fields.update(field_position(fields, field.id)->0, field),
    )
}

/// The field with this id in this database.
pub open spec fn field_in(
    databases: Seq<DatabaseView>,
    database_id: DatabaseId,
    field_id: FieldId,
) -> FieldView {
    let fields = database_of(databases, database_id).fields;
    fields[field_position(fields, field_id)->0]
}

/// The fields that do not have this id.
pub open spec fn fields_without(fields: Seq<FieldView>, id: FieldId) -> Seq<FieldView> {
    fields.filter(|field: FieldView| field.id != id)
}

/// The fields that do not point at this database.
pub open spec fn fields_not_at(fields: Seq<FieldView>, target: DatabaseId) -> Seq<FieldView> {
    fields.filter(|field: FieldView| field.kind.target() != Some(target))
}

/// The databases without one field, nor its pair where it has one.
pub open spec fn field_removed(
    databases: Seq<DatabaseView>,
    database_id: DatabaseId,
    field_id: FieldId,
) -> Seq<DatabaseView> {
    let kind = field_in(databases, database_id, field_id).kind;
    let alone = with_fields(
        databases,
        database_id,
        fields_without(database_of(databases, database_id).fields, field_id),
    );
    match (kind.target(), kind.pair()) {
        (Some(target), Some(pair)) => if has_database(alone, target) {
            with_fields(alone, target, fields_without(database_of(alone, target).fields, pair))
        } else {
            alone
        },
        _ => alone,
    }
}

/// Whether a field is gone from its database, and its pair from the target
/// database where it has one, while everything else is found as it was.
pub open spec fn is_field_gone(
    before: Seq<DatabaseView>,
    after: Seq<DatabaseView>,
    database_id: DatabaseId,
    field_id: FieldId,
) -> bool {
    let own = database_of(before, database_id);
    let kind = field_in(before, database_id, field_id).kind;
    let rest = fields_without(own.fields, field_id);
    &&& forall|other: DatabaseId| #[trigger]
        has_database(after, other) == has_database(before, other)
    &&& forall|other: DatabaseId|
        has_database(before, other) && other != database_id && (kind.pair() is None
            || kind.target() != Some(other)) ==> #[trigger] database_of(after, other)
            == database_of(before, other)
    &&& match (kind.target(), kind.pair()) {
        (Some(target), Some(pair)) => if target == database_id {
            database_of(after, database_id) == (DatabaseView {
                fields: fields_without(rest, pair),
                ..own
            })
        } else {
            let their = database_of(before, target);
            &&& database_of(after, database_id) == (DatabaseView { fields: rest, ..own })
            &&& has_database(before, target) ==> database_of(after, target) == (DatabaseView {
                fields: fields_without(their.fields, pair),
                ..their
            })
        },
        _ => database_of(after, database_id) == (DatabaseView { fields: rest, ..own }),
    }
}

/// A field that is removed is gone from where it was.
pub proof fn field_removed_goes(
    databases: Seq<DatabaseView>,
    database_id: DatabaseId,
    field_id: FieldId,
)
    requires
        ids_distinct(databases),
        has_database(databases, database_id),
    ensures
        is_field_gone(
            databases,
            field_removed(databases, database_id, field_id),
            database_id,
            field_id,
        ),
{
    let own = database_of(databases, database_id);
    let kind = field_in(databases, database_id, field_id).kind;
    let rest = fields_without(own.fields, field_id);
    let alone = with_fields(databases, database_id, rest);
    with_fields_keeps(databases, database_id, rest);
    if let (Some(target), Some(pair)) = (kind.target(), kind.pair()) {
        assert(has_database(alone, target) == has_database(databases, target));
        if has_database(alone, target) {
            with_fields_keeps(alone, target, fields_without(database_of(alone, target).fields, pair));
        }
    }
}

/// A database without the fields that point at another one.
pub open spec fn database_not_at(database: DatabaseView, target: DatabaseId) -> DatabaseView {
    DatabaseView { fields: fields_not_at(database.fields, target), ..database }
}

/// The databases without one of them, nor any field that points at it.
pub open spec fn database_removed(databases: Seq<DatabaseView>, id: DatabaseId) -> Seq<
    DatabaseView,
> {
    databases.remove(database_index(databases, id)).map_values(
        |database: DatabaseView| database_not_at(database, id),
    )
}

/// Whether a database is gone, and every other one is found without the fields
/// that pointed at it.
pub open spec fn is_database_gone(
    before: Seq<DatabaseView>,
    after: Seq<DatabaseView>,
    id: DatabaseId,
) -> bool {
    &&& forall|other: DatabaseId| #[trigger]
        has_database(after, other) == (other != id && has_database(before, other))
    &&& forall|other: DatabaseId|
        other != id && has_database(before, other) ==> #[trigger] database_of(after, other)
            == database_not_at(database_of(before, other), id)
}

/// A database that is removed is gone.
pub proof fn database_removed_goes(databases: Seq<DatabaseView>, id: DatabaseId)
    requires
        ids_distinct(databases),
        has_database(databases, id),
    ensures
        ids_distinct(database_removed(databases, id)),
        is_database_gone(databases, database_removed(databases, id), id),
{
    let after = database_removed(databases, id);
    let gone = database_index(databases, id);
    assert(is_database(databases, id, gone));
    assert forall|i: int, j: int| 0 <= i < j < after.len() implies (#[trigger] after[i]).id != (
    #[trigger] after[j]).id by {
        let i0 = if i < gone {
            i
        } else {
            i + 1
        };
        let j0 = if j < gone {
            j
        } else {
            j + 1
        };
        assert(databases[i0].id != databases[j0].id);
    }
    assert forall|other: DatabaseId| #[trigger]
        has_database(after, other) == (other != id && has_database(databases, other)) by {
        if has_database(after, other) {
            let i = database_index(after, other);
            assert(is_database(after, other, i));
            let i0 = if i < gone {
                i
            } else {
                i + 1
            };
            assert(is_database(databases, other, i0));
            assert(databases[i0].id != databases[gone].id);
        }
        if other != id && has_database(databases, other) {
            let i = database_index(databases, other);
            assert(is_database(databases, other, i));
            assert(is_database(
                after,
                other,
                if i < gone {
                    i
                } else {
                    i - 1
                },
            ));
        }
    }
    assert forall|other: DatabaseId|
        other != id && has_database(databases, other) implies #[trigger] database_of(after, other)
        == database_not_at(database_of(databases, other), id) by {
        let i = database_index(databases, other);
        assert(is_database(databases, other, i));
        let j = if i < gone {
            i
        } else {
            i - 1
        };
        assert(is_database(after, other, j));
        database_index_is(after, other, j);
    }
}

/// The databases as a registry holds them when it is built from a list: where
/// an id occurs twice, the later database stands.
pub open spec fn collected(databases: Seq<DatabaseView>) -> Seq<DatabaseView>
    decreases databases.len(),
{
    if databases.len() == 0 {
        databases
    } else {
        with_database(collected(databases.drop_last()), databases.last())
    }
}

/// The first field with this id anywhere, and the database that has it.
pub open spec fn found_field(databases: Seq<DatabaseView>, id: FieldId) -> Option<
    (DatabaseId, FieldView),
>
    decreases databases.len(),
{
    if databases.len() == 0 {
        None
    } else {
        match found_field(databases.drop_last(), id) {
            Some(found) => Some(found),
            None => match field_of(databases.last().fields, id) {
                Some(field) => Some((databases.last().id, field)),
                None => None,
            },
        }
    }
}

/// The kind that a copied field has in the copy: a reference to the source
/// itself becomes a reference to the copy.
pub open spec fn redirected(
    kind: FieldKindView,
    source: DatabaseId,
    copy: DatabaseId,
) -> FieldKindView {
    match kind {
        FieldKindView::Reference { target_database, .. } => FieldKindView::Reference {
            target_database: if target_database == source {
                copy
            } else {
                target_database
            },
            paired_field: None,
        },
        _ => kind,
    }
}

/// The back-references that copying the first `n` fields has already created:
/// the pairs of the copied fields that refer to the source itself.
pub open spec fn pairs_copied(fields: Seq<FieldView>, source: DatabaseId, n: nat) -> Set<FieldId>
    decreases n,
{
    if n == 0 {
        Set::empty()
    } else {
        let before = pairs_copied(fields, source, (n - 1) as nat);
        let field = fields[n - 1];
        match field.kind.pair() {
            Some(pair) => if !before.contains(field.id) && field.kind.target() == Some(source) {
                before.insert(pair)
            } else {
                before
            },
            None => before,
        }
    }
}

/// The databases after the first `n` of the source's fields have been copied,
/// each under the ids given for it, or why one of them cannot be.
pub open spec fn fields_copied(
    databases: Seq<DatabaseView>,
    fields: Seq<FieldView>,
    source: DatabaseId,
    copy: DatabaseId,
    ids: Seq<(FieldId, FieldId)>,
    n: nat,
) -> core::result::Result<Seq<DatabaseView>, ErrorView>
    decreases n,
{
    if n == 0 {
        Ok(databases)
    } else {
        match fields_copied(databases, fields, source, copy, ids, (n - 1) as nat) {
            Ok(done) => {
                let field = fields[n - 1];
                let kind = redirected(field.kind, source, copy);
                if pairs_copied(fields, source, (n - 1) as nat).contains(field.id) {
                    Ok(done)
                } else {
                    match add_field_error(done, copy, kind) {
                        Some(error) => Err(error),
                        None => Ok(
                            field_added(
                                done,
                                copy,
                                field.name,
                                kind,
                                ids[n - 1].0,
                                ids[n - 1].1,
                            ),
                        ),
                    }
                }
            },
            Err(error) => Err(error),
        }
    }
}

/// A database with no fields.
pub open spec fn empty_database(id: DatabaseId, name: Seq<char>) -> DatabaseView {
    DatabaseView { id, name, fields: Seq::empty() }
}

/// The databases with a copy of one database's fields in a new one, or why it
/// cannot be copied.
pub open spec fn schema_duplicated(
    databases: Seq<DatabaseView>,
    source: DatabaseId,
    name: Seq<char>,
    copy: DatabaseId,
    ids: Seq<(FieldId, FieldId)>,
) -> core::result::Result<Seq<DatabaseView>, ErrorView> {
    if !has_database(databases, source) {
        Err(ErrorView::DatabaseNotFound(source))
    } else {
        let fields = database_of(databases, source).fields;
        fields_copied(
            with_database(databases, empty_database(copy, name)),
            fields,
            source,
            copy,
            ids,
            fields.len(),
        )
    }
}

/// Whether all of the ids are random ones.
pub open spec fn are_random(ids: Seq<(FieldId, FieldId)>) -> bool {
    forall|i: int|
        0 <= i < ids.len() ==> is_version_four((#[trigger] ids[i]).0.0) && is_version_four(
            ids[i].1.0,
        )
}

/// Whether `after` is what duplicating a schema under this id comes to, with
/// some ids for the fields: a pair of them for every field of the source. All of
/// them are random ids.
pub open spec fn is_schema_duplicated(
    databases: Seq<DatabaseView>,
    after: core::result::Result<Seq<DatabaseView>, ErrorView>,
    source: DatabaseId,
    name: Seq<char>,
    copy: DatabaseId,
) -> bool {
    is_version_four(copy.0) && exists|ids: Seq<(FieldId, FieldId)>|
        {
            &&& are_random(ids)
            &&& has_database(databases, source) ==> ids.len() == database_of(
                databases,
                source,
            ).fields.len()
            &&& after == #[trigger] schema_duplicated(databases, source, name, copy, ids)
        }
}

/// Whether one database has come to the others, which are all still found.
pub open spec fn is_database_new(
    before: Seq<DatabaseView>,
    after: Seq<DatabaseView>,
    id: DatabaseId,
) -> bool {
    forall|other: DatabaseId| #[trigger]
        has_database(after, other) == (other == id || has_database(before, other))
}

/// Whether this is why a schema cannot be duplicated, under some id.
pub open spec fn is_duplication_error(
    databases: Seq<DatabaseView>,
    error: ErrorView,
    source: DatabaseId,
    name: Seq<char>,
) -> bool {
    exists|copy: DatabaseId| #[trigger]
        is_schema_duplicated(databases, Err(error), source, name, copy)
}

/// The catalogue of databases. Its methods know nothing of storage.
#[derive(Debug)]
pub struct SchemaRegistry {
    databases: Vec<Database>,
}

impl View for SchemaRegistry {
    type V = Seq<DatabaseView>;

    closed spec fn view(&self) -> Seq<DatabaseView> {
        views(self.databases@)
    }
}

impl Clone for SchemaRegistry {
    fn clone(&self) -> (copy: Self)
        ensures
            copy@ == self@,
    {
        proof {
            use_type_invariant(self);
        }
        let mut copies: Vec<Database> = Vec::new();
        let mut i: usize = 0;
        while i < self.databases.len()
            invariant
                i <= self.databases.len(),
                copies.len() == i,
                forall|j: int| 0 <= j < i ==> copies@[j]@ == self.databases@[j]@,
            decreases self.databases.len() - i,
        {
            copies.push(self.databases[i].clone());
            i += 1;
        }
        assert(views(copies@) =~= views(self.databases@));
        SchemaRegistry { databases: copies }
    }
}

/// Where the database with this id stands in a list.
fn find_database(databases: &Vec<Database>, id: DatabaseId) -> (index: Option<usize>)
    requires
        ids_distinct(views(databases@)),
    ensures
        match index {
            Some(i) => {
                &&& i < databases.len()
                &&& is_database(views(databases@), id, i as int)
                &&& database_index(views(databases@), id) == i
                &&& has_database(views(databases@), id)
                &&& database_of(views(databases@), id) == databases@[i as int]@
            },
            None => !has_database(views(databases@), id),
        },
{
    let mut i: usize = 0;
    while i < databases.len()
        invariant
            i <= databases.len(),
            ids_distinct(views(databases@)),
            forall|j: int| 0 <= j < i ==> (#[trigger] views(databases@)[j]).id != id,
        decreases databases.len() - i,
    {
        assert(views(databases@)[i as int] == databases@[i as int]@);
        if databases[i].id == id {
            proof {
                database_index_is(views(databases@), id, i as int);
            }
            return Some(i);
        }
        i += 1;
    }
    None
}

/// Puts a database into a list, in place of one with the same id or else at
/// the end.
fn put_database(databases: &mut Vec<Database>, database: Database)
    requires
        ids_distinct(views(old(databases)@)),
    ensures
        views(final(databases)@) == with_database(views(old(databases)@), database@),
        ids_distinct(views(final(databases)@)),
{
    proof {
        with_database_distinct(views(databases@), database@);
    }
    let ghost before = databases@;
    match find_database(&*databases, database.id) {
        Some(i) => {
            databases.set(i, database);
            assert(views(databases@) =~= views(before).update(i as int, database@));
        },
        None => {
            databases.push(database);
            assert(views(databases@) =~= views(before).push(database@));
        },
    }
}

/// Appends a field to the database at `i`.
fn push_field(
    databases: &mut Vec<Database>,
    i: usize,
    field_id: FieldId,
    name: String,
    kind: FieldKind,
)
    requires
        ids_distinct(views(old(databases)@)),
        i < old(databases).len(),
    ensures
        final(databases).len() == old(databases).len(),
        ids_distinct(views(final(databases)@)),
        views(final(databases)@) == field_pushed(
            views(old(databases)@),
            old(databases)@[i as int].id,
            field_id,
            name@,
            kind@,
        ),
        forall|j: int| 0 <= j < old(databases).len() ==> (#[trigger] final(databases)@[j]).id == old(
            databases,
        )@[j].id && final(databases)@[j].name == old(databases)@[j].name,
{
    let ghost before = databases@;
    let ghost id = before[i as int].id;
    let ghost old_fields = before[i as int].fields@;
    proof {
        assert(is_database(views(before), id, i as int));
        database_index_is(views(before), id, i as int);
        with_fields_keeps(views(before), id, views(old_fields));
    }
    let ordering: i32 = databases[i].fields.len() as i32;
    let field = FieldDefinition { id: field_id, name, kind, ordering };
    let database = &mut databases[i];
    database.fields.push(field);
    proof {
        views_push(old_fields, field);
        let fields = views(old_fields).push(field@);
        with_fields_keeps(views(before), id, fields);
        assert(databases@[i as int]@.fields == fields);
        assert(views(databases@) =~= with_fields(views(before), id, fields));
    }
}

/// Replaces the fields of the database at `i`.
fn set_fields(databases: &mut Vec<Database>, i: usize, fields: Vec<FieldDefinition>)
    requires
        ids_distinct(views(old(databases)@)),
        i < old(databases).len(),
    ensures
        final(databases).len() == old(databases).len(),
        ids_distinct(views(final(databases)@)),
        views(final(databases)@) == with_fields(
            views(old(databases)@),
            old(databases)@[i as int].id,
            views(fields@),
        ),
{
    let ghost before = databases@;
    let ghost id = before[i as int].id;
    proof {
        assert(is_database(views(before), id, i as int));
        database_index_is(views(before), id, i as int);
        with_fields_keeps(views(before), id, views(fields@));
    }
    let database = &mut databases[i];
    database.fields = fields;
    assert(views(databases@) =~= with_fields(views(before), id, views(fields@)));
}

/// The fields that do not have this id.
fn drop_field(fields: &Vec<FieldDefinition>, id: FieldId) -> (kept: Vec<FieldDefinition>)
    ensures
        views(kept@) == fields_without(views(fields@), id),
{
    let mut kept: Vec<FieldDefinition> = Vec::new();
    let mut i: usize = 0;
    while i < fields.len()
        invariant
            i <= fields.len(),
            views(kept@) == fields_without(views(fields@).take(i as int), id),
        decreases fields.len() - i,
    {
        proof {
            reveal(Seq::filter);
            assert(views(fields@).take(i + 1).drop_last() =~= views(fields@).take(i as int));
        }
        if fields[i].id != id {
            let field = fields[i].clone();
            proof {
                views_push(kept@, field);
            }
            kept.push(field);
        }
        i += 1;
    }
    assert(views(fields@).take(fields.len() as int) =~= views(fields@));
    kept
}

/// The fields that do not point at this database.
fn drop_fields_at(fields: &Vec<FieldDefinition>, target: DatabaseId) -> (kept: Vec<FieldDefinition>)
    ensures
        views(kept@) == fields_not_at(views(fields@), target),
{
    let mut kept: Vec<FieldDefinition> = Vec::new();
    let mut i: usize = 0;
    while i < fields.len()
        invariant
            i <= fields.len(),
            views(kept@) == fields_not_at(views(fields@).take(i as int), target),
        decreases fields.len() - i,
    {
        proof {
            reveal(Seq::filter);
            assert(views(fields@).take(i + 1).drop_last() =~= views(fields@).take(i as int));
        }
        let points_at = match fields[i].kind.target() {
            Some(database) => database == target,
            None => false,
        };
        if !points_at {
            let field = fields[i].clone();
            proof {
                views_push(kept@, field);
            }
            kept.push(field);
        }
        i += 1;
    }
    assert(views(fields@).take(fields.len() as int) =~= views(fields@));
    kept
}

impl SchemaRegistry {
    #[verifier::type_invariant]
    spec fn well_formed(self) -> bool {
        ids_distinct(views(self.databases@))
    }

    /// A registry without databases.
    pub fn new() -> (registry: Self)
        ensures
            registry@ == Seq::<DatabaseView>::empty(),
    {
        let registry = SchemaRegistry { databases: Vec::new() };
        assert(registry@ =~= Seq::<DatabaseView>::empty());
        registry
    }

    /// A registry of databases that already have their ids. Of databases with
    /// the same id the last one stands.
    pub(crate) fn from_databases(databases: Vec<Database>) -> (registry: Self)
        ensures
            registry@ == collected(views(databases@)),
    {
        let mut held: Vec<Database> = Vec::new();
        let mut i: usize = 0;
        assert(views(held@) =~= collected(views(databases@).take(0)));
        while i < databases.len()
            invariant
                i <= databases.len(),
                ids_distinct(views(held@)),
                views(held@) == collected(views(databases@).take(i as int)),
            decreases databases.len() - i,
        {
            assert(views(databases@).take(i + 1).drop_last() =~= views(databases@).take(i as int));
            put_database(&mut held, databases[i].clone());
            i += 1;
        }
        assert(views(databases@).take(databases.len() as int) =~= views(databases@));
        SchemaRegistry { databases: held }
    }

    /// Adds a database without fields under the given id.
    pub fn create_database_with_id(&mut self, id: DatabaseId, name: &str)
        ensures
            final(self)@ == with_database(old(self)@, empty_database(id, name@)),
            is_database_put(old(self)@, final(self)@, empty_database(id, name@)),
    {
        proof {
            use_type_invariant(&*self);
            with_database_puts(self@, empty_database(id, name@));
        }
        let mut databases: Vec<Database> = Vec::new();
        std::mem::swap(&mut databases, &mut self.databases);
        let database = Database { id, name: name.to_string(), fields: Vec::new() };
        assert(views(database.fields@) =~= Seq::<FieldView>::empty());
        put_database(&mut databases, database);
        self.databases = databases;
    }

    /// Adds a database without fields under a fresh id.
    pub fn create_database(&mut self, name: &str) -> (id: DatabaseId)
        ensures
            is_version_four(id.0),
            final(self)@ == with_database(old(self)@, empty_database(id, name@)),
            is_database_put(old(self)@, final(self)@, empty_database(id, name@)),
    {
        let id = DatabaseId::new();
        self.create_database_with_id(id, name);
        id
    }

    /// The database with this id.
    pub fn get_database(&self, id: DatabaseId) -> (database: Result<&Database>)
        ensures
            ids_distinct(self@),
            match database {
                Ok(database) => has_database(self@, id) && database@ == database_of(self@, id),
                Err(error) => !has_database(self@, id) && error@ == ErrorView::DatabaseNotFound(id),
            },
    {
        proof {
            use_type_invariant(self);
        }
        match find_database(&self.databases, id) {
            Some(i) => Ok(&self.databases[i]),
            None => Err(DataLineError::DatabaseNotFound(id)),
        }
    }

    /// Every database, in the order in which they were added.
    pub fn list_databases(&self) -> (list: Vec<&Database>)
        ensures
            ids_distinct(self@),
            list@.len() == self@.len(),
            forall|i: int| 0 <= i < list@.len() ==> (#[trigger] list@[i])@ == self@[i],
    {
        proof {
            use_type_invariant(self);
        }
        let mut list: Vec<&Database> = Vec::new();
        let mut i: usize = 0;
        while i < self.databases.len()
            invariant
                i <= self.databases.len(),
                list@.len() == i,
                forall|j: int| 0 <= j < i ==> (#[trigger] list@[j])@ == self.databases@[j]@,
            decreases self.databases.len() - i,
        {
            list.push(&self.databases[i]);
            i += 1;
        }
        list
    }

    /// The first field with this id in any database, and that database.
    pub fn find_field(&self, field_id: FieldId) -> (found: Option<(DatabaseId, &FieldDefinition)>)
        ensures
            match found {
                Some((id, field)) => found_field(self@, field_id) == Some((id, field@)),
                None => found_field(self@, field_id) is None,
            },
    {
        let mut i: usize = 0;
        let ghost all = self@;
        assert(all.take(0) =~= Seq::<DatabaseView>::empty());
        while i < self.databases.len()
            invariant
                i <= self.databases.len(),
                all == views(self.databases@),
                found_field(all.take(i as int), field_id) is None,
            decreases self.databases.len() - i,
        {
            assert(all.take(i + 1).drop_last() =~= all.take(i as int));
            match self.databases[i].field(field_id) {
                Some(field) => {
                    proof {
                        found_field_stays(all, field_id, i + 1);
                    }
                    return Some((self.databases[i].id, field));
                },
                None => {},
            }
            i += 1;
        }
        assert(all.take(all.len() as int) =~= all);
        None
    }

    /// Adds a field under the given id. Where it is a reference, its
    /// back-reference is added to the target database under `back_id`, which
    /// may be the same database.
    pub fn add_field_with_ids(
        &mut self,
        database_id: DatabaseId,
        name: &str,
        kind: FieldKind,
        field_id: FieldId,
        back_id: FieldId,
    ) -> (result: Result<FieldId>)
        ensures
            match add_field_error(old(self)@, database_id, kind@) {
                Some(error) => result matches Err(e) && e@ == error && final(self)@ == old(self)@,
                None => {
                    &&& result == Ok::<FieldId, DataLineError>(field_id)
                    &&& final(self)@ == field_added(
                        old(self)@,
                        database_id,
                        name@,
                        kind@,
                        field_id,
                        back_id,
                    )
                    &&& is_field_put(
                        old(self)@,
                        final(self)@,
                        database_id,
                        name@,
                        kind@,
                        field_id,
                        back_id,
                    )
                },
            },
    {
        proof {
            use_type_invariant(&*self);
            if add_field_error(self@, database_id, kind@) is None {
                field_added_puts(self@, database_id, name@, kind@, field_id, back_id);
            }
        }
        let index = match find_database(&self.databases, database_id) {
            Some(i) => i,
            None => {
                return Err(DataLineError::DatabaseNotFound(database_id));
            },
        };
        let target = kind.target();
        let target_index: usize = match target {
            Some(target) => match find_database(&self.databases, target) {
                Some(i) => i,
                None => {
                    return Err(DataLineError::DatabaseNotFound(target));
                },
            },
            None => index,
        };
        let forward_kind = match &kind {
            FieldKind::Reference { target_database, .. } => FieldKind::Reference {
                target_database: *target_database,
                paired_field: None,
            },
            other => other.clone(),
        };
        let ghost before = self@;
        let mut databases: Vec<Database> = Vec::new();
        std::mem::swap(&mut databases, &mut self.databases);
        push_field(&mut databases, index, field_id, name.to_string(), forward_kind);
        let ghost forward = views(databases@);
        if target.is_some() {
            let name_back = databases[index].name.clone().concat(" (via ").concat(name).concat(")");
            let back_kind = FieldKind::Reference {
                target_database: database_id,
                paired_field: Some(field_id),
            };
            push_field(&mut databases, target_index, back_id, name_back, back_kind);
            let ghost both = views(databases@);
            let ghost held = databases@;
            proof {
                assert(is_database(both, database_id, index as int));
                database_index_is(both, database_id, index as int);
                assert(both[index as int] == held[index as int]@);
                field_position_found(both[index as int].fields, field_id);
            }
            let database = &mut databases[index];
            let ghost old_fields = views(database.fields@);
            match database.field_mut(field_id) {
                Some(forward_field) => {
                    let ghost k = field_position(old_fields, field_id)->0;
                    let ghost old_field = *forward_field;
                    if let FieldKind::Reference { target_database, .. } = &forward_field.kind {
                        forward_field.kind = FieldKind::Reference {
                            target_database: *target_database,
                            paired_field: Some(back_id),
                        };
                    }
                    proof {
                        assert(forward_field@ == (FieldView {
                            kind: paired_with(old_field@.kind, back_id),
                            ..old_field@
                        }));
                    }
                },
                None => {},
            }
            proof {
                let fields = fields_paired(old_fields, field_id, back_id);
                assert(databases@[index as int]@.fields =~= fields);
                with_fields_keeps(both, database_id, fields);
                assert(views(databases@) =~= with_fields(both, database_id, fields));
            }
        }
        self.databases = databases;
        Ok(field_id)
    }

    /// Adds a field under a fresh id. Where it is a reference, its
    /// back-reference is added to the target database with it.
    pub fn add_field(&mut self, database_id: DatabaseId, name: &str, kind: FieldKind) -> (result:
        Result<FieldId>)
        ensures
            match add_field_error(old(self)@, database_id, kind@) {
                Some(error) => result matches Err(e) && e@ == error && final(self)@ == old(self)@,
                None => {
                    &&& result matches Ok(field_id)
                    &&& is_field_added(
                        old(self)@,
                        final(self)@,
                        database_id,
                        name@,
                        kind@,
                        field_id,
                    )
                    &&& is_field_found(
                        old(self)@,
                        final(self)@,
                        database_id,
                        name@,
                        kind@,
                        field_id,
                    )
                },
            },
    {
        let field_id = FieldId::new();
        let back_id = FieldId::new();
        self.add_field_with_ids(database_id, name, kind, field_id, back_id)
    }

    /// Gives a field another name.
    pub fn rename_field(&mut self, database_id: DatabaseId, field_id: FieldId, name: &str) -> (result:
        Result<()>)
        ensures
            match field_error(old(self)@, database_id, field_id) {
                Some(error) => result matches Err(e) && e@ == error && final(self)@ == old(self)@,
                None => {
                    let own = database_of(old(self)@, database_id);
                    let field = FieldView {
                        name: name@,
                        ..field_in(old(self)@, database_id, field_id)
                    };
                    &&& result is Ok
                    &&& final(self)@ == field_replaced(old(self)@, database_id, field)
                    &&& is_database_put(
                        old(self)@,
                        final(self)@,
                        DatabaseView {
                            fields: own.fields.update(
                                field_position(own.fields, field_id)->0,
                                field,
                            ),
                            ..own
                        },
                    )
                },
            },
    {
        proof {
            use_type_invariant(&*self);
        }
        let index = match find_database(&self.databases, database_id) {
            Some(i) => i,
            None => {
                return Err(DataLineError::DatabaseNotFound(database_id));
            },
        };
        let position = match self.databases[index].position(field_id) {
            Some(position) => position,
            None => {
                return Err(DataLineError::FieldNotFound(field_id));
            },
        };
        let mut databases: Vec<Database> = Vec::new();
        std::mem::swap(&mut databases, &mut self.databases);
        let mut fields = copy_fields(&databases[index].fields);
        let ghost old_fields = views(databases@[index as int].fields@);
        let field = &fields[position];
        let renamed = FieldDefinition {
            id: field.id,
            name: name.to_string(),
            kind: field.kind.clone(),
            ordering: field.ordering,
        };
        proof {
            field_position_found(old_fields, field_id);
            assert(views(fields@)[position as int] == fields@[position as int]@);
        }
        let ghost unchanged = fields@;
        fields.set(position, renamed);
        assert(views(fields@) =~= old_fields.update(position as int, renamed@)) by {
            assert(views(unchanged) == old_fields);
        }
        proof {
            with_fields_puts(old(self)@, database_id, views(fields@));
        }
        set_fields(&mut databases, index, fields);
        self.databases = databases;
        Ok(())
    }

    /// Gives a field another kind; its id, name and ordering stay. References
    /// are refused on either side, since their values are not in a column.
    pub fn retype_field(&mut self, database_id: DatabaseId, field_id: FieldId, new_kind: FieldKind) -> (
    result: Result<()>)
        ensures
            match retype_error(old(self)@, database_id, field_id, new_kind@) {
                Some(error) => result matches Err(e) && e@ == error && final(self)@ == old(self)@,
                None => {
                    let own = database_of(old(self)@, database_id);
                    let field = FieldView {
                        kind: new_kind@,
                        ..field_in(old(self)@, database_id, field_id)
                    };
                    &&& result is Ok
                    &&& final(self)@ == field_replaced(old(self)@, database_id, field)
                    &&& is_database_put(
                        old(self)@,
                        final(self)@,
                        DatabaseView {
                            fields: own.fields.update(
                                field_position(own.fields, field_id)->0,
                                field,
                            ),
                            ..own
                        },
                    )
                },
            },
    {
        proof {
            use_type_invariant(&*self);
        }
        let index = match find_database(&self.databases, database_id) {
            Some(i) => i,
            None => {
                return Err(DataLineError::DatabaseNotFound(database_id));
            },
        };
        let position = match self.databases[index].position(field_id) {
            Some(position) => position,
            None => {
                return Err(DataLineError::FieldNotFound(field_id));
            },
        };
        assert(self@[index as int].fields[position as int]
            == self.databases@[index as int].fields@[position as int]@);
        if self.databases[index].fields[position].kind.is_reference() || new_kind.is_reference() {
            return Err(DataLineError::ReferenceFieldRetypeNotSupported(field_id));
        }
        let mut databases: Vec<Database> = Vec::new();
        std::mem::swap(&mut databases, &mut self.databases);
        let mut fields = copy_fields(&databases[index].fields);
        let ghost old_fields = views(databases@[index as int].fields@);
        let field = &fields[position];
        let retyped = FieldDefinition {
            id: field.id,
            name: field.name.clone(),
            kind: new_kind,
            ordering: field.ordering,
        };
        proof {
            field_position_found(old_fields, field_id);
            assert(views(fields@)[position as int] == fields@[position as int]@);
        }
        let ghost unchanged = fields@;
        fields.set(position, retyped);
        assert(views(fields@) =~= old_fields.update(position as int, retyped@)) by {
            assert(views(unchanged) == old_fields);
        }
        proof {
            with_fields_puts(old(self)@, database_id, views(fields@));
        }
        set_fields(&mut databases, index, fields);
        self.databases = databases;
        Ok(())
    }

    /// Removes a field, and its pair with it where it is a reference.
    pub fn remove_field(&mut self, database_id: DatabaseId, field_id: FieldId) -> (result: Result<()>)
        ensures
            match field_error(old(self)@, database_id, field_id) {
                Some(error) => result matches Err(e) && e@ == error && final(self)@ == old(self)@,
                None => {
                    &&& result is Ok
                    &&& final(self)@ == field_removed(old(self)@, database_id, field_id)
                    &&& is_field_gone(old(self)@, final(self)@, database_id, field_id)
                },
            },
    {
        proof {
            use_type_invariant(&*self);
        }
        let index = match find_database(&self.databases, database_id) {
            Some(i) => i,
            None => {
                return Err(DataLineError::DatabaseNotFound(database_id));
            },
        };
        let position = match self.databases[index].position(field_id) {
            Some(position) => position,
            None => {
                return Err(DataLineError::FieldNotFound(field_id));
            },
        };
        assert(self@[index as int].fields[position as int]
            == self.databases@[index as int].fields@[position as int]@);
        let target = self.databases[index].fields[position].kind.target();
        let pair = self.databases[index].fields[position].kind.pair();
        proof {
            field_removed_goes(self@, database_id, field_id);
        }
        let mut databases: Vec<Database> = Vec::new();
        std::mem::swap(&mut databases, &mut self.databases);
        let kept = drop_field(&databases[index].fields, field_id);
        set_fields(&mut databases, index, kept);
        match (target, pair) {
            (Some(target), Some(pair)) => match find_database(&databases, target) {
                Some(other) => {
                    let kept = drop_field(&databases[other].fields, pair);
                    set_fields(&mut databases, other, kept);
                },
                None => {},
            },
            _ => {},
        }
        self.databases = databases;
        Ok(())
    }

    /// Removes a database, and every field of another database that points at
    /// it.
    pub fn remove_database(&mut self, database_id: DatabaseId) -> (result: Result<()>)
        ensures
            if has_database(old(self)@, database_id) {
                &&& result is Ok
                &&& final(self)@ == database_removed(old(self)@, database_id)
                &&& is_database_gone(old(self)@, final(self)@, database_id)
            } else {
                &&& result matches Err(e)
                &&& e@ == ErrorView::DatabaseNotFound(database_id)
                &&& final(self)@ == old(self)@
            },
    {
        proof {
            use_type_invariant(&*self);
        }
        let index = match find_database(&self.databases, database_id) {
            Some(i) => i,
            None => {
                return Err(DataLineError::DatabaseNotFound(database_id));
            },
        };
        proof {
            database_removed_goes(self@, database_id);
        }
        let ghost before = self@;
        let mut databases: Vec<Database> = Vec::new();
        std::mem::swap(&mut databases, &mut self.databases);
        databases.remove(index);
        let ghost rest = views(databases@);
        assert(rest =~= before.remove(index as int));
        assert(ids_distinct(rest)) by {
            assert forall|i: int, j: int| 0 <= i < j < rest.len() implies (#[trigger] rest[i]).id
                != (#[trigger] rest[j]).id by {
                let i0 = if i < index {
                    i
                } else {
                    i + 1
                };
                let j0 = if j < index {
                    j
                } else {
                    j + 1
                };
                assert(before[i0].id != before[j0].id);
            }
        }
        let mut i: usize = 0;
        while i < databases.len()
            invariant
                i <= databases.len(),
                databases.len() == rest.len(),
                ids_distinct(rest),
                ids_distinct(views(databases@)),
                forall|j: int|
                    0 <= j < i ==> (#[trigger] views(databases@)[j]) == database_not_at(
                        rest[j],
                        database_id,
                    ),
                forall|j: int|
                    i <= j < rest.len() ==> (#[trigger] views(databases@)[j]) == rest[j],
            decreases databases.len() - i,
        {
            let ghost held = views(databases@);
            assert(held[i as int] == databases@[i as int]@);
            let kept = drop_fields_at(&databases[i].fields, database_id);
            proof {
                let id = databases@[i as int].id;
                assert(is_database(held, id, i as int));
                database_index_is(held, id, i as int);
            }
            set_fields(&mut databases, i, kept);
            i += 1;
        }
        assert(views(databases@) =~= database_removed(before, database_id));
        self.databases = databases;
        Ok(())
    }

    /// Copies the fields of a database into a new one under the given ids: a
    /// pair of ids for every field of the source, for the copy and for its
    /// back-reference. Where the copy fails, nothing has changed.
    pub fn duplicate_database_schema_with_ids(
        &mut self,
        database_id: DatabaseId,
        new_name: &str,
        new_id: DatabaseId,
        ids: &Vec<(FieldId, FieldId)>,
    ) -> (result: Result<DatabaseId>)
        requires
            has_database(old(self)@, database_id) ==> ids.len() >= database_of(
                old(self)@,
                database_id,
            ).fields.len(),
        ensures
            match schema_duplicated(old(self)@, database_id, new_name@, new_id, ids@) {
                Err(error) => result matches Err(e) && e@ == error && final(self)@ == old(self)@,
                Ok(databases) => {
                    &&& result == Ok::<DatabaseId, DataLineError>(new_id)
                    &&& final(self)@ == databases
                    &&& is_database_new(old(self)@, final(self)@, new_id)
                },
            },
    {
        let fields = match self.get_database(database_id) {
            Ok(database) => copy_fields(&database.fields),
            Err(error) => {
                return Err(error);
            },
        };
        let ghost source = views(fields@);
        let mut next = self.clone();
        next.create_database_with_id(new_id, new_name);
        let ghost start = next@;
        let mut already_paired: Vec<FieldId> = Vec::new();
        let mut i: usize = 0;
        while i < fields.len()
            invariant
                i <= fields.len(),
                fields.len() <= ids.len(),
                source == views(fields@),
                source.len() == fields.len(),
                old(self)@ == self@,
                is_database_new(self@, next@, new_id),
                schema_duplicated(self@, database_id, new_name@, new_id, ids@) == fields_copied(
                    start,
                    source,
                    database_id,
                    new_id,
                    ids@,
                    source.len(),
                ),
                fields_copied(start, source, database_id, new_id, ids@, i as nat) == Ok::<
                    Seq<DatabaseView>,
                    ErrorView,
                >(next@),
                forall|id: FieldId| #[trigger]
                    already_paired@.contains(id) == pairs_copied(
                        source,
                        database_id,
                        i as nat,
                    ).contains(id),
            decreases fields.len() - i,
        {
            let field = &fields[i];
            assert(source[i as int] == field@);
            let skip = contains_field(&already_paired, field.id);
            if !skip {
                let kind = match &field.kind {
                    FieldKind::Reference { target_database, .. } => FieldKind::Reference {
                        target_database: if *target_database == database_id {
                            new_id
                        } else {
                            *target_database
                        },
                        paired_field: None,
                    },
                    other => other.clone(),
                };
                assert(kind@ == redirected(field@.kind, database_id, new_id));
                match next.add_field_with_ids(
                    new_id,
                    field.name.as_str(),
                    kind,
                    ids[i].0,
                    ids[i].1,
                ) {
                    Ok(_) => {},
                    Err(error) => {
                        proof {
                            copy_failure_stays(
                                start,
                                source,
                                database_id,
                                new_id,
                                ids@,
                                (i + 1) as nat,
                                source.len(),
                            );
                        }
                        return Err(error);
                    },
                }
                let ghost paired = already_paired@;
                match (field.kind.target(), field.kind.pair()) {
                    (Some(target), Some(pair)) => {
                        if target == database_id {
                            already_paired.push(pair);
                            assert forall|id: FieldId| #[trigger]
                                already_paired@.contains(id) == (paired.contains(id) || id
                                    == pair) by {
                                if paired.contains(id) {
                                    let k = choose|k: int|
                                        0 <= k < paired.len() && paired[k] == id;
                                    assert(already_paired@[k] == id);
                                }
                                if id == pair {
                                    assert(already_paired@[paired.len() as int] == id);
                                }
                            }
                        }
                    },
                    _ => {},
                }
            }
            i += 1;
        }
        *self = next;
        Ok(new_id)
    }

    /// Copies the fields of a database into a new, independent one under fresh
    /// ids. A reference of the source to itself becomes a reference of the copy
    /// to itself. Where the copy fails, nothing has changed.
    pub fn duplicate_database_schema(&mut self, database_id: DatabaseId, new_name: &str) -> (result:
        Result<DatabaseId>)
        ensures
            match result {
                Ok(new_id) => {
                    &&& is_schema_duplicated(
                        old(self)@,
                        Ok(final(self)@),
                        database_id,
                        new_name@,
                        new_id,
                    )
                    &&& is_database_new(old(self)@, final(self)@, new_id)
                },
                Err(error) => final(self)@ == old(self)@ && is_duplication_error(
                    old(self)@,
                    error@,
                    database_id,
                    new_name@,
                ),
            },
    {
        let count: usize = match self.get_database(database_id) {
            Ok(database) => database.fields.len(),
            Err(_) => 0,
        };
        let mut ids: Vec<(FieldId, FieldId)> = Vec::new();
        let mut i: usize = 0;
        while i < count
            invariant
                i <= count,
                ids.len() == i,
                are_random(ids@),
            decreases count - i,
        {
            ids.push((FieldId::new(), FieldId::new()));
            i += 1;
        }
        let new_id = DatabaseId::new();
        let ghost before = self@;
        let result = self.duplicate_database_schema_with_ids(database_id, new_name, new_id, &ids);
        proof {
            let after = schema_duplicated(before, database_id, new_name@, new_id, ids@);
            assert(is_schema_duplicated(before, after, database_id, new_name@, new_id));
        }
        result
    }
}

/// Why a field cannot be given another kind.
pub open spec fn retype_error(
    databases: Seq<DatabaseView>,
    database_id: DatabaseId,
    field_id: FieldId,
    new_kind: FieldKindView,
) -> Option<ErrorView> {
    match field_error(databases, database_id, field_id) {
        Some(error) => Some(error),
        None => if field_in(databases, database_id, field_id).kind is Reference
            || new_kind is Reference {
            Some(ErrorView::ReferenceFieldRetypeNotSupported(field_id))
        } else {
            None
        },
    }
}

/// Whether the field is in the list.
fn contains_field(list: &Vec<FieldId>, id: FieldId) -> (found: bool)
    ensures
        found == list@.contains(id),
{
    let mut i: usize = 0;
    while i < list.len()
        invariant
            i <= list.len(),
            forall|j: int| 0 <= j < i ==> list@[j] != id,
        decreases list.len() - i,
    {
        if list[i] == id {
            return true;
        }
        i += 1;
    }
    false
}

/// A copy that has failed stays failed.
proof fn copy_failure_stays(
    databases: Seq<DatabaseView>,
    fields: Seq<FieldView>,
    source: DatabaseId,
    copy: DatabaseId,
    ids: Seq<(FieldId, FieldId)>,
    n: nat,
    m: nat,
)
    requires
        n <= m,
        fields_copied(databases, fields, source, copy, ids, n) is Err,
    ensures
        fields_copied(databases, fields, source, copy, ids, m) == fields_copied(
            databases,
            fields,
            source,
            copy,
            ids,
            n,
        ),
    decreases m,
{
    if n < m {
        copy_failure_stays(databases, fields, source, copy, ids, n, (m - 1) as nat);
    }
}

/// What is found among the first databases is found among all of them.
proof fn found_field_stays(databases: Seq<DatabaseView>, id: FieldId, n: int)
    requires
        0 <= n <= databases.len(),
        found_field(databases.take(n), id) is Some,
    ensures
        found_field(databases, id) == found_field(databases.take(n), id),
    decreases databases.len() - n,
{
    if n < databases.len() {
        assert(databases.take(n + 1).drop_last() =~= databases.take(n));
        found_field_stays(databases, id, n + 1);
    } else {
        assert(databases.take(n) =~= databases);
    }
}

} // verus!
