//! The registry and the tables never disagree.

use vstd::prelude::*;

use crate::diff::diff_steps;
use crate::ids::{DatabaseId, FieldId};
use crate::persist_laws::{
    add_field_persists, create_database_persists, duplicate_database_schema_persists,
    remove_database_persists, remove_field_persists, rename_field_persists,
};
use crate::registry::{
    add_field_error, database_of, database_removed, empty_database, field_added, field_error,
    field_in, field_removed, field_replaced, has_database, schema_duplicated, with_database,
};
use crate::registry_laws::{
    add_field_keeps_consistent, are_fresh_ids, create_database_keeps_consistent,
    duplicate_database_schema_copies, is_fresh_field, remove_database_keeps_consistent,
    remove_field_keeps_consistent, rename_field_keeps_consistent,
};
use crate::schema::{DatabaseView, FieldKindView, FieldView};
use crate::store_laws::{persisting_keeps_sound, sound};
use crate::tables::{all_applied, Tables};

verus! {

/// The tables after a change of the registry has been persisted.
pub open spec fn persisted(
    tables: Tables,
    before: Seq<DatabaseView>,
    after: Seq<DatabaseView>,
) -> Tables {
    all_applied(tables, diff_steps(before, after))
}

/// After a database was added, the tables are those of the new registry.
pub proof fn create_database_keeps_agreement(
    tables: Tables,
    databases: Seq<DatabaseView>,
    id: DatabaseId,
    name: Seq<char>,
)
    requires
        sound(tables, databases),
        !has_database(databases, id),
    ensures
        ({
            let after = with_database(databases, empty_database(id, name));
            sound(persisted(tables, databases, after), after)
        }),
{
    create_database_keeps_consistent(databases, id, name);
    create_database_persists(databases, id, name);
    persisting_keeps_sound(tables, databases, with_database(databases, empty_database(id, name)));
}

/// After a field was added, with its back-reference where it is a reference,
/// the tables are those of the new registry.
pub proof fn add_field_keeps_agreement(
    tables: Tables,
    databases: Seq<DatabaseView>,
    database_id: DatabaseId,
    name: Seq<char>,
    kind: FieldKindView,
    field_id: FieldId,
    back_id: FieldId,
)
    requires
        sound(tables, databases),
        add_field_error(databases, database_id, kind) is None,
        is_fresh_field(databases, field_id),
        is_fresh_field(databases, back_id),
        field_id != back_id,
    ensures
        ({
            let after = field_added(databases, database_id, name, kind, field_id, back_id);
            sound(persisted(tables, databases, after), after)
        }),
{
    add_field_keeps_consistent(databases, database_id, name, kind, field_id, back_id);
    add_field_persists(databases, database_id, name, kind, field_id, back_id);
    persisting_keeps_sound(
        tables,
        databases,
        field_added(databases, database_id, name, kind, field_id, back_id),
    );
}

/// After a schema was duplicated, which never fails on a sound store, the
/// tables are those of the new registry.
pub proof fn duplicate_database_schema_keeps_agreement(
    tables: Tables,
    databases: Seq<DatabaseView>,
    source: DatabaseId,
    name: Seq<char>,
    copy: DatabaseId,
    ids: Seq<(FieldId, FieldId)>,
)
    requires
        sound(tables, databases),
        has_database(databases, source),
        !has_database(databases, copy),
        ids.len() == database_of(databases, source).fields.len(),
        are_fresh_ids(databases, ids),
    ensures
        schema_duplicated(databases, source, name, copy, ids) matches Ok(after) && sound(
            persisted(tables, databases, after),
            after,
        ),
{
    duplicate_database_schema_copies(databases, source, name, copy, ids);
    duplicate_database_schema_persists(databases, source, name, copy, ids);
    persisting_keeps_sound(
        tables,
        databases,
        schema_duplicated(databases, source, name, copy, ids)->Ok_0,
    );
}

/// After a field was renamed, the tables are those of the new registry.
pub proof fn rename_field_keeps_agreement(
    tables: Tables,
    databases: Seq<DatabaseView>,
    database_id: DatabaseId,
    field_id: FieldId,
    name: Seq<char>,
)
    requires
        sound(tables, databases),
        field_error(databases, database_id, field_id) is None,
    ensures
        ({
            let field = FieldView { name, ..field_in(databases, database_id, field_id) };
            let after = field_replaced(databases, database_id, field);
            sound(persisted(tables, databases, after), after)
        }),
{
    let field = FieldView { name, ..field_in(databases, database_id, field_id) };
    rename_field_keeps_consistent(databases, database_id, field_id, name);
    rename_field_persists(databases, database_id, field_id, name);
    persisting_keeps_sound(tables, databases, field_replaced(databases, database_id, field));
}

/// After a field was removed, with its pair where it is a reference, the tables
/// are those of the new registry.
pub proof fn remove_field_keeps_agreement(
    tables: Tables,
    databases: Seq<DatabaseView>,
    database_id: DatabaseId,
    field_id: FieldId,
)
    requires
        sound(tables, databases),
        field_error(databases, database_id, field_id) is None,
    ensures
        ({
            let after = field_removed(databases, database_id, field_id);
            sound(persisted(tables, databases, after), after)
        }),
{
    remove_field_keeps_consistent(databases, database_id, field_id);
    remove_field_persists(databases, database_id, field_id);
    persisting_keeps_sound(tables, databases, field_removed(databases, database_id, field_id));
}

/// After a database was deleted, with its records and every field that pointed
/// at it, the tables are those of the new registry.
pub proof fn delete_database_keeps_agreement(
    tables: Tables,
    databases: Seq<DatabaseView>,
    id: DatabaseId,
)
    requires
        sound(tables, databases),
        has_database(databases, id),
    ensures
        ({
            let after = database_removed(databases, id);
            sound(persisted(tables, databases, after), after)
        }),
{
    remove_database_keeps_consistent(databases, id);
    remove_database_persists(databases, id);
    persisting_keeps_sound(tables, databases, database_removed(databases, id));
}

} // verus!
