//! What is found in a registry, and what a change of it undoes or leaves out.

use vstd::prelude::*;

use crate::error::ErrorView;
use crate::ids::{DatabaseId, FieldId};
use crate::registry::{
    add_field_error, back_name, database_index, database_index_is, database_of, database_removed,
    empty_database, field_added, field_added_puts, field_error, field_for, field_in, field_pushed,
    field_removed, fields_copied, fields_paired, found_field, has_database, ids_distinct,
    is_database, is_duplication_error, is_schema_duplicated, paired_with, pairs_copied, redirected,
    schema_duplicated, unpaired, with_database, with_database_distinct, with_database_puts,
    with_fields_keeps,
};
use crate::registry_laws::{
    add_field_keeps_consistent, consistent, database_removed_shape, field_added_shape, field_at,
    filter_keeps_all, field_removed_shape, goes_with, is_field, is_fresh_field,
};
use crate::schema::{
    field_of, field_position, field_position_found, field_position_is, DatabaseView, FieldKindView,
    FieldView,
};

verus! {

/// A test that only the last element fails takes just that one away.
proof fn filter_drops_last<A>(items: Seq<A>, last: A, p: spec_fn(A) -> bool)
    requires
        forall|i: int| 0 <= i < items.len() ==> p(#[trigger] items[i]),
        !p(last),
    ensures
        items.push(last).filter(p) == items,
{
    reveal(Seq::filter);
    filter_keeps_all(items, p);
    assert(items.push(last).drop_last() =~= items);
}

/// A test that only the last two elements fail takes just those away.
proof fn filter_drops_last_two<A>(items: Seq<A>, one: A, other: A, p: spec_fn(A) -> bool)
    requires
        forall|i: int| 0 <= i < items.len() ==> p(#[trigger] items[i]),
        !p(one),
        !p(other),
    ensures
        items.push(one).push(other).filter(p) == items,
{
    reveal(Seq::filter);
    filter_drops_last(items, one, p);
    assert(items.push(one).push(other).drop_last() =~= items.push(one));
}

/// Where the two fields stand that were just added: at the ends of their
/// databases.
proof fn added_fields_stand(
    databases: Seq<DatabaseView>,
    database_id: DatabaseId,
    name: Seq<char>,
    kind: FieldKindView,
    field_id: FieldId,
    back_id: FieldId,
)
    requires
        consistent(databases),
        add_field_error(databases, database_id, kind) is None,
        is_fresh_field(databases, field_id),
        is_fresh_field(databases, back_id),
        field_id != back_id,
    ensures
        ({
            let after = field_added(databases, database_id, name, kind, field_id, back_id);
            &&& field_error(after, database_id, field_id) is None
            &&& field_in(after, database_id, field_id).id == field_id
            &&& field_in(after, database_id, field_id).name == name
            &&& field_in(after, database_id, field_id).kind == paired_with(kind, back_id)
            &&& kind.target() matches Some(target) ==> {
                &&& field_error(after, target, back_id) is None
                &&& field_in(after, target, back_id).kind == FieldKindView::Reference {
                    target_database: database_id,
                    paired_field: Some(field_id),
                }
            }
        }),
{
    let after = field_added(databases, database_id, name, kind, field_id, back_id);
    let (s, t) = field_added_shape(databases, database_id, name, kind, field_id, back_id);
    assert(is_database(after, database_id, s));
    database_index_is(after, database_id, s);
    let old_s = databases[s].fields;
    let old_t = databases[t].fields;
    assert forall|j: int| 0 <= j < old_s.len() implies (#[trigger] after[s].fields[j]).id
        != field_id && after[s].fields[j].id != back_id by {
        assert(is_field(databases, s, j));
        assert(after[s].fields[j] == field_at(databases, s, j));
    }
    field_position_is(after[s].fields, field_id, old_s.len() as int);
    if let Some(target) = kind.target() {
        assert(is_database(after, target, t));
        database_index_is(after, target, t);
        assert forall|j: int| 0 <= j < old_t.len() implies (#[trigger] after[t].fields[j]).id
            != back_id by {
            assert(is_field(databases, t, j));
            assert(after[t].fields[j] == field_at(databases, t, j));
        }
        let back_at = if s == t {
            old_s.len() as int + 1
        } else {
            old_t.len() as int
        };
        field_position_is(after[t].fields, back_id, back_at);
    }
}

/// Removing either of the two fields that were just added takes both away, and
/// nothing else.
proof fn added_fields_go(
    databases: Seq<DatabaseView>,
    database_id: DatabaseId,
    name: Seq<char>,
    kind: FieldKindView,
    field_id: FieldId,
    back_id: FieldId,
    owner: DatabaseId,
    removed: FieldId,
)
    requires
        consistent(databases),
        add_field_error(databases, database_id, kind) is None,
        is_fresh_field(databases, field_id),
        is_fresh_field(databases, back_id),
        field_id != back_id,
        ({
            let after = field_added(databases, database_id, name, kind, field_id, back_id);
            let pair = field_in(after, owner, removed).kind.pair();
            &&& field_error(after, owner, removed) is None
            &&& kind is Reference ==> (removed == field_id && pair == Some(back_id)) || (removed
                == back_id && pair == Some(field_id))
            &&& kind !is Reference ==> removed == field_id && pair is None
        }),
    ensures
        field_removed(
            field_added(databases, database_id, name, kind, field_id, back_id),
            owner,
            removed,
        ) == databases,
{
    let after = field_added(databases, database_id, name, kind, field_id, back_id);
    let (s, t) = field_added_shape(databases, database_id, name, kind, field_id, back_id);
    add_field_keeps_consistent(databases, database_id, name, kind, field_id, back_id);
    field_removed_shape(after, owner, removed);
    let end = field_removed(after, owner, removed);
    let keep = |field: FieldView| !goes_with(after, owner, removed, field.id);
    assert forall|i: int| 0 <= i < databases.len() implies end[i] == #[trigger] databases[i] by {
        let old = databases[i].fields;
        assert forall|k: int| 0 <= k < old.len() implies keep(#[trigger] old[k]) by {
            assert(is_field(databases, i, k));
            assert(field_at(databases, i, k).id != field_id);
            assert(field_at(databases, i, k).id != back_id);
        }
        let new = after[i].fields;
        let n = old.len() as int;
        assert(end[i] == (DatabaseView { fields: new.filter(keep), ..after[i] }));
        if i == s && i == t && kind is Reference {
            filter_drops_last_two(old, new[n], new[n + 1], keep);
            assert(new =~= old.push(new[n]).push(new[n + 1]));
        } else if i == s || i == t {
            filter_drops_last(old, new[n], keep);
            assert(new =~= old.push(new[n]));
        } else {
            filter_keeps_all(old, keep);
        }
    }
    assert(end =~= databases);
}

/// Removing a field that was just added gives the registry back as it was.
/// Where the field is a reference, so does removing its back-reference instead.
pub proof fn removing_undoes_adding(
    databases: Seq<DatabaseView>,
    database_id: DatabaseId,
    name: Seq<char>,
    kind: FieldKindView,
    field_id: FieldId,
    back_id: FieldId,
)
    requires
        consistent(databases),
        add_field_error(databases, database_id, kind) is None,
        is_fresh_field(databases, field_id),
        is_fresh_field(databases, back_id),
        field_id != back_id,
    ensures
        ({
            let after = field_added(databases, database_id, name, kind, field_id, back_id);
            &&& field_error(after, database_id, field_id) is None
            &&& field_removed(after, database_id, field_id) == databases
            &&& kind.target() matches Some(target) ==> {
                &&& field_error(after, target, back_id) is None
                &&& field_removed(after, target, back_id) == databases
            }
        }),
{
    added_fields_stand(databases, database_id, name, kind, field_id, back_id);
    added_fields_go(
        databases,
        database_id,
        name,
        kind,
        field_id,
        back_id,
        database_id,
        field_id,
    );
    if let Some(target) = kind.target() {
        added_fields_go(databases, database_id, name, kind, field_id, back_id, target, back_id);
    }
}

/// The pair that whoever adds a reference field names is not looked at: the
/// outcome is the same as without one, and the field is paired with its new
/// back-reference.
pub proof fn supplied_pair_is_ignored(
    databases: Seq<DatabaseView>,
    database_id: DatabaseId,
    name: Seq<char>,
    kind: FieldKindView,
    field_id: FieldId,
    back_id: FieldId,
)
    requires
        kind is Reference,
    ensures
        add_field_error(databases, database_id, kind) == add_field_error(
            databases,
            database_id,
            unpaired(kind),
        ),
        field_added(databases, database_id, name, kind, field_id, back_id) == field_added(
            databases,
            database_id,
            name,
            unpaired(kind),
            field_id,
            back_id,
        ),
        consistent(databases) && add_field_error(databases, database_id, kind) is None
            && is_fresh_field(databases, field_id) && is_fresh_field(databases, back_id) && field_id
            != back_id ==> field_in(
            field_added(databases, database_id, name, kind, field_id, back_id),
            database_id,
            field_id,
        ).kind.pair() == Some(back_id),
{
    assert(unpaired(unpaired(kind)) == unpaired(kind));
    if consistent(databases) && add_field_error(databases, database_id, kind) is None
        && is_fresh_field(databases, field_id) && is_fresh_field(databases, back_id) && field_id
        != back_id {
        added_fields_stand(databases, database_id, name, kind, field_id, back_id);
    }
}

/// What is found for a field's id is a field that a database has under it.
proof fn found_is_there(databases: Seq<DatabaseView>, id: FieldId)
    ensures
        match found_field(databases, id) {
            Some((owner, field)) => exists|i: int|
                0 <= i < databases.len() && (#[trigger] databases[i]).id == owner && field_of(
                    databases[i].fields,
                    id,
                ) == Some(field),
            None => forall|i: int|
                0 <= i < databases.len() ==> field_of((#[trigger] databases[i]).fields, id) is None,
        },
    decreases databases.len(),
{
    if databases.len() > 0 {
        let rest = databases.drop_last();
        let last = databases.len() - 1;
        found_is_there(rest, id);
        match found_field(rest, id) {
            Some((owner, field)) => {
                let i = choose|i: int|
                    0 <= i < rest.len() && (#[trigger] rest[i]).id == owner && field_of(
                        rest[i].fields,
                        id,
                    ) == Some(field);
                assert(databases[i] == rest[i]);
            },
            None => {
                assert forall|i: int| 0 <= i < last implies field_of(
                    (#[trigger] databases[i]).fields,
                    id,
                ) is None by {
                    assert(rest[i] == databases[i]);
                }
                assert(databases[last] == databases.last());
            },
        }
    }
}

/// A field is found just where a database has it: what is found for an id is
/// the field that the database has under it, and nothing is found only where no
/// database has it.
pub proof fn field_is_found_where_it_is(
    databases: Seq<DatabaseView>,
    id: FieldId,
    owner: DatabaseId,
    field: FieldView,
)
    requires
        consistent(databases),
    ensures
        found_field(databases, id) == Some((owner, field)) <==> has_database(databases, owner)
            && field_of(database_of(databases, owner).fields, id) == Some(field),
{
    found_is_there(databases, id);
    if has_database(databases, owner) && field_of(database_of(databases, owner).fields, id) == Some(
        field,
    ) {
        let j = database_index(databases, owner);
        assert(is_database(databases, owner, j));
        field_position_found(databases[j].fields, id);
        let m = field_position(databases[j].fields, id)->0;
        assert(is_field(databases, j, m));
        assert(field_of(databases[j].fields, id) is Some);
        let (found, _) = found_field(databases, id)->0;
        let i = choose|i: int|
            0 <= i < databases.len() && (#[trigger] databases[i]).id == found && field_of(
                databases[i].fields,
                id,
            ) is Some;
        field_position_found(databases[i].fields, id);
        let k = field_position(databases[i].fields, id)->0;
        assert(is_field(databases, i, k));
        assert(field_at(databases, i, k).id == field_at(databases, j, m).id);
    }
    if found_field(databases, id) == Some((owner, field)) {
        let i = choose|i: int|
            0 <= i < databases.len() && (#[trigger] databases[i]).id == owner && field_of(
                databases[i].fields,
                id,
            ) == Some(field);
        assert(is_database(databases, owner, i));
        database_index_is(databases, owner, i);
    }
}

/// A field that was just added is found, under its name and in its database.
pub proof fn added_field_is_found(
    databases: Seq<DatabaseView>,
    database_id: DatabaseId,
    name: Seq<char>,
    kind: FieldKindView,
    field_id: FieldId,
    back_id: FieldId,
)
    requires
        consistent(databases),
        add_field_error(databases, database_id, kind) is None,
        is_fresh_field(databases, field_id),
        is_fresh_field(databases, back_id),
        field_id != back_id,
    ensures
        found_field(
            field_added(databases, database_id, name, kind, field_id, back_id),
            field_id,
        ) matches Some((owner, field)) && owner == database_id && field.id == field_id && field.name
            == name && field.kind == paired_with(kind, back_id),
{
    let after = field_added(databases, database_id, name, kind, field_id, back_id);
    add_field_keeps_consistent(databases, database_id, name, kind, field_id, back_id);
    added_fields_stand(databases, database_id, name, kind, field_id, back_id);
    field_is_found_where_it_is(
        after,
        field_id,
        database_id,
        field_in(after, database_id, field_id),
    );
}

/// The list of databases grows by one with every database that is created under
/// an id of its own, and shrinks by one with every database that is removed.
pub proof fn list_keeps_count(databases: Seq<DatabaseView>, id: DatabaseId, name: Seq<char>)
    requires
        ids_distinct(databases),
    ensures
        !has_database(databases, id) ==> with_database(databases, empty_database(id, name)).len()
            == databases.len() + 1,
        has_database(databases, id) ==> database_removed(databases, id).len() == databases.len()
            - 1,
{
    if has_database(databases, id) {
        database_removed_shape(databases, id);
    }
}

/// Adding a field keeps the ids of databases distinct, whatever ids the field
/// is given.
proof fn adding_keeps_ids(
    databases: Seq<DatabaseView>,
    database_id: DatabaseId,
    name: Seq<char>,
    kind: FieldKindView,
    field_id: FieldId,
    back_id: FieldId,
)
    requires
        ids_distinct(databases),
        add_field_error(databases, database_id, kind) is None,
    ensures
        ids_distinct(field_added(databases, database_id, name, kind, field_id, back_id)),
{
    let own = database_of(databases, database_id).fields;
    let plain = field_for(field_id, name, unpaired(kind), own.len());
    let forward = field_pushed(databases, database_id, field_id, name, unpaired(kind));
    with_fields_keeps(databases, database_id, own.push(plain));
    if let Some(target) = kind.target() {
        assert(has_database(forward, target) == has_database(databases, target));
        let label = back_name(database_of(databases, database_id).name, name);
        let back_kind = FieldKindView::Reference {
            target_database: database_id,
            paired_field: Some(field_id),
        };
        let their = database_of(forward, target).fields;
        let back = field_for(back_id, label, back_kind, their.len());
        let both = field_pushed(forward, target, back_id, label, back_kind);
        with_fields_keeps(forward, target, their.push(back));
        assert(has_database(both, database_id) == has_database(forward, database_id));
        assert(has_database(forward, database_id) == has_database(databases, database_id));
        with_fields_keeps(
            both,
            database_id,
            fields_paired(database_of(both, database_id).fields, field_id, back_id),
        );
    }
}

/// Whether the `k`th field points at a database that is not there, and this is
/// how that is said.
pub open spec fn names_absent_target(
    databases: Seq<DatabaseView>,
    fields: Seq<FieldView>,
    k: int,
    error: ErrorView,
) -> bool {
    &&& 0 <= k < fields.len()
    &&& fields[k].kind.target() matches Some(target) && !has_database(databases, target) && error
        == ErrorView::DatabaseNotFound(target)
}

/// Copying fields changes which databases there are in nothing; where it fails,
/// it is on a field that points at a database that is not there, and it does
/// not get past such a field.
proof fn copying_stops_at_absent_targets(
    databases: Seq<DatabaseView>,
    start: Seq<DatabaseView>,
    fields: Seq<FieldView>,
    source: DatabaseId,
    copy: DatabaseId,
    ids: Seq<(FieldId, FieldId)>,
    n: nat,
)
    requires
        n <= fields.len(),
        ids_distinct(start),
        has_database(databases, source),
        forall|other: DatabaseId| #[trigger]
            has_database(start, other) == (other == copy || has_database(databases, other)),
    ensures
        match fields_copied(start, fields, source, copy, ids, n) {
            Ok(done) => {
                &&& ids_distinct(done)
                &&& forall|other: DatabaseId| #[trigger]
                    has_database(done, other) == has_database(start, other)
                &&& forall|k: int|
                    0 <= k < n && !pairs_copied(fields, source, k as nat).contains(
                        (#[trigger] fields[k]).id,
                    ) ==> (fields[k].kind.target() matches Some(target) ==> has_database(
                        start,
                        target,
                    ))
            },
            Err(error) => exists|k: int| #[trigger]
                names_absent_target(databases, fields, k, error),
        },
    decreases n,
{
    if n > 0 {
        let before = (n - 1) as nat;
        copying_stops_at_absent_targets(databases, start, fields, source, copy, ids, before);
        if let Ok(done) = fields_copied(start, fields, source, copy, ids, before) {
            let field = fields[n - 1];
            let kind = redirected(field.kind, source, copy);
            assert(has_database(start, copy) && has_database(start, source));
            assert(has_database(done, copy) == has_database(start, copy));
            if !pairs_copied(fields, source, before).contains(field.id) {
                if let Some(target) = kind.target() {
                    assert(has_database(done, target) == has_database(start, target));
                }
                match add_field_error(done, copy, kind) {
                    Some(error) => {
                        assert(names_absent_target(databases, fields, n - 1, error));
                    },
                    None => {
                        adding_keeps_ids(
                            done,
                            copy,
                            field.name,
                            kind,
                            ids[n - 1].0,
                            ids[n - 1].1,
                        );
                        field_added_puts(
                            done,
                            copy,
                            field.name,
                            kind,
                            ids[n - 1].0,
                            ids[n - 1].1,
                        );
                    },
                }
            }
        }
    }
}

/// Duplicating a schema fails only where a field of the source points at a
/// database that is not there, which is then named. It does fail there, unless
/// the missing database is the very one that the copy becomes, or the field is
/// not copied for itself, being the other side of one that is.
pub proof fn duplication_fails_on_absent_targets(
    databases: Seq<DatabaseView>,
    source: DatabaseId,
    name: Seq<char>,
    copy: DatabaseId,
    ids: Seq<(FieldId, FieldId)>,
)
    requires
        ids_distinct(databases),
        has_database(databases, source),
    ensures
        ({
            let fields = database_of(databases, source).fields;
            match schema_duplicated(databases, source, name, copy, ids) {
                Ok(_) => forall|k: int|
                    0 <= k < fields.len() && !pairs_copied(fields, source, k as nat).contains(
                        (#[trigger] fields[k]).id,
                    ) ==> (fields[k].kind.target() matches Some(target) ==> target == copy
                        || has_database(databases, target)),
                Err(error) => exists|k: int| #[trigger]
                    names_absent_target(databases, fields, k, error),
            }
        }),
{
    let fields = database_of(databases, source).fields;
    let start = with_database(databases, empty_database(copy, name));
    with_database_distinct(databases, empty_database(copy, name));
    with_database_puts(databases, empty_database(copy, name));
    copying_stops_at_absent_targets(databases, start, fields, source, copy, ids, fields.len());
}

/// What `SchemaRegistry::duplicate_database_schema` fails with, whatever ids it
/// draws: the source, where that is missing, or else a database that a field of
/// the source points at and that is missing.
pub proof fn duplication_error_names_what_is_missing(
    databases: Seq<DatabaseView>,
    error: ErrorView,
    source: DatabaseId,
    name: Seq<char>,
)
    requires
        ids_distinct(databases),
        is_duplication_error(databases, error, source, name),
    ensures
        if has_database(databases, source) {
            exists|k: int| #[trigger]
                names_absent_target(
                    databases,
                    database_of(databases, source).fields,
                    k,
                    error,
                )
        } else {
            error == ErrorView::DatabaseNotFound(source)
        },
{
    let copy = choose|copy: DatabaseId| #[trigger]
        is_schema_duplicated(databases, Err(error), source, name, copy);
    let ids = choose|ids: Seq<(FieldId, FieldId)>|
        {
            &&& has_database(databases, source) ==> ids.len() == database_of(
                databases,
                source,
            ).fields.len()
            &&& Err::<Seq<DatabaseView>, ErrorView>(error) == #[trigger] schema_duplicated(
                databases,
                source,
                name,
                copy,
                ids,
            )
        };
    if has_database(databases, source) {
        duplication_fails_on_absent_targets(databases, source, name, copy, ids);
    }
}

} // verus!
