//! What every change to a registry keeps: ids are never shared, and a
//! reference field always has its counterpart.

use vstd::prelude::*;

use crate::ids::{DatabaseId, FieldId};
use crate::registry::{
    add_field_error, back_name, database_index, database_index_is, database_not_at, database_of,
    database_removed, empty_database, field_added, field_error, field_in, field_pushed,
    field_removed, field_replaced, fields_copied, fields_paired, fields_without, has_database,
    ids_distinct, is_database, ordering_after, paired_with, pairs_copied, redirected, retype_error,
    schema_duplicated, unpaired, with_database, with_database_distinct, with_fields,
    with_fields_keeps,
};
use crate::schema::{
    field_position, field_position_found, field_position_is, DatabaseView, FieldKindView, FieldView,
};

verus! {

/// Whether there is a `k`th field in an `i`th database.
pub open spec fn is_field(databases: Seq<DatabaseView>, i: int, k: int) -> bool {
    0 <= i < databases.len() && 0 <= k < databases[i].fields.len()
}

/// The `k`th field of the `i`th database.
pub open spec fn field_at(databases: Seq<DatabaseView>, i: int, k: int) -> FieldView {
    databases[i].fields[k]
}

/// Whether no two fields, of the same database or not, share an id.
pub open spec fn field_ids_distinct(databases: Seq<DatabaseView>) -> bool {
    forall|i: int, k: int, j: int, m: int|
        is_field(databases, i, k) && is_field(databases, j, m) && (i != j || k != m) ==> (
        #[trigger] field_at(databases, i, k)).id != (#[trigger] field_at(databases, j, m)).id
}

/// Whether two fields are the two ends of one relationship: each is a
/// reference to the other's database, and names the other as its pair.
pub open spec fn are_paired(
    databases: Seq<DatabaseView>,
    i: int,
    k: int,
    j: int,
    m: int,
) -> bool {
    &&& is_field(databases, i, k)
    &&& is_field(databases, j, m)
    &&& i != j || k != m
    &&& field_at(databases, i, k).kind == FieldKindView::Reference {
        target_database: databases[j].id,
        paired_field: Some(field_at(databases, j, m).id),
    }
    &&& field_at(databases, j, m).kind == FieldKindView::Reference {
        target_database: databases[i].id,
        paired_field: Some(field_at(databases, i, k).id),
    }
}

/// Whether a field has its counterpart.
pub open spec fn has_counterpart(databases: Seq<DatabaseView>, i: int, k: int) -> bool {
    exists|j: int, m: int| #[trigger] are_paired(databases, i, k, j, m)
}

/// Whether every reference field has its counterpart.
pub open spec fn references_paired(databases: Seq<DatabaseView>) -> bool {
    forall|i: int, k: int|
        is_field(databases, i, k) && (#[trigger] field_at(databases, i, k)).kind is Reference
            ==> has_counterpart(databases, i, k)
}

/// What holds of every registry that was built by adding, changing and
/// removing: no id is shared, and every reference has its counterpart.
pub open spec fn consistent(databases: Seq<DatabaseView>) -> bool {
    &&& ids_distinct(databases)
    &&& field_ids_distinct(databases)
    &&& references_paired(databases)
}

/// Whether no field has this id.
pub open spec fn is_fresh_field(databases: Seq<DatabaseView>, id: FieldId) -> bool {
    forall|i: int, k: int|
        is_field(databases, i, k) ==> (#[trigger] field_at(databases, i, k)).id != id
}

/// A registry without databases is consistent.
pub proof fn empty_is_consistent()
    ensures
        consistent(Seq::empty()),
{
}

/// Adding a database under an id of its own keeps a registry consistent.
pub proof fn create_database_keeps_consistent(
    databases: Seq<DatabaseView>,
    id: DatabaseId,
    name: Seq<char>,
)
    requires
        consistent(databases),
        !has_database(databases, id),
    ensures
        consistent(with_database(databases, empty_database(id, name))),
{
    let after = with_database(databases, empty_database(id, name));
    with_database_distinct(databases, empty_database(id, name));
    assert forall|i: int, k: int| is_field(after, i, k) implies #[trigger] field_at(after, i, k)
        == field_at(databases, i, k) && is_field(databases, i, k) by {}
    assert forall|i: int, k: int|
        is_field(after, i, k) && (#[trigger] field_at(after, i, k)).kind
            is Reference implies has_counterpart(after, i, k) by {
        assert(field_at(databases, i, k).kind is Reference);
        let (j, m) = choose|j: int, m: int| #[trigger] are_paired(databases, i, k, j, m);
        assert(field_at(databases, j, m) == field_at(after, j, m));
        assert(are_paired(after, i, k, j, m));
    }
}

/// What adding a field comes to, database by database.
pub(crate) proof fn field_added_shape(
    databases: Seq<DatabaseView>,
    database_id: DatabaseId,
    name: Seq<char>,
    kind: FieldKindView,
    field_id: FieldId,
    back_id: FieldId,
) -> (result: (int, int))
    requires
        ids_distinct(databases),
        add_field_error(databases, database_id, kind) is None,
        is_fresh_field(databases, field_id),
    ensures
        ({
            let after = field_added(databases, database_id, name, kind, field_id, back_id);
            let s = result.0;
            let t = result.1;
            let old_s = databases[s].fields;
            let old_t = databases[t].fields;
            let forward = FieldView {
                id: field_id,
                name,
                kind: if kind is Reference {
                    paired_with(kind, back_id)
                } else {
                    kind
                },
                ordering: ordering_after(old_s.len()),
            };
            &&& is_database(databases, database_id, s)
            &&& kind.target() matches Some(target) ==> is_database(databases, target, t)
            &&& kind !is Reference ==> t == s
            &&& ids_distinct(after)
            &&& after.len() == databases.len()
            &&& forall|i: int|
                0 <= i < after.len() ==> (#[trigger] after[i]).id == databases[i].id
                    && after[i].name == databases[i].name
            &&& forall|i: int|
                0 <= i < after.len() && i != s && i != t ==> #[trigger] after[i] == databases[i]
            &&& kind !is Reference ==> after[s].fields == old_s.push(forward)
            &&& kind is Reference ==> {
                let back = FieldView {
                    id: back_id,
                    name: back_name(databases[s].name, name),
                    kind: FieldKindView::Reference {
                        target_database: database_id,
                        paired_field: Some(field_id),
                    },
                    ordering: ordering_after(
                        if s == t {
                            old_s.len() + 1
                        } else {
                            old_t.len()
                        },
                    ),
                };
                &&& s == t ==> after[s].fields == old_s.push(forward).push(back)
                &&& s != t ==> after[s].fields == old_s.push(forward) && after[t].fields
                    == old_t.push(back)
            }
        }),
{
    let s = database_index(databases, database_id);
    assert(is_database(databases, database_id, s));
    database_index_is(databases, database_id, s);
    let old_s = databases[s].fields;
    let first = FieldView {
        id: field_id,
        name,
        kind: unpaired(kind),
        ordering: ordering_after(old_s.len()),
    };
    let forward = field_pushed(databases, database_id, field_id, name, unpaired(kind));
    with_fields_keeps(databases, database_id, old_s.push(first));
    assert(forward == databases.update(
        s,
        DatabaseView { fields: old_s.push(first), ..databases[s] },
    ));
    match kind.target() {
        Some(target) => {
            let t = database_index(databases, target);
            assert(is_database(databases, target, t));
            assert(is_database(forward, target, t));
            database_index_is(forward, target, t);
            let mid_t = forward[t].fields;
            let back = FieldView {
                id: back_id,
                name: back_name(databases[s].name, name),
                kind: FieldKindView::Reference {
                    target_database: database_id,
                    paired_field: Some(field_id),
                },
                ordering: ordering_after(mid_t.len()),
            };
            with_fields_keeps(forward, target, mid_t.push(back));
            let both = forward.update(t, DatabaseView { fields: mid_t.push(back), ..forward[t] });
            assert(is_database(both, database_id, s));
            database_index_is(both, database_id, s);
            let fields = both[s].fields;
            assert forall|j: int| 0 <= j < old_s.len() implies (#[trigger] fields[j]).id
                != field_id by {
                assert(is_field(databases, s, j));
                assert(fields[j] == field_at(databases, s, j));
            }
            assert(fields[old_s.len() as int] == first);
            field_position_is(fields, field_id, old_s.len() as int);
            let paired = FieldView { kind: paired_with(kind, back_id), ..first };
            assert(fields_paired(fields, field_id, back_id) == fields.update(
                old_s.len() as int,
                paired,
            ));
            with_fields_keeps(both, database_id, fields_paired(fields, field_id, back_id));
            if s == t {
                assert(fields.update(old_s.len() as int, paired) =~= old_s.push(paired).push(back));
            } else {
                assert(fields.update(old_s.len() as int, paired) =~= old_s.push(paired));
            }
            (s, t)
        },
        None => (s, s),
    }
}

/// Adding a field under ids of its own keeps a registry consistent. Where the
/// field is a reference, its counterpart is there when it is.
pub proof fn add_field_keeps_consistent(
    databases: Seq<DatabaseView>,
    database_id: DatabaseId,
    name: Seq<char>,
    kind: FieldKindView,
    field_id: FieldId,
    back_id: FieldId,
)
    requires
        consistent(databases),
        add_field_error(databases, database_id, kind) is None,
        is_fresh_field(databases, field_id),
        is_fresh_field(databases, back_id),
        field_id != back_id,
    ensures
        consistent(field_added(databases, database_id, name, kind, field_id, back_id)),
{
    let after = field_added(databases, database_id, name, kind, field_id, back_id);
    let (s, t) = field_added_shape(databases, database_id, name, kind, field_id, back_id);
    let forward_at = databases[s].fields.len() as int;
    let back_at = if s == t {
        forward_at + 1
    } else {
        databases[t].fields.len() as int
    };
    assert forall|i: int, k: int| #[trigger]
        is_field(after, i, k) implies (is_field(databases, i, k) && field_at(after, i, k)
        == field_at(databases, i, k)) || (i == s && k == forward_at && field_at(after, i, k).id
        == field_id) || (kind is Reference && i == t && k == back_at && field_at(after, i, k).id
        == back_id) by {}
    assert forall|i: int, k: int| #[trigger] is_field(databases, i, k) implies is_field(after, i, k)
        && field_at(after, i, k) == field_at(databases, i, k) by {}
    assert(field_ids_distinct(after)) by {
        assert forall|i: int, k: int, j: int, m: int|
            is_field(after, i, k) && is_field(after, j, m) && (i != j || k != m) implies (
        #[trigger] field_at(after, i, k)).id != (#[trigger] field_at(after, j, m)).id by {
            if is_field(databases, i, k) && field_at(after, i, k) == field_at(databases, i, k) {
                assert(field_at(databases, i, k).id != field_id);
                assert(field_at(databases, i, k).id != back_id);
            }
            if is_field(databases, j, m) && field_at(after, j, m) == field_at(databases, j, m) {
                assert(field_at(databases, j, m).id != field_id);
                assert(field_at(databases, j, m).id != back_id);
            }
        }
    }
    assert forall|i: int, k: int|
        is_field(after, i, k) && (#[trigger] field_at(after, i, k)).kind
            is Reference implies has_counterpart(after, i, k) by {
        if is_field(databases, i, k) && field_at(after, i, k) == field_at(databases, i, k) {
            assert(field_at(databases, i, k).kind is Reference);
            let (j, m) = choose|j: int, m: int| #[trigger] are_paired(databases, i, k, j, m);
            assert(is_field(databases, j, m));
            assert(are_paired(after, i, k, j, m));
        } else if i == s && k == forward_at {
            assert(are_paired(after, s, forward_at, t, back_at));
        } else {
            assert(are_paired(after, t, back_at, s, forward_at));
        }
    }
}

/// Replacing a field by one of the same id keeps a registry consistent, as
/// long as its part in a relationship stays what it was.
proof fn replace_keeps_consistent(
    databases: Seq<DatabaseView>,
    database_id: DatabaseId,
    field: FieldView,
)
    requires
        consistent(databases),
        field_error(databases, database_id, field.id) is None,
        field.kind == field_in(databases, database_id, field.id).kind || (field.kind !is Reference
            && field_in(databases, database_id, field.id).kind !is Reference),
    ensures
        consistent(field_replaced(databases, database_id, field)),
{
    let after = field_replaced(databases, database_id, field);
    let s = database_index(databases, database_id);
    assert(is_database(databases, database_id, s));
    let fields = databases[s].fields;
    field_position_found(fields, field.id);
    let p = field_position(fields, field.id)->0;
    with_fields_keeps(databases, database_id, fields.update(p, field));
    assert forall|i: int, k: int| #[trigger] is_field(after, i, k) == is_field(databases, i, k) by {}
    assert forall|i: int, k: int| #[trigger] is_field(after, i, k) implies field_at(after, i, k).id
        == field_at(databases, i, k).id && (field_at(after, i, k).kind == field_at(
        databases,
        i,
        k,
    ).kind || (field_at(after, i, k).kind !is Reference && field_at(databases, i, k).kind
        !is Reference)) by {}
    assert(field_ids_distinct(after)) by {
        assert forall|i: int, k: int, j: int, m: int|
            is_field(after, i, k) && is_field(after, j, m) && (i != j || k != m) implies (
        #[trigger] field_at(after, i, k)).id != (#[trigger] field_at(after, j, m)).id by {
            assert(field_at(databases, i, k).id != field_at(databases, j, m).id);
        }
    }
    assert forall|i: int, k: int|
        is_field(after, i, k) && (#[trigger] field_at(after, i, k)).kind
            is Reference implies has_counterpart(after, i, k) by {
        assert(field_at(databases, i, k).kind is Reference);
        let (j, m) = choose|j: int, m: int| #[trigger] are_paired(databases, i, k, j, m);
        assert(is_field(after, j, m));
        assert(are_paired(after, i, k, j, m));
    }
}

/// Renaming a field keeps a registry consistent.
pub proof fn rename_field_keeps_consistent(
    databases: Seq<DatabaseView>,
    database_id: DatabaseId,
    field_id: FieldId,
    name: Seq<char>,
)
    requires
        consistent(databases),
        field_error(databases, database_id, field_id) is None,
    ensures
        consistent(
            field_replaced(
                databases,
                database_id,
                FieldView { name, ..field_in(databases, database_id, field_id) },
            ),
        ),
{
    field_position_found(database_of(databases, database_id).fields, field_id);
    let field = FieldView { name, ..field_in(databases, database_id, field_id) };
    replace_keeps_consistent(databases, database_id, field);
}

/// Retyping a field keeps a registry consistent.
pub proof fn retype_field_keeps_consistent(
    databases: Seq<DatabaseView>,
    database_id: DatabaseId,
    field_id: FieldId,
    kind: FieldKindView,
)
    requires
        consistent(databases),
        retype_error(databases, database_id, field_id, kind) is None,
    ensures
        consistent(
            field_replaced(
                databases,
                database_id,
                FieldView { kind, ..field_in(databases, database_id, field_id) },
            ),
        ),
{
    field_position_found(database_of(databases, database_id).fields, field_id);
    let field = FieldView { kind, ..field_in(databases, database_id, field_id) };
    replace_keeps_consistent(databases, database_id, field);
}

/// Where the `k`th of the elements that are kept stood before.
pub open spec fn kept_from<A>(items: Seq<A>, keep: spec_fn(A) -> bool, k: int) -> int
    decreases items.len(),
{
    if items.len() == 0 {
        0
    } else if k < items.drop_last().filter(keep).len() {
        kept_from(items.drop_last(), keep, k)
    } else {
        items.len() - 1
    }
}

/// The elements that are kept are those that should be, in their order.
pub proof fn kept_from_is<A>(items: Seq<A>, keep: spec_fn(A) -> bool)
    ensures
        forall|k: int|
            0 <= k < items.filter(keep).len() ==> {
                &&& 0 <= #[trigger] kept_from(items, keep, k) < items.len()
                &&& items.filter(keep)[k] == items[kept_from(items, keep, k)]
                &&& keep(items[kept_from(items, keep, k)])
            },
        forall|k: int, m: int|
            0 <= k < m < items.filter(keep).len() ==> #[trigger] kept_from(items, keep, k)
                < #[trigger] kept_from(items, keep, m),
        forall|i: int|
            0 <= i < items.len() && keep(#[trigger] items[i]) ==> exists|k: int|
                0 <= k < items.filter(keep).len() && #[trigger] kept_from(items, keep, k) == i,
    decreases items.len(),
{
    reveal(Seq::filter);
    if items.len() > 0 {
        let rest = items.drop_last();
        kept_from_is(rest, keep);
        let kept = items.filter(keep);
        let fewer = rest.filter(keep);
        assert forall|k: int| 0 <= k < kept.len() implies {
            &&& 0 <= #[trigger] kept_from(items, keep, k) < items.len()
            &&& kept[k] == items[kept_from(items, keep, k)]
            &&& keep(items[kept_from(items, keep, k)])
        } by {
            if k < fewer.len() {
                assert(kept[k] == fewer[k]);
                let i = kept_from(rest, keep, k);
                assert(rest[i] == items[i]);
            }
        }
        assert forall|k: int, m: int| 0 <= k < m < kept.len() implies #[trigger] kept_from(
            items,
            keep,
            k,
        ) < #[trigger] kept_from(items, keep, m) by {
            if m < fewer.len() {
                assert(kept_from(rest, keep, k) < kept_from(rest, keep, m));
            } else {
                assert(0 <= kept_from(rest, keep, k) < rest.len());
            }
        }
        assert forall|i: int|
            0 <= i < items.len() && keep(#[trigger] items[i]) implies exists|k: int|
            0 <= k < kept.len() && #[trigger] kept_from(items, keep, k) == i by {
            if i < rest.len() {
                assert(keep(rest[i]));
                let k = choose|k: int|
                    0 <= k < fewer.len() && #[trigger] kept_from(rest, keep, k) == i;
                assert(kept_from(items, keep, k) == i);
            } else {
                assert(kept_from(items, keep, fewer.len() as int) == i);
            }
        }
    }
}

/// After removing a database, every remaining field is one that was there and
/// that did not point at it.
pub(crate) proof fn database_removed_shape(databases: Seq<DatabaseView>, id: DatabaseId)
    requires
        ids_distinct(databases),
        has_database(databases, id),
    ensures
        ({
            let after = database_removed(databases, id);
            let gone = database_index(databases, id);
            &&& ids_distinct(after)
            &&& after.len() == databases.len() - 1
            &&& forall|i: int|
                0 <= i < after.len() ==> (#[trigger] after[i]) == database_not_at(
                    databases[if i < gone {
                        i
                    } else {
                        i + 1
                    }],
                    id,
                )
        }),
{
    let after = database_removed(databases, id);
    let gone = database_index(databases, id);
    assert(is_database(databases, id, gone));
    assert forall|i: int, j: int| 0 <= i < j < after.len() implies (#[trigger] after[i]).id != (
    #[trigger] after[j]).id by {
        let i0 = if i < gone {
            i
        } else {
            i + 1
        };
        let j0 = if j < gone {
            j
        } else {
            j + 1
        };
        assert(databases[i0].id != databases[j0].id);
    }
}

/// Removing a database keeps a registry consistent, and leaves no field that
/// points at it.
pub proof fn remove_database_keeps_consistent(databases: Seq<DatabaseView>, id: DatabaseId)
    requires
        consistent(databases),
        has_database(databases, id),
    ensures
        consistent(database_removed(databases, id)),
        !has_database(database_removed(databases, id), id),
        forall|i: int, k: int|
            is_field(database_removed(databases, id), i, k) ==> (#[trigger] field_at(
                database_removed(databases, id),
                i,
                k,
            )).kind.target() != Some(id),
{
    let after = database_removed(databases, id);
    let gone = database_index(databases, id);
    assert(is_database(databases, id, gone));
    database_removed_shape(databases, id);
    let keep = |field: FieldView| field.kind.target() != Some(id);
    let from = |i: int|
        if i < gone {
            i
        } else {
            i + 1
        };
    let field_from = |i: int, k: int| kept_from(databases[from(i)].fields, keep, k);
    assert forall|i: int, k: int| #[trigger] is_field(after, i, k) implies is_field(
        databases,
        from(i),
        field_from(i, k),
    ) && field_at(after, i, k) == field_at(databases, from(i), field_from(i, k)) && keep(
        field_at(after, i, k),
    ) by {
        kept_from_is(databases[from(i)].fields, keep);
        assert(after[i].fields == databases[from(i)].fields.filter(keep));
        assert(0 <= kept_from(databases[from(i)].fields, keep, k));
    }
    assert(field_ids_distinct(after)) by {
        assert forall|i: int, k: int, j: int, m: int|
            is_field(after, i, k) && is_field(after, j, m) && (i != j || k != m) implies (
        #[trigger] field_at(after, i, k)).id != (#[trigger] field_at(after, j, m)).id by {
            if i == j {
                kept_from_is(databases[from(i)].fields, keep);
                assert(after[i].fields == databases[from(i)].fields.filter(keep));
                assert(field_from(i, k) != field_from(i, m)) by {
                    if k < m {
                        assert(kept_from(databases[from(i)].fields, keep, k) < kept_from(
                            databases[from(i)].fields,
                            keep,
                            m,
                        ));
                    } else {
                        assert(kept_from(databases[from(i)].fields, keep, m) < kept_from(
                            databases[from(i)].fields,
                            keep,
                            k,
                        ));
                    }
                }
            }
            assert(field_at(databases, from(i), field_from(i, k)).id != field_at(
                databases,
                from(j),
                field_from(j, m),
            ).id);
        }
    }
    assert forall|i: int, k: int|
        is_field(after, i, k) && (#[trigger] field_at(after, i, k)).kind
            is Reference implies has_counterpart(after, i, k) by {
        let i0 = from(i);
        let k0 = field_from(i, k);
        assert(field_at(databases, i0, k0).kind is Reference);
        let (j0, m0) = choose|j0: int, m0: int| #[trigger] are_paired(databases, i0, k0, j0, m0);
        assert(databases[j0].id != id);
        assert(databases[i0].id != id);
        let j = if j0 < gone {
            j0
        } else {
            j0 - 1
        };
        assert(from(j) == j0);
        kept_from_is(databases[j0].fields, keep);
        assert(keep(databases[j0].fields[m0]));
        let m = choose|m: int|
            0 <= m < databases[j0].fields.filter(keep).len() && #[trigger] kept_from(
                databases[j0].fields,
                keep,
                m,
            ) == m0;
        assert(after[j].fields == databases[j0].fields.filter(keep));
        assert(is_field(after, j, m));
        assert(field_at(after, j, m) == field_at(databases, j0, m0));
        if i == j && k == m {
            assert(i0 == j0 && k0 == m0);
        }
        assert(are_paired(after, i, k, j, m));
    }
    if has_database(after, id) {
        let i = database_index(after, id);
        assert(is_database(after, id, i));
        assert(databases[from(i)].id == id);
        assert(from(i) != gone);
    }
}

/// Two tests that agree on the elements keep the same ones.
pub proof fn filter_agrees<A>(items: Seq<A>, p: spec_fn(A) -> bool, q: spec_fn(A) -> bool)
    requires
        forall|i: int| 0 <= i < items.len() ==> p(#[trigger] items[i]) == q(items[i]),
    ensures
        items.filter(p) == items.filter(q),
    decreases items.len(),
{
    reveal(Seq::filter);
    if items.len() > 0 {
        let rest = items.drop_last();
        assert forall|i: int| 0 <= i < rest.len() implies p(#[trigger] rest[i]) == q(rest[i]) by {
            assert(rest[i] == items[i]);
        }
        filter_agrees(rest, p, q);
        assert(p(items[items.len() - 1]) == q(items[items.len() - 1]));
    }
}

/// A test that every element passes keeps them all.
pub proof fn filter_keeps_all<A>(items: Seq<A>, p: spec_fn(A) -> bool)
    requires
        forall|i: int| 0 <= i < items.len() ==> p(#[trigger] items[i]),
    ensures
        items.filter(p) == items,
    decreases items.len(),
{
    reveal(Seq::filter);
    if items.len() > 0 {
        let rest = items.drop_last();
        assert forall|i: int| 0 <= i < rest.len() implies p(#[trigger] rest[i]) by {
            assert(rest[i] == items[i]);
        }
        filter_keeps_all(rest, p);
        assert(p(items[items.len() - 1]));
        assert(rest.push(items.last()) =~= items);
    }
}

/// Two tests one after the other keep what both pass.
pub proof fn filter_twice<A>(items: Seq<A>, p: spec_fn(A) -> bool, q: spec_fn(A) -> bool)
    ensures
        items.filter(p).filter(q) == items.filter(|item: A| p(item) && q(item)),
    decreases items.len(),
{
    reveal(Seq::filter);
    if items.len() > 0 {
        let rest = items.drop_last();
        filter_twice(rest, p, q);
        if p(items.last()) {
            assert(rest.filter(p).push(items.last()).drop_last() =~= rest.filter(p));
        }
    }
}

/// Keeping only some fields keeps a registry consistent, as long as no field
/// is parted from its counterpart.
proof fn filter_keeps_consistent(
    databases: Seq<DatabaseView>,
    after: Seq<DatabaseView>,
    keep: spec_fn(FieldView) -> bool,
)
    requires
        consistent(databases),
        after.len() == databases.len(),
        forall|i: int|
            0 <= i < after.len() ==> (#[trigger] after[i]) == (DatabaseView {
                fields: databases[i].fields.filter(keep),
                ..databases[i]
            }),
        forall|i: int, k: int, j: int, m: int|
            #[trigger] are_paired(databases, i, k, j, m) && keep(field_at(databases, i, k))
                ==> keep(field_at(databases, j, m)),
    ensures
        consistent(after),
{
    let from = |i: int, k: int| kept_from(databases[i].fields, keep, k);
    assert forall|i: int, k: int| #[trigger] is_field(after, i, k) implies is_field(
        databases,
        i,
        from(i, k),
    ) && field_at(after, i, k) == field_at(databases, i, from(i, k)) && keep(
        field_at(after, i, k),
    ) by {
        kept_from_is(databases[i].fields, keep);
        assert(0 <= kept_from(databases[i].fields, keep, k));
    }
    assert(field_ids_distinct(after)) by {
        assert forall|i: int, k: int, j: int, m: int|
            is_field(after, i, k) && is_field(after, j, m) && (i != j || k != m) implies (
        #[trigger] field_at(after, i, k)).id != (#[trigger] field_at(after, j, m)).id by {
            if i == j {
                kept_from_is(databases[i].fields, keep);
                if k < m {
                    assert(kept_from(databases[i].fields, keep, k) < kept_from(
                        databases[i].fields,
                        keep,
                        m,
                    ));
                } else {
                    assert(kept_from(databases[i].fields, keep, m) < kept_from(
                        databases[i].fields,
                        keep,
                        k,
                    ));
                }
            }
            assert(field_at(databases, i, from(i, k)).id != field_at(databases, j, from(j, m)).id);
        }
    }
    assert forall|i: int, k: int|
        is_field(after, i, k) && (#[trigger] field_at(after, i, k)).kind
            is Reference implies has_counterpart(after, i, k) by {
        let k0 = from(i, k);
        assert(field_at(databases, i, k0).kind is Reference);
        let (j, m0) = choose|j: int, m0: int| #[trigger] are_paired(databases, i, k0, j, m0);
        kept_from_is(databases[j].fields, keep);
        assert(keep(databases[j].fields[m0]));
        let m = choose|m: int|
            0 <= m < databases[j].fields.filter(keep).len() && #[trigger] kept_from(
                databases[j].fields,
                keep,
                m,
            ) == m0;
        assert(is_field(after, j, m));
        assert(field_at(after, j, m) == field_at(databases, j, m0));
        assert(are_paired(after, i, k, j, m));
    }
}

/// The two fields that go when one of them is removed.
pub open spec fn goes_with(databases: Seq<DatabaseView>, database_id: DatabaseId, field_id: FieldId, other: FieldId) -> bool {
    other == field_id || field_in(databases, database_id, field_id).kind.pair() == Some(other)
}

/// What removing a field comes to: in every database the fields other than it
/// and its pair.
pub(crate) proof fn field_removed_shape(
    databases: Seq<DatabaseView>,
    database_id: DatabaseId,
    field_id: FieldId,
)
    requires
        consistent(databases),
        field_error(databases, database_id, field_id) is None,
    ensures
        ({
            let after = field_removed(databases, database_id, field_id);
            let keep = |field: FieldView| !goes_with(databases, database_id, field_id, field.id);
            &&& after.len() == databases.len()
            &&& forall|i: int|
                0 <= i < after.len() ==> (#[trigger] after[i]) == (DatabaseView {
                    fields: databases[i].fields.filter(keep),
                    ..databases[i]
                })
        }),
{
    let after = field_removed(databases, database_id, field_id);
    let keep = |field: FieldView| !goes_with(databases, database_id, field_id, field.id);
    let s = database_index(databases, database_id);
    assert(is_database(databases, database_id, s));
    let fields = databases[s].fields;
    field_position_found(fields, field_id);
    let p = field_position(fields, field_id)->0;
    let kind = field_at(databases, s, p).kind;
    assert(is_field(databases, s, p));
    let keep_first = |field: FieldView| field.id != field_id;
    let alone = with_fields(databases, database_id, fields_without(fields, field_id));
    with_fields_keeps(databases, database_id, fields_without(fields, field_id));
    if kind is Reference {
        assert(has_counterpart(databases, s, p));
        let (t, m) = choose|t: int, m: int| #[trigger] are_paired(databases, s, p, t, m);
        let pair = field_at(databases, t, m).id;
        let keep_second = |field: FieldView| field.id != pair;
        assert(is_database(alone, databases[t].id, t));
        database_index_is(alone, databases[t].id, t);
        with_fields_keeps(alone, databases[t].id, fields_without(alone[t].fields, pair));
        assert forall|i: int| 0 <= i < after.len() implies (#[trigger] after[i]) == (DatabaseView {
            fields: databases[i].fields.filter(keep),
            ..databases[i]
        }) by {
            let own = databases[i].fields;
            if i == s && i == t {
                filter_twice(own, keep_first, keep_second);
                filter_agrees(
                    own,
                    |field: FieldView| keep_first(field) && keep_second(field),
                    keep,
                );
            } else if i == s {
                assert forall|k: int| 0 <= k < own.len() implies keep_first(#[trigger] own[k])
                    == keep(own[k]) by {
                    assert(is_field(databases, i, k));
                    assert(field_at(databases, i, k).id != field_at(databases, t, m).id);
                }
                filter_agrees(own, keep_first, keep);
            } else if i == t {
                assert forall|k: int| 0 <= k < own.len() implies keep_second(#[trigger] own[k])
                    == keep(own[k]) by {
                    assert(is_field(databases, i, k));
                    assert(field_at(databases, i, k).id != field_at(databases, s, p).id);
                }
                filter_agrees(own, keep_second, keep);
            } else {
                assert forall|k: int| 0 <= k < own.len() implies keep(#[trigger] own[k]) by {
                    assert(is_field(databases, i, k));
                    assert(field_at(databases, i, k).id != field_at(databases, s, p).id);
                    assert(field_at(databases, i, k).id != field_at(databases, t, m).id);
                }
                filter_keeps_all(own, keep);
            }
        }
    } else {
        assert forall|i: int| 0 <= i < after.len() implies (#[trigger] after[i]) == (DatabaseView {
            fields: databases[i].fields.filter(keep),
            ..databases[i]
        }) by {
            let own = databases[i].fields;
            if i == s {
                filter_agrees(own, keep_first, keep);
            } else {
                assert forall|k: int| 0 <= k < own.len() implies keep(#[trigger] own[k]) by {
                    assert(is_field(databases, i, k));
                    assert(field_at(databases, i, k).id != field_at(databases, s, p).id);
                }
                filter_keeps_all(own, keep);
            }
        }
    }
}

/// Removing a field keeps a registry consistent. The field and its pair are
/// gone, and every other field is still there.
pub proof fn remove_field_keeps_consistent(
    databases: Seq<DatabaseView>,
    database_id: DatabaseId,
    field_id: FieldId,
)
    requires
        consistent(databases),
        field_error(databases, database_id, field_id) is None,
    ensures
        ({
            let after = field_removed(databases, database_id, field_id);
            &&& consistent(after)
            &&& forall|i: int, k: int|
                is_field(after, i, k) ==> !goes_with(
                    databases,
                    database_id,
                    field_id,
                    (#[trigger] field_at(after, i, k)).id,
                )
            &&& forall|i: int, k: int|
                is_field(databases, i, k) && !goes_with(
                    databases,
                    database_id,
                    field_id,
                    (#[trigger] field_at(databases, i, k)).id,
                ) ==> after[i].fields.contains(field_at(databases, i, k))
        }),
{
    let after = field_removed(databases, database_id, field_id);
    let keep = |field: FieldView| !goes_with(databases, database_id, field_id, field.id);
    field_removed_shape(databases, database_id, field_id);
    let s = database_index(databases, database_id);
    assert(is_database(databases, database_id, s));
    let p = field_position(databases[s].fields, field_id)->0;
    field_position_found(databases[s].fields, field_id);
    assert(is_field(databases, s, p));
    assert forall|i: int, k: int, j: int, m: int|
        #[trigger] are_paired(databases, i, k, j, m) && keep(
            field_at(databases, i, k),
        ) implies keep(field_at(databases, j, m)) by {
        let other = field_at(databases, j, m);
        if other.id == field_id {
            assert(j == s && m == p);
        } else if field_at(databases, s, p).kind.pair() == Some(other.id) {
            let (t, n) = choose|t: int, n: int| #[trigger] are_paired(databases, s, p, t, n);
            assert(field_at(databases, s, p).kind is Reference);
            assert(has_counterpart(databases, s, p));
            assert(j == t && m == n);
            assert(field_at(databases, i, k).id == field_at(databases, s, p).id);
        }
    }
    filter_keeps_consistent(databases, after, keep);
    assert forall|i: int, k: int| is_field(after, i, k) implies !goes_with(
        databases,
        database_id,
        field_id,
        (#[trigger] field_at(after, i, k)).id,
    ) by {
        kept_from_is(databases[i].fields, keep);
        assert(keep(databases[i].fields[kept_from(databases[i].fields, keep, k)]));
    }
    assert forall|i: int, k: int|
        is_field(databases, i, k) && !goes_with(
            databases,
            database_id,
            field_id,
            (#[trigger] field_at(databases, i, k)).id,
        ) implies after[i].fields.contains(field_at(databases, i, k)) by {
        kept_from_is(databases[i].fields, keep);
        let own = databases[i].fields;
        assert(keep(own[k]));
        let m = choose|m: int|
            0 <= m < own.filter(keep).len() && #[trigger] kept_from(own, keep, m) == k;
        assert(after[i].fields[m] == own[k]);
    }
}

/// Whether everything that was there is still there, in its place.
pub open spec fn grows(before: Seq<DatabaseView>, after: Seq<DatabaseView>) -> bool {
    &&& before.len() <= after.len()
    &&& forall|i: int|
        0 <= i < before.len() ==> {
            &&& (#[trigger] after[i]).id == before[i].id
            &&& after[i].name == before[i].name
            &&& before[i].fields.is_prefix_of(after[i].fields)
        }
}

/// What takes nothing away twice takes nothing away.
pub proof fn grows_on(a: Seq<DatabaseView>, b: Seq<DatabaseView>, c: Seq<DatabaseView>)
    requires
        grows(a, b),
        grows(b, c),
    ensures
        grows(a, c),
{
    assert forall|i: int| 0 <= i < a.len() implies {
        &&& (#[trigger] c[i]).id == a[i].id
        &&& c[i].name == a[i].name
        &&& a[i].fields.is_prefix_of(c[i].fields)
    } by {
        assert(b[i].id == a[i].id);
        let fields = a[i].fields;
        assert(fields =~= c[i].fields.subrange(0, fields.len() as int)) by {
            assert(fields =~= b[i].fields.subrange(0, fields.len() as int));
            assert(b[i].fields =~= c[i].fields.subrange(0, b[i].fields.len() as int));
            assert forall|k: int| 0 <= k < fields.len() implies fields[k] == c[i].fields[k] by {
                assert(fields[k] == b[i].fields.subrange(0, fields.len() as int)[k]);
                assert(b[i].fields[k] == c[i].fields.subrange(0, b[i].fields.len() as int)[k]);
            }
        }
    }
}

/// Adding a database takes nothing away.
pub proof fn create_database_grows(databases: Seq<DatabaseView>, id: DatabaseId, name: Seq<char>)
    requires
        !has_database(databases, id),
    ensures
        grows(databases, with_database(databases, empty_database(id, name))),
{
}

/// Adding a field under ids of its own takes nothing away.
pub proof fn add_field_grows(
    databases: Seq<DatabaseView>,
    database_id: DatabaseId,
    name: Seq<char>,
    kind: FieldKindView,
    field_id: FieldId,
    back_id: FieldId,
)
    requires
        ids_distinct(databases),
        add_field_error(databases, database_id, kind) is None,
        is_fresh_field(databases, field_id),
    ensures
        grows(databases, field_added(databases, database_id, name, kind, field_id, back_id)),
{
    let after = field_added(databases, database_id, name, kind, field_id, back_id);
    let (s, t) = field_added_shape(databases, database_id, name, kind, field_id, back_id);
    assert forall|i: int| 0 <= i < databases.len() implies {
        &&& (#[trigger] after[i]).id == databases[i].id
        &&& after[i].name == databases[i].name
        &&& databases[i].fields.is_prefix_of(after[i].fields)
    } by {
        let old = databases[i].fields;
        assert(after[i].fields.take(old.len() as int) =~= old);
    }
}

/// Whether none of the ids is in use, nor given twice.
pub open spec fn are_fresh_ids(databases: Seq<DatabaseView>, ids: Seq<(FieldId, FieldId)>) -> bool {
    &&& forall|i: int|
        0 <= i < ids.len() ==> is_fresh_field(databases, (#[trigger] ids[i]).0) && is_fresh_field(
            databases,
            ids[i].1,
        ) && ids[i].0 != ids[i].1
    &&& forall|i: int, j: int|
        0 <= i < j < ids.len() ==> (#[trigger] ids[i]).0 != (#[trigger] ids[j]).0 && ids[i].0
            != ids[j].1 && ids[i].1 != ids[j].0 && ids[i].1 != ids[j].1
}

/// Adding a field takes no id but the two that it was given.
proof fn add_field_keeps_fresh(
    databases: Seq<DatabaseView>,
    database_id: DatabaseId,
    name: Seq<char>,
    kind: FieldKindView,
    field_id: FieldId,
    back_id: FieldId,
    other: FieldId,
)
    requires
        ids_distinct(databases),
        add_field_error(databases, database_id, kind) is None,
        is_fresh_field(databases, field_id),
        is_fresh_field(databases, other),
        other != field_id,
        other != back_id,
    ensures
        is_fresh_field(
            field_added(databases, database_id, name, kind, field_id, back_id),
            other,
        ),
{
    let after = field_added(databases, database_id, name, kind, field_id, back_id);
    let (s, t) = field_added_shape(databases, database_id, name, kind, field_id, back_id);
    assert forall|i: int, k: int| is_field(after, i, k) implies (#[trigger] field_at(
        after,
        i,
        k,
    )).id != other by {
        if k < databases[i].fields.len() {
            assert(field_at(databases, i, k).id != other);
            assert(field_at(after, i, k) == field_at(databases, i, k));
        }
    }
}

/// Whether a copied field stands in the copy: one of the same kind, and of the
/// same name unless the copy made it as a back-reference.
pub open spec fn is_copied(
    copied: Seq<FieldView>,
    field: FieldView,
    source: DatabaseId,
    copy: DatabaseId,
    as_pair: bool,
) -> bool {
    exists|m: int|
        {
            &&& 0 <= m < copied.len()
            &&& unpaired((#[trigger] copied[m]).kind) == redirected(field.kind, source, copy)
            &&& !as_pair ==> copied[m].name == field.name
        }
}

/// What holds after the first `n` fields have been copied: the registry is
/// consistent, and the ids of the other copies are still free.
spec fn copied_so_far(
    start: Seq<DatabaseView>,
    fields: Seq<FieldView>,
    source: DatabaseId,
    copy: DatabaseId,
    ids: Seq<(FieldId, FieldId)>,
    n: nat,
) -> bool {
    fields_copied(start, fields, source, copy, ids, n) matches Ok(done) && {
        &&& consistent(done)
        &&& grows(start, done)
        &&& done.len() == start.len()
        &&& forall|i: int|
            n <= i < ids.len() ==> is_fresh_field(done, (#[trigger] ids[i]).0) && is_fresh_field(
                done,
                ids[i].1,
            )
    }
}

/// A pair that was already made is a reference of the source to itself.
proof fn pairs_copied_are_own(
    databases: Seq<DatabaseView>,
    s: int,
    n: nat,
    k: int,
)
    requires
        consistent(databases),
        0 <= s < databases.len(),
        n <= databases[s].fields.len(),
        0 <= k < databases[s].fields.len(),
        pairs_copied(databases[s].fields, databases[s].id, n).contains(databases[s].fields[k].id),
    ensures
        databases[s].fields[k].kind.target() == Some(databases[s].id),
    decreases n,
{
    let fields = databases[s].fields;
    let source = databases[s].id;
    if n > 0 {
        if pairs_copied(fields, source, (n - 1) as nat).contains(fields[k].id) {
            pairs_copied_are_own(databases, s, (n - 1) as nat, k);
        } else {
            assert(is_field(databases, s, n - 1));
            assert(field_at(databases, s, n - 1).kind.pair() == Some(fields[k].id));
            let (j, m) = choose|j: int, m: int| #[trigger] are_paired(databases, s, n - 1, j, m);
            assert(has_counterpart(databases, s, n - 1));
            assert(is_field(databases, s, k));
            assert(field_at(databases, s, k).id == field_at(databases, j, m).id);
            assert(j == s && m == k);
        }
    }
}

/// What holds before the `b`th field is copied makes it possible to copy it.
proof fn copy_is_possible(
    databases: Seq<DatabaseView>,
    s: int,
    name: Seq<char>,
    copy: DatabaseId,
    b: int,
    done: Seq<DatabaseView>,
)
    requires
        consistent(databases),
        0 <= s < databases.len(),
        !has_database(databases, copy),
        0 <= b < databases[s].fields.len(),
        ids_distinct(done),
        grows(with_database(databases, empty_database(copy, name)), done),
        done.len() == databases.len() + 1,
    ensures
        ({
            let last = databases.len() as int;
            let source = databases[s].id;
            let kind = redirected(databases[s].fields[b].kind, source, copy);
            &&& source != copy
            &&& is_database(done, copy, last)
            &&& database_index(done, copy) == last
            &&& is_database(done, source, s)
            &&& database_index(done, source) == s
            &&& add_field_error(done, copy, kind) is None
            &&& kind.target() != Some(source)
        }),
{
    let start = with_database(databases, empty_database(copy, name));
    let last = databases.len() as int;
    let source = databases[s].id;
    let field = databases[s].fields[b];
    let kind = redirected(field.kind, source, copy);
    assert(is_database(databases, source, s));
    assert(source != copy);
    assert(done[last].id == start[last].id);
    assert(done[s].id == start[s].id);
    assert(is_database(done, copy, last));
    database_index_is(done, copy, last);
    assert(is_database(done, source, s));
    database_index_is(done, source, s);
    if kind is Reference {
        assert(is_field(databases, s, b));
        assert(field_at(databases, s, b) == field);
        assert(has_counterpart(databases, s, b));
        let (j, m) = choose|j: int, m: int| #[trigger] are_paired(databases, s, b, j, m);
        if databases[j].id != source {
            assert(done[j].id == start[j].id);
            assert(is_database(done, databases[j].id, j));
        }
    }
}

proof fn copying_goes_on(
    databases: Seq<DatabaseView>,
    s: int,
    name: Seq<char>,
    copy: DatabaseId,
    ids: Seq<(FieldId, FieldId)>,
    n: nat,
)
    requires
        consistent(databases),
        0 <= s < databases.len(),
        !has_database(databases, copy),
        ids.len() == databases[s].fields.len(),
        are_fresh_ids(databases, ids),
        n <= databases[s].fields.len(),
    ensures
        copied_so_far(
            with_database(databases, empty_database(copy, name)),
            databases[s].fields,
            databases[s].id,
            copy,
            ids,
            n,
        ),
    decreases n,
{
    let start = with_database(databases, empty_database(copy, name));
    let fields = databases[s].fields;
    let source = databases[s].id;
    if n == 0 {
        create_database_keeps_consistent(databases, copy, name);
        assert(grows(start, start));
        assert forall|i: int, k: int| is_field(start, i, k) implies #[trigger] field_at(start, i, k)
            == field_at(databases, i, k) && is_field(databases, i, k) by {}
        assert forall|i: int| 0 <= i < ids.len() implies is_fresh_field(start, (#[trigger] ids[i]).0)
            && is_fresh_field(start, ids[i].1) by {}
    } else {
        let b = (n - 1) as nat;
        copying_goes_on(databases, s, name, copy, ids, b);
        let done = fields_copied(start, fields, source, copy, ids, b)->Ok_0;
        let field = fields[b as int];
        if !pairs_copied(fields, source, b).contains(field.id) {
            copy_is_possible(databases, s, name, copy, b as int, done);
            let kind = redirected(field.kind, source, copy);
            let field_id = ids[b as int].0;
            let back_id = ids[b as int].1;
            add_field_keeps_consistent(done, copy, field.name, kind, field_id, back_id);
            add_field_grows(done, copy, field.name, kind, field_id, back_id);
            let next = field_added(done, copy, field.name, kind, field_id, back_id);
            grows_on(start, done, next);
            let (l, t) = field_added_shape(done, copy, field.name, kind, field_id, back_id);
            assert(next.len() == done.len());
            assert forall|i: int| n <= i < ids.len() implies is_fresh_field(
                next,
                (#[trigger] ids[i]).0,
            ) && is_fresh_field(next, ids[i].1) by {
                assert(ids[b as int].0 != ids[i].0);
                add_field_keeps_fresh(done, copy, field.name, kind, field_id, back_id, ids[i].0);
                add_field_keeps_fresh(done, copy, field.name, kind, field_id, back_id, ids[i].1);
            }
        }
    }
}

/// Copying leaves the source as it is.
proof fn source_stays(
    databases: Seq<DatabaseView>,
    s: int,
    name: Seq<char>,
    copy: DatabaseId,
    ids: Seq<(FieldId, FieldId)>,
    n: nat,
)
    requires
        consistent(databases),
        0 <= s < databases.len(),
        !has_database(databases, copy),
        ids.len() == databases[s].fields.len(),
        are_fresh_ids(databases, ids),
        n <= databases[s].fields.len(),
    ensures
        fields_copied(
            with_database(databases, empty_database(copy, name)),
            databases[s].fields,
            databases[s].id,
            copy,
            ids,
            n,
        )->Ok_0[s] == databases[s],
    decreases n,
{
    let start = with_database(databases, empty_database(copy, name));
    let fields = databases[s].fields;
    let source = databases[s].id;
    if n > 0 {
        let b = (n - 1) as nat;
        source_stays(databases, s, name, copy, ids, b);
        copying_goes_on(databases, s, name, copy, ids, b);
        let done = fields_copied(start, fields, source, copy, ids, b)->Ok_0;
        let field = fields[b as int];
        if !pairs_copied(fields, source, b).contains(field.id) {
            copy_is_possible(databases, s, name, copy, b as int, done);
            let kind = redirected(field.kind, source, copy);
            let (l, t) = field_added_shape(
                done,
                copy,
                field.name,
                kind,
                ids[b as int].0,
                ids[b as int].1,
            );
            assert(l != s && t != s);
        }
    }
}

/// Whether the copy has a reference to itself.
spec fn has_own_reference(copied: Seq<FieldView>, copy: DatabaseId) -> bool {
    exists|m: int|
        0 <= m < copied.len() && unpaired((#[trigger] copied[m]).kind) == (
        FieldKindView::Reference { target_database: copy, paired_field: None })
}

/// What stands among some fields stands among more of them.
proof fn copied_stays(
    copied: Seq<FieldView>,
    grown: Seq<FieldView>,
    field: FieldView,
    source: DatabaseId,
    copy: DatabaseId,
    as_pair: bool,
)
    requires
        copied.is_prefix_of(grown),
    ensures
        is_copied(copied, field, source, copy, as_pair) ==> is_copied(
            grown,
            field,
            source,
            copy,
            as_pair,
        ),
        has_own_reference(copied, copy) ==> has_own_reference(grown, copy),
{
    assert forall|m: int| 0 <= m < copied.len() implies grown[m] == #[trigger] copied[m] by {
        assert(copied =~= grown.subrange(0, copied.len() as int));
        assert(grown.subrange(0, copied.len() as int)[m] == grown[m]);
    }
    if is_copied(copied, field, source, copy, as_pair) {
        let m = choose|m: int|
            {
                &&& 0 <= m < copied.len()
                &&& unpaired((#[trigger] copied[m]).kind) == redirected(field.kind, source, copy)
                &&& !as_pair ==> copied[m].name == field.name
            };
        assert(grown[m] == copied[m]);
    }
    if has_own_reference(copied, copy) {
        let m = choose|m: int|
            0 <= m < copied.len() && unpaired((#[trigger] copied[m]).kind) == (
            FieldKindView::Reference { target_database: copy, paired_field: None });
        assert(grown[m] == copied[m]);
    }
}

/// The fields of the copy after the first `n` fields have been copied.
spec fn copied_fields(
    databases: Seq<DatabaseView>,
    s: int,
    name: Seq<char>,
    copy: DatabaseId,
    ids: Seq<(FieldId, FieldId)>,
    n: nat,
) -> Seq<FieldView> {
    fields_copied(
        with_database(databases, empty_database(copy, name)),
        databases[s].fields,
        databases[s].id,
        copy,
        ids,
        n,
    )->Ok_0[databases.len() as int].fields
}

/// Copying one field puts it into the copy and keeps what is there.
proof fn one_is_copied(
    databases: Seq<DatabaseView>,
    s: int,
    name: Seq<char>,
    copy: DatabaseId,
    ids: Seq<(FieldId, FieldId)>,
    b: nat,
)
    requires
        consistent(databases),
        0 <= s < databases.len(),
        !has_database(databases, copy),
        ids.len() == databases[s].fields.len(),
        are_fresh_ids(databases, ids),
        b < databases[s].fields.len(),
    ensures
        ({
            let fields = databases[s].fields;
            let source = databases[s].id;
            let field = fields[b as int];
            let copied = copied_fields(databases, s, name, copy, ids, b);
            let grown = copied_fields(databases, s, name, copy, ids, (b + 1) as nat);
            &&& copied.is_prefix_of(grown)
            &&& !pairs_copied(fields, source, b).contains(field.id) ==> {
                &&& is_copied(grown, field, source, copy, false)
                &&& field.kind.target() == Some(source) ==> has_own_reference(grown, copy)
            }
        }),
{
    let start = with_database(databases, empty_database(copy, name));
    let fields = databases[s].fields;
    let source = databases[s].id;
    let last = databases.len() as int;
    copying_goes_on(databases, s, name, copy, ids, b);
    let done = fields_copied(start, fields, source, copy, ids, b)->Ok_0;
    let field = fields[b as int];
    let copied = done[last].fields;
    if !pairs_copied(fields, source, b).contains(field.id) {
        copy_is_possible(databases, s, name, copy, b as int, done);
        let kind = redirected(field.kind, source, copy);
        let field_id = ids[b as int].0;
        let back_id = ids[b as int].1;
        let (l, t) = field_added_shape(done, copy, field.name, kind, field_id, back_id);
        let grown = field_added(done, copy, field.name, kind, field_id, back_id)[last].fields;
        assert(copied =~= grown.subrange(0, copied.len() as int));
        let at = copied.len() as int;
        assert(grown[at].name == field.name && unpaired(grown[at].kind) == kind);
        assert(is_copied(grown, field, source, copy, false));
        if field.kind.target() == Some(source) {
            assert(unpaired(grown[at].kind) == (FieldKindView::Reference {
                target_database: copy,
                paired_field: None,
            }));
        }
    } else {
        assert(copied =~= copied.subrange(0, copied.len() as int));
    }
}

proof fn all_are_copied(
    databases: Seq<DatabaseView>,
    s: int,
    name: Seq<char>,
    copy: DatabaseId,
    ids: Seq<(FieldId, FieldId)>,
    n: nat,
)
    requires
        consistent(databases),
        0 <= s < databases.len(),
        !has_database(databases, copy),
        ids.len() == databases[s].fields.len(),
        are_fresh_ids(databases, ids),
        n <= databases[s].fields.len(),
    ensures
        forall|k: int|
            0 <= k < n ==> is_copied(
                copied_fields(databases, s, name, copy, ids, n),
                #[trigger] databases[s].fields[k],
                databases[s].id,
                copy,
                pairs_copied(databases[s].fields, databases[s].id, k as nat).contains(
                    databases[s].fields[k].id,
                ),
            ),
        forall|pair: FieldId| #[trigger]
            pairs_copied(databases[s].fields, databases[s].id, n).contains(pair)
                ==> has_own_reference(copied_fields(databases, s, name, copy, ids, n), copy),
    decreases n,
{
    if n > 0 {
        let b = (n - 1) as nat;
        let fields = databases[s].fields;
        let source = databases[s].id;
        all_are_copied(databases, s, name, copy, ids, b);
        one_is_copied(databases, s, name, copy, ids, b);
        let copied = copied_fields(databases, s, name, copy, ids, b);
        let grown = copied_fields(databases, s, name, copy, ids, n);
        assert forall|k: int| 0 <= k < n implies is_copied(
            grown,
            #[trigger] fields[k],
            source,
            copy,
            pairs_copied(fields, source, k as nat).contains(fields[k].id),
        ) by {
            let as_pair = pairs_copied(fields, source, k as nat).contains(fields[k].id);
            if k < b {
                copied_stays(copied, grown, fields[k], source, copy, as_pair);
            } else if as_pair {
                pairs_copied_are_own(databases, s, b, k);
                assert(has_own_reference(copied, copy));
                copied_stays(copied, grown, fields[k], source, copy, as_pair);
                let m = choose|m: int|
                    0 <= m < grown.len() && unpaired((#[trigger] grown[m]).kind) == (
                    FieldKindView::Reference { target_database: copy, paired_field: None });
                assert(unpaired(grown[m].kind) == redirected(fields[k].kind, source, copy));
            }
        }
        assert forall|pair: FieldId| #[trigger]
            pairs_copied(fields, source, n).contains(pair) implies has_own_reference(
            grown,
            copy,
        ) by {
            if pairs_copied(fields, source, b).contains(pair) {
                copied_stays(copied, grown, fields[b as int], source, copy, true);
            }
        }
    }
}

/// Duplicating a database of a consistent registry under ids of their own
/// always succeeds, keeps the registry consistent and takes nothing away. The
/// source stays as it was, and every field of it has its copy, a reference of the source to itself
/// as a reference of the copy to itself.
pub proof fn duplicate_database_schema_copies(
    databases: Seq<DatabaseView>,
    source: DatabaseId,
    name: Seq<char>,
    copy: DatabaseId,
    ids: Seq<(FieldId, FieldId)>,
)
    requires
        consistent(databases),
        has_database(databases, source),
        !has_database(databases, copy),
        ids.len() == database_of(databases, source).fields.len(),
        are_fresh_ids(databases, ids),
    ensures
        schema_duplicated(databases, source, name, copy, ids) matches Ok(after) && {
            let fields = database_of(databases, source).fields;
            &&& consistent(after)
            &&& grows(databases, after)
            &&& has_database(after, copy)
            &&& database_of(after, source) == database_of(databases, source)
            &&& forall|k: int|
                0 <= k < fields.len() ==> is_copied(
                    database_of(after, copy).fields,
                    #[trigger] fields[k],
                    source,
                    copy,
                    pairs_copied(fields, source, k as nat).contains(fields[k].id),
                )
        },
{
    let s = database_index(databases, source);
    assert(is_database(databases, source, s));
    database_index_is(databases, source, s);
    let start = with_database(databases, empty_database(copy, name));
    with_database_distinct(databases, empty_database(copy, name));
    assert(is_database(start, source, s));
    database_index_is(start, source, s);
    let n = databases[s].fields.len();
    copying_goes_on(databases, s, name, copy, ids, n);
    source_stays(databases, s, name, copy, ids, n);
    all_are_copied(databases, s, name, copy, ids, n);
    let after = schema_duplicated(databases, source, name, copy, ids)->Ok_0;
    assert(after[databases.len() as int].id == start[databases.len() as int].id);
    assert(is_database(after, copy, databases.len() as int));
    database_index_is(after, copy, databases.len() as int);
    assert(is_database(after, source, s));
    database_index_is(after, source, s);
    create_database_grows(databases, copy, name);
    grows_on(databases, start, after);
}

/// Whether an earlier field refers to the source itself and has the `k`th field
/// for its pair, so that the `k`th is made with it.
pub open spec fn is_made_with_an_earlier(
    fields: Seq<FieldView>,
    source: DatabaseId,
    k: int,
    n: int,
) -> bool {
    exists|j: int|
        0 <= j < n && (#[trigger] fields[j]).kind == (FieldKindView::Reference {
            target_database: source,
            paired_field: Some(fields[k].id),
        })
}

/// A field's id, its name and its kind.
pub open spec fn contents(fields: Seq<FieldView>) -> Seq<(FieldId, Seq<char>, FieldKindView)> {
    fields.map_values(|field: FieldView| (field.id, field.name, field.kind))
}

/// What stands in the copy for the `k`th field of the source: the field itself
/// under its new id. A reference has its new pair, and one of the source to
/// itself is one of the copy to itself, with its pair behind it.
pub open spec fn copy_of(
    fields: Seq<FieldView>,
    source: DatabaseId,
    name: Seq<char>,
    copy: DatabaseId,
    ids: Seq<(FieldId, FieldId)>,
    k: int,
) -> Seq<(FieldId, Seq<char>, FieldKindView)> {
    if is_made_with_an_earlier(fields, source, k, k) {
        Seq::empty()
    } else {
        match fields[k].kind {
            FieldKindView::Reference { target_database, .. } => if target_database == source {
                seq![
                    (
                        ids[k].0,
                        fields[k].name,
                        FieldKindView::Reference {
                            target_database: copy,
                            paired_field: Some(ids[k].1),
                        },
                    ),
                    (
                        ids[k].1,
                        name + " (via "@ + fields[k].name + ")"@,
                        FieldKindView::Reference {
                            target_database: copy,
                            paired_field: Some(ids[k].0),
                        },
                    ),
                ]
            } else {
                seq![
                    (
                        ids[k].0,
                        fields[k].name,
                        FieldKindView::Reference { target_database, paired_field: Some(ids[k].1) },
                    ),
                ]
            },
            kind => seq![(ids[k].0, fields[k].name, kind)],
        }
    }
}

/// What comes to another database for the `k`th field of the source: the
/// back-reference to the copy, where the field points at that database.
pub open spec fn back_of(
    fields: Seq<FieldView>,
    name: Seq<char>,
    copy: DatabaseId,
    ids: Seq<(FieldId, FieldId)>,
    target: DatabaseId,
    k: int,
) -> Seq<(FieldId, Seq<char>, FieldKindView)> {
    match fields[k].kind {
        FieldKindView::Reference { target_database, .. } if target_database == target => seq![
            (
                ids[k].1,
                name + " (via "@ + fields[k].name + ")"@,
                FieldKindView::Reference { target_database: copy, paired_field: Some(ids[k].0) },
            ),
        ],
        _ => Seq::empty(),
    }
}

/// The pairs that were made are those of the earlier fields.
proof fn pairs_are_made_with_earlier(databases: Seq<DatabaseView>, s: int, n: int, k: int)
    requires
        consistent(databases),
        0 <= s < databases.len(),
        0 <= n <= k < databases[s].fields.len(),
    ensures
        pairs_copied(databases[s].fields, databases[s].id, n as nat).contains(
            databases[s].fields[k].id,
        ) <==> is_made_with_an_earlier(databases[s].fields, databases[s].id, k, n),
    decreases n,
{
    let fields = databases[s].fields;
    let source = databases[s].id;
    if n > 0 {
        let b = n - 1;
        let before = pairs_copied(fields, source, b as nat);
        let own = FieldKindView::Reference {
            target_database: source,
            paired_field: Some(fields[k].id),
        };
        pairs_are_made_with_earlier(databases, s, b, k);
        pairs_are_made_with_earlier(databases, s, b, b);
        if fields[b].kind == own {
            if before.contains(fields[b].id) {
                let i = choose|i: int|
                    0 <= i < b && (#[trigger] fields[i]).kind == (FieldKindView::Reference {
                        target_database: source,
                        paired_field: Some(fields[b].id),
                    });
                assert(is_field(databases, s, i) && field_at(databases, s, i) == fields[i]);
                assert(has_counterpart(databases, s, i));
                let (j, m) = choose|j: int, m: int| #[trigger] are_paired(databases, s, i, j, m);
                assert(is_field(databases, s, b) && field_at(databases, s, b) == fields[b]);
                assert(field_at(databases, j, m).id == field_at(databases, s, b).id);
                assert(j == s && m == b);
                assert(fields[i].id == fields[k].id);
                assert(is_field(databases, s, k) && field_at(databases, s, k) == fields[k]);
                assert(field_at(databases, s, i).id != field_at(databases, s, k).id);
            }
        }
        if is_made_with_an_earlier(fields, source, k, b) {
            let j = choose|j: int| 0 <= j < b && (#[trigger] fields[j]).kind == own;
            assert(fields[j].kind == own);
        }
        if is_made_with_an_earlier(fields, source, k, n) {
            let j = choose|j: int| 0 <= j < n && (#[trigger] fields[j]).kind == own;
            if j < b {
                assert(is_made_with_an_earlier(fields, source, k, b));
            }
        }
    }
}

/// What the databases hold after the first `n` fields were copied.
proof fn copies_so_far(
    databases: Seq<DatabaseView>,
    s: int,
    name: Seq<char>,
    copy: DatabaseId,
    ids: Seq<(FieldId, FieldId)>,
    n: nat,
)
    requires
        consistent(databases),
        0 <= s < databases.len(),
        !has_database(databases, copy),
        ids.len() == databases[s].fields.len(),
        are_fresh_ids(databases, ids),
        n <= databases[s].fields.len(),
        databases[s].fields.len() <= 0x3fff_ffff,
    ensures
        ({
            let fields = databases[s].fields;
            let source = databases[s].id;
            let start = with_database(databases, empty_database(copy, name));
            let done = fields_copied(start, fields, source, copy, ids, n)->Ok_0;
            let copied = done[databases.len() as int].fields;
            &&& contents(copied) == Seq::new(
                n,
                |k: int| copy_of(fields, source, name, copy, ids, k),
            ).flatten()
            &&& copied.len() <= 2 * n
            &&& forall|m: int| 0 <= m < copied.len() ==> (#[trigger] copied[m]).ordering == m
            &&& forall|t: int|
                0 <= t < databases.len() && t != s ==> contents((#[trigger] done[t]).fields)
                    == contents(databases[t].fields) + Seq::new(
                    n,
                    |k: int| back_of(fields, name, copy, ids, databases[t].id, k),
                ).flatten()
        }),
    decreases n,
{
    broadcast use Seq::lemma_flatten_push;

    let fields = databases[s].fields;
    let source = databases[s].id;
    let start = with_database(databases, empty_database(copy, name));
    let last = databases.len() as int;
    let piece = |k: int| copy_of(fields, source, name, copy, ids, k);
    if n == 0 {
        assert(Seq::new(0, piece) =~= Seq::empty());
        assert(Seq::new(0, piece).flatten() =~= Seq::empty());
        assert(contents(start[last].fields) =~= Seq::empty());
        assert forall|t: int| 0 <= t < databases.len() && t != s implies contents(
            (#[trigger] start[t]).fields,
        ) == contents(databases[t].fields) + Seq::new(
            0,
            |k: int| back_of(fields, name, copy, ids, databases[t].id, k),
        ).flatten() by {
            let backs = Seq::new(0, |k: int| back_of(fields, name, copy, ids, databases[t].id, k));
            assert(backs =~= Seq::empty());
            assert(backs.flatten() =~= Seq::empty());
            assert(contents(databases[t].fields) + backs.flatten() =~= contents(
                databases[t].fields,
            ));
        }
    } else {
        let b = (n - 1) as nat;
        let k = b as int;
        copies_so_far(databases, s, name, copy, ids, b);
        copying_goes_on(databases, s, name, copy, ids, b);
        let done = fields_copied(start, fields, source, copy, ids, b)->Ok_0;
        let next = fields_copied(start, fields, source, copy, ids, n)->Ok_0;
        let field = fields[k];
        pairs_are_made_with_earlier(databases, s, k, k);
        assert(Seq::new(n, piece) =~= Seq::new(b, piece).push(piece(k)));
        let copied = done[last].fields;
        if pairs_copied(fields, source, b).contains(field.id) {
            assert(next == done);
            assert(contents(copied) + piece(k) =~= contents(copied));
            pairs_copied_are_own(databases, s, b, k);
            assert forall|t: int| 0 <= t < databases.len() && t != s implies contents(
                (#[trigger] next[t]).fields,
            ) == contents(databases[t].fields) + Seq::new(
                n,
                |j: int| back_of(fields, name, copy, ids, databases[t].id, j),
            ).flatten() by {
                assert(databases[t].id != source);
                back_is_added(databases[t].fields, fields, name, copy, ids, databases[t].id, b);
                assert(done[t] == next[t]);
                assert(contents(done[t].fields) + Seq::empty() =~= contents(done[t].fields));
            }
        } else {
            copy_is_possible(databases, s, name, copy, k, done);
            let kind = redirected(field.kind, source, copy);
            let (l, at) = field_added_shape(done, copy, field.name, kind, ids[k].0, ids[k].1);
            assert(l == last);
            assert(done[last].name == start[last].name);
            let grown = next[last].fields;
            assert(copied.len() <= 0x7fff_ffff);
            if kind is Reference {
                assert(at == last <==> field.kind.target() == Some(source)) by {
                    if at == last {
                        assert(kind.target() == Some(copy));
                        if field.kind.target() != Some(source) {
                            assert(is_field(databases, s, k) && field_at(databases, s, k) == field);
                            assert(has_counterpart(databases, s, k));
                            let (j, m) = choose|j: int, m: int| #[trigger]
                                are_paired(databases, s, k, j, m);
                            assert(is_database(databases, copy, j));
                        }
                    }
                }
            }
            assert(contents(grown) =~= contents(copied) + piece(k));
            assert forall|m: int| 0 <= m < grown.len() implies (#[trigger] grown[m]).ordering
                == m by {
                if m < copied.len() {
                    assert(grown[m] == copied[m]);
                }
            }
            assert forall|t: int| 0 <= t < databases.len() && t != s implies contents(
                (#[trigger] next[t]).fields,
            ) == contents(databases[t].fields) + Seq::new(
                n,
                |j: int| back_of(fields, name, copy, ids, databases[t].id, j),
            ).flatten() by {
                back_is_added(databases[t].fields, fields, name, copy, ids, databases[t].id, b);
                assert(done[t].id == start[t].id);
                let back = back_of(fields, name, copy, ids, databases[t].id, k);
                if kind is Reference && at == t {
                    assert(field.kind.target() == Some(databases[t].id));
                    assert(contents(next[t].fields) =~= contents(done[t].fields) + back);
                } else {
                    assert(next[t] == done[t]);
                    assert(back =~= Seq::empty()) by {
                        if field.kind.target() == Some(databases[t].id) {
                            assert(databases[t].id != source);
                            assert(done[at].id == databases[t].id);
                            assert(done[t].id == databases[t].id);
                        }
                    }
                    assert(contents(done[t].fields) + back =~= contents(done[t].fields));
                }
            }
        }
    }
}

/// One more field brings its back-reference behind those of the others.
proof fn back_is_added(
    own: Seq<FieldView>,
    fields: Seq<FieldView>,
    name: Seq<char>,
    copy: DatabaseId,
    ids: Seq<(FieldId, FieldId)>,
    target: DatabaseId,
    b: nat,
)
    ensures
        contents(own) + Seq::new(
            (b + 1) as nat,
            |k: int| back_of(fields, name, copy, ids, target, k),
        ).flatten() == contents(own) + Seq::new(
            b,
            |k: int| back_of(fields, name, copy, ids, target, k),
        ).flatten() + back_of(fields, name, copy, ids, target, b as int),
{
    broadcast use Seq::lemma_flatten_push;

    let piece = |k: int| back_of(fields, name, copy, ids, target, k);
    assert(Seq::new((b + 1) as nat, piece) =~= Seq::new(b, piece).push(piece(b as int)));
    assert(contents(own) + (Seq::new(b, piece).flatten() + piece(b as int)) =~= contents(own)
        + Seq::new(b, piece).flatten() + piece(b as int));
}

/// Duplicating a database gives one behind the others, under the id and the
/// name that were asked for. It has the source's fields one after the other
/// under their new ids, each with its name and its kind, options and plugin
/// included; only a reference of the source to itself is one of the copy to
/// itself, and stands together with its pair. A database that the source
/// points at is given the back-references to the copy, and nothing else
/// changes.
pub proof fn duplicate_holds_the_same_fields(
    databases: Seq<DatabaseView>,
    s: int,
    name: Seq<char>,
    copy: DatabaseId,
    ids: Seq<(FieldId, FieldId)>,
)
    requires
        consistent(databases),
        0 <= s < databases.len(),
        forall|i: int| 0 <= i < databases.len() ==> (#[trigger] databases[i]).id != copy,
        ids.len() == databases[s].fields.len(),
        are_fresh_ids(databases, ids),
        databases[s].fields.len() <= 0x3fff_ffff,
    ensures
        schema_duplicated(databases, databases[s].id, name, copy, ids) matches Ok(after) && {
            let fields = databases[s].fields;
            let last = databases.len() as int;
            &&& after.len() == databases.len() + 1
            &&& after[last].id == copy
            &&& after[last].name == name
            &&& contents(after[last].fields) == Seq::new(
                fields.len(),
                |k: int| copy_of(fields, databases[s].id, name, copy, ids, k),
            ).flatten()
            &&& forall|m: int|
                0 <= m < after[last].fields.len() ==> (
                #[trigger] after[last].fields[m]).ordering == m
            &&& after[s] == databases[s]
            &&& forall|t: int|
                0 <= t < databases.len() ==> (#[trigger] after[t]).id == databases[t].id
                    && after[t].name == databases[t].name
            &&& forall|t: int|
                0 <= t < databases.len() && t != s ==> contents((#[trigger] after[t]).fields)
                    == contents(databases[t].fields) + Seq::new(
                    fields.len(),
                    |k: int| back_of(fields, name, copy, ids, databases[t].id, k),
                ).flatten()
        },
{
    let n = databases[s].fields.len();
    let source = databases[s].id;
    assert(is_database(databases, source, s));
    database_index_is(databases, source, s);
    let start = with_database(databases, empty_database(copy, name));
    copying_goes_on(databases, s, name, copy, ids, n);
    source_stays(databases, s, name, copy, ids, n);
    copies_so_far(databases, s, name, copy, ids, n);
    let after = schema_duplicated(databases, source, name, copy, ids)->Ok_0;
    assert(after[databases.len() as int].id == start[databases.len() as int].id);
    assert(after[databases.len() as int].name == start[databases.len() as int].name);
    assert forall|t: int| 0 <= t < databases.len() implies (#[trigger] after[t]).id
        == databases[t].id && after[t].name == databases[t].name by {
        assert(after[t].id == start[t].id);
    }
}

/// Whether some field has this name and this kind.
pub open spec fn has_field_of(
    fields: Seq<FieldView>,
    name: Seq<char>,
    kind: FieldKindView,
) -> bool {
    exists|m: int|
        0 <= m < fields.len() && (#[trigger] fields[m]).name == name && fields[m].kind == kind
}

/// Whether some field has this name and points at this database.
pub open spec fn has_reference_to(
    fields: Seq<FieldView>,
    name: Seq<char>,
    target: DatabaseId,
) -> bool {
    exists|m: int|
        0 <= m < fields.len() && (#[trigger] fields[m]).name == name && (
        fields[m].kind matches FieldKindView::Reference { target_database, .. } && target_database
            == target)
}

/// For every field of the source that is no reference the duplicate has one of
/// the same name and of the very same kind. For every reference to another
/// database it has one of the same name to that database, and for every
/// reference of the source to itself one of itself to itself, of the same name
/// unless it was made as the pair of an earlier one.
pub proof fn every_field_is_in_the_duplicate(
    databases: Seq<DatabaseView>,
    s: int,
    name: Seq<char>,
    copy: DatabaseId,
    ids: Seq<(FieldId, FieldId)>,
    k: int,
)
    requires
        consistent(databases),
        0 <= s < databases.len(),
        forall|i: int| 0 <= i < databases.len() ==> (#[trigger] databases[i]).id != copy,
        ids.len() == databases[s].fields.len(),
        are_fresh_ids(databases, ids),
        databases[s].fields.len() <= 0x3fff_ffff,
        0 <= k < databases[s].fields.len(),
    ensures
        schema_duplicated(databases, databases[s].id, name, copy, ids) matches Ok(after) && {
            let field = databases[s].fields[k];
            let copied = after[databases.len() as int].fields;
            match field.kind {
                FieldKindView::Reference { target_database, .. } => if target_database
                    != databases[s].id {
                    has_reference_to(copied, field.name, target_database)
                } else {
                    is_made_with_an_earlier(databases[s].fields, databases[s].id, k, k)
                        || has_reference_to(copied, field.name, copy)
                },
                kind => has_field_of(copied, field.name, kind),
            }
        },
{
    duplicate_holds_the_same_fields(databases, s, name, copy, ids);
    let fields = databases[s].fields;
    let source = databases[s].id;
    let field = fields[k];
    let copied = schema_duplicated(
        databases,
        source,
        name,
        copy,
        ids,
    )->Ok_0[databases.len() as int].fields;
    let pieces = Seq::new(
        fields.len(),
        |j: int| copy_of(fields, source, name, copy, ids, j),
    );
    if field.kind.target() != Some(source) && is_made_with_an_earlier(fields, source, k, k) {
        pairs_are_made_with_earlier(databases, s, k, k);
        pairs_copied_are_own(databases, s, k as nat, k);
    }
    if !is_made_with_an_earlier(fields, source, k, k) {
        let m = piece_is_in(pieces, k, 0);
        assert(contents(copied)[m] == pieces[k][0]);
        assert(copied[m].name == field.name);
    }
}

/// An element of a piece stands in the whole.
proof fn piece_is_in<A>(pieces: Seq<Seq<A>>, k: int, i: int) -> (m: int)
    requires
        0 <= k < pieces.len(),
        0 <= i < pieces[k].len(),
    ensures
        0 <= m < pieces.flatten().len(),
        pieces.flatten()[m] == pieces[k][i],
    decreases pieces.len(),
{
    broadcast use Seq::lemma_flatten_push;

    let rest = pieces.drop_last();
    assert(pieces =~= rest.push(pieces.last()));
    if k == pieces.len() - 1 {
        rest.flatten().len() + i
    } else {
        assert(rest[k] == pieces[k]);
        piece_is_in(rest, k, i)
    }
}

} // verus!
