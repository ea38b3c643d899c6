//! When records can be related, how a relationship is stored, and what is
//! read of it.

use vstd::prelude::*;

use crate::error::ErrorView;
use crate::ids::{DatabaseId, FieldId, Link, ReferenceId};
use crate::kind::{pairing_of, parsed_uuid};
use crate::naming::{column_of_side, opposite, ordered_pair, reference_table_of, side_of};
use crate::reference::Reference;
use crate::registry::found_field;
use crate::relations::{
    delete_reference_step, insert_reference_step, is_related, is_target, read_references,
    reference_created,
};
use crate::schema::{DatabaseView, FieldKindView, FieldView};
use crate::setting_laws::{located_where_it_stands, stands_at};
use crate::steps::StepView;
use crate::uuids::{simple_text, uuid_text, uuid_text_reads_back};

verus! {

/// A reference with its pair says where it points and what it is paired with.
/// A reference without one is refused, and so is every other field, each for
/// what it is.
pub proof fn only_references_are_paired(
    id: FieldId,
    name: Seq<char>,
    target: DatabaseId,
    pair: FieldId,
    ordering: i32,
)
    ensures
        pairing_of(
            FieldView {
                id,
                name,
                kind: FieldKindView::Reference {
                    target_database: target,
                    paired_field: Some(pair),
                },
                ordering,
            },
        ) == Ok::<(DatabaseId, FieldId), ErrorView>((target, pair)),
        pairing_of(
            FieldView {
                id,
                name,
                kind: FieldKindView::Reference { target_database: target, paired_field: None },
                ordering,
            },
        ) == Err::<(DatabaseId, FieldId), ErrorView>(
            ErrorView::Storage(
                "reference field "@ + uuid_text(id.0) + " is missing its paired field"@,
            ),
        ),
        forall|field: FieldView|
            field.kind !is Reference ==> (#[trigger] pairing_of(field) matches Err(
                ErrorView::UnsupportedFieldKindForValue { field: named, .. },
            ) && named == field.id),
{
}

/// A record can be related through a paired reference field of its database to
/// every record of the database that the field points at. The relationship
/// then is between just these two records, through the field and its pair. A
/// record of another database is refused, and the refusal names both
/// databases; so is a record that is not there.
pub proof fn records_are_related_through_references(
    databases: Seq<DatabaseView>,
    d: int,
    k: int,
    target_database: DatabaseId,
    pair: FieldId,
    source: Link,
    target: Link,
    actual: DatabaseId,
    id: ReferenceId,
)
    requires
        stands_at(databases, d, k),
        databases[d].fields[k].kind == (FieldKindView::Reference {
            target_database,
            paired_field: Some(pair),
        }),
    ensures
        ({
            let field = databases[d].fields[k].id;
            let row = Some(uuid_text(databases[d].id.0));
            let created = reference_created(
                databases,
                source,
                field,
                target,
                row,
                Some(uuid_text(actual.0)),
                id,
            );
            &&& actual == target_database ==> (created matches Ok(reference) && {
                &&& reference.id == id
                &&& reference.source_link == source
                &&& reference.source_field == field
                &&& reference.target_link == target
                &&& reference.target_field == pair
            })
            &&& actual != target_database ==> created == Err::<Reference, ErrorView>(
                ErrorView::ReferenceTargetDatabaseMismatch {
                    field,
                    expected: target_database,
                    actual,
                },
            )
            &&& reference_created(databases, source, field, target, row, None, id) == Err::<
                Reference,
                ErrorView,
            >(ErrorView::RecordNotFound(target))
            &&& reference_created(databases, source, field, target, None, row, id) == Err::<
                Reference,
                ErrorView,
            >(ErrorView::RecordNotFound(source))
        }),
{
    located_where_it_stands(databases, d, k, source);
    uuid_text_reads_back(actual.0);
    assert(DatabaseId(actual.0) == actual);
}

/// Nothing can be related through a field that is no reference, whatever the
/// other record is.
pub proof fn records_are_related_through_nothing_else(
    databases: Seq<DatabaseView>,
    d: int,
    k: int,
    source: Link,
    target: Link,
    target_row: Option<Seq<char>>,
    id: ReferenceId,
)
    requires
        stands_at(databases, d, k),
        databases[d].fields[k].kind !is Reference,
    ensures
        reference_created(
            databases,
            source,
            databases[d].fields[k].id,
            target,
            Some(uuid_text(databases[d].id.0)),
            target_row,
            id,
        ) matches Err(ErrorView::UnsupportedFieldKindForValue { field, .. }) && field
            == databases[d].fields[k].id,
{
    located_where_it_stands(databases, d, k, source);
}

/// Whichever of the two records a relationship is created from, the record of
/// the field with the lower id stands in the first column and the other in the
/// second.
pub proof fn lower_field_stands_first(reference: Reference)
    ensures
        ({
            let step = insert_reference_step(reference);
            let (own, other) = (reference.source_field, reference.target_field);
            &&& step matches StepView::InsertReference { field, pair, id, link_a, link_b } && {
                &&& field == own
                &&& pair == other
                &&& id == reference.id
                &&& own.0 <= other.0 ==> link_a == reference.source_link && link_b
                    == reference.target_link
                &&& own.0 > other.0 ==> link_a == reference.target_link && link_b
                    == reference.source_link
            }
        }),
{
}

/// Two paired fields name one table, after the lower of their ids, and each has
/// its own column in it: the lower the first, the other the second.
pub proof fn pair_shares_a_table(a: FieldId, b: FieldId)
    ensures
        reference_table_of(a, b) == reference_table_of(b, a),
        a.0 <= b.0 ==> {
            &&& reference_table_of(a, b) == "ref_"@ + simple_text(a.0)
            &&& ordered_pair(a, b) == (a, b)
            &&& column_of_side(side_of(a, b)) == "link_a"@
        },
        a.0 < b.0 ==> {
            &&& ordered_pair(b, a) == (a, b)
            &&& column_of_side(side_of(b, a)) == "link_b"@
            &&& column_of_side(opposite(side_of(a, b))) == "link_b"@
            &&& column_of_side(opposite(side_of(b, a))) == "link_a"@
        },
{
}

/// A relationship is deleted through either of its fields, wherever the field
/// stands. A field that is nowhere is named, and a field that is no reference
/// is refused.
pub proof fn relationships_are_deleted_through_references(
    databases: Seq<DatabaseView>,
    owner: DatabaseId,
    definition: FieldView,
    field: FieldId,
    id: ReferenceId,
)
    ensures
        found_field(databases, field) is None ==> delete_reference_step(databases, id, field)
            == Err::<StepView, ErrorView>(ErrorView::FieldNotFound(field)),
        found_field(databases, field) == Some((owner, definition)) ==> match definition.kind {
            FieldKindView::Reference { paired_field: Some(pair), .. } => delete_reference_step(
                databases,
                id,
                field,
            ) == Ok::<StepView, ErrorView>(StepView::DeleteReference { field, pair, id }),
            FieldKindView::Reference { .. } => delete_reference_step(databases, id, field) is Err,
            _ => delete_reference_step(databases, id, field) matches Err(
                ErrorView::UnsupportedFieldKindForValue { field: named, .. },
            ) && named == definition.id,
        },
{
}

/// Every row of a record's relationships is read as one, in the order of the
/// rows: under its own id, seen from the record that was asked about, with the
/// record of the row at the other end.
pub proof fn relationships_are_read(
    link: Link,
    field: FieldId,
    pair: FieldId,
    ids: Seq<ReferenceId>,
    others: Seq<Link>,
)
    requires
        ids.len() == others.len(),
    ensures
        ({
            let rows = Seq::new(
                ids.len(),
                |i: int| (uuid_text(ids[i].0), uuid_text(others[i].0)),
            );
            read_references(link, field, pair, rows) matches Ok(references) && {
                &&& references.len() == ids.len()
                &&& forall|i: int|
                    0 <= i < ids.len() ==> {
                        &&& (#[trigger] references[i]).id == ids[i]
                        &&& references[i].source_link == link
                        &&& references[i].source_field == field
                        &&& references[i].target_link == others[i]
                        &&& references[i].target_field == pair
                    }
            }
        }),
    decreases ids.len(),
{
    let rows = Seq::new(ids.len(), |i: int| (uuid_text(ids[i].0), uuid_text(others[i].0)));
    if ids.len() > 0 {
        let fewer = ids.drop_last();
        let rest = others.drop_last();
        relationships_are_read(link, field, pair, fewer, rest);
        assert(rows.drop_last() =~= Seq::new(
            fewer.len(),
            |i: int| (uuid_text(fewer[i].0), uuid_text(rest[i].0)),
        ));
        uuid_text_reads_back(ids.last().0);
        uuid_text_reads_back(others.last().0);
        let before = read_references(link, field, pair, rows.drop_last())->Ok_0;
        let references = read_references(link, field, pair, rows)->Ok_0;
        assert forall|i: int| 0 <= i < ids.len() implies {
            &&& (#[trigger] references[i]).id == ids[i]
            &&& references[i].source_link == link
            &&& references[i].source_field == field
            &&& references[i].target_link == others[i]
            &&& references[i].target_field == pair
        } by {
            if i < fewer.len() {
                assert(references[i] == before[i]);
            }
        }
    }
}

/// A row whose id or whose record cannot be read fails the whole list, with
/// what is wrong with the first of them.
pub proof fn bad_relationships_are_refused(
    link: Link,
    field: FieldId,
    pair: FieldId,
    good: Seq<(Seq<char>, Seq<char>)>,
    bad: (Seq<char>, Seq<char>),
)
    requires
        read_references(link, field, pair, good) is Ok,
    ensures
        parsed_uuid(bad.0) matches Err(error) ==> read_references(link, field, pair, good.push(bad))
            == Err::<Seq<Reference>, ErrorView>(error),
        parsed_uuid(bad.0) is Ok ==> (parsed_uuid(bad.1) matches Err(error) ==> read_references(
            link,
            field,
            pair,
            good.push(bad),
        ) == Err::<Seq<Reference>, ErrorView>(error)),
{
    assert(good.push(bad).drop_last() =~= good);
}

/// The records that a record is related to are just those at the other end of
/// some relationship of some list.
pub proof fn related_are_those_at_the_other_end(
    lists: Seq<Vec<Reference>>,
    i: int,
    k: int,
    link: Link,
)
    ensures
        0 <= i < lists.len() && 0 <= k < lists[i]@.len() ==> is_related(
            lists,
            lists[i]@[k].target_link,
        ),
        (forall|a: int, b: int|
            0 <= a < lists.len() && 0 <= b < lists[a]@.len() ==> (
            #[trigger] lists[a]@[b]).target_link != link) ==> !is_related(lists, link),
{
    if 0 <= i < lists.len() && 0 <= k < lists[i]@.len() {
        assert(is_target(lists, lists[i]@[k].target_link, i, k));
    }
}

} // verus!
