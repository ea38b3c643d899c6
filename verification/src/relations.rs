//! Operations on references: creating, listing and deleting relationships
//! between records.

use vstd::prelude::*;

use crate::error::{DataLineError, ErrorView, Result};
use crate::ids::{FieldId, Link, ReferenceId};
use crate::kind::{pairing_of, parse_uuid, parsed_uuid, reference_pairing};
use crate::naming::{reference_side, side_of, ReferenceSide};
use crate::queries::{Query, QueryView};
use crate::records::{ids_of, located_field, reference_fields, resolve_database_id, resolved};
use crate::reference::Reference;
use crate::registry::{database_of, found_field, has_database};
use crate::schema::DatabaseView;
use crate::steps::{Step, StepView};
use crate::store::Store;
use crate::text::view_of;
use crate::uuids::is_version_four;

verus! {

/// The two links in the order of the pair's columns.
pub open spec fn in_columns(field: FieldId, pair: FieldId, own: Link, other: Link) -> (Link, Link) {
    match side_of(field, pair) {
        ReferenceSide::A => (own, other),
        ReferenceSide::B => (other, own),
    }
}

/// The relationship to be created, or why it cannot be. The rows are what the
/// queries for the two records' databases gave.
pub open spec fn reference_created(
    databases: Seq<DatabaseView>,
    source_link: Link,
    source_field: FieldId,
    target_link: Link,
    source_row: Option<Seq<char>>,
    target_row: Option<Seq<char>>,
    id: ReferenceId,
) -> core::result::Result<Reference, ErrorView> {
    match located_field(databases, source_link, source_row, source_field) {
        Err(error) => Err(error),
        Ok((_, field)) => match pairing_of(field) {
            Err(error) => Err(error),
            Ok((target_database, target_field)) => match resolved(target_link, target_row) {
                Err(error) => Err(error),
                Ok(actual) => if actual != target_database {
                    Err(
                        ErrorView::ReferenceTargetDatabaseMismatch {
                            field: source_field,
                            expected: target_database,
                            actual,
                        },
                    )
                } else {
                    Ok(Reference { id, source_link, source_field, target_link, target_field })
                },
            },
        },
    }
}

/// The step that stores a relationship.
pub open spec fn insert_reference_step(reference: Reference) -> StepView {
    let links = in_columns(
        reference.source_field,
        reference.target_field,
        reference.source_link,
        reference.target_link,
    );
    StepView::InsertReference {
        field: reference.source_field,
        pair: reference.target_field,
        id: reference.id,
        link_a: links.0,
        link_b: links.1,
    }
}

/// What deleting a relationship takes, or why it cannot be done.
pub open spec fn delete_reference_step(
    databases: Seq<DatabaseView>,
    id: ReferenceId,
    field: FieldId,
) -> core::result::Result<StepView, ErrorView> {
    match found_field(databases, field) {
        None => Err(ErrorView::FieldNotFound(field)),
        Some((_, definition)) => match pairing_of(definition) {
            Err(error) => Err(error),
            Ok((_, pair)) => Ok(StepView::DeleteReference { field, pair, id }),
        },
    }
}

/// A relationship as it was read: its id, and the record at the other end.
pub open spec fn read_reference(
    link: Link,
    field: FieldId,
    target_field: FieldId,
    row: (Seq<char>, Seq<char>),
) -> core::result::Result<Reference, ErrorView> {
    match (parsed_uuid(row.0), parsed_uuid(row.1)) {
        (Err(error), _) => Err(error),
        (_, Err(error)) => Err(error),
        (Ok(id), Ok(target)) => Ok(
            Reference {
                id: ReferenceId(id),
                source_link: link,
                source_field: field,
                target_link: Link(target),
                target_field,
            },
        ),
    }
}

/// The relationships that the rows stand for, or what is wrong with the first
/// bad one.
pub open spec fn read_references(
    link: Link,
    field: FieldId,
    target_field: FieldId,
    rows: Seq<(Seq<char>, Seq<char>)>,
) -> core::result::Result<Seq<Reference>, ErrorView>
    decreases rows.len(),
{
    if rows.len() == 0 {
        Ok(Seq::empty())
    } else {
        match read_references(link, field, target_field, rows.drop_last()) {
            Err(error) => Err(error),
            Ok(references) => match read_reference(link, field, target_field, rows.last()) {
                Err(error) => Err(error),
                Ok(reference) => Ok(references.push(reference)),
            },
        }
    }
}

proof fn read_failure_stays(
    link: Link,
    field: FieldId,
    target_field: FieldId,
    rows: Seq<(Seq<char>, Seq<char>)>,
    n: int,
)
    requires
        0 <= n <= rows.len(),
        read_references(link, field, target_field, rows.take(n)) is Err,
    ensures
        read_references(link, field, target_field, rows) == read_references(
            link,
            field,
            target_field,
            rows.take(n),
        ),
    decreases rows.len() - n,
{
    if n == rows.len() {
        assert(rows.take(n) =~= rows);
    } else {
        assert(rows.take(n + 1).drop_last() =~= rows.take(n));
        read_failure_stays(link, field, target_field, rows, n + 1);
    }
}

/// Which relationships are asked for: those of a record through a field.
pub struct ReferencePlan {
    pub link: Link,
    pub field: FieldId,
    pub target_field: FieldId,
}

impl ReferencePlan {
    /// The query for the relationships.
    pub fn query(&self) -> (query: Query)
        ensures
            query@ == (QueryView::References {
                field: self.field,
                pair: self.target_field,
                link: self.link,
            }),
    {
        Query::References { field: self.field, pair: self.target_field, link: self.link }
    }

    /// The relationships that the query's rows stand for. Each is seen from the
    /// record that was asked about.
    pub fn references(&self, rows: &Vec<(String, String)>) -> (references: Result<Vec<Reference>>)
        ensures
            match references {
                Ok(references) => read_references(
                    self.link,
                    self.field,
                    self.target_field,
                    crate::opening::pairs_read(rows@),
                ) == Ok::<Seq<Reference>, ErrorView>(references@),
                Err(error) => read_references(
                    self.link,
                    self.field,
                    self.target_field,
                    crate::opening::pairs_read(rows@),
                ) == Err::<Seq<Reference>, ErrorView>(error@),
            },
    {
        let ghost all = crate::opening::pairs_read(rows@);
        let mut references: Vec<Reference> = Vec::new();
        let mut i: usize = 0;
        while i < rows.len()
            invariant
                i <= rows.len(),
                all == crate::opening::pairs_read(rows@),
                read_references(self.link, self.field, self.target_field, all.take(i as int))
                    == Ok::<Seq<Reference>, ErrorView>(references@),
            decreases rows.len() - i,
        {
            assert(all.take(i + 1).drop_last() =~= all.take(i as int));
            assert(all[i as int] == (rows@[i as int].0@, rows@[i as int].1@));
            let id = match parse_uuid(rows[i].0.as_str()) {
                Ok(id) => ReferenceId::from_uuid(id),
                Err(error) => {
                    proof {
                        read_failure_stays(self.link, self.field, self.target_field, all, i + 1);
                    }
                    return Err(error);
                },
            };
            let target_link = match parse_uuid(rows[i].1.as_str()) {
                Ok(target) => Link::from_uuid(target),
                Err(error) => {
                    proof {
                        read_failure_stays(self.link, self.field, self.target_field, all, i + 1);
                    }
                    return Err(error);
                },
            };
            references.push(
                Reference {
                    id,
                    source_link: self.link,
                    source_field: self.field,
                    target_link,
                    target_field: self.target_field,
                },
            );
            i += 1;
        }
        assert(all.take(rows.len() as int) =~= all);
        Ok(references)
    }
}

impl Store {
    /// Creates a relationship under a given id. A record of another database
    /// than the one that the field points at is refused.
    pub fn create_reference_with_id(
        &self,
        source_link: Link,
        source_field: FieldId,
        target_link: Link,
        source_row: &Option<String>,
        target_row: &Option<String>,
        id: ReferenceId,
    ) -> (result: Result<(Reference, Step)>)
        ensures
            match reference_created(
                self@,
                source_link,
                source_field,
                target_link,
                view_of(*source_row),
                view_of(*target_row),
                id,
            ) {
                Ok(reference) => result matches Ok(done) && done.0 == reference && done.1@
                    == insert_reference_step(reference),
                Err(error) => result matches Err(e) && e@ == error,
            },
    {
        let field = match self.locate_field(source_link, source_row, source_field) {
            Ok((_, field)) => field,
            Err(error) => {
                return Err(error);
            },
        };
        let (target_database, target_field) = match reference_pairing(field) {
            Ok(pairing) => pairing,
            Err(error) => {
                return Err(error);
            },
        };
        let actual = match resolve_database_id(target_link, target_row) {
            Ok(actual) => actual,
            Err(error) => {
                return Err(error);
            },
        };
        if actual != target_database {
            return Err(
                DataLineError::ReferenceTargetDatabaseMismatch {
                    field: source_field,
                    expected: target_database,
                    actual,
                },
            );
        }
        let (link_a, link_b) = match reference_side(source_field, target_field) {
            ReferenceSide::A => (source_link, target_link),
            ReferenceSide::B => (target_link, source_link),
        };
        let reference = Reference { id, source_link, source_field, target_link, target_field };
        let step = Step::InsertReference {
            field: source_field,
            pair: target_field,
            id,
            link_a,
            link_b,
        };
        Ok((reference, step))
    }

    /// Creates a relationship under a fresh id.
    pub fn create_reference(
        &self,
        source_link: Link,
        source_field: FieldId,
        target_link: Link,
        source_row: &Option<String>,
        target_row: &Option<String>,
    ) -> (result: Result<(Reference, Step)>)
        ensures
            match result {
                Ok(done) => is_version_four(done.0.id.0) && reference_created(
                    self@,
                    source_link,
                    source_field,
                    target_link,
                    view_of(*source_row),
                    view_of(*target_row),
                    done.0.id,
                ) == Ok::<Reference, ErrorView>(done.0) && done.1@ == insert_reference_step(
                    done.0,
                ),
                Err(error) => forall|id: ReferenceId| #[trigger]
                    reference_created(
                        self@,
                        source_link,
                        source_field,
                        target_link,
                        view_of(*source_row),
                        view_of(*target_row),
                        id,
                    ) == Err::<Reference, ErrorView>(error@),
            },
    {
        let id = ReferenceId::new();
        self.create_reference_with_id(
            source_link,
            source_field,
            target_link,
            source_row,
            target_row,
            id,
        )
    }

    /// Deletes one relationship. `field` is either of its two fields: both lead
    /// to the same row.
    pub fn delete_reference(&self, reference_id: ReferenceId, field: FieldId) -> (step: Result<Step>)
        ensures
            crate::error::outcome(step) == delete_reference_step(self@, reference_id, field),
    {
        match self.find_field(field) {
            Some((_, definition)) => match reference_pairing(definition) {
                Ok((_, pair)) => Ok(Step::DeleteReference { field, pair, id: reference_id }),
                Err(error) => Err(error),
            },
            None => Err(DataLineError::FieldNotFound(field)),
        }
    }

    /// Which relationships a record has through a field. `row` is what the
    /// query for the record's database gave.
    pub fn list_references(&self, link: Link, field: FieldId, row: &Option<String>) -> (plan: Result<
        ReferencePlan,
    >)
        ensures
            match located_field(self@, link, view_of(*row), field) {
                Err(error) => plan matches Err(e) && e@ == error,
                Ok((_, definition)) => match pairing_of(definition) {
                    Err(error) => plan matches Err(e) && e@ == error,
                    Ok((_, target_field)) => plan matches Ok(plan) && plan == (ReferencePlan {
                        link,
                        field,
                        target_field,
                    }),
                },
            },
    {
        match self.locate_field(link, row, field) {
            Ok((_, definition)) => match reference_pairing(definition) {
                Ok((_, target_field)) => Ok(ReferencePlan { link, field, target_field }),
                Err(error) => Err(error),
            },
            Err(error) => Err(error),
        }
    }

    /// The reference fields through which a record can be related to others.
    /// `row` is what the query for its database gave.
    pub fn relating_fields(&self, link: Link, row: &Option<String>) -> (fields: Result<Vec<FieldId>>)
        ensures
            match resolved(link, view_of(*row)) {
                Err(error) => fields matches Err(e) && e@ == error,
                Ok(database_id) => match fields {
                    Ok(fields) => has_database(self@, database_id) && fields@ == ids_of(
                        reference_fields(database_of(self@, database_id).fields),
                    ),
                    Err(error) => !has_database(self@, database_id) && error@
                        == ErrorView::DatabaseNotFound(database_id),
                },
            },
    {
        let database_id = match resolve_database_id(link, row) {
            Ok(database_id) => database_id,
            Err(error) => {
                return Err(error);
            },
        };
        match self.field_lists(database_id) {
            Ok((_, references)) => Ok(references),
            Err(error) => Err(error),
        }
    }

    /// Every record that a record is related to through any field of its
    /// database, each of them once. `row` is what the query for its database
    /// gave, and `lists` what `list_references` gave for each of the fields of
    /// `relating_fields`.
    pub fn related_records(
        &self,
        link: Link,
        row: &Option<String>,
        lists: &Vec<Vec<Reference>>,
    ) -> (related: Result<Vec<Link>>)
        ensures
            match resolved(link, view_of(*row)) {
                Err(error) => related matches Err(e) && e@ == error,
                Ok(database_id) => match related {
                    Ok(related) => {
                        &&& has_database(self@, database_id)
                        &&& related@.no_duplicates()
                        &&& forall|other: Link| #[trigger]
                            related@.contains(other) == is_related(lists@, other)
                    },
                    Err(error) => !has_database(self@, database_id) && error@
                        == ErrorView::DatabaseNotFound(database_id),
                },
            },
    {
        match self.relating_fields(link, row) {
            Ok(_) => Ok(targets_once(lists)),
            Err(error) => Err(error),
        }
    }
}

/// What deleting a relationship comes to, from the number of rows that went.
pub fn reference_deleted(reference_id: ReferenceId, affected: usize) -> (result: Result<()>)
    ensures
        match result {
            Ok(_) => affected != 0,
            Err(error) => affected == 0 && error@ == ErrorView::ReferenceNotFound(reference_id),
        },
{
    if affected == 0 {
        Err(DataLineError::ReferenceNotFound(reference_id))
    } else {
        Ok(())
    }
}

/// Whether a record is at the other end of one of the relationships.
pub open spec fn is_related(lists: Seq<Vec<Reference>>, link: Link) -> bool {
    exists|i: int, k: int| #[trigger] is_target(lists, link, i, k)
}

/// Whether a record is at the other end of the `k`th relationship of the `i`th
/// list.
pub open spec fn is_target(lists: Seq<Vec<Reference>>, link: Link, i: int, k: int) -> bool {
    &&& 0 <= i < lists.len()
    &&& 0 <= k < lists[i]@.len()
    &&& lists[i]@[k].target_link == link
}

fn contains_link(links: &Vec<Link>, link: Link) -> (found: bool)
    ensures
        found == links@.contains(link),
{
    let mut i: usize = 0;
    while i < links.len()
        invariant
            i <= links.len(),
            forall|j: int| 0 <= j < i ==> links@[j] != link,
        decreases links.len() - i,
    {
        if links[i] == link {
            return true;
        }
        i += 1;
    }
    false
}

/// Every record at the other end of any of the relationships, each of them
/// once.
fn targets_once(lists: &Vec<Vec<Reference>>) -> (related: Vec<Link>)
    ensures
        related@.no_duplicates(),
        forall|link: Link| #[trigger] related@.contains(link) == is_related(lists@, link),
{
    let mut related: Vec<Link> = Vec::new();
    let mut i: usize = 0;
    while i < lists.len()
        invariant
            i <= lists.len(),
            related@.no_duplicates(),
            forall|link: Link| #[trigger]
                related@.contains(link) ==> exists|a: int, b: int|
                    a < i && #[trigger] is_target(lists@, link, a, b),
            forall|a: int, b: int, link: Link|
                a < i && #[trigger] is_target(lists@, link, a, b) ==> related@.contains(link),
        decreases lists.len() - i,
    {
        let list = &lists[i];
        let mut k: usize = 0;
        while k < list.len()
            invariant
                i < lists.len(),
                *list == lists@[i as int],
                k <= list.len(),
                related@.no_duplicates(),
                forall|link: Link| #[trigger]
                    related@.contains(link) ==> exists|a: int, b: int|
                        (a < i || (a == i && b < k)) && #[trigger] is_target(lists@, link, a, b),
                forall|a: int, b: int, link: Link|
                    (a < i || (a == i && b < k)) && #[trigger] is_target(lists@, link, a, b)
                        ==> related@.contains(link),
            decreases list.len() - k,
        {
            let link = list[k].target_link;
            assert(is_target(lists@, link, i as int, k as int));
            let ghost before = related@;
            if !contains_link(&related, link) {
                related.push(link);
                proof {
                    assert forall|other: Link| #[trigger]
                        related@.contains(other) == (before.contains(other) || other == link) by {
                        if before.contains(other) {
                            let n = choose|n: int| 0 <= n < before.len() && before[n] == other;
                            assert(related@[n] == other);
                        }
                        if other == link {
                            assert(related@[before.len() as int] == link);
                        }
                    }
                }
            }
            proof {
                assert forall|other: Link| #[trigger]
                    related@.contains(other) implies exists|a: int, b: int|
                    (a < i || (a == i && b < k + 1)) && #[trigger] is_target(
                        lists@,
                        other,
                        a,
                        b,
                    ) by {
                    if before.contains(other) {
                        let (a, b) = choose|a: int, b: int|
                            (a < i || (a == i && b < k)) && #[trigger] is_target(
                                lists@,
                                other,
                                a,
                                b,
                            );
                        assert(is_target(lists@, other, a, b));
                    } else {
                        assert(is_target(lists@, other, i as int, k as int));
                    }
                }
            }
            k += 1;
        }
        i += 1;
    }
    related
}

} // verus!
