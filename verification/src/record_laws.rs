//! What a record holds when it is read.

use vstd::prelude::*;

use crate::codec::decoded_value;
use crate::error::ErrorView;
use crate::ids::{FieldId, Link};
use crate::kind::{column_type, parsed_uuid};
use crate::record::ValueView;
use crate::records::{
    decoded_cells, drafted, drafted_all, drafted_listed, hydrated, ids_of, reference_fields,
    scalar_fields, with_filenames, with_references, DraftView, ListedCellsView,
};
use crate::registry_laws::{kept_from, kept_from_is};
use crate::schema::FieldView;
use crate::sql::CellView;

verus! {

/// Whether no two fields share an id.
pub open spec fn field_ids_differ(fields: Seq<FieldView>) -> bool {
    forall|i: int, j: int|
        0 <= i < j < fields.len() ==> (#[trigger] fields[i]).id != (#[trigger] fields[j]).id
}

/// Whether the `i`th field has this id.
pub open spec fn is_field_id(fields: Seq<FieldView>, id: FieldId, i: int) -> bool {
    0 <= i < fields.len() && fields[i].id == id
}

/// Whether one of the fields has this id.
pub open spec fn has_field_id(fields: Seq<FieldView>, id: FieldId) -> bool {
    exists|i: int| is_field_id(fields, id, i)
}

/// Whether no two of the fields in the list are the same.
pub open spec fn keys_differ<A>(list: Seq<(FieldId, A)>) -> bool {
    forall|i: int, j: int|
        0 <= i < j < list.len() ==> (#[trigger] list[i]).0 != (#[trigger] list[j]).0
}

/// Whether the `i`th entry of the list is about this field.
pub open spec fn is_key<A>(list: Seq<(FieldId, A)>, id: FieldId, i: int) -> bool {
    0 <= i < list.len() && list[i].0 == id
}

proof fn cells_are_held(fields: Seq<FieldView>, cells: Seq<CellView>, n: nat)
    requires
        field_ids_differ(fields),
        n <= fields.len(),
        decoded_cells(fields, cells, n) is Ok,
    ensures
        ({
            let values = decoded_cells(fields, cells, n)->Ok_0;
            &&& forall|id: FieldId| #[trigger]
                values.dom().contains(id) == (exists|i: int| i < n && is_field_id(fields, id, i))
            &&& forall|i: int|
                0 <= i < n ==> decoded_value((#[trigger] fields[i]).kind, cells[i]) == Ok::<
                    ValueView,
                    ErrorView,
                >(values[fields[i].id])
        }),
    decreases n,
{
    if n > 0 {
        let before = decoded_cells(fields, cells, (n - 1) as nat)->Ok_0;
        cells_are_held(fields, cells, (n - 1) as nat);
        let values = decoded_cells(fields, cells, n)->Ok_0;
        let last = n - 1;
        assert forall|id: FieldId| #[trigger] values.dom().contains(id) == (exists|i: int|
            i < n && is_field_id(fields, id, i)) by {
            if before.dom().contains(id) {
                let i = choose|i: int| i < n - 1 && is_field_id(fields, id, i);
                assert(is_field_id(fields, id, i));
            }
            if id == fields[last].id {
                assert(is_field_id(fields, id, last));
            }
            if exists|i: int| i < n && is_field_id(fields, id, i) {
                let i = choose|i: int| i < n && is_field_id(fields, id, i);
                if i < last {
                    assert(before.dom().contains(id));
                }
            }
        }
        assert forall|i: int| 0 <= i < n implies decoded_value(
            (#[trigger] fields[i]).kind,
            cells[i],
        ) == Ok::<ValueView, ErrorView>(values[fields[i].id]) by {
            if i < last {
                assert(fields[i].id != fields[last].id);
            }
        }
    }
}

proof fn filenames_are_filled_in(
    values: Map<FieldId, ValueView>,
    filenames: Seq<(FieldId, Option<Seq<char>>)>,
)
    requires
        keys_differ(filenames),
        forall|i: int|
            0 <= i < filenames.len() ==> values.dom().contains((#[trigger] filenames[i]).0),
    ensures
        ({
            let after = with_filenames(values, filenames);
            &&& after.dom() == values.dom()
            &&& forall|i: int|
                0 <= i < filenames.len() ==> after[(#[trigger] filenames[i]).0] == hydrated(
                    values[filenames[i].0],
                    filenames[i].1,
                )
            &&& forall|id: FieldId|
                (forall|i: int| !is_key(filenames, id, i)) ==> #[trigger] after[id] == values[id]
        }),
    decreases filenames.len(),
{
    let after = with_filenames(values, filenames);
    if filenames.len() > 0 {
        let rest = filenames.drop_last();
        let last = filenames.len() - 1;
        let before = with_filenames(values, rest);
        assert forall|i: int| 0 <= i < rest.len() implies values.dom().contains(
            (#[trigger] rest[i]).0,
        ) by {
            assert(rest[i] == filenames[i]);
        }
        filenames_are_filled_in(values, rest);
        assert(values.dom().contains(filenames[last].0));
        assert forall|i: int| !is_key(rest, filenames[last].0, i) by {
            if is_key(rest, filenames[last].0, i) {
                assert(filenames[i].0 != filenames[last].0);
            }
        }
        assert(before[filenames[last].0] == values[filenames[last].0]);
        assert forall|i: int| 0 <= i < filenames.len() implies after[(#[trigger] filenames[i]).0]
            == hydrated(values[filenames[i].0], filenames[i].1) by {
            if i < last {
                assert(rest[i] == filenames[i]);
                assert(filenames[i].0 != filenames[last].0);
            }
        }
        assert forall|id: FieldId|
            (forall|i: int| !is_key(filenames, id, i)) implies #[trigger] after[id]
            == values[id] by {
            assert(!is_key(filenames, id, last));
            assert forall|i: int| !is_key(rest, id, i) by {
                assert(!is_key(filenames, id, i));
            }
            assert(before[id] == values[id]);
        }
        assert(after.dom() =~= values.dom());
    }
}

proof fn references_are_put_in(
    values: Map<FieldId, ValueView>,
    references: Seq<(FieldId, Seq<Link>)>,
)
    requires
        keys_differ(references),
    ensures
        ({
            let after = with_references(values, references);
            &&& forall|id: FieldId| #[trigger]
                after.dom().contains(id) == (values.dom().contains(id) || exists|i: int|
                    is_key(references, id, i))
            &&& forall|i: int|
                0 <= i < references.len() ==> after[(#[trigger] references[i]).0]
                    == ValueView::Reference(references[i].1)
            &&& forall|id: FieldId|
                (forall|i: int| !is_key(references, id, i)) ==> #[trigger] after[id] == values[id]
        }),
    decreases references.len(),
{
    let after = with_references(values, references);
    if references.len() > 0 {
        let rest = references.drop_last();
        let last = references.len() - 1;
        let before = with_references(values, rest);
        references_are_put_in(values, rest);
        assert forall|id: FieldId| #[trigger]
            after.dom().contains(id) == (values.dom().contains(id) || exists|i: int|
                is_key(references, id, i)) by {
            if exists|i: int| is_key(rest, id, i) {
                let i = choose|i: int| is_key(rest, id, i);
                assert(is_key(references, id, i));
            }
            if id == references[last].0 {
                assert(is_key(references, id, last));
            }
            if exists|i: int| is_key(references, id, i) {
                let i = choose|i: int| is_key(references, id, i);
                if i < last {
                    assert(is_key(rest, id, i));
                }
            }
        }
        assert forall|i: int| 0 <= i < references.len() implies after[(#[trigger] references[i]).0]
            == ValueView::Reference(references[i].1) by {
            if i < last {
                assert(rest[i] == references[i]);
                assert(references[i].0 != references[last].0);
            }
        }
        assert forall|id: FieldId|
            (forall|i: int| !is_key(references, id, i)) implies #[trigger] after[id]
            == values[id] by {
            assert(!is_key(references, id, last));
            assert forall|i: int| !is_key(rest, id, i) by {
                assert(!is_key(references, id, i));
            }
            assert(before[id] == values[id]);
        }
    }
}

/// Every field has a column or is a reference, and never both.
proof fn fields_fall_in_two(fields: Seq<FieldView>, id: FieldId)
    requires
        field_ids_differ(fields),
    ensures
        field_ids_differ(scalar_fields(fields)),
        field_ids_differ(reference_fields(fields)),
        (exists|i: int| is_field_id(fields, id, i)) == ((exists|i: int|
            is_field_id(scalar_fields(fields), id, i)) || exists|i: int|
            is_field_id(reference_fields(fields), id, i)),
        (exists|i: int| is_field_id(scalar_fields(fields), id, i)) ==> forall|i: int|
            !is_field_id(reference_fields(fields), id, i),
{
    let scalar = |field: FieldView| column_type(field.kind) is Some;
    let reference = |field: FieldView| field.kind is Reference;
    let scalars = scalar_fields(fields);
    let references = reference_fields(fields);
    assert(scalars == fields.filter(scalar));
    assert(references == fields.filter(reference));
    kept_from_is(fields, scalar);
    kept_from_is(fields, reference);
    assert forall|i: int, j: int| 0 <= i < j < scalars.len() implies (#[trigger] scalars[i]).id != (
    #[trigger] scalars[j]).id by {
        assert(kept_from(fields, scalar, i) < kept_from(fields, scalar, j));
        assert(fields[kept_from(fields, scalar, i)].id != fields[kept_from(fields, scalar, j)].id);
    }
    assert forall|i: int, j: int| 0 <= i < j < references.len() implies (
    #[trigger] references[i]).id != (#[trigger] references[j]).id by {
        assert(kept_from(fields, reference, i) < kept_from(fields, reference, j));
        assert(fields[kept_from(fields, reference, i)].id != fields[kept_from(
            fields,
            reference,
            j,
        )].id);
    }
    if exists|i: int| is_field_id(fields, id, i) {
        let i = choose|i: int| is_field_id(fields, id, i);
        if fields[i].kind is Reference {
            assert(reference(fields[i]));
            let k = choose|k: int|
                0 <= k < references.len() && #[trigger] kept_from(fields, reference, k) == i;
            assert(is_field_id(references, id, k));
        } else {
            assert(scalar(fields[i]));
            let k = choose|k: int|
                0 <= k < scalars.len() && #[trigger] kept_from(fields, scalar, k) == i;
            assert(is_field_id(scalars, id, k));
        }
    }
    if exists|i: int| is_field_id(scalars, id, i) {
        let i = choose|i: int| is_field_id(scalars, id, i);
        let a = kept_from(fields, scalar, i);
        assert(is_field_id(fields, id, a));
        assert forall|j: int| !is_field_id(references, id, j) by {
            if is_field_id(references, id, j) {
                let b = kept_from(fields, reference, j);
                assert(fields[a].id == fields[b].id);
                assert(a == b);
            }
        }
    }
    if exists|i: int| is_field_id(references, id, i) {
        let i = choose|i: int| is_field_id(references, id, i);
        assert(is_field_id(fields, id, kept_from(fields, reference, i)));
    }
}

/// What a record holds when it is read: a value under every field of its
/// database and under nothing else. Under a field with a column that is what
/// its cell stands for, with the blob's filename where one was looked up; under
/// a reference field it is the records at the other end.
pub proof fn record_holds_every_field(
    fields: Seq<FieldView>,
    cells: Seq<CellView>,
    filenames: Seq<(FieldId, Option<Seq<char>>)>,
    references: Seq<(FieldId, Seq<Link>)>,
)
    requires
        field_ids_differ(fields),
        decoded_cells(scalar_fields(fields), cells, scalar_fields(fields).len()) is Ok,
        keys_differ(filenames),
        forall|i: int|
            0 <= i < filenames.len() ==> has_field_id(
                scalar_fields(fields),
                (#[trigger] filenames[i]).0,
            ),
        references.map_values(|entry: (FieldId, Seq<Link>)| entry.0) == ids_of(
            reference_fields(fields),
        ),
    ensures
        ({
            let scalars = scalar_fields(fields);
            let read = decoded_cells(scalars, cells, scalars.len())->Ok_0;
            let values = with_references(with_filenames(read, filenames), references);
            &&& forall|id: FieldId| #[trigger]
                values.dom().contains(id) == (exists|i: int| is_field_id(fields, id, i))
            &&& forall|k: int|
                0 <= k < scalars.len() && (forall|i: int|
                    !is_key(filenames, (#[trigger] scalars[k]).id, i)) ==> decoded_value(
                    scalars[k].kind,
                    cells[k],
                ) == Ok::<ValueView, ErrorView>(values[scalars[k].id])
            &&& forall|k: int, i: int|
                0 <= k < scalars.len() && #[trigger] is_key(
                    filenames,
                    (#[trigger] scalars[k]).id,
                    i,
                ) ==> (decoded_value(scalars[k].kind, cells[k]) matches Ok(value)
                    && values[scalars[k].id] == hydrated(value, filenames[i].1))
            &&& forall|i: int|
                0 <= i < references.len() ==> values[(#[trigger] references[i]).0]
                    == ValueView::Reference(references[i].1)
        }),
{
    let scalars = scalar_fields(fields);
    let others = reference_fields(fields);
    let read = decoded_cells(scalars, cells, scalars.len())->Ok_0;
    let filled = with_filenames(read, filenames);
    let values = with_references(filled, references);
    let ids = references.map_values(|entry: (FieldId, Seq<Link>)| entry.0);
    fields_fall_in_two(fields, FieldId(0));
    cells_are_held(scalars, cells, scalars.len());
    assert forall|i: int| 0 <= i < filenames.len() implies read.dom().contains(
        (#[trigger] filenames[i]).0,
    ) by {
        let k = choose|k: int| is_field_id(scalars, filenames[i].0, k);
        assert(k < scalars.len() && is_field_id(scalars, filenames[i].0, k));
    }
    filenames_are_filled_in(read, filenames);
    assert(references.len() == others.len()) by {
        assert(ids.len() == ids_of(others).len());
    }
    assert forall|i: int| 0 <= i < references.len() implies (#[trigger] references[i]).0
        == others[i].id by {
        assert(ids[i] == ids_of(others)[i]);
    }
    references_are_put_in(filled, references);
    assert forall|id: FieldId| #[trigger] values.dom().contains(id) == (exists|i: int|
        is_field_id(fields, id, i)) by {
        fields_fall_in_two(fields, id);
        if exists|i: int| is_key(references, id, i) {
            let i = choose|i: int| is_key(references, id, i);
            assert(is_field_id(others, id, i));
        }
        if exists|i: int| is_field_id(others, id, i) {
            let i = choose|i: int| is_field_id(others, id, i);
            assert(is_key(references, id, i));
        }
        if exists|i: int| is_field_id(scalars, id, i) {
            let i = choose|i: int| is_field_id(scalars, id, i);
            assert(i < scalars.len() && is_field_id(scalars, id, i));
            assert(read.dom().contains(id));
        }
        assert(filled.dom().contains(id) == read.dom().contains(id));
        if read.dom().contains(id) {
            let i = choose|i: int| i < scalars.len() && is_field_id(scalars, id, i);
            assert(is_field_id(scalars, id, i));
        }
    }
    assert forall|k: int| 0 <= k < scalars.len() implies values[(#[trigger] scalars[k]).id]
        == filled[scalars[k].id] by {
        let id = scalars[k].id;
        fields_fall_in_two(fields, id);
        assert(is_field_id(scalars, id, k));
        assert forall|i: int| !is_key(references, id, i) by {
            if is_key(references, id, i) {
                assert(is_field_id(others, id, i));
            }
        }
    }
}

/// Listing records comes to getting each of them by its link: every one that is
/// listed is the one that is got from the same row, in the order of the rows,
/// and listing fails only where getting one of them would.
pub proof fn listed_records_are_those_got(fields: Seq<FieldView>, rows: Seq<ListedCellsView>)
    ensures
        drafted_all(fields, rows) is Ok == forall|i: int|
            0 <= i < rows.len() ==> drafted_listed(fields, #[trigger] rows[i]) is Ok,
        drafted_all(fields, rows) matches Ok(drafts) ==> drafts.len() == rows.len() && forall|
            i: int,
            link: Link,
        |
            0 <= i < rows.len() && parsed_uuid(rows[i].link) == Ok::<u128, ErrorView>(link.0)
                ==> #[trigger] drafted(fields, link, rows[i].row) == Ok::<DraftView, ErrorView>(
                drafts[i],
            ) && drafts[i].link == link,
    decreases rows.len(),
{
    if rows.len() > 0 {
        let rest = rows.drop_last();
        let last = rows.len() - 1;
        listed_records_are_those_got(fields, rest);
        if drafted_all(fields, rows) is Ok {
            assert forall|i: int| 0 <= i < rows.len() implies drafted_listed(
                fields,
                #[trigger] rows[i],
            ) is Ok by {
                if i < last {
                    assert(rest[i] == rows[i]);
                }
            }
            let drafts = drafted_all(fields, rows)->Ok_0;
            let fewer = drafted_all(fields, rest)->Ok_0;
            assert forall|i: int, link: Link|
                0 <= i < rows.len() && parsed_uuid(rows[i].link) == Ok::<u128, ErrorView>(
                    link.0,
                ) implies #[trigger] drafted(fields, link, rows[i].row) == Ok::<
                DraftView,
                ErrorView,
            >(drafts[i]) && drafts[i].link == link by {
                if i < last {
                    assert(rest[i] == rows[i]);
                    assert(fewer[i] == drafts[i]);
                }
            }
        }
        if forall|i: int|
            0 <= i < rows.len() ==> drafted_listed(fields, #[trigger] rows[i]) is Ok {
            assert forall|i: int| 0 <= i < rest.len() implies drafted_listed(
                fields,
                #[trigger] rest[i],
            ) is Ok by {
                assert(rest[i] == rows[i]);
            }
            assert(drafted_listed(fields, rows[last]) is Ok);
        }
    }
}

} // verus!
