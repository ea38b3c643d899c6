//! Listing the records of a database gives all of them, the oldest first.

use vstd::prelude::*;

use crate::cell_laws::{cells_readable, stored_record_is_got, times_stamped};
use crate::error::ErrorView;
use crate::ids::{DatabaseId, Link};
use crate::kind::parsed_uuid;
use crate::record_laws::listed_records_are_those_got;
use crate::records::{
    drafted, drafted_all, drafted_listed, scalar_fields, DraftView, ListedCellsView,
};
use crate::registry::{database_of, has_database};
use crate::schema::{DatabaseView, FieldView};
use crate::store_laws::{cell_value, sound};
use crate::tables::{at, Tables};
use crate::text::sorts_before;
use crate::timestamp::{earlier, is_stamp_of, Timestamp};
use crate::uuids::{uuid_text, uuid_text_reads_back};

verus! {

/// Whether a row is that of a record, with the cells of these fields.
pub open spec fn is_row_of(
    tables: Tables,
    scalars: Seq<FieldView>,
    database_id: DatabaseId,
    link: Link,
    listed: ListedCellsView,
) -> bool {
    let times = tables.records[(database_id, link)];
    &&& listed.link == uuid_text(link.0)
    &&& listed.row.created_at == times.created_at
    &&& listed.row.updated_at == times.updated_at
    &&& listed.row.cells.len() == scalars.len()
    &&& forall|k: int|
        0 <= k < scalars.len() ==> (#[trigger] listed.row.cells[k]).value == cell_value(
            tables,
            (database_id, link, scalars[k].id),
        )
}

/// Whether the rows are those of the query for every record of a database: each
/// record has one, and none comes before one whose time of creation sorts before
/// its own.
pub open spec fn are_all_rows(
    tables: Tables,
    scalars: Seq<FieldView>,
    database_id: DatabaseId,
    rows: Seq<ListedCellsView>,
    links: Seq<Link>,
) -> bool {
    &&& links.len() == rows.len()
    &&& links.no_duplicates()
    &&& forall|link: Link| #[trigger]
        links.contains(link) == tables.records.dom().contains((database_id, link))
    &&& forall|i: int|
        0 <= i < rows.len() ==> is_row_of(
            tables,
            scalars,
            database_id,
            links[i],
            #[trigger] rows[i],
        )
    &&& forall|i: int, j: int|
        0 <= i < j < rows.len() ==> !sorts_before(
            (#[trigger] rows[j]).row.created_at,
            (#[trigger] rows[i]).row.created_at,
        )
}

/// Listing the records of a database never fails on what is stored. It gives
/// every record of the database once and no other, each as it is got by its
/// link, and the times of their creation never go back.
pub proof fn list_holds_every_record_once(
    tables: Tables,
    databases: Seq<DatabaseView>,
    database_id: DatabaseId,
    rows: Seq<ListedCellsView>,
    links: Seq<Link>,
)
    requires
        sound(tables, databases),
        cells_readable(tables, databases),
        times_stamped(tables),
        has_database(databases, database_id),
        are_all_rows(
            tables,
            scalar_fields(database_of(databases, database_id).fields),
            database_id,
            rows,
            links,
        ),
    ensures
        ({
            let scalars = scalar_fields(database_of(databases, database_id).fields);
            let drafts = drafted_all(scalars, rows)->Ok_0;
            &&& drafted_all(scalars, rows) is Ok
            &&& drafts.len() == links.len()
            &&& forall|i: int|
                0 <= i < drafts.len() ==> (#[trigger] drafts[i]).link == links[i] && drafted(
                    scalars,
                    links[i],
                    rows[i].row,
                ) == Ok::<DraftView, ErrorView>(drafts[i])
            &&& forall|link: Link|
                #![trigger links.contains(link)]
                links.contains(link) == (at(tables.links, link) == Some(database_id))
            &&& links.no_duplicates()
            &&& forall|i: int, j: int|
                0 <= i < j < drafts.len() ==> !(#[trigger] drafts[j]).created_at.is_before(
                    (#[trigger] drafts[i]).created_at,
                )
        }),
{
    broadcast use Timestamp::parts_of;

    let scalars = scalar_fields(database_of(databases, database_id).fields);
    assert forall|i: int| 0 <= i < rows.len() implies {
        &&& drafted(scalars, links[i], rows[i].row) is Ok
        &&& parsed_uuid(rows[i].link) == Ok::<u128, ErrorView>(links[i].0)
        &&& drafted_listed(scalars, #[trigger] rows[i]) is Ok
    } by {
        assert(is_row_of(tables, scalars, database_id, links[i], rows[i]));
        assert(links.contains(links[i]));
        assert(tables.records.dom().contains((database_id, links[i])));
        stored_record_is_got(tables, databases, database_id, links[i], rows[i].row);
        uuid_text_reads_back(links[i].0);
    }
    listed_records_are_those_got(scalars, rows);
    let drafts = drafted_all(scalars, rows)->Ok_0;
    assert forall|i: int| 0 <= i < drafts.len() implies (#[trigger] drafts[i]).link == links[i]
        && drafted(scalars, links[i], rows[i].row) == Ok::<DraftView, ErrorView>(drafts[i]) by {
        assert(drafted_listed(scalars, rows[i]) is Ok);
    }
    assert forall|link: Link|
        #![trigger links.contains(link)]
        links.contains(link) == (at(tables.links, link) == Some(database_id)) by {
        assert(tables.records.dom().contains((database_id, link)) == (at(tables.links, link)
            == Some(database_id)));
    }
    assert forall|i: int, j: int| 0 <= i < j < drafts.len() implies !(
    #[trigger] drafts[j]).created_at.is_before((#[trigger] drafts[i]).created_at) by {
        assert(links.contains(links[i]) && links.contains(links[j]));
        let first = created_when(tables, scalars, database_id, links[i], rows[i], drafts[i]);
        let second = created_when(tables, scalars, database_id, links[j], rows[j], drafts[j]);
        if earlier(second, first) {
            assert(sorts_before(rows[j].row.created_at, rows[i].row.created_at));
        }
    }
}

/// When a record was created, from its row.
proof fn created_when(
    tables: Tables,
    scalars: Seq<FieldView>,
    database_id: DatabaseId,
    link: Link,
    listed: ListedCellsView,
    draft: DraftView,
) -> (instant: (i64, u32))
    requires
        times_stamped(tables),
        tables.records.dom().contains((database_id, link)),
        is_row_of(tables, scalars, database_id, link, listed),
        drafted(scalars, link, listed.row) == Ok::<DraftView, ErrorView>(draft),
    ensures
        is_stamp_of(listed.row.created_at, instant),
        instant == (draft.created_at.spec_seconds(), draft.created_at.spec_nanoseconds()),
{
    broadcast use Timestamp::parts_of;

    assert(at(tables.records, (database_id, link)) is Some);
    let instant = choose|instant: (i64, u32)| is_stamp_of(listed.row.created_at, instant);
    assert(is_stamp_of(listed.row.created_at, instant));
    instant
}

} // verus!
