//! Which records are found: every one that should be, and no other.

use vstd::prelude::*;

use crate::error::ErrorView;
use crate::ids::{DatabaseId, FieldId};
use crate::number::same_bits_same_number;
use crate::record::{RecordView, ValueView};
use crate::registry::{database_index_is, is_database};
use crate::schema::{field_position_found, DatabaseView};
use crate::search::{holding, holds, mentioning, mentions, mentions_under, search_error};
use crate::text::{lowercase, occurs};

verus! {

/// A record is found by a value just where it has a value under the field that
/// is the same as the one looked for. A number is the same by its value, so that
/// the two zeros are the same and what is no number is the same as nothing; a
/// blob is by its hash; anything else, a tagged blob too, is by all that it
/// holds.
pub proof fn found_where_the_value_is(
    records: Seq<RecordView>,
    field: FieldId,
    wanted: ValueView,
    i: int,
)
    requires
        0 <= i < records.len(),
    ensures
        holding(records, field, wanted).contains(records[i]) <==> records[i].values.dom().contains(
            field,
        ) && match (records[i].values[field], wanted) {
            (ValueView::Number(a), ValueView::Number(b)) => {
                let magnitude = a.spec_bits() % 0x8000_0000_0000_0000u64;
                &&& magnitude <= 0x7ff0_0000_0000_0000u64
                &&& a.spec_bits() == b.spec_bits() || magnitude == 0 && b.spec_bits()
                    % 0x8000_0000_0000_0000u64 == 0
            },
            (ValueView::Blob(a), ValueView::Blob(b)) => a.hash == b.hash,
            (held, _) => held == wanted,
        },
{
    let kept = |record: RecordView| holds(record, field, wanted);
    let record = records[i];
    if record.values.dom().contains(field) {
        if let (ValueView::Number(a), ValueView::Number(b)) = (record.values[field], wanted) {
            if a.spec_bits() == b.spec_bits() {
                same_bits_same_number(a, b);
            }
        }
    }
    kept_just_where(records, kept, i);
}

/// A record of a list is kept just where it passes.
proof fn kept_just_where(records: Seq<RecordView>, kept: spec_fn(RecordView) -> bool, i: int)
    requires
        0 <= i < records.len(),
    ensures
        records.filter(kept).contains(records[i]) <==> kept(records[i]),
{
    broadcast use vstd::seq_lib::group_filter_ensures;

    if records.filter(kept).contains(records[i]) {
        let j = records.filter(kept).index_of(records[i]);
        assert(kept(records.filter(kept)[j]));
    }
}

/// A record is found by the very value that it holds under the field, of
/// whatever kind that value is. What is no number is left out, since it is the
/// same as nothing, itself included.
pub proof fn found_by_its_own_value(records: Seq<RecordView>, field: FieldId, i: int)
    requires
        0 <= i < records.len(),
        records[i].values.dom().contains(field),
        records[i].values[field] matches ValueView::Number(number) ==> number.spec_bits()
            % 0x8000_0000_0000_0000u64 <= 0x7ff0_0000_0000_0000u64,
    ensures
        holding(records, field, records[i].values[field]).contains(records[i]),
{
    found_where_the_value_is(records, field, records[i].values[field], i);
}

/// The records of two lists that are found by a value are those of the first,
/// followed by those of the second, and a single record is either found as it
/// is or not at all. So what is found keeps its order, and nothing is found
/// twice that was not there twice.
pub proof fn found_by_value_in_order(
    first: Seq<RecordView>,
    second: Seq<RecordView>,
    record: RecordView,
    field: FieldId,
    wanted: ValueView,
)
    ensures
        holding(first + second, field, wanted) == holding(first, field, wanted) + holding(
            second,
            field,
            wanted,
        ),
        holding(seq![record], field, wanted) == seq![record] || holding(
            seq![record],
            field,
            wanted,
        ) == Seq::<RecordView>::empty(),
        holding(Seq::empty(), field, wanted) == Seq::<RecordView>::empty(),
{
    let kept = |found: RecordView| holds(found, field, wanted);
    Seq::filter_distributes_over_add(first, second, kept);
    of_one(record, kept);
}

/// Of one record the whole is kept, or nothing.
proof fn of_one(record: RecordView, kept: spec_fn(RecordView) -> bool)
    ensures
        seq![record].filter(kept) == if kept(record) {
            seq![record]
        } else {
            Seq::empty()
        },
        Seq::<RecordView>::empty().filter(kept) == Seq::<RecordView>::empty(),
{
    reveal(Seq::filter);
    assert(seq![record].drop_last() =~= Seq::empty());
    assert(Seq::<RecordView>::empty().filter(kept) =~= Seq::empty());
    assert(seq![record].filter(kept) =~= if kept(record) {
        seq![record]
    } else {
        Seq::empty()
    });
}

/// Whether a text stands somewhere within another, with something or nothing
/// before and behind it.
pub open spec fn stands_within(part: Seq<char>, whole: Seq<char>) -> bool {
    exists|before: Seq<char>, behind: Seq<char>| whole == #[trigger] (before + part + behind)
}

/// Standing within a text is occurring in it.
proof fn within_is_occurring(part: Seq<char>, whole: Seq<char>)
    ensures
        stands_within(part, whole) <==> occurs(part, whole),
{
    if stands_within(part, whole) {
        let (before, behind) = choose|before: Seq<char>, behind: Seq<char>|
            whole == #[trigger] (before + part + behind);
        let i = before.len() as int;
        assert(whole.subrange(i, i + part.len()) =~= part);
    }
    if occurs(part, whole) {
        let i = choose|i: int|
            0 <= i <= whole.len() - part.len() && #[trigger] whole.subrange(i, i + part.len())
                == part;
        let before = whole.subrange(0, i);
        let behind = whole.subrange(i + part.len(), whole.len() as int);
        assert(whole =~= before + part + behind);
    }
}

/// A record that holds a text under some field is found by a query whenever
/// the lower-case form of the query stands within that of the text.
pub proof fn found_where_a_text_mentions_it(
    records: Seq<RecordView>,
    query: Seq<char>,
    i: int,
    field: FieldId,
    text: Seq<char>,
    before: Seq<char>,
    behind: Seq<char>,
)
    requires
        0 <= i < records.len(),
        records[i].values.dom().contains(field),
        records[i].values[field] == ValueView::Text(text),
        lowercase(text) == before + lowercase(query) + behind,
    ensures
        mentioning(records, lowercase(query)).contains(records[i]),
{
    let needle = lowercase(query);
    let kept = |record: RecordView| mentions(record.values, needle);
    assert(stands_within(needle, lowercase(text)));
    within_is_occurring(needle, lowercase(text));
    assert(mentions_under(records[i].values, field, needle));
    kept_just_where(records, kept, i);
}

/// Whether a record has a text under the field with the lower-case form of the
/// query within its own.
pub open spec fn has_text_with(record: RecordView, field: FieldId, query: Seq<char>) -> bool {
    record.values.dom().contains(field) && (record.values[field] matches ValueView::Text(text)
        && stands_within(lowercase(query), lowercase(text)))
}

/// A record is found by a query only where some text that it holds has the
/// query within it when case is ignored. No value but a text is searched.
pub proof fn found_only_where_a_text_mentions_it(
    records: Seq<RecordView>,
    query: Seq<char>,
    i: int,
)
    requires
        0 <= i < records.len(),
    ensures
        mentioning(records, lowercase(query)).contains(records[i]) <==> exists|field: FieldId|
            #[trigger] has_text_with(records[i], field, query),
{
    let needle = lowercase(query);
    let kept = |record: RecordView| mentions(record.values, needle);
    kept_just_where(records, kept, i);
    if kept(records[i]) {
        let field = choose|field: FieldId| #[trigger]
            mentions_under(records[i].values, field, needle);
        within_is_occurring(needle, lowercase(records[i].values[field]->Text_0));
        assert(has_text_with(records[i], field, query));
    }
    if exists|field: FieldId| #[trigger] has_text_with(records[i], field, query) {
        let field = choose|field: FieldId| #[trigger] has_text_with(records[i], field, query);
        within_is_occurring(needle, lowercase(records[i].values[field]->Text_0));
        assert(mentions_under(records[i].values, field, needle));
    }
}

/// A record is found by the very text that it holds, and by every text with
/// the same lower-case form.
pub proof fn found_by_its_own_text(
    records: Seq<RecordView>,
    i: int,
    field: FieldId,
    text: Seq<char>,
    query: Seq<char>,
)
    requires
        0 <= i < records.len(),
        records[i].values.dom().contains(field),
        records[i].values[field] == ValueView::Text(text),
        lowercase(query) == lowercase(text),
    ensures
        mentioning(records, lowercase(query)).contains(records[i]),
{
    let none = Seq::<char>::empty();
    assert(lowercase(text) =~= none + lowercase(query) + none);
    found_where_a_text_mentions_it(records, query, i, field, text, none, none);
}

/// The records of two lists that are found by a query are those of the first,
/// followed by those of the second, and a single record is either found as it
/// is or not at all.
pub proof fn found_by_text_in_order(
    first: Seq<RecordView>,
    second: Seq<RecordView>,
    record: RecordView,
    needle: Seq<char>,
)
    ensures
        mentioning(first + second, needle) == mentioning(first, needle) + mentioning(
            second,
            needle,
        ),
        mentioning(seq![record], needle) == seq![record] || mentioning(seq![record], needle)
            == Seq::<RecordView>::empty(),
        mentioning(Seq::empty(), needle) == Seq::<RecordView>::empty(),
{
    let kept = |found: RecordView| mentions(found.values, needle);
    Seq::filter_distributes_over_add(first, second, kept);
    of_one(record, kept);
}

/// Records can be looked up by the value of every field of every database but
/// a reference. Which of the three is missing or wrong is what the refusal
/// says.
pub proof fn searchable_by_all_but_references(
    databases: Seq<DatabaseView>,
    d: int,
    database_id: DatabaseId,
    field_id: FieldId,
)
    requires
        0 <= d < databases.len(),
        databases[d].id == database_id,
        forall|i: int, j: int|
            0 <= i < j < databases.len() ==> (#[trigger] databases[i]).id != (
            #[trigger] databases[j]).id,
    ensures
        (forall|k: int|
            0 <= k < databases[d].fields.len() ==> (#[trigger] databases[d].fields[k]).id
                != field_id) ==> search_error(databases, database_id, field_id) == Some(
            ErrorView::FieldNotFound(field_id),
        ),
        forall|k: int|
            0 <= k < databases[d].fields.len() && (#[trigger] databases[d].fields[k]).id == field_id
                && (forall|m: int|
                0 <= m < k ==> (#[trigger] databases[d].fields[m]).id != field_id)
                ==> if databases[d].fields[k].kind is Reference {
                search_error(databases, database_id, field_id) == Some(
                    ErrorView::UnsupportedFieldKindForValue {
                        field: field_id,
                        kind: "reference"@,
                    },
                )
            } else {
                search_error(databases, database_id, field_id) is None
            },
{
    assert(is_database(databases, database_id, d));
    database_index_is(databases, database_id, d);
    field_position_found(databases[d].fields, field_id);
}

/// Nothing can be looked up in a database that is not there.
pub proof fn nothing_is_searchable_in_no_database(
    databases: Seq<DatabaseView>,
    database_id: DatabaseId,
    field_id: FieldId,
)
    requires
        forall|i: int| 0 <= i < databases.len() ==> (#[trigger] databases[i]).id != database_id,
    ensures
        search_error(databases, database_id, field_id) == Some(
            ErrorView::DatabaseNotFound(database_id),
        ),
{
}

} // verus!
