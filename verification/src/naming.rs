//! The names of the tables and columns that the store keeps things in.

use vstd::prelude::*;
use vstd::string::StringExecFns;

use crate::ids::{DatabaseId, FieldId};
use crate::uuids::{print_simple, simple_text, simple_text_injective};

verus! {

/// The table of a database's records.
pub open spec fn table_of(id: DatabaseId) -> Seq<char> {
    "db_"@ + simple_text(id.0)
}

/// The column of a field's values.
pub open spec fn column_of(id: FieldId) -> Seq<char> {
    "field_"@ + simple_text(id.0)
}

/// The two fields of a pair, the one with the lower id first.
pub open spec fn ordered_pair(a: FieldId, b: FieldId) -> (FieldId, FieldId) {
    if a.0 <= b.0 {
        (a, b)
    } else {
        (b, a)
    }
}

/// The table of the relationships between two paired fields.
pub open spec fn reference_table_of(a: FieldId, b: FieldId) -> Seq<char> {
    "ref_"@ + simple_text(ordered_pair(a, b).0.0)
}

/// The table of a database's records.
pub fn database_table_name(id: DatabaseId) -> (name: String)
    ensures
        name@ == table_of(id),
{
    "db_".to_string().concat(print_simple(id.0).as_str())
}

/// The column of a field's values.
pub fn field_column_name(id: FieldId) -> (name: String)
    ensures
        name@ == column_of(id),
{
    "field_".to_string().concat(print_simple(id.0).as_str())
}

/// Which column of a pair's table holds a field's own side.
#[derive(Clone, Copy, Debug, PartialEq, Eq, Structural)]
pub enum ReferenceSide {
    A,
    B,
}

/// The other side.
pub open spec fn opposite(side: ReferenceSide) -> ReferenceSide {
    match side {
        ReferenceSide::A => ReferenceSide::B,
        ReferenceSide::B => ReferenceSide::A,
    }
}

/// The side that a field has in its pair's table.
pub open spec fn side_of(field: FieldId, pair: FieldId) -> ReferenceSide {
    if ordered_pair(field, pair).0 == field {
        ReferenceSide::A
    } else {
        ReferenceSide::B
    }
}

/// The two fields of a pair, the one with the lower id first, so that both
/// agree on one table and on its columns.
pub fn canonical_pair(a: FieldId, b: FieldId) -> (pair: (FieldId, FieldId))
    ensures
        pair == ordered_pair(a, b),
{
    if a.0 <= b.0 {
        (a, b)
    } else {
        (b, a)
    }
}

/// The side that a field has in its pair's table.
pub fn reference_side(field_id: FieldId, paired_field_id: FieldId) -> (side: ReferenceSide)
    ensures
        side == side_of(field_id, paired_field_id),
{
    if canonical_pair(field_id, paired_field_id).0 == field_id {
        ReferenceSide::A
    } else {
        ReferenceSide::B
    }
}

/// The table of the relationships between two paired fields.
pub fn reference_table_name(field_a: FieldId, field_b: FieldId) -> (name: String)
    ensures
        name@ == reference_table_of(field_a, field_b),
{
    let pair = canonical_pair(field_a, field_b);
    "ref_".to_string().concat(print_simple(pair.0.0).as_str())
}

/// The column that holds a side.
pub open spec fn column_of_side(side: ReferenceSide) -> Seq<char> {
    match side {
        ReferenceSide::A => "link_a"@,
        ReferenceSide::B => "link_b"@,
    }
}

/// The column that holds a side.
pub fn side_column(side: ReferenceSide) -> (name: &'static str)
    ensures
        name@ == column_of_side(side),
{
    match side {
        ReferenceSide::A => "link_a",
        ReferenceSide::B => "link_b",
    }
}

/// The other side.
pub fn other_side(side: ReferenceSide) -> (other: ReferenceSide)
    ensures
        other == opposite(side),
{
    match side {
        ReferenceSide::A => ReferenceSide::B,
        ReferenceSide::B => ReferenceSide::A,
    }
}

/// Two texts after the same prefix are equal only if the wholes are.
proof fn after_prefix(prefix: Seq<char>, a: Seq<char>, b: Seq<char>)
    requires
        prefix + a == prefix + b,
    ensures
        a == b,
{
    assert((prefix + a).subrange(prefix.len() as int, (prefix + a).len() as int) =~= a);
    assert((prefix + b).subrange(prefix.len() as int, (prefix + b).len() as int) =~= b);
}

/// Two databases never share a table.
pub proof fn tables_distinct(a: DatabaseId, b: DatabaseId)
    requires
        table_of(a) == table_of(b),
    ensures
        a == b,
{
    after_prefix("db_"@, simple_text(a.0), simple_text(b.0));
    simple_text_injective(a.0, b.0);
}

/// Two fields never share a column.
pub proof fn columns_distinct(a: FieldId, b: FieldId)
    requires
        column_of(a) == column_of(b),
    ensures
        a == b,
{
    after_prefix("field_"@, simple_text(a.0), simple_text(b.0));
    simple_text_injective(a.0, b.0);
}

/// Two pairs of fields that have no field in common never share a table.
pub proof fn reference_tables_distinct(a: FieldId, b: FieldId, c: FieldId, d: FieldId)
    requires
        reference_table_of(a, b) == reference_table_of(c, d),
    ensures
        ordered_pair(a, b).0 == ordered_pair(c, d).0,
        a == c || a == d || b == c || b == d,
{
    let x = ordered_pair(a, b).0;
    let y = ordered_pair(c, d).0;
    after_prefix("ref_"@, simple_text(x.0), simple_text(y.0));
    simple_text_injective(x.0, y.0);
}

/// A table of records is never a table of relationships.
pub proof fn tables_not_shared(id: DatabaseId, a: FieldId, b: FieldId)
    ensures
        table_of(id) != reference_table_of(a, b),
{
    reveal_strlit("db_");
    reveal_strlit("ref_");
    assert(table_of(id)[0] == 'd');
    assert(reference_table_of(a, b)[0] == 'r');
}

/// Both fields of a pair agree on the table, and have opposite sides in it.
pub proof fn pair_agrees(a: FieldId, b: FieldId)
    ensures
        ordered_pair(a, b) == ordered_pair(b, a),
        reference_table_of(a, b) == reference_table_of(b, a),
        a != b ==> side_of(a, b) == opposite(side_of(b, a)),
{
}

} // verus!
