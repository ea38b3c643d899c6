//! What passes between the store and its tables.

use vstd::prelude::*;

use crate::number::Number;
use crate::record::copy_bytes;
use crate::text::views;

verus! {

/// A value in a column, or one to be put there.
#[derive(Debug, PartialEq)]
pub enum SqlValue {
    Null,
    Integer(i64),
    Real(Number),
    Text(String),
    Blob(Vec<u8>),
}

/// A value in a column, or one to be put there.
pub ghost enum SqlView {
    Null,
    Integer(i64),
    Real(Number),
    Text(Seq<char>),
    Blob(Seq<u8>),
}

impl View for SqlValue {
    type V = SqlView;

    open spec fn view(&self) -> SqlView {
        match self {
            SqlValue::Null => SqlView::Null,
            SqlValue::Integer(n) => SqlView::Integer(*n),
            SqlValue::Real(number) => SqlView::Real(*number),
            SqlValue::Text(text) => SqlView::Text(text@),
            SqlValue::Blob(bytes) => SqlView::Blob(bytes@),
        }
    }
}

impl Clone for SqlValue {
    fn clone(&self) -> (copy: Self)
        ensures
            copy@ == self@,
    {
        match self {
            SqlValue::Null => SqlValue::Null,
            SqlValue::Integer(n) => SqlValue::Integer(*n),
            SqlValue::Real(number) => SqlValue::Real(*number),
            SqlValue::Text(text) => SqlValue::Text(text.clone()),
            SqlValue::Blob(bytes) => SqlValue::Blob(copy_bytes(bytes)),
        }
    }
}

/// A value read from a column, with what whoever read it makes of it: the
/// double nearest to it where it is an integer, and the form in which it is
/// shown to a reader.
#[derive(Debug)]
pub struct Cell {
    pub value: SqlValue,
    pub nearest: Number,
    pub shown: String,
}

/// A value read from a column.
pub ghost struct CellView {
    pub value: SqlView,
    pub nearest: Number,
    pub shown: Seq<char>,
}

impl View for Cell {
    type V = CellView;

    open spec fn view(&self) -> CellView {
        CellView { value: self.value@, nearest: self.nearest, shown: self.shown@ }
    }
}

/// One SQL statement with the values of its numbered parameters.
#[derive(Debug)]
pub struct Statement {
    pub sql: String,
    pub params: Vec<SqlValue>,
}

/// One SQL statement with the values of its numbered parameters.
pub ghost struct StatementView {
    pub sql: Seq<char>,
    pub params: Seq<SqlView>,
}

impl View for Statement {
    type V = StatementView;

    open spec fn view(&self) -> StatementView {
        StatementView { sql: self.sql@, params: views(self.params@) }
    }
}

} // verus!
