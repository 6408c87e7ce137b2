use crate::address::NodeAddress;
use vstd::prelude::*;

verus! {

/// A tagged, dynamically typed scalar held in a row. The operators move
/// these values around but never look inside them; rows are compared by
/// value only in tests and by the surrounding engine.
#[derive(Clone, PartialEq, Debug)]
pub enum DataType {
    Null,
    Int(i64),
    Text(String),
    Timestamp(i64),
}

/// A signed row: an insertion (positive) or a retraction (negative) of
/// one row of column values. A positive and a negative record with the
/// same values cancel each other downstream.
#[derive(Clone, PartialEq, Debug)]
pub enum Record {
    Positive(Vec<DataType>),
    Negative(Vec<DataType>),
}

impl Record {
    /// The column values of this record.
    pub open spec fn row(self) -> Seq<DataType> {
        match self {
            Record::Positive(r) => r@,
            Record::Negative(r) => r@,
        }
    }

    pub open spec fn is_positive(self) -> bool {
        self matches Record::Positive(_)
    }
}

/// A batch of records flowing along one graph edge; the unit of
/// propagation between operators.
#[derive(Clone, PartialEq, Debug)]
pub enum Update {
    Records(Vec<Record>),
}

impl Update {
    pub open spec fn records(self) -> Seq<Record> {
        match self {
            Update::Records(rs) => rs@,
        }
    }
}

/// One delivery to an operator: the address the batch came from, and the
/// batch itself.
#[derive(Clone, PartialEq, Debug)]
pub struct Message {
    pub from: NodeAddress,
    pub data: Update,
}

} // verus!
