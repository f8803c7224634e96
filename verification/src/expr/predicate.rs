//! Literals and bound predicates.

use vstd::prelude::*;

use crate::table::schema::PrimitiveType;

verus! {

/// A literal value. Floating-point values are held as their bits.
#[derive(Debug, Clone, PartialEq, Eq)]
pub enum PrimitiveLiteral {
    Boolean(bool),
    Int(i32),
    Long(i64),
    /// The bits of a single-precision value.
    Float(u32),
    /// The bits of a double-precision value.
    Double(u64),
    Text(String),
    Binary(Vec<u8>),
    /// A decimal's unscaled value.
    Int128(i128),
    UInt128(u128),
    AboveMax,
    BelowMin,
}

/// What a [`PrimitiveLiteral`] is.
pub enum LiteralView {
    Boolean(bool),
    Int(i32),
    Long(i64),
    Float(u32),
    Double(u64),
    Text(Seq<char>),
    Binary(Seq<u8>),
    Int128(i128),
    UInt128(u128),
    AboveMax,
    BelowMin,
}

impl View for PrimitiveLiteral {
    type V = LiteralView;

    open spec fn view(&self) -> LiteralView {
        match *self {
            PrimitiveLiteral::Boolean(v) => LiteralView::Boolean(v),
            PrimitiveLiteral::Int(v) => LiteralView::Int(v),
            PrimitiveLiteral::Long(v) => LiteralView::Long(v),
            PrimitiveLiteral::Float(bits) => LiteralView::Float(bits),
            PrimitiveLiteral::Double(bits) => LiteralView::Double(bits),
            PrimitiveLiteral::Text(v) => LiteralView::Text(v@),
            PrimitiveLiteral::Binary(v) => LiteralView::Binary(v@),
            PrimitiveLiteral::Int128(v) => LiteralView::Int128(v),
            PrimitiveLiteral::UInt128(v) => LiteralView::UInt128(v),
            PrimitiveLiteral::AboveMax => LiteralView::AboveMax,
            PrimitiveLiteral::BelowMin => LiteralView::BelowMin,
        }
    }
}

/// A literal with its type.
#[derive(Debug, Clone, PartialEq, Eq)]
pub struct Datum {
    pub data_type: PrimitiveType,
    pub literal: PrimitiveLiteral,
}

/// A reference to a field of a schema.
#[derive(Debug, Clone, PartialEq, Eq)]
pub struct BoundReference {
    pub column_name: String,
    pub field_id: i32,
}

/// A test of one value.
#[derive(Debug, Clone, Copy, PartialEq, Eq, Structural)]
pub enum UnaryOperator {
    IsNull,
    NotNull,
    IsNan,
    NotNan,
}

/// A comparison with one literal.
#[derive(Debug, Clone, Copy, PartialEq, Eq, Structural)]
pub enum BinaryOperator {
    LessThan,
    LessThanOrEq,
    GreaterThan,
    GreaterThanOrEq,
    Eq,
    NotEq,
    StartsWith,
    NotStartsWith,
}

/// A comparison with a set of literals.
#[derive(Debug, Clone, Copy, PartialEq, Eq, Structural)]
pub enum SetOperator {
    In,
    NotIn,
}

/// A predicate whose references are bound to the fields of a schema.
#[derive(Debug, PartialEq, Eq)]
pub enum BoundPredicate {
    AlwaysTrue,
    AlwaysFalse,
    And(Box<BoundPredicate>, Box<BoundPredicate>),
    Or(Box<BoundPredicate>, Box<BoundPredicate>),
    Not(Box<BoundPredicate>),
    Unary(UnaryOperator, BoundReference),
    Binary(BinaryOperator, BoundReference, Datum),
    Membership(SetOperator, BoundReference, Vec<Datum>),
}

/// A literal is seen as the value that it holds, under its own kind.
pub proof fn law_literals_are_seen_as_they_are(literal: PrimitiveLiteral)
    ensures
        literal matches PrimitiveLiteral::Boolean(v) ==> literal@ == LiteralView::Boolean(v),
        literal matches PrimitiveLiteral::Int(v) ==> literal@ == LiteralView::Int(v),
        literal matches PrimitiveLiteral::Long(v) ==> literal@ == LiteralView::Long(v),
        literal matches PrimitiveLiteral::Float(v) ==> literal@ == LiteralView::Float(v),
        literal matches PrimitiveLiteral::Double(v) ==> literal@ == LiteralView::Double(v),
        literal matches PrimitiveLiteral::Text(v) ==> literal@ == LiteralView::Text(v@),
        literal matches PrimitiveLiteral::Binary(v) ==> literal@ == LiteralView::Binary(v@),
        literal matches PrimitiveLiteral::Int128(v) ==> literal@ == LiteralView::Int128(v),
        literal matches PrimitiveLiteral::UInt128(v) ==> literal@ == LiteralView::UInt128(v),
        literal is AboveMax ==> literal@ is AboveMax,
        literal is BelowMin ==> literal@ is BelowMin,
{
}

} // verus!
