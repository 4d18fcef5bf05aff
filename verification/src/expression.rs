//! Expressions of linker scripts.
use vstd::prelude::*;

verus! {

/// An expression of a linker script.
#[derive(Clone, Copy, Debug)]
pub enum Expression<'data> {
    Number(u64),
    /// `.`
    LocationCounter,
    Symbol(&'data [u8]),
    Absolute(&'data Expression<'data>),
    Add(&'data Expression<'data>, &'data Expression<'data>),
    Subtract(&'data Expression<'data>, &'data Expression<'data>),
    Multiply(&'data Expression<'data>, &'data Expression<'data>),
    Divide(&'data Expression<'data>, &'data Expression<'data>),
    Modulo(&'data Expression<'data>, &'data Expression<'data>),
    LessThan(&'data Expression<'data>, &'data Expression<'data>),
    GreaterThan(&'data Expression<'data>, &'data Expression<'data>),
    LessEqual(&'data Expression<'data>, &'data Expression<'data>),
    GreaterEqual(&'data Expression<'data>, &'data Expression<'data>),
    Equal(&'data Expression<'data>, &'data Expression<'data>),
    NotEqual(&'data Expression<'data>, &'data Expression<'data>),
    Min(&'data Expression<'data>, &'data Expression<'data>),
    Max(&'data Expression<'data>, &'data Expression<'data>),
    /// `ALIGN(alignment)` of the location counter or `ALIGN(value, alignment)`.
    Align(&'data Expression<'data>, Option<&'data Expression<'data>>),
    Log2Ceil(&'data Expression<'data>),
    Sizeof(&'data [u8]),
    Alignof(&'data [u8]),
    SizeofNextSection,
    AlignofNextSection,
    Origin(&'data [u8]),
    Length(&'data [u8]),
    SizeofHeaders,
    Assert(AssertCommand<'data>),
}

/// `ASSERT(expression, message)`
#[derive(Clone, Copy, Debug)]
pub struct AssertCommand<'data> {
    pub expression: &'data Expression<'data>,
    pub message: &'data [u8],
}

/// What `.` means in an expression.
#[derive(Clone, Copy, Debug, PartialEq, Eq, Structural)]
pub enum SymbolLoc {
    Nowhere,
    /// The end of what has been laid out so far.
    SectionEnd,
    /// The location counter with the given index.
    LocationCounter(usize),
}

/// Whether an expression speaks of the section that comes next.
pub open spec fn mentions_next_section(expression: Expression) -> bool
    decreases expression,
{
    match expression {
        Expression::SizeofNextSection | Expression::AlignofNextSection => true,
        Expression::Absolute(inner) | Expression::Log2Ceil(inner) => mentions_next_section(*inner),
        Expression::Assert(command) => mentions_next_section(*command.expression),
        Expression::Align(alignment, value) => mentions_next_section(*alignment) || (match value {
            Some(value) => mentions_next_section(*value),
            None => false,
        }),
            Expression::Add(l, r)
            | Expression::Subtract(l, r)
            | Expression::Multiply(l, r)
            | Expression::Divide(l, r)
            | Expression::Modulo(l, r)
            | Expression::LessThan(l, r)
            | Expression::GreaterThan(l, r)
            | Expression::LessEqual(l, r)
            | Expression::GreaterEqual(l, r)
            | Expression::Equal(l, r)
            | Expression::NotEqual(l, r)
            | Expression::Min(l, r)
            | Expression::Max(l, r) => mentions_next_section(*l)
            || mentions_next_section(*r),
        _ => false,
    }
}

impl<'data> Expression<'data> {
    /// Whether the expression speaks of the section that comes next.
    pub fn contains_next_section(&self) -> (contains: bool)
        ensures
            contains == mentions_next_section(*self),
        decreases *self,
    {
        match *self {
            Expression::SizeofNextSection | Expression::AlignofNextSection => true,
            Expression::Absolute(inner) | Expression::Log2Ceil(inner) =>
                inner.contains_next_section(),
            Expression::Assert(command) => command.expression.contains_next_section(),
            Expression::Align(alignment, value) => alignment.contains_next_section() || (
            match value {
                Some(value) => value.contains_next_section(),
                None => false,
            }),
            Expression::Add(l, r)
            | Expression::Subtract(l, r)
            | Expression::Multiply(l, r)
            | Expression::Divide(l, r)
            | Expression::Modulo(l, r)
            | Expression::LessThan(l, r)
            | Expression::GreaterThan(l, r)
            | Expression::LessEqual(l, r)
            | Expression::GreaterEqual(l, r)
            | Expression::Equal(l, r)
            | Expression::NotEqual(l, r)
            | Expression::Min(l, r)
            | Expression::Max(l, r) => l.contains_next_section()
                || r.contains_next_section(),
            _ => false,
        }
    }
}

} // verus!
