//! Evaluation of the expressions of linker scripts.
use crate::alignment;
use crate::expression::Expression;
use crate::hash_maps::NameMap;
use crate::memory_regions::{MemoryRegion, MemoryRegions};
use crate::output_section_id::PartId;
use crate::output_section_map::OutputSectionMap;
use crate::output_section_part_map::OutputSectionPartMap;
use crate::output_sections::OutputSections;
use crate::record_layout::OutputRecordLayout;
use vstd::arithmetic::power2::*;
use vstd::prelude::*;

verus! {

/// Why an expression has no value.
#[derive(Clone, Copy, Debug)]
pub enum EvalError<'data> {
    DivisionByZero,
    UnknownSymbol(&'data [u8]),
    /// The symbol is in a part that has no address yet.
    NotLaidOut(&'data [u8]),
    UnknownRegion(&'data [u8]),
    AssertionFailed(&'data [u8]),
    Overflow,
}

/// What a symbol stands for.
#[derive(Clone, Copy, Debug, PartialEq, Eq, Structural)]
pub enum SymbolValue {
    Absolute(u64),
    PartRelative { part_id: PartId, offset: u64 },
}

/// The values of symbols that expressions may use.
pub struct SymbolTable {
    positions: NameMap,
    values: Vec<SymbolValue>,
}

impl View for SymbolTable {
    type V = Map<Seq<u8>, SymbolValue>;

    closed spec fn view(&self) -> Map<Seq<u8>, SymbolValue> {
        Map::new(
            |name: Seq<u8>| self.positions@.contains_key(name),
            |name: Seq<u8>| self.values@[self.positions@[name] as int],
        )
    }
}

impl SymbolTable {
    pub closed spec fn wf(&self) -> bool {
        forall|name: Seq<u8>| #[trigger]
            self.positions@.contains_key(name) ==> self.positions@[name] < self.values@.len()
    }

    /// A table without symbols.
    pub fn new() -> (table: SymbolTable)
        ensures
            table.wf(),
            table@ == Map::<Seq<u8>, SymbolValue>::empty(),
    {
        let table = SymbolTable { positions: NameMap::new(), values: Vec::new() };
        assert(table@ =~= Map::<Seq<u8>, SymbolValue>::empty());
        table
    }

    /// Gives a symbol a value.
    pub fn define(&mut self, name: Vec<u8>, value: SymbolValue)
        requires
            old(self).wf(),
        ensures
            final(self).wf(),
            final(self)@ == old(self)@.insert(name@, value),
    {
        let position: u64 = self.values.len() as u64;
        let ghost key = name@;
        self.values.push(value);
        self.positions.insert(name, position);
        assert(self@ =~= old(self)@.insert(key, value));
    }

    /// The value of a symbol.
    pub fn get(&self, name: &[u8]) -> (value: Option<SymbolValue>)
        requires
            self.wf(),
        ensures
            value == (if self@.contains_key(name@) {
                Some(self@[name@])
            } else {
                None::<SymbolValue>
            }),
    {
        match self.positions.get(name) {
            Some(position) => {
                assert(position < self.values.len());
                Some(self.values[position as usize])
            },
            None => None,
        }
    }
}

/// What the value of an expression depends on.
pub struct EvalEnv<'a, 'data> {
    /// The value of `.`, if there is one.
    pub location: Option<u64>,
    pub regions: &'a MemoryRegions,
    pub sections: &'a OutputSections<'data>,
    pub layouts: &'a OutputSectionMap<OutputRecordLayout>,
    pub symbols: &'a SymbolTable,
    /// The addresses of the parts that have one.
    pub part_offsets: &'a OutputSectionPartMap<Option<u64>>,
    pub sizeof_headers: u64,
    /// The alignment and the size of the section that comes next.
    pub next_section: (u64, u64),
}

/// What the value of an expression depends on, as mathematical objects.
pub struct EnvView<'data> {
    pub location: Option<u64>,
    pub regions: Map<Seq<u8>, MemoryRegion>,
    pub sections: OutputSections<'data>,
    pub layouts: Seq<OutputRecordLayout>,
    pub symbols: Map<Seq<u8>, SymbolValue>,
    pub part_offsets: Map<u32, Option<u64>>,
    pub sizeof_headers: u64,
    pub next_section: (u64, u64),
}

impl<'a, 'data> EvalEnv<'a, 'data> {
    pub open spec fn view(&self) -> EnvView<'data> {
        EnvView {
            location: self.location,
            regions: self.regions@,
            sections: *self.sections,
            layouts: self.layouts@,
            symbols: self.symbols@,
            part_offsets: self.part_offsets@,
            sizeof_headers: self.sizeof_headers,
            next_section: self.next_section,
        }
    }

    pub open spec fn wf(&self) -> bool {
        &&& self.regions.wf()
        &&& self.sections.wf()
        &&& self.layouts@.len() == self.sections.count()
        &&& self.symbols.wf()
        &&& self.part_offsets.wf()
    }
}

/// The operators that take two values.
#[derive(Clone, Copy, Debug, PartialEq, Eq, Structural)]
pub enum BinaryOp {
    Add,
    Subtract,
    Multiply,
    Divide,
    Modulo,
    LessThan,
    GreaterThan,
    LessEqual,
    GreaterEqual,
    Equal,
    NotEqual,
    Min,
    Max,
}

pub open spec fn truth(value: bool) -> u64 {
    if value {
        1
    } else {
        0
    }
}

fn truth_value(value: bool) -> (number: u64)
    ensures
        number == truth(value),
{
    if value {
        1
    } else {
        0
    }
}

/// What an operator gives for two values. Sums, differences and products wrap around.
pub open spec fn operate<'data>(op: BinaryOp, l: u64, r: u64) -> Result<u64, EvalError<'data>> {
    match op {
        BinaryOp::Add => Ok(l.wrapping_add(r)),
        BinaryOp::Subtract => Ok(l.wrapping_sub(r)),
        BinaryOp::Multiply => Ok(l.wrapping_mul(r)),
        BinaryOp::Divide => if r == 0 {
            Err(EvalError::DivisionByZero)
        } else {
            Ok(l / r)
        },
        BinaryOp::Modulo => if r == 0 {
            Err(EvalError::DivisionByZero)
        } else {
            Ok(l % r)
        },
        BinaryOp::LessThan => Ok(truth(l < r)),
        BinaryOp::GreaterThan => Ok(truth(l > r)),
        BinaryOp::LessEqual => Ok(truth(l <= r)),
        BinaryOp::GreaterEqual => Ok(truth(l >= r)),
        BinaryOp::Equal => Ok(truth(l == r)),
        BinaryOp::NotEqual => Ok(truth(l != r)),
        BinaryOp::Min => Ok(if l <= r { l } else { r }),
        BinaryOp::Max => Ok(if l >= r { l } else { r }),
    }
}

/// What an operator gives for two operands. If an operand has no value, neither has the whole.
pub open spec fn combined<'data>(
    op: BinaryOp,
    l: Result<u64, EvalError<'data>>,
    r: Result<u64, EvalError<'data>>,
) -> Result<u64, EvalError<'data>> {
    match (l, r) {
        (Err(error), _) => Err(error),
        (_, Err(error)) => Err(error),
        (Ok(l), Ok(r)) => operate(op, l, r),
    }
}

fn combine<'data>(
    op: BinaryOp,
    l: Result<u64, EvalError<'data>>,
    r: Result<u64, EvalError<'data>>,
) -> (value: Result<u64, EvalError<'data>>)
    ensures
        value == combined(op, l, r),
{
    match (l, r) {
        (Err(error), _) => Err(error),
        (_, Err(error)) => Err(error),
        (Ok(l), Ok(r)) => match op {
            BinaryOp::Add => Ok(l.wrapping_add(r)),
            BinaryOp::Subtract => Ok(l.wrapping_sub(r)),
            BinaryOp::Multiply => Ok(l.wrapping_mul(r)),
            BinaryOp::Divide => {
                if r == 0 {
                    Err(EvalError::DivisionByZero)
                } else {
                    Ok(l / r)
                }
            },
            BinaryOp::Modulo => {
                if r == 0 {
                    Err(EvalError::DivisionByZero)
                } else {
                    Ok(l % r)
                }
            },
            BinaryOp::LessThan => Ok(truth_value(l < r)),
            BinaryOp::GreaterThan => Ok(truth_value(l > r)),
            BinaryOp::LessEqual => Ok(truth_value(l <= r)),
            BinaryOp::GreaterEqual => Ok(truth_value(l >= r)),
            BinaryOp::Equal => Ok(truth_value(l == r)),
            BinaryOp::NotEqual => Ok(truth_value(l != r)),
            BinaryOp::Min => Ok(if l <= r { l } else { r }),
            BinaryOp::Max => Ok(if l >= r { l } else { r }),
        },
    }
}

/// The next multiple of an alignment. An alignment of zero changes nothing.
pub open spec fn aligned_value<'data>(value: u64, alignment: u64) -> Result<u64, EvalError<'data>> {
    if alignment == 0 {
        Ok(value)
    } else if alignment::round_up(value as int, alignment as int) <= u64::MAX {
        Ok(alignment::round_up(value as int, alignment as int) as u64)
    } else {
        Err(EvalError::Overflow)
    }
}

fn align_value<'data>(value: u64, alignment: u64) -> (aligned: Result<u64, EvalError<'data>>)
    ensures
        aligned == aligned_value(value, alignment),
{
    if alignment == 0 {
        return Ok(value);
    }
    let remainder: u64 = value % alignment;
    if remainder == 0 {
        Ok(value)
    } else {
        match value.checked_add(alignment - remainder) {
            Some(aligned) => Ok(aligned),
            None => Err(EvalError::Overflow),
        }
    }
}

/// The least exponent of a power of two that is not below a value.
pub open spec fn is_log2_ceil(value: u64, exponent: u64) -> bool {
    &&& value <= pow2(exponent as nat)
    &&& exponent > 0 ==> pow2((exponent - 1) as nat) < value
}

/// A value has one such exponent only.
pub proof fn lemma_log2_ceil_unique(value: u64, a: u64, b: u64)
    requires
        is_log2_ceil(value, a),
        is_log2_ceil(value, b),
    ensures
        a == b,
{
    if a < b {
        if a < b - 1 {
            lemma_pow2_strictly_increases(a as nat, (b - 1) as nat);
        }
    }
    if b < a {
        if b < a - 1 {
            lemma_pow2_strictly_increases(b as nat, (a - 1) as nat);
        }
    }
}

/// The least exponent of a power of two that is not below a value.
pub open spec fn spec_log2_ceil(value: u64) -> u64 {
    choose|exponent: u64| is_log2_ceil(value, exponent)
}

/// The least exponent of a power of two that is not below a value.
pub fn log2_ceil(value: u64) -> (exponent: u64)
    ensures
        is_log2_ceil(value, exponent),
        exponent == spec_log2_ceil(value),
        exponent <= 64,
{
    proof {
        lemma2_to64();
        lemma2_to64_rest();
    }
    let mut exponent: u64 = 0;
    let mut power: u64 = 1;
    while power < value
        invariant
            exponent < 64,
            power == pow2(exponent as nat),
            exponent > 0 ==> pow2((exponent - 1) as nat) < value,
            pow2(64) == 0x10000000000000000,
            pow2(63) == 0x8000000000000000,
        decreases 64 - exponent,
    {
        proof {
            lemma_pow2_unfold((exponent + 1) as nat);
        }
        if exponent == 63 {
            proof {
                assert(is_log2_ceil(value, 64));
                lemma_log2_ceil_unique(value, 64, spec_log2_ceil(value));
            }
            return 64;
        }
        proof {
            if exponent < 62 {
                lemma_pow2_strictly_increases((exponent + 1) as nat, 63);
            }
        }
        exponent = exponent + 1;
        power = power * 2;
    }
    proof {
        assert(is_log2_ceil(value, exponent));
        lemma_log2_ceil_unique(value, exponent, spec_log2_ceil(value));
    }
    exponent
}

/// Where a data segment starts that follows code at `value`: on the next page, at the same offset
/// in the page.
pub fn data_segment_align(value: u64, page_size: u64) -> (address: u64)
    requires
        page_size > 0,
        alignment::round_up(value as int, page_size as int) + value % page_size <= u64::MAX,
    ensures
        address == alignment::round_up(value as int, page_size as int) + value % page_size,
{
    let offset: u64 = value % page_size;
    if offset == 0 {
        value
    } else {
        value + (page_size - offset) + offset
    }
}

/// The value of an expression.
pub open spec fn value_of<'data>(
    expression: Expression<'data>,
    env: EnvView<'data>,
) -> Result<u64, EvalError<'data>>
    decreases expression,
{
    match expression {
        Expression::Number(value) => Ok(value),
        Expression::LocationCounter => Ok(match env.location {
            Some(value) => value,
            None => 0,
        }),
        Expression::Symbol(name) => if !env.symbols.contains_key(name@) {
            Err(EvalError::UnknownSymbol(name))
        } else {
            match env.symbols[name@] {
                SymbolValue::Absolute(value) => Ok(value),
                SymbolValue::PartRelative { part_id, offset } => if !env.part_offsets.contains_key(
                    part_id.0,
                ) {
                    Err(EvalError::NotLaidOut(name))
                } else {
                    match env.part_offsets[part_id.0] {
                        None => Err(EvalError::NotLaidOut(name)),
                        Some(base) => Ok(base.wrapping_add(offset)),
                    }
                },
            }
        },
        Expression::Absolute(inner) => value_of(*inner, env),
        Expression::Add(l, r) => combined(BinaryOp::Add, value_of(*l, env), value_of(*r, env)),
        Expression::Subtract(l, r) => combined(BinaryOp::Subtract, value_of(*l, env), value_of(*r, env)),
        Expression::Multiply(l, r) => combined(BinaryOp::Multiply, value_of(*l, env), value_of(*r, env)),
        Expression::Divide(l, r) => combined(BinaryOp::Divide, value_of(*l, env), value_of(*r, env)),
        Expression::Modulo(l, r) => combined(BinaryOp::Modulo, value_of(*l, env), value_of(*r, env)),
        Expression::LessThan(l, r) => combined(BinaryOp::LessThan, value_of(*l, env), value_of(*r, env)),
        Expression::GreaterThan(l, r) => combined(BinaryOp::GreaterThan, value_of(*l, env), value_of(*r, env)),
        Expression::LessEqual(l, r) => combined(BinaryOp::LessEqual, value_of(*l, env), value_of(*r, env)),
        Expression::GreaterEqual(l, r) => combined(BinaryOp::GreaterEqual, value_of(*l, env), value_of(*r, env)),
        Expression::Equal(l, r) => combined(BinaryOp::Equal, value_of(*l, env), value_of(*r, env)),
        Expression::NotEqual(l, r) => combined(BinaryOp::NotEqual, value_of(*l, env), value_of(*r, env)),
        Expression::Min(l, r) => combined(BinaryOp::Min, value_of(*l, env), value_of(*r, env)),
        Expression::Max(l, r) => combined(BinaryOp::Max, value_of(*l, env), value_of(*r, env)),
        Expression::Align(alignment, value) => match value_of(*alignment, env) {
            Err(error) => Err(error),
            Ok(alignment) => match value {
                None => aligned_value(
                    match env.location {
                        Some(value) => value,
                        None => 0,
                    },
                    alignment,
                ),
                Some(value) => match value_of(*value, env) {
                    Err(error) => Err(error),
                    Ok(value) => aligned_value(value, alignment),
                },
            },
        },
        Expression::Log2Ceil(inner) => match value_of(*inner, env) {
            Err(error) => Err(error),
            Ok(value) => Ok(spec_log2_ceil(value)),
        },
        Expression::Sizeof(name) => Ok(match env.sections.by_name(name@) {
            None => 0,
            Some(id) => env.layouts[id.0 as int].mem_size,
        }),
        Expression::Alignof(name) => Ok(match env.sections.by_name(name@) {
            None => 0,
            Some(id) => env.layouts[id.0 as int].alignment.bytes() as u64,
        }),
        Expression::SizeofNextSection => Ok(env.next_section.1),
        Expression::AlignofNextSection => Ok(env.next_section.0),
        Expression::Origin(name) => if env.regions.contains_key(name@) {
            Ok(env.regions[name@].origin)
        } else {
            Err(EvalError::UnknownRegion(name))
        },
        Expression::Length(name) => if env.regions.contains_key(name@) {
            Ok(env.regions[name@].length)
        } else {
            Err(EvalError::UnknownRegion(name))
        },
        Expression::SizeofHeaders => Ok(env.sizeof_headers),
        Expression::Assert(command) => match value_of(*command.expression, env) {
            Err(error) => Err(error),
            Ok(value) => if value == 0 {
                Err(EvalError::AssertionFailed(command.message))
            } else {
                Ok(value)
            },
        },
    }
}

impl<'data> Expression<'data> {
    /// The value of the expression.
    pub fn evaluate<'a>(&self, env: &EvalEnv<'a, 'data>) -> (value: Result<u64, EvalError<'data>>)
        requires
            env.wf(),
        ensures
            value == value_of(*self, env.view()),
        decreases *self,
    {
        match *self {
            Expression::Number(value) => Ok(value),
            Expression::LocationCounter => Ok(
                match env.location {
                    Some(value) => value,
                    None => 0,
                },
            ),
            Expression::Symbol(name) => match env.symbols.get(name) {
                None => Err(EvalError::UnknownSymbol(name)),
                Some(SymbolValue::Absolute(value)) => Ok(value),
                Some(SymbolValue::PartRelative { part_id, offset }) => {
                    match env.part_offsets.get(part_id) {
                        None => Err(EvalError::NotLaidOut(name)),
                        Some(base) => Ok(base.wrapping_add(offset)),
                    }
                },
            },
            Expression::Absolute(inner) => inner.evaluate(env),
            Expression::Add(l, r) => combine(BinaryOp::Add, l.evaluate(env), r.evaluate(env)),
            Expression::Subtract(l, r) => combine(BinaryOp::Subtract, l.evaluate(env), r.evaluate(env)),
            Expression::Multiply(l, r) => combine(BinaryOp::Multiply, l.evaluate(env), r.evaluate(env)),
            Expression::Divide(l, r) => combine(BinaryOp::Divide, l.evaluate(env), r.evaluate(env)),
            Expression::Modulo(l, r) => combine(BinaryOp::Modulo, l.evaluate(env), r.evaluate(env)),
            Expression::LessThan(l, r) => combine(BinaryOp::LessThan, l.evaluate(env), r.evaluate(env)),
            Expression::GreaterThan(l, r) => combine(BinaryOp::GreaterThan, l.evaluate(env), r.evaluate(env)),
            Expression::LessEqual(l, r) => combine(BinaryOp::LessEqual, l.evaluate(env), r.evaluate(env)),
            Expression::GreaterEqual(l, r) => combine(BinaryOp::GreaterEqual, l.evaluate(env), r.evaluate(env)),
            Expression::Equal(l, r) => combine(BinaryOp::Equal, l.evaluate(env), r.evaluate(env)),
            Expression::NotEqual(l, r) => combine(BinaryOp::NotEqual, l.evaluate(env), r.evaluate(env)),
            Expression::Min(l, r) => combine(BinaryOp::Min, l.evaluate(env), r.evaluate(env)),
            Expression::Max(l, r) => combine(BinaryOp::Max, l.evaluate(env), r.evaluate(env)),
            Expression::Align(alignment, value) => match alignment.evaluate(env) {
                Err(error) => Err(error),
                Ok(alignment) => match value {
                    None => align_value(
                        match env.location {
                            Some(value) => value,
                            None => 0,
                        },
                        alignment,
                    ),
                    Some(value) => match value.evaluate(env) {
                        Err(error) => Err(error),
                        Ok(value) => align_value(value, alignment),
                    },
                },
            },
            Expression::Log2Ceil(inner) => match inner.evaluate(env) {
                Err(error) => Err(error),
                Ok(value) => Ok(log2_ceil(value)),
            },
            Expression::Sizeof(name) => Ok(
                match env.sections.section_id_by_name(name) {
                    None => 0,
                    Some(id) => env.layouts.get(id).mem_size,
                },
            ),
            Expression::Alignof(name) => Ok(
                match env.sections.section_id_by_name(name) {
                    None => 0,
                    Some(id) => env.layouts.get(id).alignment.value(),
                },
            ),
            Expression::SizeofNextSection => Ok(env.next_section.1),
            Expression::AlignofNextSection => Ok(env.next_section.0),
            Expression::Origin(name) => match env.regions.get(name) {
                Some(region) => Ok(region.origin),
                None => Err(EvalError::UnknownRegion(name)),
            },
            Expression::Length(name) => match env.regions.get(name) {
                Some(region) => Ok(region.length),
                None => Err(EvalError::UnknownRegion(name)),
            },
            Expression::SizeofHeaders => Ok(env.sizeof_headers),
            Expression::Assert(command) => match command.expression.evaluate(env) {
                Err(error) => Err(error),
                Ok(value) => {
                    if value == 0 {
                        Err(EvalError::AssertionFailed(command.message))
                    } else {
                        Ok(value)
                    }
                },
            },
        }
    }
}

} // verus!
