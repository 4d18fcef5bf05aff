//! Power-of-two alignments.
use vstd::arithmetic::div_mod::*;
use vstd::arithmetic::power2::*;
use vstd::bits::*;
use vstd::prelude::*;

verus! {

/// The largest supported alignment, as a power of two.
pub const MAX_ALIGNMENT_EXPONENT: u8 = 16;

/// The number of supported alignments.
pub const NUM_ALIGNMENTS: usize = 17;

/// An alignment, stored as the exponent of a power of two.
#[derive(Clone, Copy, Debug, PartialEq, Eq, PartialOrd, Ord, Hash, Structural)]
pub struct Alignment {
    exponent: u8,
}

/// The least multiple of `value` that is not below `offset`.
pub open spec fn round_up(offset: int, value: int) -> int {
    if offset % value == 0 {
        offset
    } else {
        offset - offset % value + value
    }
}

/// The greatest multiple of `value` that is not above `offset`.
pub open spec fn round_down(offset: int, value: int) -> int {
    offset - offset % value
}

/// The least number that is not below `offset` and congruent to `reference` modulo `value`.
pub open spec fn round_up_congruent(reference: int, offset: int, value: int) -> int {
    let congruent = round_down(offset, value) + reference % value;
    if congruent >= offset {
        congruent
    } else {
        congruent + value
    }
}

/// What `round_up` returns is aligned, is not below its argument and is the least such number.
pub proof fn lemma_round_up(offset: int, value: int)
    requires
        value > 0,
    ensures
        round_up(offset, value) % value == 0,
        offset <= round_up(offset, value) < offset + value,
        forall|other: int|
            other >= offset && #[trigger] (other % value) == 0 ==> round_up(offset, value) <= other,
{
    lemma_fundamental_div_mod(offset, value);
    let q = offset / value;
    assert(0 <= offset % value < value);
    assert(value * q + value == value * (q + 1)) by (nonlinear_arith);
    if offset % value != 0 {
        lemma_mod_multiples_basic(q + 1, value);
        assert((q + 1) * value == value * (q + 1)) by (nonlinear_arith);
    }
    assert forall|other: int| other >= offset && #[trigger] (other % value) == 0 implies round_up(
        offset,
        value,
    ) <= other by {
        lemma_fundamental_div_mod(other, value);
        let p = other / value;
        if offset % value != 0 && p <= q {
            assert(value * p <= value * q) by (nonlinear_arith)
                requires
                    p <= q,
                    value > 0,
            ;
        }
        if p >= q + 1 {
            assert(value * p >= value * (q + 1)) by (nonlinear_arith)
                requires
                    p >= q + 1,
                    value > 0,
            ;
        }
    }
}

/// Rounding up something that is already aligned changes nothing.
pub proof fn lemma_round_up_idempotent(offset: int, value: int)
    requires
        value > 0,
    ensures
        round_up(round_up(offset, value), value) == round_up(offset, value),
{
    lemma_round_up(offset, value);
}

/// What `round_up_congruent` returns is congruent to the reference, is not below the offset and
/// is less than one alignment away from it.
pub proof fn lemma_round_up_congruent(reference: int, offset: int, value: int)
    requires
        value > 0,
    ensures
        round_up_congruent(reference, offset, value) % value == reference % value,
        offset <= round_up_congruent(reference, offset, value) < offset + value,
{
    lemma_fundamental_div_mod(offset, value);
    let q = offset / value;
    let r = reference % value;
    assert(0 <= offset % value < value);
    assert(0 <= r < value);
    assert(value * q + value == value * (q + 1)) by (nonlinear_arith);
    assert(value * q == q * value && value * (q + 1) == (q + 1) * value) by (nonlinear_arith);
    lemma_fundamental_div_mod_converse_mod(q * value + r, value, q, r);
    lemma_fundamental_div_mod_converse_mod((q + 1) * value + r, value, q + 1, r);
}

/// What is a multiple of a power of two is a multiple of every lower one.
pub proof fn lemma_lower_power_divides(offset: int, low: nat, high: nat)
    requires
        low <= high,
        offset % (pow2(high) as int) == 0,
    ensures
        offset % (pow2(low) as int) == 0,
{
    lemma_pow2_pos(low);
    lemma_pow2_pos(high);
    lemma_pow2_adds(low, (high - low) as nat);
    let a = pow2(low) as int;
    let b = pow2((high - low) as nat) as int;
    lemma_fundamental_div_mod(offset, a * b);
    let q = offset / (a * b);
    assert((a * b) * q == (b * q) * a) by (nonlinear_arith);
    lemma_mod_multiples_basic(b * q, a);
}

/// Every power of two up to the largest supported one is at most 65536.
proof fn lemma_value_bounds(exponent: nat)
    requires
        exponent <= 16,
    ensures
        1 <= pow2(exponent) <= 0x10000,
{
    lemma_pow2_pos(exponent);
    lemma2_to64();
    if exponent < 16 {
        lemma_pow2_strictly_increases(exponent, 16);
    }
}

impl Alignment {
    #[verifier::type_invariant]
    spec fn supported(self) -> bool {
        self.exponent <= MAX_ALIGNMENT_EXPONENT
    }

    /// The exponent of the power of two.
    pub closed spec fn exp(self) -> nat {
        self.exponent as nat
    }

    /// The number of bytes that addresses are a multiple of.
    pub open spec fn bytes(self) -> int {
        pow2(self.exp()) as int
    }

    /// The larger of two alignments.
    pub open spec fn spec_max(self, other: Alignment) -> Alignment {
        if other.exp() >= self.exp() {
            other
        } else {
            self
        }
    }

    /// The smaller of two alignments.
    pub open spec fn spec_min(self, other: Alignment) -> Alignment {
        if other.exp() < self.exp() {
            other
        } else {
            self
        }
    }

    /// The alignment with the given exponent.
    pub closed spec fn of_exp(exp: nat) -> Alignment {
        Alignment { exponent: exp as u8 }
    }

    /// An alignment is determined by its exponent.
    pub proof fn lemma_of_exp(self)
        ensures
            Alignment::of_exp(self.exp()) == self,
    {
    }

    /// The alignment of an exponent that an alignment can have has that exponent, and its bytes are
    /// that power of two.
    pub proof fn lemma_exp_of(exp: nat)
        requires
            exp <= MAX_ALIGNMENT_EXPONENT,
        ensures
            Alignment::of_exp(exp).exp() == exp,
            Alignment::of_exp(exp).bytes() == pow2(exp),
            Alignment::of_exp(exp).bytes() > 0,
    {
        lemma_pow2_pos(exp);
    }

    /// Every alignment is a number of bytes, and the least and the greatest of two alignments are one
    /// of them.
    pub proof fn lemma_bytes_positive(self, other: Alignment)
        ensures
            self.bytes() > 0,
            self.exp() <= u8::MAX,
            self.spec_max(other).exp() == (if self.exp() >= other.exp() {
                self.exp()
            } else {
                other.exp()
            }),
            self.spec_min(other).exp() == (if self.exp() <= other.exp() {
                self.exp()
            } else {
                other.exp()
            }),
    {
        lemma_pow2_pos(self.exp());
    }

    /// The alignment with the given exponent.
    pub fn from_exponent(exponent: u8) -> (alignment: Alignment)
        requires
            exponent <= MAX_ALIGNMENT_EXPONENT,
        ensures
            alignment.exp() == exponent,
    {
        Alignment { exponent }
    }

    /// The alignment of the given number of bytes. `None` if it is not a supported power of two.
    pub fn new(raw: u64) -> (alignment: Option<Alignment>)
        ensures
            match alignment {
                Some(alignment) => alignment.bytes() == raw && alignment.exp() <= 16,
                None => forall|exponent: nat| exponent <= 16 ==> #[trigger] pow2(exponent) != raw,
            },
    {
        let mut exponent: u8 = 0;
        let mut value: u64 = 1;
        proof {
            lemma2_to64();
        }
        while exponent <= MAX_ALIGNMENT_EXPONENT
            invariant
                exponent <= 17,
                value == pow2(exponent as nat),
                value <= 0x20000,
                forall|e: nat| e < exponent ==> #[trigger] pow2(e) != raw,
            decreases 17 - exponent,
        {
            if value == raw {
                return Some(Alignment { exponent });
            }
            proof {
                lemma_value_bounds(exponent as nat);
                lemma_pow2_unfold((exponent + 1) as nat);
            }
            value = value * 2;
            exponent = exponent + 1;
        }
        None
    }

    /// The smallest alignment, one byte.
    pub closed spec fn spec_one() -> Alignment {
        Alignment { exponent: 0 }
    }

    /// The smallest alignment is one byte.
    pub proof fn lemma_one()
        ensures
            Alignment::spec_one().exp() == 0,
            Alignment::spec_one().bytes() == 1,
    {
        lemma2_to64();
    }

    /// The smallest alignment, one byte.
    pub fn one() -> (alignment: Alignment)
        ensures
            alignment.exp() == 0,
            alignment == Alignment::spec_one(),
    {
        Alignment { exponent: 0 }
    }

    /// The alignment of a 64-bit address.
    pub fn address() -> (alignment: Alignment)
        ensures
            alignment.exp() == 3,
    {
        Alignment { exponent: 3 }
    }

    /// The exponent of the power of two.
    pub fn exponent(self) -> (exponent: u8)
        ensures
            exponent == self.exp(),
            exponent <= MAX_ALIGNMENT_EXPONENT,
    {
        proof {
            use_type_invariant(&self);
        }
        self.exponent
    }

    /// The number of bytes that addresses are a multiple of.
    pub fn value(self) -> (value: u64)
        ensures
            value == self.bytes(),
            1 <= value <= 0x10000,
    {
        proof {
            use_type_invariant(&self);
            lemma_value_bounds(self.exponent as nat);
            lemma_u64_shl_is_mul(1, self.exponent as u64);
        }
        1u64 << (self.exponent as u64)
    }

    /// Rounds up to a multiple of this alignment; `None` if that is not a 64-bit number.
    pub fn checked_align_up(self, offset: u64) -> (aligned: Option<u64>)
        ensures
            aligned == (if round_up(offset as int, self.bytes()) <= u64::MAX {
                Some(round_up(offset as int, self.bytes()) as u64)
            } else {
                None::<u64>
            }),
            self.bytes() > 0,
    {
        let value: u64 = self.value();
        let remainder: u64 = offset % value;
        if remainder == 0 {
            Some(offset)
        } else {
            proof {
                lemma_round_up(offset as int, value as int);
            }
            offset.checked_add(value - remainder)
        }
    }

    /// Rounds up to a multiple of this alignment.
    pub fn align_up(self, offset: u64) -> (aligned: u64)
        requires
            round_up(offset as int, self.bytes()) <= u64::MAX,
        ensures
            aligned == round_up(offset as int, self.bytes()),
            offset <= aligned < offset + self.bytes(),
    {
        let checked: Option<u64> = self.checked_align_up(offset);
        proof {
            lemma_round_up(offset as int, self.bytes());
        }
        match checked {
            Some(aligned) => aligned,
            None => 0,
        }
    }

    /// Rounds down to a multiple of this alignment.
    pub fn align_down(self, offset: u64) -> (aligned: u64)
        ensures
            aligned == round_down(offset as int, self.bytes()),
    {
        let value: u64 = self.value();
        proof {
            lemma_mod_decreases(offset as nat, value as nat);
        }
        offset - offset % value
    }

    /// Rounds `offset` up to the next number that is congruent to `reference`; `None` if that is
    /// not a 64-bit number.
    pub fn checked_align_modulo(self, reference: u64, offset: u64) -> (aligned: Option<u64>)
        ensures
            aligned == (if round_up_congruent(reference as int, offset as int, self.bytes())
                <= u64::MAX {
                Some(round_up_congruent(reference as int, offset as int, self.bytes()) as u64)
            } else {
                None::<u64>
            }),
            self.bytes() > 0,
    {
        let value: u64 = self.value();
        proof {
            lemma_mod_decreases(offset as nat, value as nat);
        }
        let down: u64 = offset - offset % value;
        let wanted: u64 = reference % value;
        if wanted >= offset % value {
            down.checked_add(wanted)
        } else {
            down.checked_add(wanted + value)
        }
    }

    /// The larger of two alignments.
    pub fn max(self, other: Alignment) -> (larger: Alignment)
        ensures
            larger == self.spec_max(other),
    {
        if other.exponent >= self.exponent {
            other
        } else {
            self
        }
    }

    /// The smaller of two alignments.
    pub fn min(self, other: Alignment) -> (smaller: Alignment)
        ensures
            smaller == self.spec_min(other),
    {
        if other.exponent < self.exponent {
            other
        } else {
            self
        }
    }
}

} // verus!
