//! Circuits as they are laid out: the steps that make numbers, bits and points
//! and that constrain them, with what each step asks of the values.

use crate::eddsa::{signature_verifies, NUM_BYTES_TO_SIGN, PublicKey, Signature, SignParams};
use crate::field::{fr_modulus, fs_modulus, le_byte, FieldElement, Scalar};
use crate::hash::{poseidon, HashParams};
use crate::tree::merkle_tree::two_pow;
use crate::utils::utils::fr_to_bytes_le;
use vstd::arithmetic::div_mod::{lemma_add_mod_noop, lemma_mul_mod_noop, lemma_small_mod};
use vstd::prelude::*;

verus! {

/// Why a circuit could not be laid out.
#[derive(Clone, Copy, Debug, PartialEq, Eq)]
pub enum SynthesisError {
    /// A value that the layout needs was not given.
    AssignmentMissing,
    /// A quotient by zero was asked for.
    DivisionByZero,
    /// The values given cannot satisfy the constraints.
    Unsatisfiable,
}

/// A number of the circuit: where it was made (the step, and which of the
/// step's results it is) and its value, if that is known.
#[derive(Clone, Copy, Debug, PartialEq, Eq)]
pub struct AllocatedNum {
    pub source: usize,
    pub slot: usize,
    pub value: Option<FieldElement>,
}

/// A bit of the circuit: where it was made and its value, if that is known.
#[derive(Clone, Copy, Debug, PartialEq, Eq)]
pub struct AllocatedBit {
    pub source: usize,
    pub slot: usize,
    pub value: Option<bool>,
}

/// A curve point of the circuit: its two coordinates.
#[derive(Clone, Copy, Debug, PartialEq, Eq)]
pub struct AllocatedPoint {
    pub x: AllocatedNum,
    pub y: AllocatedNum,
}

/// A signature of the circuit with the key that it is checked under.
#[derive(Clone, Copy, Debug, PartialEq, Eq)]
pub struct AllocatedSignature {
    pub r: AllocatedPoint,
    pub s: AllocatedNum,
    pub pk: AllocatedPoint,
}

/// A summand of a linear combination: the constant one or a number.
#[derive(Clone, Copy, Debug, PartialEq, Eq)]
pub enum Term {
    One,
    Num(AllocatedNum),
}

/// One step of a circuit's layout. The first group makes numbers, bits and
/// points; the second constrains them.
#[derive(Clone, Debug)]
pub enum Step {
    /// A number with the given value.
    Alloc { value: Option<FieldElement> },
    /// A bit with the given value.
    AllocBit { bit: Option<bool> },
    /// A curve point with the given coordinates. That they are the
    /// coordinates of a point of the curve is asked where the point is used.
    WitnessPoint { point: Option<PublicKey> },
    /// The sponge hash of the given numbers, with state width `t`, `r_f` full
    /// rounds per half and `r_p` partial rounds.
    Hash { inputs: Vec<AllocatedNum>, t: u32, r_f: u32, r_p: u32 },
    /// The two numbers, swapped if the bit is set.
    ConditionallyReverse { a: AllocatedNum, b: AllocatedNum, condition: AllocatedBit },
    /// The first number if the bit is set, else the second.
    ConditionallySelect { a: AllocatedNum, b: AllocatedNum, condition: AllocatedBit },
    /// The bits of the number's least representative, lowest first.
    IntoBits { num: AllocatedNum },
    /// The number is a public input.
    Inputize { num: AllocatedNum },
    /// The product of the first two sums is the third.
    Enforce { a: Vec<Term>, b: Vec<Term>, c: Vec<Term> },
    /// The two bits are equal.
    EnforceEqual { a: AllocatedBit, b: AllocatedBit },
    /// The number is below two to the power `bits`.
    LimitBits { num: AllocatedNum, bits: usize },
    /// The signature of the first `message_bytes` bytes of the hash's
    /// little-endian encoding verifies under its key, as a signature that is
    /// checked outside a circuit does.
    VerifySignature { signature: AllocatedSignature, hash: AllocatedNum, message_bytes: usize },
}

/// The place of a number or a bit in a layout: the step that makes it, and
/// which of the step's results it is.
pub struct Wire {
    pub source: nat,
    pub slot: nat,
}

/// A summand of a linear combination without its value.
pub enum TermShape {
    One,
    Num(Wire),
}

/// A step of a layout without the values that it was laid out with: what
/// is made, what is asked, and of which numbers and bits.
pub enum Shape {
    Alloc,
    AllocBit,
    WitnessPoint,
    Hash { inputs: Seq<Wire>, t: nat, r_f: nat, r_p: nat },
    ConditionallyReverse { a: Wire, b: Wire, condition: Wire },
    ConditionallySelect { a: Wire, b: Wire, condition: Wire },
    IntoBits { num: Wire },
    Inputize { num: Wire },
    Enforce { a: Seq<TermShape>, b: Seq<TermShape>, c: Seq<TermShape> },
    EnforceEqual { a: Wire, b: Wire },
    LimitBits { num: Wire, bits: usize },
    VerifySignature {
        r_x: Wire,
        r_y: Wire,
        s: Wire,
        key_x: Wire,
        key_y: Wire,
        hash: Wire,
        message_bytes: usize,
    },
}

impl AllocatedNum {
    /// Where the number was made.
    pub open spec fn wire(&self) -> Wire {
        Wire { source: self.source as nat, slot: self.slot as nat }
    }
}

impl AllocatedBit {
    /// Where the bit was made.
    pub open spec fn wire(&self) -> Wire {
        Wire { source: self.source as nat, slot: self.slot as nat }
    }
}

impl Term {
    /// The summand without its value.
    pub open spec fn shape(&self) -> TermShape {
        match self {
            Term::One => TermShape::One,
            Term::Num(num) => TermShape::Num(num.wire()),
        }
    }
}

/// Where the numbers were made.
pub open spec fn wires(nums: Seq<AllocatedNum>) -> Seq<Wire> {
    Seq::new(nums.len(), |i: int| nums[i].wire())
}

/// Where the bits were made.
pub open spec fn bit_wires(bits: Seq<AllocatedBit>) -> Seq<Wire> {
    Seq::new(bits.len(), |i: int| bits[i].wire())
}

/// The summands without their values.
pub open spec fn term_shapes(terms: Seq<Term>) -> Seq<TermShape> {
    Seq::new(terms.len(), |i: int| terms[i].shape())
}

/// The result in place `slot` of the step in place `source`.
pub open spec fn wire_at(source: nat, slot: nat) -> Wire {
    Wire { source, slot }
}

/// The results in place 0 of `n` steps from the one in place `start` on.
pub open spec fn wires_from(start: nat, n: nat) -> Seq<Wire> {
    Seq::new(n, |i: int| wire_at(start + i as nat, 0))
}

/// The steps that make a number a public input: the step in place `start`
/// makes it, the next makes it public.
pub open spec fn input_layout(start: nat) -> Seq<Shape> {
    seq![Shape::Alloc, Shape::Inputize { num: wire_at(start, 0) }]
}

/// As many steps that make a number.
pub open spec fn allocs(n: nat) -> Seq<Shape> {
    Seq::new(n, |i: int| Shape::Alloc)
}

/// As many steps that make a bit.
pub open spec fn bit_allocs(n: nat) -> Seq<Shape> {
    Seq::new(n, |i: int| Shape::AllocBit)
}

/// The step that asks the product of two sums to be a third, each sum a
/// sequence of summands.
pub open spec fn product_shape(a: Seq<TermShape>, b: Seq<TermShape>, c: Seq<TermShape>) -> Shape {
    Shape::Enforce { a, b, c }
}

impl Step {
    /// The step without the values that it was laid out with.
    pub open spec fn shape(&self) -> Shape {
        match *self {
            Step::Alloc { value } => Shape::Alloc,
            Step::AllocBit { bit } => Shape::AllocBit,
            Step::WitnessPoint { point } => Shape::WitnessPoint,
            Step::Hash { inputs, t, r_f, r_p } => Shape::Hash {
                inputs: wires(inputs@),
                t: t as nat,
                r_f: r_f as nat,
                r_p: r_p as nat,
            },
            Step::ConditionallyReverse { a, b, condition } => Shape::ConditionallyReverse {
                a: a.wire(),
                b: b.wire(),
                condition: condition.wire(),
            },
            Step::ConditionallySelect { a, b, condition } => Shape::ConditionallySelect {
                a: a.wire(),
                b: b.wire(),
                condition: condition.wire(),
            },
            Step::IntoBits { num } => Shape::IntoBits { num: num.wire() },
            Step::Inputize { num } => Shape::Inputize { num: num.wire() },
            Step::Enforce { a, b, c } => Shape::Enforce {
                a: term_shapes(a@),
                b: term_shapes(b@),
                c: term_shapes(c@),
            },
            Step::EnforceEqual { a, b } => Shape::EnforceEqual { a: a.wire(), b: b.wire() },
            Step::LimitBits { num, bits } => Shape::LimitBits { num: num.wire(), bits },
            Step::VerifySignature { signature, hash, message_bytes } => Shape::VerifySignature {
                r_x: signature.r.x.wire(),
                r_y: signature.r.y.wire(),
                s: signature.s.wire(),
                key_x: signature.pk.x.wire(),
                key_y: signature.pk.y.wire(),
                hash: hash.wire(),
                message_bytes,
            },
        }
    }
}

/// The steps without the values that they were laid out with.
#[verifier::opaque]
pub open spec fn shapes(steps: Seq<Step>) -> Seq<Shape> {
    Seq::new(steps.len(), |i: int| steps[i].shape())
}

/// Shapes that are laid out after others lay out both.
pub proof fn lemma_layout_joins(
    before: Seq<Shape>,
    mid: Seq<Shape>,
    after: Seq<Shape>,
    first: Seq<Shape>,
    then: Seq<Shape>,
)
    requires
        mid == before + first,
        after == mid + then,
    ensures
        after == before + (first + then),
{
    assert(after =~= before + (first + then));
}

/// The number of bits of a field element's least representative.
pub const NUM_BITS: usize = 254;

/// The first `n` bytes of the little-endian encoding of `v`.
pub open spec fn spec_le_bytes(v: nat, n: nat) -> Seq<u8> {
    Seq::new(n, |k: int| le_byte(v, k as nat) as u8)
}

/// Bit `k` of `v`.
pub open spec fn spec_bit(v: nat, k: nat) -> bool {
    (v / two_pow(k)) % 2 == 1
}

impl AllocatedNum {
    /// The number has a known value, which stands for `v`.
    pub open spec fn is(&self, v: nat) -> bool {
        self.value matches Some(e) && e@ == v
    }

    /// What the number's value stands for, where it is known.
    pub open spec fn spec_value(&self) -> nat {
        self.value.unwrap()@
    }

    /// The number's value, if it is known.
    pub fn get_value(&self) -> (v: Option<FieldElement>)
        ensures
            v == self.value,
    {
        self.value
    }
}

impl AllocatedBit {
    /// The bit's value, if it is known.
    pub fn get_value(&self) -> (v: Option<bool>)
        ensures
            v == self.value,
    {
        self.value
    }
}

impl AllocatedPoint {
    /// The point's first coordinate.
    pub fn get_x(&self) -> (x: AllocatedNum)
        ensures
            x == self.x,
    {
        self.x
    }

    /// The point's second coordinate.
    pub fn get_y(&self) -> (y: AllocatedNum)
        ensures
            y == self.y,
    {
        self.y
    }
}

/// Every number of the sequence has a known value.
pub open spec fn all_known(nums: Seq<AllocatedNum>) -> bool {
    forall|i: int| 0 <= i < nums.len() ==> (#[trigger] nums[i]).value.is_some()
}

/// The numbers with one more are known where they were and the new one is.
pub proof fn lemma_all_known_push(nums: Seq<AllocatedNum>, num: AllocatedNum)
    ensures
        all_known(nums.push(num)) == (all_known(nums) && num.value.is_some()),
{
    let more = nums.push(num);
    if all_known(more) {
        assert(more[nums.len() as int].value.is_some());
        assert forall|i: int| 0 <= i < nums.len() implies (#[trigger] nums[i]).value.is_some() by {
            assert(more[i].value.is_some());
        }
    }
}

/// The bits with one more are known where they were and the new one is.
pub proof fn lemma_all_bits_known_push(bits: Seq<AllocatedBit>, bit: AllocatedBit)
    ensures
        all_bits_known(bits.push(bit)) == (all_bits_known(bits) && bit.value.is_some()),
{
    let more = bits.push(bit);
    if all_bits_known(more) {
        assert(more[bits.len() as int].value.is_some());
        assert forall|i: int| 0 <= i < bits.len() implies (#[trigger] bits[i]).value.is_some() by {
            assert(more[i].value.is_some());
        }
    }
}

/// What the numbers' values stand for, where they are known.
pub open spec fn num_values(nums: Seq<AllocatedNum>) -> Seq<nat> {
    Seq::new(nums.len(), |i: int| nums[i].spec_value())
}

/// Every bit of the sequence has a known value.
pub open spec fn all_bits_known(bits: Seq<AllocatedBit>) -> bool {
    forall|i: int| 0 <= i < bits.len() ==> (#[trigger] bits[i]).value.is_some()
}

/// The bits' values, where they are known.
pub open spec fn bit_values(bits: Seq<AllocatedBit>) -> Seq<bool> {
    Seq::new(bits.len(), |i: int| bits[i].value.unwrap())
}

impl Term {
    /// The summand has a known value.
    pub open spec fn known(&self) -> bool {
        match *self {
            Term::One => true,
            Term::Num(n) => n.value.is_some(),
        }
    }

    /// What the summand's value stands for, where it is known.
    pub open spec fn spec_value(&self) -> nat {
        match *self {
            Term::One => 1,
            Term::Num(n) => n.spec_value(),
        }
    }
}

/// Every summand has a known value.
pub open spec fn sum_known(terms: Seq<Term>) -> bool {
    forall|i: int| 0 <= i < terms.len() ==> (#[trigger] terms[i]).known()
}

/// The sum of the summands' values.
pub open spec fn sum_value(terms: Seq<Term>) -> nat
    decreases terms.len(),
{
    if terms.len() == 0 {
        0
    } else {
        sum_value(terms.drop_last()) + terms.last().spec_value()
    }
}

/// What a value stands for, if it is known.
pub open spec fn option_view(value: Option<FieldElement>) -> Option<nat> {
    match value {
        Some(v) => Some(v@),
        None => None,
    }
}

/// What a number's value stands for, if it is known.
pub open spec fn num_view(num: AllocatedNum) -> Option<nat> {
    option_view(num.value)
}

/// The one of two values that a bit picks: the first where the bit is set,
/// the second where it is not, none where the bit is not known.
pub open spec fn picked(condition: AllocatedBit, a: AllocatedNum, b: AllocatedNum) -> Option<nat> {
    match condition.value {
        Some(c) => if c {
            num_view(a)
        } else {
            num_view(b)
        },
        None => None,
    }
}

/// The value of the number that a step makes as its result `slot`, where it
/// makes one.
pub open spec fn num_made(step: Step, slot: usize) -> Option<Option<nat>> {
    match step {
        Step::Alloc { value } => if slot == 0 {
            Some(option_view(value))
        } else {
            None
        },
        Step::WitnessPoint { point: value } => if slot == 0 {
            Some(
                match value {
                    Some(p) => Some(p.x@),
                    None => None,
                },
            )
        } else if slot == 1 {
            Some(
                match value {
                    Some(p) => Some(p.y@),
                    None => None,
                },
            )
        } else {
            None
        },
        Step::Hash { inputs, t, r_f, r_p } => if slot == 0 {
            Some(
                if all_known(inputs@) {
                    Some(poseidon(t as nat, r_f as nat, r_p as nat, num_values(inputs@)))
                } else {
                    None
                },
            )
        } else {
            None
        },
        Step::ConditionallyReverse { a, b, condition } => if slot == 0 {
            Some(picked(condition, b, a))
        } else if slot == 1 {
            Some(picked(condition, a, b))
        } else {
            None
        },
        Step::ConditionallySelect { a, b, condition } => if slot == 0 {
            Some(picked(condition, a, b))
        } else {
            None
        },
        _ => None,
    }
}

/// The value of the bit that a step makes as its result `slot`, where it
/// makes one.
pub open spec fn bit_made(step: Step, slot: usize) -> Option<Option<bool>> {
    match step {
        Step::AllocBit { bit: value } => if slot == 0 {
            Some(value)
        } else {
            None
        },
        Step::IntoBits { num } => if slot < NUM_BITS {
            Some(
                match num.value {
                    Some(v) => Some(spec_bit(v@, slot as nat)),
                    None => None,
                },
            )
        } else {
            None
        },
        _ => None,
    }
}

/// One of the first `bound` steps makes the number, with the value that the
/// number has.
pub open spec fn num_from(steps: Seq<Step>, bound: int, num: AllocatedNum) -> bool {
    &&& num.source < bound
    &&& num.source < steps.len()
    &&& num_made(steps[num.source as int], num.slot) == Some(num_view(num))
}

/// One of the first `bound` steps makes the bit, with the value that the bit
/// has.
pub open spec fn bit_from(steps: Seq<Step>, bound: int, bit: AllocatedBit) -> bool {
    &&& bit.source < bound
    &&& bit.source < steps.len()
    &&& bit_made(steps[bit.source as int], bit.slot) == Some(bit.value)
}

/// The summand is the constant one, or a number that one of the first
/// `bound` steps makes.
pub open spec fn term_from(steps: Seq<Step>, bound: int, term: Term) -> bool {
    match term {
        Term::One => true,
        Term::Num(n) => num_from(steps, bound, n),
    }
}

/// Each number among the summands is made by one of the first `bound` steps.
pub open spec fn terms_from(steps: Seq<Step>, bound: int, terms: Seq<Term>) -> bool {
    forall|i: int| 0 <= i < terms.len() ==> term_from(steps, bound, #[trigger] terms[i])
}

/// Each of the numbers is made by one of the first `bound` steps.
pub open spec fn nums_from(steps: Seq<Step>, bound: int, nums: Seq<AllocatedNum>) -> bool {
    forall|i: int| 0 <= i < nums.len() ==> num_from(steps, bound, #[trigger] nums[i])
}

/// The parts of the signature are made by the first `bound` steps.
pub open spec fn signature_from(steps: Seq<Step>, bound: int, sig: AllocatedSignature) -> bool {
    &&& num_from(steps, bound, sig.r.x)
    &&& num_from(steps, bound, sig.r.y)
    &&& num_from(steps, bound, sig.s)
    &&& num_from(steps, bound, sig.pk.x)
    &&& num_from(steps, bound, sig.pk.y)
}

/// All that the step takes is made by one of the first `bound` steps.
pub open spec fn takes_from(steps: Seq<Step>, bound: int, step: Step) -> bool {
    match step {
        Step::Hash { inputs, t, r_f, r_p } => nums_from(steps, bound, inputs@),
        Step::ConditionallyReverse { a, b, condition } => num_from(steps, bound, a) && num_from(
            steps,
            bound,
            b,
        ) && bit_from(steps, bound, condition),
        Step::ConditionallySelect { a, b, condition } => num_from(steps, bound, a) && num_from(
            steps,
            bound,
            b,
        ) && bit_from(steps, bound, condition),
        Step::IntoBits { num } => num_from(steps, bound, num),
        Step::Inputize { num } => num_from(steps, bound, num),
        Step::Enforce { a, b, c } => terms_from(steps, bound, a@) && terms_from(steps, bound, b@)
            && terms_from(steps, bound, c@),
        Step::EnforceEqual { a, b } => bit_from(steps, bound, a) && bit_from(steps, bound, b),
        Step::LimitBits { num, bits } => num_from(steps, bound, num),
        Step::VerifySignature { signature, hash, message_bytes } => signature_from(
            steps,
            bound,
            signature,
        ) && num_from(steps, bound, hash),
        _ => true,
    }
}

/// Each step takes only what the steps before it make, with the values
/// that they make it with.
pub open spec fn consistent(steps: Seq<Step>) -> bool {
    forall|i: int| 0 <= i < steps.len() ==> takes_from(steps, i, #[trigger] steps[i])
}

/// What the first `bound` steps make, they still make among more steps.
pub proof fn lemma_takes_from_more(steps: Seq<Step>, more: Seq<Step>, bound: int, step: Step)
    requires
        bound <= steps.len() <= more.len(),
        forall|i: int| 0 <= i < steps.len() ==> #[trigger] more[i] == steps[i],
        takes_from(steps, bound, step),
    ensures
        takes_from(more, bound, step),
{
    match step {
        Step::Hash { inputs, t, r_f, r_p } => {
            assert forall|i: int| 0 <= i < inputs@.len() implies num_from(
                more,
                bound,
                #[trigger] inputs@[i],
            ) by {
                assert(num_from(steps, bound, inputs@[i]));
            }
        },
        Step::Enforce { a, b, c } => {
            lemma_terms_from_more(steps, more, bound, a@);
            lemma_terms_from_more(steps, more, bound, b@);
            lemma_terms_from_more(steps, more, bound, c@);
        },
        _ => {},
    }
}

/// The summands that the first `bound` steps make, they still make among
/// more steps.
pub proof fn lemma_terms_from_more(steps: Seq<Step>, more: Seq<Step>, bound: int, terms: Seq<Term>)
    requires
        bound <= steps.len() <= more.len(),
        forall|i: int| 0 <= i < steps.len() ==> #[trigger] more[i] == steps[i],
        terms_from(steps, bound, terms),
    ensures
        terms_from(more, bound, terms),
{
    assert forall|i: int| 0 <= i < terms.len() implies term_from(
        more,
        bound,
        #[trigger] terms[i],
    ) by {
        assert(term_from(steps, bound, terms[i]));
    }
}

/// Consistent steps with one more that takes only what they make are
/// consistent.
pub proof fn lemma_consistent_push(steps: Seq<Step>, step: Step)
    requires
        consistent(steps),
        takes_from(steps, steps.len() as int, step),
    ensures
        consistent(steps.push(step)),
{
    let more = steps.push(step);
    assert forall|i: int| 0 <= i < more.len() implies takes_from(more, i, #[trigger] more[i]) by {
        if i < steps.len() {
            assert(takes_from(steps, i, steps[i]));
            lemma_takes_from_more(steps, more, i, steps[i]);
        } else {
            lemma_takes_from_more(steps, more, steps.len() as int, step);
        }
    }
}

impl Step {
    /// Whether the values that the step speaks of are known and meet what
    /// the step asks of them. A step that only makes something asks nothing.
    pub open spec fn holds(&self) -> bool {
        match *self {
            Step::Enforce { a, b, c } => {
                &&& sum_known(a@)
                &&& sum_known(b@)
                &&& sum_known(c@)
                &&& (sum_value(a@) * sum_value(b@)) % fr_modulus() == sum_value(c@) % fr_modulus()
            },
            Step::EnforceEqual { a, b } => a.value.is_some() && a.value == b.value,
            Step::LimitBits { num, bits } => {
                &&& num.value.is_some()
                &&& num.spec_value() < two_pow(bits as nat)
            },
            Step::VerifySignature { signature, hash, message_bytes } => {
                &&& signature.r.x.value.is_some()
                &&& signature.r.y.value.is_some()
                &&& signature.s.value.is_some()
                &&& signature.pk.x.value.is_some()
                &&& signature.pk.y.value.is_some()
                &&& hash.value.is_some()
                &&& message_bytes <= NUM_BYTES_TO_SIGN
                &&& signature.s.spec_value() < fs_modulus()
                &&& signature_verifies(
                    signature.pk.x.spec_value(),
                    signature.pk.y.spec_value(),
                    spec_le_bytes(hash.spec_value(), message_bytes as nat),
                    signature.r.x.spec_value(),
                    signature.r.y.spec_value(),
                    signature.s.spec_value(),
                )
            },
            _ => true,
        }
    }
}

/// The sum of the summands' values in the field, where they are all known.
pub fn evaluate_sum(terms: &Vec<Term>) -> (r: Option<FieldElement>)
    ensures
        r is Some == sum_known(terms@),
        r matches Some(v) ==> v@ == sum_value(terms@) % fr_modulus(),
{
    let mut sum = FieldElement::zero();
    let mut i: usize = 0;
    assert(terms@.take(0) =~= Seq::<Term>::empty());
    proof {
        lemma_small_mod(0, fr_modulus());
    }
    while i < terms.len()
        invariant
            i <= terms@.len(),
            sum_known(terms@.take(i as int)),
            sum@ == sum_value(terms@.take(i as int)) % fr_modulus(),
        decreases terms@.len() - i,
    {
        let ghost seen = terms@.take(i as int);
        let ghost more = terms@.take(i + 1);
        proof {
            assert(more.drop_last() =~= seen);
            assert(more.last() == terms@[i as int]);
            lemma_add_mod_noop(
                sum_value(seen) as int,
                terms@[i as int].spec_value() as int,
                fr_modulus() as int,
            );
        }
        let value = match terms[i] {
            Term::One => FieldElement::one(),
            Term::Num(n) => match n.value {
                Some(v) => v,
                None => {
                    assert(!terms@[i as int].known());
                    return None;
                },
            },
        };
        proof {
            use_type_invariant(&value);
            lemma_small_mod(value@, fr_modulus());
        }
        sum = sum.plus(&value);
        proof {
            assert forall|j: int| 0 <= j < more.len() implies (#[trigger] more[j]).known() by {
                if j < i {
                    assert(seen[j].known());
                }
            }
        }
        i += 1;
    }
    assert(terms@.take(i as int) =~= terms@);
    Some(sum)
}

impl Step {
    /// Whether the step holds.
    pub fn check(&self, sign_params: &SignParams) -> (ok: bool)
        ensures
            ok == self.holds(),
    {
        match self {
            Step::Enforce { a, b, c } => {
                let ghost sa = sum_value(a@);
                let ghost sb = sum_value(b@);
                let (left, right, product) = match (
                    evaluate_sum(a),
                    evaluate_sum(b),
                    evaluate_sum(c),
                ) {
                    (Some(left), Some(right), Some(product)) => (left, right, product),
                    _ => {
                        return false;
                    },
                };
                proof {
                    use_type_invariant(&product);
                    lemma_small_mod(product@, fr_modulus());
                    lemma_mul_mod_noop(sa as int, sb as int, fr_modulus() as int);
                }
                left.times(&right).equals(&product)
            },
            Step::EnforceEqual { a, b } => match (a.value, b.value) {
                (Some(a), Some(b)) => a == b,
                _ => false,
            },
            Step::LimitBits { num, bits } => match num.value {
                Some(v) => v.fits_bits(*bits),
                None => false,
            },
            Step::VerifySignature { signature, hash, message_bytes } => {
                if *message_bytes > NUM_BYTES_TO_SIGN {
                    return false;
                }
                let (r_x, r_y, s, x, y, hash) = match (
                    signature.r.x.value,
                    signature.r.y.value,
                    signature.s.value,
                    signature.pk.x.value,
                    signature.pk.y.value,
                    hash.value,
                ) {
                    (Some(r_x), Some(r_y), Some(s), Some(x), Some(y), Some(hash)) => (
                        r_x,
                        r_y,
                        s,
                        x,
                        y,
                        hash,
                    ),
                    _ => {
                        return false;
                    },
                };
                let s = match Scalar::from_limbs(s.to_limbs()) {
                    Some(s) => s,
                    None => {
                        return false;
                    },
                };
                let message = if *message_bytes == 0 {
                    Vec::new()
                } else {
                    fr_to_bytes_le(hash, *message_bytes)
                };
                assert(message@ =~= spec_le_bytes(hash@, *message_bytes as nat));
                let key = PublicKey { x, y };
                key.verify(&message, &Signature { r_x, r_y, s }, sign_params)
            },
            _ => true,
        }
    }
}

/// The given numbers as known values.
pub open spec fn known_values(numbers: Seq<nat>) -> Seq<Option<nat>> {
    numbers.map_values(|v: nat| Some(v))
}

/// The values of the numbers that the steps make public inputs, in their
/// order.
pub open spec fn inputs_of(steps: Seq<Step>) -> Seq<Option<nat>>
    decreases steps.len(),
{
    if steps.len() == 0 {
        Seq::empty()
    } else {
        let before = inputs_of(steps.drop_last());
        match steps.last() {
            Step::Inputize { num } => before.push(num_view(num)),
            _ => before,
        }
    }
}

/// The inputs of the steps with one more.
pub proof fn lemma_inputs_of_push(steps: Seq<Step>, step: Step)
    ensures
        inputs_of(steps.push(step)) == (match step {
            Step::Inputize { num } => inputs_of(steps).push(num_view(num)),
            _ => inputs_of(steps),
        }),
{
    assert(steps.push(step).drop_last() =~= steps);
}

/// Every step holds.
pub open spec fn all_hold(steps: Seq<Step>) -> bool {
    forall|i: int| 0 <= i < steps.len() ==> (#[trigger] steps[i]).holds()
}

/// The steps with one more hold where they held before and the new one
/// holds.
pub proof fn lemma_all_hold_push(steps: Seq<Step>, step: Step)
    ensures
        all_hold(steps.push(step)) == (all_hold(steps) && step.holds()),
{
    let more = steps.push(step);
    if all_hold(more) {
        assert(more[steps.len() as int].holds());
        assert forall|i: int| 0 <= i < steps.len() implies (#[trigger] steps[i]).holds() by {
            assert(more[i].holds());
        }
    }
}

/// A circuit as it is laid out: the steps so far.
pub struct ConstraintSystem {
    steps: Vec<Step>,
}

impl View for ConstraintSystem {
    type V = Seq<Step>;

    closed spec fn view(&self) -> Seq<Step> {
        self.steps@
    }
}

impl ConstraintSystem {
    /// Whether the values given satisfy the circuit: every step holds.
    pub open spec fn satisfied(&self) -> bool {
        all_hold(self@)
    }

    /// This circuit is `before` with more steps.
    pub open spec fn extends(&self, before: &Self) -> bool {
        &&& before@.len() <= self@.len()
        &&& forall|i: int| 0 <= i < before@.len() ==> #[trigger] self@[i] == before@[i]
    }

    /// The values of the numbers that are public inputs, in their order.
    pub open spec fn inputs(&self) -> Seq<Option<nat>> {
        inputs_of(self@)
    }

    /// Each step takes only what the steps before it make.
    pub open spec fn consistent(&self) -> bool {
        consistent(self@)
    }

    /// One of the steps makes the number, with the value that it has.
    pub closed spec fn owns(&self, num: AllocatedNum) -> bool {
        num_from(self@, self@.len() as int, num)
    }

    /// One of the steps makes the bit, with the value that it has.
    pub closed spec fn owns_bit(&self, bit: AllocatedBit) -> bool {
        bit_from(self@, self@.len() as int, bit)
    }

    /// The summand is the constant one, or a number that the steps make.
    pub open spec fn owns_term(&self, term: Term) -> bool {
        match term {
            Term::One => true,
            Term::Num(n) => self.owns(n),
        }
    }

    /// The steps make each of the numbers.
    pub open spec fn owns_all(&self, nums: Seq<AllocatedNum>) -> bool {
        forall|i: int| 0 <= i < nums.len() ==> self.owns(#[trigger] nums[i])
    }

    /// The steps make each of the bits.
    pub open spec fn owns_bits(&self, bits: Seq<AllocatedBit>) -> bool {
        forall|i: int| 0 <= i < bits.len() ==> self.owns_bit(#[trigger] bits[i])
    }

    /// The steps make each number among the summands.
    pub open spec fn owns_terms(&self, terms: Seq<Term>) -> bool {
        forall|i: int| 0 <= i < terms.len() ==> self.owns_term(#[trigger] terms[i])
    }

    /// The steps make the parts of the signature.
    pub open spec fn owns_signature(&self, sig: AllocatedSignature) -> bool {
        &&& self.owns(sig.r.x)
        &&& self.owns(sig.r.y)
        &&& self.owns(sig.s)
        &&& self.owns(sig.pk.x)
        &&& self.owns(sig.pk.y)
    }

    /// What `before` makes, this circuit makes too.
    pub open spec fn keeps(&self, before: &Self) -> bool {
        &&& forall|num: AllocatedNum| before.owns(num) ==> #[trigger] self.owns(num)
        &&& forall|bit: AllocatedBit| before.owns_bit(bit) ==> #[trigger] self.owns_bit(bit)
    }

    /// A circuit makes a number where one of its steps does, with the value
    /// that the number has; and likewise a bit.
    pub proof fn lemma_owns(&self, num: AllocatedNum, bit: AllocatedBit)
        ensures
            self.owns(num) == num_from(self@, self@.len() as int, num),
            self.owns_bit(bit) == bit_from(self@, self@.len() as int, bit),
    {
    }

    /// This circuit is `before` and then steps of the given shapes: what the
    /// new steps are does not depend on the values that they were laid out
    /// with.
    #[verifier::opaque]
    pub open spec fn lays(&self, before: &Self, layout: Seq<Shape>) -> bool {
        shapes(self@) == shapes(before@) + layout
    }

    /// This circuit is `before` and one more step, which asks that the
    /// product of the first two sums be the third.
    #[verifier::opaque]
    pub open spec fn asks_product(
        &self,
        before: &Self,
        a: Seq<Term>,
        b: Seq<Term>,
        c: Seq<Term>,
    ) -> bool {
        &&& self@.len() == before@.len() + 1
        &&& self@.drop_last() == before@
        &&& self@.last() matches Step::Enforce { a: x, b: y, c: z } && x@ == a && y@ == b && z@
            == c
    }

    /// This circuit is `before` and then the given steps.
    #[verifier::opaque]
    pub open spec fn lays_steps(&self, before: &Self, steps: Seq<Step>) -> bool {
        self@ == before@ + steps
    }

    /// Steps that are laid out after others lay out both.
    pub proof fn lemma_lays_more(
        &self,
        mid: &Self,
        before: &Self,
        first: Seq<Shape>,
        then: Seq<Shape>,
    )
        requires
            mid.lays(before, first),
            self.lays(mid, then),
        ensures
            self.lays(before, first + then),
    {
        reveal(ConstraintSystem::lays);
        assert(shapes(self@) =~= shapes(before@) + (first + then));
    }

    /// What a layout adds is as many steps as it has shapes.
    pub proof fn lemma_lays_len(&self, before: &Self, layout: Seq<Shape>)
        requires
            self.lays(before, layout),
        ensures
            self@.len() == before@.len() + layout.len(),
    {
        reveal(ConstraintSystem::lays);
        reveal(shapes);
        assert(shapes(self@).len() == self@.len());
        assert(shapes(before@).len() == before@.len());
    }

    /// This circuit is `before` with more steps; they hold if and only if
    /// `condition` does, make the given numbers public inputs, and take
    /// only what the steps before them make.
    pub open spec fn adds_inputs(
        &self,
        before: &Self,
        condition: bool,
        inputs: Seq<Option<nat>>,
    ) -> bool {
        &&& self.extends(before)
        &&& self.keeps(before)
        &&& self.satisfied() == (before.satisfied() && condition)
        &&& self.inputs() == before.inputs() + inputs
        &&& before.consistent() ==> self.consistent()
    }

    /// This circuit is `before` with more steps; they hold if and only if
    /// `condition` does, make nothing a public input, and take only what
    /// the steps before them make.
    pub open spec fn adds(&self, before: &Self, condition: bool) -> bool {
        &&& self.extends(before)
        &&& self.keeps(before)
        &&& self.satisfied() == (before.satisfied() && condition)
        &&& self.inputs() == before.inputs()
        &&& before.consistent() ==> self.consistent()
    }

    /// Steps that are added to a circuit without steps, ask what holds and
    /// make the given numbers public inputs, give a circuit that is
    /// satisfied, consistent, and has those public inputs and no others.
    pub proof fn lemma_layout_from_nothing(&self, before: &Self, inputs: Seq<Option<nat>>)
        requires
            before@.len() == 0,
            self.adds_inputs(before, true, inputs),
        ensures
            self.satisfied(),
            self.consistent(),
            self.inputs() == inputs,
    {
        assert(before.inputs() + inputs =~= inputs);
    }

    /// A circuit without steps.
    pub fn new() -> (cs: Self)
        ensures
            cs@.len() == 0,
            cs.satisfied(),
            cs.consistent(),
            cs.inputs().len() == 0,
    {
        ConstraintSystem { steps: Vec::new() }
    }

    /// Whether the values given satisfy the circuit.
    pub fn is_satisfied(&self, sign_params: &SignParams) -> (ok: bool)
        ensures
            ok == self.satisfied(),
    {
        let mut i: usize = 0;
        while i < self.steps.len()
            invariant
                i <= self.steps@.len(),
                forall|j: int| 0 <= j < i ==> (#[trigger] self.steps@[j]).holds(),
            decreases self.steps@.len() - i,
        {
            if !self.steps[i].check(sign_params) {
                return false;
            }
            i += 1;
        }
        true
    }

    /// The values of the numbers that are public inputs, in their order.
    pub fn public_inputs(&self) -> (inputs: Vec<Option<FieldElement>>)
        ensures
            inputs@.len() == self.inputs().len(),
            forall|j: int|
                0 <= j < inputs@.len() ==> option_view(#[trigger] inputs@[j]) == self.inputs()[j],
    {
        let mut inputs: Vec<Option<FieldElement>> = Vec::new();
        let mut i: usize = 0;
        assert(self.steps@.take(0) =~= Seq::<Step>::empty());
        while i < self.steps.len()
            invariant
                i <= self.steps@.len(),
                inputs@.len() == inputs_of(self.steps@.take(i as int)).len(),
                forall|j: int|
                    0 <= j < inputs@.len() ==> option_view(#[trigger] inputs@[j]) == inputs_of(
                        self.steps@.take(i as int),
                    )[j],
            decreases self.steps@.len() - i,
        {
            proof {
                assert(self.steps@.take(i + 1) =~= self.steps@.take(i as int).push(
                    self.steps@[i as int],
                ));
                lemma_inputs_of_push(self.steps@.take(i as int), self.steps@[i as int]);
            }
            match &self.steps[i] {
                Step::Inputize { num } => {
                    inputs.push(num.value);
                },
                _ => {},
            }
            i += 1;
        }
        assert(self.steps@.take(i as int) =~= self.steps@);
        inputs
    }

    /// Whether the circuit's public inputs are the given values, all known
    /// and in the given order.
    pub fn verify(&self, expected: &Vec<FieldElement>) -> (ok: bool)
        ensures
            ok == (self.inputs() == known_values(crate::hash::values(expected@))),
    {
        let inputs = self.public_inputs();
        let ghost wanted = known_values(crate::hash::values(expected@));
        if inputs.len() != expected.len() {
            return false;
        }
        let mut j: usize = 0;
        while j < inputs.len()
            invariant
                j <= inputs@.len(),
                inputs@.len() == expected@.len(),
                inputs@.len() == self.inputs().len(),
                wanted == known_values(crate::hash::values(expected@)),
                forall|k: int|
                    0 <= k < inputs@.len() ==>
                        option_view(#[trigger] inputs@[k]) == self.inputs()[k],
                forall|k: int| 0 <= k < j ==> self.inputs()[k] == wanted[k],
            decreases inputs@.len() - j,
        {
            let same = match inputs[j] {
                Some(value) => value.equals(&expected[j]),
                None => false,
            };
            if !same {
                assert(self.inputs()[j as int] != wanted[j as int]);
                return false;
            }
            j += 1;
        }
        assert(self.inputs() =~= wanted);
        true
    }

    /// The steps so far.
    pub fn steps(&self) -> (steps: &Vec<Step>)
        ensures
            steps@ == self@,
    {
        &self.steps
    }

    fn push(&mut self, step: Step)
        requires
            takes_from(old(self)@, old(self)@.len() as int, step),
        ensures
            final(self)@ == old(self)@.push(step),
            final(self).extends(old(self)),
            final(self).satisfied() == (old(self).satisfied() && step.holds()),
            final(self).inputs() == (match step {
                Step::Inputize { num } => old(self).inputs().push(num_view(num)),
                _ => old(self).inputs(),
            }),
            old(self).consistent() ==> final(self).consistent(),
            final(self).keeps(old(self)),
            final(self).lays(old(self), seq![step.shape()]),
    {
        proof {
            reveal(shapes);
            reveal(ConstraintSystem::lays);
            assert(shapes(self@.push(step)) =~= shapes(self@) + seq![step.shape()]);
            lemma_all_hold_push(self@, step);
            lemma_inputs_of_push(self@, step);
            if self.consistent() {
                lemma_consistent_push(self@, step);
            }
        }
        self.steps.push(step);
    }

    /// A number with the given value.
    pub fn alloc_num(&mut self, value: Option<FieldElement>) -> (num: AllocatedNum)
        ensures
            final(self).lays(old(self), seq![Shape::Alloc]),
            final(self)@ == old(self)@.push(Step::Alloc { value }),
            final(self).adds(old(self), true),
            num == (AllocatedNum { source: old(self)@.len() as usize, slot: 0, value }),
            num.source == old(self)@.len(),
            final(self).owns(num),
    {
        let source = self.steps.len();
        self.push(Step::Alloc { value });
        AllocatedNum { source, slot: 0, value }
    }

    /// A bit with the given value.
    pub fn alloc_bit(&mut self, value: Option<bool>) -> (bit: AllocatedBit)
        ensures
            final(self).lays(old(self), seq![Shape::AllocBit]),
            final(self)@ == old(self)@.push(Step::AllocBit { bit: value }),
            final(self).adds(old(self), true),
            bit == (AllocatedBit { source: old(self)@.len() as usize, slot: 0, value }),
            bit.source == old(self)@.len(),
            final(self).owns_bit(bit),
    {
        let source = self.steps.len();
        self.push(Step::AllocBit { bit: value });
        AllocatedBit { source, slot: 0, value }
    }

    /// Makes a number a public input.
    pub fn inputize(&mut self, num: &AllocatedNum)
        requires
            old(self).owns(*num),
        ensures
            final(self).lays(old(self), seq![Shape::Inputize { num: num.wire() }]),
            final(self)@ == old(self)@.push(Step::Inputize { num: *num }),
            final(self).adds_inputs(old(self), true, seq![num_view(*num)]),
    {
        self.push(Step::Inputize { num: *num });
        assert(self.inputs() =~= old(self).inputs() + seq![num_view(*num)]);
    }

    /// A number with the given value that is a public input.
    pub fn alloc_input(&mut self, value: Option<FieldElement>) -> (num: AllocatedNum)
        ensures
            final(self).lays(old(self), input_layout(old(self)@.len())),
            final(self)@.len() == old(self)@.len() + 2,
            num.slot == 0,
            final(self)@ == old(self)@.push(Step::Alloc { value }).push(Step::Inputize { num }),
            final(self).adds_inputs(old(self), true, seq![option_view(value)]),
            num == (AllocatedNum { source: old(self)@.len() as usize, slot: 0, value }),
            num.source == old(self)@.len(),
            final(self).owns(num),
    {
        let num = self.alloc_num(value);
        self.inputize(&num);
        reveal(ConstraintSystem::lays);
        assert(shapes(self@) =~= shapes(old(self)@) + seq![
            Shape::Alloc,
            Shape::Inputize { num: num.wire() },
        ]);
        num
    }

    /// Asks that the product of the first two sums be the third.
    pub fn enforce(&mut self, a: Vec<Term>, b: Vec<Term>, c: Vec<Term>)
        requires
            old(self).owns_terms(a@),
            old(self).owns_terms(b@),
            old(self).owns_terms(c@),
        ensures
            final(self).lays(
                old(self),
                seq![Shape::Enforce { a: term_shapes(a@), b: term_shapes(b@), c: term_shapes(c@) }],
            ),
            final(self)@ == old(self)@.push(Step::Enforce { a, b, c }),
            final(self).asks_product(old(self), a@, b@, c@),
            final(self).adds(old(self), (Step::Enforce { a, b, c }).holds()),
    {
        self.push(Step::Enforce { a, b, c });
        proof {
            reveal(ConstraintSystem::asks_product);
            assert(self@.drop_last() =~= old(self)@);
        }
    }

    /// Asks that two bits be equal.
    pub fn enforce_equal(&mut self, a: &AllocatedBit, b: &AllocatedBit)
        requires
            old(self).owns_bit(*a),
            old(self).owns_bit(*b),
        ensures
            final(self).lays(old(self), seq![Shape::EnforceEqual { a: a.wire(), b: b.wire() }]),
            final(self)@ == old(self)@.push(Step::EnforceEqual { a: *a, b: *b }),
            final(self).adds(old(self), a.value.is_some() && a.value == b.value),
    {
        self.push(Step::EnforceEqual { a: *a, b: *b });
    }

    /// Asks that a number be below two to the power `bits`.
    pub fn limit_number_of_bits(&mut self, num: &AllocatedNum, bits: usize)
        requires
            old(self).owns(*num),
        ensures
            final(self).lays(old(self), seq![Shape::LimitBits { num: num.wire(), bits }]),
            final(self)@ == old(self)@.push(Step::LimitBits { num: *num, bits }),
            final(self).adds(
                old(self),
                num.value.is_some() && num.spec_value() < two_pow(bits as nat),
            ),
    {
        self.push(Step::LimitBits { num: *num, bits });
    }

    /// A curve point with the given coordinates.
    pub fn witness_point(&mut self, value: Option<PublicKey>) -> (point: AllocatedPoint)
        ensures
            final(self).lays(old(self), seq![Shape::WitnessPoint]),
            final(self)@ == old(self)@.push(Step::WitnessPoint { point: value }),
            final(self).adds(old(self), true),
            point.x.source == old(self)@.len(),
            point.x.slot == 0,
            point.y.source == old(self)@.len(),
            point.y.slot == 1,
            value matches Some(p) ==> point.x.value == Some(p.x) && point.y.value == Some(p.y),
            value is None ==> point.x.value is None && point.y.value is None,
            final(self).owns(point.x),
            final(self).owns(point.y),
    {
        let source = self.steps.len();
        self.push(Step::WitnessPoint { point: value });
        match value {
            Some(p) => AllocatedPoint {
                x: AllocatedNum { source, slot: 0, value: Some(p.x) },
                y: AllocatedNum { source, slot: 1, value: Some(p.y) },
            },
            None => AllocatedPoint {
                x: AllocatedNum { source, slot: 0, value: None },
                y: AllocatedNum { source, slot: 1, value: None },
            },
        }
    }

    /// The sponge hash of the given numbers; its value is known where
    /// theirs are.
    pub fn poseidon_hash(&mut self, inputs: &Vec<AllocatedNum>, params: &HashParams) -> (hash:
        AllocatedNum)
        requires
            old(self).owns_all(inputs@),
        ensures
            final(self).lays(
                old(self),
                seq![
                    Shape::Hash {
                        inputs: wires(inputs@),
                        t: params.t(),
                        r_f: params.r_f(),
                        r_p: params.r_p(),
                    },
                ],
            ),
            final(self)@.len() == old(self)@.len() + 1,
            final(self)@.last() matches Step::Hash { inputs: hashed, t, r_f, r_p } && hashed@
                == inputs@ && t == params.t() && r_f == params.r_f() && r_p == params.r_p(),
            final(self).adds(old(self), true),
            hash.source == old(self)@.len(),
            hash.slot == 0,
            hash.value.is_some() == all_known(inputs@),
            all_known(inputs@) ==> hash.spec_value() == params.spec_hash(num_values(inputs@)),
            final(self).owns(hash),
    {
        let source = self.steps.len();
        let mut values: Vec<FieldElement> = Vec::new();
        let mut copy: Vec<AllocatedNum> = Vec::new();
        let mut known = true;
        let mut i: usize = 0;
        while i < inputs.len()
            invariant
                i <= inputs.len(),
                copy@ == inputs@.take(i as int),
                known == all_known(inputs@.take(i as int)),
                known ==> values@.len() == i,
                known ==> forall|j: int| 0 <= j < i ==>
                    inputs@[j].value == Some(#[trigger] values@[j]),
            decreases inputs.len() - i,
        {
            let ghost seen = inputs@.take(i as int);
            let ghost more = inputs@.take(i + 1);
            copy.push(inputs[i]);
            assert(copy@ =~= more);
            assert(more =~= seen.push(inputs@[i as int]));
            proof {
                lemma_all_known_push(seen, inputs@[i as int]);
            }
            match inputs[i].value {
                Some(v) => {
                    if known {
                        values.push(v);
                    }
                },
                None => {
                    known = false;
                },
            }
            i += 1;
        }
        assert(inputs@.take(i as int) =~= inputs@);
        self.push(
            Step::Hash {
                inputs: copy,
                t: params.state_width(),
                r_f: params.full_rounds(),
                r_p: params.partial_rounds(),
            },
        );
        if known {
            assert(crate::hash::values(values@) =~= num_values(inputs@));
            let value = params.hash(&values);
            AllocatedNum { source, slot: 0, value: Some(value) }
        } else {
            AllocatedNum { source, slot: 0, value: None }
        }
    }

    /// The two numbers, swapped if the bit is set.
    pub fn conditionally_reverse(
        &mut self,
        a: &AllocatedNum,
        b: &AllocatedNum,
        condition: &AllocatedBit,
    ) -> (r: (AllocatedNum, AllocatedNum))
        requires
            old(self).owns(*a),
            old(self).owns(*b),
            old(self).owns_bit(*condition),
        ensures
            final(self).lays(
                old(self),
                seq![
                    Shape::ConditionallyReverse {
                        a: a.wire(),
                        b: b.wire(),
                        condition: condition.wire(),
                    },
                ],
            ),
            final(self).owns(r.0),
            final(self).owns(r.1),
            final(self)@ == old(self)@.push(
                Step::ConditionallyReverse { a: *a, b: *b, condition: *condition },
            ),
            final(self).adds(old(self), true),
            r.0.source == old(self)@.len(),
            r.0.slot == 0,
            r.1.source == old(self)@.len(),
            r.1.slot == 1,
            r.0.value == (match condition.value {
                Some(c) => if c {
                    b.value
                } else {
                    a.value
                },
                None => None,
            }),
            r.1.value == (match condition.value {
                Some(c) => if c {
                    a.value
                } else {
                    b.value
                },
                None => None,
            }),
    {
        let source = self.steps.len();
        self.push(Step::ConditionallyReverse { a: *a, b: *b, condition: *condition });
        let (left, right) = match condition.value {
            Some(c) => if c {
                (b.value, a.value)
            } else {
                (a.value, b.value)
            },
            None => (None, None),
        };
        (
            AllocatedNum { source, slot: 0, value: left },
            AllocatedNum { source, slot: 1, value: right },
        )
    }

    /// The first number if the bit is set, else the second.
    pub fn conditionally_select(
        &mut self,
        a: &AllocatedNum,
        b: &AllocatedNum,
        condition: &AllocatedBit,
    ) -> (r: AllocatedNum)
        requires
            old(self).owns(*a),
            old(self).owns(*b),
            old(self).owns_bit(*condition),
        ensures
            final(self).lays(
                old(self),
                seq![
                    Shape::ConditionallySelect {
                        a: a.wire(),
                        b: b.wire(),
                        condition: condition.wire(),
                    },
                ],
            ),
            final(self).owns(r),
            final(self)@ == old(self)@.push(
                Step::ConditionallySelect { a: *a, b: *b, condition: *condition },
            ),
            final(self).adds(old(self), true),
            r.source == old(self)@.len(),
            r.slot == 0,
            r.value == (match condition.value {
                Some(c) => if c {
                    a.value
                } else {
                    b.value
                },
                None => None,
            }),
    {
        let source = self.steps.len();
        self.push(Step::ConditionallySelect { a: *a, b: *b, condition: *condition });
        let value = match condition.value {
            Some(c) => if c {
                a.value
            } else {
                b.value
            },
            None => None,
        };
        AllocatedNum { source, slot: 0, value }
    }

    /// The bits of a number's least representative, lowest first.
    pub fn into_bits_le(&mut self, num: &AllocatedNum) -> (bits: Vec<AllocatedBit>)
        requires
            old(self).owns(*num),
        ensures
            final(self).lays(old(self), seq![Shape::IntoBits { num: num.wire() }]),
            final(self).owns_bits(bits@),
            final(self)@ == old(self)@.push(Step::IntoBits { num: *num }),
            final(self).adds(old(self), true),
            bits@.len() == NUM_BITS,
            forall|k: int|
                0 <= k < NUM_BITS ==>
                    (#[trigger] bits@[k]).source == old(self)@.len() && bits@[k].slot
                    == k && bits@[k].value == (match num.value {
                    Some(v) => Some(spec_bit(v@, k as nat)),
                    None => None,
                }),
    {
        let source = self.steps.len();
        self.push(Step::IntoBits { num: *num });
        let mut bits: Vec<AllocatedBit> = Vec::new();
        let mut k: usize = 0;
        while k < NUM_BITS
            invariant
                k <= NUM_BITS,
                bits@.len() == k,
                forall|j: int|
                    0 <= j < k ==> (#[trigger] bits@[j]).source == source && bits@[j].slot == j
                        && bits@[j].value == (match num.value {
                        Some(v) => Some(spec_bit(v@, j as nat)),
                        None => None,
                    }),
            decreases NUM_BITS - k,
        {
            let value = match num.value {
                Some(v) => Some(v.bit(k)),
                None => None,
            };
            bits.push(AllocatedBit { source, slot: k, value });
            k += 1;
        }
        bits
    }

    /// Asks that a signature of the first `message_bytes` bytes of a hash's
    /// little-endian encoding verify.
    pub fn verify_raw_message_signature(
        &mut self,
        signature: &AllocatedSignature,
        hash: &AllocatedNum,
        message_bytes: usize,
    )
        requires
            old(self).owns_signature(*signature),
            old(self).owns(*hash),
        ensures
            final(self).lays(
                old(self),
                seq![(Step::VerifySignature { signature: *signature, hash: *hash, message_bytes }).shape()],
            ),
            final(self)@ == old(self)@.push(
                Step::VerifySignature { signature: *signature, hash: *hash, message_bytes },
            ),
            final(self).adds(
                old(self),
                (Step::VerifySignature { signature: *signature, hash: *hash, message_bytes }).holds(),
            ),
    {
        self.push(Step::VerifySignature { signature: *signature, hash: *hash, message_bytes });
    }
}

/// The empty sum.
pub fn lc0() -> (sum: Vec<Term>)
    ensures
        term_shapes(sum@) == Seq::<TermShape>::empty(),
        sum@ == Seq::<Term>::empty(),
        sum_known(sum@),
        sum_value(sum@) == 0,
        forall|cs: ConstraintSystem| #[trigger] cs.owns_terms(sum@),
{
    let sum: Vec<Term> = Vec::new();
    assert(sum@ =~= Seq::<Term>::empty());
    assert(term_shapes(sum@) =~= Seq::<TermShape>::empty());
    sum
}

/// The sum of one summand.
pub fn lc1(a: Term) -> (sum: Vec<Term>)
    ensures
        term_shapes(sum@) == seq![a.shape()],
        sum@ == seq![a],
        sum_known(sum@) == a.known(),
        sum_value(sum@) == a.spec_value(),
        forall|cs: ConstraintSystem| cs.owns_term(a) ==> #[trigger] cs.owns_terms(sum@),
{
    let mut sum: Vec<Term> = Vec::new();
    sum.push(a);
    proof {
        reveal_with_fuel(sum_value, 2);
        assert(sum@ =~= seq![a]);
        assert(term_shapes(sum@) =~= seq![a.shape()]);
        assert(sum@.drop_last() =~= Seq::<Term>::empty());
        assert(sum@[0].known() == a.known());
    }
    sum
}

/// The sum of two summands.
pub fn lc2(a: Term, b: Term) -> (sum: Vec<Term>)
    ensures
        term_shapes(sum@) == seq![a.shape(), b.shape()],
        sum@ == seq![a, b],
        sum_known(sum@) == (a.known() && b.known()),
        sum_value(sum@) == a.spec_value() + b.spec_value(),
        forall|cs: ConstraintSystem|
            cs.owns_term(a) && cs.owns_term(b) ==> #[trigger] cs.owns_terms(sum@),
{
    let mut sum: Vec<Term> = Vec::new();
    sum.push(a);
    sum.push(b);
    proof {
        reveal_with_fuel(sum_value, 3);
        assert(sum@ =~= seq![a, b]);
        assert(term_shapes(sum@) =~= seq![a.shape(), b.shape()]);
        assert(sum@.drop_last() =~= seq![a]);
        assert(seq![a].drop_last() =~= Seq::<Term>::empty());
        assert(sum@[0].known() == a.known());
        assert(sum@[1].known() == b.known());
    }
    sum
}

} // verus!
