//! Arithmetic and comparisons as constraints.

use crate::circuit::{
    bit_wires, lc0, lc1, lc2, lemma_layout_joins, product_shape, shapes, spec_bit, sum_value,
    wire_at, AllocatedBit, AllocatedNum, ConstraintSystem, NUM_BITS, Shape, Step, SynthesisError,
    Term, TermShape, Wire,
};
use crate::field::{fr_modulus, FieldElement};
use crate::tree::merkle_tree::two_pow;
use vstd::arithmetic::div_mod::{
    lemma_add_mod_noop, lemma_mod_add_multiples_vanish, lemma_mod_equivalence,
    lemma_mul_mod_noop_right, lemma_small_mod,
};
use vstd::prelude::*;

verus! {

/// The given bits are the lowest bits of the number, lowest first.
pub open spec fn lowest_bits(num: AllocatedNum, bits: Seq<AllocatedBit>) -> bool {
    forall|i: int|
        0 <= i < bits.len() ==> num.value.is_some() && (#[trigger] bits[i]).value == Some(
            spec_bit(num.spec_value(), i as nat),
        )
}

/// The number is the sum of the given bits, lowest first: they are its
/// lowest bits, and it has no higher ones.
pub open spec fn decomposes(num: AllocatedNum, bits: Seq<AllocatedBit>) -> bool {
    &&& num.value.is_some()
    &&& num.spec_value() < two_pow(bits.len() as nat)
    &&& forall|i: int|
        0 <= i < bits.len() ==> (#[trigger] bits[i]).value == Some(
            spec_bit(num.spec_value(), i as nat),
        )
}

/// The steps that ask a number to be the sum of the given bits: its bits,
/// one comparison for each given bit, and the limit on its size.
pub open spec fn decomposition_steps(
    start: nat,
    num: AllocatedNum,
    bits: Seq<AllocatedBit>,
) -> Seq<Step> {
    seq![Step::IntoBits { num }] + Seq::new(
        bits.len(),
        |i: int| Step::EnforceEqual { a: bit_of(start, num, i as nat), b: bits[i] },
    ) + seq![Step::LimitBits { num, bits: bits.len() as usize }]
}

/// Bit `i` of a number, as the step at `start` that takes the number apart
/// makes it.
pub open spec fn bit_of(start: nat, num: AllocatedNum, i: nat) -> AllocatedBit {
    AllocatedBit {
        source: start as usize,
        slot: i as usize,
        value: match num.value {
            Some(v) => Some(spec_bit(v@, i)),
            None => None,
        },
    }
}

/// The shapes of the steps that ask a number to be the sum of the given
/// bits.
pub open spec fn decomposition_layout(start: nat, num: Wire, bits: Seq<Wire>) -> Seq<Shape> {
    seq![Shape::IntoBits { num }] + Seq::new(
        bits.len(),
        |i: int| Shape::EnforceEqual { a: wire_at(start, i as nat), b: bits[i] },
    ) + seq![Shape::LimitBits { num, bits: bits.len() as usize }]
}

/// Asks that the number be the sum of the given bits, lowest first.
pub fn check_decomposition_le(
    cs: &mut ConstraintSystem,
    num: &AllocatedNum,
    bits: &Vec<AllocatedBit>,
)
    requires
        bits@.len() <= NUM_BITS,
        old(cs).owns(*num),
        old(cs).owns_bits(bits@),
    ensures
        final(cs)@.len() == old(cs)@.len() + bits@.len() + 2,
        final(cs).adds(old(cs), decomposes(*num, bits@)),
        final(cs).lays_steps(old(cs), decomposition_steps(old(cs)@.len(), *num, bits@)),
        final(cs).lays(
            old(cs),
            decomposition_layout(old(cs)@.len(), num.wire(), bit_wires(bits@)),
        ),
{
    let ghost start = cs@.len();
    let decomp = cs.into_bits_le(num);
    let mut i: usize = 0;
    while i < bits.len()
        invariant
            i <= bits@.len() <= NUM_BITS,
            decomp@.len() == NUM_BITS,
            cs.owns_bits(decomp@),
            cs.owns_bits(bits@),
            cs.owns(*num),
            forall|k: int| 0 <= k < NUM_BITS ==> #[trigger] decomp@[k] == bit_of(start, *num, k as nat),
            cs.adds(old(cs), lowest_bits(*num, bits@.take(i as int))),
            cs@ == old(cs)@ + seq![Step::IntoBits { num: *num }] + Seq::new(
                i as nat,
                |k: int| Step::EnforceEqual { a: bit_of(start, *num, k as nat), b: bits@[k] },
            ),
        decreases bits@.len() - i,
    {
        let ghost seen = bits@.take(i as int);
        let ghost more = bits@.take(i + 1);
        let ghost laid = cs@;
        cs.enforce_equal(&decomp[i], &bits[i]);
        proof {
            let agree = decomp@[i as int].value.is_some() && decomp@[i as int].value
                == bits@[i as int].value;
            if lowest_bits(*num, seen) && agree {
                assert forall|j: int| 0 <= j < more.len() implies num.value.is_some() && (
                #[trigger] more[j]).value == Some(spec_bit(num.spec_value(), j as nat)) by {
                    if j < i {
                        assert(seen[j].value == Some(spec_bit(num.spec_value(), j as nat)));
                    }
                }
            }
            if lowest_bits(*num, more) {
                assert(more[i as int].value == Some(spec_bit(num.spec_value(), i as nat)));
                assert forall|j: int| 0 <= j < seen.len() implies num.value.is_some() && (
                #[trigger] seen[j]).value == Some(spec_bit(num.spec_value(), j as nat)) by {
                    assert(more[j].value == Some(spec_bit(num.spec_value(), j as nat)));
                }
            }
            assert(cs@ =~= old(cs)@ + seq![Step::IntoBits { num: *num }] + Seq::new(
                (i + 1) as nat,
                |k: int| Step::EnforceEqual { a: bit_of(start, *num, k as nat), b: bits@[k] },
            ));
        }
        i += 1;
    }
    assert(bits@.take(i as int) =~= bits@);
    cs.limit_number_of_bits(num, bits.len());
    assert(cs@ =~= old(cs)@ + decomposition_steps(start, *num, bits@));
    reveal(ConstraintSystem::lays_steps);
    reveal(shapes);
    reveal(ConstraintSystem::lays);
    assert(decomp@[0].source == start);
    assert(shapes(cs@) =~= shapes(old(cs)@) + decomposition_layout(
        start,
        num.wire(),
        bit_wires(bits@),
    ));
}

/// All three values are known, and the first is the sum of the other two in
/// the field.
pub open spec fn field_sum(
    total: Option<FieldElement>,
    a: Option<FieldElement>,
    b: Option<FieldElement>,
) -> bool {
    &&& total is Some
    &&& a is Some
    &&& b is Some
    &&& total.unwrap()@ == (a.unwrap()@ + b.unwrap()@) % fr_modulus()
}

/// A sum in the field fixes its second summand: two summands below the
/// modulus that give the same sum with a third number are equal.
pub proof fn lemma_sum_fixes_summand(a: nat, first: nat, second: nat)
    requires
        first < fr_modulus(),
        second < fr_modulus(),
        (a + first) % fr_modulus() == (a + second) % fr_modulus(),
    ensures
        first == second,
{
    let p = fr_modulus() as int;
    if first >= second {
        lemma_mod_equivalence((a + first) as int, (a + second) as int, p);
        lemma_small_mod((first - second) as nat, fr_modulus());
    } else {
        lemma_mod_equivalence((a + second) as int, (a + first) as int, p);
        lemma_small_mod((second - first) as nat, fr_modulus());
    }
}

/// Both values are known and stand for the same number.
pub open spec fn same_value(a: Option<FieldElement>, b: Option<FieldElement>) -> bool {
    &&& a is Some
    &&& b is Some
    &&& a.unwrap()@ == b.unwrap()@
}

/// Both values are known, and the second is the first and one in the field.
pub open spec fn next_value(a: Option<FieldElement>, b: Option<FieldElement>) -> bool {
    &&& a is Some
    &&& b is Some
    &&& b.unwrap()@ == (a.unwrap()@ + 1) % fr_modulus()
}

/// The step that asks a number to be the sum of two others.
pub open spec fn sum_layout(total: Wire, a: Wire, b: Wire) -> Seq<Shape> {
    seq![
        product_shape(
            seq![TermShape::Num(total)],
            seq![TermShape::One],
            seq![TermShape::Num(a), TermShape::Num(b)],
        ),
    ]
}

/// Asks that `total` be the sum of `a` and `b`.
pub fn enforce_sum(
    cs: &mut ConstraintSystem,
    total: &AllocatedNum,
    a: &AllocatedNum,
    b: &AllocatedNum,
)
    requires
        old(cs).owns(*total),
        old(cs).owns(*a),
        old(cs).owns(*b),
    ensures
        final(cs).asks_product(
            old(cs),
            seq![Term::Num(*total)],
            seq![Term::One],
            seq![Term::Num(*a), Term::Num(*b)],
        ),
        final(cs)@.len() == old(cs)@.len() + 1,
        final(cs).lays(old(cs), sum_layout(total.wire(), a.wire(), b.wire())),
        final(cs).adds(old(cs), field_sum(total.value, a.value, b.value)),
{
    if let Some(v) = total.value {
        proof {
            use_type_invariant(&v);
            lemma_small_mod(v@, fr_modulus());
        }
    }
    assert(total.spec_value() * 1 == total.spec_value());
    cs.enforce(lc1(Term::Num(*total)), lc1(Term::One), lc2(Term::Num(*a), Term::Num(*b)));
}

/// The step that asks two numbers to be equal.
pub open spec fn same_layout(a: Wire, b: Wire) -> Seq<Shape> {
    seq![product_shape(seq![TermShape::Num(a)], seq![TermShape::One], seq![TermShape::Num(b)])]
}

/// Asks that two numbers be equal.
pub fn enforce_same(cs: &mut ConstraintSystem, a: &AllocatedNum, b: &AllocatedNum)
    requires
        old(cs).owns(*a),
        old(cs).owns(*b),
    ensures
        final(cs).asks_product(
            old(cs),
            seq![Term::Num(*a)],
            seq![Term::One],
            seq![Term::Num(*b)],
        ),
        final(cs)@.len() == old(cs)@.len() + 1,
        final(cs).lays(old(cs), same_layout(a.wire(), b.wire())),
        final(cs).adds(old(cs), same_value(a.value, b.value)),
{
    if let Some(v) = a.value {
        proof {
            use_type_invariant(&v);
            lemma_small_mod(v@, fr_modulus());
        }
    }
    if let Some(v) = b.value {
        proof {
            use_type_invariant(&v);
            lemma_small_mod(v@, fr_modulus());
        }
    }
    assert(a.spec_value() * 1 == a.spec_value());
    cs.enforce(lc1(Term::Num(*a)), lc1(Term::One), lc1(Term::Num(*b)));
}

/// The step that asks a number to be another and one.
pub open spec fn next_layout(a: Wire, b: Wire) -> Seq<Shape> {
    seq![
        product_shape(
            seq![TermShape::Num(a), TermShape::One],
            seq![TermShape::One],
            seq![TermShape::Num(b)],
        ),
    ]
}

/// Asks that `b` be `a` and one.
pub fn enforce_next(cs: &mut ConstraintSystem, a: &AllocatedNum, b: &AllocatedNum)
    requires
        old(cs).owns(*a),
        old(cs).owns(*b),
    ensures
        final(cs).asks_product(
            old(cs),
            seq![Term::Num(*a), Term::One],
            seq![Term::One],
            seq![Term::Num(*b)],
        ),
        final(cs)@.len() == old(cs)@.len() + 1,
        final(cs).lays(old(cs), next_layout(a.wire(), b.wire())),
        final(cs).adds(old(cs), next_value(a.value, b.value)),
{
    if let Some(v) = b.value {
        proof {
            use_type_invariant(&v);
            lemma_small_mod(v@, fr_modulus());
        }
    }
    assert((a.spec_value() + 1) * 1 == a.spec_value() + 1);
    cs.enforce(lc2(Term::Num(*a), Term::One), lc1(Term::One), lc1(Term::Num(*b)));
}

/// The steps that make the sum of two numbers: the new number, and the
/// step that asks it to be the sum.
pub open spec fn add_layout(start: nat, a: Wire, b: Wire) -> Seq<Shape> {
    seq![
        Shape::Alloc,
        product_shape(
            seq![TermShape::Num(a), TermShape::Num(b)],
            seq![TermShape::One],
            seq![TermShape::Num(wire_at(start, 0))],
        ),
    ]
}

/// The sum of two numbers, as a new number that is asked to be their sum.
/// Its value is known where theirs are.
pub fn add(cs: &mut ConstraintSystem, a: &AllocatedNum, b: &AllocatedNum) -> (sum: AllocatedNum)
    requires
        old(cs).owns(*a),
        old(cs).owns(*b),
    ensures
        final(cs)@.len() == old(cs)@.len() + 2,
        final(cs).lays(old(cs), add_layout(old(cs)@.len(), a.wire(), b.wire())),
        sum.wire() == wire_at(old(cs)@.len(), 0),
        final(cs).owns(sum),
        final(cs).adds(old(cs), a.value is Some && b.value is Some),
        sum.value is Some == (a.value is Some && b.value is Some),
        sum.value is Some ==> sum.spec_value() == (a.spec_value() + b.spec_value()) % fr_modulus(),
{
    let sum = match (a.value, b.value) {
        (Some(a_val), Some(b_val)) => Some(a_val.plus(&b_val)),
        _ => None,
    };
    let sum = cs.alloc_num(sum);
    if let Some(v) = sum.value {
        proof {
            use_type_invariant(&v);
            lemma_small_mod(v@, fr_modulus());
        }
    }
    assert((a.spec_value() + b.spec_value()) * 1 == a.spec_value() + b.spec_value());
    cs.enforce(lc2(Term::Num(*a), Term::Num(*b)), lc1(Term::One), lc1(Term::Num(sum)));
    reveal(ConstraintSystem::lays);
    assert(shapes(cs@) =~= shapes(old(cs)@) + add_layout(old(cs)@.len(), a.wire(), b.wire()));
    sum
}

/// The steps that make the difference of two numbers: the new number, and
/// the step that asks its sum with the second to be the first.
pub open spec fn sub_layout(start: nat, a: Wire, b: Wire) -> Seq<Shape> {
    seq![
        Shape::Alloc,
        product_shape(
            seq![TermShape::Num(a)],
            seq![TermShape::One],
            seq![TermShape::Num(wire_at(start, 0)), TermShape::Num(b)],
        ),
    ]
}

/// The difference of two numbers, as a new number that is asked to be their
/// difference. Its value is known where theirs are.
pub fn sub(cs: &mut ConstraintSystem, a: &AllocatedNum, b: &AllocatedNum) -> (diff: AllocatedNum)
    requires
        old(cs).owns(*a),
        old(cs).owns(*b),
    ensures
        final(cs)@.len() == old(cs)@.len() + 2,
        final(cs).lays(old(cs), sub_layout(old(cs)@.len(), a.wire(), b.wire())),
        diff.wire() == wire_at(old(cs)@.len(), 0),
        final(cs).owns(diff),
        final(cs).adds(old(cs), a.value is Some && b.value is Some),
        diff.value is Some == (a.value is Some && b.value is Some),
        diff.value is Some ==> diff.spec_value() == (a.spec_value() + fr_modulus() - b.spec_value())
            % (fr_modulus() as int),
{
    let diff = match (a.value, b.value) {
        (Some(a_val), Some(b_val)) => {
            proof {
                use_type_invariant(&a_val);
                use_type_invariant(&b_val);
                let p = fr_modulus() as int;
                lemma_small_mod(b_val@, fr_modulus());
                lemma_add_mod_noop(a_val@ + p - b_val@, b_val@ as int, p);
                lemma_mod_add_multiples_vanish(a_val@ as int, p);
            }
            Some(a_val.minus(&b_val))
        },
        _ => None,
    };
    let diff = cs.alloc_num(diff);
    assert(a.spec_value() * 1 == a.spec_value());
    cs.enforce(lc1(Term::Num(*a)), lc1(Term::One), lc2(Term::Num(diff), Term::Num(*b)));
    reveal(ConstraintSystem::lays);
    assert(shapes(cs@) =~= shapes(old(cs)@) + sub_layout(old(cs)@.len(), a.wire(), b.wire()));
    diff
}

/// The steps that make the quotient of two numbers: the new number, and
/// the step that asks its product with the divisor to be the dividend.
pub open spec fn div_layout(start: nat, a: Wire, b: Wire) -> Seq<Shape> {
    seq![
        Shape::Alloc,
        product_shape(
            seq![TermShape::Num(b)],
            seq![TermShape::Num(wire_at(start, 0))],
            seq![TermShape::Num(a)],
        ),
    ]
}

/// The quotient of two numbers, as a new number whose product with the
/// divisor is asked to be the dividend. Its value is known where theirs are.
/// Nothing is laid out where the divisor is known to be zero.
pub fn div(cs: &mut ConstraintSystem, a: &AllocatedNum, b: &AllocatedNum) -> (r: Result<
    AllocatedNum,
    SynthesisError,
>)
    requires
        old(cs).owns(*a),
        old(cs).owns(*b),
    ensures
        r is Err <==> b.value is Some && b.spec_value() == 0,
        r is Err ==> r == Err::<AllocatedNum, SynthesisError>(SynthesisError::DivisionByZero)
            && *final(cs) == *old(cs),
        r matches Ok(quot) ==> {
            &&& final(cs).adds(old(cs), a.value is Some && b.value is Some)
            &&& final(cs).lays(old(cs), div_layout(old(cs)@.len(), a.wire(), b.wire()))
            &&& quot.wire() == wire_at(old(cs)@.len(), 0)
            &&& final(cs)@.len() == old(cs)@.len() + 2
            &&& final(cs).owns(quot)
            &&& quot.value is Some == (a.value is Some && b.value is Some)
            &&& quot.value is Some ==> (b.spec_value() * quot.spec_value()) % fr_modulus()
                == a.spec_value()
        },
{
    let b_inv_val = match b.value {
        Some(b_val) => match b_val.inverse() {
            Some(b_inv_val) => Some(b_inv_val),
            None => {
                return Err(SynthesisError::DivisionByZero);
            },
        },
        None => None,
    };
    let quot = match (a.value, b_inv_val) {
        (Some(a_val), Some(b_inv_val)) => {
            let quot = a_val.times(&b_inv_val);
            proof {
                use_type_invariant(&a_val);
                let p = fr_modulus() as int;
                let (x, y, i) = (a_val@ as int, b.spec_value() as int, b_inv_val@ as int);
                lemma_small_mod(a_val@, fr_modulus());
                lemma_mul_mod_noop_right(y, x * i, p);
                assert(y * (x * i) == x * (y * i)) by (nonlinear_arith);
                lemma_mul_mod_noop_right(x, y * i, p);
                assert(x * 1 == x);
            }
            Some(quot)
        },
        _ => None,
    };
    let quot = cs.alloc_num(quot);
    if let Some(v) = a.value {
        proof {
            use_type_invariant(&v);
            lemma_small_mod(v@, fr_modulus());
        }
    }
    cs.enforce(lc1(Term::Num(*b)), lc1(Term::Num(quot)), lc1(Term::Num(*a)));
    reveal(ConstraintSystem::lays);
    assert(shapes(cs@) =~= shapes(old(cs)@) + div_layout(old(cs)@.len(), a.wire(), b.wire()));
    Ok(quot)
}

/// The steps that make a number of a bit: a zero and a one, the steps that
/// ask them to be zero and one, and the choice between them by the bit.
pub open spec fn flag_layout(start: nat, cond: Wire) -> Seq<Shape> {
    seq![
        Shape::Alloc,
        Shape::Alloc,
        product_shape(
            seq![TermShape::Num(wire_at(start, 0))],
            seq![TermShape::One],
            Seq::<TermShape>::empty(),
        ),
        product_shape(
            seq![TermShape::One],
            seq![TermShape::One],
            seq![TermShape::Num(wire_at(start + 1, 0))],
        ),
        Shape::ConditionallySelect {
            a: wire_at(start + 1, 0),
            b: wire_at(start, 0),
            condition: cond,
        },
    ]
}

/// One where the bit is set and zero where it is not, as a number. Its
/// value is known where the bit's is.
pub fn boolean_to_allocated_num(
    cs: &mut ConstraintSystem,
    cond: &AllocatedBit,
) -> (num: AllocatedNum)
    requires
        old(cs).owns_bit(*cond),
    ensures
        final(cs)@.len() == old(cs)@.len() + 5,
        final(cs).lays(old(cs), flag_layout(old(cs)@.len(), cond.wire())),
        num.wire() == wire_at(old(cs)@.len() + 4, 0),
        final(cs).adds(old(cs), true),
        final(cs).owns(num),
        num.value is Some == cond.value is Some,
        cond.value matches Some(c) ==> num.spec_value() == (if c {
            1nat
        } else {
            0nat
        }),
{
    let ghost start = cs@.len();
    let ghost laid = shapes(cs@);
    let zero = cs.alloc_num(Some(FieldElement::zero()));
    let one = cs.alloc_num(Some(FieldElement::one()));
    let ghost made = shapes(cs@);
    proof {
        lemma_small_mod(0, fr_modulus());
        lemma_small_mod(1, fr_modulus());
        assert(sum_value(Seq::<Term>::empty()) == 0);
        reveal(ConstraintSystem::lays);
        assert(made =~= laid + seq![Shape::Alloc, Shape::Alloc]);
    }
    assert(zero.spec_value() * 1 == 0);
    cs.enforce(lc1(Term::Num(zero)), lc1(Term::One), lc0());
    assert(1 * 1 == one.spec_value()) by (nonlinear_arith)
        requires
            one.spec_value() == 1,
    ;
    cs.enforce(lc1(Term::One), lc1(Term::One), lc1(Term::Num(one)));
    let ghost asked = shapes(cs@);
    let ghost checks = seq![
        product_shape(
            seq![TermShape::Num(wire_at(start, 0))],
            seq![TermShape::One],
            Seq::<TermShape>::empty(),
        ),
        product_shape(
            seq![TermShape::One],
            seq![TermShape::One],
            seq![TermShape::Num(wire_at(start + 1, 0))],
        ),
    ];
    proof {
        reveal(ConstraintSystem::lays);
        assert(asked =~= made + checks);
        lemma_layout_joins(laid, made, asked, seq![Shape::Alloc, Shape::Alloc], checks);
    }
    let num = cs.conditionally_select(&one, &zero, cond);
    proof {
        let choice = seq![
            Shape::ConditionallySelect {
                a: wire_at(start + 1, 0),
                b: wire_at(start, 0),
                condition: cond.wire(),
            },
        ];
        lemma_layout_joins(
            laid,
            asked,
            shapes(cs@),
            seq![Shape::Alloc, Shape::Alloc] + checks,
            choice,
        );
        assert(seq![Shape::Alloc, Shape::Alloc] + checks + choice =~= flag_layout(
            start,
            cond.wire(),
        ));
    }
    num
}

} // verus!
