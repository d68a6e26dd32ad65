//! Numbers and bits for vectors of values.

use crate::circuit::{
    allocs, bit_allocs, bit_wires, shapes, wires, wires_from, AllocatedBit, AllocatedNum,
    ConstraintSystem,
};
use crate::field::FieldElement;
use vstd::prelude::*;

verus! {

/// A number for each of the given values, in their order.
pub fn alloc_nums(cs: &mut ConstraintSystem, array: &Vec<Option<FieldElement>>) -> (nums: Vec<
    AllocatedNum,
>)
    ensures
        final(cs).adds(old(cs), true),
        final(cs)@.len() == old(cs)@.len() + array@.len(),
        nums@.len() == array@.len(),
        forall|i: int|
            0 <= i < array@.len() ==> #[trigger] nums@[i] == (AllocatedNum {
                source: (old(cs)@.len() + i) as usize,
                slot: 0,
                value: array@[i],
            }) && nums@[i].source == old(cs)@.len() + i,
        final(cs).owns_all(nums@),
        final(cs).lays(old(cs), allocs(array@.len())),
        wires(nums@) == wires_from(old(cs)@.len(), array@.len()),
{
    let mut allocated_array: Vec<AllocatedNum> = Vec::new();
    let mut i: usize = 0;
    reveal(ConstraintSystem::lays);
    assert(shapes(cs@) =~= shapes(old(cs)@) + allocs(0));
    while i < array.len()
        invariant
            i <= array@.len(),
            cs.adds(old(cs), true),
            cs@.len() == old(cs)@.len() + i,
            allocated_array@.len() == i,
            cs.owns_all(allocated_array@),
            cs.lays(old(cs), allocs(i as nat)),
            forall|j: int|
                0 <= j < i ==> #[trigger] allocated_array@[j] == (AllocatedNum {
                    source: (old(cs)@.len() + j) as usize,
                    slot: 0,
                    value: array@[j],
                }) && allocated_array@[j].source == old(cs)@.len() + j,
        decreases array@.len() - i,
    {
        let value = cs.alloc_num(array[i]);
        allocated_array.push(value);
        i += 1;
        reveal(ConstraintSystem::lays);
        assert(shapes(cs@) =~= shapes(old(cs)@) + allocs(i as nat));
    }
    assert(wires(allocated_array@) =~= wires_from(old(cs)@.len(), array@.len()));
    allocated_array
}

/// A bit for each of the given values, in their order.
pub fn alloc_bits(cs: &mut ConstraintSystem, array: &Vec<Option<bool>>) -> (bits: Vec<AllocatedBit>)
    ensures
        final(cs).adds(old(cs), true),
        final(cs)@.len() == old(cs)@.len() + array@.len(),
        bits@.len() == array@.len(),
        forall|i: int|
            0 <= i < array@.len() ==> #[trigger] bits@[i] == (AllocatedBit {
                source: (old(cs)@.len() + i) as usize,
                slot: 0,
                value: array@[i],
            }) && bits@[i].source == old(cs)@.len() + i,
        final(cs).owns_bits(bits@),
        final(cs).lays(old(cs), bit_allocs(array@.len())),
        bit_wires(bits@) == wires_from(old(cs)@.len(), array@.len()),
{
    let mut allocated_array: Vec<AllocatedBit> = Vec::new();
    let mut i: usize = 0;
    reveal(ConstraintSystem::lays);
    assert(shapes(cs@) =~= shapes(old(cs)@) + bit_allocs(0));
    while i < array.len()
        invariant
            i <= array@.len(),
            cs.adds(old(cs), true),
            cs@.len() == old(cs)@.len() + i,
            allocated_array@.len() == i,
            cs.owns_bits(allocated_array@),
            cs.lays(old(cs), bit_allocs(i as nat)),
            forall|j: int|
                0 <= j < i ==> #[trigger] allocated_array@[j] == (AllocatedBit {
                    source: (old(cs)@.len() + j) as usize,
                    slot: 0,
                    value: array@[j],
                }) && allocated_array@[j].source == old(cs)@.len() + j,
        decreases array@.len() - i,
    {
        let value = cs.alloc_bit(array[i]);
        allocated_array.push(value);
        i += 1;
        reveal(ConstraintSystem::lays);
        assert(shapes(cs@) =~= shapes(old(cs)@) + bit_allocs(i as nat));
    }
    assert(bit_wires(allocated_array@) =~= wires_from(old(cs)@.len(), array@.len()));
    allocated_array
}

} // verus!
