//! Conversions between machine words, booleans, bytes and field elements, and
//! small helpers on vectors.

use crate::field::{le_byte, FieldElement, Scalar};
use vstd::prelude::*;
use vstd::string::StringExecFns;

verus! {

/// The number that a machine word stands for in the field.
pub open spec fn spec_usize_to_fr(a: usize) -> nat {
    a as nat
}

/// The machine word that stands for a number of the field, where one does.
pub open spec fn spec_fr_to_usize(value: nat) -> usize
    recommends
        value <= usize::MAX,
{
    value as usize
}

/// Into the field and back is the machine word that one started from.
pub proof fn lemma_usize_round_trip(v: usize)
    ensures
        spec_usize_to_fr(v) <= usize::MAX,
        spec_fr_to_usize(spec_usize_to_fr(v)) == v,
{
}

/// The number that a field element stands for, where it fits.
pub fn fr_to_usize(fr_a: FieldElement) -> (a: usize)
    requires
        fr_a@ <= usize::MAX,
    ensures
        a == spec_fr_to_usize(fr_a@),
        a == fr_a@,
{
    fr_a.low_u64() as usize
}

/// The field element that stands for a number.
pub fn usize_to_fr(a: usize) -> (fr_a: FieldElement)
    ensures
        fr_a@ == spec_usize_to_fr(a),
{
    FieldElement::from_u64(a as u64)
}

/// One for true, zero for false.
pub fn bool_to_fr(cond: bool) -> (r: FieldElement)
    ensures
        r@ == (if cond {
            1nat
        } else {
            0nat
        }),
{
    if cond {
        FieldElement::one()
    } else {
        FieldElement::zero()
    }
}

/// The first `bytes_len` bytes, at most all 32, of a field element's
/// little-endian encoding.
pub fn fr_to_bytes_le(value: FieldElement, bytes_len: usize) -> (bytes: Vec<u8>)
    requires
        bytes_len >= 1,
    ensures
        bytes.len() == (if bytes_len < 32 {
            bytes_len
        } else {
            32
        }),
        forall|k: int| 0 <= k < bytes.len() ==> bytes[k] == le_byte(value@, k as nat),
{
    let mut bytes: Vec<u8> = Vec::new();
    let mut i: usize = 0;
    while i < 32 && i < bytes_len
        invariant
            i <= 32,
            i <= bytes_len,
            bytes.len() == i,
            forall|k: int| 0 <= k < i ==> bytes[k] == le_byte(value@, k as nat),
        decreases 32 - i,
    {
        bytes.push(value.byte(i));
        i += 1;
    }
    bytes
}

/// A scalar of the embedded curve as an element of the proof system's
/// field: the same number.
pub fn fs_to_fr(num: Scalar) -> (r: FieldElement)
    ensures
        r@ == num@,
{
    FieldElement::from_scalar(num)
}

/// Each item as a known value.
pub fn optionalize<T>(array: Vec<T>) -> (r: Vec<Option<T>>)
    ensures
        r.len() == array.len(),
        forall|k: int| 0 <= k < r.len() ==> r[k] == Some(array[k]),
{
    let mut array = array;
    let ghost items = array@;
    let mut reversed: Vec<Option<T>> = Vec::new();
    while array.len() > 0
        invariant
            array.len() + reversed.len() == items.len(),
            array@ == items.take(array.len() as int),
            forall|k: int|
                0 <= k < reversed.len() ==> reversed[k] == Some(items[items.len() - 1 - k]),
        decreases array.len(),
    {
        let item = array.pop();
        reversed.push(item);
    }
    let mut r: Vec<Option<T>> = Vec::new();
    while reversed.len() > 0
        invariant
            reversed.len() + r.len() == items.len(),
            forall|k: int|
                0 <= k < reversed.len() ==> reversed[k] == Some(items[items.len() - 1 - k]),
            forall|k: int| 0 <= k < r.len() ==> r[k] == Some(items[k]),
        decreases reversed.len(),
    {
        let item = reversed.pop();
        if let Some(item) = item {
            r.push(item);
        }
    }
    r
}

/// The lines of the given elements, each indented twice and closed by a
/// comma.
pub open spec fn spec_formatted_elements(elements: Seq<String>) -> Seq<char>
    decreases elements.len(),
{
    if elements.len() == 0 {
        Seq::empty()
    } else {
        spec_formatted_elements(elements.drop_last()) + "        "@ + elements.last()@ + ",\n"@
    }
}

/// The lines of the given rows, each between an opening and a closing
/// bracket that are indented once.
pub open spec fn spec_formatted_rows(rows: Seq<Vec<String>>) -> Seq<char>
    decreases rows.len(),
{
    if rows.len() == 0 {
        Seq::empty()
    } else {
        spec_formatted_rows(rows.drop_last()) + "    [\n"@ + spec_formatted_elements(rows.last()@)
            + "    ],\n"@
    }
}

/// A vector of vectors of rendered elements as lines: the annotation and an
/// opening bracket, the rows, and a closing bracket.
pub fn write_formatted_vector(output: &Vec<Vec<String>>, annotation: &str) -> (text: String)
    ensures
        text@ == annotation@ + ": [\n"@ + spec_formatted_rows(output@) + "]\n"@,
{
    let mut text = String::from_str(annotation);
    text.append(": [\n");
    let mut i: usize = 0;
    assert(output@.take(0) =~= Seq::<Vec<String>>::empty());
    assert(text@ =~= annotation@ + ": [\n"@ + spec_formatted_rows(output@.take(0)));
    while i < output.len()
        invariant
            i <= output@.len(),
            text@ == annotation@ + ": [\n"@ + spec_formatted_rows(output@.take(i as int)),
        decreases output@.len() - i,
    {
        let ghost head = text@;
        let subvector = &output[i];
        text.append("    [\n");
        let mut j: usize = 0;
        assert(subvector@.take(0) =~= Seq::<String>::empty());
        assert(text@ =~= head + "    [\n"@ + spec_formatted_elements(subvector@.take(0)));
        while j < subvector.len()
            invariant
                j <= subvector@.len(),
                text@ == head + "    [\n"@ + spec_formatted_elements(subvector@.take(j as int)),
            decreases subvector@.len() - j,
        {
            let ghost before = text@;
            text.append("        ");
            text.append(subvector[j].as_str());
            text.append(",\n");
            proof {
                assert(subvector@.take(j + 1).drop_last() =~= subvector@.take(j as int));
                assert(subvector@.take(j + 1).last() == subvector@[j as int]);
                assert(text@ =~= head + "    [\n"@ + spec_formatted_elements(
                    subvector@.take(j + 1),
                ));
            }
            j += 1;
        }
        text.append("    ],\n");
        proof {
            assert(subvector@.take(j as int) =~= subvector@);
            assert(output@.take(i + 1).drop_last() =~= output@.take(i as int));
            assert(output@.take(i + 1).last() == output@[i as int]);
            assert(text@ =~= annotation@ + ": [\n"@ + spec_formatted_rows(output@.take(i + 1)));
        }
        i += 1;
    }
    assert(output@.take(i as int) =~= output@);
    text.append("]\n");
    text
}

/// A copy of a vector of plain values.
pub fn copy_vec<T: Copy>(v: &Vec<T>) -> (r: Vec<T>)
    ensures
        r@ == v@,
{
    let mut r: Vec<T> = Vec::new();
    let mut i: usize = 0;
    while i < v.len()
        invariant
            i <= v@.len(),
            r@ == v@.take(i as int),
        decreases v@.len() - i,
    {
        r.push(v[i]);
        assert(r@ =~= v@.take(i + 1));
        i += 1;
    }
    assert(v@.take(i as int) =~= v@);
    r
}

} // verus!
