//! The elements of the proof system's scalar field and of the embedded
//! curve's scalar field, as numbers in four limbs.

use crate::tree::merkle_tree::{
    lemma_two_pow_grows, lemma_two_pow_positive, lemma_two_pow_sum, two_pow,
};
use ff_ce::{Field, PrimeField};
use pairing_ce::bn256::{Fr, FrRepr};
use vstd::arithmetic::div_mod::{
    lemma_div_denominator, lemma_div_multiples_vanish_fancy, lemma_hoist_over_denominator,
    lemma_mod_multiples_vanish,
};
use vstd::prelude::*;

verus! {

/// The value of four little-endian 64-bit limbs.
pub open spec fn limbs_value(l: Seq<u64>) -> nat {
    (l[0] as nat) + (l[1] as nat) * 0x1_0000_0000_0000_0000nat + (l[2] as nat)
        * 0x1_0000_0000_0000_0000_0000_0000_0000_0000nat + (l[3] as nat)
        * 0x1_0000_0000_0000_0000_0000_0000_0000_0000_0000_0000_0000_0000nat
}

/// The number of elements of the proof system's scalar field.
pub open spec fn fr_modulus() -> nat {
    0x30644e72e131a029b85045b68181585d2833e84879b9709143e1f593f0000001nat
}

/// The number of elements of the embedded curve's scalar field.
pub open spec fn fs_modulus() -> nat {
    0x060c89ce5c263405370a08b6d0302b0bab3eedb83920ee0a677297dc392126f1nat
}

/// 256 to the power `k`.
pub open spec fn pow256(k: nat) -> nat
    decreases k,
{
    if k == 0 {
        1
    } else {
        256 * pow256((k - 1) as nat)
    }
}

/// Byte `k` of the little-endian encoding of `v`.
pub open spec fn le_byte(v: nat, k: nat) -> nat {
    (v / pow256(k)) % 256
}

/// The power of a sum is the product of the powers.
pub proof fn lemma_pow256_sum(a: nat, b: nat)
    ensures
        pow256(a + b) == pow256(a) * pow256(b),
    decreases b,
{
    if b == 0 {
        assert(pow256(a) * 1 == pow256(a)) by (nonlinear_arith);
    } else {
        lemma_pow256_sum(a, (b - 1) as nat);
        assert(pow256(a + b) == 256 * pow256((a + b - 1) as nat));
        assert(256 * (pow256(a) * pow256((b - 1) as nat)) == pow256(a) * (256 * pow256(
            (b - 1) as nat,
        ))) by (nonlinear_arith);
    }
}

/// The powers of 256 within a limb.
pub proof fn lemma_pow256_small()
    ensures
        pow256(0) == 1,
        pow256(1) == 0x100,
        pow256(2) == 0x1_0000,
        pow256(3) == 0x100_0000,
        pow256(4) == 0x1_0000_0000,
        pow256(5) == 0x100_0000_0000,
        pow256(6) == 0x1_0000_0000_0000,
        pow256(7) == 0x100_0000_0000_0000,
        pow256(8) == 0x1_0000_0000_0000_0000,
{
    reveal_with_fuel(pow256, 10);
}

/// The powers of 256 at the limbs' places.
proof fn lemma_pow256_limbs()
    ensures
        pow256(16) == 0x1_0000_0000_0000_0000_0000_0000_0000_0000nat,
        pow256(24) == 0x1_0000_0000_0000_0000_0000_0000_0000_0000_0000_0000_0000_0000nat,
{
    lemma_pow256_small();
    lemma_pow256_sum(8, 8);
    lemma_pow256_sum(16, 8);
}

/// Inside a number laid out as `low + b * (x + 2^64 * high)`, the digits of
/// the limb `x` to a base `q` that divides `2^64` are the number's own digits
/// at the limb's place.
proof fn lemma_digit_of_limb(low: nat, x: nat, high: nat, b: nat, p: nat, q: nat, m: nat)
    requires
        low < b,
        p > 0,
        q > 0,
        p * q * m == 0x1_0000_0000_0000_0000nat,
    ensures
        ((low + b * (x + 0x1_0000_0000_0000_0000nat * high)) / (b * p)) % q == (x / p) % q,
{
    let y = x + 0x1_0000_0000_0000_0000nat * high;
    let v = low + b * y;
    lemma_div_multiples_vanish_fancy(y as int, low as int, b as int);
    assert(v / b == y);
    lemma_div_denominator(v as int, b as int, p as int);
    let t = q * (m * high);
    assert(y == x + t * p) by (nonlinear_arith)
        requires
            y == x + 0x1_0000_0000_0000_0000nat * high,
            p * q * m == 0x1_0000_0000_0000_0000nat,
            t == q * (m * high),
    ;
    lemma_hoist_over_denominator(x as int, t as int, p);
    lemma_mod_multiples_vanish((m * high) as int, (x / p) as int, q as int);
}

/// A machine word is below two to the power of its number of bits.
pub proof fn lemma_word_fits()
    ensures
        usize::MAX < two_pow(usize::BITS as nat),
{
    lemma_two_pow_limbs();
}

/// Every machine word is less than the modulus.
pub proof fn lemma_word_in_field()
    ensures
        usize::MAX < fr_modulus(),
{
}

/// The powers of two at the limbs' places.
pub proof fn lemma_two_pow_limbs()
    ensures
        two_pow(32) == 0x1_0000_0000nat,
        two_pow(64) == 0x1_0000_0000_0000_0000nat,
        two_pow(128) == 0x1_0000_0000_0000_0000_0000_0000_0000_0000nat,
        two_pow(192) == 0x1_0000_0000_0000_0000_0000_0000_0000_0000_0000_0000_0000_0000nat,
{
    assert(two_pow(8) == 256) by {
        reveal_with_fuel(two_pow, 9);
    }
    lemma_two_pow_sum(8, 8);
    assert(two_pow(16) == 0x1_0000) by (nonlinear_arith)
        requires
            two_pow(16) == two_pow(8) * two_pow(8),
            two_pow(8) == 256,
    ;
    lemma_two_pow_sum(16, 16);
    assert(two_pow(32) == 0x1_0000_0000) by (nonlinear_arith)
        requires
            two_pow(32) == two_pow(16) * two_pow(16),
            two_pow(16) == 0x1_0000,
    ;
    lemma_two_pow_sum(32, 32);
    assert(two_pow(64) == 0x1_0000_0000_0000_0000) by (nonlinear_arith)
        requires
            two_pow(64) == two_pow(32) * two_pow(32),
            two_pow(32) == 0x1_0000_0000,
    ;
    lemma_two_pow_sum(64, 64);
    assert(two_pow(128) == 0x1_0000_0000_0000_0000_0000_0000_0000_0000nat) by (nonlinear_arith)
        requires
            two_pow(128) == two_pow(64) * two_pow(64),
            two_pow(64) == 0x1_0000_0000_0000_0000,
    ;
    lemma_two_pow_sum(128, 64);
    assert(two_pow(192) == 0x1_0000_0000_0000_0000_0000_0000_0000_0000_0000_0000_0000_0000nat)
        by (nonlinear_arith)
        requires
            two_pow(192) == two_pow(128) * two_pow(64),
            two_pow(128) == 0x1_0000_0000_0000_0000_0000_0000_0000_0000nat,
            two_pow(64) == 0x1_0000_0000_0000_0000,
    ;
}

/// Compares two four-limb numbers by value.
pub fn limbs_less(a: &[u64; 4], b: &[u64; 4]) -> (r: bool)
    ensures
        r == (limbs_value(a@) < limbs_value(b@)),
{
    if a[3] != b[3] {
        a[3] < b[3]
    } else if a[2] != b[2] {
        a[2] < b[2]
    } else if a[1] != b[1] {
        a[1] < b[1]
    } else {
        a[0] < b[0]
    }
}

/// The limbs of the scalar field's modulus.
fn fr_modulus_limbs() -> (m: [u64; 4])
    ensures
        limbs_value(m@) == fr_modulus(),
{
    [0x43e1f593f0000001, 0x2833e84879b97091, 0xb85045b68181585d, 0x30644e72e131a029]
}

/// The limbs of the modulus of the embedded curve's scalar field.
fn fs_modulus_limbs() -> (m: [u64; 4])
    ensures
        limbs_value(m@) == fs_modulus(),
{
    [0x677297dc392126f1, 0xab3eedb83920ee0a, 0x370a08b6d0302b0b, 0x060c89ce5c263405]
}

/// An element of the proof system's scalar field, held as the four
/// little-endian limbs of its least non-negative representative.
#[derive(Clone, Copy, Debug, PartialEq, Eq)]
pub struct FieldElement {
    pub(crate) limbs: [u64; 4],
}

impl View for FieldElement {
    type V = nat;

    closed spec fn view(&self) -> nat {
        limbs_value(self.limbs@)
    }
}

impl FieldElement {
    /// Every element is below the modulus.
    #[verifier::type_invariant]
    pub open spec fn in_field(self) -> bool {
        self@ < fr_modulus()
    }

    /// The limbs that this element is held as.
    pub closed spec fn spec_limbs(self) -> Seq<u64> {
        self.limbs@
    }

    /// The element zero.
    pub fn zero() -> (r: Self)
        ensures
            r@ == 0,
    {
        FieldElement { limbs: [0, 0, 0, 0] }
    }

    /// The element one.
    pub fn one() -> (r: Self)
        ensures
            r@ == 1,
    {
        FieldElement { limbs: [1, 0, 0, 0] }
    }

    /// The element that stands for a 64-bit number.
    pub fn from_u64(a: u64) -> (r: Self)
        ensures
            r@ == a,
    {
        FieldElement { limbs: [a, 0, 0, 0] }
    }

    /// The element with the given limbs, where they stand for a number below
    /// the modulus.
    pub fn from_limbs(limbs: [u64; 4]) -> (r: Option<Self>)
        ensures
            r.is_some() <==> limbs_value(limbs@) < fr_modulus(),
            r matches Some(e) ==> e@ == limbs_value(limbs@) && e.spec_limbs() == limbs@,
    {
        let m = fr_modulus_limbs();
        if limbs_less(&limbs, &m) {
            Some(FieldElement { limbs })
        } else {
            None
        }
    }

    /// The limbs of the element; they stand for a number below the modulus.
    pub fn to_limbs(&self) -> (r: [u64; 4])
        ensures
            r@ == self.spec_limbs(),
            limbs_value(r@) == self@,
            self@ < fr_modulus(),
    {
        proof {
            use_type_invariant(self);
        }
        self.limbs
    }

    /// The element as a 64-bit number, where it is one.
    pub fn to_u64(&self) -> (r: Option<u64>)
        ensures
            r.is_some() <==> self@ <= u64::MAX,
            r matches Some(a) ==> a == self@,
    {
        if self.limbs[1] == 0 && self.limbs[2] == 0 && self.limbs[3] == 0 {
            Some(self.limbs[0])
        } else {
            None
        }
    }

    /// The element as a 64-bit number: its lowest limb, which is the whole
    /// element where it is that small.
    pub fn low_u64(&self) -> (r: u64)
        ensures
            self@ <= u64::MAX ==> r == self@,
    {
        self.limbs[0]
    }

    /// Bit `k` of the element.
    pub fn bit(&self, k: usize) -> (b: bool)
        requires
            k < 256,
        ensures
            b == ((self@ / two_pow(k as nat)) % 2 == 1),
    {
        let i = k / 64;
        let j = k % 64;
        let limb = self.limbs[i];
        let mut p: u64 = 1;
        let mut t: usize = 0;
        while t < j
            invariant
                t <= j < 64,
                p == two_pow(t as nat),
            decreases j - t,
        {
            proof {
                lemma_two_pow_grows((t + 1) as nat, 63);
                lemma_two_pow_limbs();
                assert(two_pow(64) == 2 * two_pow(63));
            }
            p = p * 2;
            t += 1;
        }
        proof {
            lemma_two_pow_limbs();
            lemma_two_pow_positive(j as nat);
            lemma_two_pow_sum(j as nat, (63 - j) as nat);
            assert(two_pow(64) == 2 * two_pow(63));
            lemma_two_pow_sum((64 * i) as nat, j as nat);
            assert(two_pow(0) == 1);
            let l = self.limbs@;
            let m: nat = two_pow((63 - j) as nat);
            let w: nat = 0x1_0000_0000_0000_0000;
            let (l0, l1, l2, l3) = (l[0] as nat, l[1] as nat, l[2] as nat, l[3] as nat);
            assert((p as nat) * 2 * m == w) by (nonlinear_arith)
                requires
                    (p as nat) * m == two_pow(63),
                    w == 2 * two_pow(63),
            ;
            let w2: nat = 0x1_0000_0000_0000_0000_0000_0000_0000_0000nat;
            let w3: nat = 0x1_0000_0000_0000_0000_0000_0000_0000_0000_0000_0000_0000_0000nat;
            let pn = p as nat;
            assert(k == 64 * i + j);
            if i == 0 {
                lemma_digit_of_limb(0, l0, l1 + w * l2 + w2 * l3, 1, pn, 2, m);
                assert(two_pow(k as nat) == 1 * pn);
                assert(self@ == 0 + 1 * (l0 + w * (l1 + w * l2 + w2 * l3)));
            } else if i == 1 {
                lemma_digit_of_limb(l0, l1, l2 + w * l3, w, pn, 2, m);
                assert(two_pow(k as nat) == w * pn);
                assert(self@ == l0 + w * (l1 + w * (l2 + w * l3)));
            } else if i == 2 {
                lemma_digit_of_limb(l0 + w * l1, l2, l3, w2, pn, 2, m);
                assert(two_pow(k as nat) == w2 * pn);
                assert(self@ == (l0 + w * l1) + w2 * (l2 + w * l3));
            } else {
                assert(i == 3);
                lemma_digit_of_limb(l0 + w * l1 + w2 * l2, l3, 0, w3, pn, 2, m);
                assert(two_pow(k as nat) == w3 * pn);
                assert(self@ == (l0 + w * l1 + w2 * l2) + w3 * (l3 + w * 0));
            }
        }
        (limb / p) % 2 == 1
    }

    /// Byte `k` of the element's little-endian encoding.
    pub fn byte(&self, k: usize) -> (b: u8)
        requires
            k < 32,
        ensures
            b == le_byte(self@, k as nat),
    {
        let i = k / 8;
        let j = k % 8;
        let limb = self.limbs[i];
        let p: u64 = if j == 0 {
            1
        } else if j == 1 {
            0x100
        } else if j == 2 {
            0x1_0000
        } else if j == 3 {
            0x100_0000
        } else if j == 4 {
            0x1_0000_0000
        } else if j == 5 {
            0x100_0000_0000
        } else if j == 6 {
            0x1_0000_0000_0000
        } else {
            0x100_0000_0000_0000
        };
        proof {
            lemma_pow256_small();
            lemma_pow256_limbs();
            lemma_pow256_sum((8 * i) as nat, j as nat);
            let l = self.limbs@;
            let m: nat = if j == 0 {
                0x100_0000_0000_0000
            } else if j == 1 {
                0x1_0000_0000_0000
            } else if j == 2 {
                0x100_0000_0000
            } else if j == 3 {
                0x1_0000_0000
            } else if j == 4 {
                0x100_0000
            } else if j == 5 {
                0x1_0000
            } else if j == 6 {
                0x100
            } else {
                1
            };
            let w: nat = 0x1_0000_0000_0000_0000;
            let (l0, l1, l2, l3) = (l[0] as nat, l[1] as nat, l[2] as nat, l[3] as nat);
            let w2: nat = 0x1_0000_0000_0000_0000_0000_0000_0000_0000nat;
            let w3: nat = 0x1_0000_0000_0000_0000_0000_0000_0000_0000_0000_0000_0000_0000nat;
            let pn = p as nat;
            assert(k == 8 * i + j);
            assert(pow256(j as nat) == pn);
            if i == 0 {
                lemma_digit_of_limb(0, l0, l1 + w * l2 + w2 * l3, 1, pn, 256, m);
                assert(pow256(k as nat) == 1 * pn);
                assert(self@ == 0 + 1 * (l0 + w * (l1 + w * l2 + w2 * l3)));
            } else if i == 1 {
                lemma_digit_of_limb(l0, l1, l2 + w * l3, w, pn, 256, m);
                assert(pow256(k as nat) == w * pn);
                assert(self@ == l0 + w * (l1 + w * (l2 + w * l3)));
            } else if i == 2 {
                lemma_digit_of_limb(l0 + w * l1, l2, l3, w2, pn, 256, m);
                assert(pow256(k as nat) == w2 * pn);
                assert(self@ == (l0 + w * l1) + w2 * (l2 + w * l3));
            } else {
                assert(i == 3);
                lemma_digit_of_limb(l0 + w * l1 + w2 * l2, l3, 0, w3, pn, 256, m);
                assert(pow256(k as nat) == w3 * pn);
                assert(self@ == (l0 + w * l1 + w2 * l2) + w3 * (l3 + w * 0));
            }
        }
        ((limb / p) % 256) as u8
    }
}

/// An element of the embedded curve's scalar field, held as the four
/// little-endian limbs of its least non-negative representative.
#[derive(Clone, Copy, Debug, PartialEq, Eq)]
pub struct Scalar {
    pub(crate) limbs: [u64; 4],
}

impl View for Scalar {
    type V = nat;

    closed spec fn view(&self) -> nat {
        limbs_value(self.limbs@)
    }
}

impl Scalar {
    /// Every element is below the modulus.
    #[verifier::type_invariant]
    pub open spec fn in_field(self) -> bool {
        self@ < fs_modulus()
    }

    /// The limbs that this element is held as.
    pub closed spec fn spec_limbs(self) -> Seq<u64> {
        self.limbs@
    }

    /// The element with the given limbs, where they stand for a number below
    /// the modulus.
    pub fn from_limbs(limbs: [u64; 4]) -> (r: Option<Self>)
        ensures
            r.is_some() <==> limbs_value(limbs@) < fs_modulus(),
            r matches Some(e) ==> e@ == limbs_value(limbs@) && e.spec_limbs() == limbs@,
    {
        let m = fs_modulus_limbs();
        if limbs_less(&limbs, &m) {
            Some(Scalar { limbs })
        } else {
            None
        }
    }

    /// The limbs of the element; they stand for a number below the modulus.
    pub fn to_limbs(&self) -> (r: [u64; 4])
        ensures
            r@ == self.spec_limbs(),
            limbs_value(r@) == self@,
            self@ < fs_modulus(),
    {
        proof {
            use_type_invariant(self);
        }
        self.limbs
    }
}

/// `Field::add_assign` on the scalar field: the sum of two elements.
#[verifier::external_body]
fn fr_add(a: &FieldElement, b: &FieldElement) -> (r: FieldElement)
    ensures
        r@ == (a@ + b@) % fr_modulus(),
{
    let mut sum = Fr::from_repr(FrRepr(a.limbs)).unwrap();
    sum.add_assign(&Fr::from_repr(FrRepr(b.limbs)).unwrap());
    FieldElement { limbs: sum.into_repr().0 }
}

/// `Field::sub_assign` on the scalar field: the difference of two elements.
#[verifier::external_body]
fn fr_sub(a: &FieldElement, b: &FieldElement) -> (r: FieldElement)
    ensures
        r@ == (a@ + fr_modulus() - b@) % (fr_modulus() as int),
{
    let mut difference = Fr::from_repr(FrRepr(a.limbs)).unwrap();
    difference.sub_assign(&Fr::from_repr(FrRepr(b.limbs)).unwrap());
    FieldElement { limbs: difference.into_repr().0 }
}

/// `Field::mul_assign` on the scalar field: the product of two elements.
#[verifier::external_body]
fn fr_mul(a: &FieldElement, b: &FieldElement) -> (r: FieldElement)
    ensures
        r@ == (a@ * b@) % fr_modulus(),
{
    let mut product = Fr::from_repr(FrRepr(a.limbs)).unwrap();
    product.mul_assign(&Fr::from_repr(FrRepr(b.limbs)).unwrap());
    FieldElement { limbs: product.into_repr().0 }
}

/// `Field::inverse` on the scalar field: the element whose product with the
/// given one is one; zero has none.
#[verifier::external_body]
fn fr_inverse(a: &FieldElement) -> (r: Option<FieldElement>)
    ensures
        r is None <==> a@ == 0,
        r matches Some(i) ==> (a@ * i@) % fr_modulus() == 1,
{
    match Fr::from_repr(FrRepr(a.limbs)).unwrap().inverse() {
        Some(inverse) => Some(FieldElement { limbs: inverse.into_repr().0 }),
        None => None,
    }
}

impl FieldElement {
    /// The sum of two elements.
    pub fn plus(&self, other: &FieldElement) -> (r: FieldElement)
        ensures
            r@ == (self@ + other@) % fr_modulus(),
    {
        fr_add(self, other)
    }

    /// The difference of two elements.
    pub fn minus(&self, other: &FieldElement) -> (r: FieldElement)
        ensures
            r@ == (self@ + fr_modulus() - other@) % (fr_modulus() as int),
    {
        fr_sub(self, other)
    }

    /// The product of two elements.
    pub fn times(&self, other: &FieldElement) -> (r: FieldElement)
        ensures
            r@ == (self@ * other@) % fr_modulus(),
    {
        fr_mul(self, other)
    }

    /// The element whose product with this one is one; zero has none.
    pub fn inverse(&self) -> (r: Option<FieldElement>)
        ensures
            r is None <==> self@ == 0,
            r matches Some(i) ==> (self@ * i@) % fr_modulus() == 1,
    {
        fr_inverse(self)
    }

    /// Whether two elements are the same number.
    pub fn equals(&self, other: &FieldElement) -> (r: bool)
        ensures
            r == (self@ == other@),
    {
        !limbs_less(&self.limbs, &other.limbs) && !limbs_less(&other.limbs, &self.limbs)
    }

    /// Whether the element is below two to the power `bits`.
    pub fn fits_bits(&self, bits: usize) -> (r: bool)
        ensures
            r == (self@ < two_pow(bits as nat)),
    {
        proof {
            lemma_two_pow_limbs();
        }
        if bits >= 256 {
            proof {
                lemma_two_pow_grows(256, bits as nat);
                lemma_two_pow_sum(192, 64);
                assert(two_pow(256) == two_pow(192) * two_pow(64));
                assert(two_pow(256)
                    == 0x1_0000_0000_0000_0000_0000_0000_0000_0000_0000_0000_0000_0000_0000_0000_0000_0000nat)
                    by (nonlinear_arith)
                    requires
                        two_pow(256) == two_pow(192) * two_pow(64),
                        two_pow(192)
                            == 0x1_0000_0000_0000_0000_0000_0000_0000_0000_0000_0000_0000_0000nat,
                        two_pow(64) == 0x1_0000_0000_0000_0000nat,
                ;
            }
            return true;
        }
        let q = bits / 64;
        let j = bits % 64;
        let mut p: u64 = 1;
        let mut t: usize = 0;
        while t < j
            invariant
                t <= j < 64,
                p == two_pow(t as nat),
            decreases j - t,
        {
            proof {
                lemma_two_pow_grows((t + 1) as nat, 63);
                lemma_two_pow_limbs();
                assert(two_pow(64) == 2 * two_pow(63));
            }
            p = p * 2;
            t += 1;
        }
        proof {
            lemma_two_pow_sum((64 * q) as nat, j as nat);
            assert(two_pow(0) == 1);
            assert(bits == 64 * q + j);
        }
        let ghost w: nat = 0x1_0000_0000_0000_0000;
        let ghost w2: nat = 0x1_0000_0000_0000_0000_0000_0000_0000_0000nat;
        let ghost w3: nat = 0x1_0000_0000_0000_0000_0000_0000_0000_0000_0000_0000_0000_0000nat;
        let ghost pn = p as nat;
        if q == 0 {
            assert(two_pow(bits as nat) == 1 * pn);
            self.limbs[0] < p && self.limbs[1] == 0 && self.limbs[2] == 0 && self.limbs[3] == 0
        } else if q == 1 {
            assert(two_pow(bits as nat) == w * pn);
            self.limbs[1] < p && self.limbs[2] == 0 && self.limbs[3] == 0
        } else if q == 2 {
            assert(two_pow(bits as nat) == w2 * pn);
            self.limbs[2] < p && self.limbs[3] == 0
        } else {
            assert(two_pow(bits as nat) == w3 * pn);
            self.limbs[3] < p
        }
    }

    /// A scalar of the embedded curve as an element of this field: the same
    /// number, since that field is the smaller.
    pub fn from_scalar(s: Scalar) -> (r: Self)
        ensures
            r@ == s@,
    {
        proof {
            use_type_invariant(&s);
        }
        FieldElement { limbs: s.limbs }
    }
}

} // verus!
