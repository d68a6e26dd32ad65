use ff_ce::{Field, PrimeField};
use openplasma_circuits::data_structs::order::Order;
use openplasma_circuits::data_structs::sign::{order_hash, sign_order, verify_order_signature};
use openplasma_circuits::eddsa::{PrivateKey, PublicKey, SignParams};
use openplasma_circuits::field::{limbs_less, FieldElement, Scalar};
use openplasma_circuits::hash::HashParams;
use openplasma_circuits::operator::OperatorError;
use openplasma_circuits::utils::utils::{
    bool_to_fr, copy_vec, fr_to_bytes_le, fr_to_usize, fs_to_fr, optionalize, usize_to_fr,
    write_formatted_vector,
};
use pairing_ce::bn256::{Bn256, Fr, FrRepr};
use rand::{thread_rng, Rng};
use sapling_crypto_ce::alt_babyjubjub::fs::{Fs, FsRepr};
use sapling_crypto_ce::alt_babyjubjub::AltJubjubBn256;
use sapling_crypto_ce::group_hash::BlakeHasher;
use sapling_crypto_ce::jubjub::edwards::Point;
use sapling_crypto_ce::jubjub::{FixedGenerators, Unknown};
use sapling_crypto_ce::poseidon::bn256::Bn256PoseidonParams;
use sapling_crypto_ce::poseidon::poseidon_hash;

const FR_MODULUS: [u64; 4] =
    [0x43e1f593f0000001, 0x2833e84879b97091, 0xb85045b68181585d, 0x30644e72e131a029];
const FS_MODULUS: [u64; 4] =
    [0x677297dc392126f1, 0xab3eedb83920ee0a, 0x370a08b6d0302b0b, 0x060c89ce5c263405];

fn to_fr(value: &FieldElement) -> Fr {
    Fr::from_repr(FrRepr(value.to_limbs())).unwrap()
}

fn from_fr(value: Fr) -> FieldElement {
    FieldElement::from_limbs(value.into_repr().0).unwrap()
}

fn element(limbs: [u64; 4]) -> FieldElement {
    FieldElement::from_limbs(limbs).unwrap()
}

#[test]
fn machine_words_go_into_the_field_and_back() {
    for v in [0usize, 1, 2, 100, 0xffff_ffff, usize::MAX - 1, usize::MAX] {
        assert_eq!(fr_to_usize(usize_to_fr(v)), v);
    }
}

#[test]
fn machine_words_are_the_backend_s_numbers() {
    for v in [0usize, 1, 255, 256, 123456789, usize::MAX] {
        assert_eq!(to_fr(&usize_to_fr(v)), Fr::from_str(&v.to_string()).unwrap());
        assert_eq!(usize_to_fr(v).to_limbs(), [v as u64, 0, 0, 0]);
    }
}

#[test]
fn booleans_are_zero_and_one() {
    assert_eq!(bool_to_fr(true), FieldElement::one());
    assert_eq!(bool_to_fr(false), FieldElement::zero());
    assert_eq!(to_fr(&bool_to_fr(true)), Fr::one());
    assert_eq!(to_fr(&bool_to_fr(false)), Fr::zero());
}

#[test]
fn limbs_below_the_modulus_are_elements() {
    assert!(FieldElement::from_limbs(FR_MODULUS).is_none());
    assert!(FieldElement::from_limbs([u64::MAX; 4]).is_none());
    let mut largest = FR_MODULUS;
    largest[0] -= 1;
    assert_eq!(FieldElement::from_limbs(largest).unwrap().to_limbs(), largest);
    assert_eq!(FieldElement::from_limbs([0; 4]).unwrap(), FieldElement::zero());

    assert!(Scalar::from_limbs(FS_MODULUS).is_none());
    let mut largest = FS_MODULUS;
    largest[0] -= 1;
    assert_eq!(Scalar::from_limbs(largest).unwrap().to_limbs(), largest);
}

#[test]
fn limbs_are_compared_by_value() {
    assert!(limbs_less(&[5, 0, 0, 0], &[6, 0, 0, 0]));
    assert!(!limbs_less(&[6, 0, 0, 0], &[6, 0, 0, 0]));
    assert!(limbs_less(&[u64::MAX, 0, 0, 0], &[0, 1, 0, 0]));
    assert!(limbs_less(&[u64::MAX, u64::MAX, u64::MAX, 0], &[0, 0, 0, 1]));
    assert!(!limbs_less(&[0, 0, 0, 1], &[u64::MAX, u64::MAX, u64::MAX, 0]));
}

#[test]
fn small_elements_are_machine_numbers() {
    assert_eq!(usize_to_fr(77).to_u64(), Some(77));
    assert_eq!(element([u64::MAX, 0, 0, 0]).to_u64(), Some(u64::MAX));
    assert_eq!(element([0, 1, 0, 0]).to_u64(), None);
    assert_eq!(element([3, 0, 0, 1]).to_u64(), None);
    assert_eq!(element([3, 0, 0, 1]).low_u64(), 3);
}

#[test]
fn bytes_are_little_endian() {
    assert_eq!(fr_to_bytes_le(usize_to_fr(0x0102), 3), vec![0x02, 0x01, 0x00]);
    assert_eq!(fr_to_bytes_le(usize_to_fr(0x0102), 1), vec![0x02]);
    let value = element([0x0807060504030201, 0x100f0e0d0c0b0a09, 0x1817161514131211, 0x201f1e1d1c1b1a19]);
    let all: Vec<u8> = (1..=32).collect();
    assert_eq!(fr_to_bytes_le(value, 32), all);
    assert_eq!(fr_to_bytes_le(value, 31), all[..31].to_vec());
    assert_eq!(fr_to_bytes_le(value, 9), all[..9].to_vec());
    assert_eq!(fr_to_bytes_le(value, 33), all);
    assert_eq!(fr_to_bytes_le(value, 1000), all);
    for k in 0..32 {
        assert_eq!(value.byte(k), (k + 1) as u8);
    }
}

#[test]
fn bits_are_little_endian() {
    let five = usize_to_fr(5);
    assert!(five.bit(0));
    assert!(!five.bit(1));
    assert!(five.bit(2));
    assert!(!five.bit(3));
    assert!(!five.bit(255));
    let value = element([0, 1 << 63, 1, 1 << 60]);
    for k in 0..256 {
        assert_eq!(value.bit(k), k == 127 || k == 128 || k == 252);
    }
}

#[test]
fn elements_fit_the_bits_of_their_size() {
    assert!(usize_to_fr(255).fits_bits(8));
    assert!(!usize_to_fr(256).fits_bits(8));
    assert!(usize_to_fr(0).fits_bits(0));
    assert!(!usize_to_fr(1).fits_bits(0));
    assert!(usize_to_fr(usize::MAX).fits_bits(64));
    assert!(!element([0, 1, 0, 0]).fits_bits(64));
    assert!(element([0, 1, 0, 0]).fits_bits(65));
    assert!(!element([0, 0, 1, 0]).fits_bits(128));
    assert!(element([0, 0, 1, 0]).fits_bits(129));
    assert!(!element([0, 0, 0, 1]).fits_bits(192));
    assert!(element([0, 0, 0, 1]).fits_bits(193));
    assert!(element([7, 7, 7, 7]).fits_bits(254));
    assert!(element([7, 7, 7, 7]).fits_bits(256));
    assert!(element([7, 7, 7, 7]).fits_bits(100000));
}

#[test]
fn scalars_are_the_same_number_in_the_field() {
    let scalar = Scalar::from_limbs([9, 8, 7, 6]).unwrap();
    assert_eq!(fs_to_fr(scalar).to_limbs(), [9, 8, 7, 6]);
    let mut largest = FS_MODULUS;
    largest[0] -= 1;
    assert_eq!(fs_to_fr(Scalar::from_limbs(largest).unwrap()).to_limbs(), largest);
}

#[test]
fn field_sums_wrap_at_the_modulus() {
    let mut largest = FR_MODULUS;
    largest[0] -= 1;
    let largest = element(largest);
    let one = FieldElement::one();
    let two = usize_to_fr(2);
    assert_eq!(largest.plus(&one), FieldElement::zero());
    assert_eq!(largest.plus(&two), one);
    assert_eq!(usize_to_fr(3).plus(&usize_to_fr(4)), usize_to_fr(7));
    assert_eq!(FieldElement::zero().minus(&one), largest);
    assert_eq!(usize_to_fr(9).minus(&usize_to_fr(4)), usize_to_fr(5));
    assert_eq!(usize_to_fr(6).times(&usize_to_fr(7)), usize_to_fr(42));
    assert_eq!(largest.times(&largest), one);
    assert!(FieldElement::zero().inverse().is_none());
    let seven = usize_to_fr(7);
    assert_eq!(seven.inverse().unwrap().times(&seven), one);
    assert_eq!(one.inverse().unwrap(), one);
}

#[test]
fn field_arithmetic_is_the_backend_s() {
    let mut rng = thread_rng();
    for _ in 0..20 {
        let (a, b): (Fr, Fr) = (rng.gen(), rng.gen());
        let (x, y) = (from_fr(a), from_fr(b));
        let mut sum = a;
        sum.add_assign(&b);
        assert_eq!(to_fr(&x.plus(&y)), sum);
        let mut difference = a;
        difference.sub_assign(&b);
        assert_eq!(to_fr(&x.minus(&y)), difference);
        let mut product = a;
        product.mul_assign(&b);
        assert_eq!(to_fr(&x.times(&y)), product);
        assert_eq!(x.inverse().map(|i| to_fr(&i)), a.inverse());
        assert_eq!(x.equals(&y), a == b);
        assert!(x.equals(&x));
    }
}

#[test]
fn every_item_becomes_a_known_value() {
    assert_eq!(optionalize(vec![3, 1, 2]), vec![Some(3), Some(1), Some(2)]);
    assert_eq!(optionalize(Vec::<bool>::new()), Vec::<Option<bool>>::new());
    assert_eq!(optionalize(vec!["a".to_string()]), vec![Some("a".to_string())]);
    assert_eq!(copy_vec(&vec![4, 5, 6]), vec![4, 5, 6]);
}

#[test]
fn vectors_are_written_row_by_row() {
    let rows = vec![vec!["a".to_string(), "b".to_string()], vec![], vec!["c".to_string()]];
    assert_eq!(
        write_formatted_vector(&rows, "rows"),
        "rows: [\n    [\n        a,\n        b,\n    ],\n    [\n    ],\n    [\n        c,\n    ],\n]\n"
    );
    assert_eq!(write_formatted_vector(&Vec::new(), "none"), "none: [\n]\n");
}

#[test]
fn errors_are_described() {
    assert_eq!(OperatorError::Unknown.description(), "Unknown error");
    assert_eq!(OperatorError::NotEnoughObjects.description(), "Not enough objects for batch");
    assert_eq!(OperatorError::InvalidSignature.description(), "Invalid order signature");
    assert_eq!(
        OperatorError::CircuitError(openplasma_circuits::circuit::SynthesisError::DivisionByZero)
            .description(),
        "Encountered a circuit error"
    );
}

#[test]
fn parameters_are_made_for_supported_settings_only() {
    assert!(HashParams::new(1, 6, 52, 126).is_none());
    assert!(HashParams::new(5, 0, 52, 126).is_none());
    assert!(HashParams::new(5, 6, 0, 126).is_none());
    assert!(HashParams::new(0, 0, 0, 0).is_none());
    assert!(HashParams::new(70000, 6, 52, 126).is_none());
    assert!(HashParams::new(5, 6554, 52, 126).is_none());
    assert!(HashParams::new(5, 6, 13108, 126).is_none());
    assert!(HashParams::new(u32::MAX, u32::MAX, u32::MAX, 126).is_none());
    let params = HashParams::new(3, 2, 4, 80).unwrap();
    assert_eq!(
        (params.state_width(), params.full_rounds(), params.partial_rounds(), params.security_level()),
        (3, 2, 4, 80)
    );
}

#[test]
fn hashes_are_the_backend_s() {
    let params = HashParams::new(5, 6, 52, 126).unwrap();
    let backend = Bn256PoseidonParams::new_for_params::<BlakeHasher>(5, 6, 52, 126);
    let mut rng = thread_rng();
    for len in [0usize, 1, 2, 3, 4, 5, 8, 9] {
        let input: Vec<Fr> = (0..len).map(|_| rng.gen()).collect();
        let elements: Vec<FieldElement> = input.iter().map(|v| from_fr(*v)).collect();
        let expected = poseidon_hash::<Bn256>(&backend, &input)[0];
        let hash = params.hash(&elements);
        assert_eq!(to_fr(&hash), expected);
        assert!(elements.iter().all(|e| *e != hash));
    }
    let other = HashParams::new(3, 2, 4, 80).unwrap();
    let input = vec![usize_to_fr(1), usize_to_fr(2)];
    assert_ne!(params.hash(&input), other.hash(&input));
    assert_eq!(params.hash(&input), params.hash(&input));
}

#[test]
fn keys_are_the_backend_s() {
    let sign_params = SignParams::new();
    let backend = AltJubjubBn256::new();

    let unset = PublicKey::unset(&sign_params);
    let (x, y) = Point::<Bn256, Unknown>::get_for_y(Fr::zero(), true, &backend).unwrap().into_xy();
    assert_eq!((to_fr(&unset.x), to_fr(&unset.y)), (x, y));
    assert_eq!(unset.y, FieldElement::zero());
    assert!(unset.x.bit(0));

    let mut rng = thread_rng();
    let scalar: Fs = rng.gen();
    let key = PrivateKey(Scalar::from_limbs(scalar.into_repr().0).unwrap());
    let public = PublicKey::from_private(&key, &sign_params);
    let expected = sapling_crypto_ce::eddsa::PublicKey::<Bn256>::from_private(
        &sapling_crypto_ce::eddsa::PrivateKey::<Bn256>(scalar),
        FixedGenerators::SpendingKeyGenerator,
        &backend,
    );
    let (x, y) = expected.0.into_xy();
    assert_eq!((to_fr(&public.x), to_fr(&public.y)), (x, y));
    assert_eq!(Fs::from_repr(FsRepr(key.0.to_limbs())).unwrap(), scalar);
}

#[test]
fn signatures_verify_under_their_key_only() {
    let sign_params = SignParams::new();
    let mut rng = thread_rng();
    let key = PrivateKey(Scalar::from_limbs(rng.gen::<Fs>().into_repr().0).unwrap());
    let other = PrivateKey(Scalar::from_limbs(rng.gen::<Fs>().into_repr().0).unwrap());
    let public = PublicKey::from_private(&key, &sign_params);
    let other_public = PublicKey::from_private(&other, &sign_params);

    let message: Vec<u8> = (0..31).collect();
    let signature = key.sign(&message, &sign_params);
    assert!(public.verify(&message, &signature, &sign_params));
    assert!(!other_public.verify(&message, &signature, &sign_params));
    let mut changed = message.clone();
    changed[7] ^= 1;
    assert!(!public.verify(&changed, &signature, &sign_params));
    let mut forged = signature;
    forged.r_x = forged.r_x.plus(&FieldElement::one());
    assert!(!public.verify(&message, &forged, &sign_params));
    assert!(!PublicKey::unset(&sign_params).verify(&message, &signature, &sign_params));
    let off_curve = PublicKey { x: usize_to_fr(1), y: usize_to_fr(1) };
    assert!(!off_curve.verify(&message, &signature, &sign_params));

    let short: Vec<u8> = vec![1, 2, 3];
    let signature = key.sign(&short, &sign_params);
    assert!(public.verify(&short, &signature, &sign_params));
    let empty: Vec<u8> = Vec::new();
    let signature = key.sign(&empty, &sign_params);
    assert!(public.verify(&empty, &signature, &sign_params));
}

#[test]
fn orders_are_hashed_signed_and_verified() {
    let hash_params = HashParams::new(5, 6, 52, 126).unwrap();
    let sign_params = SignParams::new();
    let mut rng = thread_rng();
    let key = PrivateKey(Scalar::from_limbs(rng.gen::<Fs>().into_repr().0).unwrap());
    let public = PublicKey::from_private(&key, &sign_params);
    let order = Order {
        order_id: 1,
        account_id: 2,
        token_s: 3,
        token_b: 4,
        amount_s: 5,
        amount_b: 6,
        buy: true,
        asset_b_basic: false,
    };
    let fields = vec![
        usize_to_fr(1),
        usize_to_fr(2),
        usize_to_fr(3),
        usize_to_fr(4),
        usize_to_fr(5),
        usize_to_fr(6),
        usize_to_fr(1),
        usize_to_fr(0),
    ];
    assert_eq!(order_hash(&order, &hash_params), hash_params.hash(&fields));

    let signed = sign_order(order, &key, &hash_params, &sign_params);
    assert!(verify_order_signature(&signed, &public, &hash_params, &sign_params));
    let mut changed = signed;
    changed.order.amount_b = 7;
    assert!(!verify_order_signature(&changed, &public, &hash_params, &sign_params));
}
