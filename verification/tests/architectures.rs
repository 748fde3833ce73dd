use symbolar::architectures::bits::Bits;
use symbolar::architectures::{
    BinarySpatterCode, MultiplyAddPermute, PlusMinusOnes, PrimaryStorage, Storage,
    VectorSymbolicArchitecture,
};
use symbolar::{Dynamic, Fixed, Normalized, Vector};

fn bits(values: &[u8]) -> Bits {
    let signs: Vec<bool> = values.iter().map(|v| *v == 1).collect();
    <Bits as PrimaryStorage>::from_signs(&signs)
}

fn elements<S: Storage>(s: &S) -> Vec<i128> {
    (0..s.len()).map(|i| s.value_at(i)).collect()
}

fn cosine(a: &Vector<Dynamic, BinarySpatterCode<u8>>, b: &Vector<Dynamic, BinarySpatterCode<u8>>) -> f64 {
    a.dot(b) as f64 / a.len() as f64
}

fn bsc_vector(values: &[u8]) -> Vector<Dynamic, BinarySpatterCode<u8>> {
    let signs: Vec<bool> = values.iter().map(|v| *v == 1).collect();
    Vector::<Dynamic, BinarySpatterCode<u8>, Normalized<BinarySpatterCode<u8>>>::from_signs(
        BinarySpatterCode::<u8>::new(1),
        &signs,
    )
    .expect("valid vector")
}

#[test]
fn bsc_random_returns_expected_size() {
    let bsc = BinarySpatterCode::<u8>::new(7);
    let hv = bsc.random(256);
    assert_eq!(hv.len(), 256);
}

#[test]
fn bind_behaves_like_xor() {
    let mut a = bits(&[1, 0, 1, 0]);
    let b = bits(&[1, 1, 0, 0]);
    BinarySpatterCode::<u8>::bind(&mut a, &b);

    assert_eq!(a, bits(&[0, 1, 1, 0]));
}

#[test]
fn bundle_uses_majority_and_random_tiebreaks() {
    let bsc = BinarySpatterCode::<u8>::new(11);
    let random_source = BinarySpatterCode::<u8>::new(11);
    let a = bits(&[1, 0, 1, 0, 1, 0]);
    let b = bits(&[1, 1, 0, 0, 0, 0]);

    let mut accumulator = BinarySpatterCode::<u8>::denormalize(a.clone());
    bsc.bundle(&mut accumulator, &b);
    let bundled = bsc.normalize(accumulator);
    let random_bits = random_source.random(6);
    let expected: Vec<i128> = elements(&a)
        .iter()
        .zip(elements(&b).iter())
        .zip(elements(&random_bits).iter())
        .map(|((left, right), random)| if *left == *right { *left } else { *random })
        .collect();

    assert_eq!(elements(&bundled), expected);
}

#[test]
fn permutation_rolls_right() {
    let mut a = bits(&[1, 0, 1, 0, 1]);
    BinarySpatterCode::<u8>::permute(&mut a, 2);

    assert_eq!(a, bits(&[0, 1, 1, 0, 1]));
}

#[test]
fn bsc_cosine_similarity_matches_expected_values() {
    let a = bsc_vector(&[1, 1, 0, 0]);
    let b_same = bsc_vector(&[1, 1, 0, 0]);
    let b_opposite = bsc_vector(&[0, 0, 1, 1]);
    let b_half = bsc_vector(&[1, 0, 0, 1]);

    assert!((cosine(&a, &b_same) - 1.0).abs() < 1e-12);
    assert!((cosine(&a, &b_opposite) + 1.0).abs() < 1e-12);
    assert!(cosine(&a, &b_half).abs() < 1e-12);
}

#[test]
fn map_random_returns_expected_size() {
    let map = MultiplyAddPermute::<u8>::new(7);
    let hv = map.random(256);
    assert_eq!(hv.len(), 256);
}

#[test]
fn random_vectors_hold_only_the_two_letters() {
    let map = MultiplyAddPermute::<u8>::new(3);
    let hv = map.random(100);
    assert!(elements(&hv).iter().all(|v| *v == 1 || *v == -1));
    let bsc = BinarySpatterCode::<u8>::new(3);
    let hv = bsc.random(100);
    assert!(elements(&hv).iter().all(|v| *v == 1 || *v == 0));
}

#[test]
fn same_seed_gives_same_vectors() {
    let a = BinarySpatterCode::<u8>::new(5).random(70);
    let b = BinarySpatterCode::<u8>::new(5).random(70);
    let c = BinarySpatterCode::<u8>::new(6).random(70);
    assert_eq!(a, b);
    assert_ne!(a, c);
}

#[test]
fn map_bind_multiplies_and_unbinds() {
    let a = <PlusMinusOnes as PrimaryStorage>::from_signs(&[true, false, true, false]);
    let b = <PlusMinusOnes as PrimaryStorage>::from_signs(&[true, true, false, false]);
    let mut bound = a.duplicate();
    MultiplyAddPermute::<u8>::bind(&mut bound, &b);
    assert_eq!(elements(&bound), vec![1, -1, -1, 1]);
    MultiplyAddPermute::<u8>::bind(&mut bound, &b);
    assert_eq!(bound, a);
}

#[test]
fn map_bundle_adds_and_normalizes_ties_to_plus_one() {
    let map = MultiplyAddPermute::<u8>::new(1);
    let a = <PlusMinusOnes as PrimaryStorage>::from_signs(&[true, false, true, false]);
    let b = <PlusMinusOnes as PrimaryStorage>::from_signs(&[true, true, false, false]);
    let mut accumulator = MultiplyAddPermute::<u8>::denormalize(a.duplicate());
    map.bundle(&mut accumulator, &b);
    assert_eq!(elements(&accumulator), vec![2, 0, 0, -2]);
    let normalized = map.normalize(accumulator);
    assert_eq!(elements(&normalized), vec![1, 1, 1, -1]);
}

#[test]
fn map_bind_with_accumulator_multiplies_counts() {
    let map = MultiplyAddPermute::<u8>::new(1);
    let a = <PlusMinusOnes as PrimaryStorage>::from_signs(&[true, false, true]);
    let b = <PlusMinusOnes as PrimaryStorage>::from_signs(&[true, true, false]);
    let mut accumulator = MultiplyAddPermute::<u8>::denormalize(a.duplicate());
    map.bundle(&mut accumulator, &a);
    MultiplyAddPermute::<u8>::bind_with_accumulator(&mut accumulator, &b);
    assert_eq!(elements(&accumulator), vec![2, -2, -2]);
}

#[test]
fn bsc_bind_with_accumulator_flips_counts() {
    let bsc = BinarySpatterCode::<u8>::new(1);
    let a = bits(&[1, 0, 1]);
    let b = bits(&[1, 1, 0]);
    let mut accumulator = BinarySpatterCode::<u8>::denormalize(a.clone());
    bsc.bundle(&mut accumulator, &a);
    assert_eq!(elements(&accumulator), vec![2, 0, 2]);
    BinarySpatterCode::<u8>::bind_with_accumulator(&mut accumulator, &b);
    assert_eq!(elements(&accumulator), vec![0, 2, 2]);
    assert_eq!(accumulator.total(), 2);
}

#[test]
fn bundling_accumulators_adds_their_counts() {
    let bsc = BinarySpatterCode::<u8>::new(1);
    let a = BinarySpatterCode::<u8>::denormalize(bits(&[1, 0, 1]));
    let mut b = BinarySpatterCode::<u8>::denormalize(bits(&[1, 1, 0]));
    bsc.bundle_with_accumulator(&mut b, &a);
    assert_eq!(elements(&b), vec![2, 1, 1]);
    assert_eq!(b.total(), 2);
}

#[test]
fn permutation_by_the_length_changes_nothing() {
    let a = bits(&[1, 1, 0, 1, 0]);
    let mut p = a.clone();
    BinarySpatterCode::<u8>::permute(&mut p, 5);
    assert_eq!(p, a);
    let mut q = a.clone();
    BinarySpatterCode::<u8>::permute(&mut q, 3);
    BinarySpatterCode::<u8>::permute(&mut q, 2);
    assert_eq!(q, a);
}

#[test]
fn dot_counts_agreements() {
    let a = bits(&[1, 1, 0, 0, 1]);
    let b = bits(&[1, 0, 0, 1, 1]);
    assert_eq!(BinarySpatterCode::<u8>::dot(&a, &b), 1);
    let c = <PlusMinusOnes as PrimaryStorage>::from_signs(&[true, true, false]);
    let d = <PlusMinusOnes as PrimaryStorage>::from_signs(&[false, false, true]);
    assert_eq!(MultiplyAddPermute::<u8>::dot(&c, &d), -3);
}

#[test]
fn sizes_are_checked() {
    assert!(BinarySpatterCode::<u8>::valid_size(Fixed::<128>));
    assert!(MultiplyAddPermute::<u8>::valid_size(Fixed::<0>));
    assert!(Dynamic::new(0).is_none());
    assert_eq!(Dynamic::new(12).map(|d| symbolar::Size::size(&d)), Some(12));
}

#[test]
fn bits_come_from_words_lowest_bit_first() {
    let words: Vec<u64> = vec![0b1011, (1u64 << 63) | 1];
    let v = symbolar::architectures::rng::bits_from_words(&words, 66);
    let e = elements(&v);
    assert_eq!(e.len(), 66);
    assert_eq!(&e[0..5], &[1, 1, 0, 1, 0]);
    assert_eq!(e[63], 0);
    assert_eq!(e[64], 1);
    assert_eq!(e[65], 0);
}

#[test]
fn ties_take_the_tiebreaker_bits() {
    let tiebreaker = bits(&[0, 1, 1, 0]);
    let r = symbolar::architectures::majority_with_tiebreaker(&vec![2, 1, 0, 1], 2, &tiebreaker);
    assert_eq!(elements(&r), vec![1, 1, 0, 0]);
    let r = symbolar::architectures::majority_with_tiebreaker(&vec![2, 1, 0], 3, &bits(&[]));
    assert_eq!(elements(&r), vec![1, 0, 0]);
}
