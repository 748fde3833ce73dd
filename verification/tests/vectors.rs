use symbolar::architectures::{BinarySpatterCode, MultiplyAddPermute};
use symbolar::{Dynamic, EvaluateOps, Fixed, Normalized, Vector};

type Bsc = BinarySpatterCode<u8>;
type MapArch = MultiplyAddPermute<u8>;

fn map_vector(signs: &[bool]) -> Vector<Dynamic, MapArch> {
    Vector::<Dynamic, MapArch, Normalized<MapArch>>::from_signs(MapArch::new(1), signs).expect("valid vector")
}

#[test]
fn random_vectors_have_the_size() {
    let vsa = Bsc::new(3);
    let v = Vector::random(&vsa, Fixed::<300>).expect("valid size");
    assert_eq!(v.len(), 300);
    assert_eq!(v.size(), Fixed::<300>);
    let w = Vector::random(&vsa, Dynamic::new(17).unwrap()).expect("valid size");
    assert_eq!(w.len(), 17);
}

#[test]
fn binding_twice_gives_the_vector_back() {
    let vsa = MapArch::new(5);
    let a = Vector::random(&vsa, Fixed::<64>).unwrap();
    let b = Vector::random(&vsa, Fixed::<64>).unwrap();
    assert_eq!(&(&a * &b) * &b, a);
    let vsa = Bsc::new(5);
    let a = Vector::random(&vsa, Fixed::<65>).unwrap();
    let b = Vector::random(&vsa, Fixed::<65>).unwrap();
    assert_eq!((a.clone() * &b) * b, a);
}

#[test]
fn binding_is_commutative() {
    let vsa = Bsc::new(8);
    let a = Vector::random(&vsa, Fixed::<90>).unwrap();
    let b = Vector::random(&vsa, Fixed::<90>).unwrap();
    assert_eq!(&a * &b, &b * &a);
}

#[test]
fn bundling_a_vector_with_itself_gives_it_back() {
    let vsa = Bsc::new(9);
    let a = Vector::random(&vsa, Fixed::<100>).unwrap();
    assert_eq!((&a + &a).normalize(), a);
    assert_eq!(EvaluateOps::add_many(&[a.clone(), a.clone()]), a);
    let vsa = MapArch::new(9);
    let a = Vector::random(&vsa, Fixed::<100>).unwrap();
    assert_eq!((&a + &a).normalize(), a);
}

#[test]
fn bundling_is_commutative() {
    let vsa = MapArch::new(2);
    let a = Vector::random(&vsa, Fixed::<50>).unwrap();
    let b = Vector::random(&vsa, Fixed::<50>).unwrap();
    assert_eq!((&a + &b).to_values(), (&b + &a).to_values());
}

#[test]
fn normalizing_a_single_vector_gives_it_back() {
    let vsa = MapArch::new(2);
    let a = Vector::random(&vsa, Fixed::<50>).unwrap();
    assert_eq!(a.clone().denormalize().normalize(), a);
}

#[test]
fn binding_keeps_the_agreement() {
    let vsa = MapArch::new(4);
    let a = Vector::random(&vsa, Fixed::<80>).unwrap();
    let b = Vector::random(&vsa, Fixed::<80>).unwrap();
    let c = Vector::random(&vsa, Fixed::<80>).unwrap();
    assert_eq!((&a * &c).dot(&(&b * &c)), a.dot(&b));
    assert_eq!(a.dot(&a), 80);
}

#[test]
fn permutation_rotates_and_composes() {
    let a = map_vector(&[true, false, false, true, true]);
    let p = a.clone().permute(2);
    assert_eq!(p.to_values(), vec![1, 1, 1, -1, -1]);
    assert_eq!(a.clone().permute(2).permute(3), a);
    assert_eq!(a.clone().permute(5), a);
}

#[test]
fn sums_and_products_of_accumulators() {
    let a = map_vector(&[true, true, false]);
    let b = map_vector(&[true, false, false]);
    let sum = &a + &b;
    assert_eq!(sum.to_values(), vec![2, 0, -2]);
    let bound = &sum * &b;
    assert_eq!(bound.to_values(), vec![2, 0, 2]);
    let more = sum.clone() + &a;
    assert_eq!(more.to_values(), vec![3, 1, -3]);
    let merged = more.merge(&bound);
    assert_eq!(merged.to_values(), vec![5, 1, -1]);
    assert_eq!(merged.normalize().to_values(), vec![1, 1, -1]);
    let other = b.clone() + sum;
    assert_eq!(other.to_values(), vec![3, -1, -3]);
}

#[test]
fn parsing_from_signs_checks_the_size() {
    assert!(Vector::<Fixed<3>, MapArch, Normalized<MapArch>>::from_signs(MapArch::new(1), &[true, false]).is_none());
    let v = Vector::<Fixed<2>, MapArch, Normalized<MapArch>>::from_signs(MapArch::new(1), &[true, false]).unwrap();
    assert_eq!(v.to_values(), vec![1, -1]);
    assert_eq!(v.value_at(1), -1);
}
