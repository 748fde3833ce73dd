use symbolar::architectures::{
    BinarySpatterCode, MultiplyAddPermute, SelfInverseVectorSymbolicArchitecture,
    VectorSymbolicArchitecture,
};
use symbolar::{Expression, Fixed, Size, Storage};

fn create_storage<S: Size, V: VectorSymbolicArchitecture>(v: V, size: S) -> Storage<S, V> {
    let mut storage = Storage::new(v, size).expect("valid size");
    storage.extend(&[
        "NAM", "MON", "CAP", // Features
        "USA", "DOL", "WDC", // USA
        "MEX", "PES", "MXC", // Mexico
    ]);

    storage
}

fn test_dollar_mexico_self_inverse<V: SelfInverseVectorSymbolicArchitecture>(v: V) {
    let storage = create_storage(v, Fixed::<100000>);

    let expression: Expression =
        "((NAM * USA) + (CAP * WDC) + (MON * DOL)) * ((NAM * MEX) + (CAP * MXC) + (MON * PES))"
            .parse()
            .expect("valid expression");
    let knowledge_base = storage.execute(&expression).expect("valid execution");

    let query = storage.get(&"DOL").expect("valid reference");
    let solution = storage
        .find(&(query * &knowledge_base), &())
        .expect("at least one vector");

    assert_eq!(storage.get(&solution), storage.get(&"PES"));
}

#[test]
fn test_dollar_mexico_bsc() {
    test_dollar_mexico_self_inverse(BinarySpatterCode::<usize>::new(42));
}

#[test]
fn test_dollar_mexico_map() {
    test_dollar_mexico_self_inverse(MultiplyAddPermute::<usize>::new(42));
}

#[test]
fn readme_quick_start() {
    // Create the storage
    let mut storage = Storage::new(BinarySpatterCode::<u8>::new(42), Fixed::<10_000>)
        .expect("valid size");
    storage.extend(&[
        "NAM", "MON", "CAP", // Features
        "USA", "DOL", "WDC", // USA
        "MEX", "PES", "MXC", // Mexico
    ]);

    // Build the expression and run it
    let expression: Expression =
        "((NAM * USA) + (CAP * WDC) + (MON * DOL)) * ((NAM * MEX) + (CAP * MXC) + (MON * PES))"
            .parse()
            .expect("valid expression");
    let relation = storage.execute(&expression).expect("expression can be evaluated");

    // Query the dollar
    let query = storage.get(&"DOL").expect("valid reference");
    let best = storage
        .find(&(query * &relation), &())
        .expect("at least one candidate");

    assert_eq!(storage.get(&best), storage.get(&"PES"));
}
