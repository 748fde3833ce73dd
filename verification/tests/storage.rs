use symbolar::architectures::MultiplyAddPermute;
use symbolar::{
    Column, Expression, Fixed, Queryable, Storage, StorageError, Table, TableColumn, Value,
    Vector,
};

type MapArch = MultiplyAddPermute<u8>;

fn vector<'a>(storage: &'a Storage<Fixed<128>, MapArch>, name: &str) -> &'a Vector<Fixed<128>, MapArch> {
    storage.get(&name).expect("valid reference")
}

fn by<'a, Q: Queryable>(storage: &'a Storage<Fixed<128>, MapArch>, query: &Q) -> &'a Vector<Fixed<128>, MapArch> {
    storage.get(query).expect("valid reference")
}

#[test]
fn test_construction_empty() {
    let vsa = MultiplyAddPermute::<u8>::new(42);
    let storage = Storage::new(vsa, Fixed::<128>).expect("valid size");
    assert!(storage.columns().is_empty());
    assert!(storage.values().is_empty());
}

#[test]
fn test_push() {
    let vsa = MultiplyAddPermute::<u8>::new(42);
    let mut storage = Storage::new(vsa, Fixed::<128>).expect("valid size");
    storage.push("vec1");
    storage.push("vec2");
    storage.push("vec1");

    assert_ne!(vector(&storage, "vec1"), vector(&storage, "vec2"));
    assert_eq!(vector(&storage, "vec1"), vector(&storage, "vec1"));
    assert_eq!(storage.values().len(), 2);
    assert_eq!(storage.columns().len(), 0);
}

#[test]
fn test_extend() {
    let vsa = MultiplyAddPermute::<u8>::new(42);
    let mut storage = Storage::new(vsa, Fixed::<128>).expect("valid size");
    storage.extend(&["vec1", "vec1", "vec2"]);

    assert_ne!(vector(&storage, "vec1"), vector(&storage, "vec2"));
    assert_eq!(vector(&storage, "vec1"), vector(&storage, "vec1"));
    assert_eq!(storage.values().len(), 2);
    assert_eq!(storage.columns().len(), 0);
}

#[test]
fn test_execute() {
    let vsa = MultiplyAddPermute::<u8>::new(42);
    let mut storage = Storage::new(vsa, Fixed::<128>).expect("valid size");
    storage.extend(&["vec1", "vec2"]);

    let expr = Expression::new("vec1");
    let result = storage.execute(&expr).expect("expression should exist");
    assert_eq!(&result, vector(&storage, "vec1"));
}

#[test]
fn test_select_mutliple() {
    let vsa = MultiplyAddPermute::<u8>::new(42);
    let mut storage = Storage::new(vsa, Fixed::<128>).expect("valid size");
    storage.extend(&["vec1", "vec2", "vec3"]);

    let selector = ["vec1", "vec3"].as_slice();
    let selected_1 = storage.get_multiple(&selector);
    assert_eq!(selected_1.len(), 2);
    assert_eq!(selected_1[0], vector(&storage, "vec1"));
    assert_eq!(selected_1[1], vector(&storage, "vec3"));

    let selected_2 = storage.get_multiple(&());
    assert_eq!(selected_2.len(), 3);
    assert_eq!(selected_2[0], vector(&storage, "vec1"));
    assert_eq!(selected_2[1], vector(&storage, "vec2"));
    assert_eq!(selected_2[2], vector(&storage, "vec3"));
}

fn strings(values: &[&str]) -> Vec<Option<String>> {
    values.iter().map(|v| Some(v.to_string())).collect()
}

fn categories(name: &str, cats: &[&str], values: &[&str]) -> TableColumn {
    let codes = values
        .iter()
        .map(|v| cats.iter().position(|c| c == v))
        .collect();
    TableColumn::categories(name, cats.iter().map(|c| c.to_string()).collect(), codes)
        .expect("valid categories")
}

#[test]
fn test_construction_from_dataframe() {
    let df = Table::new(
        3,
        vec![
            TableColumn::strings("color", strings(&["red", "green", "blue"])),
            categories("shape", &["circle", "square", "triangle"], &["circle", "square", "circle"]),
        ],
    )
    .expect("valid dataframe");

    let vsa = MultiplyAddPermute::<u8>::new(42);
    let storage =
        Storage::from_dataframe(vsa, Fixed::<128>, &df).expect("valid vector storage");

    assert_eq!(storage.values().len(), 2 * 3 + 2);
    assert_eq!(storage.columns().len(), 2);

    assert_eq!(by(&storage, &"color"), by(&storage, &Column::from_str("color")));
    assert_eq!(by(&storage, &"shape"), by(&storage, &Column::from_str("shape")));
    assert_ne!(by(&storage, &"shape"), by(&storage, &"color"));

    assert_eq!(by(&storage, &"red"), by(&storage, &Value::from_str("red")));

    assert_eq!(
        by(&storage, &(Column::from_str("shape"), Value::from_str("circle"))),
        by(&storage, &Value::from_str("circle"))
    );

    // There is nothing special about a column vector ...
    assert_eq!(by(&storage, &Column::from_str("color")), by(&storage, &"color"));
    // ... but it must exist.
    assert!(storage.get(&Column::from_str("red")).is_none());

    // A string column can be everything
    assert_eq!(
        by(&storage, &(Column::from_str("color"), Value::from_str("circle"))),
        by(&storage, &"circle")
    );

    // Enum-specific behavior
    assert!(storage.get(&Value::from_str("triangle")).is_some()); // Triangle has a vector, even if it was not in the column
    assert!(storage
        .get(&(Column::from_str("shape"), Value::from_str("red")))
        .is_none()); // Red is not a valid value for the shape column
}

#[test]
fn construction_refuses_other_data_types() {
    let df = Table::new(
        2,
        vec![
            TableColumn::strings("name", strings(&["a", "b"])),
            TableColumn::other("age", "i64", 2),
            TableColumn::other("weight", "f64", 2),
        ],
    )
    .expect("valid table");
    let vsa = MultiplyAddPermute::<u8>::new(42);
    assert_eq!(
        Storage::from_dataframe(vsa, Fixed::<128>, &df).err(),
        Some(StorageError::InvalidDataType {
            column: "age".to_string(),
            dtype: "i64".to_string()
        })
    );
}

#[test]
fn tables_refuse_inconsistent_columns() {
    assert!(Table::new(2, vec![TableColumn::strings("a", strings(&["x"]))]).is_none());
    assert!(Table::new(
        1,
        vec![
            TableColumn::strings("a", strings(&["x"])),
            TableColumn::strings("a", strings(&["y"]))
        ]
    )
    .is_none());
    assert!(TableColumn::categories("c", vec!["x".to_string(), "x".to_string()], vec![]).is_none());
    assert!(TableColumn::categories("c", vec!["x".to_string()], vec![Some(1)]).is_none());
}

#[test]
fn indices_and_names_query_the_same_vectors() {
    let vsa = MultiplyAddPermute::<u8>::new(1);
    let mut storage = Storage::new(vsa, Fixed::<128>).expect("valid size");
    let pushed_a = storage.push("a").clone();
    let pushed_b = storage.push("b").clone();
    let first = storage.index_by_name("a").expect("known name");
    let second = storage.index_by_name("b").expect("known name");
    assert_eq!(first.index(), 0);
    assert_eq!(second.index(), 1);
    assert_eq!(storage.push("a"), &pushed_a);
    assert_eq!(storage.get(&first), Some(&pushed_a));
    assert_eq!(storage.get(&second), Some(&pushed_b));
    assert_eq!(storage.get(&first), storage.get(&"a"));
    assert_eq!(storage.get(&second), storage.get(&Value::from_str("b")));
    assert!(storage.get(&"c").is_none());
    let names: Vec<String> = storage.values().iter().map(|v| v.to_string()).collect();
    assert_eq!(names, vec!["a".to_string(), "b".to_string()]);
}

#[test]
fn selections_skip_unknown_names() {
    let vsa = MultiplyAddPermute::<u8>::new(2);
    let mut storage = Storage::new(vsa, Fixed::<128>).expect("valid size");
    storage.extend(&["x", "y", "z"]);
    let selector = ["z", "nothing", "x"].as_slice();
    let selected = storage.get_multiple(&selector);
    assert_eq!(selected.len(), 2);
    assert_eq!(selected[0], vector(&storage, "z"));
    assert_eq!(selected[1], vector(&storage, "x"));
}

#[test]
fn find_returns_the_most_similar_vector() {
    let vsa = MultiplyAddPermute::<u8>::new(3);
    let mut storage = Storage::new(vsa, Fixed::<128>).expect("valid size");
    storage.extend(&["a", "b", "c"]);
    let query = vector(&storage, "b").clone();
    let best = storage.find(&query, &()).expect("a candidate");
    assert_eq!(best.index(), 1);
    let selector = ["a", "c"].as_slice();
    let best = storage.find(&query, &selector).expect("a candidate");
    assert!(best.index() == 0 || best.index() == 2);
    let none: &[&str] = &[];
    assert!(storage.find(&query, &none).is_none());
    let dots = storage.dots(&query, &());
    assert_eq!(dots.len(), 3);
    assert_eq!(dots[1].1, 128);
}

#[test]
fn execute_reports_unknown_names() {
    let vsa = MultiplyAddPermute::<u8>::new(4);
    let mut storage = Storage::new(vsa, Fixed::<128>).expect("valid size");
    storage.extend(&["a", "b"]);
    let expr: Expression = "a * (b + c)".parse().unwrap();
    assert_eq!(
        storage.execute(&expr).err(),
        Some(symbolar::UnknownValue::from("c"))
    );
}

#[test]
fn execute_binds_and_bundles() {
    let vsa = MultiplyAddPermute::<u8>::new(4);
    let mut storage = Storage::new(vsa, Fixed::<128>).expect("valid size");
    storage.extend(&["a", "b"]);
    let a = vector(&storage, "a").clone();
    let b = vector(&storage, "b").clone();
    let product = storage.execute(&"a * b".parse().unwrap()).unwrap();
    assert_eq!(product, &a * &b);
    let sum = storage.execute(&"a + a".parse().unwrap()).unwrap();
    assert_eq!(sum, a);
    let unbound = storage.execute(&"(a * b) * b".parse().unwrap()).unwrap();
    assert_eq!(unbound, a);
}

#[test]
fn invalid_sizes_are_refused() {
    let vsa = MultiplyAddPermute::<u8>::new(4);
    assert!(Storage::new(vsa.clone(), symbolar::Dynamic::new(5).unwrap()).is_some());
    assert_eq!(
        Storage::from_dataframe(vsa, Fixed::<128>, &Table::new(0, vec![]).unwrap())
            .map(|s| s.values().len()),
        Ok(0)
    );
}

#[test]
fn extend_keeps_first_occurrence_order() {
    let vsa = MultiplyAddPermute::<u8>::new(7);
    let mut storage = Storage::new(vsa, Fixed::<128>).expect("valid size");
    storage.push("b");
    storage.extend(&["a", "b", "c", "a"]);
    let names: Vec<String> = storage.values().iter().map(|v| v.to_string()).collect();
    assert_eq!(names, vec!["b".to_string(), "a".to_string(), "c".to_string()]);
}

#[test]
fn construction_names_values_and_columns_in_order() {
    let df = Table::new(
        3,
        vec![
            TableColumn::strings("color", strings(&["red", "green", "blue"])),
            categories("shape", &["circle", "square", "triangle"], &["circle", "square", "circle"]),
        ],
    )
    .expect("valid dataframe");
    let storage = Storage::from_dataframe(MultiplyAddPermute::<u8>::new(42), Fixed::<128>, &df)
        .expect("valid vector storage");
    let names: Vec<String> = storage.values().iter().map(|v| v.to_string()).collect();
    assert_eq!(
        names,
        vec!["red", "green", "blue", "color", "shape", "circle", "square", "triangle"]
    );
}
