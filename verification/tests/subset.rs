use symbolar::architectures::MultiplyAddPermute;
use symbolar::{Expression, Fixed, Normalized, Storage, Table, TableColumn};

type MapArch = MultiplyAddPermute<u8>;

fn categories(name: &str, cats: &[&str], values: &[&str]) -> TableColumn {
    let codes = values
        .iter()
        .map(|v| cats.iter().position(|c| c == v))
        .collect();
    TableColumn::categories(name, cats.iter().map(|c| c.to_string()).collect(), codes)
        .expect("valid categories")
}

fn create_dollar_dataframe() -> Table {
    Table::new(
        2,
        vec![
            categories("NAM", &["USA", "MEX"], &["USA", "MEX"]),
            categories("MON", &["DOL", "PES"], &["DOL", "PES"]),
            categories("CAP", &["WDC", "MXC"], &["WDC", "MXC"]),
        ],
    )
    .expect("valid dataframe")
}

#[test]
fn test_dataset_bind_vector_entire_dataset() {
    let df = create_dollar_dataframe();
    let vsa = MultiplyAddPermute::<u8>::new(42);
    let storage =
        Storage::from_dataframe(vsa, Fixed::<10000>, &df).expect("valid vector storage");
    let expression: Expression =
        "((NAM * USA) * (CAP * WDC) * (MON * DOL)) * ((NAM * MEX) * (CAP * MXC) * (MON * PES))"
            .parse()
            .expect("valid expression");

    let subset = storage.subset(&df).expect("valid subset");
    assert_eq!(
        storage.execute(&expression).expect("valid execution"),
        subset.bind_entire_dataset().expect("valid dataset vector")
    );
}

#[test]
fn subset_test_dataset_bundle_vector() {
    let df = create_dollar_dataframe();
    let vsa = MultiplyAddPermute::<u8>::new(42);
    let storage =
        Storage::from_dataframe(vsa, Fixed::<10000>, &df).expect("valid vector storage");
    let expression: Expression =
        "((NAM * USA) + (CAP * WDC) + (MON * DOL)) + ((NAM * MEX) + (CAP * MXC) + (MON * PES))"
            .parse()
            .expect("valid expression");

    let subset = storage.subset(&df).expect("valid subset");
    assert_eq!(
        storage.execute(&expression).expect("valid execution"),
        subset
            .bundle_dataset::<Normalized<MapArch>, Normalized<MapArch>>()
            .expect("valid dataset vector")
    );
}

#[test]
fn test_dataset_bind_bundled_vector() {
    let df = create_dollar_dataframe();
    let vsa = MultiplyAddPermute::<u8>::new(42);
    let storage =
        Storage::from_dataframe(vsa, Fixed::<10000>, &df).expect("valid vector storage");
    let expression: Expression =
        "((NAM * USA) + (CAP * WDC) + (MON * DOL)) * ((NAM * MEX) + (CAP * MXC) + (MON * PES))"
            .parse()
            .expect("valid expression");

    let subset = storage.subset(&df).expect("valid subset");
    assert_eq!(
        storage.execute(&expression).expect("valid execution"),
        subset.bind_dataset().expect("valid dataset vector")
    );
}

#[test]
fn rows_bind_the_cells_to_their_columns() {
    let df = create_dollar_dataframe();
    let storage = Storage::from_dataframe(MultiplyAddPermute::<u8>::new(7), Fixed::<512>, &df)
        .expect("valid vector storage");
    let subset = storage.subset(&df).expect("valid subset");
    assert_eq!(subset.width(), 3);
    assert_eq!(subset.height(), 2);
    let rows = subset.bind_rows();
    let expected = storage
        .execute(&"(NAM * MEX) * (MON * PES) * (CAP * MXC)".parse().unwrap())
        .unwrap();
    assert_eq!(rows.len(), 2);
    assert_eq!(rows[1].as_ref(), Some(&expected));
    let bundles = subset.bundle_rows::<Normalized<MapArch>>();
    assert_eq!(bundles.len(), 2);
    assert!(bundles.iter().all(|r| r.is_some()));
}

#[test]
fn combinatorial_rows_bundle_all_combinations() {
    let df = Table::new(1, vec![categories("A", &["x"], &["x"]), categories("B", &["y"], &["y"])])
        .expect("valid table");
    let storage = Storage::from_dataframe(MultiplyAddPermute::<u8>::new(9), Fixed::<256>, &df)
        .expect("valid vector storage");
    let subset = storage.subset(&df).expect("valid subset");
    let rows = subset.bundle_rows_combinatorial(2);
    assert_eq!(rows.len(), 1);
    let row = rows[0].as_ref().expect("a row");
    let ax = storage.execute(&"A * x".parse().unwrap()).unwrap();
    let by = storage.execute(&"B * y".parse().unwrap()).unwrap();
    let both = &ax * &by;
    let expected = (ax + &by) + &both;
    assert_eq!(row.to_values(), expected.to_values());
    assert!(subset.bundle_rows_combinatorial(0)[0].is_none());
    let dataset = subset.bundle_dataset_combinatorial(1).expect("a dataset vector");
    assert_eq!(dataset.to_values(), subset.bundle_rows_combinatorial(1)[0].as_ref().unwrap().to_values());
}

#[test]
fn subsets_report_what_does_not_fit() {
    let df = create_dollar_dataframe();
    let storage = Storage::from_dataframe(MultiplyAddPermute::<u8>::new(7), Fixed::<64>, &df)
        .expect("valid vector storage");
    let other = Table::new(1, vec![categories("NAM", &["USA", "MEX"], &["USA"]), TableColumn::strings("LANG", vec![Some("es".to_string())])]).unwrap();
    assert!(matches!(
        storage.subset(&other),
        Err(symbolar::SubsetError::ColumnNotFound { name }) if name == "LANG"
    ));
    let swapped = Table::new(1, vec![categories("NAM", &["MEX", "USA"], &["USA"])]).unwrap();
    assert!(matches!(
        storage.subset(&swapped),
        Err(symbolar::SubsetError::ColumnTypeMismatch { name }) if name == "NAM"
    ));
    let strings = Table::new(1, vec![TableColumn::strings("NAM", vec![Some("USA".to_string())])]).unwrap();
    assert!(matches!(
        storage.subset(&strings),
        Err(symbolar::SubsetError::ColumnTypeMismatch { name }) if name == "NAM"
    ));
}
