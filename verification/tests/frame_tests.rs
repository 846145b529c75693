use ds210::frame::{ColumnVal, DataFrame};

fn sample_frame() -> DataFrame {
    let df = DataFrame::new();
    let df = df.add_column(
        "Name".to_string(),
        vec![
            ColumnVal::One("Kareem".to_string()),
            ColumnVal::One("Karl".to_string()),
            ColumnVal::One("LeBron".to_string()),
        ],
    );
    let df = df.add_column(
        "TotalPoints".to_string(),
        vec![
            ColumnVal::Four(38387),
            ColumnVal::Four(36928),
            ColumnVal::Four(38652),
        ],
    );
    df.add_column(
        "YearBorn".to_string(),
        vec![
            ColumnVal::Four(1947),
            ColumnVal::Four(1963),
            ColumnVal::Four(1984),
        ],
    )
}

#[test]
fn add_column_and_lookup() {
    let df = sample_frame();
    assert_eq!(df.labels, vec!["Name", "TotalPoints", "YearBorn"]);
    assert_eq!(df.find_column_index("YearBorn"), Some(2));
    assert_eq!(df.find_column_index("PPG"), None);
}

#[test]
fn merge_frame_stacks_rows() {
    let df = sample_frame();
    let merged = df.merge_frame(&sample_frame());
    assert_eq!(merged.labels.len(), 3);
    assert_eq!(merged.columns[0].len(), 6);
    assert!(matches!(&merged.columns[0][3], ColumnVal::One(s) if s == "Kareem"));
}

#[test]
fn find_and_restrict_select_columns() {
    let df = sample_frame();
    let wanted = vec!["YearBorn".to_string(), "Name".to_string()];
    let selected = df.find_columns(&wanted);
    assert_eq!(selected.labels, wanted);
    assert!(matches!(selected.columns[0][0], ColumnVal::Four(1947)));

    let restricted = df.restrict_columns(&wanted);
    assert_eq!(restricted.labels, wanted);
    assert!(matches!(restricted.columns[1][2], ColumnVal::One(ref s) if s == "LeBron"));
}

#[test]
fn filter_keeps_rows_aligned() {
    let df = sample_frame();
    let late = df.filter("YearBorn", |v| matches!(v, ColumnVal::Four(y) if *y > 1950));
    assert_eq!(late.columns[0].len(), 2);
    assert!(matches!(&late.columns[0][0], ColumnVal::One(s) if s == "Karl"));
    assert!(matches!(&late.columns[0][1], ColumnVal::One(s) if s == "LeBron"));
    assert!(matches!(late.columns[2][0], ColumnVal::Four(1963)));
}

#[test]
fn sub_columns_subtracts_integer_rows() {
    let df = sample_frame();
    let diffs = df.sub_columns("TotalPoints", "YearBorn");
    assert_eq!(diffs, vec![36440, 34965, 36668]);
}

#[test]
fn column_op_hands_over_the_selected_columns() {
    let df = sample_frame();
    let labels = vec!["TotalPoints".to_string()];
    let result = df.column_op(&labels, |cols| vec![cols[0][0].clone()]);
    assert!(matches!(result[0], ColumnVal::Four(38387)));
}

#[test]
fn float_cells_survive_a_bit_round_trip() {
    let df = DataFrame::new();
    let df = df.add_column(
        "PPG".to_string(),
        vec![ColumnVal::Three((25.3f64).to_bits())],
    );
    if let ColumnVal::Three(bits) = df.columns[0][0] {
        assert_eq!(f64::from_bits(bits), 25.3);
    } else {
        panic!("wrong variant");
    }
}
