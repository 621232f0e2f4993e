use xlite::cells::{column_to_index, index_to_column, index_to_row, row_to_index, CellIndex, CellRange};

#[test]
fn column_to_index_gives_correct_value_for_a() {
    let index = column_to_index("A");
    assert_eq!(index, 1);
}

#[test]
fn column_to_index_gives_correct_value_for_z() {
    let index = column_to_index("Z");
    assert_eq!(index, 26);
}

#[test]
fn index_to_column_gives_correct_value_for_0() {
    let column = index_to_column(1);
    assert_eq!(column, "A");
}

#[test]
fn index_to_column_gives_correct_value_for_25() {
    let column = index_to_column(26);
    assert_eq!(column, "Z")
}

#[test]
fn try_parse_cell_index_from_single_letter() {
    let index = CellIndex::try_parse("A").unwrap();
    assert_eq!(index.x, 1);
    assert_eq!(index.y, 0);
}

#[test]
fn try_parse_cell_index_from_letter_and_number() {
    let index = CellIndex::try_parse("A1").unwrap();
    assert_eq!(index.x, 1);
    assert_eq!(index.y, 1);
}

#[test]
fn try_parse_cell_range_from_letter_and_number() {
    let range = CellRange::try_parse("A1:Z9").unwrap();
    assert_eq!(range.start.x, 1);
    assert_eq!(range.start.y, 1);
    assert_eq!(range.end.x, 26);
    assert_eq!(range.end.y, 9);
}

#[test]
fn to_zero_indexed_gives_0_indexed_tuple_in_y_x_format() {
    let index = CellIndex::new(1, 9);
    let tuple = index.to_zero_indexed();
    assert_eq!(tuple.0, 8);
    assert_eq!(tuple.1, 0);
}

#[test]
fn column_coding_round_trips_for_short_names() {
    for s in ["A", "Z", "B", "AA", "AZ", "BA", "ZZ"] {
        let n = column_to_index(s);
        assert_eq!(column_to_index(index_to_column(n).as_str()), n);
    }
}

#[test]
fn index_to_column_handles_multiple_letters() {
    assert_eq!(index_to_column(27), "AA");
    assert_eq!(index_to_column(52), "AZ");
    assert_eq!(index_to_column(53), "BA");
    assert_eq!(index_to_column(702), "ZZ");
    assert_eq!(index_to_column(703), "AAA");
    assert_eq!(column_to_index("AAA"), 703);
}

#[test]
fn try_parse_rejects_letter_after_digit() {
    assert!(CellIndex::try_parse("1A").is_none());
}

#[test]
fn try_parse_rejects_text_without_letters() {
    assert!(CellIndex::try_parse("123").is_none());
    assert!(CellIndex::try_parse("").is_none());
}

#[test]
fn try_parse_lower_case_and_stray_characters() {
    let index = CellIndex::try_parse("c7").unwrap();
    assert_eq!(index.x, 3);
    assert_eq!(index.y, 7);
    let index = CellIndex::try_parse(" B 12 ").unwrap();
    assert_eq!(index.x, 2);
    assert_eq!(index.y, 12);
}

#[test]
fn try_parse_rejects_numbers_that_do_not_fit() {
    assert!(CellIndex::try_parse("A4294967296").is_none());
    let index = CellIndex::try_parse("A4294967295").unwrap();
    assert_eq!(index.y, u32::MAX);
}

#[test]
fn cell_range_requires_exactly_one_colon() {
    assert!(CellRange::try_parse("A1").is_none());
    assert!(CellRange::try_parse("A1:B2:C3").is_none());
    let range = CellRange::try_parse("B2:C5").unwrap();
    assert_eq!(range.start.x, 2);
    assert_eq!(range.start.y, 2);
    assert_eq!(range.end.x, 3);
    assert_eq!(range.end.y, 5);
}

#[test]
fn row_coding_shifts_the_rendered_index() {
    assert_eq!(row_to_index("9"), 9);
    assert_eq!(index_to_row(9), "10");
    let index = CellIndex::new(1, 9);
    assert_eq!(index.get_y_as_string(), "10");
    assert_eq!(index.get_x_as_string(), "A");
}
