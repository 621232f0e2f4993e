use calamine::{DataType, Range};
use xlite::cells::CellRange;
use xlite::grid::SheetRange;
use xlite::manager::{DataManager, DataManagerBuilder, DataManagerError};
use xlite::options::UsingOption;
use xlite::schema::declare_table_sql;

const WORDS: [&str; 6] = ["ten", "eleven", "twelve", "thirteen", "fourteen", "fifteen"];

fn sheet_of(range: &Range<DataType>) -> SheetRange {
    let rows: Vec<Vec<DataType>> = range.rows().map(|r| r.to_vec()).collect();
    SheetRange::from_parts(range.start(), rows).unwrap()
}

/// Six data rows over columns A-D starting at the given sheet row: A empty,
/// B the numbers 10-15, C their names, D alternating even/odd.
fn abc_sheet(anchor_row: u32) -> SheetRange {
    let mut r: Range<DataType> = Range::new((anchor_row, 0), (anchor_row + 5, 3));
    for k in 0..6u32 {
        r.set_value((anchor_row + k, 1), DataType::Int(10 + k as i64));
        r.set_value((anchor_row + k, 2), DataType::String(WORDS[k as usize].to_string()));
        let parity = if k % 2 == 0 { "even" } else { "odd" };
        r.set_value((anchor_row + k, 3), DataType::String(parity.to_string()));
    }
    sheet_of(&r)
}

fn manager_over(sheet: SheetRange, range_text: Option<&str>) -> DataManager {
    let mut builder = DataManagerBuilder::new()
        .file(String::from("/tmp/data.xlsx"))
        .worksheet(String::from("Sheet1"));
    if let Some(text) = range_text {
        builder = builder.range(CellRange::try_parse(text).unwrap());
    }
    builder.open(Some(sheet)).unwrap()
}

#[test]
fn configured_range_cuts_the_expected_window() {
    let mgr = manager_over(abc_sheet(0), Some("B2:C5"));
    assert_eq!(mgr.get_columns(), vec!["B", "C"]);
    let mut reader = mgr.read();
    let mut rows = 0u32;
    while reader.has_value() {
        assert_eq!(reader.get_rowid(), 1 + rows);
        assert_eq!(reader.get_value(0), Some(&DataType::Int(11 + rows as i64)));
        assert_eq!(
            reader.get_value(1),
            Some(&DataType::String(WORDS[(1 + rows) as usize].to_string()))
        );
        assert_eq!(reader.get_value(2), None);
        rows += 1;
        reader.move_next();
    }
    assert_eq!(rows, 4);
}

#[test]
fn no_configured_range_uses_the_full_sheet() {
    let mgr = manager_over(abc_sheet(0), None);
    assert_eq!(mgr.get_columns(), vec!["A", "B", "C", "D"]);
    let mut reader = mgr.read();
    let mut rows = 0u32;
    while reader.has_value() {
        assert_eq!(reader.get_rowid(), rows);
        assert_eq!(reader.get_value(0), Some(&DataType::Empty));
        assert_eq!(reader.get_value(1), Some(&DataType::Int(10 + rows as i64)));
        rows += 1;
        reader.move_next();
    }
    assert_eq!(rows, 6);
}

#[test]
fn open_ended_range_reaches_the_last_row() {
    let mgr = manager_over(abc_sheet(0), Some("B2:C"));
    let mut reader = mgr.read();
    let mut last = None;
    let mut rows = 0;
    while reader.has_value() {
        last = reader.get_value(0).cloned();
        rows += 1;
        reader.move_next();
    }
    assert_eq!(rows, 5);
    assert_eq!(last, Some(DataType::Int(15)));
}

#[test]
fn range_beyond_the_sheet_pads_with_empty_cells() {
    let mgr = manager_over(abc_sheet(0), Some("A1:E7"));
    assert_eq!(mgr.get_columns(), vec!["A", "B", "C", "D", "E"]);
    let mut reader = mgr.read();
    assert_eq!(reader.get_value(1), Some(&DataType::Int(10)));
    assert_eq!(reader.get_value(4), Some(&DataType::Empty));
    let mut rows = 0;
    while reader.has_value() {
        rows += 1;
        reader.move_next();
    }
    assert_eq!(rows, 7);
}

#[test]
fn reversed_range_yields_nothing() {
    let mgr = manager_over(abc_sheet(0), Some("C5:B2"));
    assert_eq!(mgr.get_columns(), Vec::<String>::new());
    let reader = mgr.read();
    assert!(!reader.has_value());
}

#[test]
fn missing_worksheet_yields_an_empty_range() {
    let mgr = DataManagerBuilder::new()
        .file(String::from("/tmp/data.xlsx"))
        .worksheet(String::from("Nowhere"))
        .open(None)
        .unwrap();
    assert_eq!(mgr.get_columns(), Vec::<String>::new());
    assert!(!mgr.read().has_value());
}

#[test]
fn header_row_names_the_columns() {
    let mut r: Range<DataType> = Range::new((0, 0), (2, 4));
    r.set_value((0, 0), DataType::String("id".to_string()));
    r.set_value((0, 1), DataType::Int(10));
    r.set_value((0, 2), DataType::Bool(true));
    r.set_value((0, 3), DataType::Float(1.5));
    r.set_value((1, 0), DataType::Int(1));
    let mgr = DataManagerBuilder::new()
        .file(String::from("/tmp/data.xlsx"))
        .worksheet(String::from("Sheet1"))
        .colnames_row(0)
        .open(Some(sheet_of(&r)))
        .unwrap();
    assert_eq!(mgr.get_columns(), vec!["id", "10", "true", "1.5", ""]);
}

#[test]
fn header_row_outside_the_sheet_falls_back_to_labels() {
    let mgr = DataManagerBuilder::new()
        .file(String::from("/tmp/data.xlsx"))
        .worksheet(String::from("Sheet1"))
        .colnames_row(9)
        .open(Some(abc_sheet(0)))
        .unwrap();
    assert_eq!(mgr.get_columns(), vec!["A", "B", "C", "D"]);
}

#[test]
fn open_requires_a_file_then_a_worksheet() {
    let err = DataManagerBuilder::new().open(None).unwrap_err();
    assert_eq!(err, DataManagerError::NoFilename);

    let err = DataManagerBuilder::new()
        .file(String::from("/tmp/data.xlsx"))
        .open(None)
        .unwrap_err();
    assert_eq!(err, DataManagerError::NoWorksheet);

    let err = DataManagerBuilder::new()
        .worksheet(String::from("S"))
        .open(None)
        .unwrap_err();
    assert_eq!(err, DataManagerError::NoFilename);
}

#[test]
fn config_hands_out_the_validated_pair() {
    let builder = DataManagerBuilder::new()
        .file(String::from("/tmp/data.xlsx"))
        .worksheet(String::from("S"));
    let (file, worksheet) = builder.config().unwrap();
    assert_eq!(file, "/tmp/data.xlsx");
    assert_eq!(worksheet, "S");
    assert_eq!(
        DataManagerBuilder::new().config().unwrap_err(),
        DataManagerError::NoFilename
    );
}

#[test]
fn from_options_folds_with_last_write_winning() {
    let builder = DataManagerBuilder::from_options(vec![
        UsingOption::File(String::from("/one.xlsx")),
        UsingOption::Worksheet(String::from("S")),
        UsingOption::File(String::from("/two.xlsx")),
        UsingOption::Range(String::from("B2:C5")),
        UsingOption::ColNames(String::from("3")),
    ])
    .unwrap();
    assert_eq!(builder.file, Some(String::from("/two.xlsx")));
    assert_eq!(builder.worksheet, Some(String::from("S")));
    let range = builder.range.unwrap();
    assert_eq!(range.start.x, 2);
    assert_eq!(range.end.y, 5);
    assert_eq!(builder.colnames_row, Some(2));
}

#[test]
fn from_options_rejects_a_malformed_range() {
    let err = DataManagerBuilder::from_options(vec![
        UsingOption::Range(String::from("1A:B2")),
    ])
    .unwrap_err();
    assert_eq!(err, DataManagerError::InvalidRange);
}

#[test]
fn from_options_rejects_a_malformed_colnames_row() {
    let err = DataManagerBuilder::from_options(vec![
        UsingOption::ColNames(String::from("first")),
    ])
    .unwrap_err();
    assert_eq!(err, DataManagerError::InvalidColumnNamesRow);

    let builder = DataManagerBuilder::from_options(vec![
        UsingOption::ColNames(String::from("0")),
    ])
    .unwrap();
    assert_eq!(builder.colnames_row, Some(0));

    let builder = DataManagerBuilder::from_options(vec![
        UsingOption::ColNames(String::from("+7")),
    ])
    .unwrap();
    assert_eq!(builder.colnames_row, Some(6));
}

#[test]
fn schema_declaration_joins_the_columns() {
    let columns = vec![String::from("A"), String::from("B"), String::from("C")];
    assert_eq!(declare_table_sql(&columns), "CREATE TABLE sheet(A,B,C)");
    assert_eq!(
        declare_table_sql(&vec![String::from("only")]),
        "CREATE TABLE sheet(only)"
    );
    assert_eq!(declare_table_sql(&Vec::new()), "CREATE TABLE sheet)");
}

#[test]
fn argument_tokens_flow_into_a_configuration() {
    let args = vec![
        String::from("FILE '/a/b.xlsx'"),
        String::from("SHEET 'S'"),
        String::from("RANGE 'B2:C5'"),
        String::from("HEADER '1'"),
        String::from("UNKNOWN 'ignored'"),
    ];
    let options = xlite::options::collect_options(&args);
    let builder = DataManagerBuilder::from_options(options).unwrap();
    assert_eq!(builder.file, Some(String::from("/a/b.xlsx")));
    assert_eq!(builder.worksheet, Some(String::from("S")));
    let range = builder.range.unwrap();
    assert_eq!((range.start.x, range.start.y), (2, 2));
    assert_eq!((range.end.x, range.end.y), (3, 5));
    assert_eq!(builder.colnames_row, Some(0));
}
