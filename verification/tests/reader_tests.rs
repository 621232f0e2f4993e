use calamine::{DataType, Range};
use xlite::cells::CellRange;
use xlite::grid::SheetRange;
use xlite::manager::DataManagerBuilder;
use xlite::reader::DataReader;

const WORDS: [&str; 6] = ["ten", "eleven", "twelve", "thirteen", "fourteen", "fifteen"];

/// Six data rows over columns A-D, the first at absolute sheet row 1:
/// A empty, B the numbers 10-15, C their names, D alternating even/odd.
fn data_sheet() -> SheetRange {
    let mut r: Range<DataType> = Range::new((1, 0), (6, 3));
    for k in 0..6u32 {
        r.set_value((1 + k, 1), DataType::Int(10 + k as i64));
        r.set_value((1 + k, 2), DataType::String(WORDS[k as usize].to_string()));
        let parity = if k % 2 == 0 { "even" } else { "odd" };
        r.set_value((1 + k, 3), DataType::String(parity.to_string()));
    }
    let rows: Vec<Vec<DataType>> = r.rows().map(|row| row.to_vec()).collect();
    SheetRange::from_parts(r.start(), rows).unwrap()
}

fn open_reader(range_text: Option<&str>) -> DataReader {
    let mut builder = DataManagerBuilder::new()
        .file(String::from("/tmp/data.xlsx"))
        .worksheet(String::from("Sheet1"));
    if let Some(text) = range_text {
        builder = builder.range(CellRange::try_parse(text).unwrap());
    }
    builder.open(Some(data_sheet())).unwrap().read()
}

#[test]
fn full_scan_yields_every_row_in_order() {
    let mut reader = open_reader(None);
    for k in 0..6u32 {
        assert!(reader.has_value());
        assert_eq!(reader.get_rowid(), 1 + k);
        assert_eq!(reader.get_value(0), Some(&DataType::Empty));
        assert_eq!(reader.get_value(1), Some(&DataType::Int(10 + k as i64)));
        assert_eq!(
            reader.get_value(2),
            Some(&DataType::String(WORDS[k as usize].to_string()))
        );
        let parity = if k % 2 == 0 { "even" } else { "odd" };
        assert_eq!(reader.get_value(3), Some(&DataType::String(parity.to_string())));
        reader.move_next();
    }
    assert!(!reader.has_value());
}

#[test]
fn windowed_scan_yields_the_projected_rows() {
    let mut r: Range<DataType> = Range::new((0, 0), (5, 3));
    for k in 0..6u32 {
        r.set_value((k, 1), DataType::Int(10 + k as i64));
        r.set_value((k, 2), DataType::String(WORDS[k as usize].to_string()));
    }
    let rows: Vec<Vec<DataType>> = r.rows().map(|row| row.to_vec()).collect();
    let sheet = SheetRange::from_parts(r.start(), rows).unwrap();
    let mut reader = DataManagerBuilder::new()
        .file(String::from("/tmp/data.xlsx"))
        .worksheet(String::from("Sheet1"))
        .range(CellRange::try_parse("B2:C5").unwrap())
        .open(Some(sheet))
        .unwrap()
        .read();
    let mut seen: Vec<(DataType, DataType)> = Vec::new();
    while reader.has_value() {
        let number = reader.get_value(0).cloned().unwrap();
        let name = reader.get_value(1).cloned().unwrap();
        seen.push((number, name));
        reader.move_next();
    }
    let expected: Vec<(DataType, DataType)> = (0..4)
        .map(|k| {
            (
                DataType::Int(11 + k as i64),
                DataType::String(WORDS[k + 1].to_string()),
            )
        })
        .collect();
    assert_eq!(seen, expected);
}

#[test]
fn advance_past_the_end_changes_nothing() {
    let mut reader = open_reader(Some("B2:C5"));
    while reader.has_value() {
        reader.move_next();
    }
    let rowid = reader.get_rowid();
    reader.move_next();
    assert!(!reader.has_value());
    assert_eq!(reader.get_rowid(), rowid);
    reader.move_next();
    reader.move_next();
    assert!(!reader.has_value());
    assert_eq!(reader.get_rowid(), rowid);
}

#[test]
fn reader_over_an_empty_range_starts_exhausted() {
    let reader = DataReader::new(SheetRange::empty());
    assert!(!reader.has_value());
    assert_eq!(reader.get_rowid(), 0);
    assert_eq!(reader.get_value(0), None);
}

#[test]
fn get_value_outside_the_row_is_an_absent_cell() {
    let reader = open_reader(Some("B2:C5"));
    assert!(reader.has_value());
    assert_eq!(reader.get_value(2), None);
    assert_eq!(reader.get_value(usize::MAX), None);
}
