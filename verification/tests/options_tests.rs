use xlite::options::{collect_options, parse_colnames_option, parse_filename_option, parse_option, parse_range_option, parse_worksheet_option, UsingOption};

#[test]
fn parse_file_option_produces_filename() {
    let (output, option) = parse_filename_option("FILE '/path/to/file.xls'").unwrap();

    assert_eq!(output, "");
    match option {
        UsingOption::File(filename) => assert_eq!(filename, "/path/to/file.xls"),
        _ => panic!("Expected file option"),
    }
}

#[test]
fn parse_filename_option_produces_filename() {
    let (output, option) = parse_filename_option("FILENAME '/path/to/file.xls'").unwrap();

    assert_eq!(output, "");
    match option {
        UsingOption::File(filename) => assert_eq!(filename, "/path/to/file.xls"),
        _ => panic!("Expected file option"),
    }
}

#[test]
fn parse_worksheet_option_produces_sheet_name() {
    let (output, option) = parse_worksheet_option("WORKSHEET 'Sheet 1'").unwrap();

    assert_eq!(output, "");
    match option {
        UsingOption::Worksheet(sheet_name) => assert_eq!(sheet_name, "Sheet 1"),
        _ => panic!("Expected worksheet option"),
    }
}

#[test]
fn parse_sheet_option_produces_sheet_name() {
    let (output, option) = parse_worksheet_option("SHEET 'Sheet 1'").unwrap();

    assert_eq!(output, "");
    match option {
        UsingOption::Worksheet(sheet_name) => assert_eq!(sheet_name, "Sheet 1"),
        _ => panic!("Expected worksheet option"),
    }
}

#[test]
fn parse_range_option_produces_range() {
    let (output, option) = parse_range_option("RANGE 'A1:ZZ99'").unwrap();

    assert_eq!(output, "");
    match option {
        UsingOption::Range(range) => {
            assert_eq!(range, "A1:ZZ99");
        },
        _ => panic!("Expected range option"),
    }
}

#[test]
fn file_and_filename_keywords_agree() {
    let a = parse_option("FILE '/a/b.xlsx'").unwrap().1;
    let b = parse_option("FILENAME '/a/b.xlsx'").unwrap().1;
    assert_eq!(a, b);
    assert_eq!(a, UsingOption::File(String::from("/a/b.xlsx")));
}

#[test]
fn unrecognized_token_yields_no_option_and_no_failure() {
    assert!(parse_option("FOO 'bar'").is_none());

    let args = vec![
        String::from("FILE '/a/b.xlsx'"),
        String::from("FOO 'bar'"),
        String::from("SHEET 'S'"),
    ];
    let options = collect_options(&args);
    assert_eq!(options.len(), 2);
    assert_eq!(options[0], UsingOption::File(String::from("/a/b.xlsx")));
    assert_eq!(options[1], UsingOption::Worksheet(String::from("S")));
}

#[test]
fn keywords_are_case_insensitive_and_whitespace_tolerant() {
    let (rest, option) = parse_option("  file    '/tmp/x.ods'   ").unwrap();
    assert_eq!(rest, "");
    assert_eq!(option, UsingOption::File(String::from("/tmp/x.ods")));

    let (_, option) = parse_option("WoRkShEeT 'Data'").unwrap();
    assert_eq!(option, UsingOption::Worksheet(String::from("Data")));
}

#[test]
fn quoted_value_keeps_escaped_quotes_and_may_be_empty() {
    let (rest, option) = parse_worksheet_option("SHEET 'a\\'b'").unwrap();
    assert_eq!(rest, "");
    assert_eq!(option, UsingOption::Worksheet(String::from("a\\'b")));

    let (_, option) = parse_worksheet_option("SHEET ''").unwrap();
    assert_eq!(option, UsingOption::Worksheet(String::new()));
}

#[test]
fn malformed_quoting_yields_no_option() {
    assert!(parse_filename_option("FILE '/unterminated").is_none());
    assert!(parse_filename_option("FILE '/bad\\escape'").is_none());
    assert!(parse_filename_option("FILE'/no/space'").is_none());
}

#[test]
fn range_option_requires_the_range_shape() {
    assert!(parse_range_option("RANGE 'A1Z9'").is_none());
    assert!(parse_range_option("RANGE '1A:Z9'").is_none());
    assert!(parse_range_option("RANGE 'A1:'").is_none());
    let (_, option) = parse_range_option("range 'b2:c'").unwrap();
    assert_eq!(option, UsingOption::Range(String::from("b2:c")));
}

#[test]
fn colnames_option_recognizes_both_keywords() {
    let (_, option) = parse_colnames_option("COLUMNNAMES '1'").unwrap();
    assert_eq!(option, UsingOption::ColNames(String::from("1")));
    let (_, option) = parse_colnames_option("HEADER '2'").unwrap();
    assert_eq!(option, UsingOption::ColNames(String::from("2")));
}

#[test]
fn parse_option_keeps_the_unconsumed_rest() {
    let (rest, option) = parse_option("FILE '/a' trailing").unwrap();
    assert_eq!(option, UsingOption::File(String::from("/a")));
    assert_eq!(rest, "trailing");
}
