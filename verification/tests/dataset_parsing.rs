use ft_linear_regression::dataset::{
    Dataset, DatasetError, HeaderDiagKind, HeaderError, RowSkip,
};
use ft_linear_regression::text::{split_lines, split_str, str_eq_ci};

fn lines(rows: &[&str]) -> Vec<String> {
    rows.iter().map(|s| s.to_string()).collect()
}

#[test]
fn split_yields_every_piece_in_order() {
    assert_eq!(split_str("a,b,c", ','), vec!["a", "b", "c"]);
    assert_eq!(split_str("", ','), vec![""]);
    assert_eq!(split_str(",x,", ','), vec!["", "x", ""]);
    assert_eq!(split_str("no separator", ','), vec!["no separator"]);
    assert_eq!(split_str("a;b", ';'), vec!["a", "b"]);
}

#[test]
fn case_insensitive_comparison_folds_ascii_only() {
    assert!(str_eq_ci("KM", "km"));
    assert!(str_eq_ci("Price", "pRICE"));
    assert!(!str_eq_ci("km", "kms"));
    assert!(!str_eq_ci("km", "pr"));
}

#[test]
fn header_finds_both_columns_case_insensitively() {
    let (res, diags) = Dataset::parse_header("KM,Price", ',');
    assert_eq!(res, Ok((0, 1)));
    assert!(diags.is_empty());
}

#[test]
fn header_ignores_other_columns_and_keeps_positions() {
    let (res, diags) = Dataset::parse_header("year,price,color,km", ',');
    assert_eq!(res, Ok((3, 1)));
    // the two unknown columns are reported, in order
    assert_eq!(diags.len(), 2);
    assert_eq!(diags[0].column, 0);
    assert_eq!(diags[0].kind, HeaderDiagKind::Unknown);
    assert_eq!(diags[1].column, 2);
    assert_eq!(diags[1].kind, HeaderDiagKind::Unknown);
}

#[test]
fn a_duplicate_required_column_refuses_the_header() {
    let (res, diags) = Dataset::parse_header("km,price,KM", ',');
    assert_eq!(res, Err(HeaderError::Duplicate));
    // the repeat is still reported, with the column first seen
    assert_eq!(diags.len(), 1);
    assert_eq!(diags[0].column, 2);
    assert_eq!(diags[0].kind, HeaderDiagKind::DuplicateKm { first: 0 });

    let (res, diags) = Dataset::parse_header("price,km,Price", ',');
    assert_eq!(res, Err(HeaderError::Duplicate));
    assert_eq!(diags[0].kind, HeaderDiagKind::DuplicatePrice { first: 0 });
}

#[test]
fn a_duplicate_column_refuses_the_whole_dataset() {
    let (outcome, _, row_diags) = Dataset::read_from("km,km,price\n1,2,10\n", ',');
    assert_eq!(outcome.err().unwrap(), DatasetError::Header(HeaderError::Duplicate));
    assert!(row_diags.is_empty());
}

#[test]
fn header_refuses_missing_columns() {
    let (res, _) = Dataset::parse_header("km,cost", ',');
    assert_eq!(res, Err(HeaderError::MissingPrice));
    let (res, _) = Dataset::parse_header("distance,price", ',');
    assert_eq!(res, Err(HeaderError::MissingKm));
    let (res, _) = Dataset::parse_header("a,b", ',');
    assert_eq!(res, Err(HeaderError::MissingBoth));
}

#[test]
fn non_numeric_price_row_is_skipped_and_the_rest_kept() {
    let data = lines(&["1,10", "bad,20", "3,30"]);
    let (dataset, diags) = Dataset::parse_lines(&data, 0, 1, ',');
    assert_eq!(dataset.entries.len(), 2);
    assert_eq!(dataset.entries[0].km.as_str(), "1");
    assert_eq!(dataset.entries[0].price.as_str(), "10");
    assert_eq!(dataset.entries[1].km.as_str(), "3");
    assert_eq!(dataset.entries[1].price.as_str(), "30");
    assert_eq!(diags.len(), 1);
    assert_eq!(diags[0].row, 2);
    assert_eq!(diags[0].why, RowSkip::BadKm);
}

#[test]
fn empty_lines_are_passed_over_silently() {
    let data = lines(&["", "1,10", "", "2,20", ""]);
    let (dataset, diags) = Dataset::parse_lines(&data, 0, 1, ',');
    assert_eq!(dataset.entries.len(), 2);
    assert!(diags.is_empty());
}

#[test]
fn missing_fields_are_reported_by_column() {
    let data = lines(&["1", "1,2,3"]);
    // price lives in column 2
    let (dataset, diags) = Dataset::parse_lines(&data, 0, 2, ',');
    assert_eq!(dataset.entries.len(), 1);
    assert_eq!(diags.len(), 1);
    assert_eq!(diags[0].row, 1);
    assert_eq!(diags[0].why, RowSkip::MissingPrice);
}

#[test]
fn a_row_too_short_for_the_km_column_is_skipped() {
    let data = lines(&["5", "6,7,8"]);
    // km lives in column 2, price in column 0
    let (dataset, diags) = Dataset::parse_lines(&data, 2, 0, ',');
    assert_eq!(dataset.entries.len(), 1);
    assert_eq!(dataset.entries[0].km.as_str(), "8");
    assert_eq!(diags.len(), 1);
    assert_eq!(diags[0].why, RowSkip::MissingKm);
}

#[test]
fn the_lower_column_is_checked_first() {
    // both fields are bad; the km column stands first, so it is reported
    let data = lines(&["x,y"]);
    let (dataset, diags) = Dataset::parse_lines(&data, 0, 1, ',');
    assert!(dataset.entries.is_empty());
    assert_eq!(diags.len(), 1);
    assert_eq!(diags[0].why, RowSkip::BadKm);

    // with the columns the other way round, price is reported
    let (_, diags) = Dataset::parse_lines(&data, 1, 0, ',');
    assert_eq!(diags.len(), 1);
    assert_eq!(diags[0].why, RowSkip::BadPrice);
}

#[test]
fn lines_are_split_as_the_standard_library_splits_them() {
    let texts = [
        "", "a", "a\n", "a\nb", "a\r\nb\r\n", "a\n\nb", "\n", "a\rb\n", "1,10\r",
        "a\r\nb\r", "x\r", "a\r\r\n", "\r\n", "\r",
    ];
    for text in texts {
        let ours = split_lines(text);
        let std_lines: Vec<String> = text.lines().map(|l| l.to_string()).collect();
        assert_eq!(ours, std_lines, "disagreement on {:?}", text);
    }
}

#[test]
fn a_whole_text_is_read_in_one_call() {
    let text = "km,price\n1,10\nbad,20\n3,30\n";
    let (outcome, header_diags, row_diags) = Dataset::read_from(text, ',');
    let (dataset, km, price) = outcome.unwrap();
    assert_eq!((km, price), (0, 1));
    assert!(header_diags.is_empty());
    assert_eq!(dataset.entries.len(), 2);
    assert_eq!(dataset.entries[1].price.as_str(), "30");
    assert_eq!(row_diags.len(), 1);
    assert_eq!(row_diags[0].row, 2);
}

#[test]
fn an_empty_text_is_refused() {
    let (outcome, header_diags, row_diags) = Dataset::read_from("", ',');
    assert_eq!(outcome.err().unwrap(), DatasetError::EmptyFile);
    assert!(header_diags.is_empty());
    assert!(row_diags.is_empty());
}

#[test]
fn a_text_with_a_bad_header_yields_no_rows() {
    let (outcome, _, row_diags) = Dataset::read_from("km,cost\n1,10\n", ',');
    assert_eq!(outcome.err().unwrap(), DatasetError::Header(HeaderError::MissingPrice));
    assert!(row_diags.is_empty());
}

#[test]
fn swapped_columns_are_read_correctly() {
    let data = lines(&["100,5000"]);
    // header said: price first, km second
    let (dataset, diags) = Dataset::parse_lines(&data, 1, 0, ',');
    assert!(diags.is_empty());
    assert_eq!(dataset.entries[0].km.as_str(), "5000");
    assert_eq!(dataset.entries[0].price.as_str(), "100");
}
