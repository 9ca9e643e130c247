use verse::csv_dataset::{csv_dataset_error, load_csv_dataset, split_csv_fields, CsvError};
use verse::text::{char_is_whitespace, chars_of, split_chars, trim};

#[test]
fn trim_matches_std() {
    for s in ["", "   ", "  a b  ", "\t\n x\u{a0}", "abc", " \u{3000}é ", "x\u{2028}"] {
        assert_eq!(trim(s), s.trim());
    }
}

#[test]
fn split_matches_std() {
    for s in ["", ",", "a,b", ",a,,b,", "no separator", "é,ü"] {
        let cs = chars_of(s);
        let ours = split_chars(&cs, ',');
        let theirs: Vec<String> = s.split(',').map(|p| p.to_string()).collect();
        assert_eq!(ours, theirs);
    }
}

#[test]
fn csv_fields_are_trimmed() {
    assert_eq!(split_csv_fields("  1.0 , 2 ,3  "), vec!["1.0", "2", "3"]);
    assert_eq!(split_csv_fields(""), vec![""]);
    assert_eq!(split_csv_fields("a,,b"), vec!["a", "", "b"]);
}

fn parse_line(line: &str) -> Vec<Option<u32>> {
    split_csv_fields(line).iter().map(|t| t.parse::<f32>().ok().map(f32::to_bits)).collect()
}

fn load(lines: &[Option<&str>]) -> Result<Vec<(Vec<f32>, f32)>, CsvError> {
    let parsed: Vec<Option<Vec<Option<u32>>>> = lines.iter().map(|l| l.map(parse_line)).collect();
    if let Some(e) = csv_dataset_error(&parsed) {
        return Err(e);
    }
    Ok(load_csv_dataset(&parsed)
        .into_iter()
        .map(|(f, y)| (f.into_iter().map(f32::from_bits).collect(), f32::from_bits(y)))
        .collect())
}

#[test]
fn csv_rows_with_header_and_blank_lines() {
    let rows = load(&[Some("x1,x2,y"), Some(""), Some("1,2,3"), Some("   "), Some("4, 5 ,6"), Some("7")]).unwrap();
    assert_eq!(rows, vec![(vec![1.0, 2.0], 3.0), (vec![4.0, 5.0], 6.0)]);
}

#[test]
fn csv_first_line_data_is_kept() {
    let rows = load(&[Some("1,2"), Some("3,4")]).unwrap();
    assert_eq!(rows, vec![(vec![1.0], 2.0), (vec![3.0], 4.0)]);
}

#[test]
fn csv_header_only_on_first_line() {
    // An unreadable first line still counts as line 0: the header check does
    // not move to the next line.
    assert_eq!(load(&[None, Some("a,b")]), Err(CsvError::BadLabel));
    assert_eq!(load(&[Some("1,2"), Some("a,2")]), Err(CsvError::BadFeature));
    // The label is checked before the features.
    assert_eq!(load(&[Some("1,2"), Some("a,b")]), Err(CsvError::BadLabel));
    assert_eq!(load(&[]), Ok(vec![]));
    // A header after a blank first line is a data line.
    assert_eq!(load(&[Some(""), Some("x,y"), Some("1,2")]), Err(CsvError::BadLabel));
}

#[test]
fn whitespace_matches_std() {
    for u in 0u32..0x11_0000 {
        if let Some(c) = char::from_u32(u) {
            assert_eq!(char_is_whitespace(c), c.is_whitespace(), "{:x}", u);
        }
    }
    assert_eq!(trim(" 4 "), "4");
}
