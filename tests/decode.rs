use frame_ingest::decode::{is_white, keep_parsed, split_fields};

fn parse_samples(text: &str) -> Vec<f32> {
    let parsed: Vec<Option<f32>> = split_fields(text)
        .iter()
        .map(|t| t.parse::<f32>().ok())
        .collect();
    keep_parsed(&parsed)
}

#[test]
fn test_parse_csv() {
    let csv_data = "1.0,2.0,3.0,4.0";
    let parsed = parse_samples(csv_data);
    assert_eq!(parsed, vec![1.0, 2.0, 3.0, 4.0]);
}

#[test]
fn malformed_tokens_are_dropped_in_order() {
    assert_eq!(parse_samples("1.0,2.0, ,abc,4.0"), vec![1.0, 2.0, 4.0]);
}

#[test]
fn split_trims_each_field() {
    let f = split_fields(" 1.5 ,\t2 ,x,,  ");
    assert_eq!(f, vec!["1.5".to_string(), "2".to_string(), "x".to_string(), String::new(), String::new()]);
}

#[test]
fn split_of_empty_text_is_one_empty_field() {
    assert_eq!(split_fields(""), vec![String::new()]);
    assert_eq!(parse_samples(""), Vec::<f32>::new());
}

#[test]
fn split_keeps_inner_spaces_and_unicode_white_space() {
    let f = split_fields("\u{3000}a b\u{a0},é");
    assert_eq!(f, vec!["a b".to_string(), "é".to_string()]);
}

#[test]
fn keep_parsed_drops_none() {
    let v = vec![None, Some(3u32), None, Some(1), Some(2), None];
    assert_eq!(keep_parsed(&v), vec![3, 1, 2]);
    let empty: Vec<Option<u32>> = vec![];
    assert_eq!(keep_parsed(&empty), Vec::<u32>::new());
}

#[test]
fn white_space_matches_std() {
    for c in ['\t', '\n', '\r', ' ', '\u{85}', '\u{a0}', '\u{2000}', '\u{3000}', 'a', ',', '0', '\u{200b}'] {
        assert_eq!(is_white(c), c.is_whitespace());
    }
}

#[test]
fn kept_values_never_exceed_commas_plus_one() {
    let text = "1,x,,2.5, 3 ";
    let fields = split_fields(text);
    assert_eq!(fields.len(), text.matches(',').count() + 1);
    let values = parse_samples(text);
    assert_eq!(values, vec![1.0, 2.5, 3.0]);
    assert!(values.len() <= fields.len());
}
