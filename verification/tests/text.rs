use rein::text::{collect_chars, parse_i64_span, parse_usize_span, split_whitespace, starts_with};

#[test]
fn numbers_and_words() {
    let s = collect_chars(" 12  -7 +3 x 99999999999999999999 ");
    let spans = split_whitespace(&s, 0, s.len());
    assert_eq!(spans.len(), 5);
    let (a, b) = spans[0];
    assert_eq!(parse_i64_span(&s, a, b), Some(12));
    assert_eq!(parse_usize_span(&s, a, b), Some(12));
    let (a, b) = spans[1];
    assert_eq!(parse_i64_span(&s, a, b), Some(-7));
    assert_eq!(parse_usize_span(&s, a, b), None);
    let (a, b) = spans[2];
    assert_eq!(parse_usize_span(&s, a, b), Some(3));
    let (a, b) = spans[3];
    assert_eq!(parse_i64_span(&s, a, b), None);
    let (a, b) = spans[4];
    assert_eq!(parse_i64_span(&s, a, b), None);
    assert_eq!(parse_usize_span(&s, a, b), None);
    assert!(starts_with(&s, &[' ', '1']));
    assert!(!starts_with(&s, &['1']));
}
