use whatwg_datetime::{collect_ascii_digits, skip_ascii_whitespace};

#[test]
fn utils_test_skip_ascii_whitespace_empty() {
    let mut position = 0usize;
    assert_eq!(skip_ascii_whitespace("", &mut position), String::new());
}

#[test]
fn utils_test_skip_ascii_whitespace() {
    let mut position = 0usize;
    let s = "   test";
    let skip = skip_ascii_whitespace(s, &mut position);
    assert_eq!(skip, "   ");
    assert_eq!(position, 3);
    assert_eq!(&s[position..], "test");
}

#[test]
fn duration_test_skip_ascii_whitespace_empty() {
    let mut position = 0usize;
    assert_eq!(skip_ascii_whitespace("", &mut position), String::new());
}

#[test]
fn duration_test_skip_ascii_whitespace() {
    let mut position = 0usize;
    let s = "   test";
    let skip = skip_ascii_whitespace(s, &mut position);
    assert_eq!(skip, "   ");
    assert_eq!(position, 3);
    assert_eq!(&s[position..], "test");
}

#[test]
fn collect_digits_counts_code_points() {
    let s = "é12ab";
    let mut position = 1usize;
    assert_eq!(collect_ascii_digits(s, &mut position), "12");
    assert_eq!(position, 3);
    let mut end = 9usize;
    assert_eq!(collect_ascii_digits(s, &mut end), "");
    assert_eq!(end, 9);
}
