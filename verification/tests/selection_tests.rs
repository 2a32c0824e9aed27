use meteogram::errors::Error;
use meteogram::selection::select_index;

#[test]
fn valid_index_is_accepted() {
    assert_eq!(select_index("0", 3).unwrap(), 0);
    assert_eq!(select_index("2", 3).unwrap(), 2);
}

#[test]
fn surrounding_whitespace_is_trimmed() {
    assert_eq!(select_index(" 1 \n", 3).unwrap(), 1);
    assert_eq!(select_index("\t2\r\n", 3).unwrap(), 2);
}

#[test]
fn leading_plus_is_allowed() {
    assert_eq!(select_index("+1", 3).unwrap(), 1);
}

#[test]
fn index_equal_to_count_is_rejected() {
    assert!(matches!(select_index("3", 3), Err(Error::InvalidSelection)));
}

#[test]
fn index_above_count_is_rejected() {
    assert!(matches!(select_index("7", 3), Err(Error::InvalidSelection)));
}

#[test]
fn negative_token_is_rejected() {
    assert!(matches!(select_index("-1", 3), Err(Error::InvalidSelection)));
}

#[test]
fn non_numeric_token_is_rejected() {
    assert!(matches!(select_index("abc", 3), Err(Error::InvalidSelection)));
    assert!(matches!(select_index("1a", 3), Err(Error::InvalidSelection)));
    assert!(matches!(select_index("", 3), Err(Error::InvalidSelection)));
    assert!(matches!(select_index("  ", 3), Err(Error::InvalidSelection)));
    assert!(matches!(select_index("+", 3), Err(Error::InvalidSelection)));
}

#[test]
fn huge_token_is_rejected() {
    assert!(matches!(
        select_index("99999999999999999999999999", 3),
        Err(Error::InvalidSelection)
    ));
}

#[test]
fn zero_candidates_accept_no_index() {
    assert!(matches!(select_index("0", 0), Err(Error::InvalidSelection)));
}
