use replacer::template::bytes_equal;
use replacer::template::refers_to_group;
use replacer::template::validate_replace;
use replacer::template::InvalidReplaceCapture;

fn groups(names: &[Option<&str>]) -> Vec<Option<Vec<u8>>> {
    names.iter().map(|n| n.map(|s| s.as_bytes().to_vec())).collect()
}

fn three() -> Vec<Option<Vec<u8>>> {
    groups(&[None, Some("word"), None])
}

#[test]
fn template_without_references_is_valid() {
    assert_eq!(validate_replace(b"", &three()), Ok(()));
    assert_eq!(validate_replace(b"plain text", &three()), Ok(()));
}

#[test]
fn numbers_below_the_group_count_are_valid() {
    assert_eq!(validate_replace(b"$0 $1 $2 ${2}", &three()), Ok(()));
    assert_eq!(validate_replace(b"$002", &three()), Ok(()));
}

#[test]
fn number_at_the_group_count_is_invalid() {
    assert_eq!(
        validate_replace(b"$1-$3", &three()),
        Err(InvalidReplaceCapture { start: 3, end: 5 })
    );
    assert_eq!(
        validate_replace(b"${3}", &three()),
        Err(InvalidReplaceCapture { start: 0, end: 4 })
    );
}

#[test]
fn huge_number_is_invalid() {
    assert_eq!(
        validate_replace(b"$99999999999999999999999999999999", &three()),
        Err(InvalidReplaceCapture { start: 0, end: 33 })
    );
    assert_eq!(
        validate_replace(b"$18446744073709551616", &three()),
        Err(InvalidReplaceCapture { start: 0, end: 21 })
    );
}

#[test]
fn names_are_looked_up() {
    assert_eq!(validate_replace(b"$word ${word}", &three()), Ok(()));
    assert_eq!(
        validate_replace(b"$word $words", &three()),
        Err(InvalidReplaceCapture { start: 6, end: 12 })
    );
    assert_eq!(
        validate_replace(b"${wor}", &three()),
        Err(InvalidReplaceCapture { start: 0, end: 6 })
    );
}

#[test]
fn unbraced_name_is_the_longest_run() {
    assert_eq!(
        validate_replace(b"$1a", &three()),
        Err(InvalidReplaceCapture { start: 0, end: 3 })
    );
    assert_eq!(validate_replace(b"$1-a", &three()), Ok(()));
    assert_eq!(validate_replace(b"${1}a", &three()), Ok(()));
    assert_eq!(
        validate_replace(b"$word_", &three()),
        Err(InvalidReplaceCapture { start: 0, end: 6 })
    );
}

#[test]
fn braced_name_may_hold_any_byte_but_the_brace() {
    let known = groups(&[None, Some("a.b c")]);
    assert_eq!(validate_replace(b"${a.b c}", &known), Ok(()));
    assert_eq!(
        validate_replace(b"${}", &known),
        Err(InvalidReplaceCapture { start: 0, end: 3 })
    );
}

#[test]
fn doubled_dollar_is_no_reference() {
    assert_eq!(validate_replace(b"$$9", &three()), Ok(()));
    assert_eq!(validate_replace(b"$$$1", &three()), Ok(()));
    assert_eq!(
        validate_replace(b"$$$9", &three()),
        Err(InvalidReplaceCapture { start: 2, end: 4 })
    );
}

#[test]
fn dollar_that_opens_nothing_is_no_reference() {
    assert_eq!(validate_replace(b"$", &three()), Ok(()));
    assert_eq!(validate_replace(b"cost: $ 5", &three()), Ok(()));
    assert_eq!(validate_replace(b"${9", &three()), Ok(()));
    assert_eq!(validate_replace(b"$-$.", &three()), Ok(()));
}

#[test]
fn first_invalid_reference_is_reported() {
    assert_eq!(
        validate_replace(b"$1 $7 $8", &three()),
        Err(InvalidReplaceCapture { start: 3, end: 5 })
    );
}

#[test]
fn group_lookup() {
    assert!(refers_to_group(b"0", &three()));
    assert!(refers_to_group(b"2", &three()));
    assert!(!refers_to_group(b"3", &three()));
    assert!(refers_to_group(b"word", &three()));
    assert!(!refers_to_group(b"", &three()));
    assert!(!refers_to_group(b"+1", &three()));
    assert!(!refers_to_group(b"0", &groups(&[])));
}

#[test]
fn byte_strings_compare() {
    assert!(bytes_equal(b"", b""));
    assert!(bytes_equal(b"abc", b"abc"));
    assert!(!bytes_equal(b"abc", b"abd"));
    assert!(!bytes_equal(b"abc", b"ab"));
}
