use versort::{ParseError, Version, VersionPart};

#[test]
fn parse_preserves_verbatim_text() {
    let v = Version::parse("1.0-BETA".to_string()).unwrap();
    assert_eq!(v.s, "1.0-BETA");
}

#[test]
fn empty_line_yields_two_default_segments() {
    let v = Version::parse(String::new()).unwrap();
    assert_eq!(v.parts.len(), 2);
    assert!(v.parts[0].n == 0 && v.parts[0].q.is_empty());
    assert!(v.parts[1].n == 0 && v.parts[1].q.is_empty());
}

#[test]
fn mixed_alpha_digit_token_is_qualifier_only() {
    let (q, n) = Version::parse_part("a1b2".to_string()).unwrap();
    assert_eq!(q.n, -1);
    assert_eq!(q.q, "a1b2");
    assert_eq!(n.n, 0);
    assert_eq!(n.q, "");
}

#[test]
fn combination_token_splits_qualifier_and_number() {
    let (q, n) = Version::parse_part("beta1".to_string()).unwrap();
    assert_eq!(q.n, -3);
    assert_eq!(q.q, "beta");
    assert_eq!(n.n, 1);
    assert_eq!(n.q, "");
}

#[test]
fn numeric_token_has_default_qualifier_half() {
    let (q, n) = Version::parse_part("123".to_string()).unwrap();
    assert_eq!(q.n, 0);
    assert_eq!(q.q, "");
    assert_eq!(n.n, 123);
}

#[test]
fn letters_only_token_has_default_numeric_half() {
    let (q, n) = Version::parse_part("abc".to_string()).unwrap();
    assert_eq!(q.n, -1);
    assert_eq!(q.q, "abc");
    assert_eq!(n.n, 0);
    assert_eq!(n.q, "");
}

#[test]
fn leading_zeros_parse_numerically() {
    let (_, n) = Version::parse_part("0001".to_string()).unwrap();
    assert_eq!(n.n, 1);
}

#[test]
fn qualifier_rank_table() {
    assert_eq!(VersionPart::new_qualifier("snapshot".to_string()).n, -5);
    assert_eq!(VersionPart::new_qualifier("alpha".to_string()).n, -4);
    assert_eq!(VersionPart::new_qualifier("beta".to_string()).n, -3);
    assert_eq!(VersionPart::new_qualifier("rc".to_string()).n, -2);
    assert_eq!(VersionPart::new_qualifier("cr".to_string()).n, -2);
    assert_eq!(VersionPart::new_qualifier("foo".to_string()).n, -1);
}

#[test]
fn cr_and_rc_share_a_rank() {
    let (cr, _) = Version::parse_part("cr".to_string()).unwrap();
    let (rc, _) = Version::parse_part("rc".to_string()).unwrap();
    assert_eq!(cr.n, rc.n);
    assert!(cr.q != rc.q);
}

#[test]
fn version_part_constructors() {
    let d = VersionPart::default();
    assert!(d.n == 0 && d.q.is_empty());
    let n = VersionPart::new_number(42);
    assert!(n.n == 42 && n.q.is_empty());
    let q = VersionPart::new_qualifier("rc".to_string());
    assert!(q.n == -2 && q.q == "rc");
}

#[test]
fn numeric_overflow_is_the_only_error() {
    let r = Version::parse("9223372036854775808".to_string());
    assert_eq!(r.err(), Some(ParseError::NumberOverflow));
    let r = Version::parse("1.0.9223372036854775808".to_string());
    assert_eq!(r.err(), Some(ParseError::NumberOverflow));
    let v = Version::parse("9223372036854775807".to_string()).unwrap();
    assert_eq!(v.parts[1].n, i64::MAX);
}

#[test]
fn overflow_in_a_suffix_position() {
    let r = Version::parse_part("build99999999999999999999".to_string());
    assert_eq!(r.err(), Some(ParseError::NumberOverflow));
}

#[test]
fn consecutive_separators_yield_placeholder_pairs() {
    let v = Version::parse("1..2".to_string()).unwrap();
    assert_eq!(v.parts.len(), 6);
    assert!(v.parts[2].n == 0 && v.parts[2].q.is_empty());
    assert!(v.parts[3].n == 0 && v.parts[3].q.is_empty());
}

#[test]
fn all_three_separators_split() {
    let v = Version::parse("1_2=3.4".to_string()).unwrap();
    assert_eq!(v.parts.len(), 8);
    assert_eq!(v.parts[1].n, 1);
    assert_eq!(v.parts[3].n, 2);
    assert_eq!(v.parts[5].n, 3);
    assert_eq!(v.parts[7].n, 4);
}

#[test]
fn hyphen_is_not_a_separator() {
    let v = Version::parse("1-2".to_string()).unwrap();
    assert_eq!(v.parts.len(), 2);
    assert_eq!(v.parts[0].n, -1);
    assert_eq!(v.parts[0].q, "1-2");
    assert_eq!(v.parts[1].n, 0);
}

#[test]
fn parse_lowercases_for_comparison_only() {
    let upper = Version::parse("1.0_BETA".to_string()).unwrap();
    assert_eq!(upper.s, "1.0_BETA");
    assert_eq!(upper.parts[4].n, -3);
    assert_eq!(upper.parts[4].q, "beta");
}
