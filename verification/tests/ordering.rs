use core::cmp::Ordering;
use versort::Version;

fn v(s: &str) -> Version {
    Version::parse(s.to_string()).unwrap()
}

#[test]
fn numeric_segments_compare_numerically() {
    assert_eq!(v("1.2").cmp(&v("1.10")), Ordering::Less);
    assert_eq!(v("1.10").cmp(&v("1.2")), Ordering::Greater);
    assert_eq!(v("2").cmp(&v("10")), Ordering::Less);
}

#[test]
fn qualifier_ranking_chain() {
    assert_eq!(v("1.0-alpha").cmp(&v("1.0-beta")), Ordering::Less);
    assert_eq!(v("1.0-beta").cmp(&v("1.0-rc")), Ordering::Less);
    assert_eq!(v("1.0-rc").cmp(&v("1.0")), Ordering::Less);
}

#[test]
fn cr_before_rc_by_label_tie_break() {
    assert_eq!(v("1.0-cr").cmp(&v("1.0-rc")), Ordering::Less);
    assert!(!v("1.0-cr").eq(&v("1.0-rc")));
}

#[test]
fn named_qualifier_ladder_with_separators() {
    assert_eq!(v("1_snapshot").cmp(&v("1_alpha")), Ordering::Less);
    assert_eq!(v("1_alpha").cmp(&v("1_beta")), Ordering::Less);
    assert_eq!(v("1_beta").cmp(&v("1_rc")), Ordering::Less);
    assert_eq!(v("1_rc").cmp(&v("1_zzz")), Ordering::Less);
    assert_eq!(v("1_zzz").cmp(&v("1")), Ordering::Less);
}

#[test]
fn case_insensitive_ordering_verbatim_output() {
    let upper = v("1.0-BETA");
    let lower = v("1.0-beta");
    assert!(upper.eq(&lower));
    assert_eq!(upper.cmp(&lower), Ordering::Equal);
    assert_eq!(upper.s, "1.0-BETA");
    assert_eq!(lower.s, "1.0-beta");
}

#[test]
fn uppercase_named_qualifier_ranks_like_lowercase() {
    assert!(v("1_ALPHA").eq(&v("1_alpha")));
    assert_eq!(v("1_ALPHA").cmp(&v("1_beta")), Ordering::Less);
}

#[test]
fn shorter_sequence_loses_the_final_tie_break() {
    assert_eq!(v("1.0").cmp(&v("1.0.0")), Ordering::Less);
    assert_eq!(v("1.0.0").cmp(&v("1.0")), Ordering::Greater);
    assert_eq!(v("1.0").cmp(&v("1.0.")), Ordering::Less);
}

#[test]
fn placeholder_pair_equals_explicit_zero() {
    assert!(v("1..2").eq(&v("1.0.2")));
    assert_eq!(v("1..2").cmp(&v("1.0.2")), Ordering::Equal);
}

#[test]
fn equality_ignores_verbatim_text() {
    let a = v("1.0");
    let b = v("1=0");
    assert!(a.eq(&b));
    assert!(a.s != b.s);
}

#[test]
fn comparison_is_antisymmetric_on_samples() {
    let samples = ["", "1", "1.0", "1.0-beta", "a1b2", "2_rc", "1.10"];
    for x in samples.iter() {
        for y in samples.iter() {
            let xy = v(x).cmp(&v(y));
            let yx = v(y).cmp(&v(x));
            match xy {
                Ordering::Less => assert_eq!(yx, Ordering::Greater),
                Ordering::Equal => assert_eq!(yx, Ordering::Equal),
                Ordering::Greater => assert_eq!(yx, Ordering::Less),
            }
        }
    }
}

#[test]
fn unknown_qualifier_ranks_below_numbers() {
    assert_eq!(v("1.x").cmp(&v("1.0")), Ordering::Less);
    assert_eq!(v("1.snapshot").cmp(&v("1.x")), Ordering::Less);
}
