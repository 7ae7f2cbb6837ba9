use version_compare::comp_op::CompOp;
use version_compare::version::{ParseFailure, Version};
use version_compare::version_part::{classify, parse_number, VersionPart};

/// Valid version strings, with the number of parts each has.
const TEST_VERSIONS: &[(&str, usize)] = &[
    ("1", 1),
    ("1.2", 2),
    ("1.2.3.4", 4),
    ("1.2.3.4.5.6.7.8", 8),
    ("0", 1),
    ("0.0.0", 3),
    ("1.0.0", 3),
    ("0.0.1", 3),
    ("", 0),
    (".", 0),
    ("...", 0),
    ("1.2.dev", 3),
    ("1.2-dev", 2),
    ("1.2.alpha.4", 4),
    ("1.2-alpha-4", 2),
    ("snapshot.1.2", 3),
    ("snapshot-1.2", 2),
];

/// Strings that are not versions.
const TEST_VERSIONS_ERROR: &[(&str, usize)] = &[
    ("abc", 1),
    ("alpha.dev.snapshot", 3),
    ("test. .snapshot", 3),
];

/// Pairs of versions with the outcome of comparing them.
const TEST_VERSION_SETS: &[(&str, &str, CompOp)] = &[
    ("1", "1", CompOp::EQ),
    ("1.0.0.0", "1", CompOp::EQ),
    ("1", "1.0.0.0", CompOp::EQ),
    ("0", "0", CompOp::EQ),
    ("0.0.0", "0", CompOp::EQ),
    ("0", "0.0.0", CompOp::EQ),
    ("", "", CompOp::EQ),
    ("", "0.0", CompOp::EQ),
    ("0.0", "", CompOp::EQ),
    ("", "0.1", CompOp::LT),
    ("0.1", "", CompOp::GT),
    ("1.2.3", "1.2.3", CompOp::EQ),
    ("1.2.3", "1.2.4", CompOp::LT),
    ("1.0.0.1", "1.0.0.0", CompOp::GT),
    ("1.0.0.0", "1.0.0.1", CompOp::LT),
    ("1.2.3.4", "1.2.3", CompOp::GT),
    ("1.2.3", "1.2.3.4", CompOp::LT),
    ("1.2.3.4", "1.2.3.4", CompOp::EQ),
    ("1.2", "1.3.2", CompOp::LT),
    ("1.9", "1.9", CompOp::EQ),
    ("0.3.0.0", "0.3", CompOp::EQ),
    ("2", "1.7.3", CompOp::GT),
    ("1.2.dev", "1.2.3.alpha", CompOp::LT),
    ("1.2.3.dev", "1.2.3.alpha", CompOp::EQ),
    ("1.2.3.dev.1", "1.2.3.alpha", CompOp::GT),
    ("snapshot.1.2", "1.2", CompOp::EQ),
    ("1.a.2", "1.b.2", CompOp::EQ),
];

#[test]
fn from() {
    for version in TEST_VERSIONS {
        assert!(Version::from(version.0).is_some());
    }
    for version in TEST_VERSIONS_ERROR {
        assert!(Version::from(version.0).is_none());
    }
}

#[test]
fn as_str() {
    for version in TEST_VERSIONS {
        assert_eq!(Version::from(version.0).unwrap().as_str(), version.0);
    }
}

#[test]
fn part() {
    for version in TEST_VERSIONS {
        let ver = Version::from(version.0).unwrap();
        for i in 0..version.1 {
            assert_eq!(ver.part(i), Ok(&ver.parts()[i]));
        }
        assert!(ver.part(version.1).is_err());
    }
}

#[test]
fn parts() {
    for version in TEST_VERSIONS {
        assert_eq!(Version::from(version.0).unwrap().parts().len(), version.1);
    }
}

#[test]
fn part_count() {
    for version in TEST_VERSIONS {
        assert_eq!(Version::from(version.0).unwrap().part_count(), version.1);
    }
}

#[test]
fn compare() {
    for entry in TEST_VERSION_SETS {
        let version_a = Version::from(entry.0).unwrap();
        let version_b = Version::from(entry.1).unwrap();
        assert_eq!(version_a.compare(&version_b), entry.2.clone());
    }
}

#[test]
fn compare_to() {
    for entry in TEST_VERSION_SETS {
        let version_a = Version::from(entry.0).unwrap();
        let version_b = Version::from(entry.1).unwrap();
        assert!(version_a.compare_to(&version_b, &entry.2));
        assert_eq!(version_a.compare_to(&version_b, &entry.2.invert()), false);
    }
    assert!(Version::from("1.2")
        .unwrap()
        .compare_to(&Version::from("1.2.3").unwrap(), &CompOp::NE));
}

#[test]
fn parse_keeps_raw_text_verbatim() {
    for s in ["1.2.3", "..1..2..", " 1 .2", "1.2-dev", ""] {
        assert_eq!(Version::parse(s).unwrap().as_str(), s);
    }
}

#[test]
fn parts_in_order() {
    let v = Version::from("1.2.3").unwrap();
    assert_eq!(v.part(0), Ok(&VersionPart::Number(1)));
    assert_eq!(v.part(1), Ok(&VersionPart::Number(2)));
    assert_eq!(v.part(2), Ok(&VersionPart::Number(3)));
    assert_eq!(v.part(3), Err(()));
    let w = Version::from("1..beta.2.").unwrap();
    assert_eq!(
        w.parts(),
        &vec![
            VersionPart::Number(1),
            VersionPart::Text("beta".to_string()),
            VersionPart::Number(2)
        ]
    );
}

#[test]
fn compare_is_antisymmetric_on_samples() {
    for entry in TEST_VERSION_SETS {
        let a = Version::from(entry.0).unwrap();
        let b = Version::from(entry.1).unwrap();
        assert_eq!(a.compare(&b), b.compare(&a).flip());
    }
}

#[test]
fn compare_is_reflexive_on_samples() {
    for version in TEST_VERSIONS {
        let a = Version::from(version.0).unwrap();
        assert_eq!(a.compare(&a), CompOp::EQ);
    }
}

#[test]
fn trailing_zeros_compare_equal() {
    let a = Version::from("0.3.0.0").unwrap();
    let b = Version::from("0.3").unwrap();
    assert_eq!(a.compare(&b), CompOp::EQ);
}

#[test]
fn longer_or_larger_version_wins() {
    let a = Version::from("2").unwrap();
    let b = Version::from("1.7.3").unwrap();
    assert_eq!(a.compare(&b), CompOp::GT);
    let c = Version::from("1.2").unwrap();
    let d = Version::from("1.3.2").unwrap();
    assert_eq!(c.compare(&d), CompOp::LT);
    let e = Version::from("1.2.1").unwrap();
    assert_eq!(e.compare(&c), CompOp::GT);
}

#[test]
fn text_parts_are_transparent() {
    let a = Version::from("1.a.2").unwrap();
    let b = Version::from("1.b.2").unwrap();
    assert_eq!(a.compare(&b), CompOp::EQ);
    let c = Version::from("1.alpha").unwrap();
    let d = Version::from("1.beta").unwrap();
    assert_eq!(c.compare(&d), CompOp::EQ);
}

#[test]
fn invalid_and_empty_input() {
    assert_eq!(Version::parse("abc").err(), Some(ParseFailure::NoNumericSegment));
    let empty = Version::parse("").unwrap();
    assert_eq!(empty.part_count(), 0);
    assert_eq!(Version::parse("...").unwrap().part_count(), 0);
}

#[test]
fn compare_to_follows_the_table() {
    let all = [CompOp::EQ, CompOp::NE, CompOp::LT, CompOp::LE, CompOp::GE, CompOp::GT];
    let a = Version::from("1.2").unwrap();
    let b = Version::from("1.3").unwrap();
    let expect_eq = [true, false, false, true, true, false];
    let expect_lt = [false, true, true, true, false, false];
    let expect_gt = [false, true, false, false, true, true];
    for k in 0..6 {
        assert_eq!(a.compare_to(&a, &all[k]), expect_eq[k]);
        assert_eq!(a.compare_to(&b, &all[k]), expect_lt[k]);
        assert_eq!(b.compare_to(&a, &all[k]), expect_gt[k]);
        assert_eq!(a.compare_to(&b, &all[k].invert()), !a.compare_to(&b, &all[k]));
        assert_eq!(a.compare_to(&a, &all[k].invert()), !a.compare_to(&a, &all[k]));
    }
}

#[test]
fn negative_numbers_and_zero_padding() {
    let a = Version::from("1.-1").unwrap();
    let b = Version::from("1").unwrap();
    assert_eq!(a.part(1), Ok(&VersionPart::Number(-1)));
    assert_eq!(a.compare(&b), CompOp::GT);
    assert_eq!(b.compare(&a), CompOp::LT);
    let c = Version::from("1.-2").unwrap();
    assert_eq!(c.compare(&a), CompOp::LT);
}

#[test]
fn number_bounds() {
    assert_eq!(parse_number("2147483647"), Some(2147483647));
    assert_eq!(parse_number("-2147483648"), Some(-2147483648));
    assert_eq!(parse_number("2147483648"), None);
    assert_eq!(parse_number("-2147483649"), None);
    assert_eq!(parse_number("99999999999999999999"), None);
    assert_eq!(parse_number("007"), Some(7));
    assert_eq!(parse_number("-0"), Some(0));
    assert_eq!(parse_number("-"), None);
    assert_eq!(parse_number(""), None);
    assert_eq!(parse_number("1a"), None);
    assert_eq!(parse_number("12é"), None);
}

#[test]
fn classify_tokens() {
    assert_eq!(classify("42"), VersionPart::Number(42));
    assert_eq!(classify("4x2"), VersionPart::Text("4x2".to_string()));
    assert_eq!(classify("3000000000"), VersionPart::Text("3000000000".to_string()));
    let v = Version::from("3000000000.1").unwrap();
    assert_eq!(v.part_count(), 2);
    assert_eq!(v.compare(&Version::from("1").unwrap()), CompOp::EQ);
}

#[test]
fn factor_of_comparison_outcome() {
    let a = Version::from("1.2.3").unwrap();
    let b = Version::from("1.3").unwrap();
    assert_eq!(a.compare(&b).factor(), -1);
    assert_eq!(10 * b.compare(&a).factor(), 10);
}

#[test]
fn compare_chains_without_negative_numbers() {
    let a = Version::from("1.2").unwrap();
    let b = Version::from("1.2.0.1").unwrap();
    let c = Version::from("1.3").unwrap();
    assert_eq!(a.compare(&b), CompOp::LT);
    assert_eq!(b.compare(&c), CompOp::LT);
    assert_eq!(a.compare(&c), CompOp::LT);
}

#[test]
fn negative_numbers_do_not_chain() {
    let a = Version::from("1").unwrap();
    let b = Version::from("1.-1").unwrap();
    let c = Version::from("1.0").unwrap();
    assert_eq!(a.compare(&b), CompOp::LT);
    assert_eq!(b.compare(&c), CompOp::LT);
    assert_eq!(a.compare(&c), CompOp::EQ);
}

#[test]
fn only_a_minus_sign_is_accepted() {
    assert_eq!(parse_number("+1"), None);
    assert_eq!(classify("+1"), VersionPart::Text("+1".to_string()));
}
