use qbit::catalog::{Catalog, Language, Severity, VulnerabilityCheck};

fn check(id: &str, language: Language, pattern: &str, safe_pattern: Option<&str>) -> VulnerabilityCheck {
    VulnerabilityCheck {
        id: id.to_string(),
        language,
        title: format!("title of {}", id),
        description: format!("description of {}", id),
        severity: Severity::Medium,
        pattern: pattern.to_string(),
        safe_pattern: safe_pattern.map(|text| text.to_string()),
        suggested_fix: format!("fix for {}", id),
    }
}

#[test]
fn language_is_told_by_extension() {
    assert_eq!(Language::from_extension("rs"), Some(Language::Rust));
    assert_eq!(Language::from_extension("sol"), Some(Language::Solidity));
    assert_eq!(Language::from_extension(""), None);
    assert_eq!(Language::from_extension("RS"), None);
    assert_eq!(Language::from_extension("rs "), None);
    assert_eq!(Language::from_extension("solx"), None);
    assert_eq!(Language::from_extension("txt"), None);
}

#[test]
fn languages_have_their_names() {
    assert_eq!(Language::Rust.name(), "Rust");
    assert_eq!(Language::Solidity.name(), "Solidity-Ethereum");
}

#[test]
fn severities_have_their_labels() {
    assert_eq!(Severity::Critical.label(), "Critical");
    assert_eq!(Severity::High.label(), "High");
    assert_eq!(Severity::Medium.label(), "Medium");
    assert_eq!(Severity::Low.label(), "Low");
    assert_eq!(Severity::Info.label(), "Info");
}

#[test]
fn critical_and_high_are_urgent() {
    assert!(Severity::Critical.urgent());
    assert!(Severity::High.urgent());
    assert!(!Severity::Medium.urgent());
    assert!(!Severity::Low.urgent());
    assert!(!Severity::Info.urgent());
}

#[test]
fn an_empty_catalog_is_accepted() {
    let catalog = Catalog::load(Vec::new()).unwrap();
    assert_eq!(catalog.len(), 0);
    assert!(catalog.lookup("anything").is_none());
}

#[test]
fn a_catalog_keeps_its_checks_in_order() {
    let checks = vec![
        check("A", Language::Rust, "a", None),
        check("B", Language::Solidity, "b", Some("c")),
    ];
    let catalog = Catalog::load(checks.clone()).unwrap();
    assert_eq!(catalog.len(), 2);
    assert_eq!(catalog.check(0), &checks[0]);
    assert_eq!(catalog.check(1), &checks[1]);
}

#[test]
fn lookup_finds_the_first_check_with_the_identifier() {
    let mut second = check("A", Language::Solidity, "other", None);
    second.title = "the second".to_string();
    let checks = vec![check("A", Language::Rust, "a", None), second, check("B", Language::Rust, "b", None)];
    let catalog = Catalog::load(checks).unwrap();
    assert_eq!(catalog.lookup("A").unwrap().title, "title of A");
    assert_eq!(catalog.lookup("B").unwrap().pattern, "b");
    assert!(catalog.lookup("C").is_none());
    assert!(catalog.lookup("a").is_none());
}

#[test]
fn patterns_are_regular_expressions() {
    let catalog = Catalog::load(vec![
        check("DIGITS", Language::Rust, r"^\s*let\s+\w+\s*=\s*\d+;", Some(r"\bconst\b")),
        check("PLAIN", Language::Rust, "unsafe", None),
    ])
    .unwrap();
    assert!(catalog.pattern_matches(0, "    let total = 42;"));
    assert!(!catalog.pattern_matches(0, "let total = x;"));
    assert!(!catalog.pattern_matches(0, r"^\s*let\s+\w+\s*=\s*\d+;"));
    assert!(catalog.pattern_matches(1, "an unsafe block"));
    assert!(!catalog.pattern_matches(1, "a safe block"));
    assert!(!catalog.pattern_matches(1, ""));
    assert!(catalog.safe_pattern_matches(0, "a const here"));
    assert!(!catalog.safe_pattern_matches(0, "constant"));
    assert!(!catalog.safe_pattern_matches(1, "unsafe"));
}

#[test]
fn a_pattern_that_grows_too_big_is_refused() {
    let checks = vec![check("BIG", Language::Rust, r"\w{1000}", None)];
    assert!(Catalog::load(checks).is_err());
}

#[test]
fn a_bad_safe_pattern_does_not_keep_a_catalog_from_loading() {
    let checks = vec![check("A", Language::Rust, "a", Some("(unclosed"))];
    let catalog = Catalog::load(checks).unwrap();
    assert!(catalog.pattern_matches(0, "a"));
    assert!(!catalog.safe_pattern_matches(0, "(unclosed"));
}
