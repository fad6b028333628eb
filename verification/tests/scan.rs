use qbit::aggregate::PerLanguageState;
use qbit::catalog::{Catalog, CatalogError, Language, Severity, VulnerabilityCheck};
use qbit::matcher::{scan_file, scan_lines};
use qbit::pipeline::{analyze_without_validation, SourceFile};
use qbit::text::split_lines;

fn check(
    id: &str,
    language: Language,
    severity: Severity,
    pattern: &str,
    safe_pattern: Option<&str>,
) -> VulnerabilityCheck {
    VulnerabilityCheck {
        id: id.to_string(),
        language,
        title: format!("title of {}", id),
        description: format!("description of {}", id),
        severity,
        pattern: pattern.to_string(),
        safe_pattern: safe_pattern.map(|text| text.to_string()),
        suggested_fix: format!("fix for {}", id),
    }
}

fn source(path: &str, extension: &str, content: &str) -> SourceFile {
    SourceFile {
        path: path.to_string(),
        extension: extension.to_string(),
        content: content.to_string(),
    }
}

#[test]
fn lines_are_split_as_the_standard_library_splits_them() {
    let texts = [
        "",
        "a",
        "a\n",
        "a\nb",
        "a\r\nb\r\n",
        "\n",
        "\n\n",
        "\r\n",
        "a\r",
        "a\r\r\n",
        "foo\r\nbar\n\nbaz\r",
        "one\ntwo\nthree\n",
        "\rx\n\r",
        "ünï\ncödé\r\n",
    ];
    for text in texts {
        let expected: Vec<String> = text.lines().map(|line| line.to_string()).collect();
        assert_eq!(split_lines(text), expected, "for {:?}", text);
    }
}

#[test]
fn split_lines_gives_the_exact_lines() {
    assert_eq!(split_lines("foo\r\nbar\n\nbaz\r"), vec!["foo", "bar", "", "baz\r"]);
    assert_eq!(split_lines(""), Vec::<String>::new());
    assert_eq!(split_lines("\n"), vec![""]);
}

#[test]
fn two_line_file_end_to_end() {
    let checks = vec![
        check("C1", Language::Solidity, Severity::High, r"tx\.origin", None),
        check("C2", Language::Solidity, Severity::Medium, r"selfdestruct", Some(r"onlyOwner")),
    ];
    let sources = vec![source(
        "contracts/a.sol",
        "sol",
        "require(tx.origin == owner);\nfunction close() onlyOwner {}\n",
    )];
    let reports = analyze_without_validation(checks, &sources, "gpt-4").unwrap();
    assert_eq!(reports.len(), 1);
    assert_eq!(reports[0].language, Language::Solidity);
    let report = &reports[0].report;
    assert_eq!(report.vulnerabilities_details.len(), 1);
    let found = &report.vulnerabilities_details[0];
    assert_eq!(found.vulnerability_id, "C1");
    assert_eq!(found.line_number, 1);
    assert_eq!(found.severity, Severity::High);
    assert_eq!(found.status, "-");
    assert_eq!(found.file, "contracts/a.sol");
    assert_eq!(found.title, "title of C1");
    assert_eq!(found.description, "description of C1");
    assert_eq!(found.fix, "fix for C1");
    assert_eq!(found.persistence_of_safe_pattern, "No");
    assert_eq!(found.safe_pattern, None);
    assert_eq!(report.safe_patterns_overview.len(), 1);
    let evidence = &report.safe_patterns_overview[0];
    assert_eq!(evidence.pattern_id, "C2");
    assert_eq!(evidence.title, "title of C2");
    assert_eq!(evidence.safe_pattern, "onlyOwner");
    assert_eq!(evidence.occurrences, 1);
    assert_eq!(evidence.files, vec!["contracts/a.sol"]);
    assert_eq!(report.model, "-");
    assert_eq!(report.security_analysis_summary.checked_files, 1);
    assert_eq!(report.security_analysis_summary.files_list, vec!["contracts/a.sol"]);
    assert_eq!(report.security_analysis_summary.security_issues_found, 1);
}

#[test]
fn a_pattern_that_does_not_compile_is_named() {
    let checks = vec![
        check("OK", Language::Rust, Severity::Low, r"unsafe", None),
        check("BAD", Language::Rust, Severity::Low, r"foo(bar", None),
        check("WORSE", Language::Rust, Severity::Low, r"[", None),
    ];
    match Catalog::load(checks) {
        Err(CatalogError::InvalidPattern { index, check_id }) => {
            assert_eq!(index, 1);
            assert_eq!(check_id, "BAD");
        },
        Ok(_) => panic!("the catalog was accepted"),
    }
}

#[test]
fn a_safe_pattern_that_does_not_compile_counts_as_none() {
    let checks = vec![check("C", Language::Rust, Severity::Low, r"unsafe", Some(r"(guard"))];
    let catalog = Catalog::load(checks).unwrap();
    let scan = scan_file(&catalog, Language::Rust, "unsafe { (guard }\n");
    assert_eq!(scan.findings.len(), 1);
    assert_eq!(scan.safe_hits.len(), 0);
}

#[test]
fn findings_follow_lines_then_catalog_order() {
    let checks = vec![
        check("A", Language::Rust, Severity::Low, r"x", None),
        check("S", Language::Solidity, Severity::Low, r"x", None),
        check("B", Language::Rust, Severity::Critical, r"y", None),
        check("C", Language::Rust, Severity::Info, r"[xy]", None),
    ];
    let catalog = Catalog::load(checks).unwrap();
    let lines = vec!["y".to_string(), "none".to_string(), "xy".to_string()];
    let scan = scan_lines(&catalog, Language::Rust, &lines);
    let found: Vec<(usize, &str)> =
        scan.findings.iter().map(|f| (f.line_number, f.check_id.as_str())).collect();
    assert_eq!(found, vec![(1, "B"), (1, "C"), (3, "A"), (3, "B"), (3, "C")]);
    assert_eq!(scan.findings[0].severity, Severity::Critical);
    assert_eq!(scan.findings[0].suggested_fix, "fix for B");
}

#[test]
fn a_file_without_findings_is_recorded() {
    let catalog = Catalog::load(vec![check("A", Language::Rust, Severity::Low, r"x", None)]).unwrap();
    let mut state = PerLanguageState::new(Language::Rust);
    let scan = scan_file(&catalog, Language::Rust, "nothing here\n");
    state.record_file(&catalog, "src/lib.rs", &scan, "-");
    assert_eq!(state.files(), &vec!["src/lib.rs".to_string()]);
    assert!(state.vulnerabilities().is_empty());
    assert!(state.safe_patterns().is_empty());
}
