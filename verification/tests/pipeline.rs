use qbit::catalog::{CatalogError, Language, Severity, VulnerabilityCheck};
use qbit::pipeline::{analyze_without_validation, scan_sources, LanguageReport, SourceFile};
use qbit::catalog::Catalog;

fn check(
    id: &str,
    language: Language,
    severity: Severity,
    pattern: &str,
    safe_pattern: Option<&str>,
) -> VulnerabilityCheck {
    VulnerabilityCheck {
        id: id.to_string(),
        language,
        title: format!("title of {}", id),
        description: format!("description of {}", id),
        severity,
        pattern: pattern.to_string(),
        safe_pattern: safe_pattern.map(|text| text.to_string()),
        suggested_fix: format!("fix for {}", id),
    }
}

fn checks() -> Vec<VulnerabilityCheck> {
    vec![
        check("ORIGIN", Language::Solidity, Severity::High, r"tx\.origin", Some(r"msg\.sender")),
        check("KILL", Language::Solidity, Severity::Critical, r"selfdestruct", Some(r"onlyOwner")),
        check("UNSAFE", Language::Rust, Severity::Medium, r"\bunsafe\b", Some(r"// SAFETY")),
        check("UNWRAP", Language::Rust, Severity::Info, r"\.unwrap\(\)", None),
    ]
}

fn source(path: &str, extension: &str, content: &str) -> SourceFile {
    SourceFile {
        path: path.to_string(),
        extension: extension.to_string(),
        content: content.to_string(),
    }
}

fn sources() -> Vec<SourceFile> {
    vec![
        source("a.sol", "sol", "tx.origin == msg.sender\nselfdestruct(x);\nmsg.sender\n"),
        source("notes.txt", "txt", "tx.origin selfdestruct unsafe"),
        source("b.rs", "rs", "unsafe { x.unwrap() } // SAFETY: fine\n// SAFETY\n"),
        source("c.sol", "sol", "function f() onlyOwner {}\r\nmsg.sender\r\n"),
        source("d.rs", "rs", ""),
        source("Makefile", "", "unsafe"),
        source("a.sol", "sol", "msg.sender\n"),
    ]
}

fn report_for(reports: &[LanguageReport], language: Language) -> &LanguageReport {
    reports.iter().find(|entry| entry.language == language).unwrap()
}

#[test]
fn each_scanned_file_is_counted_once() {
    let reports = analyze_without_validation(checks(), &sources(), "gpt-4").unwrap();
    assert_eq!(reports.len(), 2);
    assert_eq!(reports[0].language, Language::Solidity);
    assert_eq!(reports[1].language, Language::Rust);
    let solidity = &reports[0].report.security_analysis_summary;
    assert_eq!(solidity.files_list, vec!["a.sol", "c.sol"]);
    assert_eq!(solidity.checked_files, 2);
    let rust = &reports[1].report.security_analysis_summary;
    assert_eq!(rust.files_list, vec!["b.rs", "d.rs"]);
    assert_eq!(rust.checked_files, 2);
}

#[test]
fn files_of_no_language_are_passed_over() {
    let sources = vec![source("notes.txt", "txt", "unsafe"), source("x", "", "tx.origin")];
    let reports = analyze_without_validation(checks(), &sources, "gpt-4").unwrap();
    assert!(reports.is_empty());
}

#[test]
fn occurrences_are_the_matching_lines_of_all_files() {
    let reports = analyze_without_validation(checks(), &sources(), "gpt-4").unwrap();
    let solidity = &report_for(&reports, Language::Solidity).report;
    let overview: Vec<(&str, usize, Vec<&str>)> = solidity
        .safe_patterns_overview
        .iter()
        .map(|detail| {
            (
                detail.pattern_id.as_str(),
                detail.occurrences,
                detail.files.iter().map(|file| file.as_str()).collect(),
            )
        })
        .collect();
    assert_eq!(
        overview,
        vec![("ORIGIN", 4, vec!["a.sol", "c.sol"]), ("KILL", 1, vec!["c.sol"])]
    );
    let rust = &report_for(&reports, Language::Rust).report;
    assert_eq!(rust.safe_patterns_overview.len(), 1);
    assert_eq!(rust.safe_patterns_overview[0].pattern_id, "UNSAFE");
    assert_eq!(rust.safe_patterns_overview[0].occurrences, 2);
    assert_eq!(rust.safe_patterns_overview[0].files, vec!["b.rs"]);
}

#[test]
fn evidence_names_no_file_twice() {
    let reports = analyze_without_validation(checks(), &sources(), "gpt-4").unwrap();
    for entry in &reports {
        for detail in &entry.report.safe_patterns_overview {
            let mut files = detail.files.clone();
            files.sort();
            files.dedup();
            assert_eq!(files.len(), detail.files.len());
        }
    }
}

#[test]
fn without_validation_everything_is_marked_as_skipped() {
    for model in ["gpt-4", "gpt-3.5-turbo", ""] {
        let reports = analyze_without_validation(checks(), &sources(), model).unwrap();
        for entry in &reports {
            assert_eq!(entry.report.model, "-");
            assert!(!entry.report.vulnerabilities_details.is_empty());
            for found in &entry.report.vulnerabilities_details {
                assert_eq!(found.status, "-");
            }
        }
    }
}

#[test]
fn findings_keep_the_order_of_files_and_lines() {
    let reports = analyze_without_validation(checks(), &sources(), "gpt-4").unwrap();
    let solidity = &report_for(&reports, Language::Solidity).report;
    let seen: Vec<(&str, usize, &str)> = solidity
        .vulnerabilities_details
        .iter()
        .map(|v| (v.file.as_str(), v.line_number, v.vulnerability_id.as_str()))
        .collect();
    assert_eq!(seen, vec![("a.sol", 1, "ORIGIN"), ("a.sol", 2, "KILL")]);
    assert_eq!(solidity.security_analysis_summary.security_issues_found, 2);
    let rust = &report_for(&reports, Language::Rust).report;
    let seen: Vec<(&str, usize, &str)> = rust
        .vulnerabilities_details
        .iter()
        .map(|v| (v.file.as_str(), v.line_number, v.vulnerability_id.as_str()))
        .collect();
    assert_eq!(seen, vec![("b.rs", 1, "UNSAFE"), ("b.rs", 1, "UNWRAP")]);
}

#[test]
fn two_runs_give_the_same_reports() {
    let first = analyze_without_validation(checks(), &sources(), "gpt-4").unwrap();
    let second = analyze_without_validation(checks(), &sources(), "gpt-4").unwrap();
    assert_eq!(first.len(), second.len());
    for (one, other) in first.iter().zip(second.iter()) {
        assert_eq!(one.report.vulnerabilities_details, other.report.vulnerabilities_details);
        assert_eq!(
            format!("{:?}", one.report.vulnerabilities_details).into_bytes(),
            format!("{:?}", other.report.vulnerabilities_details).into_bytes()
        );
    }
    assert_eq!(first, second);
}

#[test]
fn nothing_is_scanned_with_a_bad_catalog() {
    let mut bad = checks();
    bad.push(check("BROKEN", Language::Rust, Severity::Low, r"(", None));
    let outcome = analyze_without_validation(bad, &sources(), "gpt-4");
    assert_eq!(
        outcome,
        Err(CatalogError::InvalidPattern { index: 4, check_id: "BROKEN".to_string() })
    );
    let no_sources: Vec<SourceFile> = Vec::new();
    let bad = vec![check("BROKEN", Language::Rust, Severity::Low, r"(", None)];
    assert!(analyze_without_validation(bad, &no_sources, "gpt-4").is_err());
}

#[test]
fn scanning_sources_fills_a_run() {
    let catalog = Catalog::load(checks()).unwrap();
    let run = scan_sources(&catalog, &sources());
    let states = run.into_states();
    assert_eq!(states.len(), 2);
    assert_eq!(states[0].language(), Language::Solidity);
    assert_eq!(states[0].files(), &vec!["a.sol", "c.sol"]);
    assert_eq!(states[0].vulnerabilities().len(), 2);
    assert_eq!(states[1].language(), Language::Rust);
    assert_eq!(states[1].safe_patterns()[0].occurrences(), 2);
    let empty = scan_sources(&catalog, &Vec::new());
    assert!(empty.states().is_empty());
}
