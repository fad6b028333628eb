use qbit::aggregate::{PerLanguageState, Sighting};
use qbit::catalog::{Catalog, Language, Severity, VulnerabilityCheck};
use qbit::matcher::{scan_file, FileScan, RawFinding, SafePatternHit};
use qbit::pipeline::ScanRun;
use qbit::report::{assemble_report, report_file_name};
use qbit::views::push_once;

fn check(
    id: &str,
    language: Language,
    severity: Severity,
    pattern: &str,
    safe_pattern: Option<&str>,
) -> VulnerabilityCheck {
    VulnerabilityCheck {
        id: id.to_string(),
        language,
        title: format!("title of {}", id),
        description: format!("description of {}", id),
        severity,
        pattern: pattern.to_string(),
        safe_pattern: safe_pattern.map(|text| text.to_string()),
        suggested_fix: format!("fix for {}", id),
    }
}

fn catalog() -> Catalog {
    Catalog::load(vec![
        check("CALL", Language::Solidity, Severity::High, r"\.call\(", Some(r"require\(ok")),
        check("TIME", Language::Solidity, Severity::Low, r"block\.timestamp", Some(r"// audited")),
        check("UNSAFE", Language::Rust, Severity::Medium, r"unsafe", Some(r"// SAFETY")),
    ])
    .unwrap()
}

#[test]
fn push_once_puts_a_text_in_once() {
    let mut texts: Vec<String> = Vec::new();
    push_once(&mut texts, &"a".to_string());
    push_once(&mut texts, &"b".to_string());
    push_once(&mut texts, &"a".to_string());
    push_once(&mut texts, &"".to_string());
    push_once(&mut texts, &"b".to_string());
    assert_eq!(texts, vec!["a", "b", ""]);
}

#[test]
fn a_new_state_is_empty() {
    let state = PerLanguageState::new(Language::Solidity);
    assert_eq!(state.language(), Language::Solidity);
    assert!(state.files().is_empty());
    assert!(state.vulnerabilities().is_empty());
    assert!(state.safe_patterns().is_empty());
}

#[test]
fn occurrences_count_every_matching_line_and_files_are_named_once() {
    let catalog = catalog();
    let mut state = PerLanguageState::new(Language::Solidity);
    let first = "a.call(); require(ok)\nrequire(ok, \"x\");\nnothing\nrequire(ok);\n";
    let second = "// audited\nrequire(ok);\n";
    let scan = scan_file(&catalog, Language::Solidity, first);
    state.record_file(&catalog, "one.sol", &scan, "-");
    let scan = scan_file(&catalog, Language::Solidity, second);
    state.record_file(&catalog, "two.sol", &scan, "-");
    let scan = scan_file(&catalog, Language::Solidity, "plain\n");
    state.record_file(&catalog, "three.sol", &scan, "-");

    assert_eq!(state.files(), &vec!["one.sol", "two.sol", "three.sol"]);
    let evidence = state.safe_patterns();
    assert_eq!(evidence.len(), 2);
    assert_eq!(evidence[0].pattern_id(), "CALL");
    assert_eq!(evidence[0].title(), "title of CALL");
    assert_eq!(evidence[0].safe_pattern(), r"require\(ok");
    assert_eq!(evidence[0].occurrences(), 4);
    assert_eq!(evidence[0].files(), &vec!["one.sol", "two.sol"]);
    assert_eq!(
        evidence[0].sightings(),
        &vec![
            Sighting { file: "one.sol".to_string(), line_number: 1 },
            Sighting { file: "one.sol".to_string(), line_number: 2 },
            Sighting { file: "one.sol".to_string(), line_number: 4 },
            Sighting { file: "two.sol".to_string(), line_number: 2 },
        ]
    );
    assert_eq!(evidence[1].pattern_id(), "TIME");
    assert_eq!(evidence[1].occurrences(), 1);
    assert_eq!(evidence[1].files(), &vec!["two.sol"]);
}

#[test]
fn a_line_may_give_a_finding_and_a_safe_hit_for_the_same_check() {
    let catalog = catalog();
    let scan = scan_file(&catalog, Language::Solidity, "(bool ok,) = a.call(); require(ok);\n");
    assert_eq!(
        scan.findings,
        vec![RawFinding {
            line_number: 1,
            check_id: "CALL".to_string(),
            severity: Severity::High,
            suggested_fix: "fix for CALL".to_string(),
        }]
    );
    assert_eq!(
        scan.safe_hits,
        vec![SafePatternHit {
            line_number: 1,
            check_id: "CALL".to_string(),
            title: "title of CALL".to_string(),
            safe_pattern: r"require\(ok".to_string(),
        }]
    );
    let mut state = PerLanguageState::new(Language::Solidity);
    state.record_file(&catalog, "both.sol", &scan, "-");
    assert_eq!(state.vulnerabilities().len(), 1);
    assert_eq!(state.safe_patterns().len(), 1);
    assert_eq!(state.safe_patterns()[0].occurrences(), 1);
}

#[test]
fn a_check_without_safe_pattern_gives_no_evidence() {
    let catalog =
        Catalog::load(vec![check("X", Language::Rust, Severity::Low, "x", None)]).unwrap();
    let scan = scan_file(&catalog, Language::Rust, "x\nx\n");
    assert_eq!(scan.findings.len(), 2);
    assert!(scan.safe_hits.is_empty());
}

#[test]
fn checks_of_another_language_are_not_asked() {
    let catalog = catalog();
    let scan = scan_file(&catalog, Language::Rust, "a.call(); // audited\nunsafe {} // SAFETY\n");
    let ids: Vec<&str> = scan.findings.iter().map(|f| f.check_id.as_str()).collect();
    assert_eq!(ids, vec!["UNSAFE"]);
    let ids: Vec<&str> = scan.safe_hits.iter().map(|h| h.check_id.as_str()).collect();
    assert_eq!(ids, vec!["UNSAFE"]);
    assert_eq!(scan.findings[0].line_number, 2);
}

#[test]
fn an_empty_file_gives_nothing() {
    let catalog =
        Catalog::load(vec![check("ANY", Language::Rust, Severity::Low, "", Some(""))]).unwrap();
    let scan = scan_file(&catalog, Language::Rust, "");
    assert!(scan.findings.is_empty());
    assert!(scan.safe_hits.is_empty());
    let scan = scan_file(&catalog, Language::Rust, "\n");
    assert_eq!(scan.findings.len(), 1);
    assert_eq!(scan.safe_hits.len(), 1);
}

#[test]
fn the_status_is_that_of_the_whole_file() {
    let catalog = catalog();
    let mut state = PerLanguageState::new(Language::Solidity);
    let scan = scan_file(&catalog, Language::Solidity, "a.call();\nblock.timestamp\n");
    state.record_file(&catalog, "x.sol", &scan, "confirmed");
    let scan = scan_file(&catalog, Language::Solidity, "b.call();\n");
    state.record_file(&catalog, "y.sol", &scan, "false-positive");
    let seen: Vec<(&str, usize, &str, &str)> = state
        .vulnerabilities()
        .iter()
        .map(|v| (v.file.as_str(), v.line_number, v.vulnerability_id.as_str(), v.status.as_str()))
        .collect();
    assert_eq!(
        seen,
        vec![
            ("x.sol", 1, "CALL", "confirmed"),
            ("x.sol", 2, "TIME", "confirmed"),
            ("y.sol", 1, "CALL", "false-positive"),
        ]
    );
}

#[test]
fn title_and_description_come_from_the_catalog() {
    let catalog = catalog();
    let mut state = PerLanguageState::new(Language::Rust);
    let scan = FileScan {
        findings: vec![RawFinding {
            line_number: 7,
            check_id: "TIME".to_string(),
            severity: Severity::Critical,
            suggested_fix: "another fix".to_string(),
        }],
        safe_hits: Vec::new(),
    };
    state.record_file(&catalog, "odd.rs", &scan, "label");
    let found = &state.vulnerabilities()[0];
    assert_eq!(found.vulnerability_id, "TIME");
    assert_eq!(found.file, "odd.rs");
    assert_eq!(found.line_number, 7);
    assert_eq!(found.title, "title of TIME");
    assert_eq!(found.description, "description of TIME");
    assert_eq!(found.severity, Severity::Critical);
    assert_eq!(found.status, "label");
    assert_eq!(found.fix, "another fix");
    assert_eq!(found.persistence_of_safe_pattern, "No");
    assert_eq!(found.safe_pattern, None);
}

#[test]
fn a_file_recorded_twice_is_listed_once() {
    let catalog = catalog();
    let mut state = PerLanguageState::new(Language::Rust);
    let scan = scan_file(&catalog, Language::Rust, "unsafe {}\n");
    state.record_file(&catalog, "a.rs", &scan, "-");
    state.record_file(&catalog, "a.rs", &scan, "-");
    assert_eq!(state.files(), &vec!["a.rs"]);
    assert_eq!(state.vulnerabilities().len(), 2);
}

#[test]
fn checks_that_share_an_identifier_share_their_evidence() {
    let catalog = Catalog::load(vec![
        check("SAME", Language::Rust, Severity::Low, "a", Some("x")),
        check("SAME", Language::Rust, Severity::Low, "b", Some("y")),
    ])
    .unwrap();
    let mut state = PerLanguageState::new(Language::Rust);
    let scan = scan_file(&catalog, Language::Rust, "x\ny\nxy\n");
    state.record_file(&catalog, "a.rs", &scan, "-");
    assert_eq!(state.safe_patterns().len(), 1);
    assert_eq!(state.safe_patterns()[0].occurrences(), 4);
    assert_eq!(state.safe_patterns()[0].safe_pattern(), "x");
}

#[test]
fn a_run_keeps_one_state_for_each_language() {
    let catalog = catalog();
    let mut run = ScanRun::new();
    assert!(run.states().is_empty());
    let scan = scan_file(&catalog, Language::Solidity, "a.call();\n");
    run.record(&catalog, Language::Solidity, "a.sol", &scan, "-");
    let scan = scan_file(&catalog, Language::Rust, "fn main() {}\n");
    run.record(&catalog, Language::Rust, "b.rs", &scan, "-");
    let scan = scan_file(&catalog, Language::Solidity, "\n");
    run.record(&catalog, Language::Solidity, "c.sol", &scan, "-");
    let states = run.states();
    assert_eq!(states.len(), 2);
    assert_eq!(states[0].language(), Language::Solidity);
    assert_eq!(states[0].files(), &vec!["a.sol", "c.sol"]);
    assert_eq!(states[1].language(), Language::Rust);
    assert_eq!(states[1].files(), &vec!["b.rs"]);
}

#[test]
fn a_report_counts_what_the_state_holds() {
    let catalog = catalog();
    let mut state = PerLanguageState::new(Language::Solidity);
    let scan = scan_file(&catalog, Language::Solidity, "a.call();\nrequire(ok);\nrequire(ok);\n");
    state.record_file(&catalog, "a.sol", &scan, "confirmed");
    let scan = scan_file(&catalog, Language::Solidity, "");
    state.record_file(&catalog, "b.sol", &scan, "-");
    let report = assemble_report(state, "gpt-4", false);
    assert_eq!(report.security_analysis_summary.checked_files, 2);
    assert_eq!(report.security_analysis_summary.files_list, vec!["a.sol", "b.sol"]);
    assert_eq!(report.security_analysis_summary.security_issues_found, 1);
    assert_eq!(report.vulnerabilities_details.len(), 1);
    assert_eq!(report.vulnerabilities_details[0].status, "confirmed");
    assert_eq!(report.safe_patterns_overview.len(), 1);
    assert_eq!(report.safe_patterns_overview[0].pattern_id, "CALL");
    assert_eq!(report.safe_patterns_overview[0].title, "title of CALL");
    assert_eq!(report.safe_patterns_overview[0].safe_pattern, r"require\(ok");
    assert_eq!(report.safe_patterns_overview[0].occurrences, 2);
    assert_eq!(report.safe_patterns_overview[0].files, vec!["a.sol"]);
    assert_eq!(report.model, "gpt-4");
}

#[test]
fn a_report_without_validation_names_no_model() {
    let report = assemble_report(PerLanguageState::new(Language::Rust), "gpt-4", true);
    assert_eq!(report.model, "-");
    assert_eq!(report.security_analysis_summary.checked_files, 0);
    assert_eq!(report.security_analysis_summary.security_issues_found, 0);
}

#[test]
fn reports_are_filed_under_the_language() {
    assert_eq!(report_file_name(Language::Rust), "Rust_QBIT_SAST_Report.html");
    assert_eq!(report_file_name(Language::Solidity), "Solidity-Ethereum_QBIT_SAST_Report.html");
}
