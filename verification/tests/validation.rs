use qbit::catalog::{Language, Severity};
use qbit::matcher::RawFinding;
use qbit::validation::{has_eligible, plan_validation, skipped, ValidationPlan};

fn finding(line_number: usize, severity: Severity) -> RawFinding {
    RawFinding {
        line_number,
        check_id: format!("C{}", line_number),
        severity,
        suggested_fix: "fix".to_string(),
    }
}

#[test]
fn the_skipped_status_is_a_dash() {
    assert_eq!(skipped(), "-");
}

#[test]
fn no_validation_means_no_call() {
    let findings = vec![finding(1, Severity::Critical), finding(2, Severity::High)];
    for all in [false, true] {
        let plan = plan_validation("text", &findings, Language::Rust, all, "gpt-4", true);
        assert!(matches!(plan, ValidationPlan::Skip));
        assert_eq!(plan.settled(), Some("-".to_string()));
    }
}

#[test]
fn low_and_medium_findings_alone_mean_no_call() {
    let findings =
        vec![finding(1, Severity::Low), finding(2, Severity::Medium), finding(3, Severity::Info)];
    let plan = plan_validation("text", &findings, Language::Solidity, false, "gpt-4", false);
    assert!(matches!(plan, ValidationPlan::Skip));
    assert_eq!(plan.settled(), Some("-".to_string()));
    assert!(!has_eligible(&findings, false));
}

#[test]
fn low_findings_are_validated_when_all_severities_are() {
    let findings = vec![finding(1, Severity::Low)];
    let plan = plan_validation("text", &findings, Language::Solidity, true, "gpt-4", false);
    assert!(matches!(plan, ValidationPlan::Ask(_)));
    assert_eq!(plan.settled(), None);
    assert!(has_eligible(&findings, true));
}

#[test]
fn no_findings_mean_no_call() {
    let findings: Vec<RawFinding> = Vec::new();
    for all in [false, true] {
        let plan = plan_validation("text", &findings, Language::Rust, all, "gpt-4", false);
        assert!(matches!(plan, ValidationPlan::Skip));
        assert!(!has_eligible(&findings, all));
    }
}

#[test]
fn one_urgent_finding_sends_the_whole_file() {
    let findings =
        vec![finding(1, Severity::Low), finding(5, Severity::High), finding(9, Severity::Info)];
    assert!(has_eligible(&findings, false));
    let plan = plan_validation(
        "the whole text",
        &findings,
        Language::Solidity,
        false,
        "gpt-3.5-turbo",
        false,
    );
    match plan {
        ValidationPlan::Ask(request) => {
            assert_eq!(request.file_text, "the whole text");
            assert_eq!(request.findings, &findings);
            assert_eq!(request.language, Language::Solidity);
            assert!(!request.validate_all_severities);
            assert_eq!(request.model, "gpt-3.5-turbo");
        },
        ValidationPlan::Skip => panic!("no call was planned"),
    }
}

#[test]
fn critical_findings_are_urgent_too() {
    let findings = vec![finding(3, Severity::Critical)];
    let plan = plan_validation("t", &findings, Language::Rust, false, "m", false);
    assert!(matches!(plan, ValidationPlan::Ask(_)));
}
