//! Turning the state of a language into its report.
//!
//! The report is plain data for whoever renders it; nothing is formatted
//! here.

use vstd::prelude::*;
use vstd::string::StringExecFns;
use crate::aggregate::{
    EvidenceSpec,
    PerLanguageState,
    SafePatternEvidence,
    StateSpec,
    VulnerabilityResult,
    VulnerabilityResultSpec,
};
use crate::catalog::Language;
use crate::validation::{skipped, skipped_text};
use crate::views::{lemma_view_each_push, view_each};

verus! {

/// The evidence for one check as a report shows it.
#[derive(Clone, Debug, PartialEq, Eq)]
pub struct SafePatternDetail {
    pub pattern_id: String,
    pub title: String,
    pub safe_pattern: String,
    pub occurrences: usize,
    pub files: Vec<String>,
}

pub struct SafePatternDetailSpec {
    pub pattern_id: Seq<char>,
    pub title: Seq<char>,
    pub safe_pattern: Seq<char>,
    pub occurrences: nat,
    pub files: Seq<Seq<char>>,
}

impl View for SafePatternDetail {
    type V = SafePatternDetailSpec;

    open spec fn view(&self) -> SafePatternDetailSpec {
        SafePatternDetailSpec {
            pattern_id: self.pattern_id@,
            title: self.title@,
            safe_pattern: self.safe_pattern@,
            occurrences: self.occurrences as nat,
            files: view_each(self.files@),
        }
    }
}

#[derive(Clone, Debug, PartialEq, Eq)]
pub struct SecurityAnalysisSummary {
    pub checked_files: usize,
    pub files_list: Vec<String>,
    pub security_issues_found: usize,
}

/// The report on one language.
#[derive(Clone, Debug, PartialEq, Eq)]
pub struct FinalReport {
    pub security_analysis_summary: SecurityAnalysisSummary,
    pub vulnerabilities_details: Vec<VulnerabilityResult>,
    pub safe_patterns_overview: Vec<SafePatternDetail>,
    pub model: String,
}

pub struct FinalReportSpec {
    pub checked_files: nat,
    pub files_list: Seq<Seq<char>>,
    pub security_issues_found: nat,
    pub vulnerabilities_details: Seq<VulnerabilityResultSpec>,
    pub safe_patterns_overview: Seq<SafePatternDetailSpec>,
    pub model: Seq<char>,
}

impl View for FinalReport {
    type V = FinalReportSpec;

    open spec fn view(&self) -> FinalReportSpec {
        FinalReportSpec {
            checked_files: self.security_analysis_summary.checked_files as nat,
            files_list: view_each(self.security_analysis_summary.files_list@),
            security_issues_found: self.security_analysis_summary.security_issues_found as nat,
            vulnerabilities_details: view_each(self.vulnerabilities_details@),
            safe_patterns_overview: view_each(self.safe_patterns_overview@),
            model: self.model@,
        }
    }
}

/// The evidence for one check as a report shows it: the sightings are
/// counted.
pub open spec fn detail_of(evidence: EvidenceSpec) -> SafePatternDetailSpec {
    SafePatternDetailSpec {
        pattern_id: evidence.pattern_id,
        title: evidence.title,
        safe_pattern: evidence.safe_pattern,
        occurrences: evidence.occurrences(),
        files: evidence.files,
    }
}

/// The evidence of a language as a report shows it, in the same order.
pub open spec fn details_of(evidence: Seq<EvidenceSpec>) -> Seq<SafePatternDetailSpec> {
    Seq::new(evidence.len(), |i: int| detail_of(evidence[i]))
}

/// The name of the model in a report: the model that validated, or the mark
/// of the skipped where nothing was validated.
pub open spec fn model_shown(model: Seq<char>, no_validation: bool) -> Seq<char> {
    if no_validation {
        skipped_text()
    } else {
        model
    }
}

/// The report on the language with the state `state`.
pub open spec fn report_of(state: StateSpec, model: Seq<char>, no_validation: bool) -> FinalReportSpec {
    FinalReportSpec {
        checked_files: state.files.len(),
        files_list: state.files,
        security_issues_found: state.vulnerabilities.len(),
        vulnerabilities_details: state.vulnerabilities,
        safe_patterns_overview: details_of(state.safe_patterns),
        model: model_shown(model, no_validation),
    }
}

/// In the report on a well-formed state no file is listed twice, neither
/// among the scanned files nor in the evidence for any check.
pub proof fn lemma_report_lists_files_once(state: StateSpec, model: Seq<char>, no_validation: bool)
    requires
        state.wf(),
    ensures
        report_of(state, model, no_validation).files_list.no_duplicates(),
        forall|i: int|
            0 <= i < report_of(state, model, no_validation).safe_patterns_overview.len() ==> (
            #[trigger] report_of(
                state,
                model,
                no_validation,
            ).safe_patterns_overview[i]).files.no_duplicates(),
{
    let report = report_of(state, model, no_validation);
    assert forall|i: int| 0 <= i < report.safe_patterns_overview.len() implies (
    #[trigger] report.safe_patterns_overview[i]).files.no_duplicates() by {
        assert(report.safe_patterns_overview[i].files == state.safe_patterns[i].files);
        assert(state.safe_patterns[i].consistent());
    }
}

/// The evidence of a language as a report shows it.
fn details(evidence: Vec<SafePatternEvidence>) -> (overview: Vec<SafePatternDetail>)
    ensures
        view_each(overview@) == details_of(view_each(evidence@)),
{
    let ghost all = view_each(evidence@);
    let ghost target = details_of(all);
    let mut overview: Vec<SafePatternDetail> = Vec::new();
    proof {
        assert(view_each(overview@) == target.take(0));
    }
    for entry in entries: evidence
        invariant
            entries.seq() == evidence@,
            all == view_each(evidence@),
            target == details_of(all),
            view_each(overview@) == target.take(entries.index()),
    {
        let ghost at = entries.index();
        assert(all[at] == entry@);
        let (pattern_id, title, safe_pattern, sightings, files) = entry.into_parts();
        let detail = SafePatternDetail {
            pattern_id,
            title,
            safe_pattern,
            occurrences: sightings.len(),
            files,
        };
        proof {
            assert(view_each(sightings@).len() == sightings@.len());
            assert(detail@ == target[at]);
            lemma_view_each_push(overview@, detail);
            assert(target.take(at + 1) == target.take(at).push(target[at]));
        }
        overview.push(detail);
    }
    proof {
        assert(target.take(target.len() as int) == target);
    }
    overview
}

/// Turns the state of a language, once all its files are scanned, into the
/// report on it.
pub fn assemble_report(state: PerLanguageState, model: &str, no_validation: bool) -> (report:
    FinalReport)
    ensures
        report@ == report_of(state@, model@, no_validation),
{
    let (_, files_list, vulnerabilities_details, evidence) = state.into_parts();
    let report = FinalReport {
        security_analysis_summary: SecurityAnalysisSummary {
            checked_files: files_list.len(),
            files_list,
            security_issues_found: vulnerabilities_details.len(),
        },
        vulnerabilities_details,
        safe_patterns_overview: details(evidence),
        model: if no_validation {
            skipped()
        } else {
            model.to_owned()
        },
    };
    proof {
        assert(view_each(report.security_analysis_summary.files_list@).len()
            == report.security_analysis_summary.files_list@.len());
        assert(view_each(report.vulnerabilities_details@).len()
            == report.vulnerabilities_details@.len());
    }
    report
}

/// The name of the file that holds the rendered report on `language`.
pub open spec fn report_file_name_text(language: Language) -> Seq<char> {
    language.name_text() + "_QBIT_SAST_Report.html"@
}

/// The name of the file that holds the rendered report on `language`.
pub fn report_file_name(language: Language) -> (name: String)
    ensures
        name@ == report_file_name_text(language),
{
    let mut name = language.name();
    name.append("_QBIT_SAST_Report.html");
    name
}

} // verus!
