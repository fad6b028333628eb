//! Deciding whether the findings of a file go to the classification
//! service.
//!
//! The service is asked once for a file, never for a single finding, and its
//! answer is the status of all the findings of that file. This module makes
//! no call: it says whether one is due and what is sent, and leaves the call
//! to its caller.

use vstd::prelude::*;
use crate::catalog::Language;
use crate::matcher::{RawFinding, RawFindingSpec};
use crate::views::view_each;

verus! {

/// The status of findings that were not validated, and the name of the model
/// in the report of a run without validation.
pub open spec fn skipped_text() -> Seq<char> {
    "-"@
}

/// The status of findings that were not validated.
pub fn skipped() -> (status: String)
    ensures
        status@ == skipped_text(),
{
    "-".to_owned()
}

/// Whether `finding` would be looked at by the service: any finding if all
/// severities are validated, else a critical or high one.
pub open spec fn is_eligible(finding: RawFindingSpec, validate_all_severities: bool) -> bool {
    validate_all_severities || finding.severity.is_urgent()
}

/// Whether one of `findings` would be looked at by the service.
pub open spec fn any_eligible(findings: Seq<RawFindingSpec>, validate_all_severities: bool) -> bool {
    exists|i: int|
        0 <= i < findings.len() && is_eligible(#[trigger] findings[i], validate_all_severities)
}

/// What is sent to the service for one file.
#[derive(Debug)]
pub struct ValidationRequest<'a> {
    pub file_text: &'a str,
    /// All the findings of the file, in their order.
    pub findings: &'a Vec<RawFinding>,
    pub language: Language,
    pub validate_all_severities: bool,
    pub model: &'a str,
}

pub struct ValidationRequestSpec {
    pub file_text: Seq<char>,
    pub findings: Seq<RawFindingSpec>,
    pub language: Language,
    pub validate_all_severities: bool,
    pub model: Seq<char>,
}

impl<'a> View for ValidationRequest<'a> {
    type V = ValidationRequestSpec;

    open spec fn view(&self) -> ValidationRequestSpec {
        ValidationRequestSpec {
            file_text: self.file_text@,
            findings: view_each(self.findings@),
            language: self.language,
            validate_all_severities: self.validate_all_severities,
            model: self.model@,
        }
    }
}

/// What is to be done about the findings of one file.
#[derive(Debug)]
pub enum ValidationPlan<'a> {
    /// No call is made; the findings get the status of the skipped.
    Skip,
    /// One call is made, with this request; the findings get the status that
    /// the service answers.
    Ask(ValidationRequest<'a>),
}

impl<'a> ValidationPlan<'a> {
    /// The status of the findings wherever it does not take a call to know
    /// it.
    pub fn settled(&self) -> (status: Option<String>)
        ensures
            match status {
                Some(status) => *self is Skip && status@ == skipped_text(),
                None => *self is Ask,
            },
    {
        match self {
            ValidationPlan::Skip => Some(skipped()),
            ValidationPlan::Ask(_) => None,
        }
    }
}

/// Whether one of `findings` would be looked at by the service.
pub fn has_eligible(findings: &Vec<RawFinding>, validate_all_severities: bool) -> (found: bool)
    ensures
        found == any_eligible(view_each(findings@), validate_all_severities),
{
    let mut i: usize = 0;
    while i < findings.len()
        invariant
            i <= findings.len(),
            forall|k: int|
                0 <= k < i ==> !is_eligible(
                    #[trigger] view_each(findings@)[k],
                    validate_all_severities,
                ),
        decreases findings.len() - i,
    {
        if validate_all_severities || findings[i].severity.urgent() {
            assert(is_eligible(view_each(findings@)[i as int], validate_all_severities));
            return true;
        }
        i += 1;
    }
    false
}

/// Decides what is to be done about the findings of one file.
///
/// A call is due unless validation is switched off or none of the findings
/// would be looked at. The request then holds all the findings, and the flag
/// that tells the service which of them to look at.
pub fn plan_validation<'a>(
    file_text: &'a str,
    findings: &'a Vec<RawFinding>,
    language: Language,
    validate_all_severities: bool,
    model: &'a str,
    no_validation: bool,
) -> (plan: ValidationPlan<'a>)
    ensures
        plan is Ask <==> !no_validation && any_eligible(
            view_each(findings@),
            validate_all_severities,
        ),
        plan matches ValidationPlan::Ask(request) ==> request@ == (ValidationRequestSpec {
            file_text: file_text@,
            findings: view_each(findings@),
            language,
            validate_all_severities,
            model: model@,
        }),
{
    if no_validation || !has_eligible(findings, validate_all_severities) {
        ValidationPlan::Skip
    } else {
        ValidationPlan::Ask(
            ValidationRequest { file_text, findings, language, validate_all_severities, model },
        )
    }
}

} // verus!
