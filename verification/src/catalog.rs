//! The catalog of checks: what to look for, in which language, and how bad
//! a match is.

use vstd::prelude::*;
use crate::pattern::{regex_accepts, regex_is_match, search};
use crate::views::view_each;

verus! {

/// How serious a finding is.
#[derive(Clone, Copy, Debug, PartialEq, Eq, Structural)]
pub enum Severity {
    Critical,
    High,
    Medium,
    Low,
    Info,
}

impl Severity {
    /// Critical and high findings are the ones that are always worth a
    /// second opinion.
    pub open spec fn is_urgent(self) -> bool {
        self == Severity::Critical || self == Severity::High
    }

    pub fn urgent(&self) -> (urgent: bool)
        ensures
            urgent == self.is_urgent(),
    {
        match self {
            Severity::Critical => true,
            Severity::High => true,
            _ => false,
        }
    }

    pub open spec fn label_text(self) -> Seq<char> {
        match self {
            Severity::Critical => "Critical"@,
            Severity::High => "High"@,
            Severity::Medium => "Medium"@,
            Severity::Low => "Low"@,
            Severity::Info => "Info"@,
        }
    }

    /// The severity as it is shown in a report.
    pub fn label(&self) -> (label: String)
        ensures
            label@ == self.label_text(),
    {
        match self {
            Severity::Critical => "Critical".to_owned(),
            Severity::High => "High".to_owned(),
            Severity::Medium => "Medium".to_owned(),
            Severity::Low => "Low".to_owned(),
            Severity::Info => "Info".to_owned(),
        }
    }
}

/// The languages whose sources are scanned.
#[derive(Clone, Copy, Debug, PartialEq, Eq, Structural)]
pub enum Language {
    Rust,
    Solidity,
}

impl Language {
    pub open spec fn of_extension(extension: Seq<char>) -> Option<Language> {
        if extension == "rs"@ {
            Some(Language::Rust)
        } else if extension == "sol"@ {
            Some(Language::Solidity)
        } else {
            None
        }
    }

    /// The language of a file, told by its extension alone. A file with any
    /// other extension is not scanned.
    pub fn from_extension(extension: &str) -> (language: Option<Language>)
        ensures
            language == Language::of_extension(extension@),
    {
        let extension = extension.to_owned();
        if extension == "rs".to_owned() {
            Some(Language::Rust)
        } else if extension == "sol".to_owned() {
            Some(Language::Solidity)
        } else {
            None
        }
    }

    pub open spec fn name_text(self) -> Seq<char> {
        match self {
            Language::Rust => "Rust"@,
            Language::Solidity => "Solidity-Ethereum"@,
        }
    }

    /// The name under which the language's report is filed.
    pub fn name(&self) -> (name: String)
        ensures
            name@ == self.name_text(),
    {
        match self {
            Language::Rust => "Rust".to_owned(),
            Language::Solidity => "Solidity-Ethereum".to_owned(),
        }
    }
}

/// One rule of the catalog.
#[derive(Clone, Debug, PartialEq, Eq)]
pub struct VulnerabilityCheck {
    pub id: String,
    pub language: Language,
    pub title: String,
    pub description: String,
    pub severity: Severity,
    pub pattern: String,
    pub safe_pattern: Option<String>,
    pub suggested_fix: String,
}

/// A check as contracts see it.
pub struct CheckSpec {
    pub id: Seq<char>,
    pub language: Language,
    pub title: Seq<char>,
    pub description: Seq<char>,
    pub severity: Severity,
    pub pattern: Seq<char>,
    pub safe_pattern: Option<Seq<char>>,
    pub suggested_fix: Seq<char>,
}

impl View for VulnerabilityCheck {
    type V = CheckSpec;

    open spec fn view(&self) -> CheckSpec {
        CheckSpec {
            id: self.id@,
            language: self.language,
            title: self.title@,
            description: self.description@,
            severity: self.severity,
            pattern: self.pattern@,
            safe_pattern: match self.safe_pattern {
                Some(text) => Some(text@),
                None => None,
            },
            suggested_fix: self.suggested_fix@,
        }
    }
}

/// Why a list of checks was not accepted as a catalog.
#[derive(Clone, Debug, PartialEq, Eq)]
pub enum CatalogError {
    /// The pattern of the check at `index` does not compile.
    InvalidPattern { index: usize, check_id: String },
}

/// Whether every pattern among `checks` compiles. A safe pattern need not.
pub open spec fn patterns_accepted(checks: Seq<CheckSpec>) -> bool {
    forall|i: int| 0 <= i < checks.len() ==> regex_accepts(#[trigger] checks[i].pattern)
}

/// Whether the check at `index` is the first among `checks` whose pattern
/// does not compile.
pub open spec fn rejects_at(checks: Seq<CheckSpec>, index: int) -> bool {
    &&& 0 <= index < checks.len()
    &&& !regex_accepts(checks[index].pattern)
    &&& forall|k: int| 0 <= k < index ==> regex_accepts(#[trigger] checks[k].pattern)
}

/// Whether `check` has a safe pattern that compiles and matches `line`.
pub open spec fn safe_pattern_hits(check: CheckSpec, line: Seq<char>) -> bool {
    match check.safe_pattern {
        Some(safe_pattern) => regex_accepts(safe_pattern) && regex_is_match(safe_pattern, line),
        None => false,
    }
}

/// Whether some check among `checks` has the identifier `id`.
pub open spec fn knows(checks: Seq<CheckSpec>, id: Seq<char>) -> bool {
    exists|i: int| 0 <= i < checks.len() && #[trigger] checks[i].id == id
}

/// Whether `i` is the place of the first check among `checks` that has the
/// identifier `id`.
pub open spec fn is_first_with_id(checks: Seq<CheckSpec>, id: Seq<char>, i: int) -> bool {
    &&& 0 <= i < checks.len()
    &&& checks[i].id == id
    &&& forall|k: int| 0 <= k < i ==> #[trigger] checks[k].id != id
}

/// The first check among `checks` that has the identifier `id`.
pub open spec fn entry_for(checks: Seq<CheckSpec>, id: Seq<char>) -> CheckSpec {
    checks[choose|i: int| is_first_with_id(checks, id, i)]
}

/// Whether no two checks among `checks` share an identifier.
pub open spec fn ids_distinct(checks: Seq<CheckSpec>) -> bool {
    forall|i: int, j: int|
        0 <= i < j < checks.len() ==> #[trigger] checks[i].id != #[trigger] checks[j].id
}

/// There is one first place of an identifier at most.
pub proof fn lemma_first_with_id_is_unique(checks: Seq<CheckSpec>, id: Seq<char>, i: int, j: int)
    requires
        is_first_with_id(checks, id, i),
        is_first_with_id(checks, id, j),
    ensures
        i == j,
{
    if i < j {
        assert(checks[i].id != id);
    } else if j < i {
        assert(checks[j].id != id);
    }
}

/// A list of checks whose patterns all compile. It is loaded once and never
/// changes afterwards.
#[derive(Debug)]
pub struct Catalog {
    checks: Vec<VulnerabilityCheck>,
}

impl View for Catalog {
    type V = Seq<CheckSpec>;

    closed spec fn view(&self) -> Seq<CheckSpec> {
        view_each(self.checks@)
    }
}

impl Catalog {
    #[verifier::type_invariant]
    spec fn sound(self) -> bool {
        patterns_accepted(view_each(self.checks@))
    }

    /// Accepts `checks` as a catalog if the pattern of each of them compiles,
    /// and names the first one whose pattern does not.
    pub fn load(checks: Vec<VulnerabilityCheck>) -> (loaded: Result<Catalog, CatalogError>)
        ensures
            match loaded {
                Ok(catalog) => {
                    &&& catalog@ == view_each(checks@)
                    &&& patterns_accepted(catalog@)
                },
                Err(CatalogError::InvalidPattern { index, check_id }) => {
                    &&& rejects_at(view_each(checks@), index as int)
                    &&& check_id@ == view_each(checks@)[index as int].id
                },
            },
    {
        let mut i: usize = 0;
        while i < checks.len()
            invariant
                i <= checks.len(),
                forall|k: int|
                    0 <= k < i ==> regex_accepts(
                        #[trigger] view_each(checks@)[k].pattern,
                    ),
            decreases checks.len() - i,
        {
            match search(checks[i].pattern.as_str(), "") {
                Ok(_) => {},
                Err(_) => {
                    return Err(
                        CatalogError::InvalidPattern { index: i, check_id: checks[i].id.clone() },
                    );
                },
            }
            i += 1;
        }
        Ok(Catalog { checks })
    }

    /// Whether the pattern of the check at place `i` matches `line`.
    pub fn pattern_matches(&self, i: usize, line: &str) -> (hit: bool)
        requires
            i < self@.len(),
        ensures
            hit == regex_is_match(self@[i as int].pattern, line@),
    {
        proof {
            use_type_invariant(self);
            assert(regex_accepts(self@[i as int].pattern));
        }
        match search(self.checks[i].pattern.as_str(), line) {
            Ok(hit) => hit,
            Err(_) => false,
        }
    }

    /// Whether the check at place `i` has a safe pattern that compiles and
    /// matches `line`. A safe pattern that does not compile counts as none.
    pub fn safe_pattern_matches(&self, i: usize, line: &str) -> (hit: bool)
        requires
            i < self@.len(),
        ensures
            hit == safe_pattern_hits(self@[i as int], line@),
    {
        match &self.checks[i].safe_pattern {
            Some(safe_pattern) => match search(safe_pattern.as_str(), line) {
                Ok(hit) => hit,
                Err(_) => false,
            },
            None => false,
        }
    }

    pub fn len(&self) -> (n: usize)
        ensures
            n == self@.len(),
    {
        self.checks.len()
    }

    /// The check at place `i`, in the order in which the catalog was loaded.
    pub fn check(&self, i: usize) -> (check: &VulnerabilityCheck)
        requires
            i < self@.len(),
        ensures
            check@ == self@[i as int],
    {
        &self.checks[i]
    }

    /// The first check that has the identifier `id`, if there is one.
    pub fn lookup(&self, id: &str) -> (found: Option<&VulnerabilityCheck>)
        ensures
            found is Some <==> knows(self@, id@),
            found matches Some(check) ==> check@ == entry_for(self@, id@),
    {
        let wanted = id.to_owned();
        let mut i: usize = 0;
        while i < self.checks.len()
            invariant
                i <= self.checks.len(),
                wanted@ == id@,
                forall|k: int| 0 <= k < i ==> #[trigger] self@[k].id != id@,
            decreases self.checks.len() - i,
        {
            if self.checks[i].id == wanted {
                proof {
                    let first = i as int;
                    assert(is_first_with_id(self@, id@, first));
                    let chosen = choose|k: int| is_first_with_id(self@, id@, k);
                    lemma_first_with_id_is_unique(self@, id@, first, chosen);
                }
                return Some(&self.checks[i]);
            }
            i += 1;
        }
        None
    }
}

} // verus!
