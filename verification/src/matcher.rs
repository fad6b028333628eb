//! Matching the lines of one file against the catalog.
//!
//! Every line is held against every check of the file's language. A line
//! that matches a check's pattern gives a finding; a line that matches its
//! safe pattern gives a safe-pattern hit. The two are decided apart, so one
//! line may give both for the same check.

use vstd::prelude::*;
use crate::catalog::{
    ids_distinct,
    knows,
    safe_pattern_hits,
    Catalog,
    CheckSpec,
    Language,
    Severity,
};
use crate::pattern::regex_is_match;
use crate::text::{lines_of, split_lines};
use crate::views::{lemma_view_each_push, view_each};

verus! {

/// A line that matched the pattern of a check.
#[derive(Clone, Debug, PartialEq, Eq)]
pub struct RawFinding {
    /// The line's number in its file; the first line has the number 1.
    pub line_number: usize,
    pub check_id: String,
    pub severity: Severity,
    pub suggested_fix: String,
}

pub struct RawFindingSpec {
    pub line_number: nat,
    pub check_id: Seq<char>,
    pub severity: Severity,
    pub suggested_fix: Seq<char>,
}

impl View for RawFinding {
    type V = RawFindingSpec;

    open spec fn view(&self) -> RawFindingSpec {
        RawFindingSpec {
            line_number: self.line_number as nat,
            check_id: self.check_id@,
            severity: self.severity,
            suggested_fix: self.suggested_fix@,
        }
    }
}

/// A line that matched the safe pattern of a check.
#[derive(Clone, Debug, PartialEq, Eq)]
pub struct SafePatternHit {
    /// The line's number in its file; the first line has the number 1.
    pub line_number: usize,
    pub check_id: String,
    pub title: String,
    pub safe_pattern: String,
}

pub struct SafePatternHitSpec {
    pub line_number: nat,
    pub check_id: Seq<char>,
    pub title: Seq<char>,
    pub safe_pattern: Seq<char>,
}

impl View for SafePatternHit {
    type V = SafePatternHitSpec;

    open spec fn view(&self) -> SafePatternHitSpec {
        SafePatternHitSpec {
            line_number: self.line_number as nat,
            check_id: self.check_id@,
            title: self.title@,
            safe_pattern: self.safe_pattern@,
        }
    }
}

/// What matching found in one file.
#[derive(Clone, Debug, PartialEq, Eq)]
pub struct FileScan {
    pub findings: Vec<RawFinding>,
    pub safe_hits: Vec<SafePatternHit>,
}

pub struct FileScanSpec {
    pub findings: Seq<RawFindingSpec>,
    pub safe_hits: Seq<SafePatternHitSpec>,
}

impl View for FileScan {
    type V = FileScanSpec;

    open spec fn view(&self) -> FileScanSpec {
        FileScanSpec { findings: view_each(self.findings@), safe_hits: view_each(self.safe_hits@) }
    }
}

/// Whether `check` reports `line` in a file of `language`.
pub open spec fn raises(check: CheckSpec, language: Language, line: Seq<char>) -> bool {
    check.language == language && regex_is_match(check.pattern, line)
}

/// Whether `check` sees its risky construct used safely on `line` in a file
/// of `language`.
pub open spec fn vouches(check: CheckSpec, language: Language, line: Seq<char>) -> bool {
    check.language == language && safe_pattern_hits(check, line)
}

/// The finding that `check` gives on the line with the number `line_number`.
pub open spec fn finding_of(check: CheckSpec, line_number: nat) -> RawFindingSpec {
    RawFindingSpec {
        line_number,
        check_id: check.id,
        severity: check.severity,
        suggested_fix: check.suggested_fix,
    }
}

/// The safe-pattern hit that `check` gives on the line with the number
/// `line_number`.
pub open spec fn hit_of(check: CheckSpec, line_number: nat) -> SafePatternHitSpec {
    SafePatternHitSpec {
        line_number,
        check_id: check.id,
        title: check.title,
        safe_pattern: match check.safe_pattern {
            Some(safe_pattern) => safe_pattern,
            None => Seq::empty(),
        },
    }
}

/// The findings on one line, in the order of the catalog.
pub open spec fn line_findings(
    checks: Seq<CheckSpec>,
    language: Language,
    line_number: nat,
    line: Seq<char>,
) -> Seq<RawFindingSpec>
    decreases checks.len(),
{
    if checks.len() == 0 {
        Seq::empty()
    } else {
        let before = line_findings(checks.drop_last(), language, line_number, line);
        if raises(checks.last(), language, line) {
            before.push(finding_of(checks.last(), line_number))
        } else {
            before
        }
    }
}

/// The safe-pattern hits on one line, in the order of the catalog.
pub open spec fn line_hits(
    checks: Seq<CheckSpec>,
    language: Language,
    line_number: nat,
    line: Seq<char>,
) -> Seq<SafePatternHitSpec>
    decreases checks.len(),
{
    if checks.len() == 0 {
        Seq::empty()
    } else {
        let before = line_hits(checks.drop_last(), language, line_number, line);
        if vouches(checks.last(), language, line) {
            before.push(hit_of(checks.last(), line_number))
        } else {
            before
        }
    }
}

/// The findings in a file: line after line, and on each line in the order
/// of the catalog.
pub open spec fn file_findings(
    checks: Seq<CheckSpec>,
    language: Language,
    lines: Seq<Seq<char>>,
) -> Seq<RawFindingSpec>
    decreases lines.len(),
{
    if lines.len() == 0 {
        Seq::empty()
    } else {
        file_findings(checks, language, lines.drop_last()) + line_findings(
            checks,
            language,
            lines.len(),
            lines.last(),
        )
    }
}

/// The safe-pattern hits in a file: line after line, and on each line in
/// the order of the catalog.
pub open spec fn file_hits(
    checks: Seq<CheckSpec>,
    language: Language,
    lines: Seq<Seq<char>>,
) -> Seq<SafePatternHitSpec>
    decreases lines.len(),
{
    if lines.len() == 0 {
        Seq::empty()
    } else {
        file_hits(checks, language, lines.drop_last()) + line_hits(
            checks,
            language,
            lines.len(),
            lines.last(),
        )
    }
}

/// What matching finds in a file of `language` that has the lines `lines`.
pub open spec fn file_scan(
    checks: Seq<CheckSpec>,
    language: Language,
    lines: Seq<Seq<char>>,
) -> FileScanSpec {
    FileScanSpec {
        findings: file_findings(checks, language, lines),
        safe_hits: file_hits(checks, language, lines),
    }
}

/// Whether the catalog has a check for each of `findings`.
pub open spec fn all_known(checks: Seq<CheckSpec>, findings: Seq<RawFindingSpec>) -> bool {
    forall|i: int| 0 <= i < findings.len() ==> knows(checks, (#[trigger] findings[i]).check_id)
}

/// The findings on a line come from the checks that were asked.
proof fn lemma_line_findings_known(
    catalog: Seq<CheckSpec>,
    asked: int,
    language: Language,
    line_number: nat,
    line: Seq<char>,
)
    requires
        0 <= asked <= catalog.len(),
    ensures
        all_known(catalog, line_findings(catalog.take(asked), language, line_number, line)),
    decreases asked,
{
    if asked > 0 {
        let checks = catalog.take(asked);
        assert(checks.drop_last() == catalog.take(asked - 1));
        lemma_line_findings_known(catalog, asked - 1, language, line_number, line);
        let findings = line_findings(checks, language, line_number, line);
        assert forall|i: int| 0 <= i < findings.len() implies knows(
            catalog,
            (#[trigger] findings[i]).check_id,
        ) by {
            let before = line_findings(checks.drop_last(), language, line_number, line);
            if i < before.len() {
                assert(findings[i] == before[i]);
            } else {
                assert(catalog[asked - 1].id == findings[i].check_id);
            }
        }
    }
}

/// Every finding in a file is a finding of a check of the catalog.
pub proof fn lemma_file_findings_known(
    checks: Seq<CheckSpec>,
    language: Language,
    lines: Seq<Seq<char>>,
)
    ensures
        all_known(checks, file_findings(checks, language, lines)),
    decreases lines.len(),
{
    if lines.len() > 0 {
        lemma_file_findings_known(checks, language, lines.drop_last());
        lemma_line_findings_known(checks, checks.len() as int, language, lines.len(), lines.last());
        assert(checks.take(checks.len() as int) == checks);
        let before = file_findings(checks, language, lines.drop_last());
        let last = line_findings(checks, language, lines.len(), lines.last());
        let findings = file_findings(checks, language, lines);
        assert forall|i: int| 0 <= i < findings.len() implies knows(
            checks,
            (#[trigger] findings[i]).check_id,
        ) by {
            if i < before.len() {
                assert(findings[i] == before[i]);
            } else {
                assert(findings[i] == last[i - before.len()]);
            }
        }
    }
}

/// Matches the lines of one file of `language` against the catalog.
pub fn scan_lines(catalog: &Catalog, language: Language, lines: &Vec<String>) -> (scan: FileScan)
    ensures
        scan@ == file_scan(catalog@, language, view_each(lines@)),
        all_known(catalog@, scan@.findings),
{
    proof {
        lemma_file_findings_known(catalog@, language, view_each(lines@));
    }
    let mut findings: Vec<RawFinding> = Vec::new();
    let mut safe_hits: Vec<SafePatternHit> = Vec::new();
    let ghost checks = catalog@;
    let ghost texts = view_each(lines@);
    let mut l: usize = 0;
    while l < lines.len()
        invariant
            l <= lines.len(),
            checks == catalog@,
            texts == view_each(lines@),
            view_each(findings@) == file_findings(checks, language, texts.take(l as int)),
            view_each(safe_hits@) == file_hits(checks, language, texts.take(l as int)),
        decreases lines.len() - l,
    {
        let line = lines[l].as_str();
        let ghost done = texts.take(l as int);
        proof {
            assert(texts.take(l + 1).drop_last() == done);
            assert(texts.take(l + 1).last() == line@);
        }
        let mut c: usize = 0;
        while c < catalog.len()
            invariant
                c <= checks.len(),
                l < lines.len(),
                checks == catalog@,
                line@ == texts[l as int],
                texts == view_each(lines@),
                done == texts.take(l as int),
                view_each(findings@) == file_findings(checks, language, done) + line_findings(
                    checks.take(c as int),
                    language,
                    (l + 1) as nat,
                    line@,
                ),
                view_each(safe_hits@) == file_hits(checks, language, done) + line_hits(
                    checks.take(c as int),
                    language,
                    (l + 1) as nat,
                    line@,
                ),
            decreases checks.len() - c,
        {
            let check = catalog.check(c);
            proof {
                assert(checks.take(c + 1).drop_last() == checks.take(c as int));
                assert(checks.take(c + 1).last() == check@);
            }
            if check.language == language {
                if catalog.pattern_matches(c, line) {
                    let finding = RawFinding {
                        line_number: l + 1,
                        check_id: check.id.clone(),
                        severity: check.severity,
                        suggested_fix: check.suggested_fix.clone(),
                    };
                    proof {
                        lemma_view_each_push(findings@, finding);
                    }
                    findings.push(finding);
                }
                if catalog.safe_pattern_matches(c, line) {
                    let hit = SafePatternHit {
                        line_number: l + 1,
                        check_id: check.id.clone(),
                        title: check.title.clone(),
                        safe_pattern: match &check.safe_pattern {
                            Some(safe_pattern) => safe_pattern.clone(),
                            None => String::new(),
                        },
                    };
                    proof {
                        lemma_view_each_push(safe_hits@, hit);
                    }
                    safe_hits.push(hit);
                }
            }
            c += 1;
        }
        proof {
            assert(checks.take(c as int) == checks);
        }
        l += 1;
    }
    proof {
        assert(texts.take(l as int) == texts);
    }
    FileScan { findings, safe_hits }
}

/// Matches the text of one file of `language` against the catalog.
pub fn scan_file(catalog: &Catalog, language: Language, content: &str) -> (scan: FileScan)
    ensures
        scan@ == file_scan(catalog@, language, lines_of(content@)),
        all_known(catalog@, scan@.findings),
{
    let lines = split_lines(content);
    scan_lines(catalog, language, &lines)
}

/// A check that reports a line has a finding among the findings on that
/// line.
pub proof fn lemma_line_finding_present(
    checks: Seq<CheckSpec>,
    language: Language,
    line_number: nat,
    line: Seq<char>,
    c: int,
)
    requires
        0 <= c < checks.len(),
        raises(checks[c], language, line),
    ensures
        line_findings(checks, language, line_number, line).contains(
            finding_of(checks[c], line_number),
        ),
    decreases checks.len(),
{
    let findings = line_findings(checks, language, line_number, line);
    let before = line_findings(checks.drop_last(), language, line_number, line);
    if c == checks.len() - 1 {
        assert(findings[before.len() as int] == finding_of(checks[c], line_number));
    } else {
        lemma_line_finding_present(checks.drop_last(), language, line_number, line, c);
        let at = choose|at: int|
            0 <= at < before.len() && before[at] == finding_of(checks[c], line_number);
        assert(findings[at] == before[at]);
    }
}

/// A check that vouches for a line has a hit among the safe-pattern hits on
/// that line.
pub proof fn lemma_line_hit_present(
    checks: Seq<CheckSpec>,
    language: Language,
    line_number: nat,
    line: Seq<char>,
    c: int,
)
    requires
        0 <= c < checks.len(),
        vouches(checks[c], language, line),
    ensures
        line_hits(checks, language, line_number, line).contains(hit_of(checks[c], line_number)),
    decreases checks.len(),
{
    let hits = line_hits(checks, language, line_number, line);
    let before = line_hits(checks.drop_last(), language, line_number, line);
    if c == checks.len() - 1 {
        assert(hits[before.len() as int] == hit_of(checks[c], line_number));
    } else {
        lemma_line_hit_present(checks.drop_last(), language, line_number, line, c);
        let at = choose|at: int| 0 <= at < before.len() && before[at] == hit_of(checks[c], line_number);
        assert(hits[at] == before[at]);
    }
}

/// A check that reports a line of a file has a finding for it among the
/// findings in the file.
pub proof fn lemma_file_finding_present(
    checks: Seq<CheckSpec>,
    language: Language,
    lines: Seq<Seq<char>>,
    l: int,
    c: int,
)
    requires
        0 <= l < lines.len(),
        0 <= c < checks.len(),
        raises(checks[c], language, lines[l]),
    ensures
        file_findings(checks, language, lines).contains(finding_of(checks[c], (l + 1) as nat)),
    decreases lines.len(),
{
    let wanted = finding_of(checks[c], (l + 1) as nat);
    let findings = file_findings(checks, language, lines);
    let before = file_findings(checks, language, lines.drop_last());
    let last = line_findings(checks, language, lines.len(), lines.last());
    if l == lines.len() - 1 {
        lemma_line_finding_present(checks, language, lines.len(), lines.last(), c);
        let at = choose|at: int| 0 <= at < last.len() && last[at] == wanted;
        assert(findings[before.len() + at] == wanted);
    } else {
        lemma_file_finding_present(checks, language, lines.drop_last(), l, c);
        let at = choose|at: int| 0 <= at < before.len() && before[at] == wanted;
        assert(findings[at] == wanted);
    }
}

/// A check that vouches for a line of a file has a hit for it among the
/// safe-pattern hits in the file.
pub proof fn lemma_file_hit_present(
    checks: Seq<CheckSpec>,
    language: Language,
    lines: Seq<Seq<char>>,
    l: int,
    c: int,
)
    requires
        0 <= l < lines.len(),
        0 <= c < checks.len(),
        vouches(checks[c], language, lines[l]),
    ensures
        file_hits(checks, language, lines).contains(hit_of(checks[c], (l + 1) as nat)),
    decreases lines.len(),
{
    let wanted = hit_of(checks[c], (l + 1) as nat);
    let hits = file_hits(checks, language, lines);
    let before = file_hits(checks, language, lines.drop_last());
    let last = line_hits(checks, language, lines.len(), lines.last());
    if l == lines.len() - 1 {
        lemma_line_hit_present(checks, language, lines.len(), lines.last(), c);
        let at = choose|at: int| 0 <= at < last.len() && last[at] == wanted;
        assert(hits[before.len() + at] == wanted);
    } else {
        lemma_file_hit_present(checks, language, lines.drop_last(), l, c);
        let at = choose|at: int| 0 <= at < before.len() && before[at] == wanted;
        assert(hits[at] == wanted);
    }
}

/// A line that matches both the pattern and the safe pattern of a check
/// gives both: a finding and a safe-pattern hit. Neither keeps the other
/// away.
pub proof fn lemma_finding_and_hit_on_one_line(
    checks: Seq<CheckSpec>,
    language: Language,
    lines: Seq<Seq<char>>,
    l: int,
    c: int,
)
    requires
        0 <= l < lines.len(),
        0 <= c < checks.len(),
        raises(checks[c], language, lines[l]),
        vouches(checks[c], language, lines[l]),
    ensures
        file_scan(checks, language, lines).findings.contains(
            finding_of(checks[c], (l + 1) as nat),
        ),
        file_scan(checks, language, lines).safe_hits.contains(hit_of(checks[c], (l + 1) as nat)),
{
    lemma_file_finding_present(checks, language, lines, l, c);
    lemma_file_hit_present(checks, language, lines, l, c);
}

/// Whether `finding` is what one of `checks` gives on one of `lines` that it
/// reports.
pub open spec fn is_reported(
    checks: Seq<CheckSpec>,
    language: Language,
    lines: Seq<Seq<char>>,
    finding: RawFindingSpec,
) -> bool {
    exists|l: int, c: int|
        0 <= l < lines.len() && 0 <= c < checks.len() && #[trigger] raises(
            checks[c],
            language,
            lines[l],
        ) && finding == finding_of(checks[c], (l + 1) as nat)
}

/// Whether `hit` is what one of `checks` gives on one of `lines` that it
/// vouches for.
pub open spec fn is_vouched(
    checks: Seq<CheckSpec>,
    language: Language,
    lines: Seq<Seq<char>>,
    hit: SafePatternHitSpec,
) -> bool {
    exists|l: int, c: int|
        0 <= l < lines.len() && 0 <= c < checks.len() && #[trigger] vouches(
            checks[c],
            language,
            lines[l],
        ) && hit == hit_of(checks[c], (l + 1) as nat)
}

/// Whether `finding` is what one of the first `asked` checks gives on a line
/// that it reports.
spec fn is_reported_on_line(
    checks: Seq<CheckSpec>,
    asked: int,
    language: Language,
    line_number: nat,
    line: Seq<char>,
    finding: RawFindingSpec,
) -> bool {
    exists|c: int|
        0 <= c < asked && #[trigger] raises(checks[c], language, line) && finding == finding_of(
            checks[c],
            line_number,
        )
}

/// Whether `hit` is what one of the first `asked` checks gives on a line that
/// it vouches for.
spec fn is_vouched_on_line(
    checks: Seq<CheckSpec>,
    asked: int,
    language: Language,
    line_number: nat,
    line: Seq<char>,
    hit: SafePatternHitSpec,
) -> bool {
    exists|c: int|
        0 <= c < asked && #[trigger] vouches(checks[c], language, line) && hit == hit_of(
            checks[c],
            line_number,
        )
}

/// Each finding that the first `asked` checks give on a line is the finding
/// of one of them that reports the line.
proof fn lemma_line_findings_reported(
    checks: Seq<CheckSpec>,
    asked: int,
    language: Language,
    line_number: nat,
    line: Seq<char>,
)
    requires
        0 <= asked <= checks.len(),
    ensures
        forall|i: int|
            0 <= i < line_findings(checks.take(asked), language, line_number, line).len()
                ==> is_reported_on_line(
                checks,
                asked,
                language,
                line_number,
                line,
                #[trigger] line_findings(checks.take(asked), language, line_number, line)[i],
            ),
    decreases asked,
{
    if asked > 0 {
        let prefix = checks.take(asked);
        assert(prefix.drop_last() == checks.take(asked - 1));
        assert(prefix.last() == checks[asked - 1]);
        lemma_line_findings_reported(checks, asked - 1, language, line_number, line);
        let findings = line_findings(prefix, language, line_number, line);
        let before = line_findings(prefix.drop_last(), language, line_number, line);
        assert forall|i: int| 0 <= i < findings.len() implies is_reported_on_line(
            checks,
            asked,
            language,
            line_number,
            line,
            #[trigger] findings[i],
        ) by {
            if i < before.len() {
                assert(findings[i] == before[i]);
                assert(is_reported_on_line(
                    checks,
                    asked - 1,
                    language,
                    line_number,
                    line,
                    before[i],
                ));
                let c = choose|c: int|
                    0 <= c < asked - 1 && #[trigger] raises(checks[c], language, line) && before[i]
                        == finding_of(checks[c], line_number);
                assert(raises(checks[c], language, line));
            } else {
                assert(raises(checks[asked - 1], language, line));
            }
        }
    }
}

/// Each hit that the first `asked` checks give on a line is the hit of one
/// of them that vouches for the line.
proof fn lemma_line_hits_vouched(
    checks: Seq<CheckSpec>,
    asked: int,
    language: Language,
    line_number: nat,
    line: Seq<char>,
)
    requires
        0 <= asked <= checks.len(),
    ensures
        forall|i: int|
            0 <= i < line_hits(checks.take(asked), language, line_number, line).len()
                ==> is_vouched_on_line(
                checks,
                asked,
                language,
                line_number,
                line,
                #[trigger] line_hits(checks.take(asked), language, line_number, line)[i],
            ),
    decreases asked,
{
    if asked > 0 {
        let prefix = checks.take(asked);
        assert(prefix.drop_last() == checks.take(asked - 1));
        assert(prefix.last() == checks[asked - 1]);
        lemma_line_hits_vouched(checks, asked - 1, language, line_number, line);
        let hits = line_hits(prefix, language, line_number, line);
        let before = line_hits(prefix.drop_last(), language, line_number, line);
        assert forall|i: int| 0 <= i < hits.len() implies is_vouched_on_line(
            checks,
            asked,
            language,
            line_number,
            line,
            #[trigger] hits[i],
        ) by {
            if i < before.len() {
                assert(hits[i] == before[i]);
                assert(is_vouched_on_line(
                    checks,
                    asked - 1,
                    language,
                    line_number,
                    line,
                    before[i],
                ));
                let c = choose|c: int|
                    0 <= c < asked - 1 && #[trigger] vouches(checks[c], language, line) && before[i]
                        == hit_of(checks[c], line_number);
                assert(vouches(checks[c], language, line));
            } else {
                assert(vouches(checks[asked - 1], language, line));
            }
        }
    }
}

/// Every finding in a file is the finding of a check on a line that the
/// check reports.
pub proof fn lemma_file_findings_reported(
    checks: Seq<CheckSpec>,
    language: Language,
    lines: Seq<Seq<char>>,
)
    ensures
        forall|i: int|
            0 <= i < file_findings(checks, language, lines).len() ==> is_reported(
                checks,
                language,
                lines,
                #[trigger] file_findings(checks, language, lines)[i],
            ),
    decreases lines.len(),
{
    if lines.len() > 0 {
        let earlier = lines.drop_last();
        lemma_file_findings_reported(checks, language, earlier);
        lemma_line_findings_reported(
            checks,
            checks.len() as int,
            language,
            lines.len(),
            lines.last(),
        );
        assert(checks.take(checks.len() as int) == checks);
        let findings = file_findings(checks, language, lines);
        let before = file_findings(checks, language, earlier);
        let last = line_findings(checks, language, lines.len(), lines.last());
        assert forall|i: int| 0 <= i < findings.len() implies is_reported(
            checks,
            language,
            lines,
            #[trigger] findings[i],
        ) by {
            if i < before.len() {
                assert(findings[i] == before[i]);
                assert(is_reported(checks, language, earlier, before[i]));
                let (l, c) = choose|l: int, c: int|
                    0 <= l < earlier.len() && 0 <= c < checks.len() && #[trigger] raises(
                        checks[c],
                        language,
                        earlier[l],
                    ) && before[i] == finding_of(checks[c], (l + 1) as nat);
                assert(earlier[l] == lines[l]);
                assert(raises(checks[c], language, lines[l]));
            } else {
                let at = i - before.len();
                assert(findings[i] == last[at]);
                assert(is_reported_on_line(
                    checks,
                    checks.len() as int,
                    language,
                    lines.len(),
                    lines.last(),
                    last[at],
                ));
                let c = choose|c: int|
                    0 <= c < checks.len() && #[trigger] raises(checks[c], language, lines.last())
                        && last[at] == finding_of(checks[c], lines.len());
                let l = lines.len() - 1;
                assert(raises(checks[c], language, lines[l]));
            }
        }
    }
}

/// Every safe-pattern hit in a file is the hit of a check on a line that the
/// check vouches for.
pub proof fn lemma_file_hits_vouched(
    checks: Seq<CheckSpec>,
    language: Language,
    lines: Seq<Seq<char>>,
)
    ensures
        forall|i: int|
            0 <= i < file_hits(checks, language, lines).len() ==> is_vouched(
                checks,
                language,
                lines,
                #[trigger] file_hits(checks, language, lines)[i],
            ),
    decreases lines.len(),
{
    if lines.len() > 0 {
        let earlier = lines.drop_last();
        lemma_file_hits_vouched(checks, language, earlier);
        lemma_line_hits_vouched(checks, checks.len() as int, language, lines.len(), lines.last());
        assert(checks.take(checks.len() as int) == checks);
        let hits = file_hits(checks, language, lines);
        let before = file_hits(checks, language, earlier);
        let last = line_hits(checks, language, lines.len(), lines.last());
        assert forall|i: int| 0 <= i < hits.len() implies is_vouched(
            checks,
            language,
            lines,
            #[trigger] hits[i],
        ) by {
            if i < before.len() {
                assert(hits[i] == before[i]);
                assert(is_vouched(checks, language, earlier, before[i]));
                let (l, c) = choose|l: int, c: int|
                    0 <= l < earlier.len() && 0 <= c < checks.len() && #[trigger] vouches(
                        checks[c],
                        language,
                        earlier[l],
                    ) && before[i] == hit_of(checks[c], (l + 1) as nat);
                assert(earlier[l] == lines[l]);
                assert(vouches(checks[c], language, lines[l]));
            } else {
                let at = i - before.len();
                assert(hits[i] == last[at]);
                assert(is_vouched_on_line(
                    checks,
                    checks.len() as int,
                    language,
                    lines.len(),
                    lines.last(),
                    last[at],
                ));
                let c = choose|c: int|
                    0 <= c < checks.len() && #[trigger] vouches(checks[c], language, lines.last())
                        && last[at] == hit_of(checks[c], lines.len());
                let l = lines.len() - 1;
                assert(vouches(checks[c], language, lines[l]));
            }
        }
    }
}

/// The findings in a file are what the checks give on the lines that they
/// report, and nothing else; the safe-pattern hits are what the checks give
/// on the lines that they vouch for, and nothing else.
pub proof fn lemma_scan_is_exact(checks: Seq<CheckSpec>, language: Language, lines: Seq<Seq<char>>)
    ensures
        forall|finding: RawFindingSpec| #[trigger]
            file_scan(checks, language, lines).findings.contains(finding) <==> is_reported(
                checks,
                language,
                lines,
                finding,
            ),
        forall|hit: SafePatternHitSpec| #[trigger]
            file_scan(checks, language, lines).safe_hits.contains(hit) <==> is_vouched(
                checks,
                language,
                lines,
                hit,
            ),
{
    let findings = file_findings(checks, language, lines);
    let hits = file_hits(checks, language, lines);
    lemma_file_findings_reported(checks, language, lines);
    lemma_file_hits_vouched(checks, language, lines);
    assert forall|finding: RawFindingSpec| #[trigger]
        findings.contains(finding) <==> is_reported(checks, language, lines, finding) by {
        if findings.contains(finding) {
            let i = choose|i: int| 0 <= i < findings.len() && findings[i] == finding;
            assert(is_reported(checks, language, lines, findings[i]));
        }
        if is_reported(checks, language, lines, finding) {
            let (l, c) = choose|l: int, c: int|
                0 <= l < lines.len() && 0 <= c < checks.len() && #[trigger] raises(
                    checks[c],
                    language,
                    lines[l],
                ) && finding == finding_of(checks[c], (l + 1) as nat);
            lemma_file_finding_present(checks, language, lines, l, c);
        }
    }
    assert forall|hit: SafePatternHitSpec| #[trigger]
        hits.contains(hit) <==> is_vouched(checks, language, lines, hit) by {
        if hits.contains(hit) {
            let i = choose|i: int| 0 <= i < hits.len() && hits[i] == hit;
            assert(is_vouched(checks, language, lines, hits[i]));
        }
        if is_vouched(checks, language, lines, hit) {
            let (l, c) = choose|l: int, c: int|
                0 <= l < lines.len() && 0 <= c < checks.len() && #[trigger] vouches(
                    checks[c],
                    language,
                    lines[l],
                ) && hit == hit_of(checks[c], (l + 1) as nat);
            lemma_file_hit_present(checks, language, lines, l, c);
        }
    }
}

/// All the findings on a line carry the number of that line.
pub proof fn lemma_line_findings_numbered(
    checks: Seq<CheckSpec>,
    language: Language,
    line_number: nat,
    line: Seq<char>,
)
    ensures
        forall|i: int|
            0 <= i < line_findings(checks, language, line_number, line).len() ==> (
            #[trigger] line_findings(checks, language, line_number, line)[i]).line_number
                == line_number,
    decreases checks.len(),
{
    if checks.len() > 0 {
        lemma_line_findings_numbered(checks.drop_last(), language, line_number, line);
    }
}

/// The findings in a file stand in the order of the lines, and each carries
/// the number of a line of the file.
pub proof fn lemma_file_findings_in_line_order(
    checks: Seq<CheckSpec>,
    language: Language,
    lines: Seq<Seq<char>>,
)
    ensures
        forall|i: int|
            0 <= i < file_findings(checks, language, lines).len() ==> 1 <= (
            #[trigger] file_findings(checks, language, lines)[i]).line_number <= lines.len(),
        forall|i: int, j: int|
            0 <= i <= j < file_findings(checks, language, lines).len() ==> (
            #[trigger] file_findings(checks, language, lines)[i]).line_number <= (
            #[trigger] file_findings(checks, language, lines)[j]).line_number,
    decreases lines.len(),
{
    if lines.len() > 0 {
        lemma_file_findings_in_line_order(checks, language, lines.drop_last());
        lemma_line_findings_numbered(checks, language, lines.len(), lines.last());
        let findings = file_findings(checks, language, lines);
        let before = file_findings(checks, language, lines.drop_last());
        let last = line_findings(checks, language, lines.len(), lines.last());
        assert forall|i: int| 0 <= i < findings.len() implies 1 <= (
        #[trigger] findings[i]).line_number <= lines.len() by {
            if i < before.len() {
                assert(findings[i] == before[i]);
            } else {
                assert(findings[i] == last[i - before.len()]);
            }
        }
        assert forall|i: int, j: int| 0 <= i <= j < findings.len() implies (
        #[trigger] findings[i]).line_number <= (#[trigger] findings[j]).line_number by {
            if j < before.len() {
                assert(findings[i] == before[i]);
                assert(findings[j] == before[j]);
            } else {
                assert(findings[j] == last[j - before.len()]);
                if i < before.len() {
                    assert(findings[i] == before[i]);
                } else {
                    assert(findings[i] == last[i - before.len()]);
                }
            }
        }
    }
}

/// The number of hits among `hits` that belong to the check `id`.
pub open spec fn hits_for(hits: Seq<SafePatternHitSpec>, id: Seq<char>) -> nat
    decreases hits.len(),
{
    if hits.len() == 0 {
        0
    } else {
        hits_for(hits.drop_last(), id) + if hits.last().check_id == id {
            1nat
        } else {
            0nat
        }
    }
}

/// The number of lines among `lines` that match the safe pattern of `check`.
pub open spec fn safe_lines(check: CheckSpec, lines: Seq<Seq<char>>) -> nat
    decreases lines.len(),
{
    if lines.len() == 0 {
        0
    } else {
        safe_lines(check, lines.drop_last()) + if safe_pattern_hits(check, lines.last()) {
            1nat
        } else {
            0nat
        }
    }
}

/// The hits of two sequences are counted apart.
pub proof fn lemma_hits_for_concat(
    first: Seq<SafePatternHitSpec>,
    second: Seq<SafePatternHitSpec>,
    id: Seq<char>,
)
    ensures
        hits_for(first + second, id) == hits_for(first, id) + hits_for(second, id),
    decreases second.len(),
{
    if second.len() == 0 {
        assert(first + second == first);
    } else {
        assert((first + second).drop_last() == first + second.drop_last());
        lemma_hits_for_concat(first, second.drop_last(), id);
    }
}

/// Among the hits that the first `asked` checks give on a line, the check at
/// `c` has one if it was asked and vouches for the line, and none else.
proof fn lemma_line_hits_of_asked(
    checks: Seq<CheckSpec>,
    asked: int,
    language: Language,
    line_number: nat,
    line: Seq<char>,
    c: int,
)
    requires
        ids_distinct(checks),
        0 <= c < checks.len(),
        0 <= asked <= checks.len(),
    ensures
        hits_for(line_hits(checks.take(asked), language, line_number, line), checks[c].id) == (if c
            < asked && vouches(checks[c], language, line) {
            1nat
        } else {
            0nat
        }),
    decreases asked,
{
    if asked > 0 {
        let prefix = checks.take(asked);
        assert(prefix.drop_last() == checks.take(asked - 1));
        assert(prefix.last() == checks[asked - 1]);
        lemma_line_hits_of_asked(checks, asked - 1, language, line_number, line, c);
        if asked - 1 != c {
            assert(checks[asked - 1].id != checks[c].id);
        }
        if vouches(prefix.last(), language, line) {
            let before = line_hits(prefix.drop_last(), language, line_number, line);
            let hit = hit_of(prefix.last(), line_number);
            assert(before.push(hit).drop_last() == before);
            assert(before.push(hit).last() == hit);
        }
    }
}

/// With distinct identifiers, a check has one hit on a line that it vouches
/// for and none on any other.
pub proof fn lemma_line_hits_for(
    checks: Seq<CheckSpec>,
    language: Language,
    line_number: nat,
    line: Seq<char>,
    c: int,
)
    requires
        ids_distinct(checks),
        0 <= c < checks.len(),
    ensures
        hits_for(line_hits(checks, language, line_number, line), checks[c].id) == (if vouches(
            checks[c],
            language,
            line,
        ) {
            1nat
        } else {
            0nat
        }),
{
    lemma_line_hits_of_asked(checks, checks.len() as int, language, line_number, line, c);
    assert(checks.take(checks.len() as int) == checks);
}

/// With distinct identifiers, a check has as many hits in a file of its
/// language as lines of the file match its safe pattern, and none in a file
/// of another language.
pub proof fn lemma_file_hits_for(
    checks: Seq<CheckSpec>,
    language: Language,
    lines: Seq<Seq<char>>,
    c: int,
)
    requires
        ids_distinct(checks),
        0 <= c < checks.len(),
    ensures
        hits_for(file_hits(checks, language, lines), checks[c].id) == (if checks[c].language
            == language {
            safe_lines(checks[c], lines)
        } else {
            0nat
        }),
    decreases lines.len(),
{
    if lines.len() > 0 {
        lemma_file_hits_for(checks, language, lines.drop_last(), c);
        lemma_line_hits_for(checks, language, lines.len(), lines.last(), c);
        lemma_hits_for_concat(
            file_hits(checks, language, lines.drop_last()),
            line_hits(checks, language, lines.len(), lines.last()),
            checks[c].id,
        );
    }
}

} // verus!
