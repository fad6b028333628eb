//! Folding what was found in each file into the running state of a language.
//!
//! The state of a language holds the files that were scanned, the findings
//! in them, and for each check whose safe pattern matched somewhere the
//! evidence of it: every sighting, and the files they were seen in, each
//! file once.

use vstd::prelude::*;
use vstd::pervasive::unreached;
use crate::catalog::{entry_for, Catalog, CheckSpec, Language, Severity};
use crate::matcher::{
    all_known,
    hits_for,
    FileScan,
    FileScanSpec,
    RawFinding,
    RawFindingSpec,
    SafePatternHit,
    SafePatternHitSpec,
};
use crate::views::{
    add_once,
    lemma_add_once_no_duplicates,
    lemma_add_once_to_set,
    lemma_view_each_push,
    push_once,
    view_each,
};

verus! {

/// One line on which a safe pattern matched.
#[derive(Clone, Debug, PartialEq, Eq)]
pub struct Sighting {
    pub file: String,
    pub line_number: usize,
}

pub struct SightingSpec {
    pub file: Seq<char>,
    pub line_number: nat,
}

impl View for Sighting {
    type V = SightingSpec;

    open spec fn view(&self) -> SightingSpec {
        SightingSpec { file: self.file@, line_number: self.line_number as nat }
    }
}

/// The evidence that the risky construct of one check was used safely.
#[derive(Debug)]
pub struct SafePatternEvidence {
    pattern_id: String,
    title: String,
    safe_pattern: String,
    sightings: Vec<Sighting>,
    files: Vec<String>,
}

pub struct EvidenceSpec {
    pub pattern_id: Seq<char>,
    pub title: Seq<char>,
    pub safe_pattern: Seq<char>,
    /// Every line on which the safe pattern matched, in the order of
    /// scanning.
    pub sightings: Seq<SightingSpec>,
    /// The files of the sightings, each once, in the order in which they
    /// were first seen.
    pub files: Seq<Seq<char>>,
}

/// The files of `sightings`.
pub open spec fn sighting_files(sightings: Seq<SightingSpec>) -> Set<Seq<char>> {
    Set::new(
        |file: Seq<char>|
            exists|k: int| 0 <= k < sightings.len() && (#[trigger] sightings[k]).file == file,
    )
}

/// One more sighting adds its file to the files of the sightings.
pub proof fn lemma_sighting_files_push(sightings: Seq<SightingSpec>, sighting: SightingSpec)
    ensures
        sighting_files(sightings.push(sighting)) == sighting_files(sightings).insert(
            sighting.file,
        ),
{
    let after = sightings.push(sighting);
    assert forall|file: Seq<char>| sighting_files(after).contains(file) <==> sighting_files(
        sightings,
    ).insert(sighting.file).contains(file) by {
        if sighting_files(after).contains(file) {
            let k = choose|k: int| 0 <= k < after.len() && (#[trigger] after[k]).file == file;
            if k < sightings.len() {
                assert(sightings[k].file == file);
            }
        }
        if sighting_files(sightings).contains(file) {
            let k = choose|k: int|
                0 <= k < sightings.len() && (#[trigger] sightings[k]).file == file;
            assert(after[k].file == file);
        }
        if file == sighting.file {
            assert(after[sightings.len() as int].file == file);
        }
    }
    assert(sighting_files(after) =~= sighting_files(sightings).insert(sighting.file));
}

impl EvidenceSpec {
    /// Whether the evidence has a sighting, and its files are the files of
    /// its sightings, each named once.
    pub open spec fn consistent(self) -> bool {
        &&& self.sightings.len() > 0
        &&& self.files.no_duplicates()
        &&& self.files.to_set() == sighting_files(self.sightings)
    }

    /// The number of lines on which the safe pattern matched.
    pub open spec fn occurrences(self) -> nat {
        self.sightings.len()
    }

    /// The evidence that starts with `hit` in `file`.
    pub open spec fn first_seen(file: Seq<char>, hit: SafePatternHitSpec) -> EvidenceSpec {
        EvidenceSpec {
            pattern_id: hit.check_id,
            title: hit.title,
            safe_pattern: hit.safe_pattern,
            sightings: seq![SightingSpec { file, line_number: hit.line_number }],
            files: seq![file],
        }
    }

    /// The evidence after one more sighting, on the line `line_number` of
    /// `file`.
    pub open spec fn seen(self, file: Seq<char>, line_number: nat) -> EvidenceSpec {
        EvidenceSpec {
            sightings: self.sightings.push(SightingSpec { file, line_number }),
            files: add_once(self.files, file),
            ..self
        }
    }
}

impl View for SafePatternEvidence {
    type V = EvidenceSpec;

    closed spec fn view(&self) -> EvidenceSpec {
        EvidenceSpec {
            pattern_id: self.pattern_id@,
            title: self.title@,
            safe_pattern: self.safe_pattern@,
            sightings: view_each(self.sightings@),
            files: view_each(self.files@),
        }
    }
}

impl SafePatternEvidence {
    fn first_seen(file: &String, hit: &SafePatternHit) -> (evidence: SafePatternEvidence)
        ensures
            evidence@ == EvidenceSpec::first_seen(file@, hit@),
    {
        let mut sightings: Vec<Sighting> = Vec::new();
        sightings.push(Sighting { file: file.clone(), line_number: hit.line_number });
        let mut files: Vec<String> = Vec::new();
        files.push(file.clone());
        let evidence = SafePatternEvidence {
            pattern_id: hit.check_id.clone(),
            title: hit.title.clone(),
            safe_pattern: hit.safe_pattern.clone(),
            sightings,
            files,
        };
        assert(evidence@.sightings == EvidenceSpec::first_seen(file@, hit@).sightings);
        assert(evidence@.files == EvidenceSpec::first_seen(file@, hit@).files);
        evidence
    }

    fn see(&mut self, file: &String, line_number: usize)
        ensures
            final(self)@ == old(self)@.seen(file@, line_number as nat),
    {
        let sighting = Sighting { file: file.clone(), line_number };
        proof {
            lemma_view_each_push(self.sightings@, sighting);
        }
        self.sightings.push(sighting);
        push_once(&mut self.files, file);
    }

    /// Takes the evidence apart: the check's identifier, its title, its safe
    /// pattern, the sightings and the files.
    pub fn into_parts(self) -> (parts: (String, String, String, Vec<Sighting>, Vec<String>))
        ensures
            parts.0@ == self@.pattern_id,
            parts.1@ == self@.title,
            parts.2@ == self@.safe_pattern,
            view_each(parts.3@) == self@.sightings,
            view_each(parts.4@) == self@.files,
    {
        (self.pattern_id, self.title, self.safe_pattern, self.sightings, self.files)
    }

    pub fn pattern_id(&self) -> (id: &String)
        ensures
            id@ == self@.pattern_id,
    {
        &self.pattern_id
    }

    pub fn title(&self) -> (title: &String)
        ensures
            title@ == self@.title,
    {
        &self.title
    }

    pub fn safe_pattern(&self) -> (safe_pattern: &String)
        ensures
            safe_pattern@ == self@.safe_pattern,
    {
        &self.safe_pattern
    }

    /// The number of lines on which the safe pattern matched.
    pub fn occurrences(&self) -> (n: usize)
        ensures
            n == self@.occurrences(),
    {
        self.sightings.len()
    }

    pub fn sightings(&self) -> (sightings: &Vec<Sighting>)
        ensures
            view_each(sightings@) == self@.sightings,
    {
        &self.sightings
    }

    pub fn files(&self) -> (files: &Vec<String>)
        ensures
            view_each(files@) == self@.files,
    {
        &self.files
    }
}

/// Whether `evidence` holds an entry for the check `id`.
pub open spec fn holds(evidence: Seq<EvidenceSpec>, id: Seq<char>) -> bool {
    exists|i: int| 0 <= i < evidence.len() && #[trigger] evidence[i].pattern_id == id
}

/// The place of the entry for the check `id` in `evidence`.
pub open spec fn place_of(evidence: Seq<EvidenceSpec>, id: Seq<char>) -> int {
    choose|i: int| 0 <= i < evidence.len() && #[trigger] evidence[i].pattern_id == id
}

/// Whether `evidence` has one entry for a check at most, and each entry is
/// consistent.
pub open spec fn evidence_wf(evidence: Seq<EvidenceSpec>) -> bool {
    &&& forall|i: int, j: int|
        0 <= i < j < evidence.len() ==> #[trigger] evidence[i].pattern_id
            != #[trigger] evidence[j].pattern_id
    &&& forall|i: int| 0 <= i < evidence.len() ==> (#[trigger] evidence[i]).consistent()
}

/// Evidence that starts with a hit is consistent.
pub proof fn lemma_first_seen_consistent(file: Seq<char>, hit: SafePatternHitSpec)
    ensures
        EvidenceSpec::first_seen(file, hit).consistent(),
{
    let fresh = EvidenceSpec::first_seen(file, hit);
    let none = Seq::<SightingSpec>::empty();
    let sighting = SightingSpec { file, line_number: hit.line_number };
    assert(fresh.sightings == none.push(sighting));
    lemma_sighting_files_push(none, sighting);
    assert(sighting_files(none) =~= Set::<Seq<char>>::empty());
    assert(fresh.files == add_once(Seq::<Seq<char>>::empty(), file));
    lemma_add_once_to_set(Seq::<Seq<char>>::empty(), file);
    assert(Seq::<Seq<char>>::empty().to_set() =~= Set::<Seq<char>>::empty());
}

/// One more sighting keeps evidence consistent.
pub proof fn lemma_seen_consistent(evidence: EvidenceSpec, file: Seq<char>, line_number: nat)
    requires
        evidence.consistent(),
    ensures
        evidence.seen(file, line_number).consistent(),
{
    lemma_add_once_no_duplicates(evidence.files, file);
    lemma_add_once_to_set(evidence.files, file);
    lemma_sighting_files_push(evidence.sightings, SightingSpec { file, line_number });
}

/// `evidence` after one safe-pattern hit in `file`: the entry of the hit's
/// check has one more sighting, and names `file` if it did not yet; a check
/// without an entry gets one, at the end.
pub open spec fn note_hit(
    evidence: Seq<EvidenceSpec>,
    file: Seq<char>,
    hit: SafePatternHitSpec,
) -> Seq<EvidenceSpec> {
    if holds(evidence, hit.check_id) {
        let i = place_of(evidence, hit.check_id);
        evidence.update(i, evidence[i].seen(file, hit.line_number))
    } else {
        evidence.push(EvidenceSpec::first_seen(file, hit))
    }
}

/// `evidence` after the safe-pattern hits `hits` in `file`, one after the
/// other.
pub open spec fn note_hits(
    evidence: Seq<EvidenceSpec>,
    file: Seq<char>,
    hits: Seq<SafePatternHitSpec>,
) -> Seq<EvidenceSpec>
    decreases hits.len(),
{
    if hits.len() == 0 {
        evidence
    } else {
        note_hit(note_hits(evidence, file, hits.drop_last()), file, hits.last())
    }
}

/// Noting a hit keeps evidence well formed.
pub proof fn lemma_note_hit_wf(evidence: Seq<EvidenceSpec>, file: Seq<char>, hit: SafePatternHitSpec)
    requires
        evidence_wf(evidence),
    ensures
        evidence_wf(note_hit(evidence, file, hit)),
{
    let after = note_hit(evidence, file, hit);
    if holds(evidence, hit.check_id) {
        let i = place_of(evidence, hit.check_id);
        lemma_seen_consistent(evidence[i], file, hit.line_number);
        assert forall|a: int, b: int| 0 <= a < b < after.len() implies #[trigger] after[a].pattern_id
            != #[trigger] after[b].pattern_id by {
            assert(after[a].pattern_id == evidence[a].pattern_id);
            assert(after[b].pattern_id == evidence[b].pattern_id);
        }
        assert forall|a: int| 0 <= a < after.len() implies (#[trigger] after[a]).consistent() by {
            if a != i {
                assert(after[a] == evidence[a]);
            }
        }
    } else {
        let fresh = EvidenceSpec::first_seen(file, hit);
        lemma_first_seen_consistent(file, hit);
        assert forall|a: int, b: int| 0 <= a < b < after.len() implies #[trigger] after[a].pattern_id
            != #[trigger] after[b].pattern_id by {
            assert(after[a] == evidence[a]);
            if b < evidence.len() {
                assert(after[b] == evidence[b]);
            }
        }
        assert forall|a: int| 0 <= a < after.len() implies (#[trigger] after[a]).consistent() by {
            if a < evidence.len() {
                assert(after[a] == evidence[a]);
            } else {
                assert(after[a] == fresh);
            }
        }
    }
}

/// Whether each file that `evidence` names is among `files`.
pub open spec fn names_only(evidence: Seq<EvidenceSpec>, files: Seq<Seq<char>>) -> bool {
    forall|i: int, k: int|
        0 <= i < evidence.len() && 0 <= k < evidence[i].files.len() ==> files.contains(
            #[trigger] evidence[i].files[k],
        )
}

/// Whether the file of each of `results` is among `files`.
pub open spec fn filed_under(results: Seq<VulnerabilityResultSpec>, files: Seq<Seq<char>>) -> bool {
    forall|j: int| 0 <= j < results.len() ==> files.contains((#[trigger] results[j]).file)
}

/// A hit in a file lets the evidence name that file and no other new one.
pub proof fn lemma_note_hit_names_only(
    evidence: Seq<EvidenceSpec>,
    file: Seq<char>,
    hit: SafePatternHitSpec,
    files: Seq<Seq<char>>,
)
    requires
        names_only(evidence, files),
        files.contains(file),
    ensures
        names_only(note_hit(evidence, file, hit), files),
{
    let after = note_hit(evidence, file, hit);
    assert forall|i: int, k: int|
        0 <= i < after.len() && 0 <= k < after[i].files.len() implies files.contains(
        #[trigger] after[i].files[k],
    ) by {
        if holds(evidence, hit.check_id) {
            let at = place_of(evidence, hit.check_id);
            if i == at {
                let kept = evidence[at].files;
                if k < kept.len() {
                    assert(after[i].files[k] == evidence[at].files[k]);
                } else {
                    assert(after[i].files[k] == file);
                }
            } else {
                assert(after[i] == evidence[i]);
                assert(after[i].files[k] == evidence[i].files[k]);
            }
        } else {
            if i < evidence.len() {
                assert(after[i] == evidence[i]);
                assert(after[i].files[k] == evidence[i].files[k]);
            } else {
                assert(after[i].files[k] == file);
            }
        }
    }
}

/// Hits in a file let the evidence name that file and no other new one.
pub proof fn lemma_note_hits_names_only(
    evidence: Seq<EvidenceSpec>,
    file: Seq<char>,
    hits: Seq<SafePatternHitSpec>,
    files: Seq<Seq<char>>,
)
    requires
        names_only(evidence, files),
        files.contains(file),
    ensures
        names_only(note_hits(evidence, file, hits), files),
    decreases hits.len(),
{
    if hits.len() > 0 {
        lemma_note_hits_names_only(evidence, file, hits.drop_last(), files);
        lemma_note_hit_names_only(
            note_hits(evidence, file, hits.drop_last()),
            file,
            hits.last(),
            files,
        );
    }
}

/// Noting hits keeps evidence well formed.
pub proof fn lemma_note_hits_wf(
    evidence: Seq<EvidenceSpec>,
    file: Seq<char>,
    hits: Seq<SafePatternHitSpec>,
)
    requires
        evidence_wf(evidence),
    ensures
        evidence_wf(note_hits(evidence, file, hits)),
    decreases hits.len(),
{
    if hits.len() > 0 {
        lemma_note_hits_wf(evidence, file, hits.drop_last());
        lemma_note_hit_wf(note_hits(evidence, file, hits.drop_last()), file, hits.last());
    }
}

/// The number of sightings that `evidence` holds for the check `id`; none
/// if it has no entry for the check.
pub open spec fn sightings_of(evidence: Seq<EvidenceSpec>, id: Seq<char>) -> nat {
    if holds(evidence, id) {
        evidence[place_of(evidence, id)].occurrences()
    } else {
        0
    }
}

/// In well-formed evidence an entry for a check is the entry for it.
pub proof fn lemma_place_of(evidence: Seq<EvidenceSpec>, id: Seq<char>, i: int)
    requires
        evidence_wf(evidence),
        0 <= i < evidence.len(),
        evidence[i].pattern_id == id,
    ensures
        holds(evidence, id),
        place_of(evidence, id) == i,
{
    let chosen = place_of(evidence, id);
    assert(evidence[chosen].pattern_id == id);
}

/// A hit adds one sighting for its own check and none for any other.
pub proof fn lemma_note_hit_counts(
    evidence: Seq<EvidenceSpec>,
    file: Seq<char>,
    hit: SafePatternHitSpec,
    id: Seq<char>,
)
    requires
        evidence_wf(evidence),
    ensures
        sightings_of(note_hit(evidence, file, hit), id) == sightings_of(evidence, id) + (if hit.check_id
            == id {
            1nat
        } else {
            0nat
        }),
{
    let after = note_hit(evidence, file, hit);
    lemma_note_hit_wf(evidence, file, hit);
    if holds(evidence, hit.check_id) {
        let i = place_of(evidence, hit.check_id);
        assert(evidence[i].pattern_id == hit.check_id);
        assert(after[i].pattern_id == hit.check_id);
        if hit.check_id == id {
            lemma_place_of(after, id, i);
        } else if holds(evidence, id) {
            let j = place_of(evidence, id);
            assert(evidence[j].pattern_id == id);
            assert(after[j] == evidence[j]);
            lemma_place_of(after, id, j);
        } else if holds(after, id) {
            let j = place_of(after, id);
            assert(after[j].pattern_id == id);
            assert(evidence[j].pattern_id == id);
        }
    } else {
        let last = evidence.len() as int;
        assert(after[last].pattern_id == hit.check_id);
        if hit.check_id == id {
            lemma_place_of(after, id, last);
        } else if holds(evidence, id) {
            let j = place_of(evidence, id);
            assert(evidence[j].pattern_id == id);
            assert(after[j] == evidence[j]);
            lemma_place_of(after, id, j);
        } else if holds(after, id) {
            let j = place_of(after, id);
            assert(after[j].pattern_id == id);
            assert(evidence[j].pattern_id == id);
        }
    }
}

/// Hits add as many sightings for a check as belong to it.
pub proof fn lemma_note_hits_counts(
    evidence: Seq<EvidenceSpec>,
    file: Seq<char>,
    hits: Seq<SafePatternHitSpec>,
    id: Seq<char>,
)
    requires
        evidence_wf(evidence),
    ensures
        sightings_of(note_hits(evidence, file, hits), id) == sightings_of(evidence, id) + hits_for(
            hits,
            id,
        ),
    decreases hits.len(),
{
    if hits.len() > 0 {
        lemma_note_hits_counts(evidence, file, hits.drop_last(), id);
        lemma_note_hits_wf(evidence, file, hits.drop_last());
        lemma_note_hit_counts(note_hits(evidence, file, hits.drop_last()), file, hits.last(), id);
    }
}

/// Notes one safe-pattern hit in `file`.
fn record_hit(evidence: &mut Vec<SafePatternEvidence>, file: &String, hit: &SafePatternHit)
    requires
        evidence_wf(view_each(old(evidence)@)),
    ensures
        view_each(final(evidence)@) == note_hit(view_each(old(evidence)@), file@, hit@),
{
    let ghost before = view_each(evidence@);
    let mut i: usize = 0;
    while i < evidence.len()
        invariant
            i <= evidence.len(),
            *evidence == *old(evidence),
            before == view_each(evidence@),
            evidence_wf(before),
            forall|k: int| 0 <= k < i ==> #[trigger] before[k].pattern_id != hit.check_id@,
        decreases evidence.len() - i,
    {
        if evidence[i].pattern_id == hit.check_id {
            proof {
                assert(before[i as int].pattern_id == hit@.check_id);
                let chosen = place_of(before, hit@.check_id);
                assert(before[chosen].pattern_id == hit@.check_id);
                assert(chosen == i);
            }
            evidence[i].see(file, hit.line_number);
            assert(view_each(evidence@) == before.update(
                i as int,
                before[i as int].seen(file@, hit@.line_number),
            ));
            return ;
        }
        i += 1;
    }
    let fresh = SafePatternEvidence::first_seen(file, hit);
    proof {
        lemma_view_each_push(evidence@, fresh);
    }
    evidence.push(fresh);
}

/// Notes the safe-pattern hits of one file, one after the other.
fn record_hits(evidence: &mut Vec<SafePatternEvidence>, file: &String, hits: &Vec<SafePatternHit>)
    requires
        evidence_wf(view_each(old(evidence)@)),
    ensures
        view_each(final(evidence)@) == note_hits(
            view_each(old(evidence)@),
            file@,
            view_each(hits@),
        ),
        evidence_wf(view_each(final(evidence)@)),
{
    let ghost before = view_each(evidence@);
    let ghost all = view_each(hits@);
    let mut k: usize = 0;
    while k < hits.len()
        invariant
            k <= hits.len(),
            all == view_each(hits@),
            evidence_wf(before),
            view_each(evidence@) == note_hits(before, file@, all.take(k as int)),
        decreases hits.len() - k,
    {
        proof {
            assert(all.take(k + 1).drop_last() == all.take(k as int));
            assert(all.take(k + 1).last() == hits[k as int]@);
            lemma_note_hits_wf(before, file@, all.take(k as int));
        }
        record_hit(evidence, file, &hits[k]);
        k += 1;
    }
    proof {
        assert(all.take(k as int) == all);
        lemma_note_hits_wf(before, file@, all);
    }
}

/// A finding with what the catalog and the validation add to it.
#[derive(Clone, Debug, PartialEq, Eq)]
pub struct VulnerabilityResult {
    pub vulnerability_id: String,
    pub file: String,
    pub line_number: usize,
    pub title: String,
    pub severity: Severity,
    pub status: String,
    pub description: String,
    pub fix: String,
    pub persistence_of_safe_pattern: String,
    pub safe_pattern: Option<String>,
}

pub struct VulnerabilityResultSpec {
    pub vulnerability_id: Seq<char>,
    pub file: Seq<char>,
    pub line_number: nat,
    pub title: Seq<char>,
    pub severity: Severity,
    pub status: Seq<char>,
    pub description: Seq<char>,
    pub fix: Seq<char>,
    pub persistence_of_safe_pattern: Seq<char>,
    pub safe_pattern: Option<Seq<char>>,
}

impl View for VulnerabilityResult {
    type V = VulnerabilityResultSpec;

    open spec fn view(&self) -> VulnerabilityResultSpec {
        VulnerabilityResultSpec {
            vulnerability_id: self.vulnerability_id@,
            file: self.file@,
            line_number: self.line_number as nat,
            title: self.title@,
            severity: self.severity,
            status: self.status@,
            description: self.description@,
            fix: self.fix@,
            persistence_of_safe_pattern: self.persistence_of_safe_pattern@,
            safe_pattern: match self.safe_pattern {
                Some(text) => Some(text@),
                None => None,
            },
        }
    }
}

/// The result for `finding` in `file`: the finding itself, the title and
/// the description of the first check in the catalog that has its
/// identifier, and the status of the file's findings.
pub open spec fn result_of(
    checks: Seq<CheckSpec>,
    file: Seq<char>,
    status: Seq<char>,
    finding: RawFindingSpec,
) -> VulnerabilityResultSpec {
    VulnerabilityResultSpec {
        vulnerability_id: finding.check_id,
        file,
        line_number: finding.line_number,
        title: entry_for(checks, finding.check_id).title,
        severity: finding.severity,
        status,
        description: entry_for(checks, finding.check_id).description,
        fix: finding.suggested_fix,
        persistence_of_safe_pattern: "No"@,
        safe_pattern: None,
    }
}

/// The results for the findings of one file, in the order of the findings.
pub open spec fn results_of(
    checks: Seq<CheckSpec>,
    file: Seq<char>,
    status: Seq<char>,
    findings: Seq<RawFindingSpec>,
) -> Seq<VulnerabilityResultSpec> {
    Seq::new(findings.len(), |i: int| result_of(checks, file, status, findings[i]))
}

/// The results for the findings of one file all name that file and all have
/// the one status of the file; they keep the lines and the order of the
/// findings.
pub proof fn lemma_results_share_file_and_status(
    checks: Seq<CheckSpec>,
    file: Seq<char>,
    status: Seq<char>,
    findings: Seq<RawFindingSpec>,
)
    ensures
        results_of(checks, file, status, findings).len() == findings.len(),
        forall|i: int|
            0 <= i < findings.len() ==> {
                let result = #[trigger] results_of(checks, file, status, findings)[i];
                &&& result.file == file
                &&& result.status == status
                &&& result.vulnerability_id == findings[i].check_id
                &&& result.line_number == findings[i].line_number
            },
{
}

/// Puts the results for the findings of one file at the end of `results`.
fn append_results(
    results: &mut Vec<VulnerabilityResult>,
    catalog: &Catalog,
    file: &String,
    status: &String,
    findings: &Vec<RawFinding>,
)
    requires
        all_known(catalog@, view_each(findings@)),
    ensures
        view_each(final(results)@) == view_each(old(results)@) + results_of(
            catalog@,
            file@,
            status@,
            view_each(findings@),
        ),
{
    let ghost before = view_each(results@);
    let ghost all = view_each(findings@);
    let ghost target = results_of(catalog@, file@, status@, all);
    let mut k: usize = 0;
    proof {
        assert(before + target.take(0) == before);
    }
    while k < findings.len()
        invariant
            k <= findings.len(),
            all == view_each(findings@),
            all_known(catalog@, all),
            target == results_of(catalog@, file@, status@, all),
            view_each(results@) == before + target.take(k as int),
        decreases findings.len() - k,
    {
        let finding = &findings[k];
        assert(all[k as int] == finding@);
        let result = match catalog.lookup(finding.check_id.as_str()) {
            Some(check) => VulnerabilityResult {
                vulnerability_id: finding.check_id.clone(),
                file: file.clone(),
                line_number: finding.line_number,
                title: check.title.clone(),
                severity: finding.severity,
                status: status.clone(),
                description: check.description.clone(),
                fix: finding.suggested_fix.clone(),
                persistence_of_safe_pattern: "No".to_owned(),
                safe_pattern: None,
            },
            None => unreached(),
        };
        proof {
            assert(result@ == target[k as int]);
            lemma_view_each_push(results@, result);
            assert(before + target.take(k + 1) == (before + target.take(k as int)).push(
                target[k as int],
            ));
        }
        results.push(result);
        k += 1;
    }
    proof {
        assert(target.take(k as int) == target);
    }
}

/// What scanning has gathered for one language so far.
#[derive(Debug)]
pub struct PerLanguageState {
    language: Language,
    files: Vec<String>,
    vulnerabilities: Vec<VulnerabilityResult>,
    safe_patterns: Vec<SafePatternEvidence>,
}

pub struct StateSpec {
    pub language: Language,
    /// The files that were scanned, each once, in the order of scanning.
    pub files: Seq<Seq<char>>,
    /// The findings, file after file.
    pub vulnerabilities: Seq<VulnerabilityResultSpec>,
    /// The evidence, in the order in which the checks first had a hit.
    pub safe_patterns: Seq<EvidenceSpec>,
}

impl StateSpec {
    /// Whether no file is named twice, the evidence is well formed, and
    /// every file that the findings or the evidence name is one of the
    /// scanned files.
    pub open spec fn wf(self) -> bool {
        &&& self.files.no_duplicates()
        &&& evidence_wf(self.safe_patterns)
        &&& names_only(self.safe_patterns, self.files)
        &&& filed_under(self.vulnerabilities, self.files)
    }

    /// The state of a language before any of its files was scanned.
    pub open spec fn empty(language: Language) -> StateSpec {
        StateSpec {
            language,
            files: Seq::empty(),
            vulnerabilities: Seq::empty(),
            safe_patterns: Seq::empty(),
        }
    }

    /// The state after `file` was scanned with the outcome `scan` and its
    /// findings got the status `status`.
    pub open spec fn record(
        self,
        checks: Seq<CheckSpec>,
        file: Seq<char>,
        scan: FileScanSpec,
        status: Seq<char>,
    ) -> StateSpec {
        StateSpec {
            language: self.language,
            files: add_once(self.files, file),
            vulnerabilities: self.vulnerabilities + results_of(checks, file, status, scan.findings),
            safe_patterns: note_hits(self.safe_patterns, file, scan.safe_hits),
        }
    }
}

/// Recording a file keeps a state well formed.
pub proof fn lemma_record_wf(
    state: StateSpec,
    checks: Seq<CheckSpec>,
    file: Seq<char>,
    scan: FileScanSpec,
    status: Seq<char>,
)
    requires
        state.wf(),
    ensures
        state.record(checks, file, scan, status).wf(),
{
    let after = state.record(checks, file, scan, status);
    lemma_add_once_no_duplicates(state.files, file);
    lemma_note_hits_wf(state.safe_patterns, file, scan.safe_hits);
    assert(names_only(state.safe_patterns, after.files)) by {
        assert forall|i: int, k: int|
            0 <= i < state.safe_patterns.len() && 0 <= k
                < state.safe_patterns[i].files.len() implies after.files.contains(
            #[trigger] state.safe_patterns[i].files[k],
        ) by {
            assert(state.files.contains(state.safe_patterns[i].files[k]));
        }
    }
    lemma_note_hits_names_only(state.safe_patterns, file, scan.safe_hits, after.files);
    let added = results_of(checks, file, status, scan.findings);
    assert forall|j: int| 0 <= j < after.vulnerabilities.len() implies after.files.contains(
        (#[trigger] after.vulnerabilities[j]).file,
    ) by {
        if j < state.vulnerabilities.len() {
            assert(after.vulnerabilities[j] == state.vulnerabilities[j]);
            assert(state.files.contains(state.vulnerabilities[j].file));
        } else {
            assert(after.vulnerabilities[j] == added[j - state.vulnerabilities.len()]);
        }
    }
}

impl View for PerLanguageState {
    type V = StateSpec;

    closed spec fn view(&self) -> StateSpec {
        StateSpec {
            language: self.language,
            files: view_each(self.files@),
            vulnerabilities: view_each(self.vulnerabilities@),
            safe_patterns: view_each(self.safe_patterns@),
        }
    }
}

impl PerLanguageState {
    /// Whether no file is named twice, the evidence is well formed, and
    /// every file that the findings or the evidence name is one of the
    /// scanned files.
    pub open spec fn wf(&self) -> bool {
        self@.wf()
    }

    /// The state of `language` before any of its files was scanned.
    pub fn new(language: Language) -> (state: PerLanguageState)
        ensures
            state@ == StateSpec::empty(language),
            state.wf(),
    {
        let state = PerLanguageState {
            language,
            files: Vec::new(),
            vulnerabilities: Vec::new(),
            safe_patterns: Vec::new(),
        };
        assert(state@.files == StateSpec::empty(language).files);
        assert(state@.vulnerabilities == StateSpec::empty(language).vulnerabilities);
        assert(state@.safe_patterns == StateSpec::empty(language).safe_patterns);
        state
    }

    /// Records that `file` was scanned with the outcome `scan` and that its
    /// findings got the status `status`. A file is recorded even if nothing
    /// was found in it.
    pub fn record_file(&mut self, catalog: &Catalog, file: &str, scan: &FileScan, status: &str)
        requires
            old(self).wf(),
            all_known(catalog@, scan@.findings),
        ensures
            final(self)@ == old(self)@.record(catalog@, file@, scan@, status@),
            final(self).wf(),
    {
        let file = file.to_owned();
        let status = status.to_owned();
        proof {
            lemma_record_wf(self@, catalog@, file@, scan@, status@);
        }
        push_once(&mut self.files, &file);
        record_hits(&mut self.safe_patterns, &file, &scan.safe_hits);
        append_results(&mut self.vulnerabilities, catalog, &file, &status, &scan.findings);
    }

    /// Takes the state apart: the language, the files, the findings and the
    /// evidence.
    pub fn into_parts(self) -> (parts: (
        Language,
        Vec<String>,
        Vec<VulnerabilityResult>,
        Vec<SafePatternEvidence>,
    ))
        ensures
            parts.0 == self@.language,
            view_each(parts.1@) == self@.files,
            view_each(parts.2@) == self@.vulnerabilities,
            view_each(parts.3@) == self@.safe_patterns,
    {
        (self.language, self.files, self.vulnerabilities, self.safe_patterns)
    }

    pub fn language(&self) -> (language: Language)
        ensures
            language == self@.language,
    {
        self.language
    }

    pub fn files(&self) -> (files: &Vec<String>)
        ensures
            view_each(files@) == self@.files,
    {
        &self.files
    }

    pub fn vulnerabilities(&self) -> (vulnerabilities: &Vec<VulnerabilityResult>)
        ensures
            view_each(vulnerabilities@) == self@.vulnerabilities,
    {
        &self.vulnerabilities
    }

    pub fn safe_patterns(&self) -> (safe_patterns: &Vec<SafePatternEvidence>)
        ensures
            view_each(safe_patterns@) == self@.safe_patterns,
    {
        &self.safe_patterns
    }
}

} // verus!
