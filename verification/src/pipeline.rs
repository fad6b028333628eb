//! A whole run: every file into the state of its language, and every state
//! into a report.

use vstd::prelude::*;
use crate::aggregate::{
    holds,
    lemma_note_hits_counts,
    lemma_record_wf,
    place_of,
    sightings_of,
    PerLanguageState,
    StateSpec,
};
use crate::catalog::{
    ids_distinct,
    rejects_at,
    Catalog,
    CatalogError,
    CheckSpec,
    Language,
    VulnerabilityCheck,
};
use crate::matcher::{
    all_known,
    file_scan,
    lemma_file_hits_for,
    safe_lines,
    scan_file,
    FileScan,
    FileScanSpec,
};
use crate::report::{assemble_report, detail_of, report_of, FinalReport, FinalReportSpec};
use crate::text::lines_of;
use crate::validation::{skipped, skipped_text};
use crate::views::{lemma_add_once_to_set, lemma_view_each_push, view_each};

verus! {

/// A file as it is handed to a run: its path, its extension and its text.
#[derive(Clone, Debug, PartialEq, Eq)]
pub struct SourceFile {
    pub path: String,
    pub extension: String,
    pub content: String,
}

pub struct SourceFileSpec {
    pub path: Seq<char>,
    pub extension: Seq<char>,
    pub content: Seq<char>,
}

impl View for SourceFile {
    type V = SourceFileSpec;

    open spec fn view(&self) -> SourceFileSpec {
        SourceFileSpec { path: self.path@, extension: self.extension@, content: self.content@ }
    }
}

/// Whether `states` holds the state of `language`.
pub open spec fn has_state(states: Seq<StateSpec>, language: Language) -> bool {
    exists|i: int| 0 <= i < states.len() && #[trigger] states[i].language == language
}

/// The place of the state of `language` in `states`.
pub open spec fn state_place(states: Seq<StateSpec>, language: Language) -> int {
    choose|i: int| 0 <= i < states.len() && #[trigger] states[i].language == language
}

/// Whether each state is well formed and no language has two states.
pub open spec fn states_wf(states: Seq<StateSpec>) -> bool {
    &&& forall|i: int| 0 <= i < states.len() ==> (#[trigger] states[i]).wf()
    &&& forall|i: int, j: int|
        0 <= i < j < states.len() ==> #[trigger] states[i].language != #[trigger] states[j].language
}

/// `states` after a file of `language` was recorded: in the state of the
/// language, which is made at the end if this is the first file of the
/// language.
pub open spec fn record_in(
    states: Seq<StateSpec>,
    checks: Seq<CheckSpec>,
    language: Language,
    file: Seq<char>,
    scan: FileScanSpec,
    status: Seq<char>,
) -> Seq<StateSpec> {
    if has_state(states, language) {
        let i = state_place(states, language);
        states.update(i, states[i].record(checks, file, scan, status))
    } else {
        states.push(StateSpec::empty(language).record(checks, file, scan, status))
    }
}

/// Recording a file keeps states well formed.
pub proof fn lemma_record_in_wf(
    states: Seq<StateSpec>,
    checks: Seq<CheckSpec>,
    language: Language,
    file: Seq<char>,
    scan: FileScanSpec,
    status: Seq<char>,
)
    requires
        states_wf(states),
    ensures
        states_wf(record_in(states, checks, language, file, scan, status)),
{
    let after = record_in(states, checks, language, file, scan, status);
    if has_state(states, language) {
        let i = state_place(states, language);
        lemma_record_wf(states[i], checks, file, scan, status);
        assert forall|a: int| 0 <= a < after.len() implies (#[trigger] after[a]).wf() by {
            if a != i {
                assert(after[a] == states[a]);
            }
        }
        assert forall|a: int, b: int| 0 <= a < b < after.len() implies #[trigger] after[a].language
            != #[trigger] after[b].language by {
            assert(after[a].language == states[a].language);
            assert(after[b].language == states[b].language);
        }
    } else {
        lemma_record_wf(StateSpec::empty(language), checks, file, scan, status);
        assert forall|a: int| 0 <= a < after.len() implies (#[trigger] after[a]).wf() by {
            if a < states.len() {
                assert(after[a] == states[a]);
            }
        }
        assert forall|a: int, b: int| 0 <= a < b < after.len() implies #[trigger] after[a].language
            != #[trigger] after[b].language by {
            assert(after[a] == states[a]);
            if b < states.len() {
                assert(after[b] == states[b]);
            }
        }
    }
}

/// The states of the languages of a run, in the order in which the
/// languages were first met.
#[derive(Debug)]
pub struct ScanRun {
    states: Vec<PerLanguageState>,
}

impl View for ScanRun {
    type V = Seq<StateSpec>;

    closed spec fn view(&self) -> Seq<StateSpec> {
        view_each(self.states@)
    }
}

impl ScanRun {
    /// Whether each state is well formed and no language has two states.
    pub open spec fn wf(&self) -> bool {
        states_wf(self@)
    }

    /// A run in which no file was recorded yet.
    pub fn new() -> (run: ScanRun)
        ensures
            run@ == Seq::<StateSpec>::empty(),
            run.wf(),
    {
        let run = ScanRun { states: Vec::new() };
        assert(run@ == Seq::<StateSpec>::empty());
        run
    }

    /// Records that `file`, a file of `language`, was scanned with the
    /// outcome `scan` and that its findings got the status `status`.
    pub fn record(
        &mut self,
        catalog: &Catalog,
        language: Language,
        file: &str,
        scan: &FileScan,
        status: &str,
    )
        requires
            old(self).wf(),
            all_known(catalog@, scan@.findings),
        ensures
            final(self)@ == record_in(old(self)@, catalog@, language, file@, scan@, status@),
            final(self).wf(),
    {
        let ghost before = self@;
        proof {
            lemma_record_in_wf(before, catalog@, language, file@, scan@, status@);
        }
        let mut i: usize = 0;
        while i < self.states.len()
            invariant
                i <= self.states.len(),
                *self == *old(self),
                before == self@,
                states_wf(before),
                all_known(catalog@, scan@.findings),
                forall|k: int| 0 <= k < i ==> #[trigger] before[k].language != language,
            decreases self.states.len() - i,
        {
            if self.states[i].language() == language {
                proof {
                    assert(before[i as int].language == language);
                    let chosen = state_place(before, language);
                    assert(before[chosen].language == language);
                    assert(chosen == i);
                    assert(before[i as int].wf());
                }
                self.states[i].record_file(catalog, file, scan, status);
                assert(self@ == before.update(
                    i as int,
                    before[i as int].record(catalog@, file@, scan@, status@),
                ));
                return ;
            }
            i += 1;
        }
        let mut state = PerLanguageState::new(language);
        state.record_file(catalog, file, scan, status);
        proof {
            lemma_view_each_push(self.states@, state);
        }
        self.states.push(state);
    }

    pub fn states(&self) -> (states: &Vec<PerLanguageState>)
        ensures
            view_each(states@) == self@,
    {
        &self.states
    }

    /// Takes the run apart into the states of its languages.
    pub fn into_states(self) -> (states: Vec<PerLanguageState>)
        ensures
            view_each(states@) == self@,
    {
        self.states
    }
}

/// The states after `source` was scanned without validation. A file whose
/// extension names no language leaves them as they are.
pub open spec fn scan_step(
    states: Seq<StateSpec>,
    checks: Seq<CheckSpec>,
    source: SourceFileSpec,
) -> Seq<StateSpec> {
    match Language::of_extension(source.extension) {
        Some(language) => record_in(
            states,
            checks,
            language,
            source.path,
            file_scan(checks, language, lines_of(source.content)),
            skipped_text(),
        ),
        None => states,
    }
}

/// The states after `sources` were scanned without validation, one after
/// the other.
pub open spec fn scan_all(checks: Seq<CheckSpec>, sources: Seq<SourceFileSpec>) -> Seq<StateSpec>
    decreases sources.len(),
{
    if sources.len() == 0 {
        Seq::empty()
    } else {
        scan_step(scan_all(checks, sources.drop_last()), checks, sources.last())
    }
}

/// Scanning keeps the states well formed.
pub proof fn lemma_scan_all_wf(checks: Seq<CheckSpec>, sources: Seq<SourceFileSpec>)
    ensures
        states_wf(scan_all(checks, sources)),
    decreases sources.len(),
{
    if sources.len() > 0 {
        lemma_scan_all_wf(checks, sources.drop_last());
        let before = scan_all(checks, sources.drop_last());
        let source = sources.last();
        match Language::of_extension(source.extension) {
            Some(language) => {
                lemma_record_in_wf(
                    before,
                    checks,
                    language,
                    source.path,
                    file_scan(checks, language, lines_of(source.content)),
                    skipped_text(),
                );
            },
            None => {},
        }
    }
}

/// Scans `sources` one after the other, without validation: every finding
/// gets the status of the skipped.
pub fn scan_sources(catalog: &Catalog, sources: &Vec<SourceFile>) -> (run: ScanRun)
    ensures
        run@ == scan_all(catalog@, view_each(sources@)),
        run.wf(),
{
    let mut run = ScanRun::new();
    let ghost all = view_each(sources@);
    let mut k: usize = 0;
    while k < sources.len()
        invariant
            k <= sources.len(),
            all == view_each(sources@),
            run@ == scan_all(catalog@, all.take(k as int)),
            run.wf(),
        decreases sources.len() - k,
    {
        let source = &sources[k];
        proof {
            assert(all.take(k + 1).drop_last() == all.take(k as int));
            assert(all.take(k + 1).last() == source@);
        }
        match Language::from_extension(source.extension.as_str()) {
            Some(language) => {
                let scan = scan_file(catalog, language, source.content.as_str());
                let status = skipped();
                run.record(catalog, language, source.path.as_str(), &scan, status.as_str());
            },
            None => {},
        }
        k += 1;
    }
    proof {
        assert(all.take(k as int) == all);
    }
    run
}

/// The report on one language, with the language.
#[derive(Clone, Debug, PartialEq, Eq)]
pub struct LanguageReport {
    pub language: Language,
    pub report: FinalReport,
}

pub struct LanguageReportSpec {
    pub language: Language,
    pub report: FinalReportSpec,
}

impl View for LanguageReport {
    type V = LanguageReportSpec;

    open spec fn view(&self) -> LanguageReportSpec {
        LanguageReportSpec { language: self.language, report: self.report@ }
    }
}

/// The reports on `states`, one for each, in the same order.
pub open spec fn reports_of(states: Seq<StateSpec>, model: Seq<char>, no_validation: bool) -> Seq<
    LanguageReportSpec,
> {
    Seq::new(
        states.len(),
        |i: int|
            LanguageReportSpec {
                language: states[i].language,
                report: report_of(states[i], model, no_validation),
            },
    )
}

/// Turns a run, once all its files are recorded, into one report for each
/// language.
pub fn assemble_reports(run: ScanRun, model: &str, no_validation: bool) -> (reports: Vec<
    LanguageReport,
>)
    ensures
        view_each(reports@) == reports_of(run@, model@, no_validation),
{
    let ghost all = run@;
    let ghost target = reports_of(all, model@, no_validation);
    let states = run.into_states();
    let mut reports: Vec<LanguageReport> = Vec::new();
    proof {
        assert(view_each(reports@) == target.take(0));
    }
    for state in rest: states
        invariant
            rest.seq() == states@,
            all == view_each(states@),
            target == reports_of(all, model@, no_validation),
            view_each(reports@) == target.take(rest.index()),
    {
        let ghost at = rest.index();
        assert(all[at] == state@);
        let language = state.language();
        let entry = LanguageReport {
            language,
            report: assemble_report(state, model, no_validation),
        };
        proof {
            assert(entry@ == target[at]);
            lemma_view_each_push(reports@, entry);
            assert(target.take(at + 1) == target.take(at).push(target[at]));
        }
        reports.push(entry);
    }
    proof {
        assert(target.take(target.len() as int) == target);
    }
    reports
}

/// Loads `checks` as the catalog, scans `sources` without validation and
/// reports on each language. The reports name no model, whichever was asked
/// for. Nothing is scanned if a pattern of the catalog does not compile.
pub fn analyze_without_validation(
    checks: Vec<VulnerabilityCheck>,
    sources: &Vec<SourceFile>,
    model: &str,
) -> (outcome: Result<Vec<LanguageReport>, CatalogError>)
    ensures
        match outcome {
            Ok(reports) => {
                &&& crate::catalog::patterns_accepted(view_each(checks@))
                &&& view_each(reports@) == reports_of(
                    scan_all(view_each(checks@), view_each(sources@)),
                    model@,
                    true,
                )
            },
            Err(CatalogError::InvalidPattern { index, check_id }) => {
                &&& rejects_at(view_each(checks@), index as int)
                &&& check_id@ == view_each(checks@)[index as int].id
            },
        },
{
    match Catalog::load(checks) {
        Ok(catalog) => {
            let run = scan_sources(&catalog, sources);
            Ok(assemble_reports(run, model, true))
        },
        Err(error) => Err(error),
    }
}

/// The state of `language` among `states`.
pub open spec fn state_of(states: Seq<StateSpec>, language: Language) -> StateSpec {
    states[state_place(states, language)]
}

/// Among well-formed states a state of a language is the state of it.
pub proof fn lemma_state_place(states: Seq<StateSpec>, language: Language, i: int)
    requires
        states_wf(states),
        0 <= i < states.len(),
        states[i].language == language,
    ensures
        has_state(states, language),
        state_place(states, language) == i,
{
    let chosen = state_place(states, language);
    assert(states[chosen].language == language);
}

/// Recording a file of a language changes the state of that language, which
/// starts empty, and the state of no other.
pub proof fn lemma_record_in_effect(
    states: Seq<StateSpec>,
    checks: Seq<CheckSpec>,
    language: Language,
    file: Seq<char>,
    scan: FileScanSpec,
    status: Seq<char>,
    other: Language,
)
    requires
        states_wf(states),
    ensures
        has_state(record_in(states, checks, language, file, scan, status), language),
        state_of(record_in(states, checks, language, file, scan, status), language) == (if has_state(
            states,
            language,
        ) {
            state_of(states, language)
        } else {
            StateSpec::empty(language)
        }).record(checks, file, scan, status),
        other != language ==> has_state(
            record_in(states, checks, language, file, scan, status),
            other,
        ) == has_state(states, other),
        other != language && has_state(states, other) ==> state_of(
            record_in(states, checks, language, file, scan, status),
            other,
        ) == state_of(states, other),
{
    let after = record_in(states, checks, language, file, scan, status);
    lemma_record_in_wf(states, checks, language, file, scan, status);
    if has_state(states, language) {
        let i = state_place(states, language);
        assert(states[i].language == language);
        assert(after[i].language == language);
        lemma_state_place(after, language, i);
        if other != language {
            if has_state(states, other) {
                let j = state_place(states, other);
                assert(states[j].language == other);
                assert(after[j] == states[j]);
                lemma_state_place(after, other, j);
            } else if has_state(after, other) {
                let j = state_place(after, other);
                assert(after[j].language == other);
                assert(states[j].language == other);
            }
        }
    } else {
        let last = states.len() as int;
        assert(after[last].language == language);
        lemma_state_place(after, language, last);
        if other != language {
            if has_state(states, other) {
                let j = state_place(states, other);
                assert(states[j].language == other);
                assert(after[j] == states[j]);
                lemma_state_place(after, other, j);
            } else if has_state(after, other) {
                let j = state_place(after, other);
                assert(after[j].language == other);
                assert(states[j].language == other);
            }
        }
    }
}

/// Whether `source` is a file of `language`.
pub open spec fn is_source_of(source: SourceFileSpec, language: Language) -> bool {
    Language::of_extension(source.extension) == Some(language)
}

/// The paths of the files of `language` among `sources`.
pub open spec fn scanned_paths(sources: Seq<SourceFileSpec>, language: Language) -> Set<Seq<char>> {
    Set::new(
        |path: Seq<char>|
            exists|k: int|
                0 <= k < sources.len() && is_source_of(#[trigger] sources[k], language)
                    && sources[k].path == path,
    )
}

/// After a run a language has a state if and only if one of the sources is
/// a file of it, and the state then names the paths of those files.
proof fn lemma_scan_all_files(
    checks: Seq<CheckSpec>,
    sources: Seq<SourceFileSpec>,
    language: Language,
)
    ensures
        has_state(scan_all(checks, sources), language) <==> exists|k: int|
            0 <= k < sources.len() && is_source_of(#[trigger] sources[k], language),
        has_state(scan_all(checks, sources), language) ==> state_of(
            scan_all(checks, sources),
            language,
        ).files.to_set() == scanned_paths(sources, language),
    decreases sources.len(),
{
    let states = scan_all(checks, sources);
    if sources.len() == 0 {
        if has_state(states, language) {
            let i = state_place(states, language);
            assert(states[i].language == language);
        }
    } else {
        let earlier = sources.drop_last();
        let source = sources.last();
        let before = scan_all(checks, earlier);
        lemma_scan_all_files(checks, earlier, language);
        lemma_scan_all_wf(checks, earlier);
        assert forall|k: int| 0 <= k < earlier.len() implies #[trigger] earlier[k] == sources[k] by {}
        let among_earlier = exists|k: int|
            0 <= k < earlier.len() && is_source_of(#[trigger] earlier[k], language);
        let among_all = exists|k: int|
            0 <= k < sources.len() && is_source_of(#[trigger] sources[k], language);
        if among_earlier {
            let k = choose|k: int|
                0 <= k < earlier.len() && is_source_of(#[trigger] earlier[k], language);
            assert(is_source_of(sources[k], language));
        }
        if among_all && !is_source_of(source, language) {
            let k = choose|k: int|
                0 <= k < sources.len() && is_source_of(#[trigger] sources[k], language);
            assert(is_source_of(earlier[k], language));
        }
        if is_source_of(source, language) {
            assert(is_source_of(sources[sources.len() - 1], language));
        }
        let paths_before = scanned_paths(earlier, language);
        let paths = scanned_paths(sources, language);
        match Language::of_extension(source.extension) {
            Some(found) => {
                let scan = file_scan(checks, found, lines_of(source.content));
                lemma_record_in_effect(
                    before,
                    checks,
                    found,
                    source.path,
                    scan,
                    skipped_text(),
                    language,
                );
                if found == language {
                    let old_files = if has_state(before, language) {
                        state_of(before, language).files
                    } else {
                        StateSpec::empty(language).files
                    };
                    lemma_add_once_to_set(old_files, source.path);
                    if !has_state(before, language) {
                        assert(old_files.to_set() =~= Set::<Seq<char>>::empty());
                        assert(paths_before =~= Set::<Seq<char>>::empty());
                    }
                    assert(old_files.to_set() == paths_before);
                    assert forall|path: Seq<char>| paths.contains(path)
                        <==> paths_before.insert(source.path).contains(path) by {
                        if paths.contains(path) {
                            let k = choose|k: int|
                                0 <= k < sources.len() && is_source_of(
                                    #[trigger] sources[k],
                                    language,
                                ) && sources[k].path == path;
                            if k < earlier.len() {
                                assert(is_source_of(earlier[k], language) && earlier[k].path
                                    == path);
                            }
                        }
                        if paths_before.contains(path) {
                            let k = choose|k: int|
                                0 <= k < earlier.len() && is_source_of(
                                    #[trigger] earlier[k],
                                    language,
                                ) && earlier[k].path == path;
                            assert(is_source_of(sources[k], language) && sources[k].path == path);
                        }
                        if path == source.path {
                            assert(is_source_of(sources[sources.len() - 1], language)
                                && sources[sources.len() - 1].path == path);
                        }
                    }
                    assert(paths =~= paths_before.insert(source.path));
                } else {
                    lemma_paths_unchanged(sources, language);
                }
            },
            None => {
                lemma_paths_unchanged(sources, language);
            },
        }
    }
}

/// A file of another language, or of none, adds no path to those of a
/// language.
proof fn lemma_paths_unchanged(sources: Seq<SourceFileSpec>, language: Language)
    requires
        sources.len() > 0,
        !is_source_of(sources.last(), language),
    ensures
        scanned_paths(sources, language) == scanned_paths(sources.drop_last(), language),
{
    let earlier = sources.drop_last();
    let paths_before = scanned_paths(earlier, language);
    let paths = scanned_paths(sources, language);
    assert forall|path: Seq<char>| paths.contains(path) <==> paths_before.contains(path) by {
        if paths.contains(path) {
            let k = choose|k: int|
                0 <= k < sources.len() && is_source_of(#[trigger] sources[k], language)
                    && sources[k].path == path;
            assert(is_source_of(earlier[k], language) && earlier[k].path == path);
        }
        if paths_before.contains(path) {
            let k = choose|k: int|
                0 <= k < earlier.len() && is_source_of(#[trigger] earlier[k], language)
                    && earlier[k].path == path;
            assert(is_source_of(sources[k], language) && sources[k].path == path);
        }
    }
    assert(paths =~= paths_before);
}

/// A language has a report if and only if one of the sources is a file of
/// it. The report then lists each of those files once, whatever the number
/// of times it was handed in, and counts as many files as it lists.
pub proof fn lemma_each_scanned_file_counted_once(
    checks: Seq<CheckSpec>,
    sources: Seq<SourceFileSpec>,
    language: Language,
    model: Seq<char>,
    no_validation: bool,
)
    ensures
        has_state(scan_all(checks, sources), language) <==> exists|k: int|
            0 <= k < sources.len() && is_source_of(#[trigger] sources[k], language),
        has_state(scan_all(checks, sources), language) ==> ({
            let report = report_of(
                state_of(scan_all(checks, sources), language),
                model,
                no_validation,
            );
            &&& report.files_list.no_duplicates()
            &&& report.files_list.to_set() == scanned_paths(sources, language)
            &&& report.checked_files == report.files_list.len()
            &&& report.checked_files == scanned_paths(sources, language).len()
        }),
{
    let states = scan_all(checks, sources);
    lemma_scan_all_files(checks, sources, language);
    lemma_scan_all_wf(checks, sources);
    if has_state(states, language) {
        let i = state_place(states, language);
        assert(states[i].language == language);
        assert(states[i].wf());
        states[i].files.unique_seq_to_set();
    }
}

/// The number of lines that match the safe pattern of `check` in the files
/// of its language among `sources`.
pub open spec fn safe_lines_in(check: CheckSpec, sources: Seq<SourceFileSpec>) -> nat
    decreases sources.len(),
{
    if sources.len() == 0 {
        0
    } else {
        safe_lines_in(check, sources.drop_last()) + if is_source_of(
            sources.last(),
            check.language,
        ) {
            safe_lines(check, lines_of(sources.last().content))
        } else {
            0nat
        }
    }
}

/// The number of sightings that the state of `language` holds for the check
/// `id`; none if the language has no state.
pub open spec fn sightings_in(states: Seq<StateSpec>, language: Language, id: Seq<char>) -> nat {
    if has_state(states, language) {
        sightings_of(state_of(states, language).safe_patterns, id)
    } else {
        0
    }
}

/// With distinct identifiers, after a run the state of a check's language
/// holds as many sightings for the check as lines match its safe pattern in
/// the files of that language, and the state of another language none.
proof fn lemma_scan_all_sightings(
    checks: Seq<CheckSpec>,
    sources: Seq<SourceFileSpec>,
    c: int,
    language: Language,
)
    requires
        ids_distinct(checks),
        0 <= c < checks.len(),
    ensures
        sightings_in(scan_all(checks, sources), language, checks[c].id) == (if language
            == checks[c].language {
            safe_lines_in(checks[c], sources)
        } else {
            0nat
        }),
    decreases sources.len(),
{
    let states = scan_all(checks, sources);
    let id = checks[c].id;
    if sources.len() == 0 {
        if has_state(states, language) {
            let i = state_place(states, language);
            assert(states[i].language == language);
        }
    } else {
        let earlier = sources.drop_last();
        let source = sources.last();
        let before = scan_all(checks, earlier);
        lemma_scan_all_sightings(checks, earlier, c, language);
        lemma_scan_all_wf(checks, earlier);
        match Language::of_extension(source.extension) {
            Some(found) => {
                let scan = file_scan(checks, found, lines_of(source.content));
                lemma_record_in_effect(
                    before,
                    checks,
                    found,
                    source.path,
                    scan,
                    skipped_text(),
                    language,
                );
                if found == language {
                    let old_state = if has_state(before, language) {
                        state_of(before, language)
                    } else {
                        StateSpec::empty(language)
                    };
                    if has_state(before, language) {
                        let i = state_place(before, language);
                        assert(before[i].language == language);
                        assert(before[i].wf());
                    } else {
                        assert(!holds(old_state.safe_patterns, id)) by {
                            if holds(old_state.safe_patterns, id) {
                                let j = place_of(old_state.safe_patterns, id);
                                assert(old_state.safe_patterns[j].pattern_id == id);
                            }
                        }
                    }
                    lemma_note_hits_counts(old_state.safe_patterns, source.path, scan.safe_hits, id);
                    lemma_file_hits_for(checks, language, lines_of(source.content), c);
                }
            },
            None => {},
        }
    }
}

/// With distinct identifiers in the catalog, the occurrences that a report
/// shows for a check are the lines that match the check's safe pattern in
/// the scanned files of its language, each line counted once. A check
/// without such a line has no entry in the report.
pub proof fn lemma_occurrences_count_safe_lines(
    checks: Seq<CheckSpec>,
    sources: Seq<SourceFileSpec>,
    c: int,
)
    requires
        ids_distinct(checks),
        0 <= c < checks.len(),
    ensures
        ({
            let states = scan_all(checks, sources);
            let language = checks[c].language;
            let total = safe_lines_in(checks[c], sources);
            let shown = has_state(states, language) && holds(
                state_of(states, language).safe_patterns,
                checks[c].id,
            );
            &&& shown <==> total > 0
            &&& shown ==> ({
                let evidence = state_of(states, language).safe_patterns;
                detail_of(evidence[place_of(evidence, checks[c].id)]).occurrences == total
            })
        }),
{
    let states = scan_all(checks, sources);
    let language = checks[c].language;
    lemma_scan_all_sightings(checks, sources, c, language);
    lemma_scan_all_wf(checks, sources);
    if has_state(states, language) {
        let i = state_place(states, language);
        assert(states[i].language == language);
        assert(states[i].wf());
        let evidence = states[i].safe_patterns;
        if holds(evidence, checks[c].id) {
            let j = place_of(evidence, checks[c].id);
            assert(evidence[j].pattern_id == checks[c].id);
            assert(evidence[j].consistent());
        }
    }
}

/// Whether every finding in `states` has the status `status`.
pub open spec fn all_have_status(states: Seq<StateSpec>, status: Seq<char>) -> bool {
    forall|i: int, j: int|
        0 <= i < states.len() && 0 <= j < states[i].vulnerabilities.len() ==> (
        #[trigger] states[i].vulnerabilities[j]).status == status
}

/// Recording a file with a status keeps that status on every finding.
proof fn lemma_record_in_keeps_status(
    states: Seq<StateSpec>,
    checks: Seq<CheckSpec>,
    language: Language,
    file: Seq<char>,
    scan: FileScanSpec,
    status: Seq<char>,
)
    requires
        all_have_status(states, status),
    ensures
        all_have_status(record_in(states, checks, language, file, scan, status), status),
{
    let after = record_in(states, checks, language, file, scan, status);
    let added = crate::aggregate::results_of(checks, file, status, scan.findings);
    assert forall|i: int, j: int|
        0 <= i < after.len() && 0 <= j < after[i].vulnerabilities.len() implies (
    #[trigger] after[i].vulnerabilities[j]).status == status by {
        if has_state(states, language) {
            let at = state_place(states, language);
            if i == at {
                let kept = states[at].vulnerabilities;
                assert(after[i].vulnerabilities == kept + added);
                if j < kept.len() {
                    assert(after[i].vulnerabilities[j] == states[at].vulnerabilities[j]);
                } else {
                    assert(after[i].vulnerabilities[j] == added[j - kept.len()]);
                }
            } else {
                assert(after[i] == states[i]);
                assert(after[i].vulnerabilities[j] == states[i].vulnerabilities[j]);
            }
        } else {
            if i < states.len() {
                assert(after[i] == states[i]);
                assert(after[i].vulnerabilities[j] == states[i].vulnerabilities[j]);
            } else {
                assert(after[i].vulnerabilities == Seq::<
                    crate::aggregate::VulnerabilityResultSpec,
                >::empty() + added);
                assert(after[i].vulnerabilities[j] == added[j]);
            }
        }
    }
}

/// After a run without validation every finding has the status of the
/// skipped.
proof fn lemma_scan_all_statuses(checks: Seq<CheckSpec>, sources: Seq<SourceFileSpec>)
    ensures
        all_have_status(scan_all(checks, sources), skipped_text()),
    decreases sources.len(),
{
    if sources.len() > 0 {
        lemma_scan_all_statuses(checks, sources.drop_last());
        let before = scan_all(checks, sources.drop_last());
        let source = sources.last();
        match Language::of_extension(source.extension) {
            Some(language) => {
                lemma_record_in_keeps_status(
                    before,
                    checks,
                    language,
                    source.path,
                    file_scan(checks, language, lines_of(source.content)),
                    skipped_text(),
                );
            },
            None => {},
        }
    }
}

/// In the reports of a run without validation every finding has the status
/// of the skipped, and the model is shown as skipped too, whichever model
/// was asked for.
pub proof fn lemma_unvalidated_run_is_marked(
    checks: Seq<CheckSpec>,
    sources: Seq<SourceFileSpec>,
    model: Seq<char>,
)
    ensures
        forall|i: int|
            0 <= i < reports_of(scan_all(checks, sources), model, true).len() ==> (
            #[trigger] reports_of(scan_all(checks, sources), model, true)[i]).report.model
                == skipped_text(),
        forall|i: int, j: int|
            0 <= i < reports_of(scan_all(checks, sources), model, true).len() && 0 <= j
                < reports_of(
                scan_all(checks, sources),
                model,
                true,
            )[i].report.vulnerabilities_details.len() ==> (#[trigger] reports_of(
                scan_all(checks, sources),
                model,
                true,
            )[i].report.vulnerabilities_details[j]).status == skipped_text(),
{
    lemma_scan_all_statuses(checks, sources);
    let states = scan_all(checks, sources);
    let reports = reports_of(states, model, true);
    assert forall|i: int, j: int|
        0 <= i < reports.len() && 0 <= j < reports[i].report.vulnerabilities_details.len() implies (
    #[trigger] reports[i].report.vulnerabilities_details[j]).status == skipped_text() by {
        assert(reports[i].report.vulnerabilities_details[j] == states[i].vulnerabilities[j]);
    }
}

/// Two runs over the same catalog and the same sources, both without
/// validation, end in the same states and so give the same reports, finding
/// for finding and in the same order.
pub proof fn lemma_runs_repeat(
    checks: Seq<CheckSpec>,
    sources: Seq<SourceFileSpec>,
    model: Seq<char>,
    first: Seq<LanguageReportSpec>,
    second: Seq<LanguageReportSpec>,
)
    requires
        first == reports_of(scan_all(checks, sources), model, true),
        second == reports_of(scan_all(checks, sources), model, true),
    ensures
        first == second,
        forall|i: int|
            0 <= i < first.len() ==> (#[trigger] first[i]).report.vulnerabilities_details
                == second[i].report.vulnerabilities_details,
{
}

} // verus!
