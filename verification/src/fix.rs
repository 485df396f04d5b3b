//! The fix engine: which entries of a walk are renamed, and to what.
//!
//! Renaming itself is the caller's part. The engine plans each rename, and
//! keeps the tally of those that the caller reports as done or failed. In
//! stream mode it only translates names and touches nothing.

use crate::codec::{
    canonical_name, canonical_stem, components_of, final_segment, lemma_canonical_name_has_no_slash,
    lemma_canonical_name_is_fixed, normalize,
};
use crate::convention::CaseConvention;
use crate::error::{errors_view, optional_error_view, NamingError, NamingErrorView};
use crate::resolver::{sources_view, IgnoreSource, SourceView};
use crate::text::{
    chars_of, last_index_of, last_position, lemma_last_index_is, lemma_last_index_of, texts, trim,
    trimmed,
};
use crate::walk::{
    entries_view, events_view, walk, walked, EntryKind, EntryView, WalkEntry, WalkEvent,
    WalkOptions, WalkOptionsView,
};
use vstd::prelude::*;
use vstd::string::StrSliceExecFns;
use vstd::string::StringExecFns;

verus! {

/// What a fix run is asked to do.
#[derive(Clone, Debug, PartialEq, Eq)]
pub struct FixOptions {
    /// The directory whose entries are renamed.
    pub target_dir: String,
    /// Whether the run goes into subdirectories.
    pub recursive: bool,
    /// Whether directories are renamed as well as regular files.
    pub include_dir: bool,
    /// Whether the run reports nothing.
    pub quiet: bool,
    /// Whether names are read from a stream and translated, in place of
    /// renaming files.
    pub from_stdin: bool,
}

/// The mathematical content of a [`FixOptions`].
pub struct FixOptionsView {
    pub target_dir: Seq<char>,
    pub recursive: bool,
    pub include_dir: bool,
    pub quiet: bool,
    pub from_stdin: bool,
}

impl View for FixOptions {
    type V = FixOptionsView;

    open spec fn view(&self) -> FixOptionsView {
        FixOptionsView {
            target_dir: self.target_dir@,
            recursive: self.recursive,
            include_dir: self.include_dir,
            quiet: self.quiet,
            from_stdin: self.from_stdin,
        }
    }
}

/// One entry's rename, planned or done.
#[derive(Clone, Debug, PartialEq, Eq)]
pub struct RenameOutcome {
    /// The path of the entry as it was found.
    pub original_path: String,
    /// The path of the entry under its canonical name, in the same
    /// directory.
    pub new_path: String,
    /// Whether the two differ. An entry whose name is canonical already is
    /// left alone, which is no error.
    pub renamed: bool,
}

/// The mathematical content of a [`RenameOutcome`].
pub struct OutcomeView {
    pub original_path: Seq<char>,
    pub new_path: Seq<char>,
    pub renamed: bool,
}

impl View for RenameOutcome {
    type V = OutcomeView;

    open spec fn view(&self) -> OutcomeView {
        OutcomeView {
            original_path: self.original_path@,
            new_path: self.new_path@,
            renamed: self.renamed,
        }
    }
}

/// The contents of several outcomes.
pub open spec fn outcomes_view(outcomes: Seq<RenameOutcome>) -> Seq<OutcomeView> {
    outcomes.map_values(|o: RenameOutcome| o@)
}

/// `path` up to and with its last `/`: the directory that holds the entry.
/// Empty where `path` has no `/`.
pub open spec fn directory_prefix(path: Seq<char>) -> Seq<char> {
    path.subrange(0, last_index_of(path, '/') + 1)
}

/// The path of the entry at `path` under its canonical name, in the same
/// directory.
pub open spec fn canonical_path(path: Seq<char>, convention: CaseConvention) -> Seq<char> {
    directory_prefix(path) + canonical_name(path, convention)
}

/// The rename of the entry at `path`.
pub open spec fn planned(path: Seq<char>, convention: CaseConvention) -> OutcomeView {
    OutcomeView {
        original_path: path,
        new_path: canonical_path(path, convention),
        renamed: canonical_path(path, convention) != path,
    }
}

/// The options of the walk that a fix run makes: from the target directory,
/// one level deep unless the run is recursive, and only inside a
/// version-controlled tree.
pub open spec fn fix_walk_options(options: FixOptionsView, sources: Seq<SourceView>) -> WalkOptionsView {
    WalkOptionsView {
        root: options.target_dir,
        max_depth: if options.recursive {
            None
        } else {
            Some(1nat)
        },
        require_version_control_boundary: true,
        ignore_sources: sources,
    }
}

impl FixOptionsView {
    /// Whether the run renames `e`: a regular file, or any entry where
    /// directories are included, and never the target directory itself.
    pub open spec fn is_candidate(self, e: EntryView) -> bool {
        (self.include_dir || e.kind == EntryKind::File) && e.path != self.target_dir
    }

    /// The renames of the candidates among `entries`, in order.
    pub open spec fn planned_all(self, convention: CaseConvention, entries: Seq<EntryView>) -> Seq<
        OutcomeView,
    >
        decreases entries.len(),
    {
        if entries.len() == 0 {
            Seq::empty()
        } else {
            let earlier = self.planned_all(convention, entries.drop_last());
            if self.is_candidate(entries.last()) {
                earlier.push(planned(entries.last().path, convention))
            } else {
                earlier
            }
        }
    }
}

/// How many of `outcomes` are renames.
pub open spec fn renamed_count(outcomes: Seq<OutcomeView>) -> nat
    decreases outcomes.len(),
{
    if outcomes.len() == 0 {
        0
    } else if outcomes.last().renamed {
        renamed_count(outcomes.drop_last()) + 1
    } else {
        renamed_count(outcomes.drop_last())
    }
}

/// No-op detection: an entry is renamed exactly where its name differs from
/// its canonical name.
pub proof fn lemma_renamed_iff_name_differs(path: Seq<char>, convention: CaseConvention)
    ensures
        planned(path, convention).renamed <==> canonical_name(path, convention) != final_segment(
            path,
        ),
{
    lemma_last_index_of(path, '/');
    let prefix = directory_prefix(path);
    let name = canonical_name(path, convention);
    assert(path =~= prefix + final_segment(path));
    if prefix + name == path {
        assert((prefix + name).subrange(prefix.len() as int, (prefix + name).len() as int)
            =~= name);
        assert(path.subrange(prefix.len() as int, path.len() as int) =~= final_segment(path));
    }
}

/// A second run finds the entry settled: where the stem transform leaves
/// the canonical stem as it is, the entry under its new path is not renamed
/// again.
pub proof fn lemma_renamed_path_is_settled(path: Seq<char>, convention: CaseConvention)
    requires
        convention.admits(canonical_stem(convention, components_of(path).stem)),
        canonical_stem(convention, canonical_stem(convention, components_of(path).stem))
            == canonical_stem(convention, components_of(path).stem),
    ensures
        !planned(canonical_path(path, convention), convention).renamed,
{
    let prefix = directory_prefix(path);
    let name = canonical_name(path, convention);
    let moved = canonical_path(path, convention);
    lemma_last_index_of(path, '/');
    lemma_canonical_name_has_no_slash(path, convention);
    lemma_canonical_name_is_fixed(path, convention);
    let k = last_index_of(path, '/');
    assert forall|i: int| k < i < moved.len() implies moved[i] != '/' by {
        assert(moved[i] == name[i - prefix.len()]);
    }
    if k >= 0 {
        assert(moved[k] == path[k]);
    }
    lemma_last_index_is(moved, '/', k);
    assert(final_segment(moved) =~= name);
    assert(directory_prefix(moved) =~= prefix);
    lemma_last_index_is(name, '/', -1);
    assert(final_segment(name) =~= name);
    assert(components_of(moved) == components_of(name));
}

/// A run renames no more entries than it has outcomes.
pub proof fn lemma_renamed_count_bound(outcomes: Seq<OutcomeView>)
    ensures
        renamed_count(outcomes) <= outcomes.len(),
    decreases outcomes.len(),
{
    if outcomes.len() > 0 {
        lemma_renamed_count_bound(outcomes.drop_last());
    }
}

/// A second run finds nothing to do: where every outcome of a run is a
/// no-op, the run renames nothing.
pub proof fn lemma_nothing_renamed(outcomes: Seq<OutcomeView>)
    requires
        forall|i: int| 0 <= i < outcomes.len() ==> !(#[trigger] outcomes[i]).renamed,
    ensures
        renamed_count(outcomes) == 0,
    decreases outcomes.len(),
{
    if outcomes.len() > 0 {
        let earlier = outcomes.drop_last();
        assert forall|i: int| 0 <= i < earlier.len() implies !(#[trigger] earlier[i]).renamed by {
            assert(earlier[i] == outcomes[i]);
        }
        lemma_nothing_renamed(earlier);
    }
}

/// Plans the rename of the entry at `path`: its canonical name in the same
/// directory, and whether that is a change.
pub fn plan_rename(path: &str, convention: CaseConvention) -> (outcome: RenameOutcome)
    ensures
        outcome@ == planned(path@, convention),
        outcome.renamed <==> canonical_name(path@, convention) != final_segment(path@),
        canonical_stem(convention, canonical_stem(convention, components_of(path@).stem))
            == canonical_stem(convention, components_of(path@).stem) ==> !planned(
            outcome.new_path@,
            convention,
        ).renamed,
{
    let chars = chars_of(path);
    proof {
        lemma_last_index_of(chars@, '/');
        lemma_renamed_iff_name_differs(path@, convention);
    }
    let cut: usize = match last_position(&chars, '/') {
        Some(slash) => {
            assert(slash < chars.len());
            slash + 1
        },
        None => 0,
    };
    let mut new_path = path.substring_char(0, cut).to_owned();
    let name = normalize(path, convention);
    proof {
        if canonical_stem(convention, canonical_stem(convention, components_of(path@).stem))
            == canonical_stem(convention, components_of(path@).stem) {
            lemma_renamed_path_is_settled(path@, convention);
        }
    }
    new_path.append(name.as_str());
    let original_path = path.to_owned();
    let renamed = !(new_path == original_path);
    RenameOutcome { original_path, new_path, renamed }
}

impl FixOptions {
    /// The options of the walk that this run makes, under the given ignore
    /// rules.
    pub fn walk_options(&self, ignore_sources: Vec<IgnoreSource>) -> (options: WalkOptions)
        ensures
            options@ == fix_walk_options(self@, sources_view(ignore_sources@)),
    {
        WalkOptions {
            root: self.target_dir.clone(),
            max_depth: if self.recursive {
                None
            } else {
                Some(1)
            },
            require_version_control_boundary: true,
            ignore_sources,
        }
    }

    /// Whether this run renames `entry`.
    pub fn is_candidate(&self, entry: &WalkEntry) -> (b: bool)
        ensures
            b == self@.is_candidate(entry@),
    {
        (self.include_dir || entry.kind == EntryKind::File) && !(entry.path == self.target_dir)
    }

    /// Plans the rename of `entry`, where this run renames it.
    pub fn fix_entry(&self, convention: CaseConvention, entry: &WalkEntry) -> (r: Option<
        RenameOutcome,
    >)
        ensures
            match r {
                Some(outcome) => self@.is_candidate(entry@) && outcome@ == planned(
                    entry@.path,
                    convention,
                ),
                None => !self@.is_candidate(entry@),
            },
    {
        if self.is_candidate(entry) {
            Some(plan_rename(entry.path.as_str(), convention))
        } else {
            None
        }
    }
}

/// What a fix run over a whole walk came to.
#[derive(Clone, Debug, PartialEq, Eq)]
pub struct FixReport {
    /// The outcome for each entry that the run takes up, in the order of the
    /// walk.
    pub outcomes: Vec<RenameOutcome>,
    /// How many of the outcomes are renames.
    pub renamed: usize,
    /// The I/O error that ended the walk, if one did. The outcomes up to it
    /// stand.
    pub failure: Option<NamingError>,
}

/// The mathematical content of a [`FixReport`].
pub struct FixReportView {
    pub outcomes: Seq<OutcomeView>,
    pub renamed: nat,
    pub failure: Option<NamingErrorView>,
}

impl View for FixReport {
    type V = FixReportView;

    open spec fn view(&self) -> FixReportView {
        FixReportView {
            outcomes: outcomes_view(self.outcomes@),
            renamed: self.renamed as nat,
            failure: optional_error_view(self.failure),
        }
    }
}

/// What a fix run comes to on the entries that a walk has yielded.
pub open spec fn fixed_entries(
    options: FixOptionsView,
    convention: CaseConvention,
    entries: Seq<EntryView>,
) -> FixReportView {
    let outcomes = options.planned_all(convention, entries);
    FixReportView { outcomes, renamed: renamed_count(outcomes), failure: None }
}

/// What a fix run comes to on the events of a traversal.
pub open spec fn fixed(
    options: FixOptionsView,
    convention: CaseConvention,
    sources: Seq<SourceView>,
    events: Seq<crate::walk::EventView>,
) -> FixReportView {
    let report = walked(fix_walk_options(options, sources), events);
    FixReportView {
        failure: report.failure,
        ..fixed_entries(options, convention, report.entries)
    }
}

/// Plans the renames for the entries that a walk has yielded: one outcome
/// for each regular file, or for each entry where directories are included,
/// and none for the target directory.
pub fn fix_entries(options: &FixOptions, convention: CaseConvention, entries: &Vec<WalkEntry>) -> (report:
    FixReport)
    ensures
        report@ == fixed_entries(options@, convention, entries_view(entries@)),
        report.renamed <= report.outcomes@.len(),
{
    let ghost all = entries_view(entries@);
    let mut outcomes: Vec<RenameOutcome> = Vec::new();
    let mut renamed: usize = 0;
    let mut i: usize = 0;
    while i < entries.len()
        invariant
            i <= entries.len(),
            all == entries_view(entries@),
            outcomes_view(outcomes@) == options@.planned_all(convention, all.take(i as int)),
            renamed == renamed_count(outcomes_view(outcomes@)),
            outcomes@.len() <= i,
        decreases entries.len() - i,
    {
        proof {
            assert(all.take(i + 1).drop_last() == all.take(i as int));
            assert(all.take(i + 1).last() == entries@[i as int]@);
        }
        match options.fix_entry(convention, &entries[i]) {
            Some(outcome) => {
                let ghost before = outcomes_view(outcomes@);
                proof {
                    lemma_renamed_count_bound(before);
                }
                if outcome.renamed {
                    renamed += 1;
                }
                outcomes.push(outcome);
                proof {
                    assert(outcomes_view(outcomes@) =~= before.push(outcome@));
                    assert(outcomes_view(outcomes@).drop_last() == before);
                }
            },
            None => {},
        }
        i += 1;
    }
    proof {
        assert(all.take(i as int) == all);
        lemma_renamed_count_bound(outcomes_view(outcomes@));
    }
    FixReport { outcomes, renamed, failure: None }
}

/// A fix run in directory mode, on the events of a traversal of the target
/// directory.
///
/// Fails with [`NamingError::NoRepository`] before anything is planned,
/// exactly where the target directory is not inside a version-controlled
/// tree. Otherwise the report plans a rename for each candidate among the
/// entries that the walk yields, and counts those that change a name.
pub fn fix_names(
    options: &FixOptions,
    convention: CaseConvention,
    ignore_sources: Vec<IgnoreSource>,
    root_is_version_controlled: bool,
    events: &Vec<WalkEvent>,
) -> (r: Result<FixReport, NamingError>)
    ensures
        match r {
            Ok(report) => root_is_version_controlled && report@ == fixed(
                options@,
                convention,
                sources_view(ignore_sources@),
                events_view(events@),
            ),
            Err(e) => !root_is_version_controlled && e@ == (NamingErrorView::NoRepository {
                root: options.target_dir@,
            }),
        },
{
    let walk_options = options.walk_options(ignore_sources);
    match walk(walk_options, root_is_version_controlled, events) {
        Ok(walk_report) => {
            let plan = fix_entries(options, convention, &walk_report.entries);
            Ok(
                FixReport {
                    outcomes: plan.outcomes,
                    renamed: plan.renamed,
                    failure: walk_report.failure,
                },
            )
        },
        Err(e) => Err(e),
    }
}

/// The count of renames done and the renames that failed, as the caller
/// reports them one by one.
#[derive(Clone, Debug, PartialEq, Eq)]
pub struct FixTally {
    /// How many entries have been renamed.
    pub renamed: u64,
    /// One I/O error for each rename that failed, with the path of the
    /// entry.
    pub failures: Vec<NamingError>,
}

/// The mathematical content of a [`FixTally`].
pub struct TallyView {
    pub renamed: nat,
    pub failures: Seq<NamingErrorView>,
}

impl View for FixTally {
    type V = TallyView;

    open spec fn view(&self) -> TallyView {
        TallyView { renamed: self.renamed as nat, failures: errors_view(self.failures@) }
    }
}

impl TallyView {
    /// The tally after `outcome` has been carried out, with or without
    /// success. An outcome that is no rename changes nothing.
    pub open spec fn recorded(self, outcome: OutcomeView, succeeded: bool) -> TallyView {
        if !outcome.renamed {
            self
        } else if succeeded {
            TallyView { renamed: self.renamed + 1, ..self }
        } else {
            TallyView {
                failures: self.failures.push(NamingErrorView::Io { path: outcome.original_path }),
                ..self
            }
        }
    }
}

impl FixTally {
    /// The tally of a run that has done nothing yet.
    pub fn new() -> (tally: FixTally)
        ensures
            tally@ == (TallyView { renamed: 0, failures: Seq::empty() }),
    {
        let tally = FixTally { renamed: 0, failures: Vec::new() };
        proof {
            assert(tally@.failures =~= Seq::empty());
        }
        tally
    }

    /// Records what became of `outcome`: a rename that succeeded is counted,
    /// one that failed is kept as an I/O error and the run goes on.
    pub fn record(&mut self, outcome: &RenameOutcome, succeeded: bool)
        requires
            old(self).renamed < u64::MAX,
        ensures
            final(self)@ == old(self)@.recorded(outcome@, succeeded),
    {
        if outcome.renamed {
            if succeeded {
                self.renamed += 1;
            } else {
                self.failures.push(NamingError::Io { path: outcome.original_path.clone() });
                proof {
                    assert(errors_view(self.failures@) =~= errors_view(old(self).failures@).push(
                        NamingErrorView::Io { path: outcome.original_path@ },
                    ));
                }
            }
        }
    }

    /// Whether every rename so far succeeded.
    pub fn is_clean(&self) -> (b: bool)
        ensures
            b == (self@.failures.len() == 0),
    {
        self.failures.len() == 0
    }
}

/// One step of stream mode: the canonical name of `line` without the white
/// space around it, or `None` for a blank line, at which the stream ends.
pub fn translate_line(line: &str, convention: CaseConvention) -> (r: Option<String>)
    ensures
        match r {
            Some(name) => trimmed(line@).len() > 0 && name@ == canonical_name(
                trimmed(line@),
                convention,
            ),
            None => trimmed(line@).len() == 0,
        },
{
    let name = trim(line);
    if name.as_str().is_empty() {
        None
    } else {
        Some(normalize(name.as_str(), convention))
    }
}

/// Whether `names` is the translation of `lines`: one canonical name for
/// each line before the first blank one, from the line without the white
/// space around it.
pub open spec fn is_translation(
    lines: Seq<Seq<char>>,
    convention: CaseConvention,
    names: Seq<Seq<char>>,
) -> bool {
    &&& names.len() <= lines.len()
    &&& forall|i: int|
        0 <= i < names.len() ==> trimmed(#[trigger] lines[i]).len() > 0 && names[i]
            == canonical_name(trimmed(lines[i]), convention)
    &&& names.len() < lines.len() ==> trimmed(lines[names.len() as int]).len() == 0
}

/// A fix run in stream mode: the canonical name of each line, up to the
/// first blank line or the end. No file is touched.
pub fn translate_lines(lines: &Vec<String>, convention: CaseConvention) -> (names: Vec<String>)
    ensures
        is_translation(texts(lines@), convention, texts(names@)),
{
    let mut names: Vec<String> = Vec::new();
    let mut i: usize = 0;
    while i < lines.len()
        invariant
            i <= lines.len(),
            names@.len() == i,
            forall|k: int|
                0 <= k < i ==> trimmed(#[trigger] texts(lines@)[k]).len() > 0 && texts(names@)[k]
                    == canonical_name(trimmed(texts(lines@)[k]), convention),
        decreases lines.len() - i,
    {
        match translate_line(lines[i].as_str(), convention) {
            Some(name) => {
                names.push(name);
            },
            None => {
                return names;
            },
        }
        i += 1;
    }
    names
}

} // verus!
