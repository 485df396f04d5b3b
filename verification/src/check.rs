//! The check engine: whether the file names under each configured path match
//! the pattern of their group.
//!
//! Each group is checked on a walk of its path: within the group's depth
//! and ignore rules, and only inside a version-controlled tree. The check
//! stops at the first file whose name does not match, and says which group,
//! which file and which pattern it was. It changes nothing on disk.

use crate::codec::{file_name, final_segment};
use crate::error::{optional_error_view, ConfigFault, NamingError, NamingErrorView};
use crate::resolver::{copy_sources, sources_view, IgnoreSource, SourceView};
use crate::text::{copy_texts, texts};
use crate::walk::{
    entries_view, events_view, walk, walked, EntryKind, EntryView, EventView, WalkEntry,
    WalkEvent, WalkOptions, WalkOptionsView,
};
use regex::Regex;
use vstd::prelude::*;

verus! {

/// A compiled regular expression of the `regex` crate.
#[verifier::external_type_specification]
#[verifier::external_body]
pub struct ExRegex(Regex);

/// Whether `Regex::new` accepts `pattern`.
pub uninterp spec fn pattern_is_valid(pattern: Seq<char>) -> bool;

/// Whether the regular expression compiled from `pattern` by `Regex::new`
/// matches somewhere in `text`.
pub uninterp spec fn pattern_accepts(pattern: Seq<char>, text: Seq<char>) -> bool;

/// Whether the compiled regular expression `re` matches somewhere in
/// `text`: what `Regex::is_match` gives.
pub uninterp spec fn regex_accepts(re: Regex, text: Seq<char>) -> bool;

/// `Regex::new`. Not proved: it succeeds exactly on the patterns named
/// valid, and the expression it returns matches what the pattern is named to
/// accept.
#[verifier::external_body]
fn compile(pattern: &str) -> (r: Option<Regex>)
    ensures
        r is Some <==> pattern_is_valid(pattern@),
        r matches Some(re) ==> forall|text: Seq<char>| #[trigger]
            regex_accepts(re, text) == pattern_accepts(pattern@, text),
{
    Regex::new(pattern).ok()
}

/// `Regex::is_match`. Not proved: the answer is the named one for this
/// expression and this text.
#[verifier::external_body]
fn accepts(re: &Regex, text: &str) -> (b: bool)
    ensures
        b == regex_accepts(*re, text@),
{
    re.is_match(text)
}

/// What a check run is asked to do.
#[derive(Clone, Debug, PartialEq, Eq)]
pub struct CheckOptions {
    /// The path of the configuration file; `csurename.toml` where none is
    /// given.
    pub config_file: Option<String>,
    /// The names of the groups to check; all of them where none is given.
    pub paths: Option<Vec<String>>,
}

/// The mathematical content of a [`CheckOptions`].
pub struct CheckOptionsView {
    pub config_file: Option<Seq<char>>,
    pub paths: Option<Seq<Seq<char>>>,
}

impl View for CheckOptions {
    type V = CheckOptionsView;

    open spec fn view(&self) -> CheckOptionsView {
        CheckOptionsView {
            config_file: match self.config_file {
                Some(file) => Some(file@),
                None => None,
            },
            paths: match self.paths {
                Some(names) => Some(texts(names@)),
                None => None,
            },
        }
    }
}

/// One named entry of the configuration: a path, and the pattern that the
/// file names under it must match.
#[derive(Clone, Debug, PartialEq, Eq)]
pub struct CheckGroup {
    pub name: String,
    /// The directory whose files are checked.
    pub path: String,
    /// The regular expression that each file name must match.
    pub pattern: String,
    /// The ignore files that hold for this group.
    pub ignore: Option<Vec<String>>,
    /// Whether the check goes into subdirectories.
    pub recursive: bool,
}

/// The mathematical content of a [`CheckGroup`].
pub struct GroupView {
    pub name: Seq<char>,
    pub path: Seq<char>,
    pub pattern: Seq<char>,
    pub ignore: Option<Seq<Seq<char>>>,
    pub recursive: bool,
}

impl View for CheckGroup {
    type V = GroupView;

    open spec fn view(&self) -> GroupView {
        GroupView {
            name: self.name@,
            path: self.path@,
            pattern: self.pattern@,
            ignore: match self.ignore {
                Some(files) => Some(texts(files@)),
                None => None,
            },
            recursive: self.recursive,
        }
    }
}

/// The contents of several groups.
pub open spec fn groups_view(groups: Seq<CheckGroup>) -> Seq<GroupView> {
    groups.map_values(|g: CheckGroup| g@)
}

/// The entries that the walk of one group's path has yielded; `None` where
/// the path could not be read.
pub open spec fn listing_view(listing: Option<Vec<WalkEntry>>) -> Option<Seq<EntryView>> {
    match listing {
        Some(entries) => Some(entries_view(entries@)),
        None => None,
    }
}

/// What the traversal of one group's path has reported, with what it takes
/// to walk it.
#[derive(Clone, Debug, PartialEq, Eq)]
pub struct GroupWalk {
    /// The ignore rules that hold for the group.
    pub ignore_sources: Vec<IgnoreSource>,
    /// Whether the group's path lies inside a version-controlled tree.
    pub root_is_version_controlled: bool,
    /// What the traversal came to, in its order.
    pub events: Vec<WalkEvent>,
}

/// The mathematical content of a [`GroupWalk`].
pub struct GroupWalkView {
    pub ignore_sources: Seq<SourceView>,
    pub root_is_version_controlled: bool,
    pub events: Seq<EventView>,
}

impl View for GroupWalk {
    type V = GroupWalkView;

    open spec fn view(&self) -> GroupWalkView {
        GroupWalkView {
            ignore_sources: sources_view(self.ignore_sources@),
            root_is_version_controlled: self.root_is_version_controlled,
            events: events_view(self.events@),
        }
    }
}

/// The content of the walk of one group; `None` where the group's path
/// could not be read.
pub open spec fn optional_walk_view(w: Option<GroupWalk>) -> Option<GroupWalkView> {
    match w {
        Some(w) => Some(w@),
        None => None,
    }
}

/// The contents of the walks of several groups.
pub open spec fn walks_view(walks: Seq<Option<GroupWalk>>) -> Seq<Option<GroupWalkView>> {
    walks.map_values(|w: Option<GroupWalk>| optional_walk_view(w))
}

/// What the check of one group came to.
#[derive(Clone, Debug, PartialEq, Eq)]
pub struct CheckReport {
    /// How many file names were tested against the pattern, the failing one
    /// included.
    pub tested: usize,
    /// Why the check failed, if it did.
    pub failure: Option<NamingError>,
}

/// The mathematical content of a [`CheckReport`].
pub struct CheckReportView {
    pub tested: nat,
    pub failure: Option<NamingErrorView>,
}

impl View for CheckReport {
    type V = CheckReportView;

    open spec fn view(&self) -> CheckReportView {
        CheckReportView {
            tested: self.tested as nat,
            failure: optional_error_view(self.failure),
        }
    }
}

/// The options of the walk that the check of a group makes: from the group's
/// path, one level deep unless the group is recursive, and only inside a
/// version-controlled tree.
pub open spec fn check_walk_options(group: GroupView, sources: Seq<SourceView>) -> WalkOptionsView {
    WalkOptionsView {
        root: group.path,
        max_depth: if group.recursive {
            None
        } else {
            Some(1nat)
        },
        require_version_control_boundary: true,
        ignore_sources: sources,
    }
}

impl CheckOptionsView {
    /// The path of the configuration file.
    pub open spec fn config_path(self) -> Seq<char> {
        match self.config_file {
            Some(file) => file,
            None => "csurename.toml"@,
        }
    }

    /// Whether the run checks the group called `name`: every group where no
    /// names are given, else the groups that are named.
    pub open spec fn selects(self, name: Seq<char>) -> bool {
        match self.paths {
            Some(names) => names.len() == 0 || names.contains(name),
            None => true,
        }
    }

    /// The groups that the run checks, in order.
    pub open spec fn active(self, groups: Seq<GroupView>) -> Seq<GroupView> {
        groups.filter(|g: GroupView| self.selects(g.name))
    }
}

impl GroupView {
    /// Whether `e` stands the check: anything but a regular file does, and a
    /// file whose name the pattern matches.
    pub open spec fn conforms(self, e: EntryView) -> bool {
        e.kind != EntryKind::File || pattern_accepts(self.pattern, final_segment(e.path))
    }

    /// What the check says of `e`, given whether the pattern matches its
    /// name.
    pub open spec fn judged(self, e: EntryView, accepted: bool) -> Option<NamingErrorView> {
        if e.kind == EntryKind::File && !accepted {
            Some(
                NamingErrorView::PatternMismatch {
                    group: self.name,
                    path: e.path,
                    pattern: self.pattern,
                },
            )
        } else {
            None
        }
    }

    /// The index of the first of `entries` that does not stand the check;
    /// their number where all do.
    pub open spec fn first_violation(self, entries: Seq<EntryView>) -> int
        decreases entries.len(),
    {
        if entries.len() == 0 {
            0
        } else {
            let earlier = self.first_violation(entries.drop_last());
            if earlier < entries.len() - 1 || self.conforms(entries.last()) {
                if earlier < entries.len() - 1 {
                    earlier
                } else {
                    entries.len() as int
                }
            } else {
                entries.len() - 1
            }
        }
    }

    /// What the check of this group comes to on `listing`.
    pub open spec fn checked(self, listing: Option<Seq<EntryView>>) -> CheckReportView {
        if !pattern_is_valid(self.pattern) {
            CheckReportView {
                tested: 0,
                failure: Some(
                    NamingErrorView::Config {
                        group: self.name,
                        fault: ConfigFault::InvalidPattern,
                    },
                ),
            }
        } else {
            match listing {
                None => CheckReportView {
                    tested: 0,
                    failure: Some(
                        NamingErrorView::Config {
                            group: self.name,
                            fault: ConfigFault::UnreadablePath,
                        },
                    ),
                },
                Some(entries) => {
                    let k = self.first_violation(entries);
                    if k < entries.len() {
                        CheckReportView {
                            tested: files_in(entries.take(k + 1)),
                            failure: self.judged(entries[k], false),
                        }
                    } else {
                        CheckReportView { tested: files_in(entries), failure: None }
                    }
                },
            }
        }
    }
}

impl GroupView {
    /// What the check of this group comes to on the events of a walk of its
    /// path: the check of the entries that the walk yields, and where no
    /// name fails it, the error that ended the walk, if one did.
    pub open spec fn checked_walk(self, sources: Seq<SourceView>, events: Seq<EventView>) -> CheckReportView {
        let walk = walked(check_walk_options(self, sources), events);
        let report = self.checked(Some(walk.entries));
        if report.failure is Some {
            report
        } else {
            CheckReportView { failure: walk.failure, ..report }
        }
    }

    /// What the check of this group comes to on a walk: no report at all
    /// where the pattern is in order and the path lies outside any
    /// version-controlled tree.
    pub open spec fn walk_outcome(self, walk: GroupWalkView) -> Result<
        CheckReportView,
        NamingErrorView,
    > {
        if pattern_is_valid(self.pattern) && !walk.root_is_version_controlled {
            Err(NamingErrorView::NoRepository { root: self.path })
        } else {
            Ok(self.checked_walk(walk.ignore_sources, walk.events))
        }
    }

    /// Why the check of this group fails, if it does. A group without a walk
    /// is one whose path could not be read.
    pub open spec fn failure_on(self, walk: Option<GroupWalkView>) -> Option<NamingErrorView> {
        match walk {
            None => self.checked(None).failure,
            Some(w) => match self.walk_outcome(w) {
                Ok(report) => report.failure,
                Err(e) => Some(e),
            },
        }
    }
}

/// How many of `entries` are regular files.
pub open spec fn files_in(entries: Seq<EntryView>) -> nat
    decreases entries.len(),
{
    if entries.len() == 0 {
        0
    } else if entries.last().kind == EntryKind::File {
        files_in(entries.drop_last()) + 1
    } else {
        files_in(entries.drop_last())
    }
}

/// The walk that belongs to the group at `index`; none where the walks do
/// not reach that far.
pub open spec fn walk_at(walks: Seq<Option<GroupWalkView>>, index: int) -> Option<GroupWalkView> {
    if 0 <= index < walks.len() {
        walks[index]
    } else {
        None
    }
}

/// What a check run comes to: the failure of the first selected group that
/// fails, or none.
pub open spec fn first_failure(
    options: CheckOptionsView,
    groups: Seq<GroupView>,
    walks: Seq<Option<GroupWalkView>>,
) -> Option<NamingErrorView>
    decreases groups.len(),
{
    if groups.len() == 0 {
        None
    } else {
        let earlier = first_failure(options, groups.drop_last(), walks);
        let group = groups.last();
        if earlier is Some {
            earlier
        } else if options.selects(group.name) {
            group.failure_on(walk_at(walks, groups.len() - 1))
        } else {
            None
        }
    }
}

/// The first violation is a violation, and nothing before it is one.
pub proof fn lemma_first_violation(group: GroupView, entries: Seq<EntryView>)
    ensures
        0 <= group.first_violation(entries) <= entries.len(),
        forall|i: int| 0 <= i < group.first_violation(entries) ==> group.conforms(entries[i]),
        group.first_violation(entries) < entries.len() ==> !group.conforms(
            entries[group.first_violation(entries)],
        ),
    decreases entries.len(),
{
    if entries.len() > 0 {
        let earlier = entries.drop_last();
        lemma_first_violation(group, earlier);
        assert forall|i: int| 0 <= i < group.first_violation(entries) implies group.conforms(
            entries[i],
        ) by {
            if i < earlier.len() {
                assert(earlier[i] == entries[i]);
            }
        }
        if group.first_violation(entries) < entries.len() - 1 {
            assert(earlier[group.first_violation(entries)] == entries[group.first_violation(
                entries,
            )]);
        }
    }
}

/// Fail-fast: what follows the first violation has no part in the outcome
/// of a group's check.
pub proof fn lemma_check_stops_at_first_violation(
    group: GroupView,
    entries: Seq<EntryView>,
    more: Seq<EntryView>,
)
    requires
        group.first_violation(entries) < entries.len(),
    ensures
        group.checked(Some(entries + more)) == group.checked(Some(entries)),
{
    lemma_first_violation(group, entries);
    lemma_violation_stays(group, entries, more);
    let k = group.first_violation(entries);
    assert((entries + more).take(k + 1) =~= entries.take(k + 1));
    assert((entries + more)[k] == entries[k]);
}

proof fn lemma_violation_stays(group: GroupView, entries: Seq<EntryView>, more: Seq<EntryView>)
    requires
        group.first_violation(entries) < entries.len(),
    ensures
        group.first_violation(entries + more) == group.first_violation(entries),
    decreases more.len(),
{
    lemma_first_violation(group, entries);
    if more.len() == 0 {
        assert(entries + more == entries);
    } else {
        lemma_violation_stays(group, entries, more.drop_last());
        assert((entries + more).drop_last() == entries + more.drop_last());
    }
}

/// Once a group has failed, the groups after it have no part in the outcome
/// of the run.
proof fn lemma_failure_stays(
    options: CheckOptionsView,
    groups: Seq<GroupView>,
    n: int,
    walks: Seq<Option<GroupWalkView>>,
)
    requires
        0 <= n <= groups.len(),
        first_failure(options, groups.take(n), walks) is Some,
    ensures
        first_failure(options, groups, walks) == first_failure(options, groups.take(n), walks),
    decreases groups.len() - n,
{
    if n < groups.len() {
        assert(groups.take(n + 1).drop_last() == groups.take(n));
        lemma_failure_stays(options, groups, n + 1, walks);
    } else {
        assert(groups.take(n) == groups);
    }
}

impl CheckOptions {
    /// The path of the configuration file.
    pub fn config_path(&self) -> (path: String)
        ensures
            path@ == self@.config_path(),
    {
        match &self.config_file {
            Some(file) => file.clone(),
            None => "csurename.toml".to_owned(),
        }
    }

    /// Whether the run checks the group called `name`.
    pub fn selects(&self, name: &String) -> (b: bool)
        ensures
            b == self@.selects(name@),
    {
        match &self.paths {
            Some(names) => names.len() == 0 || crate::walk::holds_text(names, name),
            None => true,
        }
    }

    /// The groups that the run checks, in order.
    pub fn active_groups(&self, groups: &Vec<CheckGroup>) -> (active: Vec<CheckGroup>)
        ensures
            groups_view(active@) == self@.active(groups_view(groups@)),
    {
        let ghost all = groups_view(groups@);
        let ghost keep = |g: GroupView| self@.selects(g.name);
        let mut active: Vec<CheckGroup> = Vec::new();
        let mut i: usize = 0;
        proof {
            reveal(Seq::filter);
            assert(groups_view(active@) =~= all.take(0).filter(keep));
        }
        while i < groups.len()
            invariant
                i <= groups.len(),
                all == groups_view(groups@),
                keep == |g: GroupView| self@.selects(g.name),
                groups_view(active@) == all.take(i as int).filter(keep),
            decreases groups.len() - i,
        {
            proof {
                reveal(Seq::filter);
                assert(all.take(i + 1).drop_last() == all.take(i as int));
                assert(all.take(i + 1).last() == groups@[i as int]@);
            }
            if self.selects(&groups[i].name) {
                let ghost before = groups_view(active@);
                active.push(groups[i].duplicate());
                proof {
                    assert(groups_view(active@) =~= before.push(groups@[i as int]@));
                }
            }
            i += 1;
        }
        proof {
            assert(all.take(i as int) == all);
        }
        active
    }
}

impl CheckGroup {
    /// A group as the configuration gives it. A group whose entry does not
    /// say whether it is recursive is recursive.
    pub fn new(
        name: String,
        path: String,
        pattern: String,
        ignore: Option<Vec<String>>,
        recursive: Option<bool>,
    ) -> (group: CheckGroup)
        ensures
            group.name == name,
            group.path == path,
            group.pattern == pattern,
            group.ignore == ignore,
            group.recursive == match recursive {
                Some(flag) => flag,
                None => true,
            },
    {
        CheckGroup {
            name,
            path,
            pattern,
            ignore,
            recursive: match recursive {
                Some(flag) => flag,
                None => true,
            },
        }
    }

    /// A copy of this group.
    pub fn duplicate(&self) -> (copy: CheckGroup)
        ensures
            copy@ == self@,
    {
        CheckGroup {
            name: self.name.clone(),
            path: self.path.clone(),
            pattern: self.pattern.clone(),
            ignore: match &self.ignore {
                Some(files) => Some(copy_texts(files)),
                None => None,
            },
            recursive: self.recursive,
        }
    }

    /// The options of the walk that the check of this group makes, under the
    /// given ignore rules.
    pub fn walk_options(&self, ignore_sources: Vec<IgnoreSource>) -> (options: WalkOptions)
        ensures
            options@ == check_walk_options(self@, sources_view(ignore_sources@)),
    {
        WalkOptions {
            root: self.path.clone(),
            max_depth: if self.recursive {
                None
            } else {
                Some(1)
            },
            require_version_control_boundary: true,
            ignore_sources,
        }
    }

    /// What the check says of `entry`, given whether the pattern matches its
    /// name: a regular file whose name does not match is a mismatch, with
    /// this group's name and pattern and the file's path.
    pub fn judge(&self, entry: &WalkEntry, accepted: bool) -> (failure: Option<NamingError>)
        ensures
            optional_error_view(failure) == self@.judged(entry@, accepted),
    {
        if entry.kind == EntryKind::File && !accepted {
            Some(
                NamingError::PatternMismatch {
                    group: self.name.clone(),
                    path: entry.path.clone(),
                    pattern: self.pattern.clone(),
                },
            )
        } else {
            None
        }
    }
}

/// Tests the names of the regular files among `entries`, in order, against
/// the compiled pattern of `group`, up to the first that does not match.
fn check_listing(group: &CheckGroup, re: &Regex, entries: &Vec<WalkEntry>) -> (report: CheckReport)
    requires
        pattern_is_valid(group.pattern@),
        forall|text: Seq<char>| #[trigger]
            regex_accepts(*re, text) == pattern_accepts(group.pattern@, text),
    ensures
        report@ == group@.checked(Some(entries_view(entries@))),
{
    let ghost all = entries_view(entries@);
    let mut tested: usize = 0;
    let mut i: usize = 0;
    while i < entries.len()
        invariant
            i <= entries.len(),
            all == entries_view(entries@),
            pattern_is_valid(group.pattern@),
            forall|text: Seq<char>| #[trigger]
                regex_accepts(*re, text) == pattern_accepts(group.pattern@, text),
            group@.first_violation(all.take(i as int)) == i,
            tested == files_in(all.take(i as int)),
            tested <= i,
        decreases entries.len() - i,
    {
        proof {
            assert(all.take(i + 1).drop_last() == all.take(i as int));
            assert(all.take(i + 1).last() == entries@[i as int]@);
        }
        let entry = &entries[i];
        if entry.kind == EntryKind::File {
            let name = file_name(entry.path.as_str());
            let accepted = accepts(re, name.as_str());
            tested += 1;
            match group.judge(entry, accepted) {
                Some(e) => {
                    proof {
                        let prefix = all.take(i + 1);
                        assert(!group@.conforms(prefix.last()));
                        assert(group@.first_violation(prefix) == i);
                        assert(all =~= prefix + all.skip(i + 1));
                        lemma_violation_stays(group@, prefix, all.skip(i + 1));
                        assert(group@.first_violation(all) == i);
                        assert(all[i as int] == entry@);
                    }
                    return CheckReport { tested, failure: Some(e) };
                },
                None => {},
            }
        }
        i += 1;
    }
    proof {
        assert(all.take(i as int) == all);
    }
    CheckReport { tested, failure: None }
}

impl CheckGroup {
    /// The report of a group that could not be checked at all.
    fn unusable(&self, fault: ConfigFault) -> (report: CheckReport)
        ensures
            report@ == (CheckReportView {
                tested: 0,
                failure: Some(NamingErrorView::Config { group: self.name@, fault }),
            }),
    {
        CheckReport {
            tested: 0,
            failure: Some(NamingError::Config { group: self.name.clone(), fault }),
        }
    }
}

/// Checks one group on the entries that the walk of its path has yielded,
/// or on `None` where the path could not be read.
///
/// A pattern that is no regular expression, or a path that could not be
/// read, fails the group before any file is tested. Otherwise the names of
/// the regular files are tested in order, and the first that does not match
/// ends the check.
pub fn check_path(group: &CheckGroup, listing: &Option<Vec<WalkEntry>>) -> (report: CheckReport)
    ensures
        report@ == group@.checked(listing_view(*listing)),
{
    match compile(group.pattern.as_str()) {
        None => group.unusable(ConfigFault::InvalidPattern),
        Some(re) => match listing {
            None => group.unusable(ConfigFault::UnreadablePath),
            Some(entries) => check_listing(group, &re, entries),
        },
    }
}

/// Checks one group on the events of a traversal of its path.
///
/// The pattern is looked at first: one that is no regular expression fails
/// the group. Then the walk begins, and fails with
/// [`NamingError::NoRepository`] where the path lies outside any
/// version-controlled tree. Of what the walk yields, within the group's
/// depth and ignore rules, the names of the regular files are tested in
/// order up to the first that does not match. Where none fails and a
/// directory could not be read, the report holds that I/O error.
pub fn check_walk(
    group: &CheckGroup,
    ignore_sources: Vec<IgnoreSource>,
    root_is_version_controlled: bool,
    events: &Vec<WalkEvent>,
) -> (r: Result<CheckReport, NamingError>)
    ensures
        match r {
            Err(e) => pattern_is_valid(group.pattern@) && !root_is_version_controlled && e@ == (
            NamingErrorView::NoRepository { root: group.path@ }),
            Ok(report) => (!pattern_is_valid(group.pattern@) || root_is_version_controlled)
                && report@ == group@.checked_walk(
                sources_view(ignore_sources@),
                events_view(events@),
            ),
        },
{
    let re = match compile(group.pattern.as_str()) {
        Some(re) => re,
        None => {
            return Ok(group.unusable(ConfigFault::InvalidPattern));
        },
    };
    match walk(group.walk_options(ignore_sources), root_is_version_controlled, events) {
        Err(e) => Err(e),
        Ok(walk_report) => {
            let report = check_listing(group, &re, &walk_report.entries);
            if report.failure.is_some() {
                Ok(report)
            } else {
                Ok(CheckReport { tested: report.tested, failure: walk_report.failure })
            }
        },
    }
}

/// A check run: each selected group is checked in order on the walk of its
/// path, and the first failure ends the run.
///
/// The walk of a group is the one at the group's own index; a group without
/// a walk counts as one whose path could not be read.
pub fn check_names(
    options: &CheckOptions,
    groups: &Vec<CheckGroup>,
    walks: &Vec<Option<GroupWalk>>,
) -> (r: Result<(), NamingError>)
    ensures
        match r {
            Ok(_) => first_failure(options@, groups_view(groups@), walks_view(walks@)) is None,
            Err(e) => first_failure(options@, groups_view(groups@), walks_view(walks@)) == Some(
                e@,
            ),
        },
{
    let ghost all = groups_view(groups@);
    let ghost all_walks = walks_view(walks@);
    let mut i: usize = 0;
    while i < groups.len()
        invariant
            i <= groups.len(),
            all == groups_view(groups@),
            all_walks == walks_view(walks@),
            first_failure(options@, all.take(i as int), all_walks) is None,
        decreases groups.len() - i,
    {
        proof {
            assert(all.take(i + 1).drop_last() == all.take(i as int));
            assert(all.take(i + 1).last() == groups@[i as int]@);
        }
        if options.selects(&groups[i].name) {
            let failure = if i < walks.len() {
                match &walks[i] {
                    Some(w) => {
                        match check_walk(
                            &groups[i],
                            copy_sources(&w.ignore_sources),
                            w.root_is_version_controlled,
                            &w.events,
                        ) {
                            Ok(report) => report.failure,
                            Err(e) => Some(e),
                        }
                    },
                    None => check_path(&groups[i], &None).failure,
                }
            } else {
                check_path(&groups[i], &None).failure
            };
            match failure {
                Some(e) => {
                    proof {
                        lemma_failure_stays(options@, all, i + 1, all_walks);
                    }
                    return Err(e);
                },
                None => {},
            }
        }
        i += 1;
    }
    proof {
        assert(all.take(i as int) == all);
    }
    Ok(())
}

} // verus!
