//! The tree walker: which of the entries that a traversal reports are handed
//! on to the caller.
//!
//! Reading directories is the caller's part. The walker is told of each
//! entry as the traversal comes to it, a directory before what it holds, and
//! answers whether the entry is yielded. The root is never yielded, no path
//! is yielded twice, nothing is yielded from a directory that the ignore
//! rules exclude, and nothing at all once a directory could not be read.

use crate::error::{optional_error_view, NamingError, NamingErrorView};
use crate::resolver::{
    is_within, lies_within, resolve, sources_view, visits, IgnoreSource, SourceView,
};
use crate::text::texts;
use vstd::prelude::*;

verus! {

/// What kind of filesystem entry a path leads to.
#[derive(Clone, Copy, Debug, PartialEq, Eq, Structural)]
pub enum EntryKind {
    /// A regular file.
    File,
    /// A directory.
    Directory,
    /// Anything else.
    Other,
}

/// One entry as a traversal reports it.
#[derive(Clone, Debug, PartialEq, Eq)]
pub struct WalkEntry {
    /// The path of the entry, with `/` between its segments.
    pub path: String,
    /// How many levels below the root the entry lies; the root itself is at
    /// depth 0.
    pub depth: usize,
    pub kind: EntryKind,
}

/// The mathematical content of a [`WalkEntry`].
pub struct EntryView {
    pub path: Seq<char>,
    pub depth: nat,
    pub kind: EntryKind,
}

impl View for WalkEntry {
    type V = EntryView;

    open spec fn view(&self) -> EntryView {
        EntryView { path: self.path@, depth: self.depth as nat, kind: self.kind }
    }
}

/// The contents of several entries.
pub open spec fn entries_view(entries: Seq<WalkEntry>) -> Seq<EntryView> {
    entries.map_values(|e: WalkEntry| e@)
}

impl WalkEntry {
    /// A copy of this entry.
    pub fn duplicate(&self) -> (copy: WalkEntry)
        ensures
            copy == *self,
    {
        WalkEntry { path: self.path.clone(), depth: self.depth, kind: self.kind }
    }
}

/// What a walk is asked to do. Made once for a run and not changed during
/// the walk.
#[derive(Clone, Debug, PartialEq, Eq)]
pub struct WalkOptions {
    /// Where the walk starts.
    pub root: String,
    /// How deep the walk goes: `Some(1)` stays with what the root holds
    /// directly, `None` sets no limit.
    pub max_depth: Option<usize>,
    /// Whether the walk refuses a root outside any version-controlled tree.
    pub require_version_control_boundary: bool,
    /// The ignore rules in force.
    pub ignore_sources: Vec<IgnoreSource>,
}

/// The mathematical content of a [`WalkOptions`].
pub struct WalkOptionsView {
    pub root: Seq<char>,
    pub max_depth: Option<nat>,
    pub require_version_control_boundary: bool,
    pub ignore_sources: Seq<SourceView>,
}

impl View for WalkOptions {
    type V = WalkOptionsView;

    open spec fn view(&self) -> WalkOptionsView {
        WalkOptionsView {
            root: self.root@,
            max_depth: match self.max_depth {
                Some(d) => Some(d as nat),
                None => None,
            },
            require_version_control_boundary: self.require_version_control_boundary,
            ignore_sources: sources_view(self.ignore_sources@),
        }
    }
}

/// What a traversal reports to the walker.
#[derive(Clone, Debug, PartialEq, Eq)]
pub enum WalkEvent {
    /// The traversal came to this entry.
    Entry(WalkEntry),
    /// The directory at `path` could not be read.
    Unreadable { path: String },
}

/// The mathematical content of a [`WalkEvent`].
pub enum EventView {
    Entry(EntryView),
    Unreadable { path: Seq<char> },
}

impl View for WalkEvent {
    type V = EventView;

    open spec fn view(&self) -> EventView {
        match *self {
            WalkEvent::Entry(entry) => EventView::Entry(entry@),
            WalkEvent::Unreadable { path } => EventView::Unreadable { path: path@ },
        }
    }
}

/// The contents of several events.
pub open spec fn events_view(events: Seq<WalkEvent>) -> Seq<EventView> {
    events.map_values(|e: WalkEvent| e@)
}

/// The walker's answer to one event.
#[derive(Clone, Copy, Debug, PartialEq, Eq, Structural)]
pub enum WalkStep {
    /// The entry is handed on to the caller.
    Yield,
    /// The entry is passed over. A directory that is passed over is not to
    /// be descended into.
    Skip,
    /// The walk ends here with an I/O error.
    Abort,
}

/// The state of a walk, as a mathematical value.
pub struct WalkerView {
    pub options: WalkOptionsView,
    /// The paths yielded so far.
    pub seen: Seq<Seq<char>>,
    /// The directories that the ignore rules have excluded so far.
    pub pruned: Seq<Seq<char>>,
    /// The directory that could not be read, once there is one.
    pub failed_at: Option<Seq<char>>,
}

/// Whether `path` lies below one of `dirs`.
pub open spec fn is_below_any(path: Seq<char>, dirs: Seq<Seq<char>>) -> bool {
    exists|i: int| 0 <= i < dirs.len() && is_within(path, #[trigger] dirs[i])
}

impl WalkerView {
    /// The state in which a walk under `options` begins.
    pub open spec fn initial(options: WalkOptionsView) -> WalkerView {
        WalkerView { options, seen: Seq::empty(), pruned: Seq::empty(), failed_at: None }
    }

    /// Whether `e` is an entry below the root, as opposed to the root itself.
    pub open spec fn is_rooted(self, e: EntryView) -> bool {
        e.depth >= 1 && e.path != self.options.root
    }

    /// Whether the ignore rules let the walk visit `e`.
    pub open spec fn is_visitable(self, e: EntryView) -> bool {
        visits(self.options.ignore_sources, e.path, e.kind == EntryKind::Directory)
    }

    /// Whether `e` lies within the depth limit.
    pub open spec fn is_in_depth(self, e: EntryView) -> bool {
        match self.options.max_depth {
            Some(d) => e.depth <= d,
            None => true,
        }
    }

    /// Whether the walk yields `e` in this state.
    pub open spec fn admits(self, e: EntryView) -> bool {
        &&& self.failed_at is None
        &&& self.is_rooted(e)
        &&& self.is_visitable(e)
        &&& self.is_in_depth(e)
        &&& !self.seen.contains(e.path)
        &&& !is_below_any(e.path, self.pruned)
    }

    /// Whether the walk closes the directory `e` to all that follows.
    pub open spec fn prunes(self, e: EntryView) -> bool {
        &&& self.failed_at is None
        &&& self.is_rooted(e)
        &&& !self.is_visitable(e)
        &&& e.kind == EntryKind::Directory
    }

    /// The walker's answer to `event` in this state.
    pub open spec fn step(self, event: EventView) -> WalkStep {
        match event {
            EventView::Entry(e) => if self.admits(e) {
                WalkStep::Yield
            } else {
                WalkStep::Skip
            },
            EventView::Unreadable { path } => if self.failed_at is None {
                WalkStep::Abort
            } else {
                WalkStep::Skip
            },
        }
    }

    /// The state that follows this one on `event`.
    pub open spec fn after(self, event: EventView) -> WalkerView {
        match event {
            EventView::Entry(e) => if self.admits(e) {
                WalkerView { seen: self.seen.push(e.path), ..self }
            } else if self.prunes(e) {
                WalkerView { pruned: self.pruned.push(e.path), ..self }
            } else {
                self
            },
            EventView::Unreadable { path } => if self.failed_at is None {
                WalkerView { failed_at: Some(path), ..self }
            } else {
                self
            },
        }
    }

    /// The I/O error that has ended the walk, if one has.
    pub open spec fn failure(self) -> Option<NamingErrorView> {
        match self.failed_at {
            Some(path) => Some(NamingErrorView::Io { path }),
            None => None,
        }
    }

    /// The state after all of `events`, in order.
    pub open spec fn after_all(self, events: Seq<EventView>) -> WalkerView
        decreases events.len(),
    {
        if events.len() == 0 {
            self
        } else {
            self.after_all(events.drop_last()).after(events.last())
        }
    }

    /// The entries that the walk yields on `events`, in order.
    pub open spec fn yielded(self, events: Seq<EventView>) -> Seq<EntryView>
        decreases events.len(),
    {
        if events.len() == 0 {
            Seq::empty()
        } else {
            let earlier = self.yielded(events.drop_last());
            match events.last() {
                EventView::Entry(e) => if self.after_all(events.drop_last()).admits(e) {
                    earlier.push(e)
                } else {
                    earlier
                },
                EventView::Unreadable { .. } => earlier,
            }
        }
    }
}

/// Whether a walk under `options` may begin: it may, unless a
/// version-controlled root is asked for and the root is not one.
pub open spec fn passes_boundary_guard(
    options: WalkOptionsView,
    root_is_version_controlled: bool,
) -> bool {
    options.require_version_control_boundary ==> root_is_version_controlled
}

/// The options of a walk stay what they are, and of what it has seen
/// nothing is forgotten.
pub proof fn lemma_walk_keeps_options(w: WalkerView, events: Seq<EventView>)
    ensures
        w.after_all(events).options == w.options,
        forall|p: Seq<char>| w.seen.contains(p) ==> w.after_all(events).seen.contains(p),
    decreases events.len(),
{
    if events.len() > 0 {
        lemma_walk_keeps_options(w, events.drop_last());
        let before = w.after_all(events.drop_last());
        let now = w.after_all(events);
        assert forall|p: Seq<char>| w.seen.contains(p) implies now.seen.contains(p) by {
            let k = choose|k: int| 0 <= k < before.seen.len() && before.seen[k] == p;
            if now.seen.len() > before.seen.len() {
                assert(now.seen[k] == p);
            }
        }
    }
}

/// Walk exclusivity: the root is not among the entries that a walk yields,
/// and each of them lies at least one level below it.
pub proof fn lemma_walk_excludes_root(w: WalkerView, events: Seq<EventView>)
    ensures
        forall|i: int|
            0 <= i < w.yielded(events).len() ==> (#[trigger] w.yielded(events)[i]).path
                != w.options.root && w.yielded(events)[i].depth >= 1,
    decreases events.len(),
{
    if events.len() > 0 {
        lemma_walk_excludes_root(w, events.drop_last());
        lemma_walk_keeps_options(w, events.drop_last());
    }
}

/// Every path that a walk yields is one that it has seen.
pub proof fn lemma_yielded_is_seen(w: WalkerView, events: Seq<EventView>)
    ensures
        forall|i: int|
            0 <= i < w.yielded(events).len() ==> w.after_all(events).seen.contains(
                (#[trigger] w.yielded(events)[i]).path,
            ),
    decreases events.len(),
{
    if events.len() > 0 {
        let earlier = events.drop_last();
        lemma_yielded_is_seen(w, earlier);
        let before = w.after_all(earlier);
        let now = w.after_all(events);
        assert forall|i: int| 0 <= i < w.yielded(events).len() implies now.seen.contains(
            (#[trigger] w.yielded(events)[i]).path,
        ) by {
            let p = w.yielded(events)[i].path;
            if i < w.yielded(earlier).len() {
                assert(w.yielded(earlier)[i].path == p);
                let k = choose|k: int| 0 <= k < before.seen.len() && before.seen[k] == p;
                if now.seen.len() > before.seen.len() {
                    assert(now.seen[k] == p);
                }
            } else {
                assert(now.seen[before.seen.len() as int] == p);
            }
        }
    }
}

/// At most once: no two of the entries that a walk yields have the same
/// path.
pub proof fn lemma_walk_yields_once(w: WalkerView, events: Seq<EventView>)
    ensures
        forall|i: int, j: int|
            0 <= i < j < w.yielded(events).len() ==> (#[trigger] w.yielded(events)[i]).path != (
            #[trigger] w.yielded(events)[j]).path,
    decreases events.len(),
{
    if events.len() > 0 {
        let earlier = events.drop_last();
        lemma_walk_yields_once(w, earlier);
        lemma_yielded_is_seen(w, earlier);
    }
}

/// Abort is final: once a directory could not be read, the walk yields
/// nothing more.
pub proof fn lemma_walk_yields_nothing_after_failure(
    w: WalkerView,
    events: Seq<EventView>,
    more: Seq<EventView>,
)
    requires
        w.after_all(events).failed_at is Some,
    ensures
        w.yielded(events + more) == w.yielded(events),
        w.after_all(events + more) == w.after_all(events),
    decreases more.len(),
{
    if more.len() == 0 {
        assert(events + more == events);
    } else {
        lemma_walk_yields_nothing_after_failure(w, events, more.drop_last());
        assert((events + more).drop_last() == events + more.drop_last());
        assert((events + more).last() == more.last());
    }
}

/// The state of a walk in progress.
pub struct Walker {
    options: WalkOptions,
    seen: Vec<String>,
    pruned: Vec<String>,
    failed_at: Option<String>,
}

impl View for Walker {
    type V = WalkerView;

    closed spec fn view(&self) -> WalkerView {
        WalkerView {
            options: self.options@,
            seen: texts(self.seen@),
            pruned: texts(self.pruned@),
            failed_at: match self.failed_at {
                Some(path) => Some(path@),
                None => None,
            },
        }
    }
}

/// Whether `list` holds `s`.
pub fn holds_text(list: &Vec<String>, s: &String) -> (b: bool)
    ensures
        b == texts(list@).contains(s@),
{
    let mut i: usize = 0;
    while i < list.len()
        invariant
            i <= list.len(),
            forall|k: int| 0 <= k < i ==> texts(list@)[k] != s@,
        decreases list.len() - i,
    {
        if list[i] == *s {
            assert(texts(list@)[i as int] == s@);
            return true;
        }
        i += 1;
    }
    false
}

/// Whether `path` lies below one of `dirs`.
pub fn lies_below_any(path: &String, dirs: &Vec<String>) -> (b: bool)
    ensures
        b == is_below_any(path@, texts(dirs@)),
{
    let mut i: usize = 0;
    while i < dirs.len()
        invariant
            i <= dirs.len(),
            forall|k: int| 0 <= k < i ==> !is_within(path@, #[trigger] texts(dirs@)[k]),
        decreases dirs.len() - i,
    {
        if lies_within(path.as_str(), dirs[i].as_str()) {
            assert(is_within(path@, texts(dirs@)[i as int]));
            return true;
        }
        i += 1;
    }
    false
}

impl Walker {
    /// Begins a walk. Fails with [`NamingError::NoRepository`] exactly where
    /// the options ask for a version-controlled root and the root is not
    /// one; nothing has been yielded then.
    pub fn start(options: WalkOptions, root_is_version_controlled: bool) -> (r: Result<
        Walker,
        NamingError,
    >)
        ensures
            match r {
                Ok(walker) => passes_boundary_guard(options@, root_is_version_controlled)
                    && walker@ == WalkerView::initial(options@),
                Err(e) => !passes_boundary_guard(options@, root_is_version_controlled) && e@
                    == (NamingErrorView::NoRepository { root: options.root@ }),
            },
    {
        if options.require_version_control_boundary && !root_is_version_controlled {
            Err(NamingError::NoRepository { root: options.root })
        } else {
            let walker = Walker {
                options,
                seen: Vec::new(),
                pruned: Vec::new(),
                failed_at: None,
            };
            proof {
                assert(walker@.seen =~= Seq::empty());
                assert(walker@.pruned =~= Seq::empty());
            }
            Ok(walker)
        }
    }

    /// Whether the ignore rules of this walk let it visit the entry at
    /// `path`.
    pub fn should_visit(&self, path: &str, is_dir: bool) -> (visit: bool)
        ensures
            visit == visits(self@.options.ignore_sources, path@, is_dir),
    {
        resolve(&self.options.ignore_sources, path, is_dir)
    }

    /// Takes one event of the traversal and answers whether its entry is
    /// yielded.
    pub fn offer(&mut self, event: &WalkEvent) -> (step: WalkStep)
        ensures
            step == old(self)@.step(event@),
            final(self)@ == old(self)@.after(event@),
    {
        match event {
            WalkEvent::Unreadable { path } => {
                if self.failed_at.is_none() {
                    self.failed_at = Some(path.clone());
                    WalkStep::Abort
                } else {
                    WalkStep::Skip
                }
            },
            WalkEvent::Entry(entry) => {
                if self.failed_at.is_some() {
                    return WalkStep::Skip;
                }
                if entry.depth < 1 || entry.path == self.options.root {
                    return WalkStep::Skip;
                }
                let is_dir = entry.kind == EntryKind::Directory;
                if !resolve(&self.options.ignore_sources, entry.path.as_str(), is_dir) {
                    if is_dir {
                        self.pruned.push(entry.path.clone());
                        proof {
                            assert(texts(self.pruned@) =~= texts(old(self).pruned@).push(
                                entry.path@,
                            ));
                        }
                    }
                    return WalkStep::Skip;
                }
                let too_deep = match self.options.max_depth {
                    Some(d) => entry.depth > d,
                    None => false,
                };
                if too_deep || holds_text(&self.seen, &entry.path) || lies_below_any(
                    &entry.path,
                    &self.pruned,
                ) {
                    return WalkStep::Skip;
                }
                self.seen.push(entry.path.clone());
                proof {
                    assert(texts(self.seen@) =~= texts(old(self).seen@).push(entry.path@));
                }
                WalkStep::Yield
            },
        }
    }

    /// The error that ended the walk, if one did.
    pub fn failure(&self) -> (r: Option<NamingError>)
        ensures
            optional_error_view(r) == self@.failure(),
    {
        match &self.failed_at {
            Some(path) => Some(NamingError::Io { path: path.clone() }),
            None => None,
        }
    }
}

/// What a walk over a whole list of events came to.
#[derive(Clone, Debug, PartialEq, Eq)]
pub struct WalkReport {
    /// The entries yielded, in the order of the traversal.
    pub entries: Vec<WalkEntry>,
    /// The I/O error that ended the walk, if one did. What was yielded
    /// before it stands.
    pub failure: Option<NamingError>,
}

/// The mathematical content of a [`WalkReport`].
pub struct WalkReportView {
    pub entries: Seq<EntryView>,
    pub failure: Option<NamingErrorView>,
}

impl View for WalkReport {
    type V = WalkReportView;

    open spec fn view(&self) -> WalkReportView {
        WalkReportView {
            entries: entries_view(self.entries@),
            failure: optional_error_view(self.failure),
        }
    }
}

/// What a walk under `options` comes to on `events`.
pub open spec fn walked(options: WalkOptionsView, events: Seq<EventView>) -> WalkReportView {
    let start = WalkerView::initial(options);
    WalkReportView {
        entries: start.yielded(events),
        failure: start.after_all(events).failure(),
    }
}

/// Walks a whole traversal at once.
///
/// Fails with [`NamingError::NoRepository`] before anything is yielded,
/// exactly where the options ask for a version-controlled root and the root
/// is not one. Otherwise the report holds the entries that the walker yields
/// on `events`: never the root, never a path twice, nothing after a
/// directory that could not be read.
pub fn walk(options: WalkOptions, root_is_version_controlled: bool, events: &Vec<WalkEvent>) -> (r:
    Result<WalkReport, NamingError>)
    ensures
        match r {
            Ok(report) => {
                &&& passes_boundary_guard(options@, root_is_version_controlled)
                &&& report@ == walked(options@, events_view(events@))
                &&& forall|i: int|
                    0 <= i < report.entries@.len() ==> (#[trigger] report.entries@[i]).path@
                        != options.root@
                &&& forall|i: int, j: int|
                    0 <= i < j < report.entries@.len() ==> (#[trigger] report.entries@[i]).path@
                        != (#[trigger] report.entries@[j]).path@
            },
            Err(e) => !passes_boundary_guard(options@, root_is_version_controlled) && e@ == (
            NamingErrorView::NoRepository { root: options.root@ }),
        },
{
    let ghost start = WalkerView::initial(options@);
    let ghost all = events_view(events@);
    let mut walker = match Walker::start(options, root_is_version_controlled) {
        Ok(walker) => walker,
        Err(e) => {
            return Err(e);
        },
    };
    let mut entries: Vec<WalkEntry> = Vec::new();
    let mut i: usize = 0;
    while i < events.len()
        invariant
            i <= events.len(),
            all == events_view(events@),
            walker@ == start.after_all(all.take(i as int)),
            entries_view(entries@) == start.yielded(all.take(i as int)),
        decreases events.len() - i,
    {
        proof {
            assert(all.take(i + 1).drop_last() == all.take(i as int));
            assert(all.take(i + 1).last() == events@[i as int]@);
        }
        let step = walker.offer(&events[i]);
        if step == WalkStep::Yield {
            match &events[i] {
                WalkEvent::Entry(entry) => {
                    let ghost before = entries@;
                    entries.push(entry.duplicate());
                    proof {
                        assert(entries_view(entries@) =~= entries_view(before).push(entry@));
                    }
                },
                WalkEvent::Unreadable { .. } => {},
            }
        }
        i += 1;
    }
    let failure = walker.failure();
    proof {
        assert(all.take(i as int) == all);
        lemma_walk_excludes_root(start, all);
        lemma_walk_yields_once(start, all);
        assert forall|k: int| 0 <= k < entries@.len() implies (#[trigger] entries@[k]).path@
            != options.root@ by {
            assert(entries_view(entries@)[k].path == start.yielded(all)[k].path);
        }
        assert forall|k: int, l: int| 0 <= k < l < entries@.len() implies (
        #[trigger] entries@[k]).path@ != (#[trigger] entries@[l]).path@ by {
            assert(entries_view(entries@)[k].path == start.yielded(all)[k].path);
            assert(entries_view(entries@)[l].path == start.yielded(all)[l].path);
        }
    }
    Ok(WalkReport { entries, failure })
}

} // verus!
