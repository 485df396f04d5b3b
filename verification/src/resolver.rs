//! The ignore resolver: which entries a walk visits, given the ignore rules
//! in force.
//!
//! Rules come from sources of three origins. Sources given for one
//! invocation are asked first, then the user's global source, then the
//! sources found in the walked tree itself, the one closest to the entry
//! first. Within one source the last rule that matches decides. An entry that
//! no rule matches is visited.

use crate::text::{chars_of, copy_texts, texts};
use ignore::gitignore::GitignoreBuilder;
use ignore::Match;
use vstd::prelude::*;
use vstd::string::StrSliceExecFns;

verus! {

/// Where a set of ignore rules comes from.
#[derive(Clone, Copy, Debug, PartialEq, Eq, Structural)]
pub enum IgnoreOrigin {
    /// Given for this invocation.
    Explicit,
    /// The user's global ignore file.
    Global,
    /// An ignore file found in the walked tree.
    Ambient,
}

/// What a rule, a source, or all sources together say of one path.
#[derive(Clone, Copy, Debug, PartialEq, Eq, Structural)]
pub enum Verdict {
    /// Nothing: no rule matches the path. A blank line, a comment and a line
    /// that is not a valid rule never match.
    Unmatched,
    /// The path is excluded.
    Ignored,
    /// The path is included again, against an exclusion of lower rank.
    Whitelisted,
}

/// The rules of one ignore file, in file order.
#[derive(Clone, Debug, PartialEq, Eq)]
pub struct IgnoreSource {
    pub origin: IgnoreOrigin,
    /// The directory that the rules are relative to.
    pub base: String,
    /// The lines of the file.
    pub lines: Vec<String>,
}

/// The mathematical content of an [`IgnoreSource`].
pub struct SourceView {
    pub origin: IgnoreOrigin,
    pub base: Seq<char>,
    pub lines: Seq<Seq<char>>,
}

impl View for IgnoreSource {
    type V = SourceView;

    open spec fn view(&self) -> SourceView {
        SourceView { origin: self.origin, base: self.base@, lines: texts(self.lines@) }
    }
}

/// The contents of several sources.
pub open spec fn sources_view(sources: Seq<IgnoreSource>) -> Seq<SourceView> {
    sources.map_values(|s: IgnoreSource| s@)
}

/// What the `ignore` crate's gitignore matcher, built for the directory
/// `base` from the single line `line`, says of `path`.
pub uninterp spec fn rule_verdict(
    base: Seq<char>,
    line: Seq<char>,
    path: Seq<char>,
    is_dir: bool,
) -> Verdict;

/// Whether the `ignore` crate's gitignore builder accepts `line`.
pub uninterp spec fn rule_is_valid(line: Seq<char>) -> bool;

/// `GitignoreBuilder::new`, `add_line`, `build` and `Gitignore::matched` of
/// the `ignore` crate, for one line. Not proved: the answer is the named
/// verdict of that line. A line that the builder rejects matches nothing.
#[verifier::external_body]
fn match_rule(base: &str, line: &str, path: &str, is_dir: bool) -> (v: Verdict)
    ensures
        v == rule_verdict(base@, line@, path@, is_dir),
{
    let mut builder = GitignoreBuilder::new(base);
    if builder.add_line(None, line).is_err() {
        return Verdict::Unmatched;
    }
    match builder.build() {
        Ok(matcher) => match matcher.matched(path, is_dir) {
            Match::None => Verdict::Unmatched,
            Match::Ignore(_) => Verdict::Ignored,
            Match::Whitelist(_) => Verdict::Whitelisted,
        },
        Err(_) => Verdict::Unmatched,
    }
}

/// `GitignoreBuilder::add_line` of the `ignore` crate on a fresh builder. Not
/// proved: the line is accepted exactly where it is named valid.
#[verifier::external_body]
fn parses_as_rule(line: &str) -> (ok: bool)
    ensures
        ok == rule_is_valid(line@),
{
    GitignoreBuilder::new("").add_line(None, line).is_ok()
}

/// Whether `path` lies below the directory `dir`: `dir` is empty, or `path`
/// goes on after `dir` with a `/`.
pub open spec fn is_within(path: Seq<char>, dir: Seq<char>) -> bool {
    ||| dir.len() == 0
    ||| {
        &&& dir.len() < path.len()
        &&& path.subrange(0, dir.len() as int) == dir
        &&& (dir.last() == '/' || path[dir.len() as int] == '/')
    }
}

/// The indices of the lines that are not valid rules, in order.
pub open spec fn malformed(lines: Seq<Seq<char>>) -> Seq<int>
    decreases lines.len(),
{
    if lines.len() == 0 {
        Seq::empty()
    } else if rule_is_valid(lines.last()) {
        malformed(lines.drop_last())
    } else {
        malformed(lines.drop_last()).push(lines.len() - 1)
    }
}

/// The verdict of one source: that of its last rule that matches.
pub open spec fn source_verdict(
    base: Seq<char>,
    lines: Seq<Seq<char>>,
    path: Seq<char>,
    is_dir: bool,
) -> Verdict
    decreases lines.len(),
{
    if lines.len() == 0 {
        Verdict::Unmatched
    } else {
        let last = rule_verdict(base, lines.last(), path, is_dir);
        if last != Verdict::Unmatched {
            last
        } else {
            source_verdict(base, lines.drop_last(), path, is_dir)
        }
    }
}

/// The verdict of the sources of `origin`: that of the first of them, in
/// list order, that has one.
pub open spec fn ranked_verdict(
    sources: Seq<SourceView>,
    origin: IgnoreOrigin,
    path: Seq<char>,
    is_dir: bool,
) -> Verdict
    decreases sources.len(),
{
    if sources.len() == 0 {
        Verdict::Unmatched
    } else {
        let earlier = ranked_verdict(sources.drop_last(), origin, path, is_dir);
        let s = sources.last();
        if earlier != Verdict::Unmatched {
            earlier
        } else if s.origin == origin {
            source_verdict(s.base, s.lines, path, is_dir)
        } else {
            Verdict::Unmatched
        }
    }
}

/// What the ambient source `s` says of `path`: nothing unless `path` lies
/// below its directory.
pub open spec fn ambient_say(s: SourceView, path: Seq<char>, is_dir: bool) -> Verdict {
    if s.origin == IgnoreOrigin::Ambient && is_within(path, s.base) {
        source_verdict(s.base, s.lines, path, is_dir)
    } else {
        Verdict::Unmatched
    }
}

/// The ambient rules that decide for `path`, as a pair: how long the
/// directory of the deciding file is, and what it says. The file with the
/// longest directory decides, and of several such the first. `(-1,
/// Unmatched)` where no file says anything.
pub open spec fn closest_ambient(sources: Seq<SourceView>, path: Seq<char>, is_dir: bool) -> (
    int,
    Verdict,
)
    decreases sources.len(),
{
    if sources.len() == 0 {
        (-1, Verdict::Unmatched)
    } else {
        let earlier = closest_ambient(sources.drop_last(), path, is_dir);
        let s = sources.last();
        let say = ambient_say(s, path, is_dir);
        if say != Verdict::Unmatched && s.base.len() > earlier.0 {
            (s.base.len() as int, say)
        } else {
            earlier
        }
    }
}

/// The verdict of all sources together, by precedence of origin.
pub open spec fn overall_verdict(sources: Seq<SourceView>, path: Seq<char>, is_dir: bool) -> Verdict {
    let explicit = ranked_verdict(sources, IgnoreOrigin::Explicit, path, is_dir);
    let global = ranked_verdict(sources, IgnoreOrigin::Global, path, is_dir);
    if explicit != Verdict::Unmatched {
        explicit
    } else if global != Verdict::Unmatched {
        global
    } else {
        closest_ambient(sources, path, is_dir).1
    }
}

/// Whether the entry at `path` is visited under `sources`: it is, unless the
/// verdict is to ignore it.
pub open spec fn visits(sources: Seq<SourceView>, path: Seq<char>, is_dir: bool) -> bool {
    overall_verdict(sources, path, is_dir) != Verdict::Ignored
}

/// Inclusion by default: where no rule of any source matches, the entry is
/// visited.
pub proof fn lemma_unmatched_is_visited(sources: Seq<SourceView>, path: Seq<char>, is_dir: bool)
    requires
        forall|i: int, j: int|
            0 <= i < sources.len() && 0 <= j < sources[i].lines.len() ==> #[trigger] rule_verdict(
                sources[i].base,
                sources[i].lines[j],
                path,
                is_dir,
            ) == Verdict::Unmatched,
    ensures
        visits(sources, path, is_dir),
{
    lemma_unmatched_sources(sources, sources.len() as int, path, is_dir);
    assert(sources.take(sources.len() as int) == sources);
}

proof fn lemma_unmatched_source(
    base: Seq<char>,
    lines: Seq<Seq<char>>,
    n: int,
    path: Seq<char>,
    is_dir: bool,
)
    requires
        0 <= n <= lines.len(),
        forall|j: int|
            0 <= j < lines.len() ==> #[trigger] rule_verdict(base, lines[j], path, is_dir)
                == Verdict::Unmatched,
    ensures
        source_verdict(base, lines.take(n), path, is_dir) == Verdict::Unmatched,
    decreases n,
{
    if n > 0 {
        lemma_unmatched_source(base, lines, n - 1, path, is_dir);
        assert(lines.take(n).drop_last() == lines.take(n - 1));
        assert(lines.take(n).last() == lines[n - 1]);
    }
}

proof fn lemma_unmatched_sources(sources: Seq<SourceView>, n: int, path: Seq<char>, is_dir: bool)
    requires
        0 <= n <= sources.len(),
        forall|i: int, j: int|
            0 <= i < sources.len() && 0 <= j < sources[i].lines.len() ==> #[trigger] rule_verdict(
                sources[i].base,
                sources[i].lines[j],
                path,
                is_dir,
            ) == Verdict::Unmatched,
    ensures
        ranked_verdict(sources.take(n), IgnoreOrigin::Explicit, path, is_dir)
            == Verdict::Unmatched,
        ranked_verdict(sources.take(n), IgnoreOrigin::Global, path, is_dir) == Verdict::Unmatched,
        closest_ambient(sources.take(n), path, is_dir) == (-1int, Verdict::Unmatched),
    decreases n,
{
    if n > 0 {
        lemma_unmatched_sources(sources, n - 1, path, is_dir);
        assert(sources.take(n).drop_last() == sources.take(n - 1));
        assert(sources.take(n).last() == sources[n - 1]);
        let s = sources[n - 1];
        lemma_unmatched_source(s.base, s.lines, s.lines.len() as int, path, is_dir);
        assert(s.lines.take(s.lines.len() as int) == s.lines);
    }
}

/// Whether `path` lies below the directory `dir`.
pub fn lies_within(path: &str, dir: &str) -> (b: bool)
    ensures
        b == is_within(path@, dir@),
{
    let p = chars_of(path);
    let d = chars_of(dir);
    if d.len() == 0 {
        return true;
    }
    if d.len() >= p.len() {
        return false;
    }
    let mut i: usize = 0;
    while i < d.len()
        invariant
            i <= d.len() < p.len(),
            p@ == path@,
            d@ == dir@,
            p@.subrange(0, i as int) == d@.subrange(0, i as int),
        decreases d.len() - i,
    {
        if p[i] != d[i] {
            proof {
                assert(p@.subrange(0, d@.len() as int)[i as int] == p@[i as int]);
            }
            return false;
        }
        proof {
            assert(p@.subrange(0, i + 1) =~= p@.subrange(0, i as int).push(p@[i as int]));
            assert(d@.subrange(0, i + 1) =~= d@.subrange(0, i as int).push(d@[i as int]));
        }
        i += 1;
    }
    proof {
        assert(d@.subrange(0, d@.len() as int) == d@);
    }
    d[d.len() - 1] == '/' || p[d.len()] == '/'
}

/// A copy of several sources.
pub fn copy_sources(sources: &Vec<IgnoreSource>) -> (copy: Vec<IgnoreSource>)
    ensures
        sources_view(copy@) == sources_view(sources@),
{
    let mut copy: Vec<IgnoreSource> = Vec::new();
    let mut i: usize = 0;
    while i < sources.len()
        invariant
            i <= sources.len(),
            sources_view(copy@) == sources_view(sources@).take(i as int),
        decreases sources.len() - i,
    {
        let ghost before = sources_view(copy@);
        copy.push(sources[i].duplicate());
        proof {
            assert(sources_view(copy@) =~= before.push(sources@[i as int]@));
            assert(sources_view(sources@).take(i + 1) =~= sources_view(sources@).take(
                i as int,
            ).push(sources@[i as int]@));
        }
        i += 1;
    }
    proof {
        assert(sources_view(sources@).take(i as int) == sources_view(sources@));
    }
    copy
}

impl IgnoreSource {
    /// A copy of this source.
    pub fn duplicate(&self) -> (copy: IgnoreSource)
        ensures
            copy@ == self@,
    {
        IgnoreSource {
            origin: self.origin,
            base: self.base.clone(),
            lines: copy_texts(&self.lines),
        }
    }

    /// The verdict of this source on `path`: that of its last rule that
    /// matches.
    pub fn verdict(&self, path: &str, is_dir: bool) -> (v: Verdict)
        ensures
            v == source_verdict(self@.base, self@.lines, path@, is_dir),
    {
        let ghost lines = self@.lines;
        let mut i: usize = self.lines.len();
        proof {
            assert(lines.take(i as int) == lines);
        }
        while i > 0
            invariant
                i <= self.lines.len(),
                lines == self@.lines,
                source_verdict(self@.base, lines, path@, is_dir) == source_verdict(
                    self@.base,
                    lines.take(i as int),
                    path@,
                    is_dir,
                ),
            decreases i,
        {
            proof {
                assert(lines.take(i as int).drop_last() == lines.take(i - 1));
                assert(lines.take(i as int).last() == self.lines@[i - 1]@);
            }
            i -= 1;
            let v = match_rule(self.base.as_str(), self.lines[i].as_str(), path, is_dir);
            if v != Verdict::Unmatched {
                return v;
            }
        }
        Verdict::Unmatched
    }

    /// The lines of this source that are not valid rules, by index and in
    /// order. Such a line matches nothing; it is for the caller to warn of it.
    pub fn malformed_lines(&self) -> (bad: Vec<usize>)
        ensures
            bad@.map_values(|i: usize| i as int) == malformed(self@.lines),
    {
        let ghost lines = self@.lines;
        let mut bad: Vec<usize> = Vec::new();
        let mut i: usize = 0;
        while i < self.lines.len()
            invariant
                i <= self.lines.len(),
                lines == self@.lines,
                bad@.map_values(|i: usize| i as int) == malformed(lines.take(i as int)),
            decreases self.lines.len() - i,
        {
            proof {
                assert(lines.take(i + 1).drop_last() == lines.take(i as int));
                assert(lines.take(i + 1).last() == self.lines@[i as int]@);
            }
            if !parses_as_rule(self.lines[i].as_str()) {
                let ghost before = bad@;
                bad.push(i);
                proof {
                    assert(bad@.map_values(|i: usize| i as int) =~= before.map_values(
                        |i: usize| i as int,
                    ).push(i as int));
                }
            }
            i += 1;
        }
        proof {
            assert(lines.take(i as int) == lines);
        }
        bad
    }
}

/// The verdict of the sources of `origin` on `path`.
pub fn verdict_by_origin(
    sources: &Vec<IgnoreSource>,
    origin: IgnoreOrigin,
    path: &str,
    is_dir: bool,
) -> (v: Verdict)
    ensures
        v == ranked_verdict(sources_view(sources@), origin, path@, is_dir),
{
    let ghost all = sources_view(sources@);
    let mut i: usize = 0;
    while i < sources.len()
        invariant
            i <= sources.len(),
            all == sources_view(sources@),
            ranked_verdict(all.take(i as int), origin, path@, is_dir) == Verdict::Unmatched,
        decreases sources.len() - i,
    {
        proof {
            assert(all.take(i + 1).drop_last() == all.take(i as int));
            assert(all.take(i + 1).last() == sources@[i as int]@);
        }
        if sources[i].origin == origin {
            let v = sources[i].verdict(path, is_dir);
            if v != Verdict::Unmatched {
                proof {
                    lemma_ranked_verdict_stays(all, i + 1, origin, path@, is_dir);
                }
                return v;
            }
        }
        i += 1;
    }
    proof {
        assert(all.take(i as int) == all);
    }
    Verdict::Unmatched
}

/// Once a prefix of the sources has a verdict, the whole list has the same.
proof fn lemma_ranked_verdict_stays(
    sources: Seq<SourceView>,
    n: int,
    origin: IgnoreOrigin,
    path: Seq<char>,
    is_dir: bool,
)
    requires
        0 <= n <= sources.len(),
        ranked_verdict(sources.take(n), origin, path, is_dir) != Verdict::Unmatched,
    ensures
        ranked_verdict(sources, origin, path, is_dir) == ranked_verdict(
            sources.take(n),
            origin,
            path,
            is_dir,
        ),
    decreases sources.len() - n,
{
    if n < sources.len() {
        assert(sources.take(n + 1).drop_last() == sources.take(n));
        lemma_ranked_verdict_stays(sources, n + 1, origin, path, is_dir);
    } else {
        assert(sources.take(n) == sources);
    }
}

/// The verdict of the ambient source closest to `path`.
pub fn verdict_of_closest_ambient(sources: &Vec<IgnoreSource>, path: &str, is_dir: bool) -> (v:
    Verdict)
    ensures
        v == closest_ambient(sources_view(sources@), path@, is_dir).1,
{
    let ghost all = sources_view(sources@);
    let mut best: Verdict = Verdict::Unmatched;
    let mut best_len: Option<usize> = None;
    let mut i: usize = 0;
    while i < sources.len()
        invariant
            i <= sources.len(),
            all == sources_view(sources@),
            closest_ambient(all.take(i as int), path@, is_dir).1 == best,
            match best_len {
                Some(n) => closest_ambient(all.take(i as int), path@, is_dir).0 == n,
                None => closest_ambient(all.take(i as int), path@, is_dir).0 == -1,
            },
        decreases sources.len() - i,
    {
        proof {
            assert(all.take(i + 1).drop_last() == all.take(i as int));
            assert(all.take(i + 1).last() == sources@[i as int]@);
        }
        let s = &sources[i];
        if s.origin == IgnoreOrigin::Ambient && lies_within(path, s.base.as_str()) {
            let say = s.verdict(path, is_dir);
            let len = s.base.as_str().unicode_len();
            let closer = match best_len {
                Some(n) => len > n,
                None => true,
            };
            if say != Verdict::Unmatched && closer {
                best = say;
                best_len = Some(len);
            }
        }
        i += 1;
    }
    proof {
        assert(all.take(i as int) == all);
    }
    best
}

/// Whether the entry at `path` is visited under `sources`. Sources given for
/// the invocation go before the global one, and that before the ambient
/// ones; the first verdict decides, and without one the entry is visited.
pub fn resolve(sources: &Vec<IgnoreSource>, path: &str, is_dir: bool) -> (visit: bool)
    ensures
        visit == visits(sources_view(sources@), path@, is_dir),
{
    let explicit = verdict_by_origin(sources, IgnoreOrigin::Explicit, path, is_dir);
    if explicit != Verdict::Unmatched {
        return explicit != Verdict::Ignored;
    }
    let global = verdict_by_origin(sources, IgnoreOrigin::Global, path, is_dir);
    if global != Verdict::Unmatched {
        return global != Verdict::Ignored;
    }
    verdict_of_closest_ambient(sources, path, is_dir) != Verdict::Ignored
}

} // verus!
