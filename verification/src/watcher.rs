//! File watching: which events count, and how bursts are collapsed.

use vstd::prelude::*;
use crate::text::{same_text, texts};

verus! {

/// A debounced file-watch event.
#[derive(Debug)]
pub struct FileChange {
    /// Which file changed.
    pub path: String,
}

/// A path is in a list.
pub open spec fn is_listed(paths: Seq<Seq<char>>, path: Seq<char>) -> bool {
    paths.contains(path)
}

fn listed(paths: &Vec<String>, path: &str) -> (r: bool)
    ensures
        r == is_listed(texts(paths@), path@),
{
    for i in 0..paths.len()
        invariant
            forall|j: int| 0 <= j < i ==> (#[trigger] texts(paths@)[j]) != path@,
    {
        assert(texts(paths@)[i as int] == paths@[i as int]@);
        if same_text(paths[i].as_str(), path) {
            return true;
        }
    }
    proof {
        if texts(paths@).contains(path@) {
            let j = choose|j: int| 0 <= j < texts(paths@).len() && texts(paths@)[j] == path@;
            assert(texts(paths@)[j] != path@);
        }
    }
    false
}

/// The path that a watched file is compared by: its canonical path, or the
/// path itself where there is none.
pub fn watched_path(path: &str, canonical: Option<&str>) -> (r: String)
    ensures
        r@ == (match canonical {
            Some(c) => c@,
            None => path@,
        }),
{
    match canonical {
        Some(c) => c.to_owned(),
        None => path.to_owned(),
    }
}

/// Whether an event on a path concerns a watched file. An event on a path that
/// has no canonical form, such as a removed file, does not.
pub fn concerns(
    path: &str,
    canonical: Option<&str>,
    watched_canonical: &Vec<String>,
    watched: &Vec<String>,
) -> (r: bool)
    ensures
        r == (canonical matches Some(c) && (is_listed(texts(watched_canonical@), c@) || is_listed(
            texts(watched@),
            path@,
        ))),
{
    match canonical {
        Some(c) => listed(watched_canonical, c) || listed(watched, path),
        None => false,
    }
}

/// Paths that have changed during a burst of events.
pub struct Debounce {
    pending: Vec<String>,
}

/// A list with one more path, unless it is there.
pub open spec fn with_path(paths: Seq<Seq<char>>, path: Seq<char>) -> Seq<Seq<char>> {
    if is_listed(paths, path) {
        paths
    } else {
        paths.push(path)
    }
}

/// The paths of changes.
pub open spec fn change_paths(changes: Seq<FileChange>) -> Seq<Seq<char>> {
    changes.map_values(|c: FileChange| c.path@)
}

impl Debounce {
    /// The paths that have changed, each once.
    pub closed spec fn paths(&self) -> Seq<Seq<char>> {
        texts(self.pending@)
    }

    /// Nothing has changed.
    pub fn new() -> (r: Debounce)
        ensures
            r.paths() == Seq::<Seq<char>>::empty(),
    {
        let r = Debounce { pending: Vec::new() };
        assert(r.paths() =~= Seq::<Seq<char>>::empty());
        r
    }

    /// Notes a change.
    pub fn note(&mut self, path: &str)
        ensures
            final(self).paths() == with_path(old(self).paths(), path@),
    {
        if !listed(&self.pending, path) {
            let ghost before = self.pending@;
            self.pending.push(path.to_owned());
            assert(texts(self.pending@) =~= texts(before).push(path@));
        }
    }

    /// Hands the changes out, once the burst is over.
    pub fn drain(&mut self) -> (r: Vec<FileChange>)
        ensures
            change_paths(r@) == old(self).paths(),
            final(self).paths() == Seq::<Seq<char>>::empty(),
    {
        let mut out: Vec<FileChange> = Vec::new();
        assert(change_paths(out@) =~= texts(self.pending@).take(0));
        for i in 0..self.pending.len()
            invariant
                *self == *old(self),
                change_paths(out@) == texts(self.pending@).take(i as int),
        {
            let ghost before = out@;
            out.push(FileChange { path: self.pending[i].clone() });
            assert(change_paths(out@) =~= change_paths(before).push(self.pending@[i as int]@));
            assert(texts(self.pending@).take(i + 1) =~= texts(self.pending@).take(i as int).push(
                self.pending@[i as int]@,
            ));
        }
        assert(texts(self.pending@).take(self.pending@.len() as int) =~= texts(self.pending@));
        self.pending = Vec::new();
        assert(self.paths() =~= Seq::<Seq<char>>::empty());
        out
    }
}

/// What is reloaded after a change.
#[derive(Debug, Clone, Copy, PartialEq, Eq, Structural)]
pub struct Changed {
    pub config: bool,
    pub apikeys: bool,
}

/// Two canonical paths are there and equal.
pub open spec fn same_file(a: Option<&str>, b: Option<&str>) -> bool {
    a matches Some(x) && b matches Some(y) && x@ == y@
}

fn is_same_file(a: Option<&str>, b: Option<&str>) -> (r: bool)
    ensures
        r == same_file(a, b),
{
    match (a, b) {
        (Some(x), Some(y)) => same_text(x, y),
        _ => false,
    }
}

/// Tells which files a change concerns, by their canonical paths.
pub fn what_changed(changed: Option<&str>, config: Option<&str>, apikeys: Option<&str>) -> (r:
    Changed)
    ensures
        r.config == same_file(changed, config),
        r.apikeys == same_file(changed, apikeys),
{
    Changed { config: is_same_file(changed, config), apikeys: is_same_file(changed, apikeys) }
}

/// However often a path is noted in a burst, it is handed out once.
pub proof fn law_bursts_collapse(paths: Seq<Seq<char>>, path: Seq<char>)
    ensures
        with_path(with_path(paths, path), path) == with_path(paths, path),
        is_listed(with_path(paths, path), path),
        paths.no_duplicates() ==> with_path(paths, path).no_duplicates(),
{
    let next = with_path(paths, path);
    if !is_listed(paths, path) {
        assert(next[paths.len() as int] == path);
        if paths.no_duplicates() {
            assert forall|i: int, j: int| 0 <= i < next.len() && 0 <= j < next.len() && i != j implies next[i]
                != next[j] by {
                if i < paths.len() && j < paths.len() {
                    assert(paths[i] != paths[j]);
                } else if i < paths.len() {
                    assert(paths.contains(paths[i]));
                } else {
                    assert(paths.contains(paths[j]));
                }
            }
        }
    }
}

/// A change in a burst is kept behind those that were noted before it, and a
/// path that is there already changes nothing. Two paths name the same file only
/// if both have a canonical form.
pub proof fn law_noted_changes(paths: Seq<Seq<char>>, path: Seq<char>, a: &str, b: &str)
    ensures
        !paths.contains(path) ==> with_path(paths, path) == paths.push(path),
        paths.contains(path) ==> with_path(paths, path) == paths,
        is_listed(paths, path) <==> exists|i: int| 0 <= i < paths.len() && #[trigger] paths[i] == path,
        same_file(Some(a), Some(b)) <==> a@ == b@,
        !same_file(None, Some(b)),
        !same_file(Some(a), None),
        !same_file(None, None),
{
}

} // verus!
