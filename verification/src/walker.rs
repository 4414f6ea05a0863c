//! The configuration of a parallel directory walker and the decisions it
//! takes for each entry; walking the operating system's directories
//! happens outside the library.

use vstd::prelude::*;

verus! {

/// What a visitor tells the walker after an entry.
#[derive(Clone, Copy, Debug, PartialEq, Eq, Structural)]
pub enum WalkerAction {
    /// Continue walking as normal.
    Continue,
    /// Do not descend into the entry if it is a directory.
    Skip,
    /// Stop as soon as possible.
    Quit,
}

impl WalkerAction {
    /// Whether the action is `Continue`.
    pub fn is_continue(&self) -> (b: bool)
        ensures
            b == (*self == WalkerAction::Continue),
    {
        match self {
            WalkerAction::Continue => true,
            _ => false,
        }
    }

    /// Whether the action is `Skip`.
    pub fn is_skip(&self) -> (b: bool)
        ensures
            b == (*self == WalkerAction::Skip),
    {
        match self {
            WalkerAction::Skip => true,
            _ => false,
        }
    }

    /// Whether the action is `Quit`.
    pub fn is_quit(&self) -> (b: bool)
        ensures
            b == (*self == WalkerAction::Quit),
    {
        match self {
            WalkerAction::Quit => true,
            _ => false,
        }
    }
}

/// What the walker does with an entry once the visitor has answered
/// `action`: the action it reports, and whether it descends into the entry.
/// It descends only into a non-file the visitor neither skipped nor quit.
pub fn plan_visit(action: WalkerAction, is_file: bool) -> (r: (WalkerAction, bool))
    ensures
        action == WalkerAction::Quit ==> r == (WalkerAction::Quit, false),
        action != WalkerAction::Quit ==> r.0 == WalkerAction::Continue,
        r.1 == (action == WalkerAction::Continue && !is_file),
{
    if action.is_quit() {
        return (WalkerAction::Quit, false);
    }
    if is_file {
        return (WalkerAction::Continue, false);
    }
    if action.is_skip() {
        return (WalkerAction::Continue, false);
    }
    (WalkerAction::Continue, true)
}

/// A builder for a walk over one or more root paths with a number of
/// worker threads.
pub struct Walker {
    paths: Vec<String>,
    threads: usize,
}

impl Walker {
    /// The root paths, in the order they were added.
    pub closed spec fn roots(&self) -> Seq<Seq<char>> {
        self.paths@.map_values(|p: String| p@)
    }

    /// The number of worker threads.
    pub closed spec fn thread_count(&self) -> usize {
        self.threads
    }

    /// A walker with no root paths and one thread.
    pub fn empty() -> (w: Self)
        ensures
            w.roots() == Seq::<Seq<char>>::empty(),
            w.thread_count() == 1,
    {
        let w = Walker { paths: Vec::new(), threads: 1 };
        assert(w.roots() =~= Seq::<Seq<char>>::empty());
        w
    }

    /// A walker with the single root path `path` and one thread.
    pub fn new(path: &str) -> (w: Self)
        ensures
            w.roots() == seq![path@],
            w.thread_count() == 1,
    {
        let w = Walker::empty().add(path);
        assert(w.roots() =~= seq![path@]);
        w
    }

    /// Adds a root path.
    pub fn add(self, path: &str) -> (w: Self)
        ensures
            w.roots() == self.roots().push(path@),
            w.thread_count() == self.thread_count(),
    {
        let mut paths = self.paths;
        let ghost before = paths@;
        paths.push(path.to_owned());
        let w = Walker { paths, threads: self.threads };
        assert(w.roots() =~= self.roots().push(path@));
        w
    }

    /// A walker over the given root paths, in their order, on one thread.
    pub fn from_iter(paths: &Vec<String>) -> (w: Self)
        ensures
            w.roots() == paths@.map_values(|p: String| p@),
            w.thread_count() == 1,
    {
        let mut w = Walker::empty();
        let mut i: usize = 0;
        while i < paths.len()
            invariant
                0 <= i <= paths@.len(),
                w.roots() == paths@.take(i as int).map_values(|p: String| p@),
                w.thread_count() == 1,
            decreases paths@.len() - i,
        {
            w = w.add(paths[i].as_str());
            proof {
                assert(paths@.take(i + 1) =~= paths@.take(i as int).push(paths@[i as int]));
                assert(paths@.take(i + 1).map_values(|p: String| p@)
                    =~= paths@.take(i as int).map_values(|p: String| p@).push(paths@[i as int]@));
            }
            i = i + 1;
        }
        assert(paths@.take(paths@.len() as int) =~= paths@);
        w
    }

    /// Sets the number of threads (which must not be zero).
    pub fn threads(&mut self, threads: usize) -> (r: &mut Self)
        requires
            threads > 0,
        ensures
            r.roots() == old(self).roots(),
            r.thread_count() == threads,
            *final(self) == *final(r),
    {
        self.threads = threads;
        self
    }

    /// The root paths, in the order they were added.
    pub fn paths(&self) -> (p: &Vec<String>)
        ensures
            p@.map_values(|s: String| s@) == self.roots(),
    {
        &self.paths
    }

    /// The number of worker threads.
    pub fn get_threads(&self) -> (n: usize)
        ensures
            n == self.thread_count(),
    {
        self.threads
    }
}

/// Whether a directory entry's name marks it as one to skip: hidden (a
/// leading `.`) or a `node_modules` directory.
pub open spec fn skipped_name(name: Seq<char>) -> bool {
    (name.len() > 0 && name[0] == '.') || name == seq!['n', 'o', 'd', 'e', '_', 'm', 'o', 'd', 'u', 'l', 'e', 's']
}

/// The action the duplicate finder's visitor answers for an entry: files
/// are recorded and walking continues; directories whose names are hidden
/// or `node_modules` are skipped.
pub fn duplicate_finder_action(is_file: bool, name: Option<&str>) -> (r: WalkerAction)
    ensures
        r == (if !is_file && (name matches Some(n) && skipped_name(n@)) {
            WalkerAction::Skip
        } else {
            WalkerAction::Continue
        }),
{
    if is_file {
        return WalkerAction::Continue;
    }
    match name {
        Some(n) => {
            let skip = if n.unicode_len() > 0 && n.get_char(0) == '.' {
                true
            } else {
                let node_modules = "node_modules";
                proof {
                    reveal_strlit("node_modules");
                    assert(node_modules@ =~= seq!['n', 'o', 'd', 'e', '_', 'm', 'o', 'd', 'u', 'l', 'e', 's']);
                }
                str_eq(n, node_modules)
            };
            if skip { WalkerAction::Skip } else { WalkerAction::Continue }
        },
        None => WalkerAction::Continue,
    }
}

/// Whether two strings are equal, character by character.
fn str_eq(a: &str, b: &str) -> (r: bool)
    ensures
        r == (a@ == b@),
{
    let n = a.unicode_len();
    if n != b.unicode_len() {
        return false;
    }
    let mut i: usize = 0;
    while i < n
        invariant
            0 <= i <= n,
            n == a@.len(),
            n == b@.len(),
            forall|k: int| 0 <= k < i ==> a@[k] == b@[k],
        decreases n - i,
    {
        if a.get_char(i) != b.get_char(i) {
            return false;
        }
        i = i + 1;
    }
    assert(a@ =~= b@);
    true
}

} // verus!
