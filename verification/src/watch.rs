//! What `watch` mode watches: the state of each repository, and the directories of its working
//! tree.

use crate::command::{self, decode_lossy, CommandOutput, Invocation, InvocationView};
use crate::detach::Turn;
use crate::path::{self, join, normalize};
use crate::text::{self, chars_of, trim};
use vstd::prelude::*;

verus! {

/// After how long the watched paths are brought up to date, in seconds.
pub const WATCH_RESYNC_INTERVAL: u64 = 30;

/// How long it must be quiet before a burst of changes counts as over, in milliseconds.
pub const WATCH_DEBOUNCE: u64 = 200;

/// The paths `watch` mode watches for a single repository.
#[derive(Debug, PartialEq)]
pub struct GitPaths {
    pub head: String,
    pub index: String,
    pub refs: String,
}

/// The model of these paths.
pub struct GitPathsView {
    pub head: Seq<char>,
    pub index: Seq<char>,
    pub refs: Seq<char>,
}

impl View for GitPaths {
    type V = GitPathsView;

    open spec fn view(&self) -> GitPathsView {
        GitPathsView { head: self.head@, index: self.index@, refs: self.refs@ }
    }
}

/// `git rev-parse` in a repository.
pub open spec fn rev_parse_call(repo: Seq<char>, arg: Seq<char>) -> InvocationView {
    command::call("git"@, seq!["-C"@, repo, "rev-parse"@, arg])
}

/// The call that asks git about a repository.
pub fn rev_parse_invocation(repo: &str, arg: &str) -> (res: Invocation)
    ensures
        res@ == rev_parse_call(repo@, arg@),
{
    let mut cmd = Invocation::new("git");
    cmd.arg("-C");
    cmd.arg(repo);
    cmd.arg("rev-parse");
    cmd.arg(arg);
    assert(cmd@.args =~= rev_parse_call(repo@, arg@).args);
    cmd
}

/// The path that git printed, taken from the repository if it is relative.
pub open spec fn printed_name(repo: Seq<char>, printed: Seq<char>) -> Option<Seq<char>> {
    let name = text::trimmed(printed);
    if name.len() > 0 {
        Some(path::joined(repo, name))
    } else {
        None
    }
}

/// The path that git named, if it ran and named one.
pub open spec fn named_path(repo: Seq<char>, ran: Option<&CommandOutput>) -> Option<Seq<char>> {
    match ran {
        Some(output) => if output.success {
            printed_name(repo, command::lossy_text(output.stdout@))
        } else {
            None
        },
        None => None,
    }
}

/// The path that git printed, taken from `repo` if it is relative.
pub fn read_printed_name(repo: &str, printed: &str) -> (res: Option<String>)
    ensures
        text::maybe(res) == printed_name(repo@, printed@),
{
    let name = trim(printed);
    if chars_of(name.as_str()).len() == 0 {
        return None;
    }
    Some(join(repo, name.as_str()))
}

/// The path that git named, if it ran and named one.
pub fn rev_parse(repo: &str, ran: Option<&CommandOutput>) -> (res: Option<String>)
    ensures
        text::maybe(res) == named_path(repo@, ran),
{
    match ran {
        Some(output) => {
            if !output.success {
                return None;
            }
            let printed = decode_lossy(output.stdout.as_slice());
            read_printed_name(repo, printed.as_str())
        },
        None => None,
    }
}

/// The paths to watch in a repository. A linked worktree's `.git` is a file: `HEAD` and `index`
/// are its own, `refs` is shared.
pub open spec fn git_paths(
    repo: Seq<char>,
    git_dir: Option<&CommandOutput>,
    common_dir: Option<&CommandOutput>,
) -> Option<GitPathsView> {
    match (named_path(repo, git_dir), named_path(repo, common_dir)) {
        (Some(own), Some(shared)) => Some(
            GitPathsView {
                head: path::joined(own, "HEAD"@),
                index: path::joined(own, "index"@),
                refs: path::joined(shared, "refs"@),
            },
        ),
        _ => None,
    }
}

/// The paths to watch in `repo`, by what git says of `--git-dir` and `--git-common-dir`. There are
/// none if it is no repository.
pub fn resolve_git_paths(
    repo: &str,
    git_dir: Option<&CommandOutput>,
    common_dir: Option<&CommandOutput>,
) -> (res: Option<GitPaths>)
    ensures
        match (res, git_paths(repo@, git_dir, common_dir)) {
            (Some(a), Some(b)) => a@ == b,
            (None, None) => true,
            _ => false,
        },
{
    match (rev_parse(repo, git_dir), rev_parse(repo, common_dir)) {
        (Some(own), Some(shared)) => Some(
            GitPaths {
                head: join(own.as_str(), "HEAD"),
                index: join(own.as_str(), "index"),
                refs: join(shared.as_str(), "refs"),
            },
        ),
        _ => None,
    }
}

/// Whether what lies below a path is watched too.
#[derive(Debug, Clone, Copy, PartialEq, Eq, Structural)]
pub enum WatchMode {
    Recursive,
    NonRecursive,
}

/// The paths to watch, each once, with the way to watch it.
#[derive(Debug)]
pub struct WatchPaths {
    entries: Vec<(String, WatchMode)>,
}

impl View for WatchPaths {
    type V = Map<Seq<char>, WatchMode>;

    closed spec fn view(&self) -> Map<Seq<char>, WatchMode> {
        entries_map(self.entries@)
    }
}

spec fn has_entry(entries: Seq<(String, WatchMode)>, key: Seq<char>, i: int) -> bool {
    0 <= i < entries.len() && entries[i].0@ == key
}

spec fn entries_map(entries: Seq<(String, WatchMode)>) -> Map<Seq<char>, WatchMode> {
    Map::new(
        |key: Seq<char>| exists|i: int| has_entry(entries, key, i),
        |key: Seq<char>| entries[choose|i: int| has_entry(entries, key, i)].1,
    )
}

/// No path twice, and each written in the shortest way.
spec fn distinct(entries: Seq<(String, WatchMode)>) -> bool {
    &&& forall|i: int, j: int|
        0 <= i < entries.len() && 0 <= j < entries.len() && entries[i].0@ == entries[j].0@ ==> i
            == j
    &&& forall|i: int|
        0 <= i < entries.len() ==> path::normalized(#[trigger] entries[i].0@) == entries[i].0@
}

proof fn lemma_entry(entries: Seq<(String, WatchMode)>, i: int)
    requires
        distinct(entries),
        0 <= i < entries.len(),
    ensures
        entries_map(entries).contains_key(entries[i].0@),
        entries_map(entries)[entries[i].0@] == entries[i].1,
{
    let key = entries[i].0@;
    assert(has_entry(entries, key, i));
    let j = choose|j: int| has_entry(entries, key, j);
    assert(has_entry(entries, key, j));
}

impl WatchPaths {
    #[verifier::type_invariant]
    spec fn each_once(self) -> bool {
        distinct(self.entries@)
    }

    /// No paths at all.
    pub fn new() -> (res: WatchPaths)
        ensures
            res@ == Map::<Seq<char>, WatchMode>::empty(),
    {
        let res = WatchPaths { entries: Vec::new() };
        assert(res@ =~= Map::empty());
        res
    }

    /// Where `key` stands among the paths.
    fn find(&self, key: &str) -> (res: Option<usize>)
        ensures
            match res {
                Some(i) => has_entry(self.entries@, key@, i as int),
                None => !self@.contains_key(key@),
            },
    {
        let mut i: usize = 0;
        while i < self.entries.len()
            invariant
                i <= self.entries@.len(),
                forall|k: int| 0 <= k < i ==> !#[trigger] has_entry(self.entries@, key@, k),
            decreases self.entries@.len() - i,
        {
            if self.entries[i].0.as_str().eq(key) {
                return Some(i);
            }
            i = i + 1;
        }
        None
    }

    /// These paths with one more, or with the way it is watched changed.
    pub fn insert(self, path: &str, mode: WatchMode) -> (res: WatchPaths)
        ensures
            res@ == self@.insert(path::normalized(path@), mode),
    {
        let key = normalize(path);
        proof {
            use_type_invariant(&self);
            path::law_normalized_stays(path@);
        }
        let place = self.find(key.as_str());
        let mut entries = self.entries;
        match place {
            Some(i) => {
                proof {
                    lemma_replace(entries@, i as int, (key, mode));
                }
                entries.set(i, (key, mode));
            },
            None => {
                proof {
                    lemma_add(entries@, (key, mode));
                }
                entries.push((key, mode));
            },
        }
        WatchPaths { entries }
    }

    /// The way `path` is watched, if it is.
    pub fn get(&self, path: &str) -> (res: Option<WatchMode>)
        ensures
            res == if self@.contains_key(path::normalized(path@)) {
                Some(self@[path::normalized(path@)])
            } else {
                None
            },
    {
        let key = normalize(path);
        proof {
            use_type_invariant(self);
        }
        match self.find(key.as_str()) {
            Some(i) => {
                proof {
                    lemma_entry(self.entries@, i as int);
                }
                Some(self.entries[i].1)
            },
            None => None,
        }
    }

    /// Whether there are no paths.
    pub fn is_empty(&self) -> (res: bool)
        ensures
            res == (self@ == Map::<Seq<char>, WatchMode>::empty()),
    {
        proof {
            use_type_invariant(self);
            if self.entries@.len() > 0 {
                lemma_entry(self.entries@, 0);
            } else {
                assert(self@ =~= Map::empty());
            }
        }
        self.entries.len() == 0
    }
}

proof fn lemma_replace(entries: Seq<(String, WatchMode)>, i: int, entry: (String, WatchMode))
    requires
        distinct(entries),
        0 <= i < entries.len(),
        entries[i].0@ == entry.0@,
    ensures
        distinct(entries.update(i, entry)),
        entries_map(entries.update(i, entry)) == entries_map(entries).insert(entry.0@, entry.1),
{
    let after = entries.update(i, entry);
    assert(distinct(after)) by {
        assert forall|a: int, b: int|
            0 <= a < after.len() && 0 <= b < after.len() && after[a].0@ == after[b].0@ implies a
            == b by {
            assert(entries[a].0@ == after[a].0@);
            assert(entries[b].0@ == after[b].0@);
        }
    }
    let m = entries_map(entries).insert(entry.0@, entry.1);
    assert forall|key: Seq<char>| #[trigger] entries_map(after).contains_key(key)
        <==> m.contains_key(key) by {
        if entries_map(after).contains_key(key) {
            let k = choose|k: int| has_entry(after, key, k);
            assert(has_entry(entries, key, k));
        }
        if entries_map(entries).contains_key(key) {
            let k = choose|k: int| has_entry(entries, key, k);
            assert(has_entry(after, key, k));
        }
        if key == entry.0@ {
            assert(has_entry(after, key, i));
        }
    }
    assert forall|key: Seq<char>| entries_map(after).contains_key(key) implies #[trigger] entries_map(
        after,
    )[key] == m[key] by {
        let k = choose|k: int| has_entry(after, key, k);
        assert(has_entry(after, key, k));
        lemma_entry(after, k);
        lemma_entry(entries, k);
    }
    assert(entries_map(after) =~= m);
}

proof fn lemma_add(entries: Seq<(String, WatchMode)>, entry: (String, WatchMode))
    requires
        distinct(entries),
        !entries_map(entries).contains_key(entry.0@),
        path::normalized(entry.0@) == entry.0@,
    ensures
        distinct(entries.push(entry)),
        entries_map(entries.push(entry)) == entries_map(entries).insert(entry.0@, entry.1),
{
    let after = entries.push(entry);
    let n = entries.len() as int;
    assert forall|k: int| 0 <= k < n implies entries[k].0@ != entry.0@ by {
        if entries[k].0@ == entry.0@ {
            assert(has_entry(entries, entry.0@, k));
        }
    }
    assert(distinct(after)) by {
        assert forall|a: int, b: int|
            0 <= a < after.len() && 0 <= b < after.len() && after[a].0@ == after[b].0@ implies a
            == b by {
            if a < n && b < n {
                assert(entries[a].0@ == entries[b].0@);
            }
        }
    }
    let m = entries_map(entries).insert(entry.0@, entry.1);
    assert forall|key: Seq<char>| #[trigger] entries_map(after).contains_key(key)
        <==> m.contains_key(key) by {
        if entries_map(after).contains_key(key) {
            let k = choose|k: int| has_entry(after, key, k);
            if k < n {
                assert(has_entry(entries, key, k));
            }
        }
        if entries_map(entries).contains_key(key) {
            let k = choose|k: int| has_entry(entries, key, k);
            assert(has_entry(after, key, k));
        }
        if key == entry.0@ {
            assert(has_entry(after, key, n));
        }
    }
    assert forall|key: Seq<char>| entries_map(after).contains_key(key) implies #[trigger] entries_map(
        after,
    )[key] == m[key] by {
        let k = choose|k: int| has_entry(after, key, k);
        assert(has_entry(after, key, k));
        lemma_entry(after, k);
        if k < n {
            lemma_entry(entries, k);
        }
    }
    assert(entries_map(after) =~= m);
}

/// The paths that are being watched, each once.
#[derive(Debug)]
pub struct Watched {
    paths: Vec<String>,
}

impl View for Watched {
    type V = Set<Seq<char>>;

    closed spec fn view(&self) -> Set<Seq<char>> {
        text::texts(self.paths@).to_set()
    }
}

/// No path twice, and each written in the shortest way.
spec fn once_each(paths: Seq<Seq<char>>) -> bool {
    &&& paths.no_duplicates()
    &&& forall|i: int| 0 <= i < paths.len() ==> path::normalized(#[trigger] paths[i]) == paths[i]
}

impl Watched {
    #[verifier::type_invariant]
    spec fn each_once(self) -> bool {
        once_each(text::texts(self.paths@))
    }

    /// No paths at all.
    pub fn new() -> (res: Watched)
        ensures
            res@ == Set::<Seq<char>>::empty(),
    {
        let res = Watched { paths: Vec::new() };
        assert(res@ =~= Set::empty());
        res
    }

    /// Where `key` stands among the paths.
    fn find(&self, key: &str) -> (res: Option<usize>)
        ensures
            match res {
                Some(i) => i < self.paths@.len() && self.paths@[i as int]@ == key@ && self@.contains(
                    key@,
                ),
                None => !self@.contains(key@),
            },
    {
        let ghost all = text::texts(self.paths@);
        let mut i: usize = 0;
        while i < self.paths.len()
            invariant
                i <= self.paths@.len(),
                all == text::texts(self.paths@),
                forall|k: int| 0 <= k < i ==> #[trigger] all[k] != key@,
            decreases self.paths@.len() - i,
        {
            if self.paths[i].as_str().eq(key) {
                assert(all[i as int] == key@);
                return Some(i);
            }
            i = i + 1;
        }
        None
    }

    /// Whether `path` is being watched.
    pub fn contains(&self, path: &str) -> (res: bool)
        ensures
            res == self@.contains(path::normalized(path@)),
    {
        let key = normalize(path);
        self.find(key.as_str()).is_some()
    }

    /// Whether nothing is being watched.
    pub fn is_empty(&self) -> (res: bool)
        ensures
            res == (self@ == Set::<Seq<char>>::empty()),
    {
        proof {
            let all = text::texts(self.paths@);
            if all.len() > 0 {
                assert(all.to_set().contains(all[0]));
            } else {
                assert(self@ =~= Set::empty());
            }
        }
        self.paths.len() == 0
    }

    /// These paths with one more.
    pub fn insert(self, path: &str) -> (res: Watched)
        ensures
            res@ == self@.insert(path::normalized(path@)),
    {
        let key = normalize(path);
        proof {
            use_type_invariant(&self);
            path::law_normalized_stays(path@);
        }
        if self.find(key.as_str()).is_some() {
            assert(self@.insert(key@) =~= self@);
            return self;
        }
        let mut paths = self.paths;
        let ghost before = text::texts(paths@);
        paths.push(key);
        proof {
            let after = text::texts(paths@);
            assert(after =~= before.push(key@));
            lemma_push_no_duplicates(before, key@);
            lemma_push_contains(before, key@);
            assert(after.to_set() =~= before.to_set().insert(key@));
        }
        Watched { paths }
    }

    /// These paths without one of them.
    pub fn remove(self, path: &str) -> (res: Watched)
        ensures
            res@ == self@.remove(path::normalized(path@)),
    {
        let key = normalize(path);
        proof {
            use_type_invariant(&self);
        }
        match self.find(key.as_str()) {
            Some(at) => {
                let mut paths = self.paths;
                let ghost before = text::texts(paths@);
                let _ = paths.remove(at);
                proof {
                    let after = text::texts(paths@);
                    let n = at as int;
                    assert(after =~= before.remove(n));
                    assert(before[n] == key@);
                    assert forall|i: int| 0 <= i < after.len() implies #[trigger] after[i] == before[if i
                        < n {
                        i
                    } else {
                        i + 1
                    }] by {}
                    assert(after.no_duplicates());
                    assert forall|k: Seq<char>| #[trigger] after.to_set().contains(k)
                        <==> before.to_set().remove(key@).contains(k) by {
                        if after.contains(k) {
                            let i = choose|i: int| 0 <= i < after.len() && after[i] == k;
                            let j = if i < n {
                                i
                            } else {
                                i + 1
                            };
                            assert(before[j] == k);
                            assert(before[j] != before[n]);
                        }
                        if before.contains(k) && k != key@ {
                            let i = choose|i: int| 0 <= i < before.len() && before[i] == k;
                            assert(after[if i < n {
                                i
                            } else {
                                i - 1
                            }] == k);
                        }
                    }
                    assert(after.to_set() =~= before.to_set().remove(key@));
                }
                Watched { paths }
            },
            None => {
                assert(self@.remove(key@) =~= self@);
                self
            },
        }
    }
}

/// What was found in a repository.
#[derive(Debug)]
pub struct RepoScan {
    pub git_paths: GitPaths,
    pub head_exists: bool,
    pub index_exists: bool,
    pub refs_exists: bool,
    /// The directories of the working tree that are not ignored.
    pub dirs: Vec<String>,
}

/// `paths` with one more, if it is there.
pub open spec fn with_existing(
    paths: Map<Seq<char>, WatchMode>,
    path: Seq<char>,
    mode: WatchMode,
    exists: bool,
) -> Map<Seq<char>, WatchMode> {
    if exists {
        paths.insert(path::normalized(path), mode)
    } else {
        paths
    }
}

/// `paths` with directories, each watched by itself.
pub open spec fn with_dirs(paths: Map<Seq<char>, WatchMode>, dirs: Seq<Seq<char>>) -> Map<
    Seq<char>,
    WatchMode,
>
    decreases dirs.len(),
{
    if dirs.len() == 0 {
        paths
    } else {
        with_dirs(paths, dirs.drop_last()).insert(
            path::normalized(dirs.last()),
            WatchMode::NonRecursive,
        )
    }
}

/// `paths` with what is to be watched in a repository.
pub open spec fn with_repo(paths: Map<Seq<char>, WatchMode>, scan: RepoScan) -> Map<
    Seq<char>,
    WatchMode,
> {
    let git = scan.git_paths@;
    let a = with_existing(paths, git.head, WatchMode::NonRecursive, scan.head_exists);
    let b = with_existing(a, git.index, WatchMode::NonRecursive, scan.index_exists);
    let c = with_existing(b, git.refs, WatchMode::Recursive, scan.refs_exists);
    with_dirs(c, text::texts(scan.dirs@))
}

/// What is to be watched for a list of workspaces. One that is no repository adds nothing.
pub open spec fn desired(targets: Seq<Option<RepoScan>>) -> Map<Seq<char>, WatchMode>
    decreases targets.len(),
{
    if targets.len() == 0 {
        Map::empty()
    } else {
        match targets.last() {
            Some(scan) => with_repo(desired(targets.drop_last()), scan),
            None => desired(targets.drop_last()),
        }
    }
}

/// Adds a path, if it is there.
fn add_existing(paths: WatchPaths, path: &str, mode: WatchMode, exists: bool) -> (res: WatchPaths)
    ensures
        res@ == with_existing(paths@, path@, mode, exists),
{
    if exists {
        paths.insert(path, mode)
    } else {
        paths
    }
}

/// Adds what is to be watched in a repository.
fn add_repo(paths: WatchPaths, scan: &RepoScan) -> (res: WatchPaths)
    ensures
        res@ == with_repo(paths@, *scan),
{
    let git = &scan.git_paths;
    let paths_a = add_existing(
        paths,
        git.head.as_str(),
        WatchMode::NonRecursive,
        scan.head_exists,
    );
    let paths_b = add_existing(
        paths_a,
        git.index.as_str(),
        WatchMode::NonRecursive,
        scan.index_exists,
    );
    let mut res = add_existing(
        paths_b,
        git.refs.as_str(),
        WatchMode::Recursive,
        scan.refs_exists,
    );
    let ghost base = res@;
    let ghost all = text::texts(scan.dirs@);
    let mut i: usize = 0;
    assert(with_dirs(base, all.take(0)) == base);
    while i < scan.dirs.len()
        invariant
            i <= scan.dirs@.len(),
            all == text::texts(scan.dirs@),
            res@ == with_dirs(base, all.take(i as int)),
        decreases scan.dirs@.len() - i,
    {
        res = res.insert(scan.dirs[i].as_str(), WatchMode::NonRecursive);
        assert(all.take(i + 1).drop_last() =~= all.take(i as int));
        assert(all.take(i + 1).last() == scan.dirs@[i as int]@);
        i = i + 1;
    }
    assert(all.take(i as int) =~= all);
    res
}

/// The paths that `watch` mode watches, by what was found for each workspace. Only `refs` is
/// watched with what lies below it, so that ignored directories stay out of sight.
pub fn desired_watch_paths(targets: &Vec<Option<RepoScan>>) -> (res: WatchPaths)
    ensures
        res@ == desired(targets@),
{
    let mut res = WatchPaths::new();
    let mut i: usize = 0;
    while i < targets.len()
        invariant
            i <= targets@.len(),
            res@ == desired(targets@.take(i as int)),
        decreases targets@.len() - i,
    {
        assert(targets@.take(i + 1).drop_last() =~= targets@.take(i as int));
        assert(targets@.take(i + 1).last() == targets@[i as int]);
        if let Some(scan) = &targets[i] {
            res = add_repo(res, scan);
        }
        i = i + 1;
    }
    assert(targets@.take(i as int) =~= targets@);
    res
}

/// A target whose `refs` directory is there, at `path`.
pub open spec fn has_refs(target: Option<RepoScan>, path: Seq<char>) -> bool {
    match target {
        Some(scan) => scan.refs_exists && path::normalized(scan.git_paths@.refs) == path,
        None => false,
    }
}

proof fn lemma_dirs_add_nothing_recursive(
    paths: Map<Seq<char>, WatchMode>,
    dirs: Seq<Seq<char>>,
    path: Seq<char>,
)
    requires
        with_dirs(paths, dirs).contains_key(path),
        with_dirs(paths, dirs)[path] == WatchMode::Recursive,
    ensures
        paths.contains_key(path),
        paths[path] == WatchMode::Recursive,
    decreases dirs.len(),
{
    if dirs.len() > 0 {
        assert(path != path::normalized(dirs.last()));
        lemma_dirs_add_nothing_recursive(paths, dirs.drop_last(), path);
    }
}

/// Only the `refs` directories of repositories are watched with what lies below them.
pub proof fn law_only_refs_are_recursive(targets: Seq<Option<RepoScan>>, path: Seq<char>)
    requires
        desired(targets).contains_key(path),
        desired(targets)[path] == WatchMode::Recursive,
    ensures
        exists|i: int| 0 <= i < targets.len() && has_refs(#[trigger] targets[i], path),
    decreases targets.len(),
{
    let n = targets.len() - 1;
    let before = targets.drop_last();
    if has_refs(targets[n], path) {
        assert(targets[n] == targets.last());
    } else {
        if let Some(scan) = targets.last() {
            let git = scan.git_paths@;
            let a = with_existing(
                desired(before),
                git.head,
                WatchMode::NonRecursive,
                scan.head_exists,
            );
            let b = with_existing(a, git.index, WatchMode::NonRecursive, scan.index_exists);
            let c = with_existing(b, git.refs, WatchMode::Recursive, scan.refs_exists);
            lemma_dirs_add_nothing_recursive(c, text::texts(scan.dirs@), path);
        }
        law_only_refs_are_recursive(before, path);
        let i = choose|i: int| 0 <= i < before.len() && has_refs(#[trigger] before[i], path);
        assert(has_refs(targets[i], path));
    }
}

/// The model of paths with the way to watch them.
pub open spec fn modes(list: Seq<(String, WatchMode)>) -> Seq<(Seq<char>, WatchMode)> {
    list.map_values(|e: (String, WatchMode)| (e.0@, e.1))
}

/// What must be added to the watched paths and removed from them so that they become the desired
/// ones: each path once, and written in the shortest way.
pub open spec fn is_difference(
    current: Set<Seq<char>>,
    desired: Map<Seq<char>, WatchMode>,
    to_add: Seq<(Seq<char>, WatchMode)>,
    to_remove: Seq<Seq<char>>,
) -> bool {
    &&& to_add.no_duplicates()
    &&& to_remove.no_duplicates()
    &&& forall|i: int|
        0 <= i < to_add.len() ==> path::normalized((#[trigger] to_add[i]).0) == to_add[i].0
    &&& forall|i: int|
        0 <= i < to_remove.len() ==> path::normalized(#[trigger] to_remove[i]) == to_remove[i]
    &&& forall|path: Seq<char>, mode: WatchMode| #[trigger]
        to_add.contains((path, mode)) <==> desired.contains_key(path) && desired[path] == mode
            && !current.contains(path)
    &&& forall|path: Seq<char>| #[trigger]
        to_remove.contains(path) <==> current.contains(path) && !desired.contains_key(path)
}

/// Finds out which paths to watch from now on and which to watch no longer.
pub fn diff_watch_paths(current: &Watched, desired: &WatchPaths) -> (res: (
    Vec<(String, WatchMode)>,
    Vec<String>,
))
    ensures
        is_difference(current@, desired@, modes(res.0@), text::texts(res.1@)),
{
    (additions(current, desired), removals(current, desired))
}

/// The desired paths that are not watched yet.
fn additions(current: &Watched, desired: &WatchPaths) -> (res: Vec<(String, WatchMode)>)
    ensures
        modes(res@).no_duplicates(),
        forall|i: int|
            0 <= i < res@.len() ==> path::normalized((#[trigger] modes(res@)[i]).0) == modes(
                res@,
            )[i].0,
        forall|path: Seq<char>, mode: WatchMode| #[trigger]
            modes(res@).contains((path, mode)) <==> desired@.contains_key(path) && desired@[path]
                == mode && !current@.contains(path),
{
    let entries = &desired.entries;
    let ghost all = modes(entries@);
    proof {
        use_type_invariant(desired);
    }
    let mut res: Vec<(String, WatchMode)> = Vec::new();
    let mut i: usize = 0;
    while i < entries.len()
        invariant
            i <= entries@.len(),
            entries@ == desired.entries@,
            distinct(entries@),
            all == modes(entries@),
            modes(res@).no_duplicates(),
            forall|k: int|
                0 <= k < res@.len() ==> path::normalized((#[trigger] modes(res@)[k]).0) == modes(
                    res@,
                )[k].0,
            forall|e: (Seq<char>, WatchMode)| #[trigger]
                modes(res@).contains(e) <==> all.take(i as int).contains(e) && !current@.contains(
                    e.0,
                ),
        decreases entries@.len() - i,
    {
        let ghost before = modes(res@);
        let ghost done = all.take(i as int);
        let ghost here = (entries@[i as int].0@, entries@[i as int].1);
        proof {
            assert(all.take(i + 1) =~= done.push(here));
            lemma_push_contains(done, here);
        }
        if current.find(entries[i].0.as_str()).is_none() {
            res.push((entries[i].0.clone(), entries[i].1));
            proof {
                assert(modes(res@) =~= before.push(here));
                lemma_push_contains(before, here);
                assert(!before.contains(here)) by {
                    if done.contains(here) {
                        let k = choose|k: int| 0 <= k < done.len() && done[k] == here;
                        assert(entries@[k].0@ == entries@[i as int].0@);
                    }
                }
                assert(modes(res@).no_duplicates()) by {
                    lemma_push_no_duplicates(before, here);
                }
            }
        }
        i = i + 1;
    }
    proof {
        assert(all.take(i as int) =~= all);
        assert forall|path: Seq<char>, mode: WatchMode| #[trigger]
            all.contains((path, mode)) <==> desired@.contains_key(path) && desired@[path]
                == mode by {
            if all.contains((path, mode)) {
                let k = choose|k: int| 0 <= k < all.len() && all[k] == (path, mode);
                lemma_entry(entries@, k);
            }
            if desired@.contains_key(path) && desired@[path] == mode {
                let k = choose|k: int| has_entry(entries@, path, k);
                assert(has_entry(entries@, path, k));
                lemma_entry(entries@, k);
                assert(all[k] == (path, mode));
            }
        }
    }
    res
}

/// The watched paths that are not desired any more.
fn removals(current: &Watched, desired: &WatchPaths) -> (res: Vec<String>)
    ensures
        once_each(text::texts(res@)),
        forall|path: Seq<char>| #[trigger]
            text::texts(res@).contains(path) <==> current@.contains(path)
                && !desired@.contains_key(path),
{
    let paths = &current.paths;
    let ghost all = text::texts(paths@);
    proof {
        use_type_invariant(current);
    }
    let mut res: Vec<String> = Vec::new();
    let mut i: usize = 0;
    while i < paths.len()
        invariant
            i <= paths@.len(),
            all == text::texts(paths@),
            once_each(all),
            once_each(text::texts(res@)),
            forall|path: Seq<char>| #[trigger]
                text::texts(res@).contains(path) <==> all.take(i as int).contains(path)
                    && !desired@.contains_key(path),
        decreases paths@.len() - i,
    {
        let ghost before = text::texts(res@);
        let ghost done = all.take(i as int);
        let ghost here = all[i as int];
        proof {
            use_type_invariant(desired);
            assert(all.take(i + 1) =~= done.push(here));
            lemma_push_contains(done, here);
        }
        let place = desired.find(paths[i].as_str());
        proof {
            if let Some(k) = place {
                lemma_entry(desired.entries@, k as int);
            }
        }
        if place.is_none() {
            res.push(paths[i].clone());
            proof {
                assert(text::texts(res@) =~= before.push(here));
                lemma_push_contains(before, here);
                assert(!before.contains(here)) by {
                    if done.contains(here) {
                        let k = choose|k: int| 0 <= k < done.len() && done[k] == here;
                        assert(all[k] == all[i as int]);
                    }
                }
                lemma_push_no_duplicates(before, here);
            }
        }
        i = i + 1;
    }
    assert(all.take(i as int) =~= all);
    res
}

proof fn lemma_push_contains<A>(s: Seq<A>, x: A)
    ensures
        forall|e: A| #[trigger] s.push(x).contains(e) <==> s.contains(e) || e == x,
{
    let t = s.push(x);
    assert forall|e: A| #[trigger] t.contains(e) <==> s.contains(e) || e == x by {
        if s.contains(e) {
            let k = choose|k: int| 0 <= k < s.len() && s[k] == e;
            assert(t[k] == e);
        }
        if e == x {
            assert(t[s.len() as int] == e);
        }
        if t.contains(e) {
            let k = choose|k: int| 0 <= k < t.len() && t[k] == e;
            if k < s.len() {
                assert(s[k] == e);
            }
        }
    }
}

proof fn lemma_push_no_duplicates<A>(s: Seq<A>, x: A)
    requires
        s.no_duplicates(),
        !s.contains(x),
    ensures
        s.push(x).no_duplicates(),
{
    let t = s.push(x);
    assert forall|i: int, j: int| 0 <= i < t.len() && 0 <= j < t.len() && i != j implies t[i]
        != t[j] by {
        if i < s.len() && j < s.len() {
            assert(s[i] != s[j]);
        } else if i < s.len() {
            assert(s.contains(s[i]));
        } else {
            assert(s.contains(s[j]));
        }
    }
}

/// `paths` with those that could be watched.
pub open spec fn with_added(paths: Set<Seq<char>>, added: Seq<(Seq<char>, bool)>) -> Set<Seq<char>>
    decreases added.len(),
{
    if added.len() == 0 {
        paths
    } else if added.last().1 {
        with_added(paths, added.drop_last()).insert(path::normalized(added.last().0))
    } else {
        with_added(paths, added.drop_last())
    }
}

/// `paths` without those that are watched no longer.
pub open spec fn without_removed(paths: Set<Seq<char>>, removed: Seq<Seq<char>>) -> Set<Seq<char>>
    decreases removed.len(),
{
    if removed.len() == 0 {
        paths
    } else {
        without_removed(paths, removed.drop_last()).remove(path::normalized(removed.last()))
    }
}

/// The model of paths with whether they could be watched.
pub open spec fn outcomes(list: Seq<(String, bool)>) -> Seq<(Seq<char>, bool)> {
    list.map_values(|e: (String, bool)| (e.0@, e.1))
}

/// Records what came of a change of the watched paths: `added` tells of each new path whether it
/// could be watched.
pub fn sync_watcher(watched: Watched, added: &Vec<(String, bool)>, removed: &Vec<String>) -> (res:
    Watched)
    ensures
        res@ == without_removed(
            with_added(watched@, outcomes(added@)),
            text::texts(removed@),
        ),
{
    let ghost all = outcomes(added@);
    let ghost gone = text::texts(removed@);
    let ghost start = watched@;
    let mut res = watched;
    let mut i: usize = 0;
    assert(with_added(start, all.take(0)) == start);
    while i < added.len()
        invariant
            i <= added@.len(),
            all == outcomes(added@),
            res@ == with_added(start, all.take(i as int)),
        decreases added@.len() - i,
    {
        assert(all.take(i + 1).drop_last() =~= all.take(i as int));
        assert(all.take(i + 1).last() == (added@[i as int].0@, added@[i as int].1));
        if added[i].1 {
            res = res.insert(added[i].0.as_str());
        }
        i = i + 1;
    }
    assert(all.take(i as int) =~= all);
    let ghost grown = res@;
    i = 0;
    assert(without_removed(grown, gone.take(0)) == grown);
    while i < removed.len()
        invariant
            i <= removed@.len(),
            gone == text::texts(removed@),
            res@ == without_removed(grown, gone.take(i as int)),
        decreases removed@.len() - i,
    {
        assert(gone.take(i + 1).drop_last() =~= gone.take(i as int));
        assert(gone.take(i + 1).last() == removed@[i as int]@);
        res = res.remove(removed[i].as_str());
        i = i + 1;
    }
    assert(gone.take(i as int) =~= gone);
    res
}

proof fn lemma_with_added(paths: Set<Seq<char>>, added: Seq<(Seq<char>, bool)>, path: Seq<char>)
    requires
        forall|i: int|
            0 <= i < added.len() ==> path::normalized((#[trigger] added[i]).0) == added[i].0,
    ensures
        with_added(paths, added).contains(path) <==> paths.contains(path) || added.contains(
            (path, true),
        ),
    decreases added.len(),
{
    if added.len() > 0 {
        let rest = added.drop_last();
        assert forall|i: int| 0 <= i < rest.len() implies path::normalized(
            (#[trigger] rest[i]).0,
        ) == rest[i].0 by {
            assert(rest[i] == added[i]);
        }
        lemma_with_added(paths, rest, path);
        assert(added[added.len() - 1] == added.last());
        lemma_push_contains(rest, added.last());
        assert(rest.push(added.last()) =~= added);
    }
}

proof fn lemma_without_removed(paths: Set<Seq<char>>, removed: Seq<Seq<char>>, path: Seq<char>)
    requires
        forall|i: int|
            0 <= i < removed.len() ==> path::normalized(#[trigger] removed[i]) == removed[i],
    ensures
        without_removed(paths, removed).contains(path) <==> paths.contains(path)
            && !removed.contains(path),
    decreases removed.len(),
{
    if removed.len() > 0 {
        let rest = removed.drop_last();
        assert forall|i: int| 0 <= i < rest.len() implies path::normalized(#[trigger] rest[i])
            == rest[i] by {
            assert(rest[i] == removed[i]);
        }
        lemma_without_removed(paths, rest, path);
        assert(removed[removed.len() - 1] == removed.last());
        lemma_push_contains(rest, removed.last());
        assert(rest.push(removed.last()) =~= removed);
    }
}

/// `added` tells what came of each of the paths in `to_add`.
pub open spec fn reports_on(
    added: Seq<(Seq<char>, bool)>,
    to_add: Seq<(Seq<char>, WatchMode)>,
) -> bool {
    &&& added.len() == to_add.len()
    &&& forall|i: int| 0 <= i < added.len() ==> (#[trigger] added[i]).0 == to_add[i].0
}

/// After a change of the watched paths, those are watched that are desired and either were watched
/// before or could be added.
pub proof fn law_sync_follows_the_desired_paths(
    current: Set<Seq<char>>,
    wanted: Map<Seq<char>, WatchMode>,
    to_add: Seq<(Seq<char>, WatchMode)>,
    to_remove: Seq<Seq<char>>,
    added: Seq<(Seq<char>, bool)>,
)
    requires
        is_difference(current, wanted, to_add, to_remove),
        reports_on(added, to_add),
    ensures
        forall|path: Seq<char>| #[trigger]
            without_removed(with_added(current, added), to_remove).contains(path)
                <==> wanted.contains_key(path) && (current.contains(path) || added.contains(
                (path, true),
            )),
{
    let grown = with_added(current, added);
    assert forall|i: int| 0 <= i < added.len() implies path::normalized((#[trigger] added[i]).0)
        == added[i].0 by {
        assert(path::normalized(to_add[i].0) == to_add[i].0);
    }
    assert forall|path: Seq<char>| #[trigger]
        without_removed(grown, to_remove).contains(path) <==> wanted.contains_key(path) && (
        current.contains(path) || added.contains((path, true))) by {
        lemma_without_removed(grown, to_remove, path);
        lemma_with_added(current, added, path);
        if added.contains((path, true)) {
            let i = choose|i: int| 0 <= i < added.len() && added[i] == (path, true);
            assert(to_add.contains((path, to_add[i].1))) by {
                assert(to_add[i] == (path, to_add[i].1));
            }
        }
    }
}

/// If every new path could be watched, exactly the desired paths are watched afterwards.
pub proof fn law_sync_reaches_the_desired_paths(
    current: Set<Seq<char>>,
    wanted: Map<Seq<char>, WatchMode>,
    to_add: Seq<(Seq<char>, WatchMode)>,
    to_remove: Seq<Seq<char>>,
    added: Seq<(Seq<char>, bool)>,
)
    requires
        is_difference(current, wanted, to_add, to_remove),
        reports_on(added, to_add),
        forall|i: int| 0 <= i < added.len() ==> (#[trigger] added[i]).1,
    ensures
        without_removed(with_added(current, added), to_remove) == wanted.dom(),
{
    law_sync_follows_the_desired_paths(current, wanted, to_add, to_remove, added);
    let res = without_removed(with_added(current, added), to_remove);
    assert forall|path: Seq<char>| #[trigger] res.contains(path) <==> wanted.dom().contains(
        path,
    ) by {
        if wanted.contains_key(path) && !current.contains(path) {
            assert(to_add.contains((path, wanted[path])));
            let i = choose|i: int| 0 <= i < to_add.len() && to_add[i] == (path, wanted[path]);
            assert(added[i] == (path, true));
        }
    }
    assert(res =~= wanted.dom());
}

/// Once the desired paths are watched, there is nothing to add and nothing to remove.
pub proof fn law_no_change_when_paths_match(
    wanted: Map<Seq<char>, WatchMode>,
    to_add: Seq<(Seq<char>, WatchMode)>,
    to_remove: Seq<Seq<char>>,
)
    requires
        is_difference(wanted.dom(), wanted, to_add, to_remove),
    ensures
        to_add.len() == 0,
        to_remove.len() == 0,
{
    if to_add.len() > 0 {
        assert(to_add.contains((to_add[0].0, to_add[0].1)));
    }
    if to_remove.len() > 0 {
        assert(to_remove.contains(to_remove[0]));
    }
}

/// What the watcher had to tell before the next resync was due.
#[derive(Debug, Clone, Copy, PartialEq, Eq, Structural)]
pub enum WatchEvent {
    /// Something changed.
    Changed,
    /// Nothing did, until the resync was due.
    Quiet,
    /// There will be no more events.
    Closed,
}

/// What to do about it.
#[derive(Debug, Clone, Copy, PartialEq, Eq, Structural)]
pub enum WatchAction {
    /// Wait until it is quiet, so that a burst of changes makes one tick, and take a turn.
    TakeTurn,
    /// Bring the watched paths up to date.
    Resync,
    Stop,
}

/// Decides what to do about an event: a change leads to a tick, silence to a resync, and the end of
/// the events to the end of the process.
pub fn run_watch(event: WatchEvent) -> (res: WatchAction)
    ensures
        res == match event {
            WatchEvent::Changed => WatchAction::TakeTurn,
            WatchEvent::Quiet => WatchAction::Resync,
            WatchEvent::Closed => WatchAction::Stop,
        },
{
    match event {
        WatchEvent::Changed => WatchAction::TakeTurn,
        WatchEvent::Quiet => WatchAction::Resync,
        WatchEvent::Closed => WatchAction::Stop,
    }
}

/// How far a turn of the watch loop has come. Each stage but the last waits for one reply.
#[derive(Debug, Clone, Copy, PartialEq, Eq, Structural)]
pub enum WatchStage {
    /// The watched paths are being brought up to date: `WatchReply::Synced`.
    Syncing,
    /// Events are being waited for, until the next resync is due: `WatchReply::Heard`.
    Waiting,
    /// A burst of changes is being waited out: `WatchReply::Heard`.
    Draining,
    /// The process is looking after itself: `WatchReply::Turned`.
    Turning,
    /// Every open workspace is being refreshed: `WatchReply::Ticked`.
    Ticking,
    Done,
}

/// What came of a stage of the watch loop.
#[derive(Debug, Clone, Copy, PartialEq, Eq, Structural)]
pub enum WatchReply {
    Synced,
    Heard(WatchEvent),
    Turned(Turn),
    Ticked,
}

/// The stage after `reply`. The paths are brought up to date before every wait. A change leads to
/// one turn once it is quiet, or once there will be no more events; a turn leads to a tick or ends
/// the process. A reply of another kind than the stage waits for changes nothing.
pub open spec fn next_watch_stage(stage: WatchStage, reply: WatchReply) -> WatchStage {
    match (stage, reply) {
        (WatchStage::Syncing, WatchReply::Synced) => WatchStage::Waiting,
        (WatchStage::Waiting, WatchReply::Heard(WatchEvent::Changed)) => WatchStage::Draining,
        (WatchStage::Waiting, WatchReply::Heard(WatchEvent::Quiet)) => WatchStage::Syncing,
        (WatchStage::Waiting, WatchReply::Heard(WatchEvent::Closed)) => WatchStage::Done,
        (WatchStage::Draining, WatchReply::Heard(WatchEvent::Changed)) => WatchStage::Draining,
        (WatchStage::Draining, WatchReply::Heard(_)) => WatchStage::Turning,
        (WatchStage::Turning, WatchReply::Turned(Turn::Tick)) => WatchStage::Ticking,
        (WatchStage::Turning, WatchReply::Turned(Turn::Stop { .. })) => WatchStage::Done,
        (WatchStage::Ticking, WatchReply::Ticked) => WatchStage::Syncing,
        _ => stage,
    }
}

/// Takes the reply to what `stage` waits for and goes on. The first stage is `Syncing`.
pub fn watch_step(stage: WatchStage, reply: WatchReply) -> (res: WatchStage)
    ensures
        res == next_watch_stage(stage, reply),
{
    match (stage, reply) {
        (WatchStage::Syncing, WatchReply::Synced) => WatchStage::Waiting,
        (WatchStage::Waiting, WatchReply::Heard(event)) => match run_watch(event) {
            WatchAction::TakeTurn => WatchStage::Draining,
            WatchAction::Resync => WatchStage::Syncing,
            WatchAction::Stop => WatchStage::Done,
        },
        (WatchStage::Draining, WatchReply::Heard(event)) => match event {
            WatchEvent::Changed => WatchStage::Draining,
            WatchEvent::Quiet => WatchStage::Turning,
            WatchEvent::Closed => WatchStage::Turning,
        },
        (WatchStage::Turning, WatchReply::Turned(turn)) => match turn {
            Turn::Tick => WatchStage::Ticking,
            Turn::Stop { delete_pid_file: _ } => WatchStage::Done,
        },
        (WatchStage::Ticking, WatchReply::Ticked) => WatchStage::Syncing,
        (stage, _) => stage,
    }
}

/// A turn is taken only after a burst of changes, by news other than one more change; and a tick
/// only follows a turn that asks for it.
pub proof fn law_turn_waits_for_quiet(stage: WatchStage, reply: WatchReply)
    ensures
        next_watch_stage(stage, reply) is Turning && !(stage is Turning) ==> stage is Draining
            && reply is Heard && reply != WatchReply::Heard(WatchEvent::Changed),
        next_watch_stage(stage, reply) is Draining && !(stage is Draining) ==> stage is Waiting
            && reply == WatchReply::Heard(WatchEvent::Changed),
        next_watch_stage(stage, reply) is Ticking && !(stage is Ticking) ==> stage is Turning
            && reply == WatchReply::Turned(Turn::Tick),
        next_watch_stage(stage, reply) is Waiting && !(stage is Waiting) ==> stage is Syncing
            && reply is Synced,
{
}

/// The stage that a row of replies leads to.
pub open spec fn watch_stage_after(stage: WatchStage, replies: Seq<WatchReply>) -> WatchStage
    decreases replies.len(),
{
    if replies.len() == 0 {
        stage
    } else {
        next_watch_stage(watch_stage_after(stage, replies.drop_last()), replies.last())
    }
}

/// A burst of changes makes one tick, however long it is.
pub proof fn law_burst_makes_one_tick(burst: Seq<WatchReply>)
    requires
        burst.len() > 0,
        forall|i: int|
            0 <= i < burst.len() ==> #[trigger] burst[i] == WatchReply::Heard(WatchEvent::Changed),
    ensures
        watch_stage_after(WatchStage::Waiting, burst) == WatchStage::Draining,
        watch_stage_after(
            WatchStage::Waiting,
            burst.push(WatchReply::Heard(WatchEvent::Quiet)).push(WatchReply::Turned(Turn::Tick)),
        ) == WatchStage::Ticking,
    decreases burst.len(),
{
    let before = burst.drop_last();
    if before.len() > 0 {
        assert forall|i: int| 0 <= i < before.len() implies #[trigger] before[i]
            == WatchReply::Heard(WatchEvent::Changed) by {
            assert(before[i] == burst[i]);
        }
        law_burst_makes_one_tick(before);
    } else {
        assert(watch_stage_after(WatchStage::Waiting, before) == WatchStage::Waiting);
    }
    assert(burst[burst.len() - 1] == burst.last());
    let quiet = burst.push(WatchReply::Heard(WatchEvent::Quiet));
    let turned = quiet.push(WatchReply::Turned(Turn::Tick));
    assert(quiet.drop_last() =~= burst);
    assert(watch_stage_after(WatchStage::Waiting, quiet) == WatchStage::Turning);
    assert(turned.drop_last() =~= quiet);
}

/// `path` is one of `dirs`, however it is written there.
pub open spec fn among(dirs: Seq<Seq<char>>, path: Seq<char>) -> bool {
    exists|i: int| 0 <= i < dirs.len() && path::normalized(#[trigger] dirs[i]) == path
}

proof fn lemma_with_dirs(
    paths: Map<Seq<char>, WatchMode>,
    dirs: Seq<Seq<char>>,
    path: Seq<char>,
)
    ensures
        with_dirs(paths, dirs).contains_key(path) <==> paths.contains_key(path) || among(
            dirs,
            path,
        ),
        among(dirs, path) ==> with_dirs(paths, dirs)[path] == WatchMode::NonRecursive,
        !among(dirs, path) && paths.contains_key(path) ==> with_dirs(paths, dirs)[path]
            == paths[path],
    decreases dirs.len(),
{
    if dirs.len() > 0 {
        let rest = dirs.drop_last();
        lemma_with_dirs(paths, rest, path);
        assert(dirs[dirs.len() - 1] == dirs.last());
        if among(rest, path) {
            let i = choose|i: int|
                0 <= i < rest.len() && path::normalized(#[trigger] rest[i]) == path;
            assert(dirs[i] == rest[i]);
        }
        if among(dirs, path) && !among(rest, path) {
            let i = choose|i: int|
                0 <= i < dirs.len() && path::normalized(#[trigger] dirs[i]) == path;
            if i < rest.len() {
                assert(rest[i] == dirs[i]);
            }
        }
    }
}

/// One more workspace that is a repository adds its directories, each by itself, and what is there
/// of its `HEAD`, `index` and `refs`, the last with what lies below it; every other path stays as it
/// was. One that is no repository changes nothing.
pub proof fn law_every_workspace_adds_its_paths(
    targets: Seq<Option<RepoScan>>,
    scan: RepoScan,
    path: Seq<char>,
)
    ensures
        desired(Seq::empty()) == Map::<Seq<char>, WatchMode>::empty(),
        desired(targets.push(None)) == desired(targets),
        ({
            let before = desired(targets);
            let after = desired(targets.push(Some(scan)));
            let in_dirs = among(text::texts(scan.dirs@), path);
            let is_head = scan.head_exists && path::normalized(scan.git_paths.head@) == path;
            let is_index = scan.index_exists && path::normalized(scan.git_paths.index@) == path;
            let is_refs = scan.refs_exists && path::normalized(scan.git_paths.refs@) == path;
            if in_dirs {
                after.contains_key(path) && after[path] == WatchMode::NonRecursive
            } else if is_refs {
                after.contains_key(path) && after[path] == WatchMode::Recursive
            } else if is_head || is_index {
                after.contains_key(path) && after[path] == WatchMode::NonRecursive
            } else {
                &&& after.contains_key(path) == before.contains_key(path)
                &&& before.contains_key(path) ==> after[path] == before[path]
            }
        }),
{
    let none: Option<RepoScan> = None;
    assert(targets.push(none).drop_last() =~= targets);
    assert(targets.push(Some(scan)).drop_last() =~= targets);
    let git = scan.git_paths@;
    let a = with_existing(desired(targets), git.head, WatchMode::NonRecursive, scan.head_exists);
    let b = with_existing(a, git.index, WatchMode::NonRecursive, scan.index_exists);
    let c = with_existing(b, git.refs, WatchMode::Recursive, scan.refs_exists);
    lemma_with_dirs(c, text::texts(scan.dirs@), path);
}

/// `path` is something to watch in a workspace: its `HEAD`, `index` or `refs`, if it is there, or one
/// of its directories.
pub open spec fn belongs_to(path: Seq<char>, target: Option<RepoScan>) -> bool {
    target is Some && ({
        let scan = target->0;
        ||| scan.head_exists && path::normalized(scan.git_paths.head@) == path
        ||| scan.index_exists && path::normalized(scan.git_paths.index@) == path
        ||| scan.refs_exists && path::normalized(scan.git_paths.refs@) == path
        ||| among(text::texts(scan.dirs@), path)
    })
}

/// The paths to watch are those of all workspaces together, wherever each of them stands in the
/// list, and no others.
pub proof fn law_all_workspaces_are_watched(targets: Seq<Option<RepoScan>>, path: Seq<char>)
    ensures
        desired(targets).contains_key(path) <==> exists|i: int|
            0 <= i < targets.len() && belongs_to(path, #[trigger] targets[i]),
    decreases targets.len(),
{
    if targets.len() > 0 {
        let before = targets.drop_last();
        let last = targets.last();
        law_all_workspaces_are_watched(before, path);
        assert(before.push(last) =~= targets);
        assert(targets[targets.len() - 1] == last);
        if let Some(scan) = last {
            law_every_workspace_adds_its_paths(before, scan, path);
        }
        if exists|i: int| 0 <= i < before.len() && belongs_to(path, #[trigger] before[i]) {
            let i = choose|i: int| 0 <= i < before.len() && belongs_to(path, #[trigger] before[i]);
            assert(belongs_to(path, targets[i]));
        }
        if exists|i: int| 0 <= i < targets.len() && belongs_to(path, #[trigger] targets[i]) {
            let i = choose|i: int|
                0 <= i < targets.len() && belongs_to(path, #[trigger] targets[i]);
            if i < before.len() {
                assert(belongs_to(path, before[i]));
            }
        }
    }
}

/// Every repository's own files and directories are among the paths to watch.
pub proof fn law_each_repository_is_watched(targets: Seq<Option<RepoScan>>, i: int, k: int)
    requires
        0 <= i < targets.len(),
        targets[i] is Some,
    ensures
        ({
            let scan = targets[i]->0;
            let paths = desired(targets);
            &&& scan.head_exists ==> paths.contains_key(path::normalized(scan.git_paths.head@))
            &&& scan.index_exists ==> paths.contains_key(path::normalized(scan.git_paths.index@))
            &&& scan.refs_exists ==> paths.contains_key(path::normalized(scan.git_paths.refs@))
            &&& 0 <= k < scan.dirs@.len() ==> paths.contains_key(
                path::normalized(scan.dirs@[k]@),
            )
        }),
{
    let scan = targets[i]->0;
    let git = scan.git_paths@;
    law_all_workspaces_are_watched(targets, path::normalized(git.head));
    law_all_workspaces_are_watched(targets, path::normalized(git.index));
    law_all_workspaces_are_watched(targets, path::normalized(git.refs));
    assert(scan.head_exists ==> belongs_to(path::normalized(git.head), targets[i]));
    assert(scan.index_exists ==> belongs_to(path::normalized(git.index), targets[i]));
    assert(scan.refs_exists ==> belongs_to(path::normalized(git.refs), targets[i]));
    if 0 <= k < scan.dirs@.len() {
        let dir = path::normalized(scan.dirs@[k]@);
        law_all_workspaces_are_watched(targets, dir);
        assert(text::texts(scan.dirs@)[k] == scan.dirs@[k]@);
        assert(belongs_to(dir, targets[i]));
    }
}

/// `HEAD` and `index` are those of the worktree, `refs` is the shared one; without either directory
/// there is nothing to watch.
pub proof fn law_worktree_has_its_own_head(
    repo: Seq<char>,
    git_dir: Option<&CommandOutput>,
    common_dir: Option<&CommandOutput>,
    own: Seq<char>,
    shared: Seq<char>,
)
    ensures
        git_paths(repo, git_dir, common_dir) is Some <==> named_path(repo, git_dir) is Some
            && named_path(repo, common_dir) is Some,
        named_path(repo, git_dir) == Some(own) && named_path(repo, common_dir) == Some(shared)
            && own.len() > 0 && own.last() != '/' && shared.len() > 0 && shared.last() != '/' ==> {
            let paths = git_paths(repo, git_dir, common_dir)->0;
            &&& paths.head == own + "/HEAD"@
            &&& paths.index == own + "/index"@
            &&& paths.refs == shared + "/refs"@
        },
{
    reveal_strlit("HEAD");
    reveal_strlit("index");
    reveal_strlit("refs");
    reveal_strlit("/HEAD");
    reveal_strlit("/index");
    reveal_strlit("/refs");
    assert(own + seq!['/'] + "HEAD"@ =~= own + "/HEAD"@);
    assert(own + seq!['/'] + "index"@ =~= own + "/index"@);
    assert(shared + seq!['/'] + "refs"@ =~= shared + "/refs"@);
}

/// What git prints is a path, white space at the ends aside: an absolute one stands alone, a relative
/// one starts at the repository. Without success or a path there is none.
pub proof fn law_git_names_a_path(
    repo: Seq<char>,
    output: &CommandOutput,
    blank: Seq<char>,
    name: Seq<char>,
    end: Seq<char>,
)
    requires
        repo.len() > 0,
        repo.last() != '/',
        forall|i: int| 0 <= i < blank.len() ==> text::is_white_space(#[trigger] blank[i]),
        forall|i: int| 0 <= i < end.len() ==> text::is_white_space(#[trigger] end[i]),
        name.len() > 0 ==> !text::is_white_space(name[0]) && !text::is_white_space(name.last()),
        command::lossy_text(output.stdout@) == blank + name + end,
    ensures
        named_path(repo, Some(output)) is Some <==> output.success && name.len() > 0,
        output.success && name.len() > 0 && name[0] == '/' ==> named_path(repo, Some(output))
            == Some(name),
        output.success && name.len() > 0 && name[0] != '/' ==> named_path(repo, Some(output))
            == Some(repo + seq!['/'] + name),
        named_path(repo, None) is None,
{
    text::law_trimmed_loses_its_ends_only(blank, name, end);
}

/// The question to git names the repository and what is asked.
pub proof fn law_git_is_asked_in_the_repository(repo: Seq<char>, arg: Seq<char>)
    ensures
        rev_parse_call(repo, arg).program == "git"@,
        rev_parse_call(repo, arg).args == seq!["-C"@, repo, "rev-parse"@, arg],
        rev_parse_call(repo, arg).dir is None,
{
}

/// Where the watch loop goes: silence and a tick lead to a resync, a change to the end of its burst,
/// that to a turn, a turn to a tick unless it is the last, and it ends only there or with the
/// events.
pub proof fn law_watch_loop_goes_round(stage: WatchStage, reply: WatchReply)
    ensures
        next_watch_stage(WatchStage::Syncing, WatchReply::Synced) == WatchStage::Waiting,
        next_watch_stage(WatchStage::Waiting, WatchReply::Heard(WatchEvent::Quiet))
            == WatchStage::Syncing,
        next_watch_stage(WatchStage::Waiting, WatchReply::Heard(WatchEvent::Changed))
            == WatchStage::Draining,
        next_watch_stage(WatchStage::Draining, WatchReply::Heard(WatchEvent::Closed))
            == WatchStage::Turning,
        next_watch_stage(WatchStage::Ticking, WatchReply::Ticked) == WatchStage::Syncing,
        next_watch_stage(stage, reply) is Done <==> {
            ||| stage is Done
            ||| stage is Waiting && reply == WatchReply::Heard(WatchEvent::Closed)
            ||| stage is Turning && reply is Turned && reply->Turned_0 is Stop
        },
        next_watch_stage(stage, reply) is Syncing && !(stage is Syncing) ==> {
            ||| stage is Waiting && reply == WatchReply::Heard(WatchEvent::Quiet)
            ||| stage is Ticking && reply is Ticked
        },
{
}

/// What is to be added and removed: exactly the desired paths that are not watched, each in the way
/// it is desired, and exactly the watched ones that are not desired, each once.
pub proof fn law_difference_is_exact(
    current: Set<Seq<char>>,
    wanted: Map<Seq<char>, WatchMode>,
    to_add: Seq<(Seq<char>, WatchMode)>,
    to_remove: Seq<Seq<char>>,
    path: Seq<char>,
    i: int,
    j: int,
)
    requires
        is_difference(current, wanted, to_add, to_remove),
    ensures
        wanted.contains_key(path) && !current.contains(path) ==> to_add.contains(
            (path, wanted[path]),
        ),
        current.contains(path) && !wanted.contains_key(path) ==> to_remove.contains(path),
        0 <= i < to_add.len() ==> wanted.contains_key(to_add[i].0) && wanted[to_add[i].0]
            == to_add[i].1 && !current.contains(to_add[i].0),
        0 <= i < to_remove.len() ==> current.contains(to_remove[i]) && !wanted.contains_key(
            to_remove[i],
        ),
        0 <= i < j < to_add.len() ==> to_add[i].0 != to_add[j].0,
        0 <= i < j < to_remove.len() ==> to_remove[i] != to_remove[j],
{
    if 0 <= i < to_add.len() {
        assert(to_add.contains((to_add[i].0, to_add[i].1)));
        if i < j < to_add.len() {
            assert(to_add.contains((to_add[j].0, to_add[j].1)));
        }
    }
    if 0 <= i < to_remove.len() {
        assert(to_remove.contains(to_remove[i]));
    }
}

/// A path is watched from now on exactly if it was before or could be added; one that is removed is
/// not watched any more, and nothing else changes.
pub proof fn law_watched_paths_change_one_by_one(
    paths: Set<Seq<char>>,
    added: Seq<(Seq<char>, bool)>,
    removed: Seq<Seq<char>>,
    path: Seq<char>,
)
    ensures
        with_added(paths, Seq::empty()) == paths,
        with_added(paths, added.push((path, true))) == with_added(paths, added).insert(
            path::normalized(path),
        ),
        with_added(paths, added.push((path, false))) == with_added(paths, added),
        without_removed(paths, Seq::empty()) == paths,
        without_removed(paths, removed.push(path)) == without_removed(paths, removed).remove(
            path::normalized(path),
        ),
{
    assert(added.push((path, true)).drop_last() =~= added);
    assert(added.push((path, false)).drop_last() =~= added);
    assert(removed.push(path).drop_last() =~= removed);
}

/// A reply that a stage of the watch loop does not wait for changes nothing.
pub proof fn law_unasked_news_change_nothing(stage: WatchStage, reply: WatchReply)
    requires
        match stage {
            WatchStage::Syncing => !(reply is Synced),
            WatchStage::Waiting | WatchStage::Draining => !(reply is Heard),
            WatchStage::Turning => !(reply is Turned),
            WatchStage::Ticking => !(reply is Ticked),
            WatchStage::Done => true,
        },
    ensures
        next_watch_stage(stage, reply) == stage,
{
}

} // verus!
