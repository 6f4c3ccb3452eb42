//! Finding every file below a path.
//!
//! The file system is the caller's: `FileGenerator::next_step` tells what to look at, and what was
//! seen goes back to the function that the step names.

use vstd::multiset::Multiset;
use vstd::prelude::*;

verus! {

/// A walk over the files below a path, the files of a directory before those of its
/// subdirectories.
#[derive(Debug)]
pub struct FileGenerator<P> {
    /// What is still to be looked at; the last comes first.
    paths: Vec<P>,
    /// Whether a directory is being read.
    reading: bool,
}

/// What to do next.
#[derive(Debug)]
pub enum WalkStep<P> {
    /// Read the next entry of the directory, then call `FileGenerator::entry_read`.
    ReadEntry,
    /// See what this is, open it if it is a directory, then call `FileGenerator::inspected`.
    Inspect(P),
    /// There are no more files.
    Finished,
}

/// Where a walk stands.
#[verifier::reject_recursive_types(P)]
pub struct GeneratorView<P> {
    /// What is still to be looked at; the last comes first.
    pub paths: Seq<P>,
    /// Whether a directory is being read.
    pub reading: bool,
}

impl<P> GeneratorView<P> {
    /// At the beginning, there is one path to be looked at.
    pub open spec fn begin(path: P) -> GeneratorView<P> {
        GeneratorView { paths: seq![path], reading: false }
    }

    /// What to do next: a directory is read to its end before another path is looked at.
    pub open spec fn ask(self) -> (GeneratorView<P>, WalkStep<P>) {
        if self.reading {
            (self, WalkStep::ReadEntry)
        } else if self.paths.len() == 0 {
            (self, WalkStep::Finished)
        } else {
            (
                GeneratorView { paths: self.paths.drop_last(), reading: false },
                WalkStep::Inspect(self.paths.last()),
            )
        }
    }

    /// What becomes of an entry of a directory, given as a path and whether that is a directory: a
    /// directory is kept for later, anything else is a file that was found. Where there is none
    /// left, the directory has been read.
    pub open spec fn take_entry(self, entry: Option<(P, bool)>) -> (GeneratorView<P>, Option<P>) {
        match entry {
            Some((path, is_dir)) => if is_dir {
                (GeneratorView { paths: self.paths.push(path), reading: self.reading }, None)
            } else {
                (self, Some(path))
            },
            None => (GeneratorView { paths: self.paths, reading: false }, None),
        }
    }

    /// What becomes of a path that was looked at: a directory is read now, anything else is a file
    /// that was found.
    pub open spec fn take_path(self, path: P, is_dir: bool) -> (GeneratorView<P>, Option<P>) {
        if is_dir {
            (GeneratorView { paths: self.paths, reading: true }, None)
        } else {
            (self, Some(path))
        }
    }
}

impl<P> View for FileGenerator<P> {
    type V = GeneratorView<P>;

    closed spec fn view(&self) -> GeneratorView<P> {
        GeneratorView { paths: self.paths@, reading: self.reading }
    }
}

impl<P> FileGenerator<P> {
    /// A walk that begins at `path`.
    pub fn new(path: P) -> (walk: FileGenerator<P>)
        ensures
            walk@ == GeneratorView::begin(path),
    {
        let mut paths: Vec<P> = Vec::new();
        paths.push(path);
        assert(paths@ =~= seq![path]);
        FileGenerator { paths, reading: false }
    }

    /// What to do next.
    pub fn next_step(&mut self) -> (step: WalkStep<P>)
        ensures
            (final(self)@, step) == old(self)@.ask(),
    {
        if self.reading {
            return WalkStep::ReadEntry;
        }
        match self.paths.pop() {
            Some(path) => {
                assert(self.paths@ =~= old(self).paths@.drop_last());
                WalkStep::Inspect(path)
            },
            None => WalkStep::Finished,
        }
    }

    /// Takes the next entry of the directory, given as a path and whether that is a directory, or
    /// that there is none left. Tells which file was found, if any.
    pub fn entry_read(&mut self, entry: Option<(P, bool)>) -> (file: Option<P>)
        ensures
            (final(self)@, file) == old(self)@.take_entry(entry),
    {
        match entry {
            Some((path, is_dir)) => {
                if is_dir {
                    self.paths.push(path);
                    None
                } else {
                    Some(path)
                }
            },
            None => {
                self.reading = false;
                None
            },
        }
    }

    /// Takes what a path was seen to be: a directory that can be read now, or anything else. Tells
    /// which file was found, if any.
    pub fn inspected(&mut self, path: P, is_dir: bool) -> (file: Option<P>)
        ensures
            (final(self)@, file) == old(self)@.take_path(path, is_dir),
    {
        if is_dir {
            self.reading = true;
            None
        } else {
            Some(path)
        }
    }
}

/// A file system that does not change: which paths are directories, what is in them, given as
/// paths and whether those are directories, and which files are below a path.
#[verifier::reject_recursive_types(P)]
pub struct FileSystem<P> {
    pub is_dir: spec_fn(P) -> bool,
    pub entries: spec_fn(P) -> Seq<(P, bool)>,
    pub files: spec_fn(P) -> Multiset<P>,
}

impl<P> FileSystem<P> {
    /// The files that entries of a directory stand for.
    pub open spec fn files_of(self, entries: Seq<(P, bool)>) -> Multiset<P>
        decreases entries.len(),
    {
        if entries.len() == 0 {
            Multiset::empty()
        } else {
            self.files_of(entries.drop_last()).add(self.files_at(entries.last()))
        }
    }

    /// The files that an entry of a directory stands for.
    pub open spec fn files_at(self, entry: (P, bool)) -> Multiset<P> {
        if entry.1 {
            (self.files)(entry.0)
        } else {
            Multiset::singleton(entry.0)
        }
    }

    /// The files below a path are those of its entries if it is a directory, else the path itself.
    pub open spec fn wf(self) -> bool {
        forall|p: P| #[trigger]
            (self.files)(p) == if (self.is_dir)(p) {
                self.files_of((self.entries)(p))
            } else {
                Multiset::singleton(p)
            }
    }

    /// The files below some paths.
    pub open spec fn files_below(self, paths: Seq<P>) -> Multiset<P>
        decreases paths.len(),
    {
        if paths.len() == 0 {
            Multiset::empty()
        } else {
            self.files_below(paths.drop_last()).add((self.files)(paths.last()))
        }
    }
}

/// A walk in a file system: where the generator stands, and what is left of the directory that was
/// opened last.
#[verifier::reject_recursive_types(P)]
pub struct Walk<P> {
    pub generator: GeneratorView<P>,
    pub unread: Seq<(P, bool)>,
}

impl<P> Walk<P> {
    /// A walk that begins at a path.
    pub open spec fn begin(path: P) -> Walk<P> {
        Walk { generator: GeneratorView::begin(path), unread: seq![] }
    }

    /// Whether the walk is at its end.
    pub open spec fn finished(self) -> bool {
        self.generator.ask().1 is Finished
    }

    /// The walk after one step, and the file that was found by it, if any: the generator is asked
    /// what to do, and told what the file system has to say about that.
    pub open spec fn step(self, fs: FileSystem<P>) -> (Walk<P>, Option<P>) {
        let (asked, step) = self.generator.ask();
        match step {
            WalkStep::ReadEntry => if self.unread.len() == 0 {
                let (generator, file) = asked.take_entry(None);
                (Walk { generator, unread: self.unread }, file)
            } else {
                let (generator, file) = asked.take_entry(Some(self.unread.first()));
                (Walk { generator, unread: self.unread.drop_first() }, file)
            },
            WalkStep::Inspect(path) => {
                let is_dir = (fs.is_dir)(path);
                let (generator, file) = asked.take_path(path, is_dir);
                let unread = if is_dir {
                    (fs.entries)(path)
                } else {
                    self.unread
                };
                (Walk { generator, unread }, file)
            },
            WalkStep::Finished => (Walk { generator: asked, unread: self.unread }, None),
        }
    }

    /// The walk after some steps.
    pub open spec fn after(self, fs: FileSystem<P>, steps: nat) -> Walk<P>
        decreases steps,
    {
        if steps == 0 {
            self
        } else {
            self.after(fs, (steps - 1) as nat).step(fs).0
        }
    }

    /// The files that were found by some steps.
    pub open spec fn found(self, fs: FileSystem<P>, steps: nat) -> Multiset<P>
        decreases steps,
    {
        if steps == 0 {
            Multiset::empty()
        } else {
            let before = (steps - 1) as nat;
            match self.after(fs, before).step(fs).1 {
                Some(file) => self.found(fs, before).insert(file),
                None => self.found(fs, before),
            }
        }
    }

    /// Whether some steps find no file.
    pub open spec fn quiet(self, fs: FileSystem<P>, steps: nat) -> bool {
        forall|n: nat| n < steps ==> (#[trigger] self.after(fs, n)).step(fs).1 is None
    }

    /// Whether the next file, in as many steps as it takes, is `file`, or there is none, and the
    /// walk is at `after` then.
    pub open spec fn next_is(self, fs: FileSystem<P>, after: Walk<P>, file: Option<P>) -> bool {
        exists|n: nat|
            {
                &&& #[trigger] self.quiet(fs, n)
                &&& match file {
                    Some(_) => self.after(fs, n).step(fs) == (after, file),
                    None => self.after(fs, n).finished() && self.after(fs, n) == after,
                }
            }
    }

    /// The files that are still to be found.
    pub open spec fn outstanding(self, fs: FileSystem<P>) -> Multiset<P> {
        let below = fs.files_below(self.generator.paths);
        if self.generator.reading {
            below.add(fs.files_of(self.unread))
        } else {
            below
        }
    }
}

proof fn lemma_first_entry<P>(fs: FileSystem<P>, entries: Seq<(P, bool)>)
    requires
        entries.len() > 0,
    ensures
        fs.files_of(entries) == fs.files_at(entries.first()).add(
            fs.files_of(entries.drop_first()),
        ),
    decreases entries.len(),
{
    if entries.len() == 1 {
        assert(entries.drop_last() =~= Seq::empty());
        assert(entries.drop_first() =~= Seq::empty());
        assert(fs.files_of(entries) =~= fs.files_at(entries.first()).add(
            fs.files_of(entries.drop_first()),
        ));
    } else {
        lemma_first_entry(fs, entries.drop_last());
        assert(entries.drop_last().drop_first() =~= entries.drop_first().drop_last());
        assert(fs.files_of(entries) =~= fs.files_at(entries.first()).add(
            fs.files_of(entries.drop_first()),
        ));
    }
}

proof fn lemma_step<P>(fs: FileSystem<P>, walk: Walk<P>)
    requires
        fs.wf(),
    ensures
        walk.outstanding(fs) == match walk.step(fs).1 {
            Some(file) => walk.step(fs).0.outstanding(fs).insert(file),
            None => walk.step(fs).0.outstanding(fs),
        },
{
    let (after, file) = walk.step(fs);
    let paths = walk.generator.paths;
    if walk.generator.reading {
        if walk.unread.len() > 0 {
            lemma_first_entry(fs, walk.unread);
            let entry = walk.unread.first();
            if entry.1 {
                assert(paths.push(entry.0).drop_last() =~= paths);
                assert(walk.outstanding(fs) =~= after.outstanding(fs));
            } else {
                assert(walk.outstanding(fs) =~= after.outstanding(fs).insert(entry.0));
            }
        } else {
            assert(walk.outstanding(fs) =~= after.outstanding(fs));
        }
    } else if paths.len() > 0 {
        let path = paths.last();
        let below = (fs.files)(path);
        if (fs.is_dir)(path) {
            assert(walk.outstanding(fs) =~= after.outstanding(fs));
        } else {
            assert(walk.outstanding(fs) =~= after.outstanding(fs).insert(path));
        }
    }
}

/// A walk that is at its end found every file below the path where it began, each of them once,
/// and nothing else; until then what it did not find yet is still to be found.
pub proof fn walk_finds_every_file_once<P>(fs: FileSystem<P>, path: P, steps: nat)
    requires
        fs.wf(),
    ensures
        Walk::begin(path).found(fs, steps).add(Walk::begin(path).after(fs, steps).outstanding(fs))
            == (fs.files)(path),
        Walk::begin(path).after(fs, steps).finished() ==> Walk::begin(path).found(fs, steps)
            == (fs.files)(path),
    decreases steps,
{
    let start = Walk::begin(path);
    let now = start.after(fs, steps);
    if steps == 0 {
        lemma_begin(fs, path);
        assert(start.found(fs, steps).add(now.outstanding(fs)) =~= (fs.files)(path));
    } else {
        let before = (steps - 1) as nat;
        walk_finds_every_file_once(fs, path, before);
        lemma_step(fs, start.after(fs, before));
        assert(start.found(fs, steps).add(now.outstanding(fs)) =~= start.found(fs, before).add(
            start.after(fs, before).outstanding(fs),
        ));
    }
    if now.finished() {
        assert(now.outstanding(fs) =~= Multiset::empty());
        assert(start.found(fs, steps).add(now.outstanding(fs)) =~= start.found(fs, steps));
    }
}

proof fn lemma_begin<P>(fs: FileSystem<P>, path: P)
    ensures
        Walk::begin(path).outstanding(fs) == (fs.files)(path),
{
    let paths = Walk::begin(path).generator.paths;
    assert(paths.drop_last() =~= Seq::empty());
    assert(fs.files_below(paths.drop_last()) =~= Multiset::empty());
    assert(paths.last() == path);
    assert(Walk::begin(path).outstanding(fs) =~= (fs.files)(path));
}

proof fn lemma_quiet<P>(fs: FileSystem<P>, walk: Walk<P>, steps: nat)
    requires
        fs.wf(),
        walk.quiet(fs, steps),
    ensures
        walk.after(fs, steps).outstanding(fs) == walk.outstanding(fs),
    decreases steps,
{
    if steps > 0 {
        let before = (steps - 1) as nat;
        lemma_quiet(fs, walk, before);
        lemma_step(fs, walk.after(fs, before));
    }
}

proof fn lemma_next<P>(fs: FileSystem<P>, walk: Walk<P>, after: Walk<P>, file: Option<P>)
    requires
        fs.wf(),
        walk.next_is(fs, after, file),
    ensures
        match file {
            Some(f) => walk.outstanding(fs) == after.outstanding(fs).insert(f),
            None => after.finished() && walk.outstanding(fs) == Multiset::<P>::empty(),
        },
{
    let n = choose|n: nat|
        {
            &&& #[trigger] walk.quiet(fs, n)
            &&& match file {
                Some(_) => walk.after(fs, n).step(fs) == (after, file),
                None => walk.after(fs, n).finished() && walk.after(fs, n) == after,
            }
        };
    lemma_quiet(fs, walk, n);
    match file {
        Some(_) => {
            lemma_step(fs, walk.after(fs, n));
        },
        None => {
            assert(after.outstanding(fs) =~= Multiset::empty());
        },
    }
}

proof fn lemma_at_end<P>(fs: FileSystem<P>, walk: Walk<P>, steps: nat)
    requires
        walk.finished(),
    ensures
        walk.after(fs, steps) == walk,
    decreases steps,
{
    if steps > 0 {
        lemma_at_end(fs, walk, (steps - 1) as nat);
    }
}

proof fn lemma_results<P>(
    fs: FileSystem<P>,
    path: P,
    walks: Seq<Walk<P>>,
    results: Seq<P>,
    n: int,
)
    requires
        fs.wf(),
        0 <= n <= results.len(),
        gives(fs, path, walks, results),
    ensures
        results.take(n).to_multiset().add(walks[n].outstanding(fs)) == (fs.files)(path),
    decreases n,
{
    broadcast use vstd::seq_lib::group_to_multiset_ensures;

    if n == 0 {
        lemma_begin(fs, path);
        assert(results.take(0) =~= Seq::empty());
        assert(results.take(0).to_multiset().add(walks[0].outstanding(fs)) =~= (fs.files)(path));
    } else {
        lemma_results(fs, path, walks, results, n - 1);
        let file = results[n - 1];
        lemma_next(fs, walks[n - 1], walks[n], Some(file));
        assert(results.take(n) =~= results.take(n - 1).push(file));
        assert(results.take(n).to_multiset() =~= results.take(n - 1).to_multiset().insert(file));
        assert(results.take(n).to_multiset().add(walks[n].outstanding(fs)) =~= results.take(
            n - 1,
        ).to_multiset().add(walks[n - 1].outstanding(fs)));
    }
}

/// Whether a generator that begins at a path and is asked for one file after the other gives these
/// files; where the walk is before each of them and after the last is given too.
pub open spec fn gives<P>(
    fs: FileSystem<P>,
    path: P,
    walks: Seq<Walk<P>>,
    results: Seq<P>,
) -> bool {
    &&& walks.len() == results.len() + 1
    &&& walks[0] == Walk::begin(path)
    &&& forall|i: int|
        0 <= i < results.len() ==> walks[i].next_is(fs, walks[i + 1], Some(#[trigger] results[i]))
}

/// A generator that is asked for files until there is none left gives every file below the path
/// where it began, each of them once, and nothing else; and when it is asked again there is none
/// left again.
pub proof fn generator_gives_every_file_once<P>(
    fs: FileSystem<P>,
    path: P,
    walks: Seq<Walk<P>>,
    results: Seq<P>,
    end: Walk<P>,
)
    requires
        fs.wf(),
        gives(fs, path, walks, results),
        walks.last().next_is(fs, end, None),
    ensures
        results.to_multiset() == (fs.files)(path),
        forall|again: Walk<P>, file: Option<P>| #[trigger]
            end.next_is(fs, again, file) ==> file is None && again == end,
{
    let n = results.len() as int;
    lemma_results(fs, path, walks, results, n);
    assert(results.take(n) =~= results);
    lemma_next(fs, walks[n], end, None);
    assert(results.to_multiset().add(Multiset::empty()) =~= results.to_multiset());
    assert forall|again: Walk<P>, file: Option<P>| #[trigger]
        end.next_is(fs, again, file) implies file is None && again == end by {
        let m = choose|m: nat|
            {
                &&& #[trigger] end.quiet(fs, m)
                &&& match file {
                    Some(_) => end.after(fs, m).step(fs) == (again, file),
                    None => end.after(fs, m).finished() && end.after(fs, m) == again,
                }
            };
        lemma_at_end(fs, end, m);
    }
}

/// Whether a tree of directories has an end: there is a measure that is smaller for every directory
/// than for the one that it is in.
pub open spec fn has_end<P>(fs: FileSystem<P>, depth: spec_fn(P) -> nat) -> bool {
    forall|p: P, i: int|
        (fs.is_dir)(p) && 0 <= i < (fs.entries)(p).len() && (#[trigger] (fs.entries)(p)[i]).1
            ==> depth((fs.entries)(p)[i].0) < depth(p)
}

/// The directories among entries, in order.
spec fn directories<P>(entries: Seq<(P, bool)>) -> Seq<P>
    decreases entries.len(),
{
    if entries.len() == 0 {
        seq![]
    } else if entries.first().1 {
        seq![entries.first().0] + directories(entries.drop_first())
    } else {
        directories(entries.drop_first())
    }
}

proof fn lemma_after_after<P>(fs: FileSystem<P>, walk: Walk<P>, m: nat, n: nat)
    ensures
        walk.after(fs, m).after(fs, n) == walk.after(fs, m + n),
    decreases n,
{
    if n > 0 {
        lemma_after_after(fs, walk, m, (n - 1) as nat);
    }
}

proof fn lemma_directories_below<P>(
    entries: Seq<(P, bool)>,
    depth: spec_fn(P) -> nat,
    limit: nat,
)
    requires
        forall|i: int|
            0 <= i < entries.len() && (#[trigger] entries[i]).1 ==> depth(entries[i].0) < limit,
    ensures
        forall|i: int|
            0 <= i < directories(entries).len() ==> depth(#[trigger] directories(entries)[i])
                < limit,
    decreases entries.len(),
{
    if entries.len() > 0 {
        let rest = entries.drop_first();
        assert forall|i: int| 0 <= i < rest.len() && (#[trigger] rest[i]).1 implies depth(rest[i].0)
            < limit by {
            assert(rest[i] == entries[i + 1]);
        }
        lemma_directories_below(rest, depth, limit);
        assert(entries[0] == entries.first());
        let all = directories(entries);
        assert forall|i: int| 0 <= i < all.len() implies depth(#[trigger] all[i]) < limit by {
            if !entries.first().1 {
                assert(all[i] == directories(rest)[i]);
            } else if i > 0 {
                assert(all[i] == directories(rest)[i - 1]);
            } else {
                assert(all[i] == entries[0].0);
            }
        }
    }
}

/// A directory is read to its end, and then no longer: its directories are kept for later.
proof fn lemma_read_out<P>(fs: FileSystem<P>, walk: Walk<P>) -> (steps: nat)
    requires
        walk.generator.reading,
    ensures
        !walk.after(fs, steps).generator.reading,
        walk.after(fs, steps).generator.paths == walk.generator.paths + directories(walk.unread),
    decreases walk.unread.len(),
{
    let next = walk.step(fs).0;
    assert(walk.after(fs, 0) == walk);
    assert(walk.after(fs, 1) == next);
    if walk.unread.len() == 0 {
        assert(next.generator.paths =~= walk.generator.paths + directories(walk.unread));
        1
    } else {
        let steps = lemma_read_out(fs, next);
        lemma_after_after(fs, walk, 1, steps);
        assert(next.generator.paths + directories(next.unread) =~= walk.generator.paths
            + directories(walk.unread));
        1 + steps
    }
}

/// What was kept for later is worked off, the last first, and what was there before stays.
proof fn lemma_work_off<P>(
    fs: FileSystem<P>,
    depth: spec_fn(P) -> nat,
    limit: nat,
    kept: Seq<P>,
    more: Seq<P>,
    walk: Walk<P>,
) -> (steps: nat)
    requires
        has_end(fs, depth),
        forall|i: int| 0 <= i < more.len() ==> depth(#[trigger] more[i]) < limit,
        !walk.generator.reading,
        walk.generator.paths == kept + more,
    ensures
        !walk.after(fs, steps).generator.reading,
        walk.after(fs, steps).generator.paths == kept,
    decreases limit, more.len(),
{
    assert(walk.after(fs, 0) == walk);
    if more.len() == 0 {
        assert(kept + more =~= kept);
        return 0;
    }
    let path = more.last();
    let rest = more.drop_last();
    let next = walk.step(fs).0;
    assert(walk.after(fs, 1) == next);
    assert(walk.generator.paths.last() == path);
    assert(walk.generator.paths.drop_last() =~= kept + rest);
    assert(depth(more[more.len() - 1]) < limit);
    assert forall|i: int| 0 <= i < rest.len() implies depth(#[trigger] rest[i]) < limit by {
        assert(rest[i] == more[i]);
    }
    if (fs.is_dir)(path) {
        let entries = (fs.entries)(path);
        let read = lemma_read_out(fs, next);
        let there = next.after(fs, read);
        assert(there.generator.paths == (kept + rest) + directories(entries));
        assert forall|i: int|
            0 <= i < entries.len() && (#[trigger] entries[i]).1 implies depth(entries[i].0)
            < depth(path) by {}
        lemma_directories_below(entries, depth, depth(path));
        let inner = lemma_work_off(
            fs,
            depth,
            depth(path),
            kept + rest,
            directories(entries),
            there,
        );
        let back = there.after(fs, inner);
        let outer = lemma_work_off(fs, depth, limit, kept, rest, back);
        lemma_after_after(fs, walk, 1, read);
        lemma_after_after(fs, walk, 1 + read, inner);
        lemma_after_after(fs, walk, 1 + read + inner, outer);
        1 + read + inner + outer
    } else {
        let outer = lemma_work_off(fs, depth, limit, kept, rest, next);
        lemma_after_after(fs, walk, 1, outer);
        1 + outer
    }
}

/// A walk over a tree that has an end comes to its end itself, after some number of steps, and has
/// found every file below the path where it began by then, each of them once.
pub proof fn walks_come_to_an_end<P>(fs: FileSystem<P>, depth: spec_fn(P) -> nat, path: P) -> (steps:
    nat)
    requires
        fs.wf(),
        has_end(fs, depth),
    ensures
        Walk::begin(path).after(fs, steps).generator.ask().1 is Finished,
        Walk::begin(path).found(fs, steps) == (fs.files)(path),
{
    let start = Walk::begin(path);
    assert(start.generator.paths =~= Seq::empty() + seq![path]);
    let steps = lemma_work_off(fs, depth, depth(path) + 1, Seq::empty(), seq![path], start);
    walk_finds_every_file_once(fs, path, steps);
    steps
}

/// A generator that is told that a directory has no entries left asks for no more of them; told of
/// an entry, it goes on with the directory. It keeps what it has to look at, and finds a path if and
/// only if that is no directory.
pub proof fn directories_are_read_once<P>(generator: GeneratorView<P>, path: P, is_dir: bool)
    ensures
        !(generator.take_entry(None).0.ask().1 is ReadEntry),
        generator.take_entry(None).0.paths == generator.paths,
        generator.take_entry(None).1 is None,
        generator.take_entry(Some((path, is_dir))).0.reading == generator.reading,
        generator.take_entry(Some((path, is_dir))).0.paths.len() == generator.paths.len() + if is_dir {
            1int
        } else {
            0int
        },
        generator.take_entry(Some((path, is_dir))).1 == if is_dir {
            None
        } else {
            Some(path)
        },
        is_dir ==> generator.take_entry(Some((path, is_dir))).0.paths.last() == path,
        generator.take_path(path, is_dir).1 == if is_dir {
            None
        } else {
            Some(path)
        },
        is_dir ==> generator.take_path(path, is_dir).0.ask().1 is ReadEntry,
        generator.take_path(path, is_dir).0.paths == generator.paths,
{
}

} // verus!
