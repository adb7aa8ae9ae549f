//! Whether archives are newer than what they were built from.
use crate::bindings;
use crate::bindings::Binding;
use crate::fingerprint;
use crate::listing;
use crate::listing::{is_excluded, DirItem};
use crate::source_walk;
use crate::sources;
use crate::stamp;
use crate::text;
use crate::text::{clone_names, str_eq};
use vstd::prelude::*;

verus! {

/// What is found out about a path: nothing, that it is a file and when it was
/// modified (in nanoseconds since the Unix epoch, where it can be told), that
/// it is a directory and what it holds (where it can be listed), or that it is
/// something else.
pub enum PathStatus {
    Unavailable,
    File(Option<i128>),
    Directory(Option<Vec<DirItem>>),
    Other,
}

/// Why an archive has no modification time.
#[derive(Clone, Copy, Debug, PartialEq, Eq, Structural)]
pub enum ArchiveError {
    /// The path, or its modification time, cannot be read.
    Unavailable,
    /// The path is not a file.
    NotAFile,
}

/// The modification time of an archive.
pub open spec fn archive_time(status: PathStatus) -> Result<i128, ArchiveError> {
    match status {
        PathStatus::File(Some(time)) => Ok(time),
        PathStatus::File(None) => Err(ArchiveError::Unavailable),
        PathStatus::Unavailable => Err(ArchiveError::Unavailable),
        PathStatus::Directory(_) => Err(ArchiveError::NotAFile),
        PathStatus::Other => Err(ArchiveError::NotAFile),
    }
}

/// The modification time of an archive, which has to be a file.
pub fn file_modified(status: &PathStatus) -> (r: Result<i128, ArchiveError>)
    ensures
        r == archive_time(*status),
{
    match status {
        PathStatus::File(Some(time)) => Ok(*time),
        PathStatus::File(None) => Err(ArchiveError::Unavailable),
        PathStatus::Unavailable => Err(ArchiveError::Unavailable),
        PathStatus::Directory(_) => Err(ArchiveError::NotAFile),
        PathStatus::Other => Err(ArchiveError::NotAFile),
    }
}

/// How a search for files newer than the archives ends: with such a file,
/// without one, or with a path that could not be read.
#[derive(Clone, Copy, Debug, PartialEq, Eq, Structural)]
pub enum Verdict {
    Newer,
    Older,
    Failed,
}

/// What is still to be done: a path is to be read, or the listing that was being
/// gone through fails.
pub enum Step {
    Path(Seq<Seq<char>>),
    Fault,
}

/// A stage of the search: the time of the archives, the steps to be done (the
/// last of them next), and the verdict once there is one.
pub struct AgeState {
    pub limit: int,
    pub pending: Seq<Step>,
    pub verdict: Option<Verdict>,
}

/// The steps that the listing of the directory `path` leads to.
pub open spec fn listing_steps(path: Seq<Seq<char>>, items: Seq<DirItem>) -> Seq<Step>
    decreases items.len(),
{
    if items.len() == 0 {
        Seq::empty()
    } else {
        let before = listing_steps(path, items.drop_last());
        match items.last() {
            DirItem::Name(name) => if listing::excluded(name@) {
                before
            } else {
                before.push(Step::Path(path.push(name@)))
            },
            DirItem::NotUnicode => before,
            DirItem::Failed => before.push(Step::Fault),
        }
    }
}

/// The stage with `pending` to be done: when nothing is left no file was newer,
/// and a fault is the end.
pub open spec fn settled(limit: int, pending: Seq<Step>) -> AgeState {
    AgeState {
        limit,
        pending,
        verdict: if pending.len() == 0 {
            Some(Verdict::Older)
        } else if pending.last() is Fault {
            Some(Verdict::Failed)
        } else {
            None
        },
    }
}

/// The stage at which the search through `paths` starts.
pub open spec fn search_start(paths: Seq<Seq<Seq<char>>>, limit: int) -> AgeState {
    settled(limit, paths.map_values(|p: Seq<Seq<char>>| Step::Path(p)).reverse())
}

/// The stage with a verdict.
pub open spec fn ended(state: AgeState, verdict: Verdict) -> AgeState {
    AgeState { limit: state.limit, pending: state.pending, verdict: Some(verdict) }
}

/// The stage after the next path was read. Nothing changes once there is a
/// verdict.
pub open spec fn searched(state: AgeState, status: PathStatus) -> AgeState {
    if state.verdict is Some || state.pending.len() == 0 {
        state
    } else {
        let rest = state.pending.drop_last();
        match status {
            PathStatus::Unavailable => ended(state, Verdict::Failed),
            PathStatus::File(None) => ended(state, Verdict::Failed),
            PathStatus::File(Some(time)) => if time > state.limit {
                ended(state, Verdict::Newer)
            } else {
                settled(state.limit, rest)
            },
            PathStatus::Directory(None) => ended(state, Verdict::Failed),
            PathStatus::Directory(Some(items)) => settled(
                state.limit,
                rest + listing_steps(state.pending.last()->Path_0, items@).reverse(),
            ),
            PathStatus::Other => settled(state.limit, rest),
        }
    }
}

/// What is still to be done.
enum AgeStep {
    Path(Vec<String>),
    Fault,
}

spec fn step_view(s: AgeStep) -> Step {
    match s {
        AgeStep::Path(path) => Step::Path(text::views(path@)),
        AgeStep::Fault => Step::Fault,
    }
}

spec fn step_views(s: Seq<AgeStep>) -> Seq<Step> {
    s.map_values(|x: AgeStep| step_view(x))
}

/// The search through source trees for a file newer than the archives.
pub struct NewerWalk {
    limit: i128,
    pending: Vec<AgeStep>,
    verdict: Option<Verdict>,
}

impl View for NewerWalk {
    type V = AgeState;

    closed spec fn view(&self) -> AgeState {
        AgeState {
            limit: self.limit as int,
            pending: step_views(self.pending@),
            verdict: self.verdict,
        }
    }
}

/// The paths that a list of joined names spells.
pub open spec fn path_views(paths: Seq<Vec<String>>) -> Seq<Seq<Seq<char>>> {
    paths.map_values(|p: Vec<String>| text::views(p@))
}

impl NewerWalk {
    #[verifier::type_invariant]
    spec fn wf(self) -> bool {
        self.verdict is None ==> self.pending@.len() > 0 && self.pending@.last() is Path
    }

    /// Goes on with `pending`.
    fn settle(limit: i128, pending: Vec<AgeStep>) -> (r: NewerWalk)
        ensures
            r@ == settled(limit as int, step_views(pending@)),
    {
        let n: usize = pending.len();
        let verdict = if n == 0 {
            Some(Verdict::Older)
        } else {
            match &pending[n - 1] {
                AgeStep::Fault => Some(Verdict::Failed),
                AgeStep::Path(_) => None,
            }
        };
        proof {
            if n > 0 {
                assert(step_views(pending@).last() == step_view(pending@[n - 1]));
            }
        }
        NewerWalk { limit, pending, verdict }
    }

    /// Starts the search for files under `paths` newer than `archive_mtime`.
    pub fn new(paths: &Vec<Vec<String>>, archive_mtime: i128) -> (r: NewerWalk)
        ensures
            r@ == search_start(path_views(paths@), archive_mtime as int),
    {
        let ghost steps = path_views(paths@).map_values(|p: Seq<Seq<char>>| Step::Path(p));
        let mut pending: Vec<AgeStep> = Vec::new();
        let mut left: usize = paths.len();
        proof {
            assert(step_views(pending@) =~= steps.skip(left as int).reverse());
        }
        while left > 0
            invariant
                left <= paths@.len(),
                steps == path_views(paths@).map_values(|p: Seq<Seq<char>>| Step::Path(p)),
                step_views(pending@) == steps.skip(left as int).reverse(),
            decreases left,
        {
            left = left - 1;
            let ghost before = step_views(pending@);
            pending.push(AgeStep::Path(clone_names(&paths[left])));
            proof {
                assert(step_views(pending@) =~= before.push(steps[left as int]));
                assert(step_views(pending@) =~= steps.skip(left as int).reverse());
            }
        }
        proof {
            assert(steps.skip(0) =~= steps);
        }
        NewerWalk::settle(archive_mtime, pending)
    }

    /// The verdict, once there is one.
    pub fn verdict(&self) -> (r: Option<Verdict>)
        ensures
            r == self@.verdict,
    {
        self.verdict
    }

    /// The path to be read next, as the names to be joined to the workspace
    /// root one after the other; nothing once there is a verdict.
    pub fn next_path(&self) -> (r: Option<&Vec<String>>)
        ensures
            match r {
                Some(path) => self@.verdict is None && self@.pending.len() > 0
                    && self@.pending.last() == Step::Path(text::views(path@)),
                None => self@.verdict is Some,
            },
    {
        proof {
            use_type_invariant(self);
        }
        if self.verdict.is_some() {
            return None;
        }
        let n: usize = self.pending.len();
        match &self.pending[n - 1] {
            AgeStep::Path(path) => Some(path),
            AgeStep::Fault => None,
        }
    }

    /// Takes what was found out about the path to be read next.
    pub fn feed(self, status: PathStatus) -> (r: NewerWalk)
        ensures
            r@ == searched(self@, status),
    {
        proof {
            use_type_invariant(&self);
        }
        if self.verdict.is_some() {
            return self;
        }
        let limit: i128 = self.limit;
        let ghost before = self@;
        match status {
            PathStatus::Unavailable => {
                NewerWalk { limit, pending: self.pending, verdict: Some(Verdict::Failed) }
            },
            PathStatus::File(None) => {
                NewerWalk { limit, pending: self.pending, verdict: Some(Verdict::Failed) }
            },
            PathStatus::Directory(None) => {
                NewerWalk { limit, pending: self.pending, verdict: Some(Verdict::Failed) }
            },
            PathStatus::File(Some(time)) => {
                if time > limit {
                    NewerWalk { limit, pending: self.pending, verdict: Some(Verdict::Newer) }
                } else {
                    let mut pending = self.pending;
                    let _ = pending.pop();
                    proof {
                        assert(step_views(pending@) =~= before.pending.drop_last());
                    }
                    NewerWalk::settle(limit, pending)
                }
            },
            PathStatus::Other => {
                let mut pending = self.pending;
                let _ = pending.pop();
                proof {
                    assert(step_views(pending@) =~= before.pending.drop_last());
                }
                NewerWalk::settle(limit, pending)
            },
            PathStatus::Directory(Some(items)) => {
                let mut pending = self.pending;
                let top = pending.pop();
                proof {
                    assert(step_views(pending@) =~= before.pending.drop_last());
                    assert(step_view(top->0) == before.pending.last());
                }
                match top {
                    Some(AgeStep::Path(path)) => {
                        push_listing(&mut pending, &path, &items);
                    },
                    _ => {},
                }
                NewerWalk::settle(limit, pending)
            },
        }
    }
}

/// Puts the steps that a listing leads to before everything that is pending.
fn push_listing(pending: &mut Vec<AgeStep>, path: &Vec<String>, items: &Vec<DirItem>)
    ensures
        step_views(final(pending)@) == step_views(old(pending)@) + listing_steps(
            text::views(path@),
            items@,
        ).reverse(),
{
    let ghost base = step_views(pending@);
    let ghost all = listing_steps(text::views(path@), items@);
    let ghost mut done: Seq<Step> = Seq::empty();
    let mut left: usize = items.len();
    proof {
        assert(items@.take(items@.len() as int) =~= items@);
        assert(all =~= listing_steps(text::views(path@), items@.take(left as int)) + done);
        assert(step_views(pending@) =~= base + done.reverse());
    }
    while left > 0
        invariant
            left <= items@.len(),
            all == listing_steps(text::views(path@), items@.take(left as int)) + done,
            step_views(pending@) == base + done.reverse(),
        decreases left,
    {
        let ghost rest = items@.take(left - 1);
        let ghost before = step_views(pending@);
        proof {
            assert(items@.take(left as int).drop_last() =~= rest);
            assert(items@.take(left as int).last() == items@[left - 1]);
        }
        left = left - 1;
        let ghost head = listing_steps(text::views(path@), rest);
        match &items[left] {
            DirItem::Name(name) => {
                if !is_excluded(name.as_str()) {
                    let mut next = clone_names(path);
                    next.push(name.clone());
                    let ghost step = Step::Path(text::views(path@).push(name@));
                    proof {
                        assert(text::views(next@) =~= text::views(path@).push(name@));
                    }
                    pending.push(AgeStep::Path(next));
                    proof {
                        assert(step_views(pending@) =~= before.push(step));
                        assert(head.push(step) + done =~= head + (seq![step] + done));
                        assert((seq![step] + done).reverse() =~= done.reverse().push(step));
                        done = seq![step] + done;
                        assert(step_views(pending@) =~= base + done.reverse());
                    }
                }
            },
            DirItem::NotUnicode => {},
            DirItem::Failed => {
                pending.push(AgeStep::Fault);
                proof {
                    let step = Step::Fault;
                    assert(step_views(pending@) =~= before.push(step));
                    assert(head.push(step) + done =~= head + (seq![step] + done));
                    assert((seq![step] + done).reverse() =~= done.reverse().push(step));
                    done = seq![step] + done;
                    assert(step_views(pending@) =~= base + done.reverse());
                }
            },
        }
    }
    proof {
        assert(items@.take(0) =~= Seq::empty());
        assert(all =~= done);
    }
}

/// The paths that archives are built from: the workspace manifests, the runtime
/// and the stdlib, and the wrapper crates of the bindings.
pub open spec fn archive_inputs(krates: Seq<Seq<char>>) -> Seq<Seq<Seq<char>>> {
    seq![
        seq!["Cargo.toml"@],
        seq!["Cargo.lock"@],
        seq!["crates/perry-runtime"@],
        seq!["crates/perry-stdlib"@],
    ] + krates.map_values(|krate: Seq<char>| seq!["crates"@, krate])
}

/// A path of one name.
fn single(name: &str) -> (r: Vec<String>)
    ensures
        text::views(r@) == seq![name@],
{
    let mut path: Vec<String> = Vec::new();
    path.push(name.to_owned());
    proof {
        assert(text::views(path@) =~= seq![name@]);
    }
    path
}

/// The paths that archives are built from.
fn inputs(tokio_using_bindings: &[Binding]) -> (r: Vec<Vec<String>>)
    ensures
        path_views(r@) == archive_inputs(bindings::krates(tokio_using_bindings@)),
{
    let mut out: Vec<Vec<String>> = Vec::new();
    out.push(single("Cargo.toml"));
    out.push(single("Cargo.lock"));
    out.push(single("crates/perry-runtime"));
    out.push(single("crates/perry-stdlib"));
    let ghost all = archive_inputs(bindings::krates(tokio_using_bindings@));
    let mut i: usize = 0;
    proof {
        assert(path_views(out@) =~= all.take(4));
    }
    while i < tokio_using_bindings.len()
        invariant
            i <= tokio_using_bindings@.len(),
            all == archive_inputs(bindings::krates(tokio_using_bindings@)),
            path_views(out@) == all.take(i + 4),
        decreases tokio_using_bindings@.len() - i,
    {
        let ghost before = path_views(out@);
        let mut path = single("crates");
        let ghost start = text::views(path@);
        path.push(tokio_using_bindings[i].0.clone());
        proof {
            let krate = tokio_using_bindings@[i as int].0@;
            assert(bindings::krates(tokio_using_bindings@)[i as int] == krate);
            assert(text::views(path@) =~= start.push(krate));
            assert(all[i + 4] == seq!["crates"@, krate]);
            assert(text::views(path@) =~= all[i + 4]);
        }
        out.push(path);
        proof {
            assert(path_views(out@) =~= before.push(all[i + 4]));
            assert(path_views(out@) =~= all.take(i + 5));
        }
        i = i + 1;
    }
    proof {
        assert(all.take(all.len() as int) =~= all);
    }
    out
}

/// The stage at which a check of archives starts: nothing to search where the
/// stored stamp is not the expected one, or an archive has no modification
/// time; otherwise the search for inputs newer than the older archive.
pub open spec fn gate_start(
    stamp: Option<Seq<char>>,
    expected: Seq<char>,
    runtime: PathStatus,
    stdlib: PathStatus,
    krates: Seq<Seq<char>>,
) -> Option<AgeState> {
    match (archive_time(runtime), archive_time(stdlib)) {
        (Ok(a), Ok(b)) => if stamp == Some(expected) {
            Some(
                search_start(
                    archive_inputs(krates),
                    if a <= b {
                        a as int
                    } else {
                        b as int
                    },
                ),
            )
        } else {
            None
        },
        _ => None,
    }
}

/// The stage of a check after the next path was read.
pub open spec fn gate_fed(gate: Option<AgeState>, status: PathStatus) -> Option<AgeState> {
    match gate {
        Some(state) => Some(searched(state, status)),
        None => None,
    }
}

/// Whether archives are fresh, once it is known. A path that could not be read
/// counts as newer.
pub open spec fn gate_verdict(gate: Option<AgeState>) -> Option<bool> {
    match gate {
        None => Some(false),
        Some(state) => match state.verdict {
            None => None,
            Some(Verdict::Older) => Some(true),
            Some(_) => Some(false),
        },
    }
}

/// A check of whether archives can be used as they are.
pub struct ArchiveGate {
    walk: Option<NewerWalk>,
}

impl View for ArchiveGate {
    type V = Option<AgeState>;

    closed spec fn view(&self) -> Option<AgeState> {
        match self.walk {
            Some(walk) => Some(walk@),
            None => None,
        }
    }
}

impl ArchiveGate {
    /// Starts the check with the stamp stored beside the archives, if it could
    /// be read, and with what was found out about the archives.
    pub fn new(
        stamp: Option<&str>,
        expected_build_stamp: &str,
        runtime: &PathStatus,
        stdlib: &PathStatus,
        tokio_using_bindings: &[Binding],
    ) -> (r: ArchiveGate)
        ensures
            r@ == gate_start(
                text::opt_str_view(stamp),
                expected_build_stamp@,
                *runtime,
                *stdlib,
                bindings::krates(tokio_using_bindings@),
            ),
    {
        let same = match stamp {
            Some(stored) => str_eq(stored, expected_build_stamp),
            None => false,
        };
        if !same {
            return ArchiveGate { walk: None };
        }
        match (file_modified(runtime), file_modified(stdlib)) {
            (Ok(runtime_mtime), Ok(stdlib_mtime)) => {
                let archive_mtime: i128 = if runtime_mtime <= stdlib_mtime {
                    runtime_mtime
                } else {
                    stdlib_mtime
                };
                let paths = inputs(tokio_using_bindings);
                ArchiveGate { walk: Some(NewerWalk::new(&paths, archive_mtime)) }
            },
            _ => ArchiveGate { walk: None },
        }
    }

    /// The path to be read next, as the names to be joined to the workspace
    /// root one after the other; nothing once the answer is known.
    pub fn next_path(&self) -> (r: Option<&Vec<String>>)
        ensures
            match r {
                Some(path) => self@ is Some && self@->0.verdict is None && self@->0.pending.len()
                    > 0 && self@->0.pending.last() == Step::Path(text::views(path@)),
                None => gate_verdict(self@) is Some,
            },
    {
        match &self.walk {
            Some(walk) => walk.next_path(),
            None => None,
        }
    }

    /// Takes what was found out about the path to be read next.
    pub fn feed(self, status: PathStatus) -> (r: ArchiveGate)
        ensures
            r@ == gate_fed(self@, status),
    {
        match self.walk {
            Some(walk) => ArchiveGate { walk: Some(walk.feed(status)) },
            None => ArchiveGate { walk: None },
        }
    }
}

/// Whether the archives are fresh: the stored stamp is the expected one, and no
/// input is newer than the older of the two archives. Nothing while paths are
/// left to be read.
pub fn auto_optimized_archives_are_fresh(gate: &ArchiveGate) -> (r: Option<bool>)
    ensures
        r == gate_verdict(gate@),
{
    match &gate.walk {
        None => Some(false),
        Some(walk) => match walk.verdict() {
            None => None,
            Some(Verdict::Older) => Some(true),
            Some(_) => Some(false),
        },
    }
}

/// A source tree as the search sees it.
pub enum AgeTree {
    Unavailable,
    File(Option<int>),
    Directory(Option<Seq<AgeEntry>>),
    Other,
}

/// An entry of a directory that the search does not pass over.
pub enum AgeEntry {
    Child(Seq<char>, AgeTree),
    Fault,
}

/// How the search through a tree ends.
pub open spec fn newer_than(tree: AgeTree, limit: int) -> Verdict
    decreases tree,
{
    match tree {
        AgeTree::Unavailable => Verdict::Failed,
        AgeTree::File(None) => Verdict::Failed,
        AgeTree::File(Some(time)) => if time > limit {
            Verdict::Newer
        } else {
            Verdict::Older
        },
        AgeTree::Directory(None) => Verdict::Failed,
        AgeTree::Directory(Some(entries)) => entries_newer_than(entries, limit),
        AgeTree::Other => Verdict::Older,
    }
}

/// How the search through the entries of a directory ends: with the first that
/// is newer or fails.
pub open spec fn entries_newer_than(entries: Seq<AgeEntry>, limit: int) -> Verdict
    decreases entries,
{
    if entries.len() == 0 {
        Verdict::Older
    } else {
        match entries[0] {
            AgeEntry::Fault => Verdict::Failed,
            AgeEntry::Child(_, tree) => match newer_than(tree, limit) {
                Verdict::Older => entries_newer_than(entries.drop_first(), limit),
                verdict => verdict,
            },
        }
    }
}

/// The step that an entry of the directory `path` is.
pub open spec fn entry_step(path: Seq<Seq<char>>, entry: AgeEntry) -> Step {
    match entry {
        AgeEntry::Child(name, _) => Step::Path(path.push(name)),
        AgeEntry::Fault => Step::Fault,
    }
}

/// Whether `status` is what is found out about the root of `tree`, which stands
/// at `path`.
pub open spec fn agrees(path: Seq<Seq<char>>, tree: AgeTree, status: PathStatus) -> bool {
    match (tree, status) {
        (AgeTree::Unavailable, PathStatus::Unavailable) => true,
        (AgeTree::File(None), PathStatus::File(None)) => true,
        (AgeTree::File(Some(a)), PathStatus::File(Some(b))) => a == b,
        (AgeTree::Directory(None), PathStatus::Directory(None)) => true,
        (AgeTree::Directory(Some(entries)), PathStatus::Directory(Some(items))) => {
            entries.map_values(|e: AgeEntry| entry_step(path, e)) == listing_steps(path, items@)
        },
        (AgeTree::Other, PathStatus::Other) => true,
        _ => false,
    }
}

/// Whether `world`, which gives the tree at each path, gives at the path of an
/// entry the tree that the directory holds there.
pub open spec fn consistent(world: spec_fn(Seq<Seq<char>>) -> AgeTree) -> bool {
    forall|path: Seq<Seq<char>>, i: int|
        #![trigger world(path)->Directory_0->0[i]]
        world(path) is Directory && world(path)->Directory_0 is Some && 0 <= i
            < world(path)->Directory_0->0.len() && world(path)->Directory_0->0[i] is Child
            ==> world(path.push(world(path)->Directory_0->0[i]->Child_0))
            == world(path)->Directory_0->0[i]->Child_1
}

/// How a search with these steps to be done, the first of them next, ends.
pub open spec fn steps_end(
    world: spec_fn(Seq<Seq<char>>) -> AgeTree,
    steps: Seq<Step>,
    limit: int,
) -> Verdict
    decreases steps.len(),
{
    if steps.len() == 0 {
        Verdict::Older
    } else {
        match steps[0] {
            Step::Fault => Verdict::Failed,
            Step::Path(path) => match newer_than(world(path), limit) {
                Verdict::Older => steps_end(world, steps.drop_first(), limit),
                verdict => verdict,
            },
        }
    }
}

/// How a search ends from a stage on.
pub open spec fn search_end(
    world: spec_fn(Seq<Seq<char>>) -> AgeTree,
    state: AgeState,
) -> Verdict {
    match state.verdict {
        Some(verdict) => verdict,
        None => steps_end(world, state.pending.reverse(), state.limit),
    }
}

proof fn lemma_settled_end(
    world: spec_fn(Seq<Seq<char>>) -> AgeTree,
    limit: int,
    pending: Seq<Step>,
)
    ensures
        search_end(world, settled(limit, pending)) == steps_end(world, pending.reverse(), limit),
{
    if pending.len() > 0 {
        assert(pending.reverse()[0] == pending.last());
    }
}

proof fn lemma_steps_end_add(
    world: spec_fn(Seq<Seq<char>>) -> AgeTree,
    a: Seq<Step>,
    b: Seq<Step>,
    limit: int,
)
    ensures
        steps_end(world, a + b, limit) == (match steps_end(world, a, limit) {
            Verdict::Older => steps_end(world, b, limit),
            verdict => verdict,
        }),
    decreases a.len(),
{
    if a.len() == 0 {
        assert(a + b =~= b);
    } else {
        lemma_steps_end_add(world, a.drop_first(), b, limit);
        assert((a + b).drop_first() =~= a.drop_first() + b);
        assert((a + b)[0] == a[0]);
    }
}

proof fn lemma_entries_end(
    world: spec_fn(Seq<Seq<char>>) -> AgeTree,
    path: Seq<Seq<char>>,
    limit: int,
    k: int,
)
    requires
        consistent(world),
        world(path) is Directory,
        world(path)->Directory_0 is Some,
        0 <= k <= world(path)->Directory_0->0.len(),
    ensures
        ({
            let entries = world(path)->Directory_0->0;
            let steps = entries.map_values(|e: AgeEntry| entry_step(path, e));
            steps_end(world, steps.skip(k), limit) == entries_newer_than(entries.skip(k), limit)
        }),
    decreases world(path)->Directory_0->0.len() - k,
{
    let entries = world(path)->Directory_0->0;
    let steps = entries.map_values(|e: AgeEntry| entry_step(path, e));
    if k < entries.len() {
        lemma_entries_end(world, path, limit, k + 1);
        assert(steps.skip(k).drop_first() =~= steps.skip(k + 1));
        assert(entries.skip(k).drop_first() =~= entries.skip(k + 1));
        assert(steps.skip(k)[0] == entry_step(path, entries[k]));
        assert(entries.skip(k)[0] == world(path)->Directory_0->0[k]);
    }
}

/// Reading a path does not change how the search ends.
pub proof fn law_search_keeps_its_end(
    world: spec_fn(Seq<Seq<char>>) -> AgeTree,
    state: AgeState,
    path: Seq<Seq<char>>,
    status: PathStatus,
)
    requires
        consistent(world),
        state.verdict is None,
        state.pending.len() > 0,
        state.pending.last() == Step::Path(path),
        agrees(path, world(path), status),
    ensures
        search_end(world, searched(state, status)) == search_end(world, state),
{
    let rest = state.pending.drop_last();
    let tree = world(path);
    assert(state.pending.reverse() =~= seq![Step::Path(path)] + rest.reverse());
    assert((seq![Step::Path(path)] + rest.reverse()).drop_first() =~= rest.reverse());
    lemma_settled_end(world, state.limit, rest);
    match status {
        PathStatus::Directory(Some(items)) => {
            let after = listing_steps(path, items@);
            let entries = tree->Directory_0->0;
            lemma_settled_end(world, state.limit, rest + after.reverse());
            assert((rest + after.reverse()).reverse() =~= after + rest.reverse());
            lemma_steps_end_add(world, after, rest.reverse(), state.limit);
            lemma_entries_end(world, path, state.limit, 0);
            assert(after.skip(0) =~= after);
            assert(entries.skip(0) =~= entries);
        },
        _ => {},
    }
}

/// The search through one path ends as the tree there has it.
pub proof fn law_search_of_a_path(
    world: spec_fn(Seq<Seq<char>>) -> AgeTree,
    path: Seq<Seq<char>>,
    limit: int,
)
    ensures
        search_end(world, search_start(seq![path], limit)) == newer_than(world(path), limit),
{
    let steps = seq![path].map_values(|p: Seq<Seq<char>>| Step::Path(p));
    lemma_settled_end(world, limit, steps.reverse());
    assert(steps.reverse().reverse() =~= steps);
    assert(steps.len() == 1);
    assert(steps[0] == Step::Path(path));
    assert(steps.drop_first() =~= Seq::empty());
    assert(steps_end(world, steps.drop_first(), limit) == Verdict::Older);
    assert(steps_end(world, steps, limit) == newer_than(world(path), limit));
}

proof fn lemma_paths_end(
    world: spec_fn(Seq<Seq<char>>) -> AgeTree,
    paths: Seq<Seq<Seq<char>>>,
    limit: int,
)
    ensures
        steps_end(
            world,
            paths.map_values(|p: Seq<Seq<char>>| Step::Path(p)),
            limit,
        ) == Verdict::Older <==> forall|i: int|
            0 <= i < paths.len() ==> newer_than(world(#[trigger] paths[i]), limit)
                == Verdict::Older,
    decreases paths.len(),
{
    let steps = paths.map_values(|p: Seq<Seq<char>>| Step::Path(p));
    if paths.len() > 0 {
        let rest = paths.drop_first();
        lemma_paths_end(world, rest, limit);
        assert(steps.drop_first() =~= rest.map_values(|p: Seq<Seq<char>>| Step::Path(p)));
        assert(steps[0] == Step::Path(paths[0]));
        if forall|i: int|
            0 <= i < rest.len() ==> newer_than(world(#[trigger] rest[i]), limit)
                == Verdict::Older {
            assert forall|i: int| 1 <= i < paths.len() implies newer_than(
                world(#[trigger] paths[i]),
                limit,
            ) == Verdict::Older by {
                assert(rest[i - 1] == paths[i]);
            }
        } else {
            let i = choose|i: int|
                0 <= i < rest.len() && newer_than(world(#[trigger] rest[i]), limit)
                    != Verdict::Older;
            assert(paths[i + 1] == rest[i]);
        }
    }
}

/// A check finds archives fresh if and only if the stored stamp is the expected
/// one, both archives have a modification time, and in no input is a file newer
/// than the older archive or a path that cannot be read.
pub proof fn law_gate_decides_freshness(
    world: spec_fn(Seq<Seq<char>>) -> AgeTree,
    stamp: Option<Seq<char>>,
    expected: Seq<char>,
    runtime: PathStatus,
    stdlib: PathStatus,
    krates: Seq<Seq<char>>,
)
    ensures
        ({
            let gate = gate_start(stamp, expected, runtime, stdlib, krates);
            &&& gate is Some <==> stamp == Some(expected) && archive_time(runtime) is Ok
                && archive_time(stdlib) is Ok
            &&& gate is Some ==> gate->0.limit == (if archive_time(runtime)->Ok_0 <= archive_time(
                stdlib,
            )->Ok_0 {
                archive_time(runtime)->Ok_0 as int
            } else {
                archive_time(stdlib)->Ok_0 as int
            })
            &&& gate is Some ==> (search_end(world, gate->0) == Verdict::Older <==> forall|i: int|
                0 <= i < archive_inputs(krates).len() ==> newer_than(
                    world(#[trigger] archive_inputs(krates)[i]),
                    gate->0.limit,
                ) == Verdict::Older)
        }),
{
    let gate = gate_start(stamp, expected, runtime, stdlib, krates);
    if gate is Some {
        let limit = gate->0.limit;
        let paths = archive_inputs(krates);
        let steps = paths.map_values(|p: Seq<Seq<char>>| Step::Path(p));
        lemma_settled_end(world, limit, steps.reverse());
        assert(steps.reverse().reverse() =~= steps);
        lemma_paths_end(world, paths, limit);
    }
}

/// Archives that were built from different sources never pass: where the
/// stored stamp and the expected one hold different fingerprints, the check
/// fails at once.
pub proof fn law_changed_sources_are_stale(
    key_a: Seq<char>,
    key_b: Seq<char>,
    target_a: Option<Seq<char>>,
    target_b: Option<Seq<char>>,
    triple_a: Option<Seq<char>>,
    triple_b: Option<Seq<char>>,
    features_a: Seq<Seq<char>>,
    features_b: Seq<Seq<char>>,
    bindings_a: Seq<Binding>,
    bindings_b: Seq<Binding>,
    sources_a: Seq<char>,
    sources_b: Seq<char>,
    runtime: PathStatus,
    stdlib: PathStatus,
    krates: Seq<Seq<char>>,
)
    requires
        !sources_a.contains('\n'),
        !sources_b.contains('\n'),
        sources_a != sources_b,
    ensures
        gate_verdict(
            gate_start(
                Some(
                    stamp::build_stamp(
                        key_a,
                        target_a,
                        triple_a,
                        features_a,
                        bindings_a,
                        sources_a,
                    ),
                ),
                stamp::build_stamp(key_b, target_b, triple_b, features_b, bindings_b, sources_b),
                runtime,
                stdlib,
                krates,
            ),
        ) == Some(false),
{
    if stamp::build_stamp(key_a, target_a, triple_a, features_a, bindings_a, sources_a)
        == stamp::build_stamp(key_b, target_b, triple_b, features_b, bindings_b, sources_b) {
        stamp::law_stamp_identifies_the_sources(
            key_a,
            key_b,
            target_a,
            target_b,
            triple_a,
            triple_b,
            features_a,
            features_b,
            bindings_a,
            bindings_b,
            sources_a,
            sources_b,
        );
    }
}

/// The stage of a check after `statuses` were taken one after the other.
pub open spec fn gate_through(
    gate: Option<AgeState>,
    statuses: Seq<PathStatus>,
) -> Option<AgeState>
    decreases statuses.len(),
{
    if statuses.len() == 0 {
        gate
    } else {
        gate_through(gate_fed(gate, statuses[0]), statuses.drop_first())
    }
}

/// Whether each of `statuses` is what `world` has at the path that is to be
/// read when it is taken.
pub open spec fn true_to(
    world: spec_fn(Seq<Seq<char>>) -> AgeTree,
    gate: Option<AgeState>,
    statuses: Seq<PathStatus>,
) -> bool
    decreases statuses.len(),
{
    statuses.len() > 0 ==> {
        &&& gate matches Some(state)
        &&& state.verdict is None
        &&& state.pending.len() > 0
        &&& state.pending.last() matches Step::Path(path)
        &&& agrees(path, world(path), statuses[0])
        &&& true_to(world, gate_fed(gate, statuses[0]), statuses.drop_first())
    }
}

proof fn lemma_gate_keeps_its_end(
    world: spec_fn(Seq<Seq<char>>) -> AgeTree,
    gate: Option<AgeState>,
    statuses: Seq<PathStatus>,
)
    requires
        consistent(world),
        true_to(world, gate, statuses),
    ensures
        match gate {
            Some(state) => gate_through(gate, statuses) is Some && search_end(
                world,
                gate_through(gate, statuses)->0,
            ) == search_end(world, state),
            None => gate_through(gate, statuses) is None,
        },
    decreases statuses.len(),
{
    if statuses.len() > 0 {
        let state = gate->0;
        law_search_keeps_its_end(world, state, state.pending.last()->Path_0, statuses[0]);
        lemma_gate_keeps_its_end(world, gate_fed(gate, statuses[0]), statuses.drop_first());
    }
}

/// A check that has an answer answers that archives are fresh if and only if the
/// stored stamp is the expected one, both archives have a modification time, and
/// in no input is a file newer than the older archive or a path that cannot be
/// read.
pub proof fn law_answer_is_right(
    world: spec_fn(Seq<Seq<char>>) -> AgeTree,
    stamp: Option<Seq<char>>,
    expected: Seq<char>,
    runtime: PathStatus,
    stdlib: PathStatus,
    krates: Seq<Seq<char>>,
    statuses: Seq<PathStatus>,
)
    requires
        consistent(world),
        true_to(world, gate_start(stamp, expected, runtime, stdlib, krates), statuses),
        gate_verdict(
            gate_through(gate_start(stamp, expected, runtime, stdlib, krates), statuses),
        ) is Some,
    ensures
        ({
            let start = gate_start(stamp, expected, runtime, stdlib, krates);
            gate_verdict(gate_through(start, statuses)) == Some(
                start is Some && forall|i: int|
                    0 <= i < archive_inputs(krates).len() ==> newer_than(
                        world(#[trigger] archive_inputs(krates)[i]),
                        start->0.limit,
                    ) == Verdict::Older,
            )
        }),
        gate_start(stamp, expected, runtime, stdlib, krates) is Some <==> stamp == Some(expected)
            && archive_time(runtime) is Ok && archive_time(stdlib) is Ok,
{
    law_gate_decides_freshness(world, stamp, expected, runtime, stdlib, krates);
    lemma_gate_keeps_its_end(
        world,
        gate_start(stamp, expected, runtime, stdlib, krates),
        statuses,
    );
}

/// Archives whose stamp was made from other files than those at hand never pass,
/// unless the two streams of bytes that are hashed collide.
pub proof fn law_fresh_archives_have_these_sources(
    key_a: Seq<char>,
    key_b: Seq<char>,
    target_a: Option<Seq<char>>,
    target_b: Option<Seq<char>>,
    triple_a: Option<Seq<char>>,
    triple_b: Option<Seq<char>>,
    features_a: Seq<Seq<char>>,
    features_b: Seq<Seq<char>>,
    bindings_a: Seq<Binding>,
    bindings_b: Seq<Binding>,
    files_a: Seq<(Seq<char>, source_walk::Content)>,
    files_b: Seq<(Seq<char>, source_walk::Content)>,
    runtime: PathStatus,
    stdlib: PathStatus,
    krates: Seq<Seq<char>>,
)
    requires
        forall|i: int| 0 <= i < files_a.len() ==> source_walk::recordable(#[trigger] files_a[i]),
        forall|i: int| 0 <= i < files_b.len() ==> source_walk::recordable(#[trigger] files_b[i]),
    ensures
        ({
            ||| files_a == files_b
            ||| fingerprint::collide(sources::sources_stream(files_a), sources::sources_stream(files_b))
            ||| gate_verdict(
                gate_start(
                    Some(
                        stamp::build_stamp(
                            key_a,
                            target_a,
                            triple_a,
                            features_a,
                            bindings_a,
                            sources::sources_fingerprint(files_a),
                        ),
                    ),
                    stamp::build_stamp(
                        key_b,
                        target_b,
                        triple_b,
                        features_b,
                        bindings_b,
                        sources::sources_fingerprint(files_b),
                    ),
                    runtime,
                    stdlib,
                    krates,
                ),
            ) == Some(false)
        }),
{
    let a = sources::sources_stream(files_a);
    let b = sources::sources_stream(files_b);
    if sources::sources_fingerprint(files_a) == sources::sources_fingerprint(files_b) {
        sources::law_fingerprint_identifies_the_files(files_a, files_b);
    } else {
        fingerprint::law_fingerprint_fits_a_line(fingerprint::sha256(a)@);
        fingerprint::law_fingerprint_fits_a_line(fingerprint::sha256(b)@);
        law_changed_sources_are_stale(
            key_a,
            key_b,
            target_a,
            target_b,
            triple_a,
            triple_b,
            features_a,
            features_b,
            bindings_a,
            bindings_b,
            sources::sources_fingerprint(files_a),
            sources::sources_fingerprint(files_b),
            runtime,
            stdlib,
            krates,
        );
    }
}

/// The search for newer files goes through the entries of a directory that the
/// fingerprint covers, and through no others.
pub proof fn law_search_and_fingerprint_see_the_same_entries(
    path: Seq<Seq<char>>,
    items: Seq<DirItem>,
)
    ensures
        listing_steps(path, items).filter(|s: Step| s is Path) == listing::visible_names(
            items,
        ).map_values(|name: Seq<char>| Step::Path(path.push(name))),
    decreases items.len(),
{
    broadcast use Seq::lemma_filter_push;

    let is_path = |s: Step| s is Path;
    let to_step = |name: Seq<char>| Step::Path(path.push(name));
    if items.len() == 0 {
        assert(listing_steps(path, items).filter(is_path) =~= Seq::empty());
        assert(listing::visible_names(items).map_values(to_step) =~= Seq::empty());
    } else {
        let rest = items.drop_last();
        law_search_and_fingerprint_see_the_same_entries(path, rest);
        let names = listing::visible_names(rest);
        match items.last() {
            DirItem::Name(name) => {
                assert(names.push(name@).map_values(to_step) =~= names.map_values(to_step).push(
                    to_step(name@),
                ));
            },
            _ => {},
        }
    }
}

/// A directory holds nothing newer and nothing that cannot be read if and only if
/// that holds of each of its entries, so that their order does not matter.
pub proof fn law_directory_is_old_as_its_entries_are(entries: Seq<AgeEntry>, limit: int)
    ensures
        entries_newer_than(entries, limit) == Verdict::Older <==> forall|i: int|
            0 <= i < entries.len() ==> (#[trigger] entries[i]) is Child && newer_than(
                entries[i]->Child_1,
                limit,
            ) == Verdict::Older,
    decreases entries.len(),
{
    if entries.len() > 0 {
        let rest = entries.drop_first();
        law_directory_is_old_as_its_entries_are(rest, limit);
        assert forall|i: int| 0 <= i < rest.len() implies rest[i] == #[trigger] entries[i + 1] by {}
        if entries_newer_than(entries, limit) == Verdict::Older {
            assert forall|i: int| 0 <= i < entries.len() implies (#[trigger] entries[i]) is Child
                && newer_than(entries[i]->Child_1, limit) == Verdict::Older by {
                if i > 0 {
                    assert(rest[i - 1] == entries[i]);
                }
            }
        }
        if forall|i: int|
            0 <= i < entries.len() ==> (#[trigger] entries[i]) is Child && newer_than(
                entries[i]->Child_1,
                limit,
            ) == Verdict::Older {
            assert(entries[0] is Child);
            assert forall|i: int| 0 <= i < rest.len() implies (#[trigger] rest[i]) is Child
                && newer_than(rest[i]->Child_1, limit) == Verdict::Older by {
                assert(rest[i] == entries[i + 1]);
            }
        }
    }
}

/// The number of paths and faults that a search through `tree` can come to.
pub open spec fn age_count(tree: AgeTree) -> nat
    decreases tree,
{
    match tree {
        AgeTree::Directory(Some(entries)) => 1 + age_entries_count(entries),
        _ => 1,
    }
}

/// The number of paths and faults that a search can come to in the entries of a
/// directory.
pub open spec fn age_entries_count(entries: Seq<AgeEntry>) -> nat
    decreases entries,
{
    if entries.len() == 0 {
        0
    } else {
        (match entries[0] {
            AgeEntry::Child(_, tree) => age_count(tree),
            AgeEntry::Fault => 1,
        }) + age_entries_count(entries.drop_first())
    }
}

/// The number of paths and faults that a search with these steps to be done can
/// come to.
pub open spec fn steps_count(
    world: spec_fn(Seq<Seq<char>>) -> AgeTree,
    steps: Seq<Step>,
) -> nat
    decreases steps.len(),
{
    if steps.len() == 0 {
        0
    } else {
        (match steps[0] {
            Step::Path(path) => age_count(world(path)),
            Step::Fault => 1,
        }) + steps_count(world, steps.drop_first())
    }
}

/// The number of paths and faults under the inputs of archives.
pub open spec fn inputs_count(
    world: spec_fn(Seq<Seq<char>>) -> AgeTree,
    krates: Seq<Seq<char>>,
) -> nat {
    steps_count(world, archive_inputs(krates).map_values(|p: Seq<Seq<char>>| Step::Path(p)))
}

proof fn lemma_steps_count_add(
    world: spec_fn(Seq<Seq<char>>) -> AgeTree,
    a: Seq<Step>,
    b: Seq<Step>,
)
    ensures
        steps_count(world, a + b) == steps_count(world, a) + steps_count(world, b),
    decreases a.len(),
{
    if a.len() == 0 {
        assert(a + b =~= b);
    } else {
        lemma_steps_count_add(world, a.drop_first(), b);
        assert((a + b).drop_first() =~= a.drop_first() + b);
        assert((a + b)[0] == a[0]);
    }
}

proof fn lemma_entries_count(
    world: spec_fn(Seq<Seq<char>>) -> AgeTree,
    path: Seq<Seq<char>>,
    k: int,
)
    requires
        consistent(world),
        world(path) is Directory,
        world(path)->Directory_0 is Some,
        0 <= k <= world(path)->Directory_0->0.len(),
    ensures
        ({
            let entries = world(path)->Directory_0->0;
            let steps = entries.map_values(|e: AgeEntry| entry_step(path, e));
            steps_count(world, steps.skip(k)) == age_entries_count(entries.skip(k))
        }),
    decreases world(path)->Directory_0->0.len() - k,
{
    let entries = world(path)->Directory_0->0;
    let steps = entries.map_values(|e: AgeEntry| entry_step(path, e));
    if k < entries.len() {
        lemma_entries_count(world, path, k + 1);
        assert(steps.skip(k).drop_first() =~= steps.skip(k + 1));
        assert(entries.skip(k).drop_first() =~= entries.skip(k + 1));
        assert(steps.skip(k)[0] == entry_step(path, entries[k]));
        assert(entries.skip(k)[0] == world(path)->Directory_0->0[k]);
    }
}

proof fn lemma_search_counts(
    world: spec_fn(Seq<Seq<char>>) -> AgeTree,
    state: AgeState,
    path: Seq<Seq<char>>,
    status: PathStatus,
)
    requires
        consistent(world),
        state.verdict is None,
        state.pending.len() > 0,
        state.pending.last() == Step::Path(path),
        agrees(path, world(path), status),
    ensures
        searched(state, status).verdict is None ==> {
            &&& searched(state, status).pending.len() > 0
            &&& steps_count(world, searched(state, status).pending.reverse()) + 1 == steps_count(
                world,
                state.pending.reverse(),
            )
        },
        steps_count(world, state.pending.reverse()) > 0,
{
    let rest = state.pending.drop_last();
    assert(state.pending.reverse() =~= seq![Step::Path(path)] + rest.reverse());
    assert((seq![Step::Path(path)] + rest.reverse()).drop_first() =~= rest.reverse());
    assert(age_count(world(path)) > 0);
    match status {
        PathStatus::Directory(Some(items)) => {
            let after = listing_steps(path, items@);
            let entries = world(path)->Directory_0->0;
            assert((rest + after.reverse()).reverse() =~= after + rest.reverse());
            lemma_steps_count_add(world, after, rest.reverse());
            lemma_entries_count(world, path, 0);
            assert(after.skip(0) =~= after);
            assert(entries.skip(0) =~= entries);
        },
        _ => {},
    }
}

proof fn lemma_gate_counts(
    world: spec_fn(Seq<Seq<char>>) -> AgeTree,
    gate: Option<AgeState>,
    statuses: Seq<PathStatus>,
)
    requires
        consistent(world),
        true_to(world, gate, statuses),
        gate is Some,
        gate->0.verdict is None ==> gate->0.pending.len() > 0,
    ensures
        gate_through(gate, statuses) is Some,
        ({
            let last = gate_through(gate, statuses)->0;
            let total = steps_count(world, gate->0.pending.reverse());
            &&& statuses.len() <= total
            &&& last.verdict is None ==> last.pending.len() > 0 && steps_count(
                world,
                last.pending.reverse(),
            ) + statuses.len() == total
        }),
    decreases statuses.len(),
{
    if statuses.len() > 0 {
        let state = gate->0;
        let next = gate_fed(gate, statuses[0]);
        lemma_search_counts(world, state, state.pending.last()->Path_0, statuses[0]);
        let rest = statuses.drop_first();
        assert(true_to(world, next, rest));
        if next->0.verdict is Some {
            assert(rest.len() == 0);
            assert(gate_through(next, rest) == next);
        } else {
            lemma_gate_counts(world, next, statuses.drop_first());
        }
    }
}

/// A check ends: it reads no more paths than there are under the inputs of the
/// archives, and has an answer by the time it has read that many.
pub proof fn law_check_ends(
    world: spec_fn(Seq<Seq<char>>) -> AgeTree,
    stamp: Option<Seq<char>>,
    expected: Seq<char>,
    runtime: PathStatus,
    stdlib: PathStatus,
    krates: Seq<Seq<char>>,
    statuses: Seq<PathStatus>,
)
    requires
        consistent(world),
        true_to(world, gate_start(stamp, expected, runtime, stdlib, krates), statuses),
    ensures
        statuses.len() <= inputs_count(world, krates),
        statuses.len() == inputs_count(world, krates) ==> gate_verdict(
            gate_through(gate_start(stamp, expected, runtime, stdlib, krates), statuses),
        ) is Some,
{
    let gate = gate_start(stamp, expected, runtime, stdlib, krates);
    if gate is Some {
        let steps = archive_inputs(krates).map_values(|p: Seq<Seq<char>>| Step::Path(p));
        assert(gate->0.pending == steps.reverse());
        assert(steps.reverse().reverse() =~= steps);
        lemma_gate_counts(world, gate, statuses);
        let left = gate_through(gate, statuses)->0.pending.reverse();
        if left.len() > 0 {
            if let Step::Path(path) = left[0] {
                assert(age_count(world(path)) > 0);
            }
        }
    } else {
        assert(statuses.len() == 0);
    }
}

/// The modification time of an archive is that of the file; what is no file has
/// none, nor has a path of which it cannot be told.
pub proof fn law_time_of_an_archive(status: PathStatus)
    ensures
        match archive_time(status) {
            Ok(time) => status == PathStatus::File(Some(time)),
            Err(ArchiveError::NotAFile) => status is Directory || status is Other,
            Err(ArchiveError::Unavailable) => status is Unavailable || status == PathStatus::File(
                None,
            ),
        },
{
}

/// The paths of a list of joined names are those of all its lists, one by one.
pub proof fn law_path_views_show_every_path(paths: Seq<Vec<String>>)
    ensures
        path_views(paths).len() == paths.len(),
        forall|i: int|
            0 <= i < paths.len() ==> (#[trigger] path_views(paths)[i]).len() == paths[i]@.len(),
        forall|i: int, j: int|
            0 <= i < paths.len() && 0 <= j < paths[i]@.len() ==> (#[trigger] path_views(
                paths,
            )[i][j]) == paths[i]@[j]@,
{
}

/// Whether `names` lead from `path` through directories that list each of them,
/// and none is `target` or `.git`.
pub open spec fn listed_at(
    world: spec_fn(Seq<Seq<char>>) -> PathStatus,
    path: Seq<Seq<char>>,
    names: Seq<Seq<char>>,
) -> bool
    decreases names.len(),
{
    names.len() > 0 ==> {
        &&& world(path) is Directory
        &&& world(path)->Directory_0 is Some
        &&& listing::lists_name(world(path)->Directory_0->0@, names[0])
        &&& names[0] != "target"@
        &&& names[0] != ".git"@
        &&& listed_at(world, path.push(names[0]), names.drop_first())
    }
}

/// Whether what is found out about a path speaks against archives of this time:
/// nothing, no time of a file or a newer one, no listing of a directory or one
/// with a step that failed.
pub open spec fn speaks_against(status: PathStatus, limit: int) -> bool {
    match status {
        PathStatus::Unavailable => true,
        PathStatus::File(time) => time is None || time->0 > limit,
        PathStatus::Directory(items) => items is None || exists|i: int|
            0 <= i < items->0@.len() && (#[trigger] items->0@[i]) is Failed,
        PathStatus::Other => false,
    }
}

/// Whether each of `statuses` is what `world` has at the path that is to be read
/// when it is taken.
pub open spec fn reads(
    world: spec_fn(Seq<Seq<char>>) -> PathStatus,
    gate: Option<AgeState>,
    statuses: Seq<PathStatus>,
) -> bool
    decreases statuses.len(),
{
    statuses.len() > 0 ==> {
        &&& gate matches Some(state)
        &&& state.verdict is None
        &&& state.pending.len() > 0
        &&& state.pending.last() matches Step::Path(path)
        &&& statuses[0] == world(path)
        &&& reads(world, gate_fed(gate, statuses[0]), statuses.drop_first())
    }
}

proof fn lemma_listing_step(path: Seq<Seq<char>>, items: Seq<DirItem>, name: Seq<char>)
    requires
        listing::lists_name(items, name),
        name != "target"@,
        name != ".git"@,
    ensures
        listing_steps(path, items).contains(Step::Path(path.push(name))),
    decreases items.len(),
{
    let step = Step::Path(path.push(name));
    let rest = items.drop_last();
    let before = listing_steps(path, rest);
    let all = listing_steps(path, items);
    let i = choose|i: int|
        0 <= i < items.len() && (#[trigger] items[i]) is Name && items[i]->Name_0@ == name;
    if i < rest.len() {
        assert(rest[i] == items[i]);
        lemma_listing_step(path, rest, name);
        assert(all[before.index_of(step)] == step);
    } else {
        assert(all[before.len() as int] == step);
    }
}

proof fn lemma_fault_step(path: Seq<Seq<char>>, items: Seq<DirItem>, i: int)
    requires
        0 <= i < items.len(),
        items[i] is Failed,
    ensures
        listing_steps(path, items).contains(Step::Fault),
    decreases items.len(),
{
    let rest = items.drop_last();
    let before = listing_steps(path, rest);
    let all = listing_steps(path, items);
    if i < rest.len() {
        assert(rest[i] == items[i]);
        lemma_fault_step(path, rest, i);
        assert(all[before.index_of(Step::Fault)] == Step::Fault);
    } else {
        assert(all[before.len() as int] == Step::Fault);
    }
}

proof fn lemma_step_of_listing(path: Seq<Seq<char>>, items: Seq<DirItem>, j: int) -> (i: int)
    requires
        0 <= j < listing_steps(path, items).len(),
    ensures
        0 <= i < items.len(),
        match listing_steps(path, items)[j] {
            Step::Fault => items[i] is Failed,
            Step::Path(p) => items[i] is Name && p == path.push(items[i]->Name_0@)
                && items[i]->Name_0@ != "target"@ && items[i]->Name_0@ != ".git"@,
        },
    decreases items.len(),
{
    let rest = items.drop_last();
    let before = listing_steps(path, rest);
    let all = listing_steps(path, items);
    if j < before.len() {
        assert(all[j] == before[j]);
        let i = lemma_step_of_listing(path, rest, j);
        assert(rest[i] == items[i]);
        i
    } else {
        items.len() - 1
    }
}

/// A listing is searched item by item, in its order: a name leads to its path,
/// unless it is `target` or `.git`, and a step that failed to a fault.
pub proof fn law_listing_is_searched_item_by_item(
    path: Seq<Seq<char>>,
    items: Seq<DirItem>,
    item: DirItem,
)
    ensures
        listing_steps(path, Seq::empty()).len() == 0,
        listing_steps(path, items.push(item)) == listing_steps(path, items) + (match item {
            DirItem::Name(name) => if name@ == "target"@ || name@ == ".git"@ {
                Seq::<Step>::empty()
            } else {
                seq![Step::Path(path.push(name@))]
            },
            DirItem::NotUnicode => Seq::<Step>::empty(),
            DirItem::Failed => seq![Step::Fault],
        }),
{
    assert(items.push(item).drop_last() =~= items);
    let before = listing_steps(path, items);
    assert(before + Seq::<Step>::empty() =~= before);
    assert(listing_steps(path, items.push(item)) =~= before + (match item {
        DirItem::Name(name) => if name@ == "target"@ || name@ == ".git"@ {
            Seq::<Step>::empty()
        } else {
            seq![Step::Path(path.push(name@))]
        },
        DirItem::NotUnicode => Seq::<Step>::empty(),
        DirItem::Failed => seq![Step::Fault],
    }));
}

spec fn is_settled(state: AgeState) -> bool {
    state == settled(state.limit, state.pending)
}

proof fn lemma_next(
    world: spec_fn(Seq<Seq<char>>) -> PathStatus,
    state: AgeState,
    statuses: Seq<PathStatus>,
)
    requires
        statuses.len() > 0,
        reads(world, Some(state), statuses),
    ensures
        ({
            let next = searched(state, statuses[0]);
            let rest = statuses.drop_first();
            &&& gate_fed(Some(state), statuses[0]) == Some(next)
            &&& gate_through(Some(state), statuses) == gate_through(Some(next), rest)
            &&& next.limit == state.limit
            &&& next.verdict is Some ==> rest.len() == 0 && gate_through(Some(next), rest) == Some(
                next,
            )
        }),
{
    let next = searched(state, statuses[0]);
    let rest = statuses.drop_first();
    assert(reads(world, Some(next), rest));
    if next.verdict is Some {
        assert(rest.len() == 0);
        assert(gate_through(Some(next), rest) == Some(next));
    }
}

proof fn lemma_fault_is_found(
    world: spec_fn(Seq<Seq<char>>) -> PathStatus,
    state: AgeState,
    statuses: Seq<PathStatus>,
    k: int,
)
    requires
        is_settled(state),
        reads(world, Some(state), statuses),
        0 <= k < state.pending.len(),
        state.pending[k] is Fault,
    ensures
        gate_through(Some(state), statuses) is Some,
        gate_through(Some(state), statuses)->0.verdict != Some(Verdict::Older),
    decreases statuses.len(),
{
    if statuses.len() > 0 {
        let next = searched(state, statuses[0]);
        lemma_next(world, state, statuses);
        if next.verdict is None || next.verdict == Some(Verdict::Older) {
            assert(k < state.pending.len() - 1);
            assert(next.pending[k] == state.pending[k]);
            lemma_fault_is_found(world, next, statuses.drop_first(), k);
        }
    }
}

proof fn lemma_nothing_speaks_against(
    world: spec_fn(Seq<Seq<char>>) -> PathStatus,
    state: AgeState,
    statuses: Seq<PathStatus>,
    k: int,
    names: Seq<Seq<char>>,
)
    requires
        is_settled(state),
        reads(world, Some(state), statuses),
        gate_through(Some(state), statuses) is Some,
        gate_through(Some(state), statuses)->0.verdict == Some(Verdict::Older),
        0 <= k < state.pending.len(),
        state.pending[k] is Path,
        listed_at(world, state.pending[k]->Path_0, names),
    ensures
        !speaks_against(world(state.pending[k]->Path_0 + names), state.limit),
    decreases statuses.len(),
{
    let path = state.pending[k]->Path_0;
    if statuses.len() > 0 {
        let status = statuses[0];
        let next = searched(state, status);
        let rest = statuses.drop_first();
        lemma_next(world, state, statuses);
        if k < state.pending.len() - 1 {
            assert(next.pending[k] == state.pending[k]);
            lemma_nothing_speaks_against(world, next, rest, k, names);
        } else if names.len() == 0 {
            assert(path + names =~= path);
            if speaks_against(status, state.limit) && status is Directory {
                let items = status->Directory_0->0@;
                let i = choose|i: int| 0 <= i < items.len() && (#[trigger] items[i]) is Failed;
                lemma_fault_step(path, items, i);
                let steps = listing_steps(path, items);
                let j = steps.index_of(Step::Fault);
                let at = state.pending.len() - 1 + (steps.len() - 1 - j);
                assert(next.pending[at] == steps.reverse()[steps.len() - 1 - j]);
                lemma_fault_is_found(world, next, rest, at);
            }
        } else {
            let items = status->Directory_0->0@;
            let steps = listing_steps(path, items);
            let step = Step::Path(path.push(names[0]));
            lemma_listing_step(path, items, names[0]);
            let j = steps.index_of(step);
            let at = state.pending.len() - 1 + (steps.len() - 1 - j);
            assert(next.pending[at] == steps.reverse()[steps.len() - 1 - j]);
            lemma_nothing_speaks_against(world, next, rest, at, names.drop_first());
            assert(path.push(names[0]) + names.drop_first() =~= path + names);
        }
    }
}

proof fn lemma_something_speaks_against(
    world: spec_fn(Seq<Seq<char>>) -> PathStatus,
    state: AgeState,
    statuses: Seq<PathStatus>,
) -> (r: (int, Seq<Seq<char>>))
    requires
        is_settled(state),
        reads(world, Some(state), statuses),
        gate_through(Some(state), statuses) is Some,
        gate_through(Some(state), statuses)->0.verdict is Some,
        gate_through(Some(state), statuses)->0.verdict != Some(Verdict::Older),
    ensures
        0 <= r.0 < state.pending.len(),
        state.pending[r.0] is Path ==> listed_at(world, state.pending[r.0]->Path_0, r.1)
            && speaks_against(world(state.pending[r.0]->Path_0 + r.1), state.limit),
    decreases statuses.len(),
{
    let last = state.pending.len() - 1;
    let none = Seq::<Seq<char>>::empty();
    if statuses.len() == 0 {
        (last, none)
    } else {
        let status = statuses[0];
        let next = searched(state, status);
        let rest = statuses.drop_first();
        let path = state.pending[last]->Path_0;
        lemma_next(world, state, statuses);
        assert(path + none =~= path);
        if speaks_against(status, state.limit) {
            (last, none)
        } else {
            let (k, names) = lemma_something_speaks_against(world, next, rest);
            if k < last {
                assert(next.pending[k] == state.pending[k]);
                (k, names)
            } else {
                let items = status->Directory_0->0@;
                let steps = listing_steps(path, items);
                let j = steps.len() - 1 - (k - last);
                assert(next.pending[k] == steps.reverse()[k - last]);
                assert(next.pending[k] == steps[j]);
                let i = lemma_step_of_listing(path, items, j);
                let name = items[i]->Name_0@;
                let all = seq![name] + names;
                assert(all.drop_first() =~= names);
                assert(listing::lists_name(items, name));
                assert(path.push(name) + names =~= path + all);
                (last, all)
            }
        }
    }
}

/// Whether `path` is one of what archives are built from: the workspace
/// manifests, the runtime, the stdlib, and the crate of every binding.
pub open spec fn is_input(krates: Seq<Seq<char>>, path: Seq<Seq<char>>) -> bool {
    ||| path == seq!["Cargo.toml"@]
    ||| path == seq!["Cargo.lock"@]
    ||| path == seq!["crates/perry-runtime"@]
    ||| path == seq!["crates/perry-stdlib"@]
    ||| exists|i: int| 0 <= i < krates.len() && path == seq!["crates"@, #[trigger] krates[i]]
}

/// The inputs of archives are the workspace manifests, the runtime, the stdlib,
/// and the crate of every binding, at whatever place it stands; and no others.
pub proof fn law_inputs_of_archives(krates: Seq<Seq<char>>, path: Seq<Seq<char>>)
    ensures
        archive_inputs(krates).contains(path) <==> is_input(krates, path),
{
    let all = archive_inputs(krates);
    assert(all[0] == seq!["Cargo.toml"@]);
    assert(all[1] == seq!["Cargo.lock"@]);
    assert(all[2] == seq!["crates/perry-runtime"@]);
    assert(all[3] == seq!["crates/perry-stdlib"@]);
    assert forall|i: int| 0 <= i < krates.len() implies #[trigger] all[i + 4] == seq![
        "crates"@,
        krates[i],
    ] by {}
    if all.contains(path) {
        let i = all.index_of(path);
        if i >= 4 {
            assert(all[(i - 4) + 4] == seq!["crates"@, krates[i - 4]]);
        }
    }
    if exists|i: int| 0 <= i < krates.len() && path == seq!["crates"@, #[trigger] krates[i]] {
        let i = choose|i: int|
            0 <= i < krates.len() && path == seq!["crates"@, #[trigger] krates[i]];
        assert(all[i + 4] == path);
    }
}

/// Archives that are found fresh are: their stamp is the expected one, both are
/// files with a time, and nothing below any input speaks against them. No file
/// there is newer than either archive, in the crate of no binding, and everything
/// could be read.
pub proof fn law_fresh_archives_are_newer_than_their_inputs(
    world: spec_fn(Seq<Seq<char>>) -> PathStatus,
    stamp: Option<Seq<char>>,
    expected: Seq<char>,
    runtime: PathStatus,
    stdlib: PathStatus,
    krates: Seq<Seq<char>>,
    statuses: Seq<PathStatus>,
    root: Seq<Seq<char>>,
    names: Seq<Seq<char>>,
)
    requires
        reads(world, gate_start(stamp, expected, runtime, stdlib, krates), statuses),
        gate_verdict(
            gate_through(gate_start(stamp, expected, runtime, stdlib, krates), statuses),
        ) == Some(true),
    ensures
        stamp == Some(expected),
        runtime is File && runtime->File_0 is Some,
        stdlib is File && stdlib->File_0 is Some,
        is_input(krates, root) && listed_at(world, root, names) ==> !speaks_against(
            world(root + names),
            runtime->File_0->0 as int,
        ) && !speaks_against(world(root + names), stdlib->File_0->0 as int),
{
    let gate = gate_start(stamp, expected, runtime, stdlib, krates);
    law_time_of_an_archive(runtime);
    law_time_of_an_archive(stdlib);
    if gate is None {
        lemma_no_gate(statuses);
    } else if is_input(krates, root) && listed_at(world, root, names) {
        let paths = archive_inputs(krates);
        let steps = paths.map_values(|p: Seq<Seq<char>>| Step::Path(p));
        law_inputs_of_archives(krates, root);
        let i = paths.index_of(root);
        let k = steps.len() - 1 - i;
        let state = gate->0;
        assert(state.pending == steps.reverse());
        assert(state.pending[k] == steps[i]);
        lemma_gate_stays(gate, statuses);
        lemma_nothing_speaks_against(world, state, statuses, k, names);
    }
}

proof fn lemma_no_gate(statuses: Seq<PathStatus>)
    ensures
        gate_through(None, statuses) is None,
    decreases statuses.len(),
{
    if statuses.len() > 0 {
        lemma_no_gate(statuses.drop_first());
    }
}

proof fn lemma_gate_stays(gate: Option<AgeState>, statuses: Seq<PathStatus>)
    requires
        gate is Some,
    ensures
        gate_through(gate, statuses) is Some,
    decreases statuses.len(),
{
    if statuses.len() > 0 {
        lemma_gate_stays(gate_fed(gate, statuses[0]), statuses.drop_first());
    }
}

/// Archives that are not found fresh are not: the stamp is another, an archive has
/// no time, or below some input something speaks against the older archive.
pub proof fn law_stale_archives_have_a_reason(
    world: spec_fn(Seq<Seq<char>>) -> PathStatus,
    stamp: Option<Seq<char>>,
    expected: Seq<char>,
    runtime: PathStatus,
    stdlib: PathStatus,
    krates: Seq<Seq<char>>,
    statuses: Seq<PathStatus>,
) -> (reason: (Seq<Seq<char>>, Seq<Seq<char>>))
    requires
        reads(world, gate_start(stamp, expected, runtime, stdlib, krates), statuses),
        gate_verdict(
            gate_through(gate_start(stamp, expected, runtime, stdlib, krates), statuses),
        ) == Some(false),
    ensures
        ({
            ||| stamp != Some(expected)
            ||| !(runtime is File && runtime->File_0 is Some)
            ||| !(stdlib is File && stdlib->File_0 is Some)
            ||| {
                &&& is_input(krates, reason.0)
                &&& listed_at(world, reason.0, reason.1)
                &&& speaks_against(
                    world(reason.0 + reason.1),
                    if runtime->File_0->0 <= stdlib->File_0->0 {
                        runtime->File_0->0 as int
                    } else {
                        stdlib->File_0->0 as int
                    },
                )
            }
        }),
{
    let gate = gate_start(stamp, expected, runtime, stdlib, krates);
    law_time_of_an_archive(runtime);
    law_time_of_an_archive(stdlib);
    if gate is Some {
        let paths = archive_inputs(krates);
        let steps = paths.map_values(|p: Seq<Seq<char>>| Step::Path(p));
        let state = gate->0;
        assert(state.pending == steps.reverse());
        lemma_gate_stays(gate, statuses);
        let (k, names) = lemma_something_speaks_against(world, state, statuses);
        let i = steps.len() - 1 - k;
        assert(state.pending[k] == steps[i]);
        let root = paths[i];
        assert(paths.contains(root));
        law_inputs_of_archives(krates, root);
        (root, names)
    } else {
        (Seq::empty(), Seq::empty())
    }
}

/// The search takes its paths in their order, and is at its end where there is
/// none.
pub proof fn law_search_starts_at_its_paths(paths: Seq<Seq<Seq<char>>>, limit: int)
    ensures
        ({
            let start = search_start(paths, limit);
            &&& start.limit == limit
            &&& start.pending.len() == paths.len()
            &&& forall|i: int|
                0 <= i < paths.len() ==> start.pending[paths.len() - 1 - i] == Step::Path(
                    #[trigger] paths[i],
                )
            &&& start.verdict == if paths.len() == 0 {
                Some(Verdict::Older)
            } else {
                None
            }
        }),
{
    let steps = paths.map_values(|p: Seq<Seq<char>>| Step::Path(p));
    assert forall|i: int| 0 <= i < paths.len() implies search_start(paths, limit).pending[
    paths.len() - 1 - i] == Step::Path(#[trigger] paths[i]) by {
        assert(steps.reverse()[paths.len() - 1 - i] == steps[i]);
    }
    if paths.len() > 0 {
        assert(steps.reverse().last() == steps[0]);
    }
}

/// What the next path turns out to be decides how the search goes on: it fails
/// where nothing can be told, ends at a newer file, passes over an older one and
/// what is neither file nor directory, and goes on with what a directory lists,
/// before what was pending before it.
pub proof fn law_step_of_the_search(state: AgeState, path: Seq<Seq<char>>, status: PathStatus)
    requires
        state.verdict is None,
        state.pending.len() > 0,
        state.pending.last() == Step::Path(path),
    ensures
        ({
            let next = searched(state, status);
            let rest = state.pending.drop_last();
            &&& next.limit == state.limit
            &&& match status {
                PathStatus::Unavailable => next.verdict == Some(Verdict::Failed),
                PathStatus::File(None) => next.verdict == Some(Verdict::Failed),
                PathStatus::File(Some(time)) => if time > state.limit {
                    next.verdict == Some(Verdict::Newer)
                } else {
                    next.pending == rest && next.verdict != Some(Verdict::Newer)
                },
                PathStatus::Directory(None) => next.verdict == Some(Verdict::Failed),
                PathStatus::Directory(Some(items)) => next.pending == rest + listing_steps(
                    path,
                    items@,
                ).reverse() && next.verdict != Some(Verdict::Newer),
                PathStatus::Other => next.pending == rest && next.verdict != Some(Verdict::Newer),
            }
            &&& next.verdict == Some(Verdict::Older) ==> next.pending.len() == 0
            &&& next.verdict is None ==> next.pending.len() > 0 && next.pending.last() is Path
            &&& next.verdict == Some(Verdict::Failed) ==> next.pending.len() > 0
        }),
{
}

} // verus!
