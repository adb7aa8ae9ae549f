//! The walk over the source trees that a fingerprint covers.
use crate::listing;
use crate::listing::{visible, DirItem};
use crate::name_set;
use crate::name_set::NameSet;
use crate::text;
use crate::text::{clone_names, sort_names};
use vstd::prelude::*;
use vstd::utf8::encode_utf8;

verus! {

/// What is found at a path: nothing, a file that cannot be read, the bytes of
/// a file, the listing of a directory, or something else (a directory that
/// cannot be listed among it).
pub enum Reading {
    Missing,
    Unreadable,
    File(Vec<u8>),
    Directory(Vec<DirItem>),
    Unlisted,
}

/// What a fingerprint records of a file.
pub enum Content {
    Missing,
    Unreadable,
    File(Seq<u8>),
}

/// The bytes that record a file under its label.
pub open spec fn record(label: Seq<char>, content: Content) -> Seq<u8> {
    match content {
        Content::Missing => encode_utf8(label) + encode_utf8("\0missing\0"@),
        Content::Unreadable => encode_utf8(label) + encode_utf8("\0"@) + encode_utf8(
            "unreadable\0"@,
        ),
        Content::File(bytes) => encode_utf8(label) + encode_utf8("\0"@)
            + vstd::bytes::spec_u64_to_le_bytes(bytes.len() as u64) + bytes,
    }
}

/// The bytes that a path adds by itself.
pub open spec fn own_bytes(label: Seq<char>, reading: Reading) -> Seq<u8> {
    match reading {
        Reading::Missing => record(label, Content::Missing),
        Reading::Unreadable => record(label, Content::Unreadable),
        Reading::File(bytes) => record(label, Content::File(bytes@)),
        Reading::Directory(_) => Seq::empty(),
        Reading::Unlisted => Seq::empty(),
    }
}

/// A path to be read, as the names to be joined to the workspace root one after
/// the other, and the label that stands for it in the fingerprint.
pub struct NodeView {
    pub label: Seq<char>,
    pub path: Seq<Seq<char>>,
}

/// The node of the entry `name` in the directory `node`.
pub open spec fn child(node: NodeView, name: Seq<char>) -> NodeView {
    NodeView { label: node.label + "/"@ + name, path: node.path.push(name) }
}

/// The nodes of the entries of a directory.
pub open spec fn children(node: NodeView, names: Seq<Seq<char>>) -> Seq<NodeView> {
    names.map_values(|name: Seq<char>| child(node, name))
}

/// The nodes that a path leads to: the visible entries of a directory in the
/// order of their names.
pub open spec fn successors(node: NodeView, reading: Reading) -> Seq<NodeView> {
    match reading {
        Reading::Directory(items) => children(
            node,
            text::sorted_texts(listing::visible_names(items@)),
        ),
        _ => Seq::empty(),
    }
}

/// A stage of the walk: the bytes gathered, and the nodes to be read. The last
/// of these is read next.
pub struct WalkState {
    pub stream: Seq<u8>,
    pub pending: Seq<NodeView>,
}

/// The stage after the next node was read.
pub open spec fn walked(state: WalkState, reading: Reading) -> WalkState {
    if state.pending.len() == 0 {
        state
    } else {
        let node = state.pending.last();
        WalkState {
            stream: state.stream + own_bytes(node.label, reading),
            pending: state.pending.drop_last() + successors(node, reading).reverse(),
        }
    }
}

/// The nodes at which the walk starts: the workspace manifests, then the
/// crates.
pub open spec fn roots(crates: Seq<Seq<char>>) -> Seq<NodeView> {
    seq![
        NodeView { label: "Cargo.toml"@, path: seq!["Cargo.toml"@] },
        NodeView { label: "Cargo.lock"@, path: seq!["Cargo.lock"@] },
    ] + crates.map_values(
        |name: Seq<char>| NodeView { label: "crates/"@ + name, path: seq!["crates"@, name] },
    )
}

/// The bytes that start every stream.
pub open spec fn stream_header() -> Seq<u8> {
    encode_utf8("perry-auto-src-v1\0"@)
}

/// The stage at which the walk starts.
pub open spec fn walk_start(crates: Set<Seq<char>>) -> WalkState {
    WalkState {
        stream: stream_header(),
        pending: roots(name_set::in_order(crates)).reverse(),
    }
}

/// A path to be read, and its label.
struct SourceNode {
    label: String,
    path: Vec<String>,
}

spec fn node_view(n: SourceNode) -> NodeView {
    NodeView { label: n.label@, path: text::views(n.path@) }
}

spec fn node_views(s: Seq<SourceNode>) -> Seq<NodeView> {
    s.map_values(|n: SourceNode| node_view(n))
}

/// The walk over the workspace manifests and the source trees of the crates
/// that land in the auto-optimized archives.
pub struct SourceWalk {
    stream: Vec<u8>,
    pending: Vec<SourceNode>,
}

impl View for SourceWalk {
    type V = WalkState;

    closed spec fn view(&self) -> WalkState {
        WalkState { stream: self.stream@, pending: node_views(self.pending@) }
    }
}

/// Adds the bytes of `text` to `stream`.
fn push_text(stream: &mut Vec<u8>, text: &str)
    ensures
        final(stream)@ == old(stream)@ + encode_utf8(text@),
{
    push_bytes(stream, text.as_bytes());
}

/// Adds `bytes` to `stream`.
fn push_bytes(stream: &mut Vec<u8>, bytes: &[u8])
    ensures
        final(stream)@ == old(stream)@ + bytes@,
{
    stream.extend_from_slice(bytes);
    proof {
        assert(stream@ =~= old(stream)@ + bytes@);
    }
}

/// The node of a file in the workspace root.
fn top_level(name: &str) -> (r: SourceNode)
    ensures
        node_view(r) == (NodeView { label: name@, path: seq![name@] }),
{
    let mut path: Vec<String> = Vec::new();
    path.push(name.to_owned());
    let r = SourceNode { label: name.to_owned(), path };
    proof {
        assert(text::views(r.path@) =~= seq![name@]);
    }
    r
}

impl SourceWalk {
    /// Starts the walk over the workspace manifests and `crates`.
    pub fn new(crates: &NameSet) -> (r: SourceWalk)
        ensures
            r@ == walk_start(crates@),
    {
        let mut stream: Vec<u8> = Vec::new();
        push_text(&mut stream, "perry-auto-src-v1\0");
        let names = crates.names();
        let ghost all = roots(text::views(names@));
        let mut pending: Vec<SourceNode> = Vec::new();
        let mut left: usize = names.len();
        proof {
            assert(stream@ =~= stream_header());
            assert(node_views(pending@) =~= all.skip(left + 2).reverse());
        }
        while left > 0
            invariant
                left <= names@.len(),
                all == roots(text::views(names@)),
                node_views(pending@) == all.skip(left + 2).reverse(),
            decreases left,
        {
            left = left - 1;
            let ghost before = node_views(pending@);
            let label = "crates/".to_owned().concat(names[left].as_str());
            let mut path: Vec<String> = Vec::new();
            path.push("crates".to_owned());
            path.push(names[left].clone());
            let node = SourceNode { label, path };
            proof {
                assert(text::views(node.path@) =~= seq!["crates"@, names@[left as int]@]);
                assert(node_view(node) == all[left + 2]);
            }
            pending.push(node);
            proof {
                assert(node_views(pending@) =~= before.push(all[left + 2]));
                assert(node_views(pending@) =~= all.skip(left + 2).reverse());
            }
        }
        let ghost before = node_views(pending@);
        pending.push(top_level("Cargo.lock"));
        pending.push(top_level("Cargo.toml"));
        proof {
            assert(node_views(pending@) =~= before.push(all[1]).push(all[0]));
            assert(node_views(pending@) =~= all.reverse());
        }
        SourceWalk { stream, pending }
    }

    /// The path to be read next, as the names to be joined to the workspace
    /// root one after the other; nothing when the walk is done.
    pub fn next_path(&self) -> (r: Option<&Vec<String>>)
        ensures
            match r {
                Some(path) => self@.pending.len() > 0 && text::views(path@)
                    == self@.pending.last().path,
                None => self@.pending.len() == 0,
            },
    {
        let n: usize = self.pending.len();
        if n == 0 {
            None
        } else {
            Some(&self.pending[n - 1].path)
        }
    }

    /// The bytes gathered.
    pub fn stream(&self) -> (r: &Vec<u8>)
        ensures
            r@ == self@.stream,
    {
        &self.stream
    }

    /// Takes what was found at the path to be read next.
    pub fn feed(&mut self, reading: Reading)
        ensures
            final(self)@ == walked(old(self)@, reading),
    {
        let ghost before = self@;
        let node = match self.pending.pop() {
            Some(node) => node,
            None => {
                return;
            },
        };
        proof {
            assert(node_views(self.pending@) =~= before.pending.drop_last());
            assert(node_view(node) == before.pending.last());
        }
        match &reading {
            Reading::Missing => {
                push_text(&mut self.stream, node.label.as_str());
                push_text(&mut self.stream, "\0missing\0");
            },
            Reading::Unreadable => {
                push_text(&mut self.stream, node.label.as_str());
                push_text(&mut self.stream, "\0");
                push_text(&mut self.stream, "unreadable\0");
            },
            Reading::File(bytes) => {
                push_text(&mut self.stream, node.label.as_str());
                push_text(&mut self.stream, "\0");
                let len = vstd::bytes::u64_to_le_bytes(bytes.len() as u64);
                push_bytes(&mut self.stream, len.as_slice());
                push_bytes(&mut self.stream, bytes.as_slice());
            },
            Reading::Directory(items) => {
                self.push_children(&node, items);
            },
            Reading::Unlisted => {},
        }
        proof {
            assert(self@.stream =~= before.stream + own_bytes(node.label@, reading));
            assert(self@.pending =~= walked(before, reading).pending);
        }
    }

    /// Puts the entries of a directory before everything that is pending.
    fn push_children(&mut self, node: &SourceNode, items: &Vec<DirItem>)
        ensures
            final(self).stream == old(self).stream,
            node_views(final(self).pending@) == node_views(old(self).pending@) + children(
                node_view(*node),
                text::sorted_texts(listing::visible_names(items@)),
            ).reverse(),
    {
        let found = visible(items);
        let names = sort_names(&found);
        let ghost nodes = children(node_view(*node), text::views(names@));
        let ghost base = node_views(self.pending@);
        let mut left: usize = names.len();
        proof {
            assert(node_views(self.pending@) =~= base + nodes.skip(left as int).reverse());
        }
        while left > 0
            invariant
                left <= names@.len(),
                nodes == children(node_view(*node), text::views(names@)),
                self.stream == old(self).stream,
                node_views(self.pending@) == base + nodes.skip(left as int).reverse(),
            decreases left,
        {
            left = left - 1;
            let ghost before = node_views(self.pending@);
            let label = node.label.clone().concat("/").concat(names[left].as_str());
            let mut path = clone_names(&node.path);
            path.push(names[left].clone());
            let next = SourceNode { label, path };
            proof {
                assert(text::views(next.path@) =~= text::views(node.path@).push(
                    names@[left as int]@,
                ));
                assert(node_view(next) == nodes[left as int]);
            }
            self.pending.push(next);
            proof {
                assert(node_views(self.pending@) =~= before.push(nodes[left as int]));
                assert(node_views(self.pending@) =~= base + nodes.skip(left as int).reverse());
            }
        }
        proof {
            assert(nodes.skip(0) =~= nodes);
        }
    }
}

/// A source tree as it is on disk. Of the entries of a directory, those that the
/// walk sees stand in the order of their names.
pub enum SourceTree {
    Missing,
    Unreadable,
    File(Seq<u8>),
    Directory(Seq<(Seq<char>, SourceTree)>),
    Unlisted,
}

/// The entries of a directory that the walk does not pass over.
pub open spec fn visible_entries(entries: Seq<(Seq<char>, SourceTree)>) -> Seq<
    (Seq<char>, SourceTree),
>
    decreases entries.len(),
{
    if entries.len() == 0 {
        Seq::empty()
    } else if listing::excluded(entries[0].0) {
        visible_entries(entries.drop_first())
    } else {
        seq![entries[0]] + visible_entries(entries.drop_first())
    }
}

/// The names of entries.
pub open spec fn entry_names(entries: Seq<(Seq<char>, SourceTree)>) -> Seq<Seq<char>> {
    entries.map_values(|e: (Seq<char>, SourceTree)| e.0)
}

/// Whether `reading` is what is found at the root of `tree`.
pub open spec fn shows(tree: SourceTree, reading: Reading) -> bool {
    match (tree, reading) {
        (SourceTree::Missing, Reading::Missing) => true,
        (SourceTree::Unreadable, Reading::Unreadable) => true,
        (SourceTree::File(bytes), Reading::File(read)) => bytes == read@,
        (SourceTree::Directory(entries), Reading::Directory(items)) => entry_names(
            visible_entries(entries),
        ) == text::sorted_texts(listing::visible_names(items@)),
        (SourceTree::Unlisted, Reading::Unlisted) => true,
        _ => false,
    }
}

/// The files that the walk sees in a tree, under a label, in the order of the
/// walk.
pub open spec fn tree_files(label: Seq<char>, tree: SourceTree) -> Seq<(Seq<char>, Content)>
    decreases tree,
{
    match tree {
        SourceTree::Missing => seq![(label, Content::Missing)],
        SourceTree::Unreadable => seq![(label, Content::Unreadable)],
        SourceTree::File(bytes) => seq![(label, Content::File(bytes))],
        SourceTree::Directory(entries) => entries_files(label, entries),
        SourceTree::Unlisted => Seq::empty(),
    }
}

/// The files that the walk sees in the entries of a directory, in the order of
/// the walk.
pub open spec fn entries_files(
    label: Seq<char>,
    entries: Seq<(Seq<char>, SourceTree)>,
) -> Seq<(Seq<char>, Content)>
    decreases entries,
{
    if entries.len() == 0 {
        Seq::empty()
    } else if listing::excluded(entries[0].0) {
        entries_files(label, entries.drop_first())
    } else {
        tree_files(label + "/"@ + entries[0].0, entries[0].1) + entries_files(
            label,
            entries.drop_first(),
        )
    }
}

/// The bytes that record files, one after the other.
pub open spec fn records(files: Seq<(Seq<char>, Content)>) -> Seq<u8>
    decreases files.len(),
{
    if files.len() == 0 {
        Seq::empty()
    } else {
        record(files[0].0, files[0].1) + records(files.drop_first())
    }
}

/// Whether `world`, which gives the tree at each path, gives at the path of an
/// entry the tree that the directory holds there.
pub open spec fn consistent(world: spec_fn(Seq<Seq<char>>) -> SourceTree) -> bool {
    forall|path: Seq<Seq<char>>, i: int|
        #![trigger world(path)->Directory_0[i]]
        world(path) is Directory && 0 <= i < world(path)->Directory_0.len() ==> world(
            path.push(world(path)->Directory_0[i].0),
        ) == world(path)->Directory_0[i].1
}

/// The files under `nodes`, first to last.
pub open spec fn nodes_files(
    world: spec_fn(Seq<Seq<char>>) -> SourceTree,
    nodes: Seq<NodeView>,
) -> Seq<(Seq<char>, Content)>
    decreases nodes.len(),
{
    if nodes.len() == 0 {
        Seq::empty()
    } else {
        tree_files(nodes[0].label, world(nodes[0].path)) + nodes_files(world, nodes.drop_first())
    }
}

/// The files under the nodes that are pending, in the order in which they will
/// be read.
pub open spec fn outstanding(
    world: spec_fn(Seq<Seq<char>>) -> SourceTree,
    state: WalkState,
) -> Seq<(Seq<char>, Content)> {
    nodes_files(world, state.pending.reverse())
}

proof fn lemma_records_add(a: Seq<(Seq<char>, Content)>, b: Seq<(Seq<char>, Content)>)
    ensures
        records(a + b) == records(a) + records(b),
    decreases a.len(),
{
    if a.len() == 0 {
        assert(a + b =~= b);
        assert(records(a) + records(b) =~= records(b));
    } else {
        lemma_records_add(a.drop_first(), b);
        assert((a + b).drop_first() =~= a.drop_first() + b);
        assert(records(a + b) =~= records(a) + records(b));
    }
}

proof fn lemma_nodes_files_add(
    world: spec_fn(Seq<Seq<char>>) -> SourceTree,
    a: Seq<NodeView>,
    b: Seq<NodeView>,
)
    ensures
        nodes_files(world, a + b) == nodes_files(world, a) + nodes_files(world, b),
    decreases a.len(),
{
    if a.len() == 0 {
        assert(a + b =~= b);
        assert(nodes_files(world, a) + nodes_files(world, b) =~= nodes_files(world, b));
    } else {
        lemma_nodes_files_add(world, a.drop_first(), b);
        assert((a + b).drop_first() =~= a.drop_first() + b);
        assert(nodes_files(world, a + b) =~= nodes_files(world, a) + nodes_files(world, b));
    }
}

proof fn lemma_children_files(
    world: spec_fn(Seq<Seq<char>>) -> SourceTree,
    node: NodeView,
    entries: Seq<(Seq<char>, SourceTree)>,
)
    requires
        forall|i: int|
            0 <= i < entries.len() ==> world(node.path.push((#[trigger] entries[i]).0))
                == entries[i].1,
    ensures
        nodes_files(world, children(node, entry_names(visible_entries(entries)))) == entries_files(
            node.label,
            entries,
        ),
    decreases entries.len(),
{
    let seen = visible_entries(entries);
    let nodes = children(node, entry_names(seen));
    if entries.len() > 0 {
        let rest = entries.drop_first();
        assert forall|i: int| 0 <= i < rest.len() implies world(
            node.path.push((#[trigger] rest[i]).0),
        ) == rest[i].1 by {
            assert(rest[i] == entries[i + 1]);
        }
        lemma_children_files(world, node, rest);
        if !listing::excluded(entries[0].0) {
            let more = visible_entries(rest);
            assert(nodes.drop_first() =~= children(node, entry_names(more)));
            assert(nodes[0] == child(node, entries[0].0));
        }
    }
}

/// Reading a node moves its files from what is outstanding to what is gathered:
/// the bytes gathered and the records of the files outstanding, taken together,
/// stay the same.
pub proof fn law_walk_keeps_the_record(
    world: spec_fn(Seq<Seq<char>>) -> SourceTree,
    state: WalkState,
    reading: Reading,
)
    requires
        consistent(world),
        state.pending.len() > 0,
        shows(world(state.pending.last().path), reading),
    ensures
        ({
            let next = walked(state, reading);
            next.stream + records(outstanding(world, next)) == state.stream + records(
                outstanding(world, state),
            )
        }),
{
    let node = state.pending.last();
    let tree = world(node.path);
    let next = walked(state, reading);
    let rest = state.pending.drop_last().reverse();
    let after = successors(node, reading);
    assert(state.pending.reverse() =~= seq![node] + rest);
    assert((seq![node] + rest).drop_first() =~= rest);
    assert(next.pending.reverse() =~= after + rest);
    let here = tree_files(node.label, tree);
    assert(outstanding(world, state) == here + nodes_files(world, rest));
    lemma_nodes_files_add(world, after, rest);
    lemma_records_add(here, nodes_files(world, rest));
    lemma_records_add(nodes_files(world, after), nodes_files(world, rest));
    match reading {
        Reading::Directory(items) => {
            let entries = tree->Directory_0;
            assert forall|i: int| 0 <= i < entries.len() implies world(
                node.path.push((#[trigger] entries[i]).0),
            ) == entries[i].1 by {
                assert(world(node.path)->Directory_0[i] == entries[i]);
            }
            lemma_children_files(world, node, entries);
            assert(nodes_files(world, after) == here);
        },
        Reading::Unlisted => {},
        _ => {
            assert(here.len() == 1);
            assert(here.drop_first() =~= Seq::empty());
            assert(records(here.drop_first()) =~= Seq::empty());
            assert(records(here) =~= own_bytes(node.label, reading));
        },
    }
    assert(own_bytes(node.label, reading) + records(nodes_files(world, after)) =~= records(here));
    assert(next.stream + records(outstanding(world, next)) =~= state.stream + records(
        outstanding(world, state),
    ));
}

/// The walk starts with the header gathered, and the files of the workspace
/// manifests and of the crates outstanding, the crates in the order of their
/// names.
pub proof fn law_walk_starts_with_everything(
    world: spec_fn(Seq<Seq<char>>) -> SourceTree,
    crates: Set<Seq<char>>,
)
    ensures
        walk_start(crates).stream == stream_header(),
        outstanding(world, walk_start(crates)) == nodes_files(
            world,
            roots(name_set::in_order(crates)),
        ),
{
    let all = roots(name_set::in_order(crates));
    assert(all.reverse().reverse() =~= all);
}

/// A walk that is done has nothing outstanding, so that the bytes gathered are
/// the whole record.
pub proof fn law_finished_walk_recorded_everything(
    world: spec_fn(Seq<Seq<char>>) -> SourceTree,
    state: WalkState,
)
    requires
        state.pending.len() == 0,
    ensures
        state.stream + records(outstanding(world, state)) == state.stream,
{
    assert(state.pending.reverse() =~= Seq::empty());
    assert(state.stream + Seq::<u8>::empty() =~= state.stream);
}

/// The stage after `readings` were taken one after the other.
pub open spec fn walked_through(state: WalkState, readings: Seq<Reading>) -> WalkState
    decreases readings.len(),
{
    if readings.len() == 0 {
        state
    } else {
        walked_through(walked(state, readings[0]), readings.drop_first())
    }
}

/// Whether each of `readings` is what `world` has at the path that is to be
/// read when it is taken.
pub open spec fn true_to(
    world: spec_fn(Seq<Seq<char>>) -> SourceTree,
    state: WalkState,
    readings: Seq<Reading>,
) -> bool
    decreases readings.len(),
{
    readings.len() > 0 ==> {
        &&& state.pending.len() > 0
        &&& shows(world(state.pending.last().path), readings[0])
        &&& true_to(world, walked(state, readings[0]), readings.drop_first())
    }
}

proof fn lemma_walk_keeps_the_record(
    world: spec_fn(Seq<Seq<char>>) -> SourceTree,
    state: WalkState,
    readings: Seq<Reading>,
)
    requires
        consistent(world),
        true_to(world, state, readings),
    ensures
        ({
            let last = walked_through(state, readings);
            last.stream + records(outstanding(world, last)) == state.stream + records(
                outstanding(world, state),
            )
        }),
    decreases readings.len(),
{
    if readings.len() > 0 {
        law_walk_keeps_the_record(world, state, readings[0]);
        lemma_walk_keeps_the_record(world, walked(state, readings[0]), readings.drop_first());
    }
}

/// A walk from start to end gathers the record of every file of the workspace
/// manifests and of the crates, each once, and nothing else.
pub proof fn law_walk_records_the_workspace(
    world: spec_fn(Seq<Seq<char>>) -> SourceTree,
    crates: Set<Seq<char>>,
    readings: Seq<Reading>,
)
    requires
        consistent(world),
        true_to(world, walk_start(crates), readings),
        walked_through(walk_start(crates), readings).pending.len() == 0,
    ensures
        walked_through(walk_start(crates), readings).stream == stream_header() + records(
            nodes_files(world, roots(name_set::in_order(crates))),
        ),
{
    lemma_walk_keeps_the_record(world, walk_start(crates), readings);
    law_walk_starts_with_everything(world, crates);
    law_finished_walk_recorded_everything(world, walked_through(walk_start(crates), readings));
}

/// What records a content behind the label and the NUL that ends it.
spec fn tail(content: Content) -> Seq<u8> {
    match content {
        Content::Missing => encode_utf8("missing\0"@),
        Content::Unreadable => encode_utf8("unreadable\0"@),
        Content::File(bytes) => vstd::bytes::spec_u64_to_le_bytes(bytes.len() as u64) + bytes,
    }
}

/// Whether a file can be told from what stands for a missing or unreadable one:
/// its label has no NUL, and its length fits a `u64` and is not written with the
/// bytes that start a marker.
pub open spec fn recordable(file: (Seq<char>, Content)) -> bool {
    &&& !file.0.contains('\0')
    &&& match file.1 {
        Content::File(bytes) => {
            let len = vstd::bytes::spec_u64_to_le_bytes(bytes.len() as u64);
            &&& bytes.len() <= u64::MAX
            &&& len != encode_utf8("missing\0"@)
            &&& len != encode_utf8("unreadable\0"@).take(8)
        },
        _ => true,
    }
}

proof fn lemma_markers()
    ensures
        encode_utf8("\0"@) == seq![0u8],
        encode_utf8("\0missing\0"@) == seq![0u8] + encode_utf8("missing\0"@),
        encode_utf8("missing\0"@).len() == 8,
        encode_utf8("missing\0"@)[0] == 109u8,
        encode_utf8("unreadable\0"@).len() == 11,
        encode_utf8("unreadable\0"@)[0] == 117u8,
{
    reveal_strlit("\0");
    reveal_strlit("\0missing\0");
    reveal_strlit("missing\0");
    reveal_strlit("unreadable\0");
    vstd::utf8::is_ascii_chars_encode_utf8("\0"@);
    vstd::utf8::is_ascii_chars_encode_utf8("\0missing\0"@);
    vstd::utf8::is_ascii_chars_encode_utf8("missing\0"@);
    vstd::utf8::is_ascii_chars_encode_utf8("unreadable\0"@);
    assert("\0"@[0] == '\0');
    assert("missing\0"@[0] == 'm');
    assert("unreadable\0"@[0] == 'u');
    assert(encode_utf8("\0"@) =~= seq![0u8]);
    assert("\0missing\0"@.skip(1) =~= "missing\0"@);
    assert forall|i: int| 0 <= i < 9 implies encode_utf8("\0missing\0"@)[i] == (seq![0u8]
        + encode_utf8("missing\0"@))[i] by {
        if i == 0 {
            assert("\0missing\0"@[0] == '\0');
        } else {
            assert("\0missing\0"@[i] == "missing\0"@[i - 1]);
        }
    }
    assert(encode_utf8("\0missing\0"@) =~= seq![0u8] + encode_utf8("missing\0"@));
}

proof fn lemma_record_parts(label: Seq<char>, content: Content)
    ensures
        record(label, content) == encode_utf8(label) + seq![0u8] + tail(content),
{
    lemma_markers();
    assert(record(label, content) =~= encode_utf8(label) + seq![0u8] + tail(content));
}

proof fn lemma_tail_decodes(a: Content, b: Content, x: Seq<u8>, y: Seq<u8>, label: Seq<char>)
    requires
        recordable((label, a)),
        recordable((label, b)),
        tail(a) + x == tail(b) + y,
    ensures
        a == b,
        x == y,
{
    lemma_markers();
    vstd::bytes::lemma_auto_spec_u64_to_from_le_bytes();
    let left = tail(a) + x;
    let right = tail(b) + y;
    assert(left[0] == tail(a)[0]);
    assert(right[0] == tail(b)[0]);
    match (a, b) {
        (Content::File(p), Content::File(q)) => {
            let lp = vstd::bytes::spec_u64_to_le_bytes(p.len() as u64);
            let lq = vstd::bytes::spec_u64_to_le_bytes(q.len() as u64);
            assert(lp =~= left.take(8));
            assert(lq =~= right.take(8));
            assert(p.len() as u64 == q.len() as u64);
            assert(p =~= left.subrange(8, 8int + p.len()));
            assert(q =~= right.subrange(8, 8int + q.len()));
        },
        (Content::File(p), _) => {
            let lp = vstd::bytes::spec_u64_to_le_bytes(p.len() as u64);
            assert(lp =~= left.take(8));
            assert(right.take(8) =~= tail(b).take(8));
            assert(encode_utf8("missing\0"@).take(8) =~= encode_utf8("missing\0"@));
        },
        (_, Content::File(q)) => {
            let lq = vstd::bytes::spec_u64_to_le_bytes(q.len() as u64);
            assert(lq =~= right.take(8));
            assert(left.take(8) =~= tail(a).take(8));
            assert(encode_utf8("missing\0"@).take(8) =~= encode_utf8("missing\0"@));
        },
        _ => {},
    }
    assert(a == b);
    assert(x =~= left.skip(tail(a).len() as int));
    assert(y =~= right.skip(tail(b).len() as int));
}

/// Different files have different records: what is hashed determines the labels
/// and the contents of all the files, in order.
pub proof fn law_records_identify_the_files(
    a: Seq<(Seq<char>, Content)>,
    b: Seq<(Seq<char>, Content)>,
)
    requires
        forall|i: int| 0 <= i < a.len() ==> recordable(#[trigger] a[i]),
        forall|i: int| 0 <= i < b.len() ==> recordable(#[trigger] b[i]),
        records(a) == records(b),
    ensures
        a == b,
    decreases a.len(),
{
    if a.len() == 0 && b.len() == 0 {
        assert(a =~= b);
    } else if a.len() == 0 {
        lemma_record_parts(b[0].0, b[0].1);
        assert(records(b).len() > 0);
    } else if b.len() == 0 {
        lemma_record_parts(a[0].0, a[0].1);
        assert(records(a).len() > 0);
    } else {
        let (la, ca) = a[0];
        let (lb, cb) = b[0];
        let ra = records(a.drop_first());
        let rb = records(b.drop_first());
        assert(recordable(a[0]) && recordable(b[0]));
        lemma_record_parts(la, ca);
        lemma_record_parts(lb, cb);
        text::lemma_encode_without_nul(la);
        text::lemma_encode_without_nul(lb);
        assert(records(a) =~= encode_utf8(la) + seq![0u8] + (tail(ca) + ra));
        assert(records(b) =~= encode_utf8(lb) + seq![0u8] + (tail(cb) + rb));
        text::lemma_split_at_separator(
            encode_utf8(la),
            encode_utf8(lb),
            tail(ca) + ra,
            tail(cb) + rb,
            0u8,
        );
        text::lemma_encode_injective(la, lb);
        lemma_tail_decodes(ca, cb, ra, rb, la);
        assert forall|i: int| 0 <= i < a.drop_first().len() implies recordable(
            #[trigger] a.drop_first()[i],
        ) by {
            assert(a.drop_first()[i] == a[i + 1]);
        }
        assert forall|i: int| 0 <= i < b.drop_first().len() implies recordable(
            #[trigger] b.drop_first()[i],
        ) by {
            assert(b.drop_first()[i] == b[i + 1]);
        }
        law_records_identify_the_files(a.drop_first(), b.drop_first());
        assert(a =~= seq![a[0]] + a.drop_first());
        assert(b =~= seq![b[0]] + b.drop_first());
    }
}

/// The order in which a directory is listed does not matter: listings with the
/// same visible names lead to the same nodes, in the same order.
pub proof fn law_listing_order_does_not_matter(
    node: NodeView,
    items_a: Vec<DirItem>,
    items_b: Vec<DirItem>,
)
    requires
        listing::visible_names(items_a@).to_multiset() == listing::visible_names(
            items_b@,
        ).to_multiset(),
    ensures
        successors(node, Reading::Directory(items_a)) == successors(
            node,
            Reading::Directory(items_b),
        ),
{
    let a = listing::visible_names(items_a@);
    let b = listing::visible_names(items_b@);
    text::lemma_text_order();
    a.lemma_sort_by_ensures(text::text_order());
    b.lemma_sort_by_ensures(text::text_order());
    vstd::seq_lib::lemma_sorted_unique(
        text::sorted_texts(a),
        text::sorted_texts(b),
        text::text_order(),
    );
}

/// A tree without what the walk does not see: the entries that it passes over,
/// and the directories in which it sees nothing, at any depth.
pub open spec fn bare(tree: SourceTree) -> SourceTree
    decreases tree,
{
    match tree {
        SourceTree::Directory(entries) => SourceTree::Directory(bare_entries(entries)),
        _ => tree,
    }
}

/// The entries of a directory without what the walk does not see.
pub open spec fn bare_entries(entries: Seq<(Seq<char>, SourceTree)>) -> Seq<
    (Seq<char>, SourceTree),
>
    decreases entries,
{
    if entries.len() == 0 {
        Seq::empty()
    } else {
        let rest = bare_entries(entries.drop_first());
        let tree = bare(entries[0].1);
        if listing::excluded(entries[0].0) || is_empty_directory(tree) {
            rest
        } else {
            seq![(entries[0].0, tree)] + rest
        }
    }
}

/// Whether `tree` is a directory without entries.
pub open spec fn is_empty_directory(tree: SourceTree) -> bool {
    tree is Directory && tree->Directory_0.len() == 0
}

proof fn lemma_bare_files(label: Seq<char>, tree: SourceTree)
    ensures
        tree_files(label, bare(tree)) == tree_files(label, tree),
    decreases tree,
{
    if let SourceTree::Directory(entries) = tree {
        lemma_bare_entries_files(label, entries);
    }
}

proof fn lemma_bare_entries_files(label: Seq<char>, entries: Seq<(Seq<char>, SourceTree)>)
    ensures
        entries_files(label, bare_entries(entries)) == entries_files(label, entries),
    decreases entries,
{
    if entries.len() > 0 {
        let (name, tree) = entries[0];
        let rest = entries.drop_first();
        lemma_bare_entries_files(label, rest);
        lemma_bare_files(label + "/"@ + name, tree);
        let below = label + "/"@ + name;
        if listing::excluded(name) {
        } else if is_empty_directory(bare(tree)) {
            assert(tree_files(below, bare(tree)) =~= Seq::empty());
            assert(entries_files(label, entries) =~= entries_files(label, rest));
        } else {
            let kept = seq![(name, bare(tree))] + bare_entries(rest);
            assert(kept.drop_first() =~= bare_entries(rest));
            assert(kept[0] == (name, bare(tree)));
        }
    }
}

/// Trees that differ only in entries that the walk passes over and in directories
/// in which it sees nothing, at any depth, hold the same files for it.
pub proof fn law_unseen_entries_do_not_matter(label: Seq<char>, a: SourceTree, b: SourceTree)
    requires
        bare(a) == bare(b),
    ensures
        tree_files(label, a) == tree_files(label, b),
{
    lemma_bare_files(label, a);
    lemma_bare_files(label, b);
}

proof fn lemma_bare_entries_add(
    a: Seq<(Seq<char>, SourceTree)>,
    b: Seq<(Seq<char>, SourceTree)>,
)
    ensures
        bare_entries(a + b) == bare_entries(a) + bare_entries(b),
    decreases a.len(),
{
    if a.len() == 0 {
        assert(a + b =~= b);
        assert(bare_entries(a) + bare_entries(b) =~= bare_entries(b));
    } else {
        lemma_bare_entries_add(a.drop_first(), b);
        assert((a + b).drop_first() =~= a.drop_first() + b);
        assert((a + b)[0] == a[0]);
        assert(bare_entries(a + b) =~= bare_entries(a) + bare_entries(b));
    }
}

/// An entry named `target` or `.git`, whatever it is, or an empty directory,
/// added to a directory anywhere among its entries, is not seen.
pub proof fn law_added_entry_is_not_seen(
    before: Seq<(Seq<char>, SourceTree)>,
    name: Seq<char>,
    tree: SourceTree,
    after: Seq<(Seq<char>, SourceTree)>,
)
    requires
        listing::excluded(name) || is_empty_directory(tree),
    ensures
        bare(SourceTree::Directory(before + seq![(name, tree)] + after)) == bare(
            SourceTree::Directory(before + after),
        ),
{
    let added = seq![(name, tree)];
    lemma_bare_entries_add(before + added, after);
    lemma_bare_entries_add(before, added);
    lemma_bare_entries_add(before, after);
    assert(added.drop_first() =~= Seq::empty());
    assert(bare_entries(added.drop_first()) =~= Seq::empty());
    assert(added[0] == (name, tree));
    if is_empty_directory(tree) {
        assert(bare_entries(tree->Directory_0) =~= Seq::empty());
        assert(is_empty_directory(bare(tree)));
    }
    assert(bare_entries(added) =~= Seq::empty());
    assert(bare_entries(before) + bare_entries(added) =~= bare_entries(before));
}

/// A directory in which a tree is replaced by one that looks the same looks the
/// same, so that what is not seen may stand at any depth.
pub proof fn law_unseen_change_below_is_not_seen(
    before: Seq<(Seq<char>, SourceTree)>,
    name: Seq<char>,
    a: SourceTree,
    b: SourceTree,
    after: Seq<(Seq<char>, SourceTree)>,
)
    requires
        bare(a) == bare(b),
    ensures
        bare(SourceTree::Directory(before + seq![(name, a)] + after)) == bare(
            SourceTree::Directory(before + seq![(name, b)] + after),
        ),
{
    let with_a = seq![(name, a)];
    let with_b = seq![(name, b)];
    lemma_bare_entries_add(before + with_a, after);
    lemma_bare_entries_add(before, with_a);
    lemma_bare_entries_add(before + with_b, after);
    lemma_bare_entries_add(before, with_b);
    assert(with_a.drop_first() =~= with_b.drop_first());
    assert(bare_entries(with_a) == bare_entries(with_b));
}

/// The number of paths that a walk over `tree` reads.
pub open spec fn node_count(tree: SourceTree) -> nat
    decreases tree,
{
    match tree {
        SourceTree::Directory(entries) => 1 + entries_count(entries),
        _ => 1,
    }
}

/// The number of paths that a walk reads in the entries of a directory.
pub open spec fn entries_count(entries: Seq<(Seq<char>, SourceTree)>) -> nat
    decreases entries,
{
    if entries.len() == 0 {
        0
    } else if listing::excluded(entries[0].0) {
        entries_count(entries.drop_first())
    } else {
        node_count(entries[0].1) + entries_count(entries.drop_first())
    }
}

/// The number of paths that a walk over `nodes` reads.
pub open spec fn nodes_count(
    world: spec_fn(Seq<Seq<char>>) -> SourceTree,
    nodes: Seq<NodeView>,
) -> nat
    decreases nodes.len(),
{
    if nodes.len() == 0 {
        0
    } else {
        node_count(world(nodes[0].path)) + nodes_count(world, nodes.drop_first())
    }
}

proof fn lemma_nodes_count_add(
    world: spec_fn(Seq<Seq<char>>) -> SourceTree,
    a: Seq<NodeView>,
    b: Seq<NodeView>,
)
    ensures
        nodes_count(world, a + b) == nodes_count(world, a) + nodes_count(world, b),
    decreases a.len(),
{
    if a.len() == 0 {
        assert(a + b =~= b);
    } else {
        lemma_nodes_count_add(world, a.drop_first(), b);
        assert((a + b).drop_first() =~= a.drop_first() + b);
        assert((a + b)[0] == a[0]);
    }
}

proof fn lemma_children_count(
    world: spec_fn(Seq<Seq<char>>) -> SourceTree,
    node: NodeView,
    entries: Seq<(Seq<char>, SourceTree)>,
)
    requires
        forall|i: int|
            0 <= i < entries.len() ==> world(node.path.push((#[trigger] entries[i]).0))
                == entries[i].1,
    ensures
        nodes_count(world, children(node, entry_names(visible_entries(entries))))
            == entries_count(entries),
    decreases entries.len(),
{
    let nodes = children(node, entry_names(visible_entries(entries)));
    if entries.len() > 0 {
        let rest = entries.drop_first();
        assert forall|i: int| 0 <= i < rest.len() implies world(
            node.path.push((#[trigger] rest[i]).0),
        ) == rest[i].1 by {
            assert(rest[i] == entries[i + 1]);
        }
        lemma_children_count(world, node, rest);
        if !listing::excluded(entries[0].0) {
            assert(nodes.drop_first() =~= children(node, entry_names(visible_entries(rest))));
            assert(nodes[0] == child(node, entries[0].0));
        }
    }
}

proof fn lemma_step_counts(
    world: spec_fn(Seq<Seq<char>>) -> SourceTree,
    state: WalkState,
    reading: Reading,
)
    requires
        consistent(world),
        state.pending.len() > 0,
        shows(world(state.pending.last().path), reading),
    ensures
        nodes_count(world, walked(state, reading).pending.reverse()) + 1 == nodes_count(
            world,
            state.pending.reverse(),
        ),
{
    let node = state.pending.last();
    let tree = world(node.path);
    let rest = state.pending.drop_last().reverse();
    let after = successors(node, reading);
    assert(state.pending.reverse() =~= seq![node] + rest);
    assert((seq![node] + rest).drop_first() =~= rest);
    assert(walked(state, reading).pending.reverse() =~= after + rest);
    lemma_nodes_count_add(world, after, rest);
    match reading {
        Reading::Directory(items) => {
            let entries = tree->Directory_0;
            assert forall|i: int| 0 <= i < entries.len() implies world(
                node.path.push((#[trigger] entries[i]).0),
            ) == entries[i].1 by {
                assert(world(node.path)->Directory_0[i] == entries[i]);
            }
            lemma_children_count(world, node, entries);
        },
        _ => {},
    }
}

proof fn lemma_walk_counts(
    world: spec_fn(Seq<Seq<char>>) -> SourceTree,
    state: WalkState,
    readings: Seq<Reading>,
)
    requires
        consistent(world),
        true_to(world, state, readings),
    ensures
        nodes_count(world, walked_through(state, readings).pending.reverse()) + readings.len()
            == nodes_count(world, state.pending.reverse()),
    decreases readings.len(),
{
    if readings.len() > 0 {
        lemma_step_counts(world, state, readings[0]);
        lemma_walk_counts(world, walked(state, readings[0]), readings.drop_first());
    }
}

proof fn lemma_node_counts(tree: SourceTree)
    ensures
        node_count(tree) > 0,
{
}

/// A walk ends: it reads no more paths than are seen under its roots, and is done
/// when it has read that many, and not before.
pub proof fn law_walk_ends(
    world: spec_fn(Seq<Seq<char>>) -> SourceTree,
    crates: Set<Seq<char>>,
    readings: Seq<Reading>,
)
    requires
        consistent(world),
        true_to(world, walk_start(crates), readings),
    ensures
        readings.len() <= nodes_count(world, roots(name_set::in_order(crates))),
        walked_through(walk_start(crates), readings).pending.len() == 0 <==> readings.len()
            == nodes_count(world, roots(name_set::in_order(crates))),
{
    let all = roots(name_set::in_order(crates));
    let left = walked_through(walk_start(crates), readings).pending.reverse();
    assert(all.reverse().reverse() =~= all);
    lemma_walk_counts(world, walk_start(crates), readings);
    if left.len() > 0 {
        lemma_node_counts(world(left[0].path));
    }
}

/// Whether each of `readings` is what `world` has at the path that is to be read
/// when it is taken.
pub open spec fn reads(
    world: spec_fn(Seq<Seq<char>>) -> Reading,
    state: WalkState,
    readings: Seq<Reading>,
) -> bool
    decreases readings.len(),
{
    readings.len() > 0 ==> {
        &&& state.pending.len() > 0
        &&& readings[0] == world(state.pending.last().path)
        &&& reads(world, walked(state, readings[0]), readings.drop_first())
    }
}

/// Whether `names` lead from `path` through directories that list each of them,
/// and none is `target` or `.git`.
pub open spec fn listed_at(
    world: spec_fn(Seq<Seq<char>>) -> Reading,
    path: Seq<Seq<char>>,
    names: Seq<Seq<char>>,
) -> bool
    decreases names.len(),
{
    names.len() > 0 ==> {
        &&& world(path) is Directory
        &&& listing::lists_name(world(path)->Directory_0@, names[0])
        &&& names[0] != "target"@
        &&& names[0] != ".git"@
        &&& listed_at(world, path.push(names[0]), names.drop_first())
    }
}

/// The label of what is reached from `label` by `names`.
pub open spec fn label_below(label: Seq<char>, names: Seq<Seq<char>>) -> Seq<char>
    decreases names.len(),
{
    if names.len() == 0 {
        label
    } else {
        label_below(label + "/"@ + names[0], names.drop_first())
    }
}

/// Whether `part` stands in `stream`.
pub open spec fn holds(stream: Seq<u8>, part: Seq<u8>) -> bool {
    exists|before: Seq<u8>, after: Seq<u8>| stream == #[trigger] (before + part + after)
}

proof fn lemma_stream_grows(state: WalkState, readings: Seq<Reading>) -> (more: Seq<u8>)
    ensures
        walked_through(state, readings).stream == state.stream + more,
    decreases readings.len(),
{
    if readings.len() == 0 {
        assert(state.stream + Seq::<u8>::empty() =~= state.stream);
        Seq::empty()
    } else {
        let next = walked(state, readings[0]);
        let more = lemma_stream_grows(next, readings.drop_first());
        if state.pending.len() == 0 {
            more
        } else {
            let own = own_bytes(state.pending.last().label, readings[0]);
            assert(state.stream + own + more =~= state.stream + (own + more));
            own + more
        }
    }
}

proof fn lemma_child_is_next(node: NodeView, items: Vec<DirItem>, name: Seq<char>) -> (j: int)
    requires
        listing::lists_name(items@, name),
        name != "target"@,
        name != ".git"@,
    ensures
        0 <= j < successors(node, Reading::Directory(items)).len(),
        successors(node, Reading::Directory(items))[j] == child(node, name),
{
    let names = listing::visible_names(items@);
    let sorted = text::sorted_texts(names);
    listing::law_every_other_name_is_seen(items@, name);
    assert(names.contains(name));
    text::law_sorting_orders_and_keeps(names);
    names.to_multiset_ensures();
    sorted.to_multiset_ensures();
    assert(names.to_multiset().count(name) > 0);
    assert(sorted.contains(name));
    let j = sorted.index_of(name);
    assert(children(node, sorted)[j] == child(node, name));
    j
}

/// What is reached from a node that is pending, through listings and past no
/// `target` or `.git`, is recorded by the time the walk is done.
pub proof fn lemma_pending_is_recorded(
    world: spec_fn(Seq<Seq<char>>) -> Reading,
    state: WalkState,
    readings: Seq<Reading>,
    k: int,
    names: Seq<Seq<char>>,
)
    requires
        reads(world, state, readings),
        walked_through(state, readings).pending.len() == 0,
        0 <= k < state.pending.len(),
        listed_at(world, state.pending[k].path, names),
    ensures
        holds(
            walked_through(state, readings).stream,
            own_bytes(
                label_below(state.pending[k].label, names),
                world(state.pending[k].path + names),
            ),
        ),
    decreases readings.len(),
{
    let node = state.pending[k];
    let top = state.pending.last();
    let reading = readings[0];
    let next = walked(state, reading);
    let rest = readings.drop_first();
    if k < state.pending.len() - 1 {
        assert(next.pending[k] == node);
        lemma_pending_is_recorded(world, next, rest, k, names);
    } else if names.len() == 0 {
        let more = lemma_stream_grows(next, rest);
        assert(node.path + names =~= node.path);
        let own = own_bytes(node.label, reading);
        assert(walked_through(state, readings).stream == state.stream + own + more);
    } else {
        let items = reading->Directory_0;
        let j = lemma_child_is_next(node, items, names[0]);
        let after = successors(node, reading);
        let at = state.pending.len() - 1 + (after.len() - 1 - j);
        assert(next.pending[at] == after.reverse()[after.len() - 1 - j]);
        assert(next.pending[at] == child(node, names[0]));
        lemma_pending_is_recorded(world, next, rest, at, names.drop_first());
        assert(node.path.push(names[0]) + names.drop_first() =~= node.path + names);
    }
}

/// What is recorded of a file is its label, a zero byte, its length in eight bytes
/// with the lowest first, and its bytes; of a missing or unreadable one its label
/// and a marker between zero bytes; and of a directory nothing.
pub proof fn law_record_of_a_path(label: Seq<char>, reading: Reading)
    ensures
        match reading {
            Reading::File(bytes) => own_bytes(label, reading) == encode_utf8(label) + seq![0u8]
                + vstd::bytes::spec_u64_to_le_bytes(bytes@.len() as u64) + bytes@,
            Reading::Missing => own_bytes(label, reading) == encode_utf8(label) + encode_utf8(
                "\0missing\0"@,
            ),
            Reading::Unreadable => own_bytes(label, reading) == encode_utf8(label) + encode_utf8(
                "\0unreadable\0"@,
            ),
            Reading::Directory(_) => own_bytes(label, reading).len() == 0,
            Reading::Unlisted => own_bytes(label, reading).len() == 0,
        },
{
    lemma_markers();
    reveal_strlit("\0unreadable\0");
    reveal_strlit("unreadable\0");
    reveal_strlit("\0");
    vstd::utf8::is_ascii_chars_encode_utf8("\0unreadable\0"@);
    vstd::utf8::is_ascii_chars_encode_utf8("unreadable\0"@);
    let whole = encode_utf8("\0unreadable\0"@);
    let part = encode_utf8("unreadable\0"@);
    assert("\0unreadable\0"@.skip(1) =~= "unreadable\0"@);
    assert forall|i: int| 0 <= i < 12 implies whole[i] == (seq![0u8] + part)[i] by {
        if i == 0 {
            assert("\0unreadable\0"@[0] == '\0');
        } else {
            assert("\0unreadable\0"@[i] == "unreadable\0"@[i - 1]);
        }
    }
    assert(whole =~= seq![0u8] + part);
    assert(encode_utf8(label) + seq![0u8] + part =~= encode_utf8(label) + (seq![0u8] + part));
}

/// Every stream starts with the same line of bytes, which names its version.
pub proof fn law_streams_start_alike(crates: Set<Seq<char>>)
    ensures
        walk_start(crates).stream == encode_utf8("perry-auto-src-v1\0"@),
{
}

/// Whether streams of which the one gained `m` bytes where the other gained `n`
/// are as long, or the one with more to gain is at least as long.
spec fn in_step(s: Seq<u8>, t: Seq<u8>, m: nat, n: nat) -> bool {
    &&& m == n ==> s.len() == t.len()
    &&& m > n ==> s.len() >= t.len()
    &&& m < n ==> s.len() <= t.len()
}

/// Whether such streams differ, and stay so.
spec fn apart(s: Seq<u8>, t: Seq<u8>, m: nat, n: nat) -> bool {
    &&& m == n ==> s.len() == t.len() && s != t
    &&& m > n ==> s.len() > t.len()
    &&& m < n ==> s.len() < t.len()
}

proof fn lemma_both_grow(
    s: Seq<u8>,
    t: Seq<u8>,
    more: Seq<u8>,
    other: Seq<u8>,
    m: nat,
    n: nat,
)
    requires
        in_step(s, t, m, n),
        in_step(more, other, m, n),
    ensures
        in_step(s + more, t + other, m, n),
        apart(s, t, m, n) || apart(more, other, m, n) ==> apart(s + more, t + other, m, n),
{
    if m == n && s + more == t + other {
        assert(s =~= (s + more).take(s.len() as int));
        assert(t =~= (t + other).take(t.len() as int));
        assert(more =~= (s + more).skip(s.len() as int));
        assert(other =~= (t + other).skip(t.len() as int));
    }
}

proof fn lemma_records_apart(label: Seq<char>, x: Seq<u8>, y: Seq<u8>)
    requires
        x != y,
    ensures
        apart(
            record(label, Content::File(x)),
            record(label, Content::File(y)),
            x.len(),
            y.len(),
        ),
        in_step(
            record(label, Content::File(x)),
            record(label, Content::File(y)),
            x.len(),
            y.len(),
        ),
{
    vstd::bytes::lemma_auto_spec_u64_to_from_le_bytes();
    let start = encode_utf8(label) + encode_utf8("\0"@);
    let a = start + vstd::bytes::spec_u64_to_le_bytes(x.len() as u64);
    let b = start + vstd::bytes::spec_u64_to_le_bytes(y.len() as u64);
    assert(a.len() == b.len());
    if a + x == b + y {
        assert(x =~= (a + x).skip(a.len() as int));
        assert(y =~= (b + y).skip(b.len() as int));
    }
}

proof fn lemma_pair_steps(
    before: spec_fn(Seq<Seq<char>>) -> Reading,
    after: spec_fn(Seq<Seq<char>>) -> Reading,
    place: Seq<Seq<char>>,
    s: WalkState,
    t: WalkState,
)
    requires
        s.pending == t.pending,
        s.pending.len() > 0,
        forall|path: Seq<Seq<char>>| path != place ==> #[trigger] before(path) == after(path),
        before(place) is File,
        after(place) is File,
        before(place)->File_0@ != after(place)->File_0@,
        in_step(s.stream, t.stream, before(place)->File_0@.len(), after(place)->File_0@.len()),
    ensures
        ({
            let path = s.pending.last().path;
            let x = walked(s, before(path));
            let y = walked(t, after(path));
            let m = before(place)->File_0@.len();
            let n = after(place)->File_0@.len();
            &&& x.pending == y.pending
            &&& in_step(x.stream, y.stream, m, n)
            &&& apart(s.stream, t.stream, m, n) || path == place ==> apart(x.stream, y.stream, m, n)
        }),
{
    let node = s.pending.last();
    let m = before(place)->File_0@.len();
    let n = after(place)->File_0@.len();
    let a = own_bytes(node.label, before(node.path));
    let b = own_bytes(node.label, after(node.path));
    if node.path == place {
        lemma_records_apart(node.label, before(place)->File_0@, after(place)->File_0@);
    } else {
        assert(before(node.path) == after(node.path));
    }
    lemma_both_grow(s.stream, t.stream, a, b, m, n);
}

proof fn lemma_apart_to_the_end(
    before: spec_fn(Seq<Seq<char>>) -> Reading,
    after: spec_fn(Seq<Seq<char>>) -> Reading,
    place: Seq<Seq<char>>,
    s: WalkState,
    t: WalkState,
    first: Seq<Reading>,
    second: Seq<Reading>,
)
    requires
        reads(before, s, first),
        reads(after, t, second),
        walked_through(s, first).pending.len() == 0,
        walked_through(t, second).pending.len() == 0,
        s.pending == t.pending,
        forall|path: Seq<Seq<char>>| path != place ==> #[trigger] before(path) == after(path),
        before(place) is File,
        after(place) is File,
        before(place)->File_0@ != after(place)->File_0@,
        in_step(s.stream, t.stream, before(place)->File_0@.len(), after(place)->File_0@.len()),
        apart(s.stream, t.stream, before(place)->File_0@.len(), after(place)->File_0@.len()),
    ensures
        walked_through(s, first).stream != walked_through(t, second).stream,
    decreases first.len(),
{
    if s.pending.len() > 0 {
        let path = s.pending.last().path;
        lemma_pair_steps(before, after, place, s, t);
        lemma_apart_to_the_end(
            before,
            after,
            place,
            walked(s, before(path)),
            walked(t, after(path)),
            first.drop_first(),
            second.drop_first(),
        );
    } else {
        assert(first.len() == 0 && second.len() == 0);
    }
}

/// Two walks through workspaces that differ in the bytes of the file at `place`
/// give different streams, where `place` is reached from a node that is pending.
pub(crate) proof fn lemma_change_is_seen(
    before: spec_fn(Seq<Seq<char>>) -> Reading,
    after: spec_fn(Seq<Seq<char>>) -> Reading,
    place: Seq<Seq<char>>,
    s: WalkState,
    t: WalkState,
    first: Seq<Reading>,
    second: Seq<Reading>,
    k: int,
    names: Seq<Seq<char>>,
)
    requires
        reads(before, s, first),
        reads(after, t, second),
        walked_through(s, first).pending.len() == 0,
        walked_through(t, second).pending.len() == 0,
        s.pending == t.pending,
        s.stream.len() == t.stream.len() || before(place)->File_0@.len()
            != after(place)->File_0@.len(),
        before(place)->File_0@.len() >= after(place)->File_0@.len() ==> s.stream.len()
            >= t.stream.len(),
        before(place)->File_0@.len() <= after(place)->File_0@.len() ==> s.stream.len()
            <= t.stream.len(),
        forall|path: Seq<Seq<char>>| path != place ==> #[trigger] before(path) == after(path),
        before(place) is File,
        after(place) is File,
        before(place)->File_0@ != after(place)->File_0@,
        0 <= k < s.pending.len(),
        place == s.pending[k].path + names,
        listed_at(before, s.pending[k].path, names),
    ensures
        walked_through(s, first).stream != walked_through(t, second).stream,
    decreases first.len(),
{
    let m = before(place)->File_0@.len();
    let n = after(place)->File_0@.len();
    let node = s.pending[k];
    let path = s.pending.last().path;
    let x = walked(s, before(path));
    let y = walked(t, after(path));
    assert(in_step(s.stream, t.stream, m, n));
    lemma_pair_steps(before, after, place, s, t);
    assert(in_step(x.stream, y.stream, m, n));
    if k < s.pending.len() - 1 {
        assert(x.pending[k] == node);
        lemma_change_is_seen(
            before,
            after,
            place,
            x,
            y,
            first.drop_first(),
            second.drop_first(),
            k,
            names,
        );
    } else if names.len() == 0 {
        assert(node.path + names =~= node.path);
        lemma_apart_to_the_end(
            before,
            after,
            place,
            x,
            y,
            first.drop_first(),
            second.drop_first(),
        );
    } else {
        let items = before(path)->Directory_0;
        let j = lemma_child_is_next(node, items, names[0]);
        let next = successors(node, before(path));
        let at = s.pending.len() - 1 + (next.len() - 1 - j);
        assert(x.pending[at] == next.reverse()[next.len() - 1 - j]);
        assert(x.pending[at] == child(node, names[0]));
        assert(node.path.push(names[0]) + names.drop_first() =~= node.path + names);
        lemma_change_is_seen(
            before,
            after,
            place,
            x,
            y,
            first.drop_first(),
            second.drop_first(),
            at,
            names.drop_first(),
        );
    }
}

/// A directory is walked before what was pending before it: its names but
/// `target` and `.git`, the least of them next, each under the label of the
/// directory, a slash and the name. Nothing follows from what is no directory.
pub proof fn law_directory_is_walked_in_order(state: WalkState, reading: Reading)
    requires
        state.pending.len() > 0,
    ensures
        ({
            let node = state.pending.last();
            let rest = state.pending.drop_last();
            let next = walked(state, reading).pending;
            let added = next.skip(rest.len() as int);
            &&& next.len() >= rest.len()
            &&& next.take(rest.len() as int) == rest
            &&& reading !is Directory ==> added.len() == 0
            &&& forall|i: int|
                0 <= i < added.len() ==> {
                    let name = (#[trigger] added[i]).path.last();
                    &&& added[i].path == node.path.push(name)
                    &&& added[i].label == node.label + "/"@ + name
                    &&& listing::lists_name(reading->Directory_0@, name)
                    &&& name != "target"@
                    &&& name != ".git"@
                }
            &&& forall|i: int, j: int|
                0 <= i < j < added.len() ==> text::text_le(
                    (#[trigger] added[j]).path.last(),
                    (#[trigger] added[i]).path.last(),
                )
        }),
{
    let node = state.pending.last();
    let rest = state.pending.drop_last();
    let after = successors(node, reading);
    let next = walked(state, reading).pending;
    let added = next.skip(rest.len() as int);
    assert(next.take(rest.len() as int) =~= rest);
    assert(added =~= after.reverse());
    if reading is Directory {
        let names = listing::visible_names(reading->Directory_0@);
        let sorted = text::sorted_texts(names);
        text::law_sorting_orders_and_keeps(names);
        names.to_multiset_ensures();
        sorted.to_multiset_ensures();
        assert forall|i: int| 0 <= i < added.len() implies (#[trigger] added[i]) == child(
            node,
            sorted[added.len() - 1 - i],
        ) && added[i].path.last() == sorted[added.len() - 1 - i] by {}
        assert forall|i: int| 0 <= i < added.len() implies {
            let name = (#[trigger] added[i]).path.last();
            &&& added[i].path == node.path.push(name)
            &&& added[i].label == node.label + "/"@ + name
            &&& listing::lists_name(reading->Directory_0@, name)
            &&& name != "target"@
            &&& name != ".git"@
        } by {
            let name = sorted[added.len() - 1 - i];
            assert(sorted.contains(name));
            assert(names.to_multiset().count(name) > 0);
            listing::law_every_other_name_is_seen(reading->Directory_0@, name);
        }
    }
}

/// A walk starts at the workspace manifests, and goes on with the crates in the
/// order in which they are listed.
pub proof fn law_walk_starts_at_the_manifests(crates: Set<Seq<char>>)
    ensures
        ({
            let nodes = walk_start(crates).pending.reverse();
            let names = name_set::in_order(crates);
            &&& nodes.len() == names.len() + 2
            &&& nodes[0].label == "Cargo.toml"@ && nodes[0].path == seq!["Cargo.toml"@]
            &&& nodes[1].label == "Cargo.lock"@ && nodes[1].path == seq!["Cargo.lock"@]
            &&& forall|i: int|
                2 <= i < nodes.len() ==> (#[trigger] nodes[i]).label == "crates/"@ + names[i - 2]
                    && nodes[i].path == seq!["crates"@, names[i - 2]]
        }),
{
    let all = roots(name_set::in_order(crates));
    assert(walk_start(crates).pending.reverse() =~= all);
}

} // verus!
