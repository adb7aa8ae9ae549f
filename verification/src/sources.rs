//! The sources of a build as a whole: which files its fingerprint covers, and
//! what a change in them does to it.
use crate::closure;
use crate::fingerprint;
use crate::listing;
use crate::name_set;
use crate::source_walk;
use crate::text;
use vstd::prelude::*;

verus! {

/// The stream that is hashed for `files`.
pub open spec fn sources_stream(files: Seq<(Seq<char>, source_walk::Content)>) -> Seq<u8> {
    source_walk::stream_header() + source_walk::records(files)
}

/// The fingerprint of `files`.
pub open spec fn sources_fingerprint(files: Seq<(Seq<char>, source_walk::Content)>) -> Seq<char> {
    fingerprint::fingerprint_of(fingerprint::sha256(sources_stream(files))@)
}

/// The path of a crate in the workspace.
pub open spec fn crate_path(name: Seq<char>) -> Seq<Seq<char>> {
    seq!["crates"@, name]
}

/// The path of the manifest of a crate.
pub open spec fn manifest_path(name: Seq<char>) -> Seq<Seq<char>> {
    seq!["crates"@, name, "Cargo.toml"@]
}

/// The text of a file, where it can be read and is UTF-8.
pub open spec fn readable_text(tree: source_walk::SourceTree) -> Option<Seq<char>> {
    match tree {
        source_walk::SourceTree::File(bytes) => if vstd::utf8::valid_utf8(bytes) {
            Some(vstd::utf8::decode_utf8(bytes))
        } else {
            None
        },
        _ => None,
    }
}

/// Whether a path is a file, readable or not.
pub open spec fn is_file(tree: source_walk::SourceTree) -> bool {
    tree is File || tree is Unreadable
}

/// The workspace that the search for crates finds in `world`, which gives the
/// tree at each path.
pub open spec fn workspace_of(
    world: spec_fn(Seq<Seq<char>>) -> source_walk::SourceTree,
) -> closure::Workspace {
    closure::Workspace {
        manifest: |name: Seq<char>| readable_text(world(manifest_path(name))),
        is_member: |name: Seq<char>| is_file(world(manifest_path(name))),
    }
}

/// The crates whose sources are compiled into the archives.
pub open spec fn closure_of(
    world: spec_fn(Seq<Seq<char>>) -> source_walk::SourceTree,
    krates: Seq<Seq<char>>,
) -> Set<Seq<char>> {
    Set::new(
        |name: Seq<char>|
            closure::reachable(workspace_of(world), closure::seeds(krates), name),
    )
}

/// The files that the fingerprint covers, in the order of the walk.
pub open spec fn covered_files(
    world: spec_fn(Seq<Seq<char>>) -> source_walk::SourceTree,
    krates: Seq<Seq<char>>,
) -> Seq<(Seq<char>, source_walk::Content)> {
    source_walk::nodes_files(
        world,
        source_walk::roots(name_set::in_order(closure_of(world, krates))),
    )
}

/// The fingerprint of the sources in `world`.
pub open spec fn world_fingerprint(
    world: spec_fn(Seq<Seq<char>>) -> source_walk::SourceTree,
    krates: Seq<Seq<char>>,
) -> Seq<char> {
    sources_fingerprint(covered_files(world, krates))
}

/// A search for crates that is done, and a walk over what it found that is done,
/// both true to the world, give the fingerprint of the sources in it.
pub proof fn law_search_and_walk_give_the_fingerprint(
    world: spec_fn(Seq<Seq<char>>) -> source_walk::SourceTree,
    krates: Seq<Seq<char>>,
    steps: nat,
    readings: Seq<source_walk::Reading>,
)
    requires
        source_walk::consistent(world),
        ({
            let found = closure::explored(
                workspace_of(world),
                closure::started(closure::seeds(krates)),
                steps,
            );
            let start = source_walk::walk_start(found.crates);
            &&& found.queue.len() == 0
            &&& source_walk::true_to(world, start, readings)
            &&& source_walk::walked_through(start, readings).pending.len() == 0
        }),
    ensures
        ({
            let found = closure::explored(
                workspace_of(world),
                closure::started(closure::seeds(krates)),
                steps,
            );
            let last = source_walk::walked_through(
                source_walk::walk_start(found.crates),
                readings,
            );
            fingerprint::fingerprint_of(fingerprint::sha256(last.stream)@) == world_fingerprint(
                world,
                krates,
            )
        }),
{
    let w = workspace_of(world);
    let found = closure::explored(w, closure::started(closure::seeds(krates)), steps);
    assert forall|name: Seq<char>| #[trigger] found.crates.contains(name) <==> closure_of(
        world,
        krates,
    ).contains(name) by {
        closure::law_finished_search_found_the_closure(w, krates, steps, name);
    }
    assert(found.crates =~= closure_of(world, krates));
    source_walk::law_walk_records_the_workspace(world, found.crates, readings);
}

/// What a fingerprint records of a path by itself.
pub open spec fn content_of(tree: source_walk::SourceTree) -> Option<source_walk::Content> {
    match tree {
        source_walk::SourceTree::Missing => Some(source_walk::Content::Missing),
        source_walk::SourceTree::Unreadable => Some(source_walk::Content::Unreadable),
        source_walk::SourceTree::File(bytes) => Some(source_walk::Content::File(bytes)),
        _ => None,
    }
}

/// Whether `tree` has `content` at the end of `names`, none of which is `target`
/// or `.git`.
pub open spec fn reaches(
    tree: source_walk::SourceTree,
    names: Seq<Seq<char>>,
    content: source_walk::Content,
) -> bool
    decreases names.len(),
{
    if names.len() == 0 {
        content_of(tree) == Some(content)
    } else {
        &&& tree is Directory
        &&& names[0] != "target"@
        &&& names[0] != ".git"@
        &&& exists|i: int|
            0 <= i < tree->Directory_0.len() && (#[trigger] tree->Directory_0[i]).0 == names[0]
                && reaches(tree->Directory_0[i].1, names.drop_first(), content)
    }
}

/// Whether a walk starts at `path`: a workspace manifest, or one of `crates`.
pub open spec fn is_root(crates: Set<Seq<char>>, path: Seq<Seq<char>>) -> bool {
    ||| path == seq!["Cargo.toml"@]
    ||| path == seq!["Cargo.lock"@]
    ||| exists|name: Seq<char>| crates.contains(name) && path == #[trigger] crate_path(name)
}

/// Whether the fingerprint covers `path`, and `content` stands there.
pub open spec fn covers(
    world: spec_fn(Seq<Seq<char>>) -> source_walk::SourceTree,
    krates: Seq<Seq<char>>,
    path: Seq<Seq<char>>,
    content: source_walk::Content,
) -> bool {
    exists|root: Seq<Seq<char>>, names: Seq<Seq<char>>|
        #[trigger] is_root(closure_of(world, krates), root) && path == #[trigger] (root + names)
            && reaches(world(root), names, content)
}

/// Whether the fingerprint covers a path that reads `label`, and `content` stands
/// there.
pub open spec fn records_at(
    world: spec_fn(Seq<Seq<char>>) -> source_walk::SourceTree,
    krates: Seq<Seq<char>>,
    label: Seq<char>,
    content: source_walk::Content,
) -> bool {
    exists|path: Seq<Seq<char>>| #[trigger]
        covers(world, krates, path, content) && label == text::joined(path, "/"@)
}

/// What holds of every workspace that a disk can have: it has finitely many
/// crates, and what is recorded of a file can be told from the markers.
pub open spec fn on_disk(
    world: spec_fn(Seq<Seq<char>>) -> source_walk::SourceTree,
    krates: Seq<Seq<char>>,
) -> bool {
    &&& closure_of(world, krates).finite()
    &&& forall|i: int|
        0 <= i < covered_files(world, krates).len() ==> source_walk::recordable(
            #[trigger] covered_files(world, krates)[i],
        )
}

/// The label of what is reached from `label` by `names`.
spec fn below(label: Seq<char>, names: Seq<Seq<char>>) -> Seq<char>
    decreases names.len(),
{
    if names.len() == 0 {
        label
    } else {
        below(label + "/"@ + names[0], names.drop_first())
    }
}

proof fn lemma_below(root: Seq<Seq<char>>, names: Seq<Seq<char>>)
    requires
        root.len() > 0,
    ensures
        below(text::joined(root, "/"@), names) == text::joined(root + names, "/"@),
    decreases names.len(),
{
    if names.len() == 0 {
        assert(root + names =~= root);
    } else {
        let next = root.push(names[0]);
        assert(next.drop_last() =~= root);
        lemma_below(next, names.drop_first());
        assert(next + names.drop_first() =~= root + names);
    }
}

proof fn lemma_entry_is_listed(
    label: Seq<char>,
    entries: Seq<(Seq<char>, source_walk::SourceTree)>,
    i: int,
    file: (Seq<char>, source_walk::Content),
)
    requires
        0 <= i < entries.len(),
        !listing::excluded(entries[i].0),
        source_walk::tree_files(label + "/"@ + entries[i].0, entries[i].1).contains(file),
    ensures
        source_walk::entries_files(label, entries).contains(file),
    decreases entries.len(),
{
    let rest = entries.drop_first();
    let more = source_walk::entries_files(label, rest);
    let first = source_walk::tree_files(label + "/"@ + entries[0].0, entries[0].1);
    if i == 0 {
        assert((first + more)[first.index_of(file)] == file);
    } else {
        assert(rest[i - 1] == entries[i]);
        lemma_entry_is_listed(label, rest, i - 1, file);
        if !listing::excluded(entries[0].0) {
            assert((first + more)[first.len() + more.index_of(file)] == file);
        }
    }
}

proof fn lemma_reached_is_listed(
    label: Seq<char>,
    tree: source_walk::SourceTree,
    names: Seq<Seq<char>>,
    content: source_walk::Content,
)
    requires
        reaches(tree, names, content),
    ensures
        source_walk::tree_files(label, tree).contains((below(label, names), content)),
    decreases names.len(),
{
    if names.len() == 0 {
        assert(source_walk::tree_files(label, tree)[0] == (label, content));
    } else {
        let entries = tree->Directory_0;
        let i = choose|i: int|
            0 <= i < tree->Directory_0.len() && (#[trigger] tree->Directory_0[i]).0 == names[0]
                && reaches(tree->Directory_0[i].1, names.drop_first(), content);
        lemma_reached_is_listed(
            label + "/"@ + names[0],
            entries[i].1,
            names.drop_first(),
            content,
        );
        lemma_entry_is_listed(label, entries, i, (below(label, names), content));
    }
}

proof fn lemma_listed_is_reached(
    label: Seq<char>,
    tree: source_walk::SourceTree,
    file: (Seq<char>, source_walk::Content),
) -> (names: Seq<Seq<char>>)
    requires
        source_walk::tree_files(label, tree).contains(file),
    ensures
        file.0 == below(label, names),
        reaches(tree, names, file.1),
    decreases tree,
{
    match tree {
        source_walk::SourceTree::Directory(entries) => {
            let (i, names) = lemma_listed_entry(label, entries, file);
            let all = seq![entries[i].0] + names;
            assert(all.drop_first() =~= names);
            assert(tree->Directory_0[i].0 == all[0]);
            all
        },
        _ => {
            let names = Seq::<Seq<char>>::empty();
            assert(source_walk::tree_files(label, tree).len() == 1);
            assert(file == source_walk::tree_files(label, tree)[0]);
            names
        },
    }
}

proof fn lemma_listed_entry(
    label: Seq<char>,
    entries: Seq<(Seq<char>, source_walk::SourceTree)>,
    file: (Seq<char>, source_walk::Content),
) -> (r: (int, Seq<Seq<char>>))
    requires
        source_walk::entries_files(label, entries).contains(file),
    ensures
        0 <= r.0 < entries.len(),
        !listing::excluded(entries[r.0].0),
        file.0 == below(label + "/"@ + entries[r.0].0, r.1),
        reaches(entries[r.0].1, r.1, file.1),
    decreases entries,
{
    let rest = entries.drop_first();
    let all = source_walk::entries_files(label, entries);
    let more = source_walk::entries_files(label, rest);
    if listing::excluded(entries[0].0) {
        let (i, names) = lemma_listed_entry(label, rest, file);
        (i + 1, names)
    } else {
        let first = source_walk::tree_files(label + "/"@ + entries[0].0, entries[0].1);
        let k = all.index_of(file);
        if k < first.len() {
            assert(first[k] == file);
            (0, lemma_listed_is_reached(label + "/"@ + entries[0].0, entries[0].1, file))
        } else {
            assert(more[k - first.len()] == file);
            let (i, names) = lemma_listed_entry(label, rest, file);
            (i + 1, names)
        }
    }
}

proof fn lemma_node_is_listed(
    world: spec_fn(Seq<Seq<char>>) -> source_walk::SourceTree,
    nodes: Seq<source_walk::NodeView>,
    k: int,
    file: (Seq<char>, source_walk::Content),
)
    requires
        0 <= k < nodes.len(),
        source_walk::tree_files(nodes[k].label, world(nodes[k].path)).contains(file),
    ensures
        source_walk::nodes_files(world, nodes).contains(file),
    decreases nodes.len(),
{
    let rest = nodes.drop_first();
    let first = source_walk::tree_files(nodes[0].label, world(nodes[0].path));
    let more = source_walk::nodes_files(world, rest);
    if k == 0 {
        assert((first + more)[first.index_of(file)] == file);
    } else {
        assert(rest[k - 1] == nodes[k]);
        lemma_node_is_listed(world, rest, k - 1, file);
        assert((first + more)[first.len() + more.index_of(file)] == file);
    }
}

proof fn lemma_listed_node(
    world: spec_fn(Seq<Seq<char>>) -> source_walk::SourceTree,
    nodes: Seq<source_walk::NodeView>,
    file: (Seq<char>, source_walk::Content),
) -> (k: int)
    requires
        source_walk::nodes_files(world, nodes).contains(file),
    ensures
        0 <= k < nodes.len(),
        source_walk::tree_files(nodes[k].label, world(nodes[k].path)).contains(file),
    decreases nodes.len(),
{
    let all = source_walk::nodes_files(world, nodes);
    let rest = nodes.drop_first();
    let first = source_walk::tree_files(nodes[0].label, world(nodes[0].path));
    let more = source_walk::nodes_files(world, rest);
    let i = all.index_of(file);
    if i < first.len() {
        assert(first[i] == file);
        0
    } else {
        assert(more[i - first.len()] == file);
        lemma_listed_node(world, rest, file) + 1
    }
}

proof fn lemma_crate_label(name: Seq<char>)
    ensures
        "crates/"@ + name == text::joined(crate_path(name), "/"@),
{
    reveal_strlit("crates/");
    reveal_strlit("crates");
    reveal_strlit("/");
    let path = crate_path(name);
    assert(path.drop_last() =~= seq!["crates"@]);
    assert(text::joined(path.drop_last(), "/"@) == "crates"@);
    assert("crates/"@ =~= "crates"@ + "/"@);
}

proof fn lemma_roots(crates: Set<Seq<char>>, k: int)
    requires
        crates.finite(),
        0 <= k < source_walk::roots(name_set::in_order(crates)).len(),
    ensures
        ({
            let node = source_walk::roots(name_set::in_order(crates))[k];
            &&& is_root(crates, node.path)
            &&& node.path.len() > 0
            &&& node.label == text::joined(node.path, "/"@)
        }),
{
    let names = name_set::in_order(crates);
    name_set::lemma_listing_exists(crates);
    let node = source_walk::roots(names)[k];
    if k >= 2 {
        let name = names[k - 2];
        assert(names.contains(name));
        lemma_crate_label(name);
        assert(node.path =~= crate_path(name));
    }
}

proof fn lemma_root_position(crates: Set<Seq<char>>, root: Seq<Seq<char>>) -> (k: int)
    requires
        crates.finite(),
        is_root(crates, root),
    ensures
        0 <= k < source_walk::roots(name_set::in_order(crates)).len(),
        source_walk::roots(name_set::in_order(crates))[k].path == root,
{
    let names = name_set::in_order(crates);
    name_set::lemma_listing_exists(crates);
    if root == seq!["Cargo.toml"@] {
        0
    } else if root == seq!["Cargo.lock"@] {
        1
    } else {
        let name = choose|name: Seq<char>|
            crates.contains(name) && root == #[trigger] crate_path(name);
        assert(names.contains(name));
        let i = names.index_of(name);
        assert(source_walk::roots(names)[i + 2].path =~= crate_path(name));
        i + 2
    }
}

proof fn lemma_covered_is_listed(
    world: spec_fn(Seq<Seq<char>>) -> source_walk::SourceTree,
    krates: Seq<Seq<char>>,
    path: Seq<Seq<char>>,
    content: source_walk::Content,
)
    requires
        closure_of(world, krates).finite(),
        covers(world, krates, path, content),
    ensures
        covered_files(world, krates).contains((text::joined(path, "/"@), content)),
{
    let crates = closure_of(world, krates);
    let (root, names) = choose|root: Seq<Seq<char>>, names: Seq<Seq<char>>|
        #[trigger] is_root(crates, root) && path == #[trigger] (root + names) && reaches(
            world(root),
            names,
            content,
        );
    let k = lemma_root_position(crates, root);
    lemma_roots(crates, k);
    let nodes = source_walk::roots(name_set::in_order(crates));
    lemma_reached_is_listed(nodes[k].label, world(root), names, content);
    lemma_below(root, names);
    lemma_node_is_listed(world, nodes, k, (text::joined(path, "/"@), content));
}

proof fn lemma_listed_is_covered(
    world: spec_fn(Seq<Seq<char>>) -> source_walk::SourceTree,
    krates: Seq<Seq<char>>,
    file: (Seq<char>, source_walk::Content),
) -> (path: Seq<Seq<char>>)
    requires
        closure_of(world, krates).finite(),
        covered_files(world, krates).contains(file),
    ensures
        covers(world, krates, path, file.1),
        file.0 == text::joined(path, "/"@),
{
    let crates = closure_of(world, krates);
    let nodes = source_walk::roots(name_set::in_order(crates));
    let k = lemma_listed_node(world, nodes, file);
    lemma_roots(crates, k);
    let root = nodes[k].path;
    let names = lemma_listed_is_reached(nodes[k].label, world(root), file);
    lemma_below(root, names);
    assert(is_root(crates, root) && reaches(world(root), names, file.1));
    root + names
}

/// Equal fingerprints are made from the same files, unless the two streams of
/// bytes that are hashed collide.
pub proof fn law_fingerprint_identifies_the_files(
    files_a: Seq<(Seq<char>, source_walk::Content)>,
    files_b: Seq<(Seq<char>, source_walk::Content)>,
)
    requires
        forall|i: int| 0 <= i < files_a.len() ==> source_walk::recordable(#[trigger] files_a[i]),
        forall|i: int| 0 <= i < files_b.len() ==> source_walk::recordable(#[trigger] files_b[i]),
    ensures
        sources_fingerprint(files_a) == sources_fingerprint(files_b) ==> files_a == files_b
            || fingerprint::collide(sources_stream(files_a), sources_stream(files_b)),
{
    let a = sources_stream(files_a);
    let b = sources_stream(files_b);
    if sources_fingerprint(files_a) == sources_fingerprint(files_b) {
        fingerprint::law_fingerprint_identifies_the_digest(
            fingerprint::sha256(a)@,
            fingerprint::sha256(b)@,
        );
    }
    if a == b {
        text::lemma_cancel_start(
            source_walk::stream_header(),
            source_walk::records(files_a),
            source_walk::records(files_b),
        );
        source_walk::law_records_identify_the_files(files_a, files_b);
    }
}

/// A file that the fingerprint covers cannot change, be renamed, be added or be
/// removed without a change of the fingerprint, unless the two streams of bytes
/// that are hashed collide: where one world has `content` at a covered path that
/// reads `label` and the other has not, the fingerprints differ.
pub proof fn law_changed_file_changes_the_fingerprint(
    world_a: spec_fn(Seq<Seq<char>>) -> source_walk::SourceTree,
    world_b: spec_fn(Seq<Seq<char>>) -> source_walk::SourceTree,
    krates: Seq<Seq<char>>,
    label: Seq<char>,
    content: source_walk::Content,
)
    requires
        on_disk(world_a, krates),
        on_disk(world_b, krates),
        records_at(world_a, krates, label, content) != records_at(world_b, krates, label, content),
    ensures
        world_fingerprint(world_a, krates) != world_fingerprint(world_b, krates)
            || fingerprint::collide(
            sources_stream(covered_files(world_a, krates)),
            sources_stream(covered_files(world_b, krates)),
        ),
{
    if world_fingerprint(world_a, krates) == world_fingerprint(world_b, krates) {
        law_fingerprint_identifies_the_files(
            covered_files(world_a, krates),
            covered_files(world_b, krates),
        );
        lemma_recorded_is_listed(world_a, krates, label, content);
        lemma_recorded_is_listed(world_b, krates, label, content);
    }
}

proof fn lemma_recorded_is_listed(
    world: spec_fn(Seq<Seq<char>>) -> source_walk::SourceTree,
    krates: Seq<Seq<char>>,
    label: Seq<char>,
    content: source_walk::Content,
)
    requires
        closure_of(world, krates).finite(),
    ensures
        records_at(world, krates, label, content) <==> covered_files(world, krates).contains(
            (label, content),
        ),
{
    if records_at(world, krates, label, content) {
        let path = choose|path: Seq<Seq<char>>| #[trigger]
            covers(world, krates, path, content) && label == text::joined(path, "/"@);
        lemma_covered_is_listed(world, krates, path, content);
    }
    if covered_files(world, krates).contains((label, content)) {
        let path = lemma_listed_is_covered(world, krates, (label, content));
        assert(covers(world, krates, path, content));
    }
}

proof fn lemma_reached_stands(
    world: spec_fn(Seq<Seq<char>>) -> source_walk::SourceTree,
    root: Seq<Seq<char>>,
    names: Seq<Seq<char>>,
    content: source_walk::Content,
)
    requires
        source_walk::consistent(world),
        reaches(world(root), names, content),
    ensures
        content_of(world(root + names)) == Some(content),
    decreases names.len(),
{
    if names.len() == 0 {
        assert(root + names =~= root);
    } else {
        let tree = world(root);
        let i = choose|i: int|
            0 <= i < tree->Directory_0.len() && (#[trigger] tree->Directory_0[i]).0 == names[0]
                && reaches(tree->Directory_0[i].1, names.drop_first(), content);
        assert(world(root)->Directory_0[i] == tree->Directory_0[i]);
        assert(world(root.push(names[0])) == tree->Directory_0[i].1);
        lemma_reached_stands(world, root.push(names[0]), names.drop_first(), content);
        assert(root.push(names[0]) + names.drop_first() =~= root + names);
    }
}

/// Whether `content` does not stand at `path`, however the text of the path is
/// split into names.
pub open spec fn stands_nowhere_at(
    world: spec_fn(Seq<Seq<char>>) -> source_walk::SourceTree,
    path: Seq<Seq<char>>,
    content: source_walk::Content,
) -> bool {
    forall|other: Seq<Seq<char>>|
        text::joined(other, "/"@) == text::joined(path, "/"@) ==> content_of(
            #[trigger] world(other),
        ) != Some(content)
}

/// Whether the manifest of `from` holds the name of the workspace member `to` as
/// a token: in a dependency line, a section header, or anywhere else.
pub open spec fn links(
    world: spec_fn(Seq<Seq<char>>) -> source_walk::SourceTree,
    from: Seq<char>,
    to: Seq<char>,
) -> bool {
    &&& readable_text(world(manifest_path(from))) matches Some(manifest)
    &&& closure::stands_in(manifest, to)
    &&& is_file(world(manifest_path(to)))
}

/// Whether each crate of `chain` links to the next.
pub open spec fn linked_chain(
    world: spec_fn(Seq<Seq<char>>) -> source_walk::SourceTree,
    chain: Seq<Seq<char>>,
) -> bool {
    forall|i: int, j: int|
        0 <= i && j == i + 1 && j < chain.len() ==> links(
            world,
            #[trigger] chain[i],
            #[trigger] chain[j],
        )
}

/// Path dependencies are followed transitively: a crate to which a chain of
/// manifests leads from one that the build compiles directly is covered.
pub proof fn law_linked_crate_is_covered(
    world: spec_fn(Seq<Seq<char>>) -> source_walk::SourceTree,
    krates: Seq<Seq<char>>,
    chain: Seq<Seq<char>>,
)
    requires
        chain.len() > 0,
        closure::seeds(krates).contains(chain[0]),
        linked_chain(world, chain),
    ensures
        closure_of(world, krates).contains(chain.last()),
    decreases chain.len(),
{
    let w = workspace_of(world);
    let from = closure::seeds(krates);
    if chain.len() == 1 {
        assert(closure::within(w, from, 0).contains(chain[0]));
    } else {
        let head = chain.drop_last();
        assert forall|i: int, j: int| 0 <= i && j == i + 1 && j < head.len() implies links(
            world,
            #[trigger] head[i],
            #[trigger] head[j],
        ) by {
            assert(links(world, chain[i], chain[j]));
        }
        law_linked_crate_is_covered(world, krates, head);
        let m = head.last();
        let c = chain.last();
        assert(m == chain[chain.len() - 2] && c == chain[chain.len() - 1]);
        assert(links(world, m, c));
        closure::law_any_token_is_mentioned((w.manifest)(m)->0, c);
        assert(closure::depends(w, m, c));
        assert(closure::reachable(w, from, m));
        let n = choose|n: nat| closure::within(w, from, n).contains(m);
        assert(closure::within(w, from, (n + 1) as nat).contains(c));
    }
}

/// Where a covered file of one world is not what stands at its path in the other,
/// the fingerprints differ, unless the two streams of bytes that are hashed
/// collide.
pub proof fn law_other_content_changes_the_fingerprint(
    world_a: spec_fn(Seq<Seq<char>>) -> source_walk::SourceTree,
    world_b: spec_fn(Seq<Seq<char>>) -> source_walk::SourceTree,
    krates: Seq<Seq<char>>,
    path: Seq<Seq<char>>,
    content: source_walk::Content,
)
    requires
        on_disk(world_a, krates),
        on_disk(world_b, krates),
        source_walk::consistent(world_b),
        covers(world_a, krates, path, content),
        stands_nowhere_at(world_b, path, content),
    ensures
        world_fingerprint(world_a, krates) != world_fingerprint(world_b, krates)
            || fingerprint::collide(
            sources_stream(covered_files(world_a, krates)),
            sources_stream(covered_files(world_b, krates)),
        ),
{
    let label = text::joined(path, "/"@);
    assert(records_at(world_a, krates, label, content));
    if records_at(world_b, krates, label, content) {
        let other = choose|other: Seq<Seq<char>>| #[trigger]
            covers(world_b, krates, other, content) && label == text::joined(other, "/"@);
        let crates = closure_of(world_b, krates);
        let (root, names) = choose|root: Seq<Seq<char>>, names: Seq<Seq<char>>|
            #[trigger] is_root(crates, root) && other == #[trigger] (root + names) && reaches(
                world_b(root),
                names,
                content,
            );
        lemma_reached_stands(world_b, root, names, content);
    }
    law_changed_file_changes_the_fingerprint(world_a, world_b, krates, label, content);
}

/// A change in a file of a crate, to which a chain of manifests leads from one
/// that the build compiles directly, changes the fingerprint, unless the two
/// streams of bytes that are hashed collide.
pub proof fn law_change_in_a_dependency_changes_the_fingerprint(
    world_a: spec_fn(Seq<Seq<char>>) -> source_walk::SourceTree,
    world_b: spec_fn(Seq<Seq<char>>) -> source_walk::SourceTree,
    krates: Seq<Seq<char>>,
    chain: Seq<Seq<char>>,
    names: Seq<Seq<char>>,
    content: source_walk::Content,
)
    requires
        on_disk(world_a, krates),
        on_disk(world_b, krates),
        chain.len() > 0,
        closure::seeds(krates).contains(chain[0]),
        linked_chain(world_a, chain),
        reaches(world_a(crate_path(chain.last())), names, content),
        source_walk::consistent(world_b),
        stands_nowhere_at(world_b, crate_path(chain.last()) + names, content),
    ensures
        world_fingerprint(world_a, krates) != world_fingerprint(world_b, krates)
            || fingerprint::collide(
            sources_stream(covered_files(world_a, krates)),
            sources_stream(covered_files(world_b, krates)),
        ),
{
    let root = crate_path(chain.last());
    law_linked_crate_is_covered(world_a, krates, chain);
    assert(is_root(closure_of(world_a, krates), root));
    assert(covers(world_a, krates, root + names, content));
    law_other_content_changes_the_fingerprint(world_a, world_b, krates, root + names, content);
}

/// Whether the manifests of `crates` lead to the same workspace members in two
/// worlds.
pub open spec fn same_manifests(
    world_a: spec_fn(Seq<Seq<char>>) -> source_walk::SourceTree,
    world_b: spec_fn(Seq<Seq<char>>) -> source_walk::SourceTree,
    crates: Set<Seq<char>>,
) -> bool {
    let a = workspace_of(world_a);
    let b = workspace_of(world_b);
    forall|m: Seq<char>, c: Seq<char>|
        crates.contains(m) ==> (#[trigger] closure::depends(a, m, c) <==> closure::depends(b, m, c))
}

proof fn lemma_same_nodes(
    world_a: spec_fn(Seq<Seq<char>>) -> source_walk::SourceTree,
    world_b: spec_fn(Seq<Seq<char>>) -> source_walk::SourceTree,
    nodes: Seq<source_walk::NodeView>,
)
    requires
        forall|k: int|
            0 <= k < nodes.len() ==> source_walk::bare(world_a((#[trigger] nodes[k]).path))
                == source_walk::bare(world_b(nodes[k].path)),
    ensures
        source_walk::nodes_files(world_a, nodes) == source_walk::nodes_files(world_b, nodes),
    decreases nodes.len(),
{
    if nodes.len() > 0 {
        let rest = nodes.drop_first();
        assert forall|k: int| 0 <= k < rest.len() implies source_walk::bare(
            world_a((#[trigger] rest[k]).path),
        ) == source_walk::bare(world_b(rest[k].path)) by {
            assert(rest[k] == nodes[k + 1]);
        }
        lemma_same_nodes(world_a, world_b, rest);
        source_walk::law_unseen_entries_do_not_matter(
            nodes[0].label,
            world_a(nodes[0].path),
            world_b(nodes[0].path),
        );
    }
}

/// A change below entries named `target` or `.git`, at any depth, or of
/// directories in which nothing is seen leaves the fingerprint as it was, as long
/// as the same crates are covered. Crates that are not may change at will.
pub proof fn law_unseen_changes_keep_the_fingerprint(
    world_a: spec_fn(Seq<Seq<char>>) -> source_walk::SourceTree,
    world_b: spec_fn(Seq<Seq<char>>) -> source_walk::SourceTree,
    krates: Seq<Seq<char>>,
)
    requires
        closure_of(world_a, krates).finite(),
        closure_of(world_a, krates) == closure_of(world_b, krates),
        forall|root: Seq<Seq<char>>| #[trigger]
            is_root(closure_of(world_a, krates), root) ==> source_walk::bare(world_a(root))
                == source_walk::bare(world_b(root)),
    ensures
        world_fingerprint(world_a, krates) == world_fingerprint(world_b, krates),
{
    let crates = closure_of(world_a, krates);
    let nodes = source_walk::roots(name_set::in_order(crates));
    assert forall|k: int| 0 <= k < nodes.len() implies source_walk::bare(
        world_a((#[trigger] nodes[k]).path),
    ) == source_walk::bare(world_b(nodes[k].path)) by {
        lemma_roots(crates, k);
    }
    lemma_same_nodes(world_a, world_b, nodes);
}

proof fn lemma_same_steps(
    world_a: spec_fn(Seq<Seq<char>>) -> source_walk::SourceTree,
    world_b: spec_fn(Seq<Seq<char>>) -> source_walk::SourceTree,
    krates: Seq<Seq<char>>,
    n: nat,
)
    requires
        same_manifests(world_a, world_b, closure_of(world_a, krates)),
    ensures
        closure::within(workspace_of(world_a), closure::seeds(krates), n) == closure::within(
            workspace_of(world_b),
            closure::seeds(krates),
            n,
        ),
    decreases n,
{
    let a = workspace_of(world_a);
    let b = workspace_of(world_b);
    let from = closure::seeds(krates);
    if n > 0 {
        let k = (n - 1) as nat;
        lemma_same_steps(world_a, world_b, krates, k);
        let near = closure::within(a, from, k);
        assert forall|m: Seq<char>| #[trigger] near.contains(m) implies closure_of(
            world_a,
            krates,
        ).contains(m) by {
            assert(closure::reachable(a, from, m));
        }
        assert forall|c: Seq<char>|
            closure::within(a, from, n).contains(c) <==> closure::within(b, from, n).contains(
                c,
            ) by {
            if exists|m: Seq<char>| near.contains(m) && closure::depends(a, m, c) {
                let m = choose|m: Seq<char>| near.contains(m) && closure::depends(a, m, c);
                assert(near.contains(m) && closure::depends(b, m, c));
            }
            if exists|m: Seq<char>| near.contains(m) && closure::depends(b, m, c) {
                let m = choose|m: Seq<char>| near.contains(m) && closure::depends(b, m, c);
                assert(closure::depends(a, m, c) <==> closure::depends(b, m, c));
                assert(near.contains(m) && closure::depends(a, m, c));
            }
        }
        assert(closure::within(a, from, n) =~= closure::within(b, from, n));
    }
}

/// Which crates are covered depends on their own manifests alone, and on which of
/// the names that these mention are members.
pub proof fn law_same_manifests_cover_the_same_crates(
    world_a: spec_fn(Seq<Seq<char>>) -> source_walk::SourceTree,
    world_b: spec_fn(Seq<Seq<char>>) -> source_walk::SourceTree,
    krates: Seq<Seq<char>>,
)
    requires
        same_manifests(world_a, world_b, closure_of(world_a, krates)),
    ensures
        closure_of(world_a, krates) == closure_of(world_b, krates),
{
    let a = workspace_of(world_a);
    let b = workspace_of(world_b);
    let from = closure::seeds(krates);
    assert forall|c: Seq<char>|
        closure::reachable(a, from, c) <==> closure::reachable(b, from, c) by {
        if closure::reachable(a, from, c) {
            let n = choose|n: nat| closure::within(a, from, n).contains(c);
            lemma_same_steps(world_a, world_b, krates, n);
            assert(closure::within(b, from, n).contains(c));
        }
        if closure::reachable(b, from, c) {
            let n = choose|n: nat| closure::within(b, from, n).contains(c);
            lemma_same_steps(world_a, world_b, krates, n);
            assert(closure::within(a, from, n).contains(c));
        }
    }
    assert(closure_of(world_a, krates) =~= closure_of(world_b, krates));
}

proof fn lemma_same_label(label: Seq<char>, names: Seq<Seq<char>>)
    ensures
        below(label, names) == source_walk::label_below(label, names),
    decreases names.len(),
{
    if names.len() > 0 {
        lemma_same_label(label + "/"@ + names[0], names.drop_first());
    }
}

/// Every file below a workspace manifest or a crate is in the stream once the
/// walk is done, under its path: each that is reached through listings, and on
/// whose path no name is `target` or `.git`. So are the markers of what is missing
/// or cannot be read.
pub proof fn law_every_source_file_is_recorded(
    world: spec_fn(Seq<Seq<char>>) -> source_walk::Reading,
    crates: Set<Seq<char>>,
    readings: Seq<source_walk::Reading>,
    root: Seq<Seq<char>>,
    names: Seq<Seq<char>>,
)
    requires
        crates.finite(),
        source_walk::reads(world, source_walk::walk_start(crates), readings),
        source_walk::walked_through(source_walk::walk_start(crates), readings).pending.len() == 0,
        ({
            ||| root == seq!["Cargo.toml"@]
            ||| root == seq!["Cargo.lock"@]
            ||| exists|name: Seq<char>| #[trigger]
                crates.contains(name) && root == seq!["crates"@, name]
        }),
        source_walk::listed_at(world, root, names),
    ensures
        ({
            let label = vstd::utf8::encode_utf8(text::joined(root + names, "/"@));
            let stream = source_walk::walked_through(
                source_walk::walk_start(crates),
                readings,
            ).stream;
            match world(root + names) {
                source_walk::Reading::File(bytes) => source_walk::holds(
                    stream,
                    label + seq![0u8] + vstd::bytes::spec_u64_to_le_bytes(bytes@.len() as u64)
                        + bytes@,
                ),
                source_walk::Reading::Missing => source_walk::holds(
                    stream,
                    label + vstd::utf8::encode_utf8("\0missing\0"@),
                ),
                source_walk::Reading::Unreadable => source_walk::holds(
                    stream,
                    label + vstd::utf8::encode_utf8("\0unreadable\0"@),
                ),
                _ => true,
            }
        }),
{
    lemma_start_is_root(crates, root);
    let k = lemma_root_position(crates, root);
    lemma_roots(crates, k);
    let nodes = source_walk::roots(name_set::in_order(crates));
    let start = source_walk::walk_start(crates);
    let at = nodes.len() - 1 - k;
    assert(start.pending[at] == nodes[k]);
    source_walk::lemma_pending_is_recorded(world, start, readings, at, names);
    lemma_below(root, names);
    lemma_same_label(text::joined(root, "/"@), names);
    source_walk::law_record_of_a_path(text::joined(root + names, "/"@), world(root + names));
}

proof fn lemma_start_is_root(crates: Set<Seq<char>>, root: Seq<Seq<char>>)
    requires
        ({
            ||| root == seq!["Cargo.toml"@]
            ||| root == seq!["Cargo.lock"@]
            ||| exists|name: Seq<char>| #[trigger]
                crates.contains(name) && root == seq!["crates"@, name]
        }),
    ensures
        is_root(crates, root),
{
    if root != seq!["Cargo.toml"@] && root != seq!["Cargo.lock"@] {
        let name = choose|name: Seq<char>| #[trigger]
            crates.contains(name) && root == seq!["crates"@, name];
        assert(root =~= crate_path(name));
    }
}

/// A change of the bytes of a file changes the stream, whatever else stays as it
/// is: of each file below a workspace manifest or a crate that is reached through
/// listings, and on whose path no name is `target` or `.git`.
pub proof fn law_changed_bytes_change_the_stream(
    before: spec_fn(Seq<Seq<char>>) -> source_walk::Reading,
    after: spec_fn(Seq<Seq<char>>) -> source_walk::Reading,
    crates: Set<Seq<char>>,
    first: Seq<source_walk::Reading>,
    second: Seq<source_walk::Reading>,
    root: Seq<Seq<char>>,
    names: Seq<Seq<char>>,
)
    requires
        crates.finite(),
        source_walk::reads(before, source_walk::walk_start(crates), first),
        source_walk::reads(after, source_walk::walk_start(crates), second),
        source_walk::walked_through(source_walk::walk_start(crates), first).pending.len() == 0,
        source_walk::walked_through(source_walk::walk_start(crates), second).pending.len() == 0,
        ({
            ||| root == seq!["Cargo.toml"@]
            ||| root == seq!["Cargo.lock"@]
            ||| exists|name: Seq<char>| #[trigger]
                crates.contains(name) && root == seq!["crates"@, name]
        }),
        source_walk::listed_at(before, root, names),
        forall|path: Seq<Seq<char>>|
            path != root + names ==> #[trigger] before(path) == after(path),
        before(root + names) is File,
        after(root + names) is File,
        before(root + names)->File_0@ != after(root + names)->File_0@,
    ensures
        source_walk::walked_through(source_walk::walk_start(crates), first).stream
            != source_walk::walked_through(source_walk::walk_start(crates), second).stream,
{
    lemma_start_is_root(crates, root);
    let k = lemma_root_position(crates, root);
    let nodes = source_walk::roots(name_set::in_order(crates));
    let start = source_walk::walk_start(crates);
    let at = nodes.len() - 1 - k;
    assert(start.pending[at] == nodes[k]);
    source_walk::lemma_change_is_seen(
        before,
        after,
        root + names,
        start,
        start,
        first,
        second,
        at,
        names,
    );
}

} // verus!
