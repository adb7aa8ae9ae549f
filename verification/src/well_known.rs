//! The libraries of well-known bindings that a build links.
use crate::bindings::Binding;
use crate::text;
use crate::text::clone_names;
use vstd::prelude::*;

verus! {

/// How the compiler reports to its caller.
#[derive(Clone, Copy, Debug, PartialEq, Eq, Structural)]
pub enum OutputFormat {
    Text,
    Json,
}

/// What a path starts from.
#[derive(Clone, Copy, Debug, PartialEq, Eq, Structural)]
pub enum PathBase {
    /// The release directory of the rebuild.
    ReleaseDir,
    /// The workspace root.
    WorkspaceRoot,
}

/// A path: names to be joined to a base one after the other.
pub struct LibPath {
    pub base: PathBase,
    pub names: Vec<String>,
}

/// A path as plain data.
pub struct LibPathView {
    pub base: PathBase,
    pub names: Seq<Seq<char>>,
}

impl View for LibPath {
    type V = LibPathView;

    open spec fn view(&self) -> LibPathView {
        LibPathView { base: self.base, names: text::views(self.names@) }
    }
}

/// Paths as plain data.
pub open spec fn lib_views(paths: Seq<LibPath>) -> Seq<LibPathView> {
    paths.map_values(|p: LibPath| p@)
}

/// Where the library `file_name` may stand, the best place first: what the
/// rebuild made, what the workspace has for the target triple, what it has for
/// the host.
pub open spec fn candidates(file_name: Seq<char>, triple: Option<Seq<char>>) -> Seq<LibPathView> {
    let rebuilt = LibPathView { base: PathBase::ReleaseDir, names: seq![file_name] };
    let host = LibPathView {
        base: PathBase::WorkspaceRoot,
        names: seq!["target"@, "release"@, file_name],
    };
    match triple {
        Some(triple) => seq![
            rebuilt,
            LibPathView {
                base: PathBase::WorkspaceRoot,
                names: seq!["target"@, triple, "release"@, file_name],
            },
            host,
        ],
        None => seq![rebuilt, host],
    }
}

/// Where the library `file_name` may stand, the best place first.
pub fn library_candidates(file_name: &str, triple: Option<&str>) -> (r: Vec<LibPath>)
    ensures
        lib_views(r@) == candidates(file_name@, text::opt_str_view(triple)),
{
    let mut out: Vec<LibPath> = Vec::new();
    let mut names: Vec<String> = Vec::new();
    names.push(file_name.to_owned());
    proof {
        assert(text::views(names@) =~= seq![file_name@]);
    }
    out.push(LibPath { base: PathBase::ReleaseDir, names });
    if let Some(triple) = triple {
        let mut names: Vec<String> = Vec::new();
        names.push("target".to_owned());
        names.push(triple.to_owned());
        names.push("release".to_owned());
        names.push(file_name.to_owned());
        proof {
            assert(text::views(names@) =~= seq!["target"@, triple@, "release"@, file_name@]);
        }
        out.push(LibPath { base: PathBase::WorkspaceRoot, names });
    }
    let mut names: Vec<String> = Vec::new();
    names.push("target".to_owned());
    names.push("release".to_owned());
    names.push(file_name.to_owned());
    proof {
        assert(text::views(names@) =~= seq!["target"@, "release"@, file_name@]);
    }
    out.push(LibPath { base: PathBase::WorkspaceRoot, names });
    proof {
        assert(lib_views(out@) =~= candidates(file_name@, text::opt_str_view(triple)));
    }
    out
}

/// The library of a binding: its file name, and for each of its candidates
/// whether it exists.
pub struct LibProbe {
    pub file_name: String,
    pub exists: Vec<bool>,
}

/// The first of the candidates that exists, from `from` on.
pub open spec fn first_existing(exists: Seq<bool>, from: nat, to: nat) -> Option<nat>
    decreases to - from,
{
    if from >= to {
        None
    } else if from < exists.len() && exists[from as int] {
        Some(from)
    } else {
        first_existing(exists, from + 1, to)
    }
}

/// The place of the candidate that is linked for a binding, if any exists.
pub open spec fn chosen(probe: LibProbe, triple: Option<Seq<char>>) -> Option<nat> {
    first_existing(probe.exists@, 0, candidates(probe.file_name@, triple).len())
}

/// The libraries that are linked, in the order of the bindings.
pub open spec fn linked(probes: Seq<LibProbe>, triple: Option<Seq<char>>) -> Seq<LibPathView>
    decreases probes.len(),
{
    if probes.len() == 0 {
        Seq::empty()
    } else {
        let before = linked(probes.drop_last(), triple);
        let probe = probes.last();
        match chosen(probe, triple) {
            Some(i) => before.push(candidates(probe.file_name@, triple)[i as int]),
            None => before,
        }
    }
}

/// What is said when a library of the workspace stands in for the rebuilt one.
pub open spec fn fallback_notice(file_name: Seq<char>, release_dir: Seq<char>) -> Seq<char> {
    "  well-known: rebuild produced no `"@ + file_name + "` in "@ + release_dir
        + " — using workspace fallback (CONTEXT panic risk on tokio I/O)"@
}

/// What is said when a library does not exist.
pub open spec fn missing_notice(file_name: Seq<char>, krate: Seq<char>) -> Seq<char> {
    "  well-known: rebuild produced no `"@ + file_name + "` for `"@ + krate
        + "`; skipping — link will likely fail with unresolved js_* symbols."@
}

/// The notices on libraries that the rebuild did not produce, in the order of
/// the bindings. Only text output has them.
pub open spec fn notices(
    krates: Seq<Seq<char>>,
    probes: Seq<LibProbe>,
    triple: Option<Seq<char>>,
    format: OutputFormat,
    release_dir: Seq<char>,
) -> Seq<Seq<char>>
    decreases probes.len(),
{
    if probes.len() == 0 || format != OutputFormat::Text {
        Seq::empty()
    } else {
        let before = notices(krates, probes.drop_last(), triple, format, release_dir);
        let probe = probes.last();
        match chosen(probe, triple) {
            Some(i) => if i == 0 {
                before
            } else {
                before.push(fallback_notice(probe.file_name@, release_dir))
            },
            None => before.push(missing_notice(probe.file_name@, krates[probes.len() - 1])),
        }
    }
}

/// What is linked for the bindings, and what is to be said about it.
pub struct WellKnownLibs {
    pub libs: Vec<LibPath>,
    pub notices: Vec<String>,
}

/// The place of the first candidate that exists.
fn choose_candidate(exists: &Vec<bool>, count: usize) -> (r: Option<usize>)
    ensures
        match r {
            Some(i) => i < count && first_existing(exists@, 0, count as nat) == Some(i as nat),
            None => first_existing(exists@, 0, count as nat) is None,
        },
{
    let mut i: usize = 0;
    while i < count
        invariant
            i <= count,
            first_existing(exists@, 0, count as nat) == first_existing(
                exists@,
                i as nat,
                count as nat,
            ),
        decreases count - i,
    {
        if i < exists.len() && exists[i] {
            return Some(i);
        }
        i = i + 1;
    }
    None
}

/// Decides which library is linked for each binding: the rebuilt one, or else
/// the one that the workspace has for the target or the host. `probes` holds
/// for each binding what exists of the candidates of its library, `triple` is
/// the Rust target triple, and `release_dir` the display of the release
/// directory.
pub fn resolve_auto_well_known_libs(
    tokio_using_bindings: &[Binding],
    probes: &Vec<LibProbe>,
    triple: Option<&str>,
    format: OutputFormat,
    release_dir: &str,
) -> (r: WellKnownLibs)
    requires
        probes@.len() == tokio_using_bindings@.len(),
    ensures
        lib_views(r.libs@) == linked(probes@, text::opt_str_view(triple)),
        text::views(r.notices@) == notices(
            crate::bindings::krates(tokio_using_bindings@),
            probes@,
            text::opt_str_view(triple),
            format,
            release_dir@,
        ),
{
    let mut libs: Vec<LibPath> = Vec::new();
    let mut said: Vec<String> = Vec::new();
    let ghost krates = crate::bindings::krates(tokio_using_bindings@);
    let ghost t = text::opt_str_view(triple);
    let mut i: usize = 0;
    proof {
        assert(probes@.take(0) =~= Seq::empty());
        assert(lib_views(libs@) =~= Seq::empty());
        assert(text::views(said@) =~= Seq::empty());
    }
    while i < probes.len()
        invariant
            i <= probes@.len(),
            probes@.len() == tokio_using_bindings@.len(),
            krates == crate::bindings::krates(tokio_using_bindings@),
            t == text::opt_str_view(triple),
            lib_views(libs@) == linked(probes@.take(i as int), t),
            text::views(said@) == notices(
                krates,
                probes@.take(i as int),
                t,
                format,
                release_dir@,
            ),
        decreases probes@.len() - i,
    {
        let probe = &probes[i];
        let ghost libs_before = lib_views(libs@);
        let ghost said_before = text::views(said@);
        proof {
            assert(probes@.take(i + 1).drop_last() =~= probes@.take(i as int));
            assert(probes@.take(i + 1).last() == *probe);
            assert(krates[i as int] == tokio_using_bindings@[i as int].0@);
        }
        let options = library_candidates(probe.file_name.as_str(), triple);
        proof {
            assert(options@.len() == lib_views(options@).len());
        }
        match choose_candidate(&probe.exists, options.len()) {
            Some(k) => {
                let lib = LibPath {
                    base: options[k].base,
                    names: clone_names(&options[k].names),
                };
                proof {
                    assert(lib@ == lib_views(options@)[k as int]);
                }
                libs.push(lib);
                proof {
                    assert(lib_views(libs@) =~= libs_before.push(
                        candidates(probe.file_name@, t)[k as int],
                    ));
                }
                if k > 0 && format == OutputFormat::Text {
                    let note = "  well-known: rebuild produced no `".to_owned().concat(
                        probe.file_name.as_str(),
                    ).concat("` in ").concat(release_dir).concat(
                        " — using workspace fallback (CONTEXT panic risk on tokio I/O)",
                    );
                    said.push(note);
                    proof {
                        assert(text::views(said@) =~= said_before.push(
                            fallback_notice(probe.file_name@, release_dir@),
                        ));
                    }
                }
            },
            None => {
                if format == OutputFormat::Text {
                    let note = "  well-known: rebuild produced no `".to_owned().concat(
                        probe.file_name.as_str(),
                    ).concat("` for `").concat(tokio_using_bindings[i].0.as_str()).concat(
                        "`; skipping — link will likely fail with unresolved js_* symbols.",
                    );
                    said.push(note);
                    proof {
                        assert(text::views(said@) =~= said_before.push(
                            missing_notice(probe.file_name@, krates[i as int]),
                        ));
                    }
                }
            },
        }
        i = i + 1;
    }
    proof {
        assert(probes@.take(probes@.len() as int) =~= probes@);
    }
    WellKnownLibs { libs, notices: said }
}

proof fn lemma_first_existing(exists: Seq<bool>, from: nat, to: nat)
    ensures
        match first_existing(exists, from, to) {
            Some(i) => {
                &&& from <= i < to
                &&& i < exists.len()
                &&& exists[i as int]
                &&& forall|j: int| from <= j < i ==> !(#[trigger] exists[j])
            },
            None => forall|j: int| from <= j < to && j < exists.len() ==> !(#[trigger] exists[j]),
        },
    decreases to - from,
{
    if from < to && !(from < exists.len() && exists[from as int]) {
        lemma_first_existing(exists, from + 1, to);
    }
}

/// What is linked for a binding exists, and nothing better does; nothing is
/// linked only where no candidate exists.
pub proof fn law_best_existing_candidate_is_linked(probe: LibProbe, triple: Option<Seq<char>>)
    ensures
        match chosen(probe, triple) {
            Some(i) => {
                &&& i < candidates(probe.file_name@, triple).len()
                &&& i < probe.exists@.len()
                &&& probe.exists@[i as int]
                &&& forall|j: int| 0 <= j < i ==> !(#[trigger] probe.exists@[j])
            },
            None => forall|j: int|
                0 <= j < candidates(probe.file_name@, triple).len() && j < probe.exists@.len()
                    ==> !(#[trigger] probe.exists@[j]),
        },
{
    lemma_first_existing(probe.exists@, 0, candidates(probe.file_name@, triple).len());
}

/// The paths as plain data are those of all the paths, one by one.
pub proof fn law_lib_views_show_every_path(paths: Seq<LibPath>)
    ensures
        lib_views(paths).len() == paths.len(),
        forall|i: int|
            0 <= i < paths.len() ==> (#[trigger] lib_views(paths)[i]).base == paths[i].base
                && lib_views(paths)[i].names.len() == paths[i].names@.len(),
        forall|i: int, j: int|
            0 <= i < paths.len() && 0 <= j < paths[i].names@.len() ==> (#[trigger] lib_views(
                paths,
            )[i].names[j]) == paths[i].names@[j]@,
{
}

/// Where a library may stand: in the release directory of the rebuild, below
/// `target/<triple>/release` where there is a triple, and below `target/release`.
pub proof fn law_places_of_a_library(file_name: Seq<char>, triple: Option<Seq<char>>)
    ensures
        ({
            let all = candidates(file_name, triple);
            let host = all.len() - 1;
            &&& all.len() == if triple is Some {
                3int
            } else {
                2int
            }
            &&& all[0].base == PathBase::ReleaseDir
            &&& all[0].names == seq![file_name]
            &&& all[host].base == PathBase::WorkspaceRoot
            &&& all[host].names == seq!["target"@, "release"@, file_name]
            &&& triple is Some ==> all[1].base == PathBase::WorkspaceRoot && all[1].names == seq![
                "target"@,
                triple->0,
                "release"@,
                file_name,
            ]
        }),
{
}

/// The bindings are dealt with one by one, in their order.
pub proof fn law_libraries_are_linked_one_by_one(
    a: Seq<LibProbe>,
    b: Seq<LibProbe>,
    triple: Option<Seq<char>>,
)
    ensures
        linked(a + b, triple) == linked(a, triple) + linked(b, triple),
    decreases b.len(),
{
    if b.len() == 0 {
        assert(a + b =~= a);
        assert(linked(a, triple) + linked(b, triple) =~= linked(a, triple));
    } else {
        law_libraries_are_linked_one_by_one(a, b.drop_last(), triple);
        assert((a + b).drop_last() =~= a + b.drop_last());
        assert((a + b).last() == b.last());
        assert(linked(a + b, triple) =~= linked(a, triple) + linked(b, triple));
    }
}

/// Of one binding, the library that the rebuild made is linked where it exists,
/// else the one that the workspace has for the triple, else the one for the host,
/// else none. What exists is told for each place in the order of the places.
pub proof fn law_library_of_a_binding(probe: LibProbe, triple: Option<Seq<char>>)
    requires
        probe.exists@.len() == if triple is Some {
            3int
        } else {
            2int
        },
    ensures
        ({
            let libs = linked(seq![probe], triple);
            let name = probe.file_name@;
            let host = probe.exists@.len() - 1;
            if probe.exists@[0] {
                &&& libs.len() == 1
                &&& libs[0].base == PathBase::ReleaseDir
                &&& libs[0].names == seq![name]
            } else if triple is Some && probe.exists@[1] {
                &&& libs.len() == 1
                &&& libs[0].base == PathBase::WorkspaceRoot
                &&& libs[0].names == seq!["target"@, triple->0, "release"@, name]
            } else if probe.exists@[host] {
                &&& libs.len() == 1
                &&& libs[0].base == PathBase::WorkspaceRoot
                &&& libs[0].names == seq!["target"@, "release"@, name]
            } else {
                libs.len() == 0
            }
        }),
{
    let one = seq![probe];
    assert(one.drop_last() =~= Seq::empty());
    assert(linked(one.drop_last(), triple) =~= Seq::empty());
    assert(one.last() == probe);
    law_places_of_a_library(probe.file_name@, triple);
    reveal_with_fuel(first_existing, 4);
}

/// The notices on bindings come one by one, in the order of the bindings.
pub proof fn law_notices_come_one_by_one(
    krates_a: Seq<Seq<char>>,
    a: Seq<LibProbe>,
    krates_b: Seq<Seq<char>>,
    b: Seq<LibProbe>,
    triple: Option<Seq<char>>,
    format: OutputFormat,
    release_dir: Seq<char>,
)
    requires
        krates_a.len() == a.len(),
        krates_b.len() == b.len(),
    ensures
        notices(krates_a + krates_b, a + b, triple, format, release_dir) == notices(
            krates_a,
            a,
            triple,
            format,
            release_dir,
        ) + notices(krates_b, b, triple, format, release_dir),
{
    lemma_notices_add(krates_a, a, krates_b, b, triple, format, release_dir);
}

proof fn lemma_notices_prefix(
    krates: Seq<Seq<char>>,
    more: Seq<Seq<char>>,
    probes: Seq<LibProbe>,
    triple: Option<Seq<char>>,
    format: OutputFormat,
    release_dir: Seq<char>,
)
    requires
        probes.len() <= krates.len(),
    ensures
        notices(krates + more, probes, triple, format, release_dir) == notices(
            krates,
            probes,
            triple,
            format,
            release_dir,
        ),
    decreases probes.len(),
{
    if probes.len() > 0 {
        lemma_notices_prefix(krates, more, probes.drop_last(), triple, format, release_dir);
        assert((krates + more)[probes.len() - 1] == krates[probes.len() - 1]);
    }
}

proof fn lemma_notices_add(
    krates_a: Seq<Seq<char>>,
    a: Seq<LibProbe>,
    krates_b: Seq<Seq<char>>,
    b: Seq<LibProbe>,
    triple: Option<Seq<char>>,
    format: OutputFormat,
    release_dir: Seq<char>,
)
    requires
        krates_a.len() == a.len(),
        b.len() <= krates_b.len(),
    ensures
        notices(krates_a + krates_b, a + b, triple, format, release_dir) == notices(
            krates_a,
            a,
            triple,
            format,
            release_dir,
        ) + notices(krates_b, b, triple, format, release_dir),
    decreases b.len(),
{
    let krates = krates_a + krates_b;
    let start = notices(krates_a, a, triple, format, release_dir);
    if b.len() == 0 {
        assert(a + b =~= a);
        lemma_notices_prefix(krates_a, krates_b, a, triple, format, release_dir);
        assert(start + notices(krates_b, b, triple, format, release_dir) =~= start);
    } else {
        lemma_notices_add(
            krates_a,
            a,
            krates_b,
            b.drop_last(),
            triple,
            format,
            release_dir,
        );
        assert((a + b).drop_last() =~= a + b.drop_last());
        assert((a + b).last() == b.last());
        assert(krates[(a + b).len() - 1] == krates_b[b.len() - 1]);
        assert(notices(krates, a + b, triple, format, release_dir) =~= start + notices(
            krates_b,
            b,
            triple,
            format,
            release_dir,
        ));
    }
}

/// Of one binding there is no notice in other formats than text, nor where the
/// rebuild made its library. Otherwise there is one: that another library of the
/// workspace stands in, or that none does.
pub proof fn law_notice_of_a_binding(
    krate: Seq<char>,
    probe: LibProbe,
    triple: Option<Seq<char>>,
    format: OutputFormat,
    release_dir: Seq<char>,
)
    requires
        probe.exists@.len() == if triple is Some {
            3int
        } else {
            2int
        },
    ensures
        ({
            let said = notices(seq![krate], seq![probe], triple, format, release_dir);
            let name = probe.file_name@;
            if format == OutputFormat::Json || probe.exists@[0] {
                said.len() == 0
            } else if exists|i: int| 0 < i < probe.exists@.len() && #[trigger] probe.exists@[i] {
                &&& said.len() == 1
                &&& said[0] == "  well-known: rebuild produced no `"@ + name + "` in "@
                    + release_dir
                    + " — using workspace fallback (CONTEXT panic risk on tokio I/O)"@
            } else {
                &&& said.len() == 1
                &&& said[0] == "  well-known: rebuild produced no `"@ + name + "` for `"@ + krate
                    + "`; skipping — link will likely fail with unresolved js_* symbols."@
            }
        }),
{
    let one = seq![probe];
    assert(one.drop_last() =~= Seq::empty());
    assert(notices(seq![krate], one.drop_last(), triple, format, release_dir) =~= Seq::empty());
    assert(one.last() == probe);
    law_places_of_a_library(probe.file_name@, triple);
    reveal_with_fuel(first_existing, 4);
    let e = probe.exists@;
    assert(e[1] || !e[1]);
    if triple is Some {
        assert(e[2] || !e[2]);
    }
}

} // verus!
