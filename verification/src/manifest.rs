//! The features that a crate's manifest declares, and the cross-crate feature
//! requests that survive them.
use crate::name_set::NameSet;
use crate::text;
use crate::text::strip_prefix;
use crate::toml_value;
use crate::toml_value::{parse_toml, TomlValue};
use vstd::prelude::*;

verus! {

/// The `[features]` table of a manifest.
pub open spec fn feature_entries(doc: toml_value::TomlTree) -> Seq<
    (Seq<char>, toml_value::TomlTree),
> {
    toml_value::table_entries(toml_value::lookup(doc, "features"@))
}

/// Whether the array `value` holds the string `dep:<name>`.
pub open spec fn references_dependency(value: toml_value::TomlTree, name: Seq<char>) -> bool {
    exists|j: int|
        #![trigger value->Array_0[j]]
        value is Array && 0 <= j < value->Array_0.len() && value->Array_0[j]
            == toml_value::TomlTree::Str("dep:"@ + name)
}

/// Whether some feature of the manifest refers to `dep:<name>`, which hides
/// the implicit feature of that dependency.
pub open spec fn hides_implicit(doc: toml_value::TomlTree, name: Seq<char>) -> bool {
    exists|i: int|
        0 <= i < feature_entries(doc).len() && references_dependency(
            #[trigger] feature_entries(doc)[i].1,
            name,
        )
}

/// Whether the dependency table `deps` lists `name` with `optional = true`.
pub open spec fn lists_optional(deps: Option<toml_value::TomlTree>, name: Seq<char>) -> bool {
    exists|i: int|
        0 <= i < toml_value::table_entries(deps).len() && (
        #[trigger] toml_value::table_entries(deps)[i]).0 == name && toml_value::lookup(
            toml_value::table_entries(deps)[i].1,
            "optional"@,
        ) == Some(toml_value::TomlTree::Bool(true))
}

/// The entries of the `[target]` table of a manifest.
pub open spec fn target_entries(doc: toml_value::TomlTree) -> Seq<
    (Seq<char>, toml_value::TomlTree),
> {
    toml_value::table_entries(toml_value::lookup(doc, "target"@))
}

/// Whether `section`, which is a manifest or its part for a target, lists `name`
/// as an optional dependency of the crate or of its build script.
pub open spec fn section_lists_optional(section: toml_value::TomlTree, name: Seq<char>) -> bool {
    ||| lists_optional(toml_value::lookup(section, "dependencies"@), name)
    ||| lists_optional(toml_value::lookup(section, "build-dependencies"@), name)
}

/// Whether `name` is an optional dependency of the manifest, in general or for
/// some target.
pub open spec fn optional_dependency(doc: toml_value::TomlTree, name: Seq<char>) -> bool {
    ||| section_lists_optional(doc, name)
    ||| exists|i: int|
        0 <= i < target_entries(doc).len() && section_lists_optional(
            #[trigger] target_entries(doc)[i].1,
            name,
        )
}

/// Whether `name` is a key of the `[features]` table.
pub open spec fn declares_feature(doc: toml_value::TomlTree, name: Seq<char>) -> bool {
    exists|i: int| 0 <= i < feature_entries(doc).len() && (#[trigger] feature_entries(doc)[i]).0 == name
}

/// The feature names that a manifest can satisfy: the keys of `[features]`, and
/// each optional dependency whose implicit feature no `dep:` reference hides.
pub open spec fn feature_names(doc: toml_value::TomlTree) -> Set<Seq<char>> {
    Set::new(
        |name: Seq<char>|
            declares_feature(doc, name) || (optional_dependency(doc, name) && !hides_implicit(
                doc,
                name,
            )),
    )
}

/// The dependencies that an array of a feature refers to by `dep:<name>` are
/// added to `hidden`.
fn collect_references(value: &TomlValue, hidden: &mut NameSet)
    ensures
        forall|n: Seq<char>| #[trigger]
            final(hidden)@.contains(n) <==> old(hidden)@.contains(n) || references_dependency(
                value.tree(),
                n,
            ),
{
    let ghost before = hidden@;
    match value {
        TomlValue::Array(items) => {
            let ghost inner = value.tree()->Array_0;
            let mut j: usize = 0;
            while j < items.len()
                invariant
                    j <= items@.len(),
                    value == TomlValue::Array(*items),
                    value.tree() == toml_value::TomlTree::Array(inner),
                    inner.len() == items@.len(),
                    forall|n: Seq<char>| #[trigger]
                        hidden@.contains(n) <==> before.contains(n) || exists|k: int|
                            0 <= k < j && #[trigger] inner[k] == toml_value::TomlTree::Str(
                                "dep:"@ + n,
                            ),
                decreases items@.len() - j,
            {
                proof {
                    assert(inner[j as int] == items@[j as int].tree());
                }
                let ghost mid = hidden@;
                if let TomlValue::Str(s) = &items[j] {
                    if let Some(name) = strip_prefix(s.as_str(), "dep:") {
                        hidden.insert(name);
                        proof {
                            assert forall|n: Seq<char>| #[trigger]
                                ("dep:"@ + n) == "dep:"@ + name@ implies n == name@ by {
                                assert(n =~= ("dep:"@ + n).skip("dep:"@.len() as int));
                                assert(name@ =~= ("dep:"@ + name@).skip("dep:"@.len() as int));
                            }
                        }
                    } else {
                        proof {
                            assert forall|n: Seq<char>| s@ != #[trigger] ("dep:"@ + n) by {
                                if s@ == "dep:"@ + n {
                                    assert("dep:"@.is_prefix_of(s@));
                                }
                            }
                        }
                    }
                }
                j = j + 1;
                proof {
                    assert forall|n: Seq<char>| #[trigger]
                        hidden@.contains(n) <==> before.contains(n) || exists|k: int|
                            0 <= k < j && #[trigger] inner[k] == toml_value::TomlTree::Str(
                                "dep:"@ + n,
                            ) by {
                        assert(mid.contains(n) <==> before.contains(n) || exists|k: int|
                            0 <= k < j - 1 && #[trigger] inner[k] == toml_value::TomlTree::Str(
                                "dep:"@ + n,
                            ));
                        assert(hidden@.contains(n) <==> mid.contains(n) || inner[j - 1]
                            == toml_value::TomlTree::Str("dep:"@ + n));
                    }
                }
            }
        },
        _ => {},
    }
}

/// The optional dependencies that `deps` lists and `hidden` does not hold are
/// added to `names`.
fn collect_optional(deps: Option<&TomlValue>, hidden: &NameSet, names: &mut NameSet)
    ensures
        forall|n: Seq<char>| #[trigger]
            final(names)@.contains(n) <==> old(names)@.contains(n) || (lists_optional(
                toml_value::opt_tree(deps),
                n,
            ) && !hidden@.contains(n)),
{
    let ghost before = names@;
    match deps {
        Some(TomlValue::Table(table)) => {
            let ghost es = toml_value::table_entries(toml_value::opt_tree(deps));
            let mut i: usize = 0;
            while i < table.len()
                invariant
                    i <= table@.len(),
                    deps == Some(&TomlValue::Table(*table)),
                    es == toml_value::table_entries(toml_value::opt_tree(deps)),
                    es.len() == table@.len(),
                    forall|n: Seq<char>| #[trigger]
                        names@.contains(n) <==> before.contains(n) || (!hidden@.contains(n)
                            && exists|k: int|
                            0 <= k < i && (#[trigger] es[k]).0 == n && toml_value::lookup(
                                es[k].1,
                                "optional"@,
                            ) == Some(toml_value::TomlTree::Bool(true))),
                decreases table@.len() - i,
            {
                let entry = &table[i];
                proof {
                    assert(es[i as int] == (entry.0@, entry.1.tree()));
                }
                let ghost mid = names@;
                let optional = matches!(entry.1.get("optional"), Some(TomlValue::Bool(true)));
                if optional && !hidden.contains(entry.0.as_str()) {
                    names.insert(entry.0.as_str());
                }
                i = i + 1;
                proof {
                    assert forall|n: Seq<char>| #[trigger]
                        names@.contains(n) <==> before.contains(n) || (!hidden@.contains(n)
                            && exists|k: int|
                            0 <= k < i && (#[trigger] es[k]).0 == n && toml_value::lookup(
                                es[k].1,
                                "optional"@,
                            ) == Some(toml_value::TomlTree::Bool(true))) by {
                        assert(mid.contains(n) <==> before.contains(n) || (!hidden@.contains(n)
                            && exists|k: int|
                            0 <= k < i - 1 && (#[trigger] es[k]).0 == n && toml_value::lookup(
                                es[k].1,
                                "optional"@,
                            ) == Some(toml_value::TomlTree::Bool(true))));
                        assert(names@.contains(n) <==> mid.contains(n) || (!hidden@.contains(n)
                            && es[i - 1].0 == n && toml_value::lookup(es[i - 1].1, "optional"@)
                            == Some(toml_value::TomlTree::Bool(true))));
                    }
                }
            }
        },
        _ => {},
    }
}

/// The optional dependencies that `section` lists and `hidden` does not hold are
/// added to `names`.
fn collect_section(section: &TomlValue, hidden: &NameSet, names: &mut NameSet)
    ensures
        forall|n: Seq<char>| #[trigger]
            final(names)@.contains(n) <==> old(names)@.contains(n) || (section_lists_optional(
                section.tree(),
                n,
            ) && !hidden@.contains(n)),
{
    collect_optional(section.get("dependencies"), hidden, names);
    let ghost mid = names@;
    collect_optional(section.get("build-dependencies"), hidden, names);
    proof {
        assert forall|n: Seq<char>| #[trigger]
            names@.contains(n) <==> old(names)@.contains(n) || (section_lists_optional(
                section.tree(),
                n,
            ) && !hidden@.contains(n)) by {
            assert(names@.contains(n) <==> mid.contains(n) || (lists_optional(
                toml_value::lookup(section.tree(), "build-dependencies"@),
                n,
            ) && !hidden@.contains(n)));
        }
    }
}

/// The feature names that a parsed manifest can satisfy.
pub fn manifest_feature_names(doc: &TomlValue) -> (r: NameSet)
    ensures
        r@ == feature_names(doc.tree()),
{
    let mut names = NameSet::new();
    let mut hidden = NameSet::new();
    let features = doc.get("features");
    let ghost fs = feature_entries(doc.tree());
    match features {
        Some(TomlValue::Table(table)) => {
            let mut i: usize = 0;
            while i < table.len()
                invariant
                    i <= table@.len(),
                    features == Some(&TomlValue::Table(*table)),
                    fs == toml_value::table_entries(toml_value::opt_tree(features)),
                    fs.len() == table@.len(),
                    forall|n: Seq<char>| #[trigger]
                        names@.contains(n) <==> exists|k: int|
                            0 <= k < i && (#[trigger] fs[k]).0 == n,
                    forall|n: Seq<char>| #[trigger]
                        hidden@.contains(n) <==> exists|k: int|
                            0 <= k < i && references_dependency(#[trigger] fs[k].1, n),
                decreases table@.len() - i,
            {
                proof {
                    assert(fs[i as int] == (table@[i as int].0@, table@[i as int].1.tree()));
                }
                let ghost names_before = names@;
                let ghost hidden_before = hidden@;
                names.insert(table[i].0.as_str());
                collect_references(&table[i].1, &mut hidden);
                i = i + 1;
                proof {
                    assert forall|n: Seq<char>| #[trigger]
                        names@.contains(n) <==> exists|k: int|
                            0 <= k < i && (#[trigger] fs[k]).0 == n by {
                        assert(names@.contains(n) <==> names_before.contains(n) || fs[i - 1].0
                            == n);
                    }
                    assert forall|n: Seq<char>| #[trigger]
                        hidden@.contains(n) <==> exists|k: int|
                            0 <= k < i && references_dependency(#[trigger] fs[k].1, n) by {
                        assert(hidden@.contains(n) <==> hidden_before.contains(n)
                            || references_dependency(fs[i - 1].1, n));
                    }
                }
            }
        },
        _ => {},
    }
    proof {
        assert(forall|n: Seq<char>| #[trigger]
            names@.contains(n) <==> declares_feature(doc.tree(), n));
        assert(forall|n: Seq<char>| #[trigger]
            hidden@.contains(n) <==> hides_implicit(doc.tree(), n));
    }
    collect_section(doc, &hidden, &mut names);
    let ghost general = names@;
    let targets = doc.get("target");
    let ghost ts = target_entries(doc.tree());
    match targets {
        Some(TomlValue::Table(table)) => {
            let mut i: usize = 0;
            while i < table.len()
                invariant
                    i <= table@.len(),
                    targets == Some(&TomlValue::Table(*table)),
                    ts == toml_value::table_entries(toml_value::opt_tree(targets)),
                    ts.len() == table@.len(),
                    forall|n: Seq<char>| #[trigger]
                        names@.contains(n) <==> general.contains(n) || (!hidden@.contains(n)
                            && exists|k: int|
                            0 <= k < i && section_lists_optional(#[trigger] ts[k].1, n)),
                decreases table@.len() - i,
            {
                proof {
                    assert(ts[i as int] == (table@[i as int].0@, table@[i as int].1.tree()));
                }
                let ghost before = names@;
                collect_section(&table[i].1, &hidden, &mut names);
                i = i + 1;
                proof {
                    assert forall|n: Seq<char>| #[trigger]
                        names@.contains(n) <==> general.contains(n) || (!hidden@.contains(n)
                            && exists|k: int|
                            0 <= k < i && section_lists_optional(#[trigger] ts[k].1, n)) by {
                        assert(names@.contains(n) <==> before.contains(n) || (!hidden@.contains(n)
                            && section_lists_optional(ts[i - 1].1, n)));
                    }
                }
            }
        },
        _ => {},
    }
    proof {
        assert(names@ =~= feature_names(doc.tree()));
    }
    names
}

/// The feature names that the text of a manifest can satisfy; nothing where
/// there is no text, or it does not parse.
pub open spec fn declared_names(manifest: Option<Seq<char>>) -> Option<Set<Seq<char>>> {
    match manifest {
        Some(text) => match toml_value::toml_document(text) {
            Some(doc) => Some(feature_names(doc)),
            None => None,
        },
        None => None,
    }
}

/// Feature names a workspace crate's `Cargo.toml` can satisfy in a
/// `--features <crate>/<name>` request: the `[features]` table keys plus every
/// optional dependency whose implicit same-named feature has not been hidden
/// by a `dep:<name>` reference. `None` when the manifest is missing or
/// unparseable, so callers skip filtering rather than dropping features a
/// manifest they couldn't read might well declare.
pub fn declared_feature_names(manifest: Option<&str>) -> (r: Option<NameSet>)
    ensures
        match r {
            Some(names) => declared_names(text::opt_str_view(manifest)) == Some(names@),
            None => declared_names(text::opt_str_view(manifest)) is None,
        },
{
    match manifest {
        Some(text) => match parse_toml(text) {
            Some(doc) => Some(manifest_feature_names(&doc)),
            None => None,
        },
        None => None,
    }
}

/// Whether `entry` asks the crate `krate` for a feature that is not declared.
pub open spec fn undeclared(
    entry: Seq<char>,
    krate: Seq<char>,
    declared: Option<Set<Seq<char>>>,
) -> bool {
    declared is Some && exists|feature: Seq<char>|
        entry == #[trigger] (krate + "/"@ + feature) && !declared->0.contains(feature)
}

/// The requests that the crate `krate` leaves in place.
pub open spec fn retained(
    entries: Seq<Seq<char>>,
    krate: Seq<char>,
    declared: Option<Set<Seq<char>>>,
) -> Seq<Seq<char>> {
    entries.filter(|e: Seq<char>| !undeclared(e, krate, declared))
}

/// The requests that the crate `krate` takes out.
pub open spec fn rejected(
    entries: Seq<Seq<char>>,
    krate: Seq<char>,
    declared: Option<Set<Seq<char>>>,
) -> Seq<Seq<char>> {
    entries.filter(|e: Seq<char>| undeclared(e, krate, declared))
}

/// Takes out of `cross_features` the requests for features of `krate` that
/// `declared` does not hold, and adds them to `dropped`.
pub fn retain_declared(
    krate: &str,
    declared: &NameSet,
    cross_features: &mut Vec<String>,
    dropped: &mut Vec<String>,
)
    ensures
        text::views(final(cross_features)@) == retained(
            text::views(old(cross_features)@),
            krate@,
            Some(declared@),
        ),
        text::views(final(dropped)@) == text::views(old(dropped)@) + rejected(
            text::views(old(cross_features)@),
            krate@,
            Some(declared@),
        ),
{
    let prefix = krate.to_owned().concat("/");
    let ghost keep = |e: Seq<char>| !undeclared(e, krate@, Some(declared@));
    let ghost drop = |e: Seq<char>| undeclared(e, krate@, Some(declared@));
    let ghost entries = text::views(cross_features@);
    let ghost dropped_before = text::views(dropped@);
    let mut kept: Vec<String> = Vec::new();
    let mut i: usize = 0;
    proof {
        assert(entries.take(0) =~= Seq::empty());
        assert(text::views(kept@) =~= entries.take(0).filter(keep));
        assert(text::views(dropped@) =~= dropped_before + entries.take(0).filter(drop));
    }
    while i < cross_features.len()
        invariant
            i <= cross_features@.len(),
            prefix@ == krate@ + "/"@,
            entries == text::views(cross_features@),
            keep == |e: Seq<char>| !undeclared(e, krate@, Some(declared@)),
            drop == |e: Seq<char>| undeclared(e, krate@, Some(declared@)),
            text::views(kept@) == entries.take(i as int).filter(keep),
            text::views(dropped@) == dropped_before + entries.take(i as int).filter(drop),
        decreases cross_features@.len() - i,
    {
        let ghost e = entries[i as int];
        let ghost kept_before = text::views(kept@);
        let ghost mid = text::views(dropped@);
        proof {
            broadcast use Seq::lemma_filter_push;

            assert(entries.take(i + 1) =~= entries.take(i as int).push(e));
        }
        let unknown = match strip_prefix(cross_features[i].as_str(), prefix.as_str()) {
            Some(feature) => {
                proof {
                    assert forall|f: Seq<char>| e == #[trigger] (krate@ + "/"@ + f) implies f
                        == feature@ by {
                        assert(f =~= e.skip(prefix@.len() as int));
                        assert(feature@ =~= e.skip(prefix@.len() as int));
                    }
                    assert(e == krate@ + "/"@ + feature@);
                }
                !declared.contains(feature)
            },
            None => {
                proof {
                    assert forall|f: Seq<char>| e != #[trigger] (krate@ + "/"@ + f) by {
                        if e == krate@ + "/"@ + f {
                            assert(prefix@.is_prefix_of(e));
                        }
                    }
                }
                false
            },
        };
        assert(unknown == drop(e));
        if unknown {
            dropped.push(cross_features[i].clone());
            proof {
                assert(text::views(dropped@) =~= mid.push(e));
                assert(text::views(dropped@) =~= dropped_before + entries.take(i + 1).filter(drop));
            }
        } else {
            kept.push(cross_features[i].clone());
            proof {
                assert(text::views(kept@) =~= kept_before.push(e));
            }
        }
        i = i + 1;
    }
    proof {
        assert(entries.take(entries.len() as int) =~= entries);
    }
    *cross_features = kept;
}

/// The `perry` binary's baked-in cross-feature list tracks the branch the
/// binary was BUILT from, while the auto-optimize cargo build resolves against
/// the workspace found on disk, and the two can skew. One
/// `perry-runtime/<feat>` the checkout doesn't declare fails the entire cargo
/// resolve. Drops the unknown names instead and returns them so the caller can
/// say what was dropped. Each manifest is the text of that crate's
/// `Cargo.toml`, if it could be read.
pub fn retain_workspace_declared_features(
    runtime_manifest: Option<&str>,
    stdlib_manifest: Option<&str>,
    cross_features: &mut Vec<String>,
) -> (dropped: Vec<String>)
    ensures
        text::views(final(cross_features)@) == workspace_retained(
            text::views(old(cross_features)@),
            declared_names(text::opt_str_view(runtime_manifest)),
            declared_names(text::opt_str_view(stdlib_manifest)),
        ),
        text::views(dropped@) == workspace_rejected(
            text::views(old(cross_features)@),
            declared_names(text::opt_str_view(runtime_manifest)),
            declared_names(text::opt_str_view(stdlib_manifest)),
        ),
{
    let ghost entries = text::views(cross_features@);
    let mut dropped: Vec<String> = Vec::new();
    assert(text::views(dropped@) =~= Seq::empty());
    match declared_feature_names(runtime_manifest) {
        Some(declared) => retain_declared(
            "perry-runtime",
            &declared,
            cross_features,
            &mut dropped,
        ),
        None => {
            proof {
                lemma_undeclared_nothing(entries, "perry-runtime"@);
            }
        },
    }
    let ghost mid = text::views(cross_features@);
    let ghost first = text::views(dropped@);
    match declared_feature_names(stdlib_manifest) {
        Some(declared) => retain_declared(
            "perry-stdlib",
            &declared,
            cross_features,
            &mut dropped,
        ),
        None => {
            proof {
                lemma_undeclared_nothing(mid, "perry-stdlib"@);
                assert(first + Seq::<Seq<char>>::empty() =~= first);
            }
        },
    }
    dropped
}

/// The requests that both crates leave in place: first those of
/// `perry-runtime` are sifted, then those of `perry-stdlib`.
pub open spec fn workspace_retained(
    entries: Seq<Seq<char>>,
    runtime: Option<Set<Seq<char>>>,
    stdlib: Option<Set<Seq<char>>>,
) -> Seq<Seq<char>> {
    retained(retained(entries, "perry-runtime"@, runtime), "perry-stdlib"@, stdlib)
}

/// The requests that are taken out: those of `perry-runtime`, then those of
/// `perry-stdlib`.
pub open spec fn workspace_rejected(
    entries: Seq<Seq<char>>,
    runtime: Option<Set<Seq<char>>>,
    stdlib: Option<Set<Seq<char>>>,
) -> Seq<Seq<char>> {
    rejected(entries, "perry-runtime"@, runtime) + rejected(
        retained(entries, "perry-runtime"@, runtime),
        "perry-stdlib"@,
        stdlib,
    )
}

proof fn lemma_undeclared_nothing(entries: Seq<Seq<char>>, krate: Seq<char>)
    ensures
        retained(entries, krate, None) == entries,
        rejected(entries, krate, None) == Seq::<Seq<char>>::empty(),
    decreases entries.len(),
{
    reveal_with_fuel(Seq::filter, 2);
    if entries.len() > 0 {
        lemma_undeclared_nothing(entries.drop_last(), krate);
        assert(entries =~= entries.drop_last().push(entries.last()));
    } else {
        assert(entries =~= Seq::empty());
    }
}

/// A request stays if and only if neither crate rejects it, and is dropped if
/// and only if one of them does.
pub proof fn law_retain_decides_by_declaration(
    entries: Seq<Seq<char>>,
    runtime: Option<Set<Seq<char>>>,
    stdlib: Option<Set<Seq<char>>>,
    entry: Seq<char>,
)
    ensures
        workspace_retained(entries, runtime, stdlib).contains(entry) <==> entries.contains(entry)
            && !undeclared(entry, "perry-runtime"@, runtime) && !undeclared(
            entry,
            "perry-stdlib"@,
            stdlib,
        ),
        workspace_rejected(entries, runtime, stdlib).contains(entry) <==> entries.contains(entry)
            && (undeclared(entry, "perry-runtime"@, runtime) || undeclared(
            entry,
            "perry-stdlib"@,
            stdlib,
        )),
{
    let keep_r = |e: Seq<char>| !undeclared(e, "perry-runtime"@, runtime);
    let drop_r = |e: Seq<char>| undeclared(e, "perry-runtime"@, runtime);
    let keep_s = |e: Seq<char>| !undeclared(e, "perry-stdlib"@, stdlib);
    let drop_s = |e: Seq<char>| undeclared(e, "perry-stdlib"@, stdlib);
    let mid = entries.filter(keep_r);
    text::lemma_filter_membership(entries, keep_r, entry);
    text::lemma_filter_membership(entries, drop_r, entry);
    text::lemma_filter_membership(mid, keep_s, entry);
    text::lemma_filter_membership(mid, drop_s, entry);
    let a = entries.filter(drop_r);
    let b = mid.filter(drop_s);
    if a.contains(entry) {
        assert((a + b)[a.index_of(entry)] == entry);
    }
    if b.contains(entry) {
        assert((a + b)[a.len() + b.index_of(entry)] == entry);
    }
    if (a + b).contains(entry) {
        let i = (a + b).index_of(entry);
        if i < a.len() {
            assert(a[i] == entry);
        } else {
            assert(b[i - a.len()] == entry);
        }
    }
}

/// What stays and what is dropped together are the requests that were there.
pub proof fn law_retain_accounts_for_every_request(
    entries: Seq<Seq<char>>,
    runtime: Option<Set<Seq<char>>>,
    stdlib: Option<Set<Seq<char>>>,
)
    ensures
        entries.to_multiset() == workspace_retained(entries, runtime, stdlib).to_multiset().add(
            workspace_rejected(entries, runtime, stdlib).to_multiset(),
        ),
{
    broadcast use vstd::multiset::group_multiset_axioms;

    let keep_r = |e: Seq<char>| !undeclared(e, "perry-runtime"@, runtime);
    let drop_r = |e: Seq<char>| undeclared(e, "perry-runtime"@, runtime);
    let keep_s = |e: Seq<char>| !undeclared(e, "perry-stdlib"@, stdlib);
    let drop_s = |e: Seq<char>| undeclared(e, "perry-stdlib"@, stdlib);
    let mid = entries.filter(keep_r);
    text::lemma_filter_partition(entries, keep_r, drop_r);
    text::lemma_filter_partition(mid, keep_s, drop_s);
    vstd::seq_lib::lemma_multiset_commutative(entries.filter(drop_r), mid.filter(drop_s));
    assert(entries.to_multiset() =~= workspace_retained(
        entries,
        runtime,
        stdlib,
    ).to_multiset().add(workspace_rejected(entries, runtime, stdlib).to_multiset()));
}

/// Sifting what was sifted drops nothing more.
pub proof fn law_retain_is_idempotent(
    entries: Seq<Seq<char>>,
    runtime: Option<Set<Seq<char>>>,
    stdlib: Option<Set<Seq<char>>>,
)
    ensures
        ({
            let once = workspace_retained(entries, runtime, stdlib);
            &&& workspace_retained(once, runtime, stdlib) == once
            &&& workspace_rejected(once, runtime, stdlib) == Seq::<Seq<char>>::empty()
        }),
{
    let once = workspace_retained(entries, runtime, stdlib);
    let keep_r = |e: Seq<char>| !undeclared(e, "perry-runtime"@, runtime);
    let drop_r = |e: Seq<char>| undeclared(e, "perry-runtime"@, runtime);
    let keep_s = |e: Seq<char>| !undeclared(e, "perry-stdlib"@, stdlib);
    let drop_s = |e: Seq<char>| undeclared(e, "perry-stdlib"@, stdlib);
    assert forall|x: Seq<char>| #[trigger] once.contains(x) implies keep_r(x) && keep_s(x) by {
        law_retain_decides_by_declaration(entries, runtime, stdlib, x);
    }
    text::lemma_filter_all(once, keep_r);
    text::lemma_filter_all(once, keep_s);
    text::lemma_filter_none(once, drop_r);
    text::lemma_filter_none(once, drop_s);
    assert(workspace_rejected(once, runtime, stdlib) =~= Seq::empty());
}

/// A manifest that cannot be read or parsed costs its crate no request: with
/// neither at hand every request stays.
pub proof fn law_unreadable_manifests_drop_nothing(entries: Seq<Seq<char>>)
    ensures
        workspace_retained(entries, None, None) == entries,
        workspace_rejected(entries, None, None) == Seq::<Seq<char>>::empty(),
{
    lemma_undeclared_nothing(entries, "perry-runtime"@);
    lemma_undeclared_nothing(entries, "perry-stdlib"@);
    assert(workspace_rejected(entries, None, None) =~= Seq::empty());
}

/// A request for a feature of a crate whose manifest cannot be read or parsed
/// stays, whatever the other crate declares.
pub proof fn law_unreadable_manifest_keeps_its_requests(
    entries: Seq<Seq<char>>,
    other: Option<Set<Seq<char>>>,
    feature: Seq<char>,
)
    ensures
        entries.contains("perry-runtime"@ + "/"@ + feature) ==> workspace_retained(
            entries,
            None,
            other,
        ).contains("perry-runtime"@ + "/"@ + feature),
        entries.contains("perry-stdlib"@ + "/"@ + feature) ==> workspace_retained(
            entries,
            other,
            None,
        ).contains("perry-stdlib"@ + "/"@ + feature),
{
    reveal_strlit("perry-runtime");
    reveal_strlit("perry-stdlib");
    reveal_strlit("/");
    let runtime = "perry-runtime"@ + "/"@ + feature;
    let stdlib = "perry-stdlib"@ + "/"@ + feature;
    assert(runtime[6] == 'r');
    assert(stdlib[6] == 's');
    assert forall|f: Seq<char>| runtime != #[trigger] ("perry-stdlib"@ + "/"@ + f) by {
        assert(("perry-stdlib"@ + "/"@ + f)[6] == 's');
    }
    assert forall|f: Seq<char>| stdlib != #[trigger] ("perry-runtime"@ + "/"@ + f) by {
        assert(("perry-runtime"@ + "/"@ + f)[6] == 'r');
    }
    law_retain_decides_by_declaration(entries, None, other, runtime);
    law_retain_decides_by_declaration(entries, other, None, stdlib);
}

/// A request for a feature of neither crate stays.
pub proof fn law_other_requests_stay(
    entries: Seq<Seq<char>>,
    runtime: Option<Set<Seq<char>>>,
    stdlib: Option<Set<Seq<char>>>,
    entry: Seq<char>,
)
    requires
        !("perry-runtime"@ + "/"@).is_prefix_of(entry),
        !("perry-stdlib"@ + "/"@).is_prefix_of(entry),
    ensures
        workspace_retained(entries, runtime, stdlib).contains(entry) <==> entries.contains(entry),
{
    assert forall|f: Seq<char>| entry != #[trigger] ("perry-runtime"@ + "/"@ + f) by {
        if entry == "perry-runtime"@ + "/"@ + f {
            assert(("perry-runtime"@ + "/"@).is_prefix_of(entry));
        }
    }
    assert forall|f: Seq<char>| entry != #[trigger] ("perry-stdlib"@ + "/"@ + f) by {
        if entry == "perry-stdlib"@ + "/"@ + f {
            assert(("perry-stdlib"@ + "/"@).is_prefix_of(entry));
        }
    }
    law_retain_decides_by_declaration(entries, runtime, stdlib, entry);
}

/// Whether the table `t` has `value` under `key`.
pub open spec fn has(t: toml_value::TomlTree, key: Seq<char>, value: toml_value::TomlTree) -> bool {
    t is Table && exists|i: int|
        0 <= i < t->Table_0.len() && #[trigger] t->Table_0[i] == (key, value) && forall|j: int|
            0 <= j < i ==> (#[trigger] t->Table_0[j]).0 != key
}

/// Whether the table `t` has the key `key`.
pub open spec fn has_key(t: toml_value::TomlTree, key: Seq<char>) -> bool {
    t is Table && exists|i: int| 0 <= i < t->Table_0.len() && (#[trigger] t->Table_0[i]).0 == key
}

/// Whether `name` is a key of the `[features]` table.
pub open spec fn is_feature_key(doc: toml_value::TomlTree, name: Seq<char>) -> bool {
    exists|fs: toml_value::TomlTree| #[trigger] has(doc, "features"@, fs) && has_key(fs, name)
}

/// Whether a feature of the manifest holds the string `dep:<name>`.
pub open spec fn is_referenced(doc: toml_value::TomlTree, name: Seq<char>) -> bool {
    exists|fs: toml_value::TomlTree, i: int, j: int| #[trigger]
        has(doc, "features"@, fs) && fs is Table && 0 <= i < fs->Table_0.len() && (
        #[trigger] fs->Table_0[i].1) is Array && 0 <= j < fs->Table_0[i].1->Array_0.len()
            && #[trigger] fs->Table_0[i].1->Array_0[j] == toml_value::TomlTree::Str("dep:"@ + name)
}

/// Whether the table under `key` in `section` has an entry `name` with
/// `optional = true`.
pub open spec fn has_optional(
    section: toml_value::TomlTree,
    key: Seq<char>,
    name: Seq<char>,
) -> bool {
    exists|deps: toml_value::TomlTree, i: int| #[trigger]
        has(section, key, deps) && deps is Table && 0 <= i < deps->Table_0.len() && (
        #[trigger] deps->Table_0[i]).0 == name && has(
            deps->Table_0[i].1,
            "optional"@,
            toml_value::TomlTree::Bool(true),
        )
}

/// Whether `section` has the optional dependency `name`, of the crate or of its
/// build script.
pub open spec fn has_optional_dependency(section: toml_value::TomlTree, name: Seq<char>) -> bool {
    has_optional(section, "dependencies"@, name) || has_optional(
        section,
        "build-dependencies"@,
        name,
    )
}

/// Whether the manifest has the optional dependency `name`, in general or in the
/// section of a target.
pub open spec fn is_optional(doc: toml_value::TomlTree, name: Seq<char>) -> bool {
    ||| has_optional_dependency(doc, name)
    ||| exists|ts: toml_value::TomlTree, i: int| #[trigger]
        has(doc, "target"@, ts) && ts is Table && 0 <= i < ts->Table_0.len()
            && has_optional_dependency(#[trigger] ts->Table_0[i].1, name)
}

proof fn lemma_entry(
    entries: Seq<(Seq<char>, toml_value::TomlTree)>,
    key: Seq<char>,
    value: toml_value::TomlTree,
)
    ensures
        toml_value::entry(entries, key) == Some(value) <==> has(
            toml_value::TomlTree::Table(entries),
            key,
            value,
        ),
    decreases entries.len(),
{
    let t = toml_value::TomlTree::Table(entries);
    if entries.len() > 0 {
        let rest = entries.drop_first();
        let r = toml_value::TomlTree::Table(rest);
        lemma_entry(rest, key, value);
        if entries[0].0 == key {
            if toml_value::entry(entries, key) == Some(value) {
                assert(t->Table_0[0] == (key, value));
            }
            if has(t, key, value) {
                let i = choose|i: int|
                    0 <= i < t->Table_0.len() && #[trigger] t->Table_0[i] == (key, value)
                        && forall|j: int| 0 <= j < i ==> (#[trigger] t->Table_0[j]).0 != key;
                if i > 0 {
                    assert(t->Table_0[0].0 != key);
                }
            }
        } else {
            if has(r, key, value) {
                let i = choose|i: int|
                    0 <= i < r->Table_0.len() && #[trigger] r->Table_0[i] == (key, value)
                        && forall|j: int| 0 <= j < i ==> (#[trigger] r->Table_0[j]).0 != key;
                assert(t->Table_0[i + 1] == (key, value));
                assert forall|j: int| 0 <= j < i + 1 implies (#[trigger] t->Table_0[j]).0 != key by {
                    if j > 0 {
                        assert(r->Table_0[j - 1] == t->Table_0[j]);
                    }
                }
            }
            if has(t, key, value) {
                let i = choose|i: int|
                    0 <= i < t->Table_0.len() && #[trigger] t->Table_0[i] == (key, value)
                        && forall|j: int| 0 <= j < i ==> (#[trigger] t->Table_0[j]).0 != key;
                assert(i > 0);
                assert(r->Table_0[i - 1] == (key, value));
                assert forall|j: int| 0 <= j < i - 1 implies (#[trigger] r->Table_0[j]).0 != key by {
                    assert(t->Table_0[j + 1].0 != key);
                }
            }
        }
    }
}

proof fn lemma_lookup(t: toml_value::TomlTree, key: Seq<char>, value: toml_value::TomlTree)
    ensures
        toml_value::lookup(t, key) == Some(value) <==> has(t, key, value),
{
    if let toml_value::TomlTree::Table(entries) = t {
        lemma_entry(entries, key, value);
    }
}

proof fn lemma_table_under(t: toml_value::TomlTree, key: Seq<char>, v: toml_value::TomlTree)
    requires
        has(t, key, v),
        v is Table,
    ensures
        toml_value::table_entries(toml_value::lookup(t, key)) == v->Table_0,
{
    lemma_lookup(t, key, v);
}

proof fn lemma_under_table(t: toml_value::TomlTree, key: Seq<char>) -> (v: toml_value::TomlTree)
    requires
        toml_value::table_entries(toml_value::lookup(t, key)).len() > 0,
    ensures
        has(t, key, v),
        v is Table,
        v->Table_0 == toml_value::table_entries(toml_value::lookup(t, key)),
{
    let v = toml_value::lookup(t, key)->0;
    lemma_lookup(t, key, v);
    v
}

proof fn lemma_feature_key(doc: toml_value::TomlTree, name: Seq<char>)
    ensures
        declares_feature(doc, name) <==> is_feature_key(doc, name),
{
    if declares_feature(doc, name) {
        let fs = lemma_under_table(doc, "features"@);
        let i = choose|i: int|
            0 <= i < feature_entries(doc).len() && (#[trigger] feature_entries(doc)[i]).0 == name;
        assert(fs->Table_0[i].0 == name);
        assert(has(doc, "features"@, fs) && has_key(fs, name));
    }
    if is_feature_key(doc, name) {
        let fs = choose|fs: toml_value::TomlTree| #[trigger]
            has(doc, "features"@, fs) && has_key(fs, name);
        lemma_table_under(doc, "features"@, fs);
        let i = choose|i: int|
            0 <= i < fs->Table_0.len() && (#[trigger] fs->Table_0[i]).0 == name;
        assert(feature_entries(doc)[i].0 == name);
    }
}

proof fn lemma_referenced(doc: toml_value::TomlTree, name: Seq<char>)
    ensures
        hides_implicit(doc, name) <==> is_referenced(doc, name),
{
    if hides_implicit(doc, name) {
        let fs = lemma_under_table(doc, "features"@);
        let i = choose|i: int|
            0 <= i < feature_entries(doc).len() && references_dependency(
                #[trigger] feature_entries(doc)[i].1,
                name,
            );
        let value = feature_entries(doc)[i].1;
        let j = choose|j: int|
            #![trigger value->Array_0[j]]
            value is Array && 0 <= j < value->Array_0.len() && value->Array_0[j]
                == toml_value::TomlTree::Str("dep:"@ + name);
        assert(has(doc, "features"@, fs) && fs->Table_0[i].1 == value);
        assert(fs->Table_0[i].1->Array_0[j] == toml_value::TomlTree::Str("dep:"@ + name));
    }
    if is_referenced(doc, name) {
        let (fs, i, j) = choose|fs: toml_value::TomlTree, i: int, j: int| #[trigger]
            has(doc, "features"@, fs) && fs is Table && 0 <= i < fs->Table_0.len() && (
            #[trigger] fs->Table_0[i].1) is Array && 0 <= j < fs->Table_0[i].1->Array_0.len()
                && #[trigger] fs->Table_0[i].1->Array_0[j] == toml_value::TomlTree::Str(
                "dep:"@ + name,
            );
        lemma_table_under(doc, "features"@, fs);
        let value = feature_entries(doc)[i].1;
        assert(value->Array_0[j] == toml_value::TomlTree::Str("dep:"@ + name));
        assert(references_dependency(feature_entries(doc)[i].1, name));
    }
}

proof fn lemma_has_optional(section: toml_value::TomlTree, key: Seq<char>, name: Seq<char>)
    ensures
        lists_optional(toml_value::lookup(section, key), name) <==> has_optional(
            section,
            key,
            name,
        ),
{
    let deps = toml_value::lookup(section, key);
    if lists_optional(deps, name) {
        let v = lemma_under_table(section, key);
        let i = choose|i: int|
            0 <= i < toml_value::table_entries(deps).len() && (
            #[trigger] toml_value::table_entries(deps)[i]).0 == name && toml_value::lookup(
                toml_value::table_entries(deps)[i].1,
                "optional"@,
            ) == Some(toml_value::TomlTree::Bool(true));
        lemma_lookup(
            toml_value::table_entries(deps)[i].1,
            "optional"@,
            toml_value::TomlTree::Bool(true),
        );
        assert(has(section, key, v) && v->Table_0[i].0 == name);
    }
    if has_optional(section, key, name) {
        let (v, i) = choose|v: toml_value::TomlTree, i: int| #[trigger]
            has(section, key, v) && v is Table && 0 <= i < v->Table_0.len() && (
            #[trigger] v->Table_0[i]).0 == name && has(
                v->Table_0[i].1,
                "optional"@,
                toml_value::TomlTree::Bool(true),
            );
        lemma_table_under(section, key, v);
        lemma_lookup(v->Table_0[i].1, "optional"@, toml_value::TomlTree::Bool(true));
        assert(toml_value::table_entries(deps)[i].0 == name);
    }
}

proof fn lemma_optional(doc: toml_value::TomlTree, name: Seq<char>)
    ensures
        optional_dependency(doc, name) <==> is_optional(doc, name),
{
    assert forall|section: toml_value::TomlTree| #[trigger]
        section_lists_optional(section, name) <==> has_optional_dependency(section, name) by {
        lemma_has_optional(section, "dependencies"@, name);
        lemma_has_optional(section, "build-dependencies"@, name);
    }
    if optional_dependency(doc, name) && !section_lists_optional(doc, name) {
        let i = choose|i: int|
            0 <= i < target_entries(doc).len() && section_lists_optional(
                #[trigger] target_entries(doc)[i].1,
                name,
            );
        let ts = lemma_under_table(doc, "target"@);
        assert(has(doc, "target"@, ts) && has_optional_dependency(ts->Table_0[i].1, name));
    }
    if is_optional(doc, name) && !has_optional_dependency(doc, name) {
        let (ts, i) = choose|ts: toml_value::TomlTree, i: int| #[trigger]
            has(doc, "target"@, ts) && ts is Table && 0 <= i < ts->Table_0.len()
                && has_optional_dependency(#[trigger] ts->Table_0[i].1, name);
        lemma_table_under(doc, "target"@, ts);
        assert(section_lists_optional(target_entries(doc)[i].1, name));
    }
}

/// A manifest can satisfy the keys of its `[features]` table, whatever refers to
/// them, and besides the optional dependencies to which no feature refers by
/// `dep:<name>`; nothing else.
pub proof fn law_names_that_a_manifest_satisfies(doc: toml_value::TomlTree, name: Seq<char>)
    ensures
        feature_names(doc).contains(name) <==> is_feature_key(doc, name) || (is_optional(doc, name)
            && !is_referenced(doc, name)),
{
    lemma_feature_key(doc, name);
    lemma_referenced(doc, name);
    lemma_optional(doc, name);
}

/// A request for a key of the `[features]` table of either manifest is never
/// dropped, whatever `dep:` references the manifest holds.
pub proof fn law_declared_features_are_kept(
    entries: Seq<Seq<char>>,
    doc: toml_value::TomlTree,
    other: Option<Set<Seq<char>>>,
    name: Seq<char>,
)
    requires
        is_feature_key(doc, name),
    ensures
        entries.contains("perry-runtime/"@ + name) ==> workspace_retained(
            entries,
            Some(feature_names(doc)),
            other,
        ).contains("perry-runtime/"@ + name),
        entries.contains("perry-stdlib/"@ + name) ==> workspace_retained(
            entries,
            other,
            Some(feature_names(doc)),
        ).contains("perry-stdlib/"@ + name),
{
    law_names_that_a_manifest_satisfies(doc, name);
    law_requests_are_sifted_by_name(entries, Some(feature_names(doc)), other, name);
    law_requests_are_sifted_by_name(entries, other, Some(feature_names(doc)), name);
}

/// The names are known of a manifest that could be read and parses, and are those
/// that the document satisfies.
pub proof fn law_known_names_of_a_manifest(manifest: Option<Seq<char>>)
    ensures
        declared_names(manifest) is Some <==> manifest is Some && toml_value::toml_document(
            manifest->0,
        ) is Some,
        declared_names(manifest) is Some ==> declared_names(manifest)->0 == feature_names(
            toml_value::toml_document(manifest->0)->0,
        ),
{
}

/// A request `perry-runtime/<name>` stays if and only if the names of that crate
/// are not known or hold `<name>`, and is dropped otherwise; the same holds of
/// `perry-stdlib/<name>`.
pub proof fn law_requests_are_sifted_by_name(
    entries: Seq<Seq<char>>,
    runtime: Option<Set<Seq<char>>>,
    stdlib: Option<Set<Seq<char>>>,
    name: Seq<char>,
)
    ensures
        ({
            let kept = workspace_retained(entries, runtime, stdlib);
            let dropped = workspace_rejected(entries, runtime, stdlib);
            let r = "perry-runtime/"@ + name;
            let s = "perry-stdlib/"@ + name;
            &&& kept.contains(r) <==> entries.contains(r) && (runtime is None
                || runtime->0.contains(name))
            &&& dropped.contains(r) <==> entries.contains(r) && runtime is Some
                && !runtime->0.contains(name)
            &&& kept.contains(s) <==> entries.contains(s) && (stdlib is None
                || stdlib->0.contains(name))
            &&& dropped.contains(s) <==> entries.contains(s) && stdlib is Some
                && !stdlib->0.contains(name)
        }),
{
    reveal_strlit("perry-runtime");
    reveal_strlit("perry-stdlib");
    reveal_strlit("perry-runtime/");
    reveal_strlit("perry-stdlib/");
    reveal_strlit("/");
    let r = "perry-runtime/"@ + name;
    let s = "perry-stdlib/"@ + name;
    assert("perry-runtime/"@ =~= "perry-runtime"@ + "/"@);
    assert("perry-stdlib/"@ =~= "perry-stdlib"@ + "/"@);
    assert(r[6] == 'r' && s[6] == 's');
    assert forall|f: Seq<char>| r == #[trigger] ("perry-runtime"@ + "/"@ + f) implies f == name by {
        text::lemma_cancel_start("perry-runtime"@ + "/"@, f, name);
    }
    assert forall|f: Seq<char>| s == #[trigger] ("perry-stdlib"@ + "/"@ + f) implies f == name by {
        text::lemma_cancel_start("perry-stdlib"@ + "/"@, f, name);
    }
    assert forall|f: Seq<char>| r != #[trigger] ("perry-stdlib"@ + "/"@ + f) by {
        assert(("perry-stdlib"@ + "/"@ + f)[6] == 's');
    }
    assert forall|f: Seq<char>| s != #[trigger] ("perry-runtime"@ + "/"@ + f) by {
        assert(("perry-runtime"@ + "/"@ + f)[6] == 'r');
    }
    assert(r == "perry-runtime"@ + "/"@ + name);
    assert(s == "perry-stdlib"@ + "/"@ + name);
    law_retain_decides_by_declaration(entries, runtime, stdlib, r);
    law_retain_decides_by_declaration(entries, runtime, stdlib, s);
}

/// Whether `part` is what is left of `whole` when some of it is taken out, in the
/// same order.
pub open spec fn keeps_order(part: Seq<Seq<char>>, whole: Seq<Seq<char>>) -> bool {
    exists|places: Seq<int>| #[trigger] stands_at(part, whole, places)
}

/// Whether `part` stands in `whole` at the increasing `places`.
pub open spec fn stands_at(
    part: Seq<Seq<char>>,
    whole: Seq<Seq<char>>,
    places: Seq<int>,
) -> bool {
    &&& places.len() == part.len()
    &&& forall|k: int|
        0 <= k < places.len() ==> 0 <= #[trigger] places[k] < whole.len() && part[k]
            == whole[places[k]]
    &&& forall|k: int, l: int|
        0 <= k < l < places.len() ==> #[trigger] places[k] < #[trigger] places[l]
}

proof fn lemma_filter_keeps_order(s: Seq<Seq<char>>, p: spec_fn(Seq<char>) -> bool)
    ensures
        keeps_order(s.filter(p), s),
    decreases s.len(),
{
    reveal_with_fuel(Seq::filter, 2);
    if s.len() == 0 {
        assert(stands_at(s.filter(p), s, Seq::empty()));
    } else {
        let rest = s.drop_last();
        lemma_filter_keeps_order(rest, p);
        let places = choose|places: Seq<int>| #[trigger] stands_at(rest.filter(p), rest, places);
        if p(s.last()) {
            let next = places.push(s.len() - 1);
            assert(s.filter(p) =~= rest.filter(p).push(s.last()));
            assert forall|k: int| 0 <= k < next.len() implies 0 <= #[trigger] next[k] < s.len()
                && s.filter(p)[k] == s[next[k]] by {
                if k < places.len() {
                    assert(next[k] == places[k]);
                }
            }
            assert forall|k: int, l: int| 0 <= k < l < next.len() implies #[trigger] next[k]
                < #[trigger] next[l] by {
                assert(next[k] == places[k]);
                if l < places.len() {
                    assert(next[l] == places[l]);
                }
            }
            assert(stands_at(s.filter(p), s, next));
        } else {
            assert forall|k: int| 0 <= k < places.len() implies 0 <= #[trigger] places[k] < s.len()
                && s.filter(p)[k] == s[places[k]] by {}
            assert(stands_at(s.filter(p), s, places));
        }
    }
}

proof fn lemma_order_through(a: Seq<Seq<char>>, b: Seq<Seq<char>>, c: Seq<Seq<char>>)
    requires
        keeps_order(a, b),
        keeps_order(b, c),
    ensures
        keeps_order(a, c),
{
    let p = choose|p: Seq<int>| #[trigger] stands_at(a, b, p);
    let q = choose|q: Seq<int>| #[trigger] stands_at(b, c, q);
    let r = Seq::new(p.len(), |k: int| q[p[k]]);
    assert forall|k: int| 0 <= k < r.len() implies 0 <= #[trigger] r[k] < c.len() && a[k]
        == c[r[k]] by {
        assert(0 <= p[k] < b.len());
    }
    assert forall|k: int, l: int| 0 <= k < l < r.len() implies #[trigger] r[k] < #[trigger] r[l] by {
        assert(p[k] < p[l]);
        assert(q[p[k]] < q[p[l]]);
    }
    assert(stands_at(a, c, r));
}

/// What stays keeps its order, and what is dropped is told in the order in which
/// it stood, first what was asked of the runtime, then what was asked of the
/// stdlib.
pub proof fn law_sifting_keeps_the_order(
    entries: Seq<Seq<char>>,
    runtime: Option<Set<Seq<char>>>,
    stdlib: Option<Set<Seq<char>>>,
) -> (parts: (Seq<Seq<char>>, Seq<Seq<char>>))
    ensures
        keeps_order(workspace_retained(entries, runtime, stdlib), entries),
        workspace_rejected(entries, runtime, stdlib) == parts.0 + parts.1,
        keeps_order(parts.0, entries),
        keeps_order(parts.1, entries),
        forall|i: int|
            0 <= i < parts.0.len() ==> "perry-runtime/"@.is_prefix_of(#[trigger] parts.0[i]),
        forall|i: int|
            0 <= i < parts.1.len() ==> "perry-stdlib/"@.is_prefix_of(#[trigger] parts.1[i]),
{
    reveal_strlit("perry-runtime");
    reveal_strlit("perry-stdlib");
    reveal_strlit("perry-runtime/");
    reveal_strlit("perry-stdlib/");
    reveal_strlit("/");
    assert("perry-runtime/"@ =~= "perry-runtime"@ + "/"@);
    assert("perry-stdlib/"@ =~= "perry-stdlib"@ + "/"@);
    let keep_r = |e: Seq<char>| !undeclared(e, "perry-runtime"@, runtime);
    let drop_r = |e: Seq<char>| undeclared(e, "perry-runtime"@, runtime);
    let keep_s = |e: Seq<char>| !undeclared(e, "perry-stdlib"@, stdlib);
    let drop_s = |e: Seq<char>| undeclared(e, "perry-stdlib"@, stdlib);
    let mid = entries.filter(keep_r);
    lemma_filter_keeps_order(entries, keep_r);
    lemma_filter_keeps_order(entries, drop_r);
    lemma_filter_keeps_order(mid, keep_s);
    lemma_filter_keeps_order(mid, drop_s);
    lemma_order_through(mid.filter(keep_s), mid, entries);
    lemma_order_through(mid.filter(drop_s), mid, entries);
    let a = entries.filter(drop_r);
    let b = mid.filter(drop_s);
    assert forall|i: int| 0 <= i < a.len() implies "perry-runtime/"@.is_prefix_of(
        #[trigger] a[i],
    ) by {
        assert(a.contains(a[i]));
        text::lemma_filter_membership(entries, drop_r, a[i]);
        let f = choose|f: Seq<char>|
            a[i] == #[trigger] ("perry-runtime"@ + "/"@ + f) && !runtime->0.contains(f);
        assert(a[i] =~= "perry-runtime/"@ + f);
    }
    assert forall|i: int| 0 <= i < b.len() implies "perry-stdlib/"@.is_prefix_of(
        #[trigger] b[i],
    ) by {
        assert(b.contains(b[i]));
        text::lemma_filter_membership(mid, drop_s, b[i]);
        let f = choose|f: Seq<char>|
            b[i] == #[trigger] ("perry-stdlib"@ + "/"@ + f) && !stdlib->0.contains(f);
        assert(b[i] =~= "perry-stdlib/"@ + f);
    }
    (a, b)
}

/// Of one crate, a request `<crate>/<name>` stays if and only if the names of the
/// crate are not known or hold `<name>`, and is taken out otherwise; a request that
/// does not start with the crate and a slash stays.
pub proof fn law_requests_of_a_crate_are_sifted(
    entries: Seq<Seq<char>>,
    krate: Seq<char>,
    declared: Option<Set<Seq<char>>>,
    name: Seq<char>,
    other: Seq<char>,
)
    requires
        !(krate + "/"@).is_prefix_of(other),
    ensures
        ({
            let request = krate + "/"@ + name;
            let known = declared is None || declared->0.contains(name);
            let kept = retained(entries, krate, declared);
            let dropped = rejected(entries, krate, declared);
            &&& kept.contains(request) <==> entries.contains(request) && known
            &&& dropped.contains(request) <==> entries.contains(request) && !known
            &&& kept.contains(other) <==> entries.contains(other)
            &&& !dropped.contains(other)
        }),
{
    let request = krate + "/"@ + name;
    let keep = |e: Seq<char>| !undeclared(e, krate, declared);
    let drop = |e: Seq<char>| undeclared(e, krate, declared);
    assert forall|f: Seq<char>| request == #[trigger] (krate + "/"@ + f) implies f == name by {
        text::lemma_cancel_start(krate + "/"@, f, name);
    }
    assert forall|f: Seq<char>| other != #[trigger] (krate + "/"@ + f) by {
        if other == krate + "/"@ + f {
            assert((krate + "/"@).is_prefix_of(other));
        }
    }
    text::lemma_filter_membership(entries, keep, request);
    text::lemma_filter_membership(entries, drop, request);
    text::lemma_filter_membership(entries, keep, other);
    text::lemma_filter_membership(entries, drop, other);
}

} // verus!
