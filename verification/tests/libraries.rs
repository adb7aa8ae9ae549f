use perry_freshness::well_known::{
    library_candidates, resolve_auto_well_known_libs, LibPath, LibProbe, OutputFormat, PathBase,
};

fn strings(items: &[&str]) -> Vec<String> {
    items.iter().map(|s| s.to_string()).collect()
}

fn bindings(krates: &[&str]) -> Vec<(String, String, Option<String>)> {
    krates.iter().map(|k| (k.to_string(), "l".to_string(), None)).collect()
}

fn probe(file_name: &str, exists: &[bool]) -> LibProbe {
    LibProbe { file_name: file_name.to_string(), exists: exists.to_vec() }
}

fn plain(path: &LibPath) -> (PathBase, Vec<String>) {
    (path.base, path.names.clone())
}

#[test]
fn candidates_with_and_without_a_triple() {
    let host: Vec<_> = library_candidates("l.a", None).iter().map(plain).collect();
    assert_eq!(
        host,
        vec![
            (PathBase::ReleaseDir, strings(&["l.a"])),
            (PathBase::WorkspaceRoot, strings(&["target", "release", "l.a"])),
        ]
    );
    let cross: Vec<_> = library_candidates("l.a", Some("t")).iter().map(plain).collect();
    assert_eq!(
        cross,
        vec![
            (PathBase::ReleaseDir, strings(&["l.a"])),
            (PathBase::WorkspaceRoot, strings(&["target", "t", "release", "l.a"])),
            (PathBase::WorkspaceRoot, strings(&["target", "release", "l.a"])),
        ]
    );
}

#[test]
fn the_best_existing_library_is_linked() {
    let probes = vec![
        probe("a.a", &[true, true, true]),
        probe("b.a", &[false, true, true]),
        probe("c.a", &[false, false, true]),
        probe("d.a", &[false, false, false]),
    ];
    let r = resolve_auto_well_known_libs(
        &bindings(&["ka", "kb", "kc", "kd"]),
        &probes,
        Some("t"),
        OutputFormat::Text,
        "/rel",
    );
    let libs: Vec<_> = r.libs.iter().map(plain).collect();
    assert_eq!(
        libs,
        vec![
            (PathBase::ReleaseDir, strings(&["a.a"])),
            (PathBase::WorkspaceRoot, strings(&["target", "t", "release", "b.a"])),
            (PathBase::WorkspaceRoot, strings(&["target", "release", "c.a"])),
        ]
    );
    assert_eq!(
        r.notices,
        strings(&[
            "  well-known: rebuild produced no `b.a` in /rel — using workspace fallback (CONTEXT panic risk on tokio I/O)",
            "  well-known: rebuild produced no `c.a` in /rel — using workspace fallback (CONTEXT panic risk on tokio I/O)",
            "  well-known: rebuild produced no `d.a` for `kd`; skipping — link will likely fail with unresolved js_* symbols.",
        ])
    );
}

#[test]
fn other_formats_have_no_notices() {
    let probes = vec![probe("b.a", &[false, true]), probe("d.a", &[false, false])];
    let r = resolve_auto_well_known_libs(
        &bindings(&["kb", "kd"]),
        &probes,
        None,
        OutputFormat::Json,
        "/rel",
    );
    assert_eq!(r.libs.len(), 1);
    assert!(r.notices.is_empty());
}
