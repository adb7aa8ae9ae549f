use std::collections::HashMap;

use perry_freshness::closure::{manifest_mentions, CrateClosure};
use perry_freshness::fingerprint::{auto_optimized_source_fingerprint, fingerprint_text};
use perry_freshness::listing::DirItem;
use perry_freshness::name_set::NameSet;
use perry_freshness::source_walk::{Reading, SourceWalk};
use perry_freshness::text::{
    eq_ignore_ascii_case, sort_names, str_eq, str_le, strip_prefix, white_space,
};

fn strings(items: &[&str]) -> Vec<String> {
    items.iter().map(|s| s.to_string()).collect()
}

fn names(items: &[&str]) -> NameSet {
    let mut set = NameSet::new();
    for item in items {
        set.insert(item);
    }
    set
}

#[test]
fn string_order_is_that_of_the_standard_library() {
    let samples = ["", "a", "ab", "b", "B", "é", "zz", "\u{ffff}", "\u{10000}", "a\0", "-", "_"];
    for a in samples {
        for b in samples {
            assert_eq!(str_le(a, b), a <= b, "{a:?} {b:?}");
            assert_eq!(str_eq(a, b), a == b, "{a:?} {b:?}");
            assert_eq!(strip_prefix(a, b), a.strip_prefix(b), "{a:?} {b:?}");
            assert_eq!(eq_ignore_ascii_case(a, b), a.eq_ignore_ascii_case(b), "{a:?} {b:?}");
        }
    }
}

#[test]
fn sorting_keeps_repetitions() {
    assert_eq!(
        sort_names(&strings(&["b", "a", "b", "", "Z"])),
        strings(&["", "Z", "a", "b", "b"])
    );
    assert_eq!(names(&["b", "a", "b", "Z"]).names(), &strings(&["Z", "a", "b"]));
}

#[test]
fn white_space_is_that_of_unicode() {
    for c in '\0'..=char::MAX {
        assert_eq!(white_space(c), c.is_whitespace(), "{:?}", c);
    }
}

#[test]
fn mentions_of_a_manifest() {
    assert_eq!(
        manifest_mentions("[a.b-c] # d\n"),
        strings(&[
            "", "a", "b-c", "", "", "", "d", "", "", "a", "b-c", "", "", "", "d", "", "",
        ])
    );
    let manifest = "\u{3000}[x.a b]\r\n[\n[y.";
    let ascii = |c: char| c.is_ascii_alphanumeric() || c == '-' || c == '_';
    let mut expected: Vec<String> = manifest.split(|c| !ascii(c)).map(str::to_string).collect();
    expected.extend(manifest.split(|c: char| c.is_ascii() && !ascii(c)).map(str::to_string));
    expected.extend(strings(&["a b", "", ""]));
    assert_eq!(manifest_mentions(manifest), expected);
    assert_eq!(manifest_mentions("caf\u{e9}_1"), strings(&["caf", "_1", "caf\u{e9}_1", ""]));
    assert_eq!(manifest_mentions(""), strings(&["", ""]));
    assert_eq!(manifest_mentions("\n"), strings(&["", "", "", "", ""]));
}

#[test]
fn headers_mention_their_last_part_as_it_stands() {
    for (manifest, name) in [
        ("[a b]", "a b"),
        ("k = 1\n  [ x ] \r\n", " x "),
        ("[dependencies.a/b]\n", "a/b"),
        ("[[bin]]", "[bin]"),
        ("[x.\u{fc}+]", "\u{fc}+"),
    ] {
        assert!(manifest_mentions(manifest).contains(&name.to_string()), "{manifest:?}");
    }
    let workspace = HashMap::from([("perry-runtime", "[a b]\n"), ("a b", "")]);
    assert!(search(&workspace, &[]).contains(&"a b".to_string()));
}

#[test]
fn any_token_leads_to_its_crate() {
    for manifest in [
        "[dependencies.perry-foo] # note\n",
        "  [ dependencies . perry-foo ]  \r\n",
        "[dependencies.\"perry-foo\"]\n",
        "\"perry-foo\" = { workspace = true }",
        "x = { package = \"perry-foo\", path = \"../y\" }",
        "x = { path = \"../perry-foo\" }",
        "perry-foo.workspace = true",
        "\tperry-foo = \"1\" # why\n",
    ] {
        let workspace = HashMap::from([("perry-runtime", manifest), ("perry-foo", "")]);
        let found = search(&workspace, &[]);
        assert!(found.contains(&"perry-foo".to_string()), "{manifest:?}");
    }
    for manifest in ["perry-foobar = 1", "my-perry-foo = 1", "perry-fo = 1"] {
        let workspace = HashMap::from([("perry-runtime", manifest), ("perry-foo", "")]);
        let found = search(&workspace, &[]);
        assert!(!found.contains(&"perry-foo".to_string()), "{manifest:?}");
    }
}

fn search(manifests: &HashMap<&str, &str>, bindings: &[(String, String, Option<String>)]) -> Vec<String> {
    let mut closure = CrateClosure::new(bindings);
    while let Some(name) = closure.take_next() {
        if let Some(text) = manifests.get(name.as_str()) {
            let asked = closure.unknown_mentions(text);
            let members: Vec<String> =
                asked.into_iter().filter(|n| manifests.contains_key(n.as_str())).collect();
            closure.add_members(&members);
        }
    }
    closure.crates().names().clone()
}

#[test]
fn closure_follows_manifests_transitively() {
    let manifests = HashMap::from([
        ("perry-runtime", "[dependencies]\nperry-util = { path = \"../perry-util\" }\nserde = \"1\"\n"),
        ("perry-util", "[dependencies.perry-deep]\npath = \"../perry-deep\"\n"),
        ("perry-deep", "perry-runtime.workspace = true\n"),
        ("perry-ext-http", "perry-net.workspace = true\n"),
        ("perry-net", ""),
        ("perry-unused", "perry-net = \"1\"\n"),
    ]);
    let bindings = vec![("perry-ext-http".to_string(), "l".to_string(), None)];
    assert_eq!(
        search(&manifests, &bindings),
        strings(&[
            "perry-deep",
            "perry-ext-http",
            "perry-net",
            "perry-runtime",
            "perry-runtime-static",
            "perry-stdlib",
            "perry-stdlib-static",
            "perry-util",
        ])
    );
}

#[test]
fn closure_starts_with_the_last_crate_in_order() {
    let mut closure = CrateClosure::new(&[]);
    assert_eq!(closure.take_next(), Some("perry-stdlib-static".to_string()));
    assert_eq!(
        closure.unknown_mentions("perry-runtime = 1\nnew = 1\n = 2\nnew = 2\nother = 1\n"),
        strings(&["1", "new", "2", "other"])
    );
    closure.add_members(&strings(&["new", "new", "perry-stdlib", ""]));
    assert_eq!(closure.take_next(), Some("new".to_string()));
    assert_eq!(closure.take_next(), Some("perry-stdlib".to_string()));
    assert_eq!(closure.take_next(), Some("perry-runtime-static".to_string()));
    assert_eq!(closure.take_next(), Some("perry-runtime".to_string()));
    assert_eq!(closure.take_next(), None);
    assert!(closure.crates().contains("new"));
    assert!(!closure.crates().contains(""));
}

fn dir(items: &[&str]) -> Reading {
    Reading::Directory(items.iter().map(|n| DirItem::Name(n.to_string())).collect())
}

#[test]
fn fingerprint_of_missing_manifests() {
    let mut walk = SourceWalk::new(&NameSet::new());
    assert_eq!(walk.next_path(), Some(&strings(&["Cargo.toml"])));
    assert_eq!(auto_optimized_source_fingerprint(&walk), None);
    walk.feed(Reading::Missing);
    assert_eq!(walk.next_path(), Some(&strings(&["Cargo.lock"])));
    walk.feed(Reading::Missing);
    assert_eq!(walk.next_path(), None);
    assert_eq!(
        walk.stream().as_slice(),
        b"perry-auto-src-v1\0Cargo.toml\0missing\0Cargo.lock\0missing\0".as_slice()
    );
    assert_eq!(
        auto_optimized_source_fingerprint(&walk),
        Some("749ce69b63e1550792ba7594228d2771".to_string())
    );
    walk.feed(Reading::Missing);
    assert_eq!(walk.next_path(), None);
}

#[test]
fn fingerprint_of_a_workspace() {
    let mut walk = SourceWalk::new(&names(&["b", "a"]));
    walk.feed(Reading::File(b"[workspace]\n".to_vec()));
    walk.feed(Reading::Unreadable);
    assert_eq!(walk.next_path(), Some(&strings(&["crates", "a"])));
    walk.feed(Reading::Directory(vec![
        DirItem::Name("target".to_string()),
        DirItem::Name("src".to_string()),
        DirItem::NotUnicode,
        DirItem::Failed,
        DirItem::Name(".git".to_string()),
        DirItem::Name("Cargo.toml".to_string()),
        DirItem::Name("socket".to_string()),
    ]));
    assert_eq!(walk.next_path(), Some(&strings(&["crates", "a", "Cargo.toml"])));
    walk.feed(Reading::File(b"x".to_vec()));
    assert_eq!(walk.next_path(), Some(&strings(&["crates", "a", "socket"])));
    walk.feed(Reading::Unlisted);
    assert_eq!(walk.next_path(), Some(&strings(&["crates", "a", "src"])));
    walk.feed(dir(&["zed.rs", "lib.rs"]));
    assert_eq!(walk.next_path(), Some(&strings(&["crates", "a", "src", "lib.rs"])));
    walk.feed(Reading::File(b"fn main() {}".to_vec()));
    walk.feed(Reading::File(Vec::new()));
    assert_eq!(walk.next_path(), Some(&strings(&["crates", "b"])));
    walk.feed(Reading::Missing);
    assert_eq!(
        auto_optimized_source_fingerprint(&walk),
        Some("80599a74e022eb6805bb3b950543814f".to_string())
    );
}

#[test]
fn listing_order_does_not_matter() {
    let mut streams = Vec::new();
    for listing in [["b", "a", "target"], ["target", "a", "b"], ["a", ".git", "b"]] {
        let mut walk = SourceWalk::new(&names(&["k"]));
        walk.feed(Reading::Missing);
        walk.feed(Reading::Missing);
        walk.feed(dir(&listing));
        walk.feed(Reading::File(b"1".to_vec()));
        walk.feed(Reading::File(b"2".to_vec()));
        assert_eq!(walk.next_path(), None);
        streams.push(walk.stream().clone());
    }
    assert_eq!(streams[0], streams[1]);
    assert_eq!(streams[0], streams[2]);
}

#[test]
fn dependency_lines_and_sections_mention_their_crate() {
    for manifest in [
        "  perry-foo = { path = \"../perry-foo\" }  \r\n",
        "perry-foo.workspace = true",
        "perry-foo",
        "[dependencies.perry-foo]\n",
        "[target.'cfg(unix)'.dependencies.perry-foo]",
    ] {
        assert!(
            manifest_mentions(manifest).contains(&"perry-foo".to_string()),
            "{manifest:?}"
        );
    }
}

/// The fingerprint of a workspace given as the contents of its files.
fn fingerprint_of_files(files: &HashMap<&str, &str>) -> String {
    let mut closure = CrateClosure::new(&[]);
    while let Some(name) = closure.take_next() {
        if let Some(text) = files.get(format!("crates/{name}/Cargo.toml").as_str()) {
            let mut members = closure.unknown_mentions(text);
            members.retain(|m| files.contains_key(format!("crates/{m}/Cargo.toml").as_str()));
            closure.add_members(&members);
        }
    }
    let mut walk = SourceWalk::new(closure.crates());
    loop {
        let path = match walk.next_path() {
            Some(path) => path.join("/"),
            None => break,
        };
        let below = format!("{path}/");
        let mut entries: Vec<&str> = files
            .keys()
            .filter_map(|file| file.strip_prefix(below.as_str()))
            .map(|rest| rest.split('/').next().unwrap())
            .filter(|name| !name.is_empty())
            .collect();
        entries.sort();
        entries.dedup();
        let reading = if let Some(content) = files.get(path.as_str()) {
            Reading::File(content.as_bytes().to_vec())
        } else if files.keys().any(|file| file.starts_with(below.as_str())) {
            dir(&entries)
        } else {
            Reading::Missing
        };
        walk.feed(reading);
    }
    auto_optimized_source_fingerprint(&walk).unwrap()
}

fn small_workspace() -> HashMap<&'static str, &'static str> {
    HashMap::from([
        ("Cargo.toml", "[workspace]"),
        ("Cargo.lock", ""),
        ("crates/perry-runtime/Cargo.toml", "[dependencies]\nperry-a.workspace = true\n"),
        ("crates/perry-a/Cargo.toml", "[dependencies.perry-b] # note\n"),
        ("crates/perry-b/Cargo.toml", ""),
        ("crates/perry-b/src/lib.rs", "old"),
    ])
}

#[test]
fn a_change_in_a_transitive_dependency_changes_the_fingerprint() {
    let before = fingerprint_of_files(&small_workspace());
    let mut changed = small_workspace();
    changed.insert("crates/perry-b/src/lib.rs", "new");
    assert_ne!(fingerprint_of_files(&changed), before);
    let mut renamed = small_workspace();
    renamed.remove("crates/perry-b/src/lib.rs");
    renamed.insert("crates/perry-b/src/main.rs", "old");
    assert_ne!(fingerprint_of_files(&renamed), before);
    let mut added = small_workspace();
    added.insert("crates/perry-b/src/more.rs", "");
    assert_ne!(fingerprint_of_files(&added), before);
    let mut locked = small_workspace();
    locked.insert("Cargo.lock", "x");
    assert_ne!(fingerprint_of_files(&locked), before);
}

#[test]
fn unseen_changes_keep_the_fingerprint() {
    let before = fingerprint_of_files(&small_workspace());
    for unseen in [
        "crates/perry-b/target/x",
        "crates/perry-b/src/.git/deep/x",
        "crates/perry-b/src/empty/",
        "crates/unrelated/src/lib.rs",
    ] {
        let mut world = small_workspace();
        world.insert(unseen, "x");
        assert_eq!(fingerprint_of_files(&world), before, "{unseen}");
    }
}

#[test]
fn fingerprints_of_different_sources_differ() {
    let mut one = SourceWalk::new(&NameSet::new());
    one.feed(Reading::File(b"a".to_vec()));
    one.feed(Reading::Missing);
    let mut two = SourceWalk::new(&NameSet::new());
    two.feed(Reading::File(b"b".to_vec()));
    two.feed(Reading::Missing);
    assert_ne!(one.stream(), two.stream());
    assert_ne!(
        auto_optimized_source_fingerprint(&one),
        auto_optimized_source_fingerprint(&two)
    );
}

#[test]
fn fingerprint_text_is_the_first_half_of_a_digest() {
    let digest: Vec<u8> = (0u8..32).map(|i| i * 8 + 7).collect();
    assert_eq!(fingerprint_text(&digest), "070f171f272f373f474f575f676f777f");
    assert_eq!(fingerprint_text(&[0xabu8; 16]), "abababababababababababababababab");
}
