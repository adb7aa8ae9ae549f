use std::collections::HashMap;

use perry_freshness::freshness::{
    auto_optimized_archives_are_fresh, file_modified, ArchiveError, ArchiveGate, NewerWalk,
    PathStatus, Verdict,
};
use perry_freshness::listing::DirItem;

fn strings(items: &[&str]) -> Vec<String> {
    items.iter().map(|s| s.to_string()).collect()
}

fn dir(items: &[&str]) -> PathStatus {
    PathStatus::Directory(Some(items.iter().map(|n| DirItem::Name(n.to_string())).collect()))
}

fn file(time: i128) -> PathStatus {
    PathStatus::File(Some(time))
}

fn run(mut gate: ArchiveGate, world: &dyn Fn(&str) -> PathStatus) -> bool {
    loop {
        let path = match gate.next_path() {
            Some(path) => path.join("/"),
            None => break,
        };
        gate = gate.feed(world(&path));
    }
    auto_optimized_archives_are_fresh(&gate).unwrap()
}

fn world(path: &str, late: &str) -> PathStatus {
    let time = if path == late { 101 } else { 100 };
    match path {
        "Cargo.toml" | "Cargo.lock" => file(time),
        "crates/perry-runtime" => dir(&["src", "target", "Cargo.toml"]),
        "crates/perry-runtime/src" => dir(&["lib.rs"]),
        "crates/perry-stdlib" => dir(&[".git", "lib.rs"]),
        "crates/perry-ext-http" => dir(&["lib.rs"]),
        _ => file(time),
    }
}

fn http() -> Vec<(String, String, Option<String>)> {
    vec![("perry-ext-http".to_string(), "l".to_string(), None)]
}

#[test]
fn archive_times() {
    assert_eq!(file_modified(&file(-5)), Ok(-5));
    assert_eq!(file_modified(&PathStatus::File(None)), Err(ArchiveError::Unavailable));
    assert_eq!(file_modified(&PathStatus::Unavailable), Err(ArchiveError::Unavailable));
    assert_eq!(file_modified(&dir(&[])), Err(ArchiveError::NotAFile));
    assert_eq!(file_modified(&PathStatus::Other), Err(ArchiveError::NotAFile));
}

#[test]
fn archives_no_older_than_their_inputs_are_fresh() {
    let gate = ArchiveGate::new(Some("s"), "s", &file(100), &file(200), &http());
    assert_eq!(auto_optimized_archives_are_fresh(&gate), None);
    assert!(run(gate, &|p| world(p, "")));
}

#[test]
fn any_newer_input_makes_archives_stale() {
    for late in [
        "Cargo.toml",
        "Cargo.lock",
        "crates/perry-runtime/Cargo.toml",
        "crates/perry-runtime/src/lib.rs",
        "crates/perry-stdlib/lib.rs",
        "crates/perry-ext-http/lib.rs",
    ] {
        let gate = ArchiveGate::new(Some("s"), "s", &file(300), &file(100), &http());
        assert!(!run(gate, &|p| world(p, late)), "{late}");
    }
    for unseen in ["crates/perry-runtime/target", "crates/perry-stdlib/.git"] {
        let gate = ArchiveGate::new(Some("s"), "s", &file(300), &file(100), &http());
        assert!(run(gate, &|p| world(p, unseen)), "{unseen}");
    }
}

#[test]
fn stamp_and_archives_decide_first() {
    let none: [(String, String, Option<String>); 0] = [];
    for gate in [
        ArchiveGate::new(None, "s", &file(1), &file(1), &none),
        ArchiveGate::new(Some("old"), "s", &file(1), &file(1), &none),
        ArchiveGate::new(Some("s"), "s", &PathStatus::Unavailable, &file(1), &none),
        ArchiveGate::new(Some("s"), "s", &file(1), &dir(&[]), &none),
    ] {
        assert_eq!(gate.next_path(), None);
        assert_eq!(auto_optimized_archives_are_fresh(&gate), Some(false));
        let gate = gate.feed(file(0));
        assert_eq!(auto_optimized_archives_are_fresh(&gate), Some(false));
    }
}

#[test]
fn an_input_that_cannot_be_read_makes_archives_stale() {
    for status in [0, 1, 2] {
        let gate = ArchiveGate::new(Some("s"), "s", &file(100), &file(100), &http());
        assert!(!run(gate, &|p| {
            if p == "crates/perry-ext-http" {
                match status {
                    0 => PathStatus::Unavailable,
                    1 => PathStatus::File(None),
                    _ => PathStatus::Directory(None),
                }
            } else {
                world(p, "")
            }
        }));
    }
}

fn search(statuses: &mut HashMap<&str, PathStatus>, path: &str) -> Verdict {
    let mut walk = NewerWalk::new(&vec![strings(&[path])], 10);
    loop {
        let next = match walk.next_path() {
            Some(next) => next.join("/"),
            None => break,
        };
        let status = statuses.remove(next.as_str()).unwrap();
        walk = walk.feed(status);
    }
    walk.verdict().unwrap()
}

#[test]
fn a_fault_counts_where_the_listing_comes_to_it() {
    let listing = || {
        PathStatus::Directory(Some(vec![
            DirItem::NotUnicode,
            DirItem::Name("a".to_string()),
            DirItem::Failed,
            DirItem::Name("b".to_string()),
        ]))
    };
    let mut early = HashMap::from([("r", listing()), ("r/a", file(11)), ("r/b", file(0))]);
    assert_eq!(search(&mut early, "r"), Verdict::Newer);
    let mut late = HashMap::from([("r", listing()), ("r/a", file(10)), ("r/b", file(11))]);
    assert_eq!(search(&mut late, "r"), Verdict::Failed);
    assert!(late.contains_key("r/b"));
}

#[test]
fn searches_of_single_paths() {
    assert_eq!(search(&mut HashMap::from([("f", file(11))]), "f"), Verdict::Newer);
    assert_eq!(search(&mut HashMap::from([("f", file(10))]), "f"), Verdict::Older);
    assert_eq!(search(&mut HashMap::from([("f", PathStatus::Other)]), "f"), Verdict::Older);
    assert_eq!(search(&mut HashMap::from([("f", dir(&[]))]), "f"), Verdict::Older);
    assert_eq!(search(&mut HashMap::from([("f", PathStatus::File(None))]), "f"), Verdict::Failed);
    assert_eq!(search(&mut HashMap::from([("f", PathStatus::Unavailable)]), "f"), Verdict::Failed);
    assert_eq!(
        search(&mut HashMap::from([("f", PathStatus::Directory(None))]), "f"),
        Verdict::Failed
    );
    let none: Vec<Vec<String>> = Vec::new();
    assert_eq!(NewerWalk::new(&none, 0).verdict(), Some(Verdict::Older));
}
