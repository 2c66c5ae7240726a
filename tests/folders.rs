use tomltojson::duration::parse_modified;
use tomltojson::folders::{from_toml_folder, from_toml_folders, DirEntry};

fn parts(items: &[&str]) -> Vec<String> {
    items.iter().map(|s| s.to_string()).collect()
}

fn file(name: &str, age: u64) -> DirEntry {
    DirEntry { name: name.to_string(), is_dir: false, age }
}

fn dir(name: &str) -> DirEntry {
    DirEntry { name: name.to_string(), is_dir: true, age: 0 }
}

const DAY: u64 = 86400;

#[test]
fn folder_picks_toml_files_only() {
    let entries = vec![file("a.toml", 1), file("b.json", 1), dir("c.toml"), file("README", 1), file("d.toml", 1)];
    let convs = from_toml_folder(&parts(&["in"]), &parts(&["out"]), &parts(&["x"]), &entries, None);
    assert_eq!(convs.len(), 2);
    assert_eq!(convs[0].source, parts(&["in", "x", "a.toml"]));
    assert_eq!(convs[0].target, parts(&["out", "x", "a.json"]));
    assert_eq!(convs[1].source, parts(&["in", "x", "d.toml"]));
    assert_eq!(convs[1].target, parts(&["out", "x", "d.json"]));
}

#[test]
fn empty_folder_converts_nothing() {
    let convs = from_toml_folder(&parts(&["in"]), &parts(&["out"]), &parts(&[]), &vec![], Some(10));
    assert!(convs.is_empty());
}

#[test]
fn depth_zero_lists_root_only() {
    let mut walk = from_toml_folders(parts(&["src"]), parts(&["dst"]), None, 0);
    let (s, t) = walk.next_folder().unwrap();
    assert_eq!(s, parts(&["src"]));
    assert_eq!(t, parts(&["dst"]));
    let convs = walk.visit(&vec![file("a.toml", 0), dir("sub")]);
    assert_eq!(convs.len(), 1);
    assert_eq!(convs[0].source, parts(&["src", "a.toml"]));
    assert!(walk.next_folder().is_none());
}

#[test]
fn threshold_and_depth_scenario() {
    // a.toml is 5 days old, sub/b.toml 40 days; only a.json comes out.
    let threshold = parse_modified("30d").unwrap();
    let mut walk = from_toml_folders(parts(&["root"]), parts(&["root"]), Some(threshold), 1);
    let mut all = Vec::new();
    let mut listed = Vec::new();
    while let Some((s, _)) = walk.next_folder() {
        let entries = if s == parts(&["root"]) {
            vec![file("a.toml", 5 * DAY), dir("sub")]
        } else {
            assert_eq!(s, parts(&["root", "sub"]));
            vec![file("b.toml", 40 * DAY)]
        };
        listed.push(s);
        all.extend(walk.visit(&entries));
    }
    assert_eq!(listed, vec![parts(&["root"]), parts(&["root", "sub"])]);
    assert_eq!(all.len(), 1);
    assert_eq!(all[0].target, parts(&["root", "a.json"]));
}

#[test]
fn walk_mirrors_subfolders_under_missing_target() {
    let mut walk = from_toml_folders(parts(&["in"]), parts(&["new_out"]), None, 2);
    let mut targets = Vec::new();
    let mut outputs = Vec::new();
    while let Some((s, t)) = walk.next_folder() {
        targets.push(t);
        let entries = match s.len() {
            1 => vec![dir("a"), file("top.toml", 0)],
            2 => vec![dir("b"), file("mid.toml", 0)],
            3 => vec![dir("c"), file("low.toml", 0)],
            _ => panic!("walked too deep: {s:?}"),
        };
        for c in walk.visit(&entries) {
            outputs.push(c.target);
        }
    }
    assert_eq!(targets, vec![parts(&["new_out"]), parts(&["new_out", "a"]), parts(&["new_out", "a", "b"])]);
    assert_eq!(
        outputs,
        vec![
            parts(&["new_out", "top.json"]),
            parts(&["new_out", "a", "mid.json"]),
            parts(&["new_out", "a", "b", "low.json"]),
        ]
    );
}

#[test]
fn skipped_folder_is_not_descended() {
    let mut walk = from_toml_folders(parts(&["in"]), parts(&["out"]), None, 3);
    walk.visit(&vec![dir("locked"), dir("open")]);
    let (s, _) = walk.next_folder().unwrap();
    assert_eq!(s, parts(&["in", "open"]));
    walk.skip();
    let (s, _) = walk.next_folder().unwrap();
    assert_eq!(s, parts(&["in", "locked"]));
    walk.visit(&vec![]);
    assert!(walk.next_folder().is_none());
}
