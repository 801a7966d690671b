use file_explorer::path::{child_path, leading_names, EntryPath};
use file_explorer::search::{find_file, find_file_recursively, DirEntry, Listing};

fn file(name: &str) -> DirEntry {
    DirEntry { name: name.to_string(), is_dir: false, listing: Listing::Unreadable }
}

fn dir(name: &str, entries: Vec<DirEntry>) -> DirEntry {
    DirEntry { name: name.to_string(), is_dir: true, listing: Listing::Entries(entries) }
}

fn locked_dir(name: &str) -> DirEntry {
    DirEntry { name: name.to_string(), is_dir: true, listing: Listing::Unreadable }
}

fn names(parts: &[&str]) -> Vec<String> {
    parts.iter().map(|p| p.to_string()).collect()
}

fn found(matches: &Vec<EntryPath>) -> Vec<Vec<String>> {
    matches.iter().map(|m| m.segments.clone()).collect()
}

#[test]
fn search_walks_subdirectory_before_later_siblings() {
    let tree = Listing::Entries(vec![
        dir("sub", vec![file("ab.txt"), file("b.txt")]),
        file("a.txt"),
    ]);
    let matches = find_file("a", &names(&["root"]), &tree);
    assert_eq!(
        found(&matches),
        vec![names(&["root", "sub", "ab.txt"]), names(&["root", "a.txt"])]
    );
}

#[test]
fn search_keeps_listing_order_within_a_directory() {
    let tree = Listing::Entries(vec![
        file("a.txt"),
        dir("sub", vec![file("ab.txt"), file("b.txt")]),
    ]);
    let matches = find_file("a", &names(&["root"]), &tree);
    assert_eq!(
        found(&matches),
        vec![names(&["root", "a.txt"]), names(&["root", "sub", "ab.txt"])]
    );
}

#[test]
fn search_reports_directory_after_its_subtree() {
    let tree = Listing::Entries(vec![dir("data", vec![file("data.csv"), file("notes")])]);
    let matches = find_file("data", &names(&["root"]), &tree);
    assert_eq!(
        found(&matches),
        vec![names(&["root", "data", "data.csv"]), names(&["root", "data"])]
    );
}

#[test]
fn search_with_empty_query_reports_every_entry() {
    let tree = Listing::Entries(vec![
        dir("sub", vec![file("ab.txt"), file("b.txt")]),
        file("a.txt"),
    ]);
    let matches = find_file("", &names(&["root"]), &tree);
    assert_eq!(
        found(&matches),
        vec![
            names(&["root", "sub", "ab.txt"]),
            names(&["root", "sub", "b.txt"]),
            names(&["root", "sub"]),
            names(&["root", "a.txt"]),
        ]
    );
}

#[test]
fn search_twice_gives_the_same_matches() {
    let tree = Listing::Entries(vec![
        dir("sub", vec![file("ab.txt"), locked_dir("b")]),
        file("a.txt"),
    ]);
    let first = find_file("", &names(&["root"]), &tree);
    let second = find_file("", &names(&["root"]), &tree);
    assert_eq!(found(&first), found(&second));
    assert_eq!(first.len(), 4);
}

#[test]
fn search_below_missing_root_finds_nothing() {
    let matches = find_file("a", &names(&["nowhere"]), &Listing::Unreadable);
    assert!(matches.is_empty());
}

#[test]
fn search_skips_unreadable_directory_and_goes_on() {
    let tree = Listing::Entries(vec![
        locked_dir("attic"),
        dir("cellar", vec![file("jar")]),
        file("map"),
    ]);
    let matches = find_file("a", &names(&["house"]), &tree);
    assert_eq!(
        found(&matches),
        vec![
            names(&["house", "attic"]),
            names(&["house", "cellar", "jar"]),
            names(&["house", "cellar"]),
            names(&["house", "map"]),
        ]
    );
}

#[test]
fn search_does_not_descend_into_files() {
    let odd = DirEntry {
        name: "plain".to_string(),
        is_dir: false,
        listing: Listing::Entries(vec![file("hidden")]),
    };
    let matches = find_file("hidden", &names(&["root"]), &Listing::Entries(vec![odd]));
    assert!(matches.is_empty());
}

#[test]
fn search_is_case_sensitive() {
    let tree = Listing::Entries(vec![file("Readme.md"), file("readme.md")]);
    let matches = find_file("Read", &names(&["root"]), &tree);
    assert_eq!(found(&matches), vec![names(&["root", "Readme.md"])]);
}

#[test]
fn search_matches_inside_and_at_the_end_of_a_name() {
    let tree = Listing::Entries(vec![file("xay"), file("xya"), file("xyz"), file("a")]);
    let matches = find_file("a", &names(&["r"]), &tree);
    assert_eq!(
        found(&matches),
        vec![names(&["r", "xay"]), names(&["r", "xya"]), names(&["r", "a"])]
    );
}

#[test]
fn search_query_longer_than_name_does_not_match() {
    let tree = Listing::Entries(vec![file("ab")]);
    assert!(find_file("abc", &names(&["r"]), &tree).is_empty());
}

#[test]
fn search_matches_lie_below_root_and_contain_query() {
    let tree = Listing::Entries(vec![
        dir("alpha", vec![dir("beta", vec![file("gamma"), file("delta")])]),
        file("omega"),
    ]);
    let root = names(&["top", "mid"]);
    let matches = find_file("a", &root, &tree);
    assert_eq!(matches.len(), 5);
    for m in found(&matches) {
        assert!(m.len() > root.len());
        assert_eq!(m[..root.len()].to_vec(), root);
        assert!(m[m.len() - 1].contains("a"));
    }
}

#[test]
fn recursive_walk_appends_to_what_was_found() {
    let mut result = vec![EntryPath { segments: names(&["earlier"]) }];
    let tree = Listing::Entries(vec![file("a.txt")]);
    find_file_recursively("a", &names(&["root"]), &tree, &mut result);
    assert_eq!(found(&result), vec![names(&["earlier"]), names(&["root", "a.txt"])]);
}

#[test]
fn child_path_appends_the_name() {
    let path = child_path(&names(&["root", "sub"]), &"leaf".to_string());
    assert_eq!(path.segments, names(&["root", "sub", "leaf"]));
}

#[test]
fn leading_names_copies_a_prefix() {
    let all = names(&["a", "b", "c"]);
    assert_eq!(leading_names(&all, 2), names(&["a", "b"]));
    assert_eq!(leading_names(&all, 0), Vec::<String>::new());
    assert_eq!(leading_names(&all, 3), all);
}
