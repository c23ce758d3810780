use bulk_converter::discover::{discover, FsEntry};

fn file(name: &str) -> FsEntry {
    FsEntry::File { name: name.to_string() }
}

fn dir(name: &str, entries: Vec<FsEntry>) -> FsEntry {
    FsEntry::Dir { name: name.to_string(), entries }
}

fn exts(list: &[&str]) -> Vec<String> {
    list.iter().map(|e| e.to_string()).collect()
}

#[test]
fn discover_filters_by_extension() {
    let tree = dir(
        "root",
        vec![
            file("cat.png"),
            file("dog.jpg"),
            file("readme"),
            file("notes.txt"),
            dir("sub", vec![file("bird.png"), file(".hidden"), file("x.PNG")]),
            file("tail.jpg"),
        ],
    );
    let found = discover(&vec![tree], &exts(&["png", "jpg"]));
    assert_eq!(
        found,
        vec!["root/cat.png", "root/dog.jpg", "root/sub/bird.png", "root/tail.jpg"]
    );
}

#[test]
fn discover_is_case_sensitive() {
    let tree = dir("d", vec![file("a.PNG"), file("b.png")]);
    let found = discover(&vec![tree], &exts(&["png"]));
    assert_eq!(found, vec!["d/b.png"]);
}

#[test]
fn discover_excludes_files_without_extension() {
    let tree = dir("d", vec![file("plain"), file(".hidden"), file("ok.png")]);
    let found = discover(&vec![tree], &exts(&["png", "hidden", "plain"]));
    // "plain" holds no dot and so has no extension, even though "plain" is
    // in the filter; ".hidden" has the extension "hidden".
    assert_eq!(found, vec!["d/.hidden", "d/ok.png"]);
}

#[test]
fn discover_concatenates_roots_without_dedup() {
    let one = dir("one", vec![file("a.png")]);
    let same = dir("one", vec![file("a.png")]);
    let found = discover(&vec![one, same], &exts(&["png"]));
    assert_eq!(found, vec!["one/a.png", "one/a.png"]);
}

#[test]
fn discover_root_may_be_a_file() {
    let found = discover(&vec![file("solo.png")], &exts(&["png"]));
    assert_eq!(found, vec!["solo.png"]);
}

#[test]
fn discover_empty_filter_finds_nothing() {
    let tree = dir("d", vec![file("a.png")]);
    let found = discover(&vec![tree], &exts(&[]));
    assert_eq!(found, Vec::<String>::new());
}

#[test]
fn discover_depth_first_order() {
    let tree = dir(
        "top",
        vec![
            dir("first", vec![file("one.gif"), dir("deep", vec![file("two.gif")])]),
            file("three.gif"),
            dir("second", vec![file("four.gif")]),
        ],
    );
    let found = discover(&vec![tree], &exts(&["gif"]));
    assert_eq!(
        found,
        vec![
            "top/first/one.gif",
            "top/first/deep/two.gif",
            "top/three.gif",
            "top/second/four.gif"
        ]
    );
}
