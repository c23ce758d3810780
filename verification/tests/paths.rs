use bulk_converter::paths::{destination_path, extension, file_name, file_stem, join, parent};

#[test]
fn dest_beside_source() {
    let d = destination_path("a/b/cat.png", "jpg", None);
    assert_eq!(d, "a/b/cat.jpg");
}

#[test]
fn dest_in_output_dir_with_slash() {
    let d = destination_path("a/b/cat.png", "jpg", Some("out/"));
    assert_eq!(d, "out/cat.jpg");
}

#[test]
fn dest_in_output_dir_without_slash() {
    let d = destination_path("a/b/cat.png", "jpg", Some("out"));
    assert_eq!(d, "out/cat.jpg");
}

#[test]
fn dest_bare_file_name() {
    let d = destination_path("cat.png", "jpg", None);
    assert_eq!(d, "cat.jpg");
}

#[test]
fn dest_at_root() {
    let d = destination_path("/cat.png", "jpg", None);
    assert_eq!(d, "/cat.jpg");
}

#[test]
fn dest_double_extension() {
    let d = destination_path("x/archive.tar.gz", "zip", None);
    assert_eq!(d, "x/archive.tar.zip");
}

#[test]
fn file_name_parts() {
    assert_eq!(file_name("a/b/cat.png"), "cat.png");
    assert_eq!(file_name("cat.png"), "cat.png");
    assert_eq!(parent("a/b/cat.png"), "a/b");
    assert_eq!(parent("cat.png"), "");
    assert_eq!(parent("/cat.png"), "/");
}

#[test]
fn stem_and_extension() {
    assert_eq!(file_stem("cat.png"), "cat");
    assert_eq!(extension("cat.png"), Some("png"));
    assert_eq!(file_stem("archive.tar.gz"), "archive.tar");
    assert_eq!(extension("archive.tar.gz"), Some("gz"));
    assert_eq!(file_stem("noext"), "noext");
    assert_eq!(extension("noext"), None);
    // Only a dotless name has no extension: a leading dot still counts.
    assert_eq!(file_stem(".hidden"), "");
    assert_eq!(extension(".hidden"), Some("hidden"));
    assert_eq!(extension("trailing."), Some(""));
}

#[test]
fn dest_leading_dot_name() {
    let d = destination_path("a/.png", "jpg", None);
    assert_eq!(d, "a/.jpg");
}

#[test]
fn join_cases() {
    assert_eq!(join("a", "b"), "a/b");
    assert_eq!(join("a/", "b"), "a/b");
    assert_eq!(join("", "b"), "b");
}
