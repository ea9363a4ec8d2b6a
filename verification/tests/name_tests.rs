use stream_store::{agent_stream_path, file_stem, is_valid_name, join_name, split_name, trim_str};

#[test]
fn path_appends_extension() {
    assert_eq!(agent_stream_path("a"), "a.json");
    assert_eq!(agent_stream_path("x/y"), "x/y.json");
    assert_eq!(agent_stream_path("a/b/c"), "a/b/c.json");
}

#[test]
fn split_and_join_round_trip() {
    let segs = split_name("x/y/z");
    assert_eq!(segs, vec!["x".to_string(), "y".to_string(), "z".to_string()]);
    assert_eq!(join_name(&segs), "x/y/z");

    let one = split_name("alone");
    assert_eq!(one, vec!["alone".to_string()]);
    assert_eq!(join_name(&one), "alone");
}

#[test]
fn split_keeps_empty_segments() {
    assert_eq!(
        split_name("a//b"),
        vec!["a".to_string(), "".to_string(), "b".to_string()]
    );
    assert_eq!(split_name("/a"), vec!["".to_string(), "a".to_string()]);
    assert_eq!(split_name("a/"), vec!["a".to_string(), "".to_string()]);
}

#[test]
fn name_round_trip_through_path() {
    // Stripping the extension from the path and rejoining the slash-separated
    // components reproduces the name.
    let name = "top/mid/leaf";
    let path = agent_stream_path(name);
    assert_eq!(path, "top/mid/leaf.json");
    let stripped = &path[..path.len() - ".json".len()];
    let rejoined = join_name(&split_name(stripped));
    assert_eq!(rejoined, name);
}

#[test]
fn validity_rejects_empty_and_empty_segments() {
    assert!(is_valid_name("a"));
    assert!(is_valid_name("a/b"));
    assert!(is_valid_name("a b/c"));
    assert!(!is_valid_name(""));
    assert!(!is_valid_name("/a"));
    assert!(!is_valid_name("a/"));
    assert!(!is_valid_name("a//b"));
    assert!(!is_valid_name("/"));
}

#[test]
fn trim_removes_surrounding_blanks() {
    assert_eq!(trim_str("  hello "), "hello");
    assert_eq!(trim_str("\t a b \n"), "a b");
    assert_eq!(trim_str("   "), "");
    assert_eq!(trim_str("plain"), "plain");
}

#[test]
fn file_stem_requires_extension() {
    assert_eq!(file_stem("foo.json"), Some("foo".to_string()));
    assert_eq!(file_stem(" padded .json"), Some("padded".to_string()));
    assert_eq!(file_stem("foo.txt"), None);
    assert_eq!(file_stem("foo"), None);
    assert_eq!(file_stem("a.b.json"), Some("a.b".to_string()));
    // A file that is all extension has an empty stem.
    assert_eq!(file_stem(".json"), Some("".to_string()));
}

#[test]
fn decimal_digits_render_exactly() {
    let mut s = String::new();
    stream_store::push_dec_digits(0, &mut s);
    assert_eq!(s, "0");
    let mut s = String::from("n");
    stream_store::push_dec_digits(1203, &mut s);
    assert_eq!(s, "n1203");
}
