use deepseek_tui_modes::text::{join_path, sort_names, trim_str};

#[test]
fn join_path_like_std() {
    assert_eq!(join_path("/a", "b"), "/a/b");
    assert_eq!(join_path("/a/", "b"), "/a/b");
    assert_eq!(join_path("", "b"), "b");
    assert_eq!(join_path("/a", "/b"), "/b");
    for (d, c) in [("/a", "b"), ("/a/", "b/c.md"), ("", "x"), ("rel", "/abs")] {
        assert_eq!(
            std::path::Path::new(&join_path(d, c)),
            std::path::Path::new(d).join(c)
        );
    }
}

#[test]
fn trim_like_std() {
    for s in ["  a b \n", "\t\u{3000}x\u{2028}", "", "   ", "no-space"] {
        assert_eq!(trim_str(s), s.trim());
    }
}

#[test]
fn sorting_by_code_points() {
    let names: Vec<String> = ["b", "a", "B", "ab", "é"].iter().map(|s| s.to_string()).collect();
    let mut expected = names.clone();
    expected.sort();
    assert_eq!(sort_names(&names), expected);
}
