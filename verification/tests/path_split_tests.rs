use pd::path_split::split_path;

fn parts(path: &str) -> Vec<String> {
    split_path(path)
}

#[test]
fn absolute_path_splits_into_segments_with_separators() {
    assert_eq!(parts("/home/user/project"), vec!["/", "home/", "user/", "project"]);
}

#[test]
fn root_alone_is_one_separator_segment() {
    assert_eq!(parts("/"), vec!["/"]);
}

#[test]
fn current_directory_collapses_to_dot() {
    assert_eq!(parts("."), vec!["."]);
}

#[test]
fn empty_path_collapses_to_dot() {
    assert_eq!(parts(""), vec!["."]);
}

#[test]
fn dot_and_dot_dot_components_are_dropped() {
    assert_eq!(parts("a/./b/../c"), vec!["a/", "b/", "c"]);
}

#[test]
fn only_dropped_components_collapse_to_dot() {
    assert_eq!(parts("./.."), vec!["."]);
}

#[test]
fn trailing_separator_is_ignored() {
    assert_eq!(parts("/home/user/"), vec!["/", "home/", "user"]);
}

#[test]
fn repeated_separators_are_ignored() {
    assert_eq!(parts("//x"), vec!["/", "x"]);
    assert_eq!(parts("a//b"), vec!["a/", "b"]);
}

#[test]
fn relative_path_has_no_root_segment() {
    assert_eq!(parts("src/main"), vec!["src/", "main"]);
}

#[test]
fn round_trip_concatenation_reparses_to_the_same_segments() {
    for path in ["/home/user/project", "a/./b/../c", "//x//y/", ".", "", "/"] {
        let first = parts(path);
        let joined: String = first.concat();
        assert_eq!(parts(&joined), first, "round trip failed for {path:?}");
    }
}
