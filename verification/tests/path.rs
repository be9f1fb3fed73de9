use rsintercept::path::path_label;

#[test]
fn level_zero_keeps_the_path() {
    assert_eq!(path_label("/a/b/c", 0), "/a/b/c");
    assert_eq!(path_label("//a///b/", 0), "//a///b/");
    assert_eq!(path_label("", 0), "");
}

#[test]
fn segments_beyond_the_level_are_cut() {
    assert_eq!(path_label("/a/b/c", 1), "/a");
    assert_eq!(path_label("/a/b/c", 2), "/a/b");
    assert_eq!(path_label("/abc/def/ghi", 2), "/abc/def");
}

#[test]
fn a_level_above_the_segments_keeps_them_all() {
    assert_eq!(path_label("/a/b/c", 3), "/a/b/c");
    assert_eq!(path_label("/a/b/c", 4), "/a/b/c");
    assert_eq!(path_label("/a/b/c", u16::MAX), "/a/b/c");
}

#[test]
fn empty_pieces_do_not_count() {
    assert_eq!(path_label("//a///b//c", 2), "/a/b");
    assert_eq!(path_label("/a/b/", 2), "/a/b");
    assert_eq!(path_label("/a/b/", 5), "/a/b");
    assert_eq!(path_label("a/b", 1), "/a");
}

#[test]
fn a_path_without_segments_is_the_root() {
    assert_eq!(path_label("", 1), "/");
    assert_eq!(path_label("/", 1), "/");
    assert_eq!(path_label("////", 7), "/");
}

#[test]
fn characters_of_several_bytes_stay_whole() {
    assert_eq!(path_label("/é/日本/x", 2), "/é/日本");
}

#[test]
fn cutting_twice_cuts_at_the_lower_level() {
    let path = "/a//b/c/d/";
    for first in 0..6u16 {
        for second in 0..6u16 {
            let lower = match (first, second) {
                (0, level) => level,
                (level, 0) => level,
                (one, other) => one.min(other),
            };
            assert_eq!(path_label(&path_label(path, first), second), path_label(path, lower));
        }
    }
}

#[test]
fn paths_with_the_same_first_segments_share_a_label() {
    assert_eq!(path_label("/a/b/c", 2), path_label("//a/b//x/y", 2));
    assert_ne!(path_label("/a/b/c", 3), path_label("/a/b/x", 3));
}
