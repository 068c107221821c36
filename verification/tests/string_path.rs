use gg2_custom::components::Component;
use gg2_custom::spath::{SPath, SPathBuf};

#[test]
fn spath_components_front_root() {
    let mut x = SPath::new("/this/is/./a/../test").components();
    assert_eq!(x.next(), Some(Component::RootDir));
    assert_eq!(x.next(), Some(Component::Normal("this")));
    assert_eq!(x.next(), Some(Component::Normal("is")));
    assert_eq!(x.next(), Some(Component::Normal("a")));
    assert_eq!(x.next(), Some(Component::ParentDir));
    assert_eq!(x.next(), Some(Component::Normal("test")));
}

#[test]
fn spath_components_front_current() {
    let mut x = SPath::new("./this/is/./a/../test").components();
    assert_eq!(x.next(), Some(Component::CurDir));
    assert_eq!(x.next(), Some(Component::Normal("this")));
    assert_eq!(x.next(), Some(Component::Normal("is")));
    assert_eq!(x.next(), Some(Component::Normal("a")));
    assert_eq!(x.next(), Some(Component::ParentDir));
    assert_eq!(x.next(), Some(Component::Normal("test")));
}

#[test]
fn spath_components_back_root() {
    let mut x = SPath::new("/../backwards/./am/i").components();
    assert_eq!(x.next_back(), Some(Component::Normal("i")));
    assert_eq!(x.next_back(), Some(Component::Normal("am")));
    assert_eq!(x.next_back(), Some(Component::Normal("backwards")));
    assert_eq!(x.next_back(), Some(Component::ParentDir));
    assert_eq!(x.next_back(), Some(Component::RootDir));
}

#[test]
fn spath_components_back_current() {
    let mut x = SPath::new("./../backwards/./am/i").components();
    assert_eq!(x.next_back(), Some(Component::Normal("i")));
    assert_eq!(x.next_back(), Some(Component::Normal("am")));
    assert_eq!(x.next_back(), Some(Component::Normal("backwards")));
    assert_eq!(x.next_back(), Some(Component::ParentDir));
    assert_eq!(x.next_back(), Some(Component::CurDir));
}

#[test]
fn spath_to_string() {
    let path = SPath::new("this/is/a/test");
    assert_eq!(path.to_string(), "this/is/a/test");
}

#[test]
fn spath_buf_to_string() {
    let path = SPathBuf::from_str("this/is/a/test");
    assert_eq!(path.to_string(), "this/is/a/test");
}

#[test]
fn components_end_after_last() {
    let mut x = SPath::new("a//b/").components();
    assert_eq!(x.next(), Some(Component::Normal("a")));
    assert_eq!(x.next(), Some(Component::Normal("b")));
    assert_eq!(x.next(), None);
    assert_eq!(x.next_back(), None);
}

#[test]
fn components_from_both_ends_meet() {
    let mut x = SPath::new("/a/b/c").components();
    assert_eq!(x.next(), Some(Component::RootDir));
    assert_eq!(x.next_back(), Some(Component::Normal("c")));
    assert_eq!(x.next(), Some(Component::Normal("a")));
    assert_eq!(x.next_back(), Some(Component::Normal("b")));
    assert_eq!(x.next(), None);
    assert_eq!(x.next_back(), None);
}

#[test]
fn components_rest_as_path() {
    let mut x = SPath::new("/tmp/foo/bar.txt").components();
    x.next();
    assert_eq!(x.as_spath().as_str(), "tmp/foo/bar.txt");
    x.next_back();
    assert_eq!(x.as_spath().as_str(), "tmp/foo");
}

#[test]
fn push_relative_extends() {
    let mut path = SPathBuf::from_str("/tmp");
    path.push(SPath::new("file.bk"));
    assert!(path == SPathBuf::from_str("/tmp/file.bk"));
    assert_eq!(path.as_str(), "/tmp/file.bk");
}

#[test]
fn push_absolute_replaces() {
    let mut path = SPathBuf::from_str("/tmp");
    path.push(SPath::new("/etc"));
    assert!(path == SPathBuf::from_str("/etc"));
    assert_eq!(path.as_str(), "/etc");
}

#[test]
fn push_after_trailing_separator() {
    let mut path = SPathBuf::from_str("a/");
    path.push(SPath::new("b"));
    assert_eq!(path.as_str(), "a/b");
    let mut empty = SPathBuf::new();
    empty.push(SPath::new("b"));
    assert_eq!(empty.as_str(), "b");
}

#[test]
fn pop_truncates_to_parent() {
    let mut p = SPathBuf::from_str("/spirited/away.rs");
    assert!(p.pop());
    assert!(SPath::new("/spirited") == p.as_spath());
    assert!(p.pop());
    assert!(SPath::new("/") == p.as_spath());
    assert!(!p.pop());
    assert_eq!(p.as_str(), "/");
}

#[test]
fn pop_undoes_push_of_a_name() {
    let mut p = SPathBuf::from_str("assets/textures");
    p.push(SPath::new("player"));
    assert_eq!(p.as_str(), "assets/textures/player");
    assert!(p.pop());
    assert!(p == SPathBuf::from_str("assets/textures"));
}

#[test]
fn pop_of_empty_path_fails() {
    let mut p = SPathBuf::new();
    assert!(!p.pop());
    assert_eq!(p.as_str(), "");
}

#[test]
fn parent_of_paths() {
    assert_eq!(SPath::new("/foo/bar").parent().map(|p| p.as_str()), Some("/foo"));
    assert_eq!(SPath::new("foo/bar/").parent().map(|p| p.as_str()), Some("foo"));
    assert_eq!(SPath::new("foo").parent().map(|p| p.as_str()), Some(""));
    assert_eq!(SPath::new("/").parent().map(|p| p.as_str()), None);
    assert_eq!(SPath::new("").parent().map(|p| p.as_str()), None);
}

#[test]
fn file_name_of_paths() {
    assert_eq!(SPath::new("/usr/bin/").file_name(), Some("bin"));
    assert_eq!(SPath::new("tmp/foo.txt").file_name(), Some("foo.txt"));
    assert_eq!(SPath::new("foo.txt/.").file_name(), Some("foo.txt"));
    assert_eq!(SPath::new("foo.txt/.//").file_name(), Some("foo.txt"));
    assert_eq!(SPath::new("foo.txt/..").file_name(), None);
    assert_eq!(SPath::new("/").file_name(), None);
}

#[test]
fn starts_with_whole_components() {
    let path = SPath::new("/etc/passwd");
    assert!(path.starts_with(SPath::new("/etc")));
    assert!(path.starts_with(SPath::new("/etc/")));
    assert!(path.starts_with(SPath::new("/etc/passwd")));
    assert!(path.starts_with(SPath::new("/etc/passwd/")));
    assert!(path.starts_with(SPath::new("/etc/passwd///")));
    assert!(!path.starts_with(SPath::new("/e")));
    assert!(!path.starts_with(SPath::new("/etc/passwd.txt")));
    assert!(!SPath::new("/etc/foo.rs").starts_with(SPath::new("/etc/foo")));
}

#[test]
fn ends_with_whole_components() {
    let path = SPath::new("/etc/resolv.conf");
    assert!(path.ends_with(SPath::new("resolv.conf")));
    assert!(path.ends_with(SPath::new("etc/resolv.conf")));
    assert!(path.ends_with(SPath::new("/etc/resolv.conf")));
    assert!(!path.ends_with(SPath::new("/resolv.conf")));
    assert!(!path.ends_with(SPath::new("conf")));
}

#[test]
fn strip_prefix_agrees_with_starts_with() {
    let path = SPath::new("/test/haha/foo.txt");
    assert_eq!(path.strip_prefix(SPath::new("/")).map(|p| p.as_str()), Ok("test/haha/foo.txt"));
    assert_eq!(path.strip_prefix(SPath::new("/test")).map(|p| p.as_str()), Ok("haha/foo.txt"));
    assert_eq!(path.strip_prefix(SPath::new("/test/")).map(|p| p.as_str()), Ok("haha/foo.txt"));
    assert_eq!(path.strip_prefix(SPath::new("/test/haha/foo.txt")).map(|p| p.as_str()), Ok(""));
    assert!(path.strip_prefix(SPath::new("test")).is_err());
    assert!(!path.starts_with(SPath::new("test")));
    assert!(path.strip_prefix(SPath::new("/haha")).is_err());
    let err = path.strip_prefix(SPath::new("/haha")).unwrap_err();
    assert_eq!(err.description(), "prefix not found");
}

#[test]
fn absolute_and_relative() {
    assert!(SPath::new("/a").is_absolute());
    assert!(SPath::new("/a").has_root());
    assert!(!SPath::new("/a").is_relative());
    assert!(SPath::new("a/b").is_relative());
    assert!(!SPath::new("a/b").is_absolute());
    assert!(SPath::new("").is_relative());
}

#[test]
fn paths_equal_by_components() {
    assert!(SPath::new("a//b/./c/") == SPath::new("a/b/c"));
    assert!(SPath::new("./a") != SPath::new("a"));
    assert!(SPath::new("/a") != SPath::new("a"));
    assert!(SPathBuf::from_str("x/y/") == SPathBuf::from_str("x/y"));
}

#[test]
fn paths_order_by_components() {
    assert!(SPath::new("a/b") < SPath::new("a/c"));
    assert!(SPath::new("a/b") < SPath::new("a/b/c"));
    assert!(SPath::new("/z") < SPath::new("a"));
    assert!(SPath::new("./z") < SPath::new("../a"));
    assert!(SPath::new("../z") < SPath::new("a"));
    assert!(!(SPath::new("a.b") < SPath::new("a/b")));
    assert!(SPath::new("ab") > SPath::new("a/b"));
    assert_eq!(
        SPath::new("a//b/").partial_cmp(&SPath::new("a/b")),
        Some(std::cmp::Ordering::Equal)
    );
    assert!(SPathBuf::from_str("test/path/sub1") < SPathBuf::from_str("test/path/sub3"));
}

#[test]
fn ancestors_walk_up() {
    let mut a = SPath::new("/foo/bar").ancestors();
    assert_eq!(a.next().map(|p| p.as_str()), Some("/foo/bar"));
    assert_eq!(a.next().map(|p| p.as_str()), Some("/foo"));
    assert_eq!(a.next().map(|p| p.as_str()), Some("/"));
    assert_eq!(a.next().map(|p| p.as_str()), None);
}

#[test]
fn iter_gives_component_texts() {
    let mut it = SPath::new("/tmp/foo.txt").iter();
    assert_eq!(it.next(), Some("/"));
    assert_eq!(it.next(), Some("tmp"));
    assert_eq!(it.next_back(), Some("foo.txt"));
    assert_eq!(it.next(), None);
}

#[test]
fn extend_pushes_each_part() {
    let mut p = SPathBuf::from_str("root");
    p.extend(SPath::new("a/./b/").iter());
    assert_eq!(p.as_str(), "root/a/b");
}

#[test]
fn buffers_keep_their_text() {
    let mut p = SPathBuf::with_capacity(64);
    p.push(SPath::new("a/b"));
    p.shrink_to_fit();
    p.shrink_to(4);
    assert_eq!(p.as_str(), "a/b");
    let q = p.clone();
    assert_eq!(q.into_string(), "a/b".to_string());
    let owned = SPath::new("x/y").to_spath_buf();
    assert_eq!(owned.as_str(), "x/y");
    let leaked = SPathBuf::from_string("leaked/path".to_string()).leak();
    assert_eq!(leaked.as_str(), "leaked/path");
}

fn std_hash<T: std::hash::Hash>(value: &T) -> u64 {
    let mut h = std::collections::hash_map::DefaultHasher::new();
    value.hash(&mut h);
    std::hash::Hasher::finish(&h)
}

#[test]
fn equal_paths_hash_alike() {
    assert_eq!(std_hash(&SPath::new("a//b/./c/")), std_hash(&SPath::new("a/b/c")));
    assert_eq!(std_hash(&SPathBuf::from_str("x/./y")), std_hash(&SPathBuf::from_str("x/y/")));
    assert_eq!(std_hash(&SPathBuf::from_str("x/y")), std_hash(&SPath::new("x/y")));
}

#[test]
fn hash_chunks_skip_root_and_noise() {
    let (chunks, _) = SPath::new("/a/./b//..").hash_chunks();
    assert_eq!(chunks, vec!["a", "b", ".."]);
    let (chunks, _) = SPath::new("./a").hash_chunks();
    assert_eq!(chunks, vec![".", "a"]);
    let (chunks, bits) = SPath::new("").hash_chunks();
    assert!(chunks.is_empty());
    assert_eq!(bits, 0);
}

#[test]
fn hash_chunk_bits_tell_cuts_apart() {
    let (a, bits_a) = SPath::new("foo/bar").hash_chunks();
    let (b, bits_b) = SPath::new("foobar").hash_chunks();
    assert_eq!(a.concat(), b.concat());
    assert_ne!(bits_a, bits_b);
    assert_eq!(bits_b, 6usize.rotate_right(2));
    assert_eq!(bits_a, 3usize.rotate_right(2).wrapping_add(3).rotate_right(2));
}

#[test]
fn strip_prefix_text_is_trimmed() {
    let path = SPath::new("/test//./haha/./foo.txt//");
    assert_eq!(path.strip_prefix(SPath::new("/test")).map(|p| p.as_str()), Ok("haha/./foo.txt"));
    let mut it = SPath::new("a/./b//c/.").iter();
    it.next();
    assert_eq!(it.as_spath().as_str(), "b//c");
    it.next_back();
    assert_eq!(it.as_spath().as_str(), "b");
}
