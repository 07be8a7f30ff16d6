use macwalk::file_manager::{NSFileManager, NSString};
use macwalk::runtime::Runtime;
use macwalk::walk::{child_join, is_directory, max_path_len_exec, recursive_walk, WalkEntry};
use macwalk::ObjcObject;

fn chars(s: &str) -> Vec<char> {
    s.chars().collect()
}

fn text_of(v: &[char]) -> String {
    v.iter().collect()
}

fn visited(entries: &[WalkEntry]) -> Vec<(String, usize)> {
    entries.iter().map(|e| (text_of(&e.name), e.depth)).collect()
}

#[test]
fn child_join_inserts_one_separator() {
    assert_eq!(child_join(&chars("root"), &chars("sub")), chars("root/sub"));
    assert_eq!(child_join(&chars(""), &chars("x")), chars("/x"));
}

#[test]
fn walking_a_nonexistent_path_visits_nothing() {
    let mut rt = Runtime::new();
    rt.add_directory("root", vec!["x.txt".to_string()]);
    let out = recursive_walk(&mut rt, "no/such/path", 0);
    assert!(out.is_empty());
}

#[test]
fn nonexistent_path_is_no_directory_and_listing_it_is_null() {
    let mut rt = Runtime::new();
    assert!(!is_directory(&mut rt, "nowhere"));
    let p = NSString(&mut rt, "nowhere");
    let fm = NSFileManager::default(&mut rt);
    let listing = fm.contentsOfDirectory(&mut rt, p, ObjcObject::null());
    assert!(listing.is_null());
}

#[test]
fn recursive_walk_visits_nested_entries_at_their_depths() {
    let mut rt = Runtime::new();
    rt.add_directory("root", vec!["x.txt".to_string(), "sub".to_string()]);
    rt.add_directory("root/sub", vec!["y.txt".to_string()]);
    // `sub` is treated as a directory because listing it succeeds, not
    // by any type-attribute check.
    assert!(is_directory(&mut rt, "root/sub"));
    assert!(!is_directory(&mut rt, "root/x.txt"));
    let out = recursive_walk(&mut rt, "root", 0);
    let seen = visited(&out);
    assert_eq!(
        seen,
        vec![
            ("x.txt".to_string(), 0),
            ("sub".to_string(), 0),
            ("y.txt".to_string(), 1),
        ]
    );
}

#[test]
fn walk_is_depth_first_in_listing_order() {
    let mut rt = Runtime::new();
    rt.add_directory(
        "r",
        vec!["a".to_string(), "b".to_string(), "c".to_string()],
    );
    rt.add_directory("r/a", vec!["a1".to_string()]);
    rt.add_directory("r/c", vec!["c1".to_string(), "c2".to_string()]);
    let out = recursive_walk(&mut rt, "r", 0);
    let seen = visited(&out);
    assert_eq!(
        seen,
        vec![
            ("a".to_string(), 0),
            ("a1".to_string(), 1),
            ("b".to_string(), 0),
            ("c".to_string(), 0),
            ("c1".to_string(), 1),
            ("c2".to_string(), 1),
        ]
    );
}

#[test]
fn walking_an_empty_directory_visits_nothing() {
    let mut rt = Runtime::new();
    rt.add_directory("hollow", Vec::new());
    let out = recursive_walk(&mut rt, "hollow", 0);
    assert!(out.is_empty());
}

#[test]
fn longest_known_path_bounds_the_walk() {
    let mut rt = Runtime::new();
    rt.add_directory("root", vec!["sub".to_string()]);
    rt.add_directory("root/sub", Vec::new());
    assert_eq!(max_path_len_exec(&rt), "root/sub".chars().count());
}
