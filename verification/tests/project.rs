use std::path::PathBuf;

use eddy::names::name_before;
use eddy::project::{merge_listing, DirEntry, FileNode, Project};

fn entry(name: &str, dir: bool) -> DirEntry {
    DirEntry { name: name.to_string(), mode: if dir { 0o040755 } else { 0o100644 } }
}

fn names(v: &[(String, FileNode)]) -> Vec<&str> {
    v.iter().map(|(n, _)| n.as_str()).collect()
}

#[test]
fn mode_bits_tell_directories() {
    assert!(entry("d", true).is_dir());
    assert!(!entry("f", false).is_dir());
    assert!(!DirEntry { name: "l".to_string(), mode: 0o120777 }.is_dir());
}

#[test]
fn names_are_ordered_by_code_point_with_prefixes_first() {
    assert!(name_before("a", "b"));
    assert!(name_before("B", "a"));
    assert!(name_before("ab", "abc"));
    assert!(!name_before("abc", "ab"));
    assert!(!name_before("x", "x"));
    assert!(name_before("z", "\u{e9}"));
}

#[test]
fn a_first_listing_makes_sorted_entries() {
    let w = merge_listing(None, &PathBuf::from("/p"), &[entry("src", true), entry("Cargo.toml", false), entry("README", false)]);
    assert_eq!(names(&w), vec!["Cargo.toml", "README", "src"]);
    assert!(w[2].1.is_dir);
    assert!(!w[0].1.is_dir);
    assert_eq!(w[2].1.path, PathBuf::from("/p/src"));
    assert!(w[2].1.children.is_none());
}

#[test]
fn a_later_listing_keeps_known_nodes_adds_new_and_drops_gone() {
    let first = merge_listing(None, &PathBuf::from("/p"), &[entry("a", true), entry("b", false)]);
    let mut first = first;
    first[0].1.children = Some(Vec::new());
    let w = merge_listing(Some(first), &PathBuf::from("/p"), &[entry("c", false), entry("a", false)]);
    assert_eq!(names(&w), vec!["a", "c"]);
    // the node of "a" is kept as it was, listed children and all
    assert!(w[0].1.is_dir);
    assert!(w[0].1.children.is_some());
    assert!(w[1].1.children.is_none());
}

#[test]
fn the_last_entry_of_a_name_decides_its_kind() {
    let w = merge_listing(None, &PathBuf::from("/p"), &[entry("x", false), entry("x", true)]);
    assert_eq!(names(&w), vec!["x"]);
    assert!(w[0].1.is_dir);
}

#[test]
fn listings_go_into_the_tree_and_can_be_walked() {
    let mut p = Project::new("TestProject", PathBuf::from("/home/me/proj"));
    assert!(p.child_file_nodes(&[]).is_none());
    p.apply_listing(&[], &[entry("src", true), entry("main.rs", false)]);
    assert_eq!(names(p.child_file_nodes(&[]).unwrap()), vec!["main.rs", "src"]);
    // not listed yet
    assert!(p.child_file_nodes(&["src".to_string()]).is_none());
    p.apply_listing(&["src".to_string()], &[entry("lib.rs", false)]);
    let src = p.child_file_nodes(&["src".to_string()]).unwrap();
    assert_eq!(names(src), vec!["lib.rs"]);
    assert_eq!(src[0].1.path, PathBuf::from("/home/me/proj/src/lib.rs"));
    // a directory that is not there: nothing changes
    p.apply_listing(&["nope".to_string()], &[entry("z", false)]);
    assert!(p.child_file_nodes(&["nope".to_string()]).is_none());
    assert_eq!(names(p.child_file_nodes(&[]).unwrap()), vec!["main.rs", "src"]);
    // listing the top again keeps what was listed below
    p.apply_listing(&[], &[entry("src", true), entry("main.rs", false), entry("new.rs", false)]);
    assert_eq!(names(p.child_file_nodes(&[]).unwrap()), vec!["main.rs", "new.rs", "src"]);
    assert_eq!(names(p.child_file_nodes(&["src".to_string()]).unwrap()), vec!["lib.rs"]);
}

#[test]
fn the_same_listing_twice_changes_nothing() {
    let es = [entry("b", false), entry("a", true)];
    let once = merge_listing(None, &PathBuf::from("/p"), &es);
    let once_names: Vec<String> = once.iter().map(|(n, _)| n.clone()).collect();
    let once_dirs: Vec<bool> = once.iter().map(|(_, f)| f.is_dir).collect();
    let twice = merge_listing(Some(once), &PathBuf::from("/p"), &es);
    assert_eq!(twice.iter().map(|(n, _)| n.clone()).collect::<Vec<_>>(), once_names);
    assert_eq!(twice.iter().map(|(_, f)| f.is_dir).collect::<Vec<_>>(), once_dirs);
}
