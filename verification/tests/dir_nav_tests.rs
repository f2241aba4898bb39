use text_finder::dir_nav::DirEvent;
use text_finder::dir_nav::DirNav;
use text_finder::dir_nav::EventLog;
use text_finder::dir_nav::FsNode;
use text_finder::dir_nav::LogEntry;
use text_finder::dir_nav::WalkError;
use text_finder::dir_nav::extension_of;
use text_finder::dir_nav::replace_sep;

fn file(name: &str) -> FsNode {
    FsNode::File { name: name.to_string(), contents: Some(String::new()) }
}

fn dir(name: &str, entries: Vec<FsNode>) -> FsNode {
    FsNode::Dir { name: name.to_string(), entries }
}

fn file_names(log: &EventLog) -> Vec<String> {
    let mut out: Vec<String> = Vec::new();
    for e in &log.entries {
        if let LogEntry::File { name, .. } = e {
            out.push(name.clone());
        }
    }
    out
}

#[test]
fn it_works() {
    assert_eq!(2 + 2, 4);
}

#[test]
fn test_walk() {
    let mut dn = DirNav::<EventLog>::new();
    dn.add_patt("rs").add_patt("exe").add_patt("txt");
    let root = dir(
        "./test_dir",
        vec![
            file("test_file.rs"),
            dir("test_sub1_dir", vec![file("test_file1.rs"), file("test_file2.exe")]),
            dir("test_sub2_dir", vec![file("test_file3.txt")]),
            dir("test_sub3_dir", vec![file("test_file4.bar")]),
        ],
    );
    let _ = dn.visit(&root);
    let rl = file_names(dn.get_app());

    assert!(rl.contains(&"test_file.rs".to_string()));
    assert!(rl.contains(&"test_file1.rs".to_string()));
    assert!(rl.contains(&"test_file2.exe".to_string()));
    assert!(rl.contains(&"test_file3.txt".to_string()));
    assert!(!rl.contains(&"test_file4.bar".to_string()));
    assert_eq!(dn.get_files(), 5);
    assert_eq!(dn.get_dirs(), 4);
}

#[test]
fn test_patts() {
    let mut dn = DirNav::<EventLog>::new();
    dn.add_patt("foo").add_patt("bar");
    assert_eq!(dn.get_patts().len(), 2);
    let pats = dn.get_patts();
    assert!(pats.contains(&"foo".to_string()));
    assert!(pats.contains(&"bar".to_string()));
    dn.clear();
    assert_eq!(dn.get_patts().len(), 0);
}

#[test]
fn walk_order_files_before_subdirs() {
    let mut dn = DirNav::<EventLog>::new();
    dn.add_patt("txt");
    let root = dir(
        "root",
        vec![file("a.txt"), dir("sub", vec![file("b.txt"), file("c.exe")])],
    );
    let r = dn.visit(&root);
    assert!(r.is_ok());
    let entries = &dn.get_app().entries;
    assert_eq!(entries.len(), 4);
    assert!(matches!(&entries[0], LogEntry::Dir { path } if path == "root"));
    assert!(matches!(&entries[1], LogEntry::File { name, .. } if name == "a.txt"));
    assert!(matches!(&entries[2], LogEntry::Dir { path } if path == "root/sub"));
    assert!(matches!(&entries[3], LogEntry::File { name, .. } if name == "b.txt"));
    assert_eq!(dn.get_files(), 3);
    assert_eq!(dn.get_dirs(), 2);
}

#[test]
fn walk_without_recursion_stays_at_root() {
    let mut dn = DirNav::<EventLog>::new();
    dn.recurse(false);
    let root = dir("root", vec![file("a.txt"), dir("sub", vec![file("b.txt")])]);
    let r = dn.visit(&root);
    assert!(r.is_ok());
    assert_eq!(dn.get_files(), 1);
    assert_eq!(dn.get_dirs(), 1);
    let entries = &dn.get_app().entries;
    assert_eq!(entries.len(), 2);
}

#[test]
fn empty_pattern_set_accepts_everything() {
    let mut dn = DirNav::<EventLog>::new();
    let root = dir("root", vec![file("a.bin"), file("README")]);
    let r = dn.visit(&root);
    assert!(r.is_ok());
    let rl = file_names(dn.get_app());
    assert_eq!(rl, vec!["a.bin".to_string(), "README".to_string()]);
}

#[test]
fn walk_on_file_root_is_not_a_directory() {
    let mut dn = DirNav::<EventLog>::new();
    let root = file("plain.txt");
    let r = dn.visit(&root);
    assert_eq!(r, Err(WalkError::NotADirectory));
    assert_eq!(dn.get_files(), 0);
    assert_eq!(dn.get_dirs(), 0);
    assert!(dn.get_app().entries.is_empty());
}

#[test]
fn empty_directory_counts_once() {
    let mut dn = DirNav::<EventLog>::new();
    let root = dir("empty", Vec::new());
    let r = dn.visit(&root);
    assert!(r.is_ok());
    assert_eq!(dn.get_files(), 0);
    assert_eq!(dn.get_dirs(), 1);
}

#[test]
fn clear_twice_equals_clear_once() {
    let mut dn = DirNav::<EventLog>::new();
    dn.add_patt("rs");
    let root = dir("root", vec![file("a.rs")]);
    let _ = dn.visit(&root);
    dn.clear();
    let once = (
        dn.get_patts().clone(),
        dn.get_files(),
        dn.get_dirs(),
        dn.get_app().clone(),
    );
    dn.clear();
    let twice = (
        dn.get_patts().clone(),
        dn.get_files(),
        dn.get_dirs(),
        dn.get_app().clone(),
    );
    assert_eq!(once, twice);
    assert_eq!(twice.0.len(), 0);
    assert_eq!(twice.1, 0);
    assert_eq!(twice.2, 0);
    assert_eq!(twice.3, <EventLog as DirEvent>::new());
}

#[test]
fn in_patterns_checks_extensions() {
    let mut dn = DirNav::<EventLog>::new();
    dn.add_patt("rs");
    assert!(dn.in_patterns(&"lib.rs".to_string()));
    assert!(!dn.in_patterns(&"lib.txt".to_string()));
    assert!(!dn.in_patterns(&"no_extension".to_string()));
}

#[test]
fn extension_of_takes_last_dot() {
    assert_eq!(extension_of(&"archive.tar.gz".to_string()), Some("gz".to_string()));
    assert_eq!(extension_of(&"plain".to_string()), None);
    assert_eq!(extension_of(&"trailing.".to_string()), Some("".to_string()));
    assert_eq!(extension_of(&"".to_string()), None);
}

#[test]
fn replace_sep_normalises() {
    assert_eq!(replace_sep("a\\b\\c"), "a/b/c");
    assert_eq!(replace_sep("a/b"), "a/b");
    assert_eq!(replace_sep(""), "");
}

#[test]
fn path_to_string_keeps_the_path() {
    let p = "some/dir".to_string();
    assert_eq!(DirNav::<EventLog>::path_to_string(&p), "some/dir");
}
