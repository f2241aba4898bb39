use text_finder::dir_nav::FsNode;
use text_finder::executive::Executive;
use text_finder::test_db::Test;

fn args(tokens: &[&str]) -> Vec<String> {
    tokens.iter().map(|t| t.to_string()).collect()
}

fn file(name: &str, contents: &str) -> FsNode {
    FsNode::File { name: name.to_string(), contents: Some(contents.to_string()) }
}

fn dir(name: &str, entries: Vec<FsNode>) -> FsNode {
    FsNode::Dir { name: name.to_string(), entries }
}

#[test]
fn lib_construction() {
    let mut ex = Executive::new();
    ex.set_defaults();
    assert_eq!(ex.get_first("P"), ".".to_string());
    ex.dn.add_patt("foo");
    let patts = ex.dn.get_patts();
    assert_eq!(patts[0], "foo".to_string());
}

#[test]
fn lib_construct() {
    let test = Test::new();
    assert_eq!(&test.arg1, "a string");
    assert_eq!(test.arg2, 0);
}

#[test]
fn process_cmdln_applies_options() {
    let mut ex = Executive::new();
    ex.get_cparser_mut().set_args(args(&[
        "/P", "start", "/p", "rs", "/p", "txt", "/T", "abc", "/s", "false", "/A", "true",
    ]));
    assert!(ex.process_cmdln());
    assert_eq!(ex.get_first("P"), "start");
    assert_eq!(ex.get_first("T"), "abc");
    assert_eq!(ex.get_first("H"), "true");
    assert_eq!(
        ex.dn.get_patts(),
        &vec!["rs".to_string(), "txt".to_string()]
    );
    assert!(!ex.dn.recurse);
    assert!(ex.dn.app.out.show_all);
    assert!(ex.dn.app.out.hide_unmatched);
}

#[test]
fn process_cmdln_help_stops_early() {
    let mut ex = Executive::new();
    ex.get_cparser_mut().set_args(args(&["/h"]));
    assert!(!ex.process_cmdln());
    assert!(ex.dn.get_patts().is_empty());
    assert!(!ex.get_cparser().contains_key("P"));
}

#[test]
fn help_msg_text() {
    let ex = Executive::new();
    let msg = ex.help_msg();
    assert!(msg.starts_with("Sample Command Line Format:"));
    assert!(msg.contains("/P path /p rs /p h cpp /T text_to_find"));
    assert!(msg.contains("/s true      => recursive search"));
    assert!(msg.contains("/D true      => show debug output"));
}

#[test]
fn get_first_of_absent_key_is_empty() {
    let ex = Executive::new();
    assert_eq!(ex.get_first("nothing"), String::new());
}

#[test]
fn set_attribute_item_deduplicates_patterns() {
    let mut ex = Executive::new();
    ex.set_attribute_item("p", "rs");
    ex.set_attribute_item("p", "rs");
    ex.set_attribute_item("p", "txt");
    assert_eq!(
        ex.get_cparser().get("p").unwrap(),
        &vec!["rs".to_string(), "txt".to_string()]
    );
    assert_eq!(ex.dn.get_patts(), &vec!["rs".to_string(), "txt".to_string()]);
}

#[test]
fn set_attribute_item_overwrites_bare_flags() {
    let mut ex = Executive::new();
    ex.set_attribute_item("v", "true");
    ex.set_attribute_item("v", "quiet");
    assert_eq!(ex.get_cparser().get("v").unwrap(), &vec!["quiet".to_string()]);
    ex.set_attribute_item("v", "loud");
    assert_eq!(
        ex.get_cparser().get("v").unwrap(),
        &vec!["quiet".to_string(), "loud".to_string()]
    );
}

#[test]
fn set_default_adds_pattern_for_p() {
    let mut ex = Executive::new();
    ex.set_default("p", "rs");
    assert_eq!(ex.dn.get_patts(), &vec!["rs".to_string()]);
    assert_eq!(ex.get_cparser().get("p").unwrap(), &vec!["rs".to_string()]);
}

#[test]
fn start_runs_the_whole_pipeline() {
    let mut ex = Executive::new();
    ex.get_cparser_mut().set_args(args(&["/P", "root", "/p", "txt", "/T", "needle"]));
    assert!(ex.process_cmdln());
    let tree = dir(
        "root",
        vec![
            file("a.txt", "stack of needles"),
            dir("sub", vec![file("b.txt", "hay only"), file("c.exe", "needle")]),
        ],
    );
    assert!(ex.start(&tree));
    assert_eq!(ex.get_files(), 3);
    assert_eq!(ex.get_dirs(), 2);
    let lines = &ex.dn.app.out.lines;
    assert_eq!(lines.len(), 2);
    assert!(matches!(&lines[0], text_finder::display::OutLine::Dir { path } if path == "root"));
    assert!(
        matches!(&lines[1], text_finder::display::OutLine::File { name, matched, text }
            if name == "a.txt" && *matched && text == "needle")
    );
}

#[test]
fn start_on_a_file_root_fails() {
    let mut ex = Executive::new();
    let tree = file("plain.txt", "");
    assert!(!ex.start(&tree));
    assert_eq!(ex.get_files(), 0);
    assert_eq!(ex.get_dirs(), 0);
}
