use text_finder::cmdln_parser::CmdParser;
use text_finder::cmdln_parser::show_args;
use text_finder::cmdln_parser::show_parse;

#[test]
fn construction() {
    let cp = CmdParser::new();
    assert_eq!(cp.get_args().len(), 0);
    assert_eq!(cp.get_parse().len(), 0);
}

#[test]
fn parse() {
    let args = vec![
        "/arg1".to_string(),
        "ab".to_string(),
        "/arg2".to_string(),
        "cd".to_string(),
        "ef".to_string(),
    ];
    let mut cp = CmdParser::new();
    cp.set_args(args);
    cp.parse();
    assert_eq!(cp.get("arg1").unwrap(), &vec!["ab".to_string()]);
    assert_eq!(cp.get("arg2").unwrap(), &vec!["cd".to_string(), "ef".to_string()]);
}

#[test]
fn parse_drops_leading_values() {
    let mut cp = CmdParser::new();
    cp.set_args(vec!["stray".to_string(), "/k".to_string(), "v".to_string()]);
    cp.parse();
    assert!(cp.get("stray").is_none());
    assert_eq!(cp.get("k").unwrap(), &vec!["v".to_string()]);
}

#[test]
fn parse_repeated_key_accumulates() {
    let mut cp = CmdParser::new();
    cp.set_args(vec![
        "/p".to_string(),
        "rs".to_string(),
        "/T".to_string(),
        "abc".to_string(),
        "/p".to_string(),
        "h".to_string(),
        "cpp".to_string(),
    ]);
    cp.parse();
    assert_eq!(
        cp.get("p").unwrap(),
        &vec!["rs".to_string(), "h".to_string(), "cpp".to_string()]
    );
    assert_eq!(cp.get("T").unwrap(), &vec!["abc".to_string()]);
}

#[test]
fn set_default_never_overwrites() {
    let mut cp = CmdParser::new();
    cp.set_default("P", ".");
    assert_eq!(cp.get("P").unwrap(), &vec![".".to_string()]);
    cp.set_default("P", "elsewhere");
    assert_eq!(cp.get("P").unwrap(), &vec![".".to_string()]);
}

#[test]
fn insert_appends_without_removing() {
    let mut cp = CmdParser::new();
    cp.insert("p", "rs");
    cp.insert("p", "h");
    assert_eq!(cp.get("p").unwrap(), &vec!["rs".to_string(), "h".to_string()]);
}

#[test]
fn replace_value_leaves_exactly_one() {
    let mut cp = CmdParser::new();
    cp.insert("p", "rs");
    cp.insert("p", "h");
    cp.replace_value("p", "txt");
    assert_eq!(cp.get("p").unwrap(), &vec!["txt".to_string()]);
    cp.replace_value("q", "new");
    assert_eq!(cp.get("q").unwrap(), &vec!["new".to_string()]);
}

#[test]
fn empty_values_become_true() {
    let mut cp = CmdParser::new();
    cp.set_args(vec!["/verbose".to_string(), "/p".to_string(), "rs".to_string()]);
    cp.parse();
    cp.empty_values_to_true();
    assert_eq!(cp.get("verbose").unwrap(), &vec!["true".to_string()]);
    assert_eq!(cp.get("p").unwrap(), &vec!["rs".to_string()]);
}

#[test]
fn contains_and_get_mut() {
    let mut cp = CmdParser::new();
    assert!(!cp.contains_key("x"));
    cp.insert("x", "1");
    assert!(cp.contains_key("x"));
    let vals = cp.get_mut("x").unwrap();
    vals.push("2".to_string());
    assert_eq!(cp.get("x").unwrap(), &vec!["1".to_string(), "2".to_string()]);
    assert!(cp.get_mut("absent").is_none());
}

#[test]
fn show_args_lists_tokens() {
    let mut cp = CmdParser::new();
    cp.set_args(vec!["/P".to_string(), ".".to_string()]);
    assert_eq!(show_args(&cp), "\n  cmdln arguments:\n    /P\n    .");
}

#[test]
fn show_parse_lists_entries() {
    let mut cp = CmdParser::new();
    cp.set_args(vec!["/p".to_string(), "rs".to_string(), "h".to_string()]);
    cp.parse();
    assert_eq!(show_parse(&cp), "\n  cmdln parse:\n    (\"p\", [\"rs\", \"h\"])");
}
