use text_finder::display::GenOut;
use text_finder::display::OutLine;
use text_finder::text_search::SearchEvent;

#[test]
fn construct() {
    let go = GenOut::new();
    assert_eq!(go.dir, ".".to_string());
    assert_eq!(go.file, String::new());
    assert_eq!(go.txt, String::new());
    assert_eq!(go.rslt, false);
    assert_eq!(go.show_all, false);
    assert_eq!(go.hide_unmatched, true);
    assert_eq!(go.dir_displayed, false);
    assert_eq!(go.debug, false);
}

#[test]
fn set_dir() {
    let mut go = GenOut::new();
    go.set_dir(&"foobar".to_string());
    assert_eq!(go.dir, "foobar".to_string());
}

#[test]
fn set_file() {
    let mut go = GenOut::new();
    let path = "feebar".to_string();
    let arg = (&path, true, &"search text".to_string());
    go.set_file(arg);
    assert_eq!(go.file, path);
    assert_eq!(go.rslt, true);
    assert_eq!(go.txt, "search text".to_string());
}

#[test]
fn hidden_directory_line_appears_with_first_match() {
    let mut go = GenOut::new();
    go.set_dir(&"dir\\sub".to_string());
    assert!(go.lines.is_empty());
    go.set_file((&"miss.txt".to_string(), false, &"t".to_string()));
    assert!(go.lines.is_empty());
    go.set_file((&"hit.txt".to_string(), true, &"t".to_string()));
    assert_eq!(
        go.lines,
        vec![
            OutLine::Dir { path: "dir/sub".to_string() },
            OutLine::File { name: "hit.txt".to_string(), matched: true, text: "t".to_string() },
        ]
    );
    go.set_file((&"again.txt".to_string(), true, &"t".to_string()));
    assert_eq!(go.lines.len(), 3);
}

#[test]
fn show_all_emits_unmatched_results() {
    let mut go = GenOut::new();
    go.show_all(true);
    go.set_dir(&"d".to_string());
    go.set_file((&"miss.txt".to_string(), false, &"t".to_string()));
    assert_eq!(
        go.lines,
        vec![
            OutLine::Dir { path: "d".to_string() },
            OutLine::File { name: "miss.txt".to_string(), matched: false, text: "t".to_string() },
        ]
    );
}

#[test]
fn unhidden_directories_are_always_announced() {
    let mut go = GenOut::new();
    go.set_hide_unmatched(false);
    go.set_dir(&"quiet".to_string());
    assert_eq!(go.lines, vec![OutLine::Dir { path: "quiet".to_string() }]);
    go.set_file((&"hit.txt".to_string(), true, &"t".to_string()));
    assert_eq!(go.lines.len(), 2);
}

#[test]
fn flag_setters_store_their_flags() {
    let mut go = GenOut::new();
    go.set_hide_unmatched(false);
    go.show_all(true);
    go.set_debug(true);
    assert!(!go.hide_unmatched);
    assert!(go.show_all);
    assert!(go.debug);
}
