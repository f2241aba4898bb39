use text_finder::dir_nav::DirEvent;
use text_finder::display::GenOut;
use text_finder::text_search::Finder;
use text_finder::text_search::SearchError;
use text_finder::text_search::SearchMode;
use text_finder::text_search::contains_substring;

#[test]
fn test_sets() {
    let mut f = Finder::<GenOut>::new();
    let dir = ".\\src".to_string();
    f.do_dir(&dir);
    assert_eq!(f.dir, dir);
    let text = "text";
    f.set_txt("text");
    assert_eq!(f.mode.text(), &text.to_string());
}

#[test]
fn lib_test_sets() {
    let mut f = Finder::<GenOut>::new();
    let dir = ".\\src".to_string();
    f.do_dir(&dir);
    assert_eq!(f.dir, dir);
    let text = "text";
    f.set_txt(text);
    assert_eq!(f.mode.text(), &text.to_string());
}

#[test]
fn test_trait() {
    let mut f = Finder::<GenOut>::new();
    let dir = ".\\src".to_string();
    f.do_dir(&dir);
    assert_eq!(f.dir, dir);
    let text = "text";
    let file = "lib.rs".to_string();
    f.set_txt(text);
    let contents = Some("a text search library".to_string());
    f.do_file(&file, &contents);
    assert_eq!(f.out.dir, dir);
    assert_eq!(f.out.txt, text.to_string());
    assert_eq!(f.out.file, file);
}

#[test]
fn lib_test_trait() {
    let mut f = Finder::<GenOut>::new();
    let dir = ".\\src".to_string();
    f.do_dir(&dir);
    assert_eq!(f.dir, dir);
    let text = "text";
    let file = "lib.rs".to_string();
    f.set_txt(text);
    let contents = Some("more text to search".to_string());
    f.do_file(&file, &contents);
    assert_eq!(f.out.dir, dir);
    assert_eq!(f.out.txt, text.to_string());
    assert_eq!(f.out.file, file);
    assert!(f.out.rslt);
}

#[test]
fn literal_search_is_case_sensitive() {
    let mut f = Finder::<GenOut>::new();
    f.do_dir(&"d".to_string());
    f.set_txt("needle");
    f.do_file(&"hay.txt".to_string(), &Some("...needle...".to_string()));
    assert!(f.out.rslt);
    f.set_txt("NEEDLE");
    f.do_file(&"hay.txt".to_string(), &Some("...needle...".to_string()));
    assert!(!f.out.rslt);
}

#[test]
fn regex_search_matches_alternation() {
    let mut f = Finder::<GenOut>::new();
    f.do_dir(&"d".to_string());
    assert!(f.set_regex("a|b").is_ok());
    f.do_file(&"one.txt".to_string(), &Some("xbx".to_string()));
    assert!(f.out.rslt);
    assert_eq!(f.out.txt, "a|b");
    f.do_file(&"two.txt".to_string(), &Some("xxx".to_string()));
    assert!(!f.out.rslt);
}

#[test]
fn invalid_regex_fails_at_construction() {
    let mut f = Finder::<GenOut>::new();
    f.set_txt("keep");
    let r = f.set_regex("(");
    assert_eq!(r, Err(SearchError::InvalidPattern));
    assert!(matches!(f.mode, SearchMode::Literal(_)));
    assert_eq!(f.mode.text(), &"keep".to_string());
}

#[test]
fn setting_literal_replaces_regex() {
    let mut f = Finder::<GenOut>::new();
    assert!(f.set_regex("a|b").is_ok());
    f.set_txt("plain");
    assert!(matches!(f.mode, SearchMode::Literal(_)));
    f.do_dir(&"d".to_string());
    f.do_file(&"x.txt".to_string(), &Some("a".to_string()));
    assert!(!f.out.rslt);
}

#[test]
fn unreadable_file_reports_sentinel() {
    let mut f = Finder::<GenOut>::new();
    f.do_dir(&"d".to_string());
    f.set_txt("whatever");
    f.out.show_all(true);
    f.do_file(&"gone.txt".to_string(), &None);
    assert!(!f.out.rslt);
    assert_eq!(f.out.txt, "can't open file");
    assert_eq!(f.out.file, "gone.txt");
}

#[test]
fn empty_search_text_matches_everything() {
    let mut f = Finder::<GenOut>::new();
    f.do_dir(&"d".to_string());
    f.do_file(&"x.txt".to_string(), &Some("anything".to_string()));
    assert!(f.out.rslt);
}

#[test]
fn substring_search_agrees_with_contains() {
    assert!(contains_substring("hello world", "lo wo"));
    assert!(contains_substring("hello", ""));
    assert!(!contains_substring("hello", "world"));
    assert!(!contains_substring("ab", "abc"));
    assert!(contains_substring("aaab", "aab"));
}
