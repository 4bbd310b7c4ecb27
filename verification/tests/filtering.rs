use scandir::filter_entry;
use scandir::join_path;
use scandir::lex_le_bytes;
use scandir::sort_children;
use scandir::Child;
use scandir::Metadata;
use scandir::Options;

fn named_child(name: &str) -> Child {
    Child { name: name.to_string(), is_dir: false, meta: Ok(Metadata::default()) }
}

#[test]
fn hidden_names_are_skipped_when_asked() {
    let mut o = Options::new("r".to_string());
    o.skip_hidden = true;
    assert_eq!(filter_entry(&o, ".git", true, 1), (false, false));
    assert_eq!(filter_entry(&o, ".profile", false, 1), (false, false));
    assert_eq!(filter_entry(&o, "git", true, 1), (true, true));
    let o2 = Options::new("r".to_string());
    assert_eq!(filter_entry(&o2, ".git", true, 1), (true, true));
}

#[test]
fn exclude_takes_precedence_over_include() {
    let mut o = Options::new("r".to_string());
    o.file_include = Some(vec!["*.txt".to_string()]);
    o.file_exclude = Some(vec!["secret*".to_string()]);
    assert_eq!(filter_entry(&o, "notes.txt", false, 1), (false, true));
    assert_eq!(filter_entry(&o, "secret.txt", false, 1), (false, false));
    assert_eq!(filter_entry(&o, "notes.log", false, 1), (false, false));
}

#[test]
fn directory_patterns_apply_to_directories_only() {
    let mut o = Options::new("r".to_string());
    o.dir_exclude = Some(vec!["target".to_string()]);
    assert_eq!(filter_entry(&o, "target", true, 1), (false, false));
    // a file of the same name is untouched by directory patterns
    assert_eq!(filter_entry(&o, "target", false, 1), (false, true));
}

#[test]
fn question_mark_matches_one_byte() {
    let mut o = Options::new("r".to_string());
    o.file_include = Some(vec!["f?.rs".to_string()]);
    assert_eq!(filter_entry(&o, "f1.rs", false, 1), (false, true));
    assert_eq!(filter_entry(&o, "f12.rs", false, 1), (false, false));
    assert_eq!(filter_entry(&o, "f.rs", false, 1), (false, false));
}

#[test]
fn star_matches_any_run_of_bytes() {
    let mut o = Options::new("r".to_string());
    o.file_include = Some(vec!["*".to_string()]);
    assert_eq!(filter_entry(&o, "anything", false, 1), (false, true));
    assert_eq!(filter_entry(&o, "", false, 1), (false, true));
    o.file_include = Some(vec!["a*b*c".to_string()]);
    assert_eq!(filter_entry(&o, "abc", false, 1), (false, true));
    assert_eq!(filter_entry(&o, "a12b34c", false, 1), (false, true));
    assert_eq!(filter_entry(&o, "a12b34", false, 1), (false, false));
    assert_eq!(filter_entry(&o, "xabc", false, 1), (false, false));
}

#[test]
fn include_list_restricts_directories_too() {
    let mut o = Options::new("r".to_string());
    o.dir_include = Some(vec!["src*".to_string()]);
    assert_eq!(filter_entry(&o, "src", true, 1), (true, true));
    assert_eq!(filter_entry(&o, "docs", true, 1), (false, false));
    // files are untouched by directory patterns
    assert_eq!(filter_entry(&o, "docs", false, 1), (false, true));
}

#[test]
fn case_sensitivity_is_honored() {
    let mut o = Options::new("r".to_string());
    o.file_include = Some(vec!["*.TXT".to_string()]);
    // matching folds ASCII case by default
    assert_eq!(filter_entry(&o, "a.txt", false, 1), (false, true));
    o.case_sensitive = true;
    assert_eq!(filter_entry(&o, "a.txt", false, 1), (false, false));
    assert_eq!(filter_entry(&o, "a.TXT", false, 1), (false, true));
}

#[test]
fn depth_gates_descent_before_reporting() {
    let mut o = Options::new("r".to_string());
    o.max_depth = 2;
    assert_eq!(filter_entry(&o, "d", true, 1), (true, true));
    assert_eq!(filter_entry(&o, "d", true, 2), (false, true));
    assert_eq!(filter_entry(&o, "d", true, 3), (false, false));
}

#[test]
fn lexical_byte_order() {
    let a = "a.txt".as_bytes().to_vec();
    let b = "b.log".as_bytes().to_vec();
    let ab = "ab".as_bytes().to_vec();
    assert!(lex_le_bytes(&a, &b));
    assert!(!lex_le_bytes(&b, &a));
    assert!(lex_le_bytes(&a, &a));
    assert!(lex_le_bytes(&ab, &a.clone()) == false);
    assert!(lex_le_bytes(&"a".as_bytes().to_vec(), &ab));
}

#[test]
fn sorting_orders_siblings_by_name() {
    let cs = vec![named_child("zeta"), named_child("alpha"), named_child("midway")];
    let sorted = sort_children(cs);
    let names: Vec<&str> = sorted.iter().map(|c| c.name.as_str()).collect();
    assert_eq!(names, vec!["alpha", "midway", "zeta"]);
}

#[test]
fn joined_paths_use_one_separator() {
    assert_eq!(join_path("a", "b"), "a/b");
    assert_eq!(join_path("/root/x", "y.txt"), "/root/x/y.txt");
}
