use scandir::Child;
use scandir::DirEntry;
use scandir::Metadata;
use scandir::Options;
use scandir::ReturnType;
use scandir::ScandirResult;
use scandir::ScandirResults;
use scandir::Walker;

fn file_child(name: &str) -> Child {
    let mut m = Metadata::default();
    m.is_file = true;
    m.st_size = 3;
    Child { name: name.to_string(), is_dir: false, meta: Ok(m) }
}

fn dir_child(name: &str) -> Child {
    let mut m = Metadata::default();
    m.is_dir = true;
    Child { name: name.to_string(), is_dir: true, meta: Ok(m) }
}

fn bad_child(name: &str, is_dir: bool, msg: &str) -> Child {
    Child { name: name.to_string(), is_dir, meta: Err(msg.to_string()) }
}

fn paths_of(items: &[ScandirResult]) -> Vec<String> {
    items
        .iter()
        .map(|r| match r {
            ScandirResult::DirEntry(e) => e.path.clone(),
            ScandirResult::DirEntryExt(e) => e.path.clone(),
            ScandirResult::Error((p, _)) => p.clone(),
        })
        .collect()
}

#[test]
fn txt_include_sorted_scenario() {
    let mut o = Options::new("root".to_string());
    o.sorted = true;
    o.file_include = Some(vec!["*.txt".to_string()]);
    let mut w = Walker::new(o);

    let (dir, depth) = w.next_dir().unwrap();
    assert_eq!(dir, "root");
    assert_eq!(depth, 0);
    // hand the children out of order: the walker must sort them itself
    let children = vec![file_child("b.log"), dir_child("sub"), file_child("a.txt")];
    let items = w.process_listing(&dir, depth, children);
    assert_eq!(paths_of(&items), vec!["root/a.txt".to_string(), "root/sub".to_string()]);
    assert!(matches!(&items[0], ScandirResult::DirEntry(e) if e.is_file));
    assert!(matches!(&items[1], ScandirResult::DirEntry(e) if e.is_dir));

    let (dir, depth) = w.next_dir().unwrap();
    assert_eq!(dir, "root/sub");
    assert_eq!(depth, 1);
    let items = w.process_listing(&dir, depth, vec![file_child("c.txt")]);
    assert_eq!(paths_of(&items), vec!["root/sub/c.txt".to_string()]);

    assert!(w.next_dir().is_none());
}

#[test]
fn unreadable_node_yields_error_record() {
    let o = Options::new("root".to_string());
    let mut w = Walker::new(o);
    let (dir, depth) = w.next_dir().unwrap();
    let items = w.process_listing(
        &dir,
        depth,
        vec![file_child("ok.txt"), bad_child("locked", true, "permission denied")],
    );
    let mut stored = ScandirResults::new();
    for item in items {
        stored.push(item);
    }
    assert_eq!(stored.results.len(), 1);
    assert!(matches!(&stored.results[0], ScandirResult::DirEntry(e) if e.path == "root/ok.txt"));
    assert_eq!(stored.errors.len(), 1);
    assert_eq!(stored.errors[0], ("root/locked".to_string(), "permission denied".to_string()));
    // the walk still descends into the unreadable directory's schedule slot
    // and still finishes
    w.stop();
    w.finish(0);
    assert!(w.finished());
}

#[test]
fn max_file_cnt_stops_the_walk_early() {
    let mut o = Options::new("root".to_string());
    o.max_file_cnt = 1;
    let mut w = Walker::new(o);
    let (dir, depth) = w.next_dir().unwrap();
    let items = w.process_listing(
        &dir,
        depth,
        vec![
            file_child("f1"),
            file_child("f2"),
            file_child("f3"),
            file_child("f4"),
            file_child("f5"),
        ],
    );
    assert_eq!(items.len(), 1);
    assert_eq!(w.reported, 1);
    // the budget is exhausted: the walk is done
    assert!(w.next_dir().is_none());
    w.finish(0);
    assert!(w.finished());
}

#[test]
fn max_depth_limits_reporting_and_descent() {
    let mut o = Options::new("root".to_string());
    o.max_depth = 1;
    let mut w = Walker::new(o);
    let (dir, depth) = w.next_dir().unwrap();
    // children at depth 1: reported, but not descended into (1 is the limit)
    let items = w.process_listing(&dir, depth, vec![dir_child("sub"), file_child("f")]);
    assert_eq!(paths_of(&items), vec!["root/sub".to_string(), "root/f".to_string()]);
    assert!(w.next_dir().is_none());
}

#[test]
fn finished_only_after_finish() {
    let o = Options::new("root".to_string());
    let mut w = Walker::new(o);
    assert!(!w.finished());
    assert_eq!(w.duration_nanos(), 0);
    w.finish(0);
    assert!(w.finished());
    assert!(w.duration_nanos() >= 1);

    let o2 = Options::new("root".to_string());
    let mut w2 = Walker::new(o2);
    w2.finish(12345);
    assert_eq!(w2.duration_nanos(), 12345);
    assert!(w2.finished());
}

#[test]
fn stop_hands_out_no_further_directories() {
    let o = Options::new("root".to_string());
    let mut w = Walker::new(o);
    w.stop();
    assert!(w.next_dir().is_none());
    assert!(!w.finished());
    w.finish(7);
    assert!(w.finished());
}

#[test]
fn same_options_same_tree_same_paths() {
    let run = || {
        let mut o = Options::new("root".to_string());
        o.sorted = true;
        o.file_exclude = Some(vec!["*.tmp".to_string()]);
        let mut w = Walker::new(o);
        let mut all: Vec<String> = Vec::new();
        let (dir, depth) = w.next_dir().unwrap();
        let items = w.process_listing(
            &dir,
            depth,
            vec![file_child("x.tmp"), file_child("keep.rs"), dir_child("d")],
        );
        all.extend(paths_of(&items));
        while let Some((dir, depth)) = w.next_dir() {
            let items = w.process_listing(&dir, depth, vec![file_child("inner.rs")]);
            all.extend(paths_of(&items));
        }
        all
    };
    let first = run();
    let second = run();
    assert_eq!(first, second);
    assert_eq!(first, vec!["root/d".to_string(), "root/keep.rs".to_string(), "root/d/inner.rs".to_string()]);
}

#[test]
fn depth_first_children_follow_their_directory() {
    let mut o = Options::new("r".to_string());
    o.sorted = true;
    let mut w = Walker::new(o);
    let (dir, depth) = w.next_dir().unwrap();
    let _ = w.process_listing(&dir, depth, vec![dir_child("a"), dir_child("b")]);
    // depth-first: a and its children come before b
    let (dir, depth) = w.next_dir().unwrap();
    assert_eq!(dir, "r/a");
    let _ = w.process_listing(&dir, depth, vec![dir_child("inner")]);
    let (dir, _) = w.next_dir().unwrap();
    assert_eq!(dir, "r/a/inner");
    let _ = w.process_listing(&dir, 2, vec![]);
    let (dir, _) = w.next_dir().unwrap();
    assert_eq!(dir, "r/b");
}

#[test]
fn extended_entries_keep_all_stat_fields() {
    let mut o = Options::new("root".to_string());
    o.return_type = ReturnType::Ext;
    let mut w = Walker::new(o);
    let (dir, depth) = w.next_dir().unwrap();
    let mut m = Metadata::default();
    m.is_file = true;
    m.st_size = 42;
    m.st_ino = 77;
    m.st_uid = 1000;
    m.st_mtime = Some(1_700_000_000);
    let items = w.process_listing(
        &dir,
        depth,
        vec![Child { name: "f".to_string(), is_dir: false, meta: Ok(m) }],
    );
    match &items[0] {
        ScandirResult::DirEntryExt(e) => {
            assert_eq!(e.path, "root/f");
            assert_eq!(e.st_size, 42);
            assert_eq!(e.st_ino, 77);
            assert_eq!(e.st_uid, 1000);
            assert_eq!(e.st_mtime, Some(1_700_000_000));
        },
        _ => panic!("expected an extended entry"),
    }
}

#[test]
fn basic_entry_drops_extended_fields() {
    let mut m = Metadata::default();
    m.is_file = true;
    m.st_size = 9;
    m.st_ino = 5;
    let r = scandir::make_entry("p/f".to_string(), &m, &ReturnType::Base);
    match r {
        ScandirResult::DirEntry(e) => {
            assert_eq!(
                e,
                DirEntry {
                    path: "p/f".to_string(),
                    is_symlink: false,
                    is_dir: false,
                    is_file: true,
                    st_ctime: None,
                    st_mtime: None,
                    st_atime: None,
                    st_size: 9,
                }
            );
        },
        _ => panic!("expected a basic entry"),
    }
}

#[test]
fn results_collector_splits_errors_from_entries() {
    let mut stored = ScandirResults::new();
    assert!(stored.results.is_empty());
    assert!(stored.errors.is_empty());
    let mut m = Metadata::default();
    m.is_file = true;
    stored.push(scandir::make_entry("a".to_string(), &m, &ReturnType::Base));
    stored.push(ScandirResult::Error(("b".to_string(), "gone".to_string())));
    stored.push(scandir::make_entry("c".to_string(), &m, &ReturnType::Base));
    assert_eq!(stored.results.len(), 2);
    assert_eq!(stored.errors, vec![("b".to_string(), "gone".to_string())]);
}
