use scandir::drain_into;
use scandir::make_entry;
use scandir::send_all;
use scandir::Metadata;
use scandir::ReturnType;
use scandir::ScandirResult;
use scandir::ScandirResults;

#[test]
fn sent_items_arrive_in_order_and_split() {
    let (tx, rx) = flume::unbounded::<ScandirResult>();
    let mut m = Metadata::default();
    m.is_file = true;
    let items = vec![
        make_entry("r/a".to_string(), &m, &ReturnType::Base),
        ScandirResult::Error(("r/bad".to_string(), "denied".to_string())),
        make_entry("r/z".to_string(), &m, &ReturnType::Base),
    ];
    let sent = send_all(&tx, items);
    assert_eq!(sent, 3);
    let mut stored = ScandirResults::new();
    drain_into(&rx, &mut stored);
    assert_eq!(stored.results.len(), 2);
    assert_eq!(stored.errors.len(), 1);
    match (&stored.results[0], &stored.results[1]) {
        (ScandirResult::DirEntry(a), ScandirResult::DirEntry(z)) => {
            assert_eq!(a.path, "r/a");
            assert_eq!(z.path, "r/z");
        },
        _ => panic!("expected two basic entries"),
    }
    assert_eq!(stored.errors[0], ("r/bad".to_string(), "denied".to_string()));
}

#[test]
fn draining_an_empty_channel_changes_nothing() {
    let (_tx, rx) = flume::unbounded::<ScandirResult>();
    let mut stored = ScandirResults::new();
    stored.push(ScandirResult::Error(("p".to_string(), "m".to_string())));
    drain_into(&rx, &mut stored);
    assert_eq!(stored.results.len(), 0);
    assert_eq!(stored.errors.len(), 1);
}

#[test]
fn send_reports_failure_when_receiver_is_gone() {
    let (tx, rx) = flume::unbounded::<ScandirResult>();
    drop(rx);
    let items = vec![ScandirResult::Error(("p".to_string(), "m".to_string()))];
    let sent = send_all(&tx, items);
    assert_eq!(sent, 0);
}
