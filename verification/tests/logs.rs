use tlscope::diagnostics::logs::{TlscopeLogLevel, TlscopeLogStore};
use tlscope::process::logs::{ChildLogStore, ChildOutputStream};

#[test]
fn keeps_only_recent_tlscope_lines() {
    let mut store = TlscopeLogStore::new(2);
    store.push(TlscopeLogLevel::Info, "app".to_string(), "one".to_string());
    store.push(TlscopeLogLevel::Warn, "proxy".to_string(), "two".to_string());
    store.push(TlscopeLogLevel::Debug, "proxy".to_string(), "three".to_string());

    let snapshot = store.snapshot();
    assert_eq!(snapshot.dropped, 1);
    assert_eq!(snapshot.total, 3);
    assert_eq!(snapshot.lines.len(), 2);
    assert_eq!(snapshot.lines[0].text, "two");
    assert_eq!(snapshot.lines[1].text, "three");
}

#[test]
fn formats_tlscope_snapshot_for_clipboard() {
    let mut store = TlscopeLogStore::new(1);
    store.push(TlscopeLogLevel::Info, "app".to_string(), "first".to_string());
    store.push(TlscopeLogLevel::Warn, "proxy".to_string(), "second".to_string());

    assert_eq!(
        store.snapshot().clipboard_text(),
        "[1 older TLScope log lines dropped]\n[WARN proxy] second"
    );
}

#[test]
fn keeps_only_recent_lines() {
    let mut store = ChildLogStore::new(2);
    store.push(ChildOutputStream::Stdout, "one".to_string());
    store.push(ChildOutputStream::Stderr, "two".to_string());
    store.push(ChildOutputStream::Stdout, "three".to_string());

    let snapshot = store.snapshot();
    assert_eq!(snapshot.dropped, 1);
    assert_eq!(snapshot.total, 3);
    assert_eq!(snapshot.lines.len(), 2);
    assert_eq!(snapshot.lines[0].text, "two");
    assert_eq!(snapshot.lines[1].text, "three");
}
