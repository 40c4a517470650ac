use brief::compiler::watch::{Debouncer, WatchEvent};

#[test]
fn test_debouncer() {
    let mut debouncer = Debouncer::new();
    debouncer.on_file_event("file1.bv".to_string());
    debouncer.on_file_event("file2.bv".to_string());
    let flushed = debouncer.flush(10);
    assert!(flushed.len() <= 2);
}

#[test]
fn debouncer_flushes_settled_paths_in_order() {
    let mut d = Debouncer::new();
    d.on_file_event_at("a".to_string(), 100);
    d.on_file_event_at("b".to_string(), 200);
    d.on_file_event_at("a".to_string(), 300);
    // at 10 ms past b's event, only b has been quiet for 10 ms
    assert_eq!(d.flush_at(10_000_200, 10), vec!["b".to_string()]);
    assert_eq!(d.flush_at(20_000_000, 10), vec!["a".to_string()]);
    assert!(d.flush_at(30_000_000, 10).is_empty());
}

#[test]
fn debouncer_spaces_out_triggers() {
    let mut d = Debouncer::new();
    assert!(d.should_trigger_at(0, 10));
    d.mark_triggered_at(1_000);
    assert!(!d.should_trigger_at(1_000 + 5_000_000, 10));
    assert!(d.should_trigger_at(1_000 + 10_000_000, 10));
    assert!(!d.should_trigger_at(0, 10));
    assert!(d.should_trigger_at(0, 0));
    d.mark_triggered();
    assert!(d.should_trigger(0));
}

#[test]
fn watch_events_carry_paths() {
    let e = WatchEvent::FileChanged("src/main.bv".to_string());
    assert!(matches!(e.clone(), WatchEvent::FileChanged(p) if p == "src/main.bv"));
    assert!(matches!(WatchEvent::ManifestChanged, WatchEvent::ManifestChanged));
}
