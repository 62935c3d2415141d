use clasangd::watch::{Debouncer, WatchKind};
use notify::event::{AccessKind, CreateKind, DataChange, EventKind, MetadataKind, ModifyKind, RemoveKind, RenameMode};
use notify::Event;

#[test]
fn burst_of_changes_gives_one_reading() {
    let mut d = Debouncer::new();
    assert!(!d.is_pending());
    for _ in 0..25 {
        d.on_change(WatchKind::ModifyData);
        assert!(d.is_pending());
    }
    assert!(d.on_timer());
    assert!(!d.is_pending());
    assert!(!d.on_timer());
    assert!(!d.on_timer());
}

#[test]
fn only_changes_of_content_count() {
    let mut d = Debouncer::new();
    for kind in [
        WatchKind::Any,
        WatchKind::Access,
        WatchKind::Create,
        WatchKind::ModifyAny,
        WatchKind::ModifyMetadata,
        WatchKind::ModifyName,
        WatchKind::ModifyOther,
        WatchKind::Remove,
        WatchKind::Other,
    ] {
        d.on_change(kind);
        assert!(!d.is_pending());
    }
    assert!(!d.on_timer());
    d.on_change(WatchKind::ModifyData);
    d.on_change(WatchKind::Access);
    assert!(d.is_pending());
    assert!(d.on_timer());
}

#[test]
fn each_burst_gives_its_own_reading() {
    let mut d = Debouncer::new();
    let mut readings = 0;
    for _ in 0..3 {
        for _ in 0..4 {
            d.on_change(WatchKind::ModifyData);
        }
        if d.on_timer() {
            readings += 1;
        }
        if d.on_timer() {
            readings += 1;
        }
    }
    assert_eq!(readings, 3);
}

#[test]
fn watcher_events_are_sorted_by_kind() {
    let quiet = [
        EventKind::Any,
        EventKind::Access(AccessKind::Any),
        EventKind::Create(CreateKind::File),
        EventKind::Modify(ModifyKind::Any),
        EventKind::Modify(ModifyKind::Metadata(MetadataKind::Any)),
        EventKind::Modify(ModifyKind::Name(RenameMode::Any)),
        EventKind::Modify(ModifyKind::Other),
        EventKind::Remove(RemoveKind::File),
        EventKind::Other,
    ];
    for kind in quiet {
        let mut d = Debouncer::new();
        d.on_event(&Event::new(kind));
        assert!(!d.is_pending(), "{:?}", kind);
    }
    for change in [DataChange::Any, DataChange::Content, DataChange::Size, DataChange::Other] {
        let mut d = Debouncer::new();
        d.on_event(&Event::new(EventKind::Modify(ModifyKind::Data(change))));
        assert!(d.is_pending());
        d.on_event(&Event::new(EventKind::Any));
        assert!(d.is_pending());
        assert!(d.on_timer());
    }
}
