use picobroker_core::server::connection_manager::ConnectionManager;

#[test]
fn streams_are_stored_replaced_and_released() {
    let mut mgr = ConnectionManager::<&'static str, 2>::new();
    mgr.set_stream(1, "a");
    mgr.set_stream(2, "b");
    assert_eq!(mgr.active_stream_count(), 2);
    assert_eq!(mgr.get_stream_mut(1).map(|s| *s), Some("a"));
    mgr.set_stream(1, "c");
    assert_eq!(mgr.get_stream_mut(1).map(|s| *s), Some("c"));
    assert!(mgr.remove_session(1));
    assert!(!mgr.remove_session(3));
    assert_eq!(mgr.get_stream_mut(1), None);
    assert_eq!(mgr.active_stream_count(), 1);
}

#[test]
fn released_slots_are_reused_and_a_full_manager_drops_streams() {
    let mut mgr = ConnectionManager::<u8, 2>::new();
    mgr.set_stream(1, 10);
    mgr.set_stream(2, 20);
    mgr.set_stream(3, 30);
    assert_eq!(mgr.get_stream_mut(3), None);
    assert!(mgr.remove_session(1));
    mgr.set_stream(3, 30);
    assert_eq!(mgr.get_stream_mut(3).map(|s| *s), Some(30));
    assert_eq!(mgr.get_stream_mut(1), None);
    assert_eq!(mgr.active_stream_count(), 2);
}

#[test]
fn a_stream_can_be_changed_in_place() {
    let mut mgr = ConnectionManager::<u32, 4>::default();
    mgr.set_stream(8, 1);
    if let Some(s) = mgr.get_stream_mut(8) {
        *s = 42;
    }
    assert_eq!(mgr.get_stream_mut(8).map(|s| *s), Some(42));
}
