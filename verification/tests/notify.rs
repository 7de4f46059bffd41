use picobroker_core::notify::SessionSlots;

#[test]
fn channels_are_found_by_session() {
    let mut slots = SessionSlots::<3>::new();
    slots.register_session(1, 77);
    slots.register_session(2, 88);
    slots.register_session(9, 99);
    assert_eq!(slots.channel_of(77), Some(1));
    assert_eq!(slots.channel_of(88), Some(2));
    assert_eq!(slots.channel_of(99), None);
    slots.unregister_session(1);
    assert_eq!(slots.channel_of(77), None);
    assert_eq!(slots.channel_of(0), Some(0));
}
