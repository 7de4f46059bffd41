use picobroker_core::topics::{topic_matches, LevelIterator, TopicName, TopicRegistry};

#[test]
fn topics_test_exact_match_subscription() {
    let mut registry = TopicRegistry::<50, 10, 5>::default();

    let session1 = 1;
    let filter = TopicName::try_from("sensors/temp").unwrap();

    registry.subscribe(session1, filter).unwrap();

    let topic = TopicName::try_from("sensors/temp").unwrap();
    let subscribers = registry.get_subscribers(&topic);
    assert_eq!(subscribers.len(), 1);
    assert!(subscribers.contains(&session1));

    let topic2 = TopicName::try_from("sensors/humidity").unwrap();
    let subscribers2 = registry.get_subscribers(&topic2);
    assert_eq!(subscribers2.len(), 0);
}

#[test]
fn topics_test_plus_wildcard_subscription() {
    let mut registry = TopicRegistry::<50, 10, 5>::default();

    let session1 = 1;
    let filter = TopicName::try_from("sensors/+/temp").unwrap();
    registry.subscribe(session1, filter).unwrap();

    let test_cases = [
        "sensors/room1/temp",
        "sensors/room2/temp",
        "sensors/abc/temp",
        "sensors/123/temp",
    ];

    for topic_str in test_cases {
        let topic = TopicName::try_from(topic_str).unwrap();
        let subscribers = registry.get_subscribers(&topic);
        assert_eq!(subscribers.len(), 1, "Should match {}", topic_str);
        assert!(subscribers.contains(&session1));
    }

    let topic = TopicName::try_from("sensors/room1/temp/extra").unwrap();
    let subscribers = registry.get_subscribers(&topic);
    assert_eq!(subscribers.len(), 0);

    let topic = TopicName::try_from("sensors/temp").unwrap();
    let subscribers = registry.get_subscribers(&topic);
    assert_eq!(subscribers.len(), 0);
}

#[test]
fn topics_test_hash_wildcard_subscription() {
    let mut registry = TopicRegistry::<50, 10, 5>::default();

    let session1 = 1;
    let filter = TopicName::try_from("sensors/#").unwrap();
    registry.subscribe(session1, filter).unwrap();

    let test_cases = [
        "sensors",
        "sensors/temp",
        "sensors/temp/room1",
        "sensors/a/b/c/d/e/f",
    ];

    for topic_str in test_cases {
        let topic = TopicName::try_from(topic_str).unwrap();
        let subscribers = registry.get_subscribers(&topic);
        assert_eq!(subscribers.len(), 1, "Should match {}", topic_str);
        assert!(subscribers.contains(&session1));
    }

    let topic = TopicName::try_from("other/temp").unwrap();
    let subscribers = registry.get_subscribers(&topic);
    assert_eq!(subscribers.len(), 0);
}

#[test]
fn topics_test_multiple_wildcard_subscriptions() {
    let mut registry = TopicRegistry::<50, 10, 5>::default();

    let session1 = 1;
    let session2 = 2;
    let session3 = 3;

    registry
        .subscribe(session1, TopicName::try_from("sensors/temp").unwrap())
        .unwrap();
    registry
        .subscribe(session2, TopicName::try_from("sensors/+/temp").unwrap())
        .unwrap();
    registry
        .subscribe(session3, TopicName::try_from("sensors/#").unwrap())
        .unwrap();

    let topic = TopicName::try_from("sensors/room1/temp").unwrap();
    let subscribers = registry.get_subscribers(&topic);
    assert_eq!(subscribers.len(), 2);
    assert!(subscribers.contains(&session2));
    assert!(subscribers.contains(&session3));
    assert!(!subscribers.contains(&session1));

    let topic2 = TopicName::try_from("sensors/temp").unwrap();
    let subscribers2 = registry.get_subscribers(&topic2);
    assert_eq!(subscribers2.len(), 2);
    assert!(subscribers2.contains(&session1));
    assert!(subscribers2.contains(&session3));
    assert!(!subscribers2.contains(&session2));

    let topic3 = TopicName::try_from("sensors/humidity").unwrap();
    let subscribers3 = registry.get_subscribers(&topic3);
    assert_eq!(subscribers3.len(), 1);
    assert!(subscribers3.contains(&session3));
}

#[test]
fn topics_test_duplicate_subscribers_via_wildcards() {
    let mut registry = TopicRegistry::<50, 10, 5>::default();

    let session1 = 1;

    registry
        .subscribe(session1, TopicName::try_from("sensors/temp").unwrap())
        .unwrap();
    registry
        .subscribe(session1, TopicName::try_from("sensors/+").unwrap())
        .unwrap();
    registry
        .subscribe(session1, TopicName::try_from("#").unwrap())
        .unwrap();

    let topic = TopicName::try_from("sensors/temp").unwrap();
    let subscribers = registry.get_subscribers(&topic);
    assert_eq!(subscribers.len(), 1);
    assert!(subscribers.contains(&session1));
}

#[test]
fn topics_test_invalid_wildcard_placement_literal_treatment() {
    let mut registry = TopicRegistry::<50, 10, 5>::default();

    let session1 = 1;

    registry
        .subscribe(session1, TopicName::try_from("sensors/#/temp").unwrap())
        .unwrap();

    let topic = TopicName::try_from("sensors/temp").unwrap();
    let subscribers = registry.get_subscribers(&topic);
    assert_eq!(subscribers.len(), 0);

    let topic2 = TopicName::try_from("sensors/anything/temp").unwrap();
    let subscribers2 = registry.get_subscribers(&topic2);
    assert_eq!(subscribers2.len(), 0);
}

#[test]
fn topics_test_exact_match_single_level() {
    assert!(topic_matches("temp", "temp"));
    assert!(!topic_matches("temp", "humidity"));
}

#[test]
fn topics_test_exact_match_multi_level() {
    assert!(topic_matches("sensors/temp", "sensors/temp"));
    assert!(!topic_matches("sensors/temp", "sensors/humidity"));
}

#[test]
fn topics_test_exact_match_different_levels() {
    assert!(!topic_matches("sensors/temp", "sensors"));
    assert!(!topic_matches("sensors", "sensors/temp"));
}

#[test]
fn topics_test_plus_wildcard_single_level() {
    assert!(topic_matches("temp", "+"));
    assert!(topic_matches("any", "+"));
}

#[test]
fn topics_test_plus_wildcard_middle() {
    assert!(topic_matches("sensors/room1/temp", "sensors/+/temp"));
    assert!(topic_matches("sensors/xyz/temp", "sensors/+/temp"));
    assert!(!topic_matches(
        "sensors/room1/temp/humidity",
        "sensors/+/temp"
    ));
}

#[test]
fn topics_test_plus_wildcard_first_level() {
    assert!(topic_matches("abc/temp", "+/temp"));
    assert!(!topic_matches("xyz/abc/temp", "+/temp"));
}

#[test]
fn topics_test_plus_wildcard_last_level() {
    assert!(topic_matches("sensors/value", "sensors/+"));
    assert!(!topic_matches("sensors", "sensors/+"));
}

#[test]
fn topics_test_multiple_plus_wildcards() {
    assert!(topic_matches("a/b/c", "+/+/c"));
    assert!(topic_matches("x/y/z", "+/+/+"));
    assert!(!topic_matches("a/b", "+/+/+"));
}

#[test]
fn topics_test_plus_wildcard_literal_treatment() {
    assert!(!topic_matches("sensors/room1/temp", "sensors/+/abc/temp"));

    assert!(topic_matches("sensors/+/temp", "sensors/+/temp"));

    assert!(!topic_matches("sensors/abc/temp", "sensor+/+/temp"));
}

#[test]
fn topics_test_hash_wildcard_match_all() {
    assert!(topic_matches("anything", "#"));
    assert!(topic_matches("any/thing", "#"));
    assert!(topic_matches("any/thing/at/any/level", "#"));
}

#[test]
fn topics_test_hash_wildcard_suffix() {
    assert!(topic_matches("sensors", "sensors/#"));
    assert!(topic_matches("sensors/temp", "sensors/#"));
    assert!(topic_matches("sensors/temp/room1", "sensors/#"));
    assert!(topic_matches("sensors/a/b/c/d", "sensors/#"));
    assert!(!topic_matches("sensors", "sensors/temp/#"));
}

#[test]
fn topics_test_hash_wildcard_alone() {
    assert!(topic_matches("anything", "#"));
    assert!(topic_matches("a/b/c", "#"));
}

#[test]
fn topics_test_hash_wildcard_match_zero_levels() {
    assert!(topic_matches("sensors", "sensors/#"));
}

#[test]
fn topics_test_hash_wildcard_literal_treatment() {
    assert!(!topic_matches("sensors/temp", "sensors/#/temp"));
    assert!(!topic_matches("sensors", "sensors/#/temp"));
}

#[test]
fn topics_test_plus_and_hash_combined() {
    assert!(topic_matches("sensors/temp", "sensors/+/#"));
    assert!(topic_matches("sensors/temp/room1", "sensors/+/#"));
    assert!(topic_matches("sensors/room1/temp", "sensors/+/temp/#"));
}

#[test]
fn topics_test_empty_topic_levels() {
    assert!(topic_matches("sensors//temp", "sensors//temp"));
    assert!(topic_matches("sensors/", "sensors/"));
    assert!(topic_matches("/temp", "/temp"));
}

#[test]
fn topics_test_unicode_topics() {
    assert!(topic_matches("ñáé", "ñáé"));
    assert!(topic_matches("sensor/温度", "sensor/温度"));
    assert!(topic_matches("sensor/温度", "sensor/+"));
}

#[test]
fn topics_test_case_sensitive() {
    assert!(topic_matches("Sensors/Temp", "Sensors/Temp"));
    assert!(!topic_matches("sensors/temp", "Sensors/Temp"));
    assert!(!topic_matches("Sensors/Temp", "sensors/temp"));
}

#[test]
fn topics_test_long_topics() {
    let long_topic = "a/b/c/d/e/f/g/h/i/j/k/l/m/n/o/p/q/r/s/t/u/v/w/x/y/z";
    assert!(topic_matches(long_topic, "+/+/+/+/+/+/+/+/+/+/+/+/+/+/#"));
}

#[test]
fn topics_test_empty_topic() {
    assert!(!topic_matches("", "sensors"));
    assert!(!topic_matches("sensors", ""));
    assert!(topic_matches("", ""));
    assert!(topic_matches("", "#"));
}

#[test]
fn topics_test_level_iterator_basic() {
    let mut iter = LevelIterator::new("sensors/temp/room1");
    assert_eq!(iter.next(), Some("sensors"));
    assert_eq!(iter.next(), Some("temp"));
    assert_eq!(iter.next(), Some("room1"));
    assert_eq!(iter.next(), None);
}

#[test]
fn topics_test_level_iterator_single_level() {
    let mut iter = LevelIterator::new("sensors");
    assert_eq!(iter.next(), Some("sensors"));
    assert_eq!(iter.next(), None);
}

#[test]
fn topics_test_level_iterator_empty_levels() {
    let mut iter = LevelIterator::new("sensors//temp");
    assert_eq!(iter.next(), Some("sensors"));
    assert_eq!(iter.next(), Some(""));
    assert_eq!(iter.next(), Some("temp"));
    assert_eq!(iter.next(), None);
}

#[test]
fn topics_test_level_iterator_trailing_slash() {
    let mut iter = LevelIterator::new("sensors/");
    assert_eq!(iter.next(), Some("sensors"));
    assert_eq!(iter.next(), Some(""));
    assert_eq!(iter.next(), None);
}

#[test]
fn topics_test_level_iterator_leading_slash() {
    let mut iter = LevelIterator::new("/temp");
    assert_eq!(iter.next(), Some(""));
    assert_eq!(iter.next(), Some("temp"));
    assert_eq!(iter.next(), None);
}

#[test]
fn topics_test_level_iterator_empty_string() {
    let mut iter = LevelIterator::new("");
    assert_eq!(iter.next(), None);
}

#[test]
fn inner_hash_is_a_literal_level() {
    assert!(!topic_matches("s/#", "s/#/t"));
    assert!(topic_matches("s/#/t", "s/#/t"));
    assert!(!topic_matches("s/x/t", "s/#/t"));
    assert!(topic_matches("a/b/c", "a/+/#"));
    assert!(topic_matches("a", "a/#"));
    assert!(topic_matches("a/", "a/#"));
    assert!(!topic_matches("ab", "a/#"));
    assert!(!topic_matches("b/a", "a/#"));
}
