use voice_core::ssrc_map::SsrcUserMap;

#[test]
fn insert_and_lookup() {
    let mut map = SsrcUserMap::new();
    map.update_from_speaking(1001, 100, "Alice".into());

    let user = map.get_user(1001);
    assert_eq!(user, Some((100, "Alice".into())));
    assert_eq!(map.active_count(), 1);
}

#[test]
fn remove_user_clears_both_directions() {
    let mut map = SsrcUserMap::new();
    map.update_from_speaking(1001, 100, "Alice".into());
    map.remove_user(100);

    assert!(map.get_user(1001).is_none());
    assert_eq!(map.active_count(), 0);
}

#[test]
fn remove_nonexistent_user_is_noop() {
    let mut map = SsrcUserMap::new();
    map.remove_user(999);
    assert_eq!(map.active_count(), 0);
}

#[test]
fn ssrc_change_replaces_old_mapping() {
    let mut map = SsrcUserMap::new();
    map.update_from_speaking(1001, 100, "Alice".into());
    // The same user on a new source id, as after a reconnect.
    map.update_from_speaking(2002, 100, "Alice".into());

    assert!(map.get_user(1001).is_none(), "old SSRC should be gone");
    assert_eq!(map.get_user(2002), Some((100, "Alice".into())));
    assert_eq!(map.active_count(), 1);
}

#[test]
fn multiple_users() {
    let mut map = SsrcUserMap::new();
    map.update_from_speaking(1001, 100, "Alice".into());
    map.update_from_speaking(1002, 200, "Bob".into());
    map.update_from_speaking(1003, 300, "Charlie".into());

    assert_eq!(map.active_count(), 3);
    assert_eq!(map.get_user(1002), Some((200, "Bob".into())));

    map.remove_user(200);
    assert_eq!(map.active_count(), 2);
    assert!(map.get_user(1002).is_none());
}

#[test]
fn update_same_ssrc_same_user() {
    let mut map = SsrcUserMap::new();
    map.update_from_speaking(1001, 100, "Alice".into());
    map.update_from_speaking(1001, 100, "Alice (updated)".into());

    assert_eq!(map.active_count(), 1);
    assert_eq!(map.get_user(1001), Some((100, "Alice (updated)".into())));
}

#[test]
fn reassigned_ssrc_unbinds_previous_user() {
    let mut map = SsrcUserMap::new();
    map.update_from_speaking(1001, 100, "Alice".into());
    // The same source id now belongs to another user.
    map.update_from_speaking(1001, 200, "Bob".into());

    assert_eq!(map.get_user(1001), Some((200, "Bob".into())));
    assert_eq!(map.active_count(), 1);
}
