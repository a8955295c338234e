use zoho_mail_sync::zoho::messages::{next_page, PageStep, RemoteMessage};

#[test]
fn listing_entries_map_status_and_flag() {
    let m = RemoteMessage::from_entry(
        "m1".to_string(),
        "f1".to_string(),
        Some("1".to_string()),
        Some("important".to_string()),
    );
    assert_eq!(m.message_id, "m1");
    assert_eq!(m.folder_id, "f1");
    assert!(m.read);
    assert!(m.important);
    let m = RemoteMessage::from_entry(
        "m2".to_string(),
        "f1".to_string(),
        Some("0".to_string()),
        Some("flag_not_set".to_string()),
    );
    assert!(!m.read);
    assert!(!m.important);
    let m = RemoteMessage::from_entry("m3".to_string(), "f".to_string(), None, None);
    assert!(!m.read && !m.important);
    let m = RemoteMessage::from_entry("m4".to_string(), "f".to_string(), Some("11".to_string()), Some("Important".to_string()));
    assert!(!m.read && !m.important);
}

#[test]
fn paging_steps() {
    assert_eq!(next_page(1, 200, 150), PageStep::Done);
    assert_eq!(next_page(1, 200, 0), PageStep::Done);
    assert_eq!(next_page(1, 200, 200), PageStep::Next(201));
    assert_eq!(next_page(201, 200, 200), PageStep::Next(401));
    assert_eq!(next_page(u32::MAX - 10, 200, 200), PageStep::Overflow);
    assert_eq!(next_page(u32::MAX - 200, 200, 200), PageStep::Next(u32::MAX));
}
