use zoho_mail_sync::maildir::is_maildir_folder_name;
use zoho_mail_sync::zoho::folders::{derive_maildir_names, is_control, normalize_parent, sanitize};

fn rec(id: &str, name: &str, parent: Option<&str>) -> (String, String, Option<String>) {
    (id.to_string(), name.to_string(), parent.map(|p| p.to_string()))
}

#[test]
fn sanitize_replaces_separators_and_controls() {
    assert_eq!(sanitize("Inbox"), "Inbox");
    assert_eq!(sanitize("a/b.c\\d:e"), "a_b_c_d_e");
    assert_eq!(sanitize("tab\there"), "tab_here");
    assert_eq!(sanitize(""), "_");
    assert_eq!(sanitize("Ünïcødé ✓"), "Ünïcødé ✓");
    assert_eq!(sanitize("\u{7f}\u{85}\u{a0}"), "__\u{a0}");
}

#[test]
fn control_characters_match_std() {
    for u in 0u32..0x11_0000 {
        if let Some(c) = char::from_u32(u) {
            assert_eq!(is_control(c), c.is_control(), "at U+{u:04X}");
        }
    }
}

#[test]
fn parent_ids_that_mean_top_level() {
    assert_eq!(normalize_parent(None), None);
    assert_eq!(normalize_parent(Some(String::new())), None);
    assert_eq!(normalize_parent(Some("0".to_string())), None);
    assert_eq!(normalize_parent(Some("00".to_string())), Some("00".to_string()));
    assert_eq!(normalize_parent(Some("42".to_string())), Some("42".to_string()));
}

#[test]
fn nested_folders_get_dotted_names() {
    let raw = vec![
        rec("1", "Inbox", None),
        rec("2", "Projects", Some("1")),
        rec("3", "2024/Q1", Some("2")),
        rec("4", "Sent", None),
        rec("5", "Orphan", Some("99")),
    ];
    let folders = derive_maildir_names(&raw);
    let names: Vec<(&str, &str)> =
        folders.iter().map(|f| (f.folder_id.as_str(), f.maildir_name.as_str())).collect();
    assert_eq!(
        names,
        vec![
            ("1", ".Inbox"),
            ("2", ".Inbox.Projects"),
            ("3", ".Inbox.Projects.2024_Q1"),
            ("4", ".Sent"),
            ("5", ".Orphan"),
        ]
    );
}

#[test]
fn duplicate_ids_use_the_later_record_as_parent() {
    let raw = vec![rec("1", "Old", None), rec("1", "New", None), rec("2", "Child", Some("1"))];
    let folders = derive_maildir_names(&raw);
    assert_eq!(folders[0].maildir_name, ".Old");
    assert_eq!(folders[1].maildir_name, ".New");
    assert_eq!(folders[2].maildir_name, ".New.Child");
}

#[test]
fn parent_cycles_stop_after_the_link_limit() {
    let raw = vec![rec("a", "A", Some("b")), rec("b", "B", Some("a"))];
    let folders = derive_maildir_names(&raw);
    // The folder itself plus 33 ancestors: 34 segments.
    assert_eq!(folders[0].maildir_name.matches('.').count(), 34);
    assert!(folders[0].maildir_name.ends_with(".B.A"));
    assert!(folders[1].maildir_name.ends_with(".A.B"));
}

#[test]
fn child_name_extends_parent_name() {
    let raw = vec![rec("p", "Parent", None), rec("c", "Kid.Name", Some("p"))];
    let folders = derive_maildir_names(&raw);
    assert_eq!(folders[1].maildir_name, format!("{}.{}", folders[0].maildir_name, "Kid_Name"));
}

#[test]
fn derived_names_are_seen_by_the_folder_scan() {
    let raw = vec![
        rec("1", "..", None),
        rec("2", ".", Some("1")),
        rec("3", "", None),
        rec("4", "a/../b", None),
        rec("5", "Inbox", None),
    ];
    for f in derive_maildir_names(&raw) {
        assert!(is_maildir_folder_name(&f.maildir_name), "{}", f.maildir_name);
        assert!(!f.maildir_name.contains('/'));
    }
    // The one name that the scan refuses: a top-level folder called like the state directory.
    let clash = derive_maildir_names(&vec![rec("9", "zoho-mail-sync", None)]);
    assert_eq!(clash[0].maildir_name, ".zoho-mail-sync");
    assert!(!is_maildir_folder_name(&clash[0].maildir_name));
}
