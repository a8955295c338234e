use zoho_mail_sync::maildir::{
    info_suffix_separator, is_maildir_folder_name, is_removable_maildir, message_file_name, only_maildir_subdirs,
    state_dir_name, Flags,
};

#[test]
fn flags_encode_canonically_and_decode_maildir_flags() {
    assert_eq!(Flags::default().encode(), "");
    assert_eq!(
        Flags {
            seen: true,
            flagged: true,
        }
        .encode(),
        "FS"
    );
    assert_eq!(
        Flags::decode("RST"),
        Flags {
            seen: true,
            flagged: false,
        }
    );
    assert_eq!(
        Flags::decode("DF"),
        Flags {
            seen: false,
            flagged: true,
        }
    );
}

#[test]
fn flags_encode_single_flags() {
    assert_eq!(Flags { seen: true, flagged: false }.encode(), "S");
    assert_eq!(Flags { seen: false, flagged: true }.encode(), "F");
}

#[test]
fn flags_decode_of_encode_round_trips() {
    for seen in [false, true] {
        for flagged in [false, true] {
            let f = Flags { seen, flagged };
            assert_eq!(Flags::decode(&f.encode()), f);
        }
    }
}

#[test]
fn flags_decode_ignores_other_letters_and_non_ascii() {
    assert_eq!(Flags::decode(""), Flags::default());
    assert_eq!(Flags::decode("PRT"), Flags::default());
    assert_eq!(Flags::decode("éS✓F"), Flags { seen: true, flagged: true });
    assert_eq!(Flags::decode("s f"), Flags::default());
}

#[test]
fn folder_names_of_the_data_dir() {
    assert!(is_maildir_folder_name(".Inbox"));
    assert!(is_maildir_folder_name(".Sent.Archive"));
    assert!(is_maildir_folder_name(".x"));
    assert!(!is_maildir_folder_name("visible-directory"));
    assert!(!is_maildir_folder_name(""));
    assert!(!is_maildir_folder_name("."));
    assert!(!is_maildir_folder_name(".."));
    assert!(!is_maildir_folder_name(".zoho-mail-sync"));
    assert!(is_maildir_folder_name(".zoho-mail-sync2"));
    assert!(is_maildir_folder_name("..."));
}

#[test]
fn state_dir_name_is_hidden() {
    assert_eq!(state_dir_name(), ".zoho-mail-sync");
}

#[test]
fn message_file_names() {
    assert_eq!(info_suffix_separator(), ":");
    assert_eq!(
        message_file_name("message-1", Flags { seen: true, flagged: false }),
        "message-1:2,S"
    );
    assert_eq!(message_file_name("m", Flags::default()), "m:2,");
    assert_eq!(
        message_file_name("177", Flags { seen: true, flagged: true }),
        "177:2,FS"
    );
}

#[test]
fn only_maildir_subdirs_decides_removal() {
    let names = |v: &[&str]| v.iter().map(|s| s.to_string()).collect::<Vec<String>>();
    assert!(only_maildir_subdirs(&names(&[])));
    assert!(only_maildir_subdirs(&names(&["cur", "new", "tmp"])));
    assert!(only_maildir_subdirs(&names(&["tmp"])));
    assert!(!only_maildir_subdirs(&names(&["cur", "message-2:2,"])));
    assert!(!only_maildir_subdirs(&names(&["Cur"])));
}

#[test]
fn delivery_goes_through_tmp_into_cur() {
    let p = zoho_mail_sync::maildir::delivery_paths(
        "/home/u/Mail",
        ".Inbox",
        "message-1",
        Flags { seen: true, flagged: false },
    );
    assert_eq!(p.tmp, "/home/u/Mail/.Inbox/tmp/message-1");
    assert_eq!(p.cur, "/home/u/Mail/.Inbox/cur/message-1:2,S");
}

#[test]
fn removable_only_when_subdirectories_are_empty() {
    let names: Vec<String> = vec!["cur".to_string(), "new".to_string(), "tmp".to_string()];
    assert!(is_removable_maildir(true, true, true, &names));
    assert!(!is_removable_maildir(false, true, true, &names));
    assert!(!is_removable_maildir(true, true, false, &names));
    assert!(!is_removable_maildir(true, true, true, &vec!["cur".to_string(), "notes".to_string()]));
}

#[test]
fn maildir_subdirectory_names() {
    use_subdir_names();
}

fn use_subdir_names() {
    for n in ["cur", "new", "tmp"] {
        assert!(zoho_mail_sync::maildir::is_maildir_subdir(n));
    }
    for n in ["", "Cur", "cur2", "notes", "tmp/"] {
        assert!(!zoho_mail_sync::maildir::is_maildir_subdir(n));
    }
}
