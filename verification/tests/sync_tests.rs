use zoho_mail_sync::maildir::{Flags, LocalEntry};
use zoho_mail_sync::strmap::StrMap;
use zoho_mail_sync::state::Meta;
use zoho_mail_sync::sync::{
    complete_remote_index, diff_local_remote, discover_account_id, flags_from_remote,
    folder_index, folder_table, merge_listings, record_folders, resolve_account_id,
    stale_folders, AccountError, FetchItem, LocalChange,
};
use zoho_mail_sync::zoho::folders::Folder;
use zoho_mail_sync::zoho::messages::RemoteMessage;

fn msg(id: &str, folder: &str, read: bool, important: bool) -> RemoteMessage {
    RemoteMessage { message_id: id.to_string(), folder_id: folder.to_string(), read, important }
}

fn folder(id: &str, name: &str) -> Folder {
    Folder { folder_id: id.to_string(), maildir_name: name.to_string() }
}

fn local(entries: &[(&str, &str, bool, bool)]) -> StrMap<LocalEntry> {
    let mut m = StrMap::new();
    for (id, dir, seen, flagged) in entries {
        m.insert(
            id.to_string(),
            LocalEntry { maildir_name: dir.to_string(), flags: Flags { seen: *seen, flagged: *flagged } },
        );
    }
    m
}

fn fetch_tuple(f: &FetchItem) -> (String, String, Flags) {
    (f.message_id.clone(), f.maildir_name.clone(), f.flags)
}

#[test]
fn remote_flags_become_maildir_flags() {
    assert_eq!(flags_from_remote(&msg("m", "f", true, false)), Flags { seen: true, flagged: false });
    assert_eq!(flags_from_remote(&msg("m", "f", false, true)), Flags { seen: false, flagged: true });
}

#[test]
fn str_map_keeps_first_position_and_last_value() {
    let mut m: StrMap<String> = StrMap::new();
    m.insert("a".to_string(), "1".to_string());
    m.insert("b".to_string(), "2".to_string());
    m.insert("a".to_string(), "3".to_string());
    assert_eq!(m.len(), 2);
    assert_eq!(m.get("a"), Some(&"3".to_string()));
    assert_eq!(m.get("b"), Some(&"2".to_string()));
    assert_eq!(m.get("c"), None);
    assert!(m.contains_key("b"));
    let (k, v) = m.entry_at(0);
    assert_eq!((k.as_str(), v.as_str()), ("a", "3"));
}

#[test]
fn merging_listings_last_folder_wins_and_errors_are_kept() {
    let results: Vec<Result<Vec<RemoteMessage>, String>> = vec![
        Ok(vec![msg("m1", "f1", false, false), msg("m2", "f1", true, false)]),
        Err("folder f2 failed".to_string()),
        Ok(vec![msg("m1", "f3", true, true)]),
    ];
    let (remote, errors) = merge_listings(results);
    assert_eq!(errors, vec!["folder f2 failed".to_string()]);
    assert_eq!(remote.len(), 2);
    assert_eq!(remote.get("m1").unwrap().folder_id, "f3");
    assert!(remote.get("m1").unwrap().important);
    assert_eq!(remote.get("m2").unwrap().folder_id, "f1");
}

#[test]
fn diff_fetches_moves_flags_and_deletes() {
    let folders = vec![folder("f1", ".Inbox"), folder("f2", ".Archive")];
    let index = folder_index(&folders);
    let (remote, _) = merge_listings::<String>(vec![Ok(vec![
        msg("new", "f1", true, false),
        msg("moved", "f2", true, true),
        msg("reflagged", "f1", true, false),
        msg("same", "f1", false, false),
        msg("unknown", "f9", false, false),
    ])]);
    let local = local(&[
        ("moved", ".Inbox", true, false),
        ("reflagged", ".Inbox", false, false),
        ("same", ".Inbox", false, false),
        ("gone", ".Archive", true, false),
        ("unknown", ".Old", false, true),
    ]);
    let (fetch, changes) = diff_local_remote(&remote, &local, &index);
    let fetch: Vec<_> = fetch.iter().map(fetch_tuple).collect();
    assert_eq!(fetch, vec![("new".to_string(), ".Inbox".to_string(), Flags { seen: true, flagged: false })]);
    assert_eq!(changes.len(), 3);
    match &changes[0] {
        LocalChange::Move { message_id, from, to, flags } => {
            assert_eq!((message_id.as_str(), from.as_str(), to.as_str()), ("moved", ".Inbox", ".Archive"));
            assert_eq!(*flags, Flags { seen: true, flagged: true });
        }
        other => panic!("unexpected {other:?}"),
    }
    match &changes[1] {
        LocalChange::SetFlags { message_id, maildir_name, flags } => {
            assert_eq!((message_id.as_str(), maildir_name.as_str()), ("reflagged", ".Inbox"));
            assert_eq!(*flags, Flags { seen: true, flagged: false });
        }
        other => panic!("unexpected {other:?}"),
    }
    match &changes[2] {
        LocalChange::Delete { message_id, maildir_name } => {
            assert_eq!((message_id.as_str(), maildir_name.as_str()), ("gone", ".Archive"));
        }
        other => panic!("unexpected {other:?}"),
    }
}

#[test]
fn diff_after_a_complete_sync_is_empty() {
    let folders = vec![folder("f1", ".Inbox"), folder("f2", ".Archive")];
    let index = folder_index(&folders);
    let (remote, _) = merge_listings::<String>(vec![Ok(vec![
        msg("a", "f1", true, false),
        msg("b", "f2", false, true),
    ])]);
    let mirrored = local(&[("a", ".Inbox", true, false), ("b", ".Archive", false, true)]);
    let (fetch, changes) = diff_local_remote(&remote, &mirrored, &index);
    assert!(fetch.is_empty());
    assert!(changes.is_empty());
}

#[test]
fn folder_index_later_folder_wins() {
    let index = folder_index(&vec![folder("f1", ".A"), folder("f1", ".B"), folder("f2", ".C")]);
    assert_eq!(index.get("f1"), Some(&".B".to_string()));
    assert_eq!(index.get("f2"), Some(&".C".to_string()));
    assert_eq!(index.len(), 2);
}

#[test]
fn stale_folders_are_local_folders_without_remote_folder() {
    let folders = vec![folder("f1", ".Inbox"), folder("f2", ".Sent")];
    let local: Vec<String> = [".Inbox", ".Old", ".Sent", ".Gone"].iter().map(|s| s.to_string()).collect();
    assert_eq!(stale_folders(&local, &folders), vec![".Old".to_string(), ".Gone".to_string()]);
    assert!(stale_folders(&Vec::new(), &folders).is_empty());
}

#[test]
fn account_resolution() {
    let ids = vec!["111".to_string(), "222".to_string()];
    let mut meta = Meta { account_id: Some("222".to_string()), folders: vec![folder("f1", ".Inbox")] };
    assert_eq!(resolve_account_id(&mut meta, &ids), Ok("222".to_string()));
    assert_eq!(meta.account_id, Some("222".to_string()));
    assert_eq!(meta.folders.len(), 1);

    let mut meta = Meta { account_id: Some("333".to_string()), folders: Vec::new() };
    assert_eq!(resolve_account_id(&mut meta, &ids), Err(AccountError::SavedAccountMissing));
    assert_eq!(meta.account_id, Some("333".to_string()));

    let mut meta = Meta::default();
    assert_eq!(resolve_account_id(&mut meta, &ids), Ok("111".to_string()));
    assert_eq!(meta.account_id, Some("111".to_string()));

    let mut meta = Meta::default();
    assert_eq!(resolve_account_id(&mut meta, &Vec::new()), Err(AccountError::NoAccounts));
    assert!(meta.account_id.is_none());

    assert_eq!(discover_account_id(&ids), Some("111".to_string()));
    assert_eq!(discover_account_id(&Vec::new()), None);
}

fn apply_plan(
    local: &StrMap<LocalEntry>,
    fetch: &[FetchItem],
    changes: &[LocalChange],
) -> std::collections::BTreeMap<String, (String, Flags)> {
    let mut m = std::collections::BTreeMap::new();
    for i in 0..local.len() {
        let (k, v) = local.entry_at(i);
        m.insert(k.clone(), (v.maildir_name.clone(), v.flags));
    }
    for c in changes {
        match c {
            LocalChange::Move { message_id, to, flags, .. } => {
                m.insert(message_id.clone(), (to.clone(), *flags));
            }
            LocalChange::SetFlags { message_id, maildir_name, flags } => {
                m.insert(message_id.clone(), (maildir_name.clone(), *flags));
            }
            LocalChange::Delete { message_id, .. } => {
                m.remove(message_id);
            }
        }
    }
    for f in fetch {
        m.insert(f.message_id.clone(), (f.maildir_name.clone(), f.flags));
    }
    m
}

#[test]
fn applying_the_plan_mirrors_the_remote_side() {
    let folders = vec![folder("f1", ".Inbox"), folder("f2", ".Archive")];
    let index = folder_index(&folders);
    let (remote, _) = merge_listings::<String>(vec![
        Ok(vec![msg("a", "f1", true, false), msg("b", "f2", false, true)]),
        Ok(vec![msg("c", "f1", false, false), msg("d", "f7", true, true)]),
    ]);
    let before = local(&[
        ("a", ".Archive", false, false),
        ("b", ".Archive", true, true),
        ("d", ".Old", false, false),
        ("x", ".Inbox", true, true),
    ]);
    let (fetch, changes) = diff_local_remote(&remote, &before, &index);
    let after = apply_plan(&before, &fetch, &changes);
    let expected: std::collections::BTreeMap<String, (String, Flags)> = [
        ("a", ".Inbox", Flags { seen: true, flagged: false }),
        ("b", ".Archive", Flags { seen: false, flagged: true }),
        ("c", ".Inbox", Flags { seen: false, flagged: false }),
        ("d", ".Old", Flags { seen: false, flagged: false }),
    ]
    .iter()
    .map(|(k, d, f)| (k.to_string(), (d.to_string(), *f)))
    .collect();
    assert_eq!(after, expected);
}

#[test]
fn a_message_deleted_locally_comes_back() {
    let folders = vec![folder("f1", ".Inbox")];
    let index = folder_index(&folders);
    let (remote, _) = merge_listings::<String>(vec![Ok(vec![
        msg("kept", "f1", true, false),
        msg("removed-locally", "f1", false, true),
    ])]);
    let l = local(&[("kept", ".Inbox", true, false)]);
    let (fetch, changes) = diff_local_remote(&remote, &l, &index);
    assert!(changes.is_empty());
    let fetch: Vec<_> = fetch.iter().map(fetch_tuple).collect();
    assert_eq!(
        fetch,
        vec![("removed-locally".to_string(), ".Inbox".to_string(), Flags { seen: false, flagged: true })]
    );
}

#[test]
fn remote_index_only_from_complete_listings() {
    let ok: Vec<Result<Vec<RemoteMessage>, String>> =
        vec![Ok(vec![msg("m1", "f1", false, false)]), Ok(vec![msg("m2", "f2", true, true)])];
    let remote = complete_remote_index(ok).ok().unwrap();
    assert_eq!(remote.len(), 2);
    let partial: Vec<Result<Vec<RemoteMessage>, String>> = vec![
        Ok(vec![msg("m1", "f1", false, false)]),
        Err("first".to_string()),
        Err("second".to_string()),
    ];
    assert_eq!(complete_remote_index(partial).err(), Some(vec!["first".to_string(), "second".to_string()]));
}

#[test]
fn meta_records_the_folder_table() {
    let folders = vec![folder("f1", ".Inbox"), folder("f2", ".Sent"), folder("f1", ".Inbox2")];
    let table = folder_table(&folders);
    let rows: Vec<(String, String)> =
        table.iter().map(|f| (f.folder_id.clone(), f.maildir_name.clone())).collect();
    assert_eq!(
        rows,
        vec![("f1".to_string(), ".Inbox2".to_string()), ("f2".to_string(), ".Sent".to_string())]
    );
    let mut meta = Meta { account_id: Some("acc".to_string()), folders: Vec::new() };
    record_folders(&mut meta, &folders);
    assert_eq!(meta.account_id, Some("acc".to_string()));
    assert_eq!(meta.folders.len(), 2);
    assert_eq!(meta.folders[0].maildir_name, ".Inbox2");
    assert_eq!(meta.folders[1].folder_id, "f2");
}
