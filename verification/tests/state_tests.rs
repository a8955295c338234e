use zoho_mail_sync::state::{meta_path, tokens_path, Meta};

#[test]
fn state_file_paths() {
    assert_eq!(tokens_path("/home/u/Mail/.zoho-mail-sync"), "/home/u/Mail/.zoho-mail-sync/tokens.json");
    assert_eq!(meta_path("/home/u/Mail/.zoho-mail-sync/"), "/home/u/Mail/.zoho-mail-sync/meta.json");
    assert!(Meta::default().account_id.is_none());
    assert!(Meta::default().folders.is_empty());
}
