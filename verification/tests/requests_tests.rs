use zoho_mail_sync::zoho::requests::{
    accounts_url, authorization_header, folders_url, messages_page_url, original_message_url,
    push_decimal,
};

#[test]
fn decimal_spelling_matches_std() {
    for n in [0u64, 1, 9, 10, 99, 100, 201, 4_294_967_295, u64::MAX] {
        let mut s = String::from("x");
        push_decimal(&mut s, n);
        assert_eq!(s, format!("x{n}"));
    }
}

#[test]
fn request_urls() {
    let base = "https://mail.zoho.com/api";
    assert_eq!(accounts_url(base), "https://mail.zoho.com/api/accounts");
    assert_eq!(folders_url(base, "123"), "https://mail.zoho.com/api/accounts/123/folders");
    assert_eq!(
        messages_page_url(base, "123", "456", 201, 200),
        "https://mail.zoho.com/api/accounts/123/messages/view?folderId=456&start=201&limit=200&sortBy=date&sortorder=false"
    );
    assert_eq!(
        original_message_url(base, "123", "789"),
        "https://mail.zoho.com/api/accounts/123/messages/789/originalmessage"
    );
    assert_eq!(authorization_header("tok"), "Zoho-oauthtoken tok");
}
