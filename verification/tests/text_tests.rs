use zoho_mail_sync::text::{chars_of, concatenate, contains_char, path_join, str_eq, trim_end_char};

#[test]
fn chars_and_concat() {
    assert_eq!(chars_of("aé✓"), vec!['a', 'é', '✓']);
    assert_eq!(concatenate("ab", "cd"), "abcd");
    assert_eq!(concatenate("", ""), "");
}

#[test]
fn contains_and_equality() {
    assert!(contains_char("RST", 'S'));
    assert!(!contains_char("RT", 'S'));
    assert!(str_eq("abc", "abc"));
    assert!(!str_eq("abc", "abd"));
    assert!(!str_eq("abc", "ab"));
}

#[test]
fn trim_end_matches_slashes() {
    assert_eq!(trim_end_char("https://accounts.zoho.eu///", '/'), "https://accounts.zoho.eu");
    assert_eq!(trim_end_char("https://mail.zoho.com", '/'), "https://mail.zoho.com");
    assert_eq!(trim_end_char("///", '/'), "");
    assert_eq!(trim_end_char("a/b/", '/'), "a/b");
    for s in ["", "/", "x//", "/x/y/"] {
        assert_eq!(trim_end_char(s, '/'), s.trim_end_matches('/'));
    }
}

#[test]
fn path_join_matches_std_on_unix() {
    let cases = [
        ("/home/u/Mail", ".Inbox"),
        ("/home/u/Mail/", ".Inbox"),
        ("", ".zoho-mail-sync"),
        ("rel", "tokens.json"),
        ("/base", "/abs"),
    ];
    for (base, name) in cases {
        let expected = std::path::Path::new(base).join(name);
        assert_eq!(path_join(base, name), expected.to_str().unwrap());
    }
}
