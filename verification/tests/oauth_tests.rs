use zoho_mail_sync::oauth::{
    grant_refresh_token, is_success_status, is_whitespace, normalize_grant_code,
    refreshed_access_token, trim, GrantCodeError, TokenError, TokenResponse,
};

fn resp(access: Option<&str>, refresh: Option<&str>, error: Option<&str>) -> TokenResponse {
    TokenResponse {
        access_token: access.map(|s| s.to_string()),
        refresh_token: refresh.map(|s| s.to_string()),
        error: error.map(|s| s.to_string()),
    }
}

#[test]
fn whitespace_matches_std() {
    for u in 0u32..0x11_0000 {
        if let Some(c) = char::from_u32(u) {
            assert_eq!(is_whitespace(c), c.is_whitespace(), "at U+{u:04X}");
        }
    }
}

#[test]
fn trim_matches_std() {
    for s in ["", "   ", " code ", "\tcode\n", "\u{3000}x y\u{a0}", "abc", "a", " a b "] {
        assert_eq!(trim(s), s.trim());
    }
}

#[test]
fn grant_codes() {
    assert_eq!(normalize_grant_code("  1000.abc \n"), Ok("1000.abc".to_string()));
    assert_eq!(normalize_grant_code(" \t\n"), Err(GrantCodeError::Empty));
    assert_eq!(normalize_grant_code(""), Err(GrantCodeError::Empty));
}

#[test]
fn success_statuses() {
    assert!(is_success_status(200));
    assert!(is_success_status(299));
    assert!(!is_success_status(199));
    assert!(!is_success_status(300));
    assert!(!is_success_status(400));
}

#[test]
fn code_exchange_answers() {
    assert_eq!(grant_refresh_token(resp(Some("a"), Some("r"), None)).ok(), Some("r".to_string()));
    assert!(matches!(
        grant_refresh_token(resp(Some("a"), Some("r"), Some("invalid_code"))),
        Err(TokenError::OAuth(e)) if e == "invalid_code"
    ));
    assert!(matches!(
        grant_refresh_token(resp(Some("a"), None, None)),
        Err(TokenError::MissingRefreshToken)
    ));
    assert!(matches!(
        grant_refresh_token(resp(None, Some("r"), None)),
        Err(TokenError::MissingAccessToken)
    ));
    assert!(matches!(
        grant_refresh_token(resp(None, None, None)),
        Err(TokenError::MissingRefreshToken)
    ));
}

#[test]
fn refresh_answers() {
    assert_eq!(refreshed_access_token(resp(Some("a"), None, None)).ok(), Some("a".to_string()));
    assert!(matches!(
        refreshed_access_token(resp(Some("a"), None, Some("invalid_client"))),
        Err(TokenError::OAuth(e)) if e == "invalid_client"
    ));
    assert!(matches!(
        refreshed_access_token(resp(None, Some("r"), None)),
        Err(TokenError::MissingAccessToken)
    ));
}
