//! The requests that the client sends: the Mail API URLs and the
//! authorization header.
use vstd::prelude::*;
use crate::text::{push_char, push_str, string_from};

verus! {

/// The ASCII digit of a number below ten.
pub open spec fn digit_char(d: nat) -> char {
    ((d + 48) as u8) as char
}

/// The decimal spelling of a number, without sign or leading zeros.
pub open spec fn decimal_spec(n: nat) -> Seq<char>
    decreases n,
{
    if n < 10 {
        seq![digit_char(n)]
    } else {
        decimal_spec(n / 10).push(digit_char(n % 10))
    }
}

/// Appends the decimal spelling of `n`.
pub fn push_decimal(s: &mut String, n: u64)
    ensures
        final(s)@ == old(s)@ + decimal_spec(n as nat),
    decreases n,
{
    if n >= 10 {
        push_decimal(s, n / 10);
    }
    let d: u8 = (n % 10) as u8;
    push_char(s, (d + 48) as char);
    assert(s@ =~= old(s)@ + decimal_spec(n as nat));
}

/// The URL of the list of accounts.
pub fn accounts_url(api_base: &str) -> (u: String)
    ensures
        u@ == api_base@ + "/accounts"@,
{
    let mut u = string_from(api_base);
    push_str(&mut u, "/accounts");
    u
}

/// The URL of an account's folders.
pub fn folders_url(api_base: &str, account_id: &str) -> (u: String)
    ensures
        u@ == api_base@ + "/accounts/"@ + account_id@ + "/folders"@,
{
    let mut u = string_from(api_base);
    push_str(&mut u, "/accounts/");
    push_str(&mut u, account_id);
    push_str(&mut u, "/folders");
    u
}

/// The URL of one page of a folder's message listing, newest first,
/// starting at position `start` and holding at most `limit` messages.
pub fn messages_page_url(
    api_base: &str,
    account_id: &str,
    folder_id: &str,
    start: u32,
    limit: u32,
) -> (u: String)
    ensures
        u@ == api_base@ + "/accounts/"@ + account_id@ + "/messages/view?folderId="@ + folder_id@
            + "&start="@ + decimal_spec(start as nat) + "&limit="@ + decimal_spec(limit as nat)
            + "&sortBy=date&sortorder=false"@,
{
    let mut u = string_from(api_base);
    push_str(&mut u, "/accounts/");
    push_str(&mut u, account_id);
    push_str(&mut u, "/messages/view?folderId=");
    push_str(&mut u, folder_id);
    push_str(&mut u, "&start=");
    push_decimal(&mut u, start as u64);
    push_str(&mut u, "&limit=");
    push_decimal(&mut u, limit as u64);
    push_str(&mut u, "&sortBy=date&sortorder=false");
    u
}

/// The URL of a message's raw RFC 822 source.
pub fn original_message_url(api_base: &str, account_id: &str, message_id: &str) -> (u: String)
    ensures
        u@ == api_base@ + "/accounts/"@ + account_id@ + "/messages/"@ + message_id@
            + "/originalmessage"@,
{
    let mut u = string_from(api_base);
    push_str(&mut u, "/accounts/");
    push_str(&mut u, account_id);
    push_str(&mut u, "/messages/");
    push_str(&mut u, message_id);
    push_str(&mut u, "/originalmessage");
    u
}

/// The value of the `Authorization` header for an access token.
pub fn authorization_header(access_token: &str) -> (h: String)
    ensures
        h@ == "Zoho-oauthtoken "@ + access_token@,
{
    let mut h = string_from("Zoho-oauthtoken ");
    push_str(&mut h, access_token);
    h
}

} // verus!
