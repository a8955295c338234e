//! The state kept between runs: the refresh token, the account id and the
//! folder id to Maildir name table, and where they are stored.
use vstd::prelude::*;
use crate::text::{path_join, path_join_spec};
use crate::zoho::folders::Folder;

verus! {

/// The long-lived OAuth credential.
#[derive(Clone, Debug)]
pub struct Tokens {
    pub refresh_token: String,
}

/// What a run remembers of the account: its id, and each remote folder's
/// id with the Maildir folder that mirrors it.
#[derive(Clone, Debug)]
pub struct Meta {
    pub account_id: Option<String>,
    pub folders: Vec<Folder>,
}

impl Default for Meta {
    fn default() -> (m: Self)
        ensures
            m.account_id is None,
            m.folders@.len() == 0,
    {
        Meta { account_id: None, folders: Vec::new() }
    }
}

/// Where the tokens are stored, inside the state directory.
pub fn tokens_path(state_dir: &str) -> (p: String)
    ensures
        p@ == path_join_spec(state_dir@, "tokens.json"@),
{
    path_join(state_dir, "tokens.json")
}

/// Where the account metadata is stored, inside the state directory.
pub fn meta_path(state_dir: &str) -> (p: String)
    ensures
        p@ == path_join_spec(state_dir@, "meta.json"@),
{
    path_join(state_dir, "meta.json")
}

} // verus!
