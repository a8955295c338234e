//! The verified core of a one-way mirror of a Zoho Mail account into a
//! local Maildir: configuration, Maildir naming and flags, the folder naming
//! scheme, the decisions of the HTTP client, and the comparison of the remote
//! account with the local Maildir, together with what a sync achieves.
pub mod config;
pub mod maildir;
pub mod oauth;
pub mod state;
pub mod strmap;
pub mod sync;
pub mod sync_laws;
pub mod text;
pub mod zoho;
