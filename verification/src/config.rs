//! Configuration: the tunables with their defaults, and the resolution of the
//! file's settings, the environment's credentials and the command line into
//! the settings that a run uses.
use vstd::prelude::*;
use crate::maildir::{state_dir_name, state_dir_name_spec};
use crate::text::{concatenate, path_join, path_join_spec, string_from, trim_end_char, trim_end_spec};

verus! {

/// Parallelism, rate limiting, retries and paging.
#[derive(Clone, Copy, Debug)]
pub struct Concurrency {
    pub max_concurrent_requests: usize,
    pub num_folders_to_process_concurrently: usize,
    pub rate_limit_rps: u32,
    pub max_retries: u32,
    pub base_backoff_ms: u64,
    pub message_list_page_size: u32,
}

/// Default OAuth host.
pub fn default_accounts_url() -> (s: String)
    ensures
        s@ == "https://accounts.zoho.com"@,
{
    string_from("https://accounts.zoho.com")
}

/// Default Mail API host.
pub fn default_api_url() -> (s: String)
    ensures
        s@ == "https://mail.zoho.com"@,
{
    string_from("https://mail.zoho.com")
}

/// Default number of HTTP requests in flight at once.
pub fn default_max_concurrent_requests() -> (n: usize)
    ensures
        n == 8,
{
    8
}

/// Default number of folders enumerated at once.
pub fn default_num_folders_to_process_concurrently() -> (n: usize)
    ensures
        n == 100,
{
    100
}

/// Default request rate, per second.
pub fn default_rate_limit_rps() -> (n: u32)
    ensures
        n == 10,
{
    10
}

/// Default number of retries of a failed request.
pub fn default_max_retries() -> (n: u32)
    ensures
        n == 2,
{
    2
}

/// Default base of the exponential backoff, in milliseconds.
pub fn default_base_backoff_ms() -> (n: u64)
    ensures
        n == 250,
{
    250
}

/// Default number of messages asked for per page of a folder listing.
pub fn default_message_list_page_size() -> (n: u32)
    ensures
        n == 200,
{
    200
}

impl Default for Concurrency {
    fn default() -> (c: Self)
        ensures
            c.max_concurrent_requests == 8,
            c.num_folders_to_process_concurrently == 100,
            c.rate_limit_rps == 10,
            c.max_retries == 2,
            c.base_backoff_ms == 250,
            c.message_list_page_size == 200,
    {
        Concurrency {
            max_concurrent_requests: default_max_concurrent_requests(),
            num_folders_to_process_concurrently: default_num_folders_to_process_concurrently(),
            rate_limit_rps: default_rate_limit_rps(),
            max_retries: default_max_retries(),
            base_backoff_ms: default_base_backoff_ms(),
            message_list_page_size: default_message_list_page_size(),
        }
    }
}

impl Concurrency {
    /// Requests allowed in flight at once; a setting of 0 counts as 1.
    pub fn effective_max_concurrent(&self) -> (n: usize)
        ensures
            n == if self.max_concurrent_requests == 0 { 1 } else { self.max_concurrent_requests },
    {
        if self.max_concurrent_requests == 0 { 1 } else { self.max_concurrent_requests }
    }

    /// Folders enumerated at once; a setting of 0 counts as 1.
    pub fn effective_folder_parallelism(&self) -> (n: usize)
        ensures
            n == if self.num_folders_to_process_concurrently == 0 {
                1
            } else {
                self.num_folders_to_process_concurrently
            },
    {
        if self.num_folders_to_process_concurrently == 0 {
            1
        } else {
            self.num_folders_to_process_concurrently
        }
    }

    /// Requests per second; a setting of 0 counts as 1.
    pub fn effective_rate_limit_rps(&self) -> (n: u32)
        ensures
            n == if self.rate_limit_rps == 0 { 1 } else { self.rate_limit_rps },
    {
        if self.rate_limit_rps == 0 { 1 } else { self.rate_limit_rps }
    }

    /// Messages per listing page; a setting of 0 counts as 1.
    pub fn effective_page_limit(&self) -> (n: u32)
        ensures
            n == if self.message_list_page_size == 0 { 1 } else { self.message_list_page_size },
    {
        if self.message_list_page_size == 0 { 1 } else { self.message_list_page_size }
    }
}

/// The settings of the configuration file; every field is optional there.
#[derive(Clone, Debug)]
pub struct Config {
    pub data_dir: Option<String>,
    pub accounts_url: String,
    pub api_url: String,
    pub concurrency: Concurrency,
}

impl Default for Config {
    /// The settings of an empty (or absent) configuration file.
    fn default() -> (c: Self)
        ensures
            c.data_dir is None,
            c.accounts_url@ == "https://accounts.zoho.com"@,
            c.api_url@ == "https://mail.zoho.com"@,
            c.concurrency.max_concurrent_requests == 8,
            c.concurrency.num_folders_to_process_concurrently == 100,
            c.concurrency.rate_limit_rps == 10,
            c.concurrency.max_retries == 2,
            c.concurrency.base_backoff_ms == 250,
            c.concurrency.message_list_page_size == 200,
    {
        Config {
            data_dir: None,
            accounts_url: default_accounts_url(),
            api_url: default_api_url(),
            concurrency: Concurrency::default(),
        }
    }
}

/// The settings of a run.
#[derive(Clone, Debug)]
pub struct ResolvedConfig {
    pub client_id: String,
    pub client_secret: String,
    pub data_dir: String,
    pub accounts_url: String,
    pub api_url: String,
    pub concurrency: Concurrency,
}

impl ResolvedConfig {
    /// The OAuth token endpoint.
    pub fn token_url(&self) -> (s: String)
        ensures
            s@ == self.accounts_url@ + "/oauth/v2/token"@,
    {
        concatenate(self.accounts_url.as_str(), "/oauth/v2/token")
    }

    /// The base of the Mail API.
    pub fn api_base(&self) -> (s: String)
        ensures
            s@ == self.api_url@ + "/api"@,
    {
        concatenate(self.api_url.as_str(), "/api")
    }

    /// The directory, inside the data directory, that holds tokens and
    /// metadata.
    pub fn state_dir(&self) -> (s: String)
        ensures
            s@ == path_join_spec(self.data_dir@, state_dir_name_spec()),
    {
        path_join(self.data_dir.as_str(), state_dir_name())
    }
}

/// Which data directory a run uses, where one is given: the command line's
/// over the configuration file's. `None` means the current directory.
pub fn choose_data_dir(override_dir: Option<String>, configured: Option<String>) -> (d: Option<String>)
    ensures
        d == match override_dir {
            Some(o) => Some(o),
            None => configured,
        },
{
    match override_dir {
        Some(o) => Some(o),
        None => configured,
    }
}

/// The settings of a run, from the file's settings, the credentials and the
/// data directory chosen; the two URLs lose any trailing `/`.
pub fn resolve_config(cfg: Config, client_id: String, client_secret: String, data_dir: String) -> (r:
    ResolvedConfig)
    ensures
        r.client_id == client_id,
        r.client_secret == client_secret,
        r.data_dir == data_dir,
        r.accounts_url@ == trim_end_spec(cfg.accounts_url@, '/'),
        r.api_url@ == trim_end_spec(cfg.api_url@, '/'),
        r.concurrency == cfg.concurrency,
{
    let accounts_url = trim_end_char(cfg.accounts_url.as_str(), '/');
    let api_url = trim_end_char(cfg.api_url.as_str(), '/');
    ResolvedConfig {
        client_id,
        client_secret,
        data_dir,
        accounts_url,
        api_url,
        concurrency: cfg.concurrency,
    }
}

/// Why a required environment variable was refused.
#[derive(Clone, Copy, Debug, PartialEq, Eq, Structural)]
pub enum EnvError {
    /// The variable is absent (or not valid Unicode).
    NotSet,
    /// The variable is present but empty.
    Empty,
}

/// Accepts the value of a required environment variable (`None` when it is
/// not set) only when it is set and non-empty.
pub fn require_env_value(value: Option<String>) -> (r: Result<String, EnvError>)
    ensures
        match value {
            None => r == Err::<String, EnvError>(EnvError::NotSet),
            Some(v) => if v@.len() == 0 {
                r == Err::<String, EnvError>(EnvError::Empty)
            } else {
                r == Ok::<String, EnvError>(v)
            },
        },
{
    match value {
        None => Err(EnvError::NotSet),
        Some(v) => {
            if v.as_str().is_empty() {
                Err(EnvError::Empty)
            } else {
                Ok(v)
            }
        },
    }
}

} // verus!
