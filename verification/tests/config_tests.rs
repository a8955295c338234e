use zoho_mail_sync::config::{
    choose_data_dir, default_accounts_url, default_api_url, default_base_backoff_ms,
    default_max_concurrent_requests, default_max_retries, default_message_list_page_size,
    default_num_folders_to_process_concurrently, default_rate_limit_rps, require_env_value,
    resolve_config, Concurrency, Config, EnvError, ResolvedConfig,
};

fn sample() -> ResolvedConfig {
    ResolvedConfig {
        client_id: "id".to_string(),
        client_secret: "secret".to_string(),
        data_dir: "/home/u/Mail".to_string(),
        accounts_url: "https://accounts.zoho.eu".to_string(),
        api_url: "https://mail.zoho.eu".to_string(),
        concurrency: Concurrency::default(),
    }
}

#[test]
fn defaults_match_the_documented_values() {
    assert_eq!(default_accounts_url(), "https://accounts.zoho.com");
    assert_eq!(default_api_url(), "https://mail.zoho.com");
    assert_eq!(default_max_concurrent_requests(), 8);
    assert_eq!(default_num_folders_to_process_concurrently(), 100);
    assert_eq!(default_rate_limit_rps(), 10);
    assert_eq!(default_max_retries(), 2);
    assert_eq!(default_base_backoff_ms(), 250);
    assert_eq!(default_message_list_page_size(), 200);
    let c = Config::default();
    assert!(c.data_dir.is_none());
    assert_eq!(c.accounts_url, "https://accounts.zoho.com");
    assert_eq!(c.api_url, "https://mail.zoho.com");
    assert_eq!(c.concurrency.max_concurrent_requests, 8);
    assert_eq!(c.concurrency.message_list_page_size, 200);
}

#[test]
fn endpoints_and_state_dir() {
    let cfg = sample();
    assert_eq!(cfg.token_url(), "https://accounts.zoho.eu/oauth/v2/token");
    assert_eq!(cfg.api_base(), "https://mail.zoho.eu/api");
    assert_eq!(cfg.state_dir(), "/home/u/Mail/.zoho-mail-sync");
}

#[test]
fn resolve_trims_trailing_slashes() {
    let mut c = Config::default();
    c.accounts_url = "https://accounts.zoho.in/".to_string();
    c.api_url = "https://mail.zoho.in//".to_string();
    c.concurrency.max_retries = 5;
    let r = resolve_config(c, "cid".to_string(), "cs".to_string(), "/data".to_string());
    assert_eq!(r.accounts_url, "https://accounts.zoho.in");
    assert_eq!(r.api_url, "https://mail.zoho.in");
    assert_eq!(r.client_id, "cid");
    assert_eq!(r.client_secret, "cs");
    assert_eq!(r.data_dir, "/data");
    assert_eq!(r.concurrency.max_retries, 5);
    assert_eq!(r.token_url(), "https://accounts.zoho.in/oauth/v2/token");
}

#[test]
fn data_dir_precedence() {
    assert_eq!(
        choose_data_dir(Some("/cli".to_string()), Some("/file".to_string())),
        Some("/cli".to_string())
    );
    assert_eq!(choose_data_dir(None, Some("/file".to_string())), Some("/file".to_string()));
    assert_eq!(choose_data_dir(None, None), None);
}

#[test]
fn required_environment_values() {
    assert_eq!(require_env_value(None), Err(EnvError::NotSet));
    assert_eq!(require_env_value(Some(String::new())), Err(EnvError::Empty));
    assert_eq!(require_env_value(Some("1000.ABC".to_string())), Ok("1000.ABC".to_string()));
}

#[test]
fn zero_settings_count_as_one() {
    let mut c = Concurrency::default();
    assert_eq!(c.effective_max_concurrent(), 8);
    assert_eq!(c.effective_rate_limit_rps(), 10);
    assert_eq!(c.effective_page_limit(), 200);
    assert_eq!(c.effective_folder_parallelism(), 100);
    c.max_concurrent_requests = 0;
    c.rate_limit_rps = 0;
    c.message_list_page_size = 0;
    c.num_folders_to_process_concurrently = 0;
    assert_eq!(c.effective_max_concurrent(), 1);
    assert_eq!(c.effective_rate_limit_rps(), 1);
    assert_eq!(c.effective_page_limit(), 1);
    assert_eq!(c.effective_folder_parallelism(), 1);
}
