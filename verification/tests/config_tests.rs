use seedrelay::cli::Cli;
use seedrelay::config::{resolve_api_key, ConfigError, DEFAULT_HOST, DEFAULT_MODEL, DEFAULT_PORT};

#[test]
fn defaults_serve_seed_asr_on_loopback() {
    assert_eq!(DEFAULT_HOST, "127.0.0.1");
    assert_eq!(DEFAULT_PORT, 8000);
    assert_eq!(DEFAULT_MODEL, "seed-asr");
    let cli = Cli::default();
    assert_eq!(cli.host, "127.0.0.1");
    assert_eq!(cli.port, 8000);
    assert_eq!(cli.model, "seed-asr");
    assert!(cli.api_key.is_none());
    assert!(!cli.webui && !cli.reset);
}

#[test]
fn api_keys_are_trimmed_and_blank_ones_dropped() {
    assert_eq!(resolve_api_key(Some("  key ".to_string())), Some("key".to_string()));
    assert_eq!(resolve_api_key(Some("   ".to_string())), None);
    assert_eq!(resolve_api_key(None), None);
}

#[test]
fn public_bind_runs_without_an_api_key() {
    assert_eq!(resolve_api_key(Some(" ".to_string())), None);
    assert_eq!(resolve_api_key(Some("k".to_string())), Some("k".to_string()));
    assert_eq!(
        ConfigError::InvalidHost("x".to_string()).to_string(),
        "invalid host `x`"
    );
}
