use primer::config::{config_dir, config_path, get, join_v, parse_key, Config, ConfigError, ConfigKey};

#[test]
fn default_config_has_no_model() {
    let cfg = Config::default();
    assert!(cfg.ai.model.is_none());
    assert!(cfg.ai.tokenizer.is_none());
    assert!(cfg.ai.backend.is_none());
}

#[test]
fn get_unknown_key_errors() {
    assert!(get(&Config::default(), "unknown.key").is_err());
}

#[test]
fn set_backend_local_roundtrips() {
    let mut cfg = Config::default();
    primer::config::set(&mut cfg, "ai.backend", "local").unwrap();
    let v = get(&cfg, "ai.backend").unwrap();
    assert_eq!(v.as_deref(), Some("local"));
}

#[test]
fn set_backend_ollama_roundtrips() {
    let mut cfg = Config::default();
    primer::config::set(&mut cfg, "ai.backend", "ollama").unwrap();
    let v = get(&cfg, "ai.backend").unwrap();
    assert_eq!(v.as_deref(), Some("ollama"));
}

#[test]
fn set_invalid_backend_errors() {
    let mut cfg = Config::default();
    assert!(primer::config::set(&mut cfg, "ai.backend", "openai").is_err());
}

#[test]
fn set_model_path_roundtrips() {
    let mut cfg = Config::default();
    primer::config::set(&mut cfg, "ai.model", "/tmp/model.gguf").unwrap();
    let v = get(&cfg, "ai.model").unwrap();
    assert_eq!(v.as_deref(), Some("/tmp/model.gguf"));
}

#[test]
fn get_unset_key_returns_none() {
    let cfg = Config::default();
    let v = get(&cfg, "ai.backend").unwrap();
    assert!(v.is_none());
}

#[test]
fn set_unknown_key_errors() {
    let mut cfg = Config::default();
    assert!(primer::config::set(&mut cfg, "ai.unknown", "value").is_err());
}

// --- further cases ---

#[test]
fn failed_set_leaves_config_unchanged() {
    let mut cfg = Config::default();
    primer::config::set(&mut cfg, "ai.backend", "local").unwrap();
    let before = cfg.clone();
    assert_eq!(primer::config::set(&mut cfg, "ai.backend", "openai"), Err(ConfigError::InvalidBackend));
    assert_eq!(cfg, before);
    assert_eq!(primer::config::set(&mut cfg, "x", "y"), Err(ConfigError::UnknownKey("x".into())));
    assert_eq!(cfg, before);
}

#[test]
fn set_keeps_other_keys() {
    let mut cfg = Config::default();
    primer::config::set(&mut cfg, "ai.tokenizer", "/t.json").unwrap();
    primer::config::set(&mut cfg, "ai.model", "m").unwrap();
    assert_eq!(get(&cfg, "ai.tokenizer").unwrap().as_deref(), Some("/t.json"));
    assert_eq!(get(&cfg, "ai.backend").unwrap(), None);
}

#[test]
fn error_messages() {
    assert_eq!(
        ConfigError::UnknownKey("ai.x".into()).message(),
        "unknown config key 'ai.x'. Valid keys: ai.backend, ai.model, ai.tokenizer, intercept-restore"
    );
    assert_eq!(ConfigError::InvalidBackend.message(), "ai.backend must be 'local' or 'ollama'");
    assert_eq!(ConfigError::InvalidFlag.message(), "intercept-restore must be 'true' or 'false'");
}

#[test]
fn intercept_restore_defaults_to_false() {
    let cfg = Config::default();
    assert!(!cfg.intercept_restore);
    assert_eq!(get(&cfg, "intercept-restore").unwrap().as_deref(), Some("false"));
}

#[test]
fn set_intercept_restore_roundtrips() {
    let mut cfg = Config::default();
    primer::config::set(&mut cfg, "intercept-restore", "true").unwrap();
    assert!(cfg.intercept_restore);
    assert_eq!(get(&cfg, "intercept-restore").unwrap().as_deref(), Some("true"));
    assert_eq!(get(&cfg, "ai.model").unwrap(), None);
    primer::config::set(&mut cfg, "intercept-restore", "false").unwrap();
    assert!(!cfg.intercept_restore);
}

#[test]
fn set_intercept_restore_rejects_other_values() {
    let mut cfg = Config::default();
    assert_eq!(
        primer::config::set(&mut cfg, "intercept-restore", "yes"),
        Err(ConfigError::InvalidFlag)
    );
    assert!(!cfg.intercept_restore);
}

#[test]
fn keys_parse() {
    assert_eq!(parse_key("ai.model"), Some(ConfigKey::Model));
    assert_eq!(parse_key("ai.tokenizer"), Some(ConfigKey::Tokenizer));
    assert_eq!(parse_key("AI.MODEL"), None);
    assert_eq!(parse_key("intercept-restore"), Some(ConfigKey::InterceptRestore));
}

#[test]
fn config_paths() {
    assert_eq!(config_path(Some("/home/u")), "/home/u/.primer/config.toml");
    assert_eq!(config_path(Some("/home/u/")), "/home/u/.primer/config.toml");
    assert_eq!(config_path(None), "/tmp/.primer/config.toml");
    assert_eq!(config_dir(Some("")), ".primer");
    assert_eq!(join_v("a", "b"), "a/b");
}
