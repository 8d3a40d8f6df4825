//! `~/.primer/config.toml`: its location and the keys (`ai.backend`,
//! `ai.model`, `ai.tokenizer`, `intercept-restore`) that
//! `primer config get/set` read and write.  Reading and writing the file
//! itself happens outside this library.

use vstd::prelude::*;
use crate::text::{chars_of, eq_str, extend_v, opt_str_view, opt_view, to_string_v};

verus! {

/// The `[ai]` table of the configuration.
#[derive(Debug, Clone, PartialEq)]
pub struct AiConfig {
    /// Inference backend: "local" (GGUF file) or "ollama".
    pub backend: Option<String>,
    /// Local GGUF path (backend = "local") or Ollama model name (backend = "ollama").
    pub model: Option<String>,
    /// Path to tokenizer.json (local backend only).
    pub tokenizer: Option<String>,
}

/// The whole configuration file.
#[derive(Debug, Clone, PartialEq)]
pub struct Config {
    pub ai: AiConfig,
    /// Scan the manifest before bare restore commands (`npm install`,
    /// `go mod download`, ...) pass through.
    pub intercept_restore: bool,
}

/// The mathematical value of a `Config`.
pub struct ConfigView {
    pub backend: Option<Seq<char>>,
    pub model: Option<Seq<char>>,
    pub tokenizer: Option<Seq<char>>,
    pub intercept_restore: bool,
}

impl View for Config {
    type V = ConfigView;

    open spec fn view(&self) -> ConfigView {
        ConfigView {
            backend: opt_view(self.ai.backend),
            model: opt_view(self.ai.model),
            tokenizer: opt_view(self.ai.tokenizer),
            intercept_restore: self.intercept_restore,
        }
    }
}

impl Default for AiConfig {
    fn default() -> (r: AiConfig)
        ensures
            r.backend is None,
            r.model is None,
            r.tokenizer is None,
    {
        AiConfig { backend: None, model: None, tokenizer: None }
    }
}

/// The configuration when no file exists: nothing set, bare restore
/// commands not intercepted.
pub open spec fn default_view() -> ConfigView {
    ConfigView { backend: None, model: None, tokenizer: None, intercept_restore: false }
}

impl Default for Config {
    fn default() -> (r: Config)
        ensures
            r@ == default_view(),
    {
        Config { ai: AiConfig::default(), intercept_restore: false }
    }
}

/// A key that `primer config` accepts.
#[derive(Debug, PartialEq, Eq, Structural, Clone, Copy)]
pub enum ConfigKey {
    Backend,
    Model,
    Tokenizer,
    InterceptRestore,
}

/// Why a configuration key could not be read or written.
#[derive(Debug, PartialEq)]
pub enum ConfigError {
    /// The key is none of `ai.backend`, `ai.model`, `ai.tokenizer`,
    /// `intercept-restore`.
    UnknownKey(String),
    /// `ai.backend` was given a value other than `local` or `ollama`.
    InvalidBackend,
    /// `intercept-restore` was given a value other than `true` or `false`.
    InvalidFlag,
}

/// The key that the name `key` stands for.
pub open spec fn config_key(key: Seq<char>) -> Option<ConfigKey> {
    if key == "ai.backend"@ {
        Some(ConfigKey::Backend)
    } else if key == "ai.model"@ {
        Some(ConfigKey::Model)
    } else if key == "ai.tokenizer"@ {
        Some(ConfigKey::Tokenizer)
    } else if key == "intercept-restore"@ {
        Some(ConfigKey::InterceptRestore)
    } else {
        None
    }
}

/// How a flag reads back: `true` or `false`.
pub open spec fn flag_text(b: bool) -> Seq<char> {
    if b {
        "true"@
    } else {
        "false"@
    }
}

/// A value that a flag accepts.
pub open spec fn valid_flag(v: Seq<char>) -> bool {
    v == "true"@ || v == "false"@
}

/// The value of the field `k` of `c`.
pub open spec fn field(c: ConfigView, k: ConfigKey) -> Option<Seq<char>> {
    match k {
        ConfigKey::Backend => c.backend,
        ConfigKey::Model => c.model,
        ConfigKey::Tokenizer => c.tokenizer,
        ConfigKey::InterceptRestore => Some(flag_text(c.intercept_restore)),
    }
}

/// `c` with the field `k` set to `v`.
pub open spec fn with_field(c: ConfigView, k: ConfigKey, v: Seq<char>) -> ConfigView {
    match k {
        ConfigKey::Backend => ConfigView { backend: Some(v), ..c },
        ConfigKey::Model => ConfigView { model: Some(v), ..c },
        ConfigKey::Tokenizer => ConfigView { tokenizer: Some(v), ..c },
        ConfigKey::InterceptRestore => ConfigView { intercept_restore: v == "true"@, ..c },
    }
}

/// A value that `ai.backend` accepts.
pub open spec fn valid_backend(v: Seq<char>) -> bool {
    v == "local"@ || v == "ollama"@
}

/// What reading `key` from `c` gives: the field's value, or `None` (an
/// error) for an unknown key.
pub open spec fn get_spec(c: ConfigView, key: Seq<char>) -> Option<Option<Seq<char>>> {
    match config_key(key) {
        Some(k) => Some(field(c, k)),
        None => None,
    }
}

/// A value that the key `k` accepts.
pub open spec fn valid_value(k: ConfigKey, v: Seq<char>) -> bool {
    match k {
        ConfigKey::Backend => valid_backend(v),
        ConfigKey::InterceptRestore => valid_flag(v),
        _ => true,
    }
}

/// What writing `value` under `key` makes of `c`: `None` (an error, `c`
/// unchanged) for an unknown key, a backend other than `local` and
/// `ollama`, or a flag other than `true` and `false`.
pub open spec fn set_spec(c: ConfigView, key: Seq<char>, value: Seq<char>) -> Option<ConfigView> {
    match config_key(key) {
        Some(k) => if valid_value(k, value) {
            Some(with_field(c, k, value))
        } else {
            None
        },
        None => None,
    }
}

/// The key that the name `key` stands for.
pub fn parse_key(key: &str) -> (r: Option<ConfigKey>)
    ensures
        r == config_key(key@),
{
    let k = chars_of(key);
    if eq_str(&k, "ai.backend") {
        Some(ConfigKey::Backend)
    } else if eq_str(&k, "ai.model") {
        Some(ConfigKey::Model)
    } else if eq_str(&k, "ai.tokenizer") {
        Some(ConfigKey::Tokenizer)
    } else if eq_str(&k, "intercept-restore") {
        Some(ConfigKey::InterceptRestore)
    } else {
        None
    }
}

fn clone_opt(o: &Option<String>) -> (r: Option<String>)
    ensures
        opt_view(r) == opt_view(*o),
{
    match o {
        Some(s) => Some(s.clone()),
        None => None,
    }
}

fn flag_string(b: bool) -> (r: String)
    ensures
        r@ == flag_text(b),
{
    if b {
        String::from_str("true")
    } else {
        String::from_str("false")
    }
}

/// Reads the value under `key`.
pub fn get(cfg: &Config, key: &str) -> (r: Result<Option<String>, ConfigError>)
    ensures
        match r {
            Ok(v) => get_spec(cfg@, key@) == Some(opt_view(v)),
            Err(e) => get_spec(cfg@, key@) is None && (e matches ConfigError::UnknownKey(k)
                && k@ == key@),
        },
{
    match parse_key(key) {
        Some(ConfigKey::Backend) => Ok(clone_opt(&cfg.ai.backend)),
        Some(ConfigKey::Model) => Ok(clone_opt(&cfg.ai.model)),
        Some(ConfigKey::Tokenizer) => Ok(clone_opt(&cfg.ai.tokenizer)),
        Some(ConfigKey::InterceptRestore) => Ok(Some(flag_string(cfg.intercept_restore))),
        None => Err(ConfigError::UnknownKey(String::from_str(key))),
    }
}

/// Writes `value` under `key`; on an error `cfg` is left as it was.
pub fn set(cfg: &mut Config, key: &str, value: &str) -> (r: Result<(), ConfigError>)
    ensures
        match r {
            Ok(()) => set_spec(old(cfg)@, key@, value@) == Some(final(cfg)@),
            Err(e) => {
                &&& set_spec(old(cfg)@, key@, value@) is None
                &&& final(cfg)@ == old(cfg)@
                &&& (e matches ConfigError::UnknownKey(k) ==> k@ == key@)
                &&& (e is UnknownKey <==> config_key(key@) is None)
            },
        },
{
    match parse_key(key) {
        Some(ConfigKey::Backend) => {
            let v = chars_of(value);
            if !eq_str(&v, "local") && !eq_str(&v, "ollama") {
                return Err(ConfigError::InvalidBackend);
            }
            cfg.ai.backend = Some(String::from_str(value));
        },
        Some(ConfigKey::Model) => {
            cfg.ai.model = Some(String::from_str(value));
        },
        Some(ConfigKey::Tokenizer) => {
            cfg.ai.tokenizer = Some(String::from_str(value));
        },
        Some(ConfigKey::InterceptRestore) => {
            let v = chars_of(value);
            if eq_str(&v, "true") {
                cfg.intercept_restore = true;
            } else if eq_str(&v, "false") {
                cfg.intercept_restore = false;
            } else {
                return Err(ConfigError::InvalidFlag);
            }
        },
        None => {
            return Err(ConfigError::UnknownKey(String::from_str(key)));
        },
    }
    Ok(())
}

impl ConfigError {
    /// The message that explains the error.
    pub fn message(&self) -> (r: String)
        ensures
            r@ == match self {
                ConfigError::UnknownKey(k) => "unknown config key '"@ + k@
                    + "'. Valid keys: ai.backend, ai.model, ai.tokenizer, intercept-restore"@,
                ConfigError::InvalidBackend => "ai.backend must be 'local' or 'ollama'"@,
                ConfigError::InvalidFlag => "intercept-restore must be 'true' or 'false'"@,
            },
    {
        match self {
            ConfigError::UnknownKey(k) => {
                let mut s = String::from_str("unknown config key '");
                s.append(k.as_str());
                s.append("'. Valid keys: ai.backend, ai.model, ai.tokenizer, intercept-restore");
                s
            },
            ConfigError::InvalidBackend => String::from_str("ai.backend must be 'local' or 'ollama'"),
            ConfigError::InvalidFlag => String::from_str("intercept-restore must be 'true' or 'false'"),
        }
    }
}

/// Reading a key right after a successful write of it gives the written
/// value.
pub proof fn law_get_after_set(c: ConfigView, key: Seq<char>, value: Seq<char>)
    requires
        set_spec(c, key, value) is Some,
    ensures
        get_spec(set_spec(c, key, value)->0, key) == Some(Some(value)),
{
}

/// A write of one key leaves every other key as it was.
pub proof fn law_set_keeps_other_keys(
    c: ConfigView,
    key: Seq<char>,
    value: Seq<char>,
    other: Seq<char>,
)
    requires
        set_spec(c, key, value) is Some,
        config_key(other) != config_key(key),
    ensures
        get_spec(set_spec(c, key, value)->0, other) == get_spec(c, other),
{
}

/// A write succeeds exactly on a known key, for `ai.backend` only with
/// `local` or `ollama`, and for `intercept-restore` only with `true` or
/// `false`.
pub proof fn law_set_succeeds_iff_valid(c: ConfigView, key: Seq<char>, value: Seq<char>)
    ensures
        set_spec(c, key, value) is Some <==> (config_key(key) is Some && (config_key(key)
            == Some(ConfigKey::Backend) ==> valid_backend(value)) && (config_key(key) == Some(
            ConfigKey::InterceptRestore,
        ) ==> valid_flag(value))),
{
}

/// In the default configuration every `ai.*` key reads as unset and
/// `intercept-restore` reads `false`.
pub proof fn law_default_unset(key: Seq<char>)
    requires
        config_key(key) is Some,
    ensures
        config_key(key) != Some(ConfigKey::InterceptRestore) ==> get_spec(default_view(), key)
            == Some(None::<Seq<char>>),
        config_key(key) == Some(ConfigKey::InterceptRestore) ==> get_spec(default_view(), key)
            == Some(Some("false"@)),
{
}

/// Each key writes its own field: `ai.model` and `ai.tokenizer` take any
/// value, `ai.backend` takes `local` or `ollama`, `intercept-restore`
/// takes `true` or `false` (and stores the flag); nothing else changes.
/// Reading gives back the field, the flag as `true` or `false`.
pub proof fn law_keys_write_their_fields(c: ConfigView, v: Seq<char>)
    ensures
        set_spec(c, "ai.model"@, v) == Some(ConfigView { model: Some(v), ..c }),
        set_spec(c, "ai.tokenizer"@, v) == Some(ConfigView { tokenizer: Some(v), ..c }),
        (v == "local"@ || v == "ollama"@) ==> set_spec(c, "ai.backend"@, v) == Some(
            ConfigView { backend: Some(v), ..c },
        ),
        !(v == "local"@ || v == "ollama"@) ==> set_spec(c, "ai.backend"@, v) is None,
        set_spec(c, "intercept-restore"@, "true"@) == Some(
            ConfigView { intercept_restore: true, ..c },
        ),
        set_spec(c, "intercept-restore"@, "false"@) == Some(
            ConfigView { intercept_restore: false, ..c },
        ),
        !(v == "true"@ || v == "false"@) ==> set_spec(c, "intercept-restore"@, v) is None,
        get_spec(c, "ai.model"@) == Some(c.model),
        get_spec(c, "ai.tokenizer"@) == Some(c.tokenizer),
        get_spec(c, "ai.backend"@) == Some(c.backend),
        get_spec(c, "intercept-restore"@) == Some(
            Some(
                if c.intercept_restore {
                    "true"@
                } else {
                    "false"@
                },
            ),
        ),
{
    reveal_strlit("ai.backend");
    reveal_strlit("ai.model");
    reveal_strlit("ai.tokenizer");
    reveal_strlit("intercept-restore");
    reveal_strlit("true");
    reveal_strlit("false");
    assert("ai.model"@[3] != "ai.backend"@[3]);
    assert("ai.tokenizer"@.len() != "ai.backend"@.len());
    assert("ai.tokenizer"@.len() != "ai.model"@.len());
    assert("intercept-restore"@.len() != "ai.backend"@.len());
    assert("intercept-restore"@.len() != "ai.model"@.len());
    assert("intercept-restore"@.len() != "ai.tokenizer"@.len());
    assert("true"@.len() != "false"@.len());
}

// ---------------------------------------------------------------------------
// Paths
// ---------------------------------------------------------------------------

/// `base` extended by the relative component `comp`, as `PathBuf::push`:
/// a `/` goes between them unless `base` is empty or already ends in one.
pub open spec fn join(base: Seq<char>, comp: Seq<char>) -> Seq<char> {
    if base.len() == 0 || base.last() == '/' {
        base + comp
    } else {
        base + seq!['/'] + comp
    }
}

/// `base` extended by the relative component `comp`.
pub fn join_v(base: &str, comp: &str) -> (r: String)
    ensures
        r@ == join(base@, comp@),
{
    let mut v = chars_of(base);
    if !(v.len() == 0 || v[v.len() - 1] == '/') {
        v.push('/');
    }
    extend_v(&mut v, &chars_of(comp));
    to_string_v(&v)
}

/// The home directory, `/tmp` when it is unknown.
pub open spec fn home_or_tmp(home: Option<Seq<char>>) -> Seq<char> {
    match home {
        Some(h) => h,
        None => "/tmp"@,
    }
}

/// `~/.primer`, for the home directory `home` (`/tmp` when unknown).
pub fn config_dir(home: Option<&str>) -> (r: String)
    ensures
        r@ == join(home_or_tmp(opt_str_view(home)), ".primer"@),
{
    match home {
        Some(h) => join_v(h, ".primer"),
        None => join_v("/tmp", ".primer"),
    }
}

/// `~/.primer/config.toml`, for the home directory `home` (`/tmp` when
/// unknown).
pub fn config_path(home: Option<&str>) -> (r: String)
    ensures
        r@ == join(join(home_or_tmp(opt_str_view(home)), ".primer"@), "config.toml"@),
{
    let dir = config_dir(home);
    join_v(dir.as_str(), "config.toml")
}

} // verus!
