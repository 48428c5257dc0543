//! The agent's configuration: general settings, model providers and models,
//! and where the configuration and the logs live in a workspace.
use std::collections::HashMap;
use vstd::prelude::*;

verus! {

/// The configuration written to a workspace that has none yet.
pub const DEFAULT_CONFIG_TOML: &'static str = "[general]
auto_compact = true

[providers.openai]
api_base = \"https://api.openai.com/v1\"
api_key_env = \"OPENAI_API_KEY\"

[providers.cerebras]
api_base = \"http://127.0.0.1:4000/v1\"
api_key_env = \"OPENAI_API_KEY\"

[models.\"gpt-4o\"]
provider = \"openai\"
context_window = 128000
compact_threshold = 100000

[models.\"cerebras/qwen-3-235b-a22b-instruct-2507\"]
provider = \"cerebras\"
context_window = 8192
compact_threshold = 6000";

/// The whole configuration.
#[derive(Debug, Clone)]
pub struct AppConfig {
    pub general: GeneralConfig,
    pub providers: HashMap<String, ProviderConfig>,
    pub models: HashMap<String, ModelConfig>,
}

/// Settings that hold for every model.
#[derive(Debug, Clone)]
pub struct GeneralConfig {
    /// Whether old history is summarised once it grows too long.
    pub auto_compact: bool,
}

impl Default for GeneralConfig {
    fn default() -> (config: Self)
        ensures
            config.auto_compact == true,
    {
        GeneralConfig { auto_compact: default_auto_compact() }
    }
}

/// Automatic compaction is on unless the configuration turns it off.
pub fn default_auto_compact() -> (on: bool)
    ensures
        on == true,
{
    true
}

/// Where a provider's API lives and which environment variable holds its key.
#[derive(Debug, Clone)]
pub struct ProviderConfig {
    pub api_base: String,
    pub api_key_env: String,
}

/// A model, the provider that serves it, and its context limits in tokens.
#[derive(Debug, Clone)]
pub struct ModelConfig {
    pub provider: String,
    pub context_window: usize,
    pub compact_threshold: usize,
}

/// The path that std's `Path::join` gives for `component` under `base`,
/// as text.
pub uninterp spec fn joined_path(base: Seq<char>, component: Seq<char>) -> Seq<char>;

/// Calls `std::path::Path::join` on `base` and `component` and gives the
/// result back as text; the contract claims only that the result is a
/// function of the two arguments (named `joined_path`). What the join does
/// with separators and absolute components is left unsaid.
#[verifier::external_body]
pub(crate) fn join_path(base: &str, component: &str) -> (joined: String)
    ensures
        joined@ == joined_path(base@, component@),
{
    std::path::Path::new(base).join(component).to_string_lossy().into_owned()
}

/// The directory of the configuration in `workspace`.
pub open spec fn spec_config_dir(workspace: Seq<char>) -> Seq<char> {
    joined_path(workspace, ".pi"@)
}

/// The directory of the logs in `workspace`: inside the configuration
/// directory.
pub open spec fn spec_logs_dir(workspace: Seq<char>) -> Seq<char> {
    joined_path(spec_config_dir(workspace), "logs"@)
}

/// The configuration file of `workspace`.
pub open spec fn spec_config_file(workspace: Seq<char>) -> Seq<char> {
    joined_path(spec_config_dir(workspace), "config.toml"@)
}

impl AppConfig {
    /// The directory `.pi` of `workspace`.
    pub fn config_dir(workspace: &str) -> (dir: String)
        ensures
            dir@ == spec_config_dir(workspace@),
    {
        join_path(workspace, ".pi")
    }

    /// The directory `.pi/logs` of `workspace`.
    pub fn logs_dir(workspace: &str) -> (dir: String)
        ensures
            dir@ == spec_logs_dir(workspace@),
    {
        let config_dir = Self::config_dir(workspace);
        join_path(config_dir.as_str(), "logs")
    }

    /// The file `.pi/config.toml` of `workspace`.
    pub fn config_file(workspace: &str) -> (file: String)
        ensures
            file@ == spec_config_file(workspace@),
    {
        let config_dir = Self::config_dir(workspace);
        join_path(config_dir.as_str(), "config.toml")
    }
}

} // verus!
