//! Configuration schema, defaults and the merging of split configuration files.
//!
//! Reading and parsing TOML happens outside this crate; these types hold what
//! was parsed. `security_profiles` is a list of `(name, profile)` pairs whose
//! names are distinct, standing for the keyed table of the file format.
pub mod fragments;
pub mod load;

use crate::placeholders::PlaceholderPolicy;
pub use crate::providers::infisical::InfisicalProviderConfig;
use vstd::prelude::*;

verus! {

/// Per-setting placeholder switches; `None` leaves the setting to a fallback.
#[derive(Debug, Clone, Copy, PartialEq, Eq, Structural)]
pub struct PlaceholderOverride {
    pub env: Option<bool>,
    pub file: Option<bool>,
}

/// The shared `[mimir]` section.
#[derive(Debug, Clone, Copy, PartialEq, Eq, Structural)]
pub struct MimirConfig {
    pub placeholders: PlaceholderOverride,
}

impl Default for PlaceholderOverride {
    /// Neither switch set.
    fn default() -> (r: Self)
        ensures
            r.env is None,
            r.file is None,
    {
        PlaceholderOverride { env: None, file: None }
    }
}

impl Default for MimirConfig {
    /// No placeholder switch set.
    fn default() -> (r: Self)
        ensures
            r.placeholders.env is None,
            r.placeholders.file is None,
    {
        MimirConfig { placeholders: PlaceholderOverride::default() }
    }
}

pub open spec fn unwrap_or_false(b: Option<bool>) -> bool {
    match b {
        Some(b) => b,
        None => false,
    }
}

pub open spec fn or_fallback(v: Option<bool>, fallback: Option<bool>) -> Option<bool> {
    match v {
        Some(b) => Some(b),
        None => fallback,
    }
}

pub open spec fn spec_override_fallbacks(
    o: PlaceholderOverride,
    d: PlaceholderOverride,
) -> PlaceholderOverride {
    PlaceholderOverride { env: or_fallback(o.env, d.env), file: or_fallback(o.file, d.file) }
}

pub open spec fn spec_placeholder_policy(m: MimirConfig) -> PlaceholderPolicy {
    PlaceholderPolicy {
        allow_env_placeholders: unwrap_or_false(m.placeholders.env),
        allow_file_placeholders: unwrap_or_false(m.placeholders.file),
    }
}

impl PlaceholderOverride {
    /// Fills every unset switch from `defaults`; set switches are kept.
    pub fn with_fallbacks(self, defaults: &PlaceholderOverride) -> (r: Self)
        ensures
            r == spec_override_fallbacks(self, *defaults),
    {
        let mut out = self;
        if out.env.is_none() {
            out.env = defaults.env;
        }
        if out.file.is_none() {
            out.file = defaults.file;
        }
        out
    }
}

impl MimirConfig {
    /// The policy this section sets: a switch that is not set denies.
    pub fn placeholder_policy(&self) -> (r: PlaceholderPolicy)
        ensures
            r == spec_placeholder_policy(*self),
    {
        PlaceholderPolicy {
            allow_env_placeholders: match self.placeholders.env {
                Some(b) => b,
                None => false,
            },
            allow_file_placeholders: match self.placeholders.file {
                Some(b) => b,
                None => false,
            },
        }
    }

    /// Fills every unset placeholder switch from `defaults`.
    pub fn with_fallbacks(self, defaults: &MimirConfig) -> (r: Self)
        ensures
            r.placeholders == spec_override_fallbacks(self.placeholders, defaults.placeholders),
    {
        MimirConfig { placeholders: self.placeholders.with_fallbacks(&defaults.placeholders) }
    }
}

/// The baseline for a configuration that leaves `[mimir]` unset: both kinds
/// of placeholders denied.
pub fn default_mimir_config() -> (r: MimirConfig)
    ensures
        r.placeholders.env == Some(false),
        r.placeholders.file == Some(false),
{
    MimirConfig { placeholders: PlaceholderOverride { env: Some(false), file: Some(false) } }
}

#[derive(Debug)]
pub struct ServerConfig {
    pub listen_addr: String,
}

#[derive(Debug, Clone, Copy, PartialEq, Eq, Structural)]
pub struct DefaultsConfig {
    pub replay_tolerance_seconds: i64,
    pub http_timeout_seconds: u64,
    pub max_retries: usize,
    pub retry_backoff_millis: u64,
}

#[derive(Debug, Clone, Copy, PartialEq, Eq, Structural)]
pub enum StorageBackend {
    Sqlite,
    Postgres,
}

#[derive(Debug)]
pub struct StorageConfig {
    pub backend: StorageBackend,
    pub sqlite_path: String,
    pub postgres_url: Option<String>,
}

/// Glob lists of split files to merge, per section.
#[derive(Debug)]
pub struct ConfigIncludes {
    pub providers: Vec<String>,
    pub services: Vec<String>,
    pub security_profiles: Vec<String>,
}

#[derive(Debug)]
pub enum ProviderKind {
    Infisical(InfisicalProviderConfig),
}

impl Clone for ProviderKind {
    fn clone(&self) -> (r: Self)
        ensures
            r == *self,
    {
        match self {
            ProviderKind::Infisical(c) => ProviderKind::Infisical(c.clone()),
        }
    }
}

#[derive(Debug)]
pub struct ProviderConfig {
    pub name: String,
    pub kind: ProviderKind,
}

/// Which secrets a service takes from its provider.
#[derive(Debug)]
pub struct SecretSelector {
    pub environment: String,
    pub secret_path: String,
    /// Keys to keep; empty keeps every key.
    pub include_keys: Vec<String>,
}

pub struct SecretSelectorView {
    pub environment: Seq<char>,
    pub secret_path: Seq<char>,
    pub include_keys: Seq<Seq<char>>,
}

impl View for SecretSelector {
    type V = SecretSelectorView;

    open spec fn view(&self) -> SecretSelectorView {
        SecretSelectorView {
            environment: self.environment@,
            secret_path: self.secret_path@,
            include_keys: self.include_keys@.map_values(|k: String| k@),
        }
    }
}

impl Clone for SecretSelector {
    fn clone(&self) -> (r: Self)
        ensures
            r@ == self@,
    {
        let r = SecretSelector {
            environment: self.environment.clone(),
            secret_path: self.secret_path.clone(),
            include_keys: self.include_keys.clone(),
        };
        assert(r@.include_keys =~= self@.include_keys);
        r
    }
}

/// Where and how a service's secrets are written.
#[derive(Debug)]
pub enum OutputConfig {
    /// One file per secret in `directory`, named after the lower-cased key.
    FlatFiles { directory: String, file_mode: Option<u32> },
    /// One file rendered from `template`, where `{{KEY}}` stands for a secret.
    TemplatedYaml { file_path: String, template: String, file_mode: Option<u32> },
}

pub enum OutputView {
    FlatFiles { directory: Seq<char>, file_mode: Option<u32> },
    TemplatedYaml { file_path: Seq<char>, template: Seq<char>, file_mode: Option<u32> },
}

impl View for OutputConfig {
    type V = OutputView;

    open spec fn view(&self) -> OutputView {
        match self {
            OutputConfig::FlatFiles { directory, file_mode } => OutputView::FlatFiles {
                directory: directory@,
                file_mode: *file_mode,
            },
            OutputConfig::TemplatedYaml { file_path, template, file_mode } => OutputView::TemplatedYaml {
                file_path: file_path@,
                template: template@,
                file_mode: *file_mode,
            },
        }
    }
}

impl Clone for OutputConfig {
    fn clone(&self) -> (r: Self)
        ensures
            r@ == self@,
    {
        match self {
            OutputConfig::FlatFiles { directory, file_mode } => OutputConfig::FlatFiles {
                directory: directory.clone(),
                file_mode: *file_mode,
            },
            OutputConfig::TemplatedYaml { file_path, template, file_mode } => OutputConfig::TemplatedYaml {
                file_path: file_path.clone(),
                template: template.clone(),
                file_mode: *file_mode,
            },
        }
    }
}

/// What to do after a service's secrets were written.
#[derive(Debug)]
pub enum LifecycleAction {
    NoAction,
    ReloadCaddy { admin_url: String },
    RestartContainer { docker_proxy_url: String, container: String },
}

pub enum LifecycleView {
    NoAction,
    ReloadCaddy { admin_url: Seq<char> },
    RestartContainer { docker_proxy_url: Seq<char>, container: Seq<char> },
}

impl View for LifecycleAction {
    type V = LifecycleView;

    open spec fn view(&self) -> LifecycleView {
        match self {
            LifecycleAction::NoAction => LifecycleView::NoAction,
            LifecycleAction::ReloadCaddy { admin_url } => LifecycleView::ReloadCaddy {
                admin_url: admin_url@,
            },
            LifecycleAction::RestartContainer { docker_proxy_url, container } => LifecycleView::RestartContainer {
                docker_proxy_url: docker_proxy_url@,
                container: container@,
            },
        }
    }
}

impl Clone for LifecycleAction {
    fn clone(&self) -> (r: Self)
        ensures
            r@ == self@,
    {
        match self {
            LifecycleAction::NoAction => LifecycleAction::NoAction,
            LifecycleAction::ReloadCaddy { admin_url } => LifecycleAction::ReloadCaddy {
                admin_url: admin_url.clone(),
            },
            LifecycleAction::RestartContainer { docker_proxy_url, container } => LifecycleAction::RestartContainer {
                docker_proxy_url: docker_proxy_url.clone(),
                container: container.clone(),
            },
        }
    }
}

impl Default for LifecycleAction {
    fn default() -> (r: Self)
        ensures
            r@ == LifecycleView::NoAction,
    {
        LifecycleAction::NoAction
    }
}

#[derive(Debug)]
pub struct ServiceConfig {
    pub name: String,
    pub provider: String,
    pub secret_selector: SecretSelector,
    pub output: OutputConfig,
    pub lifecycle: LifecycleAction,
    pub security_profile: String,
    pub placeholder_policy_override: Option<PlaceholderOverride>,
}

pub struct ServiceView {
    pub name: Seq<char>,
    pub provider: Seq<char>,
    pub secret_selector: SecretSelectorView,
    pub output: OutputView,
    pub lifecycle: LifecycleView,
    pub security_profile: Seq<char>,
    pub placeholder_policy_override: Option<PlaceholderOverride>,
}

impl View for ServiceConfig {
    type V = ServiceView;

    open spec fn view(&self) -> ServiceView {
        ServiceView {
            name: self.name@,
            provider: self.provider@,
            secret_selector: self.secret_selector@,
            output: self.output@,
            lifecycle: self.lifecycle@,
            security_profile: self.security_profile@,
            placeholder_policy_override: self.placeholder_policy_override,
        }
    }
}

impl Clone for ServiceConfig {
    fn clone(&self) -> (r: Self)
        ensures
            r@ == self@,
    {
        ServiceConfig {
            name: self.name.clone(),
            provider: self.provider.clone(),
            secret_selector: self.secret_selector.clone(),
            output: self.output.clone(),
            lifecycle: self.lifecycle.clone(),
            security_profile: self.security_profile.clone(),
            placeholder_policy_override: self.placeholder_policy_override,
        }
    }
}

#[derive(Debug, Clone, Copy, PartialEq, Eq, Structural)]
pub struct SecurityProfileConfig {
    pub allow_env_vars: bool,
    pub require_signature: bool,
    pub replay_tolerance_seconds: Option<i64>,
    pub placeholders: PlaceholderOverride,
}

#[derive(Debug)]
pub struct AppConfig {
    pub server: ServerConfig,
    pub defaults: DefaultsConfig,
    pub storage: StorageConfig,
    pub includes: ConfigIncludes,
    pub mimir: MimirConfig,
    pub providers: Vec<ProviderConfig>,
    pub services: Vec<ServiceConfig>,
    /// Named security profiles; names are distinct.
    pub security_profiles: Vec<(String, SecurityProfileConfig)>,
}

/// `v` where it is set, `fallback` where it is zero.
pub open spec fn nonzero_or(v: int, fallback: int) -> int {
    if v == 0 {
        fallback
    } else {
        v
    }
}

pub open spec fn spec_apply_defaults(d: DefaultsConfig) -> DefaultsConfig {
    DefaultsConfig {
        replay_tolerance_seconds: nonzero_or(d.replay_tolerance_seconds as int, 300) as i64,
        http_timeout_seconds: nonzero_or(d.http_timeout_seconds as int, 10) as u64,
        max_retries: nonzero_or(d.max_retries as int, 3) as usize,
        retry_backoff_millis: nonzero_or(d.retry_backoff_millis as int, 300) as u64,
    }
}

impl AppConfig {
    /// Fills unset (zero) defaults with 300 s replay tolerance, 10 s HTTP
    /// timeout, 3 retries and 300 ms backoff, and unset `[mimir]` placeholder
    /// switches with `false`. Nothing else changes.
    pub fn apply_defaults(&mut self)
        ensures
            final(self).defaults == spec_apply_defaults(old(self).defaults),
            final(self).mimir.placeholders == spec_override_fallbacks(
                old(self).mimir.placeholders,
                PlaceholderOverride { env: Some(false), file: Some(false) },
            ),
            final(self).server == old(self).server,
            final(self).storage == old(self).storage,
            final(self).includes == old(self).includes,
            final(self).providers == old(self).providers,
            final(self).services == old(self).services,
            final(self).security_profiles == old(self).security_profiles,
    {
        if self.defaults.replay_tolerance_seconds == 0 {
            self.defaults.replay_tolerance_seconds = 300;
        }
        if self.defaults.http_timeout_seconds == 0 {
            self.defaults.http_timeout_seconds = 10;
        }
        if self.defaults.max_retries == 0 {
            self.defaults.max_retries = 3;
        }
        if self.defaults.retry_backoff_millis == 0 {
            self.defaults.retry_backoff_millis = 300;
        }
        let fallback = default_mimir_config();
        self.mimir = self.mimir.with_fallbacks(&fallback);
    }
}

/// Filling fallbacks keeps every switch that was set, and doing it twice
/// changes nothing more.
pub proof fn law_fallbacks_keep_set_switches(o: PlaceholderOverride, d: PlaceholderOverride)
    ensures
        o.env is Some ==> spec_override_fallbacks(o, d).env == o.env,
        o.file is Some ==> spec_override_fallbacks(o, d).file == o.file,
        o.env is None ==> spec_override_fallbacks(o, d).env == d.env,
        o.file is None ==> spec_override_fallbacks(o, d).file == d.file,
        spec_override_fallbacks(spec_override_fallbacks(o, d), d) == spec_override_fallbacks(o, d),
{
}

/// Deny by default: once defaults are applied, a placeholder kind that the
/// `[mimir]` section does not enable is denied.
pub proof fn law_placeholders_denied_by_default(m: MimirConfig)
    ensures
        ({
            let filled = MimirConfig {
                placeholders: spec_override_fallbacks(
                    m.placeholders,
                    PlaceholderOverride { env: Some(false), file: Some(false) },
                ),
            };
            &&& spec_placeholder_policy(filled).allow_env_placeholders <==> m.placeholders.env
                == Some(true)
            &&& spec_placeholder_policy(filled).allow_file_placeholders <==> m.placeholders.file
                == Some(true)
            &&& filled.placeholders.env is Some
            &&& filled.placeholders.file is Some
        }),
{
}

/// After defaults are applied every default is set (non-zero), a set
/// default is kept, and applying them again changes nothing.
pub proof fn law_defaults_settle(d: DefaultsConfig)
    ensures
        spec_apply_defaults(d).replay_tolerance_seconds != 0,
        spec_apply_defaults(d).http_timeout_seconds != 0,
        spec_apply_defaults(d).max_retries != 0,
        spec_apply_defaults(d).retry_backoff_millis != 0,
        d.replay_tolerance_seconds != 0 ==> spec_apply_defaults(d).replay_tolerance_seconds
            == d.replay_tolerance_seconds,
        d.http_timeout_seconds != 0 ==> spec_apply_defaults(d).http_timeout_seconds
            == d.http_timeout_seconds,
        d.max_retries != 0 ==> spec_apply_defaults(d).max_retries == d.max_retries,
        d.retry_backoff_millis != 0 ==> spec_apply_defaults(d).retry_backoff_millis
            == d.retry_backoff_millis,
        spec_apply_defaults(spec_apply_defaults(d)) == spec_apply_defaults(d),
{
}

} // verus!
