use ratatoskr::config::fragments::{
    merge_split_fragments, FragmentError, IncludeFragments, LoadedFile,
};
use ratatoskr::config::load::{validate_unique_inline_names, ConfigError};
use ratatoskr::config::{
    default_mimir_config, AppConfig, ConfigIncludes, DefaultsConfig, InfisicalProviderConfig,
    LifecycleAction, MimirConfig, OutputConfig, PlaceholderOverride, ProviderConfig,
    ProviderKind, SecretSelector, SecurityProfileConfig, ServerConfig, ServiceConfig,
    StorageBackend, StorageConfig,
};
use ratatoskr::storage::{select_store, StorageError, StoreChoice};

fn provider(name: &str) -> ProviderConfig {
    ProviderConfig {
        name: name.to_string(),
        kind: ProviderKind::Infisical(InfisicalProviderConfig {
            api_base_url: "https://app.infisical.com".to_string(),
            project_id: "proj".to_string(),
            client_id: "x".to_string(),
            client_secret: "y".to_string(),
            webhook_secret: "top-secret".to_string(),
            login_path: "/api/v1/auth/universal-auth/login".to_string(),
            secrets_path: "/api/v3/secrets/raw".to_string(),
        }),
    }
}

fn service(name: &str) -> ServiceConfig {
    ServiceConfig {
        name: name.to_string(),
        provider: "infisical_main".to_string(),
        secret_selector: SecretSelector {
            environment: "prod".to_string(),
            secret_path: "/papra".to_string(),
            include_keys: Vec::new(),
        },
        output: OutputConfig::FlatFiles { directory: "/tmp/out".to_string(), file_mode: None },
        lifecycle: LifecycleAction::NoAction,
        security_profile: "strict".to_string(),
        placeholder_policy_override: None,
    }
}

fn profile() -> SecurityProfileConfig {
    SecurityProfileConfig {
        allow_env_vars: false,
        require_signature: true,
        replay_tolerance_seconds: Some(300),
        placeholders: PlaceholderOverride { env: None, file: None },
    }
}

fn app_config() -> AppConfig {
    AppConfig {
        server: ServerConfig { listen_addr: "127.0.0.1:0".to_string() },
        defaults: DefaultsConfig {
            replay_tolerance_seconds: 0,
            http_timeout_seconds: 0,
            max_retries: 0,
            retry_backoff_millis: 0,
        },
        storage: StorageConfig {
            backend: StorageBackend::Sqlite,
            sqlite_path: "./ratatoskr.db".to_string(),
            postgres_url: None,
        },
        includes: ConfigIncludes {
            providers: Vec::new(),
            services: Vec::new(),
            security_profiles: Vec::new(),
        },
        mimir: MimirConfig { placeholders: PlaceholderOverride { env: None, file: None } },
        providers: vec![provider("infisical_main")],
        services: vec![service("papra")],
        security_profiles: vec![("strict".to_string(), profile())],
    }
}

#[test]
fn applies_consumer_fallbacks() {
    let explicit = MimirConfig { placeholders: PlaceholderOverride { env: Some(true), file: None } };
    let defaults =
        MimirConfig { placeholders: PlaceholderOverride { env: Some(false), file: Some(false) } };
    let merged = explicit.with_fallbacks(&defaults);
    assert_eq!(merged.placeholders.env, Some(true));
    assert_eq!(merged.placeholders.file, Some(false));
}

#[test]
fn mimir_policy_denies_unset_switches() {
    let cfg = MimirConfig { placeholders: PlaceholderOverride { env: Some(true), file: None } };
    let policy = cfg.placeholder_policy();
    assert!(policy.allow_env_placeholders);
    assert!(!policy.allow_file_placeholders);
}

#[test]
fn override_fallbacks_fill_only_unset() {
    let o = PlaceholderOverride { env: None, file: Some(true) };
    let d = PlaceholderOverride { env: Some(true), file: Some(false) };
    let r = o.with_fallbacks(&d);
    assert_eq!(r.env, Some(true));
    assert_eq!(r.file, Some(true));
    let again = r.with_fallbacks(&d);
    assert_eq!(again, r);
}

#[test]
fn default_mimir_config_denies_everything() {
    let m = default_mimir_config();
    assert_eq!(m.placeholders.env, Some(false));
    assert_eq!(m.placeholders.file, Some(false));
}

#[test]
fn apply_defaults_fills_zeroes_and_mimir() {
    let mut cfg = app_config();
    cfg.defaults.max_retries = 7;
    cfg.apply_defaults();
    assert_eq!(cfg.defaults.replay_tolerance_seconds, 300);
    assert_eq!(cfg.defaults.http_timeout_seconds, 10);
    assert_eq!(cfg.defaults.max_retries, 7);
    assert_eq!(cfg.defaults.retry_backoff_millis, 300);
    assert_eq!(cfg.mimir.placeholders.env, Some(false));
    assert_eq!(cfg.mimir.placeholders.file, Some(false));
    let before = cfg.defaults;
    cfg.apply_defaults();
    assert_eq!(cfg.defaults, before);
}

#[test]
fn validate_rejects_duplicate_inline_provider() {
    let mut cfg = app_config();
    cfg.providers.push(provider("infisical_main"));
    let err = validate_unique_inline_names(&cfg).unwrap_err();
    assert!(matches!(err, ConfigError::DuplicateInlineProvider(ref n) if n == "infisical_main"));
    assert_eq!(err.message(), "duplicate provider name in main config: infisical_main");
}

#[test]
fn validate_rejects_duplicate_inline_service() {
    let mut cfg = app_config();
    cfg.services.push(service("other"));
    cfg.services.push(service("papra"));
    let err = validate_unique_inline_names(&cfg).unwrap_err();
    assert_eq!(err.message(), "duplicate service name in main config: papra");
}

#[test]
fn validate_accepts_distinct_names() {
    let cfg = app_config();
    assert!(validate_unique_inline_names(&cfg).is_ok());
}

fn empty_includes() -> IncludeFragments {
    IncludeFragments { provider_files: Vec::new(), service_files: Vec::new(), profile_files: Vec::new() }
}

#[test]
fn merge_appends_fragments_in_order() {
    let mut cfg = app_config();
    let mut inc = empty_includes();
    inc.provider_files.push(LoadedFile {
        path: "providers/a.toml".to_string(),
        items: Ok(vec![provider("second")]),
    });
    inc.service_files.push(LoadedFile {
        path: "services/a.toml".to_string(),
        items: Ok(vec![service("s1"), service("s2")]),
    });
    inc.profile_files.push(LoadedFile {
        path: "profiles/a.toml".to_string(),
        items: Ok(vec![("env_only_allowed".to_string(), profile())]),
    });
    merge_split_fragments(&mut cfg, inc).unwrap();
    let names: Vec<&str> = cfg.providers.iter().map(|p| p.name.as_str()).collect();
    assert_eq!(names, vec!["infisical_main", "second"]);
    let services: Vec<&str> = cfg.services.iter().map(|s| s.name.as_str()).collect();
    assert_eq!(services, vec!["papra", "s1", "s2"]);
    assert_eq!(cfg.security_profiles.len(), 2);
    assert_eq!(cfg.security_profiles[1].0, "env_only_allowed");
}

#[test]
fn merge_rejects_duplicate_service_and_leaves_config() {
    let mut cfg = app_config();
    let mut inc = empty_includes();
    inc.provider_files.push(LoadedFile {
        path: "providers/a.toml".to_string(),
        items: Ok(vec![provider("second")]),
    });
    inc.service_files.push(LoadedFile {
        path: "services/b.toml".to_string(),
        items: Ok(vec![service("papra")]),
    });
    let err = merge_split_fragments(&mut cfg, inc).unwrap_err();
    assert_eq!(err.message(), "duplicate service name `papra` found while loading services/b.toml");
    assert_eq!(cfg.providers.len(), 1);
    assert_eq!(cfg.services.len(), 1);
}

#[test]
fn merge_rejects_duplicate_across_files() {
    let mut cfg = app_config();
    let mut inc = empty_includes();
    inc.provider_files.push(LoadedFile { path: "p1.toml".to_string(), items: Ok(vec![provider("x")]) });
    inc.provider_files.push(LoadedFile { path: "p2.toml".to_string(), items: Ok(vec![provider("x")]) });
    let err = merge_split_fragments(&mut cfg, inc).unwrap_err();
    assert!(matches!(err, ConfigError::DuplicateProvider { ref name, ref file } if name == "x" && file == "p2.toml"));
}

#[test]
fn merge_rejects_duplicate_profile() {
    let mut cfg = app_config();
    let mut inc = empty_includes();
    inc.profile_files.push(LoadedFile {
        path: "profiles/strict.toml".to_string(),
        items: Ok(vec![("strict".to_string(), profile())]),
    });
    let err = merge_split_fragments(&mut cfg, inc).unwrap_err();
    assert_eq!(
        err.message(),
        "duplicate security profile `strict` found while loading profiles/strict.toml"
    );
}

#[test]
fn merge_reports_unreadable_fragment_first() {
    let mut cfg = app_config();
    let mut inc = empty_includes();
    inc.provider_files.push(LoadedFile {
        path: "p1.toml".to_string(),
        items: Err(FragmentError::Unreadable("No such file".to_string())),
    });
    inc.provider_files.push(LoadedFile { path: "p2.toml".to_string(), items: Ok(vec![provider("infisical_main")]) });
    let err = merge_split_fragments(&mut cfg, inc).unwrap_err();
    assert_eq!(err.message(), "unable to read split config file p1.toml");
    assert_eq!(err.detail().as_deref(), Some("No such file"));
    let mut cfg2 = app_config();
    let mut inc2 = empty_includes();
    inc2.service_files.push(LoadedFile {
        path: "s.toml".to_string(),
        items: Err(FragmentError::Invalid("expected `=`".to_string())),
    });
    let err2 = merge_split_fragments(&mut cfg2, inc2).unwrap_err();
    assert_eq!(err2.message(), "invalid split config TOML at s.toml");
    assert_eq!(err2.detail().as_deref(), Some("expected `=`"));
}

#[test]
fn storage_selection() {
    let mut cfg = app_config();
    match select_store(&cfg.storage).unwrap() {
        StoreChoice::Sqlite(p) => assert_eq!(p, "./ratatoskr.db"),
        StoreChoice::Postgres(_) => panic!("expected sqlite"),
    }
    cfg.storage.backend = StorageBackend::Postgres;
    let err = select_store(&cfg.storage).unwrap_err();
    assert_eq!(err, StorageError::MissingPostgresUrl);
    assert_eq!(err.message(), "storage.postgres_url is required for postgres backend");
    cfg.storage.postgres_url = Some("postgres://db".to_string());
    match select_store(&cfg.storage).unwrap() {
        StoreChoice::Postgres(u) => assert_eq!(u, "postgres://db"),
        StoreChoice::Sqlite(_) => panic!("expected postgres"),
    }
}

#[test]
fn mimir_defaults_leave_switches_unset() {
    let m = MimirConfig::default();
    assert_eq!(m.placeholders.env, None);
    assert_eq!(m.placeholders.file, None);
    let o = PlaceholderOverride::default();
    assert_eq!((o.env, o.file), (None, None));
}
