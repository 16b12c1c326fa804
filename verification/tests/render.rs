use ratatoskr::config::{
    AppConfig, ConfigIncludes, DefaultsConfig, InfisicalProviderConfig, MimirConfig, OutputConfig,
    PlaceholderOverride, ProviderConfig, ProviderKind, SecretSelector, ServerConfig, StorageBackend,
    StorageConfig,
};
use ratatoskr::placeholders::PlaceholderPolicy;
use ratatoskr::providers::infisical::{
    api_url, default_infisical_base_url, default_login_path, default_secrets_path,
    list_secrets_path, list_secrets_query,
};
use ratatoskr::providers::{
    build_provider_settings, collect_secrets, items_from_entries, provider_secret_policy,
    retry_delay_millis, FetchRetry, JsonText, ProviderClientSettings, RawSecretEntry,
    RetryAction, SecretItem, SecretListError,
};
use ratatoskr::render::{render_and_write, substitute_secrets, RenderStep};
use ratatoskr::secret_map::SecretMap;

fn secrets(pairs: &[(&str, &str)]) -> SecretMap {
    let mut m = SecretMap::new();
    for (k, v) in pairs {
        m.insert(k.to_string(), v.to_string());
    }
    m
}

fn writes(steps: &[RenderStep]) -> Vec<(String, String)> {
    steps
        .iter()
        .filter_map(|s| match s {
            RenderStep::WriteResolved { path, text, .. } => Some((path.clone(), text.clone())),
            RenderStep::CreateDir(_) => None,
        })
        .collect()
}

#[test]
fn tests_renders_flat_files() {
    let output = OutputConfig::FlatFiles { directory: "/tmp/out".to_string(), file_mode: None };
    let s = secrets(&[("API_KEY", "alpha"), ("TOKEN", "beta")]);
    let plan = render_and_write(&output, &s, PlaceholderPolicy::default());
    assert!(matches!(&plan.steps[0], RenderStep::CreateDir(d) if d == "/tmp/out"));
    assert_eq!(
        writes(&plan.steps),
        vec![
            ("/tmp/out/api_key".to_string(), "alpha".to_string()),
            ("/tmp/out/token".to_string(), "beta".to_string()),
        ]
    );
    assert_eq!(plan.policy, PlaceholderPolicy::default());
}

#[test]
fn flat_files_keep_mode_and_join_paths() {
    let output = OutputConfig::FlatFiles { directory: "/d/".to_string(), file_mode: Some(0o600) };
    let s = secrets(&[("B", "2"), ("A", "1")]);
    let plan = render_and_write(&output, &s, PlaceholderPolicy::default());
    assert_eq!(plan.steps.len(), 3);
    match &plan.steps[1] {
        RenderStep::WriteResolved { path, text, file_mode, create_parent } => {
            assert_eq!(path, "/d/a");
            assert_eq!(text, "1");
            assert_eq!(*file_mode, Some(0o600));
            assert!(!create_parent);
        }
        other => panic!("unexpected step {other:?}"),
    }
    let empty = render_and_write(&output, &SecretMap::new(), PlaceholderPolicy::default());
    assert_eq!(empty.steps.len(), 1);
}

#[test]
fn resolves_placeholders_when_policy_allows() {
    let output = OutputConfig::TemplatedYaml {
        file_path: "/tmp/out.yaml".to_string(),
        template: "env: {env:RATATOSKR_RENDER_ENV}\nfile: {file:/tmp/placeholder}\n".to_string(),
        file_mode: None,
    };
    let policy = PlaceholderPolicy { allow_env_placeholders: true, allow_file_placeholders: true };
    let plan = render_and_write(&output, &SecretMap::new(), policy);
    assert_eq!(plan.policy, policy);
    match &plan.steps[..] {
        [RenderStep::WriteResolved { path, text, create_parent, .. }] => {
            assert_eq!(path, "/tmp/out.yaml");
            assert_eq!(text, "env: {env:RATATOSKR_RENDER_ENV}\nfile: {file:/tmp/placeholder}\n");
            assert!(create_parent);
        }
        other => panic!("unexpected plan {other:?}"),
    }
}

#[test]
fn templates_substitute_every_marker() {
    let s = secrets(&[("USER", "bob"), ("PASS", "p{{USER}}")]);
    assert_eq!(substitute_secrets("u={{USER}} p={{PASS}} again={{USER}}", &s), "u=bob p=pbob again=bob");
    assert_eq!(substitute_secrets("no markers here", &s), "no markers here");
    assert_eq!(substitute_secrets("{{MISSING}}", &s), "{{MISSING}}");
}

#[test]
fn secret_map_keeps_keys_sorted_and_unique() {
    let mut m = secrets(&[("b", "1"), ("a", "2"), ("c", "3")]);
    m.insert("b".to_string(), "4".to_string());
    assert_eq!(m.len(), 3);
    let keys: Vec<(String, String)> = (0..m.len()).map(|i| (m.entry(i).0.clone(), m.entry(i).1.clone())).collect();
    assert_eq!(
        keys,
        vec![
            ("a".to_string(), "2".to_string()),
            ("b".to_string(), "4".to_string()),
            ("c".to_string(), "3".to_string()),
        ]
    );
    assert_eq!(m.get("b").map(|s| s.as_str()), Some("4"));
    assert_eq!(m.get("z"), None);
}

#[test]
fn collect_applies_include_keys() {
    let items = || {
        vec![
            SecretItem { secret_key: "A".to_string(), secret_value: Some("1".to_string()) },
            SecretItem { secret_key: "B".to_string(), secret_value: None },
            SecretItem { secret_key: "A".to_string(), secret_value: Some("3".to_string()) },
        ]
    };
    let all = SecretSelector { environment: "prod".to_string(), secret_path: "/".to_string(), include_keys: Vec::new() };
    let m = collect_secrets(&all, items());
    assert_eq!(m.len(), 2);
    assert_eq!(m.get("A").map(|s| s.as_str()), Some("3"));
    assert_eq!(m.get("B").map(|s| s.as_str()), Some(""));
    let only_b = SecretSelector { include_keys: vec!["B".to_string()], ..all };
    let m = collect_secrets(&only_b, items());
    assert_eq!(m.len(), 1);
    assert!(m.get("A").is_none());
}

#[test]
fn secrets_path_normalisation() {
    assert_eq!(list_secrets_path("  "), "/");
    assert_eq!(list_secrets_path(""), "/");
    assert_eq!(list_secrets_path(" papra "), "/papra");
    assert_eq!(list_secrets_path("/papra/x"), "/papra/x");
}

#[test]
fn retry_delays_grow_and_saturate() {
    assert_eq!(retry_delay_millis(300, 0), 300);
    assert_eq!(retry_delay_millis(300, 2), 900);
    assert_eq!(retry_delay_millis(u64::MAX, 1), u64::MAX);
    assert_eq!(retry_delay_millis(0, 5), 0);
}

#[test]
fn provider_defaults_and_policy() {
    assert_eq!(default_infisical_base_url(), "https://app.infisical.com");
    assert_eq!(default_login_path(), "/api/v1/auth/universal-auth/login");
    assert_eq!(default_secrets_path(), "/api/v3/secrets/raw");
    let p = provider_secret_policy();
    assert!(p.allow_env_placeholders && p.allow_file_placeholders);
}

#[test]
fn provider_settings_take_defaults() {
    let cfg = AppConfig {
        server: ServerConfig { listen_addr: "127.0.0.1:0".to_string() },
        defaults: DefaultsConfig {
            replay_tolerance_seconds: 300,
            http_timeout_seconds: 7,
            max_retries: 2,
            retry_backoff_millis: 50,
        },
        storage: StorageConfig { backend: StorageBackend::Sqlite, sqlite_path: "x".to_string(), postgres_url: None },
        includes: ConfigIncludes { providers: Vec::new(), services: Vec::new(), security_profiles: Vec::new() },
        mimir: MimirConfig { placeholders: PlaceholderOverride { env: None, file: None } },
        providers: vec![ProviderConfig {
            name: "main".to_string(),
            kind: ProviderKind::Infisical(InfisicalProviderConfig {
                api_base_url: default_infisical_base_url(),
                project_id: "proj".to_string(),
                client_id: "id".to_string(),
                client_secret: "s".to_string(),
                webhook_secret: "w".to_string(),
                login_path: default_login_path(),
                secrets_path: default_secrets_path(),
            }),
        }],
        services: Vec::new(),
        security_profiles: Vec::new(),
    };
    let settings = build_provider_settings(&cfg);
    assert_eq!(settings.len(), 1);
    let ProviderClientSettings::Infisical { name, config, max_retries, retry_backoff_millis, http_timeout_seconds } =
        &settings[0];
    assert_eq!(name, "main");
    assert_eq!(config.client_id, "id");
    assert_eq!((*max_retries, *retry_backoff_millis, *http_timeout_seconds), (2, 50, 7));
}

#[test]
fn api_urls_join_base_and_route() {
    assert_eq!(api_url("https://app.infisical.com/", "/api/v3/secrets/raw"), "https://app.infisical.com/api/v3/secrets/raw");
    assert_eq!(api_url("http://stub//", "/login"), "http://stub/login");
    assert_eq!(api_url("http://stub", "/login"), "http://stub/login");
}

fn text(s: &str) -> JsonText {
    JsonText::Text(s.to_string())
}

#[test]
fn listing_entries_take_either_spelling() {
    let entries = vec![
        RawSecretEntry { secret_key: text("A"), key: text("ignored"), secret_value: text("1"), value: text("x") },
        RawSecretEntry { secret_key: JsonText::Absent, key: text("B"), secret_value: JsonText::Absent, value: text("2") },
        RawSecretEntry { secret_key: text("C"), key: JsonText::Absent, secret_value: JsonText::NotText, value: text("3") },
    ];
    let items = items_from_entries(Some(entries)).unwrap();
    let got: Vec<(String, Option<String>)> = items.into_iter().map(|i| (i.secret_key, i.secret_value)).collect();
    assert_eq!(
        got,
        vec![
            ("A".to_string(), Some("1".to_string())),
            ("B".to_string(), Some("2".to_string())),
            ("C".to_string(), None),
        ]
    );
}

#[test]
fn listing_errors() {
    let err = items_from_entries(None).unwrap_err();
    assert_eq!(err, SecretListError::MissingSecretsArray);
    assert_eq!(err.message(), "missing `secrets` array in provider response");
    let entries = vec![
        RawSecretEntry { secret_key: text("A"), key: JsonText::Absent, secret_value: JsonText::Absent, value: JsonText::Absent },
        RawSecretEntry { secret_key: JsonText::NotText, key: text("B"), secret_value: JsonText::Absent, value: JsonText::Absent },
    ];
    let err = items_from_entries(Some(entries)).unwrap_err();
    assert_eq!(err, SecretListError::EntryMissingKey);
    assert_eq!(err.message(), "secret entry missing key");
    assert!(items_from_entries(Some(Vec::new())).unwrap().is_empty());
}

#[test]
fn retries_pause_after_each_failure_then_give_up() {
    let (mut r, a) = FetchRetry::start(3, 300);
    assert_eq!(a, RetryAction::Attempt);
    let mut actions = Vec::new();
    for _ in 0..3 {
        actions.push(r.attempt_failed());
        actions.push(r.pause_done());
    }
    assert_eq!(
        actions,
        vec![
            RetryAction::Pause(300),
            RetryAction::Attempt,
            RetryAction::Pause(600),
            RetryAction::Attempt,
            RetryAction::Pause(900),
            RetryAction::GiveUp,
        ]
    );
}

#[test]
fn no_retries_gives_up_at_once() {
    let (_, a) = FetchRetry::start(0, 300);
    assert_eq!(a, RetryAction::GiveUp);
    let (mut r, _) = FetchRetry::start(1, u64::MAX);
    assert_eq!(r.attempt_failed(), RetryAction::Pause(u64::MAX));
    assert_eq!(r.pause_done(), RetryAction::GiveUp);
}

#[test]
fn listing_query_names_project_environment_and_path() {
    let selector = SecretSelector {
        environment: "prod".to_string(),
        secret_path: " papra ".to_string(),
        include_keys: Vec::new(),
    };
    let q = list_secrets_query("ws-1", &selector);
    let pairs: Vec<(&str, &str)> = q.iter().map(|(k, v)| (k.as_str(), v.as_str())).collect();
    assert_eq!(
        pairs,
        vec![
            ("workspaceId", "ws-1"),
            ("environment", "prod"),
            ("secretPath", "/papra"),
            ("expandSecretReferences", "true"),
            ("recursive", "true"),
            ("include_imports", "true"),
        ]
    );
}

#[test]
fn client_settings_name_and_webhook_secret() {
    let kind = ProviderKind::Infisical(InfisicalProviderConfig {
        api_base_url: default_infisical_base_url(),
        project_id: "p".to_string(),
        client_id: "id".to_string(),
        client_secret: "s".to_string(),
        webhook_secret: "{env:HOOK_SECRET}".to_string(),
        login_path: default_login_path(),
        secrets_path: default_secrets_path(),
    });
    let defaults = DefaultsConfig {
        replay_tolerance_seconds: 300,
        http_timeout_seconds: 10,
        max_retries: 3,
        retry_backoff_millis: 300,
    };
    let settings = kind.into_client("main".to_string(), &defaults);
    assert_eq!(settings.provider_name(), "main");
    let scan = settings.scan_webhook_secret();
    assert!(scan.error.is_none());
    assert!(scan.pieces.iter().any(|p| matches!(p, ratatoskr::placeholders::Piece::Env(n) if n == "HOOK_SECRET")));
}
