use hmac::{Hmac, Mac};
use ratatoskr::config::{
    AppConfig, ConfigIncludes, DefaultsConfig, InfisicalProviderConfig, LifecycleAction,
    MimirConfig, OutputConfig, PlaceholderOverride, ProviderConfig, ProviderKind, SecretSelector,
    SecurityProfileConfig, ServerConfig, ServiceConfig, StorageBackend, StorageConfig,
};
use ratatoskr::dispatch::engine::{Dispatch, DispatchAction, DispatchError, DispatchEvent, WebhookRequest};
use ratatoskr::dispatch::idempotency::{build_event_key, IdempotencyStore, MemoryIdempotencyStore};
use ratatoskr::dispatch::{effective_placeholder_policy, match_services, DispatchResult, WebhookPayload};
use ratatoskr::placeholders::{resolve_scanned, scan_placeholders, Lookup, Piece, PlaceholderPolicy};
use ratatoskr::render::{render_and_write, RenderStep};
use ratatoskr::secret_map::SecretMap;
use ratatoskr::verify::{HeaderField, VerifyError};
use sha2::Sha256;
use std::time::{SystemTime, UNIX_EPOCH};

const WEBHOOK_SECRET: &str = "top-secret";

fn profile(env: Option<bool>, file: Option<bool>) -> SecurityProfileConfig {
    SecurityProfileConfig {
        allow_env_vars: false,
        require_signature: true,
        replay_tolerance_seconds: Some(300),
        placeholders: PlaceholderOverride { env, file },
    }
}

fn service(name: &str, template: &str, profile: &str, o: Option<PlaceholderOverride>) -> ServiceConfig {
    ServiceConfig {
        name: name.to_string(),
        provider: "infisical_main".to_string(),
        secret_selector: SecretSelector {
            environment: "prod".to_string(),
            secret_path: "/papra".to_string(),
            include_keys: Vec::new(),
        },
        output: OutputConfig::TemplatedYaml {
            file_path: format!("/out/{name}.yaml"),
            template: template.to_string(),
            file_mode: None,
        },
        lifecycle: LifecycleAction::NoAction,
        security_profile: profile.to_string(),
        placeholder_policy_override: o,
    }
}

fn config(services: Vec<ServiceConfig>, profiles: Vec<(String, SecurityProfileConfig)>) -> AppConfig {
    AppConfig {
        server: ServerConfig { listen_addr: "127.0.0.1:0".to_string() },
        defaults: DefaultsConfig {
            replay_tolerance_seconds: 300,
            http_timeout_seconds: 10,
            max_retries: 3,
            retry_backoff_millis: 300,
        },
        storage: StorageConfig {
            backend: StorageBackend::Sqlite,
            sqlite_path: "./ratatoskr.db".to_string(),
            postgres_url: None,
        },
        includes: ConfigIncludes { providers: Vec::new(), services: Vec::new(), security_profiles: Vec::new() },
        mimir: MimirConfig { placeholders: PlaceholderOverride { env: Some(false), file: Some(false) } },
        providers: vec![ProviderConfig {
            name: "infisical_main".to_string(),
            kind: ProviderKind::Infisical(InfisicalProviderConfig {
                api_base_url: "https://app.infisical.com".to_string(),
                project_id: "proj".to_string(),
                client_id: "x".to_string(),
                client_secret: "y".to_string(),
                webhook_secret: WEBHOOK_SECRET.to_string(),
                login_path: "/api/v1/auth/universal-auth/login".to_string(),
                secrets_path: "/api/v3/secrets/raw".to_string(),
            }),
        }],
        services,
        security_profiles: profiles,
    }
}

const BODY: &[u8] = br#"{"event":"secrets.modified","environment":"prod","secretPath":"/papra"}"#;

fn signed_request(body: &[u8], delivery: &str) -> WebhookRequest {
    let timestamp = SystemTime::now().duration_since(UNIX_EPOCH).unwrap().as_secs() as i64;
    let payload = format!("{timestamp}.{}", String::from_utf8_lossy(body));
    let mut mac = Hmac::<Sha256>::new_from_slice(WEBHOOK_SECRET.as_bytes()).unwrap();
    mac.update(payload.as_bytes());
    let signature = hex::encode(mac.finalize().into_bytes());
    WebhookRequest {
        provider: "infisical_main".to_string(),
        signature: HeaderField::Text(format!("t={timestamp};signature={signature}")),
        delivery: HeaderField::Text(delivery.to_string()),
        body: body.to_vec(),
    }
}

fn payload() -> WebhookPayload {
    WebhookPayload {
        event: Some("secrets.modified".to_string()),
        environment: Some("prod".to_string()),
        secret_path: Some("/papra".to_string()),
    }
}

/// The outside world of one run: an environment, a store, the written files.
struct World {
    env: Vec<(String, String)>,
    store: MemoryIdempotencyStore,
    written: Vec<(String, String)>,
    fetches: usize,
    listed: Vec<(String, String)>,
}

impl World {
    fn new(env: &[(&str, &str)]) -> World {
        World {
            env: env.iter().map(|(k, v)| (k.to_string(), v.to_string())).collect(),
            store: MemoryIdempotencyStore::new(),
            written: Vec::new(),
            fetches: 0,
            listed: vec![("API_KEY".to_string(), "alpha".to_string())],
        }
    }

    fn render(&mut self, output: OutputConfig, secrets: SecretMap, policy: PlaceholderPolicy) -> Result<(), String> {
        let plan = render_and_write(&output, &secrets, policy);
        for step in plan.steps {
            if let RenderStep::WriteResolved { path, text, .. } = step {
                let scan = scan_placeholders(&text, plan.policy);
                let lookups: Vec<Lookup<String>> = scan
                    .pieces
                    .iter()
                    .map(|p| match p {
                        Piece::Env(n) => match self.env.iter().find(|(k, _)| k == n) {
                            Some((_, v)) => Lookup::Found(v.clone()),
                            None => Lookup::Missing(String::new()),
                        },
                        _ => Lookup::Found(String::new()),
                    })
                    .collect();
                let resolved = resolve_scanned(&scan, &lookups).map_err(|e| e.message())?;
                self.written.push((path, resolved));
            }
        }
        Ok(())
    }

    fn run(&mut self, cfg: &AppConfig, request: WebhookRequest) -> Result<DispatchResult, DispatchError> {
        let (mut d, mut action) = Dispatch::start(cfg, request, true);
        loop {
            let event = match action {
                DispatchAction::Finish(r) => return r,
                DispatchAction::ResolveWebhookSecret => DispatchEvent::WebhookSecret {
                    secret: Ok(WEBHOOK_SECRET.to_string()),
                    now: Some(SystemTime::now().duration_since(UNIX_EPOCH).unwrap().as_secs()),
                },
                DispatchAction::ParsePayload => DispatchEvent::Payload(Ok(payload())),
                DispatchAction::MarkIfNew(key) => DispatchEvent::Marked(Ok(self.store.mark_if_new(&key))),
                DispatchAction::FetchSecrets(_) => {
                    self.fetches += 1;
                    let mut m = SecretMap::new();
                    for (k, v) in &self.listed {
                        m.insert(k.clone(), v.clone());
                    }
                    DispatchEvent::Fetched(Ok(m))
                }
                DispatchAction::Render { output, secrets, policy } => {
                    DispatchEvent::Rendered(self.render(output, secrets, policy))
                }
                DispatchAction::RunLifecycle(_) => DispatchEvent::LifecycleDone(Ok(())),
            };
            assert!(d.accepts(&event));
            action = d.step(cfg, event);
        }
    }
}

#[test]
fn mod_deduplicates_duplicate_webhook_events() {
    let cfg = config(vec![service("papra", "key: {{API_KEY}}\n", "strict", None)], vec![("strict".to_string(), profile(None, None))]);
    let mut world = World::new(&[]);
    let first = world.run(&cfg, signed_request(BODY, "delivery-1")).unwrap();
    assert_eq!(first.matched_services, 1);
    assert_eq!(first.applied_services, 1);
    assert!(!first.skipped_duplicate);
    let second = world.run(&cfg, signed_request(BODY, "delivery-1")).unwrap();
    assert!(second.skipped_duplicate);
    assert_eq!(second.applied_services, 0);
    assert_eq!(world.fetches, 1);
    assert_eq!(world.written, vec![("/out/papra.yaml".to_string(), "key: alpha\n".to_string())]);
}

#[test]
fn other_delivery_id_is_not_a_duplicate() {
    let cfg = config(vec![service("papra", "x", "strict", None)], Vec::new());
    let mut world = World::new(&[]);
    assert!(!world.run(&cfg, signed_request(BODY, "delivery-1")).unwrap().skipped_duplicate);
    assert!(!world.run(&cfg, signed_request(BODY, "delivery-2")).unwrap().skipped_duplicate);
    assert_eq!(world.fetches, 2);
}

#[test]
fn applies_profile_placeholder_policy() {
    let cfg = config(
        vec![service("profile-policy", "value: {env:RATATOSKR_POLICY_ENV}\n", "profile_with_env", None)],
        vec![("profile_with_env".to_string(), profile(Some(true), Some(false)))],
    );
    let mut world = World::new(&[("RATATOSKR_POLICY_ENV", "from-profile")]);
    world.run(&cfg, signed_request(BODY, "delivery-1")).unwrap();
    assert!(world.written[0].1.contains("from-profile"));
}

#[test]
fn service_override_takes_precedence_over_profile() {
    let o = PlaceholderOverride { env: Some(true), file: None };
    let cfg = config(
        vec![service("override-policy", "value: {env:RATATOSKR_OVERRIDE_ENV}\n", "strict", Some(o))],
        vec![("strict".to_string(), profile(Some(false), Some(false)))],
    );
    let mut world = World::new(&[("RATATOSKR_OVERRIDE_ENV", "from-override")]);
    world.run(&cfg, signed_request(BODY, "delivery-1")).unwrap();
    assert!(world.written[0].1.contains("from-override"));
}

#[test]
fn denied_placeholder_fails_render_naming_service() {
    let cfg = config(vec![service("papra", "value: {env:X}\n", "strict", None)], vec![("strict".to_string(), profile(None, None))]);
    let mut world = World::new(&[("X", "1")]);
    let err = world.run(&cfg, signed_request(BODY, "delivery-1")).unwrap_err();
    assert_eq!(err.message(), "failed rendering output for service papra");
    assert_eq!(err.detail().as_deref(), Some("env placeholders are disabled by policy: {env:...}"));
}

#[test]
fn effective_policy_layers() {
    let cfg = config(Vec::new(), vec![("p".to_string(), profile(Some(true), None))]);
    let s = service("s", "", "p", None);
    assert_eq!(
        effective_placeholder_policy(&cfg, &s),
        PlaceholderPolicy { allow_env_placeholders: true, allow_file_placeholders: false }
    );
    let s = service("s", "", "missing", Some(PlaceholderOverride { env: None, file: Some(true) }));
    assert_eq!(
        effective_placeholder_policy(&cfg, &s),
        PlaceholderPolicy { allow_env_placeholders: false, allow_file_placeholders: true }
    );
}

#[test]
fn webhook_missing_signature_returns_400() {
    let cfg = config(vec![service("papra", "x", "strict", None)], Vec::new());
    let mut request = signed_request(BODY, "d");
    request.signature = HeaderField::Missing;
    let mut world = World::new(&[]);
    let err = world.run(&cfg, request).unwrap_err();
    assert!(matches!(err, DispatchError::Signature(VerifyError::MissingHeader)));
    assert_eq!(err.message(), "missing x-infisical-signature header");
    assert_eq!(world.fetches, 0);
}

#[test]
fn bad_signature_is_refused() {
    let cfg = config(vec![service("papra", "x", "strict", None)], Vec::new());
    let mut request = signed_request(BODY, "d");
    request.body = b"{}".to_vec();
    let mut world = World::new(&[]);
    let err = world.run(&cfg, request).unwrap_err();
    assert!(matches!(err, DispatchError::Signature(VerifyError::SignatureMismatch)));
}

#[test]
fn unknown_provider_and_missing_runtime() {
    let cfg = config(Vec::new(), Vec::new());
    let mut request = signed_request(BODY, "d");
    request.provider = "nope".to_string();
    let (_, action) = Dispatch::start(&cfg, request, true);
    match action {
        DispatchAction::Finish(Err(e)) => assert_eq!(e.message(), "unknown provider nope"),
        other => panic!("unexpected action {other:?}"),
    }
    let (_, action) = Dispatch::start(&cfg, signed_request(BODY, "d"), false);
    match action {
        DispatchAction::Finish(Err(e)) => assert_eq!(e.message(), "provider runtime missing for infisical_main"),
        other => panic!("unexpected action {other:?}"),
    }
}

#[test]
fn no_matching_service_applies_nothing() {
    let mut s = service("papra", "x", "strict", None);
    s.secret_selector.environment = "dev".to_string();
    let cfg = config(vec![s], Vec::new());
    let mut world = World::new(&[]);
    let r = world.run(&cfg, signed_request(BODY, "d")).unwrap();
    assert_eq!((r.matched_services, r.applied_services, r.skipped_duplicate), (0, 0, false));
    assert_eq!(r.provider, "infisical_main");
}

#[test]
fn matching_reads_environment_and_path_when_given() {
    let a = service("a", "", "p", None);
    let mut b = service("b", "", "p", None);
    b.secret_selector.secret_path = "/other".to_string();
    let mut c = service("c", "", "p", None);
    c.provider = "else".to_string();
    let services = vec![a, b, c];
    let names = |p: &WebhookPayload| -> Vec<String> {
        match_services(&services, "infisical_main", p).into_iter().map(|s| s.name).collect()
    };
    assert_eq!(names(&payload()), vec!["a".to_string()]);
    let open = WebhookPayload { event: None, environment: None, secret_path: None };
    assert_eq!(names(&open), vec!["a".to_string(), "b".to_string()]);
}

#[test]
fn event_key_is_sha256_hex() {
    // SHA-256 of the empty input.
    assert_eq!(
        build_event_key("", "", b""),
        "e3b0c44298fc1c149afbf4c8996fb92427ae41e4649b934ca495991b7852b855"
    );
    // SHA-256 of "abc", split over the three parts.
    assert_eq!(
        build_event_key("a", "b", b"c"),
        "ba7816bf8f01cfea414140de5dae2223b00361a396177a9cb410ff61f20015ad"
    );
    assert_ne!(build_event_key("p", "1", b"x"), build_event_key("p", "2", b"x"));
}

#[test]
fn memory_store_marks_once() {
    let mut store = MemoryIdempotencyStore::new();
    assert!(store.mark_if_new("k"));
    assert!(!store.mark_if_new("k"));
    assert!(store.mark_if_new("j"));
}

#[test]
fn failures_name_the_service() {
    let fetch = DispatchError::Fetch { service: "s".to_string(), detail: "boom".to_string() };
    assert_eq!(fetch.message(), "failed fetching secrets for service s");
    assert_eq!(fetch.detail().as_deref(), Some("boom"));
    let lifecycle = DispatchError::Lifecycle { service: "s".to_string(), detail: "503".to_string() };
    assert_eq!(lifecycle.message(), "failed executing lifecycle action for service s");
    assert_eq!(lifecycle.detail().as_deref(), Some("503"));
    let payload = DispatchError::InvalidPayload("eof".to_string());
    assert_eq!(payload.message(), "invalid webhook JSON payload");
    assert_eq!(payload.detail().as_deref(), Some("eof"));
    assert_eq!(DispatchError::UnknownProvider("p".to_string()).detail(), None);
}

fn flat_files_service() -> ServiceConfig {
    let mut s = service("papra", "", "strict", None);
    s.output = OutputConfig::FlatFiles { directory: "/srv/secrets".to_string(), file_mode: None };
    s
}

#[test]
fn webhook_valid_signature_applies_service() {
    let cfg = config(vec![flat_files_service()], Vec::new());
    let mut world = World::new(&[]);
    world.listed = vec![("AUTH_SECRET".to_string(), "value-1".to_string())];
    let r = world.run(&cfg, signed_request(BODY, "delivery-1")).unwrap();
    assert_eq!((r.matched_services, r.applied_services, r.skipped_duplicate), (1, 1, false));
    assert_eq!(world.fetches, 1);
    assert_eq!(world.written, vec![("/srv/secrets/auth_secret".to_string(), "value-1".to_string())]);
}

#[test]
fn duplicate_delivery_skips_second_apply() {
    let cfg = config(vec![flat_files_service()], Vec::new());
    let mut world = World::new(&[]);
    let first = world.run(&cfg, signed_request(BODY, "delivery-1")).unwrap();
    assert_eq!(first.applied_services, 1);
    assert!(!first.skipped_duplicate);
    let second = world.run(&cfg, signed_request(BODY, "delivery-1")).unwrap();
    assert_eq!(second.applied_services, 0);
    assert!(second.skipped_duplicate);
    assert_eq!(world.fetches, 1);
}
