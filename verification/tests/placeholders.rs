use ratatoskr::config::PlaceholderOverride;
use ratatoskr::placeholders::{
    apply_placeholder_override, resolve_scanned, scan_placeholders, validate_env_name, Lookup,
    Piece, PlaceholderError, PlaceholderPolicy, Scan,
};
use ratatoskr::render::placeholders::scan_placeholders as scan_dollar_placeholders;

fn both() -> PlaceholderPolicy {
    PlaceholderPolicy { allow_env_placeholders: true, allow_file_placeholders: true }
}

fn found_for(scan: &Scan, value: &str) -> Vec<Lookup<String>> {
    scan.pieces
        .iter()
        .map(|p| match p {
            Piece::Text(_) => Lookup::Found(String::new()),
            _ => Lookup::Found(value.to_string()),
        })
        .collect()
}

fn error_text(scan: &Scan) -> String {
    scan.error.as_ref().expect("the scan should fail").message()
}

#[test]
fn placeholders_resolves_env_placeholder() {
    let policy = PlaceholderPolicy { allow_env_placeholders: true, allow_file_placeholders: false };
    let scan = scan_placeholders("token={env:MIMIR_TEST_ENV}", policy);
    assert!(scan.error.is_none());
    assert!(matches!(&scan.pieces[1], Piece::Env(n) if n == "MIMIR_TEST_ENV"));
    let lookups = found_for(&scan, "alpha");
    assert_eq!(resolve_scanned(&scan, &lookups).unwrap(), "token=alpha");
}

#[test]
fn placeholders_resolves_file_placeholder() {
    let policy = PlaceholderPolicy { allow_env_placeholders: false, allow_file_placeholders: true };
    let scan = scan_placeholders("key={file:/run/secrets/secret.txt}", policy);
    assert!(scan.error.is_none());
    assert!(matches!(&scan.pieces[1], Piece::File(p) if p == "/run/secrets/secret.txt"));
    let lookups = found_for(&scan, "super-secret");
    assert_eq!(resolve_scanned(&scan, &lookups).unwrap(), "key=super-secret");
}

#[test]
fn rejects_legacy_env_syntax() {
    let policy = PlaceholderPolicy { allow_env_placeholders: true, allow_file_placeholders: false };
    let scan = scan_placeholders("{$NOPE}", policy);
    assert!(error_text(&scan).contains("legacy env placeholder syntax"));
}

#[test]
fn placeholders_rejects_unknown_placeholder_format() {
    let scan = scan_placeholders("{vault:FOO}", both());
    assert!(error_text(&scan).contains("unsupported placeholder format"));
    assert_eq!(error_text(&scan), "unsupported placeholder format: {vault:FOO}");
}

#[test]
fn policy_helper_applies_override() {
    let base = PlaceholderPolicy { allow_env_placeholders: false, allow_file_placeholders: false };
    let override_cfg = PlaceholderOverride { env: Some(true), file: None };
    let policy = apply_placeholder_override(base, Some(&override_cfg));
    assert!(policy.allow_env_placeholders);
    assert!(!policy.allow_file_placeholders);
}

#[test]
fn override_none_keeps_base() {
    let base = PlaceholderPolicy { allow_env_placeholders: true, allow_file_placeholders: false };
    assert_eq!(apply_placeholder_override(base, None), base);
    let o = PlaceholderOverride { env: Some(false), file: Some(true) };
    let p = apply_placeholder_override(base, Some(&o));
    assert!(!p.allow_env_placeholders);
    assert!(p.allow_file_placeholders);
}

#[test]
fn default_policy_denies_everything() {
    let p = PlaceholderPolicy::default();
    assert!(!p.allow_env_placeholders);
    assert!(!p.allow_file_placeholders);
}

#[test]
fn plain_text_and_json_braces_are_kept() {
    let text = "a {\"json\": 1} and { spaced } and {}";
    let scan = scan_placeholders(text, both());
    assert!(scan.error.is_none());
    let lookups = found_for(&scan, "unused");
    assert_eq!(resolve_scanned(&scan, &lookups).unwrap(), text);
}

#[test]
fn env_placeholders_denied_by_policy() {
    let scan = scan_placeholders("x={env:HOME}", PlaceholderPolicy::default());
    assert_eq!(error_text(&scan), "env placeholders are disabled by policy: {env:...}");
    let scan = scan_placeholders("x={file:/etc/hostname}", PlaceholderPolicy::default());
    assert_eq!(error_text(&scan), "file placeholders are disabled by policy: {file:...}");
}

#[test]
fn env_name_rules() {
    assert_eq!(error_text(&scan_placeholders("{env:}", both())), "empty environment placeholder name");
    assert_eq!(
        error_text(&scan_placeholders("{env:lower}", both())),
        "invalid environment placeholder name: lower"
    );
    assert_eq!(
        error_text(&scan_placeholders("{env:A-B}", both())),
        "invalid environment placeholder name: A-B"
    );
    let scan = scan_placeholders("{env:_A1} {env:1ABC}", both());
    assert!(scan.error.is_none());
}

#[test]
fn file_paths_must_be_absolute() {
    assert_eq!(
        error_text(&scan_placeholders("{file:relative.txt}", both())),
        "file placeholder path must be absolute: relative.txt"
    );
}

#[test]
fn unterminated_placeholder() {
    assert_eq!(error_text(&scan_placeholders("abc {env:X", both())), "unterminated placeholder");
}

fn lookups_for(scan: &Scan, env: Option<&str>, file: Result<&str, &str>) -> Vec<Lookup<String>> {
    scan.pieces
        .iter()
        .map(|p| match p {
            Piece::Text(_) => Lookup::Found(String::new()),
            Piece::Env(_) => match env {
                Some(v) => Lookup::Found(v.to_string()),
                None => Lookup::Missing(String::new()),
            },
            Piece::File(_) => match file {
                Ok(v) => Lookup::Found(v.to_string()),
                Err(d) => Lookup::Missing(d.to_string()),
            },
        })
        .collect()
}

#[test]
fn missing_lookups_report_first_failure() {
    let scan = scan_placeholders("{env:A}-{file:/b}", both());
    assert!(scan.error.is_none());
    assert_eq!(scan.pieces.len(), 5);
    let err = resolve_scanned(&scan, &lookups_for(&scan, None, Err("no such file"))).unwrap_err();
    assert!(matches!(&err, PlaceholderError::EnvNotFound(n) if n == "A"));
    assert_eq!(err.message(), "environment variable not found: A");
    let err = resolve_scanned(&scan, &lookups_for(&scan, Some("a"), Err("no such file"))).unwrap_err();
    assert_eq!(err.message(), "failed to read placeholder file `/b`: no such file");
    let ok = resolve_scanned(&scan, &lookups_for(&scan, Some("a"), Ok("b"))).unwrap();
    assert_eq!(ok, "a-b");
}

#[test]
fn lookup_failure_before_syntax_error_wins() {
    let scan = scan_placeholders("{env:A}{vault:X}", both());
    assert!(scan.error.is_some());
    let lookups = found_for(&scan, "v");
    let err = resolve_scanned(&scan, &lookups).unwrap_err();
    assert_eq!(err.message(), "unsupported placeholder format: {vault:X}");
    let missing: Vec<Lookup<String>> = scan.pieces.iter().map(|_| Lookup::Missing(String::new())).collect();
    let err = resolve_scanned(&scan, &missing).unwrap_err();
    assert_eq!(err.message(), "environment variable not found: A");
}

#[test]
fn render_placeholders_resolves_env_placeholder() {
    let policy = PlaceholderPolicy { allow_env_placeholders: true, allow_file_placeholders: false };
    let scan = scan_dollar_placeholders("token={$RATATOSKR_TEST_ENV}", policy);
    assert!(scan.error.is_none());
    assert!(matches!(&scan.pieces[1], Piece::Env(n) if n == "RATATOSKR_TEST_ENV"));
    let lookups = found_for(&scan, "alpha");
    assert_eq!(resolve_scanned(&scan, &lookups).unwrap(), "token=alpha");
}

#[test]
fn render_placeholders_resolves_file_placeholder() {
    let policy = PlaceholderPolicy { allow_env_placeholders: false, allow_file_placeholders: true };
    let scan = scan_dollar_placeholders("key={file:/tmp/secret.txt}", policy);
    assert!(scan.error.is_none());
    let lookups = found_for(&scan, "super-secret");
    assert_eq!(resolve_scanned(&scan, &lookups).unwrap(), "key=super-secret");
}

#[test]
fn rejects_disallowed_env_placeholder() {
    let policy = PlaceholderPolicy::default();
    let scan = scan_dollar_placeholders("{$NOPE}", policy);
    assert!(error_text(&scan).contains("env placeholders are disabled"));
}

#[test]
fn render_placeholders_rejects_unknown_placeholder_format() {
    let scan = scan_dollar_placeholders("{env:FOO}", both());
    assert!(error_text(&scan).contains("unsupported placeholder format"));
}

#[test]
fn dollar_dialect_unterminated() {
    assert_eq!(error_text(&scan_dollar_placeholders("{$A", both())), "unterminated env placeholder");
    assert_eq!(
        error_text(&scan_dollar_placeholders("{file:/x", both())),
        "unterminated file placeholder"
    );
}

#[test]
fn env_name_validation() {
    assert!(validate_env_name("MY_VAR_2").is_ok());
    assert!(validate_env_name("1ABC").is_ok());
    let err = validate_env_name("").unwrap_err();
    assert_eq!(err.message(), "empty environment placeholder name");
    let err = validate_env_name("my_var").unwrap_err();
    assert_eq!(err.message(), "invalid environment placeholder name: my_var");
}
