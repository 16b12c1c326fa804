use hmac::{Hmac, Mac};
use ratatoskr::verify::{
    parse_signature_header, validate_timestamp, validate_timestamp_at, verify_hmac,
    verify_infisical_signature, verify_infisical_signature_at, HeaderField, VerifyError,
};
use sha2::Sha256;
use std::time::{SystemTime, UNIX_EPOCH};

type HmacSha256 = Hmac<Sha256>;

const SECRET: &str = "top-secret";
const BODY: &[u8] = br#"{"event":"secrets.modified"}"#;

fn now() -> i64 {
    SystemTime::now().duration_since(UNIX_EPOCH).unwrap().as_secs() as i64
}

fn sign(secret: &str, body: &[u8], timestamp: i64) -> String {
    let payload = format!("{timestamp}.{}", String::from_utf8_lossy(body));
    let mut mac = HmacSha256::new_from_slice(secret.as_bytes()).unwrap();
    mac.update(payload.as_bytes());
    hex::encode(mac.finalize().into_bytes())
}

fn header(timestamp: i64, signature: &str) -> HeaderField {
    HeaderField::Text(format!("t={timestamp};signature={signature}"))
}

#[test]
fn verifies_valid_header() {
    let timestamp = now();
    let signature = sign(SECRET, BODY, timestamp);
    let result = verify_infisical_signature(&header(timestamp, &signature), BODY, SECRET, 300);
    assert!(result.is_ok());
}

#[test]
fn rejects_stale_timestamp() {
    let timestamp = now() - 1000;
    let signature = sign(SECRET, BODY, timestamp);
    let result = verify_infisical_signature(&header(timestamp, &signature), BODY, SECRET, 300);
    assert!(result.is_err());
}

#[test]
fn stale_timestamp_reports_delta_and_tolerance() {
    let err = validate_timestamp_at(1_000, 300, Some(2_000)).unwrap_err();
    assert_eq!(err, VerifyError::StaleTimestamp { delta: 1000, tolerance: 300 });
    assert_eq!(err.message(), "stale signature timestamp: delta=1000s, tolerance=300s");
    let err = validate_timestamp_at(3_000, 300, Some(2_000)).unwrap_err();
    assert_eq!(err, VerifyError::StaleTimestamp { delta: 1000, tolerance: 300 });
    let err = validate_timestamp_at(0, -1, Some(0)).unwrap_err();
    assert_eq!(err.message(), "stale signature timestamp: delta=0s, tolerance=-1s");
}

#[test]
fn timestamp_within_tolerance_is_accepted() {
    assert!(validate_timestamp_at(1_700, 300, Some(2_000)).is_ok());
    assert!(validate_timestamp_at(2_300, 300, Some(2_000)).is_ok());
    assert!(validate_timestamp_at(1_699, 300, Some(2_000)).is_err());
    assert_eq!(validate_timestamp_at(5, 300, None), Err(VerifyError::ClockBeforeEpoch));
    assert!(validate_timestamp(now(), 300).is_ok());
}

#[test]
fn extreme_timestamps_are_stale_not_overflowing() {
    let err = validate_timestamp_at(i64::MIN, 300, Some(u64::MAX)).unwrap_err();
    let expected = (u64::MAX as u128) + (1u128 << 63);
    assert_eq!(err, VerifyError::StaleTimestamp { delta: expected, tolerance: 300 });
}

#[test]
fn parses_header_parts() {
    assert_eq!(parse_signature_header("t=42;signature=abcd"), Ok((42, "abcd".to_string())));
    assert_eq!(
        parse_signature_header(" signature = ff ; t = -7 ; extra=1"),
        Ok((-7, "ff".to_string()))
    );
    assert_eq!(parse_signature_header("t=1;t=2;signature=a;signature=b"), Ok((2, "b".to_string())));
    assert_eq!(parse_signature_header("t=+5;signature="), Ok((5, String::new())));
}

#[test]
fn header_parse_errors() {
    assert_eq!(parse_signature_header("signature=ab"), Err(VerifyError::MissingTimestamp));
    assert_eq!(parse_signature_header("t=12"), Err(VerifyError::MissingSignature));
    assert_eq!(parse_signature_header("t=abc;signature=ab"), Err(VerifyError::InvalidTimestamp));
    assert_eq!(parse_signature_header("t;signature=ab"), Err(VerifyError::InvalidTimestamp));
    assert_eq!(
        parse_signature_header("t=99999999999999999999;signature=ab"),
        Err(VerifyError::InvalidTimestamp)
    );
    assert_eq!(parse_signature_header(""), Err(VerifyError::MissingTimestamp));
    assert_eq!(VerifyError::MissingTimestamp.message(), "signature header missing timestamp");
}

#[test]
fn header_presence_errors() {
    let r = verify_infisical_signature_at(&HeaderField::Missing, BODY, SECRET, 300, Some(0));
    assert_eq!(r, Err(VerifyError::MissingHeader));
    assert_eq!(VerifyError::MissingHeader.message(), "missing x-infisical-signature header");
    let r = verify_infisical_signature_at(&HeaderField::NotText, BODY, SECRET, 300, Some(0));
    assert_eq!(r, Err(VerifyError::HeaderNotText));
}

#[test]
fn hmac_checks() {
    let sig = sign(SECRET, BODY, 42);
    assert_eq!(verify_hmac(SECRET, BODY, 42, &sig), Ok(()));
    assert_eq!(verify_hmac(SECRET, BODY, 43, &sig), Err(VerifyError::SignatureMismatch));
    assert_eq!(verify_hmac("other", BODY, 42, &sig), Err(VerifyError::SignatureMismatch));
    assert_eq!(verify_hmac(SECRET, BODY, 42, "zz"), Err(VerifyError::SignatureNotHex));
    assert_eq!(verify_hmac(SECRET, BODY, 42, "abc"), Err(VerifyError::SignatureNotHex));
    assert_eq!(verify_hmac(SECRET, BODY, 42, &sig.to_uppercase()), Ok(()));
    assert_eq!(verify_hmac(SECRET, BODY, 42, &sig[..62]), Err(VerifyError::SignatureMismatch));
    assert_eq!(VerifyError::SignatureMismatch.message(), "signature verification failed");
}

#[test]
fn hmac_known_value() {
    // HMAC-SHA256 with key "key" over "0.body".
    let expected = sign("key", b"body", 0);
    assert_eq!(expected.len(), 64);
    assert_eq!(verify_hmac("key", b"body", 0, &expected), Ok(()));
    assert_eq!(verify_hmac("key", b"body", 0, &"0".repeat(64)), Err(VerifyError::SignatureMismatch));
}

#[test]
fn invalid_utf8_body_is_read_lossily() {
    let body: &[u8] = &[0x66, 0xff, 0x6f];
    let sig = sign(SECRET, body, 10);
    assert_eq!(verify_hmac(SECRET, body, 10, &sig), Ok(()));
    let replaced = "f\u{fffd}o".as_bytes();
    assert_eq!(verify_hmac(SECRET, replaced, 10, &sig), Ok(()));
}

#[test]
fn full_check_at_fixed_clock() {
    let sig = sign(SECRET, BODY, 1_000);
    let h = header(1_000, &sig);
    assert_eq!(verify_infisical_signature_at(&h, BODY, SECRET, 300, Some(1_200)), Ok(()));
    assert_eq!(
        verify_infisical_signature_at(&h, BODY, SECRET, 300, Some(1_301)),
        Err(VerifyError::StaleTimestamp { delta: 301, tolerance: 300 })
    );
    assert_eq!(
        verify_infisical_signature_at(&h, b"tampered", SECRET, 300, Some(1_000)),
        Err(VerifyError::SignatureMismatch)
    );
}

#[test]
fn clock_before_epoch_reads_as_the_system_time_error() {
    assert_eq!(VerifyError::ClockBeforeEpoch.message(), "second time provided was later than self");
}
