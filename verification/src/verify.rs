//! Infisical webhook signatures: the `x-infisical-signature` header
//! `t=<unix seconds>;signature=<hex HMAC-SHA256>`, the replay window, and the
//! tag over `"<t>.<body>"`.
use crate::crypto::{hex_decode, hmac_sha256_matches, spec_hex_decode, spec_hmac_sha256};
use crate::text::{
    char_digit, chars_of, decimal, digit_char, find_char, find_char_in, first_index,
    is_ascii_digit, is_unicode_whitespace, leading_ws, lemma_first_index, lemma_first_index_at,
    range_eq, signed_decimal, signed_decimal_chars, string_of, trailing_ws, trim, trim_bounds,
    lemma_trim_noop,
};
use vstd::prelude::*;
use vstd::utf8::{encode_utf8, is_ascii_chars, is_ascii_chars_encode_utf8, valid_utf8};

verus! {

/// A request header as the request carries it.
#[derive(Debug)]
pub enum HeaderField {
    Missing,
    /// Present, but not visible ASCII text.
    NotText,
    Text(String),
}

/// Why a webhook's signature was refused.
#[derive(Debug, Clone, Copy, PartialEq, Eq, Structural)]
pub enum VerifyError {
    MissingHeader,
    HeaderNotText,
    InvalidTimestamp,
    MissingTimestamp,
    MissingSignature,
    /// The system clock reads a time before the Unix epoch.
    ClockBeforeEpoch,
    StaleTimestamp { delta: u128, tolerance: i64 },
    SignatureNotHex,
    SignatureMismatch,
}

/// The text of a signature error.
pub open spec fn spec_verify_message(e: VerifyError) -> Seq<char> {
    match e {
        VerifyError::MissingHeader => "missing x-infisical-signature header"@,
        VerifyError::HeaderNotText => "x-infisical-signature is not valid utf-8"@,
        VerifyError::InvalidTimestamp => "invalid signature timestamp"@,
        VerifyError::MissingTimestamp => "signature header missing timestamp"@,
        VerifyError::MissingSignature => "signature header missing signature"@,
        VerifyError::ClockBeforeEpoch => "second time provided was later than self"@,
        VerifyError::StaleTimestamp { delta, tolerance } => "stale signature timestamp: delta="@
            + decimal(delta as nat) + "s, tolerance="@ + signed_decimal(tolerance as int) + "s"@,
        VerifyError::SignatureNotHex => "signature is not valid hex"@,
        VerifyError::SignatureMismatch => "signature verification failed"@,
    }
}

impl VerifyError {
    /// The text of the error.
    pub fn message(&self) -> (r: String)
        ensures
            r@ == spec_verify_message(*self),
    {
        match self {
            VerifyError::MissingHeader => String::from_str("missing x-infisical-signature header"),
            VerifyError::HeaderNotText => String::from_str(
                "x-infisical-signature is not valid utf-8",
            ),
            VerifyError::InvalidTimestamp => String::from_str("invalid signature timestamp"),
            VerifyError::MissingTimestamp => String::from_str("signature header missing timestamp"),
            VerifyError::MissingSignature => String::from_str("signature header missing signature"),
            VerifyError::ClockBeforeEpoch => String::from_str(
                "second time provided was later than self",
            ),
            VerifyError::StaleTimestamp { delta, tolerance } => {
                let d = crate::text::decimal_chars(*delta);
                let t = signed_decimal_chars(*tolerance as i128);
                let ds = string_of(&d, 0, d.len());
                let ts = string_of(&t, 0, t.len());
                assert(ds@ =~= decimal(*delta as nat));
                assert(ts@ =~= signed_decimal(*tolerance as int));
                let mut m = String::from_str("stale signature timestamp: delta=");
                m.append(ds.as_str());
                m.append("s, tolerance=");
                m.append(ts.as_str());
                m.append("s");
                m
            },
            VerifyError::SignatureNotHex => String::from_str("signature is not valid hex"),
            VerifyError::SignatureMismatch => String::from_str("signature verification failed"),
        }
    }
}

/// The `;`-separated parts of a header.
pub open spec fn split_parts(s: Seq<char>) -> Seq<Seq<char>>
    decreases s.len(),
{
    proof {
        lemma_first_index(s, ';');
    }
    match first_index(s, ';') {
        None => seq![s],
        Some(i) => seq![s.take(i)] + split_parts(s.skip(i + 1)),
    }
}

/// The trimmed text before the first `=` of a part (the whole part if none).
pub open spec fn part_key(p: Seq<char>) -> Seq<char> {
    match first_index(p, '=') {
        None => trim(p),
        Some(i) => trim(p.take(i)),
    }
}

/// The trimmed text after the first `=` of a part (empty if none).
pub open spec fn part_value(p: Seq<char>) -> Seq<char> {
    match first_index(p, '=') {
        None => seq![],
        Some(i) => trim(p.skip(i + 1)),
    }
}

/// The value of a string of ASCII digits.
pub open spec fn digits_value(d: Seq<char>) -> nat
    decreases d.len(),
{
    if d.len() == 0 {
        0
    } else {
        digits_value(d.drop_last()) * 10 + char_digit(d.last())
    }
}

pub open spec fn all_digits(d: Seq<char>) -> bool {
    forall|i: int| 0 <= i < d.len() ==> is_ascii_digit(#[trigger] d[i])
}

/// `i64::from_str`: an optional sign, then at least one ASCII digit and
/// nothing else, within the range of `i64`.
pub open spec fn spec_parse_i64(s: Seq<char>) -> Option<i64> {
    if s.len() == 0 {
        None
    } else {
        let neg = s[0] == '-';
        let d = if s[0] == '+' || s[0] == '-' {
            s.skip(1)
        } else {
            s
        };
        if d.len() == 0 || !all_digits(d) {
            None
        } else {
            let v: int = if neg {
                -(digits_value(d) as int)
            } else {
                digits_value(d) as int
            };
            if i64::MIN <= v <= i64::MAX {
                Some(v as i64)
            } else {
                None
            }
        }
    }
}

pub open spec fn key_t() -> Seq<char> {
    seq!['t']
}

pub open spec fn key_signature() -> Seq<char> {
    seq!['s', 'i', 'g', 'n', 'a', 't', 'u', 'r', 'e']
}

/// Reads the parts in order: `t` sets the timestamp (a bad number is an
/// error at once), `signature` sets the signature, other keys are ignored,
/// and a later part overrides an earlier one.
pub open spec fn fold_parts(
    parts: Seq<Seq<char>>,
    ts: Option<i64>,
    sig: Option<Seq<char>>,
) -> Result<(Option<i64>, Option<Seq<char>>), VerifyError>
    decreases parts.len(),
{
    if parts.len() == 0 {
        Ok((ts, sig))
    } else {
        let k = part_key(parts[0]);
        let v = part_value(parts[0]);
        if k == key_t() {
            match spec_parse_i64(v) {
                None => Err(VerifyError::InvalidTimestamp),
                Some(n) => fold_parts(parts.drop_first(), Some(n), sig),
            }
        } else if k == key_signature() {
            fold_parts(parts.drop_first(), ts, Some(v))
        } else {
            fold_parts(parts.drop_first(), ts, sig)
        }
    }
}

/// The timestamp and signature of a header.
pub open spec fn spec_parse_signature_header(h: Seq<char>) -> Result<(i64, Seq<char>), VerifyError> {
    match fold_parts(split_parts(h), None, None) {
        Err(e) => Err(e),
        Ok((None, _)) => Err(VerifyError::MissingTimestamp),
        Ok((Some(_), None)) => Err(VerifyError::MissingSignature),
        Ok((Some(t), Some(s))) => Ok((t, s)),
    }
}

proof fn lemma_digits_value_monotone(d: Seq<char>, i: int, j: int)
    requires
        0 <= i <= j <= d.len(),
    ensures
        digits_value(d.take(i)) <= digits_value(d.take(j)),
    decreases j - i,
{
    if i < j {
        lemma_digits_value_monotone(d, i, j - 1);
        assert(d.take(j).drop_last() =~= d.take(j - 1));
    }
}

/// `i64::from_str` on `v[a..b]`.
fn parse_i64_range(v: &Vec<char>, a: usize, b: usize) -> (r: Option<i64>)
    requires
        a <= b <= v.len(),
    ensures
        r == spec_parse_i64(v@.subrange(a as int, b as int)),
{
    let ghost s = v@.subrange(a as int, b as int);
    if a == b {
        return None;
    }
    let neg = v[a] == '-';
    let start = if v[a] == '+' || v[a] == '-' {
        a + 1
    } else {
        a
    };
    let ghost d = v@.subrange(start as int, b as int);
    assert(s[0] == v@[a as int]);
    assert(d =~= if s[0] == '+' || s[0] == '-' {
        s.skip(1)
    } else {
        s
    });
    if start == b {
        assert(d.len() == 0);
        return None;
    }
    let bound: u128 = 9223372036854775808;
    let mut acc: u128 = 0;
    let mut i = start;
    assert(d.take(0) =~= seq![]);
    while i < b
        invariant
            start <= i <= b <= v.len(),
            a < b,
            bound == 9223372036854775808,
            s == v@.subrange(a as int, b as int),
            neg == (s[0] == '-'),
            d == if s[0] == '+' || s[0] == '-' {
                s.skip(1)
            } else {
                s
            },
            d.len() > 0,
            d == v@.subrange(start as int, b as int),
            acc == digits_value(d.take(i - start)),
            acc <= bound,
            forall|j: int| start <= j < i ==> is_ascii_digit(#[trigger] v@[j]),
        decreases b - i,
    {
        let c = v[i];
        if !('0' <= c && c <= '9') {
            assert(d[i - start] == c);
            assert(!is_ascii_digit(d[i - start]));
            assert(!all_digits(d));
            return None;
        }
        let cu = c as u32;
        assert(48 <= cu <= 57);
        let dig = (cu - 48) as u128;
        assert(dig == char_digit(c));
        assert(acc * 10 <= bound * 10);
        assert(d.take(i - start + 1).drop_last() =~= d.take(i - start));
        assert(d.take(i - start + 1).last() == c);
        let next = acc * 10 + dig;
        if next > bound {
            proof {
                lemma_digits_value_monotone(d, i - start + 1, d.len() as int);
                assert(d.take(d.len() as int) =~= d);
            }
            return None;
        }
        acc = next;
        i = i + 1;
    }
    assert(d.take(d.len() as int) =~= d);
    assert forall|j: int| 0 <= j < d.len() implies is_ascii_digit(#[trigger] d[j]) by {
        assert(d[j] == v@[j + start]);
    }
    if neg {
        Some((0 - (acc as i128)) as i64)
    } else if acc <= 9223372036854775807 {
        Some(acc as i64)
    } else {
        None
    }
}

/// Reads `t` and `signature` from the value of an `x-infisical-signature`
/// header.
pub fn parse_signature_header(header: &str) -> (r: Result<(i64, String), VerifyError>)
    ensures
        match r {
            Ok((t, s)) => spec_parse_signature_header(header@) == Ok::<(i64, Seq<char>), VerifyError>(
                (t, s@),
            ),
            Err(e) => spec_parse_signature_header(header@) == Err::<(i64, Seq<char>), VerifyError>(
                e,
            ),
        },
{
    let chars = chars_of(header);
    let n = chars.len();
    let t_key: [char; 1] = ['t'];
    let sig_key: [char; 9] = ['s', 'i', 'g', 'n', 'a', 't', 'u', 'r', 'e'];
    assert(t_key@ =~= key_t());
    assert(sig_key@ =~= key_signature());
    let mut ts: Option<i64> = None;
    let mut sig: Option<String> = None;
    let mut start: usize = 0;
    assert(chars@.skip(0) =~= header@);
    loop
        invariant
            n == chars.len(),
            start <= n,
            t_key@ == key_t(),
            sig_key@ == key_signature(),
            fold_parts(split_parts(header@), None, None) == fold_parts(
                split_parts(chars@.skip(start as int)),
                ts,
                match sig {
                    Some(s) => Some(s@),
                    None => None,
                },
            ),
        decreases n - start,
    {
        let ghost rest = chars@.skip(start as int);
        let semi = find_char(&chars, start, ';');
        let end = match semi {
            Some(k) => k,
            None => n,
        };
        let ghost part = chars@.subrange(start as int, end as int);
        proof {
            lemma_first_index(rest, ';');
            match semi {
                Some(k) => {
                    assert(rest.take(k - start) =~= part);
                    assert(rest.skip(k - start + 1) =~= chars@.skip(k + 1));
                    let x = split_parts(chars@.skip(k + 1));
                    assert(split_parts(rest) == seq![part] + x);
                    assert((seq![part] + x).drop_first() =~= x);
                    assert((seq![part] + x)[0] == part);
                },
                None => {
                    assert(rest =~= part);
                    assert(split_parts(rest) == seq![part]);
                    assert(seq![part].drop_first() =~= Seq::<Seq<char>>::empty());
                },
            }
        }
        let eq = find_char_in(&chars, start, end, '=');
        let (ka, kb, va, vb) = match eq {
            Some(k) => {
                let (ka, kb) = trim_bounds(&chars, start, k);
                let (va, vb) = trim_bounds(&chars, k + 1, end);
                proof {
                    assert(part.take(k - start) =~= chars@.subrange(start as int, k as int));
                    assert(part.skip(k - start + 1) =~= chars@.subrange(k + 1, end as int));
                }
                (ka, kb, va, vb)
            },
            None => {
                let (ka, kb) = trim_bounds(&chars, start, end);
                proof {
                    assert(chars@.subrange(end as int, end as int) =~= seq![]);
                }
                (ka, kb, end, end)
            },
        };
        assert(chars@.subrange(ka as int, kb as int) == part_key(part));
        assert(chars@.subrange(va as int, vb as int) == part_value(part));
        if range_eq(&chars, ka, kb, &t_key) {
            match parse_i64_range(&chars, va, vb) {
                None => {
                    return Err(VerifyError::InvalidTimestamp);
                },
                Some(t) => {
                    ts = Some(t);
                },
            }
        } else if range_eq(&chars, ka, kb, &sig_key) {
            sig = Some(string_of(&chars, va, vb));
        }
        match semi {
            None => {
                let ghost sigv: Option<Seq<char>> = match &sig {
                    Some(x) => Some(x@),
                    None => None,
                };
                assert(fold_parts(Seq::<Seq<char>>::empty(), ts, sigv) == Ok::<
                    (Option<i64>, Option<Seq<char>>),
                    VerifyError,
                >((ts, sigv)));
                match ts {
                    None => {
                        return Err(VerifyError::MissingTimestamp);
                    },
                    Some(t) => match sig {
                        None => {
                            return Err(VerifyError::MissingSignature);
                        },
                        Some(s) => {
                            return Ok((t, s));
                        },
                    },
                }
            },
            Some(k) => {
                start = k + 1;
            },
        }
    }
}

/// The replay check at clock reading `now` (seconds since the Unix epoch;
/// `None` when the clock reads before the epoch): the distance between `now`
/// and the timestamp may not exceed the tolerance.
pub open spec fn spec_check_timestamp(ts: i64, tolerance: i64, now: Option<u64>) -> Result<
    (),
    VerifyError,
> {
    match now {
        None => Err(VerifyError::ClockBeforeEpoch),
        Some(n) => {
            let d: int = n - ts;
            let delta: int = if d < 0 {
                -d
            } else {
                d
            };
            if delta > tolerance {
                Err(VerifyError::StaleTimestamp { delta: delta as u128, tolerance })
            } else {
                Ok(())
            }
        },
    }
}

/// The replay check against a given clock reading.
pub fn validate_timestamp_at(timestamp: i64, tolerance_seconds: i64, now: Option<u64>) -> (r: Result<
    (),
    VerifyError,
>)
    ensures
        r == spec_check_timestamp(timestamp, tolerance_seconds, now),
{
    match now {
        None => Err(VerifyError::ClockBeforeEpoch),
        Some(n) => {
            let d: i128 = (n as i128) - (timestamp as i128);
            let delta: i128 = if d < 0 {
                -d
            } else {
                d
            };
            if delta > tolerance_seconds as i128 {
                Err(VerifyError::StaleTimestamp { delta: delta as u128, tolerance: tolerance_seconds })
            } else {
                Ok(())
            }
        },
    }
}

/// Trusted: `SystemTime::now().duration_since(UNIX_EPOCH)` in whole seconds,
/// `None` when the clock reads before the epoch. The reading depends on the
/// time, so nothing is claimed of it.
#[verifier::external_body]
fn unix_now_seconds() -> (r: Option<u64>) {
    match std::time::SystemTime::now().duration_since(std::time::UNIX_EPOCH) {
        Ok(d) => Some(d.as_secs()),
        Err(_) => None,
    }
}

/// The replay check against the system clock.
pub fn validate_timestamp(timestamp: i64, tolerance_seconds: i64) -> (r: Result<(), VerifyError>)
    ensures
        exists|now: Option<u64>| r == spec_check_timestamp(timestamp, tolerance_seconds, now),
{
    let now = unix_now_seconds();
    validate_timestamp_at(timestamp, tolerance_seconds, now)
}

/// `String::from_utf8_lossy` of a byte string, as bytes.
pub uninterp spec fn spec_utf8_lossy(bytes: Seq<u8>) -> Seq<u8>;

/// Trusted: `String::from_utf8_lossy`, which replaces each invalid UTF-8
/// sequence by U+FFFD; its bytes are named `spec_utf8_lossy`. Claimed beyond
/// the name, as its documentation states: valid UTF-8 comes back unchanged.
#[verifier::external_body]
fn utf8_lossy(bytes: &[u8]) -> (r: Vec<u8>)
    ensures
        r@ == spec_utf8_lossy(bytes@),
        valid_utf8(bytes@) ==> r@ == bytes@,
{
    String::from_utf8_lossy(bytes).into_owned().into_bytes()
}

/// The signed text: `"<timestamp>.<body>"`, the body read as UTF-8 with
/// invalid sequences replaced.
pub open spec fn signed_payload(timestamp: i64, body: Seq<u8>) -> Seq<u8> {
    encode_utf8(signed_decimal(timestamp as int) + seq!['.']) + spec_utf8_lossy(body)
}

/// The payload's leading ASCII text as bytes.
fn ascii_bytes(chars: &Vec<char>) -> (r: Vec<u8>)
    requires
        is_ascii_chars(chars@),
    ensures
        r@ == encode_utf8(chars@),
{
    let mut out: Vec<u8> = Vec::new();
    let mut i: usize = 0;
    while i < chars.len()
        invariant
            i <= chars.len(),
            out@.len() == i,
            forall|j: int| 0 <= j < i ==> out@[j] == chars@[j] as u8,
        decreases chars.len() - i,
    {
        let c = chars[i];
        out.push(c as u8);
        i = i + 1;
    }
    proof {
        is_ascii_chars_encode_utf8(chars@);
    }
    assert(out@ =~= encode_utf8(chars@));
    out
}

/// Checks the tag `signature_hex` over `"<timestamp>.<body>"` with the shared
/// secret.
pub fn verify_hmac(secret: &str, raw_body: &[u8], timestamp: i64, signature_hex: &str) -> (r: Result<
    (),
    VerifyError,
>)
    ensures
        r == spec_check_hmac(secret@, raw_body@, timestamp, signature_hex@),
{
    let mut text = signed_decimal_chars(timestamp as i128);
    text.push('.');
    proof {
        lemma_decimal_ascii(timestamp as int);
        assert(text@ =~= signed_decimal(timestamp as int) + seq!['.']);
    }
    let mut payload = ascii_bytes(&text);
    let body_text = utf8_lossy(raw_body);
    let mut k: usize = 0;
    let ghost head = payload@;
    while k < body_text.len()
        invariant
            k <= body_text.len(),
            payload@ == head + body_text@.take(k as int),
        decreases body_text.len() - k,
    {
        payload.push(body_text[k]);
        assert(head + body_text@.take(k + 1) =~= head + body_text@.take(k as int) + seq![
            body_text@[k as int],
        ]);
        k = k + 1;
    }
    assert(body_text@.take(body_text.len() as int) =~= body_text@);
    match hex_decode(signature_hex.as_bytes()) {
        None => Err(VerifyError::SignatureNotHex),
        Some(expected) => {
            if hmac_sha256_matches(secret.as_bytes(), payload.as_slice(), expected.as_slice()) {
                Ok(())
            } else {
                Err(VerifyError::SignatureMismatch)
            }
        },
    }
}

proof fn lemma_decimal_ascii(n: int)
    ensures
        is_ascii_chars(signed_decimal(n) + seq!['.']),
{
    let m: nat = if n < 0 {
        (-n) as nat
    } else {
        n as nat
    };
    lemma_decimal_digits(m);
    let t = signed_decimal(n) + seq!['.'];
    assert forall|i: int| 0 <= i < t.len() implies '\0' <= #[trigger] t[i] <= '\u{7f}' by {
        if n < 0 {
            if 1 <= i < t.len() - 1 {
                assert(t[i] == decimal(m)[i - 1]);
            }
        } else if i < t.len() - 1 {
            assert(t[i] == decimal(m)[i]);
        }
    }
}

proof fn lemma_decimal_digits(n: nat)
    ensures
        forall|i: int| 0 <= i < decimal(n).len() ==> is_ascii_digit(#[trigger] decimal(n)[i]),
    decreases n,
{
    if n >= 10 {
        lemma_decimal_digits(n / 10);
        assert forall|i: int| 0 <= i < decimal(n).len() implies is_ascii_digit(
            #[trigger] decimal(n)[i],
        ) by {
            if i < decimal(n / 10).len() {
                assert(decimal(n)[i] == decimal(n / 10)[i]);
            }
        }
    }
}

/// The tag check: the signature must be hex, and its bytes the HMAC-SHA256
/// tag of the signed payload under the secret's UTF-8 bytes.
pub open spec fn spec_check_hmac(
    secret: Seq<char>,
    body: Seq<u8>,
    timestamp: i64,
    signature_hex: Seq<char>,
) -> Result<(), VerifyError> {
    match spec_hex_decode(encode_utf8(signature_hex)) {
        None => Err(VerifyError::SignatureNotHex),
        Some(tag) => if tag == spec_hmac_sha256(encode_utf8(secret), signed_payload(timestamp, body)) {
            Ok(())
        } else {
            Err(VerifyError::SignatureMismatch)
        },
    }
}

/// The whole check of a webhook at clock reading `now`: the header must be
/// present and textual and parse; the timestamp must be within the
/// tolerance; the tag must match.
pub open spec fn spec_verify_signature(
    header: HeaderField,
    body: Seq<u8>,
    secret: Seq<char>,
    tolerance: i64,
    now: Option<u64>,
) -> Result<(), VerifyError> {
    match header {
        HeaderField::Missing => Err(VerifyError::MissingHeader),
        HeaderField::NotText => Err(VerifyError::HeaderNotText),
        HeaderField::Text(h) => match spec_parse_signature_header(h@) {
            Err(e) => Err(e),
            Ok((t, sig)) => match spec_check_timestamp(t, tolerance, now) {
                Err(e) => Err(e),
                Ok(()) => spec_check_hmac(secret, body, t, sig),
            },
        },
    }
}

/// Checks an Infisical webhook signature against a given clock reading.
pub fn verify_infisical_signature_at(
    signature_header: &HeaderField,
    raw_body: &[u8],
    shared_secret: &str,
    tolerance_seconds: i64,
    now: Option<u64>,
) -> (r: Result<(), VerifyError>)
    ensures
        r == spec_verify_signature(
            *signature_header,
            raw_body@,
            shared_secret@,
            tolerance_seconds,
            now,
        ),
{
    match signature_header {
        HeaderField::Missing => Err(VerifyError::MissingHeader),
        HeaderField::NotText => Err(VerifyError::HeaderNotText),
        HeaderField::Text(h) => {
            let (t, sig) = match parse_signature_header(h.as_str()) {
                Ok(p) => p,
                Err(e) => {
                    return Err(e);
                },
            };
            match validate_timestamp_at(t, tolerance_seconds, now) {
                Err(e) => Err(e),
                Ok(()) => verify_hmac(shared_secret, raw_body, t, sig.as_str()),
            }
        },
    }
}

/// Checks an Infisical webhook signature against the system clock.
pub fn verify_infisical_signature(
    signature_header: &HeaderField,
    raw_body: &[u8],
    shared_secret: &str,
    tolerance_seconds: i64,
) -> (r: Result<(), VerifyError>)
    ensures
        exists|now: Option<u64>|
            r == spec_verify_signature(
                *signature_header,
                raw_body@,
                shared_secret@,
                tolerance_seconds,
                now,
            ),
{
    let now = unix_now_seconds();
    verify_infisical_signature_at(signature_header, raw_body, shared_secret, tolerance_seconds, now)
}

} // verus!

verus! {

/// The header a sender writes: `t=<timestamp>;signature=<signature>`.
pub open spec fn signature_header_text(ts: i64, sig: Seq<char>) -> Seq<char> {
    seq!['t', '='] + signed_decimal(ts as int) + seq![';'] + key_signature() + seq!['='] + sig
}

proof fn lemma_decimal_shape(n: nat)
    ensures
        decimal(n).len() > 0,
        all_digits(decimal(n)),
        digits_value(decimal(n)) == n,
    decreases n,
{
    lemma_decimal_digits_all(n);
    if n >= 10 {
        lemma_decimal_shape(n / 10);
        let x = decimal(n / 10);
        let c = digit_char(n % 10);
        assert((x + seq![c]).drop_last() =~= x);
        assert((x + seq![c]).last() == c);
        lemma_digit_roundtrip(n % 10);
        assert(decimal(n) == x + seq![c]);
        assert(digits_value(x + seq![c]) == digits_value(x) * 10 + char_digit(c));
        assert((n / 10) * 10 + n % 10 == n);
    } else {
        let c = digit_char(n);
        assert(seq![c].drop_last() =~= Seq::<char>::empty());
        lemma_digit_roundtrip(n);
        assert(decimal(n) == seq![c]);
        assert(digits_value(seq![c]) == digits_value(Seq::<char>::empty()) * 10 + char_digit(c));
    }
}

proof fn lemma_digit_roundtrip(d: nat)
    requires
        d < 10,
    ensures
        char_digit(digit_char(d)) == d,
        is_ascii_digit(digit_char(d)),
{
    assert('0' as u32 == 48);
    assert('1' as u32 == 49);
    assert('2' as u32 == 50);
    assert('3' as u32 == 51);
    assert('4' as u32 == 52);
    assert('5' as u32 == 53);
    assert('6' as u32 == 54);
    assert('7' as u32 == 55);
    assert('8' as u32 == 56);
    assert('9' as u32 == 57);
}

proof fn lemma_decimal_digits_all(n: nat)
    ensures
        forall|i: int| 0 <= i < decimal(n).len() ==> is_ascii_digit(#[trigger] decimal(n)[i]),
    decreases n,
{
    if n >= 10 {
        lemma_decimal_digits_all(n / 10);
        lemma_digit_roundtrip(n % 10);
        assert forall|i: int| 0 <= i < decimal(n).len() implies is_ascii_digit(
            #[trigger] decimal(n)[i],
        ) by {
            if i < decimal(n / 10).len() {
                assert(decimal(n)[i] == decimal(n / 10)[i]);
            }
        }
    } else {
        lemma_digit_roundtrip(n);
    }
}

/// Reading a written timestamp gives it back.
pub proof fn law_timestamp_roundtrip(n: i64)
    ensures
        spec_parse_i64(signed_decimal(n as int)) == Some(n),
{
    if n < 0 {
        let m = (-(n as int)) as nat;
        lemma_decimal_shape(m);
        let s = signed_decimal(n as int);
        assert(s.skip(1) =~= decimal(m));
    } else {
        lemma_decimal_shape(n as nat);
        let d = decimal(n as nat);
        assert(is_ascii_digit(d[0]));
    }
}

proof fn lemma_no_char(s: Seq<char>, c: char)
    requires
        forall|i: int| 0 <= i < s.len() ==> s[i] != c,
    ensures
        first_index(s, c) is None,
{
    crate::text::lemma_first_index_none(s, c);
}

pub open spec fn header_t_part(ts: i64) -> Seq<char> {
    seq!['t', '='] + signed_decimal(ts as int)
}

pub open spec fn header_sig_part(sig: Seq<char>) -> Seq<char> {
    key_signature() + seq!['='] + sig
}

proof fn lemma_signed_decimal_plain(ts: i64)
    ensures
        signed_decimal(ts as int).len() > 0,
        forall|i: int|
            0 <= i < signed_decimal(ts as int).len() ==> #[trigger] signed_decimal(ts as int)[i]
                != ';' && signed_decimal(ts as int)[i] != '=' && !is_unicode_whitespace(
                signed_decimal(ts as int)[i],
            ),
{
    let d = signed_decimal(ts as int);
    let m: nat = if ts < 0 {
        (-(ts as int)) as nat
    } else {
        ts as nat
    };
    lemma_decimal_shape(m);
    assert forall|i: int| 0 <= i < d.len() implies #[trigger] d[i] != ';' && d[i] != '='
        && !is_unicode_whitespace(d[i]) by {
        if ts < 0 {
            if i > 0 {
                assert(d[i] == decimal(m)[i - 1]);
            }
        } else {
            assert(d[i] == decimal(m)[i]);
        }
    }
}

proof fn lemma_split_header(ts: i64, sig: Seq<char>)
    requires
        forall|i: int| 0 <= i < sig.len() ==> is_hex_char(#[trigger] sig[i]),
    ensures
        split_parts(signature_header_text(ts, sig)) == seq![header_t_part(ts), header_sig_part(sig)],
{
    let d = signed_decimal(ts as int);
    let a = header_t_part(ts);
    let b = header_sig_part(sig);
    let h = signature_header_text(ts, sig);
    lemma_signed_decimal_plain(ts);
    assert(h =~= a + seq![';'] + b);
    assert forall|i: int| 0 <= i < a.len() implies a[i] != ';' by {
        if i >= 2 {
            assert(a[i] == d[i - 2]);
        }
    }
    lemma_first_index_at(h, ';', a.len() as int);
    assert(h.take(a.len() as int) =~= a);
    assert(h.skip(a.len() as int + 1) =~= b);
    assert forall|i: int| 0 <= i < b.len() implies b[i] != ';' by {
        if i >= 10 {
            assert(b[i] == sig[i - 10]);
            assert(is_hex_char(sig[i - 10]));
        }
    }
    lemma_no_char(b, ';');
    assert(split_parts(b) == seq![b]);
    assert(seq![a] + seq![b] =~= seq![a, b]);
}

proof fn lemma_t_part(ts: i64)
    ensures
        part_key(header_t_part(ts)) == key_t(),
        part_value(header_t_part(ts)) == signed_decimal(ts as int),
{
    let d = signed_decimal(ts as int);
    let a = header_t_part(ts);
    lemma_signed_decimal_plain(ts);
    lemma_first_index_at(a, '=', 1);
    assert(a.take(1) =~= seq!['t']);
    lemma_trim_noop(seq!['t']);
    assert(a.skip(2) =~= d);
    assert(!is_unicode_whitespace(d[0]));
    assert(!is_unicode_whitespace(d[d.len() - 1]));
    lemma_trim_noop(d);
}

proof fn lemma_sig_part(sig: Seq<char>)
    requires
        forall|i: int| 0 <= i < sig.len() ==> is_hex_char(#[trigger] sig[i]),
    ensures
        part_key(header_sig_part(sig)) == key_signature(),
        part_value(header_sig_part(sig)) == sig,
{
    let b = header_sig_part(sig);
    lemma_first_index_at(b, '=', 9);
    assert(b.take(9) =~= key_signature());
    lemma_trim_noop(key_signature());
    assert(b.skip(10) =~= sig);
    if sig.len() > 0 {
        assert(is_hex_char(sig[0]));
        assert(is_hex_char(sig[sig.len() - 1]));
    }
    lemma_trim_noop(sig);
}

/// Reading a written header gives back its timestamp and signature, for a
/// signature of hex digits.
pub proof fn law_signature_header_roundtrip(ts: i64, sig: Seq<char>)
    requires
        forall|i: int| 0 <= i < sig.len() ==> is_hex_char(#[trigger] sig[i]),
    ensures
        spec_parse_signature_header(signature_header_text(ts, sig)) == Ok::<
            (i64, Seq<char>),
            VerifyError,
        >((ts, sig)),
{
    let a = header_t_part(ts);
    let b = header_sig_part(sig);
    lemma_split_header(ts, sig);
    lemma_t_part(ts);
    lemma_sig_part(sig);
    law_timestamp_roundtrip(ts);
    assert(key_signature() != key_t()) by {
        assert(key_signature().len() != key_t().len());
    }
    let parts = seq![a, b];
    assert(parts.drop_first() =~= seq![b]);
    assert(seq![b].drop_first() =~= Seq::<Seq<char>>::empty());
    assert(fold_parts(seq![b], Some(ts), None) == fold_parts(
        Seq::<Seq<char>>::empty(),
        Some(ts),
        Some(sig),
    ));
}

/// The signature a sender computes: lower-case hex of the HMAC-SHA256 tag
/// of `"<timestamp>.<body>"` under the shared secret.
pub open spec fn expected_signature(secret: Seq<char>, ts: i64, body: Seq<u8>) -> Seq<char> {
    crate::crypto::spec_hex_lower(spec_hmac_sha256(encode_utf8(secret), signed_payload(ts, body)))
}

/// A webhook signed with the shared secret is accepted while its timestamp
/// is within the tolerance of the clock.
pub proof fn law_signed_webhook_accepted(
    header: HeaderField,
    body: Seq<u8>,
    secret: Seq<char>,
    tolerance: i64,
    ts: i64,
    now: u64,
)
    requires
        header matches HeaderField::Text(h) && h@ == signature_header_text(
            ts,
            expected_signature(secret, ts, body),
        ),
        -tolerance <= now - ts <= tolerance,
    ensures
        spec_verify_signature(header, body, secret, tolerance, Some(now)) == Ok::<(), VerifyError>(()),
{
    let mac = spec_hmac_sha256(encode_utf8(secret), signed_payload(ts, body));
    let sig = expected_signature(secret, ts, body);
    crate::crypto::law_hex_lower_digits(mac);
    law_signature_header_roundtrip(ts, sig);
    crate::crypto::law_hex_roundtrip(mac);
}

/// A webhook whose timestamp is further from the clock than the tolerance
/// is refused as stale, whatever its signature.
pub proof fn law_stale_webhook_refused(
    header: HeaderField,
    body: Seq<u8>,
    secret: Seq<char>,
    tolerance: i64,
    ts: i64,
    sig: Seq<char>,
    now: u64,
)
    requires
        header matches HeaderField::Text(h) && h@ == signature_header_text(ts, sig),
        forall|i: int| 0 <= i < sig.len() ==> is_hex_char(#[trigger] sig[i]),
        now - ts > tolerance || ts - now > tolerance,
    ensures
        spec_verify_signature(header, body, secret, tolerance, Some(now)) matches Err(
            VerifyError::StaleTimestamp { .. },
        ),
{
    law_signature_header_roundtrip(ts, sig);
}

/// A lower-case hex digit.
pub open spec fn is_hex_char(c: char) -> bool {
    ('0' <= c && c <= '9') || ('a' <= c && c <= 'f')
}

} // verus!
