//! Secret providers: what a fetch asks for, and what is kept of the answer.
pub mod infisical;

use crate::config::{AppConfig, DefaultsConfig, ProviderConfig, ProviderKind, SecretSelector};
use crate::placeholders::{scan_placeholders, spec_scan, PlaceholderPolicy, Scan};
use crate::secret_map::{law_get_after_insert, spec_get, spec_insert, EntryView, SecretMap};
use crate::text::contains_string;
use infisical::InfisicalProviderConfig;
use vstd::prelude::*;

verus! {

/// What a service asks of its provider.
#[derive(Debug)]
pub struct SecretFetchRequest {
    pub selector: SecretSelector,
}

/// One secret as a provider lists it; a secret may have no value.
#[derive(Debug)]
pub struct SecretItem {
    pub secret_key: String,
    pub secret_value: Option<String>,
}

pub open spec fn item_view(i: SecretItem) -> (Seq<char>, Option<Seq<char>>) {
    (
        i.secret_key@,
        match i.secret_value {
            Some(v) => Some(v@),
            None => None,
        },
    )
}

/// Whether a selector keeps the secret named `key`: every key when the
/// include list is empty, otherwise the listed ones.
pub open spec fn selector_keeps(include_keys: Seq<Seq<char>>, key: Seq<char>) -> bool {
    include_keys.len() == 0 || include_keys.contains(key)
}

/// The map built from `items` in order: kept items are inserted, a later
/// item replacing an earlier one of the same name, a missing value counting
/// as empty.
pub open spec fn spec_collect(
    include_keys: Seq<Seq<char>>,
    items: Seq<(Seq<char>, Option<Seq<char>>)>,
) -> Seq<EntryView>
    decreases items.len(),
{
    if items.len() == 0 {
        seq![]
    } else {
        let acc = spec_collect(include_keys, items.drop_last());
        let (k, v) = items.last();
        if selector_keeps(include_keys, k) {
            spec_insert(
                acc,
                k,
                match v {
                    Some(v) => v,
                    None => seq![],
                },
            )
        } else {
            acc
        }
    }
}

/// Keeps the listed secrets that the selector asks for.
pub fn collect_secrets(selector: &SecretSelector, items: Vec<SecretItem>) -> (r: SecretMap)
    ensures
        r@ == spec_collect(
            selector@.include_keys,
            items@.map_values(|i: SecretItem| item_view(i)),
        ),
{
    let ghost iv = items@.map_values(|i: SecretItem| item_view(i));
    let mut out = SecretMap::new();
    let mut idx: usize = 0;
    assert(iv.take(0) =~= seq![]);
    for item in it: items
        invariant
            iv == it.seq().map_values(|i: SecretItem| item_view(i)),
            out@ == spec_collect(selector@.include_keys, iv.take(it.index() as int)),
    {
        let ghost i = it.index() as int;
        proof {
            assert(iv.take(i + 1).drop_last() =~= iv.take(i));
            assert(iv.take(i + 1).last() == item_view(item));
        }
        if selector.include_keys.len() == 0 || contains_string(
            &selector.include_keys,
            &item.secret_key,
        ) {
            let value = match item.secret_value {
                Some(v) => v,
                None => String::new(),
            };
            out.insert(item.secret_key, value);
        }
    }
    assert(iv.take(iv.len() as int) =~= iv);
    out
}

/// The policy under which provider credentials are resolved: both kinds of
/// placeholders allowed.
pub fn provider_secret_policy() -> (r: PlaceholderPolicy)
    ensures
        r.allow_env_placeholders,
        r.allow_file_placeholders,
{
    PlaceholderPolicy { allow_env_placeholders: true, allow_file_placeholders: true }
}

/// Pause after failed attempt number `attempt` (from 0): the backoff times
/// the attempt's ordinal, saturating.
pub fn retry_delay_millis(retry_backoff_millis: u64, attempt: usize) -> (r: u64)
    requires
        attempt < usize::MAX,
    ensures
        r == if retry_backoff_millis * (attempt + 1) <= u64::MAX {
            retry_backoff_millis * (attempt + 1)
        } else {
            u64::MAX as int
        },
{
    let factor = (attempt + 1) as u64;
    match retry_backoff_millis.checked_mul(factor) {
        Some(d) => d,
        None => u64::MAX,
    }
}

/// What a fetch with retries does next.
#[derive(Debug, Clone, Copy, PartialEq, Eq, Structural)]
pub enum RetryAction {
    /// Try the fetch (again).
    Attempt,
    /// Pause this many milliseconds after a failed attempt.
    Pause(u64),
    /// Stop and report the last failure (or that nothing was tried).
    GiveUp,
}

/// A fetch tried up to `max_retries` times, pausing after each failure
/// for the backoff times the attempt's ordinal.
#[derive(Debug)]
pub struct FetchRetry {
    pub max_retries: usize,
    pub retry_backoff_millis: u64,
    /// Attempts that have failed so far.
    pub failed: usize,
    /// Whether the last failure was followed by its pause.
    pub paused: bool,
}

/// The pause after failed attempt number `k` (from 0): the backoff times
/// `k + 1`, saturating.
pub open spec fn retry_pause(backoff: u64, k: int) -> u64 {
    if backoff * (k + 1) <= u64::MAX {
        (backoff * (k + 1)) as u64
    } else {
        u64::MAX
    }
}

pub open spec fn spec_retry_start(max_retries: usize, retry_backoff_millis: u64) -> (FetchRetry, RetryAction) {
    (
        FetchRetry { max_retries, retry_backoff_millis, failed: 0, paused: true },
        if max_retries == 0 {
            RetryAction::GiveUp
        } else {
            RetryAction::Attempt
        },
    )
}

pub open spec fn spec_attempt_failed(s: FetchRetry) -> (FetchRetry, RetryAction) {
    (
        FetchRetry { failed: (s.failed + 1) as usize, paused: false, ..s },
        RetryAction::Pause(retry_pause(s.retry_backoff_millis, s.failed as int)),
    )
}

pub open spec fn spec_pause_done(s: FetchRetry) -> (FetchRetry, RetryAction) {
    (
        FetchRetry { paused: true, ..s },
        if s.failed < s.max_retries {
            RetryAction::Attempt
        } else {
            RetryAction::GiveUp
        },
    )
}

impl FetchRetry {
    pub open spec fn wf(&self) -> bool {
        &&& self.failed <= self.max_retries
        &&& self.failed == 0 ==> self.paused
    }

    /// The first step: an attempt, or giving up at once when no attempt
    /// is allowed.
    pub fn start(max_retries: usize, retry_backoff_millis: u64) -> (r: (FetchRetry, RetryAction))
        ensures
            r.0.wf(),
            r == spec_retry_start(max_retries, retry_backoff_millis),
    {
        let state = FetchRetry { max_retries, retry_backoff_millis, failed: 0, paused: true };
        if max_retries == 0 {
            (state, RetryAction::GiveUp)
        } else {
            (state, RetryAction::Attempt)
        }
    }

    /// An attempt failed: pause for its share of the backoff.
    pub fn attempt_failed(&mut self) -> (r: RetryAction)
        requires
            old(self).wf(),
            old(self).paused,
            old(self).failed < old(self).max_retries,
        ensures
            final(self).wf(),
            (*final(self), r) == spec_attempt_failed(*old(self)),
    {
        let delay = retry_delay_millis(self.retry_backoff_millis, self.failed);
        self.failed = self.failed + 1;
        self.paused = false;
        RetryAction::Pause(delay)
    }

    /// The pause is over: try again while attempts remain, else give up.
    pub fn pause_done(&mut self) -> (r: RetryAction)
        requires
            old(self).wf(),
            !old(self).paused,
        ensures
            final(self).wf(),
            (*final(self), r) == spec_pause_done(*old(self)),
    {
        self.paused = true;
        if self.failed < self.max_retries {
            RetryAction::Attempt
        } else {
            RetryAction::GiveUp
        }
    }
}

/// The actions a fetch goes through from state `s` and action `a` when every
/// attempt fails (at most `fuel` of them).
pub open spec fn failing_trace(s: FetchRetry, a: RetryAction, fuel: nat) -> Seq<RetryAction>
    decreases fuel,
{
    if fuel == 0 {
        seq![]
    } else {
        match a {
            RetryAction::Attempt => if s.paused && s.failed < s.max_retries {
                seq![a] + failing_trace(spec_attempt_failed(s).0, spec_attempt_failed(s).1, (fuel - 1) as nat)
            } else {
                seq![a]
            },
            RetryAction::Pause(_) => if !s.paused {
                seq![a] + failing_trace(spec_pause_done(s).0, spec_pause_done(s).1, (fuel - 1) as nat)
            } else {
                seq![a]
            },
            RetryAction::GiveUp => seq![a],
        }
    }
}

/// Attempt number `k` and its pause, and so on up to `m` attempts; then
/// giving up.
pub open spec fn retry_schedule(k: nat, m: nat, backoff: u64) -> Seq<RetryAction>
    decreases m - k,
{
    if k < m {
        seq![RetryAction::Attempt, RetryAction::Pause(retry_pause(backoff, k as int))]
            + retry_schedule(k + 1, m, backoff)
    } else {
        seq![RetryAction::GiveUp]
    }
}

proof fn lemma_failing_trace_from(s: FetchRetry, fuel: nat)
    requires
        s.paused,
        s.failed <= s.max_retries,
        fuel >= 2 * (s.max_retries - s.failed) + 1,
    ensures
        failing_trace(
            s,
            if s.failed < s.max_retries {
                RetryAction::Attempt
            } else {
                RetryAction::GiveUp
            },
            fuel,
        ) == retry_schedule(s.failed as nat, s.max_retries as nat, s.retry_backoff_millis),
    decreases s.max_retries - s.failed,
{
    if s.failed < s.max_retries {
        let (s2, a2) = spec_attempt_failed(s);
        let (s3, a3) = spec_pause_done(s2);
        lemma_failing_trace_from(s3, (fuel - 2) as nat);
        let tail = failing_trace(s3, a3, (fuel - 2) as nat);
        assert(failing_trace(s2, a2, (fuel - 1) as nat) == seq![a2] + tail);
        assert(seq![RetryAction::Attempt] + (seq![a2] + tail) =~= seq![RetryAction::Attempt, a2]
            + tail);
    }
}

/// A fetch whose every attempt fails is attempted exactly `max_retries`
/// times, pausing after each failure for the backoff times the attempt's
/// ordinal (saturating), and then gives up.
pub proof fn law_retry_schedule(max_retries: usize, retry_backoff_millis: u64)
    ensures
        failing_trace(
            spec_retry_start(max_retries, retry_backoff_millis).0,
            spec_retry_start(max_retries, retry_backoff_millis).1,
            (2 * max_retries + 1) as nat,
        ) == retry_schedule(0, max_retries as nat, retry_backoff_millis),
{
    lemma_failing_trace_from(spec_retry_start(max_retries, retry_backoff_millis).0, (2 * max_retries + 1) as nat);
}

/// How to build the client of one provider.
#[derive(Debug)]
pub enum ProviderClientSettings {
    Infisical {
        name: String,
        config: InfisicalProviderConfig,
        max_retries: usize,
        retry_backoff_millis: u64,
        http_timeout_seconds: u64,
    },
}

impl ProviderKind {
    /// The settings of the client for a provider named `name`, with retry
    /// and timeout taken from `defaults`.
    pub fn into_client(self, name: String, defaults: &DefaultsConfig) -> (r: ProviderClientSettings)
        ensures
            match (r, self) {
                (
                    ProviderClientSettings::Infisical {
                        name: n,
                        config,
                        max_retries,
                        retry_backoff_millis,
                        http_timeout_seconds,
                    },
                    ProviderKind::Infisical(c),
                ) => n == name && config == c && max_retries == defaults.max_retries
                    && retry_backoff_millis == defaults.retry_backoff_millis && http_timeout_seconds
                    == defaults.http_timeout_seconds,
            },
    {
        match self {
            ProviderKind::Infisical(config) => ProviderClientSettings::Infisical {
                name,
                config,
                max_retries: defaults.max_retries,
                retry_backoff_millis: defaults.retry_backoff_millis,
                http_timeout_seconds: defaults.http_timeout_seconds,
            },
        }
    }
}

impl ProviderClientSettings {
    /// The name of the provider the client serves.
    pub fn provider_name(&self) -> (r: &String)
        ensures
            r@ == settings_view(*self).0,
    {
        match self {
            ProviderClientSettings::Infisical { name, .. } => name,
        }
    }

    /// The configured webhook secret read as a template under the provider
    /// policy (both kinds of placeholders allowed); resolving it gives the
    /// secret that signatures are checked with.
    pub fn scan_webhook_secret(&self) -> (r: Scan)
        ensures
            r@ == spec_scan(
                settings_view(*self).1.webhook_secret@,
                PlaceholderPolicy { allow_env_placeholders: true, allow_file_placeholders: true },
            ),
    {
        match self {
            ProviderClientSettings::Infisical { config, .. } => scan_placeholders(
                config.webhook_secret.as_str(),
                provider_secret_policy(),
            ),
        }
    }
}

/// The client settings of a provider under `defaults`.
pub open spec fn spec_client_settings(p: ProviderConfig, defaults: DefaultsConfig) -> (
    Seq<char>,
    InfisicalProviderConfig,
    usize,
    u64,
    u64,
) {
    match p.kind {
        ProviderKind::Infisical(c) => (
            p.name@,
            c,
            defaults.max_retries,
            defaults.retry_backoff_millis,
            defaults.http_timeout_seconds,
        ),
    }
}

pub open spec fn settings_view(s: ProviderClientSettings) -> (
    Seq<char>,
    InfisicalProviderConfig,
    usize,
    u64,
    u64,
) {
    match s {
        ProviderClientSettings::Infisical {
            name,
            config,
            max_retries,
            retry_backoff_millis,
            http_timeout_seconds,
        } => (name@, config, max_retries, retry_backoff_millis, http_timeout_seconds),
    }
}

/// The client settings of every configured provider, in order.
pub fn build_provider_settings(config: &AppConfig) -> (r: Vec<ProviderClientSettings>)
    ensures
        r@.len() == config.providers@.len(),
        forall|i: int|
            0 <= i < r@.len() ==> settings_view(#[trigger] r@[i]) == spec_client_settings(
                config.providers@[i],
                config.defaults,
            ),
{
    let mut out: Vec<ProviderClientSettings> = Vec::new();
    let mut i: usize = 0;
    while i < config.providers.len()
        invariant
            i <= config.providers.len(),
            out@.len() == i,
            forall|j: int|
                0 <= j < i ==> settings_view(#[trigger] out@[j]) == spec_client_settings(
                    config.providers@[j],
                    config.defaults,
                ),
        decreases config.providers.len() - i,
    {
        let p = &config.providers[i];
        out.push(p.kind.clone().into_client(p.name.clone(), &config.defaults));
        i = i + 1;
    }
    out
}

/// A field of a listed secret as the JSON answer has it.
#[derive(Debug)]
pub enum JsonText {
    Absent,
    /// Present, but not a string.
    NotText,
    Text(String),
}

/// One entry of a listing's `secrets` array, read field by field: the name
/// may be spelled `secretKey` or `key`, the value `secretValue` or `value`.
#[derive(Debug)]
pub struct RawSecretEntry {
    pub secret_key: JsonText,
    pub key: JsonText,
    pub secret_value: JsonText,
    pub value: JsonText,
}

/// Why a secrets listing could not be read.
#[derive(Debug, Clone, Copy, PartialEq, Eq, Structural)]
pub enum SecretListError {
    /// The answer has no `secrets` array.
    MissingSecretsArray,
    /// An entry has no textual name.
    EntryMissingKey,
}

pub open spec fn spec_list_error_message(e: SecretListError) -> Seq<char> {
    match e {
        SecretListError::MissingSecretsArray => "missing `secrets` array in provider response"@,
        SecretListError::EntryMissingKey => "secret entry missing key"@,
    }
}

impl SecretListError {
    /// The text of the error.
    pub fn message(&self) -> (r: String)
        ensures
            r@ == spec_list_error_message(*self),
    {
        match self {
            SecretListError::MissingSecretsArray => String::from_str(
                "missing `secrets` array in provider response",
            ),
            SecretListError::EntryMissingKey => String::from_str("secret entry missing key"),
        }
    }
}

/// The first spelling that is present, whatever it holds; its text, if it
/// is a string.
pub open spec fn picked_text(first: JsonText, second: JsonText) -> Option<Seq<char>> {
    let f = match first {
        JsonText::Absent => second,
        _ => first,
    };
    match f {
        JsonText::Text(s) => Some(s@),
        _ => None,
    }
}

pub open spec fn entry_key(e: RawSecretEntry) -> Option<Seq<char>> {
    picked_text(e.secret_key, e.key)
}

pub open spec fn entry_value(e: RawSecretEntry) -> Option<Seq<char>> {
    picked_text(e.secret_value, e.value)
}

pub open spec fn entries_view(o: Option<Vec<RawSecretEntry>>) -> Option<Seq<RawSecretEntry>> {
    match o {
        Some(v) => Some(v@),
        None => None,
    }
}

/// The listed secrets read entry by entry: every entry needs a textual
/// name; a value that is missing or not a string counts as no value.
pub open spec fn spec_items_from_entries(entries: Option<Seq<RawSecretEntry>>) -> Result<
    Seq<(Seq<char>, Option<Seq<char>>)>,
    SecretListError,
> {
    match entries {
        None => Err(SecretListError::MissingSecretsArray),
        Some(es) => if forall|i: int| 0 <= i < es.len() ==> (#[trigger] entry_key(es[i])) is Some {
            Ok(
                es.map_values(
                    |e: RawSecretEntry|
                        (
                            match entry_key(e) {
                                Some(k) => k,
                                None => Seq::<char>::empty(),
                            },
                            entry_value(e),
                        ),
                ),
            )
        } else {
            Err(SecretListError::EntryMissingKey)
        },
    }
}

fn picked(first: &JsonText, second: &JsonText) -> (r: Option<String>)
    ensures
        match r {
            Some(s) => picked_text(*first, *second) == Some(s@),
            None => picked_text(*first, *second) is None,
        },
{
    let f = match first {
        JsonText::Absent => second,
        _ => first,
    };
    match f {
        JsonText::Text(s) => Some(s.clone()),
        _ => None,
    }
}

/// Reads the entries of a listing whose answer did not match the usual
/// shape (`None` when it has no `secrets` array).
pub fn items_from_entries(entries: Option<Vec<RawSecretEntry>>) -> (r: Result<
    Vec<SecretItem>,
    SecretListError,
>)
    ensures
        match r {
            Ok(v) => spec_items_from_entries(entries_view(entries)) == Ok::<
                Seq<(Seq<char>, Option<Seq<char>>)>,
                SecretListError,
            >(v@.map_values(|i: SecretItem| item_view(i))),
            Err(e) => spec_items_from_entries(entries_view(entries)) == Err::<
                Seq<(Seq<char>, Option<Seq<char>>)>,
                SecretListError,
            >(e),
        },
{
    let ghost ev = entries_view(entries);
    let es = match entries {
        None => {
            return Err(SecretListError::MissingSecretsArray);
        },
        Some(es) => es,
    };
    let mut items: Vec<SecretItem> = Vec::new();
    let mut i: usize = 0;
    while i < es.len()
        invariant
            i <= es.len(),
            ev == Some(es@),
            ev == entries_view(entries),
            items@.len() == i,
            forall|j: int| 0 <= j < i ==> (#[trigger] entry_key(es@[j])) is Some,
            forall|j: int|
                0 <= j < i ==> item_view(#[trigger] items@[j]) == (
                    match entry_key(es@[j]) {
                        Some(k) => k,
                        None => Seq::<char>::empty(),
                    },
                    entry_value(es@[j]),
                ),
        decreases es.len() - i,
    {
        let e = &es[i];
        let key = match picked(&e.secret_key, &e.key) {
            Some(k) => k,
            None => {
                assert(entry_key(es@[i as int]) is None);
                assert(!(forall|j: int| 0 <= j < es@.len() ==> (#[trigger] entry_key(es@[j])) is Some));
                return Err(SecretListError::EntryMissingKey);
            },
        };
        let value = picked(&e.secret_value, &e.value);
        items.push(SecretItem { secret_key: key, secret_value: value });
        i = i + 1;
    }
    let ghost f = |e: RawSecretEntry|
        (
            match entry_key(e) {
                Some(k) => k,
                None => Seq::<char>::empty(),
            },
            entry_value(e),
        );
    assert(items@.map_values(|i: SecretItem| item_view(i)) =~= es@.map_values(f));
    Ok(items)
}

/// Only the secrets a selector asks for are kept: with a nonempty include
/// list, a key it does not name is absent; a listed secret's last value is
/// the one kept.
pub proof fn law_collect_keeps_selected(
    include_keys: Seq<Seq<char>>,
    items: Seq<(Seq<char>, Option<Seq<char>>)>,
    k: Seq<char>,
)
    ensures
        !selector_keeps(include_keys, k) ==> spec_get(spec_collect(include_keys, items), k) is None,
        items.len() > 0 && items.last().0 == k && selector_keeps(include_keys, k) ==> spec_get(
            spec_collect(include_keys, items),
            k,
        ) == Some(
            match items.last().1 {
                Some(v) => v,
                None => Seq::<char>::empty(),
            },
        ),
    decreases items.len(),
{
    if items.len() > 0 {
        law_collect_keeps_selected(include_keys, items.drop_last(), k);
        let acc = spec_collect(include_keys, items.drop_last());
        let (k2, v2) = items.last();
        let val = match v2 {
            Some(v) => v,
            None => Seq::<char>::empty(),
        };
        law_get_after_insert(acc, k2, val, k);
    }
}

/// Normalising a normalised path changes nothing.
pub proof fn law_list_path_idempotent(p: Seq<char>)
    ensures
        infisical::spec_list_secrets_path(infisical::spec_list_secrets_path(p))
            == infisical::spec_list_secrets_path(p),
{
    let t = crate::text::trim(p);
    let r = infisical::spec_list_secrets_path(p);
    crate::text::lemma_trim_ends(p);
    law_list_path_rooted(p);
    if t.len() > 0 && t[0] != '/' {
        assert(r.last() == t.last());
    }
    assert(!crate::text::is_unicode_whitespace('/'));
    crate::text::lemma_trim_noop(r);
}

/// The value the last kept item named `k` gives (a missing value counting as
/// empty), or `None` when no kept item has that name.
pub open spec fn last_kept(
    include_keys: Seq<Seq<char>>,
    items: Seq<(Seq<char>, Option<Seq<char>>)>,
    k: Seq<char>,
) -> Option<Seq<char>>
    decreases items.len(),
{
    if items.len() == 0 {
        None
    } else if items.last().0 == k && selector_keeps(include_keys, k) {
        Some(
            match items.last().1 {
                Some(v) => v,
                None => Seq::<char>::empty(),
            },
        )
    } else {
        last_kept(include_keys, items.drop_last(), k)
    }
}

/// What a listing gives: every name reads the value of the last kept item
/// of that name, and a name no kept item has is absent.
pub proof fn law_collect_is_last_kept(
    include_keys: Seq<Seq<char>>,
    items: Seq<(Seq<char>, Option<Seq<char>>)>,
    k: Seq<char>,
)
    ensures
        spec_get(spec_collect(include_keys, items), k) == last_kept(include_keys, items, k),
    decreases items.len(),
{
    if items.len() == 0 {
        assert(spec_get(Seq::<EntryView>::empty(), k) is None) by {
            reveal_with_fuel(spec_get, 1);
        }
    } else {
        law_collect_is_last_kept(include_keys, items.drop_last(), k);
        let acc = spec_collect(include_keys, items.drop_last());
        let (k2, v2) = items.last();
        let val = match v2 {
            Some(v) => v,
            None => Seq::<char>::empty(),
        };
        law_get_after_insert(acc, k2, val, k);
    }
}

/// Every normalised secret path starts with `/`.
pub proof fn law_list_path_rooted(p: Seq<char>)
    ensures
        infisical::spec_list_secrets_path(p).len() > 0,
        infisical::spec_list_secrets_path(p)[0] == '/',
{
    let t = crate::text::trim(p);
    if t.len() > 0 && t[0] != '/' {
        assert((seq!['/'] + t)[0] == '/');
    }
}

} // verus!
