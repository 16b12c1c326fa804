//! The dispatch state machine.
//!
//! One webhook delivery is processed as a sequence of steps. Each step that
//! needs the outside world (resolving the webhook secret, parsing the JSON
//! body, the idempotency store, the provider, writing files, lifecycle
//! calls) is an action handed to the caller, whose outcome comes back as an
//! event. The decisions in between (routing, signature check, idempotency
//! key, order of services, counting, error precedence) are made here.
use super::idempotency::{build_event_key, delivery_id, spec_delivery_id, spec_event_key};
use super::{
    match_services, effective_placeholder_policy, opt_view, profiles_view, services_view,
    spec_effective_policy, spec_match_services, DispatchResult, WebhookPayload,
};
use crate::config::{AppConfig, LifecycleAction, OutputConfig, ProviderConfig, ServiceConfig};
use crate::placeholders::PlaceholderPolicy;
use crate::providers::SecretFetchRequest;
use crate::secret_map::SecretMap;
use crate::verify::{spec_verify_signature, verify_infisical_signature_at, HeaderField, VerifyError};
use vstd::prelude::*;

verus! {

/// An incoming webhook delivery.
#[derive(Debug)]
pub struct WebhookRequest {
    /// The provider named by the route.
    pub provider: String,
    /// The `x-infisical-signature` header.
    pub signature: HeaderField,
    /// The `x-infisical-delivery-id` header.
    pub delivery: HeaderField,
    pub body: Vec<u8>,
}

/// Why a delivery failed.
#[derive(Debug)]
pub enum DispatchError {
    UnknownProvider(String),
    ProviderRuntimeMissing(String),
    /// The provider's webhook secret could not be resolved.
    WebhookSecret(String),
    Signature(VerifyError),
    InvalidPayload(String),
    Idempotency(String),
    Fetch { service: String, detail: String },
    Render { service: String, detail: String },
    Lifecycle { service: String, detail: String },
}

/// The text of an error: its own context, without the cause it carries.
pub open spec fn spec_dispatch_message(e: DispatchError) -> Seq<char> {
    match e {
        DispatchError::UnknownProvider(n) => "unknown provider "@ + n@,
        DispatchError::ProviderRuntimeMissing(n) => "provider runtime missing for "@ + n@,
        DispatchError::WebhookSecret(m) => m@,
        DispatchError::Signature(v) => crate::verify::spec_verify_message(v),
        DispatchError::InvalidPayload(_) => "invalid webhook JSON payload"@,
        DispatchError::Idempotency(m) => m@,
        DispatchError::Fetch { service, .. } => "failed fetching secrets for service "@ + service@,
        DispatchError::Render { service, .. } => "failed rendering output for service "@
            + service@,
        DispatchError::Lifecycle { service, .. } => "failed executing lifecycle action for service "@
            + service@,
    }
}

/// The cause under an error's context, where it has one.
pub open spec fn spec_dispatch_detail(e: DispatchError) -> Option<Seq<char>> {
    match e {
        DispatchError::InvalidPayload(d) => Some(d@),
        DispatchError::Fetch { detail, .. } => Some(detail@),
        DispatchError::Render { detail, .. } => Some(detail@),
        DispatchError::Lifecycle { detail, .. } => Some(detail@),
        _ => None,
    }
}

fn prefixed(p: &str, a: &String) -> (r: String)
    ensures
        r@ == p@ + a@,
{
    let mut m = String::from_str(p);
    m.append(a.as_str());
    m
}

impl DispatchError {
    /// The text of the error's own context.
    pub fn message(&self) -> (r: String)
        ensures
            r@ == spec_dispatch_message(*self),
    {
        match self {
            DispatchError::UnknownProvider(n) => prefixed("unknown provider ", n),
            DispatchError::ProviderRuntimeMissing(n) => prefixed("provider runtime missing for ", n),
            DispatchError::WebhookSecret(m) => m.clone(),
            DispatchError::Signature(v) => v.message(),
            DispatchError::InvalidPayload(_) => String::from_str("invalid webhook JSON payload"),
            DispatchError::Idempotency(m) => m.clone(),
            DispatchError::Fetch { service, .. } => prefixed(
                "failed fetching secrets for service ",
                service,
            ),
            DispatchError::Render { service, .. } => prefixed(
                "failed rendering output for service ",
                service,
            ),
            DispatchError::Lifecycle { service, .. } => prefixed(
                "failed executing lifecycle action for service ",
                service,
            ),
        }
    }

    /// The cause the error carries under its context, if any.
    pub fn detail(&self) -> (r: Option<String>)
        ensures
            match r {
                Some(d) => spec_dispatch_detail(*self) == Some(d@),
                None => spec_dispatch_detail(*self) is None,
            },
    {
        match self {
            DispatchError::InvalidPayload(d) => Some(d.clone()),
            DispatchError::Fetch { detail, .. } => Some(detail.clone()),
            DispatchError::Render { detail, .. } => Some(detail.clone()),
            DispatchError::Lifecycle { detail, .. } => Some(detail.clone()),
            _ => None,
        }
    }
}

/// What the caller must do next.
#[derive(Debug)]
pub enum DispatchAction {
    /// Resolve the provider's webhook secret and read the clock.
    ResolveWebhookSecret,
    /// Parse the body as a webhook payload.
    ParsePayload,
    /// Record the key in the idempotency store and say whether it was new.
    MarkIfNew(String),
    /// Fetch a service's secrets from the provider.
    FetchSecrets(SecretFetchRequest),
    /// Render and write a service's output.
    Render { output: OutputConfig, secrets: SecretMap, policy: PlaceholderPolicy },
    /// Run a service's lifecycle action.
    RunLifecycle(LifecycleAction),
    /// The delivery is over.
    Finish(Result<DispatchResult, DispatchError>),
}

/// The outcome of the last action.
#[derive(Debug)]
pub enum DispatchEvent {
    /// The provider's webhook secret, and the clock reading (seconds since
    /// the Unix epoch, `None` before it) the signature is checked against.
    WebhookSecret { secret: Result<String, String>, now: Option<u64> },
    Payload(Result<WebhookPayload, String>),
    Marked(Result<bool, String>),
    Fetched(Result<SecretMap, String>),
    Rendered(Result<(), String>),
    LifecycleDone(Result<(), String>),
}

#[derive(Debug, Clone, Copy, PartialEq, Eq, Structural)]
pub enum Phase {
    AwaitSecret,
    AwaitPayload,
    AwaitMark,
    AwaitFetch,
    AwaitRender,
    AwaitLifecycle,
    Done,
}

/// The event each waiting phase takes.
pub open spec fn phase_accepts(p: Phase, e: DispatchEvent) -> bool {
    match p {
        Phase::AwaitSecret => e is WebhookSecret,
        Phase::AwaitPayload => e is Payload,
        Phase::AwaitMark => e is Marked,
        Phase::AwaitFetch => e is Fetched,
        Phase::AwaitRender => e is Rendered,
        Phase::AwaitLifecycle => e is LifecycleDone,
        Phase::Done => false,
    }
}

/// One delivery in progress.
#[derive(Debug)]
pub struct Dispatch {
    pub request: WebhookRequest,
    pub phase: Phase,
    /// The services the event concerns, once the payload is known.
    pub matched: Vec<ServiceConfig>,
    /// The service being worked on.
    pub next: usize,
    /// Services done so far.
    pub applied: usize,
}

/// The position of the first provider named `name`, if any.
fn find_provider(providers: &Vec<ProviderConfig>, name: &String) -> (r: Option<usize>)
    ensures
        match r {
            Some(i) => i < providers.len() && providers@[i as int].name@ == name@ && forall|j: int|
                0 <= j < i ==> providers@[j].name@ != name@,
            None => forall|j: int| 0 <= j < providers.len() ==> providers@[j].name@ != name@,
        },
{
    let mut i: usize = 0;
    while i < providers.len()
        invariant
            i <= providers.len(),
            forall|j: int| 0 <= j < i ==> providers@[j].name@ != name@,
        decreases providers.len() - i,
    {
        if providers[i].name == *name {
            return Some(i);
        }
        i = i + 1;
    }
    None
}

pub open spec fn finished_ok(a: DispatchAction, provider: Seq<char>, matched: nat, applied: nat, dup: bool) -> bool {
    a matches DispatchAction::Finish(Ok(r)) && r.provider@ == provider && r.matched_services
        == matched && r.applied_services == applied && r.skipped_duplicate == dup
}

/// What `start` gives for a request: the machine holds the request and no
/// services; a provider that is not configured, or has no client, ends the
/// delivery at once; otherwise the webhook secret is needed.
pub open spec fn start_rel(
    config: AppConfig,
    request: WebhookRequest,
    has_runtime: bool,
    d: Dispatch,
    a: DispatchAction,
) -> bool {
    &&& d.request == request
    &&& d.matched@.len() == 0
    &&& (forall|j: int|
        0 <= j < config.providers@.len() ==> config.providers@[j].name@ != request.provider@)
        ==> d.phase == Phase::Done && (a matches DispatchAction::Finish(
        Err(DispatchError::UnknownProvider(n)),
    ) && n@ == request.provider@)
    &&& (exists|j: int|
        0 <= j < config.providers@.len() && config.providers@[j].name@ == request.provider@)
        ==> if has_runtime {
        d.phase == Phase::AwaitSecret && a is ResolveWebhookSecret
    } else {
        d.phase == Phase::Done && (a matches DispatchAction::Finish(
            Err(DispatchError::ProviderRuntimeMissing(n)),
        ) && n@ == request.provider@)
    }
}

/// What `step` does with an event (see `Dispatch::step`): `d0` is the
/// machine before, `d1` after, `r` the action it asks for.
pub open spec fn step_rel(
    config: AppConfig,
    d0: Dispatch,
    event: DispatchEvent,
    d1: Dispatch,
    r: DispatchAction,
) -> bool {
    &&& (d1.request == d0.request)
    &&& (d0.phase == Phase::AwaitFetch || d0.phase == Phase::AwaitRender ==> d1.next == d0.next)
    &&& ((r is Finish) == (d1.phase == Phase::Done))
    &&& (d0.phase == Phase::AwaitSecret ==> match event {
                DispatchEvent::WebhookSecret { secret: Err(m), .. } => r matches DispatchAction::Finish(
                    Err(DispatchError::WebhookSecret(m2)),
                ) && m2@ == m@,
                DispatchEvent::WebhookSecret { secret: Ok(secret), now } => match spec_verify_signature(
                    d0.request.signature,
                    d0.request.body@,
                    secret@,
                    config.defaults.replay_tolerance_seconds,
                    now,
                ) {
                    Err(e) => r matches DispatchAction::Finish(Err(DispatchError::Signature(e2)))
                        && e2 == e,
                    Ok(()) => r is ParsePayload && d1.phase == Phase::AwaitPayload,
                },
                _ => false,
            })
    &&& (d0.phase == Phase::AwaitPayload ==> match event {
                DispatchEvent::Payload(Err(m)) => r matches DispatchAction::Finish(
                    Err(DispatchError::InvalidPayload(m2)),
                ) && m2@ == m@,
                DispatchEvent::Payload(Ok(p)) => d1.phase == Phase::AwaitMark && (r matches DispatchAction::MarkIfNew(
                    k,
                ) && k@ == spec_event_key(
                    d0.request.provider@,
                    spec_delivery_id(d0.request.delivery),
                    d0.request.body@,
                )) && services_view(d1.matched@) == spec_match_services(
                    services_view(config.services@),
                    d0.request.provider@,
                    opt_view(p.environment),
                    opt_view(p.secret_path),
                ),
                _ => false,
            })
    &&& (d0.phase == Phase::AwaitMark ==> match event {
                DispatchEvent::Marked(Err(m)) => r matches DispatchAction::Finish(
                    Err(DispatchError::Idempotency(m2)),
                ) && m2@ == m@,
                DispatchEvent::Marked(Ok(false)) => finished_ok(
                    r,
                    d0.request.provider@,
                    0,
                    0,
                    true,
                ),
                DispatchEvent::Marked(Ok(true)) => if d0.matched.len() == 0 {
                    finished_ok(r, d0.request.provider@, 0, 0, false)
                } else {
                    d1.phase == Phase::AwaitFetch && d1.next == 0 && (r matches DispatchAction::FetchSecrets(
                        q,
                    ) && q.selector@ == d0.matched@[0].secret_selector@)
                },
                _ => false,
            })
    &&& (d0.phase == Phase::AwaitFetch ==> match event {
                DispatchEvent::Fetched(Err(m)) => r matches DispatchAction::Finish(
                    Err(DispatchError::Fetch { service, detail }),
                ) && detail@ == m@ && service@ == d0.matched@[d0.next as int].name@,
                DispatchEvent::Fetched(Ok(secrets)) => d1.phase == Phase::AwaitRender && (r matches DispatchAction::Render {
                    output,
                    secrets: s2,
                    policy,
                } && output@ == d0.matched@[d0.next as int].output@ && s2 == secrets
                    && policy == spec_effective_policy(
                    config.mimir,
                    profiles_view(config.security_profiles@),
                    d0.matched@[d0.next as int]@,
                )),
                _ => false,
            })
    &&& (d0.phase == Phase::AwaitRender ==> match event {
                DispatchEvent::Rendered(Err(m)) => r matches DispatchAction::Finish(
                    Err(DispatchError::Render { service, detail }),
                ) && detail@ == m@ && service@ == d0.matched@[d0.next as int].name@,
                DispatchEvent::Rendered(Ok(())) => d1.phase == Phase::AwaitLifecycle && (r matches DispatchAction::RunLifecycle(
                    a,
                ) && a@ == d0.matched@[d0.next as int].lifecycle@),
                _ => false,
            })
    &&& (d0.phase == Phase::AwaitLifecycle ==> match event {
                DispatchEvent::LifecycleDone(Err(m)) => r matches DispatchAction::Finish(
                    Err(DispatchError::Lifecycle { service, detail }),
                ) && detail@ == m@ && service@ == d0.matched@[d0.next as int].name@,
                DispatchEvent::LifecycleDone(Ok(())) => d1.applied == d0.applied
                    + 1 && if d0.next + 1 < d0.matched.len() {
                    d1.phase == Phase::AwaitFetch && d1.next == d0.next + 1
                        && (r matches DispatchAction::FetchSecrets(q) && q.selector@
                        == d0.matched@[d0.next + 1].secret_selector@)
                } else {
                    finished_ok(
                        r,
                        d0.request.provider@,
                        d0.matched.len() as nat,
                        d0.matched.len() as nat,
                        false,
                    )
                },
                _ => false,
            })
    &&& (d0.phase != Phase::AwaitPayload ==> d1.matched@ == d0.matched@)
}

impl Dispatch {
    /// Consistency of the progress counters with the phase.
    pub open spec fn wf(&self) -> bool {
        &&& self.next <= self.matched.len()
        &&& self.applied == self.next
        &&& (self.phase == Phase::AwaitFetch || self.phase == Phase::AwaitRender || self.phase
            == Phase::AwaitLifecycle) ==> self.next < self.matched.len()
        &&& (self.phase == Phase::AwaitSecret || self.phase == Phase::AwaitPayload)
            ==> self.matched.len() == 0
        &&& self.phase == Phase::AwaitMark ==> self.next == 0
    }

    /// Whether the machine waits for this kind of event.
    pub fn accepts(&self, event: &DispatchEvent) -> (r: bool)
        ensures
            r == phase_accepts(self.phase, *event),
    {
        match (self.phase, event) {
            (Phase::AwaitSecret, DispatchEvent::WebhookSecret { .. }) => true,
            (Phase::AwaitPayload, DispatchEvent::Payload(_)) => true,
            (Phase::AwaitMark, DispatchEvent::Marked(_)) => true,
            (Phase::AwaitFetch, DispatchEvent::Fetched(_)) => true,
            (Phase::AwaitRender, DispatchEvent::Rendered(_)) => true,
            (Phase::AwaitLifecycle, DispatchEvent::LifecycleDone(_)) => true,
            _ => false,
        }
    }

    /// Starts a delivery for the provider the route names. `has_runtime`
    /// says whether a client was built for that provider. The provider must
    /// be configured and have a client; then its webhook secret is needed.
    pub fn start(config: &AppConfig, request: WebhookRequest, has_runtime: bool) -> (r: (
        Dispatch,
        DispatchAction,
    ))
        ensures
            r.0.wf(),
            start_rel(*config, request, has_runtime, r.0, r.1),
    {
        let found = find_provider(&config.providers, &request.provider);
        let (phase, action) = match found {
            None => (
                Phase::Done,
                DispatchAction::Finish(
                    Err(DispatchError::UnknownProvider(request.provider.clone())),
                ),
            ),
            Some(_) => if has_runtime {
                (Phase::AwaitSecret, DispatchAction::ResolveWebhookSecret)
            } else {
                (
                    Phase::Done,
                    DispatchAction::Finish(
                        Err(DispatchError::ProviderRuntimeMissing(request.provider.clone())),
                    ),
                )
            },
        };
        (Dispatch { request, phase, matched: Vec::new(), next: 0, applied: 0 }, action)
    }

    fn service_name(&self) -> (r: String)
        requires
            self.next < self.matched.len(),
        ensures
            r@ == self.matched@[self.next as int].name@,
    {
        self.matched[self.next].name.clone()
    }

    fn fetch_action(&self) -> (r: DispatchAction)
        requires
            self.next < self.matched.len(),
        ensures
            r matches DispatchAction::FetchSecrets(q) && q.selector@ == self.matched@[
                self.next as int
            ].secret_selector@,
    {
        DispatchAction::FetchSecrets(
            SecretFetchRequest { selector: self.matched[self.next].secret_selector.clone() },
        )
    }

    /// Takes the outcome of the last action and says what comes next.
    ///
    /// * Webhook secret: a failure ends the delivery; otherwise the signature
    ///   is checked against the clock reading given with it and the configured replay
    ///   tolerance, and a bad one ends the delivery; otherwise the body is
    ///   to be parsed.
    /// * Payload: a parse failure ends the delivery; otherwise the services
    ///   the event concerns are chosen and the delivery's key is to be marked.
    /// * Marked: a store failure ends the delivery; a key seen before ends it
    ///   as a skipped duplicate with nothing matched or applied; a new key
    ///   starts the first service, or ends the delivery when none matched.
    /// * For each service in order: fetch its secrets, render its output
    ///   under its placeholder policy, run its lifecycle action. A failure
    ///   ends the delivery naming the service; a completed service counts as
    ///   applied, and after the last one the delivery ends with every matched
    ///   service applied.
    pub fn step(&mut self, config: &AppConfig, event: DispatchEvent) -> (r: DispatchAction)
        requires
            old(self).wf(),
            phase_accepts(old(self).phase, event),
        ensures
            final(self).wf(),
            step_rel(*config, *old(self), event, *final(self), r),
    {
        match event {
            DispatchEvent::WebhookSecret { secret: Err(m), .. } => {
                self.phase = Phase::Done;
                DispatchAction::Finish(Err(DispatchError::WebhookSecret(m)))
            },
            DispatchEvent::WebhookSecret { secret: Ok(secret), now } => {
                let checked = verify_infisical_signature_at(
                    &self.request.signature,
                    self.request.body.as_slice(),
                    secret.as_str(),
                    config.defaults.replay_tolerance_seconds,
                    now,
                );
                match checked {
                    Err(e) => {
                        self.phase = Phase::Done;
                        DispatchAction::Finish(Err(DispatchError::Signature(e)))
                    },
                    Ok(()) => {
                        self.phase = Phase::AwaitPayload;
                        DispatchAction::ParsePayload
                    },
                }
            },
            DispatchEvent::Payload(Err(m)) => {
                self.phase = Phase::Done;
                DispatchAction::Finish(Err(DispatchError::InvalidPayload(m)))
            },
            DispatchEvent::Payload(Ok(p)) => {
                let id = delivery_id(&self.request.delivery);
                let key = build_event_key(
                    self.request.provider.as_str(),
                    id.as_str(),
                    self.request.body.as_slice(),
                );
                self.matched = match_services(&config.services, self.request.provider.as_str(), &p);
                self.phase = Phase::AwaitMark;
                DispatchAction::MarkIfNew(key)
            },
            DispatchEvent::Marked(Err(m)) => {
                self.phase = Phase::Done;
                DispatchAction::Finish(Err(DispatchError::Idempotency(m)))
            },
            DispatchEvent::Marked(Ok(is_new)) => {
                if !is_new {
                    self.phase = Phase::Done;
                    DispatchAction::Finish(
                        Ok(
                            DispatchResult {
                                provider: self.request.provider.clone(),
                                matched_services: 0,
                                applied_services: 0,
                                skipped_duplicate: true,
                            },
                        ),
                    )
                } else if self.matched.len() == 0 {
                    self.phase = Phase::Done;
                    DispatchAction::Finish(
                        Ok(
                            DispatchResult {
                                provider: self.request.provider.clone(),
                                matched_services: 0,
                                applied_services: 0,
                                skipped_duplicate: false,
                            },
                        ),
                    )
                } else {
                    self.next = 0;
                    self.phase = Phase::AwaitFetch;
                    self.fetch_action()
                }
            },
            DispatchEvent::Fetched(Err(m)) => {
                self.phase = Phase::Done;
                DispatchAction::Finish(
                    Err(DispatchError::Fetch { service: self.service_name(), detail: m }),
                )
            },
            DispatchEvent::Fetched(Ok(secrets)) => {
                let service = &self.matched[self.next];
                let policy = effective_placeholder_policy(config, service);
                let output = service.output.clone();
                self.phase = Phase::AwaitRender;
                DispatchAction::Render { output, secrets, policy }
            },
            DispatchEvent::Rendered(Err(m)) => {
                self.phase = Phase::Done;
                DispatchAction::Finish(
                    Err(DispatchError::Render { service: self.service_name(), detail: m }),
                )
            },
            DispatchEvent::Rendered(Ok(())) => {
                let lifecycle = self.matched[self.next].lifecycle.clone();
                self.phase = Phase::AwaitLifecycle;
                DispatchAction::RunLifecycle(lifecycle)
            },
            DispatchEvent::LifecycleDone(Err(m)) => {
                self.phase = Phase::Done;
                DispatchAction::Finish(
                    Err(DispatchError::Lifecycle { service: self.service_name(), detail: m }),
                )
            },
            DispatchEvent::LifecycleDone(Ok(())) => {
                self.applied = self.applied + 1;
                self.next = self.next + 1;
                if self.next < self.matched.len() {
                    self.phase = Phase::AwaitFetch;
                    self.fetch_action()
                } else {
                    self.phase = Phase::Done;
                    DispatchAction::Finish(
                        Ok(
                            DispatchResult {
                                provider: self.request.provider.clone(),
                                matched_services: self.matched.len(),
                                applied_services: self.applied,
                                skipped_duplicate: false,
                            },
                        ),
                    )
                }
            },
        }
    }
}

} // verus!
