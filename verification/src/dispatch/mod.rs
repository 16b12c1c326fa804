//! Webhook dispatch: which services an event concerns, the key that makes a
//! delivery idempotent, the placeholder policy a service renders under, and
//! the state machine that runs one webhook from signature to lifecycle hooks.
pub mod delivery;
pub mod engine;
pub mod idempotency;

use crate::config::{
    spec_placeholder_policy, AppConfig, PlaceholderOverride, SecurityProfileConfig, ServiceConfig,
    ServiceView,
};
use crate::placeholders::{apply_placeholder_override, spec_apply_override, PlaceholderPolicy};
use vstd::prelude::*;

verus! {

/// What a webhook delivery did.
#[derive(Debug)]
pub struct DispatchResult {
    pub provider: String,
    pub matched_services: usize,
    pub applied_services: usize,
    pub skipped_duplicate: bool,
}

/// The fields of a webhook body that routing reads.
#[derive(Debug)]
pub struct WebhookPayload {
    pub event: Option<String>,
    pub environment: Option<String>,
    pub secret_path: Option<String>,
}

pub open spec fn opt_view(o: Option<String>) -> Option<Seq<char>> {
    match o {
        Some(s) => Some(s@),
        None => None,
    }
}

/// Whether an event from `provider` concerns `s`: same provider, and the
/// event's environment and secret path, where it names them, equal the
/// service selector's.
pub open spec fn service_matches(
    s: ServiceView,
    provider: Seq<char>,
    environment: Option<Seq<char>>,
    secret_path: Option<Seq<char>>,
) -> bool {
    &&& s.provider == provider
    &&& (environment matches Some(e) ==> s.secret_selector.environment == e)
    &&& (secret_path matches Some(p) ==> s.secret_selector.secret_path == p)
}

/// The services an event concerns, in configuration order.
pub open spec fn spec_match_services(
    services: Seq<ServiceView>,
    provider: Seq<char>,
    environment: Option<Seq<char>>,
    secret_path: Option<Seq<char>>,
) -> Seq<ServiceView>
    decreases services.len(),
{
    if services.len() == 0 {
        seq![]
    } else {
        let before = spec_match_services(services.drop_last(), provider, environment, secret_path);
        if service_matches(services.last(), provider, environment, secret_path) {
            before.push(services.last())
        } else {
            before
        }
    }
}

pub open spec fn services_view(v: Seq<ServiceConfig>) -> Seq<ServiceView> {
    v.map_values(|s: ServiceConfig| s@)
}

/// Equality of an optional string with a string.
fn opt_differs(want: &Option<String>, have: &String) -> (r: bool)
    ensures
        r == (opt_view(*want) matches Some(w) && have@ != w),
{
    match want {
        Some(w) => *have != *w,
        None => false,
    }
}

/// The services an event from `provider_name` concerns.
pub fn match_services(
    services: &Vec<ServiceConfig>,
    provider_name: &str,
    payload: &WebhookPayload,
) -> (r: Vec<ServiceConfig>)
    ensures
        services_view(r@) == spec_match_services(
            services_view(services@),
            provider_name@,
            opt_view(payload.environment),
            opt_view(payload.secret_path),
        ),
{
    let ghost all = services_view(services@);
    let ghost env = opt_view(payload.environment);
    let ghost path = opt_view(payload.secret_path);
    let provider = provider_name.to_owned();
    let mut out: Vec<ServiceConfig> = Vec::new();
    let mut i: usize = 0;
    assert(all.take(0) =~= seq![]);
    while i < services.len()
        invariant
            i <= services.len(),
            all == services_view(services@),
            provider@ == provider_name@,
            env == opt_view(payload.environment),
            path == opt_view(payload.secret_path),
            services_view(out@) == spec_match_services(all.take(i as int), provider_name@, env, path),
        decreases services.len() - i,
    {
        let s = &services[i];
        proof {
            assert(all.take(i + 1).drop_last() =~= all.take(i as int));
            assert(all.take(i + 1).last() == s@);
        }
        if s.provider == provider && !opt_differs(&payload.environment, &s.secret_selector.environment)
            && !opt_differs(&payload.secret_path, &s.secret_selector.secret_path) {
            let ghost before = services_view(out@);
            out.push(s.clone());
            assert(services_view(out@) =~= before.push(s@));
        }
        i = i + 1;
    }
    assert(all.take(services.len() as int) =~= all);
    out
}

pub open spec fn profiles_view(p: Seq<(String, SecurityProfileConfig)>) -> Seq<
    (Seq<char>, SecurityProfileConfig),
> {
    p.map_values(|e: (String, SecurityProfileConfig)| (e.0@, e.1))
}

/// The profile registered under `name`, if any.
pub open spec fn spec_find_profile(
    profiles: Seq<(Seq<char>, SecurityProfileConfig)>,
    name: Seq<char>,
) -> Option<SecurityProfileConfig>
    decreases profiles.len(),
{
    if profiles.len() == 0 {
        None
    } else if profiles[0].0 == name {
        Some(profiles[0].1)
    } else {
        spec_find_profile(profiles.drop_first(), name)
    }
}

/// The security profile registered under `name`, if any.
pub fn find_profile(profiles: &Vec<(String, SecurityProfileConfig)>, name: &String) -> (r: Option<
    SecurityProfileConfig,
>)
    ensures
        r == spec_find_profile(profiles_view(profiles@), name@),
{
    let ghost pv = profiles_view(profiles@);
    let mut i: usize = 0;
    assert(pv.skip(0) =~= pv);
    while i < profiles.len()
        invariant
            i <= profiles.len(),
            pv == profiles_view(profiles@),
            spec_find_profile(pv, name@) == spec_find_profile(pv.skip(i as int), name@),
        decreases profiles.len() - i,
    {
        assert(pv.skip(i as int)[0] == pv[i as int]);
        assert(pv.skip(i as int).drop_first() =~= pv.skip(i + 1));
        if profiles[i].0 == *name {
            return Some(profiles[i].1);
        }
        i = i + 1;
    }
    None
}

/// The policy a service renders under: the `[mimir]` baseline, overridden by
/// the switches its security profile sets, overridden in turn by the switches
/// the service itself sets.
pub open spec fn spec_effective_policy(
    mimir: crate::config::MimirConfig,
    profiles: Seq<(Seq<char>, SecurityProfileConfig)>,
    s: ServiceView,
) -> PlaceholderPolicy {
    let base = spec_placeholder_policy(mimir);
    let profiled = spec_apply_override(
        base,
        match spec_find_profile(profiles, s.security_profile) {
            Some(p) => Some(p.placeholders),
            None => None,
        },
    );
    spec_apply_override(profiled, s.placeholder_policy_override)
}

/// The placeholder policy of a service under `config`.
pub fn effective_placeholder_policy(config: &AppConfig, service: &ServiceConfig) -> (r:
    PlaceholderPolicy)
    ensures
        r == spec_effective_policy(config.mimir, profiles_view(config.security_profiles@), service@),
{
    let base = config.mimir.placeholder_policy();
    let profile = find_profile(&config.security_profiles, &service.security_profile);
    let profiled = match profile {
        Some(p) => apply_placeholder_override(base, Some(&p.placeholders)),
        None => apply_placeholder_override(base, None),
    };
    match &service.placeholder_policy_override {
        Some(o) => apply_placeholder_override(profiled, Some(o)),
        None => apply_placeholder_override(profiled, None),
    }
}

pub open spec fn first_set(a: Option<bool>, b: Option<bool>, c: Option<bool>) -> bool {
    match a {
        Some(x) => x,
        None => match b {
            Some(x) => x,
            None => match c {
                Some(x) => x,
                None => false,
            },
        },
    }
}

/// A service's own switches win over its profile's, which win over the
/// `[mimir]` baseline; a switch nobody sets is denied.
pub proof fn law_policy_layers(
    mimir: crate::config::MimirConfig,
    profiles: Seq<(Seq<char>, SecurityProfileConfig)>,
    s: ServiceView,
)
    ensures
        ({
            let r = spec_effective_policy(mimir, profiles, s);
            let (svc_env, svc_file) = match s.placeholder_policy_override {
                Some(o) => (o.env, o.file),
                None => (None, None),
            };
            let (prof_env, prof_file) = match spec_find_profile(profiles, s.security_profile) {
                Some(p) => (p.placeholders.env, p.placeholders.file),
                None => (None, None),
            };
            &&& r.allow_env_placeholders == first_set(svc_env, prof_env, mimir.placeholders.env)
            &&& r.allow_file_placeholders == first_set(svc_file, prof_file, mimir.placeholders.file)
        }),
{
}

/// Every service an event is routed to belongs to the provider and agrees
/// with the event's environment and secret path; every configured service
/// that agrees is routed to.
pub proof fn law_routing_is_exact(
    services: Seq<ServiceView>,
    provider: Seq<char>,
    environment: Option<Seq<char>>,
    secret_path: Option<Seq<char>>,
)
    ensures
        forall|x: ServiceView|
            #[trigger] spec_match_services(services, provider, environment, secret_path).contains(x)
                <==> services.contains(x) && service_matches(x, provider, environment, secret_path),
    decreases services.len(),
{
    if services.len() > 0 {
        let init = services.drop_last();
        law_routing_is_exact(init, provider, environment, secret_path);
        let m = spec_match_services(services, provider, environment, secret_path);
        let mi = spec_match_services(init, provider, environment, secret_path);
        assert forall|x: ServiceView| #[trigger] m.contains(x) <==> services.contains(x)
            && service_matches(x, provider, environment, secret_path) by {
            if services.contains(x) && service_matches(x, provider, environment, secret_path) {
                let j = choose|j: int| 0 <= j < services.len() && services[j] == x;
                if j < services.len() - 1 {
                    assert(init[j] == x);
                    assert(mi.contains(x));
                    let k = choose|k: int| 0 <= k < mi.len() && mi[k] == x;
                    if service_matches(services.last(), provider, environment, secret_path) {
                        assert(m[k] == x);
                    }
                } else {
                    assert(m[m.len() - 1] == x);
                }
            }
            if m.contains(x) {
                let k = choose|k: int| 0 <= k < m.len() && m[k] == x;
                if k < mi.len() {
                    assert(mi[k] == x);
                    assert(mi.contains(x));
                    let j = choose|j: int| 0 <= j < init.len() && init[j] == x;
                    assert(services[j] == x);
                } else {
                    assert(x == services.last());
                    assert(services[services.len() - 1] == x);
                }
            }
        }
    } else {
        assert forall|x: ServiceView| #[trigger] spec_match_services(
            services,
            provider,
            environment,
            secret_path,
        ).contains(x) <==> services.contains(x) && service_matches(
            x,
            provider,
            environment,
            secret_path,
        ) by {}
    }
}

} // verus!
