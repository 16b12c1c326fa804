//! Whole deliveries: what holds of every run of the dispatch machine, from
//! `start` through the `step`s that answer its actions.
use super::engine::{
    phase_accepts, start_rel, step_rel, Dispatch, DispatchAction, DispatchError, DispatchEvent,
    Phase,
};
use super::idempotency::{spec_delivery_id, spec_event_key};
use crate::config::AppConfig;
use vstd::prelude::*;

verus! {

/// How far a delivery has come: secret, payload, idempotency mark, the
/// per-service work, done.
pub open spec fn rank(p: Phase) -> int {
    match p {
        Phase::AwaitSecret => 0,
        Phase::AwaitPayload => 1,
        Phase::AwaitMark => 2,
        Phase::AwaitFetch => 3,
        Phase::AwaitRender => 3,
        Phase::AwaitLifecycle => 3,
        Phase::Done => 4,
    }
}

/// The phase the machine is in after asking for an action.
pub open spec fn action_phase(a: DispatchAction, p: Phase) -> bool {
    match a {
        DispatchAction::ResolveWebhookSecret => p == Phase::AwaitSecret,
        DispatchAction::ParsePayload => p == Phase::AwaitPayload,
        DispatchAction::MarkIfNew(_) => p == Phase::AwaitMark,
        DispatchAction::FetchSecrets(_) => p == Phase::AwaitFetch,
        DispatchAction::Render { .. } => p == Phase::AwaitRender,
        DispatchAction::RunLifecycle(_) => p == Phase::AwaitLifecycle,
        DispatchAction::Finish(_) => p == Phase::Done,
    }
}

/// A refusal before the delivery is recorded: unknown provider, no client,
/// no webhook secret, a bad signature, a body that is not a payload.
pub open spec fn refused_early(e: DispatchError) -> bool {
    ||| e is UnknownProvider
    ||| e is ProviderRuntimeMissing
    ||| e is WebhookSecret
    ||| e is Signature
    ||| e is InvalidPayload
}

/// An action with an effect: recording the delivery, fetching, writing, or
/// a lifecycle call.
pub open spec fn has_effect(a: DispatchAction) -> bool {
    ||| a is MarkIfNew
    ||| a is FetchSecrets
    ||| a is Render
    ||| a is RunLifecycle
}

proof fn lemma_step_facts(config: AppConfig, d0: Dispatch, e: DispatchEvent, d1: Dispatch, r: DispatchAction)
    requires
        d0.wf(),
        phase_accepts(d0.phase, e),
        step_rel(config, d0, e, d1, r),
    ensures
        rank(d0.phase) <= rank(d1.phase),
        action_phase(r, d1.phase),
        d1.request == d0.request,
        (r matches DispatchAction::Finish(Err(x)) && refused_early(x)) ==> rank(d0.phase) <= 1,
        rank(d0.phase) >= 2 ==> d1.matched@ == d0.matched@,
        d0.phase != Phase::Done,
{
}

/// Step `i` of a run: state `i` takes event `i`, giving state `i + 1` and
/// action `i + 1`.
pub open spec fn run_step(
    config: AppConfig,
    ds: Seq<Dispatch>,
    es: Seq<DispatchEvent>,
    acts: Seq<DispatchAction>,
    i: int,
) -> bool {
    &&& phase_accepts(ds[i].phase, es[i])
    &&& ds[i + 1].wf()
    &&& step_rel(config, ds[i], es[i], ds[i + 1], acts[i + 1])
}

/// A delivery as it went: the machine's states, the events it was given and
/// the actions it asked for, from `start` on.
pub open spec fn is_run(
    config: AppConfig,
    request: crate::dispatch::engine::WebhookRequest,
    has_runtime: bool,
    ds: Seq<Dispatch>,
    es: Seq<DispatchEvent>,
    acts: Seq<DispatchAction>,
) -> bool {
    &&& ds.len() >= 1
    &&& acts.len() == ds.len()
    &&& es.len() + 1 == ds.len()
    &&& ds[0].wf()
    &&& start_rel(config, request, has_runtime, ds[0], acts[0])
    &&& forall|i: int| 0 <= i < es.len() ==> #[trigger] run_step(config, ds, es, acts, i)
}

proof fn lemma_run_upto(
    config: AppConfig,
    request: crate::dispatch::engine::WebhookRequest,
    has_runtime: bool,
    ds: Seq<Dispatch>,
    es: Seq<DispatchEvent>,
    acts: Seq<DispatchAction>,
    n: int,
)
    requires
        is_run(config, request, has_runtime, ds, es, acts),
        1 <= n <= ds.len(),
    ensures
        forall|j: int| 0 <= j < n ==> (#[trigger] ds[j]).request == request,
        forall|j: int| 0 <= j < n ==> action_phase(#[trigger] acts[j], ds[j].phase),
        forall|j: int| 0 <= j < n ==> (#[trigger] ds[j]).wf(),
        forall|i: int, j: int| 0 <= i <= j < n ==> rank(#[trigger] ds[i].phase) <= rank(#[trigger] ds[j].phase),
        forall|i: int, j: int|
            0 <= i <= j < n && rank(#[trigger] ds[i].phase) >= 2 ==> (#[trigger] ds[j]).matched@ == ds[i].matched@,
        ds[0].phase == Phase::AwaitSecret || ds[0].phase == Phase::Done,
        acts[0] matches DispatchAction::Finish(Err(x)) ==> refused_early(x),
        acts[0] matches DispatchAction::Finish(r) ==> r is Err,
    decreases n,
{
    if n > 1 {
        lemma_run_upto(config, request, has_runtime, ds, es, acts, n - 1);
        let k = n - 2;
        assert(run_step(config, ds, es, acts, k));
        lemma_step_facts(config, ds[k], es[k], ds[k + 1], acts[k + 1]);
        assert forall|i: int, j: int| 0 <= i <= j < n implies rank(#[trigger] ds[i].phase) <= rank(
            #[trigger] ds[j].phase,
        ) by {
            if j == n - 1 && i < j {
                assert(rank(ds[i].phase) <= rank(ds[k].phase));
            }
        }
        assert forall|i: int, j: int|
            0 <= i <= j < n && rank(#[trigger] ds[i].phase) >= 2 implies (#[trigger] ds[j]).matched@
            == ds[i].matched@ by {
            if j == n - 1 && i < j {
                assert(rank(ds[i].phase) <= rank(ds[k].phase));
                assert(ds[k].matched@ == ds[i].matched@);
            }
        }
    }
}

/// A delivery refused before it is recorded (unknown provider, no client,
/// no webhook secret, a bad or stale signature, a body that is not a
/// payload) has no effect: the store is not asked, nothing is fetched or
/// written and no lifecycle call is made.
pub proof fn law_refused_delivery_has_no_effect(
    config: AppConfig,
    request: crate::dispatch::engine::WebhookRequest,
    has_runtime: bool,
    ds: Seq<Dispatch>,
    es: Seq<DispatchEvent>,
    acts: Seq<DispatchAction>,
)
    requires
        is_run(config, request, has_runtime, ds, es, acts),
        acts.last() matches DispatchAction::Finish(Err(x)) && refused_early(x),
    ensures
        forall|i: int| 0 <= i < acts.len() ==> !has_effect(#[trigger] acts[i]),
{
    let n = acts.len() - 1;
    lemma_run_upto(config, request, has_runtime, ds, es, acts, ds.len() as int);
    if n > 0 {
        assert(run_step(config, ds, es, acts, n - 1));
        lemma_step_facts(config, ds[n - 1], es[n - 1], ds[n], acts[n]);
        assert forall|i: int| 0 <= i < acts.len() implies !has_effect(#[trigger] acts[i]) by {
            if i < n {
                assert(rank(ds[i].phase) <= rank(ds[n - 1].phase));
                assert(action_phase(acts[i], ds[i].phase));
            }
        }
    }
}

/// A delivery whose key the store has already seen ends right there, as a
/// skipped duplicate with nothing matched or applied: nothing is fetched or
/// written and no lifecycle call is made.
pub proof fn law_duplicate_delivery_is_skipped(
    config: AppConfig,
    request: crate::dispatch::engine::WebhookRequest,
    has_runtime: bool,
    ds: Seq<Dispatch>,
    es: Seq<DispatchEvent>,
    acts: Seq<DispatchAction>,
    k: int,
)
    requires
        is_run(config, request, has_runtime, ds, es, acts),
        0 <= k < es.len(),
        es[k] == DispatchEvent::Marked(Ok(false)),
    ensures
        k + 2 == acts.len(),
        acts[k + 1] matches DispatchAction::Finish(Ok(r)) && r.provider@ == request.provider@
            && r.matched_services == 0 && r.applied_services == 0 && r.skipped_duplicate,
        forall|i: int|
            0 <= i < acts.len() ==> !(#[trigger] acts[i] is FetchSecrets || acts[i] is Render
                || acts[i] is RunLifecycle),
{
    lemma_run_upto(config, request, has_runtime, ds, es, acts, ds.len() as int);
    assert(run_step(config, ds, es, acts, k));
    lemma_step_facts(config, ds[k], es[k], ds[k + 1], acts[k + 1]);
    assert(ds[k].phase == Phase::AwaitMark);
    if k + 1 < es.len() {
        assert(run_step(config, ds, es, acts, k + 1));
        lemma_step_facts(config, ds[k + 1], es[k + 1], ds[k + 2], acts[k + 2]);
    }
    assert forall|i: int|
        0 <= i < acts.len() implies !(#[trigger] acts[i] is FetchSecrets || acts[i] is Render
        || acts[i] is RunLifecycle) by {
        if i <= k {
            assert(rank(ds[i].phase) <= rank(ds[k].phase));
            assert(action_phase(acts[i], ds[i].phase));
        }
    }
}

/// How many of the actions are fetches.
pub open spec fn fetch_count(acts: Seq<DispatchAction>) -> nat
    decreases acts.len(),
{
    if acts.len() == 0 {
        0
    } else {
        fetch_count(acts.drop_last()) + if acts.last() is FetchSecrets {
            1nat
        } else {
            0nat
        }
    }
}

proof fn lemma_fetch_count_step(acts: Seq<DispatchAction>, j: int)
    requires
        0 <= j < acts.len(),
    ensures
        fetch_count(acts.take(j + 1)) == fetch_count(acts.take(j)) + if acts[j] is FetchSecrets {
            1nat
        } else {
            0nat
        },
{
    assert(acts.take(j + 1).drop_last() =~= acts.take(j));
}

/// The services a payload selects, as the machine holds them.
pub open spec fn selected_by(
    config: AppConfig,
    request: crate::dispatch::engine::WebhookRequest,
    e: DispatchEvent,
    matched: Seq<crate::config::ServiceConfig>,
) -> bool {
    e matches DispatchEvent::Payload(Ok(p)) && crate::dispatch::services_view(matched)
        == crate::dispatch::spec_match_services(
        crate::dispatch::services_view(config.services@),
        request.provider@,
        crate::dispatch::opt_view(p.environment),
        crate::dispatch::opt_view(p.secret_path),
    )
}

proof fn lemma_progress(
    config: AppConfig,
    request: crate::dispatch::engine::WebhookRequest,
    has_runtime: bool,
    ds: Seq<Dispatch>,
    es: Seq<DispatchEvent>,
    acts: Seq<DispatchAction>,
    n: int,
)
    requires
        is_run(config, request, has_runtime, ds, es, acts),
        1 <= n <= ds.len(),
    ensures
        forall|j: int|
            0 <= j < n && rank(#[trigger] ds[j].phase) <= 2 ==> fetch_count(acts.take(j + 1)) == 0,
        forall|j: int|
            0 <= j < n && rank(#[trigger] ds[j].phase) == 3 ==> fetch_count(acts.take(j + 1))
                == ds[j].next + 1,
        forall|j: int|
            0 <= j < n ==> (#[trigger] acts[j] matches DispatchAction::Finish(Ok(r)) ==> (
            !r.skipped_duplicate ==> r.provider@ == request.provider@ && r.applied_services
                == r.matched_services && r.matched_services == ds[j].matched.len()
                && fetch_count(acts.take(j + 1)) == r.matched_services)),
        forall|j: int|
            0 <= j < n ==> (#[trigger] acts[j] matches DispatchAction::FetchSecrets(q) ==> ds[j].next
                < ds[j].matched.len() && q.selector@ == ds[j].matched@[ds[j].next as int].secret_selector@),
        forall|j: int|
            0 <= j < n && rank(#[trigger] ds[j].phase) >= 2 && !(acts[j] matches DispatchAction::Finish(
                Err(_),
            )) ==> exists|i: int| 0 <= i < j && #[trigger] selected_by(config, request, es[i], ds[j].matched@),
    decreases n,
{
    lemma_run_upto(config, request, has_runtime, ds, es, acts, ds.len() as int);
    if n == 1 {
        lemma_fetch_count_step(acts, 0);
        assert(acts.take(0) =~= Seq::<DispatchAction>::empty());
    } else {
        lemma_progress(config, request, has_runtime, ds, es, acts, n - 1);
        let k = n - 2;
        let j = n - 1;
        assert(run_step(config, ds, es, acts, k));
        lemma_step_facts(config, ds[k], es[k], ds[j], acts[j]);
        lemma_fetch_count_step(acts, j);
        assert(rank(ds[k].phase) <= rank(ds[j].phase));
        if rank(ds[j].phase) >= 2 && !(acts[j] matches DispatchAction::Finish(Err(_))) {
            if rank(ds[k].phase) >= 2 {
                let i = choose|i: int| 0 <= i < k && #[trigger] selected_by(config, request, es[i], ds[k].matched@);
                assert(selected_by(config, request, es[i], ds[j].matched@));
            } else {
                assert(selected_by(config, request, es[k], ds[j].matched@));
            }
        }
    }
}

/// A delivery that completes (not as a skipped duplicate) applies every
/// service the payload selects: the result counts them all as matched and
/// applied, there is one fetch per matched service, and the fetch number
/// `k` (from 0) asks for the secrets of the `k`-th matched service, in
/// configuration order.
pub proof fn law_completed_delivery_applies_every_match(
    config: AppConfig,
    request: crate::dispatch::engine::WebhookRequest,
    has_runtime: bool,
    ds: Seq<Dispatch>,
    es: Seq<DispatchEvent>,
    acts: Seq<DispatchAction>,
)
    requires
        is_run(config, request, has_runtime, ds, es, acts),
        acts.last() matches DispatchAction::Finish(Ok(r)) && !r.skipped_duplicate,
    ensures
        acts.last() matches DispatchAction::Finish(Ok(r)) && r.provider@ == request.provider@
            && r.applied_services == r.matched_services && r.matched_services
            == ds.last().matched.len() && fetch_count(acts) == r.matched_services,
        exists|i: int| 0 <= i < es.len() && #[trigger] selected_by(config, request, es[i], ds.last().matched@),
        forall|i: int|
            0 <= i < acts.len() ==> (#[trigger] acts[i] matches DispatchAction::FetchSecrets(q)
                ==> fetch_count(acts.take(i)) < ds.last().matched.len() && q.selector@
                == ds.last().matched@[fetch_count(acts.take(i)) as int].secret_selector@),
{
    let n = ds.len() as int;
    lemma_run_upto(config, request, has_runtime, ds, es, acts, n);
    lemma_progress(config, request, has_runtime, ds, es, acts, n);
    assert(acts.take(n) =~= acts);
    assert(acts[n - 1] == acts.last());
    assert(rank(ds[n - 1].phase) == 4);
    assert forall|i: int| 0 <= i < acts.len() && #[trigger] acts[i] is FetchSecrets implies (
    acts[i] matches DispatchAction::FetchSecrets(q) ==> fetch_count(acts.take(i))
        < ds.last().matched.len() && q.selector@ == ds.last().matched@[fetch_count(
        acts.take(i),
    ) as int].secret_selector@) by {
        assert(action_phase(acts[i], ds[i].phase));
        assert(rank(ds[i].phase) == 3);
        lemma_fetch_count_step(acts, i);
        assert(ds[n - 1].matched@ == ds[i].matched@);
    }
}

/// The key a run asks the store to mark: the delivery's event key.
proof fn lemma_mark_key(
    config: AppConfig,
    request: crate::dispatch::engine::WebhookRequest,
    has_runtime: bool,
    ds: Seq<Dispatch>,
    es: Seq<DispatchEvent>,
    acts: Seq<DispatchAction>,
    i: int,
)
    requires
        is_run(config, request, has_runtime, ds, es, acts),
        0 <= i < acts.len(),
        acts[i] is MarkIfNew,
    ensures
        acts[i] matches DispatchAction::MarkIfNew(k) && k@ == spec_event_key(
            request.provider@,
            spec_delivery_id(request.delivery),
            request.body@,
        ),
{
    lemma_run_upto(config, request, has_runtime, ds, es, acts, ds.len() as int);
    assert(i > 0) by {
        if i == 0 {
            assert(action_phase(acts[0], ds[0].phase));
        }
    }
    assert(run_step(config, ds, es, acts, i - 1));
    lemma_step_facts(config, ds[i - 1], es[i - 1], ds[i], acts[i]);
}

/// A webhook delivered again (same provider, delivery id and body) is
/// skipped: both deliveries ask the store to mark the same key, and once the
/// store holds that key it answers the second one that the key is not new,
/// which ends that delivery as a skipped duplicate with nothing fetched,
/// written or called.
pub proof fn law_redelivery_is_skipped(
    config: AppConfig,
    first: crate::dispatch::engine::WebhookRequest,
    rt1: bool,
    ds1: Seq<Dispatch>,
    es1: Seq<DispatchEvent>,
    acts1: Seq<DispatchAction>,
    i: int,
    second: crate::dispatch::engine::WebhookRequest,
    rt2: bool,
    ds2: Seq<Dispatch>,
    es2: Seq<DispatchEvent>,
    acts2: Seq<DispatchAction>,
    j: int,
    seen: Set<Seq<char>>,
)
    requires
        is_run(config, first, rt1, ds1, es1, acts1),
        is_run(config, second, rt2, ds2, es2, acts2),
        first.provider@ == second.provider@,
        spec_delivery_id(first.delivery) == spec_delivery_id(second.delivery),
        first.body@ == second.body@,
        0 <= i < acts1.len(),
        acts1[i] is MarkIfNew,
        0 <= j < es2.len(),
        acts2[j] is MarkIfNew,
        seen.contains(acts1[i]->MarkIfNew_0@),
        es2[j] == DispatchEvent::Marked(Ok(!seen.contains(acts2[j]->MarkIfNew_0@))),
    ensures
        acts1[i]->MarkIfNew_0@ == acts2[j]->MarkIfNew_0@,
        j + 2 == acts2.len(),
        acts2[j + 1] matches DispatchAction::Finish(Ok(r)) && r.provider@ == second.provider@
            && r.matched_services == 0 && r.applied_services == 0 && r.skipped_duplicate,
        forall|k: int|
            0 <= k < acts2.len() ==> !(#[trigger] acts2[k] is FetchSecrets || acts2[k] is Render
                || acts2[k] is RunLifecycle),
{
    lemma_mark_key(config, first, rt1, ds1, es1, acts1, i);
    lemma_mark_key(config, second, rt2, ds2, es2, acts2, j);
    law_duplicate_delivery_is_skipped(config, second, rt2, ds2, es2, acts2, j);
}

} // verus!
