//! Lifecycle hooks: which HTTP call follows a service's update, and how its
//! answer is judged.
use crate::config::{LifecycleAction, LifecycleView};
use crate::text::{
    chars_of, lemma_trailing_count_bound, string_of, trailing_count, trim_end_char,
    trim_end_char_bound,
};
use vstd::prelude::*;

verus! {

/// `{admin_url without trailing slashes}/load`.
pub open spec fn spec_caddy_load_endpoint(admin_url: Seq<char>) -> Seq<char> {
    trim_end_char(admin_url, '/') + "/load"@
}

/// `{docker_proxy_url without trailing slashes}/containers/{container}/restart`.
pub open spec fn spec_restart_endpoint(docker_proxy_url: Seq<char>, container: Seq<char>) -> Seq<char> {
    trim_end_char(docker_proxy_url, '/') + "/containers/"@ + container + "/restart"@
}

pub(crate) fn without_trailing_slashes(s: &str) -> (r: String)
    ensures
        r@ == trim_end_char(s@, '/'),
{
    let chars = chars_of(s);
    let end = trim_end_char_bound(&chars, chars.len(), '/');
    assert(chars@.take(chars@.len() as int) =~= s@);
    let r = string_of(&chars, 0, end);
    assert(r@ =~= chars@.take(end as int));
    r
}

/// The Caddy admin route that reloads its configuration.
pub fn caddy_load_endpoint(admin_url: &str) -> (r: String)
    ensures
        r@ == spec_caddy_load_endpoint(admin_url@),
{
    let mut r = without_trailing_slashes(admin_url);
    r.append("/load");
    r
}

/// The Docker API route that restarts `container`.
pub fn restart_endpoint(docker_proxy_url: &str, container: &str) -> (r: String)
    ensures
        r@ == spec_restart_endpoint(docker_proxy_url@, container@),
{
    let mut r = without_trailing_slashes(docker_proxy_url);
    r.append("/containers/");
    r.append(container);
    r.append("/restart");
    r
}

/// Which hook a request belongs to.
#[derive(Debug, Clone, Copy, PartialEq, Eq, Structural)]
pub enum LifecycleHook {
    CaddyReload,
    DockerRestart,
}

/// An HTTP `POST` that a lifecycle action makes.
#[derive(Debug)]
pub struct LifecycleRequest {
    pub hook: LifecycleHook,
    pub url: String,
    /// Whether the body is the empty JSON object (otherwise there is none).
    pub json_empty_body: bool,
}

/// The call a lifecycle action makes, if any.
pub fn lifecycle_request(action: &LifecycleAction) -> (r: Option<LifecycleRequest>)
    ensures
        match action@ {
            LifecycleView::NoAction => r is None,
            LifecycleView::ReloadCaddy { admin_url } => r matches Some(q) && q.hook
                == LifecycleHook::CaddyReload && q.url@ == spec_caddy_load_endpoint(admin_url)
                && q.json_empty_body,
            LifecycleView::RestartContainer { docker_proxy_url, container } => r matches Some(q)
                && q.hook == LifecycleHook::DockerRestart && q.url@ == spec_restart_endpoint(
                docker_proxy_url,
                container,
            ) && !q.json_empty_body,
        },
{
    match action {
        LifecycleAction::NoAction => None,
        LifecycleAction::ReloadCaddy { admin_url } => Some(
            LifecycleRequest {
                hook: LifecycleHook::CaddyReload,
                url: caddy_load_endpoint(admin_url.as_str()),
                json_empty_body: true,
            },
        ),
        LifecycleAction::RestartContainer { docker_proxy_url, container } => Some(
            LifecycleRequest {
                hook: LifecycleHook::DockerRestart,
                url: restart_endpoint(docker_proxy_url.as_str(), container.as_str()),
                json_empty_body: false,
            },
        ),
    }
}

/// A hook whose call was answered with a status outside 2xx.
#[derive(Debug, Clone, Copy, PartialEq, Eq, Structural)]
pub struct LifecycleFailure {
    pub hook: LifecycleHook,
    pub status: u16,
}

/// Judges a hook's HTTP status: 2xx succeeds, anything else fails.
pub fn check_lifecycle_status(hook: LifecycleHook, status: u16) -> (r: Result<(), LifecycleFailure>)
    ensures
        r is Ok <==> 200 <= status <= 299,
        r matches Err(f) ==> f.hook == hook && f.status == status,
{
    if 200 <= status && status <= 299 {
        Ok(())
    } else {
        Err(LifecycleFailure { hook, status })
    }
}

/// Trailing slashes of the base URL do not change the route.
pub proof fn law_endpoints_ignore_trailing_slash(url: Seq<char>, container: Seq<char>)
    ensures
        spec_caddy_load_endpoint(url.push('/')) == spec_caddy_load_endpoint(url),
        spec_restart_endpoint(url.push('/'), container) == spec_restart_endpoint(url, container),
{
    let u = url.push('/');
    assert(u.drop_last() =~= url);
    assert(trailing_count(u, '/') == 1 + trailing_count(url, '/'));
    lemma_trailing_count_bound(url, '/');
    assert(trim_end_char(u, '/') =~= trim_end_char(url, '/'));
}

} // verus!
