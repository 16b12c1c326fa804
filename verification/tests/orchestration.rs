use ratatoskr::config::LifecycleAction;
use ratatoskr::orchestration::{
    caddy_load_endpoint, check_lifecycle_status, lifecycle_request, restart_endpoint,
    LifecycleHook,
};

#[test]
fn builds_caddy_reload_url() {
    assert_eq!(caddy_load_endpoint("http://caddy:2019/"), "http://caddy:2019/load");
}

#[test]
fn builds_restart_url() {
    assert_eq!(
        restart_endpoint("http://proxy:2375/", "authentik-server"),
        "http://proxy:2375/containers/authentik-server/restart"
    );
}

#[test]
fn endpoints_trim_every_trailing_slash() {
    assert_eq!(caddy_load_endpoint("http://caddy:2019///"), "http://caddy:2019/load");
    assert_eq!(caddy_load_endpoint("http://caddy:2019"), "http://caddy:2019/load");
    assert_eq!(restart_endpoint("http://proxy:2375", "c"), "http://proxy:2375/containers/c/restart");
}

#[test]
fn lifecycle_requests() {
    assert!(lifecycle_request(&LifecycleAction::NoAction).is_none());
    let r = lifecycle_request(&LifecycleAction::ReloadCaddy { admin_url: "http://caddy:2019/".to_string() }).unwrap();
    assert_eq!(r.hook, LifecycleHook::CaddyReload);
    assert_eq!(r.url, "http://caddy:2019/load");
    assert!(r.json_empty_body);
    let r = lifecycle_request(&LifecycleAction::RestartContainer {
        docker_proxy_url: "http://proxy:2375".to_string(),
        container: "app".to_string(),
    })
    .unwrap();
    assert_eq!(r.hook, LifecycleHook::DockerRestart);
    assert_eq!(r.url, "http://proxy:2375/containers/app/restart");
    assert!(!r.json_empty_body);
}

#[test]
fn lifecycle_status_success_is_2xx() {
    assert!(check_lifecycle_status(LifecycleHook::CaddyReload, 200).is_ok());
    assert!(check_lifecycle_status(LifecycleHook::CaddyReload, 204).is_ok());
    let f = check_lifecycle_status(LifecycleHook::DockerRestart, 404).unwrap_err();
    assert_eq!(f.status, 404);
    assert_eq!(f.hook, LifecycleHook::DockerRestart);
    assert!(check_lifecycle_status(LifecycleHook::CaddyReload, 300).is_err());
    assert!(check_lifecycle_status(LifecycleHook::CaddyReload, 199).is_err());
}
