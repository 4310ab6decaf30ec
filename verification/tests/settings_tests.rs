use rssrs::settings::{client_plan, GenericSettings, ProxyPlan, ProxySettings};
use rssrs::error::IntoResult;
use rssrs::store::Store;
use rssrs::text::i64_to_string;

fn proxy(t: &str, host: &str, port: u16) -> ProxySettings {
    ProxySettings { t: t.to_string(), host: host.to_string(), port }
}

#[test]
fn http_proxy_routes_through_host_and_port() {
    let plan = client_plan(&proxy("http", "p", 8080), &GenericSettings { timeout: 30 });
    match plan.proxy {
        ProxyPlan::Http(url) => assert_eq!(url, "http://p:8080"),
        _ => panic!("expected an explicit HTTP proxy"),
    }
    assert_eq!(plan.timeout_secs, 30);
}

#[test]
fn none_proxy_leaves_client_proxyless() {
    let plan = client_plan(&proxy("none", "", 0), &GenericSettings { timeout: 10 });
    assert!(matches!(plan.proxy, ProxyPlan::NoProxy));
    assert_eq!(plan.timeout_secs, 10);
}

#[test]
fn other_proxy_kinds_use_the_system_default() {
    let plan = client_plan(&proxy("sys", "x", 1), &GenericSettings { timeout: 5 });
    assert!(matches!(plan.proxy, ProxyPlan::System));
    let plan2 = client_plan(&proxy("anything", "", 0), &GenericSettings { timeout: 5 });
    assert!(matches!(plan2.proxy, ProxyPlan::System));
}

#[test]
fn proxy_setting_parses_from_stored_json() {
    let mut store = Store::new();
    store.set_setting(
        "proxy".to_string(),
        "{\"type\":\"http\",\"host\":\"p\",\"port\":8080}".to_string(),
    );
    let p = store.get_proxy().unwrap();
    assert_eq!(p.t, "http");
    assert_eq!(p.host, "p");
    assert_eq!(p.port, 8080);
}

#[test]
fn proxy_setting_defaults_to_system_when_absent() {
    let store = Store::new();
    let p = store.get_proxy().unwrap();
    assert_eq!(p.t, "sys");
    assert_eq!(p.host, "");
    assert_eq!(p.port, 0);
}

#[test]
fn proxy_setting_none_needs_no_host_or_port() {
    let mut store = Store::new();
    store.set_setting("proxy".to_string(), "{\"type\":\"none\"}".to_string());
    let p = store.get_proxy().unwrap();
    assert_eq!(p.t, "none");
    let plan = client_plan(&p, &GenericSettings { timeout: 30 });
    assert!(matches!(plan.proxy, ProxyPlan::NoProxy));
}

#[test]
fn malformed_proxy_setting_fails() {
    let mut store = Store::new();
    store.set_setting("proxy".to_string(), "not json".to_string());
    assert!(store.get_proxy().is_err());
    store.set_setting("proxy".to_string(), "{\"host\":\"p\"}".to_string());
    assert!(store.get_proxy().is_err());
    store.set_setting(
        "proxy".to_string(),
        "{\"type\":\"http\",\"host\":\"p\",\"port\":70000}".to_string(),
    );
    assert!(store.get_proxy().is_err());
}

#[test]
fn generic_settings_parse_and_default() {
    let mut store = Store::new();
    let g = store.get_generic_settings().unwrap();
    assert_eq!(g.timeout, 30);
    store.set_setting("generic".to_string(), "{\"timeout\":45}".to_string());
    assert_eq!(store.get_generic_settings().unwrap().timeout, 45);
    store.set_setting("generic".to_string(), "{\"timeout\":\"soon\"}".to_string());
    assert!(store.get_generic_settings().is_err());
}

#[test]
fn foreign_results_convert_to_library_errors() {
    let ok: Result<i32, String> = Ok(5);
    assert_eq!(ok.into_result().unwrap(), 5);
    let err: Result<i32, String> = Err("boom".to_string());
    let converted = err.into_result().unwrap_err();
    assert_eq!(converted.message(), "boom");
}

#[test]
fn decimal_rendering_matches_std() {
    for n in [0i64, 7, 10, 123456, -1, -987, i64::MAX, i64::MIN] {
        assert_eq!(i64_to_string(n), n.to_string());
    }
}
