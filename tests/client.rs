use hako_tasks::client::{build_url, ClientConfig};
use std::time::Duration;

#[test]
fn url_joins_base_and_path() {
    assert_eq!(build_url(Some("https://httpbin.org"), "/get"), "https://httpbin.org/get");
    assert_eq!(build_url(Some("https://httpbin.org//"), "//get"), "https://httpbin.org/get");
    assert_eq!(build_url(Some("https://httpbin.org"), "get"), "https://httpbin.org/get");
}

#[test]
fn url_without_base_is_the_path() {
    assert_eq!(build_url(None, "https://httpbin.org/get"), "https://httpbin.org/get");
}

#[test]
fn config_builders_set_one_field_each() {
    let c = ClientConfig::new();
    assert!(c.base_url.is_none() && c.timeout.is_none() && c.user_agent.is_none());
    let c = c
        .with_base_url("https://httpbin.org")
        .with_timeout(Duration::from_secs(5))
        .with_user_agent("hako");
    assert_eq!(c.base_url.as_deref(), Some("https://httpbin.org"));
    assert_eq!(c.timeout, Some(Duration::from_secs(5)));
    assert_eq!(c.user_agent.as_deref(), Some("hako"));
}
