use twilight_http_proxy::expiring_lru::Builder;
use twilight_http_proxy::ratelimiter_map::{normalize_token, RatelimiterMap};
use twilight_http_proxy::request::{route_request, upstream_uri_text};

fn map_with(default_token: &str, max_size: Option<usize>) -> RatelimiterMap {
    let mut builder = Builder::new();
    if let Some(n) = max_size {
        builder = builder.max_size(n);
    }
    RatelimiterMap::new(default_token.to_string(), builder)
}

#[test]
fn bare_token_gets_bot_prefix() {
    assert_eq!(normalize_token("abc".to_string()), "Bot abc");
    assert_eq!(normalize_token(String::new()), "Bot ");
}

#[test]
fn prefixed_tokens_are_kept() {
    assert_eq!(normalize_token("Bot abc".to_string()), "Bot abc");
    assert_eq!(normalize_token("Bearer abc".to_string()), "Bearer abc");
    assert_eq!(normalize_token("bot abc".to_string()), "Bot bot abc");
    assert_eq!(normalize_token("Bearerabc".to_string()), "Bot Bearerabc");
}

#[test]
fn no_token_uses_default() {
    let mut map = map_with("abc", None);
    assert_eq!(map.default_token(), "Bot abc");
    let (_, token) = map.get_or_insert(None, 0);
    assert_eq!(token, "Bot abc");
    assert_eq!(map.cached_len(), 0);
}

#[test]
fn default_token_is_never_cached() {
    let mut map = map_with("Bot abc", Some(4));
    for now in 0..10u64 {
        let (_, token) = map.get_or_insert(Some("Bot abc"), now);
        assert_eq!(token, "Bot abc");
    }
    assert_eq!(map.cached_len(), 0);
    assert!(!map.is_cached("Bot abc"));
}

#[test]
fn other_tokens_are_used_as_is() {
    let mut map = map_with("abc", None);
    let (_, token) = map.get_or_insert(Some("xyz"), 0);
    assert_eq!(token, "xyz");
    assert!(map.is_cached("xyz"));
    assert_eq!(map.cached_len(), 1);
    let (_, token) = map.get_or_insert(Some("xyz"), 1);
    assert_eq!(token, "xyz");
    assert_eq!(map.cached_len(), 1);
}

#[test]
fn cache_size_two_keeps_latest_tokens() {
    let mut map = map_with("abc", Some(2));
    map.get_or_insert(Some("Bot t1"), 0);
    map.get_or_insert(Some("Bot t2"), 1);
    map.get_or_insert(Some("Bot t3"), 2);
    assert_eq!(map.cached_len(), 2);
    assert!(!map.is_cached("Bot t1"));
    assert!(map.is_cached("Bot t2"));
    assert!(map.is_cached("Bot t3"));
}

#[test]
fn zero_cache_size_caches_nothing() {
    let mut map = map_with("abc", Some(0));
    let (_, token) = map.get_or_insert(Some("Bot t1"), 0);
    assert_eq!(token, "Bot t1");
    assert_eq!(map.cached_len(), 0);
}

#[test]
fn default_token_request_goes_upstream_with_bot_prefix() {
    let mut map = map_with("abc", None);
    let (_, token) = map.get_or_insert(None, 0);
    assert_eq!(token, "Bot abc");
    match route_request("GET", "/api/v10/users/@me") {
        Ok(route) => {
            let uri = upstream_uri_text(&route.api_path, &route.route_path, None);
            assert_eq!(uri, "https://discord.com/api/v10/users/@me");
        }
        Err(_) => panic!("route rejected"),
    }
}

#[test]
fn decay_sweep_drops_idle_tokens() {
    let builder = Builder::new().expiration(1000);
    let mut map = RatelimiterMap::new("abc".to_string(), builder);
    map.get_or_insert(Some("Bot t1"), 0);
    map.get_or_insert(Some("Bot t2"), 500);
    map.reap(1200);
    assert!(!map.is_cached("Bot t1"));
    assert!(map.is_cached("Bot t2"));
    assert_eq!(map.reap_interval(), 600_000);
}
