use twilight_http_ratelimiting::headers::RatelimitHeaders;
use twilight_http_ratelimiting::request::Path;
use twilight_http_proxy::request::{
    feedback_headers, hop_by_hop_headers, normalize_path, parse_method, route_request, upstream_uri, upstream_uri_text, RequestError,
    RequestMethod, ACQUIRING_TICKET_FAILED_MSG, INVALID_METHOD_MSG, INVALID_PATH_MSG,
    INVALID_URI_MSG, REQUEST_ISSUE_MSG, UPSTREAM_HOST,
};

#[test]
fn methods_map() {
    assert_eq!(parse_method("DELETE"), Some(RequestMethod::Delete));
    assert_eq!(parse_method("GET"), Some(RequestMethod::Get));
    assert_eq!(parse_method("PATCH"), Some(RequestMethod::Patch));
    assert_eq!(parse_method("POST"), Some(RequestMethod::Post));
    assert_eq!(parse_method("PUT"), Some(RequestMethod::Put));
    assert_eq!(parse_method("FOO"), None);
    assert_eq!(parse_method("get"), None);
    assert_eq!(parse_method("OPTIONS"), None);
}

#[test]
fn normalize_examples() {
    assert_eq!(normalize_path("/api/v10/guilds/1"), ("/api/v10", "/guilds/1"));
    assert_eq!(normalize_path("/api/guilds/1"), ("/api", "/guilds/1"));
    assert_eq!(normalize_path("/guilds/1"), ("/api", "/guilds/1"));
}

#[test]
fn normalize_edges() {
    assert_eq!(normalize_path("/api"), ("/api", ""));
    assert_eq!(normalize_path("/api/v9"), ("/api/v9", ""));
    assert_eq!(normalize_path("/api/v255/users"), ("/api/v255", "/users"));
    assert_eq!(normalize_path("/api/v256/users"), ("/api/v256", "/users"));
    assert_eq!(normalize_path("/api/v300/x"), ("/api/v300", "/x"));
    assert_eq!(normalize_path("/api/v007/users"), ("/api/v007", "/users"));
    assert_eq!(normalize_path("/api/v/users"), ("/api", "/v/users"));
    assert_eq!(normalize_path("/api/v1x/users"), ("/api", "/v1x/users"));
    assert_eq!(normalize_path("/api/users/v10"), ("/api", "/users/v10"));
    assert_eq!(normalize_path(""), ("/api", ""));
}

#[test]
fn normalize_concatenates_back() {
    for p in ["/api/v10/users/@me", "/api/channels/1", "/gateway/bot", "/api/v300/x"] {
        let (a, b) = normalize_path(p);
        let joined = format!("{}{}", a, b);
        if p.starts_with("/api") {
            assert_eq!(joined, p);
        } else {
            assert_eq!(joined, format!("/api{}", p));
        }
    }
}

#[test]
fn uri_text() {
    assert_eq!(
        upstream_uri_text("/api/v10", "/users/@me", None),
        "https://discord.com/api/v10/users/@me"
    );
    assert_eq!(
        upstream_uri_text("/api", "/guilds/1/members", Some("limit=5")),
        "https://discord.com/api/guilds/1/members?limit=5"
    );
}

#[test]
fn uri_parses() {
    match upstream_uri("/api/v10", "/users/@me", Some("a=1")) {
        Ok(uri) => {
            assert_eq!(uri.to_string(), "https://discord.com/api/v10/users/@me?a=1");
            assert_eq!(uri.host(), Some("discord.com"));
            assert_eq!(uri.path(), "/api/v10/users/@me");
        }
        Err(_) => panic!("uri rejected"),
    }
}

#[test]
fn invalid_uri_is_reported() {
    match upstream_uri("/api", "/users/a b", None) {
        Err(e) => {
            assert!(matches!(e, RequestError::InvalidURI { .. }));
            assert_eq!(e.status_code(), 500);
            assert_eq!(e.message(), INVALID_URI_MSG);
        }
        Ok(_) => panic!("uri accepted"),
    }
}

#[test]
fn unknown_method_is_rejected() {
    match route_request("FOO", "/users/@me") {
        Err(RequestError::InvalidMethod { method }) => assert_eq!(method, "FOO"),
        _ => panic!("expected an invalid method"),
    }
    let e = RequestError::InvalidMethod { method: "FOO".to_string() };
    assert_eq!(e.status_code(), 501);
    assert_eq!(e.message(), INVALID_METHOD_MSG);
}

#[test]
fn unknown_path_is_rejected() {
    match route_request("GET", "/api/v10/no/such/route/here") {
        Err(e) => {
            assert!(matches!(e, RequestError::InvalidPath { .. }));
            assert_eq!(e.status_code(), 501);
            assert_eq!(e.message(), INVALID_PATH_MSG);
        }
        Ok(_) => panic!("path accepted"),
    }
}

#[test]
fn current_user_route() {
    match route_request("GET", "/api/v10/users/@me") {
        Ok(route) => {
            assert_eq!(route.method, RequestMethod::Get);
            assert_eq!(route.api_path, "/api/v10");
            assert_eq!(route.route_path, "/users/@me");
            assert_eq!(route.path, Path::UsersId);
            let uri = upstream_uri_text(&route.api_path, &route.route_path, None);
            assert_eq!(uri, "https://discord.com/api/v10/users/@me");
        }
        Err(_) => panic!("route rejected"),
    }
}

#[test]
fn guild_channels_share_a_route_family() {
    let a = route_request("GET", "/api/v9/guilds/111/channels");
    let b = route_request("GET", "/api/v9/guilds/222/channels");
    match (a, b) {
        (Ok(a), Ok(b)) => {
            assert!(matches!(a.path, Path::GuildsIdChannels(_)));
            assert!(matches!(b.path, Path::GuildsIdChannels(_)));
            assert_eq!(a.api_path, "/api/v9");
            assert_eq!(a.route_path, "/guilds/111/channels");
        }
        _ => panic!("routes rejected"),
    }
}

#[test]
fn message_ids_do_not_split_routes() {
    let a = route_request("DELETE", "/channels/5/messages/100");
    let b = route_request("DELETE", "/channels/5/messages/200");
    match (a, b) {
        (Ok(a), Ok(b)) => assert_eq!(a.path, b.path),
        _ => panic!("routes rejected"),
    }
}

#[test]
fn error_statuses() {
    let e = RequestError::AcquiringTicket { reason: "closed".to_string() };
    assert_eq!(e.status_code(), 500);
    assert_eq!(e.message(), ACQUIRING_TICKET_FAILED_MSG);
    let e = RequestError::RequestIssue { reason: "connection reset".to_string() };
    assert_eq!(e.status_code(), 502);
    assert_eq!(e.message(), REQUEST_ISSUE_MSG);
    assert_eq!(REQUEST_ISSUE_MSG, "http-proxy: Error requesting the Discord API");
}

#[test]
fn method_names_round_trip() {
    for m in [
        RequestMethod::Delete,
        RequestMethod::Get,
        RequestMethod::Patch,
        RequestMethod::Post,
        RequestMethod::Put,
    ] {
        assert_eq!(parse_method(m.name()), Some(m));
    }
    assert_eq!(RequestMethod::Patch.name(), "PATCH");
}

fn pairs(items: &[(&str, &str)]) -> Vec<(String, Vec<u8>)> {
    items
        .iter()
        .map(|(k, v)| (k.to_string(), v.as_bytes().to_vec()))
        .collect()
}

#[test]
fn global_ratelimit_headers_parse() {
    let headers = feedback_headers(&pairs(&[
        ("retry-after", "2"),
        ("x-ratelimit-global", "true"),
        ("x-ratelimit-scope", "global"),
    ]));
    match headers {
        Some(RatelimitHeaders::Global(g)) => assert_eq!(g.retry_after(), 2),
        _ => panic!("expected global headers"),
    }
}

#[test]
fn bucket_ratelimit_headers_parse() {
    let headers = feedback_headers(&pairs(&[
        ("x-ratelimit-bucket", "abcd"),
        ("x-ratelimit-limit", "5"),
        ("x-ratelimit-remaining", "0"),
        ("x-ratelimit-reset", "1470173023.123"),
        ("x-ratelimit-reset-after", "1.5"),
        ("content-type", "application/json"),
    ]));
    match headers {
        Some(RatelimitHeaders::Present(p)) => {
            assert_eq!(p.bucket(), Some("abcd"));
            assert_eq!(p.limit(), 5);
            assert_eq!(p.remaining(), 0);
            assert_eq!(p.reset_after(), 1500);
        }
        _ => panic!("expected bucket headers"),
    }
}

#[test]
fn missing_ratelimit_headers_mean_none() {
    assert!(matches!(
        feedback_headers(&pairs(&[("content-type", "text/plain")])),
        Some(RatelimitHeaders::None)
    ));
    assert!(matches!(feedback_headers(&Vec::new()), Some(RatelimitHeaders::None)));
}

#[test]
fn malformed_ratelimit_headers_are_dropped() {
    assert!(feedback_headers(&pairs(&[("x-ratelimit-limit", "many")])).is_none());
    assert!(feedback_headers(&pairs(&[("x-ratelimit-global", "true")])).is_none());
}

#[test]
fn forwarding_drops_hop_by_hop_headers() {
    assert_eq!(
        hop_by_hop_headers(),
        vec!["connection", "keep-alive", "proxy-connection", "transfer-encoding", "upgrade"]
    );
    assert_eq!(UPSTREAM_HOST, "discord.com");
}
