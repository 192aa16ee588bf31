use websocket_fabric::headers::{HeaderMap, HeaderName, HeaderValue};

#[test]
fn test_header_name_valid() {
    assert!(HeaderName::new("Authorization").is_ok());
    assert!(HeaderName::new("X-Custom-Header").is_ok());
    assert!(HeaderName::new("Content-Type").is_ok());
    assert!(HeaderName::new("accept-encoding").is_ok());
}

#[test]
fn test_header_name_invalid() {
    assert!(HeaderName::new("").is_err());
    assert!(HeaderName::new("Invalid:Name").is_err());
    assert!(HeaderName::new("Invalid Name").is_err());
    assert!(HeaderName::new("Invalid\nName").is_err());
}

#[test]
fn test_header_name_from_str() {
    let name = HeaderName::new("Authorization").unwrap();
    assert_eq!(name.as_str(), "Authorization");
}

#[test]
fn test_header_value_valid() {
    assert!(HeaderValue::new("Bearer token123").is_ok());
    assert!(HeaderValue::new("application/json").is_ok());
    assert!(HeaderValue::new("text/plain; charset=utf-8").is_ok());
}

#[test]
fn test_header_value_whitespace_trimmed() {
    let value = HeaderValue::new("  trimmed  ").unwrap();
    assert_eq!(value.as_str(), "trimmed");
}

#[test]
fn test_header_value_invalid() {
    assert!(HeaderValue::new("invalid\x00value").is_err());
    assert!(HeaderValue::new("invalid\nvalue").is_err());
    assert!(HeaderValue::new("invalid\rvalue").is_err());
}

#[test]
fn test_header_value_from_str() {
    let value = HeaderValue::new("Bearer token123").unwrap();
    assert_eq!(value.as_str(), "Bearer token123");
}

#[test]
fn test_header_map_new() {
    let map = HeaderMap::new();
    assert!(map.is_empty());
    assert_eq!(map.len(), 0);
}

#[test]
fn test_header_map_insert() {
    let mut map = HeaderMap::new();
    map.insert("Authorization", "Bearer token123").unwrap();

    assert_eq!(map.get("Authorization"), Some("Bearer token123"));
    assert_eq!(map.get("authorization"), Some("Bearer token123")); // Case-insensitive
    assert_eq!(map.len(), 1);
}

#[test]
fn test_header_map_append() {
    let mut map = HeaderMap::new();
    map.insert("Set-Cookie", "cookie1=value1").unwrap();
    map.append("Set-Cookie", "cookie2=value2").unwrap();

    let values = map.get_all("Set-Cookie");
    assert_eq!(values.len(), 2);
    assert_eq!(values[0], "cookie1=value1");
    assert_eq!(values[1], "cookie2=value2");
}

#[test]
fn test_header_map_replace() {
    let mut map = HeaderMap::new();
    map.insert("Authorization", "Bearer token1").unwrap();
    map.insert("Authorization", "Bearer token2").unwrap();

    assert_eq!(map.get("Authorization"), Some("Bearer token2"));
    assert_eq!(map.get_all("Authorization").len(), 1);
}

#[test]
fn test_header_map_get_missing() {
    let map = HeaderMap::new();
    assert_eq!(map.get("Missing"), None);
    assert_eq!(map.get_all("Missing").len(), 0);
}

#[test]
fn test_header_map_remove() {
    let mut map = HeaderMap::new();
    map.insert("Authorization", "Bearer token123").unwrap();

    let value = map.remove("Authorization");
    assert_eq!(value, Some("Bearer token123".to_string()));
    assert!(!map.contains("Authorization"));
}

#[test]
fn test_header_map_contains() {
    let mut map = HeaderMap::new();
    map.insert("Authorization", "Bearer token123").unwrap();

    assert!(map.contains("Authorization"));
    assert!(map.contains("authorization"));
    assert!(!map.contains("Missing"));
}

#[test]
fn test_header_map_clear() {
    let mut map = HeaderMap::new();
    map.insert("Authorization", "Bearer token123").unwrap();
    map.insert("User-Agent", "Test").unwrap();

    map.clear();
    assert!(map.is_empty());
    assert_eq!(map.len(), 0);
}

#[test]
fn test_header_map_iter() {
    let mut map = HeaderMap::new();
    map.insert("Authorization", "Bearer token123").unwrap();
    map.insert("User-Agent", "Test").unwrap();

    let pairs: Vec<_> = map.iter().collect();
    assert_eq!(pairs.len(), 2);
}

#[test]
fn test_header_map_iter_all() {
    let mut map = HeaderMap::new();
    map.insert("Set-Cookie", "cookie1=value1").unwrap();
    map.append("Set-Cookie", "cookie2=value2").unwrap();

    let pairs: Vec<_> = map.iter_all().collect();
    assert_eq!(pairs.len(), 1);
    assert_eq!(pairs[0].1.len(), 2);
}

#[test]
fn test_header_map_extend() {
    let mut map1 = HeaderMap::new();
    map1.insert("Authorization", "Bearer token1").unwrap();

    let mut map2 = HeaderMap::new();
    map2.insert("User-Agent", "Test").unwrap();

    map1.extend(map2);
    assert_eq!(map1.len(), 2);
    assert!(map1.contains("Authorization"));
    assert!(map1.contains("User-Agent"));
}

#[test]
fn test_header_map_from_iter() {
    let headers = vec![
        ("Authorization", "Bearer token123"),
        ("User-Agent", "Test"),
    ];
    let map = HeaderMap::from_pairs(headers);

    assert_eq!(map.len(), 2);
    assert_eq!(map.get("Authorization"), Some("Bearer token123"));
    assert_eq!(map.get("User-Agent"), Some("Test"));
}

#[test]
fn test_authorization_accessor() {
    let mut map = HeaderMap::new();
    assert_eq!(map.get_authorization(), None);

    map.set_authorization("Bearer token123").unwrap();
    assert_eq!(map.get_authorization(), Some("Bearer token123"));
}

#[test]
fn test_user_agent_accessor() {
    let mut map = HeaderMap::new();
    assert_eq!(map.get_user_agent(), None);

    map.set_user_agent("MyClient/1.0").unwrap();
    assert_eq!(map.get_user_agent(), Some("MyClient/1.0"));
}

#[test]
fn test_origin_accessor() {
    let mut map = HeaderMap::new();
    assert_eq!(map.get_origin(), None);

    map.set_origin("https://example.com").unwrap();
    assert_eq!(map.get_origin(), Some("https://example.com"));
}

#[test]
fn test_cookie_accessor() {
    let mut map = HeaderMap::new();
    assert_eq!(map.get_cookie(), None);

    map.set_cookie("session=abc123").unwrap();
    assert_eq!(map.get_cookie(), Some("session=abc123"));
}

#[test]
fn test_host_accessor() {
    let mut map = HeaderMap::new();
    assert_eq!(map.get_host(), None);

    map.set_host("example.com").unwrap();
    assert_eq!(map.get_host(), Some("example.com"));
}

#[test]
fn test_api_key_accessor() {
    let mut map = HeaderMap::new();
    assert_eq!(map.get_api_key(), None);

    map.set_api_key("secret-key-123").unwrap();
    assert_eq!(map.get_api_key(), Some("secret-key-123"));
}

#[test]
fn test_multiple_cookies() {
    let mut map = HeaderMap::new();
    map.set_cookie("session=abc123").unwrap();
    map.append("Cookie", "user=john").unwrap();

    let cookies = map.get_all_cookies();
    assert_eq!(cookies.len(), 2);
}

#[test]
fn test_empty_header_value() {
    let mut map = HeaderMap::new();
    assert!(map.insert("X-Empty", "").is_ok());

    // Empty value after validation
    assert_eq!(map.get("X-Empty"), Some(""));
}

#[test]
fn test_case_insensitive() {
    let mut map = HeaderMap::new();
    map.insert("Authorization", "Bearer token123").unwrap();

    assert_eq!(map.get("authorization"), Some("Bearer token123"));
    assert_eq!(map.get("AUTHORIZATION"), Some("Bearer token123"));
    assert_eq!(map.get("AuThOrIzAtIoN"), Some("Bearer token123"));
}

#[test]
fn test_special_header_names() {
    // Test headers with special characters (allowed in some contexts)
    assert!(HeaderName::new("X-Custom!Header").is_ok());
    assert!(HeaderName::new("X-Test-123").is_ok());
}

#[test]
fn test_header_value_with_spaces() {
    let value = HeaderValue::new("Bearer token123 with spaces").unwrap();
    assert_eq!(value.as_str(), "Bearer token123 with spaces");
}

#[test]
fn test_header_value_with_special_chars() {
    assert!(HeaderValue::new("text/plain; charset=utf-8").is_ok());
    assert!(HeaderValue::new("application/json, text/html").is_ok());
    assert!(HeaderValue::new("Bearer token123+abc").is_ok());
}

#[test]
fn test_http_header_map_invalid_value() {
    let mut map = HeaderMap::new();
    // Our validation rejects control characters, so insert fails
    let result = map.insert("X-Invalid", "invalid\x00value");
    assert!(result.is_err());

    // Test with a value that passes our validation but might fail http::HeaderMap
    // (most values should work since we validate similarly)
    let valid_result = map.insert("X-Valid", "valid-value");
    assert!(valid_result.is_ok());
}

#[test]
fn test_from_http_header_map() {
    let mut http_map = http::HeaderMap::new();
    http_map.insert("Authorization", http::header::HeaderValue::from_static("Bearer token123"));
    http_map.insert("User-Agent", http::header::HeaderValue::from_static("TestClient/1.0"));
    http_map.append("Set-Cookie", http::header::HeaderValue::from_static("cookie1=value1"));
    http_map.append("Set-Cookie", http::header::HeaderValue::from_static("cookie2=value2"));

    let map = HeaderMap::from_http_header_map(&http_map);

    assert_eq!(map.get("Authorization"), Some("Bearer token123"));
    assert_eq!(map.get("User-Agent"), Some("TestClient/1.0"));
}

#[test]
fn test_to_http_header_map() {
    let mut map = HeaderMap::new();
    map.insert("Authorization", "Bearer token123").unwrap();
    map.insert("User-Agent", "TestClient/1.0").unwrap();
    map.append("Set-Cookie", "cookie1=value1").unwrap();
    map.append("Set-Cookie", "cookie2=value2").unwrap();

    let http_map = map.to_http_header_map().unwrap();

    assert_eq!(http_map["Authorization"], "Bearer token123");
    assert_eq!(http_map["User-Agent"], "TestClient/1.0");

    let values: Vec<_> = http_map.get_all("Set-Cookie").iter().collect();
    assert_eq!(values.len(), 2);
}

#[test]
fn test_http_header_map_roundtrip() {
    let mut map = HeaderMap::new();
    map.insert("Authorization", "Bearer token123").unwrap();
    map.insert("X-Custom", "custom-value").unwrap();

    let http_map = map.to_http_header_map().unwrap();
    let map2 = HeaderMap::from_http_header_map(&http_map);

    assert_eq!(map2.get("Authorization"), Some("Bearer token123"));
    assert_eq!(map2.get("X-Custom"), Some("custom-value"));
}

#[test]
fn test_http_header_map_from_owned() {
    let mut http_map = http::HeaderMap::new();
    http_map.insert("Authorization", http::header::HeaderValue::from_static("Bearer token123"));

    let map: HeaderMap = http_map.into();

    assert_eq!(map.get("Authorization"), Some("Bearer token123"));
}

#[test]
fn http_conversion_keeps_every_value_in_order() {
    let mut map = HeaderMap::new();
    map.append("Accept", "text/html").unwrap();
    map.append("accept", "application/json").unwrap();
    map.insert("X-Id", "42").unwrap();

    let http_map = map.to_http_header_map().unwrap();
    assert_eq!(http_map.len(), 3);
    let accept: Vec<&str> = http_map
        .get_all("accept")
        .iter()
        .map(|v| v.to_str().unwrap())
        .collect();
    assert_eq!(accept, vec!["text/html", "application/json"]);

    let back = HeaderMap::from_http_header_map(&http_map);
    assert_eq!(back.get_all("Accept"), vec!["text/html", "application/json"]);
    assert_eq!(back.get("x-id"), Some("42"));
    assert_eq!(back.len(), 2);
}

#[test]
fn http_conversion_refuses_names_too_long_for_http() {
    let mut map = HeaderMap::new();
    let name = "a".repeat(65536);
    map.insert(name.as_str(), "v").unwrap();
    let err = map.to_http_header_map().unwrap_err();
    let msg = err.to_string();
    assert!(msg.starts_with("Invalid state: Invalid header name 'aaa"));
    assert!(msg.ends_with("': invalid HTTP header name"));
}

#[test]
fn header_names_are_ascii_letters_digits_hyphen_or_bang() {
    assert!(HeaderName::new("X-Custom!Header").is_ok());
    assert!(HeaderName::new("Café").is_err());
    assert!(HeaderName::new("Ünïcode").is_err());
    let mut map = HeaderMap::new();
    assert!(map.insert("Café", "latte").is_err());
    assert!(map.is_empty());
}

#[test]
fn iter_yields_lowercase_names_with_first_values() {
    let mut map = HeaderMap::new();
    map.append("Set-Cookie", "a=1").unwrap();
    map.append("SET-COOKIE", "b=2").unwrap();
    map.insert("X-Id", "7").unwrap();
    let pairs: Vec<(&str, &str)> = map.iter().collect();
    assert_eq!(pairs, vec![("set-cookie", "a=1"), ("x-id", "7")]);
    for (k, v) in pairs {
        assert_eq!(map.get(k), Some(v));
    }
}

#[test]
fn http_values_that_are_not_visible_ascii_read_as_empty() {
    let mut http_map = http::HeaderMap::new();
    http_map.insert("X-Raw", http::header::HeaderValue::from_bytes(b"caf\xe9").unwrap());
    http_map.insert("X-Tab", http::header::HeaderValue::from_static("a\tb"));
    http_map.insert("X-Bad#Name", http::header::HeaderValue::from_static("v"));

    let map = HeaderMap::from_http_header_map(&http_map);
    assert_eq!(map.get("X-Raw"), Some(""));
    // A tab is visible to `http` but not a valid value here: skipped.
    assert_eq!(map.get("X-Tab"), None);
    // `#` is a token character but not a valid name here: skipped.
    assert_eq!(map.get("x-bad#name"), None);
}

#[test]
fn header_map_from_borrowed_http_map() {
    let mut http_map = http::HeaderMap::new();
    http_map.insert("Origin", http::header::HeaderValue::from_static("https://example.com"));
    let map = HeaderMap::from(&http_map);
    assert_eq!(map.get_origin(), Some("https://example.com"));
}
