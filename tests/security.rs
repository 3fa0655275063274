use oneclient_core::http::{resolve_security, HttpCallError, HttpRequest};
use oneclient_core::security::{
    prepare_provider_parameters, prepare_security_map, merge_map_vars, ApiKeyBodyType,
    ApiKeyPlacement, HttpSecurityScheme, MapInterpreterSecurityMisconfiguredError,
    PrepareSecurityMapError, ProviderJson, ProviderParameter, SecurityMap, SecurityScheme,
};
use oneclient_core::perform::{PerformException, PerformExceptionErrorCode};
use oneclient_core::value::HostValue;

fn s(x: &str) -> String {
    x.to_string()
}

fn obj(entries: Vec<(&str, HostValue)>) -> HostValue {
    HostValue::Object(entries.into_iter().map(|(k, v)| (s(k), v)).collect())
}

fn string(x: &str) -> HostValue {
    HostValue::String(s(x))
}

fn provider(schemes: Vec<SecurityScheme>) -> ProviderJson {
    ProviderJson { security_schemes: Some(schemes), parameters: None }
}

fn request(security: Option<&str>, body: Option<&[u8]>) -> HttpRequest {
    HttpRequest {
        url: s("https://example.com/{key}/items"),
        method: s("GET"),
        headers: vec![],
        query: vec![],
        body: body.map(|b| b.to_vec()),
        security: security.map(s),
    }
}

fn api_key(id: &str, placement: ApiKeyPlacement, name: &str, body_type: Option<ApiKeyBodyType>) -> SecurityScheme {
    SecurityScheme::ApiKey { id: s(id), placement, name: s(name), body_type }
}

fn prepared(p: &ProviderJson, secrets: &HostValue) -> SecurityMap {
    match prepare_security_map(p, secrets) {
        Ok(m) => m,
        Err(_) => panic!("prepare failed"),
    }
}

#[test]
fn basic_auth_header() {
    let p = provider(vec![SecurityScheme::Http(HttpSecurityScheme::Basic { id: s("b") })]);
    let secrets = obj(vec![(
        "b",
        obj(vec![("username", string("aladdin")), ("password", string("opensesame"))]),
    )]);
    let map = prepared(&p, &secrets);
    let mut req = request(Some("b"), None);
    resolve_security(&map, &mut req).unwrap();
    assert_eq!(
        req.headers,
        vec![(s("Authorization"), vec![s("Basic YWxhZGRpbjpvcGVuc2VzYW1l")])]
    );
}

#[test]
fn api_key_in_nested_body() {
    let p = provider(vec![api_key("k", ApiKeyPlacement::Body, "/auth/token", Some(ApiKeyBodyType::Json))]);
    let secrets = obj(vec![("k", obj(vec![("apikey", string("NEW"))]))]);
    let map = prepared(&p, &secrets);
    let mut req = request(Some("k"), Some(br#"{"auth":{"token":"old"},"x":1}"#));
    resolve_security(&map, &mut req).unwrap();
    assert_eq!(req.body.unwrap(), br#"{"auth":{"token":"NEW"},"x":1}"#.to_vec());
}

#[test]
fn api_key_in_body_single_key_appended() {
    let p = provider(vec![api_key("k", ApiKeyPlacement::Body, "a/b", Some(ApiKeyBodyType::Json))]);
    let secrets = obj(vec![("k", obj(vec![("apikey", string("K"))]))]);
    let map = prepared(&p, &secrets);
    let mut req = request(Some("k"), Some(br#"{"x":1}"#));
    resolve_security(&map, &mut req).unwrap();
    assert_eq!(req.body.unwrap(), br#"{"x":1,"a/b":"K"}"#.to_vec());
}

#[test]
fn api_key_in_body_through_non_object() {
    let p = provider(vec![api_key("k", ApiKeyPlacement::Body, "/x/y", Some(ApiKeyBodyType::Json))]);
    let secrets = obj(vec![("k", obj(vec![("apikey", string("K"))]))]);
    let map = prepared(&p, &secrets);
    let mut req = request(Some("k"), Some(br#"{"x":1}"#));
    let err = resolve_security(&map, &mut req).unwrap_err();
    assert_eq!(
        err,
        HttpCallError::InvalidSecurityConfiguration(s("Field values on path '/x' isn't object"))
    );
    assert_eq!(req.body.unwrap(), br#"{"x":1}"#.to_vec());
}

#[test]
fn api_key_in_body_empty_path() {
    let p = provider(vec![api_key("k", ApiKeyPlacement::Body, "//", Some(ApiKeyBodyType::Json))]);
    let secrets = obj(vec![("k", obj(vec![("apikey", string("K"))]))]);
    let map = prepared(&p, &secrets);
    let mut req = request(Some("k"), Some(br#"{}"#));
    let err = resolve_security(&map, &mut req).unwrap_err();
    assert_eq!(err, HttpCallError::InvalidSecurityConfiguration(s("Invalid field name '//'")));
}

#[test]
fn api_key_in_body_bad_json() {
    let p = provider(vec![api_key("k", ApiKeyPlacement::Body, "t", Some(ApiKeyBodyType::Json))]);
    let secrets = obj(vec![("k", obj(vec![("apikey", string("K"))]))]);
    let map = prepared(&p, &secrets);
    let mut req = request(Some("k"), Some(b"not json"));
    match resolve_security(&map, &mut req).unwrap_err() {
        HttpCallError::InvalidSecurityConfiguration(m) => assert!(m.starts_with("Failed to parse body: ")),
    }
}

#[test]
fn api_key_in_body_missing_body_or_type() {
    let p = provider(vec![
        api_key("k", ApiKeyPlacement::Body, "t", Some(ApiKeyBodyType::Json)),
        api_key("n", ApiKeyPlacement::Body, "t", None),
    ]);
    let secrets = obj(vec![
        ("k", obj(vec![("apikey", string("K"))])),
        ("n", obj(vec![("apikey", string("N"))])),
    ]);
    let map = prepared(&p, &secrets);
    let mut req = request(Some("k"), None);
    assert_eq!(
        resolve_security(&map, &mut req).unwrap_err(),
        HttpCallError::InvalidSecurityConfiguration(s(
            "Api key placement is set to body but the body is empty"
        ))
    );
    let mut req = request(Some("n"), Some(b"{}"));
    assert_eq!(
        resolve_security(&map, &mut req).unwrap_err(),
        HttpCallError::InvalidSecurityConfiguration(s("Missing body type"))
    );
}

#[test]
fn deferred_misconfiguration() {
    let p = provider(vec![api_key("k", ApiKeyPlacement::Header, "X-K", None)]);
    let secrets = obj(vec![]);
    let map = prepared(&p, &secrets);
    let mut req = request(Some("k"), None);
    match resolve_security(&map, &mut req).unwrap_err() {
        HttpCallError::InvalidSecurityConfiguration(m) => {
            assert!(m.contains("not empty value"));
            assert_eq!(m, "Value for k is misconfigured. Expected not empty value\n");
        }
    }
    let mut plain = request(None, None);
    resolve_security(&map, &mut plain).unwrap();
    assert_eq!(plain, request(None, None));
}

#[test]
fn shape_mismatch() {
    let p = provider(vec![SecurityScheme::Http(HttpSecurityScheme::Bearer { id: s("t"), bearer_format: None })]);
    let secrets = obj(vec![("t", obj(vec![("apikey", string("x"))]))]);
    match prepare_security_map(&p, &secrets) {
        Err(e) => {
            assert_eq!(
                e,
                PrepareSecurityMapError::SecurityMisconfigured(vec![
                    MapInterpreterSecurityMisconfiguredError { id: s("t"), expected: s("{ token: String }") }
                ])
            );
            assert_eq!(
                e.to_string(),
                "Security is misconfigured:\nValue for t is misconfigured. Expected { token: String }\n"
            );
            let ex = PerformException::from_prepare_error(&e);
            assert_eq!(ex.error_code, PerformExceptionErrorCode::PrepareSecurityMapError);
        }
        Ok(_) => panic!("expected an error"),
    }
}

#[test]
fn missing_configuration() {
    let p = provider(vec![]);
    let map = prepared(&p, &HostValue::Null);
    let mut req = request(Some("zzz"), None);
    assert_eq!(
        resolve_security(&map, &mut req).unwrap_err(),
        HttpCallError::InvalidSecurityConfiguration(s("Security configuration for zzz is missing"))
    );
}

#[test]
fn bearer_header_query_and_path() {
    let p = provider(vec![
        SecurityScheme::Http(HttpSecurityScheme::Bearer { id: s("t"), bearer_format: Some(s("JWT")) }),
        api_key("h", ApiKeyPlacement::Header, "X-Key", None),
        api_key("q", ApiKeyPlacement::Query, "key", None),
        api_key("p", ApiKeyPlacement::Path, "key", None),
    ]);
    let secrets = obj(vec![
        ("t", obj(vec![("token", string("tok"))])),
        ("h", obj(vec![("apikey", string("H1"))])),
        ("q", obj(vec![("apikey", string("Q1"))])),
        ("p", obj(vec![("apikey", string("pk"))])),
    ]);
    let map = prepared(&p, &secrets);
    assert_eq!(map.len(), 4);

    let mut req = request(Some("t"), None);
    req.headers = vec![(s("Authorization"), vec![s("old")])];
    resolve_security(&map, &mut req).unwrap();
    assert_eq!(req.headers, vec![(s("Authorization"), vec![s("old"), s("Bearer tok")])]);

    let mut req = request(Some("h"), None);
    resolve_security(&map, &mut req).unwrap();
    assert_eq!(req.headers, vec![(s("X-Key"), vec![s("H1")])]);

    let mut req = request(Some("q"), None);
    req.query = vec![(s("a"), vec![s("1")])];
    resolve_security(&map, &mut req).unwrap();
    assert_eq!(req.query, vec![(s("a"), vec![s("1")]), (s("key"), vec![s("Q1")])]);

    let mut req = request(Some("p"), None);
    req.url = s("https://x/{key}/a/{key}{ke}");
    resolve_security(&map, &mut req).unwrap();
    assert_eq!(req.url, "https://x/pk/a/pk{ke}");
}

#[test]
fn repeated_resolve_is_identical() {
    let p = provider(vec![api_key("k", ApiKeyPlacement::Body, "/a/b", Some(ApiKeyBodyType::Json))]);
    let secrets = obj(vec![("k", obj(vec![("apikey", string("V"))]))]);
    let m1 = prepared(&p, &secrets);
    let m2 = prepared(&p, &secrets);
    let mut r1 = request(Some("k"), Some(br#"{"a":{},"c":[1,2]}"#));
    let mut r2 = request(Some("k"), Some(br#"{"a":{},"c":[1,2]}"#));
    resolve_security(&m1, &mut r1).unwrap();
    resolve_security(&m2, &mut r2).unwrap();
    assert_eq!(r1, r2);
    assert_eq!(r1.body.unwrap(), br#"{"a":{"b":"V"},"c":[1,2]}"#.to_vec());
}

#[test]
fn no_schemes_empty_map_and_no_op() {
    let p = ProviderJson { security_schemes: None, parameters: None };
    let secrets = obj(vec![("x", obj(vec![("token", string("t"))]))]);
    let map = prepared(&p, &secrets);
    assert_eq!(map.len(), 0);
    let mut req = request(None, Some(b"{}"));
    resolve_security(&map, &mut req).unwrap();
    assert_eq!(req, request(None, Some(b"{}")));
}

#[test]
fn format_errors_lines() {
    let errs = vec![
        MapInterpreterSecurityMisconfiguredError { id: s("a"), expected: s("X") },
        MapInterpreterSecurityMisconfiguredError { id: s("b"), expected: s("Y") },
    ];
    assert_eq!(
        MapInterpreterSecurityMisconfiguredError::format_errors(&errs),
        "Value for a is misconfigured. Expected X\nValue for b is misconfigured. Expected Y\n"
    );
    assert_eq!(MapInterpreterSecurityMisconfiguredError::format_errors(&[]), "");
}

#[test]
fn provider_parameters_and_vars() {
    let p = ProviderJson {
        security_schemes: None,
        parameters: Some(vec![
            ProviderParameter { name: s("region"), default: Some(s("eu")) },
            ProviderParameter { name: s("tenant"), default: None },
            ProviderParameter { name: s("mode"), default: Some(s("live")) },
        ]),
    };
    let defaults = prepare_provider_parameters(&p);
    assert_eq!(defaults, obj(vec![("region", string("eu")), ("mode", string("live"))]));
    let vars = obj(vec![("mode", string("test")), ("extra", HostValue::Bool(true))]);
    let merged = merge_map_vars(defaults, &vars);
    assert_eq!(
        merged,
        obj(vec![("region", string("eu")), ("mode", string("test")), ("extra", HostValue::Bool(true))])
    );
}

#[test]
fn malformed_secrets_fail_prepare() {
    let p = provider(vec![
        api_key("k", ApiKeyPlacement::Header, "X-K", None),
        SecurityScheme::Http(HttpSecurityScheme::Basic { id: s("b") }),
    ]);
    let secrets = obj(vec![
        ("k", string("not an object")),
        ("b", obj(vec![("username", string("u"))])),
    ]);
    match prepare_security_map(&p, &secrets) {
        Err(PrepareSecurityMapError::SecurityMisconfigured(errs)) => {
            assert_eq!(
                errs,
                vec![
                    MapInterpreterSecurityMisconfiguredError { id: s("k"), expected: s("{ apikey: String }") },
                    MapInterpreterSecurityMisconfiguredError {
                        id: s("b"),
                        expected: s("{ username: String, password: String }"),
                    },
                ]
            );
        }
        Ok(_) => panic!("expected an error"),
    }
}

#[test]
fn secrets_not_an_object_defer_every_scheme() {
    let p = provider(vec![api_key("k", ApiKeyPlacement::Query, "key", None)]);
    let map = prepared(&p, &HostValue::Null);
    assert_eq!(map.len(), 1);
    let mut req = request(Some("k"), None);
    assert!(resolve_security(&map, &mut req).is_err());
    assert!(req.query.is_empty());
}
