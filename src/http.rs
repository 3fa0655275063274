use vstd::prelude::*;

use crate::codec::{base64_of, encode_base64};
use crate::json::{body_outcome, inject_api_key, BodyModel, BodyOutcome};
use crate::security::{
    declared_schemes, error_line, error_lines, errors_model, lookup, prepared, ApiKeyBodyType,
    ApiKeyPlacement, EntryModel, HttpSecurity, MapInterpreterSecurityMisconfiguredError,
    PrepareSecurityMapError, ProviderJson, Security, SecurityMap, SecurityMapValue,
};
use crate::text::{multimap_append, multimap_push, multimap_view, replace_all, replace_all_exec};
use crate::value::HostValue;

verus! {

/// An outgoing HTTP request as a map builds it.
#[derive(Debug, PartialEq)]
pub struct HttpRequest {
    pub url: String,
    pub method: String,
    /// Header names with their values, in insertion order.
    pub headers: Vec<(String, Vec<String>)>,
    /// Query parameters with their values, in insertion order.
    pub query: Vec<(String, Vec<String>)>,
    pub body: Option<Vec<u8>>,
    /// The id of the security scheme to apply, if any.
    pub security: Option<String>,
}

/// A failure of an HTTP call made by a map.
#[derive(Debug, PartialEq)]
pub enum HttpCallError {
    InvalidSecurityConfiguration(String),
}

/// What applying a security entry does to a request, over plain values.
pub enum ResolveModel {
    /// Nothing changes.
    Unchanged,
    AppendHeader(Seq<char>, Seq<char>),
    AppendQuery(Seq<char>, Seq<char>),
    ReplaceInUrl(Seq<char>, Seq<char>),
    /// The JSON body gets the key, as `body_outcome` says.
    InjectBody(Seq<char>, Seq<char>),
    Fail(Seq<char>),
}

/// What the request's security asks for, given the map.
pub open spec fn resolve_model(map: SecurityMap, req: HttpRequest) -> ResolveModel {
    match req.security {
        None => ResolveModel::Unchanged,
        Some(id) => match lookup(map.view(), id@) {
            None => ResolveModel::Fail(
                "Security configuration for "@ + id@ + " is missing"@,
            ),
            Some(EntryModel::Misconfigured { id: eid, expected }) => ResolveModel::Fail(
                "Value for "@ + eid + " is misconfigured. Expected "@ + expected + "\n"@,
            ),
            Some(EntryModel::Basic { username, password }) => {
                let creds = vstd::utf8::encode_utf8(username + ":"@ + password);
                if creds.len() > usize::MAX / 2 {
                    ResolveModel::Fail("Credentials are too long"@)
                } else {
                    ResolveModel::AppendHeader("Authorization"@, "Basic "@ + base64_of(creds))
                }
            },
            Some(EntryModel::Bearer { token, .. }) => ResolveModel::AppendHeader(
                "Authorization"@,
                "Bearer "@ + token,
            ),
            Some(EntryModel::ApiKey { placement, name, apikey, body_type }) => match placement {
                ApiKeyPlacement::Header => ResolveModel::AppendHeader(name, apikey),
                ApiKeyPlacement::Query => ResolveModel::AppendQuery(name, apikey),
                ApiKeyPlacement::Path => ResolveModel::ReplaceInUrl("{"@ + name + "}"@, apikey),
                ApiKeyPlacement::Body => match body_type {
                    None => ResolveModel::Fail("Missing body type"@),
                    Some(ApiKeyBodyType::Json) => match req.body {
                        None => ResolveModel::Fail(
                            "Api key placement is set to body but the body is empty"@,
                        ),
                        Some(_) => ResolveModel::InjectBody(name, apikey),
                    },
                },
            },
        },
    }
}

/// The bytes of a body, if there is one.
pub open spec fn body_view(b: Option<Vec<u8>>) -> Option<Seq<u8>> {
    match b {
        Some(v) => Some(v@),
        None => None,
    }
}

pub open spec fn same_except_headers(a: HttpRequest, b: HttpRequest) -> bool {
    a.url == b.url && a.method == b.method && a.query == b.query && a.body == b.body
        && a.security == b.security
}

pub open spec fn same_except_query(a: HttpRequest, b: HttpRequest) -> bool {
    a.url == b.url && a.method == b.method && a.headers == b.headers && a.body == b.body
        && a.security == b.security
}

pub open spec fn same_except_url(a: HttpRequest, b: HttpRequest) -> bool {
    a.method == b.method && a.headers == b.headers && a.query == b.query && a.body == b.body
        && a.security == b.security
}

pub open spec fn same_except_body(a: HttpRequest, b: HttpRequest) -> bool {
    a.url == b.url && a.method == b.method && a.headers == b.headers && a.query == b.query
        && a.security == b.security
}

/// Whether `r` is the result of resolving `old` against `map`, ending in `after`.
pub open spec fn resolved(
    map: SecurityMap,
    old: HttpRequest,
    after: HttpRequest,
    r: Result<(), HttpCallError>,
) -> bool {
    match resolve_model(map, old) {
        ResolveModel::Unchanged => r is Ok && after == old,
        ResolveModel::Fail(msg) => after == old && match r {
            Err(HttpCallError::InvalidSecurityConfiguration(m)) => m@ == msg,
            Ok(_) => false,
        },
        ResolveModel::AppendHeader(k, v) => r is Ok && same_except_headers(old, after)
            && multimap_view(after.headers@) == multimap_append(multimap_view(old.headers@), k, v),
        ResolveModel::AppendQuery(k, v) => r is Ok && same_except_query(old, after)
            && multimap_view(after.query@) == multimap_append(multimap_view(old.query@), k, v),
        ResolveModel::ReplaceInUrl(pat, v) => r is Ok && same_except_url(old, after)
            && after.url@ == replace_all(old.url@, pat, v),
        ResolveModel::InjectBody(name, v) => match body_outcome(old.body->Some_0@, name, v) {
            BodyModel::Body(t) => r is Ok && same_except_body(old, after) && (after.body matches Some(
                b,
            ) && b@ == t),
            BodyModel::Failed(msg) => after == old && match r {
                Err(HttpCallError::InvalidSecurityConfiguration(m)) => m@ == msg,
                Ok(_) => false,
            },
        },
    }
}

fn security_error(msg: String) -> (r: Result<(), HttpCallError>)
    ensures
        r == Err::<(), HttpCallError>(HttpCallError::InvalidSecurityConfiguration(msg)),
{
    Err(HttpCallError::InvalidSecurityConfiguration(msg))
}

/// Applies the security that the request names to the request, in place.
pub fn resolve_security(security_map: &SecurityMap, params: &mut HttpRequest) -> (r: Result<
    (),
    HttpCallError,
>)
    ensures
        resolved(*security_map, *old(params), *final(params), r),
{
    let security = match &params.security {
        None => {
            return Ok(());
        },
        Some(s) => s.clone(),
    };
    match security_map.get(&security) {
        None => {
            let mut msg = String::from_str("Security configuration for ");
            msg.append(security.as_str());
            msg.append(" is missing");
            security_error(msg)
        },
        Some(SecurityMapValue::Error(err)) => {
            let mut errs: Vec<MapInterpreterSecurityMisconfiguredError> = Vec::new();
            errs.push(err.clone_error());
            let msg = MapInterpreterSecurityMisconfiguredError::format_errors(errs.as_slice());
            proof {
                let e = errs@[0];
                assert(errs@.drop_last() =~= Seq::<MapInterpreterSecurityMisconfiguredError>::empty());
                assert(error_lines(errs@) == error_lines(errs@.drop_last()) + error_line(e));
                assert(msg@ =~= error_line(e));
            }
            security_error(msg)
        },
        Some(SecurityMapValue::Security(Security::Http(HttpSecurity::Basic { username, password }))) => {
            let mut creds = username.clone();
            creds.append(":");
            creds.append(password.as_str());
            let bytes = creds.as_str().as_bytes();
            if bytes.len() > usize::MAX / 2 {
                return security_error(String::from_str("Credentials are too long"));
            }
            let encoded = encode_base64(bytes);
            let mut value = String::from_str("Basic ");
            value.append(encoded.as_str());
            multimap_push(&mut params.headers, String::from_str("Authorization"), value);
            Ok(())
        },
        Some(SecurityMapValue::Security(Security::Http(HttpSecurity::Bearer { token, .. }))) => {
            let mut value = String::from_str("Bearer ");
            value.append(token.as_str());
            multimap_push(&mut params.headers, String::from_str("Authorization"), value);
            Ok(())
        },
        Some(SecurityMapValue::Security(Security::ApiKey { placement, name, apikey, body_type })) => {
            match placement {
                ApiKeyPlacement::Header => {
                    multimap_push(&mut params.headers, name.clone(), apikey.clone());
                    Ok(())
                },
                ApiKeyPlacement::Query => {
                    multimap_push(&mut params.query, name.clone(), apikey.clone());
                    Ok(())
                },
                ApiKeyPlacement::Path => {
                    proof {
                        reveal_strlit("{");
                    }
                    let mut pat = String::from_str("{");
                    pat.append(name.as_str());
                    pat.append("}");
                    params.url = replace_all_exec(&params.url, &pat, apikey);
                    Ok(())
                },
                ApiKeyPlacement::Body => match body_type {
                    None => security_error(String::from_str("Missing body type")),
                    Some(ApiKeyBodyType::Json) => match &params.body {
                        None => security_error(
                            String::from_str(
                                "Api key placement is set to body but the body is empty",
                            ),
                        ),
                        Some(body) => match inject_api_key(body, name, apikey) {
                            BodyOutcome::Body(b) => {
                                params.body = Some(b);
                                Ok(())
                            },
                            BodyOutcome::Failed(m) => security_error(m),
                        },
                    },
                },
            }
        },
    }
}


/// Preparing the security map depends on the provider and the secrets alone.
pub proof fn lemma_prepare_deterministic(
    provider_json: ProviderJson,
    secrets: HostValue,
    r1: Result<SecurityMap, PrepareSecurityMapError>,
    r2: Result<SecurityMap, PrepareSecurityMapError>,
)
    requires
        prepared(provider_json, secrets, r1),
        prepared(provider_json, secrets, r2),
    ensures
        r1 is Ok <==> r2 is Ok,
        r1 matches Ok(m1) ==> (r2 matches Ok(m2) && m1.view() == m2.view()),
        r1 matches Err(PrepareSecurityMapError::SecurityMisconfigured(e1)) ==> (r2 matches Err(
            PrepareSecurityMapError::SecurityMisconfigured(e2),
        ) && errors_model(e1@) == errors_model(e2@)),
{
}

/// Resolving the same request against maps with the same entries makes the
/// same changes to headers, query, url and body, and succeeds or fails alike
/// with the same message.
pub proof fn lemma_resolve_deterministic(
    m1: SecurityMap,
    m2: SecurityMap,
    req: HttpRequest,
    after1: HttpRequest,
    after2: HttpRequest,
    r1: Result<(), HttpCallError>,
    r2: Result<(), HttpCallError>,
)
    requires
        m1.view() == m2.view(),
        resolved(m1, req, after1, r1),
        resolved(m2, req, after2, r2),
    ensures
        r1 is Ok <==> r2 is Ok,
        r1 matches Err(HttpCallError::InvalidSecurityConfiguration(a)) ==> (r2 matches Err(
            HttpCallError::InvalidSecurityConfiguration(b),
        ) && a@ == b@),
        multimap_view(after1.headers@) == multimap_view(after2.headers@),
        multimap_view(after1.query@) == multimap_view(after2.query@),
        after1.url@ == after2.url@,
        body_view(after1.body) == body_view(after2.body),
{
    assert(resolve_model(m1, req) == resolve_model(m2, req));
}

/// With no security schemes declared, the prepared map is empty, and
/// resolving a request that names no security changes nothing.
pub proof fn lemma_no_schemes(
    provider_json: ProviderJson,
    secrets: HostValue,
    prepared_map: Result<SecurityMap, PrepareSecurityMapError>,
    req: HttpRequest,
    after: HttpRequest,
    r: Result<(), HttpCallError>,
)
    requires
        declared_schemes(provider_json).len() == 0,
        prepared(provider_json, secrets, prepared_map),
        prepared_map matches Ok(m) && resolved(m, req, after, r),
        req.security is None,
    ensures
        prepared_map matches Ok(m) && m.view().len() == 0,
        r is Ok,
        after == req,
{
}

} // verus!
