use vstd::prelude::*;

use crate::json::{
    clone_value, entries_model, entry_upsert, lemma_object_model, object_upsert, upsert_all,
    EntriesModel as JsonEntries, JsonModel,
};
use crate::value::{entries_get, object_get, HostValue};

verus! {

/// Where an API key is placed in an outgoing request.
#[derive(Clone, Copy, Debug, PartialEq, Eq, Structural)]
pub enum ApiKeyPlacement {
    Header,
    Body,
    Path,
    Query,
}

/// How a request body that receives an API key is encoded.
#[derive(Clone, Copy, Debug, PartialEq, Eq, Structural)]
pub enum ApiKeyBodyType {
    Json,
}

/// The HTTP authentication schemes a provider may name.
#[derive(Clone, Copy, Debug, PartialEq, Eq, Structural)]
pub enum HttpScheme {
    Basic,
    Bearer,
    Digest,
}

/// An HTTP security scheme combined with its secret.
#[derive(Clone, Debug, PartialEq)]
pub enum HttpSecurity {
    Basic { username: String, password: String },
    Bearer { bearer_format: Option<String>, token: String },
}

/// A resolved security scheme, ready to be applied to a request.
#[derive(Clone, Debug, PartialEq)]
pub enum Security {
    ApiKey {
        placement: ApiKeyPlacement,
        name: String,
        apikey: String,
        body_type: Option<ApiKeyBodyType>,
    },
    Http(HttpSecurity),
}

/// A secret of a misconfigured scheme: which scheme, and what was expected.
#[derive(Clone, Debug, PartialEq)]
pub struct MapInterpreterSecurityMisconfiguredError {
    pub id: String,
    pub expected: String,
}

/// An entry of the security map: resolved, or misconfigured with the error
/// deferred until a request uses it.
#[derive(Clone, Debug, PartialEq)]
pub enum SecurityMapValue {
    Security(Security),
    Error(MapInterpreterSecurityMisconfiguredError),
}

/// A secret as the caller supplies it, by its shape.
#[derive(Clone, Debug, PartialEq)]
pub enum SecurityValue {
    ApiKey { apikey: String },
    Basic { username: String, password: String },
    Bearer { token: String },
}

/// Failure of preparing the security map: every secret whose shape does not
/// fit its scheme, in the order the schemes are declared.
#[derive(Clone, Debug, PartialEq)]
pub enum PrepareSecurityMapError {
    SecurityMisconfigured(Vec<MapInterpreterSecurityMisconfiguredError>),
}

/// An HTTP security scheme as a provider declares it.
#[derive(Clone, Debug, PartialEq)]
pub enum HttpSecurityScheme {
    Basic { id: String },
    Bearer { id: String, bearer_format: Option<String> },
}

/// A security scheme as a provider declares it.
#[derive(Clone, Debug, PartialEq)]
pub enum SecurityScheme {
    ApiKey {
        id: String,
        placement: ApiKeyPlacement,
        name: String,
        body_type: Option<ApiKeyBodyType>,
    },
    Http(HttpSecurityScheme),
}

/// A provider parameter with its optional default value.
#[derive(Clone, Debug, PartialEq)]
pub struct ProviderParameter {
    pub name: String,
    pub default: Option<String>,
}

/// The parts of a provider description that the core consumes.
#[derive(Clone, Debug, PartialEq)]
pub struct ProviderJson {
    pub security_schemes: Option<Vec<SecurityScheme>>,
    pub parameters: Option<Vec<ProviderParameter>>,
}

// ---------------------------------------------------------------------------
// Formatting of misconfiguration errors
// ---------------------------------------------------------------------------

/// The line that describes one misconfigured secret.
pub open spec fn error_line(e: MapInterpreterSecurityMisconfiguredError) -> Seq<char> {
    "Value for "@ + e.id@ + " is misconfigured. Expected "@ + e.expected@ + "\n"@
}

/// All error lines, one after the other.
pub open spec fn error_lines(errs: Seq<MapInterpreterSecurityMisconfiguredError>) -> Seq<char>
    decreases errs.len(),
{
    if errs.len() == 0 {
        Seq::empty()
    } else {
        error_lines(errs.drop_last()) + error_line(errs.last())
    }
}

impl MapInterpreterSecurityMisconfiguredError {
    /// One line per error: `Value for <id> is misconfigured. Expected <expected>`.
    pub fn format_errors(errors: &[MapInterpreterSecurityMisconfiguredError]) -> (r: String)
        ensures
            r@ == error_lines(errors@),
    {
        let mut res = String::new();
        let mut i: usize = 0;
        while i < errors.len()
            invariant
                i <= errors@.len(),
                res@ == error_lines(errors@.take(i as int)),
            decreases errors@.len() - i,
        {
            res.append("Value for ");
            res.append(errors[i].id.as_str());
            res.append(" is misconfigured. Expected ");
            res.append(errors[i].expected.as_str());
            res.append("\n");
            assert(errors@.take(i + 1).drop_last() =~= errors@.take(i as int));
            i = i + 1;
        }
        assert(errors@.take(i as int) =~= errors@);
        res
    }
}

impl MapInterpreterSecurityMisconfiguredError {
    /// A copy of the error.
    pub fn clone_error(&self) -> (r: Self)
        ensures
            r.id@ == self.id@,
            r.expected@ == self.expected@,
    {
        MapInterpreterSecurityMisconfiguredError { id: self.id.clone(), expected: self.expected.clone() }
    }
}

impl PrepareSecurityMapError {
    /// The message of the error: a heading and one line per misconfigured secret.
    pub fn to_string(&self) -> (r: String)
        ensures
            r@ == match self {
                PrepareSecurityMapError::SecurityMisconfigured(errs) => "Security is misconfigured:\n"@
                    + error_lines(errs@),
            },
    {
        match self {
            PrepareSecurityMapError::SecurityMisconfigured(errs) => {
                let mut res = String::from_str("Security is misconfigured:\n");
                let lines = MapInterpreterSecurityMisconfiguredError::format_errors(errs.as_slice());
                res.append(lines.as_str());
                res
            },
        }
    }
}


// ---------------------------------------------------------------------------
// Models of secrets, schemes and map entries
// ---------------------------------------------------------------------------

/// What a secret supplied by the caller is, by its shape.
pub enum SecretModel {
    ApiKey(Seq<char>),
    Basic(Seq<char>, Seq<char>),
    Bearer(Seq<char>),
    Malformed,
}

/// The string held under `key` in an object's entries, if there is one.
pub open spec fn string_field(entries: Seq<(String, HostValue)>, key: Seq<char>) -> Option<
    Seq<char>,
> {
    match entries_get(entries, key) {
        Some(HostValue::String(s)) => Some(s@),
        _ => None,
    }
}

/// A secret is classified by the first of `apikey`, `username`, `token` that
/// it has; its fields must then be strings.
pub open spec fn secret_model(v: HostValue) -> SecretModel {
    match v {
        HostValue::Object(e) => {
            if entries_get(e@, "apikey"@) is Some {
                match string_field(e@, "apikey"@) {
                    Some(k) => SecretModel::ApiKey(k),
                    None => SecretModel::Malformed,
                }
            } else if entries_get(e@, "username"@) is Some {
                match (string_field(e@, "username"@), string_field(e@, "password"@)) {
                    (Some(u), Some(p)) => SecretModel::Basic(u, p),
                    _ => SecretModel::Malformed,
                }
            } else if entries_get(e@, "token"@) is Some {
                match string_field(e@, "token"@) {
                    Some(t) => SecretModel::Bearer(t),
                    None => SecretModel::Malformed,
                }
            } else {
                SecretModel::Malformed
            }
        },
        _ => SecretModel::Malformed,
    }
}

/// The secret supplied for scheme `id`; secrets that are not an object supply none.
pub open spec fn secret_for(secrets: HostValue, id: Seq<char>) -> Option<HostValue> {
    match secrets {
        HostValue::Object(e) => entries_get(e@, id),
        _ => None,
    }
}

/// A security map entry, over plain values.
pub enum EntryModel {
    ApiKey {
        placement: ApiKeyPlacement,
        name: Seq<char>,
        apikey: Seq<char>,
        body_type: Option<ApiKeyBodyType>,
    },
    Basic { username: Seq<char>, password: Seq<char> },
    Bearer { bearer_format: Option<Seq<char>>, token: Seq<char> },
    Misconfigured { id: Seq<char>, expected: Seq<char> },
}

pub open spec fn opt_view(o: Option<String>) -> Option<Seq<char>> {
    match o {
        Some(s) => Some(s@),
        None => None,
    }
}

impl SecurityMapValue {
    pub open spec fn model(self) -> EntryModel {
        match self {
            SecurityMapValue::Security(Security::ApiKey { placement, name, apikey, body_type }) => {
                EntryModel::ApiKey { placement, name: name@, apikey: apikey@, body_type }
            },
            SecurityMapValue::Security(Security::Http(HttpSecurity::Basic { username, password })) => {
                EntryModel::Basic { username: username@, password: password@ }
            },
            SecurityMapValue::Security(
                Security::Http(HttpSecurity::Bearer { bearer_format, token }),
            ) => EntryModel::Bearer { bearer_format: opt_view(bearer_format), token: token@ },
            SecurityMapValue::Error(e) => EntryModel::Misconfigured {
                id: e.id@,
                expected: e.expected@,
            },
        }
    }
}

impl SecurityScheme {
    pub open spec fn id(self) -> Seq<char> {
        match self {
            SecurityScheme::ApiKey { id, .. } => id@,
            SecurityScheme::Http(HttpSecurityScheme::Basic { id }) => id@,
            SecurityScheme::Http(HttpSecurityScheme::Bearer { id, .. }) => id@,
        }
    }

    /// The shape of secret that the scheme takes, as error messages name it.
    pub open spec fn expected_shape(self) -> Seq<char> {
        match self {
            SecurityScheme::ApiKey { .. } => "{ apikey: String }"@,
            SecurityScheme::Http(HttpSecurityScheme::Basic { .. }) => {
                "{ username: String, password: String }"@
            },
            SecurityScheme::Http(HttpSecurityScheme::Bearer { .. }) => "{ token: String }"@,
        }
    }

    /// The entry the scheme gets from `secrets`; `None` where the secret has
    /// the wrong shape.
    pub open spec fn outcome(self, secrets: HostValue) -> Option<EntryModel> {
        match secret_for(secrets, self.id()) {
            None => Some(EntryModel::Misconfigured { id: self.id(), expected: "not empty value"@ }),
            Some(v) => match (self, secret_model(v)) {
                (
                    SecurityScheme::ApiKey { placement, name, body_type, .. },
                    SecretModel::ApiKey(k),
                ) => Some(EntryModel::ApiKey { placement, name: name@, apikey: k, body_type }),
                (
                    SecurityScheme::Http(HttpSecurityScheme::Basic { .. }),
                    SecretModel::Basic(u, p),
                ) => Some(EntryModel::Basic { username: u, password: p }),
                (
                    SecurityScheme::Http(HttpSecurityScheme::Bearer { bearer_format, .. }),
                    SecretModel::Bearer(t),
                ) => Some(EntryModel::Bearer { bearer_format: opt_view(bearer_format), token: t }),
                _ => None,
            },
        }
    }
}

/// Entries keyed by scheme id, in the order the ids were first declared.
pub type EntriesModel = Seq<(Seq<char>, EntryModel)>;

/// Sets the entry for `k`: the first entry with that key is replaced, or
/// the pair is appended.
pub open spec fn upsert(s: EntriesModel, k: Seq<char>, v: EntryModel) -> EntriesModel
    decreases s.len(),
{
    if s.len() == 0 {
        seq![(k, v)]
    } else if s[0].0 == k {
        s.update(0, (k, v))
    } else {
        seq![s[0]] + upsert(s.drop_first(), k, v)
    }
}

/// The entry for `k`; the first match wins.
pub open spec fn lookup(s: EntriesModel, k: Seq<char>) -> Option<EntryModel>
    decreases s.len(),
{
    if s.len() == 0 {
        None
    } else if s[0].0 == k {
        Some(s[0].1)
    } else {
        lookup(s.drop_first(), k)
    }
}

/// The entries that the schemes give, in declaration order; a scheme whose
/// secret has the wrong shape adds none.
pub open spec fn prepared_entries(schemes: Seq<SecurityScheme>, secrets: HostValue) -> EntriesModel
    decreases schemes.len(),
{
    if schemes.len() == 0 {
        Seq::empty()
    } else {
        let prev = prepared_entries(schemes.drop_last(), secrets);
        let s = schemes.last();
        match s.outcome(secrets) {
            Some(e) => upsert(prev, s.id(), e),
            None => prev,
        }
    }
}

/// The errors that the schemes give: one for each whose secret has the wrong shape.
pub open spec fn prepare_errors(schemes: Seq<SecurityScheme>, secrets: HostValue) -> Seq<
    (Seq<char>, Seq<char>),
>
    decreases schemes.len(),
{
    if schemes.len() == 0 {
        Seq::empty()
    } else {
        let prev = prepare_errors(schemes.drop_last(), secrets);
        let s = schemes.last();
        if s.outcome(secrets) is None {
            prev.push((s.id(), s.expected_shape()))
        } else {
            prev
        }
    }
}

pub open spec fn errors_model(errs: Seq<MapInterpreterSecurityMisconfiguredError>) -> Seq<
    (Seq<char>, Seq<char>),
> {
    errs.map_values(|e: MapInterpreterSecurityMisconfiguredError| (e.id@, e.expected@))
}

pub open spec fn declared_schemes(p: ProviderJson) -> Seq<SecurityScheme> {
    match p.security_schemes {
        Some(v) => v@,
        None => Seq::empty(),
    }
}

// ---------------------------------------------------------------------------
// The security map
// ---------------------------------------------------------------------------

/// Security map entries keyed by scheme id, one entry per id.
pub struct SecurityMap {
    entries: Vec<(String, SecurityMapValue)>,
}

pub open spec fn security_entries_model(v: Seq<(String, SecurityMapValue)>) -> EntriesModel {
    v.map_values(|p: (String, SecurityMapValue)| (p.0@, p.1.model()))
}

proof fn lemma_upsert_at(s: EntriesModel, i: int, k: Seq<char>, v: EntryModel)
    requires
        0 <= i < s.len(),
        s[i].0 == k,
        forall|j: int| 0 <= j < i ==> s[j].0 != k,
    ensures
        upsert(s, k, v) == s.update(i, (k, v)),
    decreases s.len(),
{
    if i > 0 {
        lemma_upsert_at(s.drop_first(), i - 1, k, v);
        assert(upsert(s, k, v) =~= s.update(i, (k, v)));
    }
}

proof fn lemma_upsert_end(s: EntriesModel, k: Seq<char>, v: EntryModel)
    requires
        forall|j: int| 0 <= j < s.len() ==> s[j].0 != k,
    ensures
        upsert(s, k, v) == s.push((k, v)),
    decreases s.len(),
{
    if s.len() > 0 {
        lemma_upsert_end(s.drop_first(), k, v);
        assert(upsert(s, k, v) =~= s.push((k, v)));
    }
}

proof fn lemma_lookup_at(s: EntriesModel, i: int, k: Seq<char>)
    requires
        0 <= i < s.len(),
        s[i].0 == k,
        forall|j: int| 0 <= j < i ==> s[j].0 != k,
    ensures
        lookup(s, k) == Some(s[i].1),
    decreases s.len(),
{
    if i > 0 {
        lemma_lookup_at(s.drop_first(), i - 1, k);
    }
}

proof fn lemma_lookup_none(s: EntriesModel, k: Seq<char>)
    requires
        forall|j: int| 0 <= j < s.len() ==> s[j].0 != k,
    ensures
        lookup(s, k) is None,
    decreases s.len(),
{
    if s.len() > 0 {
        lemma_lookup_none(s.drop_first(), k);
    }
}

/// Whether no two entries have the same key.
pub open spec fn keys_unique(s: EntriesModel) -> bool {
    forall|i: int, j: int| 0 <= i < j < s.len() ==> #[trigger] s[i].0 != #[trigger] s[j].0
}

proof fn lemma_upsert_unique(s: EntriesModel, k: Seq<char>, v: EntryModel)
    requires
        keys_unique(s),
    ensures
        keys_unique(upsert(s, k, v)),
    decreases s.len(),
{
    if s.len() > 0 && s[0].0 != k {
        let t = s.drop_first();
        assert(keys_unique(t)) by {
            assert forall|i: int, j: int| 0 <= i < j < t.len() implies #[trigger] t[i].0 != #[trigger] t[j].0 by {
                assert(t[i] == s[i + 1] && t[j] == s[j + 1]);
            }
        }
        lemma_upsert_unique(t, k, v);
        lemma_upsert_keys(t, k, v);
        let u = upsert(s, k, v);
        assert forall|i: int, j: int| 0 <= i < j < u.len() implies #[trigger] u[i].0 != #[trigger] u[j].0 by {
            if i == 0 {
                assert(u[j] == upsert(t, k, v)[j - 1]);
                let w = upsert(t, k, v)[j - 1].0;
                if w != k {
                    let jj = choose|jj: int| 0 <= jj < t.len() && t[jj].0 == w;
                    assert(s[jj + 1] == t[jj]);
                }
            } else {
                assert(u[i] == upsert(t, k, v)[i - 1] && u[j] == upsert(t, k, v)[j - 1]);
            }
        }
    } else if s.len() > 0 {
        let u = upsert(s, k, v);
        assert forall|i: int, j: int| 0 <= i < j < u.len() implies #[trigger] u[i].0 != #[trigger] u[j].0 by {
            assert(u[j] == s[j]);
            if i > 0 {
                assert(u[i] == s[i]);
            }
        }
    }
}

proof fn lemma_upsert_keys(s: EntriesModel, k: Seq<char>, v: EntryModel)
    ensures
        forall|j: int|
            0 <= j < upsert(s, k, v).len() ==> (#[trigger] upsert(s, k, v)[j]).0 == k || exists|i: int|
                0 <= i < s.len() && s[i].0 == upsert(s, k, v)[j].0,
    decreases s.len(),
{
    if s.len() > 0 && s[0].0 != k {
        let t = s.drop_first();
        lemma_upsert_keys(t, k, v);
        let u = upsert(s, k, v);
        assert forall|j: int| 0 <= j < u.len() implies (#[trigger] u[j]).0 == k || exists|i: int|
            0 <= i < s.len() && s[i].0 == u[j].0 by {
            if j == 0 {
                assert(s[0].0 == u[0].0);
            } else {
                assert(u[j] == upsert(t, k, v)[j - 1]);
                if u[j].0 != k {
                    let i = choose|i: int| 0 <= i < t.len() && t[i].0 == u[j].0;
                    assert(s[i + 1] == t[i]);
                }
            }
        }
    } else if s.len() > 0 {
        let u = upsert(s, k, v);
        assert forall|j: int| 0 <= j < u.len() implies (#[trigger] u[j]).0 == k || exists|i: int|
            0 <= i < s.len() && s[i].0 == u[j].0 by {
            if j > 0 {
                assert(u[j] == s[j]);
            }
        }
    }
}

impl SecurityMap {
    pub closed spec fn view(&self) -> EntriesModel {
        security_entries_model(self.entries@)
    }

    /// An empty map.
    pub fn new() -> (r: SecurityMap)
        ensures
            r.view() == Seq::<(Seq<char>, EntryModel)>::empty(),
            keys_unique(r.view()),
    {
        let r = SecurityMap { entries: Vec::new() };
        assert(r.view() =~= Seq::<(Seq<char>, EntryModel)>::empty());
        r
    }

    /// The number of entries.
    pub fn len(&self) -> (r: usize)
        ensures
            r == self.view().len(),
    {
        self.entries.len()
    }

    /// Sets the entry of `key`, replacing an earlier one.
    pub fn insert(&mut self, key: String, value: SecurityMapValue)
        ensures
            final(self).view() == upsert(old(self).view(), key@, value.model()),
            keys_unique(old(self).view()) ==> keys_unique(final(self).view()),
    {
        proof {
            if keys_unique(self.view()) {
                lemma_upsert_unique(self.view(), key@, value.model());
            }
        }
        let ghost k = key@;
        let ghost v = value.model();
        let ghost kv = (key, value);
        let mut i: usize = 0;
        while i < self.entries.len()
            invariant
                i <= self.entries@.len(),
                forall|j: int| 0 <= j < i ==> self.view()[j].0 != k,
                self.entries@ == old(self).entries@,
                key@ == k,
                kv == (key, value),
                v == value.model(),
                keys_unique(old(self).view()) ==> keys_unique(upsert(old(self).view(), k, v)),
            decreases self.entries@.len() - i,
        {
            if self.entries[i].0 == key {
                proof {
                    lemma_upsert_at(self.view(), i as int, k, v);
                }
                self.entries.set(i, (key, value));
                assert(self.entries@ == old(self).entries@.update(i as int, kv));
                assert forall|j: int| 0 <= j < self.view().len() implies self.view()[j]
                    == old(self).view().update(i as int, (k, v))[j] by {
                    if j == i {
                        assert(self.entries@[j] == kv);
                    }
                }
                assert(self.view() =~= old(self).view().update(i as int, (k, v)));
                return;
            }
            i = i + 1;
        }
        proof {
            lemma_upsert_end(self.view(), k, v);
        }
        self.entries.push((key, value));
        assert(self.entries@ == old(self).entries@.push(kv));
        assert(self.view() =~= old(self).view().push((k, v)));
    }

    /// The entry of `key`, if there is one.
    pub fn get(&self, key: &String) -> (r: Option<&SecurityMapValue>)
        ensures
            r matches Some(v) ==> lookup(self.view(), key@) == Some(v.model()),
            r is None ==> lookup(self.view(), key@) is None,
    {
        let mut i: usize = 0;
        while i < self.entries.len()
            invariant
                i <= self.entries@.len(),
                forall|j: int| 0 <= j < i ==> self.view()[j].0 != key@,
            decreases self.entries@.len() - i,
        {
            if self.entries[i].0 == *key {
                proof {
                    lemma_lookup_at(self.view(), i as int, key@);
                }
                return Some(&self.entries[i].1);
            }
            i = i + 1;
        }
        proof {
            lemma_lookup_none(self.view(), key@);
        }
        None
    }
}


// ---------------------------------------------------------------------------
// Preparing the security map
// ---------------------------------------------------------------------------

pub open spec fn secret_value_model(sv: Option<SecurityValue>) -> SecretModel {
    match sv {
        Some(SecurityValue::ApiKey { apikey }) => SecretModel::ApiKey(apikey@),
        Some(SecurityValue::Basic { username, password }) => SecretModel::Basic(
            username@,
            password@,
        ),
        Some(SecurityValue::Bearer { token }) => SecretModel::Bearer(token@),
        None => SecretModel::Malformed,
    }
}

/// The string under `key` in `entries`, copied.
fn string_field_of(entries: &Vec<(String, HostValue)>, key: &str) -> (r: Option<String>)
    ensures
        opt_view(r) == string_field(entries@, key@),
        r is Some ==> entries_get(entries@, key@) is Some,
{
    let k = String::from_str(key);
    match object_get(entries, &k) {
        Some(HostValue::String(s)) => Some(s.clone()),
        _ => None,
    }
}

fn has_field(entries: &Vec<(String, HostValue)>, key: &str) -> (r: bool)
    ensures
        r == (entries_get(entries@, key@) is Some),
{
    let k = String::from_str(key);
    object_get(entries, &k).is_some()
}

/// Reads a secret by its shape; `None` where it fits no shape.
pub fn classify_secret(v: &HostValue) -> (r: Option<SecurityValue>)
    ensures
        secret_value_model(r) == secret_model(*v),
{
    match v {
        HostValue::Object(e) => {
            if has_field(e, "apikey") {
                match string_field_of(e, "apikey") {
                    Some(apikey) => Some(SecurityValue::ApiKey { apikey }),
                    None => None,
                }
            } else if has_field(e, "username") {
                match (string_field_of(e, "username"), string_field_of(e, "password")) {
                    (Some(username), Some(password)) => Some(
                        SecurityValue::Basic { username, password },
                    ),
                    _ => None,
                }
            } else if has_field(e, "token") {
                match string_field_of(e, "token") {
                    Some(token) => Some(SecurityValue::Bearer { token }),
                    None => None,
                }
            } else {
                None
            }
        },
        _ => None,
    }
}

fn secret_lookup<'a>(secrets: &'a HostValue, id: &String) -> (r: Option<&'a HostValue>)
    ensures
        r matches Some(v) ==> secret_for(*secrets, id@) == Some(*v),
        r is None ==> secret_for(*secrets, id@) is None,
{
    match secrets {
        HostValue::Object(e) => object_get(e, id),
        _ => None,
    }
}

impl SecurityScheme {
    /// The id under which the scheme is declared.
    pub fn scheme_id(&self) -> (r: &String)
        ensures
            r@ == self.id(),
    {
        match self {
            SecurityScheme::ApiKey { id, .. } => id,
            SecurityScheme::Http(HttpSecurityScheme::Basic { id }) => id,
            SecurityScheme::Http(HttpSecurityScheme::Bearer { id, .. }) => id,
        }
    }

    fn shape_name(&self) -> (r: String)
        ensures
            r@ == self.expected_shape(),
    {
        match self {
            SecurityScheme::ApiKey { .. } => String::from_str("{ apikey: String }"),
            SecurityScheme::Http(HttpSecurityScheme::Basic { .. }) => String::from_str(
                "{ username: String, password: String }",
            ),
            SecurityScheme::Http(HttpSecurityScheme::Bearer { .. }) => String::from_str(
                "{ token: String }",
            ),
        }
    }
}

fn clone_opt_string(o: &Option<String>) -> (r: Option<String>)
    ensures
        opt_view(r) == opt_view(*o),
{
    match o {
        Some(s) => Some(s.clone()),
        None => None,
    }
}

/// The entry a scheme gets from its secret; `None` where the shape is wrong.
fn scheme_entry(scheme: &SecurityScheme, secret: SecurityValue) -> (r: Option<SecurityMapValue>)
    ensures
        r matches Some(e) ==> scheme.outcome_of(Some(secret)) == Some(e.model()),
        r is None ==> scheme.outcome_of(Some(secret)) is None,
{
    match (scheme, secret) {
        (
            SecurityScheme::ApiKey { placement, name, body_type, .. },
            SecurityValue::ApiKey { apikey },
        ) => Some(
            SecurityMapValue::Security(
                Security::ApiKey {
                    placement: *placement,
                    name: name.clone(),
                    apikey,
                    body_type: *body_type,
                },
            ),
        ),
        (
            SecurityScheme::Http(HttpSecurityScheme::Basic { .. }),
            SecurityValue::Basic { username, password },
        ) => Some(SecurityMapValue::Security(Security::Http(HttpSecurity::Basic { username, password }))),
        (
            SecurityScheme::Http(HttpSecurityScheme::Bearer { bearer_format, .. }),
            SecurityValue::Bearer { token },
        ) => Some(
            SecurityMapValue::Security(
                Security::Http(
                    HttpSecurity::Bearer { bearer_format: clone_opt_string(bearer_format), token },
                ),
            ),
        ),
        _ => None,
    }
}

impl SecurityScheme {
    /// The entry the scheme gets from a secret classified by shape.
    pub open spec fn outcome_of(self, sv: Option<SecurityValue>) -> Option<EntryModel> {
        match (self, secret_value_model(sv)) {
            (SecurityScheme::ApiKey { placement, name, body_type, .. }, SecretModel::ApiKey(k)) => {
                Some(EntryModel::ApiKey { placement, name: name@, apikey: k, body_type })
            },
            (SecurityScheme::Http(HttpSecurityScheme::Basic { .. }), SecretModel::Basic(u, p)) => {
                Some(EntryModel::Basic { username: u, password: p })
            },
            (
                SecurityScheme::Http(HttpSecurityScheme::Bearer { bearer_format, .. }),
                SecretModel::Bearer(t),
            ) => Some(EntryModel::Bearer { bearer_format: opt_view(bearer_format), token: t }),
            _ => None,
        }
    }
}

/// Whether `r` is what preparing the security map gives for a provider and
/// the caller's secrets: the entries of every scheme, or every scheme whose
/// secret has the wrong shape.
pub open spec fn prepared(
    provider_json: ProviderJson,
    secrets: HostValue,
    r: Result<SecurityMap, PrepareSecurityMapError>,
) -> bool {
    let schemes = declared_schemes(provider_json);
    let errs = prepare_errors(schemes, secrets);
    match r {
        Ok(m) => errs.len() == 0 && m.view() == prepared_entries(schemes, secrets),
        Err(PrepareSecurityMapError::SecurityMisconfigured(e)) => errs.len() > 0 && errors_model(e@)
            == errs,
    }
}

/// Combines the provider's security schemes with the caller's secrets.
///
/// A scheme without a secret gets a deferred error entry; a secret of the
/// wrong shape fails the whole preparation, listing every such scheme.
pub fn prepare_security_map(provider_json: &ProviderJson, map_security: &HostValue) -> (r: Result<
    SecurityMap,
    PrepareSecurityMapError,
>)
    ensures
        prepared(*provider_json, *map_security, r),
        r matches Ok(m) ==> keys_unique(m.view()),
{
    let schemes = match &provider_json.security_schemes {
        Some(s) => s,
        None => {
            return Ok(SecurityMap::new());
        },
    };
    let ghost secrets = *map_security;
    let mut map = SecurityMap::new();
    let mut errors: Vec<MapInterpreterSecurityMisconfiguredError> = Vec::new();
    let mut i: usize = 0;
    while i < schemes.len()
        invariant
            i <= schemes@.len(),
            schemes@ == declared_schemes(*provider_json),
            map.view() == prepared_entries(schemes@.take(i as int), secrets),
            keys_unique(map.view()),
            errors_model(errors@) == prepare_errors(schemes@.take(i as int), secrets),
            secrets == *map_security,
        decreases schemes@.len() - i,
    {
        let scheme = &schemes[i];
        let id = scheme.scheme_id();
        assert(schemes@.take(i + 1).drop_last() =~= schemes@.take(i as int));
        assert(schemes@.take(i + 1).last() == *scheme);
        match secret_lookup(map_security, id) {
            None => {
                let err = MapInterpreterSecurityMisconfiguredError {
                    id: id.clone(),
                    expected: String::from_str("not empty value"),
                };
                map.insert(id.clone(), SecurityMapValue::Error(err));
            },
            Some(v) => {
                let sv = classify_secret(v);
                match sv {
                    None => {
                        let err = MapInterpreterSecurityMisconfiguredError {
                            id: id.clone(),
                            expected: scheme.shape_name(),
                        };
                        errors.push(err);
                    },
                    Some(sv) => {
                        let ghost svg = sv;
                        match scheme_entry(scheme, sv) {
                            Some(e) => {
                                map.insert(id.clone(), e);
                            },
                            None => {
                                let err = MapInterpreterSecurityMisconfiguredError {
                                    id: id.clone(),
                                    expected: scheme.shape_name(),
                                };
                                errors.push(err);
                            },
                        }
                    },
                }
            },
        }
        i = i + 1;
    }
    assert(schemes@.take(i as int) =~= schemes@);
    if errors.len() > 0 {
        return Err(PrepareSecurityMapError::SecurityMisconfigured(errors));
    }
    Ok(map)
}


// ---------------------------------------------------------------------------
// Provider parameters
// ---------------------------------------------------------------------------

pub open spec fn declared_parameters(p: ProviderJson) -> Seq<ProviderParameter> {
    match p.parameters {
        Some(v) => v@,
        None => Seq::empty(),
    }
}

/// `{name: default}` for each parameter that has a default; a later
/// parameter of the same name wins.
pub open spec fn provider_defaults(ps: Seq<ProviderParameter>) -> JsonEntries
    decreases ps.len(),
{
    if ps.len() == 0 {
        Seq::empty()
    } else {
        let prev = provider_defaults(ps.drop_last());
        match ps.last().default {
            Some(d) => entry_upsert(prev, ps.last().name@, JsonModel::Str(d@)),
            None => prev,
        }
    }
}

/// The provider's parameter defaults, as an object of strings.
pub fn prepare_provider_parameters(provider_json: &ProviderJson) -> (r: HostValue)
    ensures
        r.model() == JsonModel::Object(provider_defaults(declared_parameters(*provider_json))),
{
    let mut e: Vec<(String, HostValue)> = Vec::new();
    assert(entries_model(e@) =~= Seq::empty());
    match &provider_json.parameters {
        None => {},
        Some(ps) => {
            let mut i: usize = 0;
            while i < ps.len()
                invariant
                    i <= ps@.len(),
                    ps@ == declared_parameters(*provider_json),
                    entries_model(e@) == provider_defaults(ps@.take(i as int)),
                decreases ps@.len() - i,
            {
                assert(ps@.take(i + 1).drop_last() =~= ps@.take(i as int));
                match &ps[i].default {
                    Some(d) => {
                        let v = HostValue::String(d.clone());
                        object_upsert(&mut e, ps[i].name.clone(), v);
                    },
                    None => {},
                }
                i = i + 1;
            }
            assert(ps@.take(i as int) =~= ps@);
        },
    }
    proof {
        lemma_object_model(e);
    }
    HostValue::Object(e)
}

/// The entries of an object; nothing for any other value.
pub open spec fn object_entries(v: HostValue) -> JsonEntries {
    match v.model() {
        JsonModel::Object(e) => e,
        _ => Seq::empty(),
    }
}

/// The map's variables: the provider's defaults, overridden by the caller's
/// variables where the caller gives an object.
pub fn merge_map_vars(defaults: HostValue, vars: &HostValue) -> (r: HostValue)
    requires
        defaults is Object,
    ensures
        r.model() == JsonModel::Object(upsert_all(object_entries(defaults), object_entries(*vars))),
{
    let mut e = match defaults {
        HostValue::Object(e) => e,
        _ => Vec::new(),
    };
    proof {
        lemma_object_model(e);
    }
    if let HostValue::Object(more) = vars {
        proof {
            lemma_object_model(*more);
        }
        let ghost base = entries_model(e@);
        let mut i: usize = 0;
        while i < more.len()
            invariant
                *vars == HostValue::Object(*more),
                i <= more@.len(),
                entries_model(e@) == upsert_all(base, entries_model(more@).take(i as int)),
            decreases more@.len() - i,
        {
            assert(entries_model(more@).take(i + 1).drop_last() =~= entries_model(more@).take(
                i as int,
            ));
            object_upsert(&mut e, more[i].0.clone(), clone_value(&more[i].1));
            i = i + 1;
        }
        assert(entries_model(more@).take(i as int) =~= entries_model(more@));
    }
    proof {
        lemma_object_model(e);
    }
    HostValue::Object(e)
}

} // verus!
