use vstd::prelude::*;

use crate::json::{clone_value, entries_model, lemma_object_model, JsonModel};
use crate::security::{error_lines, PrepareSecurityMapError};
use crate::value::{entries_get, object_get, HostValue};

verus! {

broadcast use vstd::string::group_string_axioms;

/// The closed set of runtime failure kinds.
#[derive(Clone, Copy, Debug, PartialEq, Eq, Structural)]
pub enum PerformExceptionErrorCode {
    CoreNotReady,
    PerformInputError,
    PrepareSecurityMapError,
    InvalidSecurityConfiguration,
    MapInterpretationError,
    HostTransportError,
    InputValidationError,
}

/// A runtime failure of a perform, with a human-readable message.
#[derive(Debug, PartialEq)]
pub struct PerformException {
    pub error_code: PerformExceptionErrorCode,
    pub message: String,
}

impl PerformException {
    /// The exception that a failed security preparation becomes.
    pub fn from_prepare_error(e: &PrepareSecurityMapError) -> (r: PerformException)
        ensures
            r.error_code == PerformExceptionErrorCode::PrepareSecurityMapError,
            r.message@ == match e {
                PrepareSecurityMapError::SecurityMisconfigured(errs) => "Security is misconfigured:\n"@
                    + error_lines(errs@),
            },
    {
        PerformException {
            error_code: PerformExceptionErrorCode::PrepareSecurityMapError,
            message: e.to_string(),
        }
    }
}

/// What a perform works on, as the host hands it over.
#[derive(Debug, PartialEq)]
pub struct PerformInput {
    pub profile_url: String,
    pub map_url: String,
    pub usecase: String,
    pub map_input: HostValue,
    pub map_vars: HostValue,
    pub map_secrets: HostValue,
}

/// What a perform hands back: the map's result or its declared error.
#[derive(Debug, PartialEq)]
pub struct PerformOutput {
    pub map_result: Result<HostValue, HostValue>,
}

/// An object with the given entries.
pub open spec fn object_of(entries: Seq<(Seq<char>, JsonModel)>) -> JsonModel {
    JsonModel::Object(entries)
}

fn string_value(s: &str) -> (r: HostValue)
    ensures
        r.model() == JsonModel::Str(s@),
{
    HostValue::String(String::from_str(s))
}

fn single_entry(k: &str, v: HostValue) -> (r: HostValue)
    ensures
        r.model() == object_of(seq![(k@, v.model())]),
{
    let mut e: Vec<(String, HostValue)> = Vec::new();
    e.push((String::from_str(k), v));
    let r = HostValue::Object(e);
    proof {
        if let JsonModel::Object(s) = r.model() {
            assert(s =~= seq![(k@, v.model())]);
        }
    }
    r
}

/// The message that asks the host for the perform input.
pub fn perform_input_request() -> (r: HostValue)
    ensures
        r.model() == object_of(seq![("kind"@, JsonModel::Str("perform-input"@))]),
{
    single_entry("kind", string_value("perform-input"))
}

/// `{"kind": "perform-output", "map_result": {"Ok": v}}`, or `"Err"` for an error.
pub open spec fn output_message(res: Result<HostValue, HostValue>) -> JsonModel {
    let inner = match res {
        Ok(v) => object_of(Seq::empty().push(("Ok"@, v.model()))),
        Err(v) => object_of(Seq::empty().push(("Err"@, v.model()))),
    };
    object_of(
        Seq::empty().push(("kind"@, JsonModel::Str("perform-output"@))).push(("map_result"@, inner)),
    )
}

/// The message that hands the perform output to the host.
pub fn perform_output(output: PerformOutput) -> (r: HostValue)
    ensures
        r.model() == output_message(output.map_result),
{
    let ghost res = output.map_result;
    let result = match output.map_result {
        Ok(v) => single_entry("Ok", v),
        Err(v) => single_entry("Err", v),
    };
    let ghost rm = result.model();
    assert(rm == match res {
        Ok(v) => object_of(Seq::empty().push(("Ok"@, v.model()))),
        Err(v) => object_of(Seq::empty().push(("Err"@, v.model()))),
    }) by {
        assert(seq![("Ok"@, JsonModel::Null)] =~= Seq::empty().push(("Ok"@, JsonModel::Null)));
        match res {
            Ok(v) => assert(seq![("Ok"@, v.model())] =~= Seq::empty().push(("Ok"@, v.model()))),
            Err(v) => assert(seq![("Err"@, v.model())] =~= Seq::empty().push(("Err"@, v.model()))),
        }
    }
    let mut e: Vec<(String, HostValue)> = Vec::new();
    e.push((String::from_str("kind"), string_value("perform-output")));
    e.push((String::from_str("map_result"), result));
    proof {
        lemma_object_model(e);
        assert(entries_model(e@) =~= Seq::empty().push(("kind"@, JsonModel::Str("perform-output"@))).push(
            ("map_result"@, rm),
        ));
    }
    HostValue::Object(e)
}

/// A field of a message, by key.
pub open spec fn field(v: HostValue, key: Seq<char>) -> Option<HostValue> {
    match v {
        HostValue::Object(e) => entries_get(e@, key),
        _ => None,
    }
}

/// The string in a field of a message.
pub open spec fn string_in(v: HostValue, key: Seq<char>) -> Option<Seq<char>> {
    match field(v, key) {
        Some(HostValue::String(s)) => Some(s@),
        _ => None,
    }
}

fn field_ref<'a>(v: &'a HostValue, key: &str) -> (r: Option<&'a HostValue>)
    ensures
        r matches Some(x) ==> field(*v, key@) == Some(*x),
        r is None ==> field(*v, key@) is None,
{
    let k = String::from_str(key);
    match v {
        HostValue::Object(e) => object_get(e, &k),
        _ => None,
    }
}

fn string_ref<'a>(v: &'a HostValue, key: &str) -> (r: Option<&'a String>)
    ensures
        r matches Some(s) ==> string_in(*v, key@) == Some(s@),
        r is None ==> string_in(*v, key@) is None,
{
    match field_ref(v, key) {
        Some(HostValue::String(s)) => Some(s),
        _ => None,
    }
}

fn input_error(msg: String) -> (r: Result<PerformInput, PerformException>)
    ensures
        r matches Err(e) && e.error_code == PerformExceptionErrorCode::PerformInputError
            && e.message@ == msg@,
{
    Err(PerformException { error_code: PerformExceptionErrorCode::PerformInputError, message: msg })
}

/// Whether a message carries the given `kind`.
pub open spec fn kind_is(v: HostValue, k: Seq<char>) -> bool {
    string_in(v, "kind"@) == Some(k)
}

/// Whether an answer to the perform input request is a complete `ok` answer.
pub open spec fn input_complete(v: HostValue) -> bool {
    &&& kind_is(v, "ok"@)
    &&& string_in(v, "profile_url"@) is Some
    &&& string_in(v, "map_url"@) is Some
    &&& string_in(v, "usecase"@) is Some
    &&& field(v, "map_input"@) is Some
    &&& field(v, "map_vars"@) is Some
    &&& field(v, "map_secrets"@) is Some
}

/// Whether a field of `v` holds a value with the model of `x`.
pub open spec fn field_holds(v: HostValue, key: Seq<char>, x: HostValue) -> bool {
    field(v, key) matches Some(y) && y.model() == x.model()
}

/// Reads the host's answer to the perform input request.
///
/// A complete `ok` answer gives the input; an `err` answer, or one that is
/// malformed, gives a `PerformInputError` exception.
pub fn perform_input(response: &HostValue) -> (r: Result<PerformInput, PerformException>)
    ensures
        input_complete(*response) <==> r is Ok,
        r matches Ok(p) ==> {
            &&& string_in(*response, "profile_url"@) == Some(p.profile_url@)
            &&& string_in(*response, "map_url"@) == Some(p.map_url@)
            &&& string_in(*response, "usecase"@) == Some(p.usecase@)
            &&& field_holds(*response, "map_input"@, p.map_input)
            &&& field_holds(*response, "map_vars"@, p.map_vars)
            &&& field_holds(*response, "map_secrets"@, p.map_secrets)
        },
        r matches Err(e) ==> e.error_code == PerformExceptionErrorCode::PerformInputError,
        r matches Err(e) ==> (kind_is(*response, "err"@) && string_in(*response, "error"@) is Some
            ==> e.message@ == "perform-input error: "@ + string_in(*response, "error"@)->Some_0),
{
    let kind = match string_ref(response, "kind") {
        Some(k) => k,
        None => {
            return input_error(String::from_str("perform-input: answer has no kind"));
        },
    };
    proof {
        reveal_strlit("err");
        reveal_strlit("ok");
    }
    if *kind == String::from_str("err") {
        assert("err"@.len() != "ok"@.len());
        assert(kind@ == "err"@);
        let mut msg = String::from_str("perform-input error: ");
        match string_ref(response, "error") {
            Some(e) => msg.append(e.as_str()),
            None => msg.append("no error message"),
        }
        return input_error(msg);
    }
    if *kind != String::from_str("ok") {
        return input_error(String::from_str("perform-input: unknown answer kind"));
    }
    let profile_url = string_ref(response, "profile_url");
    let map_url = string_ref(response, "map_url");
    let usecase = string_ref(response, "usecase");
    let map_input = field_ref(response, "map_input");
    let map_vars = field_ref(response, "map_vars");
    let map_secrets = field_ref(response, "map_secrets");
    match (profile_url, map_url, usecase, map_input, map_vars, map_secrets) {
        (Some(p), Some(m), Some(u), Some(i), Some(v), Some(s)) => Ok(
            PerformInput {
                profile_url: p.clone(),
                map_url: m.clone(),
                usecase: u.clone(),
                map_input: clone_value(i),
                map_vars: clone_value(v),
                map_secrets: clone_value(s),
            },
        ),
        _ => input_error(String::from_str("perform-input: answer is missing a field")),
    }
}

/// Reads the host's answer to the perform output message.
pub fn perform_output_result(response: &HostValue) -> (r: Result<(), PerformException>)
    ensures
        r is Ok <==> kind_is(*response, "ok"@),
        r matches Err(e) ==> e.error_code == PerformExceptionErrorCode::HostTransportError,
        r matches Err(e) ==> (kind_is(*response, "err"@) && string_in(*response, "error"@) is Some
            ==> e.message@ == "perform-output error: "@ + string_in(*response, "error"@)->Some_0),
{
    proof {
        reveal_strlit("err");
        reveal_strlit("ok");
    }
    let kind = match string_ref(response, "kind") {
        Some(k) => k,
        None => {
            return Err(
                PerformException {
                    error_code: PerformExceptionErrorCode::HostTransportError,
                    message: String::from_str("perform-output: answer has no kind"),
                },
            );
        },
    };
    if *kind == String::from_str("ok") {
        return Ok(());
    }
    let mut msg = String::from_str("perform-output error: ");
    if *kind == String::from_str("err") {
        match string_ref(response, "error") {
            Some(e) => msg.append(e.as_str()),
            None => msg.append("no error message"),
        }
    } else {
        msg.append("unknown answer kind");
    }
    Err(PerformException { error_code: PerformExceptionErrorCode::HostTransportError, message: msg })
}


/// The name of an error code, as the host reads it.
pub open spec fn code_name(c: PerformExceptionErrorCode) -> Seq<char> {
    match c {
        PerformExceptionErrorCode::CoreNotReady => "CoreNotReady"@,
        PerformExceptionErrorCode::PerformInputError => "PerformInputError"@,
        PerformExceptionErrorCode::PrepareSecurityMapError => "PrepareSecurityMapError"@,
        PerformExceptionErrorCode::InvalidSecurityConfiguration => "InvalidSecurityConfiguration"@,
        PerformExceptionErrorCode::MapInterpretationError => "MapInterpretationError"@,
        PerformExceptionErrorCode::HostTransportError => "HostTransportError"@,
        PerformExceptionErrorCode::InputValidationError => "InputValidationError"@,
    }
}

fn code_name_exec(c: PerformExceptionErrorCode) -> (r: String)
    ensures
        r@ == code_name(c),
{
    match c {
        PerformExceptionErrorCode::CoreNotReady => String::from_str("CoreNotReady"),
        PerformExceptionErrorCode::PerformInputError => String::from_str("PerformInputError"),
        PerformExceptionErrorCode::PrepareSecurityMapError => String::from_str(
            "PrepareSecurityMapError",
        ),
        PerformExceptionErrorCode::InvalidSecurityConfiguration => String::from_str(
            "InvalidSecurityConfiguration",
        ),
        PerformExceptionErrorCode::MapInterpretationError => String::from_str(
            "MapInterpretationError",
        ),
        PerformExceptionErrorCode::HostTransportError => String::from_str("HostTransportError"),
        PerformExceptionErrorCode::InputValidationError => String::from_str(
            "InputValidationError",
        ),
    }
}

/// `{"kind": "perform-output-exception", "exception": {"error_code": name, "message": m}}`.
pub open spec fn exception_message(e: PerformException) -> JsonModel {
    object_of(
        Seq::empty().push(("kind"@, JsonModel::Str("perform-output-exception"@))).push(
            (
                "exception"@,
                object_of(
                    Seq::empty().push(("error_code"@, JsonModel::Str(code_name(e.error_code)))).push(
                        ("message"@, JsonModel::Str(e.message@)),
                    ),
                ),
            ),
        ),
    )
}

/// The message that hands a runtime failure of a perform to the host.
pub fn perform_output_exception(e: PerformException) -> (r: HostValue)
    ensures
        r.model() == exception_message(e),
{
    let ghost em = e.message@;
    let mut inner: Vec<(String, HostValue)> = Vec::new();
    inner.push((String::from_str("error_code"), HostValue::String(code_name_exec(e.error_code))));
    inner.push((String::from_str("message"), HostValue::String(e.message)));
    proof {
        lemma_object_model(inner);
        assert(entries_model(inner@) =~= Seq::empty().push(
            ("error_code"@, JsonModel::Str(code_name(e.error_code))),
        ).push(("message"@, JsonModel::Str(em))));
    }
    let inner = HostValue::Object(inner);
    let ghost im = inner.model();
    let mut outer: Vec<(String, HostValue)> = Vec::new();
    outer.push((String::from_str("kind"), string_value("perform-output-exception")));
    outer.push((String::from_str("exception"), inner));
    proof {
        lemma_object_model(outer);
        assert(entries_model(outer@) =~= Seq::empty().push(
            ("kind"@, JsonModel::Str("perform-output-exception"@)),
        ).push(("exception"@, im)));
    }
    HostValue::Object(outer)
}

} // verus!
