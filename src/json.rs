use vstd::prelude::*;

verus! {

/// The string member `text` of the JSON object that `data` encodes; none
/// where `data` is no object or has no such string member.
pub uninterp spec fn json_text_member(data: Seq<char>) -> Option<Seq<char>>;

/// The JSON text of the object `data` with its member `text` set to the
/// string `text`, all other members kept.
pub uninterp spec fn json_with_text(data: Seq<char>, text: Seq<char>) -> Seq<char>;

/// The string member `status` of the JSON object that `data` encodes.
pub uninterp spec fn json_status_member(data: Seq<char>) -> Option<Seq<char>>;

/// The JSON text of `{"status": status, "result": result, "error": error}`,
/// where `result` and `error` are JSON texts and a missing one is `null`.
pub uninterp spec fn json_status_data(
    status: Seq<char>,
    result: Option<Seq<char>>,
    error: Option<Seq<char>>,
) -> Seq<char>;

/// The JSON text of `{"code": code, "message": message, "details": details}`,
/// where `details` is JSON text and a missing field is left out.
pub uninterp spec fn json_error_object(
    code: Option<Seq<char>>,
    message: Seq<char>,
    details: Option<Seq<char>>,
) -> Seq<char>;

/// Views of an optional string.
pub open spec fn opt_view(s: Option<String>) -> Option<Seq<char>> {
    match s {
        Some(v) => Some(v@),
        None => None,
    }
}

/// Relies on serde_json::from_str, Value::get and Value::as_str: parses
/// `data` and reads its string member `text`.
#[verifier::external_body]
pub(crate) fn text_member(data: &str) -> (r: Option<String>)
    ensures
        opt_view(r) == json_text_member(data@),
{
    let v: serde_json::Value = match serde_json::from_str(data) {
        Ok(v) => v,
        Err(_) => return None,
    };
    v.get("text")?.as_str().map(String::from)
}

/// Relies on serde_json::from_str, Map::insert and Value::to_string: sets
/// the member `text` of the object that `data` encodes.
#[verifier::external_body]
pub(crate) fn with_text_member(data: &str, text: &str) -> (r: String)
    ensures
        r@ == json_with_text(data@, text@),
{
    let mut obj = match serde_json::from_str::<serde_json::Value>(data) {
        Ok(serde_json::Value::Object(m)) => m,
        _ => serde_json::Map::new(),
    };
    obj.insert("text".to_string(), serde_json::Value::String(text.to_string()));
    serde_json::Value::Object(obj).to_string()
}

/// Relies on serde_json::from_str, Value::get and Value::as_str: parses
/// `data` and reads its string member `status`.
#[verifier::external_body]
pub(crate) fn status_member(data: &str) -> (r: Option<String>)
    ensures
        opt_view(r) == json_status_member(data@),
{
    let v: serde_json::Value = match serde_json::from_str(data) {
        Ok(v) => v,
        Err(_) => return None,
    };
    v.get("status")?.as_str().map(String::from)
}

/// Relies on serde_json::from_str, Map::insert and Value::to_string: the
/// data of a status event.
#[verifier::external_body]
pub(crate) fn status_data(status: &str, result: &Option<String>, error: &Option<String>) -> (r: String)
    ensures
        r@ == json_status_data(status@, opt_view(*result), opt_view(*error)),
{
    let result = result.as_deref().map(serde_json::from_str::<serde_json::Value>);
    let error = error.as_deref().map(serde_json::from_str::<serde_json::Value>);
    let mut m = serde_json::Map::new();
    m.insert("status".to_string(), serde_json::Value::String(status.to_string()));
    m.insert("result".to_string(), result.and_then(Result::ok).unwrap_or(serde_json::Value::Null));
    m.insert("error".to_string(), error.and_then(Result::ok).unwrap_or(serde_json::Value::Null));
    serde_json::Value::Object(m).to_string()
}

/// Relies on serde_json::from_str and Map::insert: the JSON text of a task
/// error.
#[verifier::external_body]
pub(crate) fn error_object(code: &Option<String>, message: &str, details: &Option<String>) -> (r: String)
    ensures
        r@ == json_error_object(opt_view(*code), message@, opt_view(*details)),
{
    let mut m = serde_json::Map::new();
    if let Some(c) = code {
        m.insert("code".to_string(), serde_json::Value::String(c.clone()));
    }
    m.insert("message".to_string(), serde_json::Value::String(message.to_string()));
    if let Some(Ok(d)) = details.as_deref().map(serde_json::from_str::<serde_json::Value>) {
        m.insert("details".to_string(), d);
    }
    serde_json::Value::Object(m).to_string()
}

} // verus!
