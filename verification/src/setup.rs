//! The computing side of fetching the model's API key: the authorization
//! header sent and the key read from the reply.
use vstd::prelude::*;

verus! {

/// Why a reply holds no API key.
#[derive(Clone, Copy, Debug, PartialEq, Eq, Structural)]
pub enum ApiKeyError {
    /// The reply is not JSON.
    InvalidJson,
    /// The reply has no string member `api_key`.
    MissingKey,
}

/// What the `serde_json` crate reads of member `key` in the JSON text
/// `body`: `None` when `body` is not JSON, `Some(None)` when it has no
/// string member `key`, else `Some(Some(value))`.
pub uninterp spec fn json_string_member(body: Seq<u8>, key: Seq<char>) -> Option<Option<Seq<char>>>;

/// Member `key` of the JSON text `body` as a string:
/// `serde_json::from_slice::<serde_json::Value>(body)`, indexed by `key`
/// (which gives `Null` for a missing key or a body that is not an object),
/// then `as_str`.
///
/// Trusted: the result is [`json_string_member`] of the body and the key;
/// what JSON `serde_json` accepts is left to the name.
#[verifier::external_body]
fn json_member_str(body: &[u8], key: &str) -> (r: Option<Option<String>>)
    ensures
        match r {
            None => json_string_member(body@, key@) is None,
            Some(None) => json_string_member(body@, key@) == Some(None::<Seq<char>>),
            Some(Some(s)) => json_string_member(body@, key@) == Some(Some(s@)),
        },
{
    match serde_json::from_slice::<serde_json::Value>(body) {
        Ok(value) => Some(value[key].as_str().map(|s| s.to_string())),
        Err(_) => None,
    }
}

/// The API key in the reply of the key service: its string member `api_key`.
pub fn parse_api_key(body: &[u8]) -> (r: Result<String, ApiKeyError>)
    ensures
        match json_string_member(body@, "api_key"@) {
            None => r == Err::<String, ApiKeyError>(ApiKeyError::InvalidJson),
            Some(None) => r == Err::<String, ApiKeyError>(ApiKeyError::MissingKey),
            Some(Some(key)) => r matches Ok(s) && s@ == key,
        },
{
    match json_member_str(body, "api_key") {
        None => Err(ApiKeyError::InvalidJson),
        Some(None) => Err(ApiKeyError::MissingKey),
        Some(Some(key)) => Ok(key),
    }
}

/// The value of the `Authorization` header for a bearer token.
pub fn bearer_auth_value(token: &str) -> (r: String)
    ensures
        r@ == "Bearer "@ + token@,
{
    let mut value = String::from_str("Bearer ");
    value.append(token);
    value
}

} // verus!
