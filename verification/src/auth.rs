//! The authentication gateway: a bearer token is taken from the request and
//! verified against an external identity service, yielding the owner identity
//! (`suid`) that scopes every repository and attachment operation.
//!
//! The identity service answers with a JSON body of shape `{ "suid": string }`.
//! A `suid` of `"0"` marks a token that is syntactically valid but carries no
//! usable identity; a body that cannot be read that way counts as a failed
//! verification.  Both are rejections, and both map to the same response
//! status.

use vstd::prelude::*;

use crate::document::str_eq;

verus! {

/// The ways authentication can fail.  None of them is retried; all of them
/// are surfaced to the caller as the same rejection status.
#[derive(Clone, Copy, Debug, PartialEq, Eq, Structural)]
pub enum AuthError {
    /// Neither the `token` cookie nor the `token` header is present.
    MissingToken,
    /// The identity service answered, but with the no-identity marker.
    Unauthorized,
    /// The identity service could not be reached, or its answer could not be
    /// read as `{ "suid": string }`.
    VerificationFailed,
}

/// The string found at the given top-level key of a JSON object, when the
/// text parses as one and the key holds a string; a function of the text and
/// the key alone.
pub uninterp spec fn json_string_field(text: Seq<char>, key: Seq<char>) -> Option<Seq<char>>;

/// Relies on `serde_json::from_str`, `serde_json::Value::get` and
/// `serde_json::Value::as_str`: parse the body as JSON and hand back the
/// string at the given top-level key, or nothing when the body is not a JSON
/// object or the key is absent or holds no string.
#[verifier::external_body]
fn parse_string_field(body: &str, key: &str) -> (r: Option<String>)
    ensures
        match r {
            Some(s) => json_string_field(body@, key@) == Some(s@),
            None => json_string_field(body@, key@) is None,
        },
{
    match serde_json::from_str::<serde_json::Value>(body) {
        Ok(v) => match v.get(key) {
            Some(f) => f.as_str().map(|s| s.to_string()),
            None => None,
        },
        Err(_) => None,
    }
}

/// The identity service's answer, as far as this library reads it.
pub struct SuidResponse {
    pub suid: String,
}

/// Read the identity service's response body as `{ "suid": string }`.
pub fn parse_suid_response(body: &str) -> (r: Option<SuidResponse>)
    ensures
        match r {
            Some(resp) => json_string_field(body@, "suid"@) == Some(resp.suid@),
            None => json_string_field(body@, "suid"@) is None,
        },
{
    match parse_string_field(body, "suid") {
        Some(s) => Some(SuidResponse { suid: s }),
        None => None,
    }
}

/// The verification verdict over an already-read response: no readable
/// response is a failed verification, the no-identity marker `"0"` is
/// `Unauthorized`, and any other `suid` is the authenticated owner.
pub fn classify_suid(r: Option<SuidResponse>) -> (res: Result<String, AuthError>)
    ensures
        match r {
            None => res == Err::<String, AuthError>(AuthError::VerificationFailed),
            Some(resp) => if resp.suid@ == "0"@ {
                res == Err::<String, AuthError>(AuthError::Unauthorized)
            } else {
                res == Ok::<String, AuthError>(resp.suid)
            },
        },
{
    match r {
        None => Err(AuthError::VerificationFailed),
        Some(resp) => {
            if str_eq(resp.suid.as_str(), "0") {
                Err(AuthError::Unauthorized)
            } else {
                Ok(resp.suid)
            }
        },
    }
}

/// Turn the identity service's response body into an owner identity or a
/// rejection: a body without a readable `suid` string fails verification, a
/// `suid` of `"0"` is `Unauthorized`, anything else is the owner.
pub fn verify_identity_body(body: &str) -> (res: Result<String, AuthError>)
    ensures
        match json_string_field(body@, "suid"@) {
            None => res == Err::<String, AuthError>(AuthError::VerificationFailed),
            Some(s) => if s == "0"@ {
                res == Err::<String, AuthError>(AuthError::Unauthorized)
            } else {
                res matches Ok(suid) && suid@ == s
            },
        },
{
    classify_suid(parse_suid_response(body))
}

/// Pick the bearer token: the `token` cookie if present, else the `token`
/// header, else the request carries no token at all.
pub fn extract_token(cookie: Option<String>, header: Option<String>) -> (r: Result<
    String,
    AuthError,
>)
    ensures
        match cookie {
            Some(t) => r == Ok::<String, AuthError>(t),
            None => match header {
                Some(t) => r == Ok::<String, AuthError>(t),
                None => r == Err::<String, AuthError>(AuthError::MissingToken),
            },
        },
{
    match cookie {
        Some(t) => Ok(t),
        None => match header {
            Some(t) => Ok(t),
            None => Err(AuthError::MissingToken),
        },
    }
}

/// Every authentication failure — missing token, no-identity marker, failed
/// verification alike — maps to the same 401 rejection status.
pub fn rejection_status(e: AuthError) -> (r: u16)
    ensures
        r == 401,
{
    match e {
        AuthError::MissingToken => 401,
        AuthError::Unauthorized => 401,
        AuthError::VerificationFailed => 401,
    }
}

} // verus!
