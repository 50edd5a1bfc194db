//! HTTP Basic authentication: the credentials a request carries.

use vstd::prelude::*;
use http::{HeaderMap, HeaderValue};
use headers::{authorization::Basic, Authorization, HeaderMapExt};

verus! {

#[verifier::external_type_specification]
#[verifier::external_body]
#[verifier::reject_recursive_types(T)]
pub struct ExHeaderMap<T>(HeaderMap<T>);

#[verifier::external_type_specification]
#[verifier::external_body]
pub struct ExHeaderValue(HeaderValue);

/// Credentials extracted from a Basic `Authorization` header.
pub struct Credentials {
    pub username: String,
    pub password: String,
}

/// Why no credentials could be taken from a request.
#[derive(Debug, Clone, Copy, PartialEq, Eq, Structural)]
pub enum AuthError {
    /// No `Authorization` header is present.
    Missing,
    /// An `Authorization` header is present but invalid.
    Invalid,
}

/// What a header map holds: for each header name, in lower case, its values
/// in the order they were added.
pub uninterp spec fn header_entries(h: HeaderMap) -> Map<Seq<char>, Seq<Seq<u8>>>;

/// The name of the `Authorization` header, in lower case.
pub open spec fn authorization_name() -> Seq<char> {
    seq!['a', 'u', 't', 'h', 'o', 'r', 'i', 'z', 'a', 't', 'i', 'o', 'n']
}

/// The first value of the `Authorization` header, if there is one.
pub open spec fn authorization_value(h: HeaderMap) -> Option<Seq<u8>> {
    let m = header_entries(h);
    if m.contains_key(authorization_name()) && m[authorization_name()].len() > 0 {
        Some(m[authorization_name()][0])
    } else {
        None
    }
}

/// What `headers` decodes from one `Authorization` header value as Basic
/// credentials (`Authorization::<Basic>::decode`): for a value made of the
/// scheme `Basic` (in any letter case), spaces, and base64 text that decodes
/// to UTF-8 holding a `:`, the user name before the first `:` and the
/// password after it; `None` otherwise.
pub uninterp spec fn basic_credentials(value: Seq<u8>) -> Option<(Seq<char>, Seq<char>)>;

/// The Basic credentials a header map carries in its first `Authorization`
/// value.
pub open spec fn spec_basic_auth(h: HeaderMap) -> Option<(Seq<char>, Seq<char>)> {
    match authorization_value(h) {
        Some(v) => basic_credentials(v),
        None => None,
    }
}

/// `headers::HeaderMapExt::typed_get::<Authorization<Basic>>`, giving the
/// user name and password: the first `Authorization` value decoded as Basic
/// credentials, or `None` when there is none or it does not decode.
#[verifier::external_body]
fn typed_get_basic(headers: &HeaderMap) -> (r: Option<(String, String)>)
    ensures
        r is Some ==> header_entries(*headers).contains_key(authorization_name()) && header_entries(
            *headers,
        )[authorization_name()].len() > 0,
        r matches Some((u, p)) ==> basic_credentials(
            header_entries(*headers)[authorization_name()][0],
        ) == Some((u@, p@)),
        r is None ==> !(header_entries(*headers).contains_key(authorization_name()) && header_entries(
            *headers,
        )[authorization_name()].len() > 0) || basic_credentials(
            header_entries(*headers)[authorization_name()][0],
        ) is None,
{
    match headers.typed_get::<Authorization<Basic>>() {
        Some(auth) => Some((auth.username().to_string(), auth.password().to_string())),
        None => None,
    }
}

/// `HeaderMap::contains_key(AUTHORIZATION)`: whether the map holds an
/// `Authorization` header (a name in a header map always has a value).
#[verifier::external_body]
fn has_authorization(headers: &HeaderMap) -> (r: bool)
    ensures
        r == (header_entries(*headers).contains_key(authorization_name()) && header_entries(
            *headers,
        )[authorization_name()].len() > 0),
{
    headers.contains_key(http::header::AUTHORIZATION)
}

/// The credentials of a request's Basic `Authorization` header: `Missing`
/// when there is no such header, `Invalid` when its (first) value is not
/// valid Basic credentials.
pub fn extract_basic_auth(headers: &HeaderMap) -> (r: Result<Credentials, AuthError>)
    ensures
        authorization_value(*headers) is None ==> r matches Err(AuthError::Missing),
        authorization_value(*headers) is Some ==> match spec_basic_auth(*headers) {
            Some((u, p)) => r matches Ok(c) && c.username@ == u && c.password@ == p,
            None => r matches Err(AuthError::Invalid),
        },
{
    if !has_authorization(headers) {
        return Err(AuthError::Missing);
    }
    match typed_get_basic(headers) {
        Some((username, password)) => Ok(Credentials { username, password }),
        None => Err(AuthError::Invalid),
    }
}

} // verus!
