//! Request authentication and the headers every response carries.

use vstd::prelude::*;
use vstd::string::*;
use vstd::utf8::*;
use crate::error::LoraDbError;
use std::sync::Arc;
use crate::text::starts_with_seq;
use crate::text::starts_with_str;

verus! {

/// The state of the authentication layer: the service that checks tokens.
pub struct AuthMiddleware<S> {
    pub jwt_service: Arc<S>,
}

impl<S> AuthMiddleware<S> {
    pub fn new(jwt_service: Arc<S>) -> (r: AuthMiddleware<S>)
        ensures
            r.jwt_service == jwt_service,
    {
        AuthMiddleware { jwt_service }
    }
}

pub const UNAUTHORIZED: u16 = 401;

/// The token an `Authorization` header carries: what follows `Bearer `.
/// A missing header (or one that is not visible ASCII), or one in another
/// scheme, is refused with status 401.
pub fn jwt_auth(authorization: Option<&str>) -> (r: Result<&str, u16>)
    ensures
        match authorization {
            None => r == Err::<&str, u16>(UNAUTHORIZED),
            Some(h) => if starts_with_seq(h@, "Bearer "@) {
                r matches Ok(t) && t@ == h@.skip(7)
            } else {
                r == Err::<&str, u16>(UNAUTHORIZED)
            },
        },
{
    match authorization {
        None => Err(UNAUTHORIZED),
        Some(h) => {
            let prefix = "Bearer ";
            proof {
                reveal_strlit("Bearer ");
            }
            if !starts_with_str(h, prefix) {
                return Err(UNAUTHORIZED);
            }
            let n = h.unicode_len();
            Ok(h.substring_char(7, n))
        },
    }
}

/// The fewest bytes a token-signing secret may have.
pub const MIN_JWT_SECRET_BYTES: usize = 32;

/// Accepts a secret for signing and checking tokens when its UTF-8 form
/// has at least 32 bytes; a shorter one is a configuration error.
pub fn check_jwt_secret(secret: &str) -> (r: Result<(), LoraDbError>)
    ensures
        encode_utf8(secret@).len() >= MIN_JWT_SECRET_BYTES ==> r is Ok,
        encode_utf8(secret@).len() < MIN_JWT_SECRET_BYTES ==> (r matches Err(LoraDbError::ConfigError(m))
            && m@ == "JWT secret must be at least 32 characters"@),
{
    let n = secret.as_bytes().len();
    assert(n == encode_utf8(secret@).len());
    if n < MIN_JWT_SECRET_BYTES {
        Err(LoraDbError::ConfigError(String::from_str("JWT secret must be at least 32 characters")))
    } else {
        Ok(())
    }
}

/// A header's name and value.
pub struct Header {
    pub name: &'static str,
    pub value: &'static str,
}

pub open spec fn header_is(h: Header, name: Seq<char>, value: Seq<char>) -> bool {
    h.name@ == name && h.value@ == value
}

/// The headers set on every response: HSTS for a year with subdomains, a
/// same-origin content security policy that forbids framing, no framing,
/// no MIME sniffing, the XSS filter in block mode, and no referrer.
pub fn security_headers() -> (r: Vec<Header>)
    ensures
        r@.len() == 6,
        header_is(r@[0], "strict-transport-security"@, "max-age=31536000; includeSubDomains"@),
        header_is(r@[1], "content-security-policy"@, "default-src 'self'; frame-ancestors 'none'"@),
        header_is(r@[2], "x-frame-options"@, "DENY"@),
        header_is(r@[3], "x-content-type-options"@, "nosniff"@),
        header_is(r@[4], "x-xss-protection"@, "1; mode=block"@),
        header_is(r@[5], "referrer-policy"@, "no-referrer"@),
{
    let mut r: Vec<Header> = Vec::new();
    r.push(Header { name: "strict-transport-security", value: "max-age=31536000; includeSubDomains" });
    r.push(Header { name: "content-security-policy", value: "default-src 'self'; frame-ancestors 'none'" });
    r.push(Header { name: "x-frame-options", value: "DENY" });
    r.push(Header { name: "x-content-type-options", value: "nosniff" });
    r.push(Header { name: "x-xss-protection", value: "1; mode=block" });
    r.push(Header { name: "referrer-policy", value: "no-referrer" });
    r
}

/// The permissive CORS headers: any origin, `GET, POST, OPTIONS`, and the
/// `Content-Type` and `Authorization` request headers.
pub fn cors_headers() -> (r: Vec<Header>)
    ensures
        r@.len() == 3,
        header_is(r@[0], "access-control-allow-origin"@, "*"@),
        header_is(r@[1], "access-control-allow-methods"@, "GET, POST, OPTIONS"@),
        header_is(r@[2], "access-control-allow-headers"@, "Content-Type, Authorization"@),
{
    let mut r: Vec<Header> = Vec::new();
    r.push(Header { name: "access-control-allow-origin", value: "*" });
    r.push(Header { name: "access-control-allow-methods", value: "GET, POST, OPTIONS" });
    r.push(Header { name: "access-control-allow-headers", value: "Content-Type, Authorization" });
    r
}

/// A well-formed bearer header yields exactly its token.
pub proof fn lemma_bearer_token(token: Seq<char>)
    ensures
        starts_with_seq("Bearer "@ + token, "Bearer "@),
        ("Bearer "@ + token).skip(7) == token,
{
    reveal_strlit("Bearer ");
    assert(("Bearer "@ + token).subrange(0, 7) =~= "Bearer "@);
    assert(("Bearer "@ + token).skip(7) =~= token);
}

} // verus!
