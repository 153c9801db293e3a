use vstd::prelude::*;
use vstd::string::StrSliceExecFns;

use crate::text::{is_prefix_of, starts_with};

verus! {

pub open spec fn bearer_prefix() -> Seq<char> {
    seq!['B', 'e', 'a', 'r', 'e', 'r', ' ']
}

/// The token of an `Authorization` header value of the form "Bearer <token>".
pub open spec fn bearer_of(header: Seq<char>) -> Option<Seq<char>> {
    if is_prefix_of(bearer_prefix(), header) {
        Some(header.subrange(7, header.len() as int))
    } else {
        None
    }
}

/// Computes `bearer_of`.
pub fn bearer_token(header: &str) -> (r: Option<&str>)
    ensures
        r matches Some(t) ==> bearer_of(header@) == Some(t@),
        r is None ==> bearer_of(header@) is None,
{
    proof {
        reveal_strlit("Bearer ");
        assert("Bearer "@ =~= bearer_prefix());
    }
    if starts_with(header, "Bearer ") {
        let n = header.unicode_len();
        Some(header.substring_char(7, n))
    } else {
        None
    }
}

/// Relies on `jsonwebtoken::decode` with an HMAC key made from `secret` and the
/// default validation (HS256 signature, unexpired `exp` claim): whether it accepts
/// `token`. Expiry is checked against the clock, so nothing is promised here.
#[verifier::external_body]
fn token_accepted(token: &str, secret: &str) -> bool {
    let key = jsonwebtoken::DecodingKey::from_secret(secret.as_bytes());
    let validation = jsonwebtoken::Validation::default();
    jsonwebtoken::decode::<serde_json::Value>(token, &key, &validation).is_ok()
}

/// Whether a request with `Authorization` header value `header` (if it has one) may
/// pass: only a "Bearer" header whose token checks out against `secret` does.
pub fn is_authorized(header: Option<&str>, secret: &str) -> (r: bool)
    ensures
        r ==> (header matches Some(h) && bearer_of(h@) is Some),
{
    match header {
        None => false,
        Some(h) => match bearer_token(h) {
            None => false,
            Some(t) => token_accepted(t, secret),
        },
    }
}

} // verus!
