//! The shared-secret check in front of mutating routes.
//!
//! A token arrives as `Authorization: Bearer <token>` or, failing that, as
//! `X-Axon-Token: <token>`, and is compared in constant time against the
//! configured secret. With no secret configured, mutating routes are closed
//! rather than open.

use vstd::prelude::*;
use crate::text::{starts_with, starts_with_exec, slice, to_chars, to_string};

verus! {

/// Compare two byte strings without an early exit on the first difference,
/// so the time taken does not leak the length of a matching prefix.
pub fn constant_time_eq(a: &[u8], b: &[u8]) -> (r: bool)
    ensures
        r == (a@ == b@),
{
    if a.len() != b.len() {
        return false;
    }
    let mut acc: u8 = 0;
    let mut i: usize = 0;
    while i < a.len()
        invariant
            a@.len() == b@.len(),
            i <= a@.len(),
            acc == 0 <==> forall|j: int| 0 <= j < i ==> a@[j] == b@[j],
        decreases a.len() - i,
    {
        let x = a[i];
        let y = b[i];
        assert((acc | (x ^ y)) == 0 <==> (acc == 0 && x == y)) by (bit_vector);
        acc = acc | (x ^ y);
        i += 1;
    }
    assert(acc == 0 ==> a@ =~= b@);
    acc == 0
}

/// What the check does with one request.
#[derive(Debug, Clone, Copy, PartialEq, Eq, Structural)]
pub enum AuthOutcome {
    /// The token matches: the request reaches its handler.
    Pass,
    /// No secret is configured: mutating routes are disabled.
    Forbidden,
    /// The token is missing or wrong.
    Unauthorized,
}

/// The token a request carries: the `Authorization` value after `Bearer `,
/// or else the `X-Axon-Token` value.
pub open spec fn presented(authorization: Option<Seq<char>>, axon_token: Option<Seq<char>>) -> Option<Seq<char>> {
    match authorization {
        Some(v) => if starts_with(v, "Bearer "@) {
            Some(v.skip(7))
        } else {
            axon_token
        },
        None => axon_token,
    }
}

pub open spec fn opt_seq(o: Option<&str>) -> Option<Seq<char>> {
    match o {
        Some(s) => Some(s@),
        None => None,
    }
}

/// The decision for one request, from the configured secret and the two headers (as
/// text, `None` when absent or not valid text).
pub open spec fn admission(secret: Option<Seq<char>>, authorization: Option<Seq<char>>, axon_token: Option<Seq<char>>) -> AuthOutcome {
    match secret {
        None => AuthOutcome::Forbidden,
        Some(s) => if s.len() == 0 {
            AuthOutcome::Forbidden
        } else {
            match presented(authorization, axon_token) {
                Some(t) => if t == s {
                    AuthOutcome::Pass
                } else {
                    AuthOutcome::Unauthorized
                },
                None => AuthOutcome::Unauthorized,
            }
        },
    }
}

fn str_bytes_eq(a: &str, b: &str) -> (r: bool)
    ensures
        r == (a@ == b@),
{
    let x = a.as_bytes();
    let y = b.as_bytes();
    let r = constant_time_eq(x, y);
    proof {
        vstd::utf8::encode_utf8_decode_utf8(a@);
        vstd::utf8::encode_utf8_decode_utf8(b@);
    }
    r
}

/// Decide one request.
pub fn authorize(secret: Option<&str>, authorization: Option<&str>, axon_token: Option<&str>) -> (r: AuthOutcome)
    ensures
        r == admission(opt_seq(secret), opt_seq(authorization), opt_seq(axon_token)),
{
    let expected = match secret {
        None => return AuthOutcome::Forbidden,
        Some(s) => s,
    };
    if to_chars(expected).len() == 0 {
        return AuthOutcome::Forbidden;
    }
    let bearer: Option<String> = match authorization {
        Some(v) => {
            let c = to_chars(v);
            if starts_with_exec(&c, &to_chars("Bearer ")) {
                proof {
                    reveal_strlit("Bearer ");
                }
                Some(to_string(&slice(&c, 7, c.len())))
            } else {
                None
            }
        },
        None => None,
    };
    let matched = match &bearer {
        Some(t) => str_bytes_eq(t.as_str(), expected),
        None => match axon_token {
            Some(t) => str_bytes_eq(t, expected),
            None => return AuthOutcome::Unauthorized,
        },
    };
    if matched {
        AuthOutcome::Pass
    } else {
        AuthOutcome::Unauthorized
    }
}

/// A request passes exactly when a secret is configured and the presented
/// token is that secret.
pub proof fn only_the_secret_passes(
    secret: Option<Seq<char>>,
    authorization: Option<Seq<char>>,
    axon_token: Option<Seq<char>>,
)
    ensures
        admission(secret, authorization, axon_token) == AuthOutcome::Pass <==> (secret matches Some(s)
            && s.len() > 0 && presented(authorization, axon_token) == Some(s)),
        secret is None ==> admission(secret, authorization, axon_token) == AuthOutcome::Forbidden,
{
}

} // verus!
