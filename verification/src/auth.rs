//! The authentication of a command request: a JWT signed with HS256 under
//! the configured key, carried in the `x-openinbrowser-auth` header.

use vstd::prelude::*;
use crate::error::{app_error_message, AppError};

verus! {

/// Name of the request header that carries the token.
pub const AUTH_HEADER: &'static str = "x-openinbrowser-auth";

/// Seconds of grace allowed when the token's expiry is checked.
pub const JWT_LEEWAY_SECONDS: u64 = 1;

/// What `jsonwebtoken::decode` finds in `token` under the HS256 secret
/// `key` before it looks at the clock: `Some(exp)` when the token is a
/// compact JWT whose header decodes and names HS256, whose HMAC-SHA256
/// signature verifies under `key`, and whose payload is a JSON object that
/// decodes both as a JSON value and as the claims the decoder validates,
/// with a numeric `exp` claim `exp`; `None` otherwise.
pub uninterp spec fn hs256_token_exp(token: Seq<char>, key: Seq<char>) -> Option<u64>;

/// Calls `jsonwebtoken::decode` with `Validation::new(HS256)` (which checks
/// the signature, requires an `exp` claim and checks expiry) and the given
/// leeway, under the secret `key`, and turns its error into the error's
/// message.
///
/// Claimed: an accepted token carries a valid HS256 signature under `key`
/// and an `exp` claim; a token without a `.` is refused as "InvalidToken";
/// and a token with a valid signature and an `exp` claim (as
/// `hs256_token_exp` describes it) is refused, if at all, only as
/// "ExpiredSignature" (its expiry, against the clock) or "InvalidAudience"
/// (it carries an `aud` claim, while no audience is configured).
/// Left unsaid: whether a signed token with an `exp` claim is accepted,
/// which depends on the current time. The decoder computes the current Unix
/// time minus the leeway, so only the service's one second of leeway is
/// admitted; it also panics if the system clock reads before 1970.
#[verifier::external_body]
fn decode_hs256(token: &str, key: &str, leeway: u64) -> (r: Result<(), String>)
    requires
        leeway == JWT_LEEWAY_SECONDS,
    ensures
        r is Ok ==> hs256_token_exp(token@, key@) is Some,
        hs256_token_exp(token@, key@) is Some ==> match r {
            Ok(()) => true,
            Err(m) => m@ != "InvalidToken"@ && m@ != "InvalidSignature"@ && m@
                != "InvalidAlgorithm"@,
        },
        hs256_token_exp(token@, key@) is Some ==> match r {
            Ok(()) => true,
            Err(m) => m@ == "ExpiredSignature"@ || m@ == "InvalidAudience"@,
        },
        !token@.contains('.') ==> match r {
            Ok(()) => false,
            Err(m) => m@ == "InvalidToken"@,
        },
{
    let mut validation = jsonwebtoken::Validation::new(jsonwebtoken::Algorithm::HS256);
    validation.leeway = leeway;
    let secret = jsonwebtoken::DecodingKey::from_secret(key.as_bytes());
    match jsonwebtoken::decode::<serde_json::Value>(token, &secret, &validation) {
        Ok(_) => Ok(()),
        Err(e) => Err(e.to_string()),
    }
}

/// A decoder outcome, as plain values.
pub open spec fn decoded_view(d: Result<(), String>) -> Result<(), Seq<char>> {
    match d {
        Ok(()) => Ok(()),
        Err(m) => Err(m@),
    }
}

/// What the decoder may answer for `token` under `key`, whatever the clock
/// reads: acceptance only for a signed token with an expiry; for such a
/// token, refusal only for its expiry or an audience claim; and refusal as
/// "InvalidToken" for a token without a `.`.
pub open spec fn decoder_outcome_possible(
    token: Seq<char>,
    key: Seq<char>,
    d: Result<(), Seq<char>>,
) -> bool {
    &&& d is Ok ==> hs256_token_exp(token, key) is Some
    &&& hs256_token_exp(token, key) is Some ==> match d {
        Ok(()) => true,
        Err(m) => m == "ExpiredSignature"@ || m == "InvalidAudience"@,
    }
    &&& !token.contains('.') ==> d == Err::<(), Seq<char>>("InvalidToken"@)
}

/// The answer of the service to a decoder outcome: the same verdict, with a
/// refusal's message behind "Invalid JWT authentication: ".
pub open spec fn auth_outcome(d: Result<(), Seq<char>>) -> Result<(), Seq<char>> {
    match d {
        Ok(()) => Ok(()),
        Err(m) => Err("Invalid JWT authentication: "@ + m),
    }
}

/// The service accepts exactly what the decoder accepts, and different
/// decoder outcomes always lead to different answers.
pub proof fn law_auth_keeps_decoder_verdict(d1: Result<(), Seq<char>>, d2: Result<(), Seq<char>>)
    ensures
        auth_outcome(d1) is Ok <==> d1 is Ok,
        auth_outcome(d1) == auth_outcome(d2) ==> (d1 is Ok <==> d2 is Ok) && (d1 is Err
            ==> d1->Err_0 == d2->Err_0),
{
    if auth_outcome(d1) == auth_outcome(d2) {
        if d1 is Err && d2 is Err {
            let p = "Invalid JWT authentication: "@;
            let a = d1->Err_0;
            let b = d2->Err_0;
            assert(p + a == p + b);
            lemma_prefix_cancels(p, a, b);
        }
    }
}

/// A token signed with the key under HS256 and carrying an expiry is, for
/// whatever the decoder answers, either accepted or refused for its expiry
/// or an audience claim, never for anything about the key or its form.
pub proof fn law_signed_token_refused_only_for_expiry_or_audience(
    token: Seq<char>,
    key: Seq<char>,
    d: Result<(), Seq<char>>,
)
    requires
        decoder_outcome_possible(token, key, d),
        hs256_token_exp(token, key) is Some,
    ensures
        match auth_outcome(d) {
            Ok(()) => true,
            Err(m) => m == "Invalid JWT authentication: "@ + "ExpiredSignature"@ || m
                == "Invalid JWT authentication: "@ + "InvalidAudience"@,
        },
{
}

/// The answer to a decoded token: accepted, or refused with the decoder's
/// message behind "Invalid JWT authentication: ".
pub fn auth_result(decoded: Result<(), String>) -> (r: Result<(), String>)
    ensures
        match decoded {
            Ok(()) => r is Ok,
            Err(e) => match r {
                Ok(()) => false,
                Err(m) => m@ == app_error_message(AppError::AuthJwtInvalid(e)),
            },
        },
{
    match decoded {
        Ok(()) => Ok(()),
        Err(e) => Err(AppError::AuthJwtInvalid(e).message()),
    }
}

/// Equal strings with a common prefix are equal after it.
proof fn lemma_prefix_cancels(p: Seq<char>, a: Seq<char>, b: Seq<char>)
    ensures
        p + a == p + b ==> a == b,
{
    if p + a == p + b {
        assert((p + a).skip(p.len() as int) =~= a);
        assert((p + b).skip(p.len() as int) =~= b);
    }
}

/// Checks the token of a request (`None` when the header is missing or not
/// readable as text) against the signing secret `key`: the token must be an
/// HS256 JWT signed with `key` and, with one second of leeway, not expired.
/// The expiry test depends on the clock; everything else is stated.
pub fn verify_auth(token: Option<&str>, key: &str) -> (r: Result<(), String>)
    ensures
        token is None ==> match r {
            Ok(()) => false,
            Err(m) => m@ == app_error_message(AppError::AuthMissingHeader),
        },
        token is Some ==> match r {
            Ok(()) => true,
            Err(m) => exists|d: Seq<char>| m@ == "Invalid JWT authentication: "@ + d,
        },
        // only a token signed with `key` under HS256 and carrying an expiry
        // is accepted
        r is Ok ==> (token matches Some(t) && hs256_token_exp(t@, key@) is Some),
        // such a token, as given, is never refused for its form or signature
        token matches Some(t) && hs256_token_exp(t@, key@) is Some ==> match r {
            Ok(()) => true,
            Err(m) => m@ != "Invalid JWT authentication: "@ + "InvalidToken"@ && m@
                != "Invalid JWT authentication: "@ + "InvalidSignature"@ && m@
                != "Invalid JWT authentication: "@ + "InvalidAlgorithm"@,
        },
        token matches Some(t) && !t@.contains('.') ==> match r {
            Ok(()) => false,
            Err(m) => m@ == "Invalid JWT authentication: "@ + "InvalidToken"@,
        },
        // the answer is the decoder's verdict on the token as given, under
        // `key`, passed through `auth_outcome`
        token matches Some(t) ==> exists|d: Result<(), Seq<char>>|
            decoder_outcome_possible(t@, key@, d) && decoded_view(r) == auth_outcome(d),
        // a token signed with `key` is refused only for its expiry or an
        // audience claim
        token matches Some(t) && hs256_token_exp(t@, key@) is Some ==> match r {
            Ok(()) => true,
            Err(m) => m@ == "Invalid JWT authentication: "@ + "ExpiredSignature"@ || m@
                == "Invalid JWT authentication: "@ + "InvalidAudience"@,
        },
{
    match token {
        None => Err(AppError::AuthMissingHeader.message()),
        Some(t) => {
            let decoded = decode_hs256(t, key, JWT_LEEWAY_SECONDS);
            let ghost d = decoded;
            let r = auth_result(decoded);
            proof {
                assert(decoder_outcome_possible(t@, key@, decoded_view(d)));
                assert(decoded_view(r) == auth_outcome(decoded_view(d)));
                if let Err(e) = d {
                    let p = "Invalid JWT authentication: "@;
                    assert(app_error_message(AppError::AuthJwtInvalid(e)) == p + e@);
                    lemma_prefix_cancels(p, e@, "InvalidToken"@);
                    lemma_prefix_cancels(p, e@, "InvalidSignature"@);
                    lemma_prefix_cancels(p, e@, "InvalidAlgorithm"@);
                }
            }
            r
        },
    }
}

} // verus!
