//! Turning an admin's second factor on and off: which requests are
//! refused, and what a setup answers.
use vstd::prelude::*;
use crate::error::{ApiError, is_error};
use crate::totp::{code_matches, provisioning_uri, provisioning_uri_spec, secret_bytes, verify_code};

verus! {

/// The check before a change of the second factor: the stored secret must
/// exist (400 with `missing`), and the code must match it now, one step of
/// drift allowed (400 otherwise).
pub open spec fn change_allowed(secret: Option<String>, code: Seq<char>) -> bool {
    secret matches Some(s) && exists|step: u64| code_matches(secret_bytes(s@), code, 1, step)
}

fn check_change(secret: Option<String>, code: &str, missing: &str) -> (r: Result<(), ApiError>)
    ensures
        secret is None ==> (r matches Err(e) && is_error(e, 400, missing@)),
        secret is Some ==> match r {
            Ok(_) => change_allowed(secret, code@),
            Err(e) => is_error(e, 400, "The authentication code is invalid or expired"@),
        },
{
    match secret {
        None => Err(ApiError::new(400, missing)),
        Some(s) => {
            if matches!(verify_code(s.as_str(), code, 1), Some(true)) {
                Ok(())
            } else {
                Err(ApiError::new(400, "The authentication code is invalid or expired"))
            }
        },
    }
}

/// Enabling needs the secret a setup stored and a current code.
pub fn enable_check(secret: Option<String>, code: &str) -> (r: Result<(), ApiError>)
    ensures
        secret is None ==> (r matches Err(e) && is_error(e, 400, "Run setup first to generate a secret"@)),
        secret is Some ==> match r {
            Ok(_) => change_allowed(secret, code@),
            Err(e) => is_error(e, 400, "The authentication code is invalid or expired"@),
        },
{
    check_change(secret, code, "Run setup first to generate a secret")
}

/// Disabling needs an enabled secret and a current code.
pub fn disable_check(secret: Option<String>, code: &str) -> (r: Result<(), ApiError>)
    ensures
        secret is None ==> (r matches Err(e) && is_error(e, 400, "Two-factor authentication is not enabled"@)),
        secret is Some ==> match r {
            Ok(_) => change_allowed(secret, code@),
            Err(e) => is_error(e, 400, "The authentication code is invalid or expired"@),
        },
{
    check_change(secret, code, "Two-factor authentication is not enabled")
}

/// What a setup answers: the stored secret and its flag where one exists,
/// else the fresh secret (to be stored, not yet enabled); with the URI an
/// authenticator app reads, issued by `FPanel`.  The last value says
/// whether the fresh secret is to be stored.
pub fn setup_answer(existing: Option<(String, i64)>, fresh: String, username: &str) -> (r: (String, String, bool, bool))
    ensures
        match existing {
            Some((s, en)) => r.0 == s && r.2 == (en != 0) && !r.3,
            None => r.0 == fresh && !r.2 && r.3,
        },
        r.1@ == provisioning_uri_spec(r.0@, username@, "FPanel"@),
{
    let (secret, enabled, store) = match existing {
        Some((s, en)) => (s, en != 0, false),
        None => (fresh, false, true),
    };
    let uri = provisioning_uri(secret.as_str(), username, "FPanel");
    (secret, uri, enabled, store)
}

/// The status a client is shown: enabled when a row says so.
pub fn enabled_status(count: i64) -> (b: bool)
    ensures
        b == (count != 0),
{
    count != 0
}

} // verus!
