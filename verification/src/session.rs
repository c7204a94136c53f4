//! Sessions and logins: where a request names its session in the URL, which
//! bearer token it carries, whether the token's claims admit it to the
//! resource, and the steps of an admin or client login with its rate limit
//! and second factor.
use vstd::prelude::*;
use crate::error::{ApiError, is_error};
use crate::login_guard::{LoginGuard, record_next, clear_next};
use crate::text::{
    chars_of, chars_eq, split_char, split_on, string_of, slice_vec, starts_with, trim, trim_str,
    vec_starts_with, utf8_len, utf8_len_at_least,
};
use crate::totp::{code_matches, secret_bytes, verify_code_at};

verus! {

// ================================================================ values

/// The claims a session token carries.
pub struct Claims {
    pub sub: i64,
    pub username: String,
    pub role: String,
    pub sess: String,
    pub exp: usize,
}

/// An admin user as the API shows it.
pub struct User {
    pub id: i64,
    pub username: String,
    pub role: String,
}

/// An admin login request.
pub struct LoginReq {
    pub username: String,
    pub password: String,
    pub totp: Option<String>,
}

/// The first-admin registration request.
pub struct RegisterReq {
    pub username: String,
    pub password: String,
}

/// A successful admin login or registration.
pub struct AuthRes {
    pub token: String,
    pub sess: String,
    pub user: User,
}

/// A hosting account as its owner sees it.
pub struct ClientAccount {
    pub id: i64,
    pub username: String,
    pub email: String,
    pub package_id: i64,
    pub status: String,
    pub name: Option<String>,
}

/// A successful client login.
pub struct ClientLoginRes {
    pub token: String,
    pub sess: String,
    pub account: ClientAccount,
}

/// A client login request.
pub struct ClientLoginReq {
    pub username: String,
    pub password: String,
}

/// The limits of an account's package.
pub struct PackageRow {
    pub name: String,
    pub disk_limit_mb: i64,
    pub mailbox_limit: i64,
    pub database_limit: i64,
    pub domain_limit: i64,
    pub bandwidth_limit_gb: i64,
}

/// What an account uses.
pub struct Usage {
    pub disk_used_mb: i64,
    pub domain_used: i64,
    pub subdomain_used: i64,
    pub database_used: i64,
    pub mailbox_used: i64,
}

/// The client dashboard.
pub struct ClientSummary {
    pub account: ClientAccount,
    pub package: PackageRow,
    pub usage: Usage,
    pub primary_domain: Option<String>,
}

pub open spec fn opt_view(o: Option<String>) -> Option<Seq<char>> {
    match o {
        Some(s) => Some(s@),
        None => None,
    }
}

// ================================================================ the URL

/// The session named in a path's segments: the segment after the first
/// segment `s`; none where no segment is `s`, or where that `s` is the last.
pub open spec fn sess_of(segs: Seq<Seq<char>>) -> Option<Seq<char>>
    decreases segs.len(),
{
    if segs.len() == 0 {
        None
    } else if segs[0] == seq!['s'] {
        if segs.len() > 1 {
            Some(segs[1])
        } else {
            None
        }
    } else {
        sess_of(segs.drop_first())
    }
}

/// The session id of a URL path of the form `.../s/<sess>/...`.
pub fn extract_sess(path: &str) -> (r: Option<String>)
    ensures
        opt_view(r) == sess_of(split_char(path@, '/')),
{
    let segs = split_on(&chars_of(path), '/');
    let ghost all = split_char(path@, '/');
    let mut i: usize = 0;
    assert(all.skip(0) =~= all);
    while i < segs.len()
        invariant
            i <= segs@.len() == all.len(),
            forall|k: int| 0 <= k < segs@.len() ==> (#[trigger] segs@[k])@ == all[k],
            all == split_char(path@, '/'),
            sess_of(all) == sess_of(all.skip(i as int)),
        decreases segs.len() - i,
    {
        let ghost rest = all.skip(i as int);
        assert(rest[0] == all[i as int]);
        if segs[i].len() == 1 && segs[i][0] == 's' {
            assert(segs@[i as int]@ =~= seq!['s']);
            if i + 1 < segs.len() {
                assert(rest[1] == all[i + 1]);
                return Some(string_of(&segs[i + 1]));
            }
            return None;
        }
        assert(segs@[i as int]@ != seq!['s']) by {
            if segs@[i as int]@ == seq!['s'] {
                assert(segs@[i as int]@.len() == 1);
            }
        }
        assert(rest.drop_first() =~= all.skip(i + 1));
        i += 1;
    }
    None
}

/// The non-empty segments, in order.
pub open spec fn non_empty_segs(segs: Seq<Seq<char>>) -> Seq<Seq<char>>
    decreases segs.len(),
{
    if segs.len() == 0 {
        Seq::empty()
    } else if segs.last().len() > 0 {
        non_empty_segs(segs.drop_last()).push(segs.last())
    } else {
        non_empty_segs(segs.drop_last())
    }
}

/// The resource a path addresses: its third non-empty segment (after
/// `api` and `s/<sess>`), or the empty string.
pub open spec fn resource_of(path: Seq<char>) -> Seq<char> {
    let segs = non_empty_segs(split_char(path, '/'));
    if segs.len() > 2 {
        segs[2]
    } else {
        Seq::empty()
    }
}

pub fn path_resource(path: &str) -> (r: Vec<char>)
    ensures
        r@ == resource_of(path@),
{
    let segs = split_on(&chars_of(path), '/');
    let ghost all = split_char(path@, '/');
    let mut kept: Vec<Vec<char>> = Vec::new();
    let mut i: usize = 0;
    while i < segs.len()
        invariant
            i <= segs@.len() == all.len(),
            forall|k: int| 0 <= k < segs@.len() ==> (#[trigger] segs@[k])@ == all[k],
            kept@.len() == non_empty_segs(all.take(i as int)).len(),
            forall|k: int| 0 <= k < kept@.len() ==> (#[trigger] kept@[k])@ == non_empty_segs(all.take(i as int))[k],
        decreases segs.len() - i,
    {
        assert(all.take(i + 1).drop_last() =~= all.take(i as int));
        if segs[i].len() > 0 {
            kept.push(slice_vec(&segs[i], 0, segs[i].len()));
            assert(segs@[i as int]@.subrange(0, segs@[i as int]@.len() as int) =~= segs@[i as int]@);
        }
        i += 1;
    }
    assert(all.take(segs.len() as int) =~= all);
    if kept.len() > 2 {
        slice_vec(&kept[2], 0, kept[2].len())
    } else {
        Vec::new()
    }
}

// ================================================================ the token

/// The token of an `Authorization` header value: what follows `Bearer `.
pub open spec fn bearer_of(authorization: Option<Seq<char>>) -> Option<Seq<char>> {
    match authorization {
        Some(v) => if starts_with(v, "Bearer "@) {
            Some(v.skip(7))
        } else {
            None
        },
        None => None,
    }
}

pub open spec fn opt_str_view(o: Option<&str>) -> Option<Seq<char>> {
    match o {
        Some(s) => Some(s@),
        None => None,
    }
}

/// The bearer token of a request, given its `Authorization` header as text
/// (`None` where the header is missing or is not visible ASCII); 401 where
/// there is none.
pub fn extract_bearer(authorization: Option<&str>) -> (r: Result<String, ApiError>)
    ensures
        match bearer_of(opt_str_view(authorization)) {
            Some(t) => r matches Ok(s) && s@ == t,
            None => r matches Err(e) && is_error(e, 401, "Token not found"@),
        },
{
    let prefix = chars_of("Bearer ");
    proof {
        reveal_strlit("Bearer ");
    }
    match authorization {
        Some(v) => {
            let cs = chars_of(v);
            if vec_starts_with(&cs, &prefix) {
                let t = slice_vec(&cs, 7, cs.len());
                assert(t@ =~= v@.skip(7));
                Ok(string_of(&t))
            } else {
                Err(ApiError::new(401, "Token not found"))
            }
        },
        None => Err(ApiError::new(401, "Token not found")),
    }
}

// ================================================================ the guard

/// The first decision of the session guard on a request.
pub enum GuardStep {
    /// The path names no session: the request goes on unchecked.
    Pass,
    /// The token must be verified, and its session compared with the URL's.
    Verify { token: String, url_sess: String },
}

/// Paths without a session pass; a path with one needs a bearer token
/// (401 without), which is then to be verified.
pub fn guard_begin(path: &str, authorization: Option<&str>) -> (r: Result<GuardStep, ApiError>)
    ensures
        match sess_of(split_char(path@, '/')) {
            None => r matches Ok(GuardStep::Pass),
            Some(sess) => match bearer_of(opt_str_view(authorization)) {
                Some(t) => r matches Ok(GuardStep::Verify { token, url_sess }) && token@ == t
                    && url_sess@ == sess,
                None => r matches Err(e) && is_error(e, 401, "Token not found"@),
            },
        },
{
    match extract_sess(path) {
        None => Ok(GuardStep::Pass),
        Some(url_sess) => match extract_bearer(authorization) {
            Ok(token) => Ok(GuardStep::Verify { token, url_sess }),
            Err(e) => Err(e),
        },
    }
}

/// The refusal of verified claims for a path, if any: a token of another
/// session (401); a non-client token on the client resource, or a non-admin
/// token elsewhere (403).
pub open spec fn claims_refusal(path: Seq<char>, url_sess: Seq<char>, sess: Seq<char>, role: Seq<char>) -> Option<(u16, Seq<char>)> {
    if sess != url_sess {
        Some((401u16, "Session URL is not valid for this token"@))
    } else if resource_of(path) == "client"@ {
        if role != "client"@ {
            Some((403u16, "Admin tokens cannot access client endpoints"@))
        } else {
            None
        }
    } else if role != "admin"@ {
        Some((403u16, "Client accounts cannot access admin endpoints"@))
    } else {
        None
    }
}

/// The second decision of the session guard, once the token's claims are known.
pub fn guard_claims(path: &str, url_sess: &str, claims: &Claims) -> (r: Result<(), ApiError>)
    ensures
        match claims_refusal(path@, url_sess@, claims.sess@, claims.role@) {
            None => r is Ok,
            Some((status, msg)) => r matches Err(e) && is_error(e, status, msg),
        },
{
    if !chars_eq(&chars_of(claims.sess.as_str()), &chars_of(url_sess)) {
        return Err(ApiError::new(401, "Session URL is not valid for this token"));
    }
    let resource = path_resource(path);
    let role = chars_of(claims.role.as_str());
    if chars_eq(&resource, &chars_of("client")) {
        if !chars_eq(&role, &chars_of("client")) {
            return Err(ApiError::new(403, "Admin tokens cannot access client endpoints"));
        }
    } else if !chars_eq(&role, &chars_of("admin")) {
        return Err(ApiError::new(403, "Client accounts cannot access admin endpoints"));
    }
    Ok(())
}

/// The client dashboard admits client tokens only.
pub fn require_client(claims: &Claims) -> (r: Result<(), ApiError>)
    ensures
        claims.role@ == "client"@ ==> r is Ok,
        claims.role@ != "client"@ ==> (r matches Err(e) && is_error(
            e,
            403,
            "Only client accounts can access this"@,
        )),
{
    if chars_eq(&chars_of(claims.role.as_str()), &chars_of("client")) {
        Ok(())
    } else {
        Err(ApiError::new(403, "Only client accounts can access this"))
    }
}

// ================================================================ passwords

/// Name of bcrypt's verdict on a password and a stored hash.
pub uninterp spec fn bcrypt_verifies(password: Seq<char>, hash: Seq<char>) -> bool;

/// `bcrypt::verify(password, hash).unwrap_or(false)`: whether the password,
/// hashed with the salt and cost recorded in `hash`, gives the same digest.
/// A malformed hash counts as no match.  The verdict depends on the two
/// strings alone, and is named `bcrypt_verifies`.
#[verifier::external_body]
fn verify_password(password: &str, hash: &str) -> (ok: bool)
    ensures
        ok == bcrypt_verifies(password@, hash@),
{
    bcrypt::verify(password, hash).unwrap_or(false)
}

/// The error type of the bcrypt crate.
#[verifier::external_type_specification]
#[verifier::external_body]
pub struct ExBcryptError(bcrypt::BcryptError);

/// `bcrypt::hash(password, 12)`: a hash with a fresh random salt.  The salt
/// comes from the operating system, so the text is not fixed by the
/// password; what holds of every hash it returns is that the same password
/// verifies against it, which is what `verify` is for.
#[verifier::external_body]
pub(crate) fn hash_password(password: &str) -> (r: Result<String, bcrypt::BcryptError>)
    ensures
        r matches Ok(h) ==> bcrypt_verifies(password@, h@),
{
    bcrypt::hash(password, 12)
}

/// The answer to a password check: a wrong password is a failure of the
/// key, answered 401.
pub fn password_outcome(guard: &mut LoginGuard, key: &str, now: u64, ok: bool) -> (r: Result<(), ApiError>)
    requires
        old(guard).wf(),
        now <= u64::MAX - crate::login_guard::RATE_WINDOW_MS,
    ensures
        final(guard).wf(),
        ok ==> r is Ok && final(guard)@ == old(guard)@,
        !ok ==> (r matches Err(e) && is_error(e, 401, "Invalid username or password"@)) && final(guard)@
            == record_next(old(guard)@, key@, now),
{
    if ok {
        Ok(())
    } else {
        guard.record_failure(key, now);
        Err(ApiError::new(401, "Invalid username or password"))
    }
}

/// Checks a login password against the stored hash.
pub fn check_password(guard: &mut LoginGuard, key: &str, now: u64, password: &str, hash: &str) -> (r: Result<(), ApiError>)
    requires
        old(guard).wf(),
        now <= u64::MAX - crate::login_guard::RATE_WINDOW_MS,
    ensures
        final(guard).wf(),
        bcrypt_verifies(password@, hash@) ==> r is Ok && final(guard)@ == old(guard)@,
        !bcrypt_verifies(password@, hash@) ==> (r matches Err(e) && is_error(
            e,
            401,
            "Invalid username or password"@,
        )) && final(guard)@ == record_next(old(guard)@, key@, now),
{
    let ok = verify_password(password, hash);
    password_outcome(guard, key, now, ok)
}

/// The password step of a client login: an account whose admin set no
/// password is refused (401, not counted as a failure); otherwise the
/// password is checked, and a success clears the key's failures.
pub fn client_password_step(
    guard: &mut LoginGuard,
    key: &str,
    now: u64,
    password: &str,
    hash: Option<&str>,
) -> (r: Result<(), ApiError>)
    requires
        old(guard).wf(),
        now <= u64::MAX - crate::login_guard::RATE_WINDOW_MS,
    ensures
        final(guard).wf(),
        match hash {
            None => (r matches Err(e) && is_error(e, 401, "Account has no password set by admin"@))
                && final(guard)@ == old(guard)@,
            Some(h) => if bcrypt_verifies(password@, h@) {
                r is Ok && final(guard)@ == clear_next(old(guard)@, key@)
            } else {
                (r matches Err(e) && is_error(e, 401, "Invalid username or password"@)) && final(guard)@
                    == record_next(old(guard)@, key@, now)
            },
        },
{
    match hash {
        None => Err(ApiError::new(401, "Account has no password set by admin")),
        Some(h) => {
            let r = check_password(guard, key, now, password, h);
            if r.is_ok() {
                guard.clear(key);
            }
            r
        },
    }
}

// ================================================================ second factor

/// The user has a second factor and it is enabled.
pub open spec fn factor_enabled(row: Option<(String, i64)>) -> bool {
    row matches Some((_, enabled)) && enabled != 0
}

/// The code sent, the empty string where none was.
pub open spec fn code_text(code: Option<String>) -> Seq<char> {
    match code {
        Some(c) => c@,
        None => Seq::empty(),
    }
}

/// The second-factor step of an admin login, given the user's second-factor
/// row (secret and enabled flag), the code sent, and the current 30-second
/// step: with the factor enabled, a blank code is answered 428 and a code
/// that cannot be confirmed at any of the steps `step-1 ..= step+1` (no match,
/// or OpenSSL could not compute the codes) is a failure (401);
/// otherwise the key's failures are cleared.
pub fn second_factor_step(
    guard: &mut LoginGuard,
    key: &str,
    now: u64,
    row: Option<(String, i64)>,
    code: Option<String>,
    step: u64,
) -> (r: Result<(), ApiError>)
    requires
        old(guard).wf(),
        now <= u64::MAX - crate::login_guard::RATE_WINDOW_MS,
        1 <= step < u64::MAX,
    ensures
        final(guard).wf(),
        !factor_enabled(row) ==> r is Ok && final(guard)@ == clear_next(old(guard)@, key@),
        factor_enabled(row) && trim(code_text(code)).len() == 0 ==> (r matches Err(e) && is_error(
            e,
            428,
            "Two-factor authentication code required"@,
        )) && final(guard)@ == old(guard)@,
        factor_enabled(row) && trim(code_text(code)).len() > 0 ==> match r {
            Ok(_) => code_matches(secret_bytes(row.unwrap().0@), code_text(code), 1, step)
                && final(guard)@ == clear_next(old(guard)@, key@),
            Err(e) => is_error(e, 401, "Invalid two-factor authentication code"@) && final(guard)@
                == record_next(old(guard)@, key@, now),
        },
{
    if let Some((secret, enabled)) = row {
        if enabled != 0 {
            let c = match code {
                Some(c) => c,
                None => String::new(),
            };
            if trim_str(c.as_str()).len() == 0 {
                return Err(ApiError::new(428, "Two-factor authentication code required"));
            }
            let accepted = match verify_code_at(secret.as_str(), c.as_str(), 1, step) {
                Some(ok) => ok,
                None => false,
            };
            if !accepted {
                guard.record_failure(key, now);
                return Err(ApiError::new(401, "Invalid two-factor authentication code"));
            }
        }
    }
    guard.clear(key);
    Ok(())
}

// ================================================================ registration

/// Why a first-admin registration is refused, if it is: once any user
/// exists (403), or when the trimmed username has under 3 bytes or the
/// password under 6 (400).
pub open spec fn register_refusal(existing: i64, username: Seq<char>, password: Seq<char>) -> Option<(u16, Seq<char>)> {
    if existing > 0 {
        Some((403u16, "Registration is closed. The admin account already exists."@))
    } else if utf8_len(trim(username)) < 3 || utf8_len(password) < 6 {
        Some((400u16, "Username must be at least 3 characters, password at least 6 characters"@))
    } else {
        None
    }
}

/// Validates a registration and hashes its password: the trimmed username
/// and the hash to store; a hashing failure is answered 500.
pub fn register_prepare(existing: i64, username: &str, password: &str) -> (r: Result<(String, String), ApiError>)
    ensures
        match register_refusal(existing, username@, password@) {
            Some((status, msg)) => r matches Err(e) && is_error(e, status, msg),
            None => match r {
                Ok((u, h)) => u@ == trim(username@) && bcrypt_verifies(password@, h@),
                Err(e) => is_error(e, 500, "Failed to hash password"@),
            },
        },
{
    if existing > 0 {
        return Err(ApiError::new(403, "Registration is closed. The admin account already exists."));
    }
    let trimmed = trim_str(username);
    if !utf8_len_at_least(&trimmed, 3) || !utf8_len_at_least(&chars_of(password), 6) {
        return Err(
            ApiError::new(400, "Username must be at least 3 characters, password at least 6 characters"),
        );
    }
    match hash_password(password) {
        Ok(h) => Ok((string_of(&trimmed), h)),
        Err(_) => Err(ApiError::new(500, "Failed to hash password")),
    }
}

// ================================================================ laws of the session guard

/// A token only opens the session URL it was issued with: any other
/// session in the URL is refused 401, whatever the path and role.
pub proof fn law_session_mismatch_refused(path: Seq<char>, url_sess: Seq<char>, sess: Seq<char>, role: Seq<char>)
    requires
        sess != url_sess,
    ensures
        claims_refusal(path, url_sess, sess, role) == Some((401u16, "Session URL is not valid for this token"@)),
{
}

/// Admin and client tokens are kept apart: within its own session a
/// client token reaches only the client resource and an admin token only
/// the others; each is refused 403 elsewhere.
pub proof fn law_roles_separated(path: Seq<char>, sess: Seq<char>, role: Seq<char>)
    ensures
        claims_refusal(path, sess, sess, role) is None <==> ((resource_of(path) == "client"@ && role == "client"@) || (
        resource_of(path) != "client"@ && role == "admin"@)),
        claims_refusal(path, sess, sess, role) matches Some((status, _)) ==> status == 403,
{
}

} // verus!
