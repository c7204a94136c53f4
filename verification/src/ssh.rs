//! SSH access of hosting accounts: which usernames are accepted, how a new
//! user gets its key, and the names of the files the SSH server reads.
use vstd::prelude::*;
use crate::error::{ApiError, is_error};
use crate::text::{all_in_class, chars_eq, chars_of, extend_str, in_class, string_of, trim, trim_str};

verus! {

/// Why an SSH username (trimmed) is refused, if it is.
pub open spec fn username_refusal(u: Seq<char>) -> Option<Seq<char>> {
    let s = trim(u);
    if s.len() == 0 {
        Some("username is required"@)
    } else if s.contains(' ') || !all_in_class(s, seq!['.', '_', '-']) {
        Some("username may only contain letters, digits, '.', '_' and '-'"@)
    } else {
        None
    }
}

/// Checks an SSH username; the trimmed name is stored.
pub fn valid_username(u: &str) -> (r: Result<String, ApiError>)
    ensures
        match username_refusal(u@) {
            Some(msg) => r matches Err(e) && is_error(e, 400, msg),
            None => r matches Ok(s) && s@ == trim(u@),
        },
{
    let s = trim_str(u);
    if s.len() == 0 {
        return Err(ApiError::new(400, "username is required"));
    }
    let mut extra: Vec<char> = Vec::new();
    extra.push('.');
    extra.push('_');
    extra.push('-');
    assert(extra@ =~= seq!['.', '_', '-']);
    if crate::text::contains_char(&s, ' ') || !in_class(&s, &extra) {
        return Err(ApiError::new(400, "username may only contain letters, digits, '.', '_' and '-'"));
    }
    Ok(string_of(&s))
}

/// How a new SSH user authenticates: `key` by default, or `password`.
pub fn auth_type(requested: Option<&str>) -> (r: Result<String, ApiError>)
    ensures
        match requested {
            None => r matches Ok(t) && t@ == "key"@,
            Some(t) => if t@ == "key"@ || t@ == "password"@ {
                r matches Ok(s) && s@ == t@
            } else {
                r matches Err(e) && is_error(e, 400, "auth_type must be 'key' or 'password'"@)
            },
        },
{
    match requested {
        None => Ok("key".to_string()),
        Some(t) => {
            let c = chars_of(t);
            if chars_eq(&c, &chars_of("key")) || chars_eq(&c, &chars_of("password")) {
                Ok(string_of(&c))
            } else {
                Err(ApiError::new(400, "auth_type must be 'key' or 'password'"))
            }
        },
    }
}

/// Where a new user's public key comes from.
pub enum KeySource {
    /// The key given with the request (trimmed).
    Given(String),
    /// A new key pair is to be generated.
    Generate,
    /// None: the user logs in with a password.
    NoKey,
}

/// A key user takes the key given, when it is not blank, or gets a new pair.
pub fn key_source(auth: &str, public_key: Option<&str>) -> (k: KeySource)
    ensures
        auth@ == "key"@ ==> match public_key {
            Some(pk) => if trim(pk@).len() > 0 {
                k matches KeySource::Given(g) && g@ == trim(pk@)
            } else {
                k is Generate
            },
            None => k is Generate,
        },
        auth@ != "key"@ ==> k is NoKey,
{
    if chars_eq(&chars_of(auth), &chars_of("key")) {
        match public_key {
            Some(pk) => {
                let t = trim_str(pk);
                if t.len() > 0 {
                    KeySource::Given(string_of(&t))
                } else {
                    KeySource::Generate
                }
            },
            None => KeySource::Generate,
        }
    } else {
        KeySource::NoKey
    }
}

/// The authorized keys stored for a new user: those given when not blank;
/// for a key user without them, its public key.
pub fn authorized_keys(auth: &str, given: Option<String>, public_key: Option<String>) -> (r: Option<String>)
    ensures
        match given {
            Some(g) => if trim(g@).len() > 0 {
                r == Some(g)
            } else if auth@ == "key"@ {
                r == public_key
            } else {
                r is None
            },
            None => if auth@ == "key"@ {
                r == public_key
            } else {
                r is None
            },
        },
{
    let usable = match given {
        Some(g) => {
            if trim_str(g.as_str()).len() > 0 {
                Some(g)
            } else {
                None
            }
        },
        None => None,
    };
    match usable {
        Some(g) => Some(g),
        None => {
            if chars_eq(&chars_of(auth), &chars_of("key")) {
                public_key
            } else {
                None
            }
        },
    }
}

/// The name under which an account's SSH user is written: `<account>_<user>`.
pub fn ssh_entry_name(account: &str, username: &str) -> (r: String)
    ensures
        r@ == account@ + seq!['_'] + username@,
{
    let mut v = chars_of(account);
    v.push('_');
    extend_str(&mut v, username);
    string_of(&v)
}

/// A file of the SSH directory belongs to the account: its name starts with `<account>_`.
pub fn belongs_to_account(file_name: &str, account: &str) -> (b: bool)
    ensures
        b == crate::text::starts_with(file_name@, account@ + seq!['_']),
{
    let mut p = chars_of(account);
    p.push('_');
    assert(p@ =~= account@ + seq!['_']);
    crate::text::vec_starts_with(&chars_of(file_name), &p)
}

} // verus!
