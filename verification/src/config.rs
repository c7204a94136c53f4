//! Where the panel keeps its database and how it starts it.
use vstd::prelude::*;
use crate::text::{chars_of, extend_str, str_eq, string_of};

verus! {

/// The port the panel's API listens on.
pub const PORT: u16 = 8181;

/// The database path: the one the environment names; else the deployed
/// one when it exists; else the development one.
pub fn database_path(from_env: Option<String>, deployed: Option<(String, bool)>, dev: String) -> (r: String)
    ensures
        match from_env {
            Some(p) => r == p,
            None => match deployed {
                Some((p, true)) => r == p,
                _ => r == dev,
            },
        },
{
    match from_env {
        Some(p) => p,
        None => match deployed {
            Some((p, true)) => p,
            _ => dev,
        },
    }
}

/// The secret tokens are signed with, unless the environment gives one.
pub fn token_secret(from_env: Option<String>) -> (r: String)
    ensures
        match from_env {
            Some(s) => r == s,
            None => r@ == "fpanel-dev-secret-change-me"@,
        },
{
    match from_env {
        Some(s) => s,
        None => "fpanel-dev-secret-change-me".to_string(),
    }
}

/// An in-memory database has no file to create.
pub fn needs_file(db_path: &str) -> (b: bool)
    ensures
        b == (db_path@ != ":memory:"@),
{
    !str_eq(db_path, ":memory:")
}

/// The connection URL of the SQLite database.
pub fn sqlite_url(db_path: &str) -> (r: String)
    ensures
        r@ == "sqlite:"@ + db_path@,
{
    let mut v = chars_of("sqlite:");
    extend_str(&mut v, db_path);
    string_of(&v)
}

/// Older databases lack the accounts' password column; it is added when
/// no column of that name is listed.
pub fn needs_password_column(columns: &Vec<String>) -> (b: bool)
    ensures
        b == !(exists|i: int| 0 <= i < columns@.len() && (#[trigger] columns@[i])@ == "password_hash"@),
{
    let mut i: usize = 0;
    while i < columns.len()
        invariant
            i <= columns@.len(),
            forall|k: int| 0 <= k < i ==> (#[trigger] columns@[k])@ != "password_hash"@,
        decreases columns.len() - i,
    {
        if str_eq(columns[i].as_str(), "password_hash") {
            return false;
        }
        i += 1;
    }
    true
}

/// The MariaDB user and socket: from the environment, else the defaults.
pub fn mysql_settings(user: Option<String>, socket: Option<String>) -> (r: (String, String))
    ensures
        match user {
            Some(u) => r.0 == u,
            None => r.0@ == "felix"@,
        },
        match socket {
            Some(s) => r.1 == s,
            None => r.1@ == "/tmp/mysql.sock"@,
        },
{
    let u = match user {
        Some(u) => u,
        None => "felix".to_string(),
    };
    let s = match socket {
        Some(s) => s,
        None => "/tmp/mysql.sock".to_string(),
    };
    (u, s)
}

} // verus!
