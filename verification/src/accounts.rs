//! Hosting accounts: what a new account must give, how an update merges
//! into the stored row, and the order in which an account's rows are
//! deleted.
use vstd::prelude::*;
use crate::domains::{valid_domain, valid_domain_spec};
use crate::error::{ApiError, internal, is_error};
use crate::session::{bcrypt_verifies, hash_password};
use crate::text::{
    chars_of, contains_char, dec_int, dec_i64, extend_chars, extend_str, string_of, to_lowercase, trim,
    trim_str, unicode_lower, utf8_len, utf8_len_at_least,
};

verus! {

/// A hosting account as stored.
pub struct Account {
    pub id: i64,
    pub username: String,
    pub email: String,
    pub package_id: i64,
    pub status: String,
    pub name: Option<String>,
}

/// A request to create an account, optionally with its main domain.
pub struct CreateAccount {
    pub username: String,
    pub email: String,
    pub password: Option<String>,
    pub package_id: i64,
    pub name: Option<String>,
    pub domain: Option<String>,
}

/// A request to change an account; absent fields keep their values, but
/// for the display name, which is replaced by what was sent.
pub struct UpdateAccount {
    pub email: Option<String>,
    pub password: Option<String>,
    pub package_id: Option<i64>,
    pub status: Option<String>,
    pub name: Option<String>,
}

/// A new account needs a username that is not blank and an e-mail address
/// with an `@`.
pub open spec fn account_refused(username: Seq<char>, email: Seq<char>) -> bool {
    trim(username).len() == 0 || !email.contains('@')
}

/// Checks a new account's username and e-mail, and gives both trimmed as
/// they are stored (400 when refused).
pub fn check_new_account(username: &str, email: &str) -> (r: Result<(String, String), ApiError>)
    ensures
        account_refused(username@, email@) ==> (r matches Err(e) && is_error(e, 400, "Invalid username or email"@)),
        !account_refused(username@, email@) ==> (r matches Ok((u, m)) && u@ == trim(username@) && m@ == trim(email@)),
{
    let u = trim_str(username);
    if u.len() == 0 || !contains_char(&chars_of(email), '@') {
        return Err(ApiError::new(400, "Invalid username or email"));
    }
    Ok((string_of(&u), string_of(&trim_str(email))))
}

/// A password is set only when one is given with 6 bytes at least; a
/// shorter one is ignored.
pub open spec fn sets_password(password: Option<Seq<char>>) -> bool {
    password matches Some(p) && utf8_len(p) >= 6
}

pub open spec fn opt_chars(o: Option<&str>) -> Option<Seq<char>> {
    match o {
        Some(s) => Some(s@),
        None => None,
    }
}

/// The hash to store for a requested password: none when no password is
/// set; otherwise a bcrypt hash that the password verifies against, or a
/// 500 when hashing fails.
pub fn password_hash_for(password: Option<&str>) -> (r: Result<Option<String>, ApiError>)
    ensures
        !sets_password(opt_chars(password)) ==> r == Ok::<Option<String>, ApiError>(None),
        sets_password(opt_chars(password)) ==> match r {
            Ok(Some(h)) => bcrypt_verifies(password.unwrap()@, h@),
            Ok(None) => false,
            Err(e) => is_error(e, 500, "Internal server error"@),
        },
{
    match password {
        Some(p) => {
            if utf8_len_at_least(&chars_of(p), 6) {
                match hash_password(p) {
                    Ok(h) => Ok(Some(h)),
                    Err(_) => Err(internal()),
                }
            } else {
                Ok(None)
            }
        },
        None => Ok(None),
    }
}

/// The main domain to create with an account: the requested name trimmed
/// and lower-cased; none when absent or blank; 400 when not a valid host name.
pub fn account_domain(domain: Option<&str>) -> (r: Result<Option<String>, ApiError>)
    ensures
        match domain {
            None => r == Ok::<Option<String>, ApiError>(None),
            Some(d) => {
                let n = unicode_lower(trim(d@));
                if n.len() == 0 {
                    r == Ok::<Option<String>, ApiError>(None)
                } else if !valid_domain_spec(n) {
                    r matches Err(e) && is_error(e, 400, "Invalid domain name"@)
                } else {
                    r matches Ok(Some(s)) && s@ == n
                }
            },
        },
{
    match domain {
        None => Ok(None),
        Some(d) => {
            let n = to_lowercase(string_of(&trim_str(d)).as_str());
            if n.as_str().is_empty() {
                Ok(None)
            } else if !valid_domain(n.as_str()) {
                Err(ApiError::new(400, "Invalid domain name"))
            } else {
                Ok(Some(n))
            }
        },
    }
}

/// A domain that some account already holds cannot be given to a new one (409).
pub fn check_domain_unassigned(domain: &str, holders: i64) -> (r: Result<(), ApiError>)
    ensures
        holders > 0 ==> (r matches Err(e) && is_error(
            e,
            409,
            "Domain "@ + domain@ + " is already assigned to another account"@,
        )),
        holders <= 0 ==> r is Ok,
{
    if holders > 0 {
        let mut m = chars_of("Domain ");
        extend_str(&mut m, domain);
        extend_str(&mut m, " is already assigned to another account");
        return Err(ApiError::from_chars(409, &m));
    }
    Ok(())
}

/// The values an update stores: e-mail, package and status from the
/// request where given, else from the current row; the name as sent.
pub fn merged_update(current: &Account, input: &UpdateAccount) -> (r: (String, i64, String, Option<String>))
    ensures
        r.0@ == (match input.email {
            Some(e) => e@,
            None => current.email@,
        }),
        r.1 == (match input.package_id {
            Some(p) => p,
            None => current.package_id,
        }),
        r.2@ == (match input.status {
            Some(s) => s@,
            None => current.status@,
        }),
        crate::session::opt_view(r.3) == crate::session::opt_view(input.name),
{
    let email = match &input.email {
        Some(e) => string_of(&chars_of(e.as_str())),
        None => string_of(&chars_of(current.email.as_str())),
    };
    let package_id = match input.package_id {
        Some(p) => p,
        None => current.package_id,
    };
    let status = match &input.status {
        Some(s) => string_of(&chars_of(s.as_str())),
        None => string_of(&chars_of(current.status.as_str())),
    };
    let name = match &input.name {
        Some(n) => Some(string_of(&chars_of(n.as_str()))),
        None => None,
    };
    (email, package_id, status, name)
}

// ================================================================ removal

/// The tables whose rows of an account are deleted, in this order: first
/// those that refer to its domains, databases and database users, then
/// those that refer to the account alone.
pub open spec fn owned_tables() -> Seq<Seq<char>> {
    seq![
        "dns_records"@, "email_accounts"@, "email_forwarders"@, "email_autoresponders"@, "email_defaults"@,
        "redirects"@, "ssl_certs"@, "php_settings"@, "installed_apps"@, "ip_blocker"@, "hotlink"@,
        "waf_rules"@, "run_apps"@, "databases"@, "db_users"@, "ssh_access"@, "cron_jobs"@,
    ]
}

pub open spec fn privileges_delete() -> Seq<char> {
    "DELETE FROM db_privileges WHERE user_id IN (SELECT id FROM db_users WHERE account_id = ?) OR db_id IN (SELECT id FROM databases WHERE account_id = ?)"@
}

pub open spec fn table_delete(table: Seq<char>) -> Seq<char> {
    "DELETE FROM "@ + table + " WHERE account_id = ?"@
}

/// The statements that delete an account, in the order they run in one
/// transaction: the privilege links, each owned table, the domains, and
/// the account row last.
pub open spec fn removal_plan() -> Seq<Seq<char>> {
    seq![privileges_delete()] + owned_tables().map_values(|t: Seq<char>| table_delete(t)) + seq![
        "DELETE FROM domains WHERE account_id = ?"@,
        "DELETE FROM accounts WHERE id = ?"@,
    ]
}

fn push_str(v: &mut Vec<String>, s: &str)
    ensures
        final(v)@.map_values(|x: String| x@) == old(v)@.map_values(|x: String| x@).push(s@),
{
    let ghost before = v@.map_values(|x: String| x@);
    v.push(s.to_string());
    assert(v@.map_values(|x: String| x@) =~= before.push(s@));
}

/// The statements of `removal_plan`.
pub fn removal_statements() -> (r: Vec<String>)
    ensures
        r@.map_values(|x: String| x@) == removal_plan(),
{
    let tables: [&str; 17] = [
        "dns_records", "email_accounts", "email_forwarders", "email_autoresponders", "email_defaults",
        "redirects", "ssl_certs", "php_settings", "installed_apps", "ip_blocker", "hotlink", "waf_rules",
        "run_apps", "databases", "db_users", "ssh_access", "cron_jobs",
    ];
    let ghost want = owned_tables();
    assert(tables@.map_values(|t: &str| t@) =~= want);
    let mut out: Vec<String> = Vec::new();
    push_str(&mut out, "DELETE FROM db_privileges WHERE user_id IN (SELECT id FROM db_users WHERE account_id = ?) OR db_id IN (SELECT id FROM databases WHERE account_id = ?)");
    let mut i: usize = 0;
    while i < 17
        invariant
            i <= 17,
            tables@.map_values(|t: &str| t@) == want,
            want == owned_tables(),
            out@.map_values(|x: String| x@) == seq![privileges_delete()] + want.take(i as int).map_values(
                |t: Seq<char>| table_delete(t),
            ),
        decreases 17 - i,
    {
        let mut s = chars_of("DELETE FROM ");
        extend_str(&mut s, tables[i]);
        extend_str(&mut s, " WHERE account_id = ?");
        let ghost before = out@.map_values(|x: String| x@);
        assert(tables@[i as int]@ == want[i as int]);
        out.push(string_of(&s));
        assert(want.take(i + 1).map_values(|t: Seq<char>| table_delete(t)) =~= want.take(i as int).map_values(
            |t: Seq<char>| table_delete(t),
        ).push(table_delete(want[i as int])));
        assert(out@.map_values(|x: String| x@) =~= before.push(table_delete(want[i as int])));
        i += 1;
    }
    assert(want.take(17) =~= want);
    push_str(&mut out, "DELETE FROM domains WHERE account_id = ?");
    push_str(&mut out, "DELETE FROM accounts WHERE id = ?");
    assert(out@.map_values(|x: String| x@) =~= removal_plan());
    out
}

/// Every row an account owns is deleted before the rows it refers to: the
/// privilege links come first, the domains after every table that refers
/// to them, and the account row last.
pub proof fn law_removal_order()
    ensures
        removal_plan().len() == 20,
        removal_plan()[0] == privileges_delete(),
        forall|k: int| 1 <= k <= 17 ==> #[trigger] removal_plan()[k] == table_delete(owned_tables()[k - 1]),
        removal_plan()[18] == "DELETE FROM domains WHERE account_id = ?"@,
        removal_plan()[19] == "DELETE FROM accounts WHERE id = ?"@,
{
    let p = removal_plan();
    let t = owned_tables().map_values(|t: Seq<char>| table_delete(t));
    assert(p =~= seq![privileges_delete()] + t + seq![
        "DELETE FROM domains WHERE account_id = ?"@,
        "DELETE FROM accounts WHERE id = ?"@,
    ]);
    assert forall|k: int| 1 <= k <= 17 implies #[trigger] removal_plan()[k] == table_delete(owned_tables()[k - 1]) by {
        assert(p[k] == t[k - 1]);
    }
}

// ================================================================ provisioning log

/// The line recorded for a provisioning action.
pub fn log_provision(msg: &str) -> (r: String)
    ensures
        r@ == "[provision-stub] "@ + msg@,
{
    let mut v = chars_of("[provision-stub] ");
    extend_str(&mut v, msg);
    string_of(&v)
}

/// What is recorded when an account is created.
pub fn created_message(username: &str) -> (r: String)
    ensures
        r@ == "create account "@ + username@,
{
    let mut v = chars_of("create account ");
    extend_str(&mut v, username);
    string_of(&v)
}

/// What is recorded when an account is deleted.
pub fn deleted_message(id: i64, username: &str) -> (r: String)
    ensures
        r@ == "delete account "@ + dec_int(id as int) + " ("@ + username@ + seq![')'],
{
    let mut v = chars_of("delete account ");
    let d = dec_i64(id);
    extend_chars(&mut v, &d);
    extend_str(&mut v, " (");
    extend_str(&mut v, username);
    v.push(')');
    string_of(&v)
}

} // verus!
