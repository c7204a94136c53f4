//! MySQL databases and users of hosting accounts: the names that are
//! accepted, the server-side names (prefixed with the account), the SQL
//! statements sent to the server, and the privileges a grant gives.
use vstd::prelude::*;
use crate::error::{ApiError, is_error};
use crate::text::{
    all_in_class, chars_eq, chars_of, extend_chars, extend_str, in_class, string_of, to_uppercase,
    trim, trim_str, unicode_upper, utf8_len, utf8_len_at_least,
};

verus! {

/// A database as stored, with the users bound to it.
pub struct Database {
    pub id: i64,
    pub account_id: i64,
    pub name: String,
    pub db_user: String,
    pub status: String,
    pub created_at: String,
    pub bound_users: Vec<BoundUser>,
}

/// A user with privileges on a database.
pub struct BoundUser {
    pub user_id: i64,
    pub username: String,
    pub privileges: String,
}

/// A database with its owner's username, as the admin lists it.
pub struct DatabaseAdmin {
    pub id: i64,
    pub account_id: i64,
    pub username: String,
    pub name: String,
    pub db_user: String,
    pub status: String,
    pub created_at: String,
    pub bound_users: Vec<BoundUser>,
}

/// A database user as stored.
pub struct DbUser {
    pub id: i64,
    pub account_id: i64,
    pub username: String,
    pub status: String,
    pub created_at: String,
}

/// A database user with its owner's username, as the admin lists it.
pub struct DbUserAdmin {
    pub id: i64,
    pub account_id: i64,
    pub username: String,
    pub name: String,
    pub status: String,
    pub created_at: String,
}

/// A request to create a database.
pub struct CreateDatabase {
    pub name: String,
    pub account_id: Option<i64>,
}

/// A request to create a database user.
pub struct CreateUser {
    pub username: String,
    pub password: String,
    pub account_id: Option<i64>,
}

/// A request to grant a user privileges on a database.
pub struct GrantBody {
    pub db_id: i64,
    pub user_id: i64,
    pub privileges: Option<Vec<String>>,
    pub account_id: Option<i64>,
}

/// The query of a client's privilege listing.
pub struct PathQ {
    pub db_id: Option<i64>,
}

/// The query of an admin's listing.
pub struct AdminPathQ {
    pub account_id: Option<i64>,
    pub db_id: Option<i64>,
}

/// A grant as stored.
pub struct Privilege {
    pub id: i64,
    pub db_id: i64,
    pub db_name: String,
    pub user_id: i64,
    pub username: String,
    pub privileges: String,
}

/// An admin request must name the account (400 otherwise).
pub fn require_account(aid: Option<i64>) -> (r: Result<i64, ApiError>)
    ensures
        match aid {
            Some(a) => r == Ok::<i64, ApiError>(a),
            None => r matches Err(e) && is_error(e, 400, "account_id is required"@),
        },
{
    match aid {
        Some(a) => Ok(a),
        None => Err(ApiError::new(400, "account_id is required")),
    }
}

/// A database with its owner's username.
pub fn to_admin(aid: i64, username: String, d: Database) -> (r: DatabaseAdmin)
    ensures
        r.id == d.id && r.account_id == aid && r.username == username && r.name == d.name,
        r.db_user == d.db_user && r.status == d.status && r.created_at == d.created_at,
        r.bound_users == d.bound_users,
{
    DatabaseAdmin {
        username,
        account_id: aid,
        id: d.id,
        name: d.name,
        db_user: d.db_user,
        status: d.status,
        created_at: d.created_at,
        bound_users: d.bound_users,
    }
}

// ================================================================ names

/// A database or user name: 1 to 60 bytes of ASCII letters, digits and `_`.
pub open spec fn valid_name_spec(s: Seq<char>) -> bool {
    s.len() > 0 && utf8_len(s) <= 60 && all_in_class(s, seq!['_'])
}

/// Checks a name given by the user; `what` says what it names.
pub fn valid_name(s: &str, what: &str) -> (r: Result<String, ApiError>)
    ensures
        valid_name_spec(s@) ==> (r matches Ok(n) && n@ == s@),
        !valid_name_spec(s@) ==> (r matches Err(e) && is_error(
            e,
            400,
            "Invalid "@ + what@ + ": use letters, numbers and underscores only (max 60)"@,
        )),
{
    let cs = chars_of(s);
    let mut us: Vec<char> = Vec::new();
    us.push('_');
    assert(us@ =~= seq!['_']);
    if cs.len() == 0 || utf8_len_at_least(&cs, 61) || !in_class(&cs, &us) {
        let mut msg = chars_of("Invalid ");
        extend_str(&mut msg, what);
        extend_str(&mut msg, ": use letters, numbers and underscores only (max 60)");
        return Err(ApiError::from_chars(400, &msg));
    }
    Ok(string_of(&cs))
}

/// The server-side name of an account's database or user: the account's
/// username, `_`, and the name.
pub open spec fn prefixed(username: Seq<char>, name: Seq<char>) -> Seq<char> {
    username + seq!['_'] + name
}

fn prefixed_exec(username: &str, name: &str) -> (r: String)
    ensures
        r@ == prefixed(username@, name@),
{
    let mut v = chars_of(username);
    v.push('_');
    extend_str(&mut v, name);
    string_of(&v)
}

pub fn actual_db(username: &str, name: &str) -> (r: String)
    ensures
        r@ == prefixed(username@, name@),
{
    prefixed_exec(username, name)
}

pub fn actual_user(username: &str, uname: &str) -> (r: String)
    ensures
        r@ == prefixed(username@, uname@),
{
    prefixed_exec(username, uname)
}

/// A database user's password needs at least 6 bytes.
pub fn check_db_password(password: &str) -> (r: Result<(), ApiError>)
    ensures
        utf8_len(password@) >= 6 ==> r is Ok,
        utf8_len(password@) < 6 ==> (r matches Err(e) && is_error(
            e,
            400,
            "Password must be at least 6 characters"@,
        )),
{
    if utf8_len_at_least(&chars_of(password), 6) {
        Ok(())
    } else {
        Err(ApiError::new(400, "Password must be at least 6 characters"))
    }
}

// ================================================================ statements

/// `s.replace('\'', "''")`: each single quote doubled, as SQL string literals write it.
pub open spec fn sql_quote(s: Seq<char>) -> Seq<char>
    decreases s.len(),
{
    if s.len() == 0 {
        Seq::empty()
    } else if s.last() == '\'' {
        sql_quote(s.drop_last()) + seq!['\'', '\'']
    } else {
        sql_quote(s.drop_last()).push(s.last())
    }
}

/// A password as it stands between single quotes in SQL.
pub fn quoted(s: &str) -> (r: Vec<char>)
    ensures
        r@ == sql_quote(s@),
{
    sql_quote_exec(&chars_of(s))
}

fn sql_quote_exec(s: &Vec<char>) -> (r: Vec<char>)
    ensures
        r@ == sql_quote(s@),
{
    let mut r: Vec<char> = Vec::new();
    let mut i: usize = 0;
    while i < s.len()
        invariant
            i <= s.len(),
            r@ == sql_quote(s@.take(i as int)),
        decreases s.len() - i,
    {
        assert(s@.take(i + 1).drop_last() =~= s@.take(i as int));
        if s[i] == '\'' {
            r.push('\'');
            r.push('\'');
        } else {
            r.push(s[i]);
        }
        i += 1;
    }
    assert(s@.take(s.len() as int) =~= s@);
    r
}

pub fn create_database_sql(actual: &str) -> (r: String)
    ensures
        r@ == "CREATE DATABASE IF NOT EXISTS `"@ + actual@
            + "` CHARACTER SET utf8mb4 COLLATE utf8mb4_unicode_ci"@,
{
    let mut v = chars_of("CREATE DATABASE IF NOT EXISTS `");
    extend_str(&mut v, actual);
    extend_str(&mut v, "` CHARACTER SET utf8mb4 COLLATE utf8mb4_unicode_ci");
    string_of(&v)
}

pub fn drop_database_sql(actual: &str) -> (r: String)
    ensures
        r@ == "DROP DATABASE IF EXISTS `"@ + actual@ + seq!['`'],
{
    let mut v = chars_of("DROP DATABASE IF EXISTS `");
    extend_str(&mut v, actual);
    v.push('`');
    string_of(&v)
}

pub fn create_user_sql(actual: &str, password: &str) -> (r: String)
    ensures
        r@ == "CREATE USER IF NOT EXISTS `"@ + actual@ + "`@'localhost' IDENTIFIED BY '"@ + sql_quote(password@)
            + seq!['\''],
{
    let mut v = chars_of("CREATE USER IF NOT EXISTS `");
    extend_str(&mut v, actual);
    extend_str(&mut v, "`@'localhost' IDENTIFIED BY '");
    extend_chars(&mut v, &sql_quote_exec(&chars_of(password)));
    v.push('\'');
    string_of(&v)
}

pub fn drop_user_sql(actual: &str) -> (r: String)
    ensures
        r@ == "DROP USER IF EXISTS `"@ + actual@ + "`@'localhost'"@,
{
    let mut v = chars_of("DROP USER IF EXISTS `");
    extend_str(&mut v, actual);
    extend_str(&mut v, "`@'localhost'");
    string_of(&v)
}

/// The list joined with `, `.
pub open spec fn join_comma(ps: Seq<Seq<char>>) -> Seq<char>
    decreases ps.len(),
{
    if ps.len() == 0 {
        Seq::empty()
    } else if ps.len() == 1 {
        ps[0]
    } else {
        join_comma(ps.drop_last()) + ", "@ + ps.last()
    }
}

fn join_comma_exec(ps: &Vec<String>) -> (r: Vec<char>)
    ensures
        r@ == join_comma(ps@.map_values(|p: String| p@)),
{
    let ghost all = ps@.map_values(|p: String| p@);
    let mut r: Vec<char> = Vec::new();
    let mut i: usize = 0;
    while i < ps.len()
        invariant
            i <= ps@.len(),
            all == ps@.map_values(|p: String| p@),
            r@ == join_comma(all.take(i as int)),
        decreases ps.len() - i,
    {
        assert(all.take(i + 1).drop_last() =~= all.take(i as int));
        if i > 0 {
            extend_str(&mut r, ", ");
        }
        extend_str(&mut r, ps[i].as_str());
        proof {
            if i == 0 {
                assert(r@ =~= all.take(1)[0]);
            }
        }
        i += 1;
    }
    assert(all.take(ps.len() as int) =~= all);
    r
}

pub fn grant_sql(privileges: &Vec<String>, actual_db: &str, actual_user: &str) -> (r: String)
    ensures
        r@ == "GRANT "@ + join_comma(privileges@.map_values(|p: String| p@)) + " ON `"@ + actual_db@
            + "`.* TO `"@ + actual_user@ + "`@'localhost'"@,
{
    let mut v = chars_of("GRANT ");
    extend_chars(&mut v, &join_comma_exec(privileges));
    extend_str(&mut v, " ON `");
    extend_str(&mut v, actual_db);
    extend_str(&mut v, "`.* TO `");
    extend_str(&mut v, actual_user);
    extend_str(&mut v, "`@'localhost'");
    string_of(&v)
}

pub fn revoke_sql(actual_db: &str, actual_user: &str) -> (r: String)
    ensures
        r@ == "REVOKE ALL PRIVILEGES ON `"@ + actual_db@ + "`.* FROM `"@ + actual_user@ + "`@'localhost'"@,
{
    let mut v = chars_of("REVOKE ALL PRIVILEGES ON `");
    extend_str(&mut v, actual_db);
    extend_str(&mut v, "`.* FROM `");
    extend_str(&mut v, actual_user);
    extend_str(&mut v, "`@'localhost'");
    string_of(&v)
}

// ================================================================ privileges

/// The privileges that can be granted one by one.
pub open spec fn grantable(p: Seq<char>) -> bool {
    p == "SELECT"@ || p == "INSERT"@ || p == "UPDATE"@ || p == "DELETE"@ || p == "CREATE"@ || p == "DROP"@
        || p == "INDEX"@ || p == "ALTER"@ || p == "REFERENCES"@ || p == "CREATE TEMPORARY TABLES"@
        || p == "LOCK TABLES"@ || p == "EXECUTE"@
}

/// A request that means every privilege: blank, `ALL` or `ALL PRIVILEGES`.
pub open spec fn means_all(p: Seq<char>) -> bool {
    p.len() == 0 || p == "ALL PRIVILEGES"@ || p == "ALL"@
}

/// The privileges a request grants, read in order after `acc`: each
/// trimmed and upper-cased; one that means all privileges gives exactly
/// `ALL PRIVILEGES`; others are kept when grantable and not yet kept.
pub open spec fn clean_from(acc: Seq<Seq<char>>, ps: Seq<Seq<char>>) -> Seq<Seq<char>>
    decreases ps.len(),
{
    if ps.len() == 0 {
        acc
    } else {
        let p = unicode_upper(trim(ps[0]));
        if means_all(p) {
            seq!["ALL PRIVILEGES"@]
        } else if grantable(p) && !acc.contains(p) {
            clean_from(acc.push(p), ps.drop_first())
        } else {
            clean_from(acc, ps.drop_first())
        }
    }
}

/// The privileges requested, `ALL PRIVILEGES` where none are named.
pub open spec fn requested(privileges: Option<Vec<String>>) -> Seq<Seq<char>> {
    match privileges {
        Some(v) => v@.map_values(|p: String| p@),
        None => seq!["ALL PRIVILEGES"@],
    }
}

/// The privileges to grant, or 400 where none remains.
pub fn clean_privileges(privileges: Option<Vec<String>>) -> (r: Result<Vec<String>, ApiError>)
    ensures
        ({
            let c = clean_from(Seq::empty(), requested(privileges));
            if c.len() == 0 {
                r matches Err(e) && is_error(e, 400, "No valid privileges provided"@)
            } else {
                r matches Ok(v) && v@.map_values(|p: String| p@) == c
            }
        }),
{
    let ghost req = requested(privileges);
    let used: Vec<String> = match privileges {
        Some(v) => v,
        None => {
            let mut v: Vec<String> = Vec::new();
            v.push("ALL PRIVILEGES".to_string());
            assert(v@.map_values(|p: String| p@) =~= seq!["ALL PRIVILEGES"@]);
            v
        },
    };
    assert(used@.map_values(|p: String| p@) == req);
    let mut clean: Vec<String> = Vec::new();
    let mut i: usize = 0;
    assert(req.skip(0) =~= req);
    assert(clean@.map_values(|p: String| p@) =~= Seq::<Seq<char>>::empty());
    let mut all = false;
    while i < used.len()
        invariant
            i <= used@.len(),
            req == used@.map_values(|p: String| p@),
            !all ==> clean_from(Seq::empty(), req) == clean_from(clean@.map_values(|p: String| p@), req.skip(i as int)),
            all ==> clean_from(Seq::empty(), req) == clean@.map_values(|p: String| p@),
            all ==> clean@.len() == 1,
            all ==> i == used@.len(),
        decreases used.len() - i,
    {
        let ghost cv = clean@.map_values(|p: String| p@);
        let ghost rest = req.skip(i as int);
        assert(rest[0] == used@[i as int]@);
        assert(rest.drop_first() =~= req.skip(i + 1));
        let p = to_uppercase(string_of(&trim_str(used[i].as_str())).as_str());
        let pc = chars_of(p.as_str());
        if pc.len() == 0 || chars_eq(&pc, &chars_of("ALL PRIVILEGES")) || chars_eq(&pc, &chars_of("ALL")) {
            let mut v: Vec<String> = Vec::new();
            v.push("ALL PRIVILEGES".to_string());
            assert(v@.map_values(|p: String| p@) =~= seq!["ALL PRIVILEGES"@]);
            all = true;
            clean = v;
            i = used.len();
        } else {
        let allowed = chars_eq(&pc, &chars_of("SELECT")) || chars_eq(&pc, &chars_of("INSERT")) || chars_eq(
            &pc,
            &chars_of("UPDATE"),
        ) || chars_eq(&pc, &chars_of("DELETE")) || chars_eq(&pc, &chars_of("CREATE")) || chars_eq(
            &pc,
            &chars_of("DROP"),
        ) || chars_eq(&pc, &chars_of("INDEX")) || chars_eq(&pc, &chars_of("ALTER")) || chars_eq(
            &pc,
            &chars_of("REFERENCES"),
        ) || chars_eq(&pc, &chars_of("CREATE TEMPORARY TABLES")) || chars_eq(&pc, &chars_of("LOCK TABLES"))
            || chars_eq(&pc, &chars_of("EXECUTE"));
        let mut seen = false;
        let mut k: usize = 0;
        while k < clean.len()
            invariant
                k <= clean@.len(),
                cv == clean@.map_values(|p: String| p@),
                seen == exists|j: int| 0 <= j < k && cv[j] == pc@,
            decreases clean.len() - k,
        {
            assert(cv[k as int] == clean@[k as int]@);
            if chars_eq(&chars_of(clean[k].as_str()), &pc) {
                seen = true;
            }
            k += 1;
        }
        proof {
            if cv.contains(pc@) {
                let j = choose|j: int| 0 <= j < cv.len() && cv[j] == pc@;
                assert(cv[j] == pc@);
            }
        }
        if allowed && !seen {
            clean.push(p);
            assert(clean@.map_values(|p: String| p@) =~= cv.push(pc@));
        }
        i += 1;
        }
    }
    proof {
        if !all {
            assert(req.skip(i as int) =~= Seq::<Seq<char>>::empty());
        }
    }
    if clean.len() == 0 {
        return Err(ApiError::new(400, "No valid privileges provided"));
    }
    Ok(clean)
}

// ================================================================ ownership

/// A grant needs the database and the user (404), and the database must
/// belong to the account that asks (403).
pub fn check_grant_owner(found: Option<i64>, aid: i64) -> (r: Result<(), ApiError>)
    ensures
        match found {
            None => r matches Err(e) && is_error(e, 404, "Database or user not found"@),
            Some(owner) => if owner != aid {
                r matches Err(e) && is_error(e, 403, "Database does not belong to this account"@)
            } else {
                r is Ok
            },
        },
{
    match found {
        None => Err(ApiError::new(404, "Database or user not found")),
        Some(owner) => if owner != aid {
            Err(ApiError::new(403, "Database does not belong to this account"))
        } else {
            Ok(())
        },
    }
}

/// Revoking needs the grant (404), and the grant must belong to the account
/// that asks (403).
pub fn check_revoke_owner(found: Option<i64>, aid: i64) -> (r: Result<(), ApiError>)
    ensures
        match found {
            None => r matches Err(e) && is_error(e, 404, "Grant not found"@),
            Some(owner) => if owner != aid {
                r matches Err(e) && is_error(e, 403, "Grant does not belong to this account"@)
            } else {
                r is Ok
            },
        },
{
    match found {
        None => Err(ApiError::new(404, "Grant not found")),
        Some(owner) => if owner != aid {
            Err(ApiError::new(403, "Grant does not belong to this account"))
        } else {
            Ok(())
        },
    }
}

// ================================================================ laws

/// No two entries of `s` are equal.
pub open spec fn distinct(s: Seq<Seq<char>>) -> bool {
    forall|i: int, j: int| 0 <= i < j < s.len() ==> s[i] != s[j]
}

/// What a grant gives is either exactly `ALL PRIVILEGES`, or grantable
/// privileges each named once.
pub open spec fn well_formed_grant(c: Seq<Seq<char>>) -> bool {
    c == seq!["ALL PRIVILEGES"@] || (distinct(c) && forall|i: int| 0 <= i < c.len() ==> grantable(#[trigger] c[i]))
}

proof fn lemma_clean_from(acc: Seq<Seq<char>>, ps: Seq<Seq<char>>)
    requires
        distinct(acc),
        forall|i: int| 0 <= i < acc.len() ==> grantable(#[trigger] acc[i]),
    ensures
        well_formed_grant(clean_from(acc, ps)),
    decreases ps.len(),
{
    if ps.len() > 0 {
        let p = unicode_upper(trim(ps[0]));
        if means_all(p) {
        } else if grantable(p) && !acc.contains(p) {
            let acc2 = acc.push(p);
            assert forall|i: int, j: int| 0 <= i < j < acc2.len() implies acc2[i] != acc2[j] by {
                if j == acc.len() {
                    assert(acc[i] == acc2[i]);
                }
            }
            assert forall|i: int| 0 <= i < acc2.len() implies grantable(#[trigger] acc2[i]) by {
                if i < acc.len() {
                    assert(acc2[i] == acc[i]);
                }
            }
            lemma_clean_from(acc2, ps.drop_first());
        } else {
            lemma_clean_from(acc, ps.drop_first());
        }
    }
}

/// Whatever a client asks for, a grant is either exactly `ALL PRIVILEGES`
/// or a list of known, grantable privileges without repeats.
pub proof fn law_grant_well_formed(privileges: Option<Vec<String>>)
    ensures
        well_formed_grant(clean_from(Seq::empty(), requested(privileges))),
{
    lemma_clean_from(Seq::empty(), requested(privileges));
}

/// The text between the quotes, read back: each doubled quote is one quote.
pub open spec fn sql_unquote(s: Seq<char>) -> Seq<char>
    decreases s.len(),
{
    if s.len() == 0 {
        Seq::empty()
    } else if s.len() >= 2 && s[0] == '\'' && s[1] == '\'' {
        seq!['\''] + sql_unquote(s.skip(2))
    } else {
        seq![s[0]] + sql_unquote(s.drop_first())
    }
}

/// `sql_quote` of `a + b` is the quoting of each part.
proof fn lemma_quote_concat(a: Seq<char>, b: Seq<char>)
    ensures
        sql_quote(a + b) == sql_quote(a) + sql_quote(b),
    decreases b.len(),
{
    if b.len() == 0 {
        assert(a + b =~= a);
        assert(sql_quote(a) + sql_quote(b) =~= sql_quote(a));
    } else {
        lemma_quote_concat(a, b.drop_last());
        assert((a + b).drop_last() =~= a + b.drop_last());
        if b.last() == '\'' {
            assert(sql_quote(a) + sql_quote(b) =~= sql_quote(a) + sql_quote(b.drop_last()) + seq!['\'', '\'']);
        } else {
            assert(sql_quote(a) + sql_quote(b) =~= (sql_quote(a) + sql_quote(b.drop_last())).push(b.last()));
        }
    }
}

/// A quoted value reads back as itself: quoting loses nothing, so a value
/// can never end the SQL string it is placed in.
pub proof fn law_sql_quote_round_trip(s: Seq<char>)
    ensures
        sql_unquote(sql_quote(s)) == s,
    decreases s.len(),
{
    if s.len() > 0 {
        let head = seq![s[0]];
        let tail = s.drop_first();
        assert(s =~= head + tail);
        lemma_quote_concat(head, tail);
        law_sql_quote_round_trip(tail);
        let q = sql_quote(s);
        assert(head.drop_last() =~= Seq::<char>::empty());
        assert(sql_quote(head.drop_last()) == Seq::<char>::empty());
        assert(head.last() == s[0]);
        if s[0] == '\'' {
            assert(sql_quote(head) =~= seq!['\'', '\'']);
            assert(q.skip(2) =~= sql_quote(tail));
            assert(q =~= seq!['\'', '\''] + sql_quote(tail));
            assert(q[0] == '\'' && q[1] == '\'');
        } else {
            assert(sql_quote(head) =~= seq![s[0]]);
            assert(q =~= seq![s[0]] + sql_quote(tail));
            assert(q.drop_first() =~= sql_quote(tail));
            if q.len() >= 2 {
                assert(q[0] == s[0]);
            }
        }
        assert(sql_unquote(q) =~= s);
    }
}

} // verus!
