//! URL redirects of hosting accounts: the source path stored for a rule,
//! and the checks on a new rule.
use vstd::prelude::*;
use crate::error::{ApiError, is_error};
use crate::text::{chars_of, contains_seq, contains_vec, string_of, trim, trim_str};

verus! {

/// A redirect as its owner sees it.
pub struct Redirect {
    pub id: i64,
    pub account_id: i64,
    pub domain_id: Option<i64>,
    pub domain: Option<String>,
    pub from_path: String,
    pub to_url: String,
    pub permanent: bool,
    pub status: String,
    pub created_at: String,
}

/// A redirect with its owner's username.
pub struct RedirectAdmin {
    pub id: i64,
    pub account_id: i64,
    pub username: String,
    pub domain_id: Option<i64>,
    pub domain: Option<String>,
    pub from_path: String,
    pub to_url: String,
    pub permanent: bool,
    pub status: String,
    pub created_at: String,
}

/// An admin's request to add a redirect.
pub struct CreateRedirect {
    pub account_id: i64,
    pub domain_id: Option<i64>,
    pub from_path: Option<String>,
    pub to_url: String,
    pub permanent: Option<bool>,
}

/// A client's request to add a redirect.
pub struct ClientCreateRedirect {
    pub domain_id: Option<i64>,
    pub from_path: Option<String>,
    pub to_url: String,
    pub permanent: Option<bool>,
}

/// The source path stored for a rule: trimmed (`/` where none is given);
/// `/` where empty; with a leading `/` added where it has none.
pub open spec fn normalized_from(path: Option<Seq<char>>) -> Seq<char> {
    let p = trim(match path {
        Some(p) => p,
        None => seq!['/'],
    });
    if p.len() == 0 {
        seq!['/']
    } else if p[0] != '/' {
        seq!['/'] + p
    } else {
        p
    }
}

pub fn normalize_from_path(path: Option<&str>) -> (r: String)
    ensures
        r@ == normalized_from(match path {
            Some(p) => Some(p@),
            None => None,
        }),
{
    let raw: Vec<char> = match path {
        Some(p) => chars_of(p),
        None => {
            let mut v: Vec<char> = Vec::new();
            v.push('/');
            v
        },
    };
    let p = crate::text::trim_chars(&raw);
    if p.len() == 0 {
        let mut v: Vec<char> = Vec::new();
        v.push('/');
        return string_of(&v);
    }
    if p[0] != '/' {
        let mut v: Vec<char> = Vec::new();
        v.push('/');
        crate::text::extend_chars(&mut v, &p);
        string_of(&v)
    } else {
        string_of(&p)
    }
}

/// A rule without a domain applies to every domain of the account, so it
/// must name a path other than `/`.
pub open spec fn path_only(from_path: Option<Seq<char>>) -> bool {
    match from_path {
        None => true,
        Some(p) => trim(p).len() == 0 || trim(p) == seq!['/'],
    }
}

pub fn check_scope(domain_id: Option<i64>, from_path: Option<&str>) -> (r: Result<(), ApiError>)
    ensures
        (domain_id is None && path_only(match from_path {
            Some(p) => Some(p@),
            None => None,
        })) ==> (r matches Err(e) && is_error(e, 400, "from_path must be specified when no domain is selected"@)),
        !(domain_id is None && path_only(match from_path {
            Some(p) => Some(p@),
            None => None,
        })) ==> r is Ok,
{
    let only = match from_path {
        None => true,
        Some(p) => {
            let t = trim_str(p);
            let s = t.len() == 0 || (t.len() == 1 && t[0] == '/');
            proof {
                if t@.len() == 1 && t@[0] == '/' {
                    assert(t@ =~= seq!['/']);
                }
            }
            s
        },
    };
    if domain_id.is_none() && only {
        Err(ApiError::new(400, "from_path must be specified when no domain is selected"))
    } else {
        Ok(())
    }
}

/// A rule needs a target; the trimmed target is stored.
pub fn check_target(to_url: &str) -> (r: Result<String, ApiError>)
    ensures
        trim(to_url@).len() == 0 ==> (r matches Err(e) && is_error(e, 400, "to_url is required"@)),
        trim(to_url@).len() > 0 ==> (r matches Ok(t) && t@ == trim(to_url@)),
{
    let t = trim_str(to_url);
    if t.len() == 0 {
        Err(ApiError::new(400, "to_url is required"))
    } else {
        Ok(string_of(&t))
    }
}

/// A failed insert of a rule: a duplicate (409) or a domain that does not
/// exist (400); other database errors are not decided here.
pub fn insert_conflict(db_error: &str) -> (r: Option<ApiError>)
    ensures
        contains_seq(db_error@, "UNIQUE"@) ==> (r matches Some(e) && is_error(
            e,
            409,
            "A redirect for this domain/path already exists"@,
        )),
        !contains_seq(db_error@, "UNIQUE"@) && contains_seq(db_error@, "FOREIGN KEY"@) ==> (r matches Some(e)
            && is_error(e, 400, "Referenced domain does not exist"@)),
        !contains_seq(db_error@, "UNIQUE"@) && !contains_seq(db_error@, "FOREIGN KEY"@) ==> r is None,
{
    let c = chars_of(db_error);
    if contains_vec(&c, &chars_of("UNIQUE")) {
        Some(ApiError::new(409, "A redirect for this domain/path already exists"))
    } else if contains_vec(&c, &chars_of("FOREIGN KEY")) {
        Some(ApiError::new(400, "Referenced domain does not exist"))
    } else {
        None
    }
}

/// A stored path is already in normal form: normalising it again changes
/// nothing; and it always starts with `/`.
pub proof fn law_normalize_idempotent(path: Option<Seq<char>>)
    ensures
        normalized_from(Some(normalized_from(path))) == normalized_from(path),
        normalized_from(path).len() > 0 && normalized_from(path)[0] == '/',
{
    let raw = match path {
        Some(p) => p,
        None => seq!['/'],
    };
    let p = trim(raw);
    crate::text::lemma_trim_shape(raw);
    if p.len() == 0 {
        lemma_trim_fixed(seq!['/']);
    } else if p[0] != '/' {
        lemma_trim_prefix(p);
    } else {
        lemma_trim_fixed(p);
    }
}

proof fn lemma_trim_fixed(s: Seq<char>)
    requires
        s.len() > 0,
        !crate::text::is_ws(s[0]),
        !crate::text::is_ws(s.last()),
    ensures
        trim(s) == s,
{
    assert(crate::text::trim_start(s) == s);
    assert(crate::text::trim_end(s) == s);
}

proof fn lemma_trim_prefix(p: Seq<char>)
    requires
        p.len() > 0,
        !crate::text::is_ws(p[0]),
        !crate::text::is_ws(p.last()),
    ensures
        trim(seq!['/'] + p) == seq!['/'] + p,
{
    let s = seq!['/'] + p;
    assert(s.last() == p.last());
    lemma_trim_fixed(s);
}

} // verus!
