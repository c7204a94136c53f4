//! Domains of hosting accounts: which names are valid, which kinds a client
//! may create, where a subdomain may be added, and the package's domain limit.
use vstd::prelude::*;
use crate::error::{ApiError, is_error};
use crate::text::{
    all_in_class, chars_eq, chars_of, contains_char, dec_int, dec_i64, ends_with, extend_chars,
    extend_str, in_class, split_char, split_on, string_of, to_lowercase, trim, trim_str,
    unicode_lower, utf8_len, utf8_len_at_least, vec_ends_with,
};

verus! {

/// A domain as stored.
pub struct Domain {
    pub id: i64,
    pub account_id: i64,
    pub name: String,
    pub kind: String,
    pub status: String,
    pub created_at: String,
}

/// A domain with its owner and document root, as the admin lists it.
pub struct DomainAdmin {
    pub id: i64,
    pub account_id: i64,
    pub username: String,
    pub name: String,
    pub kind: String,
    pub status: String,
    pub created_at: String,
    pub docroot: String,
}

/// A domain with its document root, as its owner lists it.
pub struct DomainClient {
    pub id: i64,
    pub account_id: i64,
    pub name: String,
    pub kind: String,
    pub status: String,
    pub created_at: String,
    pub docroot: String,
}

/// An admin's request to add a domain to an account.
pub struct CreateDomain {
    pub account_id: i64,
    pub name: String,
    pub kind: Option<String>,
}

/// A client's request to add a domain to its own account.
pub struct ClientCreateDomain {
    pub name: String,
    pub kind: Option<String>,
}

// ================================================================ names

/// One dot-separated label of a host name: 1 to 63 bytes of ASCII letters,
/// digits and `-`, not starting or ending with `-`.
pub open spec fn valid_label(p: Seq<char>) -> bool {
    &&& p.len() > 0
    &&& utf8_len(p) <= 63
    &&& p[0] != '-'
    &&& p.last() != '-'
    &&& all_in_class(p, seq!['-'])
}

/// A host name: 1 to 253 bytes, each label valid.
pub open spec fn valid_domain_spec(name: Seq<char>) -> bool {
    &&& name.len() > 0
    &&& utf8_len(name) <= 253
    &&& forall|i: int| 0 <= i < split_char(name, '.').len() ==> valid_label(#[trigger] split_char(name, '.')[i])
}

fn valid_label_exec(p: &Vec<char>) -> (b: bool)
    ensures
        b == valid_label(p@),
{
    let mut dash: Vec<char> = Vec::new();
    dash.push('-');
    assert(dash@ =~= seq!['-']);
    p.len() > 0 && !utf8_len_at_least(p, 64) && p[0] != '-' && p[p.len() - 1] != '-' && in_class(p, &dash)
}

pub fn valid_domain(name: &str) -> (b: bool)
    ensures
        b == valid_domain_spec(name@),
{
    let cs = chars_of(name);
    if cs.len() == 0 || utf8_len_at_least(&cs, 254) {
        return false;
    }
    let parts = split_on(&cs, '.');
    let mut i: usize = 0;
    while i < parts.len()
        invariant
            i <= parts@.len() == split_char(name@, '.').len(),
            cs@ == name@,
            forall|k: int| 0 <= k < parts@.len() ==> (#[trigger] parts@[k])@ == split_char(name@, '.')[k],
            forall|k: int| 0 <= k < i ==> valid_label(#[trigger] split_char(name@, '.')[k]),
        decreases parts.len() - i,
    {
        if !valid_label_exec(&parts[i]) {
            assert(!valid_label(split_char(name@, '.')[i as int]));
            return false;
        }
        i += 1;
    }
    true
}

/// The form in which a domain name is checked and stored: trimmed and lower-cased.
pub fn normalize_domain(name: &str) -> (r: String)
    ensures
        r@ == unicode_lower(trim(name@)),
{
    to_lowercase(string_of(&trim_str(name)).as_str())
}

// ================================================================ kinds

/// The kinds of domain: `main`, `sub`, `alias` and `addon`.
pub open spec fn valid_kind(k: Seq<char>) -> bool {
    k == "main"@ || k == "sub"@ || k == "alias"@ || k == "addon"@
}

proof fn lemma_kind_names()
    ensures
        "main"@.len() == 4 && "sub"@.len() == 3 && "alias"@.len() == 5 && "addon"@.len() == 5,
        "alias"@[1] == 'l' && "addon"@[1] == 'd',
{
    reveal_strlit("main");
    reveal_strlit("sub");
    reveal_strlit("alias");
    reveal_strlit("addon");
}

/// The kind a client's request asks for: `sub` stays `sub`; `main`, `addon`
/// or none give `addon` (a client's further domains are addons); any other
/// is refused with 400.
pub fn client_kind(kind: Option<&str>) -> (r: Result<String, ApiError>)
    ensures
        match kind {
            Some(k) => if k@ == "sub"@ {
                r matches Ok(s) && s@ == "sub"@
            } else if k@ == "main"@ || k@ == "addon"@ {
                r matches Ok(s) && s@ == "addon"@
            } else {
                r matches Err(e) && is_error(e, 400, "Unsupported kind: "@ + k@)
            },
            None => r matches Ok(s) && s@ == "addon"@,
        },
{
    proof {
        lemma_kind_names();
    }
    match kind {
        Some(k) => {
            let kv = chars_of(k);
            if chars_eq(&kv, &chars_of("sub")) {
                Ok("sub".to_string())
            } else if chars_eq(&kv, &chars_of("main")) || chars_eq(&kv, &chars_of("addon")) {
                Ok("addon".to_string())
            } else {
                let mut msg = chars_of("Unsupported kind: ");
                extend_chars(&mut msg, &kv);
                Err(ApiError::from_chars(400, &msg))
            }
        },
        None => Ok("addon".to_string()),
    }
}

/// The first checks on a new domain, before the account's domains are
/// consulted: the kind (default `main`) must be known, and the normalised
/// name valid.  The normalised name is returned.
pub fn check_domain_name(name: &str, kind: Option<&str>) -> (r: Result<String, ApiError>)
    ensures
        !valid_kind(match kind {
            Some(k) => k@,
            None => "main"@,
        }) ==> (r matches Err(e) && is_error(e, 400, "Kind must be main, sub, alias or addon"@)),
        valid_kind(match kind {
            Some(k) => k@,
            None => "main"@,
        }) ==> if valid_domain_spec(unicode_lower(trim(name@))) {
            r matches Ok(n) && n@ == unicode_lower(trim(name@))
        } else {
            r matches Err(e) && is_error(e, 400, "Invalid domain name"@)
        },
{
    let n = normalize_domain(name);
    let k = match kind {
        Some(k) => chars_of(k),
        None => chars_of("main"),
    };
    let known = chars_eq(&k, &chars_of("main")) || chars_eq(&k, &chars_of("sub")) || chars_eq(
        &k,
        &chars_of("alias"),
    ) || chars_eq(&k, &chars_of("addon"));
    if !known {
        return Err(ApiError::new(400, "Kind must be main, sub, alias or addon"));
    }
    if !valid_domain(n.as_str()) {
        return Err(ApiError::new(400, "Invalid domain name"));
    }
    Ok(n)
}

/// A subdomain request (kind `sub`, with a dot in the name) needs the
/// account's own active domains to check against.
pub fn needs_owner_check(name: &str, kind: Option<&str>) -> (b: bool)
    ensures
        b == (kind matches Some(k) && k@ == "sub"@ && name@.contains('.')),
{
    match kind {
        Some(k) => chars_eq(&chars_of(k), &chars_of("sub")) && contains_char(&chars_of(name), '.'),
        None => false,
    }
}

/// `name` lies under one of the `owned` domains: it ends with `.` and that
/// domain, and is not the domain itself.
pub open spec fn under_owned(name: Seq<char>, owned: Seq<String>) -> bool {
    exists|i: int| 0 <= i < owned.len() && ends_with(name, seq!['.'] + (#[trigger] owned[i])@) && name != owned[i]@
}

pub fn check_subdomain(name: &str, owned: &Vec<String>) -> (r: Result<(), ApiError>)
    ensures
        under_owned(name@, owned@) ==> r is Ok,
        !under_owned(name@, owned@) ==> (r matches Err(e) && is_error(
            e,
            400,
            "Subdomain must be under a domain owned by this account"@,
        )),
{
    let nv = chars_of(name);
    let mut i: usize = 0;
    while i < owned.len()
        invariant
            i <= owned@.len(),
            nv@ == name@,
            forall|j: int| 0 <= j < i ==> !(ends_with(name@, seq!['.'] + (#[trigger] owned@[j])@) && name@ != owned@[j]@),
        decreases owned.len() - i,
    {
        let d = chars_of(owned[i].as_str());
        let mut suffix: Vec<char> = Vec::new();
        suffix.push('.');
        extend_chars(&mut suffix, &d);
        assert(suffix@ =~= seq!['.'] + owned@[i as int]@);
        if vec_ends_with(&nv, &suffix) && !chars_eq(&nv, &d) {
            return Ok(());
        }
        i += 1;
    }
    Err(ApiError::new(400, "Subdomain must be under a domain owned by this account"))
}

/// The package's domain limit: a missing account is 404; an account that
/// already uses `limit` or more active domains gets 409.
pub fn check_domain_limit(limit: Option<i64>, used: i64) -> (r: Result<(), ApiError>)
    ensures
        match limit {
            None => r matches Err(e) && is_error(e, 404, "Account not found"@),
            Some(l) => if used >= l {
                r matches Err(e) && is_error(
                    e,
                    409,
                    "Domain limit reached ("@ + dec_int(used as int) + seq!['/'] + dec_int(l as int) + seq![')'],
                )
            } else {
                r is Ok
            },
        },
{
    match limit {
        None => Err(ApiError::new(404, "Account not found")),
        Some(l) => {
            if used >= l {
                let mut msg = chars_of("Domain limit reached (");
                extend_chars(&mut msg, &dec_i64(used));
                msg.push('/');
                extend_chars(&mut msg, &dec_i64(l));
                msg.push(')');
                assert(msg@ =~= "Domain limit reached ("@ + dec_int(used as int) + seq!['/'] + dec_int(l as int)
                    + seq![')']);
                Err(ApiError::from_chars(409, &msg))
            } else {
                Ok(())
            }
        },
    }
}

} // verus!
