//! Mail of hosting accounts: which local parts and forwarding addresses are
//! accepted, and the values stored for mailboxes, forwarders,
//! autoresponders and a domain's default address.
use vstd::prelude::*;
use crate::error::{ApiError, is_error};
use crate::provision::{MailAccount, MailAutoresponder, MailDefault, MailForwarder, MailProvision};
use crate::text::{
    all_in_class, chars_eq, chars_of, contains_char, extend_chars, extend_str, in_class, split_char,
    split_on, split_once, split_once_on, string_of, to_lowercase, trim, trim_chars, trim_str,
    unicode_lower, utf8_len, utf8_len_at_least,
};

verus! {

/// A mailbox as its owner sees it.
pub struct EmailAccount {
    pub id: i64,
    pub account_id: i64,
    pub domain_id: i64,
    pub domain: String,
    pub local: String,
    pub address: String,
    pub forward_to: Option<String>,
    pub quota_mb: i64,
    pub status: String,
}

/// A mailbox with its owner's username, as the admin lists it.
pub struct EmailAccountAdmin {
    pub id: i64,
    pub account_id: i64,
    pub username: String,
    pub domain_id: i64,
    pub domain: String,
    pub local: String,
    pub address: String,
    pub forward_to: Option<String>,
    pub quota_mb: i64,
    pub status: String,
}

/// A forwarder as its owner sees it.
pub struct Forwarder {
    pub id: i64,
    pub account_id: i64,
    pub domain_id: i64,
    pub domain: String,
    pub from: String,
    pub to: String,
    pub status: String,
}

/// A forwarder with its owner's username.
pub struct ForwarderAdmin {
    pub id: i64,
    pub account_id: i64,
    pub username: String,
    pub domain_id: i64,
    pub domain: String,
    pub from: String,
    pub to: String,
    pub status: String,
}

/// An autoresponder as its owner sees it.
pub struct Autoresponder {
    pub id: i64,
    pub account_id: i64,
    pub domain_id: i64,
    pub domain: String,
    pub local: String,
    pub address: String,
    pub subject: String,
    pub body: String,
    pub start_date: Option<String>,
    pub end_date: Option<String>,
    pub status: String,
}

/// An autoresponder with its owner's username.
pub struct AutoresponderAdmin {
    pub id: i64,
    pub account_id: i64,
    pub username: String,
    pub domain_id: i64,
    pub domain: String,
    pub local: String,
    pub address: String,
    pub subject: String,
    pub body: String,
    pub start_date: Option<String>,
    pub end_date: Option<String>,
    pub status: String,
}

/// What happens to mail for unknown addresses of a domain.
pub struct DefaultAddr {
    pub id: i64,
    pub account_id: i64,
    pub domain_id: i64,
    pub domain: String,
    pub action: String,
    pub forward_to: Option<String>,
}

/// The default address with its owner's username.
pub struct DefaultAddrAdmin {
    pub id: i64,
    pub account_id: i64,
    pub username: String,
    pub domain_id: i64,
    pub domain: String,
    pub action: String,
    pub forward_to: Option<String>,
}

/// A request to create a mailbox.
pub struct CreateAccount {
    pub domain_id: i64,
    pub local: String,
    pub password: String,
    pub quota_mb: Option<i64>,
    pub forward_to: Option<String>,
    pub account_id: Option<i64>,
}

/// A request to change a mailbox's password.
pub struct ChangePassword {
    pub password: String,
}

/// A request to create a forwarder.
pub struct CreateForwarder {
    pub domain_id: i64,
    pub from: String,
    pub to: String,
    pub account_id: Option<i64>,
}

/// A request to create an autoresponder.
pub struct CreateAutoresponder {
    pub domain_id: i64,
    pub local: String,
    pub subject: String,
    pub body: Option<String>,
    pub start_date: Option<String>,
    pub end_date: Option<String>,
    pub account_id: Option<i64>,
}

/// A request to set a domain's default address.
pub struct DefaultBody {
    pub domain_id: i64,
    pub action: String,
    pub forward_to: Option<String>,
    pub account_id: Option<i64>,
}

/// The query of an admin's listing.
pub struct AdminPathQ {
    pub account_id: Option<i64>,
}

// ================================================================ addresses

/// A local part (trimmed): 1 to 64 bytes of ASCII letters, digits, `.`, `_`
/// and `-`, not starting or ending with `.`.
pub open spec fn valid_local_spec(s: Seq<char>) -> bool {
    &&& s.len() > 0
    &&& utf8_len(s) <= 64
    &&& s[0] != '.'
    &&& s.last() != '.'
    &&& all_in_class(s, seq!['.', '_', '-'])
}

pub open spec fn local_message() -> Seq<char> {
    "Invalid email local part: letters, numbers, . _ - only (max 64)"@
}

/// Checks a local part; the trimmed, lower-cased part is stored.
pub fn valid_local(s: &str) -> (r: Result<String, ApiError>)
    ensures
        valid_local_spec(trim(s@)) ==> (r matches Ok(l) && l@ == unicode_lower(trim(s@))),
        !valid_local_spec(trim(s@)) ==> (r matches Err(e) && is_error(e, 400, local_message())),
{
    let t = trim_str(s);
    let mut extra: Vec<char> = Vec::new();
    extra.push('.');
    extra.push('_');
    extra.push('-');
    assert(extra@ =~= seq!['.', '_', '-']);
    if t.len() == 0 || utf8_len_at_least(&t, 65) || t[0] == '.' || t[t.len() - 1] == '.' || !in_class(&t, &extra) {
        return Err(ApiError::new(400, "Invalid email local part: letters, numbers, . _ - only (max 64)"));
    }
    Ok(to_lowercase(string_of(&t).as_str()))
}

/// `local@domain`.
pub open spec fn address_of(local: Seq<char>, domain: Seq<char>) -> Seq<char> {
    local + seq!['@'] + domain
}

pub fn address(local: &str, domain: &str) -> (r: String)
    ensures
        r@ == address_of(local@, domain@),
{
    let mut v = chars_of(local);
    v.push('@');
    extend_str(&mut v, domain);
    string_of(&v)
}

/// Why a forwarder's source address is refused, if it is: it must hold an
/// `@`, and what follows the first `@` must be the domain; then its local
/// part must be valid.
pub open spec fn forward_address_refusal(domain: Seq<char>, raw: Seq<char>) -> Option<Seq<char>> {
    let r = unicode_lower(trim(raw));
    match split_once(r, '@') {
        None => Some("Forwarder address must be an email address with @"@),
        Some((local, dom)) => if dom != domain {
            Some("Forwarder address must be on this domain"@)
        } else if !valid_local_spec(trim(local)) {
            Some(local_message())
        } else {
            None
        },
    }
}

/// The source address of a forwarder on `domain`.
pub fn forward_address(domain: &str, raw: &str) -> (r: Result<String, ApiError>)
    ensures
        match forward_address_refusal(domain@, raw@) {
            Some(msg) => r matches Err(e) && is_error(e, 400, msg),
            None => r matches Ok(a) && a@ == address_of(
                unicode_lower(trim(split_once(unicode_lower(trim(raw@)), '@').unwrap().0)),
                domain@,
            ),
        },
{
    let low = to_lowercase(string_of(&trim_str(raw)).as_str());
    match split_once_on(&chars_of(low.as_str()), '@') {
        None => Err(ApiError::new(400, "Forwarder address must be an email address with @")),
        Some((local, dom)) => {
            if !chars_eq(&dom, &chars_of(domain)) {
                return Err(ApiError::new(400, "Forwarder address must be on this domain"));
            }
            match valid_local(string_of(&local).as_str()) {
                Err(e) => Err(e),
                Ok(l) => Ok(address(l.as_str(), domain)),
            }
        },
    }
}

/// The destinations of a forwarding list: the comma-separated parts,
/// trimmed and lower-cased, empty ones left out.
pub open spec fn dest_parts(ps: Seq<Seq<char>>) -> Seq<Seq<char>>
    decreases ps.len(),
{
    if ps.len() == 0 {
        Seq::empty()
    } else {
        let p = unicode_lower(trim(ps.last()));
        if p.len() == 0 {
            dest_parts(ps.drop_last())
        } else {
            dest_parts(ps.drop_last()).push(p)
        }
    }
}

/// A destination must hold an `@`, neither first nor last.
pub open spec fn bad_dest(p: Seq<char>) -> bool {
    !p.contains('@') || p[0] == '@' || p.last() == '@'
}

/// The index of the first bad destination, or -1.
pub open spec fn first_bad(ps: Seq<Seq<char>>) -> int
    decreases ps.len(),
{
    if ps.len() == 0 {
        -1
    } else if bad_dest(ps[0]) {
        0
    } else {
        let k = first_bad(ps.drop_first());
        if k < 0 {
            -1
        } else {
            k + 1
        }
    }
}

proof fn lemma_first_bad(ps: Seq<Seq<char>>)
    ensures
        -1 <= first_bad(ps) < ps.len(),
        first_bad(ps) < 0 ==> forall|i: int| 0 <= i < ps.len() ==> !bad_dest(#[trigger] ps[i]),
    decreases ps.len(),
{
    if ps.len() > 0 {
        lemma_first_bad(ps.drop_first());
        if first_bad(ps) < 0 {
            assert forall|i: int| 0 <= i < ps.len() implies !bad_dest(#[trigger] ps[i]) by {
                if i > 0 {
                    assert(ps[i] == ps.drop_first()[i - 1]);
                }
            }
        }
    }
}

/// The list joined with `,`.
pub open spec fn join_commas(ps: Seq<Seq<char>>) -> Seq<char>
    decreases ps.len(),
{
    if ps.len() == 0 {
        Seq::empty()
    } else if ps.len() == 1 {
        ps[0]
    } else {
        join_commas(ps.drop_last()) + seq![','] + ps.last()
    }
}

/// A forwarding list: its destinations, joined with `,`; 400 where there
/// is none, or for the first that is not an address.
pub fn forward_to(raw: &str) -> (r: Result<String, ApiError>)
    ensures
        ({
            let ps = dest_parts(split_char(raw@, ','));
            if ps.len() == 0 {
                r matches Err(e) && is_error(e, 400, "Forward destination is required"@)
            } else if first_bad(ps) >= 0 {
                r matches Err(e) && is_error(e, 400, "Invalid forward destination: "@ + ps[first_bad(ps)])
            } else {
                r matches Ok(s) && s@ == join_commas(ps)
            }
        }),
{
    let pieces = split_on(&chars_of(raw), ',');
    let ghost sp = split_char(raw@, ',');
    let mut parts: Vec<Vec<char>> = Vec::new();
    let mut i: usize = 0;
    while i < pieces.len()
        invariant
            i <= pieces@.len() == sp.len(),
            sp == split_char(raw@, ','),
            forall|k: int| 0 <= k < pieces@.len() ==> (#[trigger] pieces@[k])@ == sp[k],
            parts@.len() == dest_parts(sp.take(i as int)).len(),
            forall|k: int| 0 <= k < parts@.len() ==> (#[trigger] parts@[k])@ == dest_parts(sp.take(i as int))[k],
        decreases pieces.len() - i,
    {
        assert(sp.take(i + 1).drop_last() =~= sp.take(i as int));
        let p = chars_of(to_lowercase(string_of(&trim_chars(&pieces[i])).as_str()).as_str());
        if p.len() > 0 {
            parts.push(p);
        }
        i += 1;
    }
    assert(sp.take(pieces.len() as int) =~= sp);
    let ghost ps = dest_parts(sp);
    if parts.len() == 0 {
        return Err(ApiError::new(400, "Forward destination is required"));
    }
    proof {
        lemma_first_bad(ps);
    }
    let mut j: usize = 0;
    assert(ps.skip(0) =~= ps);
    while j < parts.len()
        invariant
            j <= parts@.len() == ps.len(),
            ps == dest_parts(split_char(raw@, ',')),
            forall|k: int| 0 <= k < parts@.len() ==> (#[trigger] parts@[k])@ == ps[k],
            first_bad(ps) == (if first_bad(ps.skip(j as int)) < 0 {
                -1
            } else {
                first_bad(ps.skip(j as int)) + j
            }),
        decreases parts.len() - j,
    {
        let ghost rest = ps.skip(j as int);
        assert(rest[0] == ps[j as int]);
        assert(rest.drop_first() =~= ps.skip(j + 1));
        let p = &parts[j];
        if !contains_char(p, '@') || p[0] == '@' || p[p.len() - 1] == '@' {
            assert(bad_dest(ps[j as int]));
            let mut msg = chars_of("Invalid forward destination: ");
            extend_chars(&mut msg, p);
            return Err(ApiError::from_chars(400, &msg));
        }
        j += 1;
    }
    let mut out: Vec<char> = Vec::new();
    let mut k: usize = 0;
    while k < parts.len()
        invariant
            k <= parts@.len() == ps.len(),
            ps == dest_parts(split_char(raw@, ',')),
            forall|m: int| 0 <= m < parts@.len() ==> (#[trigger] parts@[m])@ == ps[m],
            out@ == join_commas(ps.take(k as int)),
        decreases parts.len() - k,
    {
        assert(ps.take(k + 1).drop_last() =~= ps.take(k as int));
        if k > 0 {
            out.push(',');
        }
        extend_chars(&mut out, &parts[k]);
        proof {
            if k == 0 {
                assert(out@ =~= ps.take(1)[0]);
            }
        }
        k += 1;
    }
    assert(ps.take(parts.len() as int) =~= ps);
    Ok(string_of(&out))
}

/// The destinations of a stored forwarder, for the mail server: the
/// comma-separated parts, trimmed, empty ones left out.
pub open spec fn stored_targets(ps: Seq<Seq<char>>) -> Seq<Seq<char>>
    decreases ps.len(),
{
    if ps.len() == 0 {
        Seq::empty()
    } else if trim(ps.last()).len() == 0 {
        stored_targets(ps.drop_last())
    } else {
        stored_targets(ps.drop_last()).push(trim(ps.last()))
    }
}

pub fn forward_targets(to: &str) -> (r: Vec<String>)
    ensures
        r@.map_values(|s: String| s@) == stored_targets(split_char(to@, ',')),
{
    let pieces = split_on(&chars_of(to), ',');
    let ghost sp = split_char(to@, ',');
    let mut out: Vec<String> = Vec::new();
    let mut i: usize = 0;
    while i < pieces.len()
        invariant
            i <= pieces@.len() == sp.len(),
            forall|k: int| 0 <= k < pieces@.len() ==> (#[trigger] pieces@[k])@ == sp[k],
            out@.map_values(|s: String| s@) == stored_targets(sp.take(i as int)),
        decreases pieces.len() - i,
    {
        assert(sp.take(i + 1).drop_last() =~= sp.take(i as int));
        let ghost before = out@.map_values(|s: String| s@);
        let t = trim_chars(&pieces[i]);
        if t.len() > 0 {
            out.push(string_of(&t));
            assert(out@.map_values(|s: String| s@) =~= before.push(t@));
        }
        i += 1;
    }
    assert(sp.take(pieces.len() as int) =~= sp);
    out
}

// ================================================================ stored values

/// A mailbox's quota: the one asked for where it is positive, else 256 MB.
pub fn mailbox_quota(quota_mb: Option<i64>) -> (q: i64)
    ensures
        q == (match quota_mb {
            Some(v) => if v > 0 {
                v
            } else {
                256
            },
            None => 256,
        }),
{
    let q = match quota_mb {
        Some(v) => v,
        None => 256,
    };
    if q > 0 {
        q
    } else {
        256
    }
}

/// A mailbox password needs at least 6 bytes.
pub fn check_mail_password(password: &str) -> (r: Result<(), ApiError>)
    ensures
        utf8_len(password@) >= 6 ==> r is Ok,
        utf8_len(password@) < 6 ==> (r matches Err(e) && is_error(
            e,
            400,
            "Password must be at least 6 characters"@,
        )),
{
    crate::databases::check_db_password(password)
}

/// An autoresponder needs a subject that is not blank; the trimmed subject is stored.
pub fn check_subject(subject: &str) -> (r: Result<String, ApiError>)
    ensures
        trim(subject@).len() == 0 ==> (r matches Err(e) && is_error(e, 400, "Subject is required"@)),
        trim(subject@).len() > 0 ==> (r matches Ok(s) && s@ == trim(subject@)),
{
    let t = trim_str(subject);
    if t.len() == 0 {
        Err(ApiError::new(400, "Subject is required"))
    } else {
        Ok(string_of(&t))
    }
}

/// The actions for unknown addresses.
pub open spec fn default_action_ok(a: Seq<char>) -> bool {
    a == "discard"@ || a == "blackhole"@ || a == "forward"@
}

/// The default address of a domain: the action lower-cased and known, and
/// for `forward` the forwarding list (lower-cased again).
pub fn default_setting(action: &str, forward: Option<&str>) -> (r: Result<(String, Option<String>), ApiError>)
    ensures
        ({
            let a = unicode_lower(action@);
            if !default_action_ok(a) {
                r matches Err(e) && is_error(e, 400, "action must be discard, blackhole or forward"@)
            } else if a == "forward"@ {
                let ps = dest_parts(split_char(
                    match forward {
                        Some(f) => f@,
                        None => Seq::empty(),
                    },
                    ',',
                ));
                if ps.len() == 0 {
                    r matches Err(e) && is_error(e, 400, "Forward destination is required"@)
                } else if first_bad(ps) >= 0 {
                    r matches Err(e) && is_error(e, 400, "Invalid forward destination: "@ + ps[first_bad(ps)])
                } else {
                    r matches Ok((act, Some(to))) && act@ == a && to@ == unicode_lower(join_commas(ps))
                }
            } else {
                r matches Ok((act, None)) && act@ == a
            }
        }),
{
    let a = to_lowercase(action);
    let ac = chars_of(a.as_str());
    let is_forward = chars_eq(&ac, &chars_of("forward"));
    if !(chars_eq(&ac, &chars_of("discard")) || chars_eq(&ac, &chars_of("blackhole")) || is_forward) {
        return Err(ApiError::new(400, "action must be discard, blackhole or forward"));
    }
    if is_forward {
        let f: String = match forward {
            Some(f) => string_of(&chars_of(f)),
            None => String::new(),
        };
        match forward_to(f.as_str()) {
            Err(e) => Err(e),
            Ok(list) => Ok((a, Some(to_lowercase(list.as_str())))),
        }
    } else {
        Ok((a, None))
    }
}

// ================================================================ the mail server's descriptor

/// The forwarders of a domain as the mail server reads them: each stored
/// row `(from, to)` with its destinations split out.
pub open spec fn forwarders_spec(rows: Seq<(String, String)>, fs: Seq<MailForwarder>) -> bool {
    &&& fs.len() == rows.len()
    &&& forall|i: int|
        0 <= i < rows.len() ==> (#[trigger] fs[i]).from@ == rows[i].0@ && fs[i].to@.map_values(|s: String| s@)
            == stored_targets(split_char(rows[i].1@, ','))
}

/// The mail descriptor of a domain from its active rows: mailboxes,
/// forwarders (destinations split out), autoresponders and the default
/// address, all as read.
pub fn mail_provision(
    domain: &str,
    accounts: Vec<MailAccount>,
    forwarder_rows: &Vec<(String, String)>,
    autoresponders: Vec<MailAutoresponder>,
    default: Option<MailDefault>,
) -> (p: MailProvision)
    ensures
        p.domain@ == domain@,
        p.accounts@ == accounts@,
        forwarders_spec(forwarder_rows@, p.forwarders@),
        p.autoresponders@ == autoresponders@,
        p.default == default,
{
    let mut fs: Vec<MailForwarder> = Vec::new();
    let mut i: usize = 0;
    while i < forwarder_rows.len()
        invariant
            i <= forwarder_rows@.len(),
            fs@.len() == i,
            forall|k: int|
                0 <= k < i ==> (#[trigger] fs@[k]).from@ == forwarder_rows@[k].0@ && fs@[k].to@.map_values(
                    |s: String| s@,
                ) == stored_targets(split_char(forwarder_rows@[k].1@, ',')),
        decreases forwarder_rows.len() - i,
    {
        let from = string_of(&chars_of(forwarder_rows[i].0.as_str()));
        let to = forward_targets(forwarder_rows[i].1.as_str());
        fs.push(MailForwarder { from, to });
        i += 1;
    }
    MailProvision { domain: string_of(&chars_of(domain)), accounts, forwarders: fs, autoresponders, default }
}

/// The destinations handed to the mail server are never blank and carry
/// no surrounding whitespace, whatever was stored.
pub proof fn law_targets_clean(ps: Seq<Seq<char>>)
    ensures
        forall|i: int|
            0 <= i < stored_targets(ps).len() ==> (#[trigger] stored_targets(ps)[i]).len() > 0 && trim(
                stored_targets(ps)[i],
            ) == stored_targets(ps)[i],
    decreases ps.len(),
{
    if ps.len() > 0 {
        law_targets_clean(ps.drop_last());
        crate::text::lemma_trim_idempotent(ps.last());
        let prev = stored_targets(ps.drop_last());
        let cur = stored_targets(ps);
        assert forall|i: int| 0 <= i < cur.len() implies (#[trigger] cur[i]).len() > 0 && trim(cur[i]) == cur[i] by {
            if i < prev.len() {
                assert(cur[i] == prev[i]);
            }
        }
    }
}

} // verus!
