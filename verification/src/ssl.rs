//! TLS certificates of domains: reading what `openssl` reports about a
//! certificate, which names it covers, and the checks and messages around
//! importing, generating and renewing one.
use vstd::prelude::*;
use chrono::TimeZone;
use crate::error::{ApiError, is_error};
use crate::text::{
    chars_eq, chars_of, dec_int, dec_i64, extend_chars, extend_str, find_seq, first_occurrence, lines,
    lines_of, slice_vec, split_char, split_on, starts_with, string_of, to_lowercase, trim, trim_chars,
    trim_end_char, trim_str, unicode_lower, vec_starts_with, words,
};

verus! {

/// A domain with its certificate, as its owner lists it.
pub struct SslRow {
    pub domain_id: i64,
    pub account_id: i64,
    pub domain: String,
    pub kind: String,
    pub cert_id: Option<i64>,
    pub issuer: Option<String>,
    pub valid_from: Option<String>,
    pub valid_to: Option<String>,
    pub days_left: Option<i64>,
    pub status: String,
}

/// A domain with its certificate and owner, as the admin lists it.
pub struct SslRowAdmin {
    pub domain_id: i64,
    pub account_id: i64,
    pub username: String,
    pub domain: String,
    pub kind: String,
    pub cert_id: Option<i64>,
    pub issuer: Option<String>,
    pub valid_from: Option<String>,
    pub valid_to: Option<String>,
    pub days_left: Option<i64>,
    pub status: String,
}

/// A request to import a certificate.
pub struct ImportCert {
    pub domain_id: i64,
    pub cert: String,
    pub key: String,
    pub ca: Option<String>,
    pub account_id: Option<i64>,
}

/// A request to generate a self-signed certificate.
pub struct GenerateCert {
    pub domain_id: i64,
    pub days: Option<i64>,
    pub account_id: Option<i64>,
}

/// The query of an admin's listing.
pub struct AdminPathQ {
    pub account_id: Option<i64>,
}

/// A request to issue certificates from Let's Encrypt.
pub struct AutoSsl {
    pub account_id: Option<i64>,
    pub domain_id: Option<i64>,
}

/// The outcome of issuing a certificate for one domain.
pub struct AutoResult {
    pub domain: String,
    pub ok: bool,
    pub message: String,
}

/// A certificate's issuer and period, in RFC 3339.
#[derive(Debug)]
pub struct CertMeta {
    pub issuer: String,
    pub valid_from: String,
    pub valid_to: String,
}

/// The row of a domain with its owner's username.
pub fn to_admin(aid: i64, username: String, row: SslRow) -> (r: SslRowAdmin)
    ensures
        r.username == username && r.account_id == aid && r.domain_id == row.domain_id,
        r.domain == row.domain && r.kind == row.kind && r.cert_id == row.cert_id && r.issuer == row.issuer,
        r.valid_from == row.valid_from && r.valid_to == row.valid_to && r.days_left == row.days_left,
        r.status == row.status,
{
    SslRowAdmin {
        username,
        domain_id: row.domain_id,
        account_id: aid,
        domain: row.domain,
        kind: row.kind,
        cert_id: row.cert_id,
        issuer: row.issuer,
        valid_from: row.valid_from,
        valid_to: row.valid_to,
        days_left: row.days_left,
        status: row.status,
    }
}

// ================================================================ names

/// The first position of `,` or `/`, or the length.
pub open spec fn cn_end(s: Seq<char>) -> int
    decreases s.len(),
{
    if s.len() == 0 {
        0
    } else if s[0] == ',' || s[0] == '/' {
        0
    } else {
        cn_end(s.drop_first()) + 1
    }
}

proof fn lemma_cn_end(s: Seq<char>)
    ensures
        0 <= cn_end(s) <= s.len(),
        forall|i: int| 0 <= i < cn_end(s) ==> (#[trigger] s[i]) != ',' && s[i] != '/',
        cn_end(s) < s.len() ==> (s[cn_end(s)] == ',' || s[cn_end(s)] == '/'),
    decreases s.len(),
{
    if s.len() > 0 && !(s[0] == ',' || s[0] == '/') {
        lemma_cn_end(s.drop_first());
        assert forall|i: int| 0 <= i < cn_end(s) implies (#[trigger] s[i]) != ',' && s[i] != '/' by {
            if i > 0 {
                assert(s[i] == s.drop_first()[i - 1]);
            }
        }
    }
}

/// The common name of a subject or issuer line: the text after the first
/// `CN=` up to a `,` or `/`; else after the first `CN =` up to a `,`; else
/// the whole (trimmed) line; trimmed in each case.
pub open spec fn extract_cn_spec(subject: Seq<char>) -> Seq<char> {
    let s = trim(subject);
    let a = first_occurrence(s, "CN="@);
    let b = first_occurrence(s, "CN ="@);
    if a >= 0 {
        let rest = s.skip(a + 3);
        trim(rest.take(cn_end(rest)))
    } else if b >= 0 {
        let rest = s.skip(b + 4);
        let e = if rest.contains(',') { crate::text::first_index_of(rest, ',') } else { rest.len() as int };
        trim(rest.take(e))
    } else {
        s
    }
}

pub fn extract_cn(subject: &str) -> (r: String)
    ensures
        r@ == extract_cn_spec(subject@),
{
    let s = trim_str(subject);
    let cn_eq = chars_of("CN=");
    let cn_sp = chars_of("CN =");
    proof {
        reveal_strlit("CN=");
        reveal_strlit("CN =");
        crate::text::lemma_first_occurrence(s@, "CN="@);
        crate::text::lemma_first_occurrence(s@, "CN ="@);
    }
    match find_seq(&s, &cn_eq) {
        Some(idx) => {
            let rest = slice_vec(&s, idx + 3, s.len());
            assert(rest@ =~= s@.skip(idx + 3));
            proof {
                lemma_cn_end(rest@);
            }
            let mut end: usize = 0;
            while end < rest.len() && rest[end] != ',' && rest[end] != '/'
                invariant
                    end <= rest@.len(),
                    end <= cn_end(rest@),
                    0 <= cn_end(rest@) <= rest@.len(),
                    forall|i: int| 0 <= i < cn_end(rest@) ==> (#[trigger] rest@[i]) != ',' && rest@[i] != '/',
                    cn_end(rest@) < rest@.len() ==> (rest@[cn_end(rest@)] == ',' || rest@[cn_end(rest@)] == '/'),
                decreases rest.len() - end,
            {
                end += 1;
            }
            let piece = slice_vec(&rest, 0, end);
            assert(piece@ =~= rest@.take(end as int));
            string_of(&trim_chars(&piece))
        },
        None => match find_seq(&s, &cn_sp) {
            Some(idx) => {
                let slen = s.len();
                assert(crate::text::occurs_at(s@, cn_sp@, idx as int));
                let rest = slice_vec(&s, idx + 4, slen);
                assert(rest@ =~= s@.skip(idx + 4));
                let end: usize = match crate::text::find_char(&rest, ',') {
                    Some(e) => e,
                    None => rest.len(),
                };
                proof {
                    crate::text::lemma_first_index_of(rest@, ',');
                }
                let piece = slice_vec(&rest, 0, end);
                assert(piece@ =~= rest@.take(end as int));
                string_of(&trim_chars(&piece))
            },
            None => string_of(&s),
        },
    }
}

/// The DNS names of a `subjectAltName` listing, lower-cased, in order.
pub open spec fn san_names(ls: Seq<Seq<char>>) -> Seq<Seq<char>>
    decreases ls.len(),
{
    if ls.len() == 0 {
        Seq::empty()
    } else {
        san_names(ls.drop_last()) + dns_tokens(split_char(ls.last(), ','))
    }
}

/// The `DNS:` tokens of a line, trimmed, without the prefix, lower-cased.
pub open spec fn dns_tokens(toks: Seq<Seq<char>>) -> Seq<Seq<char>>
    decreases toks.len(),
{
    if toks.len() == 0 {
        Seq::empty()
    } else if starts_with(trim(toks.last()), "DNS:"@) {
        dns_tokens(toks.drop_last()).push(unicode_lower(trim(toks.last()).skip(4)))
    } else {
        dns_tokens(toks.drop_last())
    }
}

/// The common names of `subject=` lines, lower-cased, in order.
pub open spec fn subject_names(ls: Seq<Seq<char>>) -> Seq<Seq<char>>
    decreases ls.len(),
{
    if ls.len() == 0 {
        Seq::empty()
    } else if starts_with(trim(ls.last()), "subject="@) {
        subject_names(ls.drop_last()).push(unicode_lower(extract_cn_spec(trim(ls.last()).skip(8))))
    } else {
        subject_names(ls.drop_last())
    }
}

pub open spec fn views(v: Seq<String>) -> Seq<Seq<char>> {
    v.map_values(|s: String| s@)
}

/// The names a certificate is for, from what `openssl x509 -ext
/// subjectAltName` and `openssl x509 -subject` printed (`None` where the
/// command failed): the alternative DNS names, then the subject's common name.
pub fn cert_names(san_out: Option<&str>, subject_out: Option<&str>) -> (r: Vec<String>)
    ensures
        views(r@) == (match san_out {
            Some(o) => san_names(lines(o@)),
            None => Seq::empty(),
        }) + (match subject_out {
            Some(o) => subject_names(lines(o@)),
            None => Seq::empty(),
        }),
{
    let mut names: Vec<String> = Vec::new();
    let ghost first: Seq<Seq<char>> = match san_out {
        Some(o) => san_names(lines(o@)),
        None => Seq::empty(),
    };
    proof {
        reveal_strlit("DNS:");
        reveal_strlit("subject=");
    }
    match san_out {
        Some(o) => {
            let ls = lines_of(&chars_of(o));
            let ghost all = lines(o@);
            let mut i: usize = 0;
            while i < ls.len()
                invariant
                    i <= ls@.len() == all.len(),
                    forall|k: int| 0 <= k < ls@.len() ==> (#[trigger] ls@[k])@ == all[k],
                    views(names@) == san_names(all.take(i as int)),
                    "DNS:"@ =~= seq!['D', 'N', 'S', ':'],
                decreases ls.len() - i,
            {
                assert(all.take(i + 1).drop_last() =~= all.take(i as int));
                let ghost base = views(names@);
                let toks = split_on(&ls[i], ',');
                let ghost ts = split_char(all[i as int], ',');
                let mut j: usize = 0;
                while j < toks.len()
                    invariant
                        j <= toks@.len() == ts.len(),
                        forall|k: int| 0 <= k < toks@.len() ==> (#[trigger] toks@[k])@ == ts[k],
                        views(names@) == base + dns_tokens(ts.take(j as int)),
                        "DNS:"@ =~= seq!['D', 'N', 'S', ':'],
                    decreases toks.len() - j,
                {
                    assert(ts.take(j + 1).drop_last() =~= ts.take(j as int));
                    let ghost before = views(names@);
                    let t = trim_chars(&toks[j]);
                    let mut pre: Vec<char> = Vec::new();
                    pre.push('D');
                    pre.push('N');
                    pre.push('S');
                    pre.push(':');
                    assert(pre@ =~= "DNS:"@);
                    if vec_starts_with(&t, &pre) {
                        let v = slice_vec(&t, 4, t.len());
                        assert(v@ =~= t@.skip(4));
                        names.push(to_lowercase(string_of(&v).as_str()));
                        assert(views(names@) =~= before.push(unicode_lower(t@.skip(4))));
                    }
                    j += 1;
                }
                assert(ts.take(toks.len() as int) =~= ts);
                i += 1;
            }
            assert(all.take(ls.len() as int) =~= all);
        },
        None => {},
    }
    assert(views(names@) =~= first);
    match subject_out {
        Some(o) => {
            let ls = lines_of(&chars_of(o));
            let ghost all = lines(o@);
            let mut i: usize = 0;
            while i < ls.len()
                invariant
                    i <= ls@.len() == all.len(),
                    forall|k: int| 0 <= k < ls@.len() ==> (#[trigger] ls@[k])@ == all[k],
                    views(names@) == first + subject_names(all.take(i as int)),
                    "subject="@.len() == 8,
                decreases ls.len() - i,
            {
                assert(all.take(i + 1).drop_last() =~= all.take(i as int));
                let ghost before = views(names@);
                let t = trim_chars(&ls[i]);
                let pre = chars_of("subject=");
                if vec_starts_with(&t, &pre) {
                    let v = slice_vec(&t, 8, t.len());
                    assert(v@ =~= t@.skip(8));
                    let cn = extract_cn(string_of(&v).as_str());
                    names.push(to_lowercase(cn.as_str()));
                    assert(views(names@) =~= before.push(unicode_lower(extract_cn_spec(t@.skip(8)))));
                }
                i += 1;
            }
            assert(all.take(ls.len() as int) =~= all);
        },
        None => {
            assert(first + Seq::<Seq<char>>::empty() =~= first);
        },
    }
    names
}

// ================================================================ coverage

/// A certificate name covers a domain (both lower-cased): the same name, or
/// a wildcard `*.<rest>` where the domain is one label followed by `.<rest>`.
pub open spec fn covers_spec(identity: Seq<char>, domain: Seq<char>) -> bool {
    let d = unicode_lower(domain);
    let id = unicode_lower(identity);
    if id == d {
        true
    } else if starts_with(id, seq!['*', '.']) {
        let rest = id.skip(2);
        if crate::text::ends_with(d, rest) {
            let p = d.take(d.len() - rest.len());
            p.len() > 0 && p.last() == '.' && split_char(p.drop_last(), '.').len() == 1
        } else {
            false
        }
    } else {
        false
    }
}

pub fn covers(identity: &str, domain: &str) -> (b: bool)
    ensures
        b == covers_spec(identity@, domain@),
{
    let d = chars_of(to_lowercase(domain).as_str());
    let id = chars_of(to_lowercase(identity).as_str());
    if chars_eq(&id, &d) {
        return true;
    }
    let mut star: Vec<char> = Vec::new();
    star.push('*');
    star.push('.');
    assert(star@ =~= seq!['*', '.']);
    if vec_starts_with(&id, &star) {
        let rest = slice_vec(&id, 2, id.len());
        assert(rest@ =~= id@.skip(2));
        if crate::text::vec_ends_with(&d, &rest) {
            let p = slice_vec(&d, 0, d.len() - rest.len());
            assert(p@ =~= d@.take(d@.len() - rest@.len()));
            if p.len() > 0 && p[p.len() - 1] == '.' {
                let inner = slice_vec(&p, 0, p.len() - 1);
                assert(inner@ =~= p@.drop_last());
                let labels = split_on(&inner, '.');
                return labels.len() == 1;
            }
            return false;
        }
        return false;
    }
    false
}

/// Some name of the certificate covers the domain.
pub open spec fn any_covers(names: Seq<String>, domain: Seq<char>) -> bool {
    exists|i: int| 0 <= i < names.len() && covers_spec((#[trigger] names[i])@, domain)
}

/// A certificate that names hosts must cover the domain (400 otherwise);
/// one that names none is not checked.
pub fn check_coverage(names: &Vec<String>, domain: &str) -> (r: Result<(), ApiError>)
    ensures
        (names@.len() > 0 && !any_covers(names@, domain@)) ==> (r matches Err(e) && is_error(
            e,
            400,
            "Certificate does not cover domain "@ + domain@,
        )),
        !(names@.len() > 0 && !any_covers(names@, domain@)) ==> r is Ok,
{
    if names.len() == 0 {
        return Ok(());
    }
    let mut i: usize = 0;
    while i < names.len()
        invariant
            i <= names@.len(),
            forall|k: int| 0 <= k < i ==> !covers_spec((#[trigger] names@[k])@, domain@),
        decreases names.len() - i,
    {
        if covers(names[i].as_str(), domain) {
            return Ok(());
        }
        i += 1;
    }
    let mut m = chars_of("Certificate does not cover domain ");
    extend_str(&mut m, domain);
    Err(ApiError::from_chars(400, &m))
}

// ================================================================ dates and metadata

/// Name of what chrono makes of a certificate date (`%b %e %H:%M:%S %Y`,
/// read as UTC): its RFC 3339 text, or the text of the parse error.
pub uninterp spec fn chrono_cert_date(s: Seq<char>) -> Result<Seq<char>, Seq<char>>;

/// `NaiveDateTime::parse_from_str(s, "%b %e %H:%M:%S %Y")`, then the
/// instant as UTC in RFC 3339 with whole seconds and `+00:00`; on failure the
/// parse error's text.  The result depends on `s` alone, named `chrono_cert_date`.
#[verifier::external_body]
fn cert_date(s: &str) -> (r: Result<String, String>)
    ensures
        match r {
            Ok(v) => chrono_cert_date(s@) == Ok::<Seq<char>, Seq<char>>(v@),
            Err(m) => chrono_cert_date(s@) == Err::<Seq<char>, Seq<char>>(m@),
        },
{
    match chrono::NaiveDateTime::parse_from_str(s, "%b %e %H:%M:%S %Y") {
        Ok(dt) => Ok(chrono::Utc.from_utc_datetime(&dt).to_rfc3339_opts(chrono::SecondsFormat::Secs, false)),
        Err(e) => Err(e.to_string()),
    }
}

/// `s.trim_end_matches(" GMT")`.
pub open spec fn strip_gmt(s: Seq<char>) -> Seq<char>
    decreases s.len(),
{
    if s.len() >= 4 && s.skip(s.len() - 4) == " GMT"@ {
        strip_gmt(s.take(s.len() - 4))
    } else {
        s
    }
}

fn strip_gmt_exec(s: &Vec<char>) -> (r: Vec<char>)
    ensures
        r@ == strip_gmt(s@),
{
    let g = chars_of(" GMT");
    proof {
        reveal_strlit(" GMT");
    }
    let mut end: usize = s.len();
    assert(s@.take(s.len() as int) =~= s@);
    while end >= 4 && crate::text::starts_with_at(s, &g, end - 4)
        invariant
            end <= s.len(),
            g@ == " GMT"@,
            g@.len() == 4,
            strip_gmt(s@) == strip_gmt(s@.take(end as int)),
        decreases end,
    {
        let ghost t = s@.take(end as int);
        assert(t.skip(t.len() - 4) =~= s@.subrange(end - 4, end as int));
        assert(t.take(t.len() - 4) =~= s@.take(end - 4));
        end -= 4;
    }
    proof {
        let t = s@.take(end as int);
        if t.len() >= 4 && t.skip(t.len() - 4) == " GMT"@ {
            assert(t.skip(t.len() - 4) =~= s@.subrange(end - 4, end as int));
        }
    }
    let r = slice_vec(s, 0, end);
    assert(r@ =~= s@.take(end as int));
    r
}

/// A certificate date as RFC 3339, or 400 with the parser's complaint.
pub fn date_to_iso(s: &str) -> (r: Result<String, ApiError>)
    ensures
        match chrono_cert_date(strip_gmt(trim(s@))) {
            Ok(v) => r matches Ok(x) && x@ == v,
            Err(m) => r matches Err(e) && is_error(e, 400, "Could not parse certificate date: "@ + m),
        },
{
    let t = string_of(&strip_gmt_exec(&trim_str(s)));
    match cert_date(t.as_str()) {
        Ok(v) => Ok(v),
        Err(m) => {
            let mut msg = chars_of("Could not parse certificate date: ");
            extend_str(&mut msg, m.as_str());
            Err(ApiError::from_chars(400, &msg))
        },
    }
}

/// A certificate date as `date_to_iso` reads it: RFC 3339, or the message of its refusal.
pub open spec fn iso_date(v: Seq<char>) -> Result<Seq<char>, Seq<char>> {
    match chrono_cert_date(strip_gmt(trim(v))) {
        Ok(x) => Ok(x),
        Err(m) => Err("Could not parse certificate date: "@ + m),
    }
}

/// The fields (subject, issuer, not-before, not-after) read from the lines
/// in order, a later line replacing an earlier one; the first date that
/// cannot be read stops the reading with its message.
pub open spec fn meta_fold(
    ls: Seq<Seq<char>>,
    acc: (Seq<char>, Seq<char>, Seq<char>, Seq<char>),
) -> Result<(Seq<char>, Seq<char>, Seq<char>, Seq<char>), Seq<char>>
    decreases ls.len(),
{
    if ls.len() == 0 {
        Ok(acc)
    } else {
        let l = trim(ls[0]);
        if starts_with(l, "subject="@) {
            meta_fold(ls.drop_first(), (extract_cn_spec(l.skip(8)), acc.1, acc.2, acc.3))
        } else if starts_with(l, "issuer="@) {
            meta_fold(ls.drop_first(), (acc.0, extract_cn_spec(l.skip(7)), acc.2, acc.3))
        } else if starts_with(l, "notBefore="@) {
            match iso_date(l.skip(10)) {
                Ok(d) => meta_fold(ls.drop_first(), (acc.0, acc.1, d, acc.3)),
                Err(m) => Err(m),
            }
        } else if starts_with(l, "notAfter="@) {
            match iso_date(l.skip(9)) {
                Ok(d) => meta_fold(ls.drop_first(), (acc.0, acc.1, acc.2, d)),
                Err(m) => Err(m),
            }
        } else {
            meta_fold(ls.drop_first(), acc)
        }
    }
}

/// The value after `name` on a trimmed line that starts with it.
fn after(line: &Vec<char>, name: &str) -> (r: Option<Vec<char>>)
    ensures
        starts_with(line@, name@) ==> (r matches Some(v) && v@ == line@.skip(name@.len() as int)),
        !starts_with(line@, name@) ==> r is None,
{
    let n = chars_of(name);
    if vec_starts_with(line, &n) {
        let v = slice_vec(line, n.len(), line.len());
        assert(v@ =~= line@.skip(n@.len() as int));
        Some(v)
    } else {
        None
    }
}

/// Reads the subject, issuer and dates that `openssl x509 -noout -subject
/// -issuer -dates` printed.  A date that cannot be read is answered as
/// `date_to_iso` answers it; a field that is missing or empty gives 400.
pub fn parse_meta(out: &str) -> (r: Result<CertMeta, ApiError>)
    ensures
        match meta_fold(lines(out@), (Seq::empty(), Seq::empty(), Seq::empty(), Seq::empty())) {
            Err(m) => r matches Err(e) && is_error(e, 400, m),
            Ok((sub, iss, nb, na)) => if sub.len() == 0 || iss.len() == 0 || nb.len() == 0 || na.len() == 0 {
                r matches Err(e) && is_error(e, 400, "Could not parse certificate (invalid PEM?)"@)
            } else {
                r matches Ok(m) && m.issuer@ == iss && m.valid_from@ == nb && m.valid_to@ == na
            },
        },
{
    proof {
        reveal_strlit("subject=");
        reveal_strlit("issuer=");
        reveal_strlit("notBefore=");
        reveal_strlit("notAfter=");
    }
    let ls = lines_of(&chars_of(out));
    let ghost all = lines(out@);
    let mut subject: Vec<char> = Vec::new();
    let mut issuer: Vec<char> = Vec::new();
    let mut nbf: Vec<char> = Vec::new();
    let mut naf: Vec<char> = Vec::new();
    let ghost init: (Seq<char>, Seq<char>, Seq<char>, Seq<char>) = (Seq::empty(), Seq::empty(), Seq::empty(), Seq::empty());
    let mut i: usize = 0;
    assert(all.skip(0) =~= all);
    while i < ls.len()
        invariant
            i <= ls@.len() == all.len(),
            forall|k: int| 0 <= k < ls@.len() ==> (#[trigger] ls@[k])@ == all[k],
            all == lines(out@),
            init == (Seq::<char>::empty(), Seq::<char>::empty(), Seq::<char>::empty(), Seq::<char>::empty()),
            meta_fold(all, init) == meta_fold(all.skip(i as int), (subject@, issuer@, nbf@, naf@)),
            "subject="@.len() == 8 && "issuer="@.len() == 7 && "notBefore="@.len() == 10 && "notAfter="@.len() == 9,
        decreases ls.len() - i,
    {
        let ghost rest = all.skip(i as int);
        assert(rest[0] == all[i as int]);
        assert(rest.drop_first() =~= all.skip(i + 1));
        let line = trim_chars(&ls[i]);
        match after(&line, "subject=") {
            Some(v) => {
                subject = chars_of(extract_cn(string_of(&v).as_str()).as_str());
            },
            None => match after(&line, "issuer=") {
                Some(v) => {
                    issuer = chars_of(extract_cn(string_of(&v).as_str()).as_str());
                },
                None => match after(&line, "notBefore=") {
                    Some(v) => match date_to_iso(string_of(&v).as_str()) {
                        Ok(d) => {
                            nbf = chars_of(d.as_str());
                        },
                        Err(e) => {
                            return Err(e);
                        },
                    },
                    None => match after(&line, "notAfter=") {
                        Some(v) => match date_to_iso(string_of(&v).as_str()) {
                            Ok(d) => {
                                naf = chars_of(d.as_str());
                            },
                            Err(e) => {
                                return Err(e);
                            },
                        },
                        None => {},
                    },
                },
            },
        }
        i += 1;
    }
    assert(all.skip(ls.len() as int) =~= Seq::<Seq<char>>::empty());
    if subject.len() == 0 || issuer.len() == 0 || nbf.len() == 0 || naf.len() == 0 {
        return Err(ApiError::new(400, "Could not parse certificate (invalid PEM?)"));
    }
    Ok(CertMeta { issuer: string_of(&issuer), valid_from: string_of(&nbf), valid_to: string_of(&naf) })
}

// ================================================================ requests

/// An import needs both a certificate and a key (400 otherwise); each is
/// stored trimmed, and the chain only where it is not blank.
pub fn import_values(cert: &str, key: &str, ca: Option<&str>) -> (r: Result<(String, String, Option<String>), ApiError>)
    ensures
        (trim(cert@).len() == 0 || trim(key@).len() == 0) ==> (r matches Err(e) && is_error(
            e,
            400,
            "Certificate and private key are required"@,
        )),
        !(trim(cert@).len() == 0 || trim(key@).len() == 0) ==> (r matches Ok((c, k, a)) && c@ == trim(cert@)
            && k@ == trim(key@) && match ca {
            Some(x) => if trim(x@).len() > 0 {
                a matches Some(y) && y@ == trim(x@)
            } else {
                a is None
            },
            None => a is None,
        }),
{
    let c = trim_str(cert);
    let k = trim_str(key);
    if c.len() == 0 || k.len() == 0 {
        return Err(ApiError::new(400, "Certificate and private key are required"));
    }
    let a = match ca {
        Some(x) => {
            let t = trim_str(x);
            if t.len() > 0 {
                Some(string_of(&t))
            } else {
                None
            }
        },
        None => None,
    };
    Ok((string_of(&c), string_of(&k), a))
}

/// The lifetime of a generated certificate: 365 days by default, within 1 ..= 3650.
pub fn cert_days(days: Option<i64>) -> (d: i64)
    ensures
        d == ({
            let v = match days {
                Some(v) => v,
                None => 365,
            };
            if v < 1 {
                1
            } else if v > 3650 {
                3650
            } else {
                v
            }
        }),
{
    let v = match days {
        Some(v) => v,
        None => 365,
    };
    if v < 1 {
        1
    } else if v > 3650 {
        3650
    } else {
        v
    }
}

/// The subject and the alternative names of a generated certificate: the
/// domain and its `www` host.
pub fn self_signed_subject(domain: &str) -> (r: (String, String))
    ensures
        r.0@ == "/CN="@ + domain@,
        r.1@ == "subjectAltName=DNS:"@ + domain@ + ",DNS:www."@ + domain@,
{
    let mut subj = chars_of("/CN=");
    extend_str(&mut subj, domain);
    let mut san = chars_of("subjectAltName=DNS:");
    extend_str(&mut san, domain);
    extend_str(&mut san, ",DNS:www.");
    extend_str(&mut san, domain);
    (string_of(&subj), string_of(&san))
}

/// A second certificate for a domain only replaces the first when renewing (409 otherwise).
pub fn check_replace(existing: bool, replace: bool) -> (r: Result<(), ApiError>)
    ensures
        (existing && !replace) ==> (r matches Err(e) && is_error(e, 409, "A certificate for this domain already exists"@)),
        !(existing && !replace) ==> r is Ok,
{
    if existing && !replace {
        Err(ApiError::new(409, "A certificate for this domain already exists"))
    } else {
        Ok(())
    }
}

/// The key must belong to the certificate: the digests of their public keys agree (400 otherwise).
pub fn check_key_match(cert_digest: &str, key_digest: &str) -> (r: Result<(), ApiError>)
    ensures
        cert_digest@ == key_digest@ ==> r is Ok,
        cert_digest@ != key_digest@ ==> (r matches Err(e) && is_error(e, 400, "Private key does not match certificate"@)),
{
    if chars_eq(&chars_of(cert_digest), &chars_of(key_digest)) {
        Ok(())
    } else {
        Err(ApiError::new(400, "Private key does not match certificate"))
    }
}

/// The digest that `openssl sha256 -r` printed: its first word.
pub fn digest_of(out: &str) -> (r: String)
    ensures
        r@ == (if words(out@).len() > 0 {
            words(out@)[0]
        } else {
            Seq::empty()
        }),
{
    let ws = crate::text::split_whitespace(&chars_of(out));
    if ws.len() > 0 {
        string_of(&ws[0])
    } else {
        String::new()
    }
}

/// Renewal is skipped while the current certificate is active with more
/// than 30 days left; the message says so.
pub fn renewal_skip(status: &str, days_left: Option<i64>) -> (r: Option<String>)
    ensures
        ({
            let d = match days_left {
                Some(d) => d,
                None => 0,
            };
            if status@ == "active"@ && d > 30 {
                r matches Some(m) && m@ == "Certificate valid ("@ + dec_int(d as int) + ") days left"@
            } else {
                r is None
            }
        }),
{
    let d = match days_left {
        Some(d) => d,
        None => 0,
    };
    if chars_eq(&chars_of(status), &chars_of("active")) && d > 30 {
        let mut m = chars_of("Certificate valid (");
        extend_chars(&mut m, &dec_i64(d));
        extend_str(&mut m, ") days left");
        Some(string_of(&m))
    } else {
        None
    }
}

// ================================================================ certificate state

/// Name of the instant an RFC 3339 text denotes, in whole seconds since the
/// Unix epoch (chrono's `timestamp()`), or none where chrono refuses the text.
pub uninterp spec fn rfc3339_secs(s: Seq<char>) -> Option<int>;

/// `DateTime::parse_from_rfc3339(s)` and then `timestamp()`: the instant in
/// whole seconds since the epoch, or none where chrono refuses the text.  The
/// result depends on `s` alone, named `rfc3339_secs`.
#[verifier::external_body]
fn parse_rfc3339_secs(s: &str) -> (r: Option<i64>)
    ensures
        match r {
            Some(t) => rfc3339_secs(s@) == Some(t as int),
            None => rfc3339_secs(s@) is None,
        },
{
    chrono::DateTime::parse_from_rfc3339(s).ok().map(|t| t.timestamp())
}

/// The expiry of a stored certificate in seconds, where its text parses.
pub open spec fn expiry_secs(valid_to: Option<Seq<char>>) -> Option<int> {
    match valid_to {
        Some(v) => rfc3339_secs(v),
        None => None,
    }
}

/// The days left and the status of a domain's certificate at `now` (seconds
/// since the epoch): the days are the seconds to the parsed expiry divided by
/// 86400, rounded toward zero (none where the expiry is missing or does not
/// parse); the status is `none` without a certificate, `expired` where the
/// expiry parses and lies before `now`, `active` otherwise.
pub open spec fn cert_state_spec(cert_id: Option<i64>, valid_to: Option<Seq<char>>, now: int) -> (Option<int>, Seq<char>) {
    let t = expiry_secs(valid_to);
    let days = match t {
        Some(x) => Some(crate::cache::div_toward_zero(x - now, 86400)),
        None => None,
    };
    let status = if cert_id is None {
        "none"@
    } else if t matches Some(x) && x < now {
        "expired"@
    } else {
        "active"@
    };
    (days, status)
}

pub open spec fn opt_view(o: Option<&str>) -> Option<Seq<char>> {
    match o {
        Some(s) => Some(s@),
        None => None,
    }
}

pub open spec fn opt_i64(o: Option<i64>) -> Option<int> {
    match o {
        Some(v) => Some(v as int),
        None => None,
    }
}

/// The state of a certificate at `now_secs`.
pub fn cert_state(cert_id: Option<i64>, valid_to: Option<&str>, now_secs: i64) -> (r: (Option<i64>, String))
    ensures
        (opt_i64(r.0), r.1@) == cert_state_spec(cert_id, opt_view(valid_to), now_secs as int),
{
    let t = match valid_to {
        Some(v) => parse_rfc3339_secs(v),
        None => None,
    };
    let days: Option<i64> = match t {
        Some(x) => {
            let d: i128 = x as i128 - now_secs as i128;
            let q: i128 = if d >= 0 {
                d / 86400
            } else {
                -((-d) / 86400)
            };
            assert(-9223372036854775808i128 <= q <= 9223372036854775807i128);
            Some(q as i64)
        },
        None => None,
    };
    let status = if cert_id.is_none() {
        "none".to_string()
    } else {
        match t {
            Some(x) => if x < now_secs {
                "expired".to_string()
            } else {
                "active".to_string()
            },
            None => "active".to_string(),
        }
    };
    proof {
        reveal_strlit("none");
        reveal_strlit("expired");
        reveal_strlit("active");
    }
    (days, status)
}

/// The state of a certificate now, by the system clock in whole seconds.
/// The reading is the clock's, so the state is that at some instant since the
/// epoch.
pub fn cert_state_now(cert_id: Option<i64>, valid_to: Option<&str>) -> (r: (Option<i64>, String))
    ensures
        exists|now: int|
            0 <= now <= i64::MAX && #[trigger] cert_state_spec(cert_id, opt_view(valid_to), now) == (
                opt_i64(r.0),
                r.1@,
            ),
{
    let secs = crate::totp::unix_now_secs();
    let now: i64 = if secs > 9223372036854775807u64 {
        9223372036854775807i64
    } else {
        secs as i64
    };
    let r = cert_state(cert_id, valid_to, now);
    assert(cert_state_spec(cert_id, opt_view(valid_to), now as int) == (opt_i64(r.0), r.1@));
    r
}

/// The lines joined with newlines, last first.
pub open spec fn rev_join(ks: Seq<Seq<char>>) -> Seq<char>
    decreases ks.len(),
{
    if ks.len() == 0 {
        Seq::empty()
    } else if ks.len() == 1 {
        ks[0]
    } else {
        rev_join(ks.drop_first()) + seq!['\n'] + ks[0]
    }
}

/// The last six lines (all where fewer), newest first, joined with newlines.
pub open spec fn last_six_reversed(ls: Seq<Seq<char>>) -> Seq<char> {
    rev_join(ls.skip(if ls.len() > 6 { ls.len() - 6 } else { 0 }))
}

/// The answer when `certbot` fails: 502 with the last lines of its error output.
pub fn certbot_failure(domain: &str, stderr_text: &str) -> (e: ApiError)
    ensures
        is_error(e, 502, "certbot failed for "@ + domain@ + ": "@ + last_six_reversed(lines(trim(stderr_text@)))),
{
    let ls = lines_of(&trim_str(stderr_text));
    let ghost all = lines(trim(stderr_text@));
    let start: usize = if ls.len() > 6 {
        ls.len() - 6
    } else {
        0
    };
    let mut tail: Vec<char> = Vec::new();
    let mut j: usize = ls.len();
    while j > start
        invariant
            start <= j <= ls@.len() == all.len(),
            forall|k: int| 0 <= k < ls@.len() ==> (#[trigger] ls@[k])@ == all[k],
            tail@ == rev_join(all.subrange(j as int, all.len() as int)),
        decreases j,
    {
        j -= 1;
        let ghost prev = all.subrange(j + 1, all.len() as int);
        let ghost now = all.subrange(j as int, all.len() as int);
        assert(now.drop_first() =~= prev);
        assert(now[0] == all[j as int]);
        if j + 1 < ls.len() {
            tail.push('\n');
        }
        crate::text::extend_chars(&mut tail, &ls[j]);
        proof {
            if prev.len() == 0 {
                assert(tail@ =~= now[0]);
            } else {
                assert(tail@ =~= rev_join(prev) + seq!['\n'] + now[0]);
            }
        }
    }
    assert(all.subrange(start as int, all.len() as int) =~= all.skip(start as int));
    let mut m = chars_of("certbot failed for ");
    extend_str(&mut m, domain);
    extend_str(&mut m, ": ");
    extend_chars(&mut m, &tail);
    ApiError::from_chars(502, &m)
}

// ================================================================ admitting a certificate

/// What `parse_meta` makes of openssl's output: the issuer and validity
/// dates, or the message of its 400.
pub open spec fn meta_outcome(out: Seq<char>) -> Result<(Seq<char>, Seq<char>, Seq<char>), Seq<char>> {
    match meta_fold(lines(out), (Seq::empty(), Seq::empty(), Seq::empty(), Seq::empty())) {
        Err(m) => Err(m),
        Ok((sub, iss, nb, na)) => if sub.len() == 0 || iss.len() == 0 || nb.len() == 0 || na.len() == 0 {
            Err("Could not parse certificate (invalid PEM?)"@)
        } else {
            Ok((iss, nb, na))
        },
    }
}

/// Why a certificate is not stored for a domain, if it is not, as status
/// and message, checked in this order: its metadata cannot be read (400);
/// it names hosts, none covering the domain (400); the key's public key
/// differs from the certificate's (400); the domain has a certificate and
/// this is no renewal (409).
pub open spec fn admission_refusal(
    out: Seq<char>,
    names: Seq<String>,
    domain: Seq<char>,
    cert_digest: Seq<char>,
    key_digest: Seq<char>,
    existing: bool,
    replace: bool,
) -> Option<(u16, Seq<char>)> {
    match meta_outcome(out) {
        Err(m) => Some((400u16, m)),
        Ok(_) => if names.len() > 0 && !any_covers(names, domain) {
            Some((400u16, "Certificate does not cover domain "@ + domain))
        } else if cert_digest != key_digest {
            Some((400u16, "Private key does not match certificate"@))
        } else if existing && !replace {
            Some((409u16, "A certificate for this domain already exists"@))
        } else {
            None
        },
    }
}

/// The checks a certificate passes before it is stored, and its metadata.
pub fn admit_certificate(
    meta_out: &str,
    names: &Vec<String>,
    domain: &str,
    cert_digest: &str,
    key_digest: &str,
    existing: bool,
    replace: bool,
) -> (r: Result<CertMeta, ApiError>)
    ensures
        match admission_refusal(meta_out@, names@, domain@, cert_digest@, key_digest@, existing, replace) {
            Some((status, msg)) => r matches Err(e) && is_error(e, status, msg),
            None => r matches Ok(m) && meta_outcome(meta_out@) == Ok::<
                (Seq<char>, Seq<char>, Seq<char>),
                Seq<char>,
            >((m.issuer@, m.valid_from@, m.valid_to@)),
        },
{
    let meta = parse_meta(meta_out)?;
    check_coverage(names, domain)?;
    check_key_match(cert_digest, key_digest)?;
    check_replace(existing, replace)?;
    Ok(meta)
}

// ================================================================ laws of coverage

/// A certificate covers the name it is issued for.
pub proof fn law_covers_own_name(name: Seq<char>)
    ensures
        covers_spec(name, name),
{
}

/// A wildcard `*.<rest>` covers a host of exactly one more label: `<l>.<rest>`
/// is covered when the lower-cased label holds no dot and is not empty.
pub proof fn law_wildcard_one_label(label: Seq<char>, rest: Seq<char>)
    requires
        unicode_lower(seq!['*', '.'] + rest) == seq!['*', '.'] + unicode_lower(rest),
        unicode_lower(label + seq!['.'] + rest) == unicode_lower(label) + seq!['.'] + unicode_lower(rest),
        unicode_lower(label).len() > 0,
        !unicode_lower(label).contains('.'),
    ensures
        covers_spec(seq!['*', '.'] + rest, label + seq!['.'] + rest),
{
    let id = unicode_lower(seq!['*', '.'] + rest);
    let d = unicode_lower(label + seq!['.'] + rest);
    let r = unicode_lower(rest);
    let l = unicode_lower(label);
    assert(id.subrange(0, 2) =~= seq!['*', '.']);
    assert(id.skip(2) =~= r);
    assert(d.subrange(d.len() - r.len(), d.len() as int) =~= r);
    let p = d.take(d.len() - r.len());
    assert(p =~= l + seq!['.']);
    assert(p.drop_last() =~= l);
    crate::text::lemma_split_char_none(l, '.');
}

/// A wildcard never covers a host two or more labels below it: where the
/// part before `.<rest>` holds a dot, `*.<rest>` does not cover the host,
/// unless the two are the same name.
pub proof fn law_wildcard_not_deeper(prefix: Seq<char>, rest: Seq<char>)
    requires
        unicode_lower(seq!['*', '.'] + rest) == seq!['*', '.'] + unicode_lower(rest),
        unicode_lower(prefix + seq!['.'] + rest) == unicode_lower(prefix) + seq!['.'] + unicode_lower(rest),
        unicode_lower(prefix).contains('.'),
        unicode_lower(prefix + seq!['.'] + rest) != unicode_lower(seq!['*', '.'] + rest),
    ensures
        !covers_spec(seq!['*', '.'] + rest, prefix + seq!['.'] + rest),
{
    let id = unicode_lower(seq!['*', '.'] + rest);
    let d = unicode_lower(prefix + seq!['.'] + rest);
    let r = unicode_lower(rest);
    let l = unicode_lower(prefix);
    assert(id.subrange(0, 2) =~= seq!['*', '.']);
    assert(id.skip(2) =~= r);
    assert(d.subrange(d.len() - r.len(), d.len() as int) =~= r);
    let p = d.take(d.len() - r.len());
    assert(p =~= l + seq!['.']);
    assert(p.drop_last() =~= l);
    let k = choose|k: int| 0 <= k < l.len() && l[k] == '.';
    lemma_split_at_first_dot(l, k);
}

proof fn lemma_split_at_first_dot(l: Seq<char>, k: int)
    requires
        0 <= k < l.len(),
        l[k] == '.',
    ensures
        split_char(l, '.').len() >= 2,
    decreases k,
{
    if l[0] == '.' {
        crate::text::lemma_split_char_len(l.drop_first(), '.');
    } else {
        assert(l.drop_first()[k - 1] == '.');
        lemma_split_at_first_dot(l.drop_first(), k - 1);
    }
}

} // verus!
