//! DNS records and zones: which records are accepted, how a record is stored,
//! the zone file written for a domain, and the records seeded for a new
//! domain or removed with an old one.
use vstd::prelude::*;
use crate::error::{ApiError, is_error};
use crate::text::{
    dec_i64, dec_int, trim_end_char,
    all_in_class, chars_eq, chars_of, contains_any, contains_char, ends_with, extend_chars,
    extend_str, has_any, in_class, slice_vec, string_of, to_lowercase, to_uppercase, trim,
    trim_str, unicode_lower, unicode_upper, utf8_len, utf8_len_at_least, vec_ends_with,
};

verus! {

// ================================================================ values

/// A stored record.
pub struct DnsRecord {
    pub id: i64,
    pub account_id: i64,
    pub domain_id: i64,
    pub domain: String,
    pub name: String,
    pub rtype: String,
    pub value: String,
    pub ttl: i64,
    pub priority: Option<i64>,
    pub status: String,
    pub created_at: String,
}

/// A stored record with its owner's username, as the admin lists it.
pub struct DnsAdmin {
    pub id: i64,
    pub account_id: i64,
    pub username: String,
    pub domain_id: i64,
    pub domain: String,
    pub name: String,
    pub rtype: String,
    pub value: String,
    pub ttl: i64,
    pub priority: Option<i64>,
    pub status: String,
    pub created_at: String,
}

/// A request to add a record.
pub struct CreateDns {
    pub domain_id: i64,
    pub name: Option<String>,
    pub rtype: String,
    pub value: String,
    pub ttl: Option<i64>,
    pub priority: Option<i64>,
}

/// A request to change a record; absent fields keep their value.
pub struct UpdateDns {
    pub name: Option<String>,
    pub rtype: Option<String>,
    pub value: Option<String>,
    pub ttl: Option<i64>,
    pub priority: Option<i64>,
}

// ================================================================ validation

/// The record types that can be added.
pub open spec fn valid_type(rt: Seq<char>) -> bool {
    rt == "A"@ || rt == "AAAA"@ || rt == "CNAME"@ || rt == "MX"@ || rt == "TXT"@ || rt == "NS"@
        || rt == "SRV"@ || rt == "CAA"@
}

/// The types whose value names a host.
pub open spec fn host_target_type(rt: Seq<char>) -> bool {
    rt == "MX"@ || rt == "SRV"@ || rt == "CNAME"@ || rt == "NS"@ || rt == "ANAME"@ || rt == "CAA"@
}

/// `char::is_control`: the Unicode control characters (category Cc).
pub open spec fn is_control(c: char) -> bool {
    (c as u32) < 0x20 || (0x7f <= (c as u32) && (c as u32) <= 0x9f)
}

/// A character a TXT value cannot hold: one outside ASCII, or a control character.
pub open spec fn txt_bad(c: char) -> bool {
    (c as u32) >= 128 || is_control(c)
}

/// The message for a record type outside the accepted list.
pub open spec fn unsupported_type_message() -> Seq<char> {
    "Unsupported record type (must be one of: A, AAAA, CNAME, MX, TXT, NS, SRV, CAA)"@
}

/// Why a record is refused (always with 400), if it is.  `ipv4` and `ipv6`
/// say whether the trimmed value reads as an IPv4 and as an IPv6 address.
pub open spec fn record_refusal(
    rtype: Seq<char>,
    name: Option<Seq<char>>,
    value: Seq<char>,
    ttl: Option<i64>,
    ipv4: bool,
    ipv6: bool,
) -> Option<Seq<char>> {
    let rt = unicode_upper(trim(rtype));
    let v = trim(value);
    if !valid_type(rt) {
        Some(unsupported_type_message())
    } else if name matches Some(n) && trim(n) != "@"@ && !all_in_class(trim(n), seq!['-', '.', '*', '_']) {
        Some("Invalid record name"@)
    } else if v.len() == 0 {
        Some("Record value is required"@)
    } else if ttl matches Some(t) && !(1 <= t <= 604800) {
        Some("TTL must be between 1 and 604800"@)
    } else if has_any(v, seq!['\n', '\r']) || (rt != "TXT"@ && has_any(v, seq![';', '$', '(', ')'])) {
        Some("Record value contains invalid characters"@)
    } else if rt == "A"@ && !ipv4 {
        Some("Invalid IPv4 address for A record"@)
    } else if rt == "AAAA"@ && !ipv6 {
        Some("Invalid IPv6 address for AAAA record"@)
    } else if rt == "TXT"@ && (utf8_len(v) > 255 || exists|i: int| 0 <= i < v.len() && txt_bad(#[trigger] v[i])) {
        Some("TXT value must be printable ASCII up to 255 characters"@)
    } else if host_target_type(rt) && !all_in_class(v, seq!['.', '-', '_']) {
        Some("Invalid target for "@ + rt + " record"@)
    } else {
        None
    }
}

/// The names of the record types are pairwise different.
proof fn lemma_type_names()
    ensures
        "A"@.len() == 1 && "AAAA"@.len() == 4,
        "MX"@.len() == 2 && "NS"@.len() == 2 && "MX"@[0] == 'M' && "NS"@[0] == 'N',
        "TXT"@.len() == 3 && "SRV"@.len() == 3 && "CAA"@.len() == 3,
        "TXT"@[0] == 'T' && "SRV"@[0] == 'S' && "CAA"@[0] == 'C',
        "CNAME"@.len() == 5 && "ANAME"@.len() == 5 && "CNAME"@[0] == 'C' && "ANAME"@[0] == 'A',
{
    reveal_strlit("A");
    reveal_strlit("AAAA");
    reveal_strlit("TXT");
    reveal_strlit("MX");
    reveal_strlit("SRV");
    reveal_strlit("CNAME");
    reveal_strlit("NS");
    reveal_strlit("CAA");
    reveal_strlit("ANAME");
}

fn is_literal(s: &Vec<char>, lit: &str) -> (b: bool)
    ensures
        b == (s@ == lit@),
{
    chars_eq(s, &chars_of(lit))
}

fn any_txt_bad(v: &Vec<char>) -> (b: bool)
    ensures
        b == exists|i: int| 0 <= i < v@.len() && txt_bad(#[trigger] v@[i]),
{
    let mut i: usize = 0;
    while i < v.len()
        invariant
            i <= v.len(),
            forall|j: int| 0 <= j < i ==> !txt_bad(#[trigger] v@[j]),
        decreases v.len() - i,
    {
        let c = v[i] as u32;
        if c >= 128 || c < 0x20 || (0x7f <= c && c <= 0x9f) {
            assert(txt_bad(v@[i as int]));
            return true;
        }
        i += 1;
    }
    false
}

/// Checks a record before it is stored.  `ipv4` and `ipv6` are whether the
/// trimmed value parses as an `Ipv4Addr` and as an `Ipv6Addr`.
pub fn validate_record(
    rtype: &str,
    name: Option<&str>,
    value: &str,
    ttl: Option<i64>,
    ipv4: bool,
    ipv6: bool,
) -> (r: Result<(), ApiError>)
    ensures
        match record_refusal(
            rtype@,
            match name {
                Some(n) => Some(n@),
                None => None,
            },
            value@,
            ttl,
            ipv4,
            ipv6,
        ) {
            None => r is Ok,
            Some(msg) => r matches Err(e) && is_error(e, 400, msg),
        },
{
    let rt_s = to_uppercase(string_of(&trim_str(rtype)).as_str());
    let rt = chars_of(rt_s.as_str());
    let is_a = is_literal(&rt, "A");
    let is_aaaa = is_literal(&rt, "AAAA");
    let is_txt = is_literal(&rt, "TXT");
    let is_mx = is_literal(&rt, "MX");
    let is_srv = is_literal(&rt, "SRV");
    let is_cname = is_literal(&rt, "CNAME");
    let is_ns = is_literal(&rt, "NS");
    let is_caa = is_literal(&rt, "CAA");
    let is_aname = is_literal(&rt, "ANAME");
    proof {
        lemma_type_names();
    }
    if !(is_a || is_aaaa || is_cname || is_mx || is_txt || is_ns || is_srv || is_caa) {
        return Err(
            ApiError::new(400, "Unsupported record type (must be one of: A, AAAA, CNAME, MX, TXT, NS, SRV, CAA)"),
        );
    }
    if let Some(n) = name {
        let nt = trim_str(n);
        if !is_literal(&nt, "@") && !in_class(&nt, &vec!['-', '.', '*', '_']) {
            return Err(ApiError::new(400, "Invalid record name"));
        }
    }
    let v = trim_str(value);
    if v.len() == 0 {
        return Err(ApiError::new(400, "Record value is required"));
    }
    if let Some(t) = ttl {
        if !(1 <= t && t <= 604800) {
            return Err(ApiError::new(400, "TTL must be between 1 and 604800"));
        }
    }
    if contains_any(&v, &vec!['\n', '\r']) || (!is_txt && contains_any(&v, &vec![';', '$', '(', ')'])) {
        return Err(ApiError::new(400, "Record value contains invalid characters"));
    }
    if is_a {
        if !ipv4 {
            return Err(ApiError::new(400, "Invalid IPv4 address for A record"));
        }
    } else if is_aaaa {
        if !ipv6 {
            return Err(ApiError::new(400, "Invalid IPv6 address for AAAA record"));
        }
    } else if is_txt {
        if utf8_len_at_least(&v, 256) || any_txt_bad(&v) {
            return Err(ApiError::new(400, "TXT value must be printable ASCII up to 255 characters"));
        }
    } else if is_mx || is_srv || is_cname || is_ns || is_aname || is_caa {
        if !in_class(&v, &vec!['.', '-', '_']) {
            let mut msg: Vec<char> = chars_of("Invalid target for ");
            extend_chars(&mut msg, &rt);
            extend_str(&mut msg, " record");
            return Err(ApiError::from_chars(400, &msg));
        }
    }
    Ok(())
}

// ================================================================ names

/// A name with a trailing dot, as zone files write absolute names.
pub open spec fn fqdn_spec(s: Seq<char>) -> Seq<char> {
    if s.len() > 0 && s.last() == '.' {
        s
    } else {
        s.push('.')
    }
}

pub fn fqdn(s: &str) -> (r: String)
    ensures
        r@ == fqdn_spec(s@),
{
    let mut v = chars_of(s);
    if v.len() > 0 && v[v.len() - 1] == '.' {
        string_of(&v)
    } else {
        v.push('.');
        string_of(&v)
    }
}

// ================================================================ the zone file

/// A record as the zone file is written from it.
pub struct ZoneRow {
    pub name: String,
    pub rtype: String,
    pub value: String,
    pub ttl: i64,
    pub priority: Option<i64>,
}

/// `s.replace('"', "\\\"")`: each double quote preceded by a backslash.
pub open spec fn escape_quotes(s: Seq<char>) -> Seq<char>
    decreases s.len(),
{
    if s.len() == 0 {
        Seq::empty()
    } else if s.last() == '"' {
        escape_quotes(s.drop_last()) + seq!['\\', '"']
    } else {
        escape_quotes(s.drop_last()).push(s.last())
    }
}

/// A TXT value cut into the strings of at most 255 characters that nsd
/// accepts, in order.
pub open spec fn txt_chunks(v: Seq<char>) -> Seq<Seq<char>>
    decreases v.len(),
{
    if v.len() <= 255 {
        seq![v]
    } else {
        seq![v.take(255)] + txt_chunks(v.skip(255))
    }
}

/// The quoted strings of a TXT value: each chunk with its quotes escaped,
/// in quotes, separated by spaces.
pub open spec fn quoted_chunks(cs: Seq<Seq<char>>) -> Seq<char>
    decreases cs.len(),
{
    if cs.len() == 0 {
        Seq::empty()
    } else if cs.len() == 1 {
        seq!['"'] + escape_quotes(cs[0]) + seq!['"']
    } else {
        seq!['"'] + escape_quotes(cs[0]) + "\" "@ + quoted_chunks(cs.drop_first())
    }
}

/// All characters of the chunks, in order.
pub open spec fn joined(cs: Seq<Seq<char>>) -> Seq<char>
    decreases cs.len(),
{
    if cs.len() == 0 {
        Seq::empty()
    } else {
        cs[0] + joined(cs.drop_first())
    }
}

/// Long TXT values are cut, never changed: every chunk has at most 255
/// characters, there is at least one, and together they are the value.
pub proof fn law_txt_chunks(v: Seq<char>)
    ensures
        txt_chunks(v).len() >= 1,
        forall|i: int| 0 <= i < txt_chunks(v).len() ==> (#[trigger] txt_chunks(v)[i]).len() <= 255,
        joined(txt_chunks(v)) == v,
        v.len() <= 255 ==> txt_chunks(v) == seq![v],
    decreases v.len(),
{
    if v.len() <= 255 {
        let cs = txt_chunks(v);
        assert(cs.drop_first() =~= Seq::<Seq<char>>::empty());
        assert(joined(cs.drop_first()) == Seq::<char>::empty());
        assert(cs[0] == v);
        assert(joined(cs) =~= v);
    } else {
        law_txt_chunks(v.skip(255));
        let rest = txt_chunks(v.skip(255));
        let cs = txt_chunks(v);
        assert(cs.drop_first() =~= rest);
        assert forall|i: int| 0 <= i < cs.len() implies (#[trigger] cs[i]).len() <= 255 by {
            if i > 0 {
                assert(cs[i] == rest[i - 1]);
            }
        }
        assert(v.take(255) + v.skip(255) =~= v);
    }
}

/// The line of one record.
pub open spec fn record_line(r: ZoneRow) -> Seq<char> {
    let head = r.name@ + seq![' '] + dec_int(r.ttl as int) + " IN "@;
    let rt = r.rtype@;
    if rt == "MX"@ || rt == "SRV"@ {
        let prio = match r.priority {
            Some(p) => p as int,
            None => 10,
        };
        head + rt + seq![' '] + dec_int(prio) + seq![' '] + fqdn_spec(r.value@) + seq!['\n']
    } else if rt == "TXT"@ {
        head + "TXT "@ + quoted_chunks(txt_chunks(r.value@)) + seq!['\n']
    } else if rt == "CNAME"@ || rt == "NS"@ {
        head + rt + seq![' '] + fqdn_spec(r.value@) + seq!['\n']
    } else {
        head + rt + seq![' '] + r.value@ + seq!['\n']
    }
}

/// The lines of the records, in order.
pub open spec fn records_text(rows: Seq<ZoneRow>) -> Seq<char>
    decreases rows.len(),
{
    if rows.len() == 0 {
        Seq::empty()
    } else {
        records_text(rows.drop_last()) + record_line(rows.last())
    }
}

/// The names of the address (A and AAAA) records.
pub open spec fn address_names(rows: Seq<ZoneRow>) -> Seq<Seq<char>>
    decreases rows.len(),
{
    if rows.len() == 0 {
        Seq::empty()
    } else if rows.last().rtype@ == "A"@ || rows.last().rtype@ == "AAAA"@ {
        address_names(rows.drop_last()).push(rows.last().name@)
    } else {
        address_names(rows.drop_last())
    }
}

/// Some record is of type NS.
pub open spec fn has_ns(rows: Seq<ZoneRow>) -> bool {
    exists|i: int| 0 <= i < rows.len() && (#[trigger] rows[i]).rtype@ == "NS"@
}

/// The glue line for a name server inside the zone: where the server's
/// host is `<label>.<domain>` with a label that no address record already
/// names, an A record for it pointing at the server's address.
pub open spec fn glue_line(domain: Seq<char>, ns: Seq<char>, names: Seq<Seq<char>>, ip: Seq<char>) -> Seq<char> {
    let host = trim_end_char(ns, '.');
    let prefix = domain.push('.');
    if host.len() >= prefix.len() && host.take(prefix.len() as int) == prefix {
        let label = host.skip(prefix.len() as int);
        if label.len() == 0 || names.contains(label) {
            Seq::empty()
        } else {
            label + " 3600 IN A "@ + ip + seq!['\n']
        }
    } else {
        Seq::empty()
    }
}

/// The head of the zone: a comment, the origin, the default TTL and the SOA record.
pub open spec fn zone_head(domain: Seq<char>, ns1: Seq<char>, serial: u64) -> Seq<char> {
    "; FPanel generated DNS zone for "@ + domain + "\n$ORIGIN "@ + domain + ".\n$TTL 3600\n@ IN SOA "@
        + ns1 + " hostmaster."@ + domain + ". ( "@ + crate::text::dec(serial as nat)
        + " 7200 3600 1209600 300 )\n"@
}

/// The zone file of a domain with (non-empty) records `rows`: the head; the
/// two default name servers where no record is of type NS; the records; and
/// glue for each name server that lies inside the zone.
pub open spec fn zone_text(
    domain: Seq<char>,
    rows: Seq<ZoneRow>,
    ns1: Seq<char>,
    ns2: Seq<char>,
    serial: u64,
    ip: Seq<char>,
) -> Seq<char> {
    let n1 = fqdn_spec(ns1);
    let n2 = fqdn_spec(ns2);
    let names = address_names(rows);
    zone_head(domain, n1, serial) + (if has_ns(rows) {
        Seq::empty()
    } else {
        "@ IN NS "@ + n1 + "\n@ IN NS "@ + n2 + "\n"@
    }) + records_text(rows) + glue_line(domain, n1, names, ip) + glue_line(domain, n2, names, ip)
}

fn record_line_exec(r: &ZoneRow) -> (out: Vec<char>)
    ensures
        out@ == record_line(*r),
{
    let rt = chars_of(r.rtype.as_str());
    let mut out = chars_of(r.name.as_str());
    out.push(' ');
    extend_chars(&mut out, &dec_i64(r.ttl));
    extend_str(&mut out, " IN ");
    let ghost head = out@;
    if is_literal(&rt, "MX") || is_literal(&rt, "SRV") {
        let prio: i64 = match r.priority {
            Some(p) => p,
            None => 10,
        };
        extend_chars(&mut out, &rt);
        out.push(' ');
        extend_chars(&mut out, &dec_i64(prio));
        out.push(' ');
        extend_chars(&mut out, &chars_of(fqdn(r.value.as_str()).as_str()));
        out.push('\n');
    } else if is_literal(&rt, "TXT") {
        extend_str(&mut out, "TXT ");
        extend_chars(&mut out, &quoted_chunks_exec(&chars_of(r.value.as_str())));
        out.push('\n');
    } else if is_literal(&rt, "CNAME") || is_literal(&rt, "NS") {
        extend_chars(&mut out, &rt);
        out.push(' ');
        extend_chars(&mut out, &chars_of(fqdn(r.value.as_str()).as_str()));
        out.push('\n');
    } else {
        extend_chars(&mut out, &rt);
        out.push(' ');
        extend_chars(&mut out, &chars_of(r.value.as_str()));
        out.push('\n');
    }
    out
}

/// The quoted strings of a TXT value, as `quoted_chunks(txt_chunks(v))`.
fn quoted_chunks_exec(v: &Vec<char>) -> (out: Vec<char>)
    ensures
        out@ == quoted_chunks(txt_chunks(v@)),
{
    let mut out: Vec<char> = Vec::new();
    let mut start: usize = 0;
    assert(v@.skip(0) =~= v@);
    assert(out@ + quoted_chunks(txt_chunks(v@)) =~= quoted_chunks(txt_chunks(v@)));
    while v.len() - start > 255
        invariant
            start <= v@.len(),
            out@ + quoted_chunks(txt_chunks(v@.skip(start as int))) == quoted_chunks(txt_chunks(v@)),
        decreases v.len() - start,
    {
        let ghost rest = v@.skip(start as int);
        let piece = slice_vec(v, start, start + 255);
        assert(piece@ =~= rest.take(255));
        assert(rest.skip(255) =~= v@.skip(start + 255));
        let ghost cs = txt_chunks(rest);
        assert(cs[0] == rest.take(255));
        assert(cs.drop_first() == txt_chunks(rest.skip(255)));
        assert(cs.len() >= 2) by {
            lemma_chunks_nonempty(rest.skip(255));
        }
        let ghost before = out@;
        out.push('"');
        extend_chars(&mut out, &escape_quotes_exec(&piece));
        extend_str(&mut out, "\" ");
        assert(out@ =~= before + (seq!['"'] + escape_quotes(cs[0]) + "\" "@));
        assert(quoted_chunks(cs) == seq!['"'] + escape_quotes(cs[0]) + "\" "@ + quoted_chunks(cs.drop_first()));
        start = start + 255;
    }
    let ghost rest = v@.skip(start as int);
    let last = slice_vec(v, start, v.len());
    assert(last@ =~= rest);
    let ghost before = out@;
    out.push('"');
    extend_chars(&mut out, &escape_quotes_exec(&last));
    out.push('"');
    assert(txt_chunks(rest) == seq![rest]);
    assert(out@ =~= before + quoted_chunks(txt_chunks(rest)));
    out
}

proof fn lemma_chunks_nonempty(v: Seq<char>)
    ensures
        txt_chunks(v).len() >= 1,
    decreases v.len(),
{
    if v.len() > 255 {
        lemma_chunks_nonempty(v.skip(255));
    }
}

fn escape_quotes_exec(s: &Vec<char>) -> (out: Vec<char>)
    ensures
        out@ == escape_quotes(s@),
{
    let mut out: Vec<char> = Vec::new();
    let mut i: usize = 0;
    while i < s.len()
        invariant
            i <= s.len(),
            out@ == escape_quotes(s@.take(i as int)),
        decreases s.len() - i,
    {
        assert(s@.take(i + 1).drop_last() =~= s@.take(i as int));
        if s[i] == '"' {
            out.push('\\');
            out.push('"');
        } else {
            out.push(s[i]);
        }
        i += 1;
    }
    assert(s@.take(s.len() as int) =~= s@);
    out
}

#[verifier::loop_isolation(false)]
fn glue_line_exec(domain: &Vec<char>, ns: &Vec<char>, names: &Vec<Vec<char>>, ip: &Vec<char>) -> (out: Vec<char>)
    ensures
        out@ == glue_line(domain@, ns@, names@.map_values(|n: Vec<char>| n@), ip@),
{
    let mut end: usize = ns.len();
    assert(ns@.take(ns.len() as int) =~= ns@);
    while end > 0 && ns[end - 1] == '.'
        invariant
            end <= ns.len(),
            trim_end_char(ns@, '.') == trim_end_char(ns@.take(end as int), '.'),
        decreases end,
    {
        assert(ns@.take(end as int).drop_last() =~= ns@.take(end - 1));
        end -= 1;
    }
    let host = slice_vec(ns, 0, end);
    assert(host@ =~= ns@.take(end as int));
    let mut prefix = slice_vec(domain, 0, domain.len());
    prefix.push('.');
    assert(prefix@ =~= domain@.push('.'));
    let ghost all_names = names@.map_values(|n: Vec<char>| n@);
    if host.len() >= prefix.len() && crate::text::starts_with_at(&host, &prefix, 0) {
        assert(host@.take(prefix@.len() as int) =~= host@.subrange(0, prefix@.len() as int));
        let label = slice_vec(&host, prefix.len(), host.len());
        assert(label@ =~= host@.skip(prefix@.len() as int));
        if label.len() == 0 {
            return Vec::new();
        }
        let mut k: usize = 0;
        while k < names.len()
            invariant
                k <= names@.len(),
                all_names == names@.map_values(|n: Vec<char>| n@),
                forall|j: int| 0 <= j < k ==> all_names[j] != label@,
            decreases names.len() - k,
        {
            if chars_eq(&names[k], &label) {
                assert(all_names[k as int] == label@);
                return Vec::new();
            }
            k += 1;
        }
        assert(!all_names.contains(label@));
        let mut out = slice_vec(&label, 0, label.len());
        extend_str(&mut out, " 3600 IN A ");
        extend_chars(&mut out, ip);
        out.push('\n');
        assert(label@.subrange(0, label@.len() as int) =~= label@);
        out
    } else {
        proof {
            if host@.len() >= prefix@.len() && host@.take(prefix@.len() as int) == prefix@ {
                assert(host@.take(prefix@.len() as int) =~= host@.subrange(0, prefix@.len() as int));
            }
        }
        Vec::new()
    }
}

/// The zone file of a domain; see `zone_text`.  `serial` is the time of
/// writing, in seconds.
pub fn render_zone(domain: &str, rows: &Vec<ZoneRow>, ns1: &str, ns2: &str, serial: u64, ip: &str) -> (out: String)
    ensures
        out@ == zone_text(domain@, rows@, ns1@, ns2@, serial, ip@),
{
    let d = chars_of(domain);
    let n1 = chars_of(fqdn(ns1).as_str());
    let n2 = chars_of(fqdn(ns2).as_str());
    let mut out = chars_of("; FPanel generated DNS zone for ");
    extend_chars(&mut out, &d);
    extend_str(&mut out, "\n$ORIGIN ");
    extend_chars(&mut out, &d);
    extend_str(&mut out, ".\n$TTL 3600\n@ IN SOA ");
    extend_chars(&mut out, &n1);
    extend_str(&mut out, " hostmaster.");
    extend_chars(&mut out, &d);
    extend_str(&mut out, ". ( ");
    extend_chars(&mut out, &crate::text::dec_u64(serial));
    extend_str(&mut out, " 7200 3600 1209600 300 )\n");
    assert(out@ =~= zone_head(domain@, n1@, serial));
    let ghost head = out@;
    let mut any_ns = false;
    let mut i: usize = 0;
    while i < rows.len()
        invariant
            i <= rows@.len(),
            any_ns == exists|j: int| 0 <= j < i && (#[trigger] rows@[j]).rtype@ == "NS"@,
        decreases rows.len() - i,
    {
        if is_literal(&chars_of(rows[i].rtype.as_str()), "NS") {
            any_ns = true;
        }
        i += 1;
    }
    if !any_ns {
        extend_str(&mut out, "@ IN NS ");
        extend_chars(&mut out, &n1);
        extend_str(&mut out, "\n@ IN NS ");
        extend_chars(&mut out, &n2);
        extend_str(&mut out, "\n");
    }
    let ghost with_ns = out@;
    let mut names: Vec<Vec<char>> = Vec::new();
    let mut i: usize = 0;
    while i < rows.len()
        invariant
            i <= rows@.len(),
            out@ == with_ns + records_text(rows@.take(i as int)),
            names@.map_values(|n: Vec<char>| n@) == address_names(rows@.take(i as int)),
        decreases rows.len() - i,
    {
        proof {
            lemma_type_names();
        }
        assert(rows@.take(i + 1).drop_last() =~= rows@.take(i as int));
        let line = record_line_exec(&rows[i]);
        extend_chars(&mut out, &line);
        let rt = chars_of(rows[i].rtype.as_str());
        let ghost before = names@;
        if is_literal(&rt, "A") || is_literal(&rt, "AAAA") {
            names.push(chars_of(rows[i].name.as_str()));
            assert(names@.map_values(|n: Vec<char>| n@) =~= before.map_values(|n: Vec<char>| n@).push(
                rows@[i as int].name@,
            ));
        }
        i += 1;
    }
    assert(rows@.take(rows.len() as int) =~= rows@);
    let ip_v = chars_of(ip);
    extend_chars(&mut out, &glue_line_exec(&d, &n1, &names, &ip_v));
    extend_chars(&mut out, &glue_line_exec(&d, &n2, &names, &ip_v));
    string_of(&out)
}

// ================================================================ storing records

/// A record as it is stored.
pub struct StoredRecord {
    pub name: String,
    pub rtype: String,
    pub value: String,
    pub ttl: i64,
    pub priority: Option<i64>,
}

/// A changed record before it is checked: each field from the request, or
/// the stored one where the request has none; the type upper-cased.
pub struct RecordDraft {
    pub name: String,
    pub rtype: String,
    pub value: String,
    pub ttl: i64,
    pub priority: Option<i64>,
}

pub open spec fn or_seq(o: Option<String>, d: Seq<char>) -> Seq<char> {
    match o {
        Some(s) => s@,
        None => d,
    }
}

/// The stored form of a new record: name (default `@`) trimmed and lower-cased,
/// type upper-cased, value trimmed, TTL 3600 by default.
pub open spec fn stores_new(s: StoredRecord, input: CreateDns) -> bool {
    &&& s.name@ == unicode_lower(trim(or_seq(input.name, "@"@)))
    &&& s.rtype@ == unicode_upper(input.rtype@)
    &&& s.value@ == trim(input.value@)
    &&& s.ttl == (match input.ttl {
        Some(t) => t,
        None => 3600,
    })
    &&& s.priority == input.priority
}

/// Checks and normalises a new record.  `ipv4` and `ipv6` are whether the
/// trimmed value parses as an IPv4 and as an IPv6 address.
pub fn prepare_create(input: &CreateDns, ipv4: bool, ipv6: bool) -> (r: Result<StoredRecord, ApiError>)
    ensures
        match record_refusal(
            input.rtype@,
            match input.name {
                Some(n) => Some(n@),
                None => None,
            },
            input.value@,
            input.ttl,
            ipv4,
            ipv6,
        ) {
            None => r matches Ok(s) && stores_new(s, *input),
            Some(msg) => r matches Err(e) && is_error(e, 400, msg),
        },
{
    let name_ref: Option<&str> = match &input.name {
        Some(n) => Some(n.as_str()),
        None => None,
    };
    match validate_record(input.rtype.as_str(), name_ref, input.value.as_str(), input.ttl, ipv4, ipv6) {
        Err(e) => Err(e),
        Ok(()) => {
            let raw_name = match &input.name {
                Some(n) => string_of(&chars_of(n.as_str())),
                None => "@".to_string(),
            };
            let name = to_lowercase(string_of(&trim_str(raw_name.as_str())).as_str());
            let ttl: i64 = match input.ttl {
                Some(t) => t,
                None => 3600,
            };
            Ok(StoredRecord {
                name,
                rtype: to_uppercase(input.rtype.as_str()),
                value: string_of(&trim_str(input.value.as_str())),
                ttl,
                priority: input.priority,
            })
        },
    }
}

/// Merges a change into the stored record.
pub fn merge_update(existing: &DnsRecord, input: &UpdateDns) -> (d: RecordDraft)
    ensures
        d.name@ == or_seq(input.name, existing.name@),
        d.rtype@ == unicode_upper(or_seq(input.rtype, existing.rtype@)),
        d.value@ == or_seq(input.value, existing.value@),
        d.ttl == (match input.ttl {
            Some(t) => t,
            None => existing.ttl,
        }),
        d.priority == input.priority,
{
    let name = match &input.name {
        Some(n) => string_of(&chars_of(n.as_str())),
        None => string_of(&chars_of(existing.name.as_str())),
    };
    let rtype_raw = match &input.rtype {
        Some(t) => string_of(&chars_of(t.as_str())),
        None => string_of(&chars_of(existing.rtype.as_str())),
    };
    let value = match &input.value {
        Some(v) => string_of(&chars_of(v.as_str())),
        None => string_of(&chars_of(existing.value.as_str())),
    };
    let ttl: i64 = match input.ttl {
        Some(t) => t,
        None => existing.ttl,
    };
    RecordDraft { name, rtype: to_uppercase(rtype_raw.as_str()), value, ttl, priority: input.priority }
}

/// Checks and normalises a changed record: its name trimmed and
/// lower-cased, its value trimmed.
pub fn prepare_update(d: &RecordDraft, ipv4: bool, ipv6: bool) -> (r: Result<StoredRecord, ApiError>)
    ensures
        match record_refusal(d.rtype@, Some(d.name@), d.value@, Some(d.ttl), ipv4, ipv6) {
            None => r matches Ok(s) && s.name@ == unicode_lower(trim(d.name@)) && s.rtype@ == d.rtype@
                && s.value@ == trim(d.value@) && s.ttl == d.ttl && s.priority == d.priority,
            Some(msg) => r matches Err(e) && is_error(e, 400, msg),
        },
{
    match validate_record(d.rtype.as_str(), Some(d.name.as_str()), d.value.as_str(), Some(d.ttl), ipv4, ipv6) {
        Err(e) => Err(e),
        Ok(()) => Ok(StoredRecord {
            name: to_lowercase(string_of(&trim_str(d.name.as_str())).as_str()),
            rtype: string_of(&chars_of(d.rtype.as_str())),
            value: string_of(&trim_str(d.value.as_str())),
            ttl: d.ttl,
            priority: d.priority,
        }),
    }
}

// ================================================================ seeding

/// The first main domain under which `name` lies as a proper subdomain:
/// `name` ends with `.` and the main domain's name, and is longer.
pub open spec fn main_parent_index(name: Seq<char>, mains: Seq<(i64, String)>) -> int
    decreases mains.len(),
{
    if mains.len() == 0 {
        -1
    } else {
        let suffix = seq!['.'] + mains[0].1@;
        if name.len() > suffix.len() && ends_with(name, suffix) {
            0
        } else {
            let k = main_parent_index(name, mains.drop_first());
            if k < 0 {
                -1
            } else {
                k + 1
            }
        }
    }
}

proof fn lemma_main_parent_index(name: Seq<char>, mains: Seq<(i64, String)>)
    ensures
        -1 <= main_parent_index(name, mains) < mains.len(),
    decreases mains.len(),
{
    if mains.len() > 0 {
        lemma_main_parent_index(name, mains.drop_first());
    }
}

/// Among the active main domains (id and name, in the order the database
/// lists them), the one `name` lies under.
pub fn owned_main_parent(name: &str, mains: &Vec<(i64, String)>) -> (r: Option<(i64, String)>)
    ensures
        main_parent_index(name@, mains@) < 0 ==> r is None,
        main_parent_index(name@, mains@) >= 0 ==> (r matches Some((id, n)) && id == mains@[main_parent_index(
            name@,
            mains@,
        )].0 && n@ == mains@[main_parent_index(name@, mains@)].1@),
{
    let nv = chars_of(name);
    let mut i: usize = 0;
    proof {
        lemma_main_parent_index(name@, mains@);
        assert(mains@.skip(0) =~= mains@);
    }
    while i < mains.len()
        invariant
            i <= mains@.len(),
            nv@ == name@,
            forall|j: int| 0 <= j < i ==> !(name@.len() > (seq!['.'] + (#[trigger] mains@[j]).1@).len() && ends_with(
                name@,
                seq!['.'] + mains@[j].1@,
            )),
            main_parent_index(name@, mains@) == (if main_parent_index(name@, mains@.skip(i as int)) < 0 {
                -1
            } else {
                main_parent_index(name@, mains@.skip(i as int)) + i
            }),
        decreases mains.len() - i,
    {
        let mut suffix: Vec<char> = Vec::new();
        suffix.push('.');
        extend_str(&mut suffix, mains[i].1.as_str());
        assert(suffix@ =~= seq!['.'] + mains@[i as int].1@);
        let ghost rest = mains@.skip(i as int);
        assert(rest[0] == mains@[i as int]);
        assert(rest.drop_first() =~= mains@.skip(i + 1));
        if nv.len() > suffix.len() && vec_ends_with(&nv, &suffix) {
            return Some((mains[i].0, string_of(&chars_of(mains[i].1.as_str()))));
        }
        i += 1;
    }
    None
}

/// `s.strip_suffix(p).unwrap_or(s)`.
pub open spec fn strip_suffix_or(s: Seq<char>, p: Seq<char>) -> Seq<char> {
    if ends_with(s, p) {
        s.take(s.len() - p.len())
    } else {
        s
    }
}

/// A record to add when it is not there yet.
pub struct SeedRecord {
    pub name: String,
    pub rtype: String,
    pub value: String,
}

/// The records that a new domain brings, and the zone that gets them.
pub struct SeedPlan {
    pub zone_id: i64,
    pub zone_name: String,
    pub records: Vec<SeedRecord>,
}

pub open spec fn seed_view(r: SeedRecord) -> (Seq<char>, Seq<char>, Seq<char>) {
    (r.name@, r.rtype@, r.value@)
}

/// The records of a zone of its own: the domain at the server's address,
/// the two name servers, and `www` as an alias of the domain.
pub open spec fn own_zone_records(name: Seq<char>, ip: Seq<char>, ns1: Seq<char>, ns2: Seq<char>) -> Seq<(Seq<char>, Seq<char>, Seq<char>)> {
    seq![
        ("@"@, "A"@, ip),
        ("@"@, "NS"@, fqdn_spec(ns1)),
        ("@"@, "NS"@, fqdn_spec(ns2)),
        ("www"@, "CNAME"@, fqdn_spec(name)),
    ]
}

fn seed(name: &str, rtype: &str, value: &str) -> (r: SeedRecord)
    ensures
        seed_view(r) == (name@, rtype@, value@),
{
    SeedRecord { name: name.to_string(), rtype: rtype.to_string(), value: value.to_string() }
}

fn own_zone(domain_id: i64, name: &str, ip: &str, ns1: &str, ns2: &str) -> (p: SeedPlan)
    ensures
        p.zone_id == domain_id,
        p.zone_name@ == name@,
        p.records@.map_values(|r: SeedRecord| seed_view(r)) == own_zone_records(name@, ip@, ns1@, ns2@),
{
    let mut records: Vec<SeedRecord> = Vec::new();
    records.push(seed("@", "A", ip));
    records.push(seed("@", "NS", fqdn(ns1).as_str()));
    records.push(seed("@", "NS", fqdn(ns2).as_str()));
    records.push(seed("www", "CNAME", fqdn(name).as_str()));
    let p = SeedPlan { zone_id: domain_id, zone_name: name.to_string(), records };
    assert(p.records@.map_values(|r: SeedRecord| seed_view(r)) =~= own_zone_records(name@, ip@, ns1@, ns2@));
    p
}

/// What a new active domain adds to DNS: a main domain gets a zone of its
/// own; another domain under an active main domain gets, in that zone, its
/// label as an alias of the main domain (kind `alias`) or at the server's
/// address; an addon domain under none gets a zone of its own; anything
/// else adds nothing.
pub fn seed_plan(
    domain_id: i64,
    name: &str,
    kind: &str,
    mains: &Vec<(i64, String)>,
    ip: &str,
    ns1: &str,
    ns2: &str,
) -> (r: Option<SeedPlan>)
    ensures
        kind@ == "main"@ ==> (r matches Some(p) && p.zone_id == domain_id && p.zone_name@ == name@
            && p.records@.map_values(|r: SeedRecord| seed_view(r)) == own_zone_records(name@, ip@, ns1@, ns2@)),
        kind@ != "main"@ && main_parent_index(name@, mains@) >= 0 ==> ({
            let parent = mains@[main_parent_index(name@, mains@)];
            let label = strip_suffix_or(name@, seq!['.'] + parent.1@);
            r matches Some(p) && p.zone_id == parent.0 && p.zone_name@ == parent.1@
                && p.records@.map_values(|r: SeedRecord| seed_view(r)) == seq![
                if kind@ == "alias"@ {
                    (label, "CNAME"@, fqdn_spec(parent.1@))
                } else {
                    (label, "A"@, ip@)
                },
            ]
        }),
        kind@ != "main"@ && main_parent_index(name@, mains@) < 0 ==> (if kind@ == "addon"@ {
            r matches Some(p) && p.zone_id == domain_id && p.zone_name@ == name@
                && p.records@.map_values(|r: SeedRecord| seed_view(r)) == own_zone_records(name@, ip@, ns1@, ns2@)
        } else {
            r is None
        }),
{
    let k = chars_of(kind);
    if is_literal(&k, "main") {
        return Some(own_zone(domain_id, name, ip, ns1, ns2));
    }
    match owned_main_parent(name, mains) {
        Some((pid, pname)) => {
            let nv = chars_of(name);
            let mut suffix: Vec<char> = Vec::new();
            suffix.push('.');
            extend_str(&mut suffix, pname.as_str());
            let label = if vec_ends_with(&nv, &suffix) {
                slice_vec(&nv, 0, nv.len() - suffix.len())
            } else {
                slice_vec(&nv, 0, nv.len())
            };
            assert(nv@.subrange(0, nv@.len() as int) =~= nv@);
            assert(suffix@ =~= seq!['.'] + pname@);
            let rec = if is_literal(&k, "alias") {
                seed(string_of(&label).as_str(), "CNAME", fqdn(pname.as_str()).as_str())
            } else {
                seed(string_of(&label).as_str(), "A", ip)
            };
            let mut records: Vec<SeedRecord> = Vec::new();
            records.push(rec);
            let p = SeedPlan { zone_id: pid, zone_name: pname, records };
            assert(p.records@.map_values(|r: SeedRecord| seed_view(r)) =~= seq![seed_view(p.records@[0])]);
            Some(p)
        },
        None => {
            if is_literal(&k, "addon") {
                Some(own_zone(domain_id, name, ip, ns1, ns2))
            } else {
                None
            }
        },
    }
}

/// What removing a domain takes out of DNS.
pub enum CleanupPlan {
    /// A main domain: all its records, and its zone.
    DropZone,
    /// A domain under a main domain: the records of its label in that zone.
    DropLabel { zone_id: i64, label: String },
    /// Nothing.
    Nothing,
}

pub fn cleanup_plan(name: &str, kind: &str, mains: &Vec<(i64, String)>) -> (r: CleanupPlan)
    ensures
        kind@ == "main"@ ==> r is DropZone,
        kind@ != "main"@ && main_parent_index(name@, mains@) >= 0 ==> ({
            let parent = mains@[main_parent_index(name@, mains@)];
            r matches CleanupPlan::DropLabel { zone_id, label } && zone_id == parent.0 && label@
                == strip_suffix_or(name@, seq!['.'] + parent.1@)
        }),
        kind@ != "main"@ && main_parent_index(name@, mains@) < 0 ==> r is Nothing,
{
    if is_literal(&chars_of(kind), "main") {
        return CleanupPlan::DropZone;
    }
    match owned_main_parent(name, mains) {
        Some((pid, pname)) => {
            let nv = chars_of(name);
            let mut suffix: Vec<char> = Vec::new();
            suffix.push('.');
            extend_str(&mut suffix, pname.as_str());
            assert(suffix@ =~= seq!['.'] + pname@);
            let label = if vec_ends_with(&nv, &suffix) {
                slice_vec(&nv, 0, nv.len() - suffix.len())
            } else {
                slice_vec(&nv, 0, nv.len())
            };
            assert(nv@.subrange(0, nv@.len() as int) =~= nv@);
            CleanupPlan::DropLabel { zone_id: pid, label: string_of(&label) }
        },
        None => CleanupPlan::Nothing,
    }
}

// ================================================================ the name server

/// The name server serves the zones when `FPANEL_NSD` is set to anything
/// but `0`, or, where it is not set, when its zones directory exists.
pub fn nsd_active(setting: Option<&str>, zones_dir_exists: bool) -> (b: bool)
    ensures
        b == (match setting {
            Some(v) => v@ != "0"@,
            None => zones_dir_exists,
        }),
{
    match setting {
        Some(v) => !is_literal(&chars_of(v), "0"),
        None => zones_dir_exists,
    }
}

/// The opening of a zone's stanza, by which an existing stanza is recognised.
pub open spec fn stanza_head(domain: Seq<char>) -> Seq<char> {
    "zone:\n\tname: \""@ + domain + seq!['"']
}

/// The configuration stanza that makes the name server load a zone file.
pub open spec fn stanza_text(domain: Seq<char>, zonefile: Seq<char>) -> Seq<char> {
    stanza_head(domain) + "\n\tzonefile: \""@ + zonefile + seq!['"', '\n']
}

/// The stanza to write for a zone, or none where the existing configuration
/// already holds one for the domain.
pub fn nsd_stanza(existing: &str, domain: &str, zonefile: &str) -> (r: Option<String>)
    ensures
        crate::text::contains_seq(existing@, stanza_head(domain@)) ==> r is None,
        !crate::text::contains_seq(existing@, stanza_head(domain@)) ==> (r matches Some(s) && s@ == stanza_text(
            domain@,
            zonefile@,
        )),
{
    let mut head = chars_of("zone:\n\tname: \"");
    extend_str(&mut head, domain);
    head.push('"');
    assert(head@ =~= stanza_head(domain@));
    if crate::text::contains_vec(&chars_of(existing), &head) {
        return None;
    }
    let mut s = head;
    extend_str(&mut s, "\n\tzonefile: \"");
    extend_str(&mut s, zonefile);
    s.push('"');
    s.push('\n');
    assert(s@ =~= stanza_text(domain@, zonefile@));
    Some(string_of(&s))
}

/// Making a name fully qualified twice changes nothing more.
pub proof fn law_fqdn_idempotent(s: Seq<char>)
    ensures
        fqdn_spec(fqdn_spec(s)) == fqdn_spec(s),
        fqdn_spec(s).last() == '.',
{
}

/// The lines of the first `j` records begin the lines of all of them.
proof fn lemma_records_prefix(rows: Seq<ZoneRow>, j: int) -> (rest: Seq<char>)
    requires
        0 <= j <= rows.len(),
    ensures
        records_text(rows) == records_text(rows.take(j)) + rest,
    decreases rows.len(),
{
    if j == rows.len() {
        assert(rows.take(j) =~= rows);
        assert(records_text(rows) =~= records_text(rows.take(j)) + Seq::<char>::empty());
        Seq::empty()
    } else {
        let r = lemma_records_prefix(rows.drop_last(), j);
        assert(rows.drop_last().take(j) =~= rows.take(j));
        assert(records_text(rows) =~= records_text(rows.take(j)) + (r + record_line(rows.last())));
        r + record_line(rows.last())
    }
}

/// `piece` stands somewhere in `text`.
pub open spec fn occurs_in(text: Seq<char>, piece: Seq<char>) -> bool {
    exists|k: int| 0 <= k && k + piece.len() <= text.len() && #[trigger] text.subrange(k, k + piece.len()) == piece
}

/// A CNAME or NS line names the target made absolute.
proof fn lemma_host_line(row: ZoneRow)
    requires
        row.rtype@ == "CNAME"@ || row.rtype@ == "NS"@,
    ensures
        record_line(row) == row.name@ + seq![' '] + dec_int(row.ttl as int) + " IN "@ + row.rtype@ + seq![' ']
            + fqdn_spec(row.value@) + seq!['\n'],
{
    lemma_type_names();
}

/// In the zone of a domain every CNAME and NS record is written with an
/// absolute target: its line is `name ttl IN TYPE target`, where the target
/// is the stored value with a trailing dot added unless it already ends in
/// one, so it always ends in a dot.
pub proof fn law_zone_host_targets_absolute(
    domain: Seq<char>,
    rows: Seq<ZoneRow>,
    ns1: Seq<char>,
    ns2: Seq<char>,
    serial: u64,
    ip: Seq<char>,
    i: int,
)
    requires
        0 <= i < rows.len(),
        rows[i].rtype@ == "CNAME"@ || rows[i].rtype@ == "NS"@,
    ensures
        ({
            let v = rows[i].value@;
            let target = if v.len() > 0 && v.last() == '.' { v } else { v.push('.') };
            let line = rows[i].name@ + seq![' '] + dec_int(rows[i].ttl as int) + " IN "@ + rows[i].rtype@ + seq![' ']
                + target + seq!['\n'];
            let z = zone_text(domain, rows, ns1, ns2, serial, ip);
            &&& target.len() > 0 && target.last() == '.'
            &&& occurs_in(z, line)
        }),
{
    let row = rows[i];
    let v = row.value@;
    let target = if v.len() > 0 && v.last() == '.' { v } else { v.push('.') };
    let line = row.name@ + seq![' '] + dec_int(row.ttl as int) + " IN "@ + row.rtype@ + seq![' '] + target + seq!['\n'];
    lemma_host_line(row);
    assert(fqdn_spec(v) == target);
    assert(record_line(row) == line);
    let (before, rest) = lemma_record_in_records(rows, i);
    let (a, b) = lemma_zone_split(domain, rows, ns1, ns2, serial, ip);
    lemma_occurs(a, before, line, rest, b);
}

/// The line of the `i`-th record stands among the record lines.
proof fn lemma_record_in_records(rows: Seq<ZoneRow>, i: int) -> (r: (Seq<char>, Seq<char>))
    requires
        0 <= i < rows.len(),
    ensures
        records_text(rows) == r.0 + record_line(rows[i]) + r.1,
{
    let rest = lemma_records_prefix(rows, i + 1);
    assert(rows.take(i + 1).drop_last() =~= rows.take(i));
    assert(rows.take(i + 1).last() == rows[i]);
    (records_text(rows.take(i)), rest)
}

/// The zone is its head and default name servers, the record lines, then glue.
proof fn lemma_zone_split(
    domain: Seq<char>,
    rows: Seq<ZoneRow>,
    ns1: Seq<char>,
    ns2: Seq<char>,
    serial: u64,
    ip: Seq<char>,
) -> (r: (Seq<char>, Seq<char>))
    ensures
        zone_text(domain, rows, ns1, ns2, serial, ip) == r.0 + records_text(rows) + r.1,
{
    let n1 = fqdn_spec(ns1);
    let n2 = fqdn_spec(ns2);
    let a = zone_head(domain, n1, serial) + (if has_ns(rows) {
        Seq::empty()
    } else {
        "@ IN NS "@ + n1 + "\n@ IN NS "@ + n2 + "\n"@
    });
    let names = address_names(rows);
    let b = glue_line(domain, n1, names, ip) + glue_line(domain, n2, names, ip);
    (a, b)
}

/// A piece placed between two texts stands in the whole.
proof fn lemma_occurs(a: Seq<char>, before: Seq<char>, line: Seq<char>, rest: Seq<char>, b: Seq<char>)
    ensures
        occurs_in(a + (before + line + rest) + b, line),
{
    let z = a + (before + line + rest) + b;
    let k: int = (a.len() + before.len()) as int;
    assert(z.subrange(k, k + line.len() as int) =~= line);
}

/// A character a record name may hold: an ASCII letter or digit, `-`, `.`,
/// `*` or `_` (wildcards and the underscore labels of DMARC, DKIM and SRV).
pub open spec fn name_char(c: char) -> bool {
    ('a' <= c && c <= 'z') || ('A' <= c && c <= 'Z') || ('0' <= c && c <= '9') || c == '-' || c == '.' || c == '*'
        || c == '_'
}

/// A record name made only of letters, digits, `-`, `.`, `*` and `_` (such
/// as `_dmarc` or `default._domainkey`) is never refused as an invalid name,
/// whatever the type, value and TTL; and where the rest of the record is
/// acceptable the record is accepted with that name as it would be without
/// one.
pub proof fn law_underscore_names_accepted(
    rtype: Seq<char>,
    name: Seq<char>,
    value: Seq<char>,
    ttl: Option<i64>,
    ipv4: bool,
    ipv6: bool,
)
    requires
        forall|i: int| 0 <= i < name.len() ==> name_char(#[trigger] name[i]),
    ensures
        record_refusal(rtype, Some(name), value, ttl, ipv4, ipv6) != Some("Invalid record name"@),
        record_refusal(rtype, Some(name), value, ttl, ipv4, ipv6) == record_refusal(rtype, None, value, ttl, ipv4, ipv6),
{
    reveal_strlit("Invalid record name");
    reveal_strlit("Record value is required");
    reveal_strlit("TTL must be between 1 and 604800");
    reveal_strlit("Record value contains invalid characters");
    reveal_strlit("Invalid IPv4 address for A record");
    reveal_strlit("Invalid IPv6 address for AAAA record");
    reveal_strlit("TXT value must be printable ASCII up to 255 characters");
    reveal_strlit("Unsupported record type (must be one of: A, AAAA, CNAME, MX, TXT, NS, SRV, CAA)");
    reveal_strlit(" record");
    reveal_strlit("Invalid target for ");
    assert("Invalid record name"@.len() == 19);
    assert("Record value is required"@.len() == 24);
    assert("Invalid IPv4 address for A record"@.len() == 33);
    assert("Invalid IPv6 address for AAAA record"@.len() == 36);
    assert("TTL must be between 1 and 604800"@.len() == 32);
    assert("Record value contains invalid characters"@.len() == 40);
    assert("TXT value must be printable ASCII up to 255 characters"@.len() == 54);
    assert(unsupported_type_message().len() > 19);
    assert("Invalid target for "@.len() == 19 && " record"@.len() == 7);
    if name.len() > 0 {
        assert(!crate::text::is_ws(name[0]));
        assert(!crate::text::is_ws(name.last()));
    }
    assert(crate::text::trim_start(name) == name);
    assert(crate::text::trim_end(name) == name);
    assert(trim(name) == name);
    assert(all_in_class(name, seq!['-', '.', '*', '_'])) by {
        assert forall|i: int| 0 <= i < name.len() implies (crate::text::is_ascii_alnum(#[trigger] name[i])
            || seq!['-', '.', '*', '_'].contains(name[i])) by {
            assert(name_char(name[i]));
            if name[i] == '-' {
                assert(seq!['-', '.', '*', '_'][0] == '-');
            } else if name[i] == '.' {
                assert(seq!['-', '.', '*', '_'][1] == '.');
            } else if name[i] == '*' {
                assert(seq!['-', '.', '*', '_'][2] == '*');
            } else if name[i] == '_' {
                assert(seq!['-', '.', '*', '_'][3] == '_');
            }
        }
    }
}

} // verus!
