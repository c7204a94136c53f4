//! The security settings of domains (blocked addresses, hotlink
//! protection, application firewall): their defaults, the checks on them,
//! and the descriptor that the web server enforces.
use vstd::prelude::*;
use crate::error::{ApiError, is_error};
use crate::provision::{HotlinkCfg, SecurityProvision, WafCfg};
use crate::text::{chars_eq, chars_of, extend_str, split_char, split_once, split_once_on, string_of, trim, trim_chars, trim_str};

verus! {

/// A firewall rule as an account edits it.
pub struct WafRuleIn {
    pub id: String,
    pub name: String,
    pub pattern: String,
    pub severity: String,
    pub action: String,
}

// ================================================================ built-in rules

/// The identifiers of the built-in rules, in order.
pub open spec fn builtin_id(i: int) -> Seq<char> {
    if i == 0 { "sqli"@ }
    else if i == 1 { "xss"@ }
    else if i == 2 { "lfi"@ }
    else if i == 3 { "rfi"@ }
    else if i == 4 { "cmdi"@ }
    else if i == 5 { "phpi"@ }
    else if i == 6 { "cve"@ }
    else if i == 7 { "scanner"@ }
    else if i == 8 { "traversal"@ }
    else { "dotenv"@ }
}

/// The descriptions of the built-in rules.
pub open spec fn builtin_name(i: int) -> Seq<char> {
    if i == 0 { "SQL injection"@ }
    else if i == 1 { "Cross-site scripting"@ }
    else if i == 2 { "Local file inclusion"@ }
    else if i == 3 { "Remote file inclusion"@ }
    else if i == 4 { "Command injection"@ }
    else if i == 5 { "PHP function abuse"@ }
    else if i == 6 { "Directory traversal"@ }
    else if i == 7 { "Vulnerability scanner"@ }
    else if i == 8 { "Encoded traversal"@ }
    else { "Config exposure"@ }
}

/// The patterns of the built-in rules.
pub open spec fn builtin_pattern(i: int) -> Seq<char> {
    if i == 0 { r"(?i)(union\s+select|select\s+.*\s+from|insert\s+into|update\s+.*\s+set|drop\s+table|--|/\*|\b(or|and)\s+\d+=\d+)"@ }
    else if i == 1 { r"(?i)(<script|javascript:|onerror\s*=|onload\s*=|<iframe|<object|<embed)"@ }
    else if i == 2 { r"(?i)(\.\./|\.\.\\|/etc/passwd|/etc/shadow|windows\\win\.ini|php://filter)"@ }
    else if i == 3 { r"(?i)(https?://\S+\.(php|txt|log))"@ }
    else if i == 4 { r"(?i)(;\s*(cat|ls|wget|curl|nc|bash|sh|pwd)\b|\|\s*(cat|ls|sh)\b|`[^`]+`)"@ }
    else if i == 5 { r"(?i)(\b(move_uploaded_file|eval|assert|system|passthru|shell_exec)\s*\()"@ }
    else if i == 6 { r"(?i)(\.\./\.\./\.\./|/\.\.|\.\./)"@ }
    else if i == 7 { r"(?i)((acunetix|nessus|nikto|sqlmap|burp|zap)\b)"@ }
    else if i == 8 { r"(?i)(%2e%2e%2f|%252e|.\{2\}\/)"@ }
    else { r"(?i)(\.env\b|wp-config\.php|config\.inc\.php)"@ }
}

fn rule(id: &str, name: &str, pattern: &str) -> (r: WafRuleIn)
    ensures
        r.id@ == id@ && r.name@ == name@ && r.pattern@ == pattern@,
        r.severity@ == "medium"@ && r.action@ == "block"@,
{
    WafRuleIn {
        id: id.to_string(),
        name: name.to_string(),
        pattern: pattern.to_string(),
        severity: "medium".to_string(),
        action: "block".to_string(),
    }
}

/// The built-in rule set: ten rules of medium severity that block.
pub fn defaults() -> (v: Vec<WafRuleIn>)
    ensures
        v@.len() == 10,
        forall|i: int| 0 <= i < 10 ==> {
            let r = #[trigger] v@[i];
            &&& r.id@ == builtin_id(i)
            &&& r.name@ == builtin_name(i)
            &&& r.pattern@ == builtin_pattern(i)
            &&& r.severity@ == "medium"@
            &&& r.action@ == "block"@
        },
{
    let mut v: Vec<WafRuleIn> = Vec::new();
    v.push(rule("sqli", "SQL injection", r"(?i)(union\s+select|select\s+.*\s+from|insert\s+into|update\s+.*\s+set|drop\s+table|--|/\*|\b(or|and)\s+\d+=\d+)"));
    v.push(rule("xss", "Cross-site scripting", r"(?i)(<script|javascript:|onerror\s*=|onload\s*=|<iframe|<object|<embed)"));
    v.push(rule("lfi", "Local file inclusion", r"(?i)(\.\./|\.\.\\|/etc/passwd|/etc/shadow|windows\\win\.ini|php://filter)"));
    v.push(rule("rfi", "Remote file inclusion", r"(?i)(https?://\S+\.(php|txt|log))"));
    v.push(rule("cmdi", "Command injection", r"(?i)(;\s*(cat|ls|wget|curl|nc|bash|sh|pwd)\b|\|\s*(cat|ls|sh)\b|`[^`]+`)"));
    v.push(rule("phpi", "PHP function abuse", r"(?i)(\b(move_uploaded_file|eval|assert|system|passthru|shell_exec)\s*\()"));
    v.push(rule("cve", "Directory traversal", r"(?i)(\.\./\.\./\.\./|/\.\.|\.\./)"));
    v.push(rule("scanner", "Vulnerability scanner", r"(?i)((acunetix|nessus|nikto|sqlmap|burp|zap)\b)"));
    v.push(rule("traversal", "Encoded traversal", r"(?i)(%2e%2e%2f|%252e|.\{2\}\/)"));
    v.push(rule("dotenv", "Config exposure", r"(?i)(\.env\b|wp-config\.php|config\.inc\.php)"));
    v
}

// ================================================================ addresses

/// Why an address to block is refused (400), if it is.  `whole_ok` and
/// `part_ok` say whether the trimmed text, and its part before the first
/// `/`, read as an IP address.
pub open spec fn ip_refusal(ip: Seq<char>, whole_ok: bool, part_ok: bool) -> Option<Seq<char>> {
    let s = trim(ip);
    if s.len() == 0 {
        Some("IP address is required"@)
    } else {
        let ok = match split_once(s, '/') {
            Some((_, cidr)) => part_ok && (crate::text::parse_unsigned(cidr, 255) matches Some(n) && n <= 32),
            None => whole_ok,
        };
        if ok {
            None
        } else {
            Some("'"@ + s + "' is not a valid IP address or CIDR"@)
        }
    }
}

/// Checks an address or network to block; the trimmed text is stored.
pub fn valid_ip(ip: &str, whole_ok: bool, part_ok: bool) -> (r: Result<String, ApiError>)
    ensures
        match ip_refusal(ip@, whole_ok, part_ok) {
            Some(msg) => r matches Err(e) && is_error(e, 400, msg),
            None => r matches Ok(s) && s@ == trim(ip@),
        },
{
    let s = trim_str(ip);
    if s.len() == 0 {
        return Err(ApiError::new(400, "IP address is required"));
    }
    let ok = match split_once_on(&s, '/') {
        Some((_, cidr)) => part_ok && match crate::text::parse_u64_max(&cidr, 255) {
            Some(n) => n <= 32,
            None => false,
        },
        None => whole_ok,
    };
    if !ok {
        let mut m = chars_of("'");
        crate::text::extend_chars(&mut m, &s);
        extend_str(&mut m, "' is not a valid IP address or CIDR");
        proof {
            reveal_strlit("'");
        }
        assert(m@ =~= "'"@ + s@ + "' is not a valid IP address or CIDR"@);
        return Err(ApiError::from_chars(400, &m));
    }
    Ok(string_of(&s))
}

/// The blocked addresses of a domain: the account's global ones, then the
/// domain's own that are not among them yet.
pub open spec fn merged_ips(acc: Seq<Seq<char>>, owned: Seq<Seq<char>>) -> Seq<Seq<char>>
    decreases owned.len(),
{
    if owned.len() == 0 {
        acc
    } else if acc.contains(owned[0]) {
        merged_ips(acc, owned.drop_first())
    } else {
        merged_ips(acc.push(owned[0]), owned.drop_first())
    }
}

pub open spec fn views(v: Seq<String>) -> Seq<Seq<char>> {
    v.map_values(|s: String| s@)
}

pub fn merge_ips(global: Vec<String>, owned: &Vec<String>) -> (r: Vec<String>)
    ensures
        views(r@) == merged_ips(views(global@), views(owned@)),
{
    let mut ips = global;
    let ghost ov = views(owned@);
    let mut i: usize = 0;
    assert(ov.skip(0) =~= ov);
    while i < owned.len()
        invariant
            i <= owned@.len(),
            ov == views(owned@),
            merged_ips(views(global@), ov) == merged_ips(views(ips@), ov.skip(i as int)),
        decreases owned.len() - i,
    {
        let ghost rest = ov.skip(i as int);
        assert(rest[0] == owned@[i as int]@);
        assert(rest.drop_first() =~= ov.skip(i + 1));
        let ghost iv = views(ips@);
        let x = chars_of(owned[i].as_str());
        let mut seen = false;
        let mut k: usize = 0;
        while k < ips.len()
            invariant
                k <= ips@.len(),
                iv == views(ips@),
                seen == exists|j: int| 0 <= j < k && iv[j] == x@,
            decreases ips.len() - k,
        {
            assert(iv[k as int] == ips@[k as int]@);
            if chars_eq(&chars_of(ips[k].as_str()), &x) {
                seen = true;
            }
            k += 1;
        }
        proof {
            if iv.contains(x@) {
                let j = choose|j: int| 0 <= j < iv.len() && iv[j] == x@;
                assert(iv[j] == x@);
            }
        }
        if !seen {
            ips.push(string_of(&x));
            assert(views(ips@) =~= iv.push(x@));
        }
        i += 1;
    }
    proof {
        assert(ov.skip(owned@.len() as int) =~= Seq::<Seq<char>>::empty());
    }
    ips
}

// ================================================================ hotlinks

/// `s.trim_start_matches(p)` for a non-empty `p`.
pub open spec fn strip_all_prefix(s: Seq<char>, p: Seq<char>) -> Seq<char>
    decreases s.len(),
{
    if p.len() > 0 && s.len() >= p.len() && s.take(p.len() as int) == p {
        strip_all_prefix(s.skip(p.len() as int), p)
    } else {
        s
    }
}

/// One allowed referrer: trimmed, without leading `http://` then
/// `https://` prefixes, without trailing `/`.
pub open spec fn clean_referrer(x: Seq<char>) -> Seq<char> {
    crate::text::trim_end_char(strip_all_prefix(strip_all_prefix(trim(x), "http://"@), "https://"@), '/')
}

/// `str::split` at any of `,`, space or newline.
pub open spec fn split_list(s: Seq<char>) -> Seq<Seq<char>>
    decreases s.len(),
{
    if s.len() == 0 {
        seq![Seq::<char>::empty()]
    } else {
        let rest = split_list(s.drop_last());
        let c = s.last();
        if c == ',' || c == ' ' || c == '\n' {
            rest.push(Seq::empty())
        } else {
            rest.update(rest.len() - 1, rest.last().push(c))
        }
    }
}

proof fn lemma_split_list_len(s: Seq<char>)
    ensures
        split_list(s).len() >= 1,
    decreases s.len(),
{
    if s.len() > 0 {
        lemma_split_list_len(s.drop_last());
    }
}

/// The allowed referrers, cleaned, empty ones left out.
pub open spec fn allowed_list(parts: Seq<Seq<char>>) -> Seq<Seq<char>>
    decreases parts.len(),
{
    if parts.len() == 0 {
        Seq::empty()
    } else if clean_referrer(parts.last()).len() == 0 {
        allowed_list(parts.drop_last())
    } else {
        allowed_list(parts.drop_last()).push(clean_referrer(parts.last()))
    }
}

fn strip_all_prefix_exec(s: &Vec<char>, p: &str) -> (r: Vec<char>)
    ensures
        r@ == strip_all_prefix(s@, p@),
{
    let pv = chars_of(p);
    let mut start: usize = 0;
    assert(s@.skip(0) =~= s@);
    while pv.len() > 0 && s.len() - start >= pv.len() && crate::text::starts_with_at(s, &pv, start)
        invariant
            start <= s.len(),
            pv@ == p@,
            strip_all_prefix(s@, p@) == strip_all_prefix(s@.skip(start as int), p@),
        decreases s.len() - start,
    {
        let ghost rest = s@.skip(start as int);
        assert(rest.take(pv@.len() as int) =~= s@.subrange(start as int, start + pv@.len()));
        assert(rest.skip(pv@.len() as int) =~= s@.skip(start + pv@.len()));
        start = start + pv.len();
    }
    proof {
        let rest = s@.skip(start as int);
        if pv@.len() > 0 && rest.len() >= pv@.len() && rest.take(pv@.len() as int) == pv@ {
            assert(rest.take(pv@.len() as int) =~= s@.subrange(start as int, start + pv@.len()));
        }
    }
    let r = crate::text::slice_vec(s, start, s.len());
    assert(r@ =~= s@.skip(start as int));
    r
}

fn trim_end_slash(s: &Vec<char>) -> (r: Vec<char>)
    ensures
        r@ == crate::text::trim_end_char(s@, '/'),
{
    let mut end: usize = s.len();
    assert(s@.take(s.len() as int) =~= s@);
    while end > 0 && s[end - 1] == '/'
        invariant
            end <= s.len(),
            crate::text::trim_end_char(s@, '/') == crate::text::trim_end_char(s@.take(end as int), '/'),
        decreases end,
    {
        assert(s@.take(end as int).drop_last() =~= s@.take(end - 1));
        end -= 1;
    }
    let r = crate::text::slice_vec(s, 0, end);
    assert(r@ =~= s@.take(end as int));
    r
}

/// The allowed referrers of a hotlink setting, as stored.
pub fn parse_allowed(s: &str) -> (r: Vec<String>)
    ensures
        views(r@) == allowed_list(split_list(s@)),
{
    let cs = chars_of(s);
    let mut parts: Vec<Vec<char>> = Vec::new();
    parts.push(Vec::new());
    let mut i: usize = 0;
    assert(cs@.take(0) =~= Seq::<char>::empty());
    assert(parts@.map_values(|v: Vec<char>| v@) =~= split_list(Seq::<char>::empty()));
    while i < cs.len()
        invariant
            i <= cs@.len(),
            cs@ == s@,
            parts@.len() >= 1,
            parts@.map_values(|v: Vec<char>| v@) == split_list(cs@.take(i as int)),
        decreases cs.len() - i,
    {
        let ghost before = parts@.map_values(|v: Vec<char>| v@);
        assert(cs@.take(i + 1).drop_last() =~= cs@.take(i as int));
        let c = cs[i];
        if c == ',' || c == ' ' || c == '\n' {
            parts.push(Vec::new());
            assert(parts@.map_values(|v: Vec<char>| v@) =~= before.push(Seq::empty()));
        } else {
            let mut cur = parts.pop().unwrap();
            cur.push(c);
            parts.push(cur);
            assert(parts@.map_values(|v: Vec<char>| v@) =~= before.update(
                before.len() - 1,
                before.last().push(c),
            ));
        }
        i += 1;
    }
    assert(cs@.take(cs.len() as int) =~= cs@);
    let ghost sp = split_list(s@);
    let mut out: Vec<String> = Vec::new();
    let mut k: usize = 0;
    while k < parts.len()
        invariant
            k <= parts@.len(),
            parts@.map_values(|v: Vec<char>| v@) == sp,
            views(out@) == allowed_list(sp.take(k as int)),
        decreases parts.len() - k,
    {
        assert(sp.take(k + 1).drop_last() =~= sp.take(k as int));
        assert(sp[k as int] == parts@[k as int]@);
        let ghost before = views(out@);
        let a = strip_all_prefix_exec(&trim_chars(&parts[k]), "http://");
        let b = strip_all_prefix_exec(&a, "https://");
        let c = trim_end_slash(&b);
        if c.len() > 0 {
            out.push(string_of(&c));
            assert(views(out@) =~= before.push(c@));
        }
        k += 1;
    }
    assert(sp.take(parts.len() as int) =~= sp);
    out
}

/// The settings of a new or changed hotlink protection: the protected
/// extensions (a list of images, styles, scripts and fonts by default),
/// whether requests without a referrer pass (yes by default), the allowed
/// referrers (none where blank), and whether it is on (yes by default).
pub fn hotlink_defaults(
    extensions: Option<String>,
    allow_empty: Option<bool>,
    allowed_domains: Option<String>,
    status: Option<bool>,
) -> (r: (String, bool, Option<String>, bool))
    ensures
        r.0@ == (match extensions {
            Some(e) => e@,
            None => "jpg|jpeg|png|gif|webp|bmp|svg|css|js|woff|woff2"@,
        }),
        r.1 == (match allow_empty {
            Some(a) => a,
            None => true,
        }),
        r.2 == (match allowed_domains {
            Some(a) => if trim(a@).len() > 0 {
                Some(a)
            } else {
                None
            },
            None => None,
        }),
        r.3 == (match status {
            Some(s) => s,
            None => true,
        }),
{
    let e = match extensions {
        Some(e) => e,
        None => "jpg|jpeg|png|gif|webp|bmp|svg|css|js|woff|woff2".to_string(),
    };
    let a = match allow_empty {
        Some(a) => a,
        None => true,
    };
    let d = match allowed_domains {
        Some(x) => if trim_str(x.as_str()).len() > 0 {
            Some(x)
        } else {
            None
        },
        None => None,
    };
    let s = match status {
        Some(s) => s,
        None => true,
    };
    (e, a, d, s)
}

// ================================================================ firewall

/// The settings of a new or changed rule set: on by default; the mode is
/// `block` by default, and must be `block` or `log`.
pub fn waf_settings(enabled: Option<bool>, mode: Option<String>) -> (r: Result<(bool, String), ApiError>)
    ensures
        ({
            let m = match mode {
                Some(m) => m@,
                None => "block"@,
            };
            let en = match enabled {
                Some(e) => e,
                None => true,
            };
            if m == "block"@ || m == "log"@ {
                r matches Ok((e, mm)) && e == en && mm@ == m
            } else {
                r matches Err(e) && is_error(e, 400, "mode must be 'block' or 'log'"@)
            }
        }),
{
    let en = match enabled {
        Some(e) => e,
        None => true,
    };
    let m = match mode {
        Some(m) => m,
        None => "block".to_string(),
    };
    let mc = chars_of(m.as_str());
    if chars_eq(&mc, &chars_of("block")) || chars_eq(&mc, &chars_of("log")) {
        Ok((en, m))
    } else {
        Err(ApiError::new(400, "mode must be 'block' or 'log'"))
    }
}

/// Name of what `serde_json` reads from a stored rule list: for each rule,
/// its `action` and its `pattern` where they are strings; none where the
/// text is not a JSON array.
pub uninterp spec fn json_rule_fields(text: Seq<char>) -> Option<Seq<(Option<Seq<char>>, Option<Seq<char>>)>>;

pub open spec fn field_pair_view(p: (Option<String>, Option<String>)) -> (Option<Seq<char>>, Option<Seq<char>>) {
    (match p.0 {
        Some(s) => Some(s@),
        None => None,
    }, match p.1 {
        Some(s) => Some(s@),
        None => None,
    })
}

/// `serde_json::from_str::<Vec<Value>>(text)`, each rule read for its string
/// fields `action` and `pattern`.  The result depends on the text alone,
/// named `json_rule_fields`.
#[verifier::external_body]
fn rule_fields(text: &str) -> (r: Option<Vec<(Option<String>, Option<String>)>>)
    ensures
        match r {
            Some(v) => json_rule_fields(text@) == Some(v@.map_values(|p: (Option<String>, Option<String>)| field_pair_view(p))),
            None => json_rule_fields(text@) is None,
        },
{
    let rules = serde_json::from_str::<Vec<serde_json::Value>>(text).ok()?;
    Some(rules.iter().map(|rule| (
        rule.get("action").and_then(|v| v.as_str()).map(|s| s.to_string()),
        rule.get("pattern").and_then(|v| v.as_str()).map(|s| s.to_string()),
    )).collect())
}

/// The patterns that block: those of the rules whose action is `block`
/// (the default), in order.
pub open spec fn blocking_patterns(rules: Seq<(Option<Seq<char>>, Option<Seq<char>>)>) -> Seq<Seq<char>>
    decreases rules.len(),
{
    if rules.len() == 0 {
        Seq::empty()
    } else {
        let r = rules.last();
        let act = match r.0 {
            Some(a) => a,
            None => "block"@,
        };
        if act == "block"@ && r.1 is Some {
            blocking_patterns(rules.drop_last()).push(r.1.unwrap())
        } else {
            blocking_patterns(rules.drop_last())
        }
    }
}

/// The firewall part of a domain's descriptor, from its stored rule set.
pub fn waf_descriptor(enabled: bool, mode: &str, rules: Option<&str>) -> (w: WafCfg)
    ensures
        w.enabled == enabled,
        w.mode@ == (if mode@.len() == 0 {
            "block"@
        } else {
            mode@
        }),
        views(w.patterns@) == match rules {
            Some(t) => match json_rule_fields(t@) {
                Some(rs) => blocking_patterns(rs),
                None => Seq::empty(),
            },
            None => Seq::empty(),
        },
{
    let fields: Vec<(Option<String>, Option<String>)> = match rules {
        Some(t) => match rule_fields(t) {
            Some(v) => v,
            None => Vec::new(),
        },
        None => Vec::new(),
    };
    let ghost fs = fields@.map_values(|p: (Option<String>, Option<String>)| field_pair_view(p));
    assert(fs == match rules {
        Some(t) => match json_rule_fields(t@) {
            Some(rs) => rs,
            None => Seq::empty(),
        },
        None => Seq::<(Option<Seq<char>>, Option<Seq<char>>)>::empty(),
    });
    let mut patterns: Vec<String> = Vec::new();
    let mut i: usize = 0;
    while i < fields.len()
        invariant
            i <= fields@.len(),
            fs == fields@.map_values(|p: (Option<String>, Option<String>)| field_pair_view(p)),
            views(patterns@) == blocking_patterns(fs.take(i as int)),
        decreases fields.len() - i,
    {
        assert(fs.take(i + 1).drop_last() =~= fs.take(i as int));
        assert(fs.take(i + 1).last() == field_pair_view(fields@[i as int]));
        let ghost before = views(patterns@);
        let act = match &fields[i].0 {
            Some(a) => chars_of(a.as_str()),
            None => chars_of("block"),
        };
        if chars_eq(&act, &chars_of("block")) {
            match &fields[i].1 {
                Some(p) => {
                    patterns.push(string_of(&chars_of(p.as_str())));
                    assert(views(patterns@) =~= before.push(p@));
                },
                None => {},
            }
        }
        i += 1;
    }
    assert(fs.take(fields.len() as int) =~= fs);
    let m = if mode.is_empty() {
        "block".to_string()
    } else {
        mode.to_string()
    };
    WafCfg { enabled, mode: m, patterns }
}

/// The descriptor of a domain's security settings; none (the file is
/// removed) where nothing is blocked and neither protection is set.
pub fn security_descriptor(
    domain: &str,
    ips: Vec<String>,
    hotlink: Option<HotlinkCfg>,
    waf: Option<WafCfg>,
) -> (r: Option<SecurityProvision>)
    ensures
        (ips@.len() == 0 && hotlink is None && waf is None) ==> r is None,
        !(ips@.len() == 0 && hotlink is None && waf is None) ==> (r matches Some(s) && s.domain@ == domain@
            && s.blocked_ips == ips && s.hotlink == hotlink && s.waf == waf),
{
    if ips.len() == 0 && hotlink.is_none() && waf.is_none() {
        None
    } else {
        Some(SecurityProvision { domain: domain.to_string(), blocked_ips: ips, hotlink, waf })
    }
}

// ================================================================ laws

proof fn lemma_merged(acc: Seq<Seq<char>>, owned: Seq<Seq<char>>)
    requires
        forall|i: int, j: int| 0 <= i < j < acc.len() ==> acc[i] != acc[j],
    ensures
        forall|i: int, j: int| 0 <= i < j < merged_ips(acc, owned).len() ==> merged_ips(acc, owned)[i] != merged_ips(
            acc,
            owned,
        )[j],
        forall|x: Seq<char>| acc.contains(x) || owned.contains(x) <==> merged_ips(acc, owned).contains(x),
        merged_ips(acc, owned).len() >= acc.len(),
        forall|i: int| 0 <= i < acc.len() ==> merged_ips(acc, owned)[i] == acc[i],
    decreases owned.len(),
{
    if owned.len() > 0 {
        let x0 = owned[0];
        let rest = owned.drop_first();
        if acc.contains(x0) {
            lemma_merged(acc, rest);
            assert forall|x: Seq<char>| acc.contains(x) || owned.contains(x) <==> merged_ips(acc, owned).contains(x) by {
                if owned.contains(x) {
                    let k = choose|k: int| 0 <= k < owned.len() && owned[k] == x;
                    if k > 0 {
                        assert(rest[k - 1] == x);
                    }
                }
                if rest.contains(x) {
                    let k = choose|k: int| 0 <= k < rest.len() && rest[k] == x;
                    assert(owned[k + 1] == x);
                }
            }
        } else {
            let acc2 = acc.push(x0);
            assert forall|i: int, j: int| 0 <= i < j < acc2.len() implies acc2[i] != acc2[j] by {
                if j == acc.len() {
                    assert(acc2[i] == acc[i]);
                    assert(acc.contains(acc[i]));
                }
            }
            lemma_merged(acc2, rest);
            assert forall|i: int| 0 <= i < acc.len() implies merged_ips(acc, owned)[i] == acc[i] by {
                assert(merged_ips(acc2, rest)[i] == acc2[i]);
            }
            assert forall|x: Seq<char>| acc.contains(x) || owned.contains(x) <==> merged_ips(acc, owned).contains(x) by {
                if owned.contains(x) {
                    let k = choose|k: int| 0 <= k < owned.len() && owned[k] == x;
                    if k > 0 {
                        assert(rest[k - 1] == x);
                    } else {
                        assert(acc2[acc.len() as int] == x);
                    }
                }
                if acc.contains(x) {
                    let k = choose|k: int| 0 <= k < acc.len() && acc[k] == x;
                    assert(acc2[k] == x);
                }
                if rest.contains(x) {
                    let k = choose|k: int| 0 <= k < rest.len() && rest[k] == x;
                    assert(owned[k + 1] == x);
                }
                if acc2.contains(x) {
                    let k = choose|k: int| 0 <= k < acc2.len() && acc2[k] == x;
                    if k < acc.len() {
                        assert(acc[k] == x);
                    } else {
                        assert(owned[0] == x);
                    }
                }
            }
        }
    }
}

/// Merging an account's blocked addresses into the domain's list keeps
/// the domain's list first and in order, loses no address of either, and
/// adds none twice: a list without repeats stays without repeats.
pub proof fn law_merge_ips(global: Seq<Seq<char>>, owned: Seq<Seq<char>>)
    requires
        forall|i: int, j: int| 0 <= i < j < global.len() ==> global[i] != global[j],
    ensures
        forall|x: Seq<char>| global.contains(x) || owned.contains(x) <==> merged_ips(global, owned).contains(x),
        forall|i: int, j: int| 0 <= i < j < merged_ips(global, owned).len() ==> merged_ips(global, owned)[i]
            != merged_ips(global, owned)[j],
        forall|i: int| 0 <= i < global.len() ==> merged_ips(global, owned)[i] == global[i],
{
    lemma_merged(global, owned);
}

} // verus!
