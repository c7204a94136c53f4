//! Where the panel puts things on disk (cPanel-style account homes, the
//! descriptors that the web server reads) and the descriptor records
//! themselves.  Directories that come from the environment are arguments.
use vstd::prelude::*;
use crate::text::{chars_of, extend_str, slice_vec, str_eq, string_of, trim_chars, trim};

verus! {

// ================================================================ paths

/// `PathBuf::join` on Unix: an absolute component replaces the path;
/// otherwise a `/` separates the two unless the base is empty or already
/// ends with one.
pub open spec fn join_path(base: Seq<char>, comp: Seq<char>) -> Seq<char> {
    if comp.len() > 0 && comp[0] == '/' {
        comp
    } else if base.len() == 0 {
        comp
    } else if base.last() == '/' {
        base + comp
    } else {
        base + seq!['/'] + comp
    }
}

/// `PathBuf::join`.
pub fn join(base: &str, comp: &str) -> (r: String)
    ensures
        r@ == join_path(base@, comp@),
{
    let b = chars_of(base);
    let c = chars_of(comp);
    let mut out: Vec<char> = Vec::new();
    if c.len() > 0 && c[0] == '/' {
        extend_str(&mut out, comp);
    } else if b.len() == 0 {
        extend_str(&mut out, comp);
    } else if b[b.len() - 1] == '/' {
        extend_str(&mut out, base);
        extend_str(&mut out, comp);
    } else {
        extend_str(&mut out, base);
        out.push('/');
        extend_str(&mut out, comp);
        assert(out@ =~= base@ + seq!['/'] + comp@);
    }
    string_of(&out)
}

/// `str::trim_matches('.')`: without leading and trailing dots.
pub open spec fn trim_dots(s: Seq<char>) -> Seq<char>
    decreases s.len(),
{
    if s.len() > 0 && s[0] == '.' {
        trim_dots(s.drop_first())
    } else if s.len() > 0 && s.last() == '.' {
        trim_dots(s.drop_last())
    } else {
        s
    }
}

pub fn trim_dots_str(s: &str) -> (r: String)
    ensures
        r@ == trim_dots(s@),
{
    let v = chars_of(s);
    let mut a: usize = 0;
    let mut b: usize = v.len();
    assert(v@.subrange(0, v@.len() as int) =~= v@);
    while a < b && (v[a] == '.' || v[b - 1] == '.')
        invariant
            a <= b <= v.len(),
            trim_dots(v@) == trim_dots(v@.subrange(a as int, b as int)),
        decreases b - a,
    {
        let ghost cur = v@.subrange(a as int, b as int);
        if v[a] == '.' {
            assert(cur.drop_first() =~= v@.subrange(a + 1, b as int));
            a += 1;
        } else {
            assert(cur.drop_last() =~= v@.subrange(a as int, b - 1));
            b -= 1;
        }
    }
    string_of(&slice_vec(&v, a, b))
}

/// `<home>/<username>`.
pub open spec fn account_home_spec(home: Seq<char>, username: Seq<char>) -> Seq<char> {
    join_path(home, username)
}

/// `<home>/<username>/public_html`.
pub open spec fn account_htdocs_spec(home: Seq<char>, username: Seq<char>) -> Seq<char> {
    join_path(account_home_spec(home, username), "public_html"@)
}

/// Document root of a domain: a subdomain or addon domain lives in a
/// directory of its own name under the account home; the main domain and its
/// aliases share `public_html`.
pub open spec fn vhost_root_spec(home: Seq<char>, username: Seq<char>, kind: Seq<char>, domain: Seq<char>) -> Seq<char> {
    if kind == "sub"@ || kind == "addon"@ {
        join_path(account_home_spec(home, username), trim_dots(domain))
    } else {
        account_htdocs_spec(home, username)
    }
}

/// cPanel-style account home: `<home>/<username>` (the home base is `/home` by default).
pub fn account_home(home: &str, username: &str) -> (r: String)
    ensures
        r@ == account_home_spec(home@, username@),
{
    join(home, username)
}

/// Document root of the primary domain: `<home>/<username>/public_html`.
pub fn account_htdocs(home: &str, username: &str) -> (r: String)
    ensures
        r@ == account_htdocs_spec(home@, username@),
{
    let h = account_home(home, username);
    join(h.as_str(), "public_html")
}

pub fn vhost_root(home: &str, username: &str, kind: &str, domain: &str) -> (r: String)
    ensures
        r@ == vhost_root_spec(home@, username@, kind@, domain@),
{
    if str_eq(kind, "sub") || str_eq(kind, "addon") {
        let h = account_home(home, username);
        let d = trim_dots_str(domain);
        join(h.as_str(), d.as_str())
    } else {
        account_htdocs(home, username)
    }
}

/// `<dir>/<name><suffix>`.
pub open spec fn named_file(dir: Seq<char>, name: Seq<char>, suffix: Seq<char>) -> Seq<char> {
    join_path(dir, name + suffix)
}

fn named(dir: &str, name: &str, suffix: &str) -> (r: String)
    ensures
        r@ == named_file(dir@, name@, suffix@),
{
    let mut f = String::new();
    f.append(name);
    f.append(suffix);
    join(dir, f.as_str())
}

/// Web server descriptor of a domain: `<vhosts>/<name>.json`.
pub fn vhost_path(vhosts: &str, name: &str) -> (r: String)
    ensures
        r@ == named_file(vhosts@, name@, ".json"@),
{
    named(vhosts, name, ".json")
}

pub fn redirects_path(vhosts: &str, name: &str) -> (r: String)
    ensures
        r@ == named_file(vhosts@, name@, ".redirects.json"@),
{
    named(vhosts, name, ".redirects.json")
}

pub fn mail_path(vhosts: &str, name: &str) -> (r: String)
    ensures
        r@ == named_file(vhosts@, name@, ".mail.json"@),
{
    named(vhosts, name, ".mail.json")
}

pub fn ssl_path(vhosts: &str, name: &str) -> (r: String)
    ensures
        r@ == named_file(vhosts@, name@, ".ssl.json"@),
{
    named(vhosts, name, ".ssl.json")
}

pub fn runtime_path(vhosts: &str, name: &str) -> (r: String)
    ensures
        r@ == named_file(vhosts@, name@, ".runtime.json"@),
{
    named(vhosts, name, ".runtime.json")
}

pub fn php_path(vhosts: &str, name: &str) -> (r: String)
    ensures
        r@ == named_file(vhosts@, name@, ".php.json"@),
{
    named(vhosts, name, ".php.json")
}

pub fn security_path(vhosts: &str, name: &str) -> (r: String)
    ensures
        r@ == named_file(vhosts@, name@, ".security.json"@),
{
    named(vhosts, name, ".security.json")
}

pub fn ssh_path(ssh_dir: &str, account: &str) -> (r: String)
    ensures
        r@ == named_file(ssh_dir@, account@, ".ssh.json"@),
{
    named(ssh_dir, account, ".ssh.json")
}

pub fn cert_file(certs: &str, name: &str) -> (r: String)
    ensures
        r@ == named_file(certs@, name@, ".crt"@),
{
    named(certs, name, ".crt")
}

pub fn key_file(certs: &str, name: &str) -> (r: String)
    ensures
        r@ == named_file(certs@, name@, ".key"@),
{
    named(certs, name, ".key")
}

pub fn ca_file(certs: &str, name: &str) -> (r: String)
    ensures
        r@ == named_file(certs@, name@, ".ca"@),
{
    named(certs, name, ".ca")
}

/// Stanza file that registers a zone with NSD: `<conf>/fpanel-<domain>.conf`.
pub fn nsd_stanza_file(nsd_conf: &str, domain: &str) -> (r: String)
    ensures
        r@ == join_path(nsd_conf@, "fpanel-"@ + domain@ + ".conf"@),
{
    let mut f = String::new();
    f.append("fpanel-");
    f.append(domain);
    f.append(".conf");
    join(nsd_conf, f.as_str())
}

/// Log file of a runtime app: the `FPANEL_RUNTIME_LOGS` override when set,
/// else `<data>/runtime_logs/<name>.log`.
pub fn runtime_log_file(override_path: Option<&str>, data: &str, name: &str) -> (r: String)
    ensures
        r@ == match override_path {
            Some(p) => p@,
            None => join_path(join_path(data@, "runtime_logs"@), name@ + ".log"@),
        },
{
    match override_path {
        Some(p) => p.to_string(),
        None => {
            let d = join(data, "runtime_logs");
            named(d.as_str(), name, ".log")
        },
    }
}

/// A directory from the environment, or its default.
pub fn env_or(value: Option<&str>, default: &str) -> (r: String)
    ensures
        r@ == match value {
            Some(v) => v@,
            None => default@,
        },
{
    match value {
        Some(v) => v.to_string(),
        None => default.to_string(),
    }
}

/// Where the SSH descriptors live: `FPANEL_SSH`, else `<FPANEL_DATA>/ssh`,
/// else `<default data>/ssh`.
pub fn ssh_dir(ssh_env: Option<&str>, data_env: Option<&str>, default_data: &str) -> (r: String)
    ensures
        r@ == match ssh_env {
            Some(v) => v@,
            None => match data_env {
                Some(d) => join_path(d@, "ssh"@),
                None => join_path(default_data@, "ssh"@),
            },
        },
{
    match ssh_env {
        Some(v) => v.to_string(),
        None => match data_env {
            Some(d) => join(d, "ssh"),
            None => join(default_data, "ssh"),
        },
    }
}

// ================================================================ descriptors

/// What the web server needs to serve a domain.
pub struct Vhost {
    pub domain: String,
    pub account: String,
    pub root: String,
}

pub struct RedirectEntry {
    pub from: String,
    pub to: String,
    pub permanent: bool,
}

pub struct MailAccount {
    pub local: String,
    pub password_hash: Option<String>,
    pub forward_to: Option<String>,
    pub quota_mb: i64,
}

pub struct MailForwarder {
    pub from: String,
    pub to: Vec<String>,
}

pub struct MailAutoresponder {
    pub local: String,
    pub subject: String,
    pub body: String,
}

pub struct MailDefault {
    pub action: String,
    pub to: Option<String>,
}

pub struct SslProvision {
    pub domain: String,
    pub cert: String,
    pub key: String,
    pub ca: Option<String>,
    pub issuer: String,
    pub valid_from: String,
    pub valid_to: String,
}

pub struct RuntimeProvision {
    pub domain: String,
    pub app: String,
    pub runtime: String,
    pub entrypoint: String,
    pub target: String,
    pub auto_restart: bool,
}

pub struct HotlinkCfg {
    pub enabled: bool,
    pub extensions: String,
    pub allow_empty: bool,
    pub allowed: Vec<String>,
}

pub struct WafRule {
    pub id: String,
    pub name: String,
    pub severity: String,
}

pub struct WafCfg {
    pub enabled: bool,
    pub mode: String,
    pub patterns: Vec<String>,
}

pub struct SecurityProvision {
    pub domain: String,
    pub blocked_ips: Vec<String>,
    pub hotlink: Option<HotlinkCfg>,
    pub waf: Option<WafCfg>,
}

pub struct SshProvision {
    pub account: String,
    pub username: String,
    pub auth_type: String,
    pub public_key: Option<String>,
    pub authorized_keys: Option<String>,
    pub status: String,
}

pub struct MailProvision {
    pub domain: String,
    pub accounts: Vec<MailAccount>,
    pub forwarders: Vec<MailForwarder>,
    pub autoresponders: Vec<MailAutoresponder>,
    pub default: Option<MailDefault>,
}

/// Document root written into a domain's descriptor: a non-empty override
/// when given, else the layout's root.
pub open spec fn docroot_spec(home: Seq<char>, name: Seq<char>, username: Seq<char>, kind: Seq<char>, over: Option<Seq<char>>) -> Seq<char> {
    match over {
        Some(r) => if r.len() > 0 {
            r
        } else {
            vhost_root_spec(home, username, kind, name)
        },
        None => vhost_root_spec(home, username, kind, name),
    }
}

/// The descriptor that `write_vhost` stores for domain `name`.
pub fn vhost_descriptor(home: &str, name: &str, username: &str, kind: &str, docroot_override: Option<&str>) -> (v: Vhost)
    ensures
        v.domain@ == name@,
        v.account@ == username@,
        v.root@ == docroot_spec(home@, name@, username@, kind@, match docroot_override {
            Some(r) => Some(r@),
            None => None,
        }),
{
    let root = match docroot_override {
        Some(r) => {
            if !r.is_empty() {
                r.to_string()
            } else {
                vhost_root(home, username, kind, name)
            }
        },
        None => vhost_root(home, username, kind, name),
    };
    Vhost { domain: name.to_string(), account: username.to_string(), root }
}

/// A mail descriptor with nothing in it is removed rather than written.
pub fn mail_is_empty(prov: &MailProvision) -> (b: bool)
    ensures
        b == (prov.accounts@.len() == 0 && prov.forwarders@.len() == 0 && prov.autoresponders@.len() == 0
            && prov.default is None),
{
    prov.accounts.len() == 0 && prov.forwarders.len() == 0 && prov.autoresponders.len() == 0
        && prov.default.is_none()
}

/// A CA chain is written to its own file only when it holds more than blanks.
pub fn ca_to_write(prov: &SslProvision) -> (b: bool)
    ensures
        b == (prov.ca matches Some(c) && trim(c@).len() > 0),
{
    match &prov.ca {
        Some(c) => trim_chars(&chars_of(c.as_str())).len() > 0,
        None => false,
    }
}

/// The sidecar that describes an installed certificate: paths of the files
/// in place of their contents; the CA path whenever a CA was given.
pub fn ssl_sidecar(prov: &SslProvision, crt_path: &str, key_path: &str, ca_path: &str) -> (s: SslProvision)
    ensures
        s.domain@ == prov.domain@,
        s.cert@ == crt_path@,
        s.key@ == key_path@,
        s.ca matches Some(c) ==> c@ == ca_path@,
        s.ca is Some <==> prov.ca is Some,
        s.issuer@ == prov.issuer@,
        s.valid_from@ == prov.valid_from@,
        s.valid_to@ == prov.valid_to@,
{
    SslProvision {
        domain: prov.domain.clone(),
        cert: crt_path.to_string(),
        key: key_path.to_string(),
        ca: match &prov.ca {
            Some(_) => Some(ca_path.to_string()),
            None => None,
        },
        issuer: prov.issuer.clone(),
        valid_from: prov.valid_from.clone(),
        valid_to: prov.valid_to.clone(),
    }
}

/// Target address of a runtime app: `127.0.0.1:<port>`.
pub fn runtime_target(port: i64) -> (r: String)
    ensures
        r@ == "127.0.0.1:"@ + crate::text::dec_int(port as int),
{
    let mut v: Vec<char> = Vec::new();
    extend_str(&mut v, "127.0.0.1:");
    let d = crate::text::dec_i64(port);
    crate::text::extend_chars(&mut v, &d);
    string_of(&v)
}

/// Where downloaded tools are kept: `<data>/tools`.
pub fn tools_dir(data: &str) -> (r: String)
    ensures
        r@ == join_path(data@, "tools"@),
{
    join(data, "tools")
}

/// The WP-CLI archive: `<data>/tools/wp-cli.phar`.
pub fn wpcli_phar(data: &str) -> (r: String)
    ensures
        r@ == join_path(join_path(data@, "tools"@), "wp-cli.phar"@),
{
    let t = tools_dir(data);
    join(t.as_str(), "wp-cli.phar")
}

} // verus!
