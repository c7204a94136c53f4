//! Mail deliverability of a domain: the SPF, DMARC and DKIM records the
//! panel publishes, and the OpenDKIM table lines that sign its mail.
use vstd::prelude::*;
use crate::cache::{lossy_text, utf8_lossy};
use crate::error::{ApiError, is_error};
use crate::provision::{join, join_path};
use crate::text::{
    chars_of, chars_eq, extend_chars, extend_str, lines, lines_of, str_eq, string_of, trim, trim_chars,
    trim_str,
};

verus! {

/// The address the server's mail leaves from.
pub const PUBLIC_IP: &'static str = "157.15.125.2";

/// Which of a domain's mail records exist, and whether it signs with DKIM.
pub struct DomainDeliverability {
    pub domain: String,
    pub spf: bool,
    pub dmarc: bool,
    pub dkim: bool,
    pub dkim_signing: bool,
}

/// A request to publish one record.
pub struct ActionReq {
    pub action: String,
}

/// The record a request publishes.
pub enum MailRecord {
    Spf,
    Dmarc,
    Dkim,
}

/// `spf`, `dmarc` or `dkim`; any other action is refused (400).
pub fn parse_action(action: &str) -> (r: Result<MailRecord, ApiError>)
    ensures
        action@ == "spf"@ ==> r == Ok::<MailRecord, ApiError>(MailRecord::Spf),
        action@ == "dmarc"@ ==> r == Ok::<MailRecord, ApiError>(MailRecord::Dmarc),
        action@ == "dkim"@ ==> r == Ok::<MailRecord, ApiError>(MailRecord::Dkim),
        action@ != "spf"@ && action@ != "dmarc"@ && action@ != "dkim"@ ==> (r matches Err(e) && is_error(
            e,
            400,
            "Unknown action '"@ + action@ + seq!['\''],
        )),
{
    proof {
        reveal_strlit("spf");
        reveal_strlit("dmarc");
        reveal_strlit("dkim");
        assert("spf"@.len() == 3 && "dmarc"@.len() == 5 && "dkim"@.len() == 4);
    }
    if str_eq(action, "spf") {
        Ok(MailRecord::Spf)
    } else if str_eq(action, "dmarc") {
        Ok(MailRecord::Dmarc)
    } else if str_eq(action, "dkim") {
        Ok(MailRecord::Dkim)
    } else {
        let mut m = chars_of("Unknown action '");
        extend_str(&mut m, action);
        m.push('\'');
        assert(m@ =~= "Unknown action '"@ + action@ + seq!['\'']);
        Err(ApiError::from_chars(400, &m))
    }
}

/// The TXT record's name and value: SPF at the apex allowing the domain's
/// MX and A hosts and the server's address; DMARC reporting to the
/// domain's admin; DKIM's `default` selector with the public key.
pub open spec fn record_spec(kind: MailRecord, domain: Seq<char>, dkim_key: Seq<char>) -> (Seq<char>, Seq<char>) {
    match kind {
        MailRecord::Spf => ("@"@, "v=spf1 mx a ip4:"@ + PUBLIC_IP@ + " ~all"@),
        MailRecord::Dmarc => ("_dmarc"@, "v=DMARC1; p=none; rua=mailto:admin@"@ + domain),
        MailRecord::Dkim => ("default._domainkey"@, "v=DKIM1; k=rsa; p="@ + dkim_key),
    }
}

pub fn record_for(kind: &MailRecord, domain: &str, dkim_key: &str) -> (r: (String, String))
    ensures
        (r.0@, r.1@) == record_spec(*kind, domain@, dkim_key@),
{
    match kind {
        MailRecord::Spf => {
            let mut v = chars_of("v=spf1 mx a ip4:");
            extend_str(&mut v, PUBLIC_IP);
            extend_str(&mut v, " ~all");
            ("@".to_string(), string_of(&v))
        },
        MailRecord::Dmarc => {
            let mut v = chars_of("v=DMARC1; p=none; rua=mailto:admin@");
            extend_str(&mut v, domain);
            ("_dmarc".to_string(), string_of(&v))
        },
        MailRecord::Dkim => {
            let mut v = chars_of("v=DKIM1; k=rsa; p=");
            extend_str(&mut v, dkim_key);
            ("default._domainkey".to_string(), string_of(&v))
        },
    }
}

/// The SQL `LIKE` pattern of values that start with `prefix`.
pub fn prefix_pattern(prefix: &str) -> (r: String)
    ensures
        r@ == prefix@ + seq!['%'],
{
    let mut v = chars_of(prefix);
    v.push('%');
    string_of(&v)
}

/// Where a domain's DKIM private key is kept.
pub open spec fn dkim_key_path_spec(domain: Seq<char>) -> Seq<char> {
    join_path(join_path("/etc/opendkim/keys"@, domain), "default.private"@)
}

pub fn dkim_key_path(domain: &str) -> (r: String)
    ensures
        r@ == dkim_key_path_spec(domain@),
{
    let d = join("/etc/opendkim/keys", domain);
    join(d.as_str(), "default.private")
}

/// The KeyTable line of a domain.
pub fn key_table_line(domain: &str, key_path: &str) -> (r: String)
    ensures
        r@ == "default._domainkey."@ + domain@ + seq![' '] + domain@ + ":default:"@ + key_path@ + seq!['\n'],
{
    let mut v = chars_of("default._domainkey.");
    extend_str(&mut v, domain);
    v.push(' ');
    extend_str(&mut v, domain);
    extend_str(&mut v, ":default:");
    extend_str(&mut v, key_path);
    v.push('\n');
    string_of(&v)
}

/// The SigningTable lines of a domain: its subdomains and itself sign with
/// its key.
pub fn signing_table_lines(domain: &str) -> (r: String)
    ensures
        r@ == "*@*."@ + domain@ + " default._domainkey."@ + domain@ + "\n*@"@ + domain@ + " default._domainkey."@
            + domain@ + seq!['\n'],
{
    let mut v = chars_of("*@*.");
    extend_str(&mut v, domain);
    extend_str(&mut v, " default._domainkey.");
    extend_str(&mut v, domain);
    extend_str(&mut v, "\n*@");
    extend_str(&mut v, domain);
    extend_str(&mut v, " default._domainkey.");
    extend_str(&mut v, domain);
    v.push('\n');
    string_of(&v)
}

/// A table already holds `line` when one of its lines equals it, both trimmed.
pub open spec fn holds_line(content: Seq<char>, line: Seq<char>) -> bool {
    exists|i: int| 0 <= i < lines(content).len() && trim(#[trigger] lines(content)[i]) == trim(line)
}

pub fn has_line(content: &str, line: &str) -> (b: bool)
    ensures
        b == holds_line(content@, line@),
{
    let ls = lines_of(&chars_of(content));
    let want = trim_str(line);
    let mut i: usize = 0;
    while i < ls.len()
        invariant
            i <= ls@.len() == lines(content@).len(),
            want@ == trim(line@),
            forall|k: int| 0 <= k < ls@.len() ==> (#[trigger] ls@[k])@ == lines(content@)[k],
            forall|k: int| 0 <= k < i ==> trim(#[trigger] lines(content@)[k]) != trim(line@),
        decreases ls.len() - i,
    {
        if chars_eq(&trim_chars(&ls[i]), &want) {
            assert(trim(lines(content@)[i as int]) == trim(line@));
            return true;
        }
        i += 1;
    }
    false
}

/// The answer to a failed command: 500 naming the command, its arguments
/// joined by spaces, and its error output trimmed.
pub fn command_failure(cmd: &str, args_joined: &str, stderr: &[u8]) -> (e: ApiError)
    ensures
        is_error(e, 500, "command failed: "@ + cmd@ + seq![' '] + args_joined@ + ": "@ + trim(lossy_text(stderr@))),
{
    let text = utf8_lossy(stderr);
    let mut m = chars_of("command failed: ");
    extend_str(&mut m, cmd);
    m.push(' ');
    extend_str(&mut m, args_joined);
    extend_str(&mut m, ": ");
    let t = trim_str(text.as_str());
    extend_chars(&mut m, &t);
    assert(m@ =~= "command failed: "@ + cmd@ + seq![' '] + args_joined@ + ": "@ + trim(lossy_text(stderr@)));
    ApiError::from_chars(500, &m)
}

/// The public key as published: the base64 text `openssl` and `base64`
/// printed, trimmed.
pub fn dkim_public_key(printed: &str) -> (r: String)
    ensures
        r@ == trim(printed@),
{
    string_of(&trim_str(printed))
}

} // verus!
