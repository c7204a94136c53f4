//! An nginx front for domains that have a certificate: the site file that
//! terminates HTTPS and hands requests to the web server, and where it goes.
use vstd::prelude::*;
use crate::cache::{lossy_text, utf8_lossy};
use crate::provision::{join, join_path};
use crate::text::{chars_of, extend_chars, extend_str, string_of, trim, trim_str};

verus! {

/// The site file that serves `domain` over HTTPS with its certificate and
/// key, passing requests to the web server on port 8080.
pub open spec fn ssl_site_spec(domain: Seq<char>, crt: Seq<char>, key: Seq<char>) -> Seq<char> {
    "server {\n    listen 443 ssl http2;\n    server_name "@ + domain + ";\n\n    ssl_certificate "@ + crt
        + ";\n    ssl_certificate_key "@ + key
        + ";\n    ssl_protocols TLSv1.2 TLSv1.3;\n\n    location / {\n        proxy_pass http://127.0.0.1:8080;\n        proxy_set_header Host $host;\n        proxy_set_header X-Real-IP $remote_addr;\n        proxy_set_header X-Forwarded-For $proxy_add_x_forwarded_for;\n        proxy_set_header X-Forwarded-Proto https;\n    }\n}\n"@
}

pub fn ssl_site(domain: &str, crt: &str, key: &str) -> (r: String)
    ensures
        r@ == ssl_site_spec(domain@, crt@, key@),
{
    let mut v = chars_of("server {\n    listen 443 ssl http2;\n    server_name ");
    extend_str(&mut v, domain);
    extend_str(&mut v, ";\n\n    ssl_certificate ");
    extend_str(&mut v, crt);
    extend_str(&mut v, ";\n    ssl_certificate_key ");
    extend_str(&mut v, key);
    extend_str(&mut v, ";\n    ssl_protocols TLSv1.2 TLSv1.3;\n\n    location / {\n        proxy_pass http://127.0.0.1:8080;\n        proxy_set_header Host $host;\n        proxy_set_header X-Real-IP $remote_addr;\n        proxy_set_header X-Forwarded-For $proxy_add_x_forwarded_for;\n        proxy_set_header X-Forwarded-Proto https;\n    }\n}\n");
    string_of(&v)
}

/// The certificate and key files of a domain in the certificate directory.
pub fn cert_pair(certs: &str, domain: &str) -> (r: (String, String))
    ensures
        r.0@ == join_path(certs@, domain@ + ".crt"@),
        r.1@ == join_path(certs@, domain@ + ".key"@),
{
    let mut c = chars_of(domain);
    extend_str(&mut c, ".crt");
    let mut k = chars_of(domain);
    extend_str(&mut k, ".key");
    (join(certs, string_of(&c).as_str()), join(certs, string_of(&k).as_str()))
}

/// Where the site file of a domain is written.
pub fn site_available(domain: &str) -> (r: String)
    ensures
        r@ == "/etc/nginx/sites-available/fpssl-"@ + domain@ + ".conf"@,
{
    let mut v = chars_of("/etc/nginx/sites-available/fpssl-");
    extend_str(&mut v, domain);
    extend_str(&mut v, ".conf");
    string_of(&v)
}

/// Where the link that enables it goes.
pub fn site_enabled(domain: &str) -> (r: String)
    ensures
        r@ == "/etc/nginx/sites-enabled/fpssl-"@ + domain@ + ".conf"@,
{
    let mut v = chars_of("/etc/nginx/sites-enabled/fpssl-");
    extend_str(&mut v, domain);
    extend_str(&mut v, ".conf");
    string_of(&v)
}

/// The line whose presence among the enabled sites means the domain is
/// already served, by this panel or by hand.
pub fn server_name_line(domain: &str) -> (r: String)
    ensures
        r@ == "server_name "@ + domain@ + seq![';'],
{
    let mut v = chars_of("server_name ");
    extend_str(&mut v, domain);
    v.push(';');
    string_of(&v)
}

/// The refusal when the certificate or key is missing.
pub fn files_missing(domain: &str) -> (r: String)
    ensures
        r@ == "ssl files missing for "@ + domain@,
{
    let mut v = chars_of("ssl files missing for ");
    extend_str(&mut v, domain);
    string_of(&v)
}

/// The refusal when nginx rejects its configuration, with its complaint.
pub fn test_failure(stderr: &[u8]) -> (r: String)
    ensures
        r@ == "nginx -t failed: "@ + trim(lossy_text(stderr@)),
{
    let t = utf8_lossy(stderr);
    let mut v = chars_of("nginx -t failed: ");
    let tr = trim_str(t.as_str());
    extend_chars(&mut v, &tr);
    string_of(&v)
}

} // verus!
