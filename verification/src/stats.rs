//! Resource usage of accounts and the state of the server: per-account
//! totals over its domains' logs, disk use in MiB, and the status of the
//! services a client sees.
use vstd::prelude::*;
use crate::cache::{div_toward_zero, mib_of};
use crate::text::{chars_of, contains_seq, contains_vec, extend_str, split_char, split_on, string_of, str_eq};

verus! {

/// What one account uses.
pub struct AccountUsage {
    pub account_id: i64,
    pub username: String,
    pub disk_bytes: i64,
    pub bandwidth_bytes: i64,
    pub access_log_bytes: i64,
    pub error_log_bytes: i64,
    pub domains: i64,
    pub databases: i64,
}

/// Sums of the columns of `rows`, each `(bandwidth, access log size,
/// error log size)` of one domain.
pub open spec fn column_sums(rows: Seq<(i64, i64, i64)>) -> (int, int, int)
    decreases rows.len(),
{
    if rows.len() == 0 {
        (0, 0, 0)
    } else {
        let s = column_sums(rows.drop_last());
        let r = rows.last();
        (s.0 + r.0, s.1 + r.1, s.2 + r.2)
    }
}

pub open spec fn fits_i64(v: int) -> bool {
    i64::MIN <= v <= i64::MAX
}

/// Every running total stays within `i64`.
pub open spec fn sums_fit(rows: Seq<(i64, i64, i64)>) -> bool {
    forall|k: int|
        0 <= k <= rows.len() ==> {
            let s = #[trigger] column_sums(rows.take(k));
            fits_i64(s.0) && fits_i64(s.1) && fits_i64(s.2)
        }
}

/// The totals of an account's domains: bandwidth, access log bytes and
/// error log bytes, or none where a running total leaves `i64`.
pub fn usage_totals(rows: &Vec<(i64, i64, i64)>) -> (r: Option<(i64, i64, i64)>)
    ensures
        match r {
            Some((a, b, c)) => sums_fit(rows@) && (a as int, b as int, c as int) == column_sums(rows@),
            None => !sums_fit(rows@),
        },
{
    let mut a: i64 = 0;
    let mut b: i64 = 0;
    let mut c: i64 = 0;
    let mut i: usize = 0;
    assert(rows@.take(0) =~= Seq::<(i64, i64, i64)>::empty());
    while i < rows.len()
        invariant
            i <= rows@.len(),
            (a as int, b as int, c as int) == column_sums(rows@.take(i as int)),
            forall|k: int|
                0 <= k <= i ==> {
                    let s = #[trigger] column_sums(rows@.take(k));
                    fits_i64(s.0) && fits_i64(s.1) && fits_i64(s.2)
                },
        decreases rows.len() - i,
    {
        assert(rows@.take(i + 1).drop_last() =~= rows@.take(i as int));
        assert(rows@.take(i + 1).last() == rows@[i as int]);
        let (x, y, z) = rows[i];
        let na = a.checked_add(x);
        let nb = b.checked_add(y);
        let nc = c.checked_add(z);
        if na.is_none() || nb.is_none() || nc.is_none() {
            let ghost s = column_sums(rows@.take(i + 1));
            assert(!(fits_i64(s.0) && fits_i64(s.1) && fits_i64(s.2)));
            return None;
        }
        a = na.unwrap();
        b = nb.unwrap();
        c = nc.unwrap();
        i += 1;
    }
    assert(rows@.take(rows@.len() as int) =~= rows@);
    Some((a, b, c))
}

/// Disk use in whole MiB, as a client's summary shows it.
pub fn disk_used_mb(bytes: i64) -> (r: i64)
    ensures
        r == div_toward_zero(bytes as int, 1048576),
{
    mib_of(bytes)
}

// ================================================================ server status

/// A service and whether it runs.
pub struct ServiceStatus {
    pub name: String,
    pub status: String,
}

/// What a client is told of the server.
pub struct ServerInfo {
    pub os: String,
    pub kernel: String,
    pub arch: String,
    pub ip: String,
    pub server_name: String,
    pub php_version: String,
    pub nginx_version: String,
    pub mariadb_version: String,
    pub panel_version: String,
    pub disk_used: String,
    pub disk_total: String,
    pub disk_pct: String,
    pub mem_pct: String,
    pub load: String,
    pub services: Vec<ServiceStatus>,
}

/// The `k`-th field of a `|`-separated line, or empty where there is none.
pub open spec fn field_or_empty(line: Seq<char>, k: int) -> Seq<char> {
    let parts = split_char(line, '|');
    if k < parts.len() {
        parts[k]
    } else {
        Seq::empty()
    }
}

/// Disk use, size and percentage from `df`'s line `used|size|pct`.
pub fn disk_fields(line: &str) -> (r: (String, String, String))
    ensures
        r.0@ == field_or_empty(line@, 0),
        r.1@ == field_or_empty(line@, 1),
        r.2@ == field_or_empty(line@, 2),
{
    let parts = split_on(&chars_of(line), '|');
    let a = if parts.len() > 0 { string_of(&parts[0]) } else { String::new() };
    let b = if parts.len() > 1 { string_of(&parts[1]) } else { String::new() };
    let c = if parts.len() > 2 { string_of(&parts[2]) } else { String::new() };
    (a, b, c)
}

/// The services shown, each with its label and the unit or program it is
/// checked by.
pub open spec fn watched_services() -> Seq<(Seq<char>, Seq<char>)> {
    seq![
        ("Pingora (Web Server)"@, "fserver"@),
        ("Postfix (SMTP)"@, "postfix"@),
        ("Dovecot (IMAP)"@, "dovecot"@),
        ("NSD (DNS)"@, "nsd"@),
        ("MariaDB"@, "mariadb"@),
        ("Nginx"@, "nginx"@),
        ("FPanel"@, "fpanel"@),
        ("Mailtrack"@, "mailtrack"@),
        ("Valkey"@, "valkey"@),
    ]
}

pub fn service_list() -> (r: Vec<(String, String)>)
    ensures
        r@.map_values(|p: (String, String)| (p.0@, p.1@)) == watched_services(),
{
    let mut r: Vec<(String, String)> = Vec::new();
    r.push(("Pingora (Web Server)".to_string(), "fserver".to_string()));
    r.push(("Postfix (SMTP)".to_string(), "postfix".to_string()));
    r.push(("Dovecot (IMAP)".to_string(), "dovecot".to_string()));
    r.push(("NSD (DNS)".to_string(), "nsd".to_string()));
    r.push(("MariaDB".to_string(), "mariadb".to_string()));
    r.push(("Nginx".to_string(), "nginx".to_string()));
    r.push(("FPanel".to_string(), "fpanel".to_string()));
    r.push(("Mailtrack".to_string(), "mailtrack".to_string()));
    r.push(("Valkey".to_string(), "valkey".to_string()));
    assert(r@.map_values(|p: (String, String)| (p.0@, p.1@)) =~= watched_services());
    r
}

/// The panel's own programs are checked by looking for their process;
/// every other service is asked of systemd.
pub fn checked_by_process(unit: &str) -> (b: bool)
    ensures
        b == (unit@ == "fserver"@ || unit@ == "fpanel"@),
{
    str_eq(unit, "fserver") || str_eq(unit, "fpanel")
}

/// The command line that identifies one of the panel's own programs.
pub fn process_pattern(unit: &str) -> (r: String)
    ensures
        r@ == "target/release/"@ + unit@,
{
    let mut v = chars_of("target/release/");
    extend_str(&mut v, unit);
    string_of(&v)
}

/// The status of a program checked by its process.
pub fn process_status(running: bool) -> (r: String)
    ensures
        r@ == (if running {
            "active"@
        } else {
            "inactive"@
        }),
{
    if running {
        "active".to_string()
    } else {
        "inactive".to_string()
    }
}

/// The status of a unit from what `systemctl is-active` printed: its
/// answer, or `inactive` when it says so or says nothing.
pub open spec fn unit_status_spec(out: Seq<char>) -> Seq<char> {
    if contains_seq(out, "inactive"@) || out.len() == 0 {
        "inactive"@
    } else {
        out
    }
}

pub fn unit_status(out: &str) -> (r: String)
    ensures
        r@ == unit_status_spec(out@),
{
    let c = chars_of(out);
    if contains_vec(&c, &chars_of("inactive")) || c.len() == 0 {
        "inactive".to_string()
    } else {
        string_of(&c)
    }
}

/// The version the panel reports of itself.
pub fn panel_version() -> (r: String)
    ensures
        r@ == "1.0.0"@,
{
    "1.0.0".to_string()
}

} // verus!
