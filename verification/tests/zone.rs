use fpanel::deliverability::{
    dkim_key_path, dkim_public_key, has_line, key_table_line, parse_action, prefix_pattern, record_for,
    signing_table_lines, MailRecord,
};
use fpanel::dns::{
    cleanup_plan, fqdn, nsd_active, nsd_stanza, owned_main_parent, render_zone, seed_plan, validate_record,
    CleanupPlan, ZoneRow,
};
use fpanel::domains::{check_domain_limit, check_domain_name, check_subdomain, client_kind, needs_owner_check, valid_domain};

fn row(name: &str, rtype: &str, value: &str, ttl: i64, priority: Option<i64>) -> ZoneRow {
    ZoneRow { name: name.to_string(), rtype: rtype.to_string(), value: value.to_string(), ttl, priority }
}

#[test]
fn fqdn_adds_one_dot() {
    assert_eq!(fqdn("example.com"), "example.com.");
    assert_eq!(fqdn("example.com."), "example.com.");
    assert_eq!(fqdn(&fqdn("a.b")), fqdn("a.b"));
}

#[test]
fn zone_with_default_name_servers_and_glue() {
    let rows = vec![row("@", "A", "1.2.3.4", 3600, None)];
    let z = render_zone("site.com", &rows, "ns1.site.com", "ns2.other.net", 42, "9.9.9.9");
    assert_eq!(
        z,
        "; FPanel generated DNS zone for site.com\n$ORIGIN site.com.\n$TTL 3600\n\
@ IN SOA ns1.site.com. hostmaster.site.com. ( 42 7200 3600 1209600 300 )\n\
@ IN NS ns1.site.com.\n@ IN NS ns2.other.net.\n\
@ 3600 IN A 1.2.3.4\n"
    );
}

#[test]
fn zone_glue_for_hosts_after_the_domain() {
    let rows = vec![row("@", "A", "1.2.3.4", 3600, None)];
    let z = render_zone("site.com", &rows, "site.com.ns", "ns2.other.net", 1, "9.9.9.9");
    assert!(z.ends_with("@ 3600 IN A 1.2.3.4\nns 3600 IN A 9.9.9.9\n"));
    let rows = vec![row("ns", "A", "5.5.5.5", 3600, None)];
    let z = render_zone("site.com", &rows, "site.com.ns", "ns2.other.net", 1, "9.9.9.9");
    assert!(!z.contains("9.9.9.9"));
}

#[test]
fn zone_with_own_ns_and_mx() {
    let rows = vec![
        row("@", "NS", "ns.host.net", 3600, None),
        row("@", "MX", "mail.site.com", 3600, Some(5)),
        row("www", "CNAME", "site.com.", 300, None),
        row("ns1", "A", "5.6.7.8", 3600, None),
    ];
    let z = render_zone("site.com", &rows, "ns1.site.com.", "ns2.site.com", 7, "9.9.9.9");
    assert!(!z.contains("@ IN NS ns1.site.com."));
    assert!(z.contains("@ 3600 IN NS ns.host.net.\n"));
    assert!(z.contains("@ 3600 IN MX 5 mail.site.com.\n"));
    assert!(z.contains("www 300 IN CNAME site.com.\n"));
    assert!(z.ends_with("ns1 3600 IN A 5.6.7.8\n"));
}

#[test]
fn long_txt_is_chunked() {
    let long = "a".repeat(300);
    let rows = vec![row("@", "TXT", &long, 300, None)];
    let z = render_zone("s.com", &rows, "ns1.x.net", "ns2.x.net", 1, "1.1.1.1");
    let want = format!("@ 300 IN TXT \"{}\" \"{}\"\n", "a".repeat(255), "a".repeat(45));
    assert!(z.contains(&want));
    let rows = vec![row("@", "TXT", "say \"hi\"", 300, None)];
    let z = render_zone("s.com", &rows, "ns1.x.net", "ns2.x.net", 1, "1.1.1.1");
    assert!(z.contains("@ 300 IN TXT \"say \\\"hi\\\"\"\n"));
}

#[test]
fn record_validation_errors() {
    let msg = |r: Result<(), fpanel::error::ApiError>| r.unwrap_err().message;
    assert!(validate_record("A", Some("@"), "1.2.3.4", Some(3600), true, false).is_ok());
    assert_eq!(msg(validate_record("A", Some("bad name!"), "1.2.3.4", None, true, false)), "Invalid record name");
    assert_eq!(msg(validate_record("A", None, "  ", None, false, false)), "Record value is required");
    assert_eq!(msg(validate_record("A", None, "1.2.3.4", Some(0), true, false)), "TTL must be between 1 and 604800");
    assert_eq!(msg(validate_record("A", None, "1.2.3.4;", None, false, false)), "Record value contains invalid characters");
    assert_eq!(msg(validate_record("A", None, "300.1.1.1", None, false, false)), "Invalid IPv4 address for A record");
    assert_eq!(msg(validate_record("AAAA", None, "::1", None, false, false)), "Invalid IPv6 address for AAAA record");
    assert_eq!(
        msg(validate_record("TXT", None, &"x".repeat(256), None, false, false)),
        "TXT value must be printable ASCII up to 255 characters"
    );
    assert_eq!(msg(validate_record("CNAME", None, "a b", None, false, false)), "Invalid target for CNAME record");
    assert_eq!(validate_record("BOGUS", None, "x", None, false, false).unwrap_err().status, 400);
}

#[test]
fn seeding_and_cleanup() {
    let p = seed_plan(7, "site.com", "main", &vec![], "1.2.3.4", "ns1.x.net", "ns2.x.net").unwrap();
    assert_eq!(p.zone_id, 7);
    assert_eq!(p.records.len(), 4);
    assert_eq!(p.records[3].name, "www");
    assert_eq!(p.records[3].value, "site.com.");
    let mains = vec![(3, "site.com".to_string())];
    let p = seed_plan(9, "blog.site.com", "sub", &mains, "1.2.3.4", "ns1", "ns2").unwrap();
    assert_eq!((p.zone_id, p.zone_name.as_str()), (3, "site.com"));
    assert_eq!((p.records[0].name.as_str(), p.records[0].rtype.as_str(), p.records[0].value.as_str()), ("blog", "A", "1.2.3.4"));
    let p = seed_plan(9, "shop.site.com", "alias", &mains, "1.2.3.4", "ns1", "ns2").unwrap();
    assert_eq!((p.records[0].rtype.as_str(), p.records[0].value.as_str()), ("CNAME", "site.com."));
    assert_eq!(owned_main_parent("a.site.com", &mains), Some((3, "site.com".to_string())));
    assert_eq!(owned_main_parent("site.com", &mains), None);
    assert!(matches!(cleanup_plan("site.com", "main", &mains), CleanupPlan::DropZone));
    match cleanup_plan("blog.site.com", "sub", &mains) {
        CleanupPlan::DropLabel { zone_id, label } => assert_eq!((zone_id, label.as_str()), (3, "blog")),
        _ => panic!("expected a label"),
    }
    assert!(matches!(cleanup_plan("other.org", "sub", &mains), CleanupPlan::Nothing));
}

#[test]
fn nsd_configuration() {
    assert!(nsd_active(None, true));
    assert!(!nsd_active(Some("0"), true));
    assert!(nsd_active(Some("1"), false));
    let s = nsd_stanza("", "site.com", "/etc/nsd/zones/site.com.zone").unwrap();
    assert_eq!(s, "zone:\n\tname: \"site.com\"\n\tzonefile: \"/etc/nsd/zones/site.com.zone\"\n");
    assert!(nsd_stanza(&s, "site.com", "x").is_none());
}

#[test]
fn domain_names() {
    assert!(valid_domain("example.com"));
    assert!(valid_domain("a-b.example.co.id"));
    assert!(!valid_domain("-bad.com"));
    assert!(!valid_domain("bad..com"));
    assert!(!valid_domain(""));
    assert!(!valid_domain(&format!("{}.com", "a".repeat(64))));
    assert_eq!(check_domain_name(" Example.COM ", None).unwrap(), "example.com");
    assert_eq!(check_domain_name("x.com", Some("weird")).unwrap_err().message, "Kind must be main, sub, alias or addon");
    assert_eq!(check_domain_name("bad_name", Some("main")).unwrap_err().message, "Invalid domain name");
}

#[test]
fn client_domain_kinds() {
    assert_eq!(client_kind(None).unwrap(), "addon");
    assert_eq!(client_kind(Some("main")).unwrap(), "addon");
    assert_eq!(client_kind(Some("sub")).unwrap(), "sub");
    assert_eq!(client_kind(Some("alias")).unwrap_err().message, "Unsupported kind: alias");
    assert!(needs_owner_check("a.site.com", Some("sub")));
    assert!(!needs_owner_check("site", Some("sub")));
    assert!(!needs_owner_check("a.site.com", None));
}

#[test]
fn subdomains_and_limits() {
    let owned = vec!["site.com".to_string()];
    assert!(check_subdomain("blog.site.com", &owned).is_ok());
    assert_eq!(check_subdomain("site.com", &owned).unwrap_err().message, "Subdomain must be under a domain owned by this account");
    assert!(check_subdomain("blogsite.com", &owned).is_err());
    assert_eq!(check_domain_limit(None, 0).unwrap_err().status, 404);
    let e = check_domain_limit(Some(2), 2).unwrap_err();
    assert_eq!((e.status, e.message.as_str()), (409, "Domain limit reached (2/2)"));
    assert!(check_domain_limit(Some(3), 2).is_ok());
}

#[test]
fn deliverability_records() {
    assert!(matches!(parse_action("spf"), Ok(MailRecord::Spf)));
    assert_eq!(parse_action("mx").err().unwrap().message, "Unknown action 'mx'");
    assert_eq!(record_for(&MailRecord::Spf, "d.com", ""), ("@".to_string(), "v=spf1 mx a ip4:157.15.125.2 ~all".to_string()));
    assert_eq!(
        record_for(&MailRecord::Dmarc, "d.com", "").1,
        "v=DMARC1; p=none; rua=mailto:admin@d.com"
    );
    assert_eq!(record_for(&MailRecord::Dkim, "d.com", "KEY"), ("default._domainkey".to_string(), "v=DKIM1; k=rsa; p=KEY".to_string()));
    assert_eq!(prefix_pattern("v=spf1"), "v=spf1%");
    assert_eq!(dkim_key_path("d.com"), "/etc/opendkim/keys/d.com/default.private");
    assert_eq!(dkim_public_key("  MIIB\n"), "MIIB");
}

#[test]
fn opendkim_tables() {
    assert_eq!(key_table_line("d.com", "/k/d.com/default.private"), "default._domainkey.d.com d.com:default:/k/d.com/default.private\n");
    assert_eq!(
        signing_table_lines("d.com"),
        "*@*.d.com default._domainkey.d.com\n*@d.com default._domainkey.d.com\n"
    );
    assert!(has_line("a\n  b c  \nd", "b c"));
    assert!(!has_line("a\nb\n", "c"));
}
