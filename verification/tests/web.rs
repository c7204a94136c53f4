use fpanel::provision::{HotlinkCfg, RedirectEntry, SecurityProvision, Vhost, WafCfg};
use fpanel::webserver::{
    access_log_line, cgi_environment, decide, error_log_line, extension, find_redirect, hotlink_blocks,
    ip_in_block, is_php, mime_for, parse_cgi_output, request_host, resolve, safe_join, waf_verdict, BlockEntry,
    Decision, IpVal, WafVerdict,
};

fn v4(a: u8, b: u8, c: u8, d: u8) -> IpVal {
    IpVal::V4(u32::from_be_bytes([a, b, c, d]))
}

#[test]
fn mime_types_by_extension() {
    assert_eq!(mime_for("/a/index.html"), "text/html; charset=utf-8");
    assert_eq!(mime_for("style.css"), "text/css; charset=utf-8");
    assert_eq!(mime_for("app.mjs"), "text/javascript; charset=utf-8");
    assert_eq!(mime_for("logo.png"), "image/png");
    assert_eq!(mime_for("font.woff2"), "application/font-woff");
    assert_eq!(mime_for("archive.tar"), "application/gzip");
    assert_eq!(mime_for("README"), "application/octet-stream");
    assert_eq!(mime_for(".htaccess"), "application/octet-stream");
}

#[test]
fn php_files_are_recognised() {
    assert!(is_php("/var/www/index.php"));
    assert!(!is_php("/var/www/index.php.txt"));
    assert!(!is_php("/var/www/php"));
    let e: String = extension("a/b.tar.gz").unwrap().into_iter().collect();
    assert_eq!(e, "gz");
    assert!(extension("a/.bashrc").is_none());
}

#[test]
fn safe_join_refuses_parent_segments() {
    assert_eq!(safe_join("/srv/www", "/a/b.html").unwrap(), "/srv/www/a/b.html");
    assert_eq!(safe_join("/srv/www", "//a/./b").unwrap(), "/srv/www/a/b");
    assert!(safe_join("/srv/www", "/../etc/passwd").is_none());
    assert!(safe_join("/srv/www", "/%2e%2e/etc/passwd").is_none());
    assert!(safe_join("/srv/www", "/a\\b").is_none());
    assert_eq!(safe_join("/srv/www", "/my%20page.html").unwrap(), "/srv/www/my page.html");
}

#[test]
fn resolve_prefers_first_index() {
    assert_eq!(resolve("/r/d", true, &vec![false, true, true], false).unwrap(), "/r/d/index.htm");
    assert_eq!(resolve("/r/d", true, &vec![true, false, false], false).unwrap(), "/r/d/index.html");
    assert!(resolve("/r/d", true, &vec![false, false, false], false).is_none());
    assert_eq!(resolve("/r/f.txt", false, &vec![false, false, false], true).unwrap(), "/r/f.txt");
    assert!(resolve("/r/missing", false, &vec![false, false, false], false).is_none());
}

#[test]
fn host_header_without_port() {
    assert_eq!(request_host(Some("Example.COM:8080")), "example.com");
    assert_eq!(request_host(Some(" site.test ")), "site.test");
    assert_eq!(request_host(None), "");
}

#[test]
fn block_list_addresses_and_networks() {
    let entries = vec![BlockEntry::Blank, BlockEntry::Other, BlockEntry::Addr(v4(10, 0, 0, 5))];
    assert!(ip_in_block(Some(v4(10, 0, 0, 5)), &entries));
    assert!(!ip_in_block(Some(v4(10, 0, 0, 6)), &entries));
    let nets = vec![BlockEntry::Net(v4(192, 168, 1, 0), 24)];
    assert!(ip_in_block(Some(v4(192, 168, 1, 200)), &nets));
    assert!(!ip_in_block(Some(v4(192, 168, 2, 1)), &nets));
    assert!(!ip_in_block(None, &nets));
    let v6 = vec![BlockEntry::Net(IpVal::V6(0x2001_0db8u128 << 96), 32)];
    assert!(ip_in_block(Some(IpVal::V6((0x2001_0db8u128 << 96) | 7)), &v6));
    assert!(!ip_in_block(Some(v4(1, 2, 3, 4)), &v6));
}

fn hotlink() -> HotlinkCfg {
    HotlinkCfg {
        enabled: true,
        extensions: "jpg|png".to_string(),
        allow_empty: true,
        allowed: vec!["cdn.example.net".to_string()],
    }
}

#[test]
fn hotlink_rules() {
    let hl = hotlink();
    assert!(hotlink_blocks(&hl, "site.com", "GET", "/img/a.JPG", Some("https://evil.com/page")));
    assert!(!hotlink_blocks(&hl, "site.com", "GET", "/img/a.jpg", Some("https://site.com/page")));
    assert!(!hotlink_blocks(&hl, "site.com", "GET", "/img/a.jpg", Some("http://CDN.example.net:80/x")));
    assert!(!hotlink_blocks(&hl, "site.com", "GET", "/img/a.jpg", None));
    assert!(!hotlink_blocks(&hl, "site.com", "POST", "/img/a.jpg", Some("https://evil.com")));
    assert!(!hotlink_blocks(&hl, "site.com", "GET", "/doc.pdf", Some("https://evil.com")));
    let strict = HotlinkCfg { allow_empty: false, ..hotlink() };
    assert!(hotlink_blocks(&strict, "site.com", "GET", "/img/a.png", None));
}

fn waf(mode: &str) -> WafCfg {
    WafCfg { enabled: true, mode: mode.to_string(), patterns: vec!["(?i)union\\s+select".to_string(), "<script".to_string()] }
}

#[test]
fn waf_blocks_or_logs() {
    assert!(matches!(waf_verdict(&waf("block"), "/index.php", Some("id=1+UNION+SELECT+1")), WafVerdict::Blocked(0)));
    assert!(matches!(waf_verdict(&waf("log"), "/index.php", Some("id=1%20union%20select%201")), WafVerdict::Logged(0)));
    assert!(matches!(waf_verdict(&waf("block"), "/a%3Cscript%3E", None), WafVerdict::Blocked(1)));
    assert!(matches!(waf_verdict(&waf("block"), "/index.php", Some("id=1")), WafVerdict::Pass));
    let off = WafCfg { enabled: false, ..waf("block") };
    assert!(matches!(waf_verdict(&off, "/x", Some("union select")), WafVerdict::Pass));
}

#[test]
fn waf_skips_invalid_patterns() {
    let w = WafCfg { enabled: true, mode: "block".to_string(), patterns: vec!["(".to_string(), "evil".to_string()] };
    assert!(matches!(waf_verdict(&w, "/evil", None), WafVerdict::Blocked(1)));
}

#[test]
fn redirects_first_match() {
    let rules = vec![
        RedirectEntry { from: "/old".to_string(), to: "https://n.example/new".to_string(), permanent: true },
        RedirectEntry { from: "/".to_string(), to: "https://home.example".to_string(), permanent: false },
    ];
    assert_eq!(find_redirect(&rules, "/old"), Some((301, "https://n.example/new".to_string())));
    assert_eq!(find_redirect(&rules, "/"), Some((302, "https://home.example".to_string())));
    assert_eq!(find_redirect(&rules, ""), Some((302, "https://home.example".to_string())));
    assert_eq!(find_redirect(&rules, "/other"), None);
}

fn vh() -> Vhost {
    Vhost { domain: "site.com".to_string(), account: "bob".to_string(), root: "/home/bob/public_html".to_string() }
}

#[test]
fn decision_order() {
    let v = vh();
    let none_rules: Vec<RedirectEntry> = vec![];
    let no_blocks: Vec<BlockEntry> = vec![];
    assert!(matches!(decide("h", "", None, "GET", None, None, Some(&v), None, &no_blocks, &none_rules, None), Decision::Ignore));
    match decide("nowhere.test", "/", None, "GET", None, None, None, None, &no_blocks, &none_rules, None) {
        Decision::NoVhost(b) => assert_eq!(b, "<h1>404 Not Found</h1><p>No vhost configured for <b>nowhere.test</b></p>"),
        _ => panic!("expected no vhost"),
    }
    let sec = SecurityProvision { domain: "site.com".to_string(), blocked_ips: vec!["10.0.0.1".to_string()], hotlink: None, waf: None };
    let blocks = vec![BlockEntry::Addr(v4(10, 0, 0, 1))];
    assert!(matches!(
        decide("site.com", "/", None, "GET", Some(v4(10, 0, 0, 1)), None, Some(&v), Some(&sec), &blocks, &none_rules, None),
        Decision::AddressBlocked(_)
    ));
    match decide("site.com", "/a%20b.html", None, "GET", Some(v4(10, 0, 0, 2)), None, Some(&v), Some(&sec), &blocks, &none_rules, None) {
        Decision::Serve { root, decoded } => {
            assert_eq!(root, "/home/bob/public_html");
            assert_eq!(decoded, "/a b.html");
        }
        _ => panic!("expected serve"),
    }
    match decide("site.com", "/api", None, "GET", None, None, Some(&v), None, &no_blocks, &none_rules, Some("127.0.0.1:3000")) {
        Decision::Proxy(t) => assert_eq!(t, "127.0.0.1:3000"),
        _ => panic!("expected proxy"),
    }
}

#[test]
fn cgi_output_head_and_body() {
    let out = parse_cgi_output(b"Status: 404 Not Found\r\nContent-type: text/html\r\n\r\n<p>x</p>".to_vec());
    assert_eq!(out.status, 404);
    assert_eq!(out.content_type.as_deref(), Some("text/html"));
    assert_eq!(out.location, None);
    assert_eq!(out.body, b"<p>x</p>".to_vec());
    let out = parse_cgi_output(b"Location: /login\n\nbody".to_vec());
    assert_eq!(out.status, 200);
    assert_eq!(out.location.as_deref(), Some("/login"));
    assert_eq!(out.body, b"body".to_vec());
    let out = parse_cgi_output(b"no head here".to_vec());
    assert_eq!(out.status, 200);
    assert_eq!(out.body, b"no head here".to_vec());
}

#[test]
fn log_lines() {
    assert_eq!(
        access_log_line("2024-01-01T00:00:00Z", "1.2.3.4", "GET", "/x?y=1", 200, 512),
        "2024-01-01T00:00:00Z 1.2.3.4 \"GET /x?y=1 HTTP/1.1\" 200 512\n"
    );
    assert_eq!(error_log_line("T", "boom"), "[T] boom\n");
}

#[test]
fn cgi_environment_in_order() {
    let env = cgi_environment("/r/i.php", "/r", "site.com", "POST", "/i.php?a=1", "a=1", Some("text/plain"));
    assert_eq!(env.len(), 15);
    assert_eq!(env[0], ("REDIRECT_STATUS".to_string(), "1".to_string()));
    assert_eq!(env[2], ("SCRIPT_NAME".to_string(), "/i.php".to_string()));
    assert_eq!(env[13], ("CONTENT_TYPE".to_string(), "text/plain".to_string()));
    let env = cgi_environment("/r/i.php", "/r", "site.com", "GET", "/i.php", "", None);
    assert_eq!(env.len(), 13);
    assert_eq!(env[12], ("REMOTE_ADDR".to_string(), "127.0.0.1".to_string()));
}
