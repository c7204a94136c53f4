use fpanel::apps::{
    app_user_sql, archive_usable, laravel_plan, ojs_archive_name, tools_info, check_app, check_no_app, db_ident, generate_password, htdocs_ready, password_of, rewrite_env,
    rewrite_ojs_config, sanitize, wordpress_plan, InstallBody,
};
use fpanel::cache::{
    configured_maxmemory, flush_result, maxmemory_bytes, maxmemory_reply, ok_reply, parse_info, CacheInfo,
};
use fpanel::delivery::{delivery_event, html_flag, list_limit, sender_of, LogEntry, MailLogPatterns};
use fpanel::logs::{file_metrics_checked, lines_wanted, log_file_name, safe_domain, tail};
use fpanel::nginx::{cert_pair, files_missing, server_name_line, site_available, site_enabled, ssl_site, test_failure};
use fpanel::php::{check_php_choice, check_setting, validate_ini, IniValue};
use fpanel::resp::{encode_command, Resp, RespReader, RespStep};
use fpanel::runtime::{bin_cmd, check_port, check_port_free, env_map, log_tail, runtime_command};
use fpanel::sec::{defaults, merge_ips, parse_allowed, valid_ip, waf_settings};
use fpanel::ssl::{admit_certificate, covers, date_to_iso, extract_cn, parse_meta};

fn body(user: Option<&str>, pass: Option<&str>, email: Option<&str>, title: Option<&str>) -> InstallBody {
    InstallBody {
        domain_id: 1,
        app: "wordpress".to_string(),
        site_title: title.map(|s| s.to_string()),
        admin_user: user.map(|s| s.to_string()),
        admin_password: pass.map(|s| s.to_string()),
        admin_email: email.map(|s| s.to_string()),
    }
}

#[test]
fn app_choice_and_names() {
    assert_eq!(check_app(" WordPress ").unwrap(), "wordpress");
    assert_eq!(
        check_app("drupal").unwrap_err().message,
        "Unknown application 'drupal'. Choose wordpress, laravel or ojs."
    );
    assert_eq!(check_no_app(1, 0).unwrap_err().message, "An application is already installed on this domain");
    assert_eq!(check_no_app(0, 1).unwrap_err().message, "A runtime app is already bound to this domain");
    assert!(check_no_app(0, 0).is_ok());
    assert_eq!(sanitize("Bob-Smith_1!"), "bobsmith_1");
    assert_eq!(db_ident("bob", "wordpress", 0), ("fp_bob_wor".to_string(), "fp_bob_wor".to_string()));
    assert_eq!(db_ident("bob", "ojs", 2), ("fp_bob_ojs2".to_string(), "fp_bob_ojs2".to_string()));
    let (d, u) = db_ident(&"x".repeat(80), "laravel", 0);
    assert_eq!((d.len(), u.len()), (58, 27));
}

#[test]
fn document_root_must_be_empty() {
    assert!(htdocs_ready(false, false, &vec![]).is_ok());
    assert_eq!(htdocs_ready(true, true, &vec![]).unwrap_err().message, "The document root is a file, not a directory");
    assert!(htdocs_ready(true, false, &vec![("index.html".to_string(), true), (".htaccess".to_string(), true)]).is_ok());
    let e = htdocs_ready(true, false, &vec![("index.html".to_string(), true), ("a.php".to_string(), true)]).unwrap_err();
    assert_eq!(
        (e.status, e.message.as_str()),
        (409, "The document root already contains files. Install requires an empty document root (found 'a.php').")
    );
    let e = htdocs_ready(true, false, &vec![("wp".to_string(), false)]).unwrap_err();
    assert_eq!(e.message, "The document root already contains a directory 'wp'. Install requires an empty document root.");
}

#[test]
fn wordpress_install_plan() {
    assert_eq!(wordpress_plan("d.com", "db", "u", "p", &body(None, None, None, None)).unwrap_err(), "admin_user is required");
    assert_eq!(
        wordpress_plan("d.com", "db", "u", "p", &body(Some("ab"), Some("secret1"), Some("a@d.com"), None)).unwrap_err(),
        "admin_user must be at least 3 characters"
    );
    assert_eq!(
        wordpress_plan("d.com", "db", "u", "p", &body(Some("admin"), Some("12345"), Some("a@d.com"), None)).unwrap_err(),
        "admin_password must be at least 6 characters"
    );
    assert_eq!(
        wordpress_plan("d.com", "db", "u", "p", &body(Some("admin"), Some("secret1"), None, None)).unwrap_err(),
        "admin_email is required"
    );
    let st = wordpress_plan("d.com", "db", "u", "p", &body(Some("admin"), Some("secret1"), Some("a@d.com"), None)).unwrap();
    assert_eq!(st.len(), 3);
    assert_eq!(st[0], vec!["core", "download", "--force"]);
    assert_eq!(st[1][2], "--dbname=db");
    assert_eq!(st[2][2], "--url=http://d.com/");
    assert_eq!(st[2][3], "--title=d.com");
    assert_eq!(st[2][7], "--skip-email");
}

#[test]
fn config_files_rewritten() {
    let env = rewrite_env("APP_NAME=x\nAPP_URL=http://localhost\nDB_DATABASE=laravel\nDB_PASSWORD=\n", "d.com", "db", "u", "p");
    assert_eq!(env, "APP_NAME=x\nAPP_URL=http://d.com/\nDB_DATABASE=db\nDB_PASSWORD=p\n");
    let ojs = rewrite_ojs_config("[database]\ndriver = mysql\nname = ojs\n", "db", "u", "p");
    assert_eq!(ojs, "[database]\ndriver = mysqli\nname = db\n");
    let (a, b, c) = app_user_sql("fp_u", "localhost", "p'w", "fp_db");
    assert_eq!(a, "CREATE USER IF NOT EXISTS `fp_u`@'localhost' IDENTIFIED BY 'p''w'");
    assert_eq!(b, "ALTER USER `fp_u`@'localhost' IDENTIFIED BY 'p''w'");
    assert_eq!(c, "GRANT ALL PRIVILEGES ON `fp_db`.* TO `fp_u`@'localhost'");
}

#[test]
fn generated_passwords() {
    assert_eq!(password_of("12-ab_cd!ef34567890ghijklmn"), "12ABCDEF34567890GH");
    let p = generate_password().unwrap();
    assert_eq!(p.len(), 18);
    assert!(p.chars().all(|c| c.is_ascii_digit() || c.is_ascii_uppercase()));
}

#[test]
fn cache_info_and_replies() {
    let m = parse_info(b"# Server\r\nredis_version:7.2.4\r\nuptime_in_seconds: 42 \r\n\r\nnocolon\r\n");
    assert_eq!(m.get("redis_version"), Some("7.2.4".to_string()));
    assert_eq!(m.get_int("uptime_in_seconds"), Some(42));
    assert_eq!(m.get("nocolon"), None);
    let c = CacheInfo::from_info(Some(3), &m);
    assert!(c.connected);
    assert_eq!(c.version.as_deref(), Some("7.2.4"));
    assert!(!CacheInfo::offline().connected);
    assert!(ok_reply(&Resp::Simple("OK".to_string())));
    assert!(!ok_reply(&Resp::Simple("QUEUED".to_string())));
    assert_eq!(flush_result(&Resp::Integer(5), &Resp::Simple("OK".to_string())).unwrap(), 5);
    assert_eq!(flush_result(&Resp::Integer(5), &Resp::Integer(0)).unwrap_err().status, 502);
    assert_eq!(maxmemory_bytes(64).unwrap(), 64 * 1048576);
    assert_eq!(maxmemory_bytes(4).unwrap_err().message, "maxmemory must be between 8 and 2048 MB");
    assert_eq!(maxmemory_reply(None, maxmemory_bytes(100).unwrap()), (100 * 1048576, 100));
    let reply = Resp::Array(vec![Resp::Bulk(b"maxmemory".to_vec()), Resp::Bulk(b"1048576".to_vec())]);
    assert_eq!(configured_maxmemory(Some(reply)), Some(1048576));
}

#[test]
fn resp_reader_reads_what_is_sent() {
    let bytes = encode_command(&vec![b"SET".to_vec(), b"k".to_vec(), b"v v".to_vec()]);
    assert_eq!(bytes, b"*3\r\n$3\r\nSET\r\n$1\r\nk\r\n$3\r\nv v\r\n".to_vec());
    let mut r = RespReader::new();
    assert!(matches!(r.feed_line("*2\r\n"), RespStep::NeedLine));
    assert!(matches!(r.feed_line(":7\r\n"), RespStep::NeedLine));
    assert!(matches!(r.feed_line("$3\r\n"), RespStep::NeedBulk(3)));
    match r.feed_bulk(b"abc".to_vec()) {
        RespStep::Done(Resp::Array(items)) => {
            assert_eq!(items.len(), 2);
            assert!(matches!(items[0], Resp::Integer(7)));
            assert!(matches!(&items[1], Resp::Bulk(b) if b == b"abc"));
        }
        _ => panic!("expected an array"),
    }
    let mut r = RespReader::new();
    assert!(matches!(r.feed_line("-ERR wrong\r\n"), RespStep::Fail(_)));
    let mut r = RespReader::new();
    assert!(matches!(r.feed_line(""), RespStep::Fail(_)));
}

#[test]
fn mail_log_entries() {
    let p = MailLogPatterns::new().unwrap();
    let line = "Mar  3 10:00:01 mx postfix/smtp[123]: 4ABC12: to=<u@x.com>, relay=mx.x.com[1.2.3.4]:25, delay=1, status=sent (250 2.0.0 Ok)";
    match p.entry(line) {
        Some(LogEntry::Delivery { qid, to, relay, status, detail, .. }) => {
            assert_eq!(qid, "4ABC12");
            assert_eq!(to, "u@x.com");
            assert_eq!(relay, "mx.x.com[1.2.3.4]:25");
            assert_eq!(status, "sent");
            assert_eq!(detail, "250 2.0.0 Ok");
        }
        _ => panic!("expected a delivery"),
    }
    let q = "2024-01-01T00:00:00 mx postfix/qmgr[9]: 4ABC12: from=<me@d.com>, size=100";
    match p.entry(q) {
        Some(LogEntry::Queue { qid, from, .. }) => assert_eq!((qid.as_str(), from.as_str()), ("4ABC12", "me@d.com")),
        _ => panic!("expected a queue entry"),
    }
    assert!(p.entry("random line").is_none());
    let soft = "x mx postfix/smtp[1]: 4A: to=<u@x.com>, relay=none, delay=1, status=unknown";
    assert!(p.entry(soft).is_none());
    let all = p.scan(&format!("{line}\n{q}\nnoise\n"));
    assert_eq!(all.len(), 2);
}

#[test]
fn delivery_listing() {
    assert_eq!(list_limit(None), 100);
    assert_eq!(list_limit(Some(50)), 50);
    assert_eq!(list_limit(Some(900)), 500);
    let queue = vec![("A".to_string(), "first@x".to_string()), ("A".to_string(), "second@x".to_string())];
    assert_eq!(sender_of(&queue, "A"), "second@x");
    assert_eq!(sender_of(&queue, "B"), "");
    let e = delivery_event("t".into(), "A".into(), "to".into(), "r".into(), "sent".into(), "".into(), &queue);
    assert_eq!(e.from_addr, "second@x");
    assert!(html_flag(1));
    assert!(!html_flag(0));
}

#[test]
fn logs_helpers() {
    assert_eq!(safe_domain(" Site.com ").unwrap(), "site.com");
    assert_eq!(safe_domain("../etc").unwrap_err().message, "Invalid domain");
    assert_eq!(lines_wanted(None), 200);
    assert_eq!(lines_wanted(Some(0)), 1);
    assert_eq!(lines_wanted(Some(99999)), 5000);
    assert_eq!(log_file_name("s.com", true), "s.com.access.log");
    assert_eq!(log_file_name("s.com", false), "s.com.error.log");
    assert_eq!(tail(b"a\nb\nc\n", 2), vec!["b".to_string(), "c".to_string()]);
    assert_eq!(file_metrics_checked(b"x GET / 200 100\ny 200 50\nz\n"), Some((27, 3, 150)));
}

#[test]
fn nginx_site() {
    let s = ssl_site("d.com", "/c/d.com.crt", "/c/d.com.key");
    assert!(s.starts_with("server {\n    listen 443 ssl http2;\n    server_name d.com;\n"));
    assert!(s.contains("    ssl_certificate /c/d.com.crt;\n    ssl_certificate_key /c/d.com.key;\n"));
    assert!(s.ends_with("    }\n}\n"));
    assert_eq!(cert_pair("/c", "d.com"), ("/c/d.com.crt".to_string(), "/c/d.com.key".to_string()));
    assert_eq!(site_available("d.com"), "/etc/nginx/sites-available/fpssl-d.com.conf");
    assert_eq!(site_enabled("d.com"), "/etc/nginx/sites-enabled/fpssl-d.com.conf");
    assert_eq!(server_name_line("d.com"), "server_name d.com;");
    assert_eq!(files_missing("d.com"), "ssl files missing for d.com");
    assert_eq!(test_failure(b" bad conf \n"), "nginx -t failed: bad conf");
}

#[test]
fn php_settings() {
    assert!(check_setting("memory_limit", &IniValue::Text("256M".to_string())).is_ok());
    assert_eq!(check_setting("memory_limit", &IniValue::Text("lots".to_string())).unwrap_err().status, 400);
    assert_eq!(check_setting("x", &IniValue::Other).unwrap_err().message, "Invalid value for x");
    assert!(validate_ini(&vec![("memory_limit".to_string(), IniValue::Text("1G".to_string()))]).is_ok());
    assert_eq!(check_php_choice(" 8.2 ", None).unwrap(), ("8.2".to_string(), "system".to_string()));
    assert_eq!(check_php_choice("", None).unwrap_err().message, "A PHP version is required");
    assert_eq!(check_php_choice("8.2", Some("cgi")).unwrap_err().message, "Handler must be system or fpm");
}

#[test]
fn runtime_rules() {
    assert_eq!(bin_cmd("python"), Some("python3"));
    assert_eq!(bin_cmd("java"), None);
    assert_eq!(runtime_command("java").unwrap_err().message, "Unsupported runtime 'java'");
    assert_eq!(check_port(Some(3000)).unwrap(), 3000);
    assert_eq!(check_port(Some(0)).unwrap_err().message, "A valid port (1-65535) is required");
    assert!(check_port(None).is_err());
    assert_eq!(check_port_free(1, 3000).unwrap_err().message, "Port 3000 is already in use");
    assert_eq!(log_tail("a\nb\nc", 2), vec!["b".to_string(), "c".to_string()]);
    assert!(env_map(None).is_empty());
    assert_eq!(env_map(Some("{\"A\":\"1\",\"B\":2}")), vec![("A".to_string(), "1".to_string())]);
}

#[test]
fn security_rules() {
    assert_eq!(defaults().len(), 10);
    assert_eq!(defaults()[0].id, "sqli");
    assert_eq!(valid_ip(" 10.0.0.1 ", true, false).unwrap(), "10.0.0.1");
    assert_eq!(valid_ip("", true, true).unwrap_err().message, "IP address is required");
    assert!(valid_ip("10.0.0.0/24", false, true).is_ok());
    assert_eq!(valid_ip("10.0.0.0/33", false, true).unwrap_err().message, "'10.0.0.0/33' is not a valid IP address or CIDR");
    let merged = merge_ips(vec!["a".to_string(), "b".to_string()], &vec!["b".to_string(), "c".to_string(), "c".to_string()]);
    assert_eq!(merged, vec!["a".to_string(), "b".to_string(), "c".to_string()]);
    assert_eq!(parse_allowed(" x.com , https://y.com/ ,"), vec!["x.com".to_string(), "y.com".to_string()]);
    assert_eq!(waf_settings(None, None).unwrap(), (true, "block".to_string()));
    assert_eq!(waf_settings(Some(false), Some("drop".to_string())).unwrap_err().message, "mode must be 'block' or 'log'");
}

#[test]
fn certificate_names_and_dates() {
    assert_eq!(extract_cn("C = US, O = Let's Encrypt, CN = R3"), "R3");
    assert!(covers("site.com", "SITE.com"));
    assert!(covers("*.site.com", "www.site.com"));
    assert!(!covers("*.site.com", "a.b.site.com"));
    assert!(!covers("*.site.com", "site.com"));
    assert_eq!(date_to_iso("Jan  5 12:00:00 2025 GMT").unwrap(), "2025-01-05T12:00:00+00:00");
    assert!(date_to_iso("not a date").unwrap_err().message.starts_with("Could not parse certificate date: "));
    let out = "subject=CN = site.com\nissuer=C = US, O = X, CN = Test CA\nnotBefore=Jan  1 00:00:00 2025 GMT\nnotAfter=Apr  1 00:00:00 2025 GMT\n";
    let m = parse_meta(out).unwrap();
    assert_eq!(m.issuer, "Test CA");
    assert_eq!(m.valid_to, "2025-04-01T00:00:00+00:00");
    assert_eq!(parse_meta("subject=CN = x\n").unwrap_err().message, "Could not parse certificate (invalid PEM?)");
    let names = vec!["site.com".to_string()];
    assert!(admit_certificate(out, &names, "site.com", "ab", "ab", false, false).is_ok());
    assert_eq!(admit_certificate(out, &names, "other.com", "ab", "ab", false, false).unwrap_err().message, "Certificate does not cover domain other.com");
    assert_eq!(admit_certificate(out, &names, "site.com", "ab", "cd", false, false).unwrap_err().message, "Private key does not match certificate");
    assert_eq!(admit_certificate(out, &names, "site.com", "ab", "ab", true, false).unwrap_err().status, 409);
    assert!(admit_certificate(out, &names, "site.com", "ab", "ab", true, true).is_ok());
}

#[test]
fn installers_and_tools() {
    assert_eq!(laravel_plan(false).unwrap_err(), "composer is not installed on this server");
    let p = laravel_plan(true).unwrap();
    assert_eq!(p.len(), 4);
    assert_eq!(p[0].0, "composer");
    assert_eq!(p[0].1, vec!["create-project", "laravel/laravel", ".", "--no-interaction", "--no-progress"]);
    assert_eq!(p[2].1, vec!["artisan", "migrate", "--force"]);
    assert_eq!(ojs_archive_name(), "ojs-3.4.0-5.tar.gz");
    assert!(archive_usable(true, Some(5000)));
    assert!(!archive_usable(true, Some(10)));
    assert!(!archive_usable(false, Some(5000)));
    let t = tools_info(false, true, false, " 8.3.1\n");
    assert!(t.wpcli && !t.composer && t.php && t.ojs);
    assert_eq!(t.php_version, "8.3.1");
}
