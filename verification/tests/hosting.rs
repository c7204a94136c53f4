use fpanel::accounts::{
    account_domain, check_domain_unassigned, check_new_account, created_message, deleted_message, log_provision,
    merged_update, password_hash_for, removal_statements, Account, UpdateAccount,
};
use fpanel::backups::{
    account_from_file, backup_info, backup_time, is_backup_file, retain_owned, sort_newest_first, backup_name, backup_owner, check_own_backup, check_owner_exists, download_disposition,
    new_backup_name, restored_message, safe_file_name, tool_failure,
};
use fpanel::config::{database_path, mysql_settings, needs_file, needs_password_column, sqlite_url, token_secret, PORT};
use fpanel::files::{chmod_mode, check_delete_target, check_entry_name, fmt_perms, listing_path, parent_of, safe_resolve};
use fpanel::packages::{check_deleted, insert_failure, package_name};
use fpanel::provision::{account_home, account_htdocs, join, tools_dir, vhost_path, vhost_root, wpcli_phar};
use fpanel::stats::{
    checked_by_process, disk_fields, disk_used_mb, panel_version, process_pattern, process_status, service_list,
    unit_status, usage_totals,
};

fn account() -> Account {
    Account {
        id: 4,
        username: "bob".to_string(),
        email: "b@x.com".to_string(),
        package_id: 2,
        status: "active".to_string(),
        name: Some("Bob".to_string()),
    }
}

#[test]
fn new_accounts_are_checked() {
    assert_eq!(check_new_account(" bob ", " b@x.com ").unwrap(), ("bob".to_string(), "b@x.com".to_string()));
    let e = check_new_account("  ", "b@x.com").unwrap_err();
    assert_eq!((e.status, e.message.as_str()), (400, "Invalid username or email"));
    assert!(check_new_account("bob", "no-at").is_err());
}

#[test]
fn short_passwords_are_not_set() {
    assert_eq!(password_hash_for(None).unwrap(), None);
    assert_eq!(password_hash_for(Some("12345")).unwrap(), None);
    let h = password_hash_for(Some("longer-secret")).unwrap().unwrap();
    assert!(bcrypt::verify("longer-secret", &h).unwrap());
}

#[test]
fn account_main_domain() {
    assert_eq!(account_domain(None).unwrap(), None);
    assert_eq!(account_domain(Some("   ")).unwrap(), None);
    assert_eq!(account_domain(Some(" Site.COM ")).unwrap(), Some("site.com".to_string()));
    assert_eq!(account_domain(Some("bad_domain")).unwrap_err().message, "Invalid domain name");
    let e = check_domain_unassigned("site.com", 1).unwrap_err();
    assert_eq!((e.status, e.message.as_str()), (409, "Domain site.com is already assigned to another account"));
    assert!(check_domain_unassigned("site.com", 0).is_ok());
}

#[test]
fn updates_merge_into_the_row() {
    let u = UpdateAccount { email: None, password: None, package_id: Some(9), status: None, name: None };
    let (email, pkg, status, name) = merged_update(&account(), &u);
    assert_eq!((email.as_str(), pkg, status.as_str()), ("b@x.com", 9, "active"));
    assert_eq!(name, None);
    let u = UpdateAccount { email: Some("n@x.com".to_string()), password: None, package_id: None, status: Some("suspended".to_string()), name: Some("N".to_string()) };
    let (email, pkg, status, name) = merged_update(&account(), &u);
    assert_eq!((email.as_str(), pkg, status.as_str(), name.as_deref()), ("n@x.com", 2, "suspended", Some("N")));
}

#[test]
fn removal_runs_in_dependency_order() {
    let s = removal_statements();
    assert_eq!(s.len(), 20);
    assert!(s[0].starts_with("DELETE FROM db_privileges"));
    assert_eq!(s[1], "DELETE FROM dns_records WHERE account_id = ?");
    assert_eq!(s[17], "DELETE FROM cron_jobs WHERE account_id = ?");
    assert_eq!(s[18], "DELETE FROM domains WHERE account_id = ?");
    assert_eq!(s[19], "DELETE FROM accounts WHERE id = ?");
}

#[test]
fn provisioning_messages() {
    assert_eq!(log_provision("create account bob"), "[provision-stub] create account bob");
    assert_eq!(created_message("bob"), "create account bob");
    assert_eq!(deleted_message(-3, "bob"), "delete account -3 (bob)");
    assert_eq!(deleted_message(12, "bob"), "delete account 12 (bob)");
}

#[test]
fn backup_names_round_trip() {
    let f = backup_name("my-user", "20240102030405");
    assert_eq!(f, "my-user-20240102030405.zip");
    assert_eq!(account_from_file(&f), Some("my-user".to_string()));
    assert_eq!(account_from_file("-20240102.zip"), None);
    assert_eq!(account_from_file("nodash.zip"), None);
    assert_eq!(account_from_file("bob-1.tar"), None);
    let n = new_backup_name("carol").unwrap();
    assert_eq!(account_from_file(&n), Some("carol".to_string()));
    let stamp = &n["carol-".len()..n.len() - ".zip".len()];
    assert_eq!(stamp.len(), 14);
    assert!(stamp.chars().all(|c| c.is_ascii_digit()));
}

#[test]
fn backup_file_names_are_checked() {
    assert_eq!(safe_file_name(" bob-1.zip ").unwrap(), "bob-1.zip");
    for bad in ["", "../x.zip", "a/b.zip", "a\\b.zip", "a..b.zip", "bob-1.tar"] {
        assert_eq!(safe_file_name(bad).unwrap_err().message, "Invalid backup file name");
    }
    assert_eq!(backup_owner("bob-1.zip").unwrap(), "bob");
    assert_eq!(backup_owner("x.zip").unwrap_err().status, 400);
    assert_eq!(check_owner_exists(0).unwrap_err().message, "Backup does not belong to any account");
    assert!(check_owner_exists(1).is_ok());
    assert_eq!(check_own_backup("bob", "eve").unwrap_err().message, "Not your backup");
    assert!(check_own_backup("bob", "bob").is_ok());
    let e = tool_failure("Backup failed: ", b"  zip error \n");
    assert_eq!((e.status, e.message.as_str()), (500, "Backup failed: zip error"));
    assert_eq!(restored_message("bob-1.zip"), "Restored bob-1.zip");
    assert_eq!(download_disposition("bob-1.zip"), "attachment; filename=\"bob-1.zip\"");
}

#[test]
fn packages_rules() {
    assert_eq!(package_name("  Gold ").unwrap(), "Gold");
    assert_eq!(package_name("  ").unwrap_err().message, "Package name cannot be empty");
    let e = insert_failure("UNIQUE constraint failed: packages.name");
    assert_eq!((e.status, e.message.as_str()), (409, "Package name already exists"));
    assert_eq!(insert_failure("disk full").status, 500);
    assert_eq!(check_deleted(0).unwrap_err().message, "Package not found");
    assert!(check_deleted(1).is_ok());
}

#[test]
fn usage_sums() {
    assert_eq!(usage_totals(&vec![(1, 2, 3), (10, 20, 30)]), Some((11, 22, 33)));
    assert_eq!(usage_totals(&vec![]), Some((0, 0, 0)));
    assert_eq!(usage_totals(&vec![(i64::MAX, 0, 0), (1, 0, 0)]), None);
    assert_eq!(disk_used_mb(3 * 1048576 + 5), 3);
    assert_eq!(disk_used_mb(0), 0);
}

#[test]
fn server_status_fields() {
    assert_eq!(disk_fields("5G|20G|25%"), ("5G".to_string(), "20G".to_string(), "25%".to_string()));
    assert_eq!(disk_fields(""), (String::new(), String::new(), String::new()));
    let s = service_list();
    assert_eq!(s.len(), 9);
    assert_eq!(s[0], ("Pingora (Web Server)".to_string(), "fserver".to_string()));
    assert!(checked_by_process("fpanel"));
    assert!(!checked_by_process("nginx"));
    assert_eq!(process_pattern("fserver"), "target/release/fserver");
    assert_eq!(process_status(true), "active");
    assert_eq!(unit_status("active"), "active");
    assert_eq!(unit_status("inactive"), "inactive");
    assert_eq!(unit_status(""), "inactive");
    assert_eq!(unit_status("failed"), "failed");
    assert_eq!(panel_version(), "1.0.0");
}

#[test]
fn startup_settings() {
    assert_eq!(PORT, 8181);
    assert_eq!(database_path(Some("/env.db".to_string()), Some(("/dep.db".to_string(), true)), "/dev.db".to_string()), "/env.db");
    assert_eq!(database_path(None, Some(("/dep.db".to_string(), true)), "/dev.db".to_string()), "/dep.db");
    assert_eq!(database_path(None, Some(("/dep.db".to_string(), false)), "/dev.db".to_string()), "/dev.db");
    assert_eq!(token_secret(None), "fpanel-dev-secret-change-me");
    assert!(!needs_file(":memory:"));
    assert!(needs_file("/tmp/x.db"));
    assert_eq!(sqlite_url("/tmp/x.db"), "sqlite:/tmp/x.db");
    assert!(needs_password_column(&vec!["id".to_string(), "username".to_string()]));
    assert!(!needs_password_column(&vec!["password_hash".to_string()]));
    assert_eq!(mysql_settings(None, None), ("felix".to_string(), "/tmp/mysql.sock".to_string()));
}

#[test]
fn account_layout() {
    assert_eq!(account_home("/home", "bob"), "/home/bob");
    assert_eq!(account_htdocs("/home", "bob"), "/home/bob/public_html");
    assert_eq!(vhost_root("/home", "bob", "sub", "blog.site.com."), "/home/bob/blog.site.com");
    assert_eq!(vhost_root("/home", "bob", "alias", "x.com"), "/home/bob/public_html");
    assert_eq!(vhost_path("/v", "site.com"), "/v/site.com.json");
    assert_eq!(join("/a/", "b"), "/a/b");
    assert_eq!(join("/a", "/abs"), "/abs");
}

#[test]
fn file_manager_paths() {
    assert_eq!(safe_resolve("/home/bob", "/public_html/./a//b").unwrap(), "/home/bob/public_html/a/b");
    let e = safe_resolve("/home/bob", "../etc").unwrap_err();
    assert_eq!((e.status, e.message.as_str()), (400, "Invalid path (traversal blocked)"));
    assert_eq!(parent_of("/a/b/c/"), "a/b");
    assert_eq!(parent_of("a"), "");
    assert_eq!(fmt_perms(0o755), "rwxr-xr-x");
    assert_eq!(fmt_perms(0o640), "rw-r-----");
    assert_eq!(chmod_mode("755").unwrap(), 0o755);
    assert_eq!(chmod_mode("0o644").unwrap(), 0o644);
    assert_eq!(chmod_mode("9").unwrap_err().message, "Invalid mode (octal expected)");
    assert_eq!(chmod_mode("77777").unwrap_err().message, "Invalid mode");
    assert!(check_entry_name("notes.txt", false).is_ok());
    assert!(check_entry_name("a/b", false).is_err());
    assert_eq!(check_delete_target("  ").unwrap_err().message, "Cannot delete root");
    assert_eq!(listing_path("a/b/"), listing_path("a/b"));
}

fn info(file: &str, user: &str) -> fpanel::backups::BackupInfo {
    fpanel::backups::BackupInfo { file: file.to_string(), username: user.to_string(), size: 1, created_at: String::new() }
}

#[test]
fn backups_listed_newest_first() {
    let v = vec![info("bob-20240101.zip", "bob"), info("amy-20240301.zip", "amy"), info("bob-20240201.zip", "bob")];
    let files: Vec<String> = sort_newest_first(v).into_iter().map(|b| b.file).collect();
    assert_eq!(files, vec!["bob-20240201.zip", "bob-20240101.zip", "amy-20240301.zip"]);
    assert!(sort_newest_first(vec![]).is_empty());
}

#[test]
fn backups_of_existing_accounts() {
    let v = vec![info("bob-1.zip", "bob"), info("x-1.zip", "x"), info("amy-1.zip", "amy")];
    let kept: Vec<String> = retain_owned(v, &vec!["amy".to_string(), "bob".to_string()]).into_iter().map(|b| b.username).collect();
    assert_eq!(kept, vec!["bob", "amy"]);
    assert!(is_backup_file("bob-1.zip"));
    assert!(!is_backup_file("bob-1.zip.part"));
    assert!(!is_backup_file(".zip"));
    let b = backup_info("carol-20240101.zip".to_string(), 10, "t".to_string());
    assert_eq!(b.username, "carol");
    assert_eq!(backup_info("stray.zip".to_string(), 0, String::new()).username, "");
    assert_eq!(backup_time(0), "1970-01-01 00:00:00");
    assert_eq!(backup_time(86400 + 3661), "1970-01-02 01:01:01");
}

#[test]
fn tool_locations() {
    assert_eq!(tools_dir("/data"), "/data/tools");
    assert_eq!(wpcli_phar("/data/"), "/data/tools/wp-cli.phar");
    assert_eq!(fpanel::delivery::mail_log_path(), "/var/log/mail.log");
}
