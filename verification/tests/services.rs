use fpanel::cron::{check_command, render_crontab, validate_schedule, CronJob};
use fpanel::databases::{
    actual_db, actual_user, check_db_password, check_grant_owner, check_revoke_owner, clean_privileges,
    create_database_sql, create_user_sql, drop_user_sql, grant_sql, quoted, require_account, valid_name,
};
use fpanel::email::{forward_targets, mail_provision, mailbox_quota};
use fpanel::redirects::{check_scope, check_target, insert_conflict, normalize_from_path};
use fpanel::ssh::{auth_type, belongs_to_account, ssh_entry_name, valid_username};

fn job(schedule: &str, command: &str, description: Option<&str>) -> CronJob {
    CronJob {
        id: 1,
        account_id: 1,
        domain_id: None,
        domain: None,
        schedule: schedule.to_string(),
        command: command.to_string(),
        description: description.map(|d| d.to_string()),
        status: "active".to_string(),
        last_run: None,
        created_at: String::new(),
    }
}

#[test]
fn cron_schedules() {
    assert!(validate_schedule("*/5 * * * *").is_ok());
    assert!(validate_schedule(" 0 3 1-15 * 1,3,5 ").is_ok());
    assert_eq!(
        validate_schedule("* * * *").unwrap_err().message,
        "Schedule must have 5 cron fields (minute hour day month weekday)"
    );
    assert_eq!(validate_schedule("*/0 * * * *").unwrap_err().message, "Invalid cron schedule field");
    assert_eq!(validate_schedule("a * * * *").unwrap_err().message, "Invalid cron schedule field");
    assert_eq!(check_command("   ").unwrap_err().message, "Command is required");
    assert!(check_command("php artisan schedule:run").is_ok());
}

#[test]
fn crontab_one_line_per_job() {
    let jobs = vec![job("* * * * *", "echo hi", None), job("0 0 * * *", "backup.sh", Some("nightly"))];
    assert_eq!(
        render_crontab("bob", &jobs),
        "# FPanel cron jobs for bob\n* * * * * echo hi \n0 0 * * * backup.sh  # nightly\n"
    );
}

#[test]
fn database_names_and_sql() {
    assert_eq!(valid_name("shop_db1", "database name").unwrap(), "shop_db1");
    assert_eq!(
        valid_name("bad-name", "database name").unwrap_err().message,
        "Invalid database name: use letters, numbers and underscores only (max 60)"
    );
    assert!(valid_name(&"a".repeat(61), "user").is_err());
    assert_eq!(actual_db("bob", "shop"), "bob_shop");
    assert_eq!(actual_user("bob", "app"), "bob_app");
    assert_eq!(check_db_password("12345").unwrap_err().message, "Password must be at least 6 characters");
    assert_eq!(require_account(None).unwrap_err().status, 400);
    assert_eq!(create_database_sql("bob_shop"), "CREATE DATABASE IF NOT EXISTS `bob_shop` CHARACTER SET utf8mb4 COLLATE utf8mb4_unicode_ci");
    assert_eq!(create_user_sql("bob_app", "it's"), "CREATE USER IF NOT EXISTS `bob_app`@'localhost' IDENTIFIED BY 'it''s'");
    assert_eq!(drop_user_sql("bob_app"), "DROP USER IF EXISTS `bob_app`@'localhost'");
    let q: String = quoted("a'b''c").into_iter().collect();
    assert_eq!(q, "a''b''''c");
}

#[test]
fn privileges_are_cleaned() {
    assert_eq!(clean_privileges(None).unwrap(), vec!["ALL PRIVILEGES".to_string()]);
    let p = clean_privileges(Some(vec![" select".to_string(), "INSERT".to_string(), "select".to_string(), "bogus".to_string()])).unwrap();
    assert_eq!(p, vec!["SELECT".to_string(), "INSERT".to_string()]);
    assert_eq!(clean_privileges(Some(vec!["select".to_string(), "all".to_string()])).unwrap(), vec!["ALL PRIVILEGES".to_string()]);
    assert_eq!(clean_privileges(Some(vec!["bogus".to_string()])).unwrap_err().message, "No valid privileges provided");
    assert_eq!(
        grant_sql(&vec!["SELECT".to_string(), "INSERT".to_string()], "bob_shop", "bob_app"),
        "GRANT SELECT, INSERT ON `bob_shop`.* TO `bob_app`@'localhost'"
    );
    assert_eq!(check_grant_owner(None, 1).unwrap_err().status, 404);
    assert_eq!(check_grant_owner(Some(2), 1).unwrap_err().status, 403);
    assert!(check_grant_owner(Some(1), 1).is_ok());
    assert_eq!(check_revoke_owner(None, 1).unwrap_err().message, "Grant not found");
}

#[test]
fn forwarder_targets() {
    assert_eq!(forward_targets(" a@x.com, ,b@y.com ,"), vec!["a@x.com".to_string(), "b@y.com".to_string()]);
    assert!(forward_targets("").is_empty());
    assert_eq!(mailbox_quota(None), 256);
    assert_eq!(mailbox_quota(Some(0)), 256);
    assert_eq!(mailbox_quota(Some(1024)), 1024);
    let p = mail_provision("d.com", vec![], &vec![("info@d.com".to_string(), "a@x.com, b@y.com".to_string())], vec![], None);
    assert_eq!(p.domain, "d.com");
    assert_eq!(p.forwarders.len(), 1);
    assert_eq!(p.forwarders[0].to, vec!["a@x.com".to_string(), "b@y.com".to_string()]);
}

#[test]
fn redirect_rules() {
    assert_eq!(normalize_from_path(None), "/");
    assert_eq!(normalize_from_path(Some("  ")), "/");
    assert_eq!(normalize_from_path(Some("old")), "/old");
    assert_eq!(normalize_from_path(Some(" /old ")), "/old");
    assert_eq!(normalize_from_path(Some(&normalize_from_path(Some("x")))), normalize_from_path(Some("x")));
    assert_eq!(check_scope(None, Some("/")).unwrap_err().message, "from_path must be specified when no domain is selected");
    assert!(check_scope(None, Some("/blog")).is_ok());
    assert!(check_scope(Some(3), None).is_ok());
    assert_eq!(check_target("  ").unwrap_err().message, "to_url is required");
    assert_eq!(check_target(" https://x.y ").unwrap(), "https://x.y");
    assert_eq!(insert_conflict("FOREIGN KEY constraint failed").unwrap().message, "Referenced domain does not exist");
    assert_eq!(insert_conflict("UNIQUE constraint failed").unwrap().status, 409);
    assert!(insert_conflict("disk I/O error").is_none());
}

#[test]
fn ssh_users() {
    assert_eq!(valid_username(" deploy ").unwrap(), "deploy");
    assert_eq!(valid_username("").unwrap_err().message, "username is required");
    assert_eq!(valid_username("a b").unwrap_err().message, "username may only contain letters, digits, '.', '_' and '-'");
    assert_eq!(auth_type(None).unwrap(), "key");
    assert_eq!(auth_type(Some("password")).unwrap(), "password");
    assert_eq!(auth_type(Some("otp")).unwrap_err().message, "auth_type must be 'key' or 'password'");
    assert_eq!(ssh_entry_name("bob", "deploy"), "bob_deploy");
    assert!(belongs_to_account("bob_deploy.json", "bob"));
    assert!(!belongs_to_account("bobby_x.json", "bob"));
}
