//! One-click applications (WordPress, Laravel, OJS): which installs are
//! accepted, the database and user created for one, the commands run, and
//! the configuration files rewritten for it.
use vstd::prelude::*;
use crate::databases::sql_quote;
use crate::error::{ApiError, is_error};
use crate::text::{
    all_ascii, ascii_lower, ascii_upper, chars_eq, chars_of, dec, dec_u64, dec_u128, extend_chars, extend_str, is_ascii_alnum, lines,
    lines_of, slice_vec, starts_with, string_of, to_lowercase, trim, trim_str, unicode_lower, utf8_len,
    utf8_len_at_least, vec_starts_with,
};

verus! {

/// A request to install an application.
pub struct InstallBody {
    pub domain_id: i64,
    pub app: String,
    pub site_title: Option<String>,
    pub admin_user: Option<String>,
    pub admin_password: Option<String>,
    pub admin_email: Option<String>,
}

// ================================================================ names

/// The characters kept in a database name: ASCII letters, digits and `_`.
pub open spec fn ident_chars(s: Seq<char>) -> Seq<char>
    decreases s.len(),
{
    if s.len() == 0 {
        Seq::empty()
    } else if is_ascii_alnum(s.last()) || s.last() == '_' {
        ident_chars(s.drop_last()).push(s.last())
    } else {
        ident_chars(s.drop_last())
    }
}

proof fn lemma_ident_ascii(s: Seq<char>)
    ensures
        all_ascii(ident_chars(s)),
    decreases s.len(),
{
    if s.len() > 0 {
        lemma_ident_ascii(s.drop_last());
        let r = ident_chars(s);
        assert forall|i: int| 0 <= i < r.len() implies (#[trigger] r[i] as u32) < 128 by {
            if i < ident_chars(s.drop_last()).len() {
            } else {
            }
        }
    }
}

/// A username reduced to what a database name may hold, lower-cased.
pub fn sanitize(s: &str) -> (r: String)
    ensures
        r@ == ascii_lower(ident_chars(s@)),
{
    let cs = chars_of(s);
    let mut kept: Vec<char> = Vec::new();
    let mut i: usize = 0;
    while i < cs.len()
        invariant
            i <= cs@.len(),
            cs@ == s@,
            kept@ == ident_chars(s@.take(i as int)),
        decreases cs.len() - i,
    {
        assert(s@.take(i + 1).drop_last() =~= s@.take(i as int));
        if crate::text::ascii_alnum(cs[i]) || cs[i] == '_' {
            kept.push(cs[i]);
        }
        i += 1;
    }
    assert(s@.take(cs.len() as int) =~= s@);
    proof {
        lemma_ident_ascii(s@);
    }
    to_lowercase(string_of(&kept).as_str())
}

/// The name from which an application's database and user are cut:
/// `fp_<user>_<app>`, with the first three characters of the application,
/// and a number after it from the second try on.
pub open spec fn ident_base(username: Seq<char>, app: Seq<char>, suffix: u32) -> Seq<char> {
    "fp_"@ + ascii_lower(ident_chars(username)) + seq!['_'] + app.take(if app.len() < 3 { app.len() as int } else { 3 })
        + (if suffix > 0 { dec(suffix as nat) } else { Seq::empty() })
}

/// The database name (at most 58 characters) and user name (at most 27)
/// of an application.  The application's name is ASCII, as the install
/// check ensures.
pub fn db_ident(username: &str, app: &str, suffix: u32) -> (r: (String, String))
    requires
        all_ascii(app@),
    ensures
        ({
            let base = ident_base(username@, app@, suffix);
            &&& r.0@ == base.take(if base.len() < 58 { base.len() as int } else { 58 })
            &&& r.1@ == base.take(if base.len() < 27 { base.len() as int } else { 27 })
        }),
{
    let tag = sanitize(username);
    let a = chars_of(app);
    let n: usize = if a.len() < 3 {
        a.len()
    } else {
        3
    };
    let mut base = chars_of("fp_");
    extend_str(&mut base, tag.as_str());
    base.push('_');
    extend_chars(&mut base, &slice_vec(&a, 0, n));
    if suffix > 0 {
        extend_chars(&mut base, &dec_u64(suffix as u64));
    }
    assert(base@ =~= ident_base(username@, app@, suffix));
    let d: usize = if base.len() < 58 {
        base.len()
    } else {
        58
    };
    let u: usize = if base.len() < 27 {
        base.len()
    } else {
        27
    };
    let db = slice_vec(&base, 0, d);
    let user = slice_vec(&base, 0, u);
    assert(db@ =~= base@.take(d as int));
    assert(user@ =~= base@.take(u as int));
    (string_of(&db), string_of(&user))
}

// ================================================================ checks

/// The applications that can be installed.
pub open spec fn known_app(a: Seq<char>) -> bool {
    a == "wordpress"@ || a == "laravel"@ || a == "ojs"@
}

/// The application asked for, trimmed and lower-cased, must be known (400 otherwise).
pub fn check_app(app: &str) -> (r: Result<String, ApiError>)
    ensures
        known_app(unicode_lower(trim(app@))) ==> (r matches Ok(a) && a@ == unicode_lower(trim(app@))),
        !known_app(unicode_lower(trim(app@))) ==> (r matches Err(e) && is_error(
            e,
            400,
            "Unknown application '"@ + unicode_lower(trim(app@)) + "'. Choose wordpress, laravel or ojs."@,
        )),
{
    let a = to_lowercase(string_of(&trim_str(app)).as_str());
    let c = chars_of(a.as_str());
    if chars_eq(&c, &chars_of("wordpress")) || chars_eq(&c, &chars_of("laravel")) || chars_eq(&c, &chars_of("ojs")) {
        Ok(a)
    } else {
        let mut m = chars_of("Unknown application '");
        extend_chars(&mut m, &c);
        extend_str(&mut m, "'. Choose wordpress, laravel or ojs.");
        Err(ApiError::from_chars(400, &m))
    }
}

/// A domain takes one application: none installed (409), and no runtime
/// application bound (409).
pub fn check_no_app(installed: i64, runtimes: i64) -> (r: Result<(), ApiError>)
    ensures
        installed > 0 ==> (r matches Err(e) && is_error(e, 409, "An application is already installed on this domain"@)),
        installed <= 0 && runtimes > 0 ==> (r matches Err(e) && is_error(
            e,
            409,
            "A runtime app is already bound to this domain"@,
        )),
        installed <= 0 && runtimes <= 0 ==> r is Ok,
{
    if installed > 0 {
        return Err(ApiError::new(409, "An application is already installed on this domain"));
    }
    if runtimes > 0 {
        return Err(ApiError::new(409, "A runtime app is already bound to this domain"));
    }
    Ok(())
}

/// The files a document root may already hold before an install.
pub open spec fn placeholder(name: Seq<char>) -> bool {
    name == "index.html"@ || name == "index.htm"@ || name == ".htaccess"@
}

/// Why a document root cannot take an install, if it cannot: it is a file;
/// or, in the order listed, it holds a file other than a placeholder, or a
/// directory.  `entries` are the names inside it with whether each is a file.
pub open spec fn htdocs_refusal(exists: bool, is_file: bool, entries: Seq<(String, bool)>) -> Option<Seq<char>> {
    if !exists {
        None
    } else if is_file {
        Some("The document root is a file, not a directory"@)
    } else {
        entries_refusal(entries)
    }
}

pub open spec fn entries_refusal(entries: Seq<(String, bool)>) -> Option<Seq<char>>
    decreases entries.len(),
{
    if entries.len() == 0 {
        None
    } else {
        let (name, file) = entries[0];
        if file && !placeholder(name@) {
            Some("The document root already contains files. Install requires an empty document root (found '"@ + name@
                + "')."@)
        } else if !file {
            Some("The document root already contains a directory '"@ + name@
                + "'. Install requires an empty document root."@)
        } else {
            entries_refusal(entries.drop_first())
        }
    }
}

/// Checks that the document root is empty enough to install into (409 otherwise).
pub fn htdocs_ready(exists: bool, is_file: bool, entries: &Vec<(String, bool)>) -> (r: Result<(), ApiError>)
    ensures
        match htdocs_refusal(exists, is_file, entries@) {
            None => r is Ok,
            Some(m) => r matches Err(e) && is_error(e, 409, m),
        },
{
    if !exists {
        return Ok(());
    }
    if is_file {
        return Err(ApiError::new(409, "The document root is a file, not a directory"));
    }
    let mut i: usize = 0;
    assert(entries@.skip(0) =~= entries@);
    while i < entries.len()
        invariant
            i <= entries@.len(),
            exists && !is_file,
            entries_refusal(entries@) == entries_refusal(entries@.skip(i as int)),
        decreases entries.len() - i,
    {
        let ghost rest = entries@.skip(i as int);
        assert(rest[0] == entries@[i as int]);
        assert(rest.drop_first() =~= entries@.skip(i + 1));
        let name = chars_of(entries[i].0.as_str());
        let file = entries[i].1;
        let ok_name = chars_eq(&name, &chars_of("index.html")) || chars_eq(&name, &chars_of("index.htm")) || chars_eq(
            &name,
            &chars_of(".htaccess"),
        );
        if file && !ok_name {
            let mut m = chars_of("The document root already contains files. Install requires an empty document root (found '");
            extend_chars(&mut m, &name);
            extend_str(&mut m, "').");
            return Err(ApiError::from_chars(409, &m));
        } else if !file {
            let mut m = chars_of("The document root already contains a directory '");
            extend_chars(&mut m, &name);
            extend_str(&mut m, "'. Install requires an empty document root.");
            return Err(ApiError::from_chars(409, &m));
        }
        i += 1;
    }
    Ok(())
}

// ================================================================ database

/// The statements that create an application's user on one host, set its
/// password and grant it its database.
pub fn app_user_sql(user: &str, host: &str, pass: &str, db: &str) -> (r: (String, String, String))
    ensures
        r.0@ == "CREATE USER IF NOT EXISTS `"@ + user@ + "`@'"@ + host@ + "' IDENTIFIED BY '"@ + sql_quote(pass@)
            + seq!['\''],
        r.1@ == "ALTER USER `"@ + user@ + "`@'"@ + host@ + "' IDENTIFIED BY '"@ + sql_quote(pass@) + seq!['\''],
        r.2@ == "GRANT ALL PRIVILEGES ON `"@ + db@ + "`.* TO `"@ + user@ + "`@'"@ + host@ + seq!['\''],
{
    let q = crate::databases::quoted(pass);
    let mut a = chars_of("CREATE USER IF NOT EXISTS `");
    extend_str(&mut a, user);
    extend_str(&mut a, "`@'");
    extend_str(&mut a, host);
    extend_str(&mut a, "' IDENTIFIED BY '");
    extend_chars(&mut a, &q);
    a.push('\'');
    let mut b = chars_of("ALTER USER `");
    extend_str(&mut b, user);
    extend_str(&mut b, "`@'");
    extend_str(&mut b, host);
    extend_str(&mut b, "' IDENTIFIED BY '");
    extend_chars(&mut b, &q);
    b.push('\'');
    let mut c = chars_of("GRANT ALL PRIVILEGES ON `");
    extend_str(&mut c, db);
    extend_str(&mut c, "`.* TO `");
    extend_str(&mut c, user);
    extend_str(&mut c, "`@'");
    extend_str(&mut c, host);
    c.push('\'');
    (string_of(&a), string_of(&b), string_of(&c))
}

// ================================================================ WordPress

/// Why a WordPress install is refused, if it is (400): the admin's user
/// (3 bytes at least), password (6 at least) and e-mail are required.
pub open spec fn wordpress_refusal(body: InstallBody) -> Option<Seq<char>> {
    match body.admin_user {
        None => Some("admin_user is required"@),
        Some(u) => if utf8_len(u@) < 3 {
            Some("admin_user must be at least 3 characters"@)
        } else {
            match body.admin_password {
                None => Some("admin_password is required"@),
                Some(p) => if utf8_len(p@) < 6 {
                    Some("admin_password must be at least 6 characters"@)
                } else if body.admin_email is None {
                    Some("admin_email is required"@)
                } else {
                    None
                },
            }
        },
    }
}

/// The three `wp-cli` stages of a WordPress install: download the core;
/// write the configuration for the database; install the site for the
/// domain (titled by the request, or the domain) with its admin.
pub open spec fn wordpress_stages(domain: Seq<char>, db: Seq<char>, user: Seq<char>, pass: Seq<char>, body: InstallBody) -> Seq<Seq<Seq<char>>> {
    let title = match body.site_title {
        Some(t) => t@,
        None => domain,
    };
    seq![
        seq!["core"@, "download"@, "--force"@],
        seq!["config"@, "create"@, "--dbname="@ + db, "--dbuser="@ + user, "--dbpass="@ + pass,
            "--dbhost=127.0.0.1:3306"@, "--force"@],
        seq!["core"@, "install"@, "--url=http://"@ + domain + seq!['/'], "--title="@ + title,
            "--admin_user="@ + body.admin_user.unwrap()@, "--admin_password="@ + body.admin_password.unwrap()@,
            "--admin_email="@ + body.admin_email.unwrap()@, "--skip-email"@],
    ]
}

pub open spec fn stage_views(v: Seq<Vec<String>>) -> Seq<Seq<Seq<char>>> {
    v.map_values(|s: Vec<String>| s@.map_values(|x: String| x@))
}

fn cat(a: &str, b: &str) -> (r: String)
    ensures
        r@ == a@ + b@,
{
    let mut v = chars_of(a);
    extend_str(&mut v, b);
    string_of(&v)
}

/// The stages of a WordPress install, or the reason it is refused.
pub fn wordpress_plan(domain: &str, db: &str, user: &str, pass: &str, body: &InstallBody) -> (r: Result<Vec<Vec<String>>, String>)
    ensures
        match wordpress_refusal(*body) {
            Some(m) => r matches Err(s) && s@ == m,
            None => r matches Ok(v) && stage_views(v@) == wordpress_stages(domain@, db@, user@, pass@, *body),
        },
{
    let admin_user = match &body.admin_user {
        None => {
            return Err("admin_user is required".to_string());
        },
        Some(u) => u,
    };
    if !utf8_len_at_least(&chars_of(admin_user.as_str()), 3) {
        return Err("admin_user must be at least 3 characters".to_string());
    }
    let admin_pass = match &body.admin_password {
        None => {
            return Err("admin_password is required".to_string());
        },
        Some(p) => p,
    };
    if !utf8_len_at_least(&chars_of(admin_pass.as_str()), 6) {
        return Err("admin_password must be at least 6 characters".to_string());
    }
    let admin_email = match &body.admin_email {
        None => {
            return Err("admin_email is required".to_string());
        },
        Some(e) => e,
    };
    let title = match &body.site_title {
        Some(t) => string_of(&chars_of(t.as_str())),
        None => domain.to_string(),
    };
    let mut s1: Vec<String> = Vec::new();
    s1.push("core".to_string());
    s1.push("download".to_string());
    s1.push("--force".to_string());
    let mut s2: Vec<String> = Vec::new();
    s2.push("config".to_string());
    s2.push("create".to_string());
    s2.push(cat("--dbname=", db));
    s2.push(cat("--dbuser=", user));
    s2.push(cat("--dbpass=", pass));
    s2.push("--dbhost=127.0.0.1:3306".to_string());
    s2.push("--force".to_string());
    let mut url = chars_of("--url=http://");
    extend_str(&mut url, domain);
    url.push('/');
    assert(url@ =~= "--url=http://"@ + domain@ + seq!['/']);
    let mut s3: Vec<String> = Vec::new();
    s3.push("core".to_string());
    s3.push("install".to_string());
    s3.push(string_of(&url));
    s3.push(cat("--title=", title.as_str()));
    s3.push(cat("--admin_user=", admin_user.as_str()));
    s3.push(cat("--admin_password=", admin_pass.as_str()));
    s3.push(cat("--admin_email=", admin_email.as_str()));
    s3.push("--skip-email".to_string());
    let ghost want = wordpress_stages(domain@, db@, user@, pass@, *body);
    assert(s1@.map_values(|x: String| x@) =~= want[0]);
    assert(s2@.map_values(|x: String| x@) =~= want[1]);
    assert(s3@.map_values(|x: String| x@) =~= want[2]);
    let mut stages: Vec<Vec<String>> = Vec::new();
    stages.push(s1);
    stages.push(s2);
    stages.push(s3);
    assert(stage_views(stages@) =~= want);
    Ok(stages)
}

// ================================================================ configuration files

/// One line of Laravel's `.env`, with the site's address and database set.
pub open spec fn env_line(l: Seq<char>, domain: Seq<char>, db: Seq<char>, user: Seq<char>, pass: Seq<char>) -> Seq<char> {
    if starts_with(l, "APP_URL="@) {
        "APP_URL=http://"@ + domain + seq!['/']
    } else if starts_with(l, "DB_CONNECTION="@) {
        "DB_CONNECTION=mysql"@
    } else if starts_with(l, "DB_HOST="@) {
        "DB_HOST=127.0.0.1"@
    } else if starts_with(l, "DB_PORT="@) {
        "DB_PORT=3306"@
    } else if starts_with(l, "DB_DATABASE="@) {
        "DB_DATABASE="@ + db
    } else if starts_with(l, "DB_USERNAME="@) {
        "DB_USERNAME="@ + user
    } else if starts_with(l, "DB_PASSWORD="@) {
        "DB_PASSWORD="@ + pass
    } else {
        l
    }
}

/// One line of OJS's `config.inc.php`, with the database set.
pub open spec fn ojs_line(l: Seq<char>, db: Seq<char>, user: Seq<char>, pass: Seq<char>) -> Seq<char> {
    if starts_with(l, "driver ="@) {
        "driver = mysqli"@
    } else if starts_with(l, "host ="@) {
        "host = 127.0.0.1"@
    } else if starts_with(l, "username ="@) {
        "username = "@ + user
    } else if starts_with(l, "password ="@) {
        "password = "@ + pass
    } else if starts_with(l, "name ="@) {
        "name = "@ + db
    } else {
        l
    }
}

/// Each line rewritten by `f`, each followed by a newline.
pub open spec fn rewritten(ls: Seq<Seq<char>>, f: spec_fn(Seq<char>) -> Seq<char>) -> Seq<char>
    decreases ls.len(),
{
    if ls.len() == 0 {
        Seq::empty()
    } else {
        rewritten(ls.drop_last(), f) + f(ls.last()) + seq!['\n']
    }
}

fn pref(l: &Vec<char>, p: &str) -> (b: bool)
    ensures
        b == starts_with(l@, p@),
{
    vec_starts_with(l, &chars_of(p))
}

/// Laravel's `.env` with the site's address and the database filled in.
pub fn rewrite_env(text: &str, domain: &str, db: &str, user: &str, pass: &str) -> (r: String)
    ensures
        r@ == rewritten(lines(text@), |l: Seq<char>| env_line(l, domain@, db@, user@, pass@)),
{
    let ghost f = |l: Seq<char>| env_line(l, domain@, db@, user@, pass@);
    let ls = lines_of(&chars_of(text));
    let ghost all = lines(text@);
    let mut out: Vec<char> = Vec::new();
    let mut i: usize = 0;
    while i < ls.len()
        invariant
            i <= ls@.len() == all.len(),
            f == (|l: Seq<char>| env_line(l, domain@, db@, user@, pass@)),
            forall|k: int| 0 <= k < ls@.len() ==> (#[trigger] ls@[k])@ == all[k],
            out@ == rewritten(all.take(i as int), f),
        decreases ls.len() - i,
    {
        assert(all.take(i + 1).drop_last() =~= all.take(i as int));
        let l = &ls[i];
        let ghost before = out@;
        if pref(l, "APP_URL=") {
            extend_str(&mut out, "APP_URL=http://");
            extend_str(&mut out, domain);
            out.push('/');
        } else if pref(l, "DB_CONNECTION=") {
            extend_str(&mut out, "DB_CONNECTION=mysql");
        } else if pref(l, "DB_HOST=") {
            extend_str(&mut out, "DB_HOST=127.0.0.1");
        } else if pref(l, "DB_PORT=") {
            extend_str(&mut out, "DB_PORT=3306");
        } else if pref(l, "DB_DATABASE=") {
            extend_str(&mut out, "DB_DATABASE=");
            extend_str(&mut out, db);
        } else if pref(l, "DB_USERNAME=") {
            extend_str(&mut out, "DB_USERNAME=");
            extend_str(&mut out, user);
        } else if pref(l, "DB_PASSWORD=") {
            extend_str(&mut out, "DB_PASSWORD=");
            extend_str(&mut out, pass);
        } else {
            extend_chars(&mut out, l);
        }
        out.push('\n');
        assert(out@ =~= before + f(all[i as int]) + seq!['\n']);
        i += 1;
    }
    assert(all.take(ls.len() as int) =~= all);
    string_of(&out)
}

/// OJS's `config.inc.php` with the database filled in.
pub fn rewrite_ojs_config(text: &str, db: &str, user: &str, pass: &str) -> (r: String)
    ensures
        r@ == rewritten(lines(text@), |l: Seq<char>| ojs_line(l, db@, user@, pass@)),
{
    let ghost f = |l: Seq<char>| ojs_line(l, db@, user@, pass@);
    let ls = lines_of(&chars_of(text));
    let ghost all = lines(text@);
    let mut out: Vec<char> = Vec::new();
    let mut i: usize = 0;
    while i < ls.len()
        invariant
            i <= ls@.len() == all.len(),
            f == (|l: Seq<char>| ojs_line(l, db@, user@, pass@)),
            forall|k: int| 0 <= k < ls@.len() ==> (#[trigger] ls@[k])@ == all[k],
            out@ == rewritten(all.take(i as int), f),
        decreases ls.len() - i,
    {
        assert(all.take(i + 1).drop_last() =~= all.take(i as int));
        let l = &ls[i];
        let ghost before = out@;
        if pref(l, "driver =") {
            extend_str(&mut out, "driver = mysqli");
        } else if pref(l, "host =") {
            extend_str(&mut out, "host = 127.0.0.1");
        } else if pref(l, "username =") {
            extend_str(&mut out, "username = ");
            extend_str(&mut out, user);
        } else if pref(l, "password =") {
            extend_str(&mut out, "password = ");
            extend_str(&mut out, pass);
        } else if pref(l, "name =") {
            extend_str(&mut out, "name = ");
            extend_str(&mut out, db);
        } else {
            extend_chars(&mut out, l);
        }
        out.push('\n');
        assert(out@ =~= before + f(all[i as int]) + seq!['\n']);
        i += 1;
    }
    assert(all.take(ls.len() as int) =~= all);
    string_of(&out)
}

// ================================================================ generated passwords

/// The ASCII letters and digits of `s`, in order.
pub open spec fn alnum_only(s: Seq<char>) -> Seq<char>
    decreases s.len(),
{
    if s.len() == 0 {
        Seq::empty()
    } else if is_ascii_alnum(s.last()) {
        alnum_only(s.drop_last()).push(s.last())
    } else {
        alnum_only(s.drop_last())
    }
}

/// A password made from `raw`: its first 18 ASCII letters and digits,
/// upper-cased.
pub open spec fn password_from(raw: Seq<char>) -> Seq<char> {
    let a = alnum_only(raw);
    ascii_upper(if a.len() > 18 { a.take(18) } else { a })
}

pub fn password_of(raw: &str) -> (r: String)
    ensures
        r@ == password_from(raw@),
{
    let c = chars_of(raw);
    let mut kept: Vec<char> = Vec::new();
    let mut i: usize = 0;
    while i < c.len()
        invariant
            i <= c@.len(),
            c@ == raw@,
            kept@ == alnum_only(c@.take(i as int)),
        decreases c.len() - i,
    {
        assert(c@.take(i + 1).drop_last() =~= c@.take(i as int));
        if crate::text::ascii_alnum(c[i]) {
            kept.push(c[i]);
        }
        i += 1;
    }
    assert(c@.take(c@.len() as int) =~= c@);
    let n: usize = if kept.len() > 18 { 18 } else { kept.len() };
    let first = slice_vec(&kept, 0, n);
    assert(first@ =~= (if kept@.len() > 18 { kept@.take(18) } else { kept@ }));
    string_of(&crate::text::upper_ascii(&first))
}

proof fn lemma_alnum_only_concat(a: Seq<char>, b: Seq<char>)
    ensures
        alnum_only(a + b) == alnum_only(a) + alnum_only(b),
    decreases b.len(),
{
    if b.len() == 0 {
        assert(a + b =~= a);
        assert(alnum_only(a) + alnum_only(b) =~= alnum_only(a));
    } else {
        lemma_alnum_only_concat(a, b.drop_last());
        assert((a + b).drop_last() =~= a + b.drop_last());
        assert((a + b).last() == b.last());
        if is_ascii_alnum(b.last()) {
            assert(alnum_only(a) + alnum_only(b) =~= (alnum_only(a) + alnum_only(b.drop_last())).push(b.last()));
        }
    }
}

proof fn lemma_alnum_only_keeps(s: Seq<char>)
    requires
        forall|i: int| 0 <= i < s.len() ==> is_ascii_alnum(#[trigger] s[i]),
    ensures
        alnum_only(s) == s,
    decreases s.len(),
{
    if s.len() > 0 {
        lemma_alnum_only_keeps(s.drop_last());
        assert(is_ascii_alnum(s[s.len() - 1]));
        assert(s.drop_last().push(s.last()) =~= s);
    }
}

/// A lower-case hexadecimal digit.
pub open spec fn is_lower_hex(c: char) -> bool {
    ('0' <= c && c <= '9') || ('a' <= c && c <= 'f')
}

/// Sixteen bytes from OpenSSL's random generator (`rand::rand_bytes`, which
/// reports a failure of the generator as an error) made into a version-4
/// UUID (`uuid::Builder::from_random_bytes`) and written by `simple()` as 32
/// lower-case hexadecimal digits without hyphens.  None where the generator
/// fails.  The value is random, so only its form is claimed.
#[verifier::external_body]
fn random_hex() -> (r: Option<String>)
    ensures
        r matches Some(h) ==> h@.len() == 32 && forall|i: int| 0 <= i < h@.len() ==> is_lower_hex(#[trigger] h@[i]),
{
    let mut bytes = [0u8; 16];
    openssl::rand::rand_bytes(&mut bytes).ok()?;
    Some(uuid::Builder::from_random_bytes(bytes).into_uuid().simple().to_string())
}

/// Nanoseconds since the Unix epoch, zero when the clock is earlier.  The
/// value depends on the clock, so nothing is claimed of it.
#[verifier::external_body]
fn unix_nanos() -> (r: u128) {
    std::time::SystemTime::now().duration_since(std::time::UNIX_EPOCH).unwrap_or_default().as_nanos()
}

/// A fresh database password: `password_from` over the current time in
/// nanoseconds followed by a random UUID's digits, so always 18
/// upper-case letters and digits; none where the random generator fails.
pub fn generate_password() -> (r: Option<String>)
    ensures
        r matches Some(p) ==> (exists|n: nat, h: Seq<char>|
            #![trigger password_from(dec(n).add(h))]
            h.len() == 32 && (forall|i: int| 0 <= i < h.len() ==> is_lower_hex(#[trigger] h[i])) && p@
                == password_from(dec(n).add(h))) && p@.len() == 18,
{
    let t = unix_nanos();
    let h = match random_hex() {
        Some(h) => h,
        None => return None,
    };
    let mut raw = dec_u128(t);
    extend_str(&mut raw, h.as_str());
    let s = string_of(&raw);
    let r = password_of(s.as_str());
    proof {
        assert forall|i: int| 0 <= i < h@.len() implies is_ascii_alnum(#[trigger] h@[i]) by {
            assert(is_lower_hex(h@[i]));
        }
        lemma_alnum_only_keeps(h@);
        lemma_alnum_only_concat(dec(t as nat), h@);
        assert(alnum_only(s@).len() >= 32);
        assert(s@ == dec(t as nat).add(h@));
    }
    Some(r)
}

// ================================================================ tools

/// Which installers can run on this server.
pub struct ToolsInfo {
    pub wpcli: bool,
    pub composer: bool,
    pub php: bool,
    pub php_version: String,
    pub ojs: bool,
}

/// The tools an install needs: WP-CLI when its archive is there or `curl`
/// can fetch it; Composer when present; PHP and OJS always (OJS is
/// downloaded on demand); the PHP version as `php` reports it, trimmed.
pub fn tools_info(wpcli_present: bool, curl_present: bool, composer_present: bool, php_version: &str) -> (t: ToolsInfo)
    ensures
        t.wpcli == (wpcli_present || curl_present),
        t.composer == composer_present,
        t.php && t.ojs,
        t.php_version@ == trim(php_version@),
{
    ToolsInfo {
        wpcli: wpcli_present || curl_present,
        composer: composer_present,
        php: true,
        php_version: string_of(&trim_str(php_version)),
        ojs: true,
    }
}

// ================================================================ Laravel and OJS

fn push_arg(v: &mut Vec<String>, s: &str)
    ensures
        final(v)@.map_values(|a: String| a@) == old(v)@.map_values(|a: String| a@).push(s@),
{
    let ghost before = v@.map_values(|a: String| a@);
    v.push(s.to_string());
    assert(v@.map_values(|a: String| a@) =~= before.push(s@));
}

pub open spec fn command_views(v: Seq<(String, Vec<String>)>) -> Seq<(Seq<char>, Seq<Seq<char>>)> {
    v.map_values(|c: (String, Vec<String>)| (c.0@, c.1@.map_values(|a: String| a@)))
}

/// The commands of a Laravel install, in the document root: create the
/// project; then, once `.env` is rewritten, generate the key and migrate;
/// the version is read last.  Refused when Composer is missing.
pub open spec fn laravel_commands() -> Seq<(Seq<char>, Seq<Seq<char>>)> {
    seq![
        ("composer"@, seq!["create-project"@, "laravel/laravel"@, "."@, "--no-interaction"@, "--no-progress"@]),
        ("php"@, seq!["artisan"@, "key:generate"@]),
        ("php"@, seq!["artisan"@, "migrate"@, "--force"@]),
        ("php"@, seq!["artisan"@, "--version"@]),
    ]
}

pub fn laravel_plan(composer_present: bool) -> (r: Result<Vec<(String, Vec<String>)>, String>)
    ensures
        !composer_present ==> (r matches Err(m) && m@ == "composer is not installed on this server"@),
        composer_present ==> (r matches Ok(v) && command_views(v@) == laravel_commands()),
{
    if !composer_present {
        return Err("composer is not installed on this server".to_string());
    }
    let mut a: Vec<String> = Vec::new();
    push_arg(&mut a, "create-project");
    push_arg(&mut a, "laravel/laravel");
    push_arg(&mut a, ".");
    push_arg(&mut a, "--no-interaction");
    push_arg(&mut a, "--no-progress");
    let mut b: Vec<String> = Vec::new();
    push_arg(&mut b, "artisan");
    push_arg(&mut b, "key:generate");
    let mut c: Vec<String> = Vec::new();
    push_arg(&mut c, "artisan");
    push_arg(&mut c, "migrate");
    push_arg(&mut c, "--force");
    let mut d: Vec<String> = Vec::new();
    push_arg(&mut d, "artisan");
    push_arg(&mut d, "--version");
    let ghost want = laravel_commands();
    assert(a@.map_values(|x: String| x@) =~= want[0].1);
    assert(b@.map_values(|x: String| x@) =~= want[1].1);
    assert(c@.map_values(|x: String| x@) =~= want[2].1);
    assert(d@.map_values(|x: String| x@) =~= want[3].1);
    let mut v: Vec<(String, Vec<String>)> = Vec::new();
    v.push(("composer".to_string(), a));
    v.push(("php".to_string(), b));
    v.push(("php".to_string(), c));
    v.push(("php".to_string(), d));
    assert(command_views(v@) =~= laravel_commands());
    Ok(v)
}

/// The OJS release installed, and where its archive is fetched from.
pub const OJS_VERSION: &'static str = "3.4.0-5";
pub const OJS_TARBALL: &'static str = "https://pkp.sfu.ca/ojs/download/ojs-3.4.0-5.tar.gz";

/// The cached archive's file name in the tools directory.
pub fn ojs_archive_name() -> (r: String)
    ensures
        r@ == "ojs-"@ + OJS_VERSION@ + ".tar.gz"@,
{
    let mut v = chars_of("ojs-");
    extend_str(&mut v, OJS_VERSION);
    extend_str(&mut v, ".tar.gz");
    string_of(&v)
}

/// A downloaded archive is kept only when `curl` succeeded and the file
/// exists with more than 1000 bytes.
pub fn archive_usable(curl_ok: bool, size: Option<u64>) -> (b: bool)
    ensures
        b == (curl_ok && (size matches Some(n) && n > 1000)),
{
    curl_ok && match size {
        Some(n) => n > 1000,
        None => false,
    }
}

} // verus!
