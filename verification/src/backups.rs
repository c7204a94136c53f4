//! Backups of an account's document root: the file name a backup gets,
//! the account a file name belongs to, and which names may be touched.
use vstd::prelude::*;
use crate::error::{ApiError, is_error};
use crate::cache::{lossy_text, utf8_lossy};
use crate::text::{
    chars_of, contains_char, contains_seq, contains_vec, ends_with, extend_chars, extend_str,
    last_index_of, lemma_last_index_of, rfind_char, slice_vec, string_of, trim, trim_chars, trim_str,
    vec_ends_with,
};

verus! {

/// A backup file as listed.
pub struct BackupInfo {
    pub file: String,
    pub username: String,
    pub size: i64,
    pub created_at: String,
}

/// A request to back up one account.
pub struct CreateBackup {
    pub account_id: i64,
}

/// The account a backup file belongs to: the name before the last `-` of
/// the file name without its `.zip`, when that is not empty.
pub open spec fn account_from_file_spec(file: Seq<char>) -> Option<Seq<char>> {
    if !ends_with(file, ".zip"@) {
        None
    } else {
        let stem = file.subrange(0, file.len() - 4);
        let k = last_index_of(stem, '-');
        if k <= 0 {
            None
        } else {
            Some(stem.subrange(0, k))
        }
    }
}

pub fn account_from_file(file: &str) -> (r: Option<String>)
    ensures
        match r {
            Some(u) => account_from_file_spec(file@) == Some(u@),
            None => account_from_file_spec(file@) is None,
        },
{
    let f = chars_of(file);
    proof {
        reveal_strlit(".zip");
    }
    if !vec_ends_with(&f, &chars_of(".zip")) {
        return None;
    }
    let stem = slice_vec(&f, 0, f.len() - 4);
    proof {
        lemma_last_index_of(stem@, '-');
    }
    match rfind_char(&stem, '-') {
        None => None,
        Some(k) => {
            if k == 0 {
                None
            } else {
                Some(string_of(&slice_vec(&stem, 0, k)))
            }
        },
    }
}

/// The name of a backup of `username` taken at `stamp`.
pub open spec fn backup_name_spec(username: Seq<char>, stamp: Seq<char>) -> Seq<char> {
    username + seq!['-'] + stamp + ".zip"@
}

pub fn backup_name(username: &str, stamp: &str) -> (r: String)
    ensures
        r@ == backup_name_spec(username@, stamp@),
{
    let mut v = chars_of(username);
    v.push('-');
    extend_str(&mut v, stamp);
    extend_str(&mut v, ".zip");
    string_of(&v)
}

/// The separator a `%Y-%m-%d %H:%M:%S` text has at position `i`, if any.
pub open spec fn separator_at(i: int) -> Option<char> {
    if i == 4 || i == 7 {
        Some('-')
    } else if i == 10 {
        Some(' ')
    } else if i == 13 || i == 16 {
        Some(':')
    } else {
        None
    }
}

pub open spec fn is_ascii_digit(c: char) -> bool {
    '0' <= c && c <= '9'
}

/// A date and time written `YYYY-MM-DD HH:MM:SS`.
pub open spec fn datetime_form(t: Seq<char>) -> bool {
    t.len() == 19 && forall|i: int|
        0 <= i < 19 ==> match separator_at(i) {
            Some(c) => #[trigger] t[i] == c,
            None => is_ascii_digit(t[i]),
        }
}

/// The position in a `YYYY-MM-DD HH:MM:SS` text of the `k`-th digit.
pub open spec fn digit_pos(k: int) -> int {
    if k < 4 {
        k
    } else if k < 6 {
        k + 1
    } else if k < 8 {
        k + 2
    } else if k < 10 {
        k + 3
    } else if k < 12 {
        k + 4
    } else {
        k + 5
    }
}

/// The 14 digits of a `YYYY-MM-DD HH:MM:SS` text, `YYYYMMDDHHMMSS`.
pub open spec fn stamp_from(t: Seq<char>) -> Seq<char> {
    Seq::new(14, |k: int| t[digit_pos(k)])
}

/// A backup stamp: 14 ASCII digits.
pub open spec fn is_stamp(s: Seq<char>) -> bool {
    s.len() == 14 && forall|k: int| 0 <= k < 14 ==> is_ascii_digit(#[trigger] s[k])
}

/// The stamp of a date and time text, where it has the expected form.
pub fn stamp_of(text: &str) -> (r: Option<String>)
    ensures
        match r {
            Some(s) => datetime_form(text@) && s@ == stamp_from(text@),
            None => !datetime_form(text@),
        },
{
    let c = chars_of(text);
    if c.len() != 19 {
        return None;
    }
    let mut i: usize = 0;
    while i < 19
        invariant
            c@ == text@,
            c@.len() == 19,
            i <= 19,
            forall|j: int|
                0 <= j < i ==> match separator_at(j) {
                    Some(x) => #[trigger] c@[j] == x,
                    None => is_ascii_digit(c@[j]),
                },
        decreases 19 - i,
    {
        let ch = c[i];
        let ok = if i == 4 || i == 7 {
            ch == '-'
        } else if i == 10 {
            ch == ' '
        } else if i == 13 || i == 16 {
            ch == ':'
        } else {
            '0' <= ch && ch <= '9'
        };
        if !ok {
            assert(!(match separator_at(i as int) {
                Some(x) => c@[i as int] == x,
                None => is_ascii_digit(c@[i as int]),
            }));
            return None;
        }
        i += 1;
    }
    let mut out: Vec<char> = Vec::new();
    let mut k: usize = 0;
    while k < 14
        invariant
            c@ == text@,
            c@.len() == 19,
            k <= 14,
            out@.len() == k,
            forall|j: int| 0 <= j < k ==> #[trigger] out@[j] == c@[digit_pos(j)],
        decreases 14 - k,
    {
        let p: usize = if k < 4 {
            k
        } else if k < 6 {
            k + 1
        } else if k < 8 {
            k + 2
        } else if k < 10 {
            k + 3
        } else if k < 12 {
            k + 4
        } else {
            k + 5
        };
        out.push(c[p]);
        k += 1;
    }
    assert(out@ =~= stamp_from(text@));
    Some(string_of(&out))
}

/// A stamp taken from a date and time text is 14 digits, without `-`.
pub proof fn lemma_stamp_digits(t: Seq<char>)
    requires
        datetime_form(t),
    ensures
        is_stamp(stamp_from(t)),
        !stamp_from(t).contains('-'),
{
    let s = stamp_from(t);
    assert forall|k: int| 0 <= k < 14 implies is_ascii_digit(#[trigger] s[k]) by {
        let p = digit_pos(k);
        assert(0 <= p < 19 && separator_at(p) is None);
        assert(match separator_at(p) {
            Some(c) => t[p] == c,
            None => is_ascii_digit(t[p]),
        });
    }
    if s.contains('-') {
        let k = choose|k: int| 0 <= k < s.len() && s[k] == '-';
        assert(is_ascii_digit(s[k]));
    }
}

/// The name of a backup of `username` taken at the time whose chrono text
/// is `text`: none where there is no text or it is not `YYYY-MM-DD HH:MM:SS`.
pub open spec fn backup_name_at(username: Seq<char>, text: Option<Seq<char>>) -> Option<Seq<char>> {
    match text {
        Some(t) => if datetime_form(t) {
            Some(backup_name_spec(username, stamp_from(t)))
        } else {
            None
        },
        None => None,
    }
}

pub open spec fn opt_text(o: Option<String>) -> Option<Seq<char>> {
    match o {
        Some(s) => Some(s@),
        None => None,
    }
}

/// The name of a new backup of `username`, stamped with the current time
/// in UTC (`YYYYMMDDHHMMSS`, read from the system clock in whole seconds and
/// written by chrono): the name for the clock's reading, none where chrono
/// cannot write that time as `YYYY-MM-DD HH:MM:SS`.
pub fn new_backup_name(username: &str) -> (r: Option<String>)
    ensures
        exists|secs: i64| secs >= 0 && opt_text(r) == #[trigger] backup_name_at(username@, utc_datetime_text(secs as int)),
        r matches Some(n) ==> exists|stamp: Seq<char>| is_stamp(stamp) && !stamp.contains('-') && n@ == #[trigger] backup_name_spec(username@, stamp),
{
    let now = crate::totp::unix_now_secs();
    let secs: i64 = if now > 9223372036854775807u64 {
        9223372036854775807i64
    } else {
        now as i64
    };
    let r = match utc_datetime(secs) {
        Some(t) => match stamp_of(t.as_str()) {
            Some(stamp) => {
                let n = backup_name(username, stamp.as_str());
                proof {
                    lemma_stamp_digits(t@);
                    assert(n@ == backup_name_spec(username@, stamp_from(t@)));
                }
                Some(n)
            },
            None => None,
        },
        None => None,
    };
    assert(opt_text(r) == backup_name_at(username@, utc_datetime_text(secs as int)));
    r
}

/// The file name of a backup leads back to its account, whenever the
/// account's name is not empty and the stamp has no `-` (the digits of a
/// date never do); the name itself may hold `-`.
pub proof fn law_backup_name_round_trip(username: Seq<char>, stamp: Seq<char>)
    requires
        username.len() > 0,
        !stamp.contains('-'),
    ensures
        account_from_file_spec(backup_name_spec(username, stamp)) == Some(username),
{
    reveal_strlit(".zip");
    let file = backup_name_spec(username, stamp);
    let stem = username + seq!['-'] + stamp;
    assert(file =~= stem + ".zip"@);
    assert(file.subrange(file.len() - 4, file.len() as int) =~= ".zip"@);
    assert(file.subrange(0, file.len() - 4) =~= stem);
    let u = username.len() as int;
    assert(stem[u] == '-');
    lemma_last_index_of(stem, '-');
    let k = last_index_of(stem, '-');
    assert(stem.contains('-'));
    if k < u {
        assert(false);
    }
    if k > u {
        assert(stem[k] == stamp[k - u - 1]);
        assert(stamp.contains('-'));
    }
    assert(k == u);
    assert(stem.subrange(0, k) =~= username);
}

/// A backup file name that may be used: trimmed, not empty, with no `/`,
/// `\` or `..`, ending in `.zip`.
pub open spec fn safe_file_name_spec(n: Seq<char>) -> bool {
    &&& n.len() > 0
    &&& !n.contains('/')
    &&& !n.contains('\\')
    &&& !contains_seq(n, ".."@)
    &&& ends_with(n, ".zip"@)
}

pub fn safe_file_name(name: &str) -> (r: Result<String, ApiError>)
    ensures
        safe_file_name_spec(trim(name@)) ==> (r matches Ok(n) && n@ == trim(name@)),
        !safe_file_name_spec(trim(name@)) ==> (r matches Err(e) && is_error(e, 400, "Invalid backup file name"@)),
{
    let n = trim_str(name);
    if n.len() == 0 || contains_char(&n, '/') || contains_char(&n, '\\') || contains_vec(&n, &chars_of(".."))
        || !vec_ends_with(&n, &chars_of(".zip")) {
        return Err(ApiError::new(400, "Invalid backup file name"));
    }
    Ok(string_of(&n))
}

/// The account a usable backup file name belongs to (400 when it has none).
pub fn backup_owner(file: &str) -> (r: Result<String, ApiError>)
    ensures
        match account_from_file_spec(file@) {
            Some(u) => r matches Ok(x) && x@ == u,
            None => r matches Err(e) && is_error(e, 400, "Invalid backup file name"@),
        },
{
    match account_from_file(file) {
        Some(u) => Ok(u),
        None => Err(ApiError::new(400, "Invalid backup file name")),
    }
}

/// An admin may touch a backup only while its account exists (403).
pub fn check_owner_exists(accounts_named: i64) -> (r: Result<(), ApiError>)
    ensures
        accounts_named > 0 ==> r is Ok,
        accounts_named <= 0 ==> (r matches Err(e) && is_error(e, 403, "Backup does not belong to any account"@)),
{
    if accounts_named > 0 {
        Ok(())
    } else {
        Err(ApiError::new(403, "Backup does not belong to any account"))
    }
}

/// A client may touch only its own backups (403).
pub fn check_own_backup(owner: &str, username: &str) -> (r: Result<(), ApiError>)
    ensures
        owner@ == username@ ==> r is Ok,
        owner@ != username@ ==> (r matches Err(e) && is_error(e, 403, "Not your backup"@)),
{
    if crate::text::str_eq(owner, username) {
        Ok(())
    } else {
        Err(ApiError::new(403, "Not your backup"))
    }
}

/// The answer to a failed `zip` or `unzip`: 500 with the tool's error
/// output, read as UTF-8 with replacement and trimmed, after `prefix`.
pub fn tool_failure(prefix: &str, stderr: &[u8]) -> (e: ApiError)
    ensures
        is_error(e, 500, prefix@ + trim(lossy_text(stderr@))),
{
    let text = utf8_lossy(stderr);
    let mut m = chars_of(prefix);
    let t = trim_str(text.as_str());
    extend_chars(&mut m, &t);
    ApiError::from_chars(500, &m)
}

/// The message of a finished restore.
pub fn restored_message(file: &str) -> (r: String)
    ensures
        r@ == "Restored "@ + file@,
{
    let mut v = chars_of("Restored ");
    extend_str(&mut v, file);
    string_of(&v)
}

/// The `Content-Disposition` of a backup download.
pub fn download_disposition(file: &str) -> (r: String)
    ensures
        r@ == "attachment; filename=\""@ + file@ + seq!['"'],
{
    let mut v = chars_of("attachment; filename=\"");
    extend_str(&mut v, file);
    v.push('"');
    string_of(&v)
}

// ================================================================ listing

/// `a` sorts before `b` as `str` compares them: by code points, a proper
/// prefix first.  (UTF-8 keeps the order of code points, so this is the
/// byte order `String` uses.)
pub open spec fn text_lt(a: Seq<char>, b: Seq<char>) -> bool
    decreases a.len(),
{
    if a.len() == 0 {
        b.len() > 0
    } else if b.len() == 0 {
        false
    } else if a[0] != b[0] {
        a[0] < b[0]
    } else {
        text_lt(a.drop_first(), b.drop_first())
    }
}

proof fn lemma_text_lt_asym(a: Seq<char>, b: Seq<char>)
    ensures
        !(text_lt(a, b) && text_lt(b, a)),
    decreases a.len(),
{
    if a.len() > 0 && b.len() > 0 && a[0] == b[0] {
        lemma_text_lt_asym(a.drop_first(), b.drop_first());
    }
}

proof fn lemma_text_lt_total(a: Seq<char>, b: Seq<char>)
    ensures
        text_lt(a, b) || text_lt(b, a) || a == b,
    decreases a.len(),
{
    if a.len() == 0 && b.len() == 0 {
        assert(a =~= b);
    } else if a.len() > 0 && b.len() > 0 && a[0] == b[0] {
        lemma_text_lt_total(a.drop_first(), b.drop_first());
        if a.drop_first() == b.drop_first() {
            assert(a =~= seq![a[0]] + a.drop_first());
            assert(b =~= seq![b[0]] + b.drop_first());
        }
    }
}

proof fn lemma_text_lt_trans(a: Seq<char>, b: Seq<char>, c: Seq<char>)
    requires
        text_lt(a, b),
        text_lt(b, c),
    ensures
        text_lt(a, c),
    decreases a.len(),
{
    if a.len() > 0 && b.len() > 0 && c.len() > 0 && a[0] == b[0] && b[0] == c[0] {
        lemma_text_lt_trans(a.drop_first(), b.drop_first(), c.drop_first());
    }
}

fn text_less(a: &Vec<char>, b: &Vec<char>) -> (r: bool)
    ensures
        r == text_lt(a@, b@),
{
    let mut i: usize = 0;
    assert(a@.skip(0) =~= a@);
    assert(b@.skip(0) =~= b@);
    while i < a.len() && i < b.len() && a[i] == b[i]
        invariant
            i <= a@.len() && i <= b@.len(),
            text_lt(a@, b@) == text_lt(a@.skip(i as int), b@.skip(i as int)),
        decreases a.len() - i,
    {
        assert(a@.skip(i as int).drop_first() =~= a@.skip(i + 1));
        assert(b@.skip(i as int).drop_first() =~= b@.skip(i + 1));
        i += 1;
    }
    if i == a.len() {
        i < b.len()
    } else if i == b.len() {
        false
    } else {
        a[i] < b[i]
    }
}

/// Newest first: no file name sorts before a later one.
pub open spec fn newest_first(v: Seq<BackupInfo>) -> bool {
    forall|i: int, j: int| 0 <= i < j < v.len() ==> !text_lt((#[trigger] v[i]).file@, (#[trigger] v[j]).file@)
}

/// The backups listed newest first, by file name in descending order (the
/// stamp in the name orders them), keeping the order of equal names.
pub fn sort_newest_first(v: Vec<BackupInfo>) -> (r: Vec<BackupInfo>)
    ensures
        r@.to_multiset() == v@.to_multiset(),
        newest_first(r@),
{
    let mut out: Vec<BackupInfo> = Vec::new();
    let mut rest = v;
    let ghost orig = rest@;
    let n = rest.len();
    let mut i: usize = 0;
    assert(out@ =~= orig.take(0));
    assert(rest@ =~= orig.skip(0));
    while i < n
        invariant
            n == orig.len(),
            i <= n,
            rest@ == orig.skip(i as int),
            out@.to_multiset() == orig.take(i as int).to_multiset(),
            newest_first(out@),
        decreases n - i,
    {
        let item = rest.remove(0);
        assert(item == orig[i as int]);
        assert(rest@ =~= orig.skip(i + 1));
        let key = chars_of(item.file.as_str());
        let mut k: usize = 0;
        while k < out.len() && !text_less(&chars_of(out[k].file.as_str()), &key)
            invariant
                k <= out@.len(),
                key@ == item.file@,
                forall|m: int| 0 <= m < k ==> !text_lt((#[trigger] out@[m]).file@, item.file@),
            decreases out.len() - k,
        {
            k += 1;
        }
        let ghost before = out@;
        proof {
            assert forall|m: int| k <= m < before.len() implies text_lt((#[trigger] before[m]).file@, item.file@) by {
                if k < before.len() {
                    assert(text_lt(before[k as int].file@, item.file@));
                    if m > k {
                        assert(!text_lt(before[k as int].file@, before[m].file@));
                        lemma_text_lt_total(before[k as int].file@, before[m].file@);
                        if before[m].file@ != before[k as int].file@ {
                            lemma_text_lt_trans(before[m].file@, before[k as int].file@, item.file@);
                        }
                    }
                }
            }
        }
        out.insert(k, item);
        proof {
            let after = out@;
            assert(after =~= before.insert(k as int, item));
            assert forall|a: int, b: int| 0 <= a < b < after.len() implies !text_lt(
                (#[trigger] after[a]).file@,
                (#[trigger] after[b]).file@,
            ) by {
                if a < k && b < k {
                    assert(after[a] == before[a] && after[b] == before[b]);
                } else if a < k && b == k {
                } else if a < k && b > k {
                    assert(after[a] == before[a] && after[b] == before[b - 1]);
                } else if a == k {
                    assert(after[b] == before[b - 1]);
                    lemma_text_lt_asym(before[b - 1].file@, item.file@);
                } else {
                    assert(after[a] == before[a - 1] && after[b] == before[b - 1]);
                }
            }
            assert(orig.take(i + 1) =~= orig.take(i as int).push(orig[i as int]));
            vstd::seq_lib::to_multiset_insert(before, k as int, item);
            vstd::seq_lib::to_multiset_build(orig.take(i as int), orig[i as int]);
        }
        i += 1;
    }
    assert(orig.take(n as int) =~= orig);
    out
}

/// A file of the backup directory is listed when its extension is `zip`.
pub fn is_backup_file(name: &str) -> (b: bool)
    ensures
        b == (crate::webserver::extension_spec(name@) == Some("zip"@)),
{
    match crate::webserver::extension(name) {
        Some(e) => crate::text::chars_eq(&e, &chars_of("zip")),
        None => false,
    }
}

/// The listing entry of a backup file: its account (empty when the name
/// names none), size and time.
pub fn backup_info(file: String, size: i64, created_at: String) -> (b: BackupInfo)
    ensures
        b.file == file && b.size == size && b.created_at == created_at,
        b.username@ == (match account_from_file_spec(file@) {
            Some(u) => u,
            None => Seq::empty(),
        }),
{
    let username = match account_from_file(file.as_str()) {
        Some(u) => u,
        None => String::new(),
    };
    BackupInfo { file, username, size, created_at }
}

/// The backups of the accounts named in `owners`, in order.
pub open spec fn owned_by(v: Seq<BackupInfo>, owners: Seq<String>) -> Seq<BackupInfo>
    decreases v.len(),
{
    if v.len() == 0 {
        Seq::empty()
    } else {
        let rest = owned_by(v.drop_last(), owners);
        if exists|k: int| 0 <= k < owners.len() && (#[trigger] owners[k])@ == v.last().username@ {
            rest.push(v.last())
        } else {
            rest
        }
    }
}

pub fn retain_owned(v: Vec<BackupInfo>, owners: &Vec<String>) -> (r: Vec<BackupInfo>)
    ensures
        r@ == owned_by(v@, owners@),
{
    let mut out: Vec<BackupInfo> = Vec::new();
    let mut rest = v;
    let ghost orig = rest@;
    let n = rest.len();
    let mut i: usize = 0;
    assert(orig.take(0) =~= Seq::<BackupInfo>::empty());
    assert(rest@ =~= orig.skip(0));
    while i < n
        invariant
            n == orig.len(),
            i <= n,
            rest@ == orig.skip(i as int),
            out@ == owned_by(orig.take(i as int), owners@),
        decreases n - i,
    {
        let item = rest.remove(0);
        assert(item == orig[i as int]);
        assert(rest@ =~= orig.skip(i + 1));
        assert(orig.take(i + 1).drop_last() =~= orig.take(i as int));
        assert(orig.take(i + 1).last() == item);
        let mut found = false;
        let mut k: usize = 0;
        while k < owners.len()
            invariant
                k <= owners@.len(),
                found == exists|m: int| 0 <= m < k && (#[trigger] owners@[m])@ == item.username@,
            decreases owners.len() - k,
        {
            if crate::text::str_eq(owners[k].as_str(), item.username.as_str()) {
                found = true;
            }
            k += 1;
        }
        if found {
            out.push(item);
        }
        i += 1;
    }
    assert(orig.take(n as int) =~= orig);
    out
}

/// Name of chrono's UTC date and time `%Y-%m-%d %H:%M:%S` of a Unix time
/// in seconds; none where the time is outside chrono's range.
pub uninterp spec fn utc_datetime_text(secs: int) -> Option<Seq<char>>;

/// `DateTime::<Utc>::from_timestamp(secs, 0)` formatted as
/// `%Y-%m-%d %H:%M:%S`.  The text depends on `secs` alone, named
/// `utc_datetime_text`.
#[verifier::external_body]
fn utc_datetime(secs: i64) -> (r: Option<String>)
    ensures
        match r {
            Some(t) => utc_datetime_text(secs as int) == Some(t@),
            None => utc_datetime_text(secs as int) is None,
        },
{
    chrono::DateTime::<chrono::Utc>::from_timestamp(secs, 0).map(|dt| dt.format("%Y-%m-%d %H:%M:%S").to_string())
}

/// The time shown for a backup file, from its modification time in whole
/// seconds since the epoch (read as a signed number, as the file system's
/// seconds are); empty where chrono cannot show it.
pub fn backup_time(secs: u64) -> (r: String)
    ensures
        r@ == (match utc_datetime_text((secs as i64) as int) {
            Some(t) => t,
            None => Seq::empty(),
        }),
{
    match utc_datetime(secs as i64) {
        Some(t) => t,
        None => String::new(),
    }
}

} // verus!
