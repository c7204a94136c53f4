//! Scheduled jobs of hosting accounts: which schedules are accepted, and the
//! crontab written for an account.
use vstd::prelude::*;
use crate::error::{ApiError, is_error};
use crate::text::{
    chars_eq, chars_of, extend_str, parse_u64_max, parse_unsigned, split_char, split_on,
    split_once, split_once_on, split_whitespace, string_of, trim, trim_chars, trim_str, words,
};

verus! {

/// A scheduled job as stored.
pub struct CronJob {
    pub id: i64,
    pub account_id: i64,
    pub domain_id: Option<i64>,
    pub domain: Option<String>,
    pub schedule: String,
    pub command: String,
    pub description: Option<String>,
    pub status: String,
    pub last_run: Option<String>,
    pub created_at: String,
}

/// A scheduled job with its owner's username, as the admin lists it.
pub struct CronAdmin {
    pub id: i64,
    pub account_id: i64,
    pub username: String,
    pub domain_id: Option<i64>,
    pub domain: Option<String>,
    pub schedule: String,
    pub command: String,
    pub description: Option<String>,
    pub status: String,
    pub last_run: Option<String>,
    pub created_at: String,
}

/// An admin's request to add a job.
pub struct CreateCron {
    pub account_id: i64,
    pub domain_id: Option<i64>,
    pub schedule: String,
    pub command: String,
    pub description: Option<String>,
}

/// A client's request to add a job.
pub struct ClientCreateCron {
    pub domain_id: Option<i64>,
    pub schedule: String,
    pub command: String,
    pub description: Option<String>,
}

// ================================================================ schedules

/// A number as `str::parse::<u32>()` reads it.
pub open spec fn u32_text(s: Seq<char>) -> Option<nat> {
    parse_unsigned(s, 4294967295)
}

/// One comma-separated token of a field: `*`, or a range (`*`, a number,
/// or `a-b` with two numbers) optionally followed by `/step` with a
/// positive step.
pub open spec fn token_ok(tok: Seq<char>) -> bool {
    tok == seq!['*'] || ({
        let (range, step) = match split_once(tok, '/') {
            Some((r, st)) => (r, st),
            None => (tok, seq!['1']),
        };
        let step_ok = u32_text(step) matches Some(v) && v > 0;
        let range_ok = match split_once(range, '-') {
            Some((a, b)) => u32_text(a) is Some && u32_text(b) is Some,
            None => range == seq!['*'] || u32_text(range) is Some,
        };
        step_ok && range_ok
    })
}

/// A field: each comma-separated token, trimmed, empty or valid.
pub open spec fn field_ok(p: Seq<char>) -> bool {
    forall|j: int| 0 <= j < split_char(p, ',').len() ==> (trim(#[trigger] split_char(p, ',')[j]).len() == 0
        || token_ok(trim(split_char(p, ',')[j])))
}

/// Why a schedule is refused (with 400), if it is: it must have five
/// whitespace-separated fields, each valid.
pub open spec fn schedule_refusal(schedule: Seq<char>) -> Option<Seq<char>> {
    let parts = words(trim(schedule));
    if parts.len() != 5 {
        Some("Schedule must have 5 cron fields (minute hour day month weekday)"@)
    } else if exists|i: int| 0 <= i < parts.len() && !field_ok(#[trigger] parts[i]) {
        Some("Invalid cron schedule field"@)
    } else {
        None
    }
}

fn u32_ok(s: &Vec<char>) -> (b: bool)
    ensures
        b == u32_text(s@) is Some,
{
    parse_u64_max(s, 4294967295).is_some()
}

fn token_ok_exec(tok: &Vec<char>) -> (b: bool)
    ensures
        b == token_ok(tok@),
{
    let star: Vec<char> = vec!['*'];
    assert(star@ =~= seq!['*']);
    if chars_eq(tok, &star) {
        return true;
    }
    let one: Vec<char> = vec!['1'];
    assert(one@ =~= seq!['1']);
    let (range, step) = match split_once_on(tok, '/') {
        Some((r, st)) => (r, st),
        None => (crate::text::slice_vec(tok, 0, tok.len()), one),
    };
    assert(tok@.subrange(0, tok@.len() as int) =~= tok@);
    let step_ok = match parse_u64_max(&step, 4294967295) {
        Some(v) => v > 0,
        None => false,
    };
    let range_ok = match split_once_on(&range, '-') {
        Some((a, b)) => u32_ok(&a) && u32_ok(&b),
        None => chars_eq(&range, &star) || u32_ok(&range),
    };
    step_ok && range_ok
}

fn field_ok_exec(p: &Vec<char>) -> (b: bool)
    ensures
        b == field_ok(p@),
{
    let toks = split_on(p, ',');
    let mut j: usize = 0;
    while j < toks.len()
        invariant
            j <= toks@.len() == split_char(p@, ',').len(),
            forall|k: int| 0 <= k < toks@.len() ==> (#[trigger] toks@[k])@ == split_char(p@, ',')[k],
            forall|k: int| 0 <= k < j ==> (trim(#[trigger] split_char(p@, ',')[k]).len() == 0 || token_ok(
                trim(split_char(p@, ',')[k]),
            )),
        decreases toks.len() - j,
    {
        let t = trim_chars(&toks[j]);
        if t.len() > 0 && !token_ok_exec(&t) {
            return false;
        }
        j += 1;
    }
    true
}

/// Checks a job's schedule.
pub fn validate_schedule(schedule: &str) -> (r: Result<(), ApiError>)
    ensures
        match schedule_refusal(schedule@) {
            None => r is Ok,
            Some(msg) => r matches Err(e) && is_error(e, 400, msg),
        },
{
    let parts = split_whitespace(&trim_str(schedule));
    if parts.len() != 5 {
        return Err(ApiError::new(400, "Schedule must have 5 cron fields (minute hour day month weekday)"));
    }
    let mut i: usize = 0;
    while i < parts.len()
        invariant
            i <= parts@.len() == words(trim(schedule@)).len(),
            parts@.len() == 5,
            forall|k: int| 0 <= k < parts@.len() ==> (#[trigger] parts@[k])@ == words(trim(schedule@))[k],
            forall|k: int| 0 <= k < i ==> field_ok(#[trigger] words(trim(schedule@))[k]),
        decreases parts.len() - i,
    {
        if !field_ok_exec(&parts[i]) {
            assert(!field_ok(words(trim(schedule@))[i as int]));
            return Err(ApiError::new(400, "Invalid cron schedule field"));
        }
        i += 1;
    }
    Ok(())
}

/// A job needs a command that is not blank.
pub fn check_command(command: &str) -> (r: Result<(), ApiError>)
    ensures
        trim(command@).len() == 0 ==> (r matches Err(e) && is_error(e, 400, "Command is required"@)),
        trim(command@).len() > 0 ==> r is Ok,
{
    if trim_str(command).len() == 0 {
        Err(ApiError::new(400, "Command is required"))
    } else {
        Ok(())
    }
}

// ================================================================ the crontab

/// The line of one job: schedule, command, and ` # description` where it has one.
pub open spec fn job_line(j: CronJob) -> Seq<char> {
    j.schedule@ + seq![' '] + j.command@ + seq![' '] + (match j.description {
        Some(d) => " # "@ + d@,
        None => Seq::empty(),
    }) + seq!['\n']
}

pub open spec fn job_lines(jobs: Seq<CronJob>) -> Seq<char>
    decreases jobs.len(),
{
    if jobs.len() == 0 {
        Seq::empty()
    } else {
        job_lines(jobs.drop_last()) + job_line(jobs.last())
    }
}

/// The crontab of an account: a heading, then one line per active job.
pub open spec fn crontab_text(username: Seq<char>, jobs: Seq<CronJob>) -> Seq<char> {
    "# FPanel cron jobs for "@ + username + seq!['\n'] + job_lines(jobs)
}

pub fn render_crontab(username: &str, jobs: &Vec<CronJob>) -> (s: String)
    ensures
        s@ == crontab_text(username@, jobs@),
{
    let mut out = chars_of("# FPanel cron jobs for ");
    extend_str(&mut out, username);
    out.push('\n');
    let ghost head = out@;
    let mut i: usize = 0;
    while i < jobs.len()
        invariant
            i <= jobs@.len(),
            out@ == head + job_lines(jobs@.take(i as int)),
        decreases jobs.len() - i,
    {
        assert(jobs@.take(i + 1).drop_last() =~= jobs@.take(i as int));
        let ghost before = out@;
        let j = &jobs[i];
        extend_str(&mut out, j.schedule.as_str());
        out.push(' ');
        extend_str(&mut out, j.command.as_str());
        out.push(' ');
        match &j.description {
            Some(d) => {
                extend_str(&mut out, " # ");
                extend_str(&mut out, d.as_str());
            },
            None => {},
        }
        out.push('\n');
        assert(out@ =~= before + job_line(*j));
        i += 1;
    }
    assert(jobs@.take(jobs.len() as int) =~= jobs@);
    string_of(&out)
}

} // verus!
