//! Access and error logs of domains: which domain names may name a log
//! file, how many lines are shown, and the figures read from a log.
use vstd::prelude::*;
use crate::cache::{lossy_text, utf8_lossy};
use crate::error::{ApiError, is_error};
use crate::text::{
    all_in_class, chars_of, contains_char, contains_seq, contains_vec, extend_str, in_class, lines,
    lines_of, parse_i64, parse_i64_spec, split_whitespace, string_of, to_lowercase, trim, trim_str,
    unicode_lower, utf8_len, utf8_len_at_least, words,
};

verus! {

/// The figures of a domain's logs, as the log page lists them.
pub struct LogSummary {
    pub domain: String,
    pub account_id: i64,
    pub username: String,
    pub access_size: i64,
    pub error_size: i64,
    pub access_lines: i64,
    pub error_lines: i64,
    pub bandwidth: i64,
    pub last_access: Option<String>,
}

/// A domain (trimmed, lower-cased) that may name a log file: 1 to 253
/// bytes of ASCII letters, digits, `-` and `.`, without `/`, `\\` or `..`.
pub open spec fn safe_domain_spec(d: Seq<char>) -> bool {
    &&& d.len() > 0
    &&& utf8_len(d) <= 253
    &&& !d.contains('/')
    &&& !d.contains('\\')
    &&& !contains_seq(d, seq!['.', '.'])
    &&& all_in_class(d, seq!['-', '.'])
}

pub fn safe_domain(domain: &str) -> (r: Result<String, ApiError>)
    ensures
        safe_domain_spec(unicode_lower(trim(domain@))) ==> (r matches Ok(d) && d@ == unicode_lower(trim(domain@))),
        !safe_domain_spec(unicode_lower(trim(domain@))) ==> (r matches Err(e) && is_error(e, 400, "Invalid domain"@)),
{
    let d = to_lowercase(string_of(&trim_str(domain)).as_str());
    let c = chars_of(d.as_str());
    let mut dots: Vec<char> = Vec::new();
    dots.push('.');
    dots.push('.');
    assert(dots@ =~= seq!['.', '.']);
    let mut extra: Vec<char> = Vec::new();
    extra.push('-');
    extra.push('.');
    assert(extra@ =~= seq!['-', '.']);
    if c.len() == 0 || utf8_len_at_least(&c, 254) || contains_char(&c, '/') || contains_char(&c, '\\')
        || contains_vec(&c, &dots) || !in_class(&c, &extra) {
        return Err(ApiError::new(400, "Invalid domain"));
    }
    Ok(d)
}

/// How many lines of a log are shown: 200 by default, within 1 ..= 5000.
pub fn lines_wanted(requested: Option<i64>) -> (n: usize)
    ensures
        n == (match requested {
            Some(v) => if v < 1 {
                1
            } else if v > 5000 {
                5000
            } else {
                v
            },
            None => 200,
        }),
{
    let v: i64 = match requested {
        Some(v) => v,
        None => 200,
    };
    if v < 1 {
        1
    } else if v > 5000 {
        5000
    } else {
        v as usize
    }
}

/// The log file of a domain: `<domain>.access.log` or `<domain>.error.log`.
pub fn log_file_name(domain: &str, access: bool) -> (r: String)
    ensures
        r@ == domain@ + (if access {
            ".access.log"@
        } else {
            ".error.log"@
        }),
{
    let mut v = chars_of(domain);
    if access {
        extend_str(&mut v, ".access.log");
    } else {
        extend_str(&mut v, ".error.log");
    }
    string_of(&v)
}

/// The last `n` lines of a log's contents (all of them where there are fewer).
pub fn tail(raw: &[u8], n: usize) -> (r: Vec<String>)
    ensures
        ({
            let ls = lines(lossy_text(raw@));
            let start = if ls.len() > n { ls.len() - n } else { 0 };
            r@.map_values(|s: String| s@) == ls.skip(start)
        }),
{
    let text = utf8_lossy(raw);
    let ls = lines_of(&chars_of(text.as_str()));
    let ghost all = lines(lossy_text(raw@));
    let start: usize = if ls.len() > n {
        ls.len() - n
    } else {
        0
    };
    let mut out: Vec<String> = Vec::new();
    let mut i: usize = start;
    while i < ls.len()
        invariant
            start <= i <= ls@.len() == all.len(),
            forall|k: int| 0 <= k < ls@.len() ==> (#[trigger] ls@[k])@ == all[k],
            out@.map_values(|s: String| s@) == all.subrange(start as int, i as int),
        decreases ls.len() - i,
    {
        let ghost before = out@.map_values(|s: String| s@);
        out.push(string_of(&ls[i]));
        assert(out@.map_values(|s: String| s@) =~= before.push(all[i as int]));
        assert(all.subrange(start as int, i + 1) =~= all.subrange(start as int, i as int).push(all[i as int]));
        i += 1;
    }
    assert(all.subrange(start as int, all.len() as int) =~= all.skip(start as int));
    out
}

/// The bytes an access-log line reports: its last word, read as an `i64`;
/// 0 for an empty line, or a last word that is not a number.
pub open spec fn line_bytes(l: Seq<char>) -> int {
    if l.len() == 0 || words(l).len() == 0 {
        0
    } else {
        match parse_i64_spec(words(l).last()) {
            Some(b) => b,
            None => 0,
        }
    }
}

/// The bytes reported by the lines, added up.
pub open spec fn bandwidth_of(ls: Seq<Seq<char>>) -> int
    decreases ls.len(),
{
    if ls.len() == 0 {
        0
    } else {
        bandwidth_of(ls.drop_last()) + line_bytes(ls.last())
    }
}

/// Every running total of the bytes, line by line, is an `i64`.
pub open spec fn totals_fit(ls: Seq<Seq<char>>) -> bool {
    forall|k: int| 0 <= k <= ls.len() ==> i64::MIN <= #[trigger] bandwidth_of(ls.take(k)) <= i64::MAX
}

/// A log's size in bytes, its number of lines, and the bytes its lines
/// report; none where a running total of the bytes, or the count of lines,
/// leaves the `i64` range.
pub fn file_metrics_checked(raw: &[u8]) -> (r: Option<(i64, i64, i64)>)
    requires
        raw@.len() <= i64::MAX,
    ensures
        ({
            let ls = lines(lossy_text(raw@));
            match r {
                Some((size, count, bw)) => totals_fit(ls) && ls.len() <= i64::MAX && size == raw@.len()
                    && count == ls.len() && bw == bandwidth_of(ls),
                None => !totals_fit(ls) || ls.len() > i64::MAX,
            }
        }),
{
    let text = utf8_lossy(raw);
    let ls = lines_of(&chars_of(text.as_str()));
    let ghost all = lines(lossy_text(raw@));
    if ls.len() as u64 > 9223372036854775807u64 {
        return None;
    }
    let mut count: i64 = 0;
    let mut bw: i64 = 0;
    let mut i: usize = 0;
    assert(all.take(0) =~= Seq::<Seq<char>>::empty());
    while i < ls.len()
        invariant
            i <= ls@.len() == all.len(),
            ls@.len() <= i64::MAX,
            all == lines(lossy_text(raw@)),
            raw@.len() <= i64::MAX,
            forall|k: int| 0 <= k < ls@.len() ==> (#[trigger] ls@[k])@ == all[k],
            count == i,
            bw == bandwidth_of(all.take(i as int)),
            forall|k: int| 0 <= k <= i ==> i64::MIN <= #[trigger] bandwidth_of(all.take(k)) <= i64::MAX,
        decreases ls.len() - i,
    {
        assert(all.take(i + 1).drop_last() =~= all.take(i as int));
        let l = &ls[i];
        let mut b: i64 = 0;
        if l.len() > 0 {
            let ws = split_whitespace(l);
            if ws.len() > 0 {
                match parse_i64(&ws[ws.len() - 1]) {
                    Some(v) => {
                        b = v;
                    },
                    None => {},
                }
            }
        }
        assert(b == line_bytes(all[i as int]));
        match bw.checked_add(b) {
            Some(t) => {
                bw = t;
            },
            None => {
                assert(all.take(i + 1).last() == all[i as int]);
                assert(!(i64::MIN <= bandwidth_of(all.take(i + 1)) <= i64::MAX));
                return None;
            },
        }
        count = count + 1;
        i += 1;
    }
    assert(all.take(ls.len() as int) =~= all);
    Some((raw.len() as i64, count, bw))
}

} // verus!
