//! The cache page: the summary built from a Valkey `INFO` reply, and the
//! decisions taken on the replies to `FLUSHALL` and `CONFIG SET maxmemory`.
use vstd::prelude::*;
use crate::error::{ApiError, is_error};
use crate::resp::{Resp, RespError};
use crate::text::{
    chars_of, chars_eq, lines, lines_of, parse_i64, parse_i64_spec, split_once, split_once_on,
    string_of, trim, trim_chars, lower_char, to_lower_char,
};

verus! {

// ================================================================ bytes to text

/// Name of the text that `String::from_utf8_lossy` makes of some bytes.
pub uninterp spec fn lossy_text(b: Seq<u8>) -> Seq<char>;

/// Bytes below 128 read as the ASCII characters they encode.
pub open spec fn ascii_chars(b: Seq<u8>) -> Seq<char> {
    b.map_values(|x: u8| x as char)
}

pub open spec fn all_ascii_bytes(b: Seq<u8>) -> bool {
    forall|i: int| 0 <= i < b.len() ==> #[trigger] b[i] < 128
}

/// `String::from_utf8_lossy`: valid UTF-8 is decoded, each invalid sequence
/// becomes U+FFFD.  The result is a function of the bytes, named `lossy_text`;
/// ASCII bytes are valid UTF-8 and decode to the characters they encode.
#[verifier::external_body]
pub(crate) fn utf8_lossy(b: &[u8]) -> (s: String)
    ensures
        s@ == lossy_text(b@),
        all_ascii_bytes(b@) ==> s@ == ascii_chars(b@),
{
    String::from_utf8_lossy(b).into_owned()
}

// ================================================================ INFO

/// A line of an `INFO` reply that carries no field: a `# Section` heading or
/// a blank line.
pub open spec fn info_line_skipped(l: Seq<char>) -> bool {
    (l.len() > 0 && l[0] == '#') || trim(l).len() == 0
}

/// The `key:value` fields of the lines, in order, key and value trimmed;
/// lines without a `:` are ignored.
pub open spec fn info_pairs(ls: Seq<Seq<char>>) -> Seq<(Seq<char>, Seq<char>)>
    decreases ls.len(),
{
    if ls.len() == 0 {
        Seq::empty()
    } else {
        let rest = info_pairs(ls.drop_last());
        let l = ls.last();
        if info_line_skipped(l) {
            rest
        } else {
            match split_once(l, ':') {
                Some((k, v)) => rest.push((trim(k), trim(v))),
                None => rest,
            }
        }
    }
}

/// The value of the last field named `key`: a later field of the same name
/// replaces an earlier one.
pub open spec fn info_lookup(pairs: Seq<(Seq<char>, Seq<char>)>, key: Seq<char>) -> Option<Seq<char>>
    decreases pairs.len(),
{
    if pairs.len() == 0 {
        None
    } else if pairs.last().0 == key {
        Some(pairs.last().1)
    } else {
        info_lookup(pairs.drop_last(), key)
    }
}

/// The field `key` read as an `i64`; absent when missing or not a number.
pub open spec fn info_int(pairs: Seq<(Seq<char>, Seq<char>)>, key: Seq<char>) -> Option<int> {
    match info_lookup(pairs, key) {
        Some(v) => parse_i64_spec(v),
        None => None,
    }
}

/// The fields of an `INFO` reply.
pub struct InfoMap {
    entries: Vec<(Vec<char>, Vec<char>)>,
}

pub open spec fn entries_view(e: Seq<(Vec<char>, Vec<char>)>) -> Seq<(Seq<char>, Seq<char>)> {
    Seq::new(e.len(), |i: int| (e[i].0@, e[i].1@))
}

impl View for InfoMap {
    type V = Seq<(Seq<char>, Seq<char>)>;

    closed spec fn view(&self) -> Seq<(Seq<char>, Seq<char>)> {
        entries_view(self.entries@)
    }
}

pub open spec fn opt_str(o: Option<String>) -> Option<Seq<char>> {
    match o {
        Some(s) => Some(s@),
        None => None,
    }
}

pub open spec fn opt_int(o: Option<i64>) -> Option<int> {
    match o {
        Some(n) => Some(n as int),
        None => None,
    }
}

impl InfoMap {
    /// No fields.
    pub fn empty() -> (m: InfoMap)
        ensures
            m@ == Seq::<(Seq<char>, Seq<char>)>::empty(),
    {
        let m = InfoMap { entries: Vec::new() };
        assert(m@ =~= Seq::<(Seq<char>, Seq<char>)>::empty());
        m
    }

    /// The value of the field `key`.
    pub fn get(&self, key: &str) -> (r: Option<String>)
        ensures
            opt_str(r) == info_lookup(self@, key@),
    {
        let k = chars_of(key);
        let mut i: usize = self.entries.len();
        assert(self@.take(i as int) =~= self@);
        while i > 0
            invariant
                i <= self.entries@.len(),
                k@ == key@,
                info_lookup(self@, key@) == info_lookup(self@.take(i as int), key@),
            decreases i,
        {
            let ghost pre = self@.take(i as int);
            assert(pre.drop_last() =~= self@.take(i - 1));
            assert(pre.last() == self@[i - 1]);
            if chars_eq(&self.entries[i - 1].0, &k) {
                return Some(string_of(&self.entries[i - 1].1));
            }
            i -= 1;
        }
        None
    }

    /// The field `key` read as an `i64`.
    pub fn get_int(&self, key: &str) -> (r: Option<i64>)
        ensures
            opt_int(r) == info_int(self@, key@),
    {
        match self.get(key) {
            Some(v) => parse_i64(&chars_of(v.as_str())),
            None => None,
        }
    }
}

/// Reads the fields of an `INFO` reply: the bytes as (lossy) UTF-8 text,
/// split into lines, headings and blank lines left out, each remaining line
/// split at its first `:`.
pub fn parse_info(bulk: &[u8]) -> (m: InfoMap)
    ensures
        m@ == info_pairs(lines(lossy_text(bulk@))),
{
    let text = utf8_lossy(bulk);
    let chars = chars_of(text.as_str());
    let ls = lines_of(&chars);
    let ghost all = lines(lossy_text(bulk@));
    let mut entries: Vec<(Vec<char>, Vec<char>)> = Vec::new();
    let mut i: usize = 0;
    while i < ls.len()
        invariant
            i <= ls@.len() == all.len(),
            forall|j: int| 0 <= j < ls@.len() ==> (#[trigger] ls@[j])@ == all[j],
            entries_view(entries@) == info_pairs(all.take(i as int)),
        decreases ls.len() - i,
    {
        let ghost before = entries@;
        let l = &ls[i];
        let skip = (l.len() > 0 && l[0] == '#') || trim_chars(l).len() == 0;
        proof {
            assert(all.take(i + 1).drop_last() =~= all.take(i as int));
            assert(all.take(i + 1).last() == l@);
        }
        if !skip {
            match split_once_on(l, ':') {
                Some((k, v)) => {
                    entries.push((trim_chars(&k), trim_chars(&v)));
                    assert(entries_view(entries@) =~= entries_view(before).push(
                        (entries@.last().0@, entries@.last().1@),
                    ));
                },
                None => {},
            }
        }
        i += 1;
    }
    assert(all.take(ls.len() as int) =~= all);
    InfoMap { entries }
}

// ================================================================ the summary

/// What the cache page shows.
pub struct CacheInfo {
    pub connected: bool,
    pub version: Option<String>,
    pub uptime_seconds: Option<i64>,
    pub used_memory: Option<i64>,
    pub used_memory_human: Option<String>,
    pub peak_memory_human: Option<String>,
    pub maxmemory: Option<i64>,
    pub maxmemory_human: Option<String>,
    pub maxmemory_policy: Option<String>,
    pub connected_clients: Option<i64>,
    pub total_connections: Option<i64>,
    pub total_commands: Option<i64>,
    pub total_keys: Option<i64>,
}

/// `a`, or `b` where `a` is absent.
pub open spec fn or_else(a: Option<Seq<char>>, b: Option<Seq<char>>) -> Option<Seq<char>> {
    match a {
        Some(x) => Some(x),
        None => b,
    }
}

/// The summary of a reachable server holds the fields of its `INFO` reply
/// and the key count.
pub open spec fn summarizes(c: CacheInfo, total_keys: Option<i64>, m: Seq<(Seq<char>, Seq<char>)>) -> bool {
    &&& c.connected
    &&& opt_str(c.version) == or_else(
        info_lookup(m, "valkey_version"@),
        info_lookup(m, "redis_version"@),
    )
    &&& opt_int(c.uptime_seconds) == info_int(m, "uptime_in_seconds"@)
    &&& opt_int(c.used_memory) == info_int(m, "used_memory"@)
    &&& opt_str(c.used_memory_human) == info_lookup(m, "used_memory_human"@)
    &&& opt_str(c.peak_memory_human) == info_lookup(m, "used_memory_peak_human"@)
    &&& opt_int(c.maxmemory) == info_int(m, "maxmemory"@)
    &&& opt_str(c.maxmemory_human) == info_lookup(m, "maxmemory_human"@)
    &&& opt_str(c.maxmemory_policy) == info_lookup(m, "maxmemory_policy"@)
    &&& opt_int(c.connected_clients) == info_int(m, "connected_clients"@)
    &&& opt_int(c.total_connections) == info_int(m, "total_connections_received"@)
    &&& opt_int(c.total_commands) == info_int(m, "total_commands_processed"@)
    &&& c.total_keys == total_keys
}

/// The key count from a `DBSIZE` reply: its integer, if it is one.
pub open spec fn dbsize_of(reply: Option<Resp>) -> Option<i64> {
    match reply {
        Some(Resp::Integer(n)) => Some(n),
        _ => None,
    }
}

impl CacheInfo {
    /// The summary of a server that could not be reached.
    pub fn offline() -> (c: CacheInfo)
        ensures
            !c.connected,
            c.version is None && c.uptime_seconds is None && c.used_memory is None,
            c.used_memory_human is None && c.peak_memory_human is None,
            c.maxmemory is None && c.maxmemory_human is None && c.maxmemory_policy is None,
            c.connected_clients is None && c.total_connections is None,
            c.total_commands is None && c.total_keys is None,
    {
        CacheInfo {
            connected: false,
            version: None,
            uptime_seconds: None,
            used_memory: None,
            used_memory_human: None,
            peak_memory_human: None,
            maxmemory: None,
            maxmemory_human: None,
            maxmemory_policy: None,
            connected_clients: None,
            total_connections: None,
            total_commands: None,
            total_keys: None,
        }
    }

    /// The summary of a reachable server from its `INFO` fields and key count.
    pub fn from_info(total_keys: Option<i64>, m: &InfoMap) -> (c: CacheInfo)
        ensures
            summarizes(c, total_keys, m@),
    {
        let version = match m.get("valkey_version") {
            Some(v) => Some(v),
            None => m.get("redis_version"),
        };
        CacheInfo {
            connected: true,
            version,
            uptime_seconds: m.get_int("uptime_in_seconds"),
            used_memory: m.get_int("used_memory"),
            used_memory_human: m.get("used_memory_human"),
            peak_memory_human: m.get("used_memory_peak_human"),
            maxmemory: m.get_int("maxmemory"),
            maxmemory_human: m.get("maxmemory_human"),
            maxmemory_policy: m.get("maxmemory_policy"),
            connected_clients: m.get_int("connected_clients"),
            total_connections: m.get_int("total_connections_received"),
            total_commands: m.get_int("total_commands_processed"),
            total_keys,
        }
    }

    /// The summary of a server that answered `PING`, from its replies to
    /// `DBSIZE` and `INFO` (`None` where the command failed): the key count
    /// where `DBSIZE` answered an integer, the fields where `INFO` answered a
    /// bulk string, none otherwise.
    pub fn from_replies(dbsize: Option<Resp>, info: Option<Resp>) -> (c: CacheInfo)
        ensures
            summarizes(c, dbsize_of(dbsize), match info {
                Some(Resp::Bulk(b)) => info_pairs(lines(lossy_text(b@))),
                _ => Seq::empty(),
            }),
    {
        let total_keys = match dbsize {
            Some(Resp::Integer(n)) => Some(n),
            _ => None,
        };
        let m = match info {
            Some(Resp::Bulk(b)) => parse_info(b.as_slice()),
            _ => InfoMap::empty(),
        };
        CacheInfo::from_info(total_keys, &m)
    }
}

// ================================================================ commands

/// A simple-string reply equal to `OK`, ignoring ASCII case.
pub open spec fn is_ok_reply(r: Resp) -> bool {
    match r {
        Resp::Simple(s) => s@.len() == 2 && lower_char(s@[0]) == 'o' && lower_char(s@[1]) == 'k',
        _ => false,
    }
}

pub fn ok_reply(r: &Resp) -> (b: bool)
    ensures
        b == is_ok_reply(*r),
{
    match r {
        Resp::Simple(s) => {
            let c = chars_of(s.as_str());
            c.len() == 2 && to_lower_char(c[0]) == 'o' && to_lower_char(c[1]) == 'k'
        },
        _ => false,
    }
}

/// The answer to a flush: the number of keys there were before (the
/// `DBSIZE` integer, 0 for another reply) once `FLUSHALL` answered `OK`;
/// 502 otherwise.
pub fn flush_result(before: &Resp, flushed: &Resp) -> (r: Result<i64, ApiError>)
    ensures
        is_ok_reply(*flushed) ==> r == Ok::<i64, ApiError>(match *before {
            Resp::Integer(n) => n,
            _ => 0,
        }),
        !is_ok_reply(*flushed) ==> (r matches Err(e) && is_error(e, 502, "FLUSHALL failed"@)),
{
    let count = match before {
        Resp::Integer(n) => *n,
        _ => 0,
    };
    if ok_reply(flushed) {
        Ok(count)
    } else {
        Err(ApiError::new(502, "FLUSHALL failed"))
    }
}

/// The smallest and largest memory limits, in MiB.
/// The answer to a failed exchange with Valkey: a closed connection is 503,
/// an error reply 502 with its text after `Valkey error: `, a reply of an
/// unknown kind 502, and a reply whose number or length is malformed a
/// failure of the server itself (500).
pub fn resp_failure(e: &RespError) -> (r: ApiError)
    ensures
        match *e {
            RespError::Closed => is_error(r, 503, "Valkey connection closed"@),
            RespError::Server(m) => is_error(r, 502, "Valkey error: "@ + m@),
            RespError::Unexpected => is_error(r, 502, "Valkey: unexpected response"@),
            RespError::BadNumber | RespError::BadLength => is_error(r, 500, "Internal server error"@),
        },
{
    match e {
        RespError::Closed => ApiError::new(503, "Valkey connection closed"),
        RespError::Server(m) => {
            let mut v = chars_of("Valkey error: ");
            let t = chars_of(m.as_str());
            let ghost before = v@;
            let mut i: usize = 0;
            while i < t.len()
                invariant
                    i <= t@.len(),
                    v@ == before + t@.take(i as int),
                decreases t.len() - i,
            {
                v.push(t[i]);
                i += 1;
                assert(v@ =~= before + t@.take(i as int));
            }
            assert(t@.take(t@.len() as int) =~= t@);
            ApiError::from_chars(502, &v)
        },
        RespError::Unexpected => ApiError::new(502, "Valkey: unexpected response"),
        _ => crate::error::internal(),
    }
}

/// A new memory limit, in MiB.
pub struct MaxmemoryBody {
    pub mb: i64,
}

pub const MAXMEMORY_MIN_MB: i64 = 8;
pub const MAXMEMORY_MAX_MB: i64 = 2048;

/// The byte count for a memory limit given in MiB, or 400 outside 8 ..= 2048.
pub fn maxmemory_bytes(mb: i64) -> (r: Result<i64, ApiError>)
    ensures
        MAXMEMORY_MIN_MB <= mb <= MAXMEMORY_MAX_MB ==> r == Ok::<i64, ApiError>((mb * 1048576) as i64),
        !(MAXMEMORY_MIN_MB <= mb <= MAXMEMORY_MAX_MB) ==> (r matches Err(e) && is_error(
            e,
            400,
            "maxmemory must be between 8 and 2048 MB"@,
        )),
{
    if mb < MAXMEMORY_MIN_MB || mb > MAXMEMORY_MAX_MB {
        return Err(ApiError::new(400, "maxmemory must be between 8 and 2048 MB"));
    }
    Ok(mb * 1024 * 1024)
}

/// `CONFIG SET` must answer `OK`; 502 otherwise.
pub fn config_set_result(reply: &Resp) -> (r: Result<(), ApiError>)
    ensures
        is_ok_reply(*reply) <==> r is Ok,
        r matches Err(e) ==> is_error(e, 502, "Failed to set maxmemory"@),
{
    if ok_reply(reply) {
        Ok(())
    } else {
        Err(ApiError::new(502, "Failed to set maxmemory"))
    }
}

/// A bulk payload read as an `i64`: text that is not UTF-8 cannot be a
/// number, and neither can text with a character outside ASCII, so only
/// ASCII payloads can give one.
pub open spec fn bulk_int(b: Seq<u8>) -> Option<int> {
    if all_ascii_bytes(b) {
        parse_i64_spec(ascii_chars(b))
    } else {
        None
    }
}

/// The limit that `CONFIG GET maxmemory` reports: the second element of the
/// array, read as a number.
pub open spec fn configured_maxmemory_spec(value: Option<Seq<u8>>) -> Option<int> {
    match value {
        Some(b) => bulk_int(b),
        None => None,
    }
}

/// The second element of a `CONFIG GET` reply, when it is a bulk string.
pub open spec fn config_value_of(reply: Option<Resp>) -> Option<Seq<u8>> {
    match reply {
        Some(Resp::Array(a)) => if a@.len() >= 2 {
            match a@[1] {
                Resp::Bulk(b) => Some(b@),
                _ => None,
            }
        } else {
            None
        },
        _ => None,
    }
}

pub fn configured_maxmemory(reply: Option<Resp>) -> (r: Option<i64>)
    ensures
        opt_int(r) == configured_maxmemory_spec(config_value_of(reply)),
{
    let ghost value = config_value_of(reply);
    match reply {
        Some(Resp::Array(a)) => {
            if a.len() >= 2 {
                match &a[1] {
                    Resp::Bulk(b) => {
                        let mut cs: Vec<char> = Vec::new();
                        let mut i: usize = 0;
                        assert(value == Some(b@));
                        while i < b.len()
                            invariant
                                value == Some(b@),
                                value == config_value_of(reply),
                                i <= b@.len(),
                                cs@ == ascii_chars(b@.take(i as int)),
                                all_ascii_bytes(b@.take(i as int)),
                            decreases b.len() - i,
                        {
                            if b[i] >= 128 {
                                assert(b@[i as int] >= 128);
                                assert(!all_ascii_bytes(b@));
                                return None;
                            }
                            cs.push(b[i] as char);
                            i += 1;
                            assert(cs@ =~= ascii_chars(b@.take(i as int)));
                            assert(all_ascii_bytes(b@.take(i as int)));
                        }
                        assert(b@.take(b@.len() as int) =~= b@);
                        parse_i64(&cs)
                    },
                    _ => None,
                }
            } else {
                None
            }
        },
        _ => None,
    }
}

/// Integer division that rounds toward zero, as Rust's `/` does.
pub open spec fn div_toward_zero(v: int, d: int) -> int {
    if v >= 0 {
        v / d
    } else {
        -((-v) / d)
    }
}

/// Bytes as whole MiB, rounded toward zero as Rust's `/` does.
pub fn mib_of(v: i64) -> (r: i64)
    ensures
        r == div_toward_zero(v as int, 1048576),
{
    if v >= 0 {
        v / 1048576
    } else {
        let m: u64 = (-(v + 1)) as u64 + 1;
        let q: u64 = m / 1048576;
        assert(q <= 9223372036854775808u64 / 1048576);
        -(q as i64)
    }
}

/// The limit reported after a change, in bytes and in MiB: the one the
/// server reports, or the one that was set where it reports none.
pub fn maxmemory_reply(current: Option<i64>, bytes: i64) -> (r: (i64, i64))
    ensures
        r.0 == (match current {
            Some(c) => c,
            None => bytes,
        }),
        r.1 == div_toward_zero(r.0 as int, 1048576),
{
    let v = match current {
        Some(c) => c,
        None => bytes,
    };
    (v, mib_of(v))
}

/// A memory limit set in MiB is reported back as the same number of MiB:
/// the bytes configured divide back exactly.
pub proof fn law_maxmemory_round_trip(mb: i64)
    requires
        MAXMEMORY_MIN_MB <= mb <= MAXMEMORY_MAX_MB,
    ensures
        div_toward_zero(((mb * 1048576) as i64) as int, 1048576) == mb,
{
    assert((mb * 1048576) / 1048576 == mb) by (nonlinear_arith)
        requires
            8 <= mb <= 2048,
    ;
}

} // verus!
