//! Mail delivery as Postfix logs it, and the tracked messages' summary:
//! which log lines become stored events, and how listed events are put
//! together.
use vstd::prelude::*;
use crate::patterns::{capture, compile, pattern_capture, pattern_compiles, Pattern};
use crate::text::{chars_of, contains_seq, contains_vec, lines, lines_of, str_eq, string_of, trim, trim_str};

verus! {

/// A delivery attempt as listed.
pub struct DeliveryEvent {
    pub ts: String,
    pub qid: String,
    pub from_addr: String,
    pub to_addr: String,
    pub relay: String,
    pub status: String,
    pub detail: String,
}

/// A tracked message with its opens and clicks.
pub struct TrackingDelivery {
    pub token: String,
    pub msgid: String,
    pub from_addr: String,
    pub to_addr: String,
    pub subject: String,
    pub ts: String,
    pub html: bool,
    pub opens: i64,
    pub clicks: i64,
    pub first_open: Option<String>,
    pub first_click: Option<String>,
}

/// A queue manager line: a message entered the queue from a sender.
pub const QUEUE_PATTERN: &'static str = r"(?P<ts>(?:[A-Z][a-z]{2} \d{1,2} \d{2}:\d{2}:\d{2})|\S+) (?P<host>\S+) postfix/(?:qmgr|cleanup)\[\d+\]: (?P<qid>[0-9A-F]+): from=<(?P<from>[^>]*)>";

/// A delivery agent line: an attempt to deliver to a recipient, its relay,
/// status and the remote server's explanation.
pub const DELIVERY_PATTERN: &'static str = r"(?P<ts>(?:[A-Z][a-z]{2} \d{1,2} \d{2}:\d{2}:\d{2})|\S+) (?P<host>\S+) postfix/(?:smtp|smtp_out|smtp_in|lmtp|pipe|local)\[\d+\]: (?P<qid>[0-9A-F]+): to=<(?P<to>[^>]*)>, relay=(?P<relay>[^,]*), .*?status=(?P<status>[a-z]+)(?: \((?P<detail>[^)]*)\))?";

/// What a log line is stored as.
pub enum LogEntry {
    Delivery { ts: String, qid: String, to: String, relay: String, status: String, detail: String },
    Queue { ts: String, qid: String, from: String },
}

pub enum EntryV {
    Delivery {
        ts: Seq<char>,
        qid: Seq<char>,
        to: Seq<char>,
        relay: Seq<char>,
        status: Seq<char>,
        detail: Seq<char>,
    },
    Queue { ts: Seq<char>, qid: Seq<char>, from: Seq<char> },
}

pub open spec fn entry_view(e: LogEntry) -> EntryV {
    match e {
        LogEntry::Delivery { ts, qid, to, relay, status, detail } => EntryV::Delivery {
            ts: ts@,
            qid: qid@,
            to: to@,
            relay: relay@,
            status: status@,
            detail: detail@,
        },
        LogEntry::Queue { ts, qid, from } => EntryV::Queue { ts: ts@, qid: qid@, from: from@ },
    }
}

/// The text of a group where `pattern` matches `line`; empty where the
/// group took no part.
pub open spec fn group_text(pattern: Seq<char>, line: Seq<char>, group: Seq<char>) -> Seq<char> {
    match pattern_capture(pattern, line, group) {
        Some(Some(s)) => s,
        _ => Seq::empty(),
    }
}

/// The statuses that are stored: final or retried outcomes.
pub open spec fn kept_status(s: Seq<char>) -> bool {
    s == "sent"@ || s == "bounced"@ || s == "deferred"@ || s == "expired"@
}

/// What a line of the mail log is stored as: lines without `postfix` are
/// skipped; a delivery line with a kept status is a delivery (the fields
/// trimmed, but the status); otherwise a queue line is a queue entry.
pub open spec fn entry_of(line: Seq<char>) -> Option<EntryV> {
    let d = DELIVERY_PATTERN@;
    let q = QUEUE_PATTERN@;
    if !contains_seq(line, "postfix"@) {
        None
    } else if pattern_capture(d, line, "status"@) is Some {
        let st = group_text(d, line, "status"@);
        if !kept_status(st) {
            None
        } else {
            Some(
                EntryV::Delivery {
                    ts: trim(group_text(d, line, "ts"@)),
                    qid: trim(group_text(d, line, "qid"@)),
                    to: trim(group_text(d, line, "to"@)),
                    relay: trim(group_text(d, line, "relay"@)),
                    status: st,
                    detail: trim(group_text(d, line, "detail"@)),
                },
            )
        }
    } else if pattern_capture(q, line, "ts"@) is Some {
        Some(
            EntryV::Queue {
                ts: trim(group_text(q, line, "ts"@)),
                qid: trim(group_text(q, line, "qid"@)),
                from: trim(group_text(q, line, "from"@)),
            },
        )
    } else {
        None
    }
}

/// The entries of lines, in order, skipping lines that give none.
pub open spec fn entries_of(ls: Seq<Seq<char>>) -> Seq<EntryV>
    decreases ls.len(),
{
    if ls.len() == 0 {
        Seq::empty()
    } else {
        let rest = entries_of(ls.drop_last());
        match entry_of(ls.last()) {
            Some(e) => rest.push(e),
            None => rest,
        }
    }
}

/// The last 20000 lines of a log (all of them when fewer).
pub open spec fn recent(ls: Seq<Seq<char>>) -> Seq<Seq<char>> {
    if ls.len() > 20000 {
        ls.skip(ls.len() - 20000)
    } else {
        ls
    }
}

/// The two patterns, compiled.
pub struct MailLogPatterns {
    queue: Pattern,
    delivery: Pattern,
}

impl MailLogPatterns {
    pub closed spec fn wf(&self) -> bool {
        self.queue.source() == QUEUE_PATTERN@ && self.delivery.source() == DELIVERY_PATTERN@
    }

    /// Compiles the two patterns: some exactly when the regex crate accepts
    /// both, none where it refuses one.
    pub fn new() -> (r: Option<MailLogPatterns>)
        ensures
            r is Some <==> (pattern_compiles(QUEUE_PATTERN@) && pattern_compiles(DELIVERY_PATTERN@)),
            r matches Some(p) ==> p.wf(),
    {
        let q = compile(QUEUE_PATTERN);
        let d = compile(DELIVERY_PATTERN);
        match (q, d) {
            (Some(queue), Some(delivery)) => Some(MailLogPatterns { queue, delivery }),
            _ => None,
        }
    }

    fn group(p: &Pattern, line: &str, g: &str) -> (r: String)
        ensures
            r@ == group_text(p.source(), line@, g@),
    {
        match capture(p, line, g) {
            Some(Some(s)) => s,
            _ => String::new(),
        }
    }

    /// The entry a line is stored as, if any.
    pub fn entry(&self, line: &str) -> (r: Option<LogEntry>)
        requires
            self.wf(),
        ensures
            match r {
                Some(e) => entry_of(line@) == Some(entry_view(e)),
                None => entry_of(line@) is None,
            },
    {
        let l = chars_of(line);
        if !contains_vec(&l, &chars_of("postfix")) {
            return None;
        }
        let d = &self.delivery;
        let q = &self.queue;
        if capture(d, line, "status").is_some() {
            let st = Self::group(d, line, "status");
            proof {
                reveal_strlit("sent");
                reveal_strlit("bounced");
                reveal_strlit("deferred");
                reveal_strlit("expired");
            }
            if !(str_eq(st.as_str(), "sent") || str_eq(st.as_str(), "bounced") || str_eq(st.as_str(), "deferred")
                || str_eq(st.as_str(), "expired")) {
                return None;
            }
            let ts = string_of(&trim_str(Self::group(d, line, "ts").as_str()));
            let qid = string_of(&trim_str(Self::group(d, line, "qid").as_str()));
            let to = string_of(&trim_str(Self::group(d, line, "to").as_str()));
            let relay = string_of(&trim_str(Self::group(d, line, "relay").as_str()));
            let detail = string_of(&trim_str(Self::group(d, line, "detail").as_str()));
            Some(LogEntry::Delivery { ts, qid, to, relay, status: st, detail })
        } else if capture(q, line, "ts").is_some() {
            let ts = string_of(&trim_str(Self::group(q, line, "ts").as_str()));
            let qid = string_of(&trim_str(Self::group(q, line, "qid").as_str()));
            let from = string_of(&trim_str(Self::group(q, line, "from").as_str()));
            Some(LogEntry::Queue { ts, qid, from })
        } else {
            None
        }
    }

    /// The entries stored from a mail log: those of its last 20000 lines.
    pub fn scan(&self, text: &str) -> (r: Vec<LogEntry>)
        requires
            self.wf(),
        ensures
            r@.map_values(|e: LogEntry| entry_view(e)) == entries_of(recent(lines(text@))),
    {
        let ls = lines_of(&chars_of(text));
        let ghost all = lines(text@);
        let start: usize = if ls.len() > 20000 {
            ls.len() - 20000
        } else {
            0
        };
        let ghost want = recent(all);
        assert(want =~= all.skip(start as int));
        let mut out: Vec<LogEntry> = Vec::new();
        let mut i: usize = start;
        assert(want.take(0) =~= Seq::<Seq<char>>::empty());
        while i < ls.len()
            invariant
                self.wf(),
                start <= i <= ls@.len() == all.len(),
                want == all.skip(start as int),
                forall|k: int| 0 <= k < ls@.len() ==> (#[trigger] ls@[k])@ == all[k],
                out@.map_values(|e: LogEntry| entry_view(e)) == entries_of(want.take(i - start)),
            decreases ls.len() - i,
        {
            let line = string_of(&ls[i]);
            let ghost before = out@.map_values(|e: LogEntry| entry_view(e));
            let ghost pre = want.take(i - start);
            assert(want.take(i + 1 - start).drop_last() =~= pre);
            assert(want.take(i + 1 - start).last() == all[i as int]);
            match self.entry(line.as_str()) {
                Some(e) => {
                    out.push(e);
                    assert(out@.map_values(|e: LogEntry| entry_view(e)) =~= before.push(entry_view(e)));
                },
                None => {},
            }
            i += 1;
        }
        assert(want.take(ls.len() - start) =~= want);
        out
    }
}

/// How many rows a listing shows: 100 unless asked, never over 500.
pub fn list_limit(limit: Option<i64>) -> (n: i64)
    ensures
        n == (match limit {
            Some(v) => if v < 500 {
                v
            } else {
                500
            },
            None => 100,
        }),
{
    let v = match limit {
        Some(v) => v,
        None => 100,
    };
    if v < 500 {
        v
    } else {
        500
    }
}

/// The sender recorded for a queue id: of the queue rows `(qid, from)`,
/// the last one with that id, as a map filled in order keeps it; empty
/// when there is none.
pub open spec fn sender_in(rows: Seq<(Seq<char>, Seq<char>)>, qid: Seq<char>) -> Seq<char>
    decreases rows.len(),
{
    if rows.len() == 0 {
        Seq::empty()
    } else if rows.last().0 == qid {
        rows.last().1
    } else {
        sender_in(rows.drop_last(), qid)
    }
}

pub open spec fn pair_views(rows: Seq<(String, String)>) -> Seq<(Seq<char>, Seq<char>)> {
    rows.map_values(|p: (String, String)| (p.0@, p.1@))
}

pub fn sender_of(rows: &Vec<(String, String)>, qid: &str) -> (r: String)
    ensures
        r@ == sender_in(pair_views(rows@), qid@),
{
    let mut i: usize = rows.len();
    assert(rows@.take(i as int) =~= rows@);
    while i > 0
        invariant
            i <= rows@.len(),
            sender_in(pair_views(rows@), qid@) == sender_in(pair_views(rows@.take(i as int)), qid@),
        decreases i,
    {
        let ghost pv = pair_views(rows@.take(i as int));
        assert(pair_views(rows@.take(i - 1)) =~= pv.drop_last());
        assert(pv.last() == (rows@[i - 1].0@, rows@[i - 1].1@));
        if str_eq(rows[i - 1].0.as_str(), qid) {
            return string_of(&chars_of(rows[i - 1].1.as_str()));
        }
        i -= 1;
    }
    assert(pair_views(rows@.take(0)) =~= Seq::<(Seq<char>, Seq<char>)>::empty());
    String::new()
}

/// A listed delivery, its sender looked up among the queue rows.
pub fn delivery_event(
    ts: String,
    qid: String,
    to_addr: String,
    relay: String,
    status: String,
    detail: String,
    queue: &Vec<(String, String)>,
) -> (e: DeliveryEvent)
    ensures
        e.ts == ts && e.qid == qid && e.to_addr == to_addr && e.relay == relay && e.status == status && e.detail
            == detail,
        e.from_addr@ == sender_in(pair_views(queue@), qid@),
{
    let from_addr = sender_of(queue, qid.as_str());
    DeliveryEvent { ts, qid, from_addr, to_addr, relay, status, detail }
}

/// Whether a tracked message was sent as HTML: its stored flag is not zero.
pub fn html_flag(stored: i64) -> (b: bool)
    ensures
        b == (stored != 0),
{
    stored != 0
}

/// The log Postfix writes to.
pub fn mail_log_path() -> (r: &'static str)
    ensures
        r@ == "/var/log/mail.log"@,
{
    "/var/log/mail.log"
}

} // verus!
