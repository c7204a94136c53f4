//! The Valkey/Redis wire protocol (RESP2) as the cache page speaks it:
//! commands are encoded as arrays of bulk strings, and replies are decoded by
//! a reader that is fed one line, or one bulk payload, at a time by whoever
//! owns the socket.
use vstd::prelude::*;
use crate::text::{
    chars_of, dec, dec_u64, digits_value, lines, lines_of, parse_i64, parse_i64_spec, slice_vec,
    split_once, split_once_on, string_of, trim, trim_chars, all_digits, is_ascii_digit, parse_unsigned,
};

verus! {

// ================================================================ values

/// A decoded reply.
pub enum Resp {
    Simple(String),
    Integer(i64),
    Bulk(Vec<u8>),
    Array(Vec<Resp>),
}

/// A reply as a mathematical value.
pub enum RespV {
    Simple(Seq<char>),
    Integer(int),
    Bulk(Seq<u8>),
    Array(Seq<RespV>),
}

pub open spec fn resp_view(r: Resp) -> RespV
    decreases r,
{
    match r {
        Resp::Simple(s) => RespV::Simple(s@),
        Resp::Integer(n) => RespV::Integer(n as int),
        Resp::Bulk(b) => RespV::Bulk(b@),
        Resp::Array(v) => RespV::Array(
            Seq::new(
                v@.len(),
                |i: int|
                    if 0 <= i < v@.len() {
                        resp_view(v@[i])
                    } else {
                        RespV::Integer(0)
                    },
            ),
        ),
    }
}

/// Why a reply could not be read.
pub enum RespError {
    /// An empty line: the server closed the connection.
    Closed,
    /// The server answered with an error line; its text.
    Server(String),
    /// A length or integer that is not a decimal `i64`.
    BadNumber,
    /// A length below -1, or one that does not fit in memory.
    BadLength,
    /// A line that starts with no known type marker.
    Unexpected,
}

pub enum RespErrorV {
    Closed,
    Server(Seq<char>),
    BadNumber,
    BadLength,
    Unexpected,
}

pub open spec fn error_view(e: RespError) -> RespErrorV {
    match e {
        RespError::Closed => RespErrorV::Closed,
        RespError::Server(s) => RespErrorV::Server(s@),
        RespError::BadNumber => RespErrorV::BadNumber,
        RespError::BadLength => RespErrorV::BadLength,
        RespError::Unexpected => RespErrorV::Unexpected,
    }
}

/// What the reader asks for next, or its final answer.
pub enum RespStep {
    /// Read one line (through its `\n`) and hand it to `feed_line`.
    NeedLine,
    /// Read this many bytes, then the two bytes after them, and hand the
    /// former to `feed_bulk`.
    NeedBulk(usize),
    Done(Resp),
    Fail(RespError),
}

pub enum StepV {
    NeedLine,
    NeedBulk(nat),
    Done(RespV),
    Fail(RespErrorV),
}

pub open spec fn step_view(s: RespStep) -> StepV {
    match s {
        RespStep::NeedLine => StepV::NeedLine,
        RespStep::NeedBulk(n) => StepV::NeedBulk(n as nat),
        RespStep::Done(r) => StepV::Done(resp_view(r)),
        RespStep::Fail(e) => StepV::Fail(error_view(e)),
    }
}

// ================================================================ reader model

/// Reader state: the arrays being filled (outermost first) and how many
/// elements each still expects.
pub type RespState = (Seq<Seq<RespV>>, Seq<int>);

/// A line without its trailing `\r` and `\n` characters.
pub open spec fn strip_line_end(s: Seq<char>) -> Seq<char>
    decreases s.len(),
{
    if s.len() > 0 && (s.last() == '\r' || s.last() == '\n') {
        strip_line_end(s.drop_last())
    } else {
        s
    }
}

/// Closes every array whose expected elements have all arrived.
pub open spec fn settle(st: RespState) -> (RespState, StepV)
    decreases st.0.len(),
{
    if st.0.len() > 0 && st.1.len() == st.0.len() && st.1.last() <= 0 {
        let arr = RespV::Array(st.0.last());
        let rest: RespState = (st.0.drop_last(), st.1.drop_last());
        if rest.0.len() == 0 {
            (rest, StepV::Done(arr))
        } else {
            settle((rest.0.update(rest.0.len() - 1, rest.0.last().push(arr)), rest.1.update(rest.1.len() - 1, rest.1.last() - 1)))
        }
    } else {
        (st, StepV::NeedLine)
    }
}

/// Places a finished value: the answer itself at top level, else the next
/// element of the innermost open array.
pub open spec fn place(st: RespState, item: RespV) -> (RespState, StepV) {
    if st.0.len() == 0 {
        (st, StepV::Done(item))
    } else {
        settle((st.0.update(st.0.len() - 1, st.0.last().push(item)), st.1.update(st.1.len() - 1, st.1.last() - 1)))
    }
}

/// Reader after one line.
pub open spec fn step_line(st: RespState, line: Seq<char>) -> (RespState, StepV) {
    let t = strip_line_end(line);
    if t.len() == 0 {
        (st, StepV::Fail(RespErrorV::Closed))
    } else {
        let rest = trim(t.drop_first());
        if t[0] == '+' {
            place(st, RespV::Simple(rest))
        } else if t[0] == '-' {
            (st, StepV::Fail(RespErrorV::Server(rest)))
        } else if t[0] == ':' {
            match parse_i64_spec(rest) {
                Some(n) => place(st, RespV::Integer(n)),
                None => (st, StepV::Fail(RespErrorV::BadNumber)),
            }
        } else if t[0] == '$' {
            match parse_i64_spec(rest) {
                Some(n) => if n == -1 {
                    place(st, RespV::Bulk(Seq::empty()))
                } else if 0 <= n <= usize::MAX {
                    (st, StepV::NeedBulk(n as nat))
                } else {
                    (st, StepV::Fail(RespErrorV::BadLength))
                },
                None => (st, StepV::Fail(RespErrorV::BadNumber)),
            }
        } else if t[0] == '*' {
            match parse_i64_spec(rest) {
                Some(n) => if n == -1 {
                    place(st, RespV::Array(Seq::empty()))
                } else if n >= 0 {
                    ((st.0.push(Seq::empty()), st.1.push(n)), StepV::NeedLine)
                } else {
                    (st, StepV::Fail(RespErrorV::BadLength))
                },
                None => (st, StepV::Fail(RespErrorV::BadNumber)),
            }
        } else {
            (st, StepV::Fail(RespErrorV::Unexpected))
        }
    }
}

/// Reader after a bulk payload.
pub open spec fn step_bulk(st: RespState, data: Seq<u8>) -> (RespState, StepV) {
    place(st, RespV::Bulk(data))
}

// ================================================================ reader

pub struct RespReader {
    stacks: Vec<Vec<Resp>>,
    pending: Vec<i64>,
}

impl RespReader {
    pub closed spec fn wf(&self) -> bool {
        &&& self.stacks@.len() == self.pending@.len()
        &&& forall|i: int| 0 <= i < self.pending@.len() ==> #[trigger] self.pending@[i] >= 0
    }

    pub closed spec fn state(&self) -> RespState {
        (
            Seq::new(
                self.stacks@.len(),
                |i: int| Seq::new(self.stacks@[i]@.len(), |j: int| resp_view(self.stacks@[i]@[j])),
            ),
            Seq::new(self.pending@.len(), |i: int| self.pending@[i] as int),
        )
    }

    pub fn new() -> (r: RespReader)
        ensures
            r.wf(),
            r.state() == (Seq::<Seq<RespV>>::empty(), Seq::<int>::empty()),
    {
        let r = RespReader { stacks: Vec::new(), pending: Vec::new() };
        assert(r.state().0 =~= Seq::<Seq<RespV>>::empty());
        assert(r.state().1 =~= Seq::<int>::empty());
        r
    }

    fn place_item(&mut self, item: Resp) -> (r: RespStep)
        requires
            old(self).wf(),
        ensures
            final(self).wf(),
            (final(self).state(), step_view(r)) == place(old(self).state(), resp_view(item)),
            !(r is NeedBulk) && !(r is Fail),
    {
        if self.stacks.len() == 0 {
            return RespStep::Done(item);
        }
        let ghost st0 = self.state();
        let top = self.stacks.len() - 1;
        let mut arr = self.stacks.remove(top);
        arr.push(item);
        self.stacks.push(arr);
        let p = self.pending[top];
        self.pending.set(top, p - 1);
        proof {
            let st1 = self.state();
            assert(st1.0 =~= st0.0.update(st0.0.len() - 1, st0.0.last().push(resp_view(item)))) by {
                assert forall|i: int| 0 <= i < st1.0.len() implies #[trigger] st1.0[i] =~= st0.0.update(st0.0.len() - 1, st0.0.last().push(resp_view(item)))[i] by {
                }
            }
            assert(st1.1 =~= st0.1.update(st0.1.len() - 1, st0.1.last() - 1));
        }
        self.settle_arrays()
    }

    /// The state after `settle` is well formed except that the innermost
    /// count may be -1 on entry.
    closed spec fn settling(&self) -> bool {
        &&& self.stacks@.len() == self.pending@.len()
        &&& forall|i: int| 0 <= i < self.pending@.len() - 1 ==> #[trigger] self.pending@[i] >= 0
        &&& self.pending@.len() > 0 ==> self.pending@.last() >= -1
    }

    fn settle_arrays(&mut self) -> (r: RespStep)
        requires
            old(self).settling(),
        ensures
            final(self).wf(),
            (final(self).state(), step_view(r)) == settle(old(self).state()),
            !(r is NeedBulk) && !(r is Fail),
        decreases old(self).stacks@.len(),
    {
        let n = self.pending.len();
        if n > 0 && self.pending[n - 1] <= 0 {
            let ghost st0 = self.state();
            let ghost old_stacks = self.stacks@;
            let items = self.stacks.remove(n - 1);
            assert(items == old_stacks[n - 1]);
            let _ = self.pending.remove(n - 1);
            let arr = Resp::Array(items);
            proof {
                let st1 = self.state();
                assert(st1.0 =~= st0.0.drop_last());
                assert(st1.1 =~= st0.1.drop_last());
                match resp_view(arr) {
                    RespV::Array(sq) => {
                        assert(sq.len() == items@.len());
                        assert forall|j: int| 0 <= j < sq.len() implies sq[j] == resp_view(items@[j]) by {}
                        assert(sq =~= st0.0.last());
                    },
                    _ => {
                        assert(false);
                    },
                }
            }
            if self.stacks.len() == 0 {
                return RespStep::Done(arr);
            }
            let ghost st1 = self.state();
            let top = self.stacks.len() - 1;
            let mut outer = self.stacks.remove(top);
            outer.push(arr);
            self.stacks.push(outer);
            let p = self.pending[top];
            self.pending.set(top, p - 1);
            proof {
                let st2 = self.state();
                assert(st2.0 =~= st1.0.update(st1.0.len() - 1, st1.0.last().push(resp_view(arr)))) by {
                    assert forall|i: int| 0 <= i < st2.0.len() implies #[trigger] st2.0[i] =~= st1.0.update(st1.0.len() - 1, st1.0.last().push(resp_view(arr)))[i] by {
                    }
                }
                assert(st2.1 =~= st1.1.update(st1.1.len() - 1, st1.1.last() - 1));
            }
            self.settle_arrays()
        } else {
            RespStep::NeedLine
        }
    }

    /// Hands the reader one line as read from the connection (its `\r\n` may
    /// still be attached).
    pub fn feed_line(&mut self, line: &str) -> (r: RespStep)
        requires
            old(self).wf(),
        ensures
            final(self).wf(),
            (final(self).state(), step_view(r)) == step_line(old(self).state(), line@),
    {
        let raw = chars_of(line);
        let t = strip_line_end_vec(&raw);
        if t.len() == 0 {
            return RespStep::Fail(RespError::Closed);
        }
        let rest = trim_chars(&slice_vec(&t, 1, t.len()));
        proof {
            assert(t@.subrange(1, t@.len() as int) =~= t@.drop_first());
        }
        let marker = t[0];
        if marker == '+' {
            self.place_item(Resp::Simple(string_of(&rest)))
        } else if marker == '-' {
            RespStep::Fail(RespError::Server(string_of(&rest)))
        } else if marker == ':' {
            match parse_i64(&rest) {
                Some(n) => self.place_item(Resp::Integer(n)),
                None => RespStep::Fail(RespError::BadNumber),
            }
        } else if marker == '$' {
            match parse_i64(&rest) {
                Some(n) => {
                    if n == -1 {
                        let empty: Vec<u8> = Vec::new();
                        self.place_item(Resp::Bulk(empty))
                    } else if n >= 0 && (n as u64) <= (usize::MAX as u64) {
                        RespStep::NeedBulk(n as usize)
                    } else {
                        RespStep::Fail(RespError::BadLength)
                    }
                },
                None => RespStep::Fail(RespError::BadNumber),
            }
        } else if marker == '*' {
            match parse_i64(&rest) {
                Some(n) => {
                    if n == -1 {
                        let empty: Vec<Resp> = Vec::new();
                        let arr = Resp::Array(empty);
                        proof {
                            match resp_view(arr) {
                                RespV::Array(sq) => {
                                    assert(sq =~= Seq::<RespV>::empty());
                                },
                                _ => {
                                    assert(false);
                                },
                            }
                        }
                        self.place_item(arr)
                    } else if n >= 0 {
                        let ghost st0 = self.state();
                        self.stacks.push(Vec::new());
                        self.pending.push(n);
                        proof {
                            let st1 = self.state();
                            assert(st1.0 =~= st0.0.push(Seq::empty())) by {
                                assert(st1.0.last() =~= Seq::<RespV>::empty());
                            }
                            assert(st1.1 =~= st0.1.push(n as int));
                        }
                        RespStep::NeedLine
                    } else {
                        RespStep::Fail(RespError::BadLength)
                    }
                },
                None => RespStep::Fail(RespError::BadNumber),
            }
        } else {
            RespStep::Fail(RespError::Unexpected)
        }
    }

    /// Hands the reader the payload that its last `NeedBulk` asked for.
    pub fn feed_bulk(&mut self, data: Vec<u8>) -> (r: RespStep)
        requires
            old(self).wf(),
        ensures
            final(self).wf(),
            (final(self).state(), step_view(r)) == step_bulk(old(self).state(), data@),
    {
        self.place_item(Resp::Bulk(data))
    }
}

fn strip_line_end_vec(s: &Vec<char>) -> (r: Vec<char>)
    ensures
        r@ == strip_line_end(s@),
{
    let mut n = s.len();
    assert(s@.subrange(0, n as int) =~= s@);
    while n > 0 && (s[n - 1] == '\r' || s[n - 1] == '\n')
        invariant
            n <= s.len(),
            strip_line_end(s@) == strip_line_end(s@.subrange(0, n as int)),
        decreases n,
    {
        proof {
            let p = s@.subrange(0, n as int);
            assert(p.drop_last() =~= s@.subrange(0, n - 1));
        }
        n -= 1;
    }
    proof {
        let p = s@.subrange(0, n as int);
        assert(strip_line_end(p) == p);
    }
    slice_vec(s, 0, n)
}

// ================================================================ encoding

/// ASCII text as bytes.
pub open spec fn ascii_bytes(s: Seq<char>) -> Seq<u8> {
    s.map_values(|c: char| c as u8)
}

/// One bulk string of a command: `$<len>\r\n<bytes>\r\n`.
pub open spec fn bulk_frame(a: Seq<u8>) -> Seq<u8> {
    ascii_bytes(seq!['$'] + dec(a.len()) + seq!['\r', '\n']) + a + seq![13u8, 10u8]
}

pub open spec fn bulk_frames(args: Seq<Seq<u8>>) -> Seq<u8>
    decreases args.len(),
{
    if args.len() == 0 {
        Seq::empty()
    } else {
        bulk_frames(args.drop_last()) + bulk_frame(args.last())
    }
}

/// A command as sent: an array header and one bulk string per argument.
pub open spec fn command_bytes(args: Seq<Seq<u8>>) -> Seq<u8> {
    ascii_bytes(seq!['*'] + dec(args.len()) + seq!['\r', '\n']) + bulk_frames(args)
}

fn push_ascii(out: &mut Vec<u8>, s: &Vec<char>)
    requires
        forall|i: int| 0 <= i < s@.len() ==> (#[trigger] s@[i] as u32) < 256,
    ensures
        final(out)@ == old(out)@ + ascii_bytes(s@),
{
    let ghost start = out@;
    let mut i: usize = 0;
    while i < s.len()
        invariant
            i <= s.len(),
            forall|k: int| 0 <= k < s@.len() ==> (#[trigger] s@[k] as u32) < 256,
            out@ == start + ascii_bytes(s@.subrange(0, i as int)),
        decreases s.len() - i,
    {
        let c = s[i];
        let b: u8 = c as u8;
        out.push(b);
        i += 1;
        assert(out@ =~= start + ascii_bytes(s@.subrange(0, i as int)));
    }
    assert(s@.subrange(0, s.len() as int) =~= s@);
}

pub proof fn lemma_dec_digits(n: nat)
    ensures
        all_digits(dec(n)),
        dec(n).len() > 0,
        digits_value(dec(n)) == n,
    decreases n,
{
    let d = n % 10;
    assert((((d + 48) as char) as u32) == d + 48);
    vstd::arithmetic::div_mod::lemma_fundamental_div_mod(n as int, 10);
    if n < 10 {
        vstd::arithmetic::div_mod::lemma_small_mod(n, 10);
        assert(dec(n).drop_last() =~= Seq::<char>::empty());
        assert(digits_value(Seq::<char>::empty()) == 0);
        assert(dec(n).last() == crate::text::digit_char(d));
        assert((dec(n).last() as u32) == d + 48);
        assert(digits_value(dec(n)) == digits_value(dec(n).drop_last()) * 10 + ((dec(n).last() as u32) - ('0' as u32)) as nat);
    } else {
        lemma_dec_digits(n / 10);
        let s = dec(n / 10).push(crate::text::digit_char(n % 10));
        assert(s.drop_last() =~= dec(n / 10));
        assert(s.last() == crate::text::digit_char(d));
        assert((s.last() as u32) == d + 48);
        assert(digits_value(s) == digits_value(s.drop_last()) * 10 + ((s.last() as u32) - ('0' as u32)) as nat);
        assert(all_digits(s)) by {
            assert forall|i: int| 0 <= i < s.len() implies is_ascii_digit(#[trigger] s[i]) by {
                if i < s.len() - 1 {
                    assert(s[i] == dec(n / 10)[i]);
                }
            }
        }
    }
}

fn header(marker: char, n: usize) -> (r: Vec<char>)
    ensures
        r@ == seq![marker] + dec(n as nat) + seq!['\r', '\n'],
{
    let mut v: Vec<char> = Vec::new();
    v.push(marker);
    let d = dec_u64(n as u64);
    crate::text::extend_chars(&mut v, &d);
    v.push('\r');
    v.push('\n');
    assert(v@ =~= seq![marker] + dec(n as nat) + seq!['\r', '\n']);
    v
}

/// Encodes a command as a RESP array of bulk strings.
pub fn encode_command(args: &Vec<Vec<u8>>) -> (out: Vec<u8>)
    ensures
        out@ == command_bytes(Seq::new(args@.len(), |i: int| args@[i]@)),
{
    let ghost views = Seq::new(args@.len(), |i: int| args@[i]@);
    let mut out: Vec<u8> = Vec::new();
    let h = header('*', args.len());
    proof {
        lemma_dec_digits(args.len() as nat);
    }
    push_ascii(&mut out, &h);
    let ghost head = out@;
    let mut i: usize = 0;
    while i < args.len()
        invariant
            i <= args@.len(),
            views == Seq::new(args@.len(), |k: int| args@[k]@),
            out@ == head + bulk_frames(views.subrange(0, i as int)),
        decreases args@.len() - i,
    {
        let h2 = header('$', args[i].len());
        proof {
            lemma_dec_digits(args@[i as int]@.len());
        }
        push_ascii(&mut out, &h2);
        let a = &args[i];
        let mut j: usize = 0;
        let ghost mid = out@;
        while j < a.len()
            invariant
                j <= a@.len(),
                out@ == mid + a@.subrange(0, j as int),
            decreases a@.len() - j,
        {
            out.push(a[j]);
            j += 1;
            assert(out@ =~= mid + a@.subrange(0, j as int));
        }
        out.push(13u8);
        out.push(10u8);
        proof {
            assert(a@.subrange(0, a@.len() as int) =~= a@);
            let pre = views.subrange(0, i as int);
            let cur = views.subrange(0, i + 1);
            assert(cur.drop_last() =~= pre);
            assert(cur.last() == a@);
            assert(out@ =~= head + bulk_frames(cur));
        }
        i += 1;
    }
    assert(views.subrange(0, args@.len() as int) =~= views);
    out
}

// ================================================================ round trip

/// The text of the line that carries a length header.
pub open spec fn header_line(marker: char, n: nat) -> Seq<char> {
    seq![marker] + dec(n) + seq!['\r', '\n']
}

/// Feeding the reader, from state `st`, one `$len` line and one payload per
/// argument; the last answer.
pub open spec fn feed_bulks(st: RespState, args: Seq<Seq<u8>>) -> (RespState, StepV)
    decreases args.len(),
{
    if args.len() == 0 {
        (st, StepV::NeedLine)
    } else {
        let (s1, r1) = step_line(st, header_line('$', args[0].len()));
        let (s2, r2) = step_bulk(s1, args[0]);
        if args.len() == 1 {
            (s2, r2)
        } else {
            feed_bulks(s2, args.drop_first())
        }
    }
}

proof fn lemma_strip_header(marker: char, n: nat)
    ensures
        strip_line_end(header_line(marker, n)) == seq![marker] + dec(n),
        trim((seq![marker] + dec(n)).drop_first()) == dec(n),
        parse_i64_spec(dec(n)) == (if n <= 9223372036854775807 { Some(n as int) } else { None::<int> }),
{
    lemma_dec_digits(n);
    let h = header_line(marker, n);
    let core = seq![marker] + dec(n);
    assert(h =~= core.push('\r').push('\n'));
    assert(h.drop_last() =~= core.push('\r'));
    assert(core.push('\r').drop_last() =~= core);
    assert(core.last() == dec(n).last());
    assert(crate::text::is_ascii_digit(dec(n)[dec(n).len() - 1]));
    assert(strip_line_end(core) == core);
    assert(strip_line_end(core.push('\r')) == strip_line_end(core));
    assert(strip_line_end(h) == strip_line_end(core.push('\r')));
    assert(core.drop_first() =~= dec(n));
    assert(crate::text::is_ascii_digit(dec(n)[0]));
    assert(trim(dec(n)) == dec(n)) by {
        assert(!crate::text::is_ws(dec(n)[0]));
        assert(crate::text::trim_start(dec(n)) == dec(n));
        assert(!crate::text::is_ws(dec(n).last()));
    }
}

proof fn lemma_feed_bulks(items: Seq<RespV>, k: nat, args: Seq<Seq<u8>>)
    requires
        args.len() >= 1,
        items.len() + args.len() == k,
        k <= 9223372036854775807,
        forall|i: int| 0 <= i < args.len() ==> (#[trigger] args[i]).len() <= 9223372036854775807,
        forall|i: int| 0 <= i < args.len() ==> (#[trigger] args[i]).len() <= usize::MAX,
    ensures
        feed_bulks((seq![items], seq![(k - items.len()) as int]), args) == (
            (Seq::<Seq<RespV>>::empty(), Seq::<int>::empty()),
            StepV::Done(RespV::Array(items + args.map_values(|a: Seq<u8>| RespV::Bulk(a)))),
        ),
    decreases args.len(),
{
    let st: RespState = (seq![items], seq![(k - items.len()) as int]);
    lemma_strip_header('$', args[0].len());
    let (s1, r1) = step_line(st, header_line('$', args[0].len()));
    assert(s1 == st && r1 == StepV::NeedBulk(args[0].len()));
    let items2 = items.push(RespV::Bulk(args[0]));
    let placed: RespState = (st.0.update(0, items2), st.1.update(0, (k - items.len()) as int - 1));
    assert(placed.0 =~= seq![items2]);
    assert(placed.1 =~= seq![(k - items2.len()) as int]);
    if args.len() == 1 {
        assert(placed.1.last() <= 0);
        assert(placed.0.drop_last() =~= Seq::<Seq<RespV>>::empty());
        assert(placed.1.drop_last() =~= Seq::<int>::empty());
        assert(items + args.map_values(|a: Seq<u8>| RespV::Bulk(a)) =~= items2);
    } else {
        assert(placed.1.last() > 0);
        lemma_feed_bulks(items2, k, args.drop_first());
        assert(items2 + args.drop_first().map_values(|a: Seq<u8>| RespV::Bulk(a)) =~= items + args.map_values(
            |a: Seq<u8>| RespV::Bulk(a),
        ));
    }
}

/// A reader fed an encoded command (one or more arguments) — the array header
/// line, then each argument's length line and payload — answers with the
/// array of those arguments as bulk strings, and is left empty.
pub proof fn law_command_round_trip(args: Seq<Seq<u8>>)
    requires
        args.len() >= 1,
        args.len() <= 9223372036854775807,
        forall|i: int| 0 <= i < args.len() ==> (#[trigger] args[i]).len() <= 9223372036854775807,
        forall|i: int| 0 <= i < args.len() ==> (#[trigger] args[i]).len() <= usize::MAX,
    ensures
        ({
            let empty: RespState = (Seq::empty(), Seq::empty());
            let (s0, r0) = step_line(empty, header_line('*', args.len()));
            &&& r0 == StepV::NeedLine
            &&& feed_bulks(s0, args) == (empty, StepV::Done(RespV::Array(args.map_values(|a: Seq<u8>| RespV::Bulk(a)))))
        }),
{
    let empty: RespState = (Seq::empty(), Seq::empty());
    lemma_strip_header('*', args.len());
    let (s0, r0) = step_line(empty, header_line('*', args.len()));
    assert(s0.0 =~= seq![Seq::<RespV>::empty()]);
    assert(s0.1 =~= seq![args.len() as int]);
    lemma_feed_bulks(Seq::empty(), args.len(), args);
    assert(Seq::<RespV>::empty() + args.map_values(|a: Seq<u8>| RespV::Bulk(a)) =~= args.map_values(
        |a: Seq<u8>| RespV::Bulk(a),
    ));
}

// ================================================================ round trip of replies

/// What a connection hands the reader: a line, or a bulk payload.
pub enum RespFrame {
    Line(Seq<char>),
    Payload(Seq<u8>),
}

/// The reader after one frame.
pub open spec fn step_frame(st: RespState, f: RespFrame) -> (RespState, StepV) {
    match f {
        RespFrame::Line(l) => step_line(st, l),
        RespFrame::Payload(d) => step_bulk(st, d),
    }
}

/// The reader after a run of frames, with the answer to the last one.
pub open spec fn run_frames(st: RespState, fs: Seq<RespFrame>) -> (RespState, StepV)
    decreases fs.len(),
{
    if fs.len() == 0 {
        (st, StepV::NeedLine)
    } else if fs.len() == 1 {
        step_frame(st, fs[0])
    } else {
        run_frames(step_frame(st, fs[0]).0, fs.drop_first())
    }
}

pub open spec fn crlf() -> Seq<char> {
    seq!['\r', '\n']
}

/// The frames that encode a value: `+text`, `:number`, `$length` and the
/// payload, or `*count` and the frames of each element.
pub open spec fn frames(v: RespV) -> Seq<RespFrame>
    decreases v,
{
    match v {
        RespV::Simple(s) => seq![RespFrame::Line(seq!['+'] + s + crlf())],
        RespV::Integer(n) => seq![RespFrame::Line(seq![':'] + crate::text::dec_int(n) + crlf())],
        RespV::Bulk(b) => seq![RespFrame::Line(header_line('$', b.len())), RespFrame::Payload(b)],
        RespV::Array(items) => seq![RespFrame::Line(header_line('*', items.len()))] + frames_items(items),
    }
}

/// The frames of the elements of an array, one after another.
pub open spec fn frames_items(items: Seq<RespV>) -> Seq<RespFrame>
    decreases items,
{
    if items.len() == 0 {
        Seq::empty()
    } else {
        frames_items(items.subrange(0, items.len() - 1)) + frames(items[items.len() - 1])
    }
}

/// A simple string the wire can carry unchanged: no line break, and no
/// surrounding whitespace (which the reader trims).
pub open spec fn simple_ok(s: Seq<char>) -> bool {
    !s.contains('\r') && !s.contains('\n') && trim(s) == s
}

/// A value whose encoding the reader reads back: simple strings as above,
/// integers of `i64`, payloads whose length fits, and arrays of at least one
/// element (an empty array would leave the reader waiting).
pub open spec fn encodable(v: RespV) -> bool
    decreases v,
{
    match v {
        RespV::Simple(s) => simple_ok(s),
        RespV::Integer(n) => i64::MIN <= n <= i64::MAX,
        RespV::Bulk(b) => b.len() <= i64::MAX && b.len() <= usize::MAX,
        RespV::Array(items) => 1 <= items.len() <= i64::MAX && encodable_items(items),
    }
}

pub open spec fn encodable_items(items: Seq<RespV>) -> bool
    decreases items,
{
    if items.len() == 0 {
        true
    } else {
        encodable_items(items.subrange(0, items.len() - 1)) && encodable(items[items.len() - 1])
    }
}

/// Every open array of a reader state still expects an element.
pub open spec fn open_ok(st: RespState) -> bool {
    st.0.len() == st.1.len() && forall|i: int| 0 <= i < st.1.len() ==> #[trigger] st.1[i] >= 1
}

proof fn lemma_encodable_item(items: Seq<RespV>, i: int)
    requires
        encodable_items(items),
        0 <= i < items.len(),
    ensures
        encodable(items[i]),
    decreases items.len(),
{
    if i < items.len() - 1 {
        let pre = items.subrange(0, items.len() - 1);
        lemma_encodable_item(pre, i);
        assert(pre[i] == items[i]);
    }
}

proof fn lemma_frames_nonempty(v: RespV)
    ensures
        frames(v).len() >= 1,
{
    match v {
        RespV::Array(items) => {},
        _ => {},
    }
}

proof fn lemma_run_concat(st: RespState, a: Seq<RespFrame>, b: Seq<RespFrame>)
    requires
        a.len() >= 1,
        b.len() >= 1,
    ensures
        run_frames(st, a + b) == run_frames(run_frames(st, a).0, b),
    decreases a.len(),
{
    let ab = a + b;
    assert(ab[0] == a[0]);
    if a.len() == 1 {
        assert(ab.drop_first() =~= b);
    } else {
        assert(ab.drop_first() =~= a.drop_first() + b);
        lemma_run_concat(step_frame(st, a[0]).0, a.drop_first(), b);
    }
}

proof fn lemma_no_line_end(x: Seq<char>)
    requires
        x.len() > 0,
        x.last() != '\r',
        x.last() != '\n',
    ensures
        strip_line_end(x + crlf()) == x,
{
    let h = x + crlf();
    let xr = x.push('\r');
    assert(h =~= xr.push('\n'));
    assert(h.drop_last() =~= xr);
    assert(xr.drop_last() =~= x);
    assert(strip_line_end(x) == x);
    assert(strip_line_end(xr) == strip_line_end(x));
    assert(strip_line_end(h) == strip_line_end(xr));
}

proof fn lemma_trim_plain(s: Seq<char>)
    requires
        s.len() > 0,
        !crate::text::is_ws(s[0]),
        !crate::text::is_ws(s.last()),
    ensures
        trim(s) == s,
{
    assert(crate::text::trim_start(s) == s);
}

proof fn lemma_int_line(st: RespState, n: int)
    requires
        open_ok(st),
        i64::MIN <= n <= i64::MAX,
    ensures
        step_line(st, seq![':'] + crate::text::dec_int(n) + crlf()) == place(st, RespV::Integer(n)),
{
    let m: nat = if n < 0 { (-n) as nat } else { n as nat };
    lemma_dec_digits(m);
    let d = crate::text::dec_int(n);
    let core = seq![':'] + d;
    assert(d.last() == dec(m).last());
    assert(is_ascii_digit(dec(m)[dec(m).len() - 1]));
    lemma_no_line_end(core);
    assert(core.drop_first() =~= d);
    assert(is_ascii_digit(dec(m)[0]));
    if n < 0 {
        assert(d[0] == '-');
    } else {
        assert(d[0] == dec(m)[0]);
    }
    lemma_trim_plain(d);
    if n < 0 {
        let p = seq!['+'] + d.drop_first();
        assert(d.drop_first() =~= dec(m));
        assert(p.drop_first() =~= dec(m));
        assert(d[1] == dec(m)[0]);
    } else {
        assert(d == dec(m));
    }
}

proof fn lemma_simple_line(st: RespState, s: Seq<char>)
    requires
        simple_ok(s),
    ensures
        step_line(st, seq!['+'] + s + crlf()) == place(st, RespV::Simple(s)),
{
    let core = seq!['+'] + s;
    if s.len() > 0 {
        assert(core.last() == s.last());
        assert(s.contains(s.last()));
    }
    lemma_no_line_end(core);
    assert(core.drop_first() =~= s);
}

/// Feeding the reader the frames of an array's first `j` elements, after its
/// header, leaves the array open with those elements, or, once all are in,
/// places the array.
proof fn lemma_items(st: RespState, items: Seq<RespV>, j: int)
    requires
        open_ok(st),
        1 <= items.len() <= i64::MAX,
        encodable_items(items),
        1 <= j <= items.len(),
    ensures
        run_frames((st.0.push(Seq::empty()), st.1.push(items.len() as int)), frames_items(items.take(j))) == (if j
            < items.len() {
            ((st.0.push(items.take(j)), st.1.push(items.len() - j)), StepV::NeedLine)
        } else {
            place(st, RespV::Array(items))
        }),
    decreases RespV::Array(items), 0int, j,
{
    let k = items.len() as int;
    let item = items[j - 1];
    lemma_encodable_item(items, j - 1);
    let tj = items.take(j);
    assert(tj.subrange(0, tj.len() - 1) =~= items.take(j - 1));
    assert(tj[tj.len() - 1] == item);
    assert(frames_items(tj) == frames_items(items.take(j - 1)) + frames(item));
    let sprev: RespState = (st.0.push(items.take(j - 1)), st.1.push(k - j + 1));
    assert(open_ok(sprev)) by {
        assert forall|i: int| 0 <= i < sprev.1.len() implies #[trigger] sprev.1[i] >= 1 by {
            if i < st.1.len() {
                assert(sprev.1[i] == st.1[i]);
            }
        }
    }
    let whole = RespV::Array(items);
    assert(whole->Array_0 == items);
    assert(decreases_to!(whole => whole->Array_0));
    assert(decreases_to!(items => items[j - 1]));
    assert(decreases_to!(whole => items[j - 1]));
    lemma_round_trip(sprev, item);
    lemma_frames_nonempty(item);
    if j == 1 {
        assert(items.take(0) =~= Seq::<RespV>::empty());
        assert(frames_items(items.take(0)) =~= Seq::<RespFrame>::empty());
        assert(frames_items(tj) =~= frames(item));
        assert(sprev.0 =~= st.0.push(Seq::empty()));
        assert(sprev.1 =~= st.1.push(k));
    } else {
        lemma_items(st, items, j - 1);
        let a = frames_items(items.take(j - 1));
        assert(a.len() >= 1) by {
            let tp = items.take(j - 1);
            lemma_frames_nonempty(tp[tp.len() - 1]);
        }
        lemma_run_concat((st.0.push(Seq::empty()), st.1.push(k)), a, frames(item));
    }
    // placing the element into the open array
    let pushed: RespState = (sprev.0.update(sprev.0.len() - 1, sprev.0.last().push(item)), sprev.1.update(
        sprev.1.len() - 1,
        sprev.1.last() - 1,
    ));
    assert(items.take(j - 1).push(item) =~= tj);
    assert(pushed.0 =~= st.0.push(tj));
    assert(pushed.1 =~= st.1.push(k - j));
    assert(place(sprev, item) == settle(pushed));
    if j == k {
        assert(tj =~= items);
        assert(pushed.0.drop_last() =~= st.0);
        assert(pushed.1.drop_last() =~= st.1);
    }
}

/// The reader reads back what was encoded: fed the frames of an encodable
/// value, from a state where every open array still expects an element, it
/// ends exactly as if the value had been placed at once — at top level it
/// answers with the value and is left empty.
pub proof fn law_reply_round_trip(st: RespState, v: RespV)
    requires
        open_ok(st),
        encodable(v),
    ensures
        run_frames(st, frames(v)) == place(st, v),
{
    lemma_round_trip(st, v);
}

proof fn lemma_round_trip(st: RespState, v: RespV)
    requires
        open_ok(st),
        encodable(v),
    ensures
        run_frames(st, frames(v)) == place(st, v),
    decreases v, 1int, 0int,
{
    match v {
        RespV::Simple(s) => {
            lemma_simple_line(st, s);
            let fs = frames(v);
            assert(fs.len() == 1 && fs[0] == RespFrame::Line(seq!['+'] + s + crlf()));
            assert(run_frames(st, fs) == step_frame(st, fs[0]));
            assert(step_frame(st, fs[0]) == step_line(st, seq!['+'] + s + crlf()));
        },
        RespV::Integer(n) => {
            lemma_int_line(st, n);
            let fs = frames(v);
            assert(fs.len() == 1 && fs[0] == RespFrame::Line(seq![':'] + crate::text::dec_int(n) + crlf()));
            assert(run_frames(st, fs) == step_frame(st, fs[0]));
            assert(run_frames(st, frames(v)) == place(st, v));
        },
        RespV::Bulk(b) => {
            lemma_strip_header('$', b.len());
            let fs = frames(v);
            assert(fs.drop_first() =~= seq![RespFrame::Payload(b)]);
            let h = header_line('$', b.len());
            assert(fs.len() == 2 && fs[0] == RespFrame::Line(h));
            assert(strip_line_end(h)[0] == '$');
            assert(step_line(st, h) == (st, StepV::NeedBulk(b.len())));
            assert(step_frame(st, fs[0]).0 == st);
            assert(run_frames(st, fs) == run_frames(st, fs.drop_first()));
            assert(run_frames(st, fs.drop_first()) == step_frame(st, RespFrame::Payload(b)));
            assert(run_frames(st, frames(v)) == place(st, v));
        },
        RespV::Array(items) => {
            lemma_strip_header('*', items.len());
            let head = seq![RespFrame::Line(header_line('*', items.len()))];
            let rest = frames_items(items);
            assert(items.take(items.len() as int) =~= items);
            lemma_items(st, items, items.len() as int);
            assert(rest.len() >= 1) by {
                lemma_frames_nonempty(items[items.len() - 1]);
            }
            lemma_run_concat(st, head, rest);
            assert(step_line(st, header_line('*', items.len())).0 == (st.0.push(Seq::<RespV>::empty()), st.1.push(items.len() as int)));
            assert(run_frames(st, frames(v)) == place(st, v));
        },
    }
}

} // verus!
