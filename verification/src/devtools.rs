//! In-app devtools state: the network records shown in the network panel, the console buffer,
//! response bodies cut to a display cap, header lists rendered as text, and the opt-in port of the
//! engine's devtools server.

use vstd::prelude::*;
use vstd::string::StringSliceAdditionalSpecFns;
use vstd::utf8::*;

use crate::rdp_wire::{decimal_digits, encode_decimal};
use crate::text::{push_char, same_text, trim, trimmed};

verus! {

/// Cap, in bytes, of the response body kept and shown (a large download must not fill memory).
pub const BODY_CAP: usize = 4096;

/// Cap of the console buffer (FIFO: the oldest lines leave first).
pub const CONSOLE_CAP: usize = 500;

/// The devtools port used when the opt-in setting does not name a usable one.
pub const DEFAULT_DEVTOOLS_PORT: u16 = 7000;

/// A network event (request and response) gathered by the devtools client; the UI upserts it by
/// `id`.
#[derive(Debug)]
pub struct NetRecord {
    pub id: u64,
    pub method: String,
    pub url: String,
    /// `"200 OK"` once the response arrived; empty while pending.
    pub status: String,
    pub mime: String,
    pub req_headers: Vec<(String, String)>,
    pub resp_headers: Vec<(String, String)>,
    /// The response body (text), cut at [`BODY_CAP`] bytes.
    pub resp_body: String,
}

pub struct NetRecordView {
    pub id: u64,
    pub method: Seq<char>,
    pub url: Seq<char>,
    pub status: Seq<char>,
    pub mime: Seq<char>,
    pub req_headers: Seq<(Seq<char>, Seq<char>)>,
    pub resp_headers: Seq<(Seq<char>, Seq<char>)>,
    pub resp_body: Seq<char>,
}

pub open spec fn headers_view(h: Seq<(String, String)>) -> Seq<(Seq<char>, Seq<char>)> {
    h.map_values(|p: (String, String)| (p.0@, p.1@))
}

impl View for NetRecord {
    type V = NetRecordView;

    open spec fn view(&self) -> NetRecordView {
        NetRecordView {
            id: self.id,
            method: self.method@,
            url: self.url@,
            status: self.status@,
            mime: self.mime@,
            req_headers: headers_view(self.req_headers@),
            resp_headers: headers_view(self.resp_headers@),
            resp_body: self.resp_body@,
        }
    }
}

pub open spec fn records_view(s: Seq<NetRecord>) -> Seq<NetRecordView> {
    s.map_values(|r: NetRecord| r@)
}

/// Copies a header list.
pub fn clone_headers(h: &Vec<(String, String)>) -> (c: Vec<(String, String)>)
    ensures
        headers_view(c@) == headers_view(h@),
{
    let mut c: Vec<(String, String)> = Vec::new();
    let mut i: usize = 0;
    while i < h.len()
        invariant
            i <= h@.len(),
            headers_view(c@) == headers_view(h@.take(i as int)),
        decreases h@.len() - i,
    {
        let ghost before = headers_view(c@);
        c.push((h[i].0.clone(), h[i].1.clone()));
        assert(headers_view(c@) =~= before.push((h@[i as int].0@, h@[i as int].1@)));
        assert(h@.take(i as int + 1) =~= h@.take(i as int).push(h@[i as int]));
        i = i + 1;
    }
    assert(h@.take(h@.len() as int) =~= h@);
    c
}

impl NetRecord {
    /// An empty record for the event `id`.
    pub fn new(id: u64) -> (r: NetRecord)
        ensures
            r@.id == id,
            r@.method == Seq::<char>::empty(),
            r@.url == Seq::<char>::empty(),
            r@.status == Seq::<char>::empty(),
            r@.mime == Seq::<char>::empty(),
            r@.req_headers == Seq::<(Seq<char>, Seq<char>)>::empty(),
            r@.resp_headers == Seq::<(Seq<char>, Seq<char>)>::empty(),
            r@.resp_body == Seq::<char>::empty(),
    {
        let r = NetRecord {
            id,
            method: String::new(),
            url: String::new(),
            status: String::new(),
            mime: String::new(),
            req_headers: Vec::new(),
            resp_headers: Vec::new(),
            resp_body: String::new(),
        };
        assert(headers_view(r.req_headers@) =~= Seq::<(Seq<char>, Seq<char>)>::empty());
        assert(headers_view(r.resp_headers@) =~= Seq::<(Seq<char>, Seq<char>)>::empty());
        r
    }

    /// A copy of the record (sent to the UI as a snapshot).
    pub fn duplicate(&self) -> (r: NetRecord)
        ensures
            r@ == self@,
    {
        NetRecord {
            id: self.id,
            method: self.method.clone(),
            url: self.url.clone(),
            status: self.status.clone(),
            mime: self.mime.clone(),
            req_headers: clone_headers(&self.req_headers),
            resp_headers: clone_headers(&self.resp_headers),
            resp_body: self.resp_body.clone(),
        }
    }
}

/// The records after upserting `rec`: it replaces the first record with the same id, or is
/// appended when there is none.
pub open spec fn upserted(net: Seq<NetRecordView>, rec: NetRecordView) -> Seq<NetRecordView> {
    if exists|i: int| is_first_with_id(net, rec.id, i) {
        net.update(choose|i: int| is_first_with_id(net, rec.id, i), rec)
    } else {
        net.push(rec)
    }
}

/// Whether `i` is the index of the first record with id `id`.
pub open spec fn is_first_with_id(net: Seq<NetRecordView>, id: u64, i: int) -> bool {
    &&& 0 <= i < net.len()
    &&& net[i].id == id
    &&& forall|j: int| 0 <= j < i ==> #[trigger] net[j].id != id
}

/// Upserts a record by id (see [`upserted`]).
pub fn upsert_record(net: &mut Vec<NetRecord>, rec: NetRecord)
    ensures
        records_view(final(net)@) == upserted(records_view(old(net)@), rec@),
{
    let ghost before = records_view(net@);
    let mut i: usize = 0;
    while i < net.len()
        invariant
            i <= net@.len(),
            records_view(net@) == before,
            before == records_view(old(net)@),
            forall|j: int| 0 <= j < i ==> #[trigger] before[j].id != rec@.id,
        decreases net@.len() - i,
    {
        if net[i].id == rec.id {
            let ghost r = rec@;
            net.set(i, rec);
            proof {
                assert(before[i as int].id == r.id);
                assert(is_first_with_id(before, r.id, i as int));
                let k = choose|i: int| is_first_with_id(before, r.id, i);
                if k < i {
                    assert(before[k].id != r.id);
                } else if k > i {
                    assert(before[i as int].id != r.id);
                }
                assert(k == i);
                assert(records_view(net@) =~= before.update(i as int, r));
            }
            return;
        }
        i = i + 1;
    }
    let ghost r = rec@;
    net.push(rec);
    assert(!exists|i: int| is_first_with_id(before, r.id, i));
    assert(records_view(net@) =~= before.push(r));
}

/// Merges the records received from the devtools client since the last drain (upsert by id, in
/// arrival order). Returns whether anything arrived (the panel is then refreshed).
pub fn drain_devtools_net(net: &mut Vec<NetRecord>, received: Vec<NetRecord>) -> (changed: bool)
    ensures
        changed == (received@.len() > 0),
        records_view(final(net)@) == upsert_all(records_view(old(net)@), records_view(received@)),
{
    let changed = received.len() > 0;
    let ghost start = records_view(net@);
    let ghost incoming = records_view(received@);
    let total = received.len();
    let mut rest = received;
    let mut taken: usize = 0;
    assert(records_view(rest@) =~= incoming.skip(0));
    while rest.len() > 0
        invariant
            taken + rest@.len() == incoming.len(),
            incoming.len() == total,
            records_view(rest@) =~= incoming.skip(taken as int),
            records_view(net@) == upsert_all(start, incoming.take(taken as int)),
        decreases rest@.len(),
    {
        let ghost rest_before = rest@;
        let rec = rest.remove(0);
        proof {
            assert(records_view(rest_before)[0] == rec@);
            assert(rec@ == incoming[taken as int]);
            assert(records_view(rest@) =~= records_view(rest_before).drop_first());
            assert(incoming.take(taken as int + 1).drop_last() =~= incoming.take(taken as int));
            assert(records_view(rest@) =~= incoming.skip(taken as int + 1));
        }
        upsert_record(net, rec);
        taken = taken + 1;
    }
    assert(incoming.take(taken as int) =~= incoming);
    changed
}

/// Upserts each record of `incoming` in order.
pub open spec fn upsert_all(net: Seq<NetRecordView>, incoming: Seq<NetRecordView>) -> Seq<NetRecordView>
    decreases incoming.len(),
{
    if incoming.len() == 0 {
        net
    } else {
        upserted(upsert_all(net, incoming.drop_last()), incoming.last())
    }
}

/// No two records share an id.
pub open spec fn ids_distinct(net: Seq<NetRecordView>) -> bool {
    forall|i: int, j: int| 0 <= i < j < net.len() ==> #[trigger] net[i].id != #[trigger] net[j].id
}

/// Upserting keeps one row per request id, and the upserted record is then the one row with its id.
pub proof fn upsert_keeps_ids_distinct(net: Seq<NetRecordView>, rec: NetRecordView)
    requires
        ids_distinct(net),
    ensures
        ids_distinct(upserted(net, rec)),
        exists|k: int| 0 <= k < upserted(net, rec).len() && upserted(net, rec)[k] == rec,
        upserted(net, rec).len() == net.len() || upserted(net, rec).len() == net.len() + 1,
{
    if exists|i: int| is_first_with_id(net, rec.id, i) {
        let k = choose|i: int| is_first_with_id(net, rec.id, i);
        let after = net.update(k, rec);
        assert(upserted(net, rec)[k] == rec);
        assert forall|i: int, j: int| 0 <= i < j < after.len() implies #[trigger] after[i].id
            != #[trigger] after[j].id by {
            if i != k && j != k {
                assert(net[i].id != net[j].id);
            } else if i == k {
                assert(net[k].id != net[j].id);
            } else {
                assert(net[i].id != net[k].id);
            }
        }
    } else {
        let after = net.push(rec);
        assert(upserted(net, rec)[net.len() as int] == rec);
        assert forall|i: int, j: int| 0 <= i < j < after.len() implies #[trigger] after[i].id
            != #[trigger] after[j].id by {
            if j < net.len() {
                assert(net[i].id != net[j].id);
            } else if net[i].id == rec.id {
                assert forall|m: int| 0 <= m < i implies #[trigger] net[m].id != rec.id by {
                    assert(net[m].id != net[i].id);
                }
                assert(is_first_with_id(net, rec.id, i));
            }
        }
    }
}

/// Upserting the same record twice is upserting it once.
pub proof fn upsert_is_idempotent(net: Seq<NetRecordView>, rec: NetRecordView)
    ensures
        upserted(upserted(net, rec), rec) == upserted(net, rec),
{
    let once = upserted(net, rec);
    if exists|i: int| is_first_with_id(net, rec.id, i) {
        let k = choose|i: int| is_first_with_id(net, rec.id, i);
        assert(is_first_with_id(once, rec.id, k));
        let k2 = choose|i: int| is_first_with_id(once, rec.id, i);
        if k2 < k {
            assert(once[k2] == net[k2]);
        } else if k2 > k {
            assert(once[k].id == rec.id);
        }
        assert(once.update(k, rec) =~= once);
    } else {
        let n = net.len() as int;
        assert(is_first_with_id(once, rec.id, n)) by {
            assert forall|j: int| 0 <= j < n implies #[trigger] once[j].id != rec.id by {
                if net[j].id == rec.id {
                    lemma_first_with_id_exists(net, rec.id, j);
                }
            }
        }
        let k2 = choose|i: int| is_first_with_id(once, rec.id, i);
        if k2 < n {
            assert(once[k2] == net[k2]);
        }
        assert(once.update(n, rec) =~= once);
    }
}

proof fn lemma_first_with_id_exists(net: Seq<NetRecordView>, id: u64, j: int)
    requires
        0 <= j < net.len(),
        net[j].id == id,
    ensures
        exists|i: int| is_first_with_id(net, id, i),
    decreases j,
{
    if exists|m: int| 0 <= m < j && #[trigger] net[m].id == id {
        let m = choose|m: int| 0 <= m < j && #[trigger] net[m].id == id;
        lemma_first_with_id_exists(net, id, m);
    } else {
        assert(is_first_with_id(net, id, j));
    }
}

/// Draining keeps one row per request id.
pub proof fn drain_keeps_ids_distinct(net: Seq<NetRecordView>, incoming: Seq<NetRecordView>)
    requires
        ids_distinct(net),
    ensures
        ids_distinct(upsert_all(net, incoming)),
    decreases incoming.len(),
{
    if incoming.len() > 0 {
        drain_keeps_ids_distinct(net, incoming.drop_last());
        upsert_keeps_ids_distinct(upsert_all(net, incoming.drop_last()), incoming.last());
    }
}

/// Bytes that `c` takes in UTF-8.
pub open spec fn utf8_width(c: char) -> nat {
    encode_scalar(c as u32).len()
}

fn char_utf8_len(c: char) -> (w: usize)
    ensures
        w == utf8_width(c),
{
    proof {
        char_is_scalar(c);
    }
    let u = c as u32;
    if u <= 0x7F {
        1
    } else if u <= 0x7FF {
        2
    } else if u <= 0xFFFF {
        3
    } else {
        4
    }
}

/// How many leading chars of `s` fit in `cap` bytes of UTF-8.
pub open spec fn fitting_prefix_len(s: Seq<char>, cap: nat) -> nat
    decreases s.len(),
{
    if s.len() == 0 || utf8_width(s[0]) > cap {
        0
    } else {
        1 + fitting_prefix_len(s.drop_first(), (cap - utf8_width(s[0])) as nat)
    }
}

/// The text kept of a response body: the whole body when its UTF-8 encoding fits in
/// [`BODY_CAP`] bytes, else the longest prefix that fits (cut at a character boundary) followed by
/// an ellipsis.
pub open spec fn truncated_body(s: Seq<char>) -> Seq<char> {
    if encode_utf8(s).len() <= BODY_CAP {
        s
    } else {
        s.take(fitting_prefix_len(s, BODY_CAP as nat) as int) + seq!['\u{2026}']
    }
}

/// Cuts a response body for display (see [`truncated_body`]).
pub fn truncate(s: &str) -> (t: String)
    ensures
        t@ == truncated_body(s@),
{
    if s.as_bytes().len() <= BODY_CAP {
        return s.to_owned();
    }
    let n = s.unicode_len();
    let mut i: usize = 0;
    let mut used: usize = 0;
    assert(s@.skip(0) =~= s@);
    while i < n && used + char_utf8_len(s.get_char(i)) <= BODY_CAP
        invariant
            n == s@.len(),
            i <= n,
            used <= BODY_CAP,
            fitting_prefix_len(s@, BODY_CAP as nat) == i + fitting_prefix_len(s@.skip(i as int), (BODY_CAP - used) as nat),
        decreases n - i,
    {
        let w = char_utf8_len(s.get_char(i));
        assert(s@.skip(i as int).drop_first() =~= s@.skip(i + 1));
        used = used + w;
        i = i + 1;
    }
    let ellipsis = "\u{2026}";
    proof {
        reveal_strlit("\u{2026}");
    }
    let t = String::from_str(s.substring_char(0, i)).concat(ellipsis);
    assert(t@ =~= truncated_body(s@));
    t
}

/// `name: value`.
pub open spec fn header_line(h: (Seq<char>, Seq<char>)) -> Seq<char> {
    h.0 + seq![':', ' '] + h.1
}

/// Header lines joined by newlines (empty for no headers).
pub open spec fn joined_headers(hs: Seq<(Seq<char>, Seq<char>)>) -> Seq<char>
    decreases hs.len(),
{
    if hs.len() == 0 {
        Seq::empty()
    } else if hs.len() == 1 {
        header_line(hs[0])
    } else {
        joined_headers(hs.drop_last()) + seq!['\n'] + header_line(hs.last())
    }
}

/// Renders a header list as multi-line `name: value` text for the network panel.
pub fn join_headers(headers: &Vec<(String, String)>) -> (text: String)
    ensures
        text@ == joined_headers(headers_view(headers@)),
{
    let sep = ": ";
    let nl = "\n";
    proof {
        reveal_strlit(": ");
        reveal_strlit("\n");
    }
    let ghost hs = headers_view(headers@);
    let mut text = String::new();
    let mut i: usize = 0;
    while i < headers.len()
        invariant
            i <= headers@.len(),
            hs == headers_view(headers@),
            sep@ == seq![':', ' '],
            nl@ == seq!['\n'],
            text@ == joined_headers(hs.take(i as int)),
        decreases headers@.len() - i,
    {
        proof {
            assert(hs.take(i as int + 1).drop_last() =~= hs.take(i as int));
        }
        if i > 0 {
            text.append(nl);
        }
        text.append(headers[i].0.as_str());
        text.append(sep);
        text.append(headers[i].1.as_str());
        proof {
            if i == 0 {
                assert(text@ =~= joined_headers(hs.take(1)));
            } else {
                assert(text@ =~= joined_headers(hs.take(i as int + 1)));
            }
        }
        i = i + 1;
    }
    assert(hs.take(headers@.len() as int) =~= hs);
    text
}

/// Level of a line of the in-app console: the page's console levels, plus the evaluator's input,
/// its result and its failure.
#[derive(Debug, Clone, Copy, PartialEq, Eq)]
pub enum ConsoleLevel {
    Log,
    Debug,
    Info,
    Warn,
    Error,
    Trace,
    Eval,
    Result,
    Failure,
}

pub open spec fn level_name(l: ConsoleLevel) -> Seq<char> {
    match l {
        ConsoleLevel::Log => seq!['l', 'o', 'g'],
        ConsoleLevel::Debug => seq!['d', 'e', 'b', 'u', 'g'],
        ConsoleLevel::Info => seq!['i', 'n', 'f', 'o'],
        ConsoleLevel::Warn => seq!['w', 'a', 'r', 'n'],
        ConsoleLevel::Error => seq!['e', 'r', 'r', 'o', 'r'],
        ConsoleLevel::Trace => seq!['t', 'r', 'a', 'c', 'e'],
        ConsoleLevel::Eval => seq!['e', 'v', 'a', 'l'],
        ConsoleLevel::Result => seq!['r', 'e', 's', 'u', 'l', 't'],
        ConsoleLevel::Failure => seq!['e', 'r', 'r', 'o'],
    }
}

impl ConsoleLevel {
    /// The short, stable name shown and logged for the level.
    pub fn as_str(&self) -> (s: &'static str)
        ensures
            s@ == level_name(*self),
    {
        match self {
            ConsoleLevel::Log => {
                proof { reveal_strlit("log"); }
                let s = "log";
                assert(s@ =~= level_name(*self));
                s
            },
            ConsoleLevel::Debug => {
                proof { reveal_strlit("debug"); }
                let s = "debug";
                assert(s@ =~= level_name(*self));
                s
            },
            ConsoleLevel::Info => {
                proof { reveal_strlit("info"); }
                let s = "info";
                assert(s@ =~= level_name(*self));
                s
            },
            ConsoleLevel::Warn => {
                proof { reveal_strlit("warn"); }
                let s = "warn";
                assert(s@ =~= level_name(*self));
                s
            },
            ConsoleLevel::Error => {
                proof { reveal_strlit("error"); }
                let s = "error";
                assert(s@ =~= level_name(*self));
                s
            },
            ConsoleLevel::Trace => {
                proof { reveal_strlit("trace"); }
                let s = "trace";
                assert(s@ =~= level_name(*self));
                s
            },
            ConsoleLevel::Eval => {
                proof { reveal_strlit("eval"); }
                let s = "eval";
                assert(s@ =~= level_name(*self));
                s
            },
            ConsoleLevel::Result => {
                proof { reveal_strlit("result"); }
                let s = "result";
                assert(s@ =~= level_name(*self));
                s
            },
            ConsoleLevel::Failure => {
                proof { reveal_strlit("erro"); }
                let s = "erro";
                assert(s@ =~= level_name(*self));
                s
            },
        }
    }
}

/// One line of the in-app console.
#[derive(Debug)]
pub struct ConsoleLine {
    pub level: ConsoleLevel,
    pub text: String,
}

pub struct ConsoleLineView {
    pub level: ConsoleLevel,
    pub text: Seq<char>,
}

impl View for ConsoleLine {
    type V = ConsoleLineView;

    open spec fn view(&self) -> ConsoleLineView {
        ConsoleLineView { level: self.level, text: self.text@ }
    }
}

pub open spec fn console_view(s: Seq<ConsoleLine>) -> Seq<ConsoleLineView> {
    s.map_values(|l: ConsoleLine| l@)
}

/// The console after appending a line: past [`CONSOLE_CAP`] the oldest lines are dropped.
pub open spec fn console_after_push(buf: Seq<ConsoleLineView>, line: ConsoleLineView) -> Seq<ConsoleLineView> {
    let pushed = buf.push(line);
    if pushed.len() > CONSOLE_CAP {
        pushed.skip(pushed.len() - CONSOLE_CAP)
    } else {
        pushed
    }
}

/// Appends a line to the console buffer, keeping at most [`CONSOLE_CAP`] lines.
pub fn push_console_line(buf: &mut Vec<ConsoleLine>, line: ConsoleLine)
    ensures
        console_view(final(buf)@) == console_after_push(console_view(old(buf)@), line@),
{
    let ghost before = console_view(buf@);
    let ghost l = line@;
    buf.push(line);
    assert(console_view(buf@) =~= before.push(l));
    if buf.len() > CONSOLE_CAP {
        let excess = buf.len() - CONSOLE_CAP;
        let ghost pushed = console_view(buf@);
        let kept = buf.split_off(excess);
        *buf = kept;
        assert(console_view(buf@) =~= pushed.skip(excess as int));
    }
}

/// Whether `s` is ASCII decimal digits, optionally after one leading `+` (with at least one digit),
/// the grammar `from_str` of the unsigned integer types accepts.
pub open spec fn unsigned_syntax(s: Seq<char>) -> bool {
    &&& unsigned_digits(s).len() > 0
    &&& forall|i: int| 0 <= i < unsigned_digits(s).len() ==> '0' <= #[trigger] unsigned_digits(s)[i] <= '9'
}

/// The digits part of an unsigned literal: the text after an optional leading `+`.
pub open spec fn unsigned_digits(s: Seq<char>) -> Seq<char> {
    if s.len() > 0 && s[0] == '+' {
        s.drop_first()
    } else {
        s
    }
}

/// The number written by ASCII decimal digit characters.
pub open spec fn char_decimal_value(s: Seq<char>) -> nat
    decreases s.len(),
{
    if s.len() == 0 {
        0
    } else {
        char_decimal_value(s.drop_last()) * 10 + (s.last() as u32 - 48) as nat
    }
}

/// What `from_str` of an unsigned type whose largest value is `max` gives for `s`.
pub open spec fn unsigned_value(s: Seq<char>, max: nat) -> Option<nat> {
    if unsigned_syntax(s) && char_decimal_value(unsigned_digits(s)) <= max {
        Some(char_decimal_value(unsigned_digits(s)))
    } else {
        None
    }
}

/// What `u16::from_str` gives for `s`.
pub open spec fn u16_value(s: Seq<char>) -> Option<u16> {
    match unsigned_value(s, u16::MAX as nat) {
        Some(v) => Some(v as u16),
        None => None,
    }
}

/// Parses an unsigned decimal number no larger than `max`, the way `from_str` of the unsigned
/// integer types does (see [`unsigned_value`]).
pub fn parse_unsigned(s: &str, max: usize) -> (v: Option<usize>)
    ensures
        match unsigned_value(s@, max as nat) {
            Some(n) => v == Some(n as usize),
            None => v is None,
        },
{
    let n = s.unicode_len();
    let start: usize = if n > 0 && s.get_char(0) == '+' { 1 } else { 0 };
    let ghost digits = unsigned_digits(s@);
    assert(digits =~= s@.skip(start as int));
    if start >= n {
        return None;
    }
    let mut value: usize = 0;
    let mut i: usize = start;
    while i < n
        invariant
            n == s@.len(),
            start <= i <= n,
            digits == s@.skip(start as int),
            digits == unsigned_digits(s@),
            forall|k: int| start <= k < i ==> '0' <= #[trigger] s@[k] <= '9',
            value == char_decimal_value(s@.subrange(start as int, i as int)),
            value <= max,
        decreases n - i,
    {
        let c = s.get_char(i);
        if c < '0' || c > '9' {
            assert(!unsigned_syntax(s@)) by {
                assert(s@[i as int] == c);
                assert(unsigned_digits(s@)[i - start] == s@[i as int]);
            }
            return None;
        }
        let d = (c as u32 - 48) as usize;
        proof {
            assert(s@.subrange(start as int, i + 1).drop_last() =~= s@.subrange(start as int, i as int));
        }
        if d > max || value > (max - d) / 10 {
            proof {
                let full = s@.subrange(start as int, n as int);
                let pre = s@.subrange(start as int, i + 1);
                assert(char_decimal_value(pre) == value * 10 + d);
                assert(digits =~= full);
                if unsigned_syntax(s@) {
                    assert forall|k: int| 0 <= k < full.len() implies '0' <= #[trigger] full[k] <= '9' by {
                        assert(full[k] == unsigned_digits(s@)[k]);
                    }
                    lemma_decimal_prefix_bound(full, (i - start + 1) as nat);
                    assert(full.take((i - start + 1) as int) =~= pre);
                }
            }
            return None;
        }
        value = value * 10 + d;
        i = i + 1;
    }
    assert(digits =~= s@.subrange(start as int, n as int));
    Some(value)
}

/// Parses a port number the way `u16::from_str` does (see [`u16_value`]).
pub fn parse_u16(s: &str) -> (v: Option<u16>)
    ensures
        v == u16_value(s@),
{
    match parse_unsigned(s, 65535) {
        Some(v) => Some(v as u16),
        None => None,
    }
}

/// A longer digit string writes at least what its prefix writes.
pub proof fn lemma_decimal_prefix_bound(s: Seq<char>, k: nat)
    requires
        k <= s.len(),
        forall|i: int| 0 <= i < s.len() ==> '0' <= #[trigger] s[i] <= '9',
    ensures
        char_decimal_value(s) >= char_decimal_value(s.take(k as int)),
    decreases s.len(),
{
    if k < s.len() {
        assert(s.drop_last().take(k as int) =~= s.take(k as int));
        lemma_decimal_prefix_bound(s.drop_last(), k);
    } else {
        assert(s.take(k as int) =~= s);
    }
}

pub open spec fn is_enable_word(t: Seq<char>) -> bool {
    ||| t.len() == 0
    ||| t == seq!['1']
    ||| t == seq!['t', 'r', 'u', 'e']
    ||| t == seq!['o', 'n']
    ||| t == seq!['y', 'e', 's']
}

/// The devtools server port for the opt-in setting: off (`None`) without the setting; the
/// default port for an empty value or `1`/`true`/`on`/`yes` (after trimming); a number of at least
/// 1024 as given; anything else falls back to the default port.
pub open spec fn devtools_port_of(raw: Option<Seq<char>>) -> Option<u16> {
    match raw {
        None => None,
        Some(r) => {
            let t = trimmed(r);
            if is_enable_word(t) {
                Some(DEFAULT_DEVTOOLS_PORT)
            } else {
                match u16_value(t) {
                    Some(p) if p >= 1024 => Some(p),
                    _ => Some(DEFAULT_DEVTOOLS_PORT),
                }
            }
        },
    }
}

/// The devtools server port for the value of the opt-in setting (see [`devtools_port_of`]).
pub fn devtools_port(raw: Option<&str>) -> (port: Option<u16>)
    ensures
        port == devtools_port_of(match raw {
            Some(r) => Some(r@),
            None => None,
        }),
{
    let r = match raw {
        None => {
            return None;
        },
        Some(r) => r,
    };
    let t = trim(r);
    let one = "1";
    let yes_true = "true";
    let on = "on";
    let yes = "yes";
    proof {
        reveal_strlit("1");
        reveal_strlit("true");
        reveal_strlit("on");
        reveal_strlit("yes");
        assert(one@ =~= seq!['1']);
        assert(yes_true@ =~= seq!['t', 'r', 'u', 'e']);
        assert(on@ =~= seq!['o', 'n']);
        assert(yes@ =~= seq!['y', 'e', 's']);
    }
    if t.is_empty() || same_text(t, one) || same_text(t, yes_true) || same_text(t, on) || same_text(t, yes) {
        return Some(DEFAULT_DEVTOOLS_PORT);
    }
    match parse_u16(t) {
        Some(p) => {
            if p >= 1024 {
                Some(p)
            } else {
                Some(DEFAULT_DEVTOOLS_PORT)
            }
        },
        None => Some(DEFAULT_DEVTOOLS_PORT),
    }
}

/// The decimal text of `n`.
pub open spec fn decimal_chars(n: nat) -> Seq<char> {
    decimal_digits(n).map_values(|b: u8| b as char)
}

/// The decimal text of `n`.
pub fn decimal_string(n: usize) -> (text: String)
    ensures
        text@ == decimal_chars(n as nat),
{
    let digits = encode_decimal(n);
    let mut text = String::new();
    let mut i: usize = 0;
    while i < digits.len()
        invariant
            i <= digits@.len(),
            digits@ == decimal_digits(n as nat),
            text@ == digits@.take(i as int).map_values(|b: u8| b as char),
        decreases digits@.len() - i,
    {
        let ghost before = text@;
        push_char(&mut text, digits[i] as char);
        assert(text@ =~= digits@.take(i as int + 1).map_values(|b: u8| b as char));
        i = i + 1;
    }
    assert(digits@.take(digits@.len() as int) =~= digits@);
    text
}

pub open spec fn status_on_head() -> Seq<char> {
    "servidor 127.0.0.1:"@
}

pub open spec fn status_on_mid() -> Seq<char> {
    " \u{b7} "@
}

pub open spec fn status_on_tail() -> Seq<char> {
    " requisi\u{e7}\u{e3}o(\u{f5}es)"@
}

pub open spec fn status_off() -> Seq<char> {
    "servidor desligado \u{2014} rode com BASEDBROWSER_DEVTOOLS p/ ver a rede"@
}

/// The status line of the devtools panel: the server address and the number of requests seen, or
/// how to turn the server on.
pub open spec fn dev_status_of(port: Option<u16>, requests: nat) -> Seq<char> {
    match port {
        Some(p) => status_on_head() + decimal_chars(p as nat) + status_on_mid() + decimal_chars(requests)
            + status_on_tail(),
        None => status_off(),
    }
}

/// The status line of the devtools panel (see [`dev_status_of`]).
pub fn dev_status(port: Option<u16>, requests: usize) -> (text: String)
    ensures
        text@ == dev_status_of(port, requests as nat),
{
    match port {
        Some(p) => {
            let text = String::from_str("servidor 127.0.0.1:").concat(decimal_string(p as usize).as_str()).concat(
                " \u{b7} ",
            ).concat(decimal_string(requests).as_str()).concat(" requisi\u{e7}\u{e3}o(\u{f5}es)");
            text
        },
        None => String::from_str("servidor desligado \u{2014} rode com BASEDBROWSER_DEVTOOLS p/ ver a rede"),
    }
}

} // verus!
