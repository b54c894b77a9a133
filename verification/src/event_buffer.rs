//! In-memory ring of dashboard events: the newest `MAX_EVENTS` entries,
//! oldest first, exported as newline-delimited JSON.

use vstd::prelude::*;
use std::collections::VecDeque;
use crate::analytics::now_us;
use crate::text::{decimal, hex_digit_lower, push_char, push_decimal, push_str};

verus! {

/// Most entries the ring keeps.
pub const MAX_EVENTS: usize = 5000;

/// Source, type and details of an event. `d` holds the details as JSON text.
#[derive(Debug)]
pub struct EventData {
    pub s: String,
    pub t: String,
    pub d: String,
}

/// A single dashboard event entry.
#[derive(Debug)]
pub struct EventEntry {
    pub timestamp_us: u64,
    pub data: EventData,
}

/// An entry as plain values: time, source, type and JSON details.
pub struct EventView {
    pub timestamp_us: u64,
    pub s: Seq<char>,
    pub t: Seq<char>,
    pub d: Seq<char>,
}

impl View for EventEntry {
    type V = EventView;

    open spec fn view(&self) -> EventView {
        EventView {
            timestamp_us: self.timestamp_us,
            s: self.data.s@,
            t: self.data.t@,
            d: self.data.d@,
        }
    }
}

impl EventEntry {
    /// A copy of the entry.
    pub fn clone_entry(&self) -> (copy: EventEntry)
        ensures
            copy@ == self@,
    {
        EventEntry {
            timestamp_us: self.timestamp_us,
            data: EventData {
                s: self.data.s.clone(),
                t: self.data.t.clone(),
                d: self.data.d.clone(),
            },
        }
    }
}

/// The ring after one push: append at the back, dropping the oldest entry
/// when the ring is already full.
pub open spec fn ring_push(ring: Seq<EventView>, e: EventView) -> Seq<EventView> {
    if ring.len() >= MAX_EVENTS {
        ring.drop_first().push(e)
    } else {
        ring.push(e)
    }
}

/// The ring after pushing `entries` in order into an empty ring.
pub open spec fn ring_after(entries: Seq<EventView>) -> Seq<EventView>
    decreases entries.len(),
{
    if entries.len() == 0 {
        Seq::empty()
    } else {
        ring_push(ring_after(entries.drop_last()), entries.last())
    }
}

/// Ring buffer of dashboard events.
pub struct EventBuffer {
    buf: VecDeque<EventEntry>,
}

impl Default for EventBuffer {
    /// An empty buffer.
    fn default() -> (b: EventBuffer)
        ensures
            b.entries() == Seq::<EventView>::empty(),
    {
        EventBuffer::new()
    }
}

impl EventBuffer {
    /// The entries, oldest first.
    pub closed spec fn entries(&self) -> Seq<EventView> {
        self.buf@.map_values(|e: EventEntry| e@)
    }

    #[verifier::type_invariant]
    closed spec fn bounded(&self) -> bool {
        self.buf@.len() <= MAX_EVENTS
    }

    /// An empty buffer.
    pub fn new() -> (b: EventBuffer)
        ensures
            b.entries() == Seq::<EventView>::empty(),
    {
        let b = EventBuffer { buf: VecDeque::with_capacity(MAX_EVENTS) };
        assert(b.entries() =~= Seq::<EventView>::empty());
        b
    }

    /// Pushes an entry with the given timestamp.
    pub fn push_entry(&mut self, entry: EventEntry)
        ensures
            final(self).entries() == ring_push(old(self).entries(), entry@),
    {
        proof {
            use_type_invariant(&*self);
        }
        let ghost before = self.entries();
        let mut buf = VecDeque::new();
        std::mem::swap(&mut buf, &mut self.buf);
        if buf.len() >= MAX_EVENTS {
            let _ = buf.pop_front();
        }
        buf.push_back(entry);
        self.buf = buf;
        proof {
            if before.len() >= MAX_EVENTS {
                assert(self.entries() =~= before.drop_first().push(entry@));
            } else {
                assert(self.entries() =~= before.push(entry@));
            }
        }
    }

    /// Pushes a new event stamped with the current time in microseconds;
    /// `details` is the event's details as JSON text.
    pub fn push(&mut self, source: &str, typ: &str, details: String)
        ensures
            exists|ts: u64|
                final(self).entries() == ring_push(
                    old(self).entries(),
                    EventView { timestamp_us: ts, s: source@, t: typ@, d: details@ },
                ),
            final(self).entries().len() <= MAX_EVENTS,
    {
        proof {
            use_type_invariant(&*self);
        }
        let ts = now_us();
        let entry = EventEntry {
            timestamp_us: ts,
            data: EventData { s: source.to_owned(), t: typ.to_owned(), d: details },
        };
        let ghost v = EventView { timestamp_us: ts, s: source@, t: typ@, d: details@ };
        assert(entry@ == v);
        self.push_entry(entry);
        assert(self.entries() == ring_push(old(self).entries(), v));
    }

    /// A copy of all entries, oldest first.
    pub fn snapshot(&self) -> (events: Vec<EventEntry>)
        ensures
            events@.map_values(|e: EventEntry| e@) == self.entries(),
            events@.len() <= MAX_EVENTS,
    {
        proof {
            use_type_invariant(self);
        }
        let mut events: Vec<EventEntry> = Vec::new();
        let n = self.buf.len();
        for i in 0..n
            invariant
                n == self.buf@.len(),
                events@.map_values(|e: EventEntry| e@) == self.entries().take(i as int),
        {
            let e = self.buf[i].clone_entry();
            assert(e@ == self.entries()[i as int]);
            let ghost prev = events@;
            events.push(e);
            assert(events@.map_values(|e: EventEntry| e@) =~= prev.map_values(
                |e: EventEntry| e@,
            ).push(e@));
            assert(events@.map_values(|e: EventEntry| e@) =~= self.entries().take(
                i + 1,
            ));
        }
        assert(self.entries().take(n as int) =~= self.entries());
        events
    }

    /// All entries as newline-delimited JSON, oldest first.
    pub fn export_ndjson(&self) -> (text: String)
        ensures
            text@ == ndjson(self.entries()),
    {
        let events = self.snapshot();
        let mut text = String::new();
        let n = events.len();
        for i in 0..n
            invariant
                n == events@.len(),
                events@.map_values(|e: EventEntry| e@) == self.entries(),
                text@ == ndjson(self.entries().take(i as int)),
        {
            if i > 0 {
                push_char(&mut text, '\n');
            }
            push_entry_json(&mut text, &events[i]);
            assert(self.entries().take(i + 1).drop_last() =~= self.entries().take(i as int));
        }
        assert(self.entries().take(n as int) =~= self.entries());
        text
    }
}

// ---------------------------------------------------------------------------
// JSON text of entries
// ---------------------------------------------------------------------------

/// How `serde_json` writes one character inside a string literal.
pub open spec fn json_escape_char(c: char) -> Seq<char> {
    if c == '"' {
        seq!['\\', '"']
    } else if c == '\\' {
        seq!['\\', '\\']
    } else if c == '\u{8}' {
        seq!['\\', 'b']
    } else if c == '\t' {
        seq!['\\', 't']
    } else if c == '\n' {
        seq!['\\', 'n']
    } else if c == '\u{c}' {
        seq!['\\', 'f']
    } else if c == '\r' {
        seq!['\\', 'r']
    } else if (c as u32) < 0x20 {
        seq![
            '\\',
            'u',
            '0',
            '0',
            hex_digit_lower((c as u32 / 16) as nat),
            hex_digit_lower((c as u32 % 16) as nat),
        ]
    } else {
        seq![c]
    }
}

pub open spec fn json_escape(s: Seq<char>) -> Seq<char>
    decreases s.len(),
{
    if s.len() == 0 {
        Seq::empty()
    } else {
        json_escape(s.drop_last()) + json_escape_char(s.last())
    }
}

/// A string as a JSON string literal.
pub open spec fn json_quote(s: Seq<char>) -> Seq<char> {
    seq!['"'] + json_escape(s) + seq!['"']
}

/// `{"timestamp_us":T,"data":{"s":S,"t":T,"d":D}}`, the compact JSON of an entry.
pub open spec fn entry_json(e: EventView) -> Seq<char> {
    "{\"timestamp_us\":"@ + decimal(e.timestamp_us as nat) + ",\"data\":{\"s\":"@ + json_quote(e.s)
        + ",\"t\":"@ + json_quote(e.t) + ",\"d\":"@ + e.d + "}}"@
}

/// One JSON line per entry, separated by newlines.
pub open spec fn ndjson(entries: Seq<EventView>) -> Seq<char>
    decreases entries.len(),
{
    if entries.len() == 0 {
        Seq::empty()
    } else if entries.len() == 1 {
        entry_json(entries[0])
    } else {
        ndjson(entries.drop_last()) + seq!['\n'] + entry_json(entries.last())
    }
}

#[verifier::external_type_specification]
#[verifier::external_body]
pub struct ExJsonError(serde_json::Error);

/// `serde_json::to_string` on a string slice: always succeeds, with the
/// string as a quoted JSON literal.
#[verifier::external_body]
fn json_string_literal(s: &str) -> (r: Result<String, serde_json::Error>)
    ensures
        r is Ok,
        r matches Ok(t) ==> t@ == json_quote(s@),
{
    serde_json::to_string(s)
}

fn push_json_string(out: &mut String, s: &str)
    ensures
        final(out)@ == old(out)@ + json_quote(s@),
{
    match json_string_literal(s) {
        Ok(t) => push_str(out, t.as_str()),
        Err(_) => {},
    }
}

fn push_entry_json(out: &mut String, e: &EventEntry)
    ensures
        final(out)@ == old(out)@ + entry_json(e@),
{
    let ghost start = out@;
    proof {
        reveal_strlit("{\"timestamp_us\":");
        reveal_strlit(",\"data\":{\"s\":");
        reveal_strlit(",\"t\":");
        reveal_strlit(",\"d\":");
        reveal_strlit("}}");
    }
    push_str(out, "{\"timestamp_us\":");
    push_decimal(out, e.timestamp_us);
    push_str(out, ",\"data\":{\"s\":");
    push_json_string(out, e.data.s.as_str());
    push_str(out, ",\"t\":");
    push_json_string(out, e.data.t.as_str());
    push_str(out, ",\"d\":");
    push_str(out, e.data.d.as_str());
    push_str(out, "}}");
    assert(out@ =~= start + entry_json(e@));
}

// ---------------------------------------------------------------------------
// Laws
// ---------------------------------------------------------------------------

/// No entries export as the empty text, and one entry as its JSON line.
pub proof fn lemma_ndjson_small(e: EventView)
    ensures
        ndjson(Seq::<EventView>::empty()) == Seq::<char>::empty(),
        ndjson(seq![e]) == entry_json(e),
{
}

/// Exporting two nonempty runs of entries one after the other gives the
/// export of the first, a newline, and the export of the second: one line
/// per entry, lines separated by single newlines.
pub proof fn lemma_ndjson_append(a: Seq<EventView>, b: Seq<EventView>)
    requires
        a.len() > 0,
        b.len() > 0,
    ensures
        ndjson(a + b) == ndjson(a) + seq!['\n'] + ndjson(b),
    decreases b.len(),
{
    let ab = a + b;
    assert(ab.drop_last() =~= a + b.drop_last());
    assert(ab.last() == b.last());
    if b.len() == 1 {
        assert(a + b.drop_last() =~= a);
        assert(ndjson(b) == entry_json(b[0]));
        assert(b.last() == b[0]);
    } else {
        lemma_ndjson_append(a, b.drop_last());
        assert(ndjson(ab) =~= ndjson(a) + seq!['\n'] + ndjson(b));
    }
}

/// After any sequence of pushes into an empty ring, the ring holds exactly
/// the newest `MAX_EVENTS` of them (all of them if there are fewer), in the
/// order they were pushed.
pub proof fn lemma_ring_keeps_newest(entries: Seq<EventView>)
    ensures
        ring_after(entries) == entries.skip(
            if entries.len() > MAX_EVENTS { entries.len() - MAX_EVENTS } else { 0 },
        ),
    decreases entries.len(),
{
    if entries.len() > 0 {
        let prev = entries.drop_last();
        lemma_ring_keeps_newest(prev);
        let k = if prev.len() > MAX_EVENTS { prev.len() - MAX_EVENTS } else { 0 };
        let r = prev.skip(k);
        if r.len() >= MAX_EVENTS {
            assert(r.drop_first().push(entries.last()) =~= entries.skip(
                entries.len() - MAX_EVENTS,
            ));
        } else {
            assert(r.push(entries.last()) =~= entries.skip(0));
        }
    }
}

/// A push never lets the ring grow past `MAX_EVENTS`, and the pushed entry
/// is always the newest.
pub proof fn lemma_ring_push_bounded(ring: Seq<EventView>, e: EventView)
    requires
        ring.len() <= MAX_EVENTS,
    ensures
        ring_push(ring, e).len() <= MAX_EVENTS,
        ring_push(ring, e).last() == e,
{
}

} // verus!
