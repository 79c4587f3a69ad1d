//! Configuration and decisions of the buffered SSE transport: its defaults,
//! the reconnect policy, when to flush, and how an event is cut from the
//! received bytes.
use vstd::prelude::*;
use crate::error::Error;
use crate::shared::simd_parsing::{boundary, char_lines, find_boundary, parse_u64, parse_u64_spec};
use crate::text::{
    append_chars, chars_of, find_char, first_index, has_prefix, lemma_first_index_props,
    starts_with, string_of, utf8_lossy, utf8_lossy_string,
};

verus! {

/// Configuration for the optimized SSE transport. Durations are in
/// milliseconds.
#[derive(Debug, Clone)]
pub struct OptimizedSseConfig {
    /// Base URL for SSE endpoint
    pub url: String,
    /// Connection timeout
    pub connection_timeout_ms: u64,
    /// Keep-alive interval
    pub keepalive_interval_ms: u64,
    /// Maximum reconnect attempts
    pub max_reconnects: usize,
    /// Reconnect delay
    pub reconnect_delay_ms: u64,
    /// Buffer size for event coalescing
    pub buffer_size: usize,
    /// Flush interval for buffered events
    pub flush_interval_ms: u64,
    /// Enable connection pooling
    pub enable_pooling: bool,
    /// Maximum concurrent connections
    pub max_connections: usize,
    /// Enable event compression
    pub enable_compression: bool,
}

impl Default for OptimizedSseConfig {
    fn default() -> (c: OptimizedSseConfig)
        ensures
            c.url@ == "http://localhost:8080/sse"@,
            c.connection_timeout_ms == 30000,
            c.keepalive_interval_ms == 15000,
            c.max_reconnects == 5,
            c.reconnect_delay_ms == 1000,
            c.buffer_size == 100,
            c.flush_interval_ms == 100,
            c.enable_pooling,
            c.max_connections == 10,
            !c.enable_compression,
    {
        OptimizedSseConfig {
            url: "http://localhost:8080/sse".to_owned(),
            connection_timeout_ms: 30000,
            keepalive_interval_ms: 15000,
            max_reconnects: 5,
            reconnect_delay_ms: 1000,
            buffer_size: 100,
            flush_interval_ms: 100,
            enable_pooling: true,
            max_connections: 10,
            enable_compression: false,
        }
    }
}

/// Connection state of the transport.
#[derive(Debug, Clone, Copy, PartialEq, Eq, Structural)]
pub enum ConnectionState {
    /// Not connected
    Disconnected,
    /// Connecting
    Connecting,
    /// Connected
    Connected,
    /// Waiting to reconnect
    Reconnecting,
}

/// What the connection task does after a connection attempt ended.
#[derive(Debug, Clone, Copy, PartialEq, Eq, Structural)]
pub enum ReconnectAction {
    /// Connect again at once
    ConnectAgain,
    /// Mark the connection as reconnecting, wait the delay, then connect again
    RetryAfterDelay,
    /// Give up: the reconnect limit is reached
    GiveUp,
}

/// After a connection that closed normally the count starts over; after a
/// failed one it grows, and the task gives up once it reaches the limit.
pub fn after_connection(reconnect_count: usize, max_reconnects: usize, succeeded: bool) -> (r: (
    usize,
    ReconnectAction,
))
    requires
        reconnect_count < usize::MAX,
    ensures
        succeeded ==> r == (0usize, ReconnectAction::ConnectAgain),
        !succeeded ==> r.0 == reconnect_count + 1 && r.1 == if reconnect_count + 1 >= max_reconnects {
            ReconnectAction::GiveUp
        } else {
            ReconnectAction::RetryAfterDelay
        },
{
    if succeeded {
        (0, ReconnectAction::ConnectAgain)
    } else {
        let count = reconnect_count + 1;
        if count >= max_reconnects {
            (count, ReconnectAction::GiveUp)
        } else {
            (count, ReconnectAction::RetryAfterDelay)
        }
    }
}

/// Buffered events are sent when a new one fills the buffer.
pub fn should_flush_on_push(buffered: usize, buffer_size: usize) -> (b: bool)
    ensures
        b == (buffered >= buffer_size),
{
    buffered >= buffer_size
}

/// A flush sends only while connected, and only when something is buffered.
pub fn can_flush(state: ConnectionState, buffered: usize) -> (b: bool)
    ensures
        b == (state == ConnectionState::Connected && buffered > 0),
{
    match state {
        ConnectionState::Connected => buffered > 0,
        _ => false,
    }
}

/// An event read by the transport.
#[derive(Debug, Clone, PartialEq, Eq)]
pub struct SseEvent {
    /// Event data
    pub data: String,
    /// Event type
    pub event: Option<String>,
    /// Event ID
    pub id: Option<String>,
    /// Retry interval in milliseconds
    pub retry_ms: Option<u64>,
}

/// Event type, id, retry and data gathered from lines.
pub type EventFields = (Option<Seq<char>>, Option<Seq<char>>, Option<u64>, Seq<char>);

/// The view of an event.
pub open spec fn sse_event_fields(e: SseEvent) -> EventFields {
    (
        match e.event {
            Some(s) => Some(s@),
            None => None,
        },
        match e.id {
            Some(s) => Some(s@),
            None => None,
        },
        e.retry_ms,
        e.data@,
    )
}

/// A line without one trailing carriage return.
pub open spec fn strip_cr(l: Seq<char>) -> Seq<char> {
    if l.len() > 0 && l.last() == '\r' {
        l.drop_last()
    } else {
        l
    }
}

/// What one line contributes: `data: ` appends its text and a line feed,
/// `event: `, `id: ` and `retry: ` (when a number) set their field, anything
/// else is ignored.
pub open spec fn event_line(acc: EventFields, line: Seq<char>) -> EventFields {
    if has_prefix(line, "data: "@) {
        (acc.0, acc.1, acc.2, acc.3 + line.subrange(6, line.len() as int) + seq!['\n'])
    } else if has_prefix(line, "event: "@) {
        (Some(line.subrange(7, line.len() as int)), acc.1, acc.2, acc.3)
    } else if has_prefix(line, "id: "@) {
        (acc.0, Some(line.subrange(4, line.len() as int)), acc.2, acc.3)
    } else if has_prefix(line, "retry: "@) {
        match parse_u64_spec(line.subrange(7, line.len() as int)) {
            Some(n) => (acc.0, acc.1, Some(n), acc.3),
            None => acc,
        }
    } else {
        acc
    }
}

/// Fields gathered from the pieces of a text split at `\n`: every piece that
/// a `\n` ended loses a trailing `\r` (`str::lines`).
pub open spec fn event_fold(acc: EventFields, pieces: Seq<Seq<char>>) -> EventFields
    decreases pieces.len(),
{
    if pieces.len() == 0 {
        acc
    } else if pieces.len() == 1 {
        event_line(acc, pieces[0])
    } else {
        event_fold(event_line(acc, strip_cr(pieces[0])), pieces.drop_first())
    }
}

/// The event of a block of bytes: the gathered fields with the last line
/// feed of the data removed, present when data remains.
pub open spec fn block_event(block: Seq<u8>) -> Option<EventFields> {
    let f = event_fold((None, None, None, Seq::empty()), char_lines(utf8_lossy(block)));
    let data = if f.3.len() > 0 && f.3.last() == '\n' {
        f.3.drop_last()
    } else {
        f.3
    };
    if data.len() > 0 {
        Some((f.0, f.1, f.2, data))
    } else {
        None
    }
}

/// Fields being gathered.
struct Gathering {
    event: Option<String>,
    id: Option<String>,
    retry: Option<u64>,
    data: Vec<char>,
}

spec fn gathering_view(g: Gathering) -> EventFields {
    (
        match g.event {
            Some(s) => Some(s@),
            None => None,
        },
        match g.id {
            Some(s) => Some(s@),
            None => None,
        },
        g.retry,
        g.data@,
    )
}

/// Applies the line `cs[from..to]`.
fn apply_event_line(g: &mut Gathering, cs: &[char], from: usize, to: usize)
    requires
        from <= to <= cs@.len(),
    ensures
        gathering_view(*final(g)) == event_line(
            gathering_view(*old(g)),
            cs@.subrange(from as int, to as int),
        ),
{
    let line = &cs[from..to];
    let ghost l = cs@.subrange(from as int, to as int);
    assert(line@ == l);
    proof {
        reveal_strlit("data: ");
        reveal_strlit("event: ");
        reveal_strlit("id: ");
        reveal_strlit("retry: ");
    }
    if starts_with(line, "data: ") {
        assert(line@.subrange(6, line@.len() as int) == cs@.subrange(from + 6, to as int));
        append_chars(&mut g.data, &cs[from + 6..to]);
        g.data.push('\n');
    } else if starts_with(line, "event: ") {
        assert(line@.subrange(7, line@.len() as int) == cs@.subrange(from + 7, to as int));
        g.event = Some(string_of(&cs[from + 7..to]));
    } else if starts_with(line, "id: ") {
        assert(line@.subrange(4, line@.len() as int) == cs@.subrange(from + 4, to as int));
        g.id = Some(string_of(&cs[from + 4..to]));
    } else if starts_with(line, "retry: ") {
        assert(line@.subrange(7, line@.len() as int) == cs@.subrange(from + 7, to as int));
        match parse_u64(cs, from + 7, to) {
            Some(n) => {
                g.retry = Some(n);
            },
            None => {},
        }
    }
}

/// Cut the first complete event (ended by a blank line) from the front of
/// the buffer and parse it. Without a complete event nothing is taken and
/// the result is `None`; a complete event without data is taken and also
/// gives `None`.
pub fn parse_sse_event(buffer: &mut Vec<u8>) -> (r: Result<Option<SseEvent>, Error>)
    ensures
        match boundary(old(buffer)@, false) {
            None => r == Ok::<Option<SseEvent>, Error>(None) && final(buffer)@ == old(buffer)@,
            Some(e) => {
                &&& final(buffer)@ == old(buffer)@.subrange(e, old(buffer)@.len() as int)
                &&& r matches Ok(x) && match x {
                    Some(ev) => block_event(old(buffer)@.subrange(0, e)) == Some(sse_event_fields(ev)),
                    None => block_event(old(buffer)@.subrange(0, e)) is None,
                }
            },
        },
{
    assert(buffer@.subrange(0, buffer@.len() as int) == buffer@);
    let end = match find_boundary(buffer.as_slice(), 0, false) {
        None => {
            return Ok(None);
        },
        Some(e) => e,
    };
    proof {
        crate::shared::simd_parsing::lemma_boundary_range(buffer@, 0, false);
    }
    let ghost all = buffer@;
    let mut block = buffer.split_off(end);
    std::mem::swap(buffer, &mut block);
    assert(block@ == all.subrange(0, end as int));
    let text = utf8_lossy_string(block.as_slice());
    let cs = chars_of(text.as_str());
    let len = cs.len();
    let mut g = Gathering { event: None, id: None, retry: None, data: Vec::new() };
    let ghost target = event_fold((None, None, None, Seq::empty()), char_lines(cs@));
    let mut start: usize = 0;
    assert(cs@.subrange(0, len as int) == cs@);
    loop
        invariant_except_break
            len == cs@.len(),
            start <= len,
            target == event_fold(gathering_view(g), char_lines(cs@.subrange(start as int, len as int))),
        ensures
            gathering_view(g) == target,
        decreases len - start,
    {
        let ghost tail = cs@.subrange(start as int, len as int);
        proof {
            lemma_first_index_props(tail, '\n');
        }
        match find_char(cs.as_slice(), start, len, '\n') {
            None => {
                proof {
                    assert(tail.subrange(0, tail.len() as int) == tail);
                    assert(char_lines(tail) == seq![tail]);
                }
                apply_event_line(&mut g, cs.as_slice(), start, len);
                break;
            },
            Some(i) => {
                let line_end = start + i;
                let mut stop = line_end;
                if stop > start && cs[stop - 1] == '\r' {
                    stop = stop - 1;
                }
                proof {
                    let piece = tail.subrange(0, i as int);
                    assert(piece == cs@.subrange(start as int, line_end as int));
                    assert(tail.subrange(i + 1, tail.len() as int) == cs@.subrange(
                        line_end + 1,
                        len as int,
                    ));
                    let after = char_lines(tail.subrange(i + 1, tail.len() as int));
                    assert(char_lines(tail) == seq![piece] + after);
                    assert((seq![piece] + after).drop_first() == after);
                    assert(after.len() >= 1);
                    assert(strip_cr(piece) == cs@.subrange(start as int, stop as int));
                }
                apply_event_line(&mut g, cs.as_slice(), start, stop);
                start = line_end + 1;
            },
        }
    }
    let mut data = g.data;
    if data.len() > 0 && data[data.len() - 1] == '\n' {
        data.pop();
    }
    if data.len() > 0 {
        Ok(Some(SseEvent { data: string_of(data.as_slice()), event: g.event, id: g.id, retry_ms: g.retry }))
    } else {
        Ok(None)
    }
}


/// The texts of the `data: ` lines among the pieces of a text split at
/// `\n` (a piece that a `\n` ended loses a trailing `\r`), in order.
pub open spec fn data_payloads(pieces: Seq<Seq<char>>) -> Seq<Seq<char>>
    decreases pieces.len(),
{
    if pieces.len() == 0 {
        Seq::empty()
    } else {
        let line = if pieces.len() == 1 {
            pieces[0]
        } else {
            strip_cr(pieces[0])
        };
        let rest = data_payloads(pieces.drop_first());
        if has_prefix(line, "data: "@) {
            seq![line.subrange(6, line.len() as int)] + rest
        } else {
            rest
        }
    }
}

/// The messages of a response body read as an event stream: the text after
/// `data: ` on each line that starts with it, in order.
pub fn stream_payloads(body: &str) -> (v: Vec<String>)
    ensures
        v@.map_values(|s: String| s@) == data_payloads(char_lines(body@)),
{
    let cs = chars_of(body);
    let len = cs.len();
    let mut out: Vec<String> = Vec::new();
    let ghost target = data_payloads(char_lines(cs@));
    let mut start: usize = 0;
    assert(cs@.subrange(0, len as int) == cs@);
    proof {
        reveal_strlit("data: ");
    }
    loop
        invariant_except_break
            len == cs@.len(),
            start <= len,
            target == out@.map_values(|s: String| s@) + data_payloads(
                char_lines(cs@.subrange(start as int, len as int)),
            ),
        ensures
            out@.map_values(|s: String| s@) == target,
        decreases len - start,
    {
        let ghost tail = cs@.subrange(start as int, len as int);
        let ghost before = out@.map_values(|s: String| s@);
        proof {
            lemma_first_index_props(tail, '\n');
            reveal_strlit("data: ");
        }
        let (stop, next, last) = match find_char(cs.as_slice(), start, len, '\n') {
            None => {
                proof {
                    assert(tail.subrange(0, tail.len() as int) == tail);
                    assert(char_lines(tail) == seq![tail]);
                    assert(seq![tail].drop_first() =~= Seq::<Seq<char>>::empty());
                    assert(data_payloads(seq![tail].drop_first()) == Seq::<Seq<char>>::empty());
                    assert(len - start == tail.len());
                }
                (len, len, true)
            },
            Some(i) => {
                let line_end = start + i;
                let mut stop = line_end;
                if stop > start && cs[stop - 1] == '\r' {
                    stop = stop - 1;
                }
                proof {
                    let piece = tail.subrange(0, i as int);
                    assert(piece == cs@.subrange(start as int, line_end as int));
                    assert(tail.subrange(i + 1, tail.len() as int) == cs@.subrange(
                        line_end + 1,
                        len as int,
                    ));
                    let after = char_lines(tail.subrange(i + 1, tail.len() as int));
                    assert(char_lines(tail) == seq![piece] + after);
                    assert((seq![piece] + after).drop_first() == after);
                    assert(after.len() >= 1);
                    assert(strip_cr(piece) == cs@.subrange(start as int, stop as int));
                }
                (stop, line_end + 1, false)
            },
        };
        let line = &cs[start..stop];
        assert(line@ == cs@.subrange(start as int, stop as int));
        proof {
            if last {
                assert(line@ == tail);
            }
        }
        if starts_with(line, "data: ") {
            let payload = string_of(&cs[start + 6..stop]);
            assert(payload@ == line@.subrange(6, line@.len() as int));
            out.push(payload);
            proof {
                assert(out@.map_values(|s: String| s@) =~= before.push(payload@));
            }
        }
        if last {
            break;
        }
        start = next;
    }
    out
}


/// Where keep-alive pings go: the endpoint's `/ping`.
pub fn keepalive_url(url: &str) -> (r: String)
    ensures
        r@ == url@ + "/ping"@,
{
    let mut v = chars_of(url);
    crate::text::extend_chars(&mut v, "/ping");
    string_of(v.as_slice())
}

} // verus!
