//! Parsing for JSON-RPC framing, Server-Sent Events, HTTP headers and Base64.
//!
//! The CPU features that the parsers consult are detected by the caller and
//! handed in; the SSE event boundary search depends on them.
use vstd::prelude::*;
use crate::error::Error;
use crate::server::validation::str_eq;
use crate::text::{
    append_chars, chars_of, extend_chars, find_char, trim_end, first_index, has_prefix, is_ascii_ws,
    lemma_first_index_at, lemma_first_index_none, lemma_first_index_props, lowercase, string_of,
    to_lowercase_string, trim, trim_ascii_end, trim_bounds, trim_start, utf8_lossy,
    utf8_lossy_string,
};

verus! {

/// CPU feature detection results.
#[derive(Debug, Clone, Copy, PartialEq, Eq, Structural)]
pub struct CpuFeatures {
    /// AVX2 support available
    pub avx2: bool,
    /// SSE4.2 support available
    pub sse42: bool,
    /// SSSE3 support available
    pub ssse3: bool,
}

// ---------------------------------------------------------------------------
// JSON structure pre-check and parse counters
// ---------------------------------------------------------------------------

/// The state of the brace scan after some bytes: depth, inside a string,
/// after a backslash in a string, and whether a closing brace went below zero.
pub open spec fn brace_scan(input: Seq<u8>) -> (int, bool, bool, bool)
    decreases input.len(),
{
    if input.len() == 0 {
        (0, false, false, false)
    } else {
        let (depth, in_string, escaped, broken) = brace_scan(input.drop_last());
        let b = input.last();
        if broken {
            (depth, in_string, escaped, true)
        } else if escaped {
            (depth, in_string, false, false)
        } else if b == 0x22u8 {
            (depth, !in_string, false, false)
        } else if b == 0x5cu8 && in_string {
            (depth, in_string, true, false)
        } else if b == 0x7bu8 && !in_string {
            (depth + 1, in_string, false, false)
        } else if b == 0x7du8 && !in_string {
            if depth - 1 < 0 {
                (depth - 1, in_string, false, true)
            } else {
                (depth - 1, in_string, false, false)
            }
        } else {
            (depth, in_string, false, false)
        }
    }
}

/// The quick structural check: non-empty, braces outside strings balanced
/// and never closing below zero, and no string left open.
pub open spec fn json_structure_ok(input: Seq<u8>) -> bool {
    let (depth, in_string, _, broken) = brace_scan(input);
    input.len() > 0 && !broken && depth == 0 && !in_string
}

/// Counters of the JSON parser.
#[derive(Debug, Clone, Copy, PartialEq, Eq)]
pub struct ParsingMetrics {
    /// Total bytes processed
    pub total_bytes_processed: u64,
    /// Total number of documents parsed
    pub total_documents_parsed: u64,
    /// Total parsing time in nanoseconds
    pub total_time_ns: u64,
    /// Average parsing time in nanoseconds
    pub average_parse_time_ns: u64,
    /// Number of accelerated pre-checks that passed
    pub simd_operations_used: u64,
    /// Number of pre-checks that rejected the input
    pub fallback_operations: u64,
}

/// JSON-RPC parser front end: the structural pre-check and the counters.
#[derive(Debug)]
pub struct SimdJsonParser {
    features: CpuFeatures,
    total_bytes: u64,
    total_docs: u64,
    total_time_ns: u64,
    simd_ops: u64,
    fallback_ops: u64,
}

impl SimdJsonParser {
    /// The CPU features this parser was created with.
    pub closed spec fn features(&self) -> CpuFeatures {
        self.features
    }

    /// The counters, without the average.
    pub closed spec fn counters(&self) -> (u64, u64, u64, u64, u64) {
        (self.total_bytes, self.total_docs, self.total_time_ns, self.simd_ops, self.fallback_ops)
    }

    /// Create a new parser for the given CPU features; all counters are zero.
    pub fn new(features: CpuFeatures) -> (p: SimdJsonParser)
        ensures
            p.features() == features,
            p.counters() == (0u64, 0u64, 0u64, 0u64, 0u64),
    {
        SimdJsonParser {
            features,
            total_bytes: 0,
            total_docs: 0,
            total_time_ns: 0,
            simd_ops: 0,
            fallback_ops: 0,
        }
    }

    /// Validate JSON structure: balanced braces outside strings.
    pub fn validate_json_structure(&self, input: &[u8]) -> (b: bool)
        requires
            input@.len() <= i64::MAX,
        ensures
            b == json_structure_ok(input@),
    {
        if input.len() == 0 {
            return false;
        }
        let mut depth: i64 = 0;
        let mut in_string = false;
        let mut escaped = false;
        let mut i: usize = 0;
        while i < input.len()
            invariant
                i <= input@.len(),
                brace_scan(input@.subrange(0, i as int)) == (depth as int, in_string, escaped, false),
                -1 <= depth <= i,
                input@.len() <= i64::MAX,
            decreases input@.len() - i,
        {
            let b = input[i];
            assert(input@.subrange(0, i + 1).drop_last() == input@.subrange(0, i as int));
            if escaped {
                escaped = false;
            } else if b == 0x22u8 {
                in_string = !in_string;
            } else if b == 0x5cu8 && in_string {
                escaped = true;
            } else if b == 0x7bu8 && !in_string {
                depth = depth + 1;
            } else if b == 0x7du8 && !in_string {
                depth = depth - 1;
                if depth < 0 {
                    proof {
                        lemma_brace_scan_broken_stays(input@, i + 1);
                    }
                    return false;
                }
            }
            i = i + 1;
        }
        assert(input@.subrange(0, input@.len() as int) == input@);
        depth == 0 && !in_string
    }

    /// The pre-check before a request or response is deserialised. When an
    /// accelerated feature (AVX2 or SSE4.2) is present the structure is
    /// checked: a rejection counts as a fallback and is a parse error, a pass
    /// counts as an accelerated operation. Without those features nothing is
    /// checked or counted.
    pub fn precheck(&mut self, input: &[u8]) -> (r: Result<(), Error>)
        requires
            input@.len() <= i64::MAX,
        ensures
            final(self).features() == old(self).features(),
            !(old(self).features().avx2 || old(self).features().sse42) ==> r is Ok && final(self).counters()
                == old(self).counters(),
            (old(self).features().avx2 || old(self).features().sse42) ==> {
                let (b, d, t, s, f) = old(self).counters();
                if json_structure_ok(input@) {
                    r is Ok && final(self).counters() == (b, d, t, s.wrapping_add(1), f)
                } else {
                    r matches Err(Error::Protocol { code, message, data }) && code.0 == -32700
                        && message@ == "Invalid JSON structure detected by SIMD validation"@
                        && data is None && final(self).counters() == (b, d, t, s, f.wrapping_add(1))
                }
            },
    {
        if self.features.avx2 || self.features.sse42 {
            if !self.validate_json_structure(input) {
                self.fallback_ops = self.fallback_ops.wrapping_add(1);
                return Err(Error::parse("Invalid JSON structure detected by SIMD validation"));
            }
            self.simd_ops = self.simd_ops.wrapping_add(1);
        }
        Ok(())
    }

    /// Records a parsed document of `bytes_len` bytes that took `elapsed_ns`.
    /// The counters wrap around as atomic additions do.
    pub fn update_metrics(&mut self, bytes_len: usize, elapsed_ns: u64)
        ensures
            final(self).features() == old(self).features(),
            ({
                let (b, d, t, s, f) = old(self).counters();
                final(self).counters() == (
                    b.wrapping_add(bytes_len as u64),
                    d.wrapping_add(1),
                    t.wrapping_add(elapsed_ns),
                    s,
                    f,
                )
            }),
    {
        self.total_bytes = self.total_bytes.wrapping_add(bytes_len as u64);
        self.total_docs = self.total_docs.wrapping_add(1);
        self.total_time_ns = self.total_time_ns.wrapping_add(elapsed_ns);
    }

    /// Get current parsing metrics; the average is zero before any document.
    pub fn get_metrics(&self) -> (m: ParsingMetrics)
        ensures
            m.total_bytes_processed == self.counters().0,
            m.total_documents_parsed == self.counters().1,
            m.total_time_ns == self.counters().2,
            m.simd_operations_used == self.counters().3,
            m.fallback_operations == self.counters().4,
            m.average_parse_time_ns == (if self.counters().1 > 0 {
                self.counters().2 / self.counters().1
            } else {
                0
            }),
    {
        let average = if self.total_docs > 0 {
            self.total_time_ns / self.total_docs
        } else {
            0
        };
        ParsingMetrics {
            total_bytes_processed: self.total_bytes,
            total_documents_parsed: self.total_docs,
            total_time_ns: self.total_time_ns,
            average_parse_time_ns: average,
            simd_operations_used: self.simd_ops,
            fallback_operations: self.fallback_ops,
        }
    }

    /// Get detected CPU features.
    pub fn get_cpu_features(&self) -> (f: CpuFeatures)
        ensures
            f == self.features(),
    {
        self.features
    }
}

/// Once a closing brace went below zero, the scan stays broken.
proof fn lemma_brace_scan_broken_stays(input: Seq<u8>, i: int)
    requires
        0 < i <= input.len(),
        brace_scan(input.subrange(0, i)).3,
    ensures
        brace_scan(input).3,
    decreases input.len() - i,
{
    if i < input.len() {
        assert(input.subrange(0, i + 1).drop_last() == input.subrange(0, i));
        assert(brace_scan(input.subrange(0, i + 1)).3);
        lemma_brace_scan_broken_stays(input, i + 1);
    } else {
        assert(input.subrange(0, i) == input);
    }
}

// ---------------------------------------------------------------------------
// Server-Sent Events
// ---------------------------------------------------------------------------

/// A Server-Sent Event.
#[derive(Debug, Clone, PartialEq, Eq)]
pub struct SseEvent {
    /// Event type
    pub event: Option<String>,
    /// Event data
    pub data: String,
    /// Event ID
    pub id: Option<String>,
    /// Retry interval in milliseconds
    pub retry: Option<u64>,
}

impl SseEvent {
    /// Create an event with the given data and no other field.
    pub fn new(data: &str) -> (e: SseEvent)
        ensures
            e.data@ == data@,
            e.event is None,
            e.id is None,
            e.retry is None,
    {
        SseEvent { event: None, data: data.to_owned(), id: None, retry: None }
    }
}

/// The fields gathered from an event's lines: event type, id, retry and data.
pub type SseFields = (Option<Seq<char>>, Option<Seq<char>>, Option<u64>, Seq<char>);

/// The view of an event.
pub open spec fn event_fields(e: SseEvent) -> SseFields {
    (
        match e.event {
            Some(s) => Some(s@),
            None => None,
        },
        match e.id {
            Some(s) => Some(s@),
            None => None,
        },
        e.retry,
        e.data@,
    )
}

/// Where the next event ends in `d`, searching from `i`: just after the
/// first blank line, `\n\n`, or, when `crlf` is set, also `\r\n\r\n`,
/// whichever starts first.
pub open spec fn boundary_from(d: Seq<u8>, i: int, crlf: bool) -> Option<int>
    decreases d.len() - i,
{
    if i < 0 || i + 1 >= d.len() {
        None
    } else if d[i] == 0x0au8 && d[i + 1] == 0x0au8 {
        Some(i + 2)
    } else if crlf && i + 3 < d.len() && d[i] == 0x0du8 && d[i + 1] == 0x0au8 && d[i + 2] == 0x0du8
        && d[i + 3] == 0x0au8 {
        Some(i + 4)
    } else {
        boundary_from(d, i + 1, crlf)
    }
}

/// Where the first event of `d` ends.
pub open spec fn boundary(d: Seq<u8>, crlf: bool) -> Option<int> {
    boundary_from(d, 0, crlf)
}

/// A boundary lies after at least two bytes, within the data, just after a `\n`.
pub proof fn lemma_boundary_range(d: Seq<u8>, i: int, crlf: bool)
    requires
        0 <= i,
    ensures
        boundary_from(d, i, crlf) matches Some(e) ==> i + 2 <= e <= d.len() && d[e - 1]
            == 0x0au8,
    decreases d.len() - i,
{
    if i + 1 < d.len() {
        lemma_boundary_range(d, i + 1, crlf);
    }
}

/// A boundary found in some bytes is found again when more bytes follow.
proof fn lemma_boundary_extend(x: Seq<u8>, y: Seq<u8>, i: int, crlf: bool)
    requires
        0 <= i,
        boundary_from(x, i, crlf) is Some,
    ensures
        boundary_from(x + y, i, crlf) == boundary_from(x, i, crlf),
    decreases x.len() - i,
{
    let xy = x + y;
    lemma_boundary_range(x, i, crlf);
    assert(xy[i] == x[i]);
    assert(xy[i + 1] == x[i + 1]);
    if x[i] == 0x0au8 && x[i + 1] == 0x0au8 {
    } else if crlf && i + 3 < x.len() && x[i] == 0x0du8 && x[i + 1] == 0x0au8 && x[i + 2] == 0x0du8
        && x[i + 3] == 0x0au8 {
        assert(xy[i + 2] == x[i + 2]);
        assert(xy[i + 3] == x[i + 3]);
    } else {
        lemma_boundary_extend(x, y, i + 1, crlf);
        lemma_boundary_range(x, i + 1, crlf);
        if i + 3 < x.len() {
            assert(xy[i + 2] == x[i + 2]);
            assert(xy[i + 3] == x[i + 3]);
        } else if crlf && i + 3 < xy.len() {
            let e = boundary_from(x, i + 1, crlf)->0;
            assert(e == x.len());
            assert(xy[i + 2] == x[i + 2]);
        }
    }
}

/// Splitting bytes that are followed by more bytes: the complete events of
/// the first part stay, and the rest is split together with what follows.
proof fn lemma_split_append(x: Seq<u8>, y: Seq<u8>, crlf: bool)
    ensures
        ({
            let (c1, r1) = split_events(x, crlf);
            let (c2, r2) = split_events(r1 + y, crlf);
            split_events(x + y, crlf) == (c1 + c2, r2)
        }),
    decreases x.len(),
{
    lemma_boundary_range(x, 0, crlf);
    match boundary(x, crlf) {
        Some(e) => {
            lemma_boundary_extend(x, y, 0, crlf);
            let xy = x + y;
            let tx = x.subrange(e, x.len() as int);
            assert(xy.subrange(0, e) == x.subrange(0, e));
            assert(xy.subrange(e, xy.len() as int) == tx + y);
            lemma_split_append(tx, y, crlf);
            let (c1, r1) = split_events(tx, crlf);
            let (c2, r2) = split_events(r1 + y, crlf);
            assert(seq![x.subrange(0, e)] + (c1 + c2) == (seq![x.subrange(0, e)] + c1) + c2);
        },
        None => {
            assert(Seq::<Seq<u8>>::empty() + split_events(x + y, crlf).0 == split_events(
                x + y,
                crlf,
            ).0);
        },
    }
}

/// The events of two runs of blocks are those of the first, then those of
/// the second.
proof fn lemma_events_of_concat(c1: Seq<Seq<u8>>, c2: Seq<Seq<u8>>)
    ensures
        events_of(c1 + c2) == events_of(c1) + events_of(c2),
    decreases c2.len(),
{
    if c2.len() == 0 {
        assert(c1 + c2 == c1);
        assert(events_of(c1) + events_of(c2) == events_of(c1));
    } else {
        lemma_events_of_concat(c1, c2.drop_last());
        assert((c1 + c2).drop_last() == c1 + c2.drop_last());
        assert((c1 + c2).last() == c2.last());
        match parse_event_spec(c2.last()) {
            Some(f) => {
                assert((events_of(c1) + events_of(c2.drop_last())).push(f) == events_of(c1) + events_of(
                    c2.drop_last(),
                ).push(f));
            },
            None => {},
        }
    }
}

/// Feeding a stream to the SSE parser in two chunks gives the same events,
/// in the same order, and leaves the same bytes pending, as feeding both
/// chunks at once.
pub proof fn lemma_sse_chunking(pending: Seq<u8>, a: Seq<u8>, b: Seq<u8>, crlf: bool)
    ensures
        ({
            let (c1, r1) = split_events(pending + a, crlf);
            let (c2, r2) = split_events(r1 + b, crlf);
            let (c, r) = split_events(pending + (a + b), crlf);
            &&& events_of(c) == events_of(c1) + events_of(c2)
            &&& r == r2
        }),
{
    assert(pending + (a + b) == (pending + a) + b);
    lemma_split_append(pending + a, b, crlf);
    let (c1, r1) = split_events(pending + a, crlf);
    let (c2, r2) = split_events(r1 + b, crlf);
    lemma_events_of_concat(c1, c2);
}


/// One call of the SSE parser: with `before` pending, `data` arriving, the
/// events given are `events` and `after` stays pending.
pub open spec fn chunk_parsed(
    before: Seq<u8>,
    data: Seq<u8>,
    crlf: bool,
    events: Seq<SseFields>,
    after: Seq<u8>,
) -> bool {
    let (chunks, rest) = split_events(before + data, crlf);
    &&& events == events_of(chunks)
    &&& after == rest
}

/// Splitting the input of the SSE parser anywhere changes nothing: a parser
/// fed `a` and then `b` gives, over the two calls, the events, in order, and
/// leaves pending the bytes that a parser in the same state fed `a + b` in
/// one call gives and leaves.
pub proof fn lemma_parse_chunk_split(
    pending: Seq<u8>,
    a: Seq<u8>,
    b: Seq<u8>,
    crlf: bool,
    first: Seq<SseFields>,
    middle: Seq<u8>,
    second: Seq<SseFields>,
    end: Seq<u8>,
    whole: Seq<SseFields>,
    whole_end: Seq<u8>,
)
    requires
        chunk_parsed(pending, a, crlf, first, middle),
        chunk_parsed(middle, b, crlf, second, end),
        chunk_parsed(pending, a + b, crlf, whole, whole_end),
    ensures
        whole == first + second,
        whole_end == end,
{
    lemma_sse_chunking(pending, a, b, crlf);
}

/// The complete events of a buffer, each with its terminating blank line,
/// and what is left after them.
pub open spec fn split_events(buf: Seq<u8>, crlf: bool) -> (Seq<Seq<u8>>, Seq<u8>)
    decreases buf.len(),
{
    match boundary(buf, crlf) {
        Some(e) => {
            if 2 <= e <= buf.len() {
                let (cs, rest) = split_events(buf.subrange(e, buf.len() as int), crlf);
                (seq![buf.subrange(0, e)] + cs, rest)
            } else {
                (Seq::<Seq<u8>>::empty(), buf)
            }
        },
        None => (Seq::<Seq<u8>>::empty(), buf),
    }
}

/// Index of the first occurrence of `b` in `d`.
pub open spec fn first_byte(d: Seq<u8>, b: u8) -> Option<int>
    decreases d.len(),
{
    if d.len() == 0 {
        None
    } else if d[0] == b {
        Some(0)
    } else {
        match first_byte(d.drop_first(), b) {
            Some(i) => Some(i + 1),
            None => None,
        }
    }
}

/// The lines of a byte sequence split at every `\n` (`<[u8]>::split`),
/// empty ones included.
pub open spec fn byte_lines(d: Seq<u8>) -> Seq<Seq<u8>>
    decreases d.len(),
{
    match first_byte(d, 0x0au8) {
        None => seq![d],
        Some(i) => {
            if 0 <= i < d.len() {
                seq![d.subrange(0, i)] + byte_lines(d.subrange(i + 1, d.len() as int))
            } else {
                seq![d]
            }
        },
    }
}

/// The ASCII digit value of a character.
pub open spec fn digit_value(c: char) -> nat {
    ((c as u32) - 0x30) as nat
}

/// A character is an ASCII digit.
pub open spec fn is_digit(c: char) -> bool {
    0x30 <= (c as u32) <= 0x39
}

/// The value of a sequence of decimal digits.
pub open spec fn digits_value(s: Seq<char>) -> nat
    decreases s.len(),
{
    if s.len() == 0 {
        0
    } else {
        digits_value(s.drop_last()) * 10 + digit_value(s.last())
    }
}

/// The digits of an unsigned number: the text without a leading `+`.
pub open spec fn unsigned_digits(s: Seq<char>) -> Seq<char> {
    if s.len() > 0 && s[0] == '+' {
        s.drop_first()
    } else {
        s
    }
}

/// Every character is a decimal digit.
pub open spec fn all_digits(d: Seq<char>) -> bool {
    forall|i: int| 0 <= i < d.len() ==> is_digit(#[trigger] d[i])
}

/// `u64::from_str`: an optional `+`, then one or more decimal digits whose
/// value fits in 64 bits.
pub open spec fn parse_u64_spec(s: Seq<char>) -> Option<u64> {
    let d = unsigned_digits(s);
    if d.len() == 0 || !all_digits(d) {
        None
    } else if digits_value(d) > u64::MAX {
        None
    } else {
        Some(digits_value(d) as u64)
    }
}

/// What one line of an event contributes to its fields. Empty lines,
/// comments (a leading `:`) and lines without `:` contribute nothing;
/// otherwise the name before the first `:` selects the field and the value is
/// what follows it, leading whitespace removed. Data values are joined by
/// `\n`; a retry that is not a number is ignored; unknown names are ignored.
pub open spec fn apply_line(acc: SseFields, text: Seq<char>) -> SseFields {
    if text.len() == 0 || text[0] == ':' {
        acc
    } else {
        match first_index(text, ':') {
            None => acc,
            Some(p) => {
                let field = text.subrange(0, p);
                let value = trim_start(text.subrange(p + 1, text.len() as int));
                if field == "event"@ {
                    (Some(value), acc.1, acc.2, acc.3)
                } else if field == "id"@ {
                    (acc.0, Some(value), acc.2, acc.3)
                } else if field == "retry"@ {
                    match parse_u64_spec(value) {
                        Some(n) => (acc.0, acc.1, Some(n), acc.3),
                        None => acc,
                    }
                } else if field == "data"@ {
                    (
                        acc.0,
                        acc.1,
                        acc.2,
                        if acc.3.len() > 0 {
                            acc.3 + seq!['\n'] + value
                        } else {
                            acc.3 + value
                        },
                    )
                } else {
                    acc
                }
            },
        }
    }
}

/// The text of a line: trailing ASCII whitespace removed, then decoded.
pub open spec fn line_text(line: Seq<u8>) -> Seq<char> {
    utf8_lossy(trim_ascii_end(line))
}

/// The fields gathered from lines, in order.
pub open spec fn gather(lines: Seq<Seq<u8>>) -> SseFields
    decreases lines.len(),
{
    if lines.len() == 0 {
        (None, None, None, Seq::<char>::empty())
    } else {
        apply_line(gather(lines.drop_last()), line_text(lines.last()))
    }
}

/// The event of a block of lines: present when it carries data.
pub open spec fn parse_event_spec(d: Seq<u8>) -> Option<SseFields> {
    let f = gather(byte_lines(d));
    if f.3.len() > 0 {
        Some(f)
    } else {
        None
    }
}

/// The events of complete blocks, those without data left out.
pub open spec fn events_of(chunks: Seq<Seq<u8>>) -> Seq<SseFields>
    decreases chunks.len(),
{
    if chunks.len() == 0 {
        Seq::<SseFields>::empty()
    } else {
        match parse_event_spec(chunks.last()) {
            Some(f) => events_of(chunks.drop_last()).push(f),
            None => events_of(chunks.drop_last()),
        }
    }
}

/// The views of events.
pub open spec fn events_view(v: Seq<SseEvent>) -> Seq<SseFields> {
    v.map_values(|e: SseEvent| event_fields(e))
}

/// Digits only grow in value as more are appended.
proof fn lemma_digits_value_monotone(s: Seq<char>, k: int)
    requires
        0 <= k <= s.len(),
    ensures
        digits_value(s.subrange(0, k)) <= digits_value(s),
    decreases s.len() - k,
{
    if k < s.len() {
        lemma_digits_value_monotone(s, k + 1);
        assert(s.subrange(0, k + 1).drop_last() == s.subrange(0, k));
    } else {
        assert(s.subrange(0, k) == s);
    }
}

/// A value that `u64::from_str` parses from `cs[from..to]`.
pub fn parse_u64(cs: &[char], from: usize, to: usize) -> (r: Option<u64>)
    requires
        from <= to <= cs@.len(),
    ensures
        r == parse_u64_spec(cs@.subrange(from as int, to as int)),
{
    let ghost s = cs@.subrange(from as int, to as int);
    let mut start = from;
    if start < to && cs[start] == '+' {
        start = start + 1;
    }
    let ghost d = cs@.subrange(start as int, to as int);
    assert(d =~= unsigned_digits(s));
    if start == to {
        return None;
    }
    let mut value: u64 = 0;
    let mut overflow = false;
    let mut i = start;
    while i < to
        invariant
            from <= start < to <= cs@.len(),
            start <= i <= to,
            d == cs@.subrange(start as int, to as int),
            s == cs@.subrange(from as int, to as int),
            d == unsigned_digits(s),
            forall|j: int| 0 <= j < i - start ==> is_digit(#[trigger] d[j]),
            !overflow ==> value as nat == digits_value(d.subrange(0, i - start)),
            overflow ==> digits_value(d.subrange(0, i - start)) > u64::MAX,
        decreases to - i,
    {
        let c = cs[i];
        assert(d[i - start] == c);
        assert(d.subrange(0, i - start + 1).drop_last() == d.subrange(0, i - start));
        if !((c as u32) >= 0x30 && (c as u32) <= 0x39) {
            assert(!is_digit(d[i - start]));
            return None;
        }
        let dv = ((c as u32) - 0x30) as u64;
        assert(dv as nat == digit_value(c));
        if !overflow {
            match value.checked_mul(10) {
                None => {
                    overflow = true;
                },
                Some(m) => match m.checked_add(dv) {
                    None => {
                        overflow = true;
                    },
                    Some(v) => {
                        value = v;
                    },
                },
            }
        }
        i = i + 1;
    }
    assert(d.subrange(0, d.len() as int) == d);
    if overflow {
        return None;
    }
    assert(all_digits(d));
    Some(value)
}

/// Whether `cs[from..to]` spells `lit`.
pub fn range_is(cs: &[char], from: usize, to: usize, lit: &str) -> (b: bool)
    requires
        from <= to <= cs@.len(),
    ensures
        b == (cs@.subrange(from as int, to as int) == lit@),
{
    let lv = chars_of(lit);
    if lv.len() != to - from {
        return false;
    }
    let mut i: usize = 0;
    while i < lv.len()
        invariant
            lv@ == lit@,
            from <= to <= cs@.len(),
            lv@.len() == to - from,
            i <= lv@.len(),
            forall|j: int| 0 <= j < i ==> cs@[from + j] == lv@[j],
        decreases lv@.len() - i,
    {
        if cs[from + i] != lv[i] {
            assert(cs@.subrange(from as int, to as int)[i as int] != lit@[i as int]);
            return false;
        }
        i = i + 1;
    }
    assert(cs@.subrange(from as int, to as int) =~= lit@);
    true
}

/// Fields gathered so far while reading an event.
struct Gathered {
    event: Option<String>,
    id: Option<String>,
    retry: Option<u64>,
    data: Vec<char>,
}

/// The view of gathered fields.
spec fn gathered_view(g: Gathered) -> SseFields {
    (
        match g.event {
            Some(s) => Some(s@),
            None => None,
        },
        match g.id {
            Some(s) => Some(s@),
            None => None,
        },
        g.retry,
        g.data@,
    )
}

/// Applies one decoded line to the gathered fields.
fn apply_line_exec(g: &mut Gathered, text: &[char])
    ensures
        gathered_view(*final(g)) == apply_line(gathered_view(*old(g)), text@),
{
    if text.len() == 0 || text[0] == ':' {
        return;
    }
    let colon = match find_char(text, 0, text.len(), ':') {
        None => {
            assert(text@.subrange(0, text@.len() as int) == text@);
            return;
        },
        Some(p) => p,
    };
    assert(text@.subrange(0, text@.len() as int) == text@);
    proof {
        lemma_first_index_props(text@, ':');
    }
    let (vstart, _vend) = trim_bounds(text, colon + 1, text.len());
    let value = &text[vstart..text.len()];
    assert(value@ == trim_start(text@.subrange(colon + 1, text@.len() as int)));
    if range_is(text, 0, colon, "event") {
        g.event = Some(string_of(value));
    } else if range_is(text, 0, colon, "id") {
        g.id = Some(string_of(value));
    } else if range_is(text, 0, colon, "retry") {
        match parse_u64(text, vstart, text.len()) {
            Some(n) => {
                g.retry = Some(n);
            },
            None => {},
        }
    } else if range_is(text, 0, colon, "data") {
        if g.data.len() > 0 {
            g.data.push('\n');
        }
        append_chars(&mut g.data, value);
    }
}

/// Relates the recursive trim of trailing ASCII whitespace to a position.
proof fn lemma_trim_ascii_end_at(s: Seq<u8>, i: int)
    requires
        0 <= i <= s.len(),
        forall|j: int| i <= j < s.len() ==> is_ascii_ws(#[trigger] s[j]),
        i == 0 || !is_ascii_ws(s[i - 1]),
    ensures
        trim_ascii_end(s) == s.subrange(0, i),
    decreases s.len() - i,
{
    if i == s.len() {
        assert(s.subrange(0, i) == s);
    } else {
        assert forall|j: int| i <= j < s.drop_last().len() implies is_ascii_ws(
            #[trigger] s.drop_last()[j],
        ) by {
            assert(s.drop_last()[j] == s[j]);
        }
        if i > 0 {
            assert(s.drop_last()[i - 1] == s[i - 1]);
        }
        lemma_trim_ascii_end_at(s.drop_last(), i);
        assert(s.drop_last().subrange(0, i) == s.subrange(0, i));
    }
}

/// The decoded text of the line `data[from..to]`.
fn line_text_exec(data: &[u8], from: usize, to: usize) -> (t: Vec<char>)
    requires
        from <= to <= data@.len(),
    ensures
        t@ == line_text(data@.subrange(from as int, to as int)),
{
    let mut e = to;
    while e > from && (data[e - 1] == 0x20u8 || data[e - 1] == 0x09u8 || data[e - 1] == 0x0au8
        || data[e - 1] == 0x0cu8 || data[e - 1] == 0x0du8)
        invariant
            from <= e <= to <= data@.len(),
            forall|j: int| e <= j < to ==> is_ascii_ws(#[trigger] data@[j]),
        decreases e - from,
    {
        e = e - 1;
    }
    proof {
        let line = data@.subrange(from as int, to as int);
        assert forall|j: int| e - from <= j < line.len() implies is_ascii_ws(#[trigger] line[j]) by {
            assert(line[j] == data@[from + j]);
        }
        if e > from {
            assert(line[e - from - 1] == data@[e - 1]);
        }
        lemma_trim_ascii_end_at(line, e - from);
        assert(line.subrange(0, e - from) == data@.subrange(from as int, e as int));
    }
    let s = utf8_lossy_string(&data[from..e]);
    chars_of(s.as_str())
}

/// The index of the first `\n` in `data[from..]`, relative to `from`.
fn find_newline(data: &[u8], from: usize) -> (r: Option<usize>)
    requires
        from <= data@.len(),
    ensures
        first_byte(data@.subrange(from as int, data@.len() as int), 0x0au8) == match r {
            Some(i) => Some(i as int),
            None => None::<int>,
        },
        match r {
            Some(i) => from + i < data@.len(),
            None => true,
        },
{
    let mut i = from;
    while i < data.len()
        invariant
            from <= i <= data@.len(),
            forall|j: int| from <= j < i ==> data@[j] != 0x0au8,
        decreases data@.len() - i,
    {
        if data[i] == 0x0au8 {
            proof {
                lemma_first_byte_at(data@.subrange(from as int, data@.len() as int), 0x0au8, i - from);
            }
            return Some(i - from);
        }
        i = i + 1;
    }
    proof {
        lemma_first_byte_none(data@.subrange(from as int, data@.len() as int), 0x0au8);
    }
    None
}

/// The first index is the one found by a scan.
proof fn lemma_first_byte_at(s: Seq<u8>, b: u8, i: int)
    requires
        0 <= i < s.len(),
        s[i] == b,
        forall|j: int| 0 <= j < i ==> s[j] != b,
    ensures
        first_byte(s, b) == Some(i),
    decreases i,
{
    if i > 0 {
        assert forall|j: int| 0 <= j < i - 1 implies s.drop_first()[j] != b by {
            assert(s.drop_first()[j] == s[j + 1]);
        }
        lemma_first_byte_at(s.drop_first(), b, i - 1);
    }
}

/// No index is found when the byte does not occur.
proof fn lemma_first_byte_none(s: Seq<u8>, b: u8)
    requires
        forall|j: int| 0 <= j < s.len() ==> s[j] != b,
    ensures
        first_byte(s, b) is None,
    decreases s.len(),
{
    if s.len() > 0 {
        assert forall|j: int| 0 <= j < s.drop_first().len() implies s.drop_first()[j] != b by {
            assert(s.drop_first()[j] == s[j + 1]);
        }
        lemma_first_byte_none(s.drop_first(), b);
    }
}

/// Parse one event from its lines: present when it carries data.
pub fn parse_single_event(data: &[u8]) -> (r: Option<SseEvent>)
    ensures
        match r {
            Some(e) => parse_event_spec(data@) == Some(event_fields(e)),
            None => parse_event_spec(data@) is None,
        },
{
    let mut g = Gathered { event: None, id: None, retry: None, data: Vec::new() };
    let ghost mut done: Seq<Seq<u8>> = Seq::empty();
    let mut start: usize = 0;
    assert(data@.subrange(0, data@.len() as int) == data@);
    assert(gathered_view(g) =~= gather(done));
    let len = data.len();
    loop
        invariant_except_break
            len == data@.len(),
            start <= data@.len(),
            done + byte_lines(data@.subrange(start as int, data@.len() as int)) == byte_lines(data@),
            gathered_view(g) == gather(done),
        ensures
            gathered_view(g) == gather(byte_lines(data@)),
        decreases data@.len() - start,
    {
        let ghost rest = data@.subrange(start as int, data@.len() as int);
        match find_newline(data, start) {
            Some(i) => {
                let t = line_text_exec(data, start, start + i);
                apply_line_exec(&mut g, t.as_slice());
                proof {
                    assert(rest.subrange(0, i as int) == data@.subrange(start as int, start + i));
                    assert(rest.subrange(i + 1, rest.len() as int) == data@.subrange(
                        start + i + 1,
                        data@.len() as int,
                    ));
                    assert(byte_lines(rest) == seq![rest.subrange(0, i as int)] + byte_lines(
                        rest.subrange(i + 1, rest.len() as int),
                    ));
                    let line = rest.subrange(0, i as int);
                    assert(done.push(line).drop_last() == done);
                    assert(done.push(line) + byte_lines(rest.subrange(i + 1, rest.len() as int))
                        =~= done + byte_lines(rest));
                    done = done.push(line);
                }
                start = start + i + 1;
            },
            None => {
                let t = line_text_exec(data, start, data.len());
                apply_line_exec(&mut g, t.as_slice());
                proof {
                    assert(byte_lines(rest) == seq![rest]);
                    assert(done.push(rest).drop_last() == done);
                    done = done.push(rest);
                    assert(done =~= byte_lines(data@));
                }
                break;
            },
        }
    }
    if g.data.len() > 0 {
        let e = SseEvent { event: g.event, data: string_of(g.data.as_slice()), id: g.id, retry: g.retry };
        Some(e)
    } else {
        None
    }
}

/// The end of the first event in `data[from..]`, relative to `from`.
pub(crate) fn find_boundary(data: &[u8], from: usize, crlf: bool) -> (r: Option<usize>)
    requires
        from <= data@.len(),
    ensures
        boundary(data@.subrange(from as int, data@.len() as int), crlf) == match r {
            Some(e) => Some(e as int),
            None => None::<int>,
        },
{
    let ghost sub = data@.subrange(from as int, data@.len() as int);
    let len = data.len();
    let mut i = from;
    while len - i > 1
        invariant
            len == data@.len(),
            from <= i <= len,
            sub == data@.subrange(from as int, data@.len() as int),
            boundary(sub, crlf) == boundary_from(sub, i - from, crlf),
        decreases len - i,
    {
        assert(sub[i - from] == data@[i as int]);
        assert(sub[i - from + 1] == data@[i + 1]);
        if data[i] == 0x0au8 && data[i + 1] == 0x0au8 {
            return Some(i - from + 2);
        }
        if crlf && len - i > 3 {
            assert(sub[i - from + 2] == data@[i + 2]);
            assert(sub[i - from + 3] == data@[i + 3]);
            if data[i] == 0x0du8 && data[i + 1] == 0x0au8 && data[i + 2] == 0x0du8 && data[i + 3]
                == 0x0au8 {
                return Some(i - from + 4);
            }
        }
        i = i + 1;
    }
    None
}

/// Appends bytes to a buffer.
fn append_bytes(buf: &mut Vec<u8>, data: &[u8])
    ensures
        final(buf)@ == old(buf)@ + data@,
{
    let mut i: usize = 0;
    while i < data.len()
        invariant
            i <= data@.len(),
            buf@ == old(buf)@ + data@.subrange(0, i as int),
        decreases data@.len() - i,
    {
        buf.push(data[i]);
        i = i + 1;
        assert(data@.subrange(0, i as int) == data@.subrange(0, i - 1).push(data@[i - 1]));
    }
    assert(data@.subrange(0, data@.len() as int) == data@);
}

/// Server-Sent Events parser that keeps an incomplete event between chunks.
#[derive(Debug)]
pub struct SimdSseParser {
    features: CpuFeatures,
    buffer: Vec<u8>,
}

impl SimdSseParser {
    /// The CPU features this parser was created with.
    pub closed spec fn features(&self) -> CpuFeatures {
        self.features
    }

    /// The bytes received that do not yet form a complete event.
    pub closed spec fn pending(&self) -> Seq<u8> {
        self.buffer@
    }

    /// Create a new parser with nothing pending.
    pub fn new(features: CpuFeatures) -> (p: SimdSseParser)
        ensures
            p.features() == features,
            p.pending() == Seq::<u8>::empty(),
    {
        SimdSseParser { features, buffer: Vec::new() }
    }

    /// Parse SSE events from a chunk of data. The chunk is appended to what
    /// is pending; every complete event (ended by a blank line, and with SSE4.2
    /// also by `\r\n\r\n`) is parsed, those without data are dropped, and
    /// what follows the last complete event stays pending.
    pub fn parse_chunk(&mut self, data: &[u8]) -> (r: Result<Vec<SseEvent>, Error>)
        ensures
            final(self).features() == old(self).features(),
            r matches Ok(v) && chunk_parsed(
                old(self).pending(),
                data@,
                old(self).features().sse42,
                events_view(v@),
                final(self).pending(),
            ),
    {
        append_bytes(&mut self.buffer, data);
        let crlf = self.features.sse42;
        let ghost all = self.buffer@;
        let mut events: Vec<SseEvent> = Vec::new();
        let ghost mut done: Seq<Seq<u8>> = Seq::empty();
        let mut pos: usize = 0;
        assert(all.subrange(0, all.len() as int) == all);
        let blen = self.buffer.len();
        loop
            invariant
                all == self.buffer@,
                blen == all.len(),
                pos <= all.len(),
                crlf == self.features.sse42,
                ({
                    let (cs, rest) = split_events(all.subrange(pos as int, all.len() as int), crlf);
                    &&& split_events(all, crlf).0 == done + cs
                    &&& split_events(all, crlf).1 == rest
                }),
                events_view(events@) == events_of(done),
            ensures
                pos <= all.len(),
                all == self.buffer@,
                split_events(all, crlf).0 == done,
                split_events(all, crlf).1 == all.subrange(pos as int, all.len() as int),
                events_view(events@) == events_of(done),
            decreases all.len() - pos,
        {
            let ghost tail = all.subrange(pos as int, all.len() as int);
            match find_boundary(self.buffer.as_slice(), pos, crlf) {
                None => {
                    assert(split_events(tail, crlf) == (Seq::<Seq<u8>>::empty(), tail));
                    assert(done + Seq::<Seq<u8>>::empty() == done);
                    break;
                },
                Some(end) => {
                    proof {
                        lemma_boundary_range(tail, 0, crlf);
                    }
                    let chunk = &self.buffer.as_slice()[pos..pos + end];
                    let ev = parse_single_event(chunk);
                    proof {
                        let c = tail.subrange(0, end as int);
                        assert(chunk@ == c);
                        assert(tail.subrange(end as int, tail.len() as int) == all.subrange(
                            pos + end,
                            all.len() as int,
                        ));
                        assert(done.push(c).drop_last() == done);
                        assert(done.push(c).last() == c);
                        assert(done + (seq![c] + split_events(
                            tail.subrange(end as int, tail.len() as int),
                            crlf,
                        ).0) == done.push(c) + split_events(
                            tail.subrange(end as int, tail.len() as int),
                            crlf,
                        ).0);
                    }
                    match ev {
                        Some(e) => {
                            events.push(e);
                        },
                        None => {},
                    }
                    proof {
                        done = done.push(tail.subrange(0, end as int));
                    }
                    pos = pos + end;
                },
            }
        }
        let rest = self.buffer.split_off(pos);
        self.buffer = rest;
        Ok(events)
    }
}

// ---------------------------------------------------------------------------
// HTTP headers
// ---------------------------------------------------------------------------

/// The map that a list of name and value pairs stands for: a later pair
/// replaces an earlier one of the same name.
pub open spec fn entries_map(s: Seq<(String, String)>) -> Map<Seq<char>, Seq<char>>
    decreases s.len(),
{
    if s.len() == 0 {
        Map::empty()
    } else {
        entries_map(s.drop_last()).insert(s.last().0@, s.last().1@)
    }
}

/// Parsed HTTP headers, by lowercase name.
#[derive(Debug, Clone)]
pub struct HeaderMap {
    entries: Vec<(String, String)>,
}

impl View for HeaderMap {
    type V = Map<Seq<char>, Seq<char>>;

    closed spec fn view(&self) -> Map<Seq<char>, Seq<char>> {
        entries_map(self.entries@)
    }
}

/// The pairs whose name is not `k`, in order.
pub open spec fn without_name(s: Seq<(String, String)>, k: Seq<char>) -> Seq<(String, String)>
    decreases s.len(),
{
    if s.len() == 0 {
        s
    } else if s.last().0@ == k {
        without_name(s.drop_last(), k)
    } else {
        without_name(s.drop_last(), k).push(s.last())
    }
}

/// Dropping the pairs of one name removes that name from the map.
proof fn lemma_entries_without(s: Seq<(String, String)>, k: Seq<char>)
    ensures
        entries_map(without_name(s, k)) == entries_map(s).remove(k),
    decreases s.len(),
{
    if s.len() == 0 {
        assert(entries_map(s).remove(k) == Map::<Seq<char>, Seq<char>>::empty());
    } else {
        lemma_entries_without(s.drop_last(), k);
        if s.last().0@ != k {
            assert(without_name(s, k).drop_last() == without_name(s.drop_last(), k));
            assert(entries_map(without_name(s, k)) == entries_map(s).remove(k));
        } else {
            assert(entries_map(without_name(s, k)) == entries_map(s).remove(k));
        }
    }
}

/// Pairs after position `i` that do not carry `k` leave its entry as it was.
proof fn lemma_entries_prefix(s: Seq<(String, String)>, i: int, k: Seq<char>)
    requires
        0 <= i <= s.len(),
        forall|j: int| i <= j < s.len() ==> (#[trigger] s[j]).0@ != k,
    ensures
        entries_map(s).dom().contains(k) == entries_map(s.subrange(0, i)).dom().contains(k),
        entries_map(s).dom().contains(k) ==> entries_map(s)[k] == entries_map(s.subrange(0, i))[k],
    decreases s.len() - i,
{
    if i == s.len() {
        assert(s.subrange(0, i) == s);
    } else {
        assert(s.drop_last().subrange(0, i) == s.subrange(0, i));
        assert forall|j: int| i <= j < s.drop_last().len() implies (#[trigger] s.drop_last()[j]).0@
            != k by {
            assert(s.drop_last()[j] == s[j]);
        }
        lemma_entries_prefix(s.drop_last(), i, k);
        assert(s[s.len() - 1] == s.last());
    }
}

impl HeaderMap {
    /// An empty map.
    pub fn new() -> (h: HeaderMap)
        ensures
            h@ == Map::<Seq<char>, Seq<char>>::empty(),
    {
        HeaderMap { entries: Vec::new() }
    }

    /// Sets the value of a name, replacing an earlier one.
    pub fn insert(&mut self, name: String, value: String)
        ensures
            final(self)@ == old(self)@.insert(name@, value@),
    {
        let ghost old_entries = self.entries@;
        let mut kept: Vec<(String, String)> = Vec::new();
        let mut i: usize = 0;
        while i < self.entries.len()
            invariant
                i <= self.entries@.len(),
                self.entries@ == old_entries,
                kept@ == without_name(old_entries.subrange(0, i as int), name@),
            decreases self.entries@.len() - i,
        {
            let same = str_eq(self.entries[i].0.as_str(), name.as_str());
            proof {
                assert(old_entries.subrange(0, i + 1).drop_last() == old_entries.subrange(0, i as int));
                assert(old_entries.subrange(0, i + 1).last() == old_entries[i as int]);
            }
            if !same {
                let e = (self.entries[i].0.clone(), self.entries[i].1.clone());
                kept.push(e);
            }
            i = i + 1;
        }
        proof {
            assert(old_entries.subrange(0, old_entries.len() as int) == old_entries);
            lemma_entries_without(old_entries, name@);
        }
        let ghost k0 = kept@;
        let ghost nv = name@;
        let ghost vv = value@;
        kept.push((name, value));
        self.entries = kept;
        proof {
            assert(self.entries@.drop_last() == k0);
            assert(entries_map(k0).insert(nv, vv) =~= entries_map(old_entries).insert(nv, vv));
        }
    }

    /// The value of a name.
    pub fn get(&self, name: &str) -> (r: Option<&String>)
        ensures
            match r {
                Some(v) => self@.dom().contains(name@) && self@[name@] == v@,
                None => !self@.dom().contains(name@),
            },
    {
        let mut i = self.entries.len();
        while i > 0
            invariant
                i <= self.entries@.len(),
                forall|j: int| i <= j < self.entries@.len() ==> (#[trigger] self.entries@[j]).0@
                    != name@,
            decreases i,
        {
            if str_eq(self.entries[i - 1].0.as_str(), name) {
                proof {
                    lemma_entries_prefix(self.entries@, i as int, name@);
                    assert(self.entries@.subrange(0, i as int).drop_last() == self.entries@.subrange(
                        0,
                        i - 1,
                    ));
                    assert(self.entries@.subrange(0, i as int).last() == self.entries@[i - 1]);
                }
                return Some(&self.entries[i - 1].1);
            }
            i = i - 1;
        }
        proof {
            lemma_entries_prefix(self.entries@, 0, name@);
        }
        None
    }
}

/// The lines of a text split at every `\n`, empty ones included.
pub open spec fn char_lines(d: Seq<char>) -> Seq<Seq<char>>
    decreases d.len(),
{
    match first_index(d, '\n') {
        None => seq![d],
        Some(i) => {
            if 0 <= i < d.len() {
                seq![d.subrange(0, i)] + char_lines(d.subrange(i + 1, d.len() as int))
            } else {
                seq![d]
            }
        },
    }
}

/// Headers read from lines until the first blank one: each line with a `:`
/// sets the lowercase trimmed name before it to the trimmed value after it.
pub open spec fn header_fold(m: Map<Seq<char>, Seq<char>>, lines: Seq<Seq<char>>) -> Map<
    Seq<char>,
    Seq<char>,
>
    decreases lines.len(),
{
    if lines.len() == 0 {
        m
    } else {
        let t = trim(lines[0]);
        if t.len() == 0 {
            m
        } else {
            let m2 = match first_index(t, ':') {
                Some(p) => m.insert(
                    lowercase(trim(t.subrange(0, p))),
                    trim(t.subrange(p + 1, t.len() as int)),
                ),
                None => m,
            };
            header_fold(m2, lines.drop_first())
        }
    }
}

/// The headers of a raw header block, decoded as lossy UTF-8.
pub open spec fn headers_of(input: Seq<u8>) -> Map<Seq<char>, Seq<char>> {
    header_fold(Map::empty(), char_lines(utf8_lossy(input)))
}

/// HTTP header parser.
#[derive(Debug)]
pub struct SimdHttpHeaderParser {}

impl SimdHttpHeaderParser {
    /// Create a new header parser.
    pub fn new() -> (p: SimdHttpHeaderParser) {
        SimdHttpHeaderParser {  }
    }

    /// Parse HTTP headers from raw bytes; this never fails.
    pub fn parse_headers(&self, input: &[u8]) -> (r: Result<HeaderMap, Error>)
        ensures
            r matches Ok(h) && h@ == headers_of(input@),
    {
        let text = utf8_lossy_string(input);
        let cs = chars_of(text.as_str());
        let len = cs.len();
        let mut headers = HeaderMap::new();
        let mut start: usize = 0;
        assert(cs@.subrange(0, len as int) == cs@);
        loop
            invariant_except_break
                len == cs@.len(),
                start <= len,
                headers_of(input@) == header_fold(
                    headers@,
                    char_lines(cs@.subrange(start as int, len as int)),
                ),
            ensures
                headers_of(input@) == headers@,
            decreases len - start,
        {
            let ghost tail = cs@.subrange(start as int, len as int);
            let found = find_char(cs.as_slice(), start, len, '\n');
            let line_end = match found {
                Some(i) => start + i,
                None => len,
            };
            proof {
                lemma_first_index_props(tail, '\n');
                assert(tail.subrange(0, line_end - start) == cs@.subrange(
                    start as int,
                    line_end as int,
                ));
                if let Some(i) = found {
                    assert(tail.subrange(i + 1, tail.len() as int) == cs@.subrange(
                        line_end + 1,
                        len as int,
                    ));
                    assert(char_lines(tail) == seq![tail.subrange(0, i as int)] + char_lines(
                        tail.subrange(i + 1, tail.len() as int),
                    ));
                    assert((seq![tail.subrange(0, i as int)] + char_lines(
                        tail.subrange(i + 1, tail.len() as int),
                    )).drop_first() == char_lines(tail.subrange(i + 1, tail.len() as int)));
                } else {
                    assert(tail.subrange(0, tail.len() as int) == tail);
                    assert(char_lines(tail) == seq![tail]);
                    assert(seq![tail].drop_first().len() == 0);
                }
            }
            let (a, b) = trim_bounds(cs.as_slice(), start, line_end);
            if a == b {
                break;
            }
            let ghost t = cs@.subrange(a as int, b as int);
            let ghost before = headers@;
            let ghost lines = char_lines(tail);
            let ghost m2 = match first_index(t, ':') {
                Some(p) => before.insert(
                    lowercase(trim(t.subrange(0, p))),
                    trim(t.subrange(p + 1, t.len() as int)),
                ),
                None => before,
            };
            assert(header_fold(before, lines) == header_fold(m2, lines.drop_first()));
            match find_char(cs.as_slice(), a, b, ':') {
                Some(p) => {
                    let (na, nb) = trim_bounds(cs.as_slice(), a, a + p);
                    let (va, vb) = trim_bounds(cs.as_slice(), a + p + 1, b);
                    let raw_name = string_of(&cs.as_slice()[na..nb]);
                    let name = to_lowercase_string(raw_name.as_str());
                    let value = string_of(&cs.as_slice()[va..vb]);
                    proof {
                        assert(t.subrange(0, p as int) == cs@.subrange(a as int, a + p));
                        assert(t.subrange(p + 1, t.len() as int) == cs@.subrange(a + p + 1, b as int));
                    }
                    headers.insert(name, value);
                },
                None => {},
            }
            assert(headers@ == m2);
            if found.is_none() {
                assert(lines.drop_first().len() == 0);
                assert(header_fold(m2, lines.drop_first()) == m2);
                break;
            }
            start = line_end + 1;
        }
        Ok(headers)
    }
}

// ---------------------------------------------------------------------------
// Base64
// ---------------------------------------------------------------------------

/// The character of a 6-bit value in the standard Base64 alphabet.
pub open spec fn b64_char(v: int) -> char {
    if v < 26 {
        (65 + v) as char
    } else if v < 52 {
        (97 + v - 26) as char
    } else if v < 62 {
        (48 + v - 52) as char
    } else if v == 62 {
        '+'
    } else {
        '/'
    }
}

/// Standard Base64 with `=` padding (RFC 4648): each group of three bytes
/// becomes four characters; a last group of one or two bytes is padded.
pub open spec fn b64_encode(b: Seq<u8>) -> Seq<char>
    decreases b.len(),
{
    if b.len() == 0 {
        Seq::empty()
    } else if b.len() == 1 {
        seq![b64_char(b[0] as int / 4), b64_char((b[0] % 4) * 16), '=', '=']
    } else if b.len() == 2 {
        seq![
            b64_char(b[0] as int / 4),
            b64_char((b[0] % 4) * 16 + b[1] / 16),
            b64_char((b[1] % 16) * 4),
            '=',
        ]
    } else {
        seq![
            b64_char(b[0] as int / 4),
            b64_char((b[0] % 4) * 16 + b[1] / 16),
            b64_char((b[1] % 16) * 4 + b[2] / 64),
            b64_char(b[2] as int % 64),
        ] + b64_encode(b.subrange(3, b.len() as int))
    }
}

/// What `base64::DecodeError` displays for an input that is refused.
pub uninterp spec fn b64_decode_error(input: Seq<char>) -> Seq<char>;

/// Calls `Engine::encode` of `base64::engine::general_purpose::STANDARD`:
/// the standard alphabet with padding.
#[verifier::external_body]
pub(crate) fn b64_encode_string(input: &[u8]) -> (r: String)
    ensures
        r@ == b64_encode(input@),
{
    base64::Engine::encode(&base64::engine::general_purpose::STANDARD, input)
}

/// Calls `Engine::decode` of `base64::engine::general_purpose::STANDARD`,
/// which requires canonical padding and zero trailing bits: it accepts
/// exactly the encodings of byte strings, and what it gives back encodes to
/// the input. The text of a refusal is named.
#[verifier::external_body]
fn b64_decode_bytes(input: &str) -> (r: Result<Vec<u8>, String>)
    ensures
        (exists|b: Seq<u8>| #[trigger] b64_encode(b) == input@) ==> r is Ok,
        r matches Ok(v) ==> b64_encode(v@) == input@,
        r matches Err(m) ==> m@ == b64_decode_error(input@),
{
    match base64::Engine::decode(&base64::engine::general_purpose::STANDARD, input) {
        Ok(v) => Ok(v),
        Err(e) => Err(e.to_string()),
    }
}

/// The alphabet gives distinct characters to distinct values, none of them `=`.
proof fn lemma_b64_char(v: int, w: int)
    requires
        0 <= v < 64,
        0 <= w < 64,
    ensures
        b64_char(v) == b64_char(w) ==> v == w,
        b64_char(v) != '=',
{
}

/// The first four characters of a non-empty encoding.
proof fn lemma_b64_head(a: Seq<u8>)
    requires
        a.len() > 0,
    ensures
        ({
            let e = b64_encode(a);
            let x1: int = if a.len() >= 2 { a[1] as int / 16 } else { 0 };
            let x2: int = if a.len() >= 3 { a[2] as int / 64 } else { 0 };
            &&& e.len() >= 4
            &&& e[0] == b64_char(a[0] as int / 4)
            &&& e[1] == b64_char((a[0] as int % 4) * 16 + x1)
            &&& e[2] == if a.len() == 1 { '=' } else { b64_char((a[1] as int % 16) * 4 + x2) }
            &&& e[3] == if a.len() <= 2 { '=' } else { b64_char(a[2] as int % 64) }
            &&& a.len() >= 3 ==> e.subrange(4, e.len() as int) == b64_encode(
                a.subrange(3, a.len() as int),
            )
        }),
{
}

/// Distinct byte strings have distinct encodings.
pub proof fn lemma_b64_injective(a: Seq<u8>, b: Seq<u8>)
    requires
        b64_encode(a) == b64_encode(b),
    ensures
        a == b,
    decreases a.len(),
{
    let e = b64_encode(a);
    if a.len() == 0 || b.len() == 0 {
        if a.len() > 0 {
            lemma_b64_head(a);
        }
        if b.len() > 0 {
            lemma_b64_head(b);
        }
        assert(a =~= b);
        return;
    }
    lemma_b64_head(a);
    lemma_b64_head(b);
    let (a0, b0) = (a[0], b[0]);
    let a1: u8 = if a.len() >= 2 { a[1] } else { 0 };
    let b1: u8 = if b.len() >= 2 { b[1] } else { 0 };
    let a2: u8 = if a.len() >= 3 { a[2] } else { 0 };
    let b2: u8 = if b.len() >= 3 { b[2] } else { 0 };
    lemma_b64_char(a0 as int / 4, b0 as int / 4);
    lemma_b64_char((a0 as int % 4) * 16 + a1 as int / 16, (b0 as int % 4) * 16 + b1 as int / 16);
    lemma_b64_char((a1 as int % 16) * 4 + a2 as int / 64, (b1 as int % 16) * 4 + b2 as int / 64);
    lemma_b64_char(a2 as int % 64, b2 as int % 64);
    assert(a.len() == 1 <==> b.len() == 1);
    assert(a.len() <= 2 <==> b.len() <= 2);
    let l2 = a.len() >= 2;
    let l3 = a.len() >= 3;
    assert(a0 == b0 && a1 == b1 && a2 == b2) by (bit_vector)
        requires
            a0 / 4 == b0 / 4,
            (a0 % 4) * 16 + a1 / 16 == (b0 % 4) * 16 + b1 / 16,
            l2 ==> (a1 % 16) * 4 + a2 / 64 == (b1 % 16) * 4 + b2 / 64,
            l3 ==> a2 % 64 == b2 % 64,
            !l2 ==> a1 == 0 && b1 == 0,
            !l3 ==> a2 == 0 && b2 == 0,
            l3 ==> l2,
    ;
    if a.len() >= 3 {
        let ra = a.subrange(3, a.len() as int);
        let rb = b.subrange(3, b.len() as int);
        lemma_b64_injective(ra, rb);
        assert forall|i: int| 0 <= i < a.len() implies a[i] == b[i] by {
            if i >= 3 {
                assert(a[i] == ra[i - 3]);
                assert(b[i] == rb[i - 3]);
            }
        }
    }
    assert(a =~= b);
}

/// Base64 codec (standard alphabet, padded).
#[derive(Debug)]
pub struct SimdBase64 {}

impl SimdBase64 {
    /// Create a new codec.
    pub fn new() -> (c: SimdBase64) {
        SimdBase64 {  }
    }

    /// Encode bytes to Base64.
    pub fn encode(&self, input: &[u8]) -> (r: String)
        ensures
            r@ == b64_encode(input@),
    {
        b64_encode_string(input)
    }

    /// Decode Base64 to bytes. The encoding of some bytes decodes to exactly
    /// those bytes; any other text is refused with a parse error.
    pub fn decode(&self, input: &str) -> (r: Result<Vec<u8>, Error>)
        ensures
            forall|b: Seq<u8>| #[trigger] b64_encode(b) == input@ ==> (r matches Ok(v) && v@ == b),
            match r {
                Ok(v) => b64_encode(v@) == input@,
                Err(e) => e matches Error::Protocol { code, message, data } && code.0 == -32700
                    && message@ == "Base64 decode error: "@ + b64_decode_error(input@)
                    && data is None,
            },
    {
        match b64_decode_bytes(input) {
            Ok(v) => {
                assert forall|b: Seq<u8>| #[trigger] b64_encode(b) == input@ implies v@ == b by {
                    lemma_b64_injective(v@, b);
                }
                Ok(v)
            },
            Err(m) => {
                let mut text: Vec<char> = Vec::new();
                extend_chars(&mut text, "Base64 decode error: ");
                extend_chars(&mut text, m.as_str());
                let msg = string_of(text.as_slice());
                Err(Error::parse(msg.as_str()))
            },
        }
    }
}

} // verus!
