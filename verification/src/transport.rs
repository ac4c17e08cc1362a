//! What is decided around the network: the event stream of updates, the
//! retries, and what is done with each answer of the server. The network
//! itself is somebody else's: it reports what happened and is told what to do.

use vstd::prelude::*;
use vstd::slice::slice_subrange;
use vstd::string::StringSliceAdditionalSpecFns;
use vstd::utf8::{decode_utf8, encode_utf8_decode_utf8, valid_utf8};

use crate::delta::{
    after_delta, after_full_filter, delta_fault, DeltaEngine, DeltaError, DeltaFault,
};
use crate::signing::{verify_fault, Payload, SignedDelta};
use crate::state::{BrxonState, State};
use crate::text::{
    chars_of, first_at, lemma_first_at, position, same_text, strip_prefix, text_of, trim, trimmed,
};

verus! {

// ---------------------------------------------------------------------------
// Events
// ---------------------------------------------------------------------------

/// The first position from `i` on where two line feeds follow each other: the
/// end of an event. The length of `s` where there is none.
pub open spec fn event_end(s: Seq<char>, i: int) -> int
    decreases s.len() - i,
{
    if i + 1 >= s.len() {
        s.len() as int
    } else if s[i] == '\n' && s[i + 1] == '\n' {
        i
    } else {
        event_end(s, i + 1)
    }
}

/// Where `event_end` points.
pub proof fn lemma_event_end(s: Seq<char>, i: int)
    requires
        0 <= i <= s.len(),
    ensures
        i <= event_end(s, i) <= s.len(),
        event_end(s, i) < s.len() ==> event_end(s, i) + 2 <= s.len() && s[event_end(s, i)] == '\n'
            && s[event_end(s, i) + 1] == '\n',
    decreases s.len() - i,
{
    if i + 1 < s.len() && !(s[i] == '\n' && s[i + 1] == '\n') {
        lemma_event_end(s, i + 1);
    }
}

/// The two fields of an event that matter.
pub struct Fields {
    pub kind: Seq<char>,
    pub data: Seq<char>,
}

/// The fields once a line was read.
pub open spec fn with_line(f: Fields, line: Seq<char>) -> Fields {
    if "event: "@.is_prefix_of(line) {
        Fields { kind: trimmed(line.skip("event: "@.len() as int)), ..f }
    } else if "data: "@.is_prefix_of(line) {
        Fields { data: trimmed(line.skip("data: "@.len() as int)), ..f }
    } else {
        f
    }
}

/// The fields once the lines of `s` from position `at` on were read. Of lines
/// that give the same field, the last one counts.
pub open spec fn fields_from(s: Seq<char>, at: int, f: Fields) -> Fields
    decreases s.len() - at,
{
    if at < 0 || at >= s.len() {
        f
    } else {
        proof {
            lemma_first_at(s, '\n', at);
        }
        let end = first_at(s, '\n', at);
        let read = with_line(f, s.subrange(at, end));
        if end < s.len() {
            fields_from(s, end + 1, read)
        } else {
            read
        }
    }
}

/// The fields of an event.
pub open spec fn fields(event: Seq<char>) -> Fields {
    fields_from(event, 0, Fields { kind: Seq::empty(), data: Seq::empty() })
}

/// The data of an event that announces an update. Other events, and an
/// announcement without data, have none.
pub open spec fn update_of(event: Seq<char>) -> Option<Seq<char>> {
    let f = fields(event);
    if f.kind == "filter_update"@ && f.data.len() > 0 {
        Some(f.data)
    } else {
        None
    }
}

/// Takes the first complete event off the buffer.
pub fn next_event(buffer: &mut String) -> (r: Option<String>)
    ensures
        ({
            let end = event_end(old(buffer)@, 0);
            if end < old(buffer)@.len() {
                &&& r matches Some(event) && event@ == old(buffer)@.take(end)
                &&& final(buffer)@ == old(buffer)@.skip(end + 2)
            } else {
                &&& r is None
                &&& final(buffer)@ == old(buffer)@
            }
        }),
{
    let chars = chars_of(buffer.as_str());
    let len: usize = chars.len();
    let mut i: usize = 0;
    while i < len && len - i > 1 && !(chars[i] == '\n' && chars[i + 1] == '\n')
        invariant
            i <= len,
            len == chars@.len(),
            event_end(chars@, 0) == event_end(chars@, i as int),
        decreases len - i,
    {
        i += 1;
    }
    if len - i > 1 {
        let event = text_of(slice_subrange(chars.as_slice(), 0, i));
        *buffer = text_of(slice_subrange(chars.as_slice(), i + 2, len));
        assert(chars@.subrange(0, i as int) == chars@.take(i as int));
        assert(chars@.subrange(i + 2, len as int) == chars@.skip(i + 2));
        Some(event)
    } else {
        None
    }
}

/// The data of an event that announces an update.
pub fn update_data(event: &str) -> (r: Option<String>)
    ensures
        r is Some <==> update_of(event@) is Some,
        r matches Some(data) ==> update_of(event@) == Some(data@),
{
    let chars = chars_of(event);
    let mut kind = String::new();
    let mut data = String::new();
    let mut at: usize = 0;
    while at < chars.len()
        invariant
            chars@ == event@,
            fields(event@) == fields_from(event@, at as int, Fields { kind: kind@, data: data@ }),
        decreases chars@.len() - at,
    {
        let end: usize = position(chars.as_slice(), '\n', at);
        let line = slice_subrange(chars.as_slice(), at, end);
        match strip_prefix(line, "event: ") {
            Some(value) => {
                kind = text_of(trim(value));
            },
            None => match strip_prefix(line, "data: ") {
                Some(value) => {
                    data = text_of(trim(value));
                },
                None => {},
            },
        }
        at = if end < chars.len() {
            end + 1
        } else {
            end
        };
    }
    if same_text(kind.as_str(), "filter_update") && !data.as_str().is_empty() {
        Some(data)
    } else {
        None
    }
}

// ---------------------------------------------------------------------------
// The stream of updates
// ---------------------------------------------------------------------------

/// Whether an event that meets the state `pre` may lead to the state `next`, and
/// whether the processing ends with it. An update that `parse` reads as a delta
/// is taken in; one that it cannot read, and any other event, is passed over. A
/// delta that meets a frozen engine ends the processing; any other refusal does
/// not.
pub open spec fn event_step<F: Fn(String) -> Option<SignedDelta>>(
    parse: F,
    pre: State,
    event: Seq<char>,
    next: State,
    stop: bool,
) -> bool {
    match update_of(event) {
        None => next == pre && !stop,
        Some(data) => exists|text: String, parsed: Option<SignedDelta>|
            {
                &&& text@ == data
                &&& #[trigger] call_ensures(parse, (text,), parsed)
                &&& match parsed {
                    None => next == pre && !stop,
                    Some(delta) => {
                        &&& next == after_delta(pre, delta@)
                        &&& stop <==> (delta_fault(pre, delta@) matches Some(
                            DeltaFault::EngineFrozen { .. },
                        ))
                    },
                }
            },
    }
}

/// Whether a stream in the state `pre`, with `buf` received and not yet
/// processed, may come to the state `post` with `rest` left. Events are taken in
/// order, until none is complete, or until one ends the processing: `stopped`
/// says which.
pub open spec fn run<F: Fn(String) -> Option<SignedDelta>>(
    parse: F,
    pre: State,
    buf: Seq<char>,
    post: State,
    rest: Seq<char>,
    stopped: bool,
) -> bool
    decreases buf.len(),
{
    proof {
        lemma_event_end(buf, 0);
    }
    let end = event_end(buf, 0);
    let tail = buf.skip(end + 2);
    if end >= buf.len() {
        post == pre && rest == buf && !stopped
    } else {
        exists|next: State, stop: bool|
            {
                &&& #[trigger] event_step(parse, pre, buf.take(end), next, stop)
                &&& if stop {
                    post == next && rest == tail && stopped
                } else {
                    run(parse, next, tail, post, rest, stopped)
                }
            }
    }
}

/// Whether a stream in the state `pre`, with `buf` received and not yet
/// processed, may come to the state `post` with `rest` left.
pub open spec fn processed<F: Fn(String) -> Option<SignedDelta>>(
    parse: F,
    pre: State,
    buf: Seq<char>,
    post: State,
    rest: Seq<char>,
) -> bool {
    run(parse, pre, buf, post, rest, false) || run(parse, pre, buf, post, rest, true)
}

/// Processes the complete events in the buffer and leaves what is incomplete.
/// `parse` reads the data of an update as a delta.
pub fn process_sse_buffer<F: Fn(String) -> Option<SignedDelta>>(
    engine: &mut DeltaEngine,
    buffer: &mut String,
    parse: &F,
)
    requires
        forall|text: String| call_requires(*parse, (text,)),
    ensures
        processed(*parse, old(engine)@, old(buffer)@, final(engine)@, final(buffer)@),
        old(engine)@.well_formed() ==> final(engine)@.well_formed(),
{
    let ghost first_state = engine@;
    let ghost first_buffer = buffer@;
    loop
        invariant_except_break
            forall|text: String| call_requires(*parse, (text,)),
            forall|post: State, rest: Seq<char>, stopped: bool| #[trigger]
                run(*parse, engine@, buffer@, post, rest, stopped) ==> run(
                    *parse,
                    first_state,
                    first_buffer,
                    post,
                    rest,
                    stopped,
                ),
            first_state.well_formed() ==> engine@.well_formed(),
        ensures
            processed(*parse, first_state, first_buffer, engine@, buffer@),
            first_state.well_formed() ==> engine@.well_formed(),
        decreases buffer@.len(),
    {
        let ghost before = engine@;
        let ghost all = buffer@;
        proof {
            lemma_event_end(all, 0);
        }
        match next_event(buffer) {
            None => {
                assert(run(*parse, engine@, buffer@, engine@, buffer@, false));
                break;
            },
            Some(event) => {
                match update_data(event.as_str()) {
                    None => {},
                    Some(data) => {
                        let ghost text = data;
                        let parsed = parse(data);
                        assert(call_ensures(*parse, (text,), parsed));
                        match parsed {
                            None => {},
                            Some(delta) => {
                                match engine.apply(&delta) {
                                    Err(DeltaError::EngineFrozen { .. }) => {
                                        assert(event_step(*parse, before, event@, engine@, true));
                                        assert(run(*parse, before, all, engine@, buffer@, true));
                                        break;
                                    },
                                    _ => {},
                                }
                            },
                        }
                    },
                }
                assert(event_step(*parse, before, event@, engine@, false));
            },
        }
        assert forall|post: State, rest: Seq<char>, stopped: bool| #[trigger]
            run(*parse, engine@, buffer@, post, rest, stopped) implies run(
            *parse,
            first_state,
            first_buffer,
            post,
            rest,
            stopped,
        ) by {
            assert(run(*parse, before, all, post, rest, stopped));
        }
    }
}

// ---------------------------------------------------------------------------
// Addresses and answers of the server
// ---------------------------------------------------------------------------

/// Where the complete filter is fetched from.
pub fn latest_url(state: &BrxonState) -> (r: String)
    ensures
        r@ == state@.server_base + "/filter/latest"@,
{
    let mut url = state.server_base.clone();
    url.append("/filter/latest");
    url
}

/// Where updates are streamed from.
pub fn updates_url(state: &BrxonState) -> (r: String)
    ensures
        r@ == state@.server_base + "/filter/updates"@,
{
    let mut url = state.server_base.clone();
    url.append("/filter/updates");
    url
}

/// Whether an HTTP status means success.
pub fn is_success(status: u16) -> (r: bool)
    ensures
        r == (200 <= status < 300),
{
    200 <= status && status < 300
}

/// The server's answer to a request for the complete filter.
#[derive(Debug)]
pub struct FullFilterResponse {
    pub filter_bytes: Vec<u8>,
    pub sha256: String,
    pub signature: String,
    pub version: u64,
    /// Number of bits in the filter.
    pub m: usize,
    /// Number of bits that are tested for a domain.
    pub k: u32,
}

impl FullFilterResponse {
    /// The filter as a payload with digest and signature.
    pub open spec fn payload(self) -> Payload {
        Payload {
            bytes: self.filter_bytes@,
            sha256: self.sha256@,
            signature: self.signature@,
            version: self.version,
        }
    }
}

// ---------------------------------------------------------------------------
// Retries
// ---------------------------------------------------------------------------

/// The first wait before the complete filter is asked for again, in seconds.
pub const INITIAL_RETRY_SECS: u64 = 5;

/// The longest wait, in seconds.
pub const MAX_RETRY_SECS: u64 = 300;

/// The first wait before the stream of updates is opened again, in seconds.
pub const SSE_RECONNECT_SECS: u64 = 3;

/// The wait after a wait of `secs`.
pub open spec fn next_wait(secs: u64) -> u64 {
    if 2 * secs < MAX_RETRY_SECS {
        (2 * secs) as u64
    } else {
        MAX_RETRY_SECS
    }
}

/// Waits that double up to a limit.
#[derive(Debug)]
pub struct Backoff {
    secs: u64,
}

impl View for Backoff {
    type V = u64;

    /// The next wait, in seconds.
    closed spec fn view(&self) -> u64 {
        self.secs
    }
}

impl Backoff {
    #[verifier::type_invariant]
    spec fn inv(self) -> bool {
        self.secs <= MAX_RETRY_SECS
    }

    /// Waits for fetching the complete filter.
    pub fn for_fetch() -> (r: Self)
        ensures
            r@ == INITIAL_RETRY_SECS,
    {
        Backoff { secs: INITIAL_RETRY_SECS }
    }

    /// Waits for the stream of updates.
    pub fn for_stream() -> (r: Self)
        ensures
            r@ == SSE_RECONNECT_SECS,
    {
        Backoff { secs: SSE_RECONNECT_SECS }
    }

    /// How long to wait now; the next wait is twice as long, up to the limit.
    pub fn wait(&mut self) -> (r: u64)
        ensures
            r == old(self)@,
            final(self)@ == next_wait(old(self)@),
            r <= MAX_RETRY_SECS,
    {
        proof {
            use_type_invariant(&*self);
        }
        let now: u64 = self.secs;
        self.secs = if 2 * now < MAX_RETRY_SECS {
            2 * now
        } else {
            MAX_RETRY_SECS
        };
        now
    }
}

// ---------------------------------------------------------------------------
// Fetching the complete filter
// ---------------------------------------------------------------------------

/// What became of a request for the complete filter.
#[derive(Debug)]
pub enum FetchEvent {
    /// No answer came.
    RequestFailed,
    /// The status was not a success.
    Refused,
    /// The answer could not be read.
    BadBody,
    /// The answer.
    Answer(FullFilterResponse),
}

/// What is to be done next.
#[derive(Debug, Clone, Copy, PartialEq, Eq, Structural)]
pub enum FetchAction {
    /// The filter is loaded.
    Done,
    /// Wait for this many seconds, then ask again.
    RetryAfter(u64),
}

/// Acts on what became of a request for the complete filter: a filter with a
/// good signature is put in use, which ends the fetching; on anything else the
/// request is to be repeated after a wait.
pub fn on_fetch(engine: &mut DeltaEngine, backoff: &mut Backoff, event: FetchEvent) -> (r:
    FetchAction)
    ensures
        ({
            let waits = r == FetchAction::RetryAfter(old(backoff)@) && final(backoff)@
                == next_wait(old(backoff)@);
            match event {
                FetchEvent::Answer(full) => {
                    &&& final(engine)@ == after_full_filter(old(engine)@, full.payload(), full.k)
                    &&& if verify_fault(full.payload(), old(engine)@.public_key) is None {
                        r == FetchAction::Done && final(backoff)@ == old(backoff)@
                    } else {
                        waits
                    }
                },
                _ => final(engine)@ == old(engine)@ && waits,
            }
        }),
        old(engine)@.well_formed() && (event matches FetchEvent::Answer(full) ==> 8
            * full.filter_bytes@.len() <= usize::MAX) ==> final(engine)@.well_formed(),
{
    match event {
        FetchEvent::Answer(full) => {
            match engine.load_full_filter(
                full.filter_bytes,
                full.version,
                full.k,
                full.sha256.as_str(),
                full.signature.as_str(),
            ) {
                Ok(_) => FetchAction::Done,
                Err(_) => FetchAction::RetryAfter(backoff.wait()),
            }
        },
        _ => FetchAction::RetryAfter(backoff.wait()),
    }
}

// ---------------------------------------------------------------------------
// Following the stream of updates
// ---------------------------------------------------------------------------

/// The error of `core::str::from_utf8`.
#[verifier::external_type_specification]
#[verifier::external_body]
pub struct ExUtf8Error(core::str::Utf8Error);

/// `core::str::from_utf8` accepts exactly the bytes that are valid UTF-8, and
/// returns them as a string.
pub assume_specification[ core::str::from_utf8 ](v: &[u8]) -> (r: Result<
    &str,
    core::str::Utf8Error,
>)
    ensures
        r is Ok <==> valid_utf8(v@),
        r matches Ok(s) ==> s.spec_bytes() == v@,
;

/// What happened on the stream.
#[derive(Debug)]
pub enum StreamEvent {
    /// The connection could not be made.
    ConnectFailed,
    /// The status was not a success.
    Refused,
    /// The stream is open.
    Connected,
    /// Bytes arrived.
    Chunk(Vec<u8>),
    /// The stream broke off or ended.
    Ended,
}

/// What is to be done next.
#[derive(Debug, Clone, Copy, PartialEq, Eq, Structural)]
pub enum StreamAction {
    /// Wait for more bytes.
    Read,
    /// Wait for this many seconds, then connect again.
    ReconnectAfter(u64),
}

/// One follower of the stream: what is received and not yet processed, and the
/// waits between connections.
#[derive(Debug)]
pub struct StreamSession {
    pub buffer: String,
    pub backoff: Backoff,
}

impl StreamSession {
    /// A session before the first connection.
    pub fn new() -> (r: Self)
        ensures
            r.buffer@ == Seq::<char>::empty(),
            r.backoff@ == SSE_RECONNECT_SECS,
    {
        StreamSession { buffer: String::new(), backoff: Backoff::for_stream() }
    }

    /// Acts on what happened on the stream. A new connection starts with an
    /// empty buffer and the shortest wait. A chunk is appended to the buffer and
    /// the complete events are processed; one that is not UTF-8 is dropped.
    pub fn on_event<F: Fn(String) -> Option<SignedDelta>>(
        &mut self,
        engine: &mut DeltaEngine,
        event: StreamEvent,
        parse: &F,
    ) -> (r: StreamAction)
        requires
            forall|text: String| call_requires(*parse, (text,)),
        ensures
            match event {
                StreamEvent::Connected => {
                    &&& r == StreamAction::Read
                    &&& final(self).buffer@ == Seq::<char>::empty()
                    &&& final(self).backoff@ == SSE_RECONNECT_SECS
                    &&& final(engine)@ == old(engine)@
                },
                StreamEvent::Chunk(bytes) => {
                    &&& r == StreamAction::Read
                    &&& final(self).backoff@ == old(self).backoff@
                    &&& if valid_utf8(bytes@) {
                        processed(
                            *parse,
                            old(engine)@,
                            old(self).buffer@ + decode_utf8(bytes@),
                            final(engine)@,
                            final(self).buffer@,
                        )
                    } else {
                        final(engine)@ == old(engine)@ && final(self).buffer@ == old(self).buffer@
                    }
                },
                _ => {
                    &&& r == StreamAction::ReconnectAfter(old(self).backoff@)
                    &&& final(self).backoff@ == next_wait(old(self).backoff@)
                    &&& final(self).buffer@ == old(self).buffer@
                    &&& final(engine)@ == old(engine)@
                },
            },
            old(engine)@.well_formed() ==> final(engine)@.well_formed(),
    {
        match event {
            StreamEvent::Connected => {
                self.buffer = String::new();
                self.backoff = Backoff::for_stream();
                StreamAction::Read
            },
            StreamEvent::Chunk(bytes) => {
                match core::str::from_utf8(bytes.as_slice()) {
                    Ok(text) => {
                        proof {
                            encode_utf8_decode_utf8(text@);
                        }
                        self.buffer.append(text);
                        process_sse_buffer(engine, &mut self.buffer, parse);
                    },
                    Err(_) => {},
                }
                StreamAction::Read
            },
            _ => StreamAction::ReconnectAfter(self.backoff.wait()),
        }
    }
}

} // verus!
