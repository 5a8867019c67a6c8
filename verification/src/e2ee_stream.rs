//! The E2EE event stream: server-sent-event lines, the `e2e_init` /
//! `e2e` / `e2e_error` envelopes, and the decrypted chunks inside them.
//!
//! The network reads happen outside; this module buffers the bytes into
//! lines, reads each line's payload, and decides, line by line, what it means
//! and whether the stream goes on.

use vstd::prelude::*;
use vstd::utf8::{decode_utf8, valid_utf8};

use crate::chat_stream::{
    chunk_indices_fit, chunk_step, event_views, law_message_starts_once, lemma_chunk_stops_no_message,
    no_message_start, no_message_stop, process_openai_chunk, sorted_buffers, ChunkState, ChunkView,
    CompletionChunk, EventView, StateView, StreamEvent,
};
use crate::chunk_json::{completion_chunk_of_text, read_completion_chunk};
use crate::chutes::ProviderError;
use crate::e2ee::{chunk_plaintext, json_is_valid, stream_key_of, E2eeSession};
use crate::text::{
    chars_equal_str, chars_of, copy_range, lemma_split_concat, lemma_split_joined, lemma_split_last_piece, split_chars, split_on,
    string_of, trim, trimmed, views,
};

verus! {

/// The text that `String::from_utf8_lossy` makes of `bytes`.
pub uninterp spec fn utf8_lossy_decoded(bytes: Seq<u8>) -> Seq<char>;

/// `String::from_utf8_lossy`: claimed to give the named text, which for valid
/// UTF-8 is what the bytes encode.
#[verifier::external_body]
fn utf8_lossy(bytes: &[u8]) -> (s: String)
    ensures
        s@ == utf8_lossy_decoded(bytes@),
        valid_utf8(bytes@) ==> s@ == decode_utf8(bytes@),
{
    String::from_utf8_lossy(bytes).into_owned()
}

/// The envelope fields of a `data:` payload, if it is valid JSON: its
/// `e2e_init` and `e2e` values where they are strings, and the compact JSON
/// text of its `e2e_error` value where there is one.
pub uninterp spec fn sse_fields_of(data: Seq<char>) -> Option<(Option<Seq<char>>, Option<Seq<char>>, Option<Seq<char>>)>;

pub open spec fn opt_text(o: Option<String>) -> Option<Seq<char>> {
    match o {
        Some(s) => Some(s@),
        None => None,
    }
}

/// `serde_json::from_str::<Value>`, then `get("e2e_init")` and `get("e2e")`
/// read as strings and `get("e2e_error")` written back with `to_string`:
/// claimed to give the named fields, and nothing exactly when the payload is
/// not valid JSON.
#[verifier::external_body]
fn sse_fields(data: &str) -> (r: Option<(Option<String>, Option<String>, Option<String>)>)
    ensures
        r is Some <==> json_is_valid(data@),
        match r {
            Some(f) => sse_fields_of(data@) == Some((opt_text(f.0), opt_text(f.1), opt_text(f.2))),
            None => sse_fields_of(data@) is None,
        },
{
    match serde_json::from_str::<serde_json::Value>(data) {
        Ok(v) => Some((
            v.get("e2e_init").and_then(serde_json::Value::as_str).map(str::to_string),
            v.get("e2e").and_then(serde_json::Value::as_str).map(str::to_string),
            v.get("e2e_error").map(ToString::to_string),
        )),
        Err(_) => None,
    }
}

/// Buffers the text of a server-sent event stream into whole lines.
pub struct SseLineBuffer {
    leftover: String,
}

/// The lines that `text` completes after `leftover`, and what is left over:
/// the text is cut at each `\n`; when it does not end in `\n`, its last piece
/// waits for more.
pub open spec fn sse_lines(leftover: Seq<char>, text: Seq<char>) -> (Seq<Seq<char>>, Seq<char>) {
    let combined = leftover + text;
    let parts = split_on(combined, '\n');
    if combined.len() > 0 && combined.last() == '\n' {
        (parts, Seq::empty())
    } else {
        (parts.drop_last(), parts.last())
    }
}

impl SseLineBuffer {
    /// The text received since the last line break.
    pub closed spec fn spec_leftover(&self) -> Seq<char> {
        self.leftover@
    }

    /// An empty buffer.
    pub fn new() -> (b: Self)
        ensures
            b.spec_leftover().len() == 0,
    {
        SseLineBuffer { leftover: String::new() }
    }

    /// Adds received text and returns the lines it completes.
    pub fn push_text(&mut self, text: &str) -> (lines: Vec<String>)
        ensures
            lines@.map_values(|l: String| l@) == sse_lines(old(self).spec_leftover(), text@).0,
            final(self).spec_leftover() == sse_lines(old(self).spec_leftover(), text@).1,
    {
        let combined = self.leftover.clone().concat(text);
        let cs = chars_of(combined.as_str());
        let parts = split_chars(cs.as_slice(), '\n');
        proof {
            crate::text::lemma_split_on_nonempty(cs@, '\n');
        }
        let n = parts.len();
        let ends_with_newline = cs.len() > 0 && cs[cs.len() - 1] == '\n';
        let keep = if ends_with_newline { n } else { n - 1 };
        let mut lines: Vec<String> = Vec::new();
        let mut i: usize = 0;
        while i < keep
            invariant
                keep <= n,
                n == parts@.len(),
                i <= keep,
                lines@.map_values(|l: String| l@) == views(parts@).take(i as int),
            decreases keep - i,
        {
            let l = string_of(parts[i].as_slice());
            let ghost before = lines@;
            lines.push(l);
            assert(lines@.map_values(|l: String| l@) =~= before.map_values(|l: String| l@).push(l@));
            assert(views(parts@).take(i + 1) =~= views(parts@).take(i as int).push(parts@[i as int]@));
            i = i + 1;
        }
        if ends_with_newline {
            self.leftover = String::new();
            assert(views(parts@).take(n as int) == views(parts@));
        } else {
            self.leftover = string_of(parts[n - 1].as_slice());
            assert(views(parts@).take(n - 1) == views(parts@).drop_last());
        }
        lines
    }

    /// Adds received bytes, read as UTF-8 with invalid sequences replaced,
    /// and returns the lines they complete.
    pub fn push_bytes(&mut self, bytes: &[u8]) -> (lines: Vec<String>)
        ensures
            lines@.map_values(|l: String| l@) == sse_lines(old(self).spec_leftover(), utf8_lossy_decoded(bytes@)).0,
            final(self).spec_leftover() == sse_lines(old(self).spec_leftover(), utf8_lossy_decoded(bytes@)).1,
    {
        let text = utf8_lossy(bytes);
        self.push_text(text.as_str())
    }
}

/// What one line of the event stream means.
pub enum SseLine {
    /// Blank, a comment, or not a `data:` line.
    Skip,
    /// `data: [DONE]`.
    Done,
    /// The payload of a `data:` line, trimmed.
    Data(String),
}

/// What a line of the event stream means: its trailing carriage returns and
/// surrounding white space go; a blank or `:` line is skipped; so is one that
/// does not start with `data:`; the rest of a `data:` line, trimmed, is
/// `[DONE]` or a payload.
pub open spec fn spec_classify_line(line: Seq<char>) -> SseLineView {
    let t = trim(strip_trailing_cr(line));
    if t.len() == 0 || t[0] == ':' {
        SseLineView::Skip
    } else if t.len() >= 5 && t.take(5) == "data:"@ {
        let d = trim(t.skip(5));
        if d == "[DONE]"@ {
            SseLineView::Done
        } else {
            SseLineView::Data(d)
        }
    } else {
        SseLineView::Skip
    }
}

/// What an `SseLine` denotes.
pub enum SseLineView {
    Skip,
    Done,
    Data(Seq<char>),
}

impl View for SseLine {
    type V = SseLineView;

    open spec fn view(&self) -> SseLineView {
        match self {
            SseLine::Skip => SseLineView::Skip,
            SseLine::Done => SseLineView::Done,
            SseLine::Data(d) => SseLineView::Data(d@),
        }
    }
}

/// `s` without all its trailing carriage returns.
pub open spec fn strip_trailing_cr(s: Seq<char>) -> Seq<char>
    decreases s.len(),
{
    if s.len() > 0 && s.last() == '\r' {
        strip_trailing_cr(s.drop_last())
    } else {
        s
    }
}

/// Classifies one line of the event stream.
pub fn classify_line(line: &str) -> (r: SseLine)
    ensures
        r@ == spec_classify_line(line@),
{
    let cs = chars_of(line);
    let mut end = cs.len();
    assert(cs@.take(end as int) == cs@);
    while end > 0 && cs[end - 1] == '\r'
        invariant
            end <= cs@.len(),
            strip_trailing_cr(cs@) == strip_trailing_cr(cs@.take(end as int)),
        decreases end,
    {
        assert(cs@.take(end as int).drop_last() == cs@.take(end - 1));
        end = end - 1;
    }
    let stripped = copy_range(cs.as_slice(), 0, end);
    assert(stripped@ == cs@.take(end as int));
    let t = trimmed(stripped.as_slice());
    let tl = t.len();
    if tl == 0 || t[0] == ':' {
        return SseLine::Skip;
    }
    if tl >= 5 {
        let head = copy_range(t.as_slice(), 0, 5);
        assert(head@ == t@.take(5));
        if chars_equal_str(head.as_slice(), "data:") {
            let rest = copy_range(t.as_slice(), 5, tl);
            assert(rest@ == t@.skip(5));
            let d = trimmed(rest.as_slice());
            if chars_equal_str(d.as_slice(), "[DONE]") {
                return SseLine::Done;
            }
            return SseLine::Data(string_of(d.as_slice()));
        }
    }
    SseLine::Skip
}

/// The state of an E2EE event stream: the stream key once `e2e_init` has
/// given it, and the state of the decrypted chunk stream.
pub struct E2eeStreamState {
    pub stream_key: Option<Vec<u8>>,
    pub chunks: ChunkState,
}

impl E2eeStreamState {
    /// Whether the chunk state keeps its tool call buffers in order.
    pub open spec fn wf(&self) -> bool {
        sorted_buffers(self.chunks@.buffers)
    }

    /// A stream that has received nothing yet.
    pub fn new() -> (s: Self)
        ensures
            s.wf(),
            s.stream_key is None,
            !s.chunks@.started,
    {
        E2eeStreamState { stream_key: None, chunks: ChunkState::new() }
    }

    /// An `e2e_init` envelope: its ML-KEM ciphertext gives the stream key.
    pub fn on_init(&mut self, session: &E2eeSession, e2e_init: &str) -> (r: Result<(), ProviderError>)
        requires
            session.wf(),
        ensures
            final(self).chunks == old(self).chunks,
            match stream_key_of(session.spec_response_sk(), e2e_init@) {
                Some(k) => r is Ok && (final(self).stream_key matches Some(fk) && fk@ == k),
                None => r matches Err(ProviderError::StreamError { message: m })
                    && m@.take(26) == "E2EE init decrypt failed: "@
                    && final(self).stream_key == old(self).stream_key,
            },
    {
        match session.decrypt_stream_init(e2e_init) {
            Ok(key) => {
                self.stream_key = Some(key);
                Ok(())
            },
            Err(e) => {
                let m = String::from_str("E2EE init decrypt failed: ").concat(e.message().as_str());
                proof {
                    reveal_strlit("E2EE init decrypt failed: ");
                }
                assert(m@.take(26) == "E2EE init decrypt failed: "@);
                Err(ProviderError::StreamError { message: m })
            },
        }
    }

    /// An `e2e` envelope: the lines of the chunk it decrypts to under the
    /// stream key (none when no key has come yet).
    pub fn on_encrypted(&self, session: &E2eeSession, e2e_chunk: &str) -> (r: Result<Vec<String>, ProviderError>)
        ensures
            self.stream_key is None ==> (r matches Ok(v) && v@.len() == 0),
            self.stream_key matches Some(k) ==> match chunk_plaintext(e2e_chunk@, k@) {
                Some(p) => r matches Ok(v)
                    && v@.map_values(|l: String| l@) == split_on(utf8_lossy_decoded(p), '\n'),
                None => r matches Err(ProviderError::StreamError { message: m })
                    && m@.take(27) == "E2EE chunk decrypt failed: "@,
            },
    {
        match &self.stream_key {
            None => Ok(Vec::new()),
            Some(key) => match session.decrypt_stream_chunk(e2e_chunk, key.as_slice()) {
                Ok(decrypted) => {
                    let text = utf8_lossy(decrypted.as_slice());
                    let cs = chars_of(text.as_str());
                    let parts = split_chars(cs.as_slice(), '\n');
                    let n = parts.len();
                    let mut lines: Vec<String> = Vec::new();
                    let mut i: usize = 0;
                    while i < n
                        invariant
                            n == parts@.len(),
                            i <= n,
                            lines@.map_values(|l: String| l@) == views(parts@).take(i as int),
                        decreases n - i,
                    {
                        let l = string_of(parts[i].as_slice());
                        let ghost before = lines@;
                        lines.push(l);
                        assert(lines@.map_values(|l: String| l@) =~= before.map_values(|l: String| l@).push(l@));
                        assert(views(parts@).take(i + 1) =~= views(parts@).take(i as int).push(parts@[i as int]@));
                        i = i + 1;
                    }
                    assert(views(parts@).take(n as int) == views(parts@));
                    Ok(lines)
                },
                Err(e) => {
                    let m = String::from_str("E2EE chunk decrypt failed: ").concat(e.message().as_str());
                    proof {
                        reveal_strlit("E2EE chunk decrypt failed: ");
                    }
                    assert(m@.take(27) == "E2EE chunk decrypt failed: "@);
                    Err(ProviderError::StreamError { message: m })
                },
            },
        }
    }

    /// A plain (or decrypted) completion chunk: its events.
    pub fn on_chunk(&mut self, chunk: &CompletionChunk) -> (events: Vec<StreamEvent>)
        requires
            old(self).wf(),
            chunk_indices_fit(chunk@),
        ensures
            final(self).wf(),
            final(self).stream_key == old(self).stream_key,
            final(self).chunks@ == chunk_step(old(self).chunks@, chunk@).state,
            event_views(events@) == chunk_step(old(self).chunks@, chunk@).events,
    {
        match process_openai_chunk(chunk, &mut self.chunks) {
            Some(events) => events,
            None => {
                let v: Vec<StreamEvent> = Vec::new();
                assert(event_views(v@) =~= Seq::<EventView>::empty());
                v
            },
        }
    }

    /// The end of the stream (`[DONE]` or the end of the body): the message
    /// stops if it started.
    pub fn finish(&self) -> (events: Vec<StreamEvent>)
        ensures
            event_views(events@) == (if self.chunks@.started { seq![EventView::MessageStop] } else { Seq::empty() }),
    {
        let mut v: Vec<StreamEvent> = Vec::new();
        if self.chunks.message_started {
            v.push(StreamEvent::MessageStop);
            assert(event_views(v@) =~= seq![EventView::MessageStop]);
        } else {
            assert(event_views(v@) =~= Seq::<EventView>::empty());
        }
        v
    }
}

/// Which envelope a `data:` payload is.
pub enum Envelope {
    /// `e2e_init`: the ciphertext that gives the stream key.
    Init(String),
    /// `e2e`: an encrypted chunk.
    Encrypted(String),
    /// `e2e_error`: the compact JSON text of the server's error value.
    ServerError(String),
    /// None of these: a plain completion chunk.
    Plain,
}

/// Which envelope a payload is, from its `e2e_init` and `e2e` string fields
/// and its `e2e_error` value: they are looked at in that order.
pub fn route_payload(e2e_init: Option<String>, e2e: Option<String>, e2e_error: Option<String>) -> (r: Envelope)
    ensures
        match e2e_init {
            Some(i) => r matches Envelope::Init(x) && x@ == i@,
            None => match e2e {
                Some(c) => r matches Envelope::Encrypted(x) && x@ == c@,
                None => match e2e_error {
                    Some(j) => r matches Envelope::ServerError(x) && x@ == j@,
                    None => r is Plain,
                },
            },
        },
{
    match e2e_init {
        Some(i) => Envelope::Init(i),
        None => match e2e {
            Some(c) => Envelope::Encrypted(c),
            None => match e2e_error {
                Some(j) => Envelope::ServerError(j),
                None => Envelope::Plain,
            },
        },
    }
}

/// An `e2e_error` envelope: the error that ends the stream, carrying the
/// compact JSON text `{"error":…}` around the server's error value.
pub fn server_error(error_json: &str) -> (e: ProviderError)
    ensures
        e matches ProviderError::StreamError { message: m }
            && m@ == "Server E2EE error: "@ + "{\"error\":"@ + error_json@ + "}"@,
{
    let m = String::from_str("Server E2EE error: ").concat("{\"error\":").concat(error_json).concat("}");
    ProviderError::StreamError { message: m }
}


// ---------------------------------------------------------------------------
// The stream, one line at a time.
// ---------------------------------------------------------------------------

/// What a line leads to: its events, then, where `end` is `Some`, the end of
/// the stream (after an error where it holds one); `inner_lines` are the lines
/// of a decrypted chunk, still to be read one by one with `on_inner_line`.
pub struct StreamAction {
    pub events: Vec<StreamEvent>,
    pub end: Option<Option<ProviderError>>,
    pub inner_lines: Vec<String>,
}

/// Why a stream fails.
pub enum Failure {
    /// The `e2e_init` ciphertext gave no stream key.
    Init,
    /// An `e2e` chunk did not decrypt.
    Chunk,
    /// The server sent `e2e_error`, with this JSON value.
    Server(Seq<char>),
    /// A tool call's index leaves no room for its block index after it.
    Index,
}

/// Whether the stream goes on after a line.
pub enum Flow {
    Go,
    Stop,
    Fail(Failure),
}

/// What a line does: its events, whether the stream goes on, the stream key
/// and chunk state after it, and the decrypted lines it hands on.
pub struct LineStep {
    pub events: Seq<EventView>,
    pub flow: Flow,
    pub key: Option<Seq<u8>>,
    pub state: StateView,
    pub inner: Seq<Seq<char>>,
}

pub open spec fn key_bytes(k: Option<Vec<u8>>) -> Option<Seq<u8>> {
    match k {
        Some(v) => Some(v@),
        None => None,
    }
}

/// The end of a message: `MessageStop` if it started.
pub open spec fn stop_events(st: StateView) -> Seq<EventView> {
    if st.started { seq![EventView::MessageStop] } else { Seq::empty() }
}

/// A line that changes nothing and gives nothing.
pub open spec fn quiet(key: Option<Seq<u8>>, st: StateView) -> LineStep {
    LineStep { events: Seq::empty(), flow: Flow::Go, key, state: st, inner: Seq::empty() }
}

/// A line that ends the stream with `f`, giving nothing.
pub open spec fn failing(key: Option<Seq<u8>>, st: StateView, f: Failure) -> LineStep {
    LineStep { events: Seq::empty(), flow: Flow::Fail(f), key, state: st, inner: Seq::empty() }
}

/// A completion chunk, if the payload reads as one: its events; a chunk whose
/// tool call index leaves no room for the block index after it fails the
/// stream.
pub open spec fn chunk_line(key: Option<Seq<u8>>, st: StateView, chunk: Option<ChunkView>) -> LineStep {
    match chunk {
        Some(c) => if chunk_indices_fit(c) {
            LineStep {
                events: chunk_step(st, c).events,
                flow: Flow::Go,
                key,
                state: chunk_step(st, c).state,
                inner: Seq::empty(),
            }
        } else {
            failing(key, st, Failure::Index)
        },
        None => quiet(key, st),
    }
}

/// What a line of the event stream does, with my response secret key `sk`:
/// - a skipped line does nothing; `[DONE]` ends the message and the stream;
/// - a payload that is not JSON is skipped;
/// - `e2e_init` sets the stream key, or fails the stream;
/// - `e2e` hands on the lines its chunk decrypts to (nothing before a key),
///   or fails the stream;
/// - `e2e_error` fails the stream;
/// - anything else is a plain completion chunk.
pub open spec fn line_step(key: Option<Seq<u8>>, st: StateView, sk: Seq<u8>, line: Seq<char>) -> LineStep {
    match spec_classify_line(line) {
        SseLineView::Skip => quiet(key, st),
        SseLineView::Done => LineStep { events: stop_events(st), flow: Flow::Stop, key, state: st, inner: Seq::empty() },
        SseLineView::Data(d) => match sse_fields_of(d) {
            None => quiet(key, st),
            Some(fields) => match fields.0 {
                Some(i) => match stream_key_of(sk, i) {
                    Some(k) => quiet(Some(k), st),
                    None => failing(key, st, Failure::Init),
                },
                None => match fields.1 {
                    Some(c) => match key {
                        None => quiet(key, st),
                        Some(k) => match chunk_plaintext(c, k) {
                            Some(p) => LineStep {
                                events: Seq::empty(),
                                flow: Flow::Go,
                                key,
                                state: st,
                                inner: split_on(utf8_lossy_decoded(p), '\n'),
                            },
                            None => failing(key, st, Failure::Chunk),
                        },
                    },
                    None => match fields.2 {
                        Some(j) => failing(key, st, Failure::Server(j)),
                        None => chunk_line(key, st, completion_chunk_of_text(d)),
                    },
                },
            },
        },
    }
}

/// What a line of a decrypted chunk does: skipped, `[DONE]` (the end of the
/// message and the stream), or a completion chunk.
pub open spec fn inner_step(key: Option<Seq<u8>>, st: StateView, line: Seq<char>) -> LineStep {
    match spec_classify_line(line) {
        SseLineView::Skip => quiet(key, st),
        SseLineView::Done => LineStep { events: stop_events(st), flow: Flow::Stop, key, state: st, inner: Seq::empty() },
        SseLineView::Data(d) => chunk_line(key, st, completion_chunk_of_text(d)),
    }
}

/// Whether `a` carries out the step `s`: the same events and decrypted lines,
/// and an end exactly where the step stops or fails, with the error the
/// failure calls for.
pub open spec fn acts_as(a: StreamAction, s: LineStep) -> bool {
    &&& event_views(a.events@) == s.events
    &&& a.inner_lines@.map_values(|l: String| l@) == s.inner
    &&& match s.flow {
        Flow::Go => a.end is None,
        Flow::Stop => a.end matches Some(None),
        Flow::Fail(f) => a.end matches Some(Some(ProviderError::StreamError { message })) && match f {
            Failure::Init => message@.take(26) == "E2EE init decrypt failed: "@,
            Failure::Chunk => message@.take(27) == "E2EE chunk decrypt failed: "@,
            Failure::Server(j) => message@ == "Server E2EE error: "@ + "{\"error\":"@ + j + "}"@,
            Failure::Index => message@ == "Tool call index leaves no room for its block index"@,
        },
    }
}

/// Whether an action that ends the stream ends it cleanly: a failure gives no
/// event, and a stop gives at most the closing `MessageStop`.
pub open spec fn ends_cleanly(a: StreamAction) -> bool {
    a.end is Some ==> {
        &&& a.end matches Some(Some(_)) ==> a.events@.len() == 0
        &&& forall|i: int| 0 <= i < a.events@.len() ==> (#[trigger] a.events@[i]) is MessageStop
        &&& a.events@.len() <= 1
        &&& a.inner_lines@.len() == 0
    }
}

impl E2eeStreamState {
    fn go(events: Vec<StreamEvent>) -> (a: StreamAction)
        ensures
            a.events@ == events@,
            a.end is None,
            a.inner_lines@.len() == 0,
    {
        StreamAction { events, end: None, inner_lines: Vec::new() }
    }

    fn stop(&self) -> (a: StreamAction)
        ensures
            event_views(a.events@) == stop_events(self.chunks@),
            a.end matches Some(None),
            a.inner_lines@.len() == 0,
            forall|i: int| 0 <= i < a.events@.len() ==> (#[trigger] a.events@[i]) is MessageStop,
            a.events@.len() <= 1,
    {
        let events = self.finish();
        proof {
            assert forall|i: int| 0 <= i < events@.len() implies (#[trigger] events@[i]) is MessageStop by {
                assert(event_views(events@).len() == events@.len());
                assert(event_views(events@)[i] == events@[i]@);
                assert(seq![EventView::MessageStop][0] is MessageStop);
                assert(stop_events(self.chunks@)[i] is MessageStop);
            }
        }
        StreamAction { events, end: Some(None), inner_lines: Vec::new() }
    }

    fn fail(e: ProviderError) -> (a: StreamAction)
        ensures
            a.events@.len() == 0,
            a.end == Some(Some(e)),
            a.inner_lines@.len() == 0,
    {
        StreamAction { events: Vec::new(), end: Some(Some(e)), inner_lines: Vec::new() }
    }

    /// The payload of a `data:` line read as a completion chunk.
    fn chunk_action(&mut self, payload: &str) -> (a: StreamAction)
        requires
            old(self).wf(),
        ensures
            final(self).wf(),
            acts_as(a, chunk_line(key_bytes(old(self).stream_key), old(self).chunks@, completion_chunk_of_text(payload@))),
            key_bytes(final(self).stream_key) == key_bytes(old(self).stream_key),
            final(self).chunks@ == chunk_line(key_bytes(old(self).stream_key), old(self).chunks@, completion_chunk_of_text(payload@)).state,
            a.end is Some ==> a.events@.len() == 0 && a.inner_lines@.len() == 0 && a.end matches Some(Some(_)),
    {
        match read_completion_chunk(payload) {
            Some(c) => {
                if indices_fit(&c) {
                    let events = self.on_chunk(&c);
                    let a = Self::go(events);
                    assert(a.inner_lines@.map_values(|l: String| l@) =~= Seq::<Seq<char>>::empty());
                    a
                } else {
                    let a = Self::fail(index_error());
                    assert(event_views(a.events@) =~= Seq::<EventView>::empty());
                    assert(a.inner_lines@.map_values(|l: String| l@) =~= Seq::<Seq<char>>::empty());
                    a
                }
            },
            None => {
                let a = Self::go(Vec::new());
                assert(event_views(a.events@) =~= Seq::<EventView>::empty());
                assert(a.inner_lines@.map_values(|l: String| l@) =~= Seq::<Seq<char>>::empty());
                a
            },
        }
    }

    /// Reads one line of the event stream.
    pub fn on_line(&mut self, session: &E2eeSession, line: &str) -> (a: StreamAction)
        requires
            old(self).wf(),
            session.wf(),
        ensures
            final(self).wf(),
            acts_as(a, line_step(key_bytes(old(self).stream_key), old(self).chunks@, session.spec_response_sk(), line@)),
            key_bytes(final(self).stream_key)
                == line_step(key_bytes(old(self).stream_key), old(self).chunks@, session.spec_response_sk(), line@).key,
            final(self).chunks@
                == line_step(key_bytes(old(self).stream_key), old(self).chunks@, session.spec_response_sk(), line@).state,
            ends_cleanly(a),
    {
        let ghost key0 = key_bytes(self.stream_key);
        let ghost st0 = self.chunks@;
        match classify_line(line) {
            SseLine::Skip => {
                let a = Self::go(Vec::new());
                assert(event_views(a.events@) =~= Seq::<EventView>::empty());
                assert(a.inner_lines@.map_values(|l: String| l@) =~= Seq::<Seq<char>>::empty());
                a
            },
            SseLine::Done => {
                let a = self.stop();
                assert(a.inner_lines@.map_values(|l: String| l@) =~= Seq::<Seq<char>>::empty());
                a
            },
            SseLine::Data(d) => {
                match sse_fields(d.as_str()) {
                    None => {
                        let a = Self::go(Vec::new());
                        assert(event_views(a.events@) =~= Seq::<EventView>::empty());
                        assert(a.inner_lines@.map_values(|l: String| l@) =~= Seq::<Seq<char>>::empty());
                        a
                    },
                    Some(fields) => {
                        let (init, enc, err) = fields;
                        match route_payload(init, enc, err) {
                            Envelope::Init(i) => {
                                match self.on_init(session, i.as_str()) {
                                    Ok(()) => {
                                        let a = Self::go(Vec::new());
                                        assert(event_views(a.events@) =~= Seq::<EventView>::empty());
                                        assert(a.inner_lines@.map_values(|l: String| l@) =~= Seq::<Seq<char>>::empty());
                                        a
                                    },
                                    Err(e) => {
                                        let a = Self::fail(e);
                                        assert(event_views(a.events@) =~= Seq::<EventView>::empty());
                                        assert(a.inner_lines@.map_values(|l: String| l@) =~= Seq::<Seq<char>>::empty());
                                        a
                                    },
                                }
                            },
                            Envelope::Encrypted(c) => {
                                match self.on_encrypted(session, c.as_str()) {
                                    Ok(lines) => {
                                        let a = StreamAction { events: Vec::new(), end: None, inner_lines: lines };
                                        assert(event_views(a.events@) =~= Seq::<EventView>::empty());
                                        proof {
                                            if key0 is None {
                                                assert(a.inner_lines@.map_values(|l: String| l@) =~= Seq::<Seq<char>>::empty());
                                            }
                                        }
                                        a
                                    },
                                    Err(e) => {
                                        let a = Self::fail(e);
                                        assert(event_views(a.events@) =~= Seq::<EventView>::empty());
                                        assert(a.inner_lines@.map_values(|l: String| l@) =~= Seq::<Seq<char>>::empty());
                                        a
                                    },
                                }
                            },
                            Envelope::ServerError(j) => {
                                let a = Self::fail(server_error(j.as_str()));
                                assert(event_views(a.events@) =~= Seq::<EventView>::empty());
                                assert(a.inner_lines@.map_values(|l: String| l@) =~= Seq::<Seq<char>>::empty());
                                a
                            },
                            Envelope::Plain => self.chunk_action(d.as_str()),
                        }
                    },
                }
            },
        }
    }

    /// Reads one line of a decrypted chunk.
    pub fn on_inner_line(&mut self, line: &str) -> (a: StreamAction)
        requires
            old(self).wf(),
        ensures
            final(self).wf(),
            acts_as(a, inner_step(key_bytes(old(self).stream_key), old(self).chunks@, line@)),
            key_bytes(final(self).stream_key) == key_bytes(old(self).stream_key),
            final(self).chunks@ == inner_step(key_bytes(old(self).stream_key), old(self).chunks@, line@).state,
            ends_cleanly(a),
    {
        match classify_line(line) {
            SseLine::Skip => {
                let a = Self::go(Vec::new());
                assert(event_views(a.events@) =~= Seq::<EventView>::empty());
                assert(a.inner_lines@.map_values(|l: String| l@) =~= Seq::<Seq<char>>::empty());
                a
            },
            SseLine::Done => {
                let a = self.stop();
                assert(a.inner_lines@.map_values(|l: String| l@) =~= Seq::<Seq<char>>::empty());
                a
            },
            SseLine::Data(d) => self.chunk_action(d.as_str()),
        }
    }
}

/// The error that ends a stream at a tool call whose index leaves no room
/// for its block index.
pub fn index_error() -> (e: ProviderError)
    ensures
        e matches ProviderError::StreamError { message } && message@ == "Tool call index leaves no room for its block index"@,
{
    ProviderError::StreamError { message: String::from_str("Tool call index leaves no room for its block index") }
}

/// Whether every index of `tcs` leaves room for the block index after it.
fn tool_indices_fit(tcs: &Vec<crate::chat_stream::ToolCallDelta>) -> (r: bool)
    ensures
        r == forall|j: int| 0 <= j < tcs@.len() ==> (#[trigger] tcs@[j]).index < usize::MAX,
{
    let mut i: usize = 0;
    while i < tcs.len()
        invariant
            i <= tcs@.len(),
            forall|j: int| 0 <= j < i ==> (#[trigger] tcs@[j]).index < usize::MAX,
        decreases tcs@.len() - i,
    {
        if tcs[i].index == usize::MAX {
            return false;
        }
        i = i + 1;
    }
    true
}

/// Whether every tool call index of a chunk's first choice leaves room for
/// the block index after it.
pub fn indices_fit(c: &CompletionChunk) -> (r: bool)
    ensures
        r == chunk_indices_fit(c@),
{
    match &c.choices {
        None => true,
        Some(choices) => {
            if choices.len() == 0 {
                return true;
            }
            assert(crate::chat_stream::choice_views(choices@)[0] == choices@[0]@);
            match &choices[0].delta {
                None => true,
                Some(d) => match &d.tool_calls {
                    None => true,
                    Some(tcs) => {
                        let r = tool_indices_fit(tcs);
                        let ghost tv = crate::chat_stream::tool_call_views(tcs@);
                        if r {
                            assert forall|j: int| 0 <= j < tv.len() implies (#[trigger] tv[j]).index < usize::MAX by {
                                assert(tv[j] == tcs@[j]@);
                            }
                        } else {
                            let ghost j = choose|j: int| 0 <= j < tcs@.len() && !((#[trigger] tcs@[j]).index < usize::MAX);
                            assert(tv[j] == tcs@[j]@);
                        }
                        r
                    },
                },
            }
        },
    }
}

/// The error that ends a stream whose body could not be read, with the text
/// of the read error.
pub fn read_error(cause: &str) -> (e: ProviderError)
    ensures
        e matches ProviderError::StreamError { message } && message@ == "Stream read error: "@ + cause@,
{
    ProviderError::StreamError { message: String::from_str("Stream read error: ").concat(cause) }
}


// ---------------------------------------------------------------------------
// The stream as a whole.
// ---------------------------------------------------------------------------

/// One thing the stream reads: a line of the event stream, or (where the
/// first part is true) a line of a decrypted chunk.
pub open spec fn input_step(key: Option<Seq<u8>>, st: StateView, sk: Seq<u8>, it: (bool, Seq<char>)) -> LineStep {
    if it.0 {
        inner_step(key, st, it.1)
    } else {
        line_step(key, st, sk, it.1)
    }
}

/// Where a stream stands after some of its input.
pub struct RunView {
    pub events: Seq<EventView>,
    pub key: Option<Seq<u8>>,
    pub state: StateView,
    pub ended: bool,
    pub failed: bool,
}

/// The stream after the inputs `items`, in order: each is read until one ends
/// the stream, and the rest are not read.
pub open spec fn run(key: Option<Seq<u8>>, st: StateView, sk: Seq<u8>, items: Seq<(bool, Seq<char>)>) -> RunView
    decreases items.len(),
{
    if items.len() == 0 {
        RunView { events: Seq::empty(), key, state: st, ended: false, failed: false }
    } else {
        let prev = run(key, st, sk, items.drop_last());
        if prev.ended {
            prev
        } else {
            let s = input_step(prev.key, prev.state, sk, items.last());
            RunView {
                events: prev.events + s.events,
                key: s.key,
                state: s.state,
                ended: !(s.flow is Go),
                failed: s.flow is Fail,
            }
        }
    }
}

/// The events of a whole stream: the run's, then, where the input ran out
/// before the stream ended, the end of the message.
pub open spec fn run_events(key: Option<Seq<u8>>, st: StateView, sk: Seq<u8>, items: Seq<(bool, Seq<char>)>) -> Seq<EventView> {
    let r = run(key, st, sk, items);
    if r.ended { r.events } else { r.events + stop_events(r.state) }
}

proof fn lemma_step_shape(key: Option<Seq<u8>>, st: StateView, sk: Seq<u8>, it: (bool, Seq<char>))
    ensures
        ({
            let s = input_step(key, st, sk, it);
            &&& s.flow is Go ==> no_message_stop(s.events)
            &&& s.flow is Go && st.started ==> no_message_start(s.events) && s.state.started
            &&& s.flow is Go && !st.started ==> (s.events.len() == 0 && !s.state.started) || (
                s.state.started && s.events.len() >= 2 && s.events[0] is MessageStart
                && forall|i: int| 0 < i < s.events.len() ==> !(#[trigger] s.events[i] is MessageStart))
            &&& s.flow is Stop ==> s.events == stop_events(st) && s.state == st
            &&& s.flow is Fail ==> s.events.len() == 0 && s.state == st
        }),
{
    match spec_classify_line(it.1) {
        SseLineView::Data(d) => {
            match completion_chunk_of_text(d) {
                Some(c) => {
                    law_message_starts_once(st, c);
                    lemma_chunk_stops_no_message(st, c);
                },
                None => {},
            }
        },
        _ => {},
    }
}

proof fn lemma_run_shape(key: Option<Seq<u8>>, st: StateView, sk: Seq<u8>, items: Seq<(bool, Seq<char>)>)
    requires
        !st.started,
    ensures
        ({
            let r = run(key, st, sk, items);
            let ev = r.events;
            &&& r.failed ==> r.ended
            &&& r.state.started ==> ev.len() >= 1 && ev[0] is MessageStart
            &&& !r.state.started ==> ev.len() == 0
            &&& forall|i: int| 0 < i < ev.len() ==> !(#[trigger] ev[i] is MessageStart)
            &&& !r.ended ==> no_message_stop(ev)
            &&& r.failed ==> no_message_stop(ev)
            &&& r.ended && !r.failed ==> forall|i: int| 0 <= i < ev.len() - 1 ==> !(#[trigger] ev[i] is MessageStop)
            &&& r.ended && !r.failed && r.state.started ==> ev.last() is MessageStop
        }),
    decreases items.len(),
{
    if items.len() > 0 {
        let rest = items.drop_last();
        lemma_run_shape(key, st, sk, rest);
        let prev = run(key, st, sk, rest);
        if !prev.ended {
            let s = input_step(prev.key, prev.state, sk, items.last());
            lemma_step_shape(prev.key, prev.state, sk, items.last());
            let ev = prev.events + s.events;
            assert(run(key, st, sk, items).events == ev);
            assert forall|i: int| 0 < i < ev.len() implies !(#[trigger] ev[i] is MessageStart) by {
                if i < prev.events.len() {
                    assert(ev[i] == prev.events[i]);
                } else {
                    assert(ev[i] == s.events[i - prev.events.len()]);
                }
            }
            if prev.state.started {
                assert(ev[0] == prev.events[0]);
            } else if s.events.len() > 0 {
                assert(ev[0] == s.events[0]);
            }
            if s.flow is Go {
                assert forall|i: int| 0 <= i < ev.len() implies !(#[trigger] ev[i] is MessageStop) by {
                    if i < prev.events.len() {
                        assert(ev[i] == prev.events[i]);
                    } else {
                        assert(ev[i] == s.events[i - prev.events.len()]);
                    }
                }
            } else if s.flow is Stop {
                assert forall|i: int| 0 <= i < ev.len() - 1 implies !(#[trigger] ev[i] is MessageStop) by {
                    if i < prev.events.len() {
                        assert(ev[i] == prev.events[i]);
                    } else {
                        assert(ev[i] == s.events[i - prev.events.len()]);
                    }
                }
            } else {
                assert(ev == prev.events);
            }
        }
    }
}

/// A stream reads as one message that ends where the stream ends: from a
/// stream that has not started, its events open with `MessageStart` and
/// hold no other; `MessageStop` comes only last; a stream that fails gives no
/// `MessageStop` (its error is the last thing it gives); and one that started
/// and did not fail closes with `MessageStop`. Inputs after the one that ends
/// the stream are not read.
pub proof fn law_stream_reads_as_one_message(key: Option<Seq<u8>>, st: StateView, sk: Seq<u8>, items: Seq<(bool, Seq<char>)>)
    requires
        !st.started,
    ensures
        ({
            let r = run(key, st, sk, items);
            let ev = run_events(key, st, sk, items);
            &&& ev.len() > 0 ==> ev[0] is MessageStart
            &&& forall|i: int| 0 < i < ev.len() ==> !(#[trigger] ev[i] is MessageStart)
            &&& forall|i: int| 0 <= i < ev.len() - 1 ==> !(#[trigger] ev[i] is MessageStop)
            &&& r.failed ==> no_message_stop(ev)
            &&& !r.failed && r.state.started ==> ev.last() is MessageStop
            &&& r.ended ==> forall|more: Seq<(bool, Seq<char>)>|
                #[trigger] run(key, st, sk, items + more) == r
        }),
{
    lemma_run_shape(key, st, sk, items);
    let r = run(key, st, sk, items);
    let ev = run_events(key, st, sk, items);
    if !r.ended {
        let tail = stop_events(r.state);
        assert(ev == r.events + tail);
        assert forall|i: int| 0 < i < ev.len() implies !(#[trigger] ev[i] is MessageStart) by {
            if i < r.events.len() {
                assert(ev[i] == r.events[i]);
            } else {
                assert(ev[i] == tail[i - r.events.len()]);
            }
        }
        assert forall|i: int| 0 <= i < ev.len() - 1 implies !(#[trigger] ev[i] is MessageStop) by {
            if i < r.events.len() {
                assert(ev[i] == r.events[i]);
            } else {
                assert(ev[i] == tail[i - r.events.len()]);
            }
        }
        if r.state.started {
            assert(ev[0] == r.events[0]);
        }
    } else {
        assert forall|more: Seq<(bool, Seq<char>)>|
            #[trigger] run(key, st, sk, items + more) == r by {
            lemma_run_stays_ended(key, st, sk, items, more);
        }
    }
}

proof fn lemma_run_stays_ended(key: Option<Seq<u8>>, st: StateView, sk: Seq<u8>, items: Seq<(bool, Seq<char>)>, more: Seq<(bool, Seq<char>)>)
    requires
        run(key, st, sk, items).ended,
    ensures
        run(key, st, sk, items + more) == run(key, st, sk, items),
    decreases more.len(),
{
    if more.len() == 0 {
        assert(items + more == items);
    } else {
        lemma_run_stays_ended(key, st, sk, items, more.drop_last());
        assert((items + more).drop_last() == items + more.drop_last());
    }
}


proof fn lemma_failed_means_ended(key: Option<Seq<u8>>, st: StateView, sk: Seq<u8>, items: Seq<(bool, Seq<char>)>)
    ensures
        run(key, st, sk, items).failed ==> run(key, st, sk, items).ended,
    decreases items.len(),
{
    if items.len() > 0 {
        lemma_failed_means_ended(key, st, sk, items.drop_last());
    }
}

/// An empty line changes nothing: with one read anywhere among the inputs,
/// the stream stands where it stands without it, and gives the same events.
/// Together with `law_lines_whatever_the_cut`, which finds at most one empty
/// line more when the received text is cut just after a line break, the
/// stream gives the same events however its text arrives in pieces.
pub proof fn law_empty_line_changes_nothing(
    key: Option<Seq<u8>>,
    st: StateView,
    sk: Seq<u8>,
    pre: Seq<(bool, Seq<char>)>,
    post: Seq<(bool, Seq<char>)>,
)
    ensures
        run(key, st, sk, pre + seq![(false, Seq::<char>::empty())] + post) == run(key, st, sk, pre + post),
        run_events(key, st, sk, pre + seq![(false, Seq::<char>::empty())] + post) == run_events(key, st, sk, pre + post),
    decreases post.len(),
{
    let e = (false, Seq::<char>::empty());
    let with = pre + seq![e] + post;
    if post.len() == 0 {
        assert(with == pre.push(e));
        assert(pre + post == pre);
        assert(with.drop_last() == pre);
        lemma_failed_means_ended(key, st, sk, pre);
        assert(strip_trailing_cr(Seq::<char>::empty()) == Seq::<char>::empty());
        assert(trim(Seq::<char>::empty()).len() == 0);
        let prev = run(key, st, sk, pre);
        assert(prev.events + Seq::<EventView>::empty() == prev.events);
    } else {
        law_empty_line_changes_nothing(key, st, sk, pre, post.drop_last());
        assert(with.drop_last() == pre + seq![e] + post.drop_last());
        assert((pre + post).drop_last() == pre + post.drop_last());
        assert(with.last() == post.last());
        assert((pre + post).last() == post.last());
    }
}

/// Lines come out the same whichever way the received text is cut: pushing `a`
/// then `b` leaves what pushing `a + b` leaves, and gives the same lines, but
/// for one empty line more where the cut falls just after a line break; an
/// empty line is skipped.
pub proof fn law_lines_whatever_the_cut(left: Seq<char>, a: Seq<char>, b: Seq<char>)
    ensures
        ({
            let (l1, r1) = sse_lines(left, a);
            let (l2, r2) = sse_lines(r1, b);
            let (l, r) = sse_lines(left, a + b);
            &&& r2 == r
            &&& (l1 + l2 == l || (l1.len() > 0 && l1.last().len() == 0 && l1.drop_last() + l2 == l))
        }),
        spec_classify_line(Seq::<char>::empty()) is Skip,
{
    let c1 = left + a;
    let c = left + (a + b);
    assert(c == c1 + b);
    let p1 = split_on(c1, '\n');
    lemma_split_last_piece(c1, '\n');
    let ends1 = c1.len() > 0 && c1.last() == '\n';
    if !ends1 {
        let r1 = p1.last();
        let c2 = r1 + b;
        let p2 = split_on(c2, '\n');
        lemma_split_concat(c1, '\n', b);
        crate::text::lemma_split_on_nonempty(c2, '\n');
        assert(split_on(c, '\n') == p1.drop_last() + p2);
        if b.len() > 0 {
            assert(c.last() == b.last());
            assert(c2.last() == b.last());
        } else {
            assert(c == c1);
            assert(c2 == r1);
            if r1.len() > 0 {
                assert(r1.last() == r1[r1.len() - 1]);
            }
        }
        assert((p1.drop_last() + p2).drop_last() == p1.drop_last() + p2.drop_last());
        assert((p1.drop_last() + p2).last() == p2.last());
    } else {
        let c0 = c1.drop_last();
        assert(c1 == c0 + seq!['\n'] + Seq::<char>::empty());
        lemma_split_joined(c0, '\n', Seq::<char>::empty());
        assert(c == c0 + seq!['\n'] + b);
        lemma_split_joined(c0, '\n', b);
        crate::text::lemma_split_on_nonempty(b, '\n');
        assert(split_on(Seq::<char>::empty(), '\n') == seq![Seq::<char>::empty()]);
        assert(p1 == split_on(c0, '\n') + seq![Seq::<char>::empty()]);
        assert(Seq::<char>::empty() + b == b);
        if b.len() > 0 {
            assert(c.last() == b.last());
            let pb = split_on(b, '\n');
            assert((split_on(c0, '\n') + pb).drop_last() == split_on(c0, '\n') + pb.drop_last());
            assert((split_on(c0, '\n') + pb).last() == pb.last());
            assert(p1.drop_last() == split_on(c0, '\n'));
        } else {
            assert(c == c1);
            assert(split_on(c, '\n') == p1);
            assert(p1 + Seq::<Seq<char>>::empty() == p1);
        }
    }
    assert(strip_trailing_cr(Seq::<char>::empty()) == Seq::<char>::empty());
    assert(trim(Seq::<char>::empty()).len() == 0);
}

/// The lines of the event stream as inputs to read.
pub open spec fn outer_items(lines: Seq<Seq<char>>) -> Seq<(bool, Seq<char>)> {
    lines.map_values(|l: Seq<char>| (false, l))
}

/// The events do not depend on where the received text is cut: reading the
/// lines that `a` and then `b` complete after `left` leaves the stream where
/// reading those that `a + b` completes leaves it, with the same events and
/// the same text left over, whatever was read before and is read after.
pub proof fn law_events_whatever_the_cut(
    key: Option<Seq<u8>>,
    st: StateView,
    sk: Seq<u8>,
    left: Seq<char>,
    a: Seq<char>,
    b: Seq<char>,
    pre: Seq<(bool, Seq<char>)>,
    post: Seq<(bool, Seq<char>)>,
)
    ensures
        ({
            let (l1, r1) = sse_lines(left, a);
            let (l2, r2) = sse_lines(r1, b);
            let (l, r) = sse_lines(left, a + b);
            &&& r2 == r
            &&& run(key, st, sk, pre + outer_items(l1) + outer_items(l2) + post) == run(key, st, sk, pre + outer_items(l) + post)
            &&& run_events(key, st, sk, pre + outer_items(l1) + outer_items(l2) + post)
                == run_events(key, st, sk, pre + outer_items(l) + post)
        }),
{
    let (l1, r1) = sse_lines(left, a);
    let (l2, r2) = sse_lines(r1, b);
    let (l, r) = sse_lines(left, a + b);
    law_lines_whatever_the_cut(left, a, b);
    assert(outer_items(l1 + l2) =~= outer_items(l1) + outer_items(l2));
    if l1 + l2 == l {
        assert(pre + outer_items(l1) + outer_items(l2) + post == pre + outer_items(l) + post);
    } else {
        let head = l1.drop_last();
        assert(head + l2 == l);
        assert(outer_items(head + l2) =~= outer_items(head) + outer_items(l2));
        assert(l1.last() =~= Seq::<char>::empty());
        assert(l1 =~= head.push(l1.last()));
        assert(outer_items(l1) =~= outer_items(head) + seq![(false, Seq::<char>::empty())]);
        let pre2 = pre + outer_items(head);
        let post2 = outer_items(l2) + post;
        law_empty_line_changes_nothing(key, st, sk, pre2, post2);
        assert(pre + outer_items(l1) + outer_items(l2) + post == pre2 + seq![(false, Seq::<char>::empty())] + post2);
        assert(pre + outer_items(l) + post == pre2 + post2);
    }
}

} // verus!
