//! Turning OpenAI-style streamed completion chunks into stream events.
//!
//! A chunk's JSON is read into a `CompletionChunk` by `chunk_json`; here each
//! chunk is folded into the stream state and yields its events: the message
//! and text block start on the first chunk, reasoning and text deltas,
//! tool-call blocks and their argument fragments, and, on a finish reason, the
//! block stops and the message delta.

use vstd::prelude::*;

use crate::chutes::ProviderError;
use crate::e2ee::{json_is_valid, json_shape};
use crate::password_store::option_string_view;

verus! {

/// Token usage of a message.
#[derive(Clone, Copy, Debug, PartialEq, Eq, Structural)]
pub struct UsageInfo {
    pub input_tokens: u64,
    pub output_tokens: u64,
}

impl Default for UsageInfo {
    fn default() -> (u: Self)
        ensures
            u.input_tokens == 0 && u.output_tokens == 0,
    {
        UsageInfo { input_tokens: 0, output_tokens: 0 }
    }
}

/// One entry of a delta's `tool_calls` array: its `index` (0 when absent),
/// its `id`, its `function.name` and its `function.arguments`, each where the
/// chunk has it as a string.
pub struct ToolCallDelta {
    pub index: usize,
    pub id: Option<String>,
    pub name: Option<String>,
    pub arguments: Option<String>,
}

/// A choice's `delta`: the string fields it has, and its `tool_calls` array.
pub struct ChunkDelta {
    pub reasoning_content: Option<String>,
    pub reasoning_text: Option<String>,
    pub reasoning: Option<String>,
    pub content: Option<String>,
    pub tool_calls: Option<Vec<ToolCallDelta>>,
}

/// One entry of a chunk's `choices` array.
pub struct ChunkChoice {
    pub delta: Option<ChunkDelta>,
    pub finish_reason: Option<String>,
}

/// What an OpenAI-style streamed chunk holds: `id` and `model` where they are
/// strings, `choices` where it is an array, and `usage` where the key is present.
pub struct CompletionChunk {
    pub id: Option<String>,
    pub model: Option<String>,
    pub choices: Option<Vec<ChunkChoice>>,
    pub usage: Option<UsageInfo>,
}

/// The start of a content block.
pub enum ContentBlock {
    Text { text: String },
    /// A tool use; `input` is the JSON text of its input.
    ToolUse { id: String, name: String, input: String },
}

/// An event of a streamed message.
pub enum StreamEvent {
    MessageStart { id: String, model: String, usage: UsageInfo },
    ContentBlockStart { index: usize, content_block: ContentBlock },
    TextDelta { index: usize, text: String },
    ReasoningDelta { index: usize, reasoning: String },
    InputJsonDelta { index: usize, partial_json: String },
    ContentBlockStop { index: usize },
    /// The end of the message's content: the finish reason, as the server
    /// named it, and the usage it reported.
    MessageDelta { stop_reason: Option<String>, usage: Option<UsageInfo> },
    MessageStop,
    Error { error_type: String, message: String },
}

/// What a content block start denotes.
pub enum BlockView {
    Text { text: Seq<char> },
    ToolUse { id: Seq<char>, name: Seq<char>, input: Seq<char> },
}

/// What a stream event denotes.
pub enum EventView {
    MessageStart { id: Seq<char>, model: Seq<char>, usage: UsageInfo },
    ContentBlockStart { index: usize, content_block: BlockView },
    TextDelta { index: usize, text: Seq<char> },
    ReasoningDelta { index: usize, reasoning: Seq<char> },
    InputJsonDelta { index: usize, partial_json: Seq<char> },
    ContentBlockStop { index: usize },
    MessageDelta { stop_reason: Option<Seq<char>>, usage: Option<UsageInfo> },
    MessageStop,
    Error { error_type: Seq<char>, message: Seq<char> },
}

impl View for ContentBlock {
    type V = BlockView;

    open spec fn view(&self) -> BlockView {
        match self {
            ContentBlock::Text { text } => BlockView::Text { text: text@ },
            ContentBlock::ToolUse { id, name, input } => BlockView::ToolUse { id: id@, name: name@, input: input@ },
        }
    }
}

impl View for StreamEvent {
    type V = EventView;

    open spec fn view(&self) -> EventView {
        match self {
            StreamEvent::MessageStart { id, model, usage } => EventView::MessageStart { id: id@, model: model@, usage: *usage },
            StreamEvent::ContentBlockStart { index, content_block } => EventView::ContentBlockStart {
                index: *index,
                content_block: content_block@,
            },
            StreamEvent::TextDelta { index, text } => EventView::TextDelta { index: *index, text: text@ },
            StreamEvent::ReasoningDelta { index, reasoning } => EventView::ReasoningDelta {
                index: *index,
                reasoning: reasoning@,
            },
            StreamEvent::InputJsonDelta { index, partial_json } => EventView::InputJsonDelta {
                index: *index,
                partial_json: partial_json@,
            },
            StreamEvent::ContentBlockStop { index } => EventView::ContentBlockStop { index: *index },
            StreamEvent::MessageDelta { stop_reason, usage } => EventView::MessageDelta {
                stop_reason: option_string_view(*stop_reason),
                usage: *usage,
            },
            StreamEvent::MessageStop => EventView::MessageStop,
            StreamEvent::Error { error_type, message } => EventView::Error {
                error_type: error_type@,
                message: message@,
            },
        }
    }
}

/// What a tool call delta denotes.
pub struct ToolCallView {
    pub index: usize,
    pub id: Option<Seq<char>>,
    pub name: Option<Seq<char>>,
    pub arguments: Option<Seq<char>>,
}

/// What a delta denotes.
pub struct DeltaView {
    pub reasoning_content: Option<Seq<char>>,
    pub reasoning_text: Option<Seq<char>>,
    pub reasoning: Option<Seq<char>>,
    pub content: Option<Seq<char>>,
    pub tool_calls: Option<Seq<ToolCallView>>,
}

/// What a choice denotes.
pub struct ChoiceView {
    pub delta: Option<DeltaView>,
    pub finish_reason: Option<Seq<char>>,
}

/// What a completion chunk denotes.
pub struct ChunkView {
    pub id: Option<Seq<char>>,
    pub model: Option<Seq<char>>,
    pub choices: Option<Seq<ChoiceView>>,
    pub usage: Option<UsageInfo>,
}

impl View for ToolCallDelta {
    type V = ToolCallView;

    open spec fn view(&self) -> ToolCallView {
        ToolCallView {
            index: self.index,
            id: option_string_view(self.id),
            name: option_string_view(self.name),
            arguments: option_string_view(self.arguments),
        }
    }
}

/// The views of a sequence of tool call deltas.
pub open spec fn tool_call_views(v: Seq<ToolCallDelta>) -> Seq<ToolCallView> {
    v.map_values(|t: ToolCallDelta| t@)
}

impl View for ChunkDelta {
    type V = DeltaView;

    open spec fn view(&self) -> DeltaView {
        DeltaView {
            reasoning_content: option_string_view(self.reasoning_content),
            reasoning_text: option_string_view(self.reasoning_text),
            reasoning: option_string_view(self.reasoning),
            content: option_string_view(self.content),
            tool_calls: match self.tool_calls {
                Some(v) => Some(tool_call_views(v@)),
                None => None,
            },
        }
    }
}

impl View for ChunkChoice {
    type V = ChoiceView;

    open spec fn view(&self) -> ChoiceView {
        ChoiceView {
            delta: match self.delta {
                Some(d) => Some(d@),
                None => None,
            },
            finish_reason: option_string_view(self.finish_reason),
        }
    }
}

/// The views of a sequence of choices.
pub open spec fn choice_views(v: Seq<ChunkChoice>) -> Seq<ChoiceView> {
    v.map_values(|c: ChunkChoice| c@)
}

impl View for CompletionChunk {
    type V = ChunkView;

    open spec fn view(&self) -> ChunkView {
        ChunkView {
            id: option_string_view(self.id),
            model: option_string_view(self.model),
            choices: match self.choices {
                Some(v) => Some(choice_views(v@)),
                None => None,
            },
            usage: self.usage,
        }
    }
}

/// The views of a sequence of events.
pub open spec fn event_views(v: Seq<StreamEvent>) -> Seq<EventView> {
    v.map_values(|e: StreamEvent| e@)
}

/// A tool call being streamed: its block index, id, name and the argument
/// text received so far.
pub struct ToolCallBuffer {
    pub index: usize,
    pub id: String,
    pub name: String,
    pub arguments: String,
}

/// What a tool call buffer denotes.
pub struct BufferView {
    pub index: usize,
    pub id: Seq<char>,
    pub name: Seq<char>,
    pub arguments: Seq<char>,
}

impl View for ToolCallBuffer {
    type V = BufferView;

    open spec fn view(&self) -> BufferView {
        BufferView { index: self.index, id: self.id@, name: self.name@, arguments: self.arguments@ }
    }
}

pub open spec fn buffer_views(v: Seq<ToolCallBuffer>) -> Seq<BufferView> {
    v.map_values(|b: ToolCallBuffer| b@)
}

/// Tool call buffers ordered by block index, each index once.
pub open spec fn sorted_buffers(bs: Seq<BufferView>) -> bool {
    forall|i: int, j: int| 0 <= i < j < bs.len() ==> bs[i].index < bs[j].index
}

/// The state a stream of chunks carries from one chunk to the next.
pub struct ChunkState {
    pub message_started: bool,
    pub message_id: String,
    pub model_name: String,
    /// The tool calls seen so far, by block index.
    pub tool_call_buffers: Vec<ToolCallBuffer>,
}

/// What a chunk state denotes.
pub struct StateView {
    pub started: bool,
    pub id: Seq<char>,
    pub model: Seq<char>,
    pub buffers: Seq<BufferView>,
}

impl View for ChunkState {
    type V = StateView;

    open spec fn view(&self) -> StateView {
        StateView {
            started: self.message_started,
            id: self.message_id@,
            model: self.model_name@,
            buffers: buffer_views(self.tool_call_buffers@),
        }
    }
}

impl ChunkState {
    /// The state before the first chunk: no message, id `unknown`, no model,
    /// no tool calls.
    pub fn new() -> (s: Self)
        ensures
            !s@.started,
            s@.id == "unknown"@,
            s@.model.len() == 0,
            s@.buffers.len() == 0,
    {
        let s = ChunkState {
            message_started: false,
            message_id: String::from_str("unknown"),
            model_name: String::new(),
            tool_call_buffers: Vec::new(),
        };
        assert(buffer_views(s.tool_call_buffers@) =~= Seq::<BufferView>::empty());
        s
    }
}

// ---------------------------------------------------------------------------
// The meaning of one chunk.
// ---------------------------------------------------------------------------

/// Whether `o` is a non-empty string.
pub open spec fn non_empty(o: Option<Seq<char>>) -> bool {
    o matches Some(s) && s.len() > 0
}

/// The reasoning delta of a delta: the first non-empty of `reasoning_content`,
/// `reasoning_text`, `reasoning`.
pub open spec fn reasoning_events(d: DeltaView) -> Seq<EventView> {
    if non_empty(d.reasoning_content) {
        seq![EventView::ReasoningDelta { index: 0, reasoning: d.reasoning_content->Some_0 }]
    } else if non_empty(d.reasoning_text) {
        seq![EventView::ReasoningDelta { index: 0, reasoning: d.reasoning_text->Some_0 }]
    } else if non_empty(d.reasoning) {
        seq![EventView::ReasoningDelta { index: 0, reasoning: d.reasoning->Some_0 }]
    } else {
        Seq::empty()
    }
}

/// The text delta of a delta, if its content is non-empty.
pub open spec fn content_events(d: DeltaView) -> Seq<EventView> {
    if non_empty(d.content) {
        seq![EventView::TextDelta { index: 0, text: d.content->Some_0 }]
    } else {
        Seq::empty()
    }
}

/// `bs` with a fresh buffer for block `k` (empty arguments), replacing the
/// one with that index if there is one, in index order.
pub open spec fn insert_buffer(bs: Seq<BufferView>, k: usize, id: Seq<char>, name: Seq<char>) -> Seq<BufferView>
    decreases bs.len(),
{
    let fresh = BufferView { index: k, id: id, name: name, arguments: Seq::empty() };
    if bs.len() == 0 {
        seq![fresh]
    } else if bs[0].index == k {
        seq![fresh] + bs.drop_first()
    } else if bs[0].index > k {
        seq![fresh] + bs
    } else {
        seq![bs[0]] + insert_buffer(bs.drop_first(), k, id, name)
    }
}

/// Whether `bs` has a buffer for block `k`.
pub open spec fn has_buffer(bs: Seq<BufferView>, k: usize) -> bool {
    exists|i: int| 0 <= i < bs.len() && #[trigger] bs[i].index == k
}

/// `bs` with `text` appended to the arguments of the buffer of block `k`.
pub open spec fn append_arguments(bs: Seq<BufferView>, k: usize, text: Seq<char>) -> Seq<BufferView> {
    bs.map_values(|b: BufferView| if b.index == k { BufferView { arguments: b.arguments + text, ..b } } else { b })
}

/// The events and buffers after one tool call delta.
pub open spec fn tool_call_step(bs: Seq<BufferView>, tc: ToolCallView) -> (Seq<EventView>, Seq<BufferView>) {
    let k = (tc.index + 1) as usize;
    let (ev1, bs1) = match tc.id {
        Some(id) => {
            let name = match tc.name {
                Some(n) => n,
                None => Seq::<char>::empty(),
            };
            (
                seq![EventView::ContentBlockStart {
                    index: k,
                    content_block: BlockView::ToolUse { id: id, name: name, input: "{}"@ },
                }],
                insert_buffer(bs, k, id, name),
            )
        },
        None => (Seq::<EventView>::empty(), bs),
    };
    if non_empty(tc.arguments) {
        let a = tc.arguments->Some_0;
        let bs2 = if has_buffer(bs1, k) { append_arguments(bs1, k, a) } else { bs1 };
        (ev1.push(EventView::InputJsonDelta { index: k, partial_json: a }), bs2)
    } else {
        (ev1, bs1)
    }
}

/// The events and buffers after the tool call deltas `tcs`, in order.
pub open spec fn tool_calls_fold(bs: Seq<BufferView>, tcs: Seq<ToolCallView>) -> (Seq<EventView>, Seq<BufferView>)
    decreases tcs.len(),
{
    if tcs.len() == 0 {
        (Seq::empty(), bs)
    } else {
        let (e1, b1) = tool_call_step(bs, tcs[0]);
        let (e2, b2) = tool_calls_fold(b1, tcs.drop_first());
        (e1 + e2, b2)
    }
}

/// Whether a finish reason ends the message: a non-empty string other than `null`.
pub open spec fn is_finish(fr: Option<Seq<char>>) -> bool {
    fr matches Some(s) && s.len() > 0 && s != "null"@
}

/// The events that end the message: the text block stops, each tool call block
/// stops in index order, and the message delta carries the finish reason and usage.
pub open spec fn finish_events(fr: Seq<char>, bs: Seq<BufferView>, usage: Option<UsageInfo>) -> Seq<EventView> {
    seq![EventView::ContentBlockStop { index: 0 }]
        + bs.map_values(|b: BufferView| EventView::ContentBlockStop { index: b.index })
        + seq![EventView::MessageDelta { stop_reason: Some(fr), usage: usage }]
}

/// The state and events after one chunk.
pub struct StepView {
    pub events: Seq<EventView>,
    pub state: StateView,
}

/// The events a chunk opens the message with, and the state after them.
pub open spec fn opening_step(st: StateView, c: ChunkView) -> StepView {
    if !st.started {
        let id = match c.id {
            Some(s) => s,
            None => st.id,
        };
        let model = match c.model {
            Some(s) => s,
            None => st.model,
        };
        StepView {
            events: seq![
                EventView::MessageStart { id: id, model: model, usage: UsageInfo { input_tokens: 0, output_tokens: 0 } },
                EventView::ContentBlockStart { index: 0, content_block: BlockView::Text { text: Seq::empty() } },
            ],
            state: StateView { started: true, id: id, model: model, buffers: st.buffers },
        }
    } else {
        StepView { events: Seq::empty(), state: st }
    }
}

/// The events of one chunk, and the state after it.
pub open spec fn chunk_step(st: StateView, c: ChunkView) -> StepView {
    let open = opening_step(st, c);
    match c.choices {
        None => {
            let ev = match c.usage {
                Some(u) => seq![EventView::MessageDelta { stop_reason: None, usage: Some(u) }],
                None => Seq::empty(),
            };
            StepView { events: open.events + ev, state: open.state }
        },
        Some(choices) => {
            if choices.len() == 0 {
                open
            } else {
                let choice = choices[0];
                match choice.delta {
                    None => open,
                    Some(d) => {
                        let (tev, bs) = match d.tool_calls {
                            Some(tcs) => tool_calls_fold(open.state.buffers, tcs),
                            None => (Seq::<EventView>::empty(), open.state.buffers),
                        };
                        let fin = if is_finish(choice.finish_reason) {
                            finish_events(choice.finish_reason->Some_0, bs, c.usage)
                        } else {
                            Seq::empty()
                        };
                        StepView {
                            events: open.events + reasoning_events(d) + content_events(d) + tev + fin,
                            state: StateView { buffers: bs, ..open.state },
                        }
                    },
                }
            }
        },
    }
}

/// Tool call indices that leave room for the block index after them.
pub open spec fn chunk_indices_fit(c: ChunkView) -> bool {
    c.choices matches Some(choices) ==> (choices.len() > 0 ==> (choices[0].delta matches Some(d)
        ==> (d.tool_calls matches Some(tcs) ==> forall|i: int| 0 <= i < tcs.len() ==> (#[trigger] tcs[i]).index < usize::MAX)))
}

// ---------------------------------------------------------------------------
// Folding a chunk into the state.
// ---------------------------------------------------------------------------

/// Where a fresh buffer for block `k` goes: before the first buffer whose
/// index is not below `k`.
pub open spec fn insert_position(bs: Seq<BufferView>, k: usize) -> int
    decreases bs.len(),
{
    if bs.len() == 0 || bs[0].index >= k {
        0
    } else {
        1 + insert_position(bs.drop_first(), k)
    }
}

proof fn lemma_insert_buffer(bs: Seq<BufferView>, k: usize, id: Seq<char>, name: Seq<char>)
    requires
        sorted_buffers(bs),
    ensures
        ({
            let p = insert_position(bs, k);
            let fresh = BufferView { index: k, id: id, name: name, arguments: Seq::empty() };
            &&& 0 <= p <= bs.len()
            &&& forall|j: int| 0 <= j < p ==> #[trigger] bs[j].index < k
            &&& p < bs.len() ==> bs[p].index >= k
            &&& if p < bs.len() && bs[p].index == k {
                insert_buffer(bs, k, id, name) == bs.take(p) + seq![fresh] + bs.skip(p + 1)
            } else {
                insert_buffer(bs, k, id, name) == bs.take(p) + seq![fresh] + bs.skip(p)
            }
            &&& sorted_buffers(insert_buffer(bs, k, id, name))
        }),
    decreases bs.len(),
{
    let fresh = BufferView { index: k, id: id, name: name, arguments: Seq::empty() };
    if bs.len() == 0 {
        assert(bs.take(0) + seq![fresh] + bs.skip(0) == seq![fresh]);
    } else if bs[0].index >= k {
        assert(bs.take(0) + seq![fresh] + bs.skip(1) == seq![fresh] + bs.drop_first());
        assert(bs.take(0) + seq![fresh] + bs.skip(0) == seq![fresh] + bs);
        let r = insert_buffer(bs, k, id, name);
        assert forall|i: int, j: int| 0 <= i < j < r.len() implies r[i].index < r[j].index by {
            if i > 0 {
                if bs[0].index == k {
                    assert(r[i] == bs[i] && r[j] == bs[j]);
                } else {
                    assert(r[i] == bs[i - 1] && r[j] == bs[j - 1]);
                }
            } else if bs[0].index == k {
                assert(r[j] == bs[j]);
            } else {
                assert(r[j] == bs[j - 1]);
            }
        }
    } else {
        let rest = bs.drop_first();
        assert(sorted_buffers(rest)) by {
            assert forall|i: int, j: int| 0 <= i < j < rest.len() implies rest[i].index < rest[j].index by {
                assert(rest[i] == bs[i + 1] && rest[j] == bs[j + 1]);
            }
        }
        lemma_insert_buffer(rest, k, id, name);
        let p = insert_position(bs, k);
        let q = insert_position(rest, k);
        assert(p == 1 + q);
        assert forall|j: int| 0 <= j < p implies #[trigger] bs[j].index < k by {
            if j > 0 {
                assert(bs[j] == rest[j - 1]);
            }
        }
        if q < rest.len() && rest[q].index == k {
            assert(seq![bs[0]] + (rest.take(q) + seq![fresh] + rest.skip(q + 1)) == bs.take(p) + seq![fresh] + bs.skip(p + 1));
        } else {
            assert(seq![bs[0]] + (rest.take(q) + seq![fresh] + rest.skip(q)) == bs.take(p) + seq![fresh] + bs.skip(p));
        }
        let r = insert_buffer(bs, k, id, name);
        let rr = insert_buffer(rest, k, id, name);
        assert(r == seq![bs[0]] + rr);
        assert forall|i: int, j: int| 0 <= i < j < r.len() implies r[i].index < r[j].index by {
            if i > 0 {
                assert(r[i] == rr[i - 1] && r[j] == rr[j - 1]);
            } else {
                assert(r[j] == rr[j - 1]);
                // every buffer of `rr` is either from `rest` or the fresh one, both above bs[0]
                if q < rest.len() && rest[q].index == k {
                    if j - 1 < q {
                        assert(rr[j - 1] == rest[j - 1]);
                        assert(bs[j] == rest[j - 1]);
                    } else if j - 1 > q {
                        assert(rr[j - 1] == rest[j - 1]);
                        assert(bs[j] == rest[j - 1]);
                    }
                } else {
                    if j - 1 < q {
                        assert(rr[j - 1] == rest[j - 1]);
                        assert(bs[j] == rest[j - 1]);
                    } else if j - 1 > q {
                        assert(rr[j - 1] == rest[j - 2]);
                        assert(bs[j - 1] == rest[j - 2]);
                    }
                }
            }
        }
    }
}

/// Puts a fresh buffer for block `k` among `bs`, in index order.
fn insert_tool_buffer(bs: &mut Vec<ToolCallBuffer>, k: usize, id: String, name: String)
    requires
        sorted_buffers(buffer_views(old(bs)@)),
    ensures
        buffer_views(final(bs)@) == insert_buffer(buffer_views(old(bs)@), k, id@, name@),
        sorted_buffers(buffer_views(final(bs)@)),
{
    let ghost bv = buffer_views(bs@);
    let ghost fresh = BufferView { index: k, id: id@, name: name@, arguments: Seq::empty() };
    proof {
        lemma_insert_buffer(bv, k, id@, name@);
    }
    let n = bs.len();
    let mut p: usize = 0;
    while p < n && bs[p].index < k
        invariant
            n == bs@.len(),
            p <= n,
            bv == buffer_views(bs@),
            p <= insert_position(bv, k),
            forall|j: int| 0 <= j < insert_position(bv, k) ==> #[trigger] bv[j].index < k,
            insert_position(bv, k) < bv.len() ==> bv[insert_position(bv, k)].index >= k,
            insert_position(bv, k) <= bv.len(),
        decreases n - p,
    {
        assert(bv[p as int] == bs@[p as int]@);
        p = p + 1;
    }
    assert(p == insert_position(bv, k)) by {
        if p < insert_position(bv, k) {
            assert(bv[p as int] == bs@[p as int]@);
        }
    }
    let buffer = ToolCallBuffer { index: k, id, name, arguments: String::new() };
    assert(buffer@ == fresh);
    if p < n && bs[p].index == k {
        assert(bv[p as int] == bs@[p as int]@);
        bs.set(p, buffer);
        assert(buffer_views(bs@) =~= bv.take(p as int) + seq![fresh] + bv.skip(p + 1));
    } else {
        if p < n {
            assert(bv[p as int] == bs@[p as int]@);
        }
        bs.insert(p, buffer);
        assert(buffer_views(bs@) =~= bv.take(p as int) + seq![fresh] + bv.skip(p as int));
    }
}

/// Appends `text` to the arguments of the buffer of block `k`, if there is
/// one; whether there was one.
fn append_tool_arguments(bs: &mut Vec<ToolCallBuffer>, k: usize, text: &String) -> (found: bool)
    requires
        sorted_buffers(buffer_views(old(bs)@)),
    ensures
        found == has_buffer(buffer_views(old(bs)@), k),
        found ==> buffer_views(final(bs)@) == append_arguments(buffer_views(old(bs)@), k, text@),
        !found ==> buffer_views(final(bs)@) == buffer_views(old(bs)@),
        sorted_buffers(buffer_views(final(bs)@)),
{
    let ghost bv = buffer_views(bs@);
    let n = bs.len();
    let mut i: usize = 0;
    while i < n
        invariant
            n == bs@.len(),
            i <= n,
            bv == buffer_views(bs@),
            bv == buffer_views(old(bs)@),
            sorted_buffers(bv),
            forall|j: int| 0 <= j < i ==> #[trigger] bv[j].index != k,
        decreases n - i,
    {
        assert(bv[i as int] == bs@[i as int]@);
        if bs[i].index == k {
            let old_b = &bs[i];
            let updated = ToolCallBuffer {
                index: old_b.index,
                id: old_b.id.clone(),
                name: old_b.name.clone(),
                arguments: old_b.arguments.clone().concat(text.as_str()),
            };
            bs.set(i, updated);
            assert(buffer_views(bs@) =~= append_arguments(bv, k, text@)) by {
                assert forall|j: int| 0 <= j < bv.len() implies #[trigger] buffer_views(bs@)[j]
                    == append_arguments(bv, k, text@)[j] by {
                    if j != i {
                        assert(bv[j].index != k) by {
                            if j < i {
                            } else {
                                assert(bv[i as int].index < bv[j].index);
                            }
                        }
                    }
                }
            }
            assert(bv[i as int].index == k);
            return true;
        }
        i = i + 1;
    }
    false
}

/// Applies one tool call delta: its events are appended to `events`.
fn apply_tool_call(bs: &mut Vec<ToolCallBuffer>, tc: &ToolCallDelta, events: &mut Vec<StreamEvent>)
    requires
        sorted_buffers(buffer_views(old(bs)@)),
        tc.index < usize::MAX,
    ensures
        event_views(final(events)@) == event_views(old(events)@) + tool_call_step(buffer_views(old(bs)@), tc@).0,
        buffer_views(final(bs)@) == tool_call_step(buffer_views(old(bs)@), tc@).1,
        sorted_buffers(buffer_views(final(bs)@)),
{
    let k = tc.index + 1;
    let ghost e0 = event_views(events@);
    match &tc.id {
        Some(id) => {
            let name = match &tc.name {
                Some(n) => n.clone(),
                None => String::new(),
            };
            let start = StreamEvent::ContentBlockStart {
                index: k,
                content_block: ContentBlock::ToolUse { id: id.clone(), name: name.clone(), input: String::from_str("{}") },
            };
            events.push(start);
            assert(event_views(events@) =~= e0 + seq![start@]);
            insert_tool_buffer(bs, k, id.clone(), name);
        },
        None => {},
    }
    match &tc.arguments {
        Some(a) => {
            if a.as_str().unicode_len() > 0 {
                append_tool_arguments(bs, k, a);
                let ghost before = event_views(events@);
                let delta = StreamEvent::InputJsonDelta { index: k, partial_json: a.clone() };
                events.push(delta);
                assert(event_views(events@) =~= before.push(delta@));
            }
        },
        None => {},
    }
}

/// Whether `o` is a non-empty string.
fn is_non_empty(o: &Option<String>) -> (r: bool)
    ensures
        r == non_empty(option_string_view(*o)),
{
    match o {
        Some(s) => s.as_str().unicode_len() > 0,
        None => false,
    }
}

/// Appends the reasoning delta of `d`, if it has one.
fn push_reasoning(d: &ChunkDelta, events: &mut Vec<StreamEvent>)
    ensures
        event_views(final(events)@) == event_views(old(events)@) + reasoning_events(d@),
{
    let ghost before = event_views(events@);
    let chosen: Option<&String> = if is_non_empty(&d.reasoning_content) {
        d.reasoning_content.as_ref()
    } else if is_non_empty(&d.reasoning_text) {
        d.reasoning_text.as_ref()
    } else if is_non_empty(&d.reasoning) {
        d.reasoning.as_ref()
    } else {
        None
    };
    match chosen {
        Some(text) => {
            let e = StreamEvent::ReasoningDelta { index: 0, reasoning: text.clone() };
            events.push(e);
            assert(event_views(events@) =~= before + seq![e@]);
        },
        None => {
            assert(event_views(events@) =~= before + Seq::<EventView>::empty());
        },
    }
}

/// Appends the text delta of `d`, if its content is non-empty.
fn push_content(d: &ChunkDelta, events: &mut Vec<StreamEvent>)
    ensures
        event_views(final(events)@) == event_views(old(events)@) + content_events(d@),
{
    let ghost before = event_views(events@);
    if is_non_empty(&d.content) {
        let text = d.content.as_ref().unwrap();
        let e = StreamEvent::TextDelta { index: 0, text: text.clone() };
        events.push(e);
        assert(event_views(events@) =~= before + seq![e@]);
    } else {
        assert(event_views(events@) =~= before + Seq::<EventView>::empty());
    }
}

/// Applies the tool call deltas `tcs` in order.
fn apply_tool_calls(bs: &mut Vec<ToolCallBuffer>, tcs: &Vec<ToolCallDelta>, events: &mut Vec<StreamEvent>)
    requires
        sorted_buffers(buffer_views(old(bs)@)),
        forall|j: int| 0 <= j < tcs@.len() ==> (#[trigger] tcs@[j]).index < usize::MAX,
    ensures
        event_views(final(events)@) == event_views(old(events)@) + tool_calls_fold(buffer_views(old(bs)@), tool_call_views(tcs@)).0,
        buffer_views(final(bs)@) == tool_calls_fold(buffer_views(old(bs)@), tool_call_views(tcs@)).1,
        sorted_buffers(buffer_views(final(bs)@)),
{
    let ghost e0 = event_views(events@);
    let ghost b0 = buffer_views(bs@);
    let ghost tv = tool_call_views(tcs@);
    let n = tcs.len();
    let mut i: usize = 0;
    assert(tv.skip(0) == tv);
    assert(event_views(events@) =~= e0 + Seq::<EventView>::empty());
    while i < n
        invariant
            n == tcs@.len(),
            tv == tool_call_views(tcs@),
            i <= n,
            forall|j: int| 0 <= j < tcs@.len() ==> (#[trigger] tcs@[j]).index < usize::MAX,
            sorted_buffers(buffer_views(bs@)),
            event_views(events@).len() >= e0.len(),
            event_views(events@).take(e0.len() as int) == e0,
            tool_calls_fold(b0, tv).0 == event_views(events@).skip(e0.len() as int)
                + tool_calls_fold(buffer_views(bs@), tv.skip(i as int)).0,
            tool_calls_fold(b0, tv).1 == tool_calls_fold(buffer_views(bs@), tv.skip(i as int)).1,
        decreases n - i,
    {
        let ghost b = buffer_views(bs@);
        let ghost ev = event_views(events@);
        assert(tv.skip(i as int)[0] == tcs@[i as int]@);
        assert(tv.skip(i as int).drop_first() == tv.skip(i + 1));
        apply_tool_call(bs, &tcs[i], events);
        assert(event_views(events@).skip(e0.len() as int)
            =~= ev.skip(e0.len() as int) + tool_call_step(b, tcs@[i as int]@).0);
        assert(event_views(events@).take(e0.len() as int) =~= e0);
        i = i + 1;
    }
    assert(tv.skip(n as int).len() == 0);
    assert(event_views(events@) =~= e0 + event_views(events@).skip(e0.len() as int));
}

/// Appends the events that end the message.
fn push_finish(fr: &String, bs: &Vec<ToolCallBuffer>, usage: Option<UsageInfo>, events: &mut Vec<StreamEvent>)
    ensures
        event_views(final(events)@) == event_views(old(events)@) + finish_events(fr@, buffer_views(bs@), usage),
{
    let ghost before = event_views(events@);
    let ghost bv = buffer_views(bs@);
    events.push(StreamEvent::ContentBlockStop { index: 0 });
    let nb = bs.len();
    let mut j: usize = 0;
    assert(event_views(events@) =~= before + seq![EventView::ContentBlockStop { index: 0 }]
        + bv.take(0).map_values(|b: BufferView| EventView::ContentBlockStop { index: b.index }));
    while j < nb
        invariant
            nb == bs@.len(),
            j <= nb,
            bv == buffer_views(bs@),
            event_views(events@) == before + seq![EventView::ContentBlockStop { index: 0 }]
                + bv.take(j as int).map_values(|b: BufferView| EventView::ContentBlockStop { index: b.index }),
        decreases nb - j,
    {
        let idx = bs[j].index;
        let ghost prev = event_views(events@);
        events.push(StreamEvent::ContentBlockStop { index: idx });
        assert(bv[j as int].index == idx);
        assert(bv.take(j + 1).map_values(|b: BufferView| EventView::ContentBlockStop { index: b.index })
            =~= bv.take(j as int).map_values(|b: BufferView| EventView::ContentBlockStop { index: b.index })
                .push(EventView::ContentBlockStop { index: idx }));
        assert(event_views(events@) =~= prev.push(EventView::ContentBlockStop { index: idx }));
        j = j + 1;
    }
    assert(bv.take(nb as int) == bv);
    let ghost prev = event_views(events@);
    let e = StreamEvent::MessageDelta { stop_reason: Some(fr.clone()), usage: usage };
    events.push(e);
    assert(event_views(events@) =~= prev.push(e@));
}

/// Whether a finish reason ends the message.
fn ends_message(fr: &Option<String>) -> (r: bool)
    ensures
        r == is_finish(option_string_view(*fr)),
{
    match fr {
        Some(s) => {
            s.as_str().unicode_len() > 0 && !crate::text::chars_equal_str(crate::text::chars_of(s.as_str()).as_slice(), "null")
        },
        None => false,
    }
}

/// Opens the message on the first chunk.
fn open_message(chunk: &CompletionChunk, state: &mut ChunkState) -> (events: Vec<StreamEvent>)
    ensures
        final(state)@ == opening_step(old(state)@, chunk@).state,
        event_views(events@) == opening_step(old(state)@, chunk@).events,
{
    let mut events: Vec<StreamEvent> = Vec::new();
    if !state.message_started {
        match &chunk.id {
            Some(id) => {
                state.message_id = id.clone();
            },
            None => {},
        }
        match &chunk.model {
            Some(m) => {
                state.model_name = m.clone();
            },
            None => {},
        }
        let e1 = StreamEvent::MessageStart {
            id: state.message_id.clone(),
            model: state.model_name.clone(),
            usage: UsageInfo { input_tokens: 0, output_tokens: 0 },
        };
        let e2 = StreamEvent::ContentBlockStart { index: 0, content_block: ContentBlock::Text { text: String::new() } };
        events.push(e1);
        events.push(e2);
        state.message_started = true;
        assert(event_views(events@) =~= seq![e1@, e2@]);
    } else {
        assert(event_views(events@) =~= Seq::<EventView>::empty());
    }
    events
}

/// Fold a streamed completion chunk into the state and return its events, if
/// it has any: the message and text block start on the first chunk, reasoning
/// and text deltas, tool call blocks and argument fragments, and, once the
/// choice has a finish reason, the stops of every block and the message delta.
pub fn process_openai_chunk(chunk: &CompletionChunk, state: &mut ChunkState) -> (r: Option<Vec<StreamEvent>>)
    requires
        sorted_buffers(old(state)@.buffers),
        chunk_indices_fit(chunk@),
    ensures
        final(state)@ == chunk_step(old(state)@, chunk@).state,
        sorted_buffers(final(state)@.buffers),
        match r {
            Some(events) => event_views(events@) == chunk_step(old(state)@, chunk@).events
                && events@.len() > 0,
            None => chunk_step(old(state)@, chunk@).events.len() == 0,
        },
{
    let ghost st0 = state@;
    let mut events = open_message(chunk, state);
    let ghost open = opening_step(st0, chunk@);
    match &chunk.choices {
        None => {
            match &chunk.usage {
                Some(u) => {
                    let e = StreamEvent::MessageDelta { stop_reason: None, usage: Some(*u) };
                    events.push(e);
                    assert(event_views(events@) =~= open.events + seq![e@]);
                },
                None => {
                    assert(event_views(events@) =~= open.events + Seq::<EventView>::empty());
                },
            }
        },
        Some(choices) => {
            if choices.len() > 0 {
                let choice = &choices[0];
                match &choice.delta {
                    None => {},
                    Some(d) => {
                        push_reasoning(d, &mut events);
                        push_content(d, &mut events);
                        let ghost before_t = event_views(events@);
                        match &d.tool_calls {
                            Some(tcs) => {
                                assert forall|j: int| 0 <= j < tcs@.len() implies (#[trigger] tcs@[j]).index < usize::MAX by {
                                    assert(tool_call_views(tcs@)[j] == tcs@[j]@);
                                }
                                apply_tool_calls(&mut state.tool_call_buffers, tcs, &mut events);
                            },
                            None => {
                                assert(event_views(events@) =~= before_t + Seq::<EventView>::empty());
                            },
                        }
                        let ghost before_f = event_views(events@);
                        if ends_message(&choice.finish_reason) {
                            let fr = choice.finish_reason.as_ref().unwrap();
                            push_finish(fr, &state.tool_call_buffers, chunk.usage, &mut events);
                        } else {
                            assert(event_views(events@) =~= before_f + Seq::<EventView>::empty());
                        }
                    },
                }
            }
        },
    }
    if events.len() == 0 {
        None
    } else {
        Some(events)
    }
}

// ---------------------------------------------------------------------------
// Collecting a whole response from its events.
// ---------------------------------------------------------------------------

/// Why a response stopped.
pub enum StopReason {
    /// The model ended its turn: what a response says when the stream gave no
    /// finish reason.
    EndTurn,
    /// The finish reason the server gave, as it named it.
    Finish(String),
}

/// A complete, non-streamed response.
pub struct ProviderResponse {
    pub id: String,
    pub content: Vec<ContentBlock>,
    /// The finish reason the server gave last, or the end of the turn.
    pub stop_reason: StopReason,
    pub usage: UsageInfo,
    pub model: String,
}

/// Collects a response from the events of its stream.
pub struct ResponseBuilder {
    id: String,
    model: String,
    text_parts: Vec<(usize, String)>,
    content_blocks: Vec<ContentBlock>,
    stop_reason: Option<String>,
    usage: UsageInfo,
    tool_buffers: Vec<ToolCallBuffer>,
}

/// What a response builder holds.
pub struct BuilderView {
    pub id: Seq<char>,
    pub model: Seq<char>,
    pub text_parts: Seq<(usize, Seq<char>)>,
    pub blocks: Seq<BlockView>,
    pub stop_reason: Option<Seq<char>>,
    pub usage: UsageInfo,
    pub tools: Seq<BufferView>,
}

pub open spec fn part_views(v: Seq<(usize, String)>) -> Seq<(usize, Seq<char>)> {
    v.map_values(|p: (usize, String)| (p.0, p.1@))
}

pub open spec fn block_views(v: Seq<ContentBlock>) -> Seq<BlockView> {
    v.map_values(|b: ContentBlock| b@)
}

impl View for ResponseBuilder {
    type V = BuilderView;

    closed spec fn view(&self) -> BuilderView {
        BuilderView {
            id: self.id@,
            model: self.model@,
            text_parts: part_views(self.text_parts@),
            blocks: block_views(self.content_blocks@),
            stop_reason: option_string_view(self.stop_reason),
            usage: self.usage,
            tools: buffer_views(self.tool_buffers@),
        }
    }
}

/// `parts` with `text` appended to the first part of block `index`.
pub open spec fn append_text_part(parts: Seq<(usize, Seq<char>)>, index: usize, text: Seq<char>) -> Seq<(usize, Seq<char>)>
    decreases parts.len(),
{
    if parts.len() == 0 {
        parts
    } else if parts[0].0 == index {
        seq![(index, parts[0].1 + text)] + parts.drop_first()
    } else {
        seq![parts[0]] + append_text_part(parts.drop_first(), index, text)
    }
}

/// The buffer of block `k` in `bs`, if any.
pub open spec fn buffer_of(bs: Seq<BufferView>, k: usize) -> Option<BufferView>
    decreases bs.len(),
{
    if bs.len() == 0 {
        None
    } else if bs[0].index == k {
        Some(bs[0])
    } else {
        buffer_of(bs.drop_first(), k)
    }
}

/// `bs` without the buffer of block `k`.
pub open spec fn remove_buffer(bs: Seq<BufferView>, k: usize) -> Seq<BufferView>
    decreases bs.len(),
{
    if bs.len() == 0 {
        bs
    } else if bs[0].index == k {
        bs.drop_first()
    } else {
        seq![bs[0]] + remove_buffer(bs.drop_first(), k)
    }
}

/// What the builder holds after an event that neither stops nor fails the stream.
pub open spec fn builder_step(b: BuilderView, e: EventView) -> BuilderView {
    match e {
        EventView::MessageStart { id, model, usage } => BuilderView { id: id, model: model, usage: usage, ..b },
        EventView::ContentBlockStart { index, content_block } => match content_block {
            BlockView::Text { text } => BuilderView { text_parts: b.text_parts.push((index, text)), ..b },
            BlockView::ToolUse { id, name, input } => BuilderView { tools: insert_buffer(b.tools, index, id, name), ..b },
        },
        EventView::TextDelta { index, text } => BuilderView { text_parts: append_text_part(b.text_parts, index, text), ..b },
        EventView::InputJsonDelta { index, partial_json } => if has_buffer(b.tools, index) {
            BuilderView { tools: append_arguments(b.tools, index, partial_json), ..b }
        } else {
            b
        },
        EventView::ContentBlockStop { index } => match buffer_of(b.tools, index) {
            Some(t) => BuilderView {
                blocks: b.blocks.push(BlockView::ToolUse { id: t.id, name: t.name, input: tool_input(t.arguments) }),
                tools: remove_buffer(b.tools, index),
                ..b
            },
            None => b,
        },
        EventView::MessageDelta { stop_reason, usage } => BuilderView {
            stop_reason: if stop_reason is Some { stop_reason } else { b.stop_reason },
            usage: match usage {
                Some(u) => UsageInfo { output_tokens: (b.usage.output_tokens + u.output_tokens) as u64, ..b.usage },
                None => b.usage,
            },
            ..b
        },
        _ => b,
    }
}

/// `sorted` with `p` put before its first part of a higher block index.
pub open spec fn insert_part(sorted: Seq<(usize, Seq<char>)>, p: (usize, Seq<char>)) -> Seq<(usize, Seq<char>)>
    decreases sorted.len(),
{
    if sorted.len() == 0 {
        seq![p]
    } else if sorted[0].0 > p.0 {
        seq![p] + sorted
    } else {
        seq![sorted[0]] + insert_part(sorted.drop_first(), p)
    }
}

/// `parts` ordered by block index, parts of one block in the order they came
/// (a stable sort).
pub open spec fn sort_parts(parts: Seq<(usize, Seq<char>)>) -> Seq<(usize, Seq<char>)>
    decreases parts.len(),
{
    if parts.len() == 0 {
        parts
    } else {
        insert_part(sort_parts(parts.drop_last()), parts.last())
    }
}

/// The content of the response: the text blocks in block order, then the
/// tool uses in the order they were completed.
pub open spec fn response_content(b: BuilderView) -> Seq<BlockView> {
    sort_parts(b.text_parts).map_values(|p: (usize, Seq<char>)| BlockView::Text { text: p.1 }) + b.blocks
}

/// What `ResponseBuilder::apply` answers to an event: stop at `MessageStop`,
/// fail at `Error`, go on otherwise.
pub open spec fn apply_outcome(e: EventView) -> Option<Seq<char>> {
    match e {
        EventView::Error { error_type, message } => Some("["@ + error_type + "] "@ + message),
        _ => None,
    }
}

/// The position where `p` goes in `sorted`: its first part of a higher index.
pub open spec fn part_position(sorted: Seq<(usize, Seq<char>)>, index: usize) -> int
    decreases sorted.len(),
{
    if sorted.len() == 0 || sorted[0].0 > index {
        0
    } else {
        1 + part_position(sorted.drop_first(), index)
    }
}

proof fn lemma_insert_part(sorted: Seq<(usize, Seq<char>)>, p: (usize, Seq<char>))
    ensures
        0 <= part_position(sorted, p.0) <= sorted.len(),
        forall|j: int| 0 <= j < part_position(sorted, p.0) ==> #[trigger] sorted[j].0 <= p.0,
        part_position(sorted, p.0) < sorted.len() ==> sorted[part_position(sorted, p.0)].0 > p.0,
        insert_part(sorted, p) == sorted.take(part_position(sorted, p.0)) + seq![p] + sorted.skip(part_position(sorted, p.0)),
    decreases sorted.len(),
{
    if sorted.len() == 0 {
        assert(sorted.take(0) + seq![p] + sorted.skip(0) == seq![p]);
    } else if sorted[0].0 > p.0 {
        assert(sorted.take(0) + seq![p] + sorted.skip(0) == seq![p] + sorted);
    } else {
        let rest = sorted.drop_first();
        lemma_insert_part(rest, p);
        let q = part_position(rest, p.0);
        assert forall|j: int| 0 <= j < 1 + q implies #[trigger] sorted[j].0 <= p.0 by {
            if j > 0 {
                assert(sorted[j] == rest[j - 1]);
            }
        }
        assert(seq![sorted[0]] + (rest.take(q) + seq![p] + rest.skip(q)) == sorted.take(1 + q) + seq![p] + sorted.skip(1 + q));
    }
}

proof fn lemma_append_text_part(parts: Seq<(usize, Seq<char>)>, index: usize, text: Seq<char>, i: int)
    requires
        0 <= i <= parts.len(),
        forall|j: int| 0 <= j < i ==> #[trigger] parts[j].0 != index,
    ensures
        append_text_part(parts, index, text) == parts.take(i) + append_text_part(parts.skip(i), index, text),
    decreases i,
{
    if i == 0 {
        assert(parts.skip(0) == parts);
        assert(parts.take(0) + append_text_part(parts, index, text) == append_text_part(parts, index, text));
    } else {
        let rest = parts.drop_first();
        lemma_append_text_part(rest, index, text, i - 1);
        assert(rest.skip(i - 1) == parts.skip(i));
        assert(seq![parts[0]] + rest.take(i - 1) == parts.take(i));
    }
}

proof fn lemma_remove_buffer(bs: Seq<BufferView>, k: usize, i: int)
    requires
        0 <= i < bs.len(),
        bs[i].index == k,
        forall|j: int| 0 <= j < i ==> #[trigger] bs[j].index != k,
    ensures
        remove_buffer(bs, k) == bs.take(i) + bs.skip(i + 1),
        buffer_of(bs, k) == Some(bs[i]),
    decreases i,
{
    if i == 0 {
        assert(bs.take(0) + bs.skip(1) == bs.drop_first());
    } else {
        let rest = bs.drop_first();
        lemma_remove_buffer(rest, k, i - 1);
        assert(seq![bs[0]] + (rest.take(i - 1) + rest.skip(i)) == bs.take(i) + bs.skip(i + 1));
    }
}

proof fn lemma_no_buffer(bs: Seq<BufferView>, k: usize)
    requires
        forall|j: int| 0 <= j < bs.len() ==> #[trigger] bs[j].index != k,
    ensures
        buffer_of(bs, k) is None,
        !has_buffer(bs, k),
    decreases bs.len(),
{
    if bs.len() > 0 {
        let rest = bs.drop_first();
        assert forall|j: int| 0 <= j < rest.len() implies #[trigger] rest[j].index != k by {
            assert(rest[j] == bs[j + 1]);
        }
        lemma_no_buffer(rest, k);
    }
}

proof fn lemma_sorted_without(bs: Seq<BufferView>, i: int)
    requires
        sorted_buffers(bs),
        0 <= i < bs.len(),
    ensures
        sorted_buffers(bs.take(i) + bs.skip(i + 1)),
{
    let nb = bs.take(i) + bs.skip(i + 1);
    assert forall|a: int, c: int| 0 <= a < c < nb.len() implies nb[a].index < nb[c].index by {
        let a2 = if a < i { a } else { a + 1 };
        let c2 = if c < i { c } else { c + 1 };
        assert(nb[a] == bs[a2]);
        assert(nb[c] == bs[c2]);
    }
}

/// The input of a finished tool call: its argument text where that is valid
/// JSON, the empty object otherwise.
pub open spec fn tool_input(arguments: Seq<char>) -> Seq<char> {
    if json_is_valid(arguments) {
        arguments
    } else {
        "{}"@
    }
}

/// Appends `text` to the first part of block `index`, if there is one.
fn append_to_part(parts: &mut Vec<(usize, String)>, index: usize, text: &String)
    ensures
        part_views(final(parts)@) == append_text_part(part_views(old(parts)@), index, text@),
{
    let ghost pv = part_views(parts@);
    let n = parts.len();
    let mut i: usize = 0;
    while i < n
        invariant
            n == parts@.len(),
            i <= n,
            pv == part_views(parts@),
            pv == part_views(old(parts)@),
            forall|j: int| 0 <= j < i ==> #[trigger] pv[j].0 != index,
        decreases n - i,
    {
        assert(pv[i as int] == (parts@[i as int].0, parts@[i as int].1@));
        if parts[i].0 == index {
            let joined = parts[i].1.clone().concat(text.as_str());
            parts.set(i, (index, joined));
            proof {
                lemma_append_text_part(pv, index, text@, i as int);
                assert(pv.skip(i as int)[0] == pv[i as int]);
                assert(pv.skip(i as int).drop_first() == pv.skip(i + 1));
                assert(part_views(parts@) =~= pv.take(i as int) + (seq![(index, pv[i as int].1 + text@)] + pv.skip(i + 1)));
            }
            return;
        }
        i = i + 1;
    }
    proof {
        lemma_append_text_part(pv, index, text@, n as int);
        assert(pv.skip(n as int).len() == 0);
        assert(pv.take(n as int) + pv.skip(n as int) == pv);
    }
}

/// Removes and returns the buffer of block `k`, if there is one.
fn take_tool_buffer(bs: &mut Vec<ToolCallBuffer>, k: usize) -> (r: Option<ToolCallBuffer>)
    requires
        sorted_buffers(buffer_views(old(bs)@)),
    ensures
        sorted_buffers(buffer_views(final(bs)@)),
        match r {
            Some(t) => buffer_of(buffer_views(old(bs)@), k) == Some(t@)
                && buffer_views(final(bs)@) == remove_buffer(buffer_views(old(bs)@), k),
            None => buffer_of(buffer_views(old(bs)@), k) is None
                && buffer_views(final(bs)@) == buffer_views(old(bs)@),
        },
{
    let ghost bv = buffer_views(bs@);
    let n = bs.len();
    let mut i: usize = 0;
    while i < n
        invariant
            n == bs@.len(),
            i <= n,
            bv == buffer_views(bs@),
            bv == buffer_views(old(bs)@),
            sorted_buffers(bv),
            forall|j: int| 0 <= j < i ==> #[trigger] bv[j].index != k,
        decreases n - i,
    {
        assert(bv[i as int] == bs@[i as int]@);
        if bs[i].index == k {
            proof {
                lemma_remove_buffer(bv, k, i as int);
                lemma_sorted_without(bv, i as int);
            }
            let t = bs.remove(i);
            assert(buffer_views(bs@) =~= bv.take(i as int) + bv.skip(i + 1));
            return Some(t);
        }
        i = i + 1;
    }
    proof {
        lemma_no_buffer(bv, k);
    }
    None
}

impl ResponseBuilder {
    /// The builder's invariant: tool buffers in block order.
    pub open spec fn wf(&self) -> bool {
        sorted_buffers(self@.tools)
    }

    /// A builder that has seen no event: id `unknown`, no model, no content,
    /// no finish reason, zero usage.
    pub fn new() -> (b: Self)
        ensures
            b.wf(),
            b@.id == "unknown"@,
            b@.model.len() == 0,
            b@.text_parts.len() == 0,
            b@.blocks.len() == 0,
            b@.stop_reason is None,
            b@.usage == (UsageInfo { input_tokens: 0, output_tokens: 0 }),
            b@.tools.len() == 0,
    {
        let b = ResponseBuilder {
            id: String::from_str("unknown"),
            model: String::new(),
            text_parts: Vec::new(),
            content_blocks: Vec::new(),
            stop_reason: None,
            usage: UsageInfo { input_tokens: 0, output_tokens: 0 },
            tool_buffers: Vec::new(),
        };
        assert(part_views(b.text_parts@) =~= Seq::<(usize, Seq<char>)>::empty());
        assert(block_views(b.content_blocks@) =~= Seq::<BlockView>::empty());
        assert(buffer_views(b.tool_buffers@) =~= Seq::<BufferView>::empty());
        b
    }

    /// Whether adding the usage of `e` to the output tokens so far stays in range.
    pub open spec fn usage_fits(&self, e: EventView) -> bool {
        e matches EventView::MessageDelta { usage: Some(u), .. } ==> self@.usage.output_tokens + u.output_tokens <= u64::MAX
    }

    /// Whether `event` can be taken: its usage, if any, added to the output
    /// tokens so far stays in range.
    pub fn can_apply(&self, event: &StreamEvent) -> (r: bool)
        ensures
            r == self.usage_fits(event@),
    {
        match event {
            StreamEvent::MessageDelta { usage: Some(u), .. } => u.output_tokens <= u64::MAX - self.usage.output_tokens,
            _ => true,
        }
    }

    /// Takes one event: `Ok(false)` at `MessageStop`, an error at `Error`,
    /// otherwise `Ok(true)` with the event folded in.
    pub fn apply(&mut self, event: &StreamEvent) -> (r: Result<bool, ProviderError>)
        requires
            old(self).wf(),
            old(self).usage_fits(event@),
        ensures
            final(self).wf(),
            event@ is MessageStop ==> r == Ok::<bool, ProviderError>(false) && final(self)@ == old(self)@,
            apply_outcome(event@) matches Some(m) ==> (r matches Err(ProviderError::StreamError { message })
                && message@ == m && final(self)@ == old(self)@),
            !(event@ is MessageStop) && apply_outcome(event@) is None ==> r == Ok::<bool, ProviderError>(true)
                && final(self)@ == builder_step(old(self)@, event@),
    {
        match event {
            StreamEvent::MessageStart { id, model, usage } => {
                self.id = id.clone();
                self.model = model.clone();
                self.usage = *usage;
                Ok(true)
            },
            StreamEvent::ContentBlockStart { index, content_block } => {
                match content_block {
                    ContentBlock::Text { text } => {
                        let ghost before = self.text_parts@;
                        self.text_parts.push((*index, text.clone()));
                        assert(part_views(self.text_parts@) =~= part_views(before).push((*index, text@)));
                    },
                    ContentBlock::ToolUse { id, name, input: _ } => {
                        insert_tool_buffer(&mut self.tool_buffers, *index, id.clone(), name.clone());
                    },
                }
                Ok(true)
            },
            StreamEvent::TextDelta { index, text } => {
                append_to_part(&mut self.text_parts, *index, text);
                Ok(true)
            },
            StreamEvent::InputJsonDelta { index, partial_json } => {
                append_tool_arguments(&mut self.tool_buffers, *index, partial_json);
                Ok(true)
            },
            StreamEvent::ContentBlockStop { index } => {
                match take_tool_buffer(&mut self.tool_buffers, *index) {
                    Some(t) => {
                        let input = if json_shape(t.arguments.as_str()).0 {
                            t.arguments
                        } else {
                            String::from_str("{}")
                        };
                        let ghost before = self.content_blocks@;
                        let block = ContentBlock::ToolUse { id: t.id, name: t.name, input };
                        self.content_blocks.push(block);
                        assert(block_views(self.content_blocks@) =~= block_views(before).push(block@));
                    },
                    None => {},
                }
                Ok(true)
            },
            StreamEvent::MessageDelta { stop_reason, usage } => {
                match stop_reason {
                    Some(r) => {
                        self.stop_reason = Some(r.clone());
                    },
                    None => {},
                }
                match usage {
                    Some(u) => {
                        self.usage.output_tokens = self.usage.output_tokens + u.output_tokens;
                    },
                    None => {},
                }
                Ok(true)
            },
            StreamEvent::MessageStop => Ok(false),
            StreamEvent::Error { error_type, message } => {
                let m = String::from_str("[").concat(error_type.as_str()).concat("] ").concat(message.as_str());
                Err(ProviderError::StreamError { message: m })
            },
            StreamEvent::ReasoningDelta { .. } => Ok(true),
        }
    }

    /// The response collected: text blocks in block order, then tool uses.
    pub fn finish(self) -> (r: ProviderResponse)
        ensures
            r.id@ == self@.id,
            r.model@ == self@.model,
            match self@.stop_reason {
                Some(s) => r.stop_reason matches StopReason::Finish(x) && x@ == s,
                None => r.stop_reason is EndTurn,
            },
            r.usage == self@.usage,
            block_views(r.content@) == response_content(self@),
    {
        let ghost pv = part_views(self.text_parts@);
        let n = self.text_parts.len();
        let mut sorted: Vec<(usize, String)> = Vec::new();
        let mut i: usize = 0;
        assert(pv.take(0) =~= Seq::<(usize, Seq<char>)>::empty());
        while i < n
            invariant
                n == self.text_parts@.len(),
                i <= n,
                pv == part_views(self.text_parts@),
                part_views(sorted@) == sort_parts(pv.take(i as int)),
            decreases n - i,
        {
            let idx = self.text_parts[i].0;
            let ghost sv = part_views(sorted@);
            let ghost p = pv[i as int];
            assert(p == (idx, self.text_parts@[i as int].1@));
            proof {
                lemma_insert_part(sv, p);
            }
            let m = sorted.len();
            let mut pos: usize = 0;
            while pos < m && sorted[pos].0 <= idx
                invariant
                    m == sorted@.len(),
                    sv == part_views(sorted@),
                    pos <= part_position(sv, idx),
                    forall|j: int| 0 <= j < part_position(sv, idx) ==> #[trigger] sv[j].0 <= idx,
                    part_position(sv, idx) < sv.len() ==> sv[part_position(sv, idx)].0 > idx,
                    part_position(sv, idx) <= sv.len(),
                decreases m - pos,
            {
                assert(sv[pos as int].0 == sorted@[pos as int].0);
                pos = pos + 1;
            }
            assert(pos == part_position(sv, idx)) by {
                if pos < part_position(sv, idx) {
                    assert(sv[pos as int].0 == sorted@[pos as int].0);
                }
            }
            let text = self.text_parts[i].1.clone();
            sorted.insert(pos, (idx, text));
            assert(part_views(sorted@) =~= sv.take(pos as int) + seq![p] + sv.skip(pos as int));
            assert(pv.take(i + 1).drop_last() == pv.take(i as int));
            assert(pv.take(i + 1).last() == p);
            i = i + 1;
        }
        assert(pv.take(n as int) == pv);
        let ghost sorted_view = part_views(sorted@);
        let mut content: Vec<ContentBlock> = Vec::new();
        let mut j: usize = 0;
        let sn = sorted.len();
        while j < sn
            invariant
                sn == sorted@.len(),
                j <= sn,
                sorted_view == part_views(sorted@),
                block_views(content@) == sorted_view.take(j as int).map_values(|p: (usize, Seq<char>)| BlockView::Text { text: p.1 }),
            decreases sn - j,
        {
            let ghost before = content@;
            let b = ContentBlock::Text { text: sorted[j].1.clone() };
            content.push(b);
            assert(block_views(content@) =~= block_views(before).push(b@));
            assert(sorted_view.take(j + 1).map_values(|p: (usize, Seq<char>)| BlockView::Text { text: p.1 })
                =~= sorted_view.take(j as int).map_values(|p: (usize, Seq<char>)| BlockView::Text { text: p.1 }).push(b@));
            j = j + 1;
        }
        assert(sorted_view.take(sn as int) == sorted_view);
        let ghost text_blocks = block_views(content@);
        let ghost rest = block_views(self.content_blocks@);
        let mut blocks = self.content_blocks;
        content.append(&mut blocks);
        assert(block_views(content@) =~= text_blocks + rest);
        ProviderResponse {
            id: self.id,
            content,
            stop_reason: match self.stop_reason {
                Some(s) => StopReason::Finish(s),
                None => StopReason::EndTurn,
            },
            usage: self.usage,
            model: self.model,
        }
    }
}

// ---------------------------------------------------------------------------
// Laws of the chunk stream.
// ---------------------------------------------------------------------------

/// Whether none of `events` starts a message.
pub open spec fn no_message_start(events: Seq<EventView>) -> bool {
    forall|i: int| 0 <= i < events.len() ==> !(#[trigger] events[i] is MessageStart)
}

proof fn lemma_tool_calls_start_no_message(bs: Seq<BufferView>, tcs: Seq<ToolCallView>)
    ensures
        no_message_start(tool_calls_fold(bs, tcs).0),
    decreases tcs.len(),
{
    if tcs.len() > 0 {
        let (e1, b1) = tool_call_step(bs, tcs[0]);
        lemma_tool_calls_start_no_message(b1, tcs.drop_first());
        let e2 = tool_calls_fold(b1, tcs.drop_first()).0;
        assert forall|i: int| 0 <= i < (e1 + e2).len() implies !(#[trigger] (e1 + e2)[i] is MessageStart) by {
            if i >= e1.len() {
                assert((e1 + e2)[i] == e2[i - e1.len()]);
            }
        }
    }
}

/// A message starts once: after any chunk the stream has started; a chunk on a
/// stream that has not started opens it with `MessageStart` and the text block
/// at index 0; a chunk on a started stream starts no message.
pub proof fn law_message_starts_once(st: StateView, c: ChunkView)
    ensures
        chunk_step(st, c).state.started,
        !st.started ==> chunk_step(st, c).events.len() >= 2
            && chunk_step(st, c).events[0] is MessageStart
            && chunk_step(st, c).events[1] == (EventView::ContentBlockStart {
                index: 0,
                content_block: BlockView::Text { text: Seq::empty() },
            }),
        st.started ==> no_message_start(chunk_step(st, c).events),
        forall|i: int| 0 < i < chunk_step(st, c).events.len() ==> !(#[trigger] chunk_step(st, c).events[i] is MessageStart),
{
    let open = opening_step(st, c);
    let ev = chunk_step(st, c).events;
    match c.choices {
        None => {},
        Some(choices) => {
            if choices.len() > 0 {
                let choice = choices[0];
                match choice.delta {
                    None => {},
                    Some(d) => {
                        let tev = match d.tool_calls {
                            Some(tcs) => {
                                lemma_tool_calls_start_no_message(open.state.buffers, tcs);
                                tool_calls_fold(open.state.buffers, tcs).0
                            },
                            None => Seq::<EventView>::empty(),
                        };
                        let bs = match d.tool_calls {
                            Some(tcs) => tool_calls_fold(open.state.buffers, tcs).1,
                            None => open.state.buffers,
                        };
                        let fin = if is_finish(choice.finish_reason) {
                            finish_events(choice.finish_reason->Some_0, bs, c.usage)
                        } else {
                            Seq::empty()
                        };
                        let head = open.events + reasoning_events(d) + content_events(d);
                        assert(ev == head + tev + fin);
                        assert forall|i: int| 0 <= i < ev.len() && (st.started || i > 0)
                            implies !(#[trigger] ev[i] is MessageStart) by {
                            if i < head.len() {
                                assert(head[i] == ev[i]);
                                if i < open.events.len() {
                                    assert(head[i] == open.events[i]);
                                }
                            } else if i < head.len() + tev.len() {
                                assert(ev[i] == tev[i - head.len()]);
                            } else {
                                let j = i - head.len() - tev.len();
                                assert(ev[i] == fin[j]);
                                if is_finish(choice.finish_reason) {
                                    let stops = bs.map_values(|b: BufferView| EventView::ContentBlockStop { index: b.index });
                                    if 1 <= j < 1 + stops.len() {
                                        assert(fin[j] == stops[j - 1]);
                                    }
                                }
                            }
                        }
                        if !st.started {
                            assert(ev[0] == open.events[0]);
                            assert(ev[1] == open.events[1]);
                        }
                    },
                }
            }
        },
    }
}

/// Whether none of `events` stops the message.
pub open spec fn no_message_stop(events: Seq<EventView>) -> bool {
    forall|i: int| 0 <= i < events.len() ==> !(#[trigger] events[i] is MessageStop)
}

proof fn lemma_tool_calls_stop_no_message(bs: Seq<BufferView>, tcs: Seq<ToolCallView>)
    ensures
        no_message_stop(tool_calls_fold(bs, tcs).0),
    decreases tcs.len(),
{
    if tcs.len() > 0 {
        let (e1, b1) = tool_call_step(bs, tcs[0]);
        lemma_tool_calls_stop_no_message(b1, tcs.drop_first());
        let e2 = tool_calls_fold(b1, tcs.drop_first()).0;
        assert forall|i: int| 0 <= i < (e1 + e2).len() implies !(#[trigger] (e1 + e2)[i] is MessageStop) by {
            if i >= e1.len() {
                assert((e1 + e2)[i] == e2[i - e1.len()]);
            }
        }
    }
}

pub proof fn lemma_chunk_stops_no_message(st: StateView, c: ChunkView)
    ensures
        no_message_stop(chunk_step(st, c).events),
{
    let open = opening_step(st, c);
    let ev = chunk_step(st, c).events;
    match c.choices {
        None => {},
        Some(choices) => {
            if choices.len() > 0 {
                let choice = choices[0];
                match choice.delta {
                    None => {},
                    Some(d) => {
                        let tev = match d.tool_calls {
                            Some(tcs) => {
                                lemma_tool_calls_stop_no_message(open.state.buffers, tcs);
                                tool_calls_fold(open.state.buffers, tcs).0
                            },
                            None => Seq::<EventView>::empty(),
                        };
                        let bs = match d.tool_calls {
                            Some(tcs) => tool_calls_fold(open.state.buffers, tcs).1,
                            None => open.state.buffers,
                        };
                        let fin = if is_finish(choice.finish_reason) {
                            finish_events(choice.finish_reason->Some_0, bs, c.usage)
                        } else {
                            Seq::empty()
                        };
                        let head = open.events + reasoning_events(d) + content_events(d);
                        assert(ev == head + tev + fin);
                        assert forall|i: int| 0 <= i < ev.len() implies !(#[trigger] ev[i] is MessageStop) by {
                            if i < head.len() {
                                assert(head[i] == ev[i]);
                                if i < open.events.len() {
                                    assert(head[i] == open.events[i]);
                                }
                            } else if i < head.len() + tev.len() {
                                assert(ev[i] == tev[i - head.len()]);
                            } else {
                                let j = i - head.len() - tev.len();
                                assert(ev[i] == fin[j]);
                                if is_finish(choice.finish_reason) {
                                    let stops = bs.map_values(|b: BufferView| EventView::ContentBlockStop { index: b.index });
                                    if 1 <= j < 1 + stops.len() {
                                        assert(fin[j] == stops[j - 1]);
                                    }
                                }
                            }
                        }
                    },
                }
            }
        },
    }
}

/// The events and state after the chunks `cs`, in order, from the state `st`.
pub open spec fn chunks_fold(st: StateView, cs: Seq<ChunkView>) -> StepView
    decreases cs.len(),
{
    if cs.len() == 0 {
        StepView { events: Seq::empty(), state: st }
    } else {
        let prev = chunks_fold(st, cs.drop_last());
        let step = chunk_step(prev.state, cs.last());
        StepView { events: prev.events + step.events, state: step.state }
    }
}

/// The events of a whole stream of chunks `cs` from the state `st`: the
/// chunks' events, then `MessageStop` once the message has started.
pub open spec fn stream_events(st: StateView, cs: Seq<ChunkView>) -> Seq<EventView> {
    let f = chunks_fold(st, cs);
    f.events + if f.state.started { seq![EventView::MessageStop] } else { Seq::empty() }
}

proof fn lemma_fold_shape(st: StateView, cs: Seq<ChunkView>)
    requires
        !st.started,
    ensures
        cs.len() == 0 ==> chunks_fold(st, cs).events.len() == 0 && !chunks_fold(st, cs).state.started,
        cs.len() > 0 ==> {
            let ev = chunks_fold(st, cs).events;
            &&& chunks_fold(st, cs).state.started
            &&& ev.len() >= 2
            &&& ev[0] is MessageStart
            &&& forall|i: int| 0 < i < ev.len() ==> !(#[trigger] ev[i] is MessageStart)
        },
        no_message_stop(chunks_fold(st, cs).events),
    decreases cs.len(),
{
    if cs.len() > 0 {
        let rest = cs.drop_last();
        lemma_fold_shape(st, rest);
        let prev = chunks_fold(st, rest);
        let step = chunk_step(prev.state, cs.last());
        law_message_starts_once(prev.state, cs.last());
        lemma_chunk_stops_no_message(prev.state, cs.last());
        let ev = prev.events + step.events;
        assert(chunks_fold(st, cs).events == ev);
        assert forall|i: int| 0 <= i < ev.len() implies !(#[trigger] ev[i] is MessageStop) by {
            if i >= prev.events.len() {
                assert(ev[i] == step.events[i - prev.events.len()]);
            } else {
                assert(ev[i] == prev.events[i]);
            }
        }
        if rest.len() == 0 {
            assert(ev == step.events);
        } else {
            assert(ev[0] == prev.events[0]);
            assert forall|i: int| 0 < i < ev.len() implies !(#[trigger] ev[i] is MessageStart) by {
                if i >= prev.events.len() {
                    assert(ev[i] == step.events[i - prev.events.len()]);
                } else {
                    assert(ev[i] == prev.events[i]);
                }
            }
        }
    }
}

/// A stream of chunks reads as one message: with no chunk, no event; with
/// some, the events open with `MessageStart`, close with `MessageStop`, and
/// neither comes anywhere else.
pub proof fn law_stream_is_one_message(st: StateView, cs: Seq<ChunkView>)
    requires
        !st.started,
    ensures
        cs.len() == 0 ==> stream_events(st, cs).len() == 0,
        cs.len() > 0 ==> {
            let ev = stream_events(st, cs);
            &&& ev.len() >= 3
            &&& ev[0] is MessageStart
            &&& ev.last() is MessageStop
            &&& forall|i: int| 0 < i < ev.len() ==> !(#[trigger] ev[i] is MessageStart)
            &&& forall|i: int| 0 <= i < ev.len() - 1 ==> !(#[trigger] ev[i] is MessageStop)
        },
{
    lemma_fold_shape(st, cs);
    let f = chunks_fold(st, cs);
    if cs.len() > 0 {
        let ev = stream_events(st, cs);
        assert(ev == f.events.push(EventView::MessageStop));
        assert forall|i: int| 0 < i < ev.len() implies !(#[trigger] ev[i] is MessageStart) by {
            if i < f.events.len() {
                assert(ev[i] == f.events[i]);
            }
        }
        assert forall|i: int| 0 <= i < ev.len() - 1 implies !(#[trigger] ev[i] is MessageStop) by {
            assert(ev[i] == f.events[i]);
        }
    } else {
        assert(stream_events(st, cs) =~= Seq::<EventView>::empty());
    }
}

/// Whether `o` holds a string of at least one character.
pub open spec fn non_empty_text(o: Option<Seq<char>>) -> bool {
    match o {
        Some(t) => t.len() > 0,
        None => false,
    }
}

/// A chunk's reasoning text comes right after the events that open the
/// message: the first non-empty one of the delta's `reasoning_content`,
/// `reasoning_text` and `reasoning`, as a reasoning delta of block 0; a
/// non-empty `content` follows as a text delta of block 0.
#[verifier::spinoff_prover]
#[verifier::rlimit(50)]
pub proof fn law_reasoning_follows_the_opening(st: StateView, c: ChunkView)
    requires
        c.choices matches Some(cs) && cs.len() > 0 && cs[0].delta is Some,
    ensures
        ({
            let d = c.choices->Some_0[0].delta->Some_0;
            let ev = chunk_step(st, c).events;
            let k = opening_step(st, c).events.len();
            &&& non_empty_text(d.reasoning_content) ==> ev.len() > k
                && ev[k as int] == (EventView::ReasoningDelta { index: 0, reasoning: d.reasoning_content->Some_0 })
            &&& !non_empty_text(d.reasoning_content) && non_empty_text(d.reasoning_text) ==> ev.len() > k
                && ev[k as int] == (EventView::ReasoningDelta { index: 0, reasoning: d.reasoning_text->Some_0 })
            &&& !non_empty_text(d.reasoning_content) && !non_empty_text(d.reasoning_text) && non_empty_text(d.reasoning)
                ==> ev.len() > k && ev[k as int] == (EventView::ReasoningDelta { index: 0, reasoning: d.reasoning->Some_0 })
            &&& {
                let j = if non_empty_text(d.reasoning_content) || non_empty_text(d.reasoning_text)
                    || non_empty_text(d.reasoning) { k + 1 } else { k + 0 };
                non_empty_text(d.content) ==> ev.len() > j
                    && ev[j as int] == (EventView::TextDelta { index: 0, text: d.content->Some_0 })
            }
        }),
{
    let cs = c.choices->Some_0;
    let choice = cs[0];
    let d = choice.delta->Some_0;
    let open = opening_step(st, c);
    let (tev, bs) = match d.tool_calls {
        Some(tcs) => tool_calls_fold(open.state.buffers, tcs),
        None => (Seq::<EventView>::empty(), open.state.buffers),
    };
    let fin = if is_finish(choice.finish_reason) {
        finish_events(choice.finish_reason->Some_0, bs, c.usage)
    } else {
        Seq::empty()
    };
    let ev = chunk_step(st, c).events;
    let rest = content_events(d) + tev + fin;
    assert(ev == open.events + reasoning_events(d) + content_events(d) + tev + fin);
    assert(ev =~= open.events + (reasoning_events(d) + rest));
    let k = open.events.len() as int;
    if reasoning_events(d).len() > 0 {
        assert(ev[k] == (reasoning_events(d) + rest)[0]);
        assert((reasoning_events(d) + rest)[0] == reasoning_events(d)[0]);
    }
    if content_events(d).len() > 0 {
        let j = k + reasoning_events(d).len();
        assert(ev =~= (open.events + reasoning_events(d)) + (content_events(d) + (tev + fin)));
        assert(ev[j] == (content_events(d) + (tev + fin))[0]);
    }
}

/// A finished tool call's input is its argument text where that is valid
/// JSON, and the empty object otherwise (the empty text included, where it
/// is not JSON).
pub proof fn law_tool_input_is_json_or_empty_object(arguments: Seq<char>)
    ensures
        json_is_valid(arguments) ==> tool_input(arguments) == arguments,
        !json_is_valid(arguments) ==> tool_input(arguments) == "{}"@,
        json_is_valid(tool_input(arguments)) || tool_input(arguments) == "{}"@,
{
}

/// Stopping a tool call's block completes its tool use: it comes last among
/// the blocks, with the call's id and name, and as input its arguments where
/// they are valid JSON and the empty object otherwise; the call's buffer goes.
pub proof fn law_block_stop_completes_the_tool_use(b: BuilderView, index: usize)
    requires
        buffer_of(b.tools, index) is Some,
    ensures
        ({
            let t = buffer_of(b.tools, index)->Some_0;
            let after = builder_step(b, EventView::ContentBlockStop { index });
            &&& after.blocks.len() == b.blocks.len() + 1
            &&& after.blocks.take(b.blocks.len() as int) == b.blocks
            &&& after.blocks.last() == (BlockView::ToolUse {
                id: t.id,
                name: t.name,
                input: if json_is_valid(t.arguments) { t.arguments } else { "{}"@ },
            })
        }),
{
    let t = buffer_of(b.tools, index)->Some_0;
    let after = builder_step(b, EventView::ContentBlockStop { index });
    assert(after.blocks.take(b.blocks.len() as int) =~= b.blocks);
}

/// A tool call delta with an id opens a tool-use block at one past its index,
/// with that id, its name (empty when absent) and the empty object as input;
/// a non-empty argument fragment follows as the last event, for that same
/// block; nothing else comes of it.
pub proof fn law_tool_call_events(bs: Seq<BufferView>, tc: ToolCallView)
    ensures
        ({
            let ev = tool_call_step(bs, tc).0;
            let k = (tc.index + 1) as usize;
            &&& tc.id matches Some(i) ==> ev.len() >= 1 && ev[0] == (EventView::ContentBlockStart {
                index: k,
                content_block: BlockView::ToolUse {
                    id: i,
                    name: match tc.name {
                        Some(n) => n,
                        None => Seq::<char>::empty(),
                    },
                    input: "{}"@,
                },
            })
            &&& non_empty_text(tc.arguments) ==> ev.len() >= 1
                && ev.last() == (EventView::InputJsonDelta { index: k, partial_json: tc.arguments->Some_0 })
            &&& ev.len() == (if tc.id is Some { 1int } else { 0int }) + (if non_empty_text(tc.arguments) { 1int } else { 0int })
        }),
{
}

/// The first chunk opens the message with the chunk's id and model (the ones
/// held before where the chunk has none) and no usage, then the empty text
/// block 0.
pub proof fn law_message_start_names(st: StateView, c: ChunkView)
    requires
        !st.started,
    ensures
        ({
            let ev = chunk_step(st, c).events;
            &&& ev.len() >= 2
            &&& ev[0] == (EventView::MessageStart {
                id: match c.id {
                    Some(i) => i,
                    None => st.id,
                },
                model: match c.model {
                    Some(m) => m,
                    None => st.model,
                },
                usage: UsageInfo { input_tokens: 0, output_tokens: 0 },
            })
            &&& ev[1] == (EventView::ContentBlockStart { index: 0, content_block: BlockView::Text { text: Seq::empty() } })
            &&& chunk_step(st, c).state.id == ev[0]->MessageStart_id
            &&& chunk_step(st, c).state.model == ev[0]->MessageStart_model
        }),
{
    law_message_starts_once(st, c);
    let open = opening_step(st, c);
    let ev = chunk_step(st, c).events;
    assert(ev[0] == open.events[0]);
}

/// A chunk without a `choices` array gives, after any opening events, only a
/// message delta with its usage, where it has one, and no stop reason.
pub proof fn law_usage_only_chunk(st: StateView, c: ChunkView)
    requires
        c.choices is None,
    ensures
        chunk_step(st, c).events == opening_step(st, c).events + match c.usage {
            Some(u) => seq![EventView::MessageDelta { stop_reason: None, usage: Some(u) }],
            None => Seq::<EventView>::empty(),
        },
        chunk_step(st, c).state == opening_step(st, c).state,
{
}

/// A finish reason (non-empty, not `null`) closes the message's content: the
/// events end with the stop of text block 0, the stops of the open tool-use
/// blocks in index order, and the message delta carrying the reason and the
/// chunk's usage.
#[verifier::spinoff_prover]
#[verifier::rlimit(50)]
pub proof fn law_finish_closes_the_blocks(st: StateView, c: ChunkView)
    requires
        c.choices matches Some(cs) && cs.len() > 0 && cs[0].delta is Some,
        c.choices->Some_0[0].finish_reason matches Some(f) && f.len() > 0 && f != "null"@,
    ensures
        ({
            let f = c.choices->Some_0[0].finish_reason->Some_0;
            let ev = chunk_step(st, c).events;
            let bs = chunk_step(st, c).state.buffers;
            let n = ev.len();
            &&& n >= bs.len() + 2
            &&& ev[n - 1] == (EventView::MessageDelta { stop_reason: Some(f), usage: c.usage })
            &&& ev[n - bs.len() - 2] == (EventView::ContentBlockStop { index: 0 })
            &&& forall|i: int| 0 <= i < bs.len() ==> #[trigger] ev[n - bs.len() - 1 + i]
                == (EventView::ContentBlockStop { index: bs[i].index })
        }),
{
    let cs = c.choices->Some_0;
    let choice = cs[0];
    let d = choice.delta->Some_0;
    let f = choice.finish_reason->Some_0;
    let open = opening_step(st, c);
    let (tev, bs) = match d.tool_calls {
        Some(tcs) => tool_calls_fold(open.state.buffers, tcs),
        None => (Seq::<EventView>::empty(), open.state.buffers),
    };
    let fin = finish_events(f, bs, c.usage);
    let head = open.events + reasoning_events(d) + content_events(d) + tev;
    let ev = chunk_step(st, c).events;
    assert(ev == head + fin);
    assert(chunk_step(st, c).state.buffers == bs);
    let stops = bs.map_values(|b: BufferView| EventView::ContentBlockStop { index: b.index });
    assert(fin == seq![EventView::ContentBlockStop { index: 0 }] + stops + seq![EventView::MessageDelta { stop_reason: Some(f), usage: c.usage }]);
    let n = ev.len();
    let h = head.len();
    assert(n == h + bs.len() + 2);
    assert(ev[n - 1] == fin[fin.len() - 1]);
    assert(ev[h as int] == fin[0]);
    assert forall|i: int| 0 <= i < bs.len() implies #[trigger] ev[n - bs.len() - 1 + i]
        == (EventView::ContentBlockStop { index: bs[i].index }) by {
        assert(ev[n - bs.len() - 1 + i] == fin[1 + i]);
        assert(fin[1 + i] == stops[i]);
    }
}

/// What the response builder records of the message: a message start sets
/// its id, model and usage; a message delta sets the stop reason where it
/// carries one (keeping the earlier one otherwise) and adds its output token
/// count to the usage, leaving the input count; a text delta goes to the first
/// text part of its block. None of these touches the finished blocks.
pub proof fn law_builder_records_the_message(b: BuilderView, e: EventView)
    ensures
        e matches EventView::MessageStart { id, model, usage } ==> {
            let a = builder_step(b, e);
            a.id == id && a.model == model && a.usage == usage && a.blocks == b.blocks
        },
        e matches EventView::MessageDelta { stop_reason, usage } ==> {
            let a = builder_step(b, e);
            &&& a.stop_reason == (if stop_reason is Some { stop_reason } else { b.stop_reason })
            &&& a.usage.input_tokens == b.usage.input_tokens
            &&& (usage matches Some(u) ==> a.usage.output_tokens == (b.usage.output_tokens + u.output_tokens) as u64)
            &&& (usage is None ==> a.usage == b.usage)
            &&& a.blocks == b.blocks
        },
        e matches EventView::TextDelta { index, text } ==> {
            let a = builder_step(b, e);
            a.text_parts == append_text_part(b.text_parts, index, text) && a.blocks == b.blocks
        },
{
}

} // verus!

