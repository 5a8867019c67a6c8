use claurst::chat_stream::{
    process_openai_chunk, ChunkChoice, ChunkDelta, ChunkState, CompletionChunk, ContentBlock, ResponseBuilder,
    StopReason, StreamEvent, ToolCallDelta, UsageInfo,
};
use claurst::chutes::ProviderError;

fn delta() -> ChunkDelta {
    ChunkDelta { reasoning_content: None, reasoning_text: None, reasoning: None, content: None, tool_calls: None }
}

fn chunk(d: Option<ChunkDelta>, finish: Option<&str>) -> CompletionChunk {
    CompletionChunk {
        id: Some("chatcmpl-1".to_string()),
        model: Some("m1".to_string()),
        choices: Some(vec![ChunkChoice { delta: d, finish_reason: finish.map(|s| s.to_string()) }]),
        usage: None,
    }
}

fn text_of(e: &StreamEvent) -> String {
    match e {
        StreamEvent::MessageStart { id, model, .. } => format!("start {} {}", id, model),
        StreamEvent::ContentBlockStart { index, content_block: ContentBlock::Text { text } } => {
            format!("block {} text '{}'", index, text)
        }
        StreamEvent::ContentBlockStart { index, content_block: ContentBlock::ToolUse { id, name, input } } => {
            format!("block {} tool {} {} {}", index, id, name, input)
        }
        StreamEvent::TextDelta { index, text } => format!("text {} {}", index, text),
        StreamEvent::ReasoningDelta { index, reasoning } => format!("reason {} {}", index, reasoning),
        StreamEvent::InputJsonDelta { index, partial_json } => format!("json {} {}", index, partial_json),
        StreamEvent::ContentBlockStop { index } => format!("stop {}", index),
        StreamEvent::MessageDelta { stop_reason, usage } => format!("delta {:?} {:?}", stop_reason, usage.map(|u| u.output_tokens)),
        StreamEvent::MessageStop => "message stop".to_string(),
        StreamEvent::Error { error_type, message } => format!("error {} {}", error_type, message),
    }
}

fn texts(events: &[StreamEvent]) -> Vec<String> {
    events.iter().map(text_of).collect()
}

#[test]
fn first_chunk_opens_the_message() {
    let mut st = ChunkState::new();
    let mut d = delta();
    d.content = Some("Hello".to_string());
    let events = process_openai_chunk(&chunk(Some(d), None), &mut st).unwrap();
    assert_eq!(texts(&events), vec!["start chatcmpl-1 m1", "block 0 text ''", "text 0 Hello"]);
    assert!(st.message_started);
    assert_eq!(st.message_id, "chatcmpl-1");
    assert_eq!(st.model_name, "m1");

    let mut d2 = delta();
    d2.content = Some(" world".to_string());
    let mut c2 = chunk(Some(d2), None);
    c2.id = Some("ignored".to_string());
    let events = process_openai_chunk(&c2, &mut st).unwrap();
    assert_eq!(texts(&events), vec!["text 0  world"]);
    assert_eq!(st.message_id, "chatcmpl-1");
}

#[test]
fn reasoning_takes_the_first_non_empty_field() {
    let mut st = ChunkState::new();
    st.message_started = true;
    let mut d = delta();
    d.reasoning_content = Some("".to_string());
    d.reasoning_text = Some("think".to_string());
    d.reasoning = Some("other".to_string());
    d.content = Some("".to_string());
    let events = process_openai_chunk(&chunk(Some(d), None), &mut st).unwrap();
    assert_eq!(texts(&events), vec!["reason 0 think"]);
}

#[test]
fn tool_calls_and_finish() {
    let mut st = ChunkState::new();
    st.message_started = true;
    let mut d = delta();
    d.tool_calls = Some(vec![
        ToolCallDelta { index: 1, id: Some("call_b".to_string()), name: Some("search".to_string()), arguments: Some("{\"q\":".to_string()) },
        ToolCallDelta { index: 0, id: Some("call_a".to_string()), name: None, arguments: None },
    ]);
    let events = process_openai_chunk(&chunk(Some(d), None), &mut st).unwrap();
    assert_eq!(
        texts(&events),
        vec!["block 2 tool call_b search {}", "json 2 {\"q\":", "block 1 tool call_a  {}"]
    );
    assert_eq!(st.tool_call_buffers.len(), 2);
    assert_eq!(st.tool_call_buffers[0].index, 1);
    assert_eq!(st.tool_call_buffers[1].index, 2);
    assert_eq!(st.tool_call_buffers[1].arguments, "{\"q\":");

    let mut d2 = delta();
    d2.tool_calls = Some(vec![ToolCallDelta { index: 1, id: None, name: None, arguments: Some("1}".to_string()) }]);
    let mut c = chunk(Some(d2), Some("tool_calls"));
    c.usage = Some(UsageInfo { input_tokens: 3, output_tokens: 9 });
    let events = process_openai_chunk(&c, &mut st).unwrap();
    assert_eq!(
        texts(&events),
        vec!["json 2 1}", "stop 0", "stop 1", "stop 2", "delta Some(\"tool_calls\") Some(9)"]
    );
    assert_eq!(st.tool_call_buffers[1].arguments, "{\"q\":1}");
}

#[test]
fn finish_reason_null_or_empty_does_not_end() {
    let mut st = ChunkState::new();
    st.message_started = true;
    assert!(process_openai_chunk(&chunk(Some(delta()), Some("null")), &mut st).is_none());
    assert!(process_openai_chunk(&chunk(Some(delta()), Some("")), &mut st).is_none());
    let events = process_openai_chunk(&chunk(Some(delta()), Some("stop")), &mut st).unwrap();
    assert_eq!(texts(&events), vec!["stop 0", "delta Some(\"stop\") None"]);
}

#[test]
fn chunks_without_choices() {
    let mut st = ChunkState::new();
    st.message_started = true;
    let usage_only = CompletionChunk {
        id: None,
        model: None,
        choices: None,
        usage: Some(UsageInfo { input_tokens: 1, output_tokens: 2 }),
    };
    let events = process_openai_chunk(&usage_only, &mut st).unwrap();
    assert_eq!(texts(&events), vec!["delta None Some(2)"]);
    let empty = CompletionChunk { id: None, model: None, choices: Some(vec![]), usage: None };
    assert!(process_openai_chunk(&empty, &mut st).is_none());
    let no_delta = chunk(None, Some("stop"));
    assert!(process_openai_chunk(&no_delta, &mut st).is_none());
}

#[test]
fn first_chunk_without_id_keeps_defaults() {
    let mut st = ChunkState::new();
    let c = CompletionChunk { id: None, model: None, choices: None, usage: None };
    let events = process_openai_chunk(&c, &mut st).unwrap();
    assert_eq!(texts(&events), vec!["start unknown ", "block 0 text ''"]);
}

fn apply_all(b: &mut ResponseBuilder, events: Vec<StreamEvent>) -> Result<bool, ProviderError> {
    let mut last = Ok(true);
    for e in events {
        last = b.apply(&e);
        if !matches!(last, Ok(true)) {
            break;
        }
    }
    last
}

#[test]
fn builder_collects_a_response() {
    let mut b = ResponseBuilder::new();
    let events = vec![
        StreamEvent::MessageStart { id: "r1".to_string(), model: "m".to_string(), usage: UsageInfo { input_tokens: 5, output_tokens: 1 } },
        StreamEvent::ContentBlockStart { index: 2, content_block: ContentBlock::Text { text: "second".to_string() } },
        StreamEvent::ContentBlockStart { index: 0, content_block: ContentBlock::Text { text: "".to_string() } },
        StreamEvent::TextDelta { index: 0, text: "first".to_string() },
        StreamEvent::TextDelta { index: 7, text: "lost".to_string() },
        StreamEvent::ContentBlockStart {
            index: 1,
            content_block: ContentBlock::ToolUse { id: "t1".to_string(), name: "run".to_string(), input: "{}".to_string() },
        },
        StreamEvent::InputJsonDelta { index: 1, partial_json: "{\"a\":".to_string() },
        StreamEvent::InputJsonDelta { index: 1, partial_json: "2}".to_string() },
        StreamEvent::ContentBlockStart {
            index: 3,
            content_block: ContentBlock::ToolUse { id: "t2".to_string(), name: "bad".to_string(), input: "{}".to_string() },
        },
        StreamEvent::InputJsonDelta { index: 3, partial_json: "{oops".to_string() },
        StreamEvent::ContentBlockStop { index: 0 },
        StreamEvent::ContentBlockStop { index: 3 },
        StreamEvent::ContentBlockStop { index: 1 },
        StreamEvent::MessageDelta { stop_reason: Some("end_turn".to_string()), usage: Some(UsageInfo { input_tokens: 0, output_tokens: 10 }) },
        StreamEvent::MessageDelta { stop_reason: None, usage: Some(UsageInfo { input_tokens: 0, output_tokens: 4 }) },
        StreamEvent::MessageStop,
        StreamEvent::TextDelta { index: 0, text: "after stop".to_string() },
    ];
    assert!(matches!(apply_all(&mut b, events), Ok(false)));
    let r = b.finish();
    assert_eq!(r.id, "r1");
    assert_eq!(r.model, "m");
    assert!(matches!(&r.stop_reason, StopReason::Finish(s) if s == "end_turn"));
    assert_eq!(r.usage, UsageInfo { input_tokens: 5, output_tokens: 15 });
    let blocks: Vec<String> = r
        .content
        .iter()
        .map(|c| match c {
            ContentBlock::Text { text } => format!("text {}", text),
            ContentBlock::ToolUse { id, name, input } => format!("tool {} {} {}", id, name, input),
        })
        .collect();
    assert_eq!(blocks, vec!["text first", "text second", "tool t2 bad {}", "tool t1 run {\"a\":2}"]);
}

#[test]
fn builder_fails_on_error_event() {
    let mut b = ResponseBuilder::new();
    let e = StreamEvent::Error { error_type: "overloaded".to_string(), message: "busy".to_string() };
    match b.apply(&e) {
        Err(ProviderError::StreamError { message }) => assert_eq!(message, "[overloaded] busy"),
        _ => panic!("expected a stream error"),
    }
}

#[test]
fn empty_builder_finishes_with_defaults() {
    let r = ResponseBuilder::new().finish();
    assert_eq!(r.id, "unknown");
    assert_eq!(r.model, "");
    assert!(r.content.is_empty());
    assert!(matches!(r.stop_reason, StopReason::EndTurn));
    assert_eq!(r.usage, UsageInfo::default());
}
