use base64::Engine;
use chacha20poly1305::aead::Aead;
use chacha20poly1305::{ChaCha20Poly1305, KeyInit};
use pqcrypto_kyber::kyber768;
use pqcrypto_traits::kem::PublicKey as PublicKeyTrait;

use claurst::chat_stream::{ChunkChoice, ChunkDelta, CompletionChunk, StreamEvent};
use claurst::chutes::ProviderError;
use claurst::e2ee::E2eeSession;
use claurst::e2ee_stream::{
    classify_line, read_error, route_payload, server_error, E2eeStreamState, Envelope, SseLine, SseLineBuffer, StreamAction,
};

#[test]
fn lines_wait_for_their_newline() {
    let mut b = SseLineBuffer::new();
    assert_eq!(b.push_text("data: a\nda"), vec!["data: a".to_string()]);
    assert_eq!(b.push_text("ta: b\n\n"), vec!["data: b".to_string(), "".to_string(), "".to_string()]);
    assert!(b.push_text("").is_empty());
    assert_eq!(b.push_text("x\r\n"), vec!["x\r".to_string(), "".to_string()]);
}

#[test]
fn line_kinds() {
    assert!(matches!(classify_line(""), SseLine::Skip));
    assert!(matches!(classify_line(": keep-alive"), SseLine::Skip));
    assert!(matches!(classify_line("event: x"), SseLine::Skip));
    assert!(matches!(classify_line("data: [DONE]\r"), SseLine::Done));
    match classify_line("  data:   {\"a\":1}  \r\r") {
        SseLine::Data(d) => assert_eq!(d, "{\"a\":1}"),
        _ => panic!("expected data"),
    }
    match classify_line("data:x") {
        SseLine::Data(d) => assert_eq!(d, "x"),
        _ => panic!("expected data"),
    }
}

#[test]
fn server_errors_wrap_the_value() {
    match server_error("\"bad nonce\"") {
        ProviderError::StreamError { message } => assert_eq!(message, "Server E2EE error: {\"error\":\"bad nonce\"}"),
        _ => panic!("expected a stream error"),
    }
}

#[test]
fn encrypted_chunks_need_a_key_first() {
    let (server_pk, _sk) = kyber768::keypair();
    let session = E2eeSession::new(server_pk.as_bytes());
    let mut st = E2eeStreamState::new();
    assert!(st.on_encrypted(&session, "AAAA").unwrap().is_empty());
    match st.on_init(&session, "%%%") {
        Err(ProviderError::StreamError { message }) => assert!(message.starts_with("E2EE init decrypt failed: ")),
        _ => panic!("expected a stream error"),
    }
    assert!(st.stream_key.is_none());
}

#[test]
fn decrypted_chunk_gives_its_lines() {
    let (server_pk, _sk) = kyber768::keypair();
    let session = E2eeSession::new(server_pk.as_bytes());
    let key = vec![3u8; 32];
    let st = E2eeStreamState { stream_key: Some(key.clone()), chunks: claurst::chat_stream::ChunkState::new() };
    let nonce = [5u8; 12];
    let cipher = ChaCha20Poly1305::new_from_slice(&key).unwrap();
    let sealed = cipher.encrypt(&nonce.into(), b"data: one\ndata: two".as_ref()).unwrap();
    let mut blob = nonce.to_vec();
    blob.extend_from_slice(&sealed);
    let b64 = base64::engine::general_purpose::STANDARD.encode(&blob);
    assert_eq!(st.on_encrypted(&session, &b64).unwrap(), vec!["data: one".to_string(), "data: two".to_string()]);
    match st.on_encrypted(&session, "AAAAAAAAAAAAAAAAAAAAAAAAAAAAAAAAAAAAAAAA") {
        Err(ProviderError::StreamError { message }) => assert!(message.starts_with("E2EE chunk decrypt failed: ")),
        _ => panic!("expected a stream error"),
    }
}

#[test]
fn chunks_and_the_end_of_the_stream() {
    let mut st = E2eeStreamState::new();
    assert!(st.finish().is_empty());
    let c = CompletionChunk {
        id: Some("x".to_string()),
        model: Some("m".to_string()),
        choices: Some(vec![ChunkChoice {
            delta: Some(ChunkDelta { reasoning_content: None, reasoning_text: None, reasoning: None, content: Some("hi".to_string()), tool_calls: None }),
            finish_reason: None,
        }]),
        usage: None,
    };
    let events = st.on_chunk(&c);
    assert_eq!(events.len(), 3);
    assert!(matches!(events[2], StreamEvent::TextDelta { index: 0, .. }));
    let end = st.finish();
    assert_eq!(end.len(), 1);
    assert!(matches!(end[0], StreamEvent::MessageStop));
}

#[test]
fn envelopes_are_routed_in_order() {
    let s = |x: &str| Some(x.to_string());
    assert!(matches!(route_payload(s("i"), s("e"), s("{}")), Envelope::Init(x) if x == "i"));
    assert!(matches!(route_payload(None, s("e"), s("{}")), Envelope::Encrypted(x) if x == "e"));
    assert!(matches!(route_payload(None, None, s("\"x\"")), Envelope::ServerError(x) if x == "\"x\""));
    assert!(matches!(route_payload(None, None, None), Envelope::Plain));
}

#[test]
fn a_stream_is_one_message() {
    let mut st = E2eeStreamState::new();
    let mut events = Vec::new();
    for text in ["a", "b"] {
        let c = CompletionChunk {
            id: Some("x".to_string()),
            model: None,
            choices: Some(vec![ChunkChoice {
                delta: Some(ChunkDelta { reasoning_content: None, reasoning_text: None, reasoning: None, content: Some(text.to_string()), tool_calls: None }),
                finish_reason: if text == "b" { Some("stop".to_string()) } else { None },
            }]),
            usage: None,
        };
        events.extend(st.on_chunk(&c));
    }
    events.extend(st.finish());
    assert!(matches!(events[0], StreamEvent::MessageStart { .. }));
    assert_eq!(events.iter().filter(|e| matches!(e, StreamEvent::MessageStart { .. })).count(), 1);
    assert!(matches!(events.last(), Some(StreamEvent::MessageStop)));
    assert_eq!(events.iter().filter(|e| matches!(e, StreamEvent::MessageStop)).count(), 1);
    assert_eq!(events.len(), 7);
}

fn ended_with_error(a: &StreamAction) -> Option<String> {
    match &a.end {
        Some(Some(ProviderError::StreamError { message })) => Some(message.clone()),
        _ => None,
    }
}

#[test]
fn bytes_are_read_lossily_into_lines() {
    let mut b = SseLineBuffer::new();
    assert_eq!(b.push_bytes(b"data: a\n"), vec!["data: a".to_string(), "".to_string()]);
    assert_eq!(b.push_bytes(&[b'x', 0xff, b'\n']), vec!["x\u{fffd}".to_string(), "".to_string()]);
}

#[test]
fn lines_drive_the_stream() {
    let (server_pk, _sk) = kyber768::keypair();
    let session = E2eeSession::new(server_pk.as_bytes());
    let mut st = E2eeStreamState::new();

    let a = st.on_line(&session, ": ping");
    assert!(a.events.is_empty() && a.end.is_none() && a.inner_lines.is_empty());
    let a = st.on_line(&session, "data: not json");
    assert!(a.events.is_empty() && a.end.is_none());
    let a = st.on_line(&session, "data: {\"e2e\":\"AAAA\"}");
    assert!(a.events.is_empty() && a.end.is_none() && a.inner_lines.is_empty());

    let a = st.on_line(&session, "data: {\"id\":\"x\",\"model\":\"m\",\"choices\":[{\"delta\":{\"content\":\"hi\"}}]}");
    assert_eq!(a.events.len(), 3);
    assert!(a.end.is_none());

    let a = st.on_line(&session, "data: {\"e2e_error\":{\"code\":1}}");
    assert!(a.events.is_empty());
    assert_eq!(ended_with_error(&a), Some("Server E2EE error: {\"error\":{\"code\":1}}".to_string()));

    let a = st.on_line(&session, "data: [DONE]");
    assert_eq!(a.events.len(), 1);
    assert!(matches!(a.events[0], StreamEvent::MessageStop));
    assert!(matches!(a.end, Some(None)));
}

#[test]
fn failing_init_ends_the_stream() {
    let (server_pk, _sk) = kyber768::keypair();
    let session = E2eeSession::new(server_pk.as_bytes());
    let mut st = E2eeStreamState::new();
    let a = st.on_line(&session, "data: {\"e2e_init\":\"%%%\"}");
    assert!(a.events.is_empty());
    assert!(ended_with_error(&a).unwrap().starts_with("E2EE init decrypt failed: "));
    let a = st.on_line(&session, "data: [DONE]");
    assert!(a.events.is_empty());
    assert!(matches!(a.end, Some(None)));
}

#[test]
fn decrypted_lines_are_handed_on() {
    let (server_pk, _sk) = kyber768::keypair();
    let session = E2eeSession::new(server_pk.as_bytes());
    let key = vec![3u8; 32];
    let mut st = E2eeStreamState { stream_key: Some(key.clone()), chunks: claurst::chat_stream::ChunkState::new() };
    let nonce = [5u8; 12];
    let cipher = ChaCha20Poly1305::new_from_slice(&key).unwrap();
    let sealed = cipher.encrypt(&nonce.into(), b"data: {}\ndata: [DONE]".as_ref()).unwrap();
    let mut blob = nonce.to_vec();
    blob.extend_from_slice(&sealed);
    let line = format!("data: {{\"e2e\":\"{}\"}}", base64::engine::general_purpose::STANDARD.encode(&blob));
    let a = st.on_line(&session, &line);
    assert_eq!(a.inner_lines, vec!["data: {}".to_string(), "data: [DONE]".to_string()]);
    let first = st.on_inner_line(&a.inner_lines[0]);
    assert_eq!(first.events.len(), 2);
    assert!(first.end.is_none());
    let last = st.on_inner_line(&a.inner_lines[1]);
    assert!(matches!(last.events[0], StreamEvent::MessageStop));
    assert!(matches!(last.end, Some(None)));
    match read_error("reset") {
        ProviderError::StreamError { message } => assert_eq!(message, "Stream read error: reset"),
        _ => panic!("expected a stream error"),
    }
}

#[test]
fn a_chunk_line_is_read_from_its_json() {
    let (server_pk, _sk) = kyber768::keypair();
    let session = E2eeSession::new(server_pk.as_bytes());
    let mut st = E2eeStreamState::new();
    let a = st.on_line(&session, "data: {\"id\":\"c1\",\"model\":\"m1\",\"choices\":[{\"delta\":{\"content\":\"Hello\"}}]}");
    assert_eq!(a.events.len(), 3);
    match &a.events[0] {
        StreamEvent::MessageStart { id, model, .. } => {
            assert_eq!(id, "c1");
            assert_eq!(model, "m1");
        }
        _ => panic!("expected the message start"),
    }
    match &a.events[2] {
        StreamEvent::TextDelta { index, text } => {
            assert_eq!(*index, 0);
            assert_eq!(text, "Hello");
        }
        _ => panic!("expected a text delta"),
    }
}

#[test]
fn an_overflowing_tool_call_index_ends_the_stream() {
    let (server_pk, _sk) = kyber768::keypair();
    let session = E2eeSession::new(server_pk.as_bytes());
    let mut st = E2eeStreamState::new();
    let line = format!(
        "data: {{\"choices\":[{{\"delta\":{{\"tool_calls\":[{{\"index\":{},\"id\":\"t\"}}]}}}}]}}",
        usize::MAX
    );
    let a = st.on_line(&session, &line);
    assert!(a.events.is_empty());
    assert_eq!(ended_with_error(&a), Some("Tool call index leaves no room for its block index".to_string()));
}

fn describe(e: &StreamEvent) -> String {
    match e {
        StreamEvent::MessageStart { id, model, .. } => format!("start {} {}", id, model),
        StreamEvent::ContentBlockStart { index, .. } => format!("block {}", index),
        StreamEvent::TextDelta { index, text } => format!("text {} {}", index, text),
        StreamEvent::ReasoningDelta { index, reasoning } => format!("reasoning {} {}", index, reasoning),
        StreamEvent::InputJsonDelta { index, partial_json } => format!("json {} {}", index, partial_json),
        StreamEvent::ContentBlockStop { index } => format!("block stop {}", index),
        StreamEvent::MessageDelta { stop_reason, .. } => format!("delta {:?}", stop_reason),
        StreamEvent::MessageStop => "stop".to_string(),
        StreamEvent::Error { message, .. } => format!("error {}", message),
    }
}

fn events_of_pieces(session: &E2eeSession, pieces: &[&str]) -> Vec<String> {
    let mut buffer = SseLineBuffer::new();
    let mut st = E2eeStreamState::new();
    let mut out = Vec::new();
    for piece in pieces {
        for line in buffer.push_text(piece) {
            let a = st.on_line(session, &line);
            out.extend(a.events.iter().map(describe));
            if a.end.is_some() {
                return out;
            }
        }
    }
    out.extend(st.finish().iter().map(describe));
    out
}

#[test]
fn the_events_do_not_depend_on_where_the_text_is_cut() {
    let (server_pk, _sk) = kyber768::keypair();
    let session = E2eeSession::new(server_pk.as_bytes());
    let text = "data: {\"id\":\"c\",\"model\":\"m\",\"choices\":[{\"delta\":{\"content\":\"Hel\"}}]}\n\n: note\ndata: {\"choices\":[{\"delta\":{\"content\":\"lo\"},\"finish_reason\":\"stop\"}]}\ndata: [DONE]\n";
    let whole = events_of_pieces(&session, &[text]);
    assert_eq!(
        whole,
        vec![
            "start c m".to_string(),
            "block 0".to_string(),
            "text 0 Hel".to_string(),
            "text 0 lo".to_string(),
            "block stop 0".to_string(),
            "delta Some(\"stop\")".to_string(),
            "stop".to_string(),
        ]
    );
    for cut in 0..=text.len() {
        let (a, b) = text.split_at(cut);
        assert_eq!(events_of_pieces(&session, &[a, b]), whole);
    }
}
