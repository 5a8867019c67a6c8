//! Reading a streamed completion chunk out of its JSON text.
//!
//! serde_json parses the text; each of the four readers below makes one
//! access into the parsed value (a member's JSON text, a string member, an
//! unsigned integer member, the items of an array member) and hands back
//! plain values. The chunk is assembled from them here, with the defaults the
//! stream relies on: a tool call without an `index` is at index 0, and a
//! `usage` object lacking a token count counts 0.

use vstd::prelude::*;

use crate::chat_stream::{
    choice_views, tool_call_views, ChoiceView, ChunkChoice, ChunkDelta, ChunkView, CompletionChunk, DeltaView,
    ToolCallDelta, ToolCallView, UsageInfo,
};
use crate::e2ee::{json_is_valid, json_shape};
use crate::password_store::{option_string_view, string_views};

verus! {

/// The compact JSON text of the value under `key`, if `text` is valid JSON
/// whose value is an object with that key.
pub uninterp spec fn json_member_of(text: Seq<char>, key: Seq<char>) -> Option<Seq<char>>;

/// The string under `key`, if `text` is valid JSON whose value is an object
/// with that key and a string there.
pub uninterp spec fn json_str_member_of(text: Seq<char>, key: Seq<char>) -> Option<Seq<char>>;

/// The number under `key`, if `text` is valid JSON whose value is an object
/// with that key and an integer there that fits in a `u64`.
pub uninterp spec fn json_u64_member_of(text: Seq<char>, key: Seq<char>) -> Option<u64>;

/// The compact JSON texts of the items under `key`, in order, if `text` is
/// valid JSON whose value is an object with that key and an array there.
pub uninterp spec fn json_array_member_of(text: Seq<char>, key: Seq<char>) -> Option<Seq<Seq<char>>>;

/// `serde_json::from_str::<Value>`, then `get(key)` written back with
/// `to_string`: claimed to give the named text.
#[verifier::external_body]
fn json_member(text: &str, key: &str) -> (r: Option<String>)
    ensures
        option_string_view(r) == json_member_of(text@, key@),
{
    match serde_json::from_str::<serde_json::Value>(text) {
        Ok(v) => v.get(key).map(ToString::to_string),
        Err(_) => None,
    }
}

/// `serde_json::from_str::<Value>`, then `get(key)` and `as_str`: claimed to
/// give the named string.
#[verifier::external_body]
fn json_str_member(text: &str, key: &str) -> (r: Option<String>)
    ensures
        option_string_view(r) == json_str_member_of(text@, key@),
{
    match serde_json::from_str::<serde_json::Value>(text) {
        Ok(v) => v.get(key).and_then(serde_json::Value::as_str).map(str::to_string),
        Err(_) => None,
    }
}

/// `serde_json::from_str::<Value>`, then `get(key)` and `as_u64`: claimed to
/// give the named number.
#[verifier::external_body]
fn json_u64_member(text: &str, key: &str) -> (r: Option<u64>)
    ensures
        r == json_u64_member_of(text@, key@),
{
    match serde_json::from_str::<serde_json::Value>(text) {
        Ok(v) => v.get(key).and_then(serde_json::Value::as_u64),
        Err(_) => None,
    }
}

/// `serde_json::from_str::<Value>`, then `get(key)`, telling an array apart,
/// and each item written back with `to_string`: claimed to give the named
/// texts.
#[verifier::external_body]
fn json_array_member(text: &str, key: &str) -> (r: Option<Vec<String>>)
    ensures
        match r {
            Some(v) => json_array_member_of(text@, key@) == Some(string_views(v@)),
            None => json_array_member_of(text@, key@) is None,
        },
{
    match serde_json::from_str::<serde_json::Value>(text) {
        Ok(v) => match v.get(key) {
            Some(serde_json::Value::Array(items)) => Some(items.iter().map(ToString::to_string).collect()),
            _ => None,
        },
        Err(_) => None,
    }
}

// ---------------------------------------------------------------------------
// What a chunk's JSON text reads as.
// ---------------------------------------------------------------------------

/// A tool call delta's JSON text: its `index` (0 where it is not an unsigned
/// integer), its `id`, and its `function`'s `name` and `arguments`, each where
/// it is a string.
pub open spec fn tool_call_of_text(t: Seq<char>) -> ToolCallView {
    let f = json_member_of(t, "function"@);
    ToolCallView {
        index: match json_u64_member_of(t, "index"@) {
            Some(n) => n as usize,
            None => 0,
        },
        id: json_str_member_of(t, "id"@),
        name: match f {
            Some(ft) => json_str_member_of(ft, "name"@),
            None => None,
        },
        arguments: match f {
            Some(ft) => json_str_member_of(ft, "arguments"@),
            None => None,
        },
    }
}

/// A delta's JSON text: its string fields, and its `tool_calls` array.
pub open spec fn delta_of_text(t: Seq<char>) -> DeltaView {
    DeltaView {
        reasoning_content: json_str_member_of(t, "reasoning_content"@),
        reasoning_text: json_str_member_of(t, "reasoning_text"@),
        reasoning: json_str_member_of(t, "reasoning"@),
        content: json_str_member_of(t, "content"@),
        tool_calls: match json_array_member_of(t, "tool_calls"@) {
            Some(items) => Some(items.map_values(|x: Seq<char>| tool_call_of_text(x))),
            None => None,
        },
    }
}

/// A choice's JSON text: its `delta`, where it has one, and its
/// `finish_reason`, where it is a string.
pub open spec fn choice_of_text(t: Seq<char>) -> ChoiceView {
    ChoiceView {
        delta: match json_member_of(t, "delta"@) {
            Some(d) => Some(delta_of_text(d)),
            None => None,
        },
        finish_reason: json_str_member_of(t, "finish_reason"@),
    }
}

/// A `usage` value's JSON text: `prompt_tokens` and `completion_tokens`, each
/// 0 where it is not an unsigned integer.
pub open spec fn usage_of_text(t: Seq<char>) -> UsageInfo {
    UsageInfo {
        input_tokens: match json_u64_member_of(t, "prompt_tokens"@) {
            Some(n) => n,
            None => 0,
        },
        output_tokens: match json_u64_member_of(t, "completion_tokens"@) {
            Some(n) => n,
            None => 0,
        },
    }
}

/// The completion chunk a `data:` payload reads as, if it is valid JSON: its
/// `id` and `model` where strings, its `choices` where an array, and its
/// `usage` where the key is present. A payload that is JSON but not an object
/// reads as a chunk with none of these.
pub open spec fn completion_chunk_of_text(data: Seq<char>) -> Option<ChunkView> {
    if json_is_valid(data) {
        Some(ChunkView {
            id: json_str_member_of(data, "id"@),
            model: json_str_member_of(data, "model"@),
            choices: match json_array_member_of(data, "choices"@) {
                Some(items) => Some(items.map_values(|x: Seq<char>| choice_of_text(x))),
                None => None,
            },
            usage: match json_member_of(data, "usage"@) {
                Some(u) => Some(usage_of_text(u)),
                None => None,
            },
        })
    } else {
        None
    }
}

// ---------------------------------------------------------------------------
// Reading it.
// ---------------------------------------------------------------------------

/// Reads a tool call delta.
fn read_tool_call(t: &str) -> (r: ToolCallDelta)
    ensures
        r@ == tool_call_of_text(t@),
{
    let index: usize = match json_u64_member(t, "index") {
        Some(n) => n as usize,
        None => 0,
    };
    let id = json_str_member(t, "id");
    match json_member(t, "function") {
        Some(f) => {
            let name = json_str_member(f.as_str(), "name");
            let arguments = json_str_member(f.as_str(), "arguments");
            ToolCallDelta { index, id, name, arguments }
        },
        None => ToolCallDelta { index, id, name: None, arguments: None },
    }
}

/// Reads the items of a `tool_calls` array.
fn read_tool_calls(items: &Vec<String>) -> (r: Vec<ToolCallDelta>)
    ensures
        tool_call_views(r@) == string_views(items@).map_values(|x: Seq<char>| tool_call_of_text(x)),
{
    let mut out: Vec<ToolCallDelta> = Vec::new();
    let mut i: usize = 0;
    while i < items.len()
        invariant
            i <= items@.len(),
            tool_call_views(out@) =~= string_views(items@).take(i as int).map_values(|x: Seq<char>| tool_call_of_text(x)),
        decreases items@.len() - i,
    {
        let tc = read_tool_call(items[i].as_str());
        let ghost before = out@;
        out.push(tc);
        assert(tool_call_views(out@) =~= tool_call_views(before).push(tc@));
        assert(string_views(items@).take(i + 1) =~= string_views(items@).take(i as int).push(items@[i as int]@));
        i = i + 1;
    }
    assert(string_views(items@).take(items@.len() as int) =~= string_views(items@));
    out
}

/// Reads a delta.
fn read_delta(t: &str) -> (r: ChunkDelta)
    ensures
        r@ == delta_of_text(t@),
{
    let tool_calls = match json_array_member(t, "tool_calls") {
        Some(items) => Some(read_tool_calls(&items)),
        None => None,
    };
    ChunkDelta {
        reasoning_content: json_str_member(t, "reasoning_content"),
        reasoning_text: json_str_member(t, "reasoning_text"),
        reasoning: json_str_member(t, "reasoning"),
        content: json_str_member(t, "content"),
        tool_calls,
    }
}

/// Reads a choice.
fn read_choice(t: &str) -> (r: ChunkChoice)
    ensures
        r@ == choice_of_text(t@),
{
    let delta = match json_member(t, "delta") {
        Some(d) => Some(read_delta(d.as_str())),
        None => None,
    };
    ChunkChoice { delta, finish_reason: json_str_member(t, "finish_reason") }
}

/// Reads the items of a `choices` array.
fn read_choices(items: &Vec<String>) -> (r: Vec<ChunkChoice>)
    ensures
        choice_views(r@) == string_views(items@).map_values(|x: Seq<char>| choice_of_text(x)),
{
    let mut out: Vec<ChunkChoice> = Vec::new();
    let mut i: usize = 0;
    while i < items.len()
        invariant
            i <= items@.len(),
            choice_views(out@) =~= string_views(items@).take(i as int).map_values(|x: Seq<char>| choice_of_text(x)),
        decreases items@.len() - i,
    {
        let c = read_choice(items[i].as_str());
        let ghost before = out@;
        out.push(c);
        assert(choice_views(out@) =~= choice_views(before).push(c@));
        assert(string_views(items@).take(i + 1) =~= string_views(items@).take(i as int).push(items@[i as int]@));
        i = i + 1;
    }
    assert(string_views(items@).take(items@.len() as int) =~= string_views(items@));
    out
}

/// Reads a `usage` value.
fn read_usage(t: &str) -> (r: UsageInfo)
    ensures
        r == usage_of_text(t@),
{
    let input_tokens: u64 = match json_u64_member(t, "prompt_tokens") {
        Some(n) => n,
        None => 0,
    };
    let output_tokens: u64 = match json_u64_member(t, "completion_tokens") {
        Some(n) => n,
        None => 0,
    };
    UsageInfo { input_tokens, output_tokens }
}

/// Reads the completion chunk a `data:` payload holds: nothing exactly when
/// the payload is not valid JSON.
pub fn read_completion_chunk(data: &str) -> (r: Option<CompletionChunk>)
    ensures
        r is Some <==> json_is_valid(data@),
        match r {
            Some(c) => completion_chunk_of_text(data@) == Some(c@),
            None => completion_chunk_of_text(data@) is None,
        },
{
    let (valid, _) = json_shape(data);
    if !valid {
        return None;
    }
    let choices = match json_array_member(data, "choices") {
        Some(items) => Some(read_choices(&items)),
        None => None,
    };
    let usage = match json_member(data, "usage") {
        Some(u) => Some(read_usage(u.as_str())),
        None => None,
    };
    let c = CompletionChunk {
        id: json_str_member(data, "id"),
        model: json_str_member(data, "model"),
        choices,
        usage,
    };
    Some(c)
}

/// Each field of a chunk is read from the key of its own name: a delta's
/// `reasoning_content`, `reasoning_text`, `reasoning` and `content`; a tool
/// call's `id`, `index`, and `function`'s `name` and `arguments`; a choice's
/// `finish_reason` and `delta`; a usage's `prompt_tokens` and
/// `completion_tokens`; a chunk's `id`, `model`, `choices` and `usage`.
pub proof fn law_fields_are_read_by_name(t: Seq<char>)
    ensures
        delta_of_text(t).reasoning_content == json_str_member_of(t, "reasoning_content"@),
        delta_of_text(t).reasoning_text == json_str_member_of(t, "reasoning_text"@),
        delta_of_text(t).reasoning == json_str_member_of(t, "reasoning"@),
        delta_of_text(t).content == json_str_member_of(t, "content"@),
        (delta_of_text(t).tool_calls is Some) == (json_array_member_of(t, "tool_calls"@) is Some),
        json_array_member_of(t, "tool_calls"@) matches Some(items) ==> (delta_of_text(t).tool_calls matches Some(tcs)
            && tcs.len() == items.len()
            && forall|i: int| 0 <= i < items.len() ==> #[trigger] tcs[i] == tool_call_of_text(items[i])),
        tool_call_of_text(t).id == json_str_member_of(t, "id"@),
        json_u64_member_of(t, "index"@) matches Some(n) ==> tool_call_of_text(t).index == n as usize,
        json_u64_member_of(t, "index"@) is None ==> tool_call_of_text(t).index == 0,
        json_member_of(t, "function"@) matches Some(f) ==> tool_call_of_text(t).name == json_str_member_of(f, "name"@)
            && tool_call_of_text(t).arguments == json_str_member_of(f, "arguments"@),
        json_member_of(t, "function"@) is None ==> tool_call_of_text(t).name is None && tool_call_of_text(t).arguments is None,
        choice_of_text(t).finish_reason == json_str_member_of(t, "finish_reason"@),
        json_member_of(t, "delta"@) matches Some(d) ==> choice_of_text(t).delta == Some(delta_of_text(d)),
        json_member_of(t, "delta"@) is None ==> choice_of_text(t).delta is None,
        usage_of_text(t).input_tokens == (match json_u64_member_of(t, "prompt_tokens"@) { Some(n) => n, None => 0u64 }),
        usage_of_text(t).output_tokens == (match json_u64_member_of(t, "completion_tokens"@) { Some(n) => n, None => 0u64 }),
        json_is_valid(t) ==> (completion_chunk_of_text(t) matches Some(c)
            && c.id == json_str_member_of(t, "id"@)
            && c.model == json_str_member_of(t, "model"@)
            && (c.choices is Some) == (json_array_member_of(t, "choices"@) is Some)
            && (json_array_member_of(t, "choices"@) matches Some(items) ==> (c.choices matches Some(cs)
                && cs.len() == items.len()
                && forall|i: int| 0 <= i < items.len() ==> #[trigger] cs[i] == choice_of_text(items[i])))
            && (json_member_of(t, "usage"@) matches Some(u) ==> c.usage == Some(usage_of_text(u)))
            && (json_member_of(t, "usage"@) is None ==> c.usage is None)),
        !json_is_valid(t) ==> completion_chunk_of_text(t) is None,
{
}

} // verus!
