use claurst::chunk_json::read_completion_chunk;

#[test]
fn a_chunk_is_read_with_its_tool_calls() {
    let data = r#"{"id":"c","model":"m","choices":[{"delta":{"reasoning_content":"think","content":"hi","tool_calls":[{"index":2,"id":"call","function":{"name":"f","arguments":"{\"a\":1}"}},{"function":{"arguments":"x"}}]},"finish_reason":"stop"}],"usage":{"prompt_tokens":5,"completion_tokens":7}}"#;
    let c = read_completion_chunk(data).unwrap();
    assert_eq!(c.id.as_deref(), Some("c"));
    assert_eq!(c.model.as_deref(), Some("m"));
    let usage = c.usage.unwrap();
    assert_eq!(usage.input_tokens, 5);
    assert_eq!(usage.output_tokens, 7);
    let choices = c.choices.unwrap();
    assert_eq!(choices.len(), 1);
    assert_eq!(choices[0].finish_reason.as_deref(), Some("stop"));
    let d = choices[0].delta.as_ref().unwrap();
    assert_eq!(d.reasoning_content.as_deref(), Some("think"));
    assert_eq!(d.reasoning_text, None);
    assert_eq!(d.content.as_deref(), Some("hi"));
    let tcs = d.tool_calls.as_ref().unwrap();
    assert_eq!(tcs.len(), 2);
    assert_eq!(tcs[0].index, 2);
    assert_eq!(tcs[0].id.as_deref(), Some("call"));
    assert_eq!(tcs[0].name.as_deref(), Some("f"));
    assert_eq!(tcs[0].arguments.as_deref(), Some("{\"a\":1}"));
    assert_eq!(tcs[1].index, 0);
    assert_eq!(tcs[1].id, None);
    assert_eq!(tcs[1].name, None);
    assert_eq!(tcs[1].arguments.as_deref(), Some("x"));
}

#[test]
fn missing_token_counts_count_zero() {
    let c = read_completion_chunk(r#"{"usage":{}}"#).unwrap();
    let usage = c.usage.unwrap();
    assert_eq!(usage.input_tokens, 0);
    assert_eq!(usage.output_tokens, 0);
    assert!(c.choices.is_none());
}

#[test]
fn fields_of_the_wrong_kind_are_absent() {
    let c = read_completion_chunk(r#"{"id":7,"model":null,"choices":{}}"#).unwrap();
    assert!(c.id.is_none());
    assert!(c.model.is_none());
    assert!(c.choices.is_none());
    assert!(c.usage.is_none());
}

#[test]
fn json_that_is_not_an_object_reads_as_an_empty_chunk() {
    let c = read_completion_chunk("[1,2]").unwrap();
    assert!(c.id.is_none() && c.model.is_none() && c.choices.is_none() && c.usage.is_none());
}

#[test]
fn text_that_is_not_json_reads_as_nothing() {
    assert!(read_completion_chunk("not json").is_none());
    assert!(read_completion_chunk("{\"id\":").is_none());
}
