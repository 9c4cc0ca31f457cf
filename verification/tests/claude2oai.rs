use clewdr::claude2oai::{
    finish_reason, transforms_json, ClaudeResponse, ClaudeStreamEvent, ContentBlock,
    EventContent, FinishReason, OaiChunk, OaiStream, OaiUsage, StopReason, StreamEventData,
};

fn convert(events: Vec<ClaudeStreamEvent>) -> Vec<OaiChunk> {
    let mut s = OaiStream::new();
    let mut out = Vec::new();
    for e in events {
        out.extend(s.step(e));
    }
    out.extend(s.end());
    out
}

fn describe(c: &OaiChunk) -> String {
    match c {
        OaiChunk::Delta(EventContent::Content { content }) => format!("text:{content}"),
        OaiChunk::Delta(EventContent::Reasoning { reasoning_content }) => {
            format!("think:{reasoning_content}")
        }
        OaiChunk::Finish(f) => format!("finish:{}", f.as_str()),
        OaiChunk::Done => "[DONE]".to_string(),
    }
}

#[test]
fn finish_reasons() {
    assert_eq!(finish_reason(None), FinishReason::Stop);
    assert_eq!(finish_reason(Some(StopReason::EndTurn)), FinishReason::Stop);
    assert_eq!(finish_reason(Some(StopReason::MaxTokens)), FinishReason::Length);
    assert_eq!(finish_reason(Some(StopReason::ModelContextWindowExceeded)), FinishReason::Length);
    assert_eq!(finish_reason(Some(StopReason::ToolUse)), FinishReason::ToolCalls);
    assert_eq!(finish_reason(Some(StopReason::Refusal)), FinishReason::ContentFilter);
    assert_eq!(finish_reason(Some(StopReason::PauseTurn)), FinishReason::Stop);
    assert_eq!(FinishReason::ToolCalls.as_str(), "tool_calls");
    assert_eq!(FinishReason::ContentFilter.as_str(), "content_filter");
}

#[test]
fn stream_is_converted_in_order() {
    let out = convert(vec![
        ClaudeStreamEvent::Other,
        ClaudeStreamEvent::ThinkingDelta("hmm".to_string()),
        ClaudeStreamEvent::TextDelta("Hello".to_string()),
        ClaudeStreamEvent::MessageDelta(Some(StopReason::MaxTokens)),
        ClaudeStreamEvent::MessageStop,
    ]);
    let got: Vec<String> = out.iter().map(describe).collect();
    assert_eq!(got, vec!["think:hmm", "text:Hello", "finish:length", "[DONE]"]);
}

#[test]
fn stream_without_message_stop_is_closed_at_end() {
    let out = convert(vec![
        ClaudeStreamEvent::TextDelta("a".to_string()),
        ClaudeStreamEvent::MessageDelta(Some(StopReason::ToolUse)),
    ]);
    let got: Vec<String> = out.iter().map(describe).collect();
    assert_eq!(got, vec!["text:a", "finish:tool_calls", "[DONE]"]);
    let out = convert(vec![]);
    let got: Vec<String> = out.iter().map(describe).collect();
    assert_eq!(got, vec!["finish:stop", "[DONE]"]);
}

#[test]
fn stream_event_data_builders() {
    let d = StreamEventData::new(EventContent::Content { content: "x".to_string() });
    assert_eq!(d.choices.len(), 1);
    assert!(d.choices[0].finish_reason.is_none());
    let f = StreamEventData::finished(FinishReason::Length);
    assert_eq!(f.choices[0].finish_reason, Some(FinishReason::Length));
    match &f.choices[0].delta {
        EventContent::Content { content } => assert!(content.is_empty()),
        _ => panic!("closing chunk carries content"),
    }
}

#[test]
fn whole_answer_is_converted() {
    let input = ClaudeResponse {
        id: "msg_1".to_string(),
        model: "model-sonnet-4".to_string(),
        content: vec![
            ContentBlock::Text { text: "Hello, ".to_string() },
            ContentBlock::Other,
            ContentBlock::Text { text: "world".to_string() },
        ],
        stop_reason: Some(StopReason::EndTurn),
        usage: Some((10, 32)),
    };
    let out = transforms_json(input);
    assert_eq!(out.id, "msg_1");
    assert_eq!(out.model, "model-sonnet-4");
    assert_eq!(out.content, "Hello, world");
    assert_eq!(out.finish_reason, FinishReason::Stop);
    assert_eq!(
        out.usage,
        Some(OaiUsage { prompt_tokens: 10, completion_tokens: 32, total_tokens: 42 })
    );
    let bare = ClaudeResponse {
        id: String::new(),
        model: String::new(),
        content: vec![],
        stop_reason: None,
        usage: None,
    };
    let out = transforms_json(bare);
    assert_eq!(out.content, "");
    assert_eq!(out.usage, None);
}
