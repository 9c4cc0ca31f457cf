//! Conversion of upstream answers into the OpenAI chat-completion format.
use vstd::prelude::*;

use crate::text::push_char;

verus! {

/// Content of an OpenAI stream delta: answer text, or reasoning (thinking) text.
#[derive(Debug)]
pub enum EventContent {
    Content { content: String },
    Reasoning { reasoning_content: String },
}

/// Why the model stopped, as the upstream API reports it.
#[derive(Debug, Clone, Copy, PartialEq, Eq)]
pub enum StopReason {
    EndTurn,
    MaxTokens,
    StopSequence,
    ToolUse,
    PauseTurn,
    Refusal,
    ModelContextWindowExceeded,
}

/// Why the model stopped, as OpenAI clients expect it.
#[derive(Debug, Clone, Copy, PartialEq, Eq)]
pub enum FinishReason {
    Stop,
    Length,
    ToolCalls,
    ContentFilter,
}

/// The OpenAI finish reason of an upstream stop reason: running out of tokens or of context is
/// `length`, a tool call `tool_calls`, a refusal `content_filter`, anything else `stop`.
pub open spec fn finish_reason_of(r: Option<StopReason>) -> FinishReason {
    match r {
        Some(StopReason::MaxTokens) => FinishReason::Length,
        Some(StopReason::ModelContextWindowExceeded) => FinishReason::Length,
        Some(StopReason::ToolUse) => FinishReason::ToolCalls,
        Some(StopReason::Refusal) => FinishReason::ContentFilter,
        _ => FinishReason::Stop,
    }
}

/// Maps an upstream stop reason to the OpenAI finish reason (see [`finish_reason_of`]).
pub fn finish_reason(r: Option<StopReason>) -> (f: FinishReason)
    ensures
        f == finish_reason_of(r),
{
    match r {
        Some(StopReason::MaxTokens) => FinishReason::Length,
        Some(StopReason::ModelContextWindowExceeded) => FinishReason::Length,
        Some(StopReason::ToolUse) => FinishReason::ToolCalls,
        Some(StopReason::Refusal) => FinishReason::ContentFilter,
        _ => FinishReason::Stop,
    }
}

/// The finish reason is `length` exactly when the answer ran out of tokens or of context,
/// `tool_calls` exactly for a tool call, `content_filter` exactly for a refusal, and `stop`
/// for everything else: a natural end of turn, a stop sequence, a paused turn, or no reason.
pub proof fn lemma_finish_reason_classes(r: Option<StopReason>)
    ensures
        (finish_reason_of(r) == FinishReason::Length) <==> (r == Some(StopReason::MaxTokens) || r
            == Some(StopReason::ModelContextWindowExceeded)),
        (finish_reason_of(r) == FinishReason::ToolCalls) <==> (r == Some(StopReason::ToolUse)),
        (finish_reason_of(r) == FinishReason::ContentFilter) <==> (r == Some(StopReason::Refusal)),
        (finish_reason_of(r) == FinishReason::Stop) <==> (r is None || r == Some(StopReason::EndTurn)
            || r == Some(StopReason::StopSequence) || r == Some(StopReason::PauseTurn)),
{
}

impl FinishReason {
    /// The reason's name in the OpenAI format.
    pub fn as_str(&self) -> (s: &'static str)
        ensures
            s@ == match *self {
                FinishReason::Stop => "stop"@,
                FinishReason::Length => "length"@,
                FinishReason::ToolCalls => "tool_calls"@,
                FinishReason::ContentFilter => "content_filter"@,
            },
    {
        match self {
            FinishReason::Stop => "stop",
            FinishReason::Length => "length",
            FinishReason::ToolCalls => "tool_calls",
            FinishReason::ContentFilter => "content_filter",
        }
    }
}

/// One choice of an OpenAI stream chunk.
#[derive(Debug)]
pub struct StreamEventDelta {
    pub delta: EventContent,
    pub finish_reason: Option<FinishReason>,
}

/// An OpenAI stream chunk: its list of choices.
#[derive(Debug)]
pub struct StreamEventData {
    pub choices: Vec<StreamEventDelta>,
}

impl StreamEventData {
    /// A chunk carrying `content`, with no finish reason.
    pub fn new(content: EventContent) -> (r: Self)
        ensures
            r.choices@.len() == 1,
            r.choices@[0].delta == content,
            r.choices@[0].finish_reason is None,
    {
        StreamEventData { choices: vec![StreamEventDelta { delta: content, finish_reason: None }] }
    }

    /// The closing chunk: empty content and the finish reason.
    pub fn finished(reason: FinishReason) -> (r: Self)
        ensures
            r.choices@.len() == 1,
            r.choices@[0].delta matches EventContent::Content { content } && content@.len() == 0,
            r.choices@[0].finish_reason == Some(reason),
    {
        StreamEventData {
            choices: vec![
                StreamEventDelta {
                    delta: EventContent::Content { content: String::new() },
                    finish_reason: Some(reason),
                },
            ],
        }
    }
}

// ---------------------------------------------------------------------------
// Streams
// ---------------------------------------------------------------------------
/// An upstream stream event, as far as the conversion reads it.
#[derive(Debug)]
pub enum ClaudeStreamEvent {
    /// A text delta of a content block.
    TextDelta(String),
    /// A thinking delta of a content block.
    ThinkingDelta(String),
    /// A message delta, with the stop reason it carries.
    MessageDelta(Option<StopReason>),
    /// The end of the message.
    MessageStop,
    /// Any other event, or one that could not be read.
    Other,
}

/// What the converted stream emits.
#[derive(Debug)]
pub enum OaiChunk {
    /// A chunk carrying content (see [`StreamEventData::new`]).
    Delta(EventContent),
    /// The closing chunk with its finish reason (see [`StreamEventData::finished`]).
    Finish(FinishReason),
    /// The `[DONE]` marker.
    Done,
}

/// A shape of an emitted chunk, without its text.
pub enum ChunkKind {
    Text(nat),
    Reasoning(nat),
    Finish(FinishReason),
    Done,
}

/// The kind of a chunk (texts by length, so that two chunks compare by value).
pub open spec fn kind_of(c: OaiChunk) -> ChunkKind {
    match c {
        OaiChunk::Delta(EventContent::Content { content }) => ChunkKind::Text(content@.len()),
        OaiChunk::Delta(EventContent::Reasoning { reasoning_content }) => ChunkKind::Reasoning(
            reasoning_content@.len(),
        ),
        OaiChunk::Finish(f) => ChunkKind::Finish(f),
        OaiChunk::Done => ChunkKind::Done,
    }
}

/// State of a stream conversion: the finish reason to report and whether the closing chunk
/// was sent.
#[derive(Debug, Clone, Copy, PartialEq, Eq)]
pub struct OaiStream {
    pub finish_reason: FinishReason,
    pub sent_terminal: bool,
}

/// The state after an event: a message delta sets the finish reason, the end of the message
/// marks the stream closed.
pub open spec fn stream_next(s: OaiStream, e: ClaudeStreamEvent) -> OaiStream {
    match e {
        ClaudeStreamEvent::MessageDelta(r) => OaiStream { finish_reason: finish_reason_of(r), ..s },
        ClaudeStreamEvent::MessageStop => OaiStream { sent_terminal: true, ..s },
        _ => s,
    }
}

/// What an event emits: text and thinking deltas become content and reasoning chunks, the end
/// of the message the closing chunk and `[DONE]`; other events emit nothing.
pub open spec fn stream_emits(s: OaiStream, e: ClaudeStreamEvent) -> Seq<ChunkKind> {
    match e {
        ClaudeStreamEvent::TextDelta(t) => seq![ChunkKind::Text(t@.len())],
        ClaudeStreamEvent::ThinkingDelta(t) => seq![ChunkKind::Reasoning(t@.len())],
        ClaudeStreamEvent::MessageStop => seq![ChunkKind::Finish(s.finish_reason), ChunkKind::Done],
        _ => Seq::empty(),
    }
}

/// What the end of the upstream stream emits: the closing chunk and `[DONE]` unless the message
/// end already sent them.
pub open spec fn stream_end_emits(s: OaiStream) -> Seq<ChunkKind> {
    if s.sent_terminal {
        Seq::empty()
    } else {
        seq![ChunkKind::Finish(s.finish_reason), ChunkKind::Done]
    }
}

/// The kinds of a sequence of chunks.
pub open spec fn kinds(v: Seq<OaiChunk>) -> Seq<ChunkKind> {
    Seq::new(v.len(), |i: int| kind_of(v[i]))
}

impl OaiStream {
    /// A conversion that has seen no event: finish reason `stop`, nothing closed.
    pub fn new() -> (r: Self)
        ensures
            r == (OaiStream { finish_reason: FinishReason::Stop, sent_terminal: false }),
    {
        OaiStream { finish_reason: FinishReason::Stop, sent_terminal: false }
    }

    /// Converts one upstream event (see [`stream_next`] and [`stream_emits`]); the text of a
    /// delta is passed on unchanged.
    pub fn step(&mut self, e: ClaudeStreamEvent) -> (out: Vec<OaiChunk>)
        ensures
            *final(self) == stream_next(*old(self), e),
            kinds(out@) == stream_emits(*old(self), e),
            e matches ClaudeStreamEvent::TextDelta(t) ==> out@[0] matches OaiChunk::Delta(
                EventContent::Content { content },
            ) && content == t,
            e matches ClaudeStreamEvent::ThinkingDelta(t) ==> out@[0] matches OaiChunk::Delta(
                EventContent::Reasoning { reasoning_content },
            ) && reasoning_content == t,
    {
        let ghost s0 = *self;
        let ghost e0 = e;
        match e {
            ClaudeStreamEvent::TextDelta(t) => {
                let out = vec![OaiChunk::Delta(EventContent::Content { content: t })];
                assert(kinds(out@) =~= stream_emits(s0, e0));
                out
            },
            ClaudeStreamEvent::ThinkingDelta(t) => {
                let out = vec![OaiChunk::Delta(EventContent::Reasoning { reasoning_content: t })];
                assert(kinds(out@) =~= stream_emits(s0, e0));
                out
            },
            ClaudeStreamEvent::MessageDelta(r) => {
                self.finish_reason = finish_reason(r);
                let out: Vec<OaiChunk> = Vec::new();
                assert(kinds(out@) =~= stream_emits(s0, e0));
                out
            },
            ClaudeStreamEvent::MessageStop => {
                let out = vec![OaiChunk::Finish(self.finish_reason), OaiChunk::Done];
                self.sent_terminal = true;
                assert(kinds(out@) =~= stream_emits(s0, e0));
                out
            },
            ClaudeStreamEvent::Other => {
                let out: Vec<OaiChunk> = Vec::new();
                assert(kinds(out@) =~= stream_emits(s0, e0));
                out
            },
        }
    }

    /// Closes the conversion at the end of the upstream stream (see [`stream_end_emits`]).
    pub fn end(&self) -> (out: Vec<OaiChunk>)
        ensures
            kinds(out@) == stream_end_emits(*self),
    {
        let out = if self.sent_terminal {
            Vec::new()
        } else {
            vec![OaiChunk::Finish(self.finish_reason), OaiChunk::Done]
        };
        assert(kinds(out@) =~= stream_end_emits(*self));
        out
    }
}

/// The state after a whole sequence of events.
pub open spec fn stream_after(events: Seq<ClaudeStreamEvent>) -> OaiStream
    decreases events.len(),
{
    if events.len() == 0 {
        OaiStream { finish_reason: FinishReason::Stop, sent_terminal: false }
    } else {
        stream_next(stream_after(events.drop_last()), events.last())
    }
}

/// Everything a converted stream emits for a sequence of events, its end included.
pub open spec fn stream_output(events: Seq<ClaudeStreamEvent>) -> Seq<ChunkKind> {
    stream_chunks(events) + stream_end_emits(stream_after(events))
}

/// What the events emit, before the end of the stream.
pub open spec fn stream_chunks(events: Seq<ClaudeStreamEvent>) -> Seq<ChunkKind>
    decreases events.len(),
{
    if events.len() == 0 {
        Seq::empty()
    } else {
        stream_chunks(events.drop_last()) + stream_emits(
            stream_after(events.drop_last()),
            events.last(),
        )
    }
}

proof fn lemma_sent_has_done(events: Seq<ClaudeStreamEvent>)
    ensures
        stream_after(events).sent_terminal ==> stream_chunks(events).contains(ChunkKind::Done),
    decreases events.len(),
{
    if events.len() > 0 {
        let pre = events.drop_last();
        lemma_sent_has_done(pre);
        let a = stream_chunks(pre);
        let b = stream_emits(stream_after(pre), events.last());
        if stream_after(pre).sent_terminal {
            let k = choose|k: int| 0 <= k < a.len() && a[k] == ChunkKind::Done;
            assert((a + b)[k] == ChunkKind::Done);
        } else if events.last() is MessageStop {
            assert((a + b)[a.len() + 1int] == ChunkKind::Done);
        }
    }
}

/// A converted stream is always closed: whatever events came, its output holds `[DONE]`;
/// and the closing chunk sent at the end reports the stop reason of the last message delta.
pub proof fn lemma_stream_always_closed(events: Seq<ClaudeStreamEvent>)
    ensures
        stream_output(events).contains(ChunkKind::Done),
{
    lemma_sent_has_done(events);
    let a = stream_chunks(events);
    let b = stream_end_emits(stream_after(events));
    if stream_after(events).sent_terminal {
        let k = choose|k: int| 0 <= k < a.len() && a[k] == ChunkKind::Done;
        assert((a + b)[k] == ChunkKind::Done);
    } else {
        assert((a + b)[a.len() + 1int] == ChunkKind::Done);
    }
}

// ---------------------------------------------------------------------------
// Whole answers
// ---------------------------------------------------------------------------
/// A content block of an upstream answer, as far as the conversion reads it.
#[derive(Debug)]
pub enum ContentBlock {
    Text { text: String },
    Other,
}

/// An upstream (non-streamed) answer, as far as the conversion reads it.
#[derive(Debug)]
pub struct ClaudeResponse {
    pub id: String,
    pub model: String,
    pub content: Vec<ContentBlock>,
    pub stop_reason: Option<StopReason>,
    /// Input and output tokens, when reported.
    pub usage: Option<(u32, u32)>,
}

/// Token usage in the OpenAI format.
#[derive(Debug, Clone, Copy, PartialEq, Eq)]
pub struct OaiUsage {
    pub prompt_tokens: u32,
    pub completion_tokens: u32,
    pub total_tokens: u32,
}

/// An OpenAI chat completion with one assistant message.
#[derive(Debug)]
pub struct OaiCompletion {
    pub id: String,
    pub model: String,
    pub content: String,
    pub finish_reason: FinishReason,
    pub usage: Option<OaiUsage>,
}

/// The text of an answer: its text blocks concatenated, other blocks left out.
pub open spec fn text_of(blocks: Seq<ContentBlock>) -> Seq<char>
    decreases blocks.len(),
{
    if blocks.len() == 0 {
        Seq::empty()
    } else {
        text_of(blocks.drop_last()) + match blocks.last() {
            ContentBlock::Text { text } => text@,
            ContentBlock::Other => Seq::empty(),
        }
    }
}

/// The tokens of a reported usage fit the OpenAI total.
pub open spec fn usage_fits(u: Option<(u32, u32)>) -> bool {
    match u {
        Some((i, o)) => i + o <= u32::MAX,
        None => true,
    }
}

/// Converts an upstream answer: same id and model, the concatenated text blocks as the message,
/// the mapped finish reason, and the usage with its total.
pub fn transforms_json(input: ClaudeResponse) -> (r: OaiCompletion)
    requires
        usage_fits(input.usage),
    ensures
        r.id == input.id,
        r.model == input.model,
        r.content@ == text_of(input.content@),
        r.finish_reason == finish_reason_of(input.stop_reason),
        r.usage == match input.usage {
            Some((i, o)) => Some(
                OaiUsage { prompt_tokens: i, completion_tokens: o, total_tokens: (i + o) as u32 },
            ),
            None => None,
        },
{
    let mut content = String::new();
    let mut k: usize = 0;
    while k < input.content.len()
        invariant
            k <= input.content.len(),
            content@ == text_of(input.content@.take(k as int)),
        decreases input.content.len() - k,
    {
        assert(input.content@.take(k + 1).drop_last() == input.content@.take(k as int));
        match &input.content[k] {
            ContentBlock::Text { text } => {
                let cs = crate::text::chars_of(text.as_str());
                let ghost before = content@;
                let mut j: usize = 0;
                while j < cs.len()
                    invariant
                        j <= cs.len(),
                        content@ == before + cs@.take(j as int),
                    decreases cs.len() - j,
                {
                    push_char(&mut content, cs[j]);
                    assert(cs@.take(j + 1) == cs@.take(j as int).push(cs@[j as int]));
                    j += 1;
                }
                assert(cs@.take(cs.len() as int) == cs@);
            },
            ContentBlock::Other => {
                assert(content@ == content@ + Seq::<char>::empty());
            },
        }
        k += 1;
    }
    assert(input.content@.take(input.content.len() as int) == input.content@);
    let usage = match input.usage {
        Some((i, o)) => Some(OaiUsage { prompt_tokens: i, completion_tokens: o, total_tokens: i + o }),
        None => None,
    };
    OaiCompletion {
        id: input.id,
        model: input.model,
        content,
        finish_reason: finish_reason(input.stop_reason),
        usage,
    }
}

} // verus!
