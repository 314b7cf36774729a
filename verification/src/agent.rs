//! Conversation types and the token-stream protocol spoken with the agent
//! sidecar.
//!
//! The sidecar answers a streaming chat with NDJSON/SSE lines. Each line is
//! reduced to a `StreamFrame` (its string fields); `stream_step` decides what
//! the reader forwards: a token, or one final "sentinel" string that starts
//! with NUL. `signals_for_token` turns forwarded strings back into display
//! signals for the chat view.
use vstd::prelude::*;
use crate::chat::{line_ranges, lines_of, ranges_hold, strings_view};
use crate::text::{
    chars_of, concat, starts_with, str_equal, str_starts_with, string_from_range, string_of,
    strip_prefix_or_same,
};

verus! {

/// Role in a conversation message.
#[derive(Clone, Copy, Debug, PartialEq, Eq, Structural)]
pub enum MessageRole {
    User,
    Assistant,
    System,
    Tool,
}

/// A single turn in the conversation.
#[derive(Clone, Debug)]
pub struct ConversationMessage {
    pub role: MessageRole,
    pub content: String,
}

/// Response from the agent engine.
#[derive(Clone, Debug)]
pub struct AgentResponse {
    pub text: String,
}

/// Failures of the agent backend.
#[derive(Debug)]
pub enum AgentError {
    NotRunning,
    SubprocessCrashed(String),
    RpcError(String),
    AgentReturnedError(String),
    Timeout,
}

/// The message of each agent error.
pub open spec fn agent_error_text(e: AgentError) -> Seq<char> {
    match e {
        AgentError::NotRunning => "agent subprocess not running"@,
        AgentError::SubprocessCrashed(m) => "agent subprocess crashed: "@ + m@,
        AgentError::RpcError(m) => "RPC communication error: "@ + m@,
        AgentError::AgentReturnedError(m) => "agent returned an error: "@ + m@,
        AgentError::Timeout => "timeout waiting for agent response"@,
    }
}

impl AgentError {
    /// The error's message.
    pub fn message(&self) -> (s: String)
        ensures
            s@ == agent_error_text(*self),
    {
        match self {
            AgentError::NotRunning => string_of("agent subprocess not running"),
            AgentError::SubprocessCrashed(m) => concat("agent subprocess crashed: ", m.as_str()),
            AgentError::RpcError(m) => concat("RPC communication error: ", m.as_str()),
            AgentError::AgentReturnedError(m) => concat("agent returned an error: ", m.as_str()),
            AgentError::Timeout => string_of("timeout waiting for agent response"),
        }
    }
}

/// The wire name of a role.
pub open spec fn role_wire_name(r: MessageRole) -> Seq<char> {
    match r {
        MessageRole::User => "user"@,
        MessageRole::Assistant => "assistant"@,
        MessageRole::System => "system"@,
        MessageRole::Tool => "tool"@,
    }
}

/// The role a wire name stands for; anything unknown is the user.
pub open spec fn role_of_wire_name(s: Seq<char>) -> MessageRole {
    if s == "assistant"@ {
        MessageRole::Assistant
    } else if s == "system"@ {
        MessageRole::System
    } else if s == "tool"@ {
        MessageRole::Tool
    } else {
        MessageRole::User
    }
}

impl MessageRole {
    /// The name the sidecar uses for this role.
    pub fn wire_name(&self) -> (s: &'static str)
        ensures
            s@ == role_wire_name(*self),
    {
        match self {
            MessageRole::User => "user",
            MessageRole::Assistant => "assistant",
            MessageRole::System => "system",
            MessageRole::Tool => "tool",
        }
    }

    /// Reads a role name from a history entry; unknown names are the user.
    pub fn from_wire_name(s: &str) -> (r: MessageRole)
        ensures
            r == role_of_wire_name(s@),
    {
        if str_equal(s, "assistant") {
            MessageRole::Assistant
        } else if str_equal(s, "system") {
            MessageRole::System
        } else if str_equal(s, "tool") {
            MessageRole::Tool
        } else {
            MessageRole::User
        }
    }
}

/// A history entry as the sidecar's reply holds it: its `role` and
/// `content` strings, when present.
pub struct HistoryEntry {
    pub role: Option<String>,
    pub content: Option<String>,
}

/// The text of an optional string, or `d` when it is missing.
pub open spec fn text_or(o: Option<String>, d: Seq<char>) -> Seq<char> {
    match o {
        Some(s) => s@,
        None => d,
    }
}

/// The conversation history from the sidecar's reply: none while the agent
/// is not running; otherwise one message per entry of the reply's history,
/// in order, its role read from the role name (`user` when missing) and its
/// content (empty when missing). A reply without a history is the error
/// `bad history response`.
pub fn history_messages(running: bool, entries: Option<Vec<HistoryEntry>>) -> (r: Result<
    Vec<ConversationMessage>,
    String,
>)
    ensures
        !running ==> (r matches Ok(v) && v@.len() == 0),
        running && entries is None ==> (r matches Err(e) && e@ == "bad history response"@),
        running && entries is Some ==> (r matches Ok(v) && v@.len() == entries->0@.len() && forall|
            i: int,
        |
            0 <= i < v@.len() ==> #[trigger] v@[i].role == role_of_wire_name(
                text_or(entries->0@[i].role, "user"@),
            ) && v@[i].content@ == text_or(entries->0@[i].content, Seq::empty())),
{
    if !running {
        return Ok(Vec::new());
    }
    match entries {
        None => Err(string_of("bad history response")),
        Some(es) => {
            let mut out: Vec<ConversationMessage> = Vec::new();
            let mut i: usize = 0;
            while i < es.len()
                invariant
                    i <= es@.len(),
                    out@.len() == i,
                    forall|j: int|
                        0 <= j < i ==> #[trigger] out@[j].role == role_of_wire_name(
                            text_or(es@[j].role, "user"@),
                        ) && out@[j].content@ == text_or(es@[j].content, Seq::empty()),
                decreases es.len() - i,
            {
                let e = &es[i];
                let role = match &e.role {
                    Some(name) => MessageRole::from_wire_name(name.as_str()),
                    None => MessageRole::from_wire_name("user"),
                };
                let content = match &e.content {
                    Some(c) => string_of(c.as_str()),
                    None => String::new(),
                };
                let ghost before = out@;
                proof {
                    assert(role == role_of_wire_name(text_or(es@[i as int].role, "user"@)));
                    assert(content@ == text_or(es@[i as int].content, Seq::empty()));
                }
                out.push(ConversationMessage { role, content });
                assert(forall|j: int| 0 <= j < i ==> out@[j] == before[j]);
                i = i + 1;
            }
            Ok(out)
        },
    }
}

/// Role names round-trip: reading back the wire name of any role gives that role.
pub proof fn lemma_role_wire_roundtrip(r: MessageRole)
    ensures
        role_of_wire_name(role_wire_name(r)) == r,
{
    reveal_strlit("user");
    reveal_strlit("assistant");
    reveal_strlit("system");
    reveal_strlit("tool");
    assert("user"@ != "assistant"@) by {
        assert("user"@[0] != "assistant"@[0]);
    }
    assert("user"@ != "system"@) by {
        assert("user"@[0] != "system"@[0]);
    }
    assert("user"@ != "tool"@) by {
        assert("user"@[0] != "tool"@[0]);
    }
    assert("system"@ != "assistant"@) by {
        assert("system"@[0] != "assistant"@[0]);
    }
    assert("tool"@ != "assistant"@) by {
        assert("tool"@[0] != "assistant"@[0]);
    }
    assert("tool"@ != "system"@) by {
        assert("tool"@[0] != "system"@[0]);
    }
}

/// The JSON payload of one line of the chat stream: a leading `data: ` is
/// dropped; blank lines and `:` comment lines carry none.
pub open spec fn stream_payload(line: Seq<char>) -> Option<Seq<char>> {
    let p = strip_prefix_or_same(line, "data: "@);
    if p.len() == 0 || ":"@.is_prefix_of(p) {
        None
    } else {
        Some(p)
    }
}

/// Extracts the JSON payload of one stream line, if it carries one.
pub fn stream_line_payload(line: &str) -> (r: Option<String>)
    ensures
        r matches Some(s) ==> stream_payload(line@) == Some(s@),
        r is None ==> stream_payload(line@) is None,
{
    let v = chars_of(line);
    let start: usize = if starts_with(&v, "data: ") {
        "data: ".unicode_len()
    } else {
        0
    };
    let p = string_from_range(&v, start, v.len());
    proof {
        let pre = "data: "@;
        if pre.is_prefix_of(line@) {
            assert(v@.subrange(start as int, v.len() as int) =~= line@.skip(pre.len() as int));
        } else {
            assert(v@.subrange(0, v.len() as int) =~= line@);
        }
    }
    if p.as_str().unicode_len() == 0 || str_starts_with(p.as_str(), ":") {
        None
    } else {
        Some(p)
    }
}

/// The string fields of one decoded stream message: `type`, `event`,
/// `data.token`, `data.text` and `error.message` (each absent when missing
/// or not a string).
pub struct StreamFrame {
    pub kind: Option<String>,
    pub event: Option<String>,
    pub token: Option<String>,
    pub text: Option<String>,
    pub error_message: Option<String>,
}

/// The characters of an optional string.
pub open spec fn opt_view(o: Option<String>) -> Option<Seq<char>> {
    match o {
        Some(s) => Some(s@),
        None => None,
    }
}

/// A stream message as plain values.
pub struct FrameModel {
    pub kind: Option<Seq<char>>,
    pub event: Option<Seq<char>>,
    pub token: Option<Seq<char>>,
    pub text: Option<Seq<char>>,
    pub error_message: Option<Seq<char>>,
}

impl View for StreamFrame {
    type V = FrameModel;

    open spec fn view(&self) -> FrameModel {
        FrameModel {
            kind: opt_view(self.kind),
            event: opt_view(self.event),
            token: opt_view(self.token),
            text: opt_view(self.text),
            error_message: opt_view(self.error_message),
        }
    }
}

/// What the stream reader does with one message.
pub enum StreamStep {
    /// Nothing to forward; keep reading.
    Continue,
    /// Forward a token and keep reading.
    Emit(String),
    /// Forward a final NUL-prefixed string and stop.
    Finish(String),
}

/// `StreamStep` as plain values.
pub enum StepModel {
    Continue,
    Emit(Seq<char>),
    Finish(Seq<char>),
}

impl View for StreamStep {
    type V = StepModel;

    open spec fn view(&self) -> StepModel {
        match self {
            StreamStep::Continue => StepModel::Continue,
            StreamStep::Emit(s) => StepModel::Emit(s@),
            StreamStep::Finish(s) => StepModel::Finish(s@),
        }
    }
}

/// Whether an optional string is present and equal to `lit`.
pub open spec fn opt_is(o: Option<Seq<char>>, lit: Seq<char>) -> bool {
    o == Some(lit)
}

/// The warning mark that error sentinels carry after the NUL.
pub open spec fn warn_mark() -> Seq<char> {
    "\u{26a0}\u{fe0f}"@
}

/// The reader's decision for one message.
///
/// A `token` event forwards its token (when it has one); a `done` event ends
/// the stream with NUL followed by the final text (empty when missing); an
/// `error` message ends it with NUL, the warning mark, a space and the
/// message (`Error` when missing). Everything else is skipped.
pub open spec fn stream_decision(f: FrameModel) -> StepModel {
    if opt_is(f.kind, "event"@) {
        if opt_is(f.event, "token"@) {
            match f.token {
                Some(t) => StepModel::Emit(t),
                None => StepModel::Continue,
            }
        } else if opt_is(f.event, "done"@) {
            StepModel::Finish(
                "\u{0}"@ + match f.text {
                    Some(t) => t,
                    None => Seq::<char>::empty(),
                },
            )
        } else {
            StepModel::Continue
        }
    } else if opt_is(f.kind, "error"@) {
        StepModel::Finish(
            "\u{0}"@ + warn_mark() + " "@ + match f.error_message {
                Some(m) => m,
                None => "Error"@,
            },
        )
    } else {
        StepModel::Continue
    }
}

/// Whether an optional string is present and spells `lit`.
fn opt_str_is(o: &Option<String>, lit: &str) -> (r: bool)
    ensures
        r == opt_is(opt_view(*o), lit@),
{
    match o {
        Some(s) => str_equal(s.as_str(), lit),
        None => false,
    }
}

/// Decides what to do with one decoded stream message.
pub fn stream_step(frame: &StreamFrame) -> (r: StreamStep)
    ensures
        r@ == stream_decision(frame@),
{
    if opt_str_is(&frame.kind, "event") {
        if opt_str_is(&frame.event, "token") {
            match &frame.token {
                Some(t) => StreamStep::Emit(t.clone()),
                None => StreamStep::Continue,
            }
        } else if opt_str_is(&frame.event, "done") {
            let mut out = string_of("\u{0}");
            match &frame.text {
                Some(t) => out.append(t.as_str()),
                None => {},
            }
            proof {
                if frame.text is None {
                    assert(out@ =~= "\u{0}"@ + Seq::<char>::empty());
                }
            }
            StreamStep::Finish(out)
        } else {
            StreamStep::Continue
        }
    } else if opt_str_is(&frame.kind, "error") {
        let mut out = string_of("\u{0}");
        out.append("\u{26a0}\u{fe0f}");
        out.append(" ");
        match &frame.error_message {
            Some(m) => out.append(m.as_str()),
            None => out.append("Error"),
        }
        StreamStep::Finish(out)
    } else {
        StreamStep::Continue
    }
}

/// A display signal for the chat view.
#[derive(Debug)]
pub enum StreamSignal {
    /// A text token to append to the assistant's message.
    Token(String),
    /// The stream completed successfully.
    Done,
    /// The stream failed with a message.
    Error(String),
}

/// `StreamSignal` as plain values.
pub enum SignalModel {
    Token(Seq<char>),
    Done,
    Error(Seq<char>),
}

impl View for StreamSignal {
    type V = SignalModel;

    open spec fn view(&self) -> SignalModel {
        match self {
            StreamSignal::Token(s) => SignalModel::Token(s@),
            StreamSignal::Done => SignalModel::Done,
            StreamSignal::Error(s) => SignalModel::Error(s@),
        }
    }
}

/// The signals a forwarded string stands for, and whether the stream ends.
///
/// A string that starts with NUL ends the stream: after the NUL, a leading
/// warning mark makes the rest an error; otherwise the rest (when not empty)
/// is a last token, followed by completion. Any other string is a token.
pub open spec fn token_signals(t: Seq<char>) -> (Seq<SignalModel>, bool) {
    if "\u{0}"@.is_prefix_of(t) {
        let msg = t.skip(1);
        if warn_mark().is_prefix_of(msg) {
            (seq![SignalModel::Error(msg)], true)
        } else if msg.len() > 0 {
            (seq![SignalModel::Token(msg), SignalModel::Done], true)
        } else {
            (seq![SignalModel::Done], true)
        }
    } else {
        (seq![SignalModel::Token(t)], false)
    }
}

/// Converts one forwarded string into display signals; the flag tells
/// whether the stream is over.
pub fn signals_for_token(token: &str) -> (r: (Vec<StreamSignal>, bool))
    ensures
        (r.0@.map_values(|s: StreamSignal| s@), r.1) == token_signals(token@),
{
    let v = chars_of(token);
    let mut out: Vec<StreamSignal> = Vec::new();
    proof {
        reveal_strlit("\u{0}");
    }
    if starts_with(&v, "\u{0}") {
        let msg = string_from_range(&v, 1, v.len());
        assert(msg@ =~= token@.skip(1));
        if str_starts_with(msg.as_str(), "\u{26a0}\u{fe0f}") {
            out.push(StreamSignal::Error(msg));
            assert(out@.map_values(|s: StreamSignal| s@) =~= seq![SignalModel::Error(token@.skip(1))]);
        } else if msg.as_str().unicode_len() > 0 {
            out.push(StreamSignal::Token(msg));
            out.push(StreamSignal::Done);
            assert(out@.map_values(|s: StreamSignal| s@) =~= seq![SignalModel::Token(token@.skip(1)), SignalModel::Done]);
        } else {
            out.push(StreamSignal::Done);
            assert(out@.map_values(|s: StreamSignal| s@) =~= seq![SignalModel::Done]);
        }
        (out, true)
    } else {
        out.push(StreamSignal::Token(string_of(token)));
        assert(out@.map_values(|s: StreamSignal| s@) =~= seq![SignalModel::Token(token@)]);
        (out, false)
    }
}

/// Sentinel law: whatever final string the stream reader forwards, the chat
/// view ends the stream on it; a `done` message whose text does not itself
/// begin with the warning mark ends as (optionally) that text then
/// completion; an `error` message ends as an error carrying the warning mark,
/// a space and its message.
pub proof fn lemma_finish_ends_stream(f: FrameModel)
    ensures
        stream_decision(f) matches StepModel::Finish(s) ==> token_signals(s).1,
        opt_is(f.kind, "event"@) && opt_is(f.event, "done"@) && !warn_mark().is_prefix_of(
            match f.text {
                Some(t) => t,
                None => Seq::<char>::empty(),
            },
        ) ==> token_signals(stream_decision(f)->Finish_0).0 == (if match f.text {
            Some(t) => t.len() > 0,
            None => false,
        } {
            seq![SignalModel::Token(f.text->0), SignalModel::Done]
        } else {
            seq![SignalModel::Done]
        }),
        opt_is(f.kind, "error"@) ==> token_signals(stream_decision(f)->Finish_0).0 == seq![
            SignalModel::Error(
                warn_mark() + " "@ + match f.error_message {
                    Some(m) => m,
                    None => "Error"@,
                },
            ),
        ],
{
    reveal_strlit("\u{0}");
    reveal_strlit("\u{26a0}\u{fe0f}");
    reveal_strlit("event");
    reveal_strlit("error");
    reveal_strlit("token");
    reveal_strlit("done");
    assert("event"@ != "error"@) by {
        assert("event"@[1] != "error"@[1]);
    }
    assert("token"@ != "done"@) by {
        assert("token"@[0] != "done"@[0]);
    }
    let nul = "\u{0}"@;
    match stream_decision(f) {
        StepModel::Finish(s) => {
            assert(nul.is_prefix_of(s)) by {
                assert(s.subrange(0, 1) =~= nul);
            }
            if opt_is(f.kind, "event"@) {
                let t = match f.text {
                    Some(t) => t,
                    None => Seq::<char>::empty(),
                };
                assert(s.skip(1) =~= t);
                if opt_is(f.event, "done"@) && !warn_mark().is_prefix_of(t) {
                    assert(token_signals(s).0 == (if t.len() > 0 {
                        seq![SignalModel::Token(t), SignalModel::Done]
                    } else {
                        seq![SignalModel::Done]
                    }));
                }
            } else {
                let m = match f.error_message {
                    Some(m) => m,
                    None => "Error"@,
                };
                assert(s.skip(1) =~= warn_mark() + " "@ + m);
                assert(warn_mark().is_prefix_of(s.skip(1))) by {
                    assert(s.skip(1).subrange(0, 2) =~= warn_mark());
                }
            }
        },
        _ => {},
    }
}

/// The string fields of the JSON message `line`, as `serde_json` reads
/// them (`None` when the line is not JSON).
pub uninterp spec fn json_stream_frame(line: Seq<char>) -> Option<FrameModel>;

/// The view of an optional frame.
pub open spec fn frame_opt_view(f: Option<StreamFrame>) -> Option<FrameModel> {
    match f {
        Some(fr) => Some(fr@),
        None => None,
    }
}

/// Parses a stream line with `serde_json::from_str` into a JSON value and
/// picks its string fields `type`, `event`, `data.token`, `data.text` and
/// `error.message`. The contract names the result: it depends on the line
/// alone.
#[verifier::external_body]
fn decode_stream_frame(line: &str) -> (r: Option<StreamFrame>)
    ensures
        frame_opt_view(r) == json_stream_frame(line@),
{
    let v: serde_json::Value = serde_json::from_str(line).ok()?;
    let field = |x: Option<&serde_json::Value>| x.and_then(|y| y.as_str()).map(String::from);
    Some(StreamFrame {
        kind: field(v.get("type")),
        event: field(v.get("event")),
        token: field(v.get("data").and_then(|d| d.get("token"))),
        text: field(v.get("data").and_then(|d| d.get("text"))),
        error_message: field(v.get("error").and_then(|e| e.get("message"))),
    })
}

/// The reader's decision for one line of the stream: lines without a
/// payload, and payloads that are not JSON, are skipped.
pub open spec fn line_decision(line: Seq<char>) -> StepModel {
    match stream_payload(line) {
        None => StepModel::Continue,
        Some(p) => match json_stream_frame(p) {
            None => StepModel::Continue,
            Some(f) => stream_decision(f),
        },
    }
}

/// Decides what to do with one line of the stream.
pub fn stream_line_step(line: &str) -> (r: StreamStep)
    ensures
        r@ == line_decision(line@),
{
    match stream_line_payload(line) {
        None => StreamStep::Continue,
        Some(p) => match decode_stream_frame(p.as_str()) {
            None => StreamStep::Continue,
            Some(f) => stream_step(&f),
        },
    }
}

/// What the reader forwards for a run of lines, and whether it stopped:
/// tokens in order, up to and including the first final string.
pub open spec fn forward_lines(lines: Seq<Seq<char>>) -> (Seq<Seq<char>>, bool)
    decreases lines.len(),
{
    if lines.len() == 0 {
        (Seq::empty(), false)
    } else {
        match line_decision(lines[0]) {
            StepModel::Continue => forward_lines(lines.drop_first()),
            StepModel::Emit(t) => {
                let rest = forward_lines(lines.drop_first());
                (seq![t] + rest.0, rest.1)
            },
            StepModel::Finish(s) => (seq![s], true),
        }
    }
}

/// Reads one chunk of the stream: the strings to forward, in order, and
/// whether the stream is over (a final string was among them).
pub fn stream_chunk(text: &str) -> (r: (Vec<String>, bool))
    ensures
        (strings_view(r.0@), r.1) == forward_lines(lines_of(text@)),
{
    let v = chars_of(text);
    let ranges = line_ranges(&v);
    let ghost ls = lines_of(v@);
    let mut out: Vec<String> = Vec::new();
    let mut j: usize = 0;
    proof {
        assert(ls.skip(0) =~= ls);
        assert(strings_view(out@) + forward_lines(ls).0 =~= forward_lines(ls).0);
    }
    while j < ranges.len()
        invariant
            v@ == text@,
            ls == lines_of(v@),
            ranges_hold(v@, ranges@, ls),
            0 <= j <= ranges@.len(),
            forward_lines(ls) == ({
                let rest = forward_lines(ls.skip(j as int));
                (strings_view(out@) + rest.0, rest.1)
            }),
        decreases ranges.len() - j,
    {
        let (lo, hi) = ranges[j];
        let line = string_from_range(&v, lo, hi);
        let ghost before = strings_view(out@);
        let ghost rest = ls.skip(j as int);
        assert(rest[0] == ls[j as int]);
        assert(rest.drop_first() =~= ls.skip(j + 1));
        match stream_line_step(line.as_str()) {
            StreamStep::Continue => {},
            StreamStep::Emit(t) => {
                out.push(t);
                assert(strings_view(out@) =~= before.push(
                    line_decision(ls[j as int])->Emit_0,
                ));
                assert(before + (seq![line_decision(ls[j as int])->Emit_0] + forward_lines(
                    ls.skip(j + 1),
                ).0) =~= strings_view(out@) + forward_lines(ls.skip(j + 1)).0);
            },
            StreamStep::Finish(s) => {
                out.push(s);
                assert(strings_view(out@) =~= before + seq![
                    line_decision(ls[j as int])->Finish_0,
                ]);
                return (out, true);
            },
        }
        j = j + 1;
    }
    assert(ls.skip(ranges@.len() as int) =~= Seq::<Seq<char>>::empty());
    assert(strings_view(out@) + Seq::<Seq<char>>::empty() =~= strings_view(out@));
    (out, false)
}

/// What the desktop chat view is sent for a forwarded string: whether the
/// reply is complete, and the text (the string without its NUL when it is
/// the final one).
pub open spec fn chat_token_event(t: Seq<char>) -> (bool, Seq<char>) {
    if "\u{0}"@.is_prefix_of(t) {
        (true, t.skip(1))
    } else {
        (false, t)
    }
}

/// Turns a forwarded string into the desktop chat view's token event.
pub fn chat_token_payload(token: &str) -> (r: (bool, String))
    ensures
        (r.0, r.1@) == chat_token_event(token@),
{
    let v = chars_of(token);
    proof {
        reveal_strlit("\u{0}");
    }
    if starts_with(&v, "\u{0}") {
        (true, string_from_range(&v, 1, v.len()))
    } else {
        (false, string_of(token))
    }
}

} // verus!
