//! Client-side engine for a chat completion service: wire model, event-stream
//! frame decoding, assembly of streamed assistant turns and the tool-calling
//! session rounds.

pub mod request;
pub mod response;
pub mod registry;
pub mod session;
pub mod sse;
pub mod turn;

pub use registry::Function;
pub use session::Client;

pub use request::message;
pub use response::FinishReason;

use vstd::prelude::*;

verus! {

/// `schemars::Schema`, the JSON schema of a tool's parameters. The library
/// carries it from the registered tool into the request and reads nothing
/// of it.
#[verifier::external_type_specification]
#[verifier::external_body]
pub struct ExSchema(schemars::Schema);

/// `serde_json::Value`, any JSON value. The service sends one as the log
/// probabilities of a choice; the library carries it and reads nothing of it.
#[verifier::external_type_specification]
#[verifier::external_body]
pub struct ExValue(serde_json::Value);

/// The models that the service offers.
#[derive(Debug, Clone, Copy, PartialEq, Eq, Structural)]
pub enum Model {
    DeepSeekChat,
    DeepSeekReasoner,
}

/// Who wrote a message.
#[derive(Debug, Clone, Copy, PartialEq, Eq, Structural)]
pub enum Role {
    System,
    User,
    Assistant,
    Tool,
}

/// The kinds of tool call that the service knows.
#[derive(Debug, Clone, Copy, PartialEq, Eq, Structural)]
pub enum ToolCallType {
    Function,
}

/// The output format asked of the model.
#[derive(Debug, Clone, Copy, PartialEq, Eq, Structural)]
pub enum ResponseFormat {
    Text,
    JsonObject,
}

/// How the service broke the protocol of a round.
#[derive(Debug, Clone, Copy, PartialEq, Eq, Structural)]
pub enum Violation {
    /// The stream ended and no choice had carried a finish reason.
    MissingFinishReason,
    /// A fragment that starts a tool call lacks its id, kind or name.
    MissingIdentity,
    /// A fragment's index lies beyond the next tool call to start.
    IndexGap,
    /// A buffered response does not hold exactly one choice.
    ChoiceCount,
}

/// Why a session failed. None of these is retried or passed over.
#[derive(Debug, Clone, Copy, PartialEq, Eq, Structural)]
pub enum SessionError {
    /// A frame of the event stream is malformed.
    Decode,
    /// The service broke the protocol.
    Protocol(Violation),
    /// The model asked for a tool that is not registered.
    UnknownTool,
}

/// What an event holds.
#[allow(inconsistent_fields)]
pub enum EventView {
    Assistant {
        content: Option<Seq<char>>,
        reasoning_content: Option<Seq<char>>,
        role: Option<Role>,
    },
    ToolCallInput { tool_call_id: Option<Seq<char>>, function: response::streaming::FunctionView },
    ToolCallOutput { tool_call_id: Seq<char>, content: Seq<char> },
}

/// An event for the caller: one step of a turn as it is being streamed.
#[derive(Debug)]
#[allow(inconsistent_fields)]
pub enum Delta {
    /// A piece of the assistant's text or reasoning, as received.
    Assistant { content: Option<String>, reasoning_content: Option<String>, role: Option<Role> },
    /// A fragment of a tool call; `tool_call_id` is present when it starts a call.
    ToolCallInput { tool_call_id: Option<String>, function: response::streaming::Function },
    /// The result of a tool that was run.
    ToolCallOutput { tool_call_id: String, content: String },
}

impl DeepView for Delta {
    type V = EventView;

    open spec fn deep_view(&self) -> EventView {
        match self {
            Delta::Assistant { content, reasoning_content, role } => EventView::Assistant {
                content: content.deep_view(),
                reasoning_content: reasoning_content.deep_view(),
                role: *role,
            },
            Delta::ToolCallInput { tool_call_id, function } => EventView::ToolCallInput {
                tool_call_id: tool_call_id.deep_view(),
                function: function.deep_view(),
            },
            Delta::ToolCallOutput { tool_call_id, content } => EventView::ToolCallOutput {
                tool_call_id: tool_call_id@,
                content: content@,
            },
        }
    }
}

impl Clone for Delta {
    fn clone(&self) -> (res: Self)
        ensures
            res.deep_view() == self.deep_view(),
    {
        match self {
            Delta::Assistant { content, reasoning_content, role } => Delta::Assistant {
                content: request::message::clone_text(content),
                reasoning_content: request::message::clone_text(reasoning_content),
                role: *role,
            },
            Delta::ToolCallInput { tool_call_id, function } => Delta::ToolCallInput {
                tool_call_id: request::message::clone_text(tool_call_id),
                function: function.clone(),
            },
            Delta::ToolCallOutput { tool_call_id, content } => Delta::ToolCallOutput {
                tool_call_id: tool_call_id.clone(),
                content: content.clone(),
            },
        }
    }
}

} // verus!
