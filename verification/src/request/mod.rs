pub mod message;

use crate::Model;
use vstd::prelude::*;

verus! {

/// Switches the model's thinking on or off.
#[derive(Debug, Clone, Copy, PartialEq, Eq, Structural)]
pub struct Thinking {
    pub kind: ThinkingType,
}

impl Thinking {
    pub fn enabled() -> (thinking: Self)
        ensures
            thinking == (Thinking { kind: ThinkingType::Enabled }),
    {
        Thinking { kind: ThinkingType::Enabled }
    }

    pub fn disabled() -> (thinking: Self)
        ensures
            thinking == (Thinking { kind: ThinkingType::Disabled }),
    {
        Thinking { kind: ThinkingType::Disabled }
    }
}

#[derive(Debug, Clone, Copy, PartialEq, Eq, Structural)]
pub enum ThinkingType {
    Enabled,
    Disabled,
}

/// What a tool descriptor holds.
pub struct ToolView {
    pub name: Seq<char>,
    pub description: Seq<char>,
    pub parameters: schemars::Schema,
}

/// A tool as the request describes it to the model.
#[derive(Debug)]
pub enum Tool {
    Function { name: String, description: String, parameters: schemars::Schema },
}

impl DeepView for Tool {
    type V = ToolView;

    open spec fn deep_view(&self) -> ToolView {
        match self {
            Tool::Function { name, description, parameters } => ToolView {
                name: name@,
                description: description@,
                parameters: *parameters,
            },
        }
    }
}

/// The output format as the request states it.
#[derive(Debug, Clone, Copy, PartialEq, Eq, Structural)]
pub struct ResponseFormat {
    pub kind: ResponseFormatType,
}

impl From<ResponseFormatType> for ResponseFormat {
    fn from(value: ResponseFormatType) -> (res: Self) {
        ResponseFormat { kind: value }
    }
}

impl vstd::std_specs::convert::FromSpecImpl<ResponseFormatType> for ResponseFormat {
    open spec fn obeys_from_spec() -> bool {
        true
    }

    open spec fn from_spec(value: ResponseFormatType) -> Self {
        ResponseFormat { kind: value }
    }
}

#[derive(Debug, Clone, Copy, PartialEq, Eq, Structural)]
pub enum ResponseFormatType {
    Text,
    JsonObject,
}

/// One request to the service: the whole conversation, the tools on offer and
/// the settings that the service reads.
#[derive(Debug)]
pub struct ChatCompletionRequest {
    pub messages: Vec<message::Message>,
    pub model: Model,
    pub thinking: Option<Thinking>,
    pub stream: bool,
    /// The most tokens that the completion may hold.
    pub max_tokens: Option<u32>,
    pub response_format: ResponseFormat,
    /// The tools that the model may call.
    pub tools: Vec<Tool>,
}

} // verus!
