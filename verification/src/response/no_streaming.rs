use crate::response::fields::{FinishReason, Usage};
use crate::{Model, Role, ToolCallType};
use vstd::prelude::*;

verus! {

/// A whole response of the service to one request.
#[derive(Debug)]
pub struct Response {
    pub id: String,
    pub choices: Vec<Choice>,
    pub created: u64,
    pub model: Model,
    pub system_fingerprint: String,
    pub object: Object,
    pub usage: Usage,
}

/// One choice of a response: a complete assistant message and the reason
/// why the round ended.
#[derive(Debug)]
pub struct Choice {
    pub index: u64,
    pub finish_reason: FinishReason,
    pub message: Message,
    pub logprobs: serde_json::Value,
}

/// A complete assistant message as the service sends it.
#[derive(Debug)]
pub struct Message {
    pub content: String,
    pub reasoning_content: Option<String>,
    pub tool_calls: Option<Vec<ToolCall>>,
    pub role: Role,
}

#[derive(Debug, Clone, Copy, PartialEq, Eq, Structural)]
pub enum Object {
    ChatCompletion,
}

/// A complete tool call as the service sends it.
#[derive(Debug)]
pub struct ToolCall {
    pub index: u32,
    pub id: String,
    pub kind: ToolCallType,
    pub function: Function,
}

/// The function that a tool call names, with its argument text.
#[derive(Debug)]
pub struct Function {
    pub name: String,
    pub arguments: String,
}

impl DeepView for ToolCall {
    type V = crate::request::message::ToolCallView;

    open spec fn deep_view(&self) -> crate::request::message::ToolCallView {
        crate::request::message::ToolCallView {
            id: self.id@,
            name: self.function.name@,
            arguments: self.function.arguments@,
        }
    }
}

impl Clone for Function {
    fn clone(&self) -> (res: Self)
        ensures
            res.name@ == self.name@,
            res.arguments@ == self.arguments@,
    {
        Function { name: self.name.clone(), arguments: self.arguments.clone() }
    }
}

impl Clone for ToolCall {
    fn clone(&self) -> (res: Self)
        ensures
            res.deep_view() == self.deep_view(),
            res.index == self.index,
    {
        ToolCall {
            index: self.index,
            id: self.id.clone(),
            kind: self.kind,
            function: self.function.clone(),
        }
    }
}

} // verus!
