use crate::request::message::clone_text;
use crate::response::fields::FinishReason;
use crate::{Model, Role, ToolCallType};
use vstd::prelude::*;

verus! {

/// What the function part of a tool-call fragment holds.
pub struct FunctionView {
    pub name: Option<Seq<char>>,
    pub arguments: Seq<char>,
}

/// What a tool-call fragment holds.
pub struct FragmentView {
    pub index: nat,
    pub id: Option<Seq<char>>,
    pub kind: Option<ToolCallType>,
    pub function: FunctionView,
}

/// What a streamed delta holds.
pub enum DeltaView {
    Assistant {
        content: Option<Seq<char>>,
        reasoning_content: Option<Seq<char>>,
        role: Option<Role>,
    },
    ToolCall { tool_calls: Seq<FragmentView> },
}

/// What the engine reads of a streamed choice.
pub struct ChoiceView {
    pub finish_reason: Option<FinishReason>,
    pub delta: DeltaView,
}

/// One decoded payload of the event stream.
#[derive(Debug)]
pub struct Chunk {
    pub id: String,
    pub choices: Vec<Choice>,
    pub created: u64,
    pub model: Model,
    pub system_fingerprint: String,
    pub object: Object,
}

/// One choice of a chunk: a partial delta, and on the last chunk of a round
/// the reason why the round ended.
#[derive(Debug)]
pub struct Choice {
    pub index: u64,
    pub finish_reason: Option<FinishReason>,
    pub delta: Delta,
    pub logprobs: serde_json::Value,
}

/// A partial delta: text of the assistant, or fragments of tool calls.
#[derive(Debug)]
pub enum Delta {
    Assistant { content: Option<String>, reasoning_content: Option<String>, role: Option<Role> },
    ToolCall { tool_calls: Vec<ToolCall> },
}

/// A fragment of a tool call; `kind`, `id` and the function's name come only
/// with the fragment that starts the call.
#[derive(Debug)]
pub struct ToolCall {
    pub kind: Option<ToolCallType>,
    pub id: Option<String>,
    pub index: usize,
    pub function: Function,
}

/// The function part of a fragment: a piece of the argument text.
#[derive(Debug)]
pub struct Function {
    pub name: Option<String>,
    pub arguments: String,
}

#[derive(Debug, Clone, Copy, PartialEq, Eq, Structural)]
pub enum Object {
    ChatCompletionChunk,
}

impl DeepView for Function {
    type V = FunctionView;

    open spec fn deep_view(&self) -> FunctionView {
        FunctionView { name: self.name.deep_view(), arguments: self.arguments@ }
    }
}

impl DeepView for ToolCall {
    type V = FragmentView;

    open spec fn deep_view(&self) -> FragmentView {
        FragmentView {
            index: self.index as nat,
            id: self.id.deep_view(),
            kind: self.kind,
            function: self.function.deep_view(),
        }
    }
}

impl DeepView for Delta {
    type V = DeltaView;

    open spec fn deep_view(&self) -> DeltaView {
        match self {
            Delta::Assistant { content, reasoning_content, role } => DeltaView::Assistant {
                content: content.deep_view(),
                reasoning_content: reasoning_content.deep_view(),
                role: *role,
            },
            Delta::ToolCall { tool_calls } => DeltaView::ToolCall {
                tool_calls: tool_calls.deep_view(),
            },
        }
    }
}

impl DeepView for Choice {
    type V = ChoiceView;

    open spec fn deep_view(&self) -> ChoiceView {
        ChoiceView { finish_reason: self.finish_reason, delta: self.delta.deep_view() }
    }
}

/// `Clone::clone` of `serde_json::Value`, which the crate derives: the copy
/// is the same JSON value as the one it was made of.
pub assume_specification[ <serde_json::Value as Clone>::clone ](
    value: &serde_json::Value,
) -> (res: serde_json::Value)
    ensures
        res == *value,
;

impl Clone for Function {
    fn clone(&self) -> (res: Self)
        ensures
            res.deep_view() == self.deep_view(),
    {
        Function { name: clone_text(&self.name), arguments: self.arguments.clone() }
    }
}

impl Clone for ToolCall {
    fn clone(&self) -> (res: Self)
        ensures
            res.deep_view() == self.deep_view(),
    {
        ToolCall {
            kind: self.kind,
            id: clone_text(&self.id),
            index: self.index,
            function: self.function.clone(),
        }
    }
}

impl Clone for Delta {
    fn clone(&self) -> (res: Self)
        ensures
            res.deep_view() == self.deep_view(),
    {
        match self {
            Delta::Assistant { content, reasoning_content, role } => Delta::Assistant {
                content: clone_text(content),
                reasoning_content: clone_text(reasoning_content),
                role: *role,
            },
            Delta::ToolCall { tool_calls } => {
                let mut copied: Vec<ToolCall> = Vec::new();
                let mut i: usize = 0;
                while i < tool_calls.len()
                    invariant
                        i <= tool_calls.len(),
                        copied.len() == i,
                        forall|j: int|
                            0 <= j < i ==> copied@[j].deep_view() == tool_calls@[j].deep_view(),
                    decreases tool_calls.len() - i,
                {
                    copied.push(tool_calls[i].clone());
                    i += 1;
                }
                assert(copied.deep_view() =~= tool_calls.deep_view());
                Delta::ToolCall { tool_calls: copied }
            },
        }
    }
}

impl Clone for Choice {
    fn clone(&self) -> (res: Self)
        ensures
            res.deep_view() == self.deep_view(),
            res.index == self.index,
            res.logprobs == self.logprobs,
    {
        Choice {
            index: self.index,
            finish_reason: self.finish_reason,
            delta: self.delta.clone(),
            logprobs: self.logprobs.clone(),
        }
    }
}

} // verus!
