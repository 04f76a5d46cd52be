use crate::ToolCallType;
use vstd::prelude::*;

verus! {

/// What a settled tool call holds: its identity and the argument text.
pub struct ToolCallView {
    pub id: Seq<char>,
    pub name: Seq<char>,
    pub arguments: Seq<char>,
}

/// What a message of the conversation holds.
#[allow(inconsistent_fields)]
pub enum MessageView {
    System { name: Option<Seq<char>>, content: Seq<char> },
    User { name: Option<Seq<char>>, content: Seq<char> },
    Assistant {
        name: Option<Seq<char>>,
        content: Seq<char>,
        reasoning_content: Option<Seq<char>>,
        tool_calls: Option<Seq<ToolCallView>>,
    },
    Tool { tool_call_id: Seq<char>, content: Seq<char> },
}

/// The function that a settled tool call names, with its argument text.
#[derive(Debug)]
pub struct Function {
    pub name: String,
    pub arguments: String,
}

impl Clone for Function {
    fn clone(&self) -> (res: Self)
        ensures
            res.name@ == self.name@,
            res.arguments@ == self.arguments@,
    {
        Function { name: self.name.clone(), arguments: self.arguments.clone() }
    }
}

/// One tool invocation that the model asked for.
#[derive(Debug)]
pub struct ToolCall {
    pub kind: ToolCallType,
    pub id: String,
    pub function: Function,
}

impl DeepView for ToolCall {
    type V = ToolCallView;

    open spec fn deep_view(&self) -> ToolCallView {
        ToolCallView {
            id: self.id@,
            name: self.function.name@,
            arguments: self.function.arguments@,
        }
    }
}

impl Clone for ToolCall {
    fn clone(&self) -> (res: Self)
        ensures
            res.deep_view() == self.deep_view(),
    {
        ToolCall { kind: self.kind, id: self.id.clone(), function: self.function.clone() }
    }
}

/// Copies an optional text.
pub fn clone_text(text: &Option<String>) -> (res: Option<String>)
    ensures
        res.deep_view() == text.deep_view(),
{
    match text {
        Some(t) => Some(t.clone()),
        None => None,
    }
}

/// Copies a list of tool calls, keeping their order.
pub fn clone_calls(calls: &Vec<ToolCall>) -> (res: Vec<ToolCall>)
    ensures
        res.deep_view() == calls.deep_view(),
{
    let mut res: Vec<ToolCall> = Vec::new();
    let mut i: usize = 0;
    while i < calls.len()
        invariant
            i <= calls.len(),
            res.len() == i,
            forall|j: int| 0 <= j < i ==> res@[j].deep_view() == calls@[j].deep_view(),
        decreases calls.len() - i,
    {
        res.push(calls[i].clone());
        i += 1;
    }
    assert(res.deep_view() =~= calls.deep_view());
    res
}

/// A system turn.
#[derive(Debug)]
pub struct System {
    pub name: Option<String>,
    pub content: String,
}

/// A user turn.
#[derive(Debug)]
pub struct User {
    pub name: Option<String>,
    pub content: String,
}

/// One completed model turn; `tool_calls` is present exactly when the model
/// asked for tools in that round.
#[derive(Debug)]
pub struct Assistant {
    pub name: Option<String>,
    pub content: String,
    pub reasoning_content: Option<String>,
    pub tool_calls: Option<Vec<ToolCall>>,
}

/// The result of one tool invocation.
#[derive(Debug)]
pub struct Tool {
    pub tool_call_id: String,
    pub content: String,
}

/// One message of the conversation.
#[derive(Debug)]
pub enum Message {
    System(System),
    User(User),
    Assistant(Assistant),
    Tool(Tool),
}

impl DeepView for System {
    type V = MessageView;

    open spec fn deep_view(&self) -> MessageView {
        MessageView::System { name: self.name.deep_view(), content: self.content@ }
    }
}

impl DeepView for User {
    type V = MessageView;

    open spec fn deep_view(&self) -> MessageView {
        MessageView::User { name: self.name.deep_view(), content: self.content@ }
    }
}

impl DeepView for Assistant {
    type V = MessageView;

    open spec fn deep_view(&self) -> MessageView {
        MessageView::Assistant {
            name: self.name.deep_view(),
            content: self.content@,
            reasoning_content: self.reasoning_content.deep_view(),
            tool_calls: self.tool_calls.deep_view(),
        }
    }
}

impl DeepView for Tool {
    type V = MessageView;

    open spec fn deep_view(&self) -> MessageView {
        MessageView::Tool { tool_call_id: self.tool_call_id@, content: self.content@ }
    }
}

impl DeepView for Message {
    type V = MessageView;

    open spec fn deep_view(&self) -> MessageView {
        match self {
            Message::System(m) => m.deep_view(),
            Message::User(m) => m.deep_view(),
            Message::Assistant(m) => m.deep_view(),
            Message::Tool(m) => m.deep_view(),
        }
    }
}

impl Clone for System {
    fn clone(&self) -> (res: Self)
        ensures
            res.deep_view() == self.deep_view(),
    {
        System { name: clone_text(&self.name), content: self.content.clone() }
    }
}

impl Clone for User {
    fn clone(&self) -> (res: Self)
        ensures
            res.deep_view() == self.deep_view(),
    {
        User { name: clone_text(&self.name), content: self.content.clone() }
    }
}

impl Clone for Assistant {
    fn clone(&self) -> (res: Self)
        ensures
            res.deep_view() == self.deep_view(),
    {
        let tool_calls = match &self.tool_calls {
            Some(calls) => Some(clone_calls(calls)),
            None => None,
        };
        Assistant {
            name: clone_text(&self.name),
            content: self.content.clone(),
            reasoning_content: clone_text(&self.reasoning_content),
            tool_calls,
        }
    }
}

impl Clone for Tool {
    fn clone(&self) -> (res: Self)
        ensures
            res.deep_view() == self.deep_view(),
    {
        Tool { tool_call_id: self.tool_call_id.clone(), content: self.content.clone() }
    }
}

impl Clone for Message {
    fn clone(&self) -> (res: Self)
        ensures
            res.deep_view() == self.deep_view(),
    {
        match self {
            Message::System(m) => Message::System(m.clone()),
            Message::User(m) => Message::User(m.clone()),
            Message::Assistant(m) => Message::Assistant(m.clone()),
            Message::Tool(m) => Message::Tool(m.clone()),
        }
    }
}

/// Copies a run of messages, keeping their order.
pub fn clone_messages(messages: &Vec<Message>, start: usize) -> (res: Vec<Message>)
    requires
        start <= messages.len(),
    ensures
        res.deep_view() == messages.deep_view().skip(start as int),
{
    let mut res: Vec<Message> = Vec::new();
    let mut i: usize = start;
    while i < messages.len()
        invariant
            start <= i <= messages.len(),
            res.len() == i - start,
            forall|j: int| 0 <= j < i - start ==> res@[j].deep_view() == messages@[start + j].deep_view(),
        decreases messages.len() - i,
    {
        res.push(messages[i].clone());
        i += 1;
    }
    assert(res.deep_view() =~= messages.deep_view().skip(start as int));
    res
}

impl From<System> for Message {
    fn from(value: System) -> (res: Self) {
        Message::System(value)
    }
}

impl vstd::std_specs::convert::FromSpecImpl<System> for Message {
    open spec fn obeys_from_spec() -> bool {
        true
    }

    open spec fn from_spec(value: System) -> Self {
        Message::System(value)
    }
}

impl From<User> for Message {
    fn from(value: User) -> (res: Self) {
        Message::User(value)
    }
}

impl vstd::std_specs::convert::FromSpecImpl<User> for Message {
    open spec fn obeys_from_spec() -> bool {
        true
    }

    open spec fn from_spec(value: User) -> Self {
        Message::User(value)
    }
}

impl From<Assistant> for Message {
    fn from(value: Assistant) -> (res: Self) {
        Message::Assistant(value)
    }
}

impl vstd::std_specs::convert::FromSpecImpl<Assistant> for Message {
    open spec fn obeys_from_spec() -> bool {
        true
    }

    open spec fn from_spec(value: Assistant) -> Self {
        Message::Assistant(value)
    }
}

impl From<Tool> for Message {
    fn from(value: Tool) -> (res: Self) {
        Message::Tool(value)
    }
}

impl vstd::std_specs::convert::FromSpecImpl<Tool> for Message {
    open spec fn obeys_from_spec() -> bool {
        true
    }

    open spec fn from_spec(value: Tool) -> Self {
        Message::Tool(value)
    }
}

} // verus!
