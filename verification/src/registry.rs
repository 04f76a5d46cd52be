use crate::request::message::{Message, MessageView};
use crate::request::{Tool, ToolView};
use vstd::prelude::*;

verus! {

/// `Clone::clone` of `schemars::Schema`, which the crate derives: the copy
/// is the same schema as the one it was made of.
pub assume_specification[ <schemars::Schema as Clone>::clone ](
    schema: &schemars::Schema,
) -> (res: schemars::Schema)
    ensures
        res == *schema,
;

/// A tool that the application registers: how the model sees it, and the
/// callback that runs it, from the argument text to the result text.
pub struct Function<F: Fn(String) -> String> {
    pub name: String,
    pub description: String,
    pub parameters: schemars::Schema,
    pub call: F,
}

impl<F: Fn(String) -> String> Function<F> {
    /// The tool as a request describes it.
    pub fn descriptor(&self) -> (tool: Tool)
        ensures
            tool.deep_view() == (ToolView {
                name: self.name@,
                description: self.description@,
                parameters: self.parameters,
            }),
    {
        Tool::Function {
            name: self.name.clone(),
            description: self.description.clone(),
            parameters: self.parameters.clone(),
        }
    }
}

impl<F: Fn(String) -> String + Clone> Clone for Function<F> {
    fn clone(&self) -> (res: Self)
        ensures
            res.name@ == self.name@,
            res.description@ == self.description@,
            res.parameters == self.parameters,
    {
        Function {
            name: self.name.clone(),
            description: self.description.clone(),
            parameters: self.parameters.clone(),
            call: self.call.clone(),
        }
    }
}

impl<F: Fn(String) -> String> From<Function<F>> for Tool {
    fn from(value: Function<F>) -> (res: Self) {
        Tool::Function {
            name: value.name,
            description: value.description,
            parameters: value.parameters,
        }
    }
}

impl<F: Fn(String) -> String> vstd::std_specs::convert::FromSpecImpl<Function<F>> for Tool {
    open spec fn obeys_from_spec() -> bool {
        true
    }

    open spec fn from_spec(value: Function<F>) -> Self {
        Tool::Function {
            name: value.name,
            description: value.description,
            parameters: value.parameters,
        }
    }
}

/// The names of registered tools, in their order.
pub open spec fn tool_names<F: Fn(String) -> String>(tools: Seq<Function<F>>) -> Seq<Seq<char>> {
    Seq::new(tools.len(), |i: int| tools[i].name@)
}

/// The position of the first of `names` that equals `name`, if any does.
pub open spec fn first_match(names: Seq<Seq<char>>, name: Seq<char>) -> Option<int>
    decreases names.len(),
{
    if names.len() == 0 {
        None
    } else if names.last() == name && first_match(names.drop_last(), name) is None {
        Some(names.len() - 1)
    } else {
        first_match(names.drop_last(), name)
    }
}

/// Whether a message is the result of the tool call with that id.
pub open spec fn is_result_for(message: MessageView, id: Seq<char>) -> bool {
    message is Tool && message->tool_call_id == id
}

/// Whether the conversation already holds the result of the tool call with
/// that id.
pub open spec fn answered(context: Seq<MessageView>, id: Seq<char>) -> bool {
    exists|i: int| 0 <= i < context.len() && is_result_for(#[trigger] context[i], id)
}

/// Looks a tool up by its name: the first registered tool of that name.
pub fn find_tool<F: Fn(String) -> String>(tools: &Vec<Function<F>>, name: &String) -> (found: Option<
    usize,
>)
    ensures
        match found {
            Some(k) => k < tools@.len() && first_match(tool_names(tools@), name@) == Some(
                k as int,
            ),
            None => first_match(tool_names(tools@), name@) is None,
        },
{
    proof {
        lemma_first_match(tool_names(tools@), name@);
    }
    let mut i: usize = 0;
    while i < tools.len()
        invariant
            i <= tools.len(),
            first_match(tool_names(tools@).take(i as int), name@) is None,
        decreases tools.len() - i,
    {
        if tools[i].name == *name {
            proof {
                lemma_first_match_prefix(tool_names(tools@), name@, i as int);
            }
            return Some(i);
        }
        assert(tool_names(tools@).take(i + 1).drop_last() =~= tool_names(tools@).take(i as int));
        i += 1;
    }
    assert(tool_names(tools@).take(i as int) =~= tool_names(tools@));
    None
}

/// The first match is a position of the name, and the least one; there is
/// none exactly where the name does not occur.
pub proof fn lemma_first_match(names: Seq<Seq<char>>, name: Seq<char>)
    ensures
        match first_match(names, name) {
            Some(i) => 0 <= i < names.len() && names[i] == name && forall|j: int|
                0 <= j < i ==> names[j] != name,
            None => forall|j: int| 0 <= j < names.len() ==> names[j] != name,
        },
    decreases names.len(),
{
    if names.len() > 0 {
        let front = names.drop_last();
        lemma_first_match(front, name);
        assert forall|j: int| 0 <= j < front.len() implies front[j] == names[j] by {}
    }
}

/// A first match within a prefix is the first match of the whole.
pub proof fn lemma_first_match_prefix(names: Seq<Seq<char>>, name: Seq<char>, i: int)
    requires
        0 <= i < names.len(),
        names[i] == name,
        first_match(names.take(i), name) is None,
    ensures
        first_match(names, name) == Some(i),
    decreases names.len(),
{
    if names.len() - 1 == i {
        assert(names.drop_last() =~= names.take(i));
    } else {
        assert(names.drop_last().take(i) =~= names.take(i));
        lemma_first_match_prefix(names.drop_last(), name, i);
    }
}

/// Whether the conversation already holds the result of the tool call with
/// that id.
pub fn has_tool_result(context: &Vec<Message>, id: &String) -> (found: bool)
    ensures
        found == answered(context.deep_view(), id@),
{
    let mut i: usize = 0;
    while i < context.len()
        invariant
            i <= context.len(),
            forall|j: int| 0 <= j < i ==> !is_result_for(#[trigger] context.deep_view()[j], id@),
        decreases context.len() - i,
    {
        if let Message::Tool(tool) = &context[i] {
            if tool.tool_call_id == *id {
                assert(is_result_for(context.deep_view()[i as int], id@));
                return true;
            }
        }
        i += 1;
    }
    false
}

} // verus!
