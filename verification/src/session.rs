use crate::registry::{
    answered, find_tool, first_match, has_tool_result, is_result_for, tool_names, Function,
};
use crate::request::message::{
    clone_calls, clone_messages, clone_text, Message, MessageView, Tool, ToolCall, ToolCallView,
    User,
};
use crate::request::{ChatCompletionRequest, ResponseFormatType, Thinking, ToolView};
use crate::response::no_streaming;
use crate::response::FinishReason;
use crate::response::streaming::ChoiceView;
use crate::turn::{
    fold_chunks, lemma_text_is_concatenated_over, said_over, thought_over, Progress, RoundView,
    Turn, TurnView,
};
use crate::{Delta, EventView, Model, ResponseFormat, SessionError, Violation};
use vstd::prelude::*;

verus! {

/// One conversation with the service: the settings, the registered tools and
/// the messages so far. The messages only grow, by the functions below.
pub struct Client<F: Fn(String) -> String> {
    pub model: Model,
    pub thinking: Option<Thinking>,
    pub api_key: String,
    /// The most tokens that a completion may hold.
    pub max_tokens: Option<u32>,
    /// The output format asked of the model.
    pub response_format: ResponseFormat,
    pub context: Vec<Message>,
    pub tools: Vec<Function<F>>,
}

/// The output format as a request states it.
pub open spec fn wire_format(format: ResponseFormat) -> crate::request::ResponseFormat {
    crate::request::ResponseFormat {
        kind: match format {
            ResponseFormat::Text => ResponseFormatType::Text,
            ResponseFormat::JsonObject => ResponseFormatType::JsonObject,
        },
    }
}

/// The descriptors of registered tools, in their order.
pub open spec fn descriptors<F: Fn(String) -> String>(tools: Seq<Function<F>>) -> Seq<ToolView> {
    Seq::new(
        tools.len(),
        |i: int|
            ToolView {
                name: tools[i].name@,
                description: tools[i].description@,
                parameters: tools[i].parameters,
            },
    )
}

/// What the session does next.
#[derive(Debug, Clone, Copy, PartialEq, Eq, Structural)]
pub enum Step {
    /// Issue the request of another round.
    Request,
    /// The exchange is over.
    Finished,
}

/// Where running the tool calls of a round has come to: the conversation,
/// the events for the caller in order, and the failure that stopped it.
pub struct Dispatch {
    pub context: Seq<MessageView>,
    pub events: Seq<EventView>,
    pub failure: Option<SessionError>,
}

/// Handles one tool call, where `output` is what its callback gives. After a
/// failure nothing is done. A call whose result the conversation already
/// holds is passed over: no callback, no message, no event. A call to a tool
/// that is not registered is the failure. Any other call is run: its result
/// joins the conversation and is reported.
pub open spec fn dispatch_step(
    before: Dispatch,
    names: Seq<Seq<char>>,
    call: ToolCallView,
    output: Seq<char>,
) -> Dispatch {
    if before.failure is Some || answered(before.context, call.id) {
        before
    } else if first_match(names, call.name) is None {
        Dispatch { failure: Some(SessionError::UnknownTool), ..before }
    } else {
        Dispatch {
            context: before.context.push(
                MessageView::Tool { tool_call_id: call.id, content: output },
            ),
            events: before.events.push(
                EventView::ToolCallOutput { tool_call_id: call.id, content: output },
            ),
            failure: None,
        }
    }
}

/// Handles the tool calls of a round in their order, where `outputs[j]` is
/// what the callback of call `j` gives if it is run.
pub open spec fn dispatch(
    context: Seq<MessageView>,
    names: Seq<Seq<char>>,
    calls: Seq<ToolCallView>,
    outputs: Seq<Seq<char>>,
) -> Dispatch
    recommends
        outputs.len() == calls.len(),
    decreases calls.len(),
{
    if calls.len() == 0 {
        Dispatch { context, events: Seq::empty(), failure: None }
    } else {
        dispatch_step(
            dispatch(context, names, calls.drop_last(), outputs.drop_last()),
            names,
            calls.last(),
            outputs.last(),
        )
    }
}

/// Whether call `j` of a round is run: nothing has failed before it, the
/// conversation holds no result for its id, and its tool is registered.
pub open spec fn invoked(
    context: Seq<MessageView>,
    names: Seq<Seq<char>>,
    calls: Seq<ToolCallView>,
    outputs: Seq<Seq<char>>,
    j: int,
) -> bool {
    let before = dispatch(context, names, calls.take(j), outputs.take(j));
    &&& before.failure is None
    &&& !answered(before.context, calls[j].id)
    &&& first_match(names, calls[j].name) is Some
}

/// Whether running the calls of a round stops at call `j`: nothing has
/// failed before it, the conversation holds no result for its id, and its
/// tool is not registered.
pub open spec fn stops_at(
    context: Seq<MessageView>,
    names: Seq<Seq<char>>,
    calls: Seq<ToolCallView>,
    outputs: Seq<Seq<char>>,
    j: int,
) -> bool {
    let before = dispatch(context, names, calls.take(j), outputs.take(j));
    &&& before.failure is None
    &&& !answered(before.context, calls[j].id)
    &&& first_match(names, calls[j].name) is None
}

/// The texts of a sequence of strings.
pub open spec fn texts(strings: Seq<String>) -> Seq<Seq<char>> {
    Seq::new(strings.len(), |i: int| strings[i]@)
}

/// Whether `outputs` are results of the registered callbacks: for each call
/// that is run, the callback of the first tool of that name, applied to a
/// string that holds the call's argument text, may give `outputs[j]`.
pub open spec fn outputs_from_callbacks<F: Fn(String) -> String>(
    tools: Seq<Function<F>>,
    context: Seq<MessageView>,
    calls: Seq<ToolCallView>,
    outputs: Seq<String>,
) -> bool {
    &&& outputs.len() == calls.len()
    &&& forall|j: int|
        0 <= j < calls.len() && #[trigger] invoked(
            context,
            tool_names(tools),
            calls,
            texts(outputs),
            j,
        ) ==> exists|arguments: String|
            arguments@ == calls[j].arguments && #[trigger] call_ensures(
                tools[first_match(tool_names(tools), calls[j].name)->0].call,
                (arguments,),
                outputs[j],
            )
}

/// Whether a tool call is run on a conversation: the conversation holds no
/// result for its id, and its tool is registered.
pub open spec fn runs(context: Seq<MessageView>, names: Seq<Seq<char>>, call: ToolCallView) -> bool {
    !answered(context, call.id) && first_match(names, call.name) is Some
}

/// Whether `after` and `res` are what handling the one tool call `call`
/// makes of the conversation `context`, where its callback, if it is run,
/// gives `output`: the conversation is that of `dispatch_step`; the result
/// is its failure, or else its event, if it has one; and where the call is
/// run, the callback of the first tool of that name, applied to a string
/// that holds the call's argument text, may give `output`.
pub open spec fn tool_step<F: Fn(String) -> String>(
    tools: Seq<Function<F>>,
    context: Seq<MessageView>,
    call: ToolCallView,
    output: String,
    after: Seq<MessageView>,
    res: Result<Option<Delta>, SessionError>,
) -> bool {
    let step = dispatch_step(
        Dispatch { context, events: Seq::empty(), failure: None },
        tool_names(tools),
        call,
        output@,
    );
    &&& after == step.context
    &&& match res {
        Ok(None) => step.failure is None && step.events.len() == 0,
        Ok(Some(event)) => step.failure is None && step.events == seq![event.deep_view()],
        Err(e) => step.failure == Some(e),
    }
    &&& runs(context, tool_names(tools), call) ==> exists|arguments: String|
        arguments@ == call.arguments && #[trigger] call_ensures(
            tools[first_match(tool_names(tools), call.name)->0].call,
            (arguments,),
            output,
        )
}

/// The tool calls that wait to be run after a round: those of its turn
/// where the round ended with `ToolCalls`, and none after any other end.
pub open spec fn pending_calls(turn: TurnView, reason: Option<FinishReason>) -> Seq<ToolCallView> {
    if reason == Some(FinishReason::ToolCalls) {
        turn.tool_calls
    } else {
        Seq::empty()
    }
}

/// How a round was closed: the tool calls that wait to be run, in their
/// order, and what comes next once they are.
#[derive(Debug)]
pub struct Closed {
    pub pending: Vec<ToolCall>,
    pub outcome: Result<Step, SessionError>,
}

/// Where a round ends: the conversation and the events are those of
/// `dispatch`, and the session goes on or fails.
pub struct Settlement {
    pub context: Seq<MessageView>,
    pub events: Seq<EventView>,
    pub outcome: Result<Step, SessionError>,
}

/// What follows a round that ended with `reason`, where `failure` is the
/// failure of its tool calls, if they were run and one failed. Only a round
/// that ends with `ToolCalls` is followed by another request.
pub open spec fn step_after(reason: Option<FinishReason>, failure: Option<SessionError>) -> Result<
    Step,
    SessionError,
> {
    match reason {
        None => Err(SessionError::Protocol(Violation::MissingFinishReason)),
        Some(FinishReason::ToolCalls) => match failure {
            Some(e) => Err(e),
            None => Ok(Step::Request),
        },
        Some(_) => Ok(Step::Finished),
    }
}

/// The end of a round: the sealed turn joins the conversation whatever
/// follows; the tool calls are run only where the round ended with
/// `ToolCalls`.
pub open spec fn settlement(
    context: Seq<MessageView>,
    names: Seq<Seq<char>>,
    turn: TurnView,
    reason: Option<FinishReason>,
    outputs: Seq<Seq<char>>,
) -> Settlement {
    let grown = context.push(turn.sealed());
    if reason == Some(FinishReason::ToolCalls) {
        let done = dispatch(grown, names, turn.tool_calls, outputs);
        Settlement {
            context: done.context,
            events: done.events,
            outcome: step_after(reason, done.failure),
        }
    } else {
        Settlement { context: grown, events: Seq::empty(), outcome: step_after(reason, None) }
    }
}

/// The turn that a buffered message holds.
pub open spec fn turn_of(message: no_streaming::Message) -> TurnView {
    TurnView {
        content: message.content@,
        reasoning_content: message.reasoning_content.deep_view(),
        tool_calls: match message.tool_calls {
            Some(calls) => calls.deep_view(),
            None => Seq::empty(),
        },
    }
}

/// How a round ended: the events of its tool calls, and what comes next.
#[derive(Debug)]
pub struct Settled {
    pub events: Vec<Delta>,
    pub outcome: Result<Step, SessionError>,
}

impl<F: Fn(String) -> String> Client<F> {
    /// Whether every registered callback may be called on every text.
    pub open spec fn tools_callable(&self) -> bool {
        forall|i: int, arguments: String|
            0 <= i < self.tools@.len() ==> #[trigger] call_requires(
                self.tools@[i].call,
                (arguments,),
            )
    }

    /// Whether two clients differ in their messages at most.
    pub open spec fn same_setup(&self, other: &Self) -> bool {
        &&& self.model == other.model
        &&& self.thinking == other.thinking
        &&& self.api_key == other.api_key
        &&& self.max_tokens == other.max_tokens
        &&& self.response_format == other.response_format
        &&& self.tools == other.tools
    }

    /// A client with no message, no tool and the service's default settings.
    pub fn new(model: Model, api_key: &str) -> (client: Self)
        ensures
            client.model == model,
            client.thinking is None,
            client.api_key@ == api_key@,
            client.max_tokens is None,
            client.response_format == ResponseFormat::Text,
            client.context@.len() == 0,
            client.tools@.len() == 0,
            client.tools_callable(),
    {
        Client {
            model,
            thinking: None,
            api_key: api_key.to_owned(),
            max_tokens: None,
            response_format: ResponseFormat::Text,
            context: Vec::new(),
            tools: Vec::new(),
        }
    }

    /// Opens an exchange: the user's message joins the conversation.
    pub fn begin(&mut self, message: &str)
        ensures
            final(self).same_setup(old(self)),
            final(self).context.deep_view() == old(self).context.deep_view().push(
                MessageView::User { name: None, content: message@ },
            ),
            in_order(old(self).context.deep_view()) ==> in_order(final(self).context.deep_view()),
    {
        proof {
            if in_order(self.context.deep_view()) {
                lemma_turn_keeps_order(
                    self.context.deep_view(),
                    MessageView::User { name: None, content: message@ },
                );
            }
        }
        self.context.push(Message::User(User { name: None, content: message.to_owned() }));
        assert(self.context.deep_view() =~= old(self).context.deep_view().push(
            MessageView::User { name: None, content: message@ },
        ));
    }

    /// The request of the next round: the whole conversation, the registered
    /// tools as descriptors, and the settings.
    pub fn request(&self, stream: bool) -> (request: ChatCompletionRequest)
        ensures
            request.messages.deep_view() == self.context.deep_view(),
            request.model == self.model,
            request.thinking == self.thinking,
            request.stream == stream,
            request.max_tokens == self.max_tokens,
            request.response_format == wire_format(self.response_format),
            request.tools.deep_view() == descriptors(self.tools@),
    {
        let mut tools: Vec<crate::request::Tool> = Vec::new();
        let mut i: usize = 0;
        while i < self.tools.len()
            invariant
                i <= self.tools.len(),
                tools.len() == i,
                forall|j: int| 0 <= j < i ==> tools@[j].deep_view() == descriptors(self.tools@)[j],
            decreases self.tools.len() - i,
        {
            tools.push(self.tools[i].descriptor());
            i += 1;
        }
        assert(tools.deep_view() =~= descriptors(self.tools@));
        let messages = clone_messages(&self.context, 0);
        assert(self.context.deep_view().skip(0) =~= self.context.deep_view());
        ChatCompletionRequest {
            messages,
            model: self.model,
            thinking: self.thinking,
            stream,
            max_tokens: self.max_tokens,
            response_format: crate::request::ResponseFormat {
                kind: match self.response_format {
                    ResponseFormat::Text => ResponseFormatType::Text,
                    ResponseFormat::JsonObject => ResponseFormatType::JsonObject,
                },
            },
            tools,
        }
    }

    /// The messages from position `start` on, copied.
    pub fn messages_since(&self, start: usize) -> (messages: Vec<Message>)
        requires
            start <= self.context@.len(),
        ensures
            messages.deep_view() == self.context.deep_view().skip(start as int),
    {
        clone_messages(&self.context, start)
    }

    /// Records the result of a tool call: it joins the conversation, and the
    /// event that reports it is returned.
    pub fn record_tool_result(&mut self, tool_call_id: &String, content: String) -> (event: Delta)
        ensures
            final(self).same_setup(old(self)),
            final(self).context.deep_view() == old(self).context.deep_view().push(
                MessageView::Tool { tool_call_id: tool_call_id@, content: content@ },
            ),
            event.deep_view() == (EventView::ToolCallOutput {
                tool_call_id: tool_call_id@,
                content: content@,
            }),
    {
        self.context.push(
            Message::Tool(Tool { tool_call_id: tool_call_id.clone(), content: content.clone() }),
        );
        assert(self.context.deep_view() =~= old(self).context.deep_view().push(
            MessageView::Tool { tool_call_id: tool_call_id@, content: content@ },
        ));
        Delta::ToolCallOutput { tool_call_id: tool_call_id.clone(), content }
    }

    /// Handles one tool call. A call whose result the conversation already
    /// holds is passed over: nothing is run and nothing changes. A call to a
    /// tool that is not registered is an error, and nothing changes. Any
    /// other call runs the callback of the first tool of that name on the
    /// call's argument text; the result joins the conversation and is
    /// reported.
    pub fn run_tool(&mut self, call: &ToolCall) -> (res: Result<Option<Delta>, SessionError>)
        requires
            old(self).tools_callable(),
        ensures
            final(self).same_setup(old(self)),
            exists|output: String|
                #[trigger] tool_step(
                    old(self).tools@,
                    old(self).context.deep_view(),
                    call.deep_view(),
                    output,
                    final(self).context.deep_view(),
                    res,
                ),
    {
        if has_tool_result(&self.context, &call.id) {
            assert(tool_step(
                self.tools@,
                self.context.deep_view(),
                call.deep_view(),
                call.id,
                self.context.deep_view(),
                Ok::<Option<Delta>, SessionError>(None),
            ));
            return Ok(None);
        }
        match find_tool(&self.tools, &call.function.name) {
            Some(k) => {
                let output = (self.tools[k].call)(call.function.arguments.clone());
                let event = self.record_tool_result(&call.id, output.clone());
                assert(tool_step(
                    old(self).tools@,
                    old(self).context.deep_view(),
                    call.deep_view(),
                    output,
                    self.context.deep_view(),
                    Ok::<Option<Delta>, SessionError>(Some(event)),
                )) by {
                    assert(call_ensures(
                        old(self).tools@[first_match(
                            tool_names(old(self).tools@),
                            call.function.name@,
                        )->0].call,
                        (call.function.arguments,),
                        output,
                    ));
                }
                Ok(Some(event))
            },
            None => {
                assert(tool_step(
                    self.tools@,
                    self.context.deep_view(),
                    call.deep_view(),
                    call.id,
                    self.context.deep_view(),
                    Err::<Option<Delta>, SessionError>(SessionError::UnknownTool),
                ));
                Err(SessionError::UnknownTool)
            },
        }
    }

    /// Closes a round without running its tools. The turn is sealed and
    /// joins the conversation. Without a finish reason the round has broken
    /// the protocol. After `ToolCalls` the tool calls of the turn wait to be
    /// run, in their order, and another request is due once they are; after
    /// any other reason the exchange is over and no call waits.
    pub fn close_round(&mut self, turn: Turn, finish_reason: Option<FinishReason>) -> (closed:
        Closed)
        ensures
            final(self).same_setup(old(self)),
            final(self).context.deep_view() == old(self).context.deep_view().push(
                turn.deep_view().sealed(),
            ),
            closed.pending.deep_view() == pending_calls(turn.deep_view(), finish_reason),
            closed.outcome == step_after(finish_reason, None),
            in_order(old(self).context.deep_view()) ==> in_order(final(self).context.deep_view()),
    {
        proof {
            if in_order(self.context.deep_view()) {
                lemma_turn_keeps_order(self.context.deep_view(), turn.deep_view().sealed());
            }
        }
        let pending = match finish_reason {
            Some(FinishReason::ToolCalls) => clone_calls(&turn.tool_calls),
            _ => Vec::new(),
        };
        assert(pending.deep_view() =~= pending_calls(turn.deep_view(), finish_reason));
        self.context.push(Message::Assistant(turn.seal()));
        assert(self.context.deep_view() =~= old(self).context.deep_view().push(
            turn.deep_view().sealed(),
        ));
        let outcome = match finish_reason {
            None => Err(SessionError::Protocol(Violation::MissingFinishReason)),
            Some(FinishReason::ToolCalls) => Ok(Step::Request),
            Some(_) => Ok(Step::Finished),
        };
        Closed { pending, outcome }
    }

    /// Runs the tool calls of a round in their order, each as `run_tool`
    /// handles it. A call whose result the conversation already holds is
    /// passed over; a call to a tool that is not registered is the failure,
    /// and no later call is run.
    pub fn run_tools(&mut self, calls: &Vec<ToolCall>) -> (progress: Progress)
        requires
            old(self).tools_callable(),
        ensures
            final(self).same_setup(old(self)),
            exists|outputs: Seq<String>|
                #[trigger] outputs_from_callbacks(
                    old(self).tools@,
                    old(self).context.deep_view(),
                    calls.deep_view(),
                    outputs,
                ) && {
                    let done = dispatch(
                        old(self).context.deep_view(),
                        tool_names(old(self).tools@),
                        calls.deep_view(),
                        texts(outputs),
                    );
                    &&& final(self).context.deep_view() == done.context
                    &&& progress.events.deep_view() == done.events
                    &&& progress.failure == done.failure
                },
    {
        let ghost start = self.context.deep_view();
        let ghost names = tool_names(self.tools@);
        let ghost all = calls.deep_view();
        let ghost mut outputs: Seq<String> = Seq::empty();
        let mut events: Vec<Delta> = Vec::new();
        let mut failure: Option<SessionError> = None;
        let mut i: usize = 0;
        assert(all.take(0) =~= Seq::<ToolCallView>::empty());
        assert(events.deep_view() =~= Seq::<EventView>::empty());
        while i < calls.len()
            invariant
                i <= calls.len(),
                self.same_setup(old(self)),
                self.tools_callable(),
                names == tool_names(self.tools@),
                all == calls.deep_view(),
                outputs.len() == i,
                self.context.deep_view() == dispatch(
                    start,
                    names,
                    all.take(i as int),
                    texts(outputs),
                ).context,
                events.deep_view() == dispatch(start, names, all.take(i as int), texts(outputs)).events,
                failure == dispatch(start, names, all.take(i as int), texts(outputs)).failure,
                forall|j: int|
                    0 <= j < i && #[trigger] invoked(start, names, all, texts(outputs), j)
                        ==> exists|arguments: String|
                        arguments@ == all[j].arguments && #[trigger] call_ensures(
                            self.tools@[first_match(names, all[j].name)->0].call,
                            (arguments,),
                            outputs[j],
                        ),
            decreases calls.len() - i,
        {
            let call = &calls[i];
            let ghost seen = outputs;
            let ghost seen_events = events.deep_view();
            let ghost here = self.context.deep_view();
            let ghost mut output: String = call.id;
            if failure.is_none() {
                let res = self.run_tool(call);
                proof {
                    output = choose|output: String|
                        #[trigger] tool_step(
                            self.tools@,
                            here,
                            call.deep_view(),
                            output,
                            self.context.deep_view(),
                            res,
                        );
                }
                match res {
                    Ok(Some(event)) => {
                        events.push(event);
                        assert(events.deep_view() =~= seen_events.push(event.deep_view()));
                        assert(seq![event.deep_view()][0] == (EventView::ToolCallOutput {
                            tool_call_id: call.id@,
                            content: output@,
                        }));
                    },
                    Ok(None) => {},
                    Err(e) => {
                        failure = Some(e);
                    },
                }
            }
            proof {
                outputs = seen.push(output);
                let j = i as int;
                assert(all.take(j + 1).drop_last() =~= all.take(j));
                assert(texts(outputs).drop_last() =~= texts(seen));
                assert(all.take(j + 1).last() == call.deep_view());
                assert(texts(outputs).last() == output@);
                assert forall|m: int|
                    0 <= m < j + 1 && #[trigger] invoked(
                        start,
                        names,
                        all,
                        texts(outputs),
                        m,
                    ) implies exists|arguments: String|
                    arguments@ == all[m].arguments && #[trigger] call_ensures(
                        self.tools@[first_match(names, all[m].name)->0].call,
                        (arguments,),
                        outputs[m],
                    ) by {
                    assert(texts(outputs).take(m) =~= texts(seen).take(m));
                    if m < j {
                        assert(invoked(start, names, all, texts(seen), m));
                        assert(outputs[m] == seen[m]);
                    } else {
                        assert(texts(seen).take(j) =~= texts(seen));
                        assert(outputs[m] == output);
                        assert(runs(here, names, all[m]));
                    }
                }
            }
            i += 1;
        }
        assert(all.take(i as int) =~= all);
        proof {
            assert(outputs_from_callbacks(old(self).tools@, start, all, outputs));
        }
        Progress { events, failure }
    }

    /// Whether `after` and `settled` are what the end of a round makes of
    /// `self`, where the callbacks that are run give `outputs`.
    pub open spec fn settles_to(
        &self,
        after: &Self,
        settled: Settled,
        turn: TurnView,
        reason: Option<FinishReason>,
        outputs: Seq<Seq<char>>,
    ) -> bool {
        let end = settlement(
            self.context.deep_view(),
            tool_names(self.tools@),
            turn,
            reason,
            outputs,
        );
        &&& after.same_setup(self)
        &&& after.context.deep_view() == end.context
        &&& settled.events.deep_view() == end.events
        &&& settled.outcome == end.outcome
    }

    /// Ends a round in one step, for a caller that takes no events between
    /// the tools: `close_round`, and then every waiting call as `run_tool`
    /// handles it, up to the first failure. Without a finish reason the round
    /// has broken the protocol. After `ToolCalls` another request is due;
    /// after any other reason the exchange is over.
    pub fn settle(&mut self, turn: Turn, finish_reason: Option<FinishReason>) -> (settled: Settled)
        requires
            old(self).tools_callable(),
        ensures
            finish_reason != Some(FinishReason::ToolCalls) ==> old(self).settles_to(
                final(self),
                settled,
                turn.deep_view(),
                finish_reason,
                Seq::empty(),
            ),
            finish_reason == Some(FinishReason::ToolCalls) ==> exists|outputs: Seq<String>|
                #[trigger] outputs_from_callbacks(
                    old(self).tools@,
                    old(self).context.deep_view().push(turn.deep_view().sealed()),
                    turn.deep_view().tool_calls,
                    outputs,
                ) && old(self).settles_to(
                    final(self),
                    settled,
                    turn.deep_view(),
                    finish_reason,
                    texts(outputs),
                ),
            in_order(old(self).context.deep_view()) ==> in_order(final(self).context.deep_view()),
    {
        let ghost start = self.context.deep_view();
        let ghost names = tool_names(self.tools@);
        let ghost received = turn.deep_view();
        let closed = self.close_round(turn, finish_reason);
        let ghost grown = self.context.deep_view();
        match closed.outcome {
            Ok(Step::Request) => {
                let progress = self.run_tools(&closed.pending);
                proof {
                    let outputs = choose|outputs: Seq<String>|
                        #[trigger] outputs_from_callbacks(
                            old(self).tools@,
                            grown,
                            received.tool_calls,
                            outputs,
                        ) && {
                            let done = dispatch(grown, names, received.tool_calls, texts(outputs));
                            &&& self.context.deep_view() == done.context
                            &&& progress.events.deep_view() == done.events
                            &&& progress.failure == done.failure
                        };
                    if in_order(start) {
                        lemma_settlement_keeps_order(
                            start,
                            names,
                            received,
                            finish_reason,
                            texts(outputs),
                        );
                    }
                }
                let outcome = match progress.failure {
                    Some(e) => Err(e),
                    None => Ok(Step::Request),
                };
                Settled { events: progress.events, outcome }
            },
            outcome => {
                let events: Vec<Delta> = Vec::new();
                assert(events.deep_view() =~= Seq::<EventView>::empty());
                Settled { events, outcome }
            },
        }
    }

    /// Ends a round whose response came whole: its one choice holds the
    /// complete turn and the finish reason. A response with another number of
    /// choices breaks the protocol, and the conversation stays as it was.
    pub fn absorb_response(&mut self, response: &no_streaming::Response) -> (settled: Settled)
        requires
            old(self).tools_callable(),
        ensures
            response.choices@.len() != 1 ==> {
                &&& final(self).same_setup(old(self))
                &&& final(self).context.deep_view() == old(self).context.deep_view()
                &&& settled.events@.len() == 0
                &&& settled.outcome == Err::<Step, SessionError>(
                    SessionError::Protocol(Violation::ChoiceCount),
                )
            },
            response.choices@.len() == 1 && response.choices@[0].finish_reason
                != FinishReason::ToolCalls ==> old(self).settles_to(
                final(self),
                settled,
                turn_of(response.choices@[0].message),
                Some(response.choices@[0].finish_reason),
                Seq::empty(),
            ),
            response.choices@.len() == 1 && response.choices@[0].finish_reason
                == FinishReason::ToolCalls ==> exists|outputs: Seq<String>|
                #[trigger] outputs_from_callbacks(
                    old(self).tools@,
                    old(self).context.deep_view().push(
                        turn_of(response.choices@[0].message).sealed(),
                    ),
                    turn_of(response.choices@[0].message).tool_calls,
                    outputs,
                ) && old(self).settles_to(
                    final(self),
                    settled,
                    turn_of(response.choices@[0].message),
                    Some(response.choices@[0].finish_reason),
                    texts(outputs),
                ),
            in_order(old(self).context.deep_view()) ==> in_order(final(self).context.deep_view()),
    {
        if response.choices.len() != 1 {
            return Settled {
                events: Vec::new(),
                outcome: Err(SessionError::Protocol(Violation::ChoiceCount)),
            };
        }
        let choice = &response.choices[0];
        let mut tool_calls: Vec<ToolCall> = Vec::new();
        if let Some(calls) = &choice.message.tool_calls {
            let mut i: usize = 0;
            while i < calls.len()
                invariant
                    i <= calls.len(),
                    tool_calls.len() == i,
                    forall|j: int|
                        0 <= j < i ==> tool_calls@[j].deep_view() == calls@[j].deep_view(),
                decreases calls.len() - i,
            {
                tool_calls.push(
                    ToolCall {
                        kind: calls[i].kind,
                        id: calls[i].id.clone(),
                        function: crate::request::message::Function {
                            name: calls[i].function.name.clone(),
                            arguments: calls[i].function.arguments.clone(),
                        },
                    },
                );
                i += 1;
            }
        }
        let turn = Turn {
            content: choice.message.content.clone(),
            reasoning_content: clone_text(&choice.message.reasoning_content),
            tool_calls,
        };
        assert(turn.deep_view().tool_calls =~= turn_of(choice.message).tool_calls);
        self.settle(turn, Some(choice.finish_reason))
    }
}

/// What running tool calls adds to a conversation: the messages from before
/// stay in their places; each event reports a tool result, and the message
/// added with it holds the same id and content; and that id had no result
/// in the conversation up to that message.
pub proof fn lemma_dispatch_adds_results(
    context: Seq<MessageView>,
    names: Seq<Seq<char>>,
    calls: Seq<ToolCallView>,
    outputs: Seq<Seq<char>>,
)
    requires
        outputs.len() == calls.len(),
    ensures
        ({
            let done = dispatch(context, names, calls, outputs);
            &&& done.context.len() == context.len() + done.events.len()
            &&& done.context.take(context.len() as int) == context
            &&& forall|i: int|
                0 <= i < done.events.len() ==> {
                    let message = #[trigger] done.context[context.len() + i];
                    &&& message is Tool
                    &&& done.events[i] == (EventView::ToolCallOutput {
                        tool_call_id: message->tool_call_id,
                        content: message->Tool_content,
                    })
                    &&& !answered(done.context.take(context.len() + i), message->tool_call_id)
                }
        }),
    decreases calls.len(),
{
    let done = dispatch(context, names, calls, outputs);
    if calls.len() == 0 {
        assert(done.context.take(context.len() as int) =~= context);
    } else {
        let before = dispatch(context, names, calls.drop_last(), outputs.drop_last());
        lemma_dispatch_adds_results(context, names, calls.drop_last(), outputs.drop_last());
        if done != before && done.failure is None {
            assert(done.context.take(context.len() as int) =~= before.context.take(
                context.len() as int,
            ));
            assert forall|i: int| 0 <= i < done.events.len() implies {
                let message = #[trigger] done.context[context.len() + i];
                &&& message is Tool
                &&& done.events[i] == (EventView::ToolCallOutput {
                    tool_call_id: message->tool_call_id,
                    content: message->Tool_content,
                })
                &&& !answered(done.context.take(context.len() + i), message->tool_call_id)
            } by {
                if i < before.events.len() {
                    assert(done.context[context.len() + i] == before.context[context.len() + i]);
                    assert(done.context.take(context.len() + i) =~= before.context.take(
                        context.len() + i,
                    ));
                } else {
                    assert(done.context.take(context.len() + i) =~= before.context);
                }
            }
        }
    }
}

/// What the conversation holds a result for, it holds a result for after
/// more messages have joined it.
pub proof fn lemma_answered_stays(context: Seq<MessageView>, longer: Seq<MessageView>, id: Seq<char>)
    requires
        answered(context, id),
        context.len() <= longer.len(),
        longer.take(context.len() as int) == context,
    ensures
        answered(longer, id),
{
    let i = choose|i: int| 0 <= i < context.len() && is_result_for(#[trigger] context[i], id);
    assert(longer.take(context.len() as int)[i] == longer[i]);
    assert(is_result_for(longer[i], id));
}

/// Idempotent tool execution: where the conversation holds the result of
/// the tool call with some id before the calls of a round are run, no call
/// with that id is run, no event reports a result for it, and no message
/// that joins the conversation holds a result for it.
pub proof fn lemma_answered_call_is_not_run(
    context: Seq<MessageView>,
    names: Seq<Seq<char>>,
    calls: Seq<ToolCallView>,
    outputs: Seq<Seq<char>>,
    id: Seq<char>,
)
    requires
        outputs.len() == calls.len(),
        answered(context, id),
    ensures
        forall|j: int|
            0 <= j < calls.len() && calls[j].id == id ==> !#[trigger] invoked(
                context,
                names,
                calls,
                outputs,
                j,
            ),
        forall|i: int|
            0 <= i < dispatch(context, names, calls, outputs).events.len() ==> (#[trigger] dispatch(
                context,
                names,
                calls,
                outputs,
            ).events[i]) is ToolCallOutput && dispatch(
                context,
                names,
                calls,
                outputs,
            ).events[i]->ToolCallOutput_tool_call_id != id,
        forall|i: int|
            context.len() <= i < dispatch(context, names, calls, outputs).context.len()
                ==> !is_result_for(#[trigger] dispatch(context, names, calls, outputs).context[i], id),
{
    let done = dispatch(context, names, calls, outputs);
    lemma_dispatch_adds_results(context, names, calls, outputs);
    assert forall|j: int| 0 <= j < calls.len() && calls[j].id == id implies !#[trigger] invoked(
        context,
        names,
        calls,
        outputs,
        j,
    ) by {
        let before = dispatch(context, names, calls.take(j), outputs.take(j));
        lemma_dispatch_adds_results(context, names, calls.take(j), outputs.take(j));
        lemma_answered_stays(context, before.context, id);
    }
    assert forall|i: int| context.len() <= i < done.context.len() implies !is_result_for(
        #[trigger] done.context[i],
        id,
    ) by {
        let k = i - context.len();
        let message = done.context[context.len() + k];
        let upto = done.context.take(context.len() + k);
        if is_result_for(message, id) {
            assert(upto.take(context.len() as int) =~= context);
            lemma_answered_stays(context, upto, id);
        }
    }
    assert forall|i: int| 0 <= i < done.events.len() implies (#[trigger] done.events[i])
        is ToolCallOutput && done.events[i]->ToolCallOutput_tool_call_id != id by {
        let message = done.context[context.len() + i];
        assert(!is_result_for(message, id));
    }
}

/// The requests that one exchange issues, where the service ends its rounds
/// with `reasons` in turn and no round fails: one for the first round, and
/// one more after each round that `step_after` has followed by a request.
pub open spec fn requests_issued(reasons: Seq<FinishReason>) -> nat
    decreases reasons.len(),
{
    if reasons.len() == 0 {
        0
    } else if step_after(Some(reasons[0]), None) == Ok::<Step, SessionError>(Step::Request) {
        1 + requests_issued(reasons.skip(1))
    } else {
        1
    }
}

/// Round termination, one round: a round that does not fail is followed by
/// another request exactly where it ended with `ToolCalls`, and ends the
/// exchange after any other reason.
pub proof fn lemma_only_tool_calls_go_on(reason: FinishReason)
    ensures
        step_after(Some(reason), None) == if reason == FinishReason::ToolCalls {
            Ok::<Step, SessionError>(Step::Request)
        } else {
            Ok::<Step, SessionError>(Step::Finished)
        },
{
}

/// Round termination: where the first `k` rounds end with `ToolCalls` and
/// the next one with another reason, `k + 1` requests are issued.
pub proof fn lemma_requests_issued(reasons: Seq<FinishReason>, k: nat)
    requires
        k < reasons.len(),
        forall|i: int| 0 <= i < k ==> reasons[i] == FinishReason::ToolCalls,
        reasons[k as int] != FinishReason::ToolCalls,
    ensures
        requests_issued(reasons) == k + 1,
    decreases k,
{
    if k > 0 {
        let rest = reasons.skip(1);
        assert forall|i: int| 0 <= i < k - 1 implies rest[i] == FinishReason::ToolCalls by {
            assert(rest[i] == reasons[i + 1]);
        }
        lemma_requests_issued(rest, (k - 1) as nat);
    }
}

/// Whether a message is an assistant turn that asks for the tool call with
/// that id.
pub open spec fn requests(message: MessageView, id: Seq<char>) -> bool {
    &&& message is Assistant
    &&& message->tool_calls is Some
    &&& exists|k: int|
        0 <= k < message->tool_calls->0.len() && (#[trigger] message->tool_calls->0[k]).id == id
}

/// Whether a conversation is in order: each tool result answers a call of
/// an assistant turn that stands before it, and no call has two results.
pub open spec fn in_order(context: Seq<MessageView>) -> bool {
    &&& forall|i: int|
        0 <= i < context.len() && (#[trigger] context[i]) is Tool ==> exists|j: int|
            0 <= j < i && requests(#[trigger] context[j], context[i]->tool_call_id)
    &&& forall|i: int, j: int|
        0 <= i < j < context.len() && (#[trigger] context[i]) is Tool && (#[trigger] context[j])
            is Tool ==> context[i]->tool_call_id != context[j]->tool_call_id
}

/// A message that is no tool result keeps a conversation in order.
pub proof fn lemma_turn_keeps_order(context: Seq<MessageView>, message: MessageView)
    requires
        in_order(context),
        !(message is Tool),
    ensures
        in_order(context.push(message)),
{
    let longer = context.push(message);
    assert forall|i: int| 0 <= i < longer.len() && (#[trigger] longer[i]) is Tool implies exists|
        j: int,
    |
        0 <= j < i && requests(#[trigger] longer[j], longer[i]->tool_call_id) by {
        assert(context[i] is Tool);
        let j = choose|j: int|
            0 <= j < i && requests(#[trigger] context[j], context[i]->tool_call_id);
        assert(requests(longer[j], longer[i]->tool_call_id));
    }
    assert forall|i: int, j: int|
        0 <= i < j < longer.len() && (#[trigger] longer[i]) is Tool && (#[trigger] longer[j])
            is Tool implies longer[i]->tool_call_id != longer[j]->tool_call_id by {
        assert(context[i] is Tool && context[j] is Tool);
    }
}

/// Running the tool calls of an assistant turn that stands in the
/// conversation keeps the conversation in order.
pub proof fn lemma_dispatch_keeps_order(
    context: Seq<MessageView>,
    names: Seq<Seq<char>>,
    calls: Seq<ToolCallView>,
    outputs: Seq<Seq<char>>,
    at: int,
)
    requires
        outputs.len() == calls.len(),
        in_order(context),
        0 <= at < context.len(),
        forall|k: int| 0 <= k < calls.len() ==> requests(context[at], (#[trigger] calls[k]).id),
    ensures
        in_order(dispatch(context, names, calls, outputs).context),
    decreases calls.len(),
{
    if calls.len() > 0 {
        let done = dispatch(context, names, calls, outputs);
        let before = dispatch(context, names, calls.drop_last(), outputs.drop_last());
        assert forall|k: int| 0 <= k < calls.drop_last().len() implies requests(
            context[at],
            (#[trigger] calls.drop_last()[k]).id,
        ) by {
            assert(calls.drop_last()[k] == calls[k]);
        }
        lemma_dispatch_keeps_order(context, names, calls.drop_last(), outputs.drop_last(), at);
        lemma_dispatch_adds_results(context, names, calls.drop_last(), outputs.drop_last());
        if done.context != before.context {
            let id = calls.last().id;
            let n = before.context.len() as int;
            assert(before.context.take(context.len() as int)[at] == before.context[at]);
            assert(requests(before.context[at], id));
            assert forall|i: int| 0 <= i < done.context.len() && (#[trigger] done.context[i])
                is Tool implies exists|j: int|
                0 <= j < i && requests(#[trigger] done.context[j], done.context[i]->tool_call_id) by {
                if i < n {
                    assert(before.context[i] is Tool);
                    let j = choose|j: int|
                        0 <= j < i && requests(
                            #[trigger] before.context[j],
                            before.context[i]->tool_call_id,
                        );
                    assert(requests(done.context[j], done.context[i]->tool_call_id));
                } else {
                    assert(requests(done.context[at], done.context[i]->tool_call_id));
                }
            }
            assert forall|i: int, j: int|
                0 <= i < j < done.context.len() && (#[trigger] done.context[i]) is Tool && (
                #[trigger] done.context[j]) is Tool implies done.context[i]->tool_call_id
                != done.context[j]->tool_call_id by {
                if j < n {
                    assert(before.context[i] is Tool && before.context[j] is Tool);
                } else {
                    assert(is_result_for(before.context[i], before.context[i]->tool_call_id));
                }
            }
        }
    }
}

/// The end of a round keeps the conversation in order: the sealed turn
/// stands before the results of its tool calls, and a call that already has
/// a result gets no second one.
pub proof fn lemma_settlement_keeps_order(
    context: Seq<MessageView>,
    names: Seq<Seq<char>>,
    turn: TurnView,
    reason: Option<FinishReason>,
    outputs: Seq<Seq<char>>,
)
    requires
        reason == Some(FinishReason::ToolCalls) ==> outputs.len() == turn.tool_calls.len(),
        in_order(context),
    ensures
        in_order(settlement(context, names, turn, reason, outputs).context),
{
    let grown = context.push(turn.sealed());
    lemma_turn_keeps_order(context, turn.sealed());
    if reason == Some(FinishReason::ToolCalls) && turn.tool_calls.len() > 0 {
        let at = context.len() as int;
        assert forall|k: int| 0 <= k < turn.tool_calls.len() implies requests(
            grown[at],
            (#[trigger] turn.tool_calls[k]).id,
        ) by {
            assert(grown[at]->tool_calls->0[k].id == turn.tool_calls[k].id);
        }
        lemma_dispatch_keeps_order(grown, names, turn.tool_calls, outputs, at);
    }
}

/// Running tool calls fails only on a tool that is not registered, and does
/// so exactly where some call is reached without a failure before it, has
/// no result in the conversation as it then is, and names no registered
/// tool. After the failure nothing is run: the conversation and the events
/// are those of the calls before it.
pub proof fn lemma_dispatch_fails_on_unknown_tool(
    context: Seq<MessageView>,
    names: Seq<Seq<char>>,
    calls: Seq<ToolCallView>,
    outputs: Seq<Seq<char>>,
)
    requires
        outputs.len() == calls.len(),
    ensures
        ({
            let done = dispatch(context, names, calls, outputs);
            &&& done.failure is Some ==> done.failure == Some(SessionError::UnknownTool)
            &&& done.failure is Some <==> exists|j: int|
                0 <= j < calls.len() && #[trigger] stops_at(context, names, calls, outputs, j)
            &&& forall|j: int|
                0 <= j < calls.len() && #[trigger] stops_at(context, names, calls, outputs, j)
                    ==> done == (Dispatch {
                    failure: Some(SessionError::UnknownTool),
                    ..dispatch(context, names, calls.take(j), outputs.take(j))
                })
        }),
    decreases calls.len(),
{
    let done = dispatch(context, names, calls, outputs);
    if calls.len() > 0 {
        let n = calls.len() - 1;
        let front = calls.drop_last();
        let front_outputs = outputs.drop_last();
        let before = dispatch(context, names, front, front_outputs);
        lemma_dispatch_fails_on_unknown_tool(context, names, front, front_outputs);
        assert(calls.take(n) =~= front);
        assert(outputs.take(n) =~= front_outputs);
        assert forall|j: int| 0 <= j < n implies stops_at(context, names, calls, outputs, j)
            == stops_at(context, names, front, front_outputs, j) by {
            assert(calls.take(j) =~= front.take(j));
            assert(outputs.take(j) =~= front_outputs.take(j));
        }
        if before.failure is Some {
            let j = choose|j: int|
                0 <= j < front.len() && #[trigger] stops_at(context, names, front, front_outputs, j);
            assert(stops_at(context, names, calls, outputs, j));
            assert(!stops_at(context, names, calls, outputs, n));
        } else if done.failure is Some {
            assert(stops_at(context, names, calls, outputs, n));
        } else {
            assert(!stops_at(context, names, calls, outputs, n));
        }
        assert forall|j: int|
            0 <= j < calls.len() && #[trigger] stops_at(
                context,
                names,
                calls,
                outputs,
                j,
            ) implies done == (Dispatch {
            failure: Some(SessionError::UnknownTool),
            ..dispatch(context, names, calls.take(j), outputs.take(j))
        }) by {
            if j < n {
                assert(stops_at(context, names, front, front_outputs, j));
                assert(calls.take(j) =~= front.take(j));
                assert(outputs.take(j) =~= front_outputs.take(j));
            }
        }
    }
}

/// A round joins the conversation as one assistant message, which holds all
/// that the round carried. Where the fold over the chunks of a round, from
/// an empty turn, does not fail, the end of the round leaves the messages
/// from before in their places; the next message is the assistant's, without
/// a name, with the content of every delta of the round in order, with the
/// reasoning of every delta in order, absent where none carried any, and
/// with the tool calls of the round, absent where there is none; and every
/// message after it is the result of a tool.
pub proof fn lemma_round_is_sealed_whole(
    context: Seq<MessageView>,
    names: Seq<Seq<char>>,
    chunks: Seq<Seq<ChoiceView>>,
    outputs: Seq<Seq<char>>,
)
    requires
        fold_chunks(RoundView { turn: TurnView::empty(), finish_reason: None }, chunks).failure
            is None,
        outputs.len() == fold_chunks(
            RoundView { turn: TurnView::empty(), finish_reason: None },
            chunks,
        ).round.turn.tool_calls.len(),
    ensures
        ({
            let round = fold_chunks(
                RoundView { turn: TurnView::empty(), finish_reason: None },
                chunks,
            ).round;
            let end = settlement(context, names, round.turn, round.finish_reason, outputs);
            &&& end.context.len() > context.len()
            &&& end.context.take(context.len() as int) == context
            &&& end.context[context.len() as int] == (MessageView::Assistant {
                name: None,
                content: said_over(chunks),
                reasoning_content: thought_over(chunks),
                tool_calls: if round.turn.tool_calls.len() == 0 {
                    None
                } else {
                    Some(round.turn.tool_calls)
                },
            })
            &&& forall|i: int|
                context.len() < i < end.context.len() ==> (#[trigger] end.context[i]) is Tool
        }),
{
    let start = RoundView { turn: TurnView::empty(), finish_reason: None };
    let round = fold_chunks(start, chunks).round;
    let grown = context.push(round.turn.sealed());
    let end = settlement(context, names, round.turn, round.finish_reason, outputs);
    lemma_text_is_concatenated_over(start, chunks);
    assert(grown.take(context.len() as int) =~= context);
    if round.finish_reason == Some(FinishReason::ToolCalls) {
        lemma_dispatch_adds_results(grown, names, round.turn.tool_calls, outputs);
        assert(end.context.take(context.len() as int) =~= grown.take(context.len() as int));
        assert(end.context.take(grown.len() as int)[context.len() as int]
            == end.context[context.len() as int]);
        assert forall|i: int| context.len() < i < end.context.len() implies (
        #[trigger] end.context[i]) is Tool by {
            let k = i - grown.len();
            assert(end.context[grown.len() + k] is Tool);
        }
    }
}

} // verus!
