use crate::request::message::{clone_text, Assistant, Function, MessageView, ToolCall, ToolCallView};
use crate::response::streaming;
use crate::response::streaming::{ChoiceView, DeltaView, FragmentView};
use crate::response::FinishReason;
use crate::{Delta, EventView, Role, SessionError, Violation};
use vstd::prelude::*;
use vstd::string::StringExecFns;

verus! {

/// What an assistant turn holds while it is being received.
pub struct TurnView {
    pub content: Seq<char>,
    pub reasoning_content: Option<Seq<char>>,
    pub tool_calls: Seq<ToolCallView>,
}

/// A text with a piece appended, where there is a piece.
pub open spec fn extended(text: Seq<char>, piece: Option<Seq<char>>) -> Seq<char> {
    match piece {
        Some(p) => text + p,
        None => text,
    }
}

/// An optional buffer with a piece appended: the buffer comes into being with
/// the first piece, also with an empty one.
pub open spec fn extended_lazily(buffer: Option<Seq<char>>, piece: Option<Seq<char>>) -> Option<
    Seq<char>,
> {
    match piece {
        Some(p) => Some(
            match buffer {
                Some(b) => b + p,
                None => p,
            },
        ),
        None => buffer,
    }
}

/// Whether a piece of text is there and not empty.
pub open spec fn is_visible(piece: Option<Seq<char>>) -> bool {
    piece is Some && piece->0.len() > 0
}

/// The event for a piece of assistant text: the piece as received, and none
/// where neither content nor reasoning holds a character.
pub open spec fn text_event(
    content: Option<Seq<char>>,
    reasoning_content: Option<Seq<char>>,
    role: Option<Role>,
) -> Option<EventView> {
    if is_visible(content) || is_visible(reasoning_content) {
        Some(EventView::Assistant { content, reasoning_content, role })
    } else {
        None
    }
}

/// The event for a tool-call fragment: always one, carrying the fragment's id
/// and function part as received.
pub open spec fn fragment_event(fragment: FragmentView) -> EventView {
    EventView::ToolCallInput { tool_call_id: fragment.id, function: fragment.function }
}

impl TurnView {
    /// The turn before anything was received.
    pub open spec fn empty() -> TurnView {
        TurnView { content: Seq::empty(), reasoning_content: None, tool_calls: Seq::empty() }
    }

    /// The turn after a piece of assistant text.
    pub open spec fn with_text(
        self,
        content: Option<Seq<char>>,
        reasoning_content: Option<Seq<char>>,
    ) -> TurnView {
        TurnView {
            content: extended(self.content, content),
            reasoning_content: extended_lazily(self.reasoning_content, reasoning_content),
            tool_calls: self.tool_calls,
        }
    }

    /// The turn after a tool-call fragment. A fragment whose index is the
    /// number of calls so far starts the next call and must carry id, kind
    /// and name; one with a smaller index appends its argument text to the
    /// call at that index; one with a larger index breaks the protocol.
    pub open spec fn with_fragment(self, fragment: FragmentView) -> Result<TurnView, SessionError> {
        if fragment.index == self.tool_calls.len() {
            if fragment.id is Some && fragment.kind is Some && fragment.function.name is Some {
                Ok(
                    TurnView {
                        tool_calls: self.tool_calls.push(
                            ToolCallView {
                                id: fragment.id->0,
                                name: fragment.function.name->0,
                                arguments: fragment.function.arguments,
                            },
                        ),
                        ..self
                    },
                )
            } else {
                Err(SessionError::Protocol(Violation::MissingIdentity))
            }
        } else if fragment.index < self.tool_calls.len() {
            let call = self.tool_calls[fragment.index as int];
            Ok(
                TurnView {
                    tool_calls: self.tool_calls.update(
                        fragment.index as int,
                        ToolCallView {
                            arguments: call.arguments + fragment.function.arguments,
                            ..call
                        },
                    ),
                    ..self
                },
            )
        } else {
            Err(SessionError::Protocol(Violation::IndexGap))
        }
    }

    /// The message that the turn becomes at the end of its round: the tool
    /// calls are absent where there is none.
    pub open spec fn sealed(self) -> MessageView {
        MessageView::Assistant {
            name: None,
            content: self.content,
            reasoning_content: self.reasoning_content,
            tool_calls: if self.tool_calls.len() == 0 {
                None
            } else {
                Some(self.tool_calls)
            },
        }
    }
}

/// Where a fold over received pieces has come to: the turn, the events for
/// the caller in order, and the failure that stopped it, if one did.
pub struct TurnFold {
    pub turn: TurnView,
    pub events: Seq<EventView>,
    pub failure: Option<SessionError>,
}

/// Folds tool-call fragments into a turn, first to last, one event for each.
/// The first fragment that breaks the protocol stops the fold: the turn and
/// the events are those of the fragments before it.
pub open spec fn fold_fragments(turn: TurnView, fragments: Seq<FragmentView>) -> TurnFold
    decreases fragments.len(),
{
    if fragments.len() == 0 {
        TurnFold { turn, events: Seq::empty(), failure: None }
    } else {
        match turn.with_fragment(fragments[0]) {
            Ok(next) => {
                let rest = fold_fragments(next, fragments.skip(1));
                TurnFold {
                    turn: rest.turn,
                    events: seq![fragment_event(fragments[0])] + rest.events,
                    failure: rest.failure,
                }
            },
            Err(e) => TurnFold { turn, events: Seq::empty(), failure: Some(e) },
        }
    }
}

/// Folds one delta into a turn.
pub open spec fn fold_delta(turn: TurnView, delta: DeltaView) -> TurnFold {
    match delta {
        DeltaView::Assistant { content, reasoning_content, role } => TurnFold {
            turn: turn.with_text(content, reasoning_content),
            events: match text_event(content, reasoning_content, role) {
                Some(e) => seq![e],
                None => Seq::empty(),
            },
            failure: None,
        },
        DeltaView::ToolCall { tool_calls } => fold_fragments(turn, tool_calls),
    }
}

/// What a round in flight holds: the turn, and the finish reason once a
/// choice has carried one.
pub struct RoundView {
    pub turn: TurnView,
    pub finish_reason: Option<FinishReason>,
}

/// Where a fold over choices has come to.
pub struct RoundFold {
    pub round: RoundView,
    pub events: Seq<EventView>,
    pub failure: Option<SessionError>,
}

/// Folds one choice into a round: its delta goes to the turn, whatever else
/// the choice carries, and the finish reason that it carries, if any, is the
/// round's from then on.
pub open spec fn fold_choice(round: RoundView, choice: ChoiceView) -> RoundFold {
    let fold = fold_delta(round.turn, choice.delta);
    RoundFold {
        round: RoundView {
            turn: fold.turn,
            finish_reason: match choice.finish_reason {
                Some(reason) => Some(reason),
                None => round.finish_reason,
            },
        },
        events: fold.events,
        failure: fold.failure,
    }
}

/// Folds the choices of a chunk into a round, first to last. The first
/// failure stops the fold; the events of the pieces before it are kept.
pub open spec fn fold_choices(round: RoundView, choices: Seq<ChoiceView>) -> RoundFold
    decreases choices.len(),
{
    if choices.len() == 0 {
        RoundFold { round, events: Seq::empty(), failure: None }
    } else {
        let first = fold_choice(round, choices[0]);
        if first.failure is Some {
            first
        } else {
            let rest = fold_choices(first.round, choices.skip(1));
            RoundFold {
                round: rest.round,
                events: first.events + rest.events,
                failure: rest.failure,
            }
        }
    }
}

/// The events that one step gave, and the failure that ended it, if any.
#[derive(Debug)]
pub struct Progress {
    pub events: Vec<Delta>,
    pub failure: Option<SessionError>,
}

/// The assistant turn of the round in flight.
#[derive(Debug)]
pub struct Turn {
    pub content: String,
    pub reasoning_content: Option<String>,
    pub tool_calls: Vec<ToolCall>,
}

impl DeepView for Turn {
    type V = TurnView;

    open spec fn deep_view(&self) -> TurnView {
        TurnView {
            content: self.content@,
            reasoning_content: self.reasoning_content.deep_view(),
            tool_calls: self.tool_calls.deep_view(),
        }
    }
}

impl Turn {
    /// A turn in which nothing was received yet.
    pub fn new() -> (turn: Turn)
        ensures
            turn.deep_view() == TurnView::empty(),
    {
        let turn = Turn { content: String::new(), reasoning_content: None, tool_calls: Vec::new() };
        assert(turn.tool_calls.deep_view() =~= Seq::empty());
        turn
    }

    /// Takes in a piece of assistant text and gives the event for it, if the
    /// piece shows anything.
    pub fn absorb_text(
        &mut self,
        content: &Option<String>,
        reasoning_content: &Option<String>,
        role: Option<Role>,
    ) -> (event: Option<Delta>)
        ensures
            final(self).deep_view() == old(self).deep_view().with_text(
                content.deep_view(),
                reasoning_content.deep_view(),
            ),
            event.deep_view() == text_event(
                content.deep_view(),
                reasoning_content.deep_view(),
                role,
            ),
    {
        if let Some(c) = content {
            self.content.append(c.as_str());
        }
        if let Some(r) = reasoning_content {
            match &mut self.reasoning_content {
                Some(buffer) => {
                    buffer.append(r.as_str());
                },
                None => {
                    self.reasoning_content = Some(r.clone());
                },
            }
        }
        let shows_content = match content {
            Some(c) => !c.as_str().is_empty(),
            None => false,
        };
        let shows_reasoning = match reasoning_content {
            Some(r) => !r.as_str().is_empty(),
            None => false,
        };
        if shows_content || shows_reasoning {
            Some(
                Delta::Assistant {
                    content: clone_text(content),
                    reasoning_content: clone_text(reasoning_content),
                    role,
                },
            )
        } else {
            None
        }
    }

    /// Takes in one tool-call fragment and gives the event for it. On a
    /// fragment that breaks the protocol the turn stays as it was.
    pub fn absorb_fragment(&mut self, fragment: &streaming::ToolCall) -> (res: Result<
        Delta,
        SessionError,
    >)
        ensures
            match old(self).deep_view().with_fragment(fragment.deep_view()) {
                Ok(turn) => res is Ok && res->Ok_0.deep_view() == fragment_event(
                    fragment.deep_view(),
                ) && final(self).deep_view() == turn,
                Err(e) => res == Err::<Delta, SessionError>(e) && final(self).deep_view() == old(
                    self,
                ).deep_view(),
            },
    {
        let count = self.tool_calls.len();
        if fragment.index == count {
            match (&fragment.id, &fragment.kind, &fragment.function.name) {
                (Some(id), Some(kind), Some(name)) => {
                    self.tool_calls.push(
                        ToolCall {
                            kind: *kind,
                            id: id.clone(),
                            function: Function {
                                name: name.clone(),
                                arguments: fragment.function.arguments.clone(),
                            },
                        },
                    );
                    assert(self.deep_view().tool_calls =~= old(
                        self,
                    ).deep_view().tool_calls.push(
                        ToolCallView {
                            id: fragment.id->0@,
                            name: fragment.function.name->0@,
                            arguments: fragment.function.arguments@,
                        },
                    ));
                },
                _ => {
                    return Err(SessionError::Protocol(Violation::MissingIdentity));
                },
            }
        } else if fragment.index < count {
            self.tool_calls[fragment.index].function.arguments.append(
                fragment.function.arguments.as_str(),
            );
            assert(self.deep_view().tool_calls =~= old(self).deep_view().tool_calls.update(
                fragment.index as int,
                ToolCallView {
                    arguments: old(self).deep_view().tool_calls[fragment.index as int].arguments
                        + fragment.function.arguments@,
                    ..old(self).deep_view().tool_calls[fragment.index as int]
                },
            ));
        } else {
            return Err(SessionError::Protocol(Violation::IndexGap));
        }
        Ok(
            Delta::ToolCallInput {
                tool_call_id: clone_text(&fragment.id),
                function: fragment.function.clone(),
            },
        )
    }

    /// Takes in one delta: a piece of text, or tool-call fragments in their
    /// order. Gives the events of the pieces taken in, and the failure that
    /// stopped it, if one did.
    pub fn absorb_delta(&mut self, delta: &streaming::Delta) -> (progress: Progress)
        ensures
            final(self).deep_view() == fold_delta(old(self).deep_view(), delta.deep_view()).turn,
            progress.events.deep_view() == fold_delta(
                old(self).deep_view(),
                delta.deep_view(),
            ).events,
            progress.failure == fold_delta(old(self).deep_view(), delta.deep_view()).failure,
    {
        let ghost start = self.deep_view();
        let mut events: Vec<Delta> = Vec::new();
        let mut failure: Option<SessionError> = None;
        match delta {
            streaming::Delta::Assistant { content, reasoning_content, role } => {
                if let Some(event) = self.absorb_text(content, reasoning_content, *role) {
                    events.push(event);
                }
                assert(events.deep_view() =~= fold_delta(start, delta.deep_view()).events);
            },
            streaming::Delta::ToolCall { tool_calls } => {
                let ghost fragments = tool_calls.deep_view();
                let ghost total = fold_fragments(start, fragments);
                let mut i: usize = 0;
                assert(fragments.skip(0) =~= fragments);
                assert(events.deep_view() =~= Seq::<EventView>::empty());
                assert(events.deep_view() + total.events =~= total.events);
                while i < tool_calls.len() && failure.is_none()
                    invariant
                        i <= tool_calls.len(),
                        fragments == tool_calls.deep_view(),
                        total == fold_fragments(start, fragments),
                        failure is None ==> {
                            let rest = fold_fragments(self.deep_view(), fragments.skip(i as int));
                            &&& total.turn == rest.turn
                            &&& total.events == events.deep_view() + rest.events
                            &&& total.failure == rest.failure
                        },
                        failure is Some ==> {
                            &&& total.turn == self.deep_view()
                            &&& total.events == events.deep_view()
                            &&& total.failure == failure
                        },
                    decreases tool_calls.len() - i + (if failure is None { 1int } else { 0int }),
                {
                    let ghost before = self.deep_view();
                    let ghost seen = events.deep_view();
                    let ghost rest = fold_fragments(before, fragments.skip(i as int));
                    assert(fragments.skip(i as int)[0] == tool_calls@[i as int].deep_view());
                    assert(fragments.skip(i as int).skip(1) =~= fragments.skip(i + 1));
                    match self.absorb_fragment(&tool_calls[i]) {
                        Ok(event) => {
                            events.push(event);
                            i += 1;
                            proof {
                                let next = fold_fragments(self.deep_view(), fragments.skip(i as int));
                                assert(events.deep_view() =~= seen.push(event.deep_view()));
                                assert(rest.events == seq![event.deep_view()] + next.events);
                                assert(seen + rest.events =~= events.deep_view() + next.events);
                            }
                        },
                        Err(e) => {
                            failure = Some(e);
                            assert(rest.events =~= Seq::<EventView>::empty());
                            assert(seen + rest.events =~= seen);
                        },
                    }
                }
                proof {
                    if failure is None {
                        let rest = fold_fragments(self.deep_view(), fragments.skip(i as int));
                        assert(fragments.skip(i as int).len() == 0);
                        assert(events.deep_view() + rest.events =~= events.deep_view());
                    }
                }
            },
        }
        Progress { events, failure }
    }

    /// Seals the turn into the assistant message of its round.
    pub fn seal(self) -> (message: Assistant)
        ensures
            message.deep_view() == self.deep_view().sealed(),
    {
        let tool_calls = if self.tool_calls.len() == 0 {
            None
        } else {
            Some(self.tool_calls)
        };
        Assistant {
            name: None,
            content: self.content,
            reasoning_content: self.reasoning_content,
            tool_calls,
        }
    }
}

/// A round in flight: the turn as far as it was received, and the finish
/// reason once a choice has carried one.
#[derive(Debug)]
pub struct Round {
    pub turn: Turn,
    pub finish_reason: Option<FinishReason>,
}

impl DeepView for Round {
    type V = RoundView;

    open spec fn deep_view(&self) -> RoundView {
        RoundView { turn: self.turn.deep_view(), finish_reason: self.finish_reason }
    }
}

impl Round {
    /// A round of which nothing was received yet.
    pub fn new() -> (round: Round)
        ensures
            round.deep_view() == (RoundView { turn: TurnView::empty(), finish_reason: None }),
    {
        Round { turn: Turn::new(), finish_reason: None }
    }

    /// Takes in one choice of a chunk.
    pub fn absorb_choice(&mut self, choice: &streaming::Choice) -> (progress: Progress)
        ensures
            final(self).deep_view() == fold_choice(old(self).deep_view(), choice.deep_view()).round,
            progress.events.deep_view() == fold_choice(
                old(self).deep_view(),
                choice.deep_view(),
            ).events,
            progress.failure == fold_choice(old(self).deep_view(), choice.deep_view()).failure,
    {
        if let Some(reason) = choice.finish_reason {
            self.finish_reason = Some(reason);
        }
        self.turn.absorb_delta(&choice.delta)
    }

    /// Takes in one decoded chunk: its choices in their order.
    pub fn absorb_chunk(&mut self, chunk: &streaming::Chunk) -> (progress: Progress)
        ensures
            final(self).deep_view() == fold_choices(
                old(self).deep_view(),
                chunk.choices.deep_view(),
            ).round,
            progress.events.deep_view() == fold_choices(
                old(self).deep_view(),
                chunk.choices.deep_view(),
            ).events,
            progress.failure == fold_choices(
                old(self).deep_view(),
                chunk.choices.deep_view(),
            ).failure,
    {
        let ghost start = self.deep_view();
        let ghost choices = chunk.choices.deep_view();
        let ghost total = fold_choices(start, choices);
        let mut events: Vec<Delta> = Vec::new();
        let mut failure: Option<SessionError> = None;
        let mut i: usize = 0;
        assert(choices.skip(0) =~= choices);
        assert(events.deep_view() =~= Seq::<EventView>::empty());
        assert(events.deep_view() + total.events =~= total.events);
        while i < chunk.choices.len() && failure.is_none()
            invariant
                i <= chunk.choices.len(),
                choices == chunk.choices.deep_view(),
                total == fold_choices(start, choices),
                failure is None ==> {
                    let rest = fold_choices(self.deep_view(), choices.skip(i as int));
                    &&& total.round == rest.round
                    &&& total.events == events.deep_view() + rest.events
                    &&& total.failure == rest.failure
                },
                failure is Some ==> {
                    &&& total.round == self.deep_view()
                    &&& total.events == events.deep_view()
                    &&& total.failure == failure
                },
            decreases chunk.choices.len() - i + (if failure is None { 1int } else { 0int }),
        {
            let ghost before = self.deep_view();
            let ghost seen = events.deep_view();
            let ghost rest = fold_choices(before, choices.skip(i as int));
            assert(choices.skip(i as int)[0] == chunk.choices@[i as int].deep_view());
            assert(choices.skip(i as int).skip(1) =~= choices.skip(i + 1));
            let mut step = self.absorb_choice(&chunk.choices[i]);
            let ghost step_events = step.events.deep_view();
            events.append(&mut step.events);
            assert(events.deep_view() =~= seen + step_events);
            match step.failure {
                None => {
                    i += 1;
                    proof {
                        let next = fold_choices(self.deep_view(), choices.skip(i as int));
                        assert(rest.events == step_events + next.events);
                        assert(seen + rest.events =~= events.deep_view() + next.events);
                    }
                },
                Some(e) => {
                    failure = Some(e);
                },
            }
        }
        proof {
            if failure is None {
                let rest = fold_choices(self.deep_view(), choices.skip(i as int));
                assert(choices.skip(i as int).len() == 0);
                assert(events.deep_view() + rest.events =~= events.deep_view());
            }
        }
        Progress { events, failure }
    }
}

/// The argument text that fragments carry for the call at `index`: the texts
/// of the fragments with that index, one after the other.
pub open spec fn gathered(fragments: Seq<FragmentView>, index: nat) -> Seq<char>
    decreases fragments.len(),
{
    if fragments.len() == 0 {
        Seq::empty()
    } else if fragments[0].index == index {
        fragments[0].function.arguments + gathered(fragments.skip(1), index)
    } else {
        gathered(fragments.skip(1), index)
    }
}

/// The argument text that a turn holds for the call at `index`, and the
/// empty text where it has no such call yet.
pub open spec fn arguments_so_far(turn: TurnView, index: nat) -> Seq<char> {
    if index < turn.tool_calls.len() {
        turn.tool_calls[index as int].arguments
    } else {
        Seq::empty()
    }
}

/// The tool-call fragments that a choice gives to the turn.
pub open spec fn fragments_of(choice: ChoiceView) -> Seq<FragmentView> {
    match choice.delta {
        DeltaView::ToolCall { tool_calls } => tool_calls,
        _ => Seq::empty(),
    }
}

/// The argument text that the choices carry for the call at `index`.
pub open spec fn gathered_in(choices: Seq<ChoiceView>, index: nat) -> Seq<char>
    decreases choices.len(),
{
    if choices.len() == 0 {
        Seq::empty()
    } else {
        gathered(fragments_of(choices[0]), index) + gathered_in(choices.skip(1), index)
    }
}

/// A fragment whose index is the number of calls starts the call at that
/// index, with the fragment's identity and its text as the arguments so far;
/// a fragment with a smaller index appends its text to the call at its
/// index and changes nothing else; a fragment with a larger index breaks the
/// protocol. No fragment touches another call or the text of the turn.
pub proof fn lemma_fragment_goes_by_index(turn: TurnView, fragment: FragmentView)
    ensures
        fragment.index > turn.tool_calls.len() ==> turn.with_fragment(fragment) == Err::<
            TurnView,
            SessionError,
        >(SessionError::Protocol(Violation::IndexGap)),
        fragment.index == turn.tool_calls.len() && !(fragment.id is Some && fragment.kind is Some
            && fragment.function.name is Some) ==> turn.with_fragment(fragment) == Err::<
            TurnView,
            SessionError,
        >(SessionError::Protocol(Violation::MissingIdentity)),
        fragment.index == turn.tool_calls.len() && fragment.id is Some && fragment.kind is Some
            && fragment.function.name is Some ==> {
            let next = turn.with_fragment(fragment);
            &&& next is Ok
            &&& next->Ok_0.tool_calls.len() == turn.tool_calls.len() + 1
            &&& next->Ok_0.tool_calls[fragment.index as int] == (ToolCallView {
                id: fragment.id->0,
                name: fragment.function.name->0,
                arguments: fragment.function.arguments,
            })
        },
        fragment.index < turn.tool_calls.len() ==> {
            let next = turn.with_fragment(fragment);
            let call = turn.tool_calls[fragment.index as int];
            &&& next is Ok
            &&& next->Ok_0.tool_calls.len() == turn.tool_calls.len()
            &&& next->Ok_0.tool_calls[fragment.index as int] == (ToolCallView {
                id: call.id,
                name: call.name,
                arguments: call.arguments + fragment.function.arguments,
            })
        },
        turn.with_fragment(fragment) is Ok ==> {
            let next = turn.with_fragment(fragment)->Ok_0;
            &&& next.content == turn.content
            &&& next.reasoning_content == turn.reasoning_content
            &&& forall|j: int|
                0 <= j < turn.tool_calls.len() && j != fragment.index ==> next.tool_calls[j]
                    == turn.tool_calls[j]
        },
{
}

/// Fragment concatenation: where a fold over fragments does not fail, each
/// call of the turn holds as its arguments what it held before, followed by
/// the texts of the fragments with its index, in their order, whatever the
/// places at which the text was split.
pub proof fn lemma_arguments_are_concatenated(
    turn: TurnView,
    fragments: Seq<FragmentView>,
    index: nat,
)
    requires
        fold_fragments(turn, fragments).failure is None,
    ensures
        arguments_so_far(fold_fragments(turn, fragments).turn, index) == arguments_so_far(
            turn,
            index,
        ) + gathered(fragments, index),
        fold_fragments(turn, fragments).turn.tool_calls.len() >= turn.tool_calls.len(),
    decreases fragments.len(),
{
    if fragments.len() == 0 {
        assert(arguments_so_far(turn, index) + Seq::<char>::empty() =~= arguments_so_far(
            turn,
            index,
        ));
    } else {
        let first = fragments[0];
        let next = turn.with_fragment(first)->Ok_0;
        lemma_arguments_are_concatenated(next, fragments.skip(1), index);
        let tail = gathered(fragments.skip(1), index);
        if first.index == index {
            assert(arguments_so_far(next, index) =~= arguments_so_far(turn, index)
                + first.function.arguments);
            assert((arguments_so_far(turn, index) + first.function.arguments) + tail
                =~= arguments_so_far(turn, index) + (first.function.arguments + tail));
        } else {
            assert(arguments_so_far(next, index) =~= arguments_so_far(turn, index));
        }
    }
}

/// Fragment concatenation over a chunk: where a fold over choices does not
/// fail, each call of the turn holds what it held before, followed by the
/// texts that the choices carry for its index, in their order.
pub proof fn lemma_arguments_are_concatenated_in(
    round: RoundView,
    choices: Seq<ChoiceView>,
    index: nat,
)
    requires
        fold_choices(round, choices).failure is None,
    ensures
        arguments_so_far(fold_choices(round, choices).round.turn, index) == arguments_so_far(
            round.turn,
            index,
        ) + gathered_in(choices, index),
    decreases choices.len(),
{
    if choices.len() == 0 {
        assert(arguments_so_far(round.turn, index) + Seq::<char>::empty() =~= arguments_so_far(
            round.turn,
            index,
        ));
    } else {
        let first = fold_choice(round, choices[0]);
        lemma_arguments_are_concatenated_in(first.round, choices.skip(1), index);
        let here = gathered(fragments_of(choices[0]), index);
        let tail = gathered_in(choices.skip(1), index);
        if fragments_of(choices[0]).len() == 0 {
            assert(arguments_so_far(round.turn, index) + here =~= arguments_so_far(
                round.turn,
                index,
            ));
        } else {
            lemma_arguments_are_concatenated(round.turn, fragments_of(choices[0]), index);
        }
        assert(arguments_so_far(first.round.turn, index) == arguments_so_far(round.turn, index)
            + here);
        assert((arguments_so_far(round.turn, index) + here) + tail =~= arguments_so_far(
            round.turn,
            index,
        ) + (here + tail));
    }
}

/// Whether an event shows something: any event but a piece of assistant
/// text in which neither the content nor the reasoning holds a character.
pub open spec fn shows_something(event: EventView) -> bool {
    match event {
        EventView::Assistant { content, reasoning_content, role } => is_visible(content)
            || is_visible(reasoning_content),
        _ => true,
    }
}

/// Every event of a fold over fragments reports a fragment.
pub proof fn lemma_fragment_events(turn: TurnView, fragments: Seq<FragmentView>)
    ensures
        forall|i: int|
            0 <= i < fold_fragments(turn, fragments).events.len() ==> (#[trigger] fold_fragments(
                turn,
                fragments,
            ).events[i]) is ToolCallInput,
    decreases fragments.len(),
{
    if fragments.len() > 0 && turn.with_fragment(fragments[0]) is Ok {
        lemma_fragment_events(turn.with_fragment(fragments[0])->Ok_0, fragments.skip(1));
    }
}

/// Empty-delta suppression: no event of a fold over choices is a piece of
/// assistant text that shows nothing.
pub proof fn lemma_empty_text_is_suppressed(round: RoundView, choices: Seq<ChoiceView>)
    ensures
        forall|i: int|
            0 <= i < fold_choices(round, choices).events.len() ==> shows_something(
                #[trigger] fold_choices(round, choices).events[i],
            ),
    decreases choices.len(),
{
    if choices.len() > 0 {
        let first = fold_choice(round, choices[0]);
        match choices[0].delta {
            DeltaView::ToolCall { tool_calls } => {
                lemma_fragment_events(round.turn, tool_calls);
            },
            _ => {},
        }
        assert forall|i: int| 0 <= i < first.events.len() implies shows_something(
            #[trigger] first.events[i],
        ) by {}
        if first.failure is None {
            lemma_empty_text_is_suppressed(first.round, choices.skip(1));
        }
    }
}

/// Folds the chunks of a round into it, first to last, each as
/// `fold_choices` has it. The first failure stops the fold.
pub open spec fn fold_chunks(round: RoundView, chunks: Seq<Seq<ChoiceView>>) -> RoundFold
    decreases chunks.len(),
{
    if chunks.len() == 0 {
        RoundFold { round, events: Seq::empty(), failure: None }
    } else {
        let first = fold_choices(round, chunks[0]);
        if first.failure is Some {
            first
        } else {
            let rest = fold_chunks(first.round, chunks.skip(1));
            RoundFold {
                round: rest.round,
                events: first.events + rest.events,
                failure: rest.failure,
            }
        }
    }
}

/// The argument text that the chunks of a round carry for the call at
/// `index`.
pub open spec fn gathered_over(chunks: Seq<Seq<ChoiceView>>, index: nat) -> Seq<char>
    decreases chunks.len(),
{
    if chunks.len() == 0 {
        Seq::empty()
    } else {
        gathered_in(chunks[0], index) + gathered_over(chunks.skip(1), index)
    }
}

/// Fragment concatenation over a round: where the fold over its chunks does
/// not fail, each call holds what it held before, followed by the texts
/// that the chunks carry for its index; from an empty turn, exactly those
/// texts one after the other.
pub proof fn lemma_arguments_are_concatenated_over(
    round: RoundView,
    chunks: Seq<Seq<ChoiceView>>,
    index: nat,
)
    requires
        fold_chunks(round, chunks).failure is None,
    ensures
        arguments_so_far(fold_chunks(round, chunks).round.turn, index) == arguments_so_far(
            round.turn,
            index,
        ) + gathered_over(chunks, index),
        round.turn == TurnView::empty() ==> arguments_so_far(
            fold_chunks(round, chunks).round.turn,
            index,
        ) == gathered_over(chunks, index),
    decreases chunks.len(),
{
    let before = arguments_so_far(round.turn, index);
    if chunks.len() == 0 {
        assert(before + Seq::<char>::empty() =~= before);
    } else {
        let first = fold_choices(round, chunks[0]);
        lemma_arguments_are_concatenated_in(round, chunks[0], index);
        lemma_arguments_are_concatenated_over(first.round, chunks.skip(1), index);
        let here = gathered_in(chunks[0], index);
        let tail = gathered_over(chunks.skip(1), index);
        assert((before + here) + tail =~= before + (here + tail));
    }
    assert(Seq::<char>::empty() + gathered_over(chunks, index) =~= gathered_over(chunks, index));
}

/// Empty-delta suppression over a round: no event of the fold over its
/// chunks is a piece of assistant text that shows nothing.
pub proof fn lemma_empty_text_is_suppressed_over(round: RoundView, chunks: Seq<Seq<ChoiceView>>)
    ensures
        forall|i: int|
            0 <= i < fold_chunks(round, chunks).events.len() ==> shows_something(
                #[trigger] fold_chunks(round, chunks).events[i],
            ),
    decreases chunks.len(),
{
    if chunks.len() > 0 {
        let first = fold_choices(round, chunks[0]);
        lemma_empty_text_is_suppressed(round, chunks[0]);
        if first.failure is None {
            lemma_empty_text_is_suppressed_over(first.round, chunks.skip(1));
        }
    }
}

/// Two optional texts one after the other; absent where both are.
pub open spec fn joined(first: Option<Seq<char>>, second: Option<Seq<char>>) -> Option<Seq<char>> {
    match (first, second) {
        (Some(a), Some(b)) => Some(a + b),
        (Some(a), None) => Some(a),
        (None, b) => b,
    }
}

/// The content that a choice carries.
pub open spec fn content_of(choice: ChoiceView) -> Seq<char> {
    match choice.delta {
        DeltaView::Assistant { content: Some(text), .. } => text,
        _ => Seq::empty(),
    }
}

/// The reasoning that a choice carries, if it carries any.
pub open spec fn reasoning_of(choice: ChoiceView) -> Option<Seq<char>> {
    match choice.delta {
        DeltaView::Assistant { reasoning_content, .. } => reasoning_content,
        _ => None,
    }
}

/// The content that the choices of a chunk carry, one piece after the other.
pub open spec fn said_in(choices: Seq<ChoiceView>) -> Seq<char>
    decreases choices.len(),
{
    if choices.len() == 0 {
        Seq::empty()
    } else {
        content_of(choices[0]) + said_in(choices.skip(1))
    }
}

/// The reasoning that the choices of a chunk carry, one piece after the
/// other; absent where no choice carries any.
pub open spec fn thought_in(choices: Seq<ChoiceView>) -> Option<Seq<char>>
    decreases choices.len(),
{
    if choices.len() == 0 {
        None
    } else {
        joined(reasoning_of(choices[0]), thought_in(choices.skip(1)))
    }
}

/// The content that the chunks of a round carry.
pub open spec fn said_over(chunks: Seq<Seq<ChoiceView>>) -> Seq<char>
    decreases chunks.len(),
{
    if chunks.len() == 0 {
        Seq::empty()
    } else {
        said_in(chunks[0]) + said_over(chunks.skip(1))
    }
}

/// The reasoning that the chunks of a round carry.
pub open spec fn thought_over(chunks: Seq<Seq<ChoiceView>>) -> Option<Seq<char>>
    decreases chunks.len(),
{
    if chunks.len() == 0 {
        None
    } else {
        joined(thought_in(chunks[0]), thought_over(chunks.skip(1)))
    }
}

/// Joining optional texts does not depend on the grouping.
pub proof fn lemma_joined_regroups(
    a: Option<Seq<char>>,
    b: Option<Seq<char>>,
    c: Option<Seq<char>>,
)
    ensures
        joined(joined(a, b), c) == joined(a, joined(b, c)),
{
    if a is Some && b is Some && c is Some {
        assert((a->0 + b->0) + c->0 =~= a->0 + (b->0 + c->0));
    }
}

/// Tool-call fragments leave the text of a turn as it is.
pub proof fn lemma_fragments_keep_text(turn: TurnView, fragments: Seq<FragmentView>)
    ensures
        fold_fragments(turn, fragments).turn.content == turn.content,
        fold_fragments(turn, fragments).turn.reasoning_content == turn.reasoning_content,
    decreases fragments.len(),
{
    if fragments.len() > 0 && turn.with_fragment(fragments[0]) is Ok {
        lemma_fragments_keep_text(turn.with_fragment(fragments[0])->Ok_0, fragments.skip(1));
    }
}

/// Text concatenation over a chunk: where the fold over its choices does
/// not fail, the turn holds the content it held before followed by the
/// content of every choice, and likewise the reasoning, whether or not a
/// choice also carries the finish reason.
pub proof fn lemma_text_is_concatenated_in(round: RoundView, choices: Seq<ChoiceView>)
    requires
        fold_choices(round, choices).failure is None,
    ensures
        fold_choices(round, choices).round.turn.content == round.turn.content + said_in(choices),
        fold_choices(round, choices).round.turn.reasoning_content == joined(
            round.turn.reasoning_content,
            thought_in(choices),
        ),
    decreases choices.len(),
{
    if choices.len() == 0 {
        assert(round.turn.content + Seq::<char>::empty() =~= round.turn.content);
    } else {
        let first = fold_choice(round, choices[0]);
        lemma_text_is_concatenated_in(first.round, choices.skip(1));
        match choices[0].delta {
            DeltaView::ToolCall { tool_calls } => {
                lemma_fragments_keep_text(round.turn, tool_calls);
            },
            _ => {},
        }
        assert(first.round.turn.content =~= round.turn.content + content_of(choices[0]));
        assert(first.round.turn.reasoning_content == joined(
            round.turn.reasoning_content,
            reasoning_of(choices[0]),
        ));
        assert((round.turn.content + content_of(choices[0])) + said_in(choices.skip(1))
            =~= round.turn.content + (content_of(choices[0]) + said_in(choices.skip(1))));
        lemma_joined_regroups(
            round.turn.reasoning_content,
            reasoning_of(choices[0]),
            thought_in(choices.skip(1)),
        );
    }
}

/// Text concatenation over a round: where the fold over its chunks does not
/// fail, the turn holds what it held before followed by the content of
/// every assistant delta of the round in order, and likewise the reasoning;
/// from an empty turn, exactly those pieces, with the reasoning absent
/// where no delta carried any.
pub proof fn lemma_text_is_concatenated_over(round: RoundView, chunks: Seq<Seq<ChoiceView>>)
    requires
        fold_chunks(round, chunks).failure is None,
    ensures
        fold_chunks(round, chunks).round.turn.content == round.turn.content + said_over(chunks),
        fold_chunks(round, chunks).round.turn.reasoning_content == joined(
            round.turn.reasoning_content,
            thought_over(chunks),
        ),
        round.turn == TurnView::empty() ==> {
            &&& fold_chunks(round, chunks).round.turn.content == said_over(chunks)
            &&& fold_chunks(round, chunks).round.turn.reasoning_content == thought_over(chunks)
        },
    decreases chunks.len(),
{
    if chunks.len() == 0 {
        assert(round.turn.content + Seq::<char>::empty() =~= round.turn.content);
    } else {
        let first = fold_choices(round, chunks[0]);
        lemma_text_is_concatenated_in(round, chunks[0]);
        lemma_text_is_concatenated_over(first.round, chunks.skip(1));
        assert((round.turn.content + said_in(chunks[0])) + said_over(chunks.skip(1))
            =~= round.turn.content + (said_in(chunks[0]) + said_over(chunks.skip(1))));
        lemma_joined_regroups(
            round.turn.reasoning_content,
            thought_in(chunks[0]),
            thought_over(chunks.skip(1)),
        );
    }
    assert(Seq::<char>::empty() + said_over(chunks) =~= said_over(chunks));
}

} // verus!
