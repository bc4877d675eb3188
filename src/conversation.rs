use vstd::prelude::*;
use crate::llm::{calls_view, CallView, Message, MessageView, ToolCall};
use crate::accumulator::RoundOutput;
use crate::config::opt_view;

verus! {

/// Where the conversation loop stands.
#[derive(Debug, Clone, Copy, PartialEq, Eq, Structural)]
pub enum Phase {
    /// Ready to send the next request.
    AwaitingRound,
    /// A request was sent; its stream is being read.
    Accumulating,
    /// The tool calls of the last answer are being run, in slot order.
    Dispatching,
    /// No further request will be sent.
    Completed,
}

/// One transcript record, in terms of positions in the history.
#[derive(Debug, Clone, Copy, PartialEq, Eq, Structural)]
pub enum LogEvent {
    /// The message at this position was appended.
    MessageAdded(usize),
    /// The call `call` of the assistant message at `message` was run.
    ToolCalled { message: usize, call: usize },
    /// The tool message at `result` answered that call.
    ToolResult { message: usize, call: usize, result: usize },
}

/// The conversation in terms of views.
pub ghost struct ConversationView {
    pub messages: Seq<MessageView>,
    pub log: Seq<LogEvent>,
    pub phase: Phase,
    pub current: nat,
    pub next: nat,
    pub rounds: nat,
    pub max_rounds: nat,
}

/// The message history, the transcript and the loop's state.
#[derive(Debug)]
pub struct Conversation {
    messages: Vec<Message>,
    log: Vec<LogEvent>,
    phase: Phase,
    current: usize,
    next: usize,
    rounds: usize,
    max_rounds: usize,
}

pub open spec fn assistant_calls(m: MessageView) -> Seq<CallView> {
    match m {
        MessageView::Assistant(_, Some(cs)) => cs,
        _ => Seq::empty(),
    }
}

pub open spec fn is_assistant(m: MessageView) -> bool {
    m is Assistant
}

pub open spec fn is_tool(m: MessageView) -> bool {
    m is Tool
}

/// The message is a tool message addressed to this call.
pub open spec fn answers(m: MessageView, c: CallView) -> bool {
    match m {
        MessageView::Tool(id, _) => id == c.id,
        _ => false,
    }
}

/// The first `n` calls of the assistant message at `a` are answered, in
/// order, by the messages right after it.
pub open spec fn block_answered(msgs: Seq<MessageView>, a: int, n: int) -> bool {
    forall|j: int| 0 <= j < n ==> #[trigger] answered_at(msgs, a, j)
}

/// The call `j` of the assistant message at `a` is answered at its place.
pub open spec fn answered_at(msgs: Seq<MessageView>, a: int, j: int) -> bool {
    a + 1 + j < msgs.len() && answers(msgs[a + 1 + j], assistant_calls(msgs[a])[j])
}

/// The tool message at `t` sits in the block after the assistant message
/// at `a`, and answers the call at its place there.
pub open spec fn placed_after(msgs: Seq<MessageView>, t: int, a: int) -> bool {
    &&& 0 <= a < t
    &&& is_assistant(msgs[a])
    &&& t - a - 1 < assistant_calls(msgs[a]).len()
    &&& answers(msgs[t], assistant_calls(msgs[a])[t - a - 1])
}

/// What holds of the history at every step: it opens with the user's
/// prompt; every tool message answers a call of an earlier assistant
/// message, at its place; and every assistant message's calls are all
/// answered, in order, but those of the one being dispatched, of which
/// exactly the first `next` are.
pub open spec fn conversation_ok(v: ConversationView) -> bool {
    &&& v.messages.len() >= 1
    &&& v.messages[0] is User
    &&& v.rounds <= v.max_rounds
    &&& v.phase == Phase::AwaitingRound ==> v.rounds < v.max_rounds
    &&& forall|t: int|
        0 <= t < v.messages.len() && is_tool(#[trigger] v.messages[t]) ==> exists|a: int|
            placed_after(v.messages, t, a)
    &&& forall|a: int|
        0 <= a < v.messages.len() && is_assistant(#[trigger] v.messages[a]) && !(v.phase
            == Phase::Dispatching && a == v.current) ==> block_answered(
            v.messages,
            a,
            assistant_calls(v.messages[a]).len() as int,
        )
    &&& v.phase == Phase::Dispatching ==> {
        &&& v.current < v.messages.len()
        &&& is_assistant(v.messages[v.current as int])
        &&& v.next < assistant_calls(v.messages[v.current as int]).len()
        &&& v.messages.len() == v.current + 1 + v.next
        &&& block_answered(v.messages, v.current as int, v.next as int)
    }
    &&& v.phase != Phase::Dispatching ==> v.next == 0
}

/// Opening a round: only from `AwaitingRound`, and it counts the round.
pub open spec fn after_begin(v: ConversationView) -> ConversationView {
    if v.phase == Phase::AwaitingRound {
        ConversationView { phase: Phase::Accumulating, rounds: v.rounds + 1, ..v }
    } else {
        v
    }
}

/// Closing a round's stream: one assistant message with the text and the
/// calls (none where there are none), logged; then the calls are
/// dispatched, or, where there are none, the conversation is complete.
pub open spec fn after_round(
    v: ConversationView,
    text: Option<Seq<char>>,
    calls: Seq<CallView>,
) -> ConversationView {
    if v.phase != Phase::Accumulating {
        v
    } else {
        let m = MessageView::Assistant(
            text,
            if calls.len() == 0 {
                None
            } else {
                Some(calls)
            },
        );
        ConversationView {
            messages: v.messages.push(m),
            log: v.log.push(LogEvent::MessageAdded(v.messages.len() as usize)),
            phase: if calls.len() == 0 {
                Phase::Completed
            } else {
                Phase::Dispatching
            },
            current: v.messages.len(),
            next: 0,
            ..v
        }
    }
}

/// Recording the result of the next call: one tool message addressed to
/// it, whatever the outcome, logged as the call and then its result; after
/// the last call, the next round may start unless the round cap is reached.
pub open spec fn after_result(v: ConversationView, content: Seq<char>) -> ConversationView {
    if v.phase != Phase::Dispatching {
        v
    } else {
        let calls = assistant_calls(v.messages[v.current as int]);
        let t = v.messages.len();
        let done = v.next + 1 == calls.len();
        ConversationView {
            messages: v.messages.push(MessageView::Tool(calls[v.next as int].id, content)),
            log: v.log.push(
                LogEvent::ToolCalled { message: v.current as usize, call: v.next as usize },
            ).push(
                LogEvent::ToolResult {
                    message: v.current as usize,
                    call: v.next as usize,
                    result: t as usize,
                },
            ),
            phase: if !done {
                Phase::Dispatching
            } else if v.rounds < v.max_rounds {
                Phase::AwaitingRound
            } else {
                Phase::Completed
            },
            next: if done {
                0
            } else {
                v.next + 1
            },
            ..v
        }
    }
}

impl View for Conversation {
    type V = ConversationView;

    closed spec fn view(&self) -> ConversationView {
        ConversationView {
            messages: self.messages@.map_values(|m: Message| m@),
            log: self.log@,
            phase: self.phase,
            current: self.current as nat,
            next: self.next as nat,
            rounds: self.rounds as nat,
            max_rounds: self.max_rounds as nat,
        }
    }
}

proof fn lemma_round_keeps_ok(v: ConversationView, text: Option<Seq<char>>, calls: Seq<CallView>)
    requires
        conversation_ok(v),
    ensures
        conversation_ok(after_round(v, text, calls)),
{
    if v.phase == Phase::Accumulating {
        let w = after_round(v, text, calls);
        let n = v.messages.len() as int;
        assert forall|i: int| 0 <= i < n implies #[trigger] w.messages[i] == v.messages[i] by {}
        assert forall|t: int|
            0 <= t < w.messages.len() && is_tool(#[trigger] w.messages[t]) implies exists|a: int|
            placed_after(w.messages, t, a) by {
            assert(t < n);
            assert(is_tool(v.messages[t]));
            let a = choose|a: int| placed_after(v.messages, t, a);
            assert(placed_after(w.messages, t, a));
        }
        assert forall|a: int|
            0 <= a < w.messages.len() && is_assistant(#[trigger] w.messages[a]) && !(w.phase
                == Phase::Dispatching && a == w.current) implies block_answered(
            w.messages,
            a,
            assistant_calls(w.messages[a]).len() as int,
        ) by {
            if a < n {
                assert(is_assistant(v.messages[a]));
                assert(block_answered(v.messages, a, assistant_calls(v.messages[a]).len() as int));
                assert forall|j: int| 0 <= j < assistant_calls(w.messages[a]).len() implies #[trigger] answered_at(w.messages, a, j) by {
                    assert(w.messages[a] == v.messages[a]);
                    assert(answered_at(v.messages, a, j));
                    assert(w.messages[a + 1 + j] == v.messages[a + 1 + j]);
                }
            } else {
                assert(calls.len() == 0);
            }
        }
    }
}

proof fn lemma_result_keeps_ok(v: ConversationView, content: Seq<char>)
    requires
        conversation_ok(v),
    ensures
        conversation_ok(after_result(v, content)),
{
    if v.phase == Phase::Dispatching {
        let w = after_result(v, content);
        let n = v.messages.len() as int;
        let cur = v.current as int;
        let calls = assistant_calls(v.messages[cur]);
        assert forall|i: int| 0 <= i < n implies #[trigger] w.messages[i] == v.messages[i] by {}
        assert(w.messages[n] == MessageView::Tool(calls[v.next as int].id, content));
        assert forall|t: int|
            0 <= t < w.messages.len() && is_tool(#[trigger] w.messages[t]) implies exists|a: int|
            placed_after(w.messages, t, a) by {
            if t < n {
                assert(is_tool(v.messages[t]));
                let a = choose|a: int| placed_after(v.messages, t, a);
                assert(placed_after(w.messages, t, a));
            } else {
                assert(placed_after(w.messages, t, cur));
            }
        }
        assert forall|a: int|
            0 <= a < w.messages.len() && is_assistant(#[trigger] w.messages[a]) && !(w.phase
                == Phase::Dispatching && a == w.current) implies block_answered(
            w.messages,
            a,
            assistant_calls(w.messages[a]).len() as int,
        ) by {
            assert(a < n);
            assert(is_assistant(v.messages[a]));
            if a == cur {
                assert forall|j: int| 0 <= j < calls.len() implies #[trigger] answered_at(w.messages, a, j) by {
                    if j < v.next {
                        assert(answered_at(v.messages, a, j));
                        assert(w.messages[a + 1 + j] == v.messages[a + 1 + j]);
                    }
                }
            } else {
                assert(block_answered(v.messages, a, assistant_calls(v.messages[a]).len() as int));
                assert forall|j: int| 0 <= j < assistant_calls(w.messages[a]).len() implies #[trigger] answered_at(w.messages, a, j) by {
                    assert(w.messages[a] == v.messages[a]);
                    assert(answered_at(v.messages, a, j));
                    assert(w.messages[a + 1 + j] == v.messages[a + 1 + j]);
                }
            }
        }
        if w.phase == Phase::Dispatching {
            assert forall|j: int| 0 <= j < w.next implies #[trigger] answered_at(w.messages, cur, j) by {
                if j < v.next {
                    assert(answered_at(v.messages, cur, j));
                    assert(w.messages[cur + 1 + j] == v.messages[cur + 1 + j]);
                }
            }
        }
    }
}

impl Conversation {
    /// The history and the loop's state agree with `conversation_ok`.
    pub open spec fn wf(&self) -> bool {
        conversation_ok(self@)
    }

    /// A conversation that opens with the user's prompt and allows at most
    /// `max_rounds` rounds.
    pub fn new(prompt: String, max_rounds: usize) -> (r: Self)
        ensures
            r.wf(),
            r@.messages == seq![MessageView::User(prompt@)],
            r@.log == seq![LogEvent::MessageAdded(0)],
            r@.phase == if max_rounds > 0 {
                Phase::AwaitingRound
            } else {
                Phase::Completed
            },
            r@.rounds == 0,
            r@.max_rounds == max_rounds,
    {
        let mut messages: Vec<Message> = Vec::new();
        messages.push(Message::User { content: prompt });
        let mut log: Vec<LogEvent> = Vec::new();
        log.push(LogEvent::MessageAdded(0));
        let phase = if max_rounds > 0 {
            Phase::AwaitingRound
        } else {
            Phase::Completed
        };
        let r = Conversation { messages, log, phase, current: 0, next: 0, rounds: 0, max_rounds };
        assert(r@.messages =~= seq![MessageView::User(prompt@)]);
        assert(r@.log =~= seq![LogEvent::MessageAdded(0)]);
        r
    }

    /// The history so far, in order.
    pub fn messages(&self) -> (r: &Vec<Message>)
        ensures
            r@.map_values(|m: Message| m@) == self@.messages,
    {
        &self.messages
    }

    /// The transcript so far, in order.
    pub fn log(&self) -> (r: &Vec<LogEvent>)
        ensures
            r@ == self@.log,
    {
        &self.log
    }

    pub fn phase(&self) -> (r: Phase)
        ensures
            r == self@.phase,
    {
        self.phase
    }

    /// Opens a round, where one may start; says whether it did.
    pub fn begin_round(&mut self) -> (r: bool)
        requires
            old(self).wf(),
        ensures
            final(self).wf(),
            r == (old(self)@.phase == Phase::AwaitingRound),
            final(self)@ == after_begin(old(self)@),
    {
        if self.phase != Phase::AwaitingRound {
            return false;
        }
        self.phase = Phase::Accumulating;
        self.rounds = self.rounds + 1;
        assert(self@.messages == old(self)@.messages);
        true
    }

    /// Appends the round's assistant message, where a stream was being
    /// read; says whether it did.
    pub fn finish_round(&mut self, output: RoundOutput) -> (r: bool)
        requires
            old(self).wf(),
        ensures
            final(self).wf(),
            r == (old(self)@.phase == Phase::Accumulating),
            final(self)@ == after_round(
                old(self)@,
                opt_view(output.text),
                calls_view(output.tool_calls@),
            ),
    {
        if self.phase != Phase::Accumulating {
            return false;
        }
        let ghost v = self@;
        let ghost cv = calls_view(output.tool_calls@);
        let n = output.tool_calls.len();
        let at = self.messages.len();
        let tool_calls = if n == 0 {
            None
        } else {
            Some(output.tool_calls)
        };
        self.messages.push(Message::Assistant { content: output.text, tool_calls });
        self.log.push(LogEvent::MessageAdded(at));
        self.current = at;
        self.next = 0;
        self.phase = if n == 0 {
            Phase::Completed
        } else {
            Phase::Dispatching
        };
        proof {
            let w = after_round(v, opt_view(output.text), cv);
            assert(self@.messages =~= w.messages);
            assert(self@.log =~= w.log);
            lemma_round_keeps_ok(v, opt_view(output.text), cv);
        }
        true
    }

    /// The call to run next, while calls are being dispatched.
    pub fn current_call(&self) -> (r: Option<&ToolCall>)
        requires
            self.wf(),
        ensures
            r is Some <==> self@.phase == Phase::Dispatching,
            r matches Some(c) ==> c@ == assistant_calls(
                self@.messages[self@.current as int],
            )[self@.next as int],
    {
        if self.phase != Phase::Dispatching {
            return None;
        }
        let ghost v = self@;
        assert(v.messages[self.current as int] == self.messages@[self.current as int]@);
        match &self.messages[self.current] {
            Message::Assistant { tool_calls: Some(cs), .. } => Some(&cs[self.next]),
            _ => None,
        }
    }

    /// Answers the next call with a tool message holding `content`, whatever
    /// the call's outcome, and logs the call and then its result; says
    /// whether a call was waiting.
    pub fn record_tool_result(&mut self, content: String) -> (r: bool)
        requires
            old(self).wf(),
        ensures
            final(self).wf(),
            r == (old(self)@.phase == Phase::Dispatching),
            final(self)@ == after_result(old(self)@, content@),
    {
        if self.phase != Phase::Dispatching {
            return false;
        }
        let ghost v = self@;
        let a = self.current;
        let j = self.next;
        assert(v.messages[a as int] == self.messages@[a as int]@);
        let (id, n) = match &self.messages[a] {
            Message::Assistant { tool_calls: Some(cs), .. } => (cs[j].id.clone(), cs.len()),
            _ => {
                return false;
            },
        };
        let t = self.messages.len();
        self.messages.push(Message::Tool { tool_call_id: id, content });
        self.log.push(LogEvent::ToolCalled { message: a, call: j });
        self.log.push(LogEvent::ToolResult { message: a, call: j, result: t });
        if j + 1 == n {
            self.next = 0;
            self.phase = if self.rounds < self.max_rounds {
                Phase::AwaitingRound
            } else {
                Phase::Completed
            };
        } else {
            self.next = j + 1;
        }
        proof {
            let w = after_result(v, content@);
            assert(self@.messages =~= w.messages);
            assert(self@.log =~= w.log);
            lemma_result_keeps_ok(v, content@);
        }
        true
    }
}

/// Between rounds, the calls of every assistant message are answered by
/// the tool messages right after it, in slot order: call `j` by the `j`-th
/// message after it, whatever each dispatch's outcome was.
pub proof fn lemma_tool_messages_in_slot_order(v: ConversationView, a: int, j: int)
    requires
        conversation_ok(v),
        v.phase != Phase::Dispatching,
        0 <= a < v.messages.len(),
        is_assistant(v.messages[a]),
        0 <= j < assistant_calls(v.messages[a]).len(),
    ensures
        a + 1 + j < v.messages.len(),
        v.messages[a + 1 + j] matches MessageView::Tool(id, _) && id == assistant_calls(
            v.messages[a],
        )[j].id,
{
    assert(block_answered(v.messages, a, assistant_calls(v.messages[a]).len() as int));
    assert(answered_at(v.messages, a, j));
}

/// The calls of one assistant message carry distinct identifiers.
pub open spec fn turn_ids_distinct(m: MessageView) -> bool {
    forall|i: int, j: int|
        0 <= i < j < assistant_calls(m).len() ==> (#[trigger] assistant_calls(m)[i]).id != (
        #[trigger] assistant_calls(m)[j]).id
}

/// No assistant message stands after `a` up to and including `t`: `t` is
/// in the turn that the assistant message at `a` opened.
pub open spec fn same_turn(msgs: Seq<MessageView>, a: int, t: int) -> bool {
    forall|u: int| a < u <= t ==> !is_assistant(#[trigger] msgs[u])
}

/// Every tool message answers a call of the assistant message that opened
/// its turn, the nearest one before it, at its place there.
pub proof fn lemma_tool_message_answers_its_turn(v: ConversationView, t: int)
    requires
        conversation_ok(v),
        0 <= t < v.messages.len(),
        is_tool(v.messages[t]),
    ensures
        exists|a: int|
            #![trigger placed_after(v.messages, t, a)]
            placed_after(v.messages, t, a) && same_turn(v.messages, a, t),
{
    let msgs = v.messages;
    let b = choose|b: int| placed_after(msgs, t, b);
    assert forall|u: int| b < u <= t implies !is_assistant(#[trigger] msgs[u]) by {
        if u < t {
            let k = u - b - 1;
            if v.phase == Phase::Dispatching && b == v.current {
                assert(answered_at(msgs, b, k));
            } else {
                assert(block_answered(msgs, b, assistant_calls(msgs[b]).len() as int));
                assert(answered_at(msgs, b, k));
            }
        }
    }
    assert(placed_after(msgs, t, b) && same_turn(msgs, b, t));
}

/// Between rounds, each call of an assistant message whose identifiers are
/// distinct is answered by exactly one tool message of its turn: the one at
/// the call's place in slot order.
pub proof fn lemma_each_call_answered_once(v: ConversationView, a: int, j: int)
    requires
        conversation_ok(v),
        v.phase != Phase::Dispatching,
        0 <= a < v.messages.len(),
        is_assistant(v.messages[a]),
        turn_ids_distinct(v.messages[a]),
        0 <= j < assistant_calls(v.messages[a]).len(),
    ensures
        a + 1 + j < v.messages.len(),
        same_turn(v.messages, a, a + 1 + j),
        answers(v.messages[a + 1 + j], assistant_calls(v.messages[a])[j]),
        forall|t: int|
            a < t < v.messages.len() && same_turn(v.messages, a, t) && answers(
                #[trigger] v.messages[t],
                assistant_calls(v.messages[a])[j],
            ) ==> t == a + 1 + j,
{
    let msgs = v.messages;
    let calls = assistant_calls(msgs[a]);
    lemma_tool_messages_in_slot_order(v, a, j);
    assert(block_answered(msgs, a, calls.len() as int));
    assert forall|u: int| a < u <= a + 1 + j implies !is_assistant(#[trigger] msgs[u]) by {
        assert(answered_at(msgs, a, u - a - 1));
    }
    assert forall|t: int|
        a < t < msgs.len() && same_turn(msgs, a, t) && answers(
            #[trigger] msgs[t],
            calls[j],
        ) implies t == a + 1 + j by {
        lemma_tool_message_answers_its_turn(v, t);
        let b = choose|b: int|
            #![trigger placed_after(msgs, t, b)]
            placed_after(msgs, t, b) && same_turn(msgs, b, t);
        if b < a {
            assert(!is_assistant(msgs[a]));
        } else if b > a {
            assert(!is_assistant(msgs[b]));
        }
        let k = t - a - 1;
        assert(calls[k].id == calls[j].id);
        if k < j {
            assert(calls[k].id != calls[j].id);
        } else if k > j {
            assert(calls[j].id != calls[k].id);
        }
    }
}

/// Every tool message answers a call of an earlier assistant message.
pub proof fn lemma_no_orphaned_tool_message(v: ConversationView, t: int)
    requires
        conversation_ok(v),
        0 <= t < v.messages.len(),
        is_tool(v.messages[t]),
    ensures
        exists|a: int, j: int|
            0 <= a < t && 0 <= j < assistant_calls(v.messages[a]).len() && answers(
                v.messages[t],
                #[trigger] assistant_calls(v.messages[a])[j],
            ),
{
    let a = choose|a: int| placed_after(v.messages, t, a);
    assert(answers(v.messages[t], assistant_calls(v.messages[a])[t - a - 1]));
}

/// A round whose answer holds no tool call completes the conversation: no
/// round can begin after it, and nothing more is appended.
pub proof fn lemma_round_without_calls_completes(
    v: ConversationView,
    text: Option<Seq<char>>,
    later_text: Option<Seq<char>>,
    later_calls: Seq<CallView>,
    content: Seq<char>,
)
    requires
        v.phase == Phase::Accumulating,
    ensures
        after_round(v, text, Seq::empty()).phase == Phase::Completed,
        after_begin(after_round(v, text, Seq::empty())) == after_round(v, text, Seq::empty()),
        after_round(after_round(v, text, Seq::empty()), later_text, later_calls) == after_round(
            v,
            text,
            Seq::empty(),
        ),
        after_result(after_round(v, text, Seq::empty()), content) == after_round(
            v,
            text,
            Seq::empty(),
        ),
{
}

} // verus!
