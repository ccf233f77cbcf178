//! Turns of a conversation: when one may start, how what happens in it is put
//! into JSON, and how far one listener's stream of it goes.

use vstd::prelude::*;
use vstd::string::*;

use crate::api::{ApiError, ApiErrorModel};
use crate::json::{empty_object, json_text, json_text_model, Json, JsonModel};
use crate::text::{join, same_text};

verus! {

/// How many events a listener may fall behind: comfortably more than one
/// turn's worth. One that falls further behind loses the oldest events rather
/// than hold up the agent.
pub const EVENTS_CHANNEL_CAPACITY: usize = 1024;

/// What happens while an agent works. Messages, arguments and results are JSON
/// already.
#[derive(Debug, PartialEq)]
pub enum AgentEvent {
    AgentStart,
    AgentEnd { messages: Json },
    TurnStart,
    TurnEnd { message: Json, tool_results: Json },
    MessageStart { message: Json },
    /// A step of an assistant's message, or why it could not be put into JSON.
    MessageUpdate { assistant_message_event: Result<Json, String> },
    MessageEnd { message: Json },
    ToolExecutionStart { tool_call_id: String, tool_name: String, args: Json },
    ToolExecutionUpdate {
        tool_call_id: String,
        tool_name: String,
        args: Json,
        partial_result: Json,
    },
    ToolExecutionEnd { tool_call_id: String, tool_name: String, result: Json, is_error: bool },
}

/// An object that holds its type alone.
pub open spec fn typed(name: Seq<char>) -> JsonModel {
    empty_object().with("type"@, JsonModel::Text(name))
}

/// An object that holds its type and a message.
pub open spec fn error_event(message: Seq<char>) -> JsonModel {
    typed("error"@).with("message"@, JsonModel::Text(message))
}

/// An event about one call of a tool.
pub open spec fn tool_event(name: Seq<char>, id: Seq<char>, tool: Seq<char>) -> JsonModel {
    typed(name).with("id"@, JsonModel::Text(id)).with("name"@, JsonModel::Text(tool))
}

/// The JSON that a listener is sent for an event.
pub open spec fn event_model(ev: AgentEvent) -> JsonModel {
    match ev {
        AgentEvent::AgentStart => typed("agent_start"@),
        AgentEvent::AgentEnd { messages } => typed("agent_end"@).with("messages"@, messages@),
        AgentEvent::TurnStart => typed("turn_start"@),
        AgentEvent::TurnEnd { message, tool_results } => typed("turn_end"@).with(
            "message"@,
            message@,
        ).with("tool_results"@, tool_results@),
        AgentEvent::MessageStart { message } => typed("message_start"@).with("message"@, message@),
        AgentEvent::MessageUpdate { assistant_message_event } => match assistant_message_event {
            Ok(event) => event@,
            Err(e) => error_event("serialize failure: "@ + e@),
        },
        AgentEvent::MessageEnd { message } => typed("message_end"@).with("message"@, message@),
        AgentEvent::ToolExecutionStart { tool_call_id, tool_name, args } => tool_event(
            "tool_execution_start"@,
            tool_call_id@,
            tool_name@,
        ).with("args"@, args@),
        AgentEvent::ToolExecutionUpdate { tool_call_id, tool_name, args, partial_result } =>
            tool_event("tool_execution_update"@, tool_call_id@, tool_name@).with(
            "args"@,
            args@,
        ).with("partial_result"@, partial_result@),
        AgentEvent::ToolExecutionEnd { tool_call_id, tool_name, result, is_error } => tool_event(
            "tool_execution_end"@,
            tool_call_id@,
            tool_name@,
        ).with("result"@, result@).with("is_error"@, JsonModel::Bool(is_error)),
    }
}

fn typed_json(name: &str) -> (r: Json)
    ensures
        r@ == typed(name@),
{
    Json::object().with("type", Json::text_of(name))
}

fn error_json(message: &str) -> (r: Json)
    ensures
        r@ == error_event(message@),
{
    typed_json("error").with("message", Json::text_of(message))
}

fn tool_json(name: &str, id: String, tool: String) -> (r: Json)
    ensures
        r@ == tool_event(name@, id@, tool@),
{
    typed_json(name).with("id", Json::Text(id)).with("name", Json::Text(tool))
}

/// Puts an event into the JSON that the front end expects.
pub fn agent_event_to_json(ev: AgentEvent) -> (r: Json)
    ensures
        r@ == event_model(ev),
{
    match ev {
        AgentEvent::AgentStart => typed_json("agent_start"),
        AgentEvent::AgentEnd { messages } => typed_json("agent_end").with("messages", messages),
        AgentEvent::TurnStart => typed_json("turn_start"),
        AgentEvent::TurnEnd { message, tool_results } => typed_json("turn_end").with(
            "message",
            message,
        ).with("tool_results", tool_results),
        AgentEvent::MessageStart { message } => typed_json("message_start").with(
            "message",
            message,
        ),
        AgentEvent::MessageUpdate { assistant_message_event } => match assistant_message_event {
            Ok(event) => event,
            Err(e) => error_json(join("serialize failure: ", e.as_str()).as_str()),
        },
        AgentEvent::MessageEnd { message } => typed_json("message_end").with("message", message),
        AgentEvent::ToolExecutionStart { tool_call_id, tool_name, args } => tool_json(
            "tool_execution_start",
            tool_call_id,
            tool_name,
        ).with("args", args),
        AgentEvent::ToolExecutionUpdate { tool_call_id, tool_name, args, partial_result } =>
            tool_json("tool_execution_update", tool_call_id, tool_name).with("args", args).with(
            "partial_result",
            partial_result,
        ),
        AgentEvent::ToolExecutionEnd { tool_call_id, tool_name, result, is_error } => tool_json(
            "tool_execution_end",
            tool_call_id,
            tool_name,
        ).with("result", result).with("is_error", Json::Bool(is_error)),
    }
}

/// The refusal of a message that comes while the agent is at work.
pub open spec fn busy_model() -> ApiErrorModel {
    ApiErrorModel {
        status: 409,
        body: empty_object().with("error"@, JsonModel::Text("harness_busy"@)).with(
            "message"@,
            JsonModel::Text(
                "Loop is still working on a previous message. Wait for it to finish before sending another."@,
            ),
        ),
    }
}

/// Whether a message may be handed to the agent: only one at a time.
pub fn prompt_handler(idle: bool) -> (r: Result<(), ApiError>)
    ensures
        match r {
            Ok(()) => idle,
            Err(e) => !idle && e@ == busy_model(),
        },
{
    if idle {
        Ok(())
    } else {
        Err(
            ApiError {
                status: 409,
                body: Json::object().with("error", Json::text_of("harness_busy")).with(
                    "message",
                    Json::text_of(
                        "Loop is still working on a previous message. Wait for it to finish before sending another.",
                    ),
                ),
            },
        )
    }
}

/// The event that ends a listener's stream.
pub open spec fn end_event() -> JsonModel {
    typed("stream_end"@)
}

/// What is broadcast: an event, and the turn at whose end it is, if it is.
#[derive(Debug, PartialEq)]
pub struct Signal {
    pub turn: Option<u64>,
    pub event: Json,
}

pub struct SignalModel {
    pub turn: Option<u64>,
    pub event: JsonModel,
}

impl View for Signal {
    type V = SignalModel;

    open spec fn view(&self) -> SignalModel {
        SignalModel { turn: self.turn, event: self.event@ }
    }
}

/// The models of a list of signals, in order.
pub open spec fn signals_model(signals: Seq<Signal>) -> Seq<SignalModel> {
    signals.map_values(|s: Signal| s@)
}

/// What is broadcast of an event of the agent, which all listeners are sent.
pub fn agent_signal(ev: AgentEvent) -> (r: Signal)
    ensures
        r@ == (SignalModel { turn: None, event: event_model(ev) }),
{
    Signal { turn: None, event: agent_event_to_json(ev) }
}

/// What is broadcast when a turn is over, given why it failed, if it did.
pub open spec fn turn_signals_model(turn: u64, failed: Option<Seq<char>>) -> Seq<SignalModel> {
    let end = SignalModel { turn: Some(turn), event: end_event() };
    match failed {
        Some(e) => seq![SignalModel { turn: Some(turn), event: error_event(e) }, end],
        None => seq![end],
    }
}

/// What is broadcast when a turn is over.
pub fn turn_signals(turn: u64, outcome: Result<(), String>) -> (r: Vec<Signal>)
    ensures
        signals_model(r@) == turn_signals_model(
            turn,
            match outcome {
                Ok(()) => None,
                Err(e) => Some(e@),
            },
        ),
{
    let mut out: Vec<Signal> = Vec::new();
    match outcome {
        Ok(()) => {
            out.push(Signal { turn: Some(turn), event: typed_json("stream_end") });
            proof {
                assert(signals_model(out@) =~= turn_signals_model(turn, None));
            }
        },
        Err(e) => {
            out.push(Signal { turn: Some(turn), event: error_json(e.as_str()) });
            out.push(Signal { turn: Some(turn), event: typed_json("stream_end") });
            proof {
                assert(signals_model(out@) =~= turn_signals_model(turn, Some(e@)));
            }
        },
    }
    out
}

/// What a listener gets from the channel: a signal, word of how many it
/// missed, or word that there will be no more.
#[derive(Debug, PartialEq)]
pub enum Received {
    Event(Signal),
    Lagged(u64),
    Closed,
}

pub enum ReceivedModel {
    Event(SignalModel),
    Lagged(u64),
    Closed,
}

impl View for Received {
    type V = ReceivedModel;

    open spec fn view(&self) -> ReceivedModel {
        match self {
            Received::Event(s) => ReceivedModel::Event(s@),
            Received::Lagged(n) => ReceivedModel::Lagged(*n),
            Received::Closed => ReceivedModel::Closed,
        }
    }
}

/// What to do next about a listener's stream.
#[derive(Debug, PartialEq, Eq)]
pub enum StreamStep {
    /// Send this; and then end the stream, if it is the last.
    Send { data: String, last: bool },
    /// Go on without the events missed.
    Skip(u64),
    /// Go on: this is the end of another listener's turn.
    Pass,
    /// End the stream.
    Stop,
}

pub enum StreamStepModel {
    Send { data: Seq<char>, last: bool },
    Skip(u64),
    Pass,
    Stop,
}

impl View for StreamStep {
    type V = StreamStepModel;

    open spec fn view(&self) -> StreamStepModel {
        match self {
            StreamStep::Send { data, last } => StreamStepModel::Send { data: data@, last: *last },
            StreamStep::Skip(n) => StreamStepModel::Skip(*n),
            StreamStep::Pass => StreamStepModel::Pass,
            StreamStep::Stop => StreamStepModel::Stop,
        }
    }
}

/// Whether an event says that it ends a stream.
pub open spec fn is_end(event: JsonModel) -> bool {
    event.text_member("type"@) == Some("stream_end"@)
}

/// Whether a signal is the end of a turn other than `own`.
pub open spec fn is_another_end(own: u64, signal: SignalModel) -> bool {
    signal.turn is Some && signal.turn != Some(own) && is_end(signal.event)
}

/// What to do about what a listener got whose own turn is `own`.
pub open spec fn step_model(own: u64, received: ReceivedModel) -> StreamStepModel {
    match received {
        ReceivedModel::Event(s) => if is_another_end(own, s) {
            StreamStepModel::Pass
        } else {
            StreamStepModel::Send {
                data: json_text_model(s.event),
                last: s.turn == Some(own) && is_end(s.event),
            }
        },
        ReceivedModel::Lagged(n) => StreamStepModel::Skip(n),
        ReceivedModel::Closed => StreamStepModel::Stop,
    }
}

/// What to do about what a listener got whose own turn is `own`. The channel is
/// shared by all turns: the stream ends with the end of its own turn, and the
/// end of another is none of its business.
pub fn stream_step(own: u64, received: Received) -> (r: StreamStep)
    ensures
        r@ == step_model(own, received@),
{
    match received {
        Received::Event(s) => {
            let says_end = match s.event.text_member("type") {
                Some(t) => same_text(t, "stream_end"),
                None => false,
            };
            let last = match s.turn {
                Some(turn) => {
                    if says_end && turn != own {
                        return StreamStep::Pass;
                    }
                    says_end
                },
                None => false,
            };
            StreamStep::Send { data: json_text(&s.event), last }
        },
        Received::Lagged(n) => StreamStep::Skip(n),
        Received::Closed => StreamStep::Stop,
    }
}

/// A listener's stream so far: what was sent, and whether it is still open.
pub struct StreamModel {
    pub sent: Seq<Seq<char>>,
    pub open_still: bool,
}

/// The stream of a listener that got all this, in this order.
pub open spec fn stream_model(own: u64, received: Seq<ReceivedModel>) -> StreamModel
    decreases received.len(),
{
    if received.len() == 0 {
        StreamModel { sent: Seq::empty(), open_still: true }
    } else {
        let before = stream_model(own, received.drop_last());
        if !before.open_still {
            before
        } else {
            match step_model(own, received.last()) {
                StreamStepModel::Send { data, last } => StreamModel {
                    sent: before.sent.push(data),
                    open_still: !last,
                },
                StreamStepModel::Skip(_) => before,
                StreamStepModel::Pass => before,
                StreamStepModel::Stop => StreamModel { sent: before.sent, open_still: false },
            }
        }
    }
}

/// The texts of all events among these, in order, but for the ends of other
/// turns.
pub open spec fn event_texts(own: u64, received: Seq<ReceivedModel>) -> Seq<Seq<char>>
    decreases received.len(),
{
    if received.len() == 0 {
        Seq::empty()
    } else {
        let before = event_texts(own, received.drop_last());
        match received.last() {
            ReceivedModel::Event(s) => if is_another_end(own, s) {
                before
            } else {
                before.push(json_text_model(s.event))
            },
            _ => before,
        }
    }
}

/// Whether what a listener got ends its stream: the end of its own turn, or of
/// the channel.
pub open spec fn ends_stream(own: u64, received: ReceivedModel) -> bool {
    match received {
        ReceivedModel::Event(s) => s.turn == Some(own) && is_end(s.event),
        ReceivedModel::Lagged(_) => false,
        ReceivedModel::Closed => true,
    }
}

/// As long as its own turn has not ended and the channel is there, a stream is
/// open and has sent every event that its listener got, in order, but for the
/// ends of other turns. Neither those nor missed events end it.
pub proof fn law_open_stream_sends_every_event(own: u64, received: Seq<ReceivedModel>)
    requires
        forall|i: int| 0 <= i < received.len() ==> !ends_stream(own, #[trigger] received[i]),
    ensures
        stream_model(own, received).open_still,
        stream_model(own, received).sent == event_texts(own, received),
    decreases received.len(),
{
    if received.len() > 0 {
        let front = received.drop_last();
        assert forall|i: int| 0 <= i < front.len() implies !ends_stream(
            own,
            #[trigger] front[i],
        ) by {
            assert(front[i] == received[i]);
        }
        law_open_stream_sends_every_event(own, front);
        assert(!ends_stream(own, received[received.len() - 1]));
    }
}

/// A stream ends with the first thing that ends it: that is sent, if it is an
/// event, and nothing after it, whatever other turns bring.
pub proof fn law_stream_ends_at_its_end(own: u64, received: Seq<ReceivedModel>, i: int)
    requires
        0 <= i < received.len(),
        ends_stream(own, received[i]),
        forall|j: int| 0 <= j < i ==> !ends_stream(own, #[trigger] received[j]),
    ensures
        !stream_model(own, received).open_still,
        stream_model(own, received).sent == event_texts(own, received.take(i + 1)),
    decreases received.len(),
{
    let front = received.drop_last();
    if i == received.len() - 1 {
        assert forall|j: int| 0 <= j < front.len() implies !ends_stream(
            own,
            #[trigger] front[j],
        ) by {
            assert(front[j] == received[j]);
        }
        law_open_stream_sends_every_event(own, front);
        assert(received.take(i + 1) =~= received);
    } else {
        assert forall|j: int| 0 <= j < i implies !ends_stream(own, #[trigger] front[j]) by {
            assert(front[j] == received[j]);
        }
        assert(front[i] == received[i]);
        law_stream_ends_at_its_end(own, front, i);
        assert(front.take(i + 1) =~= received.take(i + 1));
    }
}

/// Every turn, failed or not, ends with the event that ends the stream, and
/// says so only once; all that it broadcasts at its end is marked as its own.
pub proof fn law_every_turn_ends_its_stream(turn: u64, failed: Option<Seq<char>>)
    ensures
        turn_signals_model(turn, failed).len() > 0,
        forall|i: int|
            0 <= i < turn_signals_model(turn, failed).len() ==> {
                let signal = #[trigger] turn_signals_model(turn, failed)[i];
                &&& signal.turn == Some(turn)
                &&& is_end(signal.event) <==> i == turn_signals_model(turn, failed).len() - 1
            },
{
    reveal_strlit("type");
    reveal_strlit("message");
    reveal_strlit("error");
    reveal_strlit("stream_end");
    assert("type"@.len() != "message"@.len());
    assert("error"@.len() != "stream_end"@.len());
}

/// The signals of a turn's end, as a listener gets them.
pub open spec fn received_signals(turn: u64, failed: Option<Seq<char>>) -> Seq<ReceivedModel> {
    turn_signals_model(turn, failed).map_values(|s: SignalModel| ReceivedModel::Event(s))
}

/// A listener is sent its turn whole: all that it got before its turn's end,
/// then the end itself, and nothing of what comes after that.
pub proof fn law_a_turn_is_sent_whole(
    own: u64,
    during: Seq<ReceivedModel>,
    failed: Option<Seq<char>>,
    later: Seq<ReceivedModel>,
)
    requires
        forall|i: int| 0 <= i < during.len() ==> !ends_stream(own, #[trigger] during[i]),
    ensures
        !stream_model(own, during + received_signals(own, failed) + later).open_still,
        stream_model(own, during + received_signals(own, failed) + later).sent == event_texts(
            own,
            during + received_signals(own, failed),
        ),
{
    let signals = received_signals(own, failed);
    let turn = during + signals;
    let all = turn + later;
    let last = turn.len() - 1;
    law_every_turn_ends_its_stream(own, failed);
    assert(is_end(turn_signals_model(own, failed)[signals.len() - 1].event));
    assert(all[last] == signals[signals.len() - 1]);
    assert forall|j: int| 0 <= j < last implies !ends_stream(own, #[trigger] all[j]) by {
        if j < during.len() {
            assert(all[j] == during[j]);
        } else {
            assert(all[j] == signals[j - during.len()]);
            assert(!is_end(turn_signals_model(own, failed)[j - during.len()].event));
        }
    }
    law_stream_ends_at_its_end(own, all, last);
    assert(all.take(last + 1) =~= turn);
}

proof fn lemma_passed_over(
    own: u64,
    head: Seq<ReceivedModel>,
    passed: ReceivedModel,
    tail: Seq<ReceivedModel>,
)
    requires
        step_model(own, passed) is Pass,
    ensures
        stream_model(own, head.push(passed) + tail) == stream_model(own, head + tail),
    decreases tail.len(),
{
    if tail.len() == 0 {
        assert(head.push(passed) + tail =~= head.push(passed));
        assert(head + tail =~= head);
        assert(head.push(passed).drop_last() =~= head);
    } else {
        lemma_passed_over(own, head, passed, tail.drop_last());
        assert((head.push(passed) + tail).drop_last() =~= head.push(passed) + tail.drop_last());
        assert((head + tail).drop_last() =~= head + tail.drop_last());
    }
}

/// The end of another request's turn makes no difference to a listener's
/// stream, whenever it comes. Why that turn failed, if it did, is sent like any
/// other event.
pub proof fn law_other_ends_make_no_difference(
    own: u64,
    other: u64,
    head: Seq<ReceivedModel>,
    failed: Option<Seq<char>>,
    tail: Seq<ReceivedModel>,
)
    requires
        own != other,
    ensures
        stream_model(own, head + received_signals(other, failed) + tail) == stream_model(
            own,
            head + received_signals(other, failed).drop_last() + tail,
        ),
        forall|i: int|
            0 <= i < received_signals(other, failed).len() ==> !ends_stream(
                own,
                #[trigger] received_signals(other, failed)[i],
            ),
        failed matches Some(e) ==> step_model(own, received_signals(other, failed)[0]) == (
        StreamStepModel::Send { data: json_text_model(error_event(e)), last: false }),
{
    let signals = received_signals(other, failed);
    law_every_turn_ends_its_stream(other, failed);
    let end = signals.last();
    assert(is_end(turn_signals_model(other, failed)[signals.len() - 1].event));
    assert(step_model(own, end) is Pass);
    assert(head + signals + tail =~= (head + signals.drop_last()).push(end) + tail);
    lemma_passed_over(own, head + signals.drop_last(), end, tail);
    if failed is Some {
        assert(!is_end(turn_signals_model(other, failed)[0].event));
    }
}

/// An event of the agent never ends a stream, whatever it says of itself: only
/// what is broadcast at a turn's end is marked with the turn.
pub proof fn law_agent_events_leave_the_stream_open(own: u64, ev: AgentEvent)
    ensures
        !ends_stream(
            own,
            ReceivedModel::Event(SignalModel { turn: None, event: event_model(ev) }),
        ),
{
}

proof fn lemma_event_keys()
    ensures
        "type"@ != "id"@,
        "type"@ != "name"@,
        "type"@ != "args"@,
        "type"@ != "result"@,
        "type"@ != "partial_result"@,
        "type"@ != "is_error"@,
        "type"@ != "message"@,
        "type"@ != "messages"@,
        "type"@ != "tool_results"@,
        "id"@ != "name"@,
        "id"@ != "args"@,
        "id"@ != "result"@,
        "id"@ != "partial_result"@,
        "id"@ != "is_error"@,
        "id"@ != "message"@,
        "id"@ != "messages"@,
        "id"@ != "tool_results"@,
        "name"@ != "args"@,
        "name"@ != "result"@,
        "name"@ != "partial_result"@,
        "name"@ != "is_error"@,
        "name"@ != "message"@,
        "name"@ != "messages"@,
        "name"@ != "tool_results"@,
        "args"@ != "result"@,
        "args"@ != "partial_result"@,
        "args"@ != "is_error"@,
        "args"@ != "message"@,
        "args"@ != "messages"@,
        "args"@ != "tool_results"@,
        "result"@ != "partial_result"@,
        "result"@ != "is_error"@,
        "result"@ != "message"@,
        "result"@ != "messages"@,
        "result"@ != "tool_results"@,
        "partial_result"@ != "is_error"@,
        "partial_result"@ != "message"@,
        "partial_result"@ != "messages"@,
        "partial_result"@ != "tool_results"@,
        "is_error"@ != "message"@,
        "is_error"@ != "messages"@,
        "is_error"@ != "tool_results"@,
        "message"@ != "messages"@,
        "message"@ != "tool_results"@,
        "messages"@ != "tool_results"@,
{
    reveal_strlit("type");
    reveal_strlit("id");
    reveal_strlit("name");
    reveal_strlit("args");
    reveal_strlit("result");
    reveal_strlit("partial_result");
    reveal_strlit("is_error");
    reveal_strlit("message");
    reveal_strlit("messages");
    reveal_strlit("tool_results");
    assert("type"@.len() != "id"@.len());
    assert("type"@[0] != "name"@[0]);
    assert("type"@[0] != "args"@[0]);
    assert("type"@.len() != "result"@.len());
    assert("type"@.len() != "partial_result"@.len());
    assert("type"@.len() != "is_error"@.len());
    assert("type"@.len() != "message"@.len());
    assert("type"@.len() != "messages"@.len());
    assert("type"@.len() != "tool_results"@.len());
    assert("id"@.len() != "name"@.len());
    assert("id"@.len() != "args"@.len());
    assert("id"@.len() != "result"@.len());
    assert("id"@.len() != "partial_result"@.len());
    assert("id"@.len() != "is_error"@.len());
    assert("id"@.len() != "message"@.len());
    assert("id"@.len() != "messages"@.len());
    assert("id"@.len() != "tool_results"@.len());
    assert("name"@[0] != "args"@[0]);
    assert("name"@.len() != "result"@.len());
    assert("name"@.len() != "partial_result"@.len());
    assert("name"@.len() != "is_error"@.len());
    assert("name"@.len() != "message"@.len());
    assert("name"@.len() != "messages"@.len());
    assert("name"@.len() != "tool_results"@.len());
    assert("args"@.len() != "result"@.len());
    assert("args"@.len() != "partial_result"@.len());
    assert("args"@.len() != "is_error"@.len());
    assert("args"@.len() != "message"@.len());
    assert("args"@.len() != "messages"@.len());
    assert("args"@.len() != "tool_results"@.len());
    assert("result"@.len() != "partial_result"@.len());
    assert("result"@.len() != "is_error"@.len());
    assert("result"@.len() != "message"@.len());
    assert("result"@.len() != "messages"@.len());
    assert("result"@.len() != "tool_results"@.len());
    assert("partial_result"@.len() != "is_error"@.len());
    assert("partial_result"@.len() != "message"@.len());
    assert("partial_result"@.len() != "messages"@.len());
    assert("partial_result"@.len() != "tool_results"@.len());
    assert("is_error"@.len() != "message"@.len());
    assert("is_error"@[0] != "messages"@[0]);
    assert("is_error"@.len() != "tool_results"@.len());
    assert("message"@.len() != "messages"@.len());
    assert("message"@.len() != "tool_results"@.len());
    assert("messages"@.len() != "tool_results"@.len());
}

/// What is told of a tool's call is what happened to it: the call's own id and
/// tool, its arguments, its result, and whether it failed; and nothing else.
pub proof fn law_tool_events_tell_the_call(ev: AgentEvent)
    ensures
        match ev {
            AgentEvent::ToolExecutionStart { tool_call_id, tool_name, args } => {
                &&& event_model(ev).text_member("type"@) == Some("tool_execution_start"@)
                &&& event_model(ev).text_member("id"@) == Some(tool_call_id@)
                &&& event_model(ev).text_member("name"@) == Some(tool_name@)
                &&& event_model(ev).member("args"@) == Some(args@)
                &&& forall|k: Seq<char>|
                    event_model(ev).member(k) is Some ==> k == "type"@ || k == "id"@ || k
                        == "name"@ || k == "args"@
            },
            AgentEvent::ToolExecutionUpdate { tool_call_id, tool_name, args, partial_result } => {
                &&& event_model(ev).text_member("type"@) == Some("tool_execution_update"@)
                &&& event_model(ev).text_member("id"@) == Some(tool_call_id@)
                &&& event_model(ev).text_member("name"@) == Some(tool_name@)
                &&& event_model(ev).member("args"@) == Some(args@)
                &&& event_model(ev).member("partial_result"@) == Some(partial_result@)
                &&& forall|k: Seq<char>|
                    event_model(ev).member(k) is Some ==> k == "type"@ || k == "id"@ || k
                        == "name"@ || k == "args"@ || k == "partial_result"@
            },
            AgentEvent::ToolExecutionEnd { tool_call_id, tool_name, result, is_error } => {
                &&& event_model(ev).text_member("type"@) == Some("tool_execution_end"@)
                &&& event_model(ev).text_member("id"@) == Some(tool_call_id@)
                &&& event_model(ev).text_member("name"@) == Some(tool_name@)
                &&& event_model(ev).member("result"@) == Some(result@)
                &&& event_model(ev).member("is_error"@) == Some(JsonModel::Bool(is_error))
                &&& forall|k: Seq<char>|
                    event_model(ev).member(k) is Some ==> k == "type"@ || k == "id"@ || k
                        == "name"@ || k == "result"@ || k == "is_error"@
            },
            _ => true,
        },
{
    lemma_event_keys();
}

/// What is told of a turn and of its messages is what happened: each message as
/// it is, with what the tools brought, and nothing else.
pub proof fn law_message_events_carry_the_message(ev: AgentEvent)
    ensures
        match ev {
            AgentEvent::AgentStart => {
                &&& event_model(ev).text_member("type"@) == Some("agent_start"@)
                &&& forall|k: Seq<char>| event_model(ev).member(k) is Some ==> k == "type"@
            },
            AgentEvent::AgentEnd { messages } => {
                &&& event_model(ev).text_member("type"@) == Some("agent_end"@)
                &&& event_model(ev).member("messages"@) == Some(messages@)
                &&& forall|k: Seq<char>|
                    event_model(ev).member(k) is Some ==> k == "type"@ || k == "messages"@
            },
            AgentEvent::TurnStart => {
                &&& event_model(ev).text_member("type"@) == Some("turn_start"@)
                &&& forall|k: Seq<char>| event_model(ev).member(k) is Some ==> k == "type"@
            },
            AgentEvent::TurnEnd { message, tool_results } => {
                &&& event_model(ev).text_member("type"@) == Some("turn_end"@)
                &&& event_model(ev).member("message"@) == Some(message@)
                &&& event_model(ev).member("tool_results"@) == Some(tool_results@)
                &&& forall|k: Seq<char>|
                    event_model(ev).member(k) is Some ==> k == "type"@ || k == "message"@ || k
                        == "tool_results"@
            },
            AgentEvent::MessageStart { message } => {
                &&& event_model(ev).text_member("type"@) == Some("message_start"@)
                &&& event_model(ev).member("message"@) == Some(message@)
                &&& forall|k: Seq<char>|
                    event_model(ev).member(k) is Some ==> k == "type"@ || k == "message"@
            },
            AgentEvent::MessageEnd { message } => {
                &&& event_model(ev).text_member("type"@) == Some("message_end"@)
                &&& event_model(ev).member("message"@) == Some(message@)
                &&& forall|k: Seq<char>|
                    event_model(ev).member(k) is Some ==> k == "type"@ || k == "message"@
            },
            _ => true,
        },
{
    lemma_event_keys();
}

/// A step of an assistant's message is passed through as it is; one that could
/// not be put into JSON becomes an error that says why.
pub proof fn law_message_steps_pass_through(step: Json, reason: String)
    ensures
        event_model(AgentEvent::MessageUpdate { assistant_message_event: Ok(step) }) == step@,
        ({
            let told = event_model(
                AgentEvent::MessageUpdate { assistant_message_event: Err(reason) },
            );
            &&& told.text_member("type"@) == Some("error"@)
            &&& told.text_member("message"@) == Some("serialize failure: "@ + reason@)
            &&& forall|k: Seq<char>|
                told.member(k) is Some ==> k == "type"@ || k == "message"@
        }),
{
    lemma_event_keys();
}

/// Where a turn failed, listeners are told why, in the failure's own words,
/// before the end; where it did not, the end is all they are told.
pub proof fn law_a_failed_turn_says_why(turn: u64, reason: Seq<char>)
    ensures
        turn_signals_model(turn, Some(reason)).len() == 2,
        turn_signals_model(turn, Some(reason))[0].event.text_member("type"@) == Some("error"@),
        turn_signals_model(turn, Some(reason))[0].event.text_member("message"@) == Some(reason),
        turn_signals_model(turn, Some(reason))[0].turn == Some(turn),
        turn_signals_model(turn, Some(reason))[1].event.text_member("type"@) == Some(
            "stream_end"@,
        ),
        turn_signals_model(turn, Some(reason))[1].turn == Some(turn),
        turn_signals_model(turn, None).len() == 1,
        turn_signals_model(turn, None)[0].event.text_member("type"@) == Some("stream_end"@),
        turn_signals_model(turn, None)[0].turn == Some(turn),
        forall|k: Seq<char>|
            turn_signals_model(turn, Some(reason))[0].event.member(k) is Some ==> k == "type"@ || k
                == "message"@,
        forall|k: Seq<char>|
            turn_signals_model(turn, None)[0].event.member(k) is Some ==> k == "type"@,
        turn_signals_model(turn, Some(reason))[1].event == turn_signals_model(
            turn,
            None,
        )[0].event,
{
    lemma_event_keys();
}

/// Every signal but the end of another turn is sent to every listener, as the
/// JSON text of its event; the last that is sent is the end of the listener's
/// own turn.
pub proof fn law_signals_reach_their_listeners(own: u64, s: SignalModel)
    ensures
        s.event.text_member("type"@) != Some("stream_end"@) || s.turn is None ==> step_model(
            own,
            ReceivedModel::Event(s),
        ) == (StreamStepModel::Send { data: json_text_model(s.event), last: false }),
        s.event.text_member("type"@) == Some("stream_end"@) && s.turn == Some(own) ==> step_model(
            own,
            ReceivedModel::Event(s),
        ) == (StreamStepModel::Send { data: json_text_model(s.event), last: true }),
        s.event.text_member("type"@) == Some("stream_end"@) && s.turn is Some && s.turn->0 != own
            ==> step_model(own, ReceivedModel::Event(s)) is Pass,
{
}

/// What one more thing does to a stream. An open stream grows by the text of an
/// event that comes, and by nothing else; it closes at its own turn's end and
/// where the channel closes. Missed events and the end of another turn leave it
/// as it is, and nothing changes a closed one.
pub proof fn law_a_stream_grows_by_what_comes(
    own: u64,
    received: Seq<ReceivedModel>,
    next: ReceivedModel,
)
    ensures
        ({
            let before = stream_model(own, received);
            let after = stream_model(own, received.push(next));
            match next {
                ReceivedModel::Lagged(_) => after == before,
                ReceivedModel::Closed => after.sent == before.sent && !after.open_still,
                ReceivedModel::Event(s) => {
                    let end = s.event.text_member("type"@) == Some("stream_end"@);
                    if !before.open_still || (end && s.turn is Some && s.turn->0 != own) {
                        after == before
                    } else {
                        &&& after.sent == before.sent.push(json_text_model(s.event))
                        &&& after.open_still <==> !(end && s.turn == Some(own))
                    }
                },
            }
        }),
        stream_model(own, Seq::empty()).open_still,
        stream_model(own, Seq::empty()).sent.len() == 0,
{
    assert(received.push(next).drop_last() =~= received);
}

/// Missed events are counted as they were missed.
pub proof fn law_missed_events_are_counted(own: u64, n: u64)
    ensures
        step_model(own, ReceivedModel::Lagged(n)) == StreamStepModel::Skip(n),
        step_model(own, ReceivedModel::Closed) is Stop,
{
}

/// Nothing of a signal, of what a listener got, or of what is done about it is
/// left out of what is said of it.
pub proof fn law_signals_are_told_apart(
    a: Signal,
    b: Signal,
    ra: Received,
    rb: Received,
    sa: StreamStep,
    sb: StreamStep,
)
    ensures
        a@ == b@ ==> a.turn == b.turn && a.event@ == b.event@,
        ra@ == rb@ ==> match (ra, rb) {
            (Received::Event(x), Received::Event(y)) => x@ == y@,
            (Received::Lagged(x), Received::Lagged(y)) => x == y,
            (Received::Closed, Received::Closed) => true,
            _ => false,
        },
        sa@ == sb@ ==> match (sa, sb) {
            (StreamStep::Send { data: x, last: p }, StreamStep::Send { data: y, last: q }) => x@
                == y@ && p == q,
            (StreamStep::Skip(x), StreamStep::Skip(y)) => x == y,
            (StreamStep::Pass, StreamStep::Pass) => true,
            (StreamStep::Stop, StreamStep::Stop) => true,
            _ => false,
        },
{
}

/// A list of signals is said to be what its signals are, one by one.
pub proof fn law_signals_are_listed_one_by_one(signals: Seq<Signal>)
    ensures
        signals_model(signals).len() == signals.len(),
        forall|i: int|
            0 <= i < signals.len() ==> #[trigger] signals_model(signals)[i] == signals[i]@,
{
}

} // verus!
