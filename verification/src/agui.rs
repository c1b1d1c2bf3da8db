//! What a frontend sees of a run: the internal events, projected onto the wire.

use vstd::prelude::*;

use crate::error::{DiagnosticView, ToolErrorView};
use crate::event::{Event, EventKind, EventKindView, EventView, Warning, WarningView};
use crate::ids::path_text;
use crate::json::{documents_stand_on_one_line, int_view, json_with, no_fields, numbers_unbroken, render, uint_view, unbroken, Json, JsonView, a_field_that_is_set_reads_back};
use crate::text::{as_lines, lines, lines_round_trip, one_line};
use crate::usage::UsageTotalsView;

verus! {

/// One frame.
#[derive(Debug, Clone, PartialEq, Eq)]
pub struct Frame {
    /// The event name a frontend switches on.
    pub name: &'static str,
    /// Its payload.
    pub data: Json,
}

/// One frame.
#[verifier::ext_equal]
pub struct FrameView {
    pub name: Seq<char>,
    pub data: JsonView,
}

impl View for Frame {
    type V = FrameView;

    open spec fn view(&self) -> FrameView {
        FrameView { name: self.name@, data: self.data@ }
    }
}

impl DeepView for Frame {
    type V = FrameView;

    open spec fn deep_view(&self) -> FrameView {
        self@
    }
}

/// A frame as a server-sent event.
pub open spec fn sse_text(f: FrameView) -> Seq<char> {
    "event: "@ + f.name + "\ndata: "@ + render(f.data) + "\n\n"@
}

/// A frame is one event: a line with its name, a line with its data, and the blank line that ends it.
/// No other line of it is blank, so no frame runs into the next.
pub proof fn a_frame_is_one_event(f: FrameView)
    requires
        unbroken(f.name),
        numbers_unbroken(f.data),
    ensures
        lines(sse_text(f)) == seq!["event: "@ + f.name, "data: "@ + render(f.data), Seq::empty()],
{
    documents_stand_on_one_line(f.data);
    reveal_strlit("event: ");
    reveal_strlit("data: ");
    reveal_strlit("\ndata: ");
    reveal_strlit("\n\n");
    let first = "event: "@ + f.name;
    let second = "data: "@ + render(f.data);
    let parts = seq![first, second, Seq::<char>::empty()];
    assert(unbroken("event: "@) && unbroken("data: "@));
    assert(unbroken(first) && unbroken(second));
    assert forall|i: int| 0 <= i < parts.len() implies one_line(#[trigger] parts[i]) by {
        assert(unbroken(parts[i]));
    }
    reveal_with_fuel(as_lines, 4);
    assert(parts.drop_last() == seq![first, second]);
    assert(parts.drop_last().drop_last() == seq![first]);
    assert(parts.drop_last().drop_last().drop_last() == Seq::<Seq<char>>::empty());
    assert(as_lines(parts) == sse_text(f));
    lines_round_trip(parts);
}

impl Frame {
    /// Render as a server-sent event.
    #[must_use]
    pub fn to_sse(&self) -> (r: String)
        ensures
            r@ == sse_text(self@),
    {
        let mut out = "event: ".to_owned();
        out.push_str(self.name);
        out.push_str("\ndata: ");
        out.push_str(self.data.to_string().as_str());
        out.push_str("\n\n");
        out
    }
}

/// A warning on the wire.
pub open spec fn warning_data(w: WarningView) -> JsonView {
    match w {
        WarningView::CacheChurn { segment, tokens, advice } => json_with(
            json_with(
                json_with(
                    json_with(no_fields(), "kind"@, JsonView::Text("cache_churn"@)),
                    "segment"@,
                    JsonView::Text(segment),
                ),
                "tokens"@,
                uint_view(tokens as u64),
            ),
            "advice"@,
            JsonView::Text(advice),
        ),
        WarningView::BelowMinPrefix { have, need } => json_with(
            json_with(
                json_with(no_fields(), "kind"@, JsonView::Text("below_min_prefix"@)),
                "have"@,
                uint_view(have as u64),
            ),
            "need"@,
            uint_view(need as u64),
        ),
        WarningView::Degraded { capability, fallback } => json_with(
            json_with(
                json_with(no_fields(), "kind"@, JsonView::Text("degraded"@)),
                "capability"@,
                JsonView::Text(capability),
            ),
            "fallback"@,
            JsonView::Text(fallback),
        ),
        WarningView::RouteChanged { from, to } => json_with(
            json_with(
                json_with(no_fields(), "kind"@, JsonView::Text("route_changed"@)),
                "from"@,
                JsonView::Text(from),
            ),
            "to"@,
            JsonView::Text(to),
        ),
        WarningView::BudgetPressure { used_percent, action } => json_with(
            json_with(
                json_with(no_fields(), "kind"@, JsonView::Text("budget_pressure"@)),
                "used_percent"@,
                uint_view(used_percent as u64),
            ),
            "action"@,
            JsonView::Text(action),
        ),
        WarningView::LookbackExceeded { blocks, limit } => json_with(
            json_with(
                json_with(no_fields(), "kind"@, JsonView::Text("lookback_exceeded"@)),
                "blocks"@,
                uint_view(blocks as u64),
            ),
            "limit"@,
            uint_view(limit as u64),
        ),
        WarningView::EventsDropped { count } => json_with(
            json_with(no_fields(), "kind"@, JsonView::Text("events_dropped"@)),
            "count"@,
            uint_view(count),
        ),
        WarningView::ToolCallsCapped { requested, cap } => json_with(
            json_with(
                json_with(no_fields(), "kind"@, JsonView::Text("tool_calls_capped"@)),
                "requested"@,
                uint_view(requested as u64),
            ),
            "cap"@,
            uint_view(cap as u64),
        ),
    }
}

fn kinded(kind: &str) -> (r: Json)
    ensures
        r@ == json_with(no_fields(), "kind"@, JsonView::Text(kind@)),
{
    Json::empty().with("kind", Json::text(kind))
}

/// A warning on the wire.
pub fn warning_json(w: &Warning) -> (r: Json)
    ensures
        r@ == warning_data(w.deep_view()),
{
    match w {
        Warning::CacheChurn { segment, tokens, advice } => kinded("cache_churn").with(
            "segment",
            Json::text(segment.as_str()),
        ).with("tokens", Json::natural(*tokens as u64)).with("advice", Json::text(advice.as_str())),
        Warning::BelowMinPrefix { have, need } => kinded("below_min_prefix").with(
            "have",
            Json::natural(*have as u64),
        ).with("need", Json::natural(*need as u64)),
        Warning::Degraded { capability, fallback } => kinded("degraded").with(
            "capability",
            Json::text(capability.as_str()),
        ).with("fallback", Json::text(fallback.as_str())),
        Warning::RouteChanged { from, to } => kinded("route_changed").with(
            "from",
            Json::text(from.as_str()),
        ).with("to", Json::text(to.as_str())),
        Warning::BudgetPressure { used_percent, action } => kinded("budget_pressure").with(
            "used_percent",
            Json::natural(*used_percent as u64),
        ).with("action", Json::text(action.as_str())),
        Warning::LookbackExceeded { blocks, limit } => kinded("lookback_exceeded").with(
            "blocks",
            Json::natural(*blocks as u64),
        ).with("limit", Json::natural(*limit as u64)),
        Warning::EventsDropped { count } => kinded("events_dropped").with(
            "count",
            Json::natural(*count),
        ),
        Warning::ToolCallsCapped { requested, cap } => kinded("tool_calls_capped").with(
            "requested",
            Json::natural(*requested as u64),
        ).with("cap", Json::natural(*cap as u64)),
    }
}

/// What a person is told about a failure: the sentence for users where there is one, and otherwise
/// what the model is told.
pub open spec fn shown_to_user(e: ToolErrorView) -> Seq<char> {
    match e.user {
        Some(m) => m,
        None => e.model.summary,
    }
}

/// A cost on the wire. One that was never reported is absent rather than zero.
pub open spec fn cost_data(totals: UsageTotalsView) -> JsonView {
    match totals.reported_cost {
        Some(c) => int_view(c.micros),
        None => JsonView::Null,
    }
}

/// The frame for an event, where a frontend has a use for it. Turn boundaries, usage updates and
/// discoveries are bookkeeping.
pub open spec fn projected(agent: Seq<char>, kind: EventKindView) -> Option<FrameView> {
    let who = JsonView::Text(agent);
    match kind {
        EventKindView::RunStarted { run } => Some(
            FrameView {
                name: "RUN_STARTED"@,
                data: json_with(
                    json_with(no_fields(), "runId"@, JsonView::Text(run)),
                    "agent"@,
                    who,
                ),
            },
        ),
        EventKindView::TextDelta { text } => Some(
            FrameView {
                name: "TEXT_MESSAGE_CONTENT"@,
                data: json_with(
                    json_with(no_fields(), "delta"@, JsonView::Text(text)),
                    "agent"@,
                    who,
                ),
            },
        ),
        EventKindView::ReasoningDelta { text } => Some(
            FrameView {
                name: "THINKING_CONTENT"@,
                data: json_with(
                    json_with(no_fields(), "delta"@, JsonView::Text(text)),
                    "agent"@,
                    who,
                ),
            },
        ),
        EventKindView::ToolCallStarted { call, name, args_preview } => Some(
            FrameView {
                name: "TOOL_CALL_START"@,
                data: json_with(
                    json_with(
                        json_with(
                            json_with(no_fields(), "toolCallId"@, JsonView::Text(call)),
                            "toolName"@,
                            JsonView::Text(name),
                        ),
                        "args"@,
                        JsonView::Text(args_preview),
                    ),
                    "agent"@,
                    who,
                ),
            },
        ),
        EventKindView::ToolCallFinished { call, millis, bytes_elided } => Some(
            FrameView {
                name: "TOOL_CALL_END"@,
                data: json_with(
                    json_with(
                        json_with(
                            json_with(no_fields(), "toolCallId"@, JsonView::Text(call)),
                            "durationMs"@,
                            uint_view(millis),
                        ),
                        "bytesElided"@,
                        uint_view(bytes_elided),
                    ),
                    "agent"@,
                    who,
                ),
            },
        ),
        EventKindView::ToolCallFailed { call, error } => Some(
            FrameView {
                name: "TOOL_CALL_ERROR"@,
                data: json_with(
                    json_with(
                        json_with(no_fields(), "toolCallId"@, JsonView::Text(call)),
                        "message"@,
                        JsonView::Text(shown_to_user(error)),
                    ),
                    "agent"@,
                    who,
                ),
            },
        ),
        EventKindView::NeedsInput(needs) => Some(
            FrameView {
                name: "INTERRUPT"@,
                data: json_with(
                    json_with(
                        json_with(no_fields(), "token"@, JsonView::Text(needs.token)),
                        "requests"@,
                        uint_view(needs.requests.len() as u64),
                    ),
                    "agent"@,
                    who,
                ),
            },
        ),
        EventKindView::StateDelta { patch } => Some(
            FrameView { name: "STATE_DELTA"@, data: json_with(no_fields(), "patch"@, patch) },
        ),
        EventKindView::Warned { warning } => Some(
            FrameView { name: "WARNING"@, data: warning_data(warning) },
        ),
        EventKindView::RunFinished { totals, .. } => Some(
            FrameView {
                name: "RUN_FINISHED"@,
                data: json_with(
                    json_with(
                        json_with(no_fields(), "agent"@, who),
                        "unmeteredCalls"@,
                        uint_view(totals.unmetered_calls as u64),
                    ),
                    "cost"@,
                    cost_data(totals),
                ),
            },
        ),
        EventKindView::TurnStarted { .. } => None,
        EventKindView::Discovered { .. } => None,
        EventKindView::UsageUpdated { .. } => None,
    }
}

/// Project an internal event onto the wire. Nothing for an event that a frontend has no use for.
#[must_use]
pub fn project(event: &Event) -> (r: Option<Frame>)
    ensures
        match r {
            Some(f) => projected(path_text(event@.agent), event@.kind) == Some(f@),
            None => projected(path_text(event@.agent), event@.kind) is None,
        },
{
    let agent = event.agent.to_string();
    let who = Json::text(agent.as_str());
    match &event.kind {
        EventKind::RunStarted { run } => Some(
            Frame {
                name: "RUN_STARTED",
                data: Json::empty().with("runId", Json::text(run.as_str())).with("agent", who),
            },
        ),
        EventKind::TextDelta { text } => Some(
            Frame {
                name: "TEXT_MESSAGE_CONTENT",
                data: Json::empty().with("delta", Json::text(text.as_str())).with("agent", who),
            },
        ),
        EventKind::ReasoningDelta { text } => Some(
            Frame {
                name: "THINKING_CONTENT",
                data: Json::empty().with("delta", Json::text(text.as_str())).with("agent", who),
            },
        ),
        EventKind::ToolCallStarted { call, name, args_preview } => Some(
            Frame {
                name: "TOOL_CALL_START",
                data: Json::empty().with("toolCallId", Json::text(call.as_str())).with(
                    "toolName",
                    Json::text(name.as_str()),
                ).with("args", Json::text(args_preview.as_str())).with("agent", who),
            },
        ),
        EventKind::ToolCallFinished { call, millis, bytes_elided } => Some(
            Frame {
                name: "TOOL_CALL_END",
                data: Json::empty().with("toolCallId", Json::text(call.as_str())).with(
                    "durationMs",
                    Json::natural(*millis),
                ).with("bytesElided", Json::natural(*bytes_elided)).with("agent", who),
            },
        ),
        EventKind::ToolCallFailed { call, error } => {
            let message = match error.user() {
                Some(p) => p.message.clone(),
                None => error.model().summary.clone(),
            };
            Some(
                Frame {
                    name: "TOOL_CALL_ERROR",
                    data: Json::empty().with("toolCallId", Json::text(call.as_str())).with(
                        "message",
                        Json::text(message.as_str()),
                    ).with("agent", who),
                },
            )
        },
        EventKind::NeedsInput(needs) => Some(
            Frame {
                name: "INTERRUPT",
                data: Json::empty().with("token", Json::text(needs.token.as_str())).with(
                    "requests",
                    Json::natural(needs.requests.len() as u64),
                ).with("agent", who),
            },
        ),
        EventKind::StateDelta { patch } => Some(
            Frame { name: "STATE_DELTA", data: Json::empty().with("patch", patch.copy()) },
        ),
        EventKind::Warned { warning } => Some(
            Frame { name: "WARNING", data: warning_json(warning) },
        ),
        EventKind::RunFinished { totals, .. } => {
            let cost = match totals.reported_cost {
                Some(c) => Json::integer(c.micros),
                None => Json::Null,
            };
            Some(
                Frame {
                    name: "RUN_FINISHED",
                    data: Json::empty().with("agent", who).with(
                        "unmeteredCalls",
                        Json::natural(totals.unmetered_calls as u64),
                    ).with("cost", cost),
                },
            )
        },
        _ => None,
    }
}

/// The frames of a stream of events for a consumer that takes `capacity` of them: what a frontend
/// has a use for, and past the capacity only what may not be dropped.
pub open spec fn streamed(events: Seq<EventView>, capacity: nat) -> Seq<FrameView>
    decreases events.len(),
{
    if events.len() == 0 {
        Seq::empty()
    } else {
        let before = streamed(events.drop_last(), capacity);
        match projected(path_text(events.last().agent), events.last().kind) {
            Some(f) => if before.len() >= capacity && events.last().kind.droppable() {
                before
            } else {
                before.push(f)
            },
            None => before,
        }
    }
}

/// How many frames such a stream leaves out for want of room.
pub open spec fn left_out(events: Seq<EventView>, capacity: nat) -> nat
    decreases events.len(),
{
    if events.len() == 0 {
        0
    } else {
        let before = left_out(events.drop_last(), capacity);
        if projected(path_text(events.last().agent), events.last().kind) is Some && streamed(
            events.drop_last(),
            capacity,
        ).len() >= capacity && events.last().kind.droppable() {
            before + 1
        } else {
            before
        }
    }
}

/// Project a stream of events, honouring the drop rule.
///
/// Presentation frames may be dropped when a consumer cannot keep up; semantic ones may not. The
/// count of what went is returned so lag is diagnosable.
#[must_use]
pub fn project_stream(events: &[Event], capacity: usize) -> (r: (Vec<Frame>, u64))
    ensures
        r.0.deep_view() == streamed(events.deep_view(), capacity as nat),
        r.1 == left_out(events.deep_view(), capacity as nat),
{
    let ghost all = events.deep_view();
    let mut frames: Vec<Frame> = Vec::new();
    let mut dropped: u64 = 0;
    let mut i: usize = 0;
    assert(frames.deep_view() == streamed(all.take(0), capacity as nat));
    while i < events.len()
        invariant
            i <= events@.len(),
            all == events.deep_view(),
            frames.deep_view() == streamed(all.take(i as int), capacity as nat),
            dropped == left_out(all.take(i as int), capacity as nat),
            dropped <= i,
        decreases events@.len() - i,
    {
        assert(all.take(i + 1).drop_last() == all.take(i as int));
        assert(all.take(i + 1).last() == events@[i as int]@);
        assert(frames.deep_view().len() == frames@.len());
        if let Some(frame) = project(&events[i]) {
            if frames.len() >= capacity && events[i].is_droppable() {
                dropped = dropped + 1;
            } else {
                let ghost before = frames.deep_view();
                let ghost f = frame@;
                frames.push(frame);
                assert(frames.deep_view() == before.push(f));
            }
        }
        i = i + 1;
    }
    assert(all.take(all.len() as int) == all);
    (frames, dropped)
}

/// Every event of a stream that a frontend has a use for is shown or counted as left out, and
/// whatever the pressure, the frame of an event that may not be dropped is shown.
pub proof fn frames_are_shown_or_counted(events: Seq<EventView>, capacity: nat)
    ensures
        streamed(events, capacity).len() + left_out(events, capacity) == streamed(
            events,
            events.len(),
        ).len(),
        forall|i: int|
            0 <= i < events.len() && !(#[trigger] events[i]).kind.droppable() && projected(
                path_text(events[i].agent),
                events[i].kind,
            ) is Some ==> streamed(events, capacity).contains(
                projected(path_text(events[i].agent), events[i].kind)->0,
            ),
        events.len() <= capacity ==> left_out(events, capacity) == 0,
    decreases events.len(),
{
    room_for_all(events, events.len());
    if events.len() > 0 {
        let rest = events.drop_last();
        frames_are_shown_or_counted(rest, capacity);
        room_for_all(rest, events.len());
        room_for_all(rest, (events.len() - 1) as nat);
        let before = streamed(rest, capacity);
        let all = streamed(events, capacity);
        assert forall|i: int|
            0 <= i < events.len() && !(#[trigger] events[i]).kind.droppable() && projected(
                path_text(events[i].agent),
                events[i].kind,
            ) is Some implies all.contains(
            projected(path_text(events[i].agent), events[i].kind)->0,
        ) by {
            let f = projected(path_text(events[i].agent), events[i].kind)->0;
            if i < rest.len() {
                assert(rest[i] == events[i]);
                assert(before.contains(f));
                let k = choose|k: int| 0 <= k < before.len() && before[k] == f;
                assert(all[k] == f);
            } else {
                assert(all[all.len() - 1] == f);
            }
        }
    }
    if events.len() <= capacity {
        room_for_all(events, capacity);
    }
}

spec fn useful(events: Seq<EventView>) -> nat
    decreases events.len(),
{
    if events.len() == 0 {
        0
    } else if projected(path_text(events.last().agent), events.last().kind) is Some {
        useful(events.drop_last()) + 1
    } else {
        useful(events.drop_last())
    }
}

proof fn room_for_all(events: Seq<EventView>, capacity: nat)
    requires
        events.len() <= capacity,
    ensures
        streamed(events, capacity).len() == useful(events),
        useful(events) <= events.len(),
        left_out(events, capacity) == 0,
    decreases events.len(),
{
    if events.len() > 0 {
        room_for_all(events.drop_last(), capacity);
    }
}

/// What an operator is told about a failure never reaches a frontend: another diagnostic gives the
/// same frame.
pub proof fn operator_detail_never_reaches_the_frontend(
    agent: Seq<char>,
    call: Seq<char>,
    error: ToolErrorView,
    detail: DiagnosticView,
)
    ensures
        projected(agent, EventKindView::ToolCallFailed { call, error }) == projected(
            agent,
            EventKindView::ToolCallFailed {
                call,
                error: ToolErrorView { operator: detail, ..error },
            },
        ),
{
}

/// Whether an event is shown as a frame of a name with a field.
pub open spec fn shows(
    frame: Option<FrameView>,
    name: Seq<char>,
    field: Seq<char>,
    value: JsonView,
) -> bool {
    frame is Some && frame->0.name == name && frame->0.data.get(field) == Some(value)
}

/// A frame carries what happened and who did it: the text as it came in, the call it is about, how
/// long it took, and what is left open. Turns, discoveries and running counts have no frame.
pub proof fn frames_carry_what_happened(agent: Seq<char>, kind: EventKindView)
    ensures
        ({
            let frame = projected(agent, kind);
            let who = JsonView::Text(agent);
            match kind {
                EventKindView::RunStarted { run } => shows(
                    frame,
                    "RUN_STARTED"@,
                    "runId"@,
                    JsonView::Text(run),
                ) && shows(frame, "RUN_STARTED"@, "agent"@, who),
                EventKindView::TextDelta { text } => shows(
                    frame,
                    "TEXT_MESSAGE_CONTENT"@,
                    "delta"@,
                    JsonView::Text(text),
                ) && shows(frame, "TEXT_MESSAGE_CONTENT"@, "agent"@, who),
                EventKindView::ReasoningDelta { text } => shows(
                    frame,
                    "THINKING_CONTENT"@,
                    "delta"@,
                    JsonView::Text(text),
                ) && shows(frame, "THINKING_CONTENT"@, "agent"@, who),
                EventKindView::ToolCallStarted { call, name, args_preview } => shows(
                    frame,
                    "TOOL_CALL_START"@,
                    "toolCallId"@,
                    JsonView::Text(call),
                ) && shows(frame, "TOOL_CALL_START"@, "toolName"@, JsonView::Text(name)) && shows(
                    frame,
                    "TOOL_CALL_START"@,
                    "args"@,
                    JsonView::Text(args_preview),
                ) && shows(frame, "TOOL_CALL_START"@, "agent"@, who),
                EventKindView::ToolCallFinished { call, millis, bytes_elided } => shows(
                    frame,
                    "TOOL_CALL_END"@,
                    "toolCallId"@,
                    JsonView::Text(call),
                ) && shows(frame, "TOOL_CALL_END"@, "durationMs"@, uint_view(millis)) && shows(
                    frame,
                    "TOOL_CALL_END"@,
                    "bytesElided"@,
                    uint_view(bytes_elided),
                ) && shows(frame, "TOOL_CALL_END"@, "agent"@, who),
                EventKindView::ToolCallFailed { call, error } => shows(
                    frame,
                    "TOOL_CALL_ERROR"@,
                    "toolCallId"@,
                    JsonView::Text(call),
                ) && shows(
                    frame,
                    "TOOL_CALL_ERROR"@,
                    "message"@,
                    JsonView::Text(
                        match error.user {
                            Some(m) => m,
                            None => error.model.summary,
                        },
                    ),
                ) && shows(frame, "TOOL_CALL_ERROR"@, "agent"@, who),
                EventKindView::NeedsInput(needs) => shows(
                    frame,
                    "INTERRUPT"@,
                    "token"@,
                    JsonView::Text(needs.token),
                ) && shows(
                    frame,
                    "INTERRUPT"@,
                    "requests"@,
                    uint_view(needs.requests.len() as u64),
                ) && shows(frame, "INTERRUPT"@, "agent"@, who),
                EventKindView::StateDelta { patch } => shows(frame, "STATE_DELTA"@, "patch"@, patch),
                EventKindView::Warned { warning } => frame is Some && frame->0.name == "WARNING"@
                    && frame->0.data == warning_data(warning),
                EventKindView::RunFinished { totals, .. } => shows(
                    frame,
                    "RUN_FINISHED"@,
                    "unmeteredCalls"@,
                    uint_view(totals.unmetered_calls as u64),
                ) && shows(
                    frame,
                    "RUN_FINISHED"@,
                    "cost"@,
                    match totals.reported_cost {
                        Some(c) => int_view(c.micros),
                        None => JsonView::Null,
                    },
                ) && shows(frame, "RUN_FINISHED"@, "agent"@, who),
                EventKindView::TurnStarted { .. }
                | EventKindView::Discovered { .. }
                | EventKindView::UsageUpdated { .. } => frame is None,
            }
        }),
{
    broadcast use a_field_that_is_set_reads_back;

    frame_fields_differ();
}

/// A warning's data says which warning it is and carries all that it warns of.
pub proof fn warnings_reach_the_frontend(w: WarningView)
    ensures
        ({
            let data = warning_data(w);
            match w {
                WarningView::CacheChurn { segment, tokens, advice } => data.get_str("kind"@) == Some(
                    "cache_churn"@,
                ) && data.get_str("segment"@) == Some(segment) && data.get("tokens"@) == Some(
                    uint_view(tokens as u64),
                ) && data.get_str("advice"@) == Some(advice),
                WarningView::BelowMinPrefix { have, need } => data.get_str("kind"@) == Some(
                    "below_min_prefix"@,
                ) && data.get("have"@) == Some(uint_view(have as u64)) && data.get("need"@) == Some(
                    uint_view(need as u64),
                ),
                WarningView::Degraded { capability, fallback } => data.get_str("kind"@) == Some(
                    "degraded"@,
                ) && data.get_str("capability"@) == Some(capability) && data.get_str("fallback"@)
                    == Some(fallback),
                WarningView::RouteChanged { from, to } => data.get_str("kind"@) == Some(
                    "route_changed"@,
                ) && data.get_str("from"@) == Some(from) && data.get_str("to"@) == Some(to),
                WarningView::BudgetPressure { used_percent, action } => data.get_str("kind"@)
                    == Some("budget_pressure"@) && data.get("used_percent"@) == Some(
                    uint_view(used_percent as u64),
                ) && data.get_str("action"@) == Some(action),
                WarningView::LookbackExceeded { blocks, limit } => data.get_str("kind"@) == Some(
                    "lookback_exceeded"@,
                ) && data.get("blocks"@) == Some(uint_view(blocks as u64)) && data.get("limit"@)
                    == Some(uint_view(limit as u64)),
                WarningView::EventsDropped { count } => data.get_str("kind"@) == Some(
                    "events_dropped"@,
                ) && data.get("count"@) == Some(uint_view(count)),
                WarningView::ToolCallsCapped { requested, cap } => data.get_str("kind"@) == Some(
                    "tool_calls_capped"@,
                ) && data.get("requested"@) == Some(uint_view(requested as u64)) && data.get("cap"@)
                    == Some(uint_view(cap as u64)),
            }
        }),
{
    broadcast use a_field_that_is_set_reads_back;

    warning_fields_differ();
}

proof fn frame_fields_differ()
    ensures
        "runId"@ != "agent"@,
        "delta"@ != "agent"@,
        "toolCallId"@ != "agent"@,
        "toolName"@ != "agent"@,
        "args"@ != "agent"@,
        "toolCallId"@ != "toolName"@,
        "toolCallId"@ != "args"@,
        "toolName"@ != "args"@,
        "durationMs"@ != "agent"@,
        "bytesElided"@ != "agent"@,
        "toolCallId"@ != "durationMs"@,
        "toolCallId"@ != "bytesElided"@,
        "durationMs"@ != "bytesElided"@,
        "message"@ != "agent"@,
        "toolCallId"@ != "message"@,
        "token"@ != "requests"@,
        "token"@ != "agent"@,
        "requests"@ != "agent"@,
        "unmeteredCalls"@ != "agent"@,
        "cost"@ != "agent"@,
        "unmeteredCalls"@ != "cost"@,
{
    reveal_strlit("runId");
    reveal_strlit("agent");
    reveal_strlit("delta");
    reveal_strlit("toolCallId");
    reveal_strlit("toolName");
    reveal_strlit("args");
    reveal_strlit("durationMs");
    reveal_strlit("bytesElided");
    reveal_strlit("message");
    reveal_strlit("token");
    reveal_strlit("requests");
    reveal_strlit("unmeteredCalls");
    reveal_strlit("cost");
    assert("runId"@[0] != "agent"@[0]);
    assert("delta"@[0] != "agent"@[0]);
    assert("toolCallId"@.len() != "agent"@.len());
    assert("toolName"@.len() != "agent"@.len());
    assert("args"@.len() != "agent"@.len());
    assert("toolCallId"@.len() != "toolName"@.len());
    assert("toolCallId"@.len() != "args"@.len());
    assert("toolName"@.len() != "args"@.len());
    assert("durationMs"@.len() != "agent"@.len());
    assert("bytesElided"@.len() != "agent"@.len());
    assert("toolCallId"@[0] != "durationMs"@[0]);
    assert("toolCallId"@.len() != "bytesElided"@.len());
    assert("durationMs"@.len() != "bytesElided"@.len());
    assert("message"@.len() != "agent"@.len());
    assert("toolCallId"@.len() != "message"@.len());
    assert("token"@.len() != "requests"@.len());
    assert("token"@[0] != "agent"@[0]);
    assert("requests"@.len() != "agent"@.len());
    assert("unmeteredCalls"@.len() != "agent"@.len());
    assert("cost"@.len() != "agent"@.len());
    assert("unmeteredCalls"@.len() != "cost"@.len());
}

proof fn warning_fields_differ()
    ensures
        "kind"@ != "segment"@,
        "kind"@ != "tokens"@,
        "kind"@ != "advice"@,
        "segment"@ != "tokens"@,
        "segment"@ != "advice"@,
        "tokens"@ != "advice"@,
        "kind"@ != "have"@,
        "kind"@ != "need"@,
        "have"@ != "need"@,
        "kind"@ != "capability"@,
        "kind"@ != "fallback"@,
        "capability"@ != "fallback"@,
        "kind"@ != "from"@,
        "kind"@ != "to"@,
        "from"@ != "to"@,
        "kind"@ != "used_percent"@,
        "kind"@ != "action"@,
        "used_percent"@ != "action"@,
        "kind"@ != "blocks"@,
        "kind"@ != "limit"@,
        "blocks"@ != "limit"@,
        "kind"@ != "count"@,
        "kind"@ != "requested"@,
        "kind"@ != "cap"@,
        "requested"@ != "cap"@,
{
    reveal_strlit("kind");
    reveal_strlit("segment");
    reveal_strlit("tokens");
    reveal_strlit("advice");
    reveal_strlit("have");
    reveal_strlit("need");
    reveal_strlit("capability");
    reveal_strlit("fallback");
    reveal_strlit("from");
    reveal_strlit("to");
    reveal_strlit("used_percent");
    reveal_strlit("action");
    reveal_strlit("blocks");
    reveal_strlit("limit");
    reveal_strlit("count");
    reveal_strlit("requested");
    reveal_strlit("cap");
    assert("kind"@.len() != "segment"@.len());
    assert("kind"@.len() != "tokens"@.len());
    assert("kind"@.len() != "advice"@.len());
    assert("segment"@.len() != "tokens"@.len());
    assert("segment"@.len() != "advice"@.len());
    assert("tokens"@[0] != "advice"@[0]);
    assert("kind"@[0] != "have"@[0]);
    assert("kind"@[0] != "need"@[0]);
    assert("have"@[0] != "need"@[0]);
    assert("kind"@.len() != "capability"@.len());
    assert("kind"@.len() != "fallback"@.len());
    assert("capability"@.len() != "fallback"@.len());
    assert("kind"@[0] != "from"@[0]);
    assert("kind"@.len() != "to"@.len());
    assert("from"@.len() != "to"@.len());
    assert("kind"@.len() != "used_percent"@.len());
    assert("kind"@.len() != "action"@.len());
    assert("used_percent"@.len() != "action"@.len());
    assert("kind"@.len() != "blocks"@.len());
    assert("kind"@.len() != "limit"@.len());
    assert("blocks"@.len() != "limit"@.len());
    assert("kind"@.len() != "count"@.len());
    assert("kind"@.len() != "requested"@.len());
    assert("kind"@.len() != "cap"@.len());
    assert("requested"@.len() != "cap"@.len());
}

/// Frames come in the order of the events: with room for all of them, the frames of one stretch of
/// events stand behind those of the stretch before.
pub proof fn frames_keep_the_order_of_events(a: Seq<EventView>, b: Seq<EventView>, one: EventView)
    ensures
        streamed(a + b, a.len() + b.len()) == streamed(a, a.len()) + streamed(b, b.len()),
        match projected(path_text(one.agent), one.kind) {
            Some(frame) => streamed(seq![one], 1) == seq![frame],
            None => streamed(seq![one], 1).len() == 0,
        },
    decreases b.len(),
{
    reveal_with_fuel(streamed, 2);
    assert(seq![one].drop_last() == Seq::<EventView>::empty());
    assert(streamed(Seq::<EventView>::empty(), 1).len() == 0);
    if b.len() == 0 {
        assert(a + b == a);
    } else {
        let n = a.len() + b.len();
        frames_keep_the_order_of_events(a, b.drop_last(), one);
        room_makes_no_difference(a + b.drop_last(), n, (n - 1) as nat);
        room_makes_no_difference(b.drop_last(), b.len(), (b.len() - 1) as nat);
        assert((a + b).drop_last() == a + b.drop_last());
        assert((a + b).last() == b.last());
        assert(a.len() + b.drop_last().len() == n - 1);
    }
}

proof fn room_makes_no_difference(events: Seq<EventView>, capacity: nat, other: nat)
    requires
        events.len() <= capacity,
        events.len() <= other,
    ensures
        streamed(events, capacity) == streamed(events, other),
        streamed(events, capacity).len() <= events.len(),
    decreases events.len(),
{
    if events.len() > 0 {
        room_makes_no_difference(events.drop_last(), capacity, other);
    }
}

} // verus!
