//! The event bus.
//!
//! Under load, presentation events may be dropped and semantic events may not. Which is which is
//! decided in one place.

use vstd::prelude::*;

use crate::error::{NeedsInput, NeedsInputView, ToolError, ToolErrorView};
use crate::ids::{AgentPath, CallId, RunId, SeqId, ToolName, TurnId};
use crate::item::{copy_names, name_texts};
use crate::json::{Json, JsonView};
use crate::text::{dec, push_decimal, same_text, group_mentions, mentions};
use crate::usage::{CostEstimate, Usage, UsageTotals, UsageTotalsView};

verus! {

/// A diagnostic for the user: what happened, what it costs, what to do.
#[derive(Debug, PartialEq, Eq, Hash)]
#[non_exhaustive]
pub enum Warning {
    /// A segment that should have been stable changed, so its cached prefix was thrown away.
    CacheChurn {
        /// Which segment, by its human label.
        segment: String,
        /// How many tokens are being rewritten each turn.
        tokens: u32,
        /// What to do about it.
        advice: String,
    },
    /// The prefix is shorter than the model's minimum cacheable length.
    BelowMinPrefix {
        /// What the prefix measures.
        have: u32,
        /// What the model needs.
        need: u32,
    },
    /// A requested capability is missing, and a fallback is in use.
    Degraded {
        /// What was wanted.
        capability: String,
        /// What is happening instead.
        fallback: String,
    },
    /// The router served this call from a different provider than the last one.
    RouteChanged {
        /// The previous provider.
        from: String,
        /// The new one.
        to: String,
    },
    /// The context budget is nearly exhausted and eviction has begun.
    BudgetPressure {
        /// Percentage of the budget used, at most 100.
        used_percent: u8,
        /// What was evicted or summarised.
        action: String,
    },
    /// A turn added more content blocks than the provider looks back through.
    LookbackExceeded {
        /// How many blocks the turn added.
        blocks: u32,
        /// How far back the provider searches.
        limit: u32,
    },
    /// Presentation events were dropped to keep up.
    EventsDropped {
        /// How many.
        count: u64,
    },
    /// One model response asked for more tool calls than the run permits in a single turn.
    ToolCallsCapped {
        /// How many the model asked for.
        requested: u32,
        /// How many were permitted.
        cap: u32,
    },
}

/// What a warning says.
pub enum WarningView {
    CacheChurn { segment: Seq<char>, tokens: u32, advice: Seq<char> },
    BelowMinPrefix { have: u32, need: u32 },
    Degraded { capability: Seq<char>, fallback: Seq<char> },
    RouteChanged { from: Seq<char>, to: Seq<char> },
    BudgetPressure { used_percent: u8, action: Seq<char> },
    LookbackExceeded { blocks: u32, limit: u32 },
    EventsDropped { count: u64 },
    ToolCallsCapped { requested: u32, cap: u32 },
}

impl DeepView for Warning {
    type V = WarningView;

    open spec fn deep_view(&self) -> WarningView {
        match *self {
            Warning::CacheChurn { segment, tokens, advice } => WarningView::CacheChurn {
                segment: segment@,
                tokens,
                advice: advice@,
            },
            Warning::BelowMinPrefix { have, need } => WarningView::BelowMinPrefix { have, need },
            Warning::Degraded { capability, fallback } => WarningView::Degraded {
                capability: capability@,
                fallback: fallback@,
            },
            Warning::RouteChanged { from, to } => WarningView::RouteChanged {
                from: from@,
                to: to@,
            },
            Warning::BudgetPressure { used_percent, action } => WarningView::BudgetPressure {
                used_percent,
                action: action@,
            },
            Warning::LookbackExceeded { blocks, limit } => WarningView::LookbackExceeded {
                blocks,
                limit,
            },
            Warning::EventsDropped { count } => WarningView::EventsDropped { count },
            Warning::ToolCallsCapped { requested, cap } => WarningView::ToolCallsCapped {
                requested,
                cap,
            },
        }
    }
}

impl Clone for Warning {
    fn clone(&self) -> (r: Self)
        ensures
            r == *self,
    {
        match self {
            Warning::CacheChurn { segment, tokens, advice } => Warning::CacheChurn {
                segment: segment.clone(),
                tokens: *tokens,
                advice: advice.clone(),
            },
            Warning::BelowMinPrefix { have, need } => Warning::BelowMinPrefix {
                have: *have,
                need: *need,
            },
            Warning::Degraded { capability, fallback } => Warning::Degraded {
                capability: capability.clone(),
                fallback: fallback.clone(),
            },
            Warning::RouteChanged { from, to } => Warning::RouteChanged {
                from: from.clone(),
                to: to.clone(),
            },
            Warning::BudgetPressure { used_percent, action } => Warning::BudgetPressure {
                used_percent: *used_percent,
                action: action.clone(),
            },
            Warning::LookbackExceeded { blocks, limit } => Warning::LookbackExceeded {
                blocks: *blocks,
                limit: *limit,
            },
            Warning::EventsDropped { count } => Warning::EventsDropped { count: *count },
            Warning::ToolCallsCapped { requested, cap } => Warning::ToolCallsCapped {
                requested: *requested,
                cap: *cap,
            },
        }
    }
}

/// A warning as one sentence for a person.
pub open spec fn warning_text(w: WarningView) -> Seq<char> {
    match w {
        WarningView::CacheChurn { segment, tokens, advice } => "cache churn: `"@ + segment
            + "` changed and took "@ + dec(tokens as nat) + " cached tokens with it, every turn. "@
            + advice,
        WarningView::BelowMinPrefix { have, need } =>
            "caching is doing nothing: the prefix is "@ + dec(have as nat)
            + " tokens and this model needs "@ + dec(need as nat)
            + ". Providers do not report this, so nothing else will tell you."@,
        WarningView::Degraded { capability, fallback } => "no "@ + capability + " here; "@
            + fallback,
        WarningView::RouteChanged { from, to } => "the router moved this call from "@ + from
            + " to "@ + to
            + ", which changes the tokenizer, the price, and whether the cache still exists"@,
        WarningView::BudgetPressure { used_percent, action } => "context "@ + dec(
            used_percent as nat,
        ) + "% full; "@ + action,
        WarningView::LookbackExceeded { blocks, limit } => "that turn added "@ + dec(blocks as nat)
            + " blocks and this provider looks back "@ + dec(limit as nat)
            + ", so the next request misses the cache entirely — with no error from anyone"@,
        WarningView::EventsDropped { count } => dec(count as nat)
            + " presentation event(s) dropped to keep up"@,
        WarningView::ToolCallsCapped { requested, cap } => "the model asked for "@ + dec(
            requested as nat,
        ) + " tool calls in one response and "@ + dec(cap as nat)
            + " were permitted; the rest were refused, not silently dropped"@,
    }
}

impl Warning {
    /// The warning as one sentence for a person.
    #[must_use]
    pub fn to_string(&self) -> (r: String)
        ensures
            r@ == warning_text(self.deep_view()),
    {
        match self {
            Warning::CacheChurn { segment, tokens, advice } => {
                let mut s = "cache churn: `".to_owned();
                s.push_str(segment.as_str());
                s.push_str("` changed and took ");
                push_decimal(&mut s, *tokens as u64);
                s.push_str(" cached tokens with it, every turn. ");
                s.push_str(advice.as_str());
                s
            },
            Warning::BelowMinPrefix { have, need } => {
                let mut s = "caching is doing nothing: the prefix is ".to_owned();
                push_decimal(&mut s, *have as u64);
                s.push_str(" tokens and this model needs ");
                push_decimal(&mut s, *need as u64);
                s.push_str(". Providers do not report this, so nothing else will tell you.");
                s
            },
            Warning::Degraded { capability, fallback } => {
                let mut s = "no ".to_owned();
                s.push_str(capability.as_str());
                s.push_str(" here; ");
                s.push_str(fallback.as_str());
                s
            },
            Warning::RouteChanged { from, to } => {
                let mut s = "the router moved this call from ".to_owned();
                s.push_str(from.as_str());
                s.push_str(" to ");
                s.push_str(to.as_str());
                s.push_str(
                    ", which changes the tokenizer, the price, and whether the cache still exists",
                );
                s
            },
            Warning::BudgetPressure { used_percent, action } => {
                let mut s = "context ".to_owned();
                push_decimal(&mut s, *used_percent as u64);
                s.push_str("% full; ");
                s.push_str(action.as_str());
                s
            },
            Warning::LookbackExceeded { blocks, limit } => {
                let mut s = "that turn added ".to_owned();
                push_decimal(&mut s, *blocks as u64);
                s.push_str(" blocks and this provider looks back ");
                push_decimal(&mut s, *limit as u64);
                s.push_str(
                    ", so the next request misses the cache entirely — with no error from anyone",
                );
                s
            },
            Warning::EventsDropped { count } => {
                let mut s = String::new();
                push_decimal(&mut s, *count);
                s.push_str(" presentation event(s) dropped to keep up");
                assert(s@ == dec(*count as nat) + " presentation event(s) dropped to keep up"@);
                s
            },
            Warning::ToolCallsCapped { requested, cap } => {
                let mut s = "the model asked for ".to_owned();
                push_decimal(&mut s, *requested as u64);
                s.push_str(" tool calls in one response and ");
                push_decimal(&mut s, *cap as u64);
                s.push_str(" were permitted; the rest were refused, not silently dropped");
                s
            },
        }
    }
}

impl Warning {
    /// Whether two warnings say the same.
    pub fn same(&self, other: &Warning) -> (r: bool)
        ensures
            r == (self.deep_view() == other.deep_view()),
    {
        match (self, other) {
            (
                Warning::CacheChurn { segment, tokens, advice },
                Warning::CacheChurn { segment: s, tokens: t, advice: a },
            ) => same_text(segment.as_str(), s.as_str()) && *tokens == *t && same_text(
                advice.as_str(),
                a.as_str(),
            ),
            (
                Warning::BelowMinPrefix { have, need },
                Warning::BelowMinPrefix { have: h, need: n },
            ) => *have == *h && *need == *n,
            (
                Warning::Degraded { capability, fallback },
                Warning::Degraded { capability: c, fallback: f },
            ) => same_text(capability.as_str(), c.as_str()) && same_text(
                fallback.as_str(),
                f.as_str(),
            ),
            (Warning::RouteChanged { from, to }, Warning::RouteChanged { from: f, to: t }) => {
                same_text(from.as_str(), f.as_str()) && same_text(to.as_str(), t.as_str())
            },
            (
                Warning::BudgetPressure { used_percent, action },
                Warning::BudgetPressure { used_percent: u, action: a },
            ) => *used_percent == *u && same_text(action.as_str(), a.as_str()),
            (
                Warning::LookbackExceeded { blocks, limit },
                Warning::LookbackExceeded { blocks: b, limit: l },
            ) => *blocks == *b && *limit == *l,
            (Warning::EventsDropped { count }, Warning::EventsDropped { count: c }) => *count == *c,
            (
                Warning::ToolCallsCapped { requested, cap },
                Warning::ToolCallsCapped { requested: r, cap: c },
            ) => *requested == *r && *cap == *c,
            _ => false,
        }
    }
}

/// Each distinct warning once, in the order it first appeared.
pub open spec fn distinct(w: Seq<WarningView>) -> Seq<WarningView>
    decreases w.len(),
{
    if w.len() == 0 {
        Seq::empty()
    } else {
        let kept = distinct(w.drop_last());
        if kept.contains(w.last()) {
            kept
        } else {
            kept.push(w.last())
        }
    }
}

fn holds_warning(warnings: &Vec<Warning>, warning: &Warning) -> (r: bool)
    ensures
        r == warnings.deep_view().contains(warning.deep_view()),
{
    let mut i: usize = 0;
    while i < warnings.len()
        invariant
            i <= warnings@.len(),
            forall|j: int| 0 <= j < i ==> warnings.deep_view()[j] != warning.deep_view(),
        decreases warnings@.len() - i,
    {
        assert(warnings.deep_view()[i as int] == warnings@[i as int].deep_view());
        if warnings[i].same(warning) {
            return true;
        }
        i = i + 1;
    }
    false
}

/// Each distinct warning once, in the order it first appeared. The same warning on every turn is
/// noise.
pub fn dedup_warnings(warnings: Vec<Warning>) -> (r: Vec<Warning>)
    ensures
        r.deep_view() == distinct(warnings.deep_view()),
{
    let ghost all = warnings.deep_view();
    let mut kept: Vec<Warning> = Vec::new();
    assert(kept.deep_view() == distinct(all.take(0)));
    for warning in it: warnings
        invariant
            all == Seq::new(it.seq().len(), |i: int| it.seq()[i].deep_view()),
            it.index() <= it.seq().len(),
            kept.deep_view() == distinct(all.take(it.index() as int)),
    {
        proof {
            let i = it.index() as int;
            assert(all.take(i + 1).drop_last() == all.take(i));
            assert(all.take(i + 1).last() == warning.deep_view());
        }
        if !holds_warning(&kept, &warning) {
            let ghost before = kept.deep_view();
            kept.push(warning);
            assert(kept.deep_view() == before.push(warning.deep_view()));
        }
    }
    assert(all.take(all.len() as int) == all);
    kept
}

/// Whether `i` is where a warning of `w` first appears.
pub open spec fn first_at(w: Seq<WarningView>, x: WarningView, i: int) -> bool {
    &&& 0 <= i < w.len()
    &&& w[i] == x
    &&& forall|j: int| 0 <= j < i ==> w[j] != x
}

/// No warning is reported twice, every warning is reported, nothing else is, and they stand in the
/// order in which each first appeared.
pub proof fn distinct_warnings_differ(w: Seq<WarningView>)
    ensures
        forall|i: int, j: int|
            0 <= i < j < distinct(w).len() ==> #[trigger] distinct(w)[i] != #[trigger] distinct(w)[j],
        forall|x: WarningView| #[trigger] distinct(w).contains(x) <==> w.contains(x),
        forall|i: int, j: int, a: int, b: int|
            0 <= i < j < distinct(w).len() && #[trigger] first_at(w, distinct(w)[i], a)
                && #[trigger] first_at(w, distinct(w)[j], b) ==> a < b,
    decreases w.len(),
{
    if w.len() > 0 {
        let up = w.drop_last();
        let kept = distinct(up);
        distinct_warnings_differ(up);
        assert forall|x: WarningView| #[trigger] distinct(w).contains(x) <==> w.contains(x) by {
            if w.contains(x) {
                let k = choose|k: int| 0 <= k < w.len() && w[k] == x;
                if k < up.len() {
                    assert(up[k] == x);
                    assert(kept.contains(x));
                    let m = choose|m: int| 0 <= m < kept.len() && kept[m] == x;
                    assert(distinct(w)[m] == x);
                } else if !kept.contains(x) {
                    assert(distinct(w)[kept.len() as int] == x);
                } else {
                    assert(distinct(w) == kept);
                }
            }
            if distinct(w).contains(x) {
                let m = choose|m: int| 0 <= m < distinct(w).len() && distinct(w)[m] == x;
                if m < kept.len() {
                    assert(kept[m] == x);
                    assert(kept.contains(x));
                    assert(up.contains(x));
                    let k = choose|k: int| 0 <= k < up.len() && up[k] == x;
                    assert(w[k] == x);
                } else {
                    assert(w[w.len() - 1] == x);
                }
            }
        }
        assert forall|i: int, j: int, a: int, b: int|
            0 <= i < j < distinct(w).len() && #[trigger] first_at(w, distinct(w)[i], a)
                && #[trigger] first_at(w, distinct(w)[j], b) implies a < b by {
            let x = distinct(w)[i];
            let y = distinct(w)[j];
            assert(kept[i] == x);
            assert(kept.contains(x));
            assert(up.contains(x));
            let k = choose|k: int| 0 <= k < up.len() && up[k] == x;
            assert(w[k] == x);
            assert(first_at(up, x, a));
            if j < kept.len() {
                assert(kept[j] == y);
                assert(kept.contains(y));
                assert(up.contains(y));
                let n = choose|n: int| 0 <= n < up.len() && up[n] == y;
                assert(w[n] == y);
                assert(first_at(up, y, b));
            } else if b < up.len() {
                assert(up[b] == y);
                assert(up.contains(y));
                assert(kept.contains(y));
            }
        }
    }
}

/// What happened.
#[derive(Debug, PartialEq, Eq)]
#[non_exhaustive]
pub enum EventKind {
    /// A run began.
    RunStarted {
        /// Which run.
        run: RunId,
    },
    /// A turn began.
    TurnStarted {
        /// Which turn.
        turn: TurnId,
    },
    /// A chunk of assistant text. Droppable.
    TextDelta {
        /// The chunk.
        text: String,
    },
    /// A chunk of reasoning. Droppable.
    ReasoningDelta {
        /// The chunk.
        text: String,
    },
    /// A tool call started.
    ToolCallStarted {
        /// Correlation id.
        call: CallId,
        /// Which tool.
        name: ToolName,
        /// A truncated rendering of the arguments, for display.
        args_preview: String,
    },
    /// A tool call finished successfully.
    ToolCallFinished {
        /// Correlation id.
        call: CallId,
        /// How long it took, in milliseconds.
        millis: u64,
        /// How many bytes were hidden from the model.
        bytes_elided: u64,
    },
    /// A tool call failed or was denied.
    ToolCallFailed {
        /// Correlation id.
        call: CallId,
        /// What went wrong. Carries all three audiences.
        error: ToolError,
    },
    /// Capabilities entered the context.
    Discovered {
        /// What was found.
        found: Vec<ToolName>,
        /// How.
        via: String,
    },
    /// The run cannot continue without something from outside it.
    NeedsInput(NeedsInput),
    /// A JSON Patch against the shared state.
    StateDelta {
        /// The patch.
        patch: Json,
    },
    /// A model call reported its usage.
    UsageUpdated {
        /// What that call consumed.
        usage: Usage,
    },
    /// A diagnostic worth surfacing.
    Warned {
        /// The diagnostic.
        warning: Warning,
    },
    /// The run ended.
    RunFinished {
        /// Everything it consumed.
        totals: UsageTotals,
        /// What it cost, when that can be said.
        cost: Option<CostEstimate>,
    },
}

/// What happened.
pub enum EventKindView {
    RunStarted { run: Seq<char> },
    TurnStarted { turn: TurnId },
    TextDelta { text: Seq<char> },
    ReasoningDelta { text: Seq<char> },
    ToolCallStarted { call: Seq<char>, name: Seq<char>, args_preview: Seq<char> },
    ToolCallFinished { call: Seq<char>, millis: u64, bytes_elided: u64 },
    ToolCallFailed { call: Seq<char>, error: ToolErrorView },
    Discovered { found: Seq<Seq<char>>, via: Seq<char> },
    NeedsInput(NeedsInputView),
    StateDelta { patch: JsonView },
    UsageUpdated { usage: Usage },
    Warned { warning: WarningView },
    RunFinished { totals: UsageTotalsView, cost: Option<CostEstimate> },
}

impl View for EventKind {
    type V = EventKindView;

    open spec fn view(&self) -> EventKindView {
        match *self {
            EventKind::RunStarted { run } => EventKindView::RunStarted { run: run@ },
            EventKind::TurnStarted { turn } => EventKindView::TurnStarted { turn },
            EventKind::TextDelta { text } => EventKindView::TextDelta { text: text@ },
            EventKind::ReasoningDelta { text } => EventKindView::ReasoningDelta { text: text@ },
            EventKind::ToolCallStarted { call, name, args_preview } => {
                EventKindView::ToolCallStarted {
                    call: call@,
                    name: name@,
                    args_preview: args_preview@,
                }
            },
            EventKind::ToolCallFinished { call, millis, bytes_elided } => {
                EventKindView::ToolCallFinished { call: call@, millis, bytes_elided }
            },
            EventKind::ToolCallFailed { call, error } => EventKindView::ToolCallFailed {
                call: call@,
                error: error@,
            },
            EventKind::Discovered { found, via } => EventKindView::Discovered {
                found: name_texts(found@),
                via: via@,
            },
            EventKind::NeedsInput(n) => EventKindView::NeedsInput(n@),
            EventKind::StateDelta { patch } => EventKindView::StateDelta { patch: patch@ },
            EventKind::UsageUpdated { usage } => EventKindView::UsageUpdated { usage },
            EventKind::Warned { warning } => EventKindView::Warned { warning: warning.deep_view() },
            EventKind::RunFinished { totals, cost } => EventKindView::RunFinished {
                totals: totals@,
                cost,
            },
        }
    }
}

impl EventKindView {
    /// Whether an event of this kind may be dropped under backpressure: the two presentation
    /// deltas, and nothing else.
    pub open spec fn droppable(self) -> bool {
        self is TextDelta || self is ReasoningDelta
    }
}

/// An event, with everything needed to place it in a tree and a timeline.
#[derive(Debug, PartialEq, Eq)]
pub struct Event {
    /// Position in the journal. Monotonic per run.
    pub seq: SeqId,
    /// Which agent emitted it.
    pub agent: AgentPath,
    /// What happened.
    pub kind: EventKind,
}

/// An event.
#[verifier::ext_equal]
pub struct EventView {
    pub seq: SeqId,
    pub agent: Seq<Seq<char>>,
    pub kind: EventKindView,
}

impl View for Event {
    type V = EventView;

    open spec fn view(&self) -> EventView {
        EventView { seq: self.seq, agent: self.agent@, kind: self.kind@ }
    }
}

impl DeepView for Event {
    type V = EventView;

    open spec fn deep_view(&self) -> EventView {
        self@
    }
}

impl Event {
    /// An event from the root agent.
    #[must_use]
    pub fn root(seq: SeqId, kind: EventKind) -> (r: Self)
        ensures
            r@ == (EventView { seq, agent: Seq::empty(), kind: kind@ }),
            r.kind == kind,
    {
        Event { seq, agent: AgentPath::root(), kind }
    }

    /// Whether this event may be dropped under backpressure.
    ///
    /// Only the two presentation deltas. Everything else changes the meaning of the transcript.
    #[must_use]
    pub fn is_droppable(&self) -> (r: bool)
        ensures
            r == self@.kind.droppable(),
    {
        self.kind.is_droppable()
    }
}

impl EventKind {
    /// Whether this event may be dropped under backpressure.
    #[must_use]
    pub fn is_droppable(&self) -> (r: bool)
        ensures
            r == self@.droppable(),
    {
        matches!(self, EventKind::TextDelta { .. } | EventKind::ReasoningDelta { .. })
    }

    /// Whether this event must be written to the journal for replay to be faithful.
    ///
    /// Deltas are reconstructible from the final message.
    #[must_use]
    pub fn is_semantic(&self) -> (r: bool)
        ensures
            r == !self@.droppable(),
    {
        !self.is_droppable()
    }
}

impl Clone for EventKind {
    fn clone(&self) -> (r: Self)
        ensures
            r@ == self@,
    {
        match self {
            EventKind::RunStarted { run } => EventKind::RunStarted { run: run.clone() },
            EventKind::TurnStarted { turn } => EventKind::TurnStarted { turn: *turn },
            EventKind::TextDelta { text } => EventKind::TextDelta { text: text.clone() },
            EventKind::ReasoningDelta { text } => EventKind::ReasoningDelta { text: text.clone() },
            EventKind::ToolCallStarted { call, name, args_preview } => EventKind::ToolCallStarted {
                call: call.clone(),
                name: name.clone(),
                args_preview: args_preview.clone(),
            },
            EventKind::ToolCallFinished { call, millis, bytes_elided } => {
                EventKind::ToolCallFinished {
                    call: call.clone(),
                    millis: *millis,
                    bytes_elided: *bytes_elided,
                }
            },
            EventKind::ToolCallFailed { call, error } => EventKind::ToolCallFailed {
                call: call.clone(),
                error: error.clone(),
            },
            EventKind::Discovered { found, via } => EventKind::Discovered {
                found: copy_names(found),
                via: via.clone(),
            },
            EventKind::NeedsInput(n) => EventKind::NeedsInput(n.clone()),
            EventKind::StateDelta { patch } => EventKind::StateDelta { patch: patch.copy() },
            EventKind::UsageUpdated { usage } => EventKind::UsageUpdated { usage: usage.clone() },
            EventKind::Warned { warning } => EventKind::Warned { warning: warning.clone() },
            EventKind::RunFinished { totals, cost } => EventKind::RunFinished {
                totals: totals.clone(),
                cost: *cost,
            },
        }
    }
}

impl Clone for Event {
    fn clone(&self) -> (r: Self)
        ensures
            r@ == self@,
    {
        Event { seq: self.seq, agent: self.agent.clone(), kind: self.kind.clone() }
    }
}

/// The text of a warning holds what it warns of: every number and every name in it.
pub proof fn warnings_say_what_happened(w: WarningView)
    ensures
        match w {
            WarningView::CacheChurn { segment, tokens, advice } => mentions(warning_text(w), segment)
                && mentions(warning_text(w), dec(tokens as nat)) && mentions(
                warning_text(w),
                advice,
            ),
            WarningView::BelowMinPrefix { have, need } => mentions(warning_text(w), dec(have as nat))
                && mentions(warning_text(w), dec(need as nat)),
            WarningView::Degraded { capability, fallback } => mentions(warning_text(w), capability)
                && mentions(warning_text(w), fallback),
            WarningView::RouteChanged { from, to } => mentions(warning_text(w), from) && mentions(
                warning_text(w),
                to,
            ),
            WarningView::BudgetPressure { used_percent, action } => mentions(
                warning_text(w),
                dec(used_percent as nat),
            ) && mentions(warning_text(w), action),
            WarningView::LookbackExceeded { blocks, limit } => mentions(
                warning_text(w),
                dec(blocks as nat),
            ) && mentions(warning_text(w), dec(limit as nat)),
            WarningView::EventsDropped { count } => mentions(warning_text(w), dec(count as nat)),
            WarningView::ToolCallsCapped { requested, cap } => mentions(
                warning_text(w),
                dec(requested as nat),
            ) && mentions(warning_text(w), dec(cap as nat)),
        },
{
    broadcast use group_mentions;

}

/// No warning is lost and none is said twice: what is kept are the warnings that were there, each
/// once.
pub proof fn no_warning_is_lost(w: Seq<WarningView>, x: WarningView)
    ensures
        distinct(w).contains(x) <==> w.contains(x),
        distinct(w).no_duplicates(),
    decreases w.len(),
{
    if w.len() > 0 {
        let less = w.drop_last();
        no_warning_is_lost(less, x);
        no_warning_is_lost(less, w.last());
        let kept = distinct(less);
        if w.contains(x) && x != w.last() {
            let i = choose|i: int| 0 <= i < w.len() && w[i] == x;
            assert(less[i] == x);
        }
        if less.contains(x) {
            let i = choose|i: int| 0 <= i < less.len() && less[i] == x;
            assert(w[i] == x);
        }
        if !kept.contains(w.last()) {
            assert(distinct(w) == kept.push(w.last()));
            assert(distinct(w)[kept.len() as int] == w.last());
            if kept.contains(x) {
                let k = choose|k: int| 0 <= k < kept.len() && kept[k] == x;
                assert(distinct(w)[k] == x);
            }
        }
        assert(w[w.len() - 1] == w.last());
    }
}

} // verus!
