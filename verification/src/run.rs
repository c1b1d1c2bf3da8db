//! The agent loop, as a machine that decides and leaves the asking and calling to its driver.
//!
//! Each turn is the same five steps: build segments from what the model will see, fit them to the
//! budget, plan the cache against what is left, ask the model and record what came back, and run
//! the tools that it asked for. The driver performs the two steps that leave the machine, asking
//! and calling, and hands back what came of them.

use vstd::prelude::*;

use crate::budget::{fitted, pressure, protected_list, Budgeter, ContextBudget, DoesNotFit, Floors};
use crate::cache::{capped, check_lookback, hashes_of, plan_of, token_sum, CachePlanner, PreviousPrompt, LOOKBACK_BLOCKS};
use crate::capability::{CapabilityView, GrantSet};
use crate::error::{opt_text, plain_error, ModelMessageView, ToolError, ToolErrorKind, ToolErrorView, ToolOutcome};
use crate::event::{dedup_warnings, distinct, Event, EventKind, EventKindView, EventView, Warning, WarningView};
use crate::ids::{ModelId, RunId, SeqId, SessionId};
use crate::item::{calls_among, copy_items, copy_turns, one_text, tool_calls_of, Caller, Item, ItemView, Role, ToolCallItem, ToolCallView, ToolResultItem, Turn, TurnView};
use crate::journal::{a_recorded_run_replays, answers_left, effect_for, effect_of, empty_journal, fingerprint_of, next_answer, noted, other_effects_record_no_exchange, place, recorded, records, replayed, Effect, EffectView, Journal, JournalView, ReplayErrorView};
use crate::json::Json;
use crate::prompt::{measurable, segment_views, segments_can_be_fitted, segments_of, try_segments};
use crate::provider::{Effort, ProviderError, provider_error_text, Request, RequestView, Response, ResponseView, StopReason};
use crate::provider_caps::{lesser, ProviderCapabilities};
use crate::segment::{CacheMark, ContentHash, Segment};
use crate::taint::{Provenance, ProvenanceView};
use crate::text::{dec, joined, push_decimal, same_text, group_mentions, mentions};
use crate::tool::{Invocation, ToolContent, ToolCx, ToolValue};
use crate::tool_def::{copy_definitions, ToolDefinition, ToolDefinitionView};
use crate::usage::{no_usage, CostEstimate, PricingSource, UsageTotals, UsageTotalsView};

verus! {

/// Why a run ended.
#[derive(Debug, PartialEq, Eq)]
#[non_exhaustive]
pub enum RunError {
    /// The provider failed in a way that ends the run.
    Provider(ProviderError),
    /// The prompt could not be made to fit.
    Budget(DoesNotFit),
    /// The loop hit its turn limit.
    TurnLimit {
        /// The limit that was hit.
        limit: u32,
    },
    /// The run needs something from outside it and nothing was there to supply it.
    NeedsInput {
        /// What was wanted.
        what: String,
    },
}

/// A run error in words.
pub open spec fn run_error_text(e: RunError) -> Seq<char> {
    match e {
        RunError::Provider(p) => provider_error_text(p),
        RunError::Budget(b) => "the prompt needs "@ + dec(b.needed as nat) + " tokens but only "@
            + dec(b.available as nat) + " are available, and everything left is protected: "@
            + b.protected@ + ". Raise the window, lower reserve_output, or shrink the tool block."@,
        RunError::TurnLimit { limit } => "the agent used all "@ + dec(limit as nat)
            + " turns without finishing. Raise max_turns, or look at the transcript for a loop: repeating the same failing tool call is the usual cause."@,
        RunError::NeedsInput { what } => "the run needs input ("@ + what@
            + ") and no approval handler was configured"@,
    }
}

impl RunError {
    /// The error in words.
    pub fn to_string(&self) -> (r: String)
        ensures
            r@ == run_error_text(*self),
    {
        match self {
            RunError::Provider(p) => p.to_string(),
            RunError::Budget(b) => b.to_string(),
            RunError::TurnLimit { limit } => {
                let mut out = "the agent used all ".to_owned();
                push_decimal(&mut out, *limit as u64);
                out.push_str(
                    " turns without finishing. Raise max_turns, or look at the transcript for a loop: repeating the same failing tool call is the usual cause.",
                );
                out
            },
            RunError::NeedsInput { what } => {
                let mut out = "the run needs input (".to_owned();
                out.push_str(what.as_str());
                out.push_str(") and no approval handler was configured");
                out
            },
        }
    }
}

/// What a finished run produced.
#[derive(Debug)]
pub struct RunOutput {
    /// The final assistant turn.
    pub items: Vec<Item>,
    /// Everything the run consumed.
    pub totals: UsageTotals,
    /// What it cost, when that can be said without inventing a number.
    pub cost: Option<CostEstimate>,
    /// The full record.
    pub journal: Journal,
    /// Diagnostics worth surfacing.
    pub warnings: Vec<Warning>,
}

/// What a finished run produced.
#[verifier::ext_equal]
pub struct RunOutputView {
    pub items: Seq<ItemView>,
    pub totals: UsageTotalsView,
    pub cost: Option<CostEstimate>,
    pub journal: JournalView,
    pub warnings: Seq<WarningView>,
}

impl View for RunOutput {
    type V = RunOutputView;

    open spec fn view(&self) -> RunOutputView {
        RunOutputView {
            items: self.items.deep_view(),
            totals: self.totals@,
            cost: self.cost,
            journal: self.journal@,
            warnings: self.warnings.deep_view(),
        }
    }
}

/// The text among some items, one piece after the other.
pub open spec fn text_among(items: Seq<ItemView>) -> Seq<char>
    decreases items.len(),
{
    if items.len() == 0 {
        Seq::empty()
    } else {
        match items.last() {
            ItemView::Text { text, .. } => text_among(items.drop_last()) + text,
            _ => text_among(items.drop_last()),
        }
    }
}

impl RunOutput {
    /// The assistant's text, concatenated.
    #[must_use]
    pub fn text(&self) -> (r: String)
        ensures
            r@ == text_among(self@.items),
    {
        let mut out = String::new();
        let ghost all = self@.items;
        let mut i: usize = 0;
        while i < self.items.len()
            invariant
                i <= self.items@.len(),
                all == self.items.deep_view(),
                out@ == text_among(all.take(i as int)),
            decreases self.items@.len() - i,
        {
            assert(all.take(i + 1).drop_last() == all.take(i as int));
            assert(all.take(i + 1).last() == self.items@[i as int]@);
            if let Item::Text(t) = &self.items[i] {
                out.push_str(t.text.as_str());
            }
            i = i + 1;
        }
        assert(all.take(all.len() as int) == all);
        out
    }
}

/// An agent: a model, a system prompt, and how long it may go on.
#[derive(Debug)]
pub struct Agent {
    model: ModelId,
    system: Option<String>,
    max_turns: u32,
    session: SessionId,
}

/// What an agent is.
#[verifier::ext_equal]
pub struct AgentView {
    pub model: Seq<char>,
    pub system: Option<Seq<char>>,
    pub max_turns: u32,
    pub session: Seq<char>,
}

impl View for Agent {
    type V = AgentView;

    closed spec fn view(&self) -> AgentView {
        AgentView {
            model: self.model@,
            system: opt_text(self.system),
            max_turns: self.max_turns,
            session: self.session@,
        }
    }
}

impl Agent {
    /// An agent using `model`, with no system prompt, 24 turns and the default session.
    pub fn new(model: &str) -> (r: Self)
        ensures
            r@ == (AgentView {
                model: model@,
                system: None,
                max_turns: 24,
                session: "default"@,
            }),
    {
        Agent {
            model: ModelId::new(model),
            system: None,
            max_turns: 24,
            session: SessionId::new("default"),
        }
    }

    /// Set the system prompt.
    #[must_use]
    pub fn system(self, system: &str) -> (r: Self)
        ensures
            r@ == (AgentView { system: Some(system@), ..self@ }),
    {
        Agent {
            model: self.model,
            system: Some(system.to_owned()),
            max_turns: self.max_turns,
            session: self.session,
        }
    }

    /// Cap how many model calls one run may make.
    #[must_use]
    pub fn max_turns(self, max_turns: u32) -> (r: Self)
        ensures
            r@ == (AgentView { max_turns, ..self@ }),
    {
        Agent { model: self.model, system: self.system, max_turns, session: self.session }
    }

    /// Name the session, so a journal can be resumed against it.
    #[must_use]
    pub fn session(self, session: SessionId) -> (r: Self)
        ensures
            r@ == (AgentView { session: session@, ..self@ }),
    {
        Agent { model: self.model, system: self.system, max_turns: self.max_turns, session }
    }

    /// Begin a run of `task` against a provider with these capabilities and these tools.
    pub fn begin(
        &self,
        task: &str,
        caps: ProviderCapabilities,
        definitions: Vec<ToolDefinition>,
    ) -> (r: Run)
        ensures
            r@ == begun(self@, task@, caps, definitions.deep_view()),
            r.well_formed(),
    {
        let mut name = self.session.as_str().to_owned();
        name.push_str("-run");
        let run_id = RunId::new(name.as_str());
        let mut journal = Journal::new(run_id.clone());
        let mut turns: Vec<Turn> = Vec::new();
        if let Some(system) = &self.system {
            turns.push(Turn::system(system.as_str()));
        }
        turns.push(Turn::user(task));
        assert(turns.deep_view() == opening(self@, task@));
        journal.record_event(
            Event::root(SeqId(0), EventKind::RunStarted { run: run_id.clone() }),
        );
        let budget = ContextBudget::from_capabilities(&caps);
        assert(budget == budget_for(caps));
        let r = Run {
            model: self.model.clone(),
            session: self.session.clone(),
            run_id,
            max_turns: self.max_turns,
            caps,
            budget,
            definitions,
            turns,
            index: 0,
            previous: PreviousPrompt::none(),
            totals: UsageTotals::default(),
            warnings: Vec::new(),
            journal,
        };
        assert(r.warnings.deep_view() == Seq::<WarningView>::empty());
        r
    }
}

/// A run between two model calls.
#[derive(Debug)]
pub struct Run {
    /// Which model is asked.
    pub model: ModelId,
    /// Which session the run belongs to.
    pub session: SessionId,
    /// Which run this is.
    pub run_id: RunId,
    /// How many model calls it may make.
    pub max_turns: u32,
    /// What the provider can do.
    pub caps: ProviderCapabilities,
    /// How much room the prompt has.
    pub budget: ContextBudget,
    /// The tools visible to the model.
    pub definitions: Vec<ToolDefinition>,
    /// The conversation so far.
    pub turns: Vec<Turn>,
    /// How many model calls were made.
    pub index: u32,
    /// What the last prompt hashed to.
    pub previous: PreviousPrompt,
    /// What the run consumed so far.
    pub totals: UsageTotals,
    /// What there is to warn about so far.
    pub warnings: Vec<Warning>,
    /// The record so far.
    pub journal: Journal,
}

/// A run between two model calls.
#[verifier::ext_equal]
pub struct RunView {
    pub model: Seq<char>,
    pub session: Seq<char>,
    pub run_id: Seq<char>,
    pub max_turns: u32,
    pub caps: ProviderCapabilities,
    pub budget: ContextBudget,
    pub definitions: Seq<ToolDefinitionView>,
    pub turns: Seq<TurnView>,
    pub index: u32,
    pub previous: Map<u32, ContentHash>,
    pub totals: UsageTotalsView,
    pub warnings: Seq<WarningView>,
    pub journal: JournalView,
}

impl View for Run {
    type V = RunView;

    open spec fn view(&self) -> RunView {
        RunView {
            model: self.model@,
            session: self.session@,
            run_id: self.run_id@,
            max_turns: self.max_turns,
            caps: self.caps,
            budget: self.budget,
            definitions: self.definitions.deep_view(),
            turns: self.turns.deep_view(),
            index: self.index,
            previous: self.previous@,
            totals: self.totals@,
            warnings: self.warnings.deep_view(),
            journal: self.journal@,
        }
    }
}

/// An event of the root agent.
pub open spec fn root_event(seq: u32, kind: EventKindView) -> EventView {
    EventView { seq: SeqId(seq), agent: Seq::empty(), kind }
}

/// The budget for a provider with these capabilities.
pub open spec fn budget_for(caps: ProviderCapabilities) -> ContextBudget {
    ContextBudget {
        window: caps.max_context,
        reserve_output: lesser(caps.max_output, caps.max_context / 4),
        reserve_headroom: caps.max_context / 10,
        floors: Floors { recent_history: 4 },
    }
}

/// The conversation before the first model call.
pub open spec fn opening(agent: AgentView, task: Seq<char>) -> Seq<TurnView> {
    match agent.system {
        Some(s) => seq![one_text(Role::System, s), one_text(Role::User, task)],
        None => seq![one_text(Role::User, task)],
    }
}

/// A run before its first model call.
pub open spec fn begun(
    agent: AgentView,
    task: Seq<char>,
    caps: ProviderCapabilities,
    definitions: Seq<ToolDefinitionView>,
) -> RunView {
    let run_id = agent.session + "-run"@;
    RunView {
        model: agent.model,
        session: agent.session,
        run_id,
        max_turns: agent.max_turns,
        caps,
        budget: budget_for(caps),
        definitions,
        turns: opening(agent, task),
        index: 0,
        previous: Map::empty(),
        totals: no_usage(),
        warnings: Seq::empty(),
        journal: noted(
            empty_journal(run_id),
            root_event(0, EventKindView::RunStarted { run: run_id }),
        ),
    }
}

/// A journal after some warnings.
pub open spec fn noted_warnings(j: JournalView, index: u32, w: Seq<WarningView>) -> JournalView
    decreases w.len(),
{
    if w.len() == 0 {
        j
    } else {
        noted(
            noted_warnings(j, index, w.drop_last()),
            root_event(index, EventKindView::Warned { warning: w.last() }),
        )
    }
}

/// The warnings that fitting a prompt gives.
pub open spec fn fit_warnings(segments: Seq<Segment>, budget: ContextBudget) -> Seq<WarningView> {
    let (keep, evicted) = fitted(segments, budget);
    if evicted.len() == 0 {
        Seq::empty()
    } else {
        seq![pressure(evicted, token_sum(keep) as u32, budget.ceiling())]
    }
}

/// What a run asks the model, given where the cache breakpoints go.
pub open spec fn request_for(run: RunView, marks: Seq<CacheMark>) -> RequestView {
    RequestView {
        model: run.model,
        turns: run.turns,
        tools: run.definitions,
        marks,
        max_output: lesser(run.caps.max_output, run.budget.reserve_output),
        effort: Effort::Default,
        cache_key: Some(run.session),
        extra: Seq::empty(),
    }
}

/// Whether some segments are those of a run's prompt.
pub open spec fn prompt_of(run: RunView, segments: Seq<Segment>) -> bool {
    segment_views(segments) == segments_of(run.definitions, run.turns)
}

/// A run that is about to ask, given the segments of its prompt: the prompt was fitted and the cache
/// planned against the segments that survived.
pub open spec fn asking(run: RunView, segments: Seq<Segment>) -> RunView {
    let keep = fitted(segments, run.budget).0;
    let plan = plan_of(keep, run.previous, run.caps.cache);
    RunView {
        previous: hashes_of(keep),
        warnings: run.warnings + fit_warnings(segments, run.budget) + plan.warnings,
        journal: noted_warnings(run.journal, run.index, plan.warnings),
        ..run
    }
}

/// Where the cache breakpoints of a run's next request go.
pub open spec fn marks_for(run: RunView, segments: Seq<Segment>) -> Seq<CacheMark> {
    plan_of(fitted(segments, run.budget).0, run.previous, run.caps.cache).marks
}

/// What a run does next.
#[derive(Debug)]
pub enum Asked {
    /// Ask the model.
    Ask(Pending),
    /// The run is over.
    Over(RunError),
    /// The prompt is so long that its tokens cannot be counted in 32 bits.
    Unmeasurable,
}

fn note_warnings(journal: &mut Journal, index: u32, warnings: &Vec<Warning>)
    ensures
        final(journal)@ == noted_warnings(old(journal)@, index, warnings.deep_view()),
{
    let ghost all = warnings.deep_view();
    let ghost start = journal@;
    let mut i: usize = 0;
    assert(all.take(0) == Seq::<WarningView>::empty());
    while i < warnings.len()
        invariant
            i <= warnings@.len(),
            all == warnings.deep_view(),
            start == old(journal)@,
            journal@ == noted_warnings(start, index, all.take(i as int)),
        decreases warnings@.len() - i,
    {
        assert(all.take(i + 1).drop_last() == all.take(i as int));
        assert(all.take(i + 1).last() == warnings@[i as int].deep_view());
        journal.record_event(
            Event::root(SeqId(index), EventKind::Warned { warning: warnings[i].clone() }),
        );
        i = i + 1;
    }
    assert(all.take(all.len() as int) == all);
}

fn extend_warnings(warnings: &mut Vec<Warning>, more: &Vec<Warning>)
    ensures
        final(warnings).deep_view() == old(warnings).deep_view() + more.deep_view(),
{
    let ghost start = warnings.deep_view();
    let ghost all = more.deep_view();
    let mut i: usize = 0;
    assert(start + all.take(0) == start);
    while i < more.len()
        invariant
            i <= more@.len(),
            all == more.deep_view(),
            start == old(warnings).deep_view(),
            warnings.deep_view() == start + all.take(i as int),
        decreases more@.len() - i,
    {
        let ghost before = warnings.deep_view();
        warnings.push(more[i].clone());
        proof {
            assert(warnings.deep_view() == before.push(more@[i as int].deep_view()));
            assert(start + all.take(i + 1) == before.push(all[i as int]));
        }
        i = i + 1;
    }
    assert(all.take(all.len() as int) == all);
}

impl Run {
    /// Whether the run's counts are in order.
    pub open spec fn well_formed(self) -> bool {
        self.totals.well_formed()
    }

    /// Go on to the next model call: fit the prompt, plan the cache, and say what to ask. Past the
    /// turn limit, or where the prompt cannot be made to fit, the run is over.
    pub fn ask(self) -> (r: Asked)
        requires
            self.well_formed(),
        ensures
            match r {
                Asked::Ask(p) => {
                    &&& self@.index < self@.max_turns
                    &&& measurable(self@.definitions, self@.turns)
                    &&& p.well_formed()
                    &&& exists|segments: Seq<Segment>| #[trigger]
                        prompt_of(self@, segments) && token_sum(fitted(segments, self@.budget).0)
                            <= self@.budget.ceiling() && p.run@ == asking(self@, segments)
                            && p.request@ == request_for(self@, marks_for(self@, segments))
                    &&& p.request@.model == self@.model
                    &&& p.request@.turns == self@.turns
                    &&& p.request@.tools == self@.definitions
                    &&& p.request@.cache_key == Some(self@.session)
                    &&& p.request@.max_output <= self@.caps.max_output
                    &&& p.request@.max_output <= self@.budget.reserve_output
                    &&& p.run@.turns == self@.turns
                    &&& p.run@.definitions == self@.definitions
                    &&& p.run@.index == self@.index
                    &&& p.run@.totals == self@.totals
                    &&& p.run@.journal.entries == self@.journal.entries
                },
                Asked::Over(RunError::TurnLimit { limit }) => self@.index >= self@.max_turns
                    && limit == self@.max_turns,
                Asked::Over(RunError::Budget(e)) => {
                    &&& self@.index < self@.max_turns
                    &&& measurable(self@.definitions, self@.turns)
                    &&& exists|segments: Seq<Segment>| #[trigger]
                        prompt_of(self@, segments) && token_sum(fitted(segments, self@.budget).0)
                            > self@.budget.ceiling() && e.needed == token_sum(
                            fitted(segments, self@.budget).0,
                        ) && e.available == self@.budget.ceiling() && e.protected@ == joined(
                            protected_list(fitted(segments, self@.budget).0),
                            ", "@,
                        )
                },
                Asked::Over(_) => false,
                Asked::Unmeasurable => self@.index < self@.max_turns && !measurable(
                    self@.definitions,
                    self@.turns,
                ),
            },
    {
        if self.index >= self.max_turns {
            return Asked::Over(RunError::TurnLimit { limit: self.max_turns });
        }
        let segments = match try_segments(&self.definitions, &self.turns) {
            Some(s) => s,
            None => {
                return Asked::Unmeasurable;
            },
        };
        proof {
            segments_can_be_fitted(segments@, self@.definitions, self@.turns);
            assert(prompt_of(self@, segments@));
        }
        let budgeted = match Budgeter::fit(segments.as_slice(), &self.budget) {
            Ok(plan) => plan,
            Err(e) => {
                return Asked::Over(RunError::Budget(e));
            },
        };
        let ghost start = self@;
        let ghost keep = fitted(segments@, start.budget).0;
        let mut run = self;
        extend_warnings(&mut run.warnings, &budgeted.warnings);
        assert(budgeted.warnings.deep_view() == fit_warnings(segments@, start.budget));
        let plan = CachePlanner::plan(budgeted.keep.as_slice(), &run.previous, &run.caps);
        extend_warnings(&mut run.warnings, &plan.warnings);
        note_warnings(&mut run.journal, run.index, &plan.warnings);
        run.previous = PreviousPrompt::from_segments(budgeted.keep.as_slice());
        let request = Request {
            model: run.model.clone(),
            turns: copy_turns(&run.turns),
            tools: copy_definitions(&run.definitions),
            marks: plan.marks,
            max_output: if run.caps.max_output <= run.budget.reserve_output {
                run.caps.max_output
            } else {
                run.budget.reserve_output
            },
            effort: Effort::Default,
            cache_key: Some(run.session.as_str().to_owned()),
            extra: Vec::new(),
        };
        proof {
            assert(request@ =~= request_for(start, marks_for(start, segments@)));
            assert(run@ =~= asking(start, segments@));
            let planned = plan_of(keep, start.previous, start.caps.cache);
            warnings_leave_the_record(start.journal, start.index, planned.warnings);
        }
        Asked::Ask(Pending { run, request })
    }
}

/// A run that waits for the model.
#[derive(Debug)]
pub struct Pending {
    /// The run.
    pub run: Run,
    /// What the model was asked.
    pub request: Request,
}

/// The key under which a response's usage is counted.
pub open spec fn usage_key(response: ResponseView) -> Seq<char> {
    response.provider + ":"@ + response.model
}

/// The warnings that a response gives: its cost is in another currency than the total, it was cut
/// off, or it added more blocks than a provider looks back through.
pub open spec fn response_warnings(totals: UsageTotalsView, response: ResponseView) -> Seq<
    WarningView,
> {
    let clash = if totals.clashes(response.usage) {
        seq![
            WarningView::Degraded {
                capability: "cost-accounting"@,
                fallback: "a call reported a different currency; totals are partial"@,
            },
        ]
    } else {
        Seq::empty()
    };
    let cut = if response.stop is MaxTokens {
        seq![
            WarningView::Degraded {
                capability: "output-length"@,
                fallback: "the model hit its output cap; the answer is incomplete"@,
            },
        ]
    } else {
        Seq::empty()
    };
    let blocks = capped(response.items.len() + calls_among(response.items).len());
    let far = if blocks > LOOKBACK_BLOCKS {
        seq![WarningView::LookbackExceeded { blocks, limit: LOOKBACK_BLOCKS }]
    } else {
        Seq::empty()
    };
    clash + cut + far
}

/// A run after the model answered: the answer is recorded, counted, and part of the conversation.
pub open spec fn heard(run: RunView, request: RequestView, response: ResponseView) -> RunView {
    RunView {
        turns: run.turns.push(TurnView { role: Role::Assistant, items: response.items }),
        totals: run.totals.plus(usage_key(response), response.usage),
        warnings: run.warnings + response_warnings(run.totals, response),
        journal: noted(
            recorded(run.journal, effect_for(request, response)),
            root_event(run.index, EventKindView::UsageUpdated { usage: response.usage }),
        ),
        ..run
    }
}

/// Whether an answer is the last one: it asks for no tools, or says that it is.
pub open spec fn is_final(response: ResponseView) -> bool {
    calls_among(response.items).len() == 0 || response.stop is EndTurn
}

/// What a run comes to, once it heard the last answer. The cost is what was reported, and nothing
/// where nothing was.
pub open spec fn outcome_of(run: RunView, items: Seq<ItemView>) -> RunOutputView {
    RunOutputView {
        items,
        totals: run.totals,
        cost: match run.totals.reported_cost {
            Some(amount) => Some(CostEstimate { amount, source: PricingSource::Reported }),
            None => None,
        },
        journal: noted(
            run.journal,
            root_event(
                run.index,
                EventKindView::RunFinished { totals: run.totals, cost: None },
            ),
        ),
        warnings: distinct(run.warnings),
    }
}

/// What an answer leads to.
#[derive(Debug)]
pub enum Answered {
    /// The run is finished.
    Done(RunOutput),
    /// The model wants tools run.
    Tools(Calling),
}

fn lookback_warning(items: usize, calls: usize) -> (r: Vec<Warning>)
    ensures
        r.deep_view() == (if capped((items + calls) as nat) > LOOKBACK_BLOCKS {
            seq![
                WarningView::LookbackExceeded {
                    blocks: capped((items + calls) as nat),
                    limit: LOOKBACK_BLOCKS,
                },
            ]
        } else {
            Seq::empty()
        }),
{
    let sum: usize = items.saturating_add(calls);
    let blocks: u32 = if sum as u64 > u32::MAX as u64 {
        u32::MAX
    } else {
        sum as u32
    };
    assert(blocks == capped((items + calls) as nat));
    let mut out: Vec<Warning> = Vec::new();
    assert(out.deep_view() == Seq::<WarningView>::empty());
    if let Some(warning) = check_lookback(blocks) {
        out.push(warning);
        assert(out.deep_view() == seq![
            WarningView::LookbackExceeded { blocks, limit: LOOKBACK_BLOCKS },
        ]);
    }
    out
}

fn key_of(response: &Response) -> (r: String)
    ensures
        r@ == usage_key(response@),
{
    let mut key = response.provider.as_str().to_owned();
    key.push_str(":");
    key.push_str(response.model.as_str());
    key
}

impl Pending {
    /// Whether the run's counts are in order and the run has a turn left.
    pub open spec fn well_formed(self) -> bool {
        self.run.well_formed() && self.run@.index < self.run@.max_turns
    }

    /// The provider failed: the run is over, whatever the failure. Retrying, where it makes sense,
    /// is the provider's affair.
    pub fn fail(self, error: ProviderError) -> (r: RunError)
        ensures
            r == RunError::Provider(error),
    {
        RunError::Provider(error)
    }

    /// Whether the usage of an answer can still be counted.
    pub fn can_count(&self, response: &Response) -> (r: bool)
        requires
            self.well_formed(),
        ensures
            r == self.run@.totals.has_room(usage_key(response@), response@.usage),
    {
        self.run.totals.can_count(key_of(response).as_str(), &response.usage)
    }

    /// Take the model's answer: record it, count it, and either finish or go on to its tool calls.
    /// Its usage must be countable.
    pub fn answer(self, response: Response) -> (r: Answered)
        requires
            self.well_formed(),
            self.run@.totals.has_room(usage_key(response@), response@.usage),
        ensures
            match r {
                Answered::Done(out) => is_final(response@) && out@ == outcome_of(
                    heard(self.run@, self.request@, response@),
                    response@.items,
                ),
                Answered::Tools(c) => {
                    &&& !is_final(response@)
                    &&& c.well_formed()
                    &&& c@ == (CallingView {
                        run: heard(self.run@, self.request@, response@),
                        calls: calls_among(response@.items),
                        results: Seq::empty(),
                    })
                },
            },
    {
        let ghost start = self.run@;
        let ghost asked = self.request@;
        let ghost heard_run = heard(start, asked, response@);
        let mut run = self.run;
        run.journal.record(effect_of(&self.request, &response));
        let key = key_of(&response);
        let ghost w0 = run.warnings.deep_view();
        let ghost clash = start.totals.clashes(response@.usage);
        if run.totals.record(key.as_str(), &response.usage).is_err() {
            run.warnings.push(
                Warning::Degraded {
                    capability: "cost-accounting".to_owned(),
                    fallback: "a call reported a different currency; totals are partial".to_owned(),
                },
            );
        }
        let ghost first: Seq<WarningView> = if clash {
            seq![
                WarningView::Degraded {
                    capability: "cost-accounting"@,
                    fallback: "a call reported a different currency; totals are partial"@,
                },
            ]
        } else {
            Seq::empty()
        };
        assert(run.warnings.deep_view() == w0 + first);
        run.journal.record_event(
            Event::root(
                SeqId(run.index),
                EventKind::UsageUpdated { usage: response.usage.clone() },
            ),
        );
        if response.stop.is_truncated() {
            run.warnings.push(
                Warning::Degraded {
                    capability: "output-length".to_owned(),
                    fallback: "the model hit its output cap; the answer is incomplete".to_owned(),
                },
            );
        }
        let ghost second: Seq<WarningView> = if response@.stop is MaxTokens {
            seq![
                WarningView::Degraded {
                    capability: "output-length"@,
                    fallback: "the model hit its output cap; the answer is incomplete"@,
                },
            ]
        } else {
            Seq::empty()
        };
        assert(run.warnings.deep_view() == w0 + first + second);
        let calls = tool_calls_of(&response.items);
        let ghost wanted = calls_among(response@.items);
        assert(calls@.len() == wanted.len());
        let far = lookback_warning(response.items.len(), calls.len());
        extend_warnings(&mut run.warnings, &far);
        assert(run.warnings.deep_view() == w0 + response_warnings(start.totals, response@));
        let ghost said = run.turns.deep_view();
        run.turns.push(Turn::new(Role::Assistant, copy_items(&response.items)));
        assert(run.turns.deep_view() == said.push(
            TurnView { role: Role::Assistant, items: response@.items },
        ));
        assert(run@ =~= heard_run);
        let ends = matches!(response.stop, StopReason::EndTurn);
        if calls.len() == 0 || ends {
            let mut journal = run.journal;
            journal.record_event(
                Event::root(
                    SeqId(run.index),
                    EventKind::RunFinished { totals: run.totals.clone(), cost: None },
                ),
            );
            let cost = match run.totals.reported_cost {
                Some(amount) => Some(CostEstimate { amount, source: PricingSource::Reported }),
                None => None,
            };
            let out = RunOutput {
                items: response.items,
                totals: run.totals,
                cost,
                journal,
                warnings: dedup_warnings(run.warnings),
            };
            assert(out@ =~= outcome_of(heard_run, response@.items));
            Answered::Done(out)
        } else {
            let c = Calling { run, calls, results: Vec::new() };
            assert(c.results.deep_view() == Seq::<ItemView>::empty());
            Answered::Tools(c)
        }
    }
}

/// A run that is going through the tool calls of an answer.
#[derive(Debug)]
pub struct Calling {
    /// The run.
    pub run: Run,
    /// The calls, in the order the model made them.
    pub calls: Vec<ToolCallItem>,
    /// The results so far, one for each of the first calls.
    pub results: Vec<Item>,
}

/// A run that is going through the tool calls of an answer.
#[verifier::ext_equal]
pub struct CallingView {
    pub run: RunView,
    pub calls: Seq<ToolCallView>,
    pub results: Seq<ItemView>,
}

impl View for Calling {
    type V = CallingView;

    open spec fn view(&self) -> CallingView {
        CallingView {
            run: self.run@,
            calls: self.calls.deep_view(),
            results: self.results.deep_view(),
        }
    }
}

/// Where a tool is among some definitions: the first of its name.
pub open spec fn definition_at(defs: Seq<ToolDefinitionView>, name: Seq<char>) -> Option<int>
    decreases defs.len(),
{
    if defs.len() == 0 {
        None
    } else {
        match definition_at(defs.drop_last(), name) {
            Some(i) => Some(i),
            None => if defs.last().name == name {
                Some(defs.len() - 1)
            } else {
                None
            },
        }
    }
}

/// What the model is told when it calls a tool that is not there.
pub open spec fn missing_tool(name: Seq<char>) -> ToolErrorView {
    let plain = plain_error(
        ToolErrorKind::NotFound,
        "there is no tool called `"@ + name + "`"@,
    );
    ToolErrorView {
        model: ModelMessageView {
            guidance: Some("Use one of the tools that were listed, or search for one."@),
            ..plain.model
        },
        ..plain
    }
}

/// What to do about a tool call.
#[derive(Debug)]
pub enum Considered {
    /// There is no such tool; this is what came of the call.
    Missing(ToolOutcome<ToolValue>),
    /// The tool is there. This is what policy goes by; it has to be asked before the call is made.
    Known {
        /// The tool.
        definition: ToolDefinition,
        /// The arguments, unvalidated.
        args: Json,
        /// How the call was reached.
        caller: Caller,
        /// What the tool would be permitted to do.
        grants: GrantSet,
    },
}

/// Whether a tool call goes ahead.
#[derive(Debug)]
pub enum Permitted {
    /// It does not; this is what came of it.
    Denied(ToolOutcome<ToolValue>),
    /// It does.
    Call {
        /// The call.
        invocation: Invocation,
        /// What the tool may know.
        cx: ToolCx,
    },
}

/// Whether a call is the one that the model made. A tool gets no grants from the loop, and its
/// results say which tool they came from.
pub open spec fn call_made(
    run: RunView,
    call: ToolCallView,
    invocation: Invocation,
    cx: ToolCx,
) -> bool {
    &&& invocation.id@ == call.id
    &&& invocation.name@ == call.name
    &&& invocation.args@ == call.args
    &&& invocation.caller == call.caller
    &&& cx.run@ == run.run_id
    &&& cx.session@ == run.session
    &&& cx.grants@ == Seq::<CapabilityView>::empty()
    &&& cx.provenance@ == tool_story(call.name)
    &&& cx.resume is None
}

/// How an outcome reads to the model, whether it is an error, and how many bytes were withheld.
pub open spec fn rendered(outcome: ToolOutcome<ToolValue>) -> (Seq<char>, bool, u64) {
    match outcome {
        ToolOutcome::Done(value) => {
            let content = value.inner()@;
            if content.bytes_elided > 0 {
                (
                    content.text + ("\n\n["@ + dec(content.bytes_elided as nat)
                        + " more bytes were withheld. Narrow the request to see them.]"@),
                    false,
                    content.bytes_elided,
                )
            } else {
                (content.text, false, 0)
            }
        },
        ToolOutcome::Failed(e) => (e@.model.text(), true, 0),
        ToolOutcome::Denied(e) => (e@.model.text(), true, 0),
        ToolOutcome::NeedsInput(_) => (
            "This action needs approval that was not available."@,
            true,
            0,
        ),
    }
}

/// Render a tool outcome for the model, keeping the truncation count so it is never silent.
pub fn render_outcome(outcome: &ToolOutcome<ToolValue>) -> (r: (String, bool, u64))
    ensures
        (r.0@, r.1, r.2) == rendered(*outcome),
{
    match outcome {
        ToolOutcome::Done(value) => {
            let content: &ToolContent = value.peek();
            let mut text = content.text.clone();
            if content.bytes_elided > 0 {
                let mut note = "\n\n[".to_owned();
                push_decimal(&mut note, content.bytes_elided);
                note.push_str(" more bytes were withheld. Narrow the request to see them.]");
                text.push_str(note.as_str());
            }
            (text, false, content.bytes_elided)
        },
        ToolOutcome::Failed(e) => (e.model().to_string(), true, 0),
        ToolOutcome::Denied(e) => (e.model().to_string(), true, 0),
        ToolOutcome::NeedsInput(_) => (
            "This action needs approval that was not available.".to_owned(),
            true,
            0,
        ),
    }
}

/// Where a tool's result says it came from.
pub open spec fn tool_story(name: Seq<char>) -> ProvenanceView {
    ProvenanceView::straight("tool:"@ + name)
}

/// The item that carries an outcome back to the model.
pub open spec fn result_item(call: ToolCallView, outcome: ToolOutcome<ToolValue>) -> ItemView {
    ItemView::ToolResult {
        id: call.id,
        content: rendered(outcome).0,
        is_error: rendered(outcome).1,
        bytes_elided: rendered(outcome).2,
        provenance: tool_story(call.name),
    }
}

/// The run after one more call came to this outcome: the result is recorded and kept.
pub open spec fn returned(c: CallingView, outcome: ToolOutcome<ToolValue>) -> CallingView {
    let call = c.calls[c.results.len() as int];
    CallingView {
        run: RunView {
            journal: recorded(
                c.run.journal,
                EffectView::ToolResult {
                    tool: call.name,
                    content: rendered(outcome).0,
                    is_error: rendered(outcome).1,
                },
            ),
            ..c.run
        },
        results: c.results.push(result_item(call, outcome)),
        ..c
    }
}

/// The run after the last call: the results are part of the conversation, and a turn is used up.
pub open spec fn closed(c: CallingView) -> RunView {
    RunView {
        turns: c.run.turns.push(TurnView { role: Role::User, items: c.results }),
        index: (c.run.index + 1) as u32,
        ..c.run
    }
}

/// Whether results answer the first of some calls, in order.
pub open spec fn answers(results: Seq<ItemView>, calls: Seq<ToolCallView>) -> bool {
    &&& results.len() <= calls.len()
    &&& forall|i: int|
        0 <= i < results.len() ==> ((#[trigger] results[i]) matches ItemView::ToolResult {
            id,
            provenance,
            ..
        } && id == calls[i].id && provenance == tool_story(calls[i].name))
}

/// Where a tool is among some definitions: the first of its name.
pub fn find_definition(definitions: &Vec<ToolDefinition>, name: &str) -> (r: Option<usize>)
    ensures
        match r {
            Some(i) => definition_at(definitions.deep_view(), name@) == Some(i as int) && i
                < definitions@.len() && definitions@[i as int]@.name == name@,
            None => definition_at(definitions.deep_view(), name@) is None,
        },
{
    let ghost all = definitions.deep_view();
    let mut i: usize = 0;
    while i < definitions.len()
        invariant
            i <= definitions@.len(),
            all == definitions.deep_view(),
            definition_at(all.take(i as int), name@) is None,
        decreases definitions@.len() - i,
    {
        assert(all.take(i + 1).drop_last() == all.take(i as int));
        assert(all.take(i + 1).last() == definitions@[i as int]@);
        if same_text(definitions[i].name.as_str(), name) {
            proof {
                found_stays_found(all, name@, i as int);
            }
            return Some(i);
        }
        i = i + 1;
    }
    assert(all.take(all.len() as int) == all);
    None
}

proof fn found_stays_found(defs: Seq<ToolDefinitionView>, name: Seq<char>, i: int)
    requires
        0 <= i < defs.len(),
        definition_at(defs.take(i + 1), name) == Some(i),
    ensures
        definition_at(defs, name) == Some(i),
    decreases defs.len(),
{
    if i + 1 == defs.len() {
        assert(defs.take(i + 1) == defs);
    } else {
        assert(defs.drop_last().take(i + 1) == defs.take(i + 1));
        found_stays_found(defs.drop_last(), name, i);
    }
}

impl Calling {
    /// Whether the run's counts are in order, it has a turn left, and the results so far answer the
    /// first of its calls in order.
    pub open spec fn well_formed(self) -> bool {
        &&& self.run.well_formed()
        &&& self.run@.index < self.run@.max_turns
        &&& answers(self@.results, self@.calls)
    }

    /// Whether every call has its result.
    pub fn is_complete(&self) -> (r: bool)
        ensures
            r == (self@.results.len() >= self@.calls.len()),
    {
        self.results.len() >= self.calls.len()
    }

    /// What to do about the next call.
    pub fn consider(&self) -> (r: Considered)
        requires
            self@.results.len() < self@.calls.len(),
        ensures
            ({
                let call = self@.calls[self@.results.len() as int];
                match definition_at(self@.run.definitions, call.name) {
                    None => r matches Considered::Missing(ToolOutcome::Failed(e)) && e@
                        == missing_tool(call.name),
                    Some(i) => {
                        &&& r matches Considered::Known { definition, args, caller, grants }
                        &&& definition@ == self@.run.definitions[i]
                        &&& args@ == call.args
                        &&& caller == call.caller
                        &&& grants@ == Seq::<CapabilityView>::empty()
                    },
                }
            }),
    {
        let call = &self.calls[self.results.len()];
        assert(self@.calls[self@.results.len() as int] == call@);
        match find_definition(&self.run.definitions, call.name.as_str()) {
            None => {
                let mut summary = "there is no tool called `".to_owned();
                summary.push_str(call.name.as_str());
                summary.push_str("`");
                Considered::Missing(
                    ToolOutcome::Failed(
                        ToolError::new(ToolErrorKind::NotFound, summary.as_str()).guide(
                            "Use one of the tools that were listed, or search for one.",
                        ),
                    ),
                )
            },
            Some(i) => Considered::Known {
                definition: self.run.definitions[i].clone(),
                args: call.args.copy(),
                caller: call.caller.clone(),
                grants: GrantSet::empty(),
            },
        }
    }

    /// Whether the next call goes ahead, given what policy says against it. A call that policy
    /// refuses is denied, and there is nothing to run. This is the only way to a call.
    pub fn permitted(&self, refusal: Option<ToolError>) -> (r: Permitted)
        requires
            self@.results.len() < self@.calls.len(),
            definition_at(
                self@.run.definitions,
                self@.calls[self@.results.len() as int].name,
            ) is Some,
        ensures
            match refusal {
                Some(e) => r matches Permitted::Denied(ToolOutcome::Denied(d)) && d@ == e@,
                None => r matches Permitted::Call { invocation, cx } && call_made(
                    self@.run,
                    self@.calls[self@.results.len() as int],
                    invocation,
                    cx,
                ),
            },
    {
        match refusal {
            Some(e) => Permitted::Denied(ToolOutcome::Denied(e)),
            None => {
                let call = &self.calls[self.results.len()];
                assert(self@.calls[self@.results.len() as int] == call@);
                Permitted::Call {
                    invocation: Invocation {
                        id: call.id.clone(),
                        name: call.name.clone(),
                        args: call.args.copy(),
                        caller: call.caller.clone(),
                    },
                    cx: ToolCx::new(
                        self.run.run_id.clone(),
                        self.run.session.clone(),
                        GrantSet::empty(),
                        Provenance::tagged("tool:", call.name.as_str()),
                    ),
                }
            },
        }
    }

    /// What came of the next call.
    pub fn returned(self, outcome: &ToolOutcome<ToolValue>) -> (r: Self)
        requires
            self.well_formed(),
            self@.results.len() < self@.calls.len(),
        ensures
            r@ == returned(self@, *outcome),
            r.well_formed(),
    {
        let ghost start = self@;
        let mut c = self;
        let (content, is_error, elided) = render_outcome(outcome);
        let at: usize = c.results.len();
        let id = c.calls[at].id.clone();
        let name = c.calls[at].name.as_str().to_owned();
        assert(start.calls[at as int] == c.calls@[at as int]@);
        let provenance = Provenance::tagged("tool:", name.as_str());
        c.run.journal.record(
            Effect::ToolResult { tool: name, content: content.clone(), is_error },
        );
        c.results.push(
            Item::ToolResult(
                ToolResultItem { id, content, is_error, bytes_elided: elided, provenance },
            ),
        );
        proof {
            let call = start.calls[at as int];
            assert(c.results.deep_view() =~= start.results.push(result_item(call, *outcome)));
            assert(c@ =~= returned(start, *outcome));
            assert(answers(c@.results, c@.calls));
        }
        c
    }

    /// Go on to the next turn, once every call has its result.
    pub fn close(self) -> (r: Run)
        requires
            self.well_formed(),
            self@.results.len() == self@.calls.len(),
        ensures
            r@ == closed(self@),
            r.well_formed(),
    {
        let ghost start = self@;
        let mut run = self.run;
        let ghost said = run.turns.deep_view();
        run.turns.push(Turn::new(Role::User, self.results));
        assert(run.turns.deep_view() =~= said.push(
            TurnView { role: Role::User, items: start.results },
        ));
        run.index = run.index + 1;
        assert(run@ =~= closed(start));
        run
    }
}

/// The run after its next calls came to these outcomes.
pub open spec fn all_returned(c: CallingView, outcomes: Seq<ToolOutcome<ToolValue>>) -> CallingView
    decreases outcomes.len(),
{
    if outcomes.len() == 0 {
        c
    } else {
        returned(all_returned(c, outcomes.drop_last()), outcomes.last())
    }
}

/// A whole turn: the model was asked, answered with calls for tools, and each call came to an
/// outcome.
pub open spec fn after_turn(
    run: RunView,
    segments: Seq<Segment>,
    response: ResponseView,
    outcomes: Seq<ToolOutcome<ToolValue>>,
) -> RunView {
    let request = request_for(run, marks_for(run, segments));
    closed(
        all_returned(
            CallingView {
                run: heard(asking(run, segments), request, response),
                calls: calls_among(response.items),
                results: Seq::empty(),
            },
            outcomes,
        ),
    )
}

proof fn results_match_calls(c: CallingView, outcomes: Seq<ToolOutcome<ToolValue>>)
    requires
        c.results.len() == 0,
        outcomes.len() <= c.calls.len(),
    ensures
        ({
            let d = all_returned(c, outcomes);
            &&& d.calls == c.calls
            &&& d.run == (RunView { journal: d.run.journal, ..c.run })
            &&& d.results == Seq::new(
                outcomes.len(),
                |i: int| result_item(c.calls[i], outcomes[i]),
            )
            &&& answers(d.results, d.calls)
            &&& d.run.journal.entries.len() == c.run.journal.entries.len() + outcomes.len()
            &&& d.run.journal.entries.take(c.run.journal.entries.len() as int)
                == c.run.journal.entries
            &&& forall|i: int|
                0 <= i < outcomes.len() ==> (#[trigger] d.run.journal.entries[c.run.journal.entries.len()
                    + i]).effect == (EffectView::ToolResult {
                    tool: c.calls[i].name,
                    content: rendered(outcomes[i]).0,
                    is_error: rendered(outcomes[i]).1,
                })
            &&& d.run.journal.events == c.run.journal.events
        }),
    decreases outcomes.len(),
{
    let n = c.run.journal.entries.len();
    if outcomes.len() == 0 {
        assert(c.results == Seq::new(0, |i: int| result_item(c.calls[i], outcomes[i])));
        assert(c.run.journal.entries.take(n as int) == c.run.journal.entries);
    } else {
        let up = outcomes.drop_last();
        results_match_calls(c, up);
        let before = all_returned(c, up);
        let d = all_returned(c, outcomes);
        assert(d.results == Seq::new(
            outcomes.len(),
            |i: int| result_item(c.calls[i], outcomes[i]),
        ));
        assert(d.run.journal.entries.take(n as int) == before.run.journal.entries.take(n as int));
        assert forall|i: int| 0 <= i < outcomes.len() implies (
        #[trigger] d.run.journal.entries[n + i]).effect == (EffectView::ToolResult {
            tool: c.calls[i].name,
            content: rendered(outcomes[i]).0,
            is_error: rendered(outcomes[i]).1,
        }) by {
            if i < outcomes.len() - 1 {
                assert(d.run.journal.entries[n + i] == before.run.journal.entries[n + i]);
            }
        }
    }
}

/// A turn with tool calls goes back to the model whole: the conversation grows by what the model
/// said and by one result for each of its calls, in order, each with the id of its call. The record
/// grows by the response and the results, and one of the run's turns is used up.
pub proof fn results_go_back_to_the_model(
    run: RunView,
    segments: Seq<Segment>,
    response: ResponseView,
    outcomes: Seq<ToolOutcome<ToolValue>>,
)
    requires
        run.index < run.max_turns,
        outcomes.len() == calls_among(response.items).len(),
    ensures
        ({
            let after = after_turn(run, segments, response, outcomes);
            let calls = calls_among(response.items);
            let results = Seq::new(calls.len(), |i: int| result_item(calls[i], outcomes[i]));
            let n = run.journal.entries.len() as int;
            &&& after.turns == run.turns.push(
                TurnView { role: Role::Assistant, items: response.items },
            ).push(TurnView { role: Role::User, items: results })
            &&& answers(results, calls)
            &&& after.index == run.index + 1
            &&& after.max_turns == run.max_turns
            &&& after.definitions == run.definitions
            &&& after.totals == run.totals.plus(usage_key(response), response.usage)
            &&& after.journal.entries.len() == n + 1 + calls.len()
            &&& after.journal.entries[n].effect == effect_for(
                request_for(run, marks_for(run, segments)),
                response,
            )
            &&& forall|i: int|
                0 <= i < calls.len() ==> (#[trigger] after.journal.entries[n + 1 + i]).effect is ToolResult
        }),
{
    let request = request_for(run, marks_for(run, segments));
    let asked = asking(run, segments);
    let plan = plan_of(fitted(segments, run.budget).0, run.previous, run.caps.cache);
    warnings_leave_the_record(run.journal, run.index, plan.warnings);
    let c = CallingView {
        run: heard(asked, request, response),
        calls: calls_among(response.items),
        results: Seq::empty(),
    };
    results_match_calls(c, outcomes);
    let d = all_returned(c, outcomes);
    let n = run.journal.entries.len() as int;
    assert(c.run.journal.entries.len() == n + 1);
    assert(d.run.journal.entries.take(n + 1)[n] == d.run.journal.entries[n]);
    assert(c.run.journal.entries[n].effect == effect_for(request, response));
    let after = after_turn(run, segments, response, outcomes);
    assert forall|i: int| 0 <= i < calls_among(response.items).len() implies (
    #[trigger] after.journal.entries[n + 1 + i]).effect is ToolResult by {
        assert(d.run.journal.entries[(n + 1) + i].effect is ToolResult);
    }
}

/// A turn of a run: the segments of its prompt, what the model answered, and what the calls of the
/// answer came to.
pub struct TurnTaken {
    pub segments: Seq<Segment>,
    pub response: ResponseView,
    pub outcomes: Seq<ToolOutcome<ToolValue>>,
}

impl TurnTaken {
    /// Whether every call of the answer came to an outcome.
    pub open spec fn whole(self) -> bool {
        self.outcomes.len() == calls_among(self.response.items).len()
    }
}

/// A run after some turns.
pub open spec fn taken(run: RunView, turns: Seq<TurnTaken>) -> RunView
    decreases turns.len(),
{
    if turns.len() == 0 {
        run
    } else {
        let last = turns.last();
        after_turn(taken(run, turns.drop_last()), last.segments, last.response, last.outcomes)
    }
}

/// What a run asks next, given the segments of its prompt.
pub open spec fn asks(run: RunView, segments: Seq<Segment>) -> RequestView {
    request_for(run, marks_for(run, segments))
}

/// What a run asked over some turns.
pub open spec fn asked_over(run: RunView, turns: Seq<TurnTaken>) -> Seq<RequestView>
    decreases turns.len(),
{
    if turns.len() == 0 {
        Seq::empty()
    } else {
        asked_over(run, turns.drop_last()).push(
            asks(taken(run, turns.drop_last()), turns.last().segments),
        )
    }
}

/// What the model answered over some turns.
pub open spec fn answered_over(turns: Seq<TurnTaken>) -> Seq<ResponseView> {
    Seq::new(turns.len(), |i: int| turns[i].response)
}

/// A recorded response as a replay gives it: what the model said is the same, and the provider that
/// says it is the replay.
pub open spec fn retold(model: Seq<char>, response: ResponseView) -> ResponseView {
    ResponseView { model, provider: "replay"@, ..response }
}

/// Some turns as they are taken with a replay for a provider.
pub open spec fn retaken(model: Seq<char>, turns: Seq<TurnTaken>) -> Seq<TurnTaken> {
    Seq::new(
        turns.len(),
        |i: int| TurnTaken { response: retold(model, turns[i].response), ..turns[i] },
    )
}

proof fn a_turn_is_recorded(
    run: RunView,
    turn: TurnTaken,
    asked: Seq<RequestView>,
    answered: Seq<ResponseView>,
)
    requires
        turn.whole(),
        records(run.journal.entries, asked, answered),
    ensures
        records(
            after_turn(run, turn.segments, turn.response, turn.outcomes).journal.entries,
            asked.push(asks(run, turn.segments)),
            answered.push(turn.response),
        ),
{
    let request = asks(run, turn.segments);
    let c = CallingView {
        run: heard(asking(run, turn.segments), request, turn.response),
        calls: calls_among(turn.response.items),
        results: Seq::empty(),
    };
    an_answer_is_recorded(run, turn.segments, turn.response, asked, answered);
    results_match_calls(c, turn.outcomes);
    let d = all_returned(c, turn.outcomes);
    let n = c.run.journal.entries.len() as int;
    assert forall|i: int| n <= i < d.run.journal.entries.len() implies !((
    #[trigger] d.run.journal.entries[i]).effect is ModelResponse) by {
        assert(d.run.journal.entries[n + (i - n)].effect is ToolResult);
    }
    other_effects_record_no_exchange(
        d.run.journal.entries,
        n,
        asked.push(request),
        answered.push(turn.response),
    );
}

proof fn an_answer_is_recorded(
    run: RunView,
    segments: Seq<Segment>,
    response: ResponseView,
    asked: Seq<RequestView>,
    answered: Seq<ResponseView>,
)
    requires
        records(run.journal.entries, asked, answered),
    ensures
        records(
            heard(asking(run, segments), asks(run, segments), response).journal.entries,
            asked.push(asks(run, segments)),
            answered.push(response),
        ),
{
    let request = asks(run, segments);
    let plan = plan_of(fitted(segments, run.budget).0, run.previous, run.caps.cache);
    warnings_leave_the_record(run.journal, run.index, plan.warnings);
    let after = heard(asking(run, segments), request, response);
    assert(after.journal.entries.drop_last() == run.journal.entries);
    assert(after.journal.entries.last().effect == effect_for(request, response));
    assert(asked.push(request).drop_last() == asked);
    assert(answered.push(response).drop_last() == answered);
}

proof fn turns_are_recorded(run: RunView, turns: Seq<TurnTaken>)
    requires
        run.journal.entries.len() == 0,
        forall|i: int| 0 <= i < turns.len() ==> (#[trigger] turns[i]).whole(),
    ensures
        records(taken(run, turns).journal.entries, asked_over(run, turns), answered_over(turns)),
    decreases turns.len(),
{
    if turns.len() > 0 {
        let up = turns.drop_last();
        assert forall|i: int| 0 <= i < up.len() implies (#[trigger] up[i]).whole() by {
            assert(up[i] == turns[i]);
        }
        turns_are_recorded(run, up);
        a_turn_is_recorded(taken(run, up), turns.last(), asked_over(run, up), answered_over(up));
        assert(answered_over(up).push(turns.last().response) == answered_over(turns));
    } else {
        assert(answered_over(turns).len() == 0);
    }
}

/// Whether two runs ask the same from here on, given the same answers and outcomes.
pub open spec fn asks_alike(a: RunView, b: RunView) -> bool {
    a == (RunView { totals: a.totals, warnings: a.warnings, journal: a.journal, ..b })
}

proof fn retaken_turns_ask_alike(run: RunView, turns: Seq<TurnTaken>)
    requires
        forall|i: int| 0 <= i < turns.len() ==> (#[trigger] turns[i]).whole(),
    ensures
        asks_alike(taken(run, retaken(run.model, turns)), taken(run, turns)),
        asked_over(run, retaken(run.model, turns)) == asked_over(run, turns),
    decreases turns.len(),
{
    if turns.len() > 0 {
        let up = turns.drop_last();
        let again = retaken(run.model, turns);
        assert(again.drop_last() == retaken(run.model, up));
        assert forall|i: int| 0 <= i < up.len() implies (#[trigger] up[i]).whole() by {
            assert(up[i] == turns[i]);
        }
        retaken_turns_ask_alike(run, up);
        let a = taken(run, retaken(run.model, up));
        let b = taken(run, up);
        turns_alike(a, b, again.last(), turns.last());
    }
}

proof fn turns_alike(a: RunView, b: RunView, again: TurnTaken, turn: TurnTaken)
    requires
        turn.whole(),
        asks_alike(a, b),
        again.segments == turn.segments,
        again.outcomes == turn.outcomes,
        again.response.items == turn.response.items,
    ensures
        asks(a, again.segments) == asks(b, turn.segments),
        asks_alike(
            after_turn(a, again.segments, again.response, again.outcomes),
            after_turn(b, turn.segments, turn.response, turn.outcomes),
        ),
{
    let calls = calls_among(turn.response.items);
    let c = CallingView {
        run: heard(asking(a, again.segments), asks(a, again.segments), again.response),
        calls,
        results: Seq::empty(),
    };
    let d = CallingView {
        run: heard(asking(b, turn.segments), asks(b, turn.segments), turn.response),
        calls,
        results: Seq::empty(),
    };
    assert(asks_alike(c.run, d.run));
    results_match_calls(c, turn.outcomes);
    results_match_calls(d, turn.outcomes);
}

/// A run replays through the loop. However many turns it took, its record answers what it asked, turn
/// by turn, with what the model said, and then has nothing left. And begun again with the same task,
/// tools and capabilities, and with the record in place of the provider, it asks the same all over
/// as long as its tools come to the same, and ends with the same answer.
pub proof fn a_finished_run_replays(
    agent: AgentView,
    task: Seq<char>,
    caps: ProviderCapabilities,
    definitions: Seq<ToolDefinitionView>,
    turns: Seq<TurnTaken>,
    segments: Seq<Segment>,
    response: ResponseView,
)
    requires
        forall|i: int| 0 <= i < turns.len() ==> (#[trigger] turns[i]).whole(),
        is_final(response),
    ensures
        ({
            let run = begun(agent, task, caps, definitions);
            let before = taken(run, turns);
            let request = asks(before, segments);
            let out = outcome_of(heard(asking(before, segments), request, response), response.items);
            let asked = asked_over(run, turns).push(request);
            let answered = answered_over(turns).push(response);
            let entries = out.journal.entries;
            let again = taken(run, retaken(agent.model, turns));
            &&& forall|k: int|
                0 <= k < asked.len() ==> replayed(
                    entries,
                    next_answer(entries, place(entries, k as nat)),
                    fingerprint_of(#[trigger] asked[k]),
                ) == Ok::<_, ReplayErrorView>(
                    (answered[k].items, answered[k].usage, answered[k].stop),
                )
            &&& answers_left(entries, place(entries, asked.len())) == 0
            &&& asked_over(run, retaken(agent.model, turns)) == asked_over(run, turns)
            &&& asks(again, segments) == request
            &&& is_final(retold(agent.model, response))
            &&& outcome_of(
                heard(asking(again, segments), request, retold(agent.model, response)),
                retold(agent.model, response).items,
            ).items == out.items
        }),
{
    let run = begun(agent, task, caps, definitions);
    let before = taken(run, turns);
    let request = asks(before, segments);
    turns_are_recorded(run, turns);
    an_answer_is_recorded(before, segments, response, asked_over(run, turns), answered_over(turns));
    let out = outcome_of(heard(asking(before, segments), request, response), response.items);
    a_recorded_run_replays(
        out.journal.entries,
        asked_over(run, turns).push(request),
        answered_over(turns).push(response),
    );
    retaken_turns_ask_alike(run, turns);
}

proof fn warnings_leave_the_record(j: JournalView, index: u32, w: Seq<WarningView>)
    ensures
        noted_warnings(j, index, w).entries == j.entries,
    decreases w.len(),
{
    if w.len() > 0 {
        warnings_leave_the_record(j, index, w.drop_last());
    }
}

/// A run asks the model at most `max_turns` times: the states from which it asks are numbered from
/// zero, one after the other, and it asks only below the limit.
pub proof fn a_run_ends_within_its_turns(asks: Seq<RunView>, limit: u32)
    requires
        asks.len() > 0 ==> asks[0].index == 0,
        forall|i: int, j: int|
            0 <= i < j < asks.len() && j == i + 1 ==> (#[trigger] asks[j]).index == (
            #[trigger] asks[i]).index + 1,
        forall|i: int|
            0 <= i < asks.len() ==> (#[trigger] asks[i]).index < asks[i].max_turns
                && asks[i].max_turns == limit,
    ensures
        asks.len() <= limit,
{
    if asks.len() > 0 {
        numbered(asks, asks.len() - 1);
    }
}

proof fn numbered(asks: Seq<RunView>, i: int)
    requires
        0 <= i < asks.len(),
        asks[0].index == 0,
        forall|i: int, j: int|
            0 <= i < j < asks.len() && j == i + 1 ==> (#[trigger] asks[j]).index == (
            #[trigger] asks[i]).index + 1,
    ensures
        asks[i].index == i,
    decreases i,
{
    if i > 0 {
        numbered(asks, i - 1);
    }
}

/// A run begins with the task: the system prompt, where there is one, and then the task in the
/// user's words, and nothing else. Nothing has been counted, and no turn is used up.
pub proof fn a_run_begins_with_its_task(
    agent: AgentView,
    task: Seq<char>,
    caps: ProviderCapabilities,
    definitions: Seq<ToolDefinitionView>,
)
    ensures
        ({
            let run = begun(agent, task, caps, definitions);
            let asked = run.turns.last();
            &&& run.turns.len() == (if agent.system is Some { 2int } else { 1 })
            &&& asked.role == Role::User
            &&& asked.items.len() == 1
            &&& asked.items[0] matches ItemView::Text { text, .. } && text == task
            &&& agent.system matches Some(system) ==> run.turns[0].role == Role::System
                && run.turns[0].items.len() == 1 && (run.turns[0].items[0] matches ItemView::Text {
                text,
                ..
            } && text == system)
            &&& run.definitions == definitions
            &&& run.model == agent.model
            &&& run.session == agent.session
            &&& run.max_turns == agent.max_turns
            &&& run.index == 0
            &&& run.journal.entries.len() == 0
            &&& run.totals.reported_cost is None
            &&& run.totals.unmetered_calls == 0
            &&& run.caps == caps
            &&& run.budget.window == caps.max_context
            &&& run.budget.reserve_output <= caps.max_output
            &&& run.budget.reserve_output <= caps.max_context / 4
            &&& run.budget.reserve_output == caps.max_output || run.budget.reserve_output
                == caps.max_context / 4
            &&& run.budget.reserve_headroom == caps.max_context / 10
            &&& run.budget.floors.recent_history == 4
            &&& run.warnings.len() == 0
            &&& run.run_id == agent.session + "-run"@
            &&& run.journal.run == run.run_id
            &&& run.journal.events.len() == 1
            &&& run.journal.events[0].kind == (EventKindView::RunStarted { run: run.run_id })
        }),
{
}

/// A request carries the whole conversation, every tool of the run, and the run's model, and asks for
/// no more than the provider gives and the budget set aside.
pub proof fn requests_carry_the_conversation(run: RunView, segments: Seq<Segment>)
    ensures
        ({
            let request = asks(run, segments);
            let keep = fitted(segments, run.budget).0;
            &&& request.model == run.model
            &&& request.turns == run.turns
            &&& request.tools == run.definitions
            &&& request.cache_key == Some(run.session)
            &&& request.max_output <= run.caps.max_output
            &&& request.max_output <= run.budget.reserve_output
            &&& request.max_output == run.caps.max_output || request.max_output
                == run.budget.reserve_output
            &&& request.marks == plan_of(keep, run.previous, run.caps.cache).marks
            &&& request.extra.len() == 0
            &&& asking(run, segments).turns == run.turns
            &&& asking(run, segments).definitions == run.definitions
            &&& asking(run, segments).index == run.index
        }),
{
}

/// An answer becomes part of the conversation as it was given, behind everything said before. It is
/// recorded with the request that it answers, and its usage is counted under the provider and model
/// that it came from.
pub proof fn an_answer_joins_the_conversation(
    run: RunView,
    request: RequestView,
    response: ResponseView,
)
    ensures
        ({
            let after = heard(run, request, response);
            let n = run.turns.len() as int;
            &&& after.turns.len() == n + 1
            &&& after.turns.take(n) == run.turns
            &&& after.turns[n].role == Role::Assistant
            &&& after.turns[n].items == response.items
            &&& after.definitions == run.definitions
            &&& after.model == run.model
            &&& after.index == run.index
            &&& after.max_turns == run.max_turns
            &&& after.journal.entries.len() == run.journal.entries.len() + 1
            &&& after.journal.entries.take(run.journal.entries.len() as int) == run.journal.entries
            &&& after.journal.entries.last().effect matches EffectView::ModelResponse {
                request: f,
                items,
                usage,
                stop,
            } && f == fingerprint_of(request) && items == response.items && usage == response.usage
                && stop == response.stop
            &&& after.totals == run.totals.plus(
                response.provider + ":"@ + response.model,
                response.usage,
            )
        }),
{
    let after = heard(run, request, response);
    assert(after.turns.take(run.turns.len() as int) == run.turns);
    assert(after.journal.entries.take(run.journal.entries.len() as int) == run.journal.entries);
}

proof fn calls_come_from_items(items: Seq<ItemView>)
    ensures
        calls_among(items).len() > 0 <==> exists|i: int|
            0 <= i < items.len() && (#[trigger] items[i]) is ToolCall,
    decreases items.len(),
{
    if items.len() > 0 {
        let rest = items.drop_last();
        calls_come_from_items(rest);
        if calls_among(items).len() > 0 && !(items.last() is ToolCall) {
            let i = choose|i: int| 0 <= i < rest.len() && (#[trigger] rest[i]) is ToolCall;
            assert(items[i] is ToolCall);
        }
        if items.last() is ToolCall {
            assert(items[items.len() - 1] is ToolCall);
        }
        if exists|i: int| 0 <= i < items.len() && (#[trigger] items[i]) is ToolCall {
            let i = choose|i: int| 0 <= i < items.len() && (#[trigger] items[i]) is ToolCall;
            if i < rest.len() {
                assert(rest[i] is ToolCall);
            }
        }
    }
}

/// A run goes on exactly while the model calls tools and does not say that it is done.
pub proof fn a_run_goes_on_for_tools(response: ResponseView)
    ensures
        is_final(response) <==> response.stop is EndTurn || forall|i: int|
            0 <= i < response.items.len() ==> !((#[trigger] response.items[i]) is ToolCall),
{
    calls_come_from_items(response.items);
}

/// The calls of an answer are the calls it holds, in order: one more item adds itself where it is a
/// call, and nothing where it is not.
pub proof fn every_call_is_made(items: Seq<ItemView>, more: ItemView)
    ensures
        calls_among(Seq::empty()).len() == 0,
        match more {
            ItemView::ToolCall(c) => calls_among(items.push(more)) == calls_among(items).push(c),
            _ => calls_among(items.push(more)) == calls_among(items),
        },
{
    assert(items.push(more).drop_last() == items);
}

/// The model is told the truth about its call: the result carries the id of the call. What a tool
/// returned comes first, and where bytes were withheld that is counted and said behind it. A failure
/// or a refusal is marked as an error and reads as what the model is meant to know of it.
pub proof fn outcomes_are_told_truthfully(call: ToolCallView, outcome: ToolOutcome<ToolValue>)
    ensures
        result_item(call, outcome) matches ItemView::ToolResult {
            id,
            content,
            is_error,
            bytes_elided,
            provenance,
        } && id == call.id && is_error == !(outcome is Done) && provenance
            == ProvenanceView::straight("tool:"@ + call.name) && (match outcome {
            ToolOutcome::Done(value) => {
                let told = value.inner()@;
                &&& bytes_elided == told.bytes_elided
                &&& told.text.is_prefix_of(content)
                &&& told.bytes_elided == 0 <==> content == told.text
            },
            ToolOutcome::Failed(e) => bytes_elided == 0 && e@.model.summary.is_prefix_of(content) && (
            match e@.model.guidance {
                Some(g) => content == e@.model.summary + " "@ + g,
                None => content == e@.model.summary,
            }),
            ToolOutcome::Denied(e) => bytes_elided == 0 && e@.model.summary.is_prefix_of(content) && (
            match e@.model.guidance {
                Some(g) => content == e@.model.summary + " "@ + g,
                None => content == e@.model.summary,
            }),
            ToolOutcome::NeedsInput(_) => bytes_elided == 0 && content.len() > 0,
        }),
{
    match outcome {
        ToolOutcome::Done(value) => {
            let told = value.inner()@;
            reveal_strlit("\n\n[");
            assert(told.text.is_prefix_of(rendered(outcome).0));
            if told.bytes_elided > 0 {
                assert(rendered(outcome).0.len() > told.text.len());
            }
        },
        ToolOutcome::NeedsInput(_) => {
            reveal_strlit("This action needs approval that was not available.");
        },
        _ => {},
    }
}

/// The text of an output is the text of its items, in order: one more item adds its text, or nothing
/// where it has none.
pub proof fn every_text_of_an_output_is_told(items: Seq<ItemView>, more: ItemView)
    ensures
        text_among(Seq::empty()).len() == 0,
        match more {
            ItemView::Text { text, .. } => text_among(items.push(more)) == text_among(items) + text,
            _ => text_among(items.push(more)) == text_among(items),
        },
{
    assert(items.push(more).drop_last() == items);
}

/// A finished run hands out the answer, what was consumed and the record. A cost is given exactly
/// where one was reported, and is that one.
pub proof fn a_finished_run_tells_all(run: RunView, items: Seq<ItemView>)
    ensures
        ({
            let out = outcome_of(run, items);
            &&& out.items == items
            &&& out.totals == run.totals
            &&& out.cost is Some <==> run.totals.reported_cost is Some
            &&& out.cost matches Some(cost) ==> cost.amount == run.totals.reported_cost->0
                && cost.source == PricingSource::Reported
            &&& out.journal.entries == run.journal.entries
            &&& forall|w: WarningView| #[trigger]
                out.warnings.contains(w) <==> run.warnings.contains(w)
        }),
{
    crate::event::distinct_warnings_differ(run.warnings);
}

/// What a response is warned about: a cost in another currency than the total, an answer that was cut
/// off, and a turn too long for the cache. Nothing is warned about otherwise.
pub proof fn responses_are_warned_about(totals: UsageTotalsView, response: ResponseView)
    requires
        response.items.len() + calls_among(response.items).len() <= u32::MAX,
    ensures
        ({
            let w = response_warnings(totals, response);
            let blocks = response.items.len() + calls_among(response.items).len();
            let clash = totals.reported_cost is Some && response.usage.reported_cost is Some
                && totals.reported_cost->0.currency != response.usage.reported_cost->0.currency;
            let cut = response.stop is MaxTokens;
            &&& w.len() == (if clash { 1int } else { 0 }) + (if cut { 1int } else { 0 }) + (
            if blocks > 20 { 1int } else { 0 })
            &&& blocks > 20 ==> w.last() == (WarningView::LookbackExceeded {
                blocks: blocks as u32,
                limit: 20,
            })
            &&& cut ==> exists|k: int|
                0 <= k < w.len() && (#[trigger] w[k] matches WarningView::Degraded { capability, .. }
                    && capability == "output-length"@)
            &&& clash ==> (w[0] matches WarningView::Degraded { capability, .. } && capability
                == "cost-accounting"@)
        }),
{
    let w = response_warnings(totals, response);
    if response.stop is MaxTokens {
        let k = if totals.clashes(response.usage) {
            1int
        } else {
            0
        };
        assert(w[k] is Degraded);
    }
}

/// Before it asks, a run remembers the prompt as it goes out and warns of what was done to it: of
/// pressure exactly where something had to go, and of all that the plan warns of, which is noted in
/// the journal too. Nothing that was warned of before is lost.
pub proof fn asking_remembers_and_warns(run: RunView, segments: Seq<Segment>)
    ensures
        ({
            let (keep, evicted) = fitted(segments, run.budget);
            let plan = plan_of(keep, run.previous, run.caps.cache);
            let after = asking(run, segments);
            let n = run.warnings.len() as int;
            let told = if evicted.len() > 0 { 1int } else { 0 };
            let noted_before = run.journal.events.len() as int;
            &&& after.previous == hashes_of(keep)
            &&& after.warnings.len() == n + told + plan.warnings.len()
            &&& after.warnings.take(n) == run.warnings
            &&& evicted.len() > 0 ==> after.warnings[n] is BudgetPressure
            &&& after.warnings.skip(n + told) == plan.warnings
            &&& after.journal.entries == run.journal.entries
            &&& after.journal.events.len() == noted_before + plan.warnings.len()
            &&& after.journal.events.take(noted_before) == run.journal.events
            &&& forall|i: int|
                0 <= i < plan.warnings.len() ==> (#[trigger] after.journal.events[noted_before + i]).kind
                    == (EventKindView::Warned { warning: plan.warnings[i] })
            &&& after.totals == run.totals
        }),
{
    let (keep, evicted) = fitted(segments, run.budget);
    let plan = plan_of(keep, run.previous, run.caps.cache);
    let after = asking(run, segments);
    let n = run.warnings.len() as int;
    let told = if evicted.len() > 0 { 1int } else { 0 };
    warnings_are_noted(run.journal, run.index, plan.warnings);
    assert(after.warnings == run.warnings + fit_warnings(segments, run.budget) + plan.warnings);
    assert(after.warnings.take(n) == run.warnings);
    assert(after.warnings.skip(n + told) == plan.warnings);
}

proof fn warnings_are_noted(j: JournalView, index: u32, w: Seq<WarningView>)
    ensures
        ({
            let after = noted_warnings(j, index, w);
            let n = j.events.len() as int;
            &&& after.entries == j.entries
            &&& after.events.len() == n + w.len()
            &&& after.events.take(n) == j.events
            &&& forall|i: int|
                0 <= i < w.len() ==> (#[trigger] after.events[n + i]).kind == (EventKindView::Warned {
                    warning: w[i],
                })
        }),
    decreases w.len(),
{
    let n = j.events.len() as int;
    let after = noted_warnings(j, index, w);
    if w.len() > 0 {
        let less = noted_warnings(j, index, w.drop_last());
        warnings_are_noted(j, index, w.drop_last());
        assert(after.events.take(n) == less.events.take(n));
        assert forall|i: int| 0 <= i < w.len() implies (#[trigger] after.events[n + i]).kind == (
        EventKindView::Warned { warning: w[i] }) by {
            if i < w.len() - 1 {
                assert(less.events[n + i].kind == (EventKindView::Warned { warning: w[i] }));
            }
        }
    } else {
        assert(j.events.take(n) == j.events);
    }
}

/// A call is made as the model asked for it, in the run and session it belongs to, with nothing
/// granted to it and with a story that names the tool.
pub proof fn calls_are_made_as_the_model_asked(
    run: RunView,
    call: ToolCallView,
    invocation: Invocation,
    cx: ToolCx,
)
    requires
        call_made(run, call, invocation, cx),
    ensures
        invocation.id@ == call.id,
        invocation.name@ == call.name,
        invocation.args@ == call.args,
        invocation.caller == call.caller,
        cx.run@ == run.run_id,
        cx.session@ == run.session,
        cx.grants@.len() == 0,
        mentions(cx.provenance@.origin, call.name),
        cx.resume is None,
{
    broadcast use group_mentions;

}

/// A tool is found by its name, the first of that name where there are several, and is missing
/// exactly where none has it. A missing tool is told by its name, with what to do instead.
pub proof fn tools_are_found_by_name(defs: Seq<ToolDefinitionView>, name: Seq<char>)
    ensures
        definition_at(defs, name) is None <==> forall|i: int|
            0 <= i < defs.len() ==> (#[trigger] defs[i]).name != name,
        definition_at(defs, name) matches Some(i) ==> 0 <= i < defs.len() && defs[i].name == name
            && forall|j: int| 0 <= j < i ==> (#[trigger] defs[j]).name != name,
        missing_tool(name).kind == ToolErrorKind::NotFound,
        mentions(missing_tool(name).model.summary, name),
        missing_tool(name).model.guidance is Some,
    decreases defs.len(),
{
    broadcast use group_mentions;

    if defs.len() > 0 {
        let less = defs.drop_last();
        tools_are_found_by_name(less, name);
        assert(forall|i: int| 0 <= i < less.len() ==> less[i] == #[trigger] defs[i]);
        assert(defs[defs.len() - 1] == defs.last());
        if definition_at(less, name) is Some {
            assert(defs[definition_at(less, name)->0].name == name);
        }
    }
}

/// What a tool gave back joins the results at their end and is recorded as it was told to the model.
/// The calls, the conversation and the counts stay as they were.
pub proof fn what_a_tool_gave_back_is_recorded(c: CallingView, outcome: ToolOutcome<ToolValue>)
    requires
        c.results.len() < c.calls.len(),
    ensures
        ({
            let after = returned(c, outcome);
            let call = c.calls[c.results.len() as int];
            let n = c.run.journal.entries.len() as int;
            &&& after.calls == c.calls
            &&& after.results.len() == c.results.len() + 1
            &&& after.results.drop_last() == c.results
            &&& after.run.turns == c.run.turns && after.run.totals == c.run.totals
                && after.run.definitions == c.run.definitions
            &&& after.run.journal.entries.len() == n + 1
            &&& after.run.journal.entries.take(n) == c.run.journal.entries
            &&& match (after.results.last(), after.run.journal.entries[n].effect) {
                (
                    ItemView::ToolResult { id, content, is_error, .. },
                    EffectView::ToolResult { tool, content: told, is_error: failed },
                ) => id == call.id && tool == call.name && told == content && failed == is_error
                    && is_error == !(outcome is Done),
                _ => false,
            }
        }),
{
}

/// What is held back of a result is told: how many bytes there are more.
pub proof fn withheld_bytes_are_told(value: ToolValue)
    requires
        value.inner()@.bytes_elided > 0,
    ensures
        mentions(rendered(ToolOutcome::Done(value)).0, value.inner()@.text),
        mentions(rendered(ToolOutcome::Done(value)).0, dec(value.inner()@.bytes_elided as nat)),
        rendered(ToolOutcome::Done(value)).2 == value.inner()@.bytes_elided,
{
    broadcast use group_mentions;

}

/// Why a run ended without an answer is told: what the prompt needed and had, how many turns were
/// used, or what was asked for.
pub proof fn failed_runs_say_why(e: RunError)
    ensures
        match e {
            RunError::Provider(p) => run_error_text(e) == provider_error_text(p),
            RunError::Budget(b) => mentions(run_error_text(e), dec(b.needed as nat)) && mentions(
                run_error_text(e),
                dec(b.available as nat),
            ) && mentions(run_error_text(e), b.protected@),
            RunError::TurnLimit { limit } => mentions(run_error_text(e), dec(limit as nat)),
            RunError::NeedsInput { what } => mentions(run_error_text(e), what@),
        },
{
    broadcast use group_mentions;

}

} // verus!
