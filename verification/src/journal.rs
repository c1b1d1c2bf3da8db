//! The journal of a run, and replaying it.
//!
//! Only effects that another run could not recompute are recorded. A replay hands them back in
//! order and refuses to improvise: a request that differs from the recorded one is reported.

use vstd::prelude::*;
use vstd::utf8::encode_utf8;

use crate::cache::capped;
use crate::event::{Event, EventView};
use crate::hash::{blake3_digest, framed, hash_texts, part_boundaries_are_significant};
use crate::ids::{ProviderId, RunId, SeqId};
use crate::item::{copy_items, role_name, Item, ItemView, Role, Turn, TurnView};
use crate::json::{render, Json};
use crate::provider::{ProviderError, Request, RequestView, Response, ResponseView, StopReason};
use crate::provider_caps::ProviderCapabilities;
use crate::segment::{hash_debug, ContentHash};
use crate::text::{as_lines, copy_texts, debug_quoted, dec, decimal_usize, join, joined, middle_counts, no_text, one_line, lines, lines_round_trip, push_decimal, quote_debug, same_text, split_lines, texts, trim, trimmed, group_mentions, joining_keeps_every_part, mentions};
use crate::tool_def::{ToolDefinition, ToolDefinitionView};
use crate::usage::{no_tokens, no_usage, Usage, UsageTotals, UsageTotalsView};

verus! {

/// One recorded effect that another run could not recompute.
#[derive(Debug, PartialEq, Eq)]
#[non_exhaustive]
pub enum Effect {
    /// A model produced a response.
    ModelResponse {
        /// A fingerprint of the request that produced it.
        request: RequestFingerprint,
        /// What came back.
        items: Vec<Item>,
        /// What it consumed.
        usage: Usage,
        /// Why it stopped.
        stop: StopReason,
    },
    /// A tool produced a result.
    ToolResult {
        /// Which tool.
        tool: String,
        /// What it returned, as the model saw it.
        content: String,
        /// Whether it failed.
        is_error: bool,
    },
    /// Something outside the run was needed and supplied.
    InputSupplied {
        /// What was asked for.
        request: String,
        /// What came back.
        response: String,
    },
}

/// What was recorded.
pub enum EffectView {
    ModelResponse {
        request: FingerprintView,
        items: Seq<ItemView>,
        usage: Usage,
        stop: StopReason,
    },
    ToolResult { tool: Seq<char>, content: Seq<char>, is_error: bool },
    InputSupplied { request: Seq<char>, response: Seq<char> },
}

impl View for Effect {
    type V = EffectView;

    open spec fn view(&self) -> EffectView {
        match *self {
            Effect::ModelResponse { request, items, usage, stop } => EffectView::ModelResponse {
                request: request@,
                items: items.deep_view(),
                usage,
                stop,
            },
            Effect::ToolResult { tool, content, is_error } => EffectView::ToolResult {
                tool: tool@,
                content: content@,
                is_error,
            },
            Effect::InputSupplied { request, response } => EffectView::InputSupplied {
                request: request@,
                response: response@,
            },
        }
    }
}

impl Clone for Effect {
    fn clone(&self) -> (r: Self)
        ensures
            r@ == self@,
    {
        match self {
            Effect::ModelResponse { request, items, usage, stop } => Effect::ModelResponse {
                request: request.clone(),
                items: copy_items(items),
                usage: usage.clone(),
                stop: stop.clone(),
            },
            Effect::ToolResult { tool, content, is_error } => Effect::ToolResult {
                tool: tool.clone(),
                content: content.clone(),
                is_error: *is_error,
            },
            Effect::InputSupplied { request, response } => Effect::InputSupplied {
                request: request.clone(),
                response: response.clone(),
            },
        }
    }
}

/// A flag as it is shown for debugging.
pub open spec fn flag_text(b: bool) -> Seq<char> {
    if b {
        "true"@
    } else {
        "false"@
    }
}

/// An effect that is not a model response, as it is shown for debugging.
pub open spec fn effect_debug(e: EffectView) -> Seq<char> {
    match e {
        EffectView::ToolResult { tool, content, is_error } => "ToolResult { tool: "@
            + debug_quoted(tool) + ", content: "@ + debug_quoted(content) + ", is_error: "@
            + flag_text(is_error) + " }"@,
        EffectView::InputSupplied { request, response } => "InputSupplied { request: "@
            + debug_quoted(request) + ", response: "@ + debug_quoted(response) + " }"@,
        EffectView::ModelResponse { .. } => Seq::empty(),
    }
}

impl Effect {
    /// A short label, so a journal can be read without a debugger.
    #[must_use]
    pub fn label(&self) -> (r: &'static str)
        ensures
            r@ == (match self@ {
                EffectView::ModelResponse { .. } => "model-response"@,
                EffectView::ToolResult { .. } => "tool-result"@,
                EffectView::InputSupplied { .. } => "input-supplied"@,
            }),
    {
        match self {
            Effect::ModelResponse { .. } => "model-response",
            Effect::ToolResult { .. } => "tool-result",
            Effect::InputSupplied { .. } => "input-supplied",
        }
    }

    fn debug_text(&self) -> (r: String)
        ensures
            r@ == effect_debug(self@),
    {
        match self {
            Effect::ToolResult { tool, content, is_error } => {
                let mut out = "ToolResult { tool: ".to_owned();
                out.push_str(quote_debug(tool.as_str()).as_str());
                out.push_str(", content: ");
                out.push_str(quote_debug(content.as_str()).as_str());
                out.push_str(", is_error: ");
                out.push_str(
                    if *is_error {
                        "true"
                    } else {
                        "false"
                    },
                );
                out.push_str(" }");
                out
            },
            Effect::InputSupplied { request, response } => {
                let mut out = "InputSupplied { request: ".to_owned();
                out.push_str(quote_debug(request.as_str()).as_str());
                out.push_str(", response: ");
                out.push_str(quote_debug(response.as_str()).as_str());
                out.push_str(" }");
                out
            },
            Effect::ModelResponse { .. } => String::new(),
        }
    }
}

/// Enough of a request to notice that it changed, without storing the whole prompt twice.
#[derive(Debug, PartialEq, Eq)]
pub struct RequestFingerprint {
    /// Which model.
    pub model: String,
    /// How many turns were sent.
    pub turns: u32,
    /// Which tools were visible, in presentation order.
    pub tools: Vec<String>,
    /// A hash of what was in the prompt. Absent in journals that recorded none; then it is unknown
    /// whether the prompts match.
    pub content: Option<ContentHash>,
}

/// What a fingerprint says.
#[verifier::ext_equal]
pub struct FingerprintView {
    pub model: Seq<char>,
    pub turns: u32,
    pub tools: Seq<Seq<char>>,
    pub content: Option<Seq<u8>>,
}

/// The bytes inside, where there are some.
pub open spec fn opt_hash(h: Option<ContentHash>) -> Option<Seq<u8>> {
    match h {
        Some(h) => Some(h@),
        None => None,
    }
}

impl View for RequestFingerprint {
    type V = FingerprintView;

    open spec fn view(&self) -> FingerprintView {
        FingerprintView {
            model: self.model@,
            turns: self.turns,
            tools: texts(self.tools@),
            content: opt_hash(self.content),
        }
    }
}

impl Clone for RequestFingerprint {
    fn clone(&self) -> (r: Self)
        ensures
            r@ == self@,
    {
        RequestFingerprint {
            model: self.model.clone(),
            turns: self.turns,
            tools: copy_texts(&self.tools),
            content: self.content,
        }
    }
}

/// How two fingerprints differ.
#[derive(Debug, Clone, Copy, PartialEq, Eq, Structural)]
pub enum Divergence {
    /// Identical, content too.
    Same,
    /// The shape matches and the content differs: same model, same turn count, same tools, and a
    /// different prompt.
    Content,
    /// Model, turn count or tool list differs.
    Shape,
    /// The shape matches and one side has no content hash, so the prompts cannot be compared.
    Unknown,
}

/// How two fingerprints differ.
pub open spec fn divergence(a: FingerprintView, b: FingerprintView) -> Divergence {
    if a.model != b.model || a.turns != b.turns || a.tools != b.tools {
        Divergence::Shape
    } else {
        match (a.content, b.content) {
            (Some(x), Some(y)) => if x == y {
                Divergence::Same
            } else {
                Divergence::Content
            },
            _ => Divergence::Unknown,
        }
    }
}

fn same_texts(a: &Vec<String>, b: &Vec<String>) -> (r: bool)
    ensures
        r == (texts(a@) == texts(b@)),
{
    if a.len() != b.len() {
        assert(texts(a@).len() != texts(b@).len());
        return false;
    }
    let mut i: usize = 0;
    while i < a.len()
        invariant
            i <= a@.len(),
            a@.len() == b@.len(),
            forall|j: int| 0 <= j < i ==> (#[trigger] a@[j])@ == b@[j]@,
        decreases a@.len() - i,
    {
        if !same_text(a[i].as_str(), b[i].as_str()) {
            assert(texts(a@)[i as int] != texts(b@)[i as int]);
            return false;
        }
        i = i + 1;
    }
    assert(texts(a@) == texts(b@));
    true
}

impl RequestFingerprint {
    /// Compare against what this run is asking for.
    #[must_use]
    pub fn diverges_from(&self, other: &Self) -> (r: Divergence)
        ensures
            r == divergence(self@, other@),
    {
        if !same_text(self.model.as_str(), other.model.as_str()) || self.turns != other.turns
            || !same_texts(&self.tools, &other.tools) {
            return Divergence::Shape;
        }
        match (self.content, other.content) {
            (Some(a), Some(b)) => {
                if a.same(&b) {
                    Divergence::Same
                } else {
                    Divergence::Content
                }
            },
            _ => Divergence::Unknown,
        }
    }
}

/// Divergence has no direction, and a fingerprint that holds a content hash never diverges from
/// itself. Only fingerprints equal in every part are the same.
pub proof fn divergence_is_symmetric(a: FingerprintView, b: FingerprintView)
    ensures
        divergence(a, b) == divergence(b, a),
        a.content is Some ==> divergence(a, a) is Same,
        divergence(a, b) is Same <==> a == b && a.content is Some,
{
}

/// One entry in the journal.
#[derive(Debug, PartialEq, Eq)]
pub struct Entry {
    /// Position in the run.
    pub seq: SeqId,
    /// What happened.
    pub effect: Effect,
}

/// One entry in the journal.
#[verifier::ext_equal]
pub struct EntryView {
    pub seq: SeqId,
    pub effect: EffectView,
}

impl DeepView for Entry {
    type V = EntryView;

    open spec fn deep_view(&self) -> EntryView {
        EntryView { seq: self.seq, effect: self.effect@ }
    }
}

impl Clone for Entry {
    fn clone(&self) -> (r: Self)
        ensures
            r.deep_view() == self.deep_view(),
    {
        Entry { seq: self.seq, effect: self.effect.clone() }
    }
}

/// An append-only record of one run.
#[derive(Debug, PartialEq, Eq)]
pub struct Journal {
    /// Which run.
    pub run: RunId,
    /// What happened, in order.
    pub entries: Vec<Entry>,
    /// Everything the run emitted but the presentation deltas, for transcript rendering.
    pub events: Vec<Event>,
    dropped: u64,
}

/// What a journal holds.
#[verifier::ext_equal]
pub struct JournalView {
    pub run: Seq<char>,
    pub entries: Seq<EntryView>,
    pub events: Seq<EventView>,
    pub dropped: u64,
}

impl View for Journal {
    type V = JournalView;

    closed spec fn view(&self) -> JournalView {
        JournalView {
            run: self.run@,
            entries: self.entries.deep_view(),
            events: self.events.deep_view(),
            dropped: self.dropped,
        }
    }
}

impl Clone for Journal {
    fn clone(&self) -> (r: Self)
        ensures
            r@ == self@,
    {
        let mut entries: Vec<Entry> = Vec::new();
        let mut i: usize = 0;
        while i < self.entries.len()
            invariant
                i <= self.entries@.len(),
                entries@.len() == i,
                forall|j: int|
                    0 <= j < i ==> (#[trigger] entries@[j]).deep_view()
                        == self.entries@[j].deep_view(),
            decreases self.entries@.len() - i,
        {
            entries.push(self.entries[i].clone());
            i = i + 1;
        }
        let mut events: Vec<Event> = Vec::new();
        let mut k: usize = 0;
        while k < self.events.len()
            invariant
                k <= self.events@.len(),
                events@.len() == k,
                forall|j: int| 0 <= j < k ==> (#[trigger] events@[j])@ == self.events@[j]@,
            decreases self.events@.len() - k,
        {
            events.push(self.events[k].clone());
            k = k + 1;
        }
        assert(entries.deep_view() == self.entries.deep_view());
        assert(events.deep_view() == self.events.deep_view());
        Journal { run: self.run.clone(), entries, events, dropped: self.dropped }
    }
}

/// A journal in which nothing happened yet.
pub open spec fn empty_journal(run: Seq<char>) -> JournalView {
    JournalView { run, entries: Seq::empty(), events: Seq::empty(), dropped: 0 }
}

/// The journal with one more effect.
pub open spec fn recorded(j: JournalView, effect: EffectView) -> JournalView {
    JournalView {
        entries: j.entries.push(EntryView { seq: SeqId(capped(j.entries.len())), effect }),
        ..j
    }
}

/// The journal after an event. A presentation delta is counted, anything else is kept.
pub open spec fn noted(j: JournalView, event: EventView) -> JournalView {
    if event.kind.droppable() {
        JournalView {
            dropped: if j.dropped < u64::MAX {
                (j.dropped + 1) as u64
            } else {
                j.dropped
            },
            ..j
        }
    } else {
        JournalView { events: j.events.push(event), ..j }
    }
}

/// What the recorded model calls consumed.
pub open spec fn consumed(entries: Seq<EntryView>) -> UsageTotalsView
    decreases entries.len(),
{
    if entries.len() == 0 {
        no_usage()
    } else {
        match entries.last().effect {
            EffectView::ModelResponse { usage, .. } => consumed(entries.drop_last()).plus(
                "run"@,
                usage,
            ),
            _ => consumed(entries.drop_last()),
        }
    }
}

/// Whether the token counts of the recorded model calls can be summed.
pub open spec fn countable(entries: Seq<EntryView>) -> bool {
    forall|i: int|
        0 <= i < entries.len() ==> ((#[trigger] entries[i]).effect matches
            EffectView::ModelResponse { usage, .. } ==> consumed(entries.take(i)).has_room(
            "run"@,
            usage,
        ))
}

impl Journal {
    /// An empty journal for `run`.
    #[must_use]
    pub fn new(run: RunId) -> (r: Self)
        ensures
            r@ == empty_journal(run@),
    {
        let r = Journal { run, entries: Vec::new(), events: Vec::new(), dropped: 0 };
        assert(r@ =~= empty_journal(run@));
        r
    }

    /// Append an effect, returning its sequence number.
    pub fn record(&mut self, effect: Effect) -> (r: SeqId)
        ensures
            final(self)@ == recorded(old(self)@, effect@),
            r == SeqId(capped(old(self)@.entries.len())),
    {
        let n: usize = self.entries.len();
        let seq = SeqId(
            if n as u64 > u32::MAX as u64 {
                u32::MAX
            } else {
                n as u32
            },
        );
        self.entries.push(Entry { seq, effect });
        assert(self@ =~= recorded(old(self)@, effect@));
        seq
    }

    /// Append an event worth keeping in the transcript.
    ///
    /// Presentation events are dropped, and the count is kept. A journal is a record of what
    /// happened, not a replay of how it looked arriving.
    pub fn record_event(&mut self, event: Event)
        ensures
            final(self)@ == noted(old(self)@, event@),
    {
        if event.kind.is_semantic() {
            self.events.push(event);
        } else if self.dropped < u64::MAX {
            self.dropped = self.dropped + 1;
        }
        assert(self@ =~= noted(old(self)@, event@));
    }

    /// How many presentation events were discarded on the way in.
    #[must_use]
    pub fn dropped(&self) -> (r: u64)
        ensures
            r == self@.dropped,
    {
        self.dropped
    }

    /// How many effects were recorded.
    #[must_use]
    pub fn len(&self) -> (r: usize)
        ensures
            r == self@.entries.len(),
    {
        self.entries.len()
    }

    /// Whether nothing was recorded.
    #[must_use]
    pub fn is_empty(&self) -> (r: bool)
        ensures
            r == (self@.entries.len() == 0),
    {
        self.entries.len() == 0
    }

    /// What the run consumed, recomputed from the record. A mixed-currency run cannot be summed;
    /// its tokens are counted all the same.
    #[must_use]
    pub fn totals(&self) -> (r: UsageTotals)
        requires
            countable(self@.entries),
        ensures
            r@ == consumed(self@.entries),
            r.well_formed(),
    {
        let mut totals = UsageTotals::default();
        let ghost all = self@.entries;
        let mut i: usize = 0;
        assert(all.take(0) == Seq::<EntryView>::empty());
        while i < self.entries.len()
            invariant
                i <= self.entries@.len(),
                all == self.entries.deep_view(),
                countable(all),
                totals@ == consumed(all.take(i as int)),
                totals.well_formed(),
            decreases self.entries@.len() - i,
        {
            assert(all.take(i + 1).drop_last() == all.take(i as int));
            assert(all.take(i + 1).last() == all[i as int]);
            if let Effect::ModelResponse { usage, .. } = &self.entries[i].effect {
                let _ = totals.record("run", usage);
            }
            i = i + 1;
        }
        assert(all.take(all.len() as int) == all);
        totals
    }
}

/// An event never takes an effect with it: recording one leaves the other's record alone, and an
/// event that is no presentation delta is always kept.
pub proof fn only_presentation_is_dropped(j: JournalView, event: EventView, effect: EffectView)
    ensures
        noted(j, event).entries == j.entries,
        recorded(j, effect).events == j.events,
        recorded(j, effect).dropped == j.dropped,
        !event.kind.droppable() ==> noted(j, event).events == j.events.push(event) && noted(
            j,
            event,
        ).dropped == j.dropped,
        event.kind.droppable() ==> noted(j, event).events == j.events,
        event.kind.droppable() && j.dropped < u64::MAX ==> noted(j, event).dropped == j.dropped + 1,
{
}

/// The lines of a journal file: each effect as it is, then each event under the name `event`.
pub open spec fn file_lines(effects: Seq<Seq<char>>, events: Seq<Seq<char>>) -> Seq<Seq<char>> {
    effects + Seq::new(events.len(), |i: int| "{\"event\":"@ + events[i] + "}"@)
}

/// The text of a journal file, from its effects and events as JSON. One record per line, effects
/// first and then events. The name in front of an event is what lets a reader tell the two apart.
pub fn frame_lines(effects: &Vec<String>, events: &Vec<String>) -> (r: String)
    ensures
        r@ == as_lines(file_lines(texts(effects@), texts(events@))),
{
    let ghost all = file_lines(texts(effects@), texts(events@));
    let mut out = String::new();
    let mut i: usize = 0;
    while i < effects.len()
        invariant
            i <= effects@.len(),
            all == file_lines(texts(effects@), texts(events@)),
            out@ == as_lines(all.take(i as int)),
        decreases effects@.len() - i,
    {
        assert(all.take(i + 1).drop_last() == all.take(i as int));
        assert(all.take(i + 1).last() == effects@[i as int]@);
        let ghost before = out@;
        out.push_str(effects[i].as_str());
        out.push('\n');
        assert(out@ == before + effects@[i as int]@ + seq!['\n']);
        i = i + 1;
    }
    let mut k: usize = 0;
    while k < events.len()
        invariant
            k <= events@.len(),
            all == file_lines(texts(effects@), texts(events@)),
            out@ == as_lines(all.take(effects@.len() + k)),
        decreases events@.len() - k,
    {
        let ghost n = effects@.len() + k;
        assert(all.take(n + 1).drop_last() == all.take(n));
        assert(all.take(n + 1).last() == "{\"event\":"@ + events@[k as int]@ + "}"@);
        let ghost before = out@;
        let mut line = "{\"event\":".to_owned();
        line.push_str(events[k].as_str());
        line.push_str("}");
        out.push_str(line.as_str());
        out.push('\n');
        assert(out@ == before + line@ + seq!['\n']);
        k = k + 1;
    }
    assert(all.take(all.len() as int) == all);
    out
}

/// The lines that hold something.
pub open spec fn filled(all: Seq<Seq<char>>) -> Seq<Seq<char>>
    decreases all.len(),
{
    if all.len() == 0 {
        Seq::empty()
    } else if trimmed(all.last()).len() == 0 {
        filled(all.drop_last())
    } else {
        filled(all.drop_last()).push(all.last())
    }
}

/// The records of a journal file, each still as JSON. Blank lines are passed over.
pub fn record_lines(text: &str) -> (r: Vec<String>)
    ensures
        texts(r@) == filled(lines(text@)),
{
    let all = split_lines(text);
    let ghost every = texts(all@);
    let mut out: Vec<String> = Vec::new();
    assert(texts(out@) == Seq::<Seq<char>>::empty());
    let mut i: usize = 0;
    while i < all.len()
        invariant
            i <= all@.len(),
            every == texts(all@),
            texts(out@) == filled(every.take(i as int)),
        decreases all@.len() - i,
    {
        assert(every.take(i + 1).drop_last() == every.take(i as int));
        assert(every.take(i + 1).last() == all@[i as int]@);
        if !no_text(trim(all[i].as_str()).as_str()) {
            let ghost before = out@;
            out.push(all[i].clone());
            assert(texts(out@) == texts(before).push(all@[i as int]@));
        }
        i = i + 1;
    }
    assert(every.take(every.len() as int) == every);
    out
}

proof fn filled_keeps_the_filled(all: Seq<Seq<char>>)
    requires
        forall|i: int| 0 <= i < all.len() ==> trimmed(#[trigger] all[i]).len() > 0,
    ensures
        filled(all) == all,
    decreases all.len(),
{
    if all.len() > 0 {
        assert forall|i: int| 0 <= i < all.drop_last().len() implies trimmed(
            #[trigger] all.drop_last()[i],
        ).len() > 0 by {
            assert(all.drop_last()[i] == all[i]);
        }
        filled_keeps_the_filled(all.drop_last());
        assert(all.drop_last().push(all.last()) == all);
    } else {
        assert(filled(all) == all);
    }
}

/// A journal file gives back every record that was written to it, effects and events, in order.
/// Each record must stand on one line and not be blank, as JSON written without breaks does.
pub proof fn journal_files_round_trip(effects: Seq<Seq<char>>, events: Seq<Seq<char>>)
    requires
        forall|i: int|
            0 <= i < file_lines(effects, events).len() ==> one_line(
                #[trigger] file_lines(effects, events)[i],
            ) && trimmed(file_lines(effects, events)[i]).len() > 0,
    ensures
        filled(lines(as_lines(file_lines(effects, events)))) == file_lines(effects, events),
{
    lines_round_trip(file_lines(effects, events));
    filled_keeps_the_filled(file_lines(effects, events));
}

/// What a line of a journal file holds, once it is read as JSON.
#[derive(Debug, PartialEq, Eq)]
pub enum Record {
    /// An event, still as JSON.
    Event(Json),
    /// An effect with its position, still as JSON.
    Entry(Json),
}

/// Tell an event from an effect.
pub fn sort_record(value: Json) -> (r: Record)
    ensures
        match value@.get("event"@) {
            Some(e) => r matches Record::Event(j) && j@ == e,
            None => r matches Record::Entry(j) && j@ == value@,
        },
{
    let event = match value.get("event") {
        Some(e) => Some(e.copy()),
        None => None,
    };
    match event {
        Some(e) => Record::Event(e),
        None => Record::Entry(value),
    }
}

/// A recorded run diverged from what is being replayed.
#[derive(Debug, PartialEq, Eq)]
#[non_exhaustive]
pub enum ReplayError {
    /// The journal ran out before the run did.
    Exhausted {
        /// How many steps were recorded.
        recorded: usize,
    },
    /// The run asked for something different from what was recorded.
    Diverged {
        /// Where.
        seq: SeqId,
        /// What the journal holds.
        recorded: String,
        /// What the run asked for.
        actual: String,
    },
}

/// How a replay failed.
pub enum ReplayErrorView {
    Exhausted { recorded: nat },
    Diverged { seq: SeqId, recorded: Seq<char>, actual: Seq<char> },
}

impl View for ReplayError {
    type V = ReplayErrorView;

    open spec fn view(&self) -> ReplayErrorView {
        match *self {
            ReplayError::Exhausted { recorded } => ReplayErrorView::Exhausted {
                recorded: recorded as nat,
            },
            ReplayError::Diverged { seq, recorded, actual } => ReplayErrorView::Diverged {
                seq,
                recorded: recorded@,
                actual: actual@,
            },
        }
    }
}

/// A replay error in words.
pub open spec fn replay_error_text(e: ReplayErrorView) -> Seq<char> {
    match e {
        ReplayErrorView::Exhausted { recorded } => "the journal ended after "@ + dec(recorded)
            + " step(s) but the run wanted another. The run is longer than the recording, so something upstream changed."@,
        ReplayErrorView::Diverged { seq, recorded, actual } => "replay diverged at step "@ + ("seq-"@
            + dec(seq.0 as nat)) + ": recorded "@ + recorded + ", but this run produced "@ + actual
            + ". Divergence is reported rather than absorbed, because a replay that quietly adapts is worse than no replay at all."@,
    }
}

impl ReplayError {
    /// The error in words.
    pub fn to_string(&self) -> (r: String)
        ensures
            r@ == replay_error_text(self@),
    {
        match self {
            ReplayError::Exhausted { recorded } => {
                let mut out = "the journal ended after ".to_owned();
                out.push_str(decimal_usize(*recorded).as_str());
                out.push_str(
                    " step(s) but the run wanted another. The run is longer than the recording, so something upstream changed.",
                );
                out
            },
            ReplayError::Diverged { seq, recorded, actual } => {
                let mut out = "replay diverged at step ".to_owned();
                out.push_str(seq.to_string().as_str());
                out.push_str(": recorded ");
                out.push_str(recorded.as_str());
                out.push_str(", but this run produced ");
                out.push_str(actual.as_str());
                out.push_str(
                    ". Divergence is reported rather than absorbed, because a replay that quietly adapts is worse than no replay at all.",
                );
                out
            },
        }
    }
}

/// Feeds a recorded journal back, in order, refusing to improvise.
#[derive(Debug)]
pub struct Replay {
    journal: Journal,
    next: usize,
}

/// A replay under way.
#[verifier::ext_equal]
pub struct ReplayView {
    pub journal: JournalView,
    pub next: nat,
}

impl View for Replay {
    type V = ReplayView;

    closed spec fn view(&self) -> ReplayView {
        ReplayView { journal: self.journal@, next: self.next as nat }
    }
}

impl Clone for Replay {
    fn clone(&self) -> (r: Self)
        ensures
            r@ == self@,
    {
        Replay { journal: self.journal.clone(), next: self.next }
    }
}

/// What a replay answers to a request with this fingerprint.
pub open spec fn replayed(
    entries: Seq<EntryView>,
    next: nat,
    asked: FingerprintView,
) -> Result<(Seq<ItemView>, Usage, StopReason), ReplayErrorView> {
    if next >= entries.len() {
        Err(ReplayErrorView::Exhausted { recorded: entries.len() })
    } else {
        let entry = entries[next as int];
        match entry.effect {
            EffectView::ModelResponse { request, items, usage, stop } => {
                match divergence(request, asked) {
                    Divergence::Content | Divergence::Shape => Err(
                        ReplayErrorView::Diverged {
                            seq: entry.seq,
                            recorded: described(request),
                            actual: described(asked),
                        },
                    ),
                    _ => Ok((items, usage, stop)),
                }
            },
            _ => Err(
                ReplayErrorView::Diverged {
                    seq: entry.seq,
                    recorded: effect_debug(entry.effect),
                    actual: "a model call"@,
                },
            ),
        }
    }
}

impl Replay {
    /// Replay `journal` from the beginning.
    #[must_use]
    pub fn new(journal: Journal) -> (r: Self)
        ensures
            r@ == (ReplayView { journal: journal@, next: 0 }),
    {
        Replay { journal, next: 0 }
    }

    /// Take the next recorded model response, checking that the request still matches. A journal
    /// with no content hash can only be checked for shape; that is let through. A step that recorded
    /// anything but a response is a divergence.
    pub fn next_response(&mut self, fingerprint: &RequestFingerprint) -> (r: Result<
        (Vec<Item>, Usage, StopReason),
        ReplayError,
    >)
        ensures
            final(self)@.journal == old(self)@.journal,
            match replayed(old(self)@.journal.entries, old(self)@.next, fingerprint@) {
                Ok((items, usage, stop)) => r matches Ok(out) && out.0.deep_view() == items
                    && out.1 == usage && out.2 == stop && final(self)@.next == old(self)@.next + 1,
                Err(e) => r matches Err(why) && why@ == e && final(self)@.next == old(self)@.next,
            },
    {
        let at: usize = self.next;
        if at >= self.journal.entries.len() {
            return Err(ReplayError::Exhausted { recorded: self.journal.entries.len() });
        }
        let entry = &self.journal.entries[at];
        assert(self.journal@.entries[at as int] == entry.deep_view());
        match &entry.effect {
            Effect::ModelResponse { request, items, usage, stop } => {
                match request.diverges_from(fingerprint) {
                    Divergence::Same | Divergence::Unknown => {
                        let out = (copy_items(items), usage.clone(), stop.clone());
                        self.next = at + 1;
                        Ok(out)
                    },
                    Divergence::Content | Divergence::Shape => Err(
                        ReplayError::Diverged {
                            seq: entry.seq,
                            recorded: describe(request),
                            actual: describe(fingerprint),
                        },
                    ),
                }
            },
            _ => Err(
                ReplayError::Diverged {
                    seq: entry.seq,
                    recorded: entry.effect.debug_text(),
                    actual: "a model call".to_owned(),
                },
            ),
        }
    }

    /// Pass over what was recorded up to the next response.
    fn pass_over(&mut self)
        ensures
            final(self)@.journal == old(self)@.journal,
            final(self)@.next == next_answer(old(self)@.journal.entries, old(self)@.next),
    {
        let ghost start = self@;
        let mut at: usize = self.next;
        while at < self.journal.entries.len()
            invariant
                self@ == start,
                next_answer(start.journal.entries, at as nat) == next_answer(
                    start.journal.entries,
                    start.next,
                ),
            ensures
                self@ == start,
                at as nat == next_answer(start.journal.entries, start.next),
            decreases self.journal.entries@.len() - at,
        {
            assert(self.journal@.entries[at as int] == self.journal.entries@[at as int].deep_view());
            match &self.journal.entries[at].effect {
                Effect::ModelResponse { .. } => {
                    break;
                },
                _ => {},
            }
            at = at + 1;
        }
        self.next = at;
    }

    /// How many responses remain unconsumed.
    fn responses_left(&self) -> (r: usize)
        ensures
            r == answers_left(self@.journal.entries, self@.next),
    {
        let ghost all = self@.journal.entries;
        let mut count: usize = 0;
        let mut at: usize = self.next;
        proof {
            if at < all.len() {
                assert(all.skip(at as int).take(0).len() == 0);
            }
        }
        while at < self.journal.entries.len()
            invariant
                all == self@.journal.entries,
                all.len() == self.journal.entries@.len(),
                self.next <= at,
                self.next < all.len() ==> at <= all.len(),
                count <= at - self.next,
                self.next < all.len() ==> count == responses_in(
                    all.skip(self.next as int).take(at - self.next),
                ),
                self.next >= all.len() ==> count == 0,
            decreases self.journal.entries@.len() - at,
        {
            assert(all[at as int] == self.journal.entries@[at as int].deep_view());
            proof {
                one_more_response(all.skip(self.next as int), at - self.next);
            }
            match &self.journal.entries[at].effect {
                Effect::ModelResponse { .. } => {
                    count = count + 1;
                },
                _ => {},
            }
            at = at + 1;
        }
        proof {
            if self.next < all.len() {
                let rest = all.skip(self.next as int);
                assert(rest.take(rest.len() as int) == rest);
            }
        }
        count
    }

    /// How many effects remain unconsumed.
    #[must_use]
    pub fn remaining(&self) -> (r: usize)
        ensures
            r == left(self@),
    {
        if self.next < self.journal.entries.len() {
            self.journal.entries.len() - self.next
        } else {
            0
        }
    }

    /// The journal being replayed.
    #[must_use]
    pub fn journal(&self) -> (r: &Journal)
        ensures
            r@ == self@.journal,
    {
        &self.journal
    }
}

/// How many effects a replay has not consumed.
pub open spec fn left(r: ReplayView) -> nat {
    if r.next < r.journal.entries.len() {
        (r.journal.entries.len() - r.next) as nat
    } else {
        0
    }
}

/// A fingerprint in words.
pub open spec fn described(f: FingerprintView) -> Seq<char> {
    "model `"@ + f.model + "` with "@ + dec(f.turns as nat) + " turn(s), tools ["@ + joined(
        f.tools,
        ", "@,
    ) + "], content "@ + (match f.content {
        Some(h) => hash_debug(h),
        None => "not hashed"@,
    })
}

/// A fingerprint in words.
pub fn describe(fingerprint: &RequestFingerprint) -> (r: String)
    ensures
        r@ == described(fingerprint@),
{
    let mut out = "model `".to_owned();
    out.push_str(fingerprint.model.as_str());
    out.push_str("` with ");
    push_decimal(&mut out, fingerprint.turns as u64);
    out.push_str(" turn(s), tools [");
    out.push_str(join(&fingerprint.tools, ", ").as_str());
    out.push_str("], content ");
    match &fingerprint.content {
        Some(h) => {
            out.push_str(h.debug_text().as_str());
        },
        None => {
            out.push_str("not hashed");
        },
    }
    out
}

/// What an item adds to the text of its turn.
pub open spec fn item_content(i: ItemView) -> Seq<char> {
    match i {
        ItemView::Text { text, .. } => text,
        ItemView::ToolCall(c) => c.name + render(c.args),
        ItemView::ToolResult { content, .. } => content,
        _ => Seq::empty(),
    }
}

/// The contents of some items, one after the other.
pub open spec fn items_content(items: Seq<ItemView>) -> Seq<char>
    decreases items.len(),
{
    if items.len() == 0 {
        Seq::empty()
    } else {
        items_content(items.drop_last()) + item_content(items.last())
    }
}

/// What a turn says: its role, a colon, and the contents of its items.
pub open spec fn turn_content(t: TurnView) -> Seq<char> {
    role_name(t.role) + ":"@ + items_content(t.items)
}

/// What a tool definition says to the model.
pub open spec fn tool_content(t: ToolDefinitionView) -> Seq<char> {
    t.name + "|"@ + t.description + "|"@ + render(t.input_schema)
}

/// What a prompt says, piece by piece: the tools in full, then the turns.
pub open spec fn prompt_parts(r: RequestView) -> Seq<Seq<char>> {
    Seq::new(r.tools.len(), |i: int| tool_content(r.tools[i])) + Seq::new(
        r.turns.len(),
        |i: int| turn_content(r.turns[i]),
    )
}

fn turn_text(turn: &Turn) -> (r: String)
    ensures
        r@ == turn_content(turn@),
{
    let mut rendered = turn.role.name().to_owned();
    rendered.push_str(":");
    let ghost lead = rendered@;
    let ghost all = turn@.items;
    let mut i: usize = 0;
    assert(all.take(0) == Seq::<ItemView>::empty());
    assert(lead + items_content(all.take(0)) == lead);
    while i < turn.items.len()
        invariant
            i <= turn.items@.len(),
            all == turn.items.deep_view(),
            rendered@ == lead + items_content(all.take(i as int)),
        decreases turn.items@.len() - i,
    {
        assert(all.take(i + 1).drop_last() == all.take(i as int));
        assert(all.take(i + 1).last() == turn.items@[i as int]@);
        let ghost before = rendered@;
        match &turn.items[i] {
            Item::Text(text) => {
                rendered.push_str(text.text.as_str());
            },
            Item::ToolCall(call) => {
                rendered.push_str(call.name.as_str());
                rendered.push_str(call.args.to_string().as_str());
                assert(rendered@ == before + (call@.name + render(call@.args)));
            },
            Item::ToolResult(result) => {
                rendered.push_str(result.content.as_str());
            },
            _ => {},
        }
        assert(rendered@ == lead + items_content(all.take(i + 1)));
        i = i + 1;
    }
    assert(all.take(all.len() as int) == all);
    rendered
}

/// What a tool definition says to the model.
pub fn tool_text(tool: &ToolDefinition) -> (r: String)
    ensures
        r@ == tool_content(tool@),
{
    let mut out = tool.name.as_str().to_owned();
    out.push_str("|");
    out.push_str(tool.description.as_str());
    out.push_str("|");
    out.push_str(tool.input_schema.as_value().to_string().as_str());
    out
}

/// Hash what the prompt says, not how it is shaped: the text and the tool definitions in full,
/// since a description may change under an unchanged tool name.
pub fn content_hash(request: &Request) -> (r: ContentHash)
    ensures
        r@ == blake3_digest(framed(prompt_parts(request@))),
{
    let mut parts: Vec<String> = Vec::new();
    let mut i: usize = 0;
    while i < request.tools.len()
        invariant
            i <= request.tools@.len(),
            parts@.len() == i,
            forall|j: int|
                0 <= j < i ==> (#[trigger] parts@[j])@ == tool_content(request.tools@[j]@),
        decreases request.tools@.len() - i,
    {
        parts.push(tool_text(&request.tools[i]));
        i = i + 1;
    }
    let ghost n = parts@.len();
    let mut k: usize = 0;
    while k < request.turns.len()
        invariant
            k <= request.turns@.len(),
            n == request.tools@.len(),
            parts@.len() == n + k,
            forall|j: int|
                0 <= j < n ==> (#[trigger] parts@[j])@ == tool_content(request.tools@[j]@),
            forall|j: int|
                n <= j < n + k ==> (#[trigger] parts@[j])@ == turn_content(request.turns@[j - n]@),
        decreases request.turns@.len() - k,
    {
        parts.push(turn_text(&request.turns[k]));
        k = k + 1;
    }
    assert(texts(parts@) == prompt_parts(request@));
    hash_texts(&parts)
}

/// The fingerprint of a request.
pub open spec fn fingerprint_of(r: RequestView) -> FingerprintView {
    FingerprintView {
        model: r.model,
        turns: capped(r.turns.len()),
        tools: Seq::new(r.tools.len(), |i: int| r.tools[i].name),
        content: Some(blake3_digest(framed(prompt_parts(r)))),
    }
}

/// Build a fingerprint from a request.
#[must_use]
pub fn fingerprint(request: &Request) -> (r: RequestFingerprint)
    ensures
        r@ == fingerprint_of(request@),
{
    let mut tools: Vec<String> = Vec::new();
    let mut i: usize = 0;
    while i < request.tools.len()
        invariant
            i <= request.tools@.len(),
            tools@.len() == i,
            forall|j: int| 0 <= j < i ==> (#[trigger] tools@[j])@ == request.tools@[j]@.name,
        decreases request.tools@.len() - i,
    {
        tools.push(request.tools[i].name.as_str().to_owned());
        i = i + 1;
    }
    let n: usize = request.turns.len();
    let r = RequestFingerprint {
        model: request.model.as_str().to_owned(),
        turns: if n as u64 > u32::MAX as u64 {
            u32::MAX
        } else {
            n as u32
        },
        tools,
        content: Some(content_hash(request)),
    };
    assert(r@ =~= fingerprint_of(request@));
    r
}

/// The effect that records a response.
pub open spec fn effect_for(request: RequestView, response: ResponseView) -> EffectView {
    EffectView::ModelResponse {
        request: fingerprint_of(request),
        items: response.items,
        usage: response.usage,
        stop: response.stop,
    }
}

/// Turn a response into the effect that records it.
#[must_use]
pub fn effect_of(request: &Request, response: &Response) -> (r: Effect)
    ensures
        r@ == effect_for(request@, response@),
{
    Effect::ModelResponse {
        request: fingerprint(request),
        items: copy_items(&response.items),
        usage: response.usage.clone(),
        stop: response.stop.clone(),
    }
}

/// Whether a journal records these exchanges with a model, in order. It may record other effects
/// between them.
pub open spec fn records(
    entries: Seq<EntryView>,
    asked: Seq<RequestView>,
    answered: Seq<ResponseView>,
) -> bool
    decreases entries.len(),
{
    if entries.len() == 0 {
        asked.len() == 0 && answered.len() == 0
    } else if entries.last().effect is ModelResponse {
        &&& asked.len() > 0
        &&& answered.len() > 0
        &&& entries.last().effect == effect_for(asked.last(), answered.last())
        &&& records(entries.drop_last(), asked.drop_last(), answered.drop_last())
    } else {
        records(entries.drop_last(), asked, answered)
    }
}

/// How many responses a journal records.
pub open spec fn responses_in(entries: Seq<EntryView>) -> nat
    decreases entries.len(),
{
    if entries.len() == 0 {
        0
    } else {
        responses_in(entries.drop_last()) + (if entries.last().effect is ModelResponse {
            1nat
        } else {
            0
        })
    }
}

/// The position of the first recorded response from `next` on.
pub open spec fn next_answer(entries: Seq<EntryView>, next: nat) -> nat
    decreases entries.len() - next,
{
    if next < entries.len() && !(entries[next as int].effect is ModelResponse) {
        next_answer(entries, next + 1)
    } else {
        next
    }
}

/// How many responses are recorded from `next` on.
pub open spec fn answers_left(entries: Seq<EntryView>, next: nat) -> nat {
    if next < entries.len() {
        responses_in(entries.skip(next as int))
    } else {
        0
    }
}

/// Where a replay stands that answered the first `k` requests.
pub open spec fn place(entries: Seq<EntryView>, k: nat) -> nat
    decreases k,
{
    if k == 0 {
        0
    } else {
        next_answer(entries, place(entries, (k - 1) as nat)) + 1
    }
}

proof fn one_more_response(entries: Seq<EntryView>, i: int)
    requires
        0 <= i < entries.len(),
    ensures
        responses_in(entries.take(i + 1)) == responses_in(entries.take(i)) + (if entries[i].effect is ModelResponse {
            1nat
        } else {
            0
        }),
{
    assert(entries.take(i + 1).drop_last() == entries.take(i));
}

/// Recording an effect that is no response leaves the recorded exchanges as they are.
pub proof fn other_effects_record_no_exchange(
    entries: Seq<EntryView>,
    n: int,
    asked: Seq<RequestView>,
    answered: Seq<ResponseView>,
)
    requires
        0 <= n <= entries.len(),
        forall|i: int| n <= i < entries.len() ==> !((#[trigger] entries[i]).effect is ModelResponse),
        records(entries.take(n), asked, answered),
    ensures
        records(entries, asked, answered),
    decreases entries.len(),
{
    if n == entries.len() {
        assert(entries.take(n) == entries);
    } else {
        let up = entries.drop_last();
        assert(up.take(n) == entries.take(n));
        assert forall|i: int| n <= i < up.len() implies !((#[trigger] up[i]).effect is ModelResponse) by {
            assert(up[i] == entries[i]);
        }
        other_effects_record_no_exchange(up, n, asked, answered);
    }
}

proof fn exchanges_stand_in_order(
    entries: Seq<EntryView>,
    asked: Seq<RequestView>,
    answered: Seq<ResponseView>,
    i: int,
)
    requires
        records(entries, asked, answered),
        0 <= i <= entries.len(),
    ensures
        asked.len() == responses_in(entries),
        answered.len() == asked.len(),
        responses_in(entries.take(i)) <= responses_in(entries),
        i < entries.len() && entries[i].effect is ModelResponse ==> responses_in(entries.take(i))
            < asked.len() && entries[i].effect == effect_for(
            asked[responses_in(entries.take(i)) as int],
            answered[responses_in(entries.take(i)) as int],
        ),
    decreases entries.len(),
{
    if entries.len() == 0 {
        assert(entries.take(i) == entries);
    } else {
        let up = entries.drop_last();
        let (a, b) = if entries.last().effect is ModelResponse {
            (asked.drop_last(), answered.drop_last())
        } else {
            (asked, answered)
        };
        if i < entries.len() {
            exchanges_stand_in_order(up, a, b, i);
            assert(up.take(i) == entries.take(i));
            if i == up.len() {
                assert(up.take(i) == up);
            }
        } else {
            exchanges_stand_in_order(up, a, b, up.len() as int);
            assert(entries.take(i) == entries);
        }
    }
}

proof fn next_answer_is_found(entries: Seq<EntryView>, next: nat)
    requires
        next <= entries.len(),
    ensures
        next <= next_answer(entries, next) <= entries.len(),
        next_answer(entries, next) < entries.len()
            ==> entries[next_answer(entries, next) as int].effect is ModelResponse,
        responses_in(entries.take(next_answer(entries, next) as int)) == responses_in(
            entries.take(next as int),
        ),
    decreases entries.len() - next,
{
    if next < entries.len() && !(entries[next as int].effect is ModelResponse) {
        one_more_response(entries, next as int);
        next_answer_is_found(entries, next + 1);
    }
}

proof fn a_place_counts_answers(
    entries: Seq<EntryView>,
    asked: Seq<RequestView>,
    answered: Seq<ResponseView>,
    k: nat,
)
    requires
        records(entries, asked, answered),
        k <= asked.len(),
    ensures
        place(entries, k) <= entries.len(),
        responses_in(entries.take(place(entries, k) as int)) == k,
    decreases k,
{
    exchanges_stand_in_order(entries, asked, answered, 0);
    if k == 0 {
        assert(entries.take(0).len() == 0);
    } else {
        let before = place(entries, (k - 1) as nat);
        a_place_counts_answers(entries, asked, answered, (k - 1) as nat);
        next_answer_is_found(entries, before);
        let at = next_answer(entries, before);
        if at == entries.len() {
            assert(entries.take(at as int) == entries);
        }
        one_more_response(entries, at as int);
    }
}

proof fn counts_add_up(entries: Seq<EntryView>, i: int)
    requires
        0 <= i <= entries.len(),
    ensures
        responses_in(entries) == responses_in(entries.take(i)) + responses_in(entries.skip(i)),
    decreases entries.len() - i,
{
    if i == entries.len() {
        assert(entries.take(i) == entries);
        assert(entries.skip(i).len() == 0);
    } else {
        first_counts(entries.skip(i));
        assert(entries.skip(i).drop_first() == entries.skip(i + 1));
        one_more_response(entries, i);
        counts_add_up(entries, i + 1);
    }
}

proof fn first_counts(entries: Seq<EntryView>)
    requires
        entries.len() > 0,
    ensures
        responses_in(entries) == responses_in(entries.drop_first()) + (if entries[0].effect is ModelResponse {
            1nat
        } else {
            0
        }),
    decreases entries.len(),
{
    reveal_with_fuel(responses_in, 2);
    if entries.len() > 1 {
        first_counts(entries.drop_last());
        assert(entries.drop_last().drop_first() == entries.drop_first().drop_last());
        assert(entries.drop_first().last() == entries.last());
    } else {
        assert(entries.drop_last().len() == 0);
        assert(entries.drop_first().len() == 0);
    }
}

/// A recorded run replays as it was recorded: asked the same things in the same order, a replay that
/// stands in for the provider answers each with the recorded response, and then it has none left and
/// answers nothing more.
pub proof fn a_recorded_run_replays(
    entries: Seq<EntryView>,
    asked: Seq<RequestView>,
    answered: Seq<ResponseView>,
)
    requires
        records(entries, asked, answered),
    ensures
        asked.len() == answered.len(),
        forall|k: int|
            0 <= k < asked.len() ==> replayed(
                entries,
                next_answer(entries, place(entries, k as nat)),
                fingerprint_of(#[trigger] asked[k]),
            ) == Ok::<_, ReplayErrorView>(
                (answered[k].items, answered[k].usage, answered[k].stop),
            ),
        answers_left(entries, place(entries, asked.len())) == 0,
        forall|f: FingerprintView| #[trigger]
            replayed(entries, next_answer(entries, place(entries, asked.len())), f) == Err::<
                (Seq<ItemView>, Usage, StopReason),
                _,
            >(ReplayErrorView::Exhausted { recorded: entries.len() }),
{
    exchanges_stand_in_order(entries, asked, answered, 0);
    assert forall|k: int| 0 <= k < asked.len() implies replayed(
        entries,
        next_answer(entries, place(entries, k as nat)),
        fingerprint_of(#[trigger] asked[k]),
    ) == Ok::<_, ReplayErrorView>((answered[k].items, answered[k].usage, answered[k].stop)) by {
        let p = place(entries, k as nat);
        a_place_counts_answers(entries, asked, answered, k as nat);
        next_answer_is_found(entries, p);
        let at = next_answer(entries, p);
        if at == entries.len() {
            assert(entries.take(at as int) == entries);
        }
        exchanges_stand_in_order(entries, asked, answered, at as int);
    }
    let p = place(entries, asked.len());
    a_place_counts_answers(entries, asked, answered, asked.len());
    next_answer_is_found(entries, p);
    let at = next_answer(entries, p);
    if at < entries.len() {
        one_more_response(entries, at as int);
        exchanges_stand_in_order(entries, asked, answered, at as int + 1);
    }
    counts_add_up(entries, p as int);
}

/// A replay stops at the first request whose model, tools, turn count or content differ from the
/// recorded ones; it never answers such a request with anything.
pub proof fn a_changed_request_diverges(
    entries: Seq<EntryView>,
    next: nat,
    asked: RequestView,
    asks: RequestView,
    answered: ResponseView,
)
    requires
        next < entries.len(),
        entries[next as int].effect == effect_for(asked, answered),
        fingerprint_of(asked) != fingerprint_of(asks),
    ensures
        replayed(entries, next, fingerprint_of(asks)) matches Err(e) && e is Diverged
            && e->Diverged_seq == entries[next as int].seq,
{
    let a = fingerprint_of(asked);
    let b = fingerprint_of(asks);
    if a.model == b.model && a.turns == b.turns && a.tools == b.tools && a.content == b.content {
        assert(a =~= b);
    }
}

/// A replay taken step by step answers from recorded responses alone: at a step that recorded
/// anything else it stops, and names the step.
pub proof fn only_responses_are_replayed(
    entries: Seq<EntryView>,
    next: nat,
    fingerprint: FingerprintView,
)
    requires
        next < entries.len(),
        !(entries[next as int].effect is ModelResponse),
    ensures
        replayed(entries, next, fingerprint) matches Err(e) && e is Diverged && e->Diverged_seq
            == entries[next as int].seq && e->actual == "a model call"@,
{
}

/// A replay that can stand in for a provider. It reproduces the model: the tools of a run under
/// replay run for real, so what they returned the first time is passed over.
#[derive(Debug)]
pub struct Replaying {
    inner: Replay,
    caps: ProviderCapabilities,
}

impl View for Replaying {
    type V = ReplayView;

    closed spec fn view(&self) -> ReplayView {
        self.inner@
    }
}

impl Replaying {
    /// The capabilities presented.
    pub closed spec fn caps_view(&self) -> crate::provider_caps::CapabilitiesView {
        self.caps@
    }

    /// Replay `journal`, presenting `caps` so the budgeter and cache planner behave as they did.
    #[must_use]
    pub fn new(journal: Journal, caps: ProviderCapabilities) -> (r: Self)
        ensures
            r@ == (ReplayView { journal: journal@, next: 0 }),
            r.caps_view() == caps@,
    {
        Replaying { inner: Replay::new(journal), caps }
    }

    /// How many recorded responses have not been consumed. A replay that ends with responses left
    /// over reproduced a part of the run.
    #[must_use]
    pub fn remaining(&self) -> (r: usize)
        ensures
            r == answers_left(self@.journal.entries, self@.next),
    {
        self.inner.responses_left()
    }

    /// The name of this provider.
    pub fn id(&self) -> (r: ProviderId)
        ensures
            r@ == "replay"@,
    {
        ProviderId::new("replay")
    }

    /// The capabilities presented, for every model.
    pub fn capabilities(&self) -> (r: ProviderCapabilities)
        ensures
            r@ == self.caps_view(),
    {
        self.caps.clone()
    }

    /// Answer a request with the next recorded response. A divergence is a protocol error, which is
    /// neither retried nor fatal: a divergence retried is a divergence absorbed.
    pub fn complete(&mut self, request: &Request) -> (r: Result<Response, ProviderError>)
        ensures
            final(self)@.journal == old(self)@.journal,
            final(self).caps_view() == old(self).caps_view(),
            match replayed(
                old(self)@.journal.entries,
                next_answer(old(self)@.journal.entries, old(self)@.next),
                fingerprint_of(request@),
            ) {
                Ok((items, usage, stop)) => r matches Ok(out) && out@ == (ResponseView {
                    items,
                    usage,
                    stop,
                    model: request@.model,
                    provider: "replay"@,
                }) && final(self)@.next == next_answer(
                    old(self)@.journal.entries,
                    old(self)@.next,
                ) + 1,
                Err(e) => r matches Err(ProviderError::Protocol { provider, detail }) && provider@
                    == "replay"@ && detail@ == replay_error_text(e) && final(self)@.next
                    == next_answer(old(self)@.journal.entries, old(self)@.next),
            },
    {
        self.inner.pass_over();
        match self.inner.next_response(&fingerprint(request)) {
            Ok((items, usage, stop)) => Ok(
                Response {
                    items,
                    usage,
                    stop,
                    model: request.model.clone(),
                    provider: ProviderId::new("replay"),
                },
            ),
            Err(error) => Err(
                ProviderError::Protocol {
                    provider: ProviderId::new("replay"),
                    detail: error.to_string(),
                },
            ),
        }
    }

    /// The answer to a request for a stream: refused. A journal records what a response was, not
    /// the shape it arrived in.
    pub fn refuse_stream() -> (r: ProviderError)
        ensures
            r matches ProviderError::Unsupported { provider, capability } && provider@ == "replay"@
                && capability@ == "streaming a recorded run"@,
    {
        ProviderError::Unsupported {
            provider: ProviderId::new("replay"),
            capability: "streaming a recorded run".to_owned(),
        }
    }
}

/// Whether two items say something different to the model: another text, another tool or other
/// arguments in a call, or another result.
pub open spec fn says_otherwise(x: ItemView, y: ItemView) -> bool {
    match (x, y) {
        (ItemView::Text { text: a, .. }, ItemView::Text { text: b, .. }) => a != b,
        (ItemView::ToolCall(a), ItemView::ToolCall(b)) => {
            ||| a.name != b.name && a.args == b.args
            ||| a.name == b.name && render(a.args) != render(b.args)
        },
        (ItemView::ToolResult { content: a, .. }, ItemView::ToolResult { content: b, .. }) => a != b,
        _ => false,
    }
}

/// A request with another item in one place.
pub open spec fn with_item(r: RequestView, t: int, k: int, item: ItemView) -> RequestView {
    RequestView {
        turns: r.turns.update(
            t,
            TurnView { role: r.turns[t].role, items: r.turns[t].items.update(k, item) },
        ),
        ..r
    }
}

proof fn contents_of_parts(a: Seq<ItemView>, b: Seq<ItemView>)
    ensures
        items_content(a + b) == items_content(a) + items_content(b),
    decreases b.len(),
{
    if b.len() == 0 {
        assert(a + b == a);
        assert(items_content(a) + items_content(b) == items_content(a));
    } else {
        contents_of_parts(a, b.drop_last());
        assert((a + b).drop_last() == a + b.drop_last());
        assert(items_content(a + b) == items_content(a) + items_content(b));
    }
}

proof fn content_of_one(items: Seq<ItemView>, k: int)
    requires
        0 <= k < items.len(),
    ensures
        items_content(items) == items_content(items.take(k)) + item_content(items[k])
            + items_content(items.skip(k + 1)),
{
    let one = seq![items[k]];
    assert(items == items.take(k) + (one + items.skip(k + 1)));
    contents_of_parts(items.take(k), one + items.skip(k + 1));
    contents_of_parts(one, items.skip(k + 1));
    assert(one.drop_last() == Seq::<ItemView>::empty());
    assert(items_content(one.drop_last()) == Seq::<char>::empty());
    assert(items_content(one) == Seq::<char>::empty() + item_content(items[k]));
    assert(items_content(one) == item_content(items[k]));
    assert(items_content(items) == items_content(items.take(k)) + item_content(items[k])
        + items_content(items.skip(k + 1)));
}

/// What is hashed tells prompts apart: replace one text, tool call or tool result in a prompt by one
/// that says something else, and the prompt reads differently, with everything else the same.
pub proof fn prompts_are_told_apart(r: RequestView, t: int, k: int, item: ItemView)
    requires
        0 <= t < r.turns.len(),
        0 <= k < r.turns[t].items.len(),
        says_otherwise(r.turns[t].items[k], item),
    ensures
        prompt_parts(r) != prompt_parts(with_item(r, t, k, item)),
        prompt_parts(r).len() == prompt_parts(with_item(r, t, k, item)).len(),
{
    let other = with_item(r, t, k, item);
    let a = r.turns[t].items;
    let b = a.update(k, item);
    content_of_one(a, k);
    content_of_one(b, k);
    assert(b.take(k) == a.take(k));
    assert(b.skip(k + 1) == a.skip(k + 1));
    let x = a[k];
    if x is ToolCall {
        let m = x->ToolCall_0;
        let n = item->ToolCall_0;
        if m.args == n.args {
            middle_counts(Seq::empty(), m.name, n.name, render(m.args));
            assert(Seq::<char>::empty() + m.name + render(m.args) == m.name + render(m.args));
            assert(Seq::<char>::empty() + n.name + render(m.args) == n.name + render(m.args));
        } else {
            middle_counts(m.name, render(m.args), render(n.args), Seq::empty());
            assert(m.name + render(m.args) + Seq::<char>::empty() == m.name + render(m.args));
            assert(m.name + render(n.args) + Seq::<char>::empty() == m.name + render(n.args));
        }
    }
    assert(item_content(x) != item_content(item));
    let front = items_content(a.take(k));
    let back = items_content(a.skip(k + 1));
    middle_counts(front, item_content(x), item_content(item), back);
    let lead = role_name(r.turns[t].role) + ":"@;
    middle_counts(lead, items_content(a), items_content(b), Seq::empty());
    assert(lead + items_content(a) + Seq::<char>::empty() == lead + items_content(a));
    assert(lead + items_content(b) + Seq::<char>::empty() == lead + items_content(b));
    assert(turn_content(r.turns[t]) != turn_content(other.turns[t]));
    let at = r.tools.len() + t;
    assert(prompt_parts(r)[at] == turn_content(r.turns[t]));
    assert(prompt_parts(other)[at] == turn_content(other.turns[t]));
}

/// Who says something counts: the same turn under another role reads differently.
pub proof fn roles_are_told_apart(r: RequestView, t: int, role: Role)
    requires
        0 <= t < r.turns.len(),
        r.turns[t].role != role,
    ensures
        prompt_parts(r) != prompt_parts(
            RequestView {
                turns: r.turns.update(t, TurnView { role, items: r.turns[t].items }),
                ..r
            },
        ),
{
    let other = RequestView {
        turns: r.turns.update(t, TurnView { role, items: r.turns[t].items }),
        ..r
    };
    reveal_strlit("User");
    reveal_strlit("Assistant");
    reveal_strlit("System");
    reveal_strlit(":");
    let at = r.tools.len() + t;
    let x = turn_content(r.turns[t]);
    let y = turn_content(other.turns[t]);
    assert(prompt_parts(r)[at] == x);
    assert(prompt_parts(other)[at] == y);
    assert(x[0] == role_name(r.turns[t].role)[0]);
    assert(y[0] == role_name(role)[0]);
}

/// A tool counts in full: another name, description or schema under which it is offered reads
/// differently, with the rest the same.
pub proof fn tools_are_told_apart(r: RequestView, t: int, tool: ToolDefinitionView)
    requires
        0 <= t < r.tools.len(),
        ({
            let was = r.tools[t];
            ||| was.name != tool.name && was.description == tool.description && was.input_schema
                == tool.input_schema
            ||| was.name == tool.name && was.description != tool.description && was.input_schema
                == tool.input_schema
            ||| was.name == tool.name && was.description == tool.description && render(
                was.input_schema,
            ) != render(tool.input_schema)
        }),
    ensures
        prompt_parts(r) != prompt_parts(RequestView { tools: r.tools.update(t, tool), ..r }),
{
    let other = RequestView { tools: r.tools.update(t, tool), ..r };
    let was = r.tools[t];
    let none = Seq::<char>::empty();
    assert(prompt_parts(r)[t] == tool_content(was));
    assert(prompt_parts(other)[t] == tool_content(tool));
    if was.name != tool.name {
        let back = "|"@ + was.description + "|"@ + render(was.input_schema);
        middle_counts(none, was.name, tool.name, back);
        assert(none + was.name + back == tool_content(was));
        assert(none + tool.name + back == tool_content(tool));
    } else if was.description != tool.description {
        let front = was.name + "|"@;
        let back = "|"@ + render(was.input_schema);
        middle_counts(front, was.description, tool.description, back);
        assert(front + was.description + back == tool_content(was));
        assert(front + tool.description + back == tool_content(tool));
    } else {
        let front = was.name + "|"@ + was.description + "|"@;
        middle_counts(front, render(was.input_schema), render(tool.input_schema), none);
        assert(front + render(was.input_schema) + none == tool_content(was));
        assert(front + render(tool.input_schema) + none == tool_content(tool));
    }
}

/// A replay stops at a prompt that reads differently from the recorded one, as long as the digest
/// tells the two apart.
pub proof fn a_different_prompt_stops_the_replay(
    entries: Seq<EntryView>,
    next: nat,
    asked: RequestView,
    asks: RequestView,
    answered: ResponseView,
)
    requires
        next < entries.len(),
        entries[next as int].effect == effect_for(asked, answered),
        prompt_parts(asked) != prompt_parts(asks),
        blake3_digest(framed(prompt_parts(asked))) == blake3_digest(framed(prompt_parts(asks)))
            ==> framed(prompt_parts(asked)) == framed(prompt_parts(asks)),
        forall|i: int|
            0 <= i < prompt_parts(asked).len() ==> encode_utf8(
                #[trigger] prompt_parts(asked)[i],
            ).len() <= u64::MAX,
        forall|i: int|
            0 <= i < prompt_parts(asks).len() ==> encode_utf8(
                #[trigger] prompt_parts(asks)[i],
            ).len() <= u64::MAX,
    ensures
        replayed(entries, next, fingerprint_of(asks)) matches Err(e) && e is Diverged
            && e->Diverged_seq == entries[next as int].seq,
{
    if framed(prompt_parts(asked)) == framed(prompt_parts(asks)) {
        part_boundaries_are_significant(prompt_parts(asked), prompt_parts(asks));
    }
}

/// A replay also stops at a request to another model, with another number of turns, or with other
/// tools, whatever it says.
pub proof fn a_different_shape_stops_the_replay(
    entries: Seq<EntryView>,
    next: nat,
    asked: RequestView,
    asks: RequestView,
    answered: ResponseView,
)
    requires
        next < entries.len(),
        entries[next as int].effect == effect_for(asked, answered),
        asked.turns.len() <= u32::MAX,
        asks.turns.len() <= u32::MAX,
        ({
            ||| asked.model != asks.model
            ||| asked.turns.len() != asks.turns.len()
            ||| asked.tools.len() != asks.tools.len()
            ||| exists|i: int|
                0 <= i < asked.tools.len() && (#[trigger] asked.tools[i]).name != asks.tools[i].name
        }),
    ensures
        replayed(entries, next, fingerprint_of(asks)) matches Err(e) && e is Diverged
            && e->Diverged_seq == entries[next as int].seq,
        divergence(fingerprint_of(asked), fingerprint_of(asks)) == Divergence::Shape,
{
    let a = fingerprint_of(asked);
    let b = fingerprint_of(asks);
    if asked.tools.len() == asks.tools.len() && exists|i: int|
        0 <= i < asked.tools.len() && (#[trigger] asked.tools[i]).name != asks.tools[i].name {
        let i = choose|i: int|
            0 <= i < asked.tools.len() && (#[trigger] asked.tools[i]).name != asks.tools[i].name;
        assert(a.tools[i] != b.tools[i]);
    }
    if asked.tools.len() != asks.tools.len() {
        assert(a.tools.len() != b.tools.len());
    }
}

/// Two fingerprints are the same only where every part of them is, and where a digest is missing the
/// answer is that nobody knows.
pub proof fn only_equal_fingerprints_are_the_same(a: FingerprintView, b: FingerprintView)
    ensures
        divergence(a, b) == Divergence::Same <==> a.model == b.model && a.turns == b.turns && a.tools
            == b.tools && a.content is Some && a.content == b.content,
        divergence(a, b) == Divergence::Unknown <==> a.model == b.model && a.turns == b.turns
            && a.tools == b.tools && (a.content is None || b.content is None),
        divergence(a, b) == Divergence::Shape <==> a.model != b.model || a.turns != b.turns
            || a.tools != b.tools,
{
}

/// An effect is recorded at the end, under its position, and what was recorded before stays.
pub proof fn records_only_grow(j: JournalView, effect: EffectView)
    requires
        j.entries.len() <= u32::MAX,
    ensures
        recorded(j, effect).run == j.run,
        recorded(j, effect).entries.len() == j.entries.len() + 1,
        recorded(j, effect).entries.last().effect == effect,
        recorded(j, effect).entries.last().seq.0 == j.entries.len(),
        recorded(j, effect).entries.take(j.entries.len() as int) == j.entries,
{
}

/// What a run consumed is what its responses did: each adds one call and its own tokens, and nothing
/// else that is recorded adds any.
pub proof fn responses_are_what_is_consumed(entries: Seq<EntryView>, more: EntryView)
    requires
        more.effect matches EffectView::ModelResponse { usage, .. } ==> consumed(entries).has_room(
            "run"@,
            usage,
        ),
    ensures
        consumed(Seq::empty()).counts("run"@) == no_tokens(),
        match more.effect {
            EffectView::ModelResponse { usage, .. } => {
                let before = consumed(entries).counts("run"@);
                let after = consumed(entries.push(more)).counts("run"@);
                &&& after.calls == before.calls + 1
                &&& after.input == before.input + usage.input
                &&& after.output == before.output + usage.output
                &&& after.cache_read == before.cache_read + usage.cache_read
                &&& after.cache_write == before.cache_write + usage.cache_write
                &&& after.reasoning == before.reasoning + usage.reasoning
            },
            _ => consumed(entries.push(more)) == consumed(entries),
        },
{
    assert(entries.push(more).drop_last() == entries);
}

/// The next answer is the first response that stands at or behind a place, or the end where there is
/// none.
pub proof fn the_next_answer_is_the_first(entries: Seq<EntryView>, next: nat)
    requires
        next <= entries.len(),
    ensures
        next <= next_answer(entries, next) <= entries.len(),
        forall|i: int|
            next <= i < next_answer(entries, next) ==> !((#[trigger] entries[i]).effect is ModelResponse),
        next_answer(entries, next) < entries.len()
            ==> entries[next_answer(entries, next) as int].effect is ModelResponse,
    decreases entries.len() - next,
{
    if next < entries.len() && !(entries[next as int].effect is ModelResponse) {
        the_next_answer_is_the_first(entries, next + 1);
    }
}

/// Responses are counted one by one, and what is left to answer are the responses from a place on.
pub proof fn responses_are_counted(entries: Seq<EntryView>, more: EntryView)
    ensures
        responses_in(Seq::empty()) == 0,
        responses_in(entries.push(more)) == responses_in(entries) + (if more.effect is ModelResponse {
            1nat
        } else {
            0
        }),
        answers_left(entries, 0) == responses_in(entries),
        answers_left(entries, entries.len()) == 0,
{
    assert(entries.push(more).drop_last() == entries);
    assert(entries.skip(0) == entries);
}

/// A recording without a hash of what was asked replays wherever the shape is the same, and gives
/// back what was recorded.
pub proof fn recordings_without_a_hash_replay(
    entries: Seq<EntryView>,
    next: nat,
    asks: FingerprintView,
)
    requires
        next < entries.len(),
    ensures
        entries[next as int].effect matches EffectView::ModelResponse { request, items, usage, stop }
            ==> (request.content is None && request.model == asks.model && request.turns == asks.turns
            && request.tools == asks.tools ==> replayed(entries, next, asks) == Ok::<
            _,
            ReplayErrorView,
        >((items, usage, stop))),
        replayed(entries, entries.len(), asks) is Err,
{
}

/// A replay that fails says where, what was recorded and what was asked: the model, how many turns,
/// and every tool of both.
pub proof fn divergence_is_told(e: ReplayErrorView, f: FingerprintView, i: int)
    ensures
        match e {
            ReplayErrorView::Exhausted { recorded } => mentions(replay_error_text(e), dec(recorded)),
            ReplayErrorView::Diverged { seq, recorded, actual } => mentions(
                replay_error_text(e),
                dec(seq.0 as nat),
            ) && mentions(replay_error_text(e), recorded) && mentions(replay_error_text(e), actual),
        },
        mentions(described(f), f.model),
        mentions(described(f), dec(f.turns as nat)),
        0 <= i < f.tools.len() ==> mentions(described(f), f.tools[i]),
        f.content matches Some(hash) ==> mentions(described(f), hash_debug(hash)),
{
    broadcast use group_mentions;

    if 0 <= i < f.tools.len() {
        joining_keeps_every_part(f.tools, ", "@, i, f.tools[i]);
    }
}

/// Of an effect that was no response, all of it is told.
pub proof fn effects_are_told(e: EffectView)
    ensures
        match e {
            EffectView::ToolResult { tool, content, is_error } => mentions(
                effect_debug(e),
                debug_quoted(tool),
            ) && mentions(effect_debug(e), debug_quoted(content)) && mentions(
                effect_debug(e),
                if is_error {
                    "true"@
                } else {
                    "false"@
                },
            ),
            EffectView::InputSupplied { request, response } => mentions(
                effect_debug(e),
                debug_quoted(request),
            ) && mentions(effect_debug(e), debug_quoted(response)),
            _ => true,
        },
{
    broadcast use group_mentions;

}

/// Blank lines are skipped, and every other line is kept as it is and in its place.
pub proof fn only_blank_lines_are_skipped(a: Seq<Seq<char>>, b: Seq<Seq<char>>, line: Seq<char>)
    ensures
        filled(a + b) == filled(a) + filled(b),
        trimmed(line).len() > 0 ==> filled(seq![line]) == seq![line],
        trimmed(line).len() == 0 ==> filled(seq![line]).len() == 0,
    decreases b.len(),
{
    reveal_with_fuel(filled, 2);
    assert(seq![line].drop_last() == Seq::<Seq<char>>::empty());
    if b.len() == 0 {
        assert(a + b == a);
    } else {
        only_blank_lines_are_skipped(a, b.drop_last(), line);
        assert((a + b).drop_last() == a + b.drop_last());
        assert((a + b).last() == b.last());
    }
}

/// A journal's file holds every effect as it was written and every event framed behind them, in
/// their order.
pub proof fn files_hold_every_line(effects: Seq<Seq<char>>, events: Seq<Seq<char>>, i: int)
    ensures
        file_lines(effects, events).len() == effects.len() + events.len(),
        0 <= i < effects.len() ==> file_lines(effects, events)[i] == effects[i],
        0 <= i < events.len() ==> mentions(
            file_lines(effects, events)[effects.len() + i],
            events[i],
        ) && file_lines(effects, events)[effects.len() + i] == "{\"event\":"@ + events[i] + "}"@,
{
    broadcast use group_mentions;

}

/// What is left of a replay are the entries from its place to the end.
pub proof fn what_is_left_is_to_the_end(r: ReplayView)
    ensures
        r.next <= r.journal.entries.len() ==> r.next + left(r) == r.journal.entries.len(),
        r.next > r.journal.entries.len() ==> left(r) == 0,
{
}

} // verus!
