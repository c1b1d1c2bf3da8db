//! Fitting a prompt into the window.
//!
//! Eviction is never silent: what went is named in a warning. Its order is fixed, cheapest first:
//! definitions discovered earlier, then the oldest history above the floor, then a refusal that
//! names what could not fit.

use vstd::prelude::*;

use crate::cache::{ids_distinct, token_sum};
use crate::event::{Warning, WarningView};
use crate::ids::SegmentId;
use crate::provider_caps::{lesser, minus, ProviderCapabilities};
use crate::segment::{Segment, SegmentKind};
use crate::text::{dec, join, joined, push_decimal, texts, group_mentions, joining_keeps_every_part, mentions};

verus! {

/// Minimum allocations that eviction may not touch.
#[derive(Debug, Clone, Copy, PartialEq, Eq, Structural)]
pub struct Floors {
    /// How many of the most recent history segments always survive.
    pub recent_history: usize,
}

impl Default for Floors {
    fn default() -> (r: Self)
        ensures
            r.recent_history == 4,
    {
        Floors { recent_history: 4 }
    }
}

/// How much room the prompt has, and what may not be given up to get it.
#[derive(Debug, Clone, Copy, PartialEq, Eq, Structural)]
pub struct ContextBudget {
    /// The model's context window, in tokens.
    pub window: u32,
    /// Tokens set aside for the response.
    pub reserve_output: u32,
    /// Slack for tool results and definitions discovered mid-turn.
    pub reserve_headroom: u32,
    /// What eviction may not touch.
    pub floors: Floors,
}

impl ContextBudget {
    /// The tokens available to the prompt itself.
    pub open spec fn ceiling(self) -> u32 {
        minus(minus(self.window, self.reserve_output), self.reserve_headroom)
    }

    /// A budget derived from what the provider says it can do.
    #[must_use]
    pub fn from_capabilities(caps: &ProviderCapabilities) -> (r: Self)
        ensures
            r.window == caps.max_context,
            r.reserve_output == lesser(caps.max_output, caps.max_context / 4),
            r.reserve_headroom == caps.max_context / 10,
            r.floors.recent_history == 4,
    {
        let quarter: u32 = caps.max_context / 4;
        ContextBudget {
            window: caps.max_context,
            reserve_output: if caps.max_output <= quarter {
                caps.max_output
            } else {
                quarter
            },
            reserve_headroom: caps.max_context / 10,
            floors: Floors::default(),
        }
    }

    /// The tokens available to the prompt itself.
    #[must_use]
    pub fn prompt_ceiling(&self) -> (r: u32)
        ensures
            r == self.ceiling(),
    {
        self.window.saturating_sub(self.reserve_output).saturating_sub(self.reserve_headroom)
    }
}

/// Why a segment was dropped.
#[derive(Debug, Clone, Copy, PartialEq, Eq, Structural)]
pub enum EvictionReason {
    /// A definition discovered earlier. Cheapest to lose: it can be found again.
    StaleDiscovery,
    /// History above the floor.
    OldHistory,
}

/// One segment that did not make it.
#[derive(Debug, PartialEq, Eq)]
pub struct Eviction {
    /// Which segment.
    pub id: SegmentId,
    /// Its label, so a warning can name it.
    pub label: String,
    /// How many tokens it freed.
    pub tokens: u32,
    /// Why it went.
    pub reason: EvictionReason,
}

/// What fitting the prompt cost.
#[derive(Debug, PartialEq, Eq)]
pub struct BudgetPlan {
    /// The segments that survived, in prompt order.
    pub keep: Vec<Segment>,
    /// What was dropped, in the order it was dropped.
    pub evicted: Vec<Eviction>,
    /// Tokens the surviving prompt occupies.
    pub tokens: u32,
    /// Diagnostics.
    pub warnings: Vec<Warning>,
}

/// The prompt cannot be made to fit.
#[derive(Debug, PartialEq, Eq)]
pub struct DoesNotFit {
    /// What the smallest possible prompt still needs.
    pub needed: u32,
    /// What the budget allows.
    pub available: u32,
    /// What could not be given up, as a human-readable list.
    pub protected: String,
}

impl DoesNotFit {
    /// The failure as one sentence for a person.
    #[must_use]
    pub fn to_string(&self) -> (r: String)
        ensures
            r@ == "the prompt needs "@ + dec(self.needed as nat) + " tokens but only "@ + dec(
                self.available as nat,
            ) + " are available, and everything left is protected: "@ + self.protected@
                + ". Raise the window, lower reserve_output, or shrink the tool block."@,
    {
        let mut s = "the prompt needs ".to_owned();
        push_decimal(&mut s, self.needed as u64);
        s.push_str(" tokens but only ");
        push_decimal(&mut s, self.available as u64);
        s.push_str(" are available, and everything left is protected: ");
        s.push_str(self.protected.as_str());
        s.push_str(". Raise the window, lower reserve_output, or shrink the tool block.");
        s
    }
}

/// Which segments one round of eviction may take.
pub enum Eligible {
    /// Discovered definitions.
    Discovered,
    /// The segments with these ids.
    Ids(Vec<SegmentId>),
}

/// Which segments one round of eviction may take.
pub enum EligibleView {
    Discovered,
    Ids(Seq<SegmentId>),
}

impl View for Eligible {
    type V = EligibleView;

    open spec fn view(&self) -> EligibleView {
        match *self {
            Eligible::Discovered => EligibleView::Discovered,
            Eligible::Ids(ids) => EligibleView::Ids(ids@),
        }
    }
}

/// Whether a round of eviction may take a segment.
pub open spec fn may_take(who: EligibleView, segment: Segment) -> bool {
    match who {
        EligibleView::Discovered => segment.kind == SegmentKind::Discovered,
        EligibleView::Ids(ids) => ids.contains(segment.id),
    }
}

/// What one round of eviction leaves and takes: going through the segments in order, it takes each
/// one it may while the prompt is above the ceiling.
pub open spec fn evict(
    segments: Seq<Segment>,
    total: int,
    ceiling: int,
    who: EligibleView,
) -> (Seq<Segment>, Seq<Segment>)
    decreases segments.len(),
{
    if segments.len() == 0 || total <= ceiling {
        (segments, Seq::empty())
    } else if may_take(who, segments[0]) {
        let (kept, taken) = evict(
            segments.drop_first(),
            total - segments[0].est_tokens,
            ceiling,
            who,
        );
        (kept, seq![segments[0]] + taken)
    } else {
        let (kept, taken) = evict(segments.drop_first(), total, ceiling, who);
        (seq![segments[0]] + kept, taken)
    }
}

/// The record of the segments that one round took.
pub open spec fn evictions(taken: Seq<Segment>, reason: EvictionReason) -> Seq<Eviction> {
    Seq::new(
        taken.len(),
        |i: int|
            Eviction { id: taken[i].id, label: taken[i].label, tokens: taken[i].est_tokens, reason },
    )
}

/// The ids of the history segments, oldest first.
pub open spec fn history_ids(segments: Seq<Segment>) -> Seq<SegmentId>
    decreases segments.len(),
{
    if segments.len() == 0 {
        Seq::empty()
    } else {
        let rest = history_ids(segments.drop_last());
        if segments.last().kind == SegmentKind::History {
            rest.push(segments.last().id)
        } else {
            rest
        }
    }
}

/// The history ids that the floor does not protect.
pub open spec fn droppable_history(segments: Seq<Segment>, floor: usize) -> Seq<SegmentId> {
    let ids = history_ids(segments);
    if ids.len() <= floor {
        Seq::empty()
    } else {
        ids.take(ids.len() - floor)
    }
}

/// What is left and what was taken after both rounds.
pub open spec fn fitted(segments: Seq<Segment>, budget: ContextBudget) -> (
    Seq<Segment>,
    Seq<Eviction>,
) {
    let ceiling = budget.ceiling() as int;
    let first = evict(segments, token_sum(segments) as int, ceiling, EligibleView::Discovered);
    let stale = evictions(first.1, EvictionReason::StaleDiscovery);
    if token_sum(first.0) <= ceiling {
        (first.0, stale)
    } else {
        let second = evict(
            first.0,
            token_sum(first.0) as int,
            ceiling,
            EligibleView::Ids(droppable_history(first.0, budget.floors.recent_history)),
        );
        (second.0, stale + evictions(second.1, EvictionReason::OldHistory))
    }
}

/// How much of a budget is used, in whole percent and at most a hundred.
pub open spec fn percent_of(used: u32, of: u32) -> u8 {
    if of == 0 || used * 100 / (of as int) >= 100 {
        100
    } else {
        (used * 100 / (of as int)) as u8
    }
}

/// How many tokens a list of evictions freed.
pub open spec fn freed(evicted: Seq<Eviction>) -> nat
    decreases evicted.len(),
{
    if evicted.len() == 0 {
        0
    } else {
        freed(evicted.drop_last()) + evicted.last().tokens as nat
    }
}

/// The labels of what was evicted.
pub open spec fn eviction_labels(evicted: Seq<Eviction>) -> Seq<Seq<char>> {
    Seq::new(evicted.len(), |i: int| evicted[i].label@)
}

/// The warning that names what was evicted.
pub open spec fn pressure(evicted: Seq<Eviction>, used: u32, ceiling: u32) -> WarningView {
    WarningView::BudgetPressure {
        used_percent: percent_of(used, ceiling),
        action: "evicted "@ + dec(evicted.len()) + " segment(s) freeing "@ + dec(freed(evicted))
            + " tokens: "@ + joined(eviction_labels(evicted), ", "@),
    }
}

/// The segments that could not be given up, each with its size.
pub open spec fn protected_list(segments: Seq<Segment>) -> Seq<Seq<char>> {
    Seq::new(
        segments.len(),
        |i: int|
            segments[i].label@ + " ("@ + dec(segments[i].est_tokens as nat) + " tokens)"@,
    )
}

fn percent(used: u32, of: u32) -> (r: u8)
    ensures
        r == percent_of(used, of),
{
    if of == 0 {
        return 100;
    }
    let share: u64 = used as u64 * 100 / of as u64;
    if share >= 100 {
        100
    } else {
        share as u8
    }
}

fn eligible(who: &Eligible, segment: &Segment) -> (r: bool)
    ensures
        r == may_take(who@, *segment),
{
    match who {
        Eligible::Discovered => segment.kind == SegmentKind::Discovered,
        Eligible::Ids(ids) => holds(ids, segment.id),
    }
}

fn holds(ids: &Vec<SegmentId>, id: SegmentId) -> (r: bool)
    ensures
        r == ids@.contains(id),
{
    let mut i: usize = 0;
    while i < ids.len()
        invariant
            i <= ids@.len(),
            forall|j: int| 0 <= j < i ==> ids@[j] != id,
        decreases ids@.len() - i,
    {
        if ids[i] == id {
            assert(ids@[i as int] == id);
            return true;
        }
        i = i + 1;
    }
    false
}

proof fn one_segment(s: Segment)
    ensures
        token_sum(seq![s]) == s.est_tokens,
        history_ids(seq![s]) == (if s.kind == SegmentKind::History {
            seq![s.id]
        } else {
            Seq::empty()
        }),
{
    reveal_with_fuel(token_sum, 2);
    reveal_with_fuel(history_ids, 2);
    assert(seq![s].drop_last() == Seq::<Segment>::empty());
}

proof fn sum_of_parts(a: Seq<Segment>, b: Seq<Segment>)
    ensures
        token_sum(a + b) == token_sum(a) + token_sum(b),
    decreases b.len(),
{
    if b.len() == 0 {
        assert(a + b == a);
    } else {
        sum_of_parts(a, b.drop_last());
        assert((a + b).drop_last() == a + b.drop_last());
    }
}

proof fn sum_without(s: Seq<Segment>, i: int)
    requires
        0 <= i < s.len(),
    ensures
        token_sum(s) == token_sum(s.remove(i)) + s[i].est_tokens,
{
    sum_of_parts(s.take(i), s.skip(i));
    sum_of_parts(seq![s[i]], s.skip(i + 1));
    sum_of_parts(s.take(i), s.skip(i + 1));
    assert(s == s.take(i) + s.skip(i));
    assert(s.skip(i) == seq![s[i]] + s.skip(i + 1));
    assert(s.remove(i) == s.take(i) + s.skip(i + 1));
    one_segment(s[i]);
}

fn evict_while(
    keep: &mut Vec<Segment>,
    evicted: &mut Vec<Eviction>,
    total: &mut u32,
    ceiling: u32,
    reason: EvictionReason,
    who: &Eligible,
)
    requires
        *old(total) == token_sum(old(keep)@),
    ensures
        final(keep)@ == evict(old(keep)@, *old(total) as int, ceiling as int, who@).0,
        final(evicted)@ == old(evicted)@ + evictions(
            evict(old(keep)@, *old(total) as int, ceiling as int, who@).1,
            reason,
        ),
        *final(total) == token_sum(final(keep)@),
{
    let ghost all = keep@;
    let ghost start = *total as int;
    let ghost before = evicted@;
    let ghost mut taken: Seq<Segment> = Seq::empty();
    let mut i: usize = 0;
    assert(keep@.skip(0) == all);
    assert(evicted@ == before + evictions(taken, reason));
    while i < keep.len() && *total > ceiling
        invariant
            i <= keep@.len(),
            *total == token_sum(keep@),
            evicted@ == before + evictions(taken, reason),
            evict(all, start, ceiling as int, who@).0 == keep@.take(i as int) + evict(
                keep@.skip(i as int),
                *total as int,
                ceiling as int,
                who@,
            ).0,
            evict(all, start, ceiling as int, who@).1 == taken + evict(
                keep@.skip(i as int),
                *total as int,
                ceiling as int,
                who@,
            ).1,
        decreases keep@.len() - i,
    {
        let ghost k0 = keep@;
        let ghost rest = keep@.skip(i as int);
        let ghost t0 = taken;
        assert(rest[0] == k0[i as int]);
        assert(rest.drop_first() == k0.skip(i + 1));
        if eligible(who, &keep[i]) {
            proof {
                sum_without(k0, i as int);
            }
            let segment = keep.remove(i);
            *total = *total - segment.est_tokens;
            proof {
                taken = taken.push(segment);
                assert(keep@.skip(i as int) == rest.drop_first());
                assert(keep@.take(i as int) == k0.take(i as int));
                assert(t0 + (seq![segment] + evict(
                    rest.drop_first(),
                    *total as int,
                    ceiling as int,
                    who@,
                ).1) == taken + evict(rest.drop_first(), *total as int, ceiling as int, who@).1);
            }
            let ghost e0 = evicted@;
            evicted.push(
                Eviction {
                    id: segment.id,
                    label: segment.label,
                    tokens: segment.est_tokens,
                    reason,
                },
            );
            assert(evicted@ == before + evictions(taken, reason));
        } else {
            proof {
                assert(k0.take(i + 1) == k0.take(i as int).push(rest[0]));
                assert(k0.take(i as int) + (seq![rest[0]] + evict(
                    rest.drop_first(),
                    *total as int,
                    ceiling as int,
                    who@,
                ).0) == k0.take(i + 1) + evict(
                    rest.drop_first(),
                    *total as int,
                    ceiling as int,
                    who@,
                ).0);
            }
            i = i + 1;
        }
    }
    proof {
        let rest = keep@.skip(i as int);
        assert(keep@.take(i as int) + rest == keep@);
        assert(taken + Seq::<Segment>::empty() == taken);
    }
}

fn copy_segments(segments: &[Segment]) -> (r: Vec<Segment>)
    ensures
        r@ == segments@,
{
    let mut out: Vec<Segment> = Vec::new();
    let mut i: usize = 0;
    while i < segments.len()
        invariant
            i <= segments@.len(),
            out@ == segments@.take(i as int),
        decreases segments@.len() - i,
    {
        out.push(segments[i].clone());
        i = i + 1;
    }
    out
}

proof fn sum_grows(s: Seq<Segment>, i: int)
    requires
        0 <= i <= s.len(),
    ensures
        token_sum(s.take(i)) <= token_sum(s),
{
    sum_of_parts(s.take(i), s.skip(i));
    assert(s == s.take(i) + s.skip(i));
}

fn total_tokens(segments: &Vec<Segment>) -> (r: u32)
    requires
        token_sum(segments@) <= u32::MAX,
    ensures
        r == token_sum(segments@),
{
    let mut total: u32 = 0;
    let mut i: usize = 0;
    while i < segments.len()
        invariant
            i <= segments@.len(),
            token_sum(segments@) <= u32::MAX,
            total == token_sum(segments@.take(i as int)),
        decreases segments@.len() - i,
    {
        proof {
            let next = segments@.take(i + 1);
            assert(next.drop_last() == segments@.take(i as int));
            sum_grows(segments@, i + 1);
        }
        total = total + segments[i].est_tokens;
        i = i + 1;
    }
    assert(segments@.take(segments@.len() as int) == segments@);
    total
}

fn droppable_ids(segments: &Vec<Segment>, floor: usize) -> (r: Vec<SegmentId>)
    ensures
        r@ == droppable_history(segments@, floor),
{
    let mut ids: Vec<SegmentId> = Vec::new();
    let mut i: usize = 0;
    while i < segments.len()
        invariant
            i <= segments@.len(),
            ids@ == history_ids(segments@.take(i as int)),
        decreases segments@.len() - i,
    {
        if segments[i].kind == SegmentKind::History {
            ids.push(segments[i].id);
        }
        proof {
            let next = segments@.take(i + 1);
            assert(next.drop_last() == segments@.take(i as int));
        }
        i = i + 1;
    }
    assert(segments@.take(segments@.len() as int) == segments@);
    let n: usize = if ids.len() <= floor {
        0
    } else {
        ids.len() - floor
    };
    ids.truncate(n);
    ids
}

fn protected_names(segments: &Vec<Segment>) -> (r: Vec<String>)
    ensures
        texts(r@) == protected_list(segments@),
{
    let mut out: Vec<String> = Vec::new();
    let mut i: usize = 0;
    while i < segments.len()
        invariant
            i <= segments@.len(),
            out@.len() == i,
            forall|j: int| 0 <= j < i ==> (#[trigger] out@[j])@ == protected_list(segments@)[j],
        decreases segments@.len() - i,
    {
        let mut s = segments[i].label.clone();
        s.push_str(" (");
        push_decimal(&mut s, segments[i].est_tokens as u64);
        s.push_str(" tokens)");
        out.push(s);
        i = i + 1;
    }
    assert(texts(out@) == protected_list(segments@));
    out
}

fn pressure_warning(evicted: &Vec<Eviction>, total: u32, ceiling: u32) -> (r: Warning)
    requires
        freed(evicted@) <= u32::MAX,
    ensures
        r.deep_view() == pressure(evicted@, total, ceiling),
{
    let mut labels: Vec<String> = Vec::new();
    let mut sum: u32 = 0;
    let mut i: usize = 0;
    while i < evicted.len()
        invariant
            i <= evicted@.len(),
            freed(evicted@) <= u32::MAX,
            sum == freed(evicted@.take(i as int)),
            labels@.len() == i,
            forall|j: int| 0 <= j < i ==> (#[trigger] labels@[j])@ == evicted@[j].label@,
        decreases evicted@.len() - i,
    {
        proof {
            let next = evicted@.take(i + 1);
            assert(next.drop_last() == evicted@.take(i as int));
            freed_grows(evicted@, i + 1);
        }
        sum = sum + evicted[i].tokens;
        labels.push(evicted[i].label.clone());
        i = i + 1;
    }
    assert(evicted@.take(evicted@.len() as int) == evicted@);
    assert(texts(labels@) == eviction_labels(evicted@));
    let mut action = "evicted ".to_owned();
    push_decimal(&mut action, evicted.len() as u64);
    action.push_str(" segment(s) freeing ");
    push_decimal(&mut action, sum as u64);
    action.push_str(" tokens: ");
    action.push_str(join(&labels, ", ").as_str());
    Warning::BudgetPressure { used_percent: percent(total, ceiling), action }
}

proof fn freed_grows(e: Seq<Eviction>, i: int)
    requires
        0 <= i <= e.len(),
    ensures
        freed(e.take(i)) <= freed(e),
    decreases e.len() - i,
{
    if i < e.len() {
        freed_grows(e, i + 1);
        assert(e.take(i + 1).drop_last() == e.take(i));
    } else {
        assert(e.take(i) == e);
    }
}

proof fn freed_of_parts(a: Seq<Eviction>, b: Seq<Eviction>)
    ensures
        freed(a + b) == freed(a) + freed(b),
    decreases b.len(),
{
    if b.len() == 0 {
        assert(a + b == a);
    } else {
        freed_of_parts(a, b.drop_last());
        assert((a + b).drop_last() == a + b.drop_last());
    }
}

proof fn freed_is_sum(taken: Seq<Segment>, reason: EvictionReason)
    ensures
        freed(evictions(taken, reason)) == token_sum(taken),
    decreases taken.len(),
{
    if taken.len() > 0 {
        freed_is_sum(taken.drop_last(), reason);
        assert(evictions(taken, reason).drop_last() == evictions(taken.drop_last(), reason));
    }
}

/// One round of eviction splits the tokens between what it leaves and what it takes, and it takes
/// nothing that it may not.
proof fn evict_splits(segments: Seq<Segment>, total: int, ceiling: int, who: EligibleView)
    ensures
        token_sum(evict(segments, total, ceiling, who).0) + token_sum(
            evict(segments, total, ceiling, who).1,
        ) == token_sum(segments),
        evict(segments, total, ceiling, who).0.len() + evict(segments, total, ceiling, who).1.len()
            == segments.len(),
        forall|i: int|
            0 <= i < evict(segments, total, ceiling, who).1.len() ==> may_take(
                who,
                #[trigger] evict(segments, total, ceiling, who).1[i],
            ),
    decreases segments.len(),
{
    if segments.len() > 0 && total > ceiling {
        let first = segments[0];
        let rest = segments.drop_first();
        assert(segments == seq![first] + rest);
        sum_of_parts(seq![first], rest);
        one_segment(first);
        if may_take(who, first) {
            evict_splits(rest, total - first.est_tokens, ceiling, who);
            let (kept, taken) = evict(rest, total - first.est_tokens, ceiling, who);
            sum_of_parts(seq![first], taken);
            let all = seq![first] + taken;
            assert forall|i: int| 0 <= i < all.len() implies may_take(who, #[trigger] all[i]) by {
                if i > 0 {
                    assert(all[i] == taken[i - 1]);
                }
            }
        } else {
            evict_splits(rest, total, ceiling, who);
            let (kept, taken) = evict(rest, total, ceiling, who);
            sum_of_parts(seq![first], kept);
        }
    }
}

/// Fits prompts into budgets.
#[derive(Debug, Clone, Copy, Default)]
pub struct Budgeter;

impl Budgeter {
    /// Drop the cheapest things until the prompt fits, or fail with the numbers when everything
    /// that is left is protected. The token counts must add up in 32 bits.
    pub fn fit(segments: &[Segment], budget: &ContextBudget) -> (r: Result<BudgetPlan, DoesNotFit>)
        requires
            token_sum(segments@) <= u32::MAX,
        ensures
            match r {
                Ok(plan) => {
                    let (keep, evicted) = fitted(segments@, *budget);
                    &&& token_sum(keep) <= budget.ceiling()
                    &&& plan.keep@ == keep
                    &&& plan.evicted@ == evicted
                    &&& plan.tokens == token_sum(keep)
                    &&& plan.warnings.deep_view() == (if evicted.len() == 0 {
                        Seq::empty()
                    } else {
                        seq![pressure(evicted, plan.tokens, budget.ceiling())]
                    })
                },
                Err(e) => {
                    let (keep, evicted) = fitted(segments@, *budget);
                    &&& token_sum(keep) > budget.ceiling()
                    &&& e.needed == token_sum(keep)
                    &&& e.available == budget.ceiling()
                    &&& e.protected@ == joined(protected_list(keep), ", "@)
                },
            },
    {
        let ceiling: u32 = budget.prompt_ceiling();
        let mut keep = copy_segments(segments);
        let mut evicted: Vec<Eviction> = Vec::new();
        let mut warnings: Vec<Warning> = Vec::new();
        let mut total: u32 = total_tokens(&keep);
        let ghost all = segments@;
        let ghost first = evict(
            all,
            token_sum(all) as int,
            ceiling as int,
            EligibleView::Discovered,
        );
        proof {
            evict_splits(all, token_sum(all) as int, ceiling as int, EligibleView::Discovered);
            freed_is_sum(first.1, EvictionReason::StaleDiscovery);
        }
        evict_while(
            &mut keep,
            &mut evicted,
            &mut total,
            ceiling,
            EvictionReason::StaleDiscovery,
            &Eligible::Discovered,
        );
        assert(evicted@ == evictions(first.1, EvictionReason::StaleDiscovery));
        if total > ceiling {
            let who = Eligible::Ids(droppable_ids(&keep, budget.floors.recent_history));
            let ghost second = evict(first.0, token_sum(first.0) as int, ceiling as int, who@);
            proof {
                evict_splits(first.0, token_sum(first.0) as int, ceiling as int, who@);
                freed_is_sum(second.1, EvictionReason::OldHistory);
                freed_of_parts(
                    evictions(first.1, EvictionReason::StaleDiscovery),
                    evictions(second.1, EvictionReason::OldHistory),
                );
            }
            evict_while(
                &mut keep,
                &mut evicted,
                &mut total,
                ceiling,
                EvictionReason::OldHistory,
                &who,
            );
        }
        if total > ceiling {
            let protected = join(&protected_names(&keep), ", ");
            return Err(DoesNotFit { needed: total, available: ceiling, protected });
        }
        if evicted.len() > 0 {
            warnings.push(pressure_warning(&evicted, total, ceiling));
        }
        assert(warnings.deep_view() == (if evicted@.len() == 0 {
            Seq::empty()
        } else {
            seq![pressure(evicted@, total, ceiling)]
        }));
        Ok(BudgetPlan { keep, evicted, tokens: total, warnings })
    }
}

/// A prompt that fits is left alone.
pub proof fn a_fitting_prompt_is_left_alone(segments: Seq<Segment>, budget: ContextBudget)
    requires
        token_sum(segments) <= budget.ceiling(),
    ensures
        fitted(segments, budget).0 == segments,
        fitted(segments, budget).1.len() == 0,
{
}

/// What is kept and what is evicted add up to the prompt: nothing goes unrecorded.
pub proof fn evictions_account_for_every_token(segments: Seq<Segment>, budget: ContextBudget)
    ensures
        token_sum(fitted(segments, budget).0) + freed(fitted(segments, budget).1) == token_sum(
            segments,
        ),
        fitted(segments, budget).0.len() + fitted(segments, budget).1.len() == segments.len(),
{
    let ceiling = budget.ceiling() as int;
    let first = evict(segments, token_sum(segments) as int, ceiling, EligibleView::Discovered);
    evict_splits(segments, token_sum(segments) as int, ceiling, EligibleView::Discovered);
    freed_is_sum(first.1, EvictionReason::StaleDiscovery);
    if token_sum(first.0) > ceiling {
        let who = EligibleView::Ids(droppable_history(first.0, budget.floors.recent_history));
        let second = evict(first.0, token_sum(first.0) as int, ceiling, who);
        evict_splits(first.0, token_sum(first.0) as int, ceiling, who);
        freed_is_sum(second.1, EvictionReason::OldHistory);
        freed_of_parts(
            evictions(first.1, EvictionReason::StaleDiscovery),
            evictions(second.1, EvictionReason::OldHistory),
        );
    }
}

proof fn evict_exhausts(segments: Seq<Segment>, total: int, ceiling: int, who: EligibleView)
    requires
        total == token_sum(segments),
        token_sum(evict(segments, total, ceiling, who).0) > ceiling,
    ensures
        forall|i: int|
            0 <= i < evict(segments, total, ceiling, who).0.len() ==> !may_take(
                who,
                #[trigger] evict(segments, total, ceiling, who).0[i],
            ),
{
    evict_exhausts_from(segments, 0, total, ceiling, who);
}

proof fn evict_exhausts_from(
    segments: Seq<Segment>,
    base: int,
    total: int,
    ceiling: int,
    who: EligibleView,
)
    requires
        total == base + token_sum(segments),
        base + token_sum(evict(segments, total, ceiling, who).0) > ceiling,
    ensures
        forall|i: int|
            0 <= i < evict(segments, total, ceiling, who).0.len() ==> !may_take(
                who,
                #[trigger] evict(segments, total, ceiling, who).0[i],
            ),
    decreases segments.len(),
{
    if segments.len() > 0 {
        let first = segments[0];
        let rest = segments.drop_first();
        assert(segments == seq![first] + rest);
        sum_of_parts(seq![first], rest);
        one_segment(first);
        if total > ceiling {
            if may_take(who, first) {
                evict_exhausts_from(rest, base, total - first.est_tokens, ceiling, who);
                assert(evict(segments, total, ceiling, who).0 == evict(
                    rest,
                    total - first.est_tokens,
                    ceiling,
                    who,
                ).0);
            } else {
                let kept = evict(rest, total, ceiling, who).0;
                sum_of_parts(seq![first], kept);
                evict_exhausts_from(rest, base + first.est_tokens, total, ceiling, who);
                let all = seq![first] + kept;
                assert(evict(segments, total, ceiling, who).0 == all);
                assert forall|i: int| 0 <= i < all.len() implies !may_take(who, #[trigger] all[i]) by {
                    if i > 0 {
                        assert(all[i] == kept[i - 1]);
                    }
                }
            }
        }
    }
}

/// Discovered definitions go before history does: as long as one of them is left, no history is
/// evicted.
pub proof fn discoveries_go_before_history(segments: Seq<Segment>, budget: ContextBudget, i: int)
    requires
        0 <= i < fitted(segments, budget).1.len(),
        fitted(segments, budget).1[i].reason == EvictionReason::OldHistory,
    ensures
        forall|k: int|
            0 <= k < fitted(segments, budget).0.len() ==> (#[trigger] fitted(
                segments,
                budget,
            ).0[k]).kind != SegmentKind::Discovered,
{
    let ceiling = budget.ceiling() as int;
    let first = evict(segments, token_sum(segments) as int, ceiling, EligibleView::Discovered);
    assert(token_sum(first.0) > ceiling);
    evict_exhausts(segments, token_sum(segments) as int, ceiling, EligibleView::Discovered);
    let who = EligibleView::Ids(droppable_history(first.0, budget.floors.recent_history));
    let kept = evict(first.0, token_sum(first.0) as int, ceiling, who).0;
    assert forall|k: int| 0 <= k < kept.len() implies (#[trigger] kept[k]).kind
        != SegmentKind::Discovered by {
        let j = evict_keeps(first.0, token_sum(first.0) as int, ceiling, who, k);
        assert(!may_take(EligibleView::Discovered, first.0[j]));
    }
}

/// Each segment that a round leaves is one of those it was given.
proof fn evict_keeps(segments: Seq<Segment>, total: int, ceiling: int, who: EligibleView, k: int) -> (j: int)
    requires
        0 <= k < evict(segments, total, ceiling, who).0.len(),
    ensures
        k <= j < segments.len(),
        segments[j] == evict(segments, total, ceiling, who).0[k],
    decreases segments.len(),
{
    if segments.len() == 0 || total <= ceiling {
        k
    } else if may_take(who, segments[0]) {
        1 + evict_keeps(segments.drop_first(), total - segments[0].est_tokens, ceiling, who, k)
    } else if k == 0 {
        0
    } else {
        1 + evict_keeps(segments.drop_first(), total, ceiling, who, k - 1)
    }
}

/// A segment that a round may not take is left.
proof fn evict_spares(segments: Seq<Segment>, total: int, ceiling: int, who: EligibleView, j: int)
    requires
        0 <= j < segments.len(),
        !may_take(who, segments[j]),
    ensures
        evict(segments, total, ceiling, who).0.contains(segments[j]),
    decreases segments.len(),
{
    let kept = evict(segments, total, ceiling, who).0;
    if segments.len() == 0 || total <= ceiling {
        assert(kept[j] == segments[j]);
    } else if may_take(who, segments[0]) {
        evict_spares(segments.drop_first(), total - segments[0].est_tokens, ceiling, who, j - 1);
    } else {
        let rest = evict(segments.drop_first(), total, ceiling, who).0;
        if j == 0 {
            assert(kept[0] == segments[0]);
        } else {
            evict_spares(segments.drop_first(), total, ceiling, who, j - 1);
            let m = choose|m: int| 0 <= m < rest.len() && rest[m] == segments[j];
            assert(kept[m + 1] == segments[j]);
        }
    }
}

/// How many of some segments are history.
pub open spec fn history_count(segments: Seq<Segment>) -> nat
    decreases segments.len(),
{
    if segments.len() == 0 {
        0
    } else {
        history_count(segments.drop_last()) + (if segments.last().kind == SegmentKind::History {
            1nat
        } else {
            0
        })
    }
}

/// How many history segments stand behind position `i`.
pub open spec fn history_after(segments: Seq<Segment>, i: int) -> nat {
    history_count(segments.skip(i + 1))
}

proof fn history_is_counted(segments: Seq<Segment>)
    ensures
        history_ids(segments).len() == history_count(segments),
    decreases segments.len(),
{
    if segments.len() > 0 {
        history_is_counted(segments.drop_last());
    }
}

proof fn history_of_parts(a: Seq<Segment>, b: Seq<Segment>)
    ensures
        history_ids(a + b) == history_ids(a) + history_ids(b),
    decreases b.len(),
{
    if b.len() == 0 {
        assert(a + b == a);
    } else {
        history_of_parts(a, b.drop_last());
        assert((a + b).drop_last() == a + b.drop_last());
        assert((a + b).last() == b.last());
    }
}

proof fn history_ids_come_from(segments: Seq<Segment>, m: int) -> (j: int)
    requires
        0 <= m < history_ids(segments).len(),
    ensures
        0 <= j < segments.len(),
        segments[j].id == history_ids(segments)[m],
        segments[j].kind == SegmentKind::History,
    decreases segments.len(),
{
    if m < history_ids(segments.drop_last()).len() {
        history_ids_come_from(segments.drop_last(), m)
    } else {
        segments.len() - 1
    }
}

/// The first round takes discovered definitions only, so it leaves every history id in its place.
proof fn discovery_round_keeps_history(segments: Seq<Segment>, total: int, ceiling: int)
    ensures
        history_ids(evict(segments, total, ceiling, EligibleView::Discovered).0) == history_ids(
            segments,
        ),
    decreases segments.len(),
{
    if segments.len() > 0 && total > ceiling {
        let first = segments[0];
        let rest = segments.drop_first();
        assert(segments == seq![first] + rest);
        history_of_parts(seq![first], rest);
        one_segment(first);
        if first.kind == SegmentKind::Discovered {
            discovery_round_keeps_history(rest, total - first.est_tokens, ceiling);
        } else {
            discovery_round_keeps_history(rest, total, ceiling);
            history_of_parts(
                seq![first],
                evict(rest, total, ceiling, EligibleView::Discovered).0,
            );
        }
    }
}

/// The floor holds: a history segment with fewer than `recent_history` history segments behind it
/// always survives, and so does everything that is neither history nor a discovered definition.
/// Ids must be distinct, because eviction finds history by id.
pub proof fn the_floor_holds(segments: Seq<Segment>, budget: ContextBudget, i: int)
    requires
        ids_distinct(segments),
        0 <= i < segments.len(),
        segments[i].kind != SegmentKind::Discovered,
        segments[i].kind == SegmentKind::History ==> history_after(segments, i)
            < budget.floors.recent_history,
    ensures
        fitted(segments, budget).0.contains(segments[i]),
{
    let ceiling = budget.ceiling() as int;
    let all = token_sum(segments) as int;
    let first = evict(segments, all, ceiling, EligibleView::Discovered);
    evict_spares(segments, all, ceiling, EligibleView::Discovered, i);
    if token_sum(first.0) > ceiling {
        let floor = budget.floors.recent_history;
        let droppable = droppable_history(first.0, floor);
        discovery_round_keeps_history(segments, all, ceiling);
        let ids = history_ids(segments);
        let front = segments.take(i);
        let back = segments.skip(i + 1);
        assert(segments == front + (seq![segments[i]] + back));
        history_of_parts(front, seq![segments[i]] + back);
        history_of_parts(seq![segments[i]], back);
        history_is_counted(back);
        one_segment(segments[i]);
        if droppable.contains(segments[i].id) {
            let m = choose|m: int| 0 <= m < droppable.len() && droppable[m] == segments[i].id;
            assert(ids[m] == segments[i].id);
            if segments[i].kind == SegmentKind::History {
                assert(ids.len() - floor <= history_ids(front).len());
                assert(history_ids(front)[m] == ids[m]);
                let j = history_ids_come_from(front, m);
                assert(segments[j].id.0 == segments[i].id.0);
            } else {
                let j = history_ids_come_from(segments, m);
                assert(segments[j].id.0 == segments[i].id.0);
            }
        }
        let n = choose|n: int| 0 <= n < first.0.len() && first.0[n] == segments[i];
        evict_spares(first.0, token_sum(first.0) as int, ceiling, EligibleView::Ids(droppable), n);
    }
}

proof fn evict_stops_in_time(segments: Seq<Segment>, base: int, ceiling: int, who: EligibleView)
    requires
        evict(segments, base + token_sum(segments), ceiling, who).1.len() > 0,
    ensures
        ({
            let (kept, taken) = evict(segments, base + token_sum(segments), ceiling, who);
            base + token_sum(kept) + taken.last().est_tokens > ceiling
        }),
    decreases segments.len(),
{
    let total = base + token_sum(segments);
    let first = segments[0];
    let rest = segments.drop_first();
    assert(seq![first] + rest == segments);
    sum_of_parts(seq![first], rest);
    one_segment(first);
    if may_take(who, first) {
        let (kept, taken) = evict(rest, base + token_sum(rest), ceiling, who);
        assert(total - first.est_tokens == base + token_sum(rest));
        if taken.len() > 0 {
            evict_stops_in_time(rest, base, ceiling, who);
            assert((seq![first] + taken).last() == taken.last());
        } else {
            evict_splits(rest, base + token_sum(rest), ceiling, who);
            assert(token_sum(taken) == 0);
            assert((seq![first] + taken).last() == first);
        }
    } else {
        let (kept, taken) = evict(rest, total, ceiling, who);
        assert(total == (base + first.est_tokens) + token_sum(rest));
        evict_stops_in_time(rest, base + first.est_tokens, ceiling, who);
        sum_of_parts(seq![first], kept);
    }
}

/// No more is given up than has to be: with the last segment that went, the prompt was still too
/// long.
pub proof fn eviction_is_minimal(segments: Seq<Segment>, budget: ContextBudget)
    requires
        fitted(segments, budget).1.len() > 0,
    ensures
        token_sum(fitted(segments, budget).0) + fitted(segments, budget).1.last().tokens
            > budget.ceiling(),
{
    let ceiling = budget.ceiling() as int;
    let first = evict(segments, token_sum(segments) as int, ceiling, EligibleView::Discovered);
    if first.1.len() > 0 {
        evict_stops_in_time(segments, 0, ceiling, EligibleView::Discovered);
    }
    if token_sum(first.0) > ceiling {
        let who = EligibleView::Ids(droppable_history(first.0, budget.floors.recent_history));
        let second = evict(first.0, token_sum(first.0) as int, ceiling, who);
        if second.1.len() > 0 {
            evict_stops_in_time(first.0, 0, ceiling, who);
            let stale = evictions(first.1, EvictionReason::StaleDiscovery);
            let old_ones = evictions(second.1, EvictionReason::OldHistory);
            assert((stale + old_ones).last() == old_ones.last());
        } else {
            evict_splits(first.0, token_sum(first.0) as int, ceiling, who);
            assert(evictions(second.1, EvictionReason::OldHistory).len() == 0);
        }
    }
}

/// The room for a prompt is the window without what is set aside for the answer and for slack, and
/// there is none where those take the whole window.
pub proof fn reserves_come_off_the_window(budget: ContextBudget)
    ensures
        budget.reserve_output + budget.reserve_headroom <= budget.window ==> budget.ceiling()
            + budget.reserve_output + budget.reserve_headroom == budget.window,
        budget.reserve_output + budget.reserve_headroom > budget.window ==> budget.ceiling() == 0,
{
}

proof fn evict_keeps_order(
    segments: Seq<Segment>,
    total: int,
    ceiling: int,
    who: EligibleView,
    a: int,
    b: int,
) -> (at: (int, int))
    requires
        0 <= a < b < evict(segments, total, ceiling, who).0.len(),
    ensures
        0 <= at.0 < at.1 < segments.len(),
        segments[at.0] == evict(segments, total, ceiling, who).0[a],
        segments[at.1] == evict(segments, total, ceiling, who).0[b],
    decreases segments.len(),
{
    if segments.len() == 0 || total <= ceiling {
        (a, b)
    } else {
        let rest = segments.drop_first();
        if may_take(who, segments[0]) {
            let at = evict_keeps_order(rest, total - segments[0].est_tokens, ceiling, who, a, b);
            (at.0 + 1, at.1 + 1)
        } else if a == 0 {
            let j = evict_keeps(rest, total, ceiling, who, b - 1);
            (0, j + 1)
        } else {
            let at = evict_keeps_order(rest, total, ceiling, who, a - 1, b - 1);
            (at.0 + 1, at.1 + 1)
        }
    }
}

proof fn kept_ids_stay_distinct(segments: Seq<Segment>, total: int, ceiling: int, who: EligibleView)
    requires
        ids_distinct(segments),
    ensures
        ids_distinct(evict(segments, total, ceiling, who).0),
{
    let kept = evict(segments, total, ceiling, who).0;
    assert forall|a: int, b: int|
        0 <= a < kept.len() && 0 <= b < kept.len() && (#[trigger] kept[a]).id.0 == (#[trigger] kept[b]).id.0 implies a
        == b by {
        if a < b {
            let at = evict_keeps_order(segments, total, ceiling, who, a, b);
            assert(segments[at.0].id.0 == segments[at.1].id.0);
        }
        if b < a {
            let at = evict_keeps_order(segments, total, ceiling, who, b, a);
            assert(segments[at.0].id.0 == segments[at.1].id.0);
        }
    }
}

proof fn taken_comes_from(segments: Seq<Segment>, total: int, ceiling: int, who: EligibleView, k: int) -> (i: int)
    requires
        0 <= k < evict(segments, total, ceiling, who).1.len(),
    ensures
        0 <= i < segments.len(),
        segments[i] == evict(segments, total, ceiling, who).1[k],
        may_take(who, segments[i]),
    decreases segments.len(),
{
    let rest = segments.drop_first();
    if may_take(who, segments[0]) {
        if k == 0 {
            0
        } else {
            let i = taken_comes_from(rest, total - segments[0].est_tokens, ceiling, who, k - 1);
            i + 1
        }
    } else {
        let i = taken_comes_from(rest, total, ceiling, who, k);
        i + 1
    }
}

proof fn kept_or_taken(segments: Seq<Segment>, total: int, ceiling: int, who: EligibleView, i: int)
    requires
        0 <= i < segments.len(),
    ensures
        ({
            let (kept, taken) = evict(segments, total, ceiling, who);
            kept.contains(segments[i]) || taken.contains(segments[i])
        }),
    decreases segments.len(),
{
    let (kept, taken) = evict(segments, total, ceiling, who);
    if segments.len() == 0 || total <= ceiling {
        assert(kept[i] == segments[i]);
    } else {
        let rest = segments.drop_first();
        let left = if may_take(who, segments[0]) {
            total - segments[0].est_tokens
        } else {
            total
        };
        let (k, t) = evict(rest, left, ceiling, who);
        if i == 0 {
            if may_take(who, segments[0]) {
                assert(taken[0] == segments[0]);
            } else {
                assert(kept[0] == segments[0]);
            }
        } else {
            kept_or_taken(rest, left, ceiling, who, i - 1);
            assert(rest[i - 1] == segments[i]);
            let more: int = 1;
            if k.contains(segments[i]) {
                let m = choose|m: int| 0 <= m < k.len() && k[m] == segments[i];
                if may_take(who, segments[0]) {
                    assert(kept[m] == segments[i]);
                } else {
                    assert(kept[m + more] == segments[i]);
                }
            } else {
                let m = choose|m: int| 0 <= m < t.len() && t[m] == segments[i];
                if may_take(who, segments[0]) {
                    assert(taken[m + more] == segments[i]);
                } else {
                    assert(taken[m] == segments[i]);
                }
            }
        }
    }
}

/// A round takes in order: where it took a segment, it took every earlier one that it may take.
proof fn earlier_goes_first(
    segments: Seq<Segment>,
    total: int,
    ceiling: int,
    who: EligibleView,
    i: int,
    j: int,
)
    requires
        ids_distinct(segments),
        0 <= i < j < segments.len(),
        may_take(who, segments[i]),
        evict(segments, total, ceiling, who).1.contains(segments[j]),
    ensures
        evict(segments, total, ceiling, who).1.contains(segments[i]),
    decreases segments.len(),
{
    let taken = evict(segments, total, ceiling, who).1;
    let rest = segments.drop_first();
    let m = choose|m: int| 0 <= m < taken.len() && taken[m] == segments[j];
    if i == 0 {
        assert(taken[0] == segments[0]);
    } else {
        assert forall|a: int, b: int|
            0 <= a < rest.len() && 0 <= b < rest.len() && (#[trigger] rest[a]).id.0 == (
            #[trigger] rest[b]).id.0 implies a == b by {
            assert(segments[a + 1].id.0 == segments[b + 1].id.0);
        }
        assert(rest[j - 1] == segments[j] && rest[i - 1] == segments[i]);
        if may_take(who, segments[0]) {
            let t = evict(rest, total - segments[0].est_tokens, ceiling, who).1;
            if m == 0 {
                assert(segments[0].id.0 == segments[j].id.0);
            }
            assert(t[m - 1] == segments[j]);
            earlier_goes_first(rest, total - segments[0].est_tokens, ceiling, who, i - 1, j - 1);
            let n = choose|n: int| 0 <= n < t.len() && t[n] == segments[i];
            assert(taken[n + 1] == segments[i]);
        } else {
            earlier_goes_first(rest, total, ceiling, who, i - 1, j - 1);
        }
    }
}

/// Whether a segment is among those that a plan gave up.
pub open spec fn gone(evicted: Seq<Eviction>, segment: Segment) -> bool {
    exists|k: int| 0 <= k < evicted.len() && (#[trigger] evicted[k]).id == segment.id
}

/// Whether one segment stands before another in a prompt.
pub open spec fn stand_in_order(segments: Seq<Segment>, x: Segment, y: Segment) -> bool {
    exists|i: int, j: int|
        0 <= i < j < segments.len() && #[trigger] segments[i] == x && #[trigger] segments[j] == y
}

/// Every segment is kept or given up. What is kept is unaltered and in prompt order. What is given up
/// is recorded with its own label and size, and for the right reason: a discovered definition, or
/// history.
pub proof fn kept_and_evicted_make_up_the_prompt(segments: Seq<Segment>, budget: ContextBudget)
    requires
        ids_distinct(segments),
    ensures
        ({
            let (keep, evicted) = fitted(segments, budget);
            &&& forall|i: int|
                0 <= i < segments.len() ==> keep.contains(#[trigger] segments[i]) || gone(
                    evicted,
                    segments[i],
                )
            &&& forall|a: int, b: int|
                0 <= a < b < keep.len() ==> stand_in_order(
                    segments,
                    #[trigger] keep[a],
                    #[trigger] keep[b],
                )
            &&& forall|k: int|
                0 <= k < evicted.len() ==> given_up(segments, keep, #[trigger] evicted[k])
        }),
{
    let ceiling = budget.ceiling() as int;
    let (keep, evicted) = fitted(segments, budget);
    let total = token_sum(segments) as int;
    let discovered = EligibleView::Discovered;
    let first = evict(segments, total, ceiling, discovered);
    let stale = evictions(first.1, EvictionReason::StaleDiscovery);
    let who = EligibleView::Ids(droppable_history(first.0, budget.floors.recent_history));
    let again = token_sum(first.0) as int;
    let second = evict(first.0, again, ceiling, who);
    let two = token_sum(first.0) > ceiling;
    kept_ids_stay_distinct(segments, total, ceiling, discovered);
    kept_ids_stay_distinct(first.0, again, ceiling, who);
    assert forall|i: int| 0 <= i < segments.len() implies keep.contains(#[trigger] segments[i]) || gone(
        evicted,
        segments[i],
    ) by {
        kept_or_taken(segments, total, ceiling, discovered, i);
        if first.1.contains(segments[i]) {
            let k = choose|k: int| 0 <= k < first.1.len() && first.1[k] == segments[i];
            assert(evicted[k] == stale[k]);
        } else if two {
            let m = choose|m: int| 0 <= m < first.0.len() && first.0[m] == segments[i];
            kept_or_taken(first.0, again, ceiling, who, m);
            if second.1.contains(segments[i]) {
                let k = choose|k: int| 0 <= k < second.1.len() && second.1[k] == segments[i];
                assert(evicted[stale.len() + k].id == segments[i].id);
            }
        }
    }
    assert forall|a: int, b: int| 0 <= a < b < keep.len() implies stand_in_order(
        segments,
        #[trigger] keep[a],
        #[trigger] keep[b],
    ) by {
        let (x, y) = if two {
            evict_keeps_order(first.0, again, ceiling, who, a, b)
        } else {
            (a, b)
        };
        let at = evict_keeps_order(segments, total, ceiling, discovered, x, y);
        assert(segments[at.0] == keep[a] && segments[at.1] == keep[b]);
    }
    assert forall|k: int| 0 <= k < evicted.len() implies given_up(
        segments,
        keep,
        #[trigger] evicted[k],
    ) by {
        if k < stale.len() {
            let i = taken_comes_from(segments, total, ceiling, discovered, k);
            assert(evicted[k] == stale[k]);
            assert(recorded_as(segments, i, evicted[k]));
            if keep.contains(segments[i]) {
                let m = choose|m: int| 0 <= m < keep.len() && keep[m] == segments[i];
                let n = if two {
                    evict_keeps(first.0, again, ceiling, who, m)
                } else {
                    m
                };
                taken_is_not_kept(segments, total, ceiling, discovered, k, n);
            }
        } else {
            let m = taken_comes_from(first.0, again, ceiling, who, k - stale.len());
            let i = evict_keeps(segments, total, ceiling, discovered, m);
            assert(evicted[k] == evictions(second.1, EvictionReason::OldHistory)[k - stale.len()]);
            assert(segments[i] == first.0[m]);
            droppable_is_history(first.0, budget.floors.recent_history, m);
            assert(recorded_as(segments, i, evicted[k]));
            if keep.contains(segments[i]) {
                let n = choose|n: int| 0 <= n < keep.len() && keep[n] == segments[i];
                taken_is_not_kept(first.0, again, ceiling, who, k - stale.len(), n);
            }
        }
    }
}

/// Whether an eviction is the record of the segment at `i`.
pub open spec fn recorded_as(segments: Seq<Segment>, i: int, e: Eviction) -> bool {
    &&& 0 <= i < segments.len()
    &&& e.id == segments[i].id
    &&& e.label == segments[i].label
    &&& e.tokens == segments[i].est_tokens
    &&& e.reason == EvictionReason::StaleDiscovery <==> segments[i].kind == SegmentKind::Discovered
    &&& e.reason == EvictionReason::OldHistory <==> segments[i].kind == SegmentKind::History
}

/// Whether an eviction is the record of a segment that was not kept.
pub open spec fn given_up(segments: Seq<Segment>, keep: Seq<Segment>, e: Eviction) -> bool {
    exists|i: int| #[trigger] recorded_as(segments, i, e) && !keep.contains(segments[i])
}

proof fn droppable_is_history(segments: Seq<Segment>, floor: usize, m: int)
    requires
        ids_distinct(segments),
        0 <= m < segments.len(),
        droppable_history(segments, floor).contains(segments[m].id),
    ensures
        segments[m].kind == SegmentKind::History,
{
    let drop = droppable_history(segments, floor);
    let k = choose|k: int| 0 <= k < drop.len() && drop[k] == segments[m].id;
    assert(history_ids(segments)[k] == segments[m].id);
    let j = history_ids_come_from(segments, k);
    assert(segments[j].id.0 == segments[m].id.0);
}

proof fn taken_is_not_kept(
    segments: Seq<Segment>,
    total: int,
    ceiling: int,
    who: EligibleView,
    k: int,
    n: int,
)
    requires
        ids_distinct(segments),
        0 <= k < evict(segments, total, ceiling, who).1.len(),
        0 <= n < evict(segments, total, ceiling, who).0.len(),
    ensures
        evict(segments, total, ceiling, who).1[k] != evict(segments, total, ceiling, who).0[n],
    decreases segments.len(),
{
    let (kept, taken) = evict(segments, total, ceiling, who);
    let rest = segments.drop_first();
    assert forall|a: int, b: int|
        0 <= a < rest.len() && 0 <= b < rest.len() && (#[trigger] rest[a]).id.0 == (#[trigger] rest[b]).id.0 implies a
        == b by {
        assert(segments[a + 1].id.0 == segments[b + 1].id.0);
    }
    if may_take(who, segments[0]) {
        let left = total - segments[0].est_tokens;
        if k == 0 {
            let j = evict_keeps(rest, left, ceiling, who, n);
            assert(segments[j + 1] == kept[n]);
            if segments[0] == kept[n] {
                assert(segments[0].id.0 == segments[j + 1].id.0);
            }
        } else {
            taken_is_not_kept(rest, left, ceiling, who, k - 1, n);
        }
    } else {
        if n == 0 {
            let j = taken_comes_from(rest, total, ceiling, who, k);
            assert(segments[j + 1] == taken[k]);
            if segments[0] == taken[k] {
                assert(segments[0].id.0 == segments[j + 1].id.0);
            }
        } else {
            taken_is_not_kept(rest, total, ceiling, who, k, n - 1);
        }
    }
}

proof fn old_history_may_go(segments: Seq<Segment>, floor: usize, i: int)
    requires
        0 <= i < segments.len(),
        segments[i].kind == SegmentKind::History,
        history_after(segments, i) >= floor,
    ensures
        droppable_history(segments, floor).contains(segments[i].id),
{
    let front = segments.take(i);
    let back = segments.skip(i + 1);
    assert(segments == front + (seq![segments[i]] + back));
    history_of_parts(front, seq![segments[i]] + back);
    history_of_parts(seq![segments[i]], back);
    history_is_counted(back);
    one_segment(segments[i]);
    let ids = history_ids(segments);
    let m = history_ids(front).len() as int;
    assert(ids[m] == segments[i].id);
    let drop = droppable_history(segments, floor);
    if floor > 0 || m < ids.len() {
        assert(ids.len() == m + 1 + history_after(segments, i));
    }
    assert(drop[m] == segments[i].id);
}

proof fn more_history_behind(segments: Seq<Segment>, i: int, j: int)
    requires
        0 <= i < j < segments.len(),
        segments[j].kind == SegmentKind::History,
    ensures
        history_after(segments, i) > history_after(segments, j),
{
    let a = segments.skip(i + 1);
    let b = segments.skip(j + 1);
    let between = a.take(j - i - 1);
    assert(a == between + (seq![segments[j]] + b));
    history_of_parts(between, seq![segments[j]] + b);
    history_of_parts(seq![segments[j]], b);
    one_segment(segments[j]);
    history_is_counted(a);
    history_is_counted(b);
}

/// What was gone is found in the round that took it.
proof fn gone_in_a_round(segments: Seq<Segment>, budget: ContextBudget, j: int)
    requires
        ids_distinct(segments),
        0 <= j < segments.len(),
        gone(fitted(segments, budget).1, segments[j]),
    ensures
        ({
            let ceiling = budget.ceiling() as int;
            let first = evict(
                segments,
                token_sum(segments) as int,
                ceiling,
                EligibleView::Discovered,
            );
            let who = EligibleView::Ids(droppable_history(first.0, budget.floors.recent_history));
            ||| segments[j].kind == SegmentKind::Discovered && first.1.contains(segments[j])
            ||| segments[j].kind == SegmentKind::History && token_sum(first.0) > ceiling && evict(
                first.0,
                token_sum(first.0) as int,
                ceiling,
                who,
            ).1.contains(segments[j])
        }),
{
    let ceiling = budget.ceiling() as int;
    let total = token_sum(segments) as int;
    let discovered = EligibleView::Discovered;
    let evicted = fitted(segments, budget).1;
    let first = evict(segments, total, ceiling, discovered);
    let k = choose|k: int| 0 <= k < evicted.len() && (#[trigger] evicted[k]).id == segments[j].id;
    if k < first.1.len() {
        let i = taken_comes_from(segments, total, ceiling, discovered, k);
        assert(evicted[k] == evictions(first.1, EvictionReason::StaleDiscovery)[k]);
        assert(segments[i].id.0 == segments[j].id.0);
        assert(first.1[k] == segments[j]);
    } else {
        let floor = budget.floors.recent_history;
        let who = EligibleView::Ids(droppable_history(first.0, floor));
        let again = token_sum(first.0) as int;
        let second = evict(first.0, again, ceiling, who);
        let n = k - first.1.len();
        assert(evicted[k] == evictions(second.1, EvictionReason::OldHistory)[n]);
        let m = taken_comes_from(first.0, again, ceiling, who, n);
        let i = evict_keeps(segments, total, ceiling, discovered, m);
        assert(segments[i].id.0 == segments[j].id.0);
        kept_ids_stay_distinct(segments, total, ceiling, discovered);
        droppable_is_history(first.0, floor, m);
        assert(second.1[n] == segments[j]);
    }
}

/// The oldest goes first: where a discovered definition went, so did every one before it, and where
/// history went, so did all history before it.
pub proof fn the_oldest_goes_first(segments: Seq<Segment>, budget: ContextBudget, i: int, j: int)
    requires
        ids_distinct(segments),
        0 <= i < j < segments.len(),
        segments[i].kind == segments[j].kind,
        gone(fitted(segments, budget).1, segments[j]),
    ensures
        gone(fitted(segments, budget).1, segments[i]),
{
    let ceiling = budget.ceiling() as int;
    let total = token_sum(segments) as int;
    let floor = budget.floors.recent_history;
    let discovered = EligibleView::Discovered;
    let evicted = fitted(segments, budget).1;
    let first = evict(segments, total, ceiling, discovered);
    let stale = evictions(first.1, EvictionReason::StaleDiscovery);
    gone_in_a_round(segments, budget, j);
    if segments[j].kind == SegmentKind::Discovered {
        earlier_goes_first(segments, total, ceiling, discovered, i, j);
        let k = choose|k: int| 0 <= k < first.1.len() && first.1[k] == segments[i];
        assert(evicted[k] == stale[k]);
    } else {
        let who = EligibleView::Ids(droppable_history(first.0, floor));
        let again = token_sum(first.0) as int;
        let second = evict(first.0, again, ceiling, who);
        if history_after(segments, j) < floor {
            the_floor_holds(segments, budget, j);
            let n = choose|n: int| 0 <= n < second.0.len() && second.0[n] == segments[j];
            let k = choose|k: int| 0 <= k < second.1.len() && second.1[k] == segments[j];
            kept_ids_stay_distinct(segments, total, ceiling, discovered);
            taken_is_not_kept(first.0, again, ceiling, who, k, n);
        }
        more_history_behind(segments, i, j);
        old_history_may_go(segments, floor, i);
        discovery_round_keeps_history(segments, total, ceiling);
        evict_spares(segments, total, ceiling, discovered, i);
        evict_spares(segments, total, ceiling, discovered, j);
        kept_ids_stay_distinct(segments, total, ceiling, discovered);
        let a = choose|a: int| 0 <= a < first.0.len() && first.0[a] == segments[i];
        let b = choose|b: int| 0 <= b < first.0.len() && first.0[b] == segments[j];
        if b < a {
            let at = evict_keeps_order(segments, total, ceiling, discovered, b, a);
            assert(segments[at.0].id.0 == segments[j].id.0);
            assert(segments[at.1].id.0 == segments[i].id.0);
        }
        if a == b {
            assert(segments[i].id.0 == segments[j].id.0);
        }
        earlier_goes_first(first.0, again, ceiling, who, a, b);
        let k = choose|k: int| 0 <= k < second.1.len() && second.1[k] == segments[i];
        assert(evicted[stale.len() + k].id == segments[i].id);
    }
}

/// A prompt is refused only when there is nothing left to give up: every discovered definition went,
/// and so did all history but the most recent that the floor protects.
pub proof fn a_refusal_has_given_up_all_it_may(segments: Seq<Segment>, budget: ContextBudget, i: int)
    requires
        ids_distinct(segments),
        0 <= i < segments.len(),
        token_sum(fitted(segments, budget).0) > budget.ceiling(),
        segments[i].kind == SegmentKind::Discovered || (segments[i].kind == SegmentKind::History
            && history_after(segments, i) >= budget.floors.recent_history),
    ensures
        gone(fitted(segments, budget).1, segments[i]),
        !fitted(segments, budget).0.contains(segments[i]),
{
    let ceiling = budget.ceiling() as int;
    let total = token_sum(segments) as int;
    let floor = budget.floors.recent_history;
    let discovered = EligibleView::Discovered;
    let (keep, evicted) = fitted(segments, budget);
    let first = evict(segments, total, ceiling, discovered);
    let who = EligibleView::Ids(droppable_history(first.0, floor));
    let again = token_sum(first.0) as int;
    evict_exhausts(segments, total, ceiling, discovered);
    evict_exhausts(first.0, again, ceiling, who);
    if segments[i].kind == SegmentKind::History {
        old_history_goes_second(segments, budget, i);
    }
    if keep.contains(segments[i]) {
        let n = choose|n: int| 0 <= n < keep.len() && keep[n] == segments[i];
        assert(!may_take(who, keep[n]));
        if segments[i].kind == SegmentKind::Discovered {
            let m = evict_keeps(first.0, again, ceiling, who, n);
            assert(!may_take(discovered, first.0[m]));
        }
    }
    kept_and_evicted_make_up_the_prompt(segments, budget);
}

proof fn old_history_goes_second(segments: Seq<Segment>, budget: ContextBudget, i: int)
    requires
        0 <= i < segments.len(),
        segments[i].kind == SegmentKind::History,
        history_after(segments, i) >= budget.floors.recent_history,
    ensures
        ({
            let ceiling = budget.ceiling() as int;
            let first = evict(
                segments,
                token_sum(segments) as int,
                ceiling,
                EligibleView::Discovered,
            );
            droppable_history(first.0, budget.floors.recent_history).contains(segments[i].id)
        }),
{
    old_history_may_go(segments, budget.floors.recent_history, i);
    discovery_round_keeps_history(segments, token_sum(segments) as int, budget.ceiling() as int);
}

/// A percentage is the whole part of a hundred times what is used over what there is, and never more
/// than a hundred.
pub proof fn a_percentage_is_rounded_down(used: u32, of: u32)
    ensures
        percent_of(used, of) <= 100,
        of == 0 || used >= of ==> percent_of(used, of) == 100,
        used < of ==> percent_of(used, of) * of <= used * 100 < (percent_of(used, of) + 1) * of,
{
    if of > 0 {
        let n = used * 100;
        let q = n / (of as int);
        assert(q * of <= n < (q + 1) * of) by (nonlinear_arith)
            requires
                of > 0,
                q == n / (of as int),
        ;
        if used < of {
            assert(q < 100) by (nonlinear_arith)
                requires
                    q * of <= n,
                    n == used * 100,
                    used < of,
            ;
            assert(q >= 0) by (nonlinear_arith)
                requires
                    n < (q + 1) * of,
                    n >= 0,
                    of > 0,
            ;
        } else {
            assert(q >= 100) by (nonlinear_arith)
                requires
                    n < (q + 1) * of,
                    n == used * 100,
                    used >= of,
                    of > 0,
            ;
        }
    }
}

/// A warning of pressure says how full the window is, and how many segments and tokens went and
/// which: each eviction counts, and each is named.
pub proof fn pressure_names_what_went(
    evicted: Seq<Eviction>,
    more: Eviction,
    used: u32,
    ceiling: u32,
    i: int,
)
    ensures
        freed(Seq::empty()) == 0,
        freed(evicted.push(more)) == freed(evicted) + more.tokens,
        match pressure(evicted, used, ceiling) {
            WarningView::BudgetPressure { used_percent, action } => used_percent == percent_of(
                used,
                ceiling,
            ) && mentions(action, dec(evicted.len())) && mentions(action, dec(freed(evicted))) && (0
                <= i < evicted.len() ==> mentions(action, evicted[i].label@)),
            _ => false,
        },
{
    broadcast use group_mentions;

    assert(evicted.push(more).drop_last() == evicted);
    if 0 <= i < evicted.len() {
        let labels = eviction_labels(evicted);
        joining_keeps_every_part(labels, ", "@, i, labels[i]);
    }
}

} // verus!
