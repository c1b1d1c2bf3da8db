//! The cache planner.
//!
//! Given the segments of a rendered prompt, last turn's hashes, and what the provider can do,
//! decide where the cache breakpoints go, and say so when the answer is "nowhere useful". The plan
//! is a function of those three values alone.

use std::collections::BTreeMap;

use vstd::prelude::*;

use crate::event::{Warning, WarningView};
use crate::ids::SegmentId;
use crate::order::{sort, sorted, sorting_orders_and_keeps, Ranked};
use crate::provider_caps::{CacheSupport, ProviderCapabilities};
use crate::segment::{ttls_ordered, CacheMark, CacheTtl, ContentHash, Segment, SegmentKind, Stability};
use crate::text::{dec, push_decimal};

verus! {

/// What the previous turn's prompt looked like, for churn detection.
#[derive(Debug, Clone, PartialEq, Eq)]
pub struct PreviousPrompt {
    hashes: BTreeMap<u32, ContentHash>,
}

impl View for PreviousPrompt {
    type V = Map<u32, ContentHash>;

    closed spec fn view(&self) -> Map<u32, ContentHash> {
        self.hashes@
    }
}

/// What a list of segments hashes to, by segment; the last segment of an id counts.
pub open spec fn hashes_of(segments: Seq<Segment>) -> Map<u32, ContentHash>
    decreases segments.len(),
{
    if segments.len() == 0 {
        Map::empty()
    } else {
        hashes_of(segments.drop_last()).insert(segments.last().id.0, segments.last().hash)
    }
}

/// Whether a segment was present last turn with other content.
pub open spec fn changed(segment: Segment, previous: Map<u32, ContentHash>) -> bool {
    previous.contains_key(segment.id.0) && previous[segment.id.0]@ != segment.hash@
}

impl Default for PreviousPrompt {
    fn default() -> (r: Self)
        ensures
            r@ == Map::<u32, ContentHash>::empty(),
    {
        PreviousPrompt { hashes: BTreeMap::new() }
    }
}

impl PreviousPrompt {
    /// Nothing seen yet: the first turn of a run.
    #[must_use]
    pub fn none() -> (r: Self)
        ensures
            r@ == Map::<u32, ContentHash>::empty(),
    {
        PreviousPrompt { hashes: BTreeMap::new() }
    }

    /// Record what a set of segments hashed to.
    #[must_use]
    pub fn from_segments(segments: &[Segment]) -> (r: Self)
        ensures
            r@ == hashes_of(segments@),
    {
        let mut hashes: BTreeMap<u32, ContentHash> = BTreeMap::new();
        let mut i: usize = 0;
        while i < segments.len()
            invariant
                i <= segments@.len(),
                hashes@ == hashes_of(segments@.take(i as int)),
            decreases segments@.len() - i,
        {
            hashes.insert(segments[i].id.0, segments[i].hash);
            proof {
                let next = segments@.take(i + 1);
                assert(next.drop_last() == segments@.take(i as int));
            }
            i = i + 1;
        }
        assert(segments@.take(segments@.len() as int) == segments@);
        PreviousPrompt { hashes }
    }

    /// Whether `segment` differs from what was seen last turn. A segment that was not present last
    /// turn is new rather than changed.
    #[must_use]
    pub fn changed(&self, segment: &Segment) -> (r: bool)
        ensures
            r == changed(*segment, self@),
    {
        match self.hashes.get(&segment.id.0) {
            Some(hash) => !hash.same(&segment.hash),
            None => false,
        }
    }

    /// What a segment hashed to last turn, if it was present.
    #[must_use]
    pub fn previous_hash(&self, id: SegmentId) -> (r: Option<ContentHash>)
        ensures
            r == (if self@.contains_key(id.0) {
                Some(self@[id.0])
            } else {
                None
            }),
    {
        match self.hashes.get(&id.0) {
            Some(hash) => Some(*hash),
            None => None,
        }
    }

    /// Whether nothing has been recorded.
    #[must_use]
    pub fn is_empty(&self) -> (r: bool)
        ensures
            r == self@.dom().is_empty(),
    {
        proof {
            assert(self.hashes@.dom().finite());
            if self.hashes@.dom().len() == 0 {
                assert(self.hashes@.dom() =~= Set::<u32>::empty());
            }
        }
        self.hashes.is_empty()
    }
}

/// Where the breakpoints go, and what the developer should know.
#[derive(Debug, PartialEq, Eq)]
pub struct CachePlan {
    /// The marks to attach to the request, in prompt order.
    pub marks: Vec<CacheMark>,
    /// Diagnostics. Empty is the goal; each entry names a cost and a fix.
    pub warnings: Vec<Warning>,
    /// How many tokens the cached prefix covers, when a breakpoint was placed.
    pub cached_prefix_tokens: u32,
    /// Whether the provider caches on its own, without marks.
    pub provider_caches_automatically: bool,
}

/// What a cache plan says.
#[verifier::ext_equal]
pub struct CachePlanView {
    pub marks: Seq<CacheMark>,
    pub warnings: Seq<WarningView>,
    pub cached_prefix_tokens: u32,
    pub provider_caches_automatically: bool,
}

impl View for CachePlan {
    type V = CachePlanView;

    open spec fn view(&self) -> CachePlanView {
        CachePlanView {
            marks: self.marks@,
            warnings: self.warnings.deep_view(),
            cached_prefix_tokens: self.cached_prefix_tokens,
            provider_caches_automatically: self.provider_caches_automatically,
        }
    }
}

impl CachePlan {
    /// A plan that places no marks.
    #[must_use]
    pub fn empty() -> (r: Self)
        ensures
            r@ == no_marks(Seq::empty(), false),
    {
        let r = CachePlan {
            marks: Vec::new(),
            warnings: Vec::new(),
            cached_prefix_tokens: 0,
            provider_caches_automatically: false,
        };
        assert(r.warnings.deep_view() == Seq::<WarningView>::empty());
        r
    }

    /// Whether a breakpoint was placed.
    #[must_use]
    pub fn caches_anything(&self) -> (r: bool)
        ensures
            r == (self@.marks.len() > 0),
    {
        !self.marks.is_empty()
    }

    /// Whether the prompt is cached at all, by a breakpoint or by the provider itself.
    #[must_use]
    pub fn is_cached(&self) -> (r: bool)
        ensures
            r == (self@.marks.len() > 0 || self@.provider_caches_automatically),
    {
        self.caches_anything() || self.provider_caches_automatically
    }
}

/// A plan without marks.
pub open spec fn no_marks(warnings: Seq<WarningView>, automatic: bool) -> CachePlanView {
    CachePlanView {
        marks: Seq::empty(),
        warnings,
        cached_prefix_tokens: 0,
        provider_caches_automatically: automatic,
    }
}

/// Whether a segment claims to be stable and changed all the same.
pub open spec fn churned(segment: Segment, previous: Map<u32, ContentHash>) -> bool {
    segment.stability != Stability::Volatile && changed(segment, previous)
}

/// Whether a breakpoint may sit at the end of a segment: it is stable and did not change.
pub open spec fn steady(segment: Segment, previous: Map<u32, ContentHash>) -> bool {
    segment.stability != Stability::Volatile && !changed(segment, previous)
}

/// What to do about churn in a part of the prompt.
pub open spec fn advice_for(kind: SegmentKind) -> Seq<char> {
    match kind {
        SegmentKind::Tools =>
            "the tool block changed between turns. A toolset that reorders its listing, or a description containing a timestamp or counter, will do this."@,
        SegmentKind::System =>
            "the system prompt changed between turns. A clock, a session id, or a token count interpolated into it will do this."@,
        SegmentKind::SkillIndex =>
            "the skill index changed between turns. Skills discovered mid-run belong after the breakpoint, not in the index."@,
        SegmentKind::History => "this segment was expected to be stable but changed."@,
        SegmentKind::Discovered => "this segment was expected to be stable but changed."@,
    }
}

/// One warning for each segment that churned, in prompt order.
pub open spec fn churn_warnings(
    segments: Seq<Segment>,
    previous: Map<u32, ContentHash>,
) -> Seq<WarningView>
    decreases segments.len(),
{
    if segments.len() == 0 {
        Seq::empty()
    } else {
        let rest = churn_warnings(segments.drop_last(), previous);
        let last = segments.last();
        if churned(last, previous) {
            rest.push(
                WarningView::CacheChurn {
                    segment: last.label@,
                    tokens: last.est_tokens,
                    advice: advice_for(last.kind),
                },
            )
        } else {
            rest
        }
    }
}

/// A token count held in 32 bits.
pub open spec fn capped(n: nat) -> u32 {
    if n > u32::MAX {
        u32::MAX
    } else {
        n as u32
    }
}

/// How many tokens a list of segments takes.
pub open spec fn token_sum(segments: Seq<Segment>) -> nat
    decreases segments.len(),
{
    if segments.len() == 0 {
        0
    } else {
        token_sum(segments.drop_last()) + segments.last().est_tokens as nat
    }
}

/// How many segments lead the prompt before the first that is not steady.
pub open spec fn leading_run(segments: Seq<Segment>, previous: Map<u32, ContentHash>) -> nat
    decreases segments.len(),
{
    if segments.len() == 0 || !steady(segments[0], previous) {
        0
    } else {
        1 + leading_run(segments.drop_first(), previous)
    }
}

/// Tokens covered by the prompt up to and including each segment, by segment id.
pub open spec fn covers(segments: Seq<Segment>) -> Map<u32, u32>
    decreases segments.len(),
{
    if segments.len() == 0 {
        Map::empty()
    } else {
        covers(segments.drop_last()).insert(segments.last().id.0, capped(token_sum(segments)))
    }
}

/// Which part of the prompt each segment id belongs to.
pub open spec fn kinds(segments: Seq<Segment>) -> Map<u32, SegmentKind>
    decreases segments.len(),
{
    if segments.len() == 0 {
        Map::empty()
    } else {
        kinds(segments.drop_last()).insert(segments.last().id.0, segments.last().kind)
    }
}

/// Whether segment `i` is the last of a run of steady segments.
pub open spec fn ends_run(
    segments: Seq<Segment>,
    previous: Map<u32, ContentHash>,
    i: int,
) -> bool {
    steady(segments[i], previous) && !(i + 1 < segments.len() && steady(segments[i + 1], previous))
}

/// The ids of the segments among the first `n` that end a steady run, in prompt order.
pub open spec fn run_ends(
    segments: Seq<Segment>,
    previous: Map<u32, ContentHash>,
    n: nat,
) -> Seq<u32>
    decreases n,
{
    if n == 0 {
        Seq::empty()
    } else {
        let rest = run_ends(segments, previous, (n - 1) as nat);
        if ends_run(segments, previous, n - 1) {
            rest.push(segments[n - 1].id.0)
        } else {
            rest
        }
    }
}

/// Those of `ids` whose prefix is at least `min` tokens long.
pub open spec fn long_enough(ids: Seq<u32>, segments: Seq<Segment>, min: u32) -> Seq<u32>
    decreases ids.len(),
{
    if ids.len() == 0 {
        Seq::empty()
    } else {
        let rest = long_enough(ids.drop_last(), segments, min);
        if covers(segments)[ids.last()] >= min {
            rest.push(ids.last())
        } else {
            rest
        }
    }
}

/// A candidate breakpoint with the tokens that it covers.
#[derive(Debug, Clone, Copy, PartialEq, Eq, Structural)]
pub struct Candidate {
    /// Tokens up to and including the segment.
    pub covered: u32,
    /// Which segment.
    pub id: u32,
}

impl Ranked for Candidate {
    open spec fn before(&self, other: &Self) -> bool {
        self.covered > other.covered
    }

    proof fn order_laws(a: Self, b: Self, c: Self) {
    }

    fn is_before(&self, other: &Self) -> (r: bool) {
        self.covered > other.covered
    }
}

impl Ranked for u32 {
    open spec fn before(&self, other: &Self) -> bool {
        *self < *other
    }

    proof fn order_laws(a: Self, b: Self, c: Self) {
    }

    fn is_before(&self, other: &Self) -> (r: bool) {
        *self < *other
    }
}

/// The candidates for a list of segment ids.
pub open spec fn candidates(ids: Seq<u32>, segments: Seq<Segment>) -> Seq<Candidate> {
    Seq::new(ids.len(), |i: int| Candidate { covered: covers(segments)[ids[i]], id: ids[i] })
}

/// The segment ids of a list of candidates.
pub open spec fn candidate_ids(c: Seq<Candidate>) -> Seq<u32> {
    Seq::new(c.len(), |i: int| c[i].id)
}

/// The `budget` ids that cover the most tokens, the earlier of two that cover as many, in order of
/// their ids.
pub open spec fn pruned(ids: Seq<u32>, segments: Seq<Segment>, budget: u8) -> Seq<u32> {
    sorted(candidate_ids(sorted(candidates(ids, segments)).take(budget as int)))
}

/// Whether a breakpoint at this segment outlives a session.
pub open spec fn earns_long(segments: Seq<Segment>, id: u32) -> bool {
    kinds(segments).contains_key(id) && (kinds(segments)[id] == SegmentKind::Tools
        || kinds(segments)[id] == SegmentKind::System)
}

/// Marks at `ids`. The leading run of tool and system marks lives long, where that is on offer.
pub open spec fn marks_at(ids: Seq<u32>, segments: Seq<Segment>, long: bool) -> Seq<CacheMark> {
    Seq::new(
        ids.len(),
        |i: int|
            CacheMark {
                at: SegmentId(ids[i]),
                ttl: if long && forall|j: int| 0 <= j <= i ==> earns_long(segments, #[trigger] ids[j]) {
                    CacheTtl::Long
                } else {
                    CacheTtl::Short
                },
            },
    )
}

/// The warning for a provider or a prompt that cannot be cached.
pub open spec fn uncached(fallback: Seq<char>) -> WarningView {
    WarningView::Degraded { capability: "prompt-cache"@, fallback }
}

/// The warning for more breakpoints than the model allows.
pub open spec fn over_budget(wanted: nat, budget: u8) -> WarningView {
    WarningView::Degraded {
        capability: "cache-breakpoints"@,
        fallback: "wanted "@ + dec(wanted) + " breakpoints, this model allows "@ + dec(
            budget as nat,
        ) + "; kept the "@ + dec(budget as nat) + " covering the most tokens"@,
    }
}

/// The plan for a provider that takes no breakpoints.
pub open spec fn plan_without_breakpoints(
    segments: Seq<Segment>,
    previous: Map<u32, ContentHash>,
    cache: CacheSupport,
) -> CachePlanView {
    let churn = churn_warnings(segments, previous);
    let leading = capped(token_sum(segments.take(leading_run(segments, previous) as int)));
    let min = cache.min_prefix()->0;
    let warnings = if segments.len() == 0 {
        churn
    } else if leading == 0 {
        churn.push(uncached("no segment was stable enough to cache behind"@))
    } else if leading < min {
        churn.push(WarningView::BelowMinPrefix { have: leading, need: min })
    } else {
        churn
    };
    no_marks(warnings, cache is Automatic)
}

/// The plan for a provider that takes breakpoints.
pub open spec fn plan_with_breakpoints(
    segments: Seq<Segment>,
    previous: Map<u32, ContentHash>,
    cache: CacheSupport,
) -> CachePlanView {
    let churn = churn_warnings(segments, previous);
    let min = cache.min_prefix()->0;
    let ends = run_ends(segments, previous, segments.len());
    let usable = long_enough(ends, segments, min);
    if ends.len() == 0 {
        no_marks(
            if segments.len() == 0 {
                churn
            } else {
                churn.push(uncached("no segment was stable enough to cache behind"@))
            },
            cache is Automatic,
        )
    } else if usable.len() == 0 {
        no_marks(
            churn.push(WarningView::BelowMinPrefix { have: covers(segments)[ends.last()], need: min }),
            cache is Automatic,
        )
    } else {
        let over = usable.len() > cache.budget();
        let kept = if over {
            pruned(usable, segments, cache.budget())
        } else {
            usable
        };
        CachePlanView {
            marks: marks_at(kept, segments, cache.offers(CacheTtl::Long)),
            warnings: if over {
                churn.push(over_budget(usable.len(), cache.budget()))
            } else {
                churn
            },
            cached_prefix_tokens: covers(segments)[kept.last()],
            provider_caches_automatically: cache is Automatic,
        }
    }
}

/// The plan: where the breakpoints go, and what to warn about.
pub open spec fn plan_of(
    segments: Seq<Segment>,
    previous: Map<u32, ContentHash>,
    cache: CacheSupport,
) -> CachePlanView {
    if cache is Absent {
        no_marks(
            if segments.len() == 0 {
                Seq::empty()
            } else {
                seq![
                    uncached("this provider does not cache prompts; every turn pays full price"@),
                ]
            },
            false,
        )
    } else if cache.budget() == 0 {
        plan_without_breakpoints(segments, previous, cache)
    } else {
        plan_with_breakpoints(segments, previous, cache)
    }
}

fn churn_advice(kind: SegmentKind) -> (r: String)
    ensures
        r@ == advice_for(kind),
{
    match kind {
        SegmentKind::Tools =>
            "the tool block changed between turns. A toolset that reorders its listing, or a description containing a timestamp or counter, will do this.".to_owned(),
        SegmentKind::System =>
            "the system prompt changed between turns. A clock, a session id, or a token count interpolated into it will do this.".to_owned(),
        SegmentKind::SkillIndex =>
            "the skill index changed between turns. Skills discovered mid-run belong after the breakpoint, not in the index.".to_owned(),
        SegmentKind::History => "this segment was expected to be stable but changed.".to_owned(),
        SegmentKind::Discovered => "this segment was expected to be stable but changed.".to_owned(),
    }
}

fn uncached_warning(fallback: &str) -> (r: Warning)
    ensures
        r.deep_view() == uncached(fallback@),
{
    Warning::Degraded { capability: "prompt-cache".to_owned(), fallback: fallback.to_owned() }
}

fn over_budget_warning(wanted: usize, budget: u8) -> (r: Warning)
    ensures
        r.deep_view() == over_budget(wanted as nat, budget),
{
    let mut fallback = "wanted ".to_owned();
    push_decimal(&mut fallback, wanted as u64);
    fallback.push_str(" breakpoints, this model allows ");
    push_decimal(&mut fallback, budget as u64);
    fallback.push_str("; kept the ");
    push_decimal(&mut fallback, budget as u64);
    fallback.push_str(" covering the most tokens");
    Warning::Degraded { capability: "cache-breakpoints".to_owned(), fallback }
}

/// Report churn, and say of each segment whether a breakpoint may sit behind it.
fn find_churn(segments: &[Segment], previous: &PreviousPrompt) -> (r: (Vec<Warning>, Vec<bool>))
    ensures
        r.0.deep_view() == churn_warnings(segments@, previous@),
        r.1@.len() == segments@.len(),
        forall|i: int| 0 <= i < segments@.len() ==> r.1@[i] == steady(segments@[i], previous@),
{
    let mut warnings: Vec<Warning> = Vec::new();
    let mut flags: Vec<bool> = Vec::new();
    let mut i: usize = 0;
    while i < segments.len()
        invariant
            i <= segments@.len(),
            warnings.deep_view() == churn_warnings(segments@.take(i as int), previous@),
            flags@.len() == i,
            forall|j: int| 0 <= j < i ==> flags@[j] == steady(segments@[j], previous@),
        decreases segments@.len() - i,
    {
        let segment = &segments[i];
        let cacheable = segment.stability.is_cacheable();
        let differs = previous.changed(segment);
        let ghost before = warnings.deep_view();
        if cacheable && differs {
            warnings.push(
                Warning::CacheChurn {
                    segment: segment.label.clone(),
                    tokens: segment.est_tokens,
                    advice: churn_advice(segment.kind),
                },
            );
            assert(warnings.deep_view() == before.push(warnings@.last().deep_view()));
        }
        flags.push(cacheable && !differs);
        proof {
            let next = segments@.take(i + 1);
            assert(next.drop_last() == segments@.take(i as int));
        }
        i = i + 1;
    }
    assert(segments@.take(segments@.len() as int) == segments@);
    (warnings, flags)
}

/// The last steady segment of each steady run.
fn stable_run_ends(segments: &[Segment], flags: &Vec<bool>, Ghost(previous): Ghost<Map<u32, ContentHash>>) -> (r: Vec<u32>)
    requires
        flags@.len() == segments@.len(),
        forall|i: int| 0 <= i < segments@.len() ==> flags@[i] == steady(segments@[i], previous),
    ensures
        r@ == run_ends(segments@, previous, segments@.len()),
{
    let mut ends: Vec<u32> = Vec::new();
    let mut i: usize = 0;
    while i < segments.len()
        invariant
            i <= segments@.len(),
            flags@.len() == segments@.len(),
            forall|j: int| 0 <= j < segments@.len() ==> flags@[j] == steady(segments@[j], previous),
            ends@ == run_ends(segments@, previous, i as nat),
        decreases segments@.len() - i,
    {
        if flags[i] && !(i + 1 < segments.len() && flags[i + 1]) {
            ends.push(segments[i].id.0);
        }
        i = i + 1;
    }
    ends
}

/// Tokens in the leading steady run: the longest prefix an automatic cache could reuse.
fn leading_stable_tokens(segments: &[Segment], flags: &Vec<bool>, Ghost(previous): Ghost<Map<u32, ContentHash>>) -> (r: u32)
    requires
        flags@.len() == segments@.len(),
        forall|i: int| 0 <= i < segments@.len() ==> flags@[i] == steady(segments@[i], previous),
    ensures
        r == capped(token_sum(segments@.take(leading_run(segments@, previous) as int))),
{
    let mut total: u32 = 0;
    let mut i: usize = 0;
    assert(segments@.skip(0) == segments@);
    while i < segments.len() && flags[i]
        invariant
            i <= segments@.len(),
            flags@.len() == segments@.len(),
            forall|j: int| 0 <= j < segments@.len() ==> flags@[j] == steady(segments@[j], previous),
            leading_run(segments@, previous) == i + leading_run(segments@.skip(i as int), previous),
            total == capped(token_sum(segments@.take(i as int))),
        decreases segments@.len() - i,
    {
        proof {
            let next = segments@.take(i + 1);
            assert(next.drop_last() == segments@.take(i as int));
            assert(segments@.skip(i as int).drop_first() == segments@.skip(i + 1));
            assert(segments@.skip(i as int)[0] == segments@[i as int]);
        }
        total = total.saturating_add(segments[i].est_tokens);
        i = i + 1;
    }
    total
}

/// Tokens covered by the prompt up to and including each segment, by segment id.
fn cumulative_tokens(segments: &[Segment]) -> (r: BTreeMap<u32, u32>)
    ensures
        r@ == covers(segments@),
{
    let mut out: BTreeMap<u32, u32> = BTreeMap::new();
    let mut running: u32 = 0;
    let mut i: usize = 0;
    while i < segments.len()
        invariant
            i <= segments@.len(),
            running == capped(token_sum(segments@.take(i as int))),
            out@ == covers(segments@.take(i as int)),
        decreases segments@.len() - i,
    {
        running = running.saturating_add(segments[i].est_tokens);
        out.insert(segments[i].id.0, running);
        proof {
            let next = segments@.take(i + 1);
            assert(next.drop_last() == segments@.take(i as int));
        }
        i = i + 1;
    }
    assert(segments@.take(segments@.len() as int) == segments@);
    out
}

fn kinds_by_id(segments: &[Segment]) -> (r: BTreeMap<u32, SegmentKind>)
    ensures
        r@ == kinds(segments@),
{
    let mut out: BTreeMap<u32, SegmentKind> = BTreeMap::new();
    let mut i: usize = 0;
    while i < segments.len()
        invariant
            i <= segments@.len(),
            out@ == kinds(segments@.take(i as int)),
        decreases segments@.len() - i,
    {
        out.insert(segments[i].id.0, segments[i].kind);
        proof {
            let next = segments@.take(i + 1);
            assert(next.drop_last() == segments@.take(i as int));
        }
        i = i + 1;
    }
    assert(segments@.take(segments@.len() as int) == segments@);
    out
}

proof fn covers_every_segment(segments: Seq<Segment>, i: int)
    requires
        0 <= i < segments.len(),
    ensures
        covers(segments).contains_key(segments[i].id.0),
    decreases segments.len(),
{
    if i < segments.len() - 1 {
        covers_every_segment(segments.drop_last(), i);
    }
}

proof fn run_ends_are_segments(
    segments: Seq<Segment>,
    previous: Map<u32, ContentHash>,
    n: nat,
    k: int,
) -> (i: int)
    requires
        n <= segments.len(),
        0 <= k < run_ends(segments, previous, n).len(),
    ensures
        0 <= i < n,
        segments[i].id.0 == run_ends(segments, previous, n)[k],
        steady(segments[i], previous),
        covers(segments).contains_key(run_ends(segments, previous, n)[k]),
    decreases n,
{
    let rest = run_ends(segments, previous, (n - 1) as nat);
    if k < rest.len() {
        run_ends_are_segments(segments, previous, (n - 1) as nat, k)
    } else {
        covers_every_segment(segments, n - 1);
        n - 1
    }
}

fn covered_by(cumulative: &BTreeMap<u32, u32>, id: u32) -> (r: u32)
    requires
        cumulative@.contains_key(id),
    ensures
        r == cumulative@[id],
{
    match cumulative.get(&id) {
        Some(n) => *n,
        None => 0,
    }
}

proof fn long_enough_selects(ids: Seq<u32>, segments: Seq<Segment>, min: u32, k: int) -> (i: int)
    requires
        0 <= k < long_enough(ids, segments, min).len(),
    ensures
        0 <= i < ids.len(),
        ids[i] == long_enough(ids, segments, min)[k],
        covers(segments)[ids[i]] >= min,
        k <= i,
    decreases ids.len(),
{
    let rest = long_enough(ids.drop_last(), segments, min);
    if k < rest.len() {
        long_enough_selects(ids.drop_last(), segments, min, k)
    } else {
        long_enough_is_shorter(ids.drop_last(), segments, min);
        ids.len() - 1
    }
}

proof fn long_enough_is_shorter(ids: Seq<u32>, segments: Seq<Segment>, min: u32)
    ensures
        long_enough(ids, segments, min).len() <= ids.len(),
    decreases ids.len(),
{
    if ids.len() > 0 {
        long_enough_is_shorter(ids.drop_last(), segments, min);
    }
}

/// Keep the candidates whose prefix reaches the minimum.
fn reaching(ids: &Vec<u32>, cumulative: &BTreeMap<u32, u32>, min: u32, Ghost(segments): Ghost<Seq<Segment>>) -> (r: Vec<u32>)
    requires
        cumulative@ == covers(segments),
        forall|k: int| 0 <= k < ids@.len() ==> cumulative@.contains_key(#[trigger] ids@[k]),
    ensures
        r@ == long_enough(ids@, segments, min),
{
    let mut out: Vec<u32> = Vec::new();
    let mut i: usize = 0;
    while i < ids.len()
        invariant
            i <= ids@.len(),
            cumulative@ == covers(segments),
            forall|k: int| 0 <= k < ids@.len() ==> cumulative@.contains_key(#[trigger] ids@[k]),
            out@ == long_enough(ids@.take(i as int), segments, min),
        decreases ids@.len() - i,
    {
        let id: u32 = ids[i];
        if covered_by(cumulative, id) >= min {
            out.push(id);
        }
        proof {
            let next = ids@.take(i + 1);
            assert(next.drop_last() == ids@.take(i as int));
        }
        i = i + 1;
    }
    assert(ids@.take(ids@.len() as int) == ids@);
    out
}

/// Keep the candidates that cover the most tokens, and restore the order of ids.
fn prune(ids: &Vec<u32>, cumulative: &BTreeMap<u32, u32>, budget: u8, Ghost(segments): Ghost<Seq<Segment>>) -> (r: Vec<u32>)
    requires
        cumulative@ == covers(segments),
        forall|k: int| 0 <= k < ids@.len() ==> cumulative@.contains_key(#[trigger] ids@[k]),
        budget < ids@.len(),
    ensures
        r@ == pruned(ids@, segments, budget),
{
    let mut all: Vec<Candidate> = Vec::new();
    let mut i: usize = 0;
    while i < ids.len()
        invariant
            i <= ids@.len(),
            cumulative@ == covers(segments),
            forall|k: int| 0 <= k < ids@.len() ==> cumulative@.contains_key(#[trigger] ids@[k]),
            all@ == candidates(ids@, segments).take(i as int),
        decreases ids@.len() - i,
    {
        let id: u32 = ids[i];
        all.push(Candidate { covered: covered_by(cumulative, id), id });
        i = i + 1;
    }
    assert(all@ == candidates(ids@, segments));
    let ranked = sort(all);
    proof {
        sorting_orders_and_keeps(candidates(ids@, segments));
    }
    let mut best: Vec<u32> = Vec::new();
    let n: usize = budget as usize;
    let mut j: usize = 0;
    while j < n
        invariant
            j <= n <= ranked@.len(),
            best@ == candidate_ids(ranked@.take(j as int)),
        decreases n - j,
    {
        best.push(ranked[j].id);
        j = j + 1;
    }
    sort(best)
}

/// Marks at `ids`, long-lived for the leading run that earns it.
fn place_marks(ids: &Vec<u32>, kind_of: &BTreeMap<u32, SegmentKind>, long: bool, Ghost(segments): Ghost<Seq<Segment>>) -> (r: Vec<CacheMark>)
    requires
        kind_of@ == kinds(segments),
    ensures
        r@ == marks_at(ids@, segments, long),
{
    let mut marks: Vec<CacheMark> = Vec::new();
    let mut long_still_allowed = long;
    let mut i: usize = 0;
    while i < ids.len()
        invariant
            i <= ids@.len(),
            kind_of@ == kinds(segments),
            long_still_allowed == (long && forall|j: int| 0 <= j < i ==> earns_long(segments, #[trigger] ids@[j])),
            marks@ == marks_at(ids@, segments, long).take(i as int),
        decreases ids@.len() - i,
    {
        let id: u32 = ids[i];
        let earned = match kind_of.get(&id) {
            Some(kind) => *kind == SegmentKind::Tools || *kind == SegmentKind::System,
            None => false,
        };
        assert(earned == earns_long(segments, ids@[i as int]));
        if !earned {
            long_still_allowed = false;
        }
        let ttl = if long_still_allowed {
            CacheTtl::Long
        } else {
            CacheTtl::Short
        };
        marks.push(CacheMark { at: SegmentId(id), ttl });
        proof {
            assert(long_still_allowed == (long && forall|j: int|
                0 <= j <= i ==> earns_long(segments, #[trigger] ids@[j])));
            assert(marks@ == marks_at(ids@, segments, long).take(i + 1));
        }
        i = i + 1;
    }
    assert(marks@ == marks_at(ids@, segments, long));
    marks
}

/// Plans cache breakpoints for one request.
#[derive(Debug, Clone, Copy, Default)]
pub struct CachePlanner;

impl CachePlanner {
    /// Decide where the breakpoints go.
    ///
    /// `segments` are in prompt order. `previous` is last turn's hashes, or
    /// [`PreviousPrompt::none`] on the first turn.
    #[must_use]
    pub fn plan(
        segments: &[Segment],
        previous: &PreviousPrompt,
        caps: &ProviderCapabilities,
    ) -> (r: CachePlan)
        ensures
            r@ == plan_of(segments@, previous@, caps.cache),
    {
        if matches!(caps.cache, CacheSupport::Absent) {
            let mut warnings: Vec<Warning> = Vec::new();
            if segments.len() > 0 {
                warnings.push(
                    uncached_warning(
                        "this provider does not cache prompts; every turn pays full price",
                    ),
                );
            }
            assert(warnings.deep_view() == plan_of(segments@, previous@, caps.cache).warnings);
            return CachePlan {
                marks: Vec::new(),
                warnings,
                cached_prefix_tokens: 0,
                provider_caches_automatically: false,
            };
        }
        let automatic = matches!(caps.cache, CacheSupport::Automatic { .. });
        let budget: u8 = caps.cache.breakpoint_budget();
        let min_prefix: u32 = match caps.cache.min_prefix_tokens() {
            Some(n) => n,
            None => 0,
        };
        let (warnings, flags) = find_churn(segments, previous);
        let mut warnings = warnings;
        let ghost churn = warnings.deep_view();

        if budget == 0 {
            let leading: u32 = leading_stable_tokens(segments, &flags, Ghost(previous@));
            if segments.len() > 0 {
                if leading == 0 {
                    warnings.push(uncached_warning("no segment was stable enough to cache behind"));
                    assert(warnings.deep_view() == churn.push(warnings@.last().deep_view()));
                } else if leading < min_prefix {
                    warnings.push(Warning::BelowMinPrefix { have: leading, need: min_prefix });
                    assert(warnings.deep_view() == churn.push(warnings@.last().deep_view()));
                }
            }
            return CachePlan {
                marks: Vec::new(),
                warnings,
                cached_prefix_tokens: 0,
                provider_caches_automatically: automatic,
            };
        }
        let ends = stable_run_ends(segments, &flags, Ghost(previous@));
        if ends.len() == 0 {
            if segments.len() > 0 {
                warnings.push(uncached_warning("no segment was stable enough to cache behind"));
                assert(warnings.deep_view() == churn.push(warnings@.last().deep_view()));
            }
            return CachePlan {
                marks: Vec::new(),
                warnings,
                cached_prefix_tokens: 0,
                provider_caches_automatically: automatic,
            };
        }
        let cumulative = cumulative_tokens(segments);
        proof {
            assert forall|k: int| 0 <= k < ends@.len() implies cumulative@.contains_key(
                #[trigger] ends@[k],
            ) by {
                let i = run_ends_are_segments(segments@, previous@, segments@.len(), k);
            }
        }
        let usable = reaching(&ends, &cumulative, min_prefix, Ghost(segments@));
        if usable.len() == 0 {
            let best: u32 = covered_by(&cumulative, ends[ends.len() - 1]);
            warnings.push(Warning::BelowMinPrefix { have: best, need: min_prefix });
            assert(warnings.deep_view() == churn.push(warnings@.last().deep_view()));
            return CachePlan {
                marks: Vec::new(),
                warnings,
                cached_prefix_tokens: 0,
                provider_caches_automatically: automatic,
            };
        }
        proof {
            assert forall|k: int| 0 <= k < usable@.len() implies cumulative@.contains_key(
                #[trigger] usable@[k],
            ) by {
                let i = long_enough_selects(ends@, segments@, min_prefix, k);
            }
        }
        let mut kept = usable;
        let wanted: usize = kept.len();
        if wanted > budget as usize {
            warnings.push(over_budget_warning(wanted, budget));
            assert(warnings.deep_view() == churn.push(warnings@.last().deep_view()));
            let best = prune(&kept, &cumulative, budget, Ghost(segments@));
            proof {
                pruned_selects_all(kept@, segments@, budget);
            }
            kept = best;
        }
        let long = caps.cache.supports_ttl(CacheTtl::Long);
        let kind_of = kinds_by_id(segments);
        let marks = place_marks(&kept, &kind_of, long, Ghost(segments@));
        let cached_prefix_tokens: u32 = covered_by(&cumulative, kept[kept.len() - 1]);
        CachePlan { marks, warnings, cached_prefix_tokens, provider_caches_automatically: automatic }
    }
}

proof fn pruned_selects(ids: Seq<u32>, segments: Seq<Segment>, budget: u8, k: int) -> (i: int)
    requires
        budget < ids.len(),
        0 <= k < pruned(ids, segments, budget).len(),
    ensures
        0 <= i < ids.len(),
        ids[i] == pruned(ids, segments, budget)[k],
{
    broadcast use vstd::seq_lib::group_to_multiset_ensures;
    let all = candidates(ids, segments);
    let ranked = sorted(all);
    let best = candidate_ids(ranked.take(budget as int));
    let kept = sorted(best);
    sorting_orders_and_keeps(all);
    sorting_orders_and_keeps(best);
    assert(kept.to_multiset().count(kept[k]) > 0);
    assert(best.contains(kept[k]));
    let j = choose|j: int| 0 <= j < best.len() && best[j] == kept[k];
    assert(ranked.to_multiset().count(ranked[j]) > 0);
    assert(all.contains(ranked[j]));
    let i = choose|i: int| 0 <= i < all.len() && all[i] == ranked[j];
    i
}

proof fn pruned_selects_all(ids: Seq<u32>, segments: Seq<Segment>, budget: u8)
    requires
        budget < ids.len(),
    ensures
        pruned(ids, segments, budget).len() == budget,
        forall|k: int| 0 <= k < pruned(ids, segments, budget).len() ==> ids.contains(
            #[trigger] pruned(ids, segments, budget)[k],
        ),
{
    sorting_orders_and_keeps(candidates(ids, segments));
    sorting_orders_and_keeps(candidate_ids(sorted(candidates(ids, segments)).take(budget as int)));
    assert forall|k: int| 0 <= k < pruned(ids, segments, budget).len() implies ids.contains(
        #[trigger] pruned(ids, segments, budget)[k],
    ) by {
        let i = pruned_selects(ids, segments, budget, k);
    }
}

/// How far back a provider searches from a breakpoint for a previously written cache entry.
pub const LOOKBACK_BLOCKS: u32 = 20;

/// Check whether a turn added more blocks than the provider will look back through.
#[must_use]
pub fn check_lookback(blocks_added_this_turn: u32) -> (r: Option<Warning>)
    ensures
        blocks_added_this_turn <= LOOKBACK_BLOCKS <==> r is None,
        r matches Some(w) ==> w == (Warning::LookbackExceeded {
            blocks: blocks_added_this_turn,
            limit: LOOKBACK_BLOCKS,
        }),
{
    if blocks_added_this_turn <= LOOKBACK_BLOCKS {
        return None;
    }
    Some(Warning::LookbackExceeded { blocks: blocks_added_this_turn, limit: LOOKBACK_BLOCKS })
}

/// Whether segment ids ascend, as they do in prompt order.
pub open spec fn ids_ascend(segments: Seq<Segment>) -> bool {
    forall|i: int, j: int|
        0 <= i < j < segments.len() ==> (#[trigger] segments[i]).id.0 < (#[trigger] segments[j]).id.0
}

/// Whether no two segments share an id.
pub open spec fn ids_distinct(segments: Seq<Segment>) -> bool {
    forall|i: int, j: int|
        0 <= i < segments.len() && 0 <= j < segments.len() && (#[trigger] segments[i]).id.0 == (
        #[trigger] segments[j]).id.0 ==> i == j
}

/// The ids that a plan with breakpoints marks are ends of steady runs whose prefix is long enough.
proof fn marked_ids_are_usable(
    segments: Seq<Segment>,
    previous: Map<u32, ContentHash>,
    cache: CacheSupport,
    k: int,
) -> (i: int)
    requires
        0 <= k < plan_of(segments, previous, cache).marks.len(),
    ensures
        0 <= i < segments.len(),
        segments[i].id == plan_of(segments, previous, cache).marks[k].at,
        steady(segments[i], previous),
        covers(segments)[segments[i].id.0] >= cache.min_prefix()->0,
{
    let min = cache.min_prefix()->0;
    let ends = run_ends(segments, previous, segments.len());
    let usable = long_enough(ends, segments, min);
    let at = plan_of(segments, previous, cache).marks[k].at.0;
    let u = if usable.len() > cache.budget() {
        pruned_selects(usable, segments, cache.budget(), k)
    } else {
        k
    };
    assert(usable[u] == at);
    let e = long_enough_selects(ends, segments, min, u);
    run_ends_are_segments(segments, previous, segments.len(), e)
}

/// A plan never places more breakpoints than the provider allows.
pub proof fn marks_fit_the_budget(
    segments: Seq<Segment>,
    previous: Map<u32, ContentHash>,
    cache: CacheSupport,
)
    ensures
        plan_of(segments, previous, cache).marks.len() <= cache.budget(),
{
    let usable = long_enough(
        run_ends(segments, previous, segments.len()),
        segments,
        cache.min_prefix()->0,
    );
    if usable.len() > cache.budget() {
        pruned_selects_all(usable, segments, cache.budget());
    }
}

/// Every breakpoint names a segment of the prompt that is stable and did not change since last
/// turn. Where ids are distinct, it names no other segment.
pub proof fn marks_sit_on_steady_segments(
    segments: Seq<Segment>,
    previous: Map<u32, ContentHash>,
    cache: CacheSupport,
)
    ensures
        forall|k: int|
            0 <= k < plan_of(segments, previous, cache).marks.len() ==> exists|i: int|
                0 <= i < segments.len() && (#[trigger] segments[i]).id == (
                #[trigger] plan_of(segments, previous, cache).marks[k]).at && steady(
                    segments[i],
                    previous,
                ),
        ids_distinct(segments) ==> forall|k: int, i: int|
            0 <= k < plan_of(segments, previous, cache).marks.len() && 0 <= i < segments.len() && (
            #[trigger] segments[i]).id == (#[trigger] plan_of(segments, previous, cache).marks[k]).at
                ==> steady(segments[i], previous),
{
    let marks = plan_of(segments, previous, cache).marks;
    assert forall|k: int| 0 <= k < marks.len() implies exists|i: int|
        0 <= i < segments.len() && (#[trigger] segments[i]).id == (#[trigger] marks[k]).at && steady(
            segments[i],
            previous,
        ) by {
        let i = marked_ids_are_usable(segments, previous, cache, k);
        assert(segments[i].id == marks[k].at);
    }
    if ids_distinct(segments) {
        assert forall|k: int, i: int|
            0 <= k < marks.len() && 0 <= i < segments.len() && (#[trigger] segments[i]).id == (
            #[trigger] marks[k]).at implies steady(segments[i], previous) by {
            let j = marked_ids_are_usable(segments, previous, cache, k);
            assert(segments[j].id.0 == segments[i].id.0);
        }
    }
}

proof fn run_ends_ascend(segments: Seq<Segment>, previous: Map<u32, ContentHash>, n: nat)
    requires
        n <= segments.len(),
        ids_ascend(segments),
    ensures
        forall|a: int, b: int|
            0 <= a < b < run_ends(segments, previous, n).len() ==> (#[trigger] run_ends(
                segments,
                previous,
                n,
            )[a]) < (#[trigger] run_ends(segments, previous, n)[b]),
    decreases n,
{
    if n > 0 {
        let rest = run_ends(segments, previous, (n - 1) as nat);
        run_ends_ascend(segments, previous, (n - 1) as nat);
        let all = run_ends(segments, previous, n);
        assert forall|a: int, b: int| 0 <= a < b < all.len() implies (#[trigger] all[a]) < (
        #[trigger] all[b]) by {
            if b == rest.len() {
                let i = run_ends_are_segments(segments, previous, (n - 1) as nat, a);
                assert(segments[i].id.0 < segments[n - 1].id.0);
                assert(all[a] == rest[a]);
            } else {
                assert(all[a] == rest[a] && all[b] == rest[b]);
            }
        }
    }
}

proof fn long_enough_ascends(ids: Seq<u32>, segments: Seq<Segment>, min: u32)
    requires
        forall|a: int, b: int| 0 <= a < b < ids.len() ==> (#[trigger] ids[a]) < (#[trigger] ids[b]),
    ensures
        forall|a: int, b: int|
            0 <= a < b < long_enough(ids, segments, min).len() ==> (#[trigger] long_enough(
                ids,
                segments,
                min,
            )[a]) < (#[trigger] long_enough(ids, segments, min)[b]),
    decreases ids.len(),
{
    if ids.len() > 0 {
        let d = ids.drop_last();
        assert forall|a: int, b: int| 0 <= a < b < d.len() implies (#[trigger] d[a]) < (
        #[trigger] d[b]) by {
            assert(ids[a] < ids[b]);
        }
        long_enough_ascends(d, segments, min);
        let rest = long_enough(d, segments, min);
        let all = long_enough(ids, segments, min);
        assert forall|a: int, b: int| 0 <= a < b < all.len() implies (#[trigger] all[a]) < (
        #[trigger] all[b]) by {
            if b == rest.len() {
                let i = long_enough_selects(d, segments, min, a);
                assert(ids[i] < ids[ids.len() - 1]);
            } else {
                assert(all[a] == rest[a] && all[b] == rest[b]);
            }
        }
    }
}

/// No two candidates for one id are left after ranking distinct ids.
proof fn ranked_ids_are_distinct(ids: Seq<u32>, segments: Seq<Segment>, a: int, b: int)
    requires
        forall|x: int, y: int| 0 <= x < y < ids.len() ==> (#[trigger] ids[x]) < (#[trigger] ids[y]),
        0 <= a < b < ids.len(),
    ensures
        sorted(candidates(ids, segments)).len() == ids.len(),
        sorted(candidates(ids, segments))[a].id != sorted(candidates(ids, segments))[b].id,
{
    let all = candidates(ids, segments);
    let ranked = sorted(all);
    sorting_orders_and_keeps(all);
    assert(all.no_duplicates()) by {
        assert forall|x: int, y: int| 0 <= x < all.len() && 0 <= y < all.len() && x != y implies all[x]
            != all[y] by {
            if x < y {
                assert(ids[x] < ids[y]);
            } else {
                assert(ids[y] < ids[x]);
            }
        }
    }
    all.lemma_multiset_has_no_duplicates();
    ranked.lemma_multiset_has_no_duplicates_conv();
    if ranked[a].id == ranked[b].id {
        broadcast use vstd::seq_lib::group_to_multiset_ensures;
        assert(all.to_multiset().count(ranked[a]) > 0);
        assert(all.to_multiset().count(ranked[b]) > 0);
        let x = choose|x: int| 0 <= x < all.len() && all[x] == ranked[a];
        let y = choose|y: int| 0 <= y < all.len() && all[y] == ranked[b];
        assert(ids[x] == ids[y]);
        if x < y {
            assert(ids[x] < ids[y]);
        } else if y < x {
            assert(ids[y] < ids[x]);
        }
        assert(ranked[a] == ranked[b]);
    }
}

proof fn pruned_ascends(ids: Seq<u32>, segments: Seq<Segment>, budget: u8)
    requires
        budget < ids.len(),
        forall|a: int, b: int| 0 <= a < b < ids.len() ==> (#[trigger] ids[a]) < (#[trigger] ids[b]),
    ensures
        forall|a: int, b: int|
            0 <= a < b < pruned(ids, segments, budget).len() ==> (#[trigger] pruned(
                ids,
                segments,
                budget,
            )[a]) < (#[trigger] pruned(ids, segments, budget)[b]),
{
    let all = candidates(ids, segments);
    let ranked = sorted(all);
    let best = candidate_ids(ranked.take(budget as int));
    let kept = sorted(best);
    sorting_orders_and_keeps(all);
    sorting_orders_and_keeps(best);
    assert(best.no_duplicates()) by {
        assert forall|a: int, b: int|
            0 <= a < best.len() && 0 <= b < best.len() && a != b implies best[a] != best[b] by {
            if a < b {
                ranked_ids_are_distinct(ids, segments, a, b);
            } else {
                ranked_ids_are_distinct(ids, segments, b, a);
            }
        }
    }
    best.lemma_multiset_has_no_duplicates();
    kept.lemma_multiset_has_no_duplicates_conv();
    assert forall|a: int, b: int| 0 <= a < b < kept.len() implies (#[trigger] kept[a]) < (
    #[trigger] kept[b]) by {
        assert(!kept[b].before(&kept[a]));
        assert(kept[a] != kept[b]);
    }
}

/// Where the segment ids ascend, so do the marks: an out-of-order mark means nothing to any
/// provider.
pub proof fn marks_ascend(
    segments: Seq<Segment>,
    previous: Map<u32, ContentHash>,
    cache: CacheSupport,
)
    requires
        ids_ascend(segments),
    ensures
        forall|a: int, b: int|
            0 <= a < b < plan_of(segments, previous, cache).marks.len() ==> (#[trigger] plan_of(
                segments,
                previous,
                cache,
            ).marks[a]).at.0 < (#[trigger] plan_of(segments, previous, cache).marks[b]).at.0,
{
    let ends = run_ends(segments, previous, segments.len());
    let usable = long_enough(ends, segments, cache.min_prefix()->0);
    run_ends_ascend(segments, previous, segments.len());
    long_enough_ascends(ends, segments, cache.min_prefix()->0);
    if usable.len() > cache.budget() {
        pruned_ascends(usable, segments, cache.budget());
    }
    let kept = if usable.len() > cache.budget() {
        pruned(usable, segments, cache.budget())
    } else {
        usable
    };
    let marks = plan_of(segments, previous, cache).marks;
    assert forall|a: int, b: int| 0 <= a < b < marks.len() implies (#[trigger] marks[a]).at.0 < (
    #[trigger] marks[b]).at.0 by {
        assert(kept[a] < kept[b]);
    }
}

/// Long-lived marks precede short-lived ones, and a plan asks for no lifetime that the provider
/// does not offer beside the short one.
pub proof fn lifetimes_are_ordered_and_offered(
    segments: Seq<Segment>,
    previous: Map<u32, ContentHash>,
    cache: CacheSupport,
)
    ensures
        ttls_ordered(plan_of(segments, previous, cache).marks),
        !cache.offers(CacheTtl::Long) ==> forall|k: int|
            0 <= k < plan_of(segments, previous, cache).marks.len() ==> (#[trigger] plan_of(
                segments,
                previous,
                cache,
            ).marks[k]).ttl == CacheTtl::Short,
{
}

proof fn covers_tell_the_last(segments: Seq<Segment>, id: u32) -> (i: int)
    requires
        covers(segments).contains_key(id),
    ensures
        0 <= i < segments.len(),
        segments[i].id.0 == id,
        covers(segments)[id] == capped(token_sum(segments.take(i + 1))),
    decreases segments.len(),
{
    let d = segments.drop_last();
    if segments.last().id.0 == id {
        assert(segments.take(segments.len() as int) == segments);
        segments.len() - 1
    } else {
        let i = covers_tell_the_last(d, id);
        assert(d.take(i + 1) == segments.take(i + 1));
        i
    }
}

proof fn covers_hold_each_segment(segments: Seq<Segment>, i: int)
    requires
        0 <= i < segments.len(),
    ensures
        covers(segments).contains_key(segments[i].id.0),
    decreases segments.len(),
{
    if i < segments.len() - 1 {
        covers_hold_each_segment(segments.drop_last(), i);
    }
}

/// Where a plan places breakpoints, the tokens up to the segment of each reach the model's minimum,
/// and so does the prefix that the plan says is cached.
pub proof fn the_cached_prefix_reaches_the_minimum(
    segments: Seq<Segment>,
    previous: Map<u32, ContentHash>,
    cache: CacheSupport,
)
    requires
        plan_of(segments, previous, cache).marks.len() > 0,
    ensures
        cache.min_prefix() is Some,
        plan_of(segments, previous, cache).cached_prefix_tokens >= cache.min_prefix()->0,
        forall|k: int|
            0 <= k < plan_of(segments, previous, cache).marks.len() ==> exists|i: int|
                0 <= i < segments.len() && (#[trigger] segments[i]).id == (
                #[trigger] plan_of(segments, previous, cache).marks[k]).at && token_sum(
                    segments.take(i + 1),
                ) >= cache.min_prefix()->0,
        ids_distinct(segments) ==> forall|k: int, i: int|
            0 <= k < plan_of(segments, previous, cache).marks.len() && 0 <= i < segments.len() && (
            #[trigger] segments[i]).id == (#[trigger] plan_of(segments, previous, cache).marks[k]).at
                ==> token_sum(segments.take(i + 1)) >= cache.min_prefix()->0,
{
    let marks = plan_of(segments, previous, cache).marks;
    let least = cache.min_prefix()->0;
    let last = marked_ids_are_usable(segments, previous, cache, marks.len() - 1);
    assert forall|k: int| 0 <= k < marks.len() implies exists|i: int|
        0 <= i < segments.len() && (#[trigger] segments[i]).id == (#[trigger] marks[k]).at
            && token_sum(segments.take(i + 1)) >= least by {
        let j = marked_ids_are_usable(segments, previous, cache, k);
        covers_hold_each_segment(segments, j);
        let i = covers_tell_the_last(segments, segments[j].id.0);
        assert(segments[i].id == marks[k].at);
    }
    if ids_distinct(segments) {
        assert forall|k: int, i: int|
            0 <= k < marks.len() && 0 <= i < segments.len() && (#[trigger] segments[i]).id == (
            #[trigger] marks[k]).at implies token_sum(segments.take(i + 1)) >= least by {
            let j = marked_ids_are_usable(segments, previous, cache, k);
            covers_hold_each_segment(segments, j);
            let n = covers_tell_the_last(segments, segments[j].id.0);
            assert(segments[n].id.0 == segments[i].id.0);
        }
    }
}

/// A provider that cannot cache is never sent a breakpoint, and neither is one that takes none.
pub proof fn no_breakpoint_without_a_budget(
    segments: Seq<Segment>,
    previous: Map<u32, ContentHash>,
    cache: CacheSupport,
)
    requires
        cache is Absent || cache.budget() == 0,
    ensures
        plan_of(segments, previous, cache).marks.len() == 0,
{
}

/// A prompt that nobody caches is never passed over in silence. An explicit cache that takes no
/// breakpoints at all is left out: a stable prompt gets neither a mark nor a warning there.
pub proof fn caching_nothing_is_explained(
    segments: Seq<Segment>,
    previous: Map<u32, ContentHash>,
    cache: CacheSupport,
)
    requires
        segments.len() > 0,
        cache is Explicit ==> cache.budget() > 0,
        plan_of(segments, previous, cache).marks.len() == 0,
        !plan_of(segments, previous, cache).provider_caches_automatically,
    ensures
        plan_of(segments, previous, cache).warnings.len() > 0,
{
    let usable = long_enough(
        run_ends(segments, previous, segments.len()),
        segments,
        cache.min_prefix()->0,
    );
    if usable.len() > cache.budget() {
        pruned_selects_all(usable, segments, cache.budget());
    }
}

proof fn hashes_hold_each_segment(segments: Seq<Segment>, i: int)
    requires
        ids_distinct(segments),
        0 <= i < segments.len(),
    ensures
        hashes_of(segments).contains_key(segments[i].id.0),
        hashes_of(segments)[segments[i].id.0] == segments[i].hash,
    decreases segments.len(),
{
    if i < segments.len() - 1 {
        let d = segments.drop_last();
        assert forall|a: int, b: int|
            0 <= a < d.len() && 0 <= b < d.len() && (#[trigger] d[a]).id.0 == (#[trigger] d[b]).id.0 implies a
            == b by {
            assert(segments[a].id.0 == segments[b].id.0);
        }
        hashes_hold_each_segment(d, i);
        assert(segments[i].id.0 != segments[segments.len() - 1].id.0);
    }
}

proof fn no_churn_no_warnings(segments: Seq<Segment>, previous: Map<u32, ContentHash>)
    requires
        forall|i: int| 0 <= i < segments.len() ==> !changed(#[trigger] segments[i], previous),
    ensures
        churn_warnings(segments, previous).len() == 0,
    decreases segments.len(),
{
    if segments.len() > 0 {
        let d = segments.drop_last();
        assert forall|i: int| 0 <= i < d.len() implies !changed(#[trigger] d[i], previous) by {
            assert(d[i] == segments[i]);
        }
        no_churn_no_warnings(d, previous);
        assert(!changed(segments[segments.len() - 1], previous));
    }
}

/// A prompt that is the same as last turn's, or that grew by new segments, churns nothing.
pub proof fn an_unchanged_prompt_does_not_churn(last_turn: Seq<Segment>, added: Seq<Segment>)
    requires
        ids_distinct(last_turn + added),
    ensures
        churn_warnings(last_turn + added, hashes_of(last_turn)).len() == 0,
        churn_warnings(last_turn + added, Map::empty()).len() == 0,
{
    let now = last_turn + added;
    assert(ids_distinct(last_turn)) by {
        assert forall|a: int, b: int|
            0 <= a < last_turn.len() && 0 <= b < last_turn.len() && (#[trigger] last_turn[a]).id.0 == (
            #[trigger] last_turn[b]).id.0 implies a == b by {
            assert(now[a].id.0 == now[b].id.0);
        }
    }
    let previous = hashes_of(last_turn);
    assert forall|i: int| 0 <= i < now.len() implies !changed(#[trigger] now[i], previous) by {
        if i < last_turn.len() {
            hashes_hold_each_segment(last_turn, i);
        } else if previous.contains_key(now[i].id.0) {
            let j = hashes_come_from_segments(last_turn, now[i].id.0);
            assert(now[j].id.0 == now[i].id.0);
        }
    }
    no_churn_no_warnings(now, previous);
    no_churn_no_warnings(now, Map::empty());
}

proof fn hashes_come_from_segments(segments: Seq<Segment>, id: u32) -> (i: int)
    requires
        hashes_of(segments).contains_key(id),
    ensures
        0 <= i < segments.len(),
        segments[i].id.0 == id,
    decreases segments.len(),
{
    if segments.last().id.0 == id {
        segments.len() - 1
    } else {
        hashes_come_from_segments(segments.drop_last(), id)
    }
}

/// Pruning to a budget keeps the candidates that cover the most tokens: none that was dropped
/// covers more than one that was kept.
pub proof fn pruning_keeps_the_most_tokens(
    ids: Seq<u32>,
    segments: Seq<Segment>,
    budget: u8,
    kept: int,
    other: int,
)
    requires
        budget < ids.len(),
        0 <= kept < pruned(ids, segments, budget).len(),
        0 <= other < ids.len(),
        !pruned(ids, segments, budget).contains(ids[other]),
    ensures
        covers(segments)[ids[other]] <= covers(segments)[pruned(ids, segments, budget)[kept]],
{
    broadcast use vstd::seq_lib::group_to_multiset_ensures;
    let all = candidates(ids, segments);
    let ranked = sorted(all);
    let best = candidate_ids(ranked.take(budget as int));
    let chosen = sorted(best);
    sorting_orders_and_keeps(all);
    sorting_orders_and_keeps(best);
    assert(chosen.to_multiset().count(chosen[kept]) > 0);
    assert(best.contains(chosen[kept]));
    let a = choose|a: int| 0 <= a < best.len() && best[a] == chosen[kept];
    assert(ranked.to_multiset().count(all[other]) > 0);
    assert(ranked.contains(all[other]));
    let b = choose|b: int| 0 <= b < ranked.len() && ranked[b] == all[other];
    if b < budget {
        assert(best[b] == ids[other]);
        assert(best.to_multiset().count(ids[other]) > 0);
        assert(chosen.contains(ids[other]));
    }
    assert(!ranked[b].before(&ranked[a]));
    assert(ranked.to_multiset().count(ranked[a]) > 0);
    assert(all.contains(ranked[a]));
    let x = choose|x: int| 0 <= x < all.len() && all[x] == ranked[a];
    assert(ranked[a].covered == covers(segments)[ranked[a].id]);
}

/// Whether a segment is meant to stay as it is, and is not known to have changed since last turn.
pub open spec fn stays(segment: Segment, previous: Map<u32, ContentHash>) -> bool {
    &&& segment.stability == Stability::Static || segment.stability == Stability::Slow
    &&& previous.contains_key(segment.id.0) ==> previous[segment.id.0]@ == segment.hash@
}

/// Whether the segment at `i` stays and the one behind it, where there is one, does not.
pub open spec fn last_to_stay(segments: Seq<Segment>, previous: Map<u32, ContentHash>, i: int) -> bool {
    &&& 0 <= i < segments.len()
    &&& stays(segments[i], previous)
    &&& i + 1 == segments.len() || !stays(segments[i + 1], previous)
}

/// Tokens add up: a prompt of nothing takes none, and each further segment adds its own.
pub proof fn tokens_add_up(segments: Seq<Segment>, more: Segment)
    ensures
        token_sum(Seq::empty()) == 0,
        token_sum(segments.push(more)) == token_sum(segments) + more.est_tokens,
{
    assert(segments.push(more).drop_last() == segments);
}

proof fn run_ends_hold(segments: Seq<Segment>, previous: Map<u32, ContentHash>, n: nat, i: int)
    requires
        n <= segments.len(),
        0 <= i < n,
        ends_run(segments, previous, i),
    ensures
        run_ends(segments, previous, n).contains(segments[i].id.0),
    decreases n,
{
    let all = run_ends(segments, previous, n);
    let rest = run_ends(segments, previous, (n - 1) as nat);
    if i == n - 1 {
        assert(all[rest.len() as int] == segments[i].id.0);
    } else {
        run_ends_hold(segments, previous, (n - 1) as nat, i);
        let k = choose|k: int| 0 <= k < rest.len() && rest[k] == segments[i].id.0;
        assert(all[k] == segments[i].id.0);
    }
}

proof fn run_ends_end_runs(segments: Seq<Segment>, previous: Map<u32, ContentHash>, n: nat, k: int) -> (i: int)
    requires
        n <= segments.len(),
        0 <= k < run_ends(segments, previous, n).len(),
    ensures
        0 <= i < n,
        segments[i].id.0 == run_ends(segments, previous, n)[k],
        ends_run(segments, previous, i),
    decreases n,
{
    let rest = run_ends(segments, previous, (n - 1) as nat);
    if k < rest.len() {
        run_ends_end_runs(segments, previous, (n - 1) as nat, k)
    } else {
        n - 1
    }
}

proof fn long_enough_holds(ids: Seq<u32>, segments: Seq<Segment>, min: u32, k: int)
    requires
        0 <= k < ids.len(),
        covers(segments)[ids[k]] >= min,
    ensures
        long_enough(ids, segments, min).contains(ids[k]),
    decreases ids.len(),
{
    let all = long_enough(ids, segments, min);
    let rest = long_enough(ids.drop_last(), segments, min);
    if k == ids.len() - 1 {
        assert(all[rest.len() as int] == ids[k]);
    } else {
        long_enough_holds(ids.drop_last(), segments, min, k);
        let m = choose|m: int| 0 <= m < rest.len() && rest[m] == ids[k];
        assert(all[m] == ids[k]);
    }
}

proof fn cover_of(segments: Seq<Segment>, i: int)
    requires
        ids_distinct(segments),
        0 <= i < segments.len(),
    ensures
        covers(segments)[segments[i].id.0] == capped(token_sum(segments.take(i + 1))),
{
    covers_hold_each_segment(segments, i);
    let n = covers_tell_the_last(segments, segments[i].id.0);
    assert(segments[n].id.0 == segments[i].id.0);
}

proof fn prefix_takes_less(segments: Seq<Segment>, n: int)
    requires
        0 <= n <= segments.len(),
    ensures
        token_sum(segments.take(n)) <= token_sum(segments),
    decreases segments.len(),
{
    if n < segments.len() {
        prefix_takes_less(segments.drop_last(), n);
        assert(segments.drop_last().take(n) == segments.take(n));
    } else {
        assert(segments.take(n) == segments);
    }
}

/// No caching is left on the table. Where a provider takes breakpoints, every segment that stays,
/// is followed by one that does not or by nothing, and whose prefix is long enough to be cached,
/// carries a mark. It may go without one only where every breakpoint there is covers at least as many
/// tokens and no further one is allowed, and then a warning says so.
pub proof fn every_stable_run_is_marked(
    segments: Seq<Segment>,
    previous: Map<u32, ContentHash>,
    cache: CacheSupport,
    i: int,
)
    requires
        ids_distinct(segments),
        token_sum(segments) <= u32::MAX,
        cache matches CacheSupport::Explicit { max_breakpoints, .. } ==> max_breakpoints > 0,
        cache matches CacheSupport::Automatic { explicit_available, .. } ==> explicit_available,
        !(cache is Absent),
        last_to_stay(segments, previous, i),
        cache matches CacheSupport::Explicit { min_prefix_tokens, .. } ==> token_sum(
            segments.take(i + 1),
        ) >= min_prefix_tokens,
        cache matches CacheSupport::Automatic { min_prefix_tokens, .. } ==> token_sum(
            segments.take(i + 1),
        ) >= min_prefix_tokens,
    ensures
        ({
            let plan = plan_of(segments, previous, cache);
            let allowed: int = match cache {
                CacheSupport::Explicit { max_breakpoints, .. } => max_breakpoints as int,
                _ => 1,
            };
            ||| exists|k: int| 0 <= k < plan.marks.len() && (#[trigger] plan.marks[k]).at == segments[i].id
            ||| {
                &&& plan.marks.len() == allowed
                &&& forall|k: int, j: int|
                    0 <= k < plan.marks.len() && 0 <= j < segments.len() && (
                    #[trigger] segments[j]).id == (#[trigger] plan.marks[k]).at ==> token_sum(
                        segments.take(j + 1),
                    ) >= token_sum(segments.take(i + 1))
                &&& exists|w: int|
                    0 <= w < plan.warnings.len() && (#[trigger] plan.warnings[w] matches WarningView::Degraded {
                        capability,
                        ..
                    } && capability == "cache-breakpoints"@)
            }
        }),
{
    let plan = plan_of(segments, previous, cache);
    let min = cache.min_prefix()->0;
    let n = segments.len();
    let id = segments[i].id.0;
    let ends = run_ends(segments, previous, n);
    let usable = long_enough(ends, segments, min);
    assert(ends_run(segments, previous, i));
    run_ends_hold(segments, previous, n, i);
    let e = choose|e: int| 0 <= e < ends.len() && ends[e] == id;
    cover_of(segments, i);
    prefix_takes_less(segments, i + 1);
    long_enough_holds(ends, segments, min, e);
    let u = choose|u: int| 0 <= u < usable.len() && usable[u] == id;
    if usable.len() > cache.budget() {
        let kept = pruned(usable, segments, cache.budget());
        pruned_selects_all(usable, segments, cache.budget());
        if kept.contains(id) {
            let k = choose|k: int| 0 <= k < kept.len() && kept[k] == id;
            assert(plan.marks[k].at == segments[i].id);
        } else {
            assert forall|k: int, j: int|
                0 <= k < plan.marks.len() && 0 <= j < segments.len() && (#[trigger] segments[j]).id == (
                #[trigger] plan.marks[k]).at implies token_sum(segments.take(j + 1)) >= token_sum(
                segments.take(i + 1),
            ) by {
                assert(kept[k] == segments[j].id.0);
                pruning_keeps_the_most_tokens(usable, segments, cache.budget(), k, u);
                cover_of(segments, j);
                prefix_takes_less(segments, j + 1);
            }
            let w = plan.warnings.len() - 1;
            assert(plan.warnings[w] == over_budget(usable.len(), cache.budget()));
        }
    } else {
        assert(plan.marks[u].at == segments[i].id);
    }
}

/// Breakpoints go nowhere else: the segment of each stays, and the one behind it does not.
pub proof fn marks_end_stable_runs(
    segments: Seq<Segment>,
    previous: Map<u32, ContentHash>,
    cache: CacheSupport,
    k: int,
    i: int,
)
    requires
        ids_distinct(segments),
        0 <= k < plan_of(segments, previous, cache).marks.len(),
        0 <= i < segments.len(),
        segments[i].id == plan_of(segments, previous, cache).marks[k].at,
    ensures
        last_to_stay(segments, previous, i),
{
    let min = cache.min_prefix()->0;
    let ends = run_ends(segments, previous, segments.len());
    let usable = long_enough(ends, segments, min);
    let at = plan_of(segments, previous, cache).marks[k].at.0;
    let u = if usable.len() > cache.budget() {
        pruned_selects(usable, segments, cache.budget(), k)
    } else {
        k
    };
    assert(usable[u] == at);
    let e = long_enough_selects(ends, segments, min, u);
    let j = run_ends_end_runs(segments, previous, segments.len(), e);
    assert(segments[j].id.0 == segments[i].id.0);
}

/// The prefix that a plan says is cached is what stands up to its last mark, and nothing where it
/// has none. A provider that caches by itself is said to.
pub proof fn the_cached_prefix_is_told(
    segments: Seq<Segment>,
    previous: Map<u32, ContentHash>,
    cache: CacheSupport,
)
    requires
        ids_distinct(segments),
        token_sum(segments) <= u32::MAX,
    ensures
        ({
            let plan = plan_of(segments, previous, cache);
            &&& plan.marks.len() == 0 ==> plan.cached_prefix_tokens == 0
            &&& forall|i: int|
                0 <= i < segments.len() && plan.marks.len() > 0 && (#[trigger] segments[i]).id
                    == plan.marks.last().at ==> plan.cached_prefix_tokens == token_sum(
                    segments.take(i + 1),
                )
            &&& plan.provider_caches_automatically <==> cache is Automatic
        }),
{
    let plan = plan_of(segments, previous, cache);
    let usable = long_enough(
        run_ends(segments, previous, segments.len()),
        segments,
        cache.min_prefix()->0,
    );
    if usable.len() > cache.budget() {
        pruned_selects_all(usable, segments, cache.budget());
    }
    assert forall|i: int|
        0 <= i < segments.len() && plan.marks.len() > 0 && (#[trigger] segments[i]).id
            == plan.marks.last().at implies plan.cached_prefix_tokens == token_sum(
        segments.take(i + 1),
    ) by {
        cover_of(segments, i);
        prefix_takes_less(segments, i + 1);
    }
}

proof fn kind_of(segments: Seq<Segment>, i: int)
    requires
        ids_distinct(segments),
        0 <= i < segments.len(),
    ensures
        kinds(segments).contains_key(segments[i].id.0),
        kinds(segments)[segments[i].id.0] == segments[i].kind,
    decreases segments.len(),
{
    if i < segments.len() - 1 {
        let d = segments.drop_last();
        assert forall|a: int, b: int|
            0 <= a < d.len() && 0 <= b < d.len() && (#[trigger] d[a]).id.0 == (#[trigger] d[b]).id.0 implies a
            == b by {
            assert(segments[a].id.0 == segments[b].id.0);
        }
        kind_of(d, i);
        assert(segments[i].id.0 != segments[segments.len() - 1].id.0);
    }
}

/// A mark behind the tools or the system prompt lives long, where the provider offers that and every
/// mark before it does too; every other mark lives short.
pub proof fn lasting_parts_live_long(
    segments: Seq<Segment>,
    previous: Map<u32, ContentHash>,
    cache: CacheSupport,
    k: int,
    i: int,
)
    requires
        ids_distinct(segments),
        0 <= k < plan_of(segments, previous, cache).marks.len(),
        0 <= i < segments.len(),
        segments[i].id == plan_of(segments, previous, cache).marks[k].at,
    ensures
        ({
            let marks = plan_of(segments, previous, cache).marks;
            let offered = cache matches CacheSupport::Explicit { ttls, .. } && ttls@.contains(
                CacheTtl::Long,
            );
            marks[k].ttl == CacheTtl::Long <==> offered && (segments[i].kind == SegmentKind::Tools
                || segments[i].kind == SegmentKind::System) && (k > 0 ==> marks[k - 1].ttl
                == CacheTtl::Long)
        }),
{
    kind_of(segments, i);
    let marks = plan_of(segments, previous, cache).marks;
    let usable = long_enough(
        run_ends(segments, previous, segments.len()),
        segments,
        cache.min_prefix()->0,
    );
    let kept = if usable.len() > cache.budget() {
        pruned(usable, segments, cache.budget())
    } else {
        usable
    };
    assert(marks == marks_at(kept, segments, cache.offers(CacheTtl::Long)));
    assert(kept[k] == segments[i].id.0);
    if k > 0 && marks[k - 1].ttl == CacheTtl::Long && earns_long(segments, kept[k]) {
        assert forall|j: int| 0 <= j <= k implies earns_long(segments, #[trigger] kept[j]) by {
            if j < k {
                assert(forall|m: int| 0 <= m <= k - 1 ==> earns_long(segments, #[trigger] kept[m]));
            }
        }
    }
}

/// Whether a segment was meant to stay and is known to have changed since last turn.
pub open spec fn was_rewritten(segment: Segment, previous: Map<u32, ContentHash>) -> bool {
    &&& segment.stability == Stability::Static || segment.stability == Stability::Slow
    &&& previous.contains_key(segment.id.0)
    &&& previous[segment.id.0]@ != segment.hash@
}

/// Whether a warning says that a segment churned: it names it, and what it costs.
pub open spec fn tells_of(w: WarningView, segment: Segment) -> bool {
    w matches WarningView::CacheChurn { segment: label, tokens, .. } && label == segment.label@
        && tokens == segment.est_tokens
}

proof fn churn_is_told(segments: Seq<Segment>, previous: Map<u32, ContentHash>, i: int) -> (w: int)
    requires
        0 <= i < segments.len(),
        was_rewritten(segments[i], previous),
    ensures
        0 <= w < churn_warnings(segments, previous).len(),
        tells_of(churn_warnings(segments, previous)[w], segments[i]),
    decreases segments.len(),
{
    let d = segments.drop_last();
    if i < d.len() {
        churn_is_told(d, previous, i)
    } else {
        churn_warnings(d, previous).len() as int
    }
}

proof fn churn_comes_from(segments: Seq<Segment>, previous: Map<u32, ContentHash>, w: int) -> (i: int)
    requires
        0 <= w < churn_warnings(segments, previous).len(),
    ensures
        0 <= i < segments.len(),
        was_rewritten(segments[i], previous),
        tells_of(churn_warnings(segments, previous)[w], segments[i]),
    decreases segments.len(),
{
    let d = segments.drop_last();
    if w < churn_warnings(d, previous).len() {
        churn_comes_from(d, previous, w)
    } else {
        segments.len() - 1
    }
}

/// Churn is never paid for in silence, and never made up: wherever a provider caches, there is a
/// warning with the label and the size of every segment that was meant to stay and changed, and no
/// such warning for any other.
pub proof fn all_churn_is_reported(
    segments: Seq<Segment>,
    previous: Map<u32, ContentHash>,
    cache: CacheSupport,
)
    requires
        !(cache is Absent),
    ensures
        ({
            let plan = plan_of(segments, previous, cache);
            &&& forall|i: int|
                0 <= i < segments.len() && was_rewritten(#[trigger] segments[i], previous)
                    ==> exists|w: int|
                    0 <= w < plan.warnings.len() && tells_of(#[trigger] plan.warnings[w], segments[i])
            &&& forall|w: int|
                0 <= w < plan.warnings.len() && plan.warnings[w] is CacheChurn ==> exists|i: int|
                    0 <= i < segments.len() && was_rewritten(#[trigger] segments[i], previous)
                        && tells_of(#[trigger] plan.warnings[w], segments[i])
        }),
{
    let plan = plan_of(segments, previous, cache);
    let churn = churn_warnings(segments, previous);
    assert(forall|w: int| 0 <= w < churn.len() ==> #[trigger] plan.warnings[w] == churn[w]);
    assert forall|i: int|
        0 <= i < segments.len() && was_rewritten(#[trigger] segments[i], previous) implies exists|w: int|
        0 <= w < plan.warnings.len() && tells_of(#[trigger] plan.warnings[w], segments[i]) by {
        let w = churn_is_told(segments, previous, i);
        assert(tells_of(plan.warnings[w], segments[i]));
    }
    assert forall|w: int| 0 <= w < plan.warnings.len() && plan.warnings[w] is CacheChurn implies exists|i: int|
        0 <= i < segments.len() && was_rewritten(#[trigger] segments[i], previous) && tells_of(
            #[trigger] plan.warnings[w],
            segments[i],
        ) by {
        assert(w < churn.len());
        let i = churn_comes_from(segments, previous, w);
        assert(was_rewritten(segments[i], previous));
        assert(tells_of(plan.warnings[w], segments[i]));
    }
}

proof fn a_run_has_an_end(segments: Seq<Segment>, previous: Map<u32, ContentHash>, i: int) -> (e: int)
    requires
        0 <= i < segments.len(),
        stays(segments[i], previous),
    ensures
        i <= e,
        last_to_stay(segments, previous, e),
    decreases segments.len() - i,
{
    if i + 1 == segments.len() || !stays(segments[i + 1], previous) {
        i
    } else {
        a_run_has_an_end(segments, previous, i + 1)
    }
}

/// Where a provider takes breakpoints and a prompt gets none, the last warning says why: nothing in
/// the prompt stays, or what stays is shorter than the model caches.
pub proof fn an_unmarked_prompt_says_why(
    segments: Seq<Segment>,
    previous: Map<u32, ContentHash>,
    cache: CacheSupport,
)
    requires
        segments.len() > 0,
        cache matches CacheSupport::Explicit { max_breakpoints, .. } && max_breakpoints > 0,
        plan_of(segments, previous, cache).marks.len() == 0,
    ensures
        ({
            let plan = plan_of(segments, previous, cache);
            &&& plan.warnings.len() > 0
            &&& (exists|i: int| 0 <= i < segments.len() && stays(#[trigger] segments[i], previous)) <==> (
            plan.warnings.last() matches WarningView::BelowMinPrefix { have, need } && have < need
                && need == cache->Explicit_min_prefix_tokens)
            &&& !(plan.warnings.last() is BelowMinPrefix) ==> (plan.warnings.last() matches WarningView::Degraded {
                capability,
                ..
            } && capability == "prompt-cache"@)
        }),
{
    let plan = plan_of(segments, previous, cache);
    let min = cache.min_prefix()->0;
    let ends = run_ends(segments, previous, segments.len());
    let usable = long_enough(ends, segments, min);
    if usable.len() > cache.budget() {
        pruned_selects_all(usable, segments, cache.budget());
    }
    if exists|i: int| 0 <= i < segments.len() && stays(#[trigger] segments[i], previous) {
        let i = choose|i: int| 0 <= i < segments.len() && stays(#[trigger] segments[i], previous);
        let e = a_run_has_an_end(segments, previous, i);
        assert(ends_run(segments, previous, e));
        run_ends_hold(segments, previous, segments.len(), e);
        assert(ends.len() > 0);
        if covers(segments)[ends.last()] >= min {
            long_enough_holds(ends, segments, min, ends.len() - 1);
        }
    } else if ends.len() > 0 {
        let e = run_ends_end_runs(segments, previous, segments.len(), 0);
        assert(stays(segments[e], previous));
    }
}

proof fn leading_is(segments: Seq<Segment>, previous: Map<u32, ContentHash>, n: nat)
    requires
        n <= segments.len(),
        forall|j: int| 0 <= j < n ==> stays(#[trigger] segments[j], previous),
        n < segments.len() ==> !stays(segments[n as int], previous),
    ensures
        leading_run(segments, previous) == n,
    decreases n,
{
    if n > 0 {
        assert(stays(segments[0], previous));
        let rest = segments.drop_first();
        assert forall|j: int| 0 <= j < n - 1 implies stays(#[trigger] rest[j], previous) by {
            assert(rest[j] == segments[j + 1]);
        }
        leading_is(rest, previous, (n - 1) as nat);
    }
}

/// A provider that caches by itself reuses the segments that lead the prompt and stay. It is sent no
/// marks, and the last warning tells where it caches nothing: nothing leads, or what leads is too
/// short. Where it does cache, every warning is about churn.
pub proof fn automatic_caching_is_explained(
    segments: Seq<Segment>,
    previous: Map<u32, ContentHash>,
    min: u32,
    n: nat,
)
    requires
        segments.len() > 0,
        token_sum(segments) <= u32::MAX,
        n <= segments.len(),
        forall|j: int| 0 <= j < n ==> stays(#[trigger] segments[j], previous),
        n < segments.len() ==> !stays(segments[n as int], previous),
    ensures
        ({
            let plan = plan_of(
                segments,
                previous,
                CacheSupport::Automatic { min_prefix_tokens: min, explicit_available: false },
            );
            let leading = token_sum(segments.take(n as int));
            &&& plan.marks.len() == 0
            &&& leading == 0 ==> plan.warnings.len() > 0 && (plan.warnings.last() matches WarningView::Degraded {
                capability,
                ..
            } && capability == "prompt-cache"@)
            &&& 0 < leading < min ==> plan.warnings.len() > 0 && plan.warnings.last()
                == (WarningView::BelowMinPrefix { have: leading as u32, need: min })
            &&& 0 < leading && leading >= min ==> forall|w: int|
                0 <= w < plan.warnings.len() ==> (#[trigger] plan.warnings[w]) is CacheChurn
        }),
{
    let cache = CacheSupport::Automatic { min_prefix_tokens: min, explicit_available: false };
    let plan = plan_of(segments, previous, cache);
    leading_is(segments, previous, n);
    prefix_takes_less(segments, n as int);
    let churn = churn_warnings(segments, previous);
    assert forall|w: int| 0 <= w < churn.len() implies (#[trigger] churn[w]) is CacheChurn by {
        let i = churn_comes_from(segments, previous, w);
    }
}

/// Every segment of a prompt is remembered by its hash, and nothing else is.
pub proof fn every_segment_is_remembered(segments: Seq<Segment>, id: u32)
    requires
        ids_distinct(segments),
    ensures
        hashes_of(segments).contains_key(id) <==> exists|i: int|
            0 <= i < segments.len() && (#[trigger] segments[i]).id.0 == id,
        forall|i: int|
            0 <= i < segments.len() ==> hashes_of(segments).contains_key(
                (#[trigger] segments[i]).id.0,
            ) && hashes_of(segments)[segments[i].id.0] == segments[i].hash,
    decreases segments.len(),
{
    if segments.len() > 0 {
        let less = segments.drop_last();
        let n = segments.len() - 1;
        assert(forall|i: int| 0 <= i < n ==> less[i] == #[trigger] segments[i]);
        every_segment_is_remembered(less, id);
        assert(segments[n] == segments.last());
        if exists|i: int| 0 <= i < less.len() && (#[trigger] less[i]).id.0 == id {
            let i = choose|i: int| 0 <= i < less.len() && (#[trigger] less[i]).id.0 == id;
            assert(segments[i].id.0 == id);
        }
        if exists|i: int| 0 <= i < segments.len() && (#[trigger] segments[i]).id.0 == id {
            let i = choose|i: int| 0 <= i < segments.len() && (#[trigger] segments[i]).id.0 == id;
            if i < n {
                assert(less[i].id.0 == id);
            }
        }
    }
}

/// A count is told as it is, up to the largest that can be told.
pub proof fn counts_are_held_at_the_largest(n: nat)
    ensures
        n <= u32::MAX ==> capped(n) == n,
        n > u32::MAX ==> capped(n) == u32::MAX,
{
}

} // verus!
