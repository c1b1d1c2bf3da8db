//! Splitting what the model will see into segments that budgeting and cache planning reason about.

use vstd::prelude::*;

use crate::cache::{capped, ids_ascend, token_sum};
use crate::hash::{blake3_digest, framed, hash_parts, hash_texts};
use crate::ids::SegmentId;
use crate::item::{debug_item, item_debug, Item, ItemView, Role, Turn, TurnView};
use crate::journal::{says_otherwise, tool_content, tool_text};
use crate::json::render;
use crate::provider::{mark_on, marks_land_on_their_segments, placed_marks};
use crate::segment::{CacheMark, Segment, SegmentKind, Stability};
use crate::text::{byte_len, join, joined, joining_keeps_every_part, mentions, middle_counts, part_texts, pieces_are_mentioned, texts, utf8_len, group_mentions, mentioning_is_transitive};
use crate::tool_def::{ToolDefinition, ToolDefinitionView};

verus! {

/// A rough token count: a quarter of the bytes, rounded up.
pub open spec fn estimate(text: Seq<char>) -> u32 {
    capped(((utf8_len(text) + 3) / 4) as nat)
}

/// A rough token count.
///
/// Deliberately crude: it is used for budgeting and for the minimum-cacheable-prefix check, both of
/// which need an order of magnitude rather than a tokenizer.
pub fn estimate_tokens(text: &str) -> (r: u32)
    ensures
        r == estimate(text@),
{
    let n: usize = byte_len(text);
    let whole: usize = n / 4;
    let quarters: usize = if n % 4 > 0 {
        whole + 1
    } else {
        whole
    };
    if quarters as u64 > u32::MAX as u64 {
        u32::MAX
    } else {
        quarters as u32
    }
}

/// A longer text never counts for fewer tokens, and only nothing counts for none.
pub proof fn estimates_grow_with_length(a: Seq<char>, b: Seq<char>)
    requires
        utf8_len(a) <= utf8_len(b),
    ensures
        estimate(a) <= estimate(b),
        estimate(a) == 0 <==> utf8_len(a) == 0,
{
}

/// One contiguous piece of a prompt.
#[verifier::ext_equal]
pub struct SegmentView {
    pub id: u32,
    pub kind: SegmentKind,
    pub stability: Stability,
    pub hash: Seq<u8>,
    pub est_tokens: u32,
    pub label: Seq<char>,
}

/// What a segment says.
pub open spec fn segment_view(s: Segment) -> SegmentView {
    SegmentView {
        id: s.id.0,
        kind: s.kind,
        stability: s.stability,
        hash: s.hash@,
        est_tokens: s.est_tokens,
        label: s.label@,
    }
}

/// What a list of segments says.
pub open spec fn segment_views(s: Seq<Segment>) -> Seq<SegmentView> {
    Seq::new(s.len(), |i: int| segment_view(s[i]))
}

/// What an item shows the model.
pub open spec fn shown(i: ItemView) -> Seq<char> {
    match i {
        ItemView::Text { text, .. } => text,
        ItemView::ToolCall(c) => c.name + render(c.args),
        ItemView::ToolResult { content, .. } => content,
        _ => item_debug(i),
    }
}

/// What a turn shows the model: its items, one to a line.
pub open spec fn turn_shown(t: TurnView) -> Seq<char> {
    joined(Seq::new(t.items.len(), |i: int| shown(t.items[i])), "\n"@)
}

/// What the tools show the model, one piece to a tool.
pub open spec fn tool_parts(defs: Seq<ToolDefinitionView>) -> Seq<Seq<char>> {
    Seq::new(defs.len(), |i: int| tool_content(defs[i]))
}

/// How many tokens some pieces count for.
pub open spec fn estimates(parts: Seq<Seq<char>>) -> nat
    decreases parts.len(),
{
    if parts.len() == 0 {
        0
    } else {
        estimates(parts.drop_last()) + estimate(parts.last()) as nat
    }
}

/// The segment of the tool block.
pub open spec fn tool_segment(defs: Seq<ToolDefinitionView>) -> SegmentView {
    SegmentView {
        id: 0,
        kind: SegmentKind::Tools,
        stability: Stability::Static,
        hash: blake3_digest(framed(tool_parts(defs))),
        est_tokens: estimates(tool_parts(defs)) as u32,
        label: "tools"@,
    }
}

/// The segment of a turn. The system prompt is static; everything else churns.
pub open spec fn turn_segment(id: u32, t: TurnView) -> SegmentView {
    SegmentView {
        id,
        kind: if t.role == Role::System {
            SegmentKind::System
        } else {
            SegmentKind::History
        },
        stability: if t.role == Role::System {
            Stability::Static
        } else {
            Stability::Volatile
        },
        hash: blake3_digest(framed(seq![turn_shown(t)])),
        est_tokens: estimate(turn_shown(t)),
        label: if t.role == Role::System {
            "system"@
        } else {
            "history"@
        },
    }
}

/// How many segments the tool block takes.
pub open spec fn tool_block(defs: Seq<ToolDefinitionView>) -> int {
    if defs.len() > 0 {
        1
    } else {
        0
    }
}

/// The segments of a prompt: the tool block where there is one, then the turns in order.
///
/// The order is the prefix hierarchy: a change at one level invalidates that level and everything
/// after it.
pub open spec fn segments_of(
    defs: Seq<ToolDefinitionView>,
    turns: Seq<TurnView>,
) -> Seq<SegmentView> {
    let first = if defs.len() > 0 {
        seq![tool_segment(defs)]
    } else {
        Seq::empty()
    };
    first + Seq::new(turns.len(), |i: int| turn_segment((first.len() + i) as u32, turns[i]))
}

/// How many tokens some turns count for.
pub open spec fn turn_estimates(turns: Seq<TurnView>) -> nat {
    estimates(Seq::new(turns.len(), |i: int| turn_shown(turns[i])))
}

/// Whether the segments of a prompt can be numbered and their tokens added up in 32 bits.
pub open spec fn measurable(defs: Seq<ToolDefinitionView>, turns: Seq<TurnView>) -> bool {
    &&& estimates(tool_parts(defs)) + turn_estimates(turns) <= u32::MAX
    &&& tool_block(defs) + turns.len() <= u32::MAX
}

fn shown_text(item: &Item) -> (r: String)
    ensures
        r@ == shown(item@),
{
    match item {
        Item::Text(t) => t.text.clone(),
        Item::ToolCall(c) => {
            let mut out = c.name.as_str().to_owned();
            out.push_str(c.args.to_string().as_str());
            out
        },
        Item::ToolResult(r) => r.content.clone(),
        other => debug_item(other),
    }
}

fn turn_text(turn: &Turn) -> (r: String)
    ensures
        r@ == turn_shown(turn@),
{
    let mut parts: Vec<String> = Vec::new();
    let mut i: usize = 0;
    while i < turn.items.len()
        invariant
            i <= turn.items@.len(),
            parts@.len() == i,
            forall|j: int| 0 <= j < i ==> (#[trigger] parts@[j])@ == shown(turn.items@[j]@),
        decreases turn.items@.len() - i,
    {
        parts.push(shown_text(&turn.items[i]));
        i = i + 1;
    }
    assert(texts(parts@) == Seq::new(turn@.items.len(), |i: int| shown(turn@.items[i])));
    join(&parts, "\n")
}

fn tool_texts(definitions: &Vec<ToolDefinition>) -> (r: Vec<String>)
    ensures
        texts(r@) == tool_parts(definitions.deep_view()),
{
    let mut parts: Vec<String> = Vec::new();
    let mut i: usize = 0;
    while i < definitions.len()
        invariant
            i <= definitions@.len(),
            parts@.len() == i,
            forall|j: int|
                0 <= j < i ==> (#[trigger] parts@[j])@ == tool_content(definitions@[j]@),
        decreases definitions@.len() - i,
    {
        parts.push(tool_text(&definitions[i]));
        i = i + 1;
    }
    assert(texts(parts@) == tool_parts(definitions.deep_view()));
    parts
}

proof fn estimates_of_prefix(parts: Seq<Seq<char>>, n: int)
    requires
        0 <= n <= parts.len(),
    ensures
        estimates(parts.take(n)) <= estimates(parts),
    decreases parts.len(),
{
    if n < parts.len() {
        estimates_of_prefix(parts.drop_last(), n);
        assert(parts.drop_last().take(n) == parts.take(n));
    } else {
        assert(parts.take(n) == parts);
    }
}

/// The tokens that some pieces count for, or none where they do not fit `limit`.
fn sum_estimates(parts: &Vec<String>, limit: u32) -> (r: Option<u32>)
    ensures
        match r {
            Some(n) => n == estimates(texts(parts@)) && n <= limit,
            None => estimates(texts(parts@)) > limit,
        },
{
    let ghost all = texts(parts@);
    let mut total: u32 = 0;
    let mut i: usize = 0;
    assert(all.take(0) == Seq::<Seq<char>>::empty());
    while i < parts.len()
        invariant
            i <= parts@.len(),
            all == texts(parts@),
            total == estimates(all.take(i as int)),
            total <= limit,
        decreases parts@.len() - i,
    {
        proof {
            assert(all.take(i + 1).drop_last() == all.take(i as int));
            assert(all.take(i + 1).last() == parts@[i as int]@);
            estimates_of_prefix(all, i + 1);
        }
        let n: u32 = estimate_tokens(parts[i].as_str());
        if n > limit - total {
            return None;
        }
        total = total + n;
        i = i + 1;
    }
    assert(all.take(all.len() as int) == all);
    Some(total)
}

fn turn_texts(turns: &Vec<Turn>) -> (r: Vec<String>)
    ensures
        texts(r@) == Seq::new(turns@.len(), |i: int| turn_shown(turns@[i]@)),
{
    let mut parts: Vec<String> = Vec::new();
    let mut i: usize = 0;
    while i < turns.len()
        invariant
            i <= turns@.len(),
            parts@.len() == i,
            forall|j: int| 0 <= j < i ==> (#[trigger] parts@[j])@ == turn_shown(turns@[j]@),
        decreases turns@.len() - i,
    {
        parts.push(turn_text(&turns[i]));
        i = i + 1;
    }
    assert(texts(parts@) == Seq::new(turns@.len(), |i: int| turn_shown(turns@[i]@)));
    parts
}

/// Split what the model will see into segments, tools first and then the turns in order. The
/// segments must be few enough to number, and their tokens must add up in 32 bits.
pub fn build_segments(definitions: &Vec<ToolDefinition>, turns: &Vec<Turn>) -> (r: Vec<Segment>)
    requires
        measurable(definitions.deep_view(), turns.deep_view()),
    ensures
        segment_views(r@) == segments_of(definitions.deep_view(), turns.deep_view()),
{
    let ghost defs = definitions.deep_view();
    let ghost said = turns.deep_view();
    let mut segments: Vec<Segment> = Vec::new();
    let mut next_id: u32 = 0;
    if definitions.len() > 0 {
        let parts = tool_texts(definitions);
        let est: u32 = match sum_estimates(&parts, u32::MAX) {
            Some(n) => n,
            None => 0,
        };
        segments.push(
            Segment {
                id: SegmentId(next_id),
                kind: SegmentKind::Tools,
                stability: Stability::Static,
                hash: hash_texts(&parts),
                est_tokens: est,
                label: "tools".to_owned(),
            },
        );
        next_id = 1;
        assert(segment_view(segments@[0]) == tool_segment(defs));
    }
    let ghost base = segments@.len();
    let mut i: usize = 0;
    while i < turns.len()
        invariant
            i <= turns@.len(),
            said == turns.deep_view(),
            base == tool_block(defs),
            base + said.len() <= u32::MAX,
            next_id == base + i,
            segments@.len() == base + i,
            base == 1 ==> segment_view(segments@[0]) == tool_segment(defs),
            forall|j: int|
                base <= j < base + i ==> segment_view(#[trigger] segments@[j]) == turn_segment(
                    j as u32,
                    said[j - base],
                ),
        decreases turns@.len() - i,
    {
        let text = turn_text(&turns[i]);
        let is_system = turns[i].role == Role::System;
        let parts: [&str; 1] = [text.as_str()];
        proof {
            assert(part_texts(parts@) == seq![text@]);
        }
        let ghost before = segments@;
        segments.push(
            Segment {
                id: SegmentId(next_id),
                kind: if is_system {
                    SegmentKind::System
                } else {
                    SegmentKind::History
                },
                stability: if is_system {
                    Stability::Static
                } else {
                    Stability::Volatile
                },
                hash: hash_parts(&parts),
                est_tokens: estimate_tokens(text.as_str()),
                label: if is_system {
                    "system".to_owned()
                } else {
                    "history".to_owned()
                },
            },
        );
        proof {
            assert(segment_view(segments@.last()) == turn_segment(next_id, said[i as int]));
            assert forall|j: int| base <= j < base + i + 1 implies segment_view(
                #[trigger] segments@[j],
            ) == turn_segment(j as u32, said[j - base]) by {
                if j < base + i {
                    assert(segments@[j] == before[j]);
                }
            }
        }
        next_id = next_id + 1;
        i = i + 1;
    }
    assert(segment_views(segments@) =~= segments_of(defs, said));
    segments
}

/// The segments of a prompt, or nothing where they cannot be numbered and added up in 32 bits.
pub fn try_segments(definitions: &Vec<ToolDefinition>, turns: &Vec<Turn>) -> (r: Option<
    Vec<Segment>,
>)
    ensures
        match r {
            Some(s) => measurable(definitions.deep_view(), turns.deep_view()) && segment_views(s@)
                == segments_of(definitions.deep_view(), turns.deep_view()),
            None => !measurable(definitions.deep_view(), turns.deep_view()),
        },
{
    let first: u64 = if definitions.len() > 0 {
        1
    } else {
        0
    };
    if turns.len() as u64 > u32::MAX as u64 - first {
        return None;
    }
    let parts = tool_texts(definitions);
    let told = turn_texts(turns);
    assert(texts(told@) == Seq::new(turns.deep_view().len(), |i: int| turn_shown(turns.deep_view()[i])));
    match sum_estimates(&parts, u32::MAX) {
        None => None,
        Some(n) => match sum_estimates(&told, u32::MAX - n) {
            None => None,
            Some(_) => Some(build_segments(definitions, turns)),
        },
    }
}

proof fn segment_tokens(s: Seq<Segment>, defs: Seq<ToolDefinitionView>, turns: Seq<TurnView>)
    requires
        measurable(defs, turns),
        segment_views(s) == segments_of(defs, turns),
    ensures
        token_sum(s) == estimates(tool_parts(defs)) + turn_estimates(turns),
    decreases turns.len(),
{
    assert(s.len() == segments_of(defs, turns).len());
    let told = Seq::new(turns.len(), |i: int| turn_shown(turns[i]));
    if turns.len() == 0 {
        assert(told == Seq::<Seq<char>>::empty());
        if defs.len() == 0 {
            assert(tool_parts(defs) == Seq::<Seq<char>>::empty());
            assert(s.len() == 0);
        } else {
            assert(s.len() == 1);
            assert(segment_views(s)[0] == tool_segment(defs));
            assert(s.drop_last().len() == 0);
            reveal_with_fuel(token_sum, 2);
        }
    } else {
        let up = turns.drop_last();
        let told_up = Seq::new(up.len(), |i: int| turn_shown(up[i]));
        assert(told.drop_last() == told_up);
        assert(told.last() == turn_shown(turns.last()));
        assert(segments_of(defs, turns).drop_last() == segments_of(defs, up));
        assert(segment_views(s.drop_last()) == segment_views(s).drop_last());
        segment_tokens(s.drop_last(), defs, up);
        assert(segment_views(s)[s.len() - 1] == segments_of(defs, turns)[s.len() - 1]);
    }
}

/// The segments of a measurable prompt can be fitted to a budget: their tokens add up in 32 bits,
/// and their ids ascend in prompt order.
pub proof fn segments_can_be_fitted(
    s: Seq<Segment>,
    defs: Seq<ToolDefinitionView>,
    turns: Seq<TurnView>,
)
    requires
        measurable(defs, turns),
        segment_views(s) == segments_of(defs, turns),
    ensures
        token_sum(s) <= u32::MAX,
        ids_ascend(s),
{
    segment_tokens(s, defs, turns);
    let all = segments_of(defs, turns);
    assert(all.len() == tool_block(defs) + turns.len());
    assert forall|i: int| 0 <= i < all.len() implies (#[trigger] all[i]).id == i by {}
    assert(s.len() == segment_views(s).len());
    assert forall|i: int, j: int| 0 <= i < j < s.len() implies (#[trigger] s[i]).id.0 < (
    #[trigger] s[j]).id.0 by {
        assert(segment_views(s)[i] == all[i]);
        assert(segment_views(s)[j] == all[j]);
    }
}

/// Segment `i` of a prompt has id `i`. The tool block, when there is one, is segment 0 and static,
/// and turn `t` is the segment after the ones before it, so that a mark on a segment of this prompt
/// lands at the end of what that segment was made from.
pub proof fn marks_and_segments_agree(
    defs: Seq<ToolDefinitionView>,
    turns: Seq<TurnView>,
    marks: Seq<CacheMark>,
)
    requires
        measurable(defs, turns),
    ensures
        ({
            let segments = segments_of(defs, turns);
            let placed = placed_marks(marks, defs.len() > 0, turns.len());
            &&& segments.len() == tool_block(defs) + turns.len()
            &&& forall|i: int| 0 <= i < segments.len() ==> (#[trigger] segments[i]).id == i
            &&& defs.len() > 0 ==> segments[0].kind == SegmentKind::Tools && segments[0].stability
                == Stability::Static && placed.tools == mark_on(marks, 0)
            &&& forall|t: usize|
                t < turns.len() ==> (#[trigger] placed.turns.contains_key(t) <==> mark_on(
                    marks,
                    segments[tool_block(defs) + t].id as int,
                ) is Some)
        }),
{
    let segments = segments_of(defs, turns);
    assert forall|i: int| 0 <= i < segments.len() implies (#[trigger] segments[i]).id == i by {}
    if turns.len() <= usize::MAX {
        marks_land_on_their_segments(marks, defs.len() > 0, turns.len());
    }
}

/// An estimate is a quarter of the bytes, rounded up.
pub proof fn an_estimate_is_a_quarter(text: Seq<char>)
    requires
        utf8_len(text) <= u32::MAX,
    ensures
        4 * estimate(text) >= utf8_len(text),
        4 * estimate(text) < utf8_len(text) + 4,
{
}

/// The segment of a turn is made from that turn: it counts the tokens of what the turn shows, hashes
/// it, and is part of the system prompt, and expected to stay, exactly where the turn is. Everything
/// else is history, and expected to change.
pub proof fn turns_become_segments(defs: Seq<ToolDefinitionView>, turns: Seq<TurnView>, t: int)
    requires
        measurable(defs, turns),
        0 <= t < turns.len(),
    ensures
        ({
            let at = if defs.len() > 0 { t + 1 } else { t };
            let segment = segments_of(defs, turns)[at];
            &&& segments_of(defs, turns).len() == turns.len() + (if defs.len() > 0 { 1int } else { 0 })
            &&& segment.id == at
            &&& segment.kind == SegmentKind::System <==> turns[t].role == Role::System
            &&& segment.kind == SegmentKind::History <==> turns[t].role != Role::System
            &&& segment.stability == Stability::Static <==> turns[t].role == Role::System
            &&& segment.stability == Stability::Volatile <==> turns[t].role != Role::System
            &&& segment.est_tokens == estimate(turn_shown(turns[t]))
            &&& segment.hash == blake3_digest(framed(seq![turn_shown(turns[t])]))
            &&& segment.label == (if turns[t].role == Role::System {
                "system"@
            } else {
                "history"@
            })
        }),
{
}

/// The tools become one segment in front of everything, which is expected to stay. It counts and
/// hashes every tool, and there is none where there are no tools.
pub proof fn tools_become_a_segment(defs: Seq<ToolDefinitionView>, turns: Seq<TurnView>)
    requires
        measurable(defs, turns),
        defs.len() > 0,
    ensures
        ({
            let segment = segments_of(defs, turns)[0];
            &&& segment.id == 0
            &&& segment.kind == SegmentKind::Tools
            &&& segment.stability == Stability::Static
            &&& segment.est_tokens == estimates(tool_parts(defs))
            &&& segment.hash == blake3_digest(framed(tool_parts(defs)))
            &&& segment.label == "tools"@
            &&& tool_parts(defs).len() == defs.len()
            &&& forall|i: int|
                0 <= i < defs.len() ==> mentions(#[trigger] tool_parts(defs)[i], defs[i].name)
                    && mentions(tool_parts(defs)[i], defs[i].description) && mentions(
                    tool_parts(defs)[i],
                    render(defs[i].input_schema),
                )
        }),
{
    let none = Seq::<char>::empty();
    assert forall|i: int| 0 <= i < defs.len() implies mentions(
        #[trigger] tool_parts(defs)[i],
        defs[i].name,
    ) && mentions(tool_parts(defs)[i], defs[i].description) && mentions(
        tool_parts(defs)[i],
        render(defs[i].input_schema),
    ) by {
        let d = defs[i];
        let whole = tool_parts(defs)[i];
        let schema = render(d.input_schema);
        pieces_are_mentioned(none, d.name, "|"@ + d.description + "|"@ + schema);
        assert(d.name + ("|"@ + d.description + "|"@ + schema) == whole);
        pieces_are_mentioned(d.name + "|"@, d.description, "|"@ + schema);
        assert(d.name + "|"@ + d.description + ("|"@ + schema) == whole);
        pieces_are_mentioned(d.name + "|"@ + d.description + "|"@, schema, none);
        assert(d.name + "|"@ + d.description + "|"@ + schema == whole);
    }
}

/// Tokens are counted piece by piece: one more piece adds its own estimate.
pub proof fn estimates_add_up(parts: Seq<Seq<char>>, more: Seq<char>)
    ensures
        estimates(Seq::empty()) == 0,
        estimates(parts.push(more)) == estimates(parts) + estimate(more),
{
    assert(parts.push(more).drop_last() == parts);
}

/// What a turn shows holds every item of it, and shows a change of any text, tool call or tool
/// result in it, so that the segment's hash can tell the two apart.
pub proof fn what_is_shown_tells_turns_apart(turn: TurnView, k: int, item: ItemView)
    requires
        0 <= k < turn.items.len(),
        says_otherwise(turn.items[k], item),
    ensures
        turn_shown(turn) != turn_shown(TurnView { items: turn.items.update(k, item), ..turn }),
        turn.items[k] matches ItemView::Text { text, .. } ==> mentions(turn_shown(turn), text),
        turn.items[k] matches ItemView::ToolResult { content, .. } ==> mentions(
            turn_shown(turn),
            content,
        ),
{
    let parts = Seq::new(turn.items.len(), |i: int| shown(turn.items[i]));
    let other = TurnView { items: turn.items.update(k, item), ..turn };
    let none = Seq::<char>::empty();
    let x = turn.items[k];
    if x is ToolCall {
        let m = x->ToolCall_0;
        let n = item->ToolCall_0;
        if m.args == n.args {
            middle_counts(none, m.name, n.name, render(m.args));
            assert(none + m.name + render(m.args) == m.name + render(m.args));
            assert(none + n.name + render(m.args) == n.name + render(m.args));
        } else {
            middle_counts(m.name, render(m.args), render(n.args), none);
            assert(m.name + render(m.args) + none == m.name + render(m.args));
            assert(m.name + render(n.args) + none == m.name + render(n.args));
        }
    }
    assert(shown(x) != shown(item));
    joining_keeps_every_part(parts, "\n"@, k, shown(item));
    assert(Seq::new(other.items.len(), |i: int| shown(other.items[i])) == parts.update(
        k,
        shown(item),
    ));
}

/// What a turn shows holds every item of it: a text and a tool result as they are, a call by its
/// name and arguments, and anything else with all that is inside it.
pub proof fn every_item_is_shown(turn: TurnView, k: int)
    requires
        0 <= k < turn.items.len(),
    ensures
        match turn.items[k] {
            ItemView::Text { text, .. } => mentions(turn_shown(turn), text),
            ItemView::ToolCall(call) => mentions(turn_shown(turn), call.name) && mentions(
                turn_shown(turn),
                render(call.args),
            ),
            ItemView::ToolResult { content, .. } => mentions(turn_shown(turn), content),
            other => mentions(turn_shown(turn), item_debug(other)),
        },
{
    broadcast use group_mentions;

    let parts = Seq::new(turn.items.len(), |i: int| shown(turn.items[i]));
    joining_keeps_every_part(parts, "\n"@, k, parts[k]);
    if let ItemView::ToolCall(call) = turn.items[k] {
        mentioning_is_transitive(turn_shown(turn), parts[k], call.name);
        mentioning_is_transitive(turn_shown(turn), parts[k], render(call.args));
    }
}

} // verus!
