//! Agents that start other agents.
//!
//! A child's grants only narrow, untrusted input flows down, and what a child says is untrusted.

use std::sync::Arc;

use vstd::prelude::*;

use crate::capability::{grants_within, powers_of, valid_grants, grant_sets_are_ordered, CapabilityView, GrantSet, SessionPowers};
use crate::event::{Event, EventKind};
use crate::ids::{path_text, AgentId, AgentPath};
use crate::taint::{Provenance, ProvenanceView, Tainted, Untrusted};

verus! {

/// What a child inherits from its parent.
#[derive(Debug, Clone, PartialEq, Eq)]
pub enum Inheritance {
    /// Nothing. The child sees only its task.
    Nothing,
    /// A written brief. The default, and the one that keeps a quarantined agent quarantined.
    Summary(String),
    /// The parent's full context, shared read-only.
    Snapshot(Arc<ContextSnapshot>),
}

/// A read-only view of a parent's context, cheap to share.
#[derive(Debug, Clone, PartialEq, Eq)]
pub struct ContextSnapshot {
    /// A rendering of what the parent knows.
    pub text: String,
}

/// A child could not be spawned.
#[derive(Debug, Clone, PartialEq, Eq)]
#[non_exhaustive]
pub enum SpawnError {
    /// The child asked for something the parent does not have.
    WidensGrants {
        /// Which child.
        child: AgentId,
    },
    /// The child would hold all three powers at once.
    RuleOfTwo {
        /// Which child.
        child: AgentId,
    },
}

impl SpawnError {
    /// The error in words.
    pub fn to_string(&self) -> (r: String)
        ensures
            r@ == (match *self {
                SpawnError::WidensGrants { child } => "sub-agent `"@ + child@
                    + "` asked for capabilities its parent does not hold. A child's grants may only narrow: this is what stops a compromised sub-agent from escalating."@,
                SpawnError::RuleOfTwo { child } => "sub-agent `"@ + child@
                    + "` would process untrusted input, reach private data, and be able to change state or send data outward, all in one session. Drop one power, or escalate to a human deliberately."@,
            }),
    {
        match self {
            SpawnError::WidensGrants { child } => {
                let mut out = "sub-agent `".to_owned();
                out.push_str(child.as_str());
                out.push_str(
                    "` asked for capabilities its parent does not hold. A child's grants may only narrow: this is what stops a compromised sub-agent from escalating.",
                );
                out
            },
            SpawnError::RuleOfTwo { child } => {
                let mut out = "sub-agent `".to_owned();
                out.push_str(child.as_str());
                out.push_str(
                    "` would process untrusted input, reach private data, and be able to change state or send data outward, all in one session. Drop one power, or escalate to a human deliberately.",
                );
                out
            },
        }
    }
}

/// What a child agent is allowed to be.
#[derive(Debug, Clone)]
pub struct Spawn {
    /// Which child.
    pub id: AgentId,
    /// What it inherits.
    pub inheritance: Inheritance,
    /// What it may do. Checked against the parent.
    pub grants: GrantSet,
}

/// A child agent, once it has been checked.
#[derive(Debug, Clone)]
pub struct Child {
    /// Where it sits in the tree.
    pub path: AgentPath,
    /// What it may do.
    pub grants: GrantSet,
    /// What it inherits.
    pub inheritance: Inheritance,
    /// Its powers, for the Rule of Two.
    pub powers: SessionPowers,
}

/// The powers of a child. A parent that has read untrusted content cannot hand a child a clean
/// slate by summarising: the summary is derived from that content.
pub open spec fn child_powers(
    grants: Seq<CapabilityView>,
    parent: SessionPowers,
    inheritance: Inheritance,
) -> SessionPowers {
    powers_of(grants, parent.untrusted_input && !(inheritance is Nothing))
}

/// Check and create a child. A child that asks for anything its parent lacks is refused, and so is
/// one whose session would hold all three powers.
pub fn spawn(
    parent_path: &AgentPath,
    parent_grants: &GrantSet,
    parent_powers: SessionPowers,
    request: Spawn,
) -> (r: Result<Child, SpawnError>)
    ensures
        ({
            let powers = child_powers(request.grants@, parent_powers, request.inheritance);
            match r {
                Ok(child) => {
                    &&& grants_within(request.grants@, parent_grants@)
                    &&& !powers.all_three()
                    &&& child.path@ == parent_path@.push(request.id@)
                    &&& child.grants == request.grants
                    &&& child.inheritance == request.inheritance
                    &&& child.powers == powers
                },
                Err(SpawnError::WidensGrants { child }) => !grants_within(
                    request.grants@,
                    parent_grants@,
                ) && child == request.id,
                Err(SpawnError::RuleOfTwo { child }) => grants_within(
                    request.grants@,
                    parent_grants@,
                ) && powers.all_three() && child == request.id,
            }
        }),
{
    if !request.grants.is_subset_of(parent_grants) {
        return Err(SpawnError::WidensGrants { child: request.id });
    }
    let mut powers = SessionPowers::from_grants(&request.grants);
    if parent_powers.untrusted_input && !matches!(request.inheritance, Inheritance::Nothing) {
        powers = powers.observed_untrusted_input();
    }
    if powers.check().is_err() {
        return Err(SpawnError::RuleOfTwo { child: request.id });
    }
    Ok(
        Child {
            path: parent_path.child(request.id),
            grants: request.grants,
            inheritance: request.inheritance,
            powers,
        },
    )
}

/// A chain of children, each within the grants of the one above it, ends within the grants it began
/// with: no descendant holds what its ancestor did not.
pub proof fn grants_narrow_down_the_tree(chain: Seq<Seq<CapabilityView>>)
    requires
        chain.len() > 0,
        forall|i: int| 0 <= i < chain.len() ==> valid_grants(#[trigger] chain[i]),
        forall|i: int| 0 < i < chain.len() ==> grants_within(#[trigger] chain[i], chain[i - 1]),
    ensures
        grants_within(chain.last(), chain[0]),
    decreases chain.len(),
{
    assert(valid_grants(chain[0]));
    if chain.len() == 1 {
        grant_sets_are_ordered(chain[0], chain[0], chain[0]);
    } else {
        let up = chain.drop_last();
        assert forall|i: int| 0 <= i < up.len() implies valid_grants(#[trigger] up[i]) by {
            assert(up[i] == chain[i]);
        }
        assert forall|i: int| 0 < i < up.len() implies grants_within(#[trigger] up[i], up[i - 1]) by {
            assert(up[i] == chain[i]);
        }
        grants_narrow_down_the_tree(up);
        assert(valid_grants(chain.last()));
        assert(valid_grants(chain[chain.len() - 2]));
        assert(grants_within(chain[chain.len() - 1], chain[chain.len() - 1 - 1]));
        grant_sets_are_ordered(chain.last(), up.last(), chain[0]);
    }
}

/// Label a child's output. Low integrity, always: a sub-agent's reply is model output.
#[must_use]
pub fn label_result(child: &AgentPath, text: String) -> (r: Untrusted<String>)
    ensures
        r.inner() == text,
        r.story() == ProvenanceView::straight("agent:"@ + path_text(child@)),
{
    Tainted::with_provenance(text, Provenance::tagged("agent:", child.to_string().as_str()))
}

/// Whether an event may be dropped when a consumer cannot keep up. Presentation deltas may;
/// semantics may not.
#[must_use]
pub fn droppable_under_pressure(event: &Event) -> (r: bool)
    ensures
        r == event@.kind.droppable(),
{
    event.is_droppable()
}

/// The events that survive when a consumer takes `capacity` of them: everything while there is
/// room, and past that everything but presentation deltas.
pub open spec fn surviving(events: Seq<Event>, capacity: nat) -> Seq<Event>
    decreases events.len(),
{
    if events.len() == 0 {
        Seq::empty()
    } else {
        let kept = surviving(events.drop_last(), capacity);
        if kept.len() < capacity || !events.last()@.kind.droppable() {
            kept.push(events.last())
        } else {
            kept
        }
    }
}

proof fn all_survive_with_room(events: Seq<Event>, capacity: nat)
    requires
        events.len() <= capacity,
    ensures
        surviving(events, capacity) == events,
    decreases events.len(),
{
    if events.len() > 0 {
        all_survive_with_room(events.drop_last(), capacity);
        assert(events.drop_last().push(events.last()) == events);
    }
}

proof fn none_are_added(events: Seq<Event>, capacity: nat)
    ensures
        surviving(events, capacity).len() <= events.len(),
    decreases events.len(),
{
    if events.len() > 0 {
        none_are_added(events.drop_last(), capacity);
    }
}

/// Fan events from leaves up to the root, dropping only what may be dropped.
///
/// Returns the events that survived and how many were dropped. Going over capacity is recoverable,
/// and a transcript that lies is not, so events with meaning are kept even then.
#[must_use]
pub fn apply_backpressure(events: Vec<Event>, capacity: usize) -> (r: (Vec<Event>, u64))
    ensures
        r.0@ == surviving(events@, capacity as nat),
        r.0@.len() + r.1 == events@.len(),
{
    proof {
        none_are_added(events@, capacity as nat);
    }
    if events.len() <= capacity {
        proof {
            all_survive_with_room(events@, capacity as nat);
        }
        return (events, 0);
    }
    let ghost all = events@;
    let mut kept: Vec<Event> = Vec::new();
    let mut dropped: u64 = 0;
    for event in it: events
        invariant
            it.seq() == all,
            all.len() <= usize::MAX,
            kept@ == surviving(all.take(it.index() as int), capacity as nat),
            kept@.len() + dropped == it.index(),
            it.index() <= all.len(),
    {
        proof {
            let i = it.index() as int;
            assert(all.take(i + 1).drop_last() == all.take(i));
            assert(all.take(i + 1).last() == event);
        }
        if kept.len() < capacity || !droppable_under_pressure(&event) {
            kept.push(event);
        } else {
            dropped = dropped + 1;
        }
    }
    assert(all.take(all.len() as int) == all);
    (kept, dropped)
}

/// The events that carry meaning.
pub open spec fn meaningful(events: Seq<Event>) -> Seq<Event>
    decreases events.len(),
{
    if events.len() == 0 {
        Seq::empty()
    } else if events.last()@.kind.droppable() {
        meaningful(events.drop_last())
    } else {
        meaningful(events.drop_last()).push(events.last())
    }
}

/// Under pressure every event that carries meaning survives, in order, and while there is room
/// everything does. Something is dropped only where as many events as there is room for are kept.
pub proof fn meaning_survives_pressure(events: Seq<Event>, capacity: nat)
    ensures
        meaningful(surviving(events, capacity)) == meaningful(events),
        events.len() <= capacity ==> surviving(events, capacity) == events,
        surviving(events, capacity).len() < events.len() ==> surviving(events, capacity).len()
            >= capacity,
    decreases events.len(),
{
    if events.len() > 0 {
        meaning_survives_pressure(events.drop_last(), capacity);
        let before = surviving(events.drop_last(), capacity);
        assert(before.push(events.last()).drop_last() == before);
    }
    if events.len() <= capacity {
        all_survive_with_room(events, capacity);
    }
    none_are_added(events, capacity);
}

/// What a child can do follows from its own grants. Untrusted input reaches it exactly where it
/// reached the parent and the child inherits anything.
pub proof fn a_child_is_as_exposed_as_what_it_inherits(
    grants: Seq<CapabilityView>,
    parent: SessionPowers,
    inheritance: Inheritance,
)
    ensures
        child_powers(grants, parent, inheritance).untrusted_input <==> parent.untrusted_input && !(
        inheritance is Nothing),
        child_powers(grants, parent, inheritance).confidential_access == powers_of(
            grants,
            false,
        ).confidential_access,
        child_powers(grants, parent, inheritance).mutating_egress == powers_of(
            grants,
            false,
        ).mutating_egress,
{
}

/// Only pieces of text and of reasoning that are still coming in can be given up.
pub proof fn only_deltas_can_be_given_up(kind: EventKind)
    ensures
        kind@.droppable() <==> match kind {
            EventKind::TextDelta { .. } | EventKind::ReasoningDelta { .. } => true,
            _ => false,
        },
{
}

} // verus!
