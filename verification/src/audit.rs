//! The audit trail of the two operations that move against the label lattice.

use vstd::prelude::*;

use crate::text::{dec, push_decimal};

verus! {

/// A place in the source.
#[derive(Debug, Clone, Copy, PartialEq, Eq)]
pub struct CallSite {
    /// Which file.
    pub file: &'static str,
    /// Which line.
    pub line: u32,
}

impl CallSite {
    /// The place as it is shown.
    #[must_use]
    pub fn to_string(&self) -> (r: String)
        ensures
            r@ == self.file@ + ":"@ + dec(self.line as nat),
    {
        let mut s = self.file.to_owned();
        s.push_str(":");
        push_decimal(&mut s, self.line as u64);
        s
    }
}

/// Something that must not happen unseen.
#[derive(Debug, PartialEq, Eq)]
#[non_exhaustive]
pub enum AuditEvent {
    /// Integrity was raised.
    Endorsed {
        /// Where in the source.
        site: CallSite,
        /// On whose word.
        reason: Endorsement,
        /// Where the value came from.
        origin: String,
    },
    /// Confidentiality was lowered.
    Declassified {
        /// Where in the source.
        site: CallSite,
        /// On whose word.
        reason: Declassification,
        /// Where the value came from.
        origin: String,
    },
}

/// Why a value's integrity was raised.
#[derive(Debug, PartialEq, Eq)]
#[non_exhaustive]
pub enum Endorsement {
    /// A human looked at it.
    HumanApproved(String),
    /// A parser accepted it.
    Parsed {
        /// Which parser.
        validator: &'static str,
    },
    /// A policy rule allowed it.
    PolicyAllowed {
        /// Which rule.
        rule: &'static str,
    },
    /// The operator vouched for it.
    OperatorAsserted(&'static str),
}

/// Why a value's confidentiality was lowered.
#[derive(Debug, PartialEq, Eq)]
#[non_exhaustive]
pub enum Declassification {
    /// A human looked at it.
    HumanApproved(String),
    /// What was secret was taken out.
    Redacted {
        /// By what.
        redactor: &'static str,
    },
    /// A policy rule allowed it.
    PolicyAllowed {
        /// Which rule.
        rule: &'static str,
    },
    /// The operator vouched for it.
    OperatorAsserted(&'static str),
}

impl Clone for Endorsement {
    fn clone(&self) -> (r: Self)
        ensures
            r == *self,
    {
        match self {
            Endorsement::HumanApproved(by) => Endorsement::HumanApproved(by.clone()),
            Endorsement::Parsed { validator } => Endorsement::Parsed { validator: *validator },
            Endorsement::PolicyAllowed { rule } => Endorsement::PolicyAllowed { rule: *rule },
            Endorsement::OperatorAsserted(why) => Endorsement::OperatorAsserted(*why),
        }
    }
}

impl Clone for Declassification {
    fn clone(&self) -> (r: Self)
        ensures
            r == *self,
    {
        match self {
            Declassification::HumanApproved(by) => Declassification::HumanApproved(by.clone()),
            Declassification::Redacted { redactor } => Declassification::Redacted {
                redactor: *redactor,
            },
            Declassification::PolicyAllowed { rule } => Declassification::PolicyAllowed {
                rule: *rule,
            },
            Declassification::OperatorAsserted(why) => Declassification::OperatorAsserted(*why),
        }
    }
}

impl Clone for AuditEvent {
    fn clone(&self) -> (r: Self)
        ensures
            r == *self,
    {
        match self {
            AuditEvent::Endorsed { site, reason, origin } => AuditEvent::Endorsed {
                site: *site,
                reason: reason.clone(),
                origin: origin.clone(),
            },
            AuditEvent::Declassified { site, reason, origin } => AuditEvent::Declassified {
                site: *site,
                reason: reason.clone(),
                origin: origin.clone(),
            },
        }
    }
}

/// A sink that throws events away.
#[derive(Debug, Clone, Copy, PartialEq, Eq)]
pub struct NullSink;

/// A sink that keeps every event, in the order in which they came.
#[derive(Debug, PartialEq, Eq)]
pub struct MemorySink {
    events: Vec<AuditEvent>,
}

impl View for MemorySink {
    type V = Seq<AuditEvent>;

    closed spec fn view(&self) -> Seq<AuditEvent> {
        self.events@
    }
}

impl Default for MemorySink {
    fn default() -> (r: Self)
        ensures
            r@ == Seq::<AuditEvent>::empty(),
    {
        MemorySink { events: Vec::new() }
    }
}

impl MemorySink {
    /// A sink that has kept nothing yet.
    #[must_use]
    pub fn new() -> (r: Self)
        ensures
            r@ == Seq::<AuditEvent>::empty(),
    {
        MemorySink { events: Vec::new() }
    }

    /// Keep an event.
    pub fn record(&mut self, event: AuditEvent)
        ensures
            final(self)@ == old(self)@.push(event),
    {
        self.events.push(event);
    }

    /// Every event so far, in order.
    #[must_use]
    pub fn events(&self) -> (r: Vec<AuditEvent>)
        ensures
            r@ == self@,
    {
        let mut out: Vec<AuditEvent> = Vec::new();
        let mut i: usize = 0;
        while i < self.events.len()
            invariant
                i <= self.events@.len(),
                out@ == self.events@.take(i as int),
            decreases self.events@.len() - i,
        {
            out.push(self.events[i].clone());
            assert(out@ == self.events@.take(i + 1));
            i = i + 1;
        }
        assert(self.events@.take(self.events@.len() as int) == self.events@);
        out
    }

    /// How many events there are.
    #[must_use]
    pub fn len(&self) -> (r: usize)
        ensures
            r == self@.len(),
    {
        self.events.len()
    }

    /// Whether there are none.
    #[must_use]
    pub fn is_empty(&self) -> (r: bool)
        ensures
            r == (self@.len() == 0),
    {
        self.events.len() == 0
    }
}

/// Which sinks are in place: one for the process, which nothing can replace, and one for the scope
/// that is running, which goes before it.
#[derive(Debug, PartialEq, Eq)]
pub struct Sinks<S> {
    /// The sink of the process.
    pub global: Option<S>,
    /// The sink of the scope.
    pub local: Option<S>,
}

/// What a scope puts back when it ends.
#[derive(Debug, PartialEq, Eq)]
pub struct SinkGuard<S> {
    /// The sink that was in place before.
    pub previous: Option<S>,
}

impl<S> Sinks<S> {
    /// No sink at all.
    #[must_use]
    pub fn none() -> (r: Self)
        ensures
            r.global is None,
            r.local is None,
    {
        Sinks { global: None, local: None }
    }

    /// The sink that an event goes to now.
    pub open spec fn receiver_view(self) -> Option<S> {
        match self.local {
            Some(s) => Some(s),
            None => self.global,
        }
    }

    /// The sink that an event goes to now: that of the scope, else that of the process.
    #[must_use]
    pub fn receiver(&self) -> (r: Option<&S>)
        ensures
            match r {
                Some(s) => self.receiver_view() == Some(*s),
                None => self.receiver_view() is None,
            },
    {
        match &self.local {
            Some(s) => Some(s),
            None => match &self.global {
                Some(s) => Some(s),
                None => None,
            },
        }
    }

    /// Put the sink of the process in place. Only the first call takes effect; a later one gets its
    /// sink back.
    pub fn set_global_sink(&mut self, sink: S) -> (r: Result<(), S>)
        ensures
            final(self).local == old(self).local,
            match r {
                Ok(_) => old(self).global is None && final(self).global == Some(sink),
                Err(s) => old(self).global is Some && final(self).global == old(self).global && s
                    == sink,
            },
    {
        match &self.global {
            Some(_) => Err(sink),
            None => {
                self.global = Some(sink);
                Ok(())
            },
        }
    }

    /// Put a sink in place for a scope. The guard is handed back when the scope ends.
    pub fn scoped_sink(&mut self, sink: S) -> (r: SinkGuard<S>)
        ensures
            final(self).global == old(self).global,
            final(self).local == Some(sink),
            r.previous == old(self).local,
    {
        let mut previous = Some(sink);
        std::mem::swap(&mut previous, &mut self.local);
        SinkGuard { previous }
    }

    /// End a scope.
    pub fn restore(&mut self, guard: SinkGuard<S>)
        ensures
            final(self).global == old(self).global,
            final(self).local == guard.previous,
    {
        self.local = guard.previous;
    }
}

/// While a scope runs its events go to its own sink, and when it ends everything is as it was.
pub proof fn a_scope_captures_and_restores<S>(
    before: Sinks<S>,
    sink: S,
    guard: SinkGuard<S>,
    inside: Sinks<S>,
    after: Sinks<S>,
)
    requires
        inside.global == before.global && inside.local == Some(sink),
        guard.previous == before.local,
        after.global == inside.global && after.local == guard.previous,
    ensures
        inside.receiver_view() == Some(sink),
        after == before,
{
}

/// An event goes to the scope's own sink where there is one, and to the process's otherwise.
pub proof fn the_nearest_sink_receives<S>(sinks: Sinks<S>)
    ensures
        sinks.local is Some ==> sinks.receiver_view() == sinks.local,
        sinks.local is None ==> sinks.receiver_view() == sinks.global,
{
}

} // verus!
