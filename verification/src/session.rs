//! Sessions and surfaces.
//!
//! The journal is the session: there is no second copy of the state that could drift from it. The
//! powers of a session persist too.

use vstd::prelude::*;

use crate::capability::{grant_views, powers_of, GrantSet, SessionPowers};
use crate::error::Risk;
use crate::ids::{RunId, SessionId};
use crate::journal::{empty_journal, Journal};

verus! {

/// Where a harness surfaces its events.
#[derive(Debug, Clone, Copy, PartialEq, Eq, Structural)]
#[non_exhaustive]
pub enum Surface {
    /// A terminal.
    Cli,
    /// An event stream for a frontend.
    AgUi,
    /// The harness itself is an agent that peers call.
    A2a,
    /// The harness exposes its toolset to remote clients.
    Mcp,
    /// No interaction: CI, cron, a queue worker.
    Headless,
}

impl Surface {
    /// Whether a human is present to answer a question.
    #[must_use]
    pub fn is_interactive(self) -> (r: bool)
        ensures
            r == (self is Cli || self is AgUi),
    {
        matches!(self, Surface::Cli | Surface::AgUi)
    }
}

/// When approval is required.
#[derive(Debug, Clone, Copy, PartialEq, Eq, Structural)]
#[non_exhaustive]
pub enum ApprovalPolicy {
    /// Ask a human at or above this risk.
    Interactive {
        /// The threshold.
        at_or_above: Risk,
    },
    /// Never ask; the grant set is the boundary.
    AutoAllow,
    /// Refuse anything that would need approval.
    DenyAll,
}

impl ApprovalPolicy {
    /// Whether this policy needs a human to be present.
    #[must_use]
    pub fn needs_a_human(self) -> (r: bool)
        ensures
            r == (self is Interactive),
    {
        matches!(self, ApprovalPolicy::Interactive { .. })
    }
}

/// A harness was configured in a way that cannot work.
#[derive(Debug, Clone, PartialEq, Eq)]
#[non_exhaustive]
pub enum HarnessError {
    /// Nobody is there to answer.
    NoOneToAsk,
}

impl HarnessError {
    /// The error in words.
    pub fn to_string(&self) -> (r: String)
        ensures
            r@
                == "a headless surface cannot use an interactive approval policy: the run would stop at the first gated action and wait for a human who is not there. Choose auto_allow with a narrower grant set, or deny_all."@,
    {
        "a headless surface cannot use an interactive approval policy: the run would stop at the first gated action and wait for a human who is not there. Choose auto_allow with a narrower grant set, or deny_all.".to_owned()
    }
}

/// One conversation, possibly spanning several runs.
#[derive(Debug)]
pub struct Session {
    /// Which session.
    pub id: SessionId,
    /// The record. This is the state.
    pub journal: Journal,
    /// What it may do.
    pub grants: GrantSet,
    /// Its powers, for the Rule of Two.
    pub powers: SessionPowers,
}

impl Session {
    /// A new session.
    #[must_use]
    pub fn new(id: SessionId, grants: GrantSet) -> (r: Self)
        ensures
            r.id == id,
            r.journal@ == empty_journal(id@ + "-run"@),
            r.grants == grants,
            r.powers == powers_of(grants@, false),
    {
        let powers = SessionPowers::from_grants(&grants);
        let mut run = id.as_str().to_owned();
        run.push_str("-run");
        Session { journal: Journal::new(RunId::new(run.as_str())), id, grants, powers }
    }

    /// Branch this session, sharing everything recorded so far. Powers carry across: a branch of a
    /// session that saw untrusted input has still seen it.
    #[must_use]
    pub fn fork(&self, id: SessionId) -> (r: Self)
        ensures
            r.id == id,
            r.journal@ == self.journal@,
            r.grants@ == self.grants@,
            grant_views(r.grants.list()) == grant_views(self.grants.list()),
            r.powers == self.powers,
    {
        Session {
            journal: self.journal.clone(),
            id,
            grants: self.grants.clone(),
            powers: self.powers,
        }
    }

    /// Note that this session has seen content that the operator did not author.
    pub fn observed_untrusted_input(&mut self)
        ensures
            final(self).powers == (SessionPowers { untrusted_input: true, ..old(self).powers }),
            final(self).id == old(self).id,
            final(self).journal == old(self).journal,
            final(self).grants == old(self).grants,
    {
        self.powers = self.powers.observed_untrusted_input();
    }

    /// How many recorded steps this session could replay.
    #[must_use]
    pub fn replayable_steps(&self) -> (r: usize)
        ensures
            r == self.journal@.entries.len(),
    {
        self.journal.len()
    }
}

/// Check a harness configuration before anything runs. A surface with nobody at it cannot use an
/// approval policy that asks.
pub fn validate(surface: Surface, approvals: ApprovalPolicy) -> (r: Result<(), HarnessError>)
    ensures
        r == (if !(surface is Cli || surface is AgUi) && approvals is Interactive {
            Err::<(), HarnessError>(HarnessError::NoOneToAsk)
        } else {
            Ok::<(), HarnessError>(())
        }),
{
    if !surface.is_interactive() && approvals.needs_a_human() {
        return Err(HarnessError::NoOneToAsk);
    }
    Ok(())
}

} // verus!
