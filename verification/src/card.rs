//! Agent cards: how peers find and describe each other.
//!
//! A card's text is written by the party it describes. A signature proves who wrote it, not that
//! any of it is true, so card text reaches a prompt labelled, signed or not.

use vstd::prelude::*;

use crate::taint::{Provenance, ProvenanceView, Tainted, Untrusted};
use crate::text::{no_text, same_text, group_mentions, mentions};

verus! {

/// Where a card lives.
pub const WELL_KNOWN_PATH: &'static str = "/.well-known/agent-card.json";

/// The revision spoken here.
pub const PROTOCOL_VERSION: &'static str = "1.0";

/// What an agent can do at the protocol level.
#[derive(Debug, Clone, Copy, PartialEq, Eq, Structural)]
pub struct Capabilities {
    /// Whether it can stream task updates.
    pub streaming: bool,
    /// Whether it can call a webhook when a task changes.
    pub push_notifications: bool,
    /// Whether an authenticated, fuller card is available.
    pub extended_agent_card: bool,
}

impl Default for Capabilities {
    fn default() -> (r: Self)
        ensures
            !r.streaming && !r.push_notifications && !r.extended_agent_card,
    {
        Capabilities { streaming: false, push_notifications: false, extended_agent_card: false }
    }
}

/// Something an agent says it can do.
#[derive(Debug, PartialEq, Eq)]
pub struct AgentSkill {
    /// Its identifier.
    pub id: String,
    /// Its name.
    pub name: String,
    /// What it is for. Written by the peer, so it is indexed but never obeyed.
    pub description: String,
}

impl Clone for AgentSkill {
    fn clone(&self) -> (r: Self)
        ensures
            r == *self,
    {
        AgentSkill {
            id: self.id.clone(),
            name: self.name.clone(),
            description: self.description.clone(),
        }
    }
}

/// How a card was authenticated.
#[derive(Debug, Clone, Copy, PartialEq, Eq, Structural)]
pub enum Signature {
    /// Signed, and the signature verified.
    Verified,
    /// Signed, and the signature did not verify. Worse than unsigned: someone tried.
    Invalid,
    /// Not signed.
    Absent,
}

impl Signature {
    /// Whether this card may be used at all. An invalid signature is refused; an absent one is
    /// permitted but attributed to nobody.
    #[must_use]
    pub fn is_usable(self) -> (r: bool)
        ensures
            r == !(self is Invalid),
    {
        !matches!(self, Signature::Invalid)
    }
}

/// What a peer says about itself.
#[derive(Debug, PartialEq, Eq)]
pub struct AgentCard {
    /// Its name.
    pub name: String,
    /// What it is. Peer-authored text.
    pub description: String,
    /// Who runs it.
    pub provider: Option<String>,
    /// Protocol capabilities.
    pub capabilities: Capabilities,
    /// What it says it can do.
    pub skills: Vec<AgentSkill>,
    /// Which protocol revision it speaks. Absent means `0.3`.
    pub protocol_version: Option<String>,
}

/// What some skills say, each with a space before its name and its description.
pub open spec fn skills_text(skills: Seq<AgentSkill>) -> Seq<char>
    decreases skills.len(),
{
    if skills.len() == 0 {
        Seq::empty()
    } else {
        skills_text(skills.drop_last()) + (seq![' '] + skills.last().name@ + seq![' ']
            + skills.last().description@)
    }
}

/// Everything a peer wrote about itself.
pub open spec fn card_text(card: AgentCard) -> Seq<char> {
    card.name@ + " "@ + card.description@ + skills_text(card.skills@)
}

/// Who a card's text is attributed to.
pub open spec fn attribution(name: Seq<char>, signature: Signature) -> Seq<char> {
    "peer-card:"@ + name + (match signature {
        Signature::Verified => "(verified)"@,
        Signature::Absent => "(unattributed)"@,
        Signature::Invalid => "(invalid-signature)"@,
    })
}

/// The revision a card speaks.
pub open spec fn version_of(card: AgentCard) -> Seq<char> {
    match card.protocol_version {
        Some(v) => v@,
        None => "0.3"@,
    }
}

impl AgentCard {
    /// The revision this peer speaks. A missing version means the older revision, not the latest.
    #[must_use]
    pub fn effective_version(&self) -> (r: &str)
        ensures
            r@ == version_of(*self),
    {
        match &self.protocol_version {
            Some(v) => v.as_str(),
            None => "0.3",
        }
    }

    /// Whether this peer speaks the revision spoken here.
    #[must_use]
    pub fn speaks_current_version(&self) -> (r: bool)
        ensures
            r == (version_of(*self) == PROTOCOL_VERSION@),
    {
        same_text(self.effective_version(), PROTOCOL_VERSION)
    }

    /// Everything the peer wrote about itself, labelled. A signature changes who is responsible for
    /// this text; it does not make the text trustworthy.
    #[must_use]
    pub fn describing_text(&self, signature: Signature) -> (r: Untrusted<String>)
        ensures
            r.inner()@ == card_text(*self),
            r.story() == ProvenanceView::straight(attribution(self.name@, signature)),
    {
        let mut text = self.name.clone();
        text.push_str(" ");
        text.push_str(self.description.as_str());
        let ghost lead = text@;
        let ghost all = self.skills@;
        let mut i: usize = 0;
        assert(lead + skills_text(all.take(0)) == lead);
        while i < self.skills.len()
            invariant
                i <= self.skills@.len(),
                all == self.skills@,
                text@ == lead + skills_text(all.take(i as int)),
            decreases self.skills@.len() - i,
        {
            assert(all.take(i + 1).drop_last() == all.take(i as int));
            assert(all.take(i + 1).last() == self.skills@[i as int]);
            let ghost before = text@;
            text.push(' ');
            text.push_str(self.skills[i].name.as_str());
            text.push(' ');
            text.push_str(self.skills[i].description.as_str());
            assert(text@ == before + (seq![' '] + all[i as int].name@ + seq![' ']
                + all[i as int].description@));
            assert(text@ == lead + skills_text(all.take(i + 1)));
            i = i + 1;
        }
        assert(all.take(all.len() as int) == all);
        let mut who = "peer-card:".to_owned();
        who.push_str(self.name.as_str());
        who.push_str(
            match signature {
                Signature::Verified => "(verified)",
                Signature::Absent => "(unattributed)",
                Signature::Invalid => "(invalid-signature)",
            },
        );
        Tainted::with_provenance(text, Provenance::new(who.as_str()))
    }

    /// Whether this card may be used.
    #[must_use]
    pub fn is_usable(&self, signature: Signature) -> (r: bool)
        ensures
            r == (!(signature is Invalid) && self.name@.len() > 0),
    {
        signature.is_usable() && !no_text(self.name.as_str())
    }
}

/// Build the card served for an agent. Registering a webhook would need approval, so it is not
/// advertised.
#[must_use]
pub fn card_for(name: &str, description: &str, skills: Vec<AgentSkill>) -> (r: AgentCard)
    ensures
        r.name@ == name@,
        r.description@ == description@,
        r.provider is None,
        r.capabilities == (Capabilities {
            streaming: true,
            push_notifications: false,
            extended_agent_card: false,
        }),
        r.skills == skills,
        r.protocol_version is Some,
        version_of(r) == PROTOCOL_VERSION@,
{
    AgentCard {
        name: name.to_owned(),
        description: description.to_owned(),
        provider: None,
        capabilities: Capabilities {
            streaming: true,
            push_notifications: false,
            extended_agent_card: false,
        },
        skills,
        protocol_version: Some(PROTOCOL_VERSION.to_owned()),
    }
}

/// The text of a card holds the agent's name and description, and those of every skill.
pub proof fn a_cards_text_holds_every_skill(card: AgentCard, i: int)
    ensures
        mentions(card_text(card), card.name@),
        mentions(card_text(card), card.description@),
        0 <= i < card.skills@.len() ==> mentions(card_text(card), card.skills@[i].name@) && mentions(
            card_text(card),
            card.skills@[i].description@,
        ),
{
    broadcast use group_mentions;

    if 0 <= i < card.skills@.len() {
        skills_are_told(card.skills@, i);
    }
}

proof fn skills_are_told(skills: Seq<AgentSkill>, i: int)
    requires
        0 <= i < skills.len(),
    ensures
        mentions(skills_text(skills), skills[i].name@),
        mentions(skills_text(skills), skills[i].description@),
    decreases skills.len(),
{
    broadcast use group_mentions;

    if i < skills.len() - 1 {
        skills_are_told(skills.drop_last(), i);
    }
}

/// A card is attributed to the agent it names, and whether its signature holds is told apart.
pub proof fn attribution_tells_signatures_apart(name: Seq<char>, a: Signature, b: Signature)
    ensures
        mentions(attribution(name, a), name),
        a != b ==> attribution(name, a) != attribution(name, b),
        a == Signature::Verified ==> mentions(attribution(name, a), "(verified)"@),
{
    broadcast use group_mentions;

    reveal_strlit("(verified)");
    reveal_strlit("(unattributed)");
    reveal_strlit("(invalid-signature)");
    assert("(verified)"@.len() == 10 && "(unattributed)"@.len() == 14
        && "(invalid-signature)"@.len() == 19);
}

} // verus!
