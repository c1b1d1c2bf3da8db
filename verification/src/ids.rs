//! Identifiers.
//!
//! Every id is a type of its own, and none is random: counters follow the journal's sequence, so a
//! replayed run has the ids of the recorded one.

use vstd::prelude::*;

use crate::text::{dec, push_decimal, same_text, group_mentions, mentions};

verus! {

/// Identifies one agent run.
#[derive(Debug, PartialEq, Eq, Hash, PartialOrd, Ord)]
pub struct RunId(String);

impl View for RunId {
    type V = Seq<char>;

    closed spec fn view(&self) -> Seq<char> {
        self.0@
    }
}

impl Clone for RunId {
    fn clone(&self) -> (r: Self)
        ensures
            r == *self,
    {
        RunId(self.0.clone())
    }
}

impl RunId {
    /// Wrap a text as this id.
    pub fn new(value: &str) -> (r: Self)
        ensures
            r@ == value@,
    {
        RunId(value.to_owned())
    }

    /// The underlying text.
    #[must_use]
    pub fn as_str(&self) -> (r: &str)
        ensures
            r@ == self@,
    {
        self.0.as_str()
    }

    /// The id as it is shown.
    #[must_use]
    pub fn to_string(&self) -> (r: String)
        ensures
            r@ == self@,
    {
        self.0.clone()
    }
}

/// Identifies a conversation that may span several runs. Maps to A2A's `contextId`.
#[derive(Debug, PartialEq, Eq, Hash, PartialOrd, Ord)]
pub struct SessionId(String);

impl View for SessionId {
    type V = Seq<char>;

    closed spec fn view(&self) -> Seq<char> {
        self.0@
    }
}

impl Clone for SessionId {
    fn clone(&self) -> (r: Self)
        ensures
            r == *self,
    {
        SessionId(self.0.clone())
    }
}

impl SessionId {
    /// Wrap a text as this id.
    pub fn new(value: &str) -> (r: Self)
        ensures
            r@ == value@,
    {
        SessionId(value.to_owned())
    }

    /// The underlying text.
    #[must_use]
    pub fn as_str(&self) -> (r: &str)
        ensures
            r@ == self@,
    {
        self.0.as_str()
    }

    /// The id as it is shown.
    #[must_use]
    pub fn to_string(&self) -> (r: String)
        ensures
            r@ == self@,
    {
        self.0.clone()
    }
}

/// A provider-supplied tool-call correlation id.
#[derive(Debug, PartialEq, Eq, Hash, PartialOrd, Ord)]
pub struct CallId(String);

impl View for CallId {
    type V = Seq<char>;

    closed spec fn view(&self) -> Seq<char> {
        self.0@
    }
}

impl Clone for CallId {
    fn clone(&self) -> (r: Self)
        ensures
            r == *self,
    {
        CallId(self.0.clone())
    }
}

impl CallId {
    /// Wrap a text as this id.
    pub fn new(value: &str) -> (r: Self)
        ensures
            r@ == value@,
    {
        CallId(value.to_owned())
    }

    /// The underlying text.
    #[must_use]
    pub fn as_str(&self) -> (r: &str)
        ensures
            r@ == self@,
    {
        self.0.as_str()
    }

    /// The id as it is shown.
    #[must_use]
    pub fn to_string(&self) -> (r: String)
        ensures
            r@ == self@,
    {
        self.0.clone()
    }
}

/// The name a tool is presented under, after namespacing.
#[derive(Debug, PartialEq, Eq, Hash, PartialOrd, Ord)]
pub struct ToolName(String);

impl View for ToolName {
    type V = Seq<char>;

    closed spec fn view(&self) -> Seq<char> {
        self.0@
    }
}

impl Clone for ToolName {
    fn clone(&self) -> (r: Self)
        ensures
            r == *self,
    {
        ToolName(self.0.clone())
    }
}

impl ToolName {
    /// Wrap a text as this id.
    pub fn new(value: &str) -> (r: Self)
        ensures
            r@ == value@,
    {
        ToolName(value.to_owned())
    }

    /// The underlying text.
    #[must_use]
    pub fn as_str(&self) -> (r: &str)
        ensures
            r@ == self@,
    {
        self.0.as_str()
    }

    /// The id as it is shown.
    #[must_use]
    pub fn to_string(&self) -> (r: String)
        ensures
            r@ == self@,
    {
        self.0.clone()
    }
}

/// Identifies a provider adapter, for example `anthropic` or a config-defined name.
#[derive(Debug, PartialEq, Eq, Hash, PartialOrd, Ord)]
pub struct ProviderId(String);

impl View for ProviderId {
    type V = Seq<char>;

    closed spec fn view(&self) -> Seq<char> {
        self.0@
    }
}

impl Clone for ProviderId {
    fn clone(&self) -> (r: Self)
        ensures
            r == *self,
    {
        ProviderId(self.0.clone())
    }
}

impl ProviderId {
    /// Wrap a text as this id.
    pub fn new(value: &str) -> (r: Self)
        ensures
            r@ == value@,
    {
        ProviderId(value.to_owned())
    }

    /// The underlying text.
    #[must_use]
    pub fn as_str(&self) -> (r: &str)
        ensures
            r@ == self@,
    {
        self.0.as_str()
    }

    /// The id as it is shown.
    #[must_use]
    pub fn to_string(&self) -> (r: String)
        ensures
            r@ == self@,
    {
        self.0.clone()
    }
}

/// A model identifier as the provider spells it.
#[derive(Debug, PartialEq, Eq, Hash, PartialOrd, Ord)]
pub struct ModelId(String);

impl View for ModelId {
    type V = Seq<char>;

    closed spec fn view(&self) -> Seq<char> {
        self.0@
    }
}

impl Clone for ModelId {
    fn clone(&self) -> (r: Self)
        ensures
            r == *self,
    {
        ModelId(self.0.clone())
    }
}

impl ModelId {
    /// Wrap a text as this id.
    pub fn new(value: &str) -> (r: Self)
        ensures
            r@ == value@,
    {
        ModelId(value.to_owned())
    }

    /// The underlying text.
    #[must_use]
    pub fn as_str(&self) -> (r: &str)
        ensures
            r@ == self@,
    {
        self.0.as_str()
    }

    /// The id as it is shown.
    #[must_use]
    pub fn to_string(&self) -> (r: String)
        ensures
            r@ == self@,
    {
        self.0.clone()
    }
}

/// Identifies a configured MCP server.
#[derive(Debug, PartialEq, Eq, Hash, PartialOrd, Ord)]
pub struct ServerId(String);

impl View for ServerId {
    type V = Seq<char>;

    closed spec fn view(&self) -> Seq<char> {
        self.0@
    }
}

impl Clone for ServerId {
    fn clone(&self) -> (r: Self)
        ensures
            r == *self,
    {
        ServerId(self.0.clone())
    }
}

impl ServerId {
    /// Wrap a text as this id.
    pub fn new(value: &str) -> (r: Self)
        ensures
            r@ == value@,
    {
        ServerId(value.to_owned())
    }

    /// The underlying text.
    #[must_use]
    pub fn as_str(&self) -> (r: &str)
        ensures
            r@ == self@,
    {
        self.0.as_str()
    }

    /// The id as it is shown.
    #[must_use]
    pub fn to_string(&self) -> (r: String)
        ensures
            r@ == self@,
    {
        self.0.clone()
    }
}

/// Identifies a sub-agent, delegated agent, or A2A peer.
#[derive(Debug, PartialEq, Eq, Hash, PartialOrd, Ord)]
pub struct AgentId(String);

impl View for AgentId {
    type V = Seq<char>;

    closed spec fn view(&self) -> Seq<char> {
        self.0@
    }
}

impl Clone for AgentId {
    fn clone(&self) -> (r: Self)
        ensures
            r == *self,
    {
        AgentId(self.0.clone())
    }
}

impl AgentId {
    /// Wrap a text as this id.
    pub fn new(value: &str) -> (r: Self)
        ensures
            r@ == value@,
    {
        AgentId(value.to_owned())
    }

    /// The underlying text.
    #[must_use]
    pub fn as_str(&self) -> (r: &str)
        ensures
            r@ == self@,
    {
        self.0.as_str()
    }

    /// The id as it is shown.
    #[must_use]
    pub fn to_string(&self) -> (r: String)
        ensures
            r@ == self@,
    {
        self.0.clone()
    }
}

/// Identifies a skill.
#[derive(Debug, PartialEq, Eq, Hash, PartialOrd, Ord)]
pub struct SkillId(String);

impl View for SkillId {
    type V = Seq<char>;

    closed spec fn view(&self) -> Seq<char> {
        self.0@
    }
}

impl Clone for SkillId {
    fn clone(&self) -> (r: Self)
        ensures
            r == *self,
    {
        SkillId(self.0.clone())
    }
}

impl SkillId {
    /// Wrap a text as this id.
    pub fn new(value: &str) -> (r: Self)
        ensures
            r@ == value@,
    {
        SkillId(value.to_owned())
    }

    /// The underlying text.
    #[must_use]
    pub fn as_str(&self) -> (r: &str)
        ensures
            r@ == self@,
    {
        self.0.as_str()
    }

    /// The id as it is shown.
    #[must_use]
    pub fn to_string(&self) -> (r: String)
        ensures
            r@ == self@,
    {
        self.0.clone()
    }
}

/// A turn within a run.
#[derive(Debug, Clone, Copy, PartialEq, Eq, Hash, PartialOrd, Ord, Structural)]
pub struct TurnId(pub u32);

impl TurnId {
    /// The first id in a sequence.
    #[must_use]
    pub fn first() -> (r: Self)
        ensures
            r.0 == 0,
    {
        TurnId(0)
    }

    /// The next id in the sequence.
    #[must_use]
    pub fn next(self) -> (r: Self)
        requires
            self.0 < u32::MAX,
        ensures
            r.0 == self.0 + 1,
    {
        TurnId(self.0 + 1)
    }

    /// The raw index.
    #[must_use]
    pub fn index(self) -> (r: u32)
        ensures
            r == self.0,
    {
        self.0
    }

    /// The id as it is shown.
    #[must_use]
    pub fn to_string(&self) -> (r: String)
        ensures
            r@ == "turn-"@ + dec(self.0 as nat),
    {
        let mut s = "turn-".to_owned();
        push_decimal(&mut s, self.0 as u64);
        s
    }
}

/// A segment within a rendered prompt.
#[derive(Debug, Clone, Copy, PartialEq, Eq, Hash, PartialOrd, Ord, Structural)]
pub struct SegmentId(pub u32);

impl SegmentId {
    /// The first id in a sequence.
    #[must_use]
    pub fn first() -> (r: Self)
        ensures
            r.0 == 0,
    {
        SegmentId(0)
    }

    /// The next id in the sequence.
    #[must_use]
    pub fn next(self) -> (r: Self)
        requires
            self.0 < u32::MAX,
        ensures
            r.0 == self.0 + 1,
    {
        SegmentId(self.0 + 1)
    }

    /// The raw index.
    #[must_use]
    pub fn index(self) -> (r: u32)
        ensures
            r == self.0,
    {
        self.0
    }

    /// The id as it is shown.
    #[must_use]
    pub fn to_string(&self) -> (r: String)
        ensures
            r@ == "seg-"@ + dec(self.0 as nat),
    {
        let mut s = "seg-".to_owned();
        push_decimal(&mut s, self.0 as u64);
        s
    }
}

/// A position in the run journal. The source of determinism for replay.
#[derive(Debug, Clone, Copy, PartialEq, Eq, Hash, PartialOrd, Ord, Structural)]
pub struct SeqId(pub u32);

impl SeqId {
    /// The first id in a sequence.
    #[must_use]
    pub fn first() -> (r: Self)
        ensures
            r.0 == 0,
    {
        SeqId(0)
    }

    /// The next id in the sequence.
    #[must_use]
    pub fn next(self) -> (r: Self)
        requires
            self.0 < u32::MAX,
        ensures
            r.0 == self.0 + 1,
    {
        SeqId(self.0 + 1)
    }

    /// The raw index.
    #[must_use]
    pub fn index(self) -> (r: u32)
        ensures
            r == self.0,
    {
        self.0
    }

    /// The id as it is shown.
    #[must_use]
    pub fn to_string(&self) -> (r: String)
        ensures
            r@ == "seq-"@ + dec(self.0 as nat),
    {
        let mut s = "seq-".to_owned();
        push_decimal(&mut s, self.0 as u64);
        s
    }
}

/// Where an agent sits in the run tree, for example `root/researcher/fetcher`.
#[derive(Debug, PartialEq, Eq, Hash, PartialOrd, Ord)]
pub struct AgentPath(Vec<AgentId>);

/// The texts of a list of agent ids.
pub open spec fn agent_texts(ids: Seq<AgentId>) -> Seq<Seq<char>> {
    Seq::new(ids.len(), |i: int| ids[i]@)
}

/// How a path is shown: `root`, then a slash and an id for each step.
pub open spec fn path_text(path: Seq<Seq<char>>) -> Seq<char>
    decreases path.len(),
{
    if path.len() == 0 {
        "root"@
    } else {
        path_text(path.drop_last()) + "/"@ + path.last()
    }
}

impl View for AgentPath {
    type V = Seq<Seq<char>>;

    closed spec fn view(&self) -> Seq<Seq<char>> {
        agent_texts(self.0@)
    }
}

impl Default for AgentPath {
    fn default() -> (r: Self)
        ensures
            r@ == Seq::<Seq<char>>::empty(),
    {
        AgentPath::root()
    }
}

impl Clone for AgentPath {
    fn clone(&self) -> (r: Self)
        ensures
            r@ == self@,
    {
        AgentPath(copy_ids(&self.0, self.0.len()))
    }
}

fn copy_ids(ids: &Vec<AgentId>, n: usize) -> (r: Vec<AgentId>)
    requires
        n <= ids@.len(),
    ensures
        r@ == ids@.take(n as int),
{
    let mut out: Vec<AgentId> = Vec::new();
    let mut i: usize = 0;
    while i < n
        invariant
            i <= n <= ids@.len(),
            out@ == ids@.take(i as int),
        decreases n - i,
    {
        out.push(ids[i].clone());
        i = i + 1;
    }
    out
}

impl AgentPath {
    /// The path of the root agent: empty.
    #[must_use]
    pub fn root() -> (r: Self)
        ensures
            r@ == Seq::<Seq<char>>::empty(),
    {
        AgentPath(Vec::new())
    }

    /// The path of a child of this agent.
    #[must_use]
    pub fn child(&self, id: AgentId) -> (r: Self)
        ensures
            r@ == self@.push(id@),
    {
        let mut next = copy_ids(&self.0, self.0.len());
        next.push(id);
        AgentPath(next)
    }

    /// How deep this agent is. The root is 0.
    #[must_use]
    pub fn depth(&self) -> (r: usize)
        ensures
            r == self@.len(),
    {
        self.0.len()
    }

    /// Whether this path is the root.
    #[must_use]
    pub fn is_root(&self) -> (r: bool)
        ensures
            r == (self@.len() == 0),
    {
        self.0.is_empty()
    }

    /// The path of this agent's parent, or `None` at the root.
    #[must_use]
    pub fn parent(&self) -> (r: Option<Self>)
        ensures
            r is None <==> self@.len() == 0,
            r matches Some(p) ==> p@ == self@.drop_last(),
    {
        if self.0.is_empty() {
            None
        } else {
            Some(AgentPath(copy_ids(&self.0, self.0.len() - 1)))
        }
    }

    /// Whether `self` is `other` or one of its ancestors.
    #[must_use]
    pub fn is_ancestor_of(&self, other: &Self) -> (r: bool)
        ensures
            r == self@.is_prefix_of(other@),
    {
        if other.0.len() < self.0.len() {
            return false;
        }
        let mut i: usize = 0;
        while i < self.0.len()
            invariant
                i <= self.0@.len() <= other.0@.len(),
                forall|j: int| 0 <= j < i ==> self@[j] == other@[j],
            decreases self.0@.len() - i,
        {
            if !same_text(self.0[i].as_str(), other.0[i].as_str()) {
                assert(self@[i as int] != other@[i as int]);
                return false;
            }
            i = i + 1;
        }
        assert(self@ == other@.subrange(0, self@.len() as int));
        true
    }

    /// The agent ids, root first.
    #[must_use]
    pub fn segments(&self) -> (r: &[AgentId])
        ensures
            agent_texts(r@) == self@,
    {
        self.0.as_slice()
    }

    /// The path as it is shown.
    #[must_use]
    pub fn to_string(&self) -> (r: String)
        ensures
            r@ == path_text(self@),
    {
        let mut s = "root".to_owned();
        let mut i: usize = 0;
        while i < self.0.len()
            invariant
                i <= self.0@.len(),
                s@ == path_text(self@.take(i as int)),
            decreases self.0@.len() - i,
        {
            s.push_str("/");
            s.push_str(self.0[i].as_str());
            proof {
                let next = self@.take(i + 1);
                assert(next.drop_last() == self@.take(i as int));
                assert(next.last() == self@[i as int]);
            }
            i = i + 1;
        }
        assert(self@.take(self@.len() as int) == self@);
        s
    }
}

/// A child sits one level below its agent, and its parent is that agent.
pub proof fn a_childs_parent_is_the_agent(path: Seq<Seq<char>>, id: Seq<char>)
    ensures
        path.push(id).drop_last() == path,
        path.push(id).len() == path.len() + 1,
        path.is_prefix_of(path.push(id)),
{
}

/// Ancestry is reflexive and transitive, and the root is an ancestor of every agent.
pub proof fn ancestry_is_a_partial_order(a: Seq<Seq<char>>, b: Seq<Seq<char>>, c: Seq<Seq<char>>)
    ensures
        a.is_prefix_of(a),
        a.is_prefix_of(b) && b.is_prefix_of(c) ==> a.is_prefix_of(c),
        a.is_prefix_of(b) && b.is_prefix_of(a) ==> a == b,
        Seq::<Seq<char>>::empty().is_prefix_of(a),
{
    if a.is_prefix_of(b) && b.is_prefix_of(c) {
        assert(a == c.subrange(0, a.len() as int));
    }
}

/// The text of a path begins at the root and names every agent on the way.
pub proof fn a_path_names_every_agent(path: Seq<Seq<char>>, i: int)
    requires
        0 <= i < path.len(),
    ensures
        mentions(path_text(path), path[i]),
        mentions(path_text(path), "root"@),
        path_text(path).take("root"@.len() as int) == "root"@,
        path_text(path).len() > path_text(path.drop_last()).len(),
    decreases path.len(),
{
    broadcast use group_mentions;

    reveal_strlit("/");
    reveal_strlit("root");
    let less = path.drop_last();
    if less.len() > 0 {
        a_path_names_every_agent(less, if i < less.len() { i } else { 0 });
        assert(path_text(path).take(4) == path_text(less).take(4)) by {
            assert(path_text(less).len() >= 4) by {
                path_texts_begin_at_the_root(less);
            }
        }
    } else {
        assert(path_text(path).take(4) == "root"@);
    }
}

proof fn path_texts_begin_at_the_root(path: Seq<Seq<char>>)
    ensures
        path_text(path).len() >= "root"@.len(),
    decreases path.len(),
{
    if path.len() > 0 {
        path_texts_begin_at_the_root(path.drop_last());
    }
}

} // verus!
