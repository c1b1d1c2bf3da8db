//! Calling tools and finding them: what goes into a call and what comes out of one.

use vstd::prelude::*;

use crate::capability::{permitted, Capability, GrantSet};
use crate::error::{copy_opt_json, opt_json};
use crate::ids::{CallId, RunId, SessionId, ToolName};
use crate::item::Caller;
use crate::json::{Json, JsonView};
use crate::taint::{Provenance, Untrusted};
use crate::text::{group_mentions, mentions};

verus! {

/// What a tool produces on success.
#[derive(Debug, PartialEq, Eq)]
pub struct ToolContent {
    /// The rendering the model sees.
    pub text: String,
    /// Machine-readable output, when the tool has an output schema.
    pub structured: Option<Json>,
    /// How many bytes were withheld. Non-zero obliges the caller to tell the model how to get the
    /// rest.
    pub bytes_elided: u64,
}

/// What a tool produced.
pub struct ToolContentView {
    pub text: Seq<char>,
    pub structured: Option<JsonView>,
    pub bytes_elided: u64,
}

impl View for ToolContent {
    type V = ToolContentView;

    open spec fn view(&self) -> ToolContentView {
        ToolContentView {
            text: self.text@,
            structured: opt_json(self.structured),
            bytes_elided: self.bytes_elided,
        }
    }
}

impl Clone for ToolContent {
    fn clone(&self) -> (r: Self)
        ensures
            r@ == self@,
    {
        ToolContent {
            text: self.text.clone(),
            structured: copy_opt_json(&self.structured),
            bytes_elided: self.bytes_elided,
        }
    }
}

impl ToolContent {
    /// Plain text output, complete.
    pub fn text(text: &str) -> (r: Self)
        ensures
            r@ == (ToolContentView { text: text@, structured: None, bytes_elided: 0 }),
    {
        ToolContent { text: text.to_owned(), structured: None, bytes_elided: 0 }
    }

    /// Attach machine-readable output.
    #[must_use]
    pub fn with_structured(self, value: Json) -> (r: Self)
        ensures
            r@ == (ToolContentView { structured: Some(value@), ..self@ }),
    {
        ToolContent { text: self.text, structured: Some(value), bytes_elided: self.bytes_elided }
    }

    /// Record that output was withheld.
    #[must_use]
    pub fn elided(self, bytes: u64) -> (r: Self)
        ensures
            r@ == (ToolContentView { bytes_elided: bytes, ..self@ }),
    {
        ToolContent { text: self.text, structured: self.structured, bytes_elided: bytes }
    }
}

/// A tool's result, labelled. The label is applied at the boundary and tool authors never write
/// one themselves.
pub type ToolValue = Untrusted<ToolContent>;

/// One request to run a tool.
#[derive(Debug)]
pub struct Invocation {
    /// Correlation id.
    pub id: CallId,
    /// Which tool.
    pub name: ToolName,
    /// The arguments the model produced. Unvalidated.
    pub args: Json,
    /// How the call was made.
    pub caller: Caller,
}

impl Clone for Invocation {
    fn clone(&self) -> (r: Self)
        ensures
            r.id == self.id,
            r.name == self.name,
            r.args@ == self.args@,
            r.caller == self.caller,
    {
        Invocation {
            id: self.id.clone(),
            name: self.name.clone(),
            args: self.args.copy(),
            caller: self.caller.clone(),
        }
    }
}

/// Everything a tool may know about the run it is part of.
#[derive(Debug)]
pub struct ToolCx {
    /// Which run.
    pub run: RunId,
    /// Which session.
    pub session: SessionId,
    /// What this tool is permitted to do.
    pub grants: GrantSet,
    /// Where results from this tool should say they came from.
    pub provenance: Provenance,
    /// Answers to a previous request for input, when this call is a retry.
    ///
    /// Absent on a first attempt. A tool that asked for input and is called again without answers
    /// should ask again: an absent answer is not a yes.
    pub resume: Option<Resume>,
}

/// Answers carried by a retry, plus the state the tool sealed for itself.
#[derive(Debug, PartialEq, Eq)]
pub struct Resume {
    /// What the tool sealed on the way out, returned untouched.
    pub state: Json,
    /// The answers, in the order the requests were made.
    pub answers: Vec<Json>,
}

impl ToolCx {
    /// Whether `capability` is granted.
    #[must_use]
    pub fn permits(&self, capability: &Capability) -> (r: bool)
        ensures
            r == permitted(self.grants@, capability@),
    {
        self.grants.permits(capability)
    }

    /// A context for a first attempt, with no resume payload.
    #[must_use]
    pub fn new(run: RunId, session: SessionId, grants: GrantSet, provenance: Provenance) -> (r: Self)
        ensures
            r.run == run,
            r.session == session,
            r.grants == grants,
            r.provenance == provenance,
            r.resume is None,
    {
        ToolCx { run, session, grants, provenance, resume: None }
    }

    /// The same context, carrying answers to an earlier request for input.
    #[must_use]
    pub fn resuming(self, resume: Resume) -> (r: Self)
        ensures
            r == (ToolCx { resume: Some(resume), ..self }),
    {
        ToolCx {
            run: self.run,
            session: self.session,
            grants: self.grants,
            provenance: self.provenance,
            resume: Some(resume),
        }
    }
}

/// What a toolset knows when deciding what to expose this step.
#[derive(Debug, PartialEq, Eq)]
pub struct StepCx {
    /// Which run.
    pub run: RunId,
    /// Which session.
    pub session: SessionId,
    /// What the agent is currently trying to do, for relevance scoring.
    pub task: String,
    /// Tokens still available for tool definitions.
    pub tokens_available: u32,
}

impl Clone for StepCx {
    fn clone(&self) -> (r: Self)
        ensures
            r == *self,
    {
        StepCx {
            run: self.run.clone(),
            session: self.session.clone(),
            task: self.task.clone(),
            tokens_available: self.tokens_available,
        }
    }
}

/// A toolset could not be consulted.
#[derive(Debug, PartialEq, Eq)]
#[non_exhaustive]
pub enum ToolsetError {
    /// The backing service was unreachable.
    Unavailable {
        /// Which toolset.
        name: String,
        /// Why.
        detail: String,
    },
    /// The toolset returned something unusable.
    Invalid {
        /// Which toolset.
        name: String,
        /// Why.
        detail: String,
    },
}

impl Clone for ToolsetError {
    fn clone(&self) -> (r: Self)
        ensures
            r == *self,
    {
        match self {
            ToolsetError::Unavailable { name, detail } => ToolsetError::Unavailable {
                name: name.clone(),
                detail: detail.clone(),
            },
            ToolsetError::Invalid { name, detail } => ToolsetError::Invalid {
                name: name.clone(),
                detail: detail.clone(),
            },
        }
    }
}

/// A toolset error in words.
pub open spec fn toolset_error_text(e: ToolsetError) -> Seq<char> {
    match e {
        ToolsetError::Unavailable { name, detail } => "toolset `"@ + name@ + "` is unavailable: "@
            + detail@,
        ToolsetError::Invalid { name, detail } => "toolset `"@ + name@
            + "` returned an invalid definition: "@ + detail@,
    }
}

impl ToolsetError {
    /// The error in words.
    pub fn to_string(&self) -> (r: String)
        ensures
            r@ == toolset_error_text(*self),
    {
        match self {
            ToolsetError::Unavailable { name, detail } => {
                let mut out = "toolset `".to_owned();
                out.push_str(name.as_str());
                out.push_str("` is unavailable: ");
                out.push_str(detail.as_str());
                out
            },
            ToolsetError::Invalid { name, detail } => {
                let mut out = "toolset `".to_owned();
                out.push_str(name.as_str());
                out.push_str("` returned an invalid definition: ");
                out.push_str(detail.as_str());
                out
            },
        }
    }
}

/// How a capability was found.
#[derive(Debug, Clone, Copy, PartialEq, Eq, Structural)]
#[non_exhaustive]
pub enum SearchKind {
    /// A regular expression over names and descriptions.
    Regex,
    /// Lexical ranking over the catalog.
    Bm25,
    /// Vector similarity.
    Embedding,
    /// The provider searched its own catalog server-side.
    ProviderNative,
}

/// A request to find capabilities.
#[derive(Debug, PartialEq, Eq)]
pub struct SearchQuery {
    /// What the model asked for: a regex, or natural language, depending on the search kind.
    pub text: String,
    /// How many results to return. Defaults to five, matching the provider-native implementations.
    pub limit: u8,
}

impl Clone for SearchQuery {
    fn clone(&self) -> (r: Self)
        ensures
            r == *self,
    {
        SearchQuery { text: self.text.clone(), limit: self.limit }
    }
}

impl SearchQuery {
    /// A query with the default limit.
    pub fn new(text: &str) -> (r: Self)
        ensures
            r.text@ == text@,
            r.limit == 5,
    {
        SearchQuery { text: text.to_owned(), limit: 5 }
    }
}

/// A capability the search found.
///
/// The score is an integer in basis points, so hits compare and sort exactly.
#[derive(Debug, PartialEq, Eq, PartialOrd, Ord)]
pub struct SearchHit {
    /// Which tool.
    pub name: ToolName,
    /// How well it matched, `0..=10_000`.
    pub score_bp: u16,
}

impl Clone for SearchHit {
    fn clone(&self) -> (r: Self)
        ensures
            r == *self,
    {
        SearchHit { name: self.name.clone(), score_bp: self.score_bp }
    }
}

/// Searching failed.
#[derive(Debug, PartialEq, Eq)]
#[non_exhaustive]
pub enum SearchError {
    /// The query was malformed, for example an invalid regex or one over the length limit.
    InvalidQuery(String),
    /// The index was not ready.
    Unavailable(String),
}

impl SearchError {
    /// The error in words.
    pub fn to_string(&self) -> (r: String)
        ensures
            r@ == (match *self {
                SearchError::InvalidQuery(why) => "invalid search query: "@ + why@,
                SearchError::Unavailable(why) => "the capability index is unavailable: "@ + why@,
            }),
    {
        match self {
            SearchError::InvalidQuery(why) => {
                let mut out = "invalid search query: ".to_owned();
                out.push_str(why.as_str());
                out
            },
            SearchError::Unavailable(why) => {
                let mut out = "the capability index is unavailable: ".to_owned();
                out.push_str(why.as_str());
                out
            },
        }
    }
}

/// What is wrong with a toolset is told with its name.
pub proof fn toolset_errors_name_the_toolset(e: ToolsetError)
    ensures
        match e {
            ToolsetError::Unavailable { name, detail } => mentions(toolset_error_text(e), name@)
                && mentions(toolset_error_text(e), detail@),
            ToolsetError::Invalid { name, detail } => mentions(toolset_error_text(e), name@)
                && mentions(toolset_error_text(e), detail@),
        },
{
    broadcast use group_mentions;

}

} // verus!
