//! Failures with three audiences: the model, the operator, and the user.
//!
//! Only what the model is told enters the context window.

use vstd::prelude::*;

use crate::json::{Json, JsonView};
use crate::text::{copy_texts, own_texts, texts, group_mentions, mentions};

verus! {

/// What the model is told. This is the only part of a failure that enters the context window.
#[derive(Debug, PartialEq, Eq)]
pub struct ModelMessage {
    /// One sentence describing what went wrong, in the model's terms.
    pub summary: String,
    /// What to do about it.
    pub guidance: Option<String>,
    /// Tools that would plausibly help.
    pub suggested_tools: Vec<String>,
    /// A corrected or example argument shape, when the failure was a schema violation.
    pub schema_hint: Option<Json>,
}

/// What the model is told.
#[verifier::ext_equal]
pub struct ModelMessageView {
    pub summary: Seq<char>,
    pub guidance: Option<Seq<char>>,
    pub suggested_tools: Seq<Seq<char>>,
    pub schema_hint: Option<JsonView>,
}

/// The text inside, where there is one.
pub open spec fn opt_text(s: Option<String>) -> Option<Seq<char>> {
    match s {
        Some(t) => Some(t@),
        None => None,
    }
}

/// The value inside, where there is one.
pub open spec fn opt_json(j: Option<Json>) -> Option<JsonView> {
    match j {
        Some(v) => Some(v@),
        None => None,
    }
}

/// A copy of an optional text.
pub fn copy_opt(s: &Option<String>) -> (r: Option<String>)
    ensures
        r == *s,
{
    match s {
        Some(t) => Some(t.clone()),
        None => None,
    }
}

/// A copy of an optional value.
pub fn copy_opt_json(j: &Option<Json>) -> (r: Option<Json>)
    ensures
        opt_json(r) == opt_json(*j),
{
    match j {
        Some(v) => Some(v.copy()),
        None => None,
    }
}

impl View for ModelMessage {
    type V = ModelMessageView;

    open spec fn view(&self) -> ModelMessageView {
        ModelMessageView {
            summary: self.summary@,
            guidance: opt_text(self.guidance),
            suggested_tools: texts(self.suggested_tools@),
            schema_hint: opt_json(self.schema_hint),
        }
    }
}

impl Clone for ModelMessage {
    fn clone(&self) -> (r: Self)
        ensures
            r@ == self@,
    {
        ModelMessage {
            summary: self.summary.clone(),
            guidance: copy_opt(&self.guidance),
            suggested_tools: copy_texts(&self.suggested_tools),
            schema_hint: copy_opt_json(&self.schema_hint),
        }
    }
}

impl ModelMessageView {
    /// A bare message with no guidance.
    pub open spec fn bare(summary: Seq<char>) -> ModelMessageView {
        ModelMessageView {
            summary,
            guidance: None,
            suggested_tools: Seq::empty(),
            schema_hint: None,
        }
    }

    /// The summary, with the guidance behind it where there is some.
    pub open spec fn text(self) -> Seq<char> {
        match self.guidance {
            Some(g) => self.summary + " "@ + g,
            None => self.summary,
        }
    }
}

impl ModelMessage {
    /// A bare message with no guidance.
    pub fn new(summary: &str) -> (r: Self)
        ensures
            r@ == ModelMessageView::bare(summary@),
    {
        let r = ModelMessage {
            summary: summary.to_owned(),
            guidance: None,
            suggested_tools: Vec::new(),
            schema_hint: None,
        };
        assert(r@.suggested_tools == Seq::<Seq<char>>::empty());
        r
    }

    /// The summary, with the guidance behind it where there is some.
    #[must_use]
    pub fn to_string(&self) -> (r: String)
        ensures
            r@ == self@.text(),
    {
        let mut s = self.summary.clone();
        if let Some(g) = &self.guidance {
            s.push_str(" ");
            s.push_str(g.as_str());
        }
        s
    }
}

/// What the operator is told. Never enters the context window.
#[derive(Debug, PartialEq, Eq)]
pub struct Diagnostic {
    /// Free-form detail: a stack trace, an upstream body, a hostname.
    pub detail: String,
    /// Structured key/value context for logs and traces.
    pub fields: Vec<(String, String)>,
}

/// What the operator is told.
#[verifier::ext_equal]
pub struct DiagnosticView {
    pub detail: Seq<char>,
    pub fields: Seq<(Seq<char>, Seq<char>)>,
}

/// The texts of a list of pairs.
pub open spec fn pair_texts(v: Seq<(String, String)>) -> Seq<(Seq<char>, Seq<char>)> {
    Seq::new(v.len(), |i: int| (v[i].0@, v[i].1@))
}

impl View for Diagnostic {
    type V = DiagnosticView;

    open spec fn view(&self) -> DiagnosticView {
        DiagnosticView { detail: self.detail@, fields: pair_texts(self.fields@) }
    }
}

impl Default for Diagnostic {
    fn default() -> (r: Self)
        ensures
            r@ == (DiagnosticView { detail: Seq::empty(), fields: Seq::empty() }),
    {
        let r = Diagnostic { detail: String::new(), fields: Vec::new() };
        assert(r@.fields == Seq::<(Seq<char>, Seq<char>)>::empty());
        r
    }
}

impl Clone for Diagnostic {
    fn clone(&self) -> (r: Self)
        ensures
            r@ == self@,
    {
        let mut fields: Vec<(String, String)> = Vec::new();
        let mut i: usize = 0;
        while i < self.fields.len()
            invariant
                i <= self.fields@.len(),
                fields@ == self.fields@.take(i as int),
            decreases self.fields@.len() - i,
        {
            fields.push((self.fields[i].0.clone(), self.fields[i].1.clone()));
            i = i + 1;
        }
        assert(fields@ == self.fields@);
        Diagnostic { detail: self.detail.clone(), fields }
    }
}

impl Diagnostic {
    /// A diagnostic with some detail.
    pub fn new(detail: &str) -> (r: Self)
        ensures
            r@ == (DiagnosticView { detail: detail@, fields: Seq::empty() }),
    {
        let r = Diagnostic { detail: detail.to_owned(), fields: Vec::new() };
        assert(r@.fields == Seq::<(Seq<char>, Seq<char>)>::empty());
        r
    }

    /// Attach a structured field.
    #[must_use]
    pub fn field(self, key: &str, value: &str) -> (r: Self)
        ensures
            r@ == (DiagnosticView { detail: self@.detail, fields: self@.fields.push((key@, value@)) }),
    {
        let mut r = self;
        r.fields.push((key.to_owned(), value.to_owned()));
        assert(r@.fields == self@.fields.push((key@, value@)));
        r
    }
}

/// What a human user is shown, when there is a UI and the failure is worth surfacing.
#[derive(Debug, PartialEq, Eq)]
pub struct Presentation {
    /// A short, non-technical sentence.
    pub message: String,
}

impl Clone for Presentation {
    fn clone(&self) -> (r: Self)
        ensures
            r == *self,
    {
        Presentation { message: self.message.clone() }
    }
}

/// The shape of a failure. Determines default retry behaviour and how loudly it is reported.
#[derive(Debug, Clone, Copy, PartialEq, Eq, Structural)]
#[non_exhaustive]
pub enum ToolErrorKind {
    /// The arguments did not match the schema.
    InvalidArgs,
    /// The thing being addressed does not exist.
    NotFound,
    /// Policy refused. The model is told; the operator is alerted.
    Denied,
    /// The operation conflicted with concurrent state.
    Conflict,
    /// Took too long.
    Timeout,
    /// Might succeed if tried again.
    Transient,
    /// Will not succeed if tried again. Auth and billing failures live here.
    Fatal,
    /// The run was cancelled.
    Cancelled,
}

impl ToolErrorKind {
    /// Whether retrying could plausibly help.
    pub open spec fn retryable(self) -> bool {
        self == ToolErrorKind::Transient || self == ToolErrorKind::Timeout || self
            == ToolErrorKind::Conflict
    }

    /// The kind's name.
    pub open spec fn label(self) -> Seq<char> {
        match self {
            ToolErrorKind::InvalidArgs => "InvalidArgs"@,
            ToolErrorKind::NotFound => "NotFound"@,
            ToolErrorKind::Denied => "Denied"@,
            ToolErrorKind::Conflict => "Conflict"@,
            ToolErrorKind::Timeout => "Timeout"@,
            ToolErrorKind::Transient => "Transient"@,
            ToolErrorKind::Fatal => "Fatal"@,
            ToolErrorKind::Cancelled => "Cancelled"@,
        }
    }

    /// Whether retrying could plausibly help. Auth and billing failures say no.
    #[must_use]
    pub fn is_retryable(self) -> (r: bool)
        ensures
            r == self.retryable(),
    {
        matches!(self, ToolErrorKind::Transient | ToolErrorKind::Timeout | ToolErrorKind::Conflict)
    }

    /// Whether the operator should be alerted even though the model was told.
    #[must_use]
    pub fn alerts_operator(self) -> (r: bool)
        ensures
            r == (self == ToolErrorKind::Denied || self == ToolErrorKind::Fatal),
    {
        matches!(self, ToolErrorKind::Denied | ToolErrorKind::Fatal)
    }

    fn name(self) -> (r: &'static str)
        ensures
            r@ == self.label(),
    {
        match self {
            ToolErrorKind::InvalidArgs => "InvalidArgs",
            ToolErrorKind::NotFound => "NotFound",
            ToolErrorKind::Denied => "Denied",
            ToolErrorKind::Conflict => "Conflict",
            ToolErrorKind::Timeout => "Timeout",
            ToolErrorKind::Transient => "Transient",
            ToolErrorKind::Fatal => "Fatal",
            ToolErrorKind::Cancelled => "Cancelled",
        }
    }
}

/// How the runtime should treat a retry.
#[derive(Debug, Clone, Copy, PartialEq, Eq, Structural)]
#[non_exhaustive]
pub enum RetryDirective {
    /// Do not retry.
    Never,
    /// Retry immediately; `budgeted` decides whether it consumes the run's retry budget.
    Immediate {
        /// Whether this retry counts against the budget.
        budgeted: bool,
    },
    /// Retry after a delay, in milliseconds.
    After {
        /// Delay before the next attempt.
        millis: u64,
    },
    /// Cannot proceed without something from outside the run.
    RequiresInput,
}

#[derive(Debug, PartialEq, Eq)]
struct Inner {
    kind: ToolErrorKind,
    model: ModelMessage,
    operator: Diagnostic,
    user: Option<Presentation>,
    retry: RetryDirective,
}

/// A tool failed. The payload is boxed, so that the success path does not carry its weight.
#[derive(Debug, PartialEq, Eq)]
pub struct ToolError(Box<Inner>);

/// What a tool failure says, to each of its audiences.
#[verifier::ext_equal]
pub struct ToolErrorView {
    pub kind: ToolErrorKind,
    pub model: ModelMessageView,
    pub operator: DiagnosticView,
    pub user: Option<Seq<char>>,
    pub retry: RetryDirective,
}

/// The sentence for the user, where there is one.
pub open spec fn opt_presentation(p: Option<Presentation>) -> Option<Seq<char>> {
    match p {
        Some(p) => Some(p.message@),
        None => None,
    }
}

impl View for ToolError {
    type V = ToolErrorView;

    closed spec fn view(&self) -> ToolErrorView {
        ToolErrorView {
            kind: self.0.kind,
            model: self.0.model@,
            operator: self.0.operator@,
            user: opt_presentation(self.0.user),
            retry: self.0.retry,
        }
    }
}

impl Clone for ToolError {
    fn clone(&self) -> (r: Self)
        ensures
            r@ == self@,
    {
        ToolError(
            Box::new(
                Inner {
                    kind: self.0.kind,
                    model: self.0.model.clone(),
                    operator: self.0.operator.clone(),
                    user: match &self.0.user {
                        Some(p) => Some(p.clone()),
                        None => None,
                    },
                    retry: self.0.retry,
                },
            ),
        )
    }
}

/// A failure of `kind` that says `summary` to the model and nothing to anyone else.
pub open spec fn plain_error(kind: ToolErrorKind, summary: Seq<char>) -> ToolErrorView {
    ToolErrorView {
        kind,
        model: ModelMessageView::bare(summary),
        operator: DiagnosticView { detail: Seq::empty(), fields: Seq::empty() },
        user: None,
        retry: if kind.retryable() {
            RetryDirective::Immediate { budgeted: true }
        } else {
            RetryDirective::Never
        },
    }
}

impl ToolError {
    /// A failure of `kind`, with `summary` for the model.
    pub fn new(kind: ToolErrorKind, summary: &str) -> (r: Self)
        ensures
            r@ == plain_error(kind, summary@),
    {
        let retry = if kind.is_retryable() {
            RetryDirective::Immediate { budgeted: true }
        } else {
            RetryDirective::Never
        };
        ToolError(
            Box::new(
                Inner {
                    kind,
                    model: ModelMessage::new(summary),
                    operator: Diagnostic::default(),
                    user: None,
                    retry,
                },
            ),
        )
    }

    /// The shape of the failure.
    #[must_use]
    pub fn kind(&self) -> (r: ToolErrorKind)
        ensures
            r == self@.kind,
    {
        self.0.kind
    }

    /// What the model is told. The only part that enters the context window.
    #[must_use]
    pub fn model(&self) -> (r: &ModelMessage)
        ensures
            r@ == self@.model,
    {
        &self.0.model
    }

    /// What the operator is told.
    #[must_use]
    pub fn operator(&self) -> (r: &Diagnostic)
        ensures
            r@ == self@.operator,
    {
        &self.0.operator
    }

    /// What a human user is shown, if anything.
    #[must_use]
    pub fn user(&self) -> (r: Option<&Presentation>)
        ensures
            match r {
                Some(p) => self@.user == Some(p.message@),
                None => self@.user is None,
            },
    {
        match &self.0.user {
            Some(p) => Some(p),
            None => None,
        }
    }

    /// How the runtime should retry.
    #[must_use]
    pub fn retry_directive(&self) -> (r: RetryDirective)
        ensures
            r == self@.retry,
    {
        self.0.retry
    }

    /// Tell the model what to do next.
    #[must_use]
    pub fn guide(self, guidance: &str) -> (r: Self)
        ensures
            r@ == (ToolErrorView {
                model: ModelMessageView { guidance: Some(guidance@), ..self@.model },
                ..self@
            }),
    {
        let mut inner = *self.0;
        inner.model.guidance = Some(guidance.to_owned());
        ToolError(Box::new(inner))
    }

    /// Point the model at tools that would help.
    #[must_use]
    pub fn suggest(self, tools: &[&str]) -> (r: Self)
        ensures
            r@ == (ToolErrorView {
                model: ModelMessageView {
                    suggested_tools: self@.model.suggested_tools + Seq::new(
                        tools@.len(),
                        |i: int| tools@[i]@,
                    ),
                    ..self@.model
                },
                ..self@
            }),
    {
        let ghost before = self@.model.suggested_tools;
        let mut inner = *self.0;
        let mut more = own_texts(tools);
        inner.model.suggested_tools.append(&mut more);
        let r = ToolError(Box::new(inner));
        assert(r@.model.suggested_tools == before + Seq::new(tools@.len(), |i: int| tools@[i]@));
        r
    }

    /// Show the model the argument shape it should have used.
    #[must_use]
    pub fn schema_hint(self, hint: Json) -> (r: Self)
        ensures
            r@ == (ToolErrorView {
                model: ModelMessageView { schema_hint: Some(hint@), ..self@.model },
                ..self@
            }),
    {
        let mut inner = *self.0;
        inner.model.schema_hint = Some(hint);
        ToolError(Box::new(inner))
    }

    /// Attach operator-only detail.
    #[must_use]
    pub fn diagnose(self, diagnostic: Diagnostic) -> (r: Self)
        ensures
            r@ == (ToolErrorView { operator: diagnostic@, ..self@ }),
    {
        let mut inner = *self.0;
        inner.operator = diagnostic;
        ToolError(Box::new(inner))
    }

    /// Attach a sentence for a human user.
    #[must_use]
    pub fn present(self, message: &str) -> (r: Self)
        ensures
            r@ == (ToolErrorView { user: Some(message@), ..self@ }),
    {
        let mut inner = *self.0;
        inner.user = Some(Presentation { message: message.to_owned() });
        ToolError(Box::new(inner))
    }

    /// Override the retry directive.
    #[must_use]
    pub fn retry(self, retry: RetryDirective) -> (r: Self)
        ensures
            r@ == (ToolErrorView { retry, ..self@ }),
    {
        let mut inner = *self.0;
        inner.retry = retry;
        ToolError(Box::new(inner))
    }

    /// The failure as one line: its kind and what the model is told.
    #[must_use]
    pub fn to_string(&self) -> (r: String)
        ensures
            r@ == self@.kind.label() + ": "@ + self@.model.summary,
    {
        let mut s = self.0.kind.name().to_owned();
        s.push_str(": ");
        s.push_str(self.0.model.summary.as_str());
        s
    }
}

/// What the model is told does not depend on the operator's detail: two failures that differ in it
/// alone say the same to the model, to the user, and to the retry logic.
pub proof fn operator_detail_never_reaches_the_model(e: ToolErrorView, detail: DiagnosticView)
    ensures
        (ToolErrorView { operator: detail, ..e }).model == e.model,
        (ToolErrorView { operator: detail, ..e }).model.text() == e.model.text(),
        (ToolErrorView { operator: detail, ..e }).user == e.user,
        (ToolErrorView { operator: detail, ..e }).retry == e.retry,
{
}

/// The result of invoking a tool. A refusal is separate from a failure: it must reach the model and
/// alert the operator.
#[derive(Debug, PartialEq, Eq)]
#[non_exhaustive]
pub enum ToolOutcome<T> {
    /// It worked.
    Done(T),
    /// It failed; the model may try something else.
    Failed(ToolError),
    /// Policy refused.
    Denied(ToolError),
    /// The call cannot proceed without something from outside the run.
    NeedsInput(NeedsInput),
}

impl<T> ToolOutcome<T> {
    /// Whether this outcome is a success.
    #[must_use]
    pub fn is_ok(&self) -> (r: bool)
        ensures
            r == (self is Done),
    {
        matches!(self, ToolOutcome::Done(_))
    }

    /// The model-facing message, if this outcome carries one.
    #[must_use]
    pub fn model_message(&self) -> (r: Option<&ModelMessage>)
        ensures
            match *self {
                ToolOutcome::Done(_) => r is None,
                ToolOutcome::NeedsInput(_) => r is None,
                ToolOutcome::Failed(e) => r matches Some(m) && m@ == e@.model,
                ToolOutcome::Denied(e) => r matches Some(m) && m@ == e@.model,
            },
    {
        match self {
            ToolOutcome::Done(_) => None,
            ToolOutcome::NeedsInput(_) => None,
            ToolOutcome::Failed(e) => Some(e.model()),
            ToolOutcome::Denied(e) => Some(e.model()),
        }
    }
}

/// A run cannot continue without something from outside it.
#[derive(Debug, PartialEq, Eq)]
pub struct NeedsInput {
    /// Opaque, sealed token that lets the run resume exactly where it stopped.
    pub token: String,
    /// What is needed.
    pub requests: Vec<InputRequest>,
}

/// One thing the run needs before it can continue.
#[derive(Debug, PartialEq, Eq)]
#[non_exhaustive]
pub enum InputRequest {
    /// A human must approve a specific action, shown verbatim.
    Approval {
        /// The exact action, verbatim.
        literal: String,
        /// How dangerous it is.
        risk: Risk,
    },
    /// A choice between options.
    Choice {
        /// What is being asked.
        prompt: String,
        /// The available answers.
        options: Vec<String>,
    },
    /// Structured input matching a schema.
    Form {
        /// JSON Schema describing the expected input.
        schema: Json,
    },
    /// Authentication against a resource.
    Auth {
        /// The resource requiring authentication.
        resource: String,
    },
    /// A tool the frontend must execute.
    FrontendTool {
        /// Tool name.
        name: String,
        /// Arguments.
        args: Json,
    },
}

/// What is asked of someone outside the run.
pub enum InputRequestView {
    Approval { literal: Seq<char>, risk: Risk },
    Choice { prompt: Seq<char>, options: Seq<Seq<char>> },
    Form { schema: JsonView },
    Auth { resource: Seq<char> },
    FrontendTool { name: Seq<char>, args: JsonView },
}

impl View for InputRequest {
    type V = InputRequestView;

    open spec fn view(&self) -> InputRequestView {
        match *self {
            InputRequest::Approval { literal, risk } => InputRequestView::Approval {
                literal: literal@,
                risk,
            },
            InputRequest::Choice { prompt, options } => InputRequestView::Choice {
                prompt: prompt@,
                options: texts(options@),
            },
            InputRequest::Form { schema } => InputRequestView::Form { schema: schema@ },
            InputRequest::Auth { resource } => InputRequestView::Auth { resource: resource@ },
            InputRequest::FrontendTool { name, args } => InputRequestView::FrontendTool {
                name: name@,
                args: args@,
            },
        }
    }
}

impl DeepView for InputRequest {
    type V = InputRequestView;

    open spec fn deep_view(&self) -> InputRequestView {
        self@
    }
}

impl Clone for InputRequest {
    fn clone(&self) -> (r: Self)
        ensures
            r@ == self@,
    {
        match self {
            InputRequest::Approval { literal, risk } => InputRequest::Approval {
                literal: literal.clone(),
                risk: *risk,
            },
            InputRequest::Choice { prompt, options } => InputRequest::Choice {
                prompt: prompt.clone(),
                options: copy_texts(options),
            },
            InputRequest::Form { schema } => InputRequest::Form { schema: schema.copy() },
            InputRequest::Auth { resource } => InputRequest::Auth { resource: resource.clone() },
            InputRequest::FrontendTool { name, args } => InputRequest::FrontendTool {
                name: name.clone(),
                args: args.copy(),
            },
        }
    }
}

/// What a run waits for.
#[verifier::ext_equal]
pub struct NeedsInputView {
    pub token: Seq<char>,
    pub requests: Seq<InputRequestView>,
}

impl View for NeedsInput {
    type V = NeedsInputView;

    open spec fn view(&self) -> NeedsInputView {
        NeedsInputView { token: self.token@, requests: self.requests.deep_view() }
    }
}

impl Clone for NeedsInput {
    fn clone(&self) -> (r: Self)
        ensures
            r@ == self@,
    {
        let mut requests: Vec<InputRequest> = Vec::new();
        let mut i: usize = 0;
        while i < self.requests.len()
            invariant
                i <= self.requests@.len(),
                requests@.len() == i,
                forall|j: int| 0 <= j < i ==> (#[trigger] requests@[j])@ == self.requests@[j]@,
            decreases self.requests@.len() - i,
        {
            requests.push(self.requests[i].clone());
            i = i + 1;
        }
        assert(requests.deep_view() == self.requests.deep_view());
        NeedsInput { token: self.token.clone(), requests }
    }
}

/// How dangerous an action is. Derived from a tool's declaration, never from the model's own
/// assessment.
#[derive(Debug, Clone, Copy, PartialEq, Eq, PartialOrd, Ord, Structural)]
pub enum Risk {
    /// Read-only, reversible, cheap.
    Low,
    /// Writes, or costs money.
    Medium,
    /// Destructive, or leaves the machine.
    High,
}

/// What the model is told holds the summary, and the guidance where there is any.
pub proof fn the_model_is_told_all_of_it(message: ModelMessageView)
    ensures
        mentions(message.text(), message.summary),
        message.guidance matches Some(guidance) ==> mentions(message.text(), guidance),
        message.guidance is None ==> message.text() == message.summary,
{
    broadcast use group_mentions;

}

/// An error is of its kind and says what it was given to say, to the model alone. It may be tried
/// again exactly where it was transient, timed out or ran into a conflict.
pub proof fn an_error_says_what_it_was_given(kind: ToolErrorKind, summary: Seq<char>)
    ensures
        ({
            let e = plain_error(kind, summary);
            &&& e.kind == kind
            &&& e.model.text() == summary
            &&& e.model.suggested_tools.len() == 0 && e.model.schema_hint is None
            &&& e.operator.detail.len() == 0 && e.operator.fields.len() == 0
            &&& e.user is None
            &&& e.retry == RetryDirective::Never <==> !(kind == ToolErrorKind::Transient || kind
                == ToolErrorKind::Timeout || kind == ToolErrorKind::Conflict)
        }),
{
}

} // verus!
