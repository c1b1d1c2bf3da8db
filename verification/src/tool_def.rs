//! What is known about a tool: its schema, who may call it, and how findable it is.

use vstd::prelude::*;

use crate::capability::{mutates_or_sends, Capability, CapabilityView};
use crate::ids::ToolName;
use crate::json::{field_views, fields, Json, JsonView};
use crate::text::{chars_of, copy_texts, count_words, find_char, first_at, no_text, own_texts, part_texts, text_of, texts, trim, trimmed, word_count, group_mentions, mentions};

verus! {

/// A JSON Schema document.
#[derive(Debug, PartialEq, Eq)]
pub struct JsonSchema(Json);

/// A value was not usable as a schema.
#[derive(Debug, PartialEq, Eq)]
pub enum SchemaError {
    /// The document was not a JSON object.
    NotAnObject(&'static str),
}

impl SchemaError {
    /// The error in words.
    pub fn to_string(&self) -> (r: String)
        ensures
            r@ == "a JSON Schema must be an object, got "@ + self->NotAnObject_0@,
    {
        match self {
            SchemaError::NotAnObject(got) => {
                let mut out = "a JSON Schema must be an object, got ".to_owned();
                out.push_str(got);
                out
            },
        }
    }
}

impl View for JsonSchema {
    type V = JsonView;

    closed spec fn view(&self) -> JsonView {
        self.0@
    }
}

impl Clone for JsonSchema {
    fn clone(&self) -> (r: Self)
        ensures
            r@ == self@,
    {
        JsonSchema(self.0.copy())
    }
}

/// The kind of a JSON value, in words.
pub open spec fn kind_name(v: JsonView) -> Seq<char> {
    match v {
        JsonView::Null => "null"@,
        JsonView::Bool(_) => "a boolean"@,
        JsonView::Number(_) => "a number"@,
        JsonView::Text(_) => "a string"@,
        JsonView::Array(_) => "an array"@,
        JsonView::Object(_) => "an object"@,
    }
}

/// The kind of a JSON value, in words.
pub fn kind_of(v: &Json) -> (r: &'static str)
    ensures
        r@ == kind_name(v@),
{
    match v {
        Json::Null => "null",
        Json::Bool(_) => "a boolean",
        Json::Number(_) => "a number",
        Json::Text(_) => "a string",
        Json::Array(_) => "an array",
        Json::Object(_) => "an object",
    }
}

/// The properties a schema declares, in document order.
pub open spec fn properties(doc: JsonView) -> Seq<(Seq<char>, JsonView)> {
    match doc.get("properties"@) {
        Some(JsonView::Object(props)) => props,
        _ => Seq::empty(),
    }
}

/// Whether a property says what it is for.
pub open spec fn documented(prop: JsonView) -> bool {
    match prop.get_str("description"@) {
        Some(d) => d.len() > 0,
        None => false,
    }
}

/// The names of the properties that do not say what they are for.
pub open spec fn undocumented(props: Seq<(Seq<char>, JsonView)>) -> Seq<Seq<char>>
    decreases props.len(),
{
    if props.len() == 0 {
        Seq::empty()
    } else if documented(props.last().1) {
        undocumented(props.drop_last())
    } else {
        undocumented(props.drop_last()).push(props.last().0)
    }
}

/// Property names and descriptions, each followed by a space.
pub open spec fn property_text(props: Seq<(Seq<char>, JsonView)>) -> Seq<char>
    decreases props.len(),
{
    if props.len() == 0 {
        Seq::empty()
    } else {
        let named = property_text(props.drop_last()) + props.last().0 + seq![' '];
        match props.last().1.get_str("description"@) {
            Some(d) => named + d + seq![' '],
            None => named,
        }
    }
}

/// The schema of a tool that takes no arguments.
pub open spec fn empty_schema() -> JsonView {
    JsonView::Object(
        seq![
            ("properties"@, JsonView::Object(Seq::empty())),
            ("type"@, JsonView::Text("object"@)),
        ],
    )
}

impl JsonSchema {
    /// Wrap a JSON Schema document. Only an object is one.
    pub fn new(value: Json) -> (r: Result<Self, SchemaError>)
        ensures
            match r {
                Ok(s) => value@ is Object && s@ == value@,
                Err(SchemaError::NotAnObject(got)) => !(value@ is Object) && got@ == kind_name(
                    value@,
                ),
            },
    {
        if value.as_object().is_some() {
            Ok(JsonSchema(value))
        } else {
            Err(SchemaError::NotAnObject(kind_of(&value)))
        }
    }

    /// A schema taking no arguments.
    #[must_use]
    pub fn empty_object() -> (r: Self)
        ensures
            r@ == empty_schema(),
    {
        let none = fields();
        let mut doc: Vec<(String, Json)> = Vec::new();
        doc.push(("properties".to_owned(), Json::object(none)));
        doc.push(("type".to_owned(), Json::text("object")));
        assert(field_views(doc@) == empty_schema()->Object_0);
        JsonSchema(Json::object(doc))
    }

    /// The underlying document.
    #[must_use]
    pub fn as_value(&self) -> (r: &Json)
        ensures
            r@ == self@,
    {
        &self.0
    }

    fn declared(&self) -> (r: Option<&Vec<(String, Json)>>)
        ensures
            properties(self@) == (match r {
                Some(v) => field_views(v@),
                None => Seq::empty(),
            }),
    {
        match self.0.get("properties") {
            Some(p) => p.as_object(),
            None => None,
        }
    }

    /// The declared property names, in document order.
    #[must_use]
    pub fn property_names(&self) -> (r: Vec<&str>)
        ensures
            r@.len() == properties(self@).len(),
            forall|i: int| 0 <= i < r@.len() ==> (#[trigger] r@[i])@ == properties(self@)[i].0,
    {
        let mut out: Vec<&str> = Vec::new();
        if let Some(props) = self.declared() {
            let mut i: usize = 0;
            while i < props.len()
                invariant
                    i <= props@.len(),
                    out@.len() == i,
                    properties(self@) == field_views(props@),
                    forall|j: int| 0 <= j < i ==> (#[trigger] out@[j])@ == properties(self@)[j].0,
                decreases props@.len() - i,
            {
                out.push(props[i].0.as_str());
                i = i + 1;
            }
        }
        out
    }

    /// Property names that have no `description`. These are the ones invisible to tool search.
    #[must_use]
    pub fn undocumented_properties(&self) -> (r: Vec<&str>)
        ensures
            part_texts(r@) == undocumented(properties(self@)),
    {
        let mut out: Vec<&str> = Vec::new();
        assert(part_texts(out@) == Seq::<Seq<char>>::empty());
        if let Some(props) = self.declared() {
            let ghost all = field_views(props@);
            let mut i: usize = 0;
            while i < props.len()
                invariant
                    i <= props@.len(),
                    all == field_views(props@),
                    part_texts(out@) == undocumented(all.take(i as int)),
                decreases props@.len() - i,
            {
                proof {
                    assert(all.take(i + 1).drop_last() == all.take(i as int));
                    assert(all.take(i + 1).last() == (props@[i as int].0@, props@[i as int].1@));
                }
                let described = match props[i].1.get_str("description") {
                    Some(d) => !no_text(d),
                    None => false,
                };
                if !described {
                    let ghost before = out@;
                    out.push(props[i].0.as_str());
                    assert(part_texts(out@) == part_texts(before).push(props@[i as int].0@));
                }
                i = i + 1;
            }
            assert(all.take(all.len() as int) == all);
        }
        out
    }

    /// Every word a tool search would index from this schema: property names and their
    /// descriptions.
    #[must_use]
    pub fn searchable_text(&self) -> (r: String)
        ensures
            r@ == property_text(properties(self@)),
    {
        let mut out = String::new();
        if let Some(props) = self.declared() {
            let ghost all = field_views(props@);
            let mut i: usize = 0;
            while i < props.len()
                invariant
                    i <= props@.len(),
                    all == field_views(props@),
                    out@ == property_text(all.take(i as int)),
                decreases props@.len() - i,
            {
                proof {
                    assert(all.take(i + 1).drop_last() == all.take(i as int));
                    assert(all.take(i + 1).last() == (props@[i as int].0@, props@[i as int].1@));
                }
                let ghost before = out@;
                out.push_str(props[i].0.as_str());
                out.push(' ');
                assert(out@ == before + props@[i as int].0@ + seq![' ']);
                if let Some(d) = props[i].1.get_str("description") {
                    let ghost named = out@;
                    out.push_str(d);
                    out.push(' ');
                    assert(out@ == named + d@ + seq![' ']);
                }
                i = i + 1;
            }
            assert(all.take(all.len() as int) == all);
        }
        out
    }
}

/// Who may invoke a tool.
#[derive(Debug, Clone, Copy, PartialEq, Eq, Structural)]
pub enum CallerPolicy {
    /// The model calls it directly.
    Direct,
    /// Only reachable from a code-mode script.
    CodeOnly,
    /// Either.
    Both,
}

impl Default for CallerPolicy {
    fn default() -> (r: Self)
        ensures
            r == CallerPolicy::Direct,
    {
        CallerPolicy::Direct
    }
}

impl CallerPolicy {
    /// Whether a direct model call is permitted.
    #[must_use]
    pub fn allows_direct(self) -> (r: bool)
        ensures
            r == (self is Direct || self is Both),
    {
        matches!(self, CallerPolicy::Direct | CallerPolicy::Both)
    }

    /// Whether a call from inside a code-mode sandbox is permitted.
    #[must_use]
    pub fn allows_code(self) -> (r: bool)
        ensures
            r == (self is CodeOnly || self is Both),
    {
        matches!(self, CallerPolicy::CodeOnly | CallerPolicy::Both)
    }
}

/// How a capability should occupy the context window.
#[derive(Debug, Clone, Copy, PartialEq, Eq, Structural)]
pub enum PresentationHint {
    /// Always in the stable prefix. Reserve for the three to five hottest tools.
    Always,
    /// Indexed for search; the definition is injected only when discovered.
    Deferred,
    /// Never presented as a callable tool; reachable only from code mode.
    CodeOnly,
    /// Present in the registry but invisible this step.
    Hidden,
}

impl Default for PresentationHint {
    fn default() -> (r: Self)
        ensures
            r == PresentationHint::Deferred,
    {
        PresentationHint::Deferred
    }
}

/// Roughly what calling a tool costs, and how badly it could go.
#[derive(Debug, Clone, Copy, PartialEq, Eq, PartialOrd, Ord, Structural)]
pub enum CostHint {
    /// No side effects, cheap, safe to memoise.
    Pure,
    /// Reads the world. Cheap.
    Cheap,
    /// Slow or costs money.
    Expensive,
    /// Changes state irreversibly, or leaves the machine.
    Destructive,
}

impl Default for CostHint {
    fn default() -> (r: Self)
        ensures
            r == CostHint::Cheap,
    {
        CostHint::Cheap
    }
}

/// An example invocation.
#[derive(Debug, PartialEq, Eq)]
pub struct ToolExample {
    /// What the example demonstrates.
    pub description: String,
    /// The arguments.
    pub args: Json,
}

impl DeepView for ToolExample {
    type V = (Seq<char>, JsonView);

    open spec fn deep_view(&self) -> (Seq<char>, JsonView) {
        (self.description@, self.args@)
    }
}

impl Clone for ToolExample {
    fn clone(&self) -> (r: Self)
        ensures
            r.deep_view() == self.deep_view(),
    {
        ToolExample { description: self.description.clone(), args: self.args.copy() }
    }
}

/// Everything known about a tool.
#[derive(Debug, PartialEq, Eq)]
pub struct ToolDefinition {
    /// The name the model calls, after namespacing.
    pub name: ToolName,
    /// What it does, in the model's terms. Indexed by tool search.
    pub description: String,
    /// Argument schema.
    pub input_schema: JsonSchema,
    /// Result schema, when the tool has one.
    pub output_schema: Option<JsonSchema>,
    /// What the tool needs in order to run. Nothing else is available to it.
    pub capabilities: Vec<Capability>,
    /// Who may call it.
    pub caller: CallerPolicy,
    /// How it should occupy context.
    pub presentation: PresentationHint,
    /// How expensive and how dangerous.
    pub cost_hint: CostHint,
    /// Example invocations.
    pub examples: Vec<ToolExample>,
}

/// What a tool definition says.
#[verifier::ext_equal]
pub struct ToolDefinitionView {
    pub name: Seq<char>,
    pub description: Seq<char>,
    pub input_schema: JsonView,
    pub output_schema: Option<JsonView>,
    pub capabilities: Seq<CapabilityView>,
    pub caller: CallerPolicy,
    pub presentation: PresentationHint,
    pub cost_hint: CostHint,
    pub examples: Seq<(Seq<char>, JsonView)>,
}

/// The schema inside, where there is one.
pub open spec fn opt_schema(s: Option<JsonSchema>) -> Option<JsonView> {
    match s {
        Some(s) => Some(s@),
        None => None,
    }
}

impl View for ToolDefinition {
    type V = ToolDefinitionView;

    open spec fn view(&self) -> ToolDefinitionView {
        ToolDefinitionView {
            name: self.name@,
            description: self.description@,
            input_schema: self.input_schema@,
            output_schema: opt_schema(self.output_schema),
            capabilities: self.capabilities.deep_view(),
            caller: self.caller,
            presentation: self.presentation,
            cost_hint: self.cost_hint,
            examples: self.examples.deep_view(),
        }
    }
}

impl DeepView for ToolDefinition {
    type V = ToolDefinitionView;

    open spec fn deep_view(&self) -> ToolDefinitionView {
        self@
    }
}

impl Clone for ToolDefinition {
    fn clone(&self) -> (r: Self)
        ensures
            r@ == self@,
    {
        let mut capabilities: Vec<Capability> = Vec::new();
        let mut i: usize = 0;
        while i < self.capabilities.len()
            invariant
                i <= self.capabilities@.len(),
                capabilities@.len() == i,
                forall|j: int|
                    0 <= j < i ==> (#[trigger] capabilities@[j])@ == self.capabilities@[j]@,
            decreases self.capabilities@.len() - i,
        {
            capabilities.push(self.capabilities[i].clone());
            i = i + 1;
        }
        let mut examples: Vec<ToolExample> = Vec::new();
        let mut k: usize = 0;
        while k < self.examples.len()
            invariant
                k <= self.examples@.len(),
                examples@.len() == k,
                forall|j: int|
                    0 <= j < k ==> (#[trigger] examples@[j]).deep_view()
                        == self.examples@[j].deep_view(),
            decreases self.examples@.len() - k,
        {
            examples.push(self.examples[k].clone());
            k = k + 1;
        }
        assert(capabilities.deep_view() == self.capabilities.deep_view());
        assert(examples.deep_view() == self.examples.deep_view());
        ToolDefinition {
            name: self.name.clone(),
            description: self.description.clone(),
            input_schema: self.input_schema.clone(),
            output_schema: match &self.output_schema {
                Some(s) => Some(s.clone()),
                None => None,
            },
            capabilities,
            caller: self.caller,
            presentation: self.presentation,
            cost_hint: self.cost_hint,
            examples,
        }
    }
}

/// A copy of a list of definitions.
pub fn copy_definitions(defs: &Vec<ToolDefinition>) -> (r: Vec<ToolDefinition>)
    ensures
        r.deep_view() == defs.deep_view(),
{
    let mut out: Vec<ToolDefinition> = Vec::new();
    let mut i: usize = 0;
    while i < defs.len()
        invariant
            i <= defs@.len(),
            out@.len() == i,
            forall|j: int| 0 <= j < i ==> (#[trigger] out@[j])@ == defs@[j]@,
        decreases defs@.len() - i,
    {
        out.push(defs[i].clone());
        i = i + 1;
    }
    assert(out.deep_view() == defs.deep_view());
    out
}

/// The part of a name before its first underscore, where it has one.
pub open spec fn namespace_of(name: Seq<char>) -> Option<Seq<char>> {
    if first_at(name, '_') < name.len() {
        Some(name.take(first_at(name, '_') as int))
    } else {
        None
    }
}

/// Descriptions shorter than this are treated as too thin to retrieve reliably.
pub const MIN_DESCRIPTION_WORDS: usize = 6;

/// The definition of a tool with a name, a description and a schema, and nothing else said.
pub open spec fn plain_tool(
    name: Seq<char>,
    description: Seq<char>,
    schema: JsonView,
) -> ToolDefinitionView {
    ToolDefinitionView {
        name,
        description,
        input_schema: schema,
        output_schema: None,
        capabilities: Seq::empty(),
        caller: CallerPolicy::Direct,
        presentation: PresentationHint::Deferred,
        cost_hint: CostHint::Cheap,
        examples: Seq::empty(),
    }
}

impl ToolDefinition {
    /// A minimal definition: name, description, and argument schema.
    pub fn new(name: &str, description: &str, input_schema: JsonSchema) -> (r: Self)
        ensures
            r@ == plain_tool(name@, description@, input_schema@),
    {
        let r = ToolDefinition {
            name: ToolName::new(name),
            description: description.to_owned(),
            input_schema,
            output_schema: None,
            capabilities: Vec::new(),
            caller: CallerPolicy::Direct,
            presentation: PresentationHint::Deferred,
            cost_hint: CostHint::Cheap,
            examples: Vec::new(),
        };
        assert(r@ =~= plain_tool(name@, description@, input_schema@));
        r
    }

    /// Everything a tool search would index: name, description, argument names, and argument
    /// descriptions.
    #[must_use]
    pub fn searchable_text(&self) -> (r: String)
        ensures
            r@ == self@.name + " "@ + self@.description + " "@ + property_text(
                properties(self@.input_schema),
            ),
    {
        let mut out = self.name.as_str().to_owned();
        out.push_str(" ");
        out.push_str(self.description.as_str());
        out.push_str(" ");
        out.push_str(self.input_schema.searchable_text().as_str());
        out
    }

    /// The namespace prefix, if the name has one (`github_list_issues` gives `github`).
    #[must_use]
    pub fn namespace(&self) -> (r: Option<String>)
        ensures
            match r {
                Some(s) => namespace_of(self@.name) == Some(s@),
                None => namespace_of(self@.name) is None,
            },
    {
        let chars = chars_of(self.name.as_str());
        let at: usize = find_char(&chars, '_');
        if at < chars.len() {
            let head = text_of(&chars, 0, at);
            assert(chars@.subrange(0, at as int) == chars@.take(at as int));
            Some(head)
        } else {
            None
        }
    }

    /// Whether a human should approve calls by default.
    #[must_use]
    pub fn needs_approval_by_default(&self) -> (r: bool)
        ensures
            r == (self@.cost_hint == CostHint::Destructive || exists|i: int|
                0 <= i < self@.capabilities.len() && mutates_or_sends(
                    #[trigger] self@.capabilities[i],
                )),
    {
        if self.cost_hint == CostHint::Destructive {
            return true;
        }
        let mut i: usize = 0;
        while i < self.capabilities.len()
            invariant
                i <= self.capabilities@.len(),
                forall|j: int| 0 <= j < i ==> !mutates_or_sends(#[trigger] self@.capabilities[j]),
            decreases self.capabilities@.len() - i,
        {
            if self.capabilities[i].is_mutating_or_egress() {
                assert(mutates_or_sends(self@.capabilities[i as int]));
                return true;
            }
            i = i + 1;
        }
        false
    }

    /// Assess how findable this tool is once the catalog outgrows the context window.
    #[must_use]
    pub fn discoverability(&self) -> (r: DiscoverabilityReport)
        ensures
            r@ == problems_of(self@),
    {
        let mut problems: Vec<Discoverability> = Vec::new();
        assert(problems.deep_view() == Seq::<DiscoverabilityView>::empty());

        let words: usize = count_words(self.description.as_str());
        let rest = trim(self.description.as_str());
        if no_text(rest.as_str()) {
            problems.push(Discoverability::NoDescription);
        } else if words < MIN_DESCRIPTION_WORDS {
            problems.push(Discoverability::ThinDescription { words });
        }
        assert(problems.deep_view() == description_problems(self@.description));

        let ghost first = problems.deep_view();
        let names = own_texts(self.input_schema.undocumented_properties().as_slice());
        let ghost lost = texts(names@);
        if names.len() > 0 {
            problems.push(Discoverability::UndocumentedParameters { names });
            assert(problems.deep_view() == first.push(
                DiscoverabilityView::UndocumentedParameters { names: lost },
            ));
        }
        let ghost second = problems.deep_view();
        if self.namespace().is_none() && self.presentation == PresentationHint::Deferred {
            problems.push(Discoverability::NoNamespace);
            assert(problems.deep_view() == second.push(DiscoverabilityView::NoNamespace));
        }
        DiscoverabilityReport { problems }
    }
}

/// A reason a tool would be hard to find.
#[derive(Debug, PartialEq, Eq)]
#[non_exhaustive]
pub enum Discoverability {
    /// No description at all.
    NoDescription,
    /// Too few words to match a paraphrased query.
    ThinDescription {
        /// How many words the description has.
        words: usize,
    },
    /// Parameters with no `description`. Tool search indexes these, so an undocumented parameter
    /// is lost search surface.
    UndocumentedParameters {
        /// Which parameters.
        names: Vec<String>,
    },
    /// A deferred tool with no `service_` prefix, so one search cannot match its whole group.
    NoNamespace,
}

/// A reason a tool would be hard to find.
pub enum DiscoverabilityView {
    NoDescription,
    ThinDescription { words: nat },
    UndocumentedParameters { names: Seq<Seq<char>> },
    NoNamespace,
}

impl DeepView for Discoverability {
    type V = DiscoverabilityView;

    open spec fn deep_view(&self) -> DiscoverabilityView {
        match *self {
            Discoverability::NoDescription => DiscoverabilityView::NoDescription,
            Discoverability::ThinDescription { words } => DiscoverabilityView::ThinDescription {
                words: words as nat,
            },
            Discoverability::UndocumentedParameters { names } => {
                DiscoverabilityView::UndocumentedParameters { names: texts(names@) }
            },
            Discoverability::NoNamespace => DiscoverabilityView::NoNamespace,
        }
    }
}

impl Clone for Discoverability {
    fn clone(&self) -> (r: Self)
        ensures
            r.deep_view() == self.deep_view(),
    {
        match self {
            Discoverability::NoDescription => Discoverability::NoDescription,
            Discoverability::ThinDescription { words } => Discoverability::ThinDescription {
                words: *words,
            },
            Discoverability::UndocumentedParameters { names } => {
                Discoverability::UndocumentedParameters { names: copy_texts(names) }
            },
            Discoverability::NoNamespace => Discoverability::NoNamespace,
        }
    }
}

/// What is wrong with a description.
pub open spec fn description_problems(description: Seq<char>) -> Seq<DiscoverabilityView> {
    if trimmed(description).len() == 0 {
        seq![DiscoverabilityView::NoDescription]
    } else if word_count(description) < MIN_DESCRIPTION_WORDS {
        seq![DiscoverabilityView::ThinDescription { words: word_count(description) }]
    } else {
        Seq::empty()
    }
}

/// Everything that would hurt the retrieval of a tool.
pub open spec fn problems_of(def: ToolDefinitionView) -> Seq<DiscoverabilityView> {
    let described = description_problems(def.description);
    let lost = undocumented(properties(def.input_schema));
    let surfaced = if lost.len() > 0 {
        described.push(DiscoverabilityView::UndocumentedParameters { names: lost })
    } else {
        described
    };
    if namespace_of(def.name) is None && def.presentation == PresentationHint::Deferred {
        surfaced.push(DiscoverabilityView::NoNamespace)
    } else {
        surfaced
    }
}

/// The result of a discoverability check.
#[derive(Debug, PartialEq, Eq)]
pub struct DiscoverabilityReport {
    /// Everything that would hurt retrieval.
    pub problems: Vec<Discoverability>,
}

impl View for DiscoverabilityReport {
    type V = Seq<DiscoverabilityView>;

    open spec fn view(&self) -> Seq<DiscoverabilityView> {
        self.problems.deep_view()
    }
}

impl DiscoverabilityReport {
    /// Whether the tool is well described.
    #[must_use]
    pub fn is_clean(&self) -> (r: bool)
        ensures
            r == (self@.len() == 0),
    {
        self.problems.len() == 0
    }
}

/// A namespace is what stands in front of the first underscore, and a name without an underscore has
/// none.
pub proof fn a_namespace_ends_at_the_first_underscore(name: Seq<char>)
    ensures
        namespace_of(name) is Some <==> name.contains('_'),
        namespace_of(name) matches Some(space) ==> !space.contains('_') && space.len() < name.len()
            && name.take(space.len() as int) == space && name[space.len() as int] == '_',
    decreases name.len(),
{
    if name.len() > 0 && name[0] != '_' {
        let rest = name.drop_first();
        a_namespace_ends_at_the_first_underscore(rest);
        if name.contains('_') {
            let i = choose|i: int| 0 <= i < name.len() && name[i] == '_';
            assert(rest[i - 1] == '_');
        }
        if rest.contains('_') {
            let i = choose|i: int| 0 <= i < rest.len() && rest[i] == '_';
            assert(name[i + 1] == '_');
            let space = name.take(first_at(name, '_') as int);
            assert(space.drop_first() == rest.take(first_at(rest, '_') as int));
            assert forall|k: int| 0 <= k < space.len() implies space[k] != '_' by {
                if k > 0 {
                    assert(space.drop_first()[k - 1] == space[k]);
                }
            }
        }
    }
}

/// Whether a list of problems holds a complaint about a parameter.
pub open spec fn complains_of(problems: Seq<DiscoverabilityView>, name: Seq<char>) -> bool {
    exists|k: int|
        0 <= k < problems.len() && match #[trigger] problems[k] {
            DiscoverabilityView::UndocumentedParameters { names } => names.contains(name),
            _ => false,
        }
}

/// A parameter is complained of exactly where its schema has no description, or an empty one.
pub proof fn every_undocumented_parameter_is_named(
    def: ToolDefinitionView,
    props: Seq<(Seq<char>, JsonView)>,
    name: Seq<char>,
)
    requires
        def.input_schema.get("properties"@) == Some(JsonView::Object(props)),
    ensures
        complains_of(problems_of(def), name) <==> exists|i: int|
            0 <= i < props.len() && #[trigger] props[i].0 == name && match props[i].1.get_str(
                "description"@,
            ) {
                Some(text) => text.len() == 0,
                None => true,
            },
{
    let problems = problems_of(def);
    let lost = undocumented(props);
    undocumented_holds(props, name);
    if lost.len() > 0 {
        let k = description_problems(def.description).len() as int;
        assert(problems[k] == DiscoverabilityView::UndocumentedParameters { names: lost });
    }
}

proof fn undocumented_holds(props: Seq<(Seq<char>, JsonView)>, name: Seq<char>)
    ensures
        undocumented(props).contains(name) <==> exists|i: int|
            0 <= i < props.len() && #[trigger] props[i].0 == name && match props[i].1.get_str(
                "description"@,
            ) {
                Some(text) => text.len() == 0,
                None => true,
            },
    decreases props.len(),
{
    if props.len() > 0 {
        let less = props.drop_last();
        undocumented_holds(less, name);
        let n = props.len() - 1;
        assert(forall|i: int| 0 <= i < n ==> less[i] == #[trigger] props[i]);
        if !documented(props[n].1) {
            let shorter = undocumented(less);
            assert(undocumented(props) == shorter.push(props[n].0));
            assert(undocumented(props)[shorter.len() as int] == props[n].0);
            if shorter.contains(name) {
                let k = choose|k: int| 0 <= k < shorter.len() && shorter[k] == name;
                assert(undocumented(props)[k] == name);
            }
        }
    }
}

/// A description of nothing but white space is none, one of fewer than six words is thin, and a
/// deferred tool without an underscore in its name has no namespace. Nothing else is held against a
/// tool than these and its undocumented parameters.
pub proof fn tools_are_held_to_what_search_needs(def: ToolDefinitionView)
    ensures
        problems_of(def).contains(DiscoverabilityView::NoDescription) <==> trimmed(
            def.description,
        ).len() == 0,
        forall|words: nat| #[trigger]
            problems_of(def).contains(DiscoverabilityView::ThinDescription { words }) <==> trimmed(
                def.description,
            ).len() > 0 && words == word_count(def.description) && words < 6,
        problems_of(def).contains(DiscoverabilityView::NoNamespace) <==> !def.name.contains('_')
            && def.presentation == PresentationHint::Deferred,
        problems_of(def).len() <= 3,
{
    let problems = problems_of(def);
    let described = description_problems(def.description);
    a_namespace_ends_at_the_first_underscore(def.name);
    if described.len() > 0 {
        assert(problems[0] == described[0]);
    }
    if namespace_of(def.name) is None && def.presentation == PresentationHint::Deferred {
        assert(problems[problems.len() - 1] == DiscoverabilityView::NoNamespace);
    }
}

/// What a tool's parameters are found by holds the name of every parameter and every description.
pub proof fn every_parameter_can_be_found(props: Seq<(Seq<char>, JsonView)>, i: int)
    requires
        0 <= i < props.len(),
    ensures
        mentions(property_text(props), props[i].0),
        props[i].1.get_str("description"@) matches Some(d) ==> mentions(property_text(props), d),
    decreases props.len(),
{
    broadcast use group_mentions;

    if i < props.len() - 1 {
        every_parameter_can_be_found(props.drop_last(), i);
    }
}

} // verus!
