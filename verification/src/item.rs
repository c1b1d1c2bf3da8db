//! The conversation: turns, and the items they are made of.

use vstd::prelude::*;

use crate::error::copy_opt;
use crate::ids::{AgentId, CallId, ProviderId, ToolName};
use crate::json::{Json, JsonView};
use crate::taint::{Provenance, ProvenanceView};
use crate::text::{debug_quoted, dec, joined, push_decimal, quote_debug, join, texts, group_mentions, joining_keeps_every_part, mentioning_is_transitive, mentions};

verus! {

/// Who produced a turn.
#[derive(Debug, Clone, Copy, PartialEq, Eq, Hash, Structural)]
pub enum Role {
    /// The operator or end user.
    User,
    /// The model.
    Assistant,
    /// Operator-authored instructions: the stable cache prefix.
    System,
}

/// The name of a role.
pub open spec fn role_name(r: Role) -> Seq<char> {
    match r {
        Role::User => "User"@,
        Role::Assistant => "Assistant"@,
        Role::System => "System"@,
    }
}

impl Role {
    /// The role's name.
    #[must_use]
    pub fn name(self) -> (r: &'static str)
        ensures
            r@ == role_name(self),
    {
        match self {
            Role::User => "User",
            Role::Assistant => "Assistant",
            Role::System => "System",
        }
    }
}

/// How a tool call was made.
#[derive(Debug, PartialEq, Eq)]
#[non_exhaustive]
pub enum Caller {
    /// The model called the tool directly.
    Direct,
    /// A code-mode script called it.
    Code {
        /// The id of the code execution that made the call.
        runner: String,
    },
    /// The frontend executed it.
    Frontend,
    /// A sub-agent called it.
    SubAgent {
        /// Which agent.
        agent: AgentId,
    },
}

impl Clone for Caller {
    fn clone(&self) -> (r: Self)
        ensures
            r == *self,
    {
        match self {
            Caller::Direct => Caller::Direct,
            Caller::Code { runner } => Caller::Code { runner: runner.clone() },
            Caller::Frontend => Caller::Frontend,
            Caller::SubAgent { agent } => Caller::SubAgent { agent: agent.clone() },
        }
    }
}

impl Caller {
    /// Whether the call came from inside a code-mode sandbox.
    #[must_use]
    pub fn is_code(&self) -> (r: bool)
        ensures
            r == (self is Code),
    {
        matches!(self, Caller::Code { .. })
    }
}

/// What a reasoning item exposes.
#[derive(Debug, Clone, Copy, PartialEq, Eq, Structural)]
pub enum ReasoningVisibility {
    /// The text is readable.
    Plain,
    /// The provider redacted it.
    Redacted,
    /// The provider encrypted it and expects it back verbatim.
    Encrypted,
}

/// A media payload, kept separate from text because providers treat media differently for caching.
#[derive(Debug, PartialEq, Eq)]
#[non_exhaustive]
pub enum Media {
    /// An image.
    Image {
        /// MIME type.
        mime: String,
        /// Where the bytes are.
        source: MediaSource,
        /// Provider-specific detail hint. Must match exactly for a cache hit.
        detail: Option<String>,
    },
    /// Audio.
    Audio {
        /// MIME type.
        mime: String,
        /// Where the bytes are.
        source: MediaSource,
    },
    /// A document, for example a PDF.
    Document {
        /// MIME type.
        mime: String,
        /// Where the bytes are.
        source: MediaSource,
        /// Display name, when the provider supports one.
        name: Option<String>,
    },
}

/// Where media bytes live.
#[derive(Debug, PartialEq, Eq)]
#[non_exhaustive]
pub enum MediaSource {
    /// Base64 data, inline.
    Inline {
        /// Base64-encoded bytes.
        data: String,
    },
    /// A URL the provider will fetch.
    Url {
        /// The location.
        url: String,
    },
    /// A handle to something already uploaded to the provider.
    FileId {
        /// The provider's identifier.
        id: String,
    },
}

impl Clone for MediaSource {
    fn clone(&self) -> (r: Self)
        ensures
            r == *self,
    {
        match self {
            MediaSource::Inline { data } => MediaSource::Inline { data: data.clone() },
            MediaSource::Url { url } => MediaSource::Url { url: url.clone() },
            MediaSource::FileId { id } => MediaSource::FileId { id: id.clone() },
        }
    }
}

impl Clone for Media {
    fn clone(&self) -> (r: Self)
        ensures
            r == *self,
    {
        match self {
            Media::Image { mime, source, detail } => Media::Image {
                mime: mime.clone(),
                source: source.clone(),
                detail: copy_opt(detail),
            },
            Media::Audio { mime, source } => Media::Audio {
                mime: mime.clone(),
                source: source.clone(),
            },
            Media::Document { mime, source, name } => Media::Document {
                mime: mime.clone(),
                source: source.clone(),
                name: copy_opt(name),
            },
        }
    }
}

/// Provider-owned state that must survive a round trip untouched, as JSON text.
#[derive(Debug, PartialEq, Eq)]
pub struct ProviderCarry {
    /// Which provider owns this blob. Replaying it to a different provider is a bug.
    pub provider: ProviderId,
    /// The blob, exactly as received.
    pub payload: String,
}

impl Clone for ProviderCarry {
    fn clone(&self) -> (r: Self)
        ensures
            r == *self,
    {
        ProviderCarry { provider: self.provider.clone(), payload: self.payload.clone() }
    }
}

/// Text.
#[derive(Debug, PartialEq, Eq)]
pub struct TextItem {
    /// The text.
    pub text: String,
    /// Where it came from. Absent for operator-authored text.
    pub provenance: Option<Provenance>,
}

/// The model's reasoning.
#[derive(Debug, PartialEq, Eq)]
pub struct ReasoningItem {
    /// A human-readable summary, when the provider gives one.
    pub summary: Option<String>,
    /// What is exposed.
    pub visibility: ReasoningVisibility,
    /// Provider state to replay verbatim.
    pub carry: Option<ProviderCarry>,
}

impl Clone for ReasoningItem {
    fn clone(&self) -> (r: Self)
        ensures
            r == *self,
    {
        ReasoningItem {
            summary: copy_opt(&self.summary),
            visibility: self.visibility,
            carry: match &self.carry {
                Some(c) => Some(c.clone()),
                None => None,
            },
        }
    }
}

/// The model asked for a tool to run.
#[derive(Debug, PartialEq, Eq)]
pub struct ToolCallItem {
    /// Correlation id.
    pub id: CallId,
    /// Which tool.
    pub name: ToolName,
    /// The arguments, unvalidated.
    pub args: Json,
    /// How the call was made.
    pub caller: Caller,
}

/// What a tool call asks for.
pub struct ToolCallView {
    pub id: Seq<char>,
    pub name: Seq<char>,
    pub args: JsonView,
    pub caller: Caller,
}

impl View for ToolCallItem {
    type V = ToolCallView;

    open spec fn view(&self) -> ToolCallView {
        ToolCallView { id: self.id@, name: self.name@, args: self.args@, caller: self.caller }
    }
}

impl DeepView for ToolCallItem {
    type V = ToolCallView;

    open spec fn deep_view(&self) -> ToolCallView {
        self@
    }
}

impl Clone for ToolCallItem {
    fn clone(&self) -> (r: Self)
        ensures
            r@ == self@,
    {
        ToolCallItem {
            id: self.id.clone(),
            name: self.name.clone(),
            args: self.args.copy(),
            caller: self.caller.clone(),
        }
    }
}

/// What a tool returned.
#[derive(Debug, PartialEq, Eq)]
pub struct ToolResultItem {
    /// Correlation id, matching the call.
    pub id: CallId,
    /// The rendered result the model sees.
    pub content: String,
    /// Whether this represents a failure. The model is told either way.
    pub is_error: bool,
    /// How many bytes were cut. Non-zero means the model should be told how to get the rest.
    pub bytes_elided: u64,
    /// Where the result came from.
    pub provenance: Provenance,
}

/// Whether a number is zero, so that it need not be written down.
pub fn is_zero(n: &u64) -> (r: bool)
    ensures
        r == (*n == 0),
{
    *n == 0
}

/// A capability entered the conversation part-way through.
#[derive(Debug, PartialEq, Eq)]
pub struct DiscoveryItem {
    /// What was found.
    pub found: Vec<ToolName>,
    /// How it was found.
    pub via: String,
    /// Roughly what it cost to inject.
    pub est_tokens: u32,
}

/// Something the provider emitted that is not modelled, as JSON text.
#[derive(Debug, PartialEq, Eq)]
pub struct OpaqueItem {
    /// Which provider produced it.
    pub provider: ProviderId,
    /// The provider's own discriminator.
    pub kind: String,
    /// The block, exactly as received.
    pub raw: String,
}

impl Clone for OpaqueItem {
    fn clone(&self) -> (r: Self)
        ensures
            r == *self,
    {
        OpaqueItem {
            provider: self.provider.clone(),
            kind: self.kind.clone(),
            raw: self.raw.clone(),
        }
    }
}

/// One addressable unit of conversation state.
#[derive(Debug, PartialEq, Eq)]
#[non_exhaustive]
pub enum Item {
    /// Text.
    Text(TextItem),
    /// An image, audio clip, or document.
    Media(Media),
    /// The model's reasoning.
    Reasoning(ReasoningItem),
    /// A request to run a tool.
    ToolCall(ToolCallItem),
    /// A tool's output.
    ToolResult(ToolResultItem),
    /// A capability entered the context.
    Discovery(DiscoveryItem),
    /// Preserved verbatim.
    Opaque(OpaqueItem),
}

/// What an item holds.
pub enum ItemView {
    Text { text: Seq<char>, provenance: Option<ProvenanceView> },
    Media(Media),
    Reasoning(ReasoningItem),
    ToolCall(ToolCallView),
    ToolResult {
        id: Seq<char>,
        content: Seq<char>,
        is_error: bool,
        bytes_elided: u64,
        provenance: ProvenanceView,
    },
    Discovery { found: Seq<Seq<char>>, via: Seq<char>, est_tokens: u32 },
    Opaque(OpaqueItem),
}

/// The texts of a list of tool names.
pub open spec fn name_texts(names: Seq<ToolName>) -> Seq<Seq<char>> {
    Seq::new(names.len(), |i: int| names[i]@)
}

/// A copy of a list of tool names.
pub fn copy_names(names: &Vec<ToolName>) -> (r: Vec<ToolName>)
    ensures
        r@ == names@,
{
    let mut out: Vec<ToolName> = Vec::new();
    let mut i: usize = 0;
    while i < names.len()
        invariant
            i <= names@.len(),
            out@ == names@.take(i as int),
        decreases names@.len() - i,
    {
        out.push(names[i].clone());
        i = i + 1;
    }
    assert(out@ == names@);
    out
}

/// The story inside, where there is one.
pub open spec fn opt_story(p: Option<Provenance>) -> Option<ProvenanceView> {
    match p {
        Some(p) => Some(p@),
        None => None,
    }
}

impl View for Item {
    type V = ItemView;

    open spec fn view(&self) -> ItemView {
        match *self {
            Item::Text(t) => ItemView::Text { text: t.text@, provenance: opt_story(t.provenance) },
            Item::Media(m) => ItemView::Media(m),
            Item::Reasoning(r) => ItemView::Reasoning(r),
            Item::ToolCall(c) => ItemView::ToolCall(c@),
            Item::ToolResult(r) => ItemView::ToolResult {
                id: r.id@,
                content: r.content@,
                is_error: r.is_error,
                bytes_elided: r.bytes_elided,
                provenance: r.provenance@,
            },
            Item::Discovery(d) => ItemView::Discovery {
                found: name_texts(d.found@),
                via: d.via@,
                est_tokens: d.est_tokens,
            },
            Item::Opaque(o) => ItemView::Opaque(o),
        }
    }
}

impl DeepView for Item {
    type V = ItemView;

    open spec fn deep_view(&self) -> ItemView {
        self@
    }
}

impl Clone for Item {
    fn clone(&self) -> (r: Self)
        ensures
            r@ == self@,
    {
        match self {
            Item::Text(t) => Item::Text(
                TextItem {
                    text: t.text.clone(),
                    provenance: match &t.provenance {
                        Some(p) => Some(p.clone()),
                        None => None,
                    },
                },
            ),
            Item::Media(m) => Item::Media(m.clone()),
            Item::Reasoning(r) => Item::Reasoning(r.clone()),
            Item::ToolCall(c) => Item::ToolCall(c.clone()),
            Item::ToolResult(r) => Item::ToolResult(
                ToolResultItem {
                    id: r.id.clone(),
                    content: r.content.clone(),
                    is_error: r.is_error,
                    bytes_elided: r.bytes_elided,
                    provenance: r.provenance.clone(),
                },
            ),
            Item::Discovery(d) => Item::Discovery(
                DiscoveryItem {
                    found: copy_names(&d.found),
                    via: d.via.clone(),
                    est_tokens: d.est_tokens,
                },
            ),
            Item::Opaque(o) => Item::Opaque(o.clone()),
        }
    }
}

/// A copy of a list of items.
pub fn copy_items(items: &Vec<Item>) -> (r: Vec<Item>)
    ensures
        r.deep_view() == items.deep_view(),
{
    let mut out: Vec<Item> = Vec::new();
    let mut i: usize = 0;
    while i < items.len()
        invariant
            i <= items@.len(),
            out@.len() == i,
            forall|j: int| 0 <= j < i ==> (#[trigger] out@[j])@ == items@[j]@,
        decreases items@.len() - i,
    {
        out.push(items[i].clone());
        i = i + 1;
    }
    assert(out.deep_view() == items.deep_view());
    out
}

/// Whether an item carries provider state that must be replayed verbatim.
pub open spec fn carries_state(i: ItemView) -> bool {
    match i {
        ItemView::Reasoning(r) => r.carry is Some,
        ItemView::Opaque(_) => true,
        _ => false,
    }
}

impl Item {
    /// Plain text from the operator.
    pub fn text(text: &str) -> (r: Self)
        ensures
            r@ == (ItemView::Text { text: text@, provenance: None }),
    {
        Item::Text(TextItem { text: text.to_owned(), provenance: None })
    }

    /// Text from somewhere outside.
    pub fn text_from(text: &str, provenance: Provenance) -> (r: Self)
        ensures
            r@ == (ItemView::Text { text: text@, provenance: Some(provenance@) }),
    {
        Item::Text(TextItem { text: text.to_owned(), provenance: Some(provenance) })
    }

    /// Whether this item carries provider state that must be replayed verbatim.
    #[must_use]
    pub fn must_round_trip(&self) -> (r: bool)
        ensures
            r == carries_state(self@),
    {
        match self {
            Item::Reasoning(r) => r.carry.is_some(),
            Item::Opaque(_) => true,
            _ => false,
        }
    }

    /// Whether this item is media, which several providers treat as a cache-invalidating change.
    #[must_use]
    pub fn is_media(&self) -> (r: bool)
        ensures
            r == (self@ is Media),
    {
        matches!(self, Item::Media(_))
    }

    /// The correlation id, for the two item kinds that have one.
    #[must_use]
    pub fn call_id(&self) -> (r: Option<&CallId>)
        ensures
            match self@ {
                ItemView::ToolCall(c) => r matches Some(id) && id@ == c.id,
                ItemView::ToolResult { id: i, .. } => r matches Some(id) && id@ == i,
                _ => r is None,
            },
    {
        match self {
            Item::ToolCall(c) => Some(&c.id),
            Item::ToolResult(r) => Some(&r.id),
            _ => None,
        }
    }
}

/// One side of the conversation: a contiguous run of items from a single role.
#[derive(Debug, PartialEq, Eq)]
pub struct Turn {
    /// Who produced it.
    pub role: Role,
    /// The items, in order.
    pub items: Vec<Item>,
}

/// What a turn holds.
#[verifier::ext_equal]
pub struct TurnView {
    pub role: Role,
    pub items: Seq<ItemView>,
}

impl View for Turn {
    type V = TurnView;

    open spec fn view(&self) -> TurnView {
        TurnView { role: self.role, items: self.items.deep_view() }
    }
}

impl DeepView for Turn {
    type V = TurnView;

    open spec fn deep_view(&self) -> TurnView {
        self@
    }
}

impl Clone for Turn {
    fn clone(&self) -> (r: Self)
        ensures
            r@ == self@,
    {
        Turn { role: self.role, items: copy_items(&self.items) }
    }
}

/// A copy of a list of turns.
pub fn copy_turns(turns: &Vec<Turn>) -> (r: Vec<Turn>)
    ensures
        r.deep_view() == turns.deep_view(),
{
    let mut out: Vec<Turn> = Vec::new();
    let mut i: usize = 0;
    while i < turns.len()
        invariant
            i <= turns@.len(),
            out@.len() == i,
            forall|j: int| 0 <= j < i ==> (#[trigger] out@[j])@ == turns@[j]@,
        decreases turns@.len() - i,
    {
        out.push(turns[i].clone());
        i = i + 1;
    }
    assert(out.deep_view() == turns.deep_view());
    out
}

/// The tool calls among some items, in order.
pub open spec fn calls_among(items: Seq<ItemView>) -> Seq<ToolCallView>
    decreases items.len(),
{
    if items.len() == 0 {
        Seq::empty()
    } else {
        match items.last() {
            ItemView::ToolCall(c) => calls_among(items.drop_last()).push(c),
            _ => calls_among(items.drop_last()),
        }
    }
}

/// Copies of the tool calls among some items, in order.
pub fn tool_calls_of(items: &Vec<Item>) -> (r: Vec<ToolCallItem>)
    ensures
        r.deep_view() == calls_among(items.deep_view()),
{
    let mut out: Vec<ToolCallItem> = Vec::new();
    let ghost all = items.deep_view();
    let mut i: usize = 0;
    assert(out.deep_view() == calls_among(all.take(0)));
    while i < items.len()
        invariant
            i <= items@.len(),
            all == items.deep_view(),
            out.deep_view() == calls_among(all.take(i as int)),
        decreases items@.len() - i,
    {
        proof {
            assert(all.take(i + 1).drop_last() == all.take(i as int));
            assert(all.take(i + 1).last() == items@[i as int]@);
        }
        if let Item::ToolCall(c) = &items[i] {
            let ghost before = out.deep_view();
            out.push(c.clone());
            assert(out.deep_view() == before.push(c@));
        }
        i = i + 1;
    }
    assert(all.take(all.len() as int) == all);
    out
}

impl Turn {
    /// A turn from `role` containing `items`.
    pub fn new(role: Role, items: Vec<Item>) -> (r: Self)
        ensures
            r.role == role,
            r.items == items,
    {
        Turn { role, items }
    }

    /// A user turn containing a single text item.
    pub fn user(text: &str) -> (r: Self)
        ensures
            r@ == one_text(Role::User, text@),
    {
        let r = Turn { role: Role::User, items: vec![Item::text(text)] };
        assert(r@.items == one_text(Role::User, text@).items);
        r
    }

    /// A system turn containing a single text item.
    pub fn system(text: &str) -> (r: Self)
        ensures
            r@ == one_text(Role::System, text@),
    {
        let r = Turn { role: Role::System, items: vec![Item::text(text)] };
        assert(r@.items == one_text(Role::System, text@).items);
        r
    }

    /// Every tool call in this turn.
    pub fn tool_calls(&self) -> (r: Vec<ToolCallItem>)
        ensures
            r.deep_view() == calls_among(self@.items),
    {
        tool_calls_of(&self.items)
    }

    /// Whether any item must be replayed verbatim.
    #[must_use]
    pub fn has_provider_carry(&self) -> (r: bool)
        ensures
            r == exists|i: int| 0 <= i < self@.items.len() && carries_state(#[trigger] self@.items[i]),
    {
        let mut i: usize = 0;
        while i < self.items.len()
            invariant
                i <= self.items@.len(),
                forall|j: int| 0 <= j < i ==> !carries_state(#[trigger] self@.items[j]),
            decreases self.items@.len() - i,
        {
            if self.items[i].must_round_trip() {
                assert(carries_state(self@.items[i as int]));
                return true;
            }
            i = i + 1;
        }
        false
    }

    /// Whether this turn contains media.
    #[must_use]
    pub fn has_media(&self) -> (r: bool)
        ensures
            r == exists|i: int| 0 <= i < self@.items.len() && (#[trigger] self@.items[i]) is Media,
    {
        let mut i: usize = 0;
        while i < self.items.len()
            invariant
                i <= self.items@.len(),
                forall|j: int| 0 <= j < i ==> !((#[trigger] self@.items[j]) is Media),
            decreases self.items@.len() - i,
        {
            if self.items[i].is_media() {
                assert(self@.items[i as int] is Media);
                return true;
            }
            i = i + 1;
        }
        false
    }
}

/// A turn that says one thing.
pub open spec fn one_text(role: Role, text: Seq<char>) -> TurnView {
    TurnView { role, items: seq![ItemView::Text { text, provenance: None }] }
}

/// An optional text as it is shown for debugging.
pub open spec fn opt_debug(s: Option<String>) -> Seq<char> {
    match s {
        Some(t) => "Some("@ + debug_quoted(t@) + ")"@,
        None => "None"@,
    }
}

fn debug_opt(s: &Option<String>) -> (r: String)
    ensures
        r@ == opt_debug(*s),
{
    match s {
        Some(t) => {
            let mut out = "Some(".to_owned();
            out.push_str(quote_debug(t.as_str()).as_str());
            out.push_str(")");
            out
        },
        None => "None".to_owned(),
    }
}

/// Where media bytes live, as it is shown for debugging.
pub open spec fn source_debug(s: MediaSource) -> Seq<char> {
    match s {
        MediaSource::Inline { data } => "Inline { data: "@ + debug_quoted(data@) + " }"@,
        MediaSource::Url { url } => "Url { url: "@ + debug_quoted(url@) + " }"@,
        MediaSource::FileId { id } => "FileId { id: "@ + debug_quoted(id@) + " }"@,
    }
}

fn debug_source(s: &MediaSource) -> (r: String)
    ensures
        r@ == source_debug(*s),
{
    match s {
        MediaSource::Inline { data } => {
            let mut out = "Inline { data: ".to_owned();
            out.push_str(quote_debug(data.as_str()).as_str());
            out.push_str(" }");
            out
        },
        MediaSource::Url { url } => {
            let mut out = "Url { url: ".to_owned();
            out.push_str(quote_debug(url.as_str()).as_str());
            out.push_str(" }");
            out
        },
        MediaSource::FileId { id } => {
            let mut out = "FileId { id: ".to_owned();
            out.push_str(quote_debug(id.as_str()).as_str());
            out.push_str(" }");
            out
        },
    }
}

/// A media payload as it is shown for debugging.
pub open spec fn media_debug(m: Media) -> Seq<char> {
    match m {
        Media::Image { mime, source, detail } => "Image { mime: "@ + debug_quoted(mime@)
            + ", source: "@ + source_debug(source) + ", detail: "@ + opt_debug(detail) + " }"@,
        Media::Audio { mime, source } => "Audio { mime: "@ + debug_quoted(mime@) + ", source: "@
            + source_debug(source) + " }"@,
        Media::Document { mime, source, name } => "Document { mime: "@ + debug_quoted(mime@)
            + ", source: "@ + source_debug(source) + ", name: "@ + opt_debug(name) + " }"@,
    }
}

fn debug_media(m: &Media) -> (r: String)
    ensures
        r@ == media_debug(*m),
{
    match m {
        Media::Image { mime, source, detail } => {
            let mut out = "Image { mime: ".to_owned();
            out.push_str(quote_debug(mime.as_str()).as_str());
            out.push_str(", source: ");
            out.push_str(debug_source(source).as_str());
            out.push_str(", detail: ");
            out.push_str(debug_opt(detail).as_str());
            out.push_str(" }");
            out
        },
        Media::Audio { mime, source } => {
            let mut out = "Audio { mime: ".to_owned();
            out.push_str(quote_debug(mime.as_str()).as_str());
            out.push_str(", source: ");
            out.push_str(debug_source(source).as_str());
            out.push_str(" }");
            out
        },
        Media::Document { mime, source, name } => {
            let mut out = "Document { mime: ".to_owned();
            out.push_str(quote_debug(mime.as_str()).as_str());
            out.push_str(", source: ");
            out.push_str(debug_source(source).as_str());
            out.push_str(", name: ");
            out.push_str(debug_opt(name).as_str());
            out.push_str(" }");
            out
        },
    }
}

/// What a reasoning item exposes, by name.
pub open spec fn visibility_name(v: ReasoningVisibility) -> Seq<char> {
    match v {
        ReasoningVisibility::Plain => "Plain"@,
        ReasoningVisibility::Redacted => "Redacted"@,
        ReasoningVisibility::Encrypted => "Encrypted"@,
    }
}

/// A provider id as it is shown for debugging.
pub open spec fn provider_debug(p: ProviderId) -> Seq<char> {
    "ProviderId("@ + debug_quoted(p@) + ")"@
}

fn debug_provider(p: &ProviderId) -> (r: String)
    ensures
        r@ == provider_debug(*p),
{
    let mut out = "ProviderId(".to_owned();
    out.push_str(quote_debug(p.as_str()).as_str());
    out.push_str(")");
    out
}

/// Provider state as it is shown for debugging.
pub open spec fn carry_debug(c: Option<ProviderCarry>) -> Seq<char> {
    match c {
        Some(c) => "Some(ProviderCarry { provider: "@ + provider_debug(c.provider)
            + ", payload: RawValue("@ + c.payload@ + ") })"@,
        None => "None"@,
    }
}

fn debug_carry(c: &Option<ProviderCarry>) -> (r: String)
    ensures
        r@ == carry_debug(*c),
{
    match c {
        Some(c) => {
            let mut out = "Some(ProviderCarry { provider: ".to_owned();
            out.push_str(debug_provider(&c.provider).as_str());
            out.push_str(", payload: RawValue(");
            out.push_str(c.payload.as_str());
            out.push_str(") })");
            out
        },
        None => "None".to_owned(),
    }
}

/// Tool names as they are shown for debugging.
pub open spec fn names_debug(names: Seq<Seq<char>>) -> Seq<Seq<char>> {
    Seq::new(names.len(), |i: int| "ToolName("@ + debug_quoted(names[i]) + ")"@)
}

fn debug_names(names: &Vec<ToolName>) -> (r: Vec<String>)
    ensures
        texts(r@) == names_debug(name_texts(names@)),
{
    let mut out: Vec<String> = Vec::new();
    let mut i: usize = 0;
    while i < names.len()
        invariant
            i <= names@.len(),
            out@.len() == i,
            forall|j: int| 0 <= j < i ==> (#[trigger] out@[j])@ == names_debug(name_texts(names@))[j],
        decreases names@.len() - i,
    {
        let mut s = "ToolName(".to_owned();
        s.push_str(quote_debug(names[i].as_str()).as_str());
        s.push_str(")");
        out.push(s);
        i = i + 1;
    }
    assert(texts(out@) == names_debug(name_texts(names@)));
    out
}

/// An item that is neither text nor a tool call or result, as it is shown for debugging.
pub open spec fn item_debug(i: ItemView) -> Seq<char> {
    match i {
        ItemView::Media(m) => "Media("@ + media_debug(m) + ")"@,
        ItemView::Reasoning(r) => "Reasoning(ReasoningItem { summary: "@ + opt_debug(r.summary)
            + ", visibility: "@ + visibility_name(r.visibility) + ", carry: "@ + carry_debug(r.carry)
            + " })"@,
        ItemView::Discovery { found, via, est_tokens } => "Discovery(DiscoveryItem { found: ["@
            + joined(names_debug(found), ", "@) + "], via: "@ + debug_quoted(via) + ", est_tokens: "@
            + dec(est_tokens as nat) + " })"@,
        ItemView::Opaque(o) => "Opaque(OpaqueItem { provider: "@ + provider_debug(o.provider)
            + ", kind: "@ + debug_quoted(o.kind@) + ", raw: RawValue("@ + o.raw@ + ") })"@,
        _ => Seq::empty(),
    }
}

/// An item that is neither text nor a tool call or result, as it is shown for debugging. Nothing
/// for those.
pub fn debug_item(item: &Item) -> (r: String)
    ensures
        r@ == item_debug(item@),
{
    match item {
        Item::Media(m) => {
            let mut out = "Media(".to_owned();
            out.push_str(debug_media(m).as_str());
            out.push_str(")");
            out
        },
        Item::Reasoning(r) => {
            let mut out = "Reasoning(ReasoningItem { summary: ".to_owned();
            out.push_str(debug_opt(&r.summary).as_str());
            out.push_str(", visibility: ");
            out.push_str(
                match r.visibility {
                    ReasoningVisibility::Plain => "Plain",
                    ReasoningVisibility::Redacted => "Redacted",
                    ReasoningVisibility::Encrypted => "Encrypted",
                },
            );
            out.push_str(", carry: ");
            out.push_str(debug_carry(&r.carry).as_str());
            out.push_str(" })");
            out
        },
        Item::Discovery(d) => {
            let mut out = "Discovery(DiscoveryItem { found: [".to_owned();
            out.push_str(join(&debug_names(&d.found), ", ").as_str());
            out.push_str("], via: ");
            out.push_str(quote_debug(d.via.as_str()).as_str());
            out.push_str(", est_tokens: ");
            push_decimal(&mut out, d.est_tokens as u64);
            out.push_str(" })");
            out
        },
        Item::Opaque(o) => {
            let mut out = "Opaque(OpaqueItem { provider: ".to_owned();
            out.push_str(debug_provider(&o.provider).as_str());
            out.push_str(", kind: ");
            out.push_str(quote_debug(o.kind.as_str()).as_str());
            out.push_str(", raw: RawValue(");
            out.push_str(o.raw.as_str());
            out.push_str(") })");
            out
        },
        _ => String::new(),
    }
}

/// The calls of a turn are those of its items, in their order: a call is a call, any other item is
/// none, and one list of items behind another adds its calls behind.
pub proof fn calls_are_found_in_order(a: Seq<ItemView>, b: Seq<ItemView>, item: ItemView)
    ensures
        calls_among(a + b) == calls_among(a) + calls_among(b),
        item matches ItemView::ToolCall(c) ==> calls_among(seq![item]) == seq![c],
        !(item is ToolCall) ==> calls_among(seq![item]) == Seq::<ToolCallView>::empty(),
    decreases b.len(),
{
    reveal_with_fuel(calls_among, 2);
    assert(seq![item].drop_last() == Seq::<ItemView>::empty());
    if b.len() == 0 {
        assert(a + b == a);
    } else {
        calls_are_found_in_order(a, b.drop_last(), item);
        assert((a + b).drop_last() == a + b.drop_last());
        assert((a + b).last() == b.last());
    }
}

/// What is shown of an item that is no text and no call holds what is inside it: where a medium
/// comes from, what was thought, which tools were found and how, and what a provider sent.
pub proof fn what_an_item_holds_is_shown(item: ItemView)
    ensures
        match item {
            ItemView::Media(m) => mentions(item_debug(item), media_debug(m)),
            ItemView::Reasoning(r) => (r.summary matches Some(s) ==> mentions(
                item_debug(item),
                debug_quoted(s@),
            )) && (r.carry matches Some(c) ==> mentions(item_debug(item), c.payload@) && mentions(
                item_debug(item),
                debug_quoted(c.provider@),
            )),
            ItemView::Discovery { found, via, est_tokens } => mentions(
                item_debug(item),
                debug_quoted(via),
            ) && mentions(item_debug(item), dec(est_tokens as nat)) && forall|i: int|
                0 <= i < found.len() ==> mentions(item_debug(item), debug_quoted(#[trigger] found[i])),
            ItemView::Opaque(o) => mentions(item_debug(item), debug_quoted(o.provider@)) && mentions(
                item_debug(item),
                debug_quoted(o.kind@),
            ) && mentions(item_debug(item), o.raw@),
            _ => true,
        },
{
    broadcast use group_mentions;

    if let ItemView::Discovery { found, via, est_tokens } = item {
        let names = names_debug(found);
        assert forall|i: int| 0 <= i < found.len() implies mentions(
            item_debug(item),
            debug_quoted(#[trigger] found[i]),
        ) by {
            joining_keeps_every_part(names, ", "@, i, names[i]);
            assert(mentions(names[i], debug_quoted(found[i])));
            mentioning_is_transitive(joined(names, ", "@), names[i], debug_quoted(found[i]));
        }
    }
}

/// What is shown of a medium holds its kind of content and where it comes from.
pub proof fn what_a_medium_is_is_shown(m: Media)
    ensures
        match m {
            Media::Image { mime, source, detail } => mentions(media_debug(m), debug_quoted(mime@))
                && mentions(media_debug(m), source_debug(source)) && (detail matches Some(d)
                ==> mentions(media_debug(m), debug_quoted(d@))),
            Media::Audio { mime, source } => mentions(media_debug(m), debug_quoted(mime@))
                && mentions(media_debug(m), source_debug(source)),
            Media::Document { mime, source, name } => mentions(media_debug(m), debug_quoted(mime@))
                && mentions(media_debug(m), source_debug(source)) && (name matches Some(n)
                ==> mentions(media_debug(m), debug_quoted(n@))),
        },
        forall|data: String|
            mentions(
                #[trigger] source_debug(MediaSource::Inline { data }),
                debug_quoted(data@),
            ),
        forall|url: String|
            mentions(#[trigger] source_debug(MediaSource::Url { url }), debug_quoted(url@)),
        forall|id: String|
            mentions(#[trigger] source_debug(MediaSource::FileId { id }), debug_quoted(id@)),
{
    broadcast use group_mentions;

}

/// Reasoning has to go back to its provider exactly where the provider sent something along with it,
/// what is opaque always has to, and nothing else does.
pub proof fn only_what_a_provider_sent_goes_back(item: ItemView)
    ensures
        match item {
            ItemView::Reasoning(r) => carries_state(item) <==> r.carry is Some,
            ItemView::Opaque(_) => carries_state(item),
            ItemView::Text { .. }
            | ItemView::ToolCall(_)
            | ItemView::ToolResult { .. }
            | ItemView::Media(_)
            | ItemView::Discovery { .. } => !carries_state(item),
        },
{
}

} // verus!
