//! What the `tool` attribute makes of the function it stands on.
//!
//! A parameter's doc comment becomes its description in the tool's schema, which is what tool search
//! matches on. The token work is done elsewhere; here the parsed pieces are plain values, and the
//! result says what is to be generated.

use vstd::prelude::*;

use crate::error::opt_text;
use crate::text::{chars_of, join, joined, no_text, same_text, split_char, split_on, text_of, texts, trim, trimmed, trimmed_back, trimmed_front, group_mentions, mentions};

verus! {

/// One option of the attribute, as it was written.
#[derive(Debug, PartialEq, Eq)]
pub enum Written {
    /// `key = value`.
    NameValue {
        /// The key, where it is a single identifier.
        key: Option<String>,
        /// The value, where it is a string literal.
        value: Option<String>,
    },
    /// `key(..)`.
    List {
        /// The key, where it is a single identifier.
        key: Option<String>,
        /// The items, each the string literal it is, or nothing; or why they could not be read.
        items: Result<Vec<Option<String>>, String>,
    },
    /// Anything else.
    Other,
}

/// One option of the attribute, as it was written.
#[verifier::ext_equal]
pub enum WrittenView {
    NameValue { key: Option<Seq<char>>, value: Option<Seq<char>> },
    List { key: Option<Seq<char>>, items: Result<Seq<Option<Seq<char>>>, Seq<char>> },
    Other,
}

/// The texts among some items.
pub open spec fn opt_texts(items: Seq<Option<String>>) -> Seq<Option<Seq<char>>> {
    Seq::new(items.len(), |i: int| opt_text(items[i]))
}

impl View for Written {
    type V = WrittenView;

    open spec fn view(&self) -> WrittenView {
        match *self {
            Written::NameValue { key, value } => WrittenView::NameValue {
                key: opt_text(key),
                value: opt_text(value),
            },
            Written::List { key, items } => WrittenView::List {
                key: opt_text(key),
                items: match items {
                    Ok(items) => Ok(opt_texts(items@)),
                    Err(why) => Err(why@),
                },
            },
            Written::Other => WrittenView::Other,
        }
    }
}

impl DeepView for Written {
    type V = WrittenView;

    open spec fn deep_view(&self) -> WrittenView {
        self@
    }
}

/// What a refusal points at.
#[derive(Debug, Clone, Copy, PartialEq, Eq, Structural)]
pub enum Place {
    /// The key of an option.
    Key(usize),
    /// The value of an option.
    Value(usize),
    /// An item in the list of an option.
    Item(usize, usize),
    /// A whole option.
    Whole(usize),
    /// The function's name.
    Name,
    /// A parameter.
    Param(usize),
    /// A parameter's pattern.
    Pattern(usize),
}

/// Why nothing is generated.
#[derive(Debug, PartialEq, Eq)]
pub struct MacroError {
    /// What the refusal points at.
    pub at: Place,
    /// What is wrong.
    pub message: String,
}

/// Why nothing is generated.
#[verifier::ext_equal]
pub struct MacroErrorView {
    pub at: Place,
    pub message: Seq<char>,
}

impl View for MacroError {
    type V = MacroErrorView;

    open spec fn view(&self) -> MacroErrorView {
        MacroErrorView { at: self.at, message: self.message@ }
    }
}

/// The options of the attribute.
#[derive(Debug, PartialEq, Eq)]
pub struct Options {
    /// A description that replaces the doc comment.
    pub description: Option<String>,
    /// The capabilities the tool needs.
    pub capabilities: Vec<String>,
    /// What a call costs.
    pub cost_hint: Option<String>,
    /// Who may call it.
    pub caller: Option<String>,
    /// How it is shown to the model.
    pub presentation: Option<String>,
}

/// The options of the attribute.
#[verifier::ext_equal]
pub struct OptionsView {
    pub description: Option<Seq<char>>,
    pub capabilities: Seq<Seq<char>>,
    pub cost_hint: Option<Seq<char>>,
    pub caller: Option<Seq<char>>,
    pub presentation: Option<Seq<char>>,
}

impl View for Options {
    type V = OptionsView;

    open spec fn view(&self) -> OptionsView {
        OptionsView {
            description: opt_text(self.description),
            capabilities: texts(self.capabilities@),
            cost_hint: opt_text(self.cost_hint),
            caller: opt_text(self.caller),
            presentation: opt_text(self.presentation),
        }
    }
}

/// No option at all.
pub open spec fn no_options() -> OptionsView {
    OptionsView {
        description: None,
        capabilities: Seq::empty(),
        cost_hint: None,
        caller: None,
        presentation: None,
    }
}

/// The message about an unknown key.
pub open spec fn unknown_option(key: Seq<char>) -> Seq<char> {
    "unknown option `"@ + key
        + "`; expected one of description, cost_hint, caller, presentation, or capabilities(..)"@
}

/// What an option of the form `key = value` makes of the options before it.
pub open spec fn keyed(
    o: OptionsView,
    key: Seq<char>,
    value: Seq<char>,
    i: nat,
) -> Result<OptionsView, MacroErrorView> {
    if key == "description"@ {
        Ok(OptionsView { description: Some(value), ..o })
    } else if key == "cost_hint"@ {
        Ok(OptionsView { cost_hint: Some(value), ..o })
    } else if key == "caller"@ {
        Ok(OptionsView { caller: Some(value), ..o })
    } else if key == "presentation"@ {
        Ok(OptionsView { presentation: Some(value), ..o })
    } else {
        Err(MacroErrorView { at: Place::Key(i as usize), message: unknown_option(key) })
    }
}

/// How many items there are before the first that is no text.
pub open spec fn texts_before(items: Seq<Option<Seq<char>>>) -> nat
    decreases items.len(),
{
    if items.len() == 0 || items[0] is None {
        0
    } else {
        1 + texts_before(items.drop_first())
    }
}

/// The texts of some items that are all texts.
pub open spec fn all_texts(items: Seq<Option<Seq<char>>>) -> Seq<Seq<char>> {
    Seq::new(items.len(), |i: int| items[i]->0)
}

/// What a list of capabilities makes of the options before it.
pub open spec fn with_capabilities(
    o: OptionsView,
    items: Seq<Option<Seq<char>>>,
    i: nat,
) -> Result<OptionsView, MacroErrorView> {
    if texts_before(items) < items.len() {
        Err(
            MacroErrorView {
                at: Place::Item(i as usize, texts_before(items) as usize),
                message: "capabilities take string literals"@,
            },
        )
    } else {
        Ok(OptionsView { capabilities: o.capabilities + all_texts(items), ..o })
    }
}

/// The refusal of what is neither of the forms that an option has.
pub open spec fn no_option(i: nat) -> MacroErrorView {
    MacroErrorView {
        at: Place::Whole(i as usize),
        message: "expected `key = \"value\"` or `capabilities(\"..\")`"@,
    }
}

/// What one option makes of the options before it.
pub open spec fn with_option(
    o: OptionsView,
    w: WrittenView,
    i: nat,
) -> Result<OptionsView, MacroErrorView> {
    match w {
        WrittenView::NameValue { key, value: None } => Err(
            MacroErrorView { at: Place::Value(i as usize), message: "expected a string literal"@ },
        ),
        WrittenView::NameValue { key: Some(k), value: Some(v) } => keyed(o, k, v, i),
        WrittenView::NameValue { key: None, value: Some(v) } => keyed(o, ""@, v, i),
        WrittenView::List { key, items } => if key == Some("capabilities"@) {
            match items {
                Ok(items) => with_capabilities(o, items, i),
                Err(why) => Err(MacroErrorView { at: Place::Whole(i as usize), message: why }),
            }
        } else {
            Err(no_option(i))
        },
        WrittenView::Other => Err(no_option(i)),
    }
}

/// What some options say, read in turn; the first that is wrong refuses them all.
pub open spec fn options_of(ws: Seq<WrittenView>) -> Result<OptionsView, MacroErrorView>
    decreases ws.len(),
{
    if ws.len() == 0 {
        Ok(no_options())
    } else {
        match options_of(ws.drop_last()) {
            Err(e) => Err(e),
            Ok(o) => with_option(o, ws.last(), (ws.len() - 1) as nat),
        }
    }
}

proof fn the_first_refusal_stands(ws: Seq<WrittenView>, n: int)
    requires
        0 <= n <= ws.len(),
        options_of(ws.take(n)) is Err,
    ensures
        options_of(ws) == options_of(ws.take(n)),
    decreases ws.len() - n,
{
    if n < ws.len() {
        assert(ws.take(n + 1).drop_last() == ws.take(n));
        the_first_refusal_stands(ws, n + 1);
    } else {
        assert(ws.take(n) == ws);
    }
}

proof fn texts_before_a_gap(items: Seq<Option<Seq<char>>>, n: nat)
    requires
        n <= items.len(),
        forall|i: int| 0 <= i < n ==> (#[trigger] items[i]) is Some,
        n < items.len() ==> items[n as int] is None,
    ensures
        texts_before(items) == n,
    decreases n,
{
    if n > 0 {
        assert(items[0] is Some);
        let rest = items.drop_first();
        assert forall|i: int| 0 <= i < n - 1 implies (#[trigger] rest[i]) is Some by {
            assert(rest[i] == items[i + 1]);
        }
        texts_before_a_gap(rest, (n - 1) as nat);
    }
}

fn set_option(given: Options, key: &str, value: String, i: usize) -> (r: Result<
    Options,
    MacroError,
>)
    ensures
        match r {
            Ok(n) => keyed(given@, key@, value@, i as nat) == Ok::<OptionsView, MacroErrorView>(n@),
            Err(e) => keyed(given@, key@, value@, i as nat) == Err::<OptionsView, MacroErrorView>(e@),
        },
{
    let mut o = given;
    if same_text(key, "description") {
        o.description = Some(value);
        Ok(o)
    } else if same_text(key, "cost_hint") {
        o.cost_hint = Some(value);
        Ok(o)
    } else if same_text(key, "caller") {
        o.caller = Some(value);
        Ok(o)
    } else if same_text(key, "presentation") {
        o.presentation = Some(value);
        Ok(o)
    } else {
        let mut message = "unknown option `".to_owned();
        message.push_str(key);
        message.push_str(
            "`; expected one of description, cost_hint, caller, presentation, or capabilities(..)",
        );
        Err(MacroError { at: Place::Key(i), message })
    }
}

fn add_capabilities(given: Options, items: &Vec<Option<String>>, i: usize) -> (r: Result<
    Options,
    MacroError,
>)
    ensures
        ({
            let want = with_capabilities(given@, opt_texts(items@), i as nat);
            match r {
                Ok(n) => want == Ok::<OptionsView, MacroErrorView>(n@),
                Err(e) => want == Err::<OptionsView, MacroErrorView>(e@),
            }
        }),
{
    let ghost start = given@;
    let mut o = given;
    let ghost all = opt_texts(items@);
    let mut j: usize = 0;
    assert(all_texts(all.take(0)) == Seq::<Seq<char>>::empty());
    while j < items.len()
        invariant
            j <= items@.len(),
            all == opt_texts(items@),
            forall|k: int| 0 <= k < j ==> (#[trigger] all[k]) is Some,
            o@ == (OptionsView {
                capabilities: start.capabilities + all_texts(all.take(j as int)),
                ..start
            }),
        decreases items@.len() - j,
    {
        match &items[j] {
            Some(text) => {
                let ghost before = o.capabilities@;
                o.capabilities.push(text.clone());
                assert(all[j as int] == Some(text@));
                assert(texts(o.capabilities@) == texts(before).push(text@));
                assert(all_texts(all.take(j + 1)) == all_texts(all.take(j as int)).push(text@));
            },
            None => {
                proof {
                    assert(all[j as int] is None);
                    texts_before_a_gap(all, j as nat);
                }
                return Err(
                    MacroError {
                        at: Place::Item(i, j),
                        message: "capabilities take string literals".to_owned(),
                    },
                );
            },
        }
        j = j + 1;
    }
    proof {
        assert(all.take(all.len() as int) == all);
        texts_before_a_gap(all, all.len());
    }
    Ok(o)
}

fn refuse_option(i: usize) -> (r: MacroError)
    ensures
        r@ == no_option(i as nat),
{
    MacroError {
        at: Place::Whole(i),
        message: "expected `key = \"value\"` or `capabilities(\"..\")`".to_owned(),
    }
}

/// Read the options of the attribute. The first that is wrong refuses them all, and is named.
pub fn parse_options(args: &[Written]) -> (r: Result<Options, MacroError>)
    ensures
        match r {
            Ok(o) => options_of(args.deep_view()) == Ok::<OptionsView, MacroErrorView>(o@),
            Err(e) => options_of(args.deep_view()) == Err::<OptionsView, MacroErrorView>(e@),
        },
{
    let ghost all = args.deep_view();
    let mut out = Options {
        description: None,
        capabilities: Vec::new(),
        cost_hint: None,
        caller: None,
        presentation: None,
    };
    assert(out@ == no_options());
    let mut i: usize = 0;
    while i < args.len()
        invariant
            i <= args@.len(),
            all == args.deep_view(),
            all.len() == args@.len(),
            options_of(all.take(i as int)) == Ok::<OptionsView, MacroErrorView>(out@),
        decreases args@.len() - i,
    {
        assert(all.take(i + 1).drop_last() == all.take(i as int));
        assert(all.take(i + 1).last() == args@[i as int]@);
        let ghost next = options_of(all.take(i + 1));
        let step = match &args[i] {
            Written::NameValue { key, value } => match value {
                None => Err(
                    MacroError {
                        at: Place::Value(i),
                        message: "expected a string literal".to_owned(),
                    },
                ),
                Some(v) => match key {
                    Some(k) => set_option(out, k.as_str(), v.clone(), i),
                    None => set_option(out, "", v.clone(), i),
                },
            },
            Written::List { key, items } => {
                let capabilities = match key {
                    Some(k) => same_text(k.as_str(), "capabilities"),
                    None => false,
                };
                if capabilities {
                    match items {
                        Ok(items) => add_capabilities(out, items, i),
                        Err(why) => Err(MacroError { at: Place::Whole(i), message: why.clone() }),
                    }
                } else {
                    Err(refuse_option(i))
                }
            },
            Written::Other => Err(refuse_option(i)),
        };
        match step {
            Ok(o) => {
                out = o;
            },
            Err(e) => {
                proof {
                    the_first_refusal_stands(all, i + 1);
                }
                return Err(e);
            },
        }
        i = i + 1;
    }
    assert(all.take(all.len() as int) == all);
    Ok(out)
}

/// An attribute on a function or a parameter.
#[derive(Debug, PartialEq, Eq)]
pub struct Attribute {
    /// Its name, where that is a single identifier.
    pub name: Option<String>,
    /// Its value, where it is written `name = "value"`.
    pub value: Option<String>,
}

/// An attribute on a function or a parameter.
#[verifier::ext_equal]
pub struct AttributeView {
    pub name: Option<Seq<char>>,
    pub value: Option<Seq<char>>,
}

impl View for Attribute {
    type V = AttributeView;

    open spec fn view(&self) -> AttributeView {
        AttributeView { name: opt_text(self.name), value: opt_text(self.value) }
    }
}

impl DeepView for Attribute {
    type V = AttributeView;

    open spec fn deep_view(&self) -> AttributeView {
        self@
    }
}

/// Whether an attribute is a line of a doc comment.
pub open spec fn is_doc(a: AttributeView) -> bool {
    a.name == Some("doc"@)
}

/// The lines of a doc comment, each without the white space at its ends.
pub open spec fn doc_lines(attrs: Seq<AttributeView>) -> Seq<Seq<char>>
    decreases attrs.len(),
{
    if attrs.len() == 0 {
        Seq::empty()
    } else {
        let before = doc_lines(attrs.drop_last());
        let last = attrs.last();
        if is_doc(last) && last.value is Some {
            before.push(trimmed(last.value->0))
        } else {
            before
        }
    }
}

/// The text of a doc comment: its lines, joined by spaces; nothing where it says nothing.
pub open spec fn doc_text(attrs: Seq<AttributeView>) -> Option<Seq<char>> {
    let whole = trimmed(joined(doc_lines(attrs), " "@));
    if whole.len() == 0 {
        None
    } else {
        Some(whole)
    }
}

impl Attribute {
    /// Whether this is a line of a doc comment, which is not repeated on the generated function's
    /// parameters.
    pub fn is_doc(&self) -> (r: bool)
        ensures
            r == is_doc(self@),
    {
        match &self.name {
            Some(n) => same_text(n.as_str(), "doc"),
            None => false,
        }
    }
}

/// Join the lines of a doc comment into one trimmed text.
pub fn doc_of(attrs: &[Attribute]) -> (r: Option<String>)
    ensures
        opt_text(r) == doc_text(attrs.deep_view()),
{
    let ghost all = attrs.deep_view();
    let mut lines: Vec<String> = Vec::new();
    let mut i: usize = 0;
    assert(texts(lines@) == doc_lines(all.take(0)));
    while i < attrs.len()
        invariant
            i <= attrs@.len(),
            all == attrs.deep_view(),
            all.len() == attrs@.len(),
            texts(lines@) == doc_lines(all.take(i as int)),
        decreases attrs@.len() - i,
    {
        assert(all.take(i + 1).drop_last() == all.take(i as int));
        assert(all.take(i + 1).last() == attrs@[i as int]@);
        if attrs[i].is_doc() {
            if let Some(text) = &attrs[i].value {
                let ghost before = lines@;
                let line = trim(text.as_str());
                lines.push(line);
                assert(texts(lines@) == texts(before).push(trimmed(text@)));
            }
        }
        i = i + 1;
    }
    assert(all.take(all.len() as int) == all);
    let whole = trim(join(&lines, " ").as_str());
    if no_text(whole.as_str()) {
        None
    } else {
        Some(whole)
    }
}

/// A character in upper case, which may be more than one character.
pub uninterp spec fn upper_case(c: char) -> Seq<char>;

/// `char::to_uppercase`, its characters put together. It is a function of the character; which
/// characters it maps to is not stated.
#[verifier::external_body]
fn to_upper(c: char) -> (r: String)
    ensures
        r@ == upper_case(c),
{
    c.to_uppercase().to_string()
}

/// A word with its first character in upper case.
pub open spec fn capitalised(word: Seq<char>) -> Seq<char> {
    if word.len() == 0 {
        word
    } else {
        upper_case(word[0]) + word.drop_first()
    }
}

/// Some words run together, each with its first character in upper case.
pub open spec fn pascal(words: Seq<Seq<char>>) -> Seq<char>
    decreases words.len(),
{
    if words.len() == 0 {
        Seq::empty()
    } else {
        pascal(words.drop_last()) + capitalised(words.last())
    }
}

/// A name in snake case, written in Pascal case.
pub fn to_pascal(snake: &str) -> (r: String)
    ensures
        r@ == pascal(split_on(snake@, '_')),
{
    let words = split_char(snake, '_');
    let ghost all = texts(words@);
    let mut out = String::new();
    let mut i: usize = 0;
    assert(out@ == pascal(all.take(0)));
    while i < words.len()
        invariant
            i <= words@.len(),
            all == texts(words@),
            out@ == pascal(all.take(i as int)),
        decreases words@.len() - i,
    {
        assert(all.take(i + 1).drop_last() == all.take(i as int));
        assert(all.take(i + 1).last() == words@[i as int]@);
        let chars = chars_of(words[i].as_str());
        let ghost before = out@;
        if chars.len() > 0 {
            out.push_str(to_upper(chars[0]).as_str());
            out.push_str(text_of(&chars, 1, chars.len()).as_str());
            assert(chars@.subrange(1, chars@.len() as int) == chars@.drop_first());
            assert(out@ == before + capitalised(chars@));
        } else {
            assert(before + capitalised(chars@) == before);
        }
        i = i + 1;
    }
    assert(all.take(all.len() as int) == all);
    out
}

/// A parameter of the function.
#[derive(Debug, PartialEq, Eq)]
pub enum Param {
    /// `self`.
    Receiver,
    /// A pattern that is no plain identifier.
    Pattern,
    /// A plain identifier.
    Plain {
        /// The identifier.
        ident: String,
        /// The attributes on it.
        attrs: Vec<Attribute>,
    },
}

/// A parameter of the function.
#[verifier::ext_equal]
pub enum ParamView {
    Receiver,
    Pattern,
    Plain { ident: Seq<char>, attrs: Seq<AttributeView> },
}

impl View for Param {
    type V = ParamView;

    open spec fn view(&self) -> ParamView {
        match *self {
            Param::Receiver => ParamView::Receiver,
            Param::Pattern => ParamView::Pattern,
            Param::Plain { ident, attrs } => ParamView::Plain {
                ident: ident@,
                attrs: attrs.deep_view(),
            },
        }
    }
}

impl DeepView for Param {
    type V = ParamView;

    open spec fn deep_view(&self) -> ParamView {
        self@
    }
}

/// The function the attribute stands on.
#[derive(Debug, PartialEq, Eq)]
pub struct Function {
    /// Its name.
    pub ident: String,
    /// The attributes on it.
    pub attrs: Vec<Attribute>,
    /// Its parameters.
    pub inputs: Vec<Param>,
}

/// The function the attribute stands on.
#[verifier::ext_equal]
pub struct FunctionView {
    pub ident: Seq<char>,
    pub attrs: Seq<AttributeView>,
    pub inputs: Seq<ParamView>,
}

impl View for Function {
    type V = FunctionView;

    open spec fn view(&self) -> FunctionView {
        FunctionView {
            ident: self.ident@,
            attrs: self.attrs.deep_view(),
            inputs: self.inputs.deep_view(),
        }
    }
}

/// A field of the generated arguments.
#[derive(Debug, PartialEq, Eq)]
pub struct Field {
    /// Its name.
    pub ident: String,
    /// Its description in the schema.
    pub doc: Option<String>,
}

/// A field of the generated arguments.
#[verifier::ext_equal]
pub struct FieldView {
    pub ident: Seq<char>,
    pub doc: Option<Seq<char>>,
}

impl View for Field {
    type V = FieldView;

    open spec fn view(&self) -> FieldView {
        FieldView { ident: self.ident@, doc: opt_text(self.doc) }
    }
}

impl DeepView for Field {
    type V = FieldView;

    open spec fn deep_view(&self) -> FieldView {
        self@
    }
}

/// What is to be generated.
#[derive(Debug, PartialEq, Eq)]
pub struct Expansion {
    /// The name of the struct that holds the arguments.
    pub args_struct: String,
    /// The name of the struct that is the tool.
    pub tool_struct: String,
    /// The tool's name.
    pub tool_name: String,
    /// The tool's description.
    pub description: String,
    /// The arguments' fields, in the order of the parameters.
    pub fields: Vec<Field>,
    /// The capabilities the tool needs.
    pub capabilities: Vec<String>,
    /// What a call costs.
    pub cost_hint: String,
    /// Who may call it.
    pub caller: String,
    /// How it is shown to the model.
    pub presentation: String,
}

/// What is to be generated.
#[verifier::ext_equal]
pub struct ExpansionView {
    pub args_struct: Seq<char>,
    pub tool_struct: Seq<char>,
    pub tool_name: Seq<char>,
    pub description: Seq<char>,
    pub fields: Seq<FieldView>,
    pub capabilities: Seq<Seq<char>>,
    pub cost_hint: Seq<char>,
    pub caller: Seq<char>,
    pub presentation: Seq<char>,
}

impl View for Expansion {
    type V = ExpansionView;

    open spec fn view(&self) -> ExpansionView {
        ExpansionView {
            args_struct: self.args_struct@,
            tool_struct: self.tool_struct@,
            tool_name: self.tool_name@,
            description: self.description@,
            fields: self.fields.deep_view(),
            capabilities: texts(self.capabilities@),
            cost_hint: self.cost_hint@,
            caller: self.caller@,
            presentation: self.presentation@,
        }
    }
}

/// Whether a field is what a parameter becomes.
pub open spec fn is_field_of(f: FieldView, p: ParamView) -> bool {
    p matches ParamView::Plain { ident, attrs } && f.ident == ident && f.doc == doc_text(attrs)
}

/// The fields some parameters become, or what is wrong with the first that cannot be one.
pub open spec fn fields_of(inputs: Seq<ParamView>) -> Result<Seq<FieldView>, MacroErrorView>
    decreases inputs.len(),
{
    if inputs.len() == 0 {
        Ok(Seq::empty())
    } else {
        match fields_of(inputs.drop_last()) {
            Err(e) => Err(e),
            Ok(before) => match inputs.last() {
                ParamView::Receiver => Err(
                    MacroErrorView {
                        at: Place::Param((inputs.len() - 1) as usize),
                        message: "tools are free functions, not methods"@,
                    },
                ),
                ParamView::Pattern => Err(
                    MacroErrorView {
                        at: Place::Pattern((inputs.len() - 1) as usize),
                        message: "tool parameters must be plain identifiers"@,
                    },
                ),
                ParamView::Plain { ident, attrs } => Ok(
                    before.push(FieldView { ident, doc: doc_text(attrs) }),
                ),
            },
        }
    }
}

proof fn the_first_bad_parameter_stands(inputs: Seq<ParamView>, n: int)
    requires
        0 <= n <= inputs.len(),
        fields_of(inputs.take(n)) is Err,
    ensures
        fields_of(inputs) == fields_of(inputs.take(n)),
    decreases inputs.len() - n,
{
    if n < inputs.len() {
        assert(inputs.take(n + 1).drop_last() == inputs.take(n));
        the_first_bad_parameter_stands(inputs, n + 1);
    } else {
        assert(inputs.take(n) == inputs);
    }
}

/// A text, or what stands for it where there is none.
pub open spec fn or_text(given: Option<Seq<char>>, otherwise: Seq<char>) -> Seq<char> {
    match given {
        Some(t) => t,
        None => otherwise,
    }
}

/// The description of a tool: the option, else the doc comment.
pub open spec fn description_of(o: OptionsView, attrs: Seq<AttributeView>) -> Option<Seq<char>> {
    match o.description {
        Some(d) => Some(d),
        None => doc_text(attrs),
    }
}

/// What is to be generated for a function with some options.
pub open spec fn expansion_of(ws: Seq<WrittenView>, f: FunctionView) -> Result<
    ExpansionView,
    MacroErrorView,
> {
    match options_of(ws) {
        Err(e) => Err(e),
        Ok(o) => match description_of(o, f.attrs) {
            None => Err(
                MacroErrorView {
                    at: Place::Name,
                    message: "a tool needs a description: add a doc comment or `description = \"...\"`. Tool search matches on it, so a tool without one is hard to find once the catalog outgrows the context window."@,
                },
            ),
            Some(description) => match fields_of(f.inputs) {
                Err(e) => Err(e),
                Ok(fields) => Ok(
                    ExpansionView {
                        args_struct: pascal(split_on(f.ident, '_')) + "Args"@,
                        tool_struct: pascal(split_on(f.ident, '_')) + "Tool"@,
                        tool_name: f.ident,
                        description,
                        fields,
                        capabilities: o.capabilities,
                        cost_hint: or_text(o.cost_hint, "cheap"@),
                        caller: or_text(o.caller, "direct"@),
                        presentation: or_text(o.presentation, "deferred"@),
                    },
                ),
            },
        },
    }
}

fn read_params(inputs: &Vec<Param>) -> (r: Result<Vec<Field>, MacroError>)
    ensures
        match r {
            Ok(f) => fields_of(inputs.deep_view()) == Ok::<Seq<FieldView>, MacroErrorView>(
                f.deep_view(),
            ),
            Err(e) => fields_of(inputs.deep_view()) == Err::<Seq<FieldView>, MacroErrorView>(e@),
        },
{
    let ghost all = inputs.deep_view();
    let mut out: Vec<Field> = Vec::new();
    let mut i: usize = 0;
    assert(out.deep_view() == Seq::<FieldView>::empty());
    while i < inputs.len()
        invariant
            i <= inputs@.len(),
            all == inputs.deep_view(),
            all.len() == inputs@.len(),
            fields_of(all.take(i as int)) == Ok::<Seq<FieldView>, MacroErrorView>(out.deep_view()),
        decreases inputs@.len() - i,
    {
        assert(all.take(i + 1).drop_last() == all.take(i as int));
        assert(all.take(i + 1).last() == inputs@[i as int]@);
        match &inputs[i] {
            Param::Receiver => {
                proof {
                    the_first_bad_parameter_stands(all, i + 1);
                }
                return Err(
                    MacroError {
                        at: Place::Param(i),
                        message: "tools are free functions, not methods".to_owned(),
                    },
                );
            },
            Param::Pattern => {
                proof {
                    the_first_bad_parameter_stands(all, i + 1);
                }
                return Err(
                    MacroError {
                        at: Place::Pattern(i),
                        message: "tool parameters must be plain identifiers".to_owned(),
                    },
                );
            },
            Param::Plain { ident, attrs } => {
                let ghost before = out.deep_view();
                let doc = doc_of(attrs.as_slice());
                out.push(Field { ident: ident.clone(), doc });
                assert(out.deep_view() == before.push(
                    FieldView { ident: ident@, doc: doc_text(attrs.deep_view()) },
                ));
            },
        }
        i = i + 1;
    }
    assert(all.take(all.len() as int) == all);
    Ok(out)
}

fn given_or(given: Option<String>, otherwise: &str) -> (r: String)
    ensures
        r@ == or_text(opt_text(given), otherwise@),
{
    match given {
        Some(t) => t,
        None => otherwise.to_owned(),
    }
}

/// Work out what is to be generated for a function, or why nothing can be.
pub fn expand(args: &[Written], function: &Function) -> (r: Result<Expansion, MacroError>)
    ensures
        match r {
            Ok(x) => expansion_of(args.deep_view(), function@) == Ok::<
                ExpansionView,
                MacroErrorView,
            >(x@),
            Err(e) => expansion_of(args.deep_view(), function@) == Err::<
                ExpansionView,
                MacroErrorView,
            >(e@),
        },
{
    let options = match parse_options(args) {
        Ok(o) => o,
        Err(e) => return Err(e),
    };
    let given = match options.description {
        Some(d) => Some(d),
        None => doc_of(function.attrs.as_slice()),
    };
    let description = match given {
        Some(d) => d,
        None => return Err(
            MacroError {
                at: Place::Name,
                message: "a tool needs a description: add a doc comment or `description = \"...\"`. Tool search matches on it, so a tool without one is hard to find once the catalog outgrows the context window.".to_owned(),
            },
        ),
    };
    let fields = match read_params(&function.inputs) {
        Ok(f) => f,
        Err(e) => return Err(e),
    };
    let mut args_struct = to_pascal(function.ident.as_str());
    args_struct.push_str("Args");
    let mut tool_struct = to_pascal(function.ident.as_str());
    tool_struct.push_str("Tool");
    Ok(
        Expansion {
            args_struct,
            tool_struct,
            tool_name: function.ident.clone(),
            description,
            fields,
            capabilities: options.capabilities,
            cost_hint: given_or(options.cost_hint, "cheap"),
            caller: given_or(options.caller, "direct"),
            presentation: given_or(options.presentation, "deferred"),
        },
    )
}

proof fn trimming_the_front_keeps_what_starts(s: Seq<char>)
    requires
        s.len() == 0 || !is_space_at_front(s),
    ensures
        trimmed_back(s).len() == 0 || !is_space_at_front(trimmed_back(s)),
    decreases s.len(),
{
    if s.len() > 0 && crate::text::is_space(s.last()) && s.len() > 1 {
        trimming_the_front_keeps_what_starts(s.drop_last());
    }
}

spec fn is_space_at_front(s: Seq<char>) -> bool {
    s.len() > 0 && crate::text::is_space(s[0])
}

proof fn a_trimmed_front_does_not_start_with_space(s: Seq<char>)
    ensures
        !is_space_at_front(trimmed_front(s)),
    decreases s.len(),
{
    if is_space_at_front(s) {
        a_trimmed_front_does_not_start_with_space(s.drop_first());
    }
}

proof fn a_trimmed_back_does_not_end_with_space(s: Seq<char>)
    ensures
        trimmed_back(s).len() == 0 || !crate::text::is_space(trimmed_back(s).last()),
    decreases s.len(),
{
    if s.len() > 0 && crate::text::is_space(s.last()) {
        a_trimmed_back_does_not_end_with_space(s.drop_last());
    }
}

/// The text of a doc comment is never empty, and neither starts nor ends with white space.
pub proof fn doc_comments_are_trimmed(attrs: Seq<AttributeView>)
    ensures
        doc_text(attrs) matches Some(t) ==> t.len() > 0 && !crate::text::is_space(t[0])
            && !crate::text::is_space(t.last()) && trimmed(t) == t,
{
    let whole = joined(doc_lines(attrs), " "@);
    a_trimmed_front_does_not_start_with_space(whole);
    trimming_the_front_keeps_what_starts(trimmed_front(whole));
    a_trimmed_back_does_not_end_with_space(trimmed_front(whole));
}

proof fn fields_follow_parameters(inputs: Seq<ParamView>, fields: Seq<FieldView>)
    requires
        fields_of(inputs) == Ok::<Seq<FieldView>, MacroErrorView>(fields),
    ensures
        fields.len() == inputs.len(),
        forall|i: int| 0 <= i < fields.len() ==> is_field_of(#[trigger] fields[i], inputs[i]),
    decreases inputs.len(),
{
    if inputs.len() > 0 {
        let before = fields_of(inputs.drop_last())->Ok_0;
        fields_follow_parameters(inputs.drop_last(), before);
        assert forall|i: int| 0 <= i < fields.len() implies is_field_of(
            #[trigger] fields[i],
            inputs[i],
        ) by {
            if i < before.len() {
                assert(fields[i] == before[i]);
                assert(inputs.drop_last()[i] == inputs[i]);
            }
        }
    }
}

/// Every parameter becomes a field of its own name, and its doc comment, where it has one, becomes
/// that field's description.
pub proof fn parameter_docs_become_descriptions(
    ws: Seq<WrittenView>,
    f: FunctionView,
    x: ExpansionView,
)
    requires
        expansion_of(ws, f) == Ok::<ExpansionView, MacroErrorView>(x),
    ensures
        x.fields.len() == f.inputs.len(),
        forall|i: int| 0 <= i < x.fields.len() ==> is_field_of(#[trigger] x.fields[i], f.inputs[i]),
{
    fields_follow_parameters(f.inputs, x.fields);
}

/// Whether two sets of options agree in everything but what one written option can change.
pub open spec fn rest_kept(before: OptionsView, after: OptionsView, key: Seq<char>) -> bool {
    &&& key != "description"@ ==> after.description == before.description
    &&& key != "cost_hint"@ ==> after.cost_hint == before.cost_hint
    &&& key != "caller"@ ==> after.caller == before.caller
    &&& key != "presentation"@ ==> after.presentation == before.presentation
    &&& after.capabilities == before.capabilities
}

/// A written option sets what it names to what it says and leaves everything else alone. A name that
/// is none of the four is refused where it stands, and is told.
pub proof fn options_set_what_they_name(o: OptionsView, key: Seq<char>, value: Seq<char>, i: nat)
    ensures
        match with_option(o, WrittenView::NameValue { key: Some(key), value: Some(value) }, i) {
            Ok(after) => rest_kept(o, after, key) && (key == "description"@ ==> after.description
                == Some(value)) && (key == "cost_hint"@ ==> after.cost_hint == Some(value)) && (key
                == "caller"@ ==> after.caller == Some(value)) && (key == "presentation"@
                ==> after.presentation == Some(value)) && (key == "description"@ || key
                == "cost_hint"@ || key == "caller"@ || key == "presentation"@),
            Err(e) => key != "description"@ && key != "cost_hint"@ && key != "caller"@ && key
                != "presentation"@ && mentions(e.message, key) && e.at == Place::Key(i as usize),
        },
{
    broadcast use group_mentions;

    option_names_differ();
}

proof fn option_names_differ()
    ensures
        "description"@ != "cost_hint"@,
        "description"@ != "caller"@,
        "description"@ != "presentation"@,
        "cost_hint"@ != "caller"@,
        "cost_hint"@ != "presentation"@,
        "caller"@ != "presentation"@,
{
    reveal_strlit("description");
    reveal_strlit("cost_hint");
    reveal_strlit("caller");
    reveal_strlit("presentation");
    assert("description"@.len() != "cost_hint"@.len());
    assert("description"@.len() != "caller"@.len());
    assert("description"@.len() != "presentation"@.len());
    assert("cost_hint"@.len() != "caller"@.len());
    assert("cost_hint"@.len() != "presentation"@.len());
    assert("caller"@.len() != "presentation"@.len());
}

/// A list of capabilities adds every capability in it behind those there are, and changes nothing
/// else. Where one of them is no text the first such is refused.
pub proof fn capabilities_add_up(o: OptionsView, items: Seq<Option<Seq<char>>>, i: nat)
    ensures
        match with_option(
            o,
            WrittenView::List { key: Some("capabilities"@), items: Ok(items) },
            i,
        ) {
            Ok(after) => after.capabilities.len() == o.capabilities.len() + items.len()
                && after.capabilities.take(o.capabilities.len() as int) == o.capabilities && (
            forall|k: int|
                0 <= k < items.len() ==> #[trigger] items[k] == Some(
                    after.capabilities[o.capabilities.len() + k],
                )) && after.description == o.description && after.cost_hint == o.cost_hint
                && after.caller == o.caller && after.presentation == o.presentation,
            Err(e) => exists|k: int| 0 <= k < items.len() && #[trigger] items[k] is None,
        },
{
    the_first_gap(items);
    if texts_before(items) >= items.len() {
        let after = OptionsView { capabilities: o.capabilities + all_texts(items), ..o };
        assert(after.capabilities.take(o.capabilities.len() as int) == o.capabilities);
        assert forall|k: int| 0 <= k < items.len() implies #[trigger] items[k] == Some(
            after.capabilities[o.capabilities.len() + k],
        ) by {
            assert(all_texts(items)[k] == items[k]->0);
        }
    } else {
        assert(items[texts_before(items) as int] is None);
    }
}

proof fn the_first_gap(items: Seq<Option<Seq<char>>>)
    ensures
        texts_before(items) <= items.len(),
        forall|i: int| 0 <= i < texts_before(items) ==> (#[trigger] items[i]) is Some,
        texts_before(items) < items.len() ==> items[texts_before(items) as int] is None,
    decreases items.len(),
{
    if items.len() > 0 && items[0] is Some {
        let rest = items.drop_first();
        the_first_gap(rest);
        assert forall|i: int| 0 <= i < texts_before(items) implies (#[trigger] items[i]) is Some by {
            if i > 0 {
                assert(rest[i - 1] == items[i]);
            }
        }
    }
}

/// Documentation is what the doc comments say, trimmed and in their order, and nothing that other
/// attributes say.
pub proof fn doc_comments_are_read_in_order(
    a: Seq<AttributeView>,
    b: Seq<AttributeView>,
    one: AttributeView,
)
    ensures
        doc_lines(a + b) == doc_lines(a) + doc_lines(b),
        one.name == Some("doc"@) && one.value is Some ==> doc_lines(seq![one]) == seq![
            trimmed(one.value->0),
        ],
        one.name != Some("doc"@) || one.value is None ==> doc_lines(seq![one]).len() == 0,
    decreases b.len(),
{
    reveal_with_fuel(doc_lines, 2);
    assert(seq![one].drop_last() == Seq::<AttributeView>::empty());
    if b.len() == 0 {
        assert(a + b == a);
    } else {
        doc_comments_are_read_in_order(a, b.drop_last(), one);
        assert((a + b).drop_last() == a + b.drop_last());
        assert((a + b).last() == b.last());
    }
}

/// A name in words becomes one name with every word capitalised: the first character of each in
/// upper case, the rest as it is, and nothing between them.
pub proof fn names_are_capitalised_word_by_word(
    a: Seq<Seq<char>>,
    b: Seq<Seq<char>>,
    first: char,
    rest: Seq<char>,
)
    ensures
        pascal(a + b) == pascal(a) + pascal(b),
        pascal(seq![seq![first] + rest]) == upper_case(first) + rest,
    decreases b.len(),
{
    reveal_with_fuel(pascal, 2);
    let word = seq![first] + rest;
    assert(seq![word].drop_last() == Seq::<Seq<char>>::empty());
    assert(word.drop_first() == rest);
    assert(word[0] == first);
    if b.len() == 0 {
        assert(a + b == a);
    } else {
        names_are_capitalised_word_by_word(a, b.drop_last(), first, rest);
        assert((a + b).drop_last() == a + b.drop_last());
        assert((a + b).last() == b.last());
    }
}

/// A tool is named as its function, described by its option or else by its documentation, and has
/// the options that were written. What was not written is the default: cheap, direct, deferred.
pub proof fn an_expansion_says_what_was_written(ws: Seq<WrittenView>, f: FunctionView)
    ensures
        expansion_of(ws, f) matches Ok(e) ==> e.tool_name == f.ident && e.fields.len()
            == f.inputs.len(),
        expansion_of(ws, f) is Ok ==> options_of(ws) is Ok,
        expansion_of(ws, f) is Ok ==> ({
            let e = expansion_of(ws, f)->Ok_0;
            let o = options_of(ws)->Ok_0;
            &&& o.description is Some ==> e.description == o.description->0
            &&& o.description is None ==> doc_text(f.attrs) == Some(e.description)
            &&& e.capabilities == o.capabilities
            &&& e.cost_hint == (if o.cost_hint is Some {
                o.cost_hint->0
            } else {
                "cheap"@
            })
            &&& e.caller == (if o.caller is Some {
                o.caller->0
            } else {
                "direct"@
            })
            &&& e.presentation == (if o.presentation is Some {
                o.presentation->0
            } else {
                "deferred"@
            })
            &&& e.args_struct == pascal(split_on(f.ident, '_')) + "Args"@
            &&& e.tool_struct == pascal(split_on(f.ident, '_')) + "Tool"@
        }),
        expansion_of(ws, f) is Ok <==> options_of(ws) is Ok && (options_of(ws)->Ok_0.description is Some
            || doc_text(f.attrs) is Some) && forall|i: int|
            0 <= i < f.inputs.len() ==> #[trigger] f.inputs[i] is Plain,
{
    fields_follow_the_parameters(f.inputs);
}

proof fn fields_follow_the_parameters(inputs: Seq<ParamView>)
    ensures
        fields_of(inputs) is Ok <==> forall|i: int|
            0 <= i < inputs.len() ==> #[trigger] inputs[i] is Plain,
        fields_of(inputs) matches Ok(fields) ==> fields.len() == inputs.len(),
    decreases inputs.len(),
{
    if inputs.len() > 0 {
        let less = inputs.drop_last();
        fields_follow_the_parameters(less);
        assert(forall|i: int| 0 <= i < less.len() ==> less[i] == #[trigger] inputs[i]);
        assert(inputs[inputs.len() - 1] == inputs.last());
        if fields_of(less) is Err {
            let i = choose|i: int| 0 <= i < less.len() && !(#[trigger] less[i] is Plain);
            assert(!(inputs[i] is Plain));
        }
    }
}

/// Options are read one by one in the order they are written: none are set at first, each is read on
/// top of those before it, and the first that is refused is what is told.
pub proof fn options_are_read_one_by_one(ws: Seq<WrittenView>, w: WrittenView, n: int)
    ensures
        options_of(Seq::empty()) is Ok && options_of(Seq::empty())->Ok_0.description is None
            && options_of(Seq::empty())->Ok_0.capabilities.len() == 0 && options_of(
            Seq::empty(),
        )->Ok_0.cost_hint is None && options_of(Seq::empty())->Ok_0.caller is None && options_of(
            Seq::empty(),
        )->Ok_0.presentation is None,
        options_of(ws) matches Ok(o) ==> options_of(ws.push(w)) == with_option(o, w, ws.len()),
        0 <= n <= ws.len() && options_of(ws.take(n)) is Err ==> options_of(ws) == options_of(ws.take(n)),
{
    assert(ws.push(w).drop_last() == ws);
    if 0 <= n <= ws.len() && options_of(ws.take(n)) is Err {
        the_first_refusal_stands(ws, n);
    }
}

} // verus!
