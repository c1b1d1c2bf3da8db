//! Skills, disclosed a rung at a time: an index entry always, the body when it is called for.

use vstd::prelude::*;

use crate::ids::SkillId;
use crate::prompt::{estimate, estimate_tokens};
use crate::taint::{Provenance, ProvenanceView, Tainted, Untrusted};
use crate::text::{byte_len, chars_of, copy_texts, find_char, find_text, first_at, holds_at, holds_text, join, joined, lines, lower, lowered, no_text, same_text, split_char, split_lines, split_on, strip, strip_front, stripped, stripped_front, text_at, text_of, texts, trim, trimmed, utf8_len, a_text_is_found_where_it_first_stands, first_found, group_mentions, mentions, stands_at, a_text_is_split_at_every_place};

verus! {

/// How much of a skill is currently loaded.
#[derive(Debug, Clone, Copy, PartialEq, Eq, PartialOrd, Ord, Structural)]
pub enum Rung {
    /// Name and description only. What every skill costs at startup.
    Index,
    /// The full body.
    Instructions,
    /// A referenced file, read on demand.
    Reference,
}

/// The token budget the format recommends for a skill's full body. Reported, not enforced.
pub const RECOMMENDED_BODY_TOKENS: u32 = 5_000;

/// A skill's front matter: what the index rung costs.
#[derive(Debug, PartialEq, Eq)]
pub struct SkillIndexEntry {
    /// Its identifier.
    pub id: SkillId,
    /// Short name.
    pub name: String,
    /// When to use it. This is what the selector matches on.
    pub description: String,
    /// Roughly what loading the full body would cost.
    pub body_tokens: u32,
    /// Whether it came from a trusted root.
    pub trusted: bool,
}

impl Clone for SkillIndexEntry {
    fn clone(&self) -> (r: Self)
        ensures
            r == *self,
    {
        SkillIndexEntry {
            id: self.id.clone(),
            name: self.name.clone(),
            description: self.description.clone(),
            body_tokens: self.body_tokens,
            trusted: self.trusted,
        }
    }
}

/// A skill's front matter.
#[verifier::ext_equal]
pub struct SkillIndexView {
    pub id: Seq<char>,
    pub name: Seq<char>,
    pub description: Seq<char>,
    pub body_tokens: u32,
    pub trusted: bool,
}

impl View for SkillIndexEntry {
    type V = SkillIndexView;

    open spec fn view(&self) -> SkillIndexView {
        SkillIndexView {
            id: self.id@,
            name: self.name@,
            description: self.description@,
            body_tokens: self.body_tokens,
            trusted: self.trusted,
        }
    }
}

/// What an entry costs at the index rung.
pub open spec fn index_cost(e: SkillIndexView) -> u32 {
    crate::cache::capped(((utf8_len(e.name) + utf8_len(e.description) + 3) / 4) as nat)
}

impl SkillIndexEntry {
    /// Roughly what this entry costs at the index rung. The lengths of the name and the description
    /// must add up.
    #[must_use]
    pub fn index_tokens(&self) -> (r: u32)
        requires
            utf8_len(self@.name) + utf8_len(self@.description) <= usize::MAX,
        ensures
            r == index_cost(self@),
    {
        let n: usize = byte_len(self.name.as_str()) + byte_len(self.description.as_str());
        let quarters: usize = if n % 4 > 0 {
            n / 4 + 1
        } else {
            n / 4
        };
        if quarters as u64 > u32::MAX as u64 {
            u32::MAX
        } else {
            quarters as u32
        }
    }

    /// Text a search should index for this skill.
    #[must_use]
    pub fn searchable_text(&self) -> (r: String)
        ensures
            r@ == self@.name + " "@ + self@.description,
    {
        let mut out = self.name.clone();
        out.push_str(" ");
        out.push_str(self.description.as_str());
        out
    }
}

/// A skill was not usable.
#[derive(Debug, PartialEq, Eq)]
#[non_exhaustive]
pub enum SkillError {
    /// The file had no front matter.
    NoFrontMatter {
        /// Which file.
        path: String,
    },
    /// A required field was missing.
    MissingField {
        /// Which file.
        path: String,
        /// Which field.
        field: &'static str,
    },
    /// The skill asked for capabilities it may not have.
    UngrantedCapabilities {
        /// Which file.
        path: String,
        /// What it asked for.
        requested: String,
    },
}

/// A skill error in words.
pub open spec fn skill_error_text(e: SkillError) -> Seq<char> {
    match e {
        SkillError::NoFrontMatter { path } => "`"@ + path@
            + "` has no YAML front matter; a skill needs at least a name and a description"@,
        SkillError::MissingField { path, field } => "`"@ + path@ + "` is missing `"@ + field@
            + "`"@,
        SkillError::UngrantedCapabilities { path, requested } => "`"@ + path@
            + "` requests capabilities ("@ + requested@
            + ") that were not granted at install time. A skill can request capabilities; it cannot grant them to itself."@,
    }
}

impl SkillError {
    /// The error in words.
    pub fn to_string(&self) -> (r: String)
        ensures
            r@ == skill_error_text(*self),
    {
        match self {
            SkillError::NoFrontMatter { path } => {
                let mut out = "`".to_owned();
                out.push_str(path.as_str());
                out.push_str(
                    "` has no YAML front matter; a skill needs at least a name and a description",
                );
                out
            },
            SkillError::MissingField { path, field } => {
                let mut out = "`".to_owned();
                out.push_str(path.as_str());
                out.push_str("` is missing `");
                out.push_str(field);
                out.push_str("`");
                out
            },
            SkillError::UngrantedCapabilities { path, requested } => {
                let mut out = "`".to_owned();
                out.push_str(path.as_str());
                out.push_str("` requests capabilities (");
                out.push_str(requested.as_str());
                out.push_str(
                    ") that were not granted at install time. A skill can request capabilities; it cannot grant them to itself.",
                );
                out
            },
        }
    }
}

/// A parsed skill, before anything beyond the index has been loaded.
#[derive(Debug, PartialEq, Eq)]
pub struct Skill {
    /// The index entry.
    pub entry: SkillIndexEntry,
    body: String,
    /// Capabilities the skill asked for.
    pub requested_capabilities: Vec<String>,
    /// Where it came from.
    pub source: String,
}

/// A parsed skill.
#[verifier::ext_equal]
pub struct SkillView {
    pub entry: SkillIndexView,
    pub body: Seq<char>,
    pub requested: Seq<Seq<char>>,
    pub source: Seq<char>,
}

impl View for Skill {
    type V = SkillView;

    closed spec fn view(&self) -> SkillView {
        SkillView {
            entry: self.entry@,
            body: self.body@,
            requested: texts(self.requested_capabilities@),
            source: self.source@,
        }
    }
}

impl DeepView for Skill {
    type V = SkillView;

    open spec fn deep_view(&self) -> SkillView {
        self@
    }
}

impl Clone for Skill {
    fn clone(&self) -> (r: Self)
        ensures
            r@ == self@,
    {
        Skill {
            entry: self.entry.clone(),
            body: self.body.clone(),
            requested_capabilities: copy_texts(&self.requested_capabilities),
            source: self.source.clone(),
        }
    }
}

impl Skill {
    /// The full instructions, labelled with where they came from. They are someone else's text,
    /// whatever they claim about themselves.
    #[must_use]
    pub fn instructions(&self) -> (r: Untrusted<String>)
        ensures
            r.inner()@ == self@.body,
            r.story() == ProvenanceView::straight("skill:"@ + self@.entry.id),
    {
        Tainted::with_provenance(
            self.body.clone(),
            Provenance::tagged("skill:", self.entry.id.as_str()),
        )
    }

    /// Whether the body exceeds what the format recommends.
    #[must_use]
    pub fn is_oversized(&self) -> (r: bool)
        ensures
            r == (self@.entry.body_tokens > RECOMMENDED_BODY_TOKENS),
    {
        self.entry.body_tokens > RECOMMENDED_BODY_TOKENS
    }
}

/// Three dashes.
pub open spec fn dashes() -> Seq<char> {
    seq!['-', '-', '-']
}

/// A line feed and three dashes.
pub open spec fn closing() -> Seq<char> {
    seq!['\n', '-', '-', '-']
}

/// The quotes that may stand round a value.
pub open spec fn quotes() -> Seq<char> {
    seq!['"', '\'']
}

/// The brackets that may stand round a list.
pub open spec fn brackets() -> Seq<char> {
    seq!['[', ']']
}

/// The front matter and what follows it, where a text has them: the front matter begins at the
/// very front, behind three dashes, and ends before the next line that begins with three.
pub open spec fn sections(text: Seq<char>) -> Option<(Seq<char>, Seq<char>)> {
    if text.len() < 3 || text.take(3) != dashes() {
        None
    } else {
        let rest = text.skip(3);
        match text_at(rest, closing()) {
            Some(n) => Some((rest.take(n as int), rest.skip(n as int + 4))),
            None => None,
        }
    }
}

/// The value on a line of front matter under a key, where the line has one.
pub open spec fn line_value(line: Seq<char>, key: Seq<char>) -> Option<Seq<char>> {
    let n = first_at(line, ':');
    if n < line.len() && trimmed(line.take(n as int)) == key {
        Some(stripped(trimmed(line.skip(n as int + 1)), quotes()))
    } else {
        None
    }
}

/// The value under a key in some lines of front matter: the last one counts.
pub open spec fn front_value(all: Seq<Seq<char>>, key: Seq<char>) -> Option<Seq<char>>
    decreases all.len(),
{
    if all.len() == 0 {
        None
    } else {
        match line_value(all.last(), key) {
            Some(v) => Some(v),
            None => front_value(all.drop_last(), key),
        }
    }
}

/// The items of a list that are not empty, without white space and quotes round them.
pub open spec fn clean_items(items: Seq<Seq<char>>) -> Seq<Seq<char>>
    decreases items.len(),
{
    if items.len() == 0 {
        Seq::empty()
    } else {
        let item = stripped(trimmed(items.last()), quotes());
        if item.len() == 0 {
            clean_items(items.drop_last())
        } else {
            clean_items(items.drop_last()).push(item)
        }
    }
}

/// The capabilities that some lines of front matter ask for.
pub open spec fn requested_in(all: Seq<Seq<char>>) -> Seq<Seq<char>> {
    match front_value(all, "capabilities"@) {
        Some(v) => clean_items(split_on(stripped(v, brackets()), ',')),
        None => Seq::empty(),
    }
}

/// Those that were not granted.
pub open spec fn ungranted(requested: Seq<Seq<char>>, granted: Seq<Seq<char>>) -> Seq<Seq<char>>
    decreases requested.len(),
{
    if requested.len() == 0 {
        Seq::empty()
    } else if granted.contains(requested.last()) {
        ungranted(requested.drop_last(), granted)
    } else {
        ungranted(requested.drop_last(), granted).push(requested.last())
    }
}

/// A text with a hyphen for each space.
pub open spec fn hyphenated(s: Seq<char>) -> Seq<char> {
    Seq::new(
        s.len(),
        |i: int|
            if s[i] == ' ' {
                '-'
            } else {
                s[i]
            },
    )
}

/// The body of a skill, from what follows its front matter.
pub open spec fn body_of(after: Seq<char>) -> Seq<char> {
    trimmed(stripped_front(after, seq!['-', '\n']))
}

/// The skill that a file holds.
pub open spec fn skill_of(
    path: Seq<char>,
    name: Seq<char>,
    description: Seq<char>,
    requested: Seq<Seq<char>>,
    after: Seq<char>,
    trusted: bool,
) -> SkillView {
    SkillView {
        entry: SkillIndexView {
            id: hyphenated(lowered(name)),
            name,
            description,
            body_tokens: estimate(body_of(after)),
            trusted,
        },
        body: body_of(after),
        requested,
        source: path,
    }
}

fn value_on(line: &str, key: &str) -> (r: Option<String>)
    ensures
        match r {
            Some(v) => line_value(line@, key@) == Some(v@),
            None => line_value(line@, key@) is None,
        },
{
    let chars = chars_of(line);
    let at: usize = find_char(&chars, ':');
    if at == chars.len() {
        return None;
    }
    let head = text_of(&chars, 0, at);
    let tail = text_of(&chars, at + 1, chars.len());
    assert(chars@.subrange(0, at as int) == chars@.take(at as int));
    assert(chars@.subrange(at + 1, chars@.len() as int) == chars@.skip(at + 1));
    if !same_text(trim(head.as_str()).as_str(), key) {
        return None;
    }
    let set: [char; 2] = ['"', '\''];
    assert(set@ == quotes());
    Some(strip(trim(tail.as_str()).as_str(), &set))
}

fn last_value(all: &Vec<String>, key: &str) -> (r: Option<String>)
    ensures
        match r {
            Some(v) => front_value(texts(all@), key@) == Some(v@),
            None => front_value(texts(all@), key@) is None,
        },
{
    let ghost every = texts(all@);
    let mut i: usize = all.len();
    assert(every.take(i as int) == every);
    while i > 0
        invariant
            i <= all@.len(),
            every == texts(all@),
            front_value(every, key@) == front_value(every.take(i as int), key@),
        decreases i,
    {
        assert(every.take(i as int).drop_last() == every.take(i - 1));
        assert(every.take(i as int).last() == all@[i - 1]@);
        if let Some(v) = value_on(all[i - 1].as_str(), key) {
            return Some(v);
        }
        i = i - 1;
    }
    None
}

fn listed(value: &str) -> (r: Vec<String>)
    ensures
        texts(r@) == clean_items(split_on(stripped(value@, brackets()), ',')),
{
    let round: [char; 2] = ['[', ']'];
    assert(round@ == brackets());
    let set: [char; 2] = ['"', '\''];
    assert(set@ == quotes());
    let items = split_char(strip(value, &round).as_str(), ',');
    let ghost every = texts(items@);
    let mut out: Vec<String> = Vec::new();
    assert(texts(out@) == Seq::<Seq<char>>::empty());
    let mut i: usize = 0;
    assert(every.take(0) == Seq::<Seq<char>>::empty());
    while i < items.len()
        invariant
            i <= items@.len(),
            every == texts(items@),
            set@ == quotes(),
            texts(out@) == clean_items(every.take(i as int)),
        decreases items@.len() - i,
    {
        assert(every.take(i + 1).drop_last() == every.take(i as int));
        assert(every.take(i + 1).last() == items@[i as int]@);
        let item = strip(trim(items[i].as_str()).as_str(), &set);
        if !no_text(item.as_str()) {
            let ghost before = out@;
            let ghost it = item@;
            out.push(item);
            assert(texts(out@) == texts(before).push(it));
        }
        i = i + 1;
    }
    assert(every.take(every.len() as int) == every);
    out
}

fn not_granted(requested: &Vec<String>, granted: &Vec<String>) -> (r: Vec<String>)
    ensures
        texts(r@) == ungranted(texts(requested@), texts(granted@)),
{
    let ghost every = texts(requested@);
    let mut out: Vec<String> = Vec::new();
    assert(texts(out@) == Seq::<Seq<char>>::empty());
    let mut i: usize = 0;
    assert(every.take(0) == Seq::<Seq<char>>::empty());
    while i < requested.len()
        invariant
            i <= requested@.len(),
            every == texts(requested@),
            texts(out@) == ungranted(every.take(i as int), texts(granted@)),
        decreases requested@.len() - i,
    {
        assert(every.take(i + 1).drop_last() == every.take(i as int));
        assert(every.take(i + 1).last() == requested@[i as int]@);
        if !holds_text(granted, requested[i].as_str()) {
            let ghost before = out@;
            out.push(requested[i].clone());
            assert(texts(out@) == texts(before).push(requested@[i as int]@));
        }
        i = i + 1;
    }
    assert(every.take(every.len() as int) == every);
    out
}

fn hyphenate(s: &str) -> (r: String)
    ensures
        r@ == hyphenated(s@),
{
    let chars = chars_of(s);
    let mut out = String::new();
    let mut i: usize = 0;
    while i < chars.len()
        invariant
            i <= chars@.len(),
            out@.len() == i,
            forall|j: int| 0 <= j < i ==> out@[j] == hyphenated(chars@)[j],
        decreases chars@.len() - i,
    {
        out.push(
            if chars[i] == ' ' {
                '-'
            } else {
                chars[i]
            },
        );
        i = i + 1;
    }
    assert(out@ == hyphenated(chars@));
    out
}

fn split_sections(text: &str) -> (r: Option<(String, String)>)
    ensures
        match r {
            Some(s) => sections(text@) == Some((s.0@, s.1@)),
            None => sections(text@) is None,
        },
{
    let chars = chars_of(text);
    let len: usize = chars.len();
    let opening: Vec<char> = vec!['-', '-', '-'];
    assert(opening@ == dashes());
    let end: Vec<char> = vec!['\n', '-', '-', '-'];
    assert(end@ == closing());
    let opens = holds_at(&chars, 0, &opening);
    proof {
        if chars@.len() >= 3 {
            assert(chars@.subrange(0, 3) == chars@.take(3));
        }
    }
    if !opens {
        return None;
    }
    match find_text(&chars, 3, &end) {
        None => None,
        Some(n) => {
            let ghost rest = chars@.skip(3);
            let front = text_of(&chars, 3, 3 + n);
            let after = text_of(&chars, 3 + n + 4, len);
            assert(front@ == rest.take(n as int));
            assert(after@ == rest.skip(n as int + 4));
            Some((front, after))
        },
    }
}

/// Parse a skill file.
///
/// A file without front matter is refused, then one without a name, then one without a description,
/// and last one that asks for capabilities that were not granted when it was installed: a skill
/// cannot grant itself anything, and a refusal here is not a prompt in the middle of a run.
pub fn parse_skill(path: &str, text: &str, granted: &Vec<String>, trusted: bool) -> (r: Result<
    Skill,
    SkillError,
>)
    ensures
        match sections(text@) {
            None => r matches Err(SkillError::NoFrontMatter { path: p }) && p@ == path@,
            Some((front, after)) => {
                let all = lines(front);
                let requested = requested_in(all);
                let refused = ungranted(requested, texts(granted@));
                match (front_value(all, "name"@), front_value(all, "description"@)) {
                    (None, _) => r matches Err(SkillError::MissingField { path: p, field }) && p@
                        == path@ && field@ == "name"@,
                    (Some(_), None) => r matches Err(SkillError::MissingField { path: p, field })
                        && p@ == path@ && field@ == "description"@,
                    (Some(name), Some(description)) => if refused.len() > 0 {
                        r matches Err(SkillError::UngrantedCapabilities { path: p, requested: q })
                            && p@ == path@ && q@ == joined(refused, ", "@)
                    } else {
                        r matches Ok(skill) && skill@ == skill_of(
                            path@,
                            name,
                            description,
                            requested,
                            after,
                            trusted,
                        )
                    },
                }
            },
        },
{
    let (front, after) = match split_sections(text) {
        Some(s) => s,
        None => {
            return Err(SkillError::NoFrontMatter { path: path.to_owned() });
        },
    };
    let all = split_lines(front.as_str());
    let requested: Vec<String> = match last_value(&all, "capabilities") {
        Some(v) => listed(v.as_str()),
        None => Vec::new(),
    };
    assert(texts(requested@) == requested_in(lines(front@)));
    let name = match last_value(&all, "name") {
        Some(n) => n,
        None => {
            return Err(SkillError::MissingField { path: path.to_owned(), field: "name" });
        },
    };
    let description = match last_value(&all, "description") {
        Some(d) => d,
        None => {
            return Err(SkillError::MissingField { path: path.to_owned(), field: "description" });
        },
    };
    let refused = not_granted(&requested, granted);
    assert(texts(refused@).len() == refused@.len());
    if refused.len() > 0 {
        return Err(
            SkillError::UngrantedCapabilities {
                path: path.to_owned(),
                requested: join(&refused, ", "),
            },
        );
    }
    let lead: [char; 2] = ['-', '\n'];
    assert(lead@ == seq!['-', '\n']);
    let body = trim(strip_front(after.as_str(), &lead).as_str());
    let skill = Skill {
        entry: SkillIndexEntry {
            id: SkillId::new(hyphenate(lower(name.as_str()).as_str()).as_str()),
            name,
            description,
            body_tokens: estimate_tokens(body.as_str()),
            trusted,
        },
        body,
        requested_capabilities: requested,
        source: path.to_owned(),
    };
    assert(skill@ =~= skill_of(path@, name@, description@, texts(requested@), after@, trusted));
    Ok(skill)
}

/// Everything a loaded skill asked for was granted to it: none of the capabilities it requested is
/// outside what was granted when it was installed.
pub proof fn a_skill_cannot_grant_itself_anything(
    requested: Seq<Seq<char>>,
    granted: Seq<Seq<char>>,
)
    ensures
        ungranted(requested, granted).len() == 0 <==> forall|i: int|
            0 <= i < requested.len() ==> granted.contains(#[trigger] requested[i]),
        forall|i: int|
            0 <= i < ungranted(requested, granted).len() ==> !granted.contains(
                #[trigger] ungranted(requested, granted)[i],
            ),
    decreases requested.len(),
{
    if requested.len() > 0 {
        let rest = requested.drop_last();
        a_skill_cannot_grant_itself_anything(rest, granted);
        if ungranted(requested, granted).len() == 0 {
            assert forall|i: int| 0 <= i < requested.len() implies granted.contains(
                #[trigger] requested[i],
            ) by {
                if i < rest.len() {
                    assert(granted.contains(rest[i]));
                }
            }
        }
        if forall|i: int|
            0 <= i < requested.len() ==> granted.contains(#[trigger] requested[i]) {
            assert(granted.contains(requested[requested.len() - 1]));
            assert forall|i: int| 0 <= i < rest.len() implies granted.contains(
                #[trigger] rest[i],
            ) by {
                assert(granted.contains(requested[i]));
            }
        }
    }
}

/// What a set of skills costs at each rung.
#[derive(Debug, Clone, Copy, PartialEq, Eq, Structural)]
pub struct LadderCost {
    /// What every skill costs, always.
    pub index_tokens: u32,
    /// What loading every skill's body would cost.
    pub all_bodies_tokens: u32,
}

/// What the index entries of some skills cost.
pub open spec fn index_costs(skills: Seq<SkillView>) -> nat
    decreases skills.len(),
{
    if skills.len() == 0 {
        0
    } else {
        index_costs(skills.drop_last()) + index_cost(skills.last().entry) as nat
    }
}

/// What the bodies of some skills cost.
pub open spec fn body_costs(skills: Seq<SkillView>) -> nat
    decreases skills.len(),
{
    if skills.len() == 0 {
        0
    } else {
        body_costs(skills.drop_last()) + skills.last().entry.body_tokens as nat
    }
}

proof fn costs_of_prefix(skills: Seq<SkillView>, n: int)
    requires
        0 <= n <= skills.len(),
    ensures
        index_costs(skills.take(n)) <= index_costs(skills),
        body_costs(skills.take(n)) <= body_costs(skills),
    decreases skills.len(),
{
    if n < skills.len() {
        costs_of_prefix(skills.drop_last(), n);
        assert(skills.drop_last().take(n) == skills.take(n));
    } else {
        assert(skills.take(n) == skills);
    }
}

/// Measure the ladder for a set of skills. The costs must add up in 32 bits.
#[must_use]
pub fn ladder_cost(skills: &[Skill]) -> (r: LadderCost)
    requires
        index_costs(skills.deep_view()) <= u32::MAX,
        body_costs(skills.deep_view()) <= u32::MAX,
        forall|i: int|
            0 <= i < skills@.len() ==> utf8_len((#[trigger] skills@[i])@.entry.name) + utf8_len(
                skills@[i]@.entry.description,
            ) <= usize::MAX,
    ensures
        r.index_tokens == index_costs(skills.deep_view()),
        r.all_bodies_tokens == body_costs(skills.deep_view()),
{
    let ghost all = skills.deep_view();
    let mut index_tokens: u32 = 0;
    let mut all_bodies_tokens: u32 = 0;
    let mut i: usize = 0;
    assert(all.take(0) == Seq::<SkillView>::empty());
    while i < skills.len()
        invariant
            i <= skills@.len(),
            all == skills.deep_view(),
            index_costs(all) <= u32::MAX,
            body_costs(all) <= u32::MAX,
            forall|i: int|
                0 <= i < skills@.len() ==> utf8_len((#[trigger] skills@[i])@.entry.name) + utf8_len(
                    skills@[i]@.entry.description,
                ) <= usize::MAX,
            index_tokens == index_costs(all.take(i as int)),
            all_bodies_tokens == body_costs(all.take(i as int)),
        decreases skills@.len() - i,
    {
        proof {
            assert(all.take(i + 1).drop_last() == all.take(i as int));
            assert(all.take(i + 1).last() == skills@[i as int]@);
            costs_of_prefix(all, i + 1);
        }
        let entry = &skills[i].entry;
        index_tokens = index_tokens + entry.index_tokens();
        all_bodies_tokens = all_bodies_tokens + entry.body_tokens;
        i = i + 1;
    }
    assert(all.take(all.len() as int) == all);
    LadderCost { index_tokens, all_bodies_tokens }
}

/// A listing of a skill costs a quarter of the bytes of its name and description, rounded up.
pub proof fn a_listing_costs_a_quarter(e: SkillIndexView)
    requires
        utf8_len(e.name) + utf8_len(e.description) <= u32::MAX,
    ensures
        4 * index_cost(e) >= utf8_len(e.name) + utf8_len(e.description),
        4 * index_cost(e) < utf8_len(e.name) + utf8_len(e.description) + 4,
{
}

/// Whether a line ends at a place and three dashes open the next.
pub open spec fn dashes_open_a_line(text: Seq<char>, i: int) -> bool {
    stands_at(text, seq!['\n', '-', '-', '-'], i)
}

/// Front matter stands between three dashes that open the text and the first three behind them that
/// open a line. Nothing of the text is lost, and a text without both has none.
pub proof fn front_matter_stands_between_dashes(text: Seq<char>)
    ensures
        sections(text) is Some <==> text.len() >= 3 && text.take(3) == seq!['-', '-', '-'] && mentions(
            text.skip(3),
            seq!['\n', '-', '-', '-'],
        ),
        sections(text) matches Some((front, after)) ==> text == seq!['-', '-', '-'] + front
            + seq!['\n', '-', '-', '-'] + after && forall|j: int|
            0 <= j < front.len() ==> !#[trigger] dashes_open_a_line(text.skip(3), j),
{
    if text.len() >= 3 && text.take(3) == dashes() {
        let rest = text.skip(3);
        a_text_is_found_where_it_first_stands(rest, closing());
        if let Some(n) = text_at(rest, closing()) {
            let n = n as int;
            assert(stands_at(rest, closing(), n));
            assert(rest.subrange(n, n + closing().len()) == closing());
            put_together_again(text, rest, n);
            assert forall|j: int| 0 <= j < n implies !#[trigger] dashes_open_a_line(rest, j) by {
                assert(!stands_at(rest, closing(), j));
            }
        }
    }
}

proof fn put_together_again(text: Seq<char>, rest: Seq<char>, n: int)
    requires
        text.len() >= 3,
        rest == text.skip(3),
        0 <= n <= rest.len() - 4,
    ensures
        text == text.take(3) + rest.take(n) + rest.subrange(n, n + 4) + rest.skip(n + 4),
{
}

/// A line gives a key its value where what stands in front of its first colon is the key: what is
/// behind the colon, without white space and quotes at either end. A line without a colon gives none.
pub proof fn a_line_gives_a_key_its_value(front: Seq<char>, value: Seq<char>, key: Seq<char>)
    requires
        !front.contains(':'),
    ensures
        line_value(front + seq![':'] + value, key) is Some <==> trimmed(front) == key,
        trimmed(front) == key ==> line_value(front + seq![':'] + value, key) == Some(
            stripped(trimmed(value), seq!['"', '\'']),
        ),
        line_value(front, key) is None,
{
    let line = front + seq![':'] + value;
    let n = front.len();
    assert(line[n as int] == ':');
    assert forall|i: int| 0 <= i < n implies line[i] != ':' by {
        assert(front[i] == line[i]);
    }
    first_found(line, ':', n);
    assert(line.take(n as int) == front);
    assert(line.skip(n as int + 1) == value);
    first_found(front, ':', n);
}

/// Where several lines give a key a value the last of them counts, and lines that give it none do
/// not matter.
pub proof fn the_last_line_counts(
    before: Seq<Seq<char>>,
    after: Seq<Seq<char>>,
    line: Seq<char>,
    key: Seq<char>,
)
    requires
        forall|i: int| 0 <= i < after.len() ==> line_value(#[trigger] after[i], key) is None,
    ensures
        line_value(line, key) is Some ==> front_value(before.push(line) + after, key) == line_value(
            line,
            key,
        ),
        front_value(before + after, key) == front_value(before, key),
        front_value(Seq::empty(), key) is None,
    decreases after.len(),
{
    if after.len() == 0 {
        assert(before + after == before);
        assert(before.push(line) + after == before.push(line));
        assert(before.push(line).drop_last() == before);
    } else {
        let less = after.drop_last();
        assert forall|i: int| 0 <= i < less.len() implies line_value(#[trigger] less[i], key) is None by {
            assert(less[i] == after[i]);
        }
        the_last_line_counts(before, less, line, key);
        assert(after[after.len() - 1] == after.last());
        assert((before + after).drop_last() == before + less);
        assert((before.push(line) + after).drop_last() == before.push(line) + less);
    }
}

/// The items of a list are what is left of each without white space and quotes at either end, in
/// their order, and an item of which nothing is left is none.
pub proof fn list_items_are_cleaned_in_order(
    a: Seq<Seq<char>>,
    b: Seq<Seq<char>>,
    item: Seq<char>,
)
    ensures
        clean_items(a + b) == clean_items(a) + clean_items(b),
        stripped(trimmed(item), seq!['"', '\'']).len() > 0 ==> clean_items(seq![item]) == seq![
            stripped(trimmed(item), seq!['"', '\'']),
        ],
        stripped(trimmed(item), seq!['"', '\'']).len() == 0 ==> clean_items(seq![item]).len() == 0,
    decreases b.len(),
{
    reveal_with_fuel(clean_items, 2);
    assert(seq![item].drop_last() == Seq::<Seq<char>>::empty());
    if b.len() == 0 {
        assert(a + b == a);
    } else {
        list_items_are_cleaned_in_order(a, b.drop_last(), item);
        assert((a + b).drop_last() == a + b.drop_last());
        assert((a + b).last() == b.last());
    }
}

/// What was requested and not granted is told in the order of the request, and all of it.
pub proof fn all_that_is_ungranted_is_told(
    a: Seq<Seq<char>>,
    b: Seq<Seq<char>>,
    one: Seq<char>,
    granted: Seq<Seq<char>>,
)
    ensures
        ungranted(a + b, granted) == ungranted(a, granted) + ungranted(b, granted),
        granted.contains(one) ==> ungranted(seq![one], granted).len() == 0,
        !granted.contains(one) ==> ungranted(seq![one], granted) == seq![one],
    decreases b.len(),
{
    reveal_with_fuel(ungranted, 2);
    assert(seq![one].drop_last() == Seq::<Seq<char>>::empty());
    if b.len() == 0 {
        assert(a + b == a);
    } else {
        all_that_is_ungranted_is_told(a, b.drop_last(), one, granted);
        assert((a + b).drop_last() == a + b.drop_last());
        assert((a + b).last() == b.last());
    }
}

/// A skill is what its file says: its name and description as they stand, what it requests, where it
/// comes from and whether it is trusted. Its id is its name in small letters with hyphens for
/// spaces, and its body costs a quarter of its bytes.
pub proof fn a_skill_is_what_its_file_says(
    path: Seq<char>,
    name: Seq<char>,
    description: Seq<char>,
    requested: Seq<Seq<char>>,
    after: Seq<char>,
    trusted: bool,
)
    requires
        utf8_len(trimmed(stripped_front(after, seq!['-', '\n']))) <= u32::MAX,
    ensures
        ({
            let skill = skill_of(path, name, description, requested, after, trusted);
            &&& skill.entry.name == name
            &&& skill.entry.description == description
            &&& skill.entry.trusted == trusted
            &&& skill.requested == requested
            &&& skill.source == path
            &&& skill.body == trimmed(stripped_front(after, seq!['-', '\n']))
            &&& 4 * skill.entry.body_tokens >= utf8_len(skill.body)
            &&& 4 * skill.entry.body_tokens < utf8_len(skill.body) + 4
            &&& skill.entry.id.len() == name.len()
            &&& forall|i: int|
                0 <= i < name.len() ==> #[trigger] skill.entry.id[i] == (if name[i] == ' ' {
                    '-'
                } else {
                    lowered(name)[i]
                })
        }),
{
}

/// What listings and bodies cost adds up over the skills.
pub proof fn skill_costs_add_up(skills: Seq<SkillView>, more: SkillView)
    ensures
        index_costs(Seq::empty()) == 0 && body_costs(Seq::empty()) == 0,
        index_costs(skills.push(more)) == index_costs(skills) + index_cost(more.entry),
        body_costs(skills.push(more)) == body_costs(skills) + more.entry.body_tokens,
{
    assert(skills.push(more).drop_last() == skills);
}

/// A skill that cannot be loaded is told by its path, and by what it lacks.
pub proof fn skill_errors_name_the_file(e: SkillError)
    ensures
        match e {
            SkillError::NoFrontMatter { path } => mentions(skill_error_text(e), path@),
            SkillError::MissingField { path, field } => mentions(skill_error_text(e), path@)
                && mentions(skill_error_text(e), field@),
            SkillError::UngrantedCapabilities { path, requested } => mentions(
                skill_error_text(e),
                path@,
            ) && mentions(skill_error_text(e), requested@),
        },
{
    broadcast use group_mentions;

}

/// What a skill requests stands in a list between brackets, parted by commas: each stretch between
/// commas is one request. A skill that names no capabilities requests none.
pub proof fn requests_are_parted_by_commas(
    all: Seq<Seq<char>>,
    value: Seq<char>,
    a: Seq<char>,
    b: Seq<char>,
)
    requires
        front_value(all, "capabilities"@) == Some(value),
        stripped(value, seq!['[', ']']) == a + seq![','] + b,
        !a.contains(','),
    ensures
        requested_in(all) == clean_items(seq![a]) + clean_items(split_on(b, ',')),
        !b.contains(',') ==> requested_in(all) == clean_items(seq![a]) + clean_items(seq![b]),
{
    a_text_is_split_at_every_place(a, ',', b);
    a_text_is_split_at_every_place(b, ',', a);
    list_items_are_cleaned_in_order(seq![a], split_on(b, ','), a);
}

/// A list without a comma is one request, and no list is none.
pub proof fn one_request_needs_no_comma(all: Seq<Seq<char>>)
    ensures
        front_value(all, "capabilities"@) is None ==> requested_in(all).len() == 0,
        front_value(all, "capabilities"@) matches Some(value) ==> !stripped(
            value,
            seq!['[', ']'],
        ).contains(',') ==> requested_in(all) == clean_items(seq![stripped(value, seq!['[', ']'])]),
{
    if let Some(value) = front_value(all, "capabilities"@) {
        a_text_is_split_at_every_place(stripped(value, seq!['[', ']']), ',', Seq::empty());
    }
}

} // verus!
