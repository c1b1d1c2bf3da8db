//! Finding capabilities in a catalog too large to show the model at once.
//!
//! A pattern search takes literals, `.`, `.*` and `|`; a ranked search takes natural language. Both
//! index the name, the description, the argument names and the argument descriptions of a tool.

use vstd::prelude::*;

use crate::ids::ToolName;
use crate::order::{in_order, sort, sorted, sorting_orders_and_keeps, Ranked};
use crate::text::{byte_len, chars_of, comes_before, dec, decimal_usize, find_text, holds_text, lower, lowered, same_text, split_char, split_on, text_at, text_before, text_of, text_order_is_total, text_order_is_transitive, texts, trim, trimmed, utf8_len, a_text_is_found_where_it_first_stands, a_text_is_split_at_every_place, group_mentions, mentions, stands_at};
use crate::tool::{SearchHit, SearchKind, SearchQuery};
use crate::tool_def::{properties, property_text, ToolDefinition, ToolDefinitionView, every_parameter_can_be_found};

verus! {

/// The longest pattern a provider-native search accepts, in bytes.
pub const MAX_REGEX_LEN: usize = 200;

/// The longest natural-language query a provider-native search accepts, in bytes.
pub const MAX_QUERY_LEN: usize = 500;

/// A query was not usable.
#[derive(Debug, PartialEq, Eq)]
#[non_exhaustive]
pub enum SearchError {
    /// Longer than the provider would accept.
    TooLong {
        /// Which kind of query.
        kind: &'static str,
        /// The limit.
        max: usize,
        /// What was supplied.
        len: usize,
    },
    /// The pattern would not compile.
    BadPattern(String),
}

/// A search error in words.
pub open spec fn search_error_text(e: SearchError) -> Seq<char> {
    match e {
        SearchError::TooLong { kind, max, len } => "a "@ + kind@ + " query may be at most "@ + dec(
            max as nat,
        ) + " characters; this one is "@ + dec(len as nat),
        SearchError::BadPattern(why) => "that pattern is not valid: "@ + why@,
    }
}

impl SearchError {
    /// The error in words.
    pub fn to_string(&self) -> (r: String)
        ensures
            r@ == search_error_text(*self),
    {
        match self {
            SearchError::TooLong { kind, max, len } => {
                let mut out = "a ".to_owned();
                out.push_str(kind);
                out.push_str(" query may be at most ");
                out.push_str(decimal_usize(*max).as_str());
                out.push_str(" characters; this one is ");
                out.push_str(decimal_usize(*len).as_str());
                out
            },
            SearchError::BadPattern(why) => {
                let mut out = "that pattern is not valid: ".to_owned();
                out.push_str(why.as_str());
                out
            },
        }
    }
}

/// Whether a character is a letter or a number in Unicode's sense.
pub uninterp spec fn alphanumeric(c: char) -> bool;

/// `char::is_alphanumeric`: whether a character is alphabetic or numeric in Unicode. It is a
/// function of the character; which characters those are is not stated.
#[verifier::external_body]
fn is_alphanumeric(c: char) -> (r: bool)
    ensures
        r == alphanumeric(c),
{
    c.is_alphanumeric()
}

/// The pieces of a text between characters that are neither letters nor numbers.
pub open spec fn pieces(s: Seq<char>) -> Seq<Seq<char>>
    decreases s.len(),
{
    if s.len() == 0 {
        seq![Seq::empty()]
    } else {
        let before = pieces(s.drop_last());
        if alphanumeric(s.last()) {
            before.drop_last().push(before.last().push(s.last()))
        } else {
            before.push(Seq::empty())
        }
    }
}

/// The pieces that are longer than one byte, in lower case.
pub open spec fn terms_among(pieces: Seq<Seq<char>>) -> Seq<Seq<char>>
    decreases pieces.len(),
{
    if pieces.len() == 0 {
        Seq::empty()
    } else if utf8_len(pieces.last()) > 1 {
        terms_among(pieces.drop_last()).push(lowered(pieces.last()))
    } else {
        terms_among(pieces.drop_last())
    }
}

/// The terms of a text.
pub open spec fn terms_of(s: Seq<char>) -> Seq<Seq<char>> {
    terms_among(pieces(s))
}

proof fn pieces_are_some(s: Seq<char>)
    ensures
        pieces(s).len() > 0,
    decreases s.len(),
{
    if s.len() > 0 {
        pieces_are_some(s.drop_last());
    }
}

fn take_term(out: &mut Vec<String>, piece: &str)
    ensures
        texts(final(out)@) == (if utf8_len(piece@) > 1 {
            texts(old(out)@).push(lowered(piece@))
        } else {
            texts(old(out)@)
        }),
{
    if byte_len(piece) > 1 {
        let ghost before = out@;
        out.push(lower(piece));
        assert(texts(out@) == texts(before).push(lowered(piece@)));
    }
}

/// The terms of a text: runs of letters and numbers longer than one byte, in lower case.
pub fn tokenise(text: &str) -> (r: Vec<String>)
    ensures
        texts(r@) == terms_of(text@),
{
    let chars = chars_of(text);
    let mut out: Vec<String> = Vec::new();
    let mut piece = String::new();
    let mut i: usize = 0;
    assert(chars@.take(0) == Seq::<char>::empty());
    assert(piece@ == Seq::<char>::empty());
    assert(pieces(Seq::empty()).drop_last() == Seq::<Seq<char>>::empty());
    assert(texts(out@) == Seq::<Seq<char>>::empty());
    while i < chars.len()
        invariant
            i <= chars@.len(),
            texts(out@) == terms_among(pieces(chars@.take(i as int)).drop_last()),
            piece@ == pieces(chars@.take(i as int)).last(),
        decreases chars@.len() - i,
    {
        let ghost before = pieces(chars@.take(i as int));
        proof {
            assert(chars@.take(i + 1).drop_last() == chars@.take(i as int));
            pieces_are_some(chars@.take(i as int));
        }
        if is_alphanumeric(chars[i]) {
            piece.push(chars[i]);
            assert(pieces(chars@.take(i + 1)).drop_last() == before.drop_last());
        } else {
            take_term(&mut out, piece.as_str());
            piece = String::new();
            assert(piece@ == Seq::<char>::empty());
            assert(pieces(chars@.take(i + 1)).drop_last() == before);
        }
        i = i + 1;
    }
    assert(chars@.take(chars@.len() as int) == chars@);
    proof {
        pieces_are_some(chars@);
    }
    take_term(&mut out, piece.as_str());
    out
}

/// Everything a search indexes about one capability.
#[derive(Debug)]
pub struct Indexed {
    name: ToolName,
    haystack: String,
    terms: Vec<String>,
}

/// Everything a search indexes about one capability.
#[verifier::ext_equal]
pub struct IndexedView {
    pub name: Seq<char>,
    pub haystack: Seq<char>,
    pub terms: Seq<Seq<char>>,
}

impl DeepView for Indexed {
    type V = IndexedView;

    closed spec fn deep_view(&self) -> IndexedView {
        IndexedView { name: self.name@, haystack: self.haystack@, terms: texts(self.terms@) }
    }
}

impl Clone for Indexed {
    fn clone(&self) -> (r: Self)
        ensures
            r.deep_view() == self.deep_view(),
    {
        Indexed {
            name: self.name.clone(),
            haystack: self.haystack.clone(),
            terms: crate::text::copy_texts(&self.terms),
        }
    }
}

/// What a search indexes about a tool.
pub open spec fn indexed(def: ToolDefinitionView) -> IndexedView {
    let haystack = lowered(
        def.name + " "@ + def.description + " "@ + property_text(properties(def.input_schema)),
    );
    IndexedView { name: def.name, haystack, terms: terms_of(haystack) }
}

/// What a search indexes about a catalog.
pub open spec fn catalog_index(defs: Seq<ToolDefinitionView>) -> Seq<IndexedView> {
    Seq::new(defs.len(), |i: int| indexed(defs[i]))
}

/// Index one tool.
pub fn index(definition: &ToolDefinition) -> (r: Indexed)
    ensures
        r.deep_view() == indexed(definition@),
{
    let haystack = lower(definition.searchable_text().as_str());
    let terms = tokenise(haystack.as_str());
    Indexed { name: definition.name.clone(), haystack, terms }
}

fn index_all(definitions: &[ToolDefinition]) -> (r: Vec<Indexed>)
    ensures
        r.deep_view() == catalog_index(definitions.deep_view()),
{
    let mut entries: Vec<Indexed> = Vec::new();
    let mut i: usize = 0;
    while i < definitions.len()
        invariant
            i <= definitions@.len(),
            entries@.len() == i,
            forall|j: int|
                0 <= j < i ==> (#[trigger] entries@[j]).deep_view() == indexed(definitions@[j]@),
        decreases definitions@.len() - i,
    {
        entries.push(index(&definitions[i]));
        i = i + 1;
    }
    assert(entries.deep_view() == catalog_index(definitions.deep_view()));
    entries
}

/// `.*`.
pub open spec fn star() -> Seq<char> {
    seq!['.', '*']
}

/// The pieces of a pattern between the places where it holds `.*`.
pub open spec fn star_split(p: Seq<char>) -> Seq<Seq<char>>
    decreases p.len(),
{
    match text_at(p, star()) {
        Some(n) => if n + 2 <= p.len() {
            seq![p.take(n as int)] + star_split(p.skip(n as int + 2))
        } else {
            seq![p]
        },
        None => seq![p],
    }
}

/// The pieces that are not empty.
pub open spec fn filled_pieces(all: Seq<Seq<char>>) -> Seq<Seq<char>>
    decreases all.len(),
{
    if all.len() == 0 {
        Seq::empty()
    } else if all[0].len() == 0 {
        filled_pieces(all.drop_first())
    } else {
        seq![all[0]] + filled_pieces(all.drop_first())
    }
}

/// Whether a chunk of a pattern matches at a place: `.` matches any character.
pub open spec fn matches_at(h: Seq<char>, at: int, chunk: Seq<char>) -> bool {
    &&& 0 <= at
    &&& at + chunk.len() <= h.len()
    &&& forall|i: int| 0 <= i < chunk.len() ==> chunk[i] == '.' || h[at + i] == #[trigger] chunk[i]
}

/// Whether chunks match one behind the other, from a place on, with anything between them.
pub open spec fn in_sequence(chunks: Seq<Seq<char>>, h: Seq<char>, from: int) -> bool
    decreases chunks.len(),
{
    if chunks.len() == 0 {
        true
    } else {
        exists|at: int|
            from <= at && #[trigger] matches_at(h, at, chunks[0]) && in_sequence(
                chunks.drop_first(),
                h,
                at + chunks[0].len(),
            )
    }
}

/// Whether a pattern without alternatives occurs in a text. It need not begin at the front.
pub open spec fn occurs(pattern: Seq<char>, h: Seq<char>) -> bool {
    in_sequence(filled_pieces(star_split(pattern)), h, 0)
}

proof fn earlier_is_no_worse(chunks: Seq<Seq<char>>, h: Seq<char>, a: int, b: int)
    requires
        a <= b,
        in_sequence(chunks, h, b),
    ensures
        in_sequence(chunks, h, a),
{
    if chunks.len() > 0 {
        let at = choose|at: int|
            b <= at && #[trigger] matches_at(h, at, chunks[0]) && in_sequence(
                chunks.drop_first(),
                h,
                at + chunks[0].len(),
            );
        assert(a <= at && matches_at(h, at, chunks[0]));
    }
}

fn chunk_at(h: &Vec<char>, at: usize, chunk: &Vec<char>) -> (r: bool)
    requires
        at + chunk@.len() <= h@.len(),
    ensures
        r == matches_at(h@, at as int, chunk@),
{
    let end: usize = h.len();
    let mut i: usize = 0;
    while i < chunk.len()
        invariant
            i <= chunk@.len(),
            at + chunk@.len() <= h@.len(),
            end == h@.len(),
            forall|j: int|
                0 <= j < i ==> chunk@[j] == '.' || h@[at + j] == #[trigger] chunk@[j],
        decreases chunk@.len() - i,
    {
        if chunk[i] != '.' && h[at + i] != chunk[i] {
            return false;
        }
        i = i + 1;
    }
    true
}

/// The first place from `from` on where a chunk matches.
pub fn find_with_dots(h: &Vec<char>, from: usize, chunk: &Vec<char>) -> (r: Option<usize>)
    requires
        from <= h@.len(),
    ensures
        match r {
            Some(at) => from <= at && matches_at(h@, at as int, chunk@) && forall|k: int|
                from <= k < at ==> !#[trigger] matches_at(h@, k, chunk@),
            None => forall|k: int| from <= k ==> !#[trigger] matches_at(h@, k, chunk@),
        },
{
    let mut at: usize = from;
    while chunk.len() <= h.len() - at
        invariant
            from <= at <= h@.len(),
            forall|k: int| from <= k < at ==> !#[trigger] matches_at(h@, k, chunk@),
        decreases h@.len() - at,
    {
        if chunk_at(h, at, chunk) {
            return Some(at);
        }
        if at == h.len() {
            return None;
        }
        at = at + 1;
    }
    None
}

proof fn first_piece(p: Seq<char>, n: int)
    requires
        text_at(p, star()) == Some(n as nat),
        0 <= n,
        n + 2 <= p.len(),
    ensures
        star_split(p) == seq![p.take(n)] + star_split(p.skip(n + 2)),
{
}

/// Whether a pattern without alternatives occurs in a text: every chunk between `.*` must match, in
/// order.
pub fn pattern_occurs(pattern: &str, haystack: &str) -> (r: bool)
    ensures
        r == occurs(pattern@, haystack@),
{
    let p = chars_of(pattern);
    let h = chars_of(haystack);
    let star_chars: Vec<char> = vec!['.', '*'];
    assert(star_chars@ == star());
    let p_len: usize = p.len();
    let h_len: usize = h.len();
    let mut from: usize = 0;
    let mut cursor: usize = 0;
    assert(p@.skip(0) == p@);
    loop
        invariant
            from <= p@.len(),
            cursor <= h@.len(),
            p_len == p@.len(),
            h_len == h@.len(),
            star_chars@ == star(),
            p@ == pattern@,
            h@ == haystack@,
            occurs(p@, h@) == in_sequence(
                filled_pieces(star_split(p@.skip(from as int))),
                h@,
                cursor as int,
            ),
        decreases p@.len() - from,
    {
        let ghost rest = p@.skip(from as int);
        let split = find_text(&p, from, &star_chars);
        let to: usize = match split {
            Some(n) => from + n,
            None => p_len,
        };
        let chunk_text = text_of(&p, from, to);
        let chunk = chars_of(chunk_text.as_str());
        let ghost all = star_split(rest);
        let ghost later = all.drop_first();
        proof {
            assert(chunk@ == rest.take(to - from));
            if split is Some {
                first_piece(rest, to - from);
                assert(rest.skip(to - from + 2) == p@.skip(to + 2));
                assert(later == star_split(p@.skip(to + 2)));
            } else {
                assert(rest.take(to - from) == rest);
                assert(later == Seq::<Seq<char>>::empty());
            }
            assert(all[0] == chunk@);
        }
        let ghost chunks = filled_pieces(all);
        if chunk.len() > 0 {
            proof {
                assert(chunks == seq![chunk@] + filled_pieces(later));
                assert(chunks.drop_first() == filled_pieces(later));
            }
            match find_with_dots(&h, cursor, &chunk) {
                Some(at) => {
                    proof {
                        let end = at + chunk@.len();
                        if in_sequence(chunks, h@, cursor as int) {
                            let w = choose|w: int|
                                cursor <= w && #[trigger] matches_at(h@, w, chunks[0])
                                    && in_sequence(
                                    chunks.drop_first(),
                                    h@,
                                    w + chunks[0].len(),
                                );
                            assert(at <= w);
                            earlier_is_no_worse(filled_pieces(later), h@, end, w + chunk@.len());
                        }
                        if in_sequence(filled_pieces(later), h@, end) {
                            assert(matches_at(h@, at as int, chunks[0]));
                        }
                    }
                    cursor = at + chunk.len();
                },
                None => {
                    return false;
                },
            }
        } else {
            assert(chunks == filled_pieces(later));
        }
        match split {
            Some(_) => {
                from = to + 2;
            },
            None => {
                assert(filled_pieces(later).len() == 0);
                return true;
            },
        }
    }
}

/// Whether one of the alternatives of a pattern occurs in a text.
pub open spec fn any_occurs(pattern: Seq<char>, h: Seq<char>) -> bool {
    exists|i: int|
        0 <= i < split_on(pattern, '|').len() && occurs(
            trimmed(#[trigger] split_on(pattern, '|')[i]),
            h,
        )
}

fn any_alternative(alternatives: &Vec<String>, haystack: &str) -> (r: bool)
    ensures
        r == exists|i: int|
            0 <= i < texts(alternatives@).len() && occurs(
                trimmed(#[trigger] texts(alternatives@)[i]),
                haystack@,
            ),
{
    let mut i: usize = 0;
    while i < alternatives.len()
        invariant
            i <= alternatives@.len(),
            forall|j: int|
                0 <= j < i ==> !occurs(trimmed(#[trigger] texts(alternatives@)[j]), haystack@),
        decreases alternatives@.len() - i,
    {
        let alternative = trim(alternatives[i].as_str());
        if pattern_occurs(alternative.as_str(), haystack) {
            assert(occurs(trimmed(texts(alternatives@)[i as int]), haystack@));
            return true;
        }
        i = i + 1;
    }
    false
}

/// Substring and alternation search, in the manner of the provider-native pattern search.
///
/// Literals, `.`, `.*` and `|` are supported, and nothing else. Matching ignores ASCII case.
#[derive(Debug)]
pub struct RegexSearch {
    entries: Vec<Indexed>,
}

impl View for RegexSearch {
    type V = Seq<IndexedView>;

    closed spec fn view(&self) -> Seq<IndexedView> {
        self.entries.deep_view()
    }
}

impl Default for RegexSearch {
    fn default() -> (r: Self)
        ensures
            r@ == Seq::<IndexedView>::empty(),
    {
        let r = RegexSearch { entries: Vec::new() };
        assert(r@ == Seq::<IndexedView>::empty());
        r
    }
}

/// The names of the entries in which one of the alternatives of a pattern occurs, in catalog order.
pub open spec fn matching(entries: Seq<IndexedView>, pattern: Seq<char>) -> Seq<Seq<char>>
    decreases entries.len(),
{
    if entries.len() == 0 {
        Seq::empty()
    } else if any_occurs(pattern, entries.last().haystack) {
        matching(entries.drop_last(), pattern).push(entries.last().name)
    } else {
        matching(entries.drop_last(), pattern)
    }
}

/// The first of some names, at most `limit` of them.
pub open spec fn at_most(names: Seq<Seq<char>>, limit: nat) -> Seq<Seq<char>> {
    if names.len() <= limit {
        names
    } else {
        names.take(limit as int)
    }
}

/// The names of some hits.
pub open spec fn hit_names(hits: Seq<SearchHit>) -> Seq<Seq<char>> {
    Seq::new(hits.len(), |i: int| hits[i].name@)
}

proof fn matching_of_prefix(entries: Seq<IndexedView>, pattern: Seq<char>, n: int)
    requires
        0 <= n <= entries.len(),
    ensures
        matching(entries.take(n), pattern).len() <= matching(entries, pattern).len(),
        matching(entries, pattern).take(matching(entries.take(n), pattern).len() as int)
            == matching(entries.take(n), pattern),
    decreases entries.len(),
{
    if n == entries.len() {
        assert(entries.take(n) == entries);
        assert(matching(entries, pattern).take(matching(entries, pattern).len() as int) == matching(
            entries,
            pattern,
        ));
    } else {
        matching_of_prefix(entries.drop_last(), pattern, n);
        assert(entries.drop_last().take(n) == entries.take(n));
        let small = matching(entries.take(n), pattern);
        let most = matching(entries.drop_last(), pattern);
        assert(matching(entries, pattern).take(small.len() as int) == most.take(small.len() as int));
    }
}

impl RegexSearch {
    /// Index a catalog.
    pub fn new(definitions: &[ToolDefinition]) -> (r: Self)
        ensures
            r@ == catalog_index(definitions.deep_view()),
    {
        RegexSearch { entries: index_all(definitions) }
    }

    /// Find capabilities matching `query`. A pattern that the provider would reject for its length
    /// is rejected here too; anything else succeeds, finding nothing if nothing matches.
    pub fn search(&self, query: &SearchQuery) -> (r: Result<Vec<SearchHit>, SearchError>)
        ensures
            match r {
                Ok(hits) => {
                    &&& utf8_len(query.text@) <= MAX_REGEX_LEN
                    &&& hit_names(hits@) == at_most(
                        matching(self@, lowered(query.text@)),
                        query.limit as nat,
                    )
                    &&& forall|i: int|
                        0 <= i < hits@.len() ==> (#[trigger] hits@[i]).score_bp == 10_000
                },
                Err(SearchError::TooLong { kind, max, len }) => utf8_len(query.text@)
                    > MAX_REGEX_LEN && kind@ == "regex"@ && max == MAX_REGEX_LEN && len == utf8_len(
                    query.text@,
                ),
                Err(_) => false,
            },
    {
        let len: usize = byte_len(query.text.as_str());
        if len > MAX_REGEX_LEN {
            return Err(SearchError::TooLong { kind: "regex", max: MAX_REGEX_LEN, len });
        }
        let pattern = lower(query.text.as_str());
        let alternatives = split_char(pattern.as_str(), '|');
        let limit: usize = query.limit as usize;
        let ghost all = self@;
        let mut hits: Vec<SearchHit> = Vec::new();
        assert(hit_names(hits@) == Seq::<Seq<char>>::empty());
        assert(matching(all.take(0), pattern@) == Seq::<Seq<char>>::empty());
        let mut i: usize = 0;
        while i < self.entries.len() && hits.len() < limit
            invariant
                i <= self.entries@.len(),
                all == self.entries.deep_view(),
                texts(alternatives@) == split_on(pattern@, '|'),
                hits@.len() <= limit,
                hit_names(hits@) == matching(all.take(i as int), pattern@),
                forall|j: int| 0 <= j < hits@.len() ==> (#[trigger] hits@[j]).score_bp == 10_000,
            decreases self.entries@.len() - i,
        {
            assert(all.take(i + 1).drop_last() == all.take(i as int));
            assert(all.take(i + 1).last() == self.entries@[i as int].deep_view());
            if any_alternative(&alternatives, self.entries[i].haystack.as_str()) {
                let ghost before = hits@;
                hits.push(
                    SearchHit { name: self.entries[i].name.clone(), score_bp: 10_000 },
                );
                assert(hit_names(hits@) == hit_names(before).push(
                    self.entries@[i as int].deep_view().name,
                ));
            }
            i = i + 1;
        }
        proof {
            matching_of_prefix(all, pattern@, i as int);
            if i == all.len() {
                assert(all.take(i as int) == all);
                if matching(all, pattern@).len() == limit {
                    assert(matching(all, pattern@).take(limit as int) == matching(all, pattern@));
                }
            }
        }
        Ok(hits)
    }

    /// Which strategy this is.
    #[must_use]
    pub fn kind(&self) -> (r: SearchKind)
        ensures
            r == SearchKind::Regex,
    {
        SearchKind::Regex
    }
}

/// Every entry that matches is found while there is room, in catalog order, and nothing else is:
/// a name is found exactly where an entry of that name matches.
pub proof fn every_match_is_found(entries: Seq<IndexedView>, pattern: Seq<char>, name: Seq<char>)
    ensures
        matching(entries, pattern).contains(name) <==> exists|i: int|
            0 <= i < entries.len() && (#[trigger] entries[i]).name == name && any_occurs(
                pattern,
                entries[i].haystack,
            ),
        matching(entries, pattern).len() <= entries.len(),
    decreases entries.len(),
{
    if entries.len() > 0 {
        let rest = entries.drop_last();
        every_match_is_found(rest, pattern, name);
        let found = matching(entries, pattern);
        let before = matching(rest, pattern);
        if found.contains(name) {
            let k = choose|k: int| 0 <= k < found.len() && found[k] == name;
            if k < before.len() {
                assert(before[k] == name);
                let i = choose|i: int|
                    0 <= i < rest.len() && (#[trigger] rest[i]).name == name && any_occurs(
                        pattern,
                        rest[i].haystack,
                    );
                assert(entries[i] == rest[i]);
            } else {
                assert(entries[entries.len() - 1].name == name);
            }
        }
        if exists|i: int|
            0 <= i < entries.len() && (#[trigger] entries[i]).name == name && any_occurs(
                pattern,
                entries[i].haystack,
            ) {
            let i = choose|i: int|
                0 <= i < entries.len() && (#[trigger] entries[i]).name == name && any_occurs(
                    pattern,
                    entries[i].haystack,
                );
            if i < rest.len() {
                assert(rest[i] == entries[i]);
                let k = choose|k: int| 0 <= k < before.len() && before[k] == name;
                assert(found[k] == name);
            } else {
                assert(found[found.len() - 1] == name);
            }
        }
    }
}

/// How often each of two things happens: a query term in one entry, and entries that hold it.
#[derive(Debug, Clone, Copy, PartialEq, Eq, Structural)]
pub struct TermCount {
    /// How often the entry holds the term.
    pub in_entry: u64,
    /// How many entries hold the term.
    pub in_catalog: u64,
}

/// What the score of one entry is made from.
#[derive(Debug)]
pub struct EntryCounts {
    /// Which tool.
    pub name: ToolName,
    /// How many terms the entry has.
    pub length: u64,
    /// The counts of each query term, in query order.
    pub terms: Vec<TermCount>,
}

/// What the score of one entry is made from.
#[verifier::ext_equal]
pub struct EntryCountsView {
    pub name: Seq<char>,
    pub length: nat,
    pub terms: Seq<TermCount>,
}

impl DeepView for EntryCounts {
    type V = EntryCountsView;

    open spec fn deep_view(&self) -> EntryCountsView {
        EntryCountsView { name: self.name@, length: self.length as nat, terms: self.terms@ }
    }
}

/// How often a list holds a term.
pub open spec fn occurrences(terms: Seq<Seq<char>>, term: Seq<char>) -> nat
    decreases terms.len(),
{
    if terms.len() == 0 {
        0
    } else if terms.last() == term {
        occurrences(terms.drop_last(), term) + 1
    } else {
        occurrences(terms.drop_last(), term)
    }
}

/// How many entries hold a term.
pub open spec fn frequency(entries: Seq<IndexedView>, term: Seq<char>) -> nat
    decreases entries.len(),
{
    if entries.len() == 0 {
        0
    } else if occurrences(entries.last().terms, term) > 0 {
        frequency(entries.drop_last(), term) + 1
    } else {
        frequency(entries.drop_last(), term)
    }
}

/// How many terms all entries have together.
pub open spec fn total_length(entries: Seq<IndexedView>) -> nat
    decreases entries.len(),
{
    if entries.len() == 0 {
        0
    } else {
        total_length(entries.drop_last()) + entries.last().terms.len()
    }
}

/// The counts that the score of an entry is made from.
pub open spec fn counts_of(
    entries: Seq<IndexedView>,
    entry: IndexedView,
    terms: Seq<Seq<char>>,
) -> EntryCountsView {
    EntryCountsView {
        name: entry.name,
        length: entry.terms.len(),
        terms: Seq::new(
            terms.len(),
            |i: int|
                TermCount {
                    in_entry: occurrences(entry.terms, terms[i]) as u64,
                    in_catalog: frequency(entries, terms[i]) as u64,
                },
        ),
    }
}

fn count_term(terms: &Vec<String>, term: &str) -> (r: u64)
    ensures
        r == occurrences(texts(terms@), term@),
        r <= terms@.len(),
{
    let ghost all = texts(terms@);
    let mut n: u64 = 0;
    let mut i: usize = 0;
    assert(all.take(0) == Seq::<Seq<char>>::empty());
    while i < terms.len()
        invariant
            i <= terms@.len(),
            all == texts(terms@),
            n == occurrences(all.take(i as int), term@),
            n <= i,
        decreases terms@.len() - i,
    {
        assert(all.take(i + 1).drop_last() == all.take(i as int));
        assert(all.take(i + 1).last() == terms@[i as int]@);
        if same_text(terms[i].as_str(), term) {
            n = n + 1;
        }
        i = i + 1;
    }
    assert(all.take(all.len() as int) == all);
    n
}

/// Lexical ranking over the catalog, for natural-language queries.
///
/// What a score is made from is counted here: how often the query's terms occur in an entry, how
/// many entries hold them, and how long the entries are.
#[derive(Debug)]
pub struct Bm25Search {
    entries: Vec<Indexed>,
}

impl View for Bm25Search {
    type V = Seq<IndexedView>;

    closed spec fn view(&self) -> Seq<IndexedView> {
        self.entries.deep_view()
    }
}

impl Default for Bm25Search {
    fn default() -> (r: Self)
        ensures
            r@ == Seq::<IndexedView>::empty(),
    {
        let r = Bm25Search { entries: Vec::new() };
        assert(r@ == Seq::<IndexedView>::empty());
        r
    }
}

/// A capability with its score. Scores compare as integers do; zero is no match.
#[derive(Debug, PartialEq, Eq)]
pub struct Scored {
    /// How well it matched.
    pub score: u64,
    /// Which tool.
    pub name: ToolName,
}

impl Ranked for Scored {
    open spec fn before(&self, other: &Self) -> bool {
        self.score > other.score || (self.score == other.score && text_before(
            self.name@,
            other.name@,
        ))
    }

    proof fn order_laws(a: Self, b: Self, c: Self) {
        text_order_is_total(a.name@, b.name@);
        text_order_is_total(b.name@, c.name@);
        text_order_is_total(a.name@, c.name@);
        if text_before(a.name@, b.name@) && text_before(b.name@, c.name@) {
            text_order_is_transitive(a.name@, b.name@, c.name@);
        }
    }

    fn is_before(&self, other: &Self) -> (r: bool) {
        self.score > other.score || (self.score == other.score && comes_before(
            self.name.as_str(),
            other.name.as_str(),
        ))
    }
}

/// Those that matched at all.
pub open spec fn matched(all: Seq<Scored>) -> Seq<Scored>
    decreases all.len(),
{
    if all.len() == 0 {
        Seq::empty()
    } else if all.last().score > 0 {
        matched(all.drop_last()).push(all.last())
    } else {
        matched(all.drop_last())
    }
}

/// The best of what matched: by score, and by name where scores are equal, at most `limit`.
pub open spec fn best_of(all: Seq<Scored>, limit: nat) -> Seq<Scored> {
    let order = sorted(matched(all));
    if order.len() <= limit {
        order
    } else {
        order.take(limit as int)
    }
}

/// Rank what was scored: by score, then by name, so that equal scores do not reorder between runs.
/// What did not match is left out, and at most `limit` are returned.
pub fn rank(all: Vec<Scored>, limit: u8) -> (r: Vec<Scored>)
    ensures
        r@ == best_of(all@, limit as nat),
{
    let ghost given = all@;
    let mut kept: Vec<Scored> = Vec::new();
    for one in it: all
        invariant
            it.seq() == given,
            it.index() <= given.len(),
            kept@ == matched(given.take(it.index() as int)),
    {
        proof {
            let i = it.index() as int;
            assert(given.take(i + 1).drop_last() == given.take(i));
            assert(given.take(i + 1).last() == one);
        }
        if one.score > 0 {
            kept.push(one);
        }
    }
    assert(given.take(given.len() as int) == given);
    let mut out = sort(kept);
    out.truncate(limit as usize);
    out
}

/// Ranked results are in order of their scores, the earlier name first where scores are equal, and
/// are no more than asked for.
pub proof fn ranking_is_stable(all: Seq<Scored>, limit: nat)
    ensures
        best_of(all, limit).len() <= limit,
        in_order(best_of(all, limit)),
{
    let order = sorted(matched(all));
    sorting_orders_and_keeps(matched(all));
    let best = best_of(all, limit);
    assert forall|i: int, j: int| 0 <= i < j < best.len() implies !(#[trigger] best[j]).before(
        #[trigger] &best[i],
    ) by {
        assert(best[i] == order[i]);
        assert(best[j] == order[j]);
    }
}

/// Whether one of the terms wanted is one of an entry's.
pub open spec fn shares_term(entry: IndexedView, wanted: Seq<Seq<char>>) -> bool {
    exists|k: int| 0 <= k < wanted.len() && entry.terms.contains(#[trigger] wanted[k])
}

/// Whether each entry of a catalog is paired with its score. An entry that has none of the terms
/// wanted scores nothing.
pub open spec fn scored_as(
    all: Seq<Scored>,
    entries: Seq<IndexedView>,
    scores: Seq<u64>,
    wanted: Seq<Seq<char>>,
) -> bool {
    &&& all.len() == entries.len()
    &&& forall|i: int|
        0 <= i < all.len() ==> (#[trigger] all[i]).name@ == entries[i].name && all[i].score == (
        if shares_term(entries[i], wanted) {
            scores[i]
        } else {
            0
        })
}

proof fn what_matched_has_a_score(all: Seq<Scored>, one: Scored)
    ensures
        matched(all).contains(one) <==> all.contains(one) && one.score > 0,
    decreases all.len(),
{
    if all.len() > 0 {
        let rest = all.drop_last();
        what_matched_has_a_score(rest, one);
        if matched(all).contains(one) {
            let k = choose|k: int| 0 <= k < matched(all).len() && matched(all)[k] == one;
            if k < matched(rest).len() {
                assert(matched(rest)[k] == one);
                let m = choose|m: int| 0 <= m < rest.len() && rest[m] == one;
                assert(all[m] == one);
            } else {
                assert(all[all.len() - 1] == one);
            }
        }
        if all.contains(one) && one.score > 0 {
            let m = choose|m: int| 0 <= m < all.len() && all[m] == one;
            if m < rest.len() {
                assert(rest[m] == one);
                let k = choose|k: int| 0 <= k < matched(rest).len() && matched(rest)[k] == one;
                assert(matched(all)[k] == one);
            } else {
                assert(matched(all)[matched(rest).len() as int] == one);
            }
        }
    }
}

/// Whether a name is that of an entry with one of the terms wanted.
pub open spec fn wanted_entry(
    entries: Seq<IndexedView>,
    wanted: Seq<Seq<char>>,
    name: Seq<char>,
) -> bool {
    exists|i: int|
        0 <= i < entries.len() && (#[trigger] entries[i]).name == name && shares_term(
            entries[i],
            wanted,
        )
}

/// Every hit is an entry with one of the terms wanted. Every such entry that has a score is a hit,
/// as long as there is room for all that matched.
pub proof fn hits_share_a_term(
    all: Seq<Scored>,
    entries: Seq<IndexedView>,
    scores: Seq<u64>,
    wanted: Seq<Seq<char>>,
    limit: nat,
)
    requires
        scored_as(all, entries, scores, wanted),
    ensures
        forall|k: int|
            0 <= k < best_of(all, limit).len() ==> wanted_entry(
                entries,
                wanted,
                (#[trigger] best_of(all, limit)[k]).name@,
            ),
        matched(all).len() <= limit ==> forall|i: int|
            0 <= i < all.len() && shares_term(entries[i], wanted) && scores[i] > 0
                ==> best_of(all, limit).contains(#[trigger] all[i]),
{
    broadcast use vstd::seq_lib::group_to_multiset_ensures;

    let kept = matched(all);
    let order = sorted(kept);
    let best = best_of(all, limit);
    sorting_orders_and_keeps(kept);
    assert forall|k: int| 0 <= k < best.len() implies wanted_entry(
        entries,
        wanted,
        (#[trigger] best[k]).name@,
    ) by {
        let one = best[k];
        assert(order[k] == one);
        assert(order.contains(one));
        assert(order.to_multiset().count(one) > 0);
        assert(kept.contains(one));
        what_matched_has_a_score(all, one);
        let i = choose|i: int| 0 <= i < all.len() && all[i] == one;
        assert(entries[i].name == one.name@);
    }
    if kept.len() <= limit {
        assert forall|i: int|
            0 <= i < all.len() && shares_term(entries[i], wanted) && scores[i] > 0 implies best.contains(
            #[trigger] all[i],
        ) by {
            what_matched_has_a_score(all, all[i]);
            assert(kept.to_multiset().count(all[i]) > 0);
            assert(order.contains(all[i]));
        }
    }
}

impl Bm25Search {
    /// Index a catalog.
    pub fn new(definitions: &[ToolDefinition]) -> (r: Self)
        ensures
            r@ == catalog_index(definitions.deep_view()),
    {
        Bm25Search { entries: index_all(definitions) }
    }

    /// How many entries there are.
    pub fn entries(&self) -> (r: usize)
        ensures
            r == self@.len(),
    {
        self.entries.len()
    }

    /// How many terms all entries have together, or nothing where that is more than 64 bits hold.
    pub fn length(&self) -> (r: Option<u64>)
        ensures
            match r {
                Some(n) => n == total_length(self@),
                None => total_length(self@) > u64::MAX,
            },
    {
        let ghost all = self@;
        let mut n: u64 = 0;
        let mut i: usize = 0;
        assert(all.take(0) == Seq::<IndexedView>::empty());
        while i < self.entries.len()
            invariant
                i <= self.entries@.len(),
                all == self.entries.deep_view(),
                n == total_length(all.take(i as int)),
            decreases self.entries@.len() - i,
        {
            proof {
                assert(all.take(i + 1).drop_last() == all.take(i as int));
                assert(all.take(i + 1).last() == self.entries@[i as int].deep_view());
                total_length_of_prefix(all, i + 1);
            }
            let more: u64 = self.entries[i].terms.len() as u64;
            if more > u64::MAX - n {
                return None;
            }
            n = n + more;
            i = i + 1;
        }
        assert(all.take(all.len() as int) == all);
        Some(n)
    }

    fn frequency(&self, term: &str) -> (r: u64)
        ensures
            r == frequency(self@, term@),
    {
        let ghost all = self@;
        let mut n: u64 = 0;
        let mut i: usize = 0;
        assert(all.take(0) == Seq::<IndexedView>::empty());
        while i < self.entries.len()
            invariant
                i <= self.entries@.len(),
                all == self.entries.deep_view(),
                n == frequency(all.take(i as int), term@),
                n <= i,
            decreases self.entries@.len() - i,
        {
            assert(all.take(i + 1).drop_last() == all.take(i as int));
            assert(all.take(i + 1).last() == self.entries@[i as int].deep_view());
            if count_term(&self.entries[i].terms, term) > 0 {
                n = n + 1;
            }
            i = i + 1;
        }
        assert(all.take(all.len() as int) == all);
        n
    }

    /// What the scores for `query` are made from, one for each entry, in catalog order. A query that
    /// the provider would reject for its length is rejected here too. A query without terms, or an
    /// empty catalog, gives nothing to score.
    pub fn counts(&self, query: &SearchQuery) -> (r: Result<Vec<EntryCounts>, SearchError>)
        ensures
            match r {
                Ok(counts) => {
                    let terms = terms_of(lowered(query.text@));
                    &&& utf8_len(query.text@) <= MAX_QUERY_LEN
                    &&& terms.len() == 0 ==> counts@.len() == 0
                    &&& terms.len() > 0 ==> counts.deep_view() == Seq::new(
                        self@.len(),
                        |i: int| counts_of(self@, self@[i], terms),
                    )
                },
                Err(SearchError::TooLong { kind, max, len }) => utf8_len(query.text@)
                    > MAX_QUERY_LEN && kind@ == "natural-language"@ && max == MAX_QUERY_LEN && len
                    == utf8_len(query.text@),
                Err(_) => false,
            },
    {
        let len: usize = byte_len(query.text.as_str());
        if len > MAX_QUERY_LEN {
            return Err(
                SearchError::TooLong { kind: "natural-language", max: MAX_QUERY_LEN, len },
            );
        }
        let terms = tokenise(lower(query.text.as_str()).as_str());
        let ghost wanted = texts(terms@);
        let mut out: Vec<EntryCounts> = Vec::new();
        if terms.len() == 0 {
            return Ok(out);
        }
        let mut i: usize = 0;
        while i < self.entries.len()
            invariant
                i <= self.entries@.len(),
                self@ == self.entries.deep_view(),
                wanted == texts(terms@),
                out@.len() == i,
                forall|j: int|
                    0 <= j < i ==> (#[trigger] out@[j]).deep_view() == counts_of(
                        self@,
                        self@[j],
                        wanted,
                    ),
            decreases self.entries@.len() - i,
        {
            let mut counted: Vec<TermCount> = Vec::new();
            let mut k: usize = 0;
            let ghost entry = self@[i as int];
            while k < terms.len()
                invariant
                    k <= terms@.len(),
                    i < self.entries@.len(),
                    self@ == self.entries.deep_view(),
                    entry == self@[i as int],
                    wanted == texts(terms@),
                    counted@.len() == k,
                    forall|j: int|
                        0 <= j < k ==> #[trigger] counted@[j] == (TermCount {
                            in_entry: occurrences(entry.terms, wanted[j]) as u64,
                            in_catalog: frequency(self@, wanted[j]) as u64,
                        }),
                decreases terms@.len() - k,
            {
                counted.push(
                    TermCount {
                        in_entry: count_term(&self.entries[i].terms, terms[k].as_str()),
                        in_catalog: self.frequency(terms[k].as_str()),
                    },
                );
                k = k + 1;
            }
            let one = EntryCounts {
                name: self.entries[i].name.clone(),
                length: self.entries[i].terms.len() as u64,
                terms: counted,
            };
            assert(one.deep_view() =~= counts_of(self@, entry, wanted));
            out.push(one);
            i = i + 1;
        }
        assert(out.deep_view() == Seq::new(self@.len(), |i: int| counts_of(self@, self@[i], wanted)));
        Ok(out)
    }

    fn shares(&self, at: usize, wanted: &Vec<String>) -> (r: bool)
        requires
            at < self@.len(),
        ensures
            r == shares_term(self@[at as int], texts(wanted@)),
    {
        let ghost terms = texts(wanted@);
        assert(self@[at as int] == self.entries@[at as int].deep_view());
        let mut k: usize = 0;
        while k < wanted.len()
            invariant
                k <= wanted@.len(),
                terms == texts(wanted@),
                at < self.entries@.len(),
                self@[at as int] == self.entries@[at as int].deep_view(),
                forall|j: int| 0 <= j < k ==> !self@[at as int].terms.contains(#[trigger] terms[j]),
            decreases wanted@.len() - k,
        {
            if holds_text(&self.entries[at].terms, wanted[k].as_str()) {
                assert(self@[at as int].terms.contains(terms[k as int]));
                return true;
            }
            k = k + 1;
        }
        false
    }

    /// Find capabilities matching `query`, given the score of each entry for it, in catalog order.
    /// The query is checked as for the counts that scores are made from, and an entry with none of
    /// its terms is no match, whatever its score.
    pub fn search(&self, query: &SearchQuery, scores: &Vec<u64>) -> (r: Result<
        Vec<Scored>,
        SearchError,
    >)
        requires
            scores@.len() == self@.len(),
        ensures
            match r {
                Ok(best) => {
                    &&& utf8_len(query.text@) <= MAX_QUERY_LEN
                    &&& exists|all: Seq<Scored>| #[trigger]
                        scored_as(all, self@, scores@, terms_of(lowered(query.text@))) && best@
                            == best_of(all, query.limit as nat)
                    &&& forall|k: int|
                        0 <= k < best@.len() ==> wanted_entry(
                            self@,
                            terms_of(lowered(query.text@)),
                            (#[trigger] best@[k]).name@,
                        )
                },
                Err(SearchError::TooLong { kind, max, len }) => utf8_len(query.text@)
                    > MAX_QUERY_LEN && kind@ == "natural-language"@ && max == MAX_QUERY_LEN && len
                    == utf8_len(query.text@),
                Err(_) => false,
            },
    {
        let len: usize = byte_len(query.text.as_str());
        if len > MAX_QUERY_LEN {
            return Err(
                SearchError::TooLong { kind: "natural-language", max: MAX_QUERY_LEN, len },
            );
        }
        let terms = tokenise(lower(query.text.as_str()).as_str());
        let ghost wanted = texts(terms@);
        let mut all: Vec<Scored> = Vec::new();
        let mut i: usize = 0;
        while i < self.entries.len()
            invariant
                i <= self.entries@.len(),
                scores@.len() == self.entries@.len(),
                self@ == self.entries.deep_view(),
                wanted == texts(terms@),
                all@.len() == i,
                forall|j: int|
                    0 <= j < i ==> (#[trigger] all@[j]).name@ == self@[j].name && all@[j].score == (
                    if shares_term(self@[j], wanted) {
                        scores@[j]
                    } else {
                        0
                    }),
            decreases self.entries@.len() - i,
        {
            let score: u64 = if self.shares(i, &terms) {
                scores[i]
            } else {
                0
            };
            all.push(Scored { score, name: self.entries[i].name.clone() });
            i = i + 1;
        }
        assert(scored_as(all@, self@, scores@, wanted));
        proof {
            hits_share_a_term(all@, self@, scores@, wanted, query.limit as nat);
        }
        Ok(rank(all, query.limit))
    }

    /// Which strategy this is.
    #[must_use]
    pub fn kind(&self) -> (r: SearchKind)
        ensures
            r == SearchKind::Bm25,
    {
        SearchKind::Bm25
    }
}

proof fn total_length_of_prefix(entries: Seq<IndexedView>, n: int)
    requires
        0 <= n <= entries.len(),
    ensures
        total_length(entries.take(n)) <= total_length(entries),
    decreases entries.len(),
{
    if n < entries.len() {
        total_length_of_prefix(entries.drop_last(), n);
        assert(entries.drop_last().take(n) == entries.take(n));
    } else {
        assert(entries.take(n) == entries);
    }
}

/// A text is taken apart at every character that is no letter and no digit, and nowhere else.
pub proof fn words_end_at_other_characters(a: Seq<char>, between: char, b: Seq<char>)
    requires
        !alphanumeric(between),
    ensures
        pieces(a + seq![between] + b) == pieces(a) + pieces(b),
        (forall|i: int| 0 <= i < a.len() ==> alphanumeric(#[trigger] a[i])) ==> pieces(a) == seq![a],
        pieces(b).len() > 0,
    decreases a.len() + b.len(),
{
    let whole = a + seq![between] + b;
    if b.len() > 0 {
        let less = b.drop_last();
        words_end_at_other_characters(a, between, less);
        assert(whole.drop_last() == a + seq![between] + less);
        assert(whole.last() == b.last());
        let all = pieces(a) + pieces(less);
        assert(all.last() == pieces(less).last());
        assert(all.drop_last() == pieces(a) + pieces(less).drop_last());
    } else {
        assert(whole.drop_last() == a);
        assert(whole.last() == between);
    }
    if a.len() > 0 && forall|i: int| 0 <= i < a.len() ==> alphanumeric(#[trigger] a[i]) {
        let less = a.drop_last();
        assert forall|i: int| 0 <= i < less.len() implies alphanumeric(#[trigger] less[i]) by {
            assert(less[i] == a[i]);
        }
        words_end_at_other_characters(less, between, Seq::empty());
        assert(alphanumeric(a[a.len() - 1]));
        assert(less.push(a.last()) == a);
        assert(seq![less].drop_last() == Seq::<Seq<char>>::empty());
        assert(seq![less].last() == less);
        assert(pieces(a) == seq![a]);
    } else if a.len() == 0 {
        assert(a == Seq::<char>::empty());
    }
}

/// The terms of a text are its pieces of more than one byte in small letters, in their order.
pub proof fn terms_are_the_longer_pieces(a: Seq<Seq<char>>, b: Seq<Seq<char>>, piece: Seq<char>)
    ensures
        terms_among(a + b) == terms_among(a) + terms_among(b),
        utf8_len(piece) > 1 ==> terms_among(seq![piece]) == seq![lowered(piece)],
        utf8_len(piece) <= 1 ==> terms_among(seq![piece]).len() == 0,
    decreases b.len(),
{
    reveal_with_fuel(terms_among, 2);
    assert(seq![piece].drop_last() == Seq::<Seq<char>>::empty());
    if b.len() == 0 {
        assert(a + b == a);
    } else {
        terms_are_the_longer_pieces(a, b.drop_last(), piece);
        assert((a + b).drop_last() == a + b.drop_last());
        assert((a + b).last() == b.last());
    }
}

/// A tool is found by its name, its description, and the name and description of every parameter,
/// all in small letters.
pub proof fn a_tool_is_found_by_all_it_says(def: ToolDefinitionView, i: int)
    ensures
        indexed(def).name == def.name,
        mentions(indexed(def).haystack, lowered(def.name)),
        mentions(indexed(def).haystack, lowered(def.description)),
        0 <= i < properties(def.input_schema).len() ==> mentions(
            indexed(def).haystack,
            lowered(properties(def.input_schema)[i].0),
        ),
        indexed(def).terms == terms_of(indexed(def).haystack),
{
    broadcast use group_mentions;

    let props = properties(def.input_schema);
    let all = def.name + " "@ + def.description + " "@ + property_text(props);
    lowering_keeps_mentions(all, def.name);
    lowering_keeps_mentions(all, def.description);
    if 0 <= i < props.len() {
        every_parameter_can_be_found(props, i);
        lowering_keeps_mentions(all, props[i].0);
    }
}

proof fn lowering_keeps_mentions(text: Seq<char>, part: Seq<char>)
    requires
        mentions(text, part),
    ensures
        mentions(lowered(text), lowered(part)),
{
    let i = choose|i: int| stands_at(text, part, i);
    let low = lowered(text).subrange(i, i + part.len());
    assert forall|k: int| 0 <= k < part.len() implies low[k] == lowered(part)[k] by {
        assert(text.subrange(i, i + part.len())[k] == text[i + k]);
    }
    assert(low == lowered(part));
    assert(stands_at(lowered(text), lowered(part), i));
}

/// A text without a dot and a star next to each other matches where every character of it stands,
/// and a dot stands for any one.
pub proof fn a_dot_stands_for_any_character(pattern: Seq<char>, h: Seq<char>)
    requires
        pattern.len() > 0,
        !mentions(pattern, seq!['.', '*']),
    ensures
        occurs(pattern, h) <==> exists|at: int|
            0 <= at && at + pattern.len() <= h.len() && #[trigger] agrees_at(h, at, pattern),
{
    a_text_is_found_where_it_first_stands(pattern, star());
    reveal_with_fuel(in_sequence, 2);
    reveal_with_fuel(filled_pieces, 2);
    let chunks = filled_pieces(star_split(pattern));
    assert(seq![pattern].drop_first() == Seq::<Seq<char>>::empty());
    assert(chunks == seq![pattern]);
    assert(chunks.drop_first() == Seq::<Seq<char>>::empty());
    if occurs(pattern, h) {
        let at = choose|at: int| 0 <= at && #[trigger] matches_at(h, at, chunks[0]);
        assert(agrees_at(h, at, pattern));
    }
    if exists|at: int|
        0 <= at && at + pattern.len() <= h.len() && #[trigger] agrees_at(h, at, pattern) {
        let at = choose|at: int|
            0 <= at && at + pattern.len() <= h.len() && #[trigger] agrees_at(h, at, pattern);
        assert(matches_at(h, at, chunks[0]));
    }
}

/// Whether a text agrees with a pattern from a place on, where a dot agrees with any character.
pub open spec fn agrees_at(h: Seq<char>, at: int, pattern: Seq<char>) -> bool {
    forall|i: int| 0 <= i < pattern.len() ==> #[trigger] pattern[i] == '.' || pattern[i] == h[at + i]
}

/// A dot and a star between two patterns: the first matches somewhere, and the second somewhere
/// behind it.
pub proof fn a_star_stands_for_anything_between(first: Seq<char>, second: Seq<char>, h: Seq<char>)
    requires
        first.len() > 0 && second.len() > 0,
        first.last() != '.',
        !mentions(first, seq!['.', '*']) && !mentions(second, seq!['.', '*']),
    ensures
        occurs(first + seq!['.', '*'] + second, h) <==> exists|i: int, j: int|
            0 <= i && i + first.len() <= j && j + second.len() <= h.len() && #[trigger] agrees_at(
                h,
                i,
                first,
            ) && #[trigger] agrees_at(h, j, second),
{
    star_parts(first, second);
    let chunks = seq![first] + seq![second];
    let tail = seq![second];
    assert(chunks.drop_first() == tail);
    assert(chunks[0] == first && tail[0] == second);
    if in_sequence(chunks, h, 0) {
        let i = choose|i: int|
            0 <= i && #[trigger] matches_at(h, i, chunks[0]) && in_sequence(
                chunks.drop_first(),
                h,
                i + chunks[0].len(),
            );
        let j = choose|j: int| i + first.len() <= j && #[trigger] matches_at(h, j, tail[0]);
        assert(agrees_at(h, i, first) && agrees_at(h, j, second));
    }
    if exists|i: int, j: int|
        0 <= i && i + first.len() <= j && j + second.len() <= h.len() && #[trigger] agrees_at(
            h,
            i,
            first,
        ) && #[trigger] agrees_at(h, j, second) {
        let (i, j) = choose|i: int, j: int|
            0 <= i && i + first.len() <= j && j + second.len() <= h.len() && #[trigger] agrees_at(
                h,
                i,
                first,
            ) && #[trigger] agrees_at(h, j, second);
        assert(matches_at(h, j, tail[0]));
        assert(in_sequence(tail.drop_first(), h, j + second.len()));
        assert(in_sequence(tail, h, i + first.len()));
        assert(matches_at(h, i, chunks[0]));
        assert(in_sequence(chunks, h, 0));
    }
}

proof fn star_parts(first: Seq<char>, second: Seq<char>)
    requires
        first.len() > 0 && second.len() > 0,
        first.last() != '.',
        !mentions(first, seq!['.', '*']) && !mentions(second, seq!['.', '*']),
    ensures
        filled_pieces(star_split(first + seq!['.', '*'] + second)) == seq![first] + seq![second],
{
    let pattern = first + seq!['.', '*'] + second;
    let n = first.len() as int;
    a_text_is_found_where_it_first_stands(second, star());
    a_text_is_found_where_it_first_stands(pattern, star());
    assert(pattern.subrange(n, n + 2) == star());
    assert(stands_at(pattern, star(), n));
    let m = text_at(pattern, star())->0 as int;
    assert(m == n) by {
        assert(stands_at(pattern, star(), m));
        if m < n {
            assert(pattern.subrange(m, m + 2)[0] == '.' && pattern.subrange(m, m + 2)[1] == '*');
            assert(pattern[m] == first[m]);
            if m == n - 1 {
                assert(first.last() == '.');
            } else {
                assert(first.subrange(m, m + 2) == star());
                assert(stands_at(first, star(), m));
            }
        }
    }
    assert(pattern.take(n) == first);
    assert(pattern.skip(n + 2) == second);
    assert(star_split(second) == seq![second]);
    let all = seq![first] + seq![second];
    assert(star_split(pattern) == all);
    assert(all.drop_first() == seq![second]);
    assert(seq![second].drop_first() == Seq::<Seq<char>>::empty());
    assert(filled_pieces(seq![second]) == seq![second]) by {
        reveal_with_fuel(filled_pieces, 2);
    }
}

/// A bar between two patterns asks for either of them.
pub proof fn a_bar_asks_for_either(a: Seq<char>, b: Seq<char>, h: Seq<char>)
    ensures
        any_occurs(a + seq!['|'] + b, h) <==> any_occurs(a, h) || any_occurs(b, h),
        !a.contains('|') ==> (any_occurs(a, h) <==> occurs(trimmed(a), h)),
{
    let whole = a + seq!['|'] + b;
    a_text_is_split_at_every_place(a, '|', b);
    let left = split_on(a, '|');
    let right = split_on(b, '|');
    let all = split_on(whole, '|');
    assert(all == left + right);
    if any_occurs(whole, h) {
        let i = choose|i: int| 0 <= i < all.len() && occurs(trimmed(#[trigger] all[i]), h);
        if i < left.len() {
            assert(left[i] == all[i]);
        } else {
            assert(right[i - left.len()] == all[i]);
        }
    }
    if any_occurs(a, h) {
        let i = choose|i: int| 0 <= i < left.len() && occurs(trimmed(#[trigger] left[i]), h);
        assert(all[i] == left[i]);
    }
    if any_occurs(b, h) {
        let i = choose|i: int| 0 <= i < right.len() && occurs(trimmed(#[trigger] right[i]), h);
        assert(all[left.len() + i] == right[i]);
    }
    if !a.contains('|') {
        assert(left == seq![a]);
        assert(left[0] == a);
    }
}

/// Matches are told in the order of the catalog.
pub proof fn matches_keep_the_catalogs_order(
    a: Seq<IndexedView>,
    b: Seq<IndexedView>,
    entry: IndexedView,
    pattern: Seq<char>,
)
    ensures
        matching(a + b, pattern) == matching(a, pattern) + matching(b, pattern),
        any_occurs(pattern, entry.haystack) ==> matching(seq![entry], pattern) == seq![entry.name],
        !any_occurs(pattern, entry.haystack) ==> matching(seq![entry], pattern).len() == 0,
    decreases b.len(),
{
    reveal_with_fuel(matching, 2);
    assert(seq![entry].drop_last() == Seq::<IndexedView>::empty());
    if b.len() == 0 {
        assert(a + b == a);
    } else {
        matches_keep_the_catalogs_order(a, b.drop_last(), entry, pattern);
        assert((a + b).drop_last() == a + b.drop_last());
        assert((a + b).last() == b.last());
    }
}

/// A limit keeps the first names, as many as it allows and no fewer than there are below it.
pub proof fn a_limit_keeps_the_first(names: Seq<Seq<char>>, limit: nat)
    ensures
        at_most(names, limit).is_prefix_of(names),
        at_most(names, limit).len() == limit || at_most(names, limit) == names,
        at_most(names, limit).len() <= limit,
{
}

/// Terms are counted one by one, entries with a term once each, and lengths in terms.
pub proof fn terms_are_counted(
    terms: Seq<Seq<char>>,
    one: Seq<char>,
    entries: Seq<IndexedView>,
    entry: IndexedView,
    term: Seq<char>,
)
    ensures
        occurrences(Seq::empty(), term) == 0,
        occurrences(terms.push(one), term) == occurrences(terms, term) + (if one == term {
            1nat
        } else {
            0
        }),
        occurrences(terms, term) > 0 <==> terms.contains(term),
        frequency(Seq::empty(), term) == 0,
        frequency(entries.push(entry), term) == frequency(entries, term) + (if entry.terms.contains(
            term,
        ) {
            1nat
        } else {
            0
        }),
        total_length(Seq::empty()) == 0,
        total_length(entries.push(entry)) == total_length(entries) + entry.terms.len(),
{
    assert(terms.push(one).drop_last() == terms);
    assert(entries.push(entry).drop_last() == entries);
    a_term_that_occurs_is_there(terms, term);
    a_term_that_occurs_is_there(entry.terms, term);
}

proof fn a_term_that_occurs_is_there(terms: Seq<Seq<char>>, term: Seq<char>)
    ensures
        occurrences(terms, term) > 0 <==> terms.contains(term),
    decreases terms.len(),
{
    if terms.len() > 0 {
        let less = terms.drop_last();
        a_term_that_occurs_is_there(less, term);
        if less.contains(term) {
            let i = choose|i: int| 0 <= i < less.len() && less[i] == term;
            assert(terms[i] == term);
        }
        if terms.contains(term) && terms.last() != term {
            let i = choose|i: int| 0 <= i < terms.len() && terms[i] == term;
            assert(less[i] == term);
        }
        assert(terms[terms.len() - 1] == terms.last());
    }
}

/// Hits come best first: higher scores before lower ones, and equal ones in the order of their
/// names.
pub proof fn the_best_come_first(all: Seq<Scored>, limit: nat, i: int, j: int)
    requires
        0 <= i < j < best_of(all, limit).len(),
    ensures
        best_of(all, limit)[i].score >= best_of(all, limit)[j].score,
        best_of(all, limit)[i].score == best_of(all, limit)[j].score ==> !text_before(
            best_of(all, limit)[j].name@,
            best_of(all, limit)[i].name@,
        ),
{
    ranking_is_stable(all, limit);
    let best = best_of(all, limit);
    assert(!best[j].before(&best[i]));
}

/// Every hit is one of those scored, with a score above zero, and a smaller limit keeps the first of
/// what a larger one keeps.
pub proof fn a_limit_keeps_the_best(all: Seq<Scored>, limit: nat, larger: nat, k: int)
    requires
        limit <= larger,
        0 <= k < best_of(all, limit).len(),
    ensures
        best_of(all, limit).is_prefix_of(best_of(all, larger)),
        best_of(all, limit)[k].score > 0,
        all.contains(best_of(all, limit)[k]),
{
    broadcast use vstd::seq_lib::group_to_multiset_ensures;

    let kept = matched(all);
    let order = sorted(kept);
    let one = best_of(all, limit)[k];
    sorting_orders_and_keeps(kept);
    assert(order[k] == one);
    assert(order.contains(one));
    assert(order.to_multiset().count(one) > 0);
    assert(kept.contains(one));
    what_matched_has_a_score(all, one);
}

} // verus!
