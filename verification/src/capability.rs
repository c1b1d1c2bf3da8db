//! Capabilities: what an agent may do.
//!
//! Everything is denied until it is granted, grants only narrow on the way down the agent tree, and
//! a session may hold at most two of the three powers that together let data be stolen.

use vstd::prelude::*;

use crate::ids::{AgentId, ServerId};
use crate::text::{
    mentions, stands_at,
    ascending, chars_of, copy_texts, holds_text, insert_text, lower, lowered, part_texts, same_text,
    text_of, texts,
};

verus! {

/// A set of filesystem path prefixes, normalised and sorted.
#[derive(Debug, PartialEq, Eq)]
pub struct PathScope {
    prefixes: Vec<String>,
}

impl View for PathScope {
    type V = Seq<Seq<char>>;

    closed spec fn view(&self) -> Seq<Seq<char>> {
        texts(self.prefixes@)
    }
}

impl Clone for PathScope {
    fn clone(&self) -> (r: Self)
        ensures
            r@ == self@,
    {
        PathScope { prefixes: copy_texts(&self.prefixes) }
    }
}

impl Default for PathScope {
    fn default() -> (r: Self)
        ensures
            r@ == Seq::<Seq<char>>::empty(),
    {
        PathScope::empty()
    }
}

/// A path prefix was not usable as a scope.
#[derive(Debug, PartialEq, Eq)]
pub enum ScopeError {
    /// The prefix contained a parent-directory component.
    ParentTraversal(String),
    /// The prefix was empty.
    Empty,
}

impl ScopeError {
    /// The error as one sentence.
    #[must_use]
    pub fn to_string(&self) -> (r: String)
        ensures
            r@ == (match *self {
                ScopeError::ParentTraversal(p) => "path scope `"@ + p@
                    + "` contains a `..` component; a scope that can walk upward is not a scope"@,
                ScopeError::Empty => "path scope prefixes must not be empty"@,
            }),
    {
        match self {
            ScopeError::ParentTraversal(p) => {
                let mut s = "path scope `".to_owned();
                s.push_str(p.as_str());
                s.push_str("` contains a `..` component; a scope that can walk upward is not a scope");
                s
            },
            ScopeError::Empty => "path scope prefixes must not be empty".to_owned(),
        }
    }
}

/// Whether a character separates the components of a path.
pub open spec fn is_separator(c: char) -> bool {
    c == '/' || c == '\\'
}

/// Whether the two characters at `i` are a whole component `..`.
pub open spec fn dots_at(path: Seq<char>, i: int) -> bool {
    &&& 0 <= i && i + 2 <= path.len()
    &&& path[i] == '.' && path[i + 1] == '.'
    &&& i == 0 || is_separator(path[i - 1])
    &&& i + 2 == path.len() || is_separator(path[i + 2])
}

/// Whether one of a path's components is `..`.
pub open spec fn walks_upward(path: Seq<char>) -> bool {
    exists|i: int| dots_at(path, i)
}

/// A path with forward slashes only.
pub open spec fn slashed(path: Seq<char>) -> Seq<char> {
    path.map_values(
        |c: char|
            if c == '\\' {
                '/'
            } else {
                c
            },
    )
}

/// A path without a leading `./`.
pub open spec fn unanchored(path: Seq<char>) -> Seq<char> {
    if path.len() >= 2 && path[0] == '.' && path[1] == '/' {
        path.skip(2)
    } else {
        path
    }
}

/// A path without trailing slashes.
pub open spec fn untrailed(path: Seq<char>) -> Seq<char>
    decreases path.len(),
{
    if path.len() > 0 && path.last() == '/' {
        untrailed(path.drop_last())
    } else {
        path
    }
}

/// A path in the form in which scopes compare paths. What is left of nothing is the root.
pub open spec fn normal(path: Seq<char>) -> Seq<char> {
    let p = untrailed(unanchored(slashed(path)));
    if p.len() == 0 {
        seq!['/']
    } else {
        p
    }
}

/// Whether a path is a prefix itself or lies below it. Whole components count.
pub open spec fn lies_under(prefix: Seq<char>, path: Seq<char>) -> bool {
    ||| prefix == seq!['/']
    ||| prefix == path
    ||| prefix.is_prefix_of(path) && path.len() > prefix.len() && path[prefix.len() as int] == '/'
}

/// Whether a normalised path lies under one of a scope's prefixes.
pub open spec fn scope_covers(scope: Seq<Seq<char>>, path: Seq<char>) -> bool {
    exists|i: int| 0 <= i < scope.len() && lies_under(#[trigger] scope[i], path)
}

/// Whether each prefix of `a` lies under one of `b`.
pub open spec fn scope_within(a: Seq<Seq<char>>, b: Seq<Seq<char>>) -> bool {
    forall|i: int| 0 <= i < a.len() ==> scope_covers(b, #[trigger] a[i])
}

/// Whether a list of prefixes is one that a scope can have: ascending, and none of them empty.
pub open spec fn valid_scope(scope: Seq<Seq<char>>) -> bool {
    ascending(scope) && forall|i: int| 0 <= i < scope.len() ==> (#[trigger] scope[i]).len() > 0
}

/// Whether a prefix cannot be used as a scope.
pub open spec fn unusable_prefix(p: Seq<char>) -> bool {
    p.len() == 0 || walks_upward(p)
}

/// Why the first prefix that cannot be used cannot be used.
pub open spec fn prefix_error(e: ScopeError, p: Seq<char>) -> bool {
    if p.len() == 0 {
        e is Empty
    } else {
        e matches ScopeError::ParentTraversal(q) && q@ == p
    }
}

fn has_parent_component(path: &Vec<char>) -> (r: bool)
    ensures
        r == walks_upward(path@),
{
    let mut i: usize = 0;
    while i < path.len() && path.len() - i >= 2
        invariant
            i <= path@.len(),
            forall|j: int| j < i ==> !dots_at(path@, j),
        decreases path@.len() - i,
    {
        if path[i] == '.' && path[i + 1] == '.' {
            let starts = i == 0 || path[i - 1] == '/' || path[i - 1] == '\\';
            let ends = path.len() - i == 2 || path[i + 2] == '/' || path[i + 2] == '\\';
            if starts && ends {
                assert(dots_at(path@, i as int));
                return true;
            }
        }
        i = i + 1;
    }
    false
}

/// A path in the form in which scopes compare paths.
fn normalise(path: &str) -> (r: String)
    ensures
        r@ == normal(path@),
        r@.len() > 0,
{
    let chars = chars_of(path);
    let mut out: Vec<char> = Vec::new();
    let mut i: usize = 0;
    while i < chars.len()
        invariant
            i <= chars@.len(),
            out@ == slashed(chars@.take(i as int)),
        decreases chars@.len() - i,
    {
        out.push(
            if chars[i] == '\\' {
                '/'
            } else {
                chars[i]
            },
        );
        proof {
            assert(chars@.take(i + 1) == chars@.take(i as int).push(chars@[i as int]));
            assert(out@ == slashed(chars@.take(i + 1)));
        }
        i = i + 1;
    }
    assert(chars@.take(chars@.len() as int) == chars@);
    let from: usize = if out.len() >= 2 && out[0] == '.' && out[1] == '/' {
        2
    } else {
        0
    };
    let ghost whole = unanchored(out@);
    assert(whole == out@.skip(from as int));
    let mut to: usize = out.len();
    assert(out@.subrange(from as int, to as int) == whole);
    while to > from && out[to - 1] == '/'
        invariant
            from <= to <= out@.len(),
            untrailed(out@.subrange(from as int, to as int)) == untrailed(whole),
        decreases to,
    {
        proof {
            let s = out@.subrange(from as int, to as int);
            assert(s.last() == '/');
            assert(s.drop_last() == out@.subrange(from as int, to - 1));
        }
        to = to - 1;
    }
    proof {
        let s = out@.subrange(from as int, to as int);
        if s.len() > 0 {
            assert(s.last() == out@[to - 1]);
        }
        assert(untrailed(s) == s);
    }
    if to == from {
        let mut root = String::new();
        root.push('/');
        assert(root@ == seq!['/']);
        root
    } else {
        text_of(&out, from, to)
    }
}

/// Whether a normalised path is `prefix` or lies below it.
pub fn covers_lexically(prefix: &str, path: &str) -> (r: bool)
    ensures
        r == lies_under(prefix@, path@),
{
    let a = chars_of(prefix);
    let b = chars_of(path);
    if a.len() == 1 && a[0] == '/' {
        assert(prefix@ == seq!['/']);
        return true;
    }
    assert(prefix@ != seq!['/']);
    if a.len() > b.len() {
        return false;
    }
    let mut i: usize = 0;
    while i < a.len()
        invariant
            i <= a@.len() <= b@.len(),
            a@ == prefix@,
            b@ == path@,
            prefix@ != seq!['/'],
            forall|j: int| 0 <= j < i ==> a@[j] == b@[j],
        decreases a@.len() - i,
    {
        if a[i] != b[i] {
            assert(!a@.is_prefix_of(b@)) by {
                if a@.is_prefix_of(b@) {
                    assert(a@[i as int] == b@.subrange(0, a@.len() as int)[i as int]);
                }
            }
            assert(a@ != b@);
            return false;
        }
        i = i + 1;
    }
    assert(a@ == b@.subrange(0, a@.len() as int));
    if a.len() == b.len() {
        assert(a@ == b@);
        true
    } else {
        b[a.len()] == '/'
    }
}

fn any_covers(prefixes: &Vec<String>, path: &str) -> (r: bool)
    ensures
        r == scope_covers(texts(prefixes@), path@),
{
    let mut i: usize = 0;
    while i < prefixes.len()
        invariant
            i <= prefixes@.len(),
            forall|j: int| 0 <= j < i ==> !lies_under(#[trigger] texts(prefixes@)[j], path@),
        decreases prefixes@.len() - i,
    {
        if covers_lexically(prefixes[i].as_str(), path) {
            assert(lies_under(texts(prefixes@)[i as int], path@));
            return true;
        }
        i = i + 1;
    }
    false
}

impl PathScope {
    /// A scope covering the given prefixes. An empty prefix and one with a `..` component are
    /// refused: a scope that can walk upward is not a scope.
    pub fn new(prefixes: &[&str]) -> (r: Result<Self, ScopeError>)
        ensures
            match r {
                Ok(scope) => {
                    &&& forall|i: int| 0 <= i < prefixes@.len() ==> !unusable_prefix(#[trigger] part_texts(prefixes@)[i])
                    &&& valid_scope(scope@)
                    &&& forall|t: Seq<char>| #[trigger] scope@.contains(t) <==> exists|i: int|
                        0 <= i < prefixes@.len() && t == normal(#[trigger] part_texts(prefixes@)[i])
                },
                Err(e) => exists|i: int| {
                    &&& 0 <= i < prefixes@.len()
                    &&& unusable_prefix(#[trigger] part_texts(prefixes@)[i])
                    &&& prefix_error(e, part_texts(prefixes@)[i])
                    &&& forall|j: int| 0 <= j < i ==> !unusable_prefix(#[trigger] part_texts(prefixes@)[j])
                },
            },
    {
        let ghost given = part_texts(prefixes@);
        let mut out: Vec<String> = Vec::new();
        let mut i: usize = 0;
        while i < prefixes.len()
            invariant
                i <= prefixes@.len(),
                given == part_texts(prefixes@),
                forall|j: int| 0 <= j < i ==> !unusable_prefix(#[trigger] given[j]),
                valid_scope(texts(out@)),
                forall|t: Seq<char>| #[trigger] texts(out@).contains(t) <==> exists|j: int|
                    0 <= j < i && t == normal(#[trigger] given[j]),
            decreases prefixes@.len() - i,
        {
            let p = prefixes[i];
            assert(given[i as int] == p@);
            if p.is_empty() {
                assert(unusable_prefix(given[i as int]));
                return Err(ScopeError::Empty);
            }
            if has_parent_component(&chars_of(p)) {
                assert(unusable_prefix(given[i as int]));
                return Err(ScopeError::ParentTraversal(p.to_owned()));
            }
            let ghost before = texts(out@);
            let clean = normalise(p);
            insert_text(&mut out, clean);
            proof {
                let now = texts(out@);
                assert forall|k: int| 0 <= k < now.len() implies (#[trigger] now[k]).len() > 0 by {
                    assert(now.contains(now[k]));
                    if before.contains(now[k]) {
                        let m = choose|m: int| 0 <= m < before.len() && before[m] == now[k];
                        assert(before[m].len() > 0);
                    }
                }
                assert forall|t: Seq<char>| #[trigger] now.contains(t) <==> exists|j: int|
                    0 <= j < i + 1 && t == normal(#[trigger] given[j]) by {
                    if now.contains(t) && !before.contains(t) {
                        assert(t == normal(given[i as int]));
                    }
                    if exists|j: int| 0 <= j < i + 1 && t == normal(#[trigger] given[j]) {
                        let j = choose|j: int| 0 <= j < i + 1 && t == normal(#[trigger] given[j]);
                        if j < i {
                            assert(before.contains(t));
                        }
                    }
                }
            }
            i = i + 1;
        }
        Ok(PathScope { prefixes: out })
    }

    /// A scope covering nothing.
    #[must_use]
    pub fn empty() -> (r: Self)
        ensures
            r@ == Seq::<Seq<char>>::empty(),
            valid_scope(r@),
    {
        let r = PathScope { prefixes: Vec::new() };
        assert(r@ == Seq::<Seq<char>>::empty());
        r
    }

    /// Whether this scope covers nothing.
    #[must_use]
    pub fn is_empty(&self) -> (r: bool)
        ensures
            r == (self@.len() == 0),
    {
        self.prefixes.is_empty()
    }

    /// Whether `path` falls under one of the prefixes. Matching is on whole path components.
    #[must_use]
    pub fn covers(&self, path: &str) -> (r: bool)
        ensures
            r == scope_covers(self@, normal(path@)),
    {
        let p = normalise(path);
        any_covers(&self.prefixes, p.as_str())
    }

    /// Whether every prefix of this scope lies under one of `other`.
    #[must_use]
    pub fn is_subset_of(&self, other: &Self) -> (r: bool)
        ensures
            r == scope_within(self@, other@),
    {
        let mut i: usize = 0;
        while i < self.prefixes.len()
            invariant
                i <= self.prefixes@.len(),
                forall|j: int| 0 <= j < i ==> scope_covers(other@, #[trigger] self@[j]),
            decreases self.prefixes@.len() - i,
        {
            if !any_covers(&other.prefixes, self.prefixes[i].as_str()) {
                assert(!scope_covers(other@, self@[i as int]));
                return false;
            }
            i = i + 1;
        }
        true
    }

    /// The prefixes, normalised and sorted.
    #[must_use]
    pub fn prefixes(&self) -> (r: &[String])
        ensures
            texts(r@) == self@,
    {
        self.prefixes.as_slice()
    }
}

/// What lies under something that lies under a prefix lies under that prefix.
proof fn lying_under_is_transitive(a: Seq<char>, b: Seq<char>, c: Seq<char>)
    requires
        a.len() > 0,
        lies_under(a, b),
        lies_under(b, c),
    ensures
        lies_under(a, c),
{
    if a != seq!['/'] && a != b {
        if b == seq!['/'] {
            assert(a.len() < 1);
        } else if b != c {
            assert(a == c.subrange(0, a.len() as int)) by {
                assert(a == b.subrange(0, a.len() as int));
                assert(b == c.subrange(0, b.len() as int));
            }
            assert(c[a.len() as int] == b[a.len() as int]);
        }
    }
}

/// Being a subset of a path scope is reflexive and transitive, and it means that every path the
/// subset covers is covered by the whole.
pub proof fn path_scopes_are_ordered(a: Seq<Seq<char>>, b: Seq<Seq<char>>, c: Seq<Seq<char>>)
    requires
        valid_scope(a),
        valid_scope(b),
        valid_scope(c),
    ensures
        scope_within(a, a),
        scope_within(a, b) && scope_within(b, c) ==> scope_within(a, c),
        scope_within(a, b) <==> forall|path: Seq<char>|
            scope_covers(a, path) ==> #[trigger] scope_covers(b, path),
{
    assert forall|i: int| 0 <= i < a.len() implies scope_covers(a, #[trigger] a[i]) by {
        assert(lies_under(a[i], a[i]));
    }
    if scope_within(a, b) && scope_within(b, c) {
        assert forall|i: int| 0 <= i < a.len() implies scope_covers(c, #[trigger] a[i]) by {
            assert(scope_covers(b, a[i]));
            covering_is_inherited(b, c, a[i]);
        }
    }
    if scope_within(a, b) {
        assert forall|path: Seq<char>| scope_covers(a, path) implies #[trigger] scope_covers(b, path) by {
            covering_is_inherited(a, b, path);
        }
    }
}

proof fn covering_is_inherited(a: Seq<Seq<char>>, b: Seq<Seq<char>>, path: Seq<char>)
    requires
        valid_scope(b),
        scope_within(a, b),
        scope_covers(a, path),
    ensures
        scope_covers(b, path),
{
    let i = choose|i: int| 0 <= i < a.len() && lies_under(#[trigger] a[i], path);
    assert(scope_covers(b, a[i]));
    let j = choose|j: int| 0 <= j < b.len() && lies_under(#[trigger] b[j], a[i]);
    assert(b[j].len() > 0);
    lying_under_is_transitive(b[j], a[i], path);
}

/// A scope never covers a sibling that merely begins with the same characters.
pub proof fn whole_components_count(prefix: Seq<char>, more: Seq<char>)
    requires
        prefix != seq!['/'],
        more.len() > 0,
        more[0] != '/',
    ensures
        !lies_under(prefix, prefix + more),
{
    assert((prefix + more)[prefix.len() as int] == more[0]);
}

/// A concrete network destination an agent may reach, in lowercase.
#[derive(Debug, PartialEq, Eq, PartialOrd, Ord)]
pub struct HostPattern(String);

impl View for HostPattern {
    type V = Seq<char>;

    closed spec fn view(&self) -> Seq<char> {
        self.0@
    }
}

impl Clone for HostPattern {
    fn clone(&self) -> (r: Self)
        ensures
            r == *self,
    {
        HostPattern(self.0.clone())
    }
}

/// A host was not usable in an egress allowlist.
#[derive(Debug, PartialEq, Eq)]
pub enum HostError {
    /// The host contained a wildcard.
    Wildcard(String),
    /// The host was empty or contained a scheme, port, or path.
    NotBare(String),
}

impl HostError {
    /// The error as one sentence.
    #[must_use]
    pub fn to_string(&self) -> (r: String)
        ensures
            r@ == (match *self {
                HostError::Wildcard(h) => "egress host `"@ + h@
                    + "` contains a wildcard; hosts are resolved once at sandbox start to close DNS rebinding, so they must be concrete"@,
                HostError::NotBare(h) => "egress host `"@ + h@
                    + "` must be a bare hostname, with no scheme, port, or path"@,
            }),
    {
        let mut s = "egress host `".to_owned();
        match self {
            HostError::Wildcard(h) => {
                s.push_str(h.as_str());
                s.push_str(
                    "` contains a wildcard; hosts are resolved once at sandbox start to close DNS rebinding, so they must be concrete",
                );
            },
            HostError::NotBare(h) => {
                s.push_str(h.as_str());
                s.push_str("` must be a bare hostname, with no scheme, port, or path");
            },
        }
        s
    }
}

/// Whether a host has no scheme, port, or path.
pub open spec fn is_bare(host: Seq<char>) -> bool {
    host.len() > 0 && !host.contains('/') && !host.contains(':')
}

fn has_char(s: &Vec<char>, c: char) -> (r: bool)
    ensures
        r == s@.contains(c),
{
    let mut i: usize = 0;
    while i < s.len()
        invariant
            i <= s@.len(),
            forall|j: int| 0 <= j < i ==> s@[j] != c,
        decreases s@.len() - i,
    {
        if s[i] == c {
            assert(s@[i as int] == c);
            return true;
        }
        i = i + 1;
    }
    false
}

impl HostPattern {
    /// A concrete hostname. Wildcards are refused, and so is anything that is not a bare hostname.
    pub fn new(host: &str) -> (r: Result<Self, HostError>)
        ensures
            host@.contains('*') ==> (r matches Err(HostError::Wildcard(h)) && h@ == host@),
            !host@.contains('*') && !is_bare(host@) ==> (r matches Err(HostError::NotBare(h)) && h@ == host@),
            !host@.contains('*') && is_bare(host@) ==> (r matches Ok(h) && h@ == lowered(host@)),
    {
        let chars = chars_of(host);
        if has_char(&chars, '*') {
            return Err(HostError::Wildcard(host.to_owned()));
        }
        if host.is_empty() || has_char(&chars, '/') || has_char(&chars, ':') {
            return Err(HostError::NotBare(host.to_owned()));
        }
        Ok(HostPattern(lower(host)))
    }

    /// The hostname.
    #[must_use]
    pub fn as_str(&self) -> (r: &str)
        ensures
            r@ == self@,
    {
        self.0.as_str()
    }

    /// The hostname as it is shown.
    #[must_use]
    pub fn to_string(&self) -> (r: String)
        ensures
            r@ == self@,
    {
        self.0.clone()
    }
}

/// Programs an agent may execute, sorted.
#[derive(Debug, PartialEq, Eq)]
pub struct ProgramScope {
    programs: Vec<String>,
}

impl View for ProgramScope {
    type V = Seq<Seq<char>>;

    closed spec fn view(&self) -> Seq<Seq<char>> {
        texts(self.programs@)
    }
}

impl Clone for ProgramScope {
    fn clone(&self) -> (r: Self)
        ensures
            r@ == self@,
    {
        ProgramScope { programs: copy_texts(&self.programs) }
    }
}

impl Default for ProgramScope {
    fn default() -> (r: Self)
        ensures
            r@ == Seq::<Seq<char>>::empty(),
    {
        let r = ProgramScope { programs: Vec::new() };
        assert(r@ == Seq::<Seq<char>>::empty());
        r
    }
}

/// Whether every text of `a` is one of `b`.
pub open spec fn all_in(a: Seq<Seq<char>>, b: Seq<Seq<char>>) -> bool {
    forall|i: int| 0 <= i < a.len() ==> b.contains(#[trigger] a[i])
}

fn all_held(a: &Vec<String>, b: &Vec<String>) -> (r: bool)
    ensures
        r == all_in(texts(a@), texts(b@)),
{
    let mut i: usize = 0;
    while i < a.len()
        invariant
            i <= a@.len(),
            forall|j: int| 0 <= j < i ==> texts(b@).contains(#[trigger] texts(a@)[j]),
        decreases a@.len() - i,
    {
        if !holds_text(b, a[i].as_str()) {
            assert(!texts(b@).contains(texts(a@)[i as int]));
            return false;
        }
        i = i + 1;
    }
    true
}

impl ProgramScope {
    /// A scope covering the named programs.
    pub fn new(programs: &[&str]) -> (r: Self)
        ensures
            ascending(r@),
            forall|t: Seq<char>| #[trigger] r@.contains(t) <==> part_texts(programs@).contains(t),
    {
        let ghost given = part_texts(programs@);
        let mut out: Vec<String> = Vec::new();
        let mut i: usize = 0;
        while i < programs.len()
            invariant
                i <= programs@.len(),
                given == part_texts(programs@),
                ascending(texts(out@)),
                forall|t: Seq<char>| #[trigger] texts(out@).contains(t) <==> given.take(i as int).contains(t),
            decreases programs@.len() - i,
        {
            let ghost before = texts(out@);
            insert_text(&mut out, programs[i].to_owned());
            proof {
                let now = given.take(i + 1);
                let was = given.take(i as int);
                assert(now == was.push(given[i as int]));
                assert forall|t: Seq<char>| #[trigger] texts(out@).contains(t) <==> now.contains(t) by {
                    if texts(out@).contains(t) {
                        if before.contains(t) {
                            let k = choose|k: int| 0 <= k < was.len() && was[k] == t;
                            assert(now[k] == t);
                        } else {
                            assert(now[i as int] == t);
                        }
                    }
                    if now.contains(t) {
                        let k = choose|k: int| 0 <= k < now.len() && now[k] == t;
                        if k < i {
                            assert(was[k] == t);
                            assert(before.contains(t));
                        }
                    }
                }
            }
            i = i + 1;
        }
        assert(given.take(given.len() as int) == given);
        ProgramScope { programs: out }
    }

    /// Whether `program` may be executed. Compared as a whole argv element.
    #[must_use]
    pub fn covers(&self, program: &str) -> (r: bool)
        ensures
            r == self@.contains(program@),
    {
        holds_text(&self.programs, program)
    }

    /// Whether every program in this scope is in `other`.
    #[must_use]
    pub fn is_subset_of(&self, other: &Self) -> (r: bool)
        ensures
            r == all_in(self@, other@),
    {
        all_held(&self.programs, &other.programs)
    }

    /// The programs.
    #[must_use]
    pub fn programs(&self) -> (r: &[String])
        ensures
            texts(r@) == self@,
    {
        self.programs.as_slice()
    }
}

/// A spending limit, in millionths of a unit of currency, so budgets compare exactly.
#[derive(Debug, Clone, Copy, PartialEq, Eq, PartialOrd, Ord, Structural)]
pub struct Budget {
    /// Micro-units: 1,000,000 is one unit.
    pub micros: u64,
}

impl Budget {
    /// A budget of `units` whole currency units.
    #[must_use]
    pub fn units(units: u64) -> (r: Self)
        ensures
            r.micros == (if units * 1_000_000 > u64::MAX {
                u64::MAX as int
            } else {
                units * 1_000_000
            }),
    {
        Budget {
            micros: if units > u64::MAX / 1_000_000 {
                u64::MAX
            } else {
                units * 1_000_000
            },
        }
    }
}

/// A name under which a secret is registered. The value never appears in a capability.
#[derive(Debug, PartialEq, Eq, PartialOrd, Ord)]
pub struct SecretName(pub String);

impl Clone for SecretName {
    fn clone(&self) -> (r: Self)
        ensures
            r == *self,
    {
        SecretName(self.0.clone())
    }
}

/// Either every tool on a server, or named ones.
#[derive(Debug, PartialEq, Eq)]
pub enum ToolSelector {
    /// Every tool the server offers.
    All,
    /// Only these.
    Named {
        /// Tool names, as the server spells them.
        names: Vec<String>,
    },
}

/// Which tools of a server are selected.
pub enum SelectorView {
    All,
    Named { names: Seq<Seq<char>> },
}

impl View for ToolSelector {
    type V = SelectorView;

    open spec fn view(&self) -> SelectorView {
        match *self {
            ToolSelector::All => SelectorView::All,
            ToolSelector::Named { names } => SelectorView::Named { names: texts(names@) },
        }
    }
}

impl Clone for ToolSelector {
    fn clone(&self) -> (r: Self)
        ensures
            r@ == self@,
    {
        match self {
            ToolSelector::All => ToolSelector::All,
            ToolSelector::Named { names } => ToolSelector::Named { names: copy_texts(names) },
        }
    }
}

/// Whether a selector takes in a tool.
pub open spec fn selects(s: SelectorView, name: Seq<char>) -> bool {
    match s {
        SelectorView::All => true,
        SelectorView::Named { names } => names.contains(name),
    }
}

/// Whether everything that `a` permits is also permitted by `b`.
pub open spec fn selector_within(a: SelectorView, b: SelectorView) -> bool {
    match (a, b) {
        (_, SelectorView::All) => true,
        (SelectorView::All, SelectorView::Named { .. }) => false,
        (SelectorView::Named { names: x }, SelectorView::Named { names: y }) => all_in(x, y),
    }
}

/// What a narrower selector selects, the wider one selects.
pub proof fn narrower_selectors_select_less(a: SelectorView, b: SelectorView, name: Seq<char>)
    requires
        selector_within(a, b),
        selects(a, name),
    ensures
        selects(b, name),
{
}

impl ToolSelector {
    /// Whether `name` is selected.
    #[must_use]
    pub fn covers(&self, name: &str) -> (r: bool)
        ensures
            r == selects(self@, name@),
    {
        match self {
            ToolSelector::All => true,
            ToolSelector::Named { names } => holds_text(names, name),
        }
    }

    /// Whether everything this selector permits is also permitted by `other`.
    #[must_use]
    pub fn is_subset_of(&self, other: &Self) -> (r: bool)
        ensures
            r == selector_within(self@, other@),
    {
        match (self, other) {
            (_, ToolSelector::All) => true,
            (ToolSelector::All, ToolSelector::Named { .. }) => false,
            (ToolSelector::Named { names: x }, ToolSelector::Named { names: y }) => all_held(x, y),
        }
    }
}

/// One thing an agent is permitted to do.
#[derive(Debug, PartialEq, Eq)]
#[non_exhaustive]
pub enum Capability {
    /// Read files under a scope.
    FsRead(PathScope),
    /// Write files under a scope.
    FsWrite(PathScope),
    /// Make outbound requests to a host.
    NetEgress(HostPattern),
    /// Execute programs.
    Exec(ProgramScope),
    /// Use a secret. The holder never sees the value.
    Secret(SecretName),
    /// Spend money.
    Spend(Budget),
    /// Call tools on an MCP server.
    Mcp {
        /// Which server.
        server: ServerId,
        /// Which of its tools.
        tools: ToolSelector,
    },
    /// Delegate to another agent.
    Delegate(AgentId),
}

/// What a capability permits.
pub enum CapabilityView {
    FsRead(Seq<Seq<char>>),
    FsWrite(Seq<Seq<char>>),
    NetEgress(Seq<char>),
    Exec(Seq<Seq<char>>),
    Secret(Seq<char>),
    Spend(u64),
    Mcp { server: Seq<char>, tools: SelectorView },
    Delegate(Seq<char>),
}

impl View for Capability {
    type V = CapabilityView;

    open spec fn view(&self) -> CapabilityView {
        match *self {
            Capability::FsRead(s) => CapabilityView::FsRead(s@),
            Capability::FsWrite(s) => CapabilityView::FsWrite(s@),
            Capability::NetEgress(h) => CapabilityView::NetEgress(h@),
            Capability::Exec(p) => CapabilityView::Exec(p@),
            Capability::Secret(n) => CapabilityView::Secret(n.0@),
            Capability::Spend(b) => CapabilityView::Spend(b.micros),
            Capability::Mcp { server, tools } => CapabilityView::Mcp { server: server@, tools: tools@ },
            Capability::Delegate(a) => CapabilityView::Delegate(a@),
        }
    }
}

impl DeepView for Capability {
    type V = CapabilityView;

    open spec fn deep_view(&self) -> CapabilityView {
        self@
    }
}

impl Clone for Capability {
    fn clone(&self) -> (r: Self)
        ensures
            r@ == self@,
    {
        match self {
            Capability::FsRead(s) => Capability::FsRead(s.clone()),
            Capability::FsWrite(s) => Capability::FsWrite(s.clone()),
            Capability::NetEgress(h) => Capability::NetEgress(h.clone()),
            Capability::Exec(p) => Capability::Exec(p.clone()),
            Capability::Secret(n) => Capability::Secret(n.clone()),
            Capability::Spend(b) => Capability::Spend(*b),
            Capability::Mcp { server, tools } => Capability::Mcp {
                server: server.clone(),
                tools: tools.clone(),
            },
            Capability::Delegate(a) => Capability::Delegate(a.clone()),
        }
    }
}

/// Whether holding `b` implies holding `a`. Being able to write implies being able to read.
pub open spec fn covered(a: CapabilityView, b: CapabilityView) -> bool {
    match (a, b) {
        (CapabilityView::FsRead(x), CapabilityView::FsRead(y)) => scope_within(x, y),
        (CapabilityView::FsWrite(x), CapabilityView::FsWrite(y)) => scope_within(x, y),
        (CapabilityView::FsRead(x), CapabilityView::FsWrite(y)) => scope_within(x, y),
        (CapabilityView::NetEgress(x), CapabilityView::NetEgress(y)) => x == y,
        (CapabilityView::Exec(x), CapabilityView::Exec(y)) => all_in(x, y),
        (CapabilityView::Secret(x), CapabilityView::Secret(y)) => x == y,
        (CapabilityView::Spend(x), CapabilityView::Spend(y)) => x <= y,
        (
            CapabilityView::Mcp { server: s1, tools: t1 },
            CapabilityView::Mcp { server: s2, tools: t2 },
        ) => s1 == s2 && selector_within(t1, t2),
        (CapabilityView::Delegate(x), CapabilityView::Delegate(y)) => x == y,
        _ => false,
    }
}

/// Whether a capability's path scope, where it has one, is one that can be built.
pub open spec fn valid_capability(c: CapabilityView) -> bool {
    match c {
        CapabilityView::FsRead(s) => valid_scope(s),
        CapabilityView::FsWrite(s) => valid_scope(s),
        _ => true,
    }
}

/// Whether exercising a capability changes state outside the process or sends data out of it.
pub open spec fn mutates_or_sends(c: CapabilityView) -> bool {
    c is FsWrite || c is NetEgress || c is Exec || c is Spend || c is Delegate
}

/// Whether a capability can reach data the operator would consider private.
pub open spec fn reaches_private(c: CapabilityView) -> bool {
    c is FsRead || c is Secret || c is Mcp
}

impl Capability {
    /// Whether holding `other` implies holding `self`.
    #[must_use]
    pub fn is_covered_by(&self, other: &Self) -> (r: bool)
        ensures
            r == covered(self@, other@),
    {
        match (self, other) {
            (Capability::FsRead(a), Capability::FsRead(b)) => a.is_subset_of(b),
            (Capability::FsWrite(a), Capability::FsWrite(b)) => a.is_subset_of(b),
            (Capability::FsRead(a), Capability::FsWrite(b)) => a.is_subset_of(b),
            (Capability::NetEgress(a), Capability::NetEgress(b)) => same_text(a.as_str(), b.as_str()),
            (Capability::Exec(a), Capability::Exec(b)) => a.is_subset_of(b),
            (Capability::Secret(a), Capability::Secret(b)) => same_text(a.0.as_str(), b.0.as_str()),
            (Capability::Spend(a), Capability::Spend(b)) => a.micros <= b.micros,
            (
                Capability::Mcp { server: s1, tools: t1 },
                Capability::Mcp { server: s2, tools: t2 },
            ) => same_text(s1.as_str(), s2.as_str()) && t1.is_subset_of(t2),
            (Capability::Delegate(a), Capability::Delegate(b)) => same_text(a.as_str(), b.as_str()),
            _ => false,
        }
    }

    /// Whether exercising this capability changes state outside the process or sends data out of
    /// it.
    #[must_use]
    pub fn is_mutating_or_egress(&self) -> (r: bool)
        ensures
            r == mutates_or_sends(self@),
    {
        matches!(
            self,
            Capability::FsWrite(_)
                | Capability::NetEgress(_)
                | Capability::Exec(_)
                | Capability::Spend(_)
                | Capability::Delegate(_)
        )
    }

    /// Whether this capability can reach data the operator would consider private.
    #[must_use]
    pub fn is_confidential_access(&self) -> (r: bool)
        ensures
            r == reaches_private(self@),
    {
        matches!(self, Capability::FsRead(_) | Capability::Secret(_) | Capability::Mcp { .. })
    }
}

/// Who authorised a grant.
#[derive(Debug, PartialEq, Eq)]
#[non_exhaustive]
pub enum Authority {
    /// Written in configuration or code by the operator.
    Operator,
    /// A human approved it at runtime.
    HumanApproval {
        /// The approval record's id.
        id: String,
    },
    /// A deterministic policy rule allowed it.
    Policy {
        /// Which rule.
        rule: String,
    },
    /// Inherited from a parent agent. Can only ever narrow.
    Parent {
        /// Which agent.
        agent: AgentId,
    },
}

impl Clone for Authority {
    fn clone(&self) -> (r: Self)
        ensures
            r == *self,
    {
        match self {
            Authority::Operator => Authority::Operator,
            Authority::HumanApproval { id } => Authority::HumanApproval { id: id.clone() },
            Authority::Policy { rule } => Authority::Policy { rule: rule.clone() },
            Authority::Parent { agent } => Authority::Parent { agent: agent.clone() },
        }
    }
}

/// A capability, plus who authorised it.
#[derive(Debug, PartialEq, Eq)]
pub struct Grant {
    /// What is permitted.
    pub capability: Capability,
    /// Who said so.
    pub authority: Authority,
}

impl Clone for Grant {
    fn clone(&self) -> (r: Self)
        ensures
            r.capability@ == self.capability@,
            r.authority == self.authority,
    {
        Grant { capability: self.capability.clone(), authority: self.authority.clone() }
    }
}

impl Grant {
    /// A grant authorised by the operator.
    #[must_use]
    pub fn operator(capability: Capability) -> (r: Self)
        ensures
            r.capability == capability,
            r.authority == Authority::Operator,
    {
        Grant { capability, authority: Authority::Operator }
    }
}

/// Everything an agent is permitted to do.
#[derive(Debug, PartialEq, Eq)]
pub struct GrantSet {
    grants: Vec<Grant>,
}

/// The capabilities of a list of grants.
pub open spec fn capabilities(grants: Seq<Grant>) -> Seq<CapabilityView> {
    Seq::new(grants.len(), |i: int| grants[i].capability@)
}

/// The grants, each as a capability with who authorised it.
pub open spec fn grant_views(grants: Seq<Grant>) -> Seq<(CapabilityView, Authority)> {
    Seq::new(grants.len(), |i: int| (grants[i].capability@, grants[i].authority))
}

impl View for GrantSet {
    type V = Seq<CapabilityView>;

    closed spec fn view(&self) -> Seq<CapabilityView> {
        capabilities(self.grants@)
    }
}

impl GrantSet {
    /// The grants of the set, in order.
    pub closed spec fn list(self) -> Seq<Grant> {
        self.grants@
    }
}

impl Clone for GrantSet {
    fn clone(&self) -> (r: Self)
        ensures
            r@ == self@,
            grant_views(r.list()) == grant_views(self.list()),
    {
        let mut out: Vec<Grant> = Vec::new();
        let mut i: usize = 0;
        while i < self.grants.len()
            invariant
                i <= self.grants@.len(),
                out@.len() == i,
                forall|j: int|
                    0 <= j < i ==> (#[trigger] out@[j]).capability@ == self.grants@[j].capability@
                        && out@[j].authority == self.grants@[j].authority,
            decreases self.grants@.len() - i,
        {
            out.push(self.grants[i].clone());
            i = i + 1;
        }
        let r = GrantSet { grants: out };
        assert(r@ == self@);
        assert(grant_views(r.list()) == grant_views(self.list()));
        r
    }
}

impl Default for GrantSet {
    fn default() -> (r: Self)
        ensures
            r@ == Seq::<CapabilityView>::empty(),
            r.list() == Seq::<Grant>::empty(),
    {
        GrantSet::empty()
    }
}

/// Whether a set of capabilities permits `wanted`.
pub open spec fn permitted(held: Seq<CapabilityView>, wanted: CapabilityView) -> bool {
    exists|i: int| 0 <= i < held.len() && covered(wanted, #[trigger] held[i])
}

/// Whether every capability of `a` is permitted by `b`.
pub open spec fn grants_within(a: Seq<CapabilityView>, b: Seq<CapabilityView>) -> bool {
    forall|i: int| 0 <= i < a.len() ==> permitted(b, #[trigger] a[i])
}

/// Whether a set of capabilities reaches private data.
pub open spec fn confidential(held: Seq<CapabilityView>) -> bool {
    exists|i: int| 0 <= i < held.len() && reaches_private(#[trigger] held[i])
}

/// Whether a set of capabilities changes state or leaves the machine.
pub open spec fn mutating(held: Seq<CapabilityView>) -> bool {
    exists|i: int| 0 <= i < held.len() && mutates_or_sends(#[trigger] held[i])
}

impl GrantSet {
    /// An agent with no permissions at all. The correct default.
    #[must_use]
    pub fn empty() -> (r: Self)
        ensures
            r@ == Seq::<CapabilityView>::empty(),
            r.list() == Seq::<Grant>::empty(),
    {
        let r = GrantSet { grants: Vec::new() };
        assert(r@ == Seq::<CapabilityView>::empty());
        r
    }

    /// A set containing `grants`.
    pub fn new(grants: Vec<Grant>) -> (r: Self)
        ensures
            r.list() == grants@,
            r@ == capabilities(grants@),
    {
        GrantSet { grants }
    }

    /// Add a grant.
    pub fn insert(&mut self, grant: Grant)
        ensures
            final(self).list() == old(self).list().push(grant),
            final(self)@ == old(self)@.push(grant.capability@),
    {
        self.grants.push(grant);
        assert(self@ == old(self)@.push(grant.capability@));
    }

    /// Whether `wanted` is permitted by any grant in this set.
    #[must_use]
    pub fn permits(&self, wanted: &Capability) -> (r: bool)
        ensures
            r == permitted(self@, wanted@),
    {
        let mut i: usize = 0;
        while i < self.grants.len()
            invariant
                i <= self.grants@.len(),
                forall|j: int| 0 <= j < i ==> !covered(wanted@, #[trigger] self@[j]),
            decreases self.grants@.len() - i,
        {
            if wanted.is_covered_by(&self.grants[i].capability) {
                assert(covered(wanted@, self@[i as int]));
                return true;
            }
            i = i + 1;
        }
        false
    }

    /// Whether every capability in this set is permitted by `other`.
    #[must_use]
    pub fn is_subset_of(&self, other: &Self) -> (r: bool)
        ensures
            r == grants_within(self@, other@),
    {
        let mut i: usize = 0;
        while i < self.grants.len()
            invariant
                i <= self.grants@.len(),
                forall|j: int| 0 <= j < i ==> permitted(other@, #[trigger] self@[j]),
            decreases self.grants@.len() - i,
        {
            if !other.permits(&self.grants[i].capability) {
                assert(!permitted(other@, self@[i as int]));
                return false;
            }
            i = i + 1;
        }
        true
    }

    /// The grants.
    #[must_use]
    pub fn grants(&self) -> (r: &[Grant])
        ensures
            r@ == self.list(),
    {
        self.grants.as_slice()
    }

    /// Whether the set is empty.
    #[must_use]
    pub fn is_empty(&self) -> (r: bool)
        ensures
            r == (self@.len() == 0),
    {
        self.grants.is_empty()
    }

    /// Whether any grant reaches private data.
    #[must_use]
    pub fn has_confidential_access(&self) -> (r: bool)
        ensures
            r == confidential(self@),
    {
        let mut i: usize = 0;
        while i < self.grants.len()
            invariant
                i <= self.grants@.len(),
                forall|j: int| 0 <= j < i ==> !reaches_private(#[trigger] self@[j]),
            decreases self.grants@.len() - i,
        {
            if self.grants[i].capability.is_confidential_access() {
                assert(reaches_private(self@[i as int]));
                return true;
            }
            i = i + 1;
        }
        false
    }

    /// Whether any grant changes state or leaves the machine.
    #[must_use]
    pub fn has_mutating_egress(&self) -> (r: bool)
        ensures
            r == mutating(self@),
    {
        let mut i: usize = 0;
        while i < self.grants.len()
            invariant
                i <= self.grants@.len(),
                forall|j: int| 0 <= j < i ==> !mutates_or_sends(#[trigger] self@[j]),
            decreases self.grants@.len() - i,
        {
            if self.grants[i].capability.is_mutating_or_egress() {
                assert(mutates_or_sends(self@[i as int]));
                return true;
            }
            i = i + 1;
        }
        false
    }
}

proof fn all_in_is_transitive(a: Seq<Seq<char>>, b: Seq<Seq<char>>, c: Seq<Seq<char>>)
    requires
        all_in(a, b),
        all_in(b, c),
    ensures
        all_in(a, c),
{
    assert forall|i: int| 0 <= i < a.len() implies c.contains(#[trigger] a[i]) by {
        assert(b.contains(a[i]));
        let j = choose|j: int| 0 <= j < b.len() && b[j] == a[i];
        assert(c.contains(b[j]));
    }
}

/// Implication between capabilities is reflexive and transitive.
pub proof fn capabilities_are_ordered(a: CapabilityView, b: CapabilityView, c: CapabilityView)
    requires
        valid_capability(a),
        valid_capability(b),
        valid_capability(c),
    ensures
        covered(a, a),
        covered(a, b) && covered(b, c) ==> covered(a, c),
{
    match a {
        CapabilityView::FsRead(s) => {
            path_scopes_are_ordered(s, s, s);
        },
        CapabilityView::FsWrite(s) => {
            path_scopes_are_ordered(s, s, s);
        },
        CapabilityView::Exec(p) => {
            assert(all_in(p, p));
        },
        CapabilityView::Mcp { server, tools } => {
            if let SelectorView::Named { names } = tools {
                assert(all_in(names, names));
            }
        },
        _ => {},
    }
    if covered(a, b) && covered(b, c) {
        match (a, b, c) {
            (CapabilityView::FsRead(x), CapabilityView::FsRead(y), CapabilityView::FsRead(z)) => {
                path_scopes_are_ordered(x, y, z);
            },
            (CapabilityView::FsRead(x), CapabilityView::FsRead(y), CapabilityView::FsWrite(z)) => {
                path_scopes_are_ordered(x, y, z);
            },
            (CapabilityView::FsRead(x), CapabilityView::FsWrite(y), CapabilityView::FsWrite(z)) => {
                path_scopes_are_ordered(x, y, z);
            },
            (CapabilityView::FsWrite(x), CapabilityView::FsWrite(y), CapabilityView::FsWrite(z)) => {
                path_scopes_are_ordered(x, y, z);
            },
            (CapabilityView::Exec(x), CapabilityView::Exec(y), CapabilityView::Exec(z)) => {
                all_in_is_transitive(x, y, z);
            },
            (
                CapabilityView::Mcp { server: s1, tools: t1 },
                CapabilityView::Mcp { server: s2, tools: t2 },
                CapabilityView::Mcp { server: s3, tools: t3 },
            ) => {
                match (t1, t2, t3) {
                    (
                        SelectorView::Named { names: x },
                        SelectorView::Named { names: y },
                        SelectorView::Named { names: z },
                    ) => {
                        all_in_is_transitive(x, y, z);
                    },
                    _ => {},
                }
            },
            _ => {},
        }
    }
}

/// Whether every capability of a set can be built.
pub open spec fn valid_grants(held: Seq<CapabilityView>) -> bool {
    forall|i: int| 0 <= i < held.len() ==> valid_capability(#[trigger] held[i])
}

/// What a narrower grant set permits, the wider one permits: capabilities only narrow on the way
/// down.
pub proof fn narrowing_never_widens(
    child: Seq<CapabilityView>,
    parent: Seq<CapabilityView>,
    wanted: CapabilityView,
)
    requires
        valid_grants(child),
        valid_grants(parent),
        valid_capability(wanted),
        grants_within(child, parent),
        permitted(child, wanted),
    ensures
        permitted(parent, wanted),
{
    let i = choose|i: int| 0 <= i < child.len() && covered(wanted, #[trigger] child[i]);
    assert(permitted(parent, child[i]));
    let j = choose|j: int| 0 <= j < parent.len() && covered(child[i], #[trigger] parent[j]);
    capabilities_are_ordered(wanted, child[i], parent[j]);
    assert(covered(wanted, parent[j]));
}

/// Being a narrower grant set is reflexive and transitive, so narrowing holds all the way down a
/// tree of agents. The empty set permits nothing and is narrower than every set.
pub proof fn grant_sets_are_ordered(
    a: Seq<CapabilityView>,
    b: Seq<CapabilityView>,
    c: Seq<CapabilityView>,
)
    requires
        valid_grants(a),
        valid_grants(b),
        valid_grants(c),
    ensures
        grants_within(a, a),
        grants_within(a, b) && grants_within(b, c) ==> grants_within(a, c),
        grants_within(Seq::empty(), a),
        forall|w: CapabilityView| !permitted(Seq::empty(), w),
{
    assert forall|i: int| 0 <= i < a.len() implies permitted(a, #[trigger] a[i]) by {
        capabilities_are_ordered(a[i], a[i], a[i]);
    }
    if grants_within(a, b) && grants_within(b, c) {
        assert forall|i: int| 0 <= i < a.len() implies permitted(c, #[trigger] a[i]) by {
            assert(permitted(b, a[i]));
            narrowing_never_widens(b, c, a[i]);
        }
    }
}

/// The three powers the Rule of Two counts: within a single session an agent holds at most two.
#[derive(Debug, Clone, Copy, PartialEq, Eq, Structural)]
pub struct SessionPowers {
    /// The session has processed content that the operator did not author.
    pub untrusted_input: bool,
    /// The session can reach private data.
    pub confidential_access: bool,
    /// The session can change state or communicate externally.
    pub mutating_egress: bool,
}

impl Default for SessionPowers {
    fn default() -> (r: Self)
        ensures
            !r.untrusted_input && !r.confidential_access && !r.mutating_egress,
    {
        SessionPowers { untrusted_input: false, confidential_access: false, mutating_egress: false }
    }
}

/// The session holds all three powers.
#[derive(Debug, Clone, Copy, PartialEq, Eq, Structural)]
pub struct RuleOfTwoViolation;

impl RuleOfTwoViolation {
    /// The violation as advice.
    #[must_use]
    pub fn to_string(&self) -> (r: String)
        ensures
            r@ == "this session processes untrusted input, reaches private data, and can change state or send data outward. Hold at most two: fork a session that drops one power, or escalate to a human."@,
    {
        "this session processes untrusted input, reaches private data, and can change state or send data outward. Hold at most two: fork a session that drops one power, or escalate to a human.".to_owned()
    }
}

/// The powers that a set of capabilities implies.
pub open spec fn powers_of(held: Seq<CapabilityView>, untrusted: bool) -> SessionPowers {
    SessionPowers {
        untrusted_input: untrusted,
        confidential_access: confidential(held),
        mutating_egress: mutating(held),
    }
}

impl SessionPowers {
    /// Whether all three powers are held.
    pub open spec fn all_three(self) -> bool {
        self.untrusted_input && self.confidential_access && self.mutating_egress
    }

    /// Powers implied by a grant set, before any untrusted input has been seen.
    #[must_use]
    pub fn from_grants(grants: &GrantSet) -> (r: Self)
        ensures
            r == powers_of(grants@, false),
    {
        SessionPowers {
            untrusted_input: false,
            confidential_access: grants.has_confidential_access(),
            mutating_egress: grants.has_mutating_egress(),
        }
    }

    /// Note that the session has now seen content that the operator did not author.
    #[must_use]
    pub fn observed_untrusted_input(self) -> (r: Self)
        ensures
            r == (SessionPowers { untrusted_input: true, ..self }),
    {
        SessionPowers {
            untrusted_input: true,
            confidential_access: self.confidential_access,
            mutating_egress: self.mutating_egress,
        }
    }

    /// How many of the three powers are held.
    #[must_use]
    pub fn count(self) -> (r: u8)
        ensures
            r == (if self.untrusted_input { 1int } else { 0 }) + (if self.confidential_access {
                1int
            } else {
                0
            }) + (if self.mutating_egress { 1int } else { 0 }),
    {
        let a: u8 = if self.untrusted_input { 1 } else { 0 };
        let b: u8 = if self.confidential_access { 1 } else { 0 };
        let c: u8 = if self.mutating_egress { 1 } else { 0 };
        a + b + c
    }

    /// Whether this combination is permitted: all but the one that holds all three powers are.
    pub fn check(self) -> (r: Result<(), RuleOfTwoViolation>)
        ensures
            r is Err <==> self.all_three(),
    {
        if self.count() == 3 {
            Err(RuleOfTwoViolation)
        } else {
            Ok(())
        }
    }
}

/// A path walks upward where two dots stand between separators or ends, and nowhere else: a path
/// without two dots in a row does not.
pub proof fn two_dots_walk_upward(front: Seq<char>, back: Seq<char>)
    ensures
        (front.len() == 0 || front.last() == '/' || front.last() == '\\') && (back.len() == 0
            || back[0] == '/' || back[0] == '\\') ==> walks_upward(front + seq!['.', '.'] + back),
        !mentions(front, seq!['.', '.']) ==> !walks_upward(front),
{
    let path = front + seq!['.', '.'] + back;
    let n = front.len() as int;
    if (front.len() == 0 || front.last() == '/' || front.last() == '\\') && (back.len() == 0
        || back[0] == '/' || back[0] == '\\') {
        assert(dots_at(path, n));
    }
    if walks_upward(front) {
        let i = choose|i: int| dots_at(front, i);
        assert(front.subrange(i, i + 2) == seq!['.', '.']);
        assert(stands_at(front, seq!['.', '.'], i));
    }
}

/// Everything lies under the root. Under any other prefix lie the prefix itself and what is behind a
/// slash after it, and nothing that does not begin with it.
pub proof fn what_lies_under_a_prefix(prefix: Seq<char>, more: Seq<char>, path: Seq<char>)
    ensures
        lies_under(seq!['/'], path),
        lies_under(prefix, prefix),
        lies_under(prefix, prefix + seq!['/'] + more),
        prefix != seq!['/'] && lies_under(prefix, path) && path != prefix ==> exists|rest: Seq<char>|
            path == #[trigger] (prefix + seq!['/'] + rest),
{
    let longer = prefix + seq!['/'] + more;
    assert(prefix.is_prefix_of(longer));
    assert(longer[prefix.len() as int] == '/');
    if prefix != seq!['/'] && lies_under(prefix, path) && path != prefix {
        let rest = path.skip(prefix.len() as int + 1);
        assert(path == prefix + seq!['/'] + rest);
    }
}

/// A normal path has no backslash, and no slash at its end unless it is the root. It is never
/// empty, and a path that is normal already stays as it is.
pub proof fn normal_paths_are_plain(path: Seq<char>)
    ensures
        normal(path).len() > 0,
        !normal(path).contains('\\'),
        normal(path).last() == '/' ==> normal(path) == seq!['/'],
        path.len() > 0 && !path.contains('\\') && path.last() != '/' && !(path.len() >= 2 && path[0]
            == '.' && path[1] == '/') ==> normal(path) == path,
{
    let p = slashed(path);
    let q = unanchored(p);
    untrailed_is(q);
    let r = untrailed(q);
    assert forall|i: int| 0 <= i < q.len() implies q[i] != '\\' by {
        if q.len() < p.len() {
            assert(q[i] == p[i + 2]);
        }
    }
    if path.len() > 0 && !path.contains('\\') && path.last() != '/' && !(path.len() >= 2 && path[0]
        == '.' && path[1] == '/') {
        assert forall|i: int| 0 <= i < path.len() implies p[i] == path[i] by {
            assert(path.contains(path[i]));
        }
        assert(p == path);
    }
}

proof fn untrailed_is(path: Seq<char>)
    ensures
        untrailed(path).is_prefix_of(path),
        untrailed(path).len() > 0 ==> untrailed(path).last() != '/',
        forall|i: int| untrailed(path).len() <= i < path.len() ==> path[i] == '/',
    decreases path.len(),
{
    if path.len() > 0 && path.last() == '/' {
        untrailed_is(path.drop_last());
        assert forall|i: int| untrailed(path).len() <= i < path.len() implies path[i] == '/' by {
            if i < path.len() - 1 {
                assert(path.drop_last()[i] == path[i]);
            }
        }
    }
}

/// Slashes at the end of a path, and one dot and a slash in front of it, make no difference.
pub proof fn anchors_and_trailing_slashes_do_not_count(path: Seq<char>)
    requires
        path.len() > 0,
        path[0] != '.',
    ensures
        normal(path.push('/')) == normal(path),
        normal(seq!['.', '/'] + path) == normal(path),
{
    let p = slashed(path);
    assert(slashed(path.push('/')) == p.push('/'));
    assert(p.push('/').drop_last() == p);
    assert(slashed(seq!['.', '/'] + path) == seq!['.', '/'] + p);
    assert((seq!['.', '/'] + p).skip(2) == p);
}

/// A grant covers what is of its own kind and asks for no more, and a grant to write covers reading
/// the same places. No other grant covers anything of another kind.
pub proof fn a_grant_covers_its_own_kind(a: CapabilityView, b: CapabilityView)
    ensures
        covered(a, b) <==> match (a, b) {
            (CapabilityView::FsRead(x), CapabilityView::FsRead(y)) => all_places(x, y),
            (CapabilityView::FsWrite(x), CapabilityView::FsWrite(y)) => all_places(x, y),
            (CapabilityView::FsRead(x), CapabilityView::FsWrite(y)) => all_places(x, y),
            (CapabilityView::NetEgress(x), CapabilityView::NetEgress(y)) => x == y,
            (CapabilityView::Exec(x), CapabilityView::Exec(y)) => forall|program: Seq<char>|
                x.contains(program) ==> #[trigger] y.contains(program),
            (CapabilityView::Secret(x), CapabilityView::Secret(y)) => x == y,
            (CapabilityView::Spend(x), CapabilityView::Spend(y)) => x <= y,
            (
                CapabilityView::Mcp { server: s1, tools: t1 },
                CapabilityView::Mcp { server: s2, tools: t2 },
            ) => s1 == s2 && match (t1, t2) {
                (_, SelectorView::All) => true,
                (SelectorView::All, SelectorView::Named { .. }) => false,
                (SelectorView::Named { names: x }, SelectorView::Named { names: y }) => {
                    forall|name: Seq<char>| x.contains(name) ==> #[trigger] y.contains(name)
                },
            },
            (CapabilityView::Delegate(x), CapabilityView::Delegate(y)) => x == y,
            _ => false,
        },
{
    match (a, b) {
        (CapabilityView::FsRead(x), CapabilityView::FsRead(y)) => {
            places_are_covered(x, y);
        },
        (CapabilityView::FsWrite(x), CapabilityView::FsWrite(y)) => {
            places_are_covered(x, y);
        },
        (CapabilityView::FsRead(x), CapabilityView::FsWrite(y)) => {
            places_are_covered(x, y);
        },
        (CapabilityView::Exec(x), CapabilityView::Exec(y)) => {
            members_are_contained(x, y);
        },
        (CapabilityView::Mcp { tools: t1, .. }, CapabilityView::Mcp { tools: t2, .. }) => {
            if let (SelectorView::Named { names: x }, SelectorView::Named { names: y }) = (t1, t2) {
                members_are_contained(x, y);
            }
        },
        _ => {},
    }
}

/// Whether every place of a scope is, or lies behind a slash after, a place of another, or the other
/// holds the root.
pub open spec fn all_places(a: Seq<Seq<char>>, b: Seq<Seq<char>>) -> bool {
    forall|i: int| 0 <= i < a.len() ==> has_place(b, #[trigger] a[i])
}

/// Whether a scope holds a place, something it lies under, or the root.
pub open spec fn has_place(scope: Seq<Seq<char>>, path: Seq<char>) -> bool {
    exists|k: int|
        0 <= k < scope.len() && (#[trigger] scope[k] == seq!['/'] || scope[k] == path || (
        scope[k].push('/')).is_prefix_of(path))
}

proof fn places_are_covered(a: Seq<Seq<char>>, b: Seq<Seq<char>>)
    ensures
        scope_within(a, b) <==> all_places(a, b),
{
    assert forall|i: int| 0 <= i < a.len() implies (scope_covers(b, #[trigger] a[i]) <==> has_place(
        b,
        a[i],
    )) by {
        let path = a[i];
        assert forall|k: int| 0 <= k < b.len() implies (lies_under(#[trigger] b[k], path) <==> b[k]
            == seq!['/'] || b[k] == path || b[k].push('/').is_prefix_of(path)) by {
            let prefix = b[k];
            let longer = prefix.push('/');
            if longer.is_prefix_of(path) {
                assert(longer[prefix.len() as int] == '/');
                assert(path[prefix.len() as int] == '/');
                assert(prefix.is_prefix_of(path));
            }
            if prefix.is_prefix_of(path) && path.len() > prefix.len() && path[prefix.len() as int]
                == '/' {
                assert(longer.is_prefix_of(path));
            }
        }
        if scope_covers(b, path) {
            let k = choose|k: int| 0 <= k < b.len() && lies_under(#[trigger] b[k], path);
            assert(has_place(b, path));
        }
        if has_place(b, path) {
            let k = choose|k: int|
                0 <= k < b.len() && (#[trigger] b[k] == seq!['/'] || b[k] == path || (b[k].push(
                    '/',
                )).is_prefix_of(path));
            assert(lies_under(b[k], path));
        }
    }
}

proof fn members_are_contained(a: Seq<Seq<char>>, b: Seq<Seq<char>>)
    ensures
        all_in(a, b) <==> forall|x: Seq<char>| a.contains(x) ==> #[trigger] b.contains(x),
{
    if forall|x: Seq<char>| a.contains(x) ==> #[trigger] b.contains(x) {
        assert forall|i: int| 0 <= i < a.len() implies b.contains(#[trigger] a[i]) by {
            assert(a.contains(a[i]));
        }
    }
}

/// A session can reach what is private where it may read files, use a secret or call a server's
/// tools, and can act on the world where it may write, send, run, spend or delegate.
pub proof fn powers_follow_from_grants(held: Seq<CapabilityView>, untrusted: bool)
    ensures
        powers_of(held, untrusted).untrusted_input == untrusted,
        powers_of(held, untrusted).confidential_access <==> exists|i: int|
            0 <= i < held.len() && match #[trigger] held[i] {
                CapabilityView::FsRead(_)
                | CapabilityView::Secret(_)
                | CapabilityView::Mcp { .. } => true,
                _ => false,
            },
        powers_of(held, untrusted).mutating_egress <==> exists|i: int|
            0 <= i < held.len() && match #[trigger] held[i] {
                CapabilityView::FsWrite(_)
                | CapabilityView::NetEgress(_)
                | CapabilityView::Exec(_)
                | CapabilityView::Spend(_)
                | CapabilityView::Delegate(_) => true,
                _ => false,
            },
        powers_of(held, untrusted).all_three() <==> untrusted && powers_of(
            held,
            untrusted,
        ).confidential_access && powers_of(held, untrusted).mutating_egress,
{
}

/// A host is a name alone: one with a path, a port or a scheme is none, and neither is nothing.
pub proof fn a_host_is_a_name_alone(host: Seq<char>)
    ensures
        is_bare(host) <==> host.len() > 0 && forall|i: int|
            0 <= i < host.len() ==> (#[trigger] host[i]) != '/' && host[i] != ':',
{
    if is_bare(host) {
        assert forall|i: int| 0 <= i < host.len() implies (#[trigger] host[i]) != '/' && host[i]
            != ':' by {
            assert(host.contains(host[i]));
        }
    }
}

/// A prefix cannot be used where it is empty or walks upward, and the error says which, with the
/// prefix that walks.
pub proof fn unusable_prefixes_are_told(p: Seq<char>, e: ScopeError)
    ensures
        unusable_prefix(p) <==> p.len() == 0 || exists|i: int| dots_at(p, i),
        unusable_prefix(p) && prefix_error(e, p) ==> (e is Empty <==> p.len() == 0) && (
        e matches ScopeError::ParentTraversal(q) ==> q@ == p),
        prefix_error(e, p) && p.len() > 0 ==> e is ParentTraversal,
{
}

} // verus!
