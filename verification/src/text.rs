//! Text as sequences of characters: lengths, numbers in decimal and hexadecimal, joining, trimming and words.

use vstd::prelude::*;
use vstd::utf8::encode_utf8;

verus! {

/// `String::push` appends one character to the end of the string.
pub assume_specification[ String::push ](s: &mut String, c: char)
    ensures
        final(s)@ == old(s)@.push(c),
;

/// `String::push_str` appends a string slice to the end of the string.
pub assume_specification[ String::push_str ](s: &mut String, t: &str)
    ensures
        final(s)@ == old(s)@ + t@,
;

/// How many bytes a text takes in UTF-8.
pub open spec fn utf8_len(s: Seq<char>) -> nat {
    encode_utf8(s).len()
}

/// How many bytes a text takes in UTF-8.
pub fn byte_len(s: &str) -> (n: usize)
    ensures
        n == utf8_len(s@),
{
    s.as_bytes().len()
}

/// A text takes no bytes exactly when it has no characters.
proof fn only_nothing_takes_no_bytes(s: Seq<char>)
    ensures
        utf8_len(s) == 0 <==> s.len() == 0,
{
    if s.len() > 0 {
        vstd::utf8::encode_utf8_first_scalar(s);
    }
}

/// Whether a text has no characters.
pub fn no_text(s: &str) -> (r: bool)
    ensures
        r == (s@.len() == 0),
{
    proof {
        only_nothing_takes_no_bytes(s@);
    }
    s.as_bytes().len() == 0
}

/// Whether two texts hold the same characters.
pub fn same_text(a: &str, b: &str) -> (r: bool)
    ensures
        r == (a@ == b@),
{
    a.to_owned() == b.to_owned()
}

/// The characters of a text.
pub fn chars_of(s: &str) -> (v: Vec<char>)
    ensures
        v@ == s@,
{
    let mut v: Vec<char> = Vec::new();
    for c in it: s.chars()
        invariant
            v@ == it.seq().take(it.index() as int),
            it.seq() == s@,
    {
        v.push(c);
    }
    v
}

/// The text made of the characters at `from..to`.
pub fn text_of(chars: &Vec<char>, from: usize, to: usize) -> (s: String)
    requires
        from <= to <= chars@.len(),
    ensures
        s@ == chars@.subrange(from as int, to as int),
{
    let mut s = String::new();
    let mut i: usize = from;
    while i < to
        invariant
            from <= i <= to <= chars@.len(),
            s@ == chars@.subrange(from as int, i as int),
        decreases to - i,
    {
        s.push(chars[i]);
        i = i + 1;
    }
    s
}

/// Texts one after the other, with `sep` between neighbours.
pub open spec fn joined(parts: Seq<Seq<char>>, sep: Seq<char>) -> Seq<char>
    decreases parts.len(),
{
    if parts.len() == 0 {
        Seq::empty()
    } else if parts.len() == 1 {
        parts[0]
    } else {
        joined(parts.drop_last(), sep) + sep + parts.last()
    }
}

/// The texts of a list of strings.
pub open spec fn texts(v: Seq<String>) -> Seq<Seq<char>> {
    Seq::new(v.len(), |i: int| v[i]@)
}

/// Join strings with a separator.
pub fn join(parts: &Vec<String>, sep: &str) -> (s: String)
    ensures
        s@ == joined(texts(parts@), sep@),
{
    let mut s = String::new();
    let mut i: usize = 0;
    while i < parts.len()
        invariant
            i <= parts@.len(),
            s@ == joined(texts(parts@).take(i as int), sep@),
        decreases parts@.len() - i,
    {
        if i > 0 {
            s.push_str(sep);
        }
        s.push_str(parts[i].as_str());
        proof {
            let next = texts(parts@).take(i + 1);
            assert(next.drop_last() == texts(parts@).take(i as int));
            assert(next.last() == parts@[i as int]@);
        }
        i = i + 1;
    }
    assert(texts(parts@).take(parts@.len() as int) == texts(parts@));
    s
}

/// The decimal digit for `d`, which is below ten.
pub open spec fn digit(d: nat) -> char {
    ('0' as u32 + d) as char
}

/// A natural number in decimal, without leading zeros.
pub open spec fn dec(n: nat) -> Seq<char>
    decreases n,
{
    if n < 10 {
        seq![digit(n)]
    } else {
        dec(n / 10).push(digit(n % 10))
    }
}

fn digit_char(d: u8) -> (c: char)
    requires
        d < 10,
    ensures
        c == digit(d as nat),
{
    (48u8 + d) as char
}

/// Append a number in decimal.
pub fn push_decimal(s: &mut String, n: u64)
    ensures
        final(s)@ == old(s)@ + dec(n as nat),
    decreases n,
{
    if n >= 10 {
        push_decimal(s, n / 10);
    }
    s.push(digit_char((n % 10) as u8));
}

/// A number in decimal.
pub fn decimal(n: u64) -> (s: String)
    ensures
        s@ == dec(n as nat),
{
    let mut s = String::new();
    push_decimal(&mut s, n);
    s
}

/// A count in decimal.
pub fn decimal_usize(n: usize) -> (s: String)
    ensures
        s@ == dec(n as nat),
{
    decimal(n as u64)
}

/// An integer in decimal, with a minus sign when it is negative.
pub open spec fn signed_dec(n: int) -> Seq<char> {
    if n < 0 {
        seq!['-'] + dec((-n) as nat)
    } else {
        dec(n as nat)
    }
}

/// A signed number in decimal.
pub fn signed_decimal(n: i64) -> (s: String)
    ensures
        s@ == signed_dec(n as int),
{
    let mut s = String::new();
    if n < 0 {
        s.push('-');
        let magnitude: u64 = if n == i64::MIN { 9223372036854775808 } else { (-n) as u64 };
        push_decimal(&mut s, magnitude);
        assert(s@ == seq!['-'] + dec(magnitude as nat));
    } else {
        push_decimal(&mut s, n as u64);
    }
    s
}

/// The lowercase hexadecimal digit for `d`, which is below sixteen.
pub open spec fn hex_digit(d: nat) -> char {
    if d < 10 {
        digit(d)
    } else {
        ('a' as u32 + (d - 10)) as char
    }
}

/// One byte as two lowercase hexadecimal digits.
pub open spec fn hex_byte(b: u8) -> Seq<char> {
    seq![hex_digit((b / 16) as nat), hex_digit((b % 16) as nat)]
}

/// Bytes in lowercase hexadecimal.
pub open spec fn hex(bytes: Seq<u8>) -> Seq<char>
    decreases bytes.len(),
{
    if bytes.len() == 0 {
        Seq::empty()
    } else {
        hex(bytes.drop_last()) + hex_byte(bytes.last())
    }
}

fn hex_char(d: u8) -> (c: char)
    requires
        d < 16,
    ensures
        c == hex_digit(d as nat),
{
    if d < 10 {
        digit_char(d)
    } else {
        (97u8 + (d - 10)) as char
    }
}

/// Append one byte in hexadecimal.
pub fn push_hex(s: &mut String, b: u8)
    ensures
        final(s)@ == old(s)@ + hex_byte(b),
{
    s.push(hex_char(b / 16));
    s.push(hex_char(b % 16));
}

/// A character with `A` to `Z` made lowercase and every other one kept.
pub open spec fn ascii_lower(c: char) -> char {
    if 'A' <= c && c <= 'Z' {
        (c as u32 + 32) as char
    } else {
        c
    }
}

/// A text with `A` to `Z` made lowercase.
pub open spec fn lowered(s: Seq<char>) -> Seq<char> {
    s.map_values(|c: char| ascii_lower(c))
}

fn ascii_lower_char(c: char) -> (r: char)
    ensures
        r == ascii_lower(c),
{
    if 'A' <= c && c <= 'Z' {
        (c as u8 + 32) as char
    } else {
        c
    }
}

/// A copy of a text with `A` to `Z` made lowercase.
pub fn lower(s: &str) -> (r: String)
    ensures
        r@ == lowered(s@),
{
    let chars = chars_of(s);
    let mut r = String::new();
    let mut i: usize = 0;
    while i < chars.len()
        invariant
            i <= chars@.len(),
            r@ == lowered(chars@.take(i as int)),
        decreases chars@.len() - i,
    {
        r.push(ascii_lower_char(chars[i]));
        proof {
            assert(chars@.take(i + 1) == chars@.take(i as int).push(chars@[i as int]));
        }
        i = i + 1;
    }
    assert(chars@.take(chars@.len() as int) == chars@);
    r
}

/// The dictionary order on texts, by the code points of their characters.
pub open spec fn text_before(a: Seq<char>, b: Seq<char>) -> bool
    decreases a.len(),
{
    if b.len() == 0 {
        false
    } else if a.len() == 0 {
        true
    } else if a[0] != b[0] {
        a[0] < b[0]
    } else {
        text_before(a.drop_first(), b.drop_first())
    }
}

/// Whether `a` comes strictly before `b` in dictionary order.
pub fn comes_before(a: &str, b: &str) -> (r: bool)
    ensures
        r == text_before(a@, b@),
{
    let x = chars_of(a);
    let y = chars_of(b);
    let mut i: usize = 0;
    assert(x@.skip(0) == x@ && y@.skip(0) == y@);
    while i < x.len() && i < y.len() && x[i] == y[i]
        invariant
            i <= x@.len(),
            i <= y@.len(),
            text_before(x@, y@) == text_before(x@.skip(i as int), y@.skip(i as int)),
        decreases x@.len() - i,
    {
        proof {
            assert(x@.skip(i as int).drop_first() == x@.skip(i + 1));
            assert(y@.skip(i as int).drop_first() == y@.skip(i + 1));
        }
        i = i + 1;
    }
    if i >= y.len() {
        false
    } else if i >= x.len() {
        true
    } else {
        x[i] < y[i]
    }
}

/// Dictionary order is total: of two different texts one comes first.
pub proof fn text_order_is_total(a: Seq<char>, b: Seq<char>)
    ensures
        text_before(a, b) || text_before(b, a) || a == b,
        !(text_before(a, b) && text_before(b, a)),
        !text_before(a, a),
    decreases a.len(),
{
    if a.len() > 0 {
        text_order_is_total(a.drop_first(), a.drop_first());
        if b.len() > 0 {
            text_order_is_total(a.drop_first(), b.drop_first());
            if a[0] == b[0] && a.drop_first() == b.drop_first() {
                assert(a == seq![a[0]] + a.drop_first());
                assert(b == seq![b[0]] + b.drop_first());
            }
        }
    } else if b.len() == 0 {
        assert(a == b);
    }
}

/// Dictionary order is transitive.
pub proof fn text_order_is_transitive(a: Seq<char>, b: Seq<char>, c: Seq<char>)
    requires
        text_before(a, b),
        text_before(b, c),
    ensures
        text_before(a, c),
    decreases a.len(),
{
    if a.len() > 0 && b.len() > 0 && c.len() > 0 && a[0] == b[0] && b[0] == c[0] {
        text_order_is_transitive(a.drop_first(), b.drop_first(), c.drop_first());
    }
}

/// Whether texts ascend in dictionary order, each once.
pub open spec fn ascending(s: Seq<Seq<char>>) -> bool {
    forall|i: int, j: int| 0 <= i < j < s.len() ==> text_before(#[trigger] s[i], #[trigger] s[j])
}

/// Two ascending lists with the same members are the same list.
pub proof fn ascending_lists_are_unique(a: Seq<Seq<char>>, b: Seq<Seq<char>>)
    requires
        ascending(a),
        ascending(b),
        forall|t: Seq<char>| #[trigger] a.contains(t) <==> b.contains(t),
    ensures
        a == b,
    decreases a.len(),
{
    if a.len() == 0 {
        if b.len() > 0 {
            assert(b.contains(b[0]));
            assert(a.contains(b[0]));
        }
        assert(a =~= b);
    } else if b.len() == 0 {
        assert(a.contains(a[0]));
    } else {
        let x = a.last();
        let y = b.last();
        assert(a.contains(a[a.len() - 1]));
        assert(b.contains(x));
        let k = choose|k: int| 0 <= k < b.len() && b[k] == x;
        assert(b.contains(b[b.len() - 1]));
        assert(a.contains(y));
        let m = choose|m: int| 0 <= m < a.len() && a[m] == y;
        if x != y {
            assert(text_before(b[k], b[b.len() - 1]));
            assert(text_before(a[m], a[a.len() - 1]));
            text_order_is_total(x, y);
        }
        let da = a.drop_last();
        let db = b.drop_last();
        assert(ascending(da));
        assert(ascending(db));
        assert forall|t: Seq<char>| #[trigger] da.contains(t) <==> db.contains(t) by {
            if da.contains(t) {
                let p = choose|p: int| 0 <= p < da.len() && da[p] == t;
                assert(a[p] == t);
                assert(a.contains(t));
                let q = choose|q: int| 0 <= q < b.len() && b[q] == t;
                assert(text_before(a[p], a[a.len() - 1]));
                text_order_is_total(t, x);
                assert(db[q] == t);
            }
            if db.contains(t) {
                let p = choose|p: int| 0 <= p < db.len() && db[p] == t;
                assert(b[p] == t);
                assert(b.contains(t));
                assert(a.contains(t));
                let q = choose|q: int| 0 <= q < a.len() && a[q] == t;
                assert(text_before(b[p], b[b.len() - 1]));
                text_order_is_total(t, y);
                assert(da[q] == t);
            }
        }
        ascending_lists_are_unique(da, db);
        assert(a == da.push(x));
        assert(b == db.push(y));
    }
}

/// Put a text into its place in an ascending list, unless it is there already.
pub fn insert_text(list: &mut Vec<String>, s: String)
    requires
        ascending(texts(old(list)@)),
    ensures
        ascending(texts(final(list)@)),
        forall|t: Seq<char>| #[trigger]
            texts(final(list)@).contains(t) <==> texts(old(list)@).contains(t) || t == s@,
{
    let ghost all = texts(list@);
    let mut i: usize = 0;
    while i < list.len() && comes_before(list[i].as_str(), s.as_str())
        invariant
            i <= list@.len(),
            all == texts(list@),
            forall|j: int| 0 <= j < i ==> text_before(#[trigger] all[j], s@),
        decreases list@.len() - i,
    {
        assert(all[i as int] == list@[i as int]@);
        i = i + 1;
    }
    if i < list.len() && same_text(list[i].as_str(), s.as_str()) {
        assert(all[i as int] == s@);
        return;
    }
    proof {
        if i < all.len() {
            assert(all[i as int] == list@[i as int]@);
            text_order_is_total(all[i as int], s@);
        }
        assert forall|j: int| i <= j < all.len() implies text_before(s@, #[trigger] all[j]) by {
            if j > i {
                assert(text_before(all[i as int], all[j]));
                text_order_is_transitive(s@, all[i as int], all[j]);
            }
        }
    }
    let ghost x = s@;
    list.insert(i, s);
    proof {
        let now = texts(list@);
        assert(now == all.insert(i as int, x));
        assert forall|a: int, b: int| 0 <= a < b < now.len() implies text_before(
            #[trigger] now[a],
            #[trigger] now[b],
        ) by {
            let pa = if a < i { a } else { a - 1 };
            let pb = if b < i { b } else { b - 1 };
            if a != i && b != i {
                assert(now[a] == all[pa] && now[b] == all[pb]);
                assert(text_before(all[pa], all[pb]));
            } else if a == i {
                assert(now[b] == all[b - 1]);
            } else {
                assert(now[a] == all[a]);
            }
        }
        assert forall|t: Seq<char>| #[trigger] now.contains(t) <==> all.contains(t) || t == x by {
            if now.contains(t) {
                let k = choose|k: int| 0 <= k < now.len() && now[k] == t;
                if k < i {
                    assert(all[k] == t);
                } else if k > i {
                    assert(all[k - 1] == t);
                }
            }
            if all.contains(t) {
                let k = choose|k: int| 0 <= k < all.len() && all[k] == t;
                if k < i {
                    assert(now[k] == t);
                } else {
                    assert(now[k + 1] == t);
                }
            }
            if t == x {
                assert(now[i as int] == t);
            }
        }
    }
}

/// Whether a list of strings holds a text.
pub fn holds_text(list: &Vec<String>, s: &str) -> (r: bool)
    ensures
        r == texts(list@).contains(s@),
{
    let mut i: usize = 0;
    while i < list.len()
        invariant
            i <= list@.len(),
            forall|j: int| 0 <= j < i ==> (#[trigger] texts(list@)[j]) != s@,
        decreases list@.len() - i,
    {
        if same_text(list[i].as_str(), s) {
            assert(texts(list@)[i as int] == s@);
            return true;
        }
        i = i + 1;
    }
    false
}

/// A copy of a list of strings.
pub fn copy_texts(list: &Vec<String>) -> (r: Vec<String>)
    ensures
        r@ == list@,
{
    let mut out: Vec<String> = Vec::new();
    let mut i: usize = 0;
    while i < list.len()
        invariant
            i <= list@.len(),
            out@ == list@.take(i as int),
        decreases list@.len() - i,
    {
        out.push(list[i].clone());
        i = i + 1;
    }
    out
}

/// The texts of a list of string slices.
pub open spec fn part_texts(parts: Seq<&str>) -> Seq<Seq<char>> {
    Seq::new(parts.len(), |i: int| parts[i]@)
}

/// Owned copies of string slices.
pub fn own_texts(list: &[&str]) -> (r: Vec<String>)
    ensures
        texts(r@) == part_texts(list@),
{
    let mut out: Vec<String> = Vec::new();
    let mut i: usize = 0;
    while i < list.len()
        invariant
            i <= list@.len(),
            out@.len() == i,
            forall|j: int| 0 <= j < i ==> (#[trigger] out@[j])@ == list@[j]@,
        decreases list@.len() - i,
    {
        out.push(list[i].to_owned());
        i = i + 1;
    }
    assert(texts(out@) == part_texts(list@));
    out
}

/// A text in double quotes, with what cannot be shown escaped.
pub uninterp spec fn debug_quoted(s: Seq<char>) -> Seq<char>;

/// The `Debug` form of a string slice, as `format!` writes it for `{:?}`: the text in double quotes
/// with quotes, backslashes and unprintable characters escaped. It is a function of the text; which
/// characters are escaped is not stated.
#[verifier::external_body]
pub(crate) fn quote_debug(s: &str) -> (r: String)
    ensures
        r@ == debug_quoted(s@),
{
    format!("{:?}", s)
}

/// Whether a character is white space in Unicode's sense.
pub open spec fn is_space(c: char) -> bool {
    ||| 0x9 <= c as u32 <= 0xd
    ||| c as u32 == 0x20
    ||| c as u32 == 0x85
    ||| c as u32 == 0xa0
    ||| c as u32 == 0x1680
    ||| 0x2000 <= c as u32 <= 0x200a
    ||| c as u32 == 0x2028
    ||| c as u32 == 0x2029
    ||| c as u32 == 0x202f
    ||| c as u32 == 0x205f
    ||| c as u32 == 0x3000
}

/// Whether a character is white space in Unicode's sense.
pub fn space(c: char) -> (r: bool)
    ensures
        r == is_space(c),
{
    let n: u32 = c as u32;
    (0x9 <= n && n <= 0xd) || n == 0x20 || n == 0x85 || n == 0xa0 || n == 0x1680 || (0x2000 <= n
        && n <= 0x200a) || n == 0x2028 || n == 0x2029 || n == 0x202f || n == 0x205f || n == 0x3000
}

/// A text without the white space at its front.
pub open spec fn trimmed_front(s: Seq<char>) -> Seq<char>
    decreases s.len(),
{
    if s.len() > 0 && is_space(s[0]) {
        trimmed_front(s.drop_first())
    } else {
        s
    }
}

/// A text without the white space at its back.
pub open spec fn trimmed_back(s: Seq<char>) -> Seq<char>
    decreases s.len(),
{
    if s.len() > 0 && is_space(s.last()) {
        trimmed_back(s.drop_last())
    } else {
        s
    }
}

/// A text without the white space at either end.
pub open spec fn trimmed(s: Seq<char>) -> Seq<char> {
    trimmed_back(trimmed_front(s))
}

/// A text without the white space at either end.
pub fn trim(s: &str) -> (r: String)
    ensures
        r@ == trimmed(s@),
{
    let chars = chars_of(s);
    let mut from: usize = 0;
    assert(chars@.skip(0) == chars@);
    while from < chars.len() && space(chars[from])
        invariant
            from <= chars@.len(),
            trimmed_front(chars@) == trimmed_front(chars@.skip(from as int)),
        decreases chars@.len() - from,
    {
        assert(chars@.skip(from as int).drop_first() == chars@.skip(from + 1));
        from = from + 1;
    }
    let ghost front = chars@.skip(from as int);
    assert(trimmed_front(chars@) == front);
    let mut to: usize = chars.len();
    assert(chars@.subrange(from as int, to as int) == front);
    while from < to && space(chars[to - 1])
        invariant
            from <= to <= chars@.len(),
            trimmed_back(front) == trimmed_back(chars@.subrange(from as int, to as int)),
        decreases to,
    {
        assert(chars@.subrange(from as int, to as int).drop_last() == chars@.subrange(
            from as int,
            to - 1,
        ));
        to = to - 1;
    }
    text_of(&chars, from, to)
}

/// How many words a text has: runs of characters that are not white space.
pub open spec fn word_count(s: Seq<char>) -> nat
    decreases s.len(),
{
    if s.len() == 0 {
        0
    } else if !is_space(s.last()) && (s.len() == 1 || is_space(s[s.len() - 2])) {
        word_count(s.drop_last()) + 1
    } else {
        word_count(s.drop_last())
    }
}

/// How many words a text has: runs of characters that are not white space.
pub fn count_words(s: &str) -> (n: usize)
    ensures
        n == word_count(s@),
{
    let chars = chars_of(s);
    let mut n: usize = 0;
    let mut i: usize = 0;
    while i < chars.len()
        invariant
            i <= chars@.len(),
            n <= i,
            n == word_count(chars@.take(i as int)),
        decreases chars@.len() - i,
    {
        assert(chars@.take(i + 1).drop_last() == chars@.take(i as int));
        if !space(chars[i]) && (i == 0 || space(chars[i - 1])) {
            n = n + 1;
        }
        i = i + 1;
    }
    assert(chars@.take(chars@.len() as int) == chars@);
    n
}

/// The place of the first `c` in a text, or its length.
pub open spec fn first_at(s: Seq<char>, c: char) -> nat
    decreases s.len(),
{
    if s.len() == 0 || s[0] == c {
        0
    } else {
        1 + first_at(s.drop_first(), c)
    }
}

/// The place of the first `c` in a list of characters, or its length.
pub fn find_char(chars: &Vec<char>, c: char) -> (n: usize)
    ensures
        n == first_at(chars@, c),
        n <= chars@.len(),
{
    let mut i: usize = 0;
    assert(chars@.skip(0) == chars@);
    while i < chars.len() && chars[i] != c
        invariant
            i <= chars@.len(),
            first_at(chars@, c) == i + first_at(chars@.skip(i as int), c),
        decreases chars@.len() - i,
    {
        assert(chars@.skip(i as int).drop_first() == chars@.skip(i + 1));
        i = i + 1;
    }
    i
}

/// A line without the carriage return that may end it.
pub open spec fn without_return(line: Seq<char>) -> Seq<char> {
    if line.len() > 0 && line.last() == '\r' {
        line.drop_last()
    } else {
        line
    }
}

/// The lines of a text. A line ends with a line feed, with or without a carriage return before it;
/// what follows the last line feed is a line too, unless it is empty.
pub open spec fn lines(s: Seq<char>) -> Seq<Seq<char>>
    decreases s.len(),
{
    if s.len() == 0 {
        Seq::empty()
    } else {
        let n = first_at(s, '\n');
        if n < s.len() {
            seq![without_return(s.take(n as int))] + lines(s.skip(n as int + 1))
        } else {
            seq![s]
        }
    }
}

/// Where the first `c` in a text is, given a place that holds one and none before it.
pub proof fn first_found(s: Seq<char>, c: char, n: nat)
    requires
        n <= s.len(),
        n < s.len() ==> s[n as int] == c,
        forall|i: int| 0 <= i < n ==> s[i] != c,
    ensures
        first_at(s, c) == n,
    decreases s.len(),
{
    if n > 0 {
        let rest = s.drop_first();
        assert forall|i: int| 0 <= i < n - 1 implies rest[i] != c by {
            assert(rest[i] == s[i + 1]);
        }
        first_found(rest, c, (n - 1) as nat);
    }
}

/// The lines of a text.
pub fn split_lines(s: &str) -> (r: Vec<String>)
    ensures
        texts(r@) == lines(s@),
{
    let chars = chars_of(s);
    let mut out: Vec<String> = Vec::new();
    let mut from: usize = 0;
    assert(chars@.skip(0) == chars@);
    assert(texts(out@) + lines(chars@) == lines(chars@));
    while from < chars.len()
        invariant
            from <= chars@.len(),
            texts(out@) + lines(chars@.skip(from as int)) == lines(chars@),
        decreases chars@.len() - from,
    {
        let ghost rest = chars@.skip(from as int);
        let mut to: usize = from;
        while to < chars.len() && chars[to] != '\n'
            invariant
                from <= to <= chars@.len(),
                forall|i: int| from <= i < to ==> chars@[i] != '\n',
            decreases chars@.len() - to,
        {
            to = to + 1;
        }
        let ghost n = (to - from) as nat;
        proof {
            assert forall|i: int| 0 <= i < n implies rest[i] != '\n' by {
                assert(rest[i] == chars@[from + i]);
            }
            first_found(rest, '\n', n);
        }
        let ghost before = out@;
        if to < chars.len() {
            let end: usize = if to > from && chars[to - 1] == '\r' {
                to - 1
            } else {
                to
            };
            out.push(text_of(&chars, from, end));
            proof {
                assert(chars@.subrange(from as int, end as int) == without_return(
                    rest.take(n as int),
                ));
                assert(rest.skip(n as int + 1) == chars@.skip(to + 1));
                assert(texts(out@) == texts(before).push(without_return(rest.take(n as int))));
                assert(texts(out@) + lines(chars@.skip(to + 1)) == texts(before) + lines(rest));
            }
            from = to + 1;
        } else {
            out.push(text_of(&chars, from, to));
            proof {
                assert(chars@.subrange(from as int, to as int) == rest);
                assert(texts(out@) == texts(before).push(rest));
                assert(chars@.skip(to as int).len() == 0);
                assert(texts(out@) + lines(chars@.skip(to as int)) == texts(before) + lines(rest));
            }
            from = to;
        }
    }
    assert(lines(chars@.skip(from as int)).len() == 0);
    assert(texts(out@) == lines(chars@));
    out
}

/// Texts one after the other, each with a line feed behind it.
pub open spec fn as_lines(parts: Seq<Seq<char>>) -> Seq<char>
    decreases parts.len(),
{
    if parts.len() == 0 {
        Seq::empty()
    } else {
        as_lines(parts.drop_last()) + parts.last() + seq!['\n']
    }
}

proof fn as_lines_from_front(parts: Seq<Seq<char>>)
    requires
        parts.len() > 0,
    ensures
        as_lines(parts) == parts[0] + seq!['\n'] + as_lines(parts.drop_first()),
    decreases parts.len(),
{
    if parts.len() == 1 {
        assert(as_lines(parts.drop_last()) == Seq::<char>::empty());
        assert(as_lines(parts) == parts[0] + seq!['\n']);
        assert(as_lines(parts.drop_first()) == Seq::<char>::empty());
        assert(as_lines(parts) == parts[0] + seq!['\n'] + as_lines(parts.drop_first()));
    } else {
        as_lines_from_front(parts.drop_last());
        assert(parts.drop_first().drop_last() == parts.drop_last().drop_first());
        assert(parts.drop_first().last() == parts.last());
        assert(as_lines(parts) == parts[0] + seq!['\n'] + as_lines(parts.drop_first()));
    }
}

/// Whether a text stands on one line: it holds no line feed and does not end in a carriage return.
pub open spec fn one_line(s: Seq<char>) -> bool {
    &&& forall|i: int| 0 <= i < s.len() ==> s[i] != '\n'
    &&& s.len() > 0 ==> s.last() != '\r'
}

/// Texts that each stand on one line come back unchanged from the lines they were written as.
pub proof fn lines_round_trip(parts: Seq<Seq<char>>)
    requires
        forall|i: int| 0 <= i < parts.len() ==> one_line(#[trigger] parts[i]),
    ensures
        lines(as_lines(parts)) == parts,
    decreases parts.len(),
{
    if parts.len() > 0 {
        as_lines_from_front(parts);
        let whole = as_lines(parts);
        let rest = parts.drop_first();
        let n = parts[0].len();
        assert(one_line(parts[0]));
        assert forall|i: int| 0 <= i < n implies whole[i] != '\n' by {
            assert(whole[i] == parts[0][i]);
        }
        assert(whole[n as int] == '\n');
        first_found(whole, '\n', n);
        assert(whole.take(n as int) == parts[0]);
        assert(whole.skip(n as int + 1) == as_lines(rest));
        assert forall|i: int| 0 <= i < rest.len() implies one_line(#[trigger] rest[i]) by {
            assert(rest[i] == parts[i + 1]);
        }
        lines_round_trip(rest);
        assert(seq![parts[0]] + rest == parts);
    }
}

/// Where a text first holds another one.
pub open spec fn text_at(s: Seq<char>, pat: Seq<char>) -> Option<nat>
    decreases s.len(),
{
    if pat.len() <= s.len() && s.take(pat.len() as int) == pat {
        Some(0)
    } else if s.len() == 0 {
        None
    } else {
        match text_at(s.drop_first(), pat) {
            Some(n) => Some((n + 1) as nat),
            None => None,
        }
    }
}

/// Whether a list of characters holds a text at a place.
pub fn holds_at(chars: &Vec<char>, at: usize, pat: &Vec<char>) -> (r: bool)
    requires
        at <= chars@.len(),
    ensures
        r == (pat@.len() <= chars@.len() - at && chars@.subrange(at as int, at + pat@.len()) == pat@),
{
    if pat.len() > chars.len() - at {
        return false;
    }
    let mut i: usize = 0;
    while i < pat.len()
        invariant
            i <= pat@.len(),
            at + pat@.len() <= chars@.len() <= usize::MAX,
            forall|j: int| 0 <= j < i ==> chars@[at + j] == pat@[j],
        decreases pat@.len() - i,
    {
        if chars[at + i] != pat[i] {
            assert(chars@.subrange(at as int, at + pat@.len())[i as int] != pat@[i as int]);
            return false;
        }
        i = i + 1;
    }
    assert(chars@.subrange(at as int, at + pat@.len()) == pat@);
    true
}

/// Where a list of characters, from a place on, first holds a text; counted from that place.
pub fn find_text(chars: &Vec<char>, from: usize, pat: &Vec<char>) -> (r: Option<usize>)
    requires
        from <= chars@.len(),
    ensures
        match r {
            Some(n) => text_at(chars@.skip(from as int), pat@) == Some(n as nat) && from + n
                + pat@.len() <= chars@.len(),
            None => text_at(chars@.skip(from as int), pat@) is None,
        },
{
    let ghost whole = chars@.skip(from as int);
    let mut i: usize = from;
    assert(whole.skip(0) == whole);
    loop
        invariant
            from <= i <= chars@.len(),
            whole == chars@.skip(from as int),
            match text_at(whole.skip(i - from), pat@) {
                Some(n) => text_at(whole, pat@) == Some((n + (i - from)) as nat),
                None => text_at(whole, pat@) is None,
            },
        decreases chars@.len() - i,
    {
        let ghost rest = whole.skip(i - from);
        let hit = holds_at(chars, i, pat);
        proof {
            if pat@.len() <= rest.len() {
                assert(rest.take(pat@.len() as int) == chars@.subrange(i as int, i + pat@.len()));
            }
        }
        if hit {
            return Some(i - from);
        }
        if i == chars.len() {
            return None;
        }
        assert(rest.drop_first() == whole.skip(i + 1 - from));
        i = i + 1;
    }
}

/// The pieces of a text between the places where it holds `c`.
pub open spec fn split_on(s: Seq<char>, c: char) -> Seq<Seq<char>>
    decreases s.len(),
{
    let n = first_at(s, c);
    if n < s.len() {
        seq![s.take(n as int)] + split_on(s.skip(n as int + 1), c)
    } else {
        seq![s]
    }
}

/// The pieces of a text between the places where it holds `c`.
pub fn split_char(s: &str, c: char) -> (r: Vec<String>)
    ensures
        texts(r@) == split_on(s@, c),
{
    let chars = chars_of(s);
    let mut out: Vec<String> = Vec::new();
    let mut from: usize = 0;
    assert(chars@.skip(0) == chars@);
    assert(texts(out@) + split_on(chars@, c) == split_on(chars@, c));
    loop
        invariant_except_break
            from <= chars@.len(),
            texts(out@) + split_on(chars@.skip(from as int), c) == split_on(chars@, c),
        ensures
            texts(out@) == split_on(chars@, c),
        decreases chars@.len() - from,
    {
        let ghost rest = chars@.skip(from as int);
        let mut to: usize = from;
        while to < chars.len() && chars[to] != c
            invariant
                from <= to <= chars@.len(),
                forall|i: int| from <= i < to ==> chars@[i] != c,
            decreases chars@.len() - to,
        {
            to = to + 1;
        }
        let ghost n = (to - from) as nat;
        proof {
            assert forall|i: int| 0 <= i < n implies rest[i] != c by {
                assert(rest[i] == chars@[from + i]);
            }
            first_found(rest, c, n);
        }
        let ghost before = out@;
        out.push(text_of(&chars, from, to));
        assert(chars@.subrange(from as int, to as int) == rest.take(n as int));
        assert(texts(out@) == texts(before).push(rest.take(n as int)));
        if to == chars.len() {
            assert(rest.take(n as int) == rest);
            assert(texts(out@) == texts(before) + split_on(rest, c));
            break;
        }
        proof {
            assert(rest.skip(n as int + 1) == chars@.skip(to + 1));
            assert(texts(out@) + split_on(chars@.skip(to + 1), c) == texts(before) + split_on(
                rest,
                c,
            ));
        }
        from = to + 1;
    }
    out
}

/// A text without the characters of `set` at its front.
pub open spec fn stripped_front(s: Seq<char>, set: Seq<char>) -> Seq<char>
    decreases s.len(),
{
    if s.len() > 0 && set.contains(s[0]) {
        stripped_front(s.drop_first(), set)
    } else {
        s
    }
}

/// A text without the characters of `set` at its back.
pub open spec fn stripped_back(s: Seq<char>, set: Seq<char>) -> Seq<char>
    decreases s.len(),
{
    if s.len() > 0 && set.contains(s.last()) {
        stripped_back(s.drop_last(), set)
    } else {
        s
    }
}

/// A text without the characters of `set` at either end.
pub open spec fn stripped(s: Seq<char>, set: Seq<char>) -> Seq<char> {
    stripped_back(stripped_front(s, set), set)
}

fn char_in(c: char, set: &[char]) -> (r: bool)
    ensures
        r == set@.contains(c),
{
    let mut i: usize = 0;
    while i < set.len()
        invariant
            i <= set@.len(),
            forall|j: int| 0 <= j < i ==> set@[j] != c,
        decreases set@.len() - i,
    {
        if set[i] == c {
            return true;
        }
        i = i + 1;
    }
    false
}

/// A text without the characters of `set` at its front.
pub fn strip_front(s: &str, set: &[char]) -> (r: String)
    ensures
        r@ == stripped_front(s@, set@),
{
    let chars = chars_of(s);
    let mut from: usize = 0;
    assert(chars@.skip(0) == chars@);
    while from < chars.len() && char_in(chars[from], set)
        invariant
            from <= chars@.len(),
            stripped_front(chars@, set@) == stripped_front(chars@.skip(from as int), set@),
        decreases chars@.len() - from,
    {
        assert(chars@.skip(from as int).drop_first() == chars@.skip(from + 1));
        from = from + 1;
    }
    assert(chars@.subrange(from as int, chars@.len() as int) == chars@.skip(from as int));
    text_of(&chars, from, chars.len())
}

/// A text without the characters of `set` at either end.
pub fn strip(s: &str, set: &[char]) -> (r: String)
    ensures
        r@ == stripped(s@, set@),
{
    let front = strip_front(s, set);
    let chars = chars_of(front.as_str());
    let mut to: usize = chars.len();
    assert(chars@.take(to as int) == chars@);
    while 0 < to && char_in(chars[to - 1], set)
        invariant
            to <= chars@.len(),
            stripped_back(chars@, set@) == stripped_back(chars@.take(to as int), set@),
        decreases to,
    {
        assert(chars@.take(to as int).drop_last() == chars@.take(to - 1));
        to = to - 1;
    }
    assert(chars@.subrange(0, to as int) == chars@.take(to as int));
    text_of(&chars, 0, to)
}

/// Two texts that differ between the same front and the same back differ.
pub proof fn middle_counts(front: Seq<char>, a: Seq<char>, b: Seq<char>, back: Seq<char>)
    requires
        a != b,
    ensures
        front + a + back != front + b + back,
{
    let x = front + a + back;
    let y = front + b + back;
    if x == y {
        assert(x.len() == front.len() + a.len() + back.len());
        assert(y.len() == front.len() + b.len() + back.len());
        assert(x.subrange(front.len() as int, (front.len() + a.len()) as int) == a);
        assert(y.subrange(front.len() as int, (front.len() + a.len()) as int) == b);
    }
}

/// Whether a text holds another, in one piece, from a place on.
pub open spec fn stands_at(text: Seq<char>, part: Seq<char>, i: int) -> bool {
    0 <= i <= text.len() - part.len() && text.subrange(i, i + part.len()) == part
}

/// Whether a text holds another, in one piece.
pub open spec fn mentions(text: Seq<char>, part: Seq<char>) -> bool {
    exists|i: int| stands_at(text, part, i)
}

/// A text mentions each of the pieces it is put together from.
pub proof fn pieces_are_mentioned(front: Seq<char>, part: Seq<char>, back: Seq<char>)
    ensures
        mentions(front + part + back, part),
        mentions(front + part, part),
        mentions(part + back, part),
        mentions(part, part),
{
    let n = front.len() as int;
    assert((front + part + back).subrange(n, n + part.len()) == part);
    assert((front + part).subrange(n, n + part.len()) == part);
    assert((part + back).subrange(0, part.len() as int) == part);
    assert(part.subrange(0, part.len() as int) == part);
    assert(stands_at(front + part + back, part, n));
    assert(stands_at(front + part, part, n));
    assert(stands_at(part + back, part, 0));
    assert(stands_at(part, part, 0));
}

/// What a part of a text mentions, the text mentions.
pub proof fn mentioning_is_transitive(text: Seq<char>, part: Seq<char>, piece: Seq<char>)
    requires
        mentions(text, part),
        mentions(part, piece),
    ensures
        mentions(text, piece),
{
    let i = choose|i: int| stands_at(text, part, i);
    let j = choose|j: int| stands_at(part, piece, j);
    assert(text.subrange(i + j, i + j + piece.len()) == text.subrange(i, i + part.len()).subrange(
        j,
        j + piece.len(),
    ));
    assert(stands_at(text, piece, i + j));
}

/// Joined parts hold every part, and a different part in one place makes a different text.
pub proof fn joining_keeps_every_part(parts: Seq<Seq<char>>, sep: Seq<char>, k: int, other: Seq<char>)
    requires
        0 <= k < parts.len(),
    ensures
        mentions(joined(parts, sep), parts[k]),
        other != parts[k] ==> joined(parts, sep) != joined(parts.update(k, other), sep),
    decreases parts.len(),
{
    let changed = parts.update(k, other);
    let none = Seq::<char>::empty();
    if parts.len() == 1 {
        pieces_are_mentioned(none, parts[0], none);
    } else {
        let rest = parts.drop_last();
        let front = joined(rest, sep) + sep;
        if k == parts.len() - 1 {
            pieces_are_mentioned(front, parts.last(), none);
            assert(changed.drop_last() == rest);
            if other != parts[k] {
                middle_counts(front, parts.last(), other, none);
                assert(front + parts.last() + none == joined(parts, sep));
                assert(front + other + none == joined(changed, sep));
            }
        } else {
            joining_keeps_every_part(rest, sep, k, other);
            let tail = sep + parts.last();
            pieces_are_mentioned(none, joined(rest, sep), tail);
            assert(joined(rest, sep) + tail == joined(parts, sep));
            mentioning_is_transitive(joined(parts, sep), joined(rest, sep), parts[k]);
            assert(changed.drop_last() == rest.update(k, other));
            assert(changed.last() == parts.last());
            if other != parts[k] {
                middle_counts(none, joined(rest, sep), joined(rest.update(k, other), sep), tail);
                assert(none + joined(rest, sep) + tail == joined(parts, sep));
                assert(none + joined(rest.update(k, other), sep) + tail == joined(changed, sep));
            }
        }
    }
}

/// A text mentions itself.
pub broadcast proof fn a_text_mentions_itself(text: Seq<char>)
    ensures
        #[trigger] mentions(text, text),
{
    assert(text.subrange(0, text.len() as int) == text);
    assert(stands_at(text, text, 0));
}

/// What the front of a text mentions, the text mentions.
pub broadcast proof fn fronts_are_mentioned(front: Seq<char>, back: Seq<char>, part: Seq<char>)
    requires
        mentions(front, part),
    ensures
        #[trigger] mentions(front + back, part),
{
    pieces_are_mentioned(Seq::empty(), front, back);
    mentioning_is_transitive(front + back, front, part);
}

/// What the back of a text mentions, the text mentions.
pub broadcast proof fn backs_are_mentioned(front: Seq<char>, back: Seq<char>, part: Seq<char>)
    requires
        mentions(back, part),
    ensures
        #[trigger] mentions(front + back, part),
{
    pieces_are_mentioned(front, back, Seq::empty());
    mentioning_is_transitive(front + back, back, part);
}

/// What follows from how a text is put together about what it mentions.
pub broadcast group group_mentions {
    a_text_mentions_itself,
    fronts_are_mentioned,
    backs_are_mentioned,
}

/// A text has as many words as the texts before and behind a white space in it, a text without
/// white space is one word, and an empty one none.
pub proof fn words_are_what_white_space_parts(a: Seq<char>, space: char, b: Seq<char>)
    requires
        is_space(space),
    ensures
        word_count(a + seq![space] + b) == word_count(a) + word_count(b),
        word_count(Seq::empty()) == 0,
        a.len() > 0 && (forall|i: int| 0 <= i < a.len() ==> !is_space(#[trigger] a[i])) ==> word_count(a)
            == 1,
    decreases a.len() + b.len(),
{
    let whole = a + seq![space] + b;
    if b.len() > 0 {
        words_are_what_white_space_parts(a, space, b.drop_last());
        assert(whole.drop_last() == a + seq![space] + b.drop_last());
        assert(whole.last() == b.last());
        if b.len() == 1 {
            assert(whole[whole.len() - 2] == space);
            assert(b.drop_last() == Seq::<char>::empty());
        } else {
            assert(whole[whole.len() - 2] == b[b.len() - 2]);
        }
    } else {
        assert(whole.drop_last() == a);
        assert(whole.last() == space);
        if a.len() > 0 {
            words_are_what_white_space_parts(a.drop_last(), space, b);
            if a.len() == 1 {
                assert(a.drop_last() == Seq::<char>::empty());
            }
        }
    }
}

/// A text is found in another exactly where it is in it, and found at the first place it stands.
pub proof fn a_text_is_found_where_it_first_stands(s: Seq<char>, pat: Seq<char>)
    ensures
        text_at(s, pat) is Some <==> mentions(s, pat),
        text_at(s, pat) matches Some(n) ==> stands_at(s, pat, n as int) && forall|j: int|
            0 <= j < n ==> !#[trigger] stands_at(s, pat, j),
    decreases s.len(),
{
    if pat.len() <= s.len() && s.take(pat.len() as int) == pat {
        assert(s.subrange(0, pat.len() as int) == s.take(pat.len() as int));
        assert(stands_at(s, pat, 0));
    } else {
        assert(!stands_at(s, pat, 0)) by {
            if stands_at(s, pat, 0) {
                assert(s.subrange(0, pat.len() as int) == s.take(pat.len() as int));
            }
        }
        if s.len() > 0 {
            let rest = s.drop_first();
            a_text_is_found_where_it_first_stands(rest, pat);
            assert forall|j: int| 0 < j implies (stands_at(s, pat, j) <==> #[trigger] stands_at(
                rest,
                pat,
                j - 1,
            )) by {
                if j + pat.len() <= s.len() {
                    assert(s.subrange(j, j + pat.len()) == rest.subrange(j - 1, j - 1 + pat.len()));
                }
            }
            if mentions(s, pat) {
                let j = choose|j: int| stands_at(s, pat, j);
                assert(stands_at(rest, pat, j - 1));
            }
            if mentions(rest, pat) {
                let j = choose|j: int| stands_at(rest, pat, j);
                assert(stands_at(rest, pat, (j + 1) - 1));
                assert(stands_at(s, pat, j + 1));
            }
            if text_at(s, pat) is Some {
                let n = text_at(s, pat)->0 as int;
                assert(stands_at(rest, pat, n - 1));
                assert forall|j: int| 0 <= j < n implies !#[trigger] stands_at(s, pat, j) by {
                    if j > 0 {
                        assert(!stands_at(rest, pat, j - 1));
                    }
                }
            }
        }
    }
}

/// A text is split at every place a character stands, and nowhere else: what is in front of one and
/// what is behind it are split on their own.
pub proof fn a_text_is_split_at_every_place(a: Seq<char>, c: char, b: Seq<char>)
    ensures
        split_on(a + seq![c] + b, c) == split_on(a, c) + split_on(b, c),
        !a.contains(c) ==> split_on(a, c) == seq![a],
    decreases a.len(),
{
    let whole = a + seq![c] + b;
    first_is_first(a, c);
    let n = first_at(a, c);
    if n < a.len() {
        first_found(whole, c, n);
        let rest = a.skip(n as int + 1);
        a_text_is_split_at_every_place(rest, c, b);
        assert(whole.take(n as int) == a.take(n as int));
        assert(whole.skip(n as int + 1) == rest + seq![c] + b);
        assert(split_on(whole, c) == seq![a.take(n as int)] + (split_on(rest, c) + split_on(b, c)));
        assert(split_on(a, c) == seq![a.take(n as int)] + split_on(rest, c));
        assert(a[n as int] == c);
    } else {
        assert(whole[a.len() as int] == c);
        first_found(whole, c, a.len());
        assert(whole.take(a.len() as int) == a);
        assert(whole.skip(a.len() as int + 1) == b);
    }
}

proof fn first_is_first(s: Seq<char>, c: char)
    ensures
        first_at(s, c) <= s.len(),
        first_at(s, c) < s.len() ==> s[first_at(s, c) as int] == c,
        forall|i: int| 0 <= i < first_at(s, c) ==> s[i] != c,
    decreases s.len(),
{
    if s.len() > 0 && s[0] != c {
        first_is_first(s.drop_first(), c);
        assert forall|i: int| 0 <= i < first_at(s, c) implies s[i] != c by {
            if i > 0 {
                assert(s.drop_first()[i - 1] == s[i]);
            }
        }
    }
}

/// Whether a text is another without some characters at either end.
pub open spec fn cut_out_of(s: Seq<char>, t: Seq<char>, n: int, gone: spec_fn(char) -> bool) -> bool {
    &&& stands_at(s, t, n)
    &&& forall|i: int| 0 <= i < n ==> gone(#[trigger] s[i])
    &&& forall|i: int| n + t.len() <= i < s.len() ==> gone(#[trigger] s[i])
    &&& t.len() > 0 ==> !gone(t[0]) && !gone(t.last())
}

/// Trimming takes away the white space at either end, all of it, and nothing else.
pub proof fn trimming_takes_white_space_only(s: Seq<char>) -> (n: int)
    ensures
        cut_out_of(s, trimmed(s), n, |c: char| is_space(c)),
{
    let gone = |c: char| is_space(c);
    let front = trimmed_front(s);
    let n = s.len() - front.len();
    trimmed_front_is(s);
    trimmed_back_is(front);
    let t = trimmed(s);
    assert(t == front.take(t.len() as int));
    assert(front == s.skip(n));
    assert(s.subrange(n, n + t.len()) == t);
    assert forall|i: int| n + t.len() <= i < s.len() implies gone(#[trigger] s[i]) by {
        assert(front[i - n] == s[i]);
    }
    if t.len() > 0 {
        assert(t[0] == front[0]);
    }
    n
}

proof fn trimmed_front_is(s: Seq<char>)
    ensures
        trimmed_front(s).len() <= s.len(),
        trimmed_front(s) == s.skip(s.len() - trimmed_front(s).len()),
        forall|i: int| 0 <= i < s.len() - trimmed_front(s).len() ==> is_space(#[trigger] s[i]),
        trimmed_front(s).len() > 0 ==> !is_space(trimmed_front(s)[0]),
    decreases s.len(),
{
    if s.len() > 0 && is_space(s[0]) {
        let rest = s.drop_first();
        trimmed_front_is(rest);
        assert forall|i: int| 0 <= i < s.len() - trimmed_front(s).len() implies is_space(
            #[trigger] s[i],
        ) by {
            if i > 0 {
                assert(rest[i - 1] == s[i]);
            }
        }
        assert(rest.skip(rest.len() - trimmed_front(s).len()) == s.skip(
            s.len() - trimmed_front(s).len(),
        ));
    } else {
        assert(s.skip(0) == s);
    }
}

proof fn trimmed_back_is(s: Seq<char>)
    ensures
        trimmed_back(s).len() <= s.len(),
        trimmed_back(s) == s.take(trimmed_back(s).len() as int),
        forall|i: int| trimmed_back(s).len() <= i < s.len() ==> is_space(#[trigger] s[i]),
        trimmed_back(s).len() > 0 ==> !is_space(trimmed_back(s).last()),
    decreases s.len(),
{
    if s.len() > 0 && is_space(s.last()) {
        let rest = s.drop_last();
        trimmed_back_is(rest);
        assert forall|i: int| trimmed_back(s).len() <= i < s.len() implies is_space(#[trigger] s[i]) by {
            if i < s.len() - 1 {
                assert(rest[i] == s[i]);
            }
        }
        assert(rest.take(trimmed_back(s).len() as int) == s.take(trimmed_back(s).len() as int));
    } else {
        assert(s.take(s.len() as int) == s);
    }
}

/// Stripping takes away the characters of a set at either end, all of them, and nothing else.
pub proof fn stripping_takes_the_set_only(s: Seq<char>, set: Seq<char>) -> (n: int)
    ensures
        cut_out_of(s, stripped(s, set), n, |c: char| set.contains(c)),
{
    let gone = |c: char| set.contains(c);
    let front = stripped_front(s, set);
    let n = s.len() - front.len();
    stripped_front_is(s, set);
    stripped_back_is(front, set);
    let t = stripped(s, set);
    assert(t == front.take(t.len() as int));
    assert(front == s.skip(n));
    assert(s.subrange(n, n + t.len()) == t);
    assert forall|i: int| n + t.len() <= i < s.len() implies gone(#[trigger] s[i]) by {
        assert(front[i - n] == s[i]);
    }
    if t.len() > 0 {
        assert(t[0] == front[0]);
    }
    n
}

proof fn stripped_front_is(s: Seq<char>, set: Seq<char>)
    ensures
        stripped_front(s, set).len() <= s.len(),
        stripped_front(s, set) == s.skip(s.len() - stripped_front(s, set).len()),
        forall|i: int|
            0 <= i < s.len() - stripped_front(s, set).len() ==> set.contains(#[trigger] s[i]),
        stripped_front(s, set).len() > 0 ==> !set.contains(stripped_front(s, set)[0]),
    decreases s.len(),
{
    if s.len() > 0 && set.contains(s[0]) {
        let rest = s.drop_first();
        stripped_front_is(rest, set);
        assert forall|i: int|
            0 <= i < s.len() - stripped_front(s, set).len() implies set.contains(#[trigger] s[i]) by {
            if i > 0 {
                assert(rest[i - 1] == s[i]);
            }
        }
        assert(rest.skip(rest.len() - stripped_front(s, set).len()) == s.skip(
            s.len() - stripped_front(s, set).len(),
        ));
    } else {
        assert(s.skip(0) == s);
    }
}

proof fn stripped_back_is(s: Seq<char>, set: Seq<char>)
    ensures
        stripped_back(s, set).len() <= s.len(),
        stripped_back(s, set) == s.take(stripped_back(s, set).len() as int),
        forall|i: int| stripped_back(s, set).len() <= i < s.len() ==> set.contains(#[trigger] s[i]),
        stripped_back(s, set).len() > 0 ==> !set.contains(stripped_back(s, set).last()),
    decreases s.len(),
{
    if s.len() > 0 && set.contains(s.last()) {
        let rest = s.drop_last();
        stripped_back_is(rest, set);
        assert forall|i: int| stripped_back(s, set).len() <= i < s.len() implies set.contains(
            #[trigger] s[i],
        ) by {
            if i < s.len() - 1 {
                assert(rest[i] == s[i]);
            }
        }
        assert(rest.take(stripped_back(s, set).len() as int) == s.take(
            stripped_back(s, set).len() as int,
        ));
    } else {
        assert(s.take(s.len() as int) == s);
    }
}

/// Only the capital letters of ASCII are lowered, each to its small letter, and the length stays.
pub proof fn only_ascii_capitals_are_lowered(s: Seq<char>, i: int)
    requires
        0 <= i < s.len(),
    ensures
        lowered(s).len() == s.len(),
        0x41 <= s[i] as u32 <= 0x5a ==> lowered(s)[i] as u32 == s[i] as u32 + 0x20,
        !(0x41 <= s[i] as u32 <= 0x5a) ==> lowered(s)[i] == s[i],
{
}

/// The number that decimal digits stand for.
pub open spec fn read_number(digits: Seq<char>) -> int
    decreases digits.len(),
{
    if digits.len() == 0 {
        0
    } else {
        10 * read_number(digits.drop_last()) + (digits.last() as u32 - 0x30)
    }
}

/// A number in decimal reads back as that number. It is made of digits, and does not begin with a
/// zero unless it is one.
pub proof fn numbers_read_back(n: nat)
    ensures
        read_number(dec(n)) == n,
        dec(n).len() > 0,
        forall|i: int| 0 <= i < dec(n).len() ==> 0x30 <= #[trigger] dec(n)[i] as u32 <= 0x39,
        n > 0 ==> dec(n)[0] as u32 != 0x30,
        n == 0 ==> dec(n).len() == 1,
    decreases n,
{
    reveal_with_fuel(read_number, 2);
    if n >= 10 {
        numbers_read_back(n / 10);
        assert(dec(n).drop_last() == dec(n / 10));
        assert(dec(n).last() == digit(n % 10));
    } else {
        assert(dec(n) == seq![digit(n)]);
        assert(dec(n).drop_last() == Seq::<char>::empty());
    }
}

/// Two texts are in the order of the first characters in which they differ, and a text comes after
/// every text that it begins with.
pub proof fn the_first_difference_orders(
    shared: Seq<char>,
    x: char,
    a: Seq<char>,
    y: char,
    b: Seq<char>,
)
    ensures
        x != y ==> (text_before(shared + seq![x] + a, shared + seq![y] + b) <==> x < y),
        text_before(shared, shared + seq![y] + b),
        !text_before(shared + seq![y] + b, shared),
    decreases shared.len(),
{
    let s = shared + seq![x] + a;
    let t = shared + seq![y] + b;
    if shared.len() > 0 {
        let rest = shared.drop_first();
        the_first_difference_orders(rest, x, a, y, b);
        assert(s.drop_first() == rest + seq![x] + a);
        assert(t.drop_first() == rest + seq![y] + b);
        assert(s[0] == shared[0] && t[0] == shared[0]);
    } else {
        assert(s[0] == x && t[0] == y);
    }
}

/// Joined parts stand next to each other with one separator between them: none in front, none
/// behind.
pub proof fn one_separator_between_parts(a: Seq<Seq<char>>, b: Seq<Seq<char>>, sep: Seq<char>)
    ensures
        joined(Seq::empty(), sep) == Seq::<char>::empty(),
        a.len() == 1 ==> joined(a, sep) == a[0],
        a.len() > 0 && b.len() > 0 ==> joined(a + b, sep) == joined(a, sep) + sep + joined(b, sep),
    decreases b.len(),
{
    if a.len() > 0 && b.len() > 0 {
        assert((a + b).last() == b.last());
        assert((a + b).drop_last() == a + b.drop_last());
        if b.len() == 1 {
            assert(a + b.drop_last() == a);
        } else {
            one_separator_between_parts(a, b.drop_last(), sep);
            assert(joined(a, sep) + sep + joined(b.drop_last(), sep) + sep + b.last() == joined(a, sep)
                + sep + (joined(b.drop_last(), sep) + sep + b.last()));
        }
    }
}

} // verus!
