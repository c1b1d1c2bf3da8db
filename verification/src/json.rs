//! JSON values.
//!
//! The fields of an object are kept in the order of their names, each name once, so that a value
//! is shown the same way wherever it came from.

use vstd::prelude::*;

use crate::text::{comes_before, debug_quoted, decimal, hex_byte, push_decimal, quote_debug, texts, same_text, signed_dec, signed_decimal, text_before, text_order_is_total, text_order_is_transitive, dec, group_mentions, joined, joining_keeps_every_part, mentioning_is_transitive, mentions, middle_counts, hex_digit};
use crate::mcp::agreement::set_field_is_found;

verus! {

/// A JSON number.
#[derive(Debug, PartialEq, Eq)]
pub enum Number {
    /// An integer that is not negative.
    PosInt(u64),
    /// A negative integer.
    NegInt(i64),
    /// Any other number, as it is written.
    Float(String),
}

/// A JSON value.
#[derive(Debug, PartialEq, Eq)]
pub enum Json {
    /// `null`.
    Null,
    /// `true` or `false`.
    Bool(bool),
    /// A number.
    Number(Number),
    /// A string.
    Text(String),
    /// A list of values.
    Array(Vec<Json>),
    /// Named values, in the order of their names.
    Object(Vec<(String, Json)>),
}

/// What a JSON number is.
pub enum NumberView {
    PosInt(u64),
    NegInt(i64),
    Float(Seq<char>),
}

/// What a JSON value is.
pub enum JsonView {
    Null,
    Bool(bool),
    Number(NumberView),
    Text(Seq<char>),
    Array(Seq<JsonView>),
    Object(Seq<(Seq<char>, JsonView)>),
}

impl View for Number {
    type V = NumberView;

    open spec fn view(&self) -> NumberView {
        match *self {
            Number::PosInt(n) => NumberView::PosInt(n),
            Number::NegInt(n) => NumberView::NegInt(n),
            Number::Float(s) => NumberView::Float(s@),
        }
    }
}

/// What a JSON value is.
pub open spec fn json_view(j: Json) -> JsonView
    decreases j,
{
    match j {
        Json::Null => JsonView::Null,
        Json::Bool(b) => JsonView::Bool(b),
        Json::Number(n) => JsonView::Number(n@),
        Json::Text(s) => JsonView::Text(s@),
        Json::Array(v) => JsonView::Array(
            Seq::new(
                v@.len(),
                |i: int|
                    if 0 <= i < v@.len() {
                        json_view(v@[i])
                    } else {
                        JsonView::Null
                    },
            ),
        ),
        Json::Object(v) => JsonView::Object(
            Seq::new(
                v@.len(),
                |i: int|
                    if 0 <= i < v@.len() {
                        (v@[i].0@, json_view(v@[i].1))
                    } else {
                        (Seq::empty(), JsonView::Null)
                    },
            ),
        ),
    }
}

impl View for Json {
    type V = JsonView;

    open spec fn view(&self) -> JsonView {
        json_view(*self)
    }
}

impl DeepView for Json {
    type V = JsonView;

    open spec fn deep_view(&self) -> JsonView {
        json_view(*self)
    }
}

/// The values of a list.
pub open spec fn json_views(v: Seq<Json>) -> Seq<JsonView> {
    Seq::new(v.len(), |i: int| v[i]@)
}

/// The fields of an object.
pub open spec fn field_views(v: Seq<(String, Json)>) -> Seq<(Seq<char>, JsonView)> {
    Seq::new(v.len(), |i: int| (v[i].0@, v[i].1@))
}

/// A list is its values.
pub proof fn array_view(v: Vec<Json>)
    ensures
        Json::Array(v)@ == JsonView::Array(json_views(v@)),
{
    assert(json_view(Json::Array(v))->Array_0 =~= json_views(v@));
}

/// An object is its fields.
pub proof fn object_view(v: Vec<(String, Json)>)
    ensures
        Json::Object(v)@ == JsonView::Object(field_views(v@)),
{
    assert(json_view(Json::Object(v))->Object_0 =~= field_views(v@));
}

proof fn elements_are_smaller(j: Json, v: Vec<Json>, i: int)
    requires
        j == Json::Array(v),
        0 <= i < v@.len(),
    ensures
        decreases_to!(j => v@[i]),
{
    assert(decreases_to!(j => j->Array_0));
    assert(decreases_to!(v => v@));
    assert(decreases_to!(v@ => v@[i]));
}

proof fn field_values_are_smaller(j: Json, v: Vec<(String, Json)>, i: int)
    requires
        j == Json::Object(v),
        0 <= i < v@.len(),
    ensures
        decreases_to!(j => v@[i].1),
{
    assert(decreases_to!(j => j->Object_0));
    assert(decreases_to!(v => v@));
    assert(decreases_to!(v@ => v@[i]));
    assert(decreases_to!(v@[i] => v@[i].1));
}

impl Clone for Json {
    fn clone(&self) -> (r: Self)
        ensures
            r@ == self@,
    {
        self.copy()
    }
}

/// The value of the first field with a name.
pub open spec fn field(fields: Seq<(Seq<char>, JsonView)>, name: Seq<char>) -> Option<JsonView>
    decreases fields.len(),
{
    if fields.len() == 0 {
        None
    } else if fields[0].0 == name {
        Some(fields[0].1)
    } else {
        field(fields.drop_first(), name)
    }
}

impl JsonView {
    /// The value under a name, where this is an object that has it.
    pub open spec fn get(self, name: Seq<char>) -> Option<JsonView> {
        match self {
            JsonView::Object(fields) => field(fields, name),
            _ => None,
        }
    }

    /// The text, where this is a string.
    pub open spec fn as_str(self) -> Option<Seq<char>> {
        match self {
            JsonView::Text(s) => Some(s),
            _ => None,
        }
    }

    /// The text under a name.
    pub open spec fn get_str(self, name: Seq<char>) -> Option<Seq<char>> {
        match self.get(name) {
            Some(v) => v.as_str(),
            None => None,
        }
    }

    /// The integer, where this is a number that 64 signed bits hold.
    pub open spec fn as_i64(self) -> Option<i64> {
        match self {
            JsonView::Number(NumberView::PosInt(n)) => if n <= i64::MAX {
                Some(n as i64)
            } else {
                None
            },
            JsonView::Number(NumberView::NegInt(n)) => Some(n),
            _ => None,
        }
    }
}

/// Whether field names ascend, each once.
pub open spec fn fields_sorted(fields: Seq<(Seq<char>, JsonView)>) -> bool {
    forall|i: int, j: int|
        0 <= i < j < fields.len() ==> text_before((#[trigger] fields[i]).0, (#[trigger] fields[j]).0)
}

/// Whether every object in a value has its fields in order.
pub open spec fn well_formed(j: JsonView) -> bool
    decreases j,
{
    match j {
        JsonView::Array(items) => forall|i: int|
            0 <= i < items.len() ==> well_formed(#[trigger] items[i]),
        JsonView::Object(fields) => fields_sorted(fields) && forall|i: int|
            0 <= i < fields.len() ==> well_formed((#[trigger] fields[i]).1),
        _ => true,
    }
}

/// The fields with one more, or with another value for one that is there. Names stay in order.
pub open spec fn with_field(
    fields: Seq<(Seq<char>, JsonView)>,
    name: Seq<char>,
    value: JsonView,
) -> Seq<(Seq<char>, JsonView)>
    decreases fields.len(),
{
    if fields.len() == 0 || text_before(name, fields[0].0) {
        seq![(name, value)] + fields
    } else if fields[0].0 == name {
        seq![(name, value)] + fields.drop_first()
    } else {
        seq![fields[0]] + with_field(fields.drop_first(), name, value)
    }
}

impl Json {
    /// A copy of the value.
    pub fn copy(&self) -> (r: Json)
        ensures
            r@ == self@,
        decreases *self,
    {
        match self {
            Json::Null => Json::Null,
            Json::Bool(b) => Json::Bool(*b),
            Json::Number(n) => Json::Number(
                match n {
                    Number::PosInt(n) => Number::PosInt(*n),
                    Number::NegInt(n) => Number::NegInt(*n),
                    Number::Float(s) => Number::Float(s.clone()),
                },
            ),
            Json::Text(s) => Json::Text(s.clone()),
            Json::Array(v) => {
                let mut out: Vec<Json> = Vec::new();
                let mut i: usize = 0;
                while i < v.len()
                    invariant
                        i <= v@.len(),
                        *self == Json::Array(*v),
                        out@.len() == i,
                        forall|j: int| 0 <= j < i ==> (#[trigger] out@[j])@ == v@[j]@,
                    decreases v@.len() - i,
                {
                    proof {
                        elements_are_smaller(*self, *v, i as int);
                    }
                    out.push(v[i].copy());
                    i = i + 1;
                }
                proof {
                    array_view(*v);
                    array_view(out);
                    assert(json_views(out@) == json_views(v@));
                }
                Json::Array(out)
            },
            Json::Object(v) => {
                let mut out: Vec<(String, Json)> = Vec::new();
                let mut i: usize = 0;
                while i < v.len()
                    invariant
                        i <= v@.len(),
                        *self == Json::Object(*v),
                        out@.len() == i,
                        forall|j: int| 0 <= j < i ==> (#[trigger] out@[j]).0@ == v@[j].0@ && out@[j].1@ == v@[j].1@,
                    decreases v@.len() - i,
                {
                    proof {
                        field_values_are_smaller(*self, *v, i as int);
                    }
                    out.push((v[i].0.clone(), v[i].1.copy()));
                    i = i + 1;
                }
                proof {
                    object_view(*v);
                    object_view(out);
                    assert(field_views(out@) == field_views(v@));
                }
                Json::Object(out)
            },
        }
    }

    /// The value under a name, where this is an object that has it.
    #[must_use]
    pub fn get(&self, name: &str) -> (r: Option<&Json>)
        ensures
            match r {
                Some(v) => self@.get(name@) == Some(v@),
                None => self@.get(name@) is None,
            },
    {
        match self {
            Json::Object(v) => {
                proof {
                    object_view(*v);
                }
                find_field(v, name)
            },
            _ => None,
        }
    }

    /// The text, where this is a string.
    #[must_use]
    pub fn as_str(&self) -> (r: Option<&str>)
        ensures
            match r {
                Some(s) => self@.as_str() == Some(s@),
                None => self@.as_str() is None,
            },
    {
        match self {
            Json::Text(s) => Some(s.as_str()),
            _ => None,
        }
    }

    /// The text under a name, where this is an object that has a string there.
    #[must_use]
    pub fn get_str(&self, name: &str) -> (r: Option<&str>)
        ensures
            match r {
                Some(s) => self@.get_str(name@) == Some(s@),
                None => self@.get_str(name@) is None,
            },
    {
        match self.get(name) {
            Some(v) => v.as_str(),
            None => None,
        }
    }

    /// The flag, where this is `true` or `false`.
    #[must_use]
    pub fn as_bool(&self) -> (r: Option<bool>)
        ensures
            r == (match self@ {
                JsonView::Bool(b) => Some(b),
                _ => None,
            }),
    {
        match self {
            Json::Bool(b) => Some(*b),
            _ => None,
        }
    }

    /// The integer, where this is a number that 64 signed bits hold.
    #[must_use]
    pub fn as_i64(&self) -> (r: Option<i64>)
        ensures
            r == self@.as_i64(),
    {
        match self {
            Json::Number(Number::PosInt(n)) => {
                if *n <= i64::MAX as u64 {
                    Some(*n as i64)
                } else {
                    None
                }
            },
            Json::Number(Number::NegInt(n)) => Some(*n),
            _ => None,
        }
    }

    /// The values, where this is a list.
    #[must_use]
    pub fn as_array(&self) -> (r: Option<&Vec<Json>>)
        ensures
            match r {
                Some(v) => self@ == JsonView::Array(json_views(v@)),
                None => !(self@ is Array),
            },
    {
        match self {
            Json::Array(v) => {
                proof {
                    array_view(*v);
                }
                Some(v)
            },
            _ => None,
        }
    }

    /// The fields, where this is an object.
    #[must_use]
    pub fn as_object(&self) -> (r: Option<&Vec<(String, Json)>>)
        ensures
            match r {
                Some(v) => self@ == JsonView::Object(field_views(v@)),
                None => !(self@ is Object),
            },
    {
        match self {
            Json::Object(v) => {
                proof {
                    object_view(*v);
                }
                Some(v)
            },
            _ => None,
        }
    }

    /// Whether the value is `null`.
    #[must_use]
    pub fn is_null(&self) -> (r: bool)
        ensures
            r == (self@ is Null),
    {
        matches!(self, Json::Null)
    }

    /// A string.
    pub fn text(s: &str) -> (r: Json)
        ensures
            r@ == JsonView::Text(s@),
    {
        Json::Text(s.to_owned())
    }

    /// An integer that is not negative.
    pub fn natural(n: u64) -> (r: Json)
        ensures
            r@ == uint_view(n),
    {
        Json::Number(Number::PosInt(n))
    }

    /// An integer.
    pub fn integer(n: i64) -> (r: Json)
        ensures
            r@ == int_view(n),
    {
        if n < 0 {
            Json::Number(Number::NegInt(n))
        } else {
            Json::Number(Number::PosInt(n as u64))
        }
    }

    /// A list.
    pub fn array(items: Vec<Json>) -> (r: Json)
        ensures
            r@ == JsonView::Array(json_views(items@)),
    {
        proof {
            array_view(items);
        }
        Json::Array(items)
    }

    /// An object with these fields.
    pub fn object(fields: Vec<(String, Json)>) -> (r: Json)
        ensures
            r@ == JsonView::Object(field_views(fields@)),
    {
        proof {
            object_view(fields);
        }
        Json::Object(fields)
    }
}

/// Copies of some values.
pub(crate) fn copy_all(items: &Vec<Json>) -> (r: Vec<Json>)
    ensures
        json_views(r@) == json_views(items@),
{
    let mut out: Vec<Json> = Vec::new();
    let mut i: usize = 0;
    while i < items.len()
        invariant
            i <= items@.len(),
            out@.len() == i,
            forall|j: int| 0 <= j < i ==> (#[trigger] out@[j])@ == items@[j]@,
        decreases items@.len() - i,
    {
        out.push(items[i].copy());
        i = i + 1;
    }
    assert(json_views(out@) == json_views(items@));
    out
}

/// An integer that is not negative.
pub open spec fn uint_view(n: u64) -> JsonView {
    JsonView::Number(NumberView::PosInt(n))
}

/// An integer.
pub open spec fn int_view(n: i64) -> JsonView {
    if n < 0 {
        JsonView::Number(NumberView::NegInt(n))
    } else {
        JsonView::Number(NumberView::PosInt(n as u64))
    }
}

/// The field list of an object under construction.
pub fn fields() -> (r: Vec<(String, Json)>)
    ensures
        field_views(r@) == Seq::<(Seq<char>, JsonView)>::empty(),
{
    let r: Vec<(String, Json)> = Vec::new();
    assert(field_views(r@) == Seq::<(Seq<char>, JsonView)>::empty());
    r
}

/// Set a field, in its place.
pub fn put(fields: &mut Vec<(String, Json)>, name: &str, value: Json)
    ensures
        field_views(final(fields)@) == with_field(field_views(old(fields)@), name@, value@),
{
    let ghost all = field_views(fields@);
    let mut i: usize = 0;
    assert(all.skip(0) == all);
    while i < fields.len()
        invariant
            i <= fields@.len(),
            all == field_views(fields@),
            all == field_views(old(fields)@),
            with_field(all, name@, value@) == all.take(i as int) + with_field(all.skip(i as int), name@, value@),
        decreases fields@.len() - i,
    {
        let ghost rest = all.skip(i as int);
        assert(rest[0] == all[i as int]);
        assert(rest.drop_first() == all.skip(i + 1));
        if comes_before(name, fields[i].0.as_str()) {
            fields.insert(i, (name.to_owned(), value));
            assert(field_views(fields@) == all.take(i as int) + (seq![(name@, value@)] + rest));
            return;
        }
        if same_text(fields[i].0.as_str(), name) {
            fields.set(i, (name.to_owned(), value));
            assert(field_views(fields@) == all.take(i as int) + (seq![(name@, value@)] + rest.drop_first()));
            return;
        }
        proof {
            assert(all.take(i as int) + (seq![rest[0]] + with_field(rest.drop_first(), name@, value@))
                == all.take(i + 1) + with_field(all.skip(i + 1), name@, value@));
        }
        i = i + 1;
    }
    fields.push((name.to_owned(), value));
    assert(field_views(fields@) == all + seq![(name@, value@)]);
    assert(all.skip(i as int).len() == 0);
    assert(all.take(i as int) == all);
    assert(seq![(name@, value@)] + all.skip(i as int) == seq![(name@, value@)]);
}

fn find_field<'a>(v: &'a Vec<(String, Json)>, name: &str) -> (r: Option<&'a Json>)
    ensures
        match r {
            Some(j) => field(field_views(v@), name@) == Some(j@),
            None => field(field_views(v@), name@) is None,
        },
{
    let ghost all = field_views(v@);
    let mut i: usize = 0;
    assert(all.skip(0) == all);
    while i < v.len()
        invariant
            i <= v@.len(),
            all == field_views(v@),
            field(all, name@) == field(all.skip(i as int), name@),
        decreases v@.len() - i,
    {
        assert(all.skip(i as int)[0] == all[i as int]);
        assert(all.skip(i as int).drop_first() == all.skip(i + 1));
        if same_text(v[i].0.as_str(), name) {
            return Some(&v[i].1);
        }
        i = i + 1;
    }
    assert(all.skip(i as int).len() == 0);
    None
}

/// Setting a field keeps the names in order.
pub proof fn fields_stay_sorted(fields: Seq<(Seq<char>, JsonView)>, name: Seq<char>, value: JsonView)
    requires
        fields_sorted(fields),
    ensures
        fields_sorted(with_field(fields, name, value)),
        field(with_field(fields, name, value), name) == Some(value),
        forall|k: int|
            0 <= k < with_field(fields, name, value).len() ==> (#[trigger] with_field(fields, name, value)[k]).0 == name
                || exists|m: int| 0 <= m < fields.len() && (#[trigger] fields[m]).0 == with_field(fields, name, value)[k].0,
    decreases fields.len(),
{
    let out = with_field(fields, name, value);
    if fields.len() == 0 {
        assert(out =~= seq![(name, value)]);
    } else if text_before(name, fields[0].0) {
        assert forall|i: int, j: int| 0 <= i < j < out.len() implies text_before((#[trigger] out[i]).0, (#[trigger] out[j]).0) by {
            if i == 0 {
                if j > 1 {
                    assert(text_before(fields[0].0, fields[j - 1].0));
                    text_order_is_transitive(name, fields[0].0, fields[j - 1].0);
                }
            } else {
                assert(text_before(fields[i - 1].0, fields[j - 1].0));
            }
        }
        assert forall|k: int| 0 <= k < out.len() implies (#[trigger] out[k]).0 == name || exists|m: int| 0 <= m < fields.len() && (#[trigger] fields[m]).0 == out[k].0 by {
            if k > 0 {
                assert(fields[k - 1].0 == out[k].0);
            }
        }
    } else if fields[0].0 == name {
        assert forall|i: int, j: int| 0 <= i < j < out.len() implies text_before((#[trigger] out[i]).0, (#[trigger] out[j]).0) by {
            assert(out[i].0 == fields[i].0 && out[j].0 == fields[j].0);
            assert(text_before(fields[i].0, fields[j].0));
        }
        assert forall|k: int| 0 <= k < out.len() implies (#[trigger] out[k]).0 == name || exists|m: int| 0 <= m < fields.len() && (#[trigger] fields[m]).0 == out[k].0 by {
            assert(fields[k].0 == out[k].0);
        }
    } else {
        let rest = fields.drop_first();
        assert forall|i: int, j: int| 0 <= i < j < rest.len() implies text_before((#[trigger] rest[i]).0, (#[trigger] rest[j]).0) by {
            assert(text_before(fields[i + 1].0, fields[j + 1].0));
        }
        fields_stay_sorted(rest, name, value);
        let tail = with_field(rest, name, value);
        text_order_is_total(name, fields[0].0);
        assert forall|i: int, j: int| 0 <= i < j < out.len() implies text_before((#[trigger] out[i]).0, (#[trigger] out[j]).0) by {
            assert(out[j] == tail[j - 1]);
            if i == 0 {
                if tail[j - 1].0 != name {
                    let m = choose|m: int| 0 <= m < rest.len() && (#[trigger] rest[m]).0 == tail[j - 1].0;
                    assert(text_before(fields[0].0, fields[m + 1].0));
                }
            } else {
                assert(out[i] == tail[i - 1]);
            }
        }
        assert forall|k: int| 0 <= k < out.len() implies (#[trigger] out[k]).0 == name || exists|m: int| 0 <= m < fields.len() && (#[trigger] fields[m]).0 == out[k].0 by {
            if k == 0 {
                assert(fields[0].0 == out[0].0);
            } else {
                assert(out[k] == tail[k - 1]);
                if tail[k - 1].0 != name {
                    let m = choose|m: int| 0 <= m < rest.len() && (#[trigger] rest[m]).0 == tail[k - 1].0;
                    assert(fields[m + 1].0 == out[k].0);
                }
            }
        }
        assert(out.drop_first() =~= tail);
    }
}

/// A character inside a JSON string: quotes, backslashes and control characters are escaped.
pub open spec fn escaped(c: char) -> Seq<char> {
    if c == '"' || c == '\\' {
        seq!['\\', c]
    } else if c == '\u{8}' {
        seq!['\\', 'b']
    } else if c == '\t' {
        seq!['\\', 't']
    } else if c == '\n' {
        seq!['\\', 'n']
    } else if c == '\u{c}' {
        seq!['\\', 'f']
    } else if c == '\r' {
        seq!['\\', 'r']
    } else if (c as u32) < 0x20 {
        seq!['\\', 'u', '0', '0'] + hex_byte(c as u8)
    } else {
        seq![c]
    }
}

/// A text inside a JSON string.
pub open spec fn escaped_text(s: Seq<char>) -> Seq<char>
    decreases s.len(),
{
    if s.len() == 0 {
        Seq::empty()
    } else {
        escaped_text(s.drop_last()) + escaped(s.last())
    }
}

/// A text as a JSON string, in quotes and escaped.
pub open spec fn json_quoted(s: Seq<char>) -> Seq<char> {
    seq!['"'] + escaped_text(s) + seq!['"']
}

/// `serde_json::to_string` on a string slice: the text in double quotes, with a backslash before
/// quotes and backslashes, the short escapes for backspace, tab, line feed, form feed and carriage
/// return, and `\u00` with two lowercase hexadecimal digits for the other control characters below
/// the space. Writing a string into a string does not fail.
#[verifier::external_body]
fn quoted(s: &str) -> (r: String)
    ensures
        r@ == json_quoted(s@),
{
    serde_json::to_string(s).unwrap_or_default()
}

/// A JSON value as compact text: no spaces, fields in order.
pub open spec fn render(j: JsonView) -> Seq<char>
    decreases j, 0nat,
{
    match j {
        JsonView::Null => "null"@,
        JsonView::Bool(b) => if b {
            "true"@
        } else {
            "false"@
        },
        JsonView::Number(NumberView::PosInt(n)) => dec(n as nat),
        JsonView::Number(NumberView::NegInt(n)) => signed_dec(n as int),
        JsonView::Number(NumberView::Float(s)) => s,
        JsonView::Text(s) => json_quoted(s),
        JsonView::Array(items) => "["@ + render_items(items, items.len()) + "]"@,
        JsonView::Object(fields) => "{"@ + render_fields(fields, fields.len()) + "}"@,
    }
}

/// The first `n` values of a list, with commas between them.
pub open spec fn render_items(items: Seq<JsonView>, n: nat) -> Seq<char>
    decreases items, n,
{
    if n == 0 || n > items.len() {
        Seq::empty()
    } else if n == 1 {
        render(items[0])
    } else {
        render_items(items, (n - 1) as nat) + ","@ + render(items[n - 1])
    }
}

/// The first `n` fields of an object, with commas between them.
pub open spec fn render_fields(fields: Seq<(Seq<char>, JsonView)>, n: nat) -> Seq<char>
    decreases fields, n,
{
    if n == 0 || n > fields.len() {
        Seq::empty()
    } else if n == 1 {
        json_quoted(fields[0].0) + ":"@ + render(fields[0].1)
    } else {
        render_fields(fields, (n - 1) as nat) + ","@ + (json_quoted(fields[n - 1].0) + ":"@
            + render(fields[n - 1].1))
    }
}

impl Json {
    /// The value as compact JSON text.
    #[must_use]
    pub fn to_string(&self) -> (r: String)
        ensures
            r@ == render(self@),
        decreases *self,
    {
        match self {
            Json::Null => "null".to_owned(),
            Json::Bool(b) => {
                if *b {
                    "true".to_owned()
                } else {
                    "false".to_owned()
                }
            },
            Json::Number(Number::PosInt(n)) => {
                let mut s = String::new();
                push_decimal(&mut s, *n);
                assert(s@ == dec(*n as nat));
                s
            },
            Json::Number(Number::NegInt(n)) => signed_decimal(*n),
            Json::Number(Number::Float(s)) => s.clone(),
            Json::Text(s) => quoted(s.as_str()),
            Json::Array(v) => {
                proof {
                    array_view(*v);
                }
                let mut s = "[".to_owned();
                let ghost items = json_views(v@);
                let mut i: usize = 0;
                while i < v.len()
                    invariant
                        i <= v@.len(),
                        *self == Json::Array(*v),
                        items == json_views(v@),
                        s@ == "["@ + render_items(items, i as nat),
                    decreases v@.len() - i,
                {
                    if i > 0 {
                        s.push_str(",");
                    }
                    proof {
                        elements_are_smaller(*self, *v, i as int);
                    }
                    let item = v[i].to_string();
                    s.push_str(item.as_str());
                    assert(item@ == render(items[i as int]));
                    assert(s@ == "["@ + render_items(items, (i + 1) as nat));
                    i = i + 1;
                }
                s.push_str("]");
                s
            },
            Json::Object(v) => {
                proof {
                    object_view(*v);
                }
                let mut s = "{".to_owned();
                let ghost fs = field_views(v@);
                let mut i: usize = 0;
                while i < v.len()
                    invariant
                        i <= v@.len(),
                        *self == Json::Object(*v),
                        fs == field_views(v@),
                        s@ == "{"@ + render_fields(fs, i as nat),
                    decreases v@.len() - i,
                {
                    let ghost before = s@;
                    if i > 0 {
                        s.push_str(",");
                    }
                    let name = quoted(v[i].0.as_str());
                    proof {
                        field_values_are_smaller(*self, *v, i as int);
                    }
                    let value = v[i].1.to_string();
                    s.push_str(name.as_str());
                    s.push_str(":");
                    s.push_str(value.as_str());
                    assert(name@ == json_quoted(fs[i as int].0));
                    assert(value@ == render(fs[i as int].1));
                    assert(s@ == "{"@ + render_fields(fs, (i + 1) as nat));
                    i = i + 1;
                }
                s.push_str("}");
                s
            },
        }
    }
}

/// Whether a text holds no line break.
pub open spec fn unbroken(s: Seq<char>) -> bool {
    forall|i: int| 0 <= i < s.len() ==> (#[trigger] s[i]) != '\n' && s[i] != '\r'
}

/// Whether no number in a value is written with a line break, as no number is.
pub open spec fn numbers_unbroken(j: JsonView) -> bool
    decreases j,
{
    match j {
        JsonView::Number(NumberView::Float(s)) => unbroken(s),
        JsonView::Array(items) => forall|i: int|
            0 <= i < items.len() ==> numbers_unbroken(#[trigger] items[i]),
        JsonView::Object(fields) => forall|i: int|
            0 <= i < fields.len() ==> numbers_unbroken((#[trigger] fields[i]).1),
        _ => true,
    }
}

proof fn decimals_are_unbroken(n: nat)
    ensures
        unbroken(dec(n)),
    decreases n,
{
    if n >= 10 {
        decimals_are_unbroken(n / 10);
    }
}

proof fn quoted_texts_are_unbroken(s: Seq<char>)
    ensures
        unbroken(json_quoted(s)),
        unbroken(escaped_text(s)),
    decreases s.len(),
{
    if s.len() > 0 {
        quoted_texts_are_unbroken(s.drop_last());
        let c = s.last();
        assert(unbroken(escaped(c)));
    }
}

proof fn literals_are_unbroken()
    ensures
        unbroken("null"@),
        unbroken("true"@),
        unbroken("false"@),
        unbroken("["@),
        unbroken("]"@),
        unbroken("{"@),
        unbroken("}"@),
        unbroken(","@),
        unbroken(":"@),
{
    reveal_strlit("null");
    reveal_strlit("true");
    reveal_strlit("false");
    reveal_strlit("[");
    reveal_strlit("]");
    reveal_strlit("{");
    reveal_strlit("}");
    reveal_strlit(",");
    reveal_strlit(":");
}

/// The compact text of a value stands on one line, whatever its texts hold.
pub proof fn documents_stand_on_one_line(j: JsonView)
    requires
        numbers_unbroken(j),
    ensures
        unbroken(render(j)),
    decreases j, 0nat,
{
    literals_are_unbroken();
    match j {
        JsonView::Number(NumberView::PosInt(n)) => decimals_are_unbroken(n as nat),
        JsonView::Number(NumberView::NegInt(n)) => {
            if n < 0 {
                decimals_are_unbroken((-n) as nat);
            } else {
                decimals_are_unbroken(n as nat);
            }
        },
        JsonView::Text(s) => quoted_texts_are_unbroken(s),
        JsonView::Array(items) => items_stand_on_one_line(items, items.len()),
        JsonView::Object(fields) => fields_stand_on_one_line(fields, fields.len()),
        _ => {},
    }
}

proof fn items_stand_on_one_line(items: Seq<JsonView>, n: nat)
    requires
        forall|i: int| 0 <= i < items.len() ==> numbers_unbroken(#[trigger] items[i]),
    ensures
        unbroken(render_items(items, n)),
    decreases items, n,
{
    literals_are_unbroken();
    if n > 0 && n <= items.len() {
        documents_stand_on_one_line(items[n - 1]);
        items_stand_on_one_line(items, (n - 1) as nat);
    }
}

proof fn fields_stand_on_one_line(fields: Seq<(Seq<char>, JsonView)>, n: nat)
    requires
        forall|i: int| 0 <= i < fields.len() ==> numbers_unbroken((#[trigger] fields[i]).1),
    ensures
        unbroken(render_fields(fields, n)),
    decreases fields, n,
{
    literals_are_unbroken();
    if n > 0 && n <= fields.len() {
        documents_stand_on_one_line(fields[n - 1].1);
        quoted_texts_are_unbroken(fields[n - 1].0);
        fields_stand_on_one_line(fields, (n - 1) as nat);
    }
}

/// A JSON value as it is shown for debugging.
pub open spec fn json_debug(j: JsonView) -> Seq<char>
    decreases j, 0nat,
{
    match j {
        JsonView::Null => "Null"@,
        JsonView::Bool(b) => if b {
            "Bool(true)"@
        } else {
            "Bool(false)"@
        },
        JsonView::Number(NumberView::PosInt(n)) => "Number("@ + dec(n as nat) + ")"@,
        JsonView::Number(NumberView::NegInt(n)) => "Number("@ + signed_dec(n as int) + ")"@,
        JsonView::Number(NumberView::Float(s)) => "Number("@ + s + ")"@,
        JsonView::Text(s) => "String("@ + debug_quoted(s) + ")"@,
        JsonView::Array(items) => "Array ["@ + debug_items(items, items.len()) + "]"@,
        JsonView::Object(fields) => "Object {"@ + debug_fields(fields, fields.len()) + "}"@,
    }
}

/// The first `n` values of a list as they are shown for debugging.
pub open spec fn debug_items(items: Seq<JsonView>, n: nat) -> Seq<char>
    decreases items, n,
{
    if n == 0 || n > items.len() {
        Seq::empty()
    } else if n == 1 {
        json_debug(items[0])
    } else {
        debug_items(items, (n - 1) as nat) + ", "@ + json_debug(items[n - 1])
    }
}

/// The first `n` fields of an object as they are shown for debugging.
pub open spec fn debug_fields(fields: Seq<(Seq<char>, JsonView)>, n: nat) -> Seq<char>
    decreases fields, n,
{
    if n == 0 || n > fields.len() {
        Seq::empty()
    } else if n == 1 {
        debug_quoted(fields[0].0) + ": "@ + json_debug(fields[0].1)
    } else {
        debug_fields(fields, (n - 1) as nat) + ", "@ + (debug_quoted(fields[n - 1].0) + ": "@
            + json_debug(fields[n - 1].1))
    }
}

fn wrapped(text: &str) -> (r: String)
    ensures
        r@ == "Number("@ + text@ + ")"@,
{
    let mut s = "Number(".to_owned();
    s.push_str(text);
    s.push_str(")");
    s
}

impl Json {
    /// The value as it is shown for debugging.
    #[must_use]
    pub fn debug_text(&self) -> (r: String)
        ensures
            r@ == json_debug(self@),
        decreases *self,
    {
        match self {
            Json::Null => "Null".to_owned(),
            Json::Bool(b) => {
                if *b {
                    "Bool(true)".to_owned()
                } else {
                    "Bool(false)".to_owned()
                }
            },
            Json::Number(Number::PosInt(n)) => wrapped(decimal(*n).as_str()),
            Json::Number(Number::NegInt(n)) => wrapped(signed_decimal(*n).as_str()),
            Json::Number(Number::Float(s)) => wrapped(s.as_str()),
            Json::Text(s) => {
                let mut out = "String(".to_owned();
                out.push_str(quote_debug(s.as_str()).as_str());
                out.push_str(")");
                out
            },
            Json::Array(v) => {
                proof {
                    array_view(*v);
                }
                let mut s = "Array [".to_owned();
                let ghost items = json_views(v@);
                let mut i: usize = 0;
                while i < v.len()
                    invariant
                        i <= v@.len(),
                        *self == Json::Array(*v),
                        items == json_views(v@),
                        s@ == "Array ["@ + debug_items(items, i as nat),
                    decreases v@.len() - i,
                {
                    if i > 0 {
                        s.push_str(", ");
                    }
                    proof {
                        elements_are_smaller(*self, *v, i as int);
                    }
                    let item = v[i].debug_text();
                    s.push_str(item.as_str());
                    assert(item@ == json_debug(items[i as int]));
                    assert(s@ == "Array ["@ + debug_items(items, (i + 1) as nat));
                    i = i + 1;
                }
                s.push_str("]");
                s
            },
            Json::Object(v) => {
                proof {
                    object_view(*v);
                }
                let mut s = "Object {".to_owned();
                let ghost fs = field_views(v@);
                let mut i: usize = 0;
                while i < v.len()
                    invariant
                        i <= v@.len(),
                        *self == Json::Object(*v),
                        fs == field_views(v@),
                        s@ == "Object {"@ + debug_fields(fs, i as nat),
                    decreases v@.len() - i,
                {
                    if i > 0 {
                        s.push_str(", ");
                    }
                    let name = quote_debug(v[i].0.as_str());
                    proof {
                        field_values_are_smaller(*self, *v, i as int);
                    }
                    let value = v[i].1.debug_text();
                    s.push_str(name.as_str());
                    s.push_str(": ");
                    s.push_str(value.as_str());
                    assert(name@ == debug_quoted(fs[i as int].0));
                    assert(value@ == json_debug(fs[i as int].1));
                    assert(s@ == "Object {"@ + debug_fields(fs, (i + 1) as nat));
                    i = i + 1;
                }
                s.push_str("}");
                s
            },
        }
    }
}

/// An object with one more field, or with another value for one that is there. Nothing at all
/// counts as an object without fields.
pub open spec fn json_with(j: JsonView, name: Seq<char>, value: JsonView) -> JsonView {
    match j {
        JsonView::Object(fields) => JsonView::Object(with_field(fields, name, value)),
        _ => JsonView::Object(with_field(Seq::empty(), name, value)),
    }
}

impl Json {
    /// Set a field of an object. `null` becomes an object with that field.
    pub fn with(self, name: &str, value: Json) -> (r: Json)
        requires
            self@ is Object || self@ is Null,
        ensures
            r@ == json_with(self@, name@, value@),
    {
        let mut fs: Vec<(String, Json)> = match self {
            Json::Object(v) => {
                proof {
                    object_view(v);
                }
                v
            },
            _ => fields(),
        };
        put(&mut fs, name, value);
        Json::object(fs)
    }

    /// An object without fields.
    pub fn empty() -> (r: Json)
        ensures
            r@ == no_fields(),
    {
        Json::object(fields())
    }

    /// `true` or `false`.
    pub fn flag(b: bool) -> (r: Json)
        ensures
            r@ == JsonView::Bool(b),
    {
        Json::Bool(b)
    }
}

/// An object without fields.
pub open spec fn no_fields() -> JsonView {
    JsonView::Object(Seq::empty())
}

/// A list of one value.
pub fn one_item(value: Json) -> (r: Json)
    ensures
        r@ == JsonView::Array(seq![value@]),
{
    let items: Vec<Json> = vec![value];
    assert(json_views(items@) == seq![value@]);
    Json::array(items)
}

/// A list of strings.
pub fn text_items(items: &Vec<String>) -> (r: Json)
    ensures
        r@ == JsonView::Array(
            Seq::new(texts(items@).len(), |i: int| JsonView::Text(texts(items@)[i])),
        ),
{
    let mut out: Vec<Json> = Vec::new();
    let mut i: usize = 0;
    while i < items.len()
        invariant
            i <= items@.len(),
            out@.len() == i,
            forall|j: int| 0 <= j < i ==> (#[trigger] out@[j])@ == JsonView::Text(items@[j]@),
        decreases items@.len() - i,
    {
        out.push(Json::text(items[i].as_str()));
        i = i + 1;
    }
    assert(json_views(out@) == Seq::new(
        texts(items@).len(),
        |i: int| JsonView::Text(texts(items@)[i]),
    ));
    Json::array(out)
}

/// A field that is set reads back as what it was set to, and every other field as it was.
pub broadcast proof fn a_field_that_is_set_reads_back(
    j: JsonView,
    name: Seq<char>,
    value: JsonView,
    other: Seq<char>,
)
    requires
        j is Object,
    ensures
        #[trigger] json_with(j, name, value).get(other) == (if other == name {
            Some(value)
        } else {
            j.get(other)
        }),
{
    set_field_is_found(j->Object_0, name, value, other);
}

/// An integer keeps its value and its sign.
pub proof fn integers_keep_their_value(n: i64, m: u64)
    ensures
        int_view(n).as_i64() == Some(n),
        uint_view(m) == JsonView::Number(NumberView::PosInt(m)),
        m <= i64::MAX ==> uint_view(m).as_i64() == Some(m as i64),
{
}

/// The texts of the items of a list.
pub open spec fn item_texts(items: Seq<JsonView>) -> Seq<Seq<char>> {
    Seq::new(items.len(), |i: int| render(items[i]))
}

/// The texts of the fields of an object, each its quoted name and its value.
pub open spec fn field_texts(fields: Seq<(Seq<char>, JsonView)>) -> Seq<Seq<char>> {
    Seq::new(fields.len(), |i: int| json_quoted(fields[i].0) + ":"@ + render(fields[i].1))
}

/// A list is written as all of its items between brackets, and an object as all of its fields
/// between braces, with commas between them. A different item or field makes a different text.
pub proof fn documents_are_written_out(
    items: Seq<JsonView>,
    fields: Seq<(Seq<char>, JsonView)>,
    k: int,
    item: JsonView,
)
    ensures
        render(JsonView::Array(items)) == "["@ + joined(item_texts(items), ","@) + "]"@,
        render(JsonView::Object(fields)) == "{"@ + joined(field_texts(fields), ","@) + "}"@,
        0 <= k < items.len() ==> mentions(render(JsonView::Array(items)), render(items[k])),
        0 <= k < items.len() && render(items[k]) != render(item) ==> render(JsonView::Array(items))
            != render(JsonView::Array(items.update(k, item))),
        0 <= k < fields.len() ==> mentions(render(JsonView::Object(fields)), json_quoted(fields[k].0))
            && mentions(render(JsonView::Object(fields)), render(fields[k].1)),
        0 <= k < fields.len() && render(fields[k].1) != render(item) ==> render(
            JsonView::Object(fields),
        ) != render(JsonView::Object(fields.update(k, (fields[k].0, item)))),
{
    broadcast use group_mentions;

    items_are_joined(items, items.len());
    fields_are_joined(fields, fields.len());
    assert(item_texts(items).take(items.len() as int) == item_texts(items));
    assert(field_texts(fields).take(fields.len() as int) == field_texts(fields));
    if 0 <= k < items.len() {
        let changed = items.update(k, item);
        items_are_joined(changed, changed.len());
        assert(item_texts(changed).take(changed.len() as int) == item_texts(changed));
        assert(item_texts(changed) == item_texts(items).update(k, render(item)));
        joining_keeps_every_part(item_texts(items), ","@, k, render(item));
        if render(items[k]) != render(item) {
            middle_counts(
                "["@,
                joined(item_texts(items), ","@),
                joined(item_texts(changed), ","@),
                "]"@,
            );
        }
    }
    if 0 <= k < fields.len() {
        let changed = fields.update(k, (fields[k].0, item));
        let was = field_texts(fields)[k];
        let is = json_quoted(fields[k].0) + ":"@ + render(item);
        fields_are_joined(changed, changed.len());
        assert(field_texts(changed).take(changed.len() as int) == field_texts(changed));
        assert(field_texts(changed) == field_texts(fields).update(k, is));
        joining_keeps_every_part(field_texts(fields), ","@, k, is);
        let all = joined(field_texts(fields), ","@);
        assert(mentions(was, json_quoted(fields[k].0)) && mentions(was, render(fields[k].1)));
        mentioning_is_transitive(all, was, json_quoted(fields[k].0));
        mentioning_is_transitive(all, was, render(fields[k].1));
        if render(fields[k].1) != render(item) {
            let none = Seq::<char>::empty();
            middle_counts(
                json_quoted(fields[k].0) + ":"@,
                render(fields[k].1),
                render(item),
                none,
            );
            assert(json_quoted(fields[k].0) + ":"@ + render(fields[k].1) + none == was);
            assert(json_quoted(fields[k].0) + ":"@ + render(item) + none == is);
            middle_counts("{"@, all, joined(field_texts(changed), ","@), "}"@);
        }
    }
}

proof fn items_are_joined(items: Seq<JsonView>, n: nat)
    requires
        n <= items.len(),
    ensures
        render_items(items, n) == joined(item_texts(items).take(n as int), ","@),
    decreases n,
{
    let some = item_texts(items).take(n as int);
    if n > 1 {
        items_are_joined(items, (n - 1) as nat);
        assert(some.drop_last() == item_texts(items).take(n - 1));
    }
}

proof fn fields_are_joined(fields: Seq<(Seq<char>, JsonView)>, n: nat)
    requires
        n <= fields.len(),
    ensures
        render_fields(fields, n) == joined(field_texts(fields).take(n as int), ","@),
    decreases n,
{
    let some = field_texts(fields).take(n as int);
    if n > 1 {
        fields_are_joined(fields, (n - 1) as nat);
        assert(some.drop_last() == field_texts(fields).take(n - 1));
    }
}

/// Texts are told apart however they are escaped: two different texts are never written alike.
pub proof fn quoted_texts_are_told_apart(a: Seq<char>, b: Seq<char>)
    requires
        a != b,
    ensures
        json_quoted(a) != json_quoted(b),
        render(JsonView::Text(a)) != render(JsonView::Text(b)),
{
    if escaped_text(a) == escaped_text(b) {
        escapes_are_told_apart(a, b);
    }
    middle_counts(seq!['"'], escaped_text(a), escaped_text(b), seq!['"']);
}

proof fn escapes_are_told_apart(a: Seq<char>, b: Seq<char>)
    requires
        escaped_text(a) == escaped_text(b),
    ensures
        a == b,
    decreases a.len(),
{
    if a.len() == 0 {
        if b.len() > 0 {
            assert(escaped_text(b).len() > 0);
        }
        assert(a == b);
    } else if b.len() == 0 {
        assert(escaped_text(a).len() > 0);
    } else {
        let s = a.drop_first();
        let t = b.drop_first();
        escapes_add_up(seq![a[0]], s);
        escapes_add_up(seq![b[0]], t);
        assert(seq![a[0]] + s == a);
        assert(seq![b[0]] + t == b);
        one_escape(a[0]);
        one_escape(b[0]);
        first_escapes_agree(a[0], escaped_text(s), b[0], escaped_text(t));
        let n = escaped(a[0]).len() as int;
        assert((escaped(a[0]) + escaped_text(s)).skip(n) == escaped_text(s));
        assert((escaped(b[0]) + escaped_text(t)).skip(n) == escaped_text(t));
        escapes_are_told_apart(s, t);
    }
}

proof fn one_escape(c: char)
    ensures
        escaped_text(seq![c]) == escaped(c),
{
    reveal_with_fuel(escaped_text, 2);
    assert(seq![c].drop_last() == Seq::<char>::empty());
}

proof fn escapes_add_up(a: Seq<char>, b: Seq<char>)
    ensures
        escaped_text(a + b) == escaped_text(a) + escaped_text(b),
    decreases b.len(),
{
    if b.len() == 0 {
        assert(a + b == a);
    } else {
        escapes_add_up(a, b.drop_last());
        assert((a + b).drop_last() == a + b.drop_last());
        assert((a + b).last() == b.last());
    }
}

proof fn first_escapes_agree(x: char, s: Seq<char>, y: char, t: Seq<char>)
    requires
        escaped(x) + s == escaped(y) + t,
    ensures
        x == y,
{
    let all = escaped(x) + s;
    let p = escaped(x);
    let q = escaped(y);
    assert(p.len() > 0 && q.len() > 0);
    assert(all[0] == p[0] && all[0] == q[0]);
    if p.len() > 1 && q.len() > 1 {
        assert(all[1] == p[1] && all[1] == q[1]);
        if p.len() > 2 && q.len() > 2 {
            assert(all[4] == p[4] && all[4] == q[4]);
            assert(all[5] == p[5] && all[5] == q[5]);
            let m = x as u8;
            let n = y as u8;
            assert(p[4] == hex_digit((m / 16) as nat) && p[5] == hex_digit((m % 16) as nat));
            assert(q[4] == hex_digit((n / 16) as nat) && q[5] == hex_digit((n % 16) as nat));
            assert(m == 16 * (m / 16) + m % 16);
            assert(n == 16 * (n / 16) + n % 16);
        }
    }
}

/// A field is found by its name, and nothing is found under a name that no field has.
pub proof fn fields_are_found_by_name(fields: Seq<(Seq<char>, JsonView)>, name: Seq<char>)
    ensures
        JsonView::Object(fields).get(name) is Some <==> exists|i: int|
            0 <= i < fields.len() && (#[trigger] fields[i]).0 == name,
        JsonView::Object(fields).get(name) matches Some(value) ==> fields.contains((name, value)),
    decreases fields.len(),
{
    if fields.len() > 0 {
        let rest = fields.drop_first();
        fields_are_found_by_name(rest, name);
        if fields[0].0 == name {
            assert(fields[0] == (name, fields[0].1));
        } else {
            if exists|i: int| 0 <= i < fields.len() && (#[trigger] fields[i]).0 == name {
                let i = choose|i: int| 0 <= i < fields.len() && (#[trigger] fields[i]).0 == name;
                assert(rest[i - 1] == fields[i]);
            }
            if exists|i: int| 0 <= i < rest.len() && (#[trigger] rest[i]).0 == name {
                let i = choose|i: int| 0 <= i < rest.len() && (#[trigger] rest[i]).0 == name;
                assert(fields[i + 1] == rest[i]);
            }
            if field(rest, name) is Some {
                let pair = (name, field(rest, name)->0);
                let i = choose|i: int| 0 <= i < rest.len() && rest[i] == pair;
                assert(fields[i + 1] == pair);
            }
        }
    }
}

} // verus!
