//! JSON documents: values of `serde_json` with a mathematical model, and the
//! writing of compact JSON text.

use serde_json::Value;
use vstd::prelude::*;
use vstd::string::*;

use crate::number;
use crate::text;

verus! {

// ---------------------------------------------------------------------------
// The model
// ---------------------------------------------------------------------------

/// A JSON value. A number that is neither a `u64` nor an `i64` is known by its
/// text alone.
pub enum Json {
    Null,
    Bool(bool),
    Unsigned(u64),
    Negative(i64),
    Float(Seq<char>),
    Text(Seq<char>),
    Array(Seq<Json>),
    Object(Map<Seq<char>, Json>),
}

/// Whether a value holds no floating-point number and nests at most `depth`
/// arrays and objects.
pub open spec fn plain(j: Json, depth: nat) -> bool
    decreases depth,
{
    match j {
        Json::Float(_) => false,
        Json::Array(items) => depth > 0 && forall|i: int|
            0 <= i < items.len() ==> plain(#[trigger] items[i], (depth - 1) as nat),
        Json::Object(m) => depth > 0 && forall|k: Seq<char>|
            m.contains_key(k) ==> plain(#[trigger] m[k], (depth - 1) as nat),
        _ => true,
    }
}

/// A character inside a string: quotation marks, backslashes and control
/// characters have an escape, the others stand for themselves.
pub open spec fn escaped(c: char) -> Seq<char> {
    if c == '"' || c == '\\' {
        seq!['\\', c]
    } else if c == '\u{8}' {
        seq!['\\', 'b']
    } else if c == '\t' {
        seq!['\\', 't']
    } else if c == '\n' {
        seq!['\\', 'n']
    } else if c == '\u{c}' {
        seq!['\\', 'f']
    } else if c == '\r' {
        seq!['\\', 'r']
    } else if c <= '\u{1f}' {
        seq!['\\', 'u', '0', '0'] + number::hex_byte(c as u8)
    } else {
        seq![c]
    }
}

/// The characters of a string, with escapes.
pub open spec fn all_escaped(s: Seq<char>) -> Seq<char>
    decreases s.len(),
{
    if s.len() == 0 {
        Seq::empty()
    } else {
        all_escaped(s.drop_last()) + escaped(s.last())
    }
}

/// A string as JSON text: between quotation marks, with escapes.
pub open spec fn quoted(s: Seq<char>) -> Seq<char> {
    seq!['"'] + all_escaped(s) + seq!['"']
}

/// A document to be written: the members of an object have an order.
pub enum Doc {
    Unsigned(u64),
    Text(Seq<char>),
    List(Seq<Doc>),
    Record(Seq<(Seq<char>, Doc)>),
}

/// The compact text of a document.
pub open spec fn doc_text(d: Doc) -> Seq<char>
    decreases d,
{
    match d {
        Doc::Unsigned(n) => number::decimal(n as nat),
        Doc::Text(s) => quoted(s),
        Doc::List(items) => seq!['['] + list_text(items) + seq![']'],
        Doc::Record(fields) => seq!['{'] + fields_text(fields) + seq!['}'],
    }
}

/// The texts of documents with a comma between neighbours.
pub open spec fn list_text(items: Seq<Doc>) -> Seq<char>
    decreases items,
{
    if items.len() == 0 {
        Seq::empty()
    } else if items.len() == 1 {
        doc_text(items[0])
    } else {
        list_text(items.drop_last()) + seq![','] + doc_text(items.last())
    }
}

/// The texts of members with a comma between neighbours.
pub open spec fn fields_text(fields: Seq<(Seq<char>, Doc)>) -> Seq<char>
    decreases fields,
{
    if fields.len() == 0 {
        Seq::empty()
    } else if fields.len() == 1 {
        quoted(fields[0].0) + seq![':'] + doc_text(fields[0].1)
    } else {
        fields_text(fields.drop_last()) + seq![','] + quoted(fields.last().0) + seq![':']
            + doc_text(fields.last().1)
    }
}

/// The value that a document stands for. Of members with one name the last
/// counts.
pub open spec fn doc_json(d: Doc) -> Json
    decreases d,
{
    match d {
        Doc::Unsigned(n) => Json::Unsigned(n),
        Doc::Text(s) => Json::Text(s),
        Doc::List(items) => Json::Array(list_json(items)),
        Doc::Record(fields) => Json::Object(fields_json(fields)),
    }
}

/// The values that documents stand for.
pub open spec fn list_json(items: Seq<Doc>) -> Seq<Json>
    decreases items,
{
    if items.len() == 0 {
        Seq::empty()
    } else {
        list_json(items.drop_last()).push(doc_json(items.last()))
    }
}

/// The members of an object by name.
pub open spec fn fields_json(fields: Seq<(Seq<char>, Doc)>) -> Map<Seq<char>, Json>
    decreases fields,
{
    if fields.len() == 0 {
        Map::empty()
    } else {
        fields_json(fields.drop_last()).insert(fields.last().0, doc_json(fields.last().1))
    }
}

/// How many lists and records a document nests.
pub open spec fn doc_fits(d: Doc, depth: nat) -> bool
    decreases depth,
{
    match d {
        Doc::List(items) => depth > 0 && forall|i: int|
            0 <= i < items.len() ==> doc_fits(#[trigger] items[i], (depth - 1) as nat),
        Doc::Record(fields) => depth > 0 && forall|i: int|
            0 <= i < fields.len() ==> doc_fits((#[trigger] fields[i]).1, (depth - 1) as nat),
        _ => true,
    }
}

/// The values of a list, one by one.
pub proof fn lemma_list_json(items: Seq<Doc>)
    ensures
        list_json(items).len() == items.len(),
        forall|i: int| 0 <= i < items.len() ==> #[trigger] list_json(items)[i] == doc_json(items[i]),
    decreases items.len(),
{
    if items.len() > 0 {
        lemma_list_json(items.drop_last());
    }
}

/// The members of a record with one field more.
pub proof fn lemma_members_push(fields: Seq<(Seq<char>, Doc)>, a: (Seq<char>, Doc))
    ensures
        fields_json(fields.push(a)) == fields_json(fields).insert(a.0, doc_json(a.1)),
{
    assert(fields.push(a).drop_last() =~= fields);
}

/// The members of a record with one field.
pub proof fn lemma_members1(a: (Seq<char>, Doc))
    ensures
        fields_json(seq![a]) == Map::<Seq<char>, Json>::empty().insert(a.0, doc_json(a.1)),
{
    reveal_with_fuel(fields_json, 2);
    assert(seq![a].drop_last() =~= Seq::<(Seq<char>, Doc)>::empty());
}

/// The members of a record with two fields.
pub proof fn lemma_members2(a: (Seq<char>, Doc), b: (Seq<char>, Doc))
    ensures
        fields_json(seq![a, b]) == Map::<Seq<char>, Json>::empty().insert(
            a.0,
            doc_json(a.1),
        ).insert(b.0, doc_json(b.1)),
{
    lemma_members1(a);
    assert(seq![a, b].drop_last() =~= seq![a]);
}

/// The members of a record with three fields.
pub proof fn lemma_members3(a: (Seq<char>, Doc), b: (Seq<char>, Doc), c: (Seq<char>, Doc))
    ensures
        fields_json(seq![a, b, c]) == Map::<Seq<char>, Json>::empty().insert(
            a.0,
            doc_json(a.1),
        ).insert(b.0, doc_json(b.1)).insert(c.0, doc_json(c.1)),
{
    lemma_members2(a, b);
    assert(seq![a, b, c].drop_last() =~= seq![a, b]);
}

// ---------------------------------------------------------------------------
// serde_json
// ---------------------------------------------------------------------------

#[verifier::external_type_specification]
#[verifier::external_body]
pub struct ExValue(serde_json::Value);

#[verifier::external_type_specification]
#[verifier::external_body]
#[verifier::reject_recursive_types(K)]
#[verifier::reject_recursive_types(V)]
pub struct ExMap<K, V>(serde_json::Map<K, V>);

/// What a `serde_json::Value` holds.
pub uninterp spec fn json_view(v: Value) -> Json;

/// The members of a `serde_json::Map`, by name.
pub uninterp spec fn members(m: serde_json::Map<String, Value>) -> Map<Seq<char>, Json>;

/// What `serde_json::from_str::<Value>` makes of a text: a value, or the
/// wording of its error.
pub uninterp spec fn json_read(s: Seq<char>) -> Result<Json, Seq<char>>;

/// What `serde_json::to_string` writes for a value.
pub uninterp spec fn json_printed(j: Json) -> Seq<char>;

/// The deepest nesting that `serde_json` reads.
pub const MAX_DEPTH: u32 = 127;

/// The view of what was read.
pub open spec fn read_as(r: Result<Value, String>) -> Result<Json, Seq<char>> {
    match r {
        Ok(v) => Ok(json_view(v)),
        Err(e) => Err(e@),
    }
}

/// The views of the items of an array.
pub open spec fn views(items: Seq<Value>) -> Seq<Json> {
    items.map_values(|x: Value| json_view(x))
}

/// An object without members.
pub open spec fn no_members() -> Map<Seq<char>, Json> {
    Map::empty()
}

/// The member of that name, where the value is an object that has one.
pub open spec fn member_of(j: Json, key: Seq<char>) -> Option<Json> {
    match j {
        Json::Object(m) => if m.contains_key(key) {
            Some(m[key])
        } else {
            None
        },
        _ => None,
    }
}

/// `serde_json::from_str::<Value>`, with the error by its wording.
///
/// The result is a function of the text. The compact text of a document reads
/// as the value that the document stands for, unless it nests too deep.
#[verifier::external_body]
pub(crate) fn parse_json(s: &str) -> (r: Result<Value, String>)
    ensures
        read_as(r) == json_read(s@),
        forall|d: Doc|
            s@ == #[trigger] doc_text(d) && doc_fits(d, MAX_DEPTH as nat) ==> r is Ok && json_view(
                r->Ok_0,
            ) == doc_json(d),
{
    match serde_json::from_str::<Value>(s) {
        Ok(v) => Ok(v),
        Err(e) => Err(e.to_string()),
    }
}

/// `serde_json::to_string` for a value. It cannot fail: the names of members
/// are strings and the output is memory.
///
/// The text is a function of the value, and a value without floating-point
/// numbers that does not nest too deep reads back as itself.
#[verifier::external_body]
pub(crate) fn print_json(v: &Value) -> (s: String)
    ensures
        s@ == json_printed(json_view(*v)),
        plain(json_view(*v), MAX_DEPTH as nat) ==> json_read(s@) == read_value(json_view(*v)),
{
    serde_json::to_string(v).expect("a JSON value serializes")
}

/// Success with a value.
pub open spec fn read_value(j: Json) -> Result<Json, Seq<char>> {
    Ok(j)
}

/// `serde_json::to_string` for a string: the string between quotation marks,
/// with escapes. It cannot fail: the output is memory.
#[verifier::external_body]
pub(crate) fn quote_json(s: &str) -> (q: String)
    ensures
        q@ == quoted(s@),
{
    serde_json::to_string(s).expect("a string serializes")
}

/// `Value::as_str`: the text of a string, nothing for any other value.
pub assume_specification[ Value::as_str ](v: &Value) -> (r: Option<&str>)
    ensures
        match json_view(*v) {
            Json::Text(s) => r is Some && r->0@ == s,
            _ => r is None,
        },
;

/// `Value::as_bool`: the value of a boolean, nothing for any other value.
pub assume_specification[ Value::as_bool ](v: &Value) -> (r: Option<bool>)
    ensures
        match json_view(*v) {
            Json::Bool(b) => r == Some(b),
            _ => r is None,
        },
;

/// `Value::as_u64`: a number that is an unsigned integer, nothing for any
/// other value.
pub assume_specification[ Value::as_u64 ](v: &Value) -> (r: Option<u64>)
    ensures
        match json_view(*v) {
            Json::Unsigned(n) => r == Some(n),
            _ => r is None,
        },
;

/// `Value::as_array`: the items of an array, nothing for any other value.
pub assume_specification[ Value::as_array ](v: &Value) -> (r: Option<&Vec<Value>>)
    ensures
        match json_view(*v) {
            Json::Array(items) => r is Some && items == views(r->0@),
            _ => r is None,
        },
;

/// `Value::as_object`: the members of an object, nothing for any other value.
pub assume_specification[ Value::as_object ](v: &Value) -> (r: Option<
    &serde_json::Map<String, Value>,
>)
    ensures
        match json_view(*v) {
            Json::Object(m) => r is Some && members(*r->0) == m,
            _ => r is None,
        },
;

/// `Value::is_null`: whether the value is `null`.
pub assume_specification[ Value::is_null ](v: &Value) -> (r: bool)
    ensures
        r == (json_view(*v) is Null),
;

/// `Value::get` with a string: the member of that name, where the value is an
/// object that has one.
#[verifier::external_body]
pub(crate) fn member<'a>(v: &'a Value, key: &str) -> (r: Option<&'a Value>)
    ensures
        match member_of(json_view(*v), key@) {
            Some(j) => r is Some && json_view(*r->0) == j,
            None => r is None,
        },
{
    v.get(key)
}

/// `serde_json::Map::new`: an object without members.
pub assume_specification[ serde_json::Map::<String, Value>::new ]() -> (m: serde_json::Map<
    String,
    Value,
>)
    ensures
        members(m) == no_members(),
;

/// `serde_json::Map::insert`: the member of that name is set, and what it was
/// before is handed back; the others stay.
pub assume_specification[ serde_json::Map::<String, Value>::insert ](
    m: &mut serde_json::Map<String, Value>,
    k: String,
    v: Value,
) -> (r: Option<Value>)
    ensures
        members(*final(m)) == members(*old(m)).insert(k@, json_view(v)),
        match r {
            Some(before) => members(*old(m)).contains_key(k@) && json_view(before) == members(
                *old(m),
            )[k@],
            None => !members(*old(m)).contains_key(k@),
        },
;

/// `serde_json::Map::clone`: an object with the same members.
pub assume_specification[ <serde_json::Map::<String, Value> as Clone>::clone ](
    m: &serde_json::Map<String, Value>,
) -> (r: serde_json::Map<String, Value>)
    ensures
        members(r) == members(*m),
;

/// `serde_json::Map::contains_key` with a string.
#[verifier::external_body]
pub(crate) fn has_member(m: &serde_json::Map<String, Value>, key: &str) -> (r: bool)
    ensures
        r == members(*m).contains_key(key@),
{
    m.contains_key(key)
}

/// `serde_json::Map::get` with a string.
#[verifier::external_body]
pub(crate) fn get_member<'a>(m: &'a serde_json::Map<String, Value>, key: &str) -> (r: Option<
    &'a Value,
>)
    ensures
        match r {
            Some(v) => members(*m).contains_key(key@) && json_view(*v) == members(*m)[key@],
            None => !members(*m).contains_key(key@),
        },
{
    m.get(key)
}

/// `Value::String`: a string as a JSON value.
#[verifier::external_body]
pub(crate) fn text_value(s: String) -> (v: Value)
    ensures
        json_view(v) == Json::Text(s@),
{
    Value::String(s)
}

/// `Value::Bool`: a boolean as a JSON value.
#[verifier::external_body]
pub(crate) fn bool_value(b: bool) -> (v: Value)
    ensures
        json_view(v) == Json::Bool(b),
{
    Value::Bool(b)
}

/// `Value::from` for a `u32`: an unsigned number as a JSON value.
#[verifier::external_body]
pub(crate) fn number_value(n: u32) -> (v: Value)
    ensures
        json_view(v) == Json::Unsigned(n as u64),
{
    Value::from(n)
}

/// `Value::Array`: a list of JSON values as one.
#[verifier::external_body]
pub(crate) fn list_value(items: Vec<Value>) -> (v: Value)
    ensures
        json_view(v) == Json::Array(views(items@)),
{
    Value::Array(items)
}

/// `Value::Object`: members as a JSON value.
#[verifier::external_body]
pub(crate) fn object_value(m: serde_json::Map<String, Value>) -> (v: Value)
    ensures
        json_view(v) == Json::Object(members(m)),
{
    Value::Object(m)
}

// ---------------------------------------------------------------------------
// Laws
// ---------------------------------------------------------------------------

/// The character that a letter behind a backslash stands for.
pub open spec fn unescaped_letter(c: char) -> Option<char> {
    if c == '"' || c == '\\' || c == '/' {
        Some(c)
    } else if c == 'b' {
        Some('\u{8}')
    } else if c == 'f' {
        Some('\u{c}')
    } else if c == 'n' {
        Some('\n')
    } else if c == 'r' {
        Some('\r')
    } else if c == 't' {
        Some('\t')
    } else {
        None
    }
}

/// The characters that stand between the quotation marks of a JSON string: an
/// escape stands for one character, any other character but a quotation mark, a
/// backslash and a control character for itself.
pub open spec fn unescaped(t: Seq<char>) -> Option<Seq<char>>
    decreases t.len(),
{
    if t.len() == 0 {
        Some(Seq::empty())
    } else if t[0] == '\\' {
        if t.len() >= 6 && t[1] == 'u' && number::number(t.subrange(2, 6), 16, 0xffff) is Ok {
            match unescaped(t.skip(6)) {
                Some(rest) => Some(
                    seq![number::number(t.subrange(2, 6), 16, 0xffff)->Ok_0 as int as char] + rest,
                ),
                None => None,
            }
        } else if t.len() >= 2 && unescaped_letter(t[1]) is Some {
            match unescaped(t.skip(2)) {
                Some(rest) => Some(seq![unescaped_letter(t[1])->0] + rest),
                None => None,
            }
        } else {
            None
        }
    } else if t[0] == '"' || t[0] <= '\u{1f}' {
        None
    } else {
        match unescaped(t.skip(1)) {
            Some(rest) => Some(seq![t[0]] + rest),
            None => None,
        }
    }
}

proof fn lemma_escaped_head(s: Seq<char>)
    requires
        s.len() > 0,
    ensures
        all_escaped(s) == escaped(s[0]) + all_escaped(s.skip(1)),
    decreases s.len(),
{
    if s.len() == 1 {
        assert(s.drop_last() =~= Seq::<char>::empty());
        assert(s.skip(1) =~= Seq::<char>::empty());
        assert(all_escaped(s) =~= escaped(s[0]) + all_escaped(s.skip(1)));
    } else {
        lemma_escaped_head(s.drop_last());
        assert(s.drop_last().skip(1) =~= s.skip(1).drop_last());
        assert(s.skip(1).last() == s.last());
        assert(all_escaped(s) =~= escaped(s[0]) + all_escaped(s.skip(1)));
    }
}

proof fn lemma_control_escape(c: char)
    requires
        c <= '\u{1f}',
    ensures
        number::number(seq!['0', '0'] + number::hex_byte(c as u8), 16, 0xffff) matches Ok(n) && n
            as int == c as int,
{
    let b = c as u8;
    let s = seq!['0', '0'] + number::hex_byte(b);
    let hi = b as int / 16;
    let lo = b as int % 16;
    assert(s[2] == number::hex_digit(hi) && s[3] == number::hex_digit(lo));
    assert(number::digit_value(s[0], 16) == Some(0nat));
    assert(number::digit_value(s[1], 16) == Some(0nat));
    assert(number::digit_value(s[2], 16) == Some(hi as nat));
    assert(number::digit_value(s[3], 16) == Some(lo as nat));
    reveal_with_fuel(number::digit_run, 5);
    reveal_with_fuel(number::digits_value, 5);
    let s1 = s.skip(1);
    let s2 = s1.skip(1);
    let s3 = s2.skip(1);
    assert(s1[0] == s[1] && s2[0] == s[2] && s3[0] == s[3] && s3.skip(1).len() == 0);
    assert(s.take(4) =~= s);
    let d3 = s.drop_last();
    let d2 = d3.drop_last();
    let d1 = d2.drop_last();
    assert(d3.last() == s[2] && d2.last() == s[1] && d1.last() == s[0]);
    assert(d1.drop_last().len() == 0);
}

/// What is written of a text between quotation marks is read back as it was,
/// whatever characters it holds, and nothing in it ends the string early.
pub proof fn law_escapes_read_back(s: Seq<char>)
    ensures
        unescaped(all_escaped(s)) == Some(s),
        quoted(s).first() == '"' && quoted(s).last() == '"',
    decreases s.len(),
{
    if s.len() == 0 {
        assert(s =~= Seq::<char>::empty());
    } else {
        let c = s[0];
        let rest = s.skip(1);
        law_escapes_read_back(rest);
        lemma_escaped_head(s);
        let t = all_escaped(s);
        let head = escaped(c);
        let tail = all_escaped(rest);
        assert(t == head + tail);
        assert(t.skip(head.len() as int) =~= tail);
        assert(seq![c] + rest =~= s);
        assert(t[0] == head[0]);
        if head.len() == 6 {
            lemma_control_escape(c);
            assert(t[1] == 'u');
            assert(t.subrange(2, 6) =~= seq!['0', '0'] + number::hex_byte(c as u8));
            assert(t.skip(6) == tail);
            let n = number::number(t.subrange(2, 6), 16, 0xffff);
            assert(n->Ok_0 as int == c as int);
            assert(n->Ok_0 as int as char == c);
            assert(unescaped(t) == Some(seq![c] + unescaped(tail)->0));
        } else if head.len() == 2 {
            assert(t[1] == head[1]);
            assert(unescaped_letter(head[1]) == Some(c));
            assert(unescaped(t) == Some(seq![c] + rest));
        } else {
            assert(head.len() == 1 && head[0] == c);
            assert(unescaped(t) == Some(seq![c] + rest));
        }
    }
}

} // verus!
