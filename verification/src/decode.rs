//! Decoding of records from JSON values.
//!
//! A record is written as an object, with its fields by name, or as an array,
//! with its fields in order. A field may be known by several names, of which
//! an object may use one. Members that are no field are ignored.

use serde_json::Value;
use vstd::prelude::*;
use vstd::string::*;

use crate::json;
use crate::json::Json;
use crate::text;

verus! {

/// Why a document was not decoded.
#[derive(Debug, PartialEq, Eq)]
pub enum DecodeError {
    /// The text is not JSON; the message says where.
    Syntax(String),
    /// A field without a default is absent.
    Missing(String),
    /// A field is given under more than one of its names.
    Repeated(String),
    /// A field, or the record itself, has a value of the wrong kind or range.
    Invalid(String),
}

/// The model of `DecodeError`.
pub enum Fault {
    Syntax(Seq<char>),
    Missing(Seq<char>),
    Repeated(Seq<char>),
    Invalid(Seq<char>),
}

impl View for DecodeError {
    type V = Fault;

    open spec fn view(&self) -> Fault {
        match self {
            DecodeError::Syntax(s) => Fault::Syntax(s@),
            DecodeError::Missing(s) => Fault::Missing(s@),
            DecodeError::Repeated(s) => Fault::Repeated(s@),
            DecodeError::Invalid(s) => Fault::Invalid(s@),
        }
    }
}

/// The wording of a fault.
pub open spec fn fault_text(f: Fault) -> Seq<char> {
    match f {
        Fault::Syntax(s) => s,
        Fault::Missing(name) => "missing field `"@ + name + "`"@,
        Fault::Repeated(name) => "duplicate field `"@ + name + "`"@,
        Fault::Invalid(name) => "invalid value for `"@ + name + "`"@,
    }
}

impl DecodeError {
    /// The wording of the error.
    pub fn message(&self) -> (s: String)
        ensures
            s@ == fault_text(self@),
    {
        match self {
            DecodeError::Syntax(s) => s.clone(),
            DecodeError::Missing(name) => text::join3("missing field `", name.as_str(), "`"),
            DecodeError::Repeated(name) => text::join3("duplicate field `", name.as_str(), "`"),
            DecodeError::Invalid(name) => text::join3("invalid value for `", name.as_str(), "`"),
        }
    }
}

/// The model of a decoding's result.
pub open spec fn outcome<T, V>(r: Result<T, DecodeError>, view: spec_fn(T) -> V) -> Result<
    V,
    Fault,
> {
    match r {
        Ok(t) => Ok(view(t)),
        Err(e) => Err(e@),
    }
}

/// The value of a JSON text.
pub open spec fn document(s: Seq<char>) -> Result<Json, Fault> {
    match json::json_read(s) {
        Ok(j) => Ok(j),
        Err(e) => Err(Fault::Syntax(e)),
    }
}

/// Reads a JSON text.
pub fn read_document(s: &str) -> (r: Result<Value, DecodeError>)
    ensures
        outcome(r, |v: Value| json::json_view(v)) == document(s@),
        forall|d: json::Doc|
            s@ == #[trigger] json::doc_text(d) && json::doc_fits(d, json::MAX_DEPTH as nat)
                ==> document(s@) == Ok::<Json, Fault>(json::doc_json(d)),
{
    match json::parse_json(s) {
        Ok(v) => Ok(v),
        Err(e) => Err(DecodeError::Syntax(e)),
    }
}

// ---------------------------------------------------------------------------
// Fields
// ---------------------------------------------------------------------------

/// Whether a value can be a record: an object, or an array of as many items
/// as given.
pub open spec fn is_record(j: Json, min: nat, max: nat) -> bool {
    match j {
        Json::Object(_) => true,
        Json::Array(items) => min <= items.len() <= max,
        _ => false,
    }
}

/// Whether a value can be a record.
pub fn record(v: &Value, min: usize, max: usize) -> (r: bool)
    ensures
        r == is_record(json::json_view(*v), min as nat, max as nat),
{
    if v.as_object().is_some() {
        return true;
    }
    match v.as_array() {
        Some(items) => min <= items.len() && items.len() <= max,
        None => false,
    }
}

/// The names, out of `names`, that an object uses.
pub open spec fn used(m: Map<Seq<char>, Json>, names: Seq<Seq<char>>) -> Seq<Seq<char>> {
    names.filter(|n: Seq<char>| m.contains_key(n))
}

/// The value of the field that has the given names, and the given position in
/// an array; nothing where it is absent.
pub open spec fn field(j: Json, names: Seq<Seq<char>>, index: nat) -> Result<Option<Json>, Fault> {
    match j {
        Json::Object(m) => {
            let keys = used(m, names);
            if keys.len() == 0 {
                Ok(None)
            } else if keys.len() == 1 {
                Ok(Some(m[keys[0]]))
            } else {
                Err(Fault::Repeated(names[0]))
            }
        },
        Json::Array(items) => if index < items.len() {
            Ok(Some(items[index as int]))
        } else {
            Ok(None)
        },
        _ => Ok(None),
    }
}

/// The view of an optional value.
pub open spec fn opt_view(o: Option<&Value>) -> Option<Json> {
    match o {
        Some(v) => Some(json::json_view(*v)),
        None => None,
    }
}

/// The field with one name.
pub fn field1<'a>(v: &'a Value, name: &str, index: usize) -> (r: Result<
    Option<&'a Value>,
    DecodeError,
>)
    ensures
        outcome(r, |o: Option<&Value>| opt_view(o)) == field(
            json::json_view(*v),
            seq![name@],
            index as nat,
        ),
{
    proof {
        reveal_with_fuel(Seq::filter, 2);
        assert(seq![name@].drop_last() =~= Seq::<Seq<char>>::empty());
    }
    match v.as_array() {
        Some(items) => if index < items.len() {
            Ok(Some(&items[index]))
        } else {
            Ok(None)
        },
        None => Ok(json::member(v, name)),
    }
}

/// The field with two names.
pub fn field2<'a>(v: &'a Value, name: &str, alias: &str, index: usize) -> (r: Result<
    Option<&'a Value>,
    DecodeError,
>)
    ensures
        outcome(r, |o: Option<&Value>| opt_view(o)) == field(
            json::json_view(*v),
            seq![name@, alias@],
            index as nat,
        ),
{
    proof {
        reveal_with_fuel(Seq::filter, 3);
        assert(seq![name@, alias@].drop_last() =~= seq![name@]);
        assert(seq![name@].drop_last() =~= Seq::<Seq<char>>::empty());
    }
    match v.as_array() {
        Some(items) => if index < items.len() {
            Ok(Some(&items[index]))
        } else {
            Ok(None)
        },
        None => match (json::member(v, name), json::member(v, alias)) {
            (Some(_), Some(_)) => Err(DecodeError::Repeated(name.to_owned())),
            (Some(a), None) => Ok(Some(a)),
            (None, b) => Ok(b),
        },
    }
}

/// The field with three names.
pub fn field3<'a>(
    v: &'a Value,
    name: &str,
    alias: &str,
    other: &str,
    index: usize,
) -> (r: Result<Option<&'a Value>, DecodeError>)
    ensures
        outcome(r, |o: Option<&Value>| opt_view(o)) == field(
            json::json_view(*v),
            seq![name@, alias@, other@],
            index as nat,
        ),
{
    proof {
        reveal_with_fuel(Seq::filter, 4);
        assert(seq![name@, alias@, other@].drop_last() =~= seq![name@, alias@]);
        assert(seq![name@, alias@].drop_last() =~= seq![name@]);
        assert(seq![name@].drop_last() =~= Seq::<Seq<char>>::empty());
    }
    match v.as_array() {
        Some(items) => if index < items.len() {
            Ok(Some(&items[index]))
        } else {
            Ok(None)
        },
        None => match (json::member(v, name), json::member(v, alias), json::member(v, other)) {
            (Some(a), None, None) => Ok(Some(a)),
            (None, Some(b), None) => Ok(Some(b)),
            (None, None, c) => Ok(c),
            _ => Err(DecodeError::Repeated(name.to_owned())),
        },
    }
}

// ---------------------------------------------------------------------------
// Values of fields
// ---------------------------------------------------------------------------

/// A string that has to be there.
pub open spec fn required_text(o: Option<Json>, name: Seq<char>) -> Result<Seq<char>, Fault> {
    match o {
        Some(Json::Text(s)) => Ok(s),
        Some(_) => Err(Fault::Invalid(name)),
        None => Err(Fault::Missing(name)),
    }
}

/// A string with a default.
pub open spec fn text_or(o: Option<Json>, name: Seq<char>, default: Seq<char>) -> Result<
    Seq<char>,
    Fault,
> {
    match o {
        None => Ok(default),
        _ => required_text(o, name),
    }
}

/// A string that may be absent or `null`.
pub open spec fn optional_text(o: Option<Json>, name: Seq<char>) -> Result<
    Option<Seq<char>>,
    Fault,
> {
    match o {
        None | Some(Json::Null) => Ok(None),
        Some(Json::Text(s)) => Ok(Some(s)),
        Some(_) => Err(Fault::Invalid(name)),
    }
}

/// A boolean that is `false` where it is absent.
pub open spec fn bool_or_false(o: Option<Json>, name: Seq<char>) -> Result<bool, Fault> {
    match o {
        None => Ok(false),
        Some(Json::Bool(b)) => Ok(b),
        Some(_) => Err(Fault::Invalid(name)),
    }
}

/// A `u32` that may be absent or `null`.
pub open spec fn optional_u32(o: Option<Json>, name: Seq<char>) -> Result<Option<u32>, Fault> {
    match o {
        None | Some(Json::Null) => Ok(None),
        Some(Json::Unsigned(n)) => if n <= u32::MAX {
            Ok(Some(n as u32))
        } else {
            Err(Fault::Invalid(name))
        },
        Some(_) => Err(Fault::Invalid(name)),
    }
}

/// A `u16` that has to be there.
pub open spec fn required_u16(o: Option<Json>, name: Seq<char>) -> Result<u16, Fault> {
    match o {
        None => Err(Fault::Missing(name)),
        Some(Json::Unsigned(n)) => if n <= u16::MAX {
            Ok(n as u16)
        } else {
            Err(Fault::Invalid(name))
        },
        Some(_) => Err(Fault::Invalid(name)),
    }
}

/// A list that has to be there.
pub open spec fn required_list(o: Option<Json>, name: Seq<char>) -> Result<Seq<Json>, Fault> {
    match o {
        Some(Json::Array(items)) => Ok(items),
        Some(_) => Err(Fault::Invalid(name)),
        None => Err(Fault::Missing(name)),
    }
}

/// A list that is empty where it is absent.
pub open spec fn list_or_empty(o: Option<Json>, name: Seq<char>) -> Result<Seq<Json>, Fault> {
    match o {
        None => Ok(Seq::empty()),
        _ => required_list(o, name),
    }
}

/// Decodes a string that has to be there.
pub fn take_text(o: Option<&Value>, name: &str) -> (r: Result<String, DecodeError>)
    ensures
        outcome(r, |s: String| s@) == required_text(opt_view(o), name@),
{
    match o {
        Some(v) => match v.as_str() {
            Some(s) => Ok(s.to_owned()),
            None => Err(DecodeError::Invalid(name.to_owned())),
        },
        None => Err(DecodeError::Missing(name.to_owned())),
    }
}

/// Decodes a string with a default.
pub fn take_text_or(o: Option<&Value>, name: &str, default: &str) -> (r: Result<
    String,
    DecodeError,
>)
    ensures
        outcome(r, |s: String| s@) == text_or(opt_view(o), name@, default@),
{
    match o {
        None => Ok(default.to_owned()),
        _ => take_text(o, name),
    }
}

/// Decodes a string that may be absent or `null`.
pub fn take_optional_text(o: Option<&Value>, name: &str) -> (r: Result<
    Option<String>,
    DecodeError,
>)
    ensures
        outcome(r, |s: Option<String>| text::opt_text(s)) == optional_text(opt_view(o), name@),
{
    match o {
        None => Ok(None),
        Some(v) => if v.is_null() {
            Ok(None)
        } else {
            match v.as_str() {
                Some(s) => Ok(Some(s.to_owned())),
                None => Err(DecodeError::Invalid(name.to_owned())),
            }
        },
    }
}

/// Decodes a boolean that is `false` where it is absent.
pub fn take_bool(o: Option<&Value>, name: &str) -> (r: Result<bool, DecodeError>)
    ensures
        outcome(r, |b: bool| b) == bool_or_false(opt_view(o), name@),
{
    match o {
        None => Ok(false),
        Some(v) => match v.as_bool() {
            Some(b) => Ok(b),
            None => Err(DecodeError::Invalid(name.to_owned())),
        },
    }
}

/// Decodes a `u32` that may be absent or `null`.
pub fn take_optional_u32(o: Option<&Value>, name: &str) -> (r: Result<Option<u32>, DecodeError>)
    ensures
        outcome(r, |n: Option<u32>| n) == optional_u32(opt_view(o), name@),
{
    match o {
        None => Ok(None),
        Some(v) => if v.is_null() {
            Ok(None)
        } else {
            match v.as_u64() {
                Some(n) => if n <= 0xffff_ffff {
                    Ok(Some(n as u32))
                } else {
                    Err(DecodeError::Invalid(name.to_owned()))
                },
                None => Err(DecodeError::Invalid(name.to_owned())),
            }
        },
    }
}

/// Decodes a `u16` that has to be there.
pub fn take_u16(o: Option<&Value>, name: &str) -> (r: Result<u16, DecodeError>)
    ensures
        outcome(r, |n: u16| n) == required_u16(opt_view(o), name@),
{
    match o {
        None => Err(DecodeError::Missing(name.to_owned())),
        Some(v) => match v.as_u64() {
            Some(n) => if n <= 0xffff {
                Ok(n as u16)
            } else {
                Err(DecodeError::Invalid(name.to_owned()))
            },
            None => Err(DecodeError::Invalid(name.to_owned())),
        },
    }
}

/// Decodes a list that has to be there.
pub fn take_list<'a>(o: Option<&'a Value>, name: &str) -> (r: Result<
    &'a Vec<Value>,
    DecodeError,
>)
    ensures
        outcome(r, |v: &Vec<Value>| json::views(v@)) == required_list(opt_view(o), name@),
{
    match o {
        Some(v) => match v.as_array() {
            Some(items) => Ok(items),
            None => Err(DecodeError::Invalid(name.to_owned())),
        },
        None => Err(DecodeError::Missing(name.to_owned())),
    }
}

/// The decodings of all items, or the fault of the first that has one.
pub open spec fn decode_all<T>(items: Seq<Json>, decode: spec_fn(Json) -> Result<T, Fault>) -> Result<
    Seq<T>,
    Fault,
>
    decreases items.len(),
{
    if items.len() == 0 {
        Ok(Seq::empty())
    } else {
        match decode_all(items.drop_last(), decode) {
            Err(f) => Err(f),
            Ok(done) => match decode(items.last()) {
                Err(f) => Err(f),
                Ok(t) => Ok(done.push(t)),
            },
        }
    }
}

/// A fault among the first items is the fault of the whole list.
pub proof fn lemma_decode_fault<T>(
    items: Seq<Json>,
    decode: spec_fn(Json) -> Result<T, Fault>,
    k: int,
)
    requires
        0 <= k <= items.len(),
        decode_all(items.take(k), decode) is Err,
    ensures
        decode_all(items, decode) == decode_all(items.take(k), decode),
    decreases items.len(),
{
    if k < items.len() {
        assert(items.drop_last().take(k) =~= items.take(k));
        lemma_decode_fault(items.drop_last(), decode, k);
    } else {
        assert(items.take(k) =~= items);
    }
}

/// Decoding one item more.
pub proof fn lemma_decode_next<T>(
    items: Seq<Json>,
    decode: spec_fn(Json) -> Result<T, Fault>,
    k: int,
)
    requires
        0 <= k < items.len(),
    ensures
        decode_all(items.take(k + 1), decode) == (match decode_all(items.take(k), decode) {
            Err(f) => Err(f),
            Ok(done) => match decode(items[k]) {
                Err(f) => Err(f),
                Ok(t) => Ok(done.push(t)),
            },
        }),
{
    assert(items.take(k + 1).drop_last() =~= items.take(k));
    assert(items.take(k + 1).last() == items[k]);
}

/// A field with one name, of an object: the member of that name.
pub proof fn lemma_field_of_object(j: Json, name: Seq<char>, index: nat)
    requires
        j is Object,
    ensures
        field(j, seq![name], index) == Ok::<Option<Json>, Fault>(json::member_of(j, name)),
{
    reveal_with_fuel(Seq::filter, 2);
    assert(seq![name].drop_last() =~= Seq::<Seq<char>>::empty());
}

/// A list whose items all decode decodes to the list of what they decode to.
pub proof fn lemma_decode_all_ok<T>(
    items: Seq<Json>,
    decode: spec_fn(Json) -> Result<T, Fault>,
    out: Seq<T>,
)
    requires
        items.len() == out.len(),
        forall|i: int|
            0 <= i < items.len() ==> decode(#[trigger] items[i]) == Ok::<T, Fault>(out[i]),
    ensures
        decode_all(items, decode) == Ok::<Seq<T>, Fault>(out),
    decreases items.len(),
{
    if items.len() == 0 {
        assert(out =~= Seq::<T>::empty());
    } else {
        assert forall|i: int| 0 <= i < items.len() - 1 implies decode(
            #[trigger] items.drop_last()[i],
        ) == Ok::<T, Fault>(out.drop_last()[i]) by {
            assert(items.drop_last()[i] == items[i]);
        }
        lemma_decode_all_ok(items.drop_last(), decode, out.drop_last());
        assert(items.last() == items[items.len() - 1]);
        assert(out =~= out.drop_last().push(out.last()));
    }
}

} // verus!
