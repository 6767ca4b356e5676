//! Writers of compact JSON text for records and lists.

use vstd::prelude::*;
use vstd::string::*;

use crate::json;
use crate::json::Doc;
use crate::number;

verus! {

/// A record that is being written.
pub struct RecordWriter {
    out: String,
    empty: bool,
    fields: Ghost<Seq<(Seq<char>, Doc)>>,
}

impl RecordWriter {
    /// The fields written so far.
    pub closed spec fn fields(&self) -> Seq<(Seq<char>, Doc)> {
        self.fields@
    }

    #[verifier::type_invariant]
    spec fn consistent(self) -> bool {
        &&& self.out@ == seq!['{'] + json::fields_text(self.fields@)
        &&& self.empty == (self.fields@.len() == 0)
    }

    /// A record without fields.
    pub fn new() -> (w: RecordWriter)
        ensures
            w.fields() == Seq::<(Seq<char>, Doc)>::empty(),
    {
        let mut out = String::new();
        out.push('{');
        assert(out@ =~= seq!['{'] + json::fields_text(Seq::empty()));
        RecordWriter { out, empty: true, fields: Ghost(Seq::empty()) }
    }

    /// The record with one more field, whose value is given as JSON text.
    pub fn raw(self, name: &str, value: &str, Ghost(d): Ghost<Doc>) -> (w: RecordWriter)
        requires
            value@ == json::doc_text(d),
        ensures
            w.fields() == self.fields().push((name@, d)),
    {
        proof {
            use_type_invariant(&self);
        }
        let ghost before = self.fields@;
        let ghost after = before.push((name@, d));
        let mut out = self.out;
        if !self.empty {
            out.push(',');
        }
        out.append(json::quote_json(name).as_str());
        out.push(':');
        out.append(value);
        proof {
            assert(after.drop_last() =~= before);
            assert(after.last() == (name@, d));
            assert(out@ =~= seq!['{'] + json::fields_text(after));
        }
        RecordWriter { out, empty: false, fields: Ghost(after) }
    }

    /// The record with one more field, whose value is a string.
    pub fn text(self, name: &str, value: &str) -> (w: RecordWriter)
        ensures
            w.fields() == self.fields().push((name@, Doc::Text(value@))),
    {
        let q = json::quote_json(value);
        self.raw(name, q.as_str(), Ghost(Doc::Text(value@)))
    }

    /// The record with one more field, whose value is a number.
    pub fn number(self, name: &str, value: u64) -> (w: RecordWriter)
        ensures
            w.fields() == self.fields().push((name@, Doc::Unsigned(value))),
    {
        let q = number::decimal_text(value);
        self.raw(name, q.as_str(), Ghost(Doc::Unsigned(value)))
    }

    /// The text of the record.
    pub fn finish(self) -> (s: String)
        ensures
            s@ == json::doc_text(Doc::Record(self.fields())),
    {
        proof {
            use_type_invariant(&self);
        }
        let ghost fields = self.fields@;
        let mut out = self.out;
        out.push('}');
        assert(out@ =~= seq!['{'] + json::fields_text(fields) + seq!['}']);
        out
    }
}

/// A list that is being written.
pub struct ListWriter {
    out: String,
    empty: bool,
    items: Ghost<Seq<Doc>>,
}

impl ListWriter {
    /// The items written so far.
    pub closed spec fn items(&self) -> Seq<Doc> {
        self.items@
    }

    #[verifier::type_invariant]
    spec fn consistent(self) -> bool {
        &&& self.out@ == seq!['['] + json::list_text(self.items@)
        &&& self.empty == (self.items@.len() == 0)
    }

    /// A list without items.
    pub fn new() -> (w: ListWriter)
        ensures
            w.items() == Seq::<Doc>::empty(),
    {
        let mut out = String::new();
        out.push('[');
        assert(out@ =~= seq!['['] + json::list_text(Seq::empty()));
        ListWriter { out, empty: true, items: Ghost(Seq::empty()) }
    }

    /// The list with one more item, given as JSON text.
    pub fn raw(self, value: &str, Ghost(d): Ghost<Doc>) -> (w: ListWriter)
        requires
            value@ == json::doc_text(d),
        ensures
            w.items() == self.items().push(d),
    {
        proof {
            use_type_invariant(&self);
        }
        let ghost before = self.items@;
        let ghost after = before.push(d);
        let mut out = self.out;
        if !self.empty {
            out.push(',');
        }
        out.append(value);
        proof {
            assert(after.drop_last() =~= before);
            assert(after.last() == d);
            assert(out@ =~= seq!['['] + json::list_text(after));
        }
        ListWriter { out, empty: false, items: Ghost(after) }
    }

    /// The list with one more item, a string.
    pub fn text(self, value: &str) -> (w: ListWriter)
        ensures
            w.items() == self.items().push(Doc::Text(value@)),
    {
        let q = json::quote_json(value);
        self.raw(q.as_str(), Ghost(Doc::Text(value@)))
    }

    /// The text of the list.
    pub fn finish(self) -> (s: String)
        ensures
            s@ == json::doc_text(Doc::List(self.items())),
    {
        proof {
            use_type_invariant(&self);
        }
        let ghost items = self.items@;
        let mut out = self.out;
        out.push(']');
        assert(out@ =~= seq!['['] + json::list_text(items) + seq![']']);
        out
    }
}

} // verus!
