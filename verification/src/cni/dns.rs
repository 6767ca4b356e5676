//! The name resolution that a network configuration gives its containers.

use serde_json::Value;
use vstd::prelude::*;
use vstd::string::*;

use crate::decode;
use crate::decode::DecodeError;
use crate::json;
use crate::json::{Doc, Json};
use crate::json_write::{ListWriter, RecordWriter};
use crate::text;

verus! {

/// How names are resolved.
#[derive(Debug)]
pub struct Dns {
    pub nameservers: Vec<String>,
    pub domain: Option<String>,
    pub search: Vec<String>,
    pub options: Vec<String>,
}

/// The model of `Dns`.
pub struct DnsView {
    pub nameservers: Seq<Seq<char>>,
    pub domain: Option<Seq<char>>,
    pub search: Seq<Seq<char>>,
    pub options: Seq<Seq<char>>,
}

impl View for Dns {
    type V = DnsView;

    open spec fn view(&self) -> DnsView {
        DnsView {
            nameservers: text::texts(self.nameservers@),
            domain: text::opt_text(self.domain),
            search: text::texts(self.search@),
            options: text::texts(self.options@),
        }
    }
}

/// The model of what may be absent.
pub open spec fn opt_dns(d: Option<Dns>) -> Option<DnsView> {
    match d {
        Some(d) => Some(d@),
        None => None,
    }
}

// ---------------------------------------------------------------------------
// Reading
// ---------------------------------------------------------------------------

/// The decoder of the texts of a field.
pub open spec fn text_decoder(name: Seq<char>) -> spec_fn(Json) -> Result<
    Seq<char>,
    decode::Fault,
> {
    |j: Json| decode::required_text(Some(j), name)
}

/// The texts that a field stands for: none where it is absent or `null`.
pub open spec fn texts_of(o: Option<Json>, name: Seq<char>) -> Result<
    Seq<Seq<char>>,
    decode::Fault,
> {
    match o {
        None | Some(Json::Null) => Ok(Seq::empty()),
        Some(Json::Array(items)) => decode::decode_all(items, text_decoder(name)),
        Some(_) => Err(decode::Fault::Invalid(name)),
    }
}

/// The name resolution that a value stands for.
pub open spec fn dns_of(j: Json) -> Result<DnsView, decode::Fault> {
    if !decode::is_record(j, 0, 4) {
        Err(decode::Fault::Invalid("Dns"@))
    } else {
        match decode::field(j, seq!["nameservers"@], 0) {
            Err(f) => Err(f),
            Ok(servers) => match texts_of(servers, "nameservers"@) {
                Err(f) => Err(f),
                Ok(nameservers) => match decode::field(j, seq!["domain"@], 1) {
                    Err(f) => Err(f),
                    Ok(domain) => match decode::optional_text(domain, "domain"@) {
                        Err(f) => Err(f),
                        Ok(domain) => match decode::field(j, seq!["search"@], 2) {
                            Err(f) => Err(f),
                            Ok(search) => match texts_of(search, "search"@) {
                                Err(f) => Err(f),
                                Ok(search) => match decode::field(j, seq!["options"@], 3) {
                                    Err(f) => Err(f),
                                    Ok(options) => match texts_of(options, "options"@) {
                                        Err(f) => Err(f),
                                        Ok(options) => Ok(
                                            DnsView { nameservers, domain, search, options },
                                        ),
                                    },
                                },
                            },
                        },
                    },
                },
            },
        }
    }
}

/// The name resolution that a field stands for: none where it is absent or
/// `null`.
pub open spec fn opt_dns_of(o: Option<Json>) -> Result<Option<DnsView>, decode::Fault> {
    match o {
        None | Some(Json::Null) => Ok(None),
        Some(j) => match dns_of(j) {
            Err(f) => Err(f),
            Ok(d) => Ok(Some(d)),
        },
    }
}

fn take_texts(o: Option<&Value>, name: &str) -> (r: Result<Vec<String>, DecodeError>)
    ensures
        decode::outcome(r, |v: Vec<String>| text::texts(v@)) == texts_of(
            decode::opt_view(o),
            name@,
        ),
{
    let mut out: Vec<String> = Vec::new();
    assert(text::texts(out@) =~= Seq::<Seq<char>>::empty());
    let v = match o {
        None => {
            return Ok(out);
        },
        Some(v) => v,
    };
    if v.is_null() {
        return Ok(out);
    }
    let items = match v.as_array() {
        Some(items) => items,
        None => {
            return Err(DecodeError::Invalid(name.to_owned()));
        },
    };
    let mut i: usize = 0;
    let ghost all = json::views(items@);
    assert(all.take(0) =~= Seq::<Json>::empty());
    while i < items.len()
        invariant
            i <= items@.len(),
            all == json::views(items@),
            texts_of(decode::opt_view(o), name@) == decode::decode_all(all, text_decoder(name@)),
            decode::decode_all(all.take(i as int), text_decoder(name@)) == Ok::<
                Seq<Seq<char>>,
                decode::Fault,
            >(text::texts(out@)),
        decreases items@.len() - i,
    {
        proof {
            decode::lemma_decode_next(all, text_decoder(name@), i as int);
        }
        match decode::take_text(Some(&items[i]), name) {
            Ok(x) => {
                let ghost before = text::texts(out@);
                out.push(x);
                assert(text::texts(out@) =~= before.push(x@));
            },
            Err(e) => {
                proof {
                    decode::lemma_decode_fault(all, text_decoder(name@), i + 1);
                }
                return Err(e);
            },
        }
        i = i + 1;
    }
    assert(all.take(items@.len() as int) =~= all);
    Ok(out)
}

/// Decodes a field of name resolution.
pub fn take_dns(o: Option<&Value>) -> (r: Result<Option<Dns>, DecodeError>)
    ensures
        decode::outcome(r, |d: Option<Dns>| opt_dns(d)) == opt_dns_of(decode::opt_view(o)),
{
    match o {
        None => Ok(None),
        Some(v) => if v.is_null() {
            Ok(None)
        } else {
            let d = Dns::decode(v)?;
            Ok(Some(d))
        },
    }
}

impl Dns {
    /// Decodes name resolution.
    pub fn decode(v: &Value) -> (r: Result<Dns, DecodeError>)
        ensures
            decode::outcome(r, |d: Dns| d@) == dns_of(json::json_view(*v)),
    {
        if !decode::record(v, 0, 4) {
            return Err(DecodeError::Invalid("Dns".to_owned()));
        }
        let nameservers = take_texts(decode::field1(v, "nameservers", 0)?, "nameservers")?;
        let domain = decode::take_optional_text(decode::field1(v, "domain", 1)?, "domain")?;
        let search = take_texts(decode::field1(v, "search", 2)?, "search")?;
        let options = take_texts(decode::field1(v, "options", 3)?, "options")?;
        Ok(Dns { nameservers, domain, search, options })
    }
}

// ---------------------------------------------------------------------------
// Writing
// ---------------------------------------------------------------------------

/// Texts as a document.
pub open spec fn texts_doc(v: Seq<Seq<char>>) -> Doc {
    Doc::List(v.map_values(|s: Seq<char>| Doc::Text(s)))
}

/// Fields with one more, of texts, where there are any.
pub open spec fn with_texts(
    fields: Seq<(Seq<char>, Doc)>,
    name: Seq<char>,
    v: Seq<Seq<char>>,
) -> Seq<(Seq<char>, Doc)> {
    if v.len() == 0 {
        fields
    } else {
        fields.push((name, texts_doc(v)))
    }
}

/// The fields of name resolution: what is empty is left out.
pub open spec fn dns_fields(d: DnsView) -> Seq<(Seq<char>, Doc)> {
    let servers = with_texts(Seq::empty(), "nameservers"@, d.nameservers);
    let domain = match d.domain {
        Some(s) => servers.push(("domain"@, Doc::Text(s))),
        None => servers,
    };
    with_texts(with_texts(domain, "search"@, d.search), "options"@, d.options)
}

/// Name resolution as a document.
pub open spec fn dns_doc(d: DnsView) -> Doc {
    Doc::Record(dns_fields(d))
}

fn write_texts(w: RecordWriter, name: &str, v: &Vec<String>) -> (r: RecordWriter)
    ensures
        r.fields() == with_texts(w.fields(), name@, text::texts(v@)),
{
    if v.len() == 0 {
        return w;
    }
    let ghost docs = text::texts(v@).map_values(|s: Seq<char>| Doc::Text(s));
    let mut list = ListWriter::new();
    let mut i: usize = 0;
    while i < v.len()
        invariant
            i <= v@.len(),
            docs == text::texts(v@).map_values(|s: Seq<char>| Doc::Text(s)),
            list.items() == docs.take(i as int),
        decreases v@.len() - i,
    {
        list = list.text(v[i].as_str());
        i = i + 1;
        assert(list.items() =~= docs.take(i as int));
    }
    assert(docs.take(v@.len() as int) =~= docs);
    let written = list.finish();
    w.raw(name, written.as_str(), Ghost(texts_doc(text::texts(v@))))
}

impl Dns {
    /// The name resolution as JSON text.
    pub fn to_json(&self) -> (s: String)
        ensures
            s@ == json::doc_text(dns_doc(self@)),
    {
        let w = write_texts(RecordWriter::new(), "nameservers", &self.nameservers);
        let w = match &self.domain {
            Some(domain) => w.text("domain", domain.as_str()),
            None => w,
        };
        let w = write_texts(w, "search", &self.search);
        let w = write_texts(w, "options", &self.options);
        w.finish()
    }
}

// ---------------------------------------------------------------------------
// Laws
// ---------------------------------------------------------------------------

proof fn lemma_texts_read_back(v: Seq<Seq<char>>, name: Seq<char>)
    ensures
        texts_of(Some(json::doc_json(texts_doc(v))), name) == Ok::<Seq<Seq<char>>, decode::Fault>(
            v,
        ),
        forall|d: nat| d >= 1 ==> #[trigger] json::doc_fits(texts_doc(v), d),
{
    reveal_with_fuel(json::doc_fits, 2);
    let docs = v.map_values(|s: Seq<char>| Doc::Text(s));
    json::lemma_list_json(docs);
    let items = json::list_json(docs);
    assert forall|i: int| 0 <= i < items.len() implies text_decoder(name)(#[trigger] items[i])
        == Ok::<Seq<char>, decode::Fault>(v[i]) by {
        assert(docs[i] == Doc::Text(v[i]));
    }
    decode::lemma_decode_all_ok(items, text_decoder(name), v);
}

/// Name resolution reads back from its document as itself.
pub proof fn law_dns_reads_back(d: DnsView)
    ensures
        dns_of(json::doc_json(dns_doc(d))) == Ok::<DnsView, decode::Fault>(d),
        forall|n: nat| n >= 2 ==> #[trigger] json::doc_fits(dns_doc(d), n),
{
    reveal_strlit("nameservers");
    reveal_strlit("domain");
    reveal_strlit("search");
    reveal_strlit("options");
    assert("nameservers"@[0] == 'n' && "domain"@[0] == 'd' && "search"@[0] == 's'
        && "options"@[0] == 'o');
    lemma_texts_read_back(d.nameservers, "nameservers"@);
    lemma_texts_read_back(d.search, "search"@);
    lemma_texts_read_back(d.options, "options"@);
    let j = json::doc_json(dns_doc(d));
    decode::lemma_field_of_object(j, "nameservers"@, 0);
    decode::lemma_field_of_object(j, "domain"@, 1);
    decode::lemma_field_of_object(j, "search"@, 2);
    decode::lemma_field_of_object(j, "options"@, 3);
    let none = Seq::<(Seq<char>, Doc)>::empty();
    let servers = with_texts(none, "nameservers"@, d.nameservers);
    let domain = match d.domain {
        Some(s) => servers.push(("domain"@, Doc::Text(s))),
        None => servers,
    };
    let search = with_texts(domain, "search"@, d.search);
    json::lemma_members_push(none, ("nameservers"@, texts_doc(d.nameservers)));
    if let Some(s) = d.domain {
        json::lemma_members_push(servers, ("domain"@, Doc::Text(s)));
    }
    json::lemma_members_push(domain, ("search"@, texts_doc(d.search)));
    json::lemma_members_push(search, ("options"@, texts_doc(d.options)));
    if d.nameservers.len() == 0 {
        assert(d.nameservers =~= Seq::<Seq<char>>::empty());
    }
    if d.search.len() == 0 {
        assert(d.search =~= Seq::<Seq<char>>::empty());
    }
    if d.options.len() == 0 {
        assert(d.options =~= Seq::<Seq<char>>::empty());
    }
    assert forall|n: nat| n >= 2 implies #[trigger] json::doc_fits(dns_doc(d), n) by {
        let fields = dns_fields(d);
        let inner = (n - 1) as nat;
        assert(json::doc_fits(texts_doc(d.nameservers), inner));
        assert(json::doc_fits(texts_doc(d.search), inner));
        assert(json::doc_fits(texts_doc(d.options), inner));
        assert forall|i: int| 0 <= i < fields.len() implies json::doc_fits(
            (#[trigger] fields[i]).1,
            inner,
        ) by {
            reveal_with_fuel(json::doc_fits, 2);
        }
    }
}

} // verus!
