//! The annotations with which a node publishes its lease.

use vstd::prelude::*;
use vstd::string::*;

use crate::decode;
use crate::decode::DecodeError;
use crate::json;
use crate::json::{Doc, Json};
use crate::json_write::RecordWriter;
use crate::text;

verus! {

/// What all the annotations' names start with.
pub const PREFIX: &'static str = "flannel.alpha.coreos.com";

/// The name of an annotation.
pub open spec fn key_of(suffix: Seq<char>) -> Seq<char> {
    PREFIX@ + "/"@ + suffix
}

/// The name of an annotation.
pub fn key(suffix: &str) -> (s: String)
    ensures
        s@ == key_of(suffix@),
{
    text::join3(PREFIX, "/", suffix)
}

/// What other nodes need to know of a node's VXLAN link.
#[derive(Debug, PartialEq)]
pub struct BackendData {
    pub vtep_mac: String,
}

/// The backend data as a document.
pub open spec fn backend_doc(vtep_mac: Seq<char>) -> Doc {
    Doc::Record(seq![("VtepMAC"@, Doc::Text(vtep_mac))])
}

/// The hardware address that a value stands for.
pub open spec fn backend_of(j: Json) -> Result<Seq<char>, decode::Fault> {
    if !decode::is_record(j, 0, 1) {
        Err(decode::Fault::Invalid("BackendData"@))
    } else {
        match decode::field(j, seq!["VtepMAC"@], 0) {
            Err(f) => Err(f),
            Ok(mac) => decode::required_text(mac, "VtepMAC"@),
        }
    }
}

/// The hardware address that a JSON text stands for.
pub open spec fn backend_data(s: Seq<char>) -> Result<Seq<char>, decode::Fault> {
    match decode::document(s) {
        Err(f) => Err(f),
        Ok(j) => backend_of(j),
    }
}

impl BackendData {
    /// The backend data as JSON text.
    pub fn to_json(&self) -> (s: String)
        ensures
            s@ == json::doc_text(backend_doc(self.vtep_mac@)),
    {
        let w = RecordWriter::new().text("VtepMAC", self.vtep_mac.as_str());
        assert(w.fields() =~= seq![("VtepMAC"@, Doc::Text(self.vtep_mac@))]);
        w.finish()
    }

    /// Reads backend data from JSON text. What `to_json` writes reads back as
    /// it was.
    pub fn from_json(s: &str) -> (r: Result<BackendData, DecodeError>)
        ensures
            decode::outcome(r, |b: BackendData| b.vtep_mac@) == backend_data(s@),
            forall|mac: Seq<char>|
                s@ == json::doc_text(#[trigger] backend_doc(mac)) ==> r is Ok
                    && r->Ok_0.vtep_mac@ == mac,
    {
        let d = decode::read_document(s);
        proof {
            assert forall|mac: Seq<char>|
                s@ == json::doc_text(#[trigger] backend_doc(mac)) implies backend_data(s@) == Ok::<
                Seq<char>,
                decode::Fault,
            >(mac) by {
                law_backend_data_reads_back(mac);
            }
        }
        let v = d?;
        if !decode::record(&v, 0, 1) {
            return Err(DecodeError::Invalid("BackendData".to_owned()));
        }
        let vtep_mac = decode::take_text(decode::field1(&v, "VtepMAC", 0)?, "VtepMAC")?;
        Ok(BackendData { vtep_mac })
    }
}

/// Backend data reads back from its text as it was.
pub proof fn law_backend_data_reads_back(mac: Seq<char>)
    ensures
        backend_of(json::doc_json(backend_doc(mac))) == Ok::<Seq<char>, decode::Fault>(mac),
        json::doc_fits(backend_doc(mac), json::MAX_DEPTH as nat),
{
    reveal_with_fuel(json::doc_fits, 2);
    json::lemma_members1(("VtepMAC"@, Doc::Text(mac)));
    decode::lemma_field_of_object(json::doc_json(backend_doc(mac)), "VtepMAC"@, 0);
}

} // verus!
