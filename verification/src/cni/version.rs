//! The answer to the `VERSION` command.

use vstd::prelude::*;
use vstd::string::*;

use crate::json;
use crate::json::Doc;
use crate::json_write::{ListWriter, RecordWriter};
use crate::text;

verus! {

/// The versions that a plugin supports.
#[derive(Debug)]
pub struct VersionResult {
    pub cni_version: String,
    pub supported_versions: Vec<String>,
}

/// Texts as documents.
pub open spec fn text_docs(v: Seq<Seq<char>>) -> Seq<Doc> {
    v.map_values(|s: Seq<char>| Doc::Text(s))
}

/// The answer as a document.
pub open spec fn version_doc(cni_version: Seq<char>, supported: Seq<Seq<char>>) -> Doc {
    Doc::Record(
        seq![
            ("cniVersion"@, Doc::Text(cni_version)),
            ("supportedVersions"@, Doc::List(text_docs(supported))),
        ],
    )
}

/// The answer of the plugins of this library, as JSON text.
pub open spec fn supported_text() -> Seq<char> {
    json::doc_text(version_doc("0.3.1"@, seq!["0.3.0"@, "0.3.1"@]))
}

impl VersionResult {
    /// The versions that the plugins of this library support.
    pub fn supported() -> (r: VersionResult)
        ensures
            r.cni_version@ == "0.3.1"@,
            text::texts(r.supported_versions@) == seq!["0.3.0"@, "0.3.1"@],
    {
        let supported_versions = vec!["0.3.0".to_owned(), "0.3.1".to_owned()];
        assert(text::texts(supported_versions@) =~= seq!["0.3.0"@, "0.3.1"@]);
        VersionResult { cni_version: "0.3.1".to_owned(), supported_versions }
    }

    /// The answer as JSON text.
    pub fn to_json(&self) -> (s: String)
        ensures
            s@ == json::doc_text(
                version_doc(self.cni_version@, text::texts(self.supported_versions@)),
            ),
    {
        let mut list = ListWriter::new();
        let ghost docs = text_docs(text::texts(self.supported_versions@));
        let mut i: usize = 0;
        while i < self.supported_versions.len()
            invariant
                i <= self.supported_versions@.len(),
                docs == text_docs(text::texts(self.supported_versions@)),
                list.items() == docs.take(i as int),
            decreases self.supported_versions@.len() - i,
        {
            list = list.text(self.supported_versions[i].as_str());
            i = i + 1;
            assert(list.items() =~= docs.take(i as int));
        }
        assert(docs.take(docs.len() as int) =~= docs);
        let versions = list.finish();
        let w = RecordWriter::new().text("cniVersion", self.cni_version.as_str()).raw(
            "supportedVersions",
            versions.as_str(),
            Ghost(Doc::List(docs)),
        );
        assert(w.fields() =~= seq![
            ("cniVersion"@, Doc::Text(self.cni_version@)),
            ("supportedVersions"@, Doc::List(docs)),
        ]);
        w.finish()
    }
}

/// The answer tells the version that the plugins speak and the versions that they
/// support, of which it is one.
pub proof fn law_version_is_told(v: Seq<char>, supported: Seq<Seq<char>>)
    ensures
        json::doc_json(version_doc(v, supported)) matches json::Json::Object(m) && {
            &&& m.contains_key("cniVersion"@) && m["cniVersion"@] == json::Json::Text(v)
            &&& m.contains_key("supportedVersions"@)
            &&& m["supportedVersions"@] matches json::Json::Array(list) && list.len()
                == supported.len() && forall|i: int|
                0 <= i < list.len() ==> #[trigger] list[i] == json::Json::Text(supported[i])
        },
        exists|spoken: Seq<char>, all: Seq<Seq<char>>|
            supported_text() == json::doc_text(#[trigger] version_doc(spoken, all)) && all.contains(
                spoken,
            ) && spoken == "0.3.1"@ && all.contains("0.3.0"@) && all.len() == 2,
{
    reveal_strlit("cniVersion");
    reveal_strlit("supportedVersions");
    assert("cniVersion"@.len() == 10 && "supportedVersions"@.len() == 17);
    let docs = text_docs(supported);
    json::lemma_members2(("cniVersion"@, Doc::Text(v)), ("supportedVersions"@, Doc::List(docs)));
    json::lemma_list_json(docs);
    let all = seq!["0.3.0"@, "0.3.1"@];
    assert(all[0] == "0.3.0"@ && all[1] == "0.3.1"@);
    assert(supported_text() == json::doc_text(version_doc("0.3.1"@, all)));
}

} // verus!
