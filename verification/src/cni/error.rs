//! The error that a CNI plugin reports.

use vstd::prelude::*;
use vstd::string::*;

use crate::json;
use crate::json::Doc;
use crate::json_write::RecordWriter;
use crate::number;
use crate::text;

verus! {

/// CNI error result. Codes: 4 invalid environment, 5 input or output, 6
/// decoding, 7 invalid configuration, 11 try again.
#[derive(Debug)]
pub struct CniError {
    pub cni_version: String,
    pub code: u32,
    pub msg: String,
    pub details: Option<String>,
}

/// The model of `CniError`.
pub struct ErrorView {
    pub cni_version: Seq<char>,
    pub code: u32,
    pub msg: Seq<char>,
    pub details: Option<Seq<char>>,
}

impl View for CniError {
    type V = ErrorView;

    open spec fn view(&self) -> ErrorView {
        ErrorView {
            cni_version: self.cni_version@,
            code: self.code,
            msg: self.msg@,
            details: text::opt_text(self.details),
        }
    }
}

/// An error without details.
pub open spec fn error(code: u32, msg: Seq<char>) -> ErrorView {
    ErrorView { cni_version: "0.3.1"@, code, msg, details: None }
}

/// An error with details.
pub open spec fn detailed(code: u32, msg: Seq<char>, details: Seq<char>) -> ErrorView {
    ErrorView { cni_version: "0.3.1"@, code, msg, details: Some(details) }
}

/// An error as a document: the details are written where there are any.
pub open spec fn error_doc(e: ErrorView) -> Doc {
    let fields = seq![
        ("cniVersion"@, Doc::Text(e.cni_version)),
        ("code"@, Doc::Unsigned(e.code as u64)),
        ("msg"@, Doc::Text(e.msg)),
    ];
    match e.details {
        Some(d) => Doc::Record(fields.push(("details"@, Doc::Text(d)))),
        None => Doc::Record(fields),
    }
}

/// The model of a result that may be an error.
pub open spec fn result_view<T, V>(r: Result<T, CniError>, view: spec_fn(T) -> V) -> Result<
    V,
    ErrorView,
> {
    match r {
        Ok(t) => Ok(view(t)),
        Err(e) => Err(e@),
    }
}

impl CniError {
    /// An error without details, of the version that the plugins speak.
    pub fn new(code: u32, msg: &str) -> (e: CniError)
        ensures
            e@ == error(code, msg@),
    {
        CniError { cni_version: "0.3.1".to_owned(), code, msg: msg.to_owned(), details: None }
    }

    /// The error with the given details in place of any others.
    pub fn with_details(self, details: &str) -> (e: CniError)
        ensures
            e@ == (ErrorView { details: Some(details@), ..self@ }),
    {
        CniError {
            cni_version: self.cni_version,
            code: self.code,
            msg: self.msg,
            details: Some(details.to_owned()),
        }
    }

    /// The error as JSON text.
    pub fn to_json(&self) -> (s: String)
        ensures
            s@ == json::doc_text(error_doc(self@)),
    {
        let w = RecordWriter::new().text("cniVersion", self.cni_version.as_str()).number(
            "code",
            self.code as u64,
        ).text("msg", self.msg.as_str());
        let w = match &self.details {
            Some(d) => w.text("details", d.as_str()),
            None => w,
        };
        assert(Doc::Record(w.fields()) == error_doc(self@)) by {
            let fields = seq![
                ("cniVersion"@, Doc::Text(self.cni_version@)),
                ("code"@, Doc::Unsigned(self.code as u64)),
                ("msg"@, Doc::Text(self.msg@)),
            ];
            match self.details {
                Some(d) => assert(w.fields() =~= fields.push(("details"@, Doc::Text(d@)))),
                None => assert(w.fields() =~= fields),
            }
        }
        w.finish()
    }

    /// The error as a line of text.
    pub fn message(&self) -> (s: String)
        ensures
            s@ == "CNI error "@ + number::decimal(self.code as nat) + ": "@ + self.msg@,
    {
        let mut s = text::join3("CNI error ", number::decimal_text(self.code as u64).as_str(), ": ");
        s.append(self.msg.as_str());
        s
    }
}

/// What is printed of an error tells it: its version, its code, its message and,
/// where there are any, its details, each under its name.
pub proof fn law_error_is_told(e: ErrorView)
    ensures
        json::doc_json(error_doc(e)) matches json::Json::Object(m) && {
            &&& m.contains_key("cniVersion"@) && m["cniVersion"@] == json::Json::Text(e.cni_version)
            &&& m.contains_key("code"@) && m["code"@] == json::Json::Unsigned(e.code as u64)
            &&& m.contains_key("msg"@) && m["msg"@] == json::Json::Text(e.msg)
            &&& match e.details {
                Some(d) => m.contains_key("details"@) && m["details"@] == json::Json::Text(d),
                None => !m.contains_key("details"@),
            }
        },
{
    reveal_strlit("cniVersion");
    reveal_strlit("code");
    reveal_strlit("msg");
    reveal_strlit("details");
    assert("cniVersion"@.len() == 10 && "code"@.len() == 4 && "msg"@.len() == 3 && "details"@.len()
        == 7);
    let a = ("cniVersion"@, Doc::Text(e.cni_version));
    let b = ("code"@, Doc::Unsigned(e.code as u64));
    let c = ("msg"@, Doc::Text(e.msg));
    json::lemma_members3(a, b, c);
    if let Some(d) = e.details {
        json::lemma_members_push(seq![a, b, c], ("details"@, Doc::Text(d)));
    }
}

} // verus!
