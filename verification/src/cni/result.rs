//! The result that a CNI plugin reports, in version 0.3.1 of the format.

use serde_json::Value;
use vstd::prelude::*;
use vstd::string::*;

use crate::cni::config;
use crate::cni::config::Route;
use crate::cni::dns;
use crate::cni::dns::Dns;
use crate::decode;
use crate::decode::DecodeError;
use crate::json;
use crate::json::Doc;
use crate::json_write::{ListWriter, RecordWriter};
use crate::text;

verus! {

/// The result of adding a container to a network.
#[derive(Debug)]
pub struct CniResult {
    pub cni_version: String,
    pub ips: Vec<IpResult>,
    pub routes: Vec<Route>,
}

/// One address of the container.
#[derive(Debug)]
pub struct IpResult {
    pub version: String,
    pub address: String,
    pub gateway: Option<String>,
}

/// The model of `CniResult`.
pub struct ResultView {
    pub cni_version: Seq<char>,
    pub ips: Seq<IpView>,
    pub routes: Seq<config::RouteView>,
}

/// The model of `IpResult`.
pub struct IpView {
    pub version: Seq<char>,
    pub address: Seq<char>,
    pub gateway: Option<Seq<char>>,
}

impl View for IpResult {
    type V = IpView;

    open spec fn view(&self) -> IpView {
        IpView {
            version: self.version@,
            address: self.address@,
            gateway: text::opt_text(self.gateway),
        }
    }
}

/// The models of addresses.
pub open spec fn ip_views(v: Seq<IpResult>) -> Seq<IpView> {
    v.map_values(|i: IpResult| i@)
}

impl View for CniResult {
    type V = ResultView;

    open spec fn view(&self) -> ResultView {
        ResultView {
            cni_version: self.cni_version@,
            ips: ip_views(self.ips@),
            routes: config::route_views(self.routes@),
        }
    }
}

// ---------------------------------------------------------------------------
// Writing
// ---------------------------------------------------------------------------

/// A route as a document: the gateway is written where there is one.
pub open spec fn route_doc(r: config::RouteView) -> Doc {
    match r.gw {
        Some(gw) => Doc::Record(seq![("dst"@, Doc::Text(r.dst)), ("gw"@, Doc::Text(gw))]),
        None => Doc::Record(seq![("dst"@, Doc::Text(r.dst))]),
    }
}

/// An address as a document: the gateway is written where there is one.
pub open spec fn ip_doc(i: IpView) -> Doc {
    match i.gateway {
        Some(gw) => Doc::Record(
            seq![
                ("version"@, Doc::Text(i.version)),
                ("address"@, Doc::Text(i.address)),
                ("gateway"@, Doc::Text(gw)),
            ],
        ),
        None => Doc::Record(
            seq![("version"@, Doc::Text(i.version)), ("address"@, Doc::Text(i.address))],
        ),
    }
}

/// Routes as documents.
pub open spec fn route_docs(v: Seq<config::RouteView>) -> Seq<Doc> {
    v.map_values(|r: config::RouteView| route_doc(r))
}

/// Addresses as documents.
pub open spec fn ip_docs(v: Seq<IpView>) -> Seq<Doc> {
    v.map_values(|i: IpView| ip_doc(i))
}

/// The fields of a result: the routes are written where there are any.
pub open spec fn result_fields(r: ResultView) -> Seq<(Seq<char>, Doc)> {
    let fields = seq![
        ("cniVersion"@, Doc::Text(r.cni_version)),
        ("ips"@, Doc::List(ip_docs(r.ips))),
    ];
    if r.routes.len() == 0 {
        fields
    } else {
        fields.push(("routes"@, Doc::List(route_docs(r.routes))))
    }
}

/// A result as a document, with the name resolution where there is any.
pub open spec fn result_doc(r: ResultView, d: Option<dns::DnsView>) -> Doc {
    match d {
        Some(d) => Doc::Record(result_fields(r).push(("dns"@, dns::dns_doc(d)))),
        None => Doc::Record(result_fields(r)),
    }
}

fn route_json(r: &Route) -> (s: String)
    ensures
        s@ == json::doc_text(route_doc(r@)),
{
    let w = RecordWriter::new().text("dst", r.dst.as_str());
    match &r.gw {
        Some(gw) => {
            let w = w.text("gw", gw.as_str());
            assert(w.fields() =~= seq![("dst"@, Doc::Text(r.dst@)), ("gw"@, Doc::Text(gw@))]);
            w.finish()
        },
        None => {
            assert(w.fields() =~= seq![("dst"@, Doc::Text(r.dst@))]);
            w.finish()
        },
    }
}

fn ip_json(i: &IpResult) -> (s: String)
    ensures
        s@ == json::doc_text(ip_doc(i@)),
{
    let w = RecordWriter::new().text("version", i.version.as_str()).text(
        "address",
        i.address.as_str(),
    );
    match &i.gateway {
        Some(gw) => {
            let w = w.text("gateway", gw.as_str());
            assert(w.fields() =~= seq![
                ("version"@, Doc::Text(i.version@)),
                ("address"@, Doc::Text(i.address@)),
                ("gateway"@, Doc::Text(gw@)),
            ]);
            w.finish()
        },
        None => {
            assert(w.fields() =~= seq![
                ("version"@, Doc::Text(i.version@)),
                ("address"@, Doc::Text(i.address@)),
            ]);
            w.finish()
        },
    }
}

impl CniResult {
    fn write(&self) -> (w: RecordWriter)
        ensures
            w.fields() == result_fields(self@),
    {
        let mut ips = ListWriter::new();
        let mut i: usize = 0;
        while i < self.ips.len()
            invariant
                i <= self.ips@.len(),
                ips.items() == ip_docs(self@.ips).take(i as int),
            decreases self.ips@.len() - i,
        {
            let one = ip_json(&self.ips[i]);
            let ghost before = ips.items();
            ips = ips.raw(one.as_str(), Ghost(ip_doc(self@.ips[i as int])));
            i = i + 1;
            assert(ips.items() =~= ip_docs(self@.ips).take(i as int));
        }
        assert(ip_docs(self@.ips).take(self.ips@.len() as int) =~= ip_docs(self@.ips));
        let ips_text = ips.finish();
        let w = RecordWriter::new().text("cniVersion", self.cni_version.as_str()).raw(
            "ips",
            ips_text.as_str(),
            Ghost(Doc::List(ip_docs(self@.ips))),
        );
        let ghost fields = seq![
            ("cniVersion"@, Doc::Text(self.cni_version@)),
            ("ips"@, Doc::List(ip_docs(self@.ips))),
        ];
        assert(w.fields() =~= fields);
        if self.routes.len() == 0 {
            return w;
        }
        let mut routes = ListWriter::new();
        let mut k: usize = 0;
        while k < self.routes.len()
            invariant
                k <= self.routes@.len(),
                routes.items() == route_docs(self@.routes).take(k as int),
            decreases self.routes@.len() - k,
        {
            let one = route_json(&self.routes[k]);
            routes = routes.raw(one.as_str(), Ghost(route_doc(self@.routes[k as int])));
            k = k + 1;
            assert(routes.items() =~= route_docs(self@.routes).take(k as int));
        }
        assert(route_docs(self@.routes).take(self.routes@.len() as int) =~= route_docs(
            self@.routes,
        ));
        let routes_text = routes.finish();
        w.raw("routes", routes_text.as_str(), Ghost(Doc::List(route_docs(self@.routes))))
    }

    /// The result as JSON text.
    pub fn to_json(&self) -> (s: String)
        ensures
            s@ == json::doc_text(result_doc(self@, None)),
    {
        self.write().finish()
    }

    /// The result as JSON text, with the name resolution where there is any.
    pub fn to_json_with_dns(&self, d: &Option<Dns>) -> (s: String)
        ensures
            s@ == json::doc_text(result_doc(self@, dns::opt_dns(*d))),
    {
        let w = self.write();
        match d {
            Some(d) => {
                let written = d.to_json();
                w.raw("dns", written.as_str(), Ghost(dns::dns_doc(d@))).finish()
            },
            None => w.finish(),
        }
    }

    /// Reads a result from JSON text.
    pub fn parse(s: &str) -> (r: Result<CniResult, DecodeError>)
        ensures
            decode::outcome(r, |x: CniResult| x@) == result(s@),
            forall|v: ResultView, d: Option<dns::DnsView>|
                s@ == json::doc_text(#[trigger] result_doc(v, d)) ==> r is Ok && r->Ok_0@ == v,
    {
        let read = decode::read_document(s);
        proof {
            assert forall|x: ResultView, d: Option<dns::DnsView>|
                s@ == json::doc_text(#[trigger] result_doc(x, d)) implies result(s@) == Ok::<
                ResultView,
                decode::Fault,
            >(x) by {
                law_result_reads_back(x, d);
            }
        }
        let v = read?;
        CniResult::decode(&v)
    }
}

// ---------------------------------------------------------------------------
// Reading
// ---------------------------------------------------------------------------

/// The address that a value stands for.
pub open spec fn ip_of(j: json::Json) -> Result<IpView, decode::Fault> {
    if !decode::is_record(j, 3, 3) {
        Err(decode::Fault::Invalid("IpResult"@))
    } else {
        match decode::field(j, seq!["version"@], 0) {
            Err(f) => Err(f),
            Ok(version) => match decode::required_text(version, "version"@) {
                Err(f) => Err(f),
                Ok(version) => match decode::field(j, seq!["address"@], 1) {
                    Err(f) => Err(f),
                    Ok(address) => match decode::required_text(address, "address"@) {
                        Err(f) => Err(f),
                        Ok(address) => match decode::field(j, seq!["gateway"@], 2) {
                            Err(f) => Err(f),
                            Ok(gateway) => match decode::optional_text(gateway, "gateway"@) {
                                Err(f) => Err(f),
                                Ok(gateway) => Ok(IpView { version, address, gateway }),
                            },
                        },
                    },
                },
            },
        }
    }
}

/// The decoder of addresses.
pub open spec fn ip_decoder() -> spec_fn(json::Json) -> Result<IpView, decode::Fault> {
    |j: json::Json| ip_of(j)
}

/// The addresses that a field stands for.
pub open spec fn ips_of(o: Option<json::Json>) -> Result<Seq<IpView>, decode::Fault> {
    match decode::required_list(o, "ips"@) {
        Err(f) => Err(f),
        Ok(items) => decode::decode_all(items, ip_decoder()),
    }
}

/// The result that a value stands for.
pub open spec fn result_of(j: json::Json) -> Result<ResultView, decode::Fault> {
    if !decode::is_record(j, 0, 3) {
        Err(decode::Fault::Invalid("CniResult"@))
    } else {
        match decode::field(j, seq!["cniVersion"@], 0) {
            Err(f) => Err(f),
            Ok(version) => match decode::required_text(version, "cniVersion"@) {
                Err(f) => Err(f),
                Ok(cni_version) => match decode::field(j, seq!["ips"@], 1) {
                    Err(f) => Err(f),
                    Ok(ips) => match ips_of(ips) {
                        Err(f) => Err(f),
                        Ok(ips) => match decode::field(j, seq!["routes"@], 2) {
                            Err(f) => Err(f),
                            Ok(routes) => match config::routes_of(routes) {
                                Err(f) => Err(f),
                                Ok(routes) => Ok(ResultView { cni_version, ips, routes }),
                            },
                        },
                    },
                },
            },
        }
    }
}

/// The result that a JSON text stands for.
pub open spec fn result(s: Seq<char>) -> Result<ResultView, decode::Fault> {
    match decode::document(s) {
        Err(f) => Err(f),
        Ok(j) => result_of(j),
    }
}

impl IpResult {
    /// Decodes an address.
    pub fn decode(v: &Value) -> (r: Result<IpResult, DecodeError>)
        ensures
            decode::outcome(r, |x: IpResult| x@) == ip_of(json::json_view(*v)),
    {
        if !decode::record(v, 3, 3) {
            return Err(DecodeError::Invalid("IpResult".to_owned()));
        }
        let version = decode::take_text(decode::field1(v, "version", 0)?, "version")?;
        let address = decode::take_text(decode::field1(v, "address", 1)?, "address")?;
        let gateway = decode::take_optional_text(decode::field1(v, "gateway", 2)?, "gateway")?;
        Ok(IpResult { version, address, gateway })
    }
}

fn take_ips(o: Option<&Value>) -> (r: Result<Vec<IpResult>, DecodeError>)
    ensures
        decode::outcome(r, |x: Vec<IpResult>| ip_views(x@)) == ips_of(decode::opt_view(o)),
{
    let items = decode::take_list(o, "ips")?;
    let mut out: Vec<IpResult> = Vec::new();
    let mut i: usize = 0;
    let ghost all = json::views(items@);
    assert(all.take(0) =~= Seq::<json::Json>::empty());
    assert(ip_views(out@) =~= Seq::<IpView>::empty());
    while i < items.len()
        invariant
            i <= items@.len(),
            all == json::views(items@),
            ips_of(decode::opt_view(o)) == decode::decode_all(all, ip_decoder()),
            decode::decode_all(all.take(i as int), ip_decoder()) == Ok::<
                Seq<IpView>,
                decode::Fault,
            >(ip_views(out@)),
        decreases items@.len() - i,
    {
        proof {
            decode::lemma_decode_next(all, ip_decoder(), i as int);
        }
        match IpResult::decode(&items[i]) {
            Ok(x) => {
                let ghost before = ip_views(out@);
                out.push(x);
                assert(ip_views(out@) =~= before.push(x@));
            },
            Err(e) => {
                proof {
                    decode::lemma_decode_fault(all, ip_decoder(), i + 1);
                }
                return Err(e);
            },
        }
        i = i + 1;
    }
    assert(all.take(items@.len() as int) =~= all);
    Ok(out)
}

impl CniResult {
    /// Decodes a result.
    pub fn decode(v: &Value) -> (r: Result<CniResult, DecodeError>)
        ensures
            decode::outcome(r, |x: CniResult| x@) == result_of(json::json_view(*v)),
    {
        if !decode::record(v, 0, 3) {
            return Err(DecodeError::Invalid("CniResult".to_owned()));
        }
        let cni_version = decode::take_text(decode::field1(v, "cniVersion", 0)?, "cniVersion")?;
        let ips = take_ips(decode::field1(v, "ips", 1)?)?;
        let routes = config::take_routes(decode::field1(v, "routes", 2)?)?;
        Ok(CniResult { cni_version, ips, routes })
    }
}

// ---------------------------------------------------------------------------
// Laws
// ---------------------------------------------------------------------------

proof fn lemma_route_reads_back(r: config::RouteView)
    ensures
        config::route_of(json::doc_json(route_doc(r))) == Ok::<config::RouteView, decode::Fault>(r),
        forall|d: nat| d >= 1 ==> #[trigger] json::doc_fits(route_doc(r), d),
{
    reveal_with_fuel(json::doc_fits, 2);
    reveal_strlit("dst");
    reveal_strlit("gw");
    assert("dst"@ != "gw"@) by {
        assert("dst"@.len() != "gw"@.len());
    }
    let j = json::doc_json(route_doc(r));
    decode::lemma_field_of_object(j, "dst"@, 0);
    decode::lemma_field_of_object(j, "gw"@, 1);
    match r.gw {
        Some(gw) => {
            json::lemma_members2(("dst"@, Doc::Text(r.dst)), ("gw"@, Doc::Text(gw)));
        },
        None => {
            json::lemma_members1(("dst"@, Doc::Text(r.dst)));
        },
    }
}

proof fn lemma_ip_reads_back(i: IpView)
    ensures
        ip_of(json::doc_json(ip_doc(i))) == Ok::<IpView, decode::Fault>(i),
        forall|d: nat| d >= 1 ==> #[trigger] json::doc_fits(ip_doc(i), d),
{
    reveal_with_fuel(json::doc_fits, 2);
    reveal_strlit("version");
    reveal_strlit("address");
    reveal_strlit("gateway");
    assert("version"@[0] == 'v' && "address"@[0] == 'a' && "gateway"@[0] == 'g');
    let j = json::doc_json(ip_doc(i));
    decode::lemma_field_of_object(j, "version"@, 0);
    decode::lemma_field_of_object(j, "address"@, 1);
    decode::lemma_field_of_object(j, "gateway"@, 2);
    match i.gateway {
        Some(gw) => {
            json::lemma_members3(
                ("version"@, Doc::Text(i.version)),
                ("address"@, Doc::Text(i.address)),
                ("gateway"@, Doc::Text(gw)),
            );
        },
        None => {
            json::lemma_members2(
                ("version"@, Doc::Text(i.version)),
                ("address"@, Doc::Text(i.address)),
            );
        },
    }
}

/// A result reads back from its text as itself: the text that is written
/// stands for the same result, with or without name resolution, which reads
/// back as well.
pub proof fn law_result_reads_back(r: ResultView, d: Option<dns::DnsView>)
    ensures
        result_of(json::doc_json(result_doc(r, d))) == Ok::<ResultView, decode::Fault>(r),
        dns::opt_dns_of(json::member_of(json::doc_json(result_doc(r, d)), "dns"@)) == Ok::<
            Option<dns::DnsView>,
            decode::Fault,
        >(d),
        json::doc_fits(result_doc(r, d), json::MAX_DEPTH as nat),
{
    reveal_with_fuel(json::doc_fits, 3);
    reveal_strlit("cniVersion");
    reveal_strlit("ips");
    reveal_strlit("routes");
    reveal_strlit("dns");
    assert("cniVersion"@[0] == 'c' && "ips"@[0] == 'i' && "routes"@[0] == 'r' && "dns"@[0] == 'd');
    let j = json::doc_json(result_doc(r, d));
    decode::lemma_field_of_object(j, "cniVersion"@, 0);
    decode::lemma_field_of_object(j, "ips"@, 1);
    decode::lemma_field_of_object(j, "routes"@, 2);
    let version = ("cniVersion"@, Doc::Text(r.cni_version));
    let ips = ("ips"@, Doc::List(ip_docs(r.ips)));
    let routes = ("routes"@, Doc::List(route_docs(r.routes)));
    json::lemma_list_json(ip_docs(r.ips));
    json::lemma_list_json(route_docs(r.routes));
    let ip_items = json::list_json(ip_docs(r.ips));
    let route_items = json::list_json(route_docs(r.routes));
    assert forall|i: int| 0 <= i < r.ips.len() implies ip_decoder()(#[trigger] ip_items[i]) == Ok::<
        IpView,
        decode::Fault,
    >(r.ips[i]) by {
        lemma_ip_reads_back(r.ips[i]);
    }
    assert forall|i: int| 0 <= i < r.ips.len() implies json::doc_fits(
        #[trigger] ip_docs(r.ips)[i],
        125,
    ) by {
        lemma_ip_reads_back(r.ips[i]);
    }
    assert forall|i: int| 0 <= i < r.routes.len() implies config::route_decoder()(
        #[trigger] route_items[i],
    ) == Ok::<config::RouteView, decode::Fault>(r.routes[i]) by {
        lemma_route_reads_back(r.routes[i]);
    }
    assert forall|i: int| 0 <= i < r.routes.len() implies json::doc_fits(
        #[trigger] route_docs(r.routes)[i],
        125,
    ) by {
        lemma_route_reads_back(r.routes[i]);
    }
    decode::lemma_decode_all_ok(ip_items, ip_decoder(), r.ips);
    decode::lemma_decode_all_ok(route_items, config::route_decoder(), r.routes);
    json::lemma_members2(version, ips);
    json::lemma_members_push(seq![version, ips], routes);
    if r.routes.len() == 0 {
        assert(r.routes =~= Seq::<config::RouteView>::empty());
    }
    let fields = result_fields(r);
    assert forall|i: int| 0 <= i < fields.len() implies json::doc_fits(
        (#[trigger] fields[i]).1,
        126,
    ) by {}
    if let Some(d) = d {
        dns::law_dns_reads_back(d);
        json::lemma_members_push(fields, ("dns"@, dns::dns_doc(d)));
        assert(json::doc_fits(dns::dns_doc(d), 126));
    }
}

} // verus!
