//! The commands of the host-local plugin.

use vstd::prelude::*;
use vstd::string::*;

use crate::cni::config;
use crate::cni::config::NetConf;
use crate::cni::delegate;
use crate::cni::env;
use crate::cni::env::CniArgs;
use crate::cni::error;
use crate::cni::error::CniError;
use crate::cni::plugin;
use crate::cni::plugin::Verb;
use crate::cni::result;
use crate::cni::result::{CniResult, IpResult};
use crate::cni::version;
use crate::cni::version::VersionResult;
use crate::cni_host_local::allocator;
use crate::cni_host_local::allocator::Allocator;
use crate::cni_host_local::store;
use crate::cni_host_local::store::{Change, Store};
use crate::decode;
use crate::ipv4;
use crate::ipv4::Ipv4Net;
use crate::json;
use crate::number;
use crate::progress;
use crate::progress::Progress;
use crate::text;
use crate::text_map::TextMap;

verus! {

/// The directory of the leases where the configuration names none.
pub const DEFAULT_DATA_DIR: &'static str = "/var/lib/cni/networks";

/// A question to the disk.
#[derive(Debug, PartialEq, Eq)]
pub enum Question {
    /// Create the directory, with those above it, if it is absent.
    Open(String),
    /// Lock the directory until the command has ended.
    Lock(String),
    /// Read the files of the directory.
    Load(String),
    /// Change files of the directory, in order, up to the first failure.
    Save(String, Vec<Change>),
}

/// The model of `Question`.
pub enum QuestionView {
    Open(Seq<char>),
    Lock(Seq<char>),
    Load(Seq<char>),
    Save(Seq<char>, Seq<store::ChangeView>),
}

impl View for Question {
    type V = QuestionView;

    open spec fn view(&self) -> QuestionView {
        match self {
            Question::Open(d) => QuestionView::Open(d@),
            Question::Lock(d) => QuestionView::Lock(d@),
            Question::Load(d) => QuestionView::Load(d@),
            Question::Save(d, c) => QuestionView::Save(d@, store::change_views(c@)),
        }
    }
}

/// An answer of the disk.
#[derive(Debug)]
pub enum Answer {
    Done,
    Loaded(TextMap<String>),
    Failed(String),
}

/// The model of `Answer`.
pub enum AnswerView {
    Done,
    Loaded(store::Files),
    Failed(Seq<char>),
}

impl View for Answer {
    type V = AnswerView;

    open spec fn view(&self) -> AnswerView {
        match self {
            Answer::Done => AnswerView::Done,
            Answer::Loaded(f) => AnswerView::Loaded(store::contents(f@)),
            Answer::Failed(e) => AnswerView::Failed(e@),
        }
    }
}

/// The models of answers.
pub open spec fn answer_views(v: Seq<Answer>) -> Seq<AnswerView> {
    v.map_values(|a: Answer| a@)
}

/// The progress of a command, by its model.
pub open spec fn command_view(p: Progress<Question, Result<String, CniError>>) -> Progress<
    QuestionView,
    Result<Seq<char>, error::ErrorView>,
> {
    progress::progress_view(
        p,
        |q: Question| q@,
        |r: Result<String, CniError>| error::result_view(r, |s: String| s@),
    )
}

// ---------------------------------------------------------------------------
// Configuration
// ---------------------------------------------------------------------------

/// The configuration, or the error where it is not readable.
pub open spec fn loaded(stdin: Seq<char>) -> Result<config::NetConfView, error::ErrorView> {
    match config::net_conf(stdin) {
        Ok(nc) => Ok(nc),
        Err(f) => Err(
            error::detailed(6, "failed to decode network config"@, decode::fault_text(f)),
        ),
    }
}

fn load(stdin: &str) -> (r: Result<NetConf, CniError>)
    ensures
        error::result_view(r, |c: NetConf| c@) == loaded(stdin@),
{
    match NetConf::parse(stdin) {
        Ok(nc) => Ok(nc),
        Err(e) => Err(
            CniError::new(6, "failed to decode network config").with_details(e.message().as_str()),
        ),
    }
}

/// The subnet and the gateway of the first range of a configuration. A subnet
/// with a prefix shorter than 16 is refused.
pub open spec fn allocation(nc: config::NetConfView) -> Result<
    (ipv4::NetView, u32),
    error::ErrorView,
> {
    if nc.ipam.ranges.len() == 0 || nc.ipam.ranges[0].len() == 0 {
        Err(error::error(7, "ipam.ranges is empty"@))
    } else {
        let range = nc.ipam.ranges[0][0];
        match ipv4::cidr_read(range.subnet) {
            Err(_) => Err(error::error(7, "invalid subnet "@ + range.subnet)),
            Ok(n) => {
                let net = ipv4::NetView { addr: n.0, prefix: n.1 };
                if net.prefix < 16 {
                    Err(
                        error::error(
                            7,
                            "subnet "@ + range.subnet + " too large (min prefix /16)"@,
                        ),
                    )
                } else {
                    match range.gateway {
                        None => Ok((net, allocator::first_after(net))),
                        Some(g) => match ipv4::address(g) {
                            None => Err(error::error(7, "invalid gateway "@ + g)),
                            Some(gw) => Ok((net, gw)),
                        },
                    }
                }
            },
        }
    }
}

fn allocator_for(nc: &NetConf) -> (r: Result<Allocator, CniError>)
    ensures
        error::result_view(r, |a: Allocator| (a.net(), a.gate())) == allocation(nc@),
{
    let ghost ranges = nc@.ipam.ranges;
    if nc.ipam.ranges.len() == 0 {
        return Err(CniError::new(7, "ipam.ranges is empty"));
    }
    assert(ranges[0] == config::range_views(nc.ipam.ranges@[0]@));
    if nc.ipam.ranges[0].len() == 0 {
        return Err(CniError::new(7, "ipam.ranges is empty"));
    }
    let range = &nc.ipam.ranges[0][0];
    assert(ranges[0][0] == range@);
    let net = match Ipv4Net::parse(range.subnet.as_str()) {
        Ok(n) => n,
        Err(_) => {
            return Err(
                CniError::new(7, text::join2("invalid subnet ", range.subnet.as_str()).as_str()),
            );
        },
    };
    if net.prefix() < 16 {
        return Err(
            CniError::new(
                7,
                text::join3(
                    "subnet ",
                    range.subnet.as_str(),
                    " too large (min prefix /16)",
                ).as_str(),
            ),
        );
    }
    match &range.gateway {
        None => Ok(Allocator::new(net, None)),
        Some(g) => match ipv4::parse_address(g.as_str()) {
            None => Err(CniError::new(7, text::join2("invalid gateway ", g.as_str()).as_str())),
            Some(gw) => Ok(Allocator::new(net, Some(gw))),
        },
    }
}

/// The directory of a network's leases.
pub open spec fn lease_dir(nc: config::NetConfView) -> Seq<char> {
    delegate::joined_path(
        match nc.ipam.data_dir {
            Some(d) => d,
            None => DEFAULT_DATA_DIR@,
        },
        nc.name,
    )
}

fn store_dir(nc: &NetConf) -> (d: String)
    ensures
        d@ == lease_dir(nc@),
{
    match &nc.ipam.data_dir {
        Some(d) => delegate::join_path(d.as_str(), nc.name.as_str()),
        None => delegate::join_path(DEFAULT_DATA_DIR, nc.name.as_str()),
    }
}

// ---------------------------------------------------------------------------
// Commands
// ---------------------------------------------------------------------------

/// The address that is handed out next.
pub open spec fn next_address(
    net: ipv4::NetView,
    gateway: u32,
    files: store::Files,
) -> Option<u32> {
    choose|r: Option<u32>|
        allocator::is_next(net, gateway, store::leased_in(files), store::last_in(files), r)
}

/// The result for an address that was handed out.
pub open spec fn allocated(
    nc: config::NetConfView,
    net: ipv4::NetView,
    gateway: u32,
    ip: u32,
) -> result::ResultView {
    result::ResultView {
        cni_version: if nc.cni_version.len() == 0 {
            "0.3.1"@
        } else {
            nc.cni_version
        },
        ips: seq![
            result::IpView {
                version: "4"@,
                address: ipv4::cidr(ipv4::NetView { addr: ip, prefix: net.prefix }),
                gateway: Some(ipv4::dotted(gateway)),
            },
        ],
        routes: nc.ipam.routes,
    }
}

/// The files that an answer gives.
pub open spec fn files_of(a: AnswerView) -> store::Files {
    match a {
        AnswerView::Loaded(f) => f,
        _ => Map::empty(),
    }
}

/// What comes of adding a container: the directory is opened, locked and
/// read; the next address is handed out and written down; the result names
/// it with the subnet's prefix, the gateway, the configured routes and the
/// configured name resolution.
pub open spec fn add_progress(
    args: env::ArgsView,
    stdin: Seq<char>,
    answers: Seq<AnswerView>,
) -> Progress<QuestionView, Result<Seq<char>, error::ErrorView>> {
    match loaded(stdin) {
        Err(e) => Progress::Done(Err(e), 0),
        Ok(nc) => match allocation(nc) {
            Err(e) => Progress::Done(Err(e), 0),
            Ok((net, gateway)) => {
                let dir = lease_dir(nc);
                if answers.len() == 0 {
                    Progress::Ask(QuestionView::Open(dir))
                } else if let AnswerView::Failed(e) = answers[0] {
                    Progress::Done(Err(error::detailed(5, "failed to open data dir"@, e)), 1)
                } else if answers.len() == 1 {
                    Progress::Ask(QuestionView::Lock(dir))
                } else if let AnswerView::Failed(e) = answers[1] {
                    Progress::Done(Err(error::detailed(11, "failed to lock data dir"@, e)), 2)
                } else if answers.len() == 2 {
                    Progress::Ask(QuestionView::Load(dir))
                } else if let AnswerView::Failed(e) = answers[2] {
                    Progress::Done(Err(error::detailed(5, "read leases"@, e)), 3)
                } else {
                    match next_address(net, gateway, files_of(answers[2])) {
                        None => Progress::Done(
                            Err(error::error(7, "no IP addresses available in range"@)),
                            3,
                        ),
                        Some(ip) => if answers.len() == 3 {
                            Progress::Ask(
                                QuestionView::Save(
                                    dir,
                                    seq![
                                        store::ChangeView::Write(
                                            ipv4::dotted(ip),
                                            store::lease(args.container_id, args.ifname),
                                        ),
                                        store::ChangeView::Write(
                                            store::LAST_RESERVED@,
                                            ipv4::dotted(ip),
                                        ),
                                    ],
                                ),
                            )
                        } else if let AnswerView::Failed(e) = answers[3] {
                            Progress::Done(Err(error::detailed(5, "write lease"@, e)), 4)
                        } else {
                            Progress::Done(
                                Ok(
                                    json::doc_text(
                                        result::result_doc(
                                            allocated(nc, net, gateway, ip),
                                            nc.dns,
                                        ),
                                    ),
                                ),
                                4,
                            )
                        },
                    }
                }
            },
        },
    }
}

fn failure(a: &Answer) -> (r: Option<&str>)
    ensures
        match r {
            Some(e) => a@ == AnswerView::Failed(e@),
            None => !(a@ is Failed),
        },
{
    match a {
        Answer::Failed(e) => Some(e.as_str()),
        _ => None,
    }
}

fn store_of(a: &Answer) -> (s: Store)
    ensures
        s@ == files_of(a@),
{
    match a {
        Answer::Loaded(f) => Store::new(f.copy()),
        _ => {
            let none: TextMap<String> = TextMap::new();
            assert(store::contents(none@) =~= Map::<Seq<char>, Seq<char>>::empty());
            Store::new(none)
        },
    }
}

fn fail(code: u32, msg: &str, details: &str, used: usize) -> (p: Progress<
    Question,
    Result<String, CniError>,
>)
    ensures
        command_view(p) == Progress::<QuestionView, Result<Seq<char>, error::ErrorView>>::Done(
            Err(error::detailed(code, msg@, details@)),
            used,
        ),
{
    Progress::Done(Err(CniError::new(code, msg).with_details(details)), used)
}

/// Adds a container: hands out an address.
pub fn cmd_add(args: &CniArgs, stdin: &str, answers: &Vec<Answer>) -> (p: Progress<
    Question,
    Result<String, CniError>,
>)
    ensures
        command_view(p) == add_progress(args@, stdin@, answer_views(answers@)),
{
    let ghost views = answer_views(answers@);
    let nc = match load(stdin) {
        Ok(nc) => nc,
        Err(e) => {
            return Progress::Done(Err(e), 0);
        },
    };
    let alloc = match allocator_for(&nc) {
        Ok(a) => a,
        Err(e) => {
            return Progress::Done(Err(e), 0);
        },
    };
    let dir = store_dir(&nc);
    if answers.len() == 0 {
        return Progress::Ask(Question::Open(dir));
    }
    assert(views[0] == answers@[0]@);
    if let Some(e) = failure(&answers[0]) {
        return fail(5, "failed to open data dir", e, 1);
    }
    if answers.len() == 1 {
        return Progress::Ask(Question::Lock(dir));
    }
    assert(views[1] == answers@[1]@);
    if let Some(e) = failure(&answers[1]) {
        return fail(11, "failed to lock data dir", e, 2);
    }
    if answers.len() == 2 {
        return Progress::Ask(Question::Load(dir));
    }
    assert(views[2] == answers@[2]@);
    if let Some(e) = failure(&answers[2]) {
        return fail(5, "read leases", e, 3);
    }
    let mut store = store_of(&answers[2]);
    let leased = store.leased();
    let found = alloc.next_ip(&leased, store.last_reserved());
    proof {
        let r = next_address(alloc.net(), alloc.gate(), store@);
        assert(allocator::is_next(
            alloc.net(),
            alloc.gate(),
            store::leased_in(store@),
            store::last_in(store@),
            found,
        ));
        allocator::law_next_is_unique(
            alloc.net(),
            alloc.gate(),
            store::leased_in(store@),
            store::last_in(store@),
            found,
            r,
        );
    }
    let ip: u32 = match found {
        Some(ip) => ip,
        None => {
            return Progress::Done(
                Err(CniError::new(7, "no IP addresses available in range")),
                3,
            );
        },
    };
    if answers.len() == 3 {
        let changes = store.reserve(ip, args.container_id.as_str(), args.ifname.as_str());
        return Progress::Ask(Question::Save(dir, changes));
    }
    assert(views[3] == answers@[3]@);
    if let Some(e) = failure(&answers[3]) {
        return fail(5, "write lease", e, 4);
    }
    let mut address = ipv4::address_text(ip);
    address.push('/');
    address.append(number::decimal_text(alloc.prefix() as u64).as_str());
    let ips = vec![
        IpResult {
            version: "4".to_owned(),
            address,
            gateway: Some(ipv4::address_text(alloc.gateway())),
        },
    ];
    let cni_version = if nc.cni_version.as_str().is_empty() {
        "0.3.1".to_owned()
    } else {
        nc.cni_version.clone()
    };
    let result = CniResult { cni_version, ips, routes: config::copy_routes(&nc.ipam.routes) };
    proof {
        let want = allocated(nc@, alloc.net(), alloc.gate(), ip);
        assert(address@ =~= ipv4::cidr(ipv4::NetView { addr: ip, prefix: alloc.net().prefix }));
        assert(result@.ips =~= want.ips);
        assert(result@ == want);
    }
    Progress::Done(Ok(result.to_json_with_dns(&nc.dns)), 4)
}

/// What comes of deleting a container: the leases of its interface are given
/// back.
pub open spec fn del_progress(
    args: env::ArgsView,
    stdin: Seq<char>,
    answers: Seq<AnswerView>,
    removals: Seq<store::ChangeView>,
) -> Progress<QuestionView, Result<Seq<char>, error::ErrorView>> {
    match loaded(stdin) {
        Err(e) => Progress::Done(Err(e), 0),
        Ok(nc) => {
            let dir = lease_dir(nc);
            if answers.len() == 0 {
                Progress::Ask(QuestionView::Open(dir))
            } else if let AnswerView::Failed(e) = answers[0] {
                Progress::Done(Err(error::detailed(5, "failed to open data dir"@, e)), 1)
            } else if answers.len() == 1 {
                Progress::Ask(QuestionView::Lock(dir))
            } else if let AnswerView::Failed(e) = answers[1] {
                Progress::Done(Err(error::detailed(11, "failed to lock data dir"@, e)), 2)
            } else if answers.len() == 2 {
                Progress::Ask(QuestionView::Load(dir))
            } else if let AnswerView::Failed(e) = answers[2] {
                Progress::Done(Err(error::detailed(5, "release lease"@, e)), 3)
            } else if answers.len() == 3 {
                Progress::Ask(QuestionView::Save(dir, removals))
            } else if let AnswerView::Failed(e) = answers[3] {
                Progress::Done(Err(error::detailed(5, "release lease"@, e)), 4)
            } else {
                Progress::Done(Ok(Seq::empty()), 4)
            }
        },
    }
}

/// Whether changes are the removals, each once and in some order, of what the
/// container's interface gives back.
pub open spec fn gives_back(
    files: store::Files,
    changes: Seq<store::ChangeView>,
    container_id: Seq<char>,
    ifname: Seq<char>,
) -> bool {
    &&& store::all_changed(files, changes) == store::released(files, container_id, ifname)
    &&& forall|i: int|
        0 <= i < changes.len() ==> (#[trigger] changes[i] matches store::ChangeView::Remove(n)
            && files.contains_key(n) && store::held_by(n, files[n], container_id, ifname))
    &&& changes.no_duplicates()
}

/// Deletes a container: gives its leases back.
pub fn cmd_del(args: &CniArgs, stdin: &str, answers: &Vec<Answer>) -> (p: Progress<
    Question,
    Result<String, CniError>,
>)
    ensures
        exists|removals: Seq<store::ChangeView>|
            command_view(p) == #[trigger] del_progress(
                args@,
                stdin@,
                answer_views(answers@),
                removals,
            ) && (answers@.len() >= 3 ==> gives_back(
                files_of(answer_views(answers@)[2]),
                removals,
                args.container_id@,
                args.ifname@,
            )),
{
    let ghost views = answer_views(answers@);
    let mut changes: Vec<Change> = Vec::new();
    if answers.len() >= 3 {
        assert(views[2] == answers@[2]@);
        let mut store = store_of(&answers[2]);
        let ghost files = store@;
        changes = store.release(args.container_id.as_str(), args.ifname.as_str());
        assert(gives_back(
            files,
            store::change_views(changes@),
            args.container_id@,
            args.ifname@,
        )) by {
            assert forall|i: int| 0 <= i < changes@.len() implies (#[trigger] store::change_views(
                changes@,
            )[i] matches store::ChangeView::Remove(n) && files.contains_key(n) && store::held_by(
                n,
                files[n],
                args.container_id@,
                args.ifname@,
            )) by {
                assert(store::change_views(changes@)[i] == changes@[i]@);
            }
        }
    }
    let ghost removals = store::change_views(changes@);
    let ghost want = del_progress(args@, stdin@, views, removals);
    let nc = match load(stdin) {
        Ok(nc) => nc,
        Err(e) => {
            assert(want == command_view(Progress::Done(Err::<String, CniError>(e), 0)));
            return Progress::Done(Err(e), 0);
        },
    };
    let dir = store_dir(&nc);
    if answers.len() == 0 {
        return Progress::Ask(Question::Open(dir));
    }
    assert(views[0] == answers@[0]@);
    if let Some(e) = failure(&answers[0]) {
        return fail(5, "failed to open data dir", e, 1);
    }
    if answers.len() == 1 {
        return Progress::Ask(Question::Lock(dir));
    }
    assert(views[1] == answers@[1]@);
    if let Some(e) = failure(&answers[1]) {
        return fail(11, "failed to lock data dir", e, 2);
    }
    if answers.len() == 2 {
        return Progress::Ask(Question::Load(dir));
    }
    assert(views[2] == answers@[2]@);
    if let Some(e) = failure(&answers[2]) {
        return fail(5, "release lease", e, 3);
    }
    if answers.len() == 3 {
        return Progress::Ask(Question::Save(dir, changes));
    }
    assert(views[3] == answers@[3]@);
    if let Some(e) = failure(&answers[3]) {
        return fail(5, "release lease", e, 4);
    }
    Progress::Done(Ok(String::new()), 4)
}

/// What comes of checking a container: whether its interface has a lease.
pub open spec fn check_progress(
    args: env::ArgsView,
    stdin: Seq<char>,
    answers: Seq<AnswerView>,
) -> Progress<QuestionView, Result<Seq<char>, error::ErrorView>> {
    match loaded(stdin) {
        Err(e) => Progress::Done(Err(e), 0),
        Ok(nc) => {
            let dir = lease_dir(nc);
            if answers.len() == 0 {
                Progress::Ask(QuestionView::Open(dir))
            } else if let AnswerView::Failed(e) = answers[0] {
                Progress::Done(Err(error::detailed(5, "failed to open data dir"@, e)), 1)
            } else if answers.len() == 1 {
                Progress::Ask(QuestionView::Load(dir))
            } else if let AnswerView::Failed(e) = answers[1] {
                Progress::Done(Err(error::detailed(5, "check lease"@, e)), 2)
            } else if store::has_in(files_of(answers[1]), args.container_id, args.ifname) {
                Progress::Done(Ok(Seq::empty()), 2)
            } else {
                Progress::Done(Err(error::error(7, "no allocation found for container"@)), 2)
            }
        },
    }
}

/// Checks a container: whether its interface has a lease.
pub fn cmd_check(args: &CniArgs, stdin: &str, answers: &Vec<Answer>) -> (p: Progress<
    Question,
    Result<String, CniError>,
>)
    ensures
        command_view(p) == check_progress(args@, stdin@, answer_views(answers@)),
{
    let ghost views = answer_views(answers@);
    let nc = match load(stdin) {
        Ok(nc) => nc,
        Err(e) => {
            return Progress::Done(Err(e), 0);
        },
    };
    let dir = store_dir(&nc);
    if answers.len() == 0 {
        return Progress::Ask(Question::Open(dir));
    }
    assert(views[0] == answers@[0]@);
    if let Some(e) = failure(&answers[0]) {
        return fail(5, "failed to open data dir", e, 1);
    }
    if answers.len() == 1 {
        return Progress::Ask(Question::Load(dir));
    }
    assert(views[1] == answers@[1]@);
    if let Some(e) = failure(&answers[1]) {
        return fail(5, "check lease", e, 2);
    }
    let store = store_of(&answers[1]);
    if store.has(args.container_id.as_str(), args.ifname.as_str()) {
        Progress::Done(Ok(String::new()), 2)
    } else {
        Progress::Done(Err(CniError::new(7, "no allocation found for container")), 2)
    }
}

/// Whether a progress is that of an invocation.
pub open spec fn is_run(
    args: env::ArgsView,
    stdin: Seq<char>,
    answers: Seq<AnswerView>,
    p: Progress<QuestionView, Result<Seq<char>, error::ErrorView>>,
) -> bool {
    match plugin::verb_of(args.command) {
        Verb::Version => p == Progress::<QuestionView, Result<Seq<char>, error::ErrorView>>::Done(
            Ok(version::supported_text()),
            0,
        ),
        Verb::Add => p == add_progress(args, stdin, answers),
        Verb::Del => exists|removals: Seq<store::ChangeView>|
            p == #[trigger] del_progress(args, stdin, answers, removals) && (answers.len() >= 3
                ==> gives_back(
                files_of(answers[2]),
                removals,
                args.container_id,
                args.ifname,
            )),
        Verb::Check => p == check_progress(args, stdin, answers),
        Verb::Unknown => p == Progress::<QuestionView, Result<Seq<char>, error::ErrorView>>::Done(
            Err(plugin::unknown_command_error(args.command)),
            0,
        ),
    }
}

/// Carries out an invocation.
pub fn run(args: &CniArgs, stdin: &str, answers: &Vec<Answer>) -> (p: Progress<
    Question,
    Result<String, CniError>,
>)
    ensures
        is_run(args@, stdin@, answer_views(answers@), command_view(p)),
{
    match plugin::verb(args.command.as_str()) {
        Verb::Version => Progress::Done(Ok(VersionResult::supported().to_json()), 0),
        Verb::Add => cmd_add(args, stdin, answers),
        Verb::Del => cmd_del(args, stdin, answers),
        Verb::Check => cmd_check(args, stdin, answers),
        Verb::Unknown => Progress::Done(Err(plugin::unknown_command(args.command.as_str())), 0),
    }
}

// ---------------------------------------------------------------------------
// Laws
// ---------------------------------------------------------------------------

/// A container that was added is found by a check, once what was asked to be
/// written is written.
pub proof fn law_added_container_checks_out(
    args: env::ArgsView,
    stdin: Seq<char>,
    answers: Seq<AnswerView>,
    dir: Seq<char>,
    changes: Seq<store::ChangeView>,
)
    requires
        store::fits_first_line(args.container_id),
        !args.ifname.contains('\n'),
        add_progress(args, stdin, answers) == Progress::<
            QuestionView,
            Result<Seq<char>, error::ErrorView>,
        >::Ask(QuestionView::Save(dir, changes)),
    ensures
        check_progress(
            args,
            stdin,
            seq![
                AnswerView::Done,
                AnswerView::Loaded(store::all_changed(files_of(answers[2]), changes)),
            ],
        ) == Progress::<QuestionView, Result<Seq<char>, error::ErrorView>>::Done(
            Ok(Seq::empty()),
            2,
        ),
{
    let files = files_of(answers[2]);
    let (net, gateway) = allocation(loaded(stdin)->Ok_0)->Ok_0;
    let ip = next_address(net, gateway, files)->0;
    reveal_with_fuel(store::all_changed, 3);
    assert(changes.drop_last().drop_last() =~= Seq::<store::ChangeView>::empty());
    assert(store::all_changed(files, changes) == store::reserved(
        files,
        ip,
        args.container_id,
        args.ifname,
    ));
    store::law_reserve_is_seen(files, ip, args.container_id, args.ifname);
}

/// A container that was deleted is not found by a check, once what was asked
/// to be removed is removed.
pub proof fn law_deleted_container_is_gone(
    args: env::ArgsView,
    stdin: Seq<char>,
    answers: Seq<AnswerView>,
    dir: Seq<char>,
    changes: Seq<store::ChangeView>,
)
    requires
        gives_back(files_of(answers[2]), changes, args.container_id, args.ifname),
        del_progress(args, stdin, answers, changes) == Progress::<
            QuestionView,
            Result<Seq<char>, error::ErrorView>,
        >::Ask(QuestionView::Save(dir, changes)),
    ensures
        check_progress(
            args,
            stdin,
            seq![
                AnswerView::Done,
                AnswerView::Loaded(store::all_changed(files_of(answers[2]), changes)),
            ],
        ) == Progress::<QuestionView, Result<Seq<char>, error::ErrorView>>::Done(
            Err(error::error(7, "no allocation found for container"@)),
            2,
        ),
{
    let files = files_of(answers[2]);
    store::law_release_is_targeted(files, args.container_id, args.ifname, Seq::empty());
}

/// The address that an addition writes down was free: it lies in the subnet,
/// is none of its reserved addresses, and was not leased. An addition fails
/// for want of addresses only where none is free.
pub proof fn law_added_address_was_free(
    net: ipv4::NetView,
    gateway: u32,
    files: store::Files,
    some: u32,
)
    requires
        net.prefix <= 32,
    ensures
        next_address(net, gateway, files) matches Some(ip) ==> allocator::free(
            net,
            gateway,
            store::leased_in(files),
            ip,
        ),
        allocator::free(net, gateway, store::leased_in(files), some) ==> next_address(
            net,
            gateway,
            files,
        ) is Some,
{
    allocator::lemma_next_exists(net, gateway, store::leased_in(files), store::last_in(files));
}

/// A check reads and changes nothing: it asks for the directory and for its
/// files.
pub proof fn law_check_only_reads(
    args: env::ArgsView,
    stdin: Seq<char>,
    answers: Seq<AnswerView>,
)
    ensures
        check_progress(args, stdin, answers) matches Progress::Ask(q) ==> q is Open || q is Load,
{
}

// ---------------------------------------------------------------------------
// Histories
// ---------------------------------------------------------------------------

/// A call that adds or deletes a container, with its arguments and its
/// configuration.
pub enum Call {
    Add(env::ArgsView, Seq<char>),
    Del(env::ArgsView, Seq<char>),
}

/// Whether the names in a call can be told apart on the lines of a lease.
pub open spec fn well_formed(c: Call) -> bool {
    match c {
        Call::Add(args, _) => store::fits_first_line(args.container_id) && !args.ifname.contains(
            '\n',
        ),
        Call::Del(_, _) => true,
    }
}

/// The answers of a disk up to the files of the directory.
pub open spec fn read_through(files: store::Files) -> Seq<AnswerView> {
    seq![AnswerView::Done, AnswerView::Done, AnswerView::Loaded(files)]
}

/// Whether an addition comes to write a lease into a directory that holds
/// those files.
pub open spec fn leases_into(
    args: env::ArgsView,
    stdin: Seq<char>,
    dir: Seq<char>,
    files: store::Files,
) -> bool {
    add_progress(args, stdin, read_through(files)) matches Progress::Ask(QuestionView::Save(d, _))
        && d == dir
}

/// Whether a deletion is about a directory.
pub open spec fn releases_from(stdin: Seq<char>, dir: Seq<char>) -> bool {
    loaded(stdin) matches Ok(nc) && lease_dir(nc) == dir
}

/// Whether a call takes the files of a directory from one state to the next:
/// what it asks to be changed there is changed, and nothing else.
pub open spec fn takes(dir: Seq<char>, before: store::Files, c: Call, after: store::Files) -> bool {
    match c {
        Call::Add(args, stdin) => if leases_into(args, stdin, dir, before) {
            add_progress(args, stdin, read_through(before)) matches Progress::Ask(
                QuestionView::Save(_, changes),
            ) && after == store::all_changed(before, changes)
        } else {
            after == before
        },
        Call::Del(args, stdin) => if releases_from(stdin, dir) {
            exists|removals: Seq<store::ChangeView>|
                gives_back(before, removals, args.container_id, args.ifname)
                    && #[trigger] del_progress(args, stdin, read_through(before), removals)
                    == Progress::<QuestionView, Result<Seq<char>, error::ErrorView>>::Ask(
                    QuestionView::Save(dir, removals),
                ) && after == store::all_changed(before, removals)
        } else {
            after == before
        },
    }
}

/// Whether states of a directory's files are those before, between and after
/// calls.
pub open spec fn is_history(
    dir: Seq<char>,
    states: Seq<store::Files>,
    calls: Seq<Call>,
) -> bool {
    &&& states.len() == calls.len() + 1
    &&& forall|k: int|
        0 <= k < calls.len() ==> well_formed(calls[k]) && #[trigger] takes(
            dir,
            states[k],
            calls[k],
            states[k + 1],
        )
}

/// Whether the container's interface is added after the first calls: of those
/// that concern it, the last one added it; where none did, it had a lease from
/// the start.
pub open spec fn is_added(
    dir: Seq<char>,
    states: Seq<store::Files>,
    calls: Seq<Call>,
    container_id: Seq<char>,
    ifname: Seq<char>,
    k: int,
) -> bool
    decreases k,
{
    if k <= 0 {
        store::has_in(states[0], container_id, ifname)
    } else {
        match calls[k - 1] {
            Call::Add(args, stdin) => if args.container_id == container_id && args.ifname == ifname
                && leases_into(args, stdin, dir, states[k - 1]) {
                true
            } else {
                is_added(dir, states, calls, container_id, ifname, k - 1)
            },
            Call::Del(args, stdin) => if args.container_id == container_id && args.ifname == ifname
                && releases_from(stdin, dir) {
                false
            } else {
                is_added(dir, states, calls, container_id, ifname, k - 1)
            },
        }
    }
}

proof fn lemma_history(
    dir: Seq<char>,
    states: Seq<store::Files>,
    calls: Seq<Call>,
    container_id: Seq<char>,
    ifname: Seq<char>,
    k: int,
)
    requires
        is_history(dir, states, calls),
        0 <= k <= calls.len(),
    ensures
        store::has_in(states[k], container_id, ifname) == is_added(
            dir,
            states,
            calls,
            container_id,
            ifname,
            k,
        ),
    decreases k,
{
    if k > 0 {
        lemma_history(dir, states, calls, container_id, ifname, k - 1);
        let before = states[k - 1];
        assert(takes(dir, before, calls[k - 1], states[k - 1 + 1]));
        match calls[k - 1] {
            Call::Add(args, stdin) => {
                if leases_into(args, stdin, dir, before) {
                    let (net, gateway) = allocation(loaded(stdin)->Ok_0)->Ok_0;
                    assert(read_through(before)[2] == AnswerView::Loaded(before));
                    let ip = next_address(net, gateway, before)->0;
                    let changes = seq![
                        store::ChangeView::Write(
                            ipv4::dotted(ip),
                            store::lease(args.container_id, args.ifname),
                        ),
                        store::ChangeView::Write(store::LAST_RESERVED@, ipv4::dotted(ip)),
                    ];
                    reveal_with_fuel(store::all_changed, 3);
                    assert(changes.drop_last().drop_last()
                        =~= Seq::<store::ChangeView>::empty());
                    assert(states[k] == store::reserved(
                        before,
                        ip,
                        args.container_id,
                        args.ifname,
                    ));
                    law_added_address_was_free(net, gateway, before, ip);
                    store::law_reserve_concerns_one(
                        before,
                        ip,
                        args.container_id,
                        args.ifname,
                        container_id,
                        ifname,
                    );
                }
            },
            Call::Del(args, stdin) => {
                if releases_from(stdin, dir) {
                    store::law_release_concerns_one(
                        before,
                        args.container_id,
                        args.ifname,
                        container_id,
                        ifname,
                    );
                }
            },
        }
    }
}

/// After any calls, of whichever containers, a check finds the container
/// exactly where it is added: the last call that gave it a lease came after
/// the last one that took its leases.
pub proof fn law_check_tells_the_history(
    args: env::ArgsView,
    stdin: Seq<char>,
    dir: Seq<char>,
    states: Seq<store::Files>,
    calls: Seq<Call>,
)
    requires
        releases_from(stdin, dir),
        is_history(dir, states, calls),
    ensures
        check_progress(args, stdin, seq![AnswerView::Done, AnswerView::Loaded(states.last())])
            == Progress::<QuestionView, Result<Seq<char>, error::ErrorView>>::Done(
            if is_added(
                dir,
                states,
                calls,
                args.container_id,
                args.ifname,
                calls.len() as int,
            ) {
                Ok(Seq::empty())
            } else {
                Err(error::error(7, "no allocation found for container"@))
            },
            2,
        ),
{
    lemma_history(
        dir,
        states,
        calls,
        args.container_id,
        args.ifname,
        calls.len() as int,
    );
}

// ---------------------------------------------------------------------------
// What is told and where it is kept
// ---------------------------------------------------------------------------

/// Whether a result tells an address out of the first range of a configuration:
/// with the prefix of the range's subnet, its gateway or the second address of
/// the subnet, and the routes and version of the configuration.
pub open spec fn tells(r: result::ResultView, nc: config::NetConfView, ip: u32) -> bool {
    let range = nc.ipam.ranges[0][0];
    &&& r.ips.len() == 1
    &&& r.ips[0].version == "4"@
    &&& r.routes == nc.ipam.routes
    &&& r.cni_version == nc.cni_version || nc.cni_version.len() == 0 && r.cni_version == "0.3.1"@
    &&& exists|net: ipv4::NetView|
        {
            &&& #[trigger] ipv4::names(range.subnet, net)
            &&& ipv4::names(
                r.ips[0].address,
                ipv4::NetView { addr: ip, prefix: net.prefix },
            )
            &&& r.ips[0].gateway matches Some(told) && match range.gateway {
                Some(g) => ipv4::address(told) is Some && ipv4::address(told) == ipv4::address(g),
                None => ipv4::address(told) matches Some(a) && (ipv4::network(net) < u32::MAX ==> a
                    == ipv4::network(net) + 1),
            }
        }
}

/// Whether an addition asks to change files of a directory.
pub open spec fn asks_to_save(
    args: env::ArgsView,
    stdin: Seq<char>,
    answers: Seq<AnswerView>,
    dir: Seq<char>,
    changes: Seq<store::ChangeView>,
) -> bool {
    add_progress(args, stdin, answers) == Progress::<
        QuestionView,
        Result<Seq<char>, error::ErrorView>,
    >::Ask(QuestionView::Save(dir, changes))
}

/// An addition tells what it wrote down: before it succeeds it has asked to write
/// a lease under the name of an address, and that address as the last one handed
/// out; the result tells the same address.
pub proof fn law_result_tells_what_was_written(
    args: env::ArgsView,
    stdin: Seq<char>,
    answers: Seq<AnswerView>,
    s: Seq<char>,
    n: usize,
)
    requires
        answers.len() >= 4,
        add_progress(args, stdin, answers) == Progress::<
            QuestionView,
            Result<Seq<char>, error::ErrorView>,
        >::Done(Ok(s), n),
    ensures
        config::net_conf(stdin) matches Ok(nc) && exists|
            dir: Seq<char>,
            changes: Seq<store::ChangeView>,
            ip: u32,
            r: result::ResultView,
        |
            {
                &&& #[trigger] asks_to_save(args, stdin, answers.take(3), dir, changes)
                &&& changes.len() == 2
                &&& changes[0] matches store::ChangeView::Write(name, _) && ipv4::address(name)
                    == Some(ip)
                &&& changes[1] matches store::ChangeView::Write(last, value) && last
                    == "last_reserved_ip.0"@ && ipv4::address(value) == Some(ip)
                &&& #[trigger] tells(r, nc, ip)
                &&& s == json::doc_text(result::result_doc(r, nc.dns))
            },
{
    let nc = loaded(stdin)->Ok_0;
    let (net, gateway) = allocation(nc)->Ok_0;
    let ip = next_address(net, gateway, files_of(answers[2]))->0;
    let r = allocated(nc, net, gateway, ip);
    let cut = answers.take(3);
    assert(cut[0] == answers[0] && cut[1] == answers[1] && cut[2] == answers[2]);
    let dir = lease_dir(nc);
    let changes = seq![
        store::ChangeView::Write(
            ipv4::dotted(ip),
            store::lease(args.container_id, args.ifname),
        ),
        store::ChangeView::Write(store::LAST_RESERVED@, ipv4::dotted(ip)),
    ];
    assert(asks_to_save(args, stdin, cut, dir, changes));
    ipv4::law_dotted_reads_back(ip);
    ipv4::law_dotted_reads_back(gateway);
    ipv4::lemma_prefix(nc.ipam.ranges[0][0].subnet, net);
    ipv4::law_cidr_reads_back(ipv4::NetView { addr: ip, prefix: net.prefix });
    assert(ipv4::names(nc.ipam.ranges[0][0].subnet, net));
    assert(tells(r, nc, ip));
}

/// The directory that a question to the disk is about.
pub open spec fn dir_of(q: QuestionView) -> Seq<char> {
    match q {
        QuestionView::Open(d) => d,
        QuestionView::Lock(d) => d,
        QuestionView::Load(d) => d,
        QuestionView::Save(d, _) => d,
    }
}

/// Whether a directory is that of a network: it lies in the directory that the
/// configuration names, or in the usual one, and has the name of the network.
pub open spec fn is_own_dir(nc: config::NetConfView, dir: Seq<char>) -> bool {
    let base = match nc.ipam.data_dir {
        Some(d) => d,
        None => "/var/lib/cni/networks"@,
    };
    base.len() > 0 && nc.name.len() > 0 && nc.name[0] != '/' ==> {
        let slash = dir.len() - nc.name.len() - 1;
        &&& 0 <= slash
        &&& dir.skip(slash + 1) == nc.name
        &&& dir[slash] == '/'
        &&& dir.take(slash) == base || dir.take(slash + 1) == base
    }
}

/// Every command of a network is about the directory of that network: networks
/// of other names keep their leases elsewhere.
pub proof fn law_networks_have_their_own_directory(
    args: env::ArgsView,
    stdin: Seq<char>,
    answers: Seq<AnswerView>,
    removals: Seq<store::ChangeView>,
    nc: config::NetConfView,
)
    requires
        config::net_conf(stdin) == Ok::<config::NetConfView, decode::Fault>(nc),
    ensures
        add_progress(args, stdin, answers) matches Progress::Ask(q) ==> is_own_dir(nc, dir_of(q)),
        del_progress(args, stdin, answers, removals) matches Progress::Ask(q) ==> is_own_dir(
            nc,
            dir_of(q),
        ),
        check_progress(args, stdin, answers) matches Progress::Ask(q) ==> is_own_dir(
            nc,
            dir_of(q),
        ),
{
    let base = match nc.ipam.data_dir {
        Some(d) => d,
        None => DEFAULT_DATA_DIR@,
    };
    if base.len() > 0 && nc.name.len() > 0 && nc.name[0] != '/' {
        delegate::law_places_lead_to_the_name(base, nc.name);
    }
}

/// Whether a command locked the directory, with success, before anything else
/// than opening it.
pub open spec fn locked(
    first: Progress<QuestionView, Result<Seq<char>, error::ErrorView>>,
    answers: Seq<AnswerView>,
) -> bool {
    &&& first matches Progress::Ask(QuestionView::Lock(_))
    &&& answers.len() >= 2
    &&& !(answers[1] is Failed)
}

/// Leases are read and changed under the lock: an addition and a deletion ask to
/// read or to change files only once they have locked the directory. Where the
/// lock is not to be had, and only there, the command is to be tried again.
pub proof fn law_leases_are_locked(
    args: env::ArgsView,
    stdin: Seq<char>,
    answers: Seq<AnswerView>,
    removals: Seq<store::ChangeView>,
)
    ensures
        (add_progress(args, stdin, answers) matches Progress::Ask(q) && (q is Load || q is Save))
            ==> locked(add_progress(args, stdin, answers.take(1)), answers),
        (del_progress(args, stdin, answers, removals) matches Progress::Ask(q) && (q is Load
            || q is Save)) ==> locked(
            del_progress(args, stdin, answers.take(1), removals),
            answers,
        ),
        add_progress(args, stdin, answers) matches Progress::Done(Err(e), _) && e.code == 11 ==> (
        answers.len() >= 2 && answers[1] is Failed && add_progress(
            args,
            stdin,
            answers.take(1),
        ) matches Progress::Ask(QuestionView::Lock(_))),
        del_progress(args, stdin, answers, removals) matches Progress::Done(Err(e), _) && e.code
            == 11 ==> (answers.len() >= 2 && answers[1] is Failed && del_progress(
            args,
            stdin,
            answers.take(1),
            removals,
        ) matches Progress::Ask(QuestionView::Lock(_))),
        answers.len() >= 2 && answers[1] is Failed && (add_progress(
            args,
            stdin,
            answers.take(1),
        ) matches Progress::Ask(QuestionView::Lock(_))) ==> (add_progress(
            args,
            stdin,
            answers,
        ) matches Progress::Done(Err(e), _) && e.code == 11),
        answers.len() >= 2 && answers[1] is Failed && (del_progress(
            args,
            stdin,
            answers.take(1),
            removals,
        ) matches Progress::Ask(QuestionView::Lock(_))) ==> (del_progress(
            args,
            stdin,
            answers,
            removals,
        ) matches Progress::Done(Err(e), _) && e.code == 11),
{
    if answers.len() >= 1 {
        assert(answers.take(1)[0] == answers[0]);
    }
}

/// Each command of an invocation is carried out.
pub proof fn law_commands_are_carried_out(
    args: env::ArgsView,
    stdin: Seq<char>,
    answers: Seq<AnswerView>,
    p: Progress<QuestionView, Result<Seq<char>, error::ErrorView>>,
)
    requires
        is_run(args, stdin, answers, p),
    ensures
        args.command == "ADD"@ ==> p == add_progress(args, stdin, answers),
        args.command == "DEL"@ ==> exists|removals: Seq<store::ChangeView>|
            p == #[trigger] del_progress(args, stdin, answers, removals) && (answers.len() >= 3
                ==> gives_back(
                files_of(answers[2]),
                removals,
                args.container_id,
                args.ifname,
            )),
        args.command == "CHECK"@ ==> p == check_progress(args, stdin, answers),
        args.command == "VERSION"@ ==> (p matches Progress::Done(Ok(_), 0)),
        args.command != "ADD"@ && args.command != "DEL"@ && args.command != "CHECK"@ && args.command
            != "VERSION"@ ==> (p matches Progress::Done(Err(e), 0) && e.code == 4),
{
    plugin::lemma_commands_differ();
}

/// A configuration can be allocated from exactly where it has a range first whose
/// subnet is written as one, of at most 65536 addresses, and whose gateway, if it
/// has one, is an address; any other is an invalid configuration.
pub proof fn law_small_subnets_are_allocated_from(nc: config::NetConfView)
    ensures
        ({
            let range = nc.ipam.ranges[0][0];
            allocation(nc) is Ok <==> {
                &&& nc.ipam.ranges.len() > 0 && nc.ipam.ranges[0].len() > 0
                &&& exists|net: ipv4::NetView| #[trigger]
                    ipv4::names(range.subnet, net) && ipv4::size(net) <= 65536
                &&& range.gateway matches Some(g) ==> ipv4::address(g) is Some
            }
        }),
        allocation(nc) matches Err(e) ==> e.code == 7,
        allocation(nc) matches Ok(a) ==> ipv4::names(nc.ipam.ranges[0][0].subnet, a.0),
{
    let range = nc.ipam.ranges[0][0];
    if let Ok(n) = ipv4::cidr_read(range.subnet) {
        let net = ipv4::NetView { addr: n.0, prefix: n.1 };
        assert(ipv4::names(range.subnet, net));
        ipv4::lemma_prefix(range.subnet, net);
        ipv4::lemma_bounds(net);
        if net.prefix < 16 {
            vstd::arithmetic::power2::lemma_pow2_strictly_increases(16, (32 - net.prefix) as nat);
            vstd::arithmetic::power2::lemma2_to64();
        }
    }
}

} // verus!
