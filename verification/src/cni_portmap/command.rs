//! The commands of the portmap plugin.

use serde_json::Value;
use vstd::prelude::*;
use vstd::string::*;

use crate::cni::env;
use crate::cni::env::CniArgs;
use crate::cni::error;
use crate::cni::error::CniError;
use crate::cni::iptables;
use crate::cni::iptables::Iptables;
use crate::cni::plugin;
use crate::cni::plugin::Verb;
use crate::cni::result;
use crate::cni::version;
use crate::cni::version::VersionResult;
use crate::cni_portmap::config;
use crate::cni_portmap::config::PortmapConf;
use crate::cni_portmap::packets;
use crate::cni_portmap::rules;
use crate::cni_portmap::table;
use crate::decode;
use crate::ipv4;
use crate::json;
use crate::progress;
use crate::progress::{Invocation, Progress, Reply};

verus! {

/// A progress that ends in text or an error, by its model.
pub open spec fn text_view(p: Progress<Invocation, Result<String, CniError>>) -> Progress<
    progress::InvocationView,
    Result<Seq<char>, error::ErrorView>,
> {
    progress::progress_view(
        p,
        |q: Invocation| q@,
        |r: Result<String, CniError>| error::result_view(r, |s: String| s@),
    )
}

/// What comes of adding a container. The result of the plugins before is
/// handed on unchanged; where there are mappings, their rules are installed
/// first, with the backend that is detected.
pub open spec fn add_progress(
    container_id: Seq<char>,
    stdin: Seq<char>,
    replies: Seq<progress::ReplyView>,
) -> Progress<progress::InvocationView, Result<Seq<char>, error::ErrorView>> {
    match config::conf(stdin) {
        Err(f) => Progress::Done(
            Err(error::detailed(6, "decode config"@, decode::fault_text(f))),
            0,
        ),
        Ok(conf) => match conf.prev_result {
            None => Progress::Done(Err(error::error(7, "portmap requires prevResult"@)), 0),
            Some(prev) => {
                let relayed = json::json_printed(config::previous(stdin));
                if conf.mappings.len() == 0 {
                    Progress::Done(Ok(relayed), 0)
                } else {
                    match config::first_ipv4(prev.ips) {
                        None => Progress::Done(Err(error::error(7, "no IPv4 in prevResult"@)), 0),
                        Some(pod_ip) => match iptables::detection(replies) {
                            Progress::Ask(q) => Progress::Ask(q),
                            Progress::Done(backend, next) => match iptables::ops_progress(
                                backend,
                                rules::apply_plan(container_id, pod_ip, conf.mappings),
                                replies,
                                next as int,
                            ) {
                                Progress::Ask(q) => Progress::Ask(q),
                                Progress::Done(Err(e), next) => Progress::Done(Err(e), next),
                                Progress::Done(Ok(_), next) => Progress::Done(Ok(relayed), next),
                            },
                        },
                    }
                }
            },
        },
    }
}

/// What comes of deleting a container: nothing is done for a configuration
/// without mappings; otherwise, and where the configuration is not readable,
/// the container's chains are removed.
pub open spec fn del_progress(
    container_id: Seq<char>,
    stdin: Seq<char>,
    replies: Seq<progress::ReplyView>,
) -> Progress<progress::InvocationView, Result<Seq<char>, error::ErrorView>> {
    if config::conf(stdin) is Ok && config::conf(stdin)->Ok_0.mappings.len() == 0 {
        Progress::Done(Ok(Seq::empty()), 0)
    } else {
        match iptables::detection(replies) {
            Progress::Ask(q) => Progress::Ask(q),
            Progress::Done(backend, next) => match iptables::ops_progress(
                backend,
                rules::remove_plan(container_id),
                replies,
                next as int,
            ) {
                Progress::Ask(q) => Progress::Ask(q),
                Progress::Done(_, next) => Progress::Done(Ok(Seq::empty()), next),
            },
        }
    }
}

fn relay(doc: &Value) -> (s: String)
    requires
        config::conf_of(json::json_view(*doc)) matches Ok(c) && c.prev_result is Some,
    ensures
        s@ == json::json_printed(config::previous_in(json::json_view(*doc))),
        json::plain(config::previous_in(json::json_view(*doc)), json::MAX_DEPTH as nat)
            ==> json::json_read(s@) == json::read_value(
            config::previous_in(json::json_view(*doc)),
        ),
{
    match decode::field1(doc, "prevResult", 1) {
        Ok(Some(p)) => json::print_json(p),
        _ => String::new(),
    }
}

/// Adds a container.
pub fn cmd_add(args: &CniArgs, stdin: &str, replies: &Vec<Reply>) -> (p: Progress<
    Invocation,
    Result<String, CniError>,
>)
    ensures
        text_view(p) == add_progress(
            args.container_id@,
            stdin@,
            progress::reply_views(replies@),
        ),
        p matches Progress::Done(Ok(s), _) ==> json::plain(
            config::previous(stdin@),
            json::MAX_DEPTH as nat,
        ) ==> json::json_read(s@) == json::read_value(config::previous(stdin@)),
{
    let doc = match decode::read_document(stdin) {
        Ok(d) => d,
        Err(e) => {
            return Progress::Done(
                Err(CniError::new(6, "decode config").with_details(e.message().as_str())),
                0,
            );
        },
    };
    let conf = match PortmapConf::decode(&doc) {
        Ok(c) => c,
        Err(e) => {
            return Progress::Done(
                Err(CniError::new(6, "decode config").with_details(e.message().as_str())),
                0,
            );
        },
    };
    let prev = match &conf.prev_result {
        Some(p) => p,
        None => {
            return Progress::Done(Err(CniError::new(7, "portmap requires prevResult")), 0);
        },
    };
    let mappings = &conf.runtime_config.port_mappings;
    if mappings.len() == 0 {
        return Progress::Done(Ok(relay(&doc)), 0);
    }
    let pod_ip: u32 = match config::pod_ipv4(prev) {
        Some(ip) => ip,
        None => {
            return Progress::Done(Err(CniError::new(7, "no IPv4 in prevResult")), 0);
        },
    };
    match Iptables::detect(replies) {
        Progress::Ask(q) => Progress::Ask(q),
        Progress::Done(ipt, next) => match rules::apply(
            &ipt,
            args.container_id.as_str(),
            pod_ip,
            mappings,
            replies,
            next,
        ) {
            Progress::Ask(q) => Progress::Ask(q),
            Progress::Done(Err(e), next) => Progress::Done(Err(e), next),
            Progress::Done(Ok(_), next) => Progress::Done(Ok(relay(&doc)), next),
        },
    }
}

/// Deletes a container.
pub fn cmd_del(args: &CniArgs, stdin: &str, replies: &Vec<Reply>) -> (p: Progress<
    Invocation,
    Result<String, CniError>,
>)
    ensures
        text_view(p) == del_progress(
            args.container_id@,
            stdin@,
            progress::reply_views(replies@),
        ),
{
    if let Ok(conf) = PortmapConf::parse(stdin) {
        if conf.runtime_config.port_mappings.len() == 0 {
            return Progress::Done(Ok(String::new()), 0);
        }
    }
    match Iptables::detect(replies) {
        Progress::Ask(q) => Progress::Ask(q),
        Progress::Done(ipt, next) => match rules::remove(
            &ipt,
            args.container_id.as_str(),
            replies,
            next,
        ) {
            Progress::Ask(q) => Progress::Ask(q),
            Progress::Done(_, next) => Progress::Done(Ok(String::new()), next),
        },
    }
}

/// What comes of an invocation.
pub open spec fn run_progress(
    args: env::ArgsView,
    stdin: Seq<char>,
    replies: Seq<progress::ReplyView>,
) -> Progress<progress::InvocationView, Result<Seq<char>, error::ErrorView>> {
    match plugin::verb_of(args.command) {
        Verb::Version => Progress::Done(Ok(version::supported_text()), 0),
        Verb::Add => add_progress(args.container_id, stdin, replies),
        Verb::Del => del_progress(args.container_id, stdin, replies),
        Verb::Check => Progress::Done(Ok(Seq::empty()), 0),
        Verb::Unknown => Progress::Done(Err(plugin::unknown_command_error(args.command)), 0),
    }
}

/// Carries out an invocation.
pub fn run(args: &CniArgs, stdin: &str, replies: &Vec<Reply>) -> (p: Progress<
    Invocation,
    Result<String, CniError>,
>)
    ensures
        text_view(p) == run_progress(args@, stdin@, progress::reply_views(replies@)),
{
    match plugin::verb(args.command.as_str()) {
        Verb::Version => Progress::Done(Ok(VersionResult::supported().to_json()), 0),
        Verb::Add => cmd_add(args, stdin, replies),
        Verb::Del => cmd_del(args, stdin, replies),
        Verb::Check => Progress::Done(Ok(String::new()), 0),
        Verb::Unknown => Progress::Done(Err(plugin::unknown_command(args.command.as_str())), 0),
    }
}

// ---------------------------------------------------------------------------
// Laws
// ---------------------------------------------------------------------------

/// An addition that succeeds hands on the result of the plugins before it as
/// it stands in the configuration, with all of its members. Without mappings no
/// command is run on the way.
pub proof fn law_add_relays_the_result(
    container_id: Seq<char>,
    stdin: Seq<char>,
    replies: Seq<progress::ReplyView>,
)
    ensures
        add_progress(container_id, stdin, replies) matches Progress::Done(Ok(s), _) ==> {
            &&& s == json::json_printed(config::previous(stdin))
            &&& config::conf(stdin) matches Ok(c)
            &&& c.prev_result matches Some(prev)
            &&& result::result_of(config::previous(stdin)) == Ok::<
                result::ResultView,
                decode::Fault,
            >(prev)
        },
        config::conf(stdin) matches Ok(c) && c.mappings.len() == 0 ==> add_progress(
            container_id,
            stdin,
            replies,
        ) is Done,
{
}

/// Deleting never fails.
pub proof fn law_delete_always_succeeds(
    container_id: Seq<char>,
    stdin: Seq<char>,
    replies: Seq<progress::ReplyView>,
)
    ensures
        del_progress(container_id, stdin, replies) matches Progress::Done(r, _) ==> r is Ok,
{
}

/// Whether an address is the first one of a result that is readable.
pub open spec fn is_first_address(ips: Seq<result::IpView>, ip: u32) -> bool {
    exists|i: int, net: ipv4::NetView|
        0 <= i < ips.len() && #[trigger] ipv4::names(ips[i].address, net) && net.addr == ip
            && forall|j: int, other: ipv4::NetView|
            0 <= j < i ==> !#[trigger] ipv4::names(ips[j].address, other)
}

proof fn lemma_first_address(ips: Seq<result::IpView>, ip: u32)
    requires
        is_first_address(ips, ip),
    ensures
        config::first_ipv4(ips) == Some(ip),
    decreases ips.len(),
{
    let (i, net) = choose|i: int, net: ipv4::NetView|
        0 <= i < ips.len() && #[trigger] ipv4::names(ips[i].address, net) && net.addr == ip
            && forall|j: int, other: ipv4::NetView|
            0 <= j < i ==> !#[trigger] ipv4::names(ips[j].address, other);
    if i > 0 {
        let rest = ips.skip(1);
        if let Ok(n) = ipv4::cidr_read(ips[0].address) {
            assert(ipv4::names(ips[0].address, ipv4::NetView { addr: n.0, prefix: n.1 }));
        }
        assert(rest[i - 1] == ips[i]);
        assert forall|j: int, other: ipv4::NetView| 0 <= j < i - 1 implies !#[trigger] ipv4::names(
            rest[j].address,
            other,
        ) by {
            assert(rest[j] == ips[j + 1]);
            assert(!ipv4::names(ips[j + 1].address, other));
        }
        assert(ipv4::names(rest[i - 1].address, net));
        lemma_first_address(rest, ip);
    }
}

/// Adding a container publishes the ports of its configuration: where a table has
/// nothing of the container and answers the commands, the addition succeeds, and
/// packets to the host are then translated to the first address of the previous
/// result exactly as the mappings of the configuration say.
pub proof fn law_addition_publishes_the_ports(
    container_id: Seq<char>,
    stdin: Seq<char>,
    replies: Seq<progress::ReplyView>,
    c: config::ConfView,
    pod_ip: u32,
    t: table::Table,
    p: packets::Packet,
    depth: nat,
)
    requires
        config::conf(stdin) == Ok::<config::ConfView, decode::Fault>(c),
        c.mappings.len() > 0,
        c.prev_result matches Some(prev) && is_first_address(prev.ips, pod_ip),
        iptables::detection(replies) is Done,
        replies.len() <= usize::MAX,
        table::answered(
            iptables::detection(replies)->Done_0,
            rules::apply_plan(container_id, pod_ip, c.mappings),
            t,
            replies,
            iptables::detection(replies)->Done_1 as int,
        ),
        add_progress(container_id, stdin, replies) is Done,
        packets::fresh(t, container_id),
        packets::leaves_alone(t, p, |chain: Seq<char>| chain == "POSTROUTING"@),
        packets::shared_for_local(t, p),
        depth >= 2,
    ensures
        add_progress(container_id, stdin, replies)->Done_0 is Ok,
        ({
            let u = table::table_after(
                iptables::detection(replies)->Done_0,
                rules::apply_plan(container_id, pod_ip, c.mappings),
                t,
                replies,
                iptables::detection(replies)->Done_1 as int,
                replies.len() as int,
            );
            &&& packets::published(
                packets::deciding(u, u["PREROUTING"@], p, depth),
                pod_ip,
                c.mappings,
                p,
            )
            &&& packets::published(
                packets::deciding(u, u["OUTPUT"@], p, depth),
                pod_ip,
                c.mappings,
                p,
            )
        }),
{
    let backend = iptables::detection(replies)->Done_0;
    let from = iptables::detection(replies)->Done_1 as int;
    lemma_first_address(c.prev_result->0.ips, pod_ip);
    table::law_apply_run(backend, t, container_id, pod_ip, c.mappings, replies, from);
    packets::law_run_publishes_mappings(
        backend,
        t,
        container_id,
        pod_ip,
        c.mappings,
        replies,
        from,
        p,
        depth,
    );
}

/// Deleting a container takes away what adding it put into the table: where the
/// configuration has mappings, or cannot be read, and a table that is in order
/// for the container answers the commands, nothing of the container is left.
/// Where the configuration has none, nothing is asked.
pub proof fn law_deletion_leaves_nothing(
    container_id: Seq<char>,
    stdin: Seq<char>,
    replies: Seq<progress::ReplyView>,
    t: table::Table,
)
    requires
        iptables::detection(replies) is Done,
        replies.len() <= usize::MAX,
        table::tidy(t, container_id),
        table::answered(
            iptables::detection(replies)->Done_0,
            rules::remove_plan(container_id),
            t,
            replies,
            iptables::detection(replies)->Done_1 as int,
        ),
    ensures
        (config::conf(stdin) matches Ok(c) && c.mappings.len() == 0) ==> del_progress(
            container_id,
            stdin,
            Seq::empty(),
        ) is Done,
        !(config::conf(stdin) matches Ok(c) && c.mappings.len() == 0) && del_progress(
            container_id,
            stdin,
            replies,
        ) is Done ==> table::table_after(
            iptables::detection(replies)->Done_0,
            rules::remove_plan(container_id),
            t,
            replies,
            iptables::detection(replies)->Done_1 as int,
            replies.len() as int,
        ) == table::without(t, container_id),
{
    let backend = iptables::detection(replies)->Done_0;
    let from = iptables::detection(replies)->Done_1 as int;
    table::law_remove_run(backend, t, container_id, replies, from);
}

/// Each command of an invocation is carried out: adding and deleting for the
/// container of the invocation; checking without doing anything.
pub proof fn law_commands_are_carried_out(
    args: env::ArgsView,
    stdin: Seq<char>,
    replies: Seq<progress::ReplyView>,
)
    ensures
        ({
            let run = run_progress(args, stdin, replies);
            &&& args.command == "ADD"@ ==> run == add_progress(args.container_id, stdin, replies)
            &&& args.command == "DEL"@ ==> run == del_progress(args.container_id, stdin, replies)
            &&& args.command == "CHECK"@ ==> (run matches Progress::Done(Ok(s), 0) && s.len() == 0)
            &&& args.command == "VERSION"@ ==> (run matches Progress::Done(Ok(_), 0))
            &&& args.command != "ADD"@ && args.command != "DEL"@ && args.command != "CHECK"@
                && args.command != "VERSION"@ ==> (run matches Progress::Done(Err(e), 0) && e.code
                == 4)
        }),
{
    plugin::lemma_commands_differ();
}

} // verus!
