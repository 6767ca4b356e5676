//! The chains and rules of the portmap plugin.

use vstd::prelude::*;
use vstd::string::*;

use crate::cni::error::CniError;
use crate::cni::iptables;
use crate::cni::iptables::{Iptables, NatOp};
use crate::cni_portmap::config;
use crate::cni_portmap::config::PortMapping;
use crate::ipv4;
use crate::number;
use crate::progress;
use crate::progress::{Invocation, Progress, Reply};
use crate::text;

verus! {

/// The chain that all containers share.
pub const TOP_CHAIN: &'static str = "CNI-HOSTPORT-DNAT";

/// The name of a container's DNAT chain.
pub open spec fn dn_name(container_id: Seq<char>) -> Seq<char> {
    "CNI-DN-"@ + text::alnum_prefix(container_id, 16)
}

/// The name of a container's chain of hairpin masquerading.
pub open spec fn hm_name(container_id: Seq<char>) -> Seq<char> {
    "CNI-HM-"@ + text::alnum_prefix(container_id, 16)
}

/// The name of a container's DNAT chain, within the 28 characters that
/// iptables allows.
pub fn dn_chain(container_id: &str) -> (s: String)
    ensures
        s@ == dn_name(container_id@),
        s@.len() <= 28,
{
    proof {
        reveal_strlit("CNI-DN-");
    }
    text::join2("CNI-DN-", text::alnum(container_id, 16).as_str())
}

/// The name of a container's chain of hairpin masquerading.
pub fn hm_chain(container_id: &str) -> (s: String)
    ensures
        s@ == hm_name(container_id@),
        s@.len() <= 28,
{
    proof {
        reveal_strlit("CNI-HM-");
    }
    text::join2("CNI-HM-", text::alnum(container_id, 16).as_str())
}

/// The arguments of a mapping's DNAT rule.
pub open spec fn dnat_rule(m: config::MappingView, pod_ip: u32) -> Seq<Seq<char>> {
    seq![
        "-p"@,
        m.protocol,
        "--dport"@,
        number::decimal(m.host_port as nat),
        "-j"@,
        "DNAT"@,
        "--to-destination"@,
        ipv4::dotted(pod_ip) + ":"@ + number::decimal(m.container_port as nat),
    ]
}

/// The arguments of a mapping's hairpin rule: a container that reaches its own
/// host port.
pub open spec fn hairpin_rule(m: config::MappingView, pod_ip: u32) -> Seq<Seq<char>> {
    seq![
        "-p"@,
        m.protocol,
        "-s"@,
        ipv4::dotted(pod_ip) + "/32"@,
        "-d"@,
        ipv4::dotted(pod_ip) + "/32"@,
        "--dport"@,
        number::decimal(m.container_port as nat),
        "-j"@,
        "MASQUERADE"@,
    ]
}

/// The arguments of the DNAT rule for one mapping.
pub fn dnat_args(m: &PortMapping, pod_ip: u32) -> (v: Vec<String>)
    ensures
        text::texts(v@) == dnat_rule(m@, pod_ip),
{
    let v = vec![
        "-p".to_owned(),
        m.protocol.clone(),
        "--dport".to_owned(),
        number::decimal_text(m.host_port as u64),
        "-j".to_owned(),
        "DNAT".to_owned(),
        "--to-destination".to_owned(),
        text::join3(
            ipv4::address_text(pod_ip).as_str(),
            ":",
            number::decimal_text(m.container_port as u64).as_str(),
        ),
    ];
    assert(text::texts(v@) =~= dnat_rule(m@, pod_ip));
    v
}

/// The arguments of the hairpin rule for one mapping.
pub fn hairpin_args(m: &PortMapping, pod_ip: u32) -> (v: Vec<String>)
    ensures
        text::texts(v@) == hairpin_rule(m@, pod_ip),
{
    let v = vec![
        "-p".to_owned(),
        m.protocol.clone(),
        "-s".to_owned(),
        text::join2(ipv4::address_text(pod_ip).as_str(), "/32"),
        "-d".to_owned(),
        text::join2(ipv4::address_text(pod_ip).as_str(), "/32"),
        "--dport".to_owned(),
        number::decimal_text(m.container_port as u64),
        "-j".to_owned(),
        "MASQUERADE".to_owned(),
    ];
    assert(text::texts(v@) =~= hairpin_rule(m@, pod_ip));
    v
}

/// A jump to a chain.
pub open spec fn jump(chain: Seq<char>) -> Seq<Seq<char>> {
    seq!["-j"@, chain]
}

/// A jump to a chain for traffic that is addressed to the host itself.
pub open spec fn local_jump(chain: Seq<char>) -> Seq<Seq<char>> {
    seq!["-m"@, "addrtype"@, "--dst-type"@, "LOCAL"@, "-j"@, chain]
}

/// What a mapping needs in the chains of its container.
pub open spec fn mapping_plan(dn: Seq<char>, hm: Seq<char>, pod_ip: u32, mappings: Seq<
    config::MappingView,
>) -> Seq<iptables::NatOpView>
    decreases mappings.len(),
{
    if mappings.len() == 0 {
        Seq::empty()
    } else {
        mapping_plan(dn, hm, pod_ip, mappings.drop_last()) + seq![
            iptables::NatOpView::EnsureRule(dn, dnat_rule(mappings.last(), pod_ip)),
            iptables::NatOpView::EnsureRule(hm, hairpin_rule(mappings.last(), pod_ip)),
        ]
    }
}

/// The operations that install a container's mappings: the shared chain with
/// its jumps, the container's two chains with theirs, then the rules of each
/// mapping.
pub open spec fn apply_plan(
    container_id: Seq<char>,
    pod_ip: u32,
    mappings: Seq<config::MappingView>,
) -> Seq<iptables::NatOpView> {
    let dn = dn_name(container_id);
    let hm = hm_name(container_id);
    seq![
        iptables::NatOpView::EnsureChain(TOP_CHAIN@),
        iptables::NatOpView::EnsureRule("PREROUTING"@, local_jump(TOP_CHAIN@)),
        iptables::NatOpView::EnsureRule("OUTPUT"@, local_jump(TOP_CHAIN@)),
        iptables::NatOpView::EnsureChain(dn),
        iptables::NatOpView::EnsureRule(TOP_CHAIN@, jump(dn)),
        iptables::NatOpView::EnsureChain(hm),
        iptables::NatOpView::EnsureRule("POSTROUTING"@, jump(hm)),
    ] + mapping_plan(dn, hm, pod_ip, mappings)
}

/// The operations that remove a container's chains and the jumps to them.
pub open spec fn remove_plan(container_id: Seq<char>) -> Seq<iptables::NatOpView> {
    let dn = dn_name(container_id);
    let hm = hm_name(container_id);
    seq![
        iptables::NatOpView::DeleteRule(TOP_CHAIN@, jump(dn)),
        iptables::NatOpView::RemoveChain(dn),
        iptables::NatOpView::DeleteRule("POSTROUTING"@, jump(hm)),
        iptables::NatOpView::RemoveChain(hm),
    ]
}

fn jump_args(chain: &str) -> (v: Vec<String>)
    ensures
        text::texts(v@) == jump(chain@),
{
    let v = vec!["-j".to_owned(), chain.to_owned()];
    assert(text::texts(v@) =~= jump(chain@));
    v
}

fn local_jump_args(chain: &str) -> (v: Vec<String>)
    ensures
        text::texts(v@) == local_jump(chain@),
{
    let v = vec![
        "-m".to_owned(),
        "addrtype".to_owned(),
        "--dst-type".to_owned(),
        "LOCAL".to_owned(),
        "-j".to_owned(),
        chain.to_owned(),
    ];
    assert(text::texts(v@) =~= local_jump(chain@));
    v
}

/// The operations that install a container's mappings.
pub fn apply_ops(container_id: &str, pod_ip: u32, mappings: &Vec<PortMapping>) -> (v: Vec<NatOp>)
    ensures
        iptables::op_views(v@) == apply_plan(
            container_id@,
            pod_ip,
            config::mapping_views(mappings@),
        ),
{
    let dn = dn_chain(container_id);
    let hm = hm_chain(container_id);
    let mut v: Vec<NatOp> = vec![
        NatOp::EnsureChain(TOP_CHAIN.to_owned()),
        NatOp::EnsureRule("PREROUTING".to_owned(), local_jump_args(TOP_CHAIN)),
        NatOp::EnsureRule("OUTPUT".to_owned(), local_jump_args(TOP_CHAIN)),
        NatOp::EnsureChain(dn.clone()),
        NatOp::EnsureRule(TOP_CHAIN.to_owned(), jump_args(dn.as_str())),
        NatOp::EnsureChain(hm.clone()),
        NatOp::EnsureRule("POSTROUTING".to_owned(), jump_args(hm.as_str())),
    ];
    let ghost head = iptables::op_views(v@);
    let ghost all = config::mapping_views(mappings@);
    assert(head + mapping_plan(dn@, hm@, pod_ip, Seq::empty()) =~= head);
    assert(all.take(0) =~= Seq::empty());
    let mut i: usize = 0;
    while i < mappings.len()
        invariant
            i <= mappings@.len(),
            all == config::mapping_views(mappings@),
            iptables::op_views(v@) == head + mapping_plan(dn@, hm@, pod_ip, all.take(i as int)),
        decreases mappings@.len() - i,
    {
        let ghost before = iptables::op_views(v@);
        let ghost d = iptables::NatOpView::EnsureRule(dn@, dnat_rule(all[i as int], pod_ip));
        let ghost h = iptables::NatOpView::EnsureRule(hm@, hairpin_rule(all[i as int], pod_ip));
        v.push(NatOp::EnsureRule(dn.clone(), dnat_args(&mappings[i], pod_ip)));
        v.push(NatOp::EnsureRule(hm.clone(), hairpin_args(&mappings[i], pod_ip)));
        proof {
            assert(iptables::op_views(v@) =~= before + seq![d, h]);
            assert(all.take(i + 1).drop_last() =~= all.take(i as int));
            assert(all.take(i + 1).last() == all[i as int]);
            assert(before + seq![d, h] =~= head + (mapping_plan(
                dn@,
                hm@,
                pod_ip,
                all.take(i as int),
            ) + seq![d, h]));
        }
        i = i + 1;
    }
    assert(all.take(mappings@.len() as int) =~= all);
    v
}

/// The operations that remove a container's chains.
pub fn remove_ops(container_id: &str) -> (v: Vec<NatOp>)
    ensures
        iptables::op_views(v@) == remove_plan(container_id@),
{
    let dn = dn_chain(container_id);
    let hm = hm_chain(container_id);
    let v: Vec<NatOp> = vec![
        NatOp::DeleteRule(TOP_CHAIN.to_owned(), jump_args(dn.as_str())),
        NatOp::RemoveChain(dn),
        NatOp::DeleteRule("POSTROUTING".to_owned(), jump_args(hm.as_str())),
        NatOp::RemoveChain(hm),
    ];
    assert(iptables::op_views(v@) =~= remove_plan(container_id@));
    v
}

/// Installs the DNAT and hairpin chains and rules for all mappings.
pub fn apply(
    ipt: &Iptables,
    container_id: &str,
    pod_ip: u32,
    mappings: &Vec<PortMapping>,
    replies: &Vec<Reply>,
    from: usize,
) -> (p: Progress<Invocation, Result<(), CniError>>)
    ensures
        iptables::nat_view(p) == iptables::ops_progress(
            ipt.program(),
            apply_plan(container_id@, pod_ip, config::mapping_views(mappings@)),
            progress::reply_views(replies@),
            from as int,
        ),
{
    let ops = apply_ops(container_id, pod_ip, mappings);
    ipt.perform_all(&ops, replies, from)
}

/// Removes a container's chains and the jumps to them. It never fails.
pub fn remove(ipt: &Iptables, container_id: &str, replies: &Vec<Reply>, from: usize) -> (p:
    Progress<Invocation, Result<(), CniError>>)
    ensures
        iptables::nat_view(p) == iptables::ops_progress(
            ipt.program(),
            remove_plan(container_id@),
            progress::reply_views(replies@),
            from as int,
        ),
        p matches Progress::Done(r, _) ==> r is Ok,
{
    let ops = remove_ops(container_id);
    let p = ipt.perform_all(&ops, replies, from);
    proof {
        let views = progress::reply_views(replies@);
        let plan = remove_plan(container_id@);
        reveal_with_fuel(iptables::ops_progress, 5);
        assert(plan.skip(1)[0] == plan[1] && plan.skip(1).skip(1)[0] == plan[2] && plan.skip(
            1,
        ).skip(1).skip(1)[0] == plan[3]);
        assert(plan.skip(1).skip(1).skip(1).skip(1).len() == 0);
    }
    p
}

/// The names of a container's chains: behind the first part, which tells the two
/// apart, stand the first letters and digits of the container, as many in both.
pub proof fn law_chain_names_tell_the_container(container_id: Seq<char>)
    ensures
        dn_name(container_id).take(7) == "CNI-DN-"@,
        text::is_beginning(dn_name(container_id).skip(7), container_id, 16),
        hm_name(container_id).take(7) == "CNI-HM-"@,
        text::is_beginning(hm_name(container_id).skip(7), container_id, 16),
{
    reveal_strlit("CNI-DN-");
    reveal_strlit("CNI-HM-");
    text::law_first_letters_and_digits_are_kept(container_id, 16);
    assert(dn_name(container_id).skip(7) =~= text::alnum_prefix(container_id, 16));
    assert(hm_name(container_id).skip(7) =~= text::alnum_prefix(container_id, 16));
    assert(dn_name(container_id).take(7) =~= "CNI-DN-"@);
    assert(hm_name(container_id).take(7) =~= "CNI-HM-"@);
}

} // verus!
