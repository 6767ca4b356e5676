//! What a container's mappings do with the packets that pass the nat table.
//!
//! Here the rules of a table are read the way a packet meets them: each option
//! of a rule with the value behind it, then what the rule says to do.

use vstd::prelude::*;

use crate::cni::iptables;
use crate::cni_portmap::config;
use crate::cni_portmap::rules;
use crate::cni_portmap::table;
use crate::cni_portmap::table::Table;
use crate::ipv4;
use crate::number;
use crate::progress;
use crate::text;

verus! {

/// A packet: its protocol, its addresses, its destination port, whether it is
/// addressed to the host itself, and how it stands to all other conditions.
pub struct Packet {
    pub protocol: Seq<char>,
    pub src: u32,
    pub dst: u32,
    pub port: u16,
    pub local: bool,
    pub has: spec_fn(Seq<char>, Seq<char>) -> bool,
}

/// Whether a written network holds an address.
pub open spec fn inside(network: Seq<char>, ip: u32) -> bool {
    exists|net: ipv4::NetView| #[trigger] ipv4::names(network, net) && ipv4::contains(net, ip)
}

/// Whether a packet meets one condition of a rule.
pub open spec fn met(option: Seq<char>, value: Seq<char>, p: Packet) -> bool {
    if option == "-p"@ {
        value == p.protocol
    } else if option == "--dport"@ {
        number::number(value, 10, 65535) == Ok::<nat, number::NumberFault>(p.port as nat)
    } else if option == "-s"@ {
        inside(value, p.src)
    } else if option == "-d"@ {
        inside(value, p.dst)
    } else if option == "-m"@ {
        true
    } else if option == "--dst-type"@ && value == "LOCAL"@ {
        p.local
    } else {
        (p.has)(option, value)
    }
}

/// Whether a packet meets all conditions of a rule.
pub open spec fn meets(rule: Seq<Seq<char>>, p: Packet) -> bool
    decreases rule.len(),
{
    if rule.len() < 2 || rule[0] == "-j"@ {
        true
    } else {
        met(rule[0], rule[1], p) && meets(rule.skip(2), p)
    }
}

/// The value behind an option of a rule.
pub open spec fn value_of(rule: Seq<Seq<char>>, option: Seq<char>) -> Option<Seq<char>>
    decreases rule.len(),
{
    if rule.len() < 2 {
        None
    } else if rule[0] == option {
        Some(rule[1])
    } else {
        value_of(rule.skip(2), option)
    }
}

/// The rule that decides about a packet which passes the rules in order. A rule
/// that names another chain sends the packet there, and it comes back where
/// nothing there decides; any other target decides. Chains are followed to the
/// given depth.
pub open spec fn deciding(t: Table, rs: Seq<Seq<Seq<char>>>, p: Packet, depth: nat) -> Option<
    Seq<Seq<char>>,
>
    decreases depth, rs.len(),
{
    if rs.len() == 0 {
        None
    } else {
        let here = if !meets(rs[0], p) {
            None
        } else {
            match value_of(rs[0], "-j"@) {
                None => None,
                Some(target) => if !t.contains_key(target) {
                    Some(rs[0])
                } else if depth > 0 {
                    deciding(t, t[target], p, (depth - 1) as nat)
                } else {
                    None
                },
            }
        };
        match here {
            Some(rule) => Some(rule),
            None => deciding(t, rs.skip(1), p, depth),
        }
    }
}

/// Whether a table decides nothing about a packet outside of some chains: each
/// rule elsewhere that the packet meets sends it on to such a chain, if anywhere.
pub open spec fn leaves_alone(
    t: Table,
    p: Packet,
    beyond: spec_fn(Seq<char>) -> bool,
) -> bool {
    forall|c: Seq<char>, i: int|
        t.contains_key(c) && !beyond(c) && 0 <= i < t[c].len() && meets(#[trigger] t[c][i], p)
            ==> match value_of(t[c][i], "-j"@) {
            None => true,
            Some(target) => t.contains_key(target) && !beyond(target),
        }
}

/// Whether the shared chain gets only packets that are addressed to the host.
pub open spec fn shared_for_local(t: Table, p: Packet) -> bool {
    forall|c: Seq<char>, i: int|
        t.contains_key(c) && 0 <= i < t[c].len() && meets(#[trigger] t[c][i], p) && value_of(
            t[c][i],
            "-j"@,
        ) == Some(rules::TOP_CHAIN@) ==> p.local
}

/// Whether nothing of a container is in a table, and no chain has the name of a
/// target.
pub open spec fn fresh(t: Table, container_id: Seq<char>) -> bool {
    &&& table::complete(t)
    &&& !t.contains_key(rules::dn_name(container_id))
    &&& !t.contains_key(rules::hm_name(container_id))
    &&& !t.contains_key("DNAT"@)
    &&& !t.contains_key("MASQUERADE"@)
}

/// Whether a mapping is for a packet to the host.
pub open spec fn wants(m: config::MappingView, p: Packet) -> bool {
    m.protocol == p.protocol && m.host_port == p.port
}

/// Whether a mapping is the first one for a packet to the host.
pub open spec fn serves(mappings: Seq<config::MappingView>, i: int, p: Packet) -> bool {
    &&& 0 <= i < mappings.len()
    &&& wants(mappings[i], p)
    &&& forall|j: int| 0 <= j < i ==> !wants(#[trigger] mappings[j], p)
}

/// Whether a text names an address and a port.
pub open spec fn reads_as(s: Seq<char>, ip: u32, port: u16) -> bool {
    let parts = text::split(s, ':');
    &&& parts.len() == 2
    &&& ipv4::address(parts[0]) == Some(ip)
    &&& number::number(parts[1], 10, 65535) == Ok::<nat, number::NumberFault>(port as nat)
}

/// Whether a rule translates the destination of what meets it.
pub open spec fn translates_to(rule: Seq<Seq<char>>, ip: u32, port: u16) -> bool {
    &&& value_of(rule, "-j"@) == Some("DNAT"@)
    &&& value_of(rule, "--to-destination"@) matches Some(s) && reads_as(s, ip, port)
}

/// Whether a packet is one that a container sent to its own published port: it
/// was translated to a mapping's container port, and comes from the container.
pub open spec fn comes_back(m: config::MappingView, pod_ip: u32, p: Packet) -> bool {
    m.protocol == p.protocol && m.container_port == p.port && p.src == pod_ip && p.dst == pod_ip
}

// ---------------------------------------------------------------------------
// Reading the rules
// ---------------------------------------------------------------------------

proof fn lemma_options_differ()
    ensures
        "-p"@ != "--dport"@ && "-p"@ != "-s"@ && "-p"@ != "-d"@ && "-p"@ != "-j"@,
        "-p"@ != "--to-destination"@ && "--dport"@ != "--to-destination"@,
        "-j"@ != "--to-destination"@,
        "--dport"@ != "-s"@ && "--dport"@ != "-d"@ && "--dport"@ != "-j"@,
        "-s"@ != "-d"@ && "-s"@ != "-j"@ && "-d"@ != "-j"@,
        "-m"@ != "-p"@ && "-m"@ != "--dport"@ && "-m"@ != "-s"@ && "-m"@ != "-d"@ && "-m"@ != "-j"@,
        "--dst-type"@ != "-p"@ && "--dst-type"@ != "--dport"@ && "--dst-type"@ != "-s"@,
        "--dst-type"@ != "-d"@ && "--dst-type"@ != "-m"@ && "--dst-type"@ != "-j"@,
{
    reveal_strlit("-p");
    reveal_strlit("-s");
    reveal_strlit("-d");
    reveal_strlit("-j");
    reveal_strlit("-m");
    reveal_strlit("--dport");
    reveal_strlit("--dst-type");
    reveal_strlit("--to-destination");
    assert("-p"@[1] == 'p' && "-s"@[1] == 's' && "-d"@[1] == 'd' && "-j"@[1] == 'j' && "-m"@[1]
        == 'm');
    assert("--dport"@[1] == '-' && "--dst-type"@[1] == '-' && "--to-destination"@[1] == '-');
    assert("--dport"@[3] == 'p' && "--dst-type"@[3] == 's' && "--to-destination"@[3] == 'o');
}

proof fn lemma_dnat_rule(m: config::MappingView, pod_ip: u32, p: Packet)
    ensures
        meets(rules::dnat_rule(m, pod_ip), p) == wants(m, p),
        translates_to(rules::dnat_rule(m, pod_ip), pod_ip, m.container_port),
{
    lemma_options_differ();
    let rule = rules::dnat_rule(m, pod_ip);
    number::law_decimal_reads_back(m.host_port as nat, 65535);
    number::law_decimal_reads_back(m.container_port as nat, 65535);
    reveal_with_fuel(meets, 4);
    reveal_with_fuel(value_of, 5);
    let r1 = rule.skip(2);
    let r2 = r1.skip(2);
    let r3 = r2.skip(2);
    assert(r1[0] == rule[2] && r1[1] == rule[3]);
    assert(r2[0] == rule[4] && r2[1] == rule[5]);
    assert(r3[0] == rule[6] && r3[1] == rule[7]);
    let d = ipv4::dotted(pod_ip);
    let tail = number::decimal(m.container_port as nat);
    ipv4::lemma_dotted_chars(pod_ip);
    ipv4::law_dotted_reads_back(pod_ip);
    number::lemma_decimal(m.container_port as nat);
    assert(!d.contains(':'));
    assert(!tail.contains(':'));
    text::lemma_split_head(d, ':', tail);
    text::lemma_split_single(tail, ':');
    reveal_strlit(":");
    assert(":"@ =~= seq![':']);
}

proof fn lemma_own_network(pod_ip: u32, ip: u32)
    ensures
        inside(ipv4::dotted(pod_ip) + "/32"@, ip) == (ip == pod_ip),
{
    let net = ipv4::NetView { addr: pod_ip, prefix: 32 };
    ipv4::law_cidr_reads_back(net);
    reveal_strlit("/32");
    reveal_with_fuel(number::decimal, 3);
    assert("/32"@ =~= seq!['/'] + number::decimal(32));
    assert(ipv4::dotted(pod_ip) + "/32"@ =~= ipv4::cidr(net));
    assert(ipv4::names(ipv4::dotted(pod_ip) + "/32"@, net));
    ipv4::lemma_bounds(net);
    vstd::arithmetic::power2::lemma2_to64();
    assert forall|n: ipv4::NetView| #[trigger]
        ipv4::names(ipv4::dotted(pod_ip) + "/32"@, n) implies n == net by {}
}

proof fn lemma_hairpin_rule(m: config::MappingView, pod_ip: u32, p: Packet)
    ensures
        meets(rules::hairpin_rule(m, pod_ip), p) == comes_back(m, pod_ip, p),
        value_of(rules::hairpin_rule(m, pod_ip), "-j"@) == Some("MASQUERADE"@),
{
    lemma_options_differ();
    let rule = rules::hairpin_rule(m, pod_ip);
    number::law_decimal_reads_back(m.container_port as nat, 65535);
    lemma_own_network(pod_ip, p.src);
    lemma_own_network(pod_ip, p.dst);
    reveal_with_fuel(meets, 5);
    reveal_with_fuel(value_of, 6);
    let r1 = rule.skip(2);
    let r2 = r1.skip(2);
    let r3 = r2.skip(2);
    let r4 = r3.skip(2);
    assert(r1[0] == rule[2] && r1[1] == rule[3]);
    assert(r2[0] == rule[4] && r2[1] == rule[5]);
    assert(r3[0] == rule[6] && r3[1] == rule[7]);
    assert(r4[0] == rule[8] && r4[1] == rule[9]);
}

proof fn lemma_jumps(chain: Seq<char>, p: Packet)
    ensures
        meets(rules::jump(chain), p),
        value_of(rules::jump(chain), "-j"@) == Some(chain),
        meets(rules::local_jump(chain), p) == p.local,
        value_of(rules::local_jump(chain), "-j"@) == Some(chain),
{
    lemma_options_differ();
    let rule = rules::local_jump(chain);
    reveal_with_fuel(meets, 4);
    reveal_with_fuel(value_of, 4);
    let r1 = rule.skip(2);
    let r2 = r1.skip(2);
    assert(r1[0] == rule[2] && r1[1] == rule[3]);
    assert(r2[0] == rule[4] && r2[1] == rule[5]);
}

// ---------------------------------------------------------------------------
// Passing rules
// ---------------------------------------------------------------------------

/// The first rule that a packet meets.
spec fn first_met(rs: Seq<Seq<Seq<char>>>, p: Packet) -> Option<Seq<Seq<char>>>
    decreases rs.len(),
{
    if rs.len() == 0 {
        None
    } else {
        match first_met(rs.drop_last(), p) {
            Some(rule) => Some(rule),
            None => if meets(rs.last(), p) {
                Some(rs.last())
            } else {
                None
            },
        }
    }
}

proof fn lemma_first_met(rs: Seq<Seq<Seq<char>>>, p: Packet, i: int)
    requires
        0 <= i < rs.len(),
        meets(rs[i], p),
    ensures
        first_met(rs, p) is Some,
    decreases rs.len(),
{
    if i < rs.len() - 1 {
        lemma_first_met(rs.drop_last(), p, i);
    }
}

proof fn lemma_deciding_push(
    t: Table,
    rs: Seq<Seq<Seq<char>>>,
    rule: Seq<Seq<char>>,
    p: Packet,
    depth: nat,
)
    ensures
        deciding(t, rs.push(rule), p, depth) == (match deciding(t, rs, p, depth) {
            Some(r) => Some(r),
            None => deciding(t, seq![rule], p, depth),
        }),
    decreases rs.len(),
{
    if rs.len() == 0 {
        assert(rs.push(rule) =~= seq![rule]);
    } else {
        assert(rs.push(rule).skip(1) =~= rs.skip(1).push(rule));
        assert(rs.push(rule)[0] == rs[0]);
        lemma_deciding_push(t, rs.skip(1), rule, p, depth);
    }
}

/// Where no rule sends a packet on, the first one that it meets decides.
proof fn lemma_first_met_decides(t: Table, rs: Seq<Seq<Seq<char>>>, p: Packet, depth: nat)
    requires
        forall|i: int|
            0 <= i < rs.len() ==> value_of(#[trigger] rs[i], "-j"@) is Some && !t.contains_key(
                value_of(rs[i], "-j"@)->0,
            ),
    ensures
        deciding(t, rs, p, depth) == first_met(rs, p),
    decreases rs.len(),
{
    if rs.len() > 0 {
        let init = rs.drop_last();
        assert forall|i: int| 0 <= i < init.len() implies value_of(#[trigger] init[i], "-j"@) is Some
            && !t.contains_key(value_of(init[i], "-j"@)->0) by {
            assert(init[i] == rs[i]);
        }
        lemma_first_met_decides(t, init, p, depth);
        lemma_deciding_push(t, init, rs.last(), p, depth);
        assert(init.push(rs.last()) =~= rs);
        reveal_with_fuel(deciding, 2);
        assert(seq![rs.last()].skip(1).len() == 0);
        assert(rs.last() == rs[rs.len() - 1]);
    }
}

/// Whether a packet that meets a rule is sent to the leaf chain, or stays among
/// the chains of a set.
spec fn sends(
    rule: Seq<Seq<char>>,
    p: Packet,
    set: spec_fn(Seq<char>) -> bool,
    leaf: Seq<char>,
) -> bool {
    meets(rule, p) ==> match value_of(rule, "-j"@) {
        None => true,
        Some(target) => set(target) || target == leaf,
    }
}

/// A set of chains which a packet leaves only for a leaf chain.
spec fn closed_but_for(
    t: Table,
    p: Packet,
    set: spec_fn(Seq<char>) -> bool,
    leaf: Seq<char>,
) -> bool {
    forall|c: Seq<char>| #[trigger]
        set(c) ==> t.contains_key(c) && forall|i: int|
            0 <= i < t[c].len() ==> sends(#[trigger] t[c][i], p, set, leaf)
}

/// Whether some of the rules sends a packet to a chain.
spec fn one_sends(rs: Seq<Seq<Seq<char>>>, p: Packet, chain: Seq<char>) -> bool {
    exists|i: int|
        0 <= i < rs.len() && meets(#[trigger] rs[i], p) && value_of(rs[i], "-j"@) == Some(chain)
}

proof fn lemma_one_sends_skip(rs: Seq<Seq<Seq<char>>>, p: Packet, chain: Seq<char>)
    requires
        rs.len() > 0,
        one_sends(rs, p, chain),
    ensures
        (meets(rs[0], p) && value_of(rs[0], "-j"@) == Some(chain)) || one_sends(rs.skip(1), p, chain),
{
    let i = choose|i: int|
        0 <= i < rs.len() && meets(#[trigger] rs[i], p) && value_of(rs[i], "-j"@) == Some(chain);
    if i > 0 {
        assert(rs.skip(1)[i - 1] == rs[i]);
    }
}

/// What a packet comes to among chains that it leaves only for a leaf: what the
/// leaf decides or nothing, and the former where it gets there.
proof fn lemma_passing(
    t: Table,
    p: Packet,
    set: spec_fn(Seq<char>) -> bool,
    gate: Seq<char>,
    leaf: Seq<char>,
    end: Option<Seq<Seq<char>>>,
    rs: Seq<Seq<Seq<char>>>,
    depth: nat,
)
    requires
        closed_but_for(t, p, set, leaf),
        t.contains_key(leaf),
        forall|d: nat| #[trigger] deciding(t, t[leaf], p, d) == end,
        set(gate),
        one_sends(t[gate], p, leaf),
        forall|i: int| 0 <= i < rs.len() ==> sends(#[trigger] rs[i], p, set, leaf),
    ensures
        deciding(t, rs, p, depth) is None || deciding(t, rs, p, depth) == end,
        depth >= 1 && one_sends(rs, p, leaf) ==> deciding(t, rs, p, depth) == end,
        depth >= 2 && one_sends(rs, p, gate) ==> deciding(t, rs, p, depth) == end,
    decreases depth, rs.len(),
{
    if rs.len() > 0 {
        let rest = rs.skip(1);
        assert forall|i: int| 0 <= i < rest.len() implies sends(#[trigger] rest[i], p, set, leaf) by {
            assert(rest[i] == rs[i + 1]);
        }
        lemma_passing(t, p, set, gate, leaf, end, rest, depth);
        if one_sends(rs, p, leaf) {
            lemma_one_sends_skip(rs, p, leaf);
        }
        if one_sends(rs, p, gate) {
            lemma_one_sends_skip(rs, p, gate);
        }
        assert(sends(rs[0], p, set, leaf));
        if meets(rs[0], p) && value_of(rs[0], "-j"@) is Some && depth > 0 {
            let target = value_of(rs[0], "-j"@)->0;
            if target == leaf {
                assert(deciding(t, t[leaf], p, (depth - 1) as nat) == end);
            } else {
                assert(set(target));
                lemma_passing(t, p, set, gate, leaf, end, t[target], (depth - 1) as nat);
            }
        }
    }
}

/// Among chains that a packet does not leave, nothing decides about it.
proof fn lemma_staying(
    t: Table,
    p: Packet,
    set: spec_fn(Seq<char>) -> bool,
    rs: Seq<Seq<Seq<char>>>,
    depth: nat,
)
    requires
        forall|c: Seq<char>| #[trigger]
            set(c) ==> t.contains_key(c) && forall|i: int|
                0 <= i < t[c].len() ==> stays(#[trigger] t[c][i], p, set),
        forall|i: int| 0 <= i < rs.len() ==> stays(#[trigger] rs[i], p, set),
    ensures
        deciding(t, rs, p, depth) is None,
    decreases depth, rs.len(),
{
    if rs.len() > 0 {
        let rest = rs.skip(1);
        assert forall|i: int| 0 <= i < rest.len() implies stays(#[trigger] rest[i], p, set) by {
            assert(rest[i] == rs[i + 1]);
        }
        lemma_staying(t, p, set, rest, depth);
        assert(stays(rs[0], p, set));
        if meets(rs[0], p) && value_of(rs[0], "-j"@) is Some && depth > 0 {
            let target = value_of(rs[0], "-j"@)->0;
            assert(set(target));
            lemma_staying(t, p, set, t[target], (depth - 1) as nat);
        }
    }
}

/// Whether a packet that meets a rule stays among the chains of a set.
spec fn stays(rule: Seq<Seq<char>>, p: Packet, set: spec_fn(Seq<char>) -> bool) -> bool {
    meets(rule, p) ==> match value_of(rule, "-j"@) {
        None => true,
        Some(target) => set(target),
    }
}

// ---------------------------------------------------------------------------
// The table with a container's mappings
// ---------------------------------------------------------------------------

/// Whether an operation puts a rule into a chain.
spec fn puts(op: iptables::NatOpView, c: Seq<char>, r: Seq<Seq<char>>) -> bool {
    op == iptables::NatOpView::EnsureRule(c, r)
}

/// Whether a rule of a chain was in a table, or an operation puts it there.
spec fn accounted(
    t: Table,
    ops: Seq<iptables::NatOpView>,
    c: Seq<char>,
    r: Seq<Seq<char>>,
) -> bool {
    (t.contains_key(c) && t[c].contains(r)) || exists|k: int|
        0 <= k < ops.len() && #[trigger] puts(ops[k], c, r)
}

/// Whether a chain was in a table, or an operation makes sure of it.
spec fn known(t: Table, ops: Seq<iptables::NatOpView>, c: Seq<char>) -> bool {
    t.contains_key(c) || exists|k: int|
        0 <= k < ops.len() && #[trigger] ops[k] == iptables::NatOpView::EnsureChain(c)
}

/// Where the chains and rules come from that operations leave in a table.
proof fn lemma_sources(t: Table, ops: Seq<iptables::NatOpView>)
    requires
        forall|k: int|
            0 <= k < ops.len() ==> (#[trigger] ops[k] is EnsureChain || ops[k] is EnsureRule),
    ensures
        forall|c: Seq<char>| #[trigger]
            t.contains_key(c) ==> table::effects(t, ops).contains_key(c),
        forall|c: Seq<char>| #[trigger]
            table::effects(t, ops).contains_key(c) ==> known(t, ops, c),
        forall|c: Seq<char>, i: int|
            table::effects(t, ops).contains_key(c) && 0 <= i < table::effects(t, ops)[c].len()
                ==> accounted(t, ops, c, #[trigger] table::effects(t, ops)[c][i]),
    decreases ops.len(),
{
    let u = table::effects(t, ops);
    if ops.len() > 0 {
        let init = ops.drop_last();
        let op = ops.last();
        assert forall|k: int| 0 <= k < init.len() implies (#[trigger] init[k] is EnsureChain
            || init[k] is EnsureRule) by {
            assert(init[k] == ops[k]);
        }
        lemma_sources(t, init);
        let v = table::effects(t, init);
        assert(op == ops[ops.len() - 1]);
        assert(u == table::effect(v, op));
        assert forall|c: Seq<char>| #[trigger] u.contains_key(c) implies known(t, ops, c) by {
            if v.contains_key(c) {
                assert(known(t, init, c));
                if !t.contains_key(c) {
                    let k = choose|k: int|
                        0 <= k < init.len() && #[trigger] init[k]
                            == iptables::NatOpView::EnsureChain(c);
                    assert(ops[k] == init[k]);
                }
            } else {
                assert(ops[ops.len() - 1] == iptables::NatOpView::EnsureChain(c));
            }
        }
        assert forall|c: Seq<char>, i: int|
            u.contains_key(c) && 0 <= i < u[c].len() implies accounted(
            t,
            ops,
            c,
            #[trigger] u[c][i],
        ) by {
            let r = u[c][i];
            if v.contains_key(c) && i < v[c].len() && v[c][i] == r {
                assert(accounted(t, init, c, v[c][i]));
                if !(t.contains_key(c) && t[c].contains(r)) {
                    let k = choose|k: int| 0 <= k < init.len() && #[trigger] puts(init[k], c, r);
                    assert(ops[k] == init[k]);
                    assert(puts(ops[k], c, r));
                }
            } else {
                assert(puts(ops[ops.len() - 1], c, r));
            }
        }
    }
}

/// What becomes of a packet that is for the first mapping that wants it.
spec fn translation(mappings: Seq<config::MappingView>, pod_ip: u32, p: Packet) -> Option<
    Seq<Seq<char>>,
>
    decreases mappings.len(),
{
    if mappings.len() == 0 {
        None
    } else {
        match translation(mappings.drop_last(), pod_ip, p) {
            Some(r) => Some(r),
            None => if wants(mappings.last(), p) {
                Some(rules::dnat_rule(mappings.last(), pod_ip))
            } else {
                None
            },
        }
    }
}

spec fn hairpin(mappings: Seq<config::MappingView>, pod_ip: u32, p: Packet) -> Option<
    Seq<Seq<char>>,
>
    decreases mappings.len(),
{
    if mappings.len() == 0 {
        None
    } else {
        match hairpin(mappings.drop_last(), pod_ip, p) {
            Some(r) => Some(r),
            None => if comes_back(mappings.last(), pod_ip, p) {
                Some(rules::hairpin_rule(mappings.last(), pod_ip))
            } else {
                None
            },
        }
    }
}

proof fn lemma_translation(mappings: Seq<config::MappingView>, pod_ip: u32, p: Packet)
    ensures
        match translation(mappings, pod_ip, p) {
            Some(rule) => exists|i: int| #[trigger]
                serves(mappings, i, p) && translates_to(rule, pod_ip, mappings[i].container_port),
            None => forall|i: int| 0 <= i < mappings.len() ==> !wants(#[trigger] mappings[i], p),
        },
    decreases mappings.len(),
{
    if mappings.len() > 0 {
        let init = mappings.drop_last();
        lemma_translation(init, pod_ip, p);
        assert(forall|i: int| 0 <= i < init.len() ==> #[trigger] init[i] == mappings[i]);
        match translation(init, pod_ip, p) {
            Some(rule) => {
                let i = choose|i: int| #[trigger]
                    serves(init, i, p) && translates_to(rule, pod_ip, init[i].container_port);
                assert forall|j: int| 0 <= j < i implies !wants(#[trigger] mappings[j], p) by {
                    assert(init[j] == mappings[j]);
                }
                assert(init[i] == mappings[i]);
                assert(serves(mappings, i, p));
            },
            None => {
                let n = mappings.len() - 1;
                assert forall|j: int| 0 <= j < n implies !wants(#[trigger] mappings[j], p) by {
                    assert(init[j] == mappings[j]);
                }
                lemma_dnat_rule(mappings[n], pod_ip, p);
                if wants(mappings[n], p) {
                    assert(serves(mappings, n, p));
                }
            },
        }
    }
}

proof fn lemma_hairpin(mappings: Seq<config::MappingView>, pod_ip: u32, p: Packet)
    ensures
        match hairpin(mappings, pod_ip, p) {
            Some(rule) => value_of(rule, "-j"@) == Some("MASQUERADE"@) && exists|i: int|
                0 <= i < mappings.len() && comes_back(#[trigger] mappings[i], pod_ip, p),
            None => forall|i: int|
                0 <= i < mappings.len() ==> !comes_back(#[trigger] mappings[i], pod_ip, p),
        },
    decreases mappings.len(),
{
    if mappings.len() > 0 {
        let init = mappings.drop_last();
        lemma_hairpin(init, pod_ip, p);
        let n = mappings.len() - 1;
        lemma_hairpin_rule(mappings[n], pod_ip, p);
        match hairpin(init, pod_ip, p) {
            Some(rule) => {
                let i = choose|i: int|
                    0 <= i < init.len() && comes_back(#[trigger] init[i], pod_ip, p);
                assert(comes_back(mappings[i], pod_ip, p));
            },
            None => {
                assert forall|j: int| 0 <= j < n implies !comes_back(
                    #[trigger] mappings[j],
                    pod_ip,
                    p,
                ) by {
                    assert(init[j] == mappings[j]);
                }
                if comes_back(mappings[n], pod_ip, p) {
                    assert(comes_back(mappings[n], pod_ip, p));
                }
            },
        }
    }
}

/// One rule more in a chain, where it is not there yet.
spec fn with_rule(rs: Seq<Seq<Seq<char>>>, r: Seq<Seq<char>>) -> Seq<Seq<Seq<char>>> {
    if rs.contains(r) {
        rs
    } else {
        rs.push(r)
    }
}

proof fn lemma_with_rule(rs: Seq<Seq<Seq<char>>>, r: Seq<Seq<char>>, p: Packet, target: Seq<char>)
    requires
        forall|i: int| 0 <= i < rs.len() ==> value_of(#[trigger] rs[i], "-j"@) == Some(target),
        value_of(r, "-j"@) == Some(target),
    ensures
        first_met(with_rule(rs, r), p) == (match first_met(rs, p) {
            Some(x) => Some(x),
            None => if meets(r, p) {
                Some(r)
            } else {
                None
            },
        }),
        forall|i: int|
            0 <= i < with_rule(rs, r).len() ==> value_of(#[trigger] with_rule(rs, r)[i], "-j"@)
                == Some(target),
{
    if rs.contains(r) {
        let i = choose|i: int| 0 <= i < rs.len() && rs[i] == r;
        if meets(r, p) {
            lemma_first_met(rs, p, i);
        }
    } else {
        assert(rs.push(r).drop_last() =~= rs);
        assert(rs.push(r).last() == r);
    }
}

proof fn lemma_mapping_chains(
    t: Table,
    dn: Seq<char>,
    hm: Seq<char>,
    pod_ip: u32,
    mappings: Seq<config::MappingView>,
    p: Packet,
)
    requires
        dn != hm,
        t.contains_key(dn) && t[dn].len() == 0,
        t.contains_key(hm) && t[hm].len() == 0,
    ensures
        ({
            let u = table::effects(t, rules::mapping_plan(dn, hm, pod_ip, mappings));
            &&& u.contains_key(dn) && u.contains_key(hm)
            &&& first_met(u[dn], p) == translation(mappings, pod_ip, p)
            &&& first_met(u[hm], p) == hairpin(mappings, pod_ip, p)
            &&& forall|i: int|
                0 <= i < u[dn].len() ==> value_of(#[trigger] u[dn][i], "-j"@) == Some("DNAT"@)
            &&& forall|i: int|
                0 <= i < u[hm].len() ==> value_of(#[trigger] u[hm][i], "-j"@) == Some("MASQUERADE"@)
        }),
    decreases mappings.len(),
{
    let plan = rules::mapping_plan(dn, hm, pod_ip, mappings);
    if mappings.len() > 0 {
        let init = mappings.drop_last();
        let before = rules::mapping_plan(dn, hm, pod_ip, init);
        lemma_mapping_chains(t, dn, hm, pod_ip, init, p);
        let v = table::effects(t, before);
        let d = rules::dnat_rule(mappings.last(), pod_ip);
        let h = rules::hairpin_rule(mappings.last(), pod_ip);
        let a = iptables::NatOpView::EnsureRule(dn, d);
        let b = iptables::NatOpView::EnsureRule(hm, h);
        assert(plan =~= before.push(a).push(b));
        assert(plan.drop_last() =~= before.push(a));
        assert(before.push(a).drop_last() =~= before);
        let u = table::effects(t, plan);
        assert(table::effects(t, before.push(a)) == table::effect(v, a));
        assert(plan.last() == b);
        assert(u == table::effect(table::effect(v, a), b));
        lemma_dnat_rule(mappings.last(), pod_ip, p);
        lemma_hairpin_rule(mappings.last(), pod_ip, p);
        lemma_with_rule(v[dn], d, p, "DNAT"@);
        lemma_with_rule(v[hm], h, p, "MASQUERADE"@);
        assert(u[dn] == with_rule(v[dn], d));
        assert(u[hm] == with_rule(v[hm], h));
    } else {
        assert(plan.len() == 0);
    }
}

/// Whether a rule is one of the jumps that lead to a container's chains.
spec fn is_jump(container_id: Seq<char>, c: Seq<char>, r: Seq<Seq<char>>) -> bool {
    let dn = rules::dn_name(container_id);
    let hm = rules::hm_name(container_id);
    let top = rules::TOP_CHAIN@;
    ||| (c == "PREROUTING"@ || c == "OUTPUT"@) && r == rules::local_jump(top)
    ||| c == top && r == rules::jump(dn)
    ||| c == "POSTROUTING"@ && r == rules::jump(hm)
}

spec fn after(
    t: Table,
    container_id: Seq<char>,
    pod_ip: u32,
    mappings: Seq<config::MappingView>,
) -> Table {
    table::effects(t, rules::apply_plan(container_id, pod_ip, mappings))
}

proof fn lemma_after_keys(
    t: Table,
    container_id: Seq<char>,
    pod_ip: u32,
    mappings: Seq<config::MappingView>,
)
    requires
        fresh(t, container_id),
    ensures
        ({
            let u = after(t, container_id, pod_ip, mappings);
            let dn = rules::dn_name(container_id);
            let hm = rules::hm_name(container_id);
            &&& table::installed(u, container_id, pod_ip, mappings)
            &&& forall|c: Seq<char>| #[trigger] t.contains_key(c) ==> u.contains_key(c)
            &&& forall|c: Seq<char>| #[trigger]
                u.contains_key(c) ==> t.contains_key(c) || c == rules::TOP_CHAIN@ || c == dn || c
                    == hm
            &&& !u.contains_key("DNAT"@) && !u.contains_key("MASQUERADE"@)
            &&& forall|c: Seq<char>, i: int|
                u.contains_key(c) && c != dn && c != hm && 0 <= i < u[c].len() ==> (t.contains_key(c)
                    && t[c].contains(#[trigger] u[c][i])) || is_jump(container_id, c, u[c][i])
        }),
{
    let u = after(t, container_id, pod_ip, mappings);
    let dn = rules::dn_name(container_id);
    let hm = rules::hm_name(container_id);
    let top = rules::TOP_CHAIN@;
    let plan = rules::apply_plan(container_id, pod_ip, mappings);
    let tail = rules::mapping_plan(dn, hm, pod_ip, mappings);
    table::lemma_names(container_id);
    table::law_apply_installs(t, container_id, pod_ip, mappings);
    assert forall|k: int| 7 <= k < plan.len() implies (#[trigger] plan[k] is EnsureRule && (
    plan[k]->EnsureRule_0 == dn || plan[k]->EnsureRule_0 == hm)) by {
        assert(plan[k] == tail[k - 7]);
        table::lemma_mapping_ops(dn, hm, pod_ip, mappings, k - 7);
    }
    assert(plan[0] is EnsureChain && plan[3] is EnsureChain && plan[5] is EnsureChain);
    assert(plan[1] is EnsureRule && plan[2] is EnsureRule && plan[4] is EnsureRule
        && plan[6] is EnsureRule);
    assert forall|k: int| 0 <= k < plan.len() implies (#[trigger] plan[k] is EnsureChain
        || plan[k] is EnsureRule) by {
        if k < 7 {
            assert(k == 0 || k == 1 || k == 2 || k == 3 || k == 4 || k == 5 || k == 6);
        }
    }
    lemma_sources(t, plan);
    assert forall|c: Seq<char>| #[trigger] u.contains_key(c) implies t.contains_key(c) || c == top
        || c == dn || c == hm by {
        assert(known(t, plan, c));
        if !t.contains_key(c) {
            let k = choose|k: int|
                0 <= k < plan.len() && #[trigger] plan[k] == iptables::NatOpView::EnsureChain(c);
            assert(k < 7);
            assert(k == 0 || k == 1 || k == 2 || k == 3 || k == 4 || k == 5 || k == 6);
        }
    }
    reveal_strlit("DNAT");
    reveal_strlit("MASQUERADE");
    reveal_strlit("CNI-HOSTPORT-DNAT");
    assert("DNAT"@[0] == 'D' && "MASQUERADE"@[0] == 'M' && top[0] == 'C');
    assert forall|c: Seq<char>, i: int|
        u.contains_key(c) && c != dn && c != hm && 0 <= i < u[c].len() implies (t.contains_key(c)
        && t[c].contains(#[trigger] u[c][i])) || is_jump(container_id, c, u[c][i]) by {
        let r = u[c][i];
        assert(accounted(t, plan, c, r));
        if !(t.contains_key(c) && t[c].contains(r)) {
            let k = choose|k: int| 0 <= k < plan.len() && #[trigger] puts(plan[k], c, r);
            assert(k < 7);
            assert(k == 0 || k == 1 || k == 2 || k == 3 || k == 4 || k == 5 || k == 6);
        }
    }
}

proof fn lemma_after_chains(
    t: Table,
    container_id: Seq<char>,
    pod_ip: u32,
    mappings: Seq<config::MappingView>,
    p: Packet,
)
    requires
        fresh(t, container_id),
    ensures
        ({
            let u = after(t, container_id, pod_ip, mappings);
            let dn = rules::dn_name(container_id);
            let hm = rules::hm_name(container_id);
            &&& forall|d: nat| #[trigger]
                deciding(u, u[dn], p, d) == translation(mappings, pod_ip, p)
            &&& forall|d: nat| #[trigger] deciding(u, u[hm], p, d) == hairpin(mappings, pod_ip, p)
        }),
{
    let u = after(t, container_id, pod_ip, mappings);
    let dn = rules::dn_name(container_id);
    let hm = rules::hm_name(container_id);
    let plan = rules::apply_plan(container_id, pod_ip, mappings);
    let tail = rules::mapping_plan(dn, hm, pod_ip, mappings);
    let none = Seq::<config::MappingView>::empty();
    let head = rules::apply_plan(container_id, pod_ip, none);
    table::lemma_names(container_id);
    lemma_after_keys(t, container_id, pod_ip, mappings);
    lemma_after_keys(t, container_id, pod_ip, none);
    assert(rules::mapping_plan(dn, hm, pod_ip, none).len() == 0);
    assert(head.len() == 7);
    assert(plan =~= head + tail);
    table::lemma_effects_concat(t, head, tail);
    let v = table::effects(t, head);
    assert forall|k: int| 0 <= k < head.len() implies (#[trigger] head[k] is EnsureChain
        || head[k] is EnsureRule) by {
        assert(k == 0 || k == 1 || k == 2 || k == 3 || k == 4 || k == 5 || k == 6);
    }
    lemma_sources(t, head);
    if v[dn].len() > 0 {
        assert(accounted(t, head, dn, v[dn][0]));
        let k = choose|k: int| 0 <= k < head.len() && #[trigger] puts(head[k], dn, v[dn][0]);
        assert(k == 0 || k == 1 || k == 2 || k == 3 || k == 4 || k == 5 || k == 6);
    }
    if v[hm].len() > 0 {
        assert(accounted(t, head, hm, v[hm][0]));
        let k = choose|k: int| 0 <= k < head.len() && #[trigger] puts(head[k], hm, v[hm][0]);
        assert(k == 0 || k == 1 || k == 2 || k == 3 || k == 4 || k == 5 || k == 6);
    }
    lemma_mapping_chains(v, dn, hm, pod_ip, mappings, p);
    assert forall|d: nat| #[trigger] deciding(u, u[dn], p, d) == translation(
        mappings,
        pod_ip,
        p,
    ) by {
        lemma_first_met_decides(u, u[dn], p, d);
    }
    assert forall|d: nat| #[trigger] deciding(u, u[hm], p, d) == hairpin(mappings, pod_ip, p) by {
        lemma_first_met_decides(u, u[hm], p, d);
    }
}

// ---------------------------------------------------------------------------
// Laws
// ---------------------------------------------------------------------------

/// Whether what decides about a packet at a chain is what the mappings say: a
/// packet to the host is translated to the container, at the container port of
/// the first mapping with its protocol and its port; there is no such mapping,
/// or the packet is not for the host, where nothing decides.
pub open spec fn published(
    rule: Option<Seq<Seq<char>>>,
    pod_ip: u32,
    mappings: Seq<config::MappingView>,
    p: Packet,
) -> bool {
    match rule {
        Some(r) => p.local && exists|i: int| #[trigger]
            serves(mappings, i, p) && translates_to(r, pod_ip, mappings[i].container_port),
        None => !p.local || forall|i: int|
            0 <= i < mappings.len() ==> !wants(#[trigger] mappings[i], p),
    }
}

proof fn lemma_published_from(
    t: Table,
    container_id: Seq<char>,
    pod_ip: u32,
    mappings: Seq<config::MappingView>,
    p: Packet,
    from: Seq<char>,
    depth: nat,
)
    requires
        fresh(t, container_id),
        leaves_alone(t, p, |c: Seq<char>| c == "POSTROUTING"@),
        shared_for_local(t, p),
        from == "PREROUTING"@ || from == "OUTPUT"@,
        depth >= 2,
    ensures
        ({
            let u = after(t, container_id, pod_ip, mappings);
            published(deciding(u, u[from], p, depth), pod_ip, mappings, p)
        }),
{
    let u = after(t, container_id, pod_ip, mappings);
    let dn = rules::dn_name(container_id);
    let hm = rules::hm_name(container_id);
    let top = rules::TOP_CHAIN@;
    table::lemma_names(container_id);
    lemma_after_keys(t, container_id, pod_ip, mappings);
    lemma_after_chains(t, container_id, pod_ip, mappings, p);
    lemma_translation(mappings, pod_ip, p);
    lemma_jumps(top, p);
    lemma_jumps(dn, p);
    let beyond = |c: Seq<char>| c == "POSTROUTING"@;
    let set = |c: Seq<char>|
        u.contains_key(c) && c != "POSTROUTING"@ && c != dn && c != hm && (p.local || c != top);
    assert forall|c: Seq<char>, i: int| set(c) && 0 <= i < u[c].len() implies (if p.local {
        sends(#[trigger] u[c][i], p, set, dn)
    } else {
        stays(u[c][i], p, set)
    }) by {
        let r = u[c][i];
        if t.contains_key(c) && t[c].contains(r) {
            let j = choose|j: int| 0 <= j < t[c].len() && t[c][j] == r;
            assert(!beyond(c));
            assert(meets(t[c][j], p) ==> match value_of(t[c][j], "-j"@) {
                None => true,
                Some(target) => t.contains_key(target) && !beyond(target),
            });
        } else {
            assert(is_jump(container_id, c, r));
        }
    }
    assert(set(from));
    if p.local {
        assert(set(top));
        assert(closed_but_for(u, p, set, dn)) by {
            assert forall|c: Seq<char>| #[trigger] set(c) implies u.contains_key(c) && forall|i: int|
                0 <= i < u[c].len() ==> sends(#[trigger] u[c][i], p, set, dn) by {}
        }
        let a = choose|i: int| 0 <= i < u[top].len() && u[top][i] == rules::jump(dn);
        assert(meets(u[top][a], p));
        assert(one_sends(u[top], p, dn));
        let b = choose|i: int| 0 <= i < u[from].len() && u[from][i] == rules::local_jump(top);
        assert(meets(u[from][b], p));
        assert(one_sends(u[from], p, top));
        lemma_passing(u, p, set, top, dn, translation(mappings, pod_ip, p), u[from], depth);
    } else {
        lemma_staying(u, p, set, u[from], depth);
    }
}

/// Installing a container's mappings publishes its ports, for packets that come
/// in and for packets of the host itself: in a table that has nothing of the
/// container, and decides nothing about a packet, the packet is then translated
/// if and only if it is addressed to the host and some mapping has its protocol
/// and its destination port. It then goes to the container, at the container port
/// of the first such mapping.
pub proof fn law_mappings_are_published(
    t: Table,
    container_id: Seq<char>,
    pod_ip: u32,
    mappings: Seq<config::MappingView>,
    p: Packet,
    depth: nat,
)
    requires
        fresh(t, container_id),
        leaves_alone(t, p, |c: Seq<char>| c == "POSTROUTING"@),
        shared_for_local(t, p),
        depth >= 2,
    ensures
        ({
            let u = table::effects(t, rules::apply_plan(container_id, pod_ip, mappings));
            &&& published(deciding(u, u["PREROUTING"@], p, depth), pod_ip, mappings, p)
            &&& published(deciding(u, u["OUTPUT"@], p, depth), pod_ip, mappings, p)
        }),
{
    lemma_published_from(t, container_id, pod_ip, mappings, p, "PREROUTING"@, depth);
    lemma_published_from(t, container_id, pod_ip, mappings, p, "OUTPUT"@, depth);
}

/// Installing a container's mappings lets the container reach its own published
/// ports: in a table that has nothing of the container, and decides nothing about
/// a packet on its way out, the packet is then masqueraded if and only if it goes
/// from the container to itself, with the protocol and the container port of some
/// mapping; otherwise nothing decides about it.
pub proof fn law_own_ports_are_masqueraded(
    t: Table,
    container_id: Seq<char>,
    pod_ip: u32,
    mappings: Seq<config::MappingView>,
    p: Packet,
    depth: nat,
)
    requires
        fresh(t, container_id),
        leaves_alone(
            t,
            p,
            |c: Seq<char>| c == "PREROUTING"@ || c == "OUTPUT"@ || c == rules::TOP_CHAIN@,
        ),
        depth >= 1,
    ensures
        ({
            let u = table::effects(t, rules::apply_plan(container_id, pod_ip, mappings));
            match deciding(u, u["POSTROUTING"@], p, depth) {
                Some(r) => value_of(r, "-j"@) == Some("MASQUERADE"@) && exists|i: int|
                    0 <= i < mappings.len() && comes_back(#[trigger] mappings[i], pod_ip, p),
                None => forall|i: int|
                    0 <= i < mappings.len() ==> !comes_back(#[trigger] mappings[i], pod_ip, p),
            }
        }),
{
    let u = after(t, container_id, pod_ip, mappings);
    let dn = rules::dn_name(container_id);
    let hm = rules::hm_name(container_id);
    let top = rules::TOP_CHAIN@;
    let post = "POSTROUTING"@;
    table::lemma_names(container_id);
    lemma_after_keys(t, container_id, pod_ip, mappings);
    lemma_after_chains(t, container_id, pod_ip, mappings, p);
    lemma_hairpin(mappings, pod_ip, p);
    lemma_jumps(hm, p);
    let beyond = |c: Seq<char>| c == "PREROUTING"@ || c == "OUTPUT"@ || c == rules::TOP_CHAIN@;
    let set = |c: Seq<char>| u.contains_key(c) && !beyond(c) && c != dn && c != hm;
    assert forall|c: Seq<char>, i: int| set(c) && 0 <= i < u[c].len() implies sends(
        #[trigger] u[c][i],
        p,
        set,
        hm,
    ) by {
        let r = u[c][i];
        if t.contains_key(c) && t[c].contains(r) {
            let j = choose|j: int| 0 <= j < t[c].len() && t[c][j] == r;
            assert(!beyond(c));
            assert(meets(t[c][j], p) ==> match value_of(t[c][j], "-j"@) {
                None => true,
                Some(target) => t.contains_key(target) && !beyond(target),
            });
        } else {
            assert(is_jump(container_id, c, r));
        }
    }
    assert(set(post));
    assert(closed_but_for(u, p, set, hm)) by {
        assert forall|c: Seq<char>| #[trigger] set(c) implies u.contains_key(c) && forall|i: int|
            0 <= i < u[c].len() ==> sends(#[trigger] u[c][i], p, set, hm) by {}
    }
    let a = choose|i: int| 0 <= i < u[post].len() && u[post][i] == rules::jump(hm);
    assert(meets(u[post][a], p));
    assert(one_sends(u[post], p, hm));
    lemma_passing(u, p, set, post, hm, hairpin(mappings, pod_ip, p), u[post], depth);
}

/// The ports of a container are published once the run that installs its mappings
/// has come to its end.
pub proof fn law_run_publishes_mappings(
    backend: Seq<char>,
    t: Table,
    container_id: Seq<char>,
    pod_ip: u32,
    mappings: Seq<config::MappingView>,
    replies: Seq<progress::ReplyView>,
    from: int,
    p: Packet,
    depth: nat,
)
    requires
        fresh(t, container_id),
        leaves_alone(t, p, |c: Seq<char>| c == "POSTROUTING"@),
        shared_for_local(t, p),
        depth >= 2,
        0 <= from <= replies.len() <= usize::MAX,
        table::answered(
            backend,
            rules::apply_plan(container_id, pod_ip, mappings),
            t,
            replies,
            from,
        ),
    ensures
        ({
            let plan = rules::apply_plan(container_id, pod_ip, mappings);
            let u = table::table_after(backend, plan, t, replies, from, replies.len() as int);
            iptables::ops_progress(backend, plan, replies, from) is Done ==> published(
                deciding(u, u["PREROUTING"@], p, depth),
                pod_ip,
                mappings,
                p,
            ) && published(deciding(u, u["OUTPUT"@], p, depth), pod_ip, mappings, p)
        }),
{
    table::law_apply_run(backend, t, container_id, pod_ip, mappings, replies, from);
    law_mappings_are_published(t, container_id, pod_ip, mappings, p, depth);
}

} // verus!
