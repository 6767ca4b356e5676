//! The nat table as the operations of the portmap plugin leave it.
//!
//! A table is a set of named chains, each a list of rules. Here is what each
//! operation does to a table, and what follows for a container's mappings:
//! installing them twice is installing them once, and removing them leaves the
//! table as it was.

use vstd::prelude::*;

use crate::cni::iptables;
use crate::cni_portmap::config;
use crate::cni_portmap::rules;
use crate::progress;
use crate::progress::Progress;
use crate::text;

verus! {

/// The rules of each chain.
pub type Table = Map<Seq<char>, Seq<Seq<Seq<char>>>>;

/// Whether a rule jumps to a chain.
pub open spec fn refers(rule: Seq<Seq<char>>, chain: Seq<char>) -> bool {
    exists|i: int| 0 <= i < rule.len() - 1 && #[trigger] rule[i] == "-j"@ && rule[i + 1] == chain
}

/// Whether some rule of a table jumps to a chain.
pub open spec fn referenced(t: Table, chain: Seq<char>) -> bool {
    exists|c: Seq<char>, i: int|
        t.contains_key(c) && 0 <= i < t[c].len() && refers(#[trigger] t[c][i], chain)
}

/// A table after an operation. A chain is deleted only where nothing jumps to
/// it; otherwise it stays, without rules.
pub open spec fn effect(t: Table, op: iptables::NatOpView) -> Table {
    match op {
        iptables::NatOpView::EnsureChain(c) => if t.contains_key(c) {
            t
        } else {
            t.insert(c, Seq::empty())
        },
        iptables::NatOpView::EnsureRule(c, r) => if t.contains_key(c) && !t[c].contains(r) {
            t.insert(c, t[c].push(r))
        } else {
            t
        },
        iptables::NatOpView::DeleteRule(c, r) => if t.contains_key(c) {
            t.insert(c, t[c].remove_value(r))
        } else {
            t
        },
        iptables::NatOpView::RemoveChain(c) => if !t.contains_key(c) {
            t
        } else {
            let flushed = t.insert(c, Seq::empty());
            if referenced(flushed, c) {
                flushed
            } else {
                flushed.remove(c)
            }
        },
    }
}

/// A table after operations in order.
pub open spec fn effects(t: Table, ops: Seq<iptables::NatOpView>) -> Table
    decreases ops.len(),
{
    if ops.len() == 0 {
        t
    } else {
        effect(effects(t, ops.drop_last()), ops.last())
    }
}

/// The operations for what all containers share: the chain and its jumps.
pub open spec fn shared_plan() -> Seq<iptables::NatOpView> {
    seq![
        iptables::NatOpView::EnsureChain(rules::TOP_CHAIN@),
        iptables::NatOpView::EnsureRule("PREROUTING"@, rules::local_jump(rules::TOP_CHAIN@)),
        iptables::NatOpView::EnsureRule("OUTPUT"@, rules::local_jump(rules::TOP_CHAIN@)),
    ]
}

/// The operations for a container's own chains.
pub open spec fn own_plan(
    container_id: Seq<char>,
    pod_ip: u32,
    mappings: Seq<config::MappingView>,
) -> Seq<iptables::NatOpView> {
    let dn = rules::dn_name(container_id);
    let hm = rules::hm_name(container_id);
    seq![
        iptables::NatOpView::EnsureChain(dn),
        iptables::NatOpView::EnsureRule(rules::TOP_CHAIN@, rules::jump(dn)),
        iptables::NatOpView::EnsureChain(hm),
        iptables::NatOpView::EnsureRule("POSTROUTING"@, rules::jump(hm)),
    ] + rules::mapping_plan(dn, hm, pod_ip, mappings)
}

/// Whether rules jump to a chain from one place at most: by a plain jump in
/// the home chain.
pub open spec fn only_from(t: Table, chain: Seq<char>, home: Seq<char>) -> bool {
    &&& forall|c: Seq<char>, i: int|
        t.contains_key(c) && 0 <= i < t[c].len() && refers(#[trigger] t[c][i], chain) ==> c == home
            && t[c][i] == rules::jump(chain)
    &&& forall|i: int, j: int|
        t.contains_key(home) && 0 <= i < j < t[home].len() && #[trigger] t[home][i] == rules::jump(
            chain,
        ) ==> #[trigger] t[home][j] != rules::jump(chain)
}

/// Whether the built-in chains exist.
pub open spec fn complete(t: Table) -> bool {
    t.contains_key("PREROUTING"@) && t.contains_key("OUTPUT"@) && t.contains_key("POSTROUTING"@)
}

/// Whether a table is in order for a container: the built-in chains exist, and
/// the container's chains are jumped to only from where the plugin puts the
/// jumps.
pub open spec fn tidy(t: Table, container_id: Seq<char>) -> bool {
    &&& complete(t)
    &&& only_from(t, rules::dn_name(container_id), rules::TOP_CHAIN@)
    &&& only_from(t, rules::hm_name(container_id), "POSTROUTING"@)
}

/// A table without anything of a container.
pub open spec fn without(t: Table, container_id: Seq<char>) -> Table {
    let dn = rules::dn_name(container_id);
    let hm = rules::hm_name(container_id);
    Map::new(
        |c: Seq<char>| t.contains_key(c) && c != dn && c != hm,
        |c: Seq<char>|
            if c == rules::TOP_CHAIN@ {
                t[c].remove_value(rules::jump(dn))
            } else if c == "POSTROUTING"@ {
                t[c].remove_value(rules::jump(hm))
            } else {
                t[c]
            },
    )
}

/// Whether a table has what an operation makes sure of.
pub open spec fn holds(t: Table, op: iptables::NatOpView) -> bool {
    match op {
        iptables::NatOpView::EnsureChain(c) => t.contains_key(c),
        iptables::NatOpView::EnsureRule(c, r) => t.contains_key(c) && t[c].contains(r),
        _ => false,
    }
}

// ---------------------------------------------------------------------------
// Names and rules
// ---------------------------------------------------------------------------

pub proof fn lemma_names(container_id: Seq<char>)
    ensures
        ({
            let dn = rules::dn_name(container_id);
            let hm = rules::hm_name(container_id);
            &&& dn.len() >= 7 && dn[0] == 'C'
            &&& hm.len() >= 7 && hm[0] == 'C'
            &&& dn != hm && dn != rules::TOP_CHAIN@ && hm != rules::TOP_CHAIN@
            &&& dn != "PREROUTING"@ && dn != "OUTPUT"@ && dn != "POSTROUTING"@
            &&& hm != "PREROUTING"@ && hm != "OUTPUT"@ && hm != "POSTROUTING"@
            &&& rules::TOP_CHAIN@ != "PREROUTING"@ && rules::TOP_CHAIN@ != "OUTPUT"@
            &&& rules::TOP_CHAIN@ != "POSTROUTING"@
            &&& "PREROUTING"@ != "POSTROUTING"@ && "OUTPUT"@ != "POSTROUTING"@
        }),
{
    let dn = rules::dn_name(container_id);
    let hm = rules::hm_name(container_id);
    reveal_strlit("CNI-DN-");
    reveal_strlit("CNI-HM-");
    reveal_strlit("CNI-HOSTPORT-DNAT");
    reveal_strlit("PREROUTING");
    reveal_strlit("OUTPUT");
    reveal_strlit("POSTROUTING");
    assert(dn[0] == 'C' && dn[4] == 'D');
    assert(hm[0] == 'C' && hm[4] == 'H' && hm[5] == 'M');
    assert("CNI-HOSTPORT-DNAT"@[0] == 'C' && "CNI-HOSTPORT-DNAT"@[4] == 'H'
        && "CNI-HOSTPORT-DNAT"@[5] == 'O');
    assert("PREROUTING"@[0] == 'P' && "OUTPUT"@[0] == 'O' && "POSTROUTING"@[0] == 'P');
    assert("PREROUTING"@.len() == 10 && "POSTROUTING"@.len() == 11);
}

proof fn lemma_words()
    ensures
        "-p"@ != "-j"@,
        "--dport"@ != "-j"@,
        "DNAT"@ != "-j"@,
        "--to-destination"@ != "-j"@,
        "-s"@ != "-j"@,
        "-d"@ != "-j"@,
        "-m"@ != "-j"@,
        "addrtype"@ != "-j"@,
        "--dst-type"@ != "-j"@,
        "LOCAL"@ != "-j"@,
        "--dport"@.len() > 0 && "--dport"@[0] == '-',
        "DNAT"@.len() > 0 && "DNAT"@[0] == 'D',
        "-s"@.len() > 0 && "-s"@[0] == '-',
        "-d"@.len() > 0 && "-d"@[0] == '-',
        "-j"@.len() > 0 && "-j"@[0] == '-',
        "MASQUERADE"@.len() > 0 && "MASQUERADE"@[0] == 'M',
{
    reveal_strlit("-p");
    reveal_strlit("-j");
    reveal_strlit("--dport");
    reveal_strlit("DNAT");
    reveal_strlit("--to-destination");
    reveal_strlit("-s");
    reveal_strlit("-d");
    reveal_strlit("-m");
    reveal_strlit("addrtype");
    reveal_strlit("--dst-type");
    reveal_strlit("LOCAL");
    reveal_strlit("MASQUERADE");
    assert("-p"@[1] == 'p' && "-j"@[1] == 'j' && "-s"@[1] == 's' && "-d"@[1] == 'd' && "-m"@[1]
        == 'm');
}

proof fn lemma_mapping_rules_stay_inside(m: config::MappingView, pod_ip: u32, chain: Seq<char>)
    requires
        chain.len() > 0,
        chain[0] == 'C',
    ensures
        !refers(rules::dnat_rule(m, pod_ip), chain),
        !refers(rules::hairpin_rule(m, pod_ip), chain),
{
    lemma_words();
    let d = rules::dnat_rule(m, pod_ip);
    if refers(d, chain) {
        let i = choose|i: int|
            0 <= i < d.len() - 1 && #[trigger] d[i] == "-j"@ && d[i + 1] == chain;
        assert(i == 1 || i == 3 || i == 4);
        assert(d[2] == "--dport"@ && d[4] == "-j"@ && d[5] == "DNAT"@);
    }
    let h = rules::hairpin_rule(m, pod_ip);
    if refers(h, chain) {
        let i = choose|i: int|
            0 <= i < h.len() - 1 && #[trigger] h[i] == "-j"@ && h[i + 1] == chain;
        assert(i == 1 || i == 3 || i == 5 || i == 7 || i == 8);
        assert(h[2] == "-s"@ && h[4] == "-d"@ && h[6] == "--dport"@ && h[8] == "-j"@ && h[9]
            == "MASQUERADE"@);
    }
}

proof fn lemma_jump_refers(to: Seq<char>, chain: Seq<char>)
    ensures
        refers(rules::jump(to), chain) <==> to == chain,
        refers(rules::local_jump(to), chain) <==> to == chain,
{
    lemma_words();
    let j = rules::jump(to);
    assert(j[0] == "-j"@ && j[1] == to);
    if refers(j, chain) {
        let i = choose|i: int|
            0 <= i < j.len() - 1 && #[trigger] j[i] == "-j"@ && j[i + 1] == chain;
        assert(i == 0);
    }
    let l = rules::local_jump(to);
    assert(l[4] == "-j"@ && l[5] == to);
    if refers(l, chain) {
        let i = choose|i: int|
            0 <= i < l.len() - 1 && #[trigger] l[i] == "-j"@ && l[i + 1] == chain;
        assert(i == 4);
    }
}

// ---------------------------------------------------------------------------
// Lists
// ---------------------------------------------------------------------------

proof fn lemma_remove_absent(s: Seq<Seq<Seq<char>>>, r: Seq<Seq<char>>)
    requires
        !s.contains(r),
    ensures
        s.remove_value(r) == s,
        s.push(r).remove_value(r) == s,
{
    s.index_of_first_ensures(r);
    let p = s.push(r);
    p.index_of_first_ensures(r);
    assert(p[s.len() as int] == r);
    assert(p.contains(r));
    let i = p.index_of_first(r)->0;
    if i < s.len() {
        assert(s[i] == r);
    }
    assert(p.remove(i) =~= s);
}

proof fn lemma_remove_keeps(s: Seq<Seq<Seq<char>>>, r: Seq<Seq<char>>)
    ensures
        forall|i: int|
            0 <= i < s.remove_value(r).len() ==> s.contains(#[trigger] s.remove_value(r)[i]),
        forall|x: Seq<Seq<char>>|
            x != r && s.contains(x) ==> #[trigger] s.remove_value(r).contains(x),
        (forall|i: int, j: int|
            0 <= i < j < s.len() && #[trigger] s[i] == r ==> #[trigger] s[j] != r)
            ==> !s.remove_value(r).contains(r),
{
    s.index_of_first_ensures(r);
    if s.contains(r) {
        let k = s.index_of_first(r)->0;
        let q = s.remove_value(r);
        assert(q == s.remove(k));
        assert forall|i: int| 0 <= i < q.len() implies s.contains(#[trigger] q[i]) by {
            let o = if i < k { i } else { i + 1 };
            assert(q[i] == s[o]);
        }
        assert forall|x: Seq<Seq<char>>| x != r && s.contains(x) implies #[trigger] q.contains(
            x,
        ) by {
            let o = s.index_of(x);
            let i = if o < k { o } else { o - 1 };
            assert(q[i] == x);
        }
        if forall|i: int, j: int|
            0 <= i < j < s.len() && #[trigger] s[i] == r ==> #[trigger] s[j] != r {
            if q.contains(r) {
                let i = q.index_of(r);
                let o = if i < k { i } else { i + 1 };
                assert(q[i] == s[o]);
                if o < k {
                    assert(s[o] == r && s[k] == r);
                } else {
                    assert(s[k] == r && s[o] == r);
                }
            }
        }
    } else {
        lemma_remove_absent(s, r);
    }
}

// ---------------------------------------------------------------------------
// Commands
// ---------------------------------------------------------------------------

/// A table after a command, and whether the command succeeds. Commands that
/// operations do not use change nothing and fail.
pub open spec fn command(t: Table, q: progress::InvocationView) -> (Table, bool) {
    let op = q.args[3];
    let c = q.args[4];
    let r = q.args.skip(5);
    if op == "-N"@ {
        (
            if t.contains_key(c) {
                t
            } else {
                t.insert(c, Seq::empty())
            },
            !t.contains_key(c),
        )
    } else if op == "-C"@ {
        (t, t.contains_key(c) && t[c].contains(r))
    } else if op == "-A"@ {
        if t.contains_key(c) {
            (t.insert(c, t[c].push(r)), true)
        } else {
            (t, false)
        }
    } else if op == "-D"@ {
        if t.contains_key(c) && t[c].contains(r) {
            (t.insert(c, t[c].remove_value(r)), true)
        } else {
            (t, false)
        }
    } else if op == "-F"@ {
        if t.contains_key(c) {
            (t.insert(c, Seq::empty()), true)
        } else {
            (t, false)
        }
    } else if op == "-X"@ {
        if t.contains_key(c) && t[c].len() == 0 && !referenced(t, c) {
            (t.remove(c), true)
        } else {
            (t, false)
        }
    } else {
        (t, false)
    }
}

/// Whether an answer is one that a table gives to a command: it tells whether
/// the command succeeds, and a chain that cannot be created is said to exist.
pub open spec fn answers(t: Table, q: progress::InvocationView, r: progress::ReplyView) -> bool {
    r matches progress::ReplyView::Exited { success, stderr, .. } && success == command(t, q).1 && (
    q.args[3] == "-N"@ && !success ==> text::has_text(stderr, "exists"@))
}

proof fn lemma_commands_differ()
    ensures
        "-C"@ != "-N"@,
        "-A"@ != "-N"@ && "-A"@ != "-C"@,
        "-D"@ != "-N"@ && "-D"@ != "-C"@ && "-D"@ != "-A"@,
        "-F"@ != "-N"@ && "-F"@ != "-C"@ && "-F"@ != "-A"@ && "-F"@ != "-D"@,
        "-X"@ != "-N"@ && "-X"@ != "-C"@ && "-X"@ != "-A"@ && "-X"@ != "-D"@ && "-X"@ != "-F"@,
{
    reveal_strlit("-N");
    reveal_strlit("-C");
    reveal_strlit("-A");
    reveal_strlit("-D");
    reveal_strlit("-F");
    reveal_strlit("-X");
    assert("-N"@[1] == 'N' && "-C"@[1] == 'C' && "-A"@[1] == 'A' && "-D"@[1] == 'D' && "-F"@[1]
        == 'F' && "-X"@[1] == 'X');
}

proof fn lemma_command_parts(
    backend: Seq<char>,
    op: Seq<char>,
    chain: Seq<char>,
    rule: Seq<Seq<char>>,
)
    ensures
        ({
            let q = iptables::nat_command(backend, op, chain, rule);
            &&& q.args[3] == op
            &&& q.args[4] == chain
            &&& q.args.skip(5) == rule
        }),
{
    let q = iptables::nat_command(backend, op, chain, rule);
    assert(q.args.skip(5) =~= rule);
}

// ---------------------------------------------------------------------------
// Operations
// ---------------------------------------------------------------------------

pub proof fn lemma_effects_concat(
    t: Table,
    a: Seq<iptables::NatOpView>,
    b: Seq<iptables::NatOpView>,
)
    ensures
        effects(t, a + b) == effects(effects(t, a), b),
    decreases b.len(),
{
    if b.len() == 0 {
        assert(a + b =~= a);
    } else {
        lemma_effects_concat(t, a, b.drop_last());
        assert((a + b).drop_last() =~= a + b.drop_last());
        assert((a + b).last() == b.last());
    }
}

proof fn lemma_apply_split(container_id: Seq<char>, pod_ip: u32, mappings: Seq<config::MappingView>)
    ensures
        rules::apply_plan(container_id, pod_ip, mappings) == shared_plan() + own_plan(
            container_id,
            pod_ip,
            mappings,
        ),
{
    assert(rules::apply_plan(container_id, pod_ip, mappings) =~= shared_plan() + own_plan(
        container_id,
        pod_ip,
        mappings,
    ));
}

/// Whether an operation makes sure of something and, where it adds a jump to a
/// container's chain, adds it where the plugin puts it.
spec fn proper(op: iptables::NatOpView, container_id: Seq<char>) -> bool {
    let dn = rules::dn_name(container_id);
    let hm = rules::hm_name(container_id);
    match op {
        iptables::NatOpView::EnsureChain(_) => true,
        iptables::NatOpView::EnsureRule(c, r) => {
            &&& refers(r, dn) ==> c == rules::TOP_CHAIN@ && r == rules::jump(dn)
            &&& refers(r, hm) ==> c == "POSTROUTING"@ && r == rules::jump(hm)
        },
        _ => false,
    }
}

proof fn lemma_only_from(
    t: Table,
    c: Seq<char>,
    r: Seq<Seq<char>>,
    chain: Seq<char>,
    home: Seq<char>,
)
    requires
        only_from(t, chain, home),
        t.contains_key(c),
        !t[c].contains(r),
        refers(r, chain) ==> c == home && r == rules::jump(chain),
    ensures
        only_from(t.insert(c, t[c].push(r)), chain, home),
{
    let u = t.insert(c, t[c].push(r));
    assert forall|d: Seq<char>, i: int|
        u.contains_key(d) && 0 <= i < u[d].len() && refers(#[trigger] u[d][i], chain) implies d
        == home && u[d][i] == rules::jump(chain) by {
        if d == c {
            if i < t[c].len() {
                assert(u[d][i] == t[c][i]);
            }
        } else {
            assert(u[d][i] == t[d][i]);
        }
    }
    assert forall|i: int, j: int|
        u.contains_key(home) && 0 <= i < j < u[home].len() && #[trigger] u[home][i] == rules::jump(
            chain,
        ) implies #[trigger] u[home][j] != rules::jump(chain) by {
        if home == c {
            assert(u[home][i] == t[home][i]);
            if j < t[c].len() {
                assert(u[home][j] == t[home][j]);
            } else {
                assert(t[c].contains(t[c][i]));
            }
        } else {
            assert(u[home][i] == t[home][i] && u[home][j] == t[home][j]);
        }
    }
}

proof fn lemma_proper_keeps_tidy(t: Table, op: iptables::NatOpView, container_id: Seq<char>)
    requires
        tidy(t, container_id),
        proper(op, container_id),
    ensures
        tidy(effect(t, op), container_id),
{
    let dn = rules::dn_name(container_id);
    let hm = rules::hm_name(container_id);
    let u = effect(t, op);
    match op {
        iptables::NatOpView::EnsureChain(c) => {
            if !t.contains_key(c) {
                assert forall|d: Seq<char>, i: int|
                    u.contains_key(d) && 0 <= i < u[d].len() implies t.contains_key(d)
                    && #[trigger] u[d][i] == t[d][i] by {}
                assert(only_from(u, dn, rules::TOP_CHAIN@));
                assert(only_from(u, hm, "POSTROUTING"@));
            }
        },
        iptables::NatOpView::EnsureRule(c, r) => {
            if t.contains_key(c) && !t[c].contains(r) {
                lemma_only_from(t, c, r, dn, rules::TOP_CHAIN@);
                lemma_only_from(t, c, r, hm, "POSTROUTING"@);
            }
        },
        _ => {},
    }
}

/// Whether an operation makes sure of something.
spec fn ensures_something(op: iptables::NatOpView) -> bool {
    op is EnsureChain || op is EnsureRule
}

proof fn lemma_ensuring_keeps(t: Table, op: iptables::NatOpView)
    requires
        ensures_something(op),
    ensures
        forall|c: Seq<char>| #[trigger] t.contains_key(c) ==> effect(t, op).contains_key(c),
        forall|other: iptables::NatOpView| #[trigger] holds(t, other) ==> holds(effect(t, op), other),
        match op {
            iptables::NatOpView::EnsureRule(c, _) => t.contains_key(c) ==> holds(effect(t, op), op),
            _ => holds(effect(t, op), op),
        },
{
    let u = effect(t, op);
    if let iptables::NatOpView::EnsureRule(c, r) = op {
        if t.contains_key(c) && !t[c].contains(r) {
            assert(u[c][t[c].len() as int] == r);
            assert forall|other: iptables::NatOpView| #[trigger] holds(t, other) implies holds(
                u,
                other,
            ) by {
                if let iptables::NatOpView::EnsureRule(d, x) = other {
                    let i = t[d].index_of(x);
                    assert(u[d][i] == x);
                }
            }
        }
    }
}

/// Whether each rule that operations add goes into a chain that exists or that
/// an earlier operation makes sure of.
spec fn grounded(t: Table, ops: Seq<iptables::NatOpView>) -> bool {
    forall|k: int|
        0 <= k < ops.len() ==> match #[trigger] ops[k] {
            iptables::NatOpView::EnsureRule(c, _) => t.contains_key(c) || exists|j: int|
                0 <= j < k && #[trigger] ops[j] == iptables::NatOpView::EnsureChain(c),
            _ => true,
        }
}

proof fn lemma_grounded_init(t: Table, ops: Seq<iptables::NatOpView>)
    requires
        ops.len() > 0,
        grounded(t, ops),
    ensures
        grounded(t, ops.drop_last()),
{
    let init = ops.drop_last();
    assert forall|k: int| 0 <= k < init.len() implies match #[trigger] init[k] {
        iptables::NatOpView::EnsureRule(c, _) => t.contains_key(c) || exists|j: int|
            0 <= j < k && #[trigger] init[j] == iptables::NatOpView::EnsureChain(c),
        _ => true,
    } by {
        assert(init[k] == ops[k]);
        if let iptables::NatOpView::EnsureRule(c, _) = init[k] {
            if !t.contains_key(c) {
                let j = choose|j: int|
                    0 <= j < k && #[trigger] ops[j] == iptables::NatOpView::EnsureChain(c);
                assert(init[j] == ops[j]);
            }
        }
    }
}

proof fn lemma_all_hold(t: Table, ops: Seq<iptables::NatOpView>)
    requires
        forall|k: int| 0 <= k < ops.len() ==> ensures_something(#[trigger] ops[k]),
        grounded(t, ops),
    ensures
        forall|c: Seq<char>| #[trigger] t.contains_key(c) ==> effects(t, ops).contains_key(c),
        forall|k: int| 0 <= k < ops.len() ==> holds(effects(t, ops), #[trigger] ops[k]),
    decreases ops.len(),
{
    if ops.len() > 0 {
        let init = ops.drop_last();
        let last = ops.last();
        assert(last == ops[ops.len() - 1]);
        assert forall|k: int| 0 <= k < init.len() implies ensures_something(#[trigger] init[k]) by {
            assert(init[k] == ops[k]);
        }
        lemma_grounded_init(t, ops);
        lemma_all_hold(t, init);
        let mid = effects(t, init);
        assert(ensures_something(last));
        lemma_ensuring_keeps(mid, last);
        let after = effects(t, ops);
        assert(holds(after, last)) by {
            if let iptables::NatOpView::EnsureRule(c, _) = last {
                if !t.contains_key(c) {
                    let j = choose|j: int|
                        0 <= j < ops.len() - 1 && #[trigger] ops[j]
                            == iptables::NatOpView::EnsureChain(c);
                    assert(init[j] == ops[j]);
                    assert(holds(mid, init[j]));
                }
            }
        }
        assert forall|k: int| 0 <= k < ops.len() implies holds(after, #[trigger] ops[k]) by {
            if k < init.len() {
                assert(init[k] == ops[k]);
                assert(holds(mid, init[k]));
            }
        }
    }
}

proof fn lemma_stays_tidy(t: Table, ops: Seq<iptables::NatOpView>, container_id: Seq<char>)
    requires
        tidy(t, container_id),
        forall|k: int| 0 <= k < ops.len() ==> proper(#[trigger] ops[k], container_id),
    ensures
        tidy(effects(t, ops), container_id),
    decreases ops.len(),
{
    if ops.len() > 0 {
        let init = ops.drop_last();
        assert forall|k: int| 0 <= k < init.len() implies proper(#[trigger] init[k], container_id) by {
            assert(init[k] == ops[k]);
        }
        lemma_stays_tidy(t, init, container_id);
        assert(proper(ops[ops.len() - 1], container_id));
        lemma_proper_keeps_tidy(effects(t, init), ops.last(), container_id);
    }
}

proof fn lemma_held_changes_nothing(t: Table, ops: Seq<iptables::NatOpView>)
    requires
        forall|k: int| 0 <= k < ops.len() ==> holds(t, #[trigger] ops[k]),
    ensures
        effects(t, ops) == t,
    decreases ops.len(),
{
    if ops.len() > 0 {
        let init = ops.drop_last();
        assert forall|k: int| 0 <= k < init.len() implies holds(t, #[trigger] init[k]) by {
            assert(init[k] == ops[k]);
        }
        lemma_held_changes_nothing(t, init);
        assert(holds(t, ops[ops.len() - 1]));
    }
}

pub proof fn lemma_mapping_ops(
    dn: Seq<char>,
    hm: Seq<char>,
    pod_ip: u32,
    mappings: Seq<config::MappingView>,
    k: int,
)
    requires
        0 <= k < rules::mapping_plan(dn, hm, pod_ip, mappings).len(),
    ensures
        ({
            let op = rules::mapping_plan(dn, hm, pod_ip, mappings)[k];
            ||| exists|m: config::MappingView|
                op == iptables::NatOpView::EnsureRule(dn, #[trigger] rules::dnat_rule(m, pod_ip))
            ||| exists|m: config::MappingView|
                op == iptables::NatOpView::EnsureRule(hm, #[trigger] rules::hairpin_rule(m, pod_ip))
        }),
    decreases mappings.len(),
{
    if mappings.len() > 0 {
        let before = rules::mapping_plan(dn, hm, pod_ip, mappings.drop_last());
        let all = rules::mapping_plan(dn, hm, pod_ip, mappings);
        let m = mappings.last();
        if k < before.len() {
            lemma_mapping_ops(dn, hm, pod_ip, mappings.drop_last(), k);
            assert(all[k] == before[k]);
        } else if k == before.len() {
            assert(all[k] == iptables::NatOpView::EnsureRule(dn, rules::dnat_rule(m, pod_ip)));
        } else {
            assert(all[k] == iptables::NatOpView::EnsureRule(hm, rules::hairpin_rule(m, pod_ip)));
        }
    }
}

proof fn lemma_apply_ops(
    t: Table,
    container_id: Seq<char>,
    pod_ip: u32,
    mappings: Seq<config::MappingView>,
)
    requires
        complete(t),
    ensures
        ({
            let ops = rules::apply_plan(container_id, pod_ip, mappings);
            &&& forall|k: int|
                0 <= k < ops.len() ==> ensures_something(#[trigger] ops[k]) && proper(
                    ops[k],
                    container_id,
                )
            &&& grounded(t, ops)
        }),
{
    lemma_names(container_id);
    let dn = rules::dn_name(container_id);
    let hm = rules::hm_name(container_id);
    let top = rules::TOP_CHAIN@;
    let ops = rules::apply_plan(container_id, pod_ip, mappings);
    let tail = rules::mapping_plan(dn, hm, pod_ip, mappings);
    lemma_jump_refers(top, dn);
    lemma_jump_refers(top, hm);
    lemma_jump_refers(dn, hm);
    lemma_jump_refers(dn, dn);
    lemma_jump_refers(hm, hm);
    lemma_jump_refers(hm, dn);
    assert(ops[0] == iptables::NatOpView::EnsureChain(top));
    assert(ops[3] == iptables::NatOpView::EnsureChain(dn));
    assert(ops[5] == iptables::NatOpView::EnsureChain(hm));
    assert forall|k: int| 0 <= k < ops.len() implies ensures_something(#[trigger] ops[k]) && proper(
        ops[k],
        container_id,
    ) by {
        if k >= 7 {
            assert(ops[k] == tail[k - 7]);
            lemma_mapping_ops(dn, hm, pod_ip, mappings, k - 7);
            if let iptables::NatOpView::EnsureRule(c, r) = ops[k] {
                if exists|m: config::MappingView|
                    ops[k] == iptables::NatOpView::EnsureRule(
                        dn,
                        #[trigger] rules::dnat_rule(m, pod_ip),
                    ) {
                    let m = choose|m: config::MappingView|
                        ops[k] == iptables::NatOpView::EnsureRule(
                            dn,
                            #[trigger] rules::dnat_rule(m, pod_ip),
                        );
                    lemma_mapping_rules_stay_inside(m, pod_ip, dn);
                    lemma_mapping_rules_stay_inside(m, pod_ip, hm);
                } else {
                    let m = choose|m: config::MappingView|
                        ops[k] == iptables::NatOpView::EnsureRule(
                            hm,
                            #[trigger] rules::hairpin_rule(m, pod_ip),
                        );
                    lemma_mapping_rules_stay_inside(m, pod_ip, dn);
                    lemma_mapping_rules_stay_inside(m, pod_ip, hm);
                }
            }
        }
    }
    assert forall|k: int| 0 <= k < ops.len() implies match #[trigger] ops[k] {
        iptables::NatOpView::EnsureRule(c, _) => t.contains_key(c) || exists|j: int|
            0 <= j < k && #[trigger] ops[j] == iptables::NatOpView::EnsureChain(c),
        _ => true,
    } by {
        if k >= 7 {
            assert(ops[k] == tail[k - 7]);
            lemma_mapping_ops(dn, hm, pod_ip, mappings, k - 7);
        }
    }
}

// ---------------------------------------------------------------------------
// Laws
// ---------------------------------------------------------------------------

/// Whether a table has all that a container's mappings need: the shared chain
/// with its jumps for traffic to the host, the container's chains with their
/// jumps, and in them the two rules of each mapping.
pub open spec fn installed(
    t: Table,
    container_id: Seq<char>,
    pod_ip: u32,
    mappings: Seq<config::MappingView>,
) -> bool {
    let dn = rules::dn_name(container_id);
    let hm = rules::hm_name(container_id);
    let top = rules::TOP_CHAIN@;
    &&& t.contains_key(top) && t.contains_key(dn) && t.contains_key(hm)
    &&& t["PREROUTING"@].contains(rules::local_jump(top))
    &&& t["OUTPUT"@].contains(rules::local_jump(top))
    &&& t[top].contains(rules::jump(dn))
    &&& t["POSTROUTING"@].contains(rules::jump(hm))
    &&& forall|i: int|
        0 <= i < mappings.len() ==> t[dn].contains(rules::dnat_rule(#[trigger] mappings[i], pod_ip))
            && t[hm].contains(rules::hairpin_rule(mappings[i], pod_ip))
}

proof fn lemma_mapping_position(
    dn: Seq<char>,
    hm: Seq<char>,
    pod_ip: u32,
    mappings: Seq<config::MappingView>,
    i: int,
)
    requires
        0 <= i < mappings.len(),
    ensures
        rules::mapping_plan(dn, hm, pod_ip, mappings).len() == 2 * mappings.len(),
        rules::mapping_plan(dn, hm, pod_ip, mappings)[2 * i] == iptables::NatOpView::EnsureRule(
            dn,
            rules::dnat_rule(mappings[i], pod_ip),
        ),
        rules::mapping_plan(dn, hm, pod_ip, mappings)[2 * i + 1] == iptables::NatOpView::EnsureRule(
            hm,
            rules::hairpin_rule(mappings[i], pod_ip),
        ),
    decreases mappings.len(),
{
    let init = mappings.drop_last();
    if i < init.len() {
        lemma_mapping_position(dn, hm, pod_ip, init, i);
    } else if init.len() > 0 {
        lemma_mapping_position(dn, hm, pod_ip, init, 0);
    } else {
        assert(rules::mapping_plan(dn, hm, pod_ip, init).len() == 0);
    }
}

proof fn lemma_installed(
    t: Table,
    container_id: Seq<char>,
    pod_ip: u32,
    mappings: Seq<config::MappingView>,
)
    requires
        ({
            let plan = rules::apply_plan(container_id, pod_ip, mappings);
            forall|k: int| 0 <= k < plan.len() ==> holds(t, #[trigger] plan[k])
        }),
    ensures
        installed(t, container_id, pod_ip, mappings),
{
    let dn = rules::dn_name(container_id);
    let hm = rules::hm_name(container_id);
    let plan = rules::apply_plan(container_id, pod_ip, mappings);
    let tail = rules::mapping_plan(dn, hm, pod_ip, mappings);
    assert(holds(t, plan[0]) && holds(t, plan[1]) && holds(t, plan[2]) && holds(t, plan[3]));
    assert(holds(t, plan[4]) && holds(t, plan[5]) && holds(t, plan[6]));
    assert forall|i: int| 0 <= i < mappings.len() implies t[dn].contains(
        rules::dnat_rule(#[trigger] mappings[i], pod_ip),
    ) && t[hm].contains(rules::hairpin_rule(mappings[i], pod_ip)) by {
        lemma_mapping_position(dn, hm, pod_ip, mappings, i);
        assert(plan[7 + 2 * i] == tail[2 * i]);
        assert(plan[7 + (2 * i + 1)] == tail[2 * i + 1]);
        assert(holds(t, plan[7 + 2 * i]) && holds(t, plan[7 + (2 * i + 1)]));
    }
}

/// Installing a container's mappings makes sure of each chain, jump and rule
/// that they need, and keeps a table in order that is.
pub proof fn law_apply_installs(
    t: Table,
    container_id: Seq<char>,
    pod_ip: u32,
    mappings: Seq<config::MappingView>,
)
    requires
        complete(t),
    ensures
        ({
            let plan = rules::apply_plan(container_id, pod_ip, mappings);
            &&& installed(effects(t, plan), container_id, pod_ip, mappings)
            &&& complete(effects(t, plan))
            &&& tidy(t, container_id) ==> tidy(effects(t, plan), container_id)
            &&& forall|k: int|
                0 <= k < plan.len() ==> holds(effects(t, plan), #[trigger] plan[k])
        }),
{
    let plan = rules::apply_plan(container_id, pod_ip, mappings);
    lemma_apply_ops(t, container_id, pod_ip, mappings);
    lemma_all_hold(t, plan);
    lemma_installed(effects(t, plan), container_id, pod_ip, mappings);
    if tidy(t, container_id) {
        lemma_stays_tidy(t, plan, container_id);
    }
}

/// Installing a container's mappings twice is installing them once.
pub proof fn law_apply_is_idempotent(
    t: Table,
    container_id: Seq<char>,
    pod_ip: u32,
    mappings: Seq<config::MappingView>,
)
    requires
        complete(t),
    ensures
        ({
            let plan = rules::apply_plan(container_id, pod_ip, mappings);
            effects(effects(t, plan), plan) == effects(t, plan)
        }),
{
    law_apply_installs(t, container_id, pod_ip, mappings);
    let plan = rules::apply_plan(container_id, pod_ip, mappings);
    lemma_held_changes_nothing(effects(t, plan), plan);
}

proof fn lemma_four(ops: Seq<iptables::NatOpView>, t: Table)
    requires
        ops.len() == 4,
    ensures
        effects(t, ops) == effect(effect(effect(effect(t, ops[0]), ops[1]), ops[2]), ops[3]),
{
    reveal_with_fuel(effects, 5);
    let o3 = ops.drop_last();
    let o2 = o3.drop_last();
    let o1 = o2.drop_last();
    assert(o3.last() == ops[2] && o2.last() == ops[1] && o1.last() == ops[0]);
    assert(o1.drop_last().len() == 0);
}

/// The part of a removal that concerns one chain: its jump goes, then the
/// chain.
proof fn lemma_drop_chain(t: Table, chain: Seq<char>, home: Seq<char>)
    requires
        only_from(t, chain, home),
        home != chain,
    ensures
        ({
            let jump = rules::jump(chain);
            let u = effect(t, iptables::NatOpView::DeleteRule(home, jump));
            effect(u, iptables::NatOpView::RemoveChain(chain)) == (if t.contains_key(home) {
                t.insert(home, t[home].remove_value(jump)).remove(chain)
            } else {
                t.remove(chain)
            })
        }),
{
    let jump = rules::jump(chain);
    let u = effect(t, iptables::NatOpView::DeleteRule(home, jump));
    let w = effect(u, iptables::NatOpView::RemoveChain(chain));
    if t.contains_key(home) {
        lemma_remove_keeps(t[home], jump);
    }
    if u.contains_key(chain) {
        let flushed = u.insert(chain, Seq::empty());
        if referenced(flushed, chain) {
            let (c, i) = choose|c: Seq<char>, i: int|
                flushed.contains_key(c) && 0 <= i < flushed[c].len() && refers(
                    #[trigger] flushed[c][i],
                    chain,
                );
            assert(c != chain);
            assert(flushed[c] == u[c]);
            if c == home {
                let x = u[c][i];
                assert(t[home].contains(x));
                let o = t[home].index_of(x);
                assert(refers(t[home][o], chain));
                assert(x == jump);
                assert(u[home].contains(jump));
            } else {
                assert(u[c] == t[c]);
                assert(refers(t[c][i], chain));
            }
        }
        assert(w =~= flushed.remove(chain));
        assert(flushed.remove(chain) =~= u.remove(chain));
    } else {
        assert(u.remove(chain) =~= u);
    }
    if !t.contains_key(home) {
        assert(w =~= t.remove(chain));
    }
}

proof fn lemma_drop_keeps(t: Table, u: Table, chain: Seq<char>, home: Seq<char>)
    requires
        only_from(t, chain, home),
        forall|c: Seq<char>| #[trigger]
            u.contains_key(c) ==> t.contains_key(c) && (u[c] == t[c] || (c != home && forall|i: int|
                0 <= i < u[c].len() ==> t[c].contains(#[trigger] u[c][i]))),
    ensures
        only_from(u, chain, home),
{
    assert forall|c: Seq<char>, i: int|
        u.contains_key(c) && 0 <= i < u[c].len() && refers(#[trigger] u[c][i], chain) implies c
        == home && u[c][i] == rules::jump(chain) by {
        if u[c] == t[c] {
            assert(refers(t[c][i], chain));
        } else {
            let o = t[c].index_of(u[c][i]);
            assert(refers(t[c][o], chain));
        }
    }
    assert forall|i: int, j: int|
        u.contains_key(home) && 0 <= i < j < u[home].len() && #[trigger] u[home][i] == rules::jump(
            chain,
        ) implies #[trigger] u[home][j] != rules::jump(chain) by {
        assert(u[home] == t[home]);
        assert(t[home][i] == rules::jump(chain));
    }
}

/// Removing a container leaves the table without anything of it, and
/// otherwise as it was.
pub proof fn law_remove_leaves_nothing(t: Table, container_id: Seq<char>)
    requires
        tidy(t, container_id),
    ensures
        effects(t, rules::remove_plan(container_id)) == without(t, container_id),
{
    lemma_names(container_id);
    let dn = rules::dn_name(container_id);
    let hm = rules::hm_name(container_id);
    let top = rules::TOP_CHAIN@;
    let post = "POSTROUTING"@;
    let plan = rules::remove_plan(container_id);
    lemma_four(plan, t);
    lemma_drop_chain(t, dn, top);
    let mid = effect(effect(t, plan[0]), plan[1]);
    if t.contains_key(top) {
        lemma_remove_keeps(t[top], rules::jump(dn));
    }
    assert forall|c: Seq<char>| #[trigger] mid.contains_key(c) implies t.contains_key(c) && (mid[c]
        == t[c] || (c != post && forall|i: int|
        0 <= i < mid[c].len() ==> t[c].contains(#[trigger] mid[c][i]))) by {}
    lemma_drop_keeps(t, mid, hm, post);
    lemma_drop_chain(mid, hm, post);
    assert(mid.contains_key(post) && mid[post] == t[post]);
    assert(effects(t, plan) =~= without(t, container_id));
}

proof fn lemma_without_is_tidy(t: Table, container_id: Seq<char>)
    requires
        tidy(t, container_id),
    ensures
        tidy(without(t, container_id), container_id),
        without(without(t, container_id), container_id) == without(t, container_id),
{
    lemma_names(container_id);
    let dn = rules::dn_name(container_id);
    let hm = rules::hm_name(container_id);
    let top = rules::TOP_CHAIN@;
    let post = "POSTROUTING"@;
    let u = without(t, container_id);
    if t.contains_key(top) {
        lemma_remove_keeps(t[top], rules::jump(dn));
        lemma_remove_absent(u[top], rules::jump(dn));
    }
    lemma_remove_keeps(t[post], rules::jump(hm));
    lemma_remove_absent(u[post], rules::jump(hm));
    assert(!u[post].contains(rules::jump(hm)));
    assert(u.contains_key(top) ==> !u[top].contains(rules::jump(dn)));
    assert forall|c: Seq<char>, i: int|
        u.contains_key(c) && 0 <= i < u[c].len() implies !refers(#[trigger] u[c][i], dn) && !refers(
        u[c][i],
        hm,
    ) by {
        let x = u[c][i];
        assert(u[c].contains(x));
        assert(t[c].contains(x));
        let o = t[c].index_of(x);
        assert(t[c][o] == x);
        lemma_jump_refers(dn, hm);
        lemma_jump_refers(hm, dn);
    }
    assert(only_from(u, dn, top)) by {
        assert forall|i: int, j: int|
            u.contains_key(top) && 0 <= i < j < u[top].len() && #[trigger] u[top][i] == rules::jump(
                dn,
            ) implies #[trigger] u[top][j] != rules::jump(dn) by {
            assert(u[top].contains(u[top][i]));
        }
    }
    assert(only_from(u, hm, post)) by {
        assert forall|i: int, j: int|
            u.contains_key(post) && 0 <= i < j < u[post].len() && #[trigger] u[post][i]
                == rules::jump(hm) implies #[trigger] u[post][j] != rules::jump(hm) by {
            assert(u[post].contains(u[post][i]));
        }
    }
    assert(without(u, container_id) =~= u);
}

/// Removing a container twice is removing it once.
pub proof fn law_remove_is_idempotent(t: Table, container_id: Seq<char>)
    requires
        tidy(t, container_id),
    ensures
        ({
            let plan = rules::remove_plan(container_id);
            effects(effects(t, plan), plan) == effects(t, plan)
        }),
{
    law_remove_leaves_nothing(t, container_id);
    lemma_without_is_tidy(t, container_id);
    law_remove_leaves_nothing(without(t, container_id), container_id);
}

/// Whether an operation concerns a container's own chains and jumps only.
spec fn own(op: iptables::NatOpView, container_id: Seq<char>) -> bool {
    let dn = rules::dn_name(container_id);
    let hm = rules::hm_name(container_id);
    match op {
        iptables::NatOpView::EnsureChain(c) => c == dn || c == hm,
        iptables::NatOpView::EnsureRule(c, r) => {
            ||| c == dn
            ||| c == hm
            ||| c == rules::TOP_CHAIN@ && r == rules::jump(dn)
            ||| c == "POSTROUTING"@ && r == rules::jump(hm)
        },
        _ => false,
    }
}

proof fn lemma_own_stays_out(t: Table, ops: Seq<iptables::NatOpView>, container_id: Seq<char>)
    requires
        forall|k: int| 0 <= k < ops.len() ==> own(#[trigger] ops[k], container_id),
    ensures
        without(effects(t, ops), container_id) == without(t, container_id),
    decreases ops.len(),
{
    if ops.len() > 0 {
        lemma_names(container_id);
        let dn = rules::dn_name(container_id);
        let hm = rules::hm_name(container_id);
        let init = ops.drop_last();
        assert forall|k: int| 0 <= k < init.len() implies own(#[trigger] init[k], container_id) by {
            assert(init[k] == ops[k]);
        }
        lemma_own_stays_out(t, init, container_id);
        let mid = effects(t, init);
        let last = ops.last();
        assert(last == ops[ops.len() - 1]);
        assert(own(last, container_id));
        let after = effects(t, ops);
        if let iptables::NatOpView::EnsureRule(c, r) = last {
            if mid.contains_key(c) && !mid[c].contains(r) {
                lemma_remove_absent(mid[c], r);
            }
        }
        assert(without(after, container_id) =~= without(mid, container_id));
    }
}

/// Removing a container undoes installing its mappings: what is left is what
/// all containers share, and where that was there before, nothing has changed.
pub proof fn law_remove_undoes_apply(
    t: Table,
    container_id: Seq<char>,
    pod_ip: u32,
    mappings: Seq<config::MappingView>,
)
    requires
        tidy(t, container_id),
        without(t, container_id) == t,
    ensures
        effects(
            effects(t, rules::apply_plan(container_id, pod_ip, mappings)),
            rules::remove_plan(container_id),
        ) == effects(t, shared_plan()),
        (forall|k: int| 0 <= k < shared_plan().len() ==> holds(t, #[trigger] shared_plan()[k]))
            ==> effects(t, shared_plan()) == t,
{
    lemma_names(container_id);
    let dn = rules::dn_name(container_id);
    let hm = rules::hm_name(container_id);
    let top = rules::TOP_CHAIN@;
    let post = "POSTROUTING"@;
    let plan = rules::apply_plan(container_id, pod_ip, mappings);
    let mine = own_plan(container_id, pod_ip, mappings);
    let tail = rules::mapping_plan(dn, hm, pod_ip, mappings);
    law_apply_installs(t, container_id, pod_ip, mappings);
    law_remove_leaves_nothing(effects(t, plan), container_id);
    lemma_apply_split(container_id, pod_ip, mappings);
    lemma_effects_concat(t, shared_plan(), mine);
    assert forall|k: int| 0 <= k < mine.len() implies own(#[trigger] mine[k], container_id) by {
        if k >= 4 {
            assert(mine[k] == tail[k - 4]);
            lemma_mapping_ops(dn, hm, pod_ip, mappings, k - 4);
        }
    }
    let shared = effects(t, shared_plan());
    lemma_own_stays_out(shared, mine, container_id);
    reveal_with_fuel(effects, 4);
    let s2 = shared_plan().drop_last();
    let s1 = s2.drop_last();
    assert(s2.last() == shared_plan()[1] && s1.last() == shared_plan()[0]);
    assert(s1.drop_last().len() == 0);
    assert(without(shared, container_id) =~= shared) by {
        assert forall|c: Seq<char>| #[trigger] shared.contains_key(c) implies c != dn && c != hm by {
            if t.contains_key(c) {
                assert(without(t, container_id).contains_key(c));
            }
        }
        assert(without(t, container_id)[post] == t[post]);
        assert(shared[post] == t[post]);
        if t.contains_key(top) {
            assert(without(t, container_id)[top] == t[top]);
            assert(shared[top] == t[top]);
        } else {
            assert(shared[top] == Seq::<Seq<Seq<char>>>::empty());
            lemma_remove_absent(shared[top], rules::jump(dn));
        }
    }
    if forall|k: int| 0 <= k < shared_plan().len() ==> holds(t, #[trigger] shared_plan()[k]) {
        lemma_held_changes_nothing(t, shared_plan());
    }
}

/// What a container's mappings need leaves another container's chains alone.
pub proof fn law_containers_are_separate(
    t: Table,
    container_id: Seq<char>,
    other_id: Seq<char>,
    pod_ip: u32,
    mappings: Seq<config::MappingView>,
    chain: Seq<char>,
)
    requires
        tidy(t, container_id),
        chain == rules::dn_name(other_id) || chain == rules::hm_name(other_id),
        chain != rules::dn_name(container_id),
        chain != rules::hm_name(container_id),
        t.contains_key(chain),
    ensures
        effects(t, rules::apply_plan(container_id, pod_ip, mappings)).contains_key(chain),
        effects(t, rules::apply_plan(container_id, pod_ip, mappings))[chain] == t[chain],
        effects(t, rules::remove_plan(container_id)).contains_key(chain),
        effects(t, rules::remove_plan(container_id))[chain] == t[chain],
{
    lemma_names(container_id);
    lemma_names(other_id);
    let dn = rules::dn_name(container_id);
    let hm = rules::hm_name(container_id);
    law_remove_leaves_nothing(t, container_id);
    let plan = rules::apply_plan(container_id, pod_ip, mappings);
    let tail = rules::mapping_plan(dn, hm, pod_ip, mappings);
    assert forall|k: int| 0 <= k < plan.len() implies elsewhere(#[trigger] plan[k], chain) by {
        if k >= 7 {
            assert(plan[k] == tail[k - 7]);
            lemma_mapping_ops(dn, hm, pod_ip, mappings, k - 7);
        }
    }
    lemma_elsewhere(t, plan, chain);
}

/// Whether an operation makes sure of something in another chain.
spec fn elsewhere(op: iptables::NatOpView, chain: Seq<char>) -> bool {
    match op {
        iptables::NatOpView::EnsureChain(c) => c != chain,
        iptables::NatOpView::EnsureRule(c, _) => c != chain,
        _ => false,
    }
}

proof fn lemma_elsewhere(t: Table, ops: Seq<iptables::NatOpView>, chain: Seq<char>)
    requires
        t.contains_key(chain),
        forall|k: int| 0 <= k < ops.len() ==> elsewhere(#[trigger] ops[k], chain),
    ensures
        effects(t, ops).contains_key(chain),
        effects(t, ops)[chain] == t[chain],
    decreases ops.len(),
{
    if ops.len() > 0 {
        let init = ops.drop_last();
        assert forall|k: int| 0 <= k < init.len() implies elsewhere(#[trigger] init[k], chain) by {
            assert(init[k] == ops[k]);
        }
        lemma_elsewhere(t, init, chain);
        assert(elsewhere(ops[ops.len() - 1], chain));
    }
}

// ---------------------------------------------------------------------------
// Runs: from the first command to the last
// ---------------------------------------------------------------------------

/// The table after the commands that the answers up to position `k` belong to.
pub open spec fn table_after(
    backend: Seq<char>,
    ops: Seq<iptables::NatOpView>,
    t: Table,
    replies: Seq<progress::ReplyView>,
    from: int,
    k: int,
) -> Table
    decreases k - from,
{
    if k <= from {
        t
    } else {
        let before = table_after(backend, ops, t, replies, from, k - 1);
        match iptables::ops_progress(backend, ops, replies.take(k - 1), from) {
            Progress::Ask(q) => command(before, q).0,
            Progress::Done(_, _) => before,
        }
    }
}

/// Whether the answer at a position is that of the table, as it is by then, to
/// the next command of a run.
pub open spec fn answered_at(
    backend: Seq<char>,
    ops: Seq<iptables::NatOpView>,
    t: Table,
    replies: Seq<progress::ReplyView>,
    from: int,
    k: int,
) -> bool {
    iptables::ops_progress(backend, ops, replies.take(k), from) matches Progress::Ask(q) && answers(
        table_after(backend, ops, t, replies, from, k),
        q,
        replies[k],
    )
}

/// Whether the answers from a position on are those of a table to the commands
/// of a run, each to the next command.
pub open spec fn answered(
    backend: Seq<char>,
    ops: Seq<iptables::NatOpView>,
    t: Table,
    replies: Seq<progress::ReplyView>,
    from: int,
) -> bool {
    forall|k: int|
        from <= k < replies.len() ==> #[trigger] answered_at(backend, ops, t, replies, from, k)
}

/// Whether each rule goes into a chain that exists by then.
pub open spec fn ready(t: Table, ops: Seq<iptables::NatOpView>) -> bool
    decreases ops.len(),
{
    ops.len() == 0 || {
        &&& ops[0] matches iptables::NatOpView::EnsureRule(c, _) ==> t.contains_key(c)
        &&& ready(effect(t, ops[0]), ops.skip(1))
    }
}

/// One operation within a run: it is asked for with one command or two, and
/// given the table's answers these leave the table as the operation does.
proof fn lemma_op_run(
    backend: Seq<char>,
    op: iptables::NatOpView,
    t: Table,
    replies: Seq<progress::ReplyView>,
    from: int,
)
    requires
        op matches iptables::NatOpView::EnsureRule(c, _) ==> t.contains_key(c),
        0 <= from <= replies.len() <= usize::MAX,
    ensures
        ({
            let p0 = iptables::op_progress(backend, op, replies.take(from), from);
            let p1 = iptables::op_progress(backend, op, replies.take(from + 1), from);
            let p = iptables::op_progress(backend, op, replies, from);
            &&& p0 is Ask
            &&& from < replies.len() && answers(t, p0->Ask_0, replies[from]) ==> match p1 {
                Progress::Done(r, n) => {
                    &&& r is Ok
                    &&& n == from + 1
                    &&& p == p1
                    &&& command(t, p0->Ask_0).0 == effect(t, op)
                },
                Progress::Ask(q) => {
                    &&& from + 1 == replies.len() ==> p == p1
                    &&& from + 1 < replies.len() && answers(
                        command(t, p0->Ask_0).0,
                        q,
                        replies[from + 1],
                    ) ==> {
                        &&& p matches Progress::Done(r, n)
                        &&& r is Ok
                        &&& n == from + 2
                        &&& command(command(t, p0->Ask_0).0, q).0 == effect(t, op)
                    }
                },
            }
        }),
{
    lemma_commands_differ();
    if from < replies.len() {
        assert(replies.take(from + 1)[from] == replies[from]);
    }
    match op {
        iptables::NatOpView::EnsureChain(c) => {
            lemma_command_parts(backend, "-N"@, c, Seq::empty());
        },
        iptables::NatOpView::EnsureRule(c, r) => {
            lemma_command_parts(backend, "-C"@, c, r);
            lemma_command_parts(backend, "-A"@, c, r);
        },
        iptables::NatOpView::DeleteRule(c, r) => {
            lemma_command_parts(backend, "-D"@, c, r);
            if t.contains_key(c) && !t[c].contains(r) {
                lemma_remove_absent(t[c], r);
                assert(t.insert(c, t[c]) =~= t);
            }
        },
        iptables::NatOpView::RemoveChain(c) => {
            lemma_command_parts(backend, "-F"@, c, Seq::empty());
            lemma_command_parts(backend, "-X"@, c, Seq::empty());
        },
    }
}

/// A run goes on as that of the remaining operations once the first is done.
proof fn lemma_run_shift(
    backend: Seq<char>,
    ops: Seq<iptables::NatOpView>,
    t: Table,
    replies: Seq<progress::ReplyView>,
    from: int,
    next: int,
    k: int,
)
    requires
        ops.len() > 0,
        from <= next <= k <= replies.len(),
        table_after(backend, ops, t, replies, from, next) == effect(t, ops[0]),
        forall|j: int|
            next <= j < k ==> iptables::ops_progress(
                backend,
                ops,
                #[trigger] replies.take(j),
                from,
            ) == iptables::ops_progress(backend, ops.skip(1), replies.take(j), next),
    ensures
        table_after(backend, ops, t, replies, from, k) == table_after(
            backend,
            ops.skip(1),
            effect(t, ops[0]),
            replies,
            next,
            k,
        ),
    decreases k - next,
{
    if k > next {
        lemma_run_shift(backend, ops, t, replies, from, next, k - 1);
        assert(iptables::ops_progress(backend, ops, replies.take(k - 1), from)
            == iptables::ops_progress(backend, ops.skip(1), replies.take(k - 1), next));
    }
}

/// A run of operations with the table's answers: it succeeds, with at most two
/// commands for each operation, and its commands leave the table as the
/// operations do.
pub proof fn law_runs_add_up(
    backend: Seq<char>,
    ops: Seq<iptables::NatOpView>,
    t: Table,
    replies: Seq<progress::ReplyView>,
    from: int,
)
    requires
        ready(t, ops),
        0 <= from <= replies.len() <= usize::MAX,
        answered(backend, ops, t, replies, from),
    ensures
        match iptables::ops_progress(backend, ops, replies, from) {
            Progress::Ask(_) => replies.len() - from < 2 * ops.len(),
            Progress::Done(r, n) => {
                &&& r is Ok
                &&& n == replies.len()
                &&& table_after(backend, ops, t, replies, from, replies.len() as int) == effects(
                    t,
                    ops,
                )
            },
        },
    decreases ops.len(),
{
    if ops.len() == 0 {
        if from < replies.len() {
            assert(answered_at(backend, ops, t, replies, from, from));
        }
    } else {
        let op = ops[0];
        let rest = ops.skip(1);
        let after = effect(t, op);
        lemma_op_run(backend, op, t, replies, from);
        let q0 = iptables::op_progress(backend, op, replies.take(from), from)->Ask_0;
        if from < replies.len() {
            assert(answered_at(backend, ops, t, replies, from, from));
            let p1 = iptables::op_progress(backend, op, replies.take(from + 1), from);
            let next = if p1 is Done {
                from + 1
            } else {
                from + 2
            };
            let first = table_after(backend, ops, t, replies, from, from + 1);
            assert(first == command(t, q0).0);
            if p1 is Ask && from + 1 < replies.len() {
                assert(answered_at(backend, ops, t, replies, from, from + 1));
                assert(table_after(backend, ops, t, replies, from, from + 2) == command(
                    first,
                    p1->Ask_0,
                ).0);
            }
            if p1 is Done || from + 1 < replies.len() {
                assert(table_after(backend, ops, t, replies, from, next) == after);
                assert forall|j: int| next <= j <= replies.len() implies iptables::ops_progress(
                    backend,
                    ops,
                    #[trigger] replies.take(j),
                    from,
                ) == iptables::ops_progress(backend, rest, replies.take(j), next) by {
                    let cut = replies.take(j);
                    lemma_op_run(backend, op, t, cut, from);
                    assert(cut.take(from) =~= replies.take(from));
                    assert(cut.take(from + 1) =~= replies.take(from + 1));
                    assert(cut[from] == replies[from]);
                    if p1 is Ask {
                        assert(cut[from + 1] == replies[from + 1]);
                    }
                }
                assert(answered(backend, rest, after, replies, next)) by {
                    assert forall|k: int| next <= k < replies.len() implies #[trigger] answered_at(
                        backend,
                        rest,
                        after,
                        replies,
                        next,
                        k,
                    ) by {
                        assert(answered_at(backend, ops, t, replies, from, k));
                        lemma_run_shift(backend, ops, t, replies, from, next, k);
                        assert(iptables::ops_progress(backend, ops, replies.take(k), from)
                            == iptables::ops_progress(backend, rest, replies.take(k), next));
                    }
                }
                law_runs_add_up(backend, rest, after, replies, next);
                lemma_run_shift(backend, ops, t, replies, from, next, replies.len() as int);
                assert(replies.take(replies.len() as int) =~= replies);
                lemma_effects_concat(t, seq![op], rest);
                assert(seq![op] + rest =~= ops);
                assert(effects(t, seq![op]) == after) by {
                    reveal_with_fuel(effects, 2);
                    assert(seq![op].drop_last().len() == 0);
                }
            }
        }
    }
}

proof fn lemma_ready(t: Table, done: Seq<iptables::NatOpView>, ops: Seq<iptables::NatOpView>)
    requires
        forall|k: int| 0 <= k < done.len() ==> ensures_something(#[trigger] done[k]),
        forall|k: int| 0 <= k < ops.len() ==> ensures_something(#[trigger] ops[k]),
        grounded(t, done + ops),
    ensures
        ready(effects(t, done), ops),
    decreases ops.len(),
{
    if ops.len() > 0 {
        let all = done + ops;
        let op = ops[0];
        let more = done.push(op);
        assert(more + ops.skip(1) =~= all);
        assert(all[done.len() as int] == op);
        assert(grounded(t, done)) by {
            assert forall|k: int| 0 <= k < done.len() implies match #[trigger] done[k] {
                iptables::NatOpView::EnsureRule(c, _) => t.contains_key(c) || exists|j: int|
                    0 <= j < k && #[trigger] done[j] == iptables::NatOpView::EnsureChain(c),
                _ => true,
            } by {
                assert(all[k] == done[k]);
                if let iptables::NatOpView::EnsureRule(c, _) = done[k] {
                    if !t.contains_key(c) {
                        let j = choose|j: int|
                            0 <= j < k && #[trigger] all[j] == iptables::NatOpView::EnsureChain(c);
                        assert(done[j] == all[j]);
                    }
                }
            }
        }
        lemma_all_hold(t, done);
        if let iptables::NatOpView::EnsureRule(c, _) = op {
            if !t.contains_key(c) {
                let j = choose|j: int|
                    0 <= j < done.len() && #[trigger] all[j] == iptables::NatOpView::EnsureChain(c);
                assert(done[j] == all[j]);
                assert(holds(effects(t, done), done[j]));
            }
        }
        assert(more.drop_last() =~= done);
        assert(effects(t, more) == effect(effects(t, done), op));
        lemma_ready(t, more, ops.skip(1));
    }
}

/// Installing a container's mappings, from the first command to the last: with
/// the answers of a table the run ends after at most two commands for each
/// operation and succeeds, and the table then has all that the mappings need.
pub proof fn law_apply_run(
    backend: Seq<char>,
    t: Table,
    container_id: Seq<char>,
    pod_ip: u32,
    mappings: Seq<config::MappingView>,
    replies: Seq<progress::ReplyView>,
    from: int,
)
    requires
        complete(t),
        0 <= from <= replies.len() <= usize::MAX,
        answered(
            backend,
            rules::apply_plan(container_id, pod_ip, mappings),
            t,
            replies,
            from,
        ),
    ensures
        ({
            let plan = rules::apply_plan(container_id, pod_ip, mappings);
            let u = table_after(backend, plan, t, replies, from, replies.len() as int);
            match iptables::ops_progress(backend, plan, replies, from) {
                Progress::Ask(_) => replies.len() - from < 2 * plan.len(),
                Progress::Done(r, n) => {
                    &&& r is Ok
                    &&& n == replies.len()
                    &&& u == effects(t, plan)
                    &&& installed(u, container_id, pod_ip, mappings)
                    &&& complete(u)
                    &&& tidy(t, container_id) ==> tidy(u, container_id)
                },
            }
        }),
{
    let plan = rules::apply_plan(container_id, pod_ip, mappings);
    lemma_apply_ops(t, container_id, pod_ip, mappings);
    assert(Seq::<iptables::NatOpView>::empty() + plan =~= plan);
    lemma_ready(t, Seq::empty(), plan);
    law_runs_add_up(backend, plan, t, replies, from);
    law_apply_installs(t, container_id, pod_ip, mappings);
}

/// Installing the same mappings once more, from the first command to the last:
/// the run succeeds, and the table stays as it is.
pub proof fn law_second_apply_run_changes_nothing(
    backend: Seq<char>,
    t: Table,
    container_id: Seq<char>,
    pod_ip: u32,
    mappings: Seq<config::MappingView>,
    replies: Seq<progress::ReplyView>,
    from: int,
)
    requires
        complete(t),
        0 <= from <= replies.len() <= usize::MAX,
        ({
            let plan = rules::apply_plan(container_id, pod_ip, mappings);
            answered(backend, plan, effects(t, plan), replies, from)
        }),
    ensures
        ({
            let plan = rules::apply_plan(container_id, pod_ip, mappings);
            let u = effects(t, plan);
            match iptables::ops_progress(backend, plan, replies, from) {
                Progress::Ask(_) => replies.len() - from < 2 * plan.len(),
                Progress::Done(r, n) => r is Ok && n == replies.len() && table_after(
                    backend,
                    plan,
                    u,
                    replies,
                    from,
                    n as int,
                ) == u,
            }
        }),
{
    let u = effects(t, rules::apply_plan(container_id, pod_ip, mappings));
    law_apply_installs(t, container_id, pod_ip, mappings);
    law_apply_run(backend, u, container_id, pod_ip, mappings, replies, from);
    law_apply_is_idempotent(t, container_id, pod_ip, mappings);
}

/// Removing a container, from the first command to the last: with the answers
/// of a table the run ends after at most eight commands and succeeds, and the
/// table is then without anything of the container, and otherwise as it was.
/// Once more, it changes nothing.
pub proof fn law_remove_run(
    backend: Seq<char>,
    t: Table,
    container_id: Seq<char>,
    replies: Seq<progress::ReplyView>,
    from: int,
)
    requires
        tidy(t, container_id),
        0 <= from <= replies.len() <= usize::MAX,
        answered(backend, rules::remove_plan(container_id), t, replies, from),
    ensures
        ({
            let plan = rules::remove_plan(container_id);
            let u = table_after(backend, plan, t, replies, from, replies.len() as int);
            match iptables::ops_progress(backend, plan, replies, from) {
                Progress::Ask(_) => replies.len() - from < 8,
                Progress::Done(r, n) => {
                    &&& r is Ok
                    &&& n == replies.len()
                    &&& u == without(t, container_id)
                    &&& tidy(u, container_id)
                    &&& without(u, container_id) == u
                },
            }
        }),
{
    let plan = rules::remove_plan(container_id);
    reveal_with_fuel(ready, 5);
    let p1 = plan.skip(1);
    let p2 = p1.skip(1);
    let p3 = p2.skip(1);
    assert(p1[0] == plan[1] && p2[0] == plan[2] && p3[0] == plan[3]);
    assert(p3.skip(1).len() == 0);
    law_runs_add_up(backend, plan, t, replies, from);
    law_remove_leaves_nothing(t, container_id);
    lemma_without_is_tidy(t, container_id);
}

/// A run that fails ends there: the error is that of an invalid configuration,
/// and whatever else is answered, no further command is asked for.
pub proof fn law_failed_runs_end(
    backend: Seq<char>,
    ops: Seq<iptables::NatOpView>,
    replies: Seq<progress::ReplyView>,
    from: int,
    more: Seq<progress::ReplyView>,
)
    requires
        0 <= from <= replies.len() <= usize::MAX,
        iptables::ops_progress(backend, ops, replies, from) matches Progress::Done(Err(_), _),
    ensures
        iptables::ops_progress(backend, ops, replies, from)->Done_0->Err_0.code == 7,
        iptables::ops_progress(backend, ops, replies + more, from) == iptables::ops_progress(
            backend,
            ops,
            replies,
            from,
        ),
    decreases ops.len(),
{
    if ops.len() > 0 {
        let p = iptables::op_progress(backend, ops[0], replies, from);
        let longer = replies + more;
        assert(from < replies.len() ==> longer[from] == replies[from]);
        assert(from + 1 < replies.len() ==> longer[from + 1] == replies[from + 1]);
        assert(iptables::op_progress(backend, ops[0], longer, from) == p);
        if p->Done_0 is Ok {
            law_failed_runs_end(backend, ops.skip(1), replies, p->Done_1 as int, more);
        }
    }
}

} // verus!
