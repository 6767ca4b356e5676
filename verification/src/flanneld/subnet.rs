//! The subnet of a node: the file that tells the plugins, and the MTU.

use vstd::prelude::*;
use vstd::string::*;

use crate::cni_flannel::subnetenv;
use crate::ipv4;
use crate::ipv4::Ipv4Net;
use crate::number;
use crate::text;

verus! {

/// What the file holds.
#[derive(Debug)]
pub struct SubnetEnv {
    /// The addresses of the whole network.
    pub network: String,
    /// The addresses of this node.
    pub subnet: String,
    pub mtu: u32,
    pub ipmasq: bool,
}

impl View for SubnetEnv {
    type V = subnetenv::EnvView;

    open spec fn view(&self) -> subnetenv::EnvView {
        subnetenv::EnvView {
            network: self.network@,
            subnet: self.subnet@,
            mtu: self.mtu,
            ipmasq: self.ipmasq,
        }
    }
}

/// A flag as text.
pub open spec fn flag_text(b: bool) -> Seq<char> {
    if b {
        "true"@
    } else {
        "false"@
    }
}

/// A line of the file.
pub open spec fn assignment(key: Seq<char>, value: Seq<char>) -> Seq<char> {
    key + "="@ + value
}

/// The lines of the file.
pub open spec fn env_lines(e: subnetenv::EnvView) -> Seq<Seq<char>> {
    seq![
        assignment("FLANNEL_NETWORK"@, e.network),
        assignment("FLANNEL_SUBNET"@, e.subnet),
        assignment("FLANNEL_MTU"@, number::decimal(e.mtu as nat)),
        assignment("FLANNEL_IPMASQ"@, flag_text(e.ipmasq)),
    ]
}

/// Lines, each with a line feed after it.
pub open spec fn with_feeds(lines: Seq<Seq<char>>) -> Seq<char>
    decreases lines.len(),
{
    if lines.len() == 0 {
        Seq::empty()
    } else {
        lines[0] + seq!['\n'] + with_feeds(lines.skip(1))
    }
}

impl SubnetEnv {
    /// The text of the file.
    pub fn render(&self) -> (s: String)
        ensures
            s@ == with_feeds(env_lines(self@)),
    {
        let flag = if self.ipmasq {
            "true"
        } else {
            "false"
        };
        let mtu = number::decimal_text(self.mtu as u64);
        let mut s = text::join3("FLANNEL_NETWORK", "=", self.network.as_str());
        s.push('\n');
        s.append(text::join3("FLANNEL_SUBNET", "=", self.subnet.as_str()).as_str());
        s.push('\n');
        s.append(text::join3("FLANNEL_MTU", "=", mtu.as_str()).as_str());
        s.push('\n');
        s.append(text::join3("FLANNEL_IPMASQ", "=", flag).as_str());
        s.push('\n');
        proof {
            let lines = env_lines(self@);
            lemma_four_lines(lines);
            assert(s@ =~= with_feeds(lines));
        }
        s
    }
}

proof fn lemma_four_lines(lines: Seq<Seq<char>>)
    requires
        lines.len() == 4,
    ensures
        with_feeds(lines) == lines[0] + seq!['\n'] + lines[1] + seq!['\n'] + lines[2] + seq!['\n']
            + lines[3] + seq!['\n'],
{
    reveal_with_fuel(with_feeds, 5);
    let l1 = lines.skip(1);
    let l2 = l1.skip(1);
    let l3 = l2.skip(1);
    assert(l1[0] == lines[1] && l2[0] == lines[2] && l3[0] == lines[3]);
    assert(l3.skip(1).len() == 0);
    assert(with_feeds(lines) =~= lines[0] + seq!['\n'] + lines[1] + seq!['\n'] + lines[2]
        + seq!['\n'] + lines[3] + seq!['\n']);
}

/// The MTU of containers on an overlay: the overlay takes 50 bytes.
pub fn vxlan_mtu(link_mtu: u32) -> (m: u32)
    ensures
        m == (if link_mtu >= 50 {
            link_mtu - 50
        } else {
            0
        }),
{
    if link_mtu >= 50 {
        link_mtu - 50
    } else {
        0
    }
}

/// The MTU of containers without an overlay: that of the link.
pub fn host_gw_mtu(link_mtu: u32) -> (m: u32)
    ensures
        m == link_mtu,
{
    link_mtu
}

/// Whether the addresses of a subnet lie in a network, by the lowest and the
/// highest of them.
pub fn subnet_in_network(subnet: &Ipv4Net, network: &Ipv4Net) -> (r: bool)
    ensures
        r == ipv4::within(subnet@, network@),
{
    network.contains(subnet.network()) && network.contains(subnet.broadcast())
}

// ---------------------------------------------------------------------------
// Laws
// ---------------------------------------------------------------------------

/// Whether a value survives in the file: it has no line feed and no white
/// space around it.
pub open spec fn survives(value: Seq<char>) -> bool {
    !value.contains('\n') && text::trimmed(value) == value
}

proof fn lemma_lines_of_feeds(lines: Seq<Seq<char>>)
    requires
        forall|i: int|
            0 <= i < lines.len() ==> !(#[trigger] lines[i]).contains('\n') && text::without_cr(
                lines[i],
            ) == lines[i],
    ensures
        text::lines(with_feeds(lines)) == lines,
    decreases lines.len(),
{
    if lines.len() == 0 {
        assert(text::lines(with_feeds(lines)) =~= lines);
    } else {
        let first = lines[0];
        let rest = with_feeds(lines.skip(1));
        let s = with_feeds(lines);
        let at = first.len() as int;
        assert forall|i: int| 0 <= i < at implies s[i] != '\n' by {
            assert(first.contains(first[i]));
        }
        text::lemma_find_is(s, '\n', at);
        assert(s.take(at) =~= first);
        assert(s.skip(at + 1) =~= rest);
        assert forall|i: int| 0 <= i < lines.skip(1).len() implies !(#[trigger] lines.skip(
            1,
        )[i]).contains('\n') && text::without_cr(lines.skip(1)[i]) == lines.skip(1)[i] by {
            assert(lines.skip(1)[i] == lines[i + 1]);
        }
        lemma_lines_of_feeds(lines.skip(1));
        assert(text::lines(s) =~= lines);
    }
}

/// Whether a text can be a key: it is not empty, and holds neither white space
/// nor an equals sign.
spec fn is_key(key: Seq<char>) -> bool {
    &&& key.len() > 0
    &&& forall|i: int|
        0 <= i < key.len() ==> !text::is_space(#[trigger] key[i]) && key[i] != '=' && key[i] != '\n'
}

proof fn lemma_keys()
    ensures
        is_key("FLANNEL_NETWORK"@),
        is_key("FLANNEL_SUBNET"@),
        is_key("FLANNEL_MTU"@),
        is_key("FLANNEL_IPMASQ"@),
        "FLANNEL_SUBNET"@ != "FLANNEL_NETWORK"@,
        "FLANNEL_MTU"@ != "FLANNEL_NETWORK"@,
        "FLANNEL_MTU"@ != "FLANNEL_SUBNET"@,
        "FLANNEL_IPMASQ"@ != "FLANNEL_NETWORK"@,
        "FLANNEL_IPMASQ"@ != "FLANNEL_SUBNET"@,
        "FLANNEL_IPMASQ"@ != "FLANNEL_MTU"@,
{
    reveal_strlit("FLANNEL_NETWORK");
    reveal_strlit("FLANNEL_SUBNET");
    reveal_strlit("FLANNEL_MTU");
    reveal_strlit("FLANNEL_IPMASQ");
    assert("FLANNEL_NETWORK"@[8] == 'N' && "FLANNEL_SUBNET"@[8] == 'S' && "FLANNEL_MTU"@[8] == 'M'
        && "FLANNEL_IPMASQ"@[8] == 'I');
}

proof fn lemma_assignment(key: Seq<char>, value: Seq<char>)
    requires
        is_key(key),
        survives(value),
    ensures
        ({
            let line = assignment(key, value);
            &&& !line.contains('\n')
            &&& text::without_cr(line) == line
            &&& text::trimmed(line) == line
            &&& text::find(line, '=') == key.len()
            &&& line.len() > key.len()
            &&& text::trimmed(line.take(key.len() as int)) == key
            &&& text::trimmed(line.skip(key.len() as int + 1)) == value
        }),
{
    reveal_strlit("=");
    let line = assignment(key, value);
    let at = key.len() as int;
    assert(line[at] == '=');
    if value.len() > 0 {
        text::lemma_trimmed_ends(value);
        assert(line.last() == value.last());
    } else {
        assert(line.last() == '=');
    }
    assert(line[0] == key[0]);
    text::lemma_trimmed_same(line);
    assert forall|i: int| 0 <= i < line.len() implies line[i] != '\n' by {
        if i > at {
            assert(value.contains(value[i - at - 1]));
        }
    }
    assert forall|i: int| 0 <= i < at implies line[i] != '=' by {
        assert(line[i] == key[i]);
    }
    text::lemma_find_is(line, '=', at);
    assert(line.take(at) =~= key);
    assert(key.last() == key[at - 1]);
    text::lemma_trimmed_same(key);
    assert(line.skip(at + 1) =~= value);
}

proof fn lemma_plain_values(mtu: u32, flag: bool)
    ensures
        survives(number::decimal(mtu as nat)),
        survives(flag_text(flag)),
        (flag_text(flag) == "true"@) == flag,
{
    let d = number::decimal(mtu as nat);
    number::lemma_decimal(mtu as nat);
    text::lemma_trimmed_same(d);
    if d.contains('\n') {
        assert('0' <= d[d.index_of('\n')] <= '9');
    }
    reveal_strlit("true");
    reveal_strlit("false");
    let f = flag_text(flag);
    assert("true"@.len() != "false"@.len());
    text::lemma_trimmed_same(f);
    if f.contains('\n') {
        let i = f.index_of('\n');
        assert(f[i] == '\n');
    }
}

/// What the daemon writes the plugins read: the text of the file stands for
/// the same values, for addresses without line feeds or white space around
/// them.
pub proof fn law_subnet_env_reads_back(e: subnetenv::EnvView)
    requires
        survives(e.network),
        survives(e.subnet),
    ensures
        subnetenv::env_of(with_feeds(env_lines(e))) == Ok::<subnetenv::EnvView, Seq<char>>(e),
{
    let lines = env_lines(e);
    lemma_keys();
    lemma_plain_values(e.mtu, e.ipmasq);
    let mtu = number::decimal(e.mtu as nat);
    let flag = flag_text(e.ipmasq);
    lemma_assignment("FLANNEL_NETWORK"@, e.network);
    lemma_assignment("FLANNEL_SUBNET"@, e.subnet);
    lemma_assignment("FLANNEL_MTU"@, mtu);
    lemma_assignment("FLANNEL_IPMASQ"@, flag);
    assert(lines[0] == assignment("FLANNEL_NETWORK"@, e.network));
    assert(lines[1] == assignment("FLANNEL_SUBNET"@, e.subnet));
    assert(lines[2] == assignment("FLANNEL_MTU"@, mtu));
    assert(lines[3] == assignment("FLANNEL_IPMASQ"@, flag));
    lemma_lines_of_feeds(lines);
    number::law_decimal_reads_back(e.mtu as nat, u32::MAX as nat);
    let f0 = subnetenv::nothing();
    let f1 = subnetenv::Found { network: Some(e.network), ..f0 };
    let f2 = subnetenv::Found { subnet: Some(e.subnet), ..f1 };
    let f3 = subnetenv::Found { mtu: Some(e.mtu), ..f2 };
    let f4 = subnetenv::Found { ipmasq: Some(e.ipmasq), ..f3 };
    assert(subnetenv::read_line(f0, lines[0]) == Ok::<subnetenv::Found, Seq<char>>(f1));
    assert(subnetenv::read_line(f1, lines[1]) == Ok::<subnetenv::Found, Seq<char>>(f2));
    assert(subnetenv::read_line(f2, lines[2]) == Ok::<subnetenv::Found, Seq<char>>(f3));
    assert(subnetenv::read_line(f3, lines[3]) == Ok::<subnetenv::Found, Seq<char>>(f4));
    let l1 = lines.skip(1);
    let l2 = l1.skip(1);
    let l3 = l2.skip(1);
    let l4 = l3.skip(1);
    assert(l1[0] == lines[1] && l2[0] == lines[2] && l3[0] == lines[3] && l4.len() == 0);
    assert(subnetenv::read_lines(f4, l4) == Ok::<subnetenv::Found, Seq<char>>(f4));
    assert(subnetenv::read_lines(f3, l3) == Ok::<subnetenv::Found, Seq<char>>(f4));
    assert(subnetenv::read_lines(f2, l2) == Ok::<subnetenv::Found, Seq<char>>(f4));
    assert(subnetenv::read_lines(f1, l1) == Ok::<subnetenv::Found, Seq<char>>(f4));
    assert(subnetenv::read_lines(f0, lines) == Ok::<subnetenv::Found, Seq<char>>(f4));
}

} // verus!
