//! IPv4 addresses and networks.
//!
//! An address is a `u32` in the usual order: the first octet is the most
//! significant one. A network is an address with a prefix length.

use vstd::arithmetic::power2::pow2;
use vstd::prelude::*;
use vstd::string::*;

use crate::number;
use crate::text;

verus! {

// ---------------------------------------------------------------------------
// Addresses
// ---------------------------------------------------------------------------

/// The number that `p` writes as one part of a dotted address: one to three
/// digits, without a leading zero, at most 255.
pub open spec fn octet(p: Seq<char>) -> Option<nat> {
    if 1 <= p.len() <= 3 && (forall|i: int| 0 <= i < p.len() ==> '0' <= #[trigger] p[i] <= '9')
        && (p.len() == 1 || p[0] != '0') && number::digits_value(p, 10) <= 255 {
        Some(number::digits_value(p, 10))
    } else {
        None
    }
}

/// The address with the given octets.
pub open spec fn of_octets(a: nat, b: nat, c: nat, d: nat) -> u32 {
    (a * 0x100_0000 + b * 0x1_0000 + c * 0x100 + d) as u32
}

/// The address that `s` writes in dotted form: four octets with a dot between
/// neighbours, and nothing else.
pub open spec fn address(s: Seq<char>) -> Option<u32> {
    let p = text::split(s, '.');
    if p.len() == 4 && octet(p[0]) is Some && octet(p[1]) is Some && octet(p[2]) is Some && octet(
        p[3],
    ) is Some {
        Some(of_octets(octet(p[0])->0, octet(p[1])->0, octet(p[2])->0, octet(p[3])->0))
    } else {
        None
    }
}

/// An address in dotted form.
pub open spec fn dotted(a: u32) -> Seq<char> {
    number::decimal((a / 0x100_0000) as nat) + seq!['.'] + (number::decimal(
        (a / 0x1_0000 % 0x100) as nat,
    ) + seq!['.'] + (number::decimal((a / 0x100 % 0x100) as nat) + seq!['.'] + number::decimal(
        (a % 0x100) as nat,
    )))
}

fn read_octet(p: &str) -> (r: Option<u32>)
    ensures
        match r {
            Some(v) => octet(p@) == Some(v as nat) && v <= 255,
            None => octet(p@) is None,
        },
{
    let v = text::chars(p);
    if v.len() == 0 || v.len() > 3 {
        return None;
    }
    if v.len() > 1 && v[0] == '0' {
        return None;
    }
    let mut acc: u32 = 0;
    let mut i: usize = 0;
    assert(v@.take(0) =~= Seq::<char>::empty());
    while i < v.len()
        invariant
            v@ == p@,
            i <= v@.len() <= 3,
            forall|k: int| 0 <= k < i ==> '0' <= #[trigger] v@[k] <= '9',
            acc == number::digits_value(v@.take(i as int), 10),
            i == 0 ==> acc == 0,
            i == 1 ==> acc <= 9,
            i == 2 ==> acc <= 99,
            i == 3 ==> acc <= 999,
        decreases v@.len() - i,
    {
        let c: char = v[i];
        if !('0' <= c && c <= '9') {
            return None;
        }
        proof {
            assert(v@.take(i + 1).drop_last() =~= v@.take(i as int));
            assert(v@.take(i + 1).last() == c);
            assert(number::digit_value(c, 10) == Some((c as int - '0' as int) as nat));
        }
        acc = acc * 10 + (c as u32 - 48);
        i = i + 1;
    }
    assert(v@.take(v@.len() as int) =~= p@);
    if acc <= 255 {
        Some(acc)
    } else {
        None
    }
}

/// Reads an address in dotted form.
pub fn parse_address(s: &str) -> (r: Option<u32>)
    ensures
        r == address(s@),
{
    let parts = text::split_text(s, '.');
    let ghost p = text::split(s@, '.');
    if parts.len() != 4 {
        assert(p.len() != 4);
        return None;
    }
    assert(p[0] == parts@[0]@ && p[1] == parts@[1]@ && p[2] == parts@[2]@ && p[3] == parts@[3]@);
    match (
        read_octet(parts[0].as_str()),
        read_octet(parts[1].as_str()),
        read_octet(parts[2].as_str()),
        read_octet(parts[3].as_str()),
    ) {
        (Some(a), Some(b), Some(c), Some(d)) => Some(
            a * 0x100_0000 + b * 0x1_0000 + c * 0x100 + d,
        ),
        _ => None,
    }
}

/// Writes an address in dotted form.
pub fn address_text(a: u32) -> (s: String)
    ensures
        s@ == dotted(a),
{
    let mut s = number::decimal_text((a / 0x100_0000) as u64);
    s.push('.');
    s.append(number::decimal_text((a / 0x1_0000 % 0x100) as u64).as_str());
    s.push('.');
    s.append(number::decimal_text((a / 0x100 % 0x100) as u64).as_str());
    s.push('.');
    s.append(number::decimal_text((a % 0x100) as u64).as_str());
    assert(s@ =~= dotted(a));
    s
}

proof fn lemma_octet_decimal(n: nat)
    requires
        n <= 255,
    ensures
        octet(number::decimal(n)) == Some(n),
        !number::decimal(n).contains('.'),
        number::decimal(n).len() <= 3,
{
    number::lemma_decimal(n);
    let s = number::decimal(n);
    assert(s.len() <= 3) by {
        reveal_with_fuel(number::decimal, 3);
    }
    if s.contains('.') {
        let i = s.index_of('.');
        assert('0' <= s[i] <= '9');
    }
}

proof fn lemma_octets_join(a: u32)
    by (bit_vector)
    ensures
        (a / 0x100_0000) * 0x100_0000 + (a / 0x1_0000 % 0x100) * 0x1_0000 + (a / 0x100 % 0x100)
            * 0x100 + a % 0x100 == a,
        a / 0x100_0000 <= 255,
{
}

/// Reading back an address in dotted form gives that address.
pub proof fn law_dotted_reads_back(a: u32)
    ensures
        address(dotted(a)) == Some(a),
{
    let o0 = (a / 0x100_0000) as nat;
    let o1 = (a / 0x1_0000 % 0x100) as nat;
    let o2 = (a / 0x100 % 0x100) as nat;
    let o3 = (a % 0x100) as nat;
    lemma_octets_join(a);
    lemma_octet_decimal(o0);
    lemma_octet_decimal(o1);
    lemma_octet_decimal(o2);
    lemma_octet_decimal(o3);
    let d0 = number::decimal(o0);
    let d1 = number::decimal(o1);
    let d2 = number::decimal(o2);
    let d3 = number::decimal(o3);
    assert(text::split(dotted(a), '.') == seq![d0, d1, d2, d3]) by {
        let t2 = d2 + seq!['.'] + d3;
        let t1 = d1 + seq!['.'] + t2;
        text::lemma_split_head(d0, '.', t1);
        text::lemma_split_head(d1, '.', t2);
        text::lemma_split_head(d2, '.', d3);
        text::lemma_split_single(d3, '.');
        assert(text::split(dotted(a), '.') =~= seq![d0, d1, d2, d3]);
    }
}

proof fn lemma_octets_bits(o0: u32, o1: u32, o2: u32, o3: u32)
    by (bit_vector)
    requires
        o0 <= 255,
        o1 <= 255,
        o2 <= 255,
        o3 <= 255,
    ensures
        ((o0 * 0x100_0000 + o1 * 0x1_0000 + o2 * 0x100 + o3) as u32) / 0x100_0000 == o0,
        ((o0 * 0x100_0000 + o1 * 0x1_0000 + o2 * 0x100 + o3) as u32) / 0x1_0000 % 0x100 == o1,
        ((o0 * 0x100_0000 + o1 * 0x1_0000 + o2 * 0x100 + o3) as u32) / 0x100 % 0x100 == o2,
        ((o0 * 0x100_0000 + o1 * 0x1_0000 + o2 * 0x100 + o3) as u32) % 0x100 == o3,
{
}

proof fn lemma_octets_of(o0: nat, o1: nat, o2: nat, o3: nat)
    requires
        o0 <= 255,
        o1 <= 255,
        o2 <= 255,
        o3 <= 255,
    ensures
        ({
            let a = of_octets(o0, o1, o2, o3);
            &&& a / 0x100_0000 == o0
            &&& a / 0x1_0000 % 0x100 == o1
            &&& a / 0x100 % 0x100 == o2
            &&& a % 0x100 == o3
        }),
{
    lemma_octets_bits(o0 as u32, o1 as u32, o2 as u32, o3 as u32);
}

/// An address has one dotted form: text that reads as `a` is `dotted(a)`.
pub proof fn law_dotted_is_the_only_form(s: Seq<char>, a: u32)
    requires
        address(s) == Some(a),
    ensures
        s == dotted(a),
{
    let p = text::split(s, '.');
    let r1 = text::after(s, '.');
    let r2 = text::after(r1, '.');
    let r3 = text::after(r2, '.');
    assert(s == p[0] + seq!['.'] + (p[1] + seq!['.'] + (p[2] + seq!['.'] + p[3]))) by {
        text::lemma_split_rest(s, '.');
        text::lemma_split_rest(r1, '.');
        text::lemma_split_rest(r2, '.');
        text::lemma_split_rest(r3, '.');
        assert(text::split(r3, '.').len() == 1);
        assert(p[3] == text::split(r3, '.')[0]);
    }
    lemma_octets_of(octet(p[0])->0, octet(p[1])->0, octet(p[2])->0, octet(p[3])->0);
    number::lemma_decimal_of_digits(p[0]);
    number::lemma_decimal_of_digits(p[1]);
    number::lemma_decimal_of_digits(p[2]);
    number::lemma_decimal_of_digits(p[3]);
}

// ---------------------------------------------------------------------------
// Networks
// ---------------------------------------------------------------------------

/// A network as a value: an address in it and the prefix length.
pub struct NetView {
    pub addr: u32,
    pub prefix: u8,
}

/// How many addresses a network has.
pub open spec fn size(n: NetView) -> nat {
    pow2((32 - n.prefix) as nat)
}

/// The lowest address of a network.
pub open spec fn network(n: NetView) -> u32 {
    (n.addr as int - n.addr as int % size(n) as int) as u32
}

/// The highest address of a network.
pub open spec fn broadcast(n: NetView) -> u32 {
    (network(n) as int + size(n) as int - 1) as u32
}

/// Whether an address is in a network.
pub open spec fn contains(n: NetView, ip: u32) -> bool {
    network(n) <= ip <= broadcast(n)
}

/// Whether the lowest and the highest address of `inner` are in `outer`.
pub open spec fn within(inner: NetView, outer: NetView) -> bool {
    contains(outer, network(inner)) && contains(outer, broadcast(inner))
}

/// A network in CIDR notation.
pub open spec fn cidr(n: NetView) -> Seq<char> {
    dotted(n.addr) + seq!['/'] + number::decimal(n.prefix as nat)
}

/// The bounds of a network: its addresses are the `size` ones from `network`
/// to `broadcast`, and its own address is among them.
pub proof fn lemma_bounds(n: NetView)
    requires
        n.prefix <= 32,
    ensures
        1 <= size(n) <= 0x1_0000_0000,
        network(n) as int == n.addr as int - n.addr as int % size(n) as int,
        broadcast(n) as int == network(n) as int + size(n) as int - 1,
        network(n) <= n.addr <= broadcast(n),
        n.prefix >= 16 ==> size(n) <= 0x1_0000,
        n.prefix <= 30 ==> size(n) >= 4,
        n.prefix == 31 ==> size(n) == 2,
        n.prefix == 32 ==> size(n) == 1,
{
    let k = (32 - n.prefix) as nat;
    let s = pow2(k) as int;
    vstd::arithmetic::power2::lemma2_to64();
    vstd::arithmetic::power2::lemma_pow2_pos(k);
    if k < 32 {
        vstd::arithmetic::power2::lemma_pow2_strictly_increases(k, 32);
    }
    if k < 16 {
        vstd::arithmetic::power2::lemma_pow2_strictly_increases(k, 16);
    }
    if k > 2 {
        vstd::arithmetic::power2::lemma_pow2_strictly_increases(2, k);
    }
    let p = n.prefix as nat;
    let t = pow2(p) as int;
    vstd::arithmetic::power2::lemma_pow2_adds(p, k);
    assert(t * s == 0x1_0000_0000);
    let a = n.addr as int;
    vstd::arithmetic::div_mod::lemma_fundamental_div_mod(a, s);
    let q = a / s;
    assert(a == s * q + a % s);
    assert(0 <= a % s < s);
    assert(q < t) by (nonlinear_arith)
        requires
            a == s * q + a % s,
            0 <= a % s,
            a < 0x1_0000_0000,
            t * s == 0x1_0000_0000,
            s >= 1,
    ;
    assert(q >= 0) by (nonlinear_arith)
        requires
            a == s * q + a % s,
            a % s < s,
            a >= 0,
            s >= 1,
    ;
    assert(s * q + s <= 0x1_0000_0000) by (nonlinear_arith)
        requires
            q < t,
            t * s == 0x1_0000_0000,
            s >= 1,
    ;
    assert(s * q >= 0) by (nonlinear_arith)
        requires
            q >= 0,
            s >= 1,
    ;
}

/// A network lies in another one, by its lowest and highest address, exactly
/// when each of its addresses is in the other one.
pub proof fn law_within_means_every_address(inner: NetView, outer: NetView)
    requires
        inner.prefix <= 32,
        outer.prefix <= 32,
    ensures
        within(inner, outer) <==> (forall|ip: u32| contains(inner, ip) ==> contains(outer, ip)),
{
    lemma_bounds(inner);
    lemma_bounds(outer);
    if forall|ip: u32| contains(inner, ip) ==> contains(outer, ip) {
        assert(contains(inner, network(inner)));
        assert(contains(inner, broadcast(inner)));
    }
}

/// Whether an address is the netmask of a prefix length: that many ones, then
/// zeros.
pub open spec fn is_mask(mask: u32, prefix: nat) -> bool {
    prefix <= 32 && mask as int == 0x1_0000_0000 - pow2((32 - prefix) as nat)
}

/// The prefix length that stands behind the slash of a network: a netmask, or
/// a decimal number of at most 32.
pub open spec fn prefix_read(s: Seq<char>) -> Option<u8> {
    match address(s) {
        Some(mask) => if exists|p: nat| is_mask(mask, p) {
            Some((choose|p: nat| is_mask(mask, p)) as u8)
        } else {
            None
        },
        None => match number::number(s, 10, 255) {
            Ok(n) => if n <= 32 {
                Some(n as u8)
            } else {
                None
            },
            Err(_) => None,
        },
    }
}

/// The network that a text writes, as address and prefix length: an address,
/// alone or with a prefix length behind a slash. Otherwise the wording of what
/// is wrong with it.
pub open spec fn cidr_read(s: Seq<char>) -> Result<(u32, u8), Seq<char>> {
    let parts = text::split(s, '/');
    if parts.len() > 2 {
        Err("invalid cidr format: CIDR must contain a single '/': "@ + s)
    } else {
        match address(parts[0]) {
            None => Err("invalid address: "@ + parts[0]),
            Some(addr) => if parts.len() == 1 {
                Ok((addr, 32))
            } else {
                match prefix_read(parts[1]) {
                    Some(prefix) => Ok((addr, prefix)),
                    None => Err("invalid prefix"@),
                }
            },
        }
    }
}

/// The view of a network that was read, or of the wording of an error.
pub open spec fn read_as(r: Result<(u32, u8), String>) -> Result<(u32, u8), Seq<char>> {
    match r {
        Ok(n) => Ok(n),
        Err(e) => Err(e@),
    }
}

/// `<ipnetwork::Ipv4Network as FromStr>::from_str`, with the network as its
/// address and prefix length and the error by its wording.
///
/// The text is cut at slashes, of which there is at most one. What stands
/// before it is an address in dotted form. Without a slash the prefix length is
/// 32; what stands after it is a netmask in dotted form, whose ones are
/// counted, or else a decimal number of at most 32.
#[verifier::external_body]
fn read_ipv4_network(s: &str) -> (r: Result<(u32, u8), String>)
    ensures
        read_as(r) == cidr_read(s@),
        r is Ok ==> r->Ok_0.1 <= 32,
{
    match s.parse::<ipnetwork::Ipv4Network>() {
        Ok(net) => Ok((u32::from(net.ip()), net.prefix())),
        Err(e) => Err(e.to_string()),
    }
}

/// The view of a network that was read, or of the wording of an error.
pub open spec fn net_read_as(r: Result<Ipv4Net, String>) -> Result<(u32, u8), Seq<char>> {
    match r {
        Ok(n) => Ok((n@.addr, n@.prefix)),
        Err(e) => Err(e@),
    }
}

/// An IPv4 network: an address in it and a prefix length of at most 32.
#[derive(Debug, Clone, Copy, PartialEq, Eq)]
pub struct Ipv4Net {
    addr: u32,
    prefix: u8,
}

impl View for Ipv4Net {
    type V = NetView;

    closed spec fn view(&self) -> NetView {
        NetView { addr: self.addr, prefix: self.prefix }
    }
}

impl Ipv4Net {
    #[verifier::type_invariant]
    spec fn fits(self) -> bool {
        self.prefix <= 32
    }

    /// The network with the given address and prefix length, if that is at
    /// most 32.
    pub fn new(addr: u32, prefix: u8) -> (r: Option<Ipv4Net>)
        ensures
            r is Some <==> prefix <= 32,
            r matches Some(n) ==> n@ == (NetView { addr, prefix }),
    {
        if prefix <= 32 {
            Some(Ipv4Net { addr, prefix })
        } else {
            None
        }
    }

    /// Reads a network in CIDR notation.
    pub fn parse(s: &str) -> (r: Result<Ipv4Net, String>)
        ensures
            net_read_as(r) == cidr_read(s@),
    {
        match read_ipv4_network(s) {
            Ok((addr, prefix)) => Ok(Ipv4Net { addr, prefix }),
            Err(e) => Err(e),
        }
    }

    /// The address that the network was made with.
    pub fn ip(&self) -> (r: u32)
        ensures
            r == self@.addr,
    {
        self.addr
    }

    /// The prefix length.
    pub fn prefix(&self) -> (r: u8)
        ensures
            r == self@.prefix,
            r <= 32,
    {
        proof {
            use_type_invariant(self);
        }
        self.prefix
    }

    /// How many addresses the network has.
    pub fn size(&self) -> (r: u64)
        ensures
            r == size(self@),
            1 <= r <= 0x1_0000_0000,
    {
        proof {
            use_type_invariant(self);
            lemma_bounds(self@);
            vstd::bits::lemma_u64_shl_is_mul(1, (32 - self.prefix) as u64);
        }
        1u64 << ((32 - self.prefix) as u64)
    }

    /// The lowest address of the network.
    pub fn network(&self) -> (r: u32)
        ensures
            r == network(self@),
    {
        proof {
            use_type_invariant(self);
            lemma_bounds(self@);
        }
        let size: u64 = self.size();
        (self.addr as u64 - self.addr as u64 % size) as u32
    }

    /// The highest address of the network.
    pub fn broadcast(&self) -> (r: u32)
        ensures
            r == broadcast(self@),
    {
        proof {
            use_type_invariant(self);
            lemma_bounds(self@);
        }
        (self.network() as u64 + (self.size() - 1)) as u32
    }

    /// Whether an address is in the network.
    pub fn contains(&self, ip: u32) -> (r: bool)
        ensures
            r == contains(self@, ip),
    {
        self.network() <= ip && ip <= self.broadcast()
    }

    /// The network in CIDR notation.
    pub fn cidr_text(&self) -> (s: String)
        ensures
            s@ == cidr(self@),
    {
        let mut s = address_text(self.addr);
        s.push('/');
        s.append(number::decimal_text(self.prefix as u64).as_str());
        assert(s@ =~= cidr(self@));
        s
    }
}

/// The dotted form holds digits and dots only, and is not empty.
pub proof fn lemma_dotted_chars(a: u32)
    ensures
        dotted(a).len() > 0,
        forall|i: int|
            0 <= i < dotted(a).len() ==> (#[trigger] dotted(a)[i] == '.' || '0' <= dotted(a)[i]
                <= '9'),
{
    number::lemma_decimal((a / 0x100_0000) as nat);
    number::lemma_decimal((a / 0x1_0000 % 0x100) as nat);
    number::lemma_decimal((a / 0x100 % 0x100) as nat);
    number::lemma_decimal((a % 0x100) as nat);
}

/// A network in CIDR notation reads back as itself.
pub proof fn law_cidr_reads_back(n: NetView)
    requires
        n.prefix <= 32,
    ensures
        cidr_read(cidr(n)) == Ok::<(u32, u8), Seq<char>>((n.addr, n.prefix)),
{
    let d = dotted(n.addr);
    let p = number::decimal(n.prefix as nat);
    law_dotted_reads_back(n.addr);
    number::law_decimal_reads_back(n.prefix as nat, 255);
    number::lemma_decimal(n.prefix as nat);
    assert(!p.contains('/') && !p.contains('.')) by {
        assert forall|i: int| 0 <= i < p.len() implies p[i] != '/' && p[i] != '.' by {
            assert('0' <= p[i] <= '9');
        }
    }
    assert(!d.contains('/')) by {
        lemma_dotted_chars(n.addr);
        if d.contains('/') {
            let i = d.index_of('/');
            assert(d[i] == '.' || '0' <= d[i] <= '9');
        }
    }
    text::lemma_split_head(d, '/', p);
    text::lemma_split_single(p, '/');
    text::lemma_split_single(p, '.');
    assert(text::split(cidr(n), '/') =~= seq![d, p]);
    assert(address(p) is None);
}

// ---------------------------------------------------------------------------
// Routing
// ---------------------------------------------------------------------------

/// Whether a route is one for an address: the two agree in the first bits, as
/// many as the prefix says.
pub open spec fn routed_by(dst: u32, prefix: u8, ip: u32) -> bool {
    let rest = pow2((32 - prefix) as nat) as int;
    ip as int / rest == dst as int / rest
}

/// Whether a text stands for a network.
pub open spec fn names(s: Seq<char>, net: NetView) -> bool {
    cidr_read(s) == Ok::<(u32, u8), Seq<char>>((net.addr, net.prefix))
}

/// Whether an address is the lowest one of a network.
pub open spec fn is_lowest(net: NetView, a: u32) -> bool {
    &&& contains(net, a)
    &&& forall|ip: u32| #[trigger] contains(net, ip) ==> a <= ip
}

/// A network that was read has a prefix of at most 32 bits.
pub proof fn lemma_prefix(s: Seq<char>, net: NetView)
    requires
        names(s, net),
    ensures
        net.prefix <= 32,
{
}

/// A route to the lowest address of a network, with its prefix, is one for
/// exactly its addresses.
pub proof fn lemma_routed_by(net: NetView, ip: u32)
    requires
        net.prefix <= 32,
    ensures
        routed_by(network(net), net.prefix, ip) <==> contains(net, ip),
        is_lowest(net, network(net)),
{
    lemma_bounds(net);
    let s = size(net) as int;
    let a = net.addr as int;
    let i = ip as int;
    let low = network(net) as int;
    vstd::arithmetic::div_mod::lemma_fundamental_div_mod(a, s);
    vstd::arithmetic::div_mod::lemma_fundamental_div_mod(i, s);
    vstd::arithmetic::div_mod::lemma_fundamental_div_mod(low, s);
    let q = a / s;
    let k = i / s;
    let m = low / s;
    assert(low == s * q);
    assert(m == q) by (nonlinear_arith)
        requires
            low == s * q,
            low == s * m + low % s,
            0 <= low % s < s,
    ;
    if k == q {
        assert(low <= i < low + s);
    } else {
        assert(!(low <= i < low + s)) by (nonlinear_arith)
            requires
                k != q,
                low == s * q,
                i == s * k + i % s,
                0 <= i % s < s,
        ;
    }
}

} // verus!
