//! The choice of an address.

use std::collections::HashSet;

use vstd::prelude::*;
use vstd::std_specs::hash::*;

use crate::ipv4;
use crate::ipv4::Ipv4Net;

verus! {

broadcast use group_hash_axioms;

/// The addresses of a single subnet, without its lowest and highest address
/// and without the gateway.
#[derive(Debug)]
pub struct Allocator {
    net: Ipv4Net,
    gateway: u32,
}

/// Whether an address of a subnet may be handed out.
pub open spec fn usable(net: ipv4::NetView, gateway: u32, ip: u32) -> bool {
    &&& ipv4::contains(net, ip)
    &&& ip != ipv4::network(net)
    &&& ip != ipv4::broadcast(net)
    &&& ip != gateway
}

/// Whether an address may be handed out now.
pub open spec fn free(net: ipv4::NetView, gateway: u32, leased: Set<u32>, ip: u32) -> bool {
    usable(net, gateway, ip) && !leased.contains(ip)
}

/// The turn of an address: addresses come in their order, starting after the
/// last one that was handed out, if that may be handed out at all.
pub open spec fn turn(net: ipv4::NetView, gateway: u32, last: Option<u32>, ip: u32) -> int {
    match last {
        Some(l) => if usable(net, gateway, l) && ip <= l {
            ip + 0x1_0000_0000
        } else {
            ip as int
        },
        None => ip as int,
    }
}

/// Whether `next` is what is handed out next: the free address whose turn
/// comes first, or nothing where no address is free.
pub open spec fn is_next(
    net: ipv4::NetView,
    gateway: u32,
    leased: Set<u32>,
    last: Option<u32>,
    next: Option<u32>,
) -> bool {
    match next {
        Some(ip) => free(net, gateway, leased, ip) && forall|other: u32| #[trigger]
            free(net, gateway, leased, other) ==> turn(net, gateway, last, ip) <= turn(
                net,
                gateway,
                last,
                other,
            ),
        None => forall|other: u32| !#[trigger] free(net, gateway, leased, other),
    }
}

/// The gateway of a subnet where none is given: the address after the lowest.
pub open spec fn first_after(net: ipv4::NetView) -> u32 {
    if ipv4::network(net) == u32::MAX {
        0
    } else {
        (ipv4::network(net) + 1) as u32
    }
}

impl Allocator {
    /// The subnet.
    pub closed spec fn net(&self) -> ipv4::NetView {
        self.net@
    }

    /// The gateway.
    pub closed spec fn gate(&self) -> u32 {
        self.gateway
    }

    /// An allocator over a subnet. The gateway is the first usable address
    /// where none is given.
    pub fn new(net: Ipv4Net, gateway: Option<u32>) -> (a: Allocator)
        ensures
            a.net() == net@,
            a.gate() == (match gateway {
                Some(g) => g,
                None => first_after(net@),
            }),
    {
        let gateway: u32 = match gateway {
            Some(g) => g,
            None => first_usable(&net),
        };
        Allocator { net, gateway }
    }

    /// The gateway.
    pub fn gateway(&self) -> (r: u32)
        ensures
            r == self.gate(),
    {
        self.gateway
    }

    /// The prefix length of the subnet.
    pub fn prefix(&self) -> (r: u8)
        ensures
            r == self.net().prefix,
            r <= 32,
    {
        self.net.prefix()
    }

    /// Whether an address may be handed out.
    pub fn is_usable(&self, ip: u32) -> (r: bool)
        ensures
            r == usable(self.net(), self.gate(), ip),
    {
        self.net.contains(ip) && ip != self.net.network() && ip != self.net.broadcast() && ip
            != self.gateway
    }

    /// The lowest free address from `from` to the highest of the subnet.
    fn lowest_free(&self, leased: &HashSet<u32>, from: u64) -> (r: Option<u32>)
        ensures
            match r {
                Some(ip) => ip >= from && free(self.net(), self.gate(), leased@, ip)
                    && forall|other: u32| #[trigger]
                    free(self.net(), self.gate(), leased@, other) && other >= from ==> other >= ip,
                None => forall|other: u32| #[trigger]
                    free(self.net(), self.gate(), leased@, other) ==> other < from,
            },
    {
        let low: u64 = self.net.network() as u64;
        let high: u64 = self.net.broadcast() as u64;
        let mut at: u64 = if from > low {
            from
        } else {
            low
        };
        while at <= high
            invariant
                low == ipv4::network(self.net()),
                high == ipv4::broadcast(self.net()),
                at >= from,
                high <= u32::MAX,
                forall|other: u32| #[trigger]
                    free(self.net(), self.gate(), leased@, other) && other >= from ==> other >= at,
            decreases high + 1 - at,
        {
            let ip: u32 = at as u32;
            if self.is_usable(ip) && !leased.contains(&ip) {
                return Some(ip);
            }
            at = at + 1;
        }
        None
    }

    /// The next address to hand out: round robin after the last one.
    pub fn next_ip(&self, leased: &HashSet<u32>, last: Option<u32>) -> (r: Option<u32>)
        ensures
            is_next(self.net(), self.gate(), leased@, last, r),
    {
        if let Some(l) = last {
            if self.is_usable(l) {
                if let Some(ip) = self.lowest_free(leased, l as u64 + 1) {
                    return Some(ip);
                }
            }
        }
        self.lowest_free(leased, 0)
    }
}

fn first_usable(net: &Ipv4Net) -> (r: u32)
    ensures
        r == first_after(net@),
{
    net.network().wrapping_add(1)
}

/// There is always something to hand out next, if only nothing.
pub proof fn lemma_next_exists(
    net: ipv4::NetView,
    gateway: u32,
    leased: Set<u32>,
    last: Option<u32>,
)
    ensures
        exists|r: Option<u32>| #[trigger] is_next(net, gateway, leased, last, r),
{
    if forall|other: u32| !#[trigger] free(net, gateway, leased, other) {
        assert(is_next(net, gateway, leased, last, None));
    } else {
        let some = choose|other: u32| #[trigger] free(net, gateway, leased, other);
        lemma_first_turn(net, gateway, leased, last, some, turn(net, gateway, last, some));
    }
}

proof fn lemma_first_turn(
    net: ipv4::NetView,
    gateway: u32,
    leased: Set<u32>,
    last: Option<u32>,
    best: u32,
    t: int,
)
    requires
        free(net, gateway, leased, best),
        t == turn(net, gateway, last, best),
    ensures
        exists|r: Option<u32>| #[trigger] is_next(net, gateway, leased, last, r),
    decreases t,
{
    if exists|other: u32| #[trigger]
        free(net, gateway, leased, other) && turn(net, gateway, last, other) < t {
        let other = choose|other: u32| #[trigger]
            free(net, gateway, leased, other) && turn(net, gateway, last, other) < t;
        lemma_first_turn(net, gateway, leased, last, other, turn(net, gateway, last, other));
    } else {
        assert(is_next(net, gateway, leased, last, Some(best)));
    }
}

/// What is handed out next is determined: the free address with the first
/// turn is unique.
pub proof fn law_next_is_unique(
    net: ipv4::NetView,
    gateway: u32,
    leased: Set<u32>,
    last: Option<u32>,
    a: Option<u32>,
    b: Option<u32>,
)
    requires
        is_next(net, gateway, leased, last, a),
        is_next(net, gateway, leased, last, b),
    ensures
        a == b,
{
    match (a, b) {
        (Some(x), Some(y)) => {
            assert(free(net, gateway, leased, x) && free(net, gateway, leased, y));
        },
        (Some(x), None) => {
            assert(free(net, gateway, leased, x));
        },
        (None, Some(y)) => {
            assert(free(net, gateway, leased, y));
        },
        (None, None) => {},
    }
}

/// An address is handed out whenever one is free, and what is handed out is in
/// the subnet, is neither its lowest nor its highest address nor the gateway,
/// and was not leased.
pub proof fn law_next_is_free(
    net: ipv4::NetView,
    gateway: u32,
    leased: Set<u32>,
    last: Option<u32>,
    next: Option<u32>,
    some: u32,
)
    requires
        is_next(net, gateway, leased, last, next),
    ensures
        free(net, gateway, leased, some) ==> next is Some,
        next matches Some(ip) ==> ipv4::contains(net, ip) && ip != ipv4::network(net) && ip
            != ipv4::broadcast(net) && ip != gateway && !leased.contains(ip),
{
}

/// Addresses that are handed out one after the other differ, since each is
/// leased before the next.
pub proof fn law_successive_addresses_differ(
    net: ipv4::NetView,
    gateway: u32,
    leased: Set<u32>,
    last: Option<u32>,
    first: u32,
    later: Set<u32>,
    second: u32,
)
    requires
        is_next(net, gateway, leased, last, Some(first)),
        later.contains(first),
        is_next(net, gateway, later, Some(first), Some(second)),
    ensures
        first != second,
{
}

/// Addresses go round: after the last one that was handed out come the higher
/// ones, and a lower one comes again only once no higher one is free.
pub proof fn law_addresses_go_round(
    net: ipv4::NetView,
    gateway: u32,
    leased: Set<u32>,
    last: u32,
    next: u32,
    higher: u32,
)
    requires
        usable(net, gateway, last),
        is_next(net, gateway, leased, Some(last), Some(next)),
        free(net, gateway, leased, higher),
        higher > last,
    ensures
        last < next <= higher,
{
}

/// A subnet of two addresses or of one has none to hand out.
pub proof fn law_tiny_subnets_are_full(
    net: ipv4::NetView,
    gateway: u32,
    leased: Set<u32>,
    last: Option<u32>,
    next: Option<u32>,
)
    requires
        31 <= net.prefix <= 32,
        is_next(net, gateway, leased, last, next),
    ensures
        next is None,
{
    ipv4::lemma_bounds(net);
}

} // verus!
