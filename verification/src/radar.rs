//! Which addresses have a place in the graph: the busiest of each label, in a
//! ring for private networks and one for the rest.

use vstd::prelude::*;
use vstd::string::*;

use crate::formatting;
use crate::hosts::HostsView;
use crate::net;
use crate::net::{IpAddr, is_private_ip};
use crate::state::{AppState, Graph, GraphNode};
use crate::table::{Dup, Table};
use crate::text::same;
use crate::traffic;
use crate::traffic::{SECOND, count_at};

verus! {

/// How long an address stays in the graph after it was last seen, in seconds.
pub const NODE_LIFE: u64 = 30;

/// The bytes below which an address of a private network is not shown.
pub const LEAST_BYTES: u64 = 500;

/// The number of places in the inner ring.
pub const INNER_PLACES: usize = 12;

/// The number of places in the outer ring.
pub const OUTER_PLACES: usize = 16;

// ---------------------------------------------------------------------------
// Order and choice
// ---------------------------------------------------------------------------

/// The order of addresses: IPv4 before IPv6, each by its number.
pub open spec fn ip_before(a: IpAddr, b: IpAddr) -> bool {
    match (a, b) {
        (IpAddr::V4(x), IpAddr::V4(y)) => x < y,
        (IpAddr::V4(_), IpAddr::V6(_)) => true,
        (IpAddr::V6(_), IpAddr::V4(_)) => false,
        (IpAddr::V6(x), IpAddr::V6(y)) => x < y,
    }
}

/// Whether an address comes before another.
pub fn is_ip_before(a: &IpAddr, b: &IpAddr) -> (r: bool)
    ensures
        r == ip_before(*a, *b),
{
    match (a, b) {
        (IpAddr::V4(x), IpAddr::V4(y)) => *x < *y,
        (IpAddr::V4(_), IpAddr::V6(_)) => true,
        (IpAddr::V6(_), IpAddr::V4(_)) => false,
        (IpAddr::V6(x), IpAddr::V6(y)) => *x < *y,
    }
}

/// Addresses in their order, each once.
pub open spec fn in_order(s: Seq<IpAddr>) -> bool {
    forall|i: int, j: int| 0 <= i < j < s.len() ==> ip_before(#[trigger] s[i], #[trigger] s[j])
}

/// Two sequences hold the same addresses.
pub open spec fn same_members(a: Seq<IpAddr>, b: Seq<IpAddr>) -> bool {
    a.len() == b.len() && forall|x: IpAddr| #[trigger] a.contains(x) <==> b.contains(x)
}

/// Addresses in their order.
pub fn sorted_ips(v: &Vec<IpAddr>) -> (r: Vec<IpAddr>)
    requires
        v@.no_duplicates(),
    ensures
        in_order(r@),
        same_members(r@, v@),
{
    let mut r: Vec<IpAddr> = Vec::new();
    let n: usize = v.len();
    for i in 0..n
        invariant
            n == v@.len(),
            v@.no_duplicates(),
            r@.len() == i,
            in_order(r@),
            forall|x: IpAddr| #[trigger]
                r@.contains(x) <==> exists|j: int| 0 <= j < i && v@[j] == x,
    {
        let x = v[i];
        let mut k: usize = 0;
        while k < r.len() && is_ip_before(&r[k], &x)
            invariant
                k <= r@.len(),
                forall|a: int| 0 <= a < k ==> ip_before(#[trigger] r@[a], x),
            decreases r@.len() - k,
        {
            k = k + 1;
        }
        let ghost before = r@;
        assert(!before.contains(x));
        r.insert(k, x);
        proof {
            assert(r@ =~= before.insert(k as int, x));
            assert(forall|a: int| k <= a < before.len() ==> ip_before(x, #[trigger] before[a])) by {
                if k < before.len() {
                    assert(before.contains(before[k as int]));
                    assert(before[k as int] != x);
                    assert forall|a: int| k <= a < before.len() implies ip_before(
                        x,
                        #[trigger] before[a],
                    ) by {
                        if a > k {
                            assert(ip_before(before[k as int], before[a]));
                        }
                    }
                }
            }
            assert forall|a: int, b: int| 0 <= a < b < r@.len() implies ip_before(
                #[trigger] r@[a],
                #[trigger] r@[b],
            ) by {
                let a0 = if a < k { a } else { a - 1 };
                let b0 = if b < k { b } else { b - 1 };
                if a != k && b != k {
                    assert(r@[a] == before[a0] && r@[b] == before[b0]);
                } else if a == k {
                    assert(r@[b] == before[b0]);
                } else {
                    assert(r@[a] == before[a0]);
                }
            }
            assert forall|y: IpAddr| #[trigger] r@.contains(y) <==> exists|j: int|
                0 <= j < i + 1 && v@[j] == y by {
                if r@.contains(y) {
                    let c = choose|c: int| 0 <= c < r@.len() && r@[c] == y;
                    if c == k {
                        assert(v@[i as int] == y);
                    } else {
                        let c0 = if c < k { c } else { c - 1 };
                        assert(before[c0] == y);
                        assert(before.contains(y));
                    }
                }
                if exists|j: int| 0 <= j < i + 1 && v@[j] == y {
                    let j = choose|j: int| 0 <= j < i + 1 && v@[j] == y;
                    if j == i {
                        assert(r@[k as int] == y);
                    } else {
                        assert(before.contains(y));
                        let c0 = choose|c: int| 0 <= c < before.len() && before[c] == y;
                        let c = if c0 < k { c0 } else { c0 + 1 };
                        assert(r@[c] == y);
                    }
                }
            }
        }
    }
    assert(forall|x: IpAddr| #[trigger] r@.contains(x) <==> v@.contains(x));
    r
}

/// Addresses in their order are the keys of a map.
pub open spec fn lists_keys<V>(ips: Seq<IpAddr>, m: Map<IpAddr, V>) -> bool {
    in_order(ips) && forall|ip: IpAddr| #[trigger] ips.contains(ip) <==> m.dom().contains(ip)
}

/// The keys of a table, in the order of addresses.
pub fn key_addresses<V: View>(t: &Table<IpAddr, V>) -> (r: Vec<IpAddr>)
    ensures
        lists_keys(r@, t@),
{
    let n: usize = t.len();
    let ghost items = t.items();
    let mut v: Vec<IpAddr> = Vec::new();
    for i in 0..n
        invariant
            n == items.len(),
            items == t.items(),
            v@.len() == i,
            forall|j: int| 0 <= j < i ==> #[trigger] v@[j] == items[j].0,
    {
        let (ip, x) = t.entry(i);
        assert(items[i as int] == (ip@, x@));
        v.push(*ip);
    }
    assert(v@.no_duplicates()) by {
        assert forall|i: int, j: int| 0 <= i < v@.len() && 0 <= j < v@.len() && i != j implies v@[i]
            != v@[j] by {
            if i < j {
                assert(items[i].0 != items[j].0);
            } else {
                assert(items[j].0 != items[i].0);
            }
        }
    }
    let r = sorted_ips(&v);
    assert forall|ip: IpAddr| #[trigger] r@.contains(ip) <==> t@.dom().contains(ip) by {
        if t@.dom().contains(ip) {
            let j = choose|j: int| 0 <= j < items.len() && (#[trigger] items[j]).0 == ip;
            assert(v@[j] == ip);
            assert(v@.contains(ip));
        }
        if r@.contains(ip) {
            assert(v@.contains(ip));
            let j = choose|j: int| 0 <= j < v@.len() && v@[j] == ip;
            assert(items[j].0 == ip);
        }
    }
    r
}

/// `r` are the `n` of the members of `all` with most bytes, or all of them.
pub open spec fn busiest(all: Set<IpAddr>, bytes: Map<IpAddr, u64>, n: nat, r: Seq<IpAddr>) -> bool {
    &&& r.no_duplicates()
    &&& r.len() == (if all.len() < n { all.len() } else { n })
    &&& forall|x: IpAddr| r.contains(x) ==> all.contains(x)
    &&& forall|x: IpAddr, y: IpAddr|
        r.contains(x) && all.contains(y) && !r.contains(y) ==> #[trigger] traffic::count(bytes, y)
            <= #[trigger] traffic::count(bytes, x)
}

fn pick_busiest(all: &Vec<IpAddr>, bytes: &Table<IpAddr, u64>, n: usize) -> (r: Vec<IpAddr>)
    requires
        all@.no_duplicates(),
    ensures
        busiest(all@.to_set(), bytes@, n as nat, r@),
{
    let mut rest: Vec<IpAddr> = Vec::new();
    let m: usize = all.len();
    for i in 0..m
        invariant
            m == all@.len(),
            rest@ == all@.take(i as int),
    {
        rest.push(all[i]);
    }
    assert(rest@ =~= all@);
    proof {
        all@.unique_seq_to_set();
    }
    let mut r: Vec<IpAddr> = Vec::new();
    while r.len() < n && rest.len() > 0
        invariant
            all@.no_duplicates(),
            all@.to_set().len() == all@.len(),
            r@.len() <= n,
            r@.len() + rest@.len() == all@.len(),
            r@.no_duplicates(),
            rest@.no_duplicates(),
            forall|x: IpAddr| #[trigger] all@.contains(x) <==> r@.contains(x) || rest@.contains(x),
            forall|x: IpAddr| #[trigger] r@.contains(x) ==> !rest@.contains(x),
            forall|x: IpAddr, y: IpAddr|
                r@.contains(x) && rest@.contains(y) ==> #[trigger] traffic::count(bytes@, y)
                    <= #[trigger] traffic::count(bytes@, x),
        decreases rest@.len(),
    {
        let mut best: usize = 0;
        let len: usize = rest.len();
        let mut most: u64 = count_at(bytes, &rest[0]);
        for i in 1..len
            invariant
                len == rest@.len(),
                best < len,
                most == traffic::count(bytes@, rest@[best as int]),
                forall|j: int| 0 <= j < i ==> traffic::count(bytes@, #[trigger] rest@[j]) <= most,
        {
            let c: u64 = count_at(bytes, &rest[i]);
            if c > most {
                best = i;
                most = c;
            }
        }
        let ghost old_rest = rest@;
        let ghost old_r = r@;
        let x = rest.remove(best);
        r.push(x);
        proof {
            assert(rest@ =~= old_rest.remove(best as int));
            assert(old_rest.contains(x));
            assert(forall|y: IpAddr| #[trigger] rest@.contains(y) ==> old_rest.contains(y) && y != x) by {
                assert forall|y: IpAddr| #[trigger] rest@.contains(y) implies old_rest.contains(y)
                    && y != x by {
                    let j = choose|j: int| 0 <= j < rest@.len() && rest@[j] == y;
                    let j0 = if j < best { j } else { j + 1 };
                    assert(old_rest[j0] == y);
                }
            }
            assert(forall|y: IpAddr| #[trigger] old_rest.contains(y) && y != x ==> rest@.contains(y))
                by {
                assert forall|y: IpAddr| #[trigger] old_rest.contains(y) && y != x implies rest@.contains(
                    y,
                ) by {
                    let j0 = choose|j: int| 0 <= j < old_rest.len() && old_rest[j] == y;
                    let j = if j0 < best { j0 } else { j0 - 1 };
                    assert(rest@[j] == y);
                }
            }
            assert(forall|y: IpAddr| #[trigger] r@.contains(y) <==> old_r.contains(y) || y == x) by {
                assert forall|y: IpAddr| #[trigger] r@.contains(y) <==> old_r.contains(y) || y == x by {
                    if old_r.contains(y) {
                        let j = choose|j: int| 0 <= j < old_r.len() && old_r[j] == y;
                        assert(r@[j] == y);
                    }
                    if y == x {
                        assert(r@[old_r.len() as int] == y);
                    }
                }
            }
            assert(r@.no_duplicates()) by {
                assert forall|i: int, j: int| 0 <= i < r@.len() && 0 <= j < r@.len() && i
                    != j implies r@[i] != r@[j] by {
                    if i < old_r.len() {
                        assert(old_r.contains(old_r[i]));
                        assert(!old_rest.contains(old_r[i]));
                    }
                    if j < old_r.len() {
                        assert(old_r.contains(old_r[j]));
                        assert(!old_rest.contains(old_r[j]));
                    }
                }
            }
            assert(rest@.no_duplicates()) by {
                assert forall|i: int, j: int| 0 <= i < j < rest@.len() implies rest@[i] != rest@[j] by {
                    let i0 = if i < best { i } else { i + 1 };
                    let j0 = if j < best { j } else { j + 1 };
                    assert(old_rest[i0] != old_rest[j0]);
                }
            }
            assert forall|a: IpAddr, y: IpAddr|
                r@.contains(a) && rest@.contains(y) implies #[trigger] traffic::count(bytes@, y)
                <= #[trigger] traffic::count(bytes@, a) by {
                if a == x {
                    let j = choose|j: int| 0 <= j < old_rest.len() && old_rest[j] == y;
                    assert(traffic::count(bytes@, old_rest[j]) <= most);
                }
            }
        }
    }
    r
}

// ---------------------------------------------------------------------------
// One address for each label
// ---------------------------------------------------------------------------

/// What decides who has a place: the nodes, the bytes that addresses received,
/// how they are shown, and the address of this host.
pub struct RingView {
    pub nodes: Map<IpAddr, GraphNode>,
    pub bytes: Map<IpAddr, u64>,
    pub hosts: HostsView,
    pub host: Option<IpAddr>,
}

impl RingView {
    /// An address may have a place in a ring: the inner one is for private
    /// networks, and there for addresses that received enough.
    pub open spec fn eligible(self, inner: bool, ip: IpAddr) -> bool {
        &&& self.nodes.dom().contains(ip)
        &&& self.host != Some(ip)
        &&& net::private_ip(ip) == inner
        &&& inner ==> traffic::count(self.bytes, ip) >= LEAST_BYTES
    }

    /// `leads` has for each label of eligible addresses the one that received most.
    pub open spec fn leads(self, inner: bool, leads: Set<IpAddr>) -> bool {
        &&& forall|l: IpAddr| #[trigger] leads.contains(l) ==> self.eligible(inner, l)
        &&& forall|c: IpAddr| #[trigger]
            self.eligible(inner, c) ==> exists|l: IpAddr| #[trigger]
                leads.contains(l) && self.hosts.label(l) == self.hosts.label(c)
        &&& forall|l: IpAddr, c: IpAddr|
            #[trigger] leads.contains(l) && #[trigger] self.eligible(inner, c) && self.hosts.label(
                c,
            ) == self.hosts.label(l) ==> traffic::count(self.bytes, c) <= traffic::count(self.bytes, l)
        &&& forall|l: IpAddr, k: IpAddr|
            #[trigger] leads.contains(l) && #[trigger] leads.contains(k) && self.hosts.label(l)
                == self.hosts.label(k) ==> l == k
    }

    /// `r` are the addresses of a ring with `n` places, in their order.
    pub open spec fn ring(self, inner: bool, n: nat, r: Seq<IpAddr>) -> bool {
        in_order(r) && exists|leads: Set<IpAddr>, chosen: Seq<IpAddr>|
            self.leads(inner, leads) && #[trigger] busiest(leads, self.bytes, n, chosen)
                && same_members(r, chosen)
    }
}

/// An address without a name of its own in a ring has received no more than
/// the one that is shown under its label.
pub proof fn law_lead_is_busiest(v: RingView, inner: bool, leads: Set<IpAddr>, a: IpAddr, b: IpAddr)
    requires
        v.leads(inner, leads),
        leads.contains(a),
        v.eligible(inner, b),
        v.hosts.label(a) == v.hosts.label(b),
    ensures
        traffic::count(v.bytes, b) <= traffic::count(v.bytes, a),
{
}

/// Every eligible address can be labelled.
pub open spec fn labels_writable(v: RingView, inner: bool) -> bool {
    forall|ip: IpAddr| #[trigger] v.eligible(inner, ip) ==> v.hosts.labelable(ip)
}

spec fn seen_before(items: Seq<(IpAddr, GraphNode)>, i: int, ip: IpAddr) -> bool {
    exists|j: int| 0 <= j < i && (#[trigger] items[j]).0 == ip
}

spec fn groups_ok(
    v: RingView,
    inner: bool,
    items: Seq<(IpAddr, GraphNode)>,
    i: int,
    g: Seq<(String, IpAddr)>,
) -> bool {
    &&& forall|a: int|
        0 <= a < g.len() ==> v.eligible(inner, (#[trigger] g[a]).1) && g[a].0@ == v.hosts.label(
            g[a].1,
        )
    &&& forall|a: int, b: int|
        0 <= a < b < g.len() ==> (#[trigger] g[a]).0@ != (#[trigger] g[b]).0@
    &&& forall|ip: IpAddr|
        v.eligible(inner, ip) && #[trigger] seen_before(items, i, ip) ==> exists|a: int|
            0 <= a < g.len() && (#[trigger] g[a]).0@ == v.hosts.label(ip)
    &&& forall|ip: IpAddr, a: int|
        v.eligible(inner, ip) && #[trigger] seen_before(items, i, ip) && 0 <= a < g.len() && (
        #[trigger] g[a]).0@ == v.hosts.label(ip) ==> traffic::count(v.bytes, ip) <= traffic::count(v.bytes, g[a].1)
}

fn group_of(g: &Vec<(String, IpAddr)>, label: &str) -> (r: Option<usize>)
    ensures
        match r {
            Some(i) => i < g@.len() && g@[i as int].0@ == label@,
            None => forall|a: int| 0 <= a < g@.len() ==> (#[trigger] g@[a]).0@ != label@,
        },
{
    let n: usize = g.len();
    for i in 0..n
        invariant
            n == g@.len(),
            forall|a: int| 0 <= a < i ==> (#[trigger] g@[a]).0@ != label@,
    {
        let e = &g[i];
        if same(e.0.as_str(), label) {
            return Some(i);
        }
    }
    None
}

impl AppState {
    /// What decides who has a place.
    pub open spec fn ring_view(&self, nodes: Map<IpAddr, GraphNode>, host: Option<IpAddr>) -> RingView {
        RingView { nodes, bytes: self.flows.dest_bytes@, hosts: self.hosts(), host }
    }

    fn is_eligible(
        &self,
        nodes: &Table<IpAddr, GraphNode>,
        host: &Option<IpAddr>,
        inner: bool,
        ip: &IpAddr,
    ) -> (r: bool)
        requires
            nodes@.dom().contains(*ip),
        ensures
            r == self.ring_view(nodes@, *host).eligible(inner, *ip),
    {
        let is_host = match host {
            Some(h) => *h == *ip,
            None => false,
        };
        !is_host && is_private_ip(ip) == inner && (!inner || count_at(&self.flows.dest_bytes, ip)
            >= LEAST_BYTES)
    }

    fn find_leads(
        &self,
        nodes: &Table<IpAddr, GraphNode>,
        host: &Option<IpAddr>,
        inner: bool,
    ) -> (r: Vec<IpAddr>)
        requires
            labels_writable(self.ring_view(nodes@, *host), inner),
        ensures
            r@.no_duplicates(),
            self.ring_view(nodes@, *host).leads(inner, r@.to_set()),
    {
        let ghost v = self.ring_view(nodes@, *host);
        let mut g: Vec<(String, IpAddr)> = Vec::new();
        let n: usize = nodes.len();
        let ghost items = nodes.items();
        for i in 0..n
            invariant
                n == items.len(),
                items == nodes.items(),
                v == self.ring_view(nodes@, *host),
                labels_writable(v, inner),
                groups_ok(v, inner, items, i as int, g@),
                forall|i: int|
                    0 <= i < nodes.items().len() ==> nodes@.dom().contains(
                        (#[trigger] nodes.items()[i]).0,
                    ),
        {
            let (key, _) = nodes.entry(i);
            let ip: IpAddr = *key;
            assert(items[i as int].0 == ip);
            let ghost before = g@;
            assert(forall|x: IpAddr| #[trigger]
                seen_before(items, i + 1, x) <==> seen_before(items, i as int, x) || x == ip) by {
                assert forall|x: IpAddr| #[trigger] seen_before(items, i + 1, x) <==> seen_before(
                    items,
                    i as int,
                    x,
                ) || x == ip by {
                    if seen_before(items, i + 1, x) {
                        let j = choose|j: int| 0 <= j < i + 1 && (#[trigger] items[j]).0 == x;
                        if j < i {
                            assert(items[j].0 == x);
                        }
                    }
                    if seen_before(items, i as int, x) {
                        let j = choose|j: int| 0 <= j < i && (#[trigger] items[j]).0 == x;
                        assert(items[j].0 == x);
                    }
                    if x == ip {
                        assert(items[i as int].0 == x);
                    }
                }
            }
            if self.is_eligible(nodes, host, inner, &ip) {
                assert(v.eligible(inner, ip));
                let label = self.build_short_label(&ip);
                match group_of(&g, label.as_str()) {
                    Some(a) => {
                        let lead: IpAddr = g[a].1;
                        if count_at(&self.flows.dest_bytes, &ip) > count_at(
                            &self.flows.dest_bytes,
                            &lead,
                        ) {
                            g.set(a, (label, ip));
                        }
                        proof {
                            assert(g@.len() == before.len());
                            assert forall|x: IpAddr|
                                v.eligible(inner, x) && #[trigger] seen_before(
                                    items,
                                    i + 1,
                                    x,
                                ) implies exists|b: int|
                                0 <= b < g@.len() && (#[trigger] g@[b]).0@ == v.hosts.label(x) by {
                                if x == ip {
                                    assert(g@[a as int].0@ == v.hosts.label(x));
                                } else {
                                    let b = choose|b: int|
                                        0 <= b < before.len() && (#[trigger] before[b]).0@
                                            == v.hosts.label(x);
                                    assert(g@[b].0@ == v.hosts.label(x));
                                }
                            }
                            assert forall|x: IpAddr, b: int|
                                v.eligible(inner, x) && #[trigger] seen_before(items, i + 1, x) && 0
                                    <= b < g@.len() && (#[trigger] g@[b]).0@ == v.hosts.label(
                                    x,
                                ) implies traffic::count(v.bytes, x) <= traffic::count(v.bytes, g@[b].1) by {
                                assert(before[b].0@ == g@[b].0@);
                                if b != a {
                                    assert(before[b].0@ != before[a as int].0@);
                                }
                            }
                            assert forall|x: int, b: int| 0 <= x < b < g@.len() implies (
                            #[trigger] g@[x]).0@ != (#[trigger] g@[b]).0@ by {
                                assert(before[x].0@ != before[b].0@);
                            }
                        }
                    },
                    None => {
                        g.push((label, ip));
                        proof {
                            assert forall|x: IpAddr|
                                v.eligible(inner, x) && #[trigger] seen_before(
                                    items,
                                    i + 1,
                                    x,
                                ) implies exists|b: int|
                                0 <= b < g@.len() && (#[trigger] g@[b]).0@ == v.hosts.label(x) by {
                                if x == ip {
                                    assert(g@[before.len() as int].0@ == v.hosts.label(x));
                                } else {
                                    let b = choose|b: int|
                                        0 <= b < before.len() && (#[trigger] before[b]).0@
                                            == v.hosts.label(x);
                                    assert(g@[b].0@ == v.hosts.label(x));
                                }
                            }
                            assert forall|x: IpAddr, b: int|
                                v.eligible(inner, x) && #[trigger] seen_before(items, i + 1, x) && 0
                                    <= b < g@.len() && (#[trigger] g@[b]).0@ == v.hosts.label(
                                    x,
                                ) implies traffic::count(v.bytes, x) <= traffic::count(v.bytes, g@[b].1) by {
                                if b < before.len() {
                                    assert(before[b].0@ == g@[b].0@);
                                } else if x != ip {
                                    let c = choose|c: int|
                                        0 <= c < before.len() && (#[trigger] before[c]).0@
                                            == v.hosts.label(x);
                                    assert(false);
                                }
                            }
                        }
                    },
                }
            }
        }
        let mut r: Vec<IpAddr> = Vec::new();
        let m: usize = g.len();
        for i in 0..m
            invariant
                m == g@.len(),
                r@.len() == i,
                forall|j: int| 0 <= j < i ==> #[trigger] r@[j] == g@[j].1,
        {
            let e = &g[i];
            r.push(e.1);
        }
        proof {
            assert forall|i: int, j: int| 0 <= i < j < r@.len() implies r@[i] != r@[j] by {
                assert(g@[i].0@ != g@[j].0@);
                assert(r@[i] == g@[i].1 && r@[j] == g@[j].1);
            }
            let leads = r@.to_set();
            assert forall|l: IpAddr| #[trigger] leads.contains(l) implies v.eligible(inner, l) by {
                let a = choose|a: int| 0 <= a < r@.len() && r@[a] == l;
                assert(g@[a].1 == l);
            }
            assert forall|c: IpAddr| #[trigger] v.eligible(inner, c) implies exists|l: IpAddr|
                #[trigger] leads.contains(l) && v.hosts.label(l) == v.hosts.label(c) by {
                assert(seen_before(items, n as int, c));
                let a = choose|a: int|
                    0 <= a < g@.len() && (#[trigger] g@[a]).0@ == v.hosts.label(c);
                assert(r@[a] == g@[a].1);
                assert(leads.contains(g@[a].1));
            }
            assert forall|l: IpAddr, c: IpAddr|
                #[trigger] leads.contains(l) && #[trigger] v.eligible(inner, c) && v.hosts.label(c)
                    == v.hosts.label(l) implies traffic::count(v.bytes, c) <= traffic::count(v.bytes, l) by {
                let a = choose|a: int| 0 <= a < r@.len() && r@[a] == l;
                assert(g@[a].1 == l);
                assert(seen_before(items, n as int, c));
                assert(g@[a].0@ == v.hosts.label(c));
            }
            assert forall|l: IpAddr, k: IpAddr|
                #[trigger] leads.contains(l) && #[trigger] leads.contains(k) && v.hosts.label(l)
                    == v.hosts.label(k) implies l == k by {
                let a = choose|a: int| 0 <= a < r@.len() && r@[a] == l;
                let b = choose|b: int| 0 <= b < r@.len() && r@[b] == k;
                assert(g@[a].1 == l && g@[b].1 == k);
                if a < b {
                    assert(g@[a].0@ != g@[b].0@);
                }
                if b < a {
                    assert(g@[b].0@ != g@[a].0@);
                }
            }
        }
        r
    }

    fn find_ring(
        &self,
        nodes: &Table<IpAddr, GraphNode>,
        host: &Option<IpAddr>,
        inner: bool,
        places: usize,
    ) -> (r: Vec<IpAddr>)
        requires
            labels_writable(self.ring_view(nodes@, *host), inner),
        ensures
            self.ring_view(nodes@, *host).ring(inner, places as nat, r@),
    {
        let leads = self.find_leads(nodes, host, inner);
        let chosen = pick_busiest(&leads, &self.flows.dest_bytes, places);
        let r = sorted_ips(&chosen);
        proof {
            let v = self.ring_view(nodes@, *host);
            assert(v.leads(inner, leads@.to_set()));
            assert(busiest(leads@.to_set(), v.bytes, places as nat, chosen@));
            assert(same_members(r@, chosen@));
        }
        r
    }
}

// ---------------------------------------------------------------------------
// The graph as time goes on
// ---------------------------------------------------------------------------

/// The first node of this host from place `i` on.
pub open spec fn host_from(items: Seq<(IpAddr, GraphNode)>, i: int) -> Option<IpAddr>
    decreases items.len() - i,
{
    if i < 0 || i >= items.len() {
        None
    } else if items[i].1.pinned {
        Some(items[i].0)
    } else {
        host_from(items, i + 1)
    }
}

/// The node of this host in a graph, if there is one.
pub open spec fn host_node(g: Graph) -> Option<IpAddr> {
    host_from(g.graph_nodes.items(), 0)
}

/// The nodes with that of this host seen at `now`.
pub open spec fn host_seen(m: Map<IpAddr, GraphNode>, host: Option<IpAddr>, now: u64) -> Map<
    IpAddr,
    GraphNode,
> {
    match host {
        Some(ip) => m.insert(ip, GraphNode { last_seen: now, ..m[ip] }),
        None => m,
    }
}

/// A node that was seen lately enough.
pub open spec fn alive(n: GraphNode, now: u64) -> bool {
    formatting::since(now, n.last_seen) / SECOND < NODE_LIFE
}

/// The nodes that were seen lately enough.
pub open spec fn alive_nodes(m: Map<IpAddr, GraphNode>, now: u64) -> Map<IpAddr, GraphNode> {
    Map::new(|ip: IpAddr| m.dom().contains(ip) && alive(m[ip], now), |ip: IpAddr| m[ip])
}

/// The node of this host never expires.
pub proof fn law_host_stays(m: Map<IpAddr, GraphNode>, ip: IpAddr, now: u64)
    requires
        m.dom().contains(ip),
        m[ip].pinned,
    ensures
        alive_nodes(host_seen(m, Some(ip), now), now).dom().contains(ip),
        alive_nodes(host_seen(m, Some(ip), now), now)[ip].pinned,
{
}

fn find_host(g: &Graph) -> (r: Option<IpAddr>)
    ensures
        r == host_node(*g),
{
    let n: usize = g.graph_nodes.len();
    for i in 0..n
        invariant
            n == g.graph_nodes.items().len(),
            host_node(*g) == host_from(g.graph_nodes.items(), i as int),
    {
        let (ip, node) = g.graph_nodes.entry(i);
        if node.pinned {
            return Some(*ip);
        }
    }
    None
}

fn keep_alive(nodes: &Table<IpAddr, GraphNode>, now: u64) -> (r: Table<IpAddr, GraphNode>)
    ensures
        r@ == alive_nodes(nodes@, now),
{
    let mut r: Table<IpAddr, GraphNode> = Table::new();
    let n: usize = nodes.len();
    let ghost items = nodes.items();
    for i in 0..n
        invariant
            n == items.len(),
            items == nodes.items(),
            forall|i: int|
                0 <= i < items.len() ==> nodes@.dom().contains((#[trigger] items[i]).0)
                    && nodes@[items[i].0] == items[i].1,
            forall|k: IpAddr| #[trigger]
                r@.dom().contains(k) <==> seen_before(items, i as int, k) && alive(nodes@[k], now),
            forall|k: IpAddr| #[trigger] r@.dom().contains(k) ==> r@[k] == nodes@[k],
    {
        let (ip, node) = nodes.entry(i);
        assert(items[i as int].0 == *ip);
        assert forall|x: IpAddr| #[trigger] seen_before(items, i + 1, x) <==> seen_before(
            items,
            i as int,
            x,
        ) || x == *ip by {
            if seen_before(items, i + 1, x) {
                let j = choose|j: int| 0 <= j < i + 1 && (#[trigger] items[j]).0 == x;
                if j < i {
                    assert(items[j].0 == x);
                }
            }
            if seen_before(items, i as int, x) {
                let j = choose|j: int| 0 <= j < i && (#[trigger] items[j]).0 == x;
                assert(items[j].0 == x);
            }
        }
        if now.saturating_sub(node.last_seen) / SECOND < NODE_LIFE {
            r.insert(*ip, *node);
        }
    }
    proof {
        assert forall|k: IpAddr| #[trigger] seen_before(items, n as int, k) == nodes@.dom().contains(
            k,
        ) by {
            if seen_before(items, n as int, k) {
                let j = choose|j: int| 0 <= j < n && (#[trigger] items[j]).0 == k;
                assert(nodes@.dom().contains(items[j].0));
            }
            if nodes@.dom().contains(k) {
                let j = choose|j: int| 0 <= j < items.len() && (#[trigger] items[j]).0 == k;
                assert(items[j].0 == k);
            }
        }
        assert(r@ =~= alive_nodes(nodes@, now));
    }
    r
}

/// A number that goes round.
pub open spec fn next_tick(t: u64) -> u64 {
    t.wrapping_add(1)
}

/// The nodes of a graph at `now`.
pub open spec fn nodes_at(g: Graph, now: u64) -> Map<IpAddr, GraphNode> {
    alive_nodes(host_seen(g.graph_nodes@, host_node(g), now), now)
}

/// What decides who has a place at `now`.
pub open spec fn rings_at(s: AppState, now: u64) -> RingView {
    s.ring_view(nodes_at(s.graph, now), host_node(s.graph))
}

/// The labels of every address that may have a place can be written.
pub open spec fn layout_writable(s: AppState, now: u64) -> bool {
    s.graph.show_graph ==> labels_writable(rings_at(s, now), true) && labels_writable(
        rings_at(s, now),
        false,
    )
}

/// `places` are the addresses of the inner ring, then those of the outer one.
pub open spec fn placed(v: RingView, places: Seq<IpAddr>) -> bool {
    exists|n: int|
        0 <= n <= places.len() && v.ring(true, INNER_PLACES as nat, #[trigger] places.take(n))
            && v.ring(false, OUTER_PLACES as nat, places.skip(n))
}

/// `after` is the graph of `s` at `now`: hidden graphs stay as they are, shown
/// ones lose the addresses that were not seen lately, and have places anew.
pub open spec fn laid_out(s: AppState, now: u64, after: Graph) -> bool {
    if !s.graph.show_graph {
        after == s.graph
    } else {
        &&& after.graph_nodes@ == nodes_at(s.graph, now)
        &&& placed(rings_at(s, now), after.positioned_nodes@)
        &&& after == (Graph {
            graph_tick: next_tick(s.graph.graph_tick),
            graph_nodes: after.graph_nodes,
            positioned_nodes: after.positioned_nodes,
            ..s.graph
        })
    }
}

impl AppState {
    /// Whether the labels of every address that may have a place can be
    /// written, for one node of this host.
    fn labels_ok(
        &self,
        nodes: &Table<IpAddr, GraphNode>,
        host: &Option<IpAddr>,
        inner: bool,
    ) -> (r: bool)
        ensures
            r == labels_writable(self.ring_view(nodes@, *host), inner),
    {
        let ghost v = self.ring_view(nodes@, *host);
        let n: usize = nodes.len();
        let ghost items = nodes.items();
        for i in 0..n
            invariant
                n == items.len(),
                items == nodes.items(),
                v == self.ring_view(nodes@, *host),
                forall|j: int|
                    0 <= j < i && v.eligible(inner, (#[trigger] items[j]).0) ==> v.hosts.labelable(
                        items[j].0,
                    ),
                forall|i: int|
                    0 <= i < items.len() ==> nodes@.dom().contains((#[trigger] items[i]).0),
                forall|k: IpAddr|
                    nodes@.dom().contains(k) ==> exists|i: int|
                        0 <= i < items.len() && (#[trigger] items[i]).0 == k,
        {
            let (key, _) = nodes.entry(i);
            let ip: IpAddr = *key;
            assert(items[i as int].0 == ip);
            if self.is_eligible(nodes, host, inner, &ip) && !self.is_labelable(&ip) {
                assert(v.eligible(inner, ip) && !v.hosts.labelable(ip));
                return false;
            }
        }
        proof {
            assert forall|ip: IpAddr| #[trigger] v.eligible(inner, ip) implies v.hosts.labelable(
                ip,
            ) by {
                let j = choose|j: int| 0 <= j < items.len() && (#[trigger] items[j]).0 == ip;
                assert(v.eligible(inner, items[j].0));
            }
        }
        true
    }

    fn nodes_now(&self, host: &Option<IpAddr>, now: u64) -> (r: Table<IpAddr, GraphNode>)
        requires
            *host == host_node(self.graph),
        ensures
            r@ == nodes_at(self.graph, now),
    {
        let mut nodes = self.graph.graph_nodes.dup();
        if let Some(ip) = host {
            if let Some(n) = self.graph.graph_nodes.get(ip) {
                nodes.insert(*ip, GraphNode { last_seen: now, pinned: n.pinned });
            } else {
                let n: usize = self.graph.graph_nodes.len();
                proof {
                    lemma_host_from(self.graph.graph_nodes.items(), 0);
                }
            }
        }
        keep_alive(&nodes, now)
    }

    /// Whether the labels of every address that may have a place can be written.
    pub fn is_layout_writable(&self, now: u64) -> (r: bool)
        ensures
            r == layout_writable(*self, now),
    {
        if !self.graph.show_graph {
            return true;
        }
        let host = find_host(&self.graph);
        let nodes = self.nodes_now(&host, now);
        self.labels_ok(&nodes, &host, true) && self.labels_ok(&nodes, &host, false)
    }

    /// Lays the graph out anew.
    pub fn update_radar_layout(&mut self, now: u64)
        requires
            layout_writable(*old(self), now),
        ensures
            laid_out(*old(self), now, final(self).graph),
            *final(self) == (AppState { graph: final(self).graph, ..*old(self) }),
    {
        if !self.graph.show_graph {
            return;
        }
        let host = find_host(&self.graph);
        let nodes = self.nodes_now(&host, now);
        let mut places = self.find_ring(&nodes, &host, true, INNER_PLACES);
        let mut outer = self.find_ring(&nodes, &host, false, OUTER_PLACES);
        let ghost a = places@;
        let ghost b = outer@;
        places.append(&mut outer);
        proof {
            assert(places@.take(a.len() as int) =~= a);
            assert(places@.skip(a.len() as int) =~= b);
        }
        self.graph.graph_tick = self.graph.graph_tick.wrapping_add(1);
        self.graph.graph_nodes = nodes;
        self.graph.positioned_nodes = places;
    }

    /// Lets time go on to `now`: lays the graph out anew and closes the present
    /// second, if it is over.
    pub fn tick(&mut self, now: u64)
        requires
            layout_writable(*old(self), now),
        ensures
            laid_out(*old(self), now, final(self).graph),
            final(self).counters@ == old(self).counters@.ticked(now),
            *final(self) == (AppState {
                graph: final(self).graph,
                counters: final(self).counters,
                ..*old(self)
            }),
    {
        self.update_radar_layout(now);
        self.counters.tick(now);
    }

    /// Lets time go on to `now`, unless the label of an address that may have a
    /// place cannot be written; then nothing changes.
    pub fn try_tick(&mut self, now: u64) -> (r: bool)
        ensures
            r == layout_writable(*old(self), now),
            r ==> laid_out(*old(self), now, final(self).graph) && final(self).counters@ == old(
                self,
            ).counters@.ticked(now) && *final(self) == (AppState {
                graph: final(self).graph,
                counters: final(self).counters,
                ..*old(self)
            }),
            !r ==> *final(self) == *old(self),
    {
        if self.is_layout_writable(now) {
            self.tick(now);
            true
        } else {
            false
        }
    }

    /// Notes that the sweep passes an address. Says whether it has not passed
    /// it for a while.
    pub fn sweep_hit(&mut self, ip: IpAddr) -> (r: bool)
        ensures
            r == (old(self).graph.graph_tick.wrapping_sub(
                traffic::count(old(self).graph.sweep_hit_tick@, ip),
            ) > 20),
            final(self).graph.sweep_hit_tick@ == old(self).graph.sweep_hit_tick@.insert(
                ip,
                old(self).graph.graph_tick,
            ),
            *final(self) == (AppState {
                graph: Graph {
                    sweep_hit_tick: final(self).graph.sweep_hit_tick,
                    ..old(self).graph
                },
                ..*old(self)
            }),
    {
        let tick: u64 = self.graph.graph_tick;
        let prev: u64 = count_at(&self.graph.sweep_hit_tick, &ip);
        self.graph.sweep_hit_tick.insert(ip, tick);
        tick.wrapping_sub(prev) > 20
    }
}

proof fn lemma_host_from(items: Seq<(IpAddr, GraphNode)>, i: int)
    ensures
        host_from(items, i) is Some ==> exists|j: int|
            0 <= j < items.len() && (#[trigger] items[j]).0 == host_from(items, i)->0,
    decreases items.len() - i,
{
    if i < 0 || i >= items.len() {
    } else if items[i].1.pinned {
        assert(items[i].0 == host_from(items, i)->0);
    } else {
        lemma_host_from(items, i + 1);
    }
}

/// A node that is left in the graph was seen less than its life ago, or is
/// that of this host.
pub proof fn law_old_nodes_gone(g: Graph, now: u64, ip: IpAddr)
    requires
        nodes_at(g, now).dom().contains(ip),
    ensures
        host_node(g) == Some(ip) || formatting::since(now, g.graph_nodes@[ip].last_seen) / SECOND < NODE_LIFE,
{
}

/// Which addresses stand in the inner ring: at most twelve, each in a private
/// network, seen, not this host, and sent at least five hundred bytes. While
/// there is room, each such address is there or another one of the same label
/// that was sent as much.
pub proof fn law_inner_ring(v: RingView, r: Seq<IpAddr>, n: u32)
    requires
        v.ring(true, 12, r),
        v.nodes.dom().finite(),
    ensures
        r.len() <= 12,
        ({
            let ip = IpAddr::V4(n);
            let private = 0x0A00_0000 <= n <= 0x0AFF_FFFF || 0xAC10_0000 <= n <= 0xAC1F_FFFF
                || 0xC0A8_0000 <= n <= 0xC0A8_FFFF;
            let sent = if v.bytes.dom().contains(ip) { v.bytes[ip] } else { 0 };
            let fit = private && v.nodes.dom().contains(ip) && v.host != Some(ip) && sent >= 500;
            &&& r.contains(ip) ==> fit
            &&& fit && r.len() < 12 ==> exists|l: IpAddr| #[trigger]
                r.contains(l) && v.hosts.label(l) == v.hosts.label(ip) && traffic::count(v.bytes, l)
                    >= sent
        }),
{
    net::law_private_ranges(n);
    let ip = IpAddr::V4(n);
    let (leads, chosen) = choose|leads: Set<IpAddr>, chosen: Seq<IpAddr>|
        v.leads(true, leads) && #[trigger] busiest(leads, v.bytes, 12, chosen) && same_members(
            r,
            chosen,
        );
    if r.contains(ip) {
        assert(chosen.contains(ip));
        assert(leads.contains(ip));
    }
    if v.eligible(true, ip) && r.len() < 12 {
        assert(leads.subset_of(v.nodes.dom())) by {
            assert forall|x: IpAddr| leads.contains(x) implies v.nodes.dom().contains(x) by {
                assert(v.eligible(true, x));
            }
        }
        vstd::set_lib::lemma_len_subset(leads, v.nodes.dom());
        let l = choose|l: IpAddr| #[trigger] leads.contains(l) && v.hosts.label(l) == v.hosts.label(ip);
        lemma_all_chosen(leads, v.bytes, 12, chosen, l);
        assert(r.contains(l));
    }
}

/// Which addresses stand in the outer ring: at most sixteen, each outside of
/// the private networks, seen and not this host.
pub proof fn law_outer_ring(v: RingView, r: Seq<IpAddr>, n: u32)
    requires
        v.ring(false, 16, r),
        v.nodes.dom().finite(),
    ensures
        r.len() <= 16,
        ({
            let ip = IpAddr::V4(n);
            let private = 0x0A00_0000 <= n <= 0x0AFF_FFFF || 0xAC10_0000 <= n <= 0xAC1F_FFFF
                || 0xC0A8_0000 <= n <= 0xC0A8_FFFF;
            let fit = !private && v.nodes.dom().contains(ip) && v.host != Some(ip);
            &&& r.contains(ip) ==> fit
            &&& fit && r.len() < 16 ==> exists|l: IpAddr| #[trigger]
                r.contains(l) && v.hosts.label(l) == v.hosts.label(ip)
        }),
{
    net::law_private_ranges(n);
    let ip = IpAddr::V4(n);
    let (leads, chosen) = choose|leads: Set<IpAddr>, chosen: Seq<IpAddr>|
        v.leads(false, leads) && #[trigger] busiest(leads, v.bytes, 16, chosen) && same_members(
            r,
            chosen,
        );
    if r.contains(ip) {
        assert(chosen.contains(ip));
        assert(leads.contains(ip));
    }
    if v.eligible(false, ip) && r.len() < 16 {
        assert(leads.subset_of(v.nodes.dom())) by {
            assert forall|x: IpAddr| leads.contains(x) implies v.nodes.dom().contains(x) by {
                assert(v.eligible(false, x));
            }
        }
        vstd::set_lib::lemma_len_subset(leads, v.nodes.dom());
        let l = choose|l: IpAddr| #[trigger] leads.contains(l) && v.hosts.label(l) == v.hosts.label(ip);
        lemma_all_chosen(leads, v.bytes, 16, chosen, l);
        assert(r.contains(l));
    }
}

proof fn lemma_all_chosen(
    all: Set<IpAddr>,
    bytes: Map<IpAddr, u64>,
    n: nat,
    chosen: Seq<IpAddr>,
    x: IpAddr,
)
    requires
        busiest(all, bytes, n, chosen),
        chosen.len() < n,
        all.contains(x),
        all.finite(),
    ensures
        chosen.contains(x),
{
    chosen.unique_seq_to_set();
    let c = chosen.to_set();
    assert(c.subset_of(all));
    vstd::set_lib::lemma_subset_equality(c, all);
    assert(c.contains(x));
}

/// An address is on the map for thirty seconds after it was last seen.
pub proof fn law_nodes_live(g: Graph, now: u64, ip: IpAddr)
    requires
        host_node(g) != Some(ip),
        g.graph_nodes@.dom().contains(ip),
        g.graph_nodes@[ip].last_seen <= now,
    ensures
        nodes_at(g, now).dom().contains(ip) <==> now - g.graph_nodes@[ip].last_seen < 30_000_000_000,
{
    let ago = (now - g.graph_nodes@[ip].last_seen) as u64;
    assert(ago / 1_000_000_000 < 30 <==> ago < 30_000_000_000);
}

} // verus!
