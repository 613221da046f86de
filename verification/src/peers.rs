//! The peer directory: the addresses a node knows, split into *active*
//! (bound to a live connection's handle) and *inactive* (known but not
//! connected), plus the node's own listening address. An address belongs
//! to at most one of active, inactive, and self. The directory produces
//! bounded random samples for gossip.

use vstd::prelude::*;
use rand::seq::SliceRandom;
use crate::types::{NodeName, Peer, SocketAddress};

verus! {

/// Why the directory rejected a registration.
#[derive(Clone, Copy, Debug, PartialEq, Eq, Structural)]
pub enum DirectoryError {
    /// The address is already bound — to another connection's handle, or
    /// to the node itself.
    AlreadyBound,
}

/// The map an active-entry list stands for; later entries win.
pub open spec fn addr_map_of(s: Seq<(SocketAddress, Peer)>) -> Map<SocketAddress, Peer>
    decreases s.len(),
{
    if s.len() == 0 {
        Map::empty()
    } else {
        addr_map_of(s.drop_last()).insert(s.last().0, s.last().1)
    }
}

/// No two active entries bind the same address.
pub open spec fn unique_addrs(s: Seq<(SocketAddress, Peer)>) -> bool {
    forall|i: int, j: int| 0 <= i < j < s.len() ==> s[i].0 != s[j].0
}

/// The map's domain is exactly the set of bound addresses, and finite.
proof fn lemma_addr_map_dom(s: Seq<(SocketAddress, Peer)>)
    ensures
        addr_map_of(s).dom().finite(),
        forall|k: SocketAddress|
            addr_map_of(s).dom().contains(k) <==> (exists|i: int|
                0 <= i < s.len() && s[i].0 == k),
    decreases s.len(),
{
    if s.len() > 0 {
        lemma_addr_map_dom(s.drop_last());
        assert forall|k: SocketAddress| addr_map_of(s).dom().contains(k) implies (exists|i: int|
            0 <= i < s.len() && s[i].0 == k) by {
            if k == s.last().0 {
                assert(s[s.len() - 1].0 == k);
            } else {
                let i = choose|i: int| 0 <= i < s.len() - 1 && s.drop_last()[i].0 == k;
                assert(s[i].0 == k);
            }
        }
        assert forall|k: SocketAddress| (exists|i: int| 0 <= i < s.len() && s[i].0 == k)
            implies addr_map_of(s).dom().contains(k) by {
            let i = choose|i: int| 0 <= i < s.len() && s[i].0 == k;
            if i < s.len() - 1 {
                assert(s.drop_last()[i].0 == k);
            }
        }
    }
}

/// With unique addresses, the entry at `i` gives the handle the map holds.
proof fn lemma_addr_map_val(s: Seq<(SocketAddress, Peer)>, i: int)
    requires
        unique_addrs(s),
        0 <= i < s.len(),
    ensures
        addr_map_of(s).dom().contains(s[i].0),
        addr_map_of(s)[s[i].0] == s[i].1,
    decreases s.len(),
{
    if i < s.len() - 1 {
        assert(unique_addrs(s.drop_last()));
        assert(s.drop_last()[i] == s[i]);
        lemma_addr_map_val(s.drop_last(), i);
        assert(s.last().0 != s[i].0);
    }
}

/// Binding a fresh address appends it to the map.
proof fn lemma_addr_map_push(s: Seq<(SocketAddress, Peer)>, k: SocketAddress, p: Peer)
    requires
        unique_addrs(s),
        forall|i: int| 0 <= i < s.len() ==> s[i].0 != k,
    ensures
        unique_addrs(s.push((k, p))),
        addr_map_of(s.push((k, p))) == addr_map_of(s).insert(k, p),
{
    let t = s.push((k, p));
    assert(forall|i: int| 0 <= i < s.len() ==> t[i] == s[i]);
    assert(unique_addrs(t));
    assert(t.drop_last() =~= s);
    assert(addr_map_of(t) =~= addr_map_of(s).insert(k, p));
}

/// Relies on rand's SliceRandom::shuffle with rand::thread_rng (a
/// Fisher–Yates shuffle): the result is a permutation of the input. Its
/// order is random, so nothing is promised of it.
#[verifier::external_body]
fn shuffle_addresses(v: &mut Vec<SocketAddress>)
    ensures
        final(v)@.to_multiset() == old(v)@.to_multiset(),
{
    v.shuffle(&mut rand::thread_rng());
}

/// Removes every occurrence of `a`, keeping the others in order.
fn remove_addr(v: &mut Vec<SocketAddress>, a: SocketAddress)
    requires
        old(v)@.no_duplicates(),
    ensures
        final(v)@.no_duplicates(),
        final(v)@.to_set() == old(v)@.to_set().remove(a),
        !final(v)@.contains(a),
        forall|x: SocketAddress| final(v)@.contains(x) ==> old(v)@.contains(x),
{
    let n = v.len();
    let mut out: Vec<SocketAddress> = Vec::new();
    let mut i: usize = 0;
    while i < n
        invariant
            old(v)@.no_duplicates(),
            v@ == old(v)@,
            n == v@.len(),
            0 <= i <= n,
            forall|k: int|
                0 <= k < out@.len() ==> out@[k] != a && (exists|j: int|
                    0 <= j < i && v@[j] == #[trigger] out@[k]),
            forall|j: int| 0 <= j < i && v@[j] != a ==> out@.contains(v@[j]),
            out@.no_duplicates(),
        decreases n - i,
    {
        let x = v[i];
        if !(x == a) {
            proof {
                assert forall|k: int| 0 <= k < out@.len() implies out@[k] != x by {
                    let j = choose|j: int| 0 <= j < i && v@[j] == out@[k];
                    assert(v@[j] != v@[i as int]);
                }
            }
            let ghost prev = out@;
            out.push(x);
            proof {
                assert(out@[out@.len() - 1] == v@[i as int]);
                assert forall|j: int| 0 <= j < i + 1 && v@[j] != a implies out@.contains(
                    v@[j],
                ) by {
                    if j < i {
                        let k = choose|k: int| 0 <= k < prev.len() && prev[k] == v@[j];
                        assert(out@[k] == v@[j]);
                    } else {
                        assert(out@[out@.len() - 1] == v@[j]);
                    }
                }
            }
        }
        i = i + 1;
    }
    proof {
        assert forall|x: SocketAddress| out@.contains(x) implies v@.contains(x) && x != a by {
            let k = choose|k: int| 0 <= k < out@.len() && out@[k] == x;
            let j = choose|j: int| 0 <= j < n && v@[j] == out@[k];
            assert(v@[j] == x);
        }
        assert forall|x: SocketAddress| v@.contains(x) && x != a implies out@.contains(x) by {
            let j = choose|j: int| 0 <= j < n && v@[j] == x;
            assert(out@.contains(v@[j]));
        }
        assert(out@.to_set() =~= old(v)@.to_set().remove(a));
    }
    *v = out;
}

/// How many addresses the directory offers a sample: every active and
/// inactive address, plus the node's own when fewer than 10 are known in
/// total.
pub open spec fn spec_offered_count(d: Peers) -> int {
    (d.active_seq().len() + d.inactive_seq().len()) as int + (if d.known_count() < 10 {
        1int
    } else {
        0int
    })
}

/// What the gossip sample promises: exactly the offered addresses, capped
/// at 10, all distinct and all known to the directory; the node's own
/// address is in the sample exactly when fewer than 10 addresses are
/// known in total; and whenever at most 11 are known, every active and
/// inactive address is in the sample.
pub open spec fn valid_sample(d: Peers, addrs: Seq<SocketAddress>) -> bool {
    &&& addrs.len() == (if spec_offered_count(d) > 10 {
        10int
    } else {
        spec_offered_count(d)
    })
    &&& addrs.len() <= 10
    &&& addrs.no_duplicates()
    &&& forall|i: int| 0 <= i < addrs.len() ==> d.spec_contains(#[trigger] addrs[i])
    &&& addrs.contains(d.self_addr()) <==> d.known_count() < 10
    &&& d.known_count() <= 11 ==> forall|a: SocketAddress|
        (d.active_map().dom().contains(a) || d.inactive_set().contains(a)) ==> addrs.contains(a)
}

/// The dial plan for an address list received in a gossip response: one
/// dial per listed address that is neither already known nor the node
/// itself, first occurrence only, in list order.
pub open spec fn dial_plan(p: Peers, addrs: Seq<SocketAddress>) -> Seq<SocketAddress>
    decreases addrs.len(),
{
    if addrs.len() == 0 {
        Seq::empty()
    } else {
        let rest = dial_plan(p, addrs.drop_last());
        let a = addrs.last();
        if !p.spec_contains(a) && !rest.contains(a) {
            rest.push(a)
        } else {
            rest
        }
    }
}

/// The registry of known remote addresses. An owned value: an
/// application that shares it across tasks puts it behind its own lock.
#[derive(Debug)]
pub struct Peers {
    node_name: NodeName,
    active: Vec<(SocketAddress, Peer)>,
    inactive: Vec<SocketAddress>,
    self_address: SocketAddress,
}

impl Peers {
    #[verifier::type_invariant]
    spec fn wf(self) -> bool {
        &&& unique_addrs(self.active@)
        &&& self.inactive@.no_duplicates()
        &&& forall|i: int| 0 <= i < self.active@.len() ==> (#[trigger] self.active@[i]).0
            != self.self_address
        &&& !self.inactive@.contains(self.self_address)
        &&& forall|i: int|
            0 <= i < self.active@.len() ==> !self.inactive@.contains(
                (#[trigger] self.active@[i]).0,
            )
    }

    /// The active entries, in registration order.
    pub closed spec fn active_seq(&self) -> Seq<(SocketAddress, Peer)> {
        self.active@
    }

    /// The active address-to-handle map.
    pub open spec fn active_map(&self) -> Map<SocketAddress, Peer> {
        addr_map_of(self.active_seq())
    }

    /// The known-but-unconnected addresses.
    pub closed spec fn inactive_seq(&self) -> Seq<SocketAddress> {
        self.inactive@
    }

    /// The known-but-unconnected addresses, as a set.
    pub open spec fn inactive_set(&self) -> Set<SocketAddress> {
        self.inactive_seq().to_set()
    }

    /// The node's own listening address.
    pub closed spec fn self_addr(&self) -> SocketAddress {
        self.self_address
    }

    /// Membership: active, inactive, or the node itself.
    pub open spec fn spec_contains(&self, a: SocketAddress) -> bool {
        self.active_map().dom().contains(a) || self.inactive_set().contains(a) || a
            == self.self_addr()
    }

    /// How many addresses the directory knows, the node's own included.
    pub open spec fn known_count(&self) -> int {
        (self.active_seq().len() + self.inactive_seq().len() + 1) as int
    }

    /// An empty directory knowing only the node's own address.
    pub fn new(self_address: SocketAddress, node_name: NodeName) -> (r: Peers)
        ensures
            r.active_seq() == Seq::<(SocketAddress, Peer)>::empty(),
            r.inactive_set() == Set::<SocketAddress>::empty(),
            r.self_addr() == self_address,
    {
        let r = Peers { node_name, active: Vec::new(), inactive: Vec::new(), self_address };
        proof {
            assert(r.inactive_set() =~= Set::<SocketAddress>::empty());
        }
        r
    }

    /// How many addresses are known: active plus inactive plus self.
    pub fn len(&self) -> (r: usize)
        requires
            self.known_count() <= usize::MAX,
        ensures
            r == self.known_count(),
    {
        self.active.len() + self.inactive.len() + 1
    }

    /// Whether the address is known: active, inactive, or self.
    pub fn contains(&self, key: &SocketAddress) -> (r: bool)
        ensures
            r == self.spec_contains(*key),
    {
        proof {
            use_type_invariant(&*self);
            lemma_addr_map_dom(self.active@);
        }
        let n = self.active.len();
        let mut i: usize = 0;
        while i < n
            invariant
                n == self.active@.len(),
                0 <= i <= n,
                forall|j: int| 0 <= j < i ==> (#[trigger] self.active@[j]).0 != *key,
            decreases n - i,
        {
            if self.active[i].0 == *key {
                proof {
                    lemma_addr_map_dom(self.active@);
                    assert(self.active@[i as int].0 == *key);
                }
                return true;
            }
            i = i + 1;
        }
        let m = self.inactive.len();
        let mut j: usize = 0;
        while j < m
            invariant
                m == self.inactive@.len(),
                0 <= j <= m,
                forall|k: int| 0 <= k < j ==> self.inactive@[k] != *key,
            decreases m - j,
        {
            if self.inactive[j] == *key {
                assert(self.inactive@.contains(*key));
                return true;
            }
            j = j + 1;
        }
        proof {
            lemma_addr_map_dom(self.active@);
            assert(!self.inactive@.contains(*key));
        }
        self.self_address == *key
    }

    /// Whether an address is worth dialing: not self and not yet known.
    /// Dialing itself — opening the connection, spawning the actor — is
    /// the surrounding application's part.
    pub fn should_dial(&self, addr: &SocketAddress) -> (r: bool)
        ensures
            r == !self.spec_contains(*addr),
    {
        !self.contains(addr)
    }

    /// A copy of the active entries, for fan-out.
    pub fn clone_iter(&self) -> (r: Vec<(SocketAddress, Peer)>)
        ensures
            r@ == self.active_seq(),
    {
        let n = self.active.len();
        let mut out: Vec<(SocketAddress, Peer)> = Vec::new();
        let mut i: usize = 0;
        while i < n
            invariant
                n == self.active@.len(),
                0 <= i <= n,
                out@ == self.active@.subrange(0, i as int),
            decreases n - i,
        {
            out.push(self.active[i]);
            proof {
                assert(out@ =~= self.active@.subrange(0, i + 1));
            }
            i = i + 1;
        }
        proof {
            assert(out@ =~= self.active@);
        }
        out
    }

    /// Registers an active peer under `socket`. First writer wins: if the
    /// address is already bound to a handle at another address, or names
    /// the node itself, the call fails and nothing changes; if it is bound
    /// to the same handle, the call is a no-op. A fresh binding removes
    /// the address from the inactive side.
    pub fn add_peer(&mut self, socket: SocketAddress, peer: Peer) -> (r: Result<
        (),
        DirectoryError,
    >)
        ensures
            final(self).self_addr() == old(self).self_addr(),
            (r is Ok) <==> !(socket == old(self).self_addr()
                || (old(self).active_map().dom().contains(socket)
                    && old(self).active_map()[socket].address != peer.address)),
            r is Err ==> r == Err::<(), DirectoryError>(DirectoryError::AlreadyBound)
                && final(self).active_seq() == old(self).active_seq()
                && final(self).inactive_set() == old(self).inactive_set(),
            r is Ok && old(self).active_map().dom().contains(socket)
                ==> final(self).active_seq() == old(self).active_seq()
                && final(self).inactive_set() == old(self).inactive_set(),
            r is Ok && !old(self).active_map().dom().contains(socket)
                ==> final(self).active_seq() == old(self).active_seq().push((socket, peer))
                && final(self).active_map() == old(self).active_map().insert(socket, peer)
                && final(self).inactive_set() == old(self).inactive_set().remove(socket),
    {
        proof {
            use_type_invariant(&*self);
            lemma_addr_map_dom(self.active@);
        }
        if socket == self.self_address {
            return Err(DirectoryError::AlreadyBound);
        }
        let n = self.active.len();
        let mut i: usize = 0;
        while i < n
            invariant
                unique_addrs(self.active@),
                socket != old(self).self_addr(),
                self == old(self),
                n == self.active@.len(),
                0 <= i <= n,
                forall|j: int| 0 <= j < i ==> (#[trigger] self.active@[j]).0 != socket,
            decreases n - i,
        {
            if self.active[i].0 == socket {
                proof {
                    lemma_addr_map_val(self.active@, i as int);
                }
                if self.active[i].1 == peer {
                    return Ok(());
                } else {
                    return Err(DirectoryError::AlreadyBound);
                }
            }
            i = i + 1;
        }
        proof {
            lemma_addr_map_dom(self.active@);
        }
        let mut active: Vec<(SocketAddress, Peer)> = Vec::new();
        let mut inactive: Vec<SocketAddress> = Vec::new();
        core::mem::swap(&mut active, &mut self.active);
        core::mem::swap(&mut inactive, &mut self.inactive);
        remove_addr(&mut inactive, socket);
        active.push((socket, peer));
        proof {
            lemma_addr_map_push(old(self).active@, socket, peer);
            assert(forall|k: int|
                0 <= k < active@.len() - 1 ==> active@[k] == old(self).active@[k]);
        }
        core::mem::swap(&mut inactive, &mut self.inactive);
        core::mem::swap(&mut active, &mut self.active);
        Ok(())
    }

    /// Records an address as known but unconnected. Returns whether it was
    /// new; an address already known — active, inactive, or self — is left
    /// where it is.
    pub fn _add_inactive(&mut self, socket: SocketAddress) -> (r: bool)
        ensures
            final(self).self_addr() == old(self).self_addr(),
            final(self).active_seq() == old(self).active_seq(),
            r == !old(self).spec_contains(socket),
            r ==> final(self).inactive_set() == old(self).inactive_set().insert(socket),
            !r ==> final(self).inactive_set() == old(self).inactive_set(),
    {
        proof {
            use_type_invariant(&*self);
        }
        if self.contains(&socket) {
            return false;
        }
        proof {
            lemma_addr_map_dom(self.active@);
        }
        let mut inactive: Vec<SocketAddress> = Vec::new();
        core::mem::swap(&mut inactive, &mut self.inactive);
        inactive.push(socket);
        proof {
            let s_old = old(self).inactive@;
            let s_new = inactive@;
            assert(forall|j: int| 0 <= j < s_old.len() ==> s_old[j] != socket);
            assert(s_new.no_duplicates());
        }
        core::mem::swap(&mut inactive, &mut self.inactive);
        proof {
            let s_old = old(self).inactive@;
            let s_new = self.inactive@;
            assert forall|a: SocketAddress|
                s_new.contains(a) implies s_old.contains(a) || a == socket by {
                let i = choose|i: int| 0 <= i < s_new.len() && s_new[i] == a;
                if i < s_old.len() {
                    assert(s_old[i] == a);
                }
            }
            assert forall|a: SocketAddress| s_old.contains(a) implies s_new.contains(a) by {
                let i = choose|i: int| 0 <= i < s_old.len() && s_old[i] == a;
                assert(s_new[i] == a);
            }
            assert(s_new[s_old.len() as int] == socket && s_new.contains(socket));
            assert(self.inactive_set() =~= old(self).inactive_set().insert(socket));
        }
        true
    }

    /// The gossip sample: up to 10 distinct known addresses in random
    /// order, drawn from active and inactive, with the node's own address
    /// included exactly when fewer than 10 addresses are known in total.
    /// Whenever at most 11 are known, every active and inactive address is
    /// in the sample.
    pub fn to_vec(&self) -> (r: Vec<SocketAddress>)
        ensures
            valid_sample(*self, r@),
    {
        proof {
            use_type_invariant(&*self);
            lemma_addr_map_dom(self.active@);
        }
        let a_len = self.active.len();
        let i_len = self.inactive.len();
        let include_self = a_len < 9 && i_len < 9 - a_len;
        let mut cand: Vec<SocketAddress> = Vec::new();
        let mut i: usize = 0;
        while i < a_len
            invariant
                a_len == self.active@.len(),
                0 <= i <= a_len,
                cand@.len() == i,
                forall|k: int| 0 <= k < i ==> cand@[k] == (#[trigger] self.active@[k]).0,
            decreases a_len - i,
        {
            cand.push(self.active[i].0);
            i = i + 1;
        }
        let mut j: usize = 0;
        while j < i_len
            invariant
                a_len == self.active@.len(),
                i_len == self.inactive@.len(),
                0 <= j <= i_len,
                cand@.len() == a_len + j,
                forall|k: int| 0 <= k < a_len ==> cand@[k] == (#[trigger] self.active@[k]).0,
                forall|k: int|
                    a_len <= k < a_len + j ==> #[trigger] cand@[k] == self.inactive@[k - a_len],
            decreases i_len - j,
        {
            cand.push(self.inactive[j]);
            j = j + 1;
        }
        let ghost base = cand@;
        if include_self {
            cand.push(self.self_address);
        }
        proof {
            let c = cand@;
            if include_self {
                assert(c =~= base.push(self.self_address));
                assert(forall|k: int| 0 <= k < base.len() ==> #[trigger] c[k] == base[k]);
                assert(c[base.len() as int] == self.self_address);
            }
            assert(c.len() == a_len + i_len + (if include_self { 1int } else { 0int }));
            assert(include_self <==> self.known_count() < 10);
            assert(forall|k: int| 0 <= k < a_len ==> #[trigger] c[k] == self.active@[k].0);
            assert(forall|k: int|
                a_len <= k < a_len + i_len ==> #[trigger] c[k] == self.inactive@[k - a_len]);
            assert forall|k1: int, k2: int| 0 <= k1 < k2 < c.len() implies c[k1] != c[k2] by {
                if k2 < a_len {
                    assert(c[k1] == self.active@[k1].0 && c[k2] == self.active@[k2].0);
                } else if k2 < a_len + i_len {
                    assert(c[k2] == self.inactive@[k2 - a_len]);
                    assert(self.inactive@.contains(self.inactive@[k2 - a_len]));
                    if k1 < a_len {
                        assert(c[k1] == self.active@[k1].0);
                    } else {
                        assert(c[k1] == self.inactive@[k1 - a_len]);
                        assert(self.inactive@[k1 - a_len] != self.inactive@[k2 - a_len]);
                    }
                } else {
                    assert(c[k2] == self.self_address);
                    if k1 < a_len {
                        assert(c[k1] == self.active@[k1].0);
                    } else {
                        assert(c[k1] == self.inactive@[k1 - a_len]);
                        assert(self.inactive@.contains(self.inactive@[k1 - a_len]));
                    }
                }
            }
            assert(c.no_duplicates());
            assert forall|x: SocketAddress| c.contains(x) implies self.spec_contains(x) by {
                let k = choose|k: int| 0 <= k < c.len() && c[k] == x;
                lemma_addr_map_dom(self.active@);
                if k < a_len {
                    assert(c[k] == self.active@[k].0);
                } else if k < a_len + i_len {
                    assert(c[k] == self.inactive@[k - a_len]);
                    assert(self.inactive@.contains(x));
                } else {
                    assert(c[k] == self.self_address);
                }
            }
            assert forall|x: SocketAddress|
                self.active_map().dom().contains(x) || self.inactive_set().contains(x)
                    implies c.contains(x) by {
                lemma_addr_map_dom(self.active@);
                if self.active_map().dom().contains(x) {
                    let k = choose|k: int|
                        0 <= k < self.active@.len() && (#[trigger] self.active@[k]).0 == x;
                    assert(c[k] == x);
                } else {
                    let k = choose|k: int|
                        0 <= k < self.inactive@.len() && self.inactive@[k] == x;
                    assert(c[a_len + k] == self.inactive@[k]);
                    assert(c[a_len + k] == x);
                }
            }
            if include_self {
                assert(c[c.len() - 1] == self.self_address && c.contains(self.self_address));
            } else {
                if c.contains(self.self_address) {
                    let k = choose|k: int| 0 <= k < c.len() && c[k] == self.self_address;
                    if k < a_len {
                        assert(c[k] == self.active@[k].0);
                    } else {
                        assert(c[k] == self.inactive@[k - a_len]);
                        assert(self.inactive@.contains(self.inactive@[k - a_len]));
                    }
                    assert(false);
                }
            }
        }
        let ghost c0 = cand@;
        shuffle_addresses(&mut cand);
        proof {
            c0.to_multiset_ensures();
            cand@.to_multiset_ensures();
            c0.lemma_multiset_has_no_duplicates();
            cand@.lemma_multiset_has_no_duplicates_conv();
            assert(cand@.no_duplicates());
            assert(cand@.len() == c0.len());
            assert forall|x: SocketAddress| cand@.contains(x) <==> c0.contains(x) by {
                assert(cand@.to_multiset().count(x) == c0.to_multiset().count(x));
            }
        }
        let ghost c1 = cand@;
        if cand.len() > 10 {
            cand.truncate(10);
            proof {
                assert(cand@ == c1.subrange(0, 10));
                assert forall|k1: int, k2: int| 0 <= k1 < k2 < cand@.len() implies cand@[k1]
                    != cand@[k2] by {
                    assert(c1[k1] != c1[k2]);
                }
                assert(cand@.no_duplicates());
                assert forall|x: SocketAddress| cand@.contains(x) implies c1.contains(x) by {
                    let k = choose|k: int| 0 <= k < cand@.len() && cand@[k] == x;
                    assert(c1[k] == x);
                }
            }
        }
        proof {
            assert forall|k: int| 0 <= k < cand@.len() implies self.spec_contains(
                #[trigger] cand@[k],
            ) by {
                assert(c1.contains(cand@[k]));
                assert(c0.contains(cand@[k]));
            }
            if self.known_count() < 10 {
                assert(c0.len() <= 9);
                assert(cand@ == c1);
                assert(c0.contains(self.self_addr()));
                assert(cand@.contains(self.self_addr()));
            } else {
                assert(!c0.contains(self.self_addr()));
                if cand@.contains(self.self_addr()) {
                    assert(c1.contains(self.self_addr()));
                    assert(false);
                }
            }
            if self.known_count() <= 11 {
                assert(c0.len() <= 10);
                assert(cand@ == c1);
                assert forall|a: SocketAddress|
                    self.active_map().dom().contains(a) || self.inactive_set().contains(a)
                        implies cand@.contains(a) by {
                    assert(c0.contains(a));
                }
            }
        }
        cand
    }
}

impl PartialEq for Peers {
    /// The directory comparison used by convergence checks: as many
    /// addresses are known on both sides, and every address this directory
    /// holds active is known — active, inactive, or self — to the other.
    fn eq(&self, other: &Peers) -> (r: bool) {
        proof {
            use_type_invariant(&*self);
        }
        let a_len = self.active.len();
        let i_len = self.inactive.len();
        let oa_len = other.active.len();
        let oi_len = other.inactive.len();
        if !(a_len == oa_len && i_len == oi_len) {
            return false;
        }
        let mut i: usize = 0;
        while i < a_len
            invariant
                a_len == self.active@.len(),
                0 <= i <= a_len,
                forall|j: int|
                    0 <= j < i ==> other.spec_contains((#[trigger] self.active@[j]).0),
            decreases a_len - i,
        {
            if !other.contains(&self.active[i].0) {
                proof {
                    lemma_addr_map_dom(self.active@);
                    assert(self.active_map().dom().contains(self.active@[i as int].0));
                }
                return false;
            }
            i = i + 1;
        }
        proof {
            lemma_addr_map_dom(self.active@);
            assert forall|k: SocketAddress|
                self.active_map().dom().contains(k) implies other.spec_contains(k) by {
                let j = choose|j: int|
                    0 <= j < self.active@.len() && (#[trigger] self.active@[j]).0 == k;
            }
        }
        true
    }
}

impl vstd::std_specs::cmp::PartialEqSpecImpl for Peers {
    open spec fn obeys_eq_spec() -> bool {
        true
    }

    open spec fn eq_spec(&self, other: &Peers) -> bool {
        &&& self.active_seq().len() == other.active_seq().len()
        &&& self.inactive_seq().len() == other.inactive_seq().len()
        &&& forall|k: SocketAddress|
            self.active_map().dom().contains(k) ==> other.spec_contains(k)
    }
}

impl Clone for Peers {
    /// A clone knows the same addresses and handles.
    fn clone(&self) -> (r: Peers)
        ensures
            r.active_seq() == self.active_seq(),
            r.inactive_set() == self.inactive_set(),
            r.self_addr() == self.self_addr(),
    {
        proof {
            use_type_invariant(&*self);
        }
        let active = self.clone_iter();
        let m = self.inactive.len();
        let mut inactive: Vec<SocketAddress> = Vec::new();
        let mut i: usize = 0;
        while i < m
            invariant
                m == self.inactive@.len(),
                0 <= i <= m,
                inactive@ == self.inactive@.subrange(0, i as int),
            decreases m - i,
        {
            inactive.push(self.inactive[i]);
            proof {
                assert(inactive@ =~= self.inactive@.subrange(0, i + 1));
            }
            i = i + 1;
        }
        proof {
            assert(inactive@ =~= self.inactive@);
        }
        Peers {
            node_name: self.node_name.clone(),
            active,
            inactive,
            self_address: self.self_address,
        }
    }
}

} // verus!
