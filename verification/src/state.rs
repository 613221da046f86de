//! The node's shared state and its inbound-packet dispatch: the
//! consensus-free replication core. A packet arrives, the state changes,
//! and a list of actions comes back — packets to enqueue on peers'
//! outbound queues and addresses to dial. Performing the actions (sockets,
//! queues, tasks) is the surrounding application's part; the decisions are
//! all made, and verified, here.

use vstd::prelude::*;
use crate::types::{
    AccountTransaction, Id, NodeName, Packet, Peer, SignedAccountTransaction, SocketAddress,
};
use crate::history::History;
use crate::ledger::{spec_ledger_update, Ledger};
use crate::peers::{dial_plan, valid_sample, Peers};

verus! {

/// One thing the surrounding application performs on the node's behalf.
/// Fan-out is fire-and-forget: a failed send to one peer must not block
/// or fail the others.
#[derive(Clone, Debug)]
pub enum Action {
    /// Enqueue the packet on the peer's outbound queue.
    Send { peer: Peer, packet: Packet },
    /// Open a connection to the address, register it as an active peer,
    /// and send `GetPeers` over it.
    Dial { address: SocketAddress },
}

/// The admission rule: a signed transaction enters the ledger and is
/// re-broadcast exactly when its signature verifies and its transaction
/// was not seen before.
pub open spec fn is_admitted(h: Set<AccountTransaction>, strx: SignedAccountTransaction) -> bool {
    strx.spec_verify() && !h.contains(strx.trx)
}

/// The node's shared state: dedup history, balance ledger, peer
/// directory.
#[derive(Debug)]
pub struct State {
    pub history: History,
    pub ledger: Ledger,
    pub peers: Peers,
}

/// What one pass of the admission pipeline does: the transaction is
/// recorded in the history whatever happens; if and only if it is
/// admitted, the ledger is updated once and one `Broadcast` is queued for
/// every currently active peer; otherwise nothing else changes and
/// nothing is sent. The directory is untouched.
pub open spec fn broadcast_post(
    pre: State,
    post: State,
    strx: SignedAccountTransaction,
    actions: Seq<Action>,
) -> bool {
    &&& post.peers == pre.peers
    &&& post.history@ == pre.history@.insert(strx.trx)
    &&& (is_admitted(pre.history@, strx) ==> {
        &&& post.ledger@ == spec_ledger_update(pre.ledger@, strx.trx)
        &&& actions.len() == pre.peers.active_seq().len()
        &&& forall|i: int|
            0 <= i < actions.len() ==> actions[i] == (Action::Send {
                peer: pre.peers.active_seq()[i].1,
                packet: Packet::Broadcast(strx),
            })
    })
    &&& (!is_admitted(pre.history@, strx) ==> post.ledger@ == pre.ledger@ && actions.len() == 0)
}

impl State {
    /// Fresh state for a node listening on `self_socket`: empty history,
    /// empty ledger, a directory knowing only the node itself.
    pub fn new(self_socket: SocketAddress, node_name: NodeName) -> (r: State)
        ensures
            r.history@ == Set::<AccountTransaction>::empty(),
            r.ledger@ == Map::<Id, i64>::empty(),
            r.peers.active_seq() == Seq::<(SocketAddress, Peer)>::empty(),
            r.peers.inactive_set() == Set::<SocketAddress>::empty(),
            r.peers.self_addr() == self_socket,
    {
        State {
            history: History::new(),
            ledger: Ledger::new(),
            peers: Peers::new(self_socket, node_name),
        }
    }

    /// The admission pipeline. Checks the signature, records the
    /// transaction in the history, and — exactly when both checks pass —
    /// applies it to the ledger and queues a `Broadcast` for every active
    /// peer. An invalid signature is silently dropped and never
    /// re-broadcast; an already-seen transaction is neither re-applied
    /// nor re-broadcast.
    pub fn broadcast(&mut self, strx: &SignedAccountTransaction) -> (actions: Vec<Action>)
        ensures
            broadcast_post(*old(self), *final(self), *strx, actions@),
    {
        let is_trx_valid = strx.verify();
        let is_trx_new = self.history.insert(strx.trx);
        let mut actions: Vec<Action> = Vec::new();
        if is_trx_new && is_trx_valid {
            self.ledger.update(&strx.trx);
            let peers_list = self.peers.clone_iter();
            let n = peers_list.len();
            let mut i: usize = 0;
            while i < n
                invariant
                    n == peers_list@.len(),
                    0 <= i <= n,
                    actions@.len() == i,
                    forall|k: int|
                        0 <= k < i ==> actions@[k] == (Action::Send {
                            peer: peers_list@[k].1,
                            packet: Packet::Broadcast(*strx),
                        }),
                decreases n - i,
            {
                actions.push(Action::Send { peer: peers_list[i].1, packet: Packet::Broadcast(*strx) });
                i = i + 1;
            }
        }
        actions
    }

    /// The central inbound dispatch: what the node does with one decoded
    /// packet received from the connection `from` holds.
    ///
    /// - `GetPeers`: answer the sender with a gossip sample.
    /// - `Broadcast`: run the admission pipeline.
    /// - `AddPeer`: bind the sending connection's handle under the
    ///   advertised address; a conflict is reported to no one and changes
    ///   nothing.
    /// - `ResponseGetPeers`: plan one dial for each listed address that
    ///   is neither known nor the node itself, skipping repeats.
    pub fn handle_packet(&mut self, packet: Packet, from: Peer) -> (actions: Vec<Action>)
        ensures
            match packet {
                Packet::GetPeers => {
                    &&& *final(self) == *old(self)
                    &&& actions@.len() == 1
                    &&& (actions@[0] matches Action::Send { peer, packet: response } && peer
                        == from && (response matches Packet::ResponseGetPeers(addrs)
                        && valid_sample(old(self).peers, addrs@)))
                },
                Packet::Broadcast(strx) => broadcast_post(*old(self), *final(self), strx, actions@),
                Packet::AddPeer(socket) => {
                    &&& final(self).history == old(self).history
                    &&& final(self).ledger == old(self).ledger
                    &&& actions@.len() == 0
                    &&& final(self).peers.self_addr() == old(self).peers.self_addr()
                    &&& if socket != old(self).peers.self_addr() && !old(self).peers.active_map().dom().contains(socket) {
                        final(self).peers.active_seq() == old(self).peers.active_seq().push(
                            (socket, from),
                        ) && final(self).peers.inactive_set() == old(self).peers.inactive_set().remove(socket)
                    } else {
                        final(self).peers.active_seq() == old(self).peers.active_seq() && final(self).peers.inactive_set() == old(self).peers.inactive_set()
                    }
                },
                Packet::ResponseGetPeers(addrs) => {
                    &&& *final(self) == *old(self)
                    &&& actions@.len() == dial_plan(old(self).peers, addrs@).len()
                    &&& forall|i: int|
                        0 <= i < actions@.len() ==> actions@[i] == (Action::Dial {
                            address: dial_plan(old(self).peers, addrs@)[i],
                        })
                },
            },
    {
        match packet {
            Packet::GetPeers => {
                let sample = self.peers.to_vec();
                let response = Packet::ResponseGetPeers(sample);
                let mut actions: Vec<Action> = Vec::new();
                actions.push(Action::Send { peer: from, packet: response });
                actions
            },
            Packet::Broadcast(strx) => self.broadcast(&strx),
            Packet::AddPeer(socket) => {
                // a conflict is an expected steady-state outcome, not a failure
                let _ = self.peers.add_peer(socket, from);
                Vec::new()
            },
            Packet::ResponseGetPeers(addrs) => self.plan_dials(&addrs),
        }
    }

    /// Plans one dial per fresh address in the list: addresses already
    /// known, the node's own, and repeats within the list are skipped.
    fn plan_dials(&self, addrs: &Vec<SocketAddress>) -> (actions: Vec<Action>)
        ensures
            actions@.len() == dial_plan(self.peers, addrs@).len(),
            forall|i: int|
                0 <= i < actions@.len() ==> actions@[i] == (Action::Dial {
                    address: dial_plan(self.peers, addrs@)[i],
                }),
    {
        let n = addrs.len();
        let mut dials: Vec<SocketAddress> = Vec::new();
        let mut actions: Vec<Action> = Vec::new();
        let mut i: usize = 0;
        while i < n
            invariant
                n == addrs@.len(),
                0 <= i <= n,
                dials@ == dial_plan(self.peers, addrs@.subrange(0, i as int)),
                actions@.len() == dials@.len(),
                forall|k: int|
                    0 <= k < dials@.len() ==> actions@[k] == (Action::Dial {
                        address: dials@[k],
                    }),
            decreases n - i,
        {
            let a = addrs[i];
            proof {
                assert(addrs@.subrange(0, i + 1).drop_last() =~= addrs@.subrange(0, i as int));
                assert(addrs@.subrange(0, i + 1).last() == addrs@[i as int]);
            }
            if self.peers.should_dial(&a) && !contains_addr(&dials, &a) {
                dials.push(a);
                actions.push(Action::Dial { address: a });
            }
            i = i + 1;
        }
        proof {
            assert(addrs@.subrange(0, n as int) =~= addrs@);
        }
        actions
    }
}

/// Whether the vector holds the address.
fn contains_addr(v: &Vec<SocketAddress>, a: &SocketAddress) -> (r: bool)
    ensures
        r == v@.contains(*a),
{
    let n = v.len();
    let mut i: usize = 0;
    while i < n
        invariant
            n == v@.len(),
            0 <= i <= n,
            forall|k: int| 0 <= k < i ==> v@[k] != *a,
        decreases n - i,
    {
        if v[i] == *a {
            assert(v@.contains(*a));
            return true;
        }
        i = i + 1;
    }
    assert(!v@.contains(*a));
    false
}

// ------------------------------------------------------------------
// Laws of admission.
// ------------------------------------------------------------------

/// Admission is idempotent at the level of the rule: once a transaction
/// is in the history, it is never admitted again.
pub proof fn lemma_admission_idempotent(h: Set<AccountTransaction>, strx: SignedAccountTransaction)
    ensures
        !is_admitted(h.insert(strx.trx), strx),
{
}

/// Admission is idempotent in full: broadcasting a valid, previously
/// unseen signed transaction into one node more than once updates the
/// ledger exactly once — on the first pass, which also queues exactly one
/// `Broadcast` for every then-active peer — while every later pass leaves
/// the ledger and history as they were and sends nothing.
pub proof fn lemma_broadcast_idempotent(
    s0: State,
    s1: State,
    s2: State,
    strx: SignedAccountTransaction,
    a1: Seq<Action>,
    a2: Seq<Action>,
)
    requires
        strx.spec_verify(),
        !s0.history@.contains(strx.trx),
        broadcast_post(s0, s1, strx, a1),
        broadcast_post(s1, s2, strx, a2),
    ensures
        s1.ledger@ == spec_ledger_update(s0.ledger@, strx.trx),
        a1.len() == s0.peers.active_seq().len(),
        forall|i: int|
            0 <= i < a1.len() ==> a1[i] == (Action::Send {
                peer: s0.peers.active_seq()[i].1,
                packet: Packet::Broadcast(strx),
            }),
        s2.ledger@ == s1.ledger@,
        s2.history@ == s1.history@,
        a2.len() == 0,
{
    assert(is_admitted(s0.history@, strx));
    assert(s1.history@.contains(strx.trx));
    assert(s2.history@ =~= s1.history@);
}

/// The signature gate: a transaction whose signature does not verify is
/// never applied to the ledger and never re-broadcast, whatever the
/// history holds.
pub proof fn lemma_signature_gate(
    pre: State,
    post: State,
    strx: SignedAccountTransaction,
    actions: Seq<Action>,
)
    requires
        broadcast_post(pre, post, strx, actions),
        !strx.spec_verify(),
    ensures
        post.ledger@ == pre.ledger@,
        actions.len() == 0,
{
}

} // verus!
