//! The deduplication history: the set of transactions a node has already
//! seen, signed or not, keyed by the unsigned transaction's full contents.
//! Insertion is an atomic check-and-add; entries are never removed.

use vstd::prelude::*;
use crate::types::AccountTransaction;

verus! {

/// The dedup set. An owned value: an application that shares it across
/// tasks puts it behind its own lock.
#[derive(Debug)]
pub struct History {
    seen: Vec<AccountTransaction>,
}

impl View for History {
    type V = Set<AccountTransaction>;

    closed spec fn view(&self) -> Set<AccountTransaction> {
        self.seen@.to_set()
    }
}

impl History {
    #[verifier::type_invariant]
    spec fn wf(self) -> bool {
        self.seen@.no_duplicates()
    }

    /// An empty history: nothing has been seen.
    pub fn new() -> (r: History)
        ensures
            r@ == Set::<AccountTransaction>::empty(),
    {
        let r = History { seen: Vec::new() };
        proof {
            assert(r@ =~= Set::<AccountTransaction>::empty());
        }
        r
    }

    /// How many distinct transactions have been seen.
    pub fn len(&self) -> (r: usize)
        ensures
            r == self@.len(),
    {
        proof {
            use_type_invariant(&*self);
            self.seen@.unique_seq_to_set();
        }
        self.seen.len()
    }

    /// Whether the transaction has been seen before.
    pub fn contains(&self, trx: &AccountTransaction) -> (r: bool)
        ensures
            r == self@.contains(*trx),
    {
        let n = self.seen.len();
        let mut i: usize = 0;
        while i < n
            invariant
                n == self.seen@.len(),
                0 <= i <= n,
                forall|j: int| 0 <= j < i ==> self.seen@[j] != *trx,
            decreases n - i,
        {
            if self.seen[i] == *trx {
                assert(self.seen@.contains(*trx));
                return true;
            }
            i = i + 1;
        }
        assert(!self.seen@.contains(*trx));
        false
    }

    /// Records the transaction. Returns whether it was previously unseen —
    /// the admission pipeline admits a transaction only on `true`.
    pub fn insert(&mut self, trx: AccountTransaction) -> (fresh: bool)
        ensures
            final(self)@ == old(self)@.insert(trx),
            fresh == !old(self)@.contains(trx),
    {
        proof {
            use_type_invariant(&*self);
        }
        if self.contains(&trx) {
            proof {
                assert(old(self)@.insert(trx) =~= old(self)@);
            }
            false
        } else {
            let mut seen: Vec<AccountTransaction> = Vec::new();
            core::mem::swap(&mut seen, &mut self.seen);
            seen.push(trx);
            proof {
                let s_old = old(self).seen@;
                let s_new = seen@;
                assert(forall|j: int| 0 <= j < s_old.len() ==> s_old[j] != trx);
                assert(s_new.no_duplicates());
            }
            core::mem::swap(&mut seen, &mut self.seen);
            proof {
                let s_old = old(self).seen@;
                let s_new = self.seen@;
                assert forall|a: AccountTransaction|
                    s_new.contains(a) implies s_old.contains(a) || a == trx by {
                    let i = choose|i: int| 0 <= i < s_new.len() && s_new[i] == a;
                    if i < s_old.len() {
                        assert(s_old[i] == a);
                    }
                }
                assert forall|a: AccountTransaction| s_old.contains(a) implies s_new.contains(
                    a,
                ) by {
                    let i = choose|i: int| 0 <= i < s_old.len() && s_old[i] == a;
                    assert(s_new[i] == a);
                }
                assert(s_new[s_old.len() as int] == trx && s_new.contains(trx));
                assert(self@ =~= old(self)@.insert(trx));
            }
            true
        }
    }
}

impl Clone for History {
    /// A clone holds the same seen set.
    fn clone(&self) -> (r: History)
        ensures
            r@ == self@,
    {
        proof {
            use_type_invariant(&*self);
        }
        let n = self.seen.len();
        let mut seen: Vec<AccountTransaction> = Vec::new();
        let mut i: usize = 0;
        while i < n
            invariant
                n == self.seen@.len(),
                0 <= i <= n,
                seen@ == self.seen@.subrange(0, i as int),
            decreases n - i,
        {
            seen.push(self.seen[i]);
            proof {
                assert(seen@ =~= self.seen@.subrange(0, i + 1));
            }
            i = i + 1;
        }
        proof {
            assert(seen@ =~= self.seen@);
        }
        History { seen }
    }
}

/// Histories converge whatever the arrival order: recording two
/// transactions yields the same seen set either way round.
pub proof fn lemma_history_insert_commutes(
    h: Set<AccountTransaction>,
    t1: AccountTransaction,
    t2: AccountTransaction,
)
    ensures
        h.insert(t1).insert(t2) == h.insert(t2).insert(t1),
{
    assert(h.insert(t1).insert(t2) =~= h.insert(t2).insert(t1));
}

} // verus!
