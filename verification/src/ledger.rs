//! The balance ledger: a map from account identity to a signed 64-bit
//! balance. Accounts absent from the map hold zero by convention. Every
//! mutation is one debit/credit pair applied together; balances wrap on
//! 64-bit overflow and may go negative — the design enforces no balance
//! sufficiency.

use vstd::prelude::*;
use vstd::wrapping::i64_specs;
use crate::types::{AccountTransaction, Amount, Id};

verus! {

/// The balance of `k` in the map: its entry, or zero when absent.
pub open spec fn balance_of(m: Map<Id, i64>, k: Id) -> i64 {
    if m.dom().contains(k) {
        m[k]
    } else {
        0i64
    }
}

/// The ledger after one transaction: the sender is debited, then the
/// recipient is credited out of the updated map, each wrapping on 64-bit
/// overflow. A transfer to oneself therefore nets to zero — the account
/// merely gains an explicit entry.
pub open spec fn spec_ledger_update(m: Map<Id, i64>, t: AccountTransaction) -> Map<Id, i64> {
    let debited = m.insert(t.from, i64_specs::wrapping_sub(balance_of(m, t.from), t.amount.0));
    debited.insert(t.to, i64_specs::wrapping_add(balance_of(debited, t.to), t.amount.0))
}

/// No two entries name the same account.
spec fn unique_keys(s: Seq<(Id, Amount)>) -> bool {
    forall|i: int, j: int| 0 <= i < j < s.len() ==> s[i].0 != s[j].0
}

/// The balance map an entry list stands for; later entries win.
spec fn entries_map(s: Seq<(Id, Amount)>) -> Map<Id, i64>
    decreases s.len(),
{
    if s.len() == 0 {
        Map::empty()
    } else {
        entries_map(s.drop_last()).insert(s.last().0, s.last().1.0)
    }
}

/// The map's domain is exactly the set of keys in the list, and finite.
proof fn lemma_entries_map_dom(s: Seq<(Id, Amount)>)
    ensures
        entries_map(s).dom().finite(),
        forall|k: Id|
            entries_map(s).dom().contains(k) <==> (exists|i: int| 0 <= i < s.len() && s[i].0 == k),
    decreases s.len(),
{
    if s.len() > 0 {
        lemma_entries_map_dom(s.drop_last());
        assert forall|k: Id| entries_map(s).dom().contains(k) implies (exists|i: int|
            0 <= i < s.len() && s[i].0 == k) by {
            if k == s.last().0 {
                assert(s[s.len() - 1].0 == k);
            } else {
                let i = choose|i: int| 0 <= i < s.len() - 1 && s.drop_last()[i].0 == k;
                assert(s[i].0 == k);
            }
        }
        assert forall|k: Id| (exists|i: int| 0 <= i < s.len() && s[i].0 == k) implies entries_map(
            s,
        ).dom().contains(k) by {
            let i = choose|i: int| 0 <= i < s.len() && s[i].0 == k;
            if i < s.len() - 1 {
                assert(s.drop_last()[i].0 == k);
            }
        }
    }
}

/// With unique keys, the entry at `i` gives the value the map holds.
proof fn lemma_entries_map_val(s: Seq<(Id, Amount)>, i: int)
    requires
        unique_keys(s),
        0 <= i < s.len(),
    ensures
        entries_map(s).dom().contains(s[i].0),
        entries_map(s)[s[i].0] == s[i].1.0,
    decreases s.len(),
{
    if i < s.len() - 1 {
        assert(unique_keys(s.drop_last()));
        assert(s.drop_last()[i] == s[i]);
        lemma_entries_map_val(s.drop_last(), i);
        assert(s.last().0 != s[i].0);
    }
}

/// With unique keys, the map has one entry per list element.
proof fn lemma_entries_map_len(s: Seq<(Id, Amount)>)
    requires
        unique_keys(s),
    ensures
        entries_map(s).dom().finite(),
        entries_map(s).dom().len() == s.len(),
    decreases s.len(),
{
    lemma_entries_map_dom(s);
    if s.len() > 0 {
        assert(unique_keys(s.drop_last()));
        lemma_entries_map_len(s.drop_last());
        lemma_entries_map_dom(s.drop_last());
        assert(!entries_map(s.drop_last()).dom().contains(s.last().0));
        assert(entries_map(s).dom() =~= entries_map(s.drop_last()).dom().insert(s.last().0));
    }
}

/// Overwriting the entry that holds `k` updates the map at `k`.
proof fn lemma_entries_map_update(s: Seq<(Id, Amount)>, i: int, k: Id, a: Amount)
    requires
        unique_keys(s),
        0 <= i < s.len(),
        s[i].0 == k,
    ensures
        unique_keys(s.update(i, (k, a))),
        entries_map(s.update(i, (k, a))) == entries_map(s).insert(k, a.0),
    decreases s.len(),
{
    let t = s.update(i, (k, a));
    assert(unique_keys(t));
    if i == s.len() - 1 {
        assert(t.drop_last() =~= s.drop_last());
        assert(entries_map(t) =~= entries_map(s).insert(k, a.0));
    } else {
        assert(unique_keys(s.drop_last()));
        assert(s.drop_last()[i].0 == k);
        lemma_entries_map_update(s.drop_last(), i, k, a);
        assert(t.drop_last() =~= s.drop_last().update(i, (k, a)));
        assert(t.last() == s.last());
        assert(s.last().0 != k);
        assert(entries_map(t) =~= entries_map(s).insert(k, a.0));
    }
}

/// Appending an entry under a fresh key inserts it into the map.
proof fn lemma_entries_map_push(s: Seq<(Id, Amount)>, k: Id, a: Amount)
    requires
        unique_keys(s),
        forall|i: int| 0 <= i < s.len() ==> s[i].0 != k,
    ensures
        unique_keys(s.push((k, a))),
        entries_map(s.push((k, a))) == entries_map(s).insert(k, a.0),
{
    let t = s.push((k, a));
    assert(forall|i: int| 0 <= i < s.len() ==> t[i] == s[i]);
    assert(unique_keys(t));
    assert(t.drop_last() =~= s);
    assert(entries_map(t) =~= entries_map(s).insert(k, a.0));
}

/// Writes `a` under `k`: overwrites the entry holding `k`, or appends one.
fn put(entries: &mut Vec<(Id, Amount)>, k: Id, a: Amount)
    requires
        unique_keys(old(entries)@),
    ensures
        unique_keys(final(entries)@),
        entries_map(final(entries)@) == entries_map(old(entries)@).insert(k, a.0),
{
    let n = entries.len();
    let mut i: usize = 0;
    while i < n
        invariant
            unique_keys(entries@),
            entries@ == old(entries)@,
            n == entries@.len(),
            0 <= i <= n,
            forall|j: int| 0 <= j < i ==> entries@[j].0 != k,
        decreases n - i,
    {
        if entries[i].0 == k {
            entries[i] = (k, a);
            proof {
                lemma_entries_map_update(old(entries)@, i as int, k, a);
            }
            return ;
        }
        i = i + 1;
    }
    entries.push((k, a));
    proof {
        lemma_entries_map_push(old(entries)@, k, a);
    }
}

/// The balance map, account identity to balance. An owned value: an
/// application that shares it across tasks puts it behind its own lock.
#[derive(Debug)]
pub struct Ledger {
    entries: Vec<(Id, Amount)>,
}

impl View for Ledger {
    type V = Map<Id, i64>;

    closed spec fn view(&self) -> Map<Id, i64> {
        entries_map(self.entries@)
    }
}

impl Ledger {
    #[verifier::type_invariant]
    spec fn wf(self) -> bool {
        unique_keys(self.entries@)
    }

    /// An empty ledger: every account holds zero.
    pub fn new() -> (r: Ledger)
        ensures
            r@ == Map::<Id, i64>::empty(),
    {
        let r = Ledger { entries: Vec::new() };
        proof {
            assert(r@ =~= Map::<Id, i64>::empty());
        }
        r
    }

    /// How many accounts hold an explicit entry.
    pub fn len(&self) -> (r: usize)
        ensures
            r == self@.dom().len(),
    {
        proof {
            use_type_invariant(&*self);
            lemma_entries_map_len(self.entries@);
        }
        self.entries.len()
    }

    /// The explicit balance of `id`; `None` means zero by the caller's
    /// convention, not enforced here.
    pub fn get(&self, id: &Id) -> (r: Option<Amount>)
        ensures
            r == if self@.dom().contains(*id) {
                Some(Amount(self@[*id]))
            } else {
                None::<Amount>
            },
    {
        proof {
            use_type_invariant(&*self);
        }
        let n = self.entries.len();
        let mut i: usize = 0;
        while i < n
            invariant
                unique_keys(self.entries@),
                n == self.entries@.len(),
                0 <= i <= n,
                forall|j: int| 0 <= j < i ==> self.entries@[j].0 != *id,
            decreases n - i,
        {
            if self.entries[i].0 == *id {
                proof {
                    lemma_entries_map_val(self.entries@, i as int);
                }
                return Some(self.entries[i].1);
            }
            i = i + 1;
        }
        proof {
            lemma_entries_map_dom(self.entries@);
        }
        None
    }

    /// Applies one transaction: debits the sender (from zero when
    /// absent), then credits the recipient's updated balance, wrapping on
    /// overflow. Always succeeds; balances may go negative; a transfer to
    /// oneself nets to zero.
    pub fn update(&mut self, trx: &AccountTransaction)
        ensures
            final(self)@ == spec_ledger_update(old(self)@, *trx),
    {
        proof {
            use_type_invariant(&*self);
        }
        let fa = match self.get(&trx.from) {
            Some(a) => a.0,
            None => 0i64,
        };
        let ta = match self.get(&trx.to) {
            Some(a) => a.0,
            None => 0i64,
        };
        let debited = Amount(fa).wrapping_sub(trx.amount);
        let credit_base = if trx.to == trx.from {
            debited
        } else {
            Amount(ta)
        };
        let mut entries: Vec<(Id, Amount)> = Vec::new();
        core::mem::swap(&mut entries, &mut self.entries);
        put(&mut entries, trx.from, debited);
        put(&mut entries, trx.to, credit_base.wrapping_add(trx.amount));
        core::mem::swap(&mut entries, &mut self.entries);
        proof {
            assert(self@ =~= spec_ledger_update(old(self)@, *trx));
        }
    }
}

impl Clone for Ledger {
    /// A clone holds the same balances.
    fn clone(&self) -> (r: Ledger)
        ensures
            r@ == self@,
    {
        proof {
            use_type_invariant(&*self);
        }
        let n = self.entries.len();
        let mut entries: Vec<(Id, Amount)> = Vec::new();
        let mut i: usize = 0;
        while i < n
            invariant
                n == self.entries@.len(),
                0 <= i <= n,
                entries@ == self.entries@.subrange(0, i as int),
            decreases n - i,
        {
            entries.push(self.entries[i]);
            proof {
                assert(entries@ =~= self.entries@.subrange(0, i + 1));
            }
            i = i + 1;
        }
        proof {
            assert(entries@ =~= self.entries@);
        }
        Ledger { entries }
    }
}

impl PartialEq for Ledger {
    /// Two ledgers are equal when they are the same balance map: same
    /// size and every entry matches.
    fn eq(&self, other: &Ledger) -> (r: bool) {
        proof {
            use_type_invariant(&*self);
            use_type_invariant(&*other);
            lemma_entries_map_len(self.entries@);
            lemma_entries_map_len(other.entries@);
        }
        if self.entries.len() != other.entries.len() {
            proof {
                assert(self@ != other@) by {
                    if self@ == other@ {
                        assert(self@.dom() =~= other@.dom());
                    }
                }
            }
            return false;
        }
        let n = self.entries.len();
        let mut i: usize = 0;
        while i < n
            invariant
                unique_keys(self.entries@),
                unique_keys(other.entries@),
                n == self.entries@.len(),
                0 <= i <= n,
                forall|j: int|
                    0 <= j < i ==> other@.dom().contains(self.entries@[j].0) && other@[self.entries@[j].0]
                        == self.entries@[j].1.0,
            decreases n - i,
        {
            let k = self.entries[i].0;
            let a = self.entries[i].1;
            proof {
                lemma_entries_map_val(self.entries@, i as int);
            }
            match other.get(&k) {
                Some(b) => {
                    if b.0 != a.0 {
                        proof {
                            assert(self@[k] == a.0 && other@[k] == b.0);
                        }
                        return false;
                    }
                },
                None => {
                    proof {
                        assert(self@.dom().contains(k) && !other@.dom().contains(k));
                        assert(self@ != other@) by {
                            if self@ == other@ {
                                assert(self@.dom() =~= other@.dom());
                            }
                        }
                    }
                    return false;
                },
            }
            i = i + 1;
        }
        proof {
            lemma_entries_map_dom(self.entries@);
            lemma_entries_map_len(self.entries@);
            lemma_entries_map_len(other.entries@);
            assert forall|k: Id| self@.dom().contains(k) implies other@.dom().contains(k)
                && other@[k] == self@[k] by {
                let j = choose|j: int| 0 <= j < self.entries@.len() && self.entries@[j].0 == k;
                lemma_entries_map_val(self.entries@, j);
            }
            vstd::set_lib::lemma_subset_equality(self@.dom(), other@.dom());
            assert(self@ =~= other@);
        }
        true
    }
}

impl vstd::std_specs::cmp::PartialEqSpecImpl for Ledger {
    open spec fn obeys_eq_spec() -> bool {
        true
    }

    open spec fn eq_spec(&self, other: &Ledger) -> bool {
        self@ == other@
    }
}

// ------------------------------------------------------------------
// Laws of the ledger arithmetic.
// ------------------------------------------------------------------

/// A value brought back into the signed 64-bit range by one correction of
/// 2^64. Meaningful for values no further than one range width outside.
spec fn norm64(v: int) -> int {
    if v > i64::MAX {
        v - 0x1_0000_0000_0000_0000
    } else if v < i64::MIN {
        v + 0x1_0000_0000_0000_0000
    } else {
        v
    }
}

/// Wrapping addition is the normalized mathematical sum.
proof fn lemma_wrapping_add_is_norm(a: i64, b: i64)
    ensures
        i64_specs::wrapping_add(a, b) == norm64(a + b),
{
}

/// Wrapping subtraction is the normalized mathematical difference.
proof fn lemma_wrapping_sub_is_norm(a: i64, b: i64)
    ensures
        i64_specs::wrapping_sub(a, b) == norm64(a - b),
{
}

/// Normalizing after adding to an already-normalized value is the same as
/// normalizing the whole sum.
proof fn lemma_norm64_add(u: int, c: int)
    requires
        2 * i64::MIN <= u <= 2 * i64::MAX + 1,
        i64::MIN <= c <= i64::MAX + 1,
    ensures
        norm64(norm64(u) + c) == norm64(u + c),
{
}

/// What one transaction does to one account's balance: the net effect on
/// that account, wrapping on overflow. The debit and the credit of a
/// transfer to oneself cancel, so such a transfer leaves the balance as
/// it was.
pub open spec fn apply_to_balance(t: AccountTransaction, k: Id, b: i64) -> i64 {
    if t.from == k && t.to == k {
        b
    } else if t.from == k {
        i64_specs::wrapping_sub(b, t.amount.0)
    } else if t.to == k {
        i64_specs::wrapping_add(b, t.amount.0)
    } else {
        b
    }
}

/// The net delta a transaction applies to one account, before wrapping.
spec fn trx_delta(t: AccountTransaction, k: Id) -> int {
    if t.from == k && t.to == k {
        0
    } else if t.from == k {
        -(t.amount.0 as int)
    } else if t.to == k {
        t.amount.0 as int
    } else {
        0
    }
}

/// The balance change under `apply_to_balance` is the normalized delta.
proof fn lemma_apply_is_norm(t: AccountTransaction, k: Id, b: i64)
    ensures
        apply_to_balance(t, k, b) == norm64(b + trx_delta(t, k)),
{
}

/// A ledger update changes each balance by exactly the transaction's net
/// effect on that account: the sender is debited, the recipient credited,
/// everyone else untouched — and an absent account counts as zero.
pub proof fn lemma_update_balance(m: Map<Id, i64>, t: AccountTransaction, k: Id)
    ensures
        balance_of(spec_ledger_update(m, t), k) == apply_to_balance(t, k, balance_of(m, k)),
{
    if t.from == t.to && k == t.from {
        let b = balance_of(m, k);
        let a = t.amount.0;
        lemma_wrapping_sub_is_norm(b, a);
        lemma_wrapping_add_is_norm(i64_specs::wrapping_sub(b, a), a);
        lemma_norm64_add(b - a, a as int);
    }
}

/// Ledger arithmetic for a transfer between two distinct accounts: the
/// sender absent from the ledger starts from zero, loses the amount; the
/// recipient gains it; no other balance moves. There is no bound on the
/// resulting sign.
pub proof fn lemma_ledger_arithmetic(m: Map<Id, i64>, t: AccountTransaction)
    requires
        t.from != t.to,
    ensures
        balance_of(spec_ledger_update(m, t), t.from) == i64_specs::wrapping_sub(
            balance_of(m, t.from),
            t.amount.0,
        ),
        balance_of(spec_ledger_update(m, t), t.to) == i64_specs::wrapping_add(
            balance_of(m, t.to),
            t.amount.0,
        ),
        forall|k: Id|
            k != t.from && k != t.to ==> balance_of(spec_ledger_update(m, t), k) == balance_of(
                m,
                k,
            ),
        !m.dom().contains(t.from) ==> balance_of(m, t.from) == 0,
{
}

/// Convergence of replication: ledger updates commute, so two nodes that
/// apply the same set of transactions in different orders hold the same
/// balances.
#[verifier::rlimit(60)]
pub proof fn lemma_ledger_update_commutes(m: Map<Id, i64>, t1: AccountTransaction, t2: AccountTransaction)
    ensures
        spec_ledger_update(spec_ledger_update(m, t1), t2) == spec_ledger_update(
            spec_ledger_update(m, t2),
            t1,
        ),
{
    let m12 = spec_ledger_update(spec_ledger_update(m, t1), t2);
    let m21 = spec_ledger_update(spec_ledger_update(m, t2), t1);
    assert(m12.dom() =~= m21.dom());
    assert forall|k: Id| m12.dom().contains(k) implies m12[k] == m21[k] by {
        let b = balance_of(m, k);
        lemma_update_balance(m, t1, k);
        lemma_update_balance(spec_ledger_update(m, t1), t2, k);
        lemma_update_balance(m, t2, k);
        lemma_update_balance(spec_ledger_update(m, t2), t1, k);
        lemma_apply_is_norm(t1, k, b);
        lemma_apply_is_norm(t2, k, b);
        lemma_apply_is_norm(t2, k, apply_to_balance(t1, k, b));
        lemma_apply_is_norm(t1, k, apply_to_balance(t2, k, b));
        lemma_norm64_add(b + trx_delta(t1, k), trx_delta(t2, k));
        lemma_norm64_add(b + trx_delta(t2, k), trx_delta(t1, k));
        assert(balance_of(m12, k) == norm64(b + trx_delta(t1, k) + trx_delta(t2, k)));
        assert(balance_of(m21, k) == norm64(b + trx_delta(t2, k) + trx_delta(t1, k)));
        assert(b + trx_delta(t1, k) + trx_delta(t2, k) == b + trx_delta(t2, k) + trx_delta(t1, k));
    }
    assert(m12 =~= m21);
}


/// The ledger after a whole sequence of transactions, applied in order.
pub open spec fn apply_all(m: Map<Id, i64>, s: Seq<AccountTransaction>) -> Map<Id, i64>
    decreases s.len(),
{
    if s.len() == 0 {
        m
    } else {
        spec_ledger_update(apply_all(m, s.drop_last()), s.last())
    }
}

/// Any one transaction of a sequence may be applied last instead: the
/// ledger comes out the same.
proof fn lemma_apply_all_pull_out(m: Map<Id, i64>, s: Seq<AccountTransaction>, i: int)
    requires
        0 <= i < s.len(),
    ensures
        apply_all(m, s) == spec_ledger_update(apply_all(m, s.remove(i)), s[i]),
    decreases s.len(),
{
    if i == s.len() - 1 {
        assert(s.remove(i) =~= s.drop_last());
    } else {
        lemma_apply_all_pull_out(m, s.drop_last(), i);
        let a = apply_all(m, s.drop_last().remove(i));
        lemma_ledger_update_commutes(a, s[i], s.last());
        assert(s.remove(i).drop_last() =~= s.drop_last().remove(i));
        assert(s.remove(i).last() == s.last());
    }
}

/// Convergence of replication, in full: two nodes that admit the same
/// transactions — the same multiset, in whatever arrival order — hold the
/// same ledger.
pub proof fn lemma_apply_all_order_independent(
    m: Map<Id, i64>,
    s1: Seq<AccountTransaction>,
    s2: Seq<AccountTransaction>,
)
    requires
        s1.to_multiset() == s2.to_multiset(),
    ensures
        apply_all(m, s1) == apply_all(m, s2),
    decreases s1.len(),
{
    s1.to_multiset_ensures();
    s2.to_multiset_ensures();
    if s1.len() == 0 {
        assert(s2.len() == 0);
    } else {
        let t = s1.last();
        assert(s1.to_multiset().count(t) > 0) by {
            assert(s1.contains(t));
        }
        assert(s2.contains(t));
        let j = choose|j: int| 0 <= j < s2.len() && s2[j] == t;
        lemma_apply_all_pull_out(m, s2, j);
        assert(s1.drop_last().to_multiset() == s2.remove(j).to_multiset()) by {
            assert(s1 =~= s1.drop_last().push(t));
            s1.drop_last().to_multiset_ensures();
            assert(s1.to_multiset() == s1.drop_last().to_multiset().insert(t));
            assert(s2.remove(j).to_multiset() == s2.to_multiset().remove(t));
            assert(s1.drop_last().to_multiset() =~= s2.remove(j).to_multiset());
        }
        lemma_apply_all_order_independent(m, s1.drop_last(), s2.remove(j));
    }
}

} // verus!
