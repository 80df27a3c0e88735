//! The identity allocator: issues small integer identifiers to execution
//! contexts and reclaims them on release. An identifier is always the
//! smallest slot index not currently in use, so a pool of `n` concurrently
//! live contexts never sees an identifier at or above `n`.

use vstd::prelude::*;

verus! {

/// Slot `i` currently backs a live lease.
pub open spec fn live(s: Seq<bool>, i: int) -> bool {
    0 <= i < s.len() && s[i]
}

/// The smallest slot index not currently in use (the sequence's length when
/// every slot is in use).
pub open spec fn min_free(s: Seq<bool>) -> nat
    decreases s.len(),
{
    if s.len() > 0 && s[0] {
        1 + min_free(s.drop_first())
    } else {
        0
    }
}

/// Marks slot `i` in use, growing the sequence by one slot when `i` is its
/// length.
pub open spec fn mark(s: Seq<bool>, i: nat) -> Seq<bool> {
    if i < s.len() {
        s.update(i as int, true)
    } else {
        s.push(true)
    }
}

/// `min_free` names a free slot no later than the length, with every slot
/// below it in use.
pub proof fn lemma_min_free_bounds(s: Seq<bool>)
    ensures
        min_free(s) <= s.len(),
        forall|j: int| 0 <= j < min_free(s) ==> s[j],
        min_free(s) < s.len() ==> !s[min_free(s) as int],
    decreases s.len(),
{
    if s.len() > 0 && s[0] {
        lemma_min_free_bounds(s.drop_first());
        assert forall|j: int| 0 <= j < min_free(s) implies s[j] by {
            if j > 0 {
                assert(s.drop_first()[j - 1]);
            }
        }
        if min_free(s) < s.len() {
            assert(!s.drop_first()[min_free(s) - 1]);
        }
    }
}

/// No index other than `min_free` satisfies its characterization.
pub proof fn lemma_min_free_unique(s: Seq<bool>, k: nat)
    requires
        k <= s.len(),
        forall|j: int| 0 <= j < k ==> s[j],
        k < s.len() ==> !s[k as int],
    ensures
        k == min_free(s),
    decreases s.len(),
{
    if s.len() > 0 && s[0] {
        assert(k > 0);
        assert forall|j: int| 0 <= j < k - 1 implies s.drop_first()[j] by {
            assert(s[j + 1]);
        }
        lemma_min_free_unique(s.drop_first(), (k - 1) as nat);
    } else {
        if k > 0 {
            assert(s[0]);
        }
    }
}

/// A scoped lease on one allocator slot: the exclusive right to that slot's
/// index until the lease is released.
pub struct IdBorrow {
    id: usize,
}

impl View for IdBorrow {
    type V = usize;

    closed spec fn view(&self) -> usize {
        self.id
    }
}

impl IdBorrow {
    /// The identifier held by this lease; stable over the lease's lifetime.
    pub fn id(&self) -> (r: usize)
        ensures
            r == self@,
    {
        self.id
    }
}

/// The allocator's state: one "in use" flag per slot.
pub struct IdStorage {
    slots: Vec<bool>,
}

impl View for IdStorage {
    type V = Seq<bool>;

    closed spec fn view(&self) -> Seq<bool> {
        self.slots@
    }
}

impl IdStorage {
    /// An allocator with no slots yet.
    pub fn new() -> (r: IdStorage)
        ensures
            r@ == Seq::<bool>::empty(),
    {
        IdStorage { slots: Vec::new() }
    }

    /// Issues a lease on the smallest slot not currently in use, marking it
    /// in use (and growing the slot table when every slot was in use).
    pub fn gen(&mut self) -> (r: IdBorrow)
        ensures
            r@ == min_free(old(self)@),
            final(self)@ == mark(old(self)@, min_free(old(self)@)),
            !live(old(self)@, r@ as int),
            live(final(self)@, r@ as int),
    {
        let n = self.slots.len();
        let mut k: usize = 0;
        while k < n && self.slots[k]
            invariant
                k <= n,
                n == self.slots@.len(),
                forall|j: int| 0 <= j < k ==> self.slots@[j],
            decreases n - k,
        {
            k = k + 1;
        }
        proof {
            lemma_min_free_unique(self.slots@, k as nat);
            lemma_min_free_bounds(self.slots@);
        }
        if k == n {
            self.slots.push(true);
        } else {
            self.slots.set(k, true);
        }
        IdBorrow { id: k }
    }

    /// Releases a lease, clearing its slot for reuse by a later `gen`.
    pub fn release(&mut self, b: IdBorrow)
        requires
            b@ < old(self)@.len(),
        ensures
            final(self)@ == old(self)@.update(b@ as int, false),
    {
        self.slots.set(b.id, false);
    }
}

/// How many slots currently back a live lease.
pub open spec fn live_count(s: Seq<bool>) -> nat
    decreases s.len(),
{
    if s.len() == 0 {
        0
    } else {
        (if s[0] {
            1nat
        } else {
            0nat
        }) + live_count(s.drop_first())
    }
}

/// An issued identifier never reaches the number of live leases: a pool of
/// `n` concurrently live contexts never sees an identifier at or above
/// `n`, however many contexts have come and gone.
pub proof fn lemma_id_below_live_count(s: Seq<bool>)
    ensures
        min_free(s) <= live_count(s),
    decreases s.len(),
{
    if s.len() > 0 && s[0] {
        lemma_id_below_live_count(s.drop_first());
    }
}

/// An issued identifier is fresh and minimal: it is not held by any live
/// lease, and every smaller identifier is held by one.
pub proof fn lemma_issue_fresh_minimal(s: Seq<bool>)
    ensures
        !live(s, min_free(s) as int),
        forall|j: int| live(s, j) ==> j != min_free(s),
        forall|j: int| 0 <= j < min_free(s) ==> live(s, j),
{
    lemma_min_free_bounds(s);
}

/// Two leases issued without an intervening release hold distinct
/// identifiers.
pub proof fn lemma_two_leases_distinct(s: Seq<bool>)
    ensures
        min_free(mark(s, min_free(s))) != min_free(s),
{
    let m = mark(s, min_free(s));
    lemma_min_free_bounds(s);
    lemma_min_free_bounds(m);
    assert(live(m, min_free(s) as int));
    if min_free(m) < m.len() {
        assert(!m[min_free(m) as int]);
    }
}

/// Releasing the lease just issued restores the allocator to a state whose
/// next issue is the same identifier again: compact, deterministic reuse.
pub proof fn lemma_release_reuses(s: Seq<bool>)
    ensures
        min_free(mark(s, min_free(s)).update(min_free(s) as int, false)) == min_free(s),
{
    let m = mark(s, min_free(s));
    let c = m.update(min_free(s) as int, false);
    lemma_min_free_bounds(s);
    assert forall|j: int| 0 <= j < min_free(s) implies c[j] by {
        assert(s[j]);
    }
    lemma_min_free_unique(c, min_free(s));
}

} // verus!
