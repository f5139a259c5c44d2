//! The pending-target registry: entities that have requested the pixelation
//! effect but whose pipeline has not been built yet.
//!
//! Entities are the host runtime's numeric identifiers. Registration is
//! idempotent; promotion removes exactly the given entities and is a no-op
//! for ones not present.

use vstd::prelude::*;

verus! {

/// The pending set after one entity is registered: unchanged if the entity
/// is already present, otherwise the entity is appended.
pub open spec fn registered(s: Seq<u64>, e: u64) -> Seq<u64> {
    if s.contains(e) {
        s
    } else {
        s.push(e)
    }
}

/// The pending set after all of `marked` are registered, in order.
pub open spec fn registered_all(s: Seq<u64>, marked: Seq<u64>) -> Seq<u64>
    decreases marked.len(),
{
    if marked.len() == 0 {
        s
    } else {
        registered(registered_all(s, marked.drop_last()), marked.last())
    }
}

/// The pending set after the entities of `batch` are promoted out of it:
/// every member of `batch` is removed, everything else stays, in order.
pub open spec fn promoted(s: Seq<u64>, batch: Seq<u64>) -> Seq<u64>
    decreases s.len(),
{
    if s.len() == 0 {
        Seq::empty()
    } else {
        promoted(s.drop_last(), batch) + (if batch.contains(s.last()) {
            Seq::<u64>::empty()
        } else {
            seq![s.last()]
        })
    }
}

/// Promotion removes exactly the members of `batch`: an entity stays pending
/// if and only if it was pending and was not promoted.
pub proof fn lemma_promoted_membership(s: Seq<u64>, batch: Seq<u64>, e: u64)
    ensures
        promoted(s, batch).contains(e) <==> (s.contains(e) && !batch.contains(e)),
    decreases s.len(),
{
    if s.len() == 0 {
    } else {
        lemma_promoted_membership(s.drop_last(), batch, e);
        assert(s.contains(e) <==> (s.drop_last().contains(e) || s.last() == e)) by {
            if s.contains(e) {
                let i = choose|i: int| 0 <= i < s.len() && s[i] == e;
                if i < s.len() - 1 {
                    assert(s.drop_last()[i] == e);
                }
            }
            if s.drop_last().contains(e) {
                let i = choose|i: int| 0 <= i < s.drop_last().len() && s.drop_last()[i] == e;
                assert(s[i] == e);
            }
        }
        let tail = if batch.contains(s.last()) {
            Seq::<u64>::empty()
        } else {
            seq![s.last()]
        };
        assert(promoted(s, batch) == promoted(s.drop_last(), batch) + tail);
        if promoted(s, batch).contains(e) {
            let i = choose|i: int| 0 <= i < promoted(s, batch).len() && promoted(s, batch)[i] == e;
            if i < promoted(s.drop_last(), batch).len() {
                assert(promoted(s.drop_last(), batch)[i] == e);
            } else {
                assert(tail[i - promoted(s.drop_last(), batch).len()] == e);
            }
        }
        if s.contains(e) && !batch.contains(e) {
            if s.last() == e {
                assert(promoted(s, batch)[promoted(s, batch).len() - 1] == e);
            } else {
                assert(promoted(s.drop_last(), batch).contains(e));
                let i = choose|i: int|
                    0 <= i < promoted(s.drop_last(), batch).len() && promoted(
                        s.drop_last(),
                        batch,
                    )[i] == e;
                assert(promoted(s, batch)[i] == e);
            }
        }
    }
}

/// Promotion keeps the pending set free of duplicates.
pub proof fn lemma_promoted_no_duplicates(s: Seq<u64>, batch: Seq<u64>)
    requires
        s.no_duplicates(),
    ensures
        promoted(s, batch).no_duplicates(),
    decreases s.len(),
{
    if s.len() == 0 {
    } else {
        assert(s.drop_last().no_duplicates());
        lemma_promoted_no_duplicates(s.drop_last(), batch);
        if !batch.contains(s.last()) {
            assert forall|i: int| 0 <= i < s.drop_last().len() implies s.drop_last()[i]
                != s.last() by {
                assert(s.drop_last()[i] == s[i]);
            }
            assert(!s.drop_last().contains(s.last()));
            lemma_promoted_membership(s.drop_last(), batch, s.last());
            let p = promoted(s.drop_last(), batch) + seq![s.last()];
            assert forall|i: int, j: int| 0 <= i < j < p.len() implies p[i] != p[j] by {
                if j < p.len() - 1 {
                    assert(promoted(s.drop_last(), batch)[i] != promoted(s.drop_last(), batch)[j]);
                } else {
                    assert(promoted(s.drop_last(), batch).contains(p[i])) by {
                        assert(promoted(s.drop_last(), batch)[i] == p[i]);
                    }
                }
            }
            assert(p.no_duplicates());
        }
    }
}

/// Idempotent registration: registering an entity that is already pending
/// changes nothing, so registering twice equals registering once, and the
/// pending set holds exactly one entry for the entity afterwards.
pub proof fn lemma_register_idempotent(s: Seq<u64>, e: u64)
    requires
        s.no_duplicates(),
    ensures
        registered(registered(s, e), e) == registered(s, e),
        registered(s, e).no_duplicates(),
        registered(s, e).contains(e),
{
    if !s.contains(e) {
        assert(registered(s, e) == s.push(e));
        assert(s.push(e)[s.len() as int] == e);
        assert(s.push(e).contains(e));
        assert forall|i: int, j: int| 0 <= i < j < s.push(e).len() implies s.push(e)[i] != s.push(
            e,
        )[j] by {
            if j == s.len() {
                assert(s.contains(s[i])) by {
                    assert(s[i] == s.push(e)[i]);
                }
            }
        }
    }
}

/// The set of entities that have requested pixelation but whose render
/// pipeline has not been built yet. Holds each entity at most once.
pub struct PendingSet {
    entities: Vec<u64>,
}

impl View for PendingSet {
    type V = Seq<u64>;

    closed spec fn view(&self) -> Seq<u64> {
        self.entities@
    }
}

impl PendingSet {
    /// The registry never holds an entity twice.
    pub closed spec fn wf(self) -> bool {
        self.entities@.no_duplicates()
    }

    pub fn new() -> (r: PendingSet)
        ensures
            r.wf(),
            r@ == Seq::<u64>::empty(),
    {
        PendingSet { entities: Vec::new() }
    }

    pub fn len(&self) -> (r: usize)
        ensures
            r == self@.len(),
    {
        self.entities.len()
    }

    /// The pending entity at position `i` of the registry's current order.
    pub fn entity_at(&self, i: usize) -> (r: u64)
        requires
            i < self@.len(),
        ensures
            r == self@[i as int],
    {
        self.entities[i]
    }

    pub fn contains(&self, e: u64) -> (r: bool)
        ensures
            r == self@.contains(e),
    {
        let mut i: usize = 0;
        while i < self.entities.len()
            invariant
                0 <= i <= self@.len(),
                forall|j: int| 0 <= j < i ==> self@[j] != e,
            decreases self@.len() - i,
        {
            if self.entities[i] == e {
                assert(self@.contains(e));
                return true;
            }
            i += 1;
        }
        false
    }

    /// Adds an entity to the pending set iff it is not already present.
    pub fn register(&mut self, e: u64)
        requires
            old(self).wf(),
        ensures
            final(self).wf(),
            final(self)@ == registered(old(self)@, e),
    {
        if !self.contains(e) {
            proof {
                lemma_register_idempotent(self@, e);
            }
            self.entities.push(e);
        }
    }

    /// Registers every entity of `marked`, in order; each registration is
    /// idempotent.
    pub fn register_all(&mut self, marked: &Vec<u64>)
        requires
            old(self).wf(),
        ensures
            final(self).wf(),
            final(self)@ == registered_all(old(self)@, marked@),
    {
        let mut i: usize = 0;
        while i < marked.len()
            invariant
                0 <= i <= marked@.len(),
                self.wf(),
                self@ == registered_all(old(self)@, marked@.subrange(0, i as int)),
            decreases marked@.len() - i,
        {
            let ghost prefix = marked@.subrange(0, i as int);
            self.register(marked[i]);
            proof {
                let next = marked@.subrange(0, i + 1 as int);
                assert(next.drop_last() == prefix);
                assert(next.last() == marked@[i as int]);
            }
            i += 1;
        }
        proof {
            assert(marked@.subrange(0, marked@.len() as int) == marked@);
        }
    }

    /// Removes exactly the entities of `batch` from the pending set; an
    /// entity of `batch` that is not pending is silently skipped.
    pub fn promote(&mut self, batch: &Vec<u64>)
        requires
            old(self).wf(),
        ensures
            final(self).wf(),
            final(self)@ == promoted(old(self)@, batch@),
    {
        let mut kept: Vec<u64> = Vec::new();
        let mut i: usize = 0;
        while i < self.entities.len()
            invariant
                0 <= i <= self@.len(),
                kept@ == promoted(self@.subrange(0, i as int), batch@),
                self@ == old(self)@,
            decreases self@.len() - i,
        {
            let ghost prefix = self@.subrange(0, i as int);
            let e = self.entities[i];
            let mut found = false;
            let mut j: usize = 0;
            while j < batch.len()
                invariant
                    0 <= j <= batch@.len(),
                    found <==> exists|k: int| 0 <= k < j && batch@[k] == e,
                decreases batch@.len() - j,
            {
                if batch[j] == e {
                    found = true;
                }
                j += 1;
            }
            assert(found <==> batch@.contains(e));
            if !found {
                kept.push(e);
            }
            proof {
                let next = self@.subrange(0, i + 1 as int);
                assert(next.drop_last() == prefix);
                assert(next.last() == e);
            }
            i += 1;
        }
        proof {
            assert(self@.subrange(0, self@.len() as int) == self@);
            lemma_promoted_no_duplicates(self@, batch@);
        }
        self.entities = kept;
    }
}

} // verus!
