//! A small set of identifiers, kept in the order in which they came.

use vstd::prelude::*;

verus! {

#[derive(Clone, Debug)]
pub struct IdSet {
    /// The members, each once.
    pub ids: Vec<usize>,
}

impl View for IdSet {
    type V = Set<usize>;

    open spec fn view(&self) -> Set<usize> {
        self.ids@.to_set()
    }
}

/// The list with `id` at its end, unless the list holds it already.
pub open spec fn put_in(ids: Seq<usize>, id: usize) -> Seq<usize> {
    if ids.contains(id) {
        ids
    } else {
        ids.push(id)
    }
}

/// The list without its entry `id`, the others in their order. A list
/// that does not hold `id` is left as it is.
pub open spec fn taken_out(ids: Seq<usize>, id: usize) -> Seq<usize> {
    if ids.contains(id) {
        ids.remove(ids.index_of(id))
    } else {
        ids
    }
}

impl IdSet {
    pub open spec fn wf(&self) -> bool {
        self.ids@.no_duplicates()
    }

    pub fn new() -> (s: IdSet)
        ensures
            s.wf(),
            s@ == Set::<usize>::empty(),
            s.ids.len() == 0,
    {
        let s = IdSet { ids: Vec::new() };
        assert(s@ =~= Set::<usize>::empty());
        s
    }

    /// The position of `id` among the members, if it is one.
    pub fn position(&self, id: usize) -> (at: Option<usize>)
        ensures
            at is Some <==> self@.contains(id),
            at is Some ==> at.unwrap() < self.ids.len() && self.ids[at.unwrap() as int] == id,
    {
        let mut i: usize = 0;
        while i < self.ids.len()
            invariant
                i <= self.ids.len(),
                forall|j: int| 0 <= j < i ==> self.ids[j] != id,
            decreases self.ids.len() - i,
        {
            if self.ids[i] == id {
                assert(self.ids@.contains(id));
                return Some(i);
            }
            i += 1;
        }
        None
    }

    pub fn contains(&self, id: usize) -> (found: bool)
        ensures
            found == self@.contains(id),
    {
        self.position(id).is_some()
    }

    pub fn len(&self) -> (n: usize)
        requires
            self.wf(),
        ensures
            n == self@.len(),
            n == self.ids.len(),
    {
        proof {
            self.ids@.unique_seq_to_set();
        }
        self.ids.len()
    }

    /// Adds `id`. Adding a member changes nothing.
    pub fn insert(&mut self, id: usize)
        requires
            old(self).wf(),
        ensures
            final(self).wf(),
            final(self)@ == old(self)@.insert(id),
            final(self).ids@ == put_in(old(self).ids@, id),
            old(self)@.contains(id) ==> final(self).ids == old(self).ids,
    {
        let ghost before = self.ids@;
        if !self.contains(id) {
            self.ids.push(id);
            proof {
                before.lemma_push_to_set_commute(id);
                assert forall|i: int, j: int|
                    0 <= i < self.ids.len() && 0 <= j < self.ids.len() && i != j implies self.ids[i]
                    != self.ids[j] by {
                    if i == before.len() {
                        assert(before.contains(before[j]));
                    } else if j == before.len() {
                        assert(before.contains(before[i]));
                    }
                }
            }
        } else {
            assert(before.to_set().insert(id) =~= before.to_set());
        }
    }

    /// Takes `id` out. Taking out what is no member changes nothing.
    pub fn remove(&mut self, id: usize)
        requires
            old(self).wf(),
        ensures
            final(self).wf(),
            final(self)@ == old(self)@.remove(id),
            final(self).ids@ == taken_out(old(self).ids@, id),
            !old(self)@.contains(id) ==> final(self).ids == old(self).ids,
    {
        let ghost before = self.ids@;
        match self.position(id) {
            Some(at) => {
                self.ids.remove(at);
                proof {
                    let after = self.ids@;
                    assert(after == before.remove(at as int));
                    assert(before.contains(id));
                    assert(before[before.index_of(id)] == id);
                    assert(before.index_of(id) == at);
                    assert forall|x: usize| after.contains(x) <==> (before.contains(x) && x != id) by {
                        if after.contains(x) {
                            let j = choose|j: int| 0 <= j < after.len() && after[j] == x;
                            if j < at {
                                assert(before[j] == x);
                            } else {
                                assert(before[j + 1] == x);
                            }
                        }
                        if before.contains(x) && x != id {
                            let k = choose|k: int| 0 <= k < before.len() && before[k] == x;
                            if k < at {
                                assert(after[k] == x);
                            } else {
                                assert(after[k - 1] == x);
                            }
                        }
                    }
                    assert(self@ =~= old(self)@.remove(id));
                }
            },
            None => {
                assert(before.to_set().remove(id) =~= before.to_set());
            },
        }
    }
}

} // verus!
