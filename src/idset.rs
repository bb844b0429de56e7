use vstd::prelude::*;

verus! {

/// A finite set of account identities, compared by exact string equality.
pub struct IdentitySet {
    items: Vec<String>,
}

impl View for IdentitySet {
    type V = Set<Seq<char>>;

    /// The identities in the set.
    closed spec fn view(&self) -> Set<Seq<char>> {
        Set::new(|id: Seq<char>| exists|i: int| 0 <= i < self.items@.len() && self.items@[i]@ == id)
    }
}

impl IdentitySet {
    /// No identity is stored twice.
    pub closed spec fn wf(&self) -> bool {
        forall|i: int, j: int|
            0 <= i < j < self.items@.len() ==> #[trigger] self.items@[i]@ != #[trigger] self.items@[j]@
    }

    /// An empty set.
    pub fn new() -> (r: IdentitySet)
        ensures
            r.wf(),
            r@ == Set::<Seq<char>>::empty(),
    {
        let r = IdentitySet { items: Vec::new() };
        assert(r@ =~= Set::<Seq<char>>::empty());
        r
    }

    fn position(&self, id: &String) -> (r: Option<usize>)
        ensures
            match r {
                Some(i) => i < self.items@.len() && self.items@[i as int]@ == id@,
                None => forall|i: int| 0 <= i < self.items@.len() ==> self.items@[i]@ != id@,
            },
    {
        let mut i: usize = 0;
        while i < self.items.len()
            invariant
                i <= self.items@.len(),
                forall|k: int| 0 <= k < i ==> self.items@[k]@ != id@,
            decreases self.items@.len() - i,
        {
            if self.items[i] == *id {
                return Some(i);
            }
            i = i + 1;
        }
        None
    }

    /// Whether `id` belongs to the set.
    pub fn contains(&self, id: &String) -> (r: bool)
        ensures
            r == self@.contains(id@),
    {
        match self.position(id) {
            Some(i) => {
                assert(self@.contains(self.items@[i as int]@));
                true
            },
            None => false,
        }
    }

    /// Adds `id`; adding a member changes nothing.
    pub fn insert(&mut self, id: String)
        requires
            old(self).wf(),
        ensures
            final(self).wf(),
            final(self)@ == old(self)@.insert(id@),
    {
        if self.position(&id).is_none() {
            let ghost before = self.items@;
            let ghost idv = id@;
            self.items.push(id);
            assert forall|x: Seq<char>| #[trigger] self@.contains(x) <==> old(self)@.insert(idv).contains(x) by {
                if x == idv {
                    assert(self.items@[before.len() as int]@ == x);
                } else if old(self)@.contains(x) {
                    let i = choose|i: int| 0 <= i < before.len() && before[i]@ == x;
                    assert(self.items@[i]@ == x);
                }
            }
            assert(self@ =~= old(self)@.insert(idv));
        } else {
            assert(self@ =~= old(self)@.insert(id@));
        }
    }

    /// Removes `id`; removing a non-member changes nothing.
    pub fn remove(&mut self, id: &String)
        requires
            old(self).wf(),
        ensures
            final(self).wf(),
            final(self)@ == old(self)@.remove(id@),
    {
        match self.position(id) {
            Some(p) => {
                let ghost before = self.items@;
                self.items.remove(p);
                assert forall|i: int, j: int|
                    0 <= i < j < self.items@.len() implies #[trigger] self.items@[i]@
                        != #[trigger] self.items@[j]@ by {
                    let bi = if i < p { i } else { i + 1 };
                    let bj = if j < p { j } else { j + 1 };
                    assert(self.items@[i] == before[bi]);
                    assert(self.items@[j] == before[bj]);
                }
                assert forall|x: Seq<char>| #[trigger] self@.contains(x) <==> old(self)@.remove(id@).contains(x) by {
                    if self@.contains(x) {
                        let i = choose|i: int| 0 <= i < self.items@.len() && self.items@[i]@ == x;
                        let bi = if i < p { i } else { i + 1 };
                        assert(self.items@[i] == before[bi]);
                        assert(bi != p);
                    }
                    if old(self)@.remove(id@).contains(x) {
                        let i = choose|i: int| 0 <= i < before.len() && before[i]@ == x;
                        assert(i != p);
                        let ni = if i < p { i } else { i - 1 };
                        assert(self.items@[ni] == before[i]);
                    }
                }
                assert(self@ =~= old(self)@.remove(id@));
            },
            None => {
                assert(self@ =~= old(self)@.remove(id@));
            },
        }
    }
}

} // verus!
