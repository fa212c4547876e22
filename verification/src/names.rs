//! Sets of names.

use vstd::hash_set::StringHashSet;
use vstd::prelude::*;

use crate::order::lemma_push_contains;
use crate::text::texts;

verus! {

/// A set of names.
pub struct Names {
    set: StringHashSet,
}

impl View for Names {
    type V = Set<Seq<char>>;

    closed spec fn view(&self) -> Set<Seq<char>> {
        self.set@
    }
}

impl Names {
    #[verifier::type_invariant]
    spec fn inv(self) -> bool {
        self.set@.finite()
    }

    /// No names.
    pub fn new() -> (s: Self)
        ensures
            s@ == Set::<Seq<char>>::empty(),
    {
        Names { set: StringHashSet::new() }
    }

    /// How many names there are.
    pub fn len(&self) -> (n: usize)
        ensures
            n == self@.len(),
            self@.finite(),
    {
        proof {
            use_type_invariant(self);
        }
        self.set.len()
    }

    /// Adds a name and tells whether it is a new one.
    pub fn insert(&mut self, name: String) -> (fresh: bool)
        ensures
            final(self)@ == old(self)@.insert(name@),
            fresh == !old(self)@.contains(name@),
    {
        proof {
            use_type_invariant(&*self);
        }
        let mut set = StringHashSet::new();
        std::mem::swap(&mut set, &mut self.set);
        let fresh = set.insert(name);
        self.set = set;
        fresh
    }

    /// Whether the name is in the set.
    pub fn contains(&self, name: &str) -> (r: bool)
        ensures
            r == self@.contains(name@),
    {
        self.set.contains(name)
    }

    /// The names in a list.
    pub fn of(names: &Vec<String>) -> (s: Self)
        ensures
            s@ == texts(names@).to_set(),
    {
        let ghost all = texts(names@);
        let mut s = Names::new();
        let mut i: usize = 0;
        assert(all.take(0).to_set() =~= Set::<Seq<char>>::empty());
        while i < names.len()
            invariant
                all == texts(names@),
                i <= names@.len(),
                s@ == all.take(i as int).to_set(),
            decreases names@.len() - i,
        {
            s.insert(names[i].clone());
            proof {
                assert(all.take(i + 1) =~= all.take(i as int).push(all[i as int]));
                assert forall|x: Seq<char>| s@.contains(x) == all.take(i + 1).to_set().contains(
                    x,
                ) by {
                    lemma_push_contains(all.take(i as int), all[i as int], x);
                }
                assert(s@ =~= all.take(i + 1).to_set());
            }
            i += 1;
        }
        assert(all.take(all.len() as int) =~= all);
        s
    }
}

} // verus!
