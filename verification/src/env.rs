use vstd::prelude::*;

verus! {

/// A mapping from variable names to integer values.
///
/// Used two ways: callers supply one to bind the free variables of an
/// expression before concrete evaluation, and synthesis returns one that
/// assigns an integer to every hole of the template.
#[derive(Debug)]
pub struct Env {
    names: Vec<String>,
    values: Vec<i64>,
}

/// `name` occurs in `names`.
spec fn names_contain(names: Seq<String>, name: Seq<char>) -> bool {
    exists|i: int| 0 <= i < names.len() && names[i]@ == name
}

/// The slot of `names` holding `name`.
spec fn slot_of(names: Seq<String>, name: Seq<char>) -> int {
    choose|i: int| 0 <= i < names.len() && names[i]@ == name
}

impl Env {
    /// One value per name, and no name listed twice.
    pub closed spec fn wf(self) -> bool {
        &&& self.names@.len() == self.values@.len()
        &&& forall|i: int, j: int|
            0 <= i < j < self.names@.len() ==> self.names@[i]@ != self.names@[j]@
    }

    /// `name` is bound here.
    pub closed spec fn spec_contains(self, name: Seq<char>) -> bool {
        names_contain(self.names@, name)
    }

    /// The slot holding `name`.
    pub closed spec fn index_of(self, name: Seq<char>) -> int {
        slot_of(self.names@, name)
    }
}

impl View for Env {
    type V = Map<Seq<char>, i64>;

    closed spec fn view(&self) -> Map<Seq<char>, i64> {
        Map::new(
            |name: Seq<char>| self.spec_contains(name),
            |name: Seq<char>| self.values@[self.index_of(name)],
        )
    }
}

impl Env {
    /// An empty environment.
    pub fn new() -> (r: Env)
        ensures
            r.wf(),
            r@ == Map::<Seq<char>, i64>::empty(),
    {
        let r = Env { names: Vec::new(), values: Vec::new() };
        proof {
            assert(r@ =~= Map::<Seq<char>, i64>::empty());
        }
        r
    }

    /// The value bound to `name`, if any.
    pub fn get(&self, name: &str) -> (r: Option<i64>)
        requires
            self.wf(),
        ensures
            r == if self@.contains_key(name@) {
                Some(self@[name@])
            } else {
                None::<i64>
            },
    {
        let owned: String = name.to_owned();
        let n = self.names.len();
        for i in 0..n
            invariant
                self.wf(),
                n == self.names@.len(),
                owned@ == name@,
                forall|j: int| 0 <= j < i ==> self.names@[j]@ != name@,
        {
            if self.names[i] == owned {
                proof {
                    assert(self.spec_contains(name@));
                    let k = self.index_of(name@);
                    assert(self.names@[k]@ == name@);
                    assert(k == i);
                }
                return Some(self.values[i]);
            }
        }
        assert(!self.spec_contains(name@));
        None
    }

    /// Bind `name` to `value`, replacing any previous binding.
    pub fn insert(&mut self, name: &str, value: i64)
        requires
            old(self).wf(),
        ensures
            final(self).wf(),
            final(self)@ == old(self)@.insert(name@, value),
    {
        let ghost pre = *old(self);
        let owned: String = name.to_owned();
        let n = self.names.len();
        for i in 0..n
            invariant
                *self == pre,
                pre == *old(self),
                pre.wf(),
                self.wf(),
                n == self.names@.len(),
                owned@ == name@,
                forall|j: int| 0 <= j < i ==> self.names@[j]@ != name@,
        {
            if self.names[i] == owned {
                self.values.set(i, value);
                proof {
                    assert(self@ =~= pre@.insert(name@, value)) by {
                        assert(self.names@ == pre.names@);
                        assert(self.spec_contains(name@));
                        assert(self.index_of(name@) == i);
                        assert(forall|k: Seq<char>| #[trigger] pre.spec_contains(k) && k != name@
                            ==> self.index_of(k) == pre.index_of(k) && self.index_of(k) != i);
                    }
                }
                return;
            }
        }
        self.names.push(owned);
        self.values.push(value);
        proof {
            assert(self.names@[n as int]@ == name@);
            assert(forall|j: int| 0 <= j < n ==> self.names@[j] == pre.names@[j]);
            assert(self@ =~= pre@.insert(name@, value)) by {
                assert(self.spec_contains(name@));
                assert(self.index_of(name@) == n);
                assert(forall|k: Seq<char>| #[trigger] pre.spec_contains(k)
                    ==> self.spec_contains(k));
                assert(forall|k: Seq<char>| #[trigger] self.spec_contains(k) && k != name@
                    ==> pre.spec_contains(k) && self.index_of(k) == pre.index_of(k));
            }
        }
    }
}

impl Default for Env {
    fn default() -> (r: Env)
        ensures
            r.wf(),
            r@ == Map::<Seq<char>, i64>::empty(),
    {
        Env::new()
    }
}

} // verus!
