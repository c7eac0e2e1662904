//! The decision core of the database's collection registry: which
//! collection names are live, each exactly once, and where a requested
//! name lives. The surrounding application keeps the shared collection
//! handles in a table keyed by the slot returned here, behind its
//! reader-writer lock, and derives each collection's file path with
//! `collection_file_name`.

use vstd::prelude::*;
use vstd::string::StringExecFns;
use crate::text::str_eq;

verus! {

pub struct Registry {
    names: Vec<String>,
}

impl View for Registry {
    type V = Seq<Seq<char>>;

    /// The registered names, in registration order.
    closed spec fn view(&self) -> Seq<Seq<char>> {
        self.names.deep_view()
    }
}

impl Registry {
    /// No name is registered twice: one live collection per name.
    pub open spec fn inv(&self) -> bool {
        forall|i: int, j: int| 0 <= i < j < self@.len() ==> self@[i] != self@[j]
    }

    /// An empty registry.
    pub fn new() -> (r: Registry)
        ensures
            r.inv(),
            r@ == Seq::<Seq<char>>::empty(),
    {
        let r = Registry { names: Vec::new() };
        assert(r@ =~= Seq::<Seq<char>>::empty());
        r
    }

    /// The slot of a registered name, if any.
    pub fn lookup(&self, name: &str) -> (r: Option<usize>)
        ensures
            match r {
                Some(i) => i < self@.len() && self@[i as int] == name@,
                None => forall|j: int| 0 <= j < self@.len() ==> self@[j] != name@,
            },
    {
        let mut i: usize = 0;
        let n = self.names.len();
        while i < n
            invariant
                n == self.names@.len(),
                i <= n,
                forall|j: int| 0 <= j < i ==> self@[j] != name@,
            decreases n - i,
        {
            assert(self@[i as int] == self.names@[i as int]@);
            if str_eq(self.names[i].as_str(), name) {
                return Some(i);
            }
            i += 1;
        }
        None
    }

    /// The slot of a name, registering it first when it is new. The
    /// double-checked creation path of the registry collapses to this
    /// one decision; the flag says whether a collection must be opened.
    pub fn find_or_create(&mut self, name: &str) -> (r: (usize, bool))
        requires
            old(self).inv(),
        ensures
            final(self).inv(),
            r.0 < final(self)@.len(),
            final(self)@[r.0 as int] == name@,
            r.1 ==> final(self)@ == old(self)@.push(name@) && r.0 == old(self)@.len(),
            !r.1 ==> final(self)@ == old(self)@,
    {
        match self.lookup(name) {
            Some(i) => (i, false),
            None => {
                let ghost pre = self@;
                let slot = self.names.len();
                self.names.push(name.to_owned());
                assert(self@ =~= pre.push(name@));
                (slot, true)
            },
        }
    }
}

/// One live collection per name: a registry that satisfies its
/// invariant never holds the same name in two slots, so every caller
/// asking for a name is pointed at the same slot, hence the same
/// underlying collection.
pub proof fn law_one_slot_per_name(r: &Registry, i: int, j: int)
    requires
        r.inv(),
        0 <= i < r@.len(),
        0 <= j < r@.len(),
        r@[i] == r@[j],
    ensures
        i == j,
{
}

/// The name of the file that durably represents a collection, under the
/// database's root directory.
pub fn collection_file_name(name: &str) -> (r: String)
    ensures
        r@ == name@ + ".col"@,
{
    let mut s: String = name.to_owned();
    s.append(".col");
    s
}

} // verus!
