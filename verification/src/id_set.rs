//! A finite set of identifiers.

use crate::id_map::{IdMap, IrID};
use vstd::prelude::*;

verus! {

/// A finite set of identifiers, kept in insertion order.
pub struct IdSet<K: IrID> {
    members: IdMap<K, ()>,
}

impl<K: IrID> View for IdSet<K> {
    type V = Set<K>;

    closed spec fn view(&self) -> Set<K> {
        self.members@.dom()
    }
}

impl<K: IrID> IdSet<K> {
    /// Well-formedness: no member is held twice.
    pub closed spec fn wf(&self) -> bool {
        self.members.wf()
    }

    /// The members in insertion order.
    pub closed spec fn order(&self) -> Seq<K> {
        self.members.key_order()
    }

    /// The empty set.
    pub fn new() -> (set: Self)
        ensures
            set.wf(),
            set@ == Set::<K>::empty(),
            set.order() == Seq::<K>::empty(),
    {
        let set = IdSet { members: IdMap::new() };
        assert(set@ =~= Set::<K>::empty());
        set
    }

    /// The number of members.
    pub fn len(&self) -> (len: usize)
        requires
            self.wf(),
        ensures
            len == self@.len(),
            self@.finite(),
    {
        self.members.len()
    }

    /// Whether `key` is a member.
    pub fn contains(&self, key: &K) -> (found: bool)
        ensures
            found == self@.contains(*key),
    {
        self.members.contains_key(key)
    }

    /// Adds `key`, and says whether it was new.
    pub fn insert(&mut self, key: K) -> (added: bool)
        requires
            old(self).wf(),
        ensures
            final(self).wf(),
            final(self)@ == old(self)@.insert(key),
            added == !old(self)@.contains(key),
            final(self).order() == (if added {
                old(self).order().push(key)
            } else {
                old(self).order()
            }),
    {
        let previous = self.members.insert(key, ());
        assert(self@ =~= old(self)@.insert(key));
        previous.is_none()
    }

    /// The members, in insertion order.
    pub fn to_vec(&self) -> (members: Vec<K>)
        requires
            self.wf(),
        ensures
            members@ == self.order(),
            members@.no_duplicates(),
            members@.to_set() == self@,
    {
        self.members.keys()
    }
}

impl<K: IrID> Clone for IdSet<K> {
    /// A copy with the same members in the same order.
    fn clone(&self) -> (copy: Self)
        ensures
            copy.wf() == self.wf(),
            copy@ == self@,
            copy.order() == self.order(),
    {
        IdSet { members: self.members.clone() }
    }
}

} // verus!
