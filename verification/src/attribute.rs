//! Attributes: their values, their owners, and how they are deleted.

use crate::concept::AttributeType;
use crate::encoding::ValueType;
use crate::parameters::{Value, ValueView};
use crate::thing::{
    read_of, AttributeVertex, ConceptReadError, ConceptWriteError, Object, Ownership, ThingManager,
};
use vstd::prelude::*;

verus! {

/// Whether a concept is new, stored, put or deleted in a transaction.
#[derive(Debug, Clone, Copy, PartialEq, Eq, Structural)]
pub enum ConceptStatus {
    Inserted,
    Persisted,
    Put,
    Deleted,
}

/// Whether an ownership is one of the given attribute.
pub open spec fn of_attribute(vertex: AttributeVertex) -> spec_fn(Ownership) -> bool {
    |ownership: Ownership| ownership.1 == vertex
}

/// Whether an ownership is not one of the given attribute.
pub open spec fn of_other_attribute(vertex: AttributeVertex) -> spec_fn(Ownership) -> bool {
    |ownership: Ownership| ownership.1 != vertex
}

/// Whether an ownership is not that of the given attribute by the given
/// owner.
pub open spec fn not_owned_by(owner: Object, vertex: AttributeVertex) -> spec_fn(Ownership) -> bool {
    |ownership: Ownership| !(ownership.0 == owner && ownership.1 == vertex)
}

/// Whether an entry of the stored attributes is not the given attribute.
pub open spec fn other_attribute(vertex: AttributeVertex) -> spec_fn((AttributeVertex, Value)) -> bool {
    |entry: (AttributeVertex, Value)| entry.0 != vertex
}

/// What the stored attributes hold: each attribute with what its value
/// holds.
pub open spec fn attribute_views(attributes: Seq<(AttributeVertex, Value)>) -> Seq<
    (AttributeVertex, ValueView),
> {
    attributes.map_values(|entry: (AttributeVertex, Value)| (entry.0, entry.1@))
}

/// The owner of an ownership, and how often it owns the attribute.
pub open spec fn owner_and_count(ownership: Ownership) -> (Object, u64) {
    (ownership.0, ownership.2)
}

/// The owners of an attribute, each with the number of its ownerships, in
/// the order in which the ownerships are stored.
pub open spec fn owners_of(ownerships: Seq<Ownership>, vertex: AttributeVertex) -> Seq<
    (Object, u64),
> {
    ownerships.filter(of_attribute(vertex)).map_values(
        |ownership: Ownership| owner_and_count(ownership),
    )
}

/// The value that is stored for an attribute: that of the first entry for
/// it.
pub open spec fn stored_value(attributes: Seq<(AttributeVertex, Value)>, vertex: AttributeVertex)
    -> Option<ValueView>
    decreases attributes.len(),
{
    if attributes.len() == 0 {
        None
    } else {
        match stored_value(attributes.drop_last(), vertex) {
            Some(value) => Some(value),
            None => if attributes.last().0 == vertex {
                Some(attributes.last().1@)
            } else {
                None
            },
        }
    }
}

/// What reading the value of an attribute comes to: the failure of the
/// read; else the stored value; else the failure that the value is missing.
pub open spec fn value_read(thing_manager: ThingManager, vertex: AttributeVertex) -> Result<
    ValueView,
    ConceptReadError,
> {
    match thing_manager.read_fault {
        Some(error) => Err(error),
        None => match stored_value(thing_manager.attributes@, vertex) {
            Some(value) => Ok(value),
            None => Err(ConceptReadError::CorruptMissingMandatoryValue),
        },
    }
}

/// A value that is found in a prefix of the attributes is the value that is
/// found in all of them.
proof fn lemma_stored_value_extends(
    attributes: Seq<(AttributeVertex, Value)>,
    upto: int,
    vertex: AttributeVertex,
)
    requires
        0 <= upto <= attributes.len(),
        stored_value(attributes.take(upto), vertex) is Some,
    ensures
        stored_value(attributes, vertex) == stored_value(attributes.take(upto), vertex),
    decreases attributes.len() - upto,
{
    if upto < attributes.len() {
        let next = attributes.take(upto + 1);
        assert(next.drop_last() =~= attributes.take(upto));
        lemma_stored_value_extends(attributes, upto + 1, vertex);
    } else {
        assert(attributes.take(upto) =~= attributes);
    }
}

/// Filtering twice is filtering by both tests.
proof fn lemma_filter_twice<T>(
    items: Seq<T>,
    first: spec_fn(T) -> bool,
    second: spec_fn(T) -> bool,
    both: spec_fn(T) -> bool,
)
    requires
        forall|item: T| #[trigger] both(item) == (first(item) && second(item)),
    ensures
        items.filter(first).filter(second) == items.filter(both),
    decreases items.len(),
{
    reveal(Seq::filter);
    if items.len() > 0 {
        let front = items.drop_last();
        let last = items.last();
        lemma_filter_twice(front, first, second, both);
        let once = front.filter(first);
        assert(both(last) == (first(last) && second(last)));
        if first(last) {
            assert(once.push(last).drop_last() =~= once);
        }
    } else {
        assert(items.filter(first) =~= Seq::<T>::empty());
    }
}

/// Filtering by a test that every item passes changes nothing.
proof fn lemma_filter_all<T>(items: Seq<T>, test: spec_fn(T) -> bool)
    requires
        forall|i: int| 0 <= i < items.len() ==> test(#[trigger] items[i]),
    ensures
        items.filter(test) == items,
    decreases items.len(),
{
    reveal(Seq::filter);
    if items.len() > 0 {
        let front = items.drop_last();
        assert forall|i: int| 0 <= i < front.len() implies test(#[trigger] front[i]) by {
            assert(front[i] == items[i]);
        }
        lemma_filter_all(front, test);
        assert(items[items.len() - 1] == items.last());
        assert(front.push(items.last()) =~= items);
    }
}

impl ThingManager {
    /// Reads the value of an attribute. See [`value_read`].
    pub fn get_attribute_value(&self, vertex: AttributeVertex) -> (result: Result<
        Value,
        ConceptReadError,
    >)
        ensures
            match result {
                Ok(value) => value_read(*self, vertex) == Ok::<_, ConceptReadError>(value@),
                Err(error) => value_read(*self, vertex) == Err::<ValueView, _>(error),
            },
    {
        if let Some(error) = self.read_fault {
            return Err(error);
        }
        let mut index: usize = 0;
        while index < self.attributes.len()
            invariant
                index <= self.attributes@.len(),
                self.read_fault is None,
                stored_value(self.attributes@.take(index as int), vertex) is None,
            decreases self.attributes@.len() - index,
        {
            proof {
                let upto = self.attributes@.take(index + 1);
                assert(upto.drop_last() =~= self.attributes@.take(index as int));
                assert(upto.last() == self.attributes@[index as int]);
            }
            if self.attributes[index].0 == vertex {
                proof {
                    lemma_stored_value_extends(self.attributes@, index + 1, vertex);
                }
                return Ok(self.attributes[index].1.clone());
            }
            index += 1;
        }
        proof {
            assert(self.attributes@.take(index as int) =~= self.attributes@);
        }
        Err(ConceptReadError::CorruptMissingMandatoryValue)
    }

    /// The ownerships of an attribute, in the order in which they are
    /// stored.
    fn ownerships_of(&self, vertex: AttributeVertex) -> (found: Vec<(Object, u64)>)
        ensures
            found@ == owners_of(self.ownerships@, vertex),
    {
        let ghost keep = of_attribute(vertex);
        let ghost project = |ownership: Ownership| owner_and_count(ownership);
        let mut found: Vec<(Object, u64)> = Vec::new();
        let mut index: usize = 0;
        while index < self.ownerships.len()
            invariant
                index <= self.ownerships@.len(),
                keep == of_attribute(vertex),
                project == |ownership: Ownership| owner_and_count(ownership),
                found@ == self.ownerships@.take(index as int).filter(keep).map_values(project),
            decreases self.ownerships@.len() - index,
        {
            let ownership = self.ownerships[index];
            proof {
                let upto = self.ownerships@.take(index + 1);
                assert(upto.drop_last() =~= self.ownerships@.take(index as int));
                assert(upto.last() == ownership);
                reveal(Seq::filter);
                let before = self.ownerships@.take(index as int).filter(keep);
                if keep(ownership) {
                    assert(before.push(ownership).map_values(project) =~= before.map_values(
                        project,
                    ).push(project(ownership)));
                }
            }
            if ownership.1 == vertex {
                found.push((ownership.0, ownership.2));
            }
            index += 1;
        }
        proof {
            assert(self.ownerships@.take(index as int) =~= self.ownerships@);
        }
        found
    }

    /// Whether an object owns the attribute.
    pub fn has_owners(&self, vertex: AttributeVertex) -> (owned: bool)
        ensures
            owned == (owners_of(self.ownerships@, vertex).len() > 0),
    {
        self.ownerships_of(vertex).len() > 0
    }

    /// Reads the owners of an attribute.
    pub fn get_owners_of(&self, vertex: AttributeVertex) -> (read: Vec<
        Result<(Object, u64), ConceptReadError>,
    >)
        ensures
            read@ == read_of(self.read_fault, owners_of(self.ownerships@, vertex)),
    {
        let found = self.ownerships_of(vertex);
        let mut read: Vec<Result<(Object, u64), ConceptReadError>> = Vec::new();
        match self.read_fault {
            Some(error) => {
                read.push(Err(error));
                assert(read@ =~= read_of(self.read_fault, found@));
            },
            None => {
                let ghost wrap = |item: (Object, u64)| Ok::<(Object, u64), ConceptReadError>(item);
                let mut index: usize = 0;
                while index < found.len()
                    invariant
                        index <= found@.len(),
                        wrap == |item: (Object, u64)| Ok::<(Object, u64), ConceptReadError>(item),
                        read@ == found@.take(index as int).map_values(wrap),
                    decreases found@.len() - index,
                {
                    read.push(Ok(found[index]));
                    proof {
                        assert(found@.take(index + 1).map_values(wrap) =~= found@.take(
                            index as int,
                        ).map_values(wrap).push(Ok(found@[index as int])));
                    }
                    index += 1;
                }
                proof {
                    assert(found@.take(index as int) =~= found@);
                }
            },
        }
        read
    }

    /// Takes away every ownership of the attribute by `owner`.
    pub fn delete_has_many(&mut self, owner: Object, vertex: AttributeVertex)
        ensures
            final(self).ownerships@ == old(self).ownerships@.filter(not_owned_by(owner, vertex)),
            final(self).attributes == old(self).attributes,
            final(self).relations == old(self).relations,
            final(self).links == old(self).links,
            final(self).read_fault == old(self).read_fault,
    {
        let ghost keep = not_owned_by(owner, vertex);
        let mut kept: Vec<Ownership> = Vec::new();
        let mut index: usize = 0;
        while index < self.ownerships.len()
            invariant
                index <= self.ownerships@.len(),
                keep == not_owned_by(owner, vertex),
                *self == *old(self),
                kept@ == self.ownerships@.take(index as int).filter(keep),
            decreases self.ownerships@.len() - index,
        {
            let ownership = self.ownerships[index];
            proof {
                let upto = self.ownerships@.take(index + 1);
                assert(upto.drop_last() =~= self.ownerships@.take(index as int));
                assert(upto.last() == ownership);
                reveal(Seq::filter);
            }
            if !(ownership.0 == owner && ownership.1 == vertex) {
                kept.push(ownership);
            }
            index += 1;
        }
        proof {
            assert(self.ownerships@.take(index as int) =~= self.ownerships@);
        }
        self.ownerships = kept;
    }

    /// Takes the attribute out of the stored attributes.
    pub fn delete_attribute(&mut self, vertex: AttributeVertex)
        ensures
            attribute_views(final(self).attributes@) == attribute_views(
                old(self).attributes@.filter(other_attribute(vertex)),
            ),
            final(self).ownerships == old(self).ownerships,
            final(self).relations == old(self).relations,
            final(self).links == old(self).links,
            final(self).read_fault == old(self).read_fault,
    {
        let ghost keep = other_attribute(vertex);
        let mut kept: Vec<(AttributeVertex, Value)> = Vec::new();
        let mut index: usize = 0;
        while index < self.attributes.len()
            invariant
                index <= self.attributes@.len(),
                keep == other_attribute(vertex),
                *self == *old(self),
                attribute_views(kept@) == attribute_views(
                    self.attributes@.take(index as int).filter(keep),
                ),
            decreases self.attributes@.len() - index,
        {
            let ghost before = kept@;
            proof {
                let upto = self.attributes@.take(index + 1);
                assert(upto.drop_last() =~= self.attributes@.take(index as int));
                assert(upto.last() == self.attributes@[index as int]);
                reveal(Seq::filter);
            }
            if self.attributes[index].0 != vertex {
                kept.push((self.attributes[index].0, self.attributes[index].1.clone()));
                proof {
                    let filtered = self.attributes@.take(index as int).filter(keep);
                    assert(attribute_views(kept@) =~= attribute_views(before).push(
                        (self.attributes@[index as int].0, self.attributes@[index as int].1@),
                    ));
                    assert(attribute_views(filtered.push(self.attributes@[index as int]))
                        =~= attribute_views(filtered).push(
                        (self.attributes@[index as int].0, self.attributes@[index as int].1@),
                    ));
                }
            }
            index += 1;
        }
        proof {
            assert(self.attributes@.take(index as int) =~= self.attributes@);
        }
        self.attributes = kept;
    }
}

/// An attribute, with its value once the value has been read. Two
/// attributes are equal if they are the same attribute, whether or not their
/// values have been read.
#[derive(Debug)]
pub struct Attribute {
    vertex: AttributeVertex,
    value: Option<Value>,
}

impl PartialEq for Attribute {
    fn eq(&self, other: &Self) -> (equal: bool) {
        self.vertex == other.vertex
    }
}

impl vstd::std_specs::cmp::PartialEqSpecImpl for Attribute {
    open spec fn obeys_eq_spec() -> bool {
        true
    }

    open spec fn eq_spec(&self, other: &Self) -> bool {
        self.spec_vertex() == other.spec_vertex()
    }
}

impl Attribute {
    /// The identity of the attribute.
    pub closed spec fn spec_vertex(&self) -> AttributeVertex {
        self.vertex
    }

    /// The value, once it has been read.
    pub closed spec fn cached(&self) -> Option<ValueView> {
        match self.value {
            Some(value) => Some(value@),
            None => None,
        }
    }

    /// The attribute of the given identity, with its value not yet read.
    pub fn new(vertex: AttributeVertex) -> (attribute: Attribute)
        ensures
            attribute.spec_vertex() == vertex,
            attribute.cached() is None,
    {
        Attribute { vertex, value: None }
    }

    /// The type of the attribute's value.
    pub fn value_type(&self) -> (value_type: ValueType)
        ensures
            value_type == self.spec_vertex().value_type,
    {
        self.vertex.value_type
    }

    /// The type of the attribute.
    pub fn type_(&self) -> (attribute_type: AttributeType)
        ensures
            attribute_type == self.spec_vertex().type_,
    {
        self.vertex.type_
    }

    /// The identity of the attribute among all instances.
    pub fn iid(&self) -> (iid: AttributeVertex)
        ensures
            iid == self.spec_vertex(),
    {
        self.vertex
    }

    /// The value of the attribute. It is read once and then kept; a failed
    /// read is not kept.
    pub fn value(&mut self, thing_manager: &ThingManager) -> (result: Result<
        Value,
        ConceptReadError,
    >)
        ensures
            final(self).spec_vertex() == old(self).spec_vertex(),
            match old(self).cached() {
                Some(value) => result matches Ok(read) && read@ == value && final(self).cached()
                    == old(self).cached(),
                None => match result {
                    Ok(read) => value_read(*thing_manager, old(self).spec_vertex()) == Ok::<
                        _,
                        ConceptReadError,
                    >(read@) && final(self).cached() == Some(read@),
                    Err(error) => value_read(*thing_manager, old(self).spec_vertex()) == Err::<
                        ValueView,
                        _,
                    >(error) && final(self).cached() is None,
                },
            },
    {
        if self.value.is_none() {
            let value = thing_manager.get_attribute_value(self.vertex)?;
            self.value = Some(value);
        }
        match &self.value {
            Some(value) => Ok(value.clone()),
            None => Err(ConceptReadError::CorruptMissingMandatoryValue),
        }
    }

    /// Whether an object owns the attribute.
    pub fn has_owners(&self, thing_manager: &ThingManager) -> (owned: bool)
        ensures
            owned == (owners_of(thing_manager.ownerships@, self.spec_vertex()).len() > 0),
    {
        match self.get_status(thing_manager) {
            ConceptStatus::Put => thing_manager.has_owners(self.vertex),
            ConceptStatus::Inserted | ConceptStatus::Persisted | ConceptStatus::Deleted => false,
        }
    }

    /// Reads the owners of the attribute.
    pub fn get_owners(&self, thing_manager: &ThingManager) -> (read: Vec<
        Result<(Object, u64), ConceptReadError>,
    >)
        ensures
            read@ == read_of(
                thing_manager.read_fault,
                owners_of(thing_manager.ownerships@, self.spec_vertex()),
            ),
    {
        thing_manager.get_owners_of(self.vertex)
    }

    /// The same attribute, with the value as far as it has been read.
    pub fn as_reference(&self) -> (attribute: Attribute)
        ensures
            attribute.spec_vertex() == self.spec_vertex(),
            attribute.cached() == self.cached(),
    {
        Attribute {
            vertex: self.vertex,
            value: match &self.value {
                Some(value) => Some(value.clone()),
                None => None,
            },
        }
    }

    /// The identity of the attribute.
    pub fn vertex(&self) -> (vertex: AttributeVertex)
        ensures
            vertex == self.spec_vertex(),
    {
        self.vertex
    }

    /// The identity of the attribute.
    pub fn into_vertex(self) -> (vertex: AttributeVertex)
        ensures
            vertex == self.spec_vertex(),
    {
        self.vertex
    }

    /// The same attribute, with its value not yet read.
    pub fn into_owned(self) -> (attribute: Attribute)
        ensures
            attribute.spec_vertex() == self.spec_vertex(),
            attribute.cached() is None,
    {
        Attribute::new(self.vertex)
    }

    /// Attributes are put, whatever the transaction has done to them.
    pub fn get_status(&self, thing_manager: &ThingManager) -> (status: ConceptStatus)
        ensures
            status == ConceptStatus::Put,
    {
        ConceptStatus::Put
    }

    /// The violations that the attribute is in: none.
    pub fn errors(&self, thing_manager: &ThingManager) -> (result: Result<
        Vec<ConceptWriteError>,
        ConceptReadError,
    >)
        ensures
            result matches Ok(found) && found@.len() == 0,
    {
        Ok(Vec::new())
    }

    /// Deletes the attribute.
    ///
    /// The owners are read first. Where that read fails, the delete fails
    /// with the failure of the read and changes nothing. Else every
    /// ownership of the attribute is taken away, and then the attribute
    /// itself.
    pub fn delete(self, thing_manager: &mut ThingManager) -> (result: Result<(), ConceptWriteError>)
        ensures
            match old(thing_manager).read_fault {
                Some(error) => result == Err::<(), _>(
                    ConceptWriteError::ConceptRead { source: error },
                ) && *final(thing_manager) == *old(thing_manager),
                None => {
                    &&& result is Ok
                    &&& final(thing_manager).ownerships@ == old(thing_manager).ownerships@.filter(
                        of_other_attribute(self.spec_vertex()),
                    )
                    &&& attribute_views(final(thing_manager).attributes@) == attribute_views(
                        old(thing_manager).attributes@.filter(
                            other_attribute(self.spec_vertex()),
                        ),
                    )
                    &&& final(thing_manager).relations == old(thing_manager).relations
                    &&& final(thing_manager).links == old(thing_manager).links
                    &&& final(thing_manager).read_fault == old(thing_manager).read_fault
                },
            },
    {
        let vertex = self.vertex;
        let owners = self.get_owners(thing_manager);
        let ghost before = thing_manager.ownerships@;
        let ghost listed = owners_of(before, vertex);
        let mut index: usize = 0;
        proof {
            lemma_filter_all(before, removed_upto(listed, 0, vertex));
        }
        while index < owners.len()
            invariant
                index <= owners@.len(),
                owners@ == read_of(old(thing_manager).read_fault, listed),
                listed == owners_of(before, vertex),
                before == old(thing_manager).ownerships@,
                thing_manager.read_fault == old(thing_manager).read_fault,
                thing_manager.attributes == old(thing_manager).attributes,
                thing_manager.relations == old(thing_manager).relations,
                thing_manager.links == old(thing_manager).links,
                index > 0 ==> thing_manager.read_fault is None,
                index == 0 ==> *thing_manager == *old(thing_manager),
                thing_manager.ownerships@ == before.filter(removed_upto(listed, index as int, vertex)),
            decreases owners@.len() - index,
        {
            match owners[index] {
                Err(error) => {
                    return Err(ConceptWriteError::ConceptRead { source: error });
                },
                Ok((object, _count)) => {
                    thing_manager.delete_has_many(object, vertex);
                    proof {
                        assert(listed[index as int].0 == object);
                        lemma_filter_twice(
                            before,
                            removed_upto(listed, index as int, vertex),
                            not_owned_by(object, vertex),
                            removed_upto(listed, index + 1, vertex),
                        );
                    }
                },
            }
            index += 1;
        }
        proof {
            assert(thing_manager.read_fault is None) by {
                if old(thing_manager).read_fault is Some {
                    assert(owners@.len() == 1);
                }
            }
            lemma_all_owners_removed(before, vertex);
        }
        thing_manager.delete_attribute(vertex);
        Ok(())
    }
}

/// Whether an ownership stays when the ownerships of the attribute by the
/// first `upto` of the listed owners are taken away.
pub open spec fn removed_upto(listed: Seq<(Object, u64)>, upto: int, vertex: AttributeVertex)
    -> spec_fn(Ownership) -> bool {
    |ownership: Ownership|
        !(ownership.1 == vertex && exists|i: int|
            0 <= i < upto && i < listed.len() && (#[trigger] listed[i]).0 == ownership.0)
}

/// Once the ownerships by all listed owners of an attribute are taken
/// away, no ownership of the attribute is left, and the others are all
/// there.
proof fn lemma_all_owners_removed(ownerships: Seq<Ownership>, vertex: AttributeVertex)
    ensures
        ownerships.filter(
            removed_upto(
                owners_of(ownerships, vertex),
                owners_of(ownerships, vertex).len() as int,
                vertex,
            ),
        ) == ownerships.filter(of_other_attribute(vertex)),
{
    let listed = owners_of(ownerships, vertex);
    let all = removed_upto(listed, listed.len() as int, vertex);
    let others = of_other_attribute(vertex);
    let owned = ownerships.filter(of_attribute(vertex));
    assert forall|ownership: Ownership| ownerships.contains(ownership) implies all(ownership)
        == others(ownership) by {
        if ownership.1 == vertex {
            let from = ownerships.index_of(ownership);
            ownerships.lemma_filter_contains(of_attribute(vertex), from);
            let at = owned.index_of(ownership);
            assert(listed[at].0 == ownership.0);
        }
    }
    lemma_filter_agree(ownerships, all, others);
}

/// Two tests that agree on the items of a sequence filter it alike.
proof fn lemma_filter_agree<T>(items: Seq<T>, one: spec_fn(T) -> bool, other: spec_fn(T) -> bool)
    requires
        forall|item: T| items.contains(item) ==> one(item) == other(item),
    ensures
        items.filter(one) == items.filter(other),
    decreases items.len(),
{
    reveal(Seq::filter);
    if items.len() > 0 {
        let front = items.drop_last();
        assert forall|item: T| front.contains(item) implies one(item) == other(item) by {
            let at = choose|i: int| 0 <= i < front.len() && front[i] == item;
            assert(items[at] == item);
            assert(items.contains(item));
        }
        lemma_filter_agree(front, one, other);
        assert(items[items.len() - 1] == items.last());
        assert(items.contains(items.last()));
    }
}


/// A failed step of an iteration over the storage.
#[derive(Debug, Clone, Copy, PartialEq, Eq, Structural)]
pub struct SnapshotIteratorError {
    pub code: u32,
}

/// What an iteration over stored attributes yields for one key.
pub type StoredAttribute = Result<AttributeVertex, SnapshotIteratorError>;

/// What an iterator over attributes yields for what the storage yields: the
/// attribute of the key, with its value not yet read, or the failure of the
/// iteration.
pub open spec fn attribute_item(item: StoredAttribute) -> Result<AttributeVertex, ConceptReadError> {
    match item {
        Ok(vertex) => Ok(vertex),
        Err(_) => Err(ConceptReadError::SnapshotIterate),
    }
}

/// An iterator over stored attributes.
pub struct AttributeIterator {
    attributes_iterator: Option<Vec<StoredAttribute>>,
    position: usize,
}

impl AttributeIterator {
    /// Well-formedness: the iterator has not gone beyond its end.
    pub closed spec fn wf(&self) -> bool {
        match self.attributes_iterator {
            Some(items) => self.position <= items@.len(),
            None => self.position == 0,
        }
    }

    /// What the storage has still to yield.
    pub closed spec fn remaining(&self) -> Seq<StoredAttribute> {
        match self.attributes_iterator {
            Some(items) => items@.skip(self.position as int),
            None => Seq::empty(),
        }
    }

    /// The iterator over what an iteration over the storage yields.
    pub fn new(attributes_iterator: Vec<StoredAttribute>) -> (iterator: AttributeIterator)
        ensures
            iterator.wf(),
            iterator.remaining() == attributes_iterator@,
    {
        let iterator = AttributeIterator {
            attributes_iterator: Some(attributes_iterator),
            position: 0,
        };
        assert(attributes_iterator@.skip(0) =~= attributes_iterator@);
        iterator
    }

    /// The iterator that yields nothing.
    pub fn new_empty() -> (iterator: AttributeIterator)
        ensures
            iterator.wf(),
            iterator.remaining() == Seq::<StoredAttribute>::empty(),
    {
        AttributeIterator { attributes_iterator: None, position: 0 }
    }

    /// What the storage yields next, if it yields anything more.
    fn iter_peek(&self) -> (item: Option<StoredAttribute>)
        requires
            self.wf(),
        ensures
            item == (if self.remaining().len() > 0 {
                Some(self.remaining()[0])
            } else {
                None
            }),
    {
        match &self.attributes_iterator {
            Some(items) => {
                if self.position < items.len() {
                    Some(items[self.position])
                } else {
                    None
                }
            },
            None => None,
        }
    }

    /// What the storage yields next, if it yields anything more; the
    /// iterator moves on.
    fn iter_next(&mut self) -> (item: Option<StoredAttribute>)
        requires
            old(self).wf(),
        ensures
            final(self).wf(),
            item == (if old(self).remaining().len() > 0 {
                Some(old(self).remaining()[0])
            } else {
                None
            }),
            final(self).remaining() == (if old(self).remaining().len() > 0 {
                old(self).remaining().skip(1)
            } else {
                old(self).remaining()
            }),
    {
        let position = self.position;
        let found = match &self.attributes_iterator {
            Some(items) => {
                if position < items.len() {
                    proof {
                        assert(items@.skip(position + 1) =~= items@.skip(position as int).skip(1));
                    }
                    Some(items[position])
                } else {
                    None
                }
            },
            None => None,
        };
        if found.is_some() {
            self.position = position + 1;
        }
        found
    }

    /// The attribute that comes next, if one comes; the iterator stays
    /// where it is.
    pub fn peek(&self) -> (item: Option<Result<Attribute, ConceptReadError>>)
        requires
            self.wf(),
        ensures
            match item {
                None => self.remaining().len() == 0,
                Some(Ok(attribute)) => self.remaining().len() > 0 && attribute_item(
                    self.remaining()[0],
                ) == Ok::<_, ConceptReadError>(attribute.spec_vertex()) && attribute.cached()
                    is None,
                Some(Err(error)) => self.remaining().len() > 0 && attribute_item(
                    self.remaining()[0],
                ) == Err::<AttributeVertex, _>(error),
            },
    {
        match self.iter_peek() {
            None => None,
            Some(Ok(vertex)) => Some(Ok(Attribute::new(vertex))),
            Some(Err(_)) => Some(Err(ConceptReadError::SnapshotIterate)),
        }
    }

    /// The attribute that comes next, if one comes; the iterator moves on.
    pub fn next(&mut self) -> (item: Option<Result<Attribute, ConceptReadError>>)
        requires
            old(self).wf(),
        ensures
            final(self).wf(),
            match item {
                None => old(self).remaining().len() == 0,
                Some(Ok(attribute)) => old(self).remaining().len() > 0 && attribute_item(
                    old(self).remaining()[0],
                ) == Ok::<_, ConceptReadError>(attribute.spec_vertex()) && attribute.cached()
                    is None,
                Some(Err(error)) => old(self).remaining().len() > 0 && attribute_item(
                    old(self).remaining()[0],
                ) == Err::<AttributeVertex, _>(error),
            },
            final(self).remaining() == (if old(self).remaining().len() > 0 {
                old(self).remaining().skip(1)
            } else {
                old(self).remaining()
            }),
    {
        match self.iter_next() {
            None => None,
            Some(Ok(vertex)) => Some(Ok(Attribute::new(vertex))),
            Some(Err(_)) => Some(Err(ConceptReadError::SnapshotIterate)),
        }
    }

    /// The attributes that are still to come, each with its value not yet
    /// read. The iteration must not fail.
    pub fn collect_cloned(self) -> (attributes: Vec<Attribute>)
        requires
            self.wf(),
            forall|i: int| 0 <= i < self.remaining().len() ==> (#[trigger] self.remaining()[i]) is Ok,
        ensures
            attributes@.len() == self.remaining().len(),
            forall|i: int|
                0 <= i < attributes@.len() ==> Ok::<AttributeVertex, SnapshotIteratorError>(
                    (#[trigger] attributes@[i]).spec_vertex(),
                ) == self.remaining()[i] && attributes@[i].cached() is None,
    {
        let mut iterator = self;
        let mut vec: Vec<Attribute> = Vec::new();
        loop
            invariant
                iterator.wf(),
                vec@.len() + iterator.remaining().len() == self.remaining().len(),
                iterator.remaining() == self.remaining().skip(vec@.len() as int),
                forall|i: int|
                    0 <= i < self.remaining().len() ==> (#[trigger] self.remaining()[i]) is Ok,
                forall|i: int|
                    0 <= i < vec@.len() ==> Ok::<AttributeVertex, SnapshotIteratorError>(
                        (#[trigger] vec@[i]).spec_vertex(),
                    ) == self.remaining()[i] && vec@[i].cached() is None,
            ensures
                iterator.remaining().len() == 0,
            decreases iterator.remaining().len(),
        {
            let ghost before = iterator.remaining();
            let item = iterator.next();
            match item {
                None => {
                    break ;
                },
                Some(Ok(attribute)) => {
                    proof {
                        assert(before[0] == self.remaining()[vec@.len() as int]);
                        assert(before.skip(1) =~= self.remaining().skip(vec@.len() as int + 1));
                    }
                    vec.push(attribute.into_owned());
                },
                Some(Err(_)) => {
                    proof {
                        assert(before[0] == self.remaining()[vec@.len() as int]);
                        assert(false);
                    }
                    break ;
                },
            }
        }
        vec
    }
}

} // verus!
