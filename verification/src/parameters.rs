//! The constant parameters of a query.

use crate::pattern::ParameterID;
use vstd::prelude::*;

verus! {

/// The longest identifier of an instance, in bytes.
pub const THING_VERTEX_MAX_LENGTH: usize = 20;

/// A literal value of a query.
#[derive(Debug, PartialEq, Eq)]
pub enum Value {
    Boolean(bool),
    Long(i64),
    /// A double, held as the bits of its IEEE 754 form.
    Double(u64),
    String(String),
}

/// What a value holds.
pub enum ValueView {
    Boolean(bool),
    Long(i64),
    Double(u64),
    String(Seq<char>),
}

impl View for Value {
    type V = ValueView;

    open spec fn view(&self) -> ValueView {
        match self {
            Value::Boolean(value) => ValueView::Boolean(*value),
            Value::Long(value) => ValueView::Long(*value),
            Value::Double(bits) => ValueView::Double(*bits),
            Value::String(text) => ValueView::String(text@),
        }
    }
}

impl Clone for Value {
    /// A value that holds the same.
    fn clone(&self) -> (copy: Self)
        ensures
            copy@ == self@,
    {
        match self {
            Value::Boolean(value) => Value::Boolean(*value),
            Value::Long(value) => Value::Long(*value),
            Value::Double(bits) => Value::Double(*bits),
            Value::String(text) => Value::String(text.clone()),
        }
    }
}

/// The constants of a query, each kind numbered from zero in the order of
/// registration.
#[derive(Debug, Clone)]
pub struct ParameterRegistry {
    value_registry: Vec<Value>,
    iid_registry: Vec<Vec<u8>>,
    fetch_key_registry: Vec<String>,
}

impl ParameterRegistry {
    /// The registered values, in the order of registration.
    pub closed spec fn values(&self) -> Seq<Value> {
        self.value_registry@
    }

    /// The registered instance identifiers, in the order of registration.
    pub closed spec fn iids(&self) -> Seq<Seq<u8>> {
        self.iid_registry@.map_values(|iid: Vec<u8>| iid@)
    }

    /// The registered fetch keys, in the order of registration.
    pub closed spec fn fetch_keys(&self) -> Seq<Seq<char>> {
        self.fetch_key_registry@.map_values(|key: String| key@)
    }

    /// Well-formedness: no instance identifier is longer than the bound.
    pub closed spec fn wf(&self) -> bool {
        forall|i: int|
            0 <= i < self.iid_registry@.len() ==> (#[trigger] self.iid_registry@[i])@.len()
                <= THING_VERTEX_MAX_LENGTH
    }

    /// Every registered instance identifier keeps to the bound.
    pub proof fn lemma_iids_bounded(&self)
        requires
            self.wf(),
        ensures
            forall|i: int|
                0 <= i < self.iids().len() ==> (#[trigger] self.iids()[i]).len()
                    <= THING_VERTEX_MAX_LENGTH,
    {
        assert forall|i: int| 0 <= i < self.iids().len() implies (#[trigger] self.iids()[i]).len()
            <= THING_VERTEX_MAX_LENGTH by {
            assert(self.iids()[i] == self.iid_registry@[i]@);
        }
    }

    /// A registry without parameters.
    pub fn new() -> (registry: ParameterRegistry)
        ensures
            registry.wf(),
            registry.values() == Seq::<Value>::empty(),
            registry.iids() == Seq::<Seq<u8>>::empty(),
            registry.fetch_keys() == Seq::<Seq<char>>::empty(),
    {
        let registry = ParameterRegistry {
            value_registry: Vec::new(),
            iid_registry: Vec::new(),
            fetch_key_registry: Vec::new(),
        };
        assert(registry.iids() =~= Seq::<Seq<u8>>::empty());
        assert(registry.fetch_keys() =~= Seq::<Seq<char>>::empty());
        registry
    }

    /// Registers a value under the next value identifier.
    pub fn register_value(&mut self, value: Value) -> (id: ParameterID)
        requires
            old(self).wf(),
        ensures
            final(self).wf(),
            id == ParameterID::Value(old(self).values().len() as usize),
            final(self).values() == old(self).values().push(value),
            final(self).iids() == old(self).iids(),
            final(self).fetch_keys() == old(self).fetch_keys(),
    {
        let id = ParameterID::Value(self.value_registry.len());
        self.value_registry.push(value);
        id
    }

    /// Registers an instance identifier under the next identifier of its
    /// kind.
    pub fn register_iid(&mut self, iid: Vec<u8>) -> (id: ParameterID)
        requires
            old(self).wf(),
            iid@.len() <= THING_VERTEX_MAX_LENGTH,
        ensures
            final(self).wf(),
            id == ParameterID::Iid(old(self).iids().len() as usize),
            final(self).iids() == old(self).iids().push(iid@),
            final(self).values() == old(self).values(),
            final(self).fetch_keys() == old(self).fetch_keys(),
    {
        let id = ParameterID::Iid(self.iid_registry.len());
        self.iid_registry.push(iid);
        proof {
            assert(self.iids() =~= old(self).iids().push(iid@));
        }
        id
    }

    /// Registers a fetch key under the next identifier of its kind.
    pub fn register_fetch_key(&mut self, key: String) -> (id: ParameterID)
        requires
            old(self).wf(),
        ensures
            final(self).wf(),
            id == ParameterID::FetchKey(old(self).fetch_keys().len() as usize),
            final(self).fetch_keys() == old(self).fetch_keys().push(key@),
            final(self).values() == old(self).values(),
            final(self).iids() == old(self).iids(),
    {
        let id = ParameterID::FetchKey(self.fetch_key_registry.len());
        self.fetch_key_registry.push(key);
        proof {
            assert(self.fetch_keys() =~= old(self).fetch_keys().push(key@));
        }
        id
    }

    /// The value registered under `id`.
    pub fn value(&self, id: ParameterID) -> (value: Option<&Value>)
        ensures
            match value {
                Some(value) => id matches ParameterID::Value(index) && index
                    < self.values().len() && *value == self.values()[index as int],
                None => !(id matches ParameterID::Value(index) && index < self.values().len()),
            },
    {
        match id {
            ParameterID::Value(index) => {
                if index < self.value_registry.len() {
                    Some(&self.value_registry[index])
                } else {
                    None
                }
            },
            _ => None,
        }
    }

    /// The value registered under `id`, which must be the identifier of a
    /// registered value.
    pub fn value_unchecked(&self, id: ParameterID) -> (value: &Value)
        requires
            id matches ParameterID::Value(index) && index < self.values().len(),
        ensures
            id matches ParameterID::Value(index) && *value == self.values()[index as int],
    {
        match id {
            ParameterID::Value(index) => &self.value_registry[index],
            _ => &self.value_registry[0],
        }
    }

    /// The instance identifier registered under `id`.
    pub fn iid(&self, id: ParameterID) -> (iid: Option<&Vec<u8>>)
        ensures
            match iid {
                Some(iid) => id matches ParameterID::Iid(index) && index < self.iids().len()
                    && iid@ == self.iids()[index as int],
                None => !(id matches ParameterID::Iid(index) && index < self.iids().len()),
            },
    {
        match id {
            ParameterID::Iid(index) => {
                if index < self.iid_registry.len() {
                    Some(&self.iid_registry[index])
                } else {
                    None
                }
            },
            _ => None,
        }
    }

    /// The fetch key registered under `id`.
    pub fn fetch_key(&self, id: ParameterID) -> (key: Option<&String>)
        ensures
            match key {
                Some(key) => id matches ParameterID::FetchKey(index) && index
                    < self.fetch_keys().len() && key@ == self.fetch_keys()[index as int],
                None => !(id matches ParameterID::FetchKey(index) && index
                    < self.fetch_keys().len()),
            },
    {
        match id {
            ParameterID::FetchKey(index) => {
                if index < self.fetch_key_registry.len() {
                    Some(&self.fetch_key_registry[index])
                } else {
                    None
                }
            },
            _ => None,
        }
    }
}

} // verus!
