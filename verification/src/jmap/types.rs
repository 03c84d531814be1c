//! Building blocks of protocol objects.

use vstd::prelude::*;

verus! {

/// The id of an object.
pub type JMAPId = u64;

/// A point in time, in seconds since the epoch.
#[derive(Debug, Clone, Copy, PartialEq, Eq, Hash, Structural)]
pub struct JMAPDate {
    pub timestamp: i64,
}

/// A reference to binary data, or to a section of it.
#[derive(Debug, Clone, PartialEq, Eq, Hash)]
pub struct JMAPBlob {
    pub id: Vec<u8>,
    pub section: Option<(u32, u32)>,
}

/// A reference to the result of an earlier call of the same request.
#[derive(Debug, Clone, PartialEq, Eq, Hash)]
pub struct ResultReference {
    pub result_of: String,
    pub name: String,
    pub path: String,
}

/// An id, or the name under which an earlier call of the same request
/// created the object.
#[derive(Debug, Clone, PartialEq, Eq, Hash)]
pub enum MaybeIdReference {
    Value(JMAPId),
    Reference(String),
}

/// A value, or a reference to the result that holds it.
#[derive(Debug, Clone)]
pub enum MaybeResultReference<T> {
    Value(T),
    Reference(ResultReference),
}

/// One entry of a `VecMap`.
#[derive(Debug, Clone, PartialEq, Eq)]
pub struct KeyValue<K, V> {
    pub key: K,
    pub value: V,
}

/// A map that keeps its entries in the order in which they came.
#[derive(Debug, Clone, PartialEq, Eq)]
pub struct VecMap<K, V> {
    pub inner: Vec<KeyValue<K, V>>,
}

impl<K, V> View for VecMap<K, V> {
    type V = Seq<KeyValue<K, V>>;

    open spec fn view(&self) -> Seq<KeyValue<K, V>> {
        self.inner@
    }
}

impl<K, V> VecMap<K, V> {
    pub fn new() -> (map: VecMap<K, V>)
        ensures
            map@ == Seq::<KeyValue<K, V>>::empty(),
    {
        VecMap { inner: Vec::new() }
    }

    pub fn len(&self) -> (len: usize)
        ensures
            len == self@.len(),
    {
        self.inner.len()
    }

    pub fn is_empty(&self) -> (empty: bool)
        ensures
            empty == (self@.len() == 0),
    {
        self.inner.len() == 0
    }

    /// Adds an entry at the end, whatever the entries before it.
    pub fn append(&mut self, key: K, value: V)
        ensures
            final(self)@ == old(self)@.push(KeyValue { key, value }),
    {
        self.inner.push(KeyValue { key, value });
    }

    /// The entry at a position.
    pub fn entry(&self, pos: usize) -> (entry: &KeyValue<K, V>)
        requires
            pos < self@.len(),
        ensures
            *entry == self@[pos as int],
    {
        &self.inner[pos]
    }
}

} // verus!
