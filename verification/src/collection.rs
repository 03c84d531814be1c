//! Collections of an account, and small sets of them packed into one word.

use vstd::prelude::*;

verus! {

pub type AccountId = u32;

pub type DocumentId = u32;

/// The kinds of object an account holds.
#[derive(Clone, Copy, Debug, PartialEq, Eq, Hash, Structural)]
pub enum Collection {
    Principal,
    PushSubscription,
    Mail,
    Mailbox,
    Thread,
    Identity,
    EmailSubmission,
    VacationResponse,
    SieveScript,
}

/// Number of distinct collections; every collection number is below it.
pub const COLLECTION_COUNT: u8 = 9;

impl Collection {
    /// The number that stands for this collection in keys and bit sets.
    pub open spec fn spec_id(self) -> u8 {
        match self {
            Collection::Principal => 0,
            Collection::PushSubscription => 1,
            Collection::Mail => 2,
            Collection::Mailbox => 3,
            Collection::Thread => 4,
            Collection::Identity => 5,
            Collection::EmailSubmission => 6,
            Collection::VacationResponse => 7,
            Collection::SieveScript => 8,
        }
    }

    /// The collection that a number stands for, if it stands for one.
    pub open spec fn spec_from_id(id: u8) -> Option<Collection> {
        match id {
            0 => Some(Collection::Principal),
            1 => Some(Collection::PushSubscription),
            2 => Some(Collection::Mail),
            3 => Some(Collection::Mailbox),
            4 => Some(Collection::Thread),
            5 => Some(Collection::Identity),
            6 => Some(Collection::EmailSubmission),
            7 => Some(Collection::VacationResponse),
            8 => Some(Collection::SieveScript),
            _ => None,
        }
    }

    #[verifier::when_used_as_spec(spec_id)]
    pub fn id(self) -> (id: u8)
        ensures
            id == self.spec_id(),
            id < COLLECTION_COUNT,
            Collection::spec_from_id(id) == Some(self),
    {
        match self {
            Collection::Principal => 0,
            Collection::PushSubscription => 1,
            Collection::Mail => 2,
            Collection::Mailbox => 3,
            Collection::Thread => 4,
            Collection::Identity => 5,
            Collection::EmailSubmission => 6,
            Collection::VacationResponse => 7,
            Collection::SieveScript => 8,
        }
    }

    #[verifier::when_used_as_spec(spec_from_id)]
    pub fn from_id(id: u8) -> (collection: Option<Collection>)
        ensures
            collection == Collection::spec_from_id(id),
            collection is Some <==> id < COLLECTION_COUNT,
            collection is Some ==> collection.unwrap().spec_id() == id,
    {
        match id {
            0 => Some(Collection::Principal),
            1 => Some(Collection::PushSubscription),
            2 => Some(Collection::Mail),
            3 => Some(Collection::Mailbox),
            4 => Some(Collection::Thread),
            5 => Some(Collection::Identity),
            6 => Some(Collection::EmailSubmission),
            7 => Some(Collection::VacationResponse),
            8 => Some(Collection::SieveScript),
            _ => None,
        }
    }
}

/// A set of collections, one bit each.
#[derive(Clone, Copy, Debug, PartialEq, Eq, Hash, Structural)]
pub struct Collections {
    pub bits: u64,
}

/// Whether bit `id` of `bits` is set.
pub open spec fn has_bit(bits: u64, id: u8) -> bool {
    (bits >> (id as u64)) & 1 == 1
}

proof fn lemma_set_bit(bits: u64, id: u8, other: u8)
    requires
        id < 64,
        other < 64,
    ensures
        has_bit(bits | (1u64 << (id as u64)), other) == (other == id || has_bit(bits, other)),
{
    let i = id as u64;
    let j = other as u64;
    assert(((bits | (1u64 << i)) >> j) & 1 == 1 <==> (j == i || (bits >> j) & 1 == 1)) by (bit_vector)
        requires
            i < 64,
            j < 64,
    ;
}

proof fn lemma_clear_bit(bits: u64, id: u8, other: u8)
    requires
        id < 64,
        other < 64,
    ensures
        has_bit(bits & !(1u64 << (id as u64)), other) == (other != id && has_bit(bits, other)),
{
    let i = id as u64;
    let j = other as u64;
    assert(((bits & !(1u64 << i)) >> j) & 1 == 1 <==> (j != i && (bits >> j) & 1 == 1)) by (bit_vector)
        requires
            i < 64,
            j < 64,
    ;
}

proof fn lemma_no_bit(id: u8)
    requires
        id < 64,
    ensures
        !has_bit(0, id),
{
    let j = id as u64;
    assert((0u64 >> j) & 1 == 0) by (bit_vector)
        requires
            j < 64,
    ;
}

proof fn lemma_or_bits(a: u64, b: u64, id: u8)
    requires
        id < 64,
    ensures
        has_bit(a | b, id) == (has_bit(a, id) || has_bit(b, id)),
{
    let j = id as u64;
    assert(((a | b) >> j) & 1 == 1 <==> ((a >> j) & 1 == 1 || (b >> j) & 1 == 1)) by (bit_vector)
        requires
            j < 64,
    ;
}

impl View for Collections {
    type V = Set<Collection>;

    open spec fn view(&self) -> Set<Collection> {
        Set::new(|c: Collection| has_bit(self.bits, c.spec_id()))
    }
}

impl Collections {
    /// The set with `collection` added.
    pub open spec fn with(self, collection: Collection) -> Collections {
        Collections { bits: self.bits | (1u64 << (collection.spec_id() as u64)) }
    }

    /// The set with `collection` taken out.
    pub open spec fn without(self, collection: Collection) -> Collections {
        Collections { bits: self.bits & !(1u64 << (collection.spec_id() as u64)) }
    }

    /// The empty set.
    pub open spec fn spec_new() -> Collections {
        Collections { bits: 0 }
    }

    /// The empty set.
    #[verifier::when_used_as_spec(spec_new)]
    pub fn new() -> (set: Collections)
        ensures
            set == Collections::spec_new(),
            set@ == Set::<Collection>::empty(),
    {
        let set = Collections { bits: 0 };
        proof {
            assert forall|c: Collection| !set@.contains(c) by {
                lemma_no_bit(c.spec_id());
            }
            assert(set@ =~= Set::<Collection>::empty());
        }
        set
    }

    pub fn contains(&self, collection: Collection) -> (present: bool)
        ensures
            present == self@.contains(collection),
    {
        (self.bits >> (collection.id() as u64)) & 1 == 1
    }

    pub fn is_empty(&self) -> (empty: bool)
        ensures
            empty == (self@ == Set::<Collection>::empty()),
    {
        let mut id: u8 = 0;
        while id < COLLECTION_COUNT
            invariant
                id <= COLLECTION_COUNT,
                forall|c: Collection| c.spec_id() < id ==> !self@.contains(c),
            decreases COLLECTION_COUNT - id,
        {
            if let Some(collection) = Collection::from_id(id) {
                if self.contains(collection) {
                    return false;
                }
            }
            id += 1;
        }
        assert(self@ =~= Set::<Collection>::empty());
        true
    }

    pub fn insert(&mut self, collection: Collection)
        ensures
            *final(self) == old(self).with(collection),
            final(self)@ == old(self)@.insert(collection),
    {
        let id = collection.id();
        let bits = self.bits | (1u64 << (id as u64));
        proof {
            assert forall|c: Collection|
                has_bit(bits, c.spec_id()) == (c == collection || has_bit(self.bits, c.spec_id())) by {
                lemma_set_bit(self.bits, id, c.spec_id());
            }
        }
        self.bits = bits;
        assert(self@ =~= old(self)@.insert(collection));
    }

    pub fn remove(&mut self, collection: Collection)
        ensures
            *final(self) == old(self).without(collection),
            final(self)@ == old(self)@.remove(collection),
    {
        let id = collection.id();
        let bits = self.bits & !(1u64 << (id as u64));
        proof {
            assert forall|c: Collection|
                has_bit(bits, c.spec_id()) == (c != collection && has_bit(self.bits, c.spec_id())) by {
                lemma_clear_bit(self.bits, id, c.spec_id());
            }
        }
        self.bits = bits;
        assert(self@ =~= old(self)@.remove(collection));
    }

    /// Adds every collection of `other`.
    pub fn union(&mut self, other: &Collections)
        ensures
            final(self)@ == old(self)@.union(other@),
    {
        let bits = self.bits | other.bits;
        proof {
            assert forall|c: Collection|
                has_bit(bits, c.spec_id()) == (has_bit(self.bits, c.spec_id()) || has_bit(
                    other.bits,
                    c.spec_id(),
                )) by {
                lemma_or_bits(self.bits, other.bits, c.spec_id());
            }
        }
        self.bits = bits;
        assert(self@ =~= old(self)@.union(other@));
    }

    /// One more than the highest collection number in the set, or 0 where
    /// the set is empty.
    pub open spec fn height(self) -> u8 {
        height_below(self.bits, COLLECTION_COUNT)
    }

    /// The collection with the highest number in the set, if there is one.
    pub open spec fn top(self) -> Option<Collection> {
        if self.height() == 0 {
            None
        } else {
            Collection::spec_from_id((self.height() - 1) as u8)
        }
    }

    /// Takes the collection with the highest number out of the set.
    pub fn pop(&mut self) -> (popped: Option<Collection>)
        ensures
            popped == old(self).top(),
            match popped {
                Some(c) => old(self)@.contains(c) && *final(self) == old(self).without(c)
                    && final(self)@ == old(self)@.remove(c) && final(self).height()
                    <= c.spec_id() && c.spec_id() < old(self).height(),
                None => old(self)@ == Set::<Collection>::empty() && *final(self) == *old(self),
            },
    {
        let mut id: u8 = COLLECTION_COUNT;
        while id > 0
            invariant
                id <= COLLECTION_COUNT,
                *self == *old(self),
                forall|c: Collection| c.spec_id() >= id ==> !self@.contains(c),
                height_below(self.bits, COLLECTION_COUNT) == height_below(self.bits, id),
            decreases id,
        {
            id -= 1;
            if let Some(collection) = Collection::from_id(id) {
                if self.contains(collection) {
                    proof {
                        assert(has_bit(self.bits, id));
                        assert(height_below(self.bits, (id + 1) as u8) == id + 1);
                    }
                    self.remove(collection);
                    proof {
                        assert forall|c: Collection|
                            id <= c.spec_id() < COLLECTION_COUNT implies !has_bit(
                            self.bits,
                            c.spec_id(),
                        ) by {
                            assert(!self@.contains(c));
                        }
                        lemma_height_bound(self.bits, id, COLLECTION_COUNT);
                    }
                    return Some(collection);
                }
            }
        }
        assert(self@ =~= Set::<Collection>::empty());
        None
    }
}

/// One more than the highest number below `bound` whose bit is set, or 0
/// where there is none.
pub open spec fn height_below(bits: u64, bound: u8) -> u8
    decreases bound,
{
    if bound == 0 {
        0
    } else if has_bit(bits, (bound - 1) as u8) {
        bound
    } else {
        height_below(bits, (bound - 1) as u8)
    }
}

/// Where no bit from `from` up to `bound` is set, the height below `bound`
/// is at most `from`.
proof fn lemma_height_bound(bits: u64, from: u8, bound: u8)
    requires
        from <= bound <= COLLECTION_COUNT,
        forall|c: Collection| from <= c.spec_id() < bound ==> !has_bit(bits, c.spec_id()),
    ensures
        height_below(bits, bound) <= from,
    decreases bound - from,
{
    if from < bound {
        let top = (bound - 1) as u8;
        let collection = Collection::spec_from_id(top).unwrap();
        assert(collection.spec_id() == top);
        lemma_height_bound(bits, from, top);
    } else {
        lemma_height_at_most(bits, bound);
    }
}

/// No bit from the height up is set, and the bit just below the height is.
proof fn lemma_height_is_top(bits: u64, bound: u8)
    requires
        bound <= COLLECTION_COUNT,
    ensures
        height_below(bits, bound) <= bound,
        height_below(bits, bound) > 0 ==> has_bit(bits, (height_below(bits, bound) - 1) as u8),
        forall|id: u8| height_below(bits, bound) <= id < bound ==> !has_bit(bits, id),
    decreases bound,
{
    if bound > 0 && !has_bit(bits, (bound - 1) as u8) {
        lemma_height_is_top(bits, (bound - 1) as u8);
    }
}

/// Taking the top collection out of a set lowers its height.
pub proof fn lemma_without_top(collections: Collections)
    ensures
        match collections.top() {
            Some(top) => collections.without(top).height() < collections.height()
                && top.spec_id() == collections.height() - 1,
            None => collections.height() == 0,
        },
{
    lemma_height_is_top(collections.bits, COLLECTION_COUNT);
    if collections.height() > 0 {
        let id = (collections.height() - 1) as u8;
        let top = Collection::spec_from_id(id).unwrap();
        assert(top.spec_id() == id);
        let rest = collections.without(top);
        assert forall|c: Collection| id <= c.spec_id() < COLLECTION_COUNT implies !has_bit(
            rest.bits,
            c.spec_id(),
        ) by {
            lemma_clear_bit(collections.bits, id, c.spec_id());
        }
        lemma_height_bound(rest.bits, id, COLLECTION_COUNT);
    }
}

/// The top collection of a set is in the set, and the set without it
/// holds the others.
pub proof fn lemma_top_held(collections: Collections)
    ensures
        match collections.top() {
            Some(top) => collections@.contains(top) && collections.without(top)@
                == collections@.remove(top),
            None => true,
        },
{
    lemma_height_is_top(collections.bits, COLLECTION_COUNT);
    if collections.height() > 0 {
        let id = (collections.height() - 1) as u8;
        let top = Collection::spec_from_id(id).unwrap();
        assert(top.spec_id() == id);
        let rest = collections.without(top);
        assert forall|c: Collection| rest@.contains(c) == collections@.remove(top).contains(c) by {
            lemma_clear_bit(collections.bits, id, c.spec_id());
        }
        assert(rest@ =~= collections@.remove(top));
    }
}

proof fn lemma_height_at_most(bits: u64, bound: u8)
    ensures
        height_below(bits, bound) <= bound,
    decreases bound,
{
    if bound > 0 {
        lemma_height_at_most(bits, (bound - 1) as u8);
    }
}

} // verus!
