//! Sets of ids backed by `roaring::RoaringBitmap` and
//! `roaring::RoaringTreemap`.
//!
//! The bitmaps themselves are opaque to the verifier. Everything the rest of
//! the library knows about them is stated here, over the set of ids that a
//! bitmap holds, and is taken on trust from the `roaring` crate.

use roaring::{RoaringBitmap, RoaringTreemap};
use vstd::prelude::*;

verus! {

#[verifier::external_type_specification]
#[verifier::external_body]
pub struct ExRoaringBitmap(roaring::RoaringBitmap);

/// The set of ids that a bitmap holds.
pub uninterp spec fn bitmap_ids(bitmap: RoaringBitmap) -> Set<u32>;

/// `RoaringBitmap::new` creates an empty bitmap.
pub assume_specification[ RoaringBitmap::new ]() -> (bitmap: RoaringBitmap)
    ensures
        bitmap_ids(bitmap) == Set::<u32>::empty(),
;

/// `RoaringBitmap::insert` adds `value` to the set and returns whether it was
/// absent before.
pub assume_specification[ RoaringBitmap::insert ](bitmap: &mut RoaringBitmap, value: u32) -> (absent: bool)
    ensures
        bitmap_ids(*final(bitmap)) == bitmap_ids(*old(bitmap)).insert(value),
        absent == !bitmap_ids(*old(bitmap)).contains(value),
;

/// `RoaringBitmap::remove` takes `value` out of the set and returns whether it
/// was present before.
pub assume_specification[ RoaringBitmap::remove ](bitmap: &mut RoaringBitmap, value: u32) -> (present: bool)
    ensures
        bitmap_ids(*final(bitmap)) == bitmap_ids(*old(bitmap)).remove(value),
        present == bitmap_ids(*old(bitmap)).contains(value),
;

/// `RoaringBitmap::contains` tells whether `value` is in the set.
pub assume_specification[ RoaringBitmap::contains ](bitmap: &RoaringBitmap, value: u32) -> (present: bool)
    ensures
        present == bitmap_ids(*bitmap).contains(value),
;

/// `RoaringBitmap::is_empty` tells whether the set holds no id.
pub assume_specification[ RoaringBitmap::is_empty ](bitmap: &RoaringBitmap) -> (empty: bool)
    ensures
        empty == (bitmap_ids(*bitmap) == Set::<u32>::empty()),
;

/// `RoaringBitmap::is_disjoint` tells whether two sets have no id in
/// common.
pub assume_specification[ RoaringBitmap::is_disjoint ](
    bitmap: &RoaringBitmap,
    other: &RoaringBitmap,
) -> (disjoint: bool)
    ensures
        disjoint == bitmap_ids(*bitmap).disjoint(bitmap_ids(*other)),
;

/// `RoaringBitmap::clear` removes every id.
pub assume_specification[ RoaringBitmap::clear ](bitmap: &mut RoaringBitmap)
    ensures
        bitmap_ids(*final(bitmap)) == Set::<u32>::empty(),
;

/// Cloning a bitmap yields one that holds the same ids.
pub assume_specification[ <RoaringBitmap as Clone>::clone ](bitmap: &RoaringBitmap) -> (copy: RoaringBitmap)
    ensures
        bitmap_ids(copy) == bitmap_ids(*bitmap),
;

/// `RoaringBitmap::iter` hands out every id of the set once, in increasing
/// order.
#[verifier::external_body]
pub(crate) fn bitmap_to_vec(bitmap: &RoaringBitmap) -> (ids: Vec<u32>)
    ensures
        forall|id: u32| ids@.contains(id) <==> bitmap_ids(*bitmap).contains(id),
        forall|i: int, j: int| 0 <= i < j < ids@.len() ==> ids@[i] < ids@[j],
{
    bitmap.iter().collect()
}

/// What `RoaringBitmap::deserialize_from` reads out of `bytes`: the set of
/// the bitmap it returns, or `None` where it fails.
pub uninterp spec fn bitmap_decoded(bytes: Seq<u8>) -> Option<Set<u32>>;

/// The bytes that `RoaringBitmap::serialize_into` writes for a bitmap. They
/// depend on how the bitmap holds its ids, and so are named by the bitmap
/// and not by its set.
pub uninterp spec fn bitmap_bytes(bitmap: RoaringBitmap) -> Seq<u8>;

/// `RoaringBitmap::serialize_into` writes the standard on-disk form, which
/// `RoaringBitmap::deserialize_from` reads back as an equal bitmap. It fails
/// only where the writer does, and the writer here is a vector, which takes
/// whatever is written to it.
#[verifier::external_body]
pub(crate) fn bitmap_serialize(bitmap: &RoaringBitmap) -> (serialized: Option<Vec<u8>>)
    ensures
        serialized is Some,
        serialized->0@ == bitmap_bytes(*bitmap),
        bitmap_decoded(serialized->0@) == Some(bitmap_ids(*bitmap)),
{
    let mut bytes = Vec::with_capacity(bitmap.serialized_size());
    match bitmap.serialize_into(&mut bytes) {
        Ok(()) => Some(bytes),
        Err(_) => None,
    }
}

/// `RoaringBitmap::deserialize_from` on a byte slice.
#[verifier::external_body]
pub(crate) fn bitmap_deserialize(bytes: &[u8]) -> (bitmap: Option<RoaringBitmap>)
    ensures
        match bitmap {
            Some(bitmap) => bitmap_decoded(bytes@) == Some(bitmap_ids(bitmap)),
            None => bitmap_decoded(bytes@) is None,
        },
{
    RoaringBitmap::deserialize_from(bytes).ok()
}

#[verifier::external_type_specification]
#[verifier::external_body]
pub struct ExRoaringTreemap(roaring::RoaringTreemap);

/// The set of ids that a treemap holds.
pub uninterp spec fn treemap_ids(treemap: RoaringTreemap) -> Set<u64>;

/// `RoaringTreemap::new` creates an empty treemap.
pub assume_specification[ RoaringTreemap::new ]() -> (treemap: RoaringTreemap)
    ensures
        treemap_ids(treemap) == Set::<u64>::empty(),
;

/// `RoaringTreemap::insert` adds `value` to the set and returns whether it
/// was absent before.
pub assume_specification[ RoaringTreemap::insert ](treemap: &mut RoaringTreemap, value: u64) -> (absent: bool)
    ensures
        treemap_ids(*final(treemap)) == treemap_ids(*old(treemap)).insert(value),
        absent == !treemap_ids(*old(treemap)).contains(value),
;

/// What `RoaringTreemap::deserialize_from` reads out of `bytes`: the set of
/// the treemap it returns, or `None` where it fails.
pub uninterp spec fn treemap_decoded(bytes: Seq<u8>) -> Option<Set<u64>>;

/// `RoaringTreemap::serialize_into` writes a form that
/// `RoaringTreemap::deserialize_from` reads back as an equal treemap. It
/// fails only where the writer does, and the writer here is a vector, which
/// takes whatever is written to it.
#[verifier::external_body]
pub(crate) fn treemap_serialize(treemap: &RoaringTreemap) -> (serialized: Option<Vec<u8>>)
    ensures
        serialized is Some,
        treemap_decoded(serialized->0@) == Some(treemap_ids(*treemap)),
{
    let mut bytes = Vec::with_capacity(treemap.serialized_size());
    match treemap.serialize_into(&mut bytes) {
        Ok(()) => Some(bytes),
        Err(_) => None,
    }
}

} // verus!
