//! Change records and their collapse into net inserts, updates and deletes.

use crate::bitmap::{bitmap_bytes, 
    bitmap_decoded, bitmap_deserialize, bitmap_ids, bitmap_serialize, bitmap_to_vec,
};
use crate::collection::{AccountId, Collection, DocumentId};
use crate::raft::LogIndex;
use crate::table::{Key, Row};
use roaring::RoaringBitmap;
use vstd::prelude::*;

verus! {

/// The documents that one logged operation created, updated and deleted in
/// one collection of one account.
#[derive(Debug, Clone, PartialEq, Eq)]
pub struct Change {
    pub inserts: Vec<DocumentId>,
    pub updates: Vec<DocumentId>,
    pub deletes: Vec<DocumentId>,
}

pub ghost struct ChangeView {
    pub inserts: Seq<DocumentId>,
    pub updates: Seq<DocumentId>,
    pub deletes: Seq<DocumentId>,
}

impl View for Change {
    type V = ChangeView;

    open spec fn view(&self) -> ChangeView {
        ChangeView { inserts: self.inserts@, updates: self.updates@, deletes: self.deletes@ }
    }
}

/// The key of the change record of a collection of an account at a log index.
pub open spec fn spec_change_key(account_id: AccountId, collection: Collection, index: LogIndex) -> Key {
    Key { major: account_id as u64, minor: collection.spec_id() as u64, tail: index }
}

#[verifier::when_used_as_spec(spec_change_key)]
pub fn change_key(account_id: AccountId, collection: Collection, index: LogIndex) -> (key: Key)
    ensures
        key == spec_change_key(account_id, collection, index),
{
    Key { major: account_id as u64, minor: collection.id() as u64, tail: index }
}

/// Net effect of a run of change records: three sets of document ids.
#[derive(Debug, Clone, PartialEq)]
pub struct MergedChanges {
    pub inserts: RoaringBitmap,
    pub updates: RoaringBitmap,
    pub deletes: RoaringBitmap,
}

pub ghost struct MergedChangesView {
    pub inserts: Set<DocumentId>,
    pub updates: Set<DocumentId>,
    pub deletes: Set<DocumentId>,
}

impl View for MergedChanges {
    type V = MergedChangesView;

    open spec fn view(&self) -> MergedChangesView {
        MergedChangesView {
            inserts: bitmap_ids(self.inserts),
            updates: bitmap_ids(self.updates),
            deletes: bitmap_ids(self.deletes),
        }
    }
}

impl MergedChangesView {
    pub open spec fn empty() -> MergedChangesView {
        MergedChangesView { inserts: Set::empty(), updates: Set::empty(), deletes: Set::empty() }
    }

    pub open spec fn is_empty(self) -> bool {
        self.inserts =~= Set::<DocumentId>::empty() && self.updates =~= Set::<DocumentId>::empty()
            && self.deletes =~= Set::<DocumentId>::empty()
    }

    /// No id is in two of the three sets.
    pub open spec fn disjoint(self) -> bool {
        self.inserts.disjoint(self.updates) && self.inserts.disjoint(self.deletes)
            && self.updates.disjoint(self.deletes)
    }

    /// A document was created: it is net-new, whatever was known of the id.
    pub open spec fn insert(self, id: DocumentId) -> MergedChangesView {
        MergedChangesView {
            inserts: self.inserts.insert(id),
            updates: self.updates.remove(id),
            deletes: self.deletes.remove(id),
        }
    }

    /// A document was updated: it counts as updated unless it is net-new or
    /// gone.
    pub open spec fn update(self, id: DocumentId) -> MergedChangesView {
        if self.inserts.contains(id) || self.deletes.contains(id) {
            self
        } else {
            MergedChangesView { updates: self.updates.insert(id), ..self }
        }
    }

    /// A document was deleted: one created earlier in the run vanishes
    /// without trace, any other counts as deleted.
    pub open spec fn delete(self, id: DocumentId) -> MergedChangesView {
        if self.inserts.contains(id) {
            MergedChangesView {
                inserts: self.inserts.remove(id),
                updates: self.updates.remove(id),
                ..self
            }
        } else {
            MergedChangesView {
                updates: self.updates.remove(id),
                deletes: self.deletes.insert(id),
                ..self
            }
        }
    }

    pub open spec fn insert_all(self, ids: Seq<DocumentId>) -> MergedChangesView
        decreases ids.len(),
    {
        if ids.len() == 0 {
            self
        } else {
            self.insert_all(ids.drop_last()).insert(ids.last())
        }
    }

    pub open spec fn update_all(self, ids: Seq<DocumentId>) -> MergedChangesView
        decreases ids.len(),
    {
        if ids.len() == 0 {
            self
        } else {
            self.update_all(ids.drop_last()).update(ids.last())
        }
    }

    pub open spec fn delete_all(self, ids: Seq<DocumentId>) -> MergedChangesView
        decreases ids.len(),
    {
        if ids.len() == 0 {
            self
        } else {
            self.delete_all(ids.drop_last()).delete(ids.last())
        }
    }

    /// Folds one change record in: its inserts, then its updates, then its
    /// deletes, each in the order given.
    pub open spec fn apply(self, change: ChangeView) -> MergedChangesView {
        self.insert_all(change.inserts).update_all(change.updates).delete_all(change.deletes)
    }
}

/// Whether `ids` lists the ids of `set`, each once, in increasing order.
pub open spec fn lists(ids: Seq<DocumentId>, set: Set<DocumentId>) -> bool {
    (forall|id: DocumentId| ids.contains(id) <==> set.contains(id)) && forall|i: int, j: int|
        0 <= i < j < ids.len() ==> ids[i] < ids[j]
}

/// The ids of a set in increasing order.
pub open spec fn sorted_ids(set: Set<DocumentId>) -> Seq<DocumentId> {
    choose|ids: Seq<DocumentId>| lists(ids, set)
}

/// Only one sequence lists a set in increasing order.
pub proof fn lemma_lists_unique(a: Seq<DocumentId>, b: Seq<DocumentId>, set: Set<DocumentId>)
    requires
        lists(a, set),
        lists(b, set) || b == sorted_ids(set),
    ensures
        a == b,
    decreases a.len(),
{
    assert(lists(b, set));
    if a.len() == 0 {
        if b.len() > 0 {
            assert(b.contains(b[0]));
            assert(a.contains(b[0]));
        }
        assert(a =~= b);
    } else {
        let top = a.last();
        assert(a.contains(top));
        assert(b.contains(top));
        let j = choose|j: int| 0 <= j < b.len() && b[j] == top;
        assert(b.contains(b.last()));
        assert(a.contains(b.last()));
        let k = choose|k: int| 0 <= k < a.len() && a[k] == b.last();
        assert(b.last() == top);
        let rest = set.remove(top);
        let a_front = a.drop_last();
        let b_front = b.drop_last();
        assert forall|id: DocumentId| a_front.contains(id) <==> rest.contains(id) by {
            if a_front.contains(id) {
                let i = choose|i: int| 0 <= i < a_front.len() && a_front[i] == id;
                assert(a[i] == id);
                assert(a.contains(id));
                assert(a[i] < a[a.len() - 1]);
            }
            if rest.contains(id) {
                assert(a.contains(id));
                let i = choose|i: int| 0 <= i < a.len() && a[i] == id;
                assert(a_front[i] == id);
            }
        }
        assert forall|id: DocumentId| b_front.contains(id) <==> rest.contains(id) by {
            if b_front.contains(id) {
                let i = choose|i: int| 0 <= i < b_front.len() && b_front[i] == id;
                assert(b[i] == id);
                assert(b.contains(id));
                assert(b[i] < b[b.len() - 1]);
            }
            if rest.contains(id) {
                assert(b.contains(id));
                let i = choose|i: int| 0 <= i < b.len() && b[i] == id;
                assert(b_front[i] == id);
            }
        }
        lemma_lists_unique(a_front, b_front, rest);
        assert(a =~= a_front.push(top));
        assert(b =~= b_front.push(top));
    }
}

/// Whether a change record belongs to the collection of the account and lies
/// in the index range `(from_index, to_index]`.
pub open spec fn in_range(
    key: Key,
    account_id: AccountId,
    collection: Collection,
    from_index: int,
    to_index: int,
) -> bool {
    key.major == account_id as u64 && key.minor == collection.spec_id() as u64 && from_index
        < key.tail <= to_index
}

/// The net effect of the change records of one collection of one account in
/// the index range `(from_index, to_index]`, folded in key order. The thread
/// collection holds no records of its own and always nets to nothing.
pub open spec fn merged(
    records: Seq<Row<Change>>,
    account_id: AccountId,
    collection: Collection,
    from_index: int,
    to_index: int,
) -> MergedChangesView
    decreases records.len(),
{
    if collection == Collection::Thread || records.len() == 0 {
        MergedChangesView::empty()
    } else {
        let before = merged(records.drop_last(), account_id, collection, from_index, to_index);
        if in_range(records.last().key, account_id, collection, from_index, to_index) {
            before.apply(records.last().value@)
        } else {
            before
        }
    }
}

proof fn lemma_insert_all_disjoint(m: MergedChangesView, ids: Seq<DocumentId>)
    requires
        m.disjoint(),
    ensures
        m.insert_all(ids).disjoint(),
    decreases ids.len(),
{
    if ids.len() > 0 {
        lemma_insert_all_disjoint(m, ids.drop_last());
    }
}

proof fn lemma_update_all_disjoint(m: MergedChangesView, ids: Seq<DocumentId>)
    requires
        m.disjoint(),
    ensures
        m.update_all(ids).disjoint(),
    decreases ids.len(),
{
    if ids.len() > 0 {
        lemma_update_all_disjoint(m, ids.drop_last());
    }
}

proof fn lemma_delete_all_disjoint(m: MergedChangesView, ids: Seq<DocumentId>)
    requires
        m.disjoint(),
    ensures
        m.delete_all(ids).disjoint(),
    decreases ids.len(),
{
    if ids.len() > 0 {
        lemma_delete_all_disjoint(m, ids.drop_last());
    }
}

/// Folding a change record into disjoint sets leaves them disjoint.
pub proof fn lemma_apply_disjoint(m: MergedChangesView, change: ChangeView)
    requires
        m.disjoint(),
    ensures
        m.apply(change).disjoint(),
{
    lemma_insert_all_disjoint(m, change.inserts);
    lemma_update_all_disjoint(m.insert_all(change.inserts), change.updates);
    lemma_delete_all_disjoint(
        m.insert_all(change.inserts).update_all(change.updates),
        change.deletes,
    );
}

/// Whatever change records are merged, and over whatever range, no document
/// id ends up in two of the sets of inserts, updates and deletes.
pub proof fn lemma_merged_disjoint(
    records: Seq<Row<Change>>,
    account_id: AccountId,
    collection: Collection,
    from_index: int,
    to_index: int,
)
    ensures
        merged(records, account_id, collection, from_index, to_index).disjoint(),
    decreases records.len(),
{
    if collection != Collection::Thread && records.len() > 0 {
        lemma_merged_disjoint(records.drop_last(), account_id, collection, from_index, to_index);
        lemma_apply_disjoint(
            merged(records.drop_last(), account_id, collection, from_index, to_index),
            records.last().value@,
        );
    }
}

/// Merging the thread collection yields three empty sets, whatever the
/// records and the range.
pub proof fn lemma_merged_thread_empty(
    records: Seq<Row<Change>>,
    account_id: AccountId,
    from_index: int,
    to_index: int,
)
    ensures
        merged(records, account_id, Collection::Thread, from_index, to_index)
            == MergedChangesView::empty(),
{
}

/// Records outside the range or of another collection leave the result as it
/// was.
pub proof fn lemma_merged_skip(
    records: Seq<Row<Change>>,
    account_id: AccountId,
    collection: Collection,
    from_index: int,
    to_index: int,
    len: int,
)
    requires
        0 <= len <= records.len(),
        forall|i: int|
            len <= i < records.len() ==> !in_range(
                (#[trigger] records[i]).key,
                account_id,
                collection,
                from_index,
                to_index,
            ),
    ensures
        merged(records, account_id, collection, from_index, to_index) == merged(
            records.take(len),
            account_id,
            collection,
            from_index,
            to_index,
        ),
    decreases records.len() - len,
{
    if len == records.len() {
        assert(records.take(len) =~= records);
    } else if collection != Collection::Thread {
        let front = records.drop_last();
        lemma_merged_skip(front, account_id, collection, from_index, to_index, len);
        assert(front.take(len) =~= records.take(len));
    }
}

impl MergedChanges {
    pub fn new() -> (changes: MergedChanges)
        ensures
            changes@ == MergedChangesView::empty(),
    {
        MergedChanges {
            inserts: RoaringBitmap::new(),
            updates: RoaringBitmap::new(),
            deletes: RoaringBitmap::new(),
        }
    }

    pub fn is_empty(&self) -> (empty: bool)
        ensures
            empty == self@.is_empty(),
    {
        self.inserts.is_empty() && self.updates.is_empty() && self.deletes.is_empty()
    }

    pub fn insert(&mut self, id: DocumentId)
        ensures
            final(self)@ == old(self)@.insert(id),
    {
        self.inserts.insert(id);
        self.updates.remove(id);
        self.deletes.remove(id);
    }

    pub fn update(&mut self, id: DocumentId)
        ensures
            final(self)@ == old(self)@.update(id),
    {
        if !self.inserts.contains(id) && !self.deletes.contains(id) {
            self.updates.insert(id);
        }
    }

    pub fn delete(&mut self, id: DocumentId)
        ensures
            final(self)@ == old(self)@.delete(id),
    {
        if !self.inserts.remove(id) {
            self.deletes.insert(id);
        }
        self.updates.remove(id);
        assert(self@.inserts =~= old(self)@.delete(id).inserts);
    }

    /// Folds one change record into the sets.
    pub fn apply(&mut self, change: &Change)
        ensures
            final(self)@ == old(self)@.apply(change@),
    {
        let mut i: usize = 0;
        while i < change.inserts.len()
            invariant
                i <= change.inserts@.len(),
                self@ == old(self)@.insert_all(change.inserts@.take(i as int)),
            decreases change.inserts@.len() - i,
        {
            self.insert(change.inserts[i]);
            assert(change.inserts@.take(i + 1).drop_last() =~= change.inserts@.take(i as int));
            i += 1;
        }
        assert(change.inserts@.take(i as int) =~= change.inserts@);
        let ghost inserted = self@;
        let mut i: usize = 0;
        while i < change.updates.len()
            invariant
                i <= change.updates@.len(),
                self@ == inserted.update_all(change.updates@.take(i as int)),
            decreases change.updates@.len() - i,
        {
            self.update(change.updates[i]);
            assert(change.updates@.take(i + 1).drop_last() =~= change.updates@.take(i as int));
            i += 1;
        }
        assert(change.updates@.take(i as int) =~= change.updates@);
        let ghost updated = self@;
        let mut i: usize = 0;
        while i < change.deletes.len()
            invariant
                i <= change.deletes@.len(),
                self@ == updated.delete_all(change.deletes@.take(i as int)),
            decreases change.deletes@.len() - i,
        {
            self.delete(change.deletes[i]);
            assert(change.deletes@.take(i + 1).drop_last() =~= change.deletes@.take(i as int));
            i += 1;
        }
        assert(change.deletes@.take(i as int) =~= change.deletes@);
    }

    /// Tells whether no id is in two of the three sets.
    pub fn is_disjoint(&self) -> (disjoint: bool)
        ensures
            disjoint == self@.disjoint(),
    {
        self.inserts.is_disjoint(&self.updates) && self.inserts.is_disjoint(&self.deletes)
            && self.updates.is_disjoint(&self.deletes)
    }

    /// Empties the three sets.
    pub fn clear(&mut self)
        ensures
            final(self)@ == MergedChangesView::empty(),
    {
        self.inserts.clear();
        self.updates.clear();
        self.deletes.clear();
    }

    pub fn duplicate(&self) -> (copy: MergedChanges)
        ensures
            copy@ == self@,
    {
        MergedChanges {
            inserts: self.inserts.clone(),
            updates: self.updates.clone(),
            deletes: self.deletes.clone(),
        }
    }

    /// The ids of a set, in increasing order.
    pub fn ids(bitmap: &RoaringBitmap) -> (ids: Vec<DocumentId>)
        ensures
            lists(ids@, bitmap_ids(*bitmap)),
            ids@ == sorted_ids(bitmap_ids(*bitmap)),
    {
        let ids = bitmap_to_vec(bitmap);
        proof {
            let chosen = sorted_ids(bitmap_ids(*bitmap));
            assert(lists(ids@, bitmap_ids(*bitmap)));
            lemma_lists_unique(ids@, chosen, bitmap_ids(*bitmap));
        }
        ids
    }
}

/// The number that four bytes stand for, most significant byte first.
pub open spec fn spec_be32(bytes: Seq<u8>) -> int {
    bytes[0] as int * 0x100_0000 + bytes[1] as int * 0x1_0000 + bytes[2] as int * 0x100
        + bytes[3] as int
}

/// The four bytes that stand for a number, most significant byte first.
pub open spec fn be32_bytes(value: u32) -> Seq<u8> {
    seq![
        (value / 0x100_0000) as u8,
        ((value / 0x1_0000) % 0x100) as u8,
        ((value / 0x100) % 0x100) as u8,
        (value % 0x100) as u8,
    ]
}

/// Four bytes that stand for a number stand for that number.
pub proof fn lemma_be32_reads_back(value: u32)
    ensures
        be32_bytes(value).len() == 4,
        spec_be32(be32_bytes(value)) == value,
{
}

/// Appends `value` as four bytes, most significant byte first.
fn push_be32(bytes: &mut Vec<u8>, value: u32)
    ensures
        final(bytes)@ == old(bytes)@ + be32_bytes(value),
{
    let b0 = (value / 0x100_0000) as u8;
    let b1 = ((value / 0x1_0000) % 0x100) as u8;
    let b2 = ((value / 0x100) % 0x100) as u8;
    let b3 = (value % 0x100) as u8;
    bytes.push(b0);
    bytes.push(b1);
    bytes.push(b2);
    bytes.push(b3);
    assert(bytes@ =~= old(bytes)@ + be32_bytes(value));
}

/// Reads four bytes at `at` as a number, most significant byte first.
fn read_be32(bytes: &[u8], at: usize) -> (value: u32)
    requires
        at + 4 <= bytes@.len(),
    ensures
        value == spec_be32(bytes@.subrange(at as int, at + 4)),
{
    let ghost part = bytes@.subrange(at as int, at + 4);
    assert(part[0] == bytes@[at as int] && part[1] == bytes@[at + 1] && part[2] == bytes@[at + 2]
        && part[3] == bytes@[at + 3]);
    let b0 = bytes[at] as u32;
    let b1 = bytes[at + 1] as u32;
    let b2 = bytes[at + 2] as u32;
    let b3 = bytes[at + 3] as u32;
    b0 * 0x100_0000 + b1 * 0x1_0000 + b2 * 0x100 + b3
}

/// Three sections framed as serialized changes: the lengths of the
/// sections, four bytes each, then the sections.
pub open spec fn framed(inserts: Seq<u8>, updates: Seq<u8>, deletes: Seq<u8>) -> Seq<u8> {
    be32_bytes(inserts.len() as u32) + be32_bytes(updates.len() as u32) + be32_bytes(
        deletes.len() as u32,
    ) + inserts + updates + deletes
}

/// Frames three sections as serialized changes. A section that is too
/// long for its length to be written in four bytes cannot be framed.
pub fn frame_changes(inserts: Vec<u8>, updates: Vec<u8>, deletes: Vec<u8>) -> (bytes: Option<
    Vec<u8>,
>)
    ensures
        bytes is Some <==> inserts@.len() <= u32::MAX && updates@.len() <= u32::MAX
            && deletes@.len() <= u32::MAX,
        bytes is Some ==> bytes.unwrap()@ == framed(inserts@, updates@, deletes@),
{
    if inserts.len() > u32::MAX as usize || updates.len() > u32::MAX as usize || deletes.len()
        > u32::MAX as usize {
        return None;
    }
    let mut bytes: Vec<u8> = Vec::new();
    push_be32(&mut bytes, inserts.len() as u32);
    push_be32(&mut bytes, updates.len() as u32);
    push_be32(&mut bytes, deletes.len() as u32);
    let mut inserts = inserts;
    let mut updates = updates;
    let mut deletes = deletes;
    let ghost sections = (inserts@, updates@, deletes@);
    bytes.append(&mut inserts);
    bytes.append(&mut updates);
    bytes.append(&mut deletes);
    assert(bytes@ =~= framed(sections.0, sections.1, sections.2));
    Some(bytes)
}

/// The set that one section of serialized changes stands for: no bytes
/// stand for the empty set, any other bytes for the bitmap they decode to.
pub open spec fn decoded_section(bytes: Seq<u8>) -> Option<Set<DocumentId>> {
    if bytes.len() == 0 {
        Some(Set::empty())
    } else {
        bitmap_decoded(bytes)
    }
}

/// The changes that serialized bytes stand for: three lengths of four bytes
/// each, then the sections of inserts, updates and deletes of those lengths,
/// and nothing more.
pub open spec fn decoded_changes(bytes: Seq<u8>) -> Option<MergedChangesView> {
    if bytes.len() < 12 {
        None
    } else {
        let inserts_len = spec_be32(bytes.subrange(0, 4));
        let updates_len = spec_be32(bytes.subrange(4, 8));
        let deletes_len = spec_be32(bytes.subrange(8, 12));
        if bytes.len() != 12 + inserts_len + updates_len + deletes_len {
            None
        } else {
            match (
                decoded_section(bytes.subrange(12, 12 + inserts_len)),
                decoded_section(bytes.subrange(12 + inserts_len, 12 + inserts_len + updates_len)),
                decoded_section(
                    bytes.subrange(12 + inserts_len + updates_len, bytes.len() as int),
                ),
            ) {
                (Some(inserts), Some(updates), Some(deletes)) => Some(
                    MergedChangesView { inserts, updates, deletes },
                ),
                _ => None,
            }
        }
    }
}

/// Framed sections stand for the changes that the sections stand for.
pub proof fn lemma_framed_decodes(inserts: Seq<u8>, updates: Seq<u8>, deletes: Seq<u8>)
    requires
        inserts.len() <= u32::MAX,
        updates.len() <= u32::MAX,
        deletes.len() <= u32::MAX,
    ensures
        decoded_changes(framed(inserts, updates, deletes)) == match (
            decoded_section(inserts),
            decoded_section(updates),
            decoded_section(deletes),
        ) {
            (Some(inserts), Some(updates), Some(deletes)) => Some(
                MergedChangesView { inserts, updates, deletes },
            ),
            _ => None,
        },
{
    let all = framed(inserts, updates, deletes);
    let a = inserts.len() as int;
    let b = updates.len() as int;
    lemma_be32_reads_back(inserts.len() as u32);
    lemma_be32_reads_back(updates.len() as u32);
    lemma_be32_reads_back(deletes.len() as u32);
    assert(all.subrange(0, 4) =~= be32_bytes(inserts.len() as u32));
    assert(all.subrange(4, 8) =~= be32_bytes(updates.len() as u32));
    assert(all.subrange(8, 12) =~= be32_bytes(deletes.len() as u32));
    assert(all.subrange(12, 12 + a) =~= inserts);
    assert(all.subrange(12 + a, 12 + a + b) =~= updates);
    assert(all.subrange(12 + a + b, all.len() as int) =~= deletes);
}

/// The section that the serialized form of a set with ids in it makes: the
/// form itself, unless serializing failed, or the form is empty and so
/// would stand for the empty set, or it is too long for its length to be
/// written in four bytes.
pub fn checked_section(serialized: Option<Vec<u8>>) -> (section: Option<Vec<u8>>)
    ensures
        section == match serialized {
            Some(bytes) => if 0 < bytes@.len() <= u32::MAX {
                Some(bytes)
            } else {
                None
            },
            None => None,
        },
{
    match serialized {
        Some(bytes) => {
            if bytes.len() == 0 || bytes.len() > u32::MAX as usize {
                None
            } else {
                Some(bytes)
            }
        },
        None => None,
    }
}

/// Whether `bytes` is a section for `set`: no bytes for the empty set, and
/// for any other set bytes that decode to it and whose number fits in four
/// bytes.
pub open spec fn is_section(bytes: Seq<u8>, set: Set<DocumentId>) -> bool {
    &&& decoded_section(bytes) == Some(set)
    &&& bytes.len() <= u32::MAX
    &&& bytes.len() == 0 <==> set == Set::<DocumentId>::empty()
}

/// The section that a bitmap makes: no bytes where it holds no id, else its
/// serialized form; none where that form is empty, and so would stand for
/// the empty set, or is too long for its length to be written in four
/// bytes.
pub open spec fn section_of(bitmap: RoaringBitmap) -> Option<Seq<u8>> {
    if bitmap_ids(bitmap) == Set::<DocumentId>::empty() {
        Some(Seq::empty())
    } else if 0 < bitmap_bytes(bitmap).len() <= u32::MAX {
        Some(bitmap_bytes(bitmap))
    } else {
        None
    }
}

/// Serializes one set as a section: the section of the bitmap, which
/// stands for the set that the bitmap holds.
fn serialize_section(bitmap: &RoaringBitmap) -> (section: Option<Vec<u8>>)
    ensures
        match section {
            Some(bytes) => section_of(*bitmap) == Some(bytes@) && is_section(
                bytes@,
                bitmap_ids(*bitmap),
            ),
            None => section_of(*bitmap) is None,
        },
{
    if bitmap.is_empty() {
        return Some(Vec::new());
    }
    checked_section(bitmap_serialize(bitmap))
}

/// Reads one section back.
fn deserialize_section(bytes: &[u8], from: usize, to: usize) -> (bitmap: Option<RoaringBitmap>)
    requires
        from <= to <= bytes@.len(),
    ensures
        match bitmap {
            Some(bitmap) => decoded_section(bytes@.subrange(from as int, to as int)) == Some(
                bitmap_ids(bitmap),
            ),
            None => decoded_section(bytes@.subrange(from as int, to as int)) is None,
        },
{
    if from == to {
        Some(RoaringBitmap::new())
    } else {
        let section = vstd::slice::slice_subrange(bytes, from, to);
        bitmap_deserialize(section)
    }
}

impl MergedChanges {
    /// The serialized form of the changes: the sections of the three
    /// bitmaps, framed behind their lengths; none where one of them has no
    /// section.
    pub open spec fn serialized_form(&self) -> Option<Seq<u8>> {
        match (section_of(self.inserts), section_of(self.updates), section_of(self.deletes)) {
            (Some(inserts), Some(updates), Some(deletes)) => Some(
                framed(inserts, updates, deletes),
            ),
            _ => None,
        }
    }

    /// Serializes the three sets to the serialized form of the changes,
    /// which reads back as the same three sets. `None` where the changes
    /// have no serialized form; changes without any id always have one,
    /// three lengths of zero.
    pub fn serialize(&self) -> (serialized: Option<Vec<u8>>)
        ensures
            match serialized {
                Some(bytes) => self.serialized_form() == Some(bytes@) && decoded_changes(bytes@)
                    == Some(self@),
                None => self.serialized_form() is None,
            },
            self@.is_empty() ==> serialized is Some,
    {
        let inserts = match serialize_section(&self.inserts) {
            Some(section) => section,
            None => {
                return None;
            },
        };
        let updates = match serialize_section(&self.updates) {
            Some(section) => section,
            None => {
                return None;
            },
        };
        let deletes = match serialize_section(&self.deletes) {
            Some(section) => section,
            None => {
                return None;
            },
        };
        proof {
            lemma_framed_decodes(inserts@, updates@, deletes@);
        }
        let ghost sections = (inserts@, updates@, deletes@);
        let bytes = frame_changes(inserts, updates, deletes);
        assert(bytes.unwrap()@ == framed(sections.0, sections.1, sections.2));
        bytes
    }

    /// Reads serialized changes back. `None` where the bytes stand for no
    /// changes.
    pub fn deserialize(bytes: &[u8]) -> (changes: Option<MergedChanges>)
        ensures
            match changes {
                Some(changes) => decoded_changes(bytes@) == Some(changes@),
                None => decoded_changes(bytes@) is None,
            },
    {
        if bytes.len() < 12 {
            return None;
        }
        let inserts_len = read_be32(bytes, 0) as u64;
        let updates_len = read_be32(bytes, 4) as u64;
        let deletes_len = read_be32(bytes, 8) as u64;
        let total: u64 = 12 + inserts_len + updates_len + deletes_len;
        if bytes.len() as u64 != total {
            return None;
        }
        let inserts_end = (12 + inserts_len) as usize;
        let updates_end = (12 + inserts_len + updates_len) as usize;
        let inserts = deserialize_section(bytes, 12, inserts_end);
        let updates = deserialize_section(bytes, inserts_end, updates_end);
        let deletes = deserialize_section(bytes, updates_end, bytes.len());
        match (inserts, updates, deletes) {
            (Some(inserts), Some(updates), Some(deletes)) => Some(
                MergedChanges { inserts, updates, deletes },
            ),
            _ => None,
        }
    }
}

} // verus!
