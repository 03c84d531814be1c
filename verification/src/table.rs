//! An ordered table: rows kept in strictly increasing key order, as an
//! ordered key-value store presents them.

use vstd::prelude::*;

verus! {

/// A three-part key, ordered part by part.
#[derive(Clone, Copy, Debug, PartialEq, Eq, Structural)]
pub struct Key {
    pub major: u64,
    pub minor: u64,
    pub tail: u64,
}

impl Key {
    /// Strict lexicographic order.
    pub open spec fn lt(self, other: Key) -> bool {
        self.major < other.major || (self.major == other.major && (self.minor < other.minor || (
        self.minor == other.minor && self.tail < other.tail)))
    }

    pub fn precedes(&self, other: &Key) -> (before: bool)
        ensures
            before == self.lt(*other),
    {
        self.major < other.major || (self.major == other.major && (self.minor < other.minor || (
        self.minor == other.minor && self.tail < other.tail)))
    }
}

/// One of the three parts of a key.
#[derive(Clone, Copy, Debug, PartialEq, Eq, Structural)]
pub enum KeyPart {
    Major,
    Minor,
    Tail,
}

impl Key {
    pub open spec fn spec_part(self, part: KeyPart) -> u64 {
        match part {
            KeyPart::Major => self.major,
            KeyPart::Minor => self.minor,
            KeyPart::Tail => self.tail,
        }
    }

    #[verifier::when_used_as_spec(spec_part)]
    pub fn part(self, part: KeyPart) -> (value: u64)
        ensures
            value == self.spec_part(part),
    {
        match part {
            KeyPart::Major => self.major,
            KeyPart::Minor => self.minor,
            KeyPart::Tail => self.tail,
        }
    }
}

#[derive(Debug, Clone, PartialEq, Eq)]
pub struct Row<V> {
    pub key: Key,
    pub value: V,
}

/// Keys strictly increase along `rows`.
pub open spec fn sorted<V>(rows: Seq<Row<V>>) -> bool {
    forall|i: int, j: int| 0 <= i < j < rows.len() ==> (#[trigger] rows[i]).key.lt((#[trigger] rows[j]).key)
}

/// How many rows have a key below `key`.
pub open spec fn rank<V>(rows: Seq<Row<V>>, key: Key) -> nat
    decreases rows.len(),
{
    if rows.len() == 0 {
        0
    } else {
        rank(rows.drop_last(), key) + if rows.last().key.lt(key) {
            1nat
        } else {
            0nat
        }
    }
}

/// The position of the row that holds `key`, if one does.
pub open spec fn position<V>(rows: Seq<Row<V>>, key: Key) -> Option<int> {
    let pos = rank(rows, key) as int;
    if pos < rows.len() && rows[pos].key == key {
        Some(pos)
    } else {
        None
    }
}

/// `rows` after `key` has been set to `value`: the row that held `key` is
/// replaced, or a new row enters at the place that keeps the order.
pub open spec fn put<V>(rows: Seq<Row<V>>, key: Key, value: V) -> Seq<Row<V>> {
    let pos = rank(rows, key) as int;
    if pos < rows.len() && rows[pos].key == key {
        rows.update(pos, Row { key, value })
    } else {
        rows.insert(pos, Row { key, value })
    }
}

/// `rows` without the row that holds `key`.
pub open spec fn without<V>(rows: Seq<Row<V>>, key: Key) -> Seq<Row<V>> {
    match position(rows, key) {
        Some(pos) => rows.remove(pos),
        None => rows,
    }
}

/// In sorted rows the rank of a key is the one position that splits the rows
/// into those below the key and those at or above it.
pub proof fn lemma_rank_is_split<V>(rows: Seq<Row<V>>, key: Key, pos: int)
    requires
        sorted(rows),
        0 <= pos <= rows.len(),
        forall|i: int| 0 <= i < pos ==> (#[trigger] rows[i]).key.lt(key),
        forall|i: int| pos <= i < rows.len() ==> !(#[trigger] rows[i]).key.lt(key),
    ensures
        rank(rows, key) == pos,
    decreases rows.len(),
{
    if rows.len() > 0 {
        let front = rows.drop_last();
        if pos == rows.len() {
            lemma_rank_is_split(front, key, pos - 1);
        } else {
            lemma_rank_is_split(front, key, pos);
        }
    }
}

/// The rank never exceeds the number of rows, and in sorted rows it splits
/// them.
pub proof fn lemma_rank_splits<V>(rows: Seq<Row<V>>, key: Key)
    requires
        sorted(rows),
    ensures
        rank(rows, key) <= rows.len(),
        forall|i: int| 0 <= i < rank(rows, key) ==> (#[trigger] rows[i]).key.lt(key),
        forall|i: int| rank(rows, key) <= i < rows.len() ==> !(#[trigger] rows[i]).key.lt(key),
    decreases rows.len(),
{
    if rows.len() > 0 {
        let front = rows.drop_last();
        lemma_rank_splits(front, key);
        let r = rank(front, key) as int;
        if rows.last().key.lt(key) {
            assert forall|i: int| 0 <= i < rows.len() implies (#[trigger] rows[i]).key.lt(key) by {
                if i < rows.len() - 1 {
                    assert(rows[i].key.lt(rows[rows.len() - 1].key));
                }
            }
            lemma_rank_is_split(front, key, front.len() as int);
        } else {
            assert forall|i: int| r <= i < rows.len() implies !(#[trigger] rows[i]).key.lt(key) by {
                if i < rows.len() - 1 {
                    assert(front[i] == rows[i]);
                }
            }
            assert forall|i: int| 0 <= i < r implies (#[trigger] rows[i]).key.lt(key) by {
                assert(front[i] == rows[i]);
            }
        }
    }
}

/// A key is held by sorted rows exactly when `position` finds it.
pub proof fn lemma_position_finds<V>(rows: Seq<Row<V>>, key: Key)
    requires
        sorted(rows),
    ensures
        match position(rows, key) {
            Some(pos) => 0 <= pos < rows.len() && rows[pos].key == key,
            None => forall|i: int| 0 <= i < rows.len() ==> (#[trigger] rows[i]).key != key,
        },
{
    lemma_rank_splits(rows, key);
    let pos = rank(rows, key) as int;
    if position(rows, key) is None {
        assert forall|i: int| 0 <= i < rows.len() implies (#[trigger] rows[i]).key != key by {
            if rows[i].key == key {
                if i < pos {
                    assert(rows[i].key.lt(key));
                } else if i > pos {
                    assert(rows[pos].key.lt(rows[i].key));
                    assert(!rows[pos].key.lt(key));
                }
            }
        }
    }
}

/// Setting a key keeps the rows sorted.
pub proof fn lemma_put_sorted<V>(rows: Seq<Row<V>>, key: Key, value: V)
    requires
        sorted(rows),
    ensures
        sorted(put(rows, key, value)),
{
    lemma_rank_splits(rows, key);
    let pos = rank(rows, key) as int;
    let after = put(rows, key, value);
    if pos < rows.len() && rows[pos].key == key {
        assert forall|i: int, j: int| 0 <= i < j < after.len() implies (#[trigger] after[i]).key.lt(
            (#[trigger] after[j]).key,
        ) by {
            assert(rows[i].key.lt(rows[j].key));
        }
    } else {
        assert forall|i: int, j: int| 0 <= i < j < after.len() implies (#[trigger] after[i]).key.lt(
            (#[trigger] after[j]).key,
        ) by {
            if j < pos {
                assert(rows[i].key.lt(rows[j].key));
            } else if j == pos {
                assert(rows[i].key.lt(key));
            } else if i == pos {
                assert(!rows[j - 1].key.lt(key));
                if j - 1 > pos {
                    assert(rows[pos].key.lt(rows[j - 1].key));
                }
            } else if i < pos {
                assert(rows[i].key.lt(key));
                assert(!rows[j - 1].key.lt(key));
            } else {
                assert(rows[i - 1].key.lt(rows[j - 1].key));
            }
        }
    }
}

/// Taking rows out keeps the rest sorted.
pub proof fn lemma_remove_sorted<V>(rows: Seq<Row<V>>, pos: int)
    requires
        sorted(rows),
        0 <= pos < rows.len(),
    ensures
        sorted(rows.remove(pos)),
{
    let after = rows.remove(pos);
    assert forall|i: int, j: int| 0 <= i < j < after.len() implies (#[trigger] after[i]).key.lt(
        (#[trigger] after[j]).key,
    ) by {
        let si = if i < pos { i } else { i + 1 };
        let sj = if j < pos { j } else { j + 1 };
        assert(rows[si].key.lt(rows[sj].key));
    }
}

/// Looking a key up after another was set: the key that was set holds the
/// new value, every other key holds what it held.
pub proof fn lemma_put_lookup<V>(rows: Seq<Row<V>>, key: Key, value: V, other: Key)
    requires
        sorted(rows),
    ensures
        match position(put(rows, key, value), other) {
            Some(pos) => 0 <= pos < put(rows, key, value).len() && if other == key {
                put(rows, key, value)[pos].value == value
            } else {
                position(rows, other) is Some && put(rows, key, value)[pos].value
                    == rows[position(rows, other).unwrap()].value
            },
            None => other != key && position(rows, other) is None,
        },
{
    let after = put(rows, key, value);
    lemma_put_sorted(rows, key, value);
    lemma_rank_splits(rows, key);
    lemma_position_finds(rows, other);
    lemma_position_finds(after, other);
    lemma_position_finds(rows, key);
    let pos = rank(rows, key) as int;
    let replaced = pos < rows.len() && rows[pos].key == key;
    assert(after[pos].key == key);
    match position(after, other) {
        Some(p) => {
            if other != key {
                let q = if replaced || p < pos {
                    p
                } else {
                    p - 1
                };
                assert(rows[q].key == other);
                let found = position(rows, other).unwrap();
                if found != q {
                    if found < q {
                        assert(rows[found].key.lt(rows[q].key));
                    } else {
                        assert(rows[q].key.lt(rows[found].key));
                    }
                }
            } else if p != pos {
                if p < pos {
                    assert(after[p].key.lt(after[pos].key));
                } else {
                    assert(after[pos].key.lt(after[p].key));
                }
            }
        },
        None => {
            if position(rows, other) is Some {
                let found = position(rows, other).unwrap();
                let q = if replaced || found < pos {
                    found
                } else {
                    found + 1
                };
                assert(after[q].key == other);
            }
        },
    }
}

/// Looking a key up after another was taken out: that key is gone, every
/// other key holds what it held.
pub proof fn lemma_without_lookup<V>(rows: Seq<Row<V>>, key: Key, other: Key)
    requires
        sorted(rows),
    ensures
        sorted(without(rows, key)),
        match position(without(rows, key), other) {
            Some(pos) => 0 <= pos < without(rows, key).len() && other != key && position(
                rows,
                other,
            ) is Some && without(rows, key)[pos].value == rows[position(rows, other).unwrap()].value,
            None => other == key || position(rows, other) is None,
        },
{
    let after = without(rows, key);
    lemma_position_finds(rows, key);
    lemma_position_finds(rows, other);
    match position(rows, key) {
        Some(gone) => {
            lemma_remove_sorted(rows, gone);
            lemma_position_finds(after, other);
            match position(after, other) {
                Some(p) => {
                    let q = if p < gone {
                        p
                    } else {
                        p + 1
                    };
                    assert(rows[q].key == other);
                    if other == key {
                        if q < gone {
                            assert(rows[q].key.lt(rows[gone].key));
                        } else {
                            assert(rows[gone].key.lt(rows[q].key));
                        }
                    }
                    let found = position(rows, other).unwrap();
                    if found != q {
                        if found < q {
                            assert(rows[found].key.lt(rows[q].key));
                        } else {
                            assert(rows[q].key.lt(rows[found].key));
                        }
                    }
                },
                None => {
                    if other != key && position(rows, other) is Some {
                        let found = position(rows, other).unwrap();
                        let q = if found < gone {
                            found
                        } else {
                            found - 1
                        };
                        assert(after[q].key == other);
                    }
                },
            }
        },
        None => {},
    }
}

/// In sorted rows each row is found under its own key.
pub proof fn lemma_row_position<V>(rows: Seq<Row<V>>, pos: int)
    requires
        sorted(rows),
        0 <= pos < rows.len(),
    ensures
        position(rows, rows[pos].key) == Some(pos),
{
    lemma_position_finds(rows, rows[pos].key);
    let found = position(rows, rows[pos].key).unwrap();
    if found < pos {
        assert(rows[found].key.lt(rows[pos].key));
    } else if found > pos {
        assert(rows[pos].key.lt(rows[found].key));
    }
}

/// The rows with each value replaced by its view.
pub open spec fn rows_view<V: View>(rows: Seq<Row<V>>) -> Seq<Row<V::V>> {
    Seq::new(rows.len(), |i: int| Row { key: rows[i].key, value: rows[i].value@ })
}

/// Viewing the values changes nothing about the keys.
pub proof fn lemma_view_keys<V: View>(rows: Seq<Row<V>>, key: Key)
    ensures
        rank(rows_view(rows), key) == rank(rows, key),
        sorted(rows) == sorted(rows_view(rows)),
        position(rows_view(rows), key) == position(rows, key),
    decreases rows.len(),
{
    let viewed = rows_view(rows);
    if rows.len() > 0 {
        lemma_view_keys(rows.drop_last(), key);
        assert(viewed.drop_last() =~= rows_view(rows.drop_last()));
    }
    if sorted(rows) {
        assert forall|i: int, j: int| 0 <= i < j < viewed.len() implies (#[trigger] viewed[i]).key.lt(
            (#[trigger] viewed[j]).key,
        ) by {
            assert(rows[i].key.lt(rows[j].key));
        }
    }
    if sorted(viewed) {
        assert forall|i: int, j: int| 0 <= i < j < rows.len() implies (#[trigger] rows[i]).key.lt(
            (#[trigger] rows[j]).key,
        ) by {
            assert(viewed[i].key.lt(viewed[j].key));
        }
    }
}

/// Setting a key and viewing the values commute.
pub proof fn lemma_view_put<V: View>(rows: Seq<Row<V>>, key: Key, value: V)
    requires
        sorted(rows),
    ensures
        rows_view(put(rows, key, value)) == put(rows_view(rows), key, value@),
{
    lemma_view_keys(rows, key);
    lemma_rank_splits(rows, key);
    assert(rows_view(put(rows, key, value)) =~= put(rows_view(rows), key, value@));
}

/// Taking a key out and viewing the values commute.
pub proof fn lemma_view_without<V: View>(rows: Seq<Row<V>>, key: Key)
    requires
        sorted(rows),
    ensures
        rows_view(without(rows, key)) == without(rows_view(rows), key),
{
    lemma_view_keys(rows, key);
    lemma_position_finds(rows, key);
    assert(rows_view(without(rows, key)) =~= without(rows_view(rows), key));
}

/// Setting a key that was just taken out is the same as setting it at once.
pub proof fn lemma_put_after_without<V>(rows: Seq<Row<V>>, key: Key, value: V)
    requires
        sorted(rows),
    ensures
        put(without(rows, key), key, value) == put(rows, key, value),
{
    lemma_rank_splits(rows, key);
    lemma_position_finds(rows, key);
    match position(rows, key) {
        Some(pos) => {
            let rest = rows.remove(pos);
            lemma_remove_sorted(rows, pos);
            assert forall|i: int| 0 <= i < pos implies (#[trigger] rest[i]).key.lt(key) by {
                assert(rest[i] == rows[i]);
            }
            assert forall|i: int| pos <= i < rest.len() implies !(#[trigger] rest[i]).key.lt(key) by {
                assert(rest[i] == rows[i + 1]);
                assert(rows[pos].key.lt(rows[i + 1].key));
            }
            lemma_rank_is_split(rest, key, pos);
            if pos < rest.len() {
                assert(rest[pos] == rows[pos + 1]);
                assert(rows[pos].key.lt(rows[pos + 1].key));
            }
            assert(put(rest, key, value) =~= put(rows, key, value));
        },
        None => {},
    }
}

/// The rows whose key has a value of at most `limit` in part `part`, in
/// their order.
pub open spec fn kept<V>(rows: Seq<Row<V>>, part: KeyPart, limit: u64) -> Seq<Row<V>>
    decreases rows.len(),
{
    if rows.len() == 0 {
        rows
    } else {
        let before = kept(rows.drop_last(), part, limit);
        if rows.last().key.spec_part(part) <= limit {
            before.push(rows.last())
        } else {
            before
        }
    }
}

/// Each kept row is one of the rows and is within the limit, and each row
/// within the limit is kept.
pub proof fn lemma_kept_rows<V>(rows: Seq<Row<V>>, part: KeyPart, limit: u64)
    ensures
        kept(rows, part, limit).len() <= rows.len(),
        forall|i: int|
            0 <= i < kept(rows, part, limit).len() ==> (#[trigger] kept(
                rows,
                part,
                limit,
            )[i]).key.spec_part(part) <= limit && exists|j: int|
                0 <= j < rows.len() && rows[j] == kept(rows, part, limit)[i],
        forall|j: int|
            0 <= j < rows.len() && (#[trigger] rows[j]).key.spec_part(part) <= limit ==> exists|
                i: int,
            |
                0 <= i < kept(rows, part, limit).len() && kept(rows, part, limit)[i] == rows[j],
    decreases rows.len(),
{
    let result = kept(rows, part, limit);
    if rows.len() > 0 {
        let front = rows.drop_last();
        let before = kept(front, part, limit);
        lemma_kept_rows(front, part, limit);
        assert forall|i: int| 0 <= i < result.len() implies (#[trigger] result[i]).key.spec_part(
            part,
        ) <= limit && exists|j: int| 0 <= j < rows.len() && rows[j] == result[i] by {
            if i < before.len() {
                assert(result[i] == before[i]);
                let j = choose|j: int| 0 <= j < front.len() && front[j] == before[i];
                assert(rows[j] == result[i]);
            } else {
                assert(rows[rows.len() - 1] == result[i]);
            }
        }
        assert forall|j: int|
            0 <= j < rows.len() && (#[trigger] rows[j]).key.spec_part(part) <= limit implies exists|
            i: int,
        |
            0 <= i < result.len() && result[i] == rows[j] by {
            if j < front.len() {
                assert(front[j] == rows[j]);
                let i = choose|i: int| 0 <= i < before.len() && before[i] == front[j];
                assert(result[i] == rows[j]);
            } else {
                assert(result[result.len() - 1] == rows[j]);
            }
        }
    }
}

/// The rows whose key has a value above `limit` in part `part`, in their
/// order.
pub open spec fn above<V>(rows: Seq<Row<V>>, part: KeyPart, limit: u64) -> Seq<Row<V>>
    decreases rows.len(),
{
    if rows.len() == 0 {
        rows
    } else {
        let before = above(rows.drop_last(), part, limit);
        if rows.last().key.spec_part(part) > limit {
            before.push(rows.last())
        } else {
            before
        }
    }
}

/// Where the first `len` rows are within the limit and the others above it,
/// the rows above the limit are the others.
pub proof fn lemma_above_is_tail<V>(rows: Seq<Row<V>>, part: KeyPart, limit: u64, len: int)
    requires
        0 <= len <= rows.len(),
        forall|i: int| 0 <= i < len ==> (#[trigger] rows[i]).key.spec_part(part) <= limit,
        forall|i: int| len <= i < rows.len() ==> (#[trigger] rows[i]).key.spec_part(part) > limit,
    ensures
        above(rows, part, limit) == rows.skip(len),
        kept(rows, part, limit) == rows.take(len),
    decreases rows.len(),
{
    if rows.len() > 0 {
        let front = rows.drop_last();
        if len == rows.len() {
            lemma_above_is_tail(front, part, limit, len - 1);
            assert(front.skip(len - 1) =~= Seq::<Row<V>>::empty());
            assert(rows.skip(len) =~= Seq::<Row<V>>::empty());
            assert(front.take(len - 1).push(rows.last()) =~= rows.take(len));
        } else {
            lemma_above_is_tail(front, part, limit, len);
            assert(front.skip(len).push(rows.last()) =~= rows.skip(len));
            assert(front.take(len) =~= rows.take(len));
        }
    } else {
        assert(rows.skip(len) =~= rows);
        assert(rows.take(len) =~= rows);
    }
}

/// The rows whose key meets `keep`, in their order.
pub open spec fn filtered<V>(rows: Seq<Row<V>>, keep: spec_fn(Key) -> bool) -> Seq<Row<V>>
    decreases rows.len(),
{
    if rows.len() == 0 {
        rows
    } else {
        let before = filtered(rows.drop_last(), keep);
        if keep(rows.last().key) {
            before.push(rows.last())
        } else {
            before
        }
    }
}

/// Two conditions that agree on every key of the rows keep the same rows.
pub proof fn lemma_filtered_agree<V>(
    rows: Seq<Row<V>>,
    first: spec_fn(Key) -> bool,
    second: spec_fn(Key) -> bool,
)
    requires
        forall|i: int| 0 <= i < rows.len() ==> first((#[trigger] rows[i]).key) == second(rows[i].key),
    ensures
        filtered(rows, first) == filtered(rows, second),
    decreases rows.len(),
{
    if rows.len() > 0 {
        let front = rows.drop_last();
        assert forall|i: int| 0 <= i < front.len() implies first((#[trigger] front[i]).key)
            == second(front[i].key) by {
            assert(front[i] == rows[i]);
        }
        lemma_filtered_agree(front, first, second);
        assert(rows[rows.len() - 1] == rows.last());
    }
}

/// Each row that is kept is one of the rows and meets the condition.
pub proof fn lemma_filtered_rows<V>(rows: Seq<Row<V>>, keep: spec_fn(Key) -> bool)
    ensures
        filtered(rows, keep).len() <= rows.len(),
        forall|i: int|
            0 <= i < filtered(rows, keep).len() ==> keep(
                (#[trigger] filtered(rows, keep)[i]).key,
            ) && exists|j: int| 0 <= j < rows.len() && rows[j] == filtered(rows, keep)[i],
    decreases rows.len(),
{
    let result = filtered(rows, keep);
    if rows.len() > 0 {
        let front = rows.drop_last();
        let before = filtered(front, keep);
        lemma_filtered_rows(front, keep);
        assert forall|i: int| 0 <= i < result.len() implies keep((#[trigger] result[i]).key)
            && exists|j: int| 0 <= j < rows.len() && rows[j] == result[i] by {
            if i < before.len() {
                assert(result[i] == before[i]);
                let j = choose|j: int| 0 <= j < front.len() && front[j] == before[i];
                assert(rows[j] == result[i]);
            } else {
                assert(rows[rows.len() - 1] == result[i]);
            }
        }
    }
}

/// Keeping rows by one condition and then by another is keeping them by
/// both.
pub proof fn lemma_filtered_twice<V>(
    rows: Seq<Row<V>>,
    first: spec_fn(Key) -> bool,
    second: spec_fn(Key) -> bool,
)
    ensures
        filtered(filtered(rows, first), second) == filtered(
            rows,
            |key: Key| first(key) && second(key),
        ),
    decreases rows.len(),
{
    if rows.len() > 0 {
        let front = rows.drop_last();
        lemma_filtered_twice(front, first, second);
        if first(rows.last().key) {
            let kept_first = filtered(rows, first);
            assert(kept_first.drop_last() =~= filtered(front, first));
        }
    }
}

/// Taking a key out of sorted rows is keeping the rows of every other key.
pub proof fn lemma_without_is_filtered<V>(rows: Seq<Row<V>>, key: Key)
    requires
        sorted(rows),
    ensures
        without(rows, key) == filtered(rows, |other: Key| other != key),
    decreases rows.len(),
{
    let keep = |other: Key| other != key;
    lemma_position_finds(rows, key);
    if rows.len() > 0 {
        let front = rows.drop_last();
        assert forall|i: int, j: int| 0 <= i < j < front.len() implies (#[trigger] front[i]).key.lt(
            (#[trigger] front[j]).key,
        ) by {
            assert(rows[i].key.lt(rows[j].key));
        }
        lemma_without_is_filtered(front, key);
        lemma_position_finds(front, key);
        match position(rows, key) {
            Some(pos) => {
                if pos == rows.len() - 1 {
                    assert forall|i: int| 0 <= i < front.len() implies (#[trigger] front[i]).key
                        != key by {
                        assert(rows[i].key.lt(rows[pos].key));
                    }
                    assert(rows.remove(pos) =~= front);
                } else {
                    assert(front[pos].key == key);
                    let found = position(front, key).unwrap();
                    if found != pos {
                        if found < pos {
                            assert(front[found].key.lt(front[pos].key));
                        } else {
                            assert(front[pos].key.lt(front[found].key));
                        }
                    }
                    assert(rows[pos].key.lt(rows[rows.len() - 1].key));
                    assert(rows.remove(pos) =~= front.remove(pos).push(rows.last()));
                }
            },
            None => {
                assert(rows[rows.len() - 1].key != key);
                if position(front, key) is Some {
                    let found = position(front, key).unwrap();
                    assert(rows[found].key == key);
                }
                assert(front.push(rows.last()) =~= rows);
            },
        }
    }
}

/// Rows whose neighbours are in order are in order throughout.
pub proof fn lemma_neighbours_sorted<V>(rows: Seq<Row<V>>)
    requires
        forall|k: int| 0 < k < rows.len() ==> rows[k - 1].key.lt((#[trigger] rows[k]).key),
    ensures
        sorted(rows),
    decreases rows.len(),
{
    if rows.len() > 0 {
        let front = rows.drop_last();
        assert forall|k: int| 0 < k < front.len() implies front[k - 1].key.lt(
            (#[trigger] front[k]).key,
        ) by {
            assert(rows[k - 1].key.lt(rows[k].key));
        }
        lemma_neighbours_sorted(front);
        assert forall|i: int, j: int| 0 <= i < j < rows.len() implies (#[trigger] rows[i]).key.lt(
            (#[trigger] rows[j]).key,
        ) by {
            if j < rows.len() - 1 {
                assert(front[i].key.lt(front[j].key));
            } else {
                assert(rows[j - 1].key.lt(rows[j].key));
                if i < j - 1 {
                    assert(front[i].key.lt(front[j - 1].key));
                }
            }
        }
    }
}

/// Rows in key order.
#[derive(Debug, Clone, PartialEq, Eq)]
pub struct Table<V> {
    rows: Vec<Row<V>>,
}

impl<V> View for Table<V> {
    type V = Seq<Row<V>>;

    closed spec fn view(&self) -> Seq<Row<V>> {
        self.rows@
    }
}

impl<V> Table<V> {
    /// The rows are in strictly increasing key order.
    pub open spec fn wf(&self) -> bool {
        sorted(self@)
    }

    pub fn new() -> (table: Table<V>)
        ensures
            table@ == Seq::<Row<V>>::empty(),
            table.wf(),
    {
        Table { rows: Vec::new() }
    }

    /// Tells whether the rows are in strictly increasing key order.
    pub fn check(&self) -> (ok: bool)
        ensures
            ok == self.wf(),
    {
        let mut i: usize = 1;
        while i < self.rows.len()
            invariant
                1 <= i,
                forall|k: int| 0 < k < i && k < self@.len() ==> self@[k - 1].key.lt(
                    (#[trigger] self@[k]).key,
                ),
            decreases self.rows.len() - i,
        {
            if !self.rows[i - 1].key.precedes(&self.rows[i].key) {
                assert(!self@[i - 1].key.lt(self@[i as int].key));
                return false;
            }
            i += 1;
        }
        proof {
            lemma_neighbours_sorted(self@);
        }
        true
    }

    pub fn len(&self) -> (len: usize)
        ensures
            len == self@.len(),
    {
        self.rows.len()
    }

    pub fn is_empty(&self) -> (empty: bool)
        ensures
            empty == (self@.len() == 0),
    {
        self.rows.len() == 0
    }

    pub fn row(&self, pos: usize) -> (row: &Row<V>)
        requires
            pos < self@.len(),
        ensures
            *row == self@[pos as int],
    {
        &self.rows[pos]
    }

    /// The position of the first row whose key is not below `key`.
    pub fn lower_bound(&self, key: Key) -> (pos: usize)
        requires
            self.wf(),
        ensures
            pos == rank(self@, key),
            pos <= self@.len(),
            forall|i: int| 0 <= i < pos ==> (#[trigger] self@[i]).key.lt(key),
            forall|i: int| pos <= i < self@.len() ==> !(#[trigger] self@[i]).key.lt(key),
    {
        let mut low: usize = 0;
        let mut high: usize = self.rows.len();
        while low < high
            invariant
                low <= high <= self.rows.len(),
                self.wf(),
                forall|i: int| 0 <= i < low ==> (#[trigger] self@[i]).key.lt(key),
                forall|i: int| high <= i < self@.len() ==> !(#[trigger] self@[i]).key.lt(key),
            decreases high - low,
        {
            let mid = low + (high - low) / 2;
            if self.rows[mid].key.precedes(&key) {
                assert forall|i: int| 0 <= i < mid + 1 implies (#[trigger] self@[i]).key.lt(key) by {
                    if i < mid {
                        assert(self@[i].key.lt(self@[mid as int].key));
                    }
                }
                low = mid + 1;
            } else {
                assert forall|i: int| mid <= i < self@.len() implies !(#[trigger] self@[i]).key.lt(
                    key,
                ) by {
                    if i > mid {
                        assert(self@[mid as int].key.lt(self@[i].key));
                    }
                }
                high = mid;
            }
        }
        proof {
            lemma_rank_is_split(self@, key, low as int);
        }
        low
    }

    /// The position of the row that holds `key`.
    pub fn find(&self, key: Key) -> (found: Option<usize>)
        requires
            self.wf(),
        ensures
            match found {
                Some(pos) => position(self@, key) == Some(pos as int) && pos < self@.len()
                    && self@[pos as int].key == key,
                None => position(self@, key) is None && forall|i: int|
                    0 <= i < self@.len() ==> (#[trigger] self@[i]).key != key,
            },
    {
        let pos = self.lower_bound(key);
        proof {
            lemma_position_finds(self@, key);
        }
        if pos < self.rows.len() && self.rows[pos].key == key {
            Some(pos)
        } else {
            None
        }
    }

    /// The value that `key` holds.
    pub fn get(&self, key: Key) -> (value: Option<&V>)
        requires
            self.wf(),
        ensures
            match position(self@, key) {
                Some(pos) => value == Some(&self@[pos].value),
                None => value is None,
            },
    {
        match self.find(key) {
            Some(pos) => Some(&self.rows[pos].value),
            None => None,
        }
    }

    /// Sets `key` to `value`.
    pub fn set(&mut self, key: Key, value: V)
        requires
            old(self).wf(),
        ensures
            final(self)@ == put(old(self)@, key, value),
            final(self).wf(),
    {
        let pos = self.lower_bound(key);
        proof {
            lemma_put_sorted(self@, key, value);
        }
        if pos < self.rows.len() && self.rows[pos].key == key {
            self.rows.set(pos, Row { key, value });
        } else {
            self.rows.insert(pos, Row { key, value });
        }
    }

    /// Takes out the row at `pos`.
    pub fn remove_at(&mut self, pos: usize) -> (row: Row<V>)
        requires
            old(self).wf(),
            pos < old(self)@.len(),
        ensures
            final(self)@ == old(self)@.remove(pos as int),
            row == old(self)@[pos as int],
            final(self).wf(),
    {
        proof {
            lemma_remove_sorted(self@, pos as int);
        }
        self.rows.remove(pos)
    }

    /// Takes out the row that holds `key`, if one does.
    pub fn remove(&mut self, key: Key) -> (removed: Option<V>)
        requires
            old(self).wf(),
        ensures
            final(self)@ == without(old(self)@, key),
            final(self).wf(),
            match position(old(self)@, key) {
                Some(pos) => removed == Some(old(self)@[pos].value),
                None => removed is None,
            },
    {
        match self.find(key) {
            Some(pos) => {
                let row = self.remove_at(pos);
                Some(row.value)
            },
            None => None,
        }
    }

    /// Drops every row whose key has a value above `limit` in part `part`.
    pub fn retain_upto(&mut self, part: KeyPart, limit: u64)
        requires
            old(self).wf(),
        ensures
            final(self)@ == kept(old(self)@, part, limit),
            final(self).wf(),
    {
        let mut rows: Vec<Row<V>> = Vec::new();
        core::mem::swap(&mut self.rows, &mut rows);
        let ghost all = rows@;
        for row in it: rows
            invariant
                it.seq() == all,
                sorted(all),
                self.rows@ == kept(all.take(it.index() as int), part, limit),
                sorted(self.rows@),
                forall|j: int, i: int|
                    0 <= j < self.rows@.len() && it.index() <= i < all.len() ==> (
                    #[trigger] self.rows@[j]).key.lt((#[trigger] all[i]).key),
        {
            assert(all.take(it.index() + 1).drop_last() =~= all.take(it.index() as int));
            let ghost index = it.index() as int;
            if row.key.part(part) <= limit {
                let ghost before = self.rows@;
                self.rows.push(row);
                assert forall|j: int, i: int|
                    0 <= j < self.rows@.len() && index + 1 <= i < all.len() implies (
                #[trigger] self.rows@[j]).key.lt((#[trigger] all[i]).key) by {
                    if j < before.len() {
                        assert(before[j].key.lt(all[i].key));
                    } else {
                        assert(all[index].key.lt(all[i].key));
                    }
                }
                assert forall|i: int, j: int| 0 <= i < j < self.rows@.len() implies (
                #[trigger] self.rows@[i]).key.lt((#[trigger] self.rows@[j]).key) by {
                    if j < before.len() {
                        assert(before[i].key.lt(before[j].key));
                    } else {
                        assert(before[i].key.lt(all[index].key));
                    }
                }
            }
        }
        assert(all.take(all.len() as int) =~= all);
    }

    /// Drops every row.
    pub fn clear(&mut self)
        ensures
            final(self)@ == Seq::<Row<V>>::empty(),
            final(self).wf(),
    {
        self.rows.clear();
    }

    /// Drops every row from position `len` on.
    pub fn truncate(&mut self, len: usize)
        requires
            old(self).wf(),
            len <= old(self)@.len(),
        ensures
            final(self)@ == old(self)@.take(len as int),
            final(self).wf(),
    {
        self.rows.truncate(len);
        assert(self@ =~= old(self)@.take(len as int));
    }
}

} // verus!
