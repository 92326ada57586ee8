//! Stable partition of rows by a key: the rows that share a key form one
//! part, the parts stand in the order in which their keys first occur, and
//! the rows of a part keep their order.
//!
//! The partition itself is the table engine's; this module says what it is
//! and proves what the rebuild needs of it.

use vstd::prelude::*;
use polars::prelude::{Column, DataFrame, PolarsError};

verus! {

/// The table engine's error.
#[verifier::external_type_specification]
#[verifier::external_body]
pub struct ExPolarsError(PolarsError);

/// The distinct keys, in the order in which they first occur.
pub open spec fn first_seen(keys: Seq<Option<i32>>) -> Seq<Option<i32>>
    decreases keys.len(),
{
    if keys.len() == 0 {
        Seq::empty()
    } else {
        let before = first_seen(keys.drop_last());
        if before.contains(keys.last()) {
            before
        } else {
            before.push(keys.last())
        }
    }
}

/// The places at which a key occurs, ascending.
pub open spec fn rows_with(keys: Seq<Option<i32>>, key: Option<i32>) -> Seq<int>
    decreases keys.len(),
{
    if keys.len() == 0 {
        Seq::empty()
    } else {
        let before = rows_with(keys.drop_last(), key);
        if keys.last() == key {
            before.push(keys.len() - 1)
        } else {
            before
        }
    }
}

/// The stable partition of the places `0 .. keys.len()` by their keys: one
/// part for each distinct key, in the order of first occurrence.
pub open spec fn stable_partition(keys: Seq<Option<i32>>) -> Seq<Seq<int>> {
    let distinct = first_seen(keys);
    Seq::new(distinct.len(), |g: int| rows_with(keys, distinct[g]))
}

/// The stable partition of a run of rows by the keys that stand beside
/// them: each part lists rows in place of their places.
pub open spec fn spec_partition_rows(keys: Seq<Option<i32>>, rows: Seq<u64>) -> Seq<Seq<u64>> {
    let parts = stable_partition(keys);
    Seq::new(parts.len(), |g: int| Seq::new(parts[g].len(), |j: int| rows[parts[g][j]]))
}

/// Whether a place stands in a part of the stable partition.
pub open spec fn in_some_part(keys: Seq<Option<i32>>, i: int) -> bool {
    exists|g: int|
        0 <= g < stable_partition(keys).len() && (#[trigger] stable_partition(keys)[g]).contains(i)
}

/// Mathematical value of a run of parts.
pub open spec fn parts_view(parts: Seq<Vec<u64>>) -> Seq<Seq<u64>> {
    Seq::new(parts.len(), |g: int| parts[g]@)
}

/// A column of the table engine holds fewer items than this: the engine
/// numbers rows with 32 bits and keeps the greatest number for "no row".
pub const ROW_LIMIT: usize = 0xffff_ffff;

/// Calls `DataFrame::partition_by_stable` of polars on a frame of two
/// columns, the keys and the rows beside them, and hands back the rows of each
/// part.
///
/// Claimed of polars and not proved here: on two columns of one length below
/// its limit the call succeeds, and the parts are the stable partition by key,
/// that is one part for each distinct key (null is a key of its own), the
/// parts in the order in which their keys first occur, the rows within a part
/// in their order in the frame. Success rests on this: a frame is refused only
/// for columns of unequal length or equal names, the grouping by an integer
/// column and the gathering of the parts report no failure, and each part has
/// the column of rows with the kind of cell it was made with. A column at or
/// above the limit is left out, for polars does not return from it.
#[verifier::external_body]
pub(crate) fn partition_by_stable(keys: &Vec<Option<i32>>, rows: &Vec<u64>) -> (result: Result<
    Vec<Vec<u64>>,
    PolarsError,
>)
    requires
        keys@.len() == rows@.len(),
        keys@.len() < ROW_LIMIT,
    ensures
        result is Ok,
        result matches Ok(parts) ==> parts_view(parts@) == spec_partition_rows(keys@, rows@),
{
    let key = Column::new("key".into(), keys);
    let row = Column::new("row".into(), rows);
    let frame = DataFrame::new(keys.len(), vec![key, row])?;
    let mut parts: Vec<Vec<u64>> = Vec::new();
    for part in frame.partition_by_stable(["key"], true)? {
        parts.push(part.column("row")?.u64()?.into_no_null_iter().collect());
    }
    Ok(parts)
}

/// A key is among the distinct keys exactly if it occurs.
pub proof fn lemma_first_seen_contains(keys: Seq<Option<i32>>, key: Option<i32>)
    ensures
        first_seen(keys).contains(key) <==> keys.contains(key),
    decreases keys.len(),
{
    if keys.len() > 0 {
        let head = keys.drop_last();
        lemma_first_seen_contains(head, key);
        let before = first_seen(head);
        let all = first_seen(keys);
        if keys.contains(key) {
            let i = choose|i: int| 0 <= i < keys.len() && keys[i] == key;
            if i < keys.len() - 1 {
                assert(head[i] == key);
                assert(head.contains(key));
                let j = choose|j: int| 0 <= j < before.len() && before[j] == key;
                assert(all[j] == key);
            } else if before.contains(key) {
                let j = choose|j: int| 0 <= j < before.len() && before[j] == key;
                assert(all[j] == key);
            } else {
                assert(all[before.len() as int] == key);
            }
            assert(all.contains(key));
        }
        if all.contains(key) {
            let j = choose|j: int| 0 <= j < all.len() && all[j] == key;
            if j < before.len() {
                assert(before[j] == key);
                assert(before.contains(key));
                let i = choose|i: int| 0 <= i < head.len() && head[i] == key;
                assert(keys[i] == key);
            } else {
                assert(keys[keys.len() - 1] == key);
            }
            assert(keys.contains(key));
        }
    }
}

/// No key stands twice among the distinct keys.
pub proof fn lemma_first_seen_distinct(keys: Seq<Option<i32>>)
    ensures
        first_seen(keys).no_duplicates(),
    decreases keys.len(),
{
    if keys.len() > 0 {
        lemma_first_seen_distinct(keys.drop_last());
    }
}

/// The distinct keys of a longer run begin with those of a shorter one.
pub proof fn lemma_first_seen_prefix(keys: Seq<Option<i32>>, n: int)
    requires
        0 <= n <= keys.len(),
    ensures
        first_seen(keys.take(n)).len() <= first_seen(keys).len(),
        first_seen(keys.take(n)) == first_seen(keys).take(first_seen(keys.take(n)).len() as int),
    decreases keys.len() - n,
{
    if n == keys.len() {
        assert(keys.take(n) =~= keys);
        assert(first_seen(keys).take(first_seen(keys).len() as int) =~= first_seen(keys));
    } else {
        lemma_first_seen_prefix(keys, n + 1);
        assert(keys.take(n + 1).drop_last() =~= keys.take(n));
        let shorter = first_seen(keys.take(n));
        let longer = first_seen(keys.take(n + 1));
        let all = first_seen(keys);
        assert(shorter =~= longer.take(shorter.len() as int));
        assert(shorter =~= all.take(shorter.len() as int));
    }
}

/// What the places of a key are: places of the run, at each of which the key
/// stands, ascending; and each place at which the key stands is among them.
pub proof fn lemma_rows_with(keys: Seq<Option<i32>>, key: Option<i32>)
    ensures
        forall|j: int|
            0 <= j < rows_with(keys, key).len() ==> 0 <= (#[trigger] rows_with(keys, key)[j])
                < keys.len() && keys[rows_with(keys, key)[j]] == key,
        forall|j: int, k: int|
            0 <= j < k < rows_with(keys, key).len() ==> rows_with(keys, key)[j] < rows_with(
                keys,
                key,
            )[k],
        forall|i: int|
            0 <= i < keys.len() && keys[i] == key ==> rows_with(keys, key).contains(i),
        rows_with(keys, key).len() <= keys.len(),
    decreases keys.len(),
{
    if keys.len() > 0 {
        let head = keys.drop_last();
        lemma_rows_with(head, key);
        let before = rows_with(head, key);
        let all = rows_with(keys, key);
        assert forall|i: int| 0 <= i < keys.len() && keys[i] == key implies all.contains(i) by {
            if i < keys.len() - 1 {
                assert(head[i] == key);
                let j = choose|j: int| 0 <= j < before.len() && before[j] == i;
                assert(all[j] == i);
            } else {
                assert(all[all.len() - 1] == i);
            }
        }
    }
}

/// A key that is not among the distinct keys occurs at no place.
pub proof fn lemma_rows_with_unseen(keys: Seq<Option<i32>>, key: Option<i32>)
    requires
        !first_seen(keys).contains(key),
    ensures
        rows_with(keys, key) == Seq::<int>::empty(),
{
    lemma_rows_with(keys, key);
    lemma_first_seen_contains(keys, key);
    if rows_with(keys, key).len() > 0 {
        let i = rows_with(keys, key)[0];
        assert(keys[i] == key);
        assert(keys.contains(key));
    }
    assert(rows_with(keys, key) =~= Seq::<int>::empty());
}

/// What the stable partition is: each part is the ascending run of the places
/// of one key and is not empty, no two parts share a key, and each place of the
/// run stands in a part.
pub proof fn lemma_stable_partition(keys: Seq<Option<i32>>)
    ensures
        keys.len() > 0 ==> stable_partition(keys).len() > 0,
        forall|g: int|
            0 <= g < stable_partition(keys).len() ==> (#[trigger] stable_partition(keys)[g]).len()
                > 0,
        forall|g: int, j: int|
            0 <= g < stable_partition(keys).len() && 0 <= j < stable_partition(keys)[g].len()
                ==> 0 <= (#[trigger] stable_partition(keys)[g][j]) < keys.len()
                && keys[stable_partition(keys)[g][j]] == first_seen(keys)[g],
        forall|g: int, j: int, k: int|
            0 <= g < stable_partition(keys).len() && 0 <= j < k < stable_partition(keys)[g].len()
                ==> stable_partition(keys)[g][j] < stable_partition(keys)[g][k],
        forall|g: int, h: int|
            0 <= g < h < first_seen(keys).len() ==> first_seen(keys)[g] != first_seen(keys)[h],
        forall|i: int| 0 <= i < keys.len() ==> #[trigger] in_some_part(keys, i),
        forall|g: int|
            0 <= g < stable_partition(keys).len() ==> (#[trigger] stable_partition(keys)[g]).len()
                <= keys.len(),
{
    let distinct = first_seen(keys);
    let parts = stable_partition(keys);
    lemma_first_seen_distinct(keys);
    if keys.len() > 0 {
        lemma_first_seen_contains(keys, keys[0]);
        assert(keys.contains(keys[0]));
    }
    assert forall|g: int| 0 <= g < parts.len() implies (#[trigger] parts[g]).len() <= keys.len() by {
        lemma_rows_with(keys, distinct[g]);
    }
    assert forall|g: int| 0 <= g < parts.len() implies (#[trigger] parts[g]).len() > 0 by {
        lemma_first_seen_contains(keys, distinct[g]);
        assert(distinct.contains(distinct[g]));
        let i = choose|i: int| 0 <= i < keys.len() && keys[i] == distinct[g];
        lemma_rows_with(keys, distinct[g]);
        assert(rows_with(keys, distinct[g]).contains(i));
    }
    assert forall|g: int, j: int| 0 <= g < parts.len() && 0 <= j < parts[g].len() implies 0 <= (
    #[trigger] parts[g][j]) < keys.len() && keys[parts[g][j]] == distinct[g] by {
        lemma_rows_with(keys, distinct[g]);
    }
    assert forall|g: int, j: int, k: int|
        0 <= g < parts.len() && 0 <= j < k < parts[g].len() implies parts[g][j] < parts[g][k] by {
        lemma_rows_with(keys, distinct[g]);
    }
    assert forall|i: int| 0 <= i < keys.len() implies #[trigger] in_some_part(keys, i) by {
        lemma_first_seen_contains(keys, keys[i]);
        assert(keys.contains(keys[i]));
        let g = choose|g: int| 0 <= g < distinct.len() && distinct[g] == keys[i];
        lemma_rows_with(keys, keys[i]);
        assert(parts[g].contains(i));
    }
}

/// The parts stand in the order in which their keys first occur: the first
/// row of an earlier part comes before the first row of a later one.
pub proof fn lemma_parts_in_first_seen_order(keys: Seq<Option<i32>>, g: int, h: int)
    requires
        0 <= g < h < stable_partition(keys).len(),
    ensures
        stable_partition(keys)[g].len() > 0,
        stable_partition(keys)[h].len() > 0,
        stable_partition(keys)[g][0] < stable_partition(keys)[h][0],
{
    lemma_stable_partition(keys);
    let distinct = first_seen(keys);
    let first_h = stable_partition(keys)[h][0];
    // Up to and including the first row of the later part, the later key has
    // been seen; the distinct keys up to there end with it, so the earlier
    // key stands among them and occurs before that row.
    let upto = keys.take(first_h + 1);
    lemma_first_seen_prefix(keys, first_h + 1);
    lemma_first_seen_prefix(keys, first_h);
    assert(upto.drop_last() =~= keys.take(first_h));
    let seen = first_seen(keys.take(first_h));
    lemma_first_seen_contains(keys.take(first_h), distinct[h]);
    if keys.take(first_h).contains(distinct[h]) {
        let i = choose|i: int| 0 <= i < first_h && keys.take(first_h)[i] == distinct[h];
        lemma_rows_with(keys, distinct[h]);
        assert(keys[i] == distinct[h]);
        let j = choose|j: int|
            0 <= j < rows_with(keys, distinct[h]).len() && rows_with(keys, distinct[h])[j] == i;
        assert(false);
    }
    assert(first_seen(upto) == seen.push(distinct[h]));
    assert(first_seen(upto)[seen.len() as int] == distinct[h]);
    assert(first_seen(keys)[seen.len() as int] == distinct[h]);
    assert(seen.len() == h);
    assert(seen[g] == distinct[g]);
    assert(seen.contains(distinct[g]));
    lemma_first_seen_contains(keys.take(first_h), distinct[g]);
    let i = choose|i: int| 0 <= i < first_h && keys.take(first_h)[i] == distinct[g];
    assert(keys[i] == distinct[g]);
    lemma_rows_with(keys, distinct[g]);
    let j = choose|j: int|
        0 <= j < rows_with(keys, distinct[g]).len() && rows_with(keys, distinct[g])[j] == i;
    assert(stable_partition(keys)[g][j] == i);
}

} // verus!
