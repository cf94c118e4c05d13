//! Rows with a key, seen as a map.
use vstd::prelude::*;

verus! {

/// The map that a sequence of rows stands for.
pub open spec fn keyed<K, V>(rows: Seq<(K, V)>) -> Map<K, V>
    decreases rows.len(),
{
    if rows.len() == 0 {
        Map::empty()
    } else {
        keyed(rows.drop_last()).insert(rows.last().0, rows.last().1)
    }
}

/// No key occurs twice.
pub open spec fn distinct<K, V>(rows: Seq<(K, V)>) -> bool {
    forall|i: int, j: int| 0 <= i < j < rows.len() ==> rows[i].0 != rows[j].0
}

pub proof fn lemma_keyed_contains<K, V>(rows: Seq<(K, V)>, key: K)
    ensures
        keyed(rows).contains_key(key) <==> exists|i: int|
            0 <= i < rows.len() && (#[trigger] rows[i]).0 == key,
    decreases rows.len(),
{
    if rows.len() > 0 {
        let front = rows.drop_last();
        lemma_keyed_contains(front, key);
        assert forall|i: int| 0 <= i < front.len() implies front[i] == rows[i] by {}
        if keyed(rows).contains_key(key) {
            if rows.last().0 == key {
                assert(rows[rows.len() - 1].0 == key);
            } else {
                let i = choose|i: int| 0 <= i < front.len() && (#[trigger] front[i]).0 == key;
                assert(rows[i].0 == key);
            }
        }
        if exists|i: int| 0 <= i < rows.len() && (#[trigger] rows[i]).0 == key {
            let i = choose|i: int| 0 <= i < rows.len() && (#[trigger] rows[i]).0 == key;
            if i < front.len() {
                assert(front[i].0 == key);
            }
        }
    }
}

pub proof fn lemma_keyed_at<K, V>(rows: Seq<(K, V)>, i: int)
    requires
        distinct(rows),
        0 <= i < rows.len(),
    ensures
        keyed(rows).contains_key(rows[i].0),
        keyed(rows)[rows[i].0] == rows[i].1,
    decreases rows.len(),
{
    if i < rows.len() - 1 {
        let front = rows.drop_last();
        assert(front[i] == rows[i]);
        lemma_keyed_at(front, i);
    }
}

pub proof fn lemma_keyed_push<K, V>(rows: Seq<(K, V)>, key: K, value: V)
    ensures
        keyed(rows.push((key, value))) == keyed(rows).insert(key, value),
        distinct(rows) && !keyed(rows).contains_key(key) ==> distinct(rows.push((key, value))),
{
    let more = rows.push((key, value));
    assert(more.drop_last() =~= rows);
    if distinct(rows) && !keyed(rows).contains_key(key) {
        lemma_keyed_contains(rows, key);
        assert forall|i: int, j: int| 0 <= i < j < more.len() implies more[i].0 != more[j].0 by {
            assert(more[i] == rows[i]);
            if j < rows.len() {
                assert(more[j] == rows[j]);
            }
        }
    }
}

pub proof fn lemma_keyed_update<K, V>(rows: Seq<(K, V)>, i: int, value: V)
    requires
        distinct(rows),
        0 <= i < rows.len(),
    ensures
        keyed(rows.update(i, (rows[i].0, value))) == keyed(rows).insert(rows[i].0, value),
        distinct(rows.update(i, (rows[i].0, value))),
    decreases rows.len(),
{
    let key = rows[i].0;
    let next = rows.update(i, (key, value));
    assert forall|a: int, b: int| 0 <= a < b < next.len() implies next[a].0 != next[b].0 by {
        assert(next[a].0 == rows[a].0);
        assert(next[b].0 == rows[b].0);
    }
    let front = rows.drop_last();
    if i == rows.len() - 1 {
        assert(next.drop_last() =~= front);
        assert(keyed(next) =~= keyed(rows).insert(key, value));
    } else {
        assert(front[i] == rows[i]);
        lemma_keyed_update(front, i, value);
        assert(next.drop_last() =~= front.update(i, (key, value)));
        assert(rows.last().0 != key);
        assert(keyed(next) =~= keyed(rows).insert(key, value));
    }
}

pub proof fn lemma_keyed_remove<K, V>(rows: Seq<(K, V)>, i: int)
    requires
        distinct(rows),
        0 <= i < rows.len(),
    ensures
        keyed(rows.remove(i)) == keyed(rows).remove(rows[i].0),
        distinct(rows.remove(i)),
    decreases rows.len(),
{
    let key = rows[i].0;
    let next = rows.remove(i);
    assert forall|a: int, b: int| 0 <= a < b < next.len() implies next[a].0 != next[b].0 by {
        let x = if a < i { a } else { a + 1 };
        let y = if b < i { b } else { b + 1 };
        assert(next[a] == rows[x]);
        assert(next[b] == rows[y]);
    }
    let front = rows.drop_last();
    if i == rows.len() - 1 {
        assert(next =~= front);
        lemma_keyed_contains(front, key);
        assert(!keyed(front).contains_key(key)) by {
            if keyed(front).contains_key(key) {
                let j = choose|j: int| 0 <= j < front.len() && (#[trigger] front[j]).0 == key;
                assert(rows[j].0 == key);
            }
        }
        assert(keyed(next) =~= keyed(rows).remove(key));
    } else {
        assert(front[i] == rows[i]);
        lemma_keyed_remove(front, i);
        assert(next.drop_last() =~= front.remove(i));
        assert(next.last() == rows.last());
        assert(rows.last().0 != key);
        assert(keyed(next) =~= keyed(rows).remove(key));
    }
}

} // verus!
