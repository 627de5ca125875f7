//! Frequency tables: how often each signature was seen, and which
//! signatures were seen most.

use std::collections::HashMap;
use vstd::prelude::*;
use vstd::std_specs::iter::IteratorSpec;

verus! {

/// The keys of a map, each once, in no particular order.
pub fn keys_of<V>(map: &HashMap<u32, V>) -> (keys: Vec<u32>)
    ensures
        keys@.no_duplicates(),
        keys@.to_set() == map@.dom(),
        keys@.len() == map@.len(),
{
    broadcast use vstd::std_specs::hash::group_hash_axioms;

    let ghost all: Seq<u32> = map.keys().remaining().unref();
    let mut keys: Vec<u32> = Vec::new();
    for key in it: map.keys()
        invariant
            it.seq().unref() == all,
            keys@ == all.take(it.index() as int),
    {
        proof {
            assert(all.take(it.index() + 1) =~= all.take(it.index() as int).push(*key));
        }
        keys.push(*key);
    }
    proof {
        assert(all.take(all.len() as int) =~= all);
        assert(all.no_duplicates()) by {
            let refs = map.keys().remaining();
            assert forall|i: int, j: int| 0 <= i < all.len() && 0 <= j < all.len() && i != j implies all[i] != all[j] by {
                assert(refs[i] != refs[j]);
            }
        }
        all.unique_seq_to_set();
    }
    keys
}

/// How often `signature` was seen.
pub open spec fn frequency(table: Map<u32, usize>, signature: u32) -> nat {
    if table.contains_key(signature) {
        table[signature] as nat
    } else {
        0
    }
}

/// Whether `a` ranks before `b`: the signature seen more often ranks first,
/// and of two seen equally often the lower one.
pub open spec fn ranks_before(table: Map<u32, usize>, a: u32, b: u32) -> bool {
    table[a] > table[b] || (table[a] == table[b] && a < b)
}

/// Whether `top` lists the `limit` signatures of the table that rank first,
/// in their order of rank; all of them, where the table holds fewer.
pub open spec fn is_top(table: Map<u32, usize>, limit: nat, top: Seq<u32>) -> bool {
    &&& top.len() == if limit <= table.len() {
        limit
    } else {
        table.len()
    }
    &&& forall|i: int| 0 <= i < top.len() ==> table.contains_key(#[trigger] top[i])
    &&& forall|i: int, j: int| 0 <= i < j < top.len() ==> ranks_before(table, top[i], top[j])
    &&& forall|i: int, other: u32|
        0 <= i < top.len() && table.contains_key(other) && !top.contains(other)
            ==> #[trigger] ranks_before(table, top[i], other)
}

/// The count of a signature; zero where it was never seen.
pub fn count_of(table: &HashMap<u32, usize>, signature: u32) -> (count: usize)
    ensures
        count == frequency(table@, signature),
{
    broadcast use vstd::std_specs::hash::group_hash_axioms;

    match table.get(&signature) {
        Some(count) => *count,
        None => 0,
    }
}

/// Counts one more sighting of `signature`.
pub fn count_one(table: &mut HashMap<u32, usize>, signature: u32)
    requires
        frequency(old(table)@, signature) < usize::MAX,
    ensures
        final(table)@ == old(table)@.insert(
            signature,
            (frequency(old(table)@, signature) + 1) as usize,
        ),
{
    broadcast use vstd::std_specs::hash::group_hash_axioms;

    let count = count_of(table, signature);
    table.insert(signature, count + 1);
}

/// Exchanging two elements of a list without repetitions gives a list
/// without repetitions of the same elements.
proof fn lemma_exchange(keys: Seq<u32>, a: int, b: int)
    requires
        keys.no_duplicates(),
        0 <= a < keys.len(),
        0 <= b < keys.len(),
    ensures
        keys.update(a, keys[b]).update(b, keys[a]).no_duplicates(),
        keys.update(a, keys[b]).update(b, keys[a]).to_set() == keys.to_set(),
{
    let new = keys.update(a, keys[b]).update(b, keys[a]);
    let source = |i: int|
        if i == a {
            b
        } else if i == b {
            a
        } else {
            i
        };
    assert forall|i: int| 0 <= i < new.len() implies #[trigger] new[i] == keys[source(i)] by {}
    assert forall|i: int, j: int| 0 <= i < new.len() && 0 <= j < new.len() && i != j implies new[i]
        != new[j] by {
        assert(new[i] == keys[source(i)]);
        assert(new[j] == keys[source(j)]);
        assert(source(i) != source(j));
    }
    assert forall|k: u32| new.to_set().contains(k) <==> keys.to_set().contains(k) by {
        if new.contains(k) {
            let i = choose|i: int| 0 <= i < new.len() && new[i] == k;
            assert(keys[source(i)] == k);
        }
        if keys.contains(k) {
            let i = choose|i: int| 0 <= i < keys.len() && keys[i] == k;
            assert(new[source(i)] == k);
        }
    }
    assert(new.to_set() =~= keys.to_set());
}

/// The `limit` signatures of the table that were seen most often, the most
/// frequent first. Of two seen equally often the lower one comes first.
pub fn top_patterns(table: &HashMap<u32, usize>, limit: usize) -> (top: Vec<u32>)
    ensures
        is_top(table@, limit as nat, top@),
{
    broadcast use vstd::std_specs::hash::group_hash_axioms;

    let mut keys = keys_of(table);
    let total = keys.len();
    let wanted = if limit <= total {
        limit
    } else {
        total
    };
    let mut top: Vec<u32> = Vec::new();
    let mut done: usize = 0;
    while done < wanted
        invariant
            done <= wanted <= total,
            total == keys@.len(),
            keys@.len() == table@.len(),
            keys@.no_duplicates(),
            keys@.to_set() == table@.dom(),
            top@ == keys@.take(done as int),
            forall|i: int, j: int|
                0 <= i < done && i < j < total ==> ranks_before(table@, keys@[i], keys@[j]),
        decreases wanted - done,
    {
        let mut best: usize = done;
        let mut best_count = count_of(table, keys[done]);
        let mut j: usize = done + 1;
        proof {
            assert forall|i: int| 0 <= i < keys@.len() implies table@.contains_key(
                #[trigger] keys@[i],
            ) by {
                assert(keys@.to_set().contains(keys@[i]));
            }
        }
        while j < total
            invariant
                done <= best < j <= total,
                total == keys@.len(),
                keys@.no_duplicates(),
                forall|i: int| 0 <= i < keys@.len() ==> table@.contains_key(#[trigger] keys@[i]),
                best_count == table@[keys@[best as int]],
                forall|i: int|
                    done <= i < j && i != best ==> ranks_before(
                        table@,
                        keys@[best as int],
                        #[trigger] keys@[i],
                    ),
            decreases total - j,
        {
            let key = keys[j];
            let count = count_of(table, key);
            if count > best_count || (count == best_count && key < keys[best]) {
                best = j;
                best_count = count;
            }
            j = j + 1;
        }
        let ghost before = keys@;
        let first = keys[done];
        let winner = keys[best];
        keys.set(done, winner);
        keys.set(best, first);
        top.push(winner);
        proof {
            lemma_exchange(before, done as int, best as int);
            assert(keys@ =~= before.update(done as int, before[best as int]).update(
                best as int,
                before[done as int],
            ));
            assert(top@ =~= keys@.take(done + 1)) by {
                assert forall|i: int| 0 <= i < done implies keys@[i] == before[i] by {}
            }
            assert forall|i: int, j: int| 0 <= i < done + 1 && i < j < total implies ranks_before(
                table@,
                keys@[i],
                keys@[j],
            ) by {
                let source_j = if j == best as int {
                    done as int
                } else if j == done as int {
                    best as int
                } else {
                    j
                };
                assert(keys@[j] == before[source_j]);
                if i < done {
                    assert(keys@[i] == before[i]);
                    assert(ranks_before(table@, before[i], before[source_j]));
                } else {
                    assert(keys@[i] == before[best as int]);
                    assert(source_j != best as int);
                }
            }
        }
        done = done + 1;
    }
    proof {
        let result = top@;
        assert forall|i: int| 0 <= i < result.len() implies table@.contains_key(
            #[trigger] result[i],
        ) by {
            assert(keys@.to_set().contains(keys@[i]));
        }
        assert forall|i: int, other: u32|
            0 <= i < result.len() && table@.contains_key(other) && !result.contains(
                other,
            ) implies #[trigger] ranks_before(table@, result[i], other) by {
            assert(keys@.to_set().contains(other));
            let j = choose|j: int| 0 <= j < keys@.len() && keys@[j] == other;
            if j < done {
                assert(result[j] == other);
            }
        }
    }
    top
}

/// There is one list of the signatures that rank first, and no other.
pub proof fn lemma_top_is_unique(table: Map<u32, usize>, limit: nat, a: Seq<u32>, b: Seq<u32>)
    requires
        is_top(table, limit, a),
        is_top(table, limit, b),
    ensures
        a == b,
{
    assert forall|k: int| 0 <= k < a.len() implies a[k] == b[k] by {
        lemma_top_agrees(table, limit, a, b, k);
    }
    assert(a =~= b);
}

proof fn lemma_top_agrees(table: Map<u32, usize>, limit: nat, a: Seq<u32>, b: Seq<u32>, k: int)
    requires
        is_top(table, limit, a),
        is_top(table, limit, b),
        0 <= k < a.len(),
    ensures
        a[k] == b[k],
    decreases k,
{
    if k > 0 {
        assert forall|i: int| 0 <= i < k implies a[i] == b[i] by {
            lemma_top_agrees(table, limit, a, b, i);
        }
    }
    if a[k] != b[k] {
        lemma_ranked_before(table, a, b, k);
        lemma_ranked_before(table, b, a, k);
    }
}

/// Where two lists of signatures in order of rank agree before position
/// `k`, and the first is complete, its signature at `k` ranks before the
/// other's, unless they are the same.
proof fn lemma_ranked_before(table: Map<u32, usize>, a: Seq<u32>, b: Seq<u32>, k: int)
    requires
        0 <= k < a.len(),
        a.len() == b.len(),
        forall|i: int| 0 <= i < k ==> a[i] == b[i],
        forall|i: int| 0 <= i < b.len() ==> table.contains_key(#[trigger] b[i]),
        forall|i: int, j: int| 0 <= i < j < a.len() ==> ranks_before(table, a[i], a[j]),
        forall|i: int, j: int| 0 <= i < j < b.len() ==> ranks_before(table, b[i], b[j]),
        forall|i: int, other: u32|
            0 <= i < a.len() && table.contains_key(other) && !a.contains(other)
                ==> #[trigger] ranks_before(table, a[i], other),
        a[k] != b[k],
    ensures
        ranks_before(table, a[k], b[k]),
{
    let other = b[k];
    if a.contains(other) {
        let j = choose|j: int| 0 <= j < a.len() && a[j] == other;
        if j < k {
            assert(b[j] == a[j]);
            assert(ranks_before(table, b[j], b[k]));
        } else {
            assert(ranks_before(table, a[k], a[j]));
        }
    } else {
        assert(ranks_before(table, a[k], other));
    }
}

} // verus!
