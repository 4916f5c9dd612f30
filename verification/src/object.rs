//! Order-preserving string-keyed map entries.
//!
//! A map is represented as a sequence of entries in insertion order.  Inserting
//! under a key that is already present replaces the value and keeps the entry's
//! position; inserting under a fresh key appends.  Folding that insertion over
//! a raw entry sequence (`spec_dedup`) is the meaning of building a map from a
//! document whose objects may repeat keys: last write wins.

use crate::value::SpecValue;
use crate::value::DynValue;
use crate::value::lemma_model_entries_points;
use vstd::prelude::*;

verus! {

/// Whether some entry of `es` has key `k`.
pub open spec fn has_key(es: Seq<(Seq<char>, SpecValue)>, k: Seq<char>) -> bool {
    exists|i: int| 0 <= i < es.len() && es[i].0 == k
}

/// Index of the first entry of `es` with key `k` (meaningful when `has_key`).
pub open spec fn first_key_index(es: Seq<(Seq<char>, SpecValue)>, k: Seq<char>) -> int
    decreases es,
{
    if es.len() == 0 {
        0
    } else if es[0].0 == k {
        0
    } else {
        1 + first_key_index(es.skip(1), k)
    }
}

/// The value bound to key `k` (meaningful when `has_key`): the first entry
/// with that key decides, and `spec_insert` keeps at most one entry per key.
pub open spec fn lookup(es: Seq<(Seq<char>, SpecValue)>, k: Seq<char>) -> SpecValue {
    es[first_key_index(es, k)].1
}

/// Insertion into an entry sequence: replace in place on a present key,
/// append on a fresh one.
pub open spec fn spec_insert(
    es: Seq<(Seq<char>, SpecValue)>,
    k: Seq<char>,
    v: SpecValue,
) -> Seq<(Seq<char>, SpecValue)> {
    if has_key(es, k) {
        es.update(first_key_index(es, k), (k, v))
    } else {
        es.push((k, v))
    }
}

/// The map denoted by a raw entry sequence that may repeat keys: each entry
/// inserted in document order, so the last write under a key wins while the
/// key keeps its first position.
pub open spec fn spec_dedup(es: Seq<(Seq<char>, SpecValue)>) -> Seq<(Seq<char>, SpecValue)>
    decreases es,
{
    if es.len() == 0 {
        Seq::empty()
    } else {
        spec_insert(spec_dedup(es.drop_last()), es.last().0, es.last().1)
    }
}

/// No key occurs twice.
pub open spec fn distinct_keys(es: Seq<(Seq<char>, SpecValue)>) -> bool {
    forall|i: int, j: int| 0 <= i < j < es.len() ==> es[i].0 != es[j].0
}

/// `first_key_index` finds the first entry with key `k`.
pub proof fn lemma_first_key_index(es: Seq<(Seq<char>, SpecValue)>, k: Seq<char>)
    requires
        has_key(es, k),
    ensures
        0 <= first_key_index(es, k) < es.len(),
        es[first_key_index(es, k)].0 == k,
        forall|j: int| 0 <= j < first_key_index(es, k) ==> es[j].0 != k,
    decreases es,
{
    if es.len() > 0 && es[0].0 != k {
        let i = choose|i: int| 0 <= i < es.len() && es[i].0 == k;
        assert(es.skip(1)[i - 1] == es[i]);
        lemma_first_key_index(es.skip(1), k);
        assert forall|j: int| 0 <= j < first_key_index(es, k) implies es[j].0 != k by {
            if j > 0 {
                assert(es.skip(1)[j - 1] == es[j]);
            }
        }
    }
}

/// An entry with key `k` whose predecessors all avoid `k` is the first one.
pub proof fn lemma_lookup_at(es: Seq<(Seq<char>, SpecValue)>, k: Seq<char>, i: int)
    requires
        0 <= i < es.len(),
        es[i].0 == k,
        forall|j: int| 0 <= j < i ==> es[j].0 != k,
    ensures
        has_key(es, k),
        first_key_index(es, k) == i,
        lookup(es, k) == es[i].1,
{
    assert(has_key(es, k));
    lemma_first_key_index(es, k);
    let f = first_key_index(es, k);
    if f < i {
        assert(es[f].0 != k);
    }
    if f > i {
        assert(es[i].0 != k);
    }
}

/// Inserting under `k` binds `k` to `v`.
pub proof fn lemma_insert_lookup_same(es: Seq<(Seq<char>, SpecValue)>, k: Seq<char>, v: SpecValue)
    ensures
        has_key(spec_insert(es, k, v), k),
        lookup(spec_insert(es, k, v), k) == v,
{
    let r = spec_insert(es, k, v);
    if has_key(es, k) {
        lemma_first_key_index(es, k);
        let f = first_key_index(es, k);
        assert forall|j: int| 0 <= j < f implies r[j].0 != k by {}
        lemma_lookup_at(r, k, f);
    } else {
        assert forall|j: int| 0 <= j < es.len() implies r[j].0 != k by {
            assert(!(0 <= j < es.len() && es[j].0 == k));
        }
        lemma_lookup_at(r, k, es.len() as int);
    }
}

/// Inserting under `k` leaves every other key's binding alone.
pub proof fn lemma_insert_lookup_other(
    es: Seq<(Seq<char>, SpecValue)>,
    k: Seq<char>,
    v: SpecValue,
    k2: Seq<char>,
)
    requires
        k2 != k,
    ensures
        has_key(spec_insert(es, k, v), k2) == has_key(es, k2),
        has_key(es, k2) ==> lookup(spec_insert(es, k, v), k2) == lookup(es, k2),
{
    let r = spec_insert(es, k, v);
    if has_key(es, k) {
        lemma_first_key_index(es, k);
        let f = first_key_index(es, k);
        if has_key(es, k2) {
            lemma_first_key_index(es, k2);
            let f2 = first_key_index(es, k2);
            assert(r[f2] == es[f2]);
            assert forall|j: int| 0 <= j < f2 implies r[j].0 != k2 by {
                if j != f {
                    assert(r[j] == es[j]);
                }
            }
            lemma_lookup_at(r, k2, f2);
        } else {
            assert forall|i: int| 0 <= i < r.len() implies r[i].0 != k2 by {
                if i != f {
                    assert(r[i] == es[i]);
                    assert(!(0 <= i < es.len() && es[i].0 == k2));
                }
            }
            assert(!has_key(r, k2));
        }
    } else {
        if has_key(es, k2) {
            lemma_first_key_index(es, k2);
            let f2 = first_key_index(es, k2);
            assert(r[f2] == es[f2]);
            lemma_lookup_at(r, k2, f2);
        } else {
            assert forall|i: int| 0 <= i < r.len() implies r[i].0 != k2 by {
                if i < es.len() {
                    assert(!(0 <= i < es.len() && es[i].0 == k2));
                }
            }
            assert(!has_key(r, k2));
        }
    }
}

/// Insertion keeps keys distinct.
pub proof fn lemma_insert_distinct(es: Seq<(Seq<char>, SpecValue)>, k: Seq<char>, v: SpecValue)
    requires
        distinct_keys(es),
    ensures
        distinct_keys(spec_insert(es, k, v)),
{
    let r = spec_insert(es, k, v);
    if has_key(es, k) {
        lemma_first_key_index(es, k);
        let f = first_key_index(es, k);
        assert forall|i: int, j: int| 0 <= i < j < r.len() implies r[i].0 != r[j].0 by {
            if i != f && j != f {
                assert(r[i] == es[i] && r[j] == es[j]);
            } else if i == f {
                assert(r[j] == es[j]);
                if es[j].0 == k {
                    assert(es[f].0 == es[j].0);
                }
            } else {
                assert(r[i] == es[i]);
                if es[i].0 == k {
                    assert(es[i].0 == es[f].0);
                }
            }
        }
    } else {
        assert forall|i: int, j: int| 0 <= i < j < r.len() implies r[i].0 != r[j].0 by {
            if j == es.len() {
                assert(!(0 <= i < es.len() && es[i].0 == k));
            }
        }
    }
}

/// The entry sequence a raw sequence denotes has no repeated key.
pub proof fn lemma_dedup_distinct(es: Seq<(Seq<char>, SpecValue)>)
    ensures
        distinct_keys(spec_dedup(es)),
    decreases es,
{
    if es.len() == 0 {
        assert(distinct_keys(spec_dedup(es)));
    } else {
        lemma_dedup_distinct(es.drop_last());
        lemma_insert_distinct(spec_dedup(es.drop_last()), es.last().0, es.last().1);
    }
}

/// Every entry of an insertion's result is the inserted pair or one of the
/// original entries.
pub proof fn lemma_insert_entries_from(es: Seq<(Seq<char>, SpecValue)>, k: Seq<char>, v: SpecValue)
    ensures
        forall|i: int|
            0 <= i < spec_insert(es, k, v).len() ==> (#[trigger] spec_insert(es, k, v)[i] == (k, v)
                || exists|j: int| 0 <= j < es.len() && es[j] == spec_insert(es, k, v)[i]),
{
    if has_key(es, k) {
        lemma_first_key_index(es, k);
    }
}

/// Every entry of the denoted map is one of the raw entries.
pub proof fn lemma_dedup_entries_from(es: Seq<(Seq<char>, SpecValue)>)
    ensures
        forall|i: int|
            0 <= i < spec_dedup(es).len() ==> exists|j: int|
                0 <= j < es.len() && es[j] == #[trigger] spec_dedup(es)[i],
    decreases es,
{
    if es.len() > 0 {
        let front = es.drop_last();
        lemma_dedup_entries_from(front);
        lemma_insert_entries_from(spec_dedup(front), es.last().0, es.last().1);
        assert forall|i: int| 0 <= i < spec_dedup(es).len() implies exists|j: int|
            0 <= j < es.len() && es[j] == #[trigger] spec_dedup(es)[i] by {
            if spec_dedup(es)[i] == (es.last().0, es.last().1) {
                assert(es[es.len() - 1] == spec_dedup(es)[i]);
            } else {
                let j0 = choose|j0: int|
                    0 <= j0 < spec_dedup(front).len() && spec_dedup(front)[j0] == spec_dedup(
                        es,
                    )[i];
                let j = choose|j: int| 0 <= j < front.len() && front[j] == spec_dedup(front)[j0];
                assert(es[j] == spec_dedup(es)[i]);
            }
        }
    }
}

/// Index of the last entry of `es` with key `k` (`-1` when there is none).
pub open spec fn last_key_index(es: Seq<(Seq<char>, SpecValue)>, k: Seq<char>) -> int
    decreases es,
{
    if es.len() == 0 {
        -1
    } else if es.last().0 == k {
        es.len() - 1
    } else {
        last_key_index(es.drop_last(), k)
    }
}

/// Order preservation: when a raw entry sequence repeats no key, building
/// the map changes nothing — every entry stays, in document order.
pub proof fn lemma_dedup_identity(es: Seq<(Seq<char>, SpecValue)>)
    requires
        distinct_keys(es),
    ensures
        spec_dedup(es) == es,
    decreases es,
{
    if es.len() > 0 {
        let front = es.drop_last();
        assert forall|i: int, j: int| 0 <= i < j < front.len() implies front[i].0
            != front[j].0 by {
            assert(front[i] == es[i] && front[j] == es[j]);
        }
        lemma_dedup_identity(front);
        let k = es.last().0;
        assert(!has_key(front, k)) by {
            if has_key(front, k) {
                let i = choose|i: int| 0 <= i < front.len() && front[i].0 == k;
                assert(front[i] == es[i]);
                assert(es[i].0 == es[es.len() - 1].0);
            }
        }
        assert(spec_dedup(es) == front.push((es.last().0, es.last().1)));
        assert(spec_dedup(es) =~= es);
    } else {
        assert(spec_dedup(es) =~= es);
    }
}

/// Last write wins: the built map binds a repeated key to the value of the
/// last raw entry carrying it.
pub proof fn lemma_dedup_last_write_wins(es: Seq<(Seq<char>, SpecValue)>, k: Seq<char>)
    requires
        has_key(es, k),
    ensures
        has_key(spec_dedup(es), k),
        0 <= last_key_index(es, k) < es.len(),
        es[last_key_index(es, k)].0 == k,
        lookup(spec_dedup(es), k) == es[last_key_index(es, k)].1,
    decreases es,
{
    let front = es.drop_last();
    let kl = es.last().0;
    if kl == k {
        lemma_insert_lookup_same(spec_dedup(front), k, es.last().1);
    } else {
        let i = choose|i: int| 0 <= i < es.len() && es[i].0 == k;
        assert(front[i] == es[i]);
        assert(has_key(front, k));
        lemma_dedup_last_write_wins(front, k);
        lemma_insert_lookup_other(spec_dedup(front), kl, es.last().1, k);
        assert(es[last_key_index(es, k)] == front[last_key_index(front, k)]);
    }
}

/// Insert one decoded entry into a map being assembled, replacing in place
/// when the key is already present and appending otherwise.
pub fn insert_entry(es: &mut Vec<(String, DynValue)>, k: String, v: DynValue)
    ensures
        DynValue::model_entries(final(es)@) == spec_insert(
            DynValue::model_entries(old(es)@),
            k@,
            v.model(),
        ),
{
    let ghost m0 = DynValue::model_entries(old(es)@);
    proof {
        lemma_model_entries_points(old(es)@);
    }
    let n = es.len();
    let mut i: usize = 0;
    while i < n
        invariant
            n == es.len(),
            0 <= i <= n,
            *es == *old(es),
            m0 == DynValue::model_entries(es@),
            forall|j: int| 0 <= j < i ==> m0[j].0 != k@,
        decreases n - i,
    {
        if es[i].0 == k {
            proof {
                lemma_model_entries_points(es@);
                assert(m0[i as int] == (es@[i as int].0@, es@[i as int].1.model()));
                lemma_lookup_at(m0, k@, i as int);
            }
            es[i] = (k, v);
            proof {
                lemma_model_entries_points(es@);
                assert(DynValue::model_entries(es@) =~= m0.update(i as int, (k@, v.model())));
            }
            return ;
        }
        proof {
            lemma_model_entries_points(es@);
            assert(m0[i as int] == (es@[i as int].0@, es@[i as int].1.model()));
        }
        i += 1;
    }
    proof {
        assert forall|j: int| 0 <= j < m0.len() implies m0[j].0 != k@ by {}
        assert(!has_key(m0, k@));
    }
    es.push((k, v));
    proof {
        lemma_model_entries_points(es@);
        assert(DynValue::model_entries(es@) =~= m0.push((k@, v.model())));
    }
}

} // verus!
