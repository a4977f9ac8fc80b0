//! Counting repeated elements: occurrence counts, the largest repetition in a
//! sequence, and labelling of equal keys with small integers so that counting
//! needs no comparison of the keys themselves.

use std::collections::HashMap;
use vstd::prelude::*;

use crate::text::{fingerprint, fingerprint_of};

verus! {

broadcast use vstd::std_specs::hash::group_hash_axioms;

/// Number of occurrences of `x` in `s`.
pub open spec fn count_of<T>(s: Seq<T>, x: T) -> nat
    decreases s.len(),
{
    if s.len() == 0 {
        0
    } else {
        count_of(s.drop_last(), x) + if s.last() == x {
            1nat
        } else {
            0nat
        }
    }
}

/// The largest number of occurrences of any one element of `s`; 0 when `s` is empty.
pub open spec fn max_repetition<T>(s: Seq<T>) -> nat
    decreases s.len(),
{
    if s.len() == 0 {
        0
    } else {
        let rest = max_repetition(s.drop_last());
        let here = count_of(s, s.last());
        if here > rest {
            here
        } else {
            rest
        }
    }
}

/// `ids` labels `keys`: two positions carry the same label exactly when their keys are equal.
pub open spec fn labels<K>(ids: Seq<usize>, keys: Seq<K>) -> bool {
    &&& ids.len() == keys.len()
    &&& forall|i: int, j: int|
        #![trigger ids[i], ids[j]]
        #![trigger keys[i], keys[j]]
        0 <= i < keys.len() && 0 <= j < keys.len() ==> (ids[i] == ids[j] <==> keys[i] == keys[j])
}

/// Every label is at most its own position.
pub open spec fn labels_bounded(ids: Seq<usize>) -> bool {
    forall|i: int| 0 <= i < ids.len() ==> #[trigger] ids[i] <= i
}

/// The pairs `(a[i], b[i])`.
pub open spec fn zip_pairs<A, B>(a: Seq<A>, b: Seq<B>) -> Seq<(A, B)> {
    Seq::new(a.len(), |i: int| (a[i], b[i]))
}

/// The views of a sequence of strings.
pub open spec fn text_views(s: Seq<String>) -> Seq<Seq<char>> {
    Seq::new(s.len(), |i: int| s[i]@)
}

/// Nothing occurs more often than the sequence is long.
pub proof fn lemma_count_at_most_len<T>(s: Seq<T>, x: T)
    ensures
        count_of(s, x) <= s.len(),
    decreases s.len(),
{
    if s.len() > 0 {
        lemma_count_at_most_len(s.drop_last(), x);
    }
}

/// No element occurs more often than the sequence is long.
pub proof fn lemma_max_repetition_at_most_len<T>(s: Seq<T>)
    ensures
        max_repetition(s) <= s.len(),
    decreases s.len(),
{
    if s.len() > 0 {
        lemma_max_repetition_at_most_len(s.drop_last());
        lemma_count_at_most_len(s, s.last());
    }
}

proof fn lemma_count_absent<T>(s: Seq<T>, x: T)
    requires
        forall|i: int| 0 <= i < s.len() ==> s[i] != x,
    ensures
        count_of(s, x) == 0,
    decreases s.len(),
{
    if s.len() > 0 {
        lemma_count_absent(s.drop_last(), x);
    }
}

proof fn lemma_count_constant<T>(s: Seq<T>, x: T)
    requires
        forall|i: int| 0 <= i < s.len() ==> s[i] == x,
    ensures
        count_of(s, x) == s.len(),
    decreases s.len(),
{
    if s.len() > 0 {
        lemma_count_constant(s.drop_last(), x);
    }
}

/// In a sequence without repeated elements nothing occurs more than once.
pub proof fn lemma_max_repetition_distinct<T>(s: Seq<T>)
    requires
        forall|i: int, j: int| 0 <= i < j < s.len() ==> s[i] != s[j],
    ensures
        max_repetition(s) <= 1,
    decreases s.len(),
{
    if s.len() > 0 {
        let p = s.drop_last();
        lemma_max_repetition_distinct(p);
        assert forall|i: int| 0 <= i < p.len() implies p[i] != s.last() by {
            assert(s[i] != s[s.len() - 1]);
        }
        lemma_count_absent(p, s.last());
    }
}

/// In a sequence of one repeated element, that element occurs as often as the sequence is long.
pub proof fn lemma_max_repetition_constant<T>(s: Seq<T>)
    requires
        s.len() > 0,
        forall|i: int| 0 <= i < s.len() ==> #[trigger] s[i] == s[0],
    ensures
        max_repetition(s) == s.len(),
{
    lemma_max_repetition_at_most_len(s.drop_last());
    lemma_count_constant(s, s[0]);
}

proof fn lemma_labels_prefix_counts<K>(ids: Seq<usize>, keys: Seq<K>, m: int, i: int)
    requires
        labels(ids, keys),
        0 <= m <= ids.len(),
        0 <= i < ids.len(),
    ensures
        count_of(ids.take(m), ids[i]) == count_of(keys.take(m), keys[i]),
    decreases m,
{
    if m > 0 {
        lemma_labels_prefix_counts(ids, keys, m - 1, i);
        assert(ids.take(m).drop_last() == ids.take(m - 1));
        assert(keys.take(m).drop_last() == keys.take(m - 1));
        assert(ids[m - 1] == ids[i] <==> keys[m - 1] == keys[i]);
    }
}

proof fn lemma_labels_prefix_max<K>(ids: Seq<usize>, keys: Seq<K>, m: int)
    requires
        labels(ids, keys),
        0 <= m <= ids.len(),
    ensures
        max_repetition(ids.take(m)) == max_repetition(keys.take(m)),
    decreases m,
{
    if m > 0 {
        lemma_labels_prefix_max(ids, keys, m - 1);
        lemma_labels_prefix_counts(ids, keys, m, m - 1);
        assert(ids.take(m).drop_last() == ids.take(m - 1));
        assert(keys.take(m).drop_last() == keys.take(m - 1));
    }
}

/// Labels carry the repetition structure of what they label.
pub proof fn lemma_labels_max_repetition<K>(ids: Seq<usize>, keys: Seq<K>)
    requires
        labels(ids, keys),
    ensures
        max_repetition(ids) == max_repetition(keys),
{
    lemma_labels_prefix_max(ids, keys, ids.len() as int);
    assert(ids.take(ids.len() as int) == ids);
    assert(keys.take(keys.len() as int) == keys);
}

/// The largest number of times one label occurs in `ids`.
pub fn max_label_count(ids: &[usize]) -> (r: usize)
    requires
        forall|i: int| 0 <= i < ids.len() ==> #[trigger] ids[i] < ids.len(),
    ensures
        r == max_repetition(ids@),
{
    let n = ids.len();
    let mut counts: Vec<usize> = Vec::new();
    for k in 0..n
        invariant
            counts.len() == k,
            forall|v: int| 0 <= v < k ==> counts[v] == 0,
    {
        counts.push(0);
    }
    let mut best: usize = 0;
    for i in 0..n
        invariant
            n == ids.len(),
            counts.len() == n,
            forall|j: int| 0 <= j < n ==> #[trigger] ids[j] < n,
            forall|v: int| 0 <= v < n ==> counts[v] == count_of(ids@.take(i as int), v as usize),
            best == max_repetition(ids@.take(i as int)),
    {
        let v = ids[i];
        proof {
            lemma_count_at_most_len(ids@.take(i as int), v);
            assert(ids@.take(i + 1).drop_last() == ids@.take(i as int));
        }
        let c = counts[v] + 1;
        counts.set(v, c);
        if c > best {
            best = c;
        }
    }
    proof {
        assert(ids@.take(n as int) == ids@);
    }
    best
}

/// The key under which a pair of labels is looked up; distinct pairs get distinct keys.
pub open spec fn pair_key(x: usize, y: usize) -> u128 {
    (x as u128 * 0x1_0000_0000_0000_0000u128 + y as u128) as u128
}

proof fn lemma_pair_key_injective(x1: usize, y1: usize, x2: usize, y2: usize)
    requires
        pair_key(x1, y1) == pair_key(x2, y2),
    ensures
        x1 == x2 && y1 == y2,
{
    let b: int = 0x1_0000_0000_0000_0000;
    assert(x1 as int * b + y1 as int == x2 as int * b + y2 as int);
    assert(x1 == x2 && y1 == y2) by (nonlinear_arith)
        requires
            x1 as int * b + y1 as int == x2 as int * b + y2 as int,
            0 <= x1 < b,
            0 <= x2 < b,
            0 <= y1 < b,
            0 <= y2 < b,
            b == 0x1_0000_0000_0000_0000,
    ;
}

/// Labels the pairs `(a[i], b[i])`, each with the first position that holds an equal pair.
pub fn label_pairs(a: &[usize], b: &[usize]) -> (ids: Vec<usize>)
    requires
        a.len() == b.len(),
    ensures
        labels(ids@, zip_pairs(a@, b@)),
        labels_bounded(ids@),
{
    let n = a.len();
    let mut first: HashMap<u128, usize> = HashMap::new();
    let mut ids: Vec<usize> = Vec::new();
    for i in 0..n
        invariant
            n == a.len() == b.len(),
            ids.len() == i,
            labels_bounded(ids@),
            forall|j: int|
                0 <= j < i ==> first@.contains_key(#[trigger] pair_key(a[j], b[j])) && ids[j]
                    == first@[pair_key(a[j], b[j])],
            forall|k: u128|
                #[trigger] first@.contains_key(k) ==> first@[k] < i && pair_key(
                    a[first@[k] as int],
                    b[first@[k] as int],
                ) == k,
    {
        let key: u128 = a[i] as u128 * 0x1_0000_0000_0000_0000u128 + b[i] as u128;
        match first.get(&key) {
            Some(f) => {
                ids.push(*f);
            },
            None => {
                first.insert(key, i);
                ids.push(i);
            },
        }
    }
    proof {
        let p = zip_pairs(a@, b@);
        assert forall|i: int, j: int| 0 <= i < n && 0 <= j < n implies (ids[i] == ids[j] <==> p[i]
            == p[j]) by {
            let ki = pair_key(a[i], b[i]);
            let kj = pair_key(a[j], b[j]);
            if ids[i] == ids[j] {
                lemma_pair_key_injective(a[i], b[i], a[j], b[j]);
            }
            if p[i] == p[j] {
                assert(ki == kj);
            }
        }
    }
    ids
}

/// The first position whose text equals `keys[i]`.
fn first_equal_text(keys: &Vec<String>, i: usize) -> (t: usize)
    requires
        i < keys.len(),
    ensures
        t <= i,
        keys[t as int]@ == keys[i as int]@,
        forall|u: int| 0 <= u < t ==> keys[u]@ != keys[i as int]@,
{
    let mut t: usize = 0;
    while t < i
        invariant
            t <= i < keys.len(),
            forall|u: int| 0 <= u < t ==> keys[u]@ != keys[i as int]@,
        decreases i - t,
    {
        if keys[t] == keys[i] {
            return t;
        }
        t = t + 1;
    }
    i
}

/// Labels texts, each with the first position that holds an equal text.
/// A fingerprint of each text finds the candidate; texts are then compared in full.
pub fn label_texts(keys: &Vec<String>) -> (ids: Vec<usize>)
    ensures
        labels(ids@, text_views(keys@)),
        labels_bounded(ids@),
{
    let n = keys.len();
    let mut first: HashMap<u64, usize> = HashMap::new();
    let mut ids: Vec<usize> = Vec::new();
    for i in 0..n
        invariant
            n == keys.len(),
            ids.len() == i,
            forall|j: int| 0 <= j < i ==> first@.contains_key(#[trigger] fingerprint(keys[j]@)),
            forall|j: int|
                0 <= j < i ==> #[trigger] ids[j] <= j && keys[ids[j] as int]@ == keys[j]@,
            forall|j: int, u: int|
                0 <= j < i && 0 <= u < #[trigger] ids[j] ==> #[trigger] keys[u]@ != keys[j]@,
            forall|f: u64|
                #[trigger] first@.contains_key(f) ==> first@[f] < i && fingerprint(
                    keys[first@[f] as int]@,
                ) == f && ids[first@[f] as int] == first@[f],
    {
        let f = fingerprint_of(keys[i].as_str());
        let id = match first.get(&f) {
            Some(r) => {
                if keys[*r] == keys[i] {
                    *r
                } else {
                    first_equal_text(keys, i)
                }
            },
            None => {
                assert forall|u: int| 0 <= u < i implies keys[u]@ != keys[i as int]@ by {
                    if keys[u]@ == keys[i as int]@ {
                        assert(first@.contains_key(fingerprint(keys[u]@)));
                    }
                }
                first.insert(f, i);
                i
            },
        };
        ids.push(id);
    }
    proof {
        let v = text_views(keys@);
        assert forall|i: int| 0 <= i < n implies ids[i] <= i by {}
        assert forall|i: int, j: int| 0 <= i < n && 0 <= j < n implies (ids[i] == ids[j] <==> v[i]
            == v[j]) by {
            if v[i] == v[j] && ids[i] != ids[j] {
                if ids[i] < ids[j] {
                    assert(keys[ids[i] as int]@ == keys[j]@);
                } else {
                    assert(keys[ids[j] as int]@ == keys[i]@);
                }
            }
        }
    }
    ids
}

} // verus!
