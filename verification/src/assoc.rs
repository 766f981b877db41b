use vstd::prelude::*;

verus! {

/// The value bound to `key`, scanning the pairs from the front.
pub open spec fn assoc_get<K, V>(s: Seq<(K, V)>, key: K) -> Option<V>
    decreases s.len(),
{
    if s.len() == 0 {
        None
    } else if s[0].0 == key {
        Some(s[0].1)
    } else {
        assoc_get(s.drop_first(), key)
    }
}

pub open spec fn assoc_contains<K, V>(s: Seq<(K, V)>, key: K) -> bool {
    assoc_get(s, key) is Some
}

/// Rebind `key` in place, or append a fresh binding at the end.
pub open spec fn assoc_set<K, V>(s: Seq<(K, V)>, key: K, value: V) -> Seq<(K, V)>
    decreases s.len(),
{
    if s.len() == 0 {
        seq![(key, value)]
    } else if s[0].0 == key {
        seq![(key, value)] + s.drop_first()
    } else {
        seq![s[0]] + assoc_set(s.drop_first(), key, value)
    }
}

/// Drop the binding of `key`, keeping the order of the others.
pub open spec fn assoc_remove<K, V>(s: Seq<(K, V)>, key: K) -> Seq<(K, V)>
    decreases s.len(),
{
    if s.len() == 0 {
        s
    } else if s[0].0 == key {
        s.drop_first()
    } else {
        seq![s[0]] + assoc_remove(s.drop_first(), key)
    }
}

/// No key is bound twice.
pub open spec fn distinct_keys<K, V>(s: Seq<(K, V)>) -> bool {
    forall|i: int, j: int| 0 <= i < j < s.len() ==> s[i].0 != s[j].0
}

pub proof fn lemma_assoc_get_at<K, V>(s: Seq<(K, V)>, key: K, i: int)
    requires
        0 <= i < s.len(),
        s[i].0 == key,
        forall|j: int| 0 <= j < i ==> s[j].0 != key,
    ensures
        assoc_get(s, key) == Some(s[i].1),
    decreases i,
{
    if i > 0 {
        lemma_assoc_get_at(s.drop_first(), key, i - 1);
    }
}

pub proof fn lemma_assoc_get_none<K, V>(s: Seq<(K, V)>, key: K)
    requires
        forall|j: int| 0 <= j < s.len() ==> s[j].0 != key,
    ensures
        assoc_get(s, key) is None,
    decreases s.len(),
{
    if s.len() > 0 {
        lemma_assoc_get_none(s.drop_first(), key);
    }
}

pub proof fn lemma_assoc_get_none_keys<K, V>(s: Seq<(K, V)>, key: K)
    requires
        assoc_get(s, key) is None,
    ensures
        forall|j: int| 0 <= j < s.len() ==> s[j].0 != key,
    decreases s.len(),
{
    if s.len() > 0 {
        lemma_assoc_get_none_keys(s.drop_first(), key);
        assert forall|j: int| 0 <= j < s.len() implies s[j].0 != key by {
            if j > 0 {
                assert(s[j] == s.drop_first()[j - 1]);
            }
        }
    }
}

pub proof fn lemma_assoc_get_elem<K, V>(s: Seq<(K, V)>, key: K)
    requires
        assoc_get(s, key) is Some,
    ensures
        exists|i: int|
            0 <= i < s.len() && s[i] == (key, assoc_get(s, key).unwrap()),
    decreases s.len(),
{
    if s.len() > 0 {
        if s[0].0 == key {
            assert(s[0] == (key, assoc_get(s, key).unwrap()));
        } else {
            lemma_assoc_get_elem(s.drop_first(), key);
            let i = choose|i: int|
                0 <= i < s.drop_first().len() && s.drop_first()[i] == (
                key,
                assoc_get(s.drop_first(), key).unwrap(),
                );
            assert(s[i + 1] == (key, assoc_get(s, key).unwrap()));
        }
    }
}

pub proof fn lemma_assoc_set_at<K, V>(s: Seq<(K, V)>, key: K, value: V, i: int)
    requires
        0 <= i < s.len(),
        s[i].0 == key,
        forall|j: int| 0 <= j < i ==> s[j].0 != key,
    ensures
        assoc_set(s, key, value) == s.update(i, (key, value)),
    decreases i,
{
    if i == 0 {
        assert(assoc_set(s, key, value) =~= s.update(0, (key, value)));
    } else {
        lemma_assoc_set_at(s.drop_first(), key, value, i - 1);
        assert(s.drop_first().update(i - 1, (key, value)) =~= s.update(i, (key, value)).drop_first());
        assert(assoc_set(s, key, value) =~= s.update(i, (key, value)));
    }
}

pub proof fn lemma_assoc_set_absent<K, V>(s: Seq<(K, V)>, key: K, value: V)
    requires
        forall|j: int| 0 <= j < s.len() ==> s[j].0 != key,
    ensures
        assoc_set(s, key, value) == s.push((key, value)),
    decreases s.len(),
{
    if s.len() == 0 {
        assert(assoc_set(s, key, value) =~= s.push((key, value)));
    } else {
        lemma_assoc_set_absent(s.drop_first(), key, value);
        assert(assoc_set(s, key, value) =~= s.push((key, value)));
    }
}

pub proof fn lemma_assoc_remove_at<K, V>(s: Seq<(K, V)>, key: K, i: int)
    requires
        0 <= i < s.len(),
        s[i].0 == key,
        forall|j: int| 0 <= j < i ==> s[j].0 != key,
    ensures
        assoc_remove(s, key) == s.remove(i),
    decreases i,
{
    if i == 0 {
        assert(assoc_remove(s, key) =~= s.remove(0));
    } else {
        lemma_assoc_remove_at(s.drop_first(), key, i - 1);
        assert(s.drop_first().remove(i - 1) =~= s.remove(i).drop_first());
        assert(assoc_remove(s, key) =~= s.remove(i));
    }
}

pub proof fn lemma_assoc_remove_absent<K, V>(s: Seq<(K, V)>, key: K)
    requires
        forall|j: int| 0 <= j < s.len() ==> s[j].0 != key,
    ensures
        assoc_remove(s, key) == s,
    decreases s.len(),
{
    if s.len() > 0 {
        lemma_assoc_remove_absent(s.drop_first(), key);
        assert(assoc_remove(s, key) =~= s);
    }
}

} // verus!
