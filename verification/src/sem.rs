use vstd::prelude::*;
use crate::assoc::{
    assoc_contains, assoc_get, assoc_remove, assoc_set, distinct_keys, lemma_assoc_get_elem,
};
use crate::ast::{is_operator, Eval, Node};
use crate::ops::{apply_binop_s, apply_not_s, BinOp, OpndV};
use crate::value::{value_ok, value_view, RunError, Value, ValueV};
use crate::vm::{spec_min_args, Function, GcApproach, NativeKind};

verus! {

/// The mathematical shape of one output event.
pub enum OutEventV {
    Show(Seq<ValueV>),
    Newline,
}

pub type FieldsV = Seq<(Seq<char>, ValueV)>;

/// The mathematical shape of the whole runtime state.
pub struct St {
    pub objects: Seq<(usize, FieldsV)>,
    pub counts: Seq<(usize, u64)>,
    pub funcs: Seq<(Seq<char>, Function)>,
    pub globals: FieldsV,
    pub locals: Seq<FieldsV>,
    pub local: Option<FieldsV>,
    pub gc: GcApproach,
    pub output: Seq<OutEventV>,
    pub input: Seq<Seq<char>>,
    pub pending: Seq<Seq<Seq<char>>>,
}

/// A scope binds each name at most once, and every stored value is sound.
pub open spec fn scope_ok(s: FieldsV) -> bool {
    distinct_keys(s) && (forall|i: int| 0 <= i < s.len() ==> value_ok(s[i].1))
}

/// Well-formedness of the runtime state.
pub open spec fn st_wf(st: St) -> bool {
    &&& distinct_keys(st.objects)
    &&& (forall|i: int| 0 <= i < st.objects.len() ==> scope_ok(st.objects[i].1))
    &&& distinct_keys(st.counts)
    &&& sorted_ids(st.counts)
    &&& distinct_keys(st.funcs)
    &&& scope_ok(st.globals)
    &&& (forall|i: int| 0 <= i < st.locals.len() ==> scope_ok(st.locals[i]))
    &&& (st.local matches Some(f) ==> scope_ok(f))
}

/// Keys stand in strictly ascending order (so each appears once).
pub open spec fn sorted_ids<V>(s: Seq<(usize, V)>) -> bool {
    forall|i: int, j: int| 0 <= i < j < s.len() ==> s[i].0 < s[j].0
}

/// A fresh binding placed before the first larger key.
pub open spec fn sorted_insert(s: Seq<(usize, u64)>, key: usize, v: u64) -> Seq<(usize, u64)>
    decreases s.len(),
{
    if s.len() == 0 {
        seq![(key, v)]
    } else if s[0].0 > key {
        seq![(key, v)] + s
    } else {
        seq![s[0]] + sorted_insert(s.drop_first(), key, v)
    }
}

pub proof fn lemma_sorted_insert_at(s: Seq<(usize, u64)>, key: usize, v: u64, pos: int)
    requires
        0 <= pos <= s.len(),
        forall|m: int| 0 <= m < pos ==> s[m].0 <= key,
        pos == s.len() || s[pos].0 > key,
    ensures
        sorted_insert(s, key, v) == s.insert(pos, (key, v)),
    decreases pos,
{
    if pos == 0 {
        if s.len() == 0 {
            assert(sorted_insert(s, key, v) =~= s.insert(0, (key, v)));
        } else {
            assert(sorted_insert(s, key, v) =~= s.insert(0, (key, v)));
        }
    } else {
        lemma_sorted_insert_at(s.drop_first(), key, v, pos - 1);
        assert(s.drop_first().insert(pos - 1, (key, v)) =~= s.insert(pos, (key, v)).drop_first());
        assert(sorted_insert(s, key, v) =~= s.insert(pos, (key, v)));
    }
}

/// Rebinding a present key keeps every key where it stands.
pub proof fn lemma_assoc_set_keys<V>(s: Seq<(usize, V)>, key: usize, v: V)
    requires
        assoc_contains(s, key),
    ensures
        assoc_set(s, key, v).len() == s.len(),
        forall|i: int| 0 <= i < s.len() ==> assoc_set(s, key, v)[i].0 == s[i].0,
    decreases s.len(),
{
    if s.len() > 0 {
        if s[0].0 == key {
            assert(assoc_set(s, key, v) == seq![(key, v)] + s.drop_first());
            assert forall|i: int| 0 <= i < s.len() implies assoc_set(s, key, v)[i].0
                == s[i].0 by {
                if i > 0 {
                    assert(assoc_set(s, key, v)[i] == s.drop_first()[i - 1]);
                    assert(s.drop_first()[i - 1] == s[i]);
                }
            }
        } else {
            lemma_assoc_set_keys(s.drop_first(), key, v);
            assert(assoc_set(s, key, v) == seq![s[0]] + assoc_set(s.drop_first(), key, v));
            assert forall|i: int| 0 <= i < s.len() implies assoc_set(s, key, v)[i].0
                == s[i].0 by {
                if i > 0 {
                    assert(assoc_set(s, key, v)[i] == assoc_set(s.drop_first(), key, v)[i - 1]);
                    assert(s.drop_first()[i - 1] == s[i]);
                }
            }
        }
    }
}

/// Rebinding a present key keeps the table sorted.
pub proof fn lemma_sorted_set(s: Seq<(usize, u64)>, key: usize, v: u64)
    requires
        sorted_ids(s),
        assoc_contains(s, key),
    ensures
        sorted_ids(assoc_set(s, key, v)),
{
    lemma_assoc_set_keys(s, key, v);
    assert forall|i: int, j: int|
        0 <= i < j < assoc_set(s, key, v).len() implies assoc_set(s, key, v)[i].0 < assoc_set(
        s,
        key,
        v,
    )[j].0 by {
        assert(assoc_set(s, key, v)[i].0 == s[i].0);
        assert(assoc_set(s, key, v)[j].0 == s[j].0);
    }
}

/// Dropping a key keeps the table sorted.
pub proof fn lemma_sorted_remove(s: Seq<(usize, u64)>, key: usize)
    requires
        sorted_ids(s),
    ensures
        sorted_ids(assoc_remove(s, key)),
    decreases s.len(),
{
    if s.len() > 0 {
        if s[0].0 == key {
            assert(sorted_ids(s.drop_first()));
        } else {
            assert(sorted_ids(s.drop_first()));
            lemma_sorted_remove(s.drop_first(), key);
            lemma_remove_keys_sub(s.drop_first(), key);
            assert forall|i: int, j: int|
                0 <= i < j < assoc_remove(s, key).len() implies assoc_remove(s, key)[i].0
                < assoc_remove(s, key)[j].0 by {
                if i > 0 {
                    assert(assoc_remove(s, key)[i] == assoc_remove(s.drop_first(), key)[i - 1]);
                }
                assert(assoc_remove(s, key)[j] == assoc_remove(s.drop_first(), key)[j - 1]);
                if i == 0 {
                    let t = choose|t: int|
                        0 <= t < s.drop_first().len() && s.drop_first()[t].0 == assoc_remove(
                            s.drop_first(),
                            key,
                        )[j - 1].0;
                    assert(s[t + 1].0 == assoc_remove(s, key)[j].0);
                }
            }
        }
    }
}

/// Every key of the table after a removal was a key before it.
pub proof fn lemma_remove_keys_sub<V>(s: Seq<(usize, V)>, key: usize)
    ensures
        forall|j: int|
            #![trigger assoc_remove(s, key)[j]]
            0 <= j < assoc_remove(s, key).len() ==> exists|t: int|
                #![trigger s[t]]
                0 <= t < s.len() && s[t].0 == assoc_remove(s, key)[j].0,
    decreases s.len(),
{
    if s.len() > 0 {
        lemma_remove_keys_sub(s.drop_first(), key);
        assert forall|j: int|
            #![trigger assoc_remove(s, key)[j]]
            0 <= j < assoc_remove(s, key).len() implies exists|t: int|
            #![trigger s[t]]
            0 <= t < s.len() && s[t].0 == assoc_remove(s, key)[j].0 by {
            if s[0].0 == key {
                assert(s[j + 1].0 == assoc_remove(s, key)[j].0);
            } else {
                if j == 0 {
                    assert(s[0].0 == assoc_remove(s, key)[0].0);
                } else {
                    assert(assoc_remove(s, key)[j] == assoc_remove(s.drop_first(), key)[j - 1]);
                    let t = choose|t: int|
                        0 <= t < s.drop_first().len() && s.drop_first()[t].0 == assoc_remove(
                            s.drop_first(),
                            key,
                        )[j - 1].0;
                    assert(s[t + 1].0 == assoc_remove(s, key)[j].0);
                }
            }
        }
    }
}

/// A use-count increment saturating at the counter's width.
pub open spec fn inc_count(c: u64) -> u64 {
    if c == u64::MAX {
        c
    } else {
        (c + 1) as u64
    }
}

/// Incrementing a value's use count changes the table only for an object
/// reference: a fresh entry starts at one, an existing one grows by one.
pub open spec fn inc_use_s(counts: Seq<(usize, u64)>, v: ValueV) -> Seq<(usize, u64)> {
    match v {
        ValueV::Obj(id) => {
            let key = id as usize;
            match assoc_get(counts, key) {
                Some(c) => assoc_set(counts, key, inc_count(c)),
                None => sorted_insert(counts, key, 1u64),
            }
        },
        _ => counts,
    }
}

/// Decrementing the use count of an object reference that is untracked, or
/// already at zero, is an internal invariant violation; any other value
/// leaves the table unchanged.
pub open spec fn dec_use_s(counts: Seq<(usize, u64)>, v: ValueV) -> Result<
    Seq<(usize, u64)>,
    RunError,
> {
    match v {
        ValueV::Obj(id) => {
            let key = id as usize;
            match assoc_get(counts, key) {
                Some(c) => if c == 0 {
                    Err(RunError::UntrackedReference)
                } else {
                    Ok(assoc_set(counts, key, (c - 1) as u64))
                },
                None => Err(RunError::UntrackedReference),
            }
        },
        _ => Ok(counts),
    }
}

/// Collecting one name of the finished scope: the global binding is removed;
/// if it held an object reference its count drops by one, and on reaching
/// zero the object and its table entry are reclaimed at once.
pub open spec fn collect_name_s(st: St, name: Seq<char>) -> Result<St, RunError> {
    match assoc_get(st.globals, name) {
        None => Err(RunError::UnknownVariable),
        Some(v) => match v {
            ValueV::Obj(id) => {
                let key = id as usize;
                match assoc_get(st.counts, key) {
                    None => Err(RunError::UntrackedReference),
                    Some(c) => if c == 0 {
                        Err(RunError::UntrackedReference)
                    } else if c == 1 {
                        Ok(
                            St {
                                objects: assoc_remove(st.objects, key),
                                counts: assoc_remove(st.counts, key),
                                globals: assoc_remove(st.globals, name),
                                ..st
                            },
                        )
                    } else {
                        Ok(
                            St {
                                counts: assoc_set(st.counts, key, (c - 1) as u64),
                                globals: assoc_remove(st.globals, name),
                                ..st
                            },
                        )
                    },
                }
            },
            _ => Ok(St { globals: assoc_remove(st.globals, name), ..st }),
        },
    }
}

/// Collecting a batch of names, in order; the first failure stops the batch.
pub open spec fn collect_names_s(st: St, names: Seq<Seq<char>>) -> Result<St, RunError>
    decreases names.len(),
{
    if names.len() == 0 {
        Ok(st)
    } else {
        match collect_name_s(st, names[0]) {
            Ok(st2) => collect_names_s(st2, names.drop_first()),
            Err(e) => Err(e),
        }
    }
}

/// The table entries whose count stands at zero after a batch, in order.
pub open spec fn zero_ids(counts: Seq<(usize, u64)>) -> Seq<usize>
    decreases counts.len(),
{
    if counts.len() == 0 {
        Seq::empty()
    } else if counts[0].1 == 0 {
        seq![counts[0].0] + zero_ids(counts.drop_first())
    } else {
        zero_ids(counts.drop_first())
    }
}

pub proof fn lemma_zero_ids_push(counts: Seq<(usize, u64)>, p: (usize, u64))
    ensures
        zero_ids(counts.push(p)) == if p.1 == 0 {
            zero_ids(counts).push(p.0)
        } else {
            zero_ids(counts)
        },
    decreases counts.len(),
{
    reveal_with_fuel(zero_ids, 3);
    if counts.len() == 0 {
        assert(counts.push(p)[0] == p);
        assert(counts.push(p).drop_first() =~= Seq::<(usize, u64)>::empty());
        if p.1 == 0 {
            assert(zero_ids(counts.push(p)) =~= zero_ids(counts).push(p.0));
        } else {
            assert(zero_ids(counts.push(p)) =~= zero_ids(counts));
        }
    } else {
        assert(counts.push(p)[0] == counts[0]);
        assert(counts.push(p).drop_first() =~= counts.drop_first().push(p));
        lemma_zero_ids_push(counts.drop_first(), p);
        if p.1 == 0 {
            assert(zero_ids(counts.push(p)) =~= zero_ids(counts).push(p.0));
        } else {
            assert(zero_ids(counts.push(p)) =~= zero_ids(counts));
        }
    }
}

/// Removing each listed key, in order.
pub open spec fn remove_all<V>(s: Seq<(usize, V)>, ids: Seq<usize>) -> Seq<(usize, V)>
    decreases ids.len(),
{
    if ids.len() == 0 {
        s
    } else {
        remove_all(assoc_remove(s, ids[0]), ids.drop_first())
    }
}

/// The table without its exhausted entries.
pub open spec fn keep_nonzero(counts: Seq<(usize, u64)>) -> Seq<(usize, u64)>
    decreases counts.len(),
{
    if counts.len() == 0 {
        counts
    } else if counts[0].1 == 0 {
        keep_nonzero(counts.drop_first())
    } else {
        seq![counts[0]] + keep_nonzero(counts.drop_first())
    }
}

/// The cleanup pass after a batch: every object whose tracked count stands at
/// zero is removed from the heap.
pub open spec fn sweep_zero_s(objects: Seq<(usize, FieldsV)>, counts: Seq<(usize, u64)>) -> Seq<
    (usize, FieldsV),
> {
    remove_all(objects, zero_ids(counts))
}

/// Removing keys that are not at the front commutes with keeping the head.
pub proof fn lemma_remove_all_head<V>(s: Seq<(usize, V)>, ids: Seq<usize>)
    requires
        s.len() > 0,
        forall|j: int| 0 <= j < ids.len() ==> ids[j] != s[0].0,
    ensures
        remove_all(s, ids) == seq![s[0]] + remove_all(s.drop_first(), ids),
    decreases ids.len(),
{
    if ids.len() == 0 {
        assert(remove_all(s, ids) =~= seq![s[0]] + remove_all(s.drop_first(), ids));
    } else {
        let s1 = assoc_remove(s, ids[0]);
        assert(s1 == seq![s[0]] + assoc_remove(s.drop_first(), ids[0]));
        assert(s1.len() > 0 && s1[0] == s[0]);
        assert(s1.drop_first() =~= assoc_remove(s.drop_first(), ids[0]));
        lemma_remove_all_head(s1, ids.drop_first());
    }
}

/// Every listed exhausted id is a key of the table.
pub proof fn lemma_zero_ids_keys(counts: Seq<(usize, u64)>)
    ensures
        forall|j: int|
            #![trigger zero_ids(counts)[j]]
            0 <= j < zero_ids(counts).len() ==> exists|i: int|
                #![trigger counts[i]]
                0 <= i < counts.len() && counts[i].0 == zero_ids(counts)[j],
    decreases counts.len(),
{
    if counts.len() > 0 {
        lemma_zero_ids_keys(counts.drop_first());
        assert forall|j: int|
            #![trigger zero_ids(counts)[j]]
            0 <= j < zero_ids(counts).len() implies exists|i: int|
            #![trigger counts[i]]
            0 <= i < counts.len() && counts[i].0 == zero_ids(counts)[j] by {
            if counts[0].1 == 0 {
                if j == 0 {
                    assert(counts[0].0 == zero_ids(counts)[0]);
                } else {
                    let jr = j - 1;
                    assert(zero_ids(counts)[j] == zero_ids(counts.drop_first())[jr]);
                    let i = choose|i: int|
                        0 <= i < counts.drop_first().len() && counts.drop_first()[i].0
                            == zero_ids(counts.drop_first())[jr];
                    assert(counts[i + 1].0 == zero_ids(counts)[j]);
                }
            } else {
                let i = choose|i: int|
                    0 <= i < counts.drop_first().len() && counts.drop_first()[i].0 == zero_ids(
                        counts.drop_first(),
                    )[j];
                assert(counts[i + 1].0 == zero_ids(counts)[j]);
            }
        }
    }
}

/// Removing exactly the exhausted ids from a table with distinct keys leaves
/// the table without its exhausted entries.
pub proof fn lemma_sweep_counts(counts: Seq<(usize, u64)>)
    requires
        distinct_keys(counts),
    ensures
        remove_all(counts, zero_ids(counts)) == keep_nonzero(counts),
    decreases counts.len(),
{
    if counts.len() > 0 {
        let rest = counts.drop_first();
        assert(distinct_keys(rest));
        lemma_sweep_counts(rest);
        lemma_zero_ids_keys(rest);
        if counts[0].1 == 0 {
            assert(zero_ids(counts)[0] == counts[0].0);
            assert(zero_ids(counts).drop_first() =~= zero_ids(rest));
            assert(assoc_remove(counts, counts[0].0) == rest);
        } else {
            assert(zero_ids(counts) == zero_ids(rest));
            assert forall|j: int| 0 <= j < zero_ids(rest).len() implies zero_ids(rest)[j]
                != counts[0].0 by {
                let i = choose|i: int|
                    0 <= i < rest.len() && rest[i].0 == zero_ids(rest)[j];
                assert(counts[i + 1].0 == rest[i].0);
            }
            lemma_remove_all_head(counts, zero_ids(rest));
            assert(keep_nonzero(counts) == seq![counts[0]] + keep_nonzero(rest));
        }
    }
}

/// Reference-counting collection of a scope's names, then the cleanup pass:
/// the exhausted objects leave the heap and their table entries are
/// reclaimed with them.
pub open spec fn reference_count_vec_s(st: St, names: Seq<Seq<char>>) -> Result<St, RunError> {
    match collect_names_s(st, names) {
        Ok(st2) => Ok(
            St {
                objects: sweep_zero_s(st2.objects, st2.counts),
                counts: keep_nonzero(st2.counts),
                ..st2
            },
        ),
        Err(e) => Err(e),
    }
}

/// Registering user-defined functions, each under its own name, in order.
pub open spec fn add_defined_s(
    funcs: Seq<(Seq<char>, Function)>,
    fs: Seq<crate::vm::DefinedFunction>,
) -> Seq<(Seq<char>, Function)>
    decreases fs.len(),
{
    if fs.len() == 0 {
        funcs
    } else {
        add_defined_s(assoc_set(funcs, fs[0].name@, Function::Defined(fs[0])), fs.drop_first())
    }
}

/// Registering native functions, each under its own name, in order.
pub open spec fn add_native_s(
    funcs: Seq<(Seq<char>, Function)>,
    fs: Seq<crate::vm::BuiltInFunction>,
) -> Seq<(Seq<char>, Function)>
    decreases fs.len(),
{
    if fs.len() == 0 {
        funcs
    } else {
        add_native_s(assoc_set(funcs, fs[0].name@, Function::Native(fs[0])), fs.drop_first())
    }
}

/// The views of a list of names.
pub open spec fn names_view(ns: Seq<String>) -> Seq<Seq<char>> {
    Seq::new(ns.len(), |i: int| ns[i]@)
}

pub open spec fn opt_val_v(o: Option<Value>) -> Option<ValueV> {
    match o {
        Some(v) => Some(value_view(v)),
        None => None,
    }
}

pub open spec fn opt_name_v(o: Option<String>) -> Option<Seq<char>> {
    match o {
        Some(s) => Some(s@),
        None => None,
    }
}

/// A value found in a sound scope is itself sound.
pub proof fn lemma_scope_get_ok(s: FieldsV, key: Seq<char>)
    requires
        scope_ok(s),
        assoc_get(s, key) is Some,
    ensures
        value_ok(assoc_get(s, key).unwrap()),
{
    lemma_assoc_get_elem(s, key);
    let i = choose|i: int| 0 <= i < s.len() && s[i] == (key, assoc_get(s, key).unwrap());
    assert(value_ok(s[i].1));
}

/// A record found in a sound heap is itself a sound scope.
pub proof fn lemma_objects_get_ok(objects: Seq<(usize, FieldsV)>, key: usize)
    requires
        forall|i: int| 0 <= i < objects.len() ==> scope_ok(objects[i].1),
        assoc_get(objects, key) is Some,
    ensures
        scope_ok(assoc_get(objects, key).unwrap()),
{
    lemma_assoc_get_elem(objects, key);
    let i = choose|i: int|
        0 <= i < objects.len() && objects[i] == (key, assoc_get(objects, key).unwrap());
    assert(scope_ok(objects[i].1));
}

/// A heap stays sound when every record either is the one new sound record
/// or comes from a sound heap.
pub proof fn lemma_objects_ok_mix(
    o_old: Seq<(usize, FieldsV)>,
    o_new: Seq<(usize, FieldsV)>,
    fields: FieldsV,
)
    requires
        forall|i: int| 0 <= i < o_old.len() ==> scope_ok(o_old[i].1),
        scope_ok(fields),
        forall|j: int|
            0 <= j < o_new.len() ==> (o_new[j].1 == fields || o_old.contains(o_new[j])),
    ensures
        forall|i: int| 0 <= i < o_new.len() ==> scope_ok(o_new[i].1),
{
    assert forall|j: int| 0 <= j < o_new.len() implies scope_ok(o_new[j].1) by {
        if o_new[j].1 != fields {
            let i = choose|i: int| 0 <= i < o_old.len() && o_old[i] == o_new[j];
            assert(scope_ok(o_old[i].1));
        }
    }
}

/// A scope stays sound when its entries all come from a sound scope.
pub proof fn lemma_scope_ok_sub(s_old: FieldsV, s_new: FieldsV)
    requires
        scope_ok(s_old),
        distinct_keys(s_new),
        forall|j: int| 0 <= j < s_new.len() ==> s_old.contains(s_new[j]),
    ensures
        scope_ok(s_new),
{
    assert forall|j: int| 0 <= j < s_new.len() implies value_ok(s_new[j].1) by {
        let i = choose|i: int| 0 <= i < s_old.len() && s_old[i] == s_new[j];
        assert(value_ok(s_old[i].1));
    }
}

/// A heap stays sound when its records all come from a sound heap.
pub proof fn lemma_objects_ok_sub(o_old: Seq<(usize, FieldsV)>, o_new: Seq<(usize, FieldsV)>)
    requires
        forall|i: int| 0 <= i < o_old.len() ==> scope_ok(o_old[i].1),
        forall|j: int| 0 <= j < o_new.len() ==> o_old.contains(o_new[j]),
    ensures
        forall|i: int| 0 <= i < o_new.len() ==> scope_ok(o_new[i].1),
{
    assert forall|j: int| 0 <= j < o_new.len() implies scope_ok(o_new[j].1) by {
        let i = choose|i: int| 0 <= i < o_old.len() && o_old[i] == o_new[j];
        assert(scope_ok(o_old[i].1));
    }
}

/// A scope stays sound when every entry either carries the one new sound
/// value or was an entry of a sound scope already.
pub proof fn lemma_scope_ok_mix(s_old: FieldsV, s_new: FieldsV, v: ValueV)
    requires
        scope_ok(s_old),
        value_ok(v),
        distinct_keys(s_new),
        forall|j: int|
            0 <= j < s_new.len() ==> (s_new[j].1 == v || s_old.contains(s_new[j])),
    ensures
        scope_ok(s_new),
{
    assert forall|j: int| 0 <= j < s_new.len() implies value_ok(s_new[j].1) by {
        if s_new[j].1 != v {
            let i = choose|i: int| 0 <= i < s_old.len() && s_old[i] == s_new[j];
            assert(value_ok(s_old[i].1));
        }
    }
}

/// A collection point: nothing under `None`; the reference-counting pass
/// under `ReferenceCounting`; under `Custom` the names are queued for the
/// caller-run collector.
pub open spec fn run_gc_s(st: St, names: Seq<Seq<char>>) -> Result<St, RunError> {
    match st.gc {
        GcApproach::Disabled => Ok(st),
        GcApproach::ReferenceCounting => reference_count_vec_s(st, names),
        GcApproach::Custom => Ok(St { pending: st.pending.push(names), ..st }),
    }
}


// ------------------------------------------------------------------
// The meaning of evaluation and execution, as one step-indexed
// interpreter: every transition consumes fuel, and exhausting it is the
// host's generic resource failure. A result carries the state after the
// transition; after an error the run is over and no state is given.
// ------------------------------------------------------------------

/// The first stage of operand normalization: a bare variable reference is
/// replaced by the value of the named global.
pub open spec fn norm_var_s(st: St, e: Eval) -> Result<Option<ValueV>, RunError> {
    match e {
        Eval::VarRef(name) => match assoc_get(st.globals, name@) {
            Some(v) => Ok(Some(v)),
            None => Err(RunError::UnknownVariable),
        },
        _ => Ok(None),
    }
}

/// The heap address that an already-evaluated member-access target
/// designates.
pub open spec fn target_addr_s(st: St, tv: ValueV) -> Result<usize, RunError> {
    match tv {
        ValueV::Int(id) => if id >= 0 {
            Ok(id as usize)
        } else {
            Err(RunError::NegativeAddress)
        },
        ValueV::Str(vn) => match assoc_get(st.globals, vn) {
            None => Err(RunError::UnknownVariable),
            Some(ValueV::Obj(oid)) => Ok(oid as usize),
            Some(_) => Err(RunError::TypeMismatch),
        },
        _ => Err(RunError::TypeMismatch),
    }
}

/// The second stage of operand normalization: a member access whose target
/// is an address literal, or a string literal naming a global that holds an
/// object reference, is replaced by the addressed field's value.
pub open spec fn norm_member_s(st: St, e: Eval, acc: Option<ValueV>) -> Result<
    Option<ValueV>,
    RunError,
> {
    if acc is Some {
        Ok(acc)
    } else {
        match e {
            Eval::GetMember(target, field) => {
                let tr = match *target {
                    Eval::Int(id) => target_addr_s(st, ValueV::Int(id as int)),
                    Eval::String(vn) => target_addr_s(st, ValueV::Str(vn@)),
                    _ => Err(RunError::TypeMismatch),
                };
                match tr {
                    Err(e2) => Err(e2),
                    Ok(addr) => match assoc_get(st.objects, addr) {
                        None => Err(RunError::UnknownObject),
                        Some(fields) => match assoc_get(fields, field@) {
                            None => Err(RunError::UnknownField),
                            Some(v) => Ok(Some(v)),
                        },
                    },
                }
            },
            _ => Ok(None),
        }
    }
}

/// The third stage of operand normalization: an operand that is itself an
/// operator expression is reduced to its value.
pub open spec fn norm_op_s(st: St, e: Eval, acc: Option<ValueV>, fuel: u64) -> Result<
    (St, Option<ValueV>),
    RunError,
>
    decreases fuel,
{
    if fuel == 0 {
        Err(RunError::OutOfSteps)
    } else if acc is Some {
        Ok((st, acc))
    } else if is_operator(e) {
        match eval_s(st, e, (fuel - 1) as u64) {
            Ok((st2, v)) => Ok((st2, Some(v))),
            Err(e2) => Err(e2),
        }
    } else {
        Ok((st, None))
    }
}

/// The operand kind a normalized operand presents to the dispatcher.
pub open spec fn to_opnd_s(e: Eval, acc: Option<ValueV>) -> OpndV {
    match acc {
        Some(v) => match v {
            ValueV::Int(i) => OpndV::Int(i),
            ValueV::Bool(b) => OpndV::Bool(b),
            ValueV::Float(f) => OpndV::Float(f),
            ValueV::Str(s) => OpndV::Str(s),
            _ => OpndV::Opaque,
        },
        None => match e {
            Eval::Int(i) => OpndV::Int(i as int),
            Eval::Bool(b) => OpndV::Bool(b),
            Eval::Float(f) => OpndV::Float(f),
            Eval::String(s) => OpndV::Str(s@),
            _ => OpndV::Opaque,
        },
    }
}

/// A binary operator expression: both operands are normalized (in the order
/// the stages run on the pair), then the operator is dispatched on their
/// kinds; there is no short-circuiting of any kind.
pub open spec fn binop_s(st: St, op: BinOp, lhs: Eval, rhs: Eval, fuel: u64) -> Result<
    (St, ValueV),
    RunError,
>
    decreases fuel,
{
    if fuel == 0 {
        Err(RunError::OutOfSteps)
    } else {
        let f2 = (fuel - 1) as u64;
        match norm_var_s(st, lhs) {
            Err(e2) => Err(e2),
            Ok(la) => match norm_var_s(st, rhs) {
                Err(e2) => Err(e2),
                Ok(ra) => match norm_member_s(st, lhs, la) {
                    Err(e2) => Err(e2),
                    Ok(lb) => match norm_member_s(st, rhs, ra) {
                        Err(e2) => Err(e2),
                        Ok(rb) => match norm_op_s(st, lhs, lb, f2) {
                            Err(e2) => Err(e2),
                            Ok((st1, lc)) => match norm_op_s(st1, rhs, rb, f2) {
                                Err(e2) => Err(e2),
                                Ok((st2, rc)) => match apply_binop_s(
                                    op,
                                    to_opnd_s(lhs, lc),
                                    to_opnd_s(rhs, rc),
                                ) {
                                    Ok(v) => Ok((st2, v)),
                                    Err(e2) => Err(e2),
                                },
                            },
                        },
                    },
                },
            },
        }
    }
}

/// The negation expression: its operand is normalized the same way.
pub open spec fn notop_s(st: St, operand: Eval, fuel: u64) -> Result<(St, ValueV), RunError>
    decreases fuel,
{
    if fuel == 0 {
        Err(RunError::OutOfSteps)
    } else {
        let f2 = (fuel - 1) as u64;
        match norm_var_s(st, operand) {
            Err(e2) => Err(e2),
            Ok(a) => match norm_member_s(st, operand, a) {
                Err(e2) => Err(e2),
                Ok(b) => match norm_op_s(st, operand, b, f2) {
                    Err(e2) => Err(e2),
                    Ok((st1, c)) => match apply_not_s(to_opnd_s(operand, c)) {
                        Ok(v) => Ok((st1, v)),
                        Err(e2) => Err(e2),
                    },
                },
            },
        }
    }
}

/// Evaluating a list of expressions left to right.
pub open spec fn eval_list_s(st: St, items: Seq<Eval>, fuel: u64) -> Result<
    (St, Seq<ValueV>),
    RunError,
>
    decreases fuel,
{
    if fuel == 0 {
        Err(RunError::OutOfSteps)
    } else if items.len() == 0 {
        Ok((st, Seq::empty()))
    } else {
        let f2 = (fuel - 1) as u64;
        match eval_s(st, items[0], f2) {
            Err(e2) => Err(e2),
            Ok((st1, v)) => match eval_list_s(st1, items.drop_first(), f2) {
                Err(e2) => Err(e2),
                Ok((st2, vs)) => Ok((st2, seq![v] + vs)),
            },
        }
    }
}

/// Binding the declared parameters, in order, by evaluating each argument
/// against the already-current (fresh) local frame.
pub open spec fn bind_params_s(st: St, params: Seq<Seq<char>>, args: Seq<Eval>, fuel: u64) -> Result<
    St,
    RunError,
>
    decreases fuel,
{
    if fuel == 0 {
        Err(RunError::OutOfSteps)
    } else if params.len() == 0 {
        Ok(st)
    } else {
        let f2 = (fuel - 1) as u64;
        match eval_s(st, args[0], f2) {
            Err(e2) => Err(e2),
            Ok((st1, v)) => match st1.local {
                None => Err(RunError::FrameMissing),
                Some(frame) => bind_params_s(
                    St { local: Some(assoc_set(frame, params[0], v)), ..st1 },
                    params.drop_first(),
                    args.drop_first(),
                    f2,
                ),
            },
        }
    }
}

/// Running a function body: statements run in order; a top-level return
/// evaluates its expression against the current frame and stops the body.
pub open spec fn body_s(st: St, nodes: Seq<Node>, fuel: u64) -> Result<
    (St, Option<ValueV>),
    RunError,
>
    decreases fuel,
{
    if fuel == 0 {
        Err(RunError::OutOfSteps)
    } else if nodes.len() == 0 {
        Ok((st, None))
    } else {
        let f2 = (fuel - 1) as u64;
        match nodes[0] {
            Node::Return(e) => match eval_s(st, e, f2) {
                Err(e2) => Err(e2),
                Ok((st1, v)) => Ok((st1, Some(v))),
            },
            _ => match exec_node_s(st, nodes[0], f2) {
                Err(e2) => Err(e2),
                Ok((st1, _)) => body_s(st1, nodes.drop_first(), f2),
            },
        }
    }
}

/// Invoking a callable: a native performs its boundary behaviour; a defined
/// function gets a fresh local frame (the caller's is suspended), binds its
/// parameters and the variadic collector, runs its body, and restores the
/// suspended frame.
pub open spec fn call_s(st: St, f: Function, args: Seq<Eval>, fuel: u64) -> Result<
    (St, Option<ValueV>),
    RunError,
>
    decreases fuel,
{
    if fuel == 0 {
        Err(RunError::OutOfSteps)
    } else {
        let f2 = (fuel - 1) as u64;
        match f {
            Function::Native(n) => native_s(st, n.kind, args, f2),
            Function::Defined(d) => {
                let pushed = match st.local {
                    Some(fr) => st.locals.push(fr),
                    None => st.locals,
                };
                let st1 = St { locals: pushed, local: Some(Seq::empty()), ..st };
                let declared = d.args@.len() as int;
                match bind_params_s(st1, names_view(d.args@), args.take(declared), f2) {
                    Err(e2) => Err(e2),
                    Ok(st2) => {
                        let vr = if d.has_variadic {
                            match eval_list_s(st2, args.skip(declared), f2) {
                                Err(e2) => Err(e2),
                                Ok((st3, vs)) => match st3.local {
                                    None => Err(RunError::FrameMissing),
                                    Some(frame) => Ok(
                                        St {
                                            local: Some(
                                                assoc_set(frame, "varargs"@, ValueV::Arr(vs)),
                                            ),
                                            ..st3
                                        },
                                    ),
                                },
                            }
                        } else {
                            Ok(st2)
                        };
                        match vr {
                            Err(e2) => Err(e2),
                            Ok(st4) => match body_s(st4, d.body@, f2) {
                                Err(e2) => Err(e2),
                                Ok((st5, ret)) => {
                                    let restored = if st5.locals.len() > 0 {
                                        St {
                                            locals: st5.locals.drop_last(),
                                            local: Some(st5.locals.last()),
                                            ..st5
                                        }
                                    } else {
                                        St { local: None, ..st5 }
                                    };
                                    Ok((restored, ret))
                                },
                            },
                        }
                    },
                }
            },
        }
    }
}

/// A native function's behaviour: showing its evaluated arguments, or
/// taking the next queued input line (after an optional prompt).
pub open spec fn native_s(st: St, kind: NativeKind, args: Seq<Eval>, fuel: u64) -> Result<
    (St, Option<ValueV>),
    RunError,
>
    decreases fuel,
{
    if fuel == 0 {
        Err(RunError::OutOfSteps)
    } else {
        let f2 = (fuel - 1) as u64;
        match kind {
            NativeKind::Show { newline } => match eval_list_s(st, args, f2) {
                Err(e2) => Err(e2),
                Ok((st1, vs)) => {
                    let shown = st1.output.push(OutEventV::Show(vs));
                    let out2 = if newline {
                        shown.push(OutEventV::Newline)
                    } else {
                        shown
                    };
                    Ok((St { output: out2, ..st1 }, None))
                },
            },
            NativeKind::ReadLine { prompt } => {
                let pr = if prompt {
                    match eval_list_s(st, args, f2) {
                        Err(e2) => Err(e2),
                        Ok((st1, vs)) => Ok(St { output: st1.output.push(OutEventV::Show(vs)), ..st1 }),
                    }
                } else {
                    Ok(st)
                };
                match pr {
                    Err(e2) => Err(e2),
                    Ok(st2) => if st2.input.len() == 0 {
                        Err(RunError::InputExhausted)
                    } else {
                        Ok(
                            (
                                St { input: st2.input.drop_first(), ..st2 },
                                Some(ValueV::Str(st2.input[0])),
                            ),
                        )
                    },
                }
            },
        }
    }
}

/// The call protocol: the callable is looked up, its arity is checked, it is
/// removed from the registry for the whole invocation (so a callable cannot
/// reach itself while it runs), and it is reinserted afterwards.
pub open spec fn call_proto_s(st: St, name: Seq<char>, args: Seq<Eval>, fuel: u64) -> Result<
    (St, Option<ValueV>),
    RunError,
>
    decreases fuel,
{
    if fuel == 0 {
        Err(RunError::OutOfSteps)
    } else {
        let f2 = (fuel - 1) as u64;
        match assoc_get(st.funcs, name) {
            None => Err(RunError::UnknownFunction),
            Some(f) => if f.spec_args_len() != args.len() && !f.spec_is_variadic() {
                Err(RunError::ArityMismatch)
            } else if (f matches Function::Defined(d) && d.has_variadic && args.len()
                < d.args@.len()) {
                Err(RunError::ArityMismatch)
            } else {
                let st1 = St { funcs: assoc_remove(st.funcs, name), ..st };
                match call_s(st1, f, args, f2) {
                    Err(e2) => Err(e2),
                    Ok((st2, ret)) => Ok(
                        (St { funcs: assoc_set(st2.funcs, name, f), ..st2 }, ret),
                    ),
                }
            },
        }
    }
}

/// Resolving a member access after its target expression was evaluated.
pub open spec fn member_lookup_s(st: St, tv: ValueV, field: Seq<char>) -> Result<
    ValueV,
    RunError,
> {
    match target_addr_s(st, tv) {
        Err(e2) => Err(e2),
        Ok(addr) => match assoc_get(st.objects, addr) {
            None => Err(RunError::UnknownObject),
            Some(fields) => match assoc_get(fields, field) {
                None => Err(RunError::UnknownField),
                Some(v) => Ok(v),
            },
        },
    }
}

/// What an expression evaluates to, and how the state changes on the way.
pub open spec fn eval_s(st: St, e: Eval, fuel: u64) -> Result<(St, ValueV), RunError>
    decreases fuel,
{
    if fuel == 0 {
        Err(RunError::OutOfSteps)
    } else {
        let f2 = (fuel - 1) as u64;
        match e {
            Eval::Int(i) => Ok((st, ValueV::Int(i as int))),
            Eval::Bool(b) => Ok((st, ValueV::Bool(b))),
            Eval::Float(bits) => Ok((st, ValueV::Float(bits))),
            Eval::String(s) => Ok((st, ValueV::Str(s@))),
            Eval::Array(items) => match eval_list_s(st, items@, f2) {
                Err(e2) => Err(e2),
                Ok((st1, vs)) => Ok((st1, ValueV::Arr(vs))),
            },
            Eval::Object(b) => match *b {
                Eval::Int(id) => if id >= 0 {
                    Ok((st, ValueV::Obj(id as int)))
                } else {
                    Err(RunError::NegativeAddress)
                },
                _ => Err(RunError::Unsupported),
            },
            Eval::VarRef(name) => match st.local {
                Some(frame) => match assoc_get(frame, name@) {
                    Some(v) => Ok((st, v)),
                    None => match assoc_get(st.globals, name@) {
                        Some(v) => Ok((st, v)),
                        None => Err(RunError::UnknownVariable),
                    },
                },
                None => match assoc_get(st.globals, name@) {
                    Some(v) => Ok((st, v)),
                    None => Err(RunError::UnknownVariable),
                },
            },
            Eval::FnCall(name, args) => match call_proto_s(st, name@, args@, f2) {
                Err(e2) => Err(e2),
                Ok((st1, ret)) => match ret {
                    None => Err(RunError::NoReturnValue),
                    Some(v) => Ok((st1, v)),
                },
            },
            Eval::GetMember(target, field) => match eval_s(st, *target, f2) {
                Err(e2) => Err(e2),
                Ok((st1, tv)) => match member_lookup_s(st1, tv, field@) {
                    Err(e2) => Err(e2),
                    Ok(v) => Ok((st1, v)),
                },
            },
            Eval::Add(l, r) => binop_s(st, BinOp::Add, *l, *r, f2),
            Eval::Sub(l, r) => binop_s(st, BinOp::Sub, *l, *r, f2),
            Eval::Mul(l, r) => binop_s(st, BinOp::Mul, *l, *r, f2),
            Eval::Div(l, r) => binop_s(st, BinOp::Div, *l, *r, f2),
            Eval::Mod(l, r) => binop_s(st, BinOp::Mod, *l, *r, f2),
            Eval::Pow(l, r) => binop_s(st, BinOp::Pow, *l, *r, f2),
            Eval::Eq(l, r) => binop_s(st, BinOp::Eq, *l, *r, f2),
            Eval::Ne(l, r) => binop_s(st, BinOp::Ne, *l, *r, f2),
            Eval::Gt(l, r) => binop_s(st, BinOp::Gt, *l, *r, f2),
            Eval::Ge(l, r) => binop_s(st, BinOp::Ge, *l, *r, f2),
            Eval::Lt(l, r) => binop_s(st, BinOp::Lt, *l, *r, f2),
            Eval::Le(l, r) => binop_s(st, BinOp::Le, *l, *r, f2),
            Eval::And(l, r) => binop_s(st, BinOp::And, *l, *r, f2),
            Eval::Or(l, r) => binop_s(st, BinOp::Or, *l, *r, f2),
            Eval::Not(v) => notop_s(st, *v, f2),
        }
    }
}

/// Evaluating and binding one created object's field initializers, in order,
/// raising the use count of each object-valued field.
pub open spec fn create_fields_s(st: St, flds: Seq<(String, Eval)>, acc: FieldsV, fuel: u64) -> Result<
    (St, FieldsV),
    RunError,
>
    decreases fuel,
{
    if fuel == 0 {
        Err(RunError::OutOfSteps)
    } else if flds.len() == 0 {
        Ok((st, acc))
    } else {
        let f2 = (fuel - 1) as u64;
        match eval_s(st, flds[0].1, f2) {
            Err(e2) => Err(e2),
            Ok((st1, v)) => create_fields_s(
                St { counts: inc_use_s(st1.counts, v), ..st1 },
                flds.drop_first(),
                assoc_set(acc, flds[0].0@, v),
                f2,
            ),
        }
    }
}

/// Dropping the use count of every field of a deleted object, in field order.
pub open spec fn dec_fields_s(counts: Seq<(usize, u64)>, fields: FieldsV) -> Result<
    Seq<(usize, u64)>,
    RunError,
>
    decreases fields.len(),
{
    if fields.len() == 0 {
        Ok(counts)
    } else {
        match dec_use_s(counts, fields[0].1) {
            Err(e2) => Err(e2),
            Ok(c1) => dec_fields_s(c1, fields.drop_first()),
        }
    }
}

/// Choosing and running a conditional's branch: conditions are evaluated in
/// order and the first branch whose condition is exactly `true` runs as its
/// own collection scope; if none matched, a non-empty else body runs.
pub open spec fn cond_s(st: St, branches: Seq<(Eval, Vec<Node>)>, els: Seq<Node>, fuel: u64) -> Result<
    St,
    RunError,
>
    decreases fuel,
{
    if fuel == 0 {
        Err(RunError::OutOfSteps)
    } else {
        let f2 = (fuel - 1) as u64;
        if branches.len() == 0 {
            if els.len() > 0 {
                multi_run_s(st, els, f2)
            } else {
                Ok(st)
            }
        } else {
            match eval_s(st, branches[0].0, f2) {
                Err(e2) => Err(e2),
                Ok((st1, v)) => if v == ValueV::Bool(true) {
                    multi_run_s(st1, branches[0].1@, f2)
                } else {
                    cond_s(st1, branches.drop_first(), els, f2)
                },
            }
        }
    }
}

/// One pass through an unconditional loop body: a direct `break` collects
/// the names bound in the loop and leaves it; a direct `continue` restarts
/// the pass; a finished pass also restarts.
pub open spec fn loop_pass_s(
    st: St,
    nodes: Seq<Node>,
    remaining: Seq<Node>,
    assigned: Seq<Seq<char>>,
    fuel: u64,
) -> Result<St, RunError>
    decreases fuel,
{
    if fuel == 0 {
        Err(RunError::OutOfSteps)
    } else {
        let f2 = (fuel - 1) as u64;
        if remaining.len() == 0 {
            loop_s(st, nodes, assigned, f2)
        } else {
            match remaining[0] {
                Node::Break => match run_gc_s(st, assigned) {
                    Err(e2) => Err(e2),
                    Ok(st1) => Ok(st1),
                },
                Node::Continue => loop_s(st, nodes, assigned, f2),
                _ => match exec_node_s(st, remaining[0], f2) {
                    Err(e2) => Err(e2),
                    Ok((st1, nm)) => loop_pass_s(
                        st1,
                        nodes,
                        remaining.drop_first(),
                        match nm {
                            Some(n) => assigned.push(n),
                            None => assigned,
                        },
                        f2,
                    ),
                },
            }
        }
    }
}

/// An unconditional loop: passes repeat until a direct `break`.
pub open spec fn loop_s(st: St, nodes: Seq<Node>, assigned: Seq<Seq<char>>, fuel: u64) -> Result<
    St,
    RunError,
>
    decreases fuel,
{
    if fuel == 0 {
        Err(RunError::OutOfSteps)
    } else {
        loop_pass_s(st, nodes, nodes, assigned, (fuel - 1) as u64)
    }
}

/// One pass through a while loop's body, after its condition held.
pub open spec fn while_pass_s(
    st: St,
    cond: Eval,
    body: Seq<Node>,
    remaining: Seq<Node>,
    assigned: Seq<Seq<char>>,
    fuel: u64,
) -> Result<St, RunError>
    decreases fuel,
{
    if fuel == 0 {
        Err(RunError::OutOfSteps)
    } else {
        let f2 = (fuel - 1) as u64;
        if remaining.len() == 0 {
            while_s(st, cond, body, assigned, f2)
        } else {
            match remaining[0] {
                Node::Break => match run_gc_s(st, assigned) {
                    Err(e2) => Err(e2),
                    Ok(st1) => Ok(st1),
                },
                Node::Continue => while_s(st, cond, body, assigned, f2),
                _ => match exec_node_s(st, remaining[0], f2) {
                    Err(e2) => Err(e2),
                    Ok((st1, nm)) => while_pass_s(
                        st1,
                        cond,
                        body,
                        remaining.drop_first(),
                        match nm {
                            Some(n) => assigned.push(n),
                            None => assigned,
                        },
                        f2,
                    ),
                },
            }
        }
    }
}

/// A while loop: the condition is re-evaluated before each pass; when it is
/// no longer exactly `true`, or a direct `break` runs, the names bound in
/// the loop are collected.
pub open spec fn while_s(
    st: St,
    cond: Eval,
    body: Seq<Node>,
    assigned: Seq<Seq<char>>,
    fuel: u64,
) -> Result<St, RunError>
    decreases fuel,
{
    if fuel == 0 {
        Err(RunError::OutOfSteps)
    } else {
        let f2 = (fuel - 1) as u64;
        match eval_s(st, cond, f2) {
            Err(e2) => Err(e2),
            Ok((st1, v)) => if v == ValueV::Bool(true) {
                while_pass_s(st1, cond, body, body, assigned, f2)
            } else {
                match run_gc_s(st1, assigned) {
                    Err(e2) => Err(e2),
                    Ok(st2) => Ok(st2),
                }
            },
        }
    }
}

/// What one statement does, and which name it reports to the collection
/// channel (in this design, none).
pub open spec fn exec_node_s(st: St, n: Node, fuel: u64) -> Result<
    (St, Option<Seq<char>>),
    RunError,
>
    decreases fuel,
{
    if fuel == 0 {
        Err(RunError::OutOfSteps)
    } else {
        let f2 = (fuel - 1) as u64;
        match n {
            Node::Assign(name, e) => {
                if st.local is Some {
                    if assoc_contains(st.globals, name@) {
                        Err(RunError::GlobalShadow)
                    } else {
                        match eval_s(st, e, f2) {
                            Err(e2) => Err(e2),
                            Ok((st1, v)) => match st1.local {
                                None => Err(RunError::FrameMissing),
                                Some(frame) => Ok(
                                    (
                                        St {
                                            local: Some(assoc_set(frame, name@, v)),
                                            ..st1
                                        },
                                        None,
                                    ),
                                ),
                            },
                        }
                    }
                } else {
                    match eval_s(st, e, f2) {
                        Err(e2) => Err(e2),
                        Ok((st1, v)) => Ok(
                            (St { globals: assoc_set(st1.globals, name@, v), ..st1 }, None),
                        ),
                    }
                }
            },
            Node::Unassign(name) => {
                let from_local = match st.local {
                    Some(frame) => assoc_get(frame, name@),
                    None => None,
                };
                match from_local {
                    Some(v) => {
                        let frame = st.local.unwrap();
                        match dec_use_s(st.counts, v) {
                            Err(e2) => Err(e2),
                            Ok(c1) => Ok(
                                (
                                    St {
                                        local: Some(assoc_remove(frame, name@)),
                                        counts: c1,
                                        ..st
                                    },
                                    None,
                                ),
                            ),
                        }
                    },
                    None => match assoc_get(st.globals, name@) {
                        None => Err(RunError::UnknownVariable),
                        Some(v) => match dec_use_s(st.counts, v) {
                            Err(e2) => Err(e2),
                            Ok(c1) => Ok(
                                (
                                    St {
                                        globals: assoc_remove(st.globals, name@),
                                        counts: c1,
                                        ..st
                                    },
                                    None,
                                ),
                            ),
                        },
                    },
                }
            },
            Node::CreateObject(ptr, flds) => match eval_s(st, ptr, f2) {
                Err(e2) => Err(e2),
                Ok((st1, pv)) => match pv {
                    ValueV::Int(id) => if id < 0 {
                        Err(RunError::NegativeAddress)
                    } else {
                        let addr = id as usize;
                        if assoc_contains(st1.objects, addr) {
                            Err(RunError::DuplicateObject)
                        } else {
                            match create_fields_s(st1, flds@, Seq::empty(), f2) {
                                Err(e2) => Err(e2),
                                Ok((st2, fields)) => Ok(
                                    (
                                        St {
                                            objects: assoc_set(st2.objects, addr, fields),
                                            ..st2
                                        },
                                        None,
                                    ),
                                ),
                            }
                        }
                    },
                    _ => Err(RunError::TypeMismatch),
                },
            },
            Node::DeleteObject(ptr) => match eval_s(st, ptr, f2) {
                Err(e2) => Err(e2),
                Ok((st1, pv)) => match pv {
                    ValueV::Int(id) => if id < 0 {
                        Err(RunError::NegativeAddress)
                    } else {
                        let addr = id as usize;
                        match assoc_get(st1.objects, addr) {
                            None => Ok((st1, None)),
                            Some(fields) => match dec_fields_s(st1.counts, fields) {
                                Err(e2) => Err(e2),
                                Ok(c1) => Ok(
                                    (
                                        St {
                                            objects: assoc_remove(st1.objects, addr),
                                            counts: c1,
                                            ..st1
                                        },
                                        None,
                                    ),
                                ),
                            },
                        }
                    },
                    _ => Err(RunError::TypeMismatch),
                },
            },
            Node::SetMember(obj_e, member, val_e) => match eval_s(st, obj_e, f2) {
                Err(e2) => Err(e2),
                Ok((st1, tv)) => match target_addr_s(st1, tv) {
                    Err(e2) => Err(e2),
                    Ok(addr) => match eval_s(st1, val_e, f2) {
                        Err(e2) => Err(e2),
                        Ok((st2, v)) => {
                            let st3 = St { counts: inc_use_s(st2.counts, v), ..st2 };
                            match assoc_get(st3.objects, addr) {
                                None => Err(RunError::UnknownObject),
                                Some(fields) => Ok(
                                    (
                                        St {
                                            objects: assoc_set(
                                                st3.objects,
                                                addr,
                                                assoc_set(fields, member@, v),
                                            ),
                                            ..st3
                                        },
                                        None,
                                    ),
                                ),
                            }
                        },
                    },
                },
            },
            Node::Conditional(branches, els) => match cond_s(st, branches@, els@, f2) {
                Err(e2) => Err(e2),
                Ok(st1) => Ok((st1, None)),
            },
            Node::Loop(nodes) => match loop_s(st, nodes@, Seq::empty(), f2) {
                Err(e2) => Err(e2),
                Ok(st1) => Ok((st1, None)),
            },
            Node::WhileLoop(cond, body) => match while_s(st, cond, body@, Seq::empty(), f2) {
                Err(e2) => Err(e2),
                Ok(st1) => Ok((st1, None)),
            },
            Node::For(_, _, _) => Err(RunError::Unsupported),
            Node::FnDef(_, _, _) => Err(RunError::Unsupported),
            Node::Break => Err(RunError::InvalidJump),
            Node::Continue => Err(RunError::InvalidJump),
            Node::Return(_) => Err(RunError::InvalidJump),
            Node::FnCall(name, args) => match call_proto_s(st, name@, args@, f2) {
                Err(e2) => Err(e2),
                Ok((st1, _)) => Ok((st1, None)),
            },
        }
    }
}

/// Running a statement sequence, gathering the names its statements report.
pub open spec fn run_seq_s(
    st: St,
    nodes: Seq<Node>,
    assigned: Seq<Seq<char>>,
    fuel: u64,
) -> Result<(St, Seq<Seq<char>>), RunError>
    decreases fuel,
{
    if fuel == 0 {
        Err(RunError::OutOfSteps)
    } else if nodes.len() == 0 {
        Ok((st, assigned))
    } else {
        let f2 = (fuel - 1) as u64;
        match exec_node_s(st, nodes[0], f2) {
            Err(e2) => Err(e2),
            Ok((st1, nm)) => run_seq_s(
                st1,
                nodes.drop_first(),
                match nm {
                    Some(n) => assigned.push(n),
                    None => assigned,
                },
                f2,
            ),
        }
    }
}

/// A statement sequence as its own collection scope: the sequence runs, then
/// the collection point sees the names it reported.
pub open spec fn multi_run_s(st: St, nodes: Seq<Node>, fuel: u64) -> Result<St, RunError>
    decreases fuel,
{
    if fuel == 0 {
        Err(RunError::OutOfSteps)
    } else {
        let f2 = (fuel - 1) as u64;
        match run_seq_s(st, nodes, Seq::empty(), f2) {
            Err(e2) => Err(e2),
            Ok((st1, assigned)) => match run_gc_s(st1, assigned) {
                Err(e2) => Err(e2),
                Ok(st2) => Ok(st2),
            },
        }
    }
}


// ------------------------------------------------------------------
// Laws of the semantics.
// ------------------------------------------------------------------

/// The steps evaluating a literal node can take.
pub open spec fn lit_cost(e: Eval) -> nat
    decreases e,
{
    match e {
        Eval::Array(items) => 1 + list_cost(items@),
        _ => 1,
    }
}

pub open spec fn list_cost(items: Seq<Eval>) -> nat
    decreases items,
{
    if items.len() == 0 {
        1
    } else {
        let a = lit_cost(items[0]);
        let b = list_cost(items.drop_first());
        1 + (if a > b {
            a
        } else {
            b
        })
    }
}

/// Literal round-trip: evaluating any literal node — of every literal kind,
/// arrays element-wise — yields the semantically identical value and leaves
/// the whole runtime state untouched, whenever the step budget covers the
/// node.
pub proof fn lemma_literal_round_trip(st: St, e: Eval, v: ValueV, fuel: u64)
    requires
        crate::value::is_literal_of(e, v),
        fuel >= lit_cost(e),
    ensures
        eval_s(st, e, fuel) == Ok::<(St, ValueV), RunError>((st, v)),
    decreases e,
{
    match e {
        Eval::Array(items) => {
            let vs = choose|vs: Seq<ValueV>| v == ValueV::Arr(vs);
            lemma_literal_list(st, items@, vs, (fuel - 1) as u64);
        },
        _ => {},
    }
}

/// Evaluating a list of literal nodes yields their values, state untouched.
pub proof fn lemma_literal_list(st: St, items: Seq<Eval>, vs: Seq<ValueV>, fuel: u64)
    requires
        crate::value::are_literals_of(items, vs),
        fuel >= list_cost(items),
    ensures
        eval_list_s(st, items, fuel) == Ok::<(St, Seq<ValueV>), RunError>((st, vs)),
    decreases items,
{
    crate::value::lemma_are_literals_of_index(items, vs);
    if items.len() == 0 {
        assert(vs =~= Seq::<ValueV>::empty());
    } else {
        let f2 = (fuel - 1) as u64;
        lemma_literal_round_trip(st, items[0], vs[0], f2);
        assert forall|i: int|
            0 <= i < items.drop_first().len() implies crate::value::is_literal_of(
            items.drop_first()[i],
            vs.drop_first()[i],
        ) by {
            assert(items.drop_first()[i] == items[i + 1]);
            assert(vs.drop_first()[i] == vs[i + 1]);
        }
        crate::value::lemma_are_literals_of(items.drop_first(), vs.drop_first());
        lemma_literal_list(st, items.drop_first(), vs.drop_first(), f2);
        assert(vs =~= seq![vs[0]] + vs.drop_first());
    }
}

/// Scope shadowing: assigning a name that already exists as a global while a
/// local frame is active fails with the shadow-collision error; assigning
/// with no local frame active evaluates the expression and overwrites the
/// global binding silently.
pub proof fn lemma_assign_shadowing(st: St, name: String, e: Eval, fuel: u64)
    requires
        fuel > 0,
    ensures
        st.local is Some && assoc_contains(st.globals, name@) ==> exec_node_s(
            st,
            Node::Assign(name, e),
            fuel,
        ) == Err::<(St, Option<Seq<char>>), RunError>(RunError::GlobalShadow),
        st.local is None ==> exec_node_s(st, Node::Assign(name, e), fuel) == (match eval_s(
            st,
            e,
            (fuel - 1) as u64,
        ) {
            Ok((st1, v)) => Ok::<(St, Option<Seq<char>>), RunError>(
                (St { globals: assoc_set(st1.globals, name@, v), ..st1 }, None),
            ),
            Err(er) => Err::<(St, Option<Seq<char>>), RunError>(er),
        }),
{
}

/// Loop control, first half: a `break` standing in the body ends the loop at
/// once — the statements after it do not run, no further pass begins, and
/// the collection point sees the names bound during the loop.
pub proof fn lemma_loop_break(
    st: St,
    nodes: Seq<Node>,
    remaining: Seq<Node>,
    assigned: Seq<Seq<char>>,
    fuel: u64,
)
    requires
        fuel > 0,
        remaining.len() > 0,
        remaining[0] == Node::Break,
    ensures
        loop_pass_s(st, nodes, remaining, assigned, fuel) == run_gc_s(st, assigned),
{
    match run_gc_s(st, assigned) {
        Ok(st1) => {},
        Err(e2) => {},
    }
}

/// Loop control, second half: a `continue` standing in the body skips the
/// statements after it and restarts the loop from the first statement of
/// the body.
pub proof fn lemma_loop_continue(
    st: St,
    nodes: Seq<Node>,
    remaining: Seq<Node>,
    assigned: Seq<Seq<char>>,
    fuel: u64,
)
    requires
        fuel > 0,
        remaining.len() > 0,
        remaining[0] == Node::Continue,
    ensures
        loop_pass_s(st, nodes, remaining, assigned, fuel) == loop_s(
            st,
            nodes,
            assigned,
            (fuel - 1) as u64,
        ),
{
}

/// The same two laws for a while loop; after a `continue` the loop re-tests
/// its condition before the next pass begins.
pub proof fn lemma_while_break(
    st: St,
    cond: Eval,
    body: Seq<Node>,
    remaining: Seq<Node>,
    assigned: Seq<Seq<char>>,
    fuel: u64,
)
    requires
        fuel > 0,
        remaining.len() > 0,
        remaining[0] == Node::Break,
    ensures
        while_pass_s(st, cond, body, remaining, assigned, fuel) == run_gc_s(st, assigned),
{
    match run_gc_s(st, assigned) {
        Ok(st1) => {},
        Err(e2) => {},
    }
}

pub proof fn lemma_while_continue(
    st: St,
    cond: Eval,
    body: Seq<Node>,
    remaining: Seq<Node>,
    assigned: Seq<Seq<char>>,
    fuel: u64,
)
    requires
        fuel > 0,
        remaining.len() > 0,
        remaining[0] == Node::Continue,
    ensures
        while_pass_s(st, cond, body, remaining, assigned, fuel) == while_s(
            st,
            cond,
            body,
            assigned,
            (fuel - 1) as u64,
        ),
{
}

} // verus!
