//! The model of ordered, named handler registries.
//!
//! Both the configuration store's callback registry and the event emitter
//! keep a list of `(event name, handlers)` entries; their contracts speak
//! of the per-event handler sequences through the functions here.

use vstd::prelude::*;

verus! {

broadcast use vstd::std_specs::vec::group_vec_axioms, vstd::seq::group_seq_axioms;

/// The model of the callback registry: event names with their observer
/// lists, in registration order.
pub open spec fn view_cbs<C>(entries: Seq<(String, Vec<C>)>) -> Seq<(Seq<char>, Seq<C>)>
    decreases entries,
{
    if entries.len() == 0 {
        Seq::empty()
    } else {
        seq![(entries[0].0@, entries[0].1@)] + view_cbs(entries.drop_first())
    }
}

/// The observer list registered under an event name, searching front to
/// back; an unknown name has an empty list.
pub open spec fn cb_lookup<C>(es: Seq<(Seq<char>, Seq<C>)>, k: Seq<char>) -> Seq<C>
    decreases es.len(),
{
    if es.len() == 0 {
        Seq::empty()
    } else if es[0].0 == k {
        es[0].1
    } else {
        cb_lookup(es.drop_first(), k)
    }
}

/// The registry models line up with the registry entries.
pub proof fn lemma_view_cbs_index<C>(entries: Seq<(String, Vec<C>)>)
    ensures
        view_cbs(entries).len() == entries.len(),
        forall|i: int|
            0 <= i < entries.len() ==> view_cbs(entries)[i] == (entries[i].0@, entries[i].1@),
    decreases entries,
{
    if entries.len() > 0 {
        lemma_view_cbs_index(entries.drop_first());
        let rest = view_cbs(entries.drop_first());
        assert(view_cbs(entries) == seq![(entries[0].0@, entries[0].1@)] + rest);
        assert forall|i: int| 0 <= i < entries.len() implies view_cbs(entries)[i] == (
            entries[i].0@,
            entries[i].1@,
        ) by {
            if i > 0 {
                assert((seq![(entries[0].0@, entries[0].1@)] + rest)[i] == rest[i - 1]);
                assert(entries.drop_first()[i - 1] == entries[i]);
            }
        }
    }
}

/// The lookup finds the first entry whose name matches.
pub proof fn lemma_cb_found<C>(es: Seq<(Seq<char>, Seq<C>)>, k: Seq<char>, i: int)
    requires
        0 <= i < es.len(),
        forall|j: int| 0 <= j < i ==> es[j].0 != k,
        es[i].0 == k,
    ensures
        cb_lookup(es, k) == es[i].1,
    decreases i,
{
    if i > 0 {
        lemma_cb_found(es.drop_first(), k, i - 1);
    }
}

/// The lookup of a name that no entry carries is empty.
pub proof fn lemma_cb_absent<C>(es: Seq<(Seq<char>, Seq<C>)>, k: Seq<char>)
    requires
        forall|j: int| 0 <= j < es.len() ==> es[j].0 != k,
    ensures
        cb_lookup(es, k) == Seq::<C>::empty(),
    decreases es.len(),
{
    if es.len() > 0 {
        lemma_cb_absent(es.drop_first(), k);
    }
}

/// Replacing one entry's list leaves every other name's lookup unchanged.
pub proof fn lemma_cb_update_other<C>(
    es: Seq<(Seq<char>, Seq<C>)>,
    i: int,
    l2: Seq<C>,
    k2: Seq<char>,
)
    requires
        0 <= i < es.len(),
        k2 != es[i].0,
    ensures
        cb_lookup(es.update(i, (es[i].0, l2)), k2) == cb_lookup(es, k2),
    decreases i,
{
    let es2 = es.update(i, (es[i].0, l2));
    if i == 0 {
        assert(es2.drop_first() =~= es.drop_first());
    } else {
        lemma_cb_update_other(es.drop_first(), i - 1, l2, k2);
        assert(es2.drop_first() =~= es.drop_first().update(i - 1, (es[i].0, l2)));
        assert(es.drop_first()[i - 1] == es[i]);
    }
}

/// Appending a new entry leaves every other name's lookup unchanged.
pub proof fn lemma_cb_push_other<C>(es: Seq<(Seq<char>, Seq<C>)>, e: (Seq<char>, Seq<C>), k2: Seq<char>)
    requires
        k2 != e.0,
    ensures
        cb_lookup(es.push(e), k2) == cb_lookup(es, k2),
    decreases es.len(),
{
    if es.len() == 0 {
        reveal_with_fuel(cb_lookup, 2);
        assert(es.push(e)[0] == e);
        assert(es.push(e).drop_first() =~= Seq::<(Seq<char>, Seq<C>)>::empty());
        assert(cb_lookup(es.push(e), k2) == cb_lookup(es, k2));
    } else {
        lemma_cb_push_other(es.drop_first(), e, k2);
        assert(es.push(e)[0] == es[0]);
        assert(es.push(e).drop_first() =~= es.drop_first().push(e));
        assert(cb_lookup(es.push(e), k2) == cb_lookup(es, k2));
    }
}

/// Removing one entry leaves every other name's lookup unchanged.
pub proof fn lemma_cb_remove_other<C>(es: Seq<(Seq<char>, Seq<C>)>, i: int, k2: Seq<char>)
    requires
        0 <= i < es.len(),
        k2 != es[i].0,
    ensures
        cb_lookup(es.remove(i), k2) == cb_lookup(es, k2),
    decreases i,
{
    let es2 = es.remove(i);
    if i == 0 {
        assert(es2 =~= es.drop_first());
    } else {
        lemma_cb_remove_other(es.drop_first(), i - 1, k2);
        assert(es2.drop_first() =~= es.drop_first().remove(i - 1));
        assert(es.drop_first()[i - 1] == es[i]);
        assert(es2[0] == es[0]);
    }
}

} // verus!
