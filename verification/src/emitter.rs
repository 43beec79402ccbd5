//! A small ordered event emitter.
//!
//! An `Emitter` keeps, per event name, the handlers registered for it, in
//! registration order; emitting an event calls each of its handlers on the
//! given bytes, in that order.  Each event name has at most one entry in
//! the table.

use vstd::prelude::*;

use crate::registry::{
    cb_lookup, lemma_cb_absent, lemma_cb_found, lemma_cb_push_other, lemma_cb_remove_other,
    lemma_cb_update_other, lemma_view_cbs_index, view_cbs,
};

verus! {

broadcast use vstd::std_specs::vec::group_vec_axioms, vstd::seq::group_seq_axioms;

/// Named, ordered collections of event handlers.
pub struct Emitter<F> {
    events: Vec<(String, Vec<F>)>,
}

impl<F> Emitter<F> {
    /// The handlers registered under an event name, in registration order.
    pub closed spec fn handlers(self, event: Seq<char>) -> Seq<F> {
        cb_lookup(view_cbs(self.events@), event)
    }

    /// Each event name has at most one entry in the table.
    pub closed spec fn wf(self) -> bool {
        forall|i: int, j: int|
            0 <= i < j < self.events@.len() ==> self.events@[i].0@ != self.events@[j].0@
    }

    /// An emitter with no handlers.
    pub fn new() -> (r: Self)
        ensures
            r.wf(),
            forall|e: Seq<char>| r.handlers(e) == Seq::<F>::empty(),
    {
        let r = Emitter { events: Vec::<(String, Vec<F>)>::new() };
        proof {
            assert forall|e: Seq<char>| r.handlers(e) == Seq::<F>::empty() by {
                assert(view_cbs(r.events@) =~= Seq::<(Seq<char>, Seq<F>)>::empty());
            }
        }
        r
    }

    /// Append a handler to the named event's ordered list.
    pub fn on(&mut self, event: &str, callback: F)
        requires
            old(self).wf(),
        ensures
            final(self).wf(),
            final(self).handlers(event@) == old(self).handlers(event@).push(callback),
            forall|e: Seq<char>| e != event@ ==> final(self).handlers(e) == old(self).handlers(e),
    {
        proof {
            lemma_view_cbs_index(self.events@);
        }
        let ghost es = view_cbs(self.events@);
        let mut i: usize = 0;
        while i < self.events.len()
            invariant
                0 <= i <= self.events@.len(),
                old(self).wf(),
                *self == *old(self),
                es == view_cbs(self.events@),
                es.len() == self.events@.len(),
                forall|j: int|
                    0 <= j < self.events@.len() ==> es[j] == (
                        self.events@[j].0@,
                        self.events@[j].1@,
                    ),
                forall|j: int| 0 <= j < i ==> es[j].0 != event@,
            decreases self.events@.len() - i,
        {
            if crate::document::str_eq(self.events[i].0.as_str(), event) {
                let entry = self.events.remove(i);
                let mut list = entry.1;
                list.push(callback);
                self.events.insert(i, (entry.0, list));
                proof {
                    lemma_view_cbs_index(self.events@);
                    assert(view_cbs(self.events@) =~= es.update(i as int, (es[i as int].0, list@)));
                    lemma_cb_found(es, event@, i as int);
                    lemma_cb_found(es.update(i as int, (es[i as int].0, list@)), event@, i as int);
                    assert forall|e: Seq<char>| e != event@ implies final(self).handlers(e) == old(
                        self,
                    ).handlers(e) by {
                        lemma_cb_update_other(es, i as int, list@, e);
                    }
                    assert forall|a: int, b: int|
                        0 <= a < b < self.events@.len() implies self.events@[a].0@
                        != self.events@[b].0@ by {
                        assert(self.events@[a].0@ == view_cbs(self.events@)[a].0);
                        assert(self.events@[b].0@ == view_cbs(self.events@)[b].0);
                        assert(view_cbs(self.events@)[a].0 == es[a].0);
                        assert(view_cbs(self.events@)[b].0 == es[b].0);
                        assert(es[a].0 == old(self).events@[a].0@);
                        assert(es[b].0 == old(self).events@[b].0@);
                    }
                }
                return ;
            }
            i += 1;
        }
        let mut list = Vec::<F>::new();
        list.push(callback);
        self.events.push((event.to_owned(), list));
        proof {
            lemma_view_cbs_index(self.events@);
            assert(view_cbs(self.events@) =~= es.push((event@, list@)));
            lemma_cb_found(view_cbs(self.events@), event@, es.len() as int);
            lemma_cb_absent(es, event@);
            assert forall|e: Seq<char>| e != event@ implies final(self).handlers(e) == old(
                self,
            ).handlers(e) by {
                lemma_cb_push_other(es, (event@, list@), e);
            }
            assert forall|a: int, b: int|
                0 <= a < b < self.events@.len() implies self.events@[a].0@
                != self.events@[b].0@ by {
                assert(self.events@[a].0@ == view_cbs(self.events@)[a].0);
                assert(self.events@[b].0@ == view_cbs(self.events@)[b].0);
                assert(view_cbs(self.events@)[a].0 == es.push((event@, list@))[a].0);
                assert(view_cbs(self.events@)[b].0 == es.push((event@, list@))[b].0);
                if b < es.len() {
                    assert(es[a].0 == old(self).events@[a].0@);
                    assert(es[b].0 == old(self).events@[b].0@);
                } else {
                    assert(es[a].0 == old(self).events@[a].0@);
                    assert(es.push((event@, list@))[b].0 == event@);
                }
            }
        }
    }

    /// Drop the named event's whole handler list; there is no per-handler
    /// removal.
    pub fn off(&mut self, event: &str)
        requires
            old(self).wf(),
        ensures
            final(self).wf(),
            final(self).handlers(event@) == Seq::<F>::empty(),
            forall|e: Seq<char>| e != event@ ==> final(self).handlers(e) == old(self).handlers(e),
    {
        proof {
            lemma_view_cbs_index(self.events@);
        }
        let ghost es = view_cbs(self.events@);
        let mut i: usize = 0;
        while i < self.events.len()
            invariant
                0 <= i <= self.events@.len(),
                old(self).wf(),
                *self == *old(self),
                es == view_cbs(self.events@),
                es.len() == self.events@.len(),
                forall|j: int|
                    0 <= j < self.events@.len() ==> es[j] == (
                        self.events@[j].0@,
                        self.events@[j].1@,
                    ),
                forall|j: int| 0 <= j < i ==> es[j].0 != event@,
            decreases self.events@.len() - i,
        {
            if crate::document::str_eq(self.events[i].0.as_str(), event) {
                self.events.remove(i);
                proof {
                    lemma_view_cbs_index(self.events@);
                    assert(es.remove(i as int) =~= es.subrange(0, i as int) + es.subrange(
                        i + 1,
                        es.len() as int,
                    ));
                    assert(view_cbs(self.events@) =~= es.remove(i as int));
                    assert forall|j: int|
                        0 <= j < view_cbs(self.events@).len() implies view_cbs(self.events@)[j].0
                        != event@ by {
                        if j < i {
                            assert(es.remove(i as int)[j] == es.subrange(0, i as int)[j]);
                            assert(es.remove(i as int)[j] == es[j]);
                        } else {
                            assert(es.remove(i as int)[j] == es.subrange(
                                i + 1,
                                es.len() as int,
                            )[j - i]);
                            assert(es.remove(i as int)[j] == es[j + 1]);
                            assert(es[i as int].0 == event@);
                        }
                    }
                    lemma_cb_absent(view_cbs(self.events@), event@);
                    assert forall|e: Seq<char>| e != event@ implies final(self).handlers(e) == old(
                        self,
                    ).handlers(e) by {
                        lemma_cb_remove_other(es, i as int, e);
                    }
                    assert forall|a: int, b: int|
                        0 <= a < b < self.events@.len() implies self.events@[a].0@
                        != self.events@[b].0@ by {
                        let a0: int = if a < i { a } else { a + 1 };
                        let b0: int = if b < i { b } else { b + 1 };
                        assert(self.events@[a].0@ == view_cbs(self.events@)[a].0);
                        assert(self.events@[b].0@ == view_cbs(self.events@)[b].0);
                        assert(view_cbs(self.events@)[a].0 == es.remove(i as int)[a].0);
                        assert(view_cbs(self.events@)[b].0 == es.remove(i as int)[b].0);
                        assert(es.remove(i as int)[a].0 == es[a0].0);
                        assert(es.remove(i as int)[b].0 == es[b0].0);
                        assert(es[a0].0 == old(self).events@[a0].0@);
                        assert(es[b0].0 == old(self).events@[b0].0@);
                    }
                }
                return ;
            }
            i += 1;
        }
        proof {
            lemma_cb_absent(es, event@);
        }
    }
}

impl<F: Fn(&[u8])> Emitter<F> {
    /// Call each handler of the named event on the given bytes, in
    /// registration order.
    #[verifier::loop_isolation(false)]
    pub fn emit(&mut self, event: &str, args: &[u8])
        requires
            old(self).wf(),
            forall|i: int|
                0 <= i < old(self).handlers(event@).len() ==> (#[trigger] old(self).handlers(
                    event@,
                )[i]).requires((args,)),
        ensures
            *final(self) == *old(self),
            forall|i: int|
                0 <= i < old(self).handlers(event@).len() ==> (#[trigger] old(self).handlers(
                    event@,
                )[i]).ensures((args,), ()),
    {
        proof {
            lemma_view_cbs_index(self.events@);
        }
        let ghost es = view_cbs(self.events@);
        let mut i: usize = 0;
        while i < self.events.len()
            invariant
                0 <= i <= self.events@.len(),
                old(self).wf(),
                *self == *old(self),
                es == view_cbs(self.events@),
                es.len() == self.events@.len(),
                forall|j: int|
                    0 <= j < self.events@.len() ==> es[j] == (
                        self.events@[j].0@,
                        self.events@[j].1@,
                    ),
                forall|j: int| 0 <= j < i ==> es[j].0 != event@,
            decreases self.events@.len() - i,
        {
            let entry = &self.events[i];
            if crate::document::str_eq(entry.0.as_str(), event) {
                proof {
                    lemma_cb_found(es, event@, i as int);
                }
                let mut j: usize = 0;
                while j < entry.1.len()
                    invariant
                        0 <= j <= entry.1@.len(),
                        entry.1@ == old(self).handlers(event@),
                        forall|m: int|
                            0 <= m < old(self).handlers(event@).len() ==> (#[trigger] old(
                                self,
                            ).handlers(event@)[m]).requires((args,)),
                        forall|m: int|
                            0 <= m < j ==> (#[trigger] entry.1@[m]).ensures((args,), ()),
                    decreases entry.1@.len() - j,
                {
                    (entry.1[j])(args);
                    j += 1;
                }
                return ;
            }
            i += 1;
        }
        proof {
            lemma_cb_absent(es, event@);
        }
    }
}

} // verus!
