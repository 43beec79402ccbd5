//! The configuration document model.
//!
//! A `Document` is a dynamically shaped tree value: null, a boolean, an
//! integer, a string, an array of documents, or an object mapping string
//! keys to documents.  Objects are kept in canonical form: their entries are
//! strictly sorted by key, so keys are unique and two well-formed documents
//! are structurally equal exactly when their models are equal.

use vstd::prelude::*;

verus! {

broadcast use
    vstd::std_specs::vec::group_vec_axioms,
    vstd::seq::group_seq_axioms,
    vstd::utf8::char_is_scalar,
    vstd::utf8::char_u32_cast,
;

/// A configuration value: a JSON-like tree.
#[derive(Debug)]
pub enum Document {
    Null,
    Bool(bool),
    Num(i64),
    Text(String),
    Arr(Vec<Document>),
    Obj(Vec<(String, Document)>),
}

/// The mathematical model of a `Document`: the same tree over `int`,
/// `Seq<char>` and `Seq`.
#[verifier::ext_equal]
pub ghost enum DocV {
    Null,
    Bool(bool),
    Num(int),
    Text(Seq<char>),
    Arr(Seq<DocV>),
    Obj(Seq<(Seq<char>, DocV)>),
}

impl View for Document {
    type V = DocV;

    /// The model of this document.
    open spec fn view(&self) -> DocV
        decreases self,
    {
        match *self {
            Document::Null => DocV::Null,
            Document::Bool(b) => DocV::Bool(b),
            Document::Num(n) => DocV::Num(n as int),
            Document::Text(s) => DocV::Text(s@),
            Document::Arr(elems) => DocV::Arr(view_elems(elems@)),
            Document::Obj(entries) => DocV::Obj(view_entries(entries@)),
        }
    }
}

impl DocV {
    /// The entries of an object model.
    pub open spec fn entries(self) -> Seq<(Seq<char>, DocV)> {
        self->Obj_0
    }

    /// The elements of an array model.
    pub open spec fn elems(self) -> Seq<DocV> {
        self->Arr_0
    }
}

/// The models of a sequence of documents, element by element.
pub open spec fn view_elems(elems: Seq<Document>) -> Seq<DocV>
    decreases elems,
{
    if elems.len() == 0 {
        Seq::empty()
    } else {
        seq![elems[0].view()] + view_elems(elems.drop_first())
    }
}

/// The models of a sequence of object entries, entry by entry.
pub open spec fn view_entries(entries: Seq<(String, Document)>) -> Seq<(Seq<char>, DocV)>
    decreases entries,
{
    if entries.len() == 0 {
        Seq::empty()
    } else {
        seq![(entries[0].0@, entries[0].1.view())] + view_entries(entries.drop_first())
    }
}

/// Strict lexicographic order on key sequences, by unicode scalar value.
pub open spec fn lex_lt(a: Seq<char>, b: Seq<char>) -> bool
    decreases a.len(),
{
    if b.len() == 0 {
        false
    } else if a.len() == 0 {
        true
    } else if (a[0] as u32) < (b[0] as u32) {
        true
    } else if a[0] == b[0] {
        lex_lt(a.drop_first(), b.drop_first())
    } else {
        false
    }
}

/// The element models line up with the elements.
pub proof fn lemma_view_elems_index(elems: Seq<Document>)
    ensures
        view_elems(elems).len() == elems.len(),
        forall|i: int| 0 <= i < elems.len() ==> view_elems(elems)[i] == elems[i]@,
    decreases elems,
{
    if elems.len() > 0 {
        lemma_view_elems_index(elems.drop_first());
        let rest = view_elems(elems.drop_first());
        assert(view_elems(elems) == seq![elems[0]@] + rest);
        assert forall|i: int| 0 <= i < elems.len() implies view_elems(elems)[i] == elems[i]@ by {
            if i > 0 {
                assert((seq![elems[0]@] + rest)[i] == rest[i - 1]);
                assert(elems.drop_first()[i - 1] == elems[i]);
            }
        }
    }
}

/// The entry models line up with the entries.
pub proof fn lemma_view_entries_index(entries: Seq<(String, Document)>)
    ensures
        view_entries(entries).len() == entries.len(),
        forall|i: int|
            0 <= i < entries.len() ==> view_entries(entries)[i] == (
                entries[i].0@,
                entries[i].1@,
            ),
    decreases entries,
{
    if entries.len() > 0 {
        lemma_view_entries_index(entries.drop_first());
        let rest = view_entries(entries.drop_first());
        assert(view_entries(entries) == seq![(entries[0].0@, entries[0].1@)] + rest);
        assert forall|i: int| 0 <= i < entries.len() implies view_entries(entries)[i] == (
            entries[i].0@,
            entries[i].1@,
        ) by {
            if i > 0 {
                assert((seq![(entries[0].0@, entries[0].1@)] + rest)[i] == rest[i - 1]);
                assert(entries.drop_first()[i - 1] == entries[i]);
            }
        }
    }
}

/// The entries of an object are strictly sorted by key.
pub open spec fn entries_sorted(es: Seq<(Seq<char>, DocV)>) -> bool {
    forall|i: int, j: int| 0 <= i < j < es.len() ==> lex_lt(es[i].0, es[j].0)
}

/// A model is well formed when every object in the tree is strictly sorted
/// by key (which also makes its keys unique).
pub open spec fn wf_v(v: DocV) -> bool
    decreases v,
{
    match v {
        DocV::Arr(elems) => forall|i: int| 0 <= i < elems.len() ==> wf_v(#[trigger] elems[i]),
        DocV::Obj(es) => entries_sorted(es) && forall|i: int|
            0 <= i < es.len() ==> wf_v(#[trigger] es[i].1),
        _ => true,
    }
}

/// The value stored under a key, searching entries front to back.
pub open spec fn lookup(es: Seq<(Seq<char>, DocV)>, k: Seq<char>) -> Option<DocV>
    decreases es.len(),
{
    if es.len() == 0 {
        None
    } else if es[0].0 == k {
        Some(es[0].1)
    } else {
        lookup(es.drop_first(), k)
    }
}

/// Entries with `k` bound to `v`, keeping the sorted order.
pub open spec fn insert_entry(es: Seq<(Seq<char>, DocV)>, k: Seq<char>, v: DocV) -> Seq<
    (Seq<char>, DocV),
>
    decreases es.len(),
{
    if es.len() == 0 {
        seq![(k, v)]
    } else if lex_lt(k, es[0].0) {
        seq![(k, v)] + es
    } else if es[0].0 == k {
        seq![(k, v)] + es.drop_first()
    } else {
        seq![es[0]] + insert_entry(es.drop_first(), k, v)
    }
}

/// Entries with any binding of `k` removed.
pub open spec fn remove_entry(es: Seq<(Seq<char>, DocV)>, k: Seq<char>) -> Seq<
    (Seq<char>, DocV),
>
    decreases es.len(),
{
    if es.len() == 0 {
        es
    } else if es[0].0 == k {
        es.drop_first()
    } else {
        seq![es[0]] + remove_entry(es.drop_first(), k)
    }
}

/// `lex_lt` never relates a sequence to itself.
pub proof fn lemma_lex_irrefl(a: Seq<char>)
    ensures
        !lex_lt(a, a),
    decreases a.len(),
{
    if a.len() > 0 {
        lemma_lex_irrefl(a.drop_first());
    }
}

/// Two key sequences are equal, or one is strictly below the other.
pub proof fn lemma_lex_connex(a: Seq<char>, b: Seq<char>)
    ensures
        lex_lt(a, b) || lex_lt(b, a) || a == b,
    decreases a.len(),
{
    if a.len() == 0 || b.len() == 0 {
        if a.len() == b.len() {
            assert(a =~= b);
        }
    } else if a[0] == b[0] {
        lemma_lex_connex(a.drop_first(), b.drop_first());
        if a.drop_first() == b.drop_first() {
            assert(a =~= seq![a[0]] + a.drop_first());
            assert(b =~= seq![b[0]] + b.drop_first());
        }
    } else {
        vstd::utf8::char_u32_cast(a[0], a[0] as u32);
        vstd::utf8::char_u32_cast(b[0], b[0] as u32);
    }
}

/// Strict order excludes equality and the reverse order.
pub proof fn lemma_lex_asym(a: Seq<char>, b: Seq<char>)
    ensures
        lex_lt(a, b) ==> !lex_lt(b, a) && a != b,
    decreases a.len(),
{
    if a.len() > 0 && b.len() > 0 && a[0] == b[0] {
        lemma_lex_asym(a.drop_first(), b.drop_first());
        if a.drop_first() == b.drop_first() {
            assert(a =~= seq![a[0]] + a.drop_first());
            assert(b =~= seq![b[0]] + b.drop_first());
        }
    } else {
        if lex_lt(a, b) && a == b {
            lemma_lex_irrefl(a);
        }
    }
}

/// The strict order is transitive.
pub proof fn lemma_lex_trans(a: Seq<char>, b: Seq<char>, c: Seq<char>)
    ensures
        lex_lt(a, b) && lex_lt(b, c) ==> lex_lt(a, c),
    decreases a.len(),
{
    if a.len() > 0 && b.len() > 0 && c.len() > 0 {
        lemma_lex_trans(a.drop_first(), b.drop_first(), c.drop_first());
    }
}

/// A sorted entry sequence stays sorted when its first entry is dropped.
pub proof fn lemma_sorted_drop_first(es: Seq<(Seq<char>, DocV)>)
    requires
        entries_sorted(es),
        es.len() > 0,
    ensures
        entries_sorted(es.drop_first()),
{
    assert forall|i: int, j: int| 0 <= i < j < es.drop_first().len() implies lex_lt(
        es.drop_first()[i].0,
        es.drop_first()[j].0,
    ) by {
        assert(es.drop_first()[i] == es[i + 1]);
        assert(es.drop_first()[j] == es[j + 1]);
    }
}

/// Looking a key up finds the entry at the first index whose key matches.
pub proof fn lemma_lookup_found(es: Seq<(Seq<char>, DocV)>, k: Seq<char>, i: int)
    requires
        0 <= i < es.len(),
        forall|j: int| 0 <= j < i ==> es[j].0 != k,
        es[i].0 == k,
    ensures
        lookup(es, k) == Some(es[i].1),
    decreases i,
{
    if i > 0 {
        lemma_lookup_found(es.drop_first(), k, i - 1);
    }
}

/// Looking up a key that no entry carries gives nothing.
pub proof fn lemma_lookup_absent(es: Seq<(Seq<char>, DocV)>, k: Seq<char>)
    requires
        forall|j: int| 0 <= j < es.len() ==> es[j].0 != k,
    ensures
        lookup(es, k) is None,
    decreases es.len(),
{
    if es.len() > 0 {
        lemma_lookup_absent(es.drop_first(), k);
    }
}

/// `insert_entry` acts at the first position whose key is not below `k`:
/// it overwrites an equal key in place and inserts before a greater one.
pub proof fn lemma_insert_at(es: Seq<(Seq<char>, DocV)>, k: Seq<char>, v: DocV, i: int)
    requires
        0 <= i <= es.len(),
        forall|j: int| 0 <= j < i ==> lex_lt(es[j].0, k),
        i < es.len() ==> !lex_lt(es[i].0, k),
    ensures
        i < es.len() && es[i].0 == k ==> insert_entry(es, k, v) =~= es.update(i, (k, v)),
        !(i < es.len() && es[i].0 == k) ==> insert_entry(es, k, v) =~= es.subrange(0, i)
            + seq![(k, v)] + es.skip(i),
    decreases i,
{
    if i == 0 {
        if es.len() > 0 && es[0].0 != k {
            lemma_lex_connex(k, es[0].0);
        }
    } else {
        lemma_lex_asym(es[0].0, k);
        lemma_insert_at(es.drop_first(), k, v, i - 1);
        assert(es.drop_first().subrange(0, i - 1) =~= es.subrange(1, i));
        assert(es.drop_first().skip(i - 1) =~= es.skip(i));
        if i < es.len() && es[i].0 == k {
            assert(seq![es[0]] + es.drop_first().update(i - 1, (k, v)) =~= es.update(i, (k, v)));
        } else {
            assert(seq![es[0]] + (es.subrange(1, i) + seq![(k, v)] + es.skip(i)) =~= es.subrange(
                0,
                i,
            ) + seq![(k, v)] + es.skip(i));
        }
    }
}

/// `remove_entry` removes exactly the first entry whose key matches.
pub proof fn lemma_remove_found(es: Seq<(Seq<char>, DocV)>, k: Seq<char>, i: int)
    requires
        0 <= i < es.len(),
        forall|j: int| 0 <= j < i ==> es[j].0 != k,
        es[i].0 == k,
    ensures
        remove_entry(es, k) =~= es.remove(i),
    decreases i,
{
    if i == 0 {
        assert(remove_entry(es, k) == es.drop_first());
        assert(es.remove(0) =~= es.drop_first());
    } else {
        lemma_remove_found(es.drop_first(), k, i - 1);
        assert(seq![es[0]] + es.drop_first().remove(i - 1) =~= es.remove(i));
    }
}

/// Removing a key that no entry carries changes nothing.
pub proof fn lemma_remove_absent(es: Seq<(Seq<char>, DocV)>, k: Seq<char>)
    requires
        forall|j: int| 0 <= j < es.len() ==> es[j].0 != k,
    ensures
        remove_entry(es, k) =~= es,
    decreases es.len(),
{
    if es.len() > 0 {
        lemma_remove_absent(es.drop_first(), k);
        assert(seq![es[0]] + es.drop_first() =~= es);
    }
}

/// Inserting keeps an entry sequence sorted.
pub proof fn lemma_insert_sorted(es: Seq<(Seq<char>, DocV)>, k: Seq<char>, v: DocV)
    requires
        entries_sorted(es),
    ensures
        entries_sorted(insert_entry(es, k, v)),
    decreases es.len(),
{
    if es.len() == 0 {
    } else if lex_lt(k, es[0].0) {
        let r = seq![(k, v)] + es;
        assert forall|i: int, j: int| 0 <= i < j < r.len() implies lex_lt(r[i].0, r[j].0) by {
            if i == 0 {
                if j > 1 {
                    lemma_lex_trans(k, es[0].0, es[j - 1].0);
                }
            }
        }
    } else if es[0].0 == k {
        let r = seq![(k, v)] + es.drop_first();
        assert forall|i: int, j: int| 0 <= i < j < r.len() implies lex_lt(r[i].0, r[j].0) by {
            if i == 0 {
                assert(r[j] == es[j]);
            } else {
                assert(r[i] == es[i] && r[j] == es[j]);
            }
        }
    } else {
        lemma_lex_connex(k, es[0].0);
        lemma_sorted_drop_first(es);
        lemma_insert_sorted(es.drop_first(), k, v);
        let rest = insert_entry(es.drop_first(), k, v);
        let r = seq![es[0]] + rest;
        lemma_insert_keys(es.drop_first(), k, v);
        assert forall|i: int, j: int| 0 <= i < j < r.len() implies lex_lt(r[i].0, r[j].0) by {
            if i == 0 {
                assert(rest[j - 1] == r[j]);
                if rest[j - 1].0 == k {
                } else {
                    let jj = choose|jj: int|
                        0 <= jj < es.drop_first().len() && rest[j - 1] == es.drop_first()[jj];
                    assert(es[0].0 == es[0].0);
                    assert(lex_lt(es[0].0, es[jj + 1].0));
                }
            } else {
                assert(rest[i - 1] == r[i] && rest[j - 1] == r[j]);
            }
        }
    }
}

/// Removing keeps an entry sequence sorted.
pub proof fn lemma_remove_sorted(es: Seq<(Seq<char>, DocV)>, k: Seq<char>)
    requires
        entries_sorted(es),
    ensures
        entries_sorted(remove_entry(es, k)),
    decreases es.len(),
{
    if es.len() > 0 {
        lemma_sorted_drop_first(es);
        if es[0].0 == k {
        } else {
            lemma_remove_sorted(es.drop_first(), k);
            lemma_remove_keys(es.drop_first(), k);
            let rest = remove_entry(es.drop_first(), k);
            let r = seq![es[0]] + rest;
            assert forall|i: int, j: int| 0 <= i < j < r.len() implies lex_lt(r[i].0, r[j].0) by {
                if i == 0 {
                    assert(rest[j - 1] == r[j]);
                    let jj = choose|jj: int|
                        0 <= jj < es.drop_first().len() && rest[j - 1] == es.drop_first()[jj];
                    assert(lex_lt(es[0].0, es[jj + 1].0));
                } else {
                    assert(rest[i - 1] == r[i] && rest[j - 1] == r[j]);
                }
            }
        }
    }
}

/// Every entry left by a removal is one of the old entries.
pub proof fn lemma_remove_keys(es: Seq<(Seq<char>, DocV)>, k: Seq<char>)
    ensures
        forall|i: int|
            0 <= i < remove_entry(es, k).len() ==> exists|j: int|
                0 <= j < es.len() && #[trigger] remove_entry(es, k)[i] == es[j],
    decreases es.len(),
{
    if es.len() > 0 && es[0].0 != k {
        lemma_remove_keys(es.drop_first(), k);
        let rest = remove_entry(es.drop_first(), k);
        assert forall|i: int| 0 <= i < remove_entry(es, k).len() implies exists|j: int|
            0 <= j < es.len() && #[trigger] remove_entry(es, k)[i] == es[j] by {
            if i == 0 {
                assert(remove_entry(es, k)[0] == es[0]);
            } else {
                assert(remove_entry(es, k)[i] == rest[i - 1]);
                let jj = choose|jj: int|
                    0 <= jj < es.drop_first().len() && rest[i - 1] == es.drop_first()[jj];
                assert(remove_entry(es, k)[i] == es[jj + 1]);
            }
        }
    }
}

/// After binding `k` to `v`, looking `k` up gives `v`.
pub proof fn lemma_lookup_insert_same(es: Seq<(Seq<char>, DocV)>, k: Seq<char>, v: DocV)
    ensures
        lookup(insert_entry(es, k, v), k) == Some(v),
    decreases es.len(),
{
    if es.len() == 0 {
    } else if lex_lt(k, es[0].0) {
    } else if es[0].0 == k {
    } else {
        lemma_lookup_insert_same(es.drop_first(), k, v);
        assert((seq![es[0]] + insert_entry(es.drop_first(), k, v)).drop_first() =~= insert_entry(
            es.drop_first(),
            k,
            v,
        ));
    }
}

/// Binding `k` leaves every other key's binding as it was.
pub proof fn lemma_lookup_insert_other(
    es: Seq<(Seq<char>, DocV)>,
    k: Seq<char>,
    v: DocV,
    k2: Seq<char>,
)
    requires
        k2 != k,
    ensures
        lookup(insert_entry(es, k, v), k2) == lookup(es, k2),
    decreases es.len(),
{
    if es.len() == 0 {
        assert(seq![(k, v)].drop_first() =~= Seq::<(Seq<char>, DocV)>::empty());
        assert(lookup(insert_entry(es, k, v), k2) == lookup(es, k2));
    } else if lex_lt(k, es[0].0) {
        assert((seq![(k, v)] + es).drop_first() =~= es);
        assert(lookup(insert_entry(es, k, v), k2) == lookup(es, k2));
    } else if es[0].0 == k {
        assert((seq![(k, v)] + es.drop_first()).drop_first() =~= es.drop_first());
        assert(lookup(insert_entry(es, k, v), k2) == lookup(es, k2));
    } else {
        lemma_lookup_insert_other(es.drop_first(), k, v, k2);
        assert((seq![es[0]] + insert_entry(es.drop_first(), k, v)).drop_first() =~= insert_entry(
            es.drop_first(),
            k,
            v,
        ));
        assert(lookup(insert_entry(es, k, v), k2) == lookup(es, k2));
    }
}

/// After removing `k` from sorted entries, looking `k` up gives nothing.
pub proof fn lemma_lookup_remove_same(es: Seq<(Seq<char>, DocV)>, k: Seq<char>)
    requires
        entries_sorted(es),
    ensures
        lookup(remove_entry(es, k), k) is None,
    decreases es.len(),
{
    if es.len() == 0 {
    } else if es[0].0 == k {
        assert forall|j: int| 0 <= j < es.drop_first().len() implies es.drop_first()[j].0
            != k by {
            assert(es.drop_first()[j] == es[j + 1]);
            assert(lex_lt(es[0].0, es[j + 1].0));
            lemma_lex_asym(es[0].0, es[j + 1].0);
        }
        lemma_lookup_absent(es.drop_first(), k);
    } else {
        lemma_sorted_drop_first(es);
        lemma_lookup_remove_same(es.drop_first(), k);
        assert((seq![es[0]] + remove_entry(es.drop_first(), k)).drop_first() =~= remove_entry(
            es.drop_first(),
            k,
        ));
    }
}

/// Removing `k` leaves every other key's binding as it was.
pub proof fn lemma_lookup_remove_other(es: Seq<(Seq<char>, DocV)>, k: Seq<char>, k2: Seq<char>)
    requires
        k2 != k,
    ensures
        lookup(remove_entry(es, k), k2) == lookup(es, k2),
    decreases es.len(),
{
    if es.len() == 0 {
    } else if es[0].0 == k {
    } else {
        lemma_lookup_remove_other(es.drop_first(), k, k2);
        assert((seq![es[0]] + remove_entry(es.drop_first(), k)).drop_first() =~= remove_entry(
            es.drop_first(),
            k,
        ));
    }
}

/// A binding looked up in a well-formed object is itself well formed.
pub proof fn lemma_lookup_wf(es: Seq<(Seq<char>, DocV)>, k: Seq<char>)
    requires
        wf_v(DocV::Obj(es)),
        lookup(es, k) is Some,
    ensures
        wf_v(lookup(es, k).unwrap()),
    decreases es.len(),
{
    if es.len() > 0 && es[0].0 != k {
        assert(entries_sorted(es.drop_first()) && forall|i: int|
            0 <= i < es.drop_first().len() ==> wf_v(#[trigger] es.drop_first()[i].1)) by {
            lemma_sorted_drop_first(es);
            assert forall|i: int| 0 <= i < es.drop_first().len() implies wf_v(
                #[trigger] es.drop_first()[i].1,
            ) by {
                assert(es.drop_first()[i] == es[i + 1]);
            }
        }
        lemma_lookup_wf(es.drop_first(), k);
    }
}

/// Inserting a well-formed value into a well-formed object keeps the object
/// well formed.
pub proof fn lemma_insert_wf(es: Seq<(Seq<char>, DocV)>, k: Seq<char>, v: DocV)
    requires
        wf_v(DocV::Obj(es)),
        wf_v(v),
    ensures
        wf_v(DocV::Obj(insert_entry(es, k, v))),
{
    lemma_insert_sorted(es, k, v);
    lemma_insert_keys(es, k, v);
    assert forall|i: int| 0 <= i < insert_entry(es, k, v).len() implies wf_v(
        #[trigger] insert_entry(es, k, v)[i].1,
    ) by {
        if insert_entry(es, k, v)[i] == (k, v) {
        } else {
            let j = choose|j: int| 0 <= j < es.len() && insert_entry(es, k, v)[i] == es[j];
            assert(wf_v(es[j].1));
        }
    }
}

/// Removing a key from a well-formed object keeps the object well formed.
pub proof fn lemma_remove_wf(es: Seq<(Seq<char>, DocV)>, k: Seq<char>)
    requires
        wf_v(DocV::Obj(es)),
    ensures
        wf_v(DocV::Obj(remove_entry(es, k))),
{
    lemma_remove_sorted(es, k);
    lemma_remove_keys(es, k);
    assert forall|i: int| 0 <= i < remove_entry(es, k).len() implies wf_v(
        #[trigger] remove_entry(es, k)[i].1,
    ) by {
        let j = choose|j: int| 0 <= j < es.len() && remove_entry(es, k)[i] == es[j];
        assert(wf_v(es[j].1));
    }
}

/// Every entry produced by an insertion carries the new binding or one of
/// the old entries.
pub proof fn lemma_insert_keys(es: Seq<(Seq<char>, DocV)>, k: Seq<char>, v: DocV)
    ensures
        forall|i: int|
            0 <= i < insert_entry(es, k, v).len() ==> (#[trigger] insert_entry(es, k, v)[i] == (
            k,
            v,
            ) || exists|j: int| 0 <= j < es.len() && insert_entry(es, k, v)[i] == es[j]),
    decreases es.len(),
{
    if es.len() == 0 {
    } else if lex_lt(k, es[0].0) {
    } else if es[0].0 == k {
        assert forall|i: int| 0 <= i < insert_entry(es, k, v).len() implies (
        #[trigger] insert_entry(es, k, v)[i] == (k, v) || exists|j: int|
            0 <= j < es.len() && insert_entry(es, k, v)[i] == es[j]) by {
            if i > 0 {
                assert(insert_entry(es, k, v)[i] == es[i]);
            }
        }
    } else {
        lemma_insert_keys(es.drop_first(), k, v);
        let rest = insert_entry(es.drop_first(), k, v);
        assert forall|i: int| 0 <= i < insert_entry(es, k, v).len() implies (
        #[trigger] insert_entry(es, k, v)[i] == (k, v) || exists|j: int|
            0 <= j < es.len() && insert_entry(es, k, v)[i] == es[j]) by {
            if i == 0 {
                assert(insert_entry(es, k, v)[0] == es[0]);
            } else {
                assert(insert_entry(es, k, v)[i] == rest[i - 1]);
                if rest[i - 1] == (k, v) {
                } else {
                    let jj = choose|jj: int|
                        0 <= jj < es.drop_first().len() && rest[i - 1] == es.drop_first()[jj];
                    assert(insert_entry(es, k, v)[i] == es[jj + 1]);
                }
            }
        }
    }
}

/// Character-wise equality of two strings.
pub fn str_eq(a: &str, b: &str) -> (r: bool)
    ensures
        r == (a@ == b@),
{
    let alen = a.unicode_len();
    let blen = b.unicode_len();
    if alen != blen {
        return false;
    }
    let mut i: usize = 0;
    while i < alen
        invariant
            0 <= i <= alen,
            alen == a@.len(),
            blen == b@.len(),
            alen == blen,
            forall|j: int| 0 <= j < i ==> a@[j] == b@[j],
        decreases alen - i,
    {
        if a.get_char(i) != b.get_char(i) {
            return false;
        }
        i += 1;
    }
    proof {
        assert(a@ =~= b@);
    }
    true
}

/// Character-wise strict lexicographic comparison of two strings.
pub fn str_lex_lt(a: &str, b: &str) -> (r: bool)
    ensures
        r == lex_lt(a@, b@),
{
    let alen = a.unicode_len();
    let blen = b.unicode_len();
    let mut i: usize = 0;
    proof {
        assert(a@.skip(0) =~= a@);
        assert(b@.skip(0) =~= b@);
    }
    loop
        invariant
            0 <= i <= alen,
            i <= blen,
            alen == a@.len(),
            blen == b@.len(),
            lex_lt(a@, b@) == lex_lt(a@.skip(i as int), b@.skip(i as int)),
        decreases alen - i,
    {
        proof {
            assert(a@.skip(i as int).len() == alen - i);
            assert(b@.skip(i as int).len() == blen - i);
        }
        if i == blen {
            return false;
        }
        if i == alen {
            return true;
        }
        let ca = a.get_char(i);
        let cb = b.get_char(i);
        proof {
            assert(a@.skip(i as int)[0] == a@[i as int]);
            assert(b@.skip(i as int)[0] == b@[i as int]);
        }
        if (ca as u32) < (cb as u32) {
            return true;
        }
        if ca != cb {
            proof {
                vstd::utf8::char_u32_cast(ca, ca as u32);
                vstd::utf8::char_u32_cast(cb, cb as u32);
            }
            return false;
        }
        proof {
            assert(a@.skip(i as int).drop_first() =~= a@.skip(i + 1));
            assert(b@.skip(i as int).drop_first() =~= b@.skip(i + 1));
        }
        i += 1;
    }
}

impl Document {
    /// An object with no entries.
    pub fn empty_obj() -> (r: Document)
        ensures
            r@ == DocV::Obj(Seq::<(Seq<char>, DocV)>::empty()),
            wf_v(r@),
    {
        Document::Obj(Vec::new())
    }

    /// Whether this document is an object.
    pub fn is_obj(&self) -> (r: bool)
        ensures
            r == (self@ is Obj),
    {
        match self {
            Document::Obj(_) => true,
            _ => false,
        }
    }

    /// The number this document holds, if it is a number.
    pub fn as_num(&self) -> (r: Option<i64>)
        ensures
            r is Some <==> self@ is Num,
            r is Some ==> self@ == DocV::Num(r.unwrap() as int),
    {
        match self {
            Document::Num(n) => Some(*n),
            _ => None,
        }
    }

    /// The boolean this document holds, if it is a boolean.
    pub fn as_bool(&self) -> (r: Option<bool>)
        ensures
            r is Some <==> self@ is Bool,
            r is Some ==> self@ == DocV::Bool(r.unwrap()),
    {
        match self {
            Document::Bool(b) => Some(*b),
            _ => None,
        }
    }

    /// The string this document holds, if it is a string.
    pub fn as_text(&self) -> (r: Option<&String>)
        ensures
            r is Some <==> self@ is Text,
            r is Some ==> self@ == DocV::Text(r.unwrap()@),
    {
        match self {
            Document::Text(s) => Some(s),
            _ => None,
        }
    }

    /// A deep, independent copy with the same model.
    #[verifier::loop_isolation(false)]
    pub fn deep_copy(&self) -> (r: Document)
        ensures
            r@ == self@,
        decreases self,
    {
        match self {
            Document::Null => Document::Null,
            Document::Bool(b) => Document::Bool(*b),
            Document::Num(n) => Document::Num(*n),
            Document::Text(s) => Document::Text(s.clone()),
            Document::Arr(elems) => {
                let mut out: Vec<Document> = Vec::new();
                let mut i: usize = 0;
                while i < elems.len()
                    invariant
                        0 <= i <= elems.len(),
                        out@.len() == i,
                        forall|j: int| 0 <= j < i ==> out@[j]@ == elems@[j]@,
                    decreases elems.len() - i,
                {
                    proof {
                        assert(decreases_to!(*self => self->Arr_0));
                        assert(decreases_to!(self->Arr_0 => self->Arr_0[i as int]));
                        assert(self->Arr_0[i as int] == elems@[i as int]);
                    }
                    out.push(elems[i].deep_copy());
                    i += 1;
                }
                proof {
                    lemma_view_elems_index(out@);
                    lemma_view_elems_index(elems@);
                    assert(view_elems(out@) =~= view_elems(elems@));
                }
                Document::Arr(out)
            },
            Document::Obj(entries) => {
                let mut out: Vec<(String, Document)> = Vec::new();
                let mut i: usize = 0;
                while i < entries.len()
                    invariant
                        0 <= i <= entries.len(),
                        out@.len() == i,
                        forall|j: int|
                            0 <= j < i ==> out@[j].0@ == entries@[j].0@ && out@[j].1@
                                == entries@[j].1@,
                    decreases entries.len() - i,
                {
                    proof {
                        assert(decreases_to!(*self => self->Obj_0));
                        assert(decreases_to!(self->Obj_0 => self->Obj_0[i as int]));
                        assert(decreases_to!(self->Obj_0[i as int] => self->Obj_0[i as int].1));
                        assert(self->Obj_0[i as int] == entries@[i as int]);
                    }
                    let entry = &entries[i];
                    out.push((entry.0.clone(), entry.1.deep_copy()));
                    i += 1;
                }
                proof {
                    lemma_view_entries_index(out@);
                    lemma_view_entries_index(entries@);
                    assert(view_entries(out@) =~= view_entries(entries@));
                }
                Document::Obj(out)
            },
        }
    }

    /// Structural equality of models.
    #[verifier::loop_isolation(false)]
    pub fn deep_eq(&self, other: &Document) -> (r: bool)
        ensures
            r == (self@ == other@),
        decreases self,
    {
        match (self, other) {
            (Document::Null, Document::Null) => true,
            (Document::Bool(a), Document::Bool(b)) => a == b,
            (Document::Num(a), Document::Num(b)) => a == b,
            (Document::Text(a), Document::Text(b)) => str_eq(a.as_str(), b.as_str()),
            (Document::Arr(xs), Document::Arr(ys)) => {
                proof {
                    lemma_view_elems_index(xs@);
                    lemma_view_elems_index(ys@);
                }
                if xs.len() != ys.len() {
                    return false;
                }
                let mut i: usize = 0;
                while i < xs.len()
                    invariant
                        0 <= i <= xs@.len(),
                        xs@.len() == ys@.len(),
                        view_elems(xs@).len() == xs@.len(),
                        view_elems(ys@).len() == ys@.len(),
                        forall|j: int| 0 <= j < xs@.len() ==> view_elems(xs@)[j] == xs@[j]@,
                        forall|j: int| 0 <= j < ys@.len() ==> view_elems(ys@)[j] == ys@[j]@,
                        forall|j: int| 0 <= j < i ==> xs@[j]@ == ys@[j]@,
                    decreases xs@.len() - i,
                {
                    proof {
                        assert(decreases_to!(*self => self->Arr_0));
                        assert(decreases_to!(self->Arr_0 => self->Arr_0[i as int]));
                        assert(self->Arr_0[i as int] == xs@[i as int]);
                    }
                    if !xs[i].deep_eq(&ys[i]) {
                        proof {
                            assert(self@ == DocV::Arr(view_elems(xs@)));
                            assert(other@ == DocV::Arr(view_elems(ys@)));
                            assert(view_elems(xs@)[i as int] != view_elems(ys@)[i as int]);
                        }
                        return false;
                    }
                    i += 1;
                }
                proof {
                    assert(view_elems(xs@) =~= view_elems(ys@));
                }
                true
            },
            (Document::Obj(xs), Document::Obj(ys)) => {
                proof {
                    lemma_view_entries_index(xs@);
                    lemma_view_entries_index(ys@);
                }
                if xs.len() != ys.len() {
                    return false;
                }
                let mut i: usize = 0;
                while i < xs.len()
                    invariant
                        0 <= i <= xs@.len(),
                        xs@.len() == ys@.len(),
                        view_entries(xs@).len() == xs@.len(),
                        view_entries(ys@).len() == ys@.len(),
                        forall|j: int|
                            0 <= j < xs@.len() ==> view_entries(xs@)[j] == (xs@[j].0@, xs@[j].1@),
                        forall|j: int|
                            0 <= j < ys@.len() ==> view_entries(ys@)[j] == (ys@[j].0@, ys@[j].1@),
                        forall|j: int| 0 <= j < i ==> xs@[j].0@ == ys@[j].0@ && xs@[j].1@
                            == ys@[j].1@,
                    decreases xs@.len() - i,
                {
                    proof {
                        assert(decreases_to!(*self => self->Obj_0));
                        assert(decreases_to!(self->Obj_0 => self->Obj_0[i as int]));
                        assert(decreases_to!(self->Obj_0[i as int] => self->Obj_0[i as int].1));
                        assert(self->Obj_0[i as int] == xs@[i as int]);
                    }
                    let xe = &xs[i];
                    let ye = &ys[i];
                    if !str_eq(xe.0.as_str(), ye.0.as_str()) {
                        proof {
                            assert(self@ == DocV::Obj(view_entries(xs@)));
                            assert(other@ == DocV::Obj(view_entries(ys@)));
                            assert(view_entries(xs@)[i as int] != view_entries(ys@)[i as int]);
                        }
                        return false;
                    }
                    if !xe.1.deep_eq(&ye.1) {
                        proof {
                            assert(self@ == DocV::Obj(view_entries(xs@)));
                            assert(other@ == DocV::Obj(view_entries(ys@)));
                            assert(view_entries(xs@)[i as int] != view_entries(ys@)[i as int]);
                        }
                        return false;
                    }
                    i += 1;
                }
                proof {
                    assert(view_entries(xs@) =~= view_entries(ys@));
                }
                true
            },
            _ => false,
        }
    }

    /// The value bound to `key` in this object, if any.
    ///
    /// On a document that is not an object there is no binding to find, so
    /// the result is nothing, as it is for an absent key.
    #[verifier::loop_isolation(false)]
    pub fn get_key(&self, key: &str) -> (r: Option<&Document>)
        ensures
            self@ is Obj ==> match r {
                Some(d) => lookup(self@.entries(), key@) == Some(d@),
                None => lookup(self@.entries(), key@) is None,
            },
            !(self@ is Obj) ==> r is None,
    {
        match self {
            Document::Obj(entries) => {
                proof {
                    lemma_view_entries_index(entries@);
                }
                let ghost es = view_entries(entries@);
                let mut i: usize = 0;
                while i < entries.len()
                    invariant
                        0 <= i <= entries@.len(),
                        forall|j: int| 0 <= j < i ==> es[j].0 != key@,
                    decreases entries@.len() - i,
                {
                    let entry = &entries[i];
                    if str_eq(entry.0.as_str(), key) {
                        proof {
                            lemma_lookup_found(es, key@, i as int);
                        }
                        return Some(&entry.1);
                    }
                    i += 1;
                }
                proof {
                    lemma_lookup_absent(es, key@);
                }
                None
            },
            _ => None,
        }
    }

    /// This object with `key` bound to `value`, inserted in key order.
    #[verifier::loop_isolation(false)]
    pub fn insert_key(self, key: &str, value: Document) -> (r: Document)
        requires
            self@ is Obj,
        ensures
            r@ == DocV::Obj(insert_entry(self@.entries(), key@, value@)),
    {
        match self {
            Document::Obj(mut entries) => {
                proof {
                    lemma_view_entries_index(entries@);
                }
                let ghost es = view_entries(entries@);
                let mut i: usize = 0;
                while i < entries.len()
                    invariant
                        0 <= i <= entries@.len(),
                        forall|j: int| 0 <= j < i ==> lex_lt(es[j].0, key@),
                    decreases entries@.len() - i,
                {
                    if !str_lex_lt(entries[i].0.as_str(), key) {
                        break;
                    }
                    i += 1;
                }
                proof {
                    lemma_insert_at(es, key@, value@, i as int);
                }
                if i < entries.len() && str_eq(entries[i].0.as_str(), key) {
                    entries.set(i, (key.to_owned(), value));
                    proof {
                        lemma_view_entries_index(entries@);
                        assert(view_entries(entries@) =~= insert_entry(es, key@, value@));
                    }
                } else {
                    entries.insert(i, (key.to_owned(), value));
                    proof {
                        lemma_view_entries_index(entries@);
                        assert(view_entries(entries@) =~= insert_entry(es, key@, value@));
                    }
                }
                Document::Obj(entries)
            },
            _ => {
                proof {
                    assert(false);
                }
                self
            },
        }
    }

    /// This object with any binding of `key` removed.
    #[verifier::loop_isolation(false)]
    pub fn remove_key(self, key: &str) -> (r: Document)
        requires
            self@ is Obj,
        ensures
            r@ == DocV::Obj(remove_entry(self@.entries(), key@)),
    {
        match self {
            Document::Obj(mut entries) => {
                proof {
                    lemma_view_entries_index(entries@);
                }
                let ghost es = view_entries(entries@);
                let mut i: usize = 0;
                while i < entries.len()
                    invariant
                        0 <= i <= entries@.len(),
                        es == view_entries(entries@),
                        es.len() == entries@.len(),
                        forall|j: int|
                            0 <= j < entries@.len() ==> es[j] == (entries@[j].0@, entries@[j].1@),
                        forall|j: int| 0 <= j < i ==> es[j].0 != key@,
                    decreases entries@.len() - i,
                {
                    if str_eq(entries[i].0.as_str(), key) {
                        proof {
                            lemma_remove_found(es, key@, i as int);
                        }
                        entries.remove(i);
                        proof {
                            lemma_view_entries_index(entries@);
                            assert(view_entries(entries@) =~= remove_entry(es, key@));
                        }
                        return Document::Obj(entries);
                    }
                    i += 1;
                }
                proof {
                    lemma_remove_absent(es, key@);
                    assert(view_entries(entries@) =~= remove_entry(es, key@));
                }
                Document::Obj(entries)
            },
            _ => {
                proof {
                    assert(false);
                }
                self
            },
        }
    }
}

} // verus!
