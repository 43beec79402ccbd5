//! The configuration store.
//!
//! A `FileStore` owns the authoritative in-memory document, the snapshot of
//! the last persisted document, the paths it belongs to, and an ordered
//! registry of change observers.  Mutating operations commit to memory and
//! notify observers; persistence is a separate, explicit step that renders
//! the document to text for the caller to write to the primary path.
//! Construction takes the current contents of the primary and default
//! files as values, read by the caller.

use vstd::prelude::*;

use crate::codec::{
    decode_text, decoded_doc, encode_document, encoded_text, ext_of, format_of_path, path_format,
    Format,
};
use crate::document::{insert_entry, lookup, remove_entry, wf_v, DocV, Document};
use crate::registry::{
    cb_lookup, lemma_cb_absent, lemma_cb_found, lemma_cb_push_other, lemma_cb_update_other,
    lemma_view_cbs_index, view_cbs,
};

verus! {

broadcast use vstd::std_specs::vec::group_vec_axioms, vstd::seq::group_seq_axioms;

/// The well-known change event name.
pub const EVENT_NAME: &'static str = "change";

/// What a store operation can fail with.
#[derive(Debug)]
pub enum FileStoreError {
    /// A filesystem failure, reported by the embedding program.
    Io(String),
    /// Malformed JSON on decode, or a JSON encoder failure.
    Json(String),
    /// Malformed YAML on decode, or a YAML encoder failure.
    Yaml(String),
    /// An explicit attempt to load a path that does not exist.
    ConfigNotFound(String),
    /// The path's extension selects no recognized format.
    UnsupportedExtension(String),
}

/// A change observer: notified with the new and the old document.
pub trait ConfigChangeCallback {
    /// Holds once this observer has been told of a change from
    /// `old_config` to `new_config`.  The default claims nothing; a
    /// verified implementor overrides it with what its notification
    /// really establishes, and the store's contracts then carry that
    /// guarantee, observer by observer, for every delivered pair.
    open spec fn notified(&self, new_config: DocV, old_config: DocV) -> bool {
        true
    }

    fn on_config_change(&self, new_config: &Document, old_config: &Document)
        ensures
            self.notified(new_config@, old_config@),
    ;
}

/// A configuration store over one primary file.
#[derive(Debug)]
pub struct FileStore<C> {
    path: String,
    default_path: Option<String>,
    config: Document,
    last_config: Document,
    callbacks: Vec<(String, Vec<C>)>,
}

impl<C: ConfigChangeCallback> FileStore<C> {
    /// The model of the current document.
    pub closed spec fn doc(self) -> DocV {
        self.config@
    }

    /// The model of the document as of the last successful save.
    pub closed spec fn last_doc(self) -> DocV {
        self.last_config@
    }

    /// The primary path.
    pub closed spec fn path_view(self) -> Seq<char> {
        self.path@
    }

    /// The default path, if one was given.
    pub closed spec fn default_path_view(self) -> Option<Seq<char>> {
        match self.default_path {
            Some(p) => Some(p@),
            None => None,
        }
    }

    /// The observers registered under an event name, in registration order.
    pub closed spec fn observers(self, event: Seq<char>) -> Seq<C> {
        cb_lookup(view_cbs(self.callbacks@), event)
    }

    /// Both documents are well formed.
    pub open spec fn wf(self) -> bool {
        wf_v(self.doc()) && wf_v(self.last_doc())
    }

    /// The paths and the registry are as in `other`.
    pub closed spec fn same_shell(self, other: Self) -> bool {
        &&& self.path@ == other.path@
        &&& self.default_path_view() == other.default_path_view()
        &&& view_cbs(self.callbacks@) == view_cbs(other.callbacks@)
    }
}

/// The model of an empty object.
pub open spec fn empty_obj_v() -> DocV {
    DocV::Obj(Seq::empty())
}

/// The model of an optional string.
pub open spec fn opt_str_view(s: Option<String>) -> Option<Seq<char>> {
    match s {
        Some(x) => Some(x@),
        None => None,
    }
}

/// The document a load of the default path yields: its parsed contents,
/// or an empty object where there is no default path, no default file, or
/// its contents cannot be decoded (that failure is swallowed).
pub open spec fn loaded_default(
    default_path: Option<Seq<char>>,
    content: Option<Seq<char>>,
) -> DocV {
    match (default_path, content) {
        (Some(dp), Some(text)) => match path_format(dp) {
            Some(fmt) => match decoded_doc(fmt, text) {
                Some(d) => d,
                None => empty_obj_v(),
            },
            None => empty_obj_v(),
        },
        _ => empty_obj_v(),
    }
}

impl<C: ConfigChangeCallback> FileStore<C> {
    /// Parse the contents of a file into a document, the format selected
    /// by the path's extension; `content` is the file's text, or nothing
    /// where the file does not exist.
    pub fn load_config_from_file(path: &str, content: Option<String>) -> (r: Result<
        Document,
        FileStoreError,
    >)
        ensures
            match r {
                Ok(d) => content is Some && path_format(path@) is Some && Some(d@) == decoded_doc(
                    path_format(path@).unwrap(),
                    content.unwrap()@,
                ) && wf_v(d@),
                Err(e) => match e {
                    FileStoreError::ConfigNotFound(p) => content is None && p@ == path@,
                    FileStoreError::UnsupportedExtension(x) => content is Some && path_format(
                        path@,
                    ) is None && (match ext_of(path@) {
                        Some(y) => x@ == y,
                        None => x@ == "no extension"@,
                    }),
                    FileStoreError::Json(_) => content is Some && path_format(path@) == Some(
                        Format::Json,
                    ) && decoded_doc(Format::Json, content.unwrap()@) is None,
                    FileStoreError::Yaml(_) => content is Some && path_format(path@) == Some(
                        Format::Yaml,
                    ) && decoded_doc(Format::Yaml, content.unwrap()@) is None,
                    _ => false,
                },
            },
    {
        let text = match content {
            Some(t) => t,
            None => {
                return Err(FileStoreError::ConfigNotFound(path.to_owned()));
            },
        };
        let fmt = match format_of_path(path) {
            Ok(f) => f,
            Err(x) => {
                return Err(FileStoreError::UnsupportedExtension(x));
            },
        };
        match decode_text(fmt, text.as_str()) {
            Ok(d) => Ok(d),
            Err(msg) => Err(
                match fmt {
                    Format::Json => FileStoreError::Json(msg),
                    Format::Yaml => FileStoreError::Yaml(msg),
                },
            ),
        }
    }

    /// Build a store over `path`.  `primary_content` is what the primary
    /// file holds (nothing where it does not exist), `default_content`
    /// what the default file holds; the caller reads both.
    ///
    /// An existing primary file must parse: its failures are hard errors.
    /// A default file that fails to parse is swallowed into an empty
    /// object.
    pub fn new(
        path: String,
        default_path: Option<String>,
        primary_content: Option<String>,
        default_content: Option<String>,
    ) -> (r: Result<Self, FileStoreError>)
        ensures
            match r {
                Ok(s) => {
                    &&& s.path_view() == path@
                    &&& s.default_path_view() == opt_str_view(default_path)
                    &&& s.wf()
                    &&& match primary_content {
                        Some(text) => path_format(path@) is Some && Some(s.doc()) == decoded_doc(
                            path_format(path@).unwrap(),
                            text@,
                        ),
                        None => s.doc() == loaded_default(
                            opt_str_view(default_path),
                            opt_str_view(default_content),
                        ),
                    }
                    &&& s.last_doc() == s.doc()
                    &&& forall|e: Seq<char>| s.observers(e) == Seq::<C>::empty()
                },
                Err(e) => primary_content is Some && match e {
                    FileStoreError::UnsupportedExtension(x) => path_format(path@) is None && (
                    match ext_of(path@) {
                        Some(y) => x@ == y,
                        None => x@ == "no extension"@,
                    }),
                    FileStoreError::Json(_) => path_format(path@) == Some(Format::Json)
                        && decoded_doc(Format::Json, primary_content.unwrap()@) is None,
                    FileStoreError::Yaml(_) => path_format(path@) == Some(Format::Yaml)
                        && decoded_doc(Format::Yaml, primary_content.unwrap()@) is None,
                    _ => false,
                },
            },
    {
        let config = match primary_content {
            Some(text) => match Self::load_config_from_file(path.as_str(), Some(text)) {
                Ok(d) => d,
                Err(e) => {
                    return Err(e);
                },
            },
            None => match &default_path {
                Some(dp) => match Self::load_config_from_file(dp.as_str(), default_content) {
                    Ok(d) => d,
                    Err(_) => Document::empty_obj(),
                },
                None => Document::empty_obj(),
            },
        };
        let last = config.deep_copy();
        let s = FileStore {
            path,
            default_path,
            config,
            last_config: last,
            callbacks: Vec::<(String, Vec<C>)>::new(),
        };
        proof {
            assert forall|e: Seq<char>| s.observers(e) == Seq::<C>::empty() by {
                assert(view_cbs(s.callbacks@) =~= Seq::<(Seq<char>, Seq<C>)>::empty());
            }
        }
        Ok(s)
    }

    /// A deep, independent copy of the current document.
    pub fn get_config(&self) -> (r: Document)
        ensures
            r@ == self.doc(),
    {
        self.config.deep_copy()
    }

    /// The value stored under `key` in the top-level object, if any.  An
    /// absent key and a top level that is not an object both give nothing.
    pub fn get(&self, key: &str) -> (r: Option<Document>)
        ensures
            self.doc() is Obj ==> match r {
                Some(d) => lookup(self.doc().entries(), key@) == Some(d@),
                None => lookup(self.doc().entries(), key@) is None,
            },
            !(self.doc() is Obj) ==> r is None,
            self.wf() && r is Some ==> wf_v(r.unwrap()@),
    {
        let r = match self.config.get_key(key) {
            Some(d) => Some(d.deep_copy()),
            None => None,
        };
        proof {
            if self.wf() && self.doc() is Obj && lookup(self.doc().entries(), key@) is Some {
                crate::document::lemma_lookup_wf(self.doc().entries(), key@);
            }
        }
        r
    }

    /// Deliver `(new, old)` to every observer of the change event, in
    /// registration order.
    #[verifier::loop_isolation(false)]
    fn trigger_callbacks(&self, new_config: &Document, old_config: &Document)
        ensures
            forall|i: int|
                0 <= i < self.observers("change"@).len() ==> (#[trigger] self.observers(
                    "change"@,
                )[i]).notified(new_config@, old_config@),
    {
        proof {
            lemma_view_cbs_index(self.callbacks@);
        }
        let ghost es = view_cbs(self.callbacks@);
        let mut i: usize = 0;
        while i < self.callbacks.len()
            invariant
                0 <= i <= self.callbacks@.len(),
                forall|j: int| 0 <= j < i ==> es[j].0 != "change"@,
            decreases self.callbacks@.len() - i,
        {
            let entry = &self.callbacks[i];
            if crate::document::str_eq(entry.0.as_str(), EVENT_NAME) {
                proof {
                    lemma_cb_found(es, "change"@, i as int);
                }
                let mut j: usize = 0;
                while j < entry.1.len()
                    invariant
                        0 <= j <= entry.1@.len(),
                        forall|m: int|
                            0 <= m < j ==> (#[trigger] entry.1@[m]).notified(
                                new_config@,
                                old_config@,
                            ),
                    decreases entry.1@.len() - j,
                {
                    entry.1[j].on_config_change(new_config, old_config);
                    j += 1;
                }
                return ;
            }
            i += 1;
        }
        proof {
            lemma_cb_absent(es, "change"@);
        }
    }

    /// The commit step shared by every in-memory mutation: compare the
    /// candidate against the current document; when they differ, make the
    /// candidate current and notify the change observers with the new and
    /// the old document.  Nothing touches the file system here.
    fn commit(&mut self, new_config: Document) -> (r: bool)
        requires
            old(self).wf(),
            wf_v(new_config@),
        ensures
            final(self).wf(),
            final(self).same_shell(*old(self)),
            final(self).last_doc() == old(self).last_doc(),
            r == (new_config@ != old(self).doc()),
            r ==> final(self).doc() == new_config@,
            !r ==> final(self).doc() == old(self).doc(),
            r ==> forall|i: int|
                0 <= i < old(self).observers("change"@).len() ==> (#[trigger] old(self).observers(
                    "change"@,
                )[i]).notified(new_config@, old(self).doc()),
    {
        let changed = !self.config.deep_eq(&new_config);
        if changed {
            self.trigger_callbacks(&new_config, &self.config);
            self.config = new_config;
        }
        changed
    }

    /// Apply an arbitrary transformation to a copy of the current
    /// document and commit the result.  Where the transformation changes
    /// nothing structurally, this returns `Ok(false)` and has no effect,
    /// and no observer is notified; where it does, the result becomes the
    /// current document, the change observers run, and `Ok(true)` is
    /// returned.  The file on disk is never touched here.
    pub fn update_config<F: FnOnce(Document) -> Document>(&mut self, updater: F) -> (r: Result<
        bool,
        FileStoreError,
    >)
        requires
            old(self).wf(),
            forall|d: Document|
                d@ == old(self).doc() && wf_v(d@) ==> #[trigger] updater.requires((d,)),
            forall|d: Document, nd: Document|
                #[trigger] updater.ensures((d,), nd) && d@ == old(self).doc() ==> wf_v(nd@),
        ensures
            final(self).wf(),
            final(self).same_shell(*old(self)),
            final(self).last_doc() == old(self).last_doc(),
            r is Ok,
            exists|d: Document, nd: Document|
                {
                    &&& d@ == old(self).doc()
                    &&& #[trigger] updater.ensures((d,), nd)
                    &&& if nd@ == old(self).doc() {
                        r == Ok::<bool, FileStoreError>(false) && final(self).doc() == old(
                            self,
                        ).doc()
                    } else {
                        r == Ok::<bool, FileStoreError>(true) && final(self).doc() == nd@
                            && forall|i: int|
                            0 <= i < old(self).observers("change"@).len() ==> (#[trigger] old(
                                self,
                            ).observers("change"@)[i]).notified(nd@, old(self).doc())
                    }
                },
    {
        let d = self.config.deep_copy();
        let nd = updater(d);
        let changed = self.commit(nd);
        Ok(changed)
    }

    /// Bind `key` to `value` in the top-level object and commit, exactly
    /// as `update_config` would: binding a key to the value it already
    /// has changes nothing and returns `Ok(false)`.
    pub fn set(&mut self, key: &str, value: Document) -> (r: Result<bool, FileStoreError>)
        requires
            old(self).wf(),
            old(self).doc() is Obj,
            wf_v(value@),
        ensures
            final(self).wf(),
            final(self).same_shell(*old(self)),
            final(self).last_doc() == old(self).last_doc(),
            final(self).doc() == DocV::Obj(
                insert_entry(old(self).doc().entries(), key@, value@),
            ),
            r == Ok::<bool, FileStoreError>(final(self).doc() != old(self).doc()),
            final(self).doc() != old(self).doc() ==> forall|i: int|
                0 <= i < old(self).observers("change"@).len() ==> (#[trigger] old(self).observers(
                    "change"@,
                )[i]).notified(final(self).doc(), old(self).doc()),
    {
        let nd = self.config.deep_copy().insert_key(key, value);
        proof {
            crate::document::lemma_insert_wf(old(self).doc().entries(), key@, value@);
        }
        let changed = self.commit(nd);
        Ok(changed)
    }

    /// Remove any binding of `key` from the top-level object and commit,
    /// exactly as `update_config` would: removing an absent key changes
    /// nothing and returns `Ok(false)`.
    pub fn remove(&mut self, key: &str) -> (r: Result<bool, FileStoreError>)
        requires
            old(self).wf(),
            old(self).doc() is Obj,
        ensures
            final(self).wf(),
            final(self).same_shell(*old(self)),
            final(self).last_doc() == old(self).last_doc(),
            final(self).doc() == DocV::Obj(remove_entry(old(self).doc().entries(), key@)),
            r == Ok::<bool, FileStoreError>(final(self).doc() != old(self).doc()),
            final(self).doc() != old(self).doc() ==> forall|i: int|
                0 <= i < old(self).observers("change"@).len() ==> (#[trigger] old(self).observers(
                    "change"@,
                )[i]).notified(final(self).doc(), old(self).doc()),
    {
        let nd = self.config.deep_copy().remove_key(key);
        proof {
            crate::document::lemma_remove_wf(old(self).doc().entries(), key@);
        }
        let changed = self.commit(nd);
        Ok(changed)
    }

    /// Render the current document as text for the primary path, to be
    /// written there by the caller.  This prepares a save and changes
    /// nothing; once the embedding program has written the text, it calls
    /// `confirm_saved` to notify the observers and advance the snapshot.
    /// On failure the unrecognized extension is reported, and an encoder
    /// failure as the format's codec error.
    pub fn save_config(&self) -> (r: Result<String, FileStoreError>)
        ensures
            match r {
                Ok(text) => {
                    &&& path_format(self.path_view()) is Some
                    &&& Some(text@) == encoded_text(
                        path_format(self.path_view()).unwrap(),
                        self.doc(),
                    )
                },
                Err(e) => match e {
                    FileStoreError::UnsupportedExtension(x) => path_format(
                        self.path_view(),
                    ) is None && (match ext_of(self.path_view()) {
                        Some(y) => x@ == y,
                        None => x@ == "no extension"@,
                    }),
                    FileStoreError::Yaml(_) => path_format(self.path_view()) == Some(Format::Yaml)
                        && encoded_text(Format::Yaml, self.doc()) is None,
                    _ => false,
                },
            },
    {
        let fmt = match format_of_path(self.path.as_str()) {
            Ok(f) => f,
            Err(x) => {
                return Err(FileStoreError::UnsupportedExtension(x));
            },
        };
        match encode_document(fmt, &self.config) {
            Ok(t) => Ok(t),
            Err(msg) => Err(
                match fmt {
                    Format::Json => FileStoreError::Json(msg),
                    Format::Yaml => FileStoreError::Yaml(msg),
                },
            ),
        }
    }

    /// Record that the text `save_config` rendered now stands at the
    /// primary path: notify the change observers with the current and the
    /// last persisted document, and make the current document the last
    /// persisted snapshot.
    pub fn confirm_saved(&mut self)
        requires
            old(self).wf(),
        ensures
            final(self).wf(),
            final(self).same_shell(*old(self)),
            final(self).doc() == old(self).doc(),
            final(self).last_doc() == old(self).doc(),
            forall|i: int|
                0 <= i < old(self).observers("change"@).len() ==> (#[trigger] old(self).observers(
                    "change"@,
                )[i]).notified(old(self).doc(), old(self).last_doc()),
    {
        self.trigger_callbacks(&self.config, &self.last_config);
        let snapshot = self.config.deep_copy();
        self.last_config = snapshot;
    }

    /// Replace the current document wholesale and render it for the
    /// primary path, whether or not it equals the old one; the change
    /// observers are notified with the new and the previous document.
    /// On failure nothing changes and the document is not replaced.
    pub fn set_config(&mut self, new_config: Document) -> (r: Result<String, FileStoreError>)
        requires
            old(self).wf(),
            wf_v(new_config@),
        ensures
            final(self).wf(),
            final(self).same_shell(*old(self)),
            final(self).last_doc() == old(self).last_doc(),
            match r {
                Ok(text) => {
                    &&& path_format(old(self).path_view()) is Some
                    &&& Some(text@) == encoded_text(
                        path_format(old(self).path_view()).unwrap(),
                        new_config@,
                    )
                    &&& final(self).doc() == new_config@
                    &&& forall|i: int|
                        0 <= i < old(self).observers("change"@).len() ==> (#[trigger] old(
                            self,
                        ).observers("change"@)[i]).notified(new_config@, old(self).doc())
                },
                Err(e) => final(self).doc() == old(self).doc() && match e {
                    FileStoreError::UnsupportedExtension(x) => path_format(
                        old(self).path_view(),
                    ) is None && (match ext_of(old(self).path_view()) {
                        Some(y) => x@ == y,
                        None => x@ == "no extension"@,
                    }),
                    FileStoreError::Yaml(_) => path_format(old(self).path_view()) == Some(
                        Format::Yaml,
                    ) && encoded_text(Format::Yaml, new_config@) is None,
                    _ => false,
                },
            },
    {
        let fmt = match format_of_path(self.path.as_str()) {
            Ok(f) => f,
            Err(x) => {
                return Err(FileStoreError::UnsupportedExtension(x));
            },
        };
        let text = match encode_document(fmt, &new_config) {
            Ok(t) => t,
            Err(msg) => {
                return Err(
                    match fmt {
                        Format::Json => FileStoreError::Json(msg),
                        Format::Yaml => FileStoreError::Yaml(msg),
                    },
                );
            },
        };
        self.trigger_callbacks(&new_config, &self.config);
        self.config = new_config;
        Ok(text)
    }

    /// Load the default document (from the default path's contents,
    /// swallowing its failures into an empty object) and commit and
    /// render it exactly as `set_config` does.  `default_content` is what
    /// the default file holds now, read by the caller.
    pub fn reset_config(&mut self, default_content: Option<String>) -> (r: Result<
        String,
        FileStoreError,
    >)
        requires
            old(self).wf(),
        ensures
            final(self).wf(),
            final(self).same_shell(*old(self)),
            final(self).last_doc() == old(self).last_doc(),
            match r {
                Ok(text) => {
                    &&& path_format(old(self).path_view()) is Some
                    &&& final(self).doc() == loaded_default(
                        old(self).default_path_view(),
                        opt_str_view(default_content),
                    )
                    &&& Some(text@) == encoded_text(
                        path_format(old(self).path_view()).unwrap(),
                        final(self).doc(),
                    )
                    &&& forall|i: int|
                        0 <= i < old(self).observers("change"@).len() ==> (#[trigger] old(
                            self,
                        ).observers("change"@)[i]).notified(final(self).doc(), old(self).doc())
                },
                Err(e) => final(self).doc() == old(self).doc() && match e {
                    FileStoreError::UnsupportedExtension(x) => path_format(
                        old(self).path_view(),
                    ) is None && (match ext_of(old(self).path_view()) {
                        Some(y) => x@ == y,
                        None => x@ == "no extension"@,
                    }),
                    FileStoreError::Yaml(_) => path_format(old(self).path_view()) == Some(
                        Format::Yaml,
                    ) && encoded_text(
                        Format::Yaml,
                        loaded_default(
                            old(self).default_path_view(),
                            opt_str_view(default_content),
                        ),
                    ) is None,
                    _ => false,
                },
            },
    {
        let default_config = match &self.default_path {
            Some(dp) => match Self::load_config_from_file(dp.as_str(), default_content) {
                Ok(d) => d,
                Err(_) => Document::empty_obj(),
            },
            None => Document::empty_obj(),
        };
        self.set_config(default_config)
    }

    /// Append an observer to the named event's ordered list.
    pub fn register_callback(&mut self, event: String, callback: C)
        ensures
            final(self).doc() == old(self).doc(),
            final(self).last_doc() == old(self).last_doc(),
            final(self).path_view() == old(self).path_view(),
            final(self).default_path_view() == old(self).default_path_view(),
            final(self).wf() == old(self).wf(),
            final(self).observers(event@) == old(self).observers(event@).push(callback),
            forall|e: Seq<char>|
                e != event@ ==> final(self).observers(e) == old(self).observers(e),
    {
        proof {
            lemma_view_cbs_index(self.callbacks@);
        }
        let ghost es = view_cbs(self.callbacks@);
        let mut i: usize = 0;
        while i < self.callbacks.len()
            invariant
                0 <= i <= self.callbacks@.len(),
                *self == *old(self),
                es == view_cbs(self.callbacks@),
                es.len() == self.callbacks@.len(),
                forall|j: int|
                    0 <= j < self.callbacks@.len() ==> es[j] == (
                        self.callbacks@[j].0@,
                        self.callbacks@[j].1@,
                    ),
                forall|j: int| 0 <= j < i ==> es[j].0 != event@,
            decreases self.callbacks@.len() - i,
        {
            if crate::document::str_eq(self.callbacks[i].0.as_str(), event.as_str()) {
                let entry = self.callbacks.remove(i);
                let mut list = entry.1;
                list.push(callback);
                self.callbacks.insert(i, (entry.0, list));
                proof {
                    lemma_view_cbs_index(self.callbacks@);
                    assert(view_cbs(self.callbacks@) =~= es.update(
                        i as int,
                        (es[i as int].0, list@),
                    ));
                    lemma_cb_found(es, event@, i as int);
                    lemma_cb_found(
                        es.update(i as int, (es[i as int].0, list@)),
                        event@,
                        i as int,
                    );
                    assert forall|e: Seq<char>| e != event@ implies final(self).observers(e)
                        == old(self).observers(e) by {
                        lemma_cb_update_other(es, i as int, list@, e);
                    }
                }
                return ;
            }
            i += 1;
        }
        let mut list = Vec::<C>::new();
        list.push(callback);
        self.callbacks.push((event, list));
        proof {
            lemma_view_cbs_index(self.callbacks@);
            assert(view_cbs(self.callbacks@) =~= es.push(
                (self.callbacks@.last().0@, self.callbacks@.last().1@),
            ));
            lemma_cb_found(view_cbs(self.callbacks@), self.callbacks@.last().0@, es.len() as int);
            lemma_cb_absent(es, self.callbacks@.last().0@);
            assert(old(self).observers(self.callbacks@.last().0@) == Seq::<C>::empty());
            assert forall|e: Seq<char>| e != self.callbacks@.last().0@ implies final(
                self
            ).observers(e) == old(self).observers(e) by {
                lemma_cb_push_other(es, (self.callbacks@.last().0@, self.callbacks@.last().1@), e);
            }
        }
    }

    /// Law: for any key and any value, a `set` of that pair followed by a
    /// `get` of the key finds exactly that value.  `post` is any store in
    /// the state `set`'s contract leaves `pre` in; the lookup that `get`'s
    /// contract answers from then yields the value that was set.
    pub proof fn lemma_set_then_get(
        pre: FileStore<C>,
        post: FileStore<C>,
        key: Seq<char>,
        value: DocV,
    )
        requires
            pre.doc() is Obj,
            post.doc() == DocV::Obj(insert_entry(pre.doc().entries(), key, value)),
        ensures
            post.doc() is Obj,
            lookup(post.doc().entries(), key) == Some(value),
            forall|k2: Seq<char>|
                k2 != key ==> lookup(post.doc().entries(), k2) == lookup(
                    pre.doc().entries(),
                    k2,
                ),
    {
        crate::document::lemma_lookup_insert_same(pre.doc().entries(), key, value);
        assert forall|k2: Seq<char>| k2 != key implies lookup(post.doc().entries(), k2) == lookup(
            pre.doc().entries(),
            k2,
        ) by {
            crate::document::lemma_lookup_insert_other(pre.doc().entries(), key, value, k2);
        }
    }

    /// Law: a `remove` of a key after a `set` of that key makes a `get` of
    /// it find nothing.  `mid` is any store in the state `set`'s contract
    /// leaves `pre` in, and `post` any store in the state `remove`'s
    /// contract leaves `mid` in.
    pub proof fn lemma_remove_after_set(
        pre: FileStore<C>,
        mid: FileStore<C>,
        post: FileStore<C>,
        key: Seq<char>,
        value: DocV,
    )
        requires
            pre.wf(),
            pre.doc() is Obj,
            mid.doc() == DocV::Obj(insert_entry(pre.doc().entries(), key, value)),
            post.doc() == DocV::Obj(remove_entry(mid.doc().entries(), key)),
        ensures
            post.doc() is Obj,
            lookup(post.doc().entries(), key) is None,
            forall|k2: Seq<char>|
                k2 != key ==> lookup(post.doc().entries(), k2) == lookup(
                    mid.doc().entries(),
                    k2,
                ),
    {
        crate::document::lemma_insert_sorted(pre.doc().entries(), key, value);
        crate::document::lemma_lookup_remove_same(mid.doc().entries(), key);
        assert forall|k2: Seq<char>| k2 != key implies lookup(post.doc().entries(), k2) == lookup(
            mid.doc().entries(),
            k2,
        ) by {
            crate::document::lemma_lookup_remove_other(mid.doc().entries(), key, k2);
        }
    }

    /// Append an observer to the well-known change event's list.
    pub fn on_change(&mut self, callback: C)
        ensures
            final(self).doc() == old(self).doc(),
            final(self).last_doc() == old(self).last_doc(),
            final(self).path_view() == old(self).path_view(),
            final(self).default_path_view() == old(self).default_path_view(),
            final(self).wf() == old(self).wf(),
            final(self).observers("change"@) == old(self).observers("change"@).push(callback),
            forall|e: Seq<char>|
                e != "change"@ ==> final(self).observers(e) == old(self).observers(e),
    {
        self.register_callback(EVENT_NAME.to_owned(), callback);
    }
}

} // verus!
