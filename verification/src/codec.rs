//! Format selection and text codecs.
//!
//! A document is persisted as text whose format is chosen purely by the
//! file extension of the path in use: `.json` is pretty-printed JSON,
//! `.yaml` / `.yml` is YAML.  The extension of a path is the part of its
//! last `/`-separated component after the component's last `.`, provided
//! that dot is not the component's first character.
//!
//! The actual rendering and parsing is done by the `serde_json` and
//! `serde_yaml` crates behind trusted wrappers; what they return is named
//! by uninterpreted spec functions, and everything around the calls is
//! verified against those names.

use vstd::prelude::*;

use crate::document::{wf_v, DocV, Document};

verus! {

broadcast use vstd::std_specs::vec::group_vec_axioms, vstd::seq::group_seq_axioms;

/// A persisted-text format.
#[derive(Clone, Copy, Debug)]
pub enum Format {
    Json,
    Yaml,
}

/// The suffix of `s` after its last occurrence of `c`, if any.
pub open spec fn after_last(s: Seq<char>, c: char) -> Option<Seq<char>>
    decreases s.len(),
{
    if s.len() == 0 {
        None
    } else {
        match after_last(s.drop_first(), c) {
            Some(r) => Some(r),
            None => if s[0] == c {
                Some(s.drop_first())
            } else {
                None
            },
        }
    }
}

/// The last `/`-separated component of a path.
pub open spec fn file_name(p: Seq<char>) -> Seq<char> {
    match after_last(p, '/') {
        Some(n) => n,
        None => p,
    }
}

/// The extension of a path: what follows the last dot of its file name,
/// unless that dot is the file name's first character.
pub open spec fn ext_of(p: Seq<char>) -> Option<Seq<char>> {
    match after_last(file_name(p), '.') {
        Some(e) => if e.len() + 1 < file_name(p).len() {
            Some(e)
        } else {
            None
        },
        None => None,
    }
}

/// The format a recognized extension selects.
pub open spec fn format_of_ext(e: Seq<char>) -> Option<Format> {
    if e == "json"@ {
        Some(Format::Json)
    } else if e == "yaml"@ || e == "yml"@ {
        Some(Format::Yaml)
    } else {
        None
    }
}

/// The format a path selects, if its extension is recognized.
pub open spec fn path_format(p: Seq<char>) -> Option<Format> {
    match ext_of(p) {
        Some(e) => format_of_ext(e),
        None => None,
    }
}

/// `after_last` finds the suffix that follows the last occurrence.
proof fn lemma_after_last_found(s: Seq<char>, c: char, i: int)
    requires
        0 <= i < s.len(),
        s[i] == c,
        forall|j: int| i < j < s.len() ==> s[j] != c,
    ensures
        after_last(s, c) == Some(s.skip(i + 1)),
    decreases s.len(),
{
    if i == 0 {
        assert forall|j: int| 0 <= j < s.drop_first().len() implies s.drop_first()[j] != c by {
            assert(s.drop_first()[j] == s[j + 1]);
        }
        lemma_after_last_absent(s.drop_first(), c);
        assert(s.drop_first() =~= s.skip(1));
    } else {
        assert(s.drop_first()[i - 1] == s[i]);
        assert forall|j: int| i - 1 < j < s.drop_first().len() implies s.drop_first()[j] != c by {
            assert(s.drop_first()[j] == s[j + 1]);
        }
        lemma_after_last_found(s.drop_first(), c, i - 1);
        assert(s.drop_first().skip(i) =~= s.skip(i + 1));
    }
}

/// `after_last` finds nothing when the character does not occur.
proof fn lemma_after_last_absent(s: Seq<char>, c: char)
    requires
        forall|j: int| 0 <= j < s.len() ==> s[j] != c,
    ensures
        after_last(s, c) is None,
    decreases s.len(),
{
    if s.len() > 0 {
        assert forall|j: int| 0 <= j < s.drop_first().len() implies s.drop_first()[j] != c by {
            assert(s.drop_first()[j] == s[j + 1]);
        }
        lemma_after_last_absent(s.drop_first(), c);
    }
}

/// The extension of a path, extracted as the spec above describes it.
#[verifier::loop_isolation(false)]
pub fn extension_of(path: &str) -> (r: Option<String>)
    ensures
        match r {
            Some(e) => ext_of(path@) == Some(e@),
            None => ext_of(path@) is None,
        },
{
    let n = path.unicode_len();
    let mut i: usize = 0;
    let mut last_slash: usize = 0;
    let mut has_slash = false;
    let mut last_dot: usize = 0;
    let mut has_dot = false;
    while i < n
        invariant
            0 <= i <= n,
            has_slash ==> last_slash < i && path@[last_slash as int] == '/',
            has_slash ==> forall|j: int| last_slash < j < i ==> path@[j] != '/',
            !has_slash ==> forall|j: int| 0 <= j < i ==> path@[j] != '/',
            has_dot ==> last_dot < i && path@[last_dot as int] == '.',
            has_dot ==> forall|j: int| last_dot < j < i ==> path@[j] != '.',
            !has_dot ==> forall|j: int| 0 <= j < i ==> path@[j] != '.',
        decreases n - i,
    {
        let c = path.get_char(i);
        if c == '/' {
            last_slash = i;
            has_slash = true;
        } else if c == '.' {
            last_dot = i;
            has_dot = true;
        }
        i += 1;
    }
    let name_start: usize = if has_slash {
        last_slash + 1
    } else {
        0
    };
    proof {
        if has_slash {
            lemma_after_last_found(path@, '/', last_slash as int);
        } else {
            lemma_after_last_absent(path@, '/');
        }
        assert(file_name(path@) =~= path@.skip(name_start as int));
    }
    let ghost name = file_name(path@);
    if has_dot && last_dot > name_start {
        proof {
            let di = last_dot - name_start;
            assert(name[di as int] == path@[last_dot as int]);
            assert forall|j: int| di < j < name.len() implies name[j] != '.' by {
                assert(name[j] == path@[j + name_start]);
            }
            lemma_after_last_found(name, '.', di as int);
            assert(name.skip(di + 1) =~= path@.skip(last_dot + 1));
        }
        let ext = path.substring_char(last_dot + 1, n).to_owned();
        proof {
            assert(ext@ =~= path@.skip(last_dot + 1));
        }
        Some(ext)
    } else {
        proof {
            if !has_dot {
                assert forall|j: int| 0 <= j < name.len() implies name[j] != '.' by {
                    assert(name[j] == path@[j + name_start]);
                }
                lemma_after_last_absent(name, '.');
            } else if last_dot < name_start {
                assert forall|j: int| 0 <= j < name.len() implies name[j] != '.' by {
                    assert(name[j] == path@[j + name_start]);
                }
                lemma_after_last_absent(name, '.');
            } else {
                assert(last_dot == name_start);
                assert(name[0] == path@[last_dot as int]);
                assert forall|j: int| 0 < j < name.len() implies name[j] != '.' by {
                    assert(name[j] == path@[j + name_start]);
                }
                lemma_after_last_found(name, '.', 0);
            }
        }
        None
    }
}

/// The format selected by a path, or the unrecognized extension's text
/// (`"no extension"` where the path has none), as the construction and
/// save paths report it.
pub fn format_of_path(path: &str) -> (r: Result<Format, String>)
    ensures
        match r {
            Ok(f) => path_format(path@) == Some(f),
            Err(e) => path_format(path@) is None && match ext_of(path@) {
                Some(x) => e@ == x,
                None => e@ == "no extension"@,
            },
        },
{
    match extension_of(path) {
        Some(ext) => {
            if crate::document::str_eq(ext.as_str(), "json") {
                Ok(Format::Json)
            } else if crate::document::str_eq(ext.as_str(), "yaml") || crate::document::str_eq(
                ext.as_str(),
                "yml",
            ) {
                Ok(Format::Yaml)
            } else {
                Err(ext)
            }
        },
        None => Err("no extension".to_owned()),
    }
}

/// What `serde_json` parses the given text into, if the text is valid JSON
/// whose numbers all fit a 64-bit signed integer.
pub uninterp spec fn json_doc_of(text: Seq<char>) -> Option<DocV>;

/// The pretty-printed JSON rendering `serde_json` gives the document.
pub uninterp spec fn json_text_of(doc: DocV) -> Seq<char>;

/// What `serde_yaml` parses the given text into, under the same number
/// restriction.
pub uninterp spec fn yaml_doc_of(text: Seq<char>) -> Option<DocV>;

/// The YAML rendering `serde_yaml` gives the document, if its emitter
/// accepts the document.
pub uninterp spec fn yaml_text_of(doc: DocV) -> Option<Seq<char>>;

/// `serde_json::Value`, declared opaque so the converters below can take
/// and return it.
#[verifier::external_type_specification]
#[verifier::external_body]
pub struct ExValue(serde_json::Value);

/// Converts a parsed `serde_json` value into a document, entry for entry.
///
/// Relies on `serde_json::Map` (backed by a `BTreeMap` keyed by `String`)
/// iterating its entries in ascending key order and keeping its keys
/// unique.  `String` orders by UTF-8 bytes, which for valid UTF-8 is the
/// order of the unicode scalar values, the document type's canonical
/// order.  A number that does not fit a 64-bit signed integer has no
/// representation here, so the conversion reports it by returning
/// nothing.
#[verifier::external_body]
fn value_to_doc(v: &serde_json::Value) -> (r: Option<Document>) {
    match v {
        serde_json::Value::Null => Some(Document::Null),
        serde_json::Value::Bool(b) => Some(Document::Bool(*b)),
        serde_json::Value::Number(n) => n.as_i64().map(Document::Num),
        serde_json::Value::String(s) => Some(Document::Text(s.clone())),
        serde_json::Value::Array(xs) => xs.iter().map(value_to_doc).collect::<Option<Vec<_>>>()
            .map(Document::Arr),
        serde_json::Value::Object(m) => m.iter().map(
            |(k, w)| value_to_doc(w).map(|d| (k.clone(), d)),
        ).collect::<Option<Vec<_>>>().map(Document::Obj),
    }
}

/// Converts a document into a `serde_json` value, entry for entry.
///
/// Relies on `serde_json::Map::insert`; the document's entries are already
/// sorted by key, the map's own order.
#[verifier::external_body]
fn doc_to_value(d: &Document) -> (r: serde_json::Value) {
    match d {
        Document::Null => serde_json::Value::Null,
        Document::Bool(b) => serde_json::Value::Bool(*b),
        Document::Num(n) => serde_json::Value::Number(serde_json::Number::from(*n)),
        Document::Text(s) => serde_json::Value::String(s.clone()),
        Document::Arr(xs) => serde_json::Value::Array(xs.iter().map(doc_to_value).collect()),
        Document::Obj(es) => serde_json::Value::Object(
            es.iter().map(|(k, d)| (k.clone(), doc_to_value(d))).collect(),
        ),
    }
}

/// Relies on `serde_json::from_str::<serde_json::Value>`: it parses JSON
/// text into a tree of null / bool / number / string / array / object
/// values, deterministically in the text, and fails exactly on malformed
/// input or on a number outside the 64-bit signed range (which the
/// document model cannot hold).  The error text is the parser's own
/// message and is not pinned.
#[verifier::external_body]
fn json_decode(text: &str) -> (r: Result<Document, String>)
    ensures
        r is Ok <==> json_doc_of(text@) is Some,
        r is Ok ==> r.unwrap()@ == json_doc_of(text@).unwrap() && wf_v(r.unwrap()@),
{
    match serde_json::from_str::<serde_json::Value>(text) {
        Ok(v) => value_to_doc(&v).ok_or_else(
            || "number out of the representable range".to_string(),
        ),
        Err(e) => Err(format!("{}", e)),
    }
}

/// Relies on `serde_yaml::from_str::<serde_json::Value>`: it parses YAML
/// text into the same tree shape, deterministically in the text, and fails
/// exactly on input it cannot parse into that shape, or whose numbers
/// fall outside the 64-bit signed range the document model can hold.  The
/// error text is the parser's own message and is not pinned.
#[verifier::external_body]
fn yaml_decode(text: &str) -> (r: Result<Document, String>)
    ensures
        r is Ok <==> yaml_doc_of(text@) is Some,
        r is Ok ==> r.unwrap()@ == yaml_doc_of(text@).unwrap() && wf_v(r.unwrap()@),
{
    match serde_yaml::from_str::<serde_json::Value>(text) {
        Ok(v) => value_to_doc(&v).ok_or_else(
            || "number out of the representable range".to_string(),
        ),
        Err(e) => Err(format!("{}", e)),
    }
}

/// Relies on `serde_json::to_string_pretty`: it renders a JSON value as
/// pretty-printed text, deterministically in the value.  On a value made
/// only of null, bool, 64-bit integers, strings, arrays and string-keyed
/// objects it does not fail: its documented failure cases are a failing
/// `Serialize` implementation (`serde_json::Value`'s never fails) and a
/// map with non-string keys (these maps are keyed by `String`).
#[verifier::external_body]
fn json_encode(doc: &Document) -> (r: String)
    ensures
        r@ == json_text_of(doc@),
{
    serde_json::to_string_pretty(&doc_to_value(doc)).unwrap()
}

/// Relies on `serde_yaml::to_string`: it renders a value as YAML text,
/// deterministically in the value, and reports an error when its emitter
/// refuses the value.  The error text is the emitter's own message and is
/// not pinned.
#[verifier::external_body]
fn yaml_encode(doc: &Document) -> (r: Result<String, String>)
    ensures
        r is Ok <==> yaml_text_of(doc@) is Some,
        r is Ok ==> r.unwrap()@ == yaml_text_of(doc@).unwrap(),
{
    match serde_yaml::to_string(&doc_to_value(doc)) {
        Ok(s) => Ok(s),
        Err(e) => Err(format!("{}", e)),
    }
}

/// What decoding text in the given format yields.
pub open spec fn decoded_doc(fmt: Format, text: Seq<char>) -> Option<DocV> {
    match fmt {
        Format::Json => json_doc_of(text),
        Format::Yaml => yaml_doc_of(text),
    }
}

/// What encoding a document in the given format yields.
pub open spec fn encoded_text(fmt: Format, doc: DocV) -> Option<Seq<char>> {
    match fmt {
        Format::Json => Some(json_text_of(doc)),
        Format::Yaml => yaml_text_of(doc),
    }
}

/// Parse persisted text in the given format into a document.
pub fn decode_text(fmt: Format, text: &str) -> (r: Result<Document, String>)
    ensures
        r is Ok <==> decoded_doc(fmt, text@) is Some,
        r is Ok ==> r.unwrap()@ == decoded_doc(fmt, text@).unwrap() && wf_v(r.unwrap()@),
{
    match fmt {
        Format::Json => json_decode(text),
        Format::Yaml => yaml_decode(text),
    }
}

/// Render a document as persisted text in the given format.
pub fn encode_document(fmt: Format, doc: &Document) -> (r: Result<String, String>)
    ensures
        r is Ok <==> encoded_text(fmt, doc@) is Some,
        r is Ok ==> r.unwrap()@ == encoded_text(fmt, doc@).unwrap(),
{
    match fmt {
        Format::Json => Ok(json_encode(doc)),
        Format::Yaml => yaml_encode(doc),
    }
}

} // verus!
