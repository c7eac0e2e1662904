//! A collection: an ordered sequence of documents and the lines of the
//! file that durably represents it, one JSON line per document.
//!
//! The central invariant: parsing the file's lines one by one, dropping
//! those that do not parse, yields exactly the in-memory sequence. Every
//! operation here preserves it; the surrounding application mirrors the
//! line sequence to disk.

use vstd::prelude::*;
use crate::codec::{doc_to_line, line_of, parse_doc_line, parse_line};
use crate::json::{get_of, kv_set, wf_jval, wf_member, JVal, Json, MAX_DEPTH};
use crate::query::{doc_matches_field, doc_matches_op, field_matches, op_matches};
use crate::text::str_eq;

verus! {

/// Why a store operation was refused.
#[derive(Clone, Copy, PartialEq, Eq, Structural, Debug)]
pub enum StoreError {
    /// The document handed to `insert` is not a JSON object.
    InvalidInput,
    /// A disk operation failed; raised by the surrounding application,
    /// never by the verified engine itself.
    IoFailure,
}

/// The documents that a sequence of file lines denotes: each line that
/// parses contributes its document, in file order.
pub open spec fn load_docs(lines: Seq<Seq<char>>) -> Seq<JVal>
    decreases lines.len(),
{
    if lines.len() == 0 {
        Seq::empty()
    } else {
        let rest = load_docs(lines.drop_last());
        match parse_line(lines.last()) {
            Some(d) => rest.push(d),
            None => rest,
        }
    }
}

/// One rendered line per document, in order.
pub open spec fn lines_of(docs: Seq<JVal>) -> Seq<Seq<char>> {
    docs.map_values(|d: JVal| line_of(d))
}

/// The bytes of the durable file, as characters: each line followed by
/// a newline.
pub open spec fn content_of(lines: Seq<Seq<char>>) -> Seq<char>
    decreases lines.len(),
{
    if lines.len() == 0 {
        Seq::empty()
    } else {
        content_of(lines.drop_last()) + lines.last() + seq!['\n']
    }
}

/// Every document in the sequence is well formed.
pub open spec fn all_wf(docs: Seq<JVal>) -> bool {
    forall|i: int| 0 <= i < docs.len() ==> wf_jval(#[trigger] docs[i])
}

/// A document carrying `id` in its `_id` field, as a string.
pub open spec fn doc_id_is(d: JVal, id: Seq<char>) -> bool {
    get_of(d, "_id"@) == Some(JVal::Str(id))
}

/// The first document whose `_id` is `id`, if any.
pub open spec fn first_id_match(docs: Seq<JVal>, id: Seq<char>) -> Option<int>
    decreases docs.len(),
{
    if docs.len() == 0 {
        None
    } else if doc_id_is(docs[0], id) {
        Some(0)
    } else {
        match first_id_match(docs.drop_first(), id) {
            Some(i) => Some(i + 1),
            None => None,
        }
    }
}

/// A document with its `_id` member set to `id`.
pub open spec fn tagged(d: JVal, id: Seq<char>) -> JVal {
    JVal::Obj(kv_set(d->Obj_0, "_id"@, JVal::Str(id)))
}

/// A document with `field` set to `value`.
pub open spec fn with_member(d: JVal, field: Seq<char>, value: JVal) -> JVal {
    JVal::Obj(kv_set(d->Obj_0, field, value))
}

/// What an update stores: the field set to the value — except that a
/// document's identity is never overwritten, so an update aimed at
/// `_id` leaves the document as it was.
pub open spec fn updated_doc(d: JVal, field: Seq<char>, value: JVal) -> JVal {
    if field == "_id"@ {
        d
    } else {
        with_member(d, field, value)
    }
}

/// Relies on uuid::Uuid::new_v4 and its default rendering: a fresh
/// random 128-bit identifier as a 36-character hyphenated string.
#[verifier::external_body]
fn new_doc_id() -> (r: String)
    ensures
        r@.len() == 36,
{
    uuid::Uuid::new_v4().to_string()
}

pub struct Collection {
    name: String,
    docs: Vec<Json>,
    lines: Vec<String>,
}

impl View for Collection {
    type V = Seq<JVal>;

    /// The in-memory sequence of documents.
    closed spec fn view(&self) -> Seq<JVal> {
        self.docs.deep_view()
    }
}

impl Collection {
    /// The lines of the durable file, in file order.
    pub closed spec fn lines_view(&self) -> Seq<Seq<char>> {
        self.lines.deep_view()
    }

    /// The collection's name.
    pub closed spec fn name_view(&self) -> Seq<char> {
        self.name@
    }

    /// Every held document is well formed.
    pub closed spec fn wf(&self) -> bool {
        all_wf(self@)
    }

    /// The collection's invariant: its documents are well formed and
    /// are exactly what its file lines parse to.
    pub closed spec fn inv(&self) -> bool {
        self.wf() && self@ == load_docs(self.lines_view())
    }

    /// Opens a collection over the contents of its durable file, given
    /// as that file's lines. A line that does not parse as a document —
    /// blank, truncated, corrupt — is dropped, and the rest are kept in
    /// file order.
    pub fn new(name: String, file_lines: Vec<String>) -> (c: Collection)
        ensures
            c.inv(),
            c@ == load_docs(file_lines.deep_view()),
            c.lines_view() == file_lines.deep_view(),
            c.name_view() == name@,
    {
        let ghost lv = file_lines.deep_view();
        let mut docs: Vec<Json> = Vec::new();
        let mut i: usize = 0;
        while i < file_lines.len()
            invariant
                lv == file_lines.deep_view(),
                i <= file_lines@.len(),
                lv.len() == file_lines@.len(),
                docs.deep_view() == load_docs(lv.take(i as int)),
                all_wf(docs.deep_view()),
            decreases file_lines@.len() - i,
        {
            let ghost pre = docs.deep_view();
            assert(lv[i as int] == file_lines@[i as int]@);
            match parse_doc_line(file_lines[i].as_str()) {
                Some(d) => {
                    docs.push(d);
                    assert(docs.deep_view() =~= pre.push(d@));
                },
                None => {},
            }
            proof {
                assert(lv.take(i + 1).drop_last() =~= lv.take(i as int));
                assert(lv.take(i + 1).last() == lv[i as int]);
                assert(docs.deep_view() =~= load_docs(lv.take(i + 1)));
            }
            i += 1;
        }
        assert(lv.take(lv.len() as int) =~= lv);
        Collection { name, docs, lines: file_lines }
    }

    /// Rewrites the line sequence from the current documents.
    fn rewrite_lines(&mut self)
        requires
            old(self).wf(),
        ensures
            final(self).inv(),
            final(self)@ == old(self)@,
            final(self).name_view() == old(self).name_view(),
            final(self).lines_view() == lines_of(final(self)@),
    {
        let ghost dv = self.docs.deep_view();
        let mut new_lines: Vec<String> = Vec::new();
        let n = self.docs.len();
        let mut i: usize = 0;
        while i < n
            invariant
                dv == self.docs.deep_view(),
                n == self.docs@.len(),
                dv.len() == n,
                all_wf(dv),
                i <= n,
                new_lines.deep_view() == lines_of(dv.take(i as int)),
                load_docs(new_lines.deep_view()) == dv.take(i as int),
            decreases n - i,
        {
            let ghost pre = new_lines.deep_view();
            assert(dv[i as int] == self.docs@[i as int]@);
            let line = doc_to_line(&self.docs[i]);
            new_lines.push(line);
            proof {
                assert(new_lines.deep_view() =~= pre.push(line@));
                assert(dv.take(i + 1).drop_last() =~= dv.take(i as int));
                assert(dv.take(i + 1).last() == dv[i as int]);
                assert(new_lines.deep_view() =~= lines_of(dv.take(i + 1)));
                assert(pre.push(line@).drop_last() =~= pre);
                assert(load_docs(new_lines.deep_view()) =~= dv.take(i + 1));
            }
            i += 1;
        }
        assert(dv.take(n as int) =~= dv);
        self.lines = new_lines;
    }

    /// Rewrites the entire durable representation from the current
    /// documents: afterwards the file holds one line per document, in
    /// sequence order. The surrounding application mirrors this as one
    /// truncate-and-rewrite of the file on disk.
    pub fn persist(&mut self)
        requires
            old(self).inv(),
        ensures
            final(self).inv(),
            final(self)@ == old(self)@,
            final(self).name_view() == old(self).name_view(),
            final(self).lines_view() == lines_of(final(self)@),
    {
        self.rewrite_lines();
    }

    /// Inserts a document: a fresh identifier is generated and stored
    /// in the document's `_id` field (overwriting any caller-supplied
    /// value), the tagged document's line is appended to the file, and
    /// the tagged document is appended to the in-memory sequence. A
    /// value that is not a JSON object is refused.
    pub fn insert(&mut self, document: Json) -> (r: Result<String, StoreError>)
        requires
            old(self).inv(),
            wf_jval(document@),
        ensures
            final(self).inv(),
            final(self).name_view() == old(self).name_view(),
            r is Ok <==> document@ is Obj,
            match r {
                Ok(id) => {
                    &&& id@.len() == 36
                    &&& final(self)@ == old(self)@.push(tagged(document@, id@))
                    &&& final(self).lines_view() == old(self).lines_view().push(
                        line_of(tagged(document@, id@)),
                    )
                },
                Err(e) => {
                    &&& e == StoreError::InvalidInput
                    &&& final(self)@ == old(self)@
                    &&& final(self).lines_view() == old(self).lines_view()
                },
            },
    {
        if !document.is_object() {
            return Err(StoreError::InvalidInput);
        }
        let id = new_doc_id();
        let ghost d0 = document@;
        let tagged_doc = document.with_field("_id", Json::Str(id.clone()));
        proof {
            let below = (MAX_DEPTH - 1) as nat;
            crate::json::lemma_wf_kvs(d0->Obj_0, below);
            crate::json::lemma_kv_set_wf(d0->Obj_0, "_id"@, JVal::Str(id@), below);
            crate::json::lemma_wf_kvs(kv_set(d0->Obj_0, "_id"@, JVal::Str(id@)), below);
            assert(wf_jval(tagged_doc@));
        }
        let ghost old_docs = self.docs.deep_view();
        let ghost old_lines = self.lines.deep_view();
        let line = doc_to_line(&tagged_doc);
        self.lines.push(line);
        self.docs.push(tagged_doc);
        proof {
            assert(self.docs.deep_view() =~= old_docs.push(tagged(d0, id@)));
            assert(self.lines.deep_view() =~= old_lines.push(line@));
            assert(self.lines.deep_view().drop_last() =~= old_lines);
            assert(load_docs(self.lines.deep_view()) =~= old_docs.push(tagged(d0, id@)));
        }
        Ok(id)
    }

    /// A copy of every document, in sequence order.
    pub fn find_all(&self) -> (r: Vec<Json>)
        ensures
            r.deep_view() == self@,
    {
        let mut out: Vec<Json> = Vec::new();
        let mut i: usize = 0;
        let n = self.docs.len();
        while i < n
            invariant
                n == self.docs@.len(),
                i <= n,
                out.deep_view() == self.docs.deep_view().take(i as int),
            decreases n - i,
        {
            let ghost pre = out.deep_view();
            out.push(self.docs[i].deep_copy());
            proof {
                assert(out.deep_view() =~= pre.push(self.docs.deep_view()[i as int]));
                assert(out.deep_view() =~= self.docs.deep_view().take(i + 1));
            }
            i += 1;
        }
        assert(self.docs.deep_view().take(n as int) =~= self.docs.deep_view());
        out
    }

    /// A copy of every document matching the query, in sequence order.
    pub fn find(&self, field: &str, value: &str) -> (r: Vec<Json>)
        ensures
            r.deep_view() == select_eq(self@, field@, value@),
    {
        let ghost dv = self.docs.deep_view();
        let mut out: Vec<Json> = Vec::new();
        let mut i: usize = 0;
        let n = self.docs.len();
        while i < n
            invariant
                dv == self.docs.deep_view(),
                n == dv.len(),
                i <= n,
                out.deep_view() == select_eq(dv.take(i as int), field@, value@),
            decreases n - i,
        {
            let ghost pre = out.deep_view();
            assert(dv[i as int] == self.docs@[i as int]@);
            if doc_matches_field(&self.docs[i], field, value) {
                out.push(self.docs[i].deep_copy());
                assert(out.deep_view() =~= pre.push(dv[i as int]));
            }
            proof {
                assert(dv.take(i + 1).drop_last() =~= dv.take(i as int));
                assert(dv.take(i + 1).last() == dv[i as int]);
                assert(out.deep_view() =~= select_eq(dv.take(i + 1), field@, value@));
            }
            i += 1;
        }
        assert(dv.take(n as int) =~= dv);
        out
    }

    /// A copy of every document matching the query under the given
    /// operator, in sequence order.
    pub fn find_with_operator(&self, field: &str, value: &str, operator: &str) -> (r: Vec<Json>)
        ensures
            r.deep_view() == select_op(self@, field@, value@, operator@),
    {
        let ghost dv = self.docs.deep_view();
        let mut out: Vec<Json> = Vec::new();
        let mut i: usize = 0;
        let n = self.docs.len();
        while i < n
            invariant
                dv == self.docs.deep_view(),
                n == dv.len(),
                i <= n,
                out.deep_view() == select_op(dv.take(i as int), field@, value@, operator@),
            decreases n - i,
        {
            let ghost pre = out.deep_view();
            assert(dv[i as int] == self.docs@[i as int]@);
            if doc_matches_op(&self.docs[i], field, value, operator) {
                out.push(self.docs[i].deep_copy());
                assert(out.deep_view() =~= pre.push(dv[i as int]));
            }
            proof {
                assert(dv.take(i + 1).drop_last() =~= dv.take(i as int));
                assert(dv.take(i + 1).last() == dv[i as int]);
                assert(out.deep_view() =~= select_op(dv.take(i + 1), field@, value@, operator@));
            }
            i += 1;
        }
        assert(dv.take(n as int) =~= dv);
        out
    }

    /// Sets `field` to `value` on the first document whose `_id` is
    /// `id`, then rewrites the durable file. A document's identity is
    /// never overwritten: aimed at `_id`, the update leaves the
    /// document as it was. Returns whether a document was found; with
    /// no match, nothing changes.
    pub fn update_field(&mut self, id: &str, field: &str, value: Json) -> (r: bool)
        requires
            old(self).inv(),
            field@ == "_id"@ || wf_member(value@),
        ensures
            final(self).inv(),
            final(self).name_view() == old(self).name_view(),
            match first_id_match(old(self)@, id@) {
                Some(i) => {
                    &&& r == true
                    &&& final(self)@ == old(self)@.update(
                        i,
                        updated_doc(old(self)@[i], field@, value@),
                    )
                    &&& final(self).lines_view() == lines_of(final(self)@)
                },
                None => {
                    &&& r == false
                    &&& final(self)@ == old(self)@
                    &&& final(self).lines_view() == old(self).lines_view()
                },
            },
    {
        let ghost dv = self.docs.deep_view();
        let n = self.docs.len();
        let mut i: usize = 0;
        while i < n
            invariant
                self == old(self),
                old(self).inv(),
                dv == self.docs.deep_view(),
                all_wf(dv),
                n == dv.len(),
                i <= n,
                field@ == "_id"@ || wf_member(value@),
                forall|j: int| 0 <= j < i ==> !doc_id_is(dv[j], id@),
            decreases n - i,
        {
            assert(dv[i as int] == self.docs@[i as int]@);
            if doc_matches_field(&self.docs[i], "_id", id) {
                proof {
                    assert(doc_id_is(dv[i as int], id@));
                    lemma_first_id_match_at(dv, id@, i as int);
                }
                if !str_eq(field, "_id") {
                    let updated = self.docs[i].deep_copy().with_field(field, value);
                    proof {
                        let below = (MAX_DEPTH - 1) as nat;
                        let d = dv[i as int];
                        assert(wf_jval(d));
                        assert(d is Obj);
                        crate::json::lemma_wf_kvs(d->Obj_0, below);
                        crate::json::lemma_kv_set_wf(d->Obj_0, field@, value@, below);
                        crate::json::lemma_wf_kvs(kv_set(d->Obj_0, field@, value@), below);
                        assert(wf_jval(updated@));
                    }
                    self.docs[i] = updated;
                    proof {
                        assert(self.docs.deep_view() =~= dv.update(
                            i as int,
                            updated_doc(dv[i as int], field@, value@),
                        ));
                        assert(all_wf(self.docs.deep_view()));
                    }
                } else {
                    proof {
                        assert(self.docs.deep_view() =~= dv.update(
                            i as int,
                            updated_doc(dv[i as int], field@, value@),
                        ));
                    }
                }
                self.rewrite_lines();
                return true;
            }
            i += 1;
        }
        proof {
            lemma_first_id_match_none(dv, id@);
        }
        false
    }

    /// Removes the first document whose `_id` is `id`, then rewrites
    /// the durable file. Returns whether a document was found; with no
    /// match, nothing changes.
    pub fn delete_by_id(&mut self, id: &str) -> (r: bool)
        requires
            old(self).inv(),
        ensures
            final(self).inv(),
            final(self).name_view() == old(self).name_view(),
            match first_id_match(old(self)@, id@) {
                Some(i) => {
                    &&& r == true
                    &&& final(self)@ == old(self)@.remove(i)
                    &&& final(self).lines_view() == lines_of(final(self)@)
                },
                None => {
                    &&& r == false
                    &&& final(self)@ == old(self)@
                    &&& final(self).lines_view() == old(self).lines_view()
                },
            },
    {
        let ghost dv = self.docs.deep_view();
        let n = self.docs.len();
        let mut i: usize = 0;
        while i < n
            invariant
                self == old(self),
                old(self).inv(),
                dv == self.docs.deep_view(),
                all_wf(dv),
                n == dv.len(),
                i <= n,
                forall|j: int| 0 <= j < i ==> !doc_id_is(dv[j], id@),
            decreases n - i,
        {
            assert(dv[i as int] == self.docs@[i as int]@);
            if doc_matches_field(&self.docs[i], "_id", id) {
                proof {
                    assert(doc_id_is(dv[i as int], id@));
                    lemma_first_id_match_at(dv, id@, i as int);
                }
                self.docs.remove(i);
                proof {
                    assert(self.docs.deep_view() =~= dv.remove(i as int));
                    dv.remove_ensures(i as int);
                    assert(all_wf(self.docs.deep_view()));
                }
                self.rewrite_lines();
                return true;
            }
            i += 1;
        }
        proof {
            lemma_first_id_match_none(dv, id@);
        }
        false
    }

    /// The lines of the durable file: what the surrounding application
    /// writes to disk, one line each followed by a newline.
    pub fn file_lines(&self) -> (r: &Vec<String>)
        ensures
            r.deep_view() == self.lines_view(),
    {
        &self.lines
    }

    /// The full byte content of the durable file, as one string.
    pub fn file_content(&self) -> (r: String)
        ensures
            r@ == content_of(self.lines_view()),
    {
        let ghost lv = self.lines.deep_view();
        let mut out = String::new();
        let mut i: usize = 0;
        let n = self.lines.len();
        while i < n
            invariant
                lv == self.lines.deep_view(),
                n == lv.len(),
                i <= n,
                out@ == content_of(lv.take(i as int)),
            decreases n - i,
        {
            proof {
                reveal_strlit("\n");
            }
            assert(lv[i as int] == self.lines@[i as int]@);
            out.append(self.lines[i].as_str());
            out.append("\n");
            proof {
                assert(lv.take(i + 1).drop_last() =~= lv.take(i as int));
                assert(lv.take(i + 1).last() == lv[i as int]);
                assert("\n"@ =~= seq!['\n']);
                assert(out@ =~= content_of(lv.take(i + 1)));
            }
            i += 1;
        }
        assert(lv.take(n as int) =~= lv);
        out
    }

    /// How many documents the collection holds.
    pub fn len(&self) -> (r: usize)
        ensures
            r == self@.len(),
    {
        self.docs.len()
    }
}

/// The selection that `find` returns: the documents whose `field` holds
/// exactly the string `value`, in order.
pub open spec fn select_eq(docs: Seq<JVal>, field: Seq<char>, value: Seq<char>) -> Seq<JVal>
    decreases docs.len(),
{
    if docs.len() == 0 {
        Seq::empty()
    } else {
        let rest = select_eq(docs.drop_last(), field, value);
        if field_matches(docs.last(), field, value) {
            rest.push(docs.last())
        } else {
            rest
        }
    }
}

/// The selection that `find_with_operator` returns: the documents whose
/// `field` matches `value` under `operator`, in order.
pub open spec fn select_op(
    docs: Seq<JVal>,
    field: Seq<char>,
    value: Seq<char>,
    op: Seq<char>,
) -> Seq<JVal>
    decreases docs.len(),
{
    if docs.len() == 0 {
        Seq::empty()
    } else {
        let rest = select_op(docs.drop_last(), field, value, op);
        if op_matches(docs.last(), field, value, op) {
            rest.push(docs.last())
        } else {
            rest
        }
    }
}

/// `first_id_match` finds the first matching index.
pub proof fn lemma_first_id_match_at(docs: Seq<JVal>, id: Seq<char>, i: int)
    requires
        0 <= i < docs.len(),
        doc_id_is(docs[i], id),
        forall|j: int| 0 <= j < i ==> !doc_id_is(docs[j], id),
    ensures
        first_id_match(docs, id) == Some(i),
    decreases i,
{
    if i > 0 {
        assert(docs.drop_first()[i - 1] == docs[i]);
        assert(forall|j: int| 0 <= j < i - 1 ==> #[trigger] docs.drop_first()[j] == docs[j + 1]);
        lemma_first_id_match_at(docs.drop_first(), id, i - 1);
    }
}

/// `first_id_match` finds nothing when no document matches.
pub proof fn lemma_first_id_match_none(docs: Seq<JVal>, id: Seq<char>)
    requires
        forall|j: int| 0 <= j < docs.len() ==> !doc_id_is(docs[j], id),
    ensures
        first_id_match(docs, id) is None,
    decreases docs.len(),
{
    if docs.len() > 0 {
        lemma_first_id_match_none(docs.drop_first(), id);
    }
}


/// Inserting tags the document and nothing else: the stored document
/// holds the returned id under `_id`, and every other field exactly as
/// the caller gave it.
pub proof fn law_insert_tags_id(d: JVal, id: Seq<char>, k: Seq<char>)
    requires
        d is Obj,
    ensures
        get_of(tagged(d, id), "_id"@) == Some(JVal::Str(id)),
        k != "_id"@ ==> get_of(tagged(d, id), k) == get_of(d, k),
{
    crate::json::lemma_kv_set_lookup(d->Obj_0, "_id"@, JVal::Str(id), "_id"@);
    crate::json::lemma_kv_set_lookup(d->Obj_0, "_id"@, JVal::Str(id), k);
}

/// An update never changes a document's identity: whatever field it
/// aims at, afterwards `_id` holds exactly what it held before.
pub proof fn law_update_leaves_id(d: JVal, field: Seq<char>, value: JVal)
    requires
        d is Obj,
    ensures
        get_of(updated_doc(d, field, value), "_id"@) == get_of(d, "_id"@),
{
    if field != "_id"@ {
        crate::json::lemma_kv_set_lookup(d->Obj_0, field, value, "_id"@);
    }
}

/// The store round-trips through its durable representation: two
/// collections over the same file lines hold the same documents, so
/// closing a collection and reopening it over its file yields the
/// sequence it held, in order.
pub proof fn law_reopen_round_trip(c1: &Collection, c2: &Collection)
    requires
        c1.inv(),
        c2.inv(),
        c1.lines_view() == c2.lines_view(),
    ensures
        c1@ == c2@,
{
}

/// A collection's file, parsed line by line with unreadable lines
/// dropped, yields exactly its in-memory documents.
pub proof fn law_file_loads_back(c: &Collection)
    requires
        c.inv(),
    ensures
        load_docs(c.lines_view()) == c@,
{
}

/// Persisting is idempotent: a second persist with no intervening
/// mutation leaves the very same lines, hence byte-identical file
/// content.
pub proof fn law_persist_idempotent(c0: Collection, c1: Collection, c2: Collection)
    requires
        c1@ == c0@,
        c1.lines_view() == lines_of(c1@),
        c2@ == c1@,
        c2.lines_view() == lines_of(c2@),
    ensures
        c2.lines_view() == c1.lines_view(),
        content_of(c2.lines_view()) == content_of(c1.lines_view()),
{
}

/// Deleting the last remaining document leaves the collection empty and
/// its file with no lines at all.
pub proof fn law_delete_last_empties(pre: Collection, post: Collection, id: Seq<char>)
    requires
        pre@.len() == 1,
        doc_id_is(pre@[0], id),
        post@ == pre@.remove(0),
        post.lines_view() == lines_of(post@),
    ensures
        first_id_match(pre@, id) == Some(0int),
        post@.len() == 0,
        post.lines_view().len() == 0,
        content_of(post.lines_view()) == Seq::<char>::empty(),
{
    assert(post@ =~= Seq::<JVal>::empty());
}

} // verus!
