//! The document model: a JSON value as the store holds it, and its
//! mathematical view.
//!
//! Documents are schema-less JSON objects. A number is held as its
//! canonical decimal rendering (the string serde_json writes for it and
//! reads back), which is exactly what the store's equality operator
//! compares; arithmetic is never performed on it.

use vstd::prelude::*;
use crate::text::{dec_of, i64_to_string, num_canonical, num_canonical_check, str_eq};

verus! {

/// The mathematical model of a JSON value: what a document *is* in
/// specifications. Object members are kept in order, as they are in the
/// durable file.
pub enum JVal {
    Null,
    Bool(bool),
    Num(Seq<char>),
    Str(Seq<char>),
    Arr(Seq<JVal>),
    Obj(Seq<(Seq<char>, JVal)>),
}

/// A JSON value as the store holds it in memory.
#[derive(Debug, PartialEq, Eq)]
pub enum Json {
    Null,
    Bool(bool),
    Num(String),
    Str(String),
    Arr(Vec<Json>),
    Obj(Vec<(String, Json)>),
}

/// The view of an array's element list: each element as its model.
pub open spec fn elems_view(els: Seq<Json>) -> Seq<JVal>
    decreases els,
{
    if els.len() == 0 {
        Seq::empty()
    } else {
        elems_view(els.drop_last()).push(els.last().jval())
    }
}

/// The view of an object's member list: each key as a character
/// sequence, each value as its model.
pub open spec fn pairs_view(pairs: Seq<(String, Json)>) -> Seq<(Seq<char>, JVal)>
    decreases pairs,
{
    if pairs.len() == 0 {
        Seq::empty()
    } else {
        pairs_view(pairs.drop_last()).push((pairs.last().0@, pairs.last().1.jval()))
    }
}

impl Json {
    /// The model of this value.
    pub open spec fn jval(self) -> JVal
        decreases self,
    {
        match self {
            Json::Null => JVal::Null,
            Json::Bool(b) => JVal::Bool(b),
            Json::Num(n) => JVal::Num(n@),
            Json::Str(s) => JVal::Str(s@),
            Json::Arr(els) => JVal::Arr(elems_view(els@)),
            Json::Obj(pairs) => JVal::Obj(pairs_view(pairs@)),
        }
    }
}

/// How `elems_view` acts pointwise.
pub broadcast proof fn lemma_elems_view(els: Seq<Json>)
    ensures
        (#[trigger] elems_view(els)).len() == els.len(),
        forall|i: int| 0 <= i < els.len() ==> elems_view(els)[i] == els[i].jval(),
    decreases els.len(),
{
    if els.len() > 0 {
        lemma_elems_view(els.drop_last());
    }
}

/// How `pairs_view` acts pointwise.
pub broadcast proof fn lemma_pairs_view(pairs: Seq<(String, Json)>)
    ensures
        (#[trigger] pairs_view(pairs)).len() == pairs.len(),
        forall|i: int| 0 <= i < pairs.len() ==> pairs_view(pairs)[i] == (
            pairs[i].0@,
            pairs[i].1.jval(),
        ),
    decreases pairs.len(),
{
    if pairs.len() > 0 {
        lemma_pairs_view(pairs.drop_last());
    }
}

impl View for Json {
    type V = JVal;

    open spec fn view(&self) -> JVal {
        self.jval()
    }
}

impl DeepView for Json {
    type V = JVal;

    open spec fn deep_view(&self) -> JVal {
        self.jval()
    }
}

/// No two members of an object share a key.
pub open spec fn keys_unique(kvs: Seq<(Seq<char>, JVal)>) -> bool {
    forall|i: int, j: int| 0 <= i < j < kvs.len() ==> kvs[i].0 != kvs[j].0
}

/// The deepest container nesting a stored document may carry: what
/// serde_json's parser reads back (its recursion limit admits 127
/// nested arrays or objects).
pub const MAX_DEPTH: usize = 127;

/// Every element of the list is well formed within `depth`.
pub open spec fn wf_list(els: Seq<JVal>, depth: nat) -> bool
    decreases els,
{
    if els.len() == 0 {
        true
    } else {
        wf_at(els.last(), depth) && wf_list(els.drop_last(), depth)
    }
}

/// Every member value of the list is well formed within `depth`.
pub open spec fn wf_kvs(kvs: Seq<(Seq<char>, JVal)>, depth: nat) -> bool
    decreases kvs,
{
    if kvs.len() == 0 {
        true
    } else {
        wf_at(kvs.last().1, depth) && wf_kvs(kvs.drop_last(), depth)
    }
}

/// A well-formed value within `depth` remaining levels of container
/// nesting: every object in it has pairwise distinct keys, as a JSON
/// object has by definition; every number carries a canonical
/// rendering; and no container sits deeper than `depth` allows.
pub open spec fn wf_at(v: JVal, depth: nat) -> bool
    decreases v,
{
    match v {
        JVal::Num(s) => num_canonical(s),
        JVal::Arr(els) => depth > 0 && wf_list(els, (depth - 1) as nat),
        JVal::Obj(kvs) => depth > 0 && keys_unique(kvs) && wf_kvs(kvs, (depth - 1) as nat),
        _ => true,
    }
}

/// A well-formed document value: one the store can write as a line and
/// read back unchanged.
pub open spec fn wf_jval(v: JVal) -> bool {
    wf_at(v, MAX_DEPTH as nat)
}

/// A value that may stand as one member of a stored document: well
/// formed one container level below the document bound.
pub open spec fn wf_member(v: JVal) -> bool {
    wf_at(v, (MAX_DEPTH - 1) as nat)
}

/// `wf_list` holds exactly when every element is well formed.
pub proof fn lemma_wf_list(els: Seq<JVal>, depth: nat)
    ensures
        wf_list(els, depth) <==> (forall|i: int|
            0 <= i < els.len() ==> wf_at(#[trigger] els[i], depth)),
    decreases els.len(),
{
    if els.len() > 0 {
        let pre = els.drop_last();
        lemma_wf_list(pre, depth);
        if wf_list(els, depth) {
            assert forall|i: int| 0 <= i < els.len() implies wf_at(#[trigger] els[i], depth) by {
                if i < els.len() - 1 {
                    assert(pre[i] == els[i]);
                    assert(wf_at(pre[i], depth));
                } else {
                    assert(els[i] == els.last());
                }
            }
        } else if wf_at(els.last(), depth) {
            assert(!wf_list(pre, depth));
            assert(!(forall|i: int| 0 <= i < pre.len() ==> wf_at(#[trigger] pre[i], depth)));
            let i = choose|i: int| 0 <= i < pre.len() && !wf_at(#[trigger] pre[i], depth);
            assert(pre[i] == els[i]);
            assert(!wf_at(els[i], depth));
        } else {
            assert(!wf_at(els[els.len() - 1], depth));
        }
    }
}

/// `wf_kvs` holds exactly when every member value is well formed.
pub proof fn lemma_wf_kvs(kvs: Seq<(Seq<char>, JVal)>, depth: nat)
    ensures
        wf_kvs(kvs, depth) <==> (forall|i: int|
            0 <= i < kvs.len() ==> wf_at(#[trigger] kvs[i].1, depth)),
    decreases kvs.len(),
{
    if kvs.len() > 0 {
        let pre = kvs.drop_last();
        lemma_wf_kvs(pre, depth);
        if wf_kvs(kvs, depth) {
            assert forall|i: int| 0 <= i < kvs.len() implies wf_at(#[trigger] kvs[i].1, depth) by {
                if i < kvs.len() - 1 {
                    assert(pre[i] == kvs[i]);
                    assert(wf_at(pre[i].1, depth));
                } else {
                    assert(kvs[i] == kvs.last());
                }
            }
        } else if wf_at(kvs.last().1, depth) {
            assert(!wf_kvs(pre, depth));
            assert(!(forall|i: int| 0 <= i < pre.len() ==> wf_at(#[trigger] pre[i].1, depth)));
            let i = choose|i: int| 0 <= i < pre.len() && !wf_at(#[trigger] pre[i].1, depth);
            assert(pre[i] == kvs[i]);
            assert(!wf_at(kvs[i].1, depth));
        } else {
            assert(!wf_at(kvs[kvs.len() - 1].1, depth));
        }
    }
}

/// The value stored under key `k`: the first member with that key.
pub open spec fn kv_lookup(kvs: Seq<(Seq<char>, JVal)>, k: Seq<char>) -> Option<JVal>
    decreases kvs.len(),
{
    if kvs.len() == 0 {
        None
    } else if kvs[0].0 == k {
        Some(kvs[0].1)
    } else {
        kv_lookup(kvs.drop_first(), k)
    }
}

/// Member update: the first member with key `k` is replaced by `(k, v)`;
/// if no member has that key, `(k, v)` is appended.
pub open spec fn kv_set(kvs: Seq<(Seq<char>, JVal)>, k: Seq<char>, v: JVal) -> Seq<
    (Seq<char>, JVal),
>
    decreases kvs.len(),
{
    if kvs.len() == 0 {
        seq![(k, v)]
    } else if kvs[0].0 == k {
        seq![(k, v)] + kvs.drop_first()
    } else {
        seq![kvs[0]] + kv_set(kvs.drop_first(), k, v)
    }
}

/// Field access on a document: objects yield their member, everything
/// else yields nothing.
pub open spec fn get_of(d: JVal, k: Seq<char>) -> Option<JVal> {
    match d {
        JVal::Obj(kvs) => kv_lookup(kvs, k),
        _ => None,
    }
}

/// The index of the first member with key `k`, where one exists.
pub proof fn lemma_first_key(kvs: Seq<(Seq<char>, JVal)>, k: Seq<char>) -> (i: int)
    requires
        exists|j: int| 0 <= j < kvs.len() && kvs[j].0 == k,
    ensures
        0 <= i < kvs.len(),
        kvs[i].0 == k,
        forall|j: int| 0 <= j < i ==> kvs[j].0 != k,
    decreases kvs.len(),
{
    if kvs[0].0 == k {
        0
    } else {
        let j = choose|j: int| 0 <= j < kvs.len() && kvs[j].0 == k;
        assert(kvs.drop_first()[j - 1] == kvs[j]);
        let i0 = lemma_first_key(kvs.drop_first(), k);
        assert forall|j2: int| 0 <= j2 < i0 + 1 implies kvs[j2].0 != k by {
            if j2 > 0 {
                assert(kvs.drop_first()[j2 - 1] == kvs[j2]);
            }
        }
        i0 + 1
    }
}

/// `kv_lookup` returns the member at the first index whose key matches.
pub proof fn lemma_kv_lookup_at(kvs: Seq<(Seq<char>, JVal)>, k: Seq<char>, i: int)
    requires
        0 <= i < kvs.len(),
        kvs[i].0 == k,
        forall|j: int| 0 <= j < i ==> kvs[j].0 != k,
    ensures
        kv_lookup(kvs, k) == Some(kvs[i].1),
    decreases i,
{
    if i > 0 {
        assert(kvs.drop_first()[i - 1] == kvs[i]);
        lemma_kv_lookup_at(kvs.drop_first(), k, i - 1);
    }
}

/// `kv_lookup` returns nothing when no key matches.
pub proof fn lemma_kv_lookup_absent(kvs: Seq<(Seq<char>, JVal)>, k: Seq<char>)
    requires
        forall|j: int| 0 <= j < kvs.len() ==> kvs[j].0 != k,
    ensures
        kv_lookup(kvs, k) is None,
    decreases kvs.len(),
{
    if kvs.len() > 0 {
        lemma_kv_lookup_absent(kvs.drop_first(), k);
    }
}

/// When the key is present, `kv_set` is an update in place at the first
/// matching index.
pub proof fn lemma_kv_set_at(kvs: Seq<(Seq<char>, JVal)>, k: Seq<char>, v: JVal, i: int)
    requires
        0 <= i < kvs.len(),
        kvs[i].0 == k,
        forall|j: int| 0 <= j < i ==> kvs[j].0 != k,
    ensures
        kv_set(kvs, k, v) == kvs.update(i, (k, v)),
    decreases i,
{
    if i == 0 {
        assert(kv_set(kvs, k, v) =~= kvs.update(0, (k, v)));
    } else {
        assert(kvs.drop_first()[i - 1] == kvs[i]);
        lemma_kv_set_at(kvs.drop_first(), k, v, i - 1);
        assert(kv_set(kvs, k, v) =~= kvs.update(i, (k, v)));
    }
}

/// When the key is absent, `kv_set` appends the new member.
pub proof fn lemma_kv_set_absent(kvs: Seq<(Seq<char>, JVal)>, k: Seq<char>, v: JVal)
    requires
        forall|j: int| 0 <= j < kvs.len() ==> kvs[j].0 != k,
    ensures
        kv_set(kvs, k, v) == kvs.push((k, v)),
    decreases kvs.len(),
{
    if kvs.len() == 0 {
        assert(kv_set(kvs, k, v) =~= kvs.push((k, v)));
    } else {
        lemma_kv_set_absent(kvs.drop_first(), k, v);
        assert(kv_set(kvs, k, v) =~= kvs.push((k, v)));
    }
}

/// After setting `k` to `v`, looking up `k` yields `v` and every other
/// key yields what it held before.
pub proof fn lemma_kv_set_lookup(kvs: Seq<(Seq<char>, JVal)>, k: Seq<char>, v: JVal, k2: Seq<char>)
    ensures
        kv_lookup(kv_set(kvs, k, v), k2) == if k2 == k {
            Some(v)
        } else {
            kv_lookup(kvs, k2)
        },
    decreases kvs.len(),
{
    if kvs.len() == 0 {
        assert(kv_set(kvs, k, v) == seq![(k, v)]);
        assert(kv_set(kvs, k, v).drop_first() =~= Seq::<(Seq<char>, JVal)>::empty());
    } else if kvs[0].0 == k {
        let r = kv_set(kvs, k, v);
        assert(r == seq![(k, v)] + kvs.drop_first());
        assert(r[0] == (k, v));
        assert(r.drop_first() =~= kvs.drop_first());
    } else {
        let r = kv_set(kvs, k, v);
        assert(r == seq![kvs[0]] + kv_set(kvs.drop_first(), k, v));
        assert(r[0] == kvs[0]);
        assert(r.drop_first() =~= kv_set(kvs.drop_first(), k, v));
        lemma_kv_set_lookup(kvs.drop_first(), k, v, k2);
    }
}

/// Setting a well-formed value under any key keeps an object's member
/// list well formed.
pub proof fn lemma_kv_set_wf(kvs: Seq<(Seq<char>, JVal)>, k: Seq<char>, v: JVal, depth: nat)
    requires
        keys_unique(kvs),
        forall|i: int| 0 <= i < kvs.len() ==> wf_at(#[trigger] kvs[i].1, depth),
        wf_at(v, depth),
    ensures
        keys_unique(kv_set(kvs, k, v)),
        forall|i: int|
            0 <= i < kv_set(kvs, k, v).len() ==> wf_at(#[trigger] kv_set(kvs, k, v)[i].1, depth),
{
    if exists|j: int| 0 <= j < kvs.len() && kvs[j].0 == k {
        let i = lemma_first_key(kvs, k);
        lemma_kv_set_at(kvs, k, v, i);
    } else {
        assert(forall|j: int| 0 <= j < kvs.len() ==> kvs[j].0 != k);
        lemma_kv_set_absent(kvs, k, v);
    }
}

impl Json {
    /// Whether this value is a JSON object, hence insertable as a document.
    pub fn is_object(&self) -> (r: bool)
        ensures
            r == (self@ is Obj),
    {
        match self {
            Json::Obj(_) => true,
            _ => false,
        }
    }

    /// An identical copy of this value.
    pub fn deep_copy(&self) -> (r: Json)
        ensures
            r@ == self@,
        decreases *self,
    {
        broadcast use lemma_elems_view, lemma_pairs_view;

        match self {
            Json::Null => Json::Null,
            Json::Bool(b) => Json::Bool(*b),
            Json::Num(n) => Json::Num(n.clone()),
            Json::Str(s) => Json::Str(s.clone()),
            Json::Arr(els) => {
                let mut out: Vec<Json> = Vec::new();
                let mut i: usize = 0;
                while i < els.len()
                    invariant
                        *self == Json::Arr(*els),
                        i <= els@.len(),
                        out@.len() == i,
                        forall|j: int| 0 <= j < i ==> out@[j].jval() == els@[j].jval(),
                    decreases els@.len() - i,
                {
                    proof {
                        assert(*self == Json::Arr(*els));
                        assert(decreases_to!(*self => self->Arr_0));
                        assert(decreases_to!(*self => *els));
                        assert(decreases_to!(*els => els@));
                        assert(decreases_to!(els@ => els@[i as int]));
                        assert(decreases_to!(*self => els@[i as int]));
                    }
                    out.push(els[i].deep_copy());
                    i += 1;
                }
                let r = Json::Arr(out);
                assert(elems_view(out@) =~= elems_view(els@));
                r
            },
            Json::Obj(pairs) => {
                let mut out: Vec<(String, Json)> = Vec::new();
                let mut i: usize = 0;
                while i < pairs.len()
                    invariant
                        *self == Json::Obj(*pairs),
                        i <= pairs@.len(),
                        out@.len() == i,
                        forall|j: int| 0 <= j < i ==> out@[j].0@ == pairs@[j].0@
                            && out@[j].1.jval() == pairs@[j].1.jval(),
                    decreases pairs@.len() - i,
                {
                    proof {
                        assert(*self == Json::Obj(*pairs));
                        assert(decreases_to!(*self => self->Obj_0));
                        assert(decreases_to!(*self => *pairs));
                        assert(decreases_to!(*pairs => pairs@));
                        assert(decreases_to!(pairs@ => pairs@[i as int]));
                        assert(decreases_to!(pairs@[i as int] => pairs@[i as int].1));
                        assert(decreases_to!(*self => pairs@[i as int].1));
                    }
                    let key = pairs[i].0.clone();
                    let val = pairs[i].1.deep_copy();
                    out.push((key, val));
                    i += 1;
                }
                let r = Json::Obj(out);
                assert(pairs_view(out@) =~= pairs_view(pairs@));
                r
            },
        }
    }

    /// The value stored under `key`, if this value is an object with
    /// such a member.
    pub fn get(&self, key: &str) -> (r: Option<&Json>)
        ensures
            match r {
                Some(v) => get_of(self@, key@) == Some(v@),
                None => get_of(self@, key@) is None,
            },
    {
        broadcast use lemma_pairs_view;

        match self {
            Json::Obj(pairs) => {
                let ghost kvs = pairs_view(pairs@);
                let mut i: usize = 0;
                while i < pairs.len()
                    invariant
                        *self == Json::Obj(*pairs),
                        kvs == pairs_view(pairs@),
                        i <= pairs@.len(),
                        forall|j: int| 0 <= j < i ==> kvs[j].0 != key@,
                    decreases pairs@.len() - i,
                {
                    proof {
                        lemma_pairs_view(pairs@);
                        assert(kvs[i as int] == (pairs@[i as int].0@, pairs@[i as int].1.jval()));
                    }
                    if str_eq(pairs[i].0.as_str(), key) {
                        proof {
                            lemma_kv_lookup_at(kvs, key@, i as int);
                        }
                        return Some(&pairs[i].1);
                    }
                    i += 1;
                }
                proof {
                    lemma_kv_lookup_absent(kvs, key@);
                }
                None
            },
            _ => None,
        }
    }

    /// This value with `key` set to `value`: the first member with that
    /// key is overwritten, or the member is appended if the key is new.
    pub fn with_field(self, key: &str, value: Json) -> (r: Json)
        requires
            self@ is Obj,
        ensures
            r@ == JVal::Obj(kv_set(self@->Obj_0, key@, value@)),
    {
        broadcast use lemma_pairs_view;

        match self {
            Json::Obj(mut pairs) => {
                let ghost kvs = pairs_view(pairs@);
                let n = pairs.len();
                let mut i: usize = 0;
                let mut found = false;
                while i < n && !found
                    invariant
                        n == pairs@.len(),
                        kvs == pairs_view(pairs@),
                        i <= n,
                        forall|j: int| 0 <= j < i ==> kvs[j].0 != key@,
                        found ==> i < n && kvs[i as int].0 == key@,
                    decreases n - i + if found {
                        0int
                    } else {
                        1int
                    },
                {
                    proof {
                        lemma_pairs_view(pairs@);
                        assert(kvs[i as int] == (pairs@[i as int].0@, pairs@[i as int].1.jval()));
                    }
                    if str_eq(pairs[i].0.as_str(), key) {
                        found = true;
                    } else {
                        i += 1;
                    }
                }
                if found {
                    proof {
                        lemma_kv_set_at(kvs, key@, value@, i as int);
                    }
                    let fresh_key = pairs[i].0.clone();
                    pairs[i] = (fresh_key, value);
                    assert(pairs_view(pairs@) =~= kv_set(kvs, key@, value@));
                    Json::Obj(pairs)
                } else {
                    proof {
                        lemma_kv_set_absent(kvs, key@, value@);
                    }
                    pairs.push((key.to_owned(), value));
                    assert(pairs_view(pairs@) =~= kv_set(kvs, key@, value@));
                    Json::Obj(pairs)
                }
            },
            other => other,
        }
    }

    /// Whether this value is well formed: every object in it, at any
    /// depth, has pairwise distinct keys.
    /// Whether this value is well formed within `depth` remaining
    /// container levels.
    fn wf_within(&self, depth: usize) -> (r: bool)
        ensures
            r == wf_at(self@, depth as nat),
        decreases *self,
    {
        broadcast use lemma_elems_view, lemma_pairs_view;

        match self {
            Json::Null => true,
            Json::Bool(_) => true,
            Json::Num(n) => num_canonical_check(n.as_str()),
            Json::Str(_) => true,
            Json::Arr(els) => {
                if depth == 0 {
                    return false;
                }
                let mut i: usize = 0;
                while i < els.len()
                    invariant
                        *self == Json::Arr(*els),
                        1 <= depth,
                        i <= els@.len(),
                        forall|j: int|
                            0 <= j < i ==> wf_at(
                                #[trigger] elems_view(els@)[j],
                                (depth - 1) as nat,
                            ),
                    decreases els@.len() - i,
                {
                    proof {
                        assert(decreases_to!(*self => self->Arr_0));
                        assert(decreases_to!(*els => els@));
                        assert(decreases_to!(els@ => els@[i as int]));
                        lemma_elems_view(els@);
                        assert(elems_view(els@)[i as int] == els@[i as int].jval());
                    }
                    if !els[i].wf_within(depth - 1) {
                        proof {
                            let ev = elems_view(els@);
                            assert(self@ == JVal::Arr(ev));
                            assert(!wf_at(ev[i as int], (depth - 1) as nat));
                            lemma_wf_list(ev, (depth - 1) as nat);
                            assert(!wf_list(ev, (depth - 1) as nat));
                            assert(!wf_at(self@, depth as nat));
                        }
                        return false;
                    }
                    i += 1;
                }
                proof {
                    let ev = elems_view(els@);
                    assert(self@ == JVal::Arr(ev));
                    assert(forall|j: int|
                        0 <= j < ev.len() ==> wf_at(#[trigger] ev[j], (depth - 1) as nat));
                    lemma_wf_list(ev, (depth - 1) as nat);
                    assert(wf_at(self@, depth as nat));
                }
                true
            },
            Json::Obj(pairs) => {
                if depth == 0 {
                    return false;
                }
                let ghost kvs = pairs_view(pairs@);
                let n = pairs.len();
                let mut i: usize = 0;
                while i < n
                    invariant
                        *self == Json::Obj(*pairs),
                        1 <= depth,
                        kvs == pairs_view(pairs@),
                        n == pairs@.len(),
                        i <= n,
                        forall|j: int|
                            0 <= j < i ==> wf_at(#[trigger] kvs[j].1, (depth - 1) as nat),
                        forall|j1: int, j2: int|
                            0 <= j1 < i && j1 < j2 < n ==> kvs[j1].0 != kvs[j2].0,
                    decreases n - i,
                {
                    proof {
                        assert(decreases_to!(*self => self->Obj_0));
                        assert(decreases_to!(*pairs => pairs@));
                        assert(decreases_to!(pairs@ => pairs@[i as int]));
                        assert(decreases_to!(pairs@[i as int] => pairs@[i as int].1));
                        lemma_pairs_view(pairs@);
                        assert(kvs[i as int] == (pairs@[i as int].0@, pairs@[i as int].1.jval()));
                    }
                    if !pairs[i].1.wf_within(depth - 1) {
                        proof {
                            assert(!wf_at(kvs[i as int].1, (depth - 1) as nat));
                            lemma_wf_kvs(kvs, (depth - 1) as nat);
                            assert(!wf_kvs(kvs, (depth - 1) as nat));
                            assert(!wf_at(self@, depth as nat));
                        }
                        return false;
                    }
                    let mut j: usize = i + 1;
                    while j < n
                        invariant
                            *self == Json::Obj(*pairs),
                            1 <= depth,
                            kvs == pairs_view(pairs@),
                            n == pairs@.len(),
                            i < j <= n,
                            forall|j2: int| i < j2 < j ==> kvs[i as int].0 != kvs[j2].0,
                        decreases n - j,
                    {
                        proof {
                            lemma_pairs_view(pairs@);
                            assert(kvs[i as int] == (
                                pairs@[i as int].0@,
                                pairs@[i as int].1.jval(),
                            ));
                            assert(kvs[j as int] == (
                                pairs@[j as int].0@,
                                pairs@[j as int].1.jval(),
                            ));
                        }
                        if str_eq(pairs[i].0.as_str(), pairs[j].0.as_str()) {
                            proof {
                                assert(!keys_unique(kvs));
                                assert(!wf_at(self@, depth as nat));
                            }
                            return false;
                        }
                        j += 1;
                    }
                    i += 1;
                }
                proof {
                    assert(keys_unique(kvs));
                    assert(forall|j: int|
                        0 <= j < kvs.len() ==> wf_at(#[trigger] kvs[j].1, (depth - 1) as nat));
                    lemma_wf_kvs(kvs, (depth - 1) as nat);
                    assert(wf_at(self@, depth as nat));
                }
                true
            },
        }
    }

    /// Whether this value is a well-formed document value: every object
    /// in it has pairwise distinct keys, every number carries a
    /// canonical rendering, and its nesting stays within the store's
    /// depth bound.
    pub fn is_wf(&self) -> (r: bool)
        ensures
            r == wf_jval(self@),
    {
        self.wf_within(MAX_DEPTH)
    }

    /// Whether this value may stand as one member of a stored document:
    /// well formed one container level below the document bound.
    pub fn is_wf_member(&self) -> (r: bool)
        ensures
            r == wf_member(self@),
    {
        self.wf_within(MAX_DEPTH - 1)
    }

    /// The document number with this integer value.
    pub fn from_i64(n: i64) -> (r: Json)
        ensures
            r@ == JVal::Num(dec_of(n as int)),
            wf_jval(r@),
            wf_member(r@),
    {
        Json::Num(i64_to_string(n))
    }
}

} // verus!
