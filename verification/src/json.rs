//! JSON values and the JSON merge patch (RFC 7386) on them.
use crate::sorted::{Cmp, compare_keys, lex_lt};
use crate::text;
use vstd::prelude::*;

verus! {

/// A JSON value. A number is kept as the text JSON writes for it; an
/// object's entries are kept in key order, each key once.
#[derive(Debug)]
pub enum Json {
    Null,
    Bool(bool),
    Number(String),
    Str(String),
    Array(Vec<Json>),
    Object(Vec<(String, Json)>),
}

/// A JSON value with its texts and lists as sequences.
pub enum JsonV {
    Null,
    Bool(bool),
    Number(Seq<char>),
    Str(Seq<char>),
    Array(Seq<JsonV>),
    Object(Seq<(Seq<char>, JsonV)>),
}

/// The view of a JSON value.
pub open spec fn jv(j: Json) -> JsonV
    decreases j,
{
    match j {
        Json::Null => JsonV::Null,
        Json::Bool(b) => JsonV::Bool(b),
        Json::Number(n) => JsonV::Number(n@),
        Json::Str(s) => JsonV::Str(s@),
        Json::Array(v) => JsonV::Array(
            Seq::new(v@.len(), |i: int| if 0 <= i < v@.len() { jv(v@[i]) } else { JsonV::Null }),
        ),
        Json::Object(v) => JsonV::Object(
            Seq::new(
                v@.len(),
                |i: int|
                    if 0 <= i < v@.len() {
                        (v@[i].0@, jv(v@[i].1))
                    } else {
                        (Seq::empty(), JsonV::Null)
                    },
            ),
        ),
    }
}

/// The view of the entries of an object.
pub open spec fn ents(v: Seq<(String, Json)>) -> Seq<(Seq<char>, JsonV)> {
    Seq::new(v.len(), |i: int| (v[i].0@, jv(v[i].1)))
}

/// The view of the items of an array.
pub open spec fn items(v: Seq<Json>) -> Seq<JsonV> {
    Seq::new(v.len(), |i: int| jv(v[i]))
}

proof fn lemma_jv_object(v: Vec<(String, Json)>)
    ensures
        jv(Json::Object(v)) == JsonV::Object(ents(v@)),
{
    assert(jv(Json::Object(v))->Object_0 =~= ents(v@));
}

proof fn lemma_jv_array(v: Vec<Json>)
    ensures
        jv(Json::Array(v)) == JsonV::Array(items(v@)),
{
    assert(jv(Json::Array(v))->Array_0 =~= items(v@));
}

/// Whether key `a` sorts before key `b` (by character codes, as `String` orders).
pub open spec fn key_before(a: Seq<char>, b: Seq<char>) -> bool {
    lex_lt(text::chars_key(a), text::chars_key(b))
}

/// Whether `p` is where key `k` sits in the entries, or would be put: the
/// first entry whose key is `k` or sorts after it (the end where none does).
pub open spec fn is_put_pos(es: Seq<(Seq<char>, JsonV)>, k: Seq<char>, p: int) -> bool {
    &&& 0 <= p <= es.len()
    &&& forall|j: int| 0 <= j < p ==> !(#[trigger] es[j].0 == k || key_before(k, es[j].0))
    &&& p < es.len() ==> (es[p].0 == k || key_before(k, es[p].0))
}

/// The position of key `k` (see `is_put_pos`).
pub open spec fn put_pos(es: Seq<(Seq<char>, JsonV)>, k: Seq<char>) -> int {
    choose|p: int| is_put_pos(es, k, p)
}

proof fn lemma_put_pos(es: Seq<(Seq<char>, JsonV)>, k: Seq<char>, p: int)
    requires
        is_put_pos(es, k, p),
    ensures
        put_pos(es, k) == p,
{
    let q = put_pos(es, k);
    assert(is_put_pos(es, k, q));
    if q < p {
        assert(!(es[q].0 == k || key_before(k, es[q].0)));
    }
    if p < q {
        assert(!(es[p].0 == k || key_before(k, es[p].0)));
    }
}

/// The JSON merge patch: a patch that is no object replaces the document;
/// an object patch is applied to the document's entries (or to none, where
/// the document is no object) key by key, in the patch's order: a `null`
/// removes the key, any other value is merged into the key's value (into
/// `null` where the key is new), a new key taking its place in key order.
pub open spec fn merge_v(doc: JsonV, patch: JsonV) -> JsonV
    decreases patch, 0int,
{
    match patch {
        JsonV::Object(pe) => JsonV::Object(
            merge_entries(
                match doc {
                    JsonV::Object(de) => de,
                    _ => Seq::empty(),
                },
                pe,
                pe.len() as int,
            ),
        ),
        _ => patch,
    }
}

/// The entries `base` after applying the first `n` entries of the patch `pe`.
pub open spec fn merge_entries(base: Seq<(Seq<char>, JsonV)>, pe: Seq<(Seq<char>, JsonV)>, n: int) -> Seq<
    (Seq<char>, JsonV),
>
    decreases pe, n,
{
    if n <= 0 || n > pe.len() {
        base
    } else {
        let acc = merge_entries(base, pe, n - 1);
        let k = pe[n - 1].0;
        let v = pe[n - 1].1;
        let p = put_pos(acc, k);
        let here = p < acc.len() && acc[p].0 == k;
        if v is Null {
            if here {
                acc.remove(p)
            } else {
                acc
            }
        } else if here {
            acc.update(p, (k, merge_v(acc[p].1, v)))
        } else {
            acc.insert(p, (k, merge_v(JsonV::Null, v)))
        }
    }
}

impl Json {
    /// A copy of the value.
    pub fn copy(&self) -> (r: Json)
        ensures
            jv(r) == jv(*self),
        decreases self,
    {
        match self {
            Json::Null => Json::Null,
            Json::Bool(b) => Json::Bool(*b),
            Json::Number(n) => Json::Number(n.clone()),
            Json::Str(s) => Json::Str(s.clone()),
            Json::Array(v) => {
                let mut out: Vec<Json> = Vec::new();
                let mut i: usize = 0;
                while i < v.len()
                    invariant
                        i <= v.len(),
                        out@.len() == i,
                        forall|j: int| 0 <= j < i ==> jv(#[trigger] out@[j]) == jv(v@[j]),
                        *self == Json::Array(*v),
                    decreases v.len() - i,
                {
                    proof {
                        assert(decreases_to!(*self => (*self)->Array_0));
                        assert(decreases_to!(*v => v@));
                        assert(decreases_to!(v@ => v@[i as int]));
                    }
                    let c = v[i].copy();
                    out.push(c);
                    i = i + 1;
                }
                proof {
                    lemma_jv_array(out);
                    lemma_jv_array(*v);
                    assert(items(out@) =~= items(v@));
                }
                Json::Array(out)
            },
            Json::Object(v) => {
                let mut out: Vec<(String, Json)> = Vec::new();
                let mut i: usize = 0;
                while i < v.len()
                    invariant
                        i <= v.len(),
                        out@.len() == i,
                        forall|j: int|
                            0 <= j < i ==> (#[trigger] out@[j]).0@ == v@[j].0@ && jv(out@[j].1) == jv(v@[j].1),
                        *self == Json::Object(*v),
                    decreases v.len() - i,
                {
                    proof {
                        assert(decreases_to!(*self => (*self)->Object_0));
                        assert(decreases_to!(*v => v@));
                        assert(decreases_to!(v@ => v@[i as int]));
                        assert(decreases_to!(v@[i as int] => v@[i as int].1));
                    }
                    let c = v[i].1.copy();
                    out.push((v[i].0.clone(), c));
                    i = i + 1;
                }
                proof {
                    lemma_jv_object(out);
                    lemma_jv_object(*v);
                    assert(ents(out@) =~= ents(v@));
                }
                Json::Object(out)
            },
        }
    }
}

/// Where key `k` sits in the entries, or would be put (see `is_put_pos`).
fn find_put_pos(es: &Vec<(String, Json)>, k: &str) -> (r: usize)
    ensures
        is_put_pos(ents(es@), k@, r as int),
{
    let kk = text::key_of_str(k);
    let mut i: usize = 0;
    while i < es.len()
        invariant
            i <= es.len(),
            kk@ == text::chars_key(k@),
            forall|j: int| 0 <= j < i ==> !(#[trigger] ents(es@)[j].0 == k@ || key_before(k@, ents(es@)[j].0)),
        decreases es.len() - i,
    {
        if text::str_eq(es[i].0.as_str(), k) {
            return i;
        }
        let ek = text::key_of_str(es[i].0.as_str());
        match compare_keys(&kk, &ek) {
            Cmp::Less => {
                return i;
            },
            _ => {},
        }
        i = i + 1;
    }
    i
}

/// Applies the JSON merge patch `patch` to `doc` (see `merge_v`), as
/// `json_patch::merge` does.
pub fn merge(doc: Json, patch: &Json) -> (r: Json)
    ensures
        jv(r) == merge_v(jv(doc), jv(*patch)),
    decreases patch,
{
    match patch {
        Json::Object(pe) => {
            let ghost dv = jv(doc);
            let mut es: Vec<(String, Json)> = match doc {
                Json::Object(de) => de,
                _ => Vec::new(),
            };
            let ghost base = ents(es@);
            let ghost pev = ents(pe@);
            proof {
                lemma_jv_object(*pe);
                if dv is Object {
                    assert(base == dv->Object_0);
                } else {
                    assert(base =~= Seq::<(Seq<char>, JsonV)>::empty());
                }
            }
            let mut i: usize = 0;
            while i < pe.len()
                invariant
                    i <= pe.len(),
                    pev == ents(pe@),
                    ents(es@) == merge_entries(base, pev, i as int),
                    *patch == Json::Object(*pe),
                decreases pe.len() - i,
            {
                let ghost acc = ents(es@);
                let p = find_put_pos(&es, pe[i].0.as_str());
                proof {
                    lemma_put_pos(acc, pev[i as int].0, p as int);
                }
                let here = p < es.len() && text::str_eq(es[p].0.as_str(), pe[i].0.as_str());
                match &pe[i].1 {
                    Json::Null => {
                        if here {
                            es.remove(p);
                            proof {
                                assert(ents(es@) =~= acc.remove(p as int));
                            }
                        }
                    },
                    v => {
                        if here {
                            let (kk, old) = es.remove(p);
                            proof {
                                assert(decreases_to!(*patch => (*patch)->Object_0));
                                assert(decreases_to!(*pe => pe@));
                                assert(decreases_to!(pe@ => pe@[i as int]));
                                assert(decreases_to!(pe@[i as int] => pe@[i as int].1));
                            }
                            let m = merge(old, v);
                            es.insert(p, (kk, m));
                            proof {
                                assert(ents(es@) =~= acc.update(p as int, (pev[i as int].0, merge_v(acc[p as int].1, pev[i as int].1))));
                            }
                        } else {
                            proof {
                                assert(decreases_to!(*patch => (*patch)->Object_0));
                                assert(decreases_to!(*pe => pe@));
                                assert(decreases_to!(pe@ => pe@[i as int]));
                                assert(decreases_to!(pe@[i as int] => pe@[i as int].1));
                            }
                            let m = merge(Json::Null, v);
                            es.insert(p, (pe[i].0.clone(), m));
                            proof {
                                assert(ents(es@) =~= acc.insert(p as int, (pev[i as int].0, merge_v(JsonV::Null, pev[i as int].1))));
                            }
                        }
                    },
                }
                i = i + 1;
            }
            proof {
                lemma_jv_object(es);
            }
            Json::Object(es)
        },
        _ => patch.copy(),
    }
}


/// Whether some entry has the key `k`.
pub open spec fn has_key(es: Seq<(Seq<char>, JsonV)>, k: Seq<char>) -> bool {
    exists|i: int| 0 <= i < es.len() && (#[trigger] es[i]).0 == k
}

/// Whether the entries are in strictly ascending key order (so each key once).
pub open spec fn keys_sorted(es: Seq<(Seq<char>, JsonV)>) -> bool {
    forall|i: int, j: int| 0 <= i < j < es.len() ==> key_before((#[trigger] es[i]).0, (#[trigger] es[j]).0)
}

/// What the first `n` entries of a patch say of key `k`: the value of the
/// last entry with that key, if any.
pub open spec fn patch_value(pe: Seq<(Seq<char>, JsonV)>, n: int, k: Seq<char>) -> Option<JsonV>
    decreases n,
{
    if n <= 0 || n > pe.len() {
        None
    } else if pe[n - 1].0 == k {
        Some(pe[n - 1].1)
    } else {
        patch_value(pe, n - 1, k)
    }
}

/// The value under key `k` (meaningful where the key is present).
pub open spec fn value_at(es: Seq<(Seq<char>, JsonV)>, k: Seq<char>) -> JsonV {
    es[key_index(es, k)].1
}

/// A position holding key `k` (meaningful where the key is present).
pub open spec fn key_index(es: Seq<(Seq<char>, JsonV)>, k: Seq<char>) -> int {
    choose|i: int| 0 <= i < es.len() && (#[trigger] es[i]).0 == k
}

/// In sorted entries the value under a key is that of its one entry.
proof fn lemma_value_at(es: Seq<(Seq<char>, JsonV)>, i: int)
    requires
        keys_sorted(es),
        0 <= i < es.len(),
    ensures
        value_at(es, es[i].0) == es[i].1,
{
    let k = es[i].0;
    assert(has_key(es, k));
    let j = key_index(es, k);
    assert(0 <= j < es.len() && es[j].0 == k);
    if j != i {
        if j < i {
            assert(key_before(es[j].0, es[i].0));
        } else {
            assert(key_before(es[i].0, es[j].0));
        }
        lemma_key_irreflexive(k);
    }
}

proof fn lemma_key_irreflexive(a: Seq<char>)
    ensures
        !key_before(a, a),
{
    crate::sorted::lemma_lex_irreflexive(text::chars_key(a));
}

proof fn lemma_key_transitive(a: Seq<char>, b: Seq<char>, c: Seq<char>)
    requires
        key_before(a, b),
        key_before(b, c),
    ensures
        key_before(a, c),
{
    crate::sorted::lemma_lex_transitive(text::chars_key(a), text::chars_key(b), text::chars_key(c));
}

proof fn lemma_key_total(a: Seq<char>, b: Seq<char>)
    ensures
        a == b || key_before(a, b) || key_before(b, a),
{
    crate::sorted::lemma_lex_total(text::chars_key(a), text::chars_key(b));
    if text::chars_key(a) == text::chars_key(b) {
        crate::tags::lemma_chars_key_injective(a, b);
    }
}

/// Some position is where a key sits or would be put.
proof fn lemma_put_pos_exists(es: Seq<(Seq<char>, JsonV)>, k: Seq<char>, i: int)
    requires
        0 <= i <= es.len(),
        forall|j: int| 0 <= j < i ==> !(#[trigger] es[j].0 == k || key_before(k, es[j].0)),
    ensures
        is_put_pos(es, k, put_pos(es, k)),
    decreases es.len() - i,
{
    if i == es.len() || es[i].0 == k || key_before(k, es[i].0) {
        assert(is_put_pos(es, k, i));
    } else {
        lemma_put_pos_exists(es, k, i + 1);
    }
}

/// One step of an object merge on sorted entries keeps them sorted; the key
/// is then present exactly where its patch value is no `null`, and every
/// other key is present exactly where it was.
proof fn lemma_merge_step(acc: Seq<(Seq<char>, JsonV)>, k: Seq<char>, v: JsonV, r: Seq<(Seq<char>, JsonV)>)
    requires
        keys_sorted(acc),
        ({
            let p = put_pos(acc, k);
            let here = p < acc.len() && acc[p].0 == k;
            r == if v is Null {
                if here {
                    acc.remove(p)
                } else {
                    acc
                }
            } else if here {
                acc.update(p, (k, merge_v(acc[p].1, v)))
            } else {
                acc.insert(p, (k, merge_v(JsonV::Null, v)))
            }
        }),
    ensures
        keys_sorted(r),
        has_key(r, k) == !(v is Null),
        forall|x: Seq<char>| x != k ==> has_key(r, x) == has_key(acc, x),
        forall|x: Seq<char>| x != k && has_key(acc, x) ==> value_at(r, x) == value_at(acc, x),
        !(v is Null) && !(v is Object) ==> value_at(r, k) == v,
{
    lemma_put_pos_exists(acc, k, 0);
    let p = put_pos(acc, k);
    let here = p < acc.len() && acc[p].0 == k;
    assert(has_key(acc, k) == here) by {
        if has_key(acc, k) {
            let q = choose|q: int| 0 <= q < acc.len() && (#[trigger] acc[q]).0 == k;
            if q < p {
                assert(!(acc[q].0 == k || key_before(k, acc[q].0)));
            } else if q > p {
                if acc[p].0 != k {
                    assert(key_before(acc[p].0, acc[q].0));
                    lemma_key_transitive(k, acc[p].0, k);
                    lemma_key_irreflexive(k);
                }
            }
        }
    }
    if v is Null {
        if here {
            assert forall|i: int| 0 <= i < r.len() implies #[trigger] r[i] == if i < p {
                acc[i]
            } else {
                acc[i + 1]
            } by {}
            assert forall|i: int, j: int| 0 <= i < j < r.len() implies key_before((#[trigger] r[i]).0, (#[trigger] r[j]).0) by {
                let a = if i < p { i } else { i + 1 };
                let b = if j < p { j } else { j + 1 };
                assert(r[i] == acc[a] && r[j] == acc[b]);
                assert(key_before(acc[a].0, acc[b].0));
            }
            assert forall|x: Seq<char>| has_key(r, x) == (has_key(acc, x) && x != k) by {
                if has_key(r, x) {
                    let i = choose|i: int| 0 <= i < r.len() && (#[trigger] r[i]).0 == x;
                    let a = if i < p { i } else { i + 1 };
                    assert(r[i] == acc[a]);
                    assert(has_key(acc, x));
                    if x == k {
                        if a < p {
                            assert(key_before(acc[a].0, acc[p].0));
                        } else {
                            assert(key_before(acc[p].0, acc[a].0));
                        }
                        lemma_key_irreflexive(k);
                    }
                }
                if has_key(acc, x) && x != k {
                    let j = choose|j: int| 0 <= j < acc.len() && (#[trigger] acc[j]).0 == x;
                    if j < p {
                        assert(r[j] == acc[j]);
                    } else {
                        assert(j > p);
                        assert(r[j - 1] == acc[j]);
                    }
                }
            }
            assert forall|x: Seq<char>| x != k && has_key(acc, x) implies value_at(r, x) == value_at(acc, x) by {
                let j = choose|j: int| 0 <= j < acc.len() && (#[trigger] acc[j]).0 == x;
                lemma_value_at(acc, j);
                if j < p {
                    assert(r[j] == acc[j]);
                    lemma_value_at(r, j);
                } else {
                    assert(j != p);
                    assert(r[j - 1] == acc[j]);
                    lemma_value_at(r, j - 1);
                }
            }
        } else {
        }
    } else if here {
        assert forall|i: int| 0 <= i < r.len() implies (#[trigger] r[i]).0 == acc[i].0 by {}
        assert forall|i: int, j: int| 0 <= i < j < r.len() implies key_before((#[trigger] r[i]).0, (#[trigger] r[j]).0) by {
            assert(key_before(acc[i].0, acc[j].0));
        }
        assert forall|x: Seq<char>| has_key(r, x) == has_key(acc, x) by {
            if has_key(r, x) {
                let i = choose|i: int| 0 <= i < r.len() && (#[trigger] r[i]).0 == x;
                assert(acc[i].0 == x);
            }
            if has_key(acc, x) {
                let j = choose|j: int| 0 <= j < acc.len() && (#[trigger] acc[j]).0 == x;
                assert(r[j].0 == x);
            }
        }
        assert forall|x: Seq<char>| x != k && has_key(acc, x) implies value_at(r, x) == value_at(acc, x) by {
            let j = choose|j: int| 0 <= j < acc.len() && (#[trigger] acc[j]).0 == x;
            lemma_value_at(acc, j);
            assert(j != p);
            assert(r[j] == acc[j]);
            lemma_value_at(r, j);
        }
        assert(r[p] == (k, merge_v(acc[p].1, v)));
        lemma_value_at(r, p);
    } else {
        assert forall|i: int| 0 <= i < r.len() implies #[trigger] r[i] == if i < p {
            acc[i]
        } else if i == p {
            (k, merge_v(JsonV::Null, v))
        } else {
            acc[i - 1]
        } by {}
        assert forall|j: int| 0 <= j < p implies key_before((#[trigger] acc[j]).0, k) by {
            assert(!(acc[j].0 == k || key_before(k, acc[j].0)));
            lemma_key_total(acc[j].0, k);
        }
        assert forall|j: int| p <= j < acc.len() implies key_before(k, (#[trigger] acc[j]).0) by {
            assert(key_before(k, acc[p].0));
            if j > p {
                assert(key_before(acc[p].0, acc[j].0));
                lemma_key_transitive(k, acc[p].0, acc[j].0);
            }
        }
        assert forall|i: int, j: int| 0 <= i < j < r.len() implies key_before((#[trigger] r[i]).0, (#[trigger] r[j]).0) by {
            if i < p && j < p {
                assert(key_before(acc[i].0, acc[j].0));
            } else if i < p && j == p {
            } else if i < p {
                assert(r[j] == acc[j - 1]);
                lemma_key_transitive(acc[i].0, k, acc[j - 1].0);
            } else if i == p {
                assert(r[j] == acc[j - 1]);
            } else {
                assert(r[i] == acc[i - 1] && r[j] == acc[j - 1]);
                assert(key_before(acc[i - 1].0, acc[j - 1].0));
            }
        }
        assert(r[p].0 == k);
        assert forall|x: Seq<char>| x != k implies has_key(r, x) == has_key(acc, x) by {
            if has_key(r, x) {
                let i = choose|i: int| 0 <= i < r.len() && (#[trigger] r[i]).0 == x;
                if i < p {
                    assert(acc[i].0 == x);
                } else {
                    assert(i != p);
                    assert(acc[i - 1].0 == x);
                }
            }
            if has_key(acc, x) {
                let j = choose|j: int| 0 <= j < acc.len() && (#[trigger] acc[j]).0 == x;
                if j < p {
                    assert(r[j].0 == x);
                } else {
                    assert(r[j + 1].0 == x);
                }
            }
        }
        assert forall|x: Seq<char>| x != k && has_key(acc, x) implies value_at(r, x) == value_at(acc, x) by {
            let j = choose|j: int| 0 <= j < acc.len() && (#[trigger] acc[j]).0 == x;
            lemma_value_at(acc, j);
            if j < p {
                assert(r[j] == acc[j]);
                lemma_value_at(r, j);
            } else {
                assert(r[j + 1] == acc[j]);
                lemma_value_at(r, j + 1);
            }
        }
        lemma_value_at(r, p);
    }
}

/// Applying the first `n` patch entries to sorted entries keeps them
/// sorted; a key is then present exactly where the last of those patch
/// entries with that key holds no `null`, or, where none has it, where it
/// was present before.
proof fn lemma_merge_entries_keys(base: Seq<(Seq<char>, JsonV)>, pe: Seq<(Seq<char>, JsonV)>, n: int)
    requires
        keys_sorted(base),
        0 <= n <= pe.len(),
    ensures
        keys_sorted(merge_entries(base, pe, n)),
        forall|x: Seq<char>|
            #[trigger] has_key(merge_entries(base, pe, n), x) == match patch_value(pe, n, x) {
                Some(v) => !(v is Null),
                None => has_key(base, x),
            },
        forall|x: Seq<char>|
            patch_value(pe, n, x) is None && has_key(base, x) ==> #[trigger] value_at(merge_entries(base, pe, n), x)
                == value_at(base, x),
        forall|x: Seq<char>|
            (patch_value(pe, n, x) matches Some(v) && !(v is Null) && !(v is Object)) ==> #[trigger] value_at(
                merge_entries(base, pe, n),
                x,
            ) == patch_value(pe, n, x)->0,
    decreases n,
{
    if n > 0 {
        lemma_merge_entries_keys(base, pe, n - 1);
        let acc = merge_entries(base, pe, n - 1);
        lemma_merge_step(acc, pe[n - 1].0, pe[n - 1].1, merge_entries(base, pe, n));
        let me = merge_entries(base, pe, n);
        assert forall|x: Seq<char>| patch_value(pe, n, x) is None && has_key(base, x) implies #[trigger] value_at(me, x)
            == value_at(base, x) by {
            assert(has_key(acc, x) == match patch_value(pe, n - 1, x) {
                Some(v) => !(v is Null),
                None => has_key(base, x),
            });
        }
        assert forall|x: Seq<char>|
            (patch_value(pe, n, x) matches Some(v) && !(v is Null) && !(v is Object)) implies #[trigger] value_at(me, x)
                == patch_value(pe, n, x)->0 by {
            if x != pe[n - 1].0 {
                assert(has_key(acc, x) == match patch_value(pe, n - 1, x) {
                    Some(v) => !(v is Null),
                    None => has_key(base, x),
                });
            }
        }
        assert forall|x: Seq<char>|
            #[trigger] has_key(merge_entries(base, pe, n), x) == match patch_value(pe, n, x) {
                Some(v) => !(v is Null),
                None => has_key(base, x),
            } by {
            if x != pe[n - 1].0 {
                assert(has_key(acc, x) == match patch_value(pe, n - 1, x) {
                    Some(v) => !(v is Null),
                    None => has_key(base, x),
                });
            }
        }
    }
}

/// What a JSON merge patch leaves (RFC 7386): merging an object patch into
/// a document whose object keys are in order gives an object, its keys in
/// order, where a key is present exactly when the patch gives it a value
/// other than `null`, or, where the patch does not name it, when the
/// document has it. So a `null` in the patch never leaves its key in the
/// result, whether the document had it or not. A key the patch does not
/// name keeps the document's value, and a key the patch gives a value that
/// is neither `null` nor an object gets that value.
pub proof fn law_merge_keys(doc: JsonV, patch: JsonV)
    requires
        patch is Object,
        doc is Object ==> keys_sorted(doc->Object_0),
    ensures
        ({
            let pe = patch->Object_0;
            let r = merge_v(doc, patch);
            &&& r is Object
            &&& keys_sorted(r->Object_0)
            &&& forall|k: Seq<char>|
                #[trigger] has_key(r->Object_0, k) == match patch_value(pe, pe.len() as int, k) {
                    Some(v) => !(v is Null),
                    None => doc is Object && has_key(doc->Object_0, k),
                }
            &&& forall|k: Seq<char>|
                patch_value(pe, pe.len() as int, k) is None && doc is Object && has_key(doc->Object_0, k)
                    ==> #[trigger] value_at(r->Object_0, k) == value_at(doc->Object_0, k)
            &&& forall|k: Seq<char>|
                (patch_value(pe, pe.len() as int, k) matches Some(v) && !(v is Null) && !(v is Object))
                    ==> #[trigger] value_at(r->Object_0, k) == patch_value(pe, pe.len() as int, k)->0
        }),
{
    let pe = patch->Object_0;
    let base = match doc {
        JsonV::Object(de) => de,
        _ => Seq::empty(),
    };
    lemma_merge_entries_keys(base, pe, pe.len() as int);
    assert forall|k: Seq<char>| !(doc is Object) implies !has_key(base, k) by {}
}

/// A merge patch that is no object replaces the document whole (RFC 7386).
pub proof fn law_merge_replaces(doc: JsonV, patch: JsonV)
    requires
        !(patch is Object),
    ensures
        merge_v(doc, patch) == patch,
{
}

} // verus!
