//! Ordered collections keyed by sequences of `u32`, compared lexicographically.
//!
//! A `SortedMap<K, V>` keeps its entries sorted by `K::key()` with no key
//! occurring twice; it stands in for the ordered maps and sets of the
//! configuration (profiles, snippets, detectors, tag sets).
use vstd::prelude::*;

verus! {

/// Result of comparing two keys.
#[derive(PartialEq, Eq, Clone, Copy, Debug)]
pub enum Cmp {
    Less,
    Equal,
    Greater,
}

/// Strict lexicographic order on key sequences (a proper prefix is smaller).
pub open spec fn lex_lt(a: Seq<u32>, b: Seq<u32>) -> bool
    decreases a.len(),
{
    if a.len() == 0 {
        b.len() > 0
    } else if b.len() == 0 {
        false
    } else if a[0] < b[0] {
        true
    } else if a[0] > b[0] {
        false
    } else {
        lex_lt(a.drop_first(), b.drop_first())
    }
}

/// No key is smaller than itself.
pub proof fn lemma_lex_irreflexive(a: Seq<u32>)
    ensures
        !lex_lt(a, a),
    decreases a.len(),
{
    if a.len() > 0 {
        lemma_lex_irreflexive(a.drop_first());
    }
}

/// The order is transitive.
pub proof fn lemma_lex_transitive(a: Seq<u32>, b: Seq<u32>, c: Seq<u32>)
    requires
        lex_lt(a, b),
        lex_lt(b, c),
    ensures
        lex_lt(a, c),
    decreases a.len(),
{
    if a.len() > 0 && b.len() > 0 && c.len() > 0 && a[0] == b[0] && b[0] == c[0] {
        lemma_lex_transitive(a.drop_first(), b.drop_first(), c.drop_first());
    }
}

/// Any two distinct keys are ordered one way or the other.
pub proof fn lemma_lex_total(a: Seq<u32>, b: Seq<u32>)
    ensures
        a == b || lex_lt(a, b) || lex_lt(b, a),
    decreases a.len(),
{
    if a.len() > 0 && b.len() > 0 && a[0] == b[0] {
        lemma_lex_total(a.drop_first(), b.drop_first());
        if a.drop_first() == b.drop_first() {
            assert(a =~= seq![a[0]] + a.drop_first());
            assert(b =~= seq![b[0]] + b.drop_first());
        }
    } else if a.len() == 0 && b.len() == 0 {
        assert(a =~= b);
    }
}

proof fn lemma_lex_skip(a: Seq<u32>, b: Seq<u32>, i: int)
    requires
        0 <= i <= a.len(),
        i <= b.len(),
        a.take(i) == b.take(i),
    ensures
        lex_lt(a, b) == lex_lt(a.skip(i), b.skip(i)),
        (a == b) == (a.skip(i) == b.skip(i)),
    decreases i,
{
    if i == 0 {
        assert(a.skip(0) =~= a);
        assert(b.skip(0) =~= b);
    } else {
        assert(a[0] == a.take(i)[0]);
        assert(b[0] == b.take(i)[0]);
        assert(a.drop_first().take(i - 1) =~= a.take(i).drop_first());
        assert(b.drop_first().take(i - 1) =~= b.take(i).drop_first());
        lemma_lex_skip(a.drop_first(), b.drop_first(), i - 1);
        assert(a.drop_first().skip(i - 1) =~= a.skip(i));
        assert(b.drop_first().skip(i - 1) =~= b.skip(i));
        if a.drop_first() == b.drop_first() {
            assert(a =~= seq![a[0]] + a.drop_first());
            assert(b =~= seq![b[0]] + b.drop_first());
        }
    }
}

/// Three-way comparison of two keys.
pub fn compare_keys(a: &Vec<u32>, b: &Vec<u32>) -> (r: Cmp)
    ensures
        r == Cmp::Less <==> lex_lt(a@, b@),
        r == Cmp::Equal <==> a@ == b@,
        r == Cmp::Greater <==> lex_lt(b@, a@),
{
    proof {
        lemma_lex_irreflexive(a@);
    }
    let mut i: usize = 0;
    while i < a.len() && i < b.len()
        invariant
            i <= a.len(),
            i <= b.len(),
            a@.take(i as int) == b@.take(i as int),
        decreases a.len() - i,
    {
        if a[i] < b[i] {
            proof {
                lemma_lex_skip(a@, b@, i as int);
                lemma_lex_skip(b@, a@, i as int);
            }
            return Cmp::Less;
        } else if a[i] > b[i] {
            proof {
                lemma_lex_skip(a@, b@, i as int);
                lemma_lex_skip(b@, a@, i as int);
            }
            return Cmp::Greater;
        }
        assert(a@.take(i + 1) =~= a@.take(i as int).push(a@[i as int]));
        assert(b@.take(i + 1) =~= b@.take(i as int).push(b@[i as int]));
        i = i + 1;
    }
    proof {
        lemma_lex_skip(a@, b@, i as int);
        lemma_lex_skip(b@, a@, i as int);
    }
    if a.len() < b.len() {
        Cmp::Less
    } else if a.len() > b.len() {
        Cmp::Greater
    } else {
        assert(a@.skip(i as int) =~= b@.skip(i as int));
        Cmp::Equal
    }
}

/// A value that has an ordering key.
pub trait Keyed: Sized {
    /// The key by which values of this type are ordered and found.
    spec fn key(&self) -> Seq<u32>;

    /// Computes the key.
    fn make_key(&self) -> (r: Vec<u32>)
        ensures
            r@ == self.key(),
    ;
}

/// A value that can be duplicated exactly.
pub trait Dup: Sized {
    /// An equal copy.
    fn dup(&self) -> (r: Self)
        ensures
            r == *self,
    ;
}

impl Dup for String {
    fn dup(&self) -> (r: Self) {
        self.clone()
    }
}

impl Dup for () {
    fn dup(&self) -> (r: Self) {
    }
}

impl Keyed for String {
    open spec fn key(&self) -> Seq<u32> {
        crate::text::chars_key(self@)
    }

    fn make_key(&self) -> (r: Vec<u32>) {
        crate::text::key_of_str(self.as_str())
    }
}

/// Entries sorted by key, each key once.
#[derive(Debug)]
pub struct SortedMap<K, V> {
    keys: Vec<K>,
    vals: Vec<V>,
}

impl<K: Keyed, V> SortedMap<K, V> {
    /// The keys, in order.
    pub closed spec fn keys(&self) -> Seq<K> {
        self.keys@
    }

    /// The values, in the order of their keys.
    pub closed spec fn vals(&self) -> Seq<V> {
        self.vals@
    }

    /// The ordering key of the `i`-th entry.
    pub open spec fn key_at(&self, i: int) -> Seq<u32> {
        self.keys()[i].key()
    }

    /// Number of entries.
    pub open spec fn size(&self) -> nat {
        self.keys().len()
    }

    /// Well-formedness: as many values as keys, keys strictly ascending.
    pub open spec fn wf(&self) -> bool {
        &&& self.keys().len() == self.vals().len()
        &&& forall|i: int, j: int|
            0 <= i < j < self.keys().len() ==> lex_lt(#[trigger] self.key_at(i), #[trigger] self.key_at(j))
    }

    /// Whether some entry has ordering key `k`.
    pub open spec fn has_key(&self, k: Seq<u32>) -> bool {
        exists|i: int| 0 <= i < self.keys().len() && #[trigger] self.key_at(i) == k
    }

    /// The position of the entry with ordering key `k`.
    pub open spec fn index_of(&self, k: Seq<u32>) -> int {
        choose|i: int| 0 <= i < self.keys().len() && #[trigger] self.key_at(i) == k
    }

    /// The value stored under ordering key `k`.
    pub open spec fn lookup(&self, k: Seq<u32>) -> Option<V> {
        if self.has_key(k) {
            Some(self.vals()[self.index_of(k)])
        } else {
            None
        }
    }

    /// The key object stored under ordering key `k`.
    pub open spec fn key_obj(&self, k: Seq<u32>) -> K {
        self.keys()[self.index_of(k)]
    }

    /// In a well-formed map an ordering key sits at exactly one position.
    pub proof fn lemma_index_of(&self, i: int)
        requires
            self.wf(),
            0 <= i < self.keys().len(),
        ensures
            self.has_key(self.key_at(i)),
            self.index_of(self.key_at(i)) == i,
    {
        let k = self.key_at(i);
        assert(self.has_key(k));
        let j = self.index_of(k);
        if j != i {
            lemma_lex_irreflexive(k);
            if j < i {
                assert(lex_lt(self.key_at(j), self.key_at(i)));
            } else {
                assert(lex_lt(self.key_at(i), self.key_at(j)));
            }
        }
    }

    /// Two well-formed maps with the same keys find every key at the same place.
    pub proof fn lemma_same_keys(&self, other: &Self)
        requires
            self.wf(),
            other.wf(),
            self.keys() == other.keys(),
        ensures
            forall|k: Seq<u32>| #[trigger] self.has_key(k) == other.has_key(k),
            forall|k: Seq<u32>| self.has_key(k) ==> #[trigger] self.index_of(k) == other.index_of(k),
            forall|k: Seq<u32>| self.has_key(k) ==> #[trigger] self.key_obj(k) == other.key_obj(k),
    {
        assert forall|k: Seq<u32>| #[trigger] self.has_key(k) == other.has_key(k) by {
            if self.has_key(k) {
                let i = self.index_of(k);
                assert(other.key_at(i) == k);
            }
            if other.has_key(k) {
                let i = other.index_of(k);
                assert(self.key_at(i) == k);
            }
        }
        assert forall|k: Seq<u32>| self.has_key(k) implies #[trigger] self.index_of(k) == other.index_of(k) by {
            let i = self.index_of(k);
            self.lemma_index_of(i);
            other.lemma_index_of(i);
        }
        assert forall|k: Seq<u32>| self.has_key(k) implies #[trigger] self.key_obj(k) == other.key_obj(k) by {
            assert(self.index_of(k) == other.index_of(k));
        }
    }

    /// An empty map.
    pub fn new() -> (r: Self)
        ensures
            r.wf(),
            r.keys() == Seq::<K>::empty(),
            r.vals() == Seq::<V>::empty(),
    {
        SortedMap { keys: Vec::new(), vals: Vec::new() }
    }

    /// Number of entries.
    pub fn len(&self) -> (r: usize)
        requires
            self.wf(),
        ensures
            r == self.keys().len(),
    {
        self.keys.len()
    }

    /// Whether the map has no entry.
    pub fn is_empty(&self) -> (r: bool)
        requires
            self.wf(),
        ensures
            r == (self.keys().len() == 0),
    {
        self.keys.len() == 0
    }

    /// The `i`-th key.
    pub fn key(&self, i: usize) -> (r: &K)
        requires
            i < self.keys().len(),
        ensures
            *r == self.keys()[i as int],
    {
        &self.keys[i]
    }

    /// The `i`-th value.
    pub fn val(&self, i: usize) -> (r: &V)
        requires
            self.wf(),
            i < self.keys().len(),
        ensures
            *r == self.vals()[i as int],
    {
        &self.vals[i]
    }

    /// Locates an ordering key: `Ok(position)` where present, else
    /// `Err(position where it would be inserted)`.
    pub fn find(&self, key: &Vec<u32>) -> (r: Result<usize, usize>)
        requires
            self.wf(),
        ensures
            match r {
                Ok(i) => i < self.keys().len() && self.key_at(i as int) == key@ && self.has_key(
                    key@,
                ) && self.index_of(key@) == i,
                Err(p) => {
                    &&& p <= self.keys().len()
                    &&& !self.has_key(key@)
                    &&& forall|j: int| 0 <= j < p ==> lex_lt(#[trigger] self.key_at(j), key@)
                    &&& forall|j: int|
                        p <= j < self.keys().len() ==> lex_lt(key@, #[trigger] self.key_at(j))
                },
            },
    {
        let n = self.keys.len();
        let mut i: usize = 0;
        while i < n
            invariant
                self.wf(),
                n == self.keys().len(),
                i <= n,
                forall|j: int| 0 <= j < i ==> lex_lt(#[trigger] self.key_at(j), key@),
            decreases n - i,
        {
            let ki = self.keys[i].make_key();
            match compare_keys(&ki, key) {
                Cmp::Less => {
                    i = i + 1;
                },
                Cmp::Equal => {
                    proof {
                        self.lemma_index_of(i as int);
                    }
                    return Ok(i);
                },
                Cmp::Greater => {
                    assert forall|j: int| i <= j < n implies lex_lt(key@, #[trigger] self.key_at(j)) by {
                        if j > i {
                            lemma_lex_transitive(key@, self.key_at(i as int), self.key_at(j));
                        }
                    }
                    proof {
                        self.lemma_absent(key@, i as int);
                    }
                    return Err(i);
                },
            }
        }
        proof {
            self.lemma_absent(key@, n as int);
        }
        Err(n)
    }

    proof fn lemma_absent(&self, k: Seq<u32>, p: int)
        requires
            0 <= p <= self.keys().len(),
            forall|j: int| 0 <= j < p ==> lex_lt(#[trigger] self.key_at(j), k),
            forall|j: int| p <= j < self.keys().len() ==> lex_lt(k, #[trigger] self.key_at(j)),
        ensures
            !self.has_key(k),
    {
        if self.has_key(k) {
            let j = self.index_of(k);
            lemma_lex_irreflexive(k);
            if j < p {
                assert(lex_lt(self.key_at(j), k));
            } else {
                assert(lex_lt(k, self.key_at(j)));
            }
        }
    }

    /// The value stored under an ordering key.
    pub fn get(&self, key: &Vec<u32>) -> (r: Option<&V>)
        requires
            self.wf(),
        ensures
            match r {
                Some(v) => self.lookup(key@) == Some(*v),
                None => self.lookup(key@) is None,
            },
    {
        match self.find(key) {
            Ok(i) => Some(&self.vals[i]),
            Err(_) => None,
        }
    }

    /// Whether an entry has this ordering key.
    pub fn contains_key(&self, key: &Vec<u32>) -> (r: bool)
        requires
            self.wf(),
        ensures
            r == self.has_key(key@),
    {
        match self.find(key) {
            Ok(_) => true,
            Err(_) => false,
        }
    }

    /// Inserts `v` under the key of `k`. Where an entry with that key exists
    /// its value is replaced and its key object kept (as `BTreeMap::insert`);
    /// otherwise `(k, v)` is added in order. Returns whether the key was new.
    pub fn insert(&mut self, k: K, v: V) -> (r: bool)
        requires
            old(self).wf(),
        ensures
            final(self).wf(),
            r == !old(self).has_key(k.key()),
            final(self).lookup(k.key()) == Some(v),
            forall|kk: Seq<u32>|
                #![trigger final(self).has_key(kk)]
                final(self).has_key(kk) == (old(self).has_key(kk) || kk == k.key()),
            forall|kk: Seq<u32>|
                kk != k.key() ==> #[trigger] final(self).lookup(kk) == old(self).lookup(kk),
            forall|kk: Seq<u32>|
                old(self).has_key(kk) ==> #[trigger] final(self).key_obj(kk) == old(self).key_obj(
                    kk,
                ),
            !old(self).has_key(k.key()) ==> final(self).key_obj(k.key()) == k,
            old(self).has_key(k.key()) ==> final(self).keys() == old(self).keys(),
            final(self).keys().len() == old(self).keys().len() + (if old(self).has_key(k.key()) {
                0int
            } else {
                1int
            }),
    {
        let key = k.make_key();
        match self.find(&key) {
            Ok(i) => {
                let ghost pre = *self;
                self.vals.set(i, v);
                proof {
                    assert(self.keys() == pre.keys());
                    assert(self.vals().len() == pre.vals().len());
                    assert forall|a: int, b: int|
                        0 <= a < b < self.keys().len() implies lex_lt(
                        #[trigger] self.key_at(a),
                        #[trigger] self.key_at(b),
                    ) by {
                        assert(lex_lt(pre.key_at(a), pre.key_at(b)));
                    }
                    assert(self.wf());
                    assert forall|kk: Seq<u32>| #[trigger] self.has_key(kk) == pre.has_key(kk) by {
                        if self.has_key(kk) {
                            let j = self.index_of(kk);
                            assert(pre.key_at(j) == kk);
                        }
                        if pre.has_key(kk) {
                            let j = pre.index_of(kk);
                            assert(self.key_at(j) == kk);
                        }
                    }
                    assert forall|kk: Seq<u32>| kk != key@ implies #[trigger] self.lookup(kk)
                        == pre.lookup(kk) by {
                        if pre.has_key(kk) {
                            let j = pre.index_of(kk);
                            pre.lemma_index_of(j);
                            self.lemma_index_of(j);
                        }
                    }
                    assert forall|kk: Seq<u32>| pre.has_key(kk) implies #[trigger] self.key_obj(kk)
                        == pre.key_obj(kk) by {
                        let j = pre.index_of(kk);
                        pre.lemma_index_of(j);
                        self.lemma_index_of(j);
                    }
                    self.lemma_index_of(i as int);
                }
                false
            },
            Err(p) => {
                let ghost pre = *self;
                self.keys.insert(p, k);
                self.vals.insert(p, v);
                proof {
                    assert(self.keys() == pre.keys().insert(p as int, k));
                    assert(self.vals() == pre.vals().insert(p as int, v));
                    assert forall|i: int, j: int|
                        0 <= i < j < self.keys().len() implies lex_lt(
                        #[trigger] self.key_at(i),
                        #[trigger] self.key_at(j),
                    ) by {
                        let ki = if i < p { pre.key_at(i) } else if i == p { key@ } else { pre.key_at(i - 1) };
                        let kj = if j < p { pre.key_at(j) } else if j == p { key@ } else { pre.key_at(j - 1) };
                        assert(self.key_at(i) == ki);
                        assert(self.key_at(j) == kj);
                        if i < p && j < p {
                            assert(lex_lt(pre.key_at(i), pre.key_at(j)));
                        } else if i < p && j == p {
                            assert(lex_lt(pre.key_at(i), key@));
                        } else if i < p && j > p {
                            assert(lex_lt(pre.key_at(i), pre.key_at(j - 1)));
                        } else if i == p {
                            assert(lex_lt(key@, pre.key_at(j - 1)));
                        } else {
                            assert(lex_lt(pre.key_at(i - 1), pre.key_at(j - 1)));
                        }
                    }
                    assert(self.key_at(p as int) == key@);
                    self.lemma_index_of(p as int);
                    assert forall|kk: Seq<u32>| #[trigger] self.has_key(kk) == (pre.has_key(kk)
                        || kk == key@) by {
                        if self.has_key(kk) {
                            let j = self.index_of(kk);
                            if j < p {
                                assert(pre.key_at(j) == kk);
                            } else if j > p {
                                assert(pre.key_at(j - 1) == kk);
                            }
                        }
                        if pre.has_key(kk) {
                            let j = pre.index_of(kk);
                            if j < p {
                                assert(self.key_at(j) == kk);
                            } else {
                                assert(self.key_at(j + 1) == kk);
                            }
                        }
                    }
                    assert forall|kk: Seq<u32>| pre.has_key(kk) implies (#[trigger] self.key_obj(kk)
                        == pre.key_obj(kk) && self.lookup(kk) == pre.lookup(kk)) by {
                        let j = pre.index_of(kk);
                        pre.lemma_index_of(j);
                        if j < p {
                            self.lemma_index_of(j);
                        } else {
                            self.lemma_index_of(j + 1);
                        }
                    }
                    assert forall|kk: Seq<u32>| kk != key@ implies #[trigger] self.lookup(kk)
                        == pre.lookup(kk) by {
                        if pre.has_key(kk) {
                            assert(self.key_obj(kk) == pre.key_obj(kk));
                        }
                    }
                }
                true
            },
        }
    }
}

impl<K: Keyed + Dup, V: Dup> SortedMap<K, V> {
    /// An equal copy of the map.
    pub fn dup_map(&self) -> (r: Self)
        requires
            self.wf(),
        ensures
            r.wf(),
            r.keys() == self.keys(),
            r.vals() == self.vals(),
    {
        let mut keys: Vec<K> = Vec::new();
        let mut vals: Vec<V> = Vec::new();
        let n = self.keys.len();
        let mut i: usize = 0;
        while i < n
            invariant
                self.wf(),
                n == self.keys().len(),
                i <= n,
                keys@ == self.keys().take(i as int),
                vals@ == self.vals().take(i as int),
            decreases n - i,
        {
            keys.push(self.keys[i].dup());
            vals.push(self.vals[i].dup());
            assert(self.keys().take(i + 1) =~= self.keys().take(i as int).push(self.keys()[i as int]));
            assert(self.vals().take(i + 1) =~= self.vals().take(i as int).push(self.vals()[i as int]));
            i = i + 1;
        }
        assert(self.keys().take(n as int) =~= self.keys());
        assert(self.vals().take(n as int) =~= self.vals());
        let r = SortedMap { keys, vals };
        assert forall|a: int, b: int|
            0 <= a < b < r.keys().len() implies lex_lt(#[trigger] r.key_at(a), #[trigger] r.key_at(b)) by {
            assert(lex_lt(self.key_at(a), self.key_at(b)));
        }
        r
    }
}

impl<V> SortedMap<String, V> {
    /// The value stored under a string key.
    pub fn get_str(&self, s: &str) -> (r: Option<&V>)
        requires
            self.wf(),
        ensures
            match r {
                Some(v) => self.lookup(crate::text::chars_key(s@)) == Some(*v),
                None => self.lookup(crate::text::chars_key(s@)) is None,
            },
    {
        let key = crate::text::key_of_str(s);
        self.get(&key)
    }

    /// Whether a string key is present.
    pub fn contains_str(&self, s: &str) -> (r: bool)
        requires
            self.wf(),
        ensures
            r == self.has_key(crate::text::chars_key(s@)),
    {
        let key = crate::text::key_of_str(s);
        self.contains_key(&key)
    }
}

/// Adds every key of `src` to the set `dst`; keys already in `dst` keep their
/// stored object (as `BTreeSet::extend`).
pub fn extend_set<K: Keyed + Dup>(dst: &mut SortedMap<K, ()>, src: &SortedMap<K, ()>)
    requires
        old(dst).wf(),
        src.wf(),
    ensures
        final(dst).wf(),
        forall|k: Seq<u32>|
            #![trigger final(dst).has_key(k)]
            final(dst).has_key(k) == (old(dst).has_key(k) || src.has_key(k)),
        forall|k: Seq<u32>|
            old(dst).has_key(k) ==> #[trigger] final(dst).key_obj(k) == old(dst).key_obj(k),
        forall|k: Seq<u32>|
            !old(dst).has_key(k) && src.has_key(k) ==> #[trigger] final(dst).key_obj(k)
                == src.key_obj(k),
{
    let n = src.len();
    let mut i: usize = 0;
    while i < n
        invariant
            dst.wf(),
            src.wf(),
            n == src.keys().len(),
            i <= n,
            forall|k: Seq<u32>|
                #![trigger dst.has_key(k)]
                dst.has_key(k) == (old(dst).has_key(k) || exists|j: int|
                    0 <= j < i && #[trigger] src.key_at(j) == k),
            forall|k: Seq<u32>|
                old(dst).has_key(k) ==> #[trigger] dst.key_obj(k) == old(dst).key_obj(k),
            forall|j: int|
                0 <= j < i && !old(dst).has_key(#[trigger] src.key_at(j)) ==> dst.key_obj(
                    src.key_at(j),
                ) == src.keys()[j],
        decreases n - i,
    {
        let t = src.key(i).dup();
        let ghost before = *dst;
        dst.insert(t, ());
        assert forall|k: Seq<u32>| #![trigger dst.has_key(k)] dst.has_key(k) == (old(dst).has_key(k)
            || exists|j: int| 0 <= j < i + 1 && #[trigger] src.key_at(j) == k) by {
            if exists|j: int| 0 <= j < i + 1 && #[trigger] src.key_at(j) == k {
                let j = choose|j: int| 0 <= j < i + 1 && #[trigger] src.key_at(j) == k;
                if j < i {
                    assert(before.has_key(k));
                }
            }
            if before.has_key(k) && !old(dst).has_key(k) {
                let j = choose|j: int| 0 <= j < i && #[trigger] src.key_at(j) == k;
                assert(0 <= j < i + 1 && src.key_at(j) == k);
            }
            if k == t.key() {
                assert(src.key_at(i as int) == k);
            }
        }
        assert forall|j: int|
            0 <= j < i + 1 && !old(dst).has_key(#[trigger] src.key_at(j)) implies dst.key_obj(
            src.key_at(j),
        ) == src.keys()[j] by {
            if j < i {
                assert(before.has_key(src.key_at(j)));
            } else {
                if before.has_key(src.key_at(j)) {
                    let m = choose|m: int| 0 <= m < i && #[trigger] src.key_at(m) == src.key_at(j);
                    src.lemma_index_of(m);
                    src.lemma_index_of(j);
                }
            }
        }
        i = i + 1;
    }
    assert forall|k: Seq<u32>| #![trigger dst.has_key(k)] dst.has_key(k) == (old(dst).has_key(k)
        || src.has_key(k)) by {
        if src.has_key(k) {
            let j = src.index_of(k);
            assert(src.key_at(j) == k);
        }
    }
    assert forall|k: Seq<u32>|
        !old(dst).has_key(k) && src.has_key(k) implies #[trigger] dst.key_obj(k) == src.key_obj(k) by {
        let j = src.index_of(k);
        assert(src.key_at(j) == k);
    }
}

} // verus!
