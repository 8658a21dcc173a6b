//! A map keyed by text, kept sorted by key.
//!
//! The state's tables (statuses, E.G.O resources, time Stacks, a Skill's
//! Uptie tiers) are keyed by names; they are iterated in key order, the order
//! of a `BTreeMap<String, _>`, i.e. lexicographic by code point.

use vstd::prelude::*;
use crate::text::chars_of;

verus! {

/// Lexicographic order on character sequences (by code point); this is the
/// order of Rust's `str`/`String` comparison.
pub open spec fn lex_lt(a: Seq<char>, b: Seq<char>) -> bool
    decreases a.len(),
{
    if a.len() == 0 {
        b.len() > 0
    } else if b.len() == 0 {
        false
    } else if a[0] != b[0] {
        a[0] < b[0]
    } else {
        lex_lt(a.drop_first(), b.drop_first())
    }
}

pub proof fn lemma_lex_irreflexive(a: Seq<char>)
    ensures
        !lex_lt(a, a),
    decreases a.len(),
{
    if a.len() > 0 {
        lemma_lex_irreflexive(a.drop_first());
    }
}

pub proof fn lemma_lex_transitive(a: Seq<char>, b: Seq<char>, c: Seq<char>)
    requires
        lex_lt(a, b),
        lex_lt(b, c),
    ensures
        lex_lt(a, c),
    decreases a.len(),
{
    if a.len() > 0 && b.len() > 0 && c.len() > 0 {
        if a[0] == b[0] && b[0] == c[0] {
            lemma_lex_transitive(a.drop_first(), b.drop_first(), c.drop_first());
        }
    }
}

pub proof fn lemma_lex_total(a: Seq<char>, b: Seq<char>)
    requires
        a != b,
    ensures
        lex_lt(a, b) || lex_lt(b, a),
    decreases a.len(),
{
    if a.len() > 0 && b.len() > 0 && a[0] == b[0] {
        if a.drop_first() == b.drop_first() {
            assert(a =~= seq![a[0]] + a.drop_first());
            assert(b =~= seq![b[0]] + b.drop_first());
        }
        lemma_lex_total(a.drop_first(), b.drop_first());
    } else if a.len() == 0 && b.len() == 0 {
        assert(a =~= b);
    } else if a.len() > 0 && b.len() > 0 {
    }
}

pub proof fn lemma_lex_asymmetric(a: Seq<char>, b: Seq<char>)
    requires
        lex_lt(a, b),
    ensures
        !lex_lt(b, a),
{
    if lex_lt(b, a) {
        lemma_lex_transitive(a, b, a);
        lemma_lex_irreflexive(a);
    }
}

proof fn lemma_lex_suffix(a: Seq<char>, b: Seq<char>, i: int)
    requires
        0 <= i < a.len(),
        i < b.len(),
        a[i] == b[i],
    ensures
        lex_lt(a.subrange(i, a.len() as int), b.subrange(i, b.len() as int)) == lex_lt(
            a.subrange(i + 1, a.len() as int),
            b.subrange(i + 1, b.len() as int),
        ),
{
    let sa = a.subrange(i, a.len() as int);
    let sb = b.subrange(i, b.len() as int);
    assert(sa.drop_first() =~= a.subrange(i + 1, a.len() as int));
    assert(sb.drop_first() =~= b.subrange(i + 1, b.len() as int));
}

/// Three-way comparison of two character sequences: negative, zero or
/// positive as `a` sorts before, equal to, or after `b`.
pub fn compare_chars(a: &Vec<char>, b: &Vec<char>) -> (r: i8)
    ensures
        (r < 0) == lex_lt(a@, b@),
        (r == 0) == (a@ == b@),
        (r > 0) == lex_lt(b@, a@),
{
    let mut i: usize = 0;
    assert(a@.subrange(0, a@.len() as int) =~= a@);
    assert(b@.subrange(0, b@.len() as int) =~= b@);
    while i < a.len() && i < b.len() && a[i] == b[i]
        invariant
            i <= a@.len(),
            i <= b@.len(),
            forall|j: int| 0 <= j < i ==> a@[j] == b@[j],
            lex_lt(a@, b@) == lex_lt(
                a@.subrange(i as int, a@.len() as int),
                b@.subrange(i as int, b@.len() as int),
            ),
            lex_lt(b@, a@) == lex_lt(
                b@.subrange(i as int, b@.len() as int),
                a@.subrange(i as int, a@.len() as int),
            ),
        decreases a.len() - i,
    {
        proof {
            lemma_lex_suffix(a@, b@, i as int);
            lemma_lex_suffix(b@, a@, i as int);
        }
        i = i + 1;
    }
    let ghost sa = a@.subrange(i as int, a@.len() as int);
    let ghost sb = b@.subrange(i as int, b@.len() as int);
    if i == a.len() && i == b.len() {
        assert(a@ =~= b@);
        proof {
            lemma_lex_irreflexive(a@);
        }
        0
    } else if i == a.len() {
        assert(sa.len() == 0 && sb.len() > 0);
        assert(a@ != b@);
        proof {
            lemma_lex_asymmetric(a@, b@);
        }
        1 - 2
    } else if i == b.len() {
        assert(sb.len() == 0 && sa.len() > 0);
        assert(a@ != b@);
        proof {
            lemma_lex_asymmetric(b@, a@);
        }
        1
    } else {
        assert(sa[0] == a@[i as int] && sb[0] == b@[i as int]);
        assert(a@[i as int] != b@[i as int]);
        assert(a@ != b@);
        if a[i] < b[i] {
            proof {
                lemma_lex_asymmetric(a@, b@);
            }
            1 - 2
        } else {
            proof {
                lemma_lex_asymmetric(b@, a@);
            }
            1
        }
    }
}

/// A map from text keys to values, sorted by key.
#[derive(Clone, Debug)]
pub struct StrMap<V> {
    pub(crate) entries: Vec<(String, V)>,
}

impl<V> StrMap<V> {
    /// The key of entry `i`.
    pub closed spec fn key_at(&self, i: int) -> Seq<char> {
        self.entries@[i].0@
    }

    /// The value of entry `i`.
    pub closed spec fn value_at(&self, i: int) -> V {
        self.entries@[i].1
    }

    /// Number of entries.
    pub closed spec fn count(&self) -> nat {
        self.entries@.len()
    }

    /// Keys strictly increasing: the map has no duplicate key.
    pub closed spec fn wf(&self) -> bool {
        forall|i: int, j: int|
            0 <= i < j < self.entries@.len() ==> lex_lt(#[trigger] self.key_at(i), #[trigger] self.key_at(j))
    }

    /// Does some entry hold key `k`?
    pub closed spec fn has(&self, k: Seq<char>) -> bool {
        exists|i: int| 0 <= i < self.entries@.len() && self.key_at(i) == k
    }

    /// The index of the entry holding `k`.
    pub closed spec fn index_of(&self, k: Seq<char>) -> int {
        choose|i: int| 0 <= i < self.entries@.len() && self.key_at(i) == k
    }

    /// The keys in order.
    pub closed spec fn key_seq(&self) -> Seq<Seq<char>> {
        Seq::new(self.entries@.len(), |i: int| self.key_at(i))
    }

    pub closed spec fn len_spec(&self) -> nat {
        self.entries@.len()
    }

    /// The values in key order.
    pub closed spec fn value_seq(&self) -> Seq<V> {
        Seq::new(self.entries@.len(), |i: int| self.value_at(i))
    }
}

impl<V> View for StrMap<V> {
    type V = Map<Seq<char>, V>;

    open spec fn view(&self) -> Map<Seq<char>, V> {
        Map::new(|k: Seq<char>| self.has(k), |k: Seq<char>| self.value_at(self.index_of(k)))
    }
}

impl<V> StrMap<V> {
    pub proof fn lemma_unique(&self, i: int, j: int)
        requires
            self.wf(),
            0 <= i < self.count(),
            0 <= j < self.count(),
            self.key_at(i) == self.key_at(j),
        ensures
            i == j,
    {
        if i < j {
            lemma_lex_irreflexive(self.key_at(i));
        } else if j < i {
            lemma_lex_irreflexive(self.key_at(i));
        }
    }

    /// Entry `i` is what the view holds for its key.
    pub proof fn lemma_entry(&self, i: int)
        requires
            self.wf(),
            0 <= i < self.count(),
        ensures
            self@.contains_key(self.key_at(i)),
            self@[self.key_at(i)] == self.value_at(i),
            self.index_of(self.key_at(i)) == i,
    {
        let k = self.key_at(i);
        assert(self.has(k));
        let j = self.index_of(k);
        self.lemma_unique(i, j);
    }

    /// A key of the view is held by the entry at `index_of`.
    pub proof fn lemma_key_index(&self, k: Seq<char>)
        requires
            self.wf(),
            self@.contains_key(k),
        ensures
            0 <= self.index_of(k) < self.count(),
            self.key_at(self.index_of(k)) == k,
            self@[k] == self.value_at(self.index_of(k)),
    {
    }

    /// The ordered sequences agree with the entries.
    pub proof fn lemma_seqs(&self)
        ensures
            self.key_seq().len() == self.count(),
            self.value_seq().len() == self.count(),
            forall|i: int| 0 <= i < self.count() ==> #[trigger] self.key_seq()[i] == self.key_at(i),
            forall|i: int| 0 <= i < self.count() ==> #[trigger] self.value_seq()[i] == self.value_at(i),
    {
    }

    pub fn new() -> (m: Self)
        ensures
            m.wf(),
            m@ == Map::<Seq<char>, V>::empty(),
            m.len_spec() == 0,
    {
        let m = StrMap { entries: Vec::new() };
        assert(m@ =~= Map::<Seq<char>, V>::empty());
        m
    }

    pub fn len(&self) -> (n: usize)
        requires
            self.wf(),
        ensures
            n == self@.len(),
            n == self.len_spec(),
    {
        proof {
            self.lemma_len();
        }
        self.entries.len()
    }

    pub proof fn lemma_len(&self)
        requires
            self.wf(),
        ensures
            self@.dom().finite(),
            self@.len() == self.count(),
            self@.dom() == self.key_seq().to_set(),
            self.key_seq().no_duplicates(),
    {
        let ks = self.key_seq();
        assert forall|i: int, j: int| 0 <= i < ks.len() && 0 <= j < ks.len() && i != j implies ks[i]
            != ks[j] by {
            if ks[i] == ks[j] {
                self.lemma_unique(i, j);
            }
        }
        assert(self@.dom() =~= ks.to_set()) by {
            assert forall|k: Seq<char>| self@.dom().contains(k) implies ks.to_set().contains(k) by {
                let i = self.index_of(k);
                assert(ks[i] == k);
            }
            assert forall|k: Seq<char>| ks.to_set().contains(k) implies self@.dom().contains(k) by {
                let i = choose|i: int| 0 <= i < ks.len() && ks[i] == k;
                assert(self.key_at(i) == k);
            }
        }
        ks.unique_seq_to_set();
    }

    /// Keys in strictly increasing order.
    pub proof fn lemma_sorted(&self)
        requires
            self.wf(),
        ensures
            forall|i: int, j: int|
                0 <= i < j < self.count() ==> lex_lt(#[trigger] self.key_at(i), #[trigger] self.key_at(j)),
    {
    }

    pub fn is_empty(&self) -> (b: bool)
        requires
            self.wf(),
        ensures
            b == (self@.len() == 0),
            b == (self@ == Map::<Seq<char>, V>::empty()),
    {
        proof {
            self.lemma_len();
            if self.count() > 0 {
                self.lemma_entry(0);
            }
            if self.count() == 0 {
                assert(self@ =~= Map::<Seq<char>, V>::empty());
            }
        }
        self.entries.len() == 0
    }

    /// Position of `key`: `Ok(i)` when entry `i` holds it, otherwise `Err(i)`
    /// with `i` the place it would be inserted at.
    pub fn locate(&self, key: &str) -> (r: Result<usize, usize>)
        requires
            self.wf(),
        ensures
            match r {
                Ok(i) => i < self.count() && self.key_at(i as int) == key@,
                Err(i) => {
                    &&& i <= self.count()
                    &&& !self.has(key@)
                    &&& forall|j: int| 0 <= j < i ==> lex_lt(#[trigger] self.key_at(j), key@)
                    &&& forall|j: int|
                        i <= j < self.count() ==> lex_lt(key@, #[trigger] self.key_at(j))
                },
            },
    {
        let k = chars_of(key);
        let mut i: usize = 0;
        while i < self.entries.len()
            invariant
                self.wf(),
                k@ == key@,
                i <= self.count(),
                forall|j: int| 0 <= j < i ==> lex_lt(#[trigger] self.key_at(j), key@),
            decreases self.entries.len() - i,
        {
            let e = chars_of(self.entries[i].0.as_str());
            let c = compare_chars(&e, &k);
            if c == 0 {
                return Ok(i);
            }
            if c > 0 {
                proof {
                    assert forall|j: int| i <= j < self.count() implies lex_lt(
                        key@,
                        #[trigger] self.key_at(j),
                    ) by {
                        if j > i {
                            lemma_lex_transitive(key@, self.key_at(i as int), self.key_at(j));
                        }
                    }
                    assert forall|j: int| 0 <= j < self.count() implies self.key_at(j)
                        != key@ by {
                        if j < i {
                            lemma_lex_irreflexive(key@);
                        } else {
                            lemma_lex_irreflexive(key@);
                        }
                    }
                }
                return Err(i);
            }
            i = i + 1;
        }
        proof {
            assert forall|j: int| 0 <= j < self.count() implies self.key_at(j) != key@ by {
                lemma_lex_irreflexive(key@);
            }
        }
        Err(i)
    }

    pub fn contains_key(&self, key: &str) -> (b: bool)
        requires
            self.wf(),
        ensures
            b == self@.contains_key(key@),
    {
        match self.locate(key) {
            Ok(i) => true,
            Err(_) => false,
        }
    }

    pub fn get(&self, key: &str) -> (r: Option<&V>)
        requires
            self.wf(),
        ensures
            match r {
                Some(v) => self@.contains_key(key@) && *v == self@[key@],
                None => !self@.contains_key(key@),
            },
    {
        match self.locate(key) {
            Ok(i) => {
                proof {
                    self.lemma_entry(i as int);
                }
                Some(&self.entries[i].1)
            },
            Err(_) => None,
        }
    }

    /// Insert or replace the value of `key`.
    pub fn insert(&mut self, key: &str, value: V)
        requires
            old(self).wf(),
        ensures
            final(self).wf(),
            final(self)@ == old(self)@.insert(key@, value),
    {
        let ghost old_map = self@;
        let ghost old_self = *self;
        match self.locate(key) {
            Ok(i) => {
                let ghost kv = value;
                let ghost old_entries = self.entries@;
                let name = self.entries[i].0.clone();
                self.entries.set(i, (name, value));
                proof {
                    assert forall|a: int, b: int| 0 <= a < b < self.count() implies lex_lt(
                        #[trigger] self.key_at(a),
                        #[trigger] self.key_at(b),
                    ) by {
                        assert(self.key_at(a) == old_self.key_at(a));
                        assert(self.key_at(b) == old_self.key_at(b));
                    }
                    assert forall|k: Seq<char>| #[trigger] self.has(k) == old_self.has(k) by {
                        if old_self.has(k) {
                            let j = old_self.index_of(k);
                            assert(self.key_at(j) == k);
                        }
                        if self.has(k) {
                            let j = self.index_of(k);
                            assert(old_self.key_at(j) == k);
                        }
                    }
                    assert forall|k: Seq<char>| self.has(k) implies self@[k] == (if k == key@ {
                        kv
                    } else {
                        old_map[k]
                    }) by {
                        let j = self.index_of(k);
                        self.lemma_entry(j);
                        old_self.lemma_entry(j);
                        if k == key@ {
                            self.lemma_unique(j, i as int);
                        } else {
                            assert(j != i);
                        }
                    }
                    assert(self@ =~= old_map.insert(key@, kv));
                }
            },
            Err(i) => {
                let ghost kv = value;
                let name = key.to_owned();
                self.entries.insert(i, (name, value));
                proof {
                    assert forall|a: int| 0 <= a < self.count() implies #[trigger] self.key_at(
                        a,
                    ) == (if a < i {
                        old_self.key_at(a)
                    } else if a == i {
                        key@
                    } else {
                        old_self.key_at(a - 1)
                    }) by {}
                    assert forall|a: int, b: int| 0 <= a < b < self.count() implies lex_lt(
                        #[trigger] self.key_at(a),
                        #[trigger] self.key_at(b),
                    ) by {
                        if a < i && b < i {
                        } else if a < i && b == i {
                        } else if a < i && b > i {
                            lemma_lex_transitive(self.key_at(a), key@, self.key_at(b));
                        } else if a == i {
                        } else {
                        }
                    }
                    assert forall|k: Seq<char>| #[trigger] self.has(k) == (old_self.has(k) || k
                        == key@) by {
                        if old_self.has(k) {
                            let j = old_self.index_of(k);
                            if j < i {
                                assert(self.key_at(j) == k);
                            } else {
                                assert(self.key_at(j + 1) == k);
                            }
                        }
                        if k == key@ {
                            assert(self.key_at(i as int) == k);
                        }
                        if self.has(k) && k != key@ {
                            let j = self.index_of(k);
                            if j < i {
                                assert(old_self.key_at(j) == k);
                            } else {
                                assert(old_self.key_at(j - 1) == k);
                            }
                        }
                    }
                    assert forall|k: Seq<char>| self.has(k) implies self@[k] == (if k == key@ {
                        kv
                    } else {
                        old_map[k]
                    }) by {
                        let j = self.index_of(k);
                        self.lemma_entry(j);
                        if k == key@ {
                            self.lemma_entry(i as int);
                            self.lemma_unique(j, i as int);
                        } else if j < i {
                            old_self.lemma_entry(j);
                        } else {
                            old_self.lemma_entry(j - 1);
                        }
                    }
                    assert(self@ =~= old_map.insert(key@, kv));
                }
            },
        }
    }

    /// Remove `key` (no effect when absent).
    pub fn remove(&mut self, key: &str)
        requires
            old(self).wf(),
        ensures
            final(self).wf(),
            final(self)@ == old(self)@.remove(key@),
    {
        let ghost old_map = self@;
        let ghost old_self = *self;
        match self.locate(key) {
            Ok(i) => {
                let _ = self.entries.remove(i);
                proof {
                    assert forall|a: int| 0 <= a < self.count() implies #[trigger] self.key_at(
                        a,
                    ) == (if a < i {
                        old_self.key_at(a)
                    } else {
                        old_self.key_at(a + 1)
                    }) by {}
                    assert forall|a: int, b: int| 0 <= a < b < self.count() implies lex_lt(
                        #[trigger] self.key_at(a),
                        #[trigger] self.key_at(b),
                    ) by {
                        if a < i && b >= i {
                            assert(lex_lt(old_self.key_at(a), old_self.key_at(b + 1)));
                        } else if a >= i {
                            assert(lex_lt(old_self.key_at(a + 1), old_self.key_at(b + 1)));
                        } else {
                            assert(lex_lt(old_self.key_at(a), old_self.key_at(b)));
                        }
                    }
                    assert forall|k: Seq<char>| #[trigger] self.has(k) == (old_self.has(k) && k
                        != key@) by {
                        if old_self.has(k) && k != key@ {
                            let j = old_self.index_of(k);
                            if j < i {
                                assert(self.key_at(j) == k);
                            } else {
                                assert(j != i);
                                assert(self.key_at(j - 1) == k);
                            }
                        }
                        if self.has(k) {
                            let j = self.index_of(k);
                            if j < i {
                                assert(old_self.key_at(j) == k);
                                if k == key@ {
                                    old_self.lemma_unique(j, i as int);
                                }
                            } else {
                                assert(old_self.key_at(j + 1) == k);
                                if k == key@ {
                                    old_self.lemma_unique(j + 1, i as int);
                                }
                            }
                        }
                    }
                    assert forall|k: Seq<char>| self.has(k) implies self@[k] == old_map[k] by {
                        let j = self.index_of(k);
                        self.lemma_entry(j);
                        if j < i {
                            old_self.lemma_entry(j);
                        } else {
                            old_self.lemma_entry(j + 1);
                        }
                    }
                    assert(self@ =~= old_map.remove(key@));
                }
            },
            Err(_) => {
                assert(self@ =~= old_map.remove(key@));
            },
        }
    }

    /// The keys, in order.
    pub fn keys(&self) -> (ks: Vec<String>)
        requires
            self.wf(),
        ensures
            ks@.len() == self.count(),
            forall|i: int| 0 <= i < ks@.len() ==> #[trigger] ks@[i]@ == self.key_at(i),
    {
        let mut ks: Vec<String> = Vec::new();
        let mut i: usize = 0;
        while i < self.entries.len()
            invariant
                i <= self.count(),
                ks@.len() == i,
                forall|j: int| 0 <= j < i ==> #[trigger] ks@[j]@ == self.key_at(j),
            decreases self.entries.len() - i,
        {
            ks.push(self.entries[i].0.clone());
            i = i + 1;
        }
        ks
    }

    /// Entry `i` (in key order).
    pub fn entry_at(&self, i: usize) -> (r: (&String, &V))
        requires
            i < self.count(),
        ensures
            r.0@ == self.key_at(i as int),
            *r.1 == self.value_at(i as int),
    {
        (&self.entries[i].0, &self.entries[i].1)
    }

    pub fn entry_count(&self) -> (n: usize)
        ensures
            n == self.count(),
    {
        self.entries.len()
    }
}


impl<V: Copy> StrMap<V> {
    /// Keep only the entries whose key begins with `prefix`.
    pub fn keep_prefixed(&mut self, prefix: &str)
        requires
            old(self).wf(),
        ensures
            final(self).wf(),
            final(self)@ == Map::new(
                |k: Seq<char>| old(self)@.contains_key(k) && prefix@.is_prefix_of(k),
                |k: Seq<char>| old(self)@[k],
            ),
    {
        let mut out: StrMap<V> = StrMap::new();
        let mut i: usize = 0;
        while i < self.entry_count()
            invariant
                self.wf(),
                out.wf(),
                i <= self.count(),
                forall|k: Seq<char>|
                    #[trigger] out@.contains_key(k) <==> (self@.contains_key(k) && prefix@.is_prefix_of(k)
                        && self.index_of(k) < i),
                forall|k: Seq<char>| #[trigger] out@.contains_key(k) ==> out@[k] == self@[k],
            decreases self.count() - i,
        {
            let (k, v) = self.entry_at(i);
            proof {
                self.lemma_entry(i as int);
                assert forall|j: Seq<char>| self@.contains_key(j) && self.index_of(j) == i implies j == k@ by {
                    self.lemma_key_index(j);
                }
            }
            if crate::text::starts_with(k.as_str(), prefix) {
                out.insert(k.as_str(), *v);
            }
            i = i + 1;
        }
        proof {
            assert forall|k: Seq<char>| self@.contains_key(k) implies self.index_of(k) < self.count() by {
                self.lemma_key_index(k);
            }
            assert(out@ =~= Map::new(
                |k: Seq<char>| self@.contains_key(k) && prefix@.is_prefix_of(k),
                |k: Seq<char>| self@[k],
            ));
        }
        *self = out;
    }
}

} // verus!
