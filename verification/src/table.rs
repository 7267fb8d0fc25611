//! A table of values keyed by strings, in which no key occurs twice, with the
//! lookups by exact key, by key prefix and through a list of fallbacks.

use vstd::prelude::*;
use crate::text::{eq_chars, has_prefix, starts_with_chars};

verus! {

/// The keys of `entries` are pairwise different.
pub open spec fn keys_distinct<V>(entries: Seq<(Seq<char>, V)>) -> bool {
    forall|i: int, j: int|
        0 <= i < entries.len() && 0 <= j < entries.len() && i != j ==> #[trigger] entries[i].0
            != #[trigger] entries[j].0
}

/// The position of the entry with key `key`, if there is one.
pub open spec fn index_of_key<V>(entries: Seq<(Seq<char>, V)>, key: Seq<char>) -> Option<int> {
    if exists|i: int| 0 <= i < entries.len() && #[trigger] entries[i].0 == key {
        Some(choose|i: int| 0 <= i < entries.len() && #[trigger] entries[i].0 == key)
    } else {
        None
    }
}

/// The value stored under `key`, if any.
pub open spec fn value_of<V>(entries: Seq<(Seq<char>, V)>, key: Seq<char>) -> Option<V> {
    match index_of_key(entries, key) {
        Some(i) => Some(entries[i].1),
        None => None,
    }
}

/// `i` is the first position whose key starts with `p`.
pub open spec fn is_first_with_prefix<V>(entries: Seq<(Seq<char>, V)>, p: Seq<char>, i: int) -> bool {
    &&& 0 <= i < entries.len()
    &&& has_prefix(entries[i].0, p)
    &&& forall|x: int| 0 <= x < i ==> !has_prefix(#[trigger] entries[x].0, p)
}

/// The first position whose key starts with `p`, if any.
pub open spec fn first_with_prefix<V>(entries: Seq<(Seq<char>, V)>, p: Seq<char>) -> Option<int> {
    if exists|i: int| 0 <= i < entries.len() && has_prefix(#[trigger] entries[i].0, p) {
        Some(choose|i: int| is_first_with_prefix(entries, p, i))
    } else {
        None
    }
}

/// The position of the first of the `fallbacks` keys that is present, or of the
/// first entry when none is.
pub open spec fn fallback_index<V>(entries: Seq<(Seq<char>, V)>, fallbacks: Seq<Seq<char>>) -> Option<int>
    decreases fallbacks.len(),
{
    if fallbacks.len() == 0 {
        if entries.len() > 0 {
            Some(0)
        } else {
            None
        }
    } else {
        match index_of_key(entries, fallbacks[0]) {
            Some(i) => Some(i),
            None => fallback_index(entries, fallbacks.drop_first()),
        }
    }
}

/// The entry chosen for `target`: the one with exactly that key; else the first
/// whose key starts with `prefix`; else the first fallback key present; else the
/// first entry.
pub open spec fn resolve_index<V>(
    entries: Seq<(Seq<char>, V)>,
    target: Seq<char>,
    prefix: Seq<char>,
    fallbacks: Seq<Seq<char>>,
) -> Option<int> {
    match index_of_key(entries, target) {
        Some(i) => Some(i),
        None => match first_with_prefix(entries, prefix) {
            Some(i) => Some(i),
            None => fallback_index(entries, fallbacks),
        },
    }
}

/// The entries after storing `value` under `key`: an entry with that key gets
/// the new value in its place, otherwise the entry is added at the end.
pub open spec fn inserted<V>(entries: Seq<(Seq<char>, V)>, key: Seq<char>, value: V) -> Seq<
    (Seq<char>, V),
> {
    match index_of_key(entries, key) {
        Some(i) => entries.update(i, (key, value)),
        None => entries.push((key, value)),
    }
}

/// Storing a value and reading it back: the key gives the stored value, every
/// other key what it gave before, and still no key occurs twice.
pub proof fn lemma_insert_then_read<V>(
    entries: Seq<(Seq<char>, V)>,
    key: Seq<char>,
    value: V,
    other: Seq<char>,
)
    requires
        keys_distinct(entries),
    ensures
        keys_distinct(inserted(entries, key, value)),
        value_of(inserted(entries, key, value), key) == Some(value),
        other != key ==> value_of(inserted(entries, key, value), other) == value_of(entries, other),
{
    let r = inserted(entries, key, value);
    match index_of_key(entries, key) {
        Some(i) => {
            assert(0 <= i < entries.len() && entries[i].0 == key);
            assert(keys_distinct(r)) by {
                assert forall|a: int, b: int|
                    0 <= a < r.len() && 0 <= b < r.len() && a != b
                    implies #[trigger] r[a].0 != #[trigger] r[b].0 by {
                    if a != i && b != i {
                        assert(entries[a].0 != entries[b].0);
                    } else if a == i {
                        assert(entries[i].0 != entries[b].0);
                    } else {
                        assert(entries[a].0 != entries[i].0);
                    }
                }
            }
            lemma_index_of_key_unique(r, key, i);
            if other != key {
                if exists|j: int| 0 <= j < entries.len() && #[trigger] entries[j].0 == other {
                    let j = choose|j: int| 0 <= j < entries.len() && #[trigger] entries[j].0 == other;
                    lemma_index_of_key_unique(entries, other, j);
                    assert(r[j].0 == other);
                    lemma_index_of_key_unique(r, other, j);
                } else {
                    assert forall|j: int| 0 <= j < r.len() implies #[trigger] r[j].0 != other by {
                        if j != i {
                            assert(r[j] == entries[j]);
                        }
                    }
                }
            }
        },
        None => {
            assert forall|j: int| 0 <= j < entries.len() implies #[trigger] entries[j].0 != key by {
            }
            assert(keys_distinct(r)) by {
                assert forall|a: int, b: int|
                    0 <= a < r.len() && 0 <= b < r.len() && a != b
                    implies #[trigger] r[a].0 != #[trigger] r[b].0 by {
                    if a < entries.len() && b < entries.len() {
                        assert(entries[a].0 != entries[b].0);
                    } else if a < entries.len() {
                        assert(r[a].0 == entries[a].0);
                    } else {
                        assert(r[b].0 == entries[b].0);
                    }
                }
            }
            lemma_index_of_key_unique(r, key, entries.len() as int);
            if other != key {
                if exists|j: int| 0 <= j < entries.len() && #[trigger] entries[j].0 == other {
                    let j = choose|j: int| 0 <= j < entries.len() && #[trigger] entries[j].0 == other;
                    lemma_index_of_key_unique(entries, other, j);
                    assert(r[j].0 == other);
                    lemma_index_of_key_unique(r, other, j);
                } else {
                    assert forall|j: int| 0 <= j < r.len() implies #[trigger] r[j].0 != other by {
                        if j < entries.len() {
                            assert(r[j] == entries[j]);
                        }
                    }
                }
            }
        },
    }
}

/// The choice always lands on an entry when there is one, and never otherwise.
pub proof fn lemma_resolve_total<V>(
    entries: Seq<(Seq<char>, V)>,
    target: Seq<char>,
    prefix: Seq<char>,
    fallbacks: Seq<Seq<char>>,
)
    ensures
        entries.len() > 0 <==> resolve_index(entries, target, prefix, fallbacks) is Some,
        resolve_index(entries, target, prefix, fallbacks) matches Some(i) ==> 0 <= i < entries.len(),
{
    lemma_fallback_total(entries, fallbacks);
    if let Some(i) = index_of_key(entries, target) {
        assert(0 <= i < entries.len() && entries[i].0 == target);
    } else if let Some(i) = first_with_prefix(entries, prefix) {
        let j = choose|j: int| 0 <= j < entries.len() && has_prefix(#[trigger] entries[j].0, prefix);
        lemma_first_with_prefix_exists(entries, prefix, j);
        assert(is_first_with_prefix(entries, prefix, i));
    }
}

/// When some key starts with `p`, a first such key exists.
pub proof fn lemma_first_with_prefix_exists<V>(entries: Seq<(Seq<char>, V)>, p: Seq<char>, j: int)
    requires
        0 <= j < entries.len(),
        has_prefix(entries[j].0, p),
    ensures
        exists|i: int| is_first_with_prefix(entries, p, i),
    decreases j,
{
    if exists|x: int| 0 <= x < j && has_prefix(#[trigger] entries[x].0, p) {
        let x = choose|x: int| 0 <= x < j && has_prefix(#[trigger] entries[x].0, p);
        lemma_first_with_prefix_exists(entries, p, x);
    } else {
        assert(is_first_with_prefix(entries, p, j));
    }
}

proof fn lemma_fallback_total<V>(entries: Seq<(Seq<char>, V)>, fallbacks: Seq<Seq<char>>)
    ensures
        entries.len() > 0 <==> fallback_index(entries, fallbacks) is Some,
        fallback_index(entries, fallbacks) matches Some(i) ==> 0 <= i < entries.len(),
    decreases fallbacks.len(),
{
    if fallbacks.len() > 0 {
        lemma_fallback_total(entries, fallbacks.drop_first());
        if let Some(i) = index_of_key(entries, fallbacks[0]) {
            assert(0 <= i < entries.len() && entries[i].0 == fallbacks[0]);
        }
    }
}

/// An entry with exactly the requested key is always the one chosen.
pub proof fn lemma_resolve_exact<V>(
    entries: Seq<(Seq<char>, V)>,
    target: Seq<char>,
    prefix: Seq<char>,
    fallbacks: Seq<Seq<char>>,
    value: V,
)
    requires
        value_of(entries, target) == Some(value),
    ensures
        resolve_index(entries, target, prefix, fallbacks) matches Some(i) && 0 <= i < entries.len()
            && entries[i].0 == target && entries[i].1 == value,
{
    let i = index_of_key(entries, target)->0;
    assert(0 <= i < entries.len() && entries[i].0 == target);
}

/// Values keyed by strings; no key occurs twice. The order of the entries is
/// the order in which their keys were first stored.
pub struct KeyedTable<V> {
    entries: Vec<(Vec<char>, V)>,
}

impl<V> View for KeyedTable<V> {
    type V = Seq<(Seq<char>, V)>;

    closed spec fn view(&self) -> Seq<(Seq<char>, V)> {
        self.entries@.map_values(|e: (Vec<char>, V)| (e.0@, e.1))
    }
}

/// In a table without repeated keys a key has exactly one position.
pub proof fn lemma_index_of_key_unique<V>(entries: Seq<(Seq<char>, V)>, key: Seq<char>, i: int)
    requires
        keys_distinct(entries),
        0 <= i < entries.len(),
        entries[i].0 == key,
    ensures
        index_of_key(entries, key) == Some(i),
{
    let j = choose|j: int| 0 <= j < entries.len() && #[trigger] entries[j].0 == key;
    assert(entries[j].0 == key);
}

/// The first position with a prefix is the one `first_with_prefix` names.
pub proof fn lemma_first_with_prefix_unique<V>(entries: Seq<(Seq<char>, V)>, p: Seq<char>, i: int)
    requires
        is_first_with_prefix(entries, p, i),
    ensures
        first_with_prefix(entries, p) == Some(i),
{
    assert(has_prefix(entries[i].0, p));
    let j = choose|j: int| is_first_with_prefix(entries, p, j);
    assert(is_first_with_prefix(entries, p, j));
    if j < i {
        assert(!has_prefix(entries[j].0, p));
    } else if i < j {
        assert(!has_prefix(entries[i].0, p));
    }
}

impl<V> KeyedTable<V> {
    #[verifier::type_invariant]
    spec fn distinct(self) -> bool {
        keys_distinct(self@)
    }

    /// An empty table.
    pub fn new() -> (r: Self)
        ensures
            r@ == Seq::<(Seq<char>, V)>::empty(),
            keys_distinct(r@),
    {
        let r = KeyedTable { entries: Vec::new() };
        assert(r@ =~= Seq::<(Seq<char>, V)>::empty());
        r
    }

    /// The number of entries.
    pub fn len(&self) -> (r: usize)
        ensures
            r == self@.len(),
    {
        self.entries.len()
    }

    /// The position of `key`.
    fn position(&self, key: &[char]) -> (r: Option<usize>)
        ensures
            r matches Some(i) ==> index_of_key(self@, key@) == Some(i as int) && i < self@.len(),
            r is None ==> index_of_key(self@, key@) is None,
    {
        proof { use_type_invariant(self); }
        let n = self.entries.len();
        let mut i: usize = 0;
        while i < n
            invariant
                n == self@.len(),
                self@.len() == self.entries@.len(),
                keys_distinct(self@),
                i <= n,
                forall|x: int| 0 <= x < i ==> #[trigger] self@[x].0 != key@,
            decreases n - i,
        {
            assert(self@[i as int].0 == self.entries@[i as int].0@);
            if eq_chars(&self.entries[i].0, key) {
                proof { lemma_index_of_key_unique(self@, key@, i as int); }
                return Some(i);
            }
            i = i + 1;
        }
        None
    }

    /// The first position whose key starts with `prefix`.
    fn position_with_prefix(&self, prefix: &[char]) -> (r: Option<usize>)
        ensures
            r matches Some(i) ==> first_with_prefix(self@, prefix@) == Some(i as int) && i
                < self@.len(),
            r is None ==> first_with_prefix(self@, prefix@) is None,
    {
        let n = self.entries.len();
        let mut i: usize = 0;
        while i < n
            invariant
                n == self@.len(),
                self@.len() == self.entries@.len(),
                i <= n,
                forall|x: int| 0 <= x < i ==> !has_prefix(#[trigger] self@[x].0, prefix@),
            decreases n - i,
        {
            assert(self@[i as int].0 == self.entries@[i as int].0@);
            if starts_with_chars(&self.entries[i].0, prefix) {
                proof { lemma_first_with_prefix_unique(self@, prefix@, i as int); }
                return Some(i);
            }
            i = i + 1;
        }
        None
    }

    /// The value stored under `key`, if any.
    pub fn get(&self, key: &[char]) -> (r: Option<&V>)
        ensures
            keys_distinct(self@),
            r matches Some(v) ==> value_of(self@, key@) == Some(*v),
            r is None ==> value_of(self@, key@) is None,
    {
        proof { use_type_invariant(self); }
        match self.position(key) {
            Some(i) => {
                assert(self@[i as int].1 == self.entries@[i as int].1);
                Some(&self.entries[i].1)
            },
            None => None,
        }
    }

    /// The position of the first of `fallbacks` present, else of the first entry.
    fn fallback_position(&self, fallbacks: &Vec<Vec<char>>) -> (r: Option<usize>)
        ensures
            r matches Some(i) ==> fallback_index(self@, fallbacks@.map_values(|f: Vec<char>| f@))
                == Some(i as int) && i < self@.len(),
            r is None ==> fallback_index(self@, fallbacks@.map_values(|f: Vec<char>| f@)) is None,
    {
        let ghost fs = fallbacks@.map_values(|f: Vec<char>| f@);
        let n = fallbacks.len();
        let mut k: usize = 0;
        assert(fs.skip(0) == fs);
        while k < n
            invariant
                n == fallbacks@.len(),
                fs == fallbacks@.map_values(|f: Vec<char>| f@),
                k <= n,
                fallback_index(self@, fs) == fallback_index(self@, fs.skip(k as int)),
            decreases n - k,
        {
            assert(fs.skip(k as int)[0] == fallbacks@[k as int]@);
            assert(fs.skip(k as int).drop_first() == fs.skip(k + 1));
            match self.position(&fallbacks[k]) {
                Some(i) => {
                    return Some(i);
                },
                None => {},
            }
            k = k + 1;
        }
        assert(fs.skip(k as int).len() == 0);
        if self.entries.len() > 0 {
            Some(0)
        } else {
            None
        }
    }

    /// The position chosen for `target` (see `resolve_index`).
    pub fn resolve_position(&self, target: &[char], prefix: &[char], fallbacks: &Vec<Vec<char>>) -> (r:
        Option<usize>)
        ensures
            r matches Some(i) ==> resolve_index(
                self@,
                target@,
                prefix@,
                fallbacks@.map_values(|f: Vec<char>| f@),
            ) == Some(i as int) && i < self@.len(),
            r is None ==> resolve_index(
                self@,
                target@,
                prefix@,
                fallbacks@.map_values(|f: Vec<char>| f@),
            ) is None,
    {
        match self.position(target) {
            Some(i) => Some(i),
            None => match self.position_with_prefix(prefix) {
                Some(i) => Some(i),
                None => self.fallback_position(fallbacks),
            },
        }
    }

    /// The value at position `i`.
    pub fn value_at(&self, i: usize) -> (r: &V)
        requires
            i < self@.len(),
        ensures
            *r == self@[i as int].1,
    {
        &self.entries[i].1
    }

    /// Stores `value` under `key`, replacing the value that the key had.
    pub fn insert(&mut self, key: Vec<char>, value: V)
        ensures
            final(self)@ == inserted(old(self)@, key@, value),
            keys_distinct(final(self)@),
    {
        proof { use_type_invariant(&*self); }
        let ghost old_view = self@;
        let pos = self.position(&key);
        let mut entries: Vec<(Vec<char>, V)> = Vec::new();
        std::mem::swap(&mut entries, &mut self.entries);
        let ghost key_view = key@;
        proof { lemma_insert_then_read(old_view, key_view, value, key_view); }
        match pos {
            Some(i) => {
                entries.set(i, (key, value));
                assert(entries@.map_values(|e: (Vec<char>, V)| (e.0@, e.1)) =~= old_view.update(
                    i as int,
                    (key_view, value),
                ));
            },
            None => {
                entries.push((key, value));
                assert(entries@.map_values(|e: (Vec<char>, V)| (e.0@, e.1)) =~= old_view.push(
                    (key_view, value),
                ));
            },
        }
        self.entries = entries;
    }
}

} // verus!
