//! A map keyed by text, kept in ascending key order.

use vstd::prelude::*;
use vstd::utf8::*;


verus! {

/// Byte order from position `i` on: a proper prefix comes first.
pub open spec fn bytes_lt(a: Seq<u8>, b: Seq<u8>, i: int) -> bool
    decreases b.len() - i,
{
    if i < 0 || i >= b.len() {
        false
    } else if i >= a.len() {
        true
    } else if a[i] != b[i] {
        a[i] < b[i]
    } else {
        bytes_lt(a, b, i + 1)
    }
}

/// The order of strings: byte by byte over their UTF-8.
pub open spec fn text_lt(a: Seq<char>, b: Seq<char>) -> bool {
    bytes_lt(encode_utf8(a), encode_utf8(b), 0)
}

pub open spec fn ascending(keys: Seq<Seq<char>>) -> bool {
    forall|i: int, j: int|
        #![trigger keys[i], keys[j]]
        0 <= i < j < keys.len() ==> text_lt(keys[i], keys[j])
}

proof fn lemma_bytes_lt_transitive(a: Seq<u8>, b: Seq<u8>, c: Seq<u8>, i: int)
    requires
        0 <= i,
        bytes_lt(a, b, i),
        bytes_lt(b, c, i),
    ensures
        bytes_lt(a, c, i),
    decreases c.len() - i,
{
    if i < a.len() && i < b.len() && i < c.len() && a[i] == b[i] && b[i] == c[i] {
        lemma_bytes_lt_transitive(a, b, c, i + 1);
    }
}

proof fn lemma_bytes_lt_irreflexive(a: Seq<u8>, i: int)
    ensures
        !bytes_lt(a, a, i),
    decreases a.len() - i,
{
    if 0 <= i < a.len() {
        lemma_bytes_lt_irreflexive(a, i + 1);
    }
}

pub proof fn lemma_text_lt_transitive(a: Seq<char>, b: Seq<char>, c: Seq<char>)
    requires
        text_lt(a, b),
        text_lt(b, c),
    ensures
        text_lt(a, c),
{
    lemma_bytes_lt_transitive(encode_utf8(a), encode_utf8(b), encode_utf8(c), 0);
}

/// No text comes before itself, so an order in both directions is impossible.
pub proof fn lemma_text_lt_irreflexive(a: Seq<char>)
    ensures
        !text_lt(a, a),
{
    lemma_bytes_lt_irreflexive(encode_utf8(a), 0);
}

/// Where one text stands next to another.
#[derive(Clone, Copy, PartialEq, Eq, Structural, Debug)]
pub enum Place {
    Before,
    Same,
    After,
}

/// Compares two strings.
pub fn place(a: &str, b: &str) -> (r: Place)
    ensures
        r == Place::Before ==> text_lt(a@, b@),
        r == Place::Same <==> a@ == b@,
        r == Place::After ==> text_lt(b@, a@),
{
    let x = a.as_bytes();
    let y = b.as_bytes();
    let mut i: usize = 0;
    while i < x.len() && i < y.len() && x[i] == y[i]
        invariant
            i <= x@.len(),
            i <= y@.len(),
            x@ == encode_utf8(a@),
            y@ == encode_utf8(b@),
            forall|j: int| 0 <= j < i ==> x@[j] == y@[j],
            bytes_lt(x@, y@, 0) == bytes_lt(x@, y@, i as int),
            bytes_lt(y@, x@, 0) == bytes_lt(y@, x@, i as int),
        decreases x@.len() - i,
    {
        i += 1;
    }
    if i < y.len() && (i == x.len() || x[i] < y[i]) {
        proof {
            lemma_text_lt_irreflexive(a@);
        }
        Place::Before
    } else if i < x.len() && (i == y.len() || y[i] < x[i]) {
        proof {
            lemma_text_lt_irreflexive(a@);
        }
        Place::After
    } else {
        proof {
            assert(x@ =~= y@);
            encode_utf8_decode_utf8(a@);
            encode_utf8_decode_utf8(b@);
        }
        Place::Same
    }
}

/// A map from text to `V`. Its entries stand in ascending key order.
#[derive(Debug)]
pub struct TextMap<V> {
    entries: Vec<(String, V)>,
}

impl<V> TextMap<V> {
    /// The keys, in ascending order.
    pub closed spec fn keys(self) -> Seq<Seq<char>> {
        Seq::new(self.entries@.len(), |i: int| self.entries@[i].0@)
    }

    /// The values, in the order of their keys.
    pub closed spec fn values(self) -> Seq<V> {
        Seq::new(self.entries@.len(), |i: int| self.entries@[i].1)
    }

    #[verifier::type_invariant]
    spec fn wf(self) -> bool {
        ascending(self.keys())
    }
}

impl<V> View for TextMap<V> {
    type V = Map<Seq<char>, V>;

    open spec fn view(&self) -> Map<Seq<char>, V> {
        Map::new(
            |k: Seq<char>| self.keys().contains(k),
            |k: Seq<char>| self.values()[self.keys().index_of(k)],
        )
    }
}

/// In an ascending list a key stands in one place only.
proof fn lemma_index_of(keys: Seq<Seq<char>>, i: int)
    requires
        ascending(keys),
        0 <= i < keys.len(),
    ensures
        keys.index_of(keys[i]) == i,
{
    assert(keys.contains(keys[i]));
    let j = keys.index_of(keys[i]);
    assert(0 <= j < keys.len() && keys[j] == keys[i]);
    lemma_text_lt_irreflexive(keys[i]);
    if j < i {
        assert(text_lt(keys[j], keys[i]));
    } else if i < j {
        assert(text_lt(keys[i], keys[j]));
    }
}

impl<V> TextMap<V> {
    pub fn new() -> (map: Self)
        ensures
            map@ == Map::<Seq<char>, V>::empty(),
            map.keys() == Seq::<Seq<char>>::empty(),
    {
        let map = TextMap { entries: Vec::new() };
        assert(map@ =~= Map::<Seq<char>, V>::empty());
        assert(map.keys() =~= Seq::<Seq<char>>::empty());
        map
    }

    /// Where `key` stands, or where it would have to be inserted.
    fn search(&self, key: &str) -> (r: (bool, usize))
        requires
            self.wf(),
        ensures
            r.1 <= self.keys().len(),
            r.0 ==> r.1 < self.keys().len() && self.keys()[r.1 as int] == key@,
            !r.0 ==> !self.keys().contains(key@),
            !r.0 ==> forall|i: int| 0 <= i < r.1 ==> text_lt(#[trigger] self.keys()[i], key@),
            !r.0 ==> forall|i: int|
                r.1 <= i < self.keys().len() ==> text_lt(key@, #[trigger] self.keys()[i]),
    {
        let mut lo: usize = 0;
        let mut hi: usize = self.entries.len();
        while lo < hi
            invariant
                self.wf(),
                lo <= hi <= self.keys().len(),
                self.keys().len() == self.entries@.len(),
                forall|i: int| 0 <= i < lo ==> text_lt(#[trigger] self.keys()[i], key@),
                forall|i: int|
                    hi <= i < self.keys().len() ==> text_lt(key@, #[trigger] self.keys()[i]),
            decreases hi - lo,
        {
            let mid: usize = lo + (hi - lo) / 2;
            let entry: &(String, V) = &self.entries[mid];
            let ghost here = self.keys()[mid as int];
            match place(entry.0.as_str(), key) {
                Place::Same => {
                    return (true, mid);
                },
                Place::Before => {
                    assert forall|i: int| 0 <= i < mid + 1 implies text_lt(
                        #[trigger] self.keys()[i],
                        key@,
                    ) by {
                        if i < mid {
                            lemma_text_lt_transitive(self.keys()[i], here, key@);
                        }
                    }
                    lo = mid + 1;
                },
                Place::After => {
                    assert forall|i: int| mid <= i < self.keys().len() implies text_lt(
                        key@,
                        #[trigger] self.keys()[i],
                    ) by {
                        if mid < i {
                            lemma_text_lt_transitive(key@, here, self.keys()[i]);
                        }
                    }
                    hi = mid;
                },
            }
        }
        proof {
            if self.keys().contains(key@) {
                let i = choose|i: int| 0 <= i < self.keys().len() && self.keys()[i] == key@;
                lemma_text_lt_irreflexive(key@);
                assert(text_lt(self.keys()[i], key@) || text_lt(key@, self.keys()[i]));
            }
        }
        (false, lo)
    }

    /// The value stored under `key`.
    pub fn get(&self, key: &str) -> (r: Option<&V>)
        ensures
            match r {
                Some(v) => self@.dom().contains(key@) && self@[key@] == *v,
                None => !self@.dom().contains(key@),
            },
    {
        proof {
            use_type_invariant(self);
        }
        let (found, i) = self.search(key);
        if found {
            proof {
                lemma_index_of(self.keys(), i as int);
            }
            let entry: &(String, V) = &self.entries[i];
            Some(&entry.1)
        } else {
            None
        }
    }

    /// Stores `value` under `key`, replacing what was there.
    pub fn insert(&mut self, key: String, value: V)
        ensures
            final(self)@ == old(self)@.insert(key@, value),
    {
        proof {
            use_type_invariant(&*self);
        }
        let (found, i) = self.search(key.as_str());
        let mut entries: Vec<(String, V)> = Vec::new();
        let ghost before = *self;
        let ghost old_keys = self.keys();
        let ghost old_values = self.values();
        core::mem::swap(&mut entries, &mut self.entries);
        let ghost k = key@;
        if found {
            let _ = entries.remove(i);
        }
        entries.insert(i, (key, value));
        let ghost next = TextMap { entries };
        proof {
            if found {
                assert(next.keys() =~= old_keys);
                assert(next.values() =~= old_values.update(i as int, value));
            } else {
                assert(next.keys() =~= old_keys.insert(i as int, k));
                assert(next.values() =~= old_values.insert(i as int, value));
                assert forall|a: int, b: int|
                    #![trigger next.keys()[a], next.keys()[b]]
                    0 <= a < b < next.keys().len() implies text_lt(
                    next.keys()[a],
                    next.keys()[b],
                ) by {
                    let oa = if a < i { a } else { a - 1 };
                    let ob = if b < i { b } else { b - 1 };
                    if a == i {
                        assert(next.keys()[b] == old_keys[ob]);
                    } else if b == i {
                        assert(next.keys()[a] == old_keys[oa]);
                    } else {
                        assert(next.keys()[a] == old_keys[oa]);
                        assert(next.keys()[b] == old_keys[ob]);
                    }
                }
            }
            let target = before@.insert(k, value);
            assert(next.keys()[i as int] == k);
            assert forall|x: Seq<char>| next@.dom().contains(x) <==> target.dom().contains(x) by {
                if old_keys.contains(x) {
                    let j = old_keys.index_of(x);
                    let n = if found || j < i { j } else { j + 1 };
                    assert(next.keys()[n] == x);
                }
                if next.keys().contains(x) && x != k {
                    let n = next.keys().index_of(x);
                    let j = if found || n < i { n } else { n - 1 };
                    assert(old_keys[j] == x);
                }
            }
            assert forall|x: Seq<char>| next@.dom().contains(x) implies next@[x] == target[x] by {
                let n = next.keys().index_of(x);
                lemma_index_of(next.keys(), n);
                if x == k {
                    lemma_index_of(next.keys(), i as int);
                } else {
                    let j = if found || n < i { n } else { n - 1 };
                    assert(old_keys[j] == x);
                    lemma_index_of(old_keys, j);
                }
            }
            assert(next@ =~= target);
        }
        self.entries = entries;
        assert(*self == next);
    }

    /// How many keys the map holds.
    pub fn len(&self) -> (n: usize)
        ensures
            n == self.keys().len(),
            n == self@.dom().len(),
            self@.dom().finite(),
            self.keys().no_duplicates(),
    {
        proof {
            use_type_invariant(self);
            let keys = self.keys();
            assert forall|i: int, j: int| 0 <= i < j < keys.len() implies keys[i] != keys[j] by {
                lemma_text_lt_irreflexive(keys[i]);
                assert(text_lt(keys[i], keys[j]));
            }
            assert(keys.no_duplicates());
            keys.unique_seq_to_set();
            assert(keys.to_set() =~= self@.dom());
            vstd::seq_lib::seq_to_set_is_finite(keys);
        }
        self.entries.len()
    }

    /// The `i`th entry in ascending key order.
    pub fn entry(&self, i: usize) -> (r: (&str, &V))
        requires
            i < self.keys().len(),
        ensures
            r.0@ == self.keys()[i as int],
            *r.1 == self.values()[i as int],
            self@.dom().contains(r.0@),
            self@[r.0@] == *r.1,
            ascending(self.keys()),
            self.values().len() == self.keys().len(),
    {
        proof {
            use_type_invariant(self);
            lemma_index_of(self.keys(), i as int);
            assert(self.keys().contains(self.keys()[i as int]));
        }
        let entry: &(String, V) = &self.entries[i];
        (entry.0.as_str(), &entry.1)
    }
}

} // verus!
