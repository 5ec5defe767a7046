//! How often names occur, most frequent first.

use vstd::prelude::*;

use crate::text;
use crate::textmap;
use crate::textmap::TextMap;

verus! {

/// A name and how many head records carried it.
#[derive(Debug, Clone)]
pub struct NameCount {
    pub name: String,
    pub count: u32,
}

pub ghost struct CountModel {
    pub name: Seq<char>,
    pub count: u32,
}

impl View for NameCount {
    type V = CountModel;

    open spec fn view(&self) -> CountModel {
        CountModel { name: self.name@, count: self.count }
    }
}

pub open spec fn count_models(counts: Seq<NameCount>) -> Seq<CountModel> {
    counts.map_values(|c: NameCount| c@)
}

/// One more of a name; a count stops at the largest number.
pub open spec fn bump(counts: Map<Seq<char>, u32>, name: Seq<char>) -> Map<Seq<char>, u32> {
    if counts.dom().contains(name) {
        counts.insert(
            name,
            if counts[name] < u32::MAX {
                (counts[name] + 1) as u32
            } else {
                u32::MAX
            },
        )
    } else {
        counts.insert(name, 1)
    }
}

/// The counts after these names.
pub open spec fn tallied(names: Seq<Seq<char>>) -> Map<Seq<char>, u32>
    decreases names.len(),
{
    if names.len() == 0 {
        Map::empty()
    } else {
        bump(tallied(names.drop_last()), names.last())
    }
}

/// How often a name stands in a list.
pub open spec fn occurrences(names: Seq<Seq<char>>, name: Seq<char>) -> nat
    decreases names.len(),
{
    if names.len() == 0 {
        0
    } else {
        occurrences(names.drop_last(), name) + if names.last() == name {
            1nat
        } else {
            0
        }
    }
}

/// A tally lists the names that occur, each with the number of times it does.
pub proof fn tallies_count_occurrences(names: Seq<Seq<char>>, name: Seq<char>)
    ensures
        tallied(names).dom().contains(name) <==> occurrences(names, name) > 0,
        0 < occurrences(names, name) <= u32::MAX ==> tallied(names)[name] == occurrences(
            names,
            name,
        ),
        occurrences(names, name) > u32::MAX ==> tallied(names)[name] == u32::MAX,
    decreases names.len(),
{
    if names.len() > 0 {
        tallies_count_occurrences(names.drop_last(), name);
    }
}

/// More frequent first, then by name.
pub open spec fn ranks_before(a: CountModel, b: CountModel) -> bool {
    a.count > b.count || (a.count == b.count && textmap::text_lt(a.name, b.name))
}

/// Every entry of the tally once, in order of rank.
pub open spec fn is_ranking(counts: Map<Seq<char>, u32>, r: Seq<CountModel>) -> bool {
    &&& forall|i: int, j: int| 0 <= i < j < r.len() ==> ranks_before(#[trigger] r[i], #[trigger] r[j])
    &&& forall|i: int|
        0 <= i < r.len() ==> counts.dom().contains((#[trigger] r[i]).name) && counts[r[i].name]
            == r[i].count
    &&& forall|name: Seq<char>| #[trigger]
        counts.dom().contains(name) ==> exists|i: int|
            0 <= i < r.len() && (#[trigger] r[i]).name == name
}

proof fn lemma_ranks_before_irreflexive(a: CountModel)
    ensures
        !ranks_before(a, a),
{
    textmap::lemma_text_lt_irreflexive(a.name);
}

proof fn lemma_ranks_before_asymmetric(a: CountModel, b: CountModel)
    ensures
        !(ranks_before(a, b) && ranks_before(b, a)),
{
    if ranks_before(a, b) && ranks_before(b, a) {
        textmap::lemma_text_lt_transitive(a.name, b.name, a.name);
        textmap::lemma_text_lt_irreflexive(a.name);
    }
}

/// The order of a ranking is stable: a tally has only one.
pub proof fn rankings_are_unique(
    counts: Map<Seq<char>, u32>,
    a: Seq<CountModel>,
    b: Seq<CountModel>,
)
    requires
        is_ranking(counts, a),
        is_ranking(counts, b),
    ensures
        a == b,
{
    lemma_ranking_agrees(counts, a, b, a.len() as int);
    lemma_ranking_agrees(counts, b, a, b.len() as int);
    assert(a =~= b);
}

proof fn lemma_ranking_agrees(
    counts: Map<Seq<char>, u32>,
    a: Seq<CountModel>,
    b: Seq<CountModel>,
    n: int,
)
    requires
        is_ranking(counts, a),
        is_ranking(counts, b),
        0 <= n <= a.len(),
    ensures
        n <= b.len(),
        forall|i: int| 0 <= i < n ==> a[i] == b[i],
    decreases n,
{
    if n > 0 {
        lemma_ranking_agrees(counts, a, b, n - 1);
        let k = n - 1;
        // The entry a[k] stands somewhere in b, at or behind position k.
        assert(counts.dom().contains(a[k].name));
        let j = choose|j: int| 0 <= j < b.len() && (#[trigger] b[j]).name == a[k].name;
        assert(b[j] == a[k]);
        if j < k {
            assert(a[j] == a[k]);
            lemma_ranks_before_irreflexive(a[k]);
        }
        if j > k {
            // Then b[k] ranks before a[k], and stands in a behind position k.
            assert(ranks_before(b[k], b[j]));
            assert(counts.dom().contains(b[k].name));
            let m = choose|m: int| 0 <= m < a.len() && (#[trigger] a[m]).name == b[k].name;
            assert(a[m] == b[k]);
            if m < k {
                assert(b[m] == b[k]);
                lemma_ranks_before_irreflexive(b[k]);
            } else if m == k {
                lemma_ranks_before_irreflexive(b[k]);
            } else {
                assert(ranks_before(a[k], a[m]));
                lemma_ranks_before_asymmetric(a[k], b[k]);
            }
        }
    }
}

/// Counts names.
pub struct Counter {
    counts: TextMap<u32>,
}

impl View for Counter {
    type V = Map<Seq<char>, u32>;

    closed spec fn view(&self) -> Map<Seq<char>, u32> {
        self.counts@
    }
}

impl Counter {
    pub fn new() -> (r: Counter)
        ensures
            r@ == Map::<Seq<char>, u32>::empty(),
    {
        Counter { counts: TextMap::new() }
    }

    /// One more of a name.
    pub fn add(&mut self, name: &str)
        ensures
            final(self)@ == bump(old(self)@, name@),
    {
        let next: u32 = match self.counts.get(name) {
            Some(n) => {
                if *n < u32::MAX {
                    *n + 1
                } else {
                    u32::MAX
                }
            },
            None => 1,
        };
        self.counts.insert(name.to_owned(), next);
    }

    /// Most frequent first, then by name, so the order is stable.
    pub fn sorted(&self) -> (out: Vec<NameCount>)
        ensures
            is_ranking(self@, count_models(out@)),
    {
        let len: usize = self.counts.len();
        let ghost keys = self.counts.keys();
        let mut out: Vec<NameCount> = Vec::new();
        let mut i: usize = 0;
        while i < len
            invariant
                i <= len,
                keys == self.counts.keys(),
                len == keys.len(),
                i > 0 ==> textmap::ascending(keys),
                forall|a: int, b: int|
                    0 <= a < b < out@.len() ==> ranks_before(
                        (#[trigger] out@[a])@,
                        (#[trigger] out@[b])@,
                    ),
                forall|a: int|
                    0 <= a < out@.len() ==> self@.dom().contains((#[trigger] out@[a])@.name)
                        && self@[out@[a]@.name] == out@[a]@.count && keys.take(i as int).contains(
                        out@[a]@.name,
                    ),
                forall|k: int|
                    0 <= k < i ==> exists|a: int|
                        0 <= a < out@.len() && (#[trigger] out@[a])@.name == #[trigger] keys[k],
            decreases len - i,
        {
            let (name, count): (&str, &u32) = self.counts.entry(i);
            let count: u32 = *count;
            let size: usize = out.len();
            let mut at: usize = 0;
            while at < size && out[at].count >= count
                invariant
                    at <= size,
                    size == out@.len(),
                    forall|a: int| 0 <= a < at ==> (#[trigger] out@[a]).count >= count,
                decreases size - at,
            {
                at = at + 1;
            }
            let ghost before = out@;
            let ghost key = keys[i as int];
            let entry = NameCount { name: name.to_owned(), count };
            let ghost added = entry@;
            out.insert(at, entry);
            proof {
                assert(out@.len() == before.len() + 1);
                assert(out@[at as int]@ == added);
                assert forall|a: int| 0 <= a < before.len() implies textmap::text_lt(
                    (#[trigger] before[a])@.name,
                    key,
                ) by {
                    let k = keys.take(i as int).index_of(before[a]@.name);
                    assert(keys.take(i as int)[k] == keys[k]);
                }
                assert forall|a: int, b: int| 0 <= a < b < out@.len() implies ranks_before(
                    (#[trigger] out@[a])@,
                    (#[trigger] out@[b])@,
                ) by {
                    if b < at {
                        assert(out@[a] == before[a] && out@[b] == before[b]);
                    } else if b == at {
                        assert(out@[a] == before[a]);
                    } else if a < at {
                        assert(out@[a] == before[a] && out@[b] == before[b - 1]);
                    } else if a == at {
                        assert(out@[b] == before[b - 1]);
                        if b - 1 > at {
                            assert(ranks_before(before[at as int]@, before[b - 1]@));
                        }
                        assert(before[b - 1].count < count);
                    } else {
                        assert(out@[a] == before[a - 1] && out@[b] == before[b - 1]);
                    }
                }
                let more = keys.take(i + 1);
                assert forall|a: int| 0 <= a < out@.len() implies self@.dom().contains(
                    (#[trigger] out@[a])@.name,
                ) && self@[out@[a]@.name] == out@[a]@.count && more.contains(out@[a]@.name) by {
                    if a == at {
                        assert(more[i as int] == key);
                    } else {
                        let e = if a < at {
                            before[a]
                        } else {
                            before[a - 1]
                        };
                        assert(out@[a] == e);
                        let k = keys.take(i as int).index_of(e@.name);
                        assert(keys.take(i as int)[k] == more[k]);
                    }
                }
                assert forall|k: int| 0 <= k < i + 1 implies exists|a: int|
                    0 <= a < out@.len() && (#[trigger] out@[a])@.name == #[trigger] keys[k] by {
                    if k == i {
                        assert(out@[at as int]@.name == keys[k]);
                    } else {
                        let a = choose|a: int|
                            0 <= a < before.len() && (#[trigger] before[a])@.name == keys[k];
                        if a < at {
                            assert(out@[a]@.name == keys[k]);
                        } else {
                            assert(out@[a + 1]@.name == keys[k]);
                        }
                    }
                }
            }
            i = i + 1;
        }
        proof {
            let r = count_models(out@);
            assert forall|a: int, b: int| 0 <= a < b < r.len() implies ranks_before(
                #[trigger] r[a],
                #[trigger] r[b],
            ) by {
                assert(ranks_before(out@[a]@, out@[b]@));
            }
            assert forall|a: int| 0 <= a < r.len() implies self@.dom().contains(
                (#[trigger] r[a]).name,
            ) && self@[r[a].name] == r[a].count by {
                assert(r[a] == out@[a]@);
            }
            assert forall|name: Seq<char>| #[trigger] self@.dom().contains(name) implies exists|
                a: int,
            |
                0 <= a < r.len() && (#[trigger] r[a]).name == name by {
                let k = keys.index_of(name);
                assert(keys[k] == name);
                let a = choose|a: int|
                    0 <= a < out@.len() && (#[trigger] out@[a])@.name == keys[k];
                assert(r[a] == out@[a]@);
            }
        }
        out
    }
}

/// The histogram of these names.
pub fn histogram(names: &Vec<String>) -> (out: Vec<NameCount>)
    ensures
        is_ranking(tallied(text::texts(names@)), count_models(out@)),
{
    let ghost all = text::texts(names@);
    let len: usize = names.len();
    let mut counter = Counter::new();
    let mut i: usize = 0;
    assert(all.take(0) =~= Seq::empty());
    while i < len
        invariant
            i <= len,
            len == names@.len(),
            all == text::texts(names@),
            counter@ == tallied(all.take(i as int)),
        decreases len - i,
    {
        assert(all.take(i + 1).drop_last() =~= all.take(i as int));
        counter.add(names[i].as_str());
        i = i + 1;
    }
    assert(all.take(len as int) =~= all);
    counter.sorted()
}

} // verus!
