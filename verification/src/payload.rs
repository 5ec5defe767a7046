//! Payload key discovery. The service payloads (`request`, `response`,
//! `resources`) are stored as JSON because their shape differs per service;
//! rules address them by path (`request.bucketName`). A run counts every leaf
//! path it stores, per log type, and the rule editor offers them.

use vstd::prelude::*;

use crate::detect::LogType;
use crate::json;
use crate::json::Json;
use crate::mapping;
use crate::model::NormalizedEvent;
use crate::number;
use crate::number::decimal_text;
use crate::rule::eval;
use crate::split;
use crate::split::concat;
use crate::text;
use crate::textmap::TextMap;

verus! {

/// Distinct paths kept per counter. Beyond this a schema is data (keys that
/// are ids, say); known paths keep counting, new ones are dropped.
pub const MAX_PATHS: usize = 5_000;

/// Segments below the column. Deeper than this is not something an analyst
/// types into a rule.
pub const MAX_DEPTH: usize = 6;

/// Array elements indexed per list. `resources` is a short list; beyond a few
/// elements the elements are data, not shape.
pub const MAX_INDEX: usize = 4;

// -------------------------------------------------------------- leaf paths

/// A path one segment longer.
pub open spec fn below(path: Seq<char>, segment: Seq<char>) -> Seq<char> {
    path + "."@ + segment
}

/// The paths of the leaves inside a value that stands at `path`, in order. A
/// null names nothing the event has, and the column itself is no leaf.
pub open spec fn leaves(path: Seq<char>, value: Json, depth: nat) -> Seq<Seq<char>>
    decreases value, 0nat,
{
    match value {
        Json::Object(pairs) => if depth == MAX_DEPTH {
            Seq::empty()
        } else {
            pair_leaves(path, pairs@, pairs@.len(), depth)
        },
        Json::Array(items) => if depth == MAX_DEPTH {
            Seq::empty()
        } else {
            item_leaves(path, items@, indexed(items@.len()), depth)
        },
        Json::Null => Seq::empty(),
        _ => if depth == 0 {
            Seq::empty()
        } else {
            seq![path]
        },
    }
}

/// How many elements of a list are looked at.
pub open spec fn indexed(len: nat) -> nat {
    if len <= MAX_INDEX {
        len
    } else {
        (MAX_INDEX + 1) as nat
    }
}

pub open spec fn pair_leaves(
    path: Seq<char>,
    pairs: Seq<(String, Json)>,
    n: nat,
    depth: nat,
) -> Seq<Seq<char>>
    decreases pairs, n,
{
    if n == 0 || n > pairs.len() {
        Seq::empty()
    } else {
        pair_leaves(path, pairs, (n - 1) as nat, depth) + leaves(
            below(path, pairs[n - 1].0@),
            pairs[n - 1].1,
            depth + 1,
        )
    }
}

pub open spec fn item_leaves(path: Seq<char>, items: Seq<Json>, n: nat, depth: nat) -> Seq<
    Seq<char>,
>
    decreases items, n,
{
    if n == 0 || n > items.len() {
        Seq::empty()
    } else {
        item_leaves(path, items, (n - 1) as nat, depth) + leaves(
            below(path, number::decimal((n - 1) as nat)),
            items[n - 1],
            depth + 1,
        )
    }
}

// ----------------------------------------------------------------- counting

/// A sum that stops at the largest count.
pub open spec fn capped(a: int, b: int) -> u64 {
    if a + b <= u64::MAX {
        (a + b) as u64
    } else {
        u64::MAX
    }
}

/// `n` more of one path. A new path finds room only below the bound.
pub open spec fn bump(counts: Map<Seq<char>, u64>, path: Seq<char>, n: u64) -> Map<
    Seq<char>,
    u64,
> {
    if counts.dom().contains(path) {
        counts.insert(path, capped(counts[path] as int, n as int))
    } else if counts.dom().len() < MAX_PATHS {
        counts.insert(path, n)
    } else {
        counts
    }
}

/// What holds of every counter: few enough paths, each counted at least once.
pub open spec fn well_counted(counts: Map<Seq<char>, u64>) -> bool {
    &&& counts.dom().finite()
    &&& counts.dom().len() <= MAX_PATHS
    &&& forall|path: Seq<char>| #[trigger] counts.dom().contains(path) ==> counts[path] >= 1
}

/// The counts after these paths, one after the other.
pub open spec fn counted(counts: Map<Seq<char>, u64>, paths: Seq<Seq<char>>) -> Map<Seq<char>, u64>
    decreases paths.len(),
{
    if paths.len() == 0 {
        counts
    } else {
        bump(counted(counts, paths.drop_last()), paths.last(), 1)
    }
}

proof fn lemma_counted_add(
    counts: Map<Seq<char>, u64>,
    a: Seq<Seq<char>>,
    b: Seq<Seq<char>>,
)
    ensures
        counted(counts, a + b) == counted(counted(counts, a), b),
    decreases b.len(),
{
    if b.len() == 0 {
        assert(a + b =~= a);
    } else {
        assert((a + b).drop_last() =~= a + b.drop_last());
        lemma_counted_add(counts, a, b.drop_last());
    }
}

fn add_count(counts: &mut TextMap<u64>, path: &str, n: u64)
    requires
        well_counted(old(counts)@),
        n >= 1,
    ensures
        final(counts)@ == bump(old(counts)@, path@, n),
        well_counted(final(counts)@),
{
    let len: usize = counts.len();
    match counts.get(path) {
        Some(count) => {
            let sum: u64 = if *count <= u64::MAX - n {
                *count + n
            } else {
                u64::MAX
            };
            counts.insert(path.to_owned(), sum);
            assert(counts@.dom() =~= old(counts)@.dom());
        },
        None => {
            if len < MAX_PATHS {
                counts.insert(path.to_owned(), n);
                assert(counts@.dom() =~= old(counts)@.dom().insert(path@));
            }
        },
    }
}

/// Counts leaf paths under the payload columns of the events it is shown.
/// Paths are spelled as a rule spells them: `column.key.0.key`.
pub struct KeyCounter {
    counts: TextMap<u64>,
}

impl View for KeyCounter {
    type V = Map<Seq<char>, u64>;

    closed spec fn view(&self) -> Map<Seq<char>, u64> {
        self.counts@
    }
}

/// The paths one event adds.
pub open spec fn event_leaves(event: NormalizedEvent) -> Seq<Seq<char>> {
    column_leaves(event, "request"@) + column_leaves(event, "response"@) + column_leaves(
        event,
        "resources"@,
    )
}

pub open spec fn column_leaves(event: NormalizedEvent, column: Seq<char>) -> Seq<Seq<char>> {
    match eval::column_json(event, column) {
        Some(value) => leaves(column, value, 0),
        None => Seq::empty(),
    }
}

/// The counts after another counter's first `n` paths were folded in.
pub open spec fn folded(
    counts: Map<Seq<char>, u64>,
    keys: Seq<Seq<char>>,
    other: Map<Seq<char>, u64>,
    n: nat,
) -> Map<Seq<char>, u64>
    decreases n,
{
    if n == 0 || n > keys.len() {
        counts
    } else {
        bump(folded(counts, keys, other, (n - 1) as nat), keys[n - 1], other[keys[n - 1]])
    }
}

/// The paths that the first `n` of these events add.
pub open spec fn batch_leaves(events: Seq<NormalizedEvent>, n: nat) -> Seq<Seq<char>>
    decreases n,
{
    if n == 0 || n > events.len() {
        Seq::empty()
    } else {
        batch_leaves(events, (n - 1) as nat) + event_leaves(events[n - 1])
    }
}

/// `out` holds the counts of both: every path of `counts` with its sum, and of
/// the other's paths all where they find room, otherwise as many as do.
pub open spec fn is_merged(
    counts: Map<Seq<char>, u64>,
    other: Map<Seq<char>, u64>,
    out: Map<Seq<char>, u64>,
) -> bool {
    let union = counts.dom().union(other.dom());
    &&& forall|path: Seq<char>| #[trigger]
        counts.dom().contains(path) ==> out.dom().contains(path) && out[path] == (
        if other.dom().contains(path) {
            capped(counts[path] as int, other[path] as int)
        } else {
            counts[path]
        })
    &&& forall|path: Seq<char>| #[trigger]
        out.dom().contains(path) && !counts.dom().contains(path) ==> other.dom().contains(path)
            && out[path] == other[path]
    &&& union.len() <= MAX_PATHS ==> out.dom() == union
    &&& union.len() > MAX_PATHS ==> out.dom().len() == MAX_PATHS
}

impl KeyCounter {
    /// Distinct paths kept per counter.
    pub const MAX_PATHS: usize = 5_000;

    /// The paths in order.
    pub closed spec fn paths(self) -> Seq<Seq<char>> {
        self.counts.keys()
    }

    #[verifier::type_invariant]
    spec fn wf(self) -> bool {
        well_counted(self.counts@)
    }

    pub fn new() -> (r: KeyCounter)
        ensures
            r@ == Map::<Seq<char>, u64>::empty(),
    {
        KeyCounter { counts: TextMap::new() }
    }

    /// Records the paths of one stored event. The payload columns are parsed
    /// here from their stored text.
    pub fn record_event(&mut self, event: &NormalizedEvent)
        ensures
            final(self)@ == counted(old(self)@, event_leaves(*event)),
    {
        let ghost before = self@;
        self.record_column("request", &event.request);
        let ghost a = column_leaves(*event, "request"@);
        assert(self@ == counted(before, a)) by {
            reveal_columns();
        }
        self.record_column("response", &event.response);
        let ghost b = column_leaves(*event, "response"@);
        assert(self@ == counted(before, a + b)) by {
            reveal_columns();
            lemma_counted_add(before, a, b);
        }
        self.record_column("resources", &event.resources);
        let ghost c = column_leaves(*event, "resources"@);
        assert(self@ == counted(before, a + b + c)) by {
            reveal_columns();
            lemma_counted_add(before, a + b, c);
        }
    }

    fn record_column(&mut self, column: &str, text: &Option<String>)
        ensures
            final(self)@ == counted(
                old(self)@,
                match text::opt(*text) {
                    Some(t) => match json::json_of(t) {
                        Some(value) => leaves(column@, value, 0),
                        None => Seq::empty(),
                    },
                    None => Seq::empty(),
                },
            ),
    {
        match text {
            Some(t) => match json::parse(t.as_str()) {
                Some(value) => self.record(column, &value),
                None => {},
            },
            None => {},
        }
    }

    /// Records the leaf paths of one payload value under `column`.
    pub fn record(&mut self, column: &str, value: &Json)
        ensures
            final(self)@ == counted(old(self)@, leaves(column@, *value, 0)),
    {
        proof {
            use_type_invariant(&*self);
        }
        let mut counts: TextMap<u64> = TextMap::new();
        core::mem::swap(&mut counts, &mut self.counts);
        walk(&mut counts, column, value, 0);
        self.counts = counts;
    }

    /// Folds another counter in, summing shared paths. The size bound holds
    /// for the union.
    pub fn merge(&mut self, other: KeyCounter)
        ensures
            final(self)@ == folded(old(self)@, other.paths(), other@, other.paths().len()),
            is_merged(old(self)@, other@, final(self)@),
            other.paths().no_duplicates(),
            forall|path: Seq<char>| #[trigger]
                other.paths().contains(path) <==> other@.dom().contains(path),
    {
        proof {
            use_type_invariant(&*self);
            use_type_invariant(&other);
        }
        let mut counts: TextMap<u64> = TextMap::new();
        core::mem::swap(&mut counts, &mut self.counts);
        let ghost before = counts@;
        let len: usize = other.counts.len();
        let mut i: usize = 0;
        while i < len
            invariant
                i <= len,
                len == other.counts.keys().len(),
                well_counted(other@),
                well_counted(counts@),
                counts@ == folded(before, other.paths(), other@, i as nat),
            decreases len - i,
        {
            let (path, n): (&str, &u64) = other.counts.entry(i);
            let n: u64 = *n;
            add_count(&mut counts, path, n);
            i = i + 1;
        }
        proof {
            lemma_merged(before, other.paths(), other@);
        }
        self.counts = counts;
    }

    /// Records the paths of a batch of stored events.
    pub fn record_batch(&mut self, events: &Vec<NormalizedEvent>)
        ensures
            final(self)@ == counted(old(self)@, batch_leaves(events@, events@.len())),
    {
        let ghost before = self@;
        let mut i: usize = 0;
        while i < events.len()
            invariant
                i <= events@.len(),
                self@ == counted(before, batch_leaves(events@, i as nat)),
            decreases events@.len() - i,
        {
            self.record_event(&events[i]);
            proof {
                lemma_counted_add(
                    before,
                    batch_leaves(events@, i as nat),
                    event_leaves(events@[i as int]),
                );
            }
            i = i + 1;
        }
    }

    /// The counted paths, in order.
    pub fn counts(&self) -> (r: Vec<(&str, u64)>)
        ensures
            r@.len() == self.paths().len(),
            r@.len() == self@.dom().len(),
            r@.len() <= MAX_PATHS,
            self.paths().no_duplicates(),
            forall|i: int| 0 <= i < r@.len() ==> (#[trigger] r@[i]).1 >= 1,
            forall|i: int|
                0 <= i < r@.len() ==> (#[trigger] r@[i]).0@ == self.paths()[i] && self@.dom().contains(
                    r@[i].0@,
                ) && self@[r@[i].0@] == r@[i].1,
            forall|path: Seq<char>| #[trigger]
                self@.dom().contains(path) <==> self.paths().contains(path),
    {
        proof {
            use_type_invariant(self);
        }
        let len: usize = self.counts.len();
        let mut out: Vec<(&str, u64)> = Vec::new();
        let mut i: usize = 0;
        while i < len
            invariant
                i <= len,
                len == self.counts.keys().len(),
                out@.len() == i,
                forall|k: int|
                    0 <= k < i ==> (#[trigger] out@[k]).0@ == self.paths()[k]
                        && self@.dom().contains(out@[k].0@) && self@[out@[k].0@] == out@[k].1,
            decreases len - i,
        {
            let (path, n): (&str, &u64) = self.counts.entry(i);
            let n: u64 = *n;
            out.push((path, n));
            i = i + 1;
        }
        out
    }

    /// How many distinct paths were counted, never more than `MAX_PATHS`.
    pub fn len(&self) -> (n: usize)
        ensures
            n == self@.dom().len(),
            n <= MAX_PATHS,
    {
        proof {
            use_type_invariant(&*self);
        }
        self.counts.len()
    }

    pub fn is_empty(&self) -> (b: bool)
        ensures
            b == (self@.dom().len() == 0),
    {
        self.counts.len() == 0
    }
}

impl Default for KeyCounter {
    fn default() -> (r: Self)
        ensures
            r@ == Map::<Seq<char>, u64>::empty(),
    {
        KeyCounter::new()
    }
}

// ------------------------------------------------------------ per log type

/// The counts of each log type that a run has stored events of.
pub struct TypeCounters {
    list: Vec<(LogType, KeyCounter)>,
}

/// The counts of a log type; none where it has not come up.
pub open spec fn counts_of(
    all: Map<LogType, Map<Seq<char>, u64>>,
    log_type: LogType,
) -> Map<Seq<char>, u64> {
    if all.dom().contains(log_type) {
        all[log_type]
    } else {
        Map::empty()
    }
}

/// A path that a run has stored, and how often.
#[derive(Debug, Clone, PartialEq)]
pub struct KeyRow {
    pub log_type: LogType,
    pub path: String,
    pub events: u64,
}

impl TypeCounters {
    spec fn types(self) -> Seq<LogType> {
        Seq::new(self.list@.len(), |i: int| self.list@[i].0)
    }

    #[verifier::type_invariant]
    spec fn wf(self) -> bool {
        self.types().no_duplicates()
    }
}

impl View for TypeCounters {
    type V = Map<LogType, Map<Seq<char>, u64>>;

    closed spec fn view(&self) -> Map<LogType, Map<Seq<char>, u64>> {
        Map::new(
            |t: LogType| self.types().contains(t),
            |t: LogType| self.list@[self.types().index_of(t)].1@,
        )
    }
}

spec fn is_row_of(row: KeyRow, own: (LogType, KeyCounter)) -> bool {
    row.log_type == own.0 && own.1@.dom().contains(row.path@) && own.1@[row.path@] == row.events
}

spec fn has_row(rows: Seq<KeyRow>, log_type: LogType, path: Seq<char>) -> bool {
    exists|i: int|
        0 <= i < rows.len() && (#[trigger] rows[i]).log_type == log_type && rows[i].path@ == path
}

/// The rows list the paths of the first `n` counters, each once.
spec fn listed(rows: Seq<KeyRow>, list: Seq<(LogType, KeyCounter)>, n: int) -> bool {
    &&& forall|i: int|
        0 <= i < rows.len() ==> exists|m: int|
            0 <= m < n && is_row_of(#[trigger] rows[i], #[trigger] list[m])
    &&& forall|i: int, j: int|
        0 <= i < j < rows.len() ==> !((#[trigger] rows[i]).log_type == (
        #[trigger] rows[j]).log_type && rows[i].path@ == rows[j].path@)
    &&& forall|m: int, path: Seq<char>|
        0 <= m < n && (#[trigger] list[m]).1@.dom().contains(path) ==> #[trigger] has_row(
            rows,
            list[m].0,
            path,
        )
}

proof fn lemma_listed(
    before: Seq<KeyRow>,
    after: Seq<KeyRow>,
    list: Seq<(LogType, KeyCounter)>,
    n: int,
    paths: Seq<Seq<char>>,
)
    requires
        0 <= n < list.len(),
        listed(before, list, n),
        forall|a: int, b: int| 0 <= a < b < list.len() ==> (#[trigger] list[a]).0 != (
        #[trigger] list[b]).0,
        paths.no_duplicates(),
        forall|path: Seq<char>| #[trigger]
            list[n].1@.dom().contains(path) <==> paths.contains(path),
        after.len() == before.len() + paths.len(),
        forall|m: int| 0 <= m < before.len() ==> #[trigger] after[m] == before[m],
        forall|m: int|
            before.len() <= m < after.len() ==> is_row_of(#[trigger] after[m], list[n])
                && after[m].path@ == paths[m - before.len()],
    ensures
        listed(after, list, n + 1),
{
    assert forall|i: int| 0 <= i < after.len() implies exists|m: int|
        0 <= m < n + 1 && is_row_of(#[trigger] after[i], #[trigger] list[m]) by {
        if i < before.len() {
            let m = choose|m: int|
                0 <= m < n && is_row_of(#[trigger] before[i], #[trigger] list[m]);
            assert(is_row_of(after[i], list[m]));
        } else {
            assert(is_row_of(after[i], list[n]));
        }
    }
    assert forall|i: int, j: int| 0 <= i < j < after.len() implies !((#[trigger] after[i]).log_type
        == (#[trigger] after[j]).log_type && after[i].path@ == after[j].path@) by {
        if j < before.len() {
            assert(after[i] == before[i] && after[j] == before[j]);
        } else if i < before.len() {
            let m = choose|m: int|
                0 <= m < n && is_row_of(#[trigger] before[i], #[trigger] list[m]);
            assert(after[i] == before[i]);
            assert(list[m].0 != list[n].0);
        } else {
            assert(paths[i - before.len()] != paths[j - before.len()]);
        }
    }
    assert forall|m: int, path: Seq<char>|
        0 <= m < n + 1 && (#[trigger] list[m]).1@.dom().contains(path) implies #[trigger] has_row(
        after,
        list[m].0,
        path,
    ) by {
        if m < n {
            assert(has_row(before, list[m].0, path));
            let i = choose|i: int|
                0 <= i < before.len() && (#[trigger] before[i]).log_type == list[m].0
                    && before[i].path@ == path;
            assert(after[i] == before[i]);
        } else {
            assert(paths.contains(path));
            let k = paths.index_of(path);
            assert(after[before.len() + k].path@ == path);
        }
    }
}

impl TypeCounters {
    pub fn new() -> (r: TypeCounters)
        ensures
            r@ == Map::<LogType, Map<Seq<char>, u64>>::empty(),
    {
        let r = TypeCounters { list: Vec::new() };
        assert(r@ =~= Map::empty());
        r
    }

    /// Folds the counts of one file in under the file's log type.
    pub fn merge(&mut self, log_type: LogType, counter: KeyCounter)
        ensures
            final(self)@.dom() == old(self)@.dom().insert(log_type),
            is_merged(counts_of(old(self)@, log_type), counter@, final(self)@[log_type]),
            forall|t: LogType|
                t != log_type && #[trigger] old(self)@.dom().contains(t) ==> final(self)@[t]
                    == old(self)@[t],
    {
        proof {
            use_type_invariant(&*self);
        }
        let ghost before = *self;
        let ghost types = self.types();
        let mut list: Vec<(LogType, KeyCounter)> = Vec::new();
        core::mem::swap(&mut list, &mut self.list);
        let n: usize = list.len();
        let mut i: usize = 0;
        while i < n && list[i].0 != log_type
            invariant
                i <= n,
                n == list@.len(),
                list == before.list,
                types == before.types(),
                forall|k: int| 0 <= k < i ==> (#[trigger] list@[k]).0 != log_type,
            decreases n - i,
        {
            i = i + 1;
        }
        let mut own = if i < n {
            list.remove(i).1
        } else {
            KeyCounter::new()
        };
        let ghost sofar = own@;
        own.merge(counter);
        let ghost summed = own@;
        list.push((log_type, own));
        let ghost next = TypeCounters { list };
        proof {
            let place = if i < n {
                i as int
            } else {
                n as int
            };
            if i < n {
                assert(types[i as int] == log_type);
                assert(next.types() =~= types.remove(i as int).push(log_type));
            } else {
                assert(next.types() =~= types.push(log_type));
                if types.contains(log_type) {
                    let k = types.index_of(log_type);
                    assert(list@[k].0 == log_type);
                }
            }
            let later = next.types();
            assert forall|a: int, b: int| 0 <= a < b < later.len() implies later[a] != later[b] by {
                let oa = if a < place {
                    a
                } else {
                    a + 1
                };
                let ob = if b < place {
                    b
                } else {
                    b + 1
                };
                assert(later[a] == types[oa]);
                if b < later.len() - 1 {
                    assert(later[b] == types[ob]);
                } else if i < n {
                    assert(types[oa] != types[i as int]);
                } else {
                    assert(before.list@[oa].0 != log_type);
                }
            }
            assert(later[later.len() - 1] == log_type);
            assert(sofar == counts_of(before@, log_type)) by {
                if i < n {
                    assert(types.contains(log_type));
                    assert(types[types.index_of(log_type)] == types[i as int]);
                }
            }
            assert(next@[log_type] == summed) by {
                assert(later.contains(log_type));
                assert(later[later.index_of(log_type)] == later[later.len() - 1]);
            }
            assert forall|t: LogType| t != log_type && #[trigger]
                before@.dom().contains(t) implies next@.dom().contains(t) && next@[t]
                == before@[t] by {
                let k = types.index_of(t);
                let m = if k < place {
                    k
                } else {
                    k - 1
                };
                assert(later[m] == t);
                assert(later[later.index_of(t)] == later[m]);
            }
            assert forall|t: LogType| next@.dom().contains(t) implies t == log_type
                || before@.dom().contains(t) by {
                let m = later.index_of(t);
                if m < later.len() - 1 {
                    let k = if m < place {
                        m
                    } else {
                        m + 1
                    };
                    assert(types[k] == t);
                }
            }
            assert(next@.dom() =~= before@.dom().insert(log_type));
        }
        self.list = list;
        assert(*self == next);
    }

    /// Every path with its log type and count: each once, and all of them.
    pub fn rows(&self) -> (r: Vec<KeyRow>)
        ensures
            forall|i: int|
                0 <= i < r@.len() ==> self@.dom().contains((#[trigger] r@[i]).log_type)
                    && self@[r@[i].log_type].dom().contains(r@[i].path@)
                    && self@[r@[i].log_type][r@[i].path@] == r@[i].events,
            forall|i: int, j: int|
                0 <= i < j < r@.len() ==> !((#[trigger] r@[i]).log_type == (
                #[trigger] r@[j]).log_type && r@[i].path@ == r@[j].path@),
            forall|t: LogType, path: Seq<char>|
                self@.dom().contains(t) && #[trigger] self@[t].dom().contains(path) ==> exists|i: int|
                    0 <= i < r@.len() && (#[trigger] r@[i]).log_type == t && r@[i].path@ == path,
    {
        proof {
            use_type_invariant(self);
        }
        let mut out: Vec<KeyRow> = Vec::new();
        let mut i: usize = 0;
        while i < self.list.len()
            invariant
                i <= self.list@.len(),
                self.wf(),
                listed(out@, self.list@, i as int),
            decreases self.list@.len() - i,
        {
            let counts = self.list[i].1.counts();
            let ghost before = out@;
            let ghost here = self.list@[i as int].1;
            let mut k: usize = 0;
            while k < counts.len()
                invariant
                    i < self.list@.len(),
                    self.wf(),
                    k <= counts@.len(),
                    here == self.list@[i as int].1,
                    listed(before, self.list@, i as int),
                    counts@.len() == here.paths().len(),
                    here.paths().no_duplicates(),
                    forall|path: Seq<char>| #[trigger]
                        here@.dom().contains(path) <==> here.paths().contains(path),
                    forall|m: int|
                        0 <= m < counts@.len() ==> (#[trigger] counts@[m]).0@ == here.paths()[m]
                            && here@.dom().contains(counts@[m].0@) && here@[counts@[m].0@]
                            == counts@[m].1,
                    out@.len() == before.len() + k,
                    forall|m: int| 0 <= m < before.len() ==> #[trigger] out@[m] == before[m],
                    forall|m: int|
                        0 <= m < k ==> (#[trigger] out@[before.len() + m]).log_type
                            == self.list@[i as int].0 && out@[before.len() + m].path@
                            == here.paths()[m] && out@[before.len() + m].events == counts@[m].1,
                decreases counts@.len() - k,
            {
                let (path, events): (&str, u64) = counts[k];
                out.push(
                    KeyRow { log_type: self.list[i].0, path: path.to_owned(), events },
                );
                k = k + 1;
            }
            proof {
                assert forall|a: int, b: int| 0 <= a < b < self.list@.len() implies (
                #[trigger] self.list@[a]).0 != (#[trigger] self.list@[b]).0 by {
                    assert(self.types()[a] != self.types()[b]);
                }
                assert forall|m: int| before.len() <= m < out@.len() implies is_row_of(
                    #[trigger] out@[m],
                    self.list@[i as int],
                ) && out@[m].path@ == here.paths()[m - before.len()] by {
                    let k = m - before.len();
                    assert(out@[before.len() + k] == out@[m]);
                    assert(counts@[k].0@ == here.paths()[k]);
                }
                lemma_listed(before, out@, self.list@, i as int, here.paths());
            }
            i = i + 1;
        }
        proof {
            let types = self.types();
            assert forall|m: int| 0 <= m < self.list@.len() implies self@.dom().contains(
                (#[trigger] self.list@[m]).0,
            ) && self@[self.list@[m].0] == self.list@[m].1@ by {
                assert(types[m] == self.list@[m].0);
                assert(types.contains(types[m]));
                assert(types[types.index_of(types[m])] == types[m]);
            }
            assert forall|i: int| 0 <= i < out@.len() implies self@.dom().contains(
                (#[trigger] out@[i]).log_type,
            ) && self@[out@[i].log_type].dom().contains(out@[i].path@)
                && self@[out@[i].log_type][out@[i].path@] == out@[i].events by {
                let m = choose|m: int|
                    0 <= m < self.list@.len() && is_row_of(
                        #[trigger] out@[i],
                        #[trigger] self.list@[m],
                    );
            }
            assert forall|t: LogType, path: Seq<char>|
                self@.dom().contains(t) && #[trigger] self@[t].dom().contains(path) implies exists|
                i: int,
            |
                0 <= i < out@.len() && (#[trigger] out@[i]).log_type == t && out@[i].path@
                    == path by {
                let m = types.index_of(t);
                assert(types[m] == t);
                assert(self.list@[m].1@.dom().contains(path));
                assert(has_row(out@, self.list@[m].0, path));
            }
        }
        out
    }
}

/// The payload columns have different names.
proof fn reveal_columns()
    ensures
        "request"@ != "response"@,
        "request"@ != "resources"@,
        "response"@ != "resources"@,
{
    reveal_strlit("request");
    reveal_strlit("response");
    reveal_strlit("resources");
    assert("request"@.len() != "response"@.len());
    assert("request"@.len() != "resources"@.len());
    assert("response"@.len() != "resources"@.len());
}

fn walk(counts: &mut TextMap<u64>, path: &str, value: &Json, depth: usize)
    requires
        well_counted(old(counts)@),
        depth <= MAX_DEPTH,
    ensures
        final(counts)@ == counted(old(counts)@, leaves(path@, *value, depth as nat)),
        well_counted(final(counts)@),
    decreases *value,
{
    let ghost before = counts@;
    match value {
        Json::Object(pairs) => {
            if depth == MAX_DEPTH {
                return;
            }
            let base = concat(path, ".");
            let len: usize = pairs.len();
            let mut i: usize = 0;
            while i < len
                invariant
                    i <= len,
                    len == pairs@.len(),
                    *value == Json::Object(*pairs),
                    depth < MAX_DEPTH,
                    base@ == path@ + "."@,
                    well_counted(counts@),
                    counts@ == counted(
                        before,
                        pair_leaves(path@, pairs@, i as nat, depth as nat),
                    ),
                decreases len - i,
            {
                assert(decreases_to!(*value => value->Object_0));
                assert(decreases_to!(value->Object_0 => pairs@));
                assert(decreases_to!(pairs@ => pairs@[i as int]));
                assert(decreases_to!(pairs@[i as int] => pairs@[i as int].1));
                let pair = &pairs[i];
                let child = concat(base.as_str(), pair.0.as_str());
                walk(counts, child.as_str(), &pair.1, depth + 1);
                i = i + 1;
                proof {
                    lemma_counted_add(
                        before,
                        pair_leaves(path@, pairs@, (i - 1) as nat, depth as nat),
                        leaves(child@, pairs@[i - 1].1, (depth + 1) as nat),
                    );
                }
            }
        },
        Json::Array(items) => {
            if depth == MAX_DEPTH {
                return;
            }
            let base = concat(path, ".");
            let len: usize = if items.len() <= MAX_INDEX {
                items.len()
            } else {
                MAX_INDEX + 1
            };
            let mut i: usize = 0;
            while i < len
                invariant
                    i <= len,
                    len == indexed(items@.len()),
                    len <= items@.len(),
                    *value == Json::Array(*items),
                    depth < MAX_DEPTH,
                    base@ == path@ + "."@,
                    well_counted(counts@),
                    counts@ == counted(
                        before,
                        item_leaves(path@, items@, i as nat, depth as nat),
                    ),
                decreases len - i,
            {
                assert(decreases_to!(*value => value->Array_0));
                assert(decreases_to!(value->Array_0 => items@));
                assert(decreases_to!(items@ => items@[i as int]));
                let child = concat(base.as_str(), decimal_text(i as u64).as_str());
                walk(counts, child.as_str(), &items[i], depth + 1);
                i = i + 1;
                proof {
                    lemma_counted_add(
                        before,
                        item_leaves(path@, items@, (i - 1) as nat, depth as nat),
                        leaves(child@, items@[i - 1], (depth + 1) as nat),
                    );
                }
            }
        },
        Json::Null => {},
        _ => {
            if depth > 0 {
                add_count(counts, path, 1);
                assert(seq![path@].drop_last() =~= Seq::empty());
                assert(counted(before, seq![path@].drop_last()) == before);
            }
        },
    }
}

// --------------------------------------------------------------------- laws

/// Every object key inside is its only one of that name and free of dots, so
/// a path can spell it.
pub open spec fn spellable(value: Json) -> bool
    decreases value, 0nat,
{
    match value {
        Json::Object(pairs) => pairs_spellable(pairs@, pairs@.len()),
        Json::Array(items) => items_spellable(items@, items@.len()),
        _ => true,
    }
}

pub open spec fn pairs_spellable(pairs: Seq<(String, Json)>, n: nat) -> bool
    decreases pairs, n,
{
    if n == 0 || n > pairs.len() {
        true
    } else {
        &&& pairs_spellable(pairs, (n - 1) as nat)
        &&& spellable(pairs[n - 1].1)
        &&& !pairs[n - 1].0@.contains('.')
        &&& forall|j: int| 0 <= j < n - 1 ==> (#[trigger] pairs[j]).0@ != pairs[n - 1].0@
    }
}

pub open spec fn items_spellable(items: Seq<Json>, n: nat) -> bool
    decreases items, n,
{
    if n == 0 || n > items.len() {
        true
    } else {
        items_spellable(items, (n - 1) as nat) && spellable(items[n - 1])
    }
}

/// A value that is neither a container nor null.
pub open spec fn is_leaf(value: Json) -> bool {
    !(value is Object || value is Array || value is Null)
}

/// `path` leads from the column's value to `value`.
spec fn leads_to(root: Json, column: Seq<char>, path: Seq<char>, value: Json) -> bool {
    ||| path == column && value == root
    ||| exists|rest: Seq<char>|
        path == #[trigger] below(column, rest) && mapping::value_at(root, rest) == Some(value)
}

proof fn lemma_split_longer(s: Seq<char>, k: Seq<char>, start: int)
    requires
        0 <= start <= s.len(),
        !k.contains('.'),
    ensures
        split::split_from(below(s, k), '.', start) == split::split_from(s, '.', start).push(k),
    decreases s.len() - start,
{
    reveal_strlit(".");
    let t = below(s, k);
    assert(t.len() == s.len() + 1 + k.len());
    assert(forall|j: int| 0 <= j < s.len() ==> t[j] == s[j]);
    assert(t[s.len() as int] == '.');
    assert(forall|j: int| s.len() < j < t.len() ==> t[j] == k[j - s.len() - 1]);
    split::lemma_find_from(s, '.', start);
    split::lemma_find_from(t, '.', start);
    split::lemma_find_from(t, '.', s.len() as int + 1);
    match split::find_from(s, '.', start) {
        Some(m) => {
            let m2 = split::find_from(t, '.', start)->Some_0;
            assert(m2 == m) by {
                if m2 < m {
                    assert(s[m2] == t[m2]);
                } else if m < m2 {
                    assert(t[m] == '.');
                }
            }
            lemma_split_longer(s, k, m + 1);
            assert(t.subrange(start, m) =~= s.subrange(start, m));
            assert(seq![s.subrange(start, m)] + split::split_from(s, '.', m + 1).push(k)
                =~= (seq![s.subrange(start, m)] + split::split_from(s, '.', m + 1)).push(k));
        },
        None => {
            let m2 = split::find_from(t, '.', start)->Some_0;
            assert(split::find_from(t, '.', start) is Some);
            assert(m2 == s.len()) by {
                if m2 < s.len() {
                    assert(s[m2] == t[m2]);
                } else if m2 > s.len() {
                    assert(t[s.len() as int] == '.');
                }
            }
            assert(split::find_from(t, '.', s.len() as int + 1) is None) by {
                if let Some(m3) = split::find_from(t, '.', s.len() as int + 1) {
                    assert(k[m3 - s.len() - 1] == '.');
                }
            }
            assert(t.subrange(start, m2) =~= s.subrange(start, s.len() as int));
            assert(t.subrange(m2 + 1, t.len() as int) =~= k);
            assert(split::split_from(t, '.', m2 + 1) == seq![k]);
            assert(seq![s.subrange(start, s.len() as int)] + seq![k] =~= seq![
                s.subrange(start, s.len() as int),
            ].push(k));
        },
    }
}

proof fn lemma_descend_longer(value: Json, segments: Seq<Seq<char>>, k: Seq<char>)
    ensures
        mapping::descend(value, segments.push(k)) == (match mapping::descend(value, segments) {
            Some(next) => mapping::step(next, k),
            None => None,
        }),
    decreases segments.len(),
{
    let longer = segments.push(k);
    if segments.len() == 0 {
        assert(longer.drop_first() =~= segments);
        if let Some(next) = mapping::step(value, k) {
            assert(mapping::descend(next, longer.drop_first()) == Some(next));
        }
    } else {
        assert(longer.drop_first() =~= segments.drop_first().push(k));
        if let Some(next) = mapping::step(value, segments[0]) {
            lemma_descend_longer(next, segments.drop_first(), k);
        }
    }
}

proof fn lemma_leads_further(
    root: Json,
    column: Seq<char>,
    path: Seq<char>,
    value: Json,
    k: Seq<char>,
    child: Json,
)
    requires
        leads_to(root, column, path, value),
        mapping::step(value, k) == Some(child),
        !k.contains('.'),
    ensures
        leads_to(root, column, below(path, k), child),
{
    if path == column && value == root {
        split::lemma_find_from(k, '.', 0);
        if let Some(m) = split::find_from(k, '.', 0) {
            assert(k.contains(k[m]));
        }
        assert(k.subrange(0, k.len() as int) =~= k);
        assert(split::split(k, '.') == seq![k]);
        assert(seq![k].drop_first() =~= Seq::empty());
        assert(mapping::descend(child, seq![k].drop_first()) == Some(child));
        assert(mapping::value_at(root, k) == Some(child));
    } else {
        let rest = choose|rest: Seq<char>|
            path == #[trigger] below(column, rest) && mapping::value_at(root, rest) == Some(value);
        let longer = below(rest, k);
        lemma_split_longer(rest, k, 0);
        lemma_descend_longer(root, split::split(rest, '.'), k);
        assert(below(path, k) =~= below(column, longer));
        assert(mapping::value_at(root, longer) == Some(child));
    }
}

proof fn lemma_index_text(n: nat)
    requires
        n <= MAX_INDEX,
    ensures
        !number::decimal(n).contains('.'),
        number::parse_unsigned(number::decimal(n), usize::MAX as nat) == Some(n),
{
    let t = number::decimal(n);
    assert(t.len() == 1);
    assert(t[0] == number::digit_char(n));
    assert(t.drop_last() =~= Seq::empty());
    reveal_with_fuel(number::digits_value, 2);
    assert(t.last() == t[0]);
    assert(number::all_digits(t));
    assert(number::digits_value(t) == n);
}

proof fn lemma_member_of(pairs: Seq<(String, Json)>, n: nat, i: int, from: int)
    requires
        pairs_spellable(pairs, n),
        n <= pairs.len(),
        0 <= from <= i < n,
    ensures
        json::pair_from(pairs, pairs[i].0@, from) == Some(pairs[i].1),
        !pairs[i].0@.contains('.'),
        spellable(pairs[i].1),
    decreases n, i - from,
{
    if i < n - 1 {
        lemma_member_of(pairs, (n - 1) as nat, i, from);
    } else if from < i {
        assert(pairs[from].0@ != pairs[i].0@);
        lemma_member_of(pairs, n, i, from + 1);
    }
}

proof fn lemma_item_of(items: Seq<Json>, n: nat, i: int)
    requires
        items_spellable(items, n),
        n <= items.len(),
        0 <= i < n,
    ensures
        spellable(items[i]),
    decreases n,
{
    if i < n - 1 {
        lemma_item_of(items, (n - 1) as nat, i);
    }
}

proof fn lemma_leaves(
    root: Json,
    column: Seq<char>,
    path: Seq<char>,
    value: Json,
    depth: nat,
    leaf: Seq<char>,
)
    requires
        spellable(value),
        leads_to(root, column, path, value),
        leaves(path, value, depth).contains(leaf),
    ensures
        exists|v: Json| #[trigger] leads_to(root, column, leaf, v) && is_leaf(v),
        depth > 0 || leaf != column,
    decreases value, 0nat,
{
    match value {
        Json::Object(pairs) => {
            assert(decreases_to!(value => pairs));
            assert(decreases_to!(pairs => pairs@));
            lemma_pair_leaves(root, column, path, value, pairs@, pairs@.len(), depth, leaf);
        },
        Json::Array(items) => {
            assert(decreases_to!(value => items));
            assert(decreases_to!(items => items@));
            lemma_item_leaves(
                root,
                column,
                path,
                value,
                items@,
                indexed(items@.len()),
                depth,
                leaf,
            );
        },
        _ => {
            assert(leaf == path);
            assert(leads_to(root, column, leaf, value) && is_leaf(value));
        },
    }
}

proof fn lemma_pair_leaves(
    root: Json,
    column: Seq<char>,
    path: Seq<char>,
    value: Json,
    pairs: Seq<(String, Json)>,
    n: nat,
    depth: nat,
    leaf: Seq<char>,
)
    requires
        value matches Json::Object(all) && all@ == pairs,
        n <= pairs.len(),
        spellable(value),
        leads_to(root, column, path, value),
        pair_leaves(path, pairs, n, depth).contains(leaf),
    ensures
        exists|v: Json| #[trigger] leads_to(root, column, leaf, v) && is_leaf(v),
        depth > 0 || leaf != column,
    decreases pairs, n,
{
    let first = pair_leaves(path, pairs, (n - 1) as nat, depth);
    let last = leaves(below(path, pairs[n - 1].0@), pairs[n - 1].1, depth + 1);
    let at = (first + last).index_of(leaf);
    assert((first + last)[at] == leaf);
    if at < first.len() {
        assert(first[at] == leaf);
        lemma_pair_leaves(root, column, path, value, pairs, (n - 1) as nat, depth, leaf);
    } else {
        assert(last[at - first.len()] == leaf);
        lemma_member_of(pairs, pairs.len(), n - 1, 0);
        let key = pairs[n - 1].0@;
        lemma_leads_further(root, column, path, value, key, pairs[n - 1].1);
        assert(decreases_to!(pairs => pairs[n - 1]));
        assert(decreases_to!(pairs[n - 1] => pairs[n - 1].1));
        lemma_leaves(root, column, below(path, key), pairs[n - 1].1, depth + 1, leaf);
        lemma_longer(column, path, pairs[n - 1].1, key, depth + 1, leaf, root, value);
    }
}

proof fn lemma_item_leaves(
    root: Json,
    column: Seq<char>,
    path: Seq<char>,
    value: Json,
    items: Seq<Json>,
    n: nat,
    depth: nat,
    leaf: Seq<char>,
)
    requires
        value matches Json::Array(all) && all@ == items,
        n <= indexed(items.len()),
        spellable(value),
        leads_to(root, column, path, value),
        item_leaves(path, items, n, depth).contains(leaf),
    ensures
        exists|v: Json| #[trigger] leads_to(root, column, leaf, v) && is_leaf(v),
        depth > 0 || leaf != column,
    decreases items, n,
{
    let index = number::decimal((n - 1) as nat);
    let first = item_leaves(path, items, (n - 1) as nat, depth);
    let last = leaves(below(path, index), items[n - 1], depth + 1);
    let at = (first + last).index_of(leaf);
    assert((first + last)[at] == leaf);
    if at < first.len() {
        assert(first[at] == leaf);
        lemma_item_leaves(root, column, path, value, items, (n - 1) as nat, depth, leaf);
    } else {
        assert(last[at - first.len()] == leaf);
        lemma_item_of(items, items.len(), n - 1);
        lemma_index_text((n - 1) as nat);
        lemma_leads_further(root, column, path, value, index, items[n - 1]);
        assert(decreases_to!(items => items[n - 1]));
        lemma_leaves(root, column, below(path, index), items[n - 1], depth + 1, leaf);
        lemma_longer(column, path, items[n - 1], index, depth + 1, leaf, root, value);
    }
}

/// Paths only grow on the way down, so none is the bare column.
proof fn lemma_longer(
    column: Seq<char>,
    path: Seq<char>,
    child: Json,
    key: Seq<char>,
    depth: nat,
    leaf: Seq<char>,
    root: Json,
    value: Json,
)
    requires
        leads_to(root, column, path, value),
        leaves(below(path, key), child, depth).contains(leaf),
    ensures
        leaf != column,
{
    reveal_strlit(".");
    lemma_leaf_length(below(path, key), child, depth, leaf);
    assert(below(path, key).len() > path.len());
    if path != column {
        let rest = choose|rest: Seq<char>|
            path == #[trigger] below(column, rest) && mapping::value_at(root, rest) == Some(value);
        assert(below(column, rest).len() > column.len());
    }
}

proof fn lemma_leaf_length(path: Seq<char>, value: Json, depth: nat, leaf: Seq<char>)
    requires
        leaves(path, value, depth).contains(leaf),
    ensures
        leaf.len() >= path.len(),
    decreases value, 0nat,
{
    match value {
        Json::Object(pairs) => {
            assert(decreases_to!(value => pairs));
            assert(decreases_to!(pairs => pairs@));
            lemma_pair_leaf_length(path, pairs@, pairs@.len(), depth, leaf);
        },
        Json::Array(items) => {
            assert(decreases_to!(value => items));
            assert(decreases_to!(items => items@));
            lemma_item_leaf_length(path, items@, indexed(items@.len()), depth, leaf);
        },
        _ => {},
    }
}

proof fn lemma_pair_leaf_length(
    path: Seq<char>,
    pairs: Seq<(String, Json)>,
    n: nat,
    depth: nat,
    leaf: Seq<char>,
)
    requires
        pair_leaves(path, pairs, n, depth).contains(leaf),
    ensures
        leaf.len() >= path.len(),
    decreases pairs, n,
{
    let first = pair_leaves(path, pairs, (n - 1) as nat, depth);
    let last = leaves(below(path, pairs[n - 1].0@), pairs[n - 1].1, depth + 1);
    let at = (first + last).index_of(leaf);
    assert((first + last)[at] == leaf);
    if at < first.len() {
        assert(first[at] == leaf);
        lemma_pair_leaf_length(path, pairs, (n - 1) as nat, depth, leaf);
    } else {
        assert(last[at - first.len()] == leaf);
        assert(decreases_to!(pairs => pairs[n - 1]));
        assert(decreases_to!(pairs[n - 1] => pairs[n - 1].1));
        lemma_leaf_length(below(path, pairs[n - 1].0@), pairs[n - 1].1, depth + 1, leaf);
    }
}

proof fn lemma_item_leaf_length(
    path: Seq<char>,
    items: Seq<Json>,
    n: nat,
    depth: nat,
    leaf: Seq<char>,
)
    requires
        item_leaves(path, items, n, depth).contains(leaf),
    ensures
        leaf.len() >= path.len(),
    decreases items, n,
{
    let index = number::decimal((n - 1) as nat);
    let first = item_leaves(path, items, (n - 1) as nat, depth);
    let last = leaves(below(path, index), items[n - 1], depth + 1);
    let at = (first + last).index_of(leaf);
    assert((first + last)[at] == leaf);
    if at < first.len() {
        assert(first[at] == leaf);
        lemma_item_leaf_length(path, items, (n - 1) as nat, depth, leaf);
    } else {
        assert(last[at - first.len()] == leaf);
        assert(decreases_to!(items => items[n - 1]));
        lemma_leaf_length(below(path, index), items[n - 1], depth + 1, leaf);
    }
}

/// A discovered path is spelled as a rule spells it: used as the field of a
/// rule it reads a value out of the event it was discovered in.
pub proof fn discovered_paths_resolve(
    event: NormalizedEvent,
    column: Seq<char>,
    value: Json,
    leaf: Seq<char>,
)
    requires
        !column.contains('.'),
        eval::column_json(event, column) == Some(value),
        spellable(value),
        leaves(column, value, 0).contains(leaf),
    ensures
        eval::field_value(leaf, event) is Some,
{
    lemma_leaves(value, column, column, value, 0, leaf);
    let v = choose|v: Json| #[trigger] leads_to(value, column, leaf, v) && is_leaf(v);
    let rest = choose|rest: Seq<char>|
        leaf == #[trigger] below(column, rest) && mapping::value_at(value, rest) == Some(v);
    reveal_strlit(".");
    let t = below(column, rest);
    assert(t[column.len() as int] == '.');
    assert(forall|j: int| 0 <= j < column.len() ==> t[j] == column[j]);
    split::lemma_find_from(t, '.', 0);
    assert(split::find_from(t, '.', 0) == Some(column.len() as int)) by {
        let k = split::find_from(t, '.', 0)->Some_0;
        if k < column.len() {
            assert(column.contains(column[k]));
        } else if k > column.len() {
            assert(t[column.len() as int] == '.');
        }
    }
    assert(t.take(column.len() as int) =~= column);
    assert(t.skip(column.len() as int + 1) =~= rest);
}

proof fn lemma_folded(
    counts: Map<Seq<char>, u64>,
    keys: Seq<Seq<char>>,
    other: Map<Seq<char>, u64>,
    n: nat,
    path: Seq<char>,
)
    requires
        n <= keys.len(),
        keys.no_duplicates(),
        counts.dom().finite(),
        counts.dom().len() <= MAX_PATHS,
    ensures
        ({
            let out = folded(counts, keys, other, n);
            let listed = keys.take(n as int).contains(path);
            &&& out.dom().finite()
            &&& out.dom().len() <= MAX_PATHS
            &&& counts.dom().subset_of(out.dom())
            &&& out.dom().subset_of(counts.dom().union(keys.take(n as int).to_set()))
            &&& counts.dom().contains(path) ==> out[path] == (if listed {
                capped(counts[path] as int, other[path] as int)
            } else {
                counts[path]
            })
            &&& !counts.dom().contains(path) && out.dom().contains(path) ==> listed && out[path]
                == other[path]
            &&& out.dom().len() < MAX_PATHS && listed ==> out.dom().contains(path)
        }),
    decreases n,
{
    if n == 0 {
        assert(keys.take(0) =~= Seq::empty());
    } else {
        lemma_folded(counts, keys, other, (n - 1) as nat, path);
        let k = keys[n - 1];
        let before = folded(counts, keys, other, (n - 1) as nat);
        let out = folded(counts, keys, other, n);
        lemma_folded(counts, keys, other, (n - 1) as nat, k);
        let less = keys.take(n - 1);
        let more = keys.take(n as int);
        assert(more =~= less.push(k));
        assert(!less.contains(k)) by {
            if less.contains(k) {
                let j = less.index_of(k);
                assert(keys[j] == keys[n - 1]);
            }
        }
        assert(more.contains(path) <==> less.contains(path) || path == k) by {
            if less.contains(path) {
                let j = less.index_of(path);
                assert(more[j] == path);
            }
            assert(more[n - 1] == k);
            if more.contains(path) {
                let j = more.index_of(path);
                if j < n - 1 {
                    assert(less[j] == path);
                }
            }
        }
        assert forall|p: Seq<char>| out.dom().contains(p) implies counts.dom().union(
            more.to_set(),
        ).contains(p) by {
            if p == k {
                assert(more[n - 1] == k);
                assert(more.contains(k));
            } else {
                assert(before.dom().contains(p));
                if !counts.dom().contains(p) {
                    assert(less.to_set().contains(p));
                    let j = less.index_of(p);
                    assert(more[j] == p);
                    assert(more.contains(p));
                }
            }
        }
        if before.dom().contains(k) {
            assert(out.dom() =~= before.dom());
        } else if before.dom().len() < MAX_PATHS {
            assert(out.dom() =~= before.dom().insert(k));
        }
    }
}

proof fn lemma_merged(
    counts: Map<Seq<char>, u64>,
    keys: Seq<Seq<char>>,
    other: Map<Seq<char>, u64>,
)
    requires
        keys.no_duplicates(),
        forall|p: Seq<char>| #[trigger] keys.contains(p) <==> other.dom().contains(p),
        well_counted(counts),
        well_counted(other),
    ensures
        is_merged(counts, other, folded(counts, keys, other, keys.len())),
        well_counted(folded(counts, keys, other, keys.len())),
{
    let out = folded(counts, keys, other, keys.len());
    let union = counts.dom().union(other.dom());
    assert(keys.take(keys.len() as int) =~= keys);
    assert forall|p: Seq<char>| keys.to_set().contains(p) <==> other.dom().contains(p) by {
        assert(keys.contains(p) <==> other.dom().contains(p));
    }
    assert(keys.to_set() =~= other.dom());
    lemma_folded(counts, keys, other, keys.len(), Seq::empty());
    assert forall|p: Seq<char>| #[trigger] counts.dom().contains(p) implies out.dom().contains(p)
        && out[p] == (if other.dom().contains(p) {
        capped(counts[p] as int, other[p] as int)
    } else {
        counts[p]
    }) by {
        lemma_folded(counts, keys, other, keys.len(), p);
    }
    assert forall|p: Seq<char>| #[trigger]
        out.dom().contains(p) && !counts.dom().contains(p) implies other.dom().contains(p)
        && out[p] == other[p] by {
        lemma_folded(counts, keys, other, keys.len(), p);
    }
    if out.dom().len() < MAX_PATHS {
        assert forall|p: Seq<char>| union.contains(p) implies out.dom().contains(p) by {
            lemma_folded(counts, keys, other, keys.len(), p);
        }
        assert(out.dom() =~= union);
    } else if union.len() <= MAX_PATHS {
        assert forall|p: Seq<char>| union.contains(p) implies out.dom().contains(p) by {
            if !out.dom().contains(p) {
                let more = out.dom().insert(p);
                assert(more.subset_of(union));
                vstd::set_lib::lemma_len_subset(more, union);
            }
        }
        assert(out.dom() =~= union);
    }
}

/// Merging sums shared paths, keeps every path it had and invents none. Where
/// both fit within the bound together no path of either side is lost;
/// otherwise the result is full.
pub proof fn merging_sums_shared_paths(
    counts: Map<Seq<char>, u64>,
    keys: Seq<Seq<char>>,
    other: Map<Seq<char>, u64>,
)
    requires
        keys.no_duplicates(),
        forall|p: Seq<char>| #[trigger] keys.contains(p) <==> other.dom().contains(p),
        well_counted(counts),
        well_counted(other),
    ensures
        is_merged(counts, other, folded(counts, keys, other, keys.len())),
{
    lemma_merged(counts, keys, other);
}

/// One thing that happens to a counter.
pub ghost enum Change {
    /// The leaves of a value or of an event are recorded.
    Paths(Seq<Seq<char>>),
    /// Another counter, with its paths in order, is folded in.
    Merge(Seq<Seq<char>>, Map<Seq<char>, u64>),
}

impl Change {
    /// The counter folded in is one, too.
    pub open spec fn is_sound(self) -> bool {
        match self {
            Change::Paths(_) => true,
            Change::Merge(keys, other) => well_counted(other) && keys.no_duplicates() && forall|
                p: Seq<char>,
            |
                #[trigger] keys.contains(p) <==> other.dom().contains(p),
        }
    }

    pub open spec fn applied(self, counts: Map<Seq<char>, u64>) -> Map<Seq<char>, u64> {
        match self {
            Change::Paths(paths) => counted(counts, paths),
            Change::Merge(keys, other) => folded(counts, keys, other, keys.len()),
        }
    }
}

/// The counts after these changes, one after the other.
pub open spec fn changed(counts: Map<Seq<char>, u64>, changes: Seq<Change>) -> Map<Seq<char>, u64>
    decreases changes.len(),
{
    if changes.len() == 0 {
        counts
    } else {
        changes.last().applied(changed(counts, changes.drop_last()))
    }
}

proof fn lemma_bump(counts: Map<Seq<char>, u64>, path: Seq<char>, n: u64)
    requires
        well_counted(counts),
        n >= 1,
    ensures
        well_counted(bump(counts, path, n)),
{
    let out = bump(counts, path, n);
    if counts.dom().contains(path) {
        assert(out.dom() =~= counts.dom());
    } else if counts.dom().len() < MAX_PATHS {
        assert(out.dom() =~= counts.dom().insert(path));
    }
}

proof fn lemma_counted(counts: Map<Seq<char>, u64>, paths: Seq<Seq<char>>)
    requires
        well_counted(counts),
    ensures
        well_counted(counted(counts, paths)),
    decreases paths.len(),
{
    if paths.len() > 0 {
        lemma_counted(counts, paths.drop_last());
        lemma_bump(counted(counts, paths.drop_last()), paths.last(), 1);
    }
}

/// Whatever is recorded in a counter or folded into it, it stays within its
/// bound and counts each of its paths at least once.
pub proof fn counters_stay_within_bounds(changes: Seq<Change>)
    requires
        forall|i: int| 0 <= i < changes.len() ==> (#[trigger] changes[i]).is_sound(),
    ensures
        well_counted(changed(Map::empty(), changes)),
    decreases changes.len(),
{
    if changes.len() > 0 {
        assert forall|i: int| 0 <= i < changes.drop_last().len() implies (
        #[trigger] changes.drop_last()[i]).is_sound() by {
            assert(changes.drop_last()[i] == changes[i]);
        }
        counters_stay_within_bounds(changes.drop_last());
        let before = changed(Map::empty(), changes.drop_last());
        assert(changes[changes.len() - 1].is_sound());
        match changes.last() {
            Change::Paths(paths) => lemma_counted(before, paths),
            Change::Merge(keys, other) => lemma_merged(before, keys, other),
        }
    }
}

/// A full counter drops paths it does not know and goes on counting those it
/// does.
pub proof fn full_counters_count_on(counts: Map<Seq<char>, u64>, path: Seq<char>, known: Seq<char>)
    requires
        counts.dom().len() == MAX_PATHS,
        !counts.dom().contains(path),
        counts.dom().contains(known),
    ensures
        counted(counts, seq![path]) == counts,
        counted(counts, seq![known]) == counts.insert(known, capped(counts[known] as int, 1)),
{
    assert(seq![path].drop_last() =~= Seq::empty());
    assert(seq![known].drop_last() =~= Seq::empty());
    assert(counted(counts, Seq::empty()) == counts);
}

} // verus!
