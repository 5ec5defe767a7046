//! JSON values. Reading JSON text is left to `serde_json`; what a value is
//! and how it is written down compactly is stated here.

use serde_json::Value;
use vstd::prelude::*;

use crate::number;
use crate::number::decimal_text;
use crate::text;
use crate::text::same;

verus! {

/// A JSON number: the integer it is, where it is one, its IEEE 754 bits as a
/// double, and how it is written.
#[derive(Debug)]
pub struct Num {
    pub unsigned: Option<u64>,
    pub signed: Option<i64>,
    pub bits: u64,
    pub text: String,
}

/// A JSON value. The keys of an object stand in the order they are walked.
#[derive(Debug)]
pub enum Json {
    Null,
    Bool(bool),
    Number(Num),
    Text(String),
    Array(Vec<Json>),
    Object(Vec<(String, Json)>),
}

#[verifier::external_type_specification]
#[verifier::external_body]
pub struct ExValue(serde_json::Value);

/// The value that a JSON text denotes.
pub uninterp spec fn json_of(text: Seq<char>) -> Option<Json>;

/// The first of the JSON values that a text lists one behind the other.
pub uninterp spec fn first_json_of(text: Seq<char>) -> Option<Json>;

/// What a `serde_json::Value` holds.
pub uninterp spec fn held(value: Value) -> Json;

/// Calls `serde_json::from_str`. Whether a text is JSON, and the value it then
/// denotes, are fixed by the text. An object that was written down flat is
/// JSON, and reads back member for member; so does one with nested members,
/// where it is JSON at all. A value out of a text that was read, written down
/// again, reads back alike where it is JSON, as it is where its only numbers
/// are counts. How deep a text may nest is not stated.
#[verifier::external_body]
fn read(text: &str) -> (r: Option<Value>)
    ensures
        (match r {
            Some(value) => Some(held(value)),
            None => None,
        }) == json_of(text@),
        forall|entries: Seq<Entry>|
            text@ == #[trigger] entries_text(entries) && sound(entries) && (all_flat(entries)
                || r is Some) ==> (r matches Some(value) && reads_back(held(value), entries)),
        forall|v: Json|
            text@ == #[trigger] json_text(v) && is_part(v) && (only_counts(v) || r is Some) ==> (
            r matches Some(value) && alike(held(value), v)),
{
    serde_json::from_str(text).ok()
}

/// Calls `serde_json::Deserializer::into_iter` and takes its first item. The
/// outcome is fixed by the text.
#[verifier::external_body]
fn read_first(text: &str) -> (r: Option<Value>)
    ensures
        (match r {
            Some(value) => Some(held(value)),
            None => None,
        }) == first_json_of(text@),
{
    serde_json::Deserializer::from_str(text).into_iter().next().and_then(Result::ok)
}

/// Hands a `serde_json::Value` out as plain values, one for one.
#[verifier::external_body]
fn plain(value: Value) -> (r: Json)
    ensures
        r == held(value),
{
    match value {
        Value::Null => Json::Null,
        Value::Bool(flag) => Json::Bool(flag),
        Value::Number(n) => {
            let bits = n.as_f64().map_or(0, |v| v.to_bits());
            Json::Number(
                Num { unsigned: n.as_u64(), signed: n.as_i64(), bits, text: n.to_string() },
            )
        },
        Value::String(text) => Json::Text(text),
        Value::Array(items) => Json::Array(items.into_iter().map(plain).collect()),
        Value::Object(map) => Json::Object(map.into_iter().map(|(k, v)| (k, plain(v))).collect()),
    }
}

/// What a value that was read elsewhere holds.
pub fn of_value(value: Value) -> (r: Json)
    ensures
        r == held(value),
{
    plain(value)
}

/// Reads a JSON text. An object that was written down reads back member for
/// member, and a part of another text reads back alike.
pub fn parse(text: &str) -> (r: Option<Json>)
    ensures
        r == json_of(text@),
        forall|entries: Seq<Entry>|
            text@ == #[trigger] entries_text(entries) && sound(entries) && (all_flat(entries)
                || r is Some) ==> (r matches Some(value) && reads_back(value, entries)),
        forall|v: Json|
            text@ == #[trigger] json_text(v) && is_part(v) && (only_counts(v) || r is Some) ==> (
            r matches Some(value) && alike(value, v)),
{
    match read(text) {
        Some(value) => Some(plain(value)),
        None => None,
    }
}

/// Reads the first of the JSON values that a text lists one behind the other.
pub fn parse_first(text: &str) -> (r: Option<Json>)
    ensures
        r == first_json_of(text@),
{
    match read_first(text) {
        Some(value) => Some(plain(value)),
        None => None,
    }
}

// -------------------------------------------------------------- reading

/// The value of the first pair from `i` on that has this key.
pub open spec fn pair_from(pairs: Seq<(String, Json)>, key: Seq<char>, i: int) -> Option<Json>
    decreases pairs.len() - i,
{
    if i < 0 || i >= pairs.len() {
        None
    } else if pairs[i].0@ == key {
        Some(pairs[i].1)
    } else {
        pair_from(pairs, key, i + 1)
    }
}

impl Json {
    /// The member of an object; nothing else has members.
    pub open spec fn member(self, key: Seq<char>) -> Option<Json> {
        match self {
            Json::Object(pairs) => pair_from(pairs@, key, 0),
            _ => None,
        }
    }

    pub open spec fn as_text(self) -> Option<Seq<char>> {
        match self {
            Json::Text(t) => Some(t@),
            _ => None,
        }
    }

    /// The text of a member that is a string.
    pub open spec fn text_at(self, key: Seq<char>) -> Option<Seq<char>> {
        match self.member(key) {
            Some(v) => v.as_text(),
            None => None,
        }
    }

    /// The member of an object; nothing else has members.
    pub fn get(&self, key: &str) -> (r: Option<&Json>)
        ensures
            match r {
                Some(v) => self.member(key@) == Some(*v),
                None => self.member(key@) is None,
            },
            r matches Some(v) ==> decreases_to!(*self => *v),
    {
        match self {
            Json::Object(pairs) => {
                let mut i: usize = 0;
                while i < pairs.len()
                    invariant
                        i <= pairs@.len(),
                        *self == Json::Object(*pairs),
                        pair_from(pairs@, key@, 0) == pair_from(pairs@, key@, i as int),
                    decreases pairs@.len() - i,
                {
                    let pair: &(String, Json) = &pairs[i];
                    if same(pair.0.as_str(), key) {
                        assert(decreases_to!(*self => pairs@[i as int].1));
                        return Some(&pair.1);
                    }
                    i += 1;
                }
                None
            },
            _ => None,
        }
    }

    pub fn as_str(&self) -> (r: Option<&str>)
        ensures
            text::opt_str(r) == self.as_text(),
    {
        match self {
            Json::Text(t) => Some(t.as_str()),
            _ => None,
        }
    }

    /// The text of a member that is a string.
    pub fn get_str(&self, key: &str) -> (r: Option<&str>)
        ensures
            text::opt_str(r) == self.text_at(key@),
    {
        match self.get(key) {
            Some(v) => v.as_str(),
            None => None,
        }
    }

    pub fn is_null(&self) -> (b: bool)
        ensures
            b == (self is Null),
    {
        match self {
            Json::Null => true,
            _ => false,
        }
    }
}

// -------------------------------------------------------------- writing

/// The digit that stands for a value below sixteen.
pub open spec fn hex_digit(d: int) -> char {
    if d < 10 {
        (0x30 + d) as u32 as char
    } else {
        (0x57 + d) as u32 as char
    }
}

/// A character as a JSON string holds it.
pub open spec fn escaped(c: char) -> Seq<char> {
    let v = c as u32 as int;
    if c == '"' {
        seq!['\\', '"']
    } else if c == '\\' {
        seq!['\\', '\\']
    } else if v == 0x08 {
        seq!['\\', 'b']
    } else if v == 0x09 {
        seq!['\\', 't']
    } else if v == 0x0a {
        seq!['\\', 'n']
    } else if v == 0x0c {
        seq!['\\', 'f']
    } else if v == 0x0d {
        seq!['\\', 'r']
    } else if v < 0x20 {
        seq!['\\', 'u', '0', '0', hex_digit(v / 16), hex_digit(v % 16)]
    } else {
        seq![c]
    }
}

/// Every character of `s` as a JSON string holds it.
pub open spec fn escape(s: Seq<char>) -> Seq<char>
    decreases s.len(),
{
    if s.len() == 0 {
        Seq::empty()
    } else {
        escape(s.drop_last()) + escaped(s.last())
    }
}

/// `s` as a JSON string.
pub open spec fn quote(s: Seq<char>) -> Seq<char> {
    seq!['"'] + escape(s) + seq!['"']
}

/// Calls `serde_json::to_string` on a string slice: the text between quotes,
/// with quotes, backslashes and control characters escaped.
#[verifier::external_body]
fn quoted(text: &str) -> (out: String)
    ensures
        out@ == quote(text@),
{
    serde_json::to_string(text).unwrap_or_default()
}

/// A key and the JSON text of its value.
pub ghost struct Member {
    pub key: Seq<char>,
    pub value: Seq<char>,
}

/// The members of an object with commas between them.
pub open spec fn members_text(members: Seq<Member>) -> Seq<char>
    decreases members.len(),
{
    if members.len() == 0 {
        Seq::empty()
    } else {
        let one = quote(members.last().key) + ":"@ + members.last().value;
        if members.len() == 1 {
            one
        } else {
            members_text(members.drop_last()) + ","@ + one
        }
    }
}

/// An object, its members in the given order.
pub open spec fn object_text(members: Seq<Member>) -> Seq<char> {
    "{"@ + members_text(members) + "}"@
}

// ------------------------------------------------------ what reads back

/// A value stands directly inside another.
pub open spec fn is_child(value: Json, child: Json) -> bool {
    match value {
        Json::Object(_) => exists|key: Seq<char>| #[trigger] value.member(key) == Some(child),
        Json::Array(items) => exists|i: int|
            0 <= i < items@.len() && #[trigger] items@[i] == child,
        _ => false,
    }
}

/// A value is another or lies inside it, at most `depth` steps down.
pub open spec fn lies_within(root: Json, value: Json, depth: nat) -> bool
    decreases depth,
{
    root == value || (depth > 0 && exists|next: Json| #[trigger]
        is_child(root, next) && lies_within(next, value, (depth - 1) as nat))
}

pub proof fn lemma_child_within(root: Json, value: Json, child: Json, depth: nat)
    requires
        lies_within(root, value, depth),
        is_child(value, child),
    ensures
        lies_within(root, child, depth + 1),
    decreases depth,
{
    if root == value {
        assert(lies_within(child, child, depth));
    } else {
        let next = choose|next: Json| #[trigger]
            is_child(root, next) && lies_within(next, value, (depth - 1) as nat);
        lemma_child_within(next, value, child, (depth - 1) as nat);
    }
}

/// What stands inside a part is a part.
pub proof fn lemma_child_part(value: Json, child: Json)
    requires
        is_part(value),
        is_child(value, child),
    ensures
        is_part(child),
{
    let (source, root, depth) = choose|source: Seq<char>, root: Json, depth: nat|
        #![trigger json_of(source), lies_within(root, value, depth)]
        json_of(source) == Some(root) && lies_within(root, value, depth);
    lemma_child_within(root, value, child, depth);
    assert(json_of(source) == Some(root) && lies_within(root, child, depth + 1));
}

/// A value out of a text that was read.
pub open spec fn is_part(value: Json) -> bool {
    exists|source: Seq<char>, root: Json, depth: nat|
        #![trigger json_of(source), lies_within(root, value, depth)]
        json_of(source) == Some(root) && lies_within(root, value, depth)
}

/// Every number in a value is an unsigned integer.
pub open spec fn only_counts(value: Json) -> bool
    decreases value,
{
    match value {
        Json::Number(n) => n.unsigned is Some,
        Json::Array(items) => forall|i: int|
            0 <= i < items@.len() ==> only_counts(#[trigger] items@[i]),
        Json::Object(pairs) => forall|i: int|
            0 <= i < pairs@.len() ==> only_counts((#[trigger] pairs@[i]).1),
        _ => true,
    }
}

/// Two values say the same. Of numbers that are not unsigned integers only
/// that both are numbers: a double may come out one step off.
pub open spec fn alike(a: Json, b: Json) -> bool
    decreases b,
{
    match (a, b) {
        (Json::Null, Json::Null) => true,
        (Json::Bool(x), Json::Bool(y)) => x == y,
        (Json::Number(x), Json::Number(y)) => y.unsigned is Some ==> x.unsigned == y.unsigned,
        (Json::Text(x), Json::Text(y)) => x@ == y@,
        (Json::Array(x), Json::Array(y)) => x@.len() == y@.len() && forall|i: int|
            0 <= i < y@.len() ==> alike(x@[i], #[trigger] y@[i]),
        (Json::Object(x), Json::Object(y)) => x@.len() == y@.len() && forall|i: int|
            0 <= i < y@.len() ==> x@[i].0@ == y@[i].0@ && alike(x@[i].1, (#[trigger] y@[i]).1),
        _ => false,
    }
}

/// What a member of an object was written down as.
pub ghost enum Cell {
    Null,
    Text(Seq<char>),
    Whole(nat),
    /// The text of a double, where that is JSON. The largest doubles may read
    /// back out of range.
    Double(Seq<char>),
    /// A value out of another document.
    Part(Json),
}

impl Cell {
    pub open spec fn text(self) -> Seq<char> {
        match self {
            Cell::Null => "null"@,
            Cell::Text(t) => quote(t),
            Cell::Whole(n) => number::decimal(n),
            Cell::Double(t) => t,
            Cell::Part(v) => json_text(v),
        }
    }

    pub open spec fn is_sound(self) -> bool {
        match self {
            Cell::Null | Cell::Text(_) => true,
            Cell::Whole(n) => n <= u64::MAX,
            Cell::Double(t) => number::is_double_text(t) && json_of(t) is Some,
            Cell::Part(v) => is_part(v),
        }
    }

    /// What is said of the value that such a member reads back as.
    pub open spec fn holds(self, value: Json) -> bool {
        match self {
            Cell::Null => value is Null,
            Cell::Text(t) => value matches Json::Text(s) && s@ == t,
            Cell::Whole(n) => value matches Json::Number(m) && m.unsigned == Some(n as u64),
            Cell::Double(_) => value is Number,
            Cell::Part(v) => alike(value, v),
        }
    }

    pub open spec fn of_text(value: Option<Seq<char>>) -> Cell {
        match value {
            Some(t) => Cell::Text(t),
            None => Cell::Null,
        }
    }

    pub open spec fn of_integer(value: Option<nat>) -> Cell {
        match value {
            Some(n) => Cell::Whole(n),
            None => Cell::Null,
        }
    }

    pub open spec fn of_double(value: Option<number::DoubleModel>) -> Cell {
        match value {
            Some(number::DoubleModel { json: Some(t), .. }) => Cell::Double(t),
            _ => Cell::Null,
        }
    }

    pub open spec fn of_value(value: Option<Json>) -> Cell {
        match value {
            Some(Json::Text(t)) => Cell::Text(t@),
            Some(Json::Null) | None => Cell::Null,
            Some(other) => Cell::Part(other),
        }
    }
}

/// A key and what its value was written down as.
pub ghost struct Entry {
    pub key: Seq<char>,
    pub cell: Cell,
}

pub open spec fn entry(key: Seq<char>, cell: Cell) -> Entry {
    Entry { key, cell }
}

/// An object with these members.
pub open spec fn entries_text(entries: Seq<Entry>) -> Seq<char> {
    object_text(entry_members(entries))
}

pub open spec fn entry_members(entries: Seq<Entry>) -> Seq<Member> {
    Seq::new(
        entries.len(),
        |i: int| Member { key: entries[i].key, value: entries[i].cell.text() },
    )
}

pub open spec fn sound(entries: Seq<Entry>) -> bool {
    &&& forall|i: int| 0 <= i < entries.len() ==> (#[trigger] entries[i]).cell.is_sound()
    &&& forall|i: int, j: int|
        0 <= i < j < entries.len() ==> (#[trigger] entries[i]).key != (#[trigger] entries[j]).key
}

pub open spec fn all_flat(entries: Seq<Entry>) -> bool {
    forall|i: int| 0 <= i < entries.len() ==> !((#[trigger] entries[i]).cell is Part)
}

/// An object has these members.
pub open spec fn reads_back(value: Json, entries: Seq<Entry>) -> bool {
    &&& value is Object
    &&& forall|i: int|
        0 <= i < entries.len() ==> (value.member((#[trigger] entries[i]).key) matches Some(m)
            && entries[i].cell.holds(m))
}

/// A value as compact JSON text.
pub open spec fn json_text(value: Json) -> Seq<char>
    decreases value, 0nat,
{
    match value {
        Json::Null => "null"@,
        Json::Bool(true) => "true"@,
        Json::Bool(false) => "false"@,
        Json::Number(n) => n.text@,
        Json::Text(t) => quote(t@),
        Json::Array(items) => "["@ + items_text(items@, items@.len()) + "]"@,
        Json::Object(pairs) => "{"@ + pairs_text(pairs@, pairs@.len()) + "}"@,
    }
}

/// The first `n` items with commas between them.
pub open spec fn items_text(items: Seq<Json>, n: nat) -> Seq<char>
    decreases items, n,
{
    if n == 0 || n > items.len() {
        Seq::empty()
    } else if n == 1 {
        json_text(items[0])
    } else {
        items_text(items, (n - 1) as nat) + ","@ + json_text(items[n - 1])
    }
}

/// The first `n` pairs with commas between them.
pub open spec fn pairs_text(pairs: Seq<(String, Json)>, n: nat) -> Seq<char>
    decreases pairs, n,
{
    if n == 0 || n > pairs.len() {
        Seq::empty()
    } else {
        let one = quote(pairs[n - 1].0@) + ":"@ + json_text(pairs[n - 1].1);
        if n == 1 {
            one
        } else {
            pairs_text(pairs, (n - 1) as nat) + ","@ + one
        }
    }
}

/// A value as compact JSON text.
pub fn to_text(value: &Json) -> (out: String)
    ensures
        out@ == json_text(*value),
    decreases *value,
{
    match value {
        Json::Null => "null".to_owned(),
        Json::Bool(flag) => {
            if *flag {
                "true".to_owned()
            } else {
                "false".to_owned()
            }
        },
        Json::Number(n) => n.text.clone(),
        Json::Text(t) => quoted(t.as_str()),
        Json::Array(items) => {
            let mut out = "[".to_owned();
            let mut i: usize = 0;
            assert("["@ + Seq::<char>::empty() =~= "["@);
            while i < items.len()
                invariant
                    i <= items@.len(),
                    *value == Json::Array(*items),
                    out@ == "["@ + items_text(items@, i as nat),
                decreases items@.len() - i,
            {
                assert(decreases_to!(*value => value->Array_0));
                assert(decreases_to!(value->Array_0 => items@));
                assert(decreases_to!(items@ => items@[i as int]));
                let ghost before = items_text(items@, i as nat);
                if i > 0 {
                    out.push_str(",");
                }
                let one = to_text(&items[i]);
                out.push_str(one.as_str());
                i += 1;
                proof {
                    if i == 1 {
                        assert(out@ =~= "["@ + one@);
                    } else {
                        assert(out@ =~= "["@ + (before + ","@ + one@));
                    }
                }
            }
            out.push_str("]");
            out
        },
        Json::Object(pairs) => {
            let mut out = "{".to_owned();
            let mut i: usize = 0;
            assert("{"@ + Seq::<char>::empty() =~= "{"@);
            while i < pairs.len()
                invariant
                    i <= pairs@.len(),
                    *value == Json::Object(*pairs),
                    out@ == "{"@ + pairs_text(pairs@, i as nat),
                decreases pairs@.len() - i,
            {
                assert(decreases_to!(*value => value->Object_0));
                assert(decreases_to!(value->Object_0 => pairs@));
                assert(decreases_to!(pairs@ => pairs@[i as int]));
                assert(decreases_to!(pairs@[i as int] => pairs@[i as int].1));
                let ghost before = pairs_text(pairs@, i as nat);
                let pair: &(String, Json) = &pairs[i];
                if i > 0 {
                    out.push_str(",");
                }
                let key = quoted(pair.0.as_str());
                out.push_str(key.as_str());
                out.push_str(":");
                let one = to_text(&pair.1);
                out.push_str(one.as_str());
                i += 1;
                proof {
                    if i == 1 {
                        assert(out@ =~= "{"@ + (key@ + ":"@ + one@));
                    } else {
                        assert(out@ =~= "{"@ + (before + ","@ + (key@ + ":"@ + one@)));
                    }
                }
            }
            out.push_str("}");
            out
        },
    }
}

/// Members of an object being put together: keys and the JSON texts of their
/// values.
pub open spec fn member_models(members: Seq<(String, String)>) -> Seq<Member> {
    Seq::new(members.len(), |i: int| Member { key: members[i].0@, value: members[i].1@ })
}

/// Adds a member.
pub fn push_member(members: &mut Vec<(String, String)>, key: &str, value: String)
    ensures
        member_models(final(members)@) == member_models(old(members)@).push(
            Member { key: key@, value: value@ },
        ),
{
    let ghost before = member_models(members@);
    let ghost one = Member { key: key@, value: value@ };
    members.push((key.to_owned(), value));
    assert(member_models(members@) =~= before.push(one));
}

/// An object, its members in the given order.
pub fn object(members: &Vec<(String, String)>) -> (out: String)
    ensures
        out@ == object_text(member_models(members@)),
{
    let ghost all = member_models(members@);
    let mut out = "{".to_owned();
    let mut i: usize = 0;
    assert("{"@ + members_text(all.take(0)) =~= "{"@);
    while i < members.len()
        invariant
            i <= members@.len(),
            all == member_models(members@),
            out@ == "{"@ + members_text(all.take(i as int)),
        decreases members@.len() - i,
    {
        let ghost before = members_text(all.take(i as int));
        let pair: &(String, String) = &members[i];
        if i > 0 {
            out.push_str(",");
        }
        let key = quoted(pair.0.as_str());
        out.push_str(key.as_str());
        out.push_str(":");
        out.push_str(pair.1.as_str());
        i += 1;
        proof {
            let one = key@ + ":"@ + pair.1@;
            assert(all.take(i as int).drop_last() =~= all.take(i - 1));
            assert(all.take(i as int).last() == all[i - 1]);
            if i == 1 {
                assert(out@ =~= "{"@ + one);
            } else {
                assert(out@ =~= "{"@ + (before + ","@ + one));
            }
        }
    }
    assert(all.take(i as int) =~= all);
    out.push_str("}");
    out
}

pub fn text_member(value: Option<&str>) -> (out: String)
    ensures
        out@ == Cell::of_text(text::opt_str(value)).text(),
{
    match value {
        Some(t) => quoted(t),
        None => "null".to_owned(),
    }
}

/// The integer inside an option, as a natural number.
pub open spec fn opt_nat(value: Option<u64>) -> Option<nat> {
    match value {
        Some(n) => Some(n as nat),
        None => None,
    }
}

pub fn integer_member(value: Option<u64>) -> (out: String)
    ensures
        out@ == Cell::of_integer(opt_nat(value)).text(),
{
    match value {
        Some(n) => decimal_text(n),
        None => "null".to_owned(),
    }
}

/// The value inside an optional reference.
pub open spec fn opt_value(value: Option<&Json>) -> Option<Json> {
    match value {
        Some(v) => Some(*v),
        None => None,
    }
}

pub fn value_member(value: Option<&Json>) -> (out: String)
    ensures
        out@ == Cell::of_value(opt_value(value)).text(),
{
    match value {
        Some(v) => to_text(v),
        None => "null".to_owned(),
    }
}

} // verus!
