//! Pre-parse format preview. The head of one file broken into the pieces the
//! parser will see: every leaf of the first record (or every token of the
//! first ALB line), each labelled with the column it feeds: a built-in field,
//! a rule path into a payload column, or nothing. Alongside: how many head
//! records parse, which event names they carry, and every path the head holds.

use vstd::prelude::*;

use crate::detect;
use crate::detect::{match_object_end, DetectError, LogType};
use crate::gzip;
use crate::json;
use crate::json::{to_text, Json};
use crate::mapping;
use crate::mapping::{present, Field, FieldMap};
use crate::ndjson;
use crate::number;
use crate::number::decimal_text;
use crate::parse::alb;
use crate::rule::explain;
use crate::rule::explain::field_name;
use crate::split;
use crate::split::{
    concat, find_char, find_text, has_prefix, split_lines, split_words,
};
use crate::text;
use crate::text::{chars_of, same, string_of};

use histogram::{histogram, NameCount};

pub mod histogram;

verus! {

/// Records examined per file: enough to show what a file holds, far below a
/// full parse.
pub const HEAD_RECORDS: usize = 200;

#[derive(Debug)]
pub enum PreviewError {
    /// The file cannot be read or does not decode.
    Read(DetectError),
    /// Logs of this type have no preview.
    Unsupported(&'static str),
}

impl PreviewError {
    pub open spec fn text(self) -> Seq<char> {
        match self {
            PreviewError::Read(error) => error.text(),
            PreviewError::Unsupported(name) => name@
                + " 로그는 미리보기를 지원하지 않습니다"@,
        }
    }

    pub fn message(&self) -> (out: String)
        ensures
            out@ == self.text(),
    {
        match self {
            PreviewError::Read(error) => error.message(),
            PreviewError::Unsupported(name) => concat(
                name,
                " 로그는 미리보기를 지원하지 않습니다",
            ),
        }
    }
}

/// One piece of the first record: a leaf path (or, for ALB, a token position)
/// and its value, with the column it feeds.
#[derive(Debug, Clone)]
pub struct Piece {
    pub path: String,
    pub value: String,
    /// `event_name`, `request.bucketName`, … ; `None` when nothing reads it.
    pub field: Option<String>,
    /// What to print above the piece: the built-in field's display name or
    /// the rule path.
    pub label: Option<String>,
}

pub ghost struct PieceModel {
    pub path: Seq<char>,
    pub value: Seq<char>,
    pub field: Option<Seq<char>>,
    pub label: Option<Seq<char>>,
}

impl View for Piece {
    type V = PieceModel;

    open spec fn view(&self) -> PieceModel {
        PieceModel {
            path: self.path@,
            value: self.value@,
            field: text::opt(self.field),
            label: text::opt(self.label),
        }
    }
}

pub open spec fn piece_models(pieces: Seq<Piece>) -> Seq<PieceModel> {
    pieces.map_values(|p: Piece| p@)
}

#[derive(Debug, Clone)]
pub struct HeadPreview {
    /// Records found in the head, up to `HEAD_RECORDS`.
    pub records: u32,
    /// Of those, records with both a time and an event name.
    pub mapped: u32,
    /// Event names (ALB: HTTP methods; WAF: actions) in the head, most
    /// frequent first.
    pub event_names: Vec<NameCount>,
    pub pieces: Vec<Piece>,
    /// Every leaf path across the head with the records that had it, so the
    /// UI can list what the first record happens to lack.
    pub paths: Vec<NameCount>,
    /// Whether labels can be moved: only CloudTrail goes through the editable
    /// mapping; the other producers have fixed normalizers.
    pub editable: bool,
}

/// What a preview shows, before names and paths are ranked.
pub ghost struct PreviewModel {
    pub records: nat,
    pub mapped: nat,
    pub names: Seq<Seq<char>>,
    pub pieces: Seq<PieceModel>,
    pub paths: Seq<Seq<char>>,
    pub editable: bool,
}

impl HeadPreview {
    /// This preview shows that.
    pub open spec fn shows(self, m: PreviewModel) -> bool {
        &&& self.records == m.records
        &&& self.mapped == m.mapped
        &&& histogram::is_ranking(
            histogram::tallied(m.names),
            histogram::count_models(self.event_names@),
        )
        &&& piece_models(self.pieces@) == m.pieces
        &&& histogram::is_ranking(
            histogram::tallied(m.paths),
            histogram::count_models(self.paths@),
        )
        &&& self.editable == m.editable
    }
}

// ------------------------------------------------------------------ leaves

/// A path one segment longer.
pub open spec fn below(path: Seq<char>, segment: Seq<char>) -> Seq<char> {
    if path.len() == 0 {
        segment
    } else {
        path + "."@ + segment
    }
}

/// A leaf: where it stands and what it shows.
pub ghost struct Leaf {
    pub path: Seq<char>,
    pub value: Seq<char>,
}

/// Every non-null leaf of a value that stands at `path`, in order.
pub open spec fn leaves_at(path: Seq<char>, value: Json) -> Seq<Leaf>
    decreases value, 0nat,
{
    match value {
        Json::Object(pairs) => pair_leaves(path, pairs@, pairs@.len()),
        Json::Array(items) => item_leaves(path, items@, items@.len()),
        Json::Null => Seq::empty(),
        Json::Text(t) => seq![Leaf { path, value: t@ }],
        other => seq![Leaf { path, value: json::json_text(other) }],
    }
}

pub open spec fn pair_leaves(path: Seq<char>, pairs: Seq<(String, Json)>, n: nat) -> Seq<Leaf>
    decreases pairs, n,
{
    if n == 0 || n > pairs.len() {
        Seq::empty()
    } else {
        pair_leaves(path, pairs, (n - 1) as nat) + leaves_at(
            below(path, pairs[n - 1].0@),
            pairs[n - 1].1,
        )
    }
}

pub open spec fn item_leaves(path: Seq<char>, items: Seq<Json>, n: nat) -> Seq<Leaf>
    decreases items, n,
{
    if n == 0 || n > items.len() {
        Seq::empty()
    } else {
        item_leaves(path, items, (n - 1) as nat) + leaves_at(
            below(path, number::decimal((n - 1) as nat)),
            items[n - 1],
        )
    }
}

/// Every non-null leaf of a value.
pub open spec fn leaves_of(value: Json) -> Seq<Leaf> {
    leaves_at(Seq::empty(), value)
}

pub open spec fn leaf_models(leaves: Seq<(String, String)>) -> Seq<Leaf> {
    leaves.map_values(|l: (String, String)| Leaf { path: l.0@, value: l.1@ })
}

fn step_below(path: &str, segment: &str) -> (out: String)
    ensures
        out@ == below(path@, segment@),
{
    if path.is_empty() {
        segment.to_owned()
    } else {
        let mut out = path.to_owned();
        out.push_str(".");
        out.push_str(segment);
        out
    }
}

fn push_leaf(out: &mut Vec<(String, String)>, path: &str, value: String)
    ensures
        leaf_models(final(out)@) == leaf_models(old(out)@) + seq![
            Leaf { path: path@, value: value@ },
        ],
{
    let ghost before = leaf_models(out@);
    let ghost added = Leaf { path: path@, value: value@ };
    out.push((path.to_owned(), value));
    assert(leaf_models(out@) =~= before + seq![added]);
}

fn walk(value: &Json, path: &str, out: &mut Vec<(String, String)>)
    ensures
        leaf_models(final(out)@) == leaf_models(old(out)@) + leaves_at(path@, *value),
    decreases *value,
{
    let ghost before = leaf_models(out@);
    match value {
        Json::Object(pairs) => {
            let len: usize = pairs.len();
            let mut i: usize = 0;
            assert(before + Seq::<Leaf>::empty() =~= before);
            while i < len
                invariant
                    i <= len,
                    len == pairs@.len(),
                    *value == Json::Object(*pairs),
                    leaf_models(out@) == before + pair_leaves(path@, pairs@, i as nat),
                decreases len - i,
            {
                assert(decreases_to!(*value => value->Object_0));
                assert(decreases_to!(value->Object_0 => pairs@));
                assert(decreases_to!(pairs@ => pairs@[i as int]));
                assert(decreases_to!(pairs@[i as int] => pairs@[i as int].1));
                let pair = &pairs[i];
                let child = step_below(path, pair.0.as_str());
                walk(&pair.1, child.as_str(), out);
                i = i + 1;
                assert(leaf_models(out@) =~= before + pair_leaves(path@, pairs@, i as nat));
            }
        },
        Json::Array(items) => {
            let len: usize = items.len();
            let mut i: usize = 0;
            assert(before + Seq::<Leaf>::empty() =~= before);
            while i < len
                invariant
                    i <= len,
                    len == items@.len(),
                    *value == Json::Array(*items),
                    leaf_models(out@) == before + item_leaves(path@, items@, i as nat),
                decreases len - i,
            {
                assert(decreases_to!(*value => value->Array_0));
                assert(decreases_to!(value->Array_0 => items@));
                assert(decreases_to!(items@ => items@[i as int]));
                let child = step_below(path, decimal_text(i as u64).as_str());
                walk(&items[i], child.as_str(), out);
                i = i + 1;
                assert(leaf_models(out@) =~= before + item_leaves(path@, items@, i as nat));
            }
        },
        Json::Null => {
            assert(before + Seq::<Leaf>::empty() =~= before);
        },
        Json::Text(t) => {
            push_leaf(out, path, t.as_str().to_owned());
        },
        other => {
            push_leaf(out, path, to_text(other));
        },
    }
}

/// Every non-null leaf of a JSON value as `(path, text)`, paths spelled the
/// way the mapping and the rules spell them (`a.b.0.c`).
pub fn leaves(value: &Json) -> (out: Vec<(String, String)>)
    ensures
        leaf_models(out@) == leaves_of(*value),
{
    let mut out: Vec<(String, String)> = Vec::new();
    walk(value, "", &mut out);
    proof {
        reveal_strlit("");
        assert(""@ =~= Seq::empty());
        assert(leaf_models(Seq::empty()) + leaves_of(*value) =~= leaves_of(*value));
    }
    out
}

/// The paths of these leaves.
pub open spec fn leaf_paths(leaves: Seq<Leaf>) -> Seq<Seq<char>> {
    leaves.map_values(|l: Leaf| l.path)
}

fn add_paths(paths: &mut Vec<String>, leaves: &Vec<(String, String)>)
    ensures
        text::texts(final(paths)@) == text::texts(old(paths)@) + leaf_paths(
            leaf_models(leaves@),
        ),
{
    let ghost before = text::texts(paths@);
    let ghost all = leaf_paths(leaf_models(leaves@));
    let len: usize = leaves.len();
    let mut i: usize = 0;
    assert(before + all.take(0) =~= before);
    while i < len
        invariant
            i <= len,
            len == leaves@.len(),
            all == leaf_paths(leaf_models(leaves@)),
            text::texts(paths@) == before + all.take(i as int),
        decreases len - i,
    {
        let pair = &leaves[i];
        let ghost sofar = text::texts(paths@);
        assert(leaf_models(leaves@)[i as int].path == pair.0@);
        assert(all[i as int] == pair.0@);
        paths.push(pair.0.as_str().to_owned());
        assert(text::texts(paths@) =~= sofar.push(pair.0@));
        i = i + 1;
        assert(text::texts(paths@) =~= before + all.take(i as int));
    }
    assert(all.take(len as int) =~= all);
}

/// The paths of the leaves of these records, record by record.
pub open spec fn paths_of(records: Seq<Json>) -> Seq<Seq<char>>
    decreases records.len(),
{
    if records.len() == 0 {
        Seq::empty()
    } else {
        paths_of(records.drop_last()) + leaf_paths(leaves_of(records.last()))
    }
}

// -------------------------------------------------------------- CloudTrail

/// Complete objects from position `cursor` on, at most `left` of them.
pub open spec fn records_from(s: Seq<char>, cursor: int, left: nat) -> Seq<Json>
    decreases left,
{
    if left == 0 {
        Seq::empty()
    } else {
        match split::find_from(s, '{', cursor) {
            None => Seq::empty(),
            Some(open) => match detect::object_end(s, open, 0, false, false) {
                None => Seq::empty(),
                Some(end) => match json::json_of(s.subrange(open, end)) {
                    None => Seq::empty(),
                    Some(record) => seq![record] + records_from(s, end, (left - 1) as nat),
                },
            },
        }
    }
}

/// Complete `Records` objects in a head, in order.
pub open spec fn head_records(s: Seq<char>) -> Seq<Json> {
    match split::find_text_from(s, "\"Records\""@, 0) {
        None => Seq::empty(),
        Some(start) => records_from(s, start, HEAD_RECORDS as nat),
    }
}

/// Complete `Records` objects in the head, in order. A record cut off by the
/// head limit is left out.
pub fn cloudtrail_records(head: &str) -> (records: Vec<Json>)
    ensures
        records@ == head_records(head@),
        records@.len() <= HEAD_RECORDS,
{
    let s = chars_of(head);
    let key = chars_of("\"Records\"");
    let mut records: Vec<Json> = Vec::new();
    proof {
        split::lemma_find_text_from(s@, key@, 0);
    }
    let start: usize = match find_text(&s, &key, 0) {
        Some(start) => start,
        None => return records,
    };
    let mut cursor: usize = start;
    let ghost whole = records_from(s@, start as int, HEAD_RECORDS as nat);
    assert(records@ + whole =~= whole);
    while records.len() < HEAD_RECORDS
        invariant
            s@ == head@,
            cursor <= s@.len(),
            records@.len() <= HEAD_RECORDS,
            whole == head_records(head@),
            records@ + records_from(s@, cursor as int, (HEAD_RECORDS - records@.len()) as nat)
                == whole,
        decreases HEAD_RECORDS - records@.len(),
    {
        let ghost kept = records@;
        let ghost left = (HEAD_RECORDS - records@.len()) as nat;
        assert(kept + Seq::<Json>::empty() =~= kept);
        proof {
            split::lemma_find_from(s@, '{', cursor as int);
        }
        let open: usize = match find_char(&s, '{', cursor) {
            Some(open) => open,
            None => return records,
        };
        let end: usize = match match_object_end(&s, open) {
            Some(end) => end,
            None => return records,
        };
        match json::parse(string_of(&s, open, end).as_str()) {
            Some(record) => {
                let ghost one = record;
                records.push(record);
                cursor = end;
                assert(records@ + records_from(s@, end as int, (left - 1) as nat) =~= kept + (seq![
                    one,
                ] + records_from(s@, end as int, (left - 1) as nat)));
            },
            None => return records,
        }
    }
    assert(records@ + Seq::<Json>::empty() =~= records@);
    records
}

/// The analyst gave this field paths of their own.
pub open spec fn is_overridden(map: FieldMap, field: Field) -> bool {
    map.paths(field) != field.default_paths()
}

/// The first `n` fields that are overridden, or that are not.
pub open spec fn fields_where(map: FieldMap, flag: bool, n: nat) -> Seq<Field>
    decreases n,
{
    if n == 0 || n > 18 {
        Seq::empty()
    } else {
        let rest = fields_where(map, flag, (n - 1) as nat);
        let field = Field::ALL@[n - 1];
        if is_overridden(map, field) == flag {
            rest.push(field)
        } else {
            rest
        }
    }
}

/// All fields, the analyst's own assignments first.
pub open spec fn field_order(map: FieldMap) -> Seq<Field> {
    fields_where(map, true, 18) + fields_where(map, false, 18)
}

/// The first of these paths that holds a value.
pub open spec fn first_present(record: Json, paths: Seq<Seq<char>>, i: int) -> Option<Seq<char>>
    decreases paths.len() - i,
{
    if i < 0 || i >= paths.len() {
        None
    } else if mapping::present_at(record, paths[i]) is Some {
        Some(paths[i])
    } else {
        first_present(record, paths, i + 1)
    }
}

/// The path a field reads in this record.
pub open spec fn read_path(record: Json, map: FieldMap, field: Field) -> Option<Seq<char>> {
    first_present(record, map.paths(field), 0)
}

pub open spec fn is_payload(field: Field) -> bool {
    field == Field::Request || field == Field::Response || field == Field::Resources
}

/// Raw path and column, for one record: `fields` names built-in columns;
/// `roots` are the raw objects behind the payload columns, whose descendants
/// are rule paths.
pub ghost struct LabelsModel {
    pub fields: Seq<(Seq<char>, Field)>,
    pub roots: Seq<(Seq<char>, Field)>,
}

/// The labels that these fields claim, in this order.
pub open spec fn labels_for(record: Json, map: FieldMap, order: Seq<Field>) -> LabelsModel
    decreases order.len(),
{
    if order.len() == 0 {
        LabelsModel { fields: Seq::empty(), roots: Seq::empty() }
    } else {
        let rest = labels_for(record, map, order.drop_last());
        let field = order.last();
        match read_path(record, map, field) {
            None => rest,
            Some(path) => if is_payload(field) {
                LabelsModel { roots: rest.roots.push((path, field)), ..rest }
            } else {
                LabelsModel { fields: rest.fields.push((path, field)), ..rest }
            },
        }
    }
}

/// The first built-in column that claims a path.
pub open spec fn claimed_by(fields: Seq<(Seq<char>, Field)>, path: Seq<char>, i: int) -> Option<
    Field,
>
    decreases fields.len() - i,
{
    if i < 0 || i >= fields.len() {
        None
    } else if fields[i].0 == path {
        Some(fields[i].1)
    } else {
        claimed_by(fields, path, i + 1)
    }
}

/// The rule path and label of a path at or below a payload root.
pub open spec fn payload_label(roots: Seq<(Seq<char>, Field)>, path: Seq<char>, i: int) -> Option<
    (Seq<char>, Seq<char>),
>
    decreases roots.len() - i,
{
    if i < 0 || i >= roots.len() {
        None
    } else {
        let (root, field) = roots[i];
        if path == root {
            Some((field.key_text(), field.label_text()))
        } else if split::starts_with(path, root + "."@) {
            let rule_path = field.key_text() + "."@ + path.skip(root.len() as int + 1);
            Some((rule_path, rule_path))
        } else {
            payload_label(roots, path, i + 1)
        }
    }
}

/// The column a path feeds, and what to print above it.
pub open spec fn label_of(labels: LabelsModel, path: Seq<char>) -> Option<
    (Seq<char>, Seq<char>),
> {
    match claimed_by(labels.fields, path, 0) {
        Some(field) => Some((field.key_text(), field.label_text())),
        None => payload_label(labels.roots, path, 0),
    }
}

pub open spec fn cloudtrail_piece(labels: LabelsModel, leaf: Leaf) -> PieceModel {
    let label = label_of(labels, leaf.path);
    PieceModel {
        path: leaf.path,
        value: leaf.value,
        field: match label {
            Some((field, _)) => Some(field),
            None => None,
        },
        label: match label {
            Some((_, shown)) => Some(shown),
            None => None,
        },
    }
}

struct Labels {
    fields: Vec<(String, Field)>,
    roots: Vec<(String, Field)>,
}

spec fn pair_models(pairs: Seq<(String, Field)>) -> Seq<(Seq<char>, Field)> {
    pairs.map_values(|p: (String, Field)| (p.0@, p.1))
}

impl View for Labels {
    type V = LabelsModel;

    closed spec fn view(&self) -> LabelsModel {
        LabelsModel { fields: pair_models(self.fields@), roots: pair_models(self.roots@) }
    }
}

spec fn pair_of(label: Option<(String, String)>) -> Option<(Seq<char>, Seq<char>)> {
    match label {
        Some((a, b)) => Some((a@, b@)),
        None => None,
    }
}

impl Labels {
    fn of(&self, path: &str) -> (r: Option<(String, String)>)
        ensures
            pair_of(r) == label_of(self@, path@),
    {
        let n: usize = self.fields.len();
        let mut i: usize = 0;
        while i < n
            invariant
                i <= n,
                n == self.fields@.len(),
                claimed_by(self@.fields, path@, 0) == claimed_by(self@.fields, path@, i as int),
            decreases n - i,
        {
            let pair = &self.fields[i];
            assert(self@.fields[i as int] == (pair.0@, pair.1));
            if same(pair.0.as_str(), path) {
                return Some((pair.1.key().to_owned(), pair.1.label().to_owned()));
            }
            i = i + 1;
        }
        let m: usize = self.roots.len();
        let mut j: usize = 0;
        while j < m
            invariant
                j <= m,
                m == self.roots@.len(),
                claimed_by(self@.fields, path@, 0) is None,
                payload_label(self@.roots, path@, 0) == payload_label(
                    self@.roots,
                    path@,
                    j as int,
                ),
            decreases m - j,
        {
            let pair = &self.roots[j];
            assert(self@.roots[j as int] == (pair.0@, pair.1));
            if same(pair.0.as_str(), path) {
                return Some((pair.1.key().to_owned(), pair.1.label().to_owned()));
            }
            let prefix = concat(pair.0.as_str(), ".");
            if has_prefix(path, prefix.as_str()) {
                proof {
                    reveal_strlit(".");
                }
                let chars = chars_of(path);
                let len: usize = chars.len();
                let skip: usize = chars_of(prefix.as_str()).len();
                assert(skip == pair.0@.len() + 1);
                let rest = string_of(&chars, skip, len);
                assert(rest@ =~= path@.skip(pair.0@.len() as int + 1));
                let mut rule_path = concat(pair.1.key(), ".");
                rule_path.push_str(rest.as_str());
                let label = rule_path.as_str().to_owned();
                return Some((rule_path, label));
            }
            j = j + 1;
        }
        None
    }
}

fn overridden(map: &FieldMap, field: Field) -> (b: bool)
    ensures
        b == is_overridden(*map, field),
{
    let own = map.sources(field);
    let default = field.default_sources();
    let ghost a = mapping::slices(own@);
    let ghost d = mapping::slices(default@);
    let n: usize = own.len();
    assert(a.len() == n);
    if n != default.len() {
        return true;
    }
    let mut i: usize = 0;
    while i < n
        invariant
            i <= n,
            n == own@.len(),
            n == default@.len(),
            a == mapping::slices(own@),
            d == mapping::slices(default@),
            a == map.paths(field),
            d == field.default_paths(),
            forall|k: int| 0 <= k < i ==> a[k] == d[k],
        decreases n - i,
    {
        assert(a[i as int] == own@[i as int]@);
        assert(d[i as int] == default@[i as int]@);
        if !same(own[i], default[i]) {
            return true;
        }
        i = i + 1;
    }
    assert(a =~= d);
    false
}

fn ordered_fields(map: &FieldMap) -> (order: Vec<Field>)
    ensures
        order@ == field_order(*map),
{
    let mut order: Vec<Field> = Vec::new();
    let all: [Field; 18] = Field::ALL;
    let mut i: usize = 0;
    while i < 18
        invariant
            i <= 18,
            all == Field::ALL,
            order@ == fields_where(*map, true, i as nat),
        decreases 18 - i,
    {
        if overridden(map, all[i]) {
            order.push(all[i]);
        }
        i = i + 1;
    }
    let ghost first = order@;
    let mut i: usize = 0;
    assert(first + Seq::<Field>::empty() =~= first);
    while i < 18
        invariant
            i <= 18,
            all == Field::ALL,
            order@ == first + fields_where(*map, false, i as nat),
        decreases 18 - i,
    {
        if !overridden(map, all[i]) {
            order.push(all[i]);
        }
        i = i + 1;
        assert(order@ =~= first + fields_where(*map, false, i as nat));
    }
    order
}

fn path_read(record: &Json, map: &FieldMap, field: Field) -> (r: Option<String>)
    ensures
        text::opt(r) == read_path(*record, *map, field),
{
    let paths = map.sources(field);
    let ghost all = mapping::slices(paths@);
    let n: usize = paths.len();
    let mut i: usize = 0;
    while i < n
        invariant
            i <= n,
            n == paths@.len(),
            all == mapping::slices(paths@),
            all == map.paths(field),
            first_present(*record, all, 0) == first_present(*record, all, i as int),
        decreases n - i,
    {
        assert(all[i as int] == paths@[i as int]@);
        if present(record, paths[i]).is_some() {
            return Some(paths[i].to_owned());
        }
        i = i + 1;
    }
    None
}

fn cloudtrail_labels(record: &Json, map: &FieldMap) -> (labels: Labels)
    ensures
        labels@ == labels_for(*record, *map, field_order(*map)),
{
    let order = ordered_fields(map);
    let ghost all = order@;
    let n: usize = order.len();
    let mut fields: Vec<(String, Field)> = Vec::new();
    let mut roots: Vec<(String, Field)> = Vec::new();
    let mut i: usize = 0;
    proof {
        assert(all.take(0) =~= Seq::empty());
        assert(pair_models(fields@) =~= Seq::empty());
        assert(pair_models(roots@) =~= Seq::empty());
    }
    while i < n
        invariant
            i <= n,
            n == order@.len(),
            all == order@,
            pair_models(fields@) == labels_for(*record, *map, all.take(i as int)).fields,
            pair_models(roots@) == labels_for(*record, *map, all.take(i as int)).roots,
        decreases n - i,
    {
        let field: Field = order[i];
        let ghost f = pair_models(fields@);
        let ghost r = pair_models(roots@);
        assert(all.take(i + 1).drop_last() =~= all.take(i as int));
        match path_read(record, map, field) {
            Some(path) => {
                let ghost added = (path@, field);
                if field == Field::Request || field == Field::Response || field
                    == Field::Resources {
                    roots.push((path, field));
                    assert(pair_models(roots@) =~= r.push(added));
                } else {
                    fields.push((path, field));
                    assert(pair_models(fields@) =~= f.push(added));
                }
            },
            None => {},
        }
        i = i + 1;
    }
    assert(all.take(n as int) =~= all);
    Labels { fields, roots }
}

/// The pieces of a CloudTrail record.
pub open spec fn cloudtrail_pieces(record: Json, map: FieldMap) -> Seq<PieceModel> {
    let labels = labels_for(record, map, field_order(map));
    leaves_of(record).map_values(|leaf: Leaf| cloudtrail_piece(labels, leaf))
}

/// The leaves of a CloudTrail record, each labelled with the column it feeds.
pub fn labelled(record: &Json, map: &FieldMap) -> (pieces: Vec<Piece>)
    ensures
        piece_models(pieces@) == cloudtrail_pieces(*record, *map),
{
    let labels = cloudtrail_labels(record, map);
    let found = leaves(record);
    let ghost all = leaves_of(*record);
    let n: usize = found.len();
    let mut pieces: Vec<Piece> = Vec::new();
    let mut i: usize = 0;
    assert(all.len() == n);
    while i < n
        invariant
            i <= n,
            n == found@.len(),
            all == leaf_models(found@),
            pieces@.len() == i,
            forall|k: int|
                0 <= k < i ==> (#[trigger] pieces@[k])@ == cloudtrail_piece(labels@, all[k]),
        decreases n - i,
    {
        let pair = &found[i];
        assert(all[i as int] == (Leaf { path: pair.0@, value: pair.1@ }));
        let (field, label): (Option<String>, Option<String>) = match labels.of(pair.0.as_str()) {
            Some((field, label)) => (Some(field), Some(label)),
            None => (None, None),
        };
        pieces.push(
            Piece {
                path: pair.0.as_str().to_owned(),
                value: pair.1.as_str().to_owned(),
                field,
                label,
            },
        );
        i = i + 1;
    }
    assert(piece_models(pieces@) =~= cloudtrail_pieces(*record, *map));
    pieces
}

pub open spec fn is_mapped(record: Json, map: FieldMap) -> bool {
    mapping::time_in(record, map.paths(Field::EventTime)) is Some && mapping::text_in(
        record,
        map.paths(Field::EventName),
    ) is Some
}

pub open spec fn mapped_in(records: Seq<Json>, map: FieldMap) -> nat
    decreases records.len(),
{
    if records.len() == 0 {
        0
    } else {
        mapped_in(records.drop_last(), map) + if is_mapped(records.last(), map) {
            1nat
        } else {
            0
        }
    }
}

/// Nothing or one name.
pub open spec fn one_name(name: Option<Seq<char>>) -> Seq<Seq<char>> {
    match name {
        Some(n) => seq![n],
        None => Seq::empty(),
    }
}

pub open spec fn names_in(records: Seq<Json>, map: FieldMap) -> Seq<Seq<char>>
    decreases records.len(),
{
    if records.len() == 0 {
        Seq::empty()
    } else {
        names_in(records.drop_last(), map) + one_name(
            mapping::text_in(records.last(), map.paths(Field::EventName)),
        )
    }
}

/// The preview of these CloudTrail records.
pub open spec fn cloudtrail_preview(records: Seq<Json>, map: FieldMap) -> PreviewModel {
    PreviewModel {
        records: records.len(),
        mapped: mapped_in(records, map),
        names: names_in(records, map),
        pieces: if records.len() == 0 {
            Seq::empty()
        } else {
            cloudtrail_pieces(records[0], map)
        },
        paths: paths_of(records),
        editable: true,
    }
}

fn push_name(names: &mut Vec<String>, name: Option<String>)
    ensures
        text::texts(final(names)@) == text::texts(old(names)@) + one_name(text::opt(name)),
{
    let ghost before = text::texts(names@);
    match name {
        Some(name) => {
            let ghost added = name@;
            names.push(name);
            assert(text::texts(names@) =~= before + seq![added]);
        },
        None => {
            assert(before + Seq::<Seq<char>>::empty() =~= before);
        },
    }
}

/// The preview of CloudTrail records under a mapping.
pub fn cloudtrail(records: &Vec<Json>, map: &FieldMap) -> (r: HeadPreview)
    requires
        records@.len() <= HEAD_RECORDS,
    ensures
        r.shows(cloudtrail_preview(records@, *map)),
{
    let n: usize = records.len();
    let mut names: Vec<String> = Vec::new();
    let mut paths: Vec<String> = Vec::new();
    let mut mapped: u32 = 0;
    let mut i: usize = 0;
    proof {
        assert(records@.take(0) =~= Seq::empty());
        assert(text::texts(names@) =~= Seq::empty());
        assert(text::texts(paths@) =~= Seq::empty());
    }
    while i < n
        invariant
            i <= n,
            n == records@.len(),
            n <= HEAD_RECORDS,
            mapped <= i,
            mapped == mapped_in(records@.take(i as int), *map),
            text::texts(names@) == names_in(records@.take(i as int), *map),
            text::texts(paths@) == paths_of(records@.take(i as int)),
        decreases n - i,
    {
        assert(records@.take(i + 1).drop_last() =~= records@.take(i as int));
        let record = &records[i];
        let name = map.lookup_text(record, Field::EventName);
        if name.is_some() && map.lookup_time(record, Field::EventTime).is_some() {
            mapped = mapped + 1;
        }
        push_name(&mut names, name);
        add_paths(&mut paths, &leaves(record));
        i = i + 1;
    }
    assert(records@.take(n as int) =~= records@);
    let pieces: Vec<Piece> = if n == 0 {
        let none: Vec<Piece> = Vec::new();
        assert(piece_models(none@) =~= Seq::empty());
        none
    } else {
        labelled(&records[0], map)
    };
    HeadPreview {
        records: n as u32,
        mapped,
        event_names: histogram(&names),
        pieces,
        paths: histogram(&paths),
        editable: true,
    }
}

// ------------------------------------------------------ line-delimited JSON

/// The raw keys each NDJSON normalizer reads, and the column each lands in.
/// nginx paths are spelled from `_source`.
pub open spec fn label_table(log_type: LogType) -> Seq<(Seq<char>, Seq<char>)> {
    match log_type {
        LogType::WafAcl => seq![
                ("timestamp"@, "event_time"@),
                ("action"@, "event_name"@),
                ("webaclId"@, "resources.web_acl_id"@),
                ("terminatingRuleId"@, "response.terminating_rule_id"@),
                ("terminatingRuleType"@, "response.terminating_rule_type"@),
                ("httpSourceName"@, "resources.http_source_name"@),
                ("httpSourceId"@, "resources.http_source_id"@),
                ("responseCodeSent"@, "response.response_code_sent"@),
                ("httpRequest.clientIp"@, "source_ip"@),
                ("httpRequest.country"@, "request.country"@),
                ("httpRequest.uri"@, "request.url"@),
                ("httpRequest.args"@, "request.url"@),
                ("httpRequest.httpVersion"@, "request.protocol"@),
                ("httpRequest.httpMethod"@, "request.method"@),
                ("httpRequest.requestId"@, "request.request_id"@),
            ],
        LogType::ApigwAccess => seq![
                ("request_time"@, "event_time"@),
                ("http_method"@, "event_name"@),
                ("ip"@, "source_ip"@),
                ("user_agent"@, "user_agent"@),
                ("status"@, "response.status"@),
                ("path"@, "request.url"@),
                ("protocol"@, "request.protocol"@),
                ("request_id"@, "request.request_id"@),
                ("response_length"@, "response.response_length"@),
                ("integration_status"@, "response.integration_status"@),
                ("integration_latency"@, "response.integration_latency"@),
                ("api_id"@, "resources.api_id"@),
                ("stage"@, "resources.stage"@),
                ("resource_path"@, "resources.resource_path"@),
            ],
        LogType::NginxAccess => seq![
                ("_source.@timestamp"@, "event_time"@),
                ("_source.birdview.request_method"@, "event_name"@),
                ("_source.birdview.client_ip"@, "source_ip"@),
                ("_source.birdview.http_user_agent"@, "user_agent"@),
                ("_source.birdview.status"@, "response.status"@),
                ("_source.birdview.host"@, "resources.host"@),
                ("_source.birdview.request_uri"@, "request.url"@),
                ("_source.birdview.server_protocol"@, "request.protocol"@),
                ("_source.birdview.http_referer"@, "request.referer"@),
                ("_source.birdview.bytes_sent"@, "response.bytes_sent"@),
                ("_source.birdview.body_bytes_sent"@, "response.body_bytes_sent"@),
                ("_source.birdview.request_time"@, "response.request_time"@),
                ("_source.birdview.upstream_response_time"@, "response.upstream_response_time"@),
                ("_source.birdview.remote_addr"@, "resources.remote_addr"@),
                ("_source.service.name"@, "resources.service"@),
                ("_source.service.environment"@, "resources.environment"@),
                ("_source.trace.id"@, "request.trace_id"@),
            ],
        _ => Seq::empty(),
    }
}

pub open spec fn rows(table: Seq<(&str, &str)>) -> Seq<(Seq<char>, Seq<char>)> {
    table.map_values(|row: (&str, &str)| (row.0@, row.1@))
}

/// The raw keys each NDJSON normalizer reads, and the column each lands in.
pub fn ndjson_labels(log_type: LogType) -> (table: Vec<(&'static str, &'static str)>)
    ensures
        rows(table@) == label_table(log_type),
{
    let table: Vec<(&'static str, &'static str)> = match log_type {
        LogType::WafAcl => vec![
                ("timestamp", "event_time"),
                ("action", "event_name"),
                ("webaclId", "resources.web_acl_id"),
                ("terminatingRuleId", "response.terminating_rule_id"),
                ("terminatingRuleType", "response.terminating_rule_type"),
                ("httpSourceName", "resources.http_source_name"),
                ("httpSourceId", "resources.http_source_id"),
                ("responseCodeSent", "response.response_code_sent"),
                ("httpRequest.clientIp", "source_ip"),
                ("httpRequest.country", "request.country"),
                ("httpRequest.uri", "request.url"),
                ("httpRequest.args", "request.url"),
                ("httpRequest.httpVersion", "request.protocol"),
                ("httpRequest.httpMethod", "request.method"),
                ("httpRequest.requestId", "request.request_id"),
            ],
        LogType::ApigwAccess => vec![
                ("request_time", "event_time"),
                ("http_method", "event_name"),
                ("ip", "source_ip"),
                ("user_agent", "user_agent"),
                ("status", "response.status"),
                ("path", "request.url"),
                ("protocol", "request.protocol"),
                ("request_id", "request.request_id"),
                ("response_length", "response.response_length"),
                ("integration_status", "response.integration_status"),
                ("integration_latency", "response.integration_latency"),
                ("api_id", "resources.api_id"),
                ("stage", "resources.stage"),
                ("resource_path", "resources.resource_path"),
            ],
        LogType::NginxAccess => vec![
                ("_source.@timestamp", "event_time"),
                ("_source.birdview.request_method", "event_name"),
                ("_source.birdview.client_ip", "source_ip"),
                ("_source.birdview.http_user_agent", "user_agent"),
                ("_source.birdview.status", "response.status"),
                ("_source.birdview.host", "resources.host"),
                ("_source.birdview.request_uri", "request.url"),
                ("_source.birdview.server_protocol", "request.protocol"),
                ("_source.birdview.http_referer", "request.referer"),
                ("_source.birdview.bytes_sent", "response.bytes_sent"),
                ("_source.birdview.body_bytes_sent", "response.body_bytes_sent"),
                ("_source.birdview.request_time", "response.request_time"),
                ("_source.birdview.upstream_response_time", "response.upstream_response_time"),
                ("_source.birdview.remote_addr", "resources.remote_addr"),
                ("_source.service.name", "resources.service"),
                ("_source.service.environment", "resources.environment"),
                ("_source.trace.id", "request.trace_id"),
            ],
        _ => Vec::new(),
    };
    assert(rows(table@) =~= label_table(log_type));
    table
}

/// The column of the first row that names this path, with or without the
/// wrapper that nginx records may lack.
pub open spec fn column_in(table: Seq<(Seq<char>, Seq<char>)>, path: Seq<char>, i: int) -> Option<
    Seq<char>,
>
    decreases table.len() - i,
{
    if i < 0 || i >= table.len() {
        None
    } else if table[i].0 == path || table[i].0 == "_source."@ + path {
        Some(table[i].1)
    } else {
        column_in(table, path, i + 1)
    }
}

/// What to print above a piece that feeds this column.
pub open spec fn shown_label(field: Option<Seq<char>>) -> Option<Seq<char>> {
    match field {
        Some(f) => Some(explain::name_of(f)),
        None => None,
    }
}

pub open spec fn ndjson_piece(log_type: LogType, leaf: Leaf) -> PieceModel {
    let field = column_in(label_table(log_type), leaf.path, 0);
    PieceModel { path: leaf.path, value: leaf.value, field, label: shown_label(field) }
}

fn column_of(table: &Vec<(&'static str, &'static str)>, path: &str) -> (r: Option<&'static str>)
    ensures
        text::opt_str(r) == column_in(rows(table@), path@, 0),
{
    let wrapped = concat("_source.", path);
    let ghost all = rows(table@);
    let n: usize = table.len();
    let mut i: usize = 0;
    while i < n
        invariant
            i <= n,
            n == table@.len(),
            all == rows(table@),
            wrapped@ == "_source."@ + path@,
            column_in(all, path@, 0) == column_in(all, path@, i as int),
        decreases n - i,
    {
        let row = &table[i];
        assert(all[i as int] == (row.0@, row.1@));
        if same(row.0, path) || same(row.0, wrapped.as_str()) {
            return Some(row.1);
        }
        i = i + 1;
    }
    None
}

fn labels(field: Option<&'static str>) -> (r: (Option<String>, Option<String>))
    ensures
        text::opt(r.0) == text::opt_str(field),
        text::opt(r.1) == shown_label(text::opt_str(field)),
{
    match field {
        Some(f) => (Some(f.to_owned()), Some(field_name(f))),
        None => (None, None),
    }
}

pub open spec fn ndjson_pieces(log_type: LogType, record: Json) -> Seq<PieceModel> {
    leaves_of(record).map_values(|leaf: Leaf| ndjson_piece(log_type, leaf))
}

fn ndjson_labelled(log_type: LogType, record: &Json) -> (pieces: Vec<Piece>)
    ensures
        piece_models(pieces@) == ndjson_pieces(log_type, *record),
{
    let table = ndjson_labels(log_type);
    let found = leaves(record);
    let ghost all = leaves_of(*record);
    let n: usize = found.len();
    let mut pieces: Vec<Piece> = Vec::new();
    let mut i: usize = 0;
    assert(all.len() == n);
    while i < n
        invariant
            i <= n,
            n == found@.len(),
            all == leaf_models(found@),
            rows(table@) == label_table(log_type),
            pieces@.len() == i,
            forall|k: int|
                0 <= k < i ==> (#[trigger] pieces@[k])@ == ndjson_piece(log_type, all[k]),
        decreases n - i,
    {
        let pair = &found[i];
        assert(all[i as int] == (Leaf { path: pair.0@, value: pair.1@ }));
        let (field, label): (Option<String>, Option<String>) = labels(
            column_of(&table, pair.0.as_str()),
        );
        pieces.push(
            Piece {
                path: pair.0.as_str().to_owned(),
                value: pair.1.as_str().to_owned(),
                field,
                label,
            },
        );
        i = i + 1;
    }
    assert(piece_models(pieces@) =~= ndjson_pieces(log_type, *record));
    pieces
}

/// The records among these lines, at most `left` of them.
pub open spec fn lines_kept(log_type: LogType, lines: Seq<Seq<char>>, i: int, left: nat) -> Seq<
    Json,
>
    decreases lines.len() - i,
{
    if left == 0 || i < 0 || i >= lines.len() {
        Seq::empty()
    } else {
        match json::json_of(lines[i]) {
            Some(v) => if ndjson::columns_of(log_type, v) is Some {
                seq![v] + lines_kept(log_type, lines, i + 1, (left - 1) as nat)
            } else {
                lines_kept(log_type, lines, i + 1, left)
            },
            None => lines_kept(log_type, lines, i + 1, left),
        }
    }
}

/// The records of a line-delimited head; a bad line is no record.
pub fn ndjson_records(head: &str, log_type: LogType) -> (records: Vec<Json>)
    ensures
        records@ == lines_kept(log_type, split::lines(head@), 0, HEAD_RECORDS as nat),
        records@.len() <= HEAD_RECORDS,
{
    let lines = split_lines(head);
    let ghost all = split::lines(head@);
    let n: usize = lines.len();
    let mut records: Vec<Json> = Vec::new();
    let mut i: usize = 0;
    let ghost whole = lines_kept(log_type, all, 0, HEAD_RECORDS as nat);
    assert(records@ + whole =~= whole);
    while i < n && records.len() < HEAD_RECORDS
        invariant
            i <= n,
            n == lines@.len(),
            all == text::texts(lines@),
            records@.len() <= HEAD_RECORDS,
            records@ + lines_kept(
                log_type,
                all,
                i as int,
                (HEAD_RECORDS - records@.len()) as nat,
            ) == whole,
        decreases n - i,
    {
        let ghost kept = records@;
        let ghost left = (HEAD_RECORDS - records@.len()) as nat;
        assert(all[i as int] == lines@[i as int]@);
        match json::parse(lines[i].as_str()) {
            Some(v) => {
                if ndjson::normalize_value(log_type, &v, "", 0, 0, false).is_some() {
                    let ghost one = v;
                    records.push(v);
                    assert(records@ + lines_kept(log_type, all, i + 1, (left - 1) as nat) =~= kept
                        + (seq![one] + lines_kept(log_type, all, i + 1, (left - 1) as nat)));
                }
            },
            None => {},
        }
        i = i + 1;
    }
    assert(records@ + Seq::<Json>::empty() =~= records@);
    records
}

pub open spec fn ndjson_mapped(log_type: LogType, records: Seq<Json>) -> nat
    decreases records.len(),
{
    if records.len() == 0 {
        0
    } else {
        let f = ndjson::fields_of(log_type, records.last());
        ndjson_mapped(log_type, records.drop_last()) + if f.time is Some && f.name is Some {
            1nat
        } else {
            0
        }
    }
}

pub open spec fn ndjson_names(log_type: LogType, records: Seq<Json>) -> Seq<Seq<char>>
    decreases records.len(),
{
    if records.len() == 0 {
        Seq::empty()
    } else {
        ndjson_names(log_type, records.drop_last()) + one_name(
            ndjson::fields_of(log_type, records.last()).name,
        )
    }
}

/// The preview of these line-delimited records.
pub open spec fn ndjson_preview(records: Seq<Json>, log_type: LogType) -> PreviewModel {
    PreviewModel {
        records: records.len(),
        mapped: ndjson_mapped(log_type, records),
        names: ndjson_names(log_type, records),
        pieces: if records.len() == 0 {
            Seq::empty()
        } else {
            ndjson_pieces(log_type, records[0])
        },
        paths: paths_of(records),
        editable: false,
    }
}

/// The preview of line-delimited records, each of which normalizes.
pub fn ndjson(records: &Vec<Json>, log_type: LogType) -> (r: HeadPreview)
    requires
        records@.len() <= HEAD_RECORDS,
    ensures
        r.shows(ndjson_preview(records@, log_type)),
{
    let n: usize = records.len();
    let mut names: Vec<String> = Vec::new();
    let mut paths: Vec<String> = Vec::new();
    let mut mapped: u32 = 0;
    let mut i: usize = 0;
    proof {
        assert(records@.take(0) =~= Seq::empty());
        assert(text::texts(names@) =~= Seq::empty());
        assert(text::texts(paths@) =~= Seq::empty());
    }
    while i < n
        invariant
            i <= n,
            n == records@.len(),
            n <= HEAD_RECORDS,
            mapped <= i,
            mapped == ndjson_mapped(log_type, records@.take(i as int)),
            text::texts(names@) == ndjson_names(log_type, records@.take(i as int)),
            text::texts(paths@) == paths_of(records@.take(i as int)),
        decreases n - i,
    {
        assert(records@.take(i + 1).drop_last() =~= records@.take(i as int));
        let sample = ndjson::sample(log_type, &records[i]);
        if sample.event_time.is_some() && sample.event_name.is_some() {
            mapped = mapped + 1;
        }
        push_name(&mut names, sample.event_name);
        add_paths(&mut paths, &leaves(&records[i]));
        i = i + 1;
    }
    assert(records@.take(n as int) =~= records@);
    let pieces: Vec<Piece> = if n == 0 {
        let none: Vec<Piece> = Vec::new();
        assert(piece_models(none@) =~= Seq::empty());
        none
    } else {
        ndjson_labelled(log_type, &records[0])
    };
    HeadPreview {
        records: n as u32,
        mapped,
        event_names: histogram(&names),
        pieces,
        paths: histogram(&paths),
        editable: false,
    }
}

// ---------------------------------------------------------------------- ALB

/// The column each ALB access log position feeds; the others are not stored.
pub open spec fn alb_column(index: int) -> Option<Seq<char>> {
    if index == 1 {
        Some("event_time"@)
    } else if index == 2 {
        Some("resources.load_balancer"@)
    } else if index == 3 {
        Some("source_ip"@)
    } else if index == 4 {
        Some("resources.target"@)
    } else if index == 5 {
        Some("response.request_processing_time"@)
    } else if index == 6 {
        Some("response.target_processing_time"@)
    } else if index == 7 {
        Some("response.response_processing_time"@)
    } else if index == 8 {
        Some("response.elb_status_code"@)
    } else if index == 9 {
        Some("response.target_status_code"@)
    } else if index == 10 {
        Some("response.received_bytes"@)
    } else if index == 11 {
        Some("response.sent_bytes"@)
    } else if index == 12 {
        Some("request.url"@)
    } else if index == 13 {
        Some("user_agent"@)
    } else if index == 14 {
        Some("resources.ssl_cipher"@)
    } else if index == 15 {
        Some("resources.ssl_protocol"@)
    } else if index == 16 {
        Some("resources.target_group_arn"@)
    } else if index == 17 {
        Some("request.trace_id"@)
    } else if index == 18 {
        Some("request.domain_name"@)
    } else if index == 19 {
        Some("resources.chosen_cert_arn"@)
    } else if index == 21 {
        Some("request.request_creation_time"@)
    } else if index == 22 {
        Some("request.actions_executed"@)
    } else if index == 23 {
        Some("request.redirect_url"@)
    } else if index == 24 {
        Some("error_message"@)
    } else if index == 27 {
        Some("response.classification"@)
    } else if index == 28 {
        Some("response.classification_reason"@)
    } else {
        None
    }
}

fn alb_label(index: usize) -> (r: Option<&'static str>)
    ensures
        text::opt_str(r) == alb_column(index as int),
{
    match index {
        1 => Some("event_time"),
        2 => Some("resources.load_balancer"),
        3 => Some("source_ip"),
        4 => Some("resources.target"),
        5 => Some("response.request_processing_time"),
        6 => Some("response.target_processing_time"),
        7 => Some("response.response_processing_time"),
        8 => Some("response.elb_status_code"),
        9 => Some("response.target_status_code"),
        10 => Some("response.received_bytes"),
        11 => Some("response.sent_bytes"),
        12 => Some("request.url"),
        13 => Some("user_agent"),
        14 => Some("resources.ssl_cipher"),
        15 => Some("resources.ssl_protocol"),
        16 => Some("resources.target_group_arn"),
        17 => Some("request.trace_id"),
        18 => Some("request.domain_name"),
        19 => Some("resources.chosen_cert_arn"),
        21 => Some("request.request_creation_time"),
        22 => Some("request.actions_executed"),
        23 => Some("request.redirect_url"),
        24 => Some("error_message"),
        27 => Some("response.classification"),
        28 => Some("response.classification_reason"),
        _ => None,
    }
}

/// The pieces of an ALB line: its tokens, spelled by position.
pub open spec fn alb_pieces(fields: Seq<Seq<char>>) -> Seq<PieceModel> {
    Seq::new(
        fields.len(),
        |i: int|
            PieceModel {
                path: number::decimal(i as nat),
                value: fields[i],
                field: alb_column(i),
                label: shown_label(alb_column(i)),
            },
    )
}

fn alb_labelled(fields: &Vec<String>) -> (pieces: Vec<Piece>)
    ensures
        piece_models(pieces@) == alb_pieces(text::texts(fields@)),
{
    let ghost all = alb_pieces(text::texts(fields@));
    let n: usize = fields.len();
    let mut pieces: Vec<Piece> = Vec::new();
    let mut i: usize = 0;
    while i < n
        invariant
            i <= n,
            n == fields@.len(),
            n == all.len(),
            all == alb_pieces(text::texts(fields@)),
            pieces@.len() == i,
            forall|k: int| 0 <= k < i ==> (#[trigger] pieces@[k])@ == all[k],
        decreases n - i,
    {
        let (field, label): (Option<String>, Option<String>) = labels(alb_label(i));
        pieces.push(
            Piece {
                path: decimal_text(i as u64),
                value: fields[i].as_str().to_owned(),
                field,
                label,
            },
        );
        i = i + 1;
    }
    assert(piece_models(pieces@) =~= all);
    pieces
}

/// A line without the carriage returns it ends with.
pub open spec fn bare(s: Seq<char>, n: int) -> int
    decreases n,
{
    if 0 < n <= s.len() && s[n - 1] == '\r' {
        bare(s, n - 1)
    } else {
        n
    }
}

/// The lines of an ALB head that count as records, at most `left` of them.
pub open spec fn alb_kept(lines: Seq<Seq<char>>, i: int, left: nat) -> Seq<Seq<char>>
    decreases lines.len() - i,
{
    if left == 0 || i < 0 || i >= lines.len() {
        Seq::empty()
    } else {
        let line = lines[i].take(bare(lines[i], lines[i].len() as int));
        if line.len() == 0 {
            alb_kept(lines, i + 1, left)
        } else {
            seq![line] + alb_kept(lines, i + 1, (left - 1) as nat)
        }
    }
}

/// The lines of an ALB head that count as records.
pub fn alb_records(head: &str) -> (records: Vec<String>)
    ensures
        text::texts(records@) == alb_kept(split::lines(head@), 0, HEAD_RECORDS as nat),
        records@.len() <= HEAD_RECORDS,
{
    let lines = split_lines(head);
    let ghost all = split::lines(head@);
    let n: usize = lines.len();
    let mut records: Vec<String> = Vec::new();
    let mut i: usize = 0;
    let ghost whole = alb_kept(all, 0, HEAD_RECORDS as nat);
    assert(text::texts(records@) + whole =~= whole);
    while i < n && records.len() < HEAD_RECORDS
        invariant
            i <= n,
            n == lines@.len(),
            all == text::texts(lines@),
            records@.len() <= HEAD_RECORDS,
            text::texts(records@) + alb_kept(
                all,
                i as int,
                (HEAD_RECORDS - records@.len()) as nat,
            ) == whole,
        decreases n - i,
    {
        let ghost kept = text::texts(records@);
        let ghost left = (HEAD_RECORDS - records@.len()) as nat;
        assert(all[i as int] == lines@[i as int]@);
        let s = chars_of(lines[i].as_str());
        let len: usize = s.len();
        let mut end: usize = len;
        while end > 0 && s[end - 1] == '\r'
            invariant
                end <= len,
                len == s@.len(),
                bare(s@, len as int) == bare(s@, end as int),
            decreases end,
        {
            end = end - 1;
        }
        assert(s@.subrange(0, end as int) =~= s@.take(end as int));
        if end > 0 {
            records.push(string_of(&s, 0, end));
            let ghost line = s@.take(end as int);
            assert(text::texts(records@) =~= kept.push(line));
            assert(kept.push(line) + alb_kept(all, i + 1, (left - 1) as nat) =~= kept + (seq![line]
                + alb_kept(all, i + 1, (left - 1) as nat)));
        }
        i = i + 1;
    }
    assert(text::texts(records@) + Seq::<Seq<char>>::empty() =~= text::texts(records@));
    records
}

/// Lines that give an event with a name; every event of a line has its time.
pub open spec fn alb_mapped(lines: Seq<Seq<char>>) -> nat
    decreases lines.len(),
{
    if lines.len() == 0 {
        0
    } else {
        alb_mapped(lines.drop_last()) + if alb::line_event(lines.last(), 0, 0, false) matches Some(
            event,
        ) && event.event_time is Some && event.event_name is Some {
            1nat
        } else {
            0
        }
    }
}

pub open spec fn alb_names(lines: Seq<Seq<char>>) -> Seq<Seq<char>>
    decreases lines.len(),
{
    if lines.len() == 0 {
        Seq::empty()
    } else {
        alb_names(lines.drop_last()) + (match alb::line_event(lines.last(), 0, 0, false) {
            Some(event) => one_name(event.event_name),
            None => Seq::empty(),
        })
    }
}

/// The tokens of the first line that has any.
pub open spec fn first_tokens(lines: Seq<Seq<char>>) -> Seq<Seq<char>>
    decreases lines.len(),
{
    if lines.len() == 0 {
        Seq::empty()
    } else if first_tokens(lines.drop_last()).len() > 0 {
        first_tokens(lines.drop_last())
    } else {
        match alb::alb_fields(lines.last()) {
            Some(fields) => fields,
            None => Seq::empty(),
        }
    }
}

/// The preview of these ALB lines.
pub open spec fn alb_preview(lines: Seq<Seq<char>>) -> PreviewModel {
    PreviewModel {
        records: lines.len(),
        mapped: alb_mapped(lines),
        names: alb_names(lines),
        pieces: alb_pieces(first_tokens(lines)),
        paths: Seq::empty(),
        editable: false,
    }
}

/// The preview of ALB lines.
pub fn alb(lines: &Vec<String>) -> (r: HeadPreview)
    requires
        lines@.len() <= HEAD_RECORDS,
    ensures
        r.shows(alb_preview(text::texts(lines@))),
{
    let ghost all = text::texts(lines@);
    let n: usize = lines.len();
    let mut names: Vec<String> = Vec::new();
    let mut tokens: Vec<String> = Vec::new();
    let mut mapped: u32 = 0;
    let mut i: usize = 0;
    proof {
        assert(all.take(0) =~= Seq::empty());
        assert(text::texts(names@) =~= Seq::empty());
        assert(text::texts(tokens@) =~= Seq::empty());
    }
    while i < n
        invariant
            i <= n,
            n == lines@.len(),
            n <= HEAD_RECORDS,
            all == text::texts(lines@),
            mapped <= i,
            mapped == alb_mapped(all.take(i as int)),
            text::texts(names@) == alb_names(all.take(i as int)),
            text::texts(tokens@) == first_tokens(all.take(i as int)),
        decreases n - i,
    {
        let ghost listed = text::texts(names@);
        assert(all.take(i + 1).drop_last() =~= all.take(i as int));
        assert(all[i as int] == lines@[i as int]@);
        let line: &str = lines[i].as_str();
        match alb::normalize_alb(line, 0, 0, false) {
            Ok(event) => {
                if event.event_time.is_some() && event.event_name.is_some() {
                    mapped = mapped + 1;
                }
                push_name(&mut names, event.event_name);
            },
            Err(_) => {
                assert(listed + Seq::<Seq<char>>::empty() =~= listed);
            },
        }
        assert(text::texts(tokens@).len() == tokens@.len());
        if tokens.len() == 0 {
            match alb::tokenize_alb(line) {
                Ok(fields) => {
                    tokens = fields;
                },
                Err(_) => {
                    assert(text::texts(tokens@) =~= Seq::empty());
                },
            }
        }
        i = i + 1;
    }
    assert(all.take(n as int) =~= all);
    let none: Vec<String> = Vec::new();
    assert(text::texts(none@) =~= Seq::empty());
    HeadPreview {
        records: n as u32,
        mapped,
        event_names: histogram(&names),
        pieces: alb_labelled(&tokens),
        paths: histogram(&none),
        editable: false,
    }
}

// ------------------------------------------------------------------ unknown

/// A line with more than blanks.
pub open spec fn has_words(line: Seq<char>) -> bool {
    split::trim(line).len() > 0
}

/// How many of these lines say something, at most `HEAD_RECORDS`.
pub open spec fn spoken_lines(lines: Seq<Seq<char>>) -> nat
    decreases lines.len(),
{
    if lines.len() == 0 {
        0
    } else {
        let before = spoken_lines(lines.drop_last());
        if has_words(lines.last()) && before < HEAD_RECORDS {
            before + 1
        } else {
            before
        }
    }
}

pub open spec fn first_spoken(lines: Seq<Seq<char>>, i: int) -> Option<Seq<char>>
    decreases lines.len() - i,
{
    if i < 0 || i >= lines.len() {
        None
    } else if has_words(lines[i]) {
        Some(lines[i])
    } else {
        first_spoken(lines, i + 1)
    }
}

pub open spec fn bare_pieces(words: Seq<Seq<char>>) -> Seq<PieceModel> {
    Seq::new(
        words.len(),
        |i: int|
            PieceModel {
                path: number::decimal(i as nat),
                value: words[i],
                field: None,
                label: None,
            },
    )
}

/// The preview of a file that is no log.
pub open spec fn unknown_preview(s: Seq<char>) -> PreviewModel {
    let lines = split::lines(s);
    PreviewModel {
        records: spoken_lines(lines),
        mapped: 0,
        names: Seq::empty(),
        pieces: match first_spoken(lines, 0) {
            Some(line) => bare_pieces(split::words(line)),
            None => Seq::empty(),
        },
        paths: Seq::empty(),
        editable: false,
    }
}

fn bare_labelled(words: &Vec<String>) -> (pieces: Vec<Piece>)
    ensures
        piece_models(pieces@) == bare_pieces(text::texts(words@)),
{
    let ghost all = bare_pieces(text::texts(words@));
    let n: usize = words.len();
    let mut pieces: Vec<Piece> = Vec::new();
    let mut i: usize = 0;
    while i < n
        invariant
            i <= n,
            n == words@.len(),
            n == all.len(),
            all == bare_pieces(text::texts(words@)),
            pieces@.len() == i,
            forall|k: int| 0 <= k < i ==> (#[trigger] pieces@[k])@ == all[k],
        decreases n - i,
    {
        pieces.push(
            Piece {
                path: decimal_text(i as u64),
                value: words[i].as_str().to_owned(),
                field: None,
                label: None,
            },
        );
        i = i + 1;
    }
    assert(piece_models(pieces@) =~= all);
    pieces
}

/// An unrecognised file: its first line as bare tokens, nothing labelled,
/// nothing parsed. Lines are counted so the card can still say how much text
/// there is.
pub fn unknown(head: &str) -> (r: HeadPreview)
    ensures
        r.shows(unknown_preview(head@)),
{
    let lines = split_lines(head);
    let ghost all = split::lines(head@);
    let n: usize = lines.len();
    let mut spoken: u32 = 0;
    let mut pieces: Vec<Piece> = Vec::new();
    let mut seen = false;
    let mut i: usize = 0;
    proof {
        assert(all.take(0) =~= Seq::empty());
        assert(piece_models(pieces@) =~= Seq::empty());
    }
    while i < n
        invariant
            i <= n,
            n == lines@.len(),
            all == text::texts(lines@),
            spoken <= HEAD_RECORDS,
            spoken == spoken_lines(all.take(i as int)),
            !seen ==> first_spoken(all, 0) == first_spoken(all, i as int) && piece_models(pieces@)
                == Seq::<PieceModel>::empty(),
            seen ==> (first_spoken(all, 0) matches Some(line) && piece_models(pieces@)
                == bare_pieces(split::words(line))),
        decreases n - i,
    {
        assert(all.take(i + 1).drop_last() =~= all.take(i as int));
        assert(all[i as int] == lines@[i as int]@);
        let line: &str = lines[i].as_str();
        let trimmed = split::trimmed(line);
        if !trimmed.as_str().is_empty() {
            if spoken < HEAD_RECORDS as u32 {
                spoken = spoken + 1;
            }
            if !seen {
                pieces = bare_labelled(&split_words(line));
                seen = true;
            }
        }
        i = i + 1;
    }
    assert(all.take(n as int) =~= all);
    let none: Vec<String> = Vec::new();
    assert(text::texts(none@) =~= Seq::empty());
    HeadPreview {
        records: spoken,
        mapped: 0,
        event_names: histogram(&none),
        pieces,
        paths: histogram(&none),
        editable: false,
    }
}

// ----------------------------------------------------------------- the head

/// What the preview of a head shows; nothing for log types without one.
pub open spec fn previewed(s: Seq<char>, log_type: LogType, map: FieldMap) -> Option<
    PreviewModel,
> {
    match log_type {
        LogType::CloudTrail => Some(cloudtrail_preview(head_records(s), map)),
        LogType::WafAcl | LogType::ApigwAccess | LogType::NginxAccess => Some(
            ndjson_preview(
                lines_kept(log_type, split::lines(s), 0, HEAD_RECORDS as nat),
                log_type,
            ),
        ),
        LogType::AlbAccess => Some(
            alb_preview(alb_kept(split::lines(s), 0, HEAD_RECORDS as nat)),
        ),
        LogType::Unknown => Some(unknown_preview(s)),
        LogType::CloudTrailDigest | LogType::ConfigSnapshot => None,
    }
}

/// A preview of a head's text, or the reason that its log type has none.
pub open spec fn is_preview_of(
    r: Result<HeadPreview, PreviewError>,
    head: Seq<char>,
    log_type: LogType,
    map: FieldMap,
) -> bool {
    match r {
        Ok(preview) => previewed(head, log_type, map) matches Some(m) && preview.shows(m),
        Err(e) => previewed(head, log_type, map) is None && e is Unsupported && e.text()
            == log_type.name() + " 로그는 미리보기를 지원하지 않습니다"@,
    }
}

/// Previews the text of a decoded head as `log_type` under `map`.
pub fn preview_text(head: &str, log_type: LogType, map: &FieldMap) -> (r: Result<
    HeadPreview,
    PreviewError,
>)
    ensures
        is_preview_of(r, head@, log_type, *map),
{
    match log_type {
        LogType::CloudTrail => Ok(cloudtrail(&cloudtrail_records(head), map)),
        LogType::WafAcl | LogType::ApigwAccess | LogType::NginxAccess => Ok(
            ndjson(&ndjson_records(head, log_type), log_type),
        ),
        LogType::AlbAccess => Ok(alb(&alb_records(head))),
        LogType::Unknown => Ok(unknown(head)),
        other => Err(PreviewError::Unsupported(other.as_str())),
    }
}

/// Previews what came of decoding a head: the usable bytes, cut short or not,
/// or the reason that there are none.
pub fn preview_decoded(
    decoded: Result<(Vec<u8>, bool), DetectError>,
    log_type: LogType,
    map: &FieldMap,
) -> (r: Result<HeadPreview, PreviewError>)
    ensures
        match decoded {
            Ok((head, _)) => is_preview_of(r, gzip::lossy_text(head@), log_type, *map),
            Err(error) => r == Err::<HeadPreview, PreviewError>(PreviewError::Read(error)),
        },
{
    match decoded {
        Ok((head, _)) => {
            let text = gzip::lossy(&head);
            preview_text(text.as_str(), log_type, map)
        },
        Err(error) => Err(PreviewError::Read(error)),
    }
}

/// Previews the head of the file at `path`, which starts with these bytes. How
/// much of a damaged stream is previewed is not stated; [`preview_decoded`]
/// says what is shown of it.
pub fn preview_head(path: &str, bytes: &Vec<u8>, log_type: LogType, map: &FieldMap) -> (r: Result<
    HeadPreview,
    PreviewError,
>)
    ensures
        match gzip::gunzipped(bytes@, gzip::HEAD_LIMIT as nat) {
            Ok(head) => is_preview_of(r, gzip::lossy_text(head), log_type, *map),
            Err(why) => {
                ||| r matches Err(PreviewError::Read(DetectError::Io { path: at, reason })) && at@
                    == path@ && reason@ == why
                ||| exists|head: Seq<u8>|
                    0 < head.len() <= gzip::HEAD_LIMIT && is_preview_of(
                        r,
                        #[trigger] gzip::lossy_text(head),
                        log_type,
                        *map,
                    )
            },
        },
{
    preview_decoded(gzip::decoded_head(path, bytes), log_type, map)
}

} // verus!
