//! What the desktop shell decides around the analysis: the editable mapping,
//! the rule editor, and which runs and open cases may overlap.

use vstd::prelude::*;

use crate::json;
use crate::json::{to_text, Json};
use crate::mapping;
use crate::mapping::{Field, FieldMap};
use crate::number;
use crate::number::decimal_text;
use crate::parse::Outcome;
use crate::paths;
use crate::paths::is_safe_case_id;
use crate::rule;
use crate::rule::explain;
use crate::rule::parser;
use crate::rule::set::RuleSet;
use crate::rule::Rule;
use crate::split::concat;
use crate::store::CaseStatus;
use crate::text;
use crate::textmap;
use crate::textmap::TextMap;

verus! {

// ------------------------------------------------------------------- mapping

/// One row of the mapping editor: a column, its display name and the JSON
/// paths feeding it. The label travels with the row so the UI never keeps its
/// own copy of the names.
#[derive(Debug, Clone)]
pub struct MappingEntry {
    pub field: String,
    pub label: String,
    pub sources: Vec<String>,
}

/// The paths that the first `n` entries leave a field with: those of the last
/// entry that names it, or the defaults.
pub open spec fn edited_paths(entries: Seq<MappingEntry>, n: nat, field: Field) -> Seq<Seq<char>>
    decreases n,
{
    if n == 0 || n > entries.len() {
        field.default_paths()
    } else if entries[n - 1].field@ == field.key_text() {
        text::texts(entries[n - 1].sources@)
    } else {
        edited_paths(entries, (n - 1) as nat, field)
    }
}

fn copy_texts(items: &Vec<String>) -> (out: Vec<String>)
    ensures
        text::texts(out@) == text::texts(items@),
{
    let n: usize = items.len();
    let mut out: Vec<String> = Vec::new();
    let mut i: usize = 0;
    while i < n
        invariant
            i <= n,
            n == items@.len(),
            out@.len() == i,
            forall|k: int| 0 <= k < i ==> (#[trigger] out@[k])@ == items@[k]@,
        decreases n - i,
    {
        out.push(items[i].as_str().to_owned());
        i = i + 1;
    }
    assert(text::texts(out@) =~= text::texts(items@));
    out
}

/// The mapping that the editor's rows describe. An entry for an unknown
/// column is ignored rather than breaking the mapping.
pub fn build_map(entries: &Vec<MappingEntry>) -> (map: FieldMap)
    ensures
        forall|field: Field| #[trigger]
            map.paths(field) == edited_paths(entries@, entries@.len(), field),
{
    let mut map = FieldMap::cloudtrail();
    let n: usize = entries.len();
    let mut i: usize = 0;
    proof {
        assert forall|field: Field| #[trigger] map.paths(field) == field.default_paths() by {
            assert(map.named().dom().contains(field.key_text()));
        }
    }
    while i < n
        invariant
            i <= n,
            n == entries@.len(),
            forall|field: Field| #[trigger]
                map.paths(field) == edited_paths(entries@, i as nat, field),
        decreases n - i,
    {
        let ghost before = map;
        let entry = &entries[i];
        match Field::from_key(entry.field.as_str()) {
            Some(named) => {
                map.set(named, copy_texts(&entry.sources));
                proof {
                    assert forall|field: Field| #[trigger]
                        map.paths(field) == edited_paths(entries@, (i + 1) as nat, field) by {
                        mapping::an_override_changes_one_field(
                            before,
                            map,
                            named,
                            text::texts(entry.sources@),
                            field,
                        );
                        assert(before.paths(field) == edited_paths(entries@, i as nat, field));
                        if entries@[i as int].field@ == field.key_text() {
                            mapping::field_keys_are_distinct(field, named);
                        }
                    }
                }
            },
            None => {
                proof {
                    assert forall|field: Field| #[trigger]
                        map.paths(field) == edited_paths(entries@, (i + 1) as nat, field) by {
                        assert(field.key_text() != entry.field@);
                    }
                }
            },
        }
        i = i + 1;
    }
    map
}

/// The mapping the editor starts from, so the UI never hard-codes AWS paths:
/// one row per column, in order.
pub fn default_mapping() -> (rows: Vec<MappingEntry>)
    ensures
        rows@.len() == 18,
        forall|i: int|
            0 <= i < 18 ==> {
                let field = Field::ALL@[i];
                &&& (#[trigger] rows@[i]).field@ == field.key_text()
                &&& rows@[i].label@ == field.label_text()
                &&& text::texts(rows@[i].sources@) == field.default_paths()
            },
{
    let all: [Field; 18] = Field::ALL;
    let mut rows: Vec<MappingEntry> = Vec::new();
    let mut i: usize = 0;
    while i < 18
        invariant
            i <= 18,
            all == Field::ALL,
            rows@.len() == i,
            forall|k: int|
                0 <= k < i ==> {
                    let field = Field::ALL@[k];
                    &&& (#[trigger] rows@[k]).field@ == field.key_text()
                    &&& rows@[k].label@ == field.label_text()
                    &&& text::texts(rows@[k].sources@) == field.default_paths()
                },
        decreases 18 - i,
    {
        let field: Field = all[i];
        let paths = field.default_sources();
        let n: usize = paths.len();
        let mut sources: Vec<String> = Vec::new();
        let mut j: usize = 0;
        while j < n
            invariant
                j <= n,
                n == paths@.len(),
                sources@.len() == j,
                forall|k: int| 0 <= k < j ==> (#[trigger] sources@[k])@ == paths@[k]@,
            decreases n - j,
        {
            sources.push(paths[j].to_owned());
            j = j + 1;
        }
        assert(text::texts(sources@) =~= mapping::slices(paths@));
        rows.push(
            MappingEntry {
                field: field.key().to_owned(),
                label: field.label().to_owned(),
                sources,
            },
        );
        i = i + 1;
    }
    rows
}

/// One resolved field: `None` means no source path matched.
#[derive(Debug, Clone)]
pub struct FieldPreview {
    pub field: String,
    pub label: String,
    pub value: Option<String>,
}

/// A value as the editor shows it: a string as it is, the rest as JSON.
pub open spec fn shown_value(value: Option<Json>) -> Option<Seq<char>> {
    match value {
        Some(Json::Text(t)) => Some(t@),
        Some(other) => Some(json::json_text(other)),
        None => None,
    }
}

/// Resolves a mapping against one record. The editor previews through the
/// same resolver the parser uses, so what is shown is what gets stored.
pub fn preview_record(record: &Json, map: &FieldMap) -> (rows: Vec<FieldPreview>)
    ensures
        rows@.len() == 18,
        forall|i: int|
            0 <= i < 18 ==> {
                let field = Field::ALL@[i];
                &&& (#[trigger] rows@[i]).field@ == field.key_text()
                &&& rows@[i].label@ == field.label_text()
                &&& text::opt(rows@[i].value) == shown_value(
                    mapping::value_in(*record, map.paths(field)),
                )
            },
{
    let all: [Field; 18] = Field::ALL;
    let mut rows: Vec<FieldPreview> = Vec::new();
    let mut i: usize = 0;
    while i < 18
        invariant
            i <= 18,
            all == Field::ALL,
            rows@.len() == i,
            forall|k: int|
                0 <= k < i ==> {
                    let field = Field::ALL@[k];
                    &&& (#[trigger] rows@[k]).field@ == field.key_text()
                    &&& rows@[k].label@ == field.label_text()
                    &&& text::opt(rows@[k].value) == shown_value(
                        mapping::value_in(*record, map.paths(field)),
                    )
                },
        decreases 18 - i,
    {
        let field: Field = all[i];
        let value: Option<String> = match map.lookup(record, field) {
            Some(Json::Text(t)) => Some(t.as_str().to_owned()),
            Some(other) => Some(to_text(other)),
            None => None,
        };
        rows.push(
            FieldPreview {
                field: field.key().to_owned(),
                label: field.label().to_owned(),
                value,
            },
        );
        i = i + 1;
    }
    rows
}

/// Resolves the editor's rows against the text of one record; nothing where
/// the text is no JSON.
pub fn preview_mapping(record: &str, entries: &Vec<MappingEntry>) -> (r: Option<
    Vec<FieldPreview>,
>)
    ensures
        r is Some <==> json::json_of(record@) is Some,
        r matches Some(rows) ==> {
            &&& rows@.len() == 18
            &&& forall|i: int|
                0 <= i < 18 ==> {
                    let field = Field::ALL@[i];
                    &&& (#[trigger] rows@[i]).field@ == field.key_text()
                    &&& rows@[i].label@ == field.label_text()
                    &&& text::opt(rows@[i].value) == shown_value(
                        mapping::value_in(
                            json::json_of(record@)->Some_0,
                            edited_paths(entries@, entries@.len(), field),
                        ),
                    )
                }
        },
{
    match json::parse(record) {
        Some(value) => {
            let map = build_map(entries);
            Some(preview_record(&value, &map))
        },
        None => None,
    }
}

/// The rows of the detail view: a stored column shows its display name.
pub fn labelled_fields(fields: Vec<(String, Option<String>)>) -> (rows: Vec<FieldPreview>)
    ensures
        rows@.len() == fields@.len(),
        forall|i: int|
            0 <= i < rows@.len() ==> {
                &&& (#[trigger] rows@[i]).field@ == fields@[i].0@
                &&& rows@[i].label@ == explain::name_of(fields@[i].0@)
                &&& text::opt(rows@[i].value) == text::opt(fields@[i].1)
            },
{
    let n: usize = fields.len();
    let mut rows: Vec<FieldPreview> = Vec::new();
    let mut i: usize = 0;
    while i < n
        invariant
            i <= n,
            n == fields@.len(),
            rows@.len() == i,
            forall|k: int|
                0 <= k < i ==> {
                    &&& (#[trigger] rows@[k]).field@ == fields@[k].0@
                    &&& rows@[k].label@ == explain::name_of(fields@[k].0@)
                    &&& text::opt(rows@[k].value) == text::opt(fields@[k].1)
                },
        decreases n - i,
    {
        let pair = &fields[i];
        rows.push(
            FieldPreview {
                field: pair.0.as_str().to_owned(),
                label: explain::field_name(pair.0.as_str()),
                value: text::copied(&pair.1),
            },
        );
        i = i + 1;
    }
    rows
}

// --------------------------------------------------------------------- rules

/// The file a user rule is kept in. One rule per file, named after its id, so
/// deleting the rule is deleting the file. The id is held to the same rule as
/// case ids: it becomes a filename.
pub fn user_rule_path(rule_id: &str) -> (r: Result<String, String>)
    ensures
        match r {
            Ok(name) => paths::is_safe(rule_id@) && name@ == rule_id@ + ".yar"@,
            Err(message) => !paths::is_safe(rule_id@) && message@
                == "사용할 수 없는 룰 이름입니다: "@ + rule_id@,
        },
{
    if is_safe_case_id(rule_id) {
        Ok(concat(rule_id, ".yar"))
    } else {
        Err(concat("사용할 수 없는 룰 이름입니다: ", rule_id))
    }
}

/// The text is exactly one rule.
pub open spec fn one_rule(source: Seq<char>) -> Option<rule::RuleModel> {
    match parser::parsed(source) {
        Ok(rules) => if rules.len() == 1 {
            Some(rules[0])
        } else {
            None
        },
        Err(_) => None,
    }
}

/// What the editor is told of a text that is not one rule: where it fails to
/// parse, or that one rule at a time is edited.
pub open spec fn rule_refusal(source: Seq<char>, several: Seq<char>) -> Seq<char> {
    match parser::parsed(source) {
        Ok(_) => several,
        Err(e) => e.shown(),
    }
}

/// A rule ready to be written: its id and the file it goes to.
#[derive(Debug, Clone)]
pub struct UserRule {
    pub rule_id: String,
    pub file_name: String,
}

/// Checks a rule before it is written: an invalid rule must not reach disk,
/// where it would break every later load, and two rules in one file would
/// break deleting by name.
pub fn check_user_rule(source: &str) -> (r: Result<UserRule, String>)
    ensures
        match r {
            Ok(rule) => {
                &&& one_rule(source@) matches Some(parsed) && rule.rule_id@ == parsed.id
                &&& paths::is_safe(rule.rule_id@)
                &&& rule.file_name@ == rule.rule_id@ + ".yar"@
            },
            Err(message) => match one_rule(source@) {
                Some(parsed) => !paths::is_safe(parsed.id) && message@
                    == "사용할 수 없는 룰 이름입니다: "@ + parsed.id,
                None => message@ == rule_refusal(
                    source@,
                    "한 번에 룰 하나만 저장할 수 있습니다"@,
                ),
            },
        },
{
    let set: RuleSet = match RuleSet::from_source(source) {
        Ok(set) => set,
        Err(e) => return Err(e.message()),
    };
    let rules = set.rules();
    assert(rule::rule_models(rules@).len() == rules@.len());
    if rules.len() != 1 {
        return Err("한 번에 룰 하나만 저장할 수 있습니다".to_owned());
    }
    assert(rule::rule_models(rules@)[0].id == rules@[0].id@);
    let rule_id: &str = rules[0].id.as_str();
    match user_rule_path(rule_id) {
        Ok(file_name) => Ok(UserRule { rule_id: rule_id.to_owned(), file_name }),
        Err(message) => Err(message),
    }
}

/// What a draft rule says, in words, plus its id and metadata.
#[derive(Debug, Clone)]
pub struct RuleOutline {
    pub rule_id: String,
    pub description: String,
    pub severity: String,
    /// The condition rendered as a sentence.
    pub explanation: String,
}

/// The outline the editor shows beside a draft, so intent can be checked
/// without re-reading the syntax.
pub fn explain_rule(source: &str) -> (r: Result<RuleOutline, String>)
    ensures
        match r {
            Ok(outline) => one_rule(source@) matches Some(parsed) && {
                &&& outline.rule_id@ == parsed.id
                &&& outline.description@ == parsed.meta_text("description"@).unwrap_or(""@)
                &&& outline.severity@ == parsed.meta_text("severity"@).unwrap_or("unknown"@)
                &&& outline.explanation@ == explain::condition_text(
                    parsed.condition,
                    parsed.fields,
                )
            },
            Err(message) => one_rule(source@) is None && message@ == rule_refusal(
                source@,
                "한 번에 룰 하나만 편집할 수 있습니다"@,
            ),
        },
{
    let set: RuleSet = match RuleSet::from_source(source) {
        Ok(set) => set,
        Err(e) => return Err(e.message()),
    };
    let rules = set.rules();
    assert(rule::rule_models(rules@).len() == rules@.len());
    if rules.len() != 1 {
        return Err("한 번에 룰 하나만 편집할 수 있습니다".to_owned());
    }
    let rule = &rules[0];
    assert(rule::rule_models(rules@)[0] == rule@);
    Ok(
        RuleOutline {
            rule_id: rule.id.as_str().to_owned(),
            description: rule.description().to_owned(),
            severity: rule.severity().to_owned(),
            explanation: explain::explain(rule),
        },
    )
}

/// One effective rule's text.
#[derive(Debug, Clone)]
pub struct RuleSource {
    pub rule_id: String,
    pub source: String,
    /// Written by the user: deleting it removes the file too.
    pub user: bool,
}

/// The row of an effective rule.
pub open spec fn is_row_of(set: rule::set::SetModel, row: RuleSource) -> bool {
    &&& exists|i: int| 0 <= i < set.rules.len() && (#[trigger] set.rules[i]).id == row.rule_id@
    &&& set.sources.dom().contains(row.rule_id@)
    &&& row.source@ == set.sources[row.rule_id@]
    &&& row.user == (set.user.dom().contains(row.rule_id@) && set.user[row.rule_id@])
}

/// Every effective rule's text by id, so the editor can open any of them.
pub fn list_rule_sources(set: &RuleSet) -> (rows: Vec<RuleSource>)
    ensures
        forall|i: int| 0 <= i < rows@.len() ==> is_row_of(set@, #[trigger] rows@[i]),
        forall|i: int, j: int|
            0 <= i < j < rows@.len() ==> textmap::text_lt(
                (#[trigger] rows@[i]).rule_id@,
                (#[trigger] rows@[j]).rule_id@,
            ),
        forall|k: int|
            0 <= k < set@.rules.len() && set@.sources.dom().contains((#[trigger] set@.rules[k]).id)
                ==> exists|i: int|
                0 <= i < rows@.len() && (#[trigger] rows@[i]).rule_id@ == set@.rules[k].id,
{
    let rules = set.rules();
    let n: usize = rules.len();
    assert(rule::rule_models(rules@).len() == n);
    let mut ids: TextMap<()> = TextMap::new();
    let mut i: usize = 0;
    while i < n
        invariant
            i <= n,
            n == rules@.len(),
            rule::rule_models(rules@) == set@.rules,
            forall|id: Seq<char>| #[trigger]
                ids@.dom().contains(id) <==> set@.sources.dom().contains(id) && exists|k: int|
                    0 <= k < i && (#[trigger] set@.rules[k]).id == id,
        decreases n - i,
    {
        let id: &str = rules[i].id.as_str();
        let ghost before = ids@;
        assert(set@.rules[i as int].id == id@);
        if set.source(id).is_some() {
            ids.insert(id.to_owned(), ());
        }
        assert forall|other: Seq<char>| #[trigger]
            ids@.dom().contains(other) <==> set@.sources.dom().contains(other) && exists|k: int|
                0 <= k < i + 1 && (#[trigger] set@.rules[k]).id == other by {
            if before.dom().contains(other) {
                let k = choose|k: int| 0 <= k < i && (#[trigger] set@.rules[k]).id == other;
                assert(set@.rules[k].id == other);
            }
            if other == id@ {
                assert(set@.rules[i as int].id == other);
            }
        }
        i = i + 1;
    }
    let m: usize = ids.len();
    let ghost keys = ids.keys();
    let mut rows: Vec<RuleSource> = Vec::new();
    let mut j: usize = 0;
    while j < m
        invariant
            j <= m,
            m == keys.len(),
            keys == ids.keys(),
            j > 0 ==> textmap::ascending(keys),
            forall|id: Seq<char>| #[trigger]
                ids@.dom().contains(id) <==> set@.sources.dom().contains(id) && exists|k: int|
                    0 <= k < set@.rules.len() && (#[trigger] set@.rules[k]).id == id,
            rows@.len() == j,
            forall|k: int| 0 <= k < j ==> (#[trigger] rows@[k]).rule_id@ == keys[k],
            forall|k: int| 0 <= k < j ==> is_row_of(set@, #[trigger] rows@[k]),
        decreases m - j,
    {
        let (id, _): (&str, &()) = ids.entry(j);
        assert(ids@.dom().contains(id@));
        match set.source(id) {
            Some(source) => {
                rows.push(
                    RuleSource {
                        rule_id: id.to_owned(),
                        source: source.to_owned(),
                        user: set.is_user(id),
                    },
                );
            },
            None => {},
        }
        j = j + 1;
    }
    proof {
        assert forall|a: int, b: int| 0 <= a < b < rows@.len() implies textmap::text_lt(
            (#[trigger] rows@[a]).rule_id@,
            (#[trigger] rows@[b]).rule_id@,
        ) by {
            assert(textmap::text_lt(keys[a], keys[b]));
        }
        assert forall|k: int|
            0 <= k < set@.rules.len() && set@.sources.dom().contains(
                (#[trigger] set@.rules[k]).id,
            ) implies exists|a: int|
            0 <= a < rows@.len() && (#[trigger] rows@[a]).rule_id@ == set@.rules[k].id by {
            let id = set@.rules[k].id;
            assert(ids@.dom().contains(id));
            assert(keys.contains(id));
            let a = keys.index_of(id);
            assert(rows@[a].rule_id@ == keys[a]);
        }
    }
    rows
}

// ---------------------------------------------------------------- overlapping

/// Tracks the single run in flight: a parse or a rule evaluation. Both write
/// the same database, so only one may run per process.
pub struct Slot {
    running: Option<u64>,
    cancelled: bool,
    next: u64,
}

/// The run that holds the slot, and whether it was told to stop.
pub ghost struct SlotModel {
    pub running: Option<u64>,
    pub cancelled: bool,
    pub next: u64,
}

impl View for Slot {
    type V = SlotModel;

    closed spec fn view(&self) -> SlotModel {
        SlotModel { running: self.running, cancelled: self.cancelled, next: self.next }
    }
}

impl SlotModel {
    /// A run's own flag: raised once, and only while the run holds the slot.
    pub open spec fn stops(self, run: u64) -> bool {
        self.running == Some(run) && self.cancelled
    }

    /// No run is given the number of a later one.
    pub open spec fn wf(self) -> bool {
        self.running matches Some(run) ==> run < self.next
    }

    /// After a run claimed the slot; unchanged where one holds it.
    pub open spec fn begun(self) -> SlotModel {
        if self.running is Some {
            self
        } else {
            SlotModel {
                running: Some(self.next),
                cancelled: false,
                next: (self.next + 1) as u64,
            }
        }
    }

    /// After a request to stop.
    pub open spec fn told(self) -> SlotModel {
        SlotModel { cancelled: self.running is Some || self.cancelled, ..self }
    }

    /// After a run ended.
    pub open spec fn ended(self, run: u64) -> SlotModel {
        if self.running == Some(run) {
            SlotModel { running: None, cancelled: false, next: self.next }
        } else {
            self
        }
    }
}

/// While a run holds the slot a second is refused, and the refusal does not
/// replace the first: a request to stop still reaches it.
pub proof fn a_refused_run_changes_nothing(slot: SlotModel, run: u64)
    requires
        slot.running == Some(run),
    ensures
        slot.begun() == slot,
        slot.begun().told().stops(run),
{
}

/// Once a run has ended the slot is free, and a request to stop the next run
/// reaches that run and not the ended one.
pub proof fn an_ended_run_is_not_told_to_stop(slot: SlotModel, run: u64)
    requires
        slot.wf(),
        slot.next < u64::MAX,
        slot.running == Some(run),
    ensures
        slot.ended(run).running is None,
        slot.ended(run).begun().running == Some(slot.next),
        slot.ended(run).begun().told().stops(slot.next),
        !slot.ended(run).begun().told().stops(run),
{
}

/// With nothing running a request to stop is lost: it stops no later run.
pub proof fn an_early_request_stops_nothing(slot: SlotModel)
    requires
        slot.wf(),
        slot.next < u64::MAX,
        slot.running is None,
    ensures
        !slot.told().begun().stops(slot.next),
{
}

impl Slot {
    #[verifier::type_invariant]
    spec fn inv(self) -> bool {
        self@.wf()
    }

    pub fn new() -> (r: Slot)
        ensures
            r@ == (SlotModel { running: None, cancelled: false, next: 0 }),
    {
        Slot { running: None, cancelled: false, next: 0 }
    }

    /// Claims the slot. `None` means a run is in flight already: refusing is
    /// the only safe answer, since replacing it would strand the first run
    /// where `cancel` can no longer reach it.
    pub fn begin(&mut self) -> (r: Option<u64>)
        requires
            old(self)@.next < u64::MAX,
        ensures
            r is None <==> old(self)@.running is Some,
            r matches Some(run) ==> run == old(self)@.next,
            final(self)@ == old(self)@.begun(),
    {
        if self.running.is_some() {
            return None;
        }
        let run: u64 = self.next;
        *self = Slot { running: Some(run), cancelled: false, next: run + 1 };
        Some(run)
    }

    /// Cooperative cancel; a no-op when nothing is running.
    pub fn cancel(&mut self)
        ensures
            final(self)@ == old(self)@.told(),
    {
        proof {
            use_type_invariant(&*self);
        }
        if self.running.is_some() {
            self.cancelled = true;
        }
    }

    /// Frees the slot when the run that holds it ends, however it ends.
    pub fn finish(&mut self, run: u64)
        ensures
            final(self)@ == old(self)@.ended(run),
    {
        proof {
            use_type_invariant(&*self);
        }
        match self.running {
            Some(held) => {
                if held == run {
                    *self = Slot { running: None, cancelled: false, next: self.next };
                }
            },
            None => {},
        }
    }

    /// Whether a run was told to stop.
    pub fn is_cancelled(&self, run: u64) -> (b: bool)
        ensures
            b == self@.stops(run),
    {
        match self.running {
            Some(held) => held == run && self.cancelled,
            None => false,
        }
    }
}

/// Which database instances of cases are open. A case file must be opened
/// once per process, so every command works on a handle of one instance.
pub struct Instances {
    /// The most recently used case, kept open between commands.
    current: Option<String>,
    /// Handles that commands in flight hold, by case.
    held: TextMap<u64>,
}

pub ghost struct InstancesModel {
    pub current: Option<Seq<char>>,
    pub held: Map<Seq<char>, u64>,
}

impl View for Instances {
    type V = InstancesModel;

    closed spec fn view(&self) -> InstancesModel {
        InstancesModel { current: text::opt(self.current), held: self.held@ }
    }
}

impl InstancesModel {
    /// Handles in flight on a case.
    pub open spec fn handles(self, case_id: Seq<char>) -> int {
        if self.held.dom().contains(case_id) {
            self.held[case_id] as int
        } else {
            0
        }
    }

    /// The case has an open instance.
    pub open spec fn is_open(self, case_id: Seq<char>) -> bool {
        self.current == Some(case_id) || self.handles(case_id) > 0
    }
}

impl Instances {
    pub fn new() -> (r: Instances)
        ensures
            r@.current is None,
            forall|case_id: Seq<char>| !r@.is_open(case_id),
    {
        Instances { current: None, held: TextMap::new() }
    }

    /// Handles in flight on a case.
    pub fn handles(&self, case_id: &str) -> (n: u64)
        ensures
            n == self@.handles(case_id@),
    {
        match self.held.get(case_id) {
            Some(n) => *n,
            None => 0,
        }
    }

    /// Whether a case's instance is open.
    pub fn is_open(&self, case_id: &str) -> (b: bool)
        ensures
            b == self@.is_open(case_id@),
    {
        let is_current: bool = match &self.current {
            Some(id) => text::same(id.as_str(), case_id),
            None => false,
        };
        is_current || self.handles(case_id) > 0
    }

    /// Whether a command on a case has to open its database. The previous
    /// case is let go first: two idle instances would double the memory.
    pub fn prepare(&mut self, case_id: &str) -> (must_open: bool)
        ensures
            must_open == !old(self)@.is_open(case_id@),
            final(self)@ == (InstancesModel {
                current: if must_open {
                    None
                } else {
                    old(self)@.current
                },
                ..old(self)@
            }),
    {
        if self.is_open(case_id) {
            return false;
        }
        self.current = None;
        true
    }

    /// Hands out a handle on an open case, which becomes the current one.
    pub fn acquire(&mut self, case_id: &str)
        requires
            old(self)@.handles(case_id@) < u64::MAX,
        ensures
            final(self)@.current == Some(case_id@),
            forall|id: Seq<char>| #[trigger]
                final(self)@.handles(id) == old(self)@.handles(id) + (if id == case_id@ {
                    1int
                } else {
                    0
                }),
    {
        let n: u64 = self.handles(case_id);
        self.held.insert(case_id.to_owned(), n + 1);
        self.current = Some(case_id.to_owned());
    }

    /// Takes a handle back when its command is over.
    pub fn release(&mut self, case_id: &str)
        requires
            old(self)@.handles(case_id@) > 0,
        ensures
            final(self)@.current == old(self)@.current,
            forall|id: Seq<char>| #[trigger]
                final(self)@.handles(id) == old(self)@.handles(id) - (if id == case_id@ {
                    1int
                } else {
                    0
                }),
    {
        let n: u64 = self.handles(case_id);
        self.held.insert(case_id.to_owned(), n - 1);
    }

    /// Whether a case's files may be deleted: not while a command still holds
    /// its database, which would leave a half-deleted case.
    pub fn delete(&mut self, case_id: &str) -> (allowed: bool)
        ensures
            allowed == (old(self)@.handles(case_id@) == 0),
            allowed ==> !final(self)@.is_open(case_id@),
            final(self)@ == (InstancesModel {
                current: if old(self)@.current == Some(case_id@) {
                    None
                } else {
                    old(self)@.current
                },
                ..old(self)@
            }),
    {
        let is_current: bool = match &self.current {
            Some(id) => text::same(id.as_str(), case_id),
            None => false,
        };
        if is_current {
            self.current = None;
        }
        self.handles(case_id) == 0
    }
}

/// A progress event is sent now and then and at the end: one per file would
/// flood the UI.
pub fn reports_progress(done: usize, total: usize) -> (b: bool)
    ensures
        b == (done % 32 == 0 || done == total),
{
    done % 32 == 0 || done == total
}

/// One row of the case list.
#[derive(Debug, Clone)]
pub struct CaseSummary {
    pub case_id: String,
    pub input_dir: String,
    pub status: String,
    /// The low half of the count: what crosses to the UI is a `u32`.
    pub event_count: u32,
}

/// The row of a case, from its description.
pub fn case_summary(case_id: &str, meta: &Json) -> (r: CaseSummary)
    ensures
        r.case_id@ == case_id@,
        r.input_dir@ == meta.text_at("input_dir"@).unwrap_or(Seq::empty()),
        r.status@ == meta.text_at("status"@).unwrap_or("unknown"@),
        r.event_count == (match meta.member("event_count"@) {
            Some(Json::Number(n)) => n.unsigned.unwrap_or(0) % 0x1_0000_0000,
            _ => 0,
        }),
{
    let event_count: u64 = match meta.get("event_count") {
        Some(Json::Number(n)) => match n.unsigned {
            Some(count) => count,
            None => 0,
        },
        _ => 0,
    };
    CaseSummary {
        case_id: case_id.to_owned(),
        input_dir: match meta.get_str("input_dir") {
            Some(t) => t.to_owned(),
            None => String::new(),
        },
        status: match meta.get_str("status") {
            Some(t) => t.to_owned(),
            None => "unknown".to_owned(),
        },
        event_count: (event_count % 0x1_0000_0000) as u32,
    }
}

// ----------------------------------------------------------------------- runs

/// What a command that needs the slot says where a run holds it.
pub fn busy(parsing: bool) -> (r: &'static str)
    ensures
        r@ == (if parsing {
            "이미 파싱이 진행 중입니다"@
        } else {
            "파싱 또는 룰 평가가 진행 중입니다"@
        }),
{
    if parsing {
        "이미 파싱이 진행 중입니다"
    } else {
        "파싱 또는 룰 평가가 진행 중입니다"
    }
}

/// The rule a command names.
pub fn named_rule<'a>(set: &'a RuleSet, rule_id: &str) -> (r: Result<&'a Rule, String>)
    ensures
        match r {
            Ok(rule) => rule@.id == rule_id@ && set@.rules.contains(rule@),
            Err(message) => {
                &&& forall|i: int|
                    0 <= i < set@.rules.len() ==> (#[trigger] set@.rules[i]).id != rule_id@
                &&& message@ == "룰을 찾을 수 없습니다: "@ + rule_id@
            },
        },
{
    match set.rule(rule_id) {
        Some(rule) => Ok(rule),
        None => Err(concat("룰을 찾을 수 없습니다: ", rule_id)),
    }
}

/// The status a run ends its case with. A failed run must not leave the case
/// as running.
pub fn end_status(run: &Result<Outcome, String>) -> (status: CaseStatus)
    ensures
        status == (match run {
            Ok(outcome) => if outcome.cancelled {
                CaseStatus::Cancelled
            } else {
                CaseStatus::Done
            },
            Err(_) => CaseStatus::Failed,
        }),
{
    match run {
        Ok(outcome) => {
            if outcome.cancelled {
                CaseStatus::Cancelled
            } else {
                CaseStatus::Done
            }
        },
        Err(_) => CaseStatus::Failed,
    }
}

/// Result of one parse run, shown when it finishes. Counts cross to the UI as
/// `u32`: their low halves.
#[derive(Debug, Clone)]
pub struct ParseResult {
    pub case_id: String,
    pub files_parsed: u32,
    pub files_skipped: u32,
    pub files_failed: u32,
    pub records_parsed: u32,
    pub cancelled: bool,
}

fn low(n: u64) -> (r: u32)
    ensures
        r == n % 0x1_0000_0000,
{
    (n % 0x1_0000_0000) as u32
}

/// What the UI is told of a run.
pub fn parse_result(case_id: &str, outcome: &Outcome) -> (r: ParseResult)
    ensures
        r.case_id@ == case_id@,
        r.files_parsed == outcome.files_parsed as int % 0x1_0000_0000,
        r.files_skipped == outcome.files_skipped as int % 0x1_0000_0000,
        r.files_failed == outcome.files_failed as int % 0x1_0000_0000,
        r.records_parsed == outcome.records_parsed as int % 0x1_0000_0000,
        r.cancelled == outcome.cancelled,
{
    ParseResult {
        case_id: case_id.to_owned(),
        files_parsed: low(outcome.files_parsed as u64),
        files_skipped: low(outcome.files_skipped as u64),
        files_failed: low(outcome.files_failed as u64),
        records_parsed: low(outcome.records_parsed),
        cancelled: outcome.cancelled,
    }
}

/// The case log's line at the end of a run.
pub fn finish_note(run: &Result<Outcome, String>) -> (out: String)
    ensures
        out@ == (match run {
            Ok(outcome) => "parse finished records="@ + number::decimal(
                outcome.records_parsed as nat,
            ) + " failed="@ + number::decimal(outcome.files_failed as nat),
            Err(message) => "parse failed: "@ + message@,
        }),
{
    match run {
        Ok(outcome) => {
            let mut out = "parse finished records=".to_owned();
            out.push_str(decimal_text(outcome.records_parsed).as_str());
            out.push_str(" failed=");
            out.push_str(decimal_text(outcome.files_failed as u64).as_str());
            out
        },
        Err(message) => concat("parse failed: ", message.as_str()),
    }
}

/// The case log's line after the rules were registered.
pub fn rules_note(registered: &Result<usize, String>) -> (out: String)
    ensures
        out@ == (match registered {
            Ok(count) => "rules registered "@ + number::decimal(*count as nat),
            Err(message) => "rule registration failed: "@ + message@,
        }),
{
    match registered {
        Ok(count) => concat("rules registered ", decimal_text(*count as u64).as_str()),
        Err(message) => concat("rule registration failed: ", message.as_str()),
    }
}

} // verus!
