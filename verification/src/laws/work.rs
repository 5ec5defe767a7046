//! The work around the logs: texts and paths, what becomes of lines, the
//! runs of a case, the editors and what is written down.

use vstd::prelude::*;

use crate::detect::LogType;
use crate::json::Json;
use crate::json;
use crate::laws::texts;
use crate::mapping::Field;
use crate::model;
use crate::model::NormalizedEvent;
use crate::ndjson;
use crate::number;
use crate::parse;
use crate::parse::alb;
use crate::paths;
use crate::report;
use crate::results;
use crate::rule;
use crate::rule::eval;
use crate::shell;
use crate::shell::MappingEntry;
use crate::split;
use crate::store::ledger;
use crate::store::rows;
use crate::store::sql;
use crate::store::summary;
use crate::store::CaseMeta;
use crate::text;

verus! {

// -------------------------------------------------------------------- texts

/// Blanks around a text are trimmed off, and nothing else is.
pub proof fn trimming_takes_blanks_only(front: Seq<char>, core: Seq<char>, back: Seq<char>)
    requires
        forall|i: int| 0 <= i < front.len() ==> text::is_space(#[trigger] front[i]),
        forall|i: int| 0 <= i < back.len() ==> text::is_space(#[trigger] back[i]),
        core.len() > 0,
        !text::is_space(core[0]),
        !text::is_space(core.last()),
    ensures
        split::trim(front + core + back) == core,
{
    let s = front + core + back;
    lemma_front(front, core + back, 0);
    assert(s =~= front + (core + back));
    let rest = s.skip(front.len() as int);
    assert(rest =~= core + back);
    lemma_back(core, back, back.len() as int);
    assert(rest.take(core.len() as int) =~= core);
}

proof fn lemma_front(front: Seq<char>, rest: Seq<char>, i: int)
    requires
        0 <= i <= front.len(),
        forall|j: int| 0 <= j < front.len() ==> text::is_space(#[trigger] front[j]),
        rest.len() > 0 ==> !text::is_space(rest[0]),
    ensures
        split::skip_space(front + rest, i) == front.len(),
    decreases front.len() - i,
{
    let s = front + rest;
    if i < front.len() {
        assert(s[i] == front[i]);
        lemma_front(front, rest, i + 1);
    } else if rest.len() > 0 {
        assert(s[i] == rest[0]);
    }
}

proof fn lemma_back(core: Seq<char>, back: Seq<char>, k: int)
    requires
        0 <= k <= back.len(),
        forall|j: int| 0 <= j < back.len() ==> text::is_space(#[trigger] back[j]),
        core.len() > 0,
        !text::is_space(core.last()),
    ensures
        split::trimmed_len(core + back, core.len() + k) == core.len(),
    decreases k,
{
    let s = core + back;
    if k > 0 {
        assert(s[core.len() + k - 1] == back[k - 1]);
        lemma_back(core, back, k - 1);
    } else {
        assert(s[core.len() - 1] == core.last());
    }
}

/// The blanks, the digits and the letters that count as such.
pub proof fn characters_have_their_class(c: char)
    ensures
        text::is_space(' ') && text::is_space('\t') && text::is_space('\n') && text::is_space('\r'),
        text::is_ascii_space(c) <==> c == ' ' || c == '\t' || c == '\n' || c == '\r' || c as u32
            == 12,
        text::is_digit(c) <==> '0' as u32 <= c as u32 <= '9' as u32,
        text::is_alpha(c) <==> 'a' as u32 <= c as u32 <= 'z' as u32 || 'A' as u32 <= c as u32
            <= 'Z' as u32,
        '0' as u32 <= c as u32 <= '9' as u32 ==> !text::is_space(c),
        'a' as u32 <= c as u32 <= 'z' as u32 ==> !text::is_space(c),
{
}

/// Joined items stand one after the other with the separator between them.
pub proof fn joining_puts_the_separator_between(
    items: Seq<Seq<char>>,
    last: Seq<char>,
    sep: Seq<char>,
)
    ensures
        split::join(Seq::empty(), sep) == Seq::<char>::empty(),
        split::join(seq![last], sep) == last,
        items.len() > 0 ==> split::join(items.push(last), sep) == split::join(items, sep) + sep
            + last,
{
    assert(items.push(last).drop_last() =~= items);
}

proof fn lemma_lines_shift(head: Seq<char>, s: Seq<char>, i: int)
    requires
        0 <= i <= s.len(),
    ensures
        split::lines_from(head + s, head.len() + i) == split::lines_from(s, i),
    decreases s.len() - i,
{
    if i < s.len() {
        texts::lemma_find_shift(head, s, '\n', i);
        split::lemma_find_from(s, '\n', i);
        match split::find_from(s, '\n', i) {
            Some(k) => {
                lemma_lines_shift(head, s, k + 1);
                assert((head + s).subrange(head.len() + i, head.len() + k) =~= s.subrange(i, k));
            },
            None => {
                assert((head + s).subrange(head.len() + i, (head + s).len() as int) =~= s.subrange(
                    i,
                    s.len() as int,
                ));
            },
        }
    }
}

/// The first line of a text is what stands before its first line break,
/// without a carriage return at its end; the rest are the lines behind it.
pub proof fn a_line_ends_at_its_break(first: Seq<char>, rest: Seq<char>)
    requires
        !first.contains('\n'),
        first.len() > 0 ==> first.last() != '\r',
    ensures
        split::lines(first + seq!['\n'] + rest) == seq![first] + split::lines(rest),
        split::lines(first + seq!['\r', '\n'] + rest) == seq![first] + split::lines(rest),
        first.len() > 0 ==> split::lines(first) == seq![first],
        split::lines(Seq::empty()) == Seq::<Seq<char>>::empty(),
{
    lemma_line(first, seq!['\n'], rest);
    lemma_line(first, seq!['\r', '\n'], rest);
    if first.len() > 0 {
        split::lemma_find_from(first, '\n', 0);
        match split::find_from(first, '\n', 0) {
            Some(k) => {
                assert(first.contains(first[k]));
            },
            None => {},
        }
        assert(first.subrange(0, first.len() as int) =~= first);
        assert(split::lines(first) =~= seq![first]);
    }
}

proof fn lemma_line(first: Seq<char>, end: Seq<char>, rest: Seq<char>)
    requires
        !first.contains('\n'),
        first.len() > 0 ==> first.last() != '\r',
        end == seq!['\n'] || end == seq!['\r', '\n'],
    ensures
        split::lines(first + end + rest) == seq![first] + split::lines(rest),
{
    let head = first + end;
    let s = head + rest;
    assert(first + end + rest =~= s);
    let at = head.len() - 1;
    split::lemma_find_from(s, '\n', 0);
    assert(s[at] == '\n');
    match split::find_from(s, '\n', 0) {
        Some(k) => {
            if k < at {
                if k < first.len() {
                    assert(s[k] == first[k]);
                    assert(first.contains(first[k]));
                } else {
                    assert(s[k] == '\r');
                }
            }
        },
        None => {},
    }
    lemma_lines_shift(head, rest, 0);
    let line = s.subrange(0, at);
    if end.len() == 1 {
        assert(line =~= first);
    } else {
        assert(line =~= first.push('\r'));
        assert(first.push('\r').drop_last() =~= first);
    }
}

// -------------------------------------------------------------------- paths

/// A path under its root is shown from there on, any other whole.
pub proof fn paths_are_shown_from_their_root(root: Seq<Seq<char>>, rest: Seq<Seq<char>>)
    ensures
        report::display(root, root + rest) == split::join(rest, "/"@),
        forall|path: Seq<Seq<char>>|
            path.len() < root.len() ==> #[trigger] report::display(root, path) == split::join(
                path,
                "/"@,
            ),
{
    assert((root + rest).take(root.len() as int) =~= root);
    assert((root + rest).skip(root.len() as int) =~= rest);
}

/// The cases directory is the argument behind its flag, or what stands behind
/// the flag's equals sign.
pub proof fn the_flag_names_the_cases_directory(
    before: Seq<Seq<char>>,
    dir: Seq<char>,
    after: Seq<Seq<char>>,
)
    requires
        forall|i: int|
            0 <= i < before.len() ==> #[trigger] before[i] != "--cases-dir"@ && !split::starts_with(
                before[i],
                "--cases-dir="@,
            ),
    ensures
        paths::cases_dir_from(before + seq!["--cases-dir"@, dir] + after, 0) == Some(dir),
        paths::cases_dir_from(before + seq!["--cases-dir="@ + dir] + after, 0) == Some(dir),
        paths::cases_dir_from(before, 0) is None,
{
    reveal_strlit("--cases-dir");
    reveal_strlit("--cases-dir=");
    assert("--cases-dir"@.len() == 11 && "--cases-dir="@.len() == 12);
    let a = before + seq!["--cases-dir"@, dir] + after;
    let b = before + seq!["--cases-dir="@ + dir] + after;
    let n = before.len() as int;
    assert(a[n] == "--cases-dir"@ && a[n + 1] == dir);
    assert(b[n] == "--cases-dir="@ + dir);
    assert(b[n][11] == '=');
    assert(b[n].subrange(0, 12) =~= "--cases-dir="@);
    assert(b[n].skip(12) =~= dir);
    assert(b[n].len() >= 12);
    lemma_flag(before, a, 0);
    lemma_flag(before, b, 0);
    lemma_flag(before, before, 0);
}

proof fn lemma_flag(before: Seq<Seq<char>>, args: Seq<Seq<char>>, i: int)
    requires
        0 <= i <= before.len() <= args.len(),
        forall|k: int| 0 <= k < before.len() ==> #[trigger] args[k] == before[k],
        forall|k: int|
            0 <= k < before.len() ==> #[trigger] before[k] != "--cases-dir"@ && !split::starts_with(
                before[k],
                "--cases-dir="@,
            ),
    ensures
        paths::cases_dir_from(args, i) == paths::cases_dir_from(args, before.len() as int),
    decreases before.len() - i,
{
    if i < before.len() {
        assert(args[i] == before[i]);
        lemma_flag(before, args, i + 1);
    }
}

/// A bundle counts as one file: the cases lie beside it.
pub proof fn cases_lie_beside_a_bundle(dir: Seq<Seq<char>>, name: Seq<char>)
    ensures
        paths::base_len(dir + seq![name + ".app"@, "Contents"@, "MacOS"@]) == dir.len(),
        dir.len() < 3 ==> paths::base_len(dir) == dir.len(),
        dir.len() > 0 && dir.last() != "MacOS"@ ==> paths::base_len(dir) == dir.len(),
{
    let exe = dir + seq![name + ".app"@, "Contents"@, "MacOS"@];
    let n = exe.len() as int;
    let app = name + ".app"@;
    assert(exe[n - 3] == app && exe[n - 2] == "Contents"@ && exe[n - 1] == "MacOS"@);
    assert(app.subrange(name.len() as int, app.len() as int) =~= ".app"@);
}

// -------------------------------------------------------------------- lines

/// The lines that became events are kept, in order; malformed ones are not.
pub proof fn events_survive_in_order(
    outcomes: Seq<Option<model::EventModel>>,
    event: model::EventModel,
)
    ensures
        parse::survivors(Seq::empty()) == Seq::<model::EventModel>::empty(),
        parse::survivors(outcomes.push(Some(event))) == parse::survivors(outcomes).push(event),
        parse::survivors(outcomes.push(None)) == parse::survivors(outcomes),
{
    assert(outcomes.push(Some(event)).drop_last() =~= outcomes);
    assert(outcomes.push(None).drop_last() =~= outcomes);
}

/// A line is read as its file's log type says, and numbered by its place.
pub proof fn lines_are_numbered_by_their_place(
    log_type: LogType,
    lines: Seq<Seq<char>>,
    file_id: u32,
    base: nat,
    keep_raw: bool,
    i: int,
)
    requires
        0 <= i < lines.len(),
        base + i <= u64::MAX,
    ensures
        parse::batch_outcomes(log_type, lines, file_id, base, keep_raw).len() == lines.len(),
        log_type == LogType::AlbAccess ==> parse::batch_outcomes(
            log_type,
            lines,
            file_id,
            base,
            keep_raw,
        )[i] == alb::line_event(lines[i], file_id, (base + i) as u64, keep_raw),
        log_type != LogType::AlbAccess ==> parse::batch_outcomes(
            log_type,
            lines,
            file_id,
            base,
            keep_raw,
        )[i] == ndjson::line_event(log_type, lines[i], file_id, (base + i) as u64, keep_raw),
{
}

// --------------------------------------------------------------------- runs

/// A run holds the slot from its start to its own end, is stopped by a
/// request in between, and shares its number with no other.
pub proof fn a_run_holds_the_slot(slot: shell::SlotModel, other: u64)
    requires
        slot.running is None,
        slot.next < u64::MAX - 1,
        other != slot.next,
    ensures
        ({
            let run = slot.next;
            let held = slot.begun();
            &&& held.running == Some(run) && !held.stops(run)
            &&& held.told().stops(run)
            &&& held.ended(other) == held
            &&& held.ended(run).running is None && !held.told().ended(run).cancelled
            &&& held.ended(run).begun().running is Some && held.ended(run).begun().running != Some(
                run,
            )
            &&& held.begun() == held
        }),
{
}

/// A case is open while it is the current one or a handle is held on it.
pub proof fn cases_are_open_while_held(m: shell::InstancesModel, case_id: Seq<char>)
    ensures
        m.current == Some(case_id) ==> m.is_open(case_id),
        m.held.dom().contains(case_id) && m.held[case_id] > 0 ==> m.is_open(case_id),
        m.current != Some(case_id) && !m.held.dom().contains(case_id) ==> !m.is_open(case_id),
{
}

// ------------------------------------------------------------------ editors

/// The last entry that names a field sets its paths; a field that none names
/// keeps its own.
pub proof fn the_last_entry_sets_the_paths(
    entries: Seq<MappingEntry>,
    field: Field,
    k: int,
)
    ensures
        0 <= k < entries.len() && entries[k].field@ == field.key_text() && (forall|j: int|
            k < j < entries.len() ==> (#[trigger] entries[j]).field@ != field.key_text())
            ==> shell::edited_paths(entries, entries.len(), field) == text::texts(
            entries[k].sources@,
        ),
        (forall|j: int|
            0 <= j < entries.len() ==> (#[trigger] entries[j]).field@ != field.key_text())
            ==> shell::edited_paths(entries, entries.len(), field) == field.default_paths(),
{
    if 0 <= k < entries.len() && entries[k].field@ == field.key_text() && (forall|j: int|
        k < j < entries.len() ==> (#[trigger] entries[j]).field@ != field.key_text()) {
        lemma_edited(entries, field, k, entries.len());
    }
    if forall|j: int|
        0 <= j < entries.len() ==> (#[trigger] entries[j]).field@ != field.key_text() {
        lemma_edited(entries, field, -1, entries.len());
    }
}

proof fn lemma_edited(entries: Seq<MappingEntry>, field: Field, k: int, n: nat)
    requires
        -1 <= k < n <= entries.len() || (k == -1 && n == 0),
        k >= 0 ==> entries[k].field@ == field.key_text(),
        forall|j: int|
            k < j < entries.len() ==> (#[trigger] entries[j]).field@ != field.key_text(),
    ensures
        shell::edited_paths(entries, n, field) == if k >= 0 {
            text::texts(entries[k].sources@)
        } else {
            field.default_paths()
        },
    decreases n,
{
    if n > 0 && n - 1 > k {
        assert(entries[n - 1].field@ != field.key_text());
        lemma_edited(entries, field, k, (n - 1) as nat);
    }
}

/// The editor shows a string as it is, any other value as JSON.
pub proof fn values_are_shown_plainly(v: Json)
    ensures
        shell::shown_value(None) is None,
        v matches Json::Text(t) ==> shell::shown_value(Some(v)) == Some(t@),
        !(v is Text) ==> shell::shown_value(Some(v)) == Some(json::json_text(v)),
{
}

/// A preview counts the events that a rule of the set runs on and matches.
pub proof fn previews_count_what_would_match(
    rules: Seq<rule::RuleModel>,
    log_type: Seq<char>,
    event: NormalizedEvent,
    k: int,
)
    ensures
        0 <= k < rules.len() && rules[k].runs_on(log_type) && eval::matches(rules[k], event)
            ==> results::would_match(rules, log_type, event),
        (forall|j: int|
            0 <= j < rules.len() ==> !((#[trigger] rules[j]).runs_on(log_type) && eval::matches(
                rules[j],
                event,
            ))) ==> !results::would_match(rules, log_type, event),
{
    lemma_would_match(rules, log_type, event, rules.len());
}

proof fn lemma_would_match(
    rules: Seq<rule::RuleModel>,
    log_type: Seq<char>,
    event: NormalizedEvent,
    n: nat,
)
    requires
        n <= rules.len(),
    ensures
        rule::set::any_matches(rule::set::running(rules, log_type, n), event) <==> exists|j: int|
            0 <= j < n && (#[trigger] rules[j]).runs_on(log_type) && eval::matches(rules[j], event),
    decreases n,
{
    if n > 0 {
        lemma_would_match(rules, log_type, event, (n - 1) as nat);
        let before = rule::set::running(rules, log_type, (n - 1) as nat);
        let now = rule::set::running(rules, log_type, n);
        if rules[n - 1].runs_on(log_type) {
            assert(now =~= before.push(rules[n - 1]));
            if rule::set::any_matches(before, event) {
                let i = choose|i: int|
                    0 <= i < before.len() && eval::matches(#[trigger] before[i], event);
                assert(now[i] == before[i]);
            }
            if rule::set::any_matches(now, event) {
                let i = choose|i: int|
                    0 <= i < now.len() && eval::matches(#[trigger] now[i], event);
                if i < before.len() {
                    assert(before[i] == now[i]);
                }
            }
            assert(now[before.len() as int] == rules[n - 1]);
        }
    }
}

// ------------------------------------------------------------------ records

/// What is written of a case, line by line.
pub proof fn cases_are_written_line_by_line(meta: CaseMeta, n: nat)
    ensures
        ledger::case_json_text(meta, n) == "{\n"@ + ("  \""@ + "app_version"@ + "\": "@
            + json::quote(meta.app_version@)) + ",\n"@ + ("  \""@ + "case_id"@ + "\": "@
            + json::quote(meta.case_id@)) + ",\n"@ + ("  \""@ + "event_count"@ + "\": "@
            + number::decimal(n)) + ",\n"@ + ("  \""@ + "input_dir"@ + "\": "@ + json::quote(
            meta.input_dir@,
        )) + ",\n"@ + ("  \""@ + "status"@ + "\": "@ + json::quote(meta.status.name())) + "\n}"@,
        ledger::Lacking::LogType.key_text() == "log_type"@,
        ledger::Lacking::Name.key_text() == "name"@,
        ledger::Lacking::LogType.statement()
            == "UPDATE rules SET log_type = ? WHERE rule_id = ? AND log_type IS NULL"@,
        ledger::Lacking::Name.statement()
            == "UPDATE rules SET name = ? WHERE rule_id = ? AND name IS NULL"@,
{
}

/// A rule that declares a key fills its own row with what it declares.
pub proof fn rules_fill_what_they_declare(
    rules: Seq<rule::RuleModel>,
    r: rule::RuleModel,
    key: Seq<char>,
)
    ensures
        r.meta.dom().contains(key) ==> ledger::declared(rules.push(r), key, rules.len() + 1)
            == ledger::declared(rules, key, rules.len()).push((r.id, r.meta[key])),
        !r.meta.dom().contains(key) ==> ledger::declared(rules.push(r), key, rules.len() + 1)
            == ledger::declared(rules, key, rules.len()),
{
    lemma_declared(rules, r, key, rules.len());
    assert(rules.push(r)[rules.len() as int] == r);
}

proof fn lemma_declared(
    rules: Seq<rule::RuleModel>,
    r: rule::RuleModel,
    key: Seq<char>,
    n: nat,
)
    requires
        n <= rules.len(),
    ensures
        ledger::declared(rules.push(r), key, n) == ledger::declared(rules, key, n),
    decreases n,
{
    if n > 0 {
        assert(rules.push(r)[n - 1] == rules[n - 1]);
        lemma_declared(rules, r, key, (n - 1) as nat);
    }
}

/// An event has the log type of its file.
pub proof fn events_have_the_type_of_their_file(types: Seq<(u32, String)>, file_id: u32, k: int)
    requires
        0 <= k < types.len(),
        types[k].0 == file_id,
        forall|j: int| 0 <= j < k ==> (#[trigger] types[j]).0 != file_id,
    ensures
        rows::type_from(types, file_id, 0) == types[k].1@,
{
    lemma_type(types, file_id, 0, k);
}

proof fn lemma_type(types: Seq<(u32, String)>, file_id: u32, i: int, k: int)
    requires
        0 <= i <= k < types.len(),
        types[k].0 == file_id,
        forall|j: int| 0 <= j < k ==> (#[trigger] types[j]).0 != file_id,
    ensures
        rows::type_from(types, file_id, i) == types[k].1@,
    decreases k - i,
{
    if i < k {
        assert(types[i].0 != file_id);
        lemma_type(types, file_id, i + 1, k);
    }
}

/// The summaries of a page are fetched by their ids: by one range where they
/// lie close, else by lists of them.
pub proof fn summaries_are_fetched_by_id(ids: Seq<u64>, k: nat)
    ensures
        ids.len() < 1000 ==> rows::dense(ids) is None,
        rows::dense(ids) is None ==> rows::summary_query(ids, k).sql == "SELECT "@
            + rows::summary_columns() + " FROM events e WHERE "@ + "e.event_id IN ("@
            + rows::id_list(ids, k) + ")"@ && rows::summary_query(ids, k).binds == Seq::<
            sql::BindModel,
        >::empty(),
        rows::dense(ids) matches Some((first, last)) ==> rows::summary_query(ids, k).sql
            == "SELECT "@ + rows::summary_columns() + " FROM events e WHERE "@
            + "e.event_id >= ? AND e.event_id <= ?"@ && rows::summary_query(ids, k).binds == seq![
            sql::BindModel::Unsigned(first),
            sql::BindModel::Unsigned(last),
        ],
{
}

/// Of the summaries found for an event, the last counts.
pub proof fn an_event_has_its_own_summary(
    found: Seq<summary::SummaryModel>,
    event_id: u64,
    k: int,
)
    requires
        0 <= k < found.len(),
        found[k].event_id == event_id,
        forall|j: int| k < j < found.len() ==> (#[trigger] found[j]).event_id != event_id,
    ensures
        summary::summary_of(found, event_id, found.len()) == Some(found[k]),
{
    lemma_summary(found, event_id, k, found.len());
}

proof fn lemma_summary(
    found: Seq<summary::SummaryModel>,
    event_id: u64,
    k: int,
    n: nat,
)
    requires
        0 <= k < n <= found.len(),
        found[k].event_id == event_id,
        forall|j: int| k < j < found.len() ==> (#[trigger] found[j]).event_id != event_id,
    ensures
        summary::summary_of(found, event_id, n) == Some(found[k]),
    decreases n,
{
    if n - 1 > k {
        assert(found[n - 1].event_id != event_id);
        lemma_summary(found, event_id, k, (n - 1) as nat);
    }
}

} // verus!
