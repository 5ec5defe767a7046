//! What the results view asks for and what it is shown. Aggregation runs in
//! the database, so the view never loads a whole case into memory.

use vstd::prelude::*;

use crate::model::NormalizedEvent;
use crate::rule;
use crate::rule::eval::evaluate_any;
use crate::rule::set::{MatchSummary, RuleSet};

verus! {

/// One page of rows: which slice, filtered how, ordered how.
#[derive(Debug, Clone)]
pub struct Window {
    /// Continue after the previous page; reset when filters or order change.
    pub after: Option<EventCursor>,
    pub limit: u64,
    /// Case-insensitive substring over the columns the table shows. Empty
    /// matches everything. Searching hidden columns would return rows whose
    /// reason for matching is invisible.
    pub search: String,
    /// Oldest first by default: an incident is read forwards in time.
    pub newest_first: bool,
    /// Restrict to events from files of this log type; `None` is every type.
    pub log_type: Option<String>,
    /// Inclusive KST bounds. Applied above every other filter: rule counts,
    /// event list and matches all honour them.
    pub from: Option<String>,
    pub to: Option<String>,
}

impl Default for Window {
    fn default() -> (r: Self)
        ensures
            r.after is None,
            r.limit == 0,
            r.search@ == Seq::<char>::empty(),
            !r.newest_first,
            r.log_type is None,
            r.from is None,
            r.to is None,
    {
        Window {
            after: None,
            limit: 0,
            search: String::new(),
            newest_first: false,
            log_type: None,
            from: None,
            to: None,
        }
    }
}

/// The page size actually used.
pub open spec fn page_size(limit: u64) -> u64 {
    if limit < 1 {
        1
    } else if limit > 1000 {
        1000
    } else {
        limit
    }
}

impl Window {
    /// The page size actually used: a zero from the UI would return an empty
    /// page forever, and an unbounded limit would put the whole case in one
    /// answer.
    pub fn page_limit(&self) -> (n: u64)
        ensures
            n == page_size(self.limit),
            1 <= n <= 1000,
    {
        if self.limit < 1 {
            1
        } else if self.limit > 1000 {
            1000
        } else {
            self.limit
        }
    }
}

/// Exact sort key, separate from the millisecond KST display value. Strings
/// preserve the full database precision on the way to the UI.
#[derive(Debug, Clone)]
pub struct EventCursor {
    pub event_id: String,
    pub time_micros: Option<String>,
}

#[derive(Debug, Clone)]
pub struct RuleGroup {
    pub rule_id: String,
    /// `meta: name`, or the id when the rule has none.
    pub name: String,
    pub severity: String,
    pub description: String,
    pub match_count: u64,
    /// False until the rule has been run over this case; `match_count` is
    /// meaningless before that.
    pub evaluated: bool,
}

/// One matched event, summarized. The raw record is fetched separately.
#[derive(Debug, Clone)]
pub struct MatchRow {
    pub event_id: u64,
    pub event_time: Option<String>,
    pub event_name: Option<String>,
    pub event_source: Option<String>,
    pub identity_arn: Option<String>,
    pub source_ip: Option<String>,
    /// Log type of the event's source file; picks the column set.
    pub log_type: String,
    pub user_agent: Option<String>,
    pub aws_region: Option<String>,
    pub error_code: Option<String>,
    /// CloudTrail only: ARN of the first entry in `resources`.
    pub resource: Option<String>,
    /// ALB only: `request.url`, `response.elb_status_code`, `resources.target`.
    pub url: Option<String>,
    pub status: Option<String>,
    pub target: Option<String>,
    /// WAF only: request origin country and the rule that decided the action.
    pub country: Option<String>,
    pub rule: Option<String>,
    /// HTTP method from the request body; `event_name` already carries it for
    /// HTTP producers, but WAF puts the action there instead.
    pub method: Option<String>,
    /// JSON object of `$var` to the value that satisfied it.
    pub matched_fields: String,
}

/// Parsed events per log type, for the type tabs.
#[derive(Debug, Clone)]
pub struct LogTypeCount {
    pub log_type: String,
    pub events: u64,
}

/// The results sidebar: type tabs, date bounds, rule groups and the case
/// totals under the window's scope. Rows are paged separately so scrolling
/// never recomputes these.
#[derive(Debug, Clone)]
pub struct ResultPage {
    /// Every type in the case, unaffected by the window's type filter so the
    /// tabs stay stable while one is selected.
    pub log_types: Vec<LogTypeCount>,
    /// First and last event day in KST across the whole case; bounds for the
    /// date filter. `None` when the case has no timed event.
    pub first_day: Option<String>,
    pub last_day: Option<String>,
    pub groups: Vec<RuleGroup>,
    pub total_events: u64,
    pub matched_events: u64,
    /// Events no rule matched. Shown so a coverage gap is visible, not hidden.
    pub unmatched_events: u64,
}

/// Puts the sidebar of a parsed case together.
pub fn result_page(
    log_types: Vec<LogTypeCount>,
    days: (Option<String>, Option<String>),
    groups: Vec<RuleGroup>,
    total_events: u64,
    matched_events: u64,
) -> (page: ResultPage)
    ensures
        page.log_types == log_types,
        page.first_day == days.0,
        page.last_day == days.1,
        page.groups == groups,
        page.total_events == total_events,
        page.matched_events == matched_events,
        page.unmatched_events == (if matched_events <= total_events {
            total_events - matched_events
        } else {
            0
        }),
{
    let unmatched_events: u64 = if matched_events <= total_events {
        total_events - matched_events
    } else {
        0
    };
    ResultPage {
        log_types,
        first_day: days.0,
        last_day: days.1,
        groups,
        total_events,
        matched_events,
        unmatched_events,
    }
}

/// One page of rows, with the total that page was drawn from.
#[derive(Debug, Clone)]
pub struct EventPage {
    pub rows: Vec<MatchRow>,
    /// Exact filtered count on the first page; continuations do not recount.
    pub total: Option<u64>,
    /// Last returned sort key, or `None` when this page is empty.
    pub next_cursor: Option<EventCursor>,
}

/// Whether a page is the first of its list, the one that counts the rows.
pub fn counts_rows(window: &Window) -> (b: bool)
    ensures
        b == (window.after is None),
{
    window.after.is_none()
}

/// One JSON path seen inside a payload column while parsing, and how many
/// events of that log type carried it.
#[derive(Debug, Clone)]
pub struct PayloadKey {
    pub log_type: String,
    /// As a rule spells it: `request.bucketName`, `resources.0.ARN`.
    pub path: String,
    pub events: u64,
}

/// A trial run: events a rule set would match, and how many were scanned.
#[derive(Debug, Clone, Copy, PartialEq, Eq, Structural)]
pub struct MatchCount {
    pub hits: u64,
    pub scanned: u64,
}

/// A rule of the set that runs on this log type matches the event.
pub open spec fn would_match(
    rules: Seq<rule::RuleModel>,
    log_type: Seq<char>,
    event: NormalizedEvent,
) -> bool {
    rule::set::any_matches(rule::set::running(rules, log_type, rules.len()), event)
}

impl MatchCount {
    pub fn new() -> (r: MatchCount)
        ensures
            r.hits == 0,
            r.scanned == 0,
    {
        MatchCount { hits: 0, scanned: 0 }
    }

    /// Counts one event of a trial run, without recording anything: the
    /// editor asks how many events a rule would catch while it is still being
    /// written.
    pub fn visit(&mut self, set: &RuleSet, log_type: &str, event: &NormalizedEvent)
        requires
            old(self).scanned < u64::MAX,
            old(self).hits <= old(self).scanned,
        ensures
            final(self).scanned == old(self).scanned + 1,
            final(self).hits == old(self).hits + (if would_match(
                set@.rules,
                log_type@,
                *event,
            ) {
                1int
            } else {
                0
            }),
            final(self).hits <= final(self).scanned,
    {
        let rules = set.for_log_type(log_type);
        let hit = evaluate_any(rules.as_slice(), event);
        proof {
            let models = rule::set::borrowed_models(rules@);
            assert(models.len() == rules@.len());
            if hit {
                let i = choose|i: int|
                    0 <= i < rules@.len() && rule::eval::matches((#[trigger] rules@[i])@, *event);
                assert(models[i] == rules@[i]@);
            }
            if rule::set::any_matches(models, *event) {
                let i = choose|i: int|
                    0 <= i < models.len() && rule::eval::matches(#[trigger] models[i], *event);
                assert(models[i] == rules@[i]@);
            }
        }
        self.scanned = self.scanned + 1;
        if hit {
            self.hits = self.hits + 1;
        }
    }
}

/// How a pass over the stored events ended.
#[derive(Debug)]
pub enum ScanEnd {
    Complete,
    /// The user walked away from the run.
    Cancelled,
    /// The store failed; the text says how.
    Failed(String),
}

/// What becomes of one rule's run.
#[derive(Debug)]
pub enum RunEnd {
    /// The rule counts as evaluated, with this many matches.
    Evaluated(u64),
    /// The rule is left pending with no hits: those already written are
    /// dropped, so the next attempt starts over.
    Cancelled,
    /// The same, for a failure.
    Failed(String),
}

/// The matches that a summary counts.
pub open spec fn matches_in(lines: Seq<rule::set::RuleSummary>) -> nat
    decreases lines.len(),
{
    if lines.len() == 0 {
        0
    } else {
        matches_in(lines.drop_last()) + lines.last().match_count as nat
    }
}

proof fn lemma_matches_prefix(lines: Seq<rule::set::RuleSummary>, k: int)
    requires
        0 <= k <= lines.len(),
    ensures
        matches_in(lines.take(k)) <= matches_in(lines),
    decreases lines.len() - k,
{
    if k < lines.len() {
        assert(lines.take(k + 1).drop_last() =~= lines.take(k));
        lemma_matches_prefix(lines, k + 1);
    } else {
        assert(lines.take(k) =~= lines);
    }
}

/// Decides what becomes of a rule's run. Only a completed scan whose last
/// batch was written, and that nobody abandoned meanwhile, is recorded:
/// partial hits would read as a finished rule.
pub fn conclude(
    scan: ScanEnd,
    written: Result<(), String>,
    cancelled: bool,
    summary: &MatchSummary,
) -> (end: RunEnd)
    requires
        matches_in(summary.rules@) <= u64::MAX,
    ensures
        end matches RunEnd::Evaluated(n) ==> n == matches_in(summary.rules@),
        end is Evaluated <==> scan is Complete && written is Ok && !cancelled,
        end is Cancelled <==> scan is Cancelled || (scan is Complete && written is Ok
            && cancelled),
        end matches RunEnd::Failed(reason) ==> (match scan {
            ScanEnd::Failed(why) => reason == why,
            _ => written == Err::<(), String>(reason),
        }),
{
    match scan {
        ScanEnd::Cancelled => RunEnd::Cancelled,
        ScanEnd::Failed(reason) => RunEnd::Failed(reason),
        ScanEnd::Complete => match written {
            Err(reason) => RunEnd::Failed(reason),
            Ok(()) => {
                if cancelled {
                    RunEnd::Cancelled
                } else {
                    let n: usize = summary.rules.len();
                    let mut total: u64 = 0;
                    let mut i: usize = 0;
                    assert(summary.rules@.take(0) =~= Seq::empty());
                    while i < n
                        invariant
                            i <= n,
                            n == summary.rules@.len(),
                            matches_in(summary.rules@) <= u64::MAX,
                            total == matches_in(summary.rules@.take(i as int)),
                        decreases n - i,
                    {
                        proof {
                            assert(summary.rules@.take(i + 1).drop_last()
                                =~= summary.rules@.take(i as int));
                            lemma_matches_prefix(summary.rules@, i + 1);
                        }
                        total = total + summary.rules[i].match_count;
                        i = i + 1;
                    }
                    assert(summary.rules@.take(n as int) =~= summary.rules@);
                    RunEnd::Evaluated(total)
                }
            },
        },
    }
}

} // verus!
