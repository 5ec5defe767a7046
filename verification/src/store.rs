//! What the session store needs to decide: which rows a window asks for,
//! which events a rule can match, and how events and hits become rows. One
//! case is one database file.

use vstd::prelude::*;

use crate::number;
use crate::number::decimal_text;
use crate::split::concat;
use crate::text;
use crate::text::{debug_quoted, same};

pub mod candidate;
pub mod ledger;
pub mod paging;
pub mod pass;
pub mod rows;
pub mod sql;
pub mod summary;
pub mod window;

verus! {

#[derive(Debug)]
pub enum StoreError {
    /// The database failed; the text says how.
    Db(String),
    MissingMeta(String),
    CaseJson(String),
    RecordIndexOverflow { file_id: u32 },
    // Shown under the date inputs as-is; the frontend keys on the prefix.
    BadDateTime(String),
    RuleRun(String),
    // A run the user walked away from. Not a failure: the work is simply not
    // recorded, and the next attempt starts over.
    Cancelled,
}

impl StoreError {
    pub open spec fn text(self) -> Seq<char> {
        match self {
            StoreError::Db(why) => "database error: "@ + why@,
            StoreError::MissingMeta(place) => "case metadata missing from "@ + place@,
            StoreError::CaseJson(why) => "cannot write case.json: "@ + why@,
            StoreError::RecordIndexOverflow { file_id } => "file "@ + number::decimal(
                file_id as nat,
            ) + " exceeds the 32-bit record index range"@,
            StoreError::BadDateTime(typed) => "존재하지 않는 날짜·시각입니다: "@
                + text::debug_of(typed@),
            StoreError::RuleRun(why) => "rule evaluation failed: "@ + why@,
            StoreError::Cancelled => "작업이 취소되었습니다"@,
        }
    }

    pub fn message(&self) -> (out: String)
        ensures
            out@ == self.text(),
    {
        match self {
            StoreError::Db(why) => concat("database error: ", why.as_str()),
            StoreError::MissingMeta(place) => concat(
                "case metadata missing from ",
                place.as_str(),
            ),
            StoreError::CaseJson(why) => concat("cannot write case.json: ", why.as_str()),
            StoreError::RecordIndexOverflow { file_id } => {
                let mut out = concat("file ", decimal_text(*file_id as u64).as_str());
                out.push_str(" exceeds the 32-bit record index range");
                out
            },
            StoreError::BadDateTime(typed) => concat(
                "존재하지 않는 날짜·시각입니다: ",
                debug_quoted(typed.as_str()).as_str(),
            ),
            StoreError::RuleRun(why) => concat("rule evaluation failed: ", why.as_str()),
            StoreError::Cancelled => "작업이 취소되었습니다".to_owned(),
        }
    }
}

#[derive(Debug, Clone, Copy, PartialEq, Eq, Structural)]
pub enum CaseStatus {
    Running,
    Done,
    Cancelled,
    Failed,
}

impl CaseStatus {
    pub open spec fn name(self) -> Seq<char> {
        match self {
            CaseStatus::Running => "running"@,
            CaseStatus::Done => "done"@,
            CaseStatus::Cancelled => "cancelled"@,
            CaseStatus::Failed => "failed"@,
        }
    }

    pub fn as_str(self) -> (r: &'static str)
        ensures
            r@ == self.name(),
    {
        match self {
            CaseStatus::Running => "running",
            CaseStatus::Done => "done",
            CaseStatus::Cancelled => "cancelled",
            CaseStatus::Failed => "failed",
        }
    }

    /// The status a stored name stands for; a name nobody wrote counts as a
    /// case still running.
    pub fn parse(value: &str) -> (r: CaseStatus)
        ensures
            r == CaseStatus::named(value@),
    {
        if same(value, "done") {
            CaseStatus::Done
        } else if same(value, "cancelled") {
            CaseStatus::Cancelled
        } else if same(value, "failed") {
            CaseStatus::Failed
        } else {
            CaseStatus::Running
        }
    }

    pub open spec fn named(value: Seq<char>) -> CaseStatus {
        if value == "done"@ {
            CaseStatus::Done
        } else if value == "cancelled"@ {
            CaseStatus::Cancelled
        } else if value == "failed"@ {
            CaseStatus::Failed
        } else {
            CaseStatus::Running
        }
    }
}

/// A stored status reads back as itself.
pub proof fn case_statuses_round_trip(status: CaseStatus)
    ensures
        CaseStatus::named(status.name()) == status,
{
    reveal_strlit("running");
    reveal_strlit("done");
    reveal_strlit("cancelled");
    reveal_strlit("failed");
    assert("done"@.len() == 4);
    assert("failed"@.len() == 6);
    assert("running"@.len() == 7);
    assert("cancelled"@.len() == 9);
}

#[derive(Debug, Clone)]
pub struct CaseMeta {
    pub case_id: String,
    pub input_dir: String,
    pub status: CaseStatus,
    pub app_version: String,
}

/// One stored event, read back for verification and the results view.
#[derive(Debug, Clone)]
pub struct StoredEvent {
    pub event_id: u64,
    pub record_index: u64,
    pub event_name: Option<String>,
    pub identity_arn: Option<String>,
    pub mfa_authenticated: Option<bool>,
    pub raw: Option<String>,
}

} // verus!
