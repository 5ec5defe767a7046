//! Normalized event model. Rules bind to these field names, not to raw
//! CloudTrail JSON paths, so a rule survives new log types.

use vstd::prelude::*;

use crate::stamp::Stamp;
use crate::text;

verus! {

#[derive(Debug, Clone, PartialEq)]
pub struct NormalizedEvent {
    pub file_id: u32,
    /// Position within the source file; with `file_id` it locates the original.
    pub record_index: u64,
    pub event_time: Option<Stamp>,
    pub event_source: Option<String>,
    pub event_name: Option<String>,
    pub aws_region: Option<String>,
    pub account_id: Option<String>,
    pub source_ip: Option<String>,
    pub user_agent: Option<String>,
    pub identity_type: Option<String>,
    pub identity_arn: Option<String>,
    pub identity_name: Option<String>,
    pub mfa_authenticated: Option<bool>,
    pub error_code: Option<String>,
    pub error_message: Option<String>,
    pub read_only: Option<bool>,
    pub management_event: Option<bool>,
    /// Service-specific shapes stay as JSON text; rules address them dynamically.
    pub request: Option<String>,
    pub response: Option<String>,
    pub resources: Option<String>,
    pub raw: Option<String>,
}

pub ghost struct EventModel {
    pub file_id: u32,
    pub record_index: u64,
    pub event_time: Option<Stamp>,
    pub event_source: Option<Seq<char>>,
    pub event_name: Option<Seq<char>>,
    pub aws_region: Option<Seq<char>>,
    pub account_id: Option<Seq<char>>,
    pub source_ip: Option<Seq<char>>,
    pub user_agent: Option<Seq<char>>,
    pub identity_type: Option<Seq<char>>,
    pub identity_arn: Option<Seq<char>>,
    pub identity_name: Option<Seq<char>>,
    pub mfa_authenticated: Option<bool>,
    pub error_code: Option<Seq<char>>,
    pub error_message: Option<Seq<char>>,
    pub read_only: Option<bool>,
    pub management_event: Option<bool>,
    pub request: Option<Seq<char>>,
    pub response: Option<Seq<char>>,
    pub resources: Option<Seq<char>>,
    pub raw: Option<Seq<char>>,
}

impl View for NormalizedEvent {
    type V = EventModel;

    open spec fn view(&self) -> EventModel {
        EventModel {
            file_id: self.file_id,
            record_index: self.record_index,
            event_time: self.event_time,
            event_source: text::opt(self.event_source),
            event_name: text::opt(self.event_name),
            aws_region: text::opt(self.aws_region),
            account_id: text::opt(self.account_id),
            source_ip: text::opt(self.source_ip),
            user_agent: text::opt(self.user_agent),
            identity_type: text::opt(self.identity_type),
            identity_arn: text::opt(self.identity_arn),
            identity_name: text::opt(self.identity_name),
            mfa_authenticated: self.mfa_authenticated,
            error_code: text::opt(self.error_code),
            error_message: text::opt(self.error_message),
            read_only: self.read_only,
            management_event: self.management_event,
            request: text::opt(self.request),
            response: text::opt(self.response),
            resources: text::opt(self.resources),
            raw: text::opt(self.raw),
        }
    }
}

pub open spec fn opt_event(event: Option<NormalizedEvent>) -> Option<EventModel> {
    match event {
        Some(event) => Some(event@),
        None => None,
    }
}

} // verus!
