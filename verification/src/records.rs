//! The data model: one configured source, one raw event-log row, the code
//! lookup tables, and the normalized output record with its abstract view.

use vstd::prelude::*;
use crate::codec::UtcTimestamp;

verus! {

/// One configured source installation: a database to scan and the
/// inclusive record-id range to extract from it.
#[derive(Debug)]
pub struct BaseOptions {
    pub server: String,
    pub name: String,
    pub start_log_record: i64,
    pub end_log_record: i64,
    pub log: String,
}

impl Clone for BaseOptions {
    fn clone(&self) -> (r: Self)
        ensures
            r == *self,
    {
        BaseOptions {
            server: self.server.clone(),
            name: self.name.clone(),
            start_log_record: self.start_log_record,
            end_log_record: self.end_log_record,
            log: self.log.clone(),
        }
    }
}

/// One row of the raw event-log table, before any reference is resolved.
#[derive(Debug)]
pub struct RawLogRow {
    pub id: i64,
    pub user_code: i64,
    pub computer_code: i64,
    pub app_code: i64,
    pub event_code: i64,
    pub comment: String,
    pub transaction_id: i64,
    pub transaction_status: i64,
    pub metadata_code: i64,
    pub data: String,
}

impl Clone for RawLogRow {
    fn clone(&self) -> (r: Self)
        ensures
            r == *self,
    {
        RawLogRow {
            id: self.id,
            user_code: self.user_code,
            computer_code: self.computer_code,
            app_code: self.app_code,
            event_code: self.event_code,
            comment: self.comment.clone(),
            transaction_id: self.transaction_id,
            transaction_status: self.transaction_status,
            metadata_code: self.metadata_code,
            data: self.data.clone(),
        }
    }
}

/// One entry of a code table: an internal code and its display name.
#[derive(Debug)]
pub struct CodePair {
    pub code: i64,
    pub name: String,
}

/// The five lookup tables of one source database.
#[derive(Debug)]
pub struct CodeTables {
    pub users: Vec<CodePair>,
    pub computers: Vec<CodePair>,
    pub apps: Vec<CodePair>,
    pub events: Vec<CodePair>,
    pub metadata_objects: Vec<CodePair>,
}

/// One normalized, delivery-ready log record.
#[derive(Debug)]
pub struct LogRecord {
    pub id: i64,
    pub date: UtcTimestamp,
    pub user: String,
    pub comp: String,
    pub app: String,
    pub event: String,
    pub comment: String,
    pub transaction_id: i64,
    pub transaction_status: String,
    pub metadata: String,
    pub data: String,
    pub error: bool,
    pub database: String,
    pub server: String,
    pub status: String,
}

/// The abstract value of a [`LogRecord`]: every text field as a character
/// sequence, the integers unbounded.
#[verifier::ext_equal]
pub ghost struct LogRecordView {
    pub id: int,
    pub date: UtcTimestamp,
    pub user: Seq<char>,
    pub comp: Seq<char>,
    pub app: Seq<char>,
    pub event: Seq<char>,
    pub comment: Seq<char>,
    pub transaction_id: int,
    pub transaction_status: Seq<char>,
    pub metadata: Seq<char>,
    pub data: Seq<char>,
    pub error: bool,
    pub database: Seq<char>,
    pub server: Seq<char>,
    pub status: Seq<char>,
}

impl View for LogRecord {
    type V = LogRecordView;

    open spec fn view(&self) -> LogRecordView {
        LogRecordView {
            id: self.id as int,
            date: self.date,
            user: self.user@,
            comp: self.comp@,
            app: self.app@,
            event: self.event@,
            comment: self.comment@,
            transaction_id: self.transaction_id as int,
            transaction_status: self.transaction_status@,
            metadata: self.metadata@,
            data: self.data@,
            error: self.error,
            database: self.database@,
            server: self.server@,
            status: self.status@,
        }
    }
}

} // verus!
