//! Record types of the conversational session and message archive.
//! The archive itself is a durable store kept outside this library;
//! these are the rows it exchanges with its callers.

use vstd::prelude::*;

verus! {

/// One conversation session.
#[derive(Debug, Clone)]
pub struct Session {
    pub id: String,
    pub created_at: i64,
    pub title: Option<String>,
    pub summary: Option<String>,
}

/// One stored message of a session.
#[derive(Debug, Clone)]
pub struct MessageRow {
    pub id: String,
    pub session_id: String,
    pub role: String,
    pub content: String,
    pub timestamp: i64,
    pub cost_json: Option<String>,
    pub tool_calls_json: Option<String>,
}

/// A session together with how many messages it holds, for history
/// listings.
#[derive(Debug, Clone)]
pub struct SessionWithCount {
    pub id: String,
    pub created_at: i64,
    pub title: Option<String>,
    pub summary: Option<String>,
    pub message_count: i64,
}

/// A semantic fact extracted from conversations, keyed uniquely.
#[derive(Debug, Clone)]
pub struct Fact {
    pub id: String,
    pub key: String,
    pub value: String,
    pub source_session: Option<String>,
    pub created_at: i64,
    pub updated_at: i64,
}

} // verus!
