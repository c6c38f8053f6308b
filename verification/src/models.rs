//! Plain data records shared by the data sources and the aggregation pipeline.
use vstd::prelude::*;

verus! {

/// One request as read from a data source: the unit of the dedup pipeline.
#[derive(Debug)]
pub struct RawRecord {
    pub session_id: String,
    pub model: String,
    pub provider_id: String,
    pub created_at: i64,
    pub input_tokens: i64,
    pub output_tokens: i64,
    pub cache_read: i64,
    pub cache_creation: i64,
    pub latency: i64,
    pub is_codex: bool,
}

impl Clone for RawRecord {
    fn clone(&self) -> (r: Self)
        ensures
            r == *self,
    {
        RawRecord {
            session_id: self.session_id.clone(),
            model: self.model.clone(),
            provider_id: self.provider_id.clone(),
            created_at: self.created_at,
            input_tokens: self.input_tokens,
            output_tokens: self.output_tokens,
            cache_read: self.cache_read,
            cache_creation: self.cache_creation,
            latency: self.latency,
            is_codex: self.is_codex,
        }
    }
}

/// Query parameters shared by all aggregate queries.
#[derive(Debug)]
pub struct FilterParams {
    pub from_epoch: Option<i64>,
    pub to_epoch: Option<i64>,
    pub tz_offset: Option<i64>,
    pub provider_id: Option<String>,
    pub model_id: Option<String>,
}

#[derive(Debug)]
pub struct Provider {
    pub id: String,
    pub name: String,
}

#[derive(Debug, Clone, Copy, PartialEq, Eq, Structural)]
pub struct DateRange {
    pub min: i64,
    pub max: i64,
}

#[derive(Debug)]
pub struct DatabaseInfo {
    pub path: String,
    pub record_count: i64,
    pub date_range: DateRange,
    pub providers: Vec<Provider>,
    pub models: Vec<String>,
}

#[derive(Debug)]
pub struct ModelBreakdown {
    pub model: String,
    pub requests: i64,
    pub input_tokens: i64,
    pub output_tokens: i64,
    pub cache_read: i64,
    pub cache_creation: i64,
}

#[derive(Debug)]
pub struct ProviderModelToken {
    pub provider_id: String,
    pub model: String,
    pub input_tokens: i64,
    pub output_tokens: i64,
    pub cache_read: i64,
    pub cache_creation: i64,
}

#[derive(Debug)]
pub struct ModelContextTierBucket {
    pub model: String,
    pub day: String,
    pub context_tier: i64,
    pub input_tokens: i64,
    pub output_tokens: i64,
    pub cache_read: i64,
    pub cache_creation: i64,
    pub representative_epoch: i64,
}

/// Token totals of one minute bucket of the realtime view.
#[derive(Debug, Clone, Copy, PartialEq, Eq, Structural)]
pub struct RealtimeBucket {
    pub bucket: i64,
    pub requests: i64,
    pub input_tokens: i64,
    pub output_tokens: i64,
    pub cache_read: i64,
    pub cache_creation: i64,
}

#[derive(Debug)]
pub struct SessionBreakdown {
    pub session_id: String,
    pub requests: i64,
    pub max_context_width: i64,
    pub input_tokens: i64,
    pub output_tokens: i64,
    pub cache_read: i64,
    pub cache_creation: i64,
    pub first_at: i64,
    pub last_at: i64,
}

#[derive(Debug)]
pub struct SessionModelToken {
    pub session_id: String,
    pub model: String,
    pub input_tokens: i64,
    pub output_tokens: i64,
    pub cache_read: i64,
    pub cache_creation: i64,
}

/// Token counts of one request of one session.
#[derive(Debug)]
pub struct SessionRequestToken {
    pub session_id: String,
    pub model: String,
    pub created_at: i64,
    pub input_tokens: i64,
    pub output_tokens: i64,
    pub cache_read: i64,
    pub cache_creation: i64,
}

impl Clone for SessionRequestToken {
    fn clone(&self) -> (r: Self)
        ensures
            r == *self,
    {
        SessionRequestToken {
            session_id: self.session_id.clone(),
            model: self.model.clone(),
            created_at: self.created_at,
            input_tokens: self.input_tokens,
            output_tokens: self.output_tokens,
            cache_read: self.cache_read,
            cache_creation: self.cache_creation,
        }
    }
}

#[derive(Debug, Clone, Copy, PartialEq, Eq, Structural)]
pub struct CompareBucket {
    pub threshold: i64,
    pub representative_epoch: i64,
    pub input_tokens: i64,
    pub output_tokens: i64,
    pub cache_read: i64,
    pub cache_creation: i64,
}

#[derive(Debug, Clone, Copy, PartialEq, Eq, Structural)]
pub struct RefreshResult {
    pub has_new: bool,
    pub record_count: Option<i64>,
}

#[derive(Debug)]
pub struct FilterOptions {
    pub providers: Vec<Provider>,
    pub models: Vec<String>,
    pub date_range: DateRange,
}

#[derive(Debug)]
pub struct SourceInfo {
    pub id: String,
    pub path: String,
    pub db_type: String,
    pub record_count: i64,
    pub enabled: bool,
}

#[derive(Debug)]
pub struct Task {
    pub id: i64,
    pub title: String,
    pub description: String,
    pub status: String,
    pub created_at: i64,
    pub updated_at: i64,
}

#[derive(Debug)]
pub struct TaskSession {
    pub task_id: i64,
    pub session_id: String,
    pub source: String,
    pub project_dir: String,
    pub title: String,
    pub added_at: i64,
}

#[derive(Debug)]
pub struct TaskSessionInput {
    pub session_id: String,
    pub source: String,
    pub project_dir: String,
    pub title: String,
}

} // verus!
