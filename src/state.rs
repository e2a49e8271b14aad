//! Data types of captured events, applications and queries.

use vstd::prelude::*;

use crate::ids::{ApplicationId, ChainId};

verus! {

/// Milliseconds or another epoch-like unsigned time.
pub type Timestamp = u64;

/// Name of an aggregated metric.
pub type MetricKey = String;

/// Severity of an event, from least to most severe.
#[derive(Clone, Copy, Debug, PartialEq, Eq, Structural)]
pub enum EventSeverity {
    Debug,
    Info,
    Warning,
    Error,
    Critical,
}

impl Default for EventSeverity {
    fn default() -> (r: EventSeverity)
        ensures
            r == EventSeverity::Info,
    {
        EventSeverity::Info
    }
}

/// An event captured from a monitored application.
#[derive(Clone, Debug)]
pub struct CapturedEvent {
    /// Identifier, assigned at ingestion.
    pub id: u64,
    pub source_app: ApplicationId,
    pub source_chain: ChainId,
    pub timestamp: Timestamp,
    /// Free-form event type.
    pub event_type: String,
    /// Structured payload, as JSON text.
    pub data: String,
    /// Transaction hash: the deduplication key.
    pub transaction_hash: String,
    /// Block height at capture, assigned at ingestion.
    pub block_height: Option<u64>,
    pub severity: EventSeverity,
}

impl CapturedEvent {
    /// A new event, not yet assigned an identifier or block height, of
    /// severity info.
    pub fn new(
        source_app: ApplicationId,
        source_chain: ChainId,
        timestamp: Timestamp,
        event_type: String,
        data: String,
        transaction_hash: String,
    ) -> (r: CapturedEvent)
        ensures
            r == (CapturedEvent {
                id: 0,
                source_app,
                source_chain,
                timestamp,
                event_type,
                data,
                transaction_hash,
                block_height: None,
                severity: EventSeverity::Info,
            }),
    {
        CapturedEvent {
            id: 0,
            source_app,
            source_chain,
            timestamp,
            event_type,
            data,
            transaction_hash,
            block_height: None,
            severity: EventSeverity::Info,
        }
    }

    /// A field-by-field copy.
    pub fn duplicate(&self) -> (r: CapturedEvent)
        ensures
            r == *self,
    {
        CapturedEvent {
            id: self.id,
            source_app: self.source_app,
            source_chain: self.source_chain,
            timestamp: self.timestamp,
            event_type: self.event_type.clone(),
            data: self.data.clone(),
            transaction_hash: self.transaction_hash.clone(),
            block_height: self.block_height,
            severity: self.severity,
        }
    }
}

/// A transaction seen on a chain.
#[derive(Clone, Debug)]
pub struct TransactionRecord {
    pub hash: String,
    pub chain_id: ChainId,
    pub timestamp: Timestamp,
    pub block_height: Option<u64>,
    pub gas_used: Option<u64>,
}

/// Kinds of metric.
#[derive(Clone, Copy, Debug, PartialEq, Eq, Structural)]
pub enum MetricType {
    Counter,
    Gauge,
    Histogram,
    Summary,
}

/// How a metric's time series is aggregated.
#[derive(Clone, Copy, Debug, PartialEq, Eq, Structural)]
pub enum AggregationMethod {
    Sum,
    Average,
    Min,
    Max,
    Last,
}

impl Default for AggregationMethod {
    fn default() -> (r: AggregationMethod)
        ensures
            r == AggregationMethod::Sum,
    {
        AggregationMethod::Sum
    }
}

/// Definition of a custom metric.
#[derive(Clone, Debug)]
pub struct MetricDefinition {
    pub name: String,
    pub description: String,
    pub metric_type: MetricType,
    /// Where in an event's payload the metric is found.
    pub extraction_path: String,
    pub aggregation: AggregationMethod,
}

/// Configuration of a monitored application.
#[derive(Clone, Debug)]
pub struct AppConfig {
    pub application_id: ApplicationId,
    pub chain_id: ChainId,
    pub graphql_endpoint: String,
    pub enabled: bool,
    pub custom_metrics: Vec<MetricDefinition>,
    /// Priority for rate limiting (higher is more lenient).
    pub priority: u8,
    pub tags: Vec<String>,
}

impl AppConfig {
    /// An enabled configuration with no custom metrics, priority zero and
    /// no tags.
    pub fn new(application_id: ApplicationId, chain_id: ChainId, graphql_endpoint: String) -> (r:
        AppConfig)
        ensures
            r.application_id == application_id,
            r.chain_id == chain_id,
            r.graphql_endpoint == graphql_endpoint,
            r.enabled,
            r.custom_metrics@.len() == 0,
            r.priority == 0,
            r.tags@.len() == 0,
    {
        AppConfig {
            application_id,
            chain_id,
            graphql_endpoint,
            enabled: true,
            custom_metrics: Vec::new(),
            priority: 0,
            tags: Vec::new(),
        }
    }
}

/// An inclusive range of timestamps.
#[derive(Clone, Copy, Debug, PartialEq, Eq, Structural)]
pub struct TimeRange {
    pub start: Timestamp,
    pub end: Timestamp,
}

impl TimeRange {
    /// The range from `start` to `end`, both included.
    pub fn new(start: Timestamp, end: Timestamp) -> (r: TimeRange)
        ensures
            r == (TimeRange { start, end }),
    {
        TimeRange { start, end }
    }

    /// Whether `timestamp` lies in the range, ends included.
    pub fn contains(&self, timestamp: Timestamp) -> (r: bool)
        ensures
            r == (self.start <= timestamp && timestamp <= self.end),
    {
        timestamp >= self.start && timestamp <= self.end
    }
}

/// Filters of an event query; an absent filter lets every event through.
#[derive(Clone, Debug)]
pub struct EventFilters {
    pub application_ids: Option<Vec<ApplicationId>>,
    pub event_types: Option<Vec<String>>,
    pub time_range: Option<TimeRange>,
    pub severity: Option<EventSeverity>,
    pub search_text: Option<String>,
}

/// A window of a list result.
#[derive(Clone, Copy, Debug, PartialEq, Eq, Structural)]
pub struct Pagination {
    pub offset: usize,
    pub limit: usize,
}

impl Default for Pagination {
    fn default() -> (r: Pagination)
        ensures
            r == (Pagination { offset: 0, limit: 100 }),
    {
        Pagination { offset: 0, limit: 100 }
    }
}

/// A subscription of another chain to captured events.
#[derive(Clone, Debug)]
pub struct Subscription {
    pub subscriber_chain: ChainId,
    pub application_filter: Option<Vec<ApplicationId>>,
    pub event_type_filter: Option<Vec<String>>,
    pub active: bool,
}

} // verus!
