//! Streaming summaries of a log of periodic traffic counts.
//!
//! A run feeds timestamped counts, one at a time, through three bounded
//! accumulators: per-day totals, the three highest-count records, and the
//! minimum-sum window of three consecutive records. Each accumulator keeps
//! its summary without buffering the stream.

pub mod daily;
pub mod dates;
pub mod record;
pub mod summary;
pub mod top_k;
pub mod window;

pub use daily::DailyAggregator;
pub use daily::DayTotal;
pub use dates::DateKey;
pub use record::TrafficCount;
pub use record::TrafficError;
pub use summary::Summary;
pub use top_k::TopKTracker;
pub use window::SlidingWindowMinimizer;
