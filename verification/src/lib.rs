//! Composition of several result-collecting strategies over one query pass.
//!
//! A search executor scans each segment of an index once and reports every
//! matching document, together with its relevance score, to a collector.
//! This crate lets several independent collecting strategies (a counter, a
//! top-k ranker, ...) share that single pass: a `MultiCollector` fans each
//! per-document match event out to every registered strategy's per-segment
//! accumulator, and fans the per-segment accumulators back in to each
//! strategy's merge step once scanning has completed.

pub mod collector;
pub mod collector_pair;
pub mod count_collector;
pub mod multi_collector;
pub mod top_collector;

pub use collector::{Collector, DocId, Error, Score, SegmentCollector, SegmentLocalId, SegmentReader};
pub use collector_pair::{CollectorPair, SegmentCollectorPair};
pub use count_collector::{CountCollector, CountSegmentCollector};
pub use multi_collector::{MultiCollector, MultiCollectorChild};
pub use top_collector::{TopCollector, TopSegmentCollector};
