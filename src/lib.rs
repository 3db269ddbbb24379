//! Node-local observability collector: record schema, enrichment, session
//! correlation and the decision logic of the ingestion adapters.

pub mod text;
pub mod record;
pub mod json;
pub mod enrich;
pub mod clock;
pub mod container;
pub mod aggregator;
pub mod sniffer;
pub mod remote;
pub mod exporter;
pub mod control;
pub mod system;
