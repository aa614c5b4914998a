//! A declarative web-extraction core: a recursive extraction-spec/result data
//! model, a document tree walk, pluggable serialization of result batches, a
//! fan-out delivery plan for sinks, per-tick aggregation with failure
//! isolation, and the session-verification (challenge) state machine.
pub mod scrape;
pub mod strutil;
pub mod fetchers;
pub mod serializer;
pub mod decoder;
pub mod daemon;
pub mod saver;
pub mod notifier;
pub mod session;
