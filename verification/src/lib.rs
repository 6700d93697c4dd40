//! A distributed data-processing substrate for web-crawl archives: a dynamic
//! row model with schema-directed downcasting, a lazy operator pipeline that
//! is executed by interchangeable worker pools, and a resumable segment
//! fetcher feeding gzip-compressed archive listings into the pipeline.

pub mod commoncrawl;
pub mod downcast;
pub mod fetch;
pub mod lines;
pub mod pipeline;
pub mod pool;
pub mod schema;
pub mod value;
