//! A small relational database engine: pages, log records, the buffer pool,
//! the query language and the relational operators that run over records.

pub mod buffer;
pub mod bytes;
pub mod client;
pub mod display;
pub mod driver;
pub mod errors;
pub mod file;
pub mod log;
pub mod materialization;
pub mod metadata;
pub mod page;
pub mod parser;
pub mod plan;
pub mod record;
pub mod scan;
pub mod seqs;
