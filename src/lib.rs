//! A single-file record store: a fixed-width row codec, a page cache over a
//! backing byte image, row addressing by position, and the statement parser
//! that feeds it.
pub mod constants;
pub mod codec;
pub mod pager;
pub mod tokenizer;
pub mod execute;
pub mod laws;
