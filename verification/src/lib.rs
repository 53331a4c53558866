//! A client-side engine for GraphQL incremental delivery: it frames a chunked
//! response, decodes each frame, and folds the patches into one result.

pub mod json;
pub mod path;
pub mod merge;
pub mod apply;
pub mod result;
pub mod decode;
pub mod scan;
pub mod parse;
pub mod framer;
pub mod accumulator;
pub mod consumer;
pub mod laws;
