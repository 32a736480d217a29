//! A single-pass URL decomposition engine: a hand-written finite-state byte
//! scanner that splits a raw URL string into scheme, host labels, port, path
//! segments, query pairs and fragment, with no error channel (malformed input
//! yields a best-effort, partially populated record).

pub mod laws;
pub mod model;
pub mod url;
