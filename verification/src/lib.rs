//! Execution core of a bytecode interpreter: frames, lexical scope chains,
//! block stacks for loops / exception handlers / cleanup, and the dispatch
//! engine that drives a frame until it returns, suspends at a yield point,
//! or raises an unhandled error.

pub mod value;
pub mod scope;
pub mod units;
pub mod frame;
pub mod model;
pub mod interp;
pub mod reflect;
pub mod laws;
