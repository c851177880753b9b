//! An incremental, demand-driven evaluation engine.
//!
//! Queries are answered from a cache where red/green validation shows them up
//! to date, and by their producers where it does not. Large outputs live in a
//! content-addressed object store; a dependency graph records which queries
//! each query read; cache, graph and objects are kept between runs.
//!
//! - `to_hash`, `value`, `output`: canonical encodings and their digests.
//! - `object`, `table`, `cache`, `db`, `graph`: the stores that the evaluator works on.
//! - `machine`, `shape`, `laws`: the evaluator as a mathematical machine, and
//!   what holds of every state that it reaches.
//! - `context`: the evaluator itself, one step at a time.
//! - `producers`, `host`: what producers and script primitives compute.
//! - `persist`, `naming`: what is kept between runs, and where.
//! - `text`: how keys and values are written out.

pub mod cache;
pub mod color;
pub mod context;
pub mod db;
pub mod error;
pub mod graph;
pub mod host;
pub mod key;
pub mod laws;
pub mod machine;
pub mod naming;
pub mod object;
pub mod options;
pub mod output;
pub mod outside;
pub mod persist;
pub mod producers;
pub mod shape;
pub mod table;
pub mod text;
pub mod to_hash;
pub mod value;
