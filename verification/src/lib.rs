//! Core of a small multi-purpose HTTP server: a route table built once from
//! declarative `path:value` bindings, and a dispatcher that turns an incoming
//! request path and method into a response action.
//!
//! The table is an ordered, deduplicated sequence of routes; lookups are
//! binary searches with the same comparator that ordered the table.

pub mod dispatch;
pub mod parse;
pub mod route;
pub mod table;
pub mod text;
