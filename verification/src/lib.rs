//! Planning of multi-stage analytical queries.
//!
//! A query over a semantic data model may use members that cannot be computed in one pass:
//! measures over measures, ranks, rolling windows, running totals, dimensions derived from
//! measures. For each of them the planner lays out a chain of common table expressions. This
//! crate decides which expressions there are, what each of them computes, under which filters and
//! dimensions, and which others it reads.

pub mod content_laws;
pub mod cte;
pub mod directive;
pub mod error;
pub mod failures;
pub mod filter;
pub mod filter_edit;
pub mod filter_laws;
pub mod granularity;
pub mod laws;
pub mod plan;
pub mod planner;
pub mod query_properties;
pub mod soundness;
pub mod stage;
pub mod stage_laws;
pub mod state_laws;
pub mod static_filter;
pub mod switch;
pub mod symbol;
pub mod symbol_laws;
pub mod text;
pub mod window;
