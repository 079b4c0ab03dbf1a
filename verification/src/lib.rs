//! Verified core of the mir PHP analyzer: version gating, docblock reading
//! and validation, type narrowing, the analysis caches and the project's
//! dependency bookkeeping.

pub mod text;
pub mod php_version;
pub mod perf_fixture;
pub mod docblock;
pub mod parser;
pub mod narrowing;
pub mod parse_cache;
pub mod pass1_cache;
pub mod reference_key;
pub mod project;
pub mod reverse_deps;
pub mod type_narrowing;
pub mod type_hint;
pub mod trait_constraints;
pub mod analysis_result;
pub mod condition;
pub mod leaf_narrowing;
