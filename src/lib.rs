//! Semantic versions: parsing, precedence, and matching against ranges.
//!
//! - `version`: the `major.minor.patch[-pre][+build]` grammar. A leading `v` is
//!   not part of it: `v1.0.0` is rejected.
//! - `order`: precedence, a total order in which build metadata takes no part.
//! - `range`: ranges such as `>=1.2.0 <2.0.0 || ^3.1`. A version with a
//!   pre-release satisfies a comparator set only if some comparator of that set
//!   names the same `major.minor.patch` and carries a pre-release itself.
//! - `api`: the three operations on raw texts: `is_match`, `cmp` and `valid`.
pub mod text;
pub mod version;
pub mod order;
pub mod range;
pub mod api;
