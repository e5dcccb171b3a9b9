//! A deterministic time-oracle core: it aggregates externally supplied
//! timestamps into a single trusted value by greedy clustering and a quorum
//! rule, scores the agreement quality on a bounded fixed-point scale, and
//! renders a verification digest over a canonical encoding of the result.
//!
//! The core is pure: every input arrives as explicit data, and the host that
//! carries payloads in and out is an external collaborator.

pub mod confidence;
pub mod consensus;
pub mod fallback;
pub mod laws;
pub mod request;
pub mod response;
pub mod text;
pub mod verification;
