//! Helper types shared by several packet bodies.
pub mod topic;
