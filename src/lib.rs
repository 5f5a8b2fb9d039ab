//! Dynamic data masking: the annotation grammar, the policy resolver, the
//! column rule compiler, the statement rewriter and range-bounded sampling.
pub mod error;
pub mod labels;
pub mod masking;
pub mod policy;
pub mod random;
pub mod rewrite;
