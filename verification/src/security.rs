//! Who may see an object: security policies on objects and rules that share them.

pub mod ols;
pub mod sharing;
