//! Replaces member-access chains rooted at the reserved `CLASSMAP` identifier
//! with the string values found for them in a nested substitution table.
pub mod classmap;
pub mod transform;

pub use classmap::{ClassMap, Config};
pub use transform::{Expr, MemberProp, Transform, ROOT_NAME};
