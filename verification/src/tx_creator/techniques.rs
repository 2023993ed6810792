//! The techniques that the transaction creator offers: the same names, parsed
//! the same way, as the main tool's.
pub use crate::techniques::{TechniqueError, TechniqueType};
