//! The projects of the workspace.

pub use crate::pnpm::Loader;
pub use crate::pnpm::Pnpm;
pub use crate::pnpm::Project;
