//! Normalization of compiler output for comparison with saved output.
//!
//! [`diagnostics`] turns the raw output of a build into its
//! [`Variations`]: one normalized text for each [`Normalization`] level.
//! Saved output matches if it equals any of them.
pub mod context;
pub mod filter;
pub mod level;
pub mod lines;
pub mod normalize;
pub mod replace;
pub mod text;

pub use context::Context;
pub use filter::filter;
pub use level::Normalization;
pub use normalize::{apply, diagnostics, trim, trim_text, Variations};
pub use replace::replace_case_insensitive;
