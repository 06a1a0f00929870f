//! Universal international address formatter.
//!
//! The crate turns a structured postal address (a [`Place`]) into a
//! human-readable text, following per-country formatting rules supplied by
//! the caller at construction time. The [`Formatter`] resolves the effective
//! country of a place, cleans malformed fields, selects and fills the
//! country's template, and runs the rendered text through a fixed cleanup
//! and deduplication cascade. The [`PlaceBuilder`] assembles a [`Place`]
//! from loosely keyed input data.

mod builder;
mod country;
mod error;
mod formatter;
mod laws;
mod place;
mod postprocess;
mod render;
mod rules;
mod rx;
mod textutil;

pub use builder::PlaceBuilder;
pub use country::CountryCode;
pub use error::Error;
pub use formatter::Configuration;
pub use formatter::CountryEntry;
pub use formatter::Formatter;
pub use place::Component;
pub use place::Place;
pub use place::NUM_COMPONENTS;
pub use postprocess::cleanup_text;
pub use render::first_non_empty;
pub use render::FirstNonNullHelper;
pub use rules::NewComponent;
pub use rules::Replacement;
pub use rules::ReplaceRule;
pub use rules::Rules;
pub use rules::Template;
