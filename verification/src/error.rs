use vstd::prelude::*;

verus! {

/// Everything that can go wrong when building a `Formatter` from a rule
/// corpus, or when formatting one address.
///
/// Only `RenderFailed` is reachable from `format`: all other variants are
/// load-time failures, surfaced while the rule store is built.
#[derive(Clone, Copy, Debug, PartialEq, Eq, Structural)]
pub enum Error {
    /// A country code in the corpus (or a `use_country` reference) is not a
    /// valid two-letter code.
    InvalidCountryCode,
    /// A template string of the corpus does not parse.
    InvalidTemplate,
    /// A replace pattern of the corpus does not compile.
    InvalidRegex,
    /// A malformed replace entry (a component-scoped pattern whose component
    /// name is unknown).
    InvalidReplaceRule,
    /// A post-render replace rule was scoped to a single component; those
    /// rules apply to the whole text only.
    ScopedPostformatRule,
    /// An `add_component` directive is malformed or targets a component other
    /// than `State`, the only injection accepted.
    InvalidAddComponent,
    /// A `use_country` reference points at a country that has no resolved
    /// template of its own: an unknown country, or a chain of references
    /// deeper than one hop.
    UnresolvedParentCountry,
    /// Two corpus entries name the same country.
    DuplicateCountry,
    /// The template-substitution engine failed on the selected template.
    RenderFailed,
}

} // verus!
