use vstd::prelude::*;

verus! {

/// The ways a raw pattern string can fail to parse into a route spec.
///
/// Registration is the only fallible operation: once a pattern has parsed,
/// matching it against any path is total and never fails.
#[derive(Clone, Copy, Debug, PartialEq, Eq, Structural)]
pub enum ParseError {
    /// A component was the parameter sigil alone (`:`), leaving the
    /// parameter without a name.
    EmptyParamName,
    /// A component was the wildcard sigil followed by further text
    /// (for example `*tail`); wildcards are positional only and never named.
    NamedWildcard,
    /// A wildcard component appeared anywhere but as the final segment;
    /// a pattern captures at most a single trailing remainder.
    WildcardNotLast,
}

} // verus!
