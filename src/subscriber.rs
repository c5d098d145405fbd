//! The choice of tracing subscriber and of its filter directive.
use vstd::prelude::*;

verus! {

/// Which tracing subscriber to install.
pub enum SubKind {
    /// The formatted tracing subscriber, with this filter directive when
    /// none is configured.
    Tracing(String),
    /// The tokio-console subscriber, which takes no filter directive.
    Console,
}

/// The filter directive the subscriber of `kind` starts with, given the
/// directive configured for the process, if any: the configured one wins
/// over the default; the console subscriber takes none.
pub open spec fn directive_of(kind: SubKind, configured: Option<String>) -> Option<Seq<char>> {
    match kind {
        SubKind::Tracing(default) => match configured {
            Some(c) => Some(c@),
            None => Some(default@),
        },
        SubKind::Console => None,
    }
}

/// Computes [`directive_of`] on strings.
pub fn filter_directive(kind: &SubKind, configured: Option<String>) -> (r: Option<String>)
    ensures
        r matches Some(d) ==> directive_of(*kind, configured) == Some(d@),
        r is None <==> directive_of(*kind, configured) is None,
{
    match kind {
        SubKind::Tracing(default) => match configured {
            Some(c) => Some(c),
            None => Some(default.clone()),
        },
        SubKind::Console => None,
    }
}

} // verus!
