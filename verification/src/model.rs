use vstd::prelude::*;

verus! {

/// Upper bound on the length of a stored alias.
pub const MAX_ALIAS_LEN: usize = 8;

/// One stored association between a short alias and the long URL it stands
/// for. A mapping is created exactly once and never updated or deleted.
#[derive(Debug)]
pub struct Mapping {
    /// Short alphanumeric identifier, the primary key of the store.
    pub alias: String,
    /// The original URL. It is stored as given, with no well-formedness
    /// requirement; resolution tolerates entries without a scheme.
    pub long_url: String,
}

/// Errors surfaced by the alias manager to its callers. Every storage-level
/// failure is classified into exactly one of these; no storage error type
/// crosses this boundary.
#[derive(Clone, Copy, Debug, PartialEq, Eq, Structural)]
pub enum UrlError {
    /// The request itself was malformed (an empty long URL).
    InvalidInput,
    /// No usable alias could be inserted within the retry budget.
    AliasAlreadyExists,
    /// The storage layer failed; an internal fault, not a conflict.
    OtherError,
}

/// Outcome of the store's atomic insert-if-absent primitive.
#[derive(Clone, Copy, Debug, PartialEq, Eq, Structural)]
pub enum InsertOutcome {
    /// The alias was absent and the mapping is now stored.
    Inserted,
    /// A mapping under this alias already exists; nothing was changed.
    AlreadyExists,
    /// The storage layer failed; nothing is known to have changed.
    StorageError,
}

/// An ASCII alphanumeric character.
pub open spec fn is_alnum_char(c: char) -> bool {
    ('0' <= c && c <= '9') || ('a' <= c && c <= 'z') || ('A' <= c && c <= 'Z')
}

/// A well-formed alias: non-empty, of bounded length, drawn from the
/// alphanumeric alphabet.
pub open spec fn valid_alias(s: Seq<char>) -> bool {
    &&& 1 <= s.len() <= MAX_ALIAS_LEN
    &&& forall|i: int| 0 <= i < s.len() ==> is_alnum_char(#[trigger] s[i])
}

impl Mapping {
    /// A well-formed mapping carries a valid alias.
    pub open spec fn wf(self) -> bool {
        valid_alias(self.alias@)
    }
}

} // verus!
