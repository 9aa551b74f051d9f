//! Error taxonomy: every failure carries a message and a stable category.

use vstd::prelude::*;

verus! {

/// A failure of a registry operation, of persistence, or of one exchange.
#[derive(Debug)]
pub enum PoofError {
    /// A named alias, key or ticket does not exist.
    NotFound { message: String },
    /// A duplicate alias, identity or key name; nothing was mutated.
    Conflict { message: String },
    /// Connection or stream failure, surfaced by the transport layer.
    Transport { message: String },
    /// A malformed query or response; fatal to the current exchange only.
    Protocol { message: String },
    /// An unreadable or corrupt persisted document; fatal to the command.
    Persistence { message: String },
}

impl PoofError {
    pub open spec fn spec_message(&self) -> Seq<char> {
        match self {
            PoofError::NotFound { message } => message@,
            PoofError::Conflict { message } => message@,
            PoofError::Transport { message } => message@,
            PoofError::Protocol { message } => message@,
            PoofError::Persistence { message } => message@,
        }
    }

    /// The contextual message carried by the error.
    pub fn message(&self) -> (r: &String)
        ensures
            r@ == self.spec_message(),
    {
        match self {
            PoofError::NotFound { message } => message,
            PoofError::Conflict { message } => message,
            PoofError::Transport { message } => message,
            PoofError::Protocol { message } => message,
            PoofError::Persistence { message } => message,
        }
    }

    /// The stable category name, for tooling.
    pub fn category(&self) -> (r: &'static str)
        ensures
            self is NotFound ==> r@ == "not found"@,
            self is Conflict ==> r@ == "conflict"@,
            self is Transport ==> r@ == "transport"@,
            self is Protocol ==> r@ == "protocol"@,
            self is Persistence ==> r@ == "persistence"@,
    {
        match self {
            PoofError::NotFound { .. } => "not found",
            PoofError::Conflict { .. } => "conflict",
            PoofError::Transport { .. } => "transport",
            PoofError::Protocol { .. } => "protocol",
            PoofError::Persistence { .. } => "persistence",
        }
    }
}

} // verus!
