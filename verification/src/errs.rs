//! Error taxonomy of the bridge.

use vstd::prelude::*;

verus! {

/// What went wrong at the host/compiler boundary.
///
/// `Input` covers malformed host values and unparseable public inputs;
/// `Resolution` covers a missing path, a callback that threw, or a
/// non-string callback result; `Compile` carries the collapsed
/// single-error message of a failed compile; `Serialization` covers a
/// boundary conversion failure.
#[derive(Debug)]
pub enum BridgeError {
    Input(String),
    Resolution(String),
    Compile(String),
    Serialization(String),
}

impl BridgeError {
    /// The human-readable message carried by the error.
    pub open spec fn message_spec(&self) -> Seq<char> {
        match self {
            BridgeError::Input(m) => m@,
            BridgeError::Resolution(m) => m@,
            BridgeError::Compile(m) => m@,
            BridgeError::Serialization(m) => m@,
        }
    }

    pub fn message(&self) -> (r: &String)
        ensures
            r@ == self.message_spec(),
    {
        match self {
            BridgeError::Input(m) => m,
            BridgeError::Resolution(m) => m,
            BridgeError::Compile(m) => m,
            BridgeError::Serialization(m) => m,
        }
    }

    /// True of the resolution-class errors.
    pub open spec fn is_resolution_spec(&self) -> bool {
        self is Resolution
    }

    #[verifier::when_used_as_spec(is_resolution_spec)]
    pub fn is_resolution(&self) -> (r: bool)
        ensures
            r == self.is_resolution_spec(),
    {
        match self {
            BridgeError::Resolution(_) => true,
            _ => false,
        }
    }
}

} // verus!
