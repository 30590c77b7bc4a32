//! The structured error kinds surfaced by every store operation.

use vstd::prelude::*;

verus! {

/// Why a store operation failed.
///
/// Every operation is atomic: whenever one of these is returned, the store is
/// left exactly as it was before the call.
#[derive(Debug, Clone, Copy, PartialEq, Eq, Structural)]
pub enum Error {
    /// A referenced project, document or template id does not exist.
    NotFound,
    /// Reserved for optimistic-locking conflicts; mutations today are
    /// last-write-wins, so no operation returns this yet.
    Conflict,
    /// The underlying store refused the write: a uniqueness or referential
    /// constraint would be violated, or a counter cannot be represented.
    StorageFault,
    /// A structured payload handed across the boundary could not be decoded.
    SerializationFault,
}

impl Error {
    /// A human-readable rendering of the error kind.
    pub fn message(&self) -> (r: String)
        ensures
            r@ == self.spec_message(),
    {
        match self {
            Error::NotFound => "not found".to_owned(),
            Error::Conflict => "conflict".to_owned(),
            Error::StorageFault => "storage fault".to_owned(),
            Error::SerializationFault => "serialization fault".to_owned(),
        }
    }

    /// What `message` returns for each kind.
    pub open spec fn spec_message(self) -> Seq<char> {
        match self {
            Error::NotFound => "not found"@,
            Error::Conflict => "conflict"@,
            Error::StorageFault => "storage fault"@,
            Error::SerializationFault => "serialization fault"@,
        }
    }
}

} // verus!
