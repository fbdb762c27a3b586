//! The engine's error values.
use vstd::prelude::*;

verus! {

/// Why an engine call was refused. Bad input is loud, never silently patched.
#[derive(Debug)]
pub enum EngineError {
    /// A value outside what the call accepts; the text says which.
    InvalidValue(String),
    /// A bounded pool or budget is full.
    ResourceLimit(String),
    /// Mesh topology that cannot be built.
    InvalidMesh(String),
    /// A texture handle this world never issued.
    UnknownTexture,
    /// A material handle this world never issued.
    UnknownMaterial,
    /// An entity handle this world never issued, or one it has despawned.
    UnknownEntity,
}

/// `e` is `InvalidValue` carrying exactly the message `msg`.
pub open spec fn is_invalid_value(e: EngineError, msg: Seq<char>) -> bool {
    e matches EngineError::InvalidValue(m) && m@ == msg
}

/// `e` is `ResourceLimit` carrying exactly the message `msg`.
pub open spec fn is_resource_limit(e: EngineError, msg: Seq<char>) -> bool {
    e matches EngineError::ResourceLimit(m) && m@ == msg
}

/// An `InvalidValue` error with the given message.
pub fn invalid_value(msg: &str) -> (e: EngineError)
    ensures
        is_invalid_value(e, msg@),
{
    EngineError::InvalidValue(String::from_str(msg))
}

/// A `ResourceLimit` error with the given message.
pub fn resource_limit(msg: &str) -> (e: EngineError)
    ensures
        is_resource_limit(e, msg@),
{
    EngineError::ResourceLimit(String::from_str(msg))
}

} // verus!
