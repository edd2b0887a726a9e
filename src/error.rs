use vstd::prelude::*;
use crate::value::ValueType;

verus! {

/// A diagnostic at a place in an embedded source text.
#[derive(Debug, Clone)]
pub struct LocatedError {
    pub message: String,
    pub line: u32,
    pub column: u32,
}

/// The diagnostics of an embedded script or shader.
#[derive(Debug, Clone)]
pub struct ScriptError {
    pub errors: Vec<LocatedError>,
}

impl ScriptError {
    /// One diagnostic at line 0, column 0.
    pub fn new(message: String) -> (r: ScriptError)
        ensures
            r.errors@.len() == 1,
            r.errors@[0].message@ == message@,
            r.errors@[0].line == 0,
            r.errors@[0].column == 0,
    {
        let mut errors: Vec<LocatedError> = Vec::new();
        errors.push(LocatedError { message, line: 0, column: 0 });
        ScriptError { errors }
    }
}

/// Failure to read a slot value as a given type.
#[derive(Debug, Clone)]
pub enum ValueError {
    /// The slot index does not exist.
    Index(usize),
    /// The slot holds a value of another type.
    TypeMismatch { wanted: ValueType, found: ValueType },
}

/// The errors of the engine.
#[derive(Debug, Clone)]
pub enum Error {
    UnknownOperationType(String),
    /// Two slots share a name: the name, then the list ("inputs", "outputs",
    /// "config").
    DuplicateSlotName(String, String),
    DuplicateOperationType(String, String),
    NodeNotFound(usize),
    NoPort(usize),
    NoOutputSlot(usize),
    NoInputSlot(usize),
    IncompatibleTypes { from_slot: usize, to_slot: usize },
    CreatesLoop,
    EdgeNotFound { from_slot: usize, to_slot: usize },
    NotInputNode,
    InvalidEdge { from: usize, to: usize },
    Serialization(String),
    Deserialization(String),
    Value(ValueError),
    InputHasConnection,
    /// The graph's index space is exhausted.
    CapacityExceeded,
    Script(ScriptError),
}

impl Error {
    /// The structured script diagnostics, if this is a script error.
    pub fn as_script_error(&self) -> (r: Option<&ScriptError>)
        ensures
            self matches Error::Script(e) ==> r == Some(e),
            !(self is Script) ==> r is None,
    {
        match self {
            Error::Script(e) => Some(e),
            _ => None,
        }
    }
}

} // verus!
