use vstd::prelude::*;

verus! {

/// Every failure the bridge can report, kept typed until the host boundary.
#[derive(Debug, PartialEq, Eq)]
pub enum BridgeError {
    /// The flat buffer's length is not `num_polytopes * num_vertices * dim`.
    InputShapeMismatch { num_polytopes: usize, num_vertices: usize, dim: usize, len: usize },
    /// A decomposition has more labels than a 32-bit count can hold.
    CountOverflow { len: usize },
    /// The label at `index` does not fit in eight bits.
    LabelOverflow { index: usize, value: usize },
    /// The host reported a failure while running the callback.
    CallbackInvocationFailed,
    /// The enumeration engine failed; its report rendered as text.
    EngineFailure { message: String },
}

impl BridgeError {
    /// An equal, independently owned error.
    pub fn duplicate(&self) -> (r: BridgeError)
        ensures
            r == *self,
    {
        match self {
            BridgeError::InputShapeMismatch { num_polytopes, num_vertices, dim, len } =>
                BridgeError::InputShapeMismatch {
                    num_polytopes: *num_polytopes,
                    num_vertices: *num_vertices,
                    dim: *dim,
                    len: *len,
                },
            BridgeError::CountOverflow { len } => BridgeError::CountOverflow { len: *len },
            BridgeError::LabelOverflow { index, value } =>
                BridgeError::LabelOverflow { index: *index, value: *value },
            BridgeError::CallbackInvocationFailed => BridgeError::CallbackInvocationFailed,
            BridgeError::EngineFailure { message } => BridgeError::EngineFailure { message: message.clone() },
        }
    }
}

} // verus!
