use vstd::prelude::*;

verus! {

/// Why an operation produced no matrix.
#[derive(Debug, Clone, Copy, PartialEq, Eq, Structural)]
pub enum MatrixError {
    /// The rows handed to a constructor were empty or of unequal length.
    ShapeError,
    /// The shapes of the two operands do not fit the operation.
    DimensionMismatch,
    /// The right operand of a transposed multiplication carries no transposed copy.
    PreconditionError,
    /// A worker could not be started or did not finish its part.
    WorkerFailure,
}

impl MatrixError {
    /// The text that `message` hands out.
    pub open spec fn spec_message(self) -> Seq<char> {
        match self {
            MatrixError::ShapeError => "rows are empty or of unequal length"@,
            MatrixError::DimensionMismatch => "shapes do not fit the operation"@,
            MatrixError::PreconditionError => "right operand not transposed"@,
            MatrixError::WorkerFailure => "a worker did not finish its part"@,
        }
    }

    /// A short description of the error, for a reader.
    pub fn message(self) -> (s: &'static str)
        ensures
            s@ == self.spec_message(),
    {
        match self {
            MatrixError::ShapeError => "rows are empty or of unequal length",
            MatrixError::DimensionMismatch => "shapes do not fit the operation",
            MatrixError::PreconditionError => "right operand not transposed",
            MatrixError::WorkerFailure => "a worker did not finish its part",
        }
    }
}

} // verus!
