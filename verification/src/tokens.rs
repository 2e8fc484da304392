use vstd::prelude::*;

verus! {

/// The eight commands of the language, one per recognized source character.
#[allow(non_camel_case_types)]
#[derive(PartialEq, Eq, Clone, Copy, Debug, Structural)]
pub enum Instruction {
    POINTER_RIGHT,
    POINTER_LEFT,
    DATA_INCREMENT,
    DATA_DECREMENT,
    DATA_OUTPUT,
    DATA_INPUT,
    CONDITIONAL_BEGIN,
    CONDITIONAL_END,
}

/// Everything that can go wrong while checking or running a program.
/// `UNMATCHED_CONDITIONAL` carries the position it is reported at; the other
/// runtime errors are reported together with a 1-based instruction index by
/// the run functions.
#[allow(non_camel_case_types)]
#[derive(PartialEq, Eq, Clone, Copy, Debug, Structural)]
pub enum Error {
    NO_COMMANDS,
    UNMATCHED_CONDITIONAL(usize),
    INPUT_OVERFLOW,
    CELL_BOUNDS_VIOLATED_LEFT,
    CELL_BOUNDS_VIOLATED_RIGHT,
    CELL_DATA_OVERFLOW,
    CELL_DATA_UNDERFLOW,
}

/// The human-readable text of each error, without any instruction index.
pub open spec fn message_spec(e: Error) -> Seq<char> {
    match e {
        Error::NO_COMMANDS => "No commands found in the source file"@,
        Error::UNMATCHED_CONDITIONAL(_) => "Unmatched loop at command #"@,
        Error::INPUT_OVERFLOW => "Data input was greater than the cell capacity (expected < 256)"@,
        Error::CELL_BOUNDS_VIOLATED_LEFT => "The cell pointer was moved to the left of cell #1"@,
        Error::CELL_BOUNDS_VIOLATED_RIGHT => "The cell pointer was moved to the right of cell #30000"@,
        Error::CELL_DATA_OVERFLOW => "The cell data was incremented past the cell capacity (expected < 256 bytes)"@,
        Error::CELL_DATA_UNDERFLOW => "The cell data was decremented past the cell capacity (expected >= 0 bytes)"@,
    }
}

impl Error {
    /// Human-readable text of the error; for `UNMATCHED_CONDITIONAL` the
    /// caller appends the position the variant carries.
    pub fn message(&self) -> (r: &'static str)
        ensures
            r@ == message_spec(*self),
    {
        match self {
            Error::NO_COMMANDS => "No commands found in the source file",
            Error::UNMATCHED_CONDITIONAL(_) => "Unmatched loop at command #",
            Error::INPUT_OVERFLOW => "Data input was greater than the cell capacity (expected < 256)",
            Error::CELL_BOUNDS_VIOLATED_LEFT => "The cell pointer was moved to the left of cell #1",
            Error::CELL_BOUNDS_VIOLATED_RIGHT => "The cell pointer was moved to the right of cell #30000",
            Error::CELL_DATA_OVERFLOW => "The cell data was incremented past the cell capacity (expected < 256 bytes)",
            Error::CELL_DATA_UNDERFLOW => "The cell data was decremented past the cell capacity (expected >= 0 bytes)",
        }
    }
}

} // verus!
