use vstd::prelude::*;

verus! {

/// The errors of the engine.
#[derive(Debug)]
pub enum MyError {
    /// A text could not be converted into a value of the engine.
    Conversion(String),
    /// The ledger store refused an operation that it was owed.
    Db,
    /// The input could not be read.
    FileReader,
    /// Any other failure, with a fixed message.
    Generic(&'static str),
    /// Any other failure, with a composed message.
    GenericFmt(String),
}

} // verus!
