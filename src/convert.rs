use vstd::prelude::*;

verus! {

/// The formats that a file can be converted to.
#[derive(Debug, Clone, Copy, PartialEq, Eq, Structural)]
pub enum OutputFormat {
    Png,
}

/// A file to convert, and the format to convert it to.
#[derive(Debug)]
pub struct ConvertArgs {
    pub input: String,
    pub to: OutputFormat,
}

} // verus!
