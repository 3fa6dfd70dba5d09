use vstd::prelude::*;

verus! {

/// Options of the command that synthesises a pipeline.
pub struct Command {
    /// Step descriptor files, in pipeline order.
    pub steps: Vec<String>,
    /// Where the document is written; standard output when absent.
    pub output: Option<String>,
    /// Link and pick options without asking where the choice is determined.
    pub automatic: bool,
}

} // verus!
