use vstd::prelude::*;

verus! {

/// A position in a source file: the file by its number in the compilation,
/// then line and column.
#[derive(Clone, Copy, Debug, PartialEq, Eq, Structural)]
pub struct Srcloc {
    pub file: usize,
    pub line: usize,
    pub col: usize,
}

impl Srcloc {
    /// The position `line`:`col` of file `file`.
    pub fn new(file: usize, line: usize, col: usize) -> (loc: Srcloc)
        ensures
            loc == (Srcloc { file, line, col }),
    {
        Srcloc { file, line, col }
    }

    /// The first position of the first file.
    pub fn start() -> (loc: Srcloc)
        ensures
            loc == (Srcloc { file: 0, line: 1, col: 1 }),
    {
        Srcloc { file: 0, line: 1, col: 1 }
    }
}

} // verus!
