use vstd::prelude::*;

verus! {

/// A linked program: the words loaded into memory from address 0.
#[derive(Debug)]
pub struct BobinaryFile {
    pub words: Vec<u16>,
}

impl BobinaryFile {
    /// The number of words in the image.
    pub fn word_count(&self) -> (n: usize)
        ensures
            n == self.words@.len(),
    {
        self.words.len()
    }
}

} // verus!
