//! A word-search query: the grid to search, the word to look for, and the
//! oracle answer an external harness expects.

use vstd::prelude::*;
use crate::grid::{Grid, SearchError};

verus! {

/// One test case for the search: a grid, a word of at least two
/// characters, and the expected answer.
#[derive(Debug)]
pub struct Wordsearch {
    grid: Grid,
    word: Vec<char>,
    expected: bool,
}

impl Wordsearch {
    /// The grid to search.
    pub closed spec fn spec_grid(&self) -> Grid {
        self.grid
    }

    /// The characters of the word.
    pub closed spec fn spec_word(&self) -> Seq<char> {
        self.word@
    }

    /// The oracle answer.
    pub closed spec fn spec_expected(&self) -> bool {
        self.expected
    }

    /// A query is well formed when its word has at least two characters.
    pub open spec fn wf(&self) -> bool {
        self.spec_word().len() >= 2
    }

    /// Option-valued constructor: `Some` exactly when the word has at
    /// least two characters.
    pub fn new(grid: Grid, word: Vec<char>, expected: bool) -> (r: Option<Wordsearch>)
        ensures
            r is Some <==> word@.len() >= 2,
            r is Some ==> r->0.wf() && r->0.spec_grid() == grid && r->0.spec_word() == word@
                && r->0.spec_expected() == expected,
    {
        if word.len() >= 2 {
            Some(Wordsearch { grid, word, expected })
        } else {
            None
        }
    }

    /// Validating constructor: rejects a word of fewer than two
    /// characters with `InvalidWordLength`.
    pub fn construct(grid: Grid, word: Vec<char>, expected: bool) -> (r: Result<
        Wordsearch,
        SearchError,
    >)
        ensures
            r is Ok <==> word@.len() >= 2,
            r is Ok ==> r->Ok_0.wf() && r->Ok_0.spec_grid() == grid && r->Ok_0.spec_word()
                == word@ && r->Ok_0.spec_expected() == expected,
            r is Err ==> r->Err_0 == SearchError::InvalidWordLength,
    {
        match Wordsearch::new(grid, word, expected) {
            Some(q) => Ok(q),
            None => Err(SearchError::InvalidWordLength),
        }
    }

    /// The grid to search.
    pub fn grid(&self) -> (g: &Grid)
        ensures
            *g == self.spec_grid(),
    {
        &self.grid
    }

    /// The word to look for.
    pub fn word(&self) -> (w: &Vec<char>)
        ensures
            w@ == self.spec_word(),
    {
        &self.word
    }

    /// The oracle answer the harness expects.
    pub fn expected(&self) -> (e: bool)
        ensures
            e == self.spec_expected(),
    {
        self.expected
    }
}

} // verus!
