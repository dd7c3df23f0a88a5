//! A bounded arena for the words built while lowering one word: the word
//! itself and the quotations lifted out of it.
use vstd::prelude::*;

use crate::error::TcError;
use crate::types::Span;

verus! {

/// Most quotations lifted out of one word.
pub const QUOTE_WORD_CAP: usize = 16;

/// Words one arena holds: the word being built and its lifted quotations.
pub const WORD_ARENA_CAP: usize = 17;

/// Holds up to `WORD_ARENA_CAP` words, in the order they were stored.
pub struct ArenaAllocator<W> {
    words: Vec<W>,
}

impl<W> View for ArenaAllocator<W> {
    type V = Seq<W>;

    closed spec fn view(&self) -> Seq<W> {
        self.words@
    }
}

impl<W> ArenaAllocator<W> {
    /// An empty arena.
    pub fn new() -> (a: Self)
        ensures
            a@ == Seq::<W>::empty(),
    {
        ArenaAllocator { words: Vec::new() }
    }

    /// Stores `word` and hands it back; a full arena refuses it with
    /// `ArenaFull` at `span` and is left as it was.
    pub fn alloc_word(&mut self, word: W, span: Span) -> (r: Result<&W, TcError>)
        ensures
            old(self)@.len() >= WORD_ARENA_CAP ==> r == Err::<&W, TcError>(TcError::ArenaFull { span })
                && final(self)@ == old(self)@,
            old(self)@.len() < WORD_ARENA_CAP ==> final(self)@ == old(self)@.push(word) && (r matches Ok(w)
                && *w == word),
    {
        if self.words.len() >= WORD_ARENA_CAP {
            return Err(TcError::ArenaFull { span });
        }
        self.words.push(word);
        let n = self.words.len();
        Ok(&self.words[n - 1])
    }

    /// Drops every stored word, so that the arena can be used again.
    pub fn reset(&mut self)
        ensures
            final(self)@ == Seq::<W>::empty(),
    {
        self.words.clear();
    }

    /// How many words are stored.
    pub fn len(&self) -> (n: usize)
        ensures
            n == self@.len(),
    {
        self.words.len()
    }
}

impl<W> Default for ArenaAllocator<W> {
    fn default() -> (a: Self)
        ensures
            a@ == Seq::<W>::empty(),
    {
        Self::new()
    }
}

} // verus!
