//! A character cursor whose reads report running out of text as an error.
use vstd::prelude::*;
use crate::needle::{CursorOp, CursorView, Needle, step};

verus! {

/// An error while reading characters: where, how sure, and what went wrong.
#[derive(Clone, Copy, Debug)]
pub struct TokenError {
    pub msg: &'static str,
    pub loc: usize,
    pub priority: u8,
}

impl TokenError {
    pub fn new(loc: usize, priority: u8, msg: &'static str) -> (r: TokenError)
        ensures
            r.loc == loc,
            r.priority == priority,
            r.msg == msg,
    {
        TokenError { loc: loc, msg: msg, priority: priority }
    }

    /// An error at the cursor's index.
    pub fn at_needle(needle: &StringNeedle, priority: u8, msg: &'static str) -> (r: TokenError)
        ensures
            r.loc == needle@.index,
            r.priority == priority,
            r.msg == msg,
    {
        TokenError { loc: needle.get_index(), msg: msg, priority: priority }
    }

    /// Keeps a success; gives an error the new priority and message, keeping its location.
    pub fn if_err_mod<T>(result: Result<T, TokenError>, priority: u8, msg: &'static str) -> (r: Result<T, TokenError>)
        ensures
            match result {
                Ok(v) => r == Ok::<T, TokenError>(v),
                Err(e) => r matches Err(n) && n.loc == e.loc && n.priority == priority && n.msg == msg,
            },
    {
        match result {
            Ok(v) => Ok(v),
            Err(token_error) => Err(TokenError::new(token_error.loc, priority, msg)),
        }
    }
}

/// A checkpointable cursor over the characters of a text.
pub struct StringNeedle {
    needle: Needle<char>,
}

impl View for StringNeedle {
    type V = CursorView<char>;

    closed spec fn view(&self) -> CursorView<char> {
        self.needle@
    }
}

impl StringNeedle {
    pub open spec fn wf(&self) -> bool {
        self@.wf()
    }

    pub fn new(reading: &str, index: usize) -> (r: StringNeedle)
        requires
            index <= reading@.len(),
        ensures
            r@.items == reading@,
            r@.index == index,
            r@.stack == Seq::<int>::empty(),
            r.wf(),
    {
        StringNeedle { needle: Needle::from_str(reading, index) }
    }

    pub fn push_state(&mut self)
        requires
            old(self).wf(),
        ensures
            final(self)@ == step(old(self)@, CursorOp::Checkpoint),
            final(self).wf(),
    {
        self.needle.push_state();
    }

    /// Drops the top checkpoint and returns to it.
    pub fn pop_state(&mut self)
        requires
            old(self).wf(),
            old(self)@.stack.len() > 0,
        ensures
            final(self)@ == step(old(self)@, CursorOp::Rollback),
            final(self).wf(),
    {
        self.needle.pop_state();
    }

    /// Drops the top checkpoint and stays where it is.
    pub fn pop_state_no_revert(&mut self)
        requires
            old(self).wf(),
            old(self)@.stack.len() > 0,
        ensures
            final(self)@ == step(old(self)@, CursorOp::Commit),
            final(self).wf(),
    {
        self.needle.pop_state_no_revert();
    }

    pub fn get_prev_state_index(&self) -> (r: usize)
        ensures
            r == self@.floor(),
    {
        self.needle.get_prev_state_index()
    }

    pub fn get_index(&self) -> (r: usize)
        ensures
            r == self@.index,
    {
        self.needle.get_index()
    }

    /// The characters from `start` up to `stop`.
    pub fn get_slice(&self, start: usize, stop: usize) -> (r: String)
        requires
            stop <= self@.items.len(),
        ensures
            start < stop ==> r@ == self@.items.subrange(start as int, stop as int),
            start >= stop ==> r@.len() == 0,
    {
        self.needle.get_slice(start, stop)
    }

    /// Whether the characters of `slice` follow from the index on.
    pub fn matches_slice(&self, slice: &str) -> (r: bool)
        requires
            self.wf(),
        ensures
            r == (self@.index + slice@.len() <= self@.items.len() && self@.items.subrange(
                self@.index,
                self@.index + slice@.len(),
            ) == slice@),
    {
        self.needle.matches_slice(slice)
    }

    pub fn peek(&self) -> (r: Option<char>)
        ensures
            r == self@.current(),
    {
        match self.needle.peek() {
            Some(c) => Some(*c),
            None => None,
        }
    }

    /// Tests the character `offset` places from the index; `default` where there is none.
    pub fn match_func_offset<F>(&self, offset: isize, matching: F, default: bool) -> (r: bool) where
        F: Fn(char) -> bool,
        requires
            self.wf(),
            forall|c: char| matching.requires((c,)),
        ensures
            ({
                let loc = self@.index + offset;
                if 0 <= loc < self@.items.len() {
                    matching.ensures((self@.items[loc],), r)
                } else {
                    r == default
                }
            }),
    {
        let index = self.needle.get_index();
        let n = self.needle.len();
        let loc: usize = if offset < 0 {
            let back = (-(offset as i128)) as usize;
            if back > index {
                return default;
            }
            index - back
        } else {
            let fwd = offset as usize;
            if fwd >= n - index {
                return default;
            }
            index + fwd
        };
        match self.needle.get(loc) {
            Some(c) => matching(*c),
            None => default,
        }
    }

    pub fn next(&mut self) -> (r: bool)
        requires
            old(self).wf(),
        ensures
            final(self)@ == step(old(self)@, CursorOp::Advance),
            r == (final(self)@.index < final(self)@.items.len()),
            final(self).wf(),
    {
        self.needle.next()
    }

    pub fn skip(&mut self, n_indices: usize) -> (r: bool)
        requires
            old(self).wf(),
        ensures
            final(self)@ == step(old(self)@, CursorOp::Skip(n_indices as nat)),
            r == (old(self)@.index + n_indices < old(self)@.items.len()),
            final(self).wf(),
    {
        self.needle.skip(n_indices)
    }

    /// The character under the index, moving past it; at the end, an "Unexpected end" error
    /// of priority zero there.
    pub fn read(&mut self) -> (r: Result<char, TokenError>)
        requires
            old(self).wf(),
        ensures
            final(self)@ == step(old(self)@, CursorOp::Advance),
            final(self).wf(),
            match old(self)@.current() {
                Some(c) => r == Ok::<char, TokenError>(c),
                None => r matches Err(e) && e.loc == old(self)@.index && e.priority == 0 && e.msg@ == "Unexpected end"@,
            },
    {
        let index = self.needle.get_index();
        match self.needle.read() {
            Some(c) => Ok(*c),
            None => Err(TokenError::new(index, 0, "Unexpected end")),
        }
    }
}

} // verus!
