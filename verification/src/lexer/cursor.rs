//! A random-access view over the input characters with one progress needle.

use vstd::prelude::*;
use vstd::string::StrSliceExecFns;

use crate::strutil::chars_to_string;

verus! {

/// Bounded lookahead and lookbehind around a progress position.
pub trait Peekable {
    type Item;

    /// The full sequence under the cursor.
    spec fn items(&self) -> Seq<Self::Item>;

    /// The progress position.
    spec fn position(&self) -> nat;

    /// Peek at the index of `position + n` without consuming it.
    fn peek_nth(&self, n: usize) -> (r: Option<Self::Item>)
        ensures
            self.position() + n < self.items().len() ==> r == Some(
                self.items()[self.position() + n],
            ),
            self.position() + n >= self.items().len() ==> r is None,
    ;

    /// Peek at the index of `position - n` without consuming it; out of
    /// bounds on either side yields nothing.
    fn peek_prev_nth(&self, n: usize) -> (r: Option<Self::Item>)
        ensures
            n <= self.position() && self.position() - n < self.items().len() ==> r == Some(
                self.items()[self.position() - n],
            ),
            n > self.position() || self.position() - n >= self.items().len() ==> r is None,
    ;

    /// Peek at the next value without consuming it.
    fn peek(&self) -> (r: Option<Self::Item>)
        ensures
            self.position() < self.items().len() ==> r == Some(self.items()[self.position() as int]),
            self.position() >= self.items().len() ==> r is None,
    ;

    /// Peek at the previous value without consuming it.
    fn peek_prev(&self) -> (r: Option<Self::Item>)
        ensures
            1 <= self.position() && self.position() - 1 < self.items().len() ==> r == Some(
                self.items()[self.position() - 1],
            ),
            self.position() == 0 || self.position() - 1 >= self.items().len() ==> r is None,
    ;
}

/// A cursor over the characters of one input text.
#[derive(Debug)]
pub struct Cursor {
    stack: Vec<char>,
    needle: usize,
}

impl Cursor {
    /// The characters under the cursor.
    pub closed spec fn chars(&self) -> Seq<char> {
        self.stack@
    }

    /// The needle: how many characters have been consumed.
    pub closed spec fn pos(&self) -> nat {
        self.needle as nat
    }

    /// The needle never runs past the end, and the text fits in memory.
    pub open spec fn wf(&self) -> bool {
        self.pos() <= self.chars().len() <= usize::MAX
    }

    pub fn new(source: &str) -> (c: Cursor)
        ensures
            c.chars() == source@,
            c.pos() == 0,
            c.wf(),
    {
        let n = source.unicode_len();
        let mut stack: Vec<char> = Vec::new();
        let mut i: usize = 0;
        while i < n
            invariant
                i <= n == source@.len(),
                stack@ =~= source@.subrange(0, i as int),
            decreases n - i,
        {
            stack.push(source.get_char(i));
            i = i + 1;
            proof {
                assert(stack@ =~= source@.subrange(0, i as int));
            }
        }
        proof {
            assert(source@.subrange(0, source@.len() as int) =~= source@);
        }
        Cursor { stack, needle: 0 }
    }

    /// The text in `[start, end)`, or nothing when a bound is out of range
    /// or the bounds cross.
    pub fn substring(&self, start: usize, end: usize) -> (r: Option<String>)
        ensures
            start > self.chars().len() || end > self.chars().len() || start > end ==> r is None,
            start <= end <= self.chars().len() ==> (r matches Some(s) && s@ == self.chars().subrange(
                start as int,
                end as int,
            )),
    {
        let stack_len = self.stack.len();
        if start > stack_len || end > stack_len || start > end {
            return None;
        }
        let mut slice: Vec<char> = Vec::new();
        let mut i: usize = start;
        while i < end
            invariant
                start <= i <= end <= self.chars().len(),
                slice@ =~= self.chars().subrange(start as int, i as int),
            decreases end - i,
        {
            slice.push(self.stack[i]);
            i = i + 1;
            proof {
                assert(slice@ =~= self.chars().subrange(start as int, i as int));
            }
        }
        Some(chars_to_string(&slice))
    }

    /// How many characters the cursor holds in all.
    pub fn len(&self) -> (r: usize)
        ensures
            r == self.chars().len(),
    {
        self.stack.len()
    }

    /// Whether every character has been consumed.
    pub fn is_at_end(&self) -> (r: bool)
        ensures
            r == (self.pos() >= self.chars().len()),
    {
        self.needle >= self.stack.len()
    }

    /// Consumes and returns the character at the needle.
    pub fn next(&mut self) -> (r: Option<char>)
        requires
            old(self).wf(),
        ensures
            final(self).wf(),
            final(self).chars() == old(self).chars(),
            old(self).pos() < old(self).chars().len() ==> r == Some(
                old(self).chars()[old(self).pos() as int],
            ) && final(self).pos() == old(self).pos() + 1,
            old(self).pos() >= old(self).chars().len() ==> r is None && final(self).pos() == old(
                self,
            ).pos(),
    {
        if self.needle < self.stack.len() {
            let c = self.stack[self.needle];
            self.needle = self.needle + 1;
            Some(c)
        } else {
            None
        }
    }
}

impl Peekable for Cursor {
    type Item = char;

    open spec fn items(&self) -> Seq<char> {
        self.chars()
    }

    open spec fn position(&self) -> nat {
        self.pos()
    }

    fn peek_nth(&self, n: usize) -> (r: Option<char>) {
        proof {
            vstd::std_specs::vec::axiom_spec_len(&self.stack);
        }
        match self.needle.checked_add(n) {
            Some(target) => {
                if target < self.stack.len() {
                    Some(self.stack[target])
                } else {
                    None
                }
            },
            None => None,
        }
    }

    fn peek_prev_nth(&self, n: usize) -> (r: Option<char>) {
        if n <= self.needle && self.needle - n < self.stack.len() {
            Some(self.stack[self.needle - n])
        } else {
            None
        }
    }

    fn peek(&self) -> (r: Option<char>) {
        self.peek_nth(0)
    }

    fn peek_prev(&self) -> (r: Option<char>) {
        self.peek_prev_nth(1)
    }
}

} // verus!
