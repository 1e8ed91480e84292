//! Half-open byte ranges into a shared source text.
use std::rc::Rc;
use vstd::prelude::*;
use vstd::utf8::*;

use crate::lines::{begins_line, column_of, find_line_begin, find_line_end, line_end, line_of, line_slice, position};
use crate::source::Source;

verus! {

/// The bytes `[offset, offset + length)` of a source text.
pub struct Span {
    source: Rc<Source>,
    offset: usize,
    length: usize,
}

impl Span {
    #[verifier::type_invariant]
    spec fn in_bounds(&self) -> bool {
        &&& self.offset + self.length <= self.source.bytes().len()
        &&& self.offset + self.length <= usize::MAX
    }

    pub closed spec fn spec_source(&self) -> Source {
        *self.source
    }

    pub closed spec fn spec_start(&self) -> nat {
        self.offset as nat
    }

    pub closed spec fn spec_end(&self) -> nat {
        (self.offset + self.length) as nat
    }

    /// The bytes of the text the span points into.
    pub open spec fn text(&self) -> Seq<u8> {
        self.spec_source().bytes()
    }

    /// The span of `length` bytes from `offset`; it must lie within the text.
    pub fn new(source: &Rc<Source>, offset: usize, length: usize) -> (r: Span)
        requires
            offset + length <= source.bytes().len(),
        ensures
            r.spec_source() == **source,
            r.spec_start() == offset,
            r.spec_end() == offset + length,
    {
        // The byte count of the text is a `usize`, so the end fits in one.
        let _size = source.contents.as_str().as_bytes().len();
        Span { source: Rc::clone(source), offset, length }
    }

    pub fn is_empty(&self) -> (r: bool)
        ensures
            r == (self.spec_start() == self.spec_end()),
    {
        self.length == 0
    }

    pub fn start(&self) -> (r: usize)
        ensures
            r == self.spec_start(),
            self.spec_start() <= self.spec_end() <= self.text().len(),
    {
        proof {
            use_type_invariant(self);
        }
        self.offset
    }

    pub fn end(&self) -> (r: usize)
        ensures
            r == self.spec_end(),
            self.spec_start() <= self.spec_end() <= self.text().len(),
    {
        proof {
            use_type_invariant(self);
        }
        self.offset + self.length
    }

    pub fn source(&self) -> (r: &Source)
        ensures
            *r == self.spec_source(),
    {
        &self.source
    }

    /// Line and column, both from one, of byte offset `offset` of the text.
    pub fn resolve_position(&self, offset: usize) -> (r: (usize, usize))
        requires
            offset <= self.text().len(),
            offset < usize::MAX,
        ensures
            r.0 == line_of(self.text(), offset as int),
            r.1 == column_of(self.text(), offset as int),
    {
        position(self.source.contents.as_str().as_bytes(), offset)
    }

    /// The text of line number `line`, without its terminator; `None` where
    /// the text has no such line.
    pub fn line_text(&self, line: usize) -> (r: Option<String>)
        ensures
            match r {
                Some(t) => exists|j: int|
                    begins_line(self.text(), j, line as nat) && t@ == decode_utf8(
                        self.text().subrange(j, line_end(self.text(), j)),
                    ),
                None => forall|j: int| !begins_line(self.text(), j, line as nat),
            },
    {
        let s = self.source.contents.as_str();
        let b = s.as_bytes();
        match find_line_begin(b, line) {
            None => None,
            Some(j) => {
                let e = find_line_end(b, j);
                proof {
                    crate::lines::lemma_line_end(b@, j as int);
                }
                let t = line_slice(s, j, e).to_owned();
                assert(begins_line(self.text(), j as int, line as nat));
                assert(t@ == decode_utf8(self.text().subrange(j as int, line_end(self.text(), j as int))));
                Some(t)
            },
        }
    }
}

impl Clone for Span {
    fn clone(&self) -> (r: Span)
        ensures
            r == *self,
    {
        proof {
            use_type_invariant(self);
        }
        Span { source: Rc::clone(&self.source), offset: self.offset, length: self.length }
    }
}

} // verus!
