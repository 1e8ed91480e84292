//! The text under compilation, shared by every span into it.
use vstd::prelude::*;
use vstd::utf8::encode_utf8;

verus! {

/// A source text and the name it is reported under.
pub struct Source {
    pub contents: String,
    pub path: String,
}

impl Source {
    /// The UTF-8 bytes of the text; spans address them by offset.
    pub open spec fn bytes(&self) -> Seq<u8> {
        encode_utf8(self.contents@)
    }

    pub fn new(contents: &str, path: &str) -> (r: Source)
        ensures
            r.contents@ == contents@,
            r.path@ == path@,
    {
        Source { contents: contents.to_owned(), path: path.to_owned() }
    }

    /// A text reported under the name `./source`.
    pub fn source(contents: &str) -> (r: Source)
        ensures
            r.contents@ == contents@,
            r.path@ == "./source"@,
    {
        Source::new(contents, "./source")
    }
}

} // verus!
