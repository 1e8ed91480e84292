//! Lines and columns of UTF-8 text, addressed by byte offset.
//!
//! Lines are counted from one and end at a line feed byte; columns are
//! counted from one, in characters: every byte but the continuation bytes
//! of UTF-8 starts a character.
use vstd::prelude::*;
use vstd::utf8::*;

verus! {

/// The byte that ends a line.
pub const NEWLINE: u8 = 10;

/// Number of line terminators in `b`.
pub open spec fn newlines(b: Seq<u8>) -> nat
    decreases b.len(),
{
    if b.len() == 0 {
        0
    } else {
        newlines(b.drop_last()) + if b.last() == NEWLINE { 1nat } else { 0nat }
    }
}

/// Number of characters that start in `b`.
pub open spec fn chars_in(b: Seq<u8>) -> nat
    decreases b.len(),
{
    if b.len() == 0 {
        0
    } else {
        chars_in(b.drop_last()) + if is_continuation_byte(b.last()) { 0nat } else { 1nat }
    }
}

/// Offset at which the line holding offset `i` begins.
pub open spec fn line_start(b: Seq<u8>, i: int) -> int
    decreases i,
{
    if i <= 0 {
        0
    } else if b[i - 1] == NEWLINE {
        i
    } else {
        line_start(b, i - 1)
    }
}

/// Offset at which the line holding offset `i` ends: its terminator, or the
/// end of the text.
pub open spec fn line_end(b: Seq<u8>, i: int) -> int
    decreases b.len() - i,
{
    if i >= b.len() {
        b.len() as int
    } else if b[i] == NEWLINE {
        i
    } else {
        line_end(b, i + 1)
    }
}

/// Line, from one, of offset `i`.
pub open spec fn line_of(b: Seq<u8>, i: int) -> nat {
    newlines(b.take(i)) + 1
}

/// Column, from one, of offset `i`: one more than the characters between the
/// start of its line and `i`.
pub open spec fn column_of(b: Seq<u8>, i: int) -> nat {
    chars_in(b.subrange(line_start(b, i), i)) + 1
}

/// Whether line number `line` of `b` begins at offset `j`.
pub open spec fn begins_line(b: Seq<u8>, j: int, line: nat) -> bool {
    &&& 0 <= j <= b.len()
    &&& (j == 0 || b[j - 1] == NEWLINE)
    &&& newlines(b.take(j)) + 1 == line
}

proof fn lemma_newlines_step(b: Seq<u8>, i: int)
    requires
        0 <= i < b.len(),
    ensures
        newlines(b.take(i + 1)) == newlines(b.take(i)) + if b[i] == NEWLINE { 1nat } else { 0nat },
{
    assert(b.take(i + 1).drop_last() =~= b.take(i));
}

proof fn lemma_chars_step(b: Seq<u8>, s: int, i: int)
    requires
        0 <= s <= i < b.len(),
    ensures
        chars_in(b.subrange(s, i + 1)) == chars_in(b.subrange(s, i)) + if is_continuation_byte(b[i]) {
            0nat
        } else {
            1nat
        },
{
    assert(b.subrange(s, i + 1).drop_last() =~= b.subrange(s, i));
}

/// Newlines only accumulate along the text, and a terminator in `[j, i)`
/// makes the count at `i` larger.
proof fn lemma_newlines_grow(b: Seq<u8>, j: int, i: int)
    requires
        0 <= j <= i <= b.len(),
    ensures
        newlines(b.take(j)) <= newlines(b.take(i)),
        (exists|k: int| j <= k < i && b[k] == NEWLINE) ==> newlines(b.take(j)) < newlines(b.take(i)),
    decreases i - j,
{
    if j < i {
        lemma_newlines_grow(b, j, i - 1);
        lemma_newlines_step(b, i - 1);
        if exists|k: int| j <= k < i && b[k] == NEWLINE {
            let k = choose|k: int| j <= k < i && b[k] == NEWLINE;
            if k < i - 1 {
                assert(j <= k < i - 1 && b[k] == NEWLINE);
            }
        }
    }
}

/// What `line_start` is: the latest line beginning at or before `i`, with no
/// terminator after it and before `i`.
pub proof fn lemma_line_start(b: Seq<u8>, i: int)
    requires
        0 <= i <= b.len(),
    ensures
        0 <= line_start(b, i) <= i,
        line_start(b, i) == 0 || b[line_start(b, i) - 1] == NEWLINE,
        forall|k: int| line_start(b, i) <= k < i ==> b[k] != NEWLINE,
        newlines(b.take(line_start(b, i))) == newlines(b.take(i)),
    decreases i,
{
    if i > 0 && b[i - 1] != NEWLINE {
        lemma_line_start(b, i - 1);
        lemma_newlines_step(b, i - 1);
    }
}

/// Re-deriving the start of a line from the line number of an offset gives
/// back the start of that offset's line: the line that `line_of` names begins
/// at `line_start`, at no other offset, and the column is the count of
/// characters from there.
pub proof fn lemma_line_start_recovered(b: Seq<u8>, i: int)
    requires
        0 <= i <= b.len(),
    ensures
        begins_line(b, line_start(b, i), line_of(b, i)),
        forall|j: int| begins_line(b, j, line_of(b, i)) ==> j == line_start(b, i),
        column_of(b, i) == chars_in(b.subrange(line_start(b, i), i)) + 1,
{
    let s = line_start(b, i);
    lemma_line_start(b, i);
    assert forall|j: int| begins_line(b, j, line_of(b, i)) implies j == s by {
        if j < s {
            lemma_newlines_grow(b, j, s);
            assert(j <= s - 1 < s && b[s - 1] == NEWLINE);
        } else if j > s {
            if j <= i {
                assert(s <= j - 1 < i);
            } else {
                lemma_newlines_grow(b, i, j);
                assert(i <= j - 1 < j && b[j - 1] == NEWLINE);
            }
        }
    }
}

/// Line and column of byte offset `offset` in `b`.
pub fn position(b: &[u8], offset: usize) -> (r: (usize, usize))
    requires
        offset <= b@.len(),
        offset < usize::MAX,
    ensures
        r.0 == line_of(b@, offset as int),
        r.1 == column_of(b@, offset as int),
{
    let mut i: usize = 0;
    let mut line: usize = 1;
    let mut start: usize = 0;
    let mut col: usize = 1;
    while i < offset
        invariant
            i <= offset <= b@.len(),
            offset < usize::MAX,
            start <= i,
            line == newlines(b@.take(i as int)) + 1,
            start == line_start(b@, i as int),
            col == chars_in(b@.subrange(start as int, i as int)) + 1,
            line <= i + 1,
            col <= i - start + 1,
        decreases offset - i,
    {
        proof {
            lemma_newlines_step(b@, i as int);
        }
        if b[i] == NEWLINE {
            line = line + 1;
            start = i + 1;
            col = 1;
            assert(b@.subrange(start as int, i + 1) =~= Seq::<u8>::empty());
        } else {
            proof {
                lemma_chars_step(b@, start as int, i as int);
            }
            if b[i] < 0x80 || b[i] > 0xbf {
                col = col + 1;
            }
        }
        i = i + 1;
    }
    (line, col)
}

/// Offset at which line number `line` begins, if `b` has such a line.
pub fn find_line_begin(b: &[u8], line: usize) -> (r: Option<usize>)
    ensures
        match r {
            Some(j) => begins_line(b@, j as int, line as nat),
            None => forall|j: int| !begins_line(b@, j, line as nat),
        },
{
    if line == 0 {
        return None;
    }
    if line == 1 {
        return Some(0);
    }
    let mut i: usize = 0;
    let mut count: usize = 1;
    while i < b.len()
        invariant
            i <= b@.len(),
            count == newlines(b@.take(i as int)) + 1,
            count < line,
        decreases b@.len() - i,
    {
        proof {
            lemma_newlines_step(b@, i as int);
        }
        if b[i] == NEWLINE {
            count = count + 1;
            if count == line {
                return Some(i + 1);
            }
        }
        i = i + 1;
    }
    proof {
        assert forall|j: int| !begins_line(b@, j, line as nat) by {
            if 0 <= j <= b@.len() {
                lemma_newlines_grow(b@, j, b@.len() as int);
                assert(b@.take(b@.len() as int) =~= b@.take(i as int));
            }
        }
    }
    None
}

/// Number of characters that start in the bytes `[from, to)`.
pub fn count_chars(b: &[u8], from: usize, to: usize) -> (r: usize)
    requires
        from <= to <= b@.len(),
    ensures
        r == chars_in(b@.subrange(from as int, to as int)),
{
    let mut i: usize = from;
    let mut n: usize = 0;
    assert(b@.subrange(from as int, from as int) =~= Seq::<u8>::empty());
    while i < to
        invariant
            from <= i <= to <= b@.len(),
            n == chars_in(b@.subrange(from as int, i as int)),
            n <= i - from,
        decreases to - i,
    {
        proof {
            lemma_chars_step(b@, from as int, i as int);
        }
        if b[i] < 0x80 || b[i] > 0xbf {
            n = n + 1;
        }
        i = i + 1;
    }
    n
}

/// Offset at which the line holding `offset` begins.
pub fn find_line_start(b: &[u8], offset: usize) -> (r: usize)
    requires
        offset <= b@.len(),
    ensures
        r == line_start(b@, offset as int),
{
    let mut j: usize = offset;
    loop
        invariant
            j <= offset <= b@.len(),
            line_start(b@, j as int) == line_start(b@, offset as int),
        decreases j,
    {
        if j == 0 || b[j - 1] == NEWLINE {
            return j;
        }
        j = j - 1;
    }
}

/// Offset at which the line holding `offset` ends.
pub fn find_line_end(b: &[u8], offset: usize) -> (r: usize)
    requires
        offset <= b@.len(),
    ensures
        r == line_end(b@, offset as int),
{
    let mut j: usize = offset;
    while j < b.len() && b[j] != NEWLINE
        invariant
            offset <= j <= b@.len(),
            line_end(b@, j as int) == line_end(b@, offset as int),
        decreases b@.len() - j,
    {
        j = j + 1;
    }
    j
}

/// What `line_end` is: a terminator or the end of the text, with no
/// terminator before it from `i` on.
pub proof fn lemma_line_end(b: Seq<u8>, i: int)
    requires
        0 <= i <= b.len(),
    ensures
        i <= line_end(b, i) <= b.len(),
        line_end(b, i) == b.len() || b[line_end(b, i)] == NEWLINE,
        forall|k: int| i <= k < line_end(b, i) ==> b[k] != NEWLINE,
    decreases b.len() - i,
{
    if i < b.len() && b[i] != NEWLINE {
        lemma_line_end(b, i + 1);
    }
}

/// An offset at a terminator, or at the end, is a character boundary.
proof fn lemma_boundary_at_end(b: Seq<u8>, k: int)
    requires
        valid_utf8(b),
        0 <= k <= b.len(),
        k == b.len() || b[k] == NEWLINE,
    ensures
        is_char_boundary(b, k),
{
    if k == b.len() {
        is_char_boundary_start_end_of_seq(b);
    } else {
        is_char_boundary_iff_not_is_continuation_byte(b, k);
    }
}

/// An offset at the start, or just after a terminator, is a character
/// boundary.
proof fn lemma_boundary_at_start(b: Seq<u8>, k: int)
    requires
        valid_utf8(b),
        0 <= k <= b.len(),
        k == 0 || b[k - 1] == NEWLINE,
    ensures
        is_char_boundary(b, k),
{
    if k == 0 || k == b.len() {
        is_char_boundary_start_end_of_seq(b);
    } else {
        lemma_boundary_at_end(b, k - 1);
        valid_utf8_split(b, k - 1);
        let q = b.subrange(k - 1, b.len() as int);
        assert(valid_utf8(q));
        assert(q[0] == NEWLINE);
        assert(length_of_first_scalar(q) == 1);
        let p = pop_first_scalar(q);
        assert(p =~= b.subrange(k, b.len() as int));
        assert(valid_utf8(p));
        assert(valid_first_scalar(p));
        assert(p[0] == b[k]);
        is_char_boundary_iff_not_is_continuation_byte(b, k);
    }
}

/// The text of `s` from byte offset `from`, a line's start, to byte offset
/// `to`, a line's end.
pub fn line_slice(s: &str, from: usize, to: usize) -> (r: &str)
    requires
        from <= to <= encode_utf8(s@).len(),
        from == 0 || encode_utf8(s@)[from - 1] == NEWLINE,
        to == encode_utf8(s@).len() || encode_utf8(s@)[to as int] == NEWLINE,
    ensures
        encode_utf8(r@) == encode_utf8(s@).subrange(from as int, to as int),
        r@ == decode_utf8(encode_utf8(s@).subrange(from as int, to as int)),
{
    proof {
        encode_utf8_valid_utf8(s@);
        lemma_boundary_at_end(encode_utf8(s@), to as int);
    }
    let (head, _) = s.split_at(to);
    proof {
        encode_utf8_valid_utf8(head@);
        assert(from == 0 || encode_utf8(head@)[from - 1] == NEWLINE);
        lemma_boundary_at_start(encode_utf8(head@), from as int);
    }
    let (_, r) = head.split_at(from);
    proof {
        encode_utf8_decode_utf8(r@);
        assert(encode_utf8(r@) =~= encode_utf8(s@).subrange(from as int, to as int));
    }
    r
}

} // verus!
