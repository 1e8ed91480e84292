//! Syntax errors: a reason with one or more notes, and their report.
use vstd::prelude::*;
use vstd::string::StringExecFns;
use vstd::utf8::decode_utf8;

use crate::lines::{
    chars_in, column_of, count_chars, find_line_end, find_line_start, lemma_line_end,
    lemma_line_start, line_end, line_of, line_slice, line_start, position,
};
use crate::span::Span;
use crate::text::{decimal, decimal_width, push_decimal, push_repeated, repeated};

verus! {

/// A location in the source code with an optional hint or tip.
pub struct Note {
    pub span: Span,
    pub hint: Option<String>,
}

/// A static error (syntax, semantics, ...) found at compile time: a reason,
/// and the notes that locate it, in order. There is always at least one note.
pub struct Syntax {
    reason: String,
    notes: Vec<Note>,
}

/// What follows the carets: the hint, if the note has one.
pub open spec fn hint_text(hint: Option<String>) -> Seq<char> {
    match hint {
        Some(h) => " hint: "@ + h@,
        None => Seq::<char>::empty(),
    }
}

/// Number of carets under a span of the bytes `[start, end)` of `b`: the
/// characters it covers on the line where it starts, and at least one.
pub open spec fn caret_count(b: Seq<u8>, start: int, end: int) -> nat {
    let stop = if end < line_end(b, start) {
        end
    } else {
        line_end(b, start)
    };
    let n = chars_in(b.subrange(start, stop));
    if n == 0 {
        1
    } else {
        n
    }
}

/// First row of a header block: where the span starts.
pub open spec fn location_row(path: Seq<char>, line: nat, col: nat) -> Seq<char> {
    "In "@ + path + ":"@ + decimal(line) + ":"@ + decimal(col) + "\n"@
}

/// An empty row of the gutter, as wide as a line number of `width` digits.
pub open spec fn gutter_row(width: nat) -> Seq<char> {
    repeated(' ', width) + "  |\n"@
}

/// The row that shows source line number `line`, whose text is `text`.
pub open spec fn source_row(line: nat, text: Seq<char>) -> Seq<char> {
    " "@ + decimal(line) + " | "@ + text + "\n"@
}

/// The row of `carets` carets from column `col`, followed by `hint`.
pub open spec fn underline_row(width: nat, col: nat, carets: nat, hint: Seq<char>) -> Seq<char> {
    repeated(' ', width) + "  | "@ + repeated(' ', (col - 1) as nat) + repeated('^', carets) + hint
        + "\n"@
}

/// The header block of a span of the bytes `[start, end)` of the text `b`
/// named `path`: its location, its source line, and the carets under it,
/// followed by `hint`.
pub open spec fn span_block(
    path: Seq<char>,
    b: Seq<u8>,
    start: int,
    end: int,
    hint: Seq<char>,
) -> Seq<char> {
    let line = line_of(b, start);
    let col = column_of(b, start);
    let width = decimal(line).len();
    let text = decode_utf8(b.subrange(line_start(b, start), line_end(b, start)));
    location_row(path, line, col) + gutter_row(width) + source_row(line, text) + underline_row(
        width,
        col,
        caret_count(b, start, end),
        hint,
    ) + gutter_row(width)
}

/// What a note contributes to a report: nothing for an empty span, else its
/// header block.
pub open spec fn note_block(note: Note) -> Seq<char> {
    let span = note.span;
    if span.spec_start() == span.spec_end() {
        Seq::<char>::empty()
    } else {
        span_block(
            span.spec_source().path@,
            span.text(),
            span.spec_start() as int,
            span.spec_end() as int,
            hint_text(note.hint),
        )
    }
}

/// The blocks of `notes`, in order.
pub open spec fn note_blocks(notes: Seq<Note>) -> Seq<char>
    decreases notes.len(),
{
    if notes.len() == 0 {
        Seq::<char>::empty()
    } else {
        note_blocks(notes.drop_last()) + note_block(notes.last())
    }
}

/// The report of an error: the blocks of its notes, then the final line.
pub open spec fn report(notes: Seq<Note>, reason: Seq<char>) -> Seq<char> {
    note_blocks(notes) + "Syntax Error: "@ + reason
}

/// The notes an error holds after `add_note` is called with each of `added`
/// in turn.
pub open spec fn notes_after(notes: Seq<Note>, added: Seq<Note>) -> Seq<Note>
    decreases added.len(),
{
    if added.len() == 0 {
        notes
    } else {
        notes_after(notes, added.drop_last()).push(added.last())
    }
}

impl Syntax {
    pub closed spec fn spec_reason(&self) -> Seq<char> {
        self.reason@
    }

    pub closed spec fn spec_notes(&self) -> Seq<Note> {
        self.notes@
    }

    /// An error always holds at least one note.
    pub open spec fn well_formed(&self) -> bool {
        self.spec_notes().len() >= 1
    }

    /// An error at `span`, with a single note and no hint.
    pub fn error(reason: &str, span: &Span) -> (r: Syntax)
        ensures
            r.well_formed(),
            r.spec_reason() == reason@,
            r.spec_notes().len() == 1,
            r.spec_notes()[0].span == *span,
            r.spec_notes()[0].hint is None,
    {
        Syntax::error_with_note(reason, Note { span: span.clone(), hint: None })
    }

    /// An error with the single note `note`, which may carry a hint.
    pub fn error_with_note(reason: &str, note: Note) -> (r: Syntax)
        ensures
            r.well_formed(),
            r.spec_reason() == reason@,
            r.spec_notes() == seq![note],
    {
        let notes = vec![note];
        assert(notes@ =~= seq![note]);
        Syntax { reason: reason.to_owned(), notes }
    }

    /// Appends `note` to the notes, after those already there.
    pub fn add_note(&mut self, note: Note)
        ensures
            final(self).well_formed(),
            final(self).spec_reason() == old(self).spec_reason(),
            final(self).spec_notes() == old(self).spec_notes().push(note),
    {
        self.notes.push(note);
    }

    pub fn reason(&self) -> (r: &str)
        ensures
            r@ == self.spec_reason(),
    {
        self.reason.as_str()
    }

    pub fn notes(&self) -> (r: &[Note])
        ensures
            r@ == self.spec_notes(),
    {
        self.notes.as_slice()
    }

    /// The report of this error: the header block of each note with a
    /// non-empty span, in order, then `Syntax Error: ` and the reason.
    pub fn render(&self) -> (r: String)
        ensures
            r@ == report(self.spec_notes(), self.spec_reason()),
    {
        let mut out = String::new();
        let mut i: usize = 0;
        while i < self.notes.len()
            invariant
                i <= self.notes@.len(),
                out@ == note_blocks(self.notes@.take(i as int)),
            decreases self.notes@.len() - i,
        {
            write_note(&self.notes[i], &mut out);
            assert(self.notes@.take(i + 1).drop_last() =~= self.notes@.take(i as int));
            i = i + 1;
        }
        assert(self.notes@.take(i as int) =~= self.notes@);
        out.append("Syntax Error: ");
        out.append(self.reason.as_str());
        out
    }
}

/// Appends the block of `note` to `out`.
fn write_note(note: &Note, out: &mut String)
    ensures
        final(out)@ == old(out)@ + note_block(*note),
{
    if note.span.is_empty() {
        assert(out@ =~= out@ + note_block(*note));
        return ;
    }
    let start = note.span.start();
    let end = note.span.end();
    let source = note.span.source();
    let s = source.contents.as_str();
    let b = s.as_bytes();
    let ghost bs = b@;
    let (line, col) = position(b, start);
    let first = find_line_start(b, start);
    let last = find_line_end(b, start);
    proof {
        lemma_line_start(bs, start as int);
        lemma_line_end(bs, start as int);
    }
    let text = line_slice(s, first, last);
    let stop = if end < last {
        end
    } else {
        last
    };
    let covered = count_chars(b, start, stop);
    let carets = if covered == 0 {
        1
    } else {
        covered
    };
    let width = decimal_width(line);
    let ghost before = out@;
    write_location_row(out, source.path.as_str(), line, col);
    write_gutter_row(out, width);
    write_source_row(out, line, text);
    write_underline_row(out, width, col, carets, &note.hint);
    write_gutter_row(out, width);
    assert(out@ =~= before + note_block(*note));
}

fn write_location_row(out: &mut String, path: &str, line: usize, col: usize)
    ensures
        final(out)@ == old(out)@ + location_row(path@, line as nat, col as nat),
{
    let ghost before = out@;
    out.append("In ");
    out.append(path);
    out.append(":");
    push_decimal(out, line);
    out.append(":");
    push_decimal(out, col);
    out.append("\n");
    assert(out@ =~= before + location_row(path@, line as nat, col as nat));
}

fn write_gutter_row(out: &mut String, width: usize)
    ensures
        final(out)@ == old(out)@ + gutter_row(width as nat),
{
    let ghost before = out@;
    push_repeated(out, ' ', width);
    out.append("  |\n");
    assert(out@ =~= before + gutter_row(width as nat));
}

fn write_source_row(out: &mut String, line: usize, text: &str)
    ensures
        final(out)@ == old(out)@ + source_row(line as nat, text@),
{
    let ghost before = out@;
    out.append(" ");
    push_decimal(out, line);
    out.append(" | ");
    out.append(text);
    out.append("\n");
    assert(out@ =~= before + source_row(line as nat, text@));
}

fn write_underline_row(out: &mut String, width: usize, col: usize, carets: usize, hint: &Option<String>)
    requires
        col >= 1,
    ensures
        final(out)@ == old(out)@ + underline_row(width as nat, col as nat, carets as nat, hint_text(*hint)),
{
    let ghost before = out@;
    push_repeated(out, ' ', width);
    out.append("  | ");
    push_repeated(out, ' ', col - 1);
    push_repeated(out, '^', carets);
    match hint {
        Some(h) => {
            out.append(" hint: ");
            out.append(h.as_str());
        },
        None => {},
    }
    out.append("\n");
    assert(out@ =~= before + underline_row(width as nat, col as nat, carets as nat, hint_text(*hint)));
}

/// `add_note` only appends: after any number of calls the error holds as
/// many more notes as there were calls, and its earlier notes, in their
/// order, begin the list.
pub proof fn lemma_add_note_append_only(notes: Seq<Note>, added: Seq<Note>)
    ensures
        notes_after(notes, added) == notes + added,
        notes_after(notes, added).len() == notes.len() + added.len(),
        notes.is_prefix_of(notes_after(notes, added)),
    decreases added.len(),
{
    if added.len() > 0 {
        lemma_add_note_append_only(notes, added.drop_last());
        assert((notes + added.drop_last()).push(added.last()) =~= notes + added);
    }
    assert(notes_after(notes, added).subrange(0, notes.len() as int) =~= notes);
}

/// A note with an empty span adds nothing to a report: with it alone, the
/// report is the final line only.
pub proof fn lemma_empty_span_renders_reason_only(note: Note, reason: Seq<char>)
    requires
        note.span.spec_start() == note.span.spec_end(),
    ensures
        report(seq![note], reason) == "Syntax Error: "@ + reason,
{
    let notes = seq![note];
    assert(notes.drop_last() =~= Seq::<Note>::empty());
    assert(notes.last() == note);
    assert(note_blocks(notes.drop_last()) == Seq::<char>::empty());
    assert(note_blocks(notes) =~= Seq::<char>::empty());
}

/// A single note with a non-empty span gives its header block, then the
/// final line.
pub proof fn lemma_one_note_renders_block(note: Note, reason: Seq<char>)
    requires
        note.span.spec_start() != note.span.spec_end(),
    ensures
        report(seq![note], reason) == span_block(
            note.span.spec_source().path@,
            note.span.text(),
            note.span.spec_start() as int,
            note.span.spec_end() as int,
            hint_text(note.hint),
        ) + "Syntax Error: "@ + reason,
{
    let notes = seq![note];
    assert(notes.drop_last() =~= Seq::<Note>::empty());
    assert(notes.last() == note);
    assert(note_blocks(notes.drop_last()) == Seq::<char>::empty());
    assert(note_blocks(notes) =~= note_block(note));
}

/// Two notes with non-empty spans give two header blocks, in the order of
/// the notes, and a single final line.
pub proof fn lemma_two_notes_render_in_order(first: Note, second: Note, reason: Seq<char>)
    requires
        first.span.spec_start() != first.span.spec_end(),
        second.span.spec_start() != second.span.spec_end(),
    ensures
        report(seq![first, second], reason) == span_block(
            first.span.spec_source().path@,
            first.span.text(),
            first.span.spec_start() as int,
            first.span.spec_end() as int,
            hint_text(first.hint),
        ) + span_block(
            second.span.spec_source().path@,
            second.span.text(),
            second.span.spec_start() as int,
            second.span.spec_end() as int,
            hint_text(second.hint),
        ) + "Syntax Error: "@ + reason,
{
    let one = seq![first];
    let both = seq![first, second];
    assert(both.drop_last() =~= one);
    assert(both.last() == second);
    assert(one.drop_last() =~= Seq::<Note>::empty());
    assert(one.last() == first);
    assert(note_blocks(one.drop_last()) == Seq::<char>::empty());
    assert(note_blocks(one) =~= note_block(first));
}

} // verus!
