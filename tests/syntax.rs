use std::rc::Rc;

use passerine::source::Source;
use passerine::span::Span;
use passerine::syntax::{Note, Syntax};

#[test]
fn error() {
    let source = Rc::new(Source::source("x = \"Hello, world\" -> y + 1"));
    let error = Syntax::error(
        "Unexpected token '\"Hello, world!\"'",
        &Span::new(&source, 4, 14),
    );

    let target = "In ./source:1:5
   |
 1 | x = \"Hello, world\" -> y + 1
   |     ^^^^^^^^^^^^^^
   |
Syntax Error: Unexpected token '\"Hello, world!\"'\
";

    let result = error.render();
    assert_eq!(result, target);
}

#[test]
fn hint_follows_carets() {
    let source = Rc::new(Source::source("let x = ;"));
    let note = Note {
        span: Span::new(&source, 8, 1),
        hint: Some("expected expression".to_string()),
    };
    let error = Syntax::error_with_note("Expected expression", note);
    let target = "In ./source:1:9\n   |\n 1 | let x = ;\n   |         ^ hint: expected expression\n   |\nSyntax Error: Expected expression";
    assert_eq!(error.render(), target);
}

#[test]
fn empty_span_renders_reason_only() {
    let source = Rc::new(Source::source("abc"));
    let error = Syntax::error("Unexpected end", &Span::new(&source, 3, 0));
    assert_eq!(error.render(), "Syntax Error: Unexpected end");
}

#[test]
fn empty_span_drops_hint() {
    let source = Rc::new(Source::source("abc"));
    let note = Note { span: Span::new(&source, 1, 0), hint: Some("here".to_string()) };
    let error = Syntax::error_with_note("Oops", note);
    assert_eq!(error.render(), "Syntax Error: Oops");
}

#[test]
fn empty_source() {
    let source = Rc::new(Source::source(""));
    let span = Span::new(&source, 0, 0);
    assert!(span.is_empty());
    assert_eq!(span.resolve_position(0), (1, 1));
    assert_eq!(span.line_text(1), Some(String::new()));
    assert_eq!(span.line_text(2), None);
    assert_eq!(Syntax::error("Empty", &span).render(), "Syntax Error: Empty");
}

#[test]
fn two_notes_render_in_order() {
    let source = Rc::new(Source::source("a = b\nc = d"));
    let mut error = Syntax::error("Redefinition", &Span::new(&source, 6, 1));
    error.add_note(Note {
        span: Span::new(&source, 0, 1),
        hint: Some("first defined here".to_string()),
    });
    let target = "In ./source:2:1\n   |\n 2 | c = d\n   | ^\n   |\n\
In ./source:1:1\n   |\n 1 | a = b\n   | ^ hint: first defined here\n   |\n\
Syntax Error: Redefinition";
    assert_eq!(error.render(), target);
}

#[test]
fn empty_note_between_others_adds_nothing() {
    let source = Rc::new(Source::source("ab"));
    let mut error = Syntax::error("Bad", &Span::new(&source, 0, 1));
    error.add_note(Note { span: Span::new(&source, 1, 0), hint: None });
    let target = "In ./source:1:1\n   |\n 1 | ab\n   | ^\n   |\nSyntax Error: Bad";
    assert_eq!(error.render(), target);
}

#[test]
fn multi_line_span_underlines_first_line_only() {
    let source = Rc::new(Source::source("ab\ncd"));
    let error = Syntax::error("Spans lines", &Span::new(&source, 1, 3));
    let target = "In ./source:1:2\n   |\n 1 | ab\n   |  ^\n   |\nSyntax Error: Spans lines";
    assert_eq!(error.render(), target);
}

#[test]
fn span_on_terminator_gets_one_caret() {
    let source = Rc::new(Source::source("ab\ncd"));
    let error = Syntax::error("Newline", &Span::new(&source, 2, 1));
    let target = "In ./source:1:3\n   |\n 1 | ab\n   |   ^\n   |\nSyntax Error: Newline";
    assert_eq!(error.render(), target);
}

#[test]
fn columns_count_characters() {
    let source = Rc::new(Source::source("é = 1"));
    let error = Syntax::error("Number", &Span::new(&source, 5, 1));
    let target = "In ./source:1:5\n   |\n 1 | é = 1\n   |     ^\n   |\nSyntax Error: Number";
    assert_eq!(error.render(), target);
}

#[test]
fn carets_count_characters() {
    let source = Rc::new(Source::source("x = \"héé\""));
    let error = Syntax::error("String", &Span::new(&source, 4, 7));
    let target = "In ./source:1:5\n   |\n 1 | x = \"héé\"\n   |     ^^^^^\n   |\nSyntax Error: String";
    assert_eq!(error.render(), target);
}

#[test]
fn wide_line_numbers_widen_gutter() {
    let source = Rc::new(Source::source("\n\n\n\n\n\n\n\n\nabc"));
    let error = Syntax::error("Late", &Span::new(&source, 9, 3));
    let target = "In ./source:10:1\n    |\n 10 | abc\n    | ^^^\n    |\nSyntax Error: Late";
    assert_eq!(error.render(), target);
}

#[test]
fn rendering_twice_gives_same_report() {
    let source = Rc::new(Source::source("a b"));
    let error = Syntax::error("Twice", &Span::new(&source, 2, 1));
    assert_eq!(error.render(), error.render());
}

#[test]
fn resolve_position_lines_and_columns() {
    let source = Rc::new(Source::source("ab\ncd\n"));
    let span = Span::new(&source, 0, 1);
    assert_eq!(span.resolve_position(0), (1, 1));
    assert_eq!(span.resolve_position(2), (1, 3));
    assert_eq!(span.resolve_position(3), (2, 1));
    assert_eq!(span.resolve_position(4), (2, 2));
    assert_eq!(span.resolve_position(6), (3, 1));
}

#[test]
fn line_text_by_number() {
    let source = Rc::new(Source::source("ab\ncd\n"));
    let span = Span::new(&source, 0, 1);
    assert_eq!(span.line_text(0), None);
    assert_eq!(span.line_text(1), Some("ab".to_string()));
    assert_eq!(span.line_text(2), Some("cd".to_string()));
    assert_eq!(span.line_text(3), Some(String::new()));
    assert_eq!(span.line_text(4), None);
}

#[test]
fn position_leads_back_to_its_line() {
    let source = Rc::new(Source::source("one\ntwo two\nthree"));
    let span = Span::new(&source, 8, 3);
    let (line, col) = span.resolve_position(span.start());
    assert_eq!((line, col), (2, 5));
    assert_eq!(span.line_text(line), Some("two two".to_string()));
}

#[test]
fn is_empty_only_for_zero_length() {
    let source = Rc::new(Source::source("abc"));
    assert!(Span::new(&source, 1, 0).is_empty());
    assert!(!Span::new(&source, 1, 1).is_empty());
    assert!(!Span::new(&source, 0, 3).is_empty());
}

#[test]
fn error_holds_one_note_without_hint() {
    let source = Rc::new(Source::source("abc"));
    let span = Span::new(&source, 1, 2);
    let error = Syntax::error("Reason", &span);
    assert_eq!(error.reason(), "Reason");
    assert_eq!(error.notes().len(), 1);
    assert_eq!(error.notes()[0].hint, None);
    assert_eq!(error.notes()[0].span.start(), 1);
    assert_eq!(error.notes()[0].span.end(), 3);
}

#[test]
fn add_note_appends_in_order() {
    let source = Rc::new(Source::source("abcdef"));
    let mut error = Syntax::error("Reason", &Span::new(&source, 0, 1));
    for i in 1..4 {
        error.add_note(Note { span: Span::new(&source, i, 1), hint: None });
    }
    assert_eq!(error.notes().len(), 4);
    let starts: Vec<usize> = error.notes().iter().map(|n| n.span.start()).collect();
    assert_eq!(starts, vec![0, 1, 2, 3]);
    assert_eq!(error.reason(), "Reason");
}

#[test]
fn source_named_by_path() {
    let source = Rc::new(Source::new("z", "lib/main.pn"));
    let error = Syntax::error("Unknown", &Span::new(&source, 0, 1));
    let target = "In lib/main.pn:1:1\n   |\n 1 | z\n   | ^\n   |\nSyntax Error: Unknown";
    assert_eq!(error.render(), target);
    assert_eq!(Span::new(&source, 0, 1).source().path, "lib/main.pn");
}
