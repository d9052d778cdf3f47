//! Parser behaviour on whole documents and single constructs.
use latex_to_html::ast::{DocumentPart, Math, ParagraphPart, TokenText};
use latex_to_html::parse::{
    Parsed, bib, bib_entry, display_math, document, inline_math, paragraph, raw_command_arg,
    raw_env, text_token,
};
use latex_to_html::span::Span;

fn slice<'a>(src: &'a [u8], sp: Span) -> &'a [u8] {
    &src[sp.start..sp.end]
}

#[test]
fn test_env() {
    let src = b"\\begin{asdf}\n123\n\\end{asdf}";
    match raw_env(src, 0, b"asdf") {
        Parsed::Done(p, body) => {
            assert_eq!(p, src.len());
            assert_eq!(slice(src, body), b"123");
        }
        _ => panic!("environment did not parse"),
    }
    // a body that is not the expected text
    let src = b"\\begin{asdf}\n1\n\\end{asdf}";
    match raw_env(src, 0, b"asdf") {
        Parsed::Done(_, body) => {
            assert_ne!(slice(src, body), b"123");
        }
        _ => panic!("environment did not parse"),
    }
    // the closing tag must name-match the opening tag
    let src = b"\\begin{asdf}\n123\n\\end{xyz}";
    match raw_env(src, 0, b"asdf") {
        Parsed::Done(_, _) => panic!("mismatched end tag must not parse"),
        _ => {}
    }
}

#[test]
fn text_token_span_round_trip() {
    let src = b"hello world";
    match text_token(src, 0) {
        Parsed::Done(p, TokenText::Borrowed(sp)) => {
            assert_eq!(p, 5);
            assert_eq!(slice(src, sp), b"hello");
        }
        _ => panic!("text token expected"),
    }
}

#[test]
fn inline_math_span_round_trip() {
    let src = b"$x + y$ rest";
    match inline_math(src, 0) {
        Parsed::Done(p, Math::Inline(sp)) => {
            assert_eq!(p, 7);
            assert_eq!(slice(src, sp), b"x + y");
        }
        _ => panic!("inline math expected"),
    }
}

#[test]
fn display_math_label_split() {
    let src = b"\\begin{equation}\n\\label{eq:one}\nx = y\n\\end{equation}";
    match display_math(src, 0) {
        Parsed::Done(p, Math::Display { source, label }) => {
            assert_eq!(p, src.len());
            assert_eq!(slice(src, label.expect("label expected")), b"eq:one");
            assert_eq!(slice(src, source), b"x = y");
        }
        _ => panic!("display math expected"),
    }
}

#[test]
fn display_math_unlabeled() {
    let src = b"\\begin{equation}\nx = y\n\\end{equation}";
    match display_math(src, 0) {
        Parsed::Done(_, Math::Display { source, label }) => {
            assert!(label.is_none());
            assert_eq!(slice(src, source), b"x = y");
        }
        _ => panic!("display math expected"),
    }
}

#[test]
fn paragraph_keeps_order_and_adjacency() {
    let src = b"one $m$ two";
    match paragraph(src, 0) {
        Parsed::Done(p, parts) => {
            assert_eq!(p, src.len());
            assert_eq!(parts.len(), 5);
            match &parts[0] {
                ParagraphPart::TextToken(TokenText::Borrowed(sp)) => {
                    assert_eq!(slice(src, *sp), b"one")
                }
                other => panic!("unexpected part {:?}", other),
            }
            assert!(matches!(parts[1], ParagraphPart::InlineWhitespace(_)));
            match &parts[2] {
                ParagraphPart::Math(Math::Inline(sp)) => assert_eq!(slice(src, *sp), b"m"),
                other => panic!("unexpected part {:?}", other),
            }
            assert!(matches!(parts[3], ParagraphPart::InlineWhitespace(_)));
            match &parts[4] {
                ParagraphPart::TextToken(TokenText::Borrowed(sp)) => {
                    assert_eq!(slice(src, *sp), b"two")
                }
                other => panic!("unexpected part {:?}", other),
            }
        }
        _ => panic!("paragraph expected"),
    }
}

#[test]
fn itemize_label_is_fatal() {
    let src = b"\\documentclass{article}\n\\begin{document}\n\\begin{itemize}\n\\item \\label{it} a\n\\end{itemize}\n\\end{document}\n";
    match document(src, 0) {
        Parsed::Fatal(_) => {}
        _ => panic!("a label on an itemize item is a hard error"),
    }
}

#[test]
fn enumerate_item_labels_allowed() {
    let src = b"\\documentclass{article}\n\\begin{document}\n\\begin{enumerate}\n\\item \\label{one} a\n\\item b\n\\end{enumerate}\n\\end{document}\n";
    match document(src, 0) {
        Parsed::Done(_, doc) => {
            assert_eq!(doc.parts.len(), 1);
            match &doc.parts[0] {
                DocumentPart::FreeParagraph(par) => match &par[0] {
                    ParagraphPart::Enumerate(items) => {
                        assert_eq!(items.len(), 2);
                        assert_eq!(slice(src, items[0].label.expect("label")), b"one");
                        assert!(items[1].label.is_none());
                    }
                    other => panic!("unexpected part {:?}", other),
                },
                other => panic!("unexpected document part {:?}", other),
            }
        }
        other => panic!("document expected, got {:?}", kind(&other)),
    }
}

fn kind<T>(r: &Parsed<T>) -> &'static str {
    match r {
        Parsed::Done(_, _) => "done",
        Parsed::Fail => "fail",
        Parsed::Fatal(_) => "fatal",
    }
}

#[test]
fn document_preamble_lines_in_order() {
    let src = b"\\documentclass{article}\n\\usepackage{a}\n\\usepackage{b}\n\\begin{document}\nhello\n\\end{document}\n";
    match document(src, 0) {
        Parsed::Done(p, doc) => {
            assert_eq!(p, src.len());
            let lines: Vec<&[u8]> = doc.preamble.iter().map(|sp| slice(src, *sp)).collect();
            assert_eq!(
                lines,
                vec![&b""[..], &b"\\usepackage{a}"[..], &b"\\usepackage{b}"[..], &b""[..]]
            );
        }
        other => panic!("document expected, got {}", kind(&other)),
    }
}

#[test]
fn document_sections_and_theorems() {
    let src = b"\\documentclass{article}\n\\begin{document}\n\\section{One}\n\\subsection{A}\n\\begin{theorem}\nbody\n\\end{theorem}\n\\section{Two}\n\\subsection{B}\n\\end{document}\n";
    match document(src, 0) {
        Parsed::Done(_, doc) => {
            assert_eq!(doc.parts.len(), 5);
            assert!(matches!(doc.parts[0], DocumentPart::Section { .. }));
            assert!(matches!(doc.parts[1], DocumentPart::Subsection { .. }));
            match &doc.parts[2] {
                DocumentPart::TheoremLike { tag, .. } => assert_eq!(tag.as_slice(), b"theorem"),
                other => panic!("unexpected part {:?}", other),
            }
            assert!(matches!(doc.parts[3], DocumentPart::Section { .. }));
            assert!(matches!(doc.parts[4], DocumentPart::Subsection { .. }));
        }
        other => panic!("document expected, got {}", kind(&other)),
    }
}

#[test]
fn ignore_directive_skips_line() {
    let src = b"\\documentclass{article}\n% LATEX_TO_HTML_IGNORE\n\\broken\n\\usepackage{a}\n\\begin{document}\nx\n\\end{document}\n";
    match document(src, 0) {
        Parsed::Done(_, doc) => {
            let lines: Vec<&[u8]> = doc.preamble.iter().map(|sp| slice(src, *sp)).collect();
            assert_eq!(lines, vec![&b""[..], &b"\\usepackage{a}"[..], &b""[..]]);
        }
        other => panic!("document expected, got {}", kind(&other)),
    }
}

#[test]
fn bib_entry_fields() {
    let src = b"@article{knuth74, author = {Knuth, Donald}, title = {Computer Programming}, year = {1974}, pages = {10--20}, zzz = {ignored}}";
    match bib_entry(src, 0) {
        Parsed::Done(p, e) => {
            assert_eq!(p, src.len());
            assert_eq!(slice(src, e.tag), b"knuth74");
            assert_eq!(slice(src, e.title.expect("title")), b"Computer Programming");
            assert_eq!(slice(src, e.year.expect("year")), b"1974");
            let authors = e.authors.expect("authors");
            assert_eq!(authors.len(), 1);
            assert_eq!(slice(src, authors[0].last_name), b"Knuth");
            let pages = e.pages.expect("pages");
            assert_eq!(pages.first, 10);
            assert_eq!(pages.last, Some(20));
        }
        other => panic!("entry expected, got {}", kind(&other)),
    }
}

#[test]
fn bib_duplicate_field_is_fatal() {
    let src = b"@misc{x, title = {a}, title = {b}}";
    match bib_entry(src, 0) {
        Parsed::Fatal(_) => {}
        other => panic!("duplicate field must be fatal, got {}", kind(&other)),
    }
}

#[test]
fn bib_multiple_entries() {
    let src = b"@misc{a, title = {A}}\n@book{b, title = {B}}\n";
    match bib(src, 0) {
        Parsed::Done(_, entries) => {
            assert_eq!(entries.len(), 2);
            assert_eq!(slice(src, entries[0].tag), b"a");
            assert_eq!(slice(src, entries[1].tag), b"b");
        }
        other => panic!("bibliography expected, got {}", kind(&other)),
    }
}

#[test]
fn raw_command_arg_tracks_nesting() {
    let src = b"a{b}c}rest";
    match raw_command_arg(src, 0) {
        Parsed::Done(p, sp) => {
            assert_eq!(p, 5);
            assert_eq!(slice(src, sp), b"a{b}c");
        }
        _ => panic!("raw argument expected"),
    }
}

#[test]
fn ignore_marker_without_line_break_is_fatal() {
    let src = b"\\documentclass{a}\n\\begin{document}\ntext\n% LATEX_TO_HTML_IGNORE";
    match document(src, 0) {
        Parsed::Fatal(_) => {}
        other => panic!("expected a fatal error, got {}", kind(&other)),
    }
}

#[test]
fn unclosed_environment_is_fatal() {
    let src = b"\\documentclass{a}\n\\begin{document}\n\\begin{abstract}\ntext\n\\end{document}\n";
    match document(src, 0) {
        Parsed::Fatal(_) => {}
        other => panic!("expected a fatal error, got {}", kind(&other)),
    }
}

#[test]
fn double_dollar_display_math() {
    let src = b"$$ \\label{eq:d} x+y  $$";
    match latex_to_html::parse::display_math_double_dollar(src, 0) {
        Parsed::Done(p, Math::Display { source, label }) => {
            assert_eq!(p, src.len());
            assert_eq!(slice(src, label.expect("label")), b"eq:d");
            // trailing whitespace is not part of the formula
            assert_eq!(slice(src, source), b"x+y");
        }
        _ => panic!("display math expected"),
    }
}

#[test]
fn cite_with_several_ids_and_text() {
    let src = b"\\cite[page 3]{a, b}";
    match latex_to_html::parse::cite(src, 0) {
        Parsed::Done(p, ParagraphPart::Cite { ids, text }) => {
            assert_eq!(p, src.len());
            assert_eq!(ids.len(), 2);
            assert_eq!(slice(src, ids[0]), b"a");
            assert_eq!(slice(src, ids[1]), b"b");
            assert!(text.is_some());
        }
        _ => panic!("citation expected"),
    }
}

#[test]
fn theorem_note_and_label() {
    let src = b"\\documentclass{a}\n\\begin{document}\n\\begin{lemma}[Zorn]\n\\label{lem:z}\nbody\n\\end{lemma}\n\\end{document}\n";
    match document(src, 0) {
        Parsed::Done(_, doc) => match &doc.parts[0] {
            DocumentPart::TheoremLike { tag, note, content, label } => {
                assert_eq!(tag.as_slice(), b"lemma");
                assert!(note.is_some());
                assert_eq!(content.len(), 1);
                assert_eq!(slice(src, label.expect("label")), b"lem:z");
            }
            other => panic!("theorem-like expected, got {:?}", other),
        },
        other => panic!("document expected, got {}", kind(&other)),
    }
}

#[test]
fn math_label_accessor() {
    let sp = Span { start: 3, end: 7 };
    let label = Span { start: 1, end: 2 };
    assert_eq!(Math::Inline(sp).label(), None);
    assert_eq!(
        Math::Display { source: sp, label: Some(label) }.label(),
        Some(label)
    );
    assert_eq!(Math::Mathpar { source: sp, label: None }.label(), None);
}

#[test]
fn theorem_without_content_is_fatal() {
    // the grammar asks for one or more content paragraphs
    let src = b"\\documentclass{a}\n\\begin{document}\n\\begin{theorem}\n\\end{theorem}\n\\end{document}\n";
    match document(src, 0) {
        Parsed::Fatal(_) => {}
        other => panic!("expected a fatal error, got {}", kind(&other)),
    }
}

#[test]
fn missing_documentclass_is_fatal_with_position() {
    let src = b"hello";
    match document(src, 0) {
        Parsed::Fatal(at) => assert_eq!(at, 0),
        other => panic!("expected a fatal error, got {}", kind(&other)),
    }
}

#[test]
fn missing_document_body_is_fatal() {
    let src = b"\\documentclass{a}\n\\usepackage{x}\n";
    match document(src, 0) {
        Parsed::Fatal(at) => assert_eq!(at, src.len()),
        other => panic!("expected a fatal error, got {}", kind(&other)),
    }
}
