//! Numbering, reference resolution and bibliography ordering on parsed
//! documents.
use latex_to_html::analysis::{
    Analysis, doc_part_numbering, lookup_display_text, math_numbering,
};
use latex_to_html::ast::NodeLists;
use latex_to_html::parse::{Parsed, bib, document};

fn parse_doc(src: &[u8]) -> latex_to_html::ast::Document {
    match document(src, 0) {
        Parsed::Done(p, doc) => {
            assert_eq!(p, src.len());
            doc
        }
        Parsed::Fail => panic!("document did not parse"),
        Parsed::Fatal(at) => panic!("fatal parse error at byte {}", at),
    }
}

#[test]
fn numbering_sections_and_theorems() {
    let src = b"\\documentclass{article}\n\\begin{document}\n\\section{One}\n\\subsection{A}\n\\begin{theorem}\nt\n\\end{theorem}\n\\begin{lemma}\nl\n\\end{lemma}\n\\section{Two}\n\\subsection{B}\n\\end{document}\n";
    let doc = parse_doc(src);
    let numbering = doc_part_numbering(&doc);
    let shown: Vec<Option<&[u8]>> = numbering
        .iter()
        .map(|o| o.as_ref().map(|v| v.as_slice()))
        .collect();
    assert_eq!(
        shown,
        vec![
            Some(&b"1"[..]),
            Some(&b"1.1"[..]),
            Some(&b"1"[..]),
            Some(&b"2"[..]),
            Some(&b"2"[..]),
            Some(&b"2.1"[..]),
        ]
    );
}

#[test]
fn subsection_counter_resets_per_section() {
    let src = b"\\documentclass{article}\n\\begin{document}\n\\section{One}\n\\subsection{A}\n\\subsection{B}\n\\section{Two}\n\\subsection{C}\n\\end{document}\n";
    let doc = parse_doc(src);
    let numbering = doc_part_numbering(&doc);
    let shown: Vec<Option<&[u8]>> = numbering
        .iter()
        .map(|o| o.as_ref().map(|v| v.as_slice()))
        .collect();
    assert_eq!(
        shown,
        vec![
            Some(&b"1"[..]),
            Some(&b"1.1"[..]),
            Some(&b"1.2"[..]),
            Some(&b"2"[..]),
            Some(&b"2.1"[..]),
        ]
    );
}

#[test]
fn selective_equation_numbering() {
    let src = b"\\documentclass{article}\n\\begin{document}\nsee \\eqref{eq:a}\n\\begin{equation}\n\\label{eq:a}\nx=1\n\\end{equation}\n\\begin{equation}\n\\label{eq:b}\ny=2\n\\end{equation}\n\\end{document}\n";
    let doc = parse_doc(src);
    let node_lists = NodeLists::new(&doc);
    assert_eq!(node_lists.math.len(), 2);
    let numbering = math_numbering(&node_lists, src);
    // the referenced equation gets the first number, the unreferenced one none
    assert_eq!(numbering[0].as_ref().map(|v| v.as_slice()), Some(&b"(1)"[..]));
    assert_eq!(numbering[1], None);
    // the reference site shows exactly that number
    let analysis = Analysis::new(src, b"", &doc, &Vec::new(), &node_lists);
    let shown = lookup_display_text(&analysis.ref_display_text, b"eq:a");
    assert_eq!(shown.as_ref().map(|v| v.as_slice()), Some(&b"(1)"[..]));
    assert_eq!(lookup_display_text(&analysis.ref_display_text, b"eq:b"), None);
}

#[test]
fn item_labels_resolve_to_positions() {
    let src = b"\\documentclass{article}\n\\begin{document}\nsee \\ref{it:two}\n\\begin{enumerate}\n\\item \\label{it:one} a\n\\item \\label{it:two} b\n\\end{enumerate}\n\\end{document}\n";
    let doc = parse_doc(src);
    let node_lists = NodeLists::new(&doc);
    let analysis = Analysis::new(src, b"", &doc, &Vec::new(), &node_lists);
    let one = lookup_display_text(&analysis.ref_display_text, b"it:one");
    let two = lookup_display_text(&analysis.ref_display_text, b"it:two");
    assert_eq!(one.as_ref().map(|v| v.as_slice()), Some(&b"1"[..]));
    assert_eq!(two.as_ref().map(|v| v.as_slice()), Some(&b"2"[..]));
}

#[test]
fn three_records() {
    // authorless entries sort first, the rest by their author lists
    let tex = b"\\documentclass{article}\n\\begin{document}\n\\cite{b} \\cite{a} \\cite{c}\n\\end{document}\n";
    let bib_src = b"@misc{b, author = {Smith, John}}\n@misc{a, title = {T}}\n@misc{c, author = {Adams, John}}\n";
    let doc = parse_doc(tex);
    let entries = match bib(bib_src, 0) {
        Parsed::Done(_, entries) => entries,
        _ => panic!("bibliography did not parse"),
    };
    assert_eq!(entries.len(), 3);
    let node_lists = NodeLists::new(&doc);
    let analysis = Analysis::new(tex, bib_src, &doc, &entries, &node_lists);
    // input order is b, a, c; display order is a, c, b
    assert_eq!(analysis.bib_entries, vec![1, 2, 0]);
    let texts: Vec<(&[u8], &[u8])> = analysis
        .cite_display_text
        .iter()
        .map(|(k, v)| (k.as_slice(), v.as_slice()))
        .collect();
    assert_eq!(
        texts,
        vec![
            (&b"a"[..], &b"[1]"[..]),
            (&b"c"[..], &b"[2]"[..]),
            (&b"b"[..], &b"[3]"[..]),
        ]
    );
}

#[test]
fn uncited_entries_are_dropped() {
    let tex = b"\\documentclass{article}\n\\begin{document}\n\\cite{x}\n\\end{document}\n";
    let bib_src = b"@misc{x, title = {X}}\n@misc{y, title = {Y}}\n";
    let doc = parse_doc(tex);
    let entries = match bib(bib_src, 0) {
        Parsed::Done(_, entries) => entries,
        _ => panic!("bibliography did not parse"),
    };
    let node_lists = NodeLists::new(&doc);
    let analysis = Analysis::new(tex, bib_src, &doc, &entries, &node_lists);
    assert_eq!(analysis.bib_entries, vec![0]);
}

#[test]
fn first_label_definition_wins() {
    let src = b"\\documentclass{article}\n\\begin{document}\nsee \\ref{dup}\n\\section{One}\n\\label{dup}\n\\section{Two}\n\\label{dup}\n\\end{document}\n";
    let doc = parse_doc(src);
    let node_lists = NodeLists::new(&doc);
    let analysis = Analysis::new(src, b"", &doc, &Vec::new(), &node_lists);
    let shown = lookup_display_text(&analysis.ref_display_text, b"dup");
    assert_eq!(shown.as_ref().map(|v| v.as_slice()), Some(&b"1"[..]));
}

#[test]
fn registry_lists_note_formulas_before_content() {
    // the bracketed note appears before the content in the source, so its
    // formula comes first in the registry
    let src = b"\\documentclass{a}\n\\begin{document}\n\\begin{theorem}[see $n$]\nbody $c$\n\\end{theorem}\n\\end{document}\n";
    let doc = parse_doc(src);
    let node_lists = NodeLists::new(&doc);
    assert_eq!(node_lists.math.len(), 2);
    let first = node_lists.math[0].source_span();
    let second = node_lists.math[1].source_span();
    assert_eq!(&src[first.start..first.end], b"n");
    assert_eq!(&src[second.start..second.end], b"c");
    assert!(first.start < second.start);
}

#[test]
fn math_image_sources_assigned_to_every_formula() {
    let src = b"\\documentclass{article}\n\\begin{document}\n$a$ and $a$\n\\end{document}\n";
    let doc = parse_doc(src);
    let node_lists = NodeLists::new(&doc);
    let analysis = Analysis::new(src, b"", &doc, &Vec::new(), &node_lists);
    assert_eq!(analysis.math_image_source.len(), 2);
    // identical formulas under the same preamble share one image file
    assert_eq!(analysis.math_image_source[0], analysis.math_image_source[1]);
    let path = &analysis.math_image_source[0];
    assert!(path.starts_with(b"img-math/"));
    assert!(path.ends_with(b".svg"));
    // an image path embeds a 64-digit hex digest
    assert_eq!(path.len(), "img-math/".len() + 64 + ".svg".len());
}
