//! The math rendering cache: digests, planning, atomic publication,
//! geometry records, wrapper documents, and the preamble bisection.
use latex_to_html::ast::NodeLists;
use latex_to_html::bisect::{PreambleBisection, has_even_curly_braces, split_preamble};
use latex_to_html::cache::{CacheStore, SvgGeom, append_geometry_rule, plan_new_math};
use latex_to_html::digest::{MathDigest, hash_math, math_image_path};
use latex_to_html::parse::{Parsed, document};
use latex_to_html::span::Span;
use latex_to_html::svg::{baseline_from_transform, parse_decimal_milli, pt_attr_to_milli_em};
use latex_to_html::texgen::{latex_document, math_body, needs_preflight, relevant_lines};
use latex_to_html::text::u64_to_dec;
use sha2::Digest;

fn parse_doc(src: &[u8]) -> latex_to_html::ast::Document {
    match document(src, 0) {
        Parsed::Done(_, doc) => doc,
        _ => panic!("document did not parse"),
    }
}

fn spans_of(lines: &[&[u8]]) -> (Vec<u8>, Vec<Span>) {
    let mut buf: Vec<u8> = Vec::new();
    let mut spans: Vec<Span> = Vec::new();
    for line in lines {
        let start = buf.len();
        buf.extend_from_slice(line);
        spans.push(Span { start, end: buf.len() });
    }
    (buf, spans)
}

#[test]
fn digest_matches_direct_computation() {
    let (buf, spans) = spans_of(&[b"\\usepackage{x}", b"x + y"]);
    let preamble = vec![spans[0]];
    let math = latex_to_html::ast::Math::Display {
        source: spans[1],
        label: None,
    };
    let digest = hash_math(&buf, &preamble, &math);
    let mut hasher = sha2::Sha256::new();
    hasher.update(b"\\usepackage{x}");
    hasher.update([1u8]);
    hasher.update(b"x + y");
    let expected: Vec<u8> = hasher.finalize().to_vec();
    assert_eq!(digest.0, expected);
    let path = math_image_path(&digest);
    let expected_path = format!("img-math/{}.svg", hex::encode(&expected));
    assert_eq!(path, expected_path.as_bytes());
}

#[test]
fn dedup_same_formula_compiled_once() {
    let src = b"\\documentclass{a}\n\\begin{document}\n\\begin{equation}\nx=1\n\\end{equation}\ntext\n\\begin{equation}\nx=1\n\\end{equation}\n\\end{document}\n";
    let doc = parse_doc(src);
    let node_lists = NodeLists::new(&doc);
    assert_eq!(node_lists.math.len(), 2);
    let store = CacheStore::new();
    let plan = plan_new_math(src, &doc.preamble, &node_lists.math, &store);
    assert_eq!(plan, vec![0]);
}

#[test]
fn idempotent_cache_never_recompiles() {
    let src = b"\\documentclass{a}\n\\begin{document}\n$x$\n\\end{document}\n";
    let doc = parse_doc(src);
    let node_lists = NodeLists::new(&doc);
    let mut store = CacheStore::new();
    let plan = plan_new_math(src, &doc.preamble, &node_lists.math, &store);
    assert_eq!(plan, vec![0]);
    // render and publish the one formula
    let digest = hash_math(src, &doc.preamble, &node_lists.math[0]);
    store.begin_temp(&digest);
    store.seal_temp(&digest);
    store.publish(&digest);
    assert!(store.has(&digest));
    // a second run compiles nothing
    let plan = plan_new_math(src, &doc.preamble, &node_lists.math, &store);
    assert_eq!(plan, Vec::<usize>::new());
}

#[test]
fn crash_before_rename_leaves_no_file() {
    let digest = MathDigest(vec![0xabu8; 32]);
    let mut store = CacheStore::new();
    store.begin_temp(&digest);
    // the crash happens between the write and the rename
    store.crash();
    assert!(!store.has(&digest));
    // a completed publication survives
    store.begin_temp(&digest);
    store.seal_temp(&digest);
    store.publish(&digest);
    store.crash();
    assert!(store.has(&digest));
}

#[test]
fn geometry_rule_exact_text() {
    let digest = MathDigest(vec![0x12u8, 0xef]);
    let geom = SvgGeom {
        width_milli_em: 1250,
        height_milli_em: 500,
        baseline_milli_em: Some(250),
    };
    let mut css: Vec<u8> = b"old".to_vec();
    append_geometry_rule(&mut css, &digest, &geom);
    let expected = "old\
img[src$=\"12ef.svg\"] {\n    width: 1.25em;\n    height: 0.5em;\n    top: 0.25em;\n}\n";
    assert_eq!(css, expected.as_bytes());
}

#[test]
fn geometry_rule_block_level_has_zero_top() {
    let digest = MathDigest(vec![0x00u8]);
    let geom = SvgGeom {
        width_milli_em: 2000,
        height_milli_em: 1000,
        baseline_milli_em: None,
    };
    let mut css: Vec<u8> = Vec::new();
    append_geometry_rule(&mut css, &digest, &geom);
    let expected = "img[src$=\"00.svg\"] {\n    width: 2em;\n    height: 1em;\n    top: 0em;\n}\n";
    assert_eq!(css, expected.as_bytes());
}

#[test]
fn wrapper_document_exact_text() {
    let (buf, spans) = spans_of(&[b"\\usepackage{x}", b"\\usepackage{y}"]);
    let body = b"$1$";
    let out = latex_document(&buf, &spans.to_vec(), body);
    let expected = "\\documentclass{minimal}\n\\usepackage{x}\n\\usepackage{y}\n\\usepackage{mathtools}\n\\mathtoolsset{showonlyrefs}\n\\begin{document}\n$1$\n\\end{document}\n";
    assert_eq!(out, expected.as_bytes());
}

#[test]
fn inline_math_body_carries_baseline_marker() {
    let (buf, spans) = spans_of(&[b"x+y"]);
    let m = latex_to_html::ast::Math::Inline(spans[0]);
    let out = math_body(&buf, &m);
    assert_eq!(out, b"$\\makebox[0pt][l]{\\rule{1pt}{1pt}}x+y$\n");
    let d = latex_to_html::ast::Math::Display {
        source: spans[0],
        label: None,
    };
    assert_eq!(math_body(&buf, &d), b"x+y");
}

#[test]
fn preflight_threshold() {
    assert!(!needs_preflight(16));
    assert!(needs_preflight(17));
}

#[test]
fn output_diff_keeps_incremental_signal() {
    let out = vec![b"same".to_vec(), b"different".to_vec(), b"extra".to_vec()];
    let default = vec![b"same".to_vec(), b"other".to_vec()];
    let kept = relevant_lines(&out, &default);
    assert_eq!(kept, vec![b"different".to_vec(), b"extra".to_vec()]);
}

#[test]
fn bisection_finds_the_broken_line() {
    // five preamble lines; only the third is malformed
    let (buf, spans) = spans_of(&[b"\\usepackage{a}", b"\\usepackage{b}", b"\\broken",
        b"\\usepackage{d}", b"\\usepackage{e}"]);
    let preamble = spans.to_vec();
    let mut bisection = PreambleBisection::new(preamble.len());
    let mut compiles: usize = 0;
    while let Some(split) = bisection.next_split(&buf, &preamble) {
        // the prefix compiles exactly when it excludes the broken line
        let success = split <= 2;
        bisection.record(split, success);
        compiles += 1;
        assert!(compiles <= preamble.len() + 1);
    }
    assert_eq!(bisection.known_good, 2);
    assert_eq!(bisection.known_bad, 3);
}

#[test]
fn split_candidates_are_brace_balanced() {
    // the midpoint split would cut the brace group open on line 2
    let (buf, spans) = spans_of(&[b"\\a", b"\\b{", b"}", b"\\d"]);
    let preamble = spans.to_vec();
    match split_preamble(&buf, &preamble, 0, preamble.len()) {
        Some(s) => {
            assert!(has_even_curly_braces(&buf, &preamble, 0, s));
        }
        None => panic!("a balanced split exists"),
    }
    assert!(has_even_curly_braces(&buf, &preamble, 0, 3));
    assert!(!has_even_curly_braces(&buf, &preamble, 0, 2));
}

#[test]
fn decimal_parsing_exact_values() {
    assert_eq!(parse_decimal_milli(b"123.456789"), Some(123456));
    assert_eq!(parse_decimal_milli(b"-0.5"), Some(-500));
    assert_eq!(parse_decimal_milli(b"42"), Some(42000));
    assert_eq!(parse_decimal_milli(b""), None);
    assert_eq!(parse_decimal_milli(b"1."), None);
    assert_eq!(parse_decimal_milli(b"x1"), None);
    assert_eq!(pt_attr_to_milli_em(b"123.456pt"), Some(12345));
    assert_eq!(pt_attr_to_milli_em(b"10pt"), Some(1000));
    assert_eq!(pt_attr_to_milli_em(b"10px"), None);
}

#[test]
fn baseline_read_from_transform() {
    // y translation -324.178807pt: baseline = (y + 0.5) / 10 em, toward zero
    let r = baseline_from_transform(b"matrix(1,0,0,1,-222.321986,-324.178807)");
    assert_eq!(r, Some(-32367));
    let r = baseline_from_transform(b"matrix(1,0,0,1,0,62.5)");
    assert_eq!(r, Some(6300));
    assert_eq!(baseline_from_transform(b"nonsense"), None);
}

#[test]
fn decimal_rendering() {
    assert_eq!(u64_to_dec(0), b"0");
    assert_eq!(u64_to_dec(42), b"42");
    assert_eq!(u64_to_dec(12345), b"12345");
}

#[test]
fn split_preamble_refuses_unsplittable_ranges() {
    // a single line cannot be split
    let (buf, spans) = spans_of(&[b"\\usepackage{a}"]);
    assert_eq!(split_preamble(&buf, &spans, 0, 1), None);
    // no interior split point is brace-balanced
    let (buf, spans) = spans_of(&[b"{", b"x", b"}"]);
    assert_eq!(split_preamble(&buf, &spans, 0, 3), None);
}

#[test]
fn geometry_rule_negative_top() {
    let digest = MathDigest(vec![0x01u8]);
    let geom = SvgGeom {
        width_milli_em: 100,
        height_milli_em: 100,
        baseline_milli_em: Some(1100),
    };
    let mut css: Vec<u8> = Vec::new();
    append_geometry_rule(&mut css, &digest, &geom);
    let expected =
        "img[src$=\"01.svg\"] {\n    width: 0.1em;\n    height: 0.1em;\n    top: -1em;\n}\n";
    assert_eq!(css, expected.as_bytes());
}

#[test]
fn digests_differ_when_preamble_differs() {
    let (buf, spans) = spans_of(&[b"\\usepackage{x}", b"\\usepackage{y}", b"f"]);
    let math = latex_to_html::ast::Math::Inline(spans[2]);
    let d1 = hash_math(&buf, &vec![spans[0]], &math);
    let d2 = hash_math(&buf, &vec![spans[1]], &math);
    assert_ne!(d1.0, d2.0);
}
