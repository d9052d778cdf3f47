//! Building the wrapper documents handed to the typesetting toolchain, and
//! filtering its output.
//!
//! Every compile wraps its body in a minimal document built from the
//! preamble; an inline formula additionally carries an invisible zero-width
//! marker box whose position in the rendered output reveals the text
//! baseline. When a compile fails, its output is compared position-aligned
//! against the preamble-only compile's output, so that only the
//! formula-specific signal is reported.
use crate::ast::Math;
use crate::span::Span;
use crate::text::{ascii_bytes, push_bytes, str_bytes};
use vstd::prelude::*;

verus! {

/// The preamble lines joined with newlines.
pub open spec fn preamble_joined(lines: Seq<Span>, src: Seq<u8>) -> Seq<u8>
    decreases lines.len(),
{
    if lines.len() == 0 {
        seq![]
    } else if lines.len() == 1 {
        lines[0].text(src)
    } else {
        preamble_joined(lines.drop_last(), src) + seq![10u8] + lines.last().text(src)
    }
}

/// The full wrapper document for one compile: a minimal document class, the
/// preamble, the equation-number setup, and the body.
pub open spec fn spec_latex_document(preamble: Seq<Span>, src: Seq<u8>, body: Seq<u8>) -> Seq<u8> {
    ascii_bytes("\\documentclass{minimal}\n"@) + preamble_joined(preamble, src) + ascii_bytes(
        "\n\\usepackage{mathtools}\n\\mathtoolsset{showonlyrefs}\n\\begin{document}\n"@,
    ) + body + ascii_bytes("\n\\end{document}\n"@)
}

/// Builds the wrapper document for one compile.
pub fn latex_document(src: &[u8], preamble: &Vec<Span>, body: &[u8]) -> (r: Vec<u8>)
    requires
        forall|i: int| 0 <= i < preamble@.len() ==> (#[trigger] preamble@[i]).wf(src@.len()),
    ensures
        r@ == spec_latex_document(preamble@, src@, body@),
{
    proof {
        reveal_strlit("\\documentclass{minimal}\n");
        reveal_strlit("\n\\usepackage{mathtools}\n\\mathtoolsset{showonlyrefs}\n\\begin{document}\n");
        reveal_strlit("\n\\end{document}\n");
    }
    let mut out: Vec<u8> = Vec::new();
    push_bytes(&mut out, str_bytes("\\documentclass{minimal}\n"));
    let ghost head = out@;
    let mut i: usize = 0;
    while i < preamble.len()
        invariant
            i <= preamble@.len(),
            forall|k: int| 0 <= k < preamble@.len() ==> (#[trigger] preamble@[k]).wf(src@.len()),
            head == ascii_bytes("\\documentclass{minimal}\n"@),
            out@ == head + preamble_joined(preamble@.subrange(0, i as int), src@),
        decreases preamble@.len() - i,
    {
        if i > 0 {
            out.push(10u8);
        }
        push_bytes(&mut out, preamble[i].slice(src));
        proof {
            let sub = preamble@.subrange(0, i + 1);
            assert(sub.drop_last() =~= preamble@.subrange(0, i as int));
            assert(sub.last() == preamble@[i as int]);
            if i == 0 {
                assert(sub.len() == 1);
                assert(sub[0] == preamble@[0]);
            }
            assert(out@ =~= head + preamble_joined(sub, src@));
        }
        i += 1;
    }
    proof {
        assert(preamble@.subrange(0, preamble@.len() as int) =~= preamble@);
    }
    push_bytes(
        &mut out,
        str_bytes("\n\\usepackage{mathtools}\n\\mathtoolsset{showonlyrefs}\n\\begin{document}\n"),
    );
    push_bytes(&mut out, body);
    push_bytes(&mut out, str_bytes("\n\\end{document}\n"));
    proof {
        assert(out@ =~= spec_latex_document(preamble@, src@, body@));
    }
    out
}

/// The body compiled for one formula: display and mathpar formulas are
/// compiled as they stand; an inline formula carries, inside the math
/// delimiters, an invisible zero-width marker box used to locate the text
/// baseline in the rendered output.
pub open spec fn spec_math_body(m: Math, src: Seq<u8>) -> Seq<u8> {
    match m {
        Math::Inline(s) => ascii_bytes("$\\makebox[0pt][l]{\\rule{1pt}{1pt}}"@) + s.text(src)
            + ascii_bytes("$\n"@),
        Math::Display { source, .. } => source.text(src),
        Math::Mathpar { source, .. } => source.text(src),
    }
}

/// Builds the compile body for one formula.
pub fn math_body(src: &[u8], m: &Math) -> (r: Vec<u8>)
    requires
        m.wf(src@.len()),
    ensures
        r@ == spec_math_body(*m, src@),
{
    match m {
        Math::Inline(s) => {
            proof {
                reveal_strlit("$\\makebox[0pt][l]{\\rule{1pt}{1pt}}");
                reveal_strlit("$\n");
            }
            let mut out: Vec<u8> = Vec::new();
            push_bytes(&mut out, str_bytes("$\\makebox[0pt][l]{\\rule{1pt}{1pt}}"));
            push_bytes(&mut out, s.slice(src));
            push_bytes(&mut out, str_bytes("$\n"));
            proof {
                assert(out@ =~= spec_math_body(*m, src@));
            }
            out
        },
        Math::Display { source, .. } => vstd::slice::slice_to_vec(source.slice(src)),
        Math::Mathpar { source, .. } => vstd::slice::slice_to_vec(source.slice(src)),
    }
}

/// A preamble preflight is worth its cost only when many formulas would
/// otherwise each fail with the same confusing error.
pub const PREFLIGHT_THRESHOLD: usize = 16;

/// Whether to compile a trivial dummy formula first, so that a broken
/// preamble is reported once instead of once per formula.
pub fn needs_preflight(new_count: usize) -> (r: bool)
    ensures
        r == (new_count > 16),
{
    new_count > PREFLIGHT_THRESHOLD
}

/// The lines of a failing compile's output that carry formula-specific
/// signal: a line is kept when the preamble-only compile did not produce
/// the same line at the same position.
pub open spec fn spec_relevant_lines(out: Seq<Seq<u8>>, default: Seq<Seq<u8>>, n: int) -> Seq<
    Seq<u8>,
>
    decreases n,
{
    if n <= 0 {
        seq![]
    } else {
        let prefix = spec_relevant_lines(out, default, n - 1);
        if n - 1 >= default.len() || out[n - 1] != default[n - 1] {
            prefix + seq![out[n - 1]]
        } else {
            prefix
        }
    }
}

/// Filters a failing compile's output lines against the preamble-only
/// compile's output, position-aligned, keeping only the incremental signal.
pub fn relevant_lines(out_lines: &Vec<Vec<u8>>, default_lines: &Vec<Vec<u8>>) -> (r: Vec<Vec<u8>>)
    ensures
        crate::analysis::vecs_view(r@) == spec_relevant_lines(
            crate::analysis::vecs_view(out_lines@),
            crate::analysis::vecs_view(default_lines@),
            out_lines@.len() as int,
        ),
{
    let ghost ov = crate::analysis::vecs_view(out_lines@);
    let ghost dv = crate::analysis::vecs_view(default_lines@);
    let mut r: Vec<Vec<u8>> = Vec::new();
    let mut i: usize = 0;
    proof {
        assert(crate::analysis::vecs_view(r@) =~= spec_relevant_lines(ov, dv, 0));
    }
    while i < out_lines.len()
        invariant
            i <= out_lines@.len(),
            ov == crate::analysis::vecs_view(out_lines@),
            dv == crate::analysis::vecs_view(default_lines@),
            crate::analysis::vecs_view(r@) == spec_relevant_lines(ov, dv, i as int),
        decreases out_lines@.len() - i,
    {
        let keep = if i >= default_lines.len() {
            true
        } else {
            !crate::text::bytes_eq(out_lines[i].as_slice(), default_lines[i].as_slice())
        };
        proof {
            assert(ov[i as int] == out_lines@[i as int]@);
            if i < default_lines@.len() {
                assert(dv[i as int] == default_lines@[i as int]@);
            }
        }
        if keep {
            r.push(vstd::slice::slice_to_vec(out_lines[i].as_slice()));
            proof {
                assert(crate::analysis::vecs_view(r@) =~= spec_relevant_lines(ov, dv, i + 1));
            }
        } else {
            proof {
                assert(crate::analysis::vecs_view(r@) =~= spec_relevant_lines(ov, dv, i + 1));
            }
        }
        i += 1;
    }
    r
}

} // verus!
