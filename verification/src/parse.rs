//! The recursive-descent parser: from source bytes to the document tree.
//!
//! Every parsing function takes the source buffer and a byte position and
//! reports one of three outcomes: a match ending at a new position, a
//! recoverable failure (the caller may try another alternative), or a fatal
//! error at a byte offset. Once a construct's unique opening token has
//! matched (`\begin{theorem}`, the line-ignore marker), failure inside it is
//! fatal: the input can no longer parse as anything else, and the offset
//! points at the first unexpected token.
//!
//! Leaf tokens are never copied: each carries the span of the bytes the
//! parser consumed for it, so slicing the span out of the source buffer
//! reproduces exactly the consumed text.
use crate::ast::{
    Document, DocumentConfig, DocumentPart, Item, Math, Paragraph, ParagraphPart, TheoremLikeConfig,
    TheoremStyle, TokenText, wf_par_part, wf_paragraph, wf_paragraphs, wf_items, wf_doc_part,
    wf_span_opt, BibEntry, BibEntryItem, BibEntryType, BibPerson, FirstName, BibPages,
};
use crate::span::Span;
use vstd::prelude::*;

verus! {

/// The outcome of one parse attempt at a position: a match ending at a new
/// cursor position, a recoverable failure, or a fatal error at an offset.
pub enum Parsed<T> {
    Done(usize, T),
    Fail,
    Fatal(usize),
}

/// The bytes consumed between two cursor positions: the half-open byte
/// range `[before, after)` of the original source.
pub fn consumed_slice(before: usize, after: usize) -> (r: Span)
    requires
        before <= after,
    ensures
        r.start == before,
        r.end == after,
{
    Span { start: before, end: after }
}

/// Every outcome respects the buffer: a match moves the cursor forward and
/// stays inside the buffer, a fatal error points inside it.
pub open spec fn bounds<T>(r: Parsed<T>, pos: int, len: int) -> bool {
    match r {
        Parsed::Done(p2, _) => pos <= p2 <= len,
        Parsed::Fail => true,
        Parsed::Fatal(at) => at <= len,
    }
}

/// A match consumed at least one byte.
pub open spec fn progress<T>(r: Parsed<T>, pos: int) -> bool {
    match r {
        Parsed::Done(p2, _) => p2 > pos,
        _ => true,
    }
}

pub open spec fn is_nb_ws(b: u8) -> bool {
    b == 32 || b == 9
}

/// Where a run of spaces and tabs starting at `pos` ends.
pub open spec fn nb_ws_end(src: Seq<u8>, pos: int) -> int
    decreases src.len() - pos,
{
    if 0 <= pos < src.len() && is_nb_ws(src[pos]) {
        nb_ws_end(src, pos + 1)
    } else {
        pos
    }
}

/// Where the line starting at `pos` ends: the next newline, or the end of
/// the buffer.
pub open spec fn line_end(src: Seq<u8>, pos: int) -> int
    decreases src.len() - pos,
{
    if 0 <= pos < src.len() && src[pos] != 10 {
        line_end(src, pos + 1)
    } else {
        pos
    }
}

/// The byte at `i` opens whitespace or a comment: what [`any_ws`] consumes.
pub open spec fn ws_or_comment_at(src: Seq<u8>, i: int) -> bool {
    0 <= i < src.len() && (src[i] == 32 || src[i] == 9 || src[i] == 10 || src[i] == 37)
}

/// The input at `pos` starts with the command `\name`.
pub open spec fn command_at(src: Seq<u8>, pos: int, name: Seq<u8>) -> bool {
    &&& 0 <= pos < src.len()
    &&& src[pos] == 92
    &&& pos + 1 + name.len() <= src.len()
    &&& src.subrange(pos + 1, pos + 1 + name.len()) == name
}

/// The input at `pos` is exactly `\name{` with the argument following
/// immediately: no whitespace or comment stands between the tokens.
pub open spec fn tight_command_open_at(src: Seq<u8>, pos: int, name: Seq<u8>) -> bool {
    &&& command_at(src, pos, name)
    &&& pos + 1 + name.len() < src.len()
    &&& src[pos + 1 + name.len()] == 123
    &&& !ws_or_comment_at(src, pos + 2 + name.len())
}

/// The input at `pos` is exactly `\name{id}` with a nonempty id of label
/// characters and no whitespace between the tokens: on such input the
/// command parsers promise success.
pub open spec fn simple_arg_command_at(src: Seq<u8>, pos: int, name: Seq<u8>) -> bool {
    &&& tight_command_open_at(src, pos, name)
    &&& {
        let s = pos + 2 + name.len();
        let e = label_end(src, s);
        &&& e > s
        &&& e < src.len()
        &&& src[e] == 125
    }
}

/// Consumes spaces and tabs, exactly up to [`nb_ws_end`]; never fails.
fn non_breaking_ws(src: &[u8], pos: usize) -> (r: usize)
    requires
        pos <= src@.len(),
    ensures
        pos <= r <= src@.len(),
        r == nb_ws_end(src@, pos as int),
        forall|k: int| pos <= k < r ==> is_nb_ws(#[trigger] src@[k]),
{
    let mut p = pos;
    while p < src.len() && (src[p] == 32 || src[p] == 9)
        invariant
            pos <= p <= src@.len(),
            nb_ws_end(src@, pos as int) == nb_ws_end(src@, p as int),
            forall|k: int| pos <= k < p ==> is_nb_ws(#[trigger] src@[k]),
        decreases src@.len() - p,
    {
        p += 1;
    }
    p
}

/// Consumes one plain comment: `%` up to the end of the line, the newline
/// excluded.
fn comment(src: &[u8], pos: usize) -> (r: Parsed<()>)
    requires
        pos <= src@.len(),
    ensures
        bounds(r, pos as int, src@.len() as int),
        progress(r, pos as int),
        r is Fail <==> !(pos < src@.len() && src@[pos as int] == 37),
        !(r is Fatal),
        match r {
            Parsed::Done(p2, _) => p2 == line_end(src@, pos + 1),
            _ => true,
        },
{
    if pos < src.len() && src[pos] == 37 {
        let mut p = pos + 1;
        while p < src.len() && src[p] != 10
            invariant
                pos < p <= src@.len(),
                line_end(src@, pos + 1) == line_end(src@, p as int),
            decreases src@.len() - p,
        {
            p += 1;
        }
        Parsed::Done(p, ())
    } else {
        Parsed::Fail
    }
}

/// Consumes a line-ignore directive: a comment that holds exactly the
/// marker token, and then the whole next line. Once the marker has matched,
/// a missing line break is a fatal error.
fn ignore(src: &[u8], pos: usize) -> (r: Parsed<()>)
    requires
        pos <= src@.len(),
    ensures
        bounds(r, pos as int, src@.len() as int),
        progress(r, pos as int),
        !(pos < src@.len() && src@[pos as int] == 37) ==> r is Fail,
{
    if !(pos < src.len() && src[pos] == 37) {
        return Parsed::Fail;
    }
    let p = non_breaking_ws(src, pos + 1);
    proof {
        reveal_strlit("LATEX_TO_HTML_IGNORE");
    }
    let marker = crate::text::str_bytes("LATEX_TO_HTML_IGNORE");
    let p = match tag(src, p, marker) {
        Parsed::Done(p2, _) => p2,
        _ => {
            return Parsed::Fail;
        },
    };
    let p = non_breaking_ws(src, p);
    // committed: the marker is unique to this construct
    if !(p < src.len() && src[p] == 10) {
        return Parsed::Fatal(p);
    }
    let mut q = p + 1;
    while q < src.len() && src[q] != 10
        invariant
            pos < q <= src@.len(),
        decreases src@.len() - q,
    {
        q += 1;
    }
    Parsed::Done(q, ())
}

/// Matches a literal byte for byte.
fn tag(src: &[u8], pos: usize, t: &[u8]) -> (r: Parsed<()>)
    requires
        pos <= src@.len(),
    ensures
        bounds(r, pos as int, src@.len() as int),
        match r {
            Parsed::Done(p2, _) => p2 == pos + t@.len() && src@.subrange(pos as int, p2 as int)
                == t@,
            Parsed::Fail => !(pos + t@.len() <= src@.len() && src@.subrange(
                pos as int,
                pos + t@.len(),
            ) == t@),
            Parsed::Fatal(_) => false,
        },
{
    let src_len: usize = src.len();
    if t.len() > src.len() - pos {
        proof {
            assert(pos + t@.len() > src@.len());
        }
        return Parsed::Fail;
    }
    let mut i: usize = 0;
    while i < t.len()
        invariant
            src_len == src@.len(),
            pos + t@.len() <= src_len,
            i <= t@.len(),
            forall|k: int| 0 <= k < i ==> src@[pos + k] == t@[k],
        decreases t@.len() - i,
    {
        if src[pos + i] != t[i] {
            proof {
                assert(src@.subrange(pos as int, pos + t@.len())[i as int] != t@[i as int]);
            }
            return Parsed::Fail;
        }
        i += 1;
    }
    proof {
        assert(src@.subrange(pos as int, pos + t@.len()) =~= t@);
    }
    Parsed::Done(pos + t.len(), ())
}

/// Consumes inline whitespace: spaces and tabs, at most one comment, and
/// when a line break follows, any run of further comment or ignore lines.
/// The result is the span of everything consumed; the emitter later
/// collapses it to nothing, one space, or one newline.
pub struct InlineWhitespace(pub Span);

/// Consumes inline whitespace and returns its span.
pub fn inline_ws(src: &[u8], pos: usize) -> (r: Parsed<InlineWhitespace>)
    requires
        pos <= src@.len(),
    ensures
        bounds(r, pos as int, src@.len() as int),
        match r {
            Parsed::Done(p2, ws) => ws.0.start == pos && ws.0.end == p2,
            Parsed::Fail => false,
            Parsed::Fatal(_) => true,
        },
        pos == src@.len() ==> r == (Parsed::Done(pos, InlineWhitespace(Span { start: pos, end: pos }))),
{
    let p = non_breaking_ws(src, pos);
    let p = match comment(src, p) {
        Parsed::Done(p2, _) => p2,
        _ => p,
    };
    let p = if p < src.len() && src[p] == 10 {
        p + 1
    } else {
        return Parsed::Done(p, InlineWhitespace(Span { start: pos, end: p }));
    };
    let mut q: usize = p;
    loop
        invariant
            pos < q <= src@.len(),
        decreases src@.len() - q,
    {
        let w = non_breaking_ws(src, q);
        let after = match ignore(src, w) {
            Parsed::Done(p2, _) => p2,
            Parsed::Fatal(at) => {
                return Parsed::Fatal(at);
            },
            Parsed::Fail => {
                match comment(src, w) {
                    Parsed::Done(p2, _) => p2,
                    _ => {
                        break ;
                    },
                }
            },
        };
        let after = if after < src.len() && src[after] == 10 {
            after + 1
        } else {
            after
        };
        if after == q {
            break ;
        }
        q = after;
    }
    let q = non_breaking_ws(src, q);
    Parsed::Done(q, InlineWhitespace(Span { start: pos, end: q }))
}

/// Whitespace that separates paragraphs; the span records what was
/// consumed.
pub struct ParagraphBreak(pub Span);

/// Consumes any run of whitespace, comments and ignore lines.
pub fn any_ws(src: &[u8], pos: usize) -> (r: Parsed<()>)
    requires
        pos <= src@.len(),
    ensures
        bounds(r, pos as int, src@.len() as int),
        !(r is Fail),
        !ws_or_comment_at(src@, pos as int) ==> r == (Parsed::<()>::Done(pos, ())),
{
    let mut p = pos;
    loop
        invariant
            pos <= p <= src@.len(),
            !ws_or_comment_at(src@, pos as int) ==> p == pos,
        decreases src@.len() - p,
    {
        match ignore(src, p) {
            Parsed::Done(p2, _) => {
                p = p2;
                continue ;
            },
            Parsed::Fatal(at) => {
                return Parsed::Fatal(at);
            },
            Parsed::Fail => {},
        }
        match comment(src, p) {
            Parsed::Done(p2, _) => {
                p = p2;
                continue ;
            },
            _ => {},
        }
        if p < src.len() && (src[p] == 32 || src[p] == 9 || src[p] == 10) {
            p = p + 1;
            continue ;
        }
        break ;
    }
    Parsed::Done(p, ())
}

/// Matches `\name`.
fn command_name(src: &[u8], pos: usize, name: &[u8]) -> (r: Parsed<()>)
    requires
        pos <= src@.len(),
    ensures
        bounds(r, pos as int, src@.len() as int),
        progress(r, pos as int) || name@.len() > 0,
        match r {
            Parsed::Done(p2, _) => p2 == pos + 1 + name@.len() && command_at(
                src@,
                pos as int,
                name@,
            ),
            Parsed::Fail => !command_at(src@, pos as int, name@),
            Parsed::Fatal(_) => false,
        },
{
    if !(pos < src.len() && src[pos] == 92) {
        return Parsed::Fail;
    }
    match tag(src, pos + 1, name) {
        Parsed::Done(p2, _) => Parsed::Done(p2, ()),
        _ => Parsed::Fail,
    }
}

/// Matches the opening of a one-argument command: `\name`, whitespace, `{`,
/// whitespace. Recoverable until the brace has matched.
fn command_open(src: &[u8], pos: usize, name: &[u8]) -> (r: Parsed<()>)
    requires
        pos <= src@.len(),
    ensures
        bounds(r, pos as int, src@.len() as int),
        progress(r, pos as int),
        match r {
            Parsed::Done(p2, _) => command_at(src@, pos as int, name@) && p2 > pos + 1
                + name@.len(),
            _ => true,
        },
        tight_command_open_at(src@, pos as int, name@) ==> r == (Parsed::<()>::Done(
            ((pos + 2 + name@.len()) as usize),
            (),
        )),
        !(pos < src@.len() && src@[pos as int] == 92) ==> r is Fail,
{
    let p = match command_name(src, pos, name) {
        Parsed::Done(p2, _) => p2,
        _ => {
            return Parsed::Fail;
        },
    };
    let p = match any_ws(src, p) {
        Parsed::Done(p2, _) => p2,
        Parsed::Fatal(at) => {
            return Parsed::Fatal(at);
        },
        Parsed::Fail => {
            return Parsed::Fail;
        },
    };
    if !(p < src.len() && src[p] == 123) {
        return Parsed::Fail;
    }
    match any_ws(src, p + 1) {
        Parsed::Done(p2, _) => Parsed::Done(p2, ()),
        Parsed::Fatal(at) => Parsed::Fatal(at),
        Parsed::Fail => Parsed::Fail,
    }
}

/// Matches the closing of a command argument: whitespace, then `}`.
fn command_close(src: &[u8], pos: usize) -> (r: Parsed<()>)
    requires
        pos <= src@.len(),
    ensures
        bounds(r, pos as int, src@.len() as int),
        pos < src@.len() && src@[pos as int] == 125 ==> r == (Parsed::<()>::Done(
            ((pos + 1) as usize),
            (),
        )),
{
    let p = match any_ws(src, pos) {
        Parsed::Done(p2, _) => p2,
        Parsed::Fatal(at) => {
            return Parsed::Fatal(at);
        },
        Parsed::Fail => {
            return Parsed::Fail;
        },
    };
    if p < src.len() && src[p] == 125 {
        Parsed::Done(p + 1, ())
    } else {
        Parsed::Fail
    }
}

/// Where a raw command argument starting at `pos` under `nesting` open
/// braces ends: immediately before the first `}` not matched by an earlier
/// `{`, or at the end of the buffer.
pub open spec fn raw_arg_end(src: Seq<u8>, pos: int, nesting: nat) -> int
    decreases src.len() - pos,
{
    if pos < 0 || pos >= src.len() {
        pos
    } else if src[pos] == 123 {
        raw_arg_end(src, pos + 1, nesting + 1)
    } else if src[pos] == 125 {
        if nesting == 0 {
            pos
        } else {
            raw_arg_end(src, pos + 1, (nesting - 1) as nat)
        }
    } else {
        raw_arg_end(src, pos + 1, nesting)
    }
}

/// Consumes a raw command argument: everything up to the `}` that closes
/// the argument, tracking nested brace groups; never fails. The result is
/// exactly the span ending at [`raw_arg_end`].
pub fn raw_command_arg(src: &[u8], pos: usize) -> (r: Parsed<Span>)
    requires
        pos <= src@.len(),
    ensures
        bounds(r, pos as int, src@.len() as int),
        match r {
            Parsed::Done(p2, sp) => sp.start == pos && sp.end == p2 && p2 == raw_arg_end(
                src@,
                pos as int,
                0,
            ),
            _ => false,
        },
{
    let src_len: usize = src.len();
    let mut p = pos;
    let mut nesting: usize = 0;
    loop
        invariant
            pos <= p <= src_len,
            src_len == src@.len(),
            nesting <= p - pos,
            raw_arg_end(src@, pos as int, 0) == raw_arg_end(src@, p as int, nesting as nat),
        ensures
            pos <= p <= src@.len(),
            p == raw_arg_end(src@, pos as int, 0),
        decreases src@.len() - p,
    {
        if p >= src_len {
            break ;
        }
        let b = src[p];
        if b == 123 {
            nesting += 1;
        } else if b == 125 {
            if nesting == 0 {
                break ;
            }
            nesting -= 1;
        }
        p += 1;
    }
    Parsed::Done(p, Span { start: pos, end: p })
}

/// Parses `\name{raw argument}` and returns the argument's span.
pub fn raw_command(src: &[u8], pos: usize, name: &[u8]) -> (r: Parsed<Span>)
    requires
        pos <= src@.len(),
    ensures
        bounds(r, pos as int, src@.len() as int),
        progress(r, pos as int),
        match r {
            Parsed::Done(p2, sp) => sp.wf(src@.len()) && command_at(src@, pos as int, name@),
            _ => true,
        },
        !(pos < src@.len() && src@[pos as int] == 92) ==> r is Fail,
{
    let p = match command_open(src, pos, name) {
        Parsed::Done(p2, _) => p2,
        Parsed::Fatal(at) => {
            return Parsed::Fatal(at);
        },
        Parsed::Fail => {
            return Parsed::Fail;
        },
    };
    let (p, sp) = match raw_command_arg(src, p) {
        Parsed::Done(p2, sp) => (p2, sp),
        _ => {
            return Parsed::Fail;
        },
    };
    match command_close(src, p) {
        Parsed::Done(p2, _) => Parsed::Done(p2, sp),
        Parsed::Fatal(at) => Parsed::Fatal(at),
        Parsed::Fail => Parsed::Fail,
    }
}

pub open spec fn is_label_byte(b: u8) -> bool {
    b == 45 || b == 95 || b == 58 || (48 <= b <= 57) || (65 <= b <= 90) || (97 <= b <= 122)
}

/// Where a run of label characters starting at `pos` ends.
pub open spec fn label_end(src: Seq<u8>, pos: int) -> int
    decreases src.len() - pos,
{
    if 0 <= pos < src.len() && is_label_byte(src[pos]) {
        label_end(src, pos + 1)
    } else {
        pos
    }
}

/// Consumes one or more label characters (letters, digits, `-`, `_`, `:`)
/// and returns their span.
fn label_value(src: &[u8], pos: usize) -> (r: Parsed<Span>)
    requires
        pos <= src@.len(),
    ensures
        bounds(r, pos as int, src@.len() as int),
        progress(r, pos as int),
        match r {
            Parsed::Done(p2, sp) => sp.start == pos && sp.end == p2 && p2 == label_end(
                src@,
                pos as int,
            ) && forall|k: int| pos <= k < p2 ==> is_label_byte(#[trigger] src@[k]),
            Parsed::Fail => !(pos < src@.len() && is_label_byte(src@[pos as int])),
            Parsed::Fatal(_) => false,
        },
{
    let mut p = pos;
    while p < src.len() && (src[p] == 45 || src[p] == 95 || src[p] == 58 || (48 <= src[p]
        && src[p] <= 57) || (65 <= src[p] && src[p] <= 90) || (97 <= src[p] && src[p] <= 122))
        invariant
            pos <= p <= src@.len(),
            label_end(src@, pos as int) == label_end(src@, p as int),
            forall|k: int| pos <= k < p ==> is_label_byte(#[trigger] src@[k]),
        decreases src@.len() - p,
    {
        p += 1;
    }
    if p == pos {
        Parsed::Fail
    } else {
        Parsed::Done(p, Span { start: pos, end: p })
    }
}

/// Parses `\label{id}` and returns the id's span. On the tight shape
/// `\label{id}` success is promised, with the id's exact span.
fn label_command(src: &[u8], pos: usize) -> (r: Parsed<Span>)
    requires
        pos <= src@.len(),
    ensures
        bounds(r, pos as int, src@.len() as int),
        progress(r, pos as int),
        match r {
            Parsed::Done(p2, sp) => sp.wf(src@.len()) && pos < sp.start < sp.end <= p2
                && forall|k: int|
                sp.start <= k < sp.end ==> is_label_byte(#[trigger] src@[k]),
            _ => true,
        },
        simple_arg_command_at(src@, pos as int, crate::text::ascii_bytes("label"@)) ==> r == (
        Parsed::Done(
            ((label_end(src@, pos + 7) + 1) as usize),
            Span { start: ((pos + 7) as usize), end: (label_end(src@, pos + 7) as usize) },
        )),
{
    proof {
        reveal_strlit("label");
    }
    let label = crate::text::str_bytes("label");
    let p = match command_open(src, pos, label) {
        Parsed::Done(p2, _) => p2,
        Parsed::Fatal(at) => {
            return Parsed::Fatal(at);
        },
        Parsed::Fail => {
            return Parsed::Fail;
        },
    };
    let (p, sp) = match label_value(src, p) {
        Parsed::Done(p2, sp) => (p2, sp),
        _ => {
            return Parsed::Fail;
        },
    };
    match command_close(src, p) {
        Parsed::Done(p2, _) => Parsed::Done(p2, sp),
        Parsed::Fatal(at) => Parsed::Fatal(at),
        Parsed::Fail => Parsed::Fail,
    }
}

pub open spec fn is_special_byte(b: u8) -> bool {
    b == 32 || b == 10 || b == 9 || b == 35 || b == 36 || b == 37 || b == 38 || b == 123 || b
        == 125 || b == 91 || b == 93 || b == 95 || b == 126 || b == 94 || b == 92
}

/// Consumes a run of ordinary text: one or more bytes that are neither
/// whitespace nor markup. The token's span is exactly the consumed range.
pub fn text_token(src: &[u8], pos: usize) -> (r: Parsed<TokenText>)
    requires
        pos <= src@.len(),
    ensures
        bounds(r, pos as int, src@.len() as int),
        progress(r, pos as int),
        match r {
            Parsed::Done(p2, t) => t == TokenText::Borrowed(Span { start: pos, end: p2 }) && (
            p2 == src@.len() || is_special_byte(src@[p2 as int])) && forall|k: int|
                pos <= k < p2 ==> !is_special_byte(#[trigger] src@[k]),
            Parsed::Fail => !(pos < src@.len() && !is_special_byte(src@[pos as int])),
            Parsed::Fatal(_) => false,
        },
{
    let mut p = pos;
    while p < src.len() && !(src[p] == 32 || src[p] == 10 || src[p] == 9 || src[p] == 35
        || src[p] == 36 || src[p] == 37 || src[p] == 38 || src[p] == 123 || src[p] == 125
        || src[p] == 91 || src[p] == 93 || src[p] == 95 || src[p] == 126 || src[p] == 94
        || src[p] == 92)
        invariant
            pos <= p <= src@.len(),
            forall|k: int| pos <= k < p ==> !is_special_byte(#[trigger] src@[k]),
        decreases src@.len() - p,
    {
        p += 1;
    }
    if p == pos {
        Parsed::Fail
    } else {
        Parsed::Done(p, TokenText::Borrowed(Span { start: pos, end: p }))
    }
}

/// Parses inline math `$...$`; the formula's span holds exactly what stands
/// between the two delimiters.
pub fn inline_math(src: &[u8], pos: usize) -> (r: Parsed<Math>)
    requires
        pos <= src@.len(),
    ensures
        bounds(r, pos as int, src@.len() as int),
        progress(r, pos as int),
        match r {
            Parsed::Done(p2, m) => pos + 2 <= p2 && m == Math::Inline(
                Span { start: (pos + 1) as usize, end: (p2 - 1) as usize },
            ) && m.wf(src@.len()) && src@[pos as int] == 36 && src@[p2 - 1] == 36 && forall|
                k: int,
            | pos < k < p2 - 1 ==> #[trigger] src@[k] != 36,
            Parsed::Fail => !(pos < src@.len() && src@[pos as int] == 36 && exists|j: int|
                pos < j < src@.len() && #[trigger] src@[j] == 36),
            Parsed::Fatal(_) => false,
        },
{
    if !(pos < src.len() && src[pos] == 36) {
        return Parsed::Fail;
    }
    let mut p = pos + 1;
    while p < src.len() && src[p] != 36
        invariant
            pos < p <= src@.len(),
            src@[pos as int] == 36,
            forall|k: int| pos < k < p ==> #[trigger] src@[k] != 36,
        decreases src@.len() - p,
    {
        p += 1;
    }
    if p >= src.len() {
        proof {
            assert forall|j: int| pos < j < src@.len() implies #[trigger] src@[j] != 36 by {}
        }
        return Parsed::Fail;
    }
    Parsed::Done(p + 1, Math::Inline(Span { start: pos + 1, end: p }))
}

/// Every byte from `pos` to the end of the buffer is ordinary text.
pub open spec fn all_plain_text(src: Seq<u8>, pos: int) -> bool {
    forall|k: int| pos <= k < src.len() ==> !is_special_byte(#[trigger] src[k])
}

/// Somewhere strictly inside `(lo, hi]` the bytes hold `name` as one
/// token: where a `\\begin{...}`/`\\end{...}` consumed there names the
/// environment.
pub open spec fn names_env_within(src: Seq<u8>, lo: int, hi: int, name: Seq<u8>) -> bool {
    exists|n: int|
        lo < n && n + name.len() <= hi && #[trigger] src.subrange(n, n + name.len()) == name
}

/// The input at `pos` is exactly `\\kw{name}` with no whitespace between
/// the tokens: on such input the environment-tag parsers promise success.
pub open spec fn tight_env_tag_at(src: Seq<u8>, pos: int, kw: Seq<u8>, name: Seq<u8>) -> bool {
    &&& tight_command_open_at(src, pos, kw)
    &&& {
        let s = pos + 2 + kw.len();
        &&& s + name.len() < src.len()
        &&& src.subrange(s, s + name.len()) == name
        &&& src[s + name.len()] == 125
    }
}

/// Matches `\\begin{name}`. On the tight shape `\\begin{name}` success is
/// promised.
fn begin_env(src: &[u8], pos: usize, name: &[u8]) -> (r: Parsed<()>)
    requires
        pos <= src@.len(),
    ensures
        bounds(r, pos as int, src@.len() as int),
        progress(r, pos as int),
        match r {
            Parsed::Done(p2, _) => command_at(src@, pos as int, crate::text::ascii_bytes("begin"@))
                && names_env_within(src@, pos as int, p2 as int, name@),
            _ => true,
        },
        tight_env_tag_at(src@, pos as int, crate::text::ascii_bytes("begin"@), name@) ==> r
            == (Parsed::<()>::Done(((pos + 8 + name@.len()) as usize), ())),
        !(pos < src@.len() && src@[pos as int] == 92) ==> r is Fail,
{
    proof {
        reveal_strlit("begin");
    }
    let name_pos = match command_open(src, pos, crate::text::str_bytes("begin")) {
        Parsed::Done(p2, _) => p2,
        Parsed::Fatal(at) => {
            return Parsed::Fatal(at);
        },
        Parsed::Fail => {
            return Parsed::Fail;
        },
    };
    let p = match tag(src, name_pos, name) {
        Parsed::Done(p2, _) => p2,
        _ => {
            return Parsed::Fail;
        },
    };
    match command_close(src, p) {
        Parsed::Done(p2, _) => {
            proof {
                assert(src@.subrange(name_pos as int, name_pos + name@.len()) == name@);
            }
            Parsed::Done(p2, ())
        },
        Parsed::Fatal(at) => Parsed::Fatal(at),
        Parsed::Fail => Parsed::Fail,
    }
}

/// Matches `\\end{name}`: the closing tag must name the same environment
/// as the opening one. On the tight shape `\\end{name}` success is
/// promised.
fn end_env(src: &[u8], pos: usize, name: &[u8]) -> (r: Parsed<()>)
    requires
        pos <= src@.len(),
    ensures
        bounds(r, pos as int, src@.len() as int),
        progress(r, pos as int),
        match r {
            Parsed::Done(p2, _) => command_at(src@, pos as int, crate::text::ascii_bytes("end"@))
                && names_env_within(src@, pos as int, p2 as int, name@),
            _ => true,
        },
        tight_env_tag_at(src@, pos as int, crate::text::ascii_bytes("end"@), name@) ==> r == (
        Parsed::<()>::Done(((pos + 6 + name@.len()) as usize), ())),
        !(pos < src@.len() && src@[pos as int] == 92) ==> r is Fail,
{
    proof {
        reveal_strlit("end");
    }
    let name_pos = match command_open(src, pos, crate::text::str_bytes("end")) {
        Parsed::Done(p2, _) => p2,
        Parsed::Fatal(at) => {
            return Parsed::Fatal(at);
        },
        Parsed::Fail => {
            return Parsed::Fail;
        },
    };
    let p = match tag(src, name_pos, name) {
        Parsed::Done(p2, _) => p2,
        _ => {
            return Parsed::Fail;
        },
    };
    match command_close(src, p) {
        Parsed::Done(p2, _) => {
            proof {
                assert(src@.subrange(name_pos as int, name_pos + name@.len()) == name@);
            }
            Parsed::Done(p2, ())
        },
        Parsed::Fatal(at) => Parsed::Fatal(at),
        Parsed::Fail => Parsed::Fail,
    }
}

/// Parses an environment whose body is kept raw: `\\begin{name}`, inline
/// whitespace, then everything up to the matching `\\end{name}`, whose
/// closing tag names the same environment. The body span is exactly the raw
/// text consumed for it; the name stands as a token before the body (in the
/// opening tag) and after it (in the closing tag).
pub fn raw_env(src: &[u8], pos: usize, name: &[u8]) -> (r: Parsed<Span>)
    requires
        pos <= src@.len(),
    ensures
        bounds(r, pos as int, src@.len() as int),
        progress(r, pos as int),
        match r {
            Parsed::Done(p2, sp) => sp.wf(src@.len()) && pos < sp.start <= sp.end <= p2
                && command_at(src@, pos as int, crate::text::ascii_bytes("begin"@))
                && names_env_within(src@, pos as int, sp.start as int, name@)
                && names_env_within(src@, sp.end as int, p2 as int, name@),
            _ => true,
        },
        !(pos < src@.len() && src@[pos as int] == 92) ==> r is Fail,
{
    let p = match begin_env(src, pos, name) {
        Parsed::Done(p2, _) => p2,
        Parsed::Fatal(at) => {
            return Parsed::Fatal(at);
        },
        Parsed::Fail => {
            return Parsed::Fail;
        },
    };
    let content_start = match inline_ws(src, p) {
        Parsed::Done(p2, _) => p2,
        Parsed::Fatal(at) => {
            return Parsed::Fatal(at);
        },
        Parsed::Fail => p,
    };
    proof {
        let n1 = choose|n: int|
            pos < n && n + name@.len() <= p && #[trigger] src@.subrange(n, n + name@.len())
                == name@;
        assert(src@.subrange(n1, n1 + name@.len()) == name@);
        assert(names_env_within(src@, pos as int, content_start as int, name@));
    }
    let mut q = content_start;
    loop
        invariant
            pos < content_start <= q <= src@.len(),
            command_at(src@, pos as int, crate::text::ascii_bytes("begin"@)),
            names_env_within(src@, pos as int, content_start as int, name@),
        decreases src@.len() - q,
    {
        // try: inline whitespace, then the closing tag
        let probe = match inline_ws(src, q) {
            Parsed::Done(p2, _) => Some(p2),
            _ => None,
        };
        match probe {
            Some(w) => {
                match end_env(src, w, name) {
                    Parsed::Done(e, _) => {
                        proof {
                            assert(names_env_within(src@, w as int, e as int, name@));
                            assert(names_env_within(src@, q as int, e as int, name@)) by {
                                let n2 = choose|n: int|
                                    (w as int) < n && n + name@.len() <= (e as int)
                                        && #[trigger] src@.subrange(n, n + name@.len())
                                        == name@;
                                assert((q as int) < n2);
                                assert(src@.subrange(n2, n2 + name@.len()) == name@);
                            }
                        }
                        return Parsed::Done(e, Span { start: content_start, end: q });
                    },
                    _ => {},
                }
            },
            None => {},
        }
        if q >= src.len() {
            return Parsed::Fail;
        }
        q += 1;
    }
}

/// Skips whitespace and plain comments inside a raw formula body, never
/// moving past `end`.
/// Where whitespace and plain comments end inside a bounded region.
pub open spec fn bws_end(src: Seq<u8>, pos: int, end: int) -> int
    decreases end - pos,
{
    if 0 <= pos && pos < end && end <= src.len() {
        if src[pos] == 32 || src[pos] == 9 || src[pos] == 10 {
            bws_end(src, pos + 1, end)
        } else if src[pos] == 37 {
            let q = line_end_b(src, pos + 1, end);
            if pos < q && q <= end {
                bws_end(src, q, end)
            } else {
                pos
            }
        } else {
            pos
        }
    } else {
        pos
    }
}

fn bounded_ws(src: &[u8], pos: usize, end: usize) -> (r: usize)
    requires
        pos <= end <= src@.len(),
    ensures
        pos <= r <= end,
        r == bws_end(src@, pos as int, end as int),
{
    let mut p = pos;
    loop
        invariant
            pos <= p <= end <= src@.len(),
            bws_end(src@, pos as int, end as int) == bws_end(src@, p as int, end as int),
        ensures
            pos <= p <= end,
            p == bws_end(src@, pos as int, end as int),
        decreases end - p,
    {
        if p < end && (src[p] == 32 || src[p] == 9 || src[p] == 10) {
            p += 1;
            continue ;
        }
        if p < end && src[p] == 37 {
            let mut q = p + 1;
            while q < end && src[q] != 10
                invariant
                    p < q <= end <= src@.len(),
                    line_end_b(src@, p + 1, end as int) == line_end_b(src@, q as int, end as int),
                decreases end - q,
            {
                q += 1;
            }
            proof {
                assert(q == line_end_b(src@, p + 1, end as int));
                assert(bws_end(src@, p as int, end as int) == bws_end(src@, q as int, end as int));
            }
            p = q;
            continue ;
        }
        break ;
    }
    p
}

/// Matches a literal inside a bounded region: succeeds exactly when the
/// literal fits before `end` and the bytes match.
fn bounded_tag(src: &[u8], pos: usize, end: usize, t: &[u8]) -> (r: Option<usize>)
    requires
        pos <= end <= src@.len(),
    ensures
        match r {
            Some(p2) => pos <= p2 <= end && p2 == pos + t@.len() && src@.subrange(
                pos as int,
                pos + t@.len(),
            ) == t@,
            None => !(pos + t@.len() <= end && src@.subrange(pos as int, pos + t@.len())
                == t@),
        },
{
    if t.len() > end - pos {
        return None;
    }
    match tag(src, pos, t) {
        Parsed::Done(p2, _) => {
            if p2 <= end {
                Some(p2)
            } else {
                None
            }
        },
        _ => None,
    }
}

/// Parses an optional leading `\\label{id}` inside a raw formula body:
/// the label and the position where the formula source proper starts.
/// The leading-label rule of a raw formula body: when the body begins with
/// `\\label{id}` (whitespace and comments allowed between the tokens), the
/// label and the position after it and its trailing whitespace; else `None`.
pub open spec fn spec_label_prefix(src: Seq<u8>, start: int, end: int) -> Option<(Span, int)> {
    let marker = crate::text::ascii_bytes("\\label"@);
    if start + marker.len() <= end && src.subrange(start, start + marker.len()) == marker {
        let p = bws_end(src, start + marker.len(), end);
        if p < end && src[p] == 123 {
            let v = bws_end(src, p + 1, end);
            let e = label_end(src, v);
            if e > v && e <= end {
                let w = bws_end(src, e, end);
                if w < end && src[w] == 125 {
                    Some(
                        (
                            Span { start: (v as usize), end: (e as usize) },
                            bws_end(src, w + 1, end),
                        ),
                    )
                } else {
                    None
                }
            } else {
                None
            }
        } else {
            None
        }
    } else {
        None
    }
}

fn label_prefix(src: &[u8], start: usize, end: usize) -> (r: Option<(Span, usize)>)
    requires
        start <= end <= src@.len(),
    ensures
        match r {
            Some((sp, p2)) => sp.wf(src@.len()) && start <= p2 <= end && spec_label_prefix(
                src@,
                start as int,
                end as int,
            ) == Some((sp, p2 as int)),
            None => spec_label_prefix(src@, start as int, end as int) is None,
        },
{
    proof {
        reveal_strlit("\\label");
    }
    let p = match bounded_tag(src, start, end, crate::text::str_bytes("\\label")) {
        Some(p2) => p2,
        None => {
            return None;
        },
    };
    let p = bounded_ws(src, p, end);
    if !(p < end && src[p] == 123) {
        return None;
    }
    let p = bounded_ws(src, p + 1, end);
    let (p, sp) = match label_value(src, p) {
        Parsed::Done(p2, sp) => (p2, sp),
        _ => {
            return None;
        },
    };
    if p > end {
        return None;
    }
    let p = bounded_ws(src, p, end);
    if !(p < end && src[p] == 125) {
        return None;
    }
    let p = bounded_ws(src, p + 1, end);
    Some((sp, p))
}

/// Parses a display formula: the raw body of an `equation` environment,
/// with an optional leading label.
pub fn display_math(src: &[u8], pos: usize) -> (r: Parsed<Math>)
    requires
        pos <= src@.len(),
    ensures
        bounds(r, pos as int, src@.len() as int),
        progress(r, pos as int),
        match r {
            Parsed::Done(p2, m) => m.wf(src@.len()) && m is Display && command_at(
                src@,
                pos as int,
                crate::text::ascii_bytes("begin"@),
            ) && names_env_within(src@, pos as int, p2 as int, crate::text::ascii_bytes("equation"@))
                && exists|bs: int, be: int|
                pos < bs <= be <= p2 && (match #[trigger] spec_label_prefix(src@, bs, be) {
                    Some((l, cs)) => m == (Math::Display {
                        source: (Span { start: (cs as usize), end: (be as usize) }),
                        label: Some(l),
                    }),
                    None => m == (Math::Display {
                        source: (Span { start: (bs as usize), end: (be as usize) }),
                        label: None,
                    }),
                }),
            _ => true,
        },
        !(pos < src@.len() && src@[pos as int] == 92) ==> r is Fail,
{
    proof {
        reveal_strlit("equation");
    }
    let (p, body) = match raw_env(src, pos, crate::text::str_bytes("equation")) {
        Parsed::Done(p2, sp) => (p2, sp),
        Parsed::Fatal(at) => {
            return Parsed::Fatal(at);
        },
        Parsed::Fail => {
            return Parsed::Fail;
        },
    };
    proof {
        let ghost env_name = crate::text::ascii_bytes("equation"@);
        let n = choose|n: int|
            (pos as int) < n && n + env_name.len() <= body.start && #[trigger] src@.subrange(
                n,
                n + env_name.len(),
            ) == env_name;
        assert(src@.subrange(n, n + env_name.len()) == env_name);
        assert(names_env_within(src@, pos as int, p as int, env_name));
    }
    match label_prefix(src, body.start, body.end) {
        Some((label, content_start)) => {
            proof {
                assert(spec_label_prefix(src@, body.start as int, body.end as int) == Some(
                    (label, content_start as int),
                ));
            }
            Parsed::Done(
                p,
                Math::Display {
                    source: Span { start: content_start, end: body.end },
                    label: Some(label),
                },
            )
        },
        None => {
            proof {
                assert(spec_label_prefix(src@, body.start as int, body.end as int) is None);
            }
            Parsed::Done(p, Math::Display { source: body, label: None })
        },
    }
}

/// Parses a `mathpar` block: its raw body, with an optional leading label.
pub fn mathpar(src: &[u8], pos: usize) -> (r: Parsed<Math>)
    requires
        pos <= src@.len(),
    ensures
        bounds(r, pos as int, src@.len() as int),
        progress(r, pos as int),
        match r {
            Parsed::Done(p2, m) => m.wf(src@.len()) && m is Mathpar && command_at(
                src@,
                pos as int,
                crate::text::ascii_bytes("begin"@),
            ) && names_env_within(src@, pos as int, p2 as int, crate::text::ascii_bytes("mathpar"@))
                && exists|bs: int, be: int|
                pos < bs <= be <= p2 && (match #[trigger] spec_label_prefix(src@, bs, be) {
                    Some((l, cs)) => m == (Math::Mathpar {
                        source: (Span { start: (cs as usize), end: (be as usize) }),
                        label: Some(l),
                    }),
                    None => m == (Math::Mathpar {
                        source: (Span { start: (bs as usize), end: (be as usize) }),
                        label: None,
                    }),
                }),
            _ => true,
        },
        !(pos < src@.len() && src@[pos as int] == 92) ==> r is Fail,
{
    proof {
        reveal_strlit("mathpar");
    }
    let (p, body) = match raw_env(src, pos, crate::text::str_bytes("mathpar")) {
        Parsed::Done(p2, sp) => (p2, sp),
        Parsed::Fatal(at) => {
            return Parsed::Fatal(at);
        },
        Parsed::Fail => {
            return Parsed::Fail;
        },
    };
    proof {
        let ghost env_name = crate::text::ascii_bytes("mathpar"@);
        let n = choose|n: int|
            (pos as int) < n && n + env_name.len() <= body.start && #[trigger] src@.subrange(
                n,
                n + env_name.len(),
            ) == env_name;
        assert(src@.subrange(n, n + env_name.len()) == env_name);
        assert(names_env_within(src@, pos as int, p as int, env_name));
    }
    match label_prefix(src, body.start, body.end) {
        Some((label, content_start)) => {
            proof {
                assert(spec_label_prefix(src@, body.start as int, body.end as int) == Some(
                    (label, content_start as int),
                ));
            }
            Parsed::Done(
                p,
                Math::Mathpar {
                    source: Span { start: content_start, end: body.end },
                    label: Some(label),
                },
            )
        },
        None => {
            proof {
                assert(spec_label_prefix(src@, body.start as int, body.end as int) is None);
            }
            Parsed::Done(p, Math::Mathpar { source: body, label: None })
        },
    }
}

/// Parses display math written `$$...$$`, with an optional leading label;
/// trailing whitespace of the body is not part of the formula source.
pub fn display_math_double_dollar(src: &[u8], pos: usize) -> (r: Parsed<Math>)
    requires
        pos <= src@.len(),
    ensures
        bounds(r, pos as int, src@.len() as int),
        progress(r, pos as int),
        match r {
            Parsed::Done(p2, m) => m.wf(src@.len()) && src@[pos as int] == 36 && src@[pos + 1]
                == 36 && match m {
                Math::Display { source, .. } => forall|k: int|
                    source.start <= k < source.end ==> #[trigger] src@[k] != 36,
                _ => false,
            },
            _ => true,
        },
        !(pos < src@.len() && src@[pos as int] == 36) ==> r is Fail,
{
    if !(pos < src.len() && pos + 1 < src.len() && src[pos] == 36 && src[pos + 1] == 36) {
        return Parsed::Fail;
    }
    let p = match inline_ws(src, pos + 2) {
        Parsed::Done(p2, _) => p2,
        Parsed::Fatal(at) => {
            return Parsed::Fatal(at);
        },
        Parsed::Fail => pos + 2,
    };
    let (p, label) = match label_command(src, p) {
        Parsed::Done(p2, sp) => {
            match inline_ws(src, p2) {
                Parsed::Done(p3, _) => (p3, Some(sp)),
                Parsed::Fatal(at) => {
                    return Parsed::Fatal(at);
                },
                Parsed::Fail => (p2, Some(sp)),
            }
        },
        Parsed::Fatal(at) => {
            return Parsed::Fatal(at);
        },
        Parsed::Fail => (p, None),
    };
    let start = p;
    let mut q = p;
    while q < src.len() && src[q] != 36
        invariant
            start <= q <= src@.len(),
            forall|k: int| start <= k < q ==> #[trigger] src@[k] != 36,
        decreases src@.len() - q,
    {
        q += 1;
    }
    if !(q < src.len() && q + 1 < src.len() && src[q] == 36 && src[q + 1] == 36) {
        return Parsed::Fail;
    }
    // trailing whitespace is not part of the formula
    let mut e = q;
    while e > start && (src[e - 1] == 32 || src[e - 1] == 9 || src[e - 1] == 10 || src[e - 1]
        == 13)
        invariant
            start <= e <= q <= src@.len(),
        decreases e,
    {
        e -= 1;
    }
    Parsed::Done(q + 2, Math::Display { source: Span { start, end: e }, label })
}

/// A `\\ref` site: the referenced label id.
pub struct Ref(pub Span);

/// Parses `\\ref{id}`. On the tight shape `\\ref{id}` (no interior
/// whitespace) success is promised, with the id's exact span.
pub fn ref_command(src: &[u8], pos: usize) -> (r: Parsed<Ref>)
    requires
        pos <= src@.len(),
    ensures
        bounds(r, pos as int, src@.len() as int),
        progress(r, pos as int),
        match r {
            Parsed::Done(p2, v) => v.0.wf(src@.len()) && command_at(
                src@,
                pos as int,
                crate::text::ascii_bytes("ref"@),
            ) && pos < v.0.start && v.0.start < v.0.end && v.0.end <= p2 && forall|k: int|
                v.0.start <= k < v.0.end ==> is_label_byte(#[trigger] src@[k]),
            _ => true,
        },
        !(pos < src@.len() && src@[pos as int] == 92) ==> r is Fail,
        simple_arg_command_at(src@, pos as int, crate::text::ascii_bytes("ref"@)) ==> r == (
        Parsed::Done(
            ((label_end(src@, pos + 5) + 1) as usize),
            Ref(
                Span {
                    start: ((pos + 5) as usize),
                    end: (label_end(src@, pos + 5) as usize),
                },
            ),
        )),
{
    proof {
        reveal_strlit("ref");
    }
    let p = match command_open(src, pos, crate::text::str_bytes("ref")) {
        Parsed::Done(p2, _) => p2,
        Parsed::Fatal(at) => {
            return Parsed::Fatal(at);
        },
        Parsed::Fail => {
            return Parsed::Fail;
        },
    };
    let (p, sp) = match label_value(src, p) {
        Parsed::Done(p2, sp) => (p2, sp),
        _ => {
            return Parsed::Fail;
        },
    };
    match command_close(src, p) {
        Parsed::Done(p2, _) => Parsed::Done(p2, Ref(sp)),
        Parsed::Fatal(at) => Parsed::Fatal(at),
        Parsed::Fail => Parsed::Fail,
    }
}

/// Parses `\\eqref{id}`: a reference to an equation label. On the tight
/// shape success is promised, with the id's exact span.
pub fn eqref(src: &[u8], pos: usize) -> (r: Parsed<ParagraphPart>)
    requires
        pos <= src@.len(),
    ensures
        bounds(r, pos as int, src@.len() as int),
        progress(r, pos as int),
        match r {
            Parsed::Done(p2, v) => wf_par_part(v, src@.len()) && command_at(
                src@,
                pos as int,
                crate::text::ascii_bytes("eqref"@),
            ) && v is Ref,
            _ => true,
        },
        !(pos < src@.len() && src@[pos as int] == 92) ==> r is Fail,
        simple_arg_command_at(src@, pos as int, crate::text::ascii_bytes("eqref"@)) ==> r == (
        Parsed::Done(
            ((label_end(src@, pos + 7) + 1) as usize),
            ParagraphPart::Ref(
                Span {
                    start: ((pos + 7) as usize),
                    end: (label_end(src@, pos + 7) as usize),
                },
            ),
        )),
{
    proof {
        reveal_strlit("eqref");
    }
    let p = match command_open(src, pos, crate::text::str_bytes("eqref")) {
        Parsed::Done(p2, _) => p2,
        Parsed::Fatal(at) => {
            return Parsed::Fatal(at);
        },
        Parsed::Fail => {
            return Parsed::Fail;
        },
    };
    let (p, sp) = match label_value(src, p) {
        Parsed::Done(p2, sp) => (p2, sp),
        _ => {
            return Parsed::Fail;
        },
    };
    match command_close(src, p) {
        Parsed::Done(p2, _) => Parsed::Done(p2, ParagraphPart::Ref(sp)),
        Parsed::Fatal(at) => Parsed::Fatal(at),
        Parsed::Fail => Parsed::Fail,
    }
}

/// Parses the end-of-proof marker `\\qed`: succeeds exactly when the input
/// starts with it.
pub fn paragraph_qed(src: &[u8], pos: usize) -> (r: Parsed<ParagraphPart>)
    requires
        pos <= src@.len(),
    ensures
        bounds(r, pos as int, src@.len() as int),
        progress(r, pos as int),
        match r {
            Parsed::Done(p2, v) => v is Qed && p2 == pos + 4 && command_at(
                src@,
                pos as int,
                crate::text::ascii_bytes("qed"@),
            ),
            Parsed::Fail => !command_at(src@, pos as int, crate::text::ascii_bytes("qed"@)),
            Parsed::Fatal(_) => false,
        },
{
    proof {
        reveal_strlit("qed");
    }
    match command_name(src, pos, crate::text::str_bytes("qed")) {
        Parsed::Done(p2, _) => Parsed::Done(p2, ParagraphPart::Qed),
        _ => Parsed::Fail,
    }
}

/// Parses `\\todo{...}`, a marker whose argument is dropped.
pub fn todo(src: &[u8], pos: usize) -> (r: Parsed<ParagraphPart>)
    requires
        pos <= src@.len(),
    ensures
        bounds(r, pos as int, src@.len() as int),
        progress(r, pos as int),
        match r {
            Parsed::Done(p2, v) => v is Todo,
            _ => true,
        },
        !(pos < src@.len() && src@[pos as int] == 92) ==> r is Fail,
{
    proof {
        reveal_strlit("todo");
    }
    match raw_command(src, pos, crate::text::str_bytes("todo")) {
        Parsed::Done(p2, _) => Parsed::Done(p2, ParagraphPart::Todo),
        Parsed::Fatal(at) => Parsed::Fatal(at),
        Parsed::Fail => Parsed::Fail,
    }
}

/// An emphasised paragraph.
pub struct Emph(pub Paragraph);

/// Parses `\\emph{paragraph}`.
pub fn emph(src: &[u8], pos: usize) -> (r: Parsed<Emph>)
    requires
        pos <= src@.len(),
    ensures
        bounds(r, pos as int, src@.len() as int),
        progress(r, pos as int),
        match r {
            Parsed::Done(p2, v) => wf_paragraph(v.0@, src@.len()) && command_at(
                src@,
                pos as int,
                crate::text::ascii_bytes("emph"@),
            ),
            _ => true,
        },
        !(pos < src@.len() && src@[pos as int] == 92) ==> r is Fail,
    decreases src@.len() - pos, 2int,
{
    proof {
        reveal_strlit("emph");
    }
    let p = match command_open(src, pos, crate::text::str_bytes("emph")) {
        Parsed::Done(p2, _) => p2,
        Parsed::Fatal(at) => {
            return Parsed::Fatal(at);
        },
        Parsed::Fail => {
            return Parsed::Fail;
        },
    };
    let (p, par) = match paragraph(src, p) {
        Parsed::Done(p2, par) => (p2, par),
        Parsed::Fatal(at) => {
            return Parsed::Fatal(at);
        },
        Parsed::Fail => {
            return Parsed::Fail;
        },
    };
    match command_close(src, p) {
        Parsed::Done(p2, _) => Parsed::Done(p2, Emph(par)),
        Parsed::Fatal(at) => Parsed::Fatal(at),
        Parsed::Fail => Parsed::Fail,
    }
}

/// Parses `\\textbf{paragraph}`.
pub fn textbf(src: &[u8], pos: usize) -> (r: Parsed<ParagraphPart>)
    requires
        pos <= src@.len(),
    ensures
        bounds(r, pos as int, src@.len() as int),
        progress(r, pos as int),
        match r {
            Parsed::Done(p2, v) => wf_par_part(v, src@.len()) && v is Textbf && command_at(
                src@,
                pos as int,
                crate::text::ascii_bytes("textbf"@),
            ),
            _ => true,
        },
        !(pos < src@.len() && src@[pos as int] == 92) ==> r is Fail,
    decreases src@.len() - pos, 2int,
{
    proof {
        reveal_strlit("textbf");
    }
    let p = match command_open(src, pos, crate::text::str_bytes("textbf")) {
        Parsed::Done(p2, _) => p2,
        Parsed::Fatal(at) => {
            return Parsed::Fatal(at);
        },
        Parsed::Fail => {
            return Parsed::Fail;
        },
    };
    let (p, par) = match paragraph(src, p) {
        Parsed::Done(p2, par) => (p2, par),
        Parsed::Fatal(at) => {
            return Parsed::Fatal(at);
        },
        Parsed::Fail => {
            return Parsed::Fail;
        },
    };
    match command_close(src, p) {
        Parsed::Done(p2, _) => Parsed::Done(p2, ParagraphPart::Textbf(par)),
        Parsed::Fatal(at) => Parsed::Fatal(at),
        Parsed::Fail => Parsed::Fail,
    }
}

/// Parses `\\textit{paragraph}`.
pub fn textit(src: &[u8], pos: usize) -> (r: Parsed<ParagraphPart>)
    requires
        pos <= src@.len(),
    ensures
        bounds(r, pos as int, src@.len() as int),
        progress(r, pos as int),
        match r {
            Parsed::Done(p2, v) => wf_par_part(v, src@.len()) && v is Textit && command_at(
                src@,
                pos as int,
                crate::text::ascii_bytes("textit"@),
            ),
            _ => true,
        },
        !(pos < src@.len() && src@[pos as int] == 92) ==> r is Fail,
    decreases src@.len() - pos, 2int,
{
    proof {
        reveal_strlit("textit");
    }
    let p = match command_open(src, pos, crate::text::str_bytes("textit")) {
        Parsed::Done(p2, _) => p2,
        Parsed::Fatal(at) => {
            return Parsed::Fatal(at);
        },
        Parsed::Fail => {
            return Parsed::Fail;
        },
    };
    let (p, par) = match paragraph(src, p) {
        Parsed::Done(p2, par) => (p2, par),
        Parsed::Fatal(at) => {
            return Parsed::Fatal(at);
        },
        Parsed::Fail => {
            return Parsed::Fail;
        },
    };
    match command_close(src, p) {
        Parsed::Done(p2, _) => Parsed::Done(p2, ParagraphPart::Textit(par)),
        Parsed::Fatal(at) => Parsed::Fatal(at),
        Parsed::Fail => Parsed::Fail,
    }
}

/// Parses a citation `\\cite{id, id, ...}` (also `\\citep`, `\\citet`),
/// with an optional bracketed trailing text.
pub fn cite(src: &[u8], pos: usize) -> (r: Parsed<ParagraphPart>)
    requires
        pos <= src@.len(),
    ensures
        bounds(r, pos as int, src@.len() as int),
        progress(r, pos as int),
        match r {
            Parsed::Done(p2, v) => wf_par_part(v, src@.len()) && v is Cite && (command_at(
                src@,
                pos as int,
                crate::text::ascii_bytes("citep"@),
            ) || command_at(src@, pos as int, crate::text::ascii_bytes("citet"@)) || command_at(
                src@,
                pos as int,
                crate::text::ascii_bytes("cite"@),
            )),
            _ => true,
        },
        simple_arg_command_at(src@, pos as int, crate::text::ascii_bytes("cite"@)) ==> !(
        r is Fail),
        !(pos < src@.len() && src@[pos as int] == 92) ==> r is Fail,
    decreases src@.len() - pos, 2int,
{
    proof {
        reveal_strlit("citep");
        reveal_strlit("citet");
        reveal_strlit("cite");
    }
    if !(pos < src.len() && src[pos] == 92) {
        return Parsed::Fail;
    }
    let after_name = match tag(src, pos + 1, crate::text::str_bytes("citep")) {
        Parsed::Done(p2, _) => {
            proof {
                // on the tight \cite{id} shape the longer names cannot match:
                // the byte after `cite` is the opening brace
                if simple_arg_command_at(src@, pos as int, crate::text::ascii_bytes("cite"@)) {
                    assert(src@.subrange(pos + 1, pos + 6)[4] == src@[pos + 5]);
                }
            }
            p2
        },
        _ => {
            match tag(src, pos + 1, crate::text::str_bytes("citet")) {
                Parsed::Done(p2, _) => {
                    proof {
                        if simple_arg_command_at(
                            src@,
                            pos as int,
                            crate::text::ascii_bytes("cite"@),
                        ) {
                            assert(src@.subrange(pos + 1, pos + 6)[4] == src@[pos + 5]);
                        }
                    }
                    p2
                },
                _ => {
                    match tag(src, pos + 1, crate::text::str_bytes("cite")) {
                        Parsed::Done(p2, _) => p2,
                        _ => {
                            return Parsed::Fail;
                        },
                    }
                },
            }
        },
    };
    let p = match any_ws(src, after_name) {
        Parsed::Done(p2, _) => p2,
        Parsed::Fatal(at) => {
            return Parsed::Fatal(at);
        },
        Parsed::Fail => after_name,
    };
    // optional bracketed trailing text
    let (p, text) = if p < src.len() && src[p] == 91 {
        match opt_bracket_text(src, p) {
            Parsed::Done(p2, par) => (p2, Some(par)),
            Parsed::Fatal(at) => {
                return Parsed::Fatal(at);
            },
            Parsed::Fail => (p, None),
        }
    } else {
        (p, None)
    };
    if !(p < src.len() && src[p] == 123) {
        return Parsed::Fail;
    }
    let p = match any_ws(src, p + 1) {
        Parsed::Done(p2, _) => p2,
        Parsed::Fatal(at) => {
            return Parsed::Fatal(at);
        },
        Parsed::Fail => {
            return Parsed::Fail;
        },
    };
    // the cited ids, separated by commas
    let mut ids: Vec<Span> = Vec::new();
    let mut q = p;
    match label_value(src, q) {
        Parsed::Done(p2, sp) => {
            ids.push(sp);
            q = p2;
            loop
                invariant
                    pos < q <= src@.len(),
                    forall|k: int| 0 <= k < ids@.len() ==> (#[trigger] ids@[k]).wf(src@.len()),
                    simple_arg_command_at(src@, pos as int, crate::text::ascii_bytes("cite"@))
                        ==> q == label_end(src@, pos + 6),
                decreases src@.len() - q,
            {
                proof {
                    reveal_strlit("cite");
                }
                let w = match any_ws(src, q) {
                    Parsed::Done(p2, _) => p2,
                    _ => {
                        break ;
                    },
                };
                if !(w < src.len() && src[w] == 44) {
                    break ;
                }
                let w = match any_ws(src, w + 1) {
                    Parsed::Done(p2, _) => p2,
                    _ => {
                        break ;
                    },
                };
                match label_value(src, w) {
                    Parsed::Done(p2, sp) => {
                        ids.push(sp);
                        if p2 <= q {
                            break ;
                        }
                        q = p2;
                    },
                    _ => {
                        break ;
                    },
                }
            }
        },
        _ => {},
    }
    match command_close(src, q) {
        Parsed::Done(p2, _) => Parsed::Done(p2, ParagraphPart::Cite { ids, text }),
        Parsed::Fatal(at) => Parsed::Fatal(at),
        Parsed::Fail => Parsed::Fail,
    }
}

/// Parses the bracketed optional text of a citation: `[`, a paragraph, `]`.
fn opt_bracket_text(src: &[u8], pos: usize) -> (r: Parsed<Paragraph>)
    requires
        pos < src@.len(),
        src@[pos as int] == 91,
    ensures
        bounds(r, pos as int, src@.len() as int),
        progress(r, pos as int),
        match r {
            Parsed::Done(p2, par) => wf_paragraph(par@, src@.len()),
            _ => true,
        },
    decreases src@.len() - pos, 1int,
{
    let n: usize = src.len();
    proof {
        assert(pos < n);
    }
    let p = match any_ws(src, pos + 1) {
        Parsed::Done(p2, _) => p2,
        Parsed::Fatal(at) => {
            return Parsed::Fatal(at);
        },
        Parsed::Fail => pos + 1,
    };
    let (p, par) = match paragraph(src, p) {
        Parsed::Done(p2, par) => (p2, par),
        Parsed::Fatal(at) => {
            return Parsed::Fatal(at);
        },
        Parsed::Fail => {
            return Parsed::Fail;
        },
    };
    let p = match any_ws(src, p) {
        Parsed::Done(p2, _) => p2,
        Parsed::Fatal(at) => {
            return Parsed::Fatal(at);
        },
        Parsed::Fail => p,
    };
    if !(p < src.len() && src[p] == 93) {
        return Parsed::Fail;
    }
    let p2 = match any_ws(src, p + 1) {
        Parsed::Done(p3, _) => p3,
        Parsed::Fatal(at) => {
            return Parsed::Fatal(at);
        },
        Parsed::Fail => p + 1,
    };
    Parsed::Done(p2, par)
}

/// Parses one `\\item`: an optional label, then one or more paragraphs.
fn item(src: &[u8], pos: usize) -> (r: Parsed<Item>)
    requires
        pos <= src@.len(),
    ensures
        bounds(r, pos as int, src@.len() as int),
        progress(r, pos as int),
        match r {
            Parsed::Done(p2, it) => wf_paragraphs(it.content@, src@.len()) && wf_span_opt(
                it.label,
                src@.len(),
            ) && it.content@.len() >= 1 && command_at(
                src@,
                pos as int,
                crate::text::ascii_bytes("item"@),
            ) && (simple_arg_command_at(src@, pos + 5, crate::text::ascii_bytes("label"@))
                ==> it.label == Some(
                Span {
                    start: ((pos + 12) as usize),
                    end: (label_end(src@, pos + 12) as usize),
                },
            )),
            _ => true,
        },
        !(pos < src@.len() && src@[pos as int] == 92) ==> r is Fail,
    decreases src@.len() - pos, 0int,
{
    proof {
        reveal_strlit("item");
        reveal_strlit("label");
    }
    let p = match command_name(src, pos, crate::text::str_bytes("item")) {
        Parsed::Done(p2, _) => p2,
        _ => {
            return Parsed::Fail;
        },
    };
    // optional label
    let (p, label) = {
        let w = match any_ws(src, p) {
            Parsed::Done(p2, _) => p2,
            Parsed::Fatal(at) => {
                return Parsed::Fatal(at);
            },
            Parsed::Fail => p,
        };
        match label_command(src, w) {
            Parsed::Done(p2, sp) => (p2, Some(sp)),
            Parsed::Fatal(at) => {
                return Parsed::Fatal(at);
            },
            Parsed::Fail => (p, None),
        }
    };
    let p = match inline_ws(src, p) {
        Parsed::Done(p2, _) => p2,
        Parsed::Fatal(at) => {
            return Parsed::Fatal(at);
        },
        Parsed::Fail => p,
    };
    // one or more paragraphs
    let mut content: Vec<Paragraph> = Vec::new();
    let mut q = p;
    loop
        invariant
            pos < q <= src@.len(),
            wf_paragraphs(content@, src@.len()),
            command_at(src@, pos as int, crate::text::ascii_bytes("item"@)),
            simple_arg_command_at(src@, pos + 5, crate::text::ascii_bytes("label"@))
                ==> label == Some(
                Span {
                    start: ((pos + 12) as usize),
                    end: (label_end(src@, pos + 12) as usize),
                },
            ),
        decreases src@.len() - q,
    {
        match paragraph(src, q) {
            Parsed::Done(p2, par) => {
                content.push(par);
                proof {
                    assert(forall|k: int|
                        0 <= k < content@.len() ==> wf_paragraph(
                            (#[trigger] content@[k])@,
                            src@.len(),
                        ));
                }
                if p2 <= q {
                    break ;
                }
                q = p2;
            },
            Parsed::Fatal(at) => {
                return Parsed::Fatal(at);
            },
            Parsed::Fail => {
                break ;
            },
        }
    }
    if content.len() == 0 {
        return Parsed::Fail;
    }
    Parsed::Done(q, Item { content, label })
}

/// Parses the items of a list environment, separated by whitespace.
fn items0(src: &[u8], pos: usize) -> (r: Parsed<Vec<Item>>)
    requires
        pos <= src@.len(),
    ensures
        bounds(r, pos as int, src@.len() as int),
        match r {
            Parsed::Done(p2, items) => wf_items(items@, src@.len()),
            _ => true,
        },
    decreases src@.len() - pos, 1int,
{
    let mut items: Vec<Item> = Vec::new();
    let mut q = pos;
    match item(src, q) {
        Parsed::Done(p2, it) => {
            items.push(it);
            q = p2;
        },
        Parsed::Fatal(at) => {
            return Parsed::Fatal(at);
        },
        Parsed::Fail => {
            return Parsed::Done(q, items);
        },
    }
    loop
        invariant
            pos < q <= src@.len(),
            wf_items(items@, src@.len()),
        decreases src@.len() - q,
    {
        let w = match any_ws(src, q) {
            Parsed::Done(p2, _) => p2,
            _ => {
                break ;
            },
        };
        match item(src, w) {
            Parsed::Done(p2, it) => {
                items.push(it);
                if p2 <= q {
                    break ;
                }
                q = p2;
            },
            Parsed::Fatal(at) => {
                return Parsed::Fatal(at);
            },
            Parsed::Fail => {
                break ;
            },
        }
    }
    Parsed::Done(q, items)
}

/// Parses an `itemize` environment; item labels are a hard error here,
/// since an unordered item has no number a reference could show: a
/// successful result never holds a labeled item.
pub fn itemize(src: &[u8], pos: usize) -> (r: Parsed<ParagraphPart>)
    requires
        pos <= src@.len(),
    ensures
        bounds(r, pos as int, src@.len() as int),
        progress(r, pos as int),
        match r {
            Parsed::Done(p2, v) => wf_par_part(v, src@.len()) && match v {
                ParagraphPart::Itemize(items) => forall|k: int|
                    0 <= k < items@.len() ==> (#[trigger] items@[k]).label is None,
                _ => false,
            },
            _ => true,
        },
        !(pos < src@.len() && src@[pos as int] == 92) ==> r is Fail,
    decreases src@.len() - pos, 2int,
{
    proof {
        reveal_strlit("itemize");
    }
    let name = crate::text::str_bytes("itemize");
    let p = match begin_env(src, pos, name) {
        Parsed::Done(p2, _) => p2,
        Parsed::Fatal(at) => {
            return Parsed::Fatal(at);
        },
        Parsed::Fail => {
            return Parsed::Fail;
        },
    };
    let p = match inline_ws(src, p) {
        Parsed::Done(p2, _) => p2,
        Parsed::Fatal(at) => {
            return Parsed::Fatal(at);
        },
        Parsed::Fail => p,
    };
    let (p, items) = match items0(src, p) {
        Parsed::Done(p2, items) => (p2, items),
        Parsed::Fatal(at) => {
            return Parsed::Fatal(at);
        },
        Parsed::Fail => {
            return Parsed::Fatal(p);
        },
    };
    // committed: a failure past the opening tag is fatal
    let p = match inline_ws(src, p) {
        Parsed::Done(p2, _) => p2,
        Parsed::Fatal(at) => {
            return Parsed::Fatal(at);
        },
        Parsed::Fail => p,
    };
    let p = match end_env(src, p, name) {
        Parsed::Done(p2, _) => p2,
        Parsed::Fatal(at) => {
            return Parsed::Fatal(at);
        },
        Parsed::Fail => {
            return Parsed::Fatal(p);
        },
    };
    // labels are forbidden on unordered items
    let mut k: usize = 0;
    while k < items.len()
        invariant
            k <= items@.len(),
            command_at(src@, pos as int, crate::text::ascii_bytes("begin"@)),
            forall|j: int| 0 <= j < k ==> (#[trigger] items@[j]).label is None,
        decreases items@.len() - k,
    {
        match &items[k].label {
            Some(sp) => {
                let at = if sp.start < src.len() {
                    sp.start
                } else {
                    0
                };
                return Parsed::Fatal(at);
            },
            None => {},
        }
        k += 1;
    }
    Parsed::Done(p, ParagraphPart::Itemize(items))
}

/// Parses an `enumerate` environment; items may carry labels, resolved to
/// their 1-based position.
pub fn enumerate(src: &[u8], pos: usize) -> (r: Parsed<ParagraphPart>)
    requires
        pos <= src@.len(),
    ensures
        bounds(r, pos as int, src@.len() as int),
        progress(r, pos as int),
        match r {
            Parsed::Done(p2, v) => wf_par_part(v, src@.len()) && v is Enumerate,
            _ => true,
        },
        !(pos < src@.len() && src@[pos as int] == 92) ==> r is Fail,
    decreases src@.len() - pos, 2int,
{
    proof {
        reveal_strlit("enumerate");
    }
    let name = crate::text::str_bytes("enumerate");
    let p = match begin_env(src, pos, name) {
        Parsed::Done(p2, _) => p2,
        Parsed::Fatal(at) => {
            return Parsed::Fatal(at);
        },
        Parsed::Fail => {
            return Parsed::Fail;
        },
    };
    let p = match inline_ws(src, p) {
        Parsed::Done(p2, _) => p2,
        Parsed::Fatal(at) => {
            return Parsed::Fatal(at);
        },
        Parsed::Fail => p,
    };
    let (p, items) = match items0(src, p) {
        Parsed::Done(p2, items) => (p2, items),
        Parsed::Fatal(at) => {
            return Parsed::Fatal(at);
        },
        Parsed::Fail => {
            return Parsed::Fatal(p);
        },
    };
    let p = match inline_ws(src, p) {
        Parsed::Done(p2, _) => p2,
        Parsed::Fatal(at) => {
            return Parsed::Fatal(at);
        },
        Parsed::Fail => p,
    };
    let p = match end_env(src, p, name) {
        Parsed::Done(p2, _) => p2,
        Parsed::Fatal(at) => {
            return Parsed::Fatal(at);
        },
        Parsed::Fail => {
            return Parsed::Fatal(p);
        },
    };
    Parsed::Done(p, ParagraphPart::Enumerate(items))
}

/// Parses `\\footnote{paragraphs}`.
pub fn footnote(src: &[u8], pos: usize) -> (r: Parsed<ParagraphPart>)
    requires
        pos <= src@.len(),
    ensures
        bounds(r, pos as int, src@.len() as int),
        progress(r, pos as int),
        match r {
            Parsed::Done(p2, v) => wf_par_part(v, src@.len()) && v is Footnote && command_at(
                src@,
                pos as int,
                crate::text::ascii_bytes("footnote"@),
            ),
            _ => true,
        },
        !(pos < src@.len() && src@[pos as int] == 92) ==> r is Fail,
    decreases src@.len() - pos, 2int,
{
    proof {
        reveal_strlit("footnote");
    }
    let p = match command_open(src, pos, crate::text::str_bytes("footnote")) {
        Parsed::Done(p2, _) => p2,
        Parsed::Fatal(at) => {
            return Parsed::Fatal(at);
        },
        Parsed::Fail => {
            return Parsed::Fail;
        },
    };
    let (p, pars) = match paragraphs0(src, p) {
        Parsed::Done(p2, pars) => (p2, pars),
        Parsed::Fatal(at) => {
            return Parsed::Fatal(at);
        },
        Parsed::Fail => {
            return Parsed::Fail;
        },
    };
    match command_close(src, p) {
        Parsed::Done(p2, _) => Parsed::Done(p2, ParagraphPart::Footnote(pars)),
        Parsed::Fatal(at) => Parsed::Fatal(at),
        Parsed::Fail => Parsed::Fail,
    }
}

/// Tries each kind of non-whitespace paragraph part in a fixed order; the
/// first alternative whose opening token matches wins.
fn non_ws_part(src: &[u8], pos: usize) -> (r: Parsed<ParagraphPart>)
    requires
        pos <= src@.len(),
    ensures
        bounds(r, pos as int, src@.len() as int),
        progress(r, pos as int),
        match r {
            Parsed::Done(p2, v) => wf_par_part(v, src@.len()) && !(v is InlineWhitespace),
            _ => true,
        },
        pos < src@.len() && !is_special_byte(src@[pos as int]) ==> r is Done,
        pos >= src@.len() ==> r is Fail,
        pos < src@.len() && all_plain_text(src@, pos as int) ==> r == (Parsed::Done(
            (src@.len() as usize),
            ParagraphPart::TextToken(
                TokenText::Borrowed(Span { start: pos, end: (src@.len() as usize) }),
            ),
        )),
    decreases src@.len() - pos, 3int,
{
    match text_token(src, pos) {
        Parsed::Done(p2, t) => {
            return Parsed::Done(p2, ParagraphPart::TextToken(t));
        },
        Parsed::Fatal(at) => {
            return Parsed::Fatal(at);
        },
        Parsed::Fail => {},
    }
    match display_math(src, pos) {
        Parsed::Done(p2, m) => {
            proof {
                assert(wf_par_part(ParagraphPart::Math(m), src@.len()));
            }
            return Parsed::Done(p2, ParagraphPart::Math(m));
        },
        Parsed::Fatal(at) => {
            return Parsed::Fatal(at);
        },
        Parsed::Fail => {},
    }
    match display_math_double_dollar(src, pos) {
        Parsed::Done(p2, m) => {
            proof {
                assert(wf_par_part(ParagraphPart::Math(m), src@.len()));
            }
            return Parsed::Done(p2, ParagraphPart::Math(m));
        },
        Parsed::Fatal(at) => {
            return Parsed::Fatal(at);
        },
        Parsed::Fail => {},
    }
    match inline_math(src, pos) {
        Parsed::Done(p2, m) => {
            proof {
                assert(m.wf(src@.len()));
                assert(wf_par_part(ParagraphPart::Math(m), src@.len()));
            }
            return Parsed::Done(p2, ParagraphPart::Math(m));
        },
        Parsed::Fatal(at) => {
            return Parsed::Fatal(at);
        },
        Parsed::Fail => {},
    }
    match mathpar(src, pos) {
        Parsed::Done(p2, m) => {
            proof {
                assert(wf_par_part(ParagraphPart::Math(m), src@.len()));
            }
            return Parsed::Done(p2, ParagraphPart::Math(m));
        },
        Parsed::Fatal(at) => {
            return Parsed::Fatal(at);
        },
        Parsed::Fail => {},
    }
    match ref_command(src, pos) {
        Parsed::Done(p2, v) => {
            return Parsed::Done(p2, ParagraphPart::Ref(v.0));
        },
        Parsed::Fatal(at) => {
            return Parsed::Fatal(at);
        },
        Parsed::Fail => {},
    }
    match eqref(src, pos) {
        Parsed::Done(p2, v) => {
            return Parsed::Done(p2, v);
        },
        Parsed::Fatal(at) => {
            return Parsed::Fatal(at);
        },
        Parsed::Fail => {},
    }
    match cite(src, pos) {
        Parsed::Done(p2, v) => {
            return Parsed::Done(p2, v);
        },
        Parsed::Fatal(at) => {
            return Parsed::Fatal(at);
        },
        Parsed::Fail => {},
    }
    match emph(src, pos) {
        Parsed::Done(p2, v) => {
            return Parsed::Done(p2, ParagraphPart::Emph(v.0));
        },
        Parsed::Fatal(at) => {
            return Parsed::Fatal(at);
        },
        Parsed::Fail => {},
    }
    match textbf(src, pos) {
        Parsed::Done(p2, v) => {
            return Parsed::Done(p2, v);
        },
        Parsed::Fatal(at) => {
            return Parsed::Fatal(at);
        },
        Parsed::Fail => {},
    }
    match textit(src, pos) {
        Parsed::Done(p2, v) => {
            return Parsed::Done(p2, v);
        },
        Parsed::Fatal(at) => {
            return Parsed::Fatal(at);
        },
        Parsed::Fail => {},
    }
    match paragraph_qed(src, pos) {
        Parsed::Done(p2, v) => {
            return Parsed::Done(p2, v);
        },
        Parsed::Fatal(at) => {
            return Parsed::Fatal(at);
        },
        Parsed::Fail => {},
    }
    match itemize(src, pos) {
        Parsed::Done(p2, v) => {
            return Parsed::Done(p2, v);
        },
        Parsed::Fatal(at) => {
            return Parsed::Fatal(at);
        },
        Parsed::Fail => {},
    }
    match enumerate(src, pos) {
        Parsed::Done(p2, v) => {
            return Parsed::Done(p2, v);
        },
        Parsed::Fatal(at) => {
            return Parsed::Fatal(at);
        },
        Parsed::Fail => {},
    }
    match todo(src, pos) {
        Parsed::Done(p2, v) => {
            return Parsed::Done(p2, v);
        },
        Parsed::Fatal(at) => {
            return Parsed::Fatal(at);
        },
        Parsed::Fail => {},
    }
    match footnote(src, pos) {
        Parsed::Done(p2, v) => {
            return Parsed::Done(p2, v);
        },
        Parsed::Fatal(at) => {
            return Parsed::Fatal(at);
        },
        Parsed::Fail => {},
    }
    Parsed::Fail
}

/// Parses one paragraph: a non-whitespace part, then alternating inline
/// whitespace and further parts, stopping before whitespace that no part
/// follows. Order and adjacency of the parts are kept: the emitter's
/// whitespace collapsing depends on the neighbors.
pub fn paragraph(src: &[u8], pos: usize) -> (r: Parsed<Paragraph>)
    requires
        pos <= src@.len(),
    ensures
        bounds(r, pos as int, src@.len() as int),
        progress(r, pos as int),
        match r {
            Parsed::Done(p2, par) => wf_paragraph(par@, src@.len()) && par@.len() % 2 == 1
                && forall|k: int|
                0 <= k < par@.len() ==> ((k % 2 == 1) <==> (#[trigger] par@[k])
                    is InlineWhitespace),
            _ => true,
        },
        pos < src@.len() && !is_special_byte(src@[pos as int]) ==> !(r is Fail),
        pos < src@.len() && all_plain_text(src@, pos as int) ==> (match r {
            Parsed::Done(p2, par) => p2 == src@.len() && par@ == seq![
                ParagraphPart::TextToken(
                    TokenText::Borrowed(Span { start: pos, end: (src@.len() as usize) }),
                ),
            ],
            _ => false,
        }),
    decreases src@.len() - pos, 4int,
{
    let src_len: usize = src.len();
    let (mut q, head) = match non_ws_part(src, pos) {
        Parsed::Done(p2, v) => (p2, v),
        Parsed::Fatal(at) => {
            return Parsed::Fatal(at);
        },
        Parsed::Fail => {
            return Parsed::Fail;
        },
    };
    let mut result: Vec<ParagraphPart> = Vec::new();
    result.push(head);
    proof {
        if pos < src@.len() && all_plain_text(src@, pos as int) {
            assert(result@ =~= seq![
                ParagraphPart::TextToken(
                    TokenText::Borrowed(Span { start: pos, end: (src@.len() as usize) }),
                ),
            ]);
        }
    }
    loop
        invariant
            pos < q <= src@.len(),
            src_len == src@.len(),
            wf_paragraph(result@, src@.len()),
            result@.len() % 2 == 1,
            forall|k: int|
                0 <= k < result@.len() ==> ((k % 2 == 1) <==> (#[trigger] result@[k])
                    is InlineWhitespace),
            pos < src@.len() && all_plain_text(src@, pos as int) ==> (q == src@.len()
                && result@ == seq![
                ParagraphPart::TextToken(
                    TokenText::Borrowed(Span { start: pos, end: (src@.len() as usize) }),
                ),
            ]),
        decreases src@.len() - q,
    {
        let (w, ws) = match inline_ws(src, q) {
            Parsed::Done(p2, ws) => (p2, ws),
            Parsed::Fatal(at) => {
                return Parsed::Fatal(at);
            },
            Parsed::Fail => {
                break ;
            },
        };
        match non_ws_part(src, w) {
            Parsed::Done(p2, v) => {
                result.push(ParagraphPart::InlineWhitespace(ws.0));
                result.push(v);
                if p2 <= q {
                    break ;
                }
                q = p2;
            },
            Parsed::Fatal(at) => {
                return Parsed::Fatal(at);
            },
            Parsed::Fail => {
                break ;
            },
        }
    }
    Parsed::Done(q, result)
}

/// Parses zero or more paragraphs separated by whitespace.
pub fn paragraphs0(src: &[u8], pos: usize) -> (r: Parsed<Vec<Paragraph>>)
    requires
        pos <= src@.len(),
    ensures
        bounds(r, pos as int, src@.len() as int),
        match r {
            Parsed::Done(p2, pars) => wf_paragraphs(pars@, src@.len()),
            _ => true,
        },
        !(r is Fail),
    decreases src@.len() - pos, 5int,
{
    let mut pars: Vec<Paragraph> = Vec::new();
    let mut q = pos;
    match paragraph(src, q) {
        Parsed::Done(p2, par) => {
            pars.push(par);
            q = p2;
        },
        Parsed::Fatal(at) => {
            return Parsed::Fatal(at);
        },
        Parsed::Fail => {
            return Parsed::Done(q, pars);
        },
    }
    loop
        invariant
            pos < q <= src@.len(),
            wf_paragraphs(pars@, src@.len()),
        decreases src@.len() - q,
    {
        let w = match any_ws(src, q) {
            Parsed::Done(p2, _) => p2,
            _ => {
                break ;
            },
        };
        match paragraph(src, w) {
            Parsed::Done(p2, par) => {
                pars.push(par);
                if p2 <= q {
                    break ;
                }
                q = p2;
            },
            Parsed::Fatal(at) => {
                return Parsed::Fatal(at);
            },
            Parsed::Fail => {
                break ;
            },
        }
    }
    Parsed::Done(q, pars)
}

/// Parses `\\title{paragraph}`.
pub fn title(src: &[u8], pos: usize) -> (r: Parsed<DocumentPart>)
    requires
        pos <= src@.len(),
    ensures
        bounds(r, pos as int, src@.len() as int),
        progress(r, pos as int),
        match r {
            Parsed::Done(p2, v) => wf_doc_part(v, src@.len()) && v is Title && command_at(
                src@,
                pos as int,
                crate::text::ascii_bytes("title"@),
            ),
            _ => true,
        },
        !(pos < src@.len() && src@[pos as int] == 92) ==> r is Fail,
{
    proof {
        reveal_strlit("title");
    }
    let p = match command_open(src, pos, crate::text::str_bytes("title")) {
        Parsed::Done(p2, _) => p2,
        Parsed::Fatal(at) => {
            return Parsed::Fatal(at);
        },
        Parsed::Fail => {
            return Parsed::Fail;
        },
    };
    let (p, par) = match paragraph(src, p) {
        Parsed::Done(p2, par) => (p2, par),
        Parsed::Fatal(at) => {
            return Parsed::Fatal(at);
        },
        Parsed::Fail => {
            return Parsed::Fail;
        },
    };
    match command_close(src, p) {
        Parsed::Done(p2, _) => Parsed::Done(p2, DocumentPart::Title(par)),
        Parsed::Fatal(at) => Parsed::Fatal(at),
        Parsed::Fail => Parsed::Fail,
    }
}

/// Parses `\\author{paragraph}`.
pub fn author(src: &[u8], pos: usize) -> (r: Parsed<DocumentPart>)
    requires
        pos <= src@.len(),
    ensures
        bounds(r, pos as int, src@.len() as int),
        progress(r, pos as int),
        match r {
            Parsed::Done(p2, v) => wf_doc_part(v, src@.len()) && v is Author && command_at(
                src@,
                pos as int,
                crate::text::ascii_bytes("author"@),
            ),
            _ => true,
        },
        !(pos < src@.len() && src@[pos as int] == 92) ==> r is Fail,
{
    proof {
        reveal_strlit("author");
    }
    let p = match command_open(src, pos, crate::text::str_bytes("author")) {
        Parsed::Done(p2, _) => p2,
        Parsed::Fatal(at) => {
            return Parsed::Fatal(at);
        },
        Parsed::Fail => {
            return Parsed::Fail;
        },
    };
    let (p, par) = match paragraph(src, p) {
        Parsed::Done(p2, par) => (p2, par),
        Parsed::Fatal(at) => {
            return Parsed::Fatal(at);
        },
        Parsed::Fail => {
            return Parsed::Fail;
        },
    };
    match command_close(src, p) {
        Parsed::Done(p2, _) => Parsed::Done(p2, DocumentPart::Author(par)),
        Parsed::Fatal(at) => Parsed::Fatal(at),
        Parsed::Fail => Parsed::Fail,
    }
}

/// Consumes bytes until a curly brace, never failing.
fn scan_no_braces(src: &[u8], pos: usize) -> (r: usize)
    requires
        pos <= src@.len(),
    ensures
        pos <= r <= src@.len(),
{
    let mut p = pos;
    while p < src.len() && src[p] != 123 && src[p] != 125
        invariant
            pos <= p <= src@.len(),
        decreases src@.len() - p,
    {
        p += 1;
    }
    p
}

/// Parses `\\date{...}`; the argument is dropped.
pub fn date(src: &[u8], pos: usize) -> (r: Parsed<DocumentPart>)
    requires
        pos <= src@.len(),
    ensures
        bounds(r, pos as int, src@.len() as int),
        progress(r, pos as int),
        match r {
            Parsed::Done(p2, v) => v is Date && command_at(
                src@,
                pos as int,
                crate::text::ascii_bytes("date"@),
            ),
            _ => true,
        },
        !(pos < src@.len() && src@[pos as int] == 92) ==> r is Fail,
{
    proof {
        reveal_strlit("date");
    }
    let p = match command_open(src, pos, crate::text::str_bytes("date")) {
        Parsed::Done(p2, _) => p2,
        Parsed::Fatal(at) => {
            return Parsed::Fatal(at);
        },
        Parsed::Fail => {
            return Parsed::Fail;
        },
    };
    let p = scan_no_braces(src, p);
    if p < src.len() && src[p] == 125 {
        Parsed::Done(p + 1, DocumentPart::Date())
    } else {
        Parsed::Fail
    }
}

/// Parses `\\maketitle`: succeeds exactly when the input starts with it.
pub fn maketitle(src: &[u8], pos: usize) -> (r: Parsed<DocumentPart>)
    requires
        pos <= src@.len(),
    ensures
        bounds(r, pos as int, src@.len() as int),
        progress(r, pos as int),
        match r {
            Parsed::Done(p2, v) => v is Maketitle && p2 == pos + 10 && command_at(
                src@,
                pos as int,
                crate::text::ascii_bytes("maketitle"@),
            ),
            Parsed::Fail => !command_at(
                src@,
                pos as int,
                crate::text::ascii_bytes("maketitle"@),
            ),
            Parsed::Fatal(_) => false,
        },
{
    proof {
        reveal_strlit("maketitle");
    }
    match command_name(src, pos, crate::text::str_bytes("maketitle")) {
        Parsed::Done(p2, _) => Parsed::Done(p2, DocumentPart::Maketitle()),
        _ => Parsed::Fail,
    }
}

/// Parses a heading command `\\name{paragraph}` with an optional trailing
/// `\\label{id}`.
fn heading(src: &[u8], pos: usize, name: &[u8]) -> (r: Parsed<(Paragraph, Option<Span>)>)
    requires
        pos <= src@.len(),
    ensures
        bounds(r, pos as int, src@.len() as int),
        progress(r, pos as int),
        match r {
            Parsed::Done(p2, v) => wf_paragraph(v.0@, src@.len()) && wf_span_opt(
                v.1,
                src@.len(),
            ) && command_at(src@, pos as int, name@),
            _ => true,
        },
        !(pos < src@.len() && src@[pos as int] == 92) ==> r is Fail,
{
    let p = match command_open(src, pos, name) {
        Parsed::Done(p2, _) => p2,
        Parsed::Fatal(at) => {
            return Parsed::Fatal(at);
        },
        Parsed::Fail => {
            return Parsed::Fail;
        },
    };
    let (p, par) = match paragraph(src, p) {
        Parsed::Done(p2, par) => (p2, par),
        Parsed::Fatal(at) => {
            return Parsed::Fatal(at);
        },
        Parsed::Fail => {
            return Parsed::Fail;
        },
    };
    let p = match command_close(src, p) {
        Parsed::Done(p2, _) => p2,
        Parsed::Fatal(at) => {
            return Parsed::Fatal(at);
        },
        Parsed::Fail => {
            return Parsed::Fail;
        },
    };
    let w = match any_ws(src, p) {
        Parsed::Done(p2, _) => p2,
        Parsed::Fatal(at) => {
            return Parsed::Fatal(at);
        },
        Parsed::Fail => p,
    };
    match label_command(src, w) {
        Parsed::Done(p2, sp) => Parsed::Done(p2, (par, Some(sp))),
        Parsed::Fatal(at) => Parsed::Fatal(at),
        Parsed::Fail => Parsed::Done(p, (par, None)),
    }
}

/// Parses `\\section{name}` with an optional label.
pub fn section(src: &[u8], pos: usize) -> (r: Parsed<DocumentPart>)
    requires
        pos <= src@.len(),
    ensures
        bounds(r, pos as int, src@.len() as int),
        progress(r, pos as int),
        match r {
            Parsed::Done(p2, v) => wf_doc_part(v, src@.len()) && v is Section && command_at(
                src@,
                pos as int,
                crate::text::ascii_bytes("section"@),
            ),
            _ => true,
        },
        !(pos < src@.len() && src@[pos as int] == 92) ==> r is Fail,
{
    proof {
        reveal_strlit("section");
    }
    match heading(src, pos, crate::text::str_bytes("section")) {
        Parsed::Done(p2, (name, label)) => Parsed::Done(p2, DocumentPart::Section { label, name }),
        Parsed::Fatal(at) => Parsed::Fatal(at),
        Parsed::Fail => Parsed::Fail,
    }
}

/// Parses `\\subsection{name}` with an optional label.
pub fn subsection(src: &[u8], pos: usize) -> (r: Parsed<DocumentPart>)
    requires
        pos <= src@.len(),
    ensures
        bounds(r, pos as int, src@.len() as int),
        progress(r, pos as int),
        match r {
            Parsed::Done(p2, v) => wf_doc_part(v, src@.len()) && v is Subsection && command_at(
                src@,
                pos as int,
                crate::text::ascii_bytes("subsection"@),
            ),
            _ => true,
        },
        !(pos < src@.len() && src@[pos as int] == 92) ==> r is Fail,
{
    proof {
        reveal_strlit("subsection");
    }
    match heading(src, pos, crate::text::str_bytes("subsection")) {
        Parsed::Done(p2, (name, label)) => Parsed::Done(
            p2,
            DocumentPart::Subsection { label, name },
        ),
        Parsed::Fatal(at) => Parsed::Fatal(at),
        Parsed::Fail => Parsed::Fail,
    }
}

/// Parses an environment holding paragraphs: `\\begin{name}`, the
/// paragraphs, `\\end{name}`. Once the opening tag has matched, failure is
/// fatal.
fn paragraphs_env(src: &[u8], pos: usize, name: &[u8]) -> (r: Parsed<Vec<Paragraph>>)
    requires
        pos <= src@.len(),
    ensures
        bounds(r, pos as int, src@.len() as int),
        progress(r, pos as int),
        match r {
            Parsed::Done(p2, pars) => wf_paragraphs(pars@, src@.len()) && command_at(
                src@,
                pos as int,
                crate::text::ascii_bytes("begin"@),
            ),
            _ => true,
        },
        !(pos < src@.len() && src@[pos as int] == 92) ==> r is Fail,
{
    let p = match begin_env(src, pos, name) {
        Parsed::Done(p2, _) => p2,
        Parsed::Fatal(at) => {
            return Parsed::Fatal(at);
        },
        Parsed::Fail => {
            return Parsed::Fail;
        },
    };
    let p = match inline_ws(src, p) {
        Parsed::Done(p2, _) => p2,
        Parsed::Fatal(at) => {
            return Parsed::Fatal(at);
        },
        Parsed::Fail => p,
    };
    let (p, pars) = match paragraphs0(src, p) {
        Parsed::Done(p2, pars) => (p2, pars),
        Parsed::Fatal(at) => {
            return Parsed::Fatal(at);
        },
        Parsed::Fail => {
            return Parsed::Fatal(p);
        },
    };
    let p = match inline_ws(src, p) {
        Parsed::Done(p2, _) => p2,
        Parsed::Fatal(at) => {
            return Parsed::Fatal(at);
        },
        Parsed::Fail => p,
    };
    match end_env(src, p, name) {
        Parsed::Done(p2, _) => Parsed::Done(p2, pars),
        Parsed::Fatal(at) => Parsed::Fatal(at),
        Parsed::Fail => Parsed::Fatal(p),
    }
}

/// Parses the `abstract` environment.
pub fn abstract_env(src: &[u8], pos: usize) -> (r: Parsed<DocumentPart>)
    requires
        pos <= src@.len(),
    ensures
        bounds(r, pos as int, src@.len() as int),
        progress(r, pos as int),
        match r {
            Parsed::Done(p2, v) => wf_doc_part(v, src@.len()) && v is Abstract && command_at(
                src@,
                pos as int,
                crate::text::ascii_bytes("begin"@),
            ),
            _ => true,
        },
        !(pos < src@.len() && src@[pos as int] == 92) ==> r is Fail,
{
    proof {
        reveal_strlit("abstract");
    }
    match paragraphs_env(src, pos, crate::text::str_bytes("abstract")) {
        Parsed::Done(p2, pars) => Parsed::Done(p2, DocumentPart::Abstract(pars)),
        Parsed::Fatal(at) => Parsed::Fatal(at),
        Parsed::Fail => Parsed::Fail,
    }
}

/// Parses the `proof` environment.
pub fn proof_env(src: &[u8], pos: usize) -> (r: Parsed<DocumentPart>)
    requires
        pos <= src@.len(),
    ensures
        bounds(r, pos as int, src@.len() as int),
        progress(r, pos as int),
        match r {
            Parsed::Done(p2, v) => wf_doc_part(v, src@.len()) && v is Proof && command_at(
                src@,
                pos as int,
                crate::text::ascii_bytes("begin"@),
            ),
            _ => true,
        },
        !(pos < src@.len() && src@[pos as int] == 92) ==> r is Fail,
{
    proof {
        reveal_strlit("proof");
    }
    match paragraphs_env(src, pos, crate::text::str_bytes("proof")) {
        Parsed::Done(p2, pars) => Parsed::Done(p2, DocumentPart::Proof(pars)),
        Parsed::Fatal(at) => Parsed::Fatal(at),
        Parsed::Fail => Parsed::Fail,
    }
}

/// Parses one theorem-like block by trying every configured tag in order;
/// the first tag whose `\\begin{tag}` matches wins, and from there on a
/// failure is fatal. The block holds an optional bracketed note, an
/// optional label, and one or more paragraphs.
pub fn theorem_like(
    configs: &Vec<TheoremLikeConfig>,
    src: &[u8],
    pos: usize,
) -> (r: Parsed<DocumentPart>)
    requires
        pos <= src@.len(),
    ensures
        bounds(r, pos as int, src@.len() as int),
        progress(r, pos as int),
        match r {
            Parsed::Done(p2, v) => wf_doc_part(v, src@.len()) && match v {
                DocumentPart::TheoremLike { tag, note, content, label } => {
                    &&& content@.len() >= 1
                    &&& names_env_within(src@, pos as int, p2 as int, tag@)
                    &&& exists|c: int|
                        0 <= c < configs@.len() && tag@ == (#[trigger] configs@[c]).tag@ && (
                        forall|c2: int|
                            0 <= c2 < c ==> !tight_env_tag_at(
                                src@,
                                pos as int,
                                crate::text::ascii_bytes("begin"@),
                                (#[trigger] configs@[c2]).tag@,
                            ))
                },
                _ => false,
            },
            _ => true,
        },
        r is Fail ==> forall|c: int|
            0 <= c < configs@.len() ==> !tight_env_tag_at(
                src@,
                pos as int,
                crate::text::ascii_bytes("begin"@),
                (#[trigger] configs@[c]).tag@,
            ),
        !(pos < src@.len() && src@[pos as int] == 92) ==> r is Fail,
{
    proof {
        reveal_strlit("begin");
    }
    let mut c: usize = 0;
    while c < configs.len()
        invariant
            c <= configs@.len(),
            pos <= src@.len(),
            forall|c2: int|
                0 <= c2 < c ==> !tight_env_tag_at(
                    src@,
                    pos as int,
                    crate::text::ascii_bytes("begin"@),
                    (#[trigger] configs@[c2]).tag@,
                ),
        decreases configs@.len() - c,
    {
        let tag_bytes = configs[c].tag.as_slice();
        match begin_env(src, pos, tag_bytes) {
            Parsed::Done(p, _) => {
                let ghost p_begin = p;
                // committed to this tag
                let p = match inline_ws(src, p) {
                    Parsed::Done(p2, _) => p2,
                    Parsed::Fatal(at) => {
                        return Parsed::Fatal(at);
                    },
                    Parsed::Fail => p,
                };
                let (p, note) = if p < src.len() && src[p] == 91 {
                    match opt_bracket_note(src, p) {
                        Parsed::Done(p2, par) => (p2, Some(par)),
                        Parsed::Fatal(at) => {
                            return Parsed::Fatal(at);
                        },
                        Parsed::Fail => (p, None),
                    }
                } else {
                    (p, None)
                };
                let p = match inline_ws(src, p) {
                    Parsed::Done(p2, _) => p2,
                    Parsed::Fatal(at) => {
                        return Parsed::Fatal(at);
                    },
                    Parsed::Fail => p,
                };
                let (p, label) = match label_command(src, p) {
                    Parsed::Done(p2, sp) => (p2, Some(sp)),
                    Parsed::Fatal(at) => {
                        return Parsed::Fatal(at);
                    },
                    Parsed::Fail => (p, None),
                };
                let p = match inline_ws(src, p) {
                    Parsed::Done(p2, _) => p2,
                    Parsed::Fatal(at) => {
                        return Parsed::Fatal(at);
                    },
                    Parsed::Fail => p,
                };
                let (p, content) = match paragraphs0(src, p) {
                    Parsed::Done(p2, pars) => (p2, pars),
                    Parsed::Fatal(at) => {
                        return Parsed::Fatal(at);
                    },
                    Parsed::Fail => {
                        return Parsed::Fatal(p);
                    },
                };
                if content.len() == 0 {
                    // the grammar asks for one or more content paragraphs
                    return Parsed::Fatal(p);
                }
                let p = match inline_ws(src, p) {
                    Parsed::Done(p2, _) => p2,
                    Parsed::Fatal(at) => {
                        return Parsed::Fatal(at);
                    },
                    Parsed::Fail => p,
                };
                let p = match end_env(src, p, tag_bytes) {
                    Parsed::Done(p2, _) => p2,
                    Parsed::Fatal(at) => {
                        return Parsed::Fatal(at);
                    },
                    Parsed::Fail => {
                        return Parsed::Fatal(p);
                    },
                };
                let tag = vstd::slice::slice_to_vec(tag_bytes);
                proof {
                    assert(tag@ == configs@[c as int].tag@);
                    let n = choose|n: int|
                        pos < n && n + tag@.len() <= p_begin && #[trigger] src@.subrange(
                            n,
                            n + tag@.len(),
                        ) == tag@;
                    assert(src@.subrange(n, n + tag@.len()) == tag@);
                    assert(names_env_within(src@, pos as int, p as int, tag@));
                }
                return Parsed::Done(p, DocumentPart::TheoremLike { tag, note, content, label });
            },
            Parsed::Fatal(at) => {
                return Parsed::Fatal(at);
            },
            Parsed::Fail => {},
        }
        c += 1;
    }
    Parsed::Fail
}

/// Parses the bracketed note of a theorem-like block: `[`, whitespace, a
/// paragraph, whitespace, `]`.
fn opt_bracket_note(src: &[u8], pos: usize) -> (r: Parsed<Paragraph>)
    requires
        pos < src@.len(),
        src@[pos as int] == 91,
    ensures
        bounds(r, pos as int, src@.len() as int),
        progress(r, pos as int),
        match r {
            Parsed::Done(p2, par) => wf_paragraph(par@, src@.len()),
            _ => true,
        },
{
    let n: usize = src.len();
    proof {
        assert(pos < n);
    }
    let p = match any_ws(src, pos + 1) {
        Parsed::Done(p2, _) => p2,
        Parsed::Fatal(at) => {
            return Parsed::Fatal(at);
        },
        Parsed::Fail => pos + 1,
    };
    let (p, par) = match paragraph(src, p) {
        Parsed::Done(p2, par) => (p2, par),
        Parsed::Fatal(at) => {
            return Parsed::Fatal(at);
        },
        Parsed::Fail => {
            return Parsed::Fail;
        },
    };
    let p = match any_ws(src, p) {
        Parsed::Done(p2, _) => p2,
        Parsed::Fatal(at) => {
            return Parsed::Fatal(at);
        },
        Parsed::Fail => p,
    };
    if p < src.len() && src[p] == 93 {
        Parsed::Done(p + 1, par)
    } else {
        Parsed::Fail
    }
}

/// Parses `\\bibliography{...}`: a marker whose argument is dropped; its
/// displayed content is supplied entirely by the analysis at emission time.
pub fn bibliography(src: &[u8], pos: usize) -> (r: Parsed<DocumentPart>)
    requires
        pos <= src@.len(),
    ensures
        bounds(r, pos as int, src@.len() as int),
        progress(r, pos as int),
        match r {
            Parsed::Done(p2, v) => v is Bibliography && command_at(
                src@,
                pos as int,
                crate::text::ascii_bytes("bibliography"@),
            ),
            _ => true,
        },
        !(pos < src@.len() && src@[pos as int] == 92) ==> r is Fail,
{
    proof {
        reveal_strlit("bibliography");
    }
    let p = match command_open(src, pos, crate::text::str_bytes("bibliography")) {
        Parsed::Done(p2, _) => p2,
        Parsed::Fatal(at) => {
            return Parsed::Fatal(at);
        },
        Parsed::Fail => {
            return Parsed::Fail;
        },
    };
    let p = scan_no_braces(src, p);
    if p < src.len() && src[p] == 125 {
        Parsed::Done(p + 1, DocumentPart::Bibliography)
    } else {
        Parsed::Fail
    }
}

/// Parses one document part by trying each alternative in a fixed order; a
/// free paragraph is tried first, as in the surrounding grammar.
pub fn document_part(
    config: &DocumentConfig,
    src: &[u8],
    pos: usize,
) -> (r: Parsed<DocumentPart>)
    requires
        pos <= src@.len(),
    ensures
        bounds(r, pos as int, src@.len() as int),
        progress(r, pos as int),
        match r {
            Parsed::Done(p2, v) => wf_doc_part(v, src@.len()),
            _ => true,
        },
        pos < src@.len() && !is_special_byte(src@[pos as int]) ==> !(r is Fail),
        pos < src@.len() && all_plain_text(src@, pos as int) ==> (match r {
            Parsed::Done(p2, v) => p2 == src@.len() && match v {
                DocumentPart::FreeParagraph(par) => par@ == seq![
                    ParagraphPart::TextToken(
                        TokenText::Borrowed(Span { start: pos, end: (src@.len() as usize) }),
                    ),
                ],
                _ => false,
            },
            _ => false,
        }),
{
    match paragraph(src, pos) {
        Parsed::Done(p2, par) => {
            return Parsed::Done(p2, DocumentPart::FreeParagraph(par));
        },
        Parsed::Fatal(at) => {
            return Parsed::Fatal(at);
        },
        Parsed::Fail => {},
    }
    match title(src, pos) {
        Parsed::Done(p2, v) => {
            return Parsed::Done(p2, v);
        },
        Parsed::Fatal(at) => {
            return Parsed::Fatal(at);
        },
        Parsed::Fail => {},
    }
    match author(src, pos) {
        Parsed::Done(p2, v) => {
            return Parsed::Done(p2, v);
        },
        Parsed::Fatal(at) => {
            return Parsed::Fatal(at);
        },
        Parsed::Fail => {},
    }
    match date(src, pos) {
        Parsed::Done(p2, v) => {
            return Parsed::Done(p2, v);
        },
        Parsed::Fatal(at) => {
            return Parsed::Fatal(at);
        },
        Parsed::Fail => {},
    }
    match maketitle(src, pos) {
        Parsed::Done(p2, v) => {
            return Parsed::Done(p2, v);
        },
        Parsed::Fatal(at) => {
            return Parsed::Fatal(at);
        },
        Parsed::Fail => {},
    }
    match section(src, pos) {
        Parsed::Done(p2, v) => {
            return Parsed::Done(p2, v);
        },
        Parsed::Fatal(at) => {
            return Parsed::Fatal(at);
        },
        Parsed::Fail => {},
    }
    match subsection(src, pos) {
        Parsed::Done(p2, v) => {
            return Parsed::Done(p2, v);
        },
        Parsed::Fatal(at) => {
            return Parsed::Fatal(at);
        },
        Parsed::Fail => {},
    }
    match abstract_env(src, pos) {
        Parsed::Done(p2, v) => {
            return Parsed::Done(p2, v);
        },
        Parsed::Fatal(at) => {
            return Parsed::Fatal(at);
        },
        Parsed::Fail => {},
    }
    match theorem_like(&config.theorem_like_configs, src, pos) {
        Parsed::Done(p2, v) => {
            return Parsed::Done(p2, v);
        },
        Parsed::Fatal(at) => {
            return Parsed::Fatal(at);
        },
        Parsed::Fail => {},
    }
    match proof_env(src, pos) {
        Parsed::Done(p2, v) => {
            return Parsed::Done(p2, v);
        },
        Parsed::Fatal(at) => {
            return Parsed::Fatal(at);
        },
        Parsed::Fail => {},
    }
    match bibliography(src, pos) {
        Parsed::Done(p2, v) => {
            return Parsed::Done(p2, v);
        },
        Parsed::Fatal(at) => {
            return Parsed::Fatal(at);
        },
        Parsed::Fail => {},
    }
    Parsed::Fail
}

/// Consumes bytes until a bracket or brace, never failing.
fn scan_no_brackets(src: &[u8], pos: usize) -> (r: usize)
    requires
        pos <= src@.len(),
    ensures
        pos <= r <= src@.len(),
{
    let mut p = pos;
    while p < src.len() && src[p] != 123 && src[p] != 125 && src[p] != 91 && src[p] != 93
        invariant
            pos <= p <= src@.len(),
        decreases src@.len() - p,
    {
        p += 1;
    }
    p
}

/// Parses `\\documentclass[...]{...}`; options and argument are dropped.
pub fn documentclass(src: &[u8], pos: usize) -> (r: Parsed<()>)
    requires
        pos <= src@.len(),
    ensures
        bounds(r, pos as int, src@.len() as int),
        progress(r, pos as int),
        match r {
            Parsed::Done(p2, _) => command_at(
                src@,
                pos as int,
                crate::text::ascii_bytes("documentclass"@),
            ),
            _ => true,
        },
        !(pos < src@.len() && src@[pos as int] == 92) ==> r is Fail,
{
    proof {
        reveal_strlit("documentclass");
    }
    let p = match command_name(src, pos, crate::text::str_bytes("documentclass")) {
        Parsed::Done(p2, _) => p2,
        _ => {
            return Parsed::Fail;
        },
    };
    let p = match any_ws(src, p) {
        Parsed::Done(p2, _) => p2,
        Parsed::Fatal(at) => {
            return Parsed::Fatal(at);
        },
        Parsed::Fail => p,
    };
    let p = if p < src.len() && src[p] == 91 {
        let q = scan_no_brackets(src, p + 1);
        if !(q < src.len() && src[q] == 93) {
            return Parsed::Fail;
        }
        match any_ws(src, q + 1) {
            Parsed::Done(p2, _) => p2,
            Parsed::Fatal(at) => {
                return Parsed::Fatal(at);
            },
            Parsed::Fail => q + 1,
        }
    } else {
        p
    };
    if !(p < src.len() && src[p] == 123) {
        return Parsed::Fail;
    }
    let q = scan_no_brackets(src, p + 1);
    if q < src.len() && src[q] == 125 {
        Parsed::Done(q + 1, ())
    } else {
        Parsed::Fail
    }
}

/// Where a run of spaces and tabs starting at `pos` ends, never past `end`.
pub open spec fn nb_ws_end_b(src: Seq<u8>, pos: int, end: int) -> int
    decreases end - pos,
{
    if pos < end && 0 <= pos < src.len() && is_nb_ws(src[pos]) {
        nb_ws_end_b(src, pos + 1, end)
    } else {
        pos
    }
}

/// Where the line starting at `pos` ends, never past `end`.
pub open spec fn line_end_b(src: Seq<u8>, pos: int, end: int) -> int
    decreases end - pos,
{
    if pos < end && 0 <= pos < src.len() && src[pos] != 10 {
        line_end_b(src, pos + 1, end)
    } else {
        pos
    }
}

/// When the line at `p` holds only an ignore directive, where the line it
/// hides ends; `None` when the line is an ordinary one.
pub open spec fn ignore_hidden_end(src: Seq<u8>, p: int, end: int) -> Option<int> {
    let marker = crate::text::ascii_bytes("LATEX_TO_HTML_IGNORE"@);
    let w = nb_ws_end_b(src, p, end);
    if w < end && src[w] == 37 {
        let v = nb_ws_end_b(src, w + 1, end);
        if v + marker.len() <= end && src.subrange(v, v + marker.len()) == marker {
            let u = nb_ws_end_b(src, v + marker.len(), end);
            if u < end && src[u] == 10 {
                Some(line_end_b(src, u + 1, end))
            } else {
                None
            }
        } else {
            None
        }
    } else {
        None
    }
}

/// The lines of the preamble region `[p, end)`, in order: each line ends at
/// its newline, and a line holding only an ignore directive is dropped
/// together with the line it hides.
pub open spec fn spec_preamble_lines(src: Seq<u8>, p: int, end: int) -> Seq<Span>
    decreases end - p,
{
    if !(0 <= p <= end <= src.len()) {
        seq![]
    } else {
        match ignore_hidden_end(src, p, end) {
            Some(t) => {
                if p < t && t < end && src[t] == 10 {
                    spec_preamble_lines(src, t + 1, end)
                } else {
                    seq![]
                }
            },
            None => {
                let q = line_end_b(src, p, end);
                let head = seq![Span { start: p as usize, end: q as usize }];
                if p <= q && q < end && src[q] == 10 {
                    head + spec_preamble_lines(src, q + 1, end)
                } else {
                    head
                }
            },
        }
    }
}

/// Consumes spaces and tabs, exactly up to [`nb_ws_end_b`].
fn bounded_nb_ws(src: &[u8], pos: usize, end: usize) -> (r: usize)
    requires
        pos <= end <= src@.len(),
    ensures
        pos <= r <= end,
        r == nb_ws_end_b(src@, pos as int, end as int),
{
    let mut p = pos;
    while p < end && (src[p] == 32 || src[p] == 9)
        invariant
            pos <= p <= end <= src@.len(),
            nb_ws_end_b(src@, pos as int, end as int) == nb_ws_end_b(src@, p as int, end as int),
        decreases end - p,
    {
        p += 1;
    }
    p
}

/// Scans to the end of the line, exactly up to [`line_end_b`].
fn bounded_line_end(src: &[u8], pos: usize, end: usize) -> (r: usize)
    requires
        pos <= end <= src@.len(),
    ensures
        pos <= r <= end,
        r == line_end_b(src@, pos as int, end as int),
{
    let mut p = pos;
    while p < end && src[p] != 10
        invariant
            pos <= p <= end <= src@.len(),
            line_end_b(src@, pos as int, end as int) == line_end_b(src@, p as int, end as int),
        decreases end - p,
    {
        p += 1;
    }
    p
}

/// Splits the preamble region into exactly the lines
/// [`spec_preamble_lines`] describes, in order; a line holding only an
/// ignore directive is dropped together with the line it hides.
pub fn preamble_lines(src: &[u8], start: usize, end: usize) -> (r: Vec<Span>)
    requires
        start <= end <= src@.len(),
    ensures
        r@ == spec_preamble_lines(src@, start as int, end as int),
        forall|k: int| 0 <= k < r@.len() ==> (#[trigger] r@[k]).wf(src@.len()),
{
    proof {
        reveal_strlit("LATEX_TO_HTML_IGNORE");
    }
    let marker = crate::text::str_bytes("LATEX_TO_HTML_IGNORE");
    let mut lines: Vec<Span> = Vec::new();
    let mut p = start;
    proof {
        assert(spec_preamble_lines(src@, start as int, end as int) =~= lines@
            + spec_preamble_lines(src@, p as int, end as int));
    }
    loop
        invariant_except_break
            spec_preamble_lines(src@, start as int, end as int) == lines@
                + spec_preamble_lines(src@, p as int, end as int),
        invariant
            start <= p <= end <= src@.len(),
            marker@ == crate::text::ascii_bytes("LATEX_TO_HTML_IGNORE"@),
            forall|k: int| 0 <= k < lines@.len() ==> (#[trigger] lines@[k]).wf(src@.len()),
        ensures
            spec_preamble_lines(src@, start as int, end as int) == lines@,
            forall|k: int| 0 <= k < lines@.len() ==> (#[trigger] lines@[k]).wf(src@.len()),
        decreases end - p,
    {
        // does an ignore directive fill this line?
        let w = bounded_nb_ws(src, p, end);
        let ignored: Option<usize> = if w < end && src[w] == 37 {
            let v = bounded_nb_ws(src, w + 1, end);
            match bounded_tag(src, v, end, marker) {
                Some(after) => {
                    let u = bounded_nb_ws(src, after, end);
                    if u < end && src[u] == 10 {
                        Some(bounded_line_end(src, u + 1, end))
                    } else {
                        None
                    }
                },
                None => None,
            }
        } else {
            None
        };
        proof {
            match ignored {
                Some(t) => {
                    assert(ignore_hidden_end(src@, p as int, end as int) == Some(t as int));
                },
                None => {
                    assert(ignore_hidden_end(src@, p as int, end as int) is None);
                },
            }
        }
        match ignored {
            Some(t) => {
                proof {
                    assert(t > p);
                }
                if t < end && src[t] == 10 {
                    proof {
                        assert(spec_preamble_lines(src@, p as int, end as int)
                            == spec_preamble_lines(src@, t + 1, end as int));
                    }
                    p = t + 1;
                } else {
                    proof {
                        assert(spec_preamble_lines(src@, p as int, end as int) =~= Seq::<
                            Span,
                        >::empty());
                        assert(spec_preamble_lines(src@, start as int, end as int) =~= lines@);
                    }
                    break ;
                }
            },
            None => {
                let q = bounded_line_end(src, p, end);
                let ghost prev = lines@;
                lines.push(Span { start: p, end: q });
                if q < end && src[q] == 10 {
                    proof {
                        assert(spec_preamble_lines(src@, p as int, end as int) == seq![
                            Span { start: p, end: q },
                        ] + spec_preamble_lines(src@, q + 1, end as int));
                        assert(lines@ + spec_preamble_lines(src@, q + 1, end as int)
                            =~= prev + spec_preamble_lines(src@, p as int, end as int));
                    }
                    p = q + 1;
                } else {
                    proof {
                        assert(spec_preamble_lines(src@, p as int, end as int) =~= seq![
                            Span { start: p, end: q },
                        ]);
                        assert(spec_preamble_lines(src@, start as int, end as int) =~= lines@);
                    }
                    break ;
                }
            },
        }
    }
    lines
}

/// Parses a whole document: the class declaration, the preamble lines up to
/// `\\begin{document}`, then the document parts up to `\\end{document}`.
/// Any failure is fatal, at a byte offset; on success the preamble is
/// exactly the lines of the region ending where `\\begin{document}` stands.
pub fn document(src: &[u8], pos: usize) -> (r: Parsed<Document>)
    requires
        pos <= src@.len(),
    ensures
        bounds(r, pos as int, src@.len() as int),
        match r {
            Parsed::Done(p2, doc) => doc.wf(src@.len())
                && doc.config.theorem_like_configs@.len() == 7 && exists|a: int, b: int|
                pos <= a <= b <= src@.len() && doc.preamble@ == #[trigger] spec_preamble_lines(
                    src@,
                    a,
                    b,
                ) && command_at(src@, b, crate::text::ascii_bytes("begin"@)),
            _ => true,
        },
        !(r is Fail),
{
    proof {
        reveal_strlit("document");
    }
    let doc_name = crate::text::str_bytes("document");
    let p = match any_ws(src, pos) {
        Parsed::Done(p2, _) => p2,
        Parsed::Fatal(at) => {
            return Parsed::Fatal(at);
        },
        Parsed::Fail => pos,
    };
    let p = match documentclass(src, p) {
        Parsed::Done(p2, _) => p2,
        Parsed::Fatal(at) => {
            return Parsed::Fatal(at);
        },
        Parsed::Fail => {
            return Parsed::Fatal(p);
        },
    };
    // everything up to \begin{document} is the preamble
    let preamble_start = p;
    let mut q = p;
    let mut body_start: usize = p;
    loop
        invariant
            pos <= preamble_start <= q <= src@.len(),
            pos <= body_start <= src@.len(),
        ensures
            pos <= preamble_start <= q <= src@.len(),
            pos <= body_start <= src@.len(),
            command_at(src@, q as int, crate::text::ascii_bytes("begin"@)),
        decreases src@.len() - q,
    {
        match begin_env(src, q, doc_name) {
            Parsed::Done(e, _) => {
                body_start = e;
                break ;
            },
            _ => {},
        }
        if q >= src.len() {
            return Parsed::Fatal(q);
        }
        q += 1;
    }
    let preamble_end = q;
    let preamble = preamble_lines(src, preamble_start, preamble_end);
    let config = default_document_config();
    let p = match any_ws(src, body_start) {
        Parsed::Done(p2, _) => p2,
        Parsed::Fatal(at) => {
            return Parsed::Fatal(at);
        },
        Parsed::Fail => body_start,
    };
    // the document parts, separated by whitespace
    let mut parts: Vec<DocumentPart> = Vec::new();
    let mut q = p;
    match document_part(&config, src, q) {
        Parsed::Done(p2, v) => {
            parts.push(v);
            q = p2;
        },
        Parsed::Fatal(at) => {
            return Parsed::Fatal(at);
        },
        Parsed::Fail => {},
    }
    loop
        invariant
            p <= q <= src@.len(),
            forall|k: int| 0 <= k < parts@.len() ==> wf_doc_part(#[trigger] parts@[k], src@.len()),
        decreases src@.len() - q,
    {
        let w = match any_ws(src, q) {
            Parsed::Done(p2, _) => p2,
            _ => {
                break ;
            },
        };
        match document_part(&config, src, w) {
            Parsed::Done(p2, v) => {
                parts.push(v);
                if p2 <= q {
                    break ;
                }
                q = p2;
            },
            Parsed::Fatal(at) => {
                return Parsed::Fatal(at);
            },
            Parsed::Fail => {
                break ;
            },
        }
    }
    let p = match any_ws(src, q) {
        Parsed::Done(p2, _) => p2,
        Parsed::Fatal(at) => {
            return Parsed::Fatal(at);
        },
        Parsed::Fail => q,
    };
    let p = match end_env(src, p, doc_name) {
        Parsed::Done(p2, _) => p2,
        Parsed::Fatal(at) => {
            return Parsed::Fatal(at);
        },
        Parsed::Fail => {
            return Parsed::Fatal(p);
        },
    };
    let p = match any_ws(src, p) {
        Parsed::Done(p2, _) => p2,
        Parsed::Fatal(at) => {
            return Parsed::Fatal(at);
        },
        Parsed::Fail => p,
    };
    Parsed::Done(p, Document { preamble, parts, config })
}

/// The paragraph part is one owned text token holding exactly `t`.
pub open spec fn owned_token_text(p: ParagraphPart, t: Seq<u8>) -> bool {
    match p {
        ParagraphPart::TextToken(tok) => match tok {
            TokenText::Owned(v) => v@ == t,
            _ => false,
        },
        _ => false,
    }
}

/// Builds one theorem-like configuration with an owned display name.
fn theorem_config(tag: &str, display: &str, style: TheoremStyle) -> (r: TheoremLikeConfig)
    requires
        vstd::string::is_ascii(tag),
        vstd::string::is_ascii(display),
    ensures
        r.tag@ == crate::text::ascii_bytes(tag@),
        r.style == style,
        r.name@.len() == 1,
        owned_token_text(r.name@[0], crate::text::ascii_bytes(display@)),
{
    let tag_vec = vstd::slice::slice_to_vec(crate::text::str_bytes(tag));
    let name_vec = vstd::slice::slice_to_vec(crate::text::str_bytes(display));
    let mut name: Vec<ParagraphPart> = Vec::new();
    name.push(ParagraphPart::TextToken(TokenText::Owned(name_vec)));
    TheoremLikeConfig { tag: tag_vec, name, style }
}

impl Default for DocumentConfig {
    /// The built-in vocabulary of theorem-like environments; see
    /// [`default_document_config`].
    fn default() -> (r: DocumentConfig)
        ensures
            r.theorem_like_configs@.len() == 7,
    {
        default_document_config()
    }
}

/// The built-in vocabulary of theorem-like environments, tried in this
/// order: theorem, proposition, definition, lemma, remark, corollary,
/// example.
pub fn default_document_config() -> (r: DocumentConfig)
    ensures
        r.theorem_like_configs@.len() == 7,
        r.theorem_like_configs@[0].tag@ == crate::text::ascii_bytes("theorem"@),
        r.theorem_like_configs@[1].tag@ == crate::text::ascii_bytes("proposition"@),
        r.theorem_like_configs@[2].tag@ == crate::text::ascii_bytes("definition"@),
        r.theorem_like_configs@[3].tag@ == crate::text::ascii_bytes("lemma"@),
        r.theorem_like_configs@[4].tag@ == crate::text::ascii_bytes("remark"@),
        r.theorem_like_configs@[5].tag@ == crate::text::ascii_bytes("corollary"@),
        r.theorem_like_configs@[6].tag@ == crate::text::ascii_bytes("example"@),
        r.theorem_like_configs@[0].style == TheoremStyle::Theorem,
        r.theorem_like_configs@[1].style == TheoremStyle::Theorem,
        r.theorem_like_configs@[2].style == TheoremStyle::Definition,
        r.theorem_like_configs@[3].style == TheoremStyle::Theorem,
        r.theorem_like_configs@[4].style == TheoremStyle::Remark,
        r.theorem_like_configs@[5].style == TheoremStyle::Theorem,
        r.theorem_like_configs@[6].style == TheoremStyle::Definition,
        forall|c: int| 0 <= c < 7 ==> (#[trigger] r.theorem_like_configs@[c]).name@.len() == 1,
        owned_token_text(
            r.theorem_like_configs@[0].name@[0],
            crate::text::ascii_bytes("Theorem"@),
        ),
        owned_token_text(
            r.theorem_like_configs@[1].name@[0],
            crate::text::ascii_bytes("Proposition"@),
        ),
        owned_token_text(
            r.theorem_like_configs@[2].name@[0],
            crate::text::ascii_bytes("Definition"@),
        ),
        owned_token_text(
            r.theorem_like_configs@[3].name@[0],
            crate::text::ascii_bytes("Lemma"@),
        ),
        owned_token_text(
            r.theorem_like_configs@[4].name@[0],
            crate::text::ascii_bytes("Remark"@),
        ),
        owned_token_text(
            r.theorem_like_configs@[5].name@[0],
            crate::text::ascii_bytes("Corollary"@),
        ),
        owned_token_text(
            r.theorem_like_configs@[6].name@[0],
            crate::text::ascii_bytes("Example"@),
        ),
{
    proof {
        reveal_strlit("theorem");
        reveal_strlit("Theorem");
        reveal_strlit("proposition");
        reveal_strlit("Proposition");
        reveal_strlit("definition");
        reveal_strlit("Definition");
        reveal_strlit("lemma");
        reveal_strlit("Lemma");
        reveal_strlit("remark");
        reveal_strlit("Remark");
        reveal_strlit("corollary");
        reveal_strlit("Corollary");
        reveal_strlit("example");
        reveal_strlit("Example");
    }
    let mut configs: Vec<TheoremLikeConfig> = Vec::new();
    configs.push(theorem_config("theorem", "Theorem", TheoremStyle::Theorem));
    configs.push(theorem_config("proposition", "Proposition", TheoremStyle::Theorem));
    configs.push(theorem_config("definition", "Definition", TheoremStyle::Definition));
    configs.push(theorem_config("lemma", "Lemma", TheoremStyle::Theorem));
    configs.push(theorem_config("remark", "Remark", TheoremStyle::Remark));
    configs.push(theorem_config("corollary", "Corollary", TheoremStyle::Theorem));
    configs.push(theorem_config("example", "Example", TheoremStyle::Definition));
    DocumentConfig { theorem_like_configs: configs }
}

/// Where a run of bibliography whitespace (spaces, tabs, newlines) ends.
pub open spec fn bib_ws_end(src: Seq<u8>, pos: int) -> int
    decreases src.len() - pos,
{
    if 0 <= pos < src.len() && (src[pos] == 32 || src[pos] == 9 || src[pos] == 10) {
        bib_ws_end(src, pos + 1)
    } else {
        pos
    }
}

/// Where a citation key ends: the next whitespace or comma.
pub open spec fn bib_tag_end(src: Seq<u8>, pos: int) -> int
    decreases src.len() - pos,
{
    if 0 <= pos < src.len() && !(src[pos] == 32 || src[pos] == 9 || src[pos] == 10 || src[pos]
        == 44) {
        bib_tag_end(src, pos + 1)
    } else {
        pos
    }
}

/// Consumes bibliography whitespace, exactly up to [`bib_ws_end`].
pub fn bib_ws(src: &[u8], pos: usize) -> (r: usize)
    requires
        pos <= src@.len(),
    ensures
        pos <= r <= src@.len(),
        r == bib_ws_end(src@, pos as int),
{
    let mut p = pos;
    while p < src.len() && (src[p] == 32 || src[p] == 9 || src[p] == 10)
        invariant
            pos <= p <= src@.len(),
            bib_ws_end(src@, pos as int) == bib_ws_end(src@, p as int),
        decreases src@.len() - p,
    {
        p += 1;
    }
    p
}

/// The length of an entry kind's name.
pub open spec fn bib_type_len(t: BibEntryType) -> int {
    match t {
        BibEntryType::Misc => 4,
        BibEntryType::Article => 7,
        BibEntryType::Book => 4,
        BibEntryType::Inproceedings => 13,
        BibEntryType::Thesis => 6,
        BibEntryType::Incollection => 12,
    }
}

/// Parses a bibliography entry kind name: the first of the six recognised
/// names that matches; fails exactly when none does.
pub fn bib_entry_type(src: &[u8], pos: usize) -> (r: Parsed<BibEntryType>)
    requires
        pos <= src@.len(),
    ensures
        bounds(r, pos as int, src@.len() as int),
        progress(r, pos as int),
        match r {
            Parsed::Done(p2, t) => match t {
                BibEntryType::Misc => p2 == pos + 4 && src@.subrange(pos as int, pos + 4)
                    == crate::text::ascii_bytes("misc"@),
                BibEntryType::Article => p2 == pos + 7 && src@.subrange(pos as int, pos + 7)
                    == crate::text::ascii_bytes("article"@),
                BibEntryType::Book => p2 == pos + 4 && src@.subrange(pos as int, pos + 4)
                    == crate::text::ascii_bytes("book"@),
                BibEntryType::Inproceedings => p2 == pos + 13 && src@.subrange(
                    pos as int,
                    pos + 13,
                ) == crate::text::ascii_bytes("inproceedings"@),
                BibEntryType::Thesis => p2 == pos + 6 && src@.subrange(pos as int, pos + 6)
                    == crate::text::ascii_bytes("thesis"@),
                BibEntryType::Incollection => p2 == pos + 12 && src@.subrange(
                    pos as int,
                    pos + 12,
                ) == crate::text::ascii_bytes("incollection"@),
            },
            Parsed::Fail => {
                &&& !(pos + 4 <= src@.len() && src@.subrange(pos as int, pos + 4)
                    == crate::text::ascii_bytes("misc"@))
                &&& !(pos + 7 <= src@.len() && src@.subrange(pos as int, pos + 7)
                    == crate::text::ascii_bytes("article"@))
                &&& !(pos + 4 <= src@.len() && src@.subrange(pos as int, pos + 4)
                    == crate::text::ascii_bytes("book"@))
                &&& !(pos + 13 <= src@.len() && src@.subrange(pos as int, pos + 13)
                    == crate::text::ascii_bytes("inproceedings"@))
                &&& !(pos + 6 <= src@.len() && src@.subrange(pos as int, pos + 6)
                    == crate::text::ascii_bytes("thesis"@))
                &&& !(pos + 12 <= src@.len() && src@.subrange(pos as int, pos + 12)
                    == crate::text::ascii_bytes("incollection"@))
            },
            Parsed::Fatal(_) => false,
        },
{
    proof {
        reveal_strlit("misc");
        reveal_strlit("article");
        reveal_strlit("book");
        reveal_strlit("inproceedings");
        reveal_strlit("thesis");
        reveal_strlit("incollection");
    }
    match tag(src, pos, crate::text::str_bytes("misc")) {
        Parsed::Done(p2, _) => {
            return Parsed::Done(p2, BibEntryType::Misc);
        },
        _ => {},
    }
    match tag(src, pos, crate::text::str_bytes("article")) {
        Parsed::Done(p2, _) => {
            return Parsed::Done(p2, BibEntryType::Article);
        },
        _ => {},
    }
    match tag(src, pos, crate::text::str_bytes("book")) {
        Parsed::Done(p2, _) => {
            return Parsed::Done(p2, BibEntryType::Book);
        },
        _ => {},
    }
    match tag(src, pos, crate::text::str_bytes("inproceedings")) {
        Parsed::Done(p2, _) => {
            return Parsed::Done(p2, BibEntryType::Inproceedings);
        },
        _ => {},
    }
    match tag(src, pos, crate::text::str_bytes("thesis")) {
        Parsed::Done(p2, _) => {
            return Parsed::Done(p2, BibEntryType::Thesis);
        },
        _ => {},
    }
    match tag(src, pos, crate::text::str_bytes("incollection")) {
        Parsed::Done(p2, _) => {
            return Parsed::Done(p2, BibEntryType::Incollection);
        },
        _ => {},
    }
    Parsed::Fail
}

/// Consumes a citation key: everything up to whitespace or a comma,
/// exactly up to [`bib_tag_end`].
fn bib_entry_tag(src: &[u8], pos: usize) -> (r: Span)
    requires
        pos <= src@.len(),
    ensures
        r.start == pos && pos <= r.end <= src@.len(),
        r.end == bib_tag_end(src@, pos as int),
{
    let mut p = pos;
    while p < src.len() && !(src[p] == 32 || src[p] == 9 || src[p] == 10 || src[p] == 44)
        invariant
            pos <= p <= src@.len(),
            bib_tag_end(src@, pos as int) == bib_tag_end(src@, p as int),
        decreases src@.len() - p,
    {
        p += 1;
    }
    Span { start: pos, end: p }
}

pub open spec fn is_trim_ws(b: u8) -> bool {
    b == 32 || b == 9 || b == 10 || b == 13
}

/// Where a range ends once its trailing whitespace is dropped.
pub open spec fn trim_ws_end(src: Seq<u8>, start: int, end: int) -> int
    decreases end - start,
{
    if end > start && 0 <= end - 1 < src.len() && is_trim_ws(src[end - 1]) {
        trim_ws_end(src, start, end - 1)
    } else {
        end
    }
}

/// Shrinks a span by exactly its trailing whitespace.
fn trim_span_end(src: &[u8], sp: Span) -> (r: Span)
    requires
        sp.wf(src@.len()),
    ensures
        r.wf(src@.len()),
        r.start == sp.start,
        r.end <= sp.end,
        r.end == trim_ws_end(src@, sp.start as int, sp.end as int),
{
    let mut e = sp.end;
    while e > sp.start && (src[e - 1] == 32 || src[e - 1] == 9 || src[e - 1] == 10 || src[e
        - 1] == 13)
        invariant
            sp.start <= e <= sp.end <= src@.len(),
            trim_ws_end(src@, sp.start as int, sp.end as int) == trim_ws_end(
                src@,
                sp.start as int,
                e as int,
            ),
        decreases e,
    {
        e -= 1;
    }
    Span { start: sp.start, end: e }
}

/// Consumes a raw field value (a balanced brace group's content, up to
/// [`raw_arg_end`]) and drops exactly its trailing whitespace.
pub fn bib_item_raw_value(src: &[u8], pos: usize) -> (r: Parsed<Span>)
    requires
        pos <= src@.len(),
    ensures
        bounds(r, pos as int, src@.len() as int),
        match r {
            Parsed::Done(p2, sp) => sp.wf(src@.len()) && sp.start == pos && p2 == raw_arg_end(
                src@,
                pos as int,
                0,
            ) && sp.end == trim_ws_end(src@, pos as int, raw_arg_end(src@, pos as int, 0)),
            _ => false,
        },
{
    let (p, sp) = match raw_command_arg(src, pos) {
        Parsed::Done(p2, sp) => (p2, sp),
        _ => {
            return Parsed::Fatal(pos);
        },
    };
    Parsed::Done(p, trim_span_end(src, sp))
}

/// Parses the scaffolding of one field: the name, `=`, and a raw value in
/// braces.
fn bib_raw_field(src: &[u8], pos: usize, name: &[u8]) -> (r: Parsed<Span>)
    requires
        pos <= src@.len(),
    ensures
        bounds(r, pos as int, src@.len() as int),
        match r {
            Parsed::Done(p2, sp) => sp.wf(src@.len()),
            _ => true,
        },
{
    let p = match tag(src, pos, name) {
        Parsed::Done(p2, _) => p2,
        _ => {
            return Parsed::Fail;
        },
    };
    let p = bib_ws(src, p);
    if !(p < src.len() && src[p] == 61) {
        return Parsed::Fail;
    }
    let p = bib_ws(src, p + 1);
    if !(p < src.len() && src[p] == 123) {
        return Parsed::Fail;
    }
    let p = bib_ws(src, p + 1);
    let (p, sp) = match bib_item_raw_value(src, p) {
        Parsed::Done(p2, sp) => (p2, sp),
        _ => {
            return Parsed::Fail;
        },
    };
    let p = bib_ws(src, p);
    if p < src.len() && src[p] == 125 {
        Parsed::Done(p + 1, sp)
    } else {
        Parsed::Fail
    }
}

pub open spec fn is_name_byte(b: u8) -> bool {
    !(b == 44 || b == 59 || b == 61 || b == 123 || b == 125 || b == 46 || b == 32 || b == 9
        || b == 10)
}

/// Consumes one name word: bytes that are not punctuation or whitespace;
/// the word `and` separates persons and is not a name.
fn bib_name_word(src: &[u8], pos: usize) -> (r: Parsed<Span>)
    requires
        pos <= src@.len(),
    ensures
        bounds(r, pos as int, src@.len() as int),
        progress(r, pos as int),
        match r {
            Parsed::Done(p2, sp) => sp.wf(src@.len()),
            _ => true,
        },
{
    proof {
        reveal_strlit("and");
    }
    let mut p = pos;
    while p < src.len() && !(src[p] == 44 || src[p] == 59 || src[p] == 61 || src[p] == 123
        || src[p] == 125 || src[p] == 46 || src[p] == 32 || src[p] == 9 || src[p] == 10)
        invariant
            pos <= p <= src@.len(),
        decreases src@.len() - p,
    {
        p += 1;
    }
    if p == pos {
        return Parsed::Fail;
    }
    if crate::text::bytes_eq(&src[pos..p], crate::text::str_bytes("and")) {
        return Parsed::Fail;
    }
    Parsed::Done(p, Span { start: pos, end: p })
}

/// Parses one first name: an abbreviation (one letter and a dot) or a full
/// name word.
fn bib_first_name(src: &[u8], pos: usize) -> (r: Parsed<FirstName>)
    requires
        pos <= src@.len(),
    ensures
        bounds(r, pos as int, src@.len() as int),
        progress(r, pos as int),
        match r {
            Parsed::Done(p2, f) => crate::ast::wf_first_name(f, src@.len()),
            _ => true,
        },
{
    // abbreviated: one character followed by a dot
    if pos < src.len() && !(src[pos] == 44 || src[pos] == 59 || src[pos] == 61 || src[pos]
        == 123 || src[pos] == 125 || src[pos] == 32 || src[pos] == 9 || src[pos] == 10) {
        if pos + 1 < src.len() && src[pos + 1] == 46 {
            return Parsed::Done(
                pos + 2,
                FirstName::Abbreviation(Span { start: pos, end: pos + 1 }),
            );
        }
    }
    match bib_name_word(src, pos) {
        Parsed::Done(p2, sp) => Parsed::Done(p2, FirstName::Full(sp)),
        _ => Parsed::Fail,
    }
}

/// Parses one person: the last name, a comma, then the first names.
fn bib_person(src: &[u8], pos: usize) -> (r: Parsed<BibPerson>)
    requires
        pos <= src@.len(),
    ensures
        bounds(r, pos as int, src@.len() as int),
        progress(r, pos as int),
        match r {
            Parsed::Done(p2, person) => crate::ast::wf_bib_person(person, src@.len()),
            _ => true,
        },
{
    let (p, last_name) = match bib_name_word(src, pos) {
        Parsed::Done(p2, sp) => (p2, sp),
        _ => {
            return Parsed::Fail;
        },
    };
    let p = bib_ws(src, p);
    if !(p < src.len() && src[p] == 44) {
        return Parsed::Fail;
    }
    let p = bib_ws(src, p + 1);
    let mut first_names: Vec<FirstName> = Vec::new();
    let mut q = p;
    match bib_first_name(src, q) {
        Parsed::Done(p2, f) => {
            first_names.push(f);
            q = p2;
            loop
                invariant
                    pos < q <= src@.len(),
                    forall|k: int|
                        0 <= k < first_names@.len() ==> crate::ast::wf_first_name(
                            #[trigger] first_names@[k],
                            src@.len(),
                        ),
                decreases src@.len() - q,
            {
                let w = bib_ws(src, q);
                match bib_first_name(src, w) {
                    Parsed::Done(p2, f) => {
                        first_names.push(f);
                        if p2 <= q {
                            break ;
                        }
                        q = p2;
                    },
                    _ => {
                        break ;
                    },
                }
            }
        },
        _ => {},
    }
    Parsed::Done(q, BibPerson { first_names, last_name })
}

/// Parses an author list: persons separated by the word `and`.
fn bib_persons(src: &[u8], pos: usize) -> (r: Parsed<Vec<BibPerson>>)
    requires
        pos <= src@.len(),
    ensures
        bounds(r, pos as int, src@.len() as int),
        match r {
            Parsed::Done(p2, persons) => forall|k: int|
                0 <= k < persons@.len() ==> crate::ast::wf_bib_person(
                    #[trigger] persons@[k],
                    src@.len(),
                ),
            _ => true,
        },
{
    proof {
        reveal_strlit("and");
    }
    let and_word = crate::text::str_bytes("and");
    let mut persons: Vec<BibPerson> = Vec::new();
    let mut q = pos;
    match bib_person(src, q) {
        Parsed::Done(p2, person) => {
            persons.push(person);
            q = p2;
        },
        _ => {
            return Parsed::Done(q, persons);
        },
    }
    loop
        invariant
            pos < q <= src@.len(),
            forall|k: int|
                0 <= k < persons@.len() ==> crate::ast::wf_bib_person(
                    #[trigger] persons@[k],
                    src@.len(),
                ),
        decreases src@.len() - q,
    {
        let w = bib_ws(src, q);
        let w = match tag(src, w, and_word) {
            Parsed::Done(p2, _) => p2,
            _ => {
                break ;
            },
        };
        let w = bib_ws(src, w);
        match bib_person(src, w) {
            Parsed::Done(p2, person) => {
                persons.push(person);
                if p2 <= q {
                    break ;
                }
                q = p2;
            },
            _ => {
                break ;
            },
        }
    }
    Parsed::Done(q, persons)
}

/// Parses a run of decimal digits into a number; more digits than a
/// machine word can hold is a failure.
fn bib_number(src: &[u8], pos: usize) -> (r: Parsed<u64>)
    requires
        pos <= src@.len(),
    ensures
        bounds(r, pos as int, src@.len() as int),
        progress(r, pos as int),
{
    let mut acc: u128 = 0;
    let mut p = pos;
    while p < src.len() && 48 <= src[p] && src[p] <= 57 && acc <= 0xffff_ffff_ffff_ffff
        invariant
            pos <= p <= src@.len(),
            acc <= 0xa_0000_0000_0000_0008,
        decreases src@.len() - p,
    {
        acc = acc * 10 + ((src[p] - 48) as u128);
        p += 1;
    }
    if p == pos {
        return Parsed::Fail;
    }
    if acc > 0xffff_ffff_ffff_ffff {
        return Parsed::Fail;
    }
    Parsed::Done(p, acc as u64)
}

/// Parses a page range: the first page, optionally a dash (also `--` or an
/// en dash) and the last page.
fn bib_pages_value(src: &[u8], pos: usize) -> (r: Parsed<BibPages>)
    requires
        pos <= src@.len(),
    ensures
        bounds(r, pos as int, src@.len() as int),
        progress(r, pos as int),
{
    let (p, first) = match bib_number(src, pos) {
        Parsed::Done(p2, v) => (p2, v),
        _ => {
            return Parsed::Fail;
        },
    };
    // optional dash and last page
    let mut dash_end: usize = p;
    if p < src.len() && p + 1 < src.len() && src[p] == 45 && src[p + 1] == 45 {
        dash_end = p + 2;
    } else if p < src.len() && p + 1 < src.len() && p + 2 < src.len() && src[p] == 226 && src[p
        + 1] == 128 && src[p + 2] == 147 {
        dash_end = p + 3;
    } else if p < src.len() && src[p] == 45 {
        dash_end = p + 1;
    }
    if dash_end == p {
        return Parsed::Done(p, BibPages { first, last: None });
    }
    match bib_number(src, dash_end) {
        Parsed::Done(p2, v) => Parsed::Done(p2, BibPages { first, last: Some(v) }),
        _ => Parsed::Done(p, BibPages { first, last: None }),
    }
}

/// Parses the field `pages = {first-last}`.
fn bib_pages_field(src: &[u8], pos: usize) -> (r: Parsed<BibPages>)
    requires
        pos <= src@.len(),
    ensures
        bounds(r, pos as int, src@.len() as int),
{
    proof {
        reveal_strlit("pages");
    }
    let p = match tag(src, pos, crate::text::str_bytes("pages")) {
        Parsed::Done(p2, _) => p2,
        _ => {
            return Parsed::Fail;
        },
    };
    let p = bib_ws(src, p);
    if !(p < src.len() && src[p] == 61) {
        return Parsed::Fail;
    }
    let p = bib_ws(src, p + 1);
    if !(p < src.len() && src[p] == 123) {
        return Parsed::Fail;
    }
    let p = bib_ws(src, p + 1);
    let (p, pages) = match bib_pages_value(src, p) {
        Parsed::Done(p2, v) => (p2, v),
        _ => {
            return Parsed::Fail;
        },
    };
    let p = bib_ws(src, p);
    if p < src.len() && src[p] == 125 {
        Parsed::Done(p + 1, pages)
    } else {
        Parsed::Fail
    }
}

/// Parses the field `author = {...}` holding the author list.
fn bib_authors_field(src: &[u8], pos: usize) -> (r: Parsed<Vec<BibPerson>>)
    requires
        pos <= src@.len(),
    ensures
        bounds(r, pos as int, src@.len() as int),
        match r {
            Parsed::Done(p2, persons) => forall|k: int|
                0 <= k < persons@.len() ==> crate::ast::wf_bib_person(
                    #[trigger] persons@[k],
                    src@.len(),
                ),
            _ => true,
        },
{
    proof {
        reveal_strlit("author");
    }
    let p = match tag(src, pos, crate::text::str_bytes("author")) {
        Parsed::Done(p2, _) => p2,
        _ => {
            return Parsed::Fail;
        },
    };
    let p = bib_ws(src, p);
    if !(p < src.len() && src[p] == 61) {
        return Parsed::Fail;
    }
    let p = bib_ws(src, p + 1);
    if !(p < src.len() && src[p] == 123) {
        return Parsed::Fail;
    }
    let p = bib_ws(src, p + 1);
    let (p, persons) = match bib_persons(src, p) {
        Parsed::Done(p2, v) => (p2, v),
        Parsed::Fatal(at) => {
            return Parsed::Fatal(at);
        },
        Parsed::Fail => {
            return Parsed::Fail;
        },
    };
    let p = bib_ws(src, p);
    if p < src.len() && src[p] == 125 {
        Parsed::Done(p + 1, persons)
    } else {
        Parsed::Fail
    }
}

/// Parses the scaffolding of an unrecognised field, which is accepted and
/// discarded.
fn bib_unused_field(src: &[u8], pos: usize) -> (r: Parsed<()>)
    requires
        pos <= src@.len(),
    ensures
        bounds(r, pos as int, src@.len() as int),
{
    // the field name: bytes that are not `=`, braces or a space
    let mut p = pos;
    while p < src.len() && !(src[p] == 32 || src[p] == 61 || src[p] == 123 || src[p] == 125)
        invariant
            pos <= p <= src@.len(),
        decreases src@.len() - p,
    {
        p += 1;
    }
    let p = bib_ws(src, p);
    if !(p < src.len() && src[p] == 61) {
        return Parsed::Fail;
    }
    let p = bib_ws(src, p + 1);
    if !(p < src.len() && src[p] == 123) {
        return Parsed::Fail;
    }
    let p = bib_ws(src, p + 1);
    let (p, _) = match bib_item_raw_value(src, p) {
        Parsed::Done(p2, sp) => (p2, sp),
        _ => {
            return Parsed::Fail;
        },
    };
    let p = bib_ws(src, p);
    if p < src.len() && src[p] == 125 {
        Parsed::Done(p + 1, ())
    } else {
        Parsed::Fail
    }
}

/// Parses one field of an entry, trying each recognised name first and
/// accepting any other field as unused.
fn bib_item(src: &[u8], pos: usize) -> (r: Parsed<BibEntryItem>)
    requires
        pos <= src@.len(),
    ensures
        bounds(r, pos as int, src@.len() as int),
        match r {
            Parsed::Done(p2, it) => wf_bib_item(it, src@.len()),
            _ => true,
        },
{
    proof {
        reveal_strlit("title");
        reveal_strlit("year");
        reveal_strlit("url");
        reveal_strlit("journal");
        reveal_strlit("booktitle");
        reveal_strlit("series");
        reveal_strlit("publisher");
        reveal_strlit("volume");
        reveal_strlit("number");
    }
    match bib_raw_field(src, pos, crate::text::str_bytes("title")) {
        Parsed::Done(p2, sp) => {
            return Parsed::Done(p2, BibEntryItem::Title(sp));
        },
        Parsed::Fatal(at) => {
            return Parsed::Fatal(at);
        },
        Parsed::Fail => {},
    }
    match bib_raw_field(src, pos, crate::text::str_bytes("year")) {
        Parsed::Done(p2, sp) => {
            return Parsed::Done(p2, BibEntryItem::Year(sp));
        },
        Parsed::Fatal(at) => {
            return Parsed::Fatal(at);
        },
        Parsed::Fail => {},
    }
    match bib_authors_field(src, pos) {
        Parsed::Done(p2, persons) => {
            return Parsed::Done(p2, BibEntryItem::Authors(persons));
        },
        Parsed::Fatal(at) => {
            return Parsed::Fatal(at);
        },
        Parsed::Fail => {},
    }
    match bib_raw_field(src, pos, crate::text::str_bytes("url")) {
        Parsed::Done(p2, sp) => {
            return Parsed::Done(p2, BibEntryItem::Url(sp));
        },
        Parsed::Fatal(at) => {
            return Parsed::Fatal(at);
        },
        Parsed::Fail => {},
    }
    match bib_raw_field(src, pos, crate::text::str_bytes("journal")) {
        Parsed::Done(p2, sp) => {
            return Parsed::Done(p2, BibEntryItem::Journal(sp));
        },
        Parsed::Fatal(at) => {
            return Parsed::Fatal(at);
        },
        Parsed::Fail => {},
    }
    match bib_raw_field(src, pos, crate::text::str_bytes("booktitle")) {
        Parsed::Done(p2, sp) => {
            return Parsed::Done(p2, BibEntryItem::Booktitle(sp));
        },
        Parsed::Fatal(at) => {
            return Parsed::Fatal(at);
        },
        Parsed::Fail => {},
    }
    match bib_raw_field(src, pos, crate::text::str_bytes("series")) {
        Parsed::Done(p2, sp) => {
            return Parsed::Done(p2, BibEntryItem::Series(sp));
        },
        Parsed::Fatal(at) => {
            return Parsed::Fatal(at);
        },
        Parsed::Fail => {},
    }
    match bib_raw_field(src, pos, crate::text::str_bytes("publisher")) {
        Parsed::Done(p2, sp) => {
            return Parsed::Done(p2, BibEntryItem::Publisher(sp));
        },
        Parsed::Fatal(at) => {
            return Parsed::Fatal(at);
        },
        Parsed::Fail => {},
    }
    match bib_raw_field(src, pos, crate::text::str_bytes("volume")) {
        Parsed::Done(p2, sp) => {
            return Parsed::Done(p2, BibEntryItem::Volume(sp));
        },
        Parsed::Fatal(at) => {
            return Parsed::Fatal(at);
        },
        Parsed::Fail => {},
    }
    match bib_raw_field(src, pos, crate::text::str_bytes("number")) {
        Parsed::Done(p2, sp) => {
            return Parsed::Done(p2, BibEntryItem::Number(sp));
        },
        Parsed::Fatal(at) => {
            return Parsed::Fatal(at);
        },
        Parsed::Fail => {},
    }
    match bib_pages_field(src, pos) {
        Parsed::Done(p2, pages) => {
            return Parsed::Done(p2, BibEntryItem::Pages(pages));
        },
        Parsed::Fatal(at) => {
            return Parsed::Fatal(at);
        },
        Parsed::Fail => {},
    }
    match bib_unused_field(src, pos) {
        Parsed::Done(p2, _) => {
            return Parsed::Done(p2, BibEntryItem::Unused);
        },
        Parsed::Fatal(at) => {
            return Parsed::Fatal(at);
        },
        Parsed::Fail => {},
    }
    Parsed::Fail
}

/// Parses one bibliography record `@kind{key, field = {value}, ...}`. A
/// field given twice is a hard error at the repeated field's position.
pub fn bib_entry(src: &[u8], pos: usize) -> (r: Parsed<BibEntry>)
    requires
        pos <= src@.len(),
    ensures
        bounds(r, pos as int, src@.len() as int),
        progress(r, pos as int),
        match r {
            Parsed::Done(p2, e) => e.wf(src@.len()) && pos < src@.len() && src@[pos as int]
                == 64 && {
                let w1 = bib_ws_end(src@, pos + 1 + bib_type_len(e.entry_type));
                let w2 = bib_ws_end(src@, w1 + 1);
                &&& w1 < src@.len()
                &&& src@[w1] == 123
                &&& e.tag == (Span {
                    start: (w2 as usize),
                    end: (bib_tag_end(src@, w2) as usize),
                })
            },
            _ => true,
        },
{
    if !(pos < src.len() && src[pos] == 64) {
        return Parsed::Fail;
    }
    let (p, entry_type) = match bib_entry_type(src, pos + 1) {
        Parsed::Done(p2, t) => (p2, t),
        _ => {
            return Parsed::Fail;
        },
    };
    let p = bib_ws(src, p);
    if !(p < src.len() && src[p] == 123) {
        return Parsed::Fail;
    }
    let p = bib_ws(src, p + 1);
    let key = bib_entry_tag(src, p);
    let p = key.end;
    let p = bib_ws(src, p);
    if !(p < src.len() && src[p] == 44) {
        return Parsed::Fail;
    }
    let mut p = bib_ws(src, p + 1);
    let mut entry = BibEntry {
        entry_type,
        tag: key,
        title: None,
        year: None,
        authors: None,
        url: None,
        journal: None,
        booktitle: None,
        series: None,
        publisher: None,
        volume: None,
        number: None,
        pages: None,
    };
    // the fields, separated by commas
    match bib_item(src, p) {
        Parsed::Done(p2, it) => {
            if !store_bib_item(&mut entry, it) {
                return Parsed::Fatal(p);
            }
            let q0 = p;
            p = p2;
            loop
                invariant
                    q0 <= p <= src@.len(),
                    entry.wf(src@.len()),
                    entry.tag == key,
                    entry.entry_type == entry_type,
                decreases src@.len() - p,
            {
                let w = bib_ws(src, p);
                if !(w < src.len() && src[w] == 44) {
                    break ;
                }
                let w = bib_ws(src, w + 1);
                match bib_item(src, w) {
                    Parsed::Done(p2, it) => {
                        if !store_bib_item(&mut entry, it) {
                            return Parsed::Fatal(w);
                        }
                        if p2 <= p {
                            break ;
                        }
                        p = p2;
                    },
                    Parsed::Fatal(at) => {
                        return Parsed::Fatal(at);
                    },
                    Parsed::Fail => {
                        break ;
                    },
                }
            }
        },
        Parsed::Fatal(at) => {
            return Parsed::Fatal(at);
        },
        Parsed::Fail => {},
    }
    let p = bib_ws(src, p);
    // an optional trailing comma
    let p = if p < src.len() && src[p] == 44 {
        bib_ws(src, p + 1)
    } else {
        p
    };
    if p < src.len() && src[p] == 125 {
        Parsed::Done(p + 1, entry)
    } else {
        Parsed::Fail
    }
}

/// A parsed field is well-formed with respect to the buffer.
pub open spec fn wf_bib_item(it: BibEntryItem, len: nat) -> bool {
    match it {
        BibEntryItem::Title(sp) => sp.wf(len),
        BibEntryItem::Year(sp) => sp.wf(len),
        BibEntryItem::Authors(persons) => forall|k: int|
            0 <= k < persons@.len() ==> crate::ast::wf_bib_person(#[trigger] persons@[k], len),
        BibEntryItem::Url(sp) => sp.wf(len),
        BibEntryItem::Journal(sp) => sp.wf(len),
        BibEntryItem::Booktitle(sp) => sp.wf(len),
        BibEntryItem::Series(sp) => sp.wf(len),
        BibEntryItem::Publisher(sp) => sp.wf(len),
        BibEntryItem::Volume(sp) => sp.wf(len),
        BibEntryItem::Number(sp) => sp.wf(len),
        BibEntryItem::Pages(_) => true,
        BibEntryItem::Unused => true,
    }
}

/// Stores one parsed field into the record: exactly that field is set, and
/// only when it was not set before. A recognised field that is already set
/// is a duplicate and is refused, leaving the record unchanged; an unknown
/// field is discarded and sets nothing.
fn store_bib_item(entry: &mut BibEntry, it: BibEntryItem) -> (r: bool)
    ensures
        forall|len: nat|
            old(entry).wf(len) && wf_bib_item(it, len) ==> final(entry).wf(len),
        match it {
            BibEntryItem::Title(sp) => {
                &&& r == (old(entry).title is None)
                &&& r ==> *final(entry) == (BibEntry { title: Some(sp), ..*old(entry) })
            },
            BibEntryItem::Year(sp) => {
                &&& r == (old(entry).year is None)
                &&& r ==> *final(entry) == (BibEntry { year: Some(sp), ..*old(entry) })
            },
            BibEntryItem::Authors(persons) => {
                &&& r == (old(entry).authors is None)
                &&& r ==> *final(entry) == (BibEntry { authors: Some(persons), ..*old(entry) })
            },
            BibEntryItem::Url(sp) => {
                &&& r == (old(entry).url is None)
                &&& r ==> *final(entry) == (BibEntry { url: Some(sp), ..*old(entry) })
            },
            BibEntryItem::Journal(sp) => {
                &&& r == (old(entry).journal is None)
                &&& r ==> *final(entry) == (BibEntry { journal: Some(sp), ..*old(entry) })
            },
            BibEntryItem::Booktitle(sp) => {
                &&& r == (old(entry).booktitle is None)
                &&& r ==> *final(entry) == (BibEntry { booktitle: Some(sp), ..*old(entry) })
            },
            BibEntryItem::Series(sp) => {
                &&& r == (old(entry).series is None)
                &&& r ==> *final(entry) == (BibEntry { series: Some(sp), ..*old(entry) })
            },
            BibEntryItem::Publisher(sp) => {
                &&& r == (old(entry).publisher is None)
                &&& r ==> *final(entry) == (BibEntry { publisher: Some(sp), ..*old(entry) })
            },
            BibEntryItem::Volume(sp) => {
                &&& r == (old(entry).volume is None)
                &&& r ==> *final(entry) == (BibEntry { volume: Some(sp), ..*old(entry) })
            },
            BibEntryItem::Number(sp) => {
                &&& r == (old(entry).number is None)
                &&& r ==> *final(entry) == (BibEntry { number: Some(sp), ..*old(entry) })
            },
            BibEntryItem::Pages(pages) => {
                &&& r == (old(entry).pages is None)
                &&& r ==> *final(entry) == (BibEntry { pages: Some(pages), ..*old(entry) })
            },
            BibEntryItem::Unused => r && *final(entry) == *old(entry),
        },
        !r ==> *final(entry) == *old(entry),
{
    match it {
        BibEntryItem::Title(sp) => {
            if entry.title.is_some() {
                return false;
            }
            entry.title = Some(sp);
        },
        BibEntryItem::Year(sp) => {
            if entry.year.is_some() {
                return false;
            }
            entry.year = Some(sp);
        },
        BibEntryItem::Authors(persons) => {
            if entry.authors.is_some() {
                return false;
            }
            entry.authors = Some(persons);
        },
        BibEntryItem::Url(sp) => {
            if entry.url.is_some() {
                return false;
            }
            entry.url = Some(sp);
        },
        BibEntryItem::Journal(sp) => {
            if entry.journal.is_some() {
                return false;
            }
            entry.journal = Some(sp);
        },
        BibEntryItem::Booktitle(sp) => {
            if entry.booktitle.is_some() {
                return false;
            }
            entry.booktitle = Some(sp);
        },
        BibEntryItem::Series(sp) => {
            if entry.series.is_some() {
                return false;
            }
            entry.series = Some(sp);
        },
        BibEntryItem::Publisher(sp) => {
            if entry.publisher.is_some() {
                return false;
            }
            entry.publisher = Some(sp);
        },
        BibEntryItem::Volume(sp) => {
            if entry.volume.is_some() {
                return false;
            }
            entry.volume = Some(sp);
        },
        BibEntryItem::Number(sp) => {
            if entry.number.is_some() {
                return false;
            }
            entry.number = Some(sp);
        },
        BibEntryItem::Pages(pages) => {
            if entry.pages.is_some() {
                return false;
            }
            entry.pages = Some(pages);
        },
        BibEntryItem::Unused => {},
    }
    true
}

/// Parses a bibliography file: records separated by whitespace.
pub fn bib(src: &[u8], pos: usize) -> (r: Parsed<Vec<BibEntry>>)
    requires
        pos <= src@.len(),
    ensures
        bounds(r, pos as int, src@.len() as int),
        match r {
            Parsed::Done(p2, entries) => forall|k: int|
                0 <= k < entries@.len() ==> (#[trigger] entries@[k]).wf(src@.len()),
            _ => true,
        },
        !(r is Fail),
{
    let mut entries: Vec<BibEntry> = Vec::new();
    let mut q = bib_ws(src, pos);
    loop
        invariant
            pos <= q <= src@.len(),
            forall|k: int| 0 <= k < entries@.len() ==> (#[trigger] entries@[k]).wf(src@.len()),
        decreases src@.len() - q,
    {
        match bib_entry(src, q) {
            Parsed::Done(p2, e) => {
                entries.push(e);
                if p2 <= q {
                    break ;
                }
                q = p2;
            },
            Parsed::Fatal(at) => {
                return Parsed::Fatal(at);
            },
            Parsed::Fail => {
                break ;
            },
        }
        q = bib_ws(src, q);
    }
    Parsed::Done(q, entries)
}

} // verus!
