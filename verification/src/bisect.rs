//! Localising a preamble fault by binary search.
//!
//! When a compile of a trivial formula under the document preamble fails,
//! the offending lines are narrowed down by repeatedly compiling prefixes of
//! the preamble. A candidate split point is never placed inside an
//! unbalanced curly-brace group, so no syntactically truncated fragment is
//! ever compiled. The compiles themselves are outside work: the caller runs
//! them and reports each outcome back to the [`PreambleBisection`] state.
use crate::span::Span;
use vstd::prelude::*;

verus! {

/// How many times the byte `b` occurs in `s`.
pub open spec fn count_byte(s: Seq<u8>, b: u8) -> nat
    decreases s.len(),
{
    if s.len() == 0 {
        0
    } else {
        count_byte(s.drop_last(), b) + if s.last() == b {
            1nat
        } else {
            0nat
        }
    }
}

/// How many times `b` occurs in the lines `[lo, hi)`.
pub open spec fn count_in_lines(lines: Seq<Span>, src: Seq<u8>, lo: int, hi: int, b: u8) -> nat
    decreases hi - lo,
{
    if hi <= lo {
        0
    } else {
        count_in_lines(lines, src, lo, hi - 1, b) + count_byte(lines[hi - 1].text(src), b)
    }
}

/// The lines `[lo, hi)` hold as many `{` as `}`.
pub open spec fn even_braces(lines: Seq<Span>, src: Seq<u8>, lo: int, hi: int) -> bool {
    count_in_lines(lines, src, lo, hi, 123) == count_in_lines(lines, src, lo, hi, 125)
}

proof fn lemma_count_byte_le_len(s: Seq<u8>, b: u8)
    ensures
        count_byte(s, b) <= s.len(),
    decreases s.len(),
{
    if s.len() > 0 {
        lemma_count_byte_le_len(s.drop_last(), b);
    }
}

proof fn lemma_count_lines_bound(lines: Seq<Span>, src: Seq<u8>, lo: int, hi: int, b: u8)
    requires
        0 <= lo,
        forall|k: int| 0 <= k < lines.len() ==> (#[trigger] lines[k]).wf(src.len()),
        hi <= lines.len(),
    ensures
        count_in_lines(lines, src, lo, hi, b) <= (if hi <= lo {
            0
        } else {
            (hi - lo) * src.len()
        }),
    decreases hi - lo,
{
    if hi > lo {
        lemma_count_lines_bound(lines, src, lo, hi - 1, b);
        lemma_count_byte_le_len(lines[hi - 1].text(src), b);
        assert(lines[hi - 1].text(src).len() <= src.len());
        assert((hi - 1 - lo) * src.len() + src.len() == (hi - lo) * src.len())
            by (nonlinear_arith);
    }
}

/// Counts the occurrences of `b` in one line.
fn count_byte_in(line: &[u8], b: u8) -> (c: usize)
    ensures
        c == count_byte(line@, b),
{
    let mut c: usize = 0;
    let mut i: usize = 0;
    proof {
        assert(line@.subrange(0, 0) =~= Seq::<u8>::empty());
    }
    while i < line.len()
        invariant
            i <= line@.len(),
            c <= i,
            c == count_byte(line@.subrange(0, i as int), b),
        decreases line@.len() - i,
    {
        proof {
            let sub = line@.subrange(0, i + 1);
            assert(sub.drop_last() =~= line@.subrange(0, i as int));
            assert(sub.last() == line@[i as int]);
        }
        if line[i] == b {
            c += 1;
        }
        i += 1;
    }
    proof {
        assert(line@.subrange(0, line@.len() as int) =~= line@);
    }
    c
}

/// Whether the preamble lines `[lo, hi)` hold balanced curly braces: as
/// many `{` as `}`.
pub fn has_even_curly_braces(src: &[u8], preamble: &Vec<Span>, lo: usize, hi: usize) -> (r: bool)
    requires
        lo <= hi <= preamble@.len(),
        forall|k: int| 0 <= k < preamble@.len() ==> (#[trigger] preamble@[k]).wf(src@.len()),
    ensures
        r == even_braces(preamble@, src@, lo as int, hi as int),
{
    let src_len: usize = src.len();
    let mut open: u128 = 0;
    let mut close: u128 = 0;
    let mut i: usize = lo;
    while i < hi
        invariant
            lo <= i <= hi <= preamble@.len(),
            src@.len() == src_len,
            forall|k: int| 0 <= k < preamble@.len() ==> (#[trigger] preamble@[k]).wf(src@.len()),
            open == count_in_lines(preamble@, src@, lo as int, i as int, 123),
            close == count_in_lines(preamble@, src@, lo as int, i as int, 125),
        decreases hi - i,
    {
        let line = preamble[i].slice(src);
        let c_open = count_byte_in(line, 123);
        let c_close = count_byte_in(line, 125);
        proof {
            lemma_count_lines_bound(preamble@, src@, lo as int, i + 1, 123);
            lemma_count_lines_bound(preamble@, src@, lo as int, i + 1, 125);
            assert((i + 1 - lo) * src@.len() <= 0xffff_ffff_ffff_ffff * 0xffff_ffff_ffff_ffff)
                by (nonlinear_arith)
                requires
                    0 <= i + 1 - lo <= 0xffff_ffff_ffff_ffff,
                    src@.len() == src_len,
                    src_len <= 0xffff_ffff_ffff_ffff,
            ;
        }
        open = open + (c_open as u128);
        close = close + (c_close as u128);
        i += 1;
    }
    open == close
}

/// The largest brace-balanced split at or below `s` (an offset from `lo`),
/// or zero when none exists down to one.
pub open spec fn down_split(lines: Seq<Span>, src: Seq<u8>, lo: int, s: int) -> int
    decreases s,
{
    if s <= 0 {
        0
    } else if even_braces(lines, src, lo, lo + s) {
        s
    } else {
        down_split(lines, src, lo, s - 1)
    }
}

/// The smallest brace-balanced split at or above `s`, or `len` when none
/// exists below `len`.
pub open spec fn up_split(lines: Seq<Span>, src: Seq<u8>, lo: int, s: int, len: int) -> int
    decreases len - s,
{
    if s >= len {
        len
    } else if even_braces(lines, src, lo, lo + s) {
        s
    } else {
        up_split(lines, src, lo, s + 1, len)
    }
}

proof fn lemma_down_split_bounds(lines: Seq<Span>, src: Seq<u8>, lo: int, s: int)
    requires
        s >= 0,
    ensures
        0 <= down_split(lines, src, lo, s) <= s,
    decreases s,
{
    if s > 0 && !even_braces(lines, src, lo, lo + s) {
        lemma_down_split_bounds(lines, src, lo, s - 1);
    }
}

proof fn lemma_up_split_bounds(lines: Seq<Span>, src: Seq<u8>, lo: int, s: int, len: int)
    requires
        0 <= s <= len,
    ensures
        s <= up_split(lines, src, lo, s, len) <= len,
    decreases len - s,
{
    if s < len && !even_braces(lines, src, lo, lo + s) {
        lemma_up_split_bounds(lines, src, lo, s + 1, len);
    }
}

/// Which split the search picks: the midpoint of the range, moved left
/// while the candidate prefix is brace-unbalanced; when that search reaches
/// zero, moved right from the midpoint instead; `None` when the range has
/// fewer than two lines or no interior split is balanced.
pub open spec fn spec_split_preamble(lines: Seq<Span>, src: Seq<u8>, lo: int, hi: int) -> Option<
    int,
> {
    let len = hi - lo;
    if len < 2 {
        None
    } else {
        let d = down_split(lines, src, lo, len / 2);
        if d > 0 {
            Some(d)
        } else {
            let u = up_split(lines, src, lo, len / 2, len);
            if u == len {
                None
            } else {
                Some(u)
            }
        }
    }
}

/// Picks a split index for the line range `[lo, hi)` of the preamble, as an
/// offset from `lo`: exactly the split [`spec_split_preamble`] describes —
/// near the midpoint, moved first left and then right until the lines
/// `[lo, lo + r)` hold balanced braces, so that no syntactically truncated
/// fragment is ever compiled. Returns `None` when the range cannot be
/// split: it has fewer than two lines, or no interior split point is
/// brace-balanced.
pub fn split_preamble(src: &[u8], preamble: &Vec<Span>, lo: usize, hi: usize) -> (r: Option<usize>)
    requires
        lo <= hi <= preamble@.len(),
        forall|k: int| 0 <= k < preamble@.len() ==> (#[trigger] preamble@[k]).wf(src@.len()),
    ensures
        match r {
            Some(s) => 0 < s < hi - lo && even_braces(preamble@, src@, lo as int, lo + s),
            None => hi - lo < 2 || forall|t: int|
                lo < t < hi ==> !(#[trigger] even_braces(preamble@, src@, lo as int, t)),
        },
        match spec_split_preamble(preamble@, src@, lo as int, hi as int) {
            Some(s) => r == Some(s as usize),
            None => r is None,
        },
{
    let len = hi - lo;
    if len < 2 {
        return None;
    }
    let mut split: usize = len / 2;
    while split > 0 && !has_even_curly_braces(src, preamble, lo, lo + split)
        invariant
            split <= len / 2,
            lo <= hi <= preamble@.len(),
            len == hi - lo,
            forall|k: int| 0 <= k < preamble@.len() ==> (#[trigger] preamble@[k]).wf(src@.len()),
            down_split(preamble@, src@, lo as int, (len / 2) as int) == down_split(
                preamble@,
                src@,
                lo as int,
                split as int,
            ),
            forall|t: int|
                lo + split < t <= lo + len / 2 ==> !(#[trigger] even_braces(
                    preamble@,
                    src@,
                    lo as int,
                    t,
                )),
        decreases split,
    {
        split -= 1;
    }
    if split == 0 {
        split = len / 2;
        while split < len && !has_even_curly_braces(src, preamble, lo, lo + split)
            invariant
                len / 2 <= split <= len,
                lo <= hi <= preamble@.len(),
                len == hi - lo,
                forall|k: int|
                    0 <= k < preamble@.len() ==> (#[trigger] preamble@[k]).wf(src@.len()),
                down_split(preamble@, src@, lo as int, (len / 2) as int) == 0,
                up_split(preamble@, src@, lo as int, (len / 2) as int, len as int) == up_split(
                    preamble@,
                    src@,
                    lo as int,
                    split as int,
                    len as int,
                ),
                forall|t: int|
                    lo + len / 2 <= t < lo + split ==> !(#[trigger] even_braces(
                        preamble@,
                        src@,
                        lo as int,
                        t,
                    )),
                forall|t: int|
                    lo < t <= lo + len / 2 ==> !(#[trigger] even_braces(
                        preamble@,
                        src@,
                        lo as int,
                        t,
                    )),
            decreases len - split,
        {
            split += 1;
        }
        if split == len {
            return None;
        }
        if split == 0 {
            // len >= 2, so len / 2 >= 1 and the upward scan never ends at 0
            proof {
                assert(false);
            }
        }
        return Some(split);
    }
    Some(split)
}

/// The state of a preamble bisection: the prefix `[0, known_good)` is known
/// to compile, failure is confirmed somewhere before `known_bad`. The
/// unexplained range is `[known_good, known_bad)`.
pub struct PreambleBisection {
    pub known_good: usize,
    pub known_bad: usize,
}

impl PreambleBisection {
    pub open spec fn wf(self, n: nat) -> bool {
        self.known_good <= self.known_bad <= n
    }

    /// Starts a bisection over a whole preamble of `n` lines, after the
    /// full preamble failed to compile.
    pub fn new(n: usize) -> (r: PreambleBisection)
        ensures
            r.known_good == 0,
            r.known_bad == n,
            r.wf(n as nat),
    {
        PreambleBisection { known_good: 0, known_bad: n }
    }

    /// Picks the next prefix length to compile — exactly `known_good` plus
    /// the split [`spec_split_preamble`] chooses for the unexplained range —
    /// strictly inside that range, with the candidate lines brace-balanced.
    /// `None` means the bisection is finished: no valid split remains and
    /// `[known_good, known_bad)` is the answer.
    pub fn next_split(&self, src: &[u8], preamble: &Vec<Span>) -> (r: Option<usize>)
        requires
            self.wf(preamble@.len()),
            forall|k: int| 0 <= k < preamble@.len() ==> (#[trigger] preamble@[k]).wf(src@.len()),
        ensures
            match spec_split_preamble(
                preamble@,
                src@,
                self.known_good as int,
                self.known_bad as int,
            ) {
                Some(s) => r == Some(((self.known_good + s) as usize)),
                None => r is None,
            },
            match r {
                Some(s) => self.known_good < s < self.known_bad && even_braces(
                    preamble@,
                    src@,
                    self.known_good as int,
                    s as int,
                ),
                None => self.known_bad - self.known_good < 2 || forall|s: int|
                    self.known_good < s < self.known_bad ==> !(#[trigger] even_braces(
                        preamble@,
                        src@,
                        self.known_good as int,
                        s,
                    )),
            },
    {
        proof {
            let kg = self.known_good as int;
            let kb = self.known_bad as int;
            if kb - kg >= 2 {
                lemma_down_split_bounds(preamble@, src@, kg, (kb - kg) / 2);
                lemma_up_split_bounds(preamble@, src@, kg, (kb - kg) / 2, kb - kg);
            }
        }
        match split_preamble(src, preamble, self.known_good, self.known_bad) {
            Some(offset) => Some(self.known_good + offset),
            None => None,
        }
    }

    /// Records the outcome of compiling the prefix `[0, split)`: success
    /// narrows the unexplained range from below, failure from above. The
    /// range shrinks strictly, so the bisection terminates.
    pub fn record(&mut self, split: usize, success: bool)
        requires
            old(self).known_good < split < old(self).known_bad,
        ensures
            success ==> *final(self) == (PreambleBisection {
                known_good: split,
                ..*old(self)
            }),
            !success ==> *final(self) == (PreambleBisection { known_bad: split, ..*old(self) }),
            final(self).known_bad - final(self).known_good < old(self).known_bad - old(
                self,
            ).known_good,
            forall|n: nat| old(self).wf(n) ==> final(self).wf(n),
    {
        if success {
            self.known_good = split;
        } else {
            self.known_bad = split;
        }
    }
}

} // verus!
