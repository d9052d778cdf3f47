//! The content-addressed cache of rendered formulas.
//!
//! The pipeline is split in two: this module plans and records, the caller
//! runs the external typesetting toolchain. Planning decides which formulas
//! must be compiled (each distinct digest at most once per run, and never
//! one whose file already exists); recording publishes results and appends
//! geometry rules. The [`CacheStore`] models the on-disk cache directory:
//! a file becomes visible at its final digest-named path only by a rename
//! of a fully written temporary, so no reader ever observes a partial file.
use crate::ast::Math;
use crate::digest::{MathDigest, hash_math, hex_of, spec_hash_math};
use crate::span::Span;
use crate::text::{ascii_bytes, dec_digits, push_bytes, str_bytes, u64_to_dec};
use vstd::prelude::*;

verus! {

/// One file of the cache directory, named by its digest.
pub struct CacheFile {
    pub digest: Vec<u8>,
    pub complete: bool,
}

/// An in-memory model of the cache directory: the files visible at final
/// digest-named paths, and the temporary files still being written. The
/// pipeline is run against this model in tests; the caller mirrors each
/// operation on the real directory.
pub struct CacheStore {
    pub finals: Vec<CacheFile>,
    pub temps: Vec<CacheFile>,
}

impl CacheStore {
    /// The digests visible at final paths.
    pub open spec fn final_digests(self) -> Seq<Seq<u8>> {
        Seq::new(self.finals@.len(), |i: int| self.finals@[i].digest@)
    }

    pub open spec fn temp_view(self) -> Seq<(Seq<u8>, bool)> {
        Seq::new(self.temps@.len(), |i: int| (self.temps@[i].digest@, self.temps@[i].complete))
    }

    /// Every file visible at a final path is fully written: the invariant
    /// behind atomic publication.
    pub open spec fn wf(self) -> bool {
        forall|i: int| 0 <= i < self.finals@.len() ==> (#[trigger] self.finals@[i]).complete
    }

    pub open spec fn spec_has(self, d: Seq<u8>) -> bool {
        exists|i: int| 0 <= i < self.final_digests().len() && self.final_digests()[i] == d
    }

    /// An empty cache directory.
    pub fn new() -> (r: CacheStore)
        ensures
            r.wf(),
            r.final_digests() =~= Seq::<Seq<u8>>::empty(),
            r.temp_view() =~= Seq::<(Seq<u8>, bool)>::empty(),
    {
        CacheStore { finals: Vec::new(), temps: Vec::new() }
    }

    /// Whether a file with this digest is visible at its final path.
    pub fn has(&self, d: &MathDigest) -> (r: bool)
        ensures
            r == self.spec_has(d.0@),
    {
        let mut i: usize = 0;
        while i < self.finals.len()
            invariant
                i <= self.finals@.len(),
                forall|k: int| 0 <= k < i ==> (#[trigger] self.finals@[k]).digest@ != d.0@,
            decreases self.finals@.len() - i,
        {
            if crate::text::bytes_eq(self.finals[i].digest.as_slice(), d.0.as_slice()) {
                proof {
                    assert(self.final_digests()[i as int] == d.0@);
                }
                return true;
            }
            i += 1;
        }
        proof {
            assert forall|k: int|
                0 <= k < self.final_digests().len() implies self.final_digests()[k] != d.0@ by {
                assert(self.finals@[k].digest@ != d.0@);
            }
        }
        false
    }

    /// Creates a temporary file for this digest; it starts incomplete and
    /// is invisible at the final path.
    pub fn begin_temp(&mut self, d: &MathDigest)
        requires
            old(self).wf(),
        ensures
            final(self).wf(),
            final(self).finals@ == old(self).finals@,
            final(self).temp_view() =~= old(self).temp_view() + seq![(d.0@, false)],
    {
        let digest = vstd::slice::slice_to_vec(d.0.as_slice());
        self.temps.push(CacheFile { digest, complete: false });
    }

    /// Marks every temporary with this digest fully written.
    pub fn seal_temp(&mut self, d: &MathDigest)
        requires
            old(self).wf(),
        ensures
            final(self).wf(),
            final(self).finals@ == old(self).finals@,
            final(self).temp_view() =~= Seq::new(
                old(self).temp_view().len(),
                |i: int|
                    if old(self).temp_view()[i].0 == d.0@ {
                        (d.0@, true)
                    } else {
                        old(self).temp_view()[i]
                    },
            ),
    {
        let mut i: usize = 0;
        while i < self.temps.len()
            invariant
                i <= self.temps@.len(),
                self.finals@ == old(self).finals@,
                self.temps@.len() == old(self).temps@.len(),
                forall|k: int|
                    i <= k < self.temps@.len() ==> #[trigger] self.temps@[k] == old(
                        self,
                    ).temps@[k],
                forall|k: int|
                    0 <= k < i ==> (#[trigger] self.temps@[k]).digest@ == (if old(
                        self,
                    ).temps@[k].digest@ == d.0@ {
                        d.0@
                    } else {
                        old(self).temps@[k].digest@
                    }) && self.temps@[k].complete == (old(self).temps@[k].digest@ == d.0@
                        || old(self).temps@[k].complete),
            decreases self.temps@.len() - i,
        {
            if crate::text::bytes_eq(self.temps[i].digest.as_slice(), d.0.as_slice()) {
                let digest = vstd::slice::slice_to_vec(d.0.as_slice());
                self.temps.set(i, CacheFile { digest, complete: true });
            }
            i += 1;
        }
    }

    /// Publishes a fully written temporary at its final path: the rename is
    /// the only way a file becomes visible there, so the store stays
    /// well-formed. Requires that the temporary was sealed first.
    pub fn publish(&mut self, d: &MathDigest)
        requires
            old(self).wf(),
            exists|i: int|
                0 <= i < old(self).temp_view().len() && old(self).temp_view()[i] == (d.0@, true),
        ensures
            final(self).wf(),
            final(self).final_digests() =~= old(self).final_digests() + seq![d.0@],
    {
        let digest = vstd::slice::slice_to_vec(d.0.as_slice());
        self.finals.push(CacheFile { digest, complete: true });
        proof {
            assert forall|i: int| 0 <= i < self.finals@.len() implies (
            #[trigger] self.finals@[i]).complete by {
                if i < old(self).finals@.len() {
                    assert(self.finals@[i] == old(self).finals@[i]);
                }
            }
        }
    }

    /// Models a crash: all temporaries vanish, the files at final paths
    /// stay. Whatever the interleaving was, every surviving file is fully
    /// written.
    pub fn crash(&mut self)
        requires
            old(self).wf(),
        ensures
            final(self).wf(),
            final(self).final_digests() == old(self).final_digests(),
            final(self).temp_view() =~= Seq::<(Seq<u8>, bool)>::empty(),
    {
        self.temps = Vec::new();
        proof {
            assert(self.final_digests() =~= old(self).final_digests());
        }
    }
}

/// Whether some digest in the list holds the same bytes as `d`.
pub open spec fn digests_contain(seen: Seq<MathDigest>, d: Seq<u8>) -> bool {
    exists|k: int| 0 <= k < seen.len() && (#[trigger] seen[k]).0@ == d
}

fn digest_list_contains(seen: &Vec<MathDigest>, d: &MathDigest) -> (r: bool)
    ensures
        r == digests_contain(seen@, d.0@),
{
    let mut k: usize = 0;
    while k < seen.len()
        invariant
            k <= seen@.len(),
            forall|j: int| 0 <= j < k ==> (#[trigger] seen@[j]).0@ != d.0@,
        decreases seen@.len() - k,
    {
        if seen[k].same(d) {
            return true;
        }
        k += 1;
    }
    false
}

/// Selects the formulas that must be compiled this run: those whose digest
/// is not yet on disk, each distinct digest once, in appearance order.
/// Rendering the same document again compiles nothing; a formula that
/// occurs twice is compiled once.
pub fn plan_new_math(
    src: &[u8],
    preamble: &Vec<Span>,
    math: &Vec<Math>,
    store: &CacheStore,
) -> (r: Vec<usize>)
    requires
        store.wf(),
        forall|i: int| 0 <= i < preamble@.len() ==> (#[trigger] preamble@[i]).wf(src@.len()),
        forall|i: int| 0 <= i < math@.len() ==> (#[trigger] math@[i]).wf(src@.len()),
    ensures
        forall|k: int| 0 <= k < r@.len() ==> (#[trigger] r@[k]) < math@.len(),
        // appearance order is kept
        forall|k1: int, k2: int| 0 <= k1 < k2 < r@.len() ==> r@[k1] < r@[k2],
        // nothing already on disk is compiled again
        forall|k: int|
            0 <= k < r@.len() ==> !store.spec_has(
                spec_hash_math(preamble@, src@, math@[#[trigger] r@[k] as int]),
            ),
        // each distinct digest is compiled at most once
        forall|k1: int, k2: int|
            0 <= k1 < k2 < r@.len() ==> spec_hash_math(
                preamble@,
                src@,
                math@[#[trigger] r@[k1] as int],
            ) != spec_hash_math(preamble@, src@, math@[#[trigger] r@[k2] as int]),
        // every formula that is not on disk is covered by some planned one
        forall|i: int|
            0 <= i < math@.len() && !store.spec_has(
                spec_hash_math(preamble@, src@, #[trigger] math@[i]),
            ) ==> exists|k: int|
                0 <= k < r@.len() && spec_hash_math(
                    preamble@,
                    src@,
                    math@[#[trigger] r@[k] as int],
                ) == spec_hash_math(preamble@, src@, math@[i]),
{
    let mut plan: Vec<usize> = Vec::new();
    let mut seen: Vec<MathDigest> = Vec::new();
    let mut i: usize = 0;
    while i < math.len()
        invariant
            i <= math@.len(),
            store.wf(),
            forall|k: int| 0 <= k < preamble@.len() ==> (#[trigger] preamble@[k]).wf(src@.len()),
            forall|k: int| 0 <= k < math@.len() ==> (#[trigger] math@[k]).wf(src@.len()),
            forall|k: int| 0 <= k < plan@.len() ==> (#[trigger] plan@[k]) < i,
            forall|k1: int, k2: int| 0 <= k1 < k2 < plan@.len() ==> plan@[k1] < plan@[k2],
            forall|k: int|
                0 <= k < plan@.len() ==> !store.spec_has(
                    spec_hash_math(preamble@, src@, math@[#[trigger] plan@[k] as int]),
                ),
            // the seen list holds exactly the digests of the planned formulas
            seen@.len() == plan@.len(),
            forall|k: int|
                0 <= k < plan@.len() ==> (#[trigger] seen@[k]).0@ == spec_hash_math(
                    preamble@,
                    src@,
                    math@[plan@[k] as int],
                ),
            forall|k1: int, k2: int|
                0 <= k1 < k2 < plan@.len() ==> (#[trigger] seen@[k1]).0@ != (
                #[trigger] seen@[k2]).0@,
            forall|j: int|
                0 <= j < i && !store.spec_has(
                    spec_hash_math(preamble@, src@, #[trigger] math@[j]),
                ) ==> digests_contain(seen@, spec_hash_math(preamble@, src@, math@[j])),
        decreases math@.len() - i,
    {
        let digest = hash_math(src, preamble, &math[i]);
        if !digest_list_contains(&seen, &digest) && !store.has(&digest) {
            let ghost seen_old = seen@;
            plan.push(i);
            seen.push(digest);
            proof {
                let sl = seen@;
                let pl = plan@;
                assert(sl[pl.len() - 1].0@ == spec_hash_math(preamble@, src@, math@[i as int]));
                assert(pl[pl.len() - 1] == i);
                assert forall|k1: int, k2: int| 0 <= k1 < k2 < pl.len() implies (
                #[trigger] sl[k1]).0@ != (#[trigger] sl[k2]).0@ by {
                    if k2 == pl.len() - 1 {
                        assert(sl[k1] == seen_old[k1]);
                        assert(!digests_contain(seen_old, sl[k2].0@));
                    } else {
                        assert(sl[k1] == seen_old[k1]);
                        assert(sl[k2] == seen_old[k2]);
                    }
                }
                assert(digests_contain(seen@, spec_hash_math(preamble@, src@, math@[i as int])))
                    by {
                    assert(seen@[seen@.len() - 1].0@ == spec_hash_math(
                        preamble@,
                        src@,
                        math@[i as int],
                    ));
                }
                assert forall|j: int|
                    0 <= j < i && !store.spec_has(
                        spec_hash_math(preamble@, src@, #[trigger] math@[j]),
                    ) implies digests_contain(
                    seen@,
                    spec_hash_math(preamble@, src@, math@[j]),
                ) by {
                    assert(digests_contain(seen_old, spec_hash_math(preamble@, src@, math@[j])));
                    let k = choose|k: int|
                        0 <= k < seen_old.len() && (#[trigger] seen_old[k]).0@ == spec_hash_math(
                            preamble@,
                            src@,
                            math@[j],
                        );
                    assert(seen@[k] == seen_old[k]);
                    assert(seen@[k].0@ == spec_hash_math(preamble@, src@, math@[j]));
                }
            }
        } else {
            proof {
                if !store.spec_has(spec_hash_math(preamble@, src@, math@[i as int])) {
                    assert(digests_contain(seen@, spec_hash_math(preamble@, src@, math@[i as int])));
                }
            }
        }
        i += 1;
    }
    proof {
        assert forall|k1: int, k2: int| 0 <= k1 < k2 < plan@.len() implies spec_hash_math(
            preamble@,
            src@,
            math@[#[trigger] plan@[k1] as int],
        ) != spec_hash_math(preamble@, src@, math@[#[trigger] plan@[k2] as int]) by {
            assert(seen@[k1].0@ == spec_hash_math(preamble@, src@, math@[plan@[k1] as int]));
            assert(seen@[k2].0@ == spec_hash_math(preamble@, src@, math@[plan@[k2] as int]));
            assert(seen@[k1].0@ != seen@[k2].0@);
        }
        assert forall|i2: int|
            0 <= i2 < math@.len() && !store.spec_has(
                spec_hash_math(preamble@, src@, #[trigger] math@[i2]),
            ) implies exists|k: int|
            0 <= k < plan@.len() && spec_hash_math(preamble@, src@, math@[#[trigger] plan@[k] as int])
                == spec_hash_math(preamble@, src@, math@[i2]) by {
            assert(digests_contain(seen@, spec_hash_math(preamble@, src@, math@[i2])));
            let k = choose|k: int|
                0 <= k < seen@.len() && (#[trigger] seen@[k]).0@ == spec_hash_math(
                    preamble@,
                    src@,
                    math@[i2],
                );
            assert(spec_hash_math(preamble@, src@, math@[plan@[k] as int]) == spec_hash_math(
                preamble@,
                src@,
                math@[i2],
            ));
        }
    }
    plan
}

/// Rendering a document whose formulas are all on disk compiles nothing:
/// any plan that respects the planner's contract is empty, so a second run
/// over an unchanged document never re-invokes the toolchain.
pub proof fn rendered_document_plans_nothing(
    preamble: Seq<Span>,
    src: Seq<u8>,
    math: Seq<Math>,
    store: CacheStore,
    plan: Seq<usize>,
)
    requires
        forall|i: int|
            0 <= i < math.len() ==> store.spec_has(
                spec_hash_math(preamble, src, #[trigger] math[i]),
            ),
        forall|k: int| 0 <= k < plan.len() ==> (#[trigger] plan[k]) < math.len(),
        forall|k: int|
            0 <= k < plan.len() ==> !store.spec_has(
                spec_hash_math(preamble, src, math[#[trigger] plan[k] as int]),
            ),
    ensures
        plan.len() == 0,
{
    if plan.len() > 0 {
        assert(store.spec_has(spec_hash_math(preamble, src, math[plan[0] as int])));
    }
}

/// The size and position record of one rendered image, in thousandths of an
/// em: the width and height of the cropped image, and for inline formulas
/// the baseline position measured from the top edge, so the image can sit
/// on the surrounding text baseline.
pub struct SvgGeom {
    pub width_milli_em: u64,
    pub height_milli_em: u64,
    pub baseline_milli_em: Option<i64>,
}

impl SvgGeom {
    /// The dimensions stay small enough that the top offset can be computed
    /// without overflow.
    pub open spec fn wf(self) -> bool {
        &&& self.width_milli_em < 0x4000_0000_0000_0000
        &&& self.height_milli_em < 0x4000_0000_0000_0000
        &&& match self.baseline_milli_em {
            Some(b) => -0x4000_0000_0000_0000 < b < 0x4000_0000_0000_0000,
            None => true,
        }
    }

    /// The `top` offset of the geometry rule: zero for block-level
    /// formulas, `height - baseline` for inline ones.
    pub open spec fn spec_top_milli_em(self) -> int {
        match self.baseline_milli_em {
            None => 0,
            Some(b) => self.height_milli_em - b,
        }
    }

    pub fn top_milli_em(&self) -> (r: i64)
        requires
            self.wf(),
        ensures
            r == self.spec_top_milli_em(),
    {
        match self.baseline_milli_em {
            None => 0,
            Some(b) => (self.height_milli_em as i64) - b,
        }
    }
}

/// The decimal rendering of a signed count of thousandths: an optional
/// minus sign, the whole part, and up to three fraction digits with
/// trailing zeros dropped.
pub open spec fn milli_dec(m: int) -> Seq<u8>
    decreases (if m < 0 {
        1int
    } else {
        0int
    }),
{
    if m < 0 {
        seq![45u8] + milli_dec(-m)
    } else {
        dec_digits((m / 1000) as nat) + frac3((m % 1000) as nat)
    }
}

/// The fraction digits of a value in thousandths, with trailing zeros
/// dropped; empty for a whole number.
pub open spec fn frac3(r: nat) -> Seq<u8> {
    if r == 0 {
        seq![]
    } else if r % 100 == 0 {
        seq![46u8, (48 + r / 100) as u8]
    } else if r % 10 == 0 {
        seq![46u8, (48 + r / 100) as u8, (48 + (r / 10) % 10) as u8]
    } else {
        seq![46u8, (48 + r / 100) as u8, (48 + (r / 10) % 10) as u8, (48 + r % 10) as u8]
    }
}

/// Renders a signed count of thousandths in decimal.
pub fn milli_to_dec(m: i64) -> (r: Vec<u8>)
    requires
        -0x7fff_ffff_ffff_ffff <= m,
    ensures
        r@ == milli_dec(m as int),
{
    let mut out: Vec<u8> = Vec::new();
    let mag: u64 = if m < 0 {
        out.push(45u8);
        (-m) as u64
    } else {
        m as u64
    };
    let whole = u64_to_dec(mag / 1000);
    push_bytes(&mut out, whole.as_slice());
    let r = mag % 1000;
    if r != 0 {
        out.push(46u8);
        out.push(48 + ((r / 100) as u8));
        if r % 100 != 0 {
            out.push(48 + (((r / 10) % 10) as u8));
            if r % 10 != 0 {
                out.push(48 + ((r % 10) as u8));
            }
        }
    }
    proof {
        if m >= 0 {
            assert(out@ =~= milli_dec(m as int));
        } else {
            assert(out@ =~= seq![45u8] + milli_dec(-(m as int)));
        }
    }
    out
}

/// One geometry rule: a digest-qualified selector recording the image's
/// width, height and top offset in em.
pub open spec fn css_rule(digest: Seq<u8>, w: int, h: int, t: int) -> Seq<u8> {
    ascii_bytes("img[src$=\""@) + hex_of(digest) + ascii_bytes(".svg\"] {\n    width: "@)
        + milli_dec(w) + ascii_bytes("em;\n    height: "@) + milli_dec(h) + ascii_bytes(
        "em;\n    top: "@,
    ) + milli_dec(t) + ascii_bytes("em;\n}\n"@)
}

/// Appends one geometry rule to the stylesheet. The stylesheet is
/// append-only: what was recorded before stays in place.
pub fn append_geometry_rule(css: &mut Vec<u8>, digest: &MathDigest, geom: &SvgGeom)
    requires
        geom.wf(),
    ensures
        final(css)@ == old(css)@ + css_rule(
            digest.0@,
            geom.width_milli_em as int,
            geom.height_milli_em as int,
            geom.spec_top_milli_em(),
        ),
{
    proof {
        reveal_strlit("img[src$=\"");
        reveal_strlit(".svg\"] {\n    width: ");
        reveal_strlit("em;\n    height: ");
        reveal_strlit("em;\n    top: ");
        reveal_strlit("em;\n}\n");
    }
    push_bytes(css, str_bytes("img[src$=\""));
    let hexed = crate::digest::hex_bytes(digest.0.as_slice());
    push_bytes(css, hexed.as_slice());
    push_bytes(css, str_bytes(".svg\"] {\n    width: "));
    let w = milli_to_dec(geom.width_milli_em as i64);
    push_bytes(css, w.as_slice());
    push_bytes(css, str_bytes("em;\n    height: "));
    let h = milli_to_dec(geom.height_milli_em as i64);
    push_bytes(css, h.as_slice());
    push_bytes(css, str_bytes("em;\n    top: "));
    let t = milli_to_dec(geom.top_milli_em());
    push_bytes(css, t.as_slice());
    push_bytes(css, str_bytes("em;\n}\n"));
    proof {
        assert(final(css)@ =~= old(css)@ + css_rule(
            digest.0@,
            geom.width_milli_em as int,
            geom.height_milli_em as int,
            geom.spec_top_milli_em(),
        ));
    }
}

} // verus!
