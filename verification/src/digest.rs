//! Content digests of formulas.
//!
//! The digest of a formula is SHA-256 over the preamble lines concatenated,
//! a one-byte kind discriminant, and the raw formula source bytes. It is the
//! cache key and the file name stem of the rendered image: identical preamble
//! and formula text always map to the same file, across positions and runs.
use crate::ast::Math;
use crate::span::Span;
use crate::text::ascii_bytes;
use sha2::Digest;
use vstd::prelude::*;

verus! {

/// The SHA-256 digest of a byte string.
pub uninterp spec fn sha256_of(input: Seq<u8>) -> Seq<u8>;

/// Relies on sha2::Sha256 (SHA-256 as in FIPS 180-4): the digest is a
/// function of the input bytes alone, and is 32 bytes long.
#[verifier::external_body]
fn sha256(input: &[u8]) -> (r: Vec<u8>)
    ensures
        r@ == sha256_of(input@),
        r@.len() == 32,
{
    let mut hasher = sha2::Sha256::new();
    hasher.update(input);
    hasher.finalize().to_vec()
}

/// The lowercase hexadecimal digit for a value below 16.
pub open spec fn hex_digit(n: u8) -> u8
    recommends
        n < 16,
{
    if n < 10 {
        (48 + n) as u8
    } else {
        (87 + n) as u8
    }
}

/// The lowercase hexadecimal rendering of a byte string, two digits per
/// byte, high nibble first.
pub open spec fn hex_of(bytes: Seq<u8>) -> Seq<u8>
    decreases bytes.len(),
{
    if bytes.len() == 0 {
        seq![]
    } else {
        hex_of(bytes.drop_last()) + seq![
            hex_digit(bytes.last() / 16),
            hex_digit(bytes.last() % 16),
        ]
    }
}

/// Renders a byte string in lowercase hexadecimal, two digits per byte,
/// high nibble first.
pub(crate) fn hex_bytes(b: &[u8]) -> (r: Vec<u8>)
    ensures
        r@ == hex_of(b@),
{
    let mut out: Vec<u8> = Vec::new();
    let mut i: usize = 0;
    proof {
        assert(b@.subrange(0, 0) =~= Seq::<u8>::empty());
    }
    while i < b.len()
        invariant
            i <= b@.len(),
            out@ == hex_of(b@.subrange(0, i as int)),
        decreases b@.len() - i,
    {
        let byte = b[i];
        let hi = byte / 16;
        let lo = byte % 16;
        out.push(
            if hi < 10 {
                48 + hi
            } else {
                87 + hi
            },
        );
        out.push(
            if lo < 10 {
                48 + lo
            } else {
                87 + lo
            },
        );
        proof {
            let sub = b@.subrange(0, i + 1);
            assert(sub.drop_last() =~= b@.subrange(0, i as int));
            assert(sub.last() == b@[i as int]);
            assert(out@ =~= hex_of(sub));
        }
        i += 1;
    }
    proof {
        assert(b@.subrange(0, b@.len() as int) =~= b@);
    }
    out
}

/// A formula content digest: the cache key.
#[derive(Debug, Clone, PartialEq, Eq, Hash)]
pub struct MathDigest(pub Vec<u8>);

impl MathDigest {
    /// True exactly when the two digests hold the same bytes.
    pub fn same(&self, other: &MathDigest) -> (r: bool)
        ensures
            r == (self.0@ == other.0@),
    {
        crate::text::bytes_eq(self.0.as_slice(), other.0.as_slice())
    }
}

/// The concatenated text of the preamble lines.
pub open spec fn preamble_text(preamble: Seq<Span>, src: Seq<u8>) -> Seq<u8>
    decreases preamble.len(),
{
    if preamble.len() == 0 {
        seq![]
    } else {
        preamble_text(preamble.drop_last(), src) + preamble.last().text(src)
    }
}

/// The bytes the digest is computed over: preamble, kind discriminant,
/// formula source.
pub open spec fn math_digest_input(preamble: Seq<Span>, src: Seq<u8>, m: Math) -> Seq<u8> {
    preamble_text(preamble, src) + seq![m.spec_kind_byte()] + m.spec_source().text(src)
}

/// The digest of one formula under a given preamble.
pub open spec fn spec_hash_math(preamble: Seq<Span>, src: Seq<u8>, m: Math) -> Seq<u8> {
    sha256_of(math_digest_input(preamble, src, m))
}

/// Hashes one formula: SHA-256 over the preamble lines, the kind
/// discriminant byte, and the raw formula source. Equal preamble and equal
/// formula text give equal digests, wherever the formula stands.
pub fn hash_math(src: &[u8], preamble: &Vec<Span>, math: &Math) -> (r: MathDigest)
    requires
        forall|i: int| 0 <= i < preamble@.len() ==> (#[trigger] preamble@[i]).wf(src@.len()),
        math.wf(src@.len()),
    ensures
        r.0@ == spec_hash_math(preamble@, src@, *math),
        r.0@.len() == 32,
{
    let mut input: Vec<u8> = Vec::new();
    let mut i: usize = 0;
    proof {
        assert(input@ =~= preamble_text(preamble@.subrange(0, 0), src@));
    }
    while i < preamble.len()
        invariant
            i <= preamble@.len(),
            forall|k: int| 0 <= k < preamble@.len() ==> (#[trigger] preamble@[k]).wf(src@.len()),
            input@ == preamble_text(preamble@.subrange(0, i as int), src@),
        decreases preamble@.len() - i,
    {
        let line = preamble[i];
        crate::text::push_bytes(&mut input, line.slice(src));
        proof {
            let sub = preamble@.subrange(0, i + 1);
            assert(sub.drop_last() =~= preamble@.subrange(0, i as int));
            assert(sub.last() == preamble@[i as int]);
        }
        i += 1;
    }
    proof {
        assert(preamble@.subrange(0, preamble@.len() as int) =~= preamble@);
    }
    input.push(math.kind_byte());
    let source = math.source_span();
    crate::text::push_bytes(&mut input, source.slice(src));
    proof {
        assert(input@ =~= math_digest_input(preamble@, src@, *math));
    }
    MathDigest(sha256(input.as_slice()))
}

/// Two formulas of the same kind whose source text is equal share one
/// digest under a given preamble, wherever they stand in the document: the
/// cache is addressed by content alone.
pub proof fn equal_formulas_share_digest(preamble: Seq<Span>, src: Seq<u8>, m1: Math, m2: Math)
    requires
        m1.spec_kind_byte() == m2.spec_kind_byte(),
        m1.spec_source().text(src) == m2.spec_source().text(src),
    ensures
        spec_hash_math(preamble, src, m1) == spec_hash_math(preamble, src, m2),
{
    assert(math_digest_input(preamble, src, m1) == math_digest_input(preamble, src, m2));
}

/// The directory, under the output root, that holds the rendered formula
/// images and their geometry stylesheet.
pub const SVG_OUT_DIR: &'static str = "img-math";

/// The cache-relative path of the image of a formula with the given digest.
pub open spec fn spec_image_path(digest: Seq<u8>) -> Seq<u8> {
    ascii_bytes("img-math/"@) + hex_of(digest) + ascii_bytes(".svg"@)
}

/// Renders the cache-relative image path `img-math/<hex digest>.svg`.
pub fn math_image_path(d: &MathDigest) -> (r: Vec<u8>)
    ensures
        r@ == spec_image_path(d.0@),
{
    proof {
        reveal_strlit("img-math/");
        reveal_strlit(".svg");
    }
    let mut out: Vec<u8> = Vec::new();
    crate::text::push_bytes(&mut out, crate::text::str_bytes("img-math/"));
    let hexed = hex_bytes(d.0.as_slice());
    crate::text::push_bytes(&mut out, hexed.as_slice());
    crate::text::push_bytes(&mut out, crate::text::str_bytes(".svg"));
    out
}

} // verus!
