//! The semantic analysis pass: pure functions over a parsed document and its
//! node registries, producing numbering, reference and citation display
//! text, and the filtered, ordered bibliography.
//!
//! Node identity is positional: a document part is identified by its index
//! in `doc.parts`, a formula by its index in the registry of formulas in
//! appearance order.
use crate::ast::{BibEntry, BibPerson, Document, DocumentPart, FirstName, Math, NodeLists};
use crate::digest::{hash_math, math_image_path, spec_hash_math, spec_image_path};
use crate::span::Span;
use crate::text::{bytes_eq, dec_digits, push_bytes, u64_to_dec};
use vstd::prelude::*;

verus! {

/// The three numbering counters after a sequence of document parts: one
/// shared counter for all theorem-like blocks, one for sections, one for
/// subsections. A new section resets the subsection counter.
pub struct NumberingCounters {
    pub theorem_like: nat,
    pub section: nat,
    pub subsection: nat,
}

pub open spec fn numbering_counters(parts: Seq<DocumentPart>) -> NumberingCounters
    decreases parts,
{
    if parts.len() == 0 {
        NumberingCounters { theorem_like: 0, section: 0, subsection: 0 }
    } else {
        let c = numbering_counters(parts.drop_last());
        match parts.last() {
            DocumentPart::TheoremLike { .. } => NumberingCounters {
                theorem_like: c.theorem_like + 1,
                ..c
            },
            DocumentPart::Section { .. } => NumberingCounters {
                section: c.section + 1,
                subsection: 0,
                ..c
            },
            DocumentPart::Subsection { .. } => NumberingCounters {
                subsection: c.subsection + 1,
                ..c
            },
            _ => c,
        }
    }
}

pub open spec fn opt_bytes(o: Option<Vec<u8>>) -> Option<Seq<u8>> {
    match o {
        Some(v) => Some(v@),
        None => None,
    }
}

/// The number string of the part at index `i`: its counter value after the
/// parts up to and including it. Sections show their own counter,
/// subsections `{section}.{subsection}`, theorem-like blocks the shared
/// counter; other parts carry no number.
pub open spec fn spec_part_number(parts: Seq<DocumentPart>, i: int) -> Option<Seq<u8>>
    recommends
        0 <= i < parts.len(),
{
    let c = numbering_counters(parts.subrange(0, i + 1));
    match parts[i] {
        DocumentPart::TheoremLike { .. } => Some(dec_digits(c.theorem_like)),
        DocumentPart::Section { .. } => Some(dec_digits(c.section)),
        DocumentPart::Subsection { .. } => Some(
            dec_digits(c.section) + seq![46u8] + dec_digits(c.subsection),
        ),
        _ => None,
    }
}

/// Assigns number strings to the document parts, in one linear scan with
/// three counters. Entry `i` of the result is the number of part `i`, or
/// `None` for parts that carry no number.
pub fn doc_part_numbering(doc: &Document) -> (r: Vec<Option<Vec<u8>>>)
    ensures
        r@.len() == doc.parts@.len(),
        forall|i: int|
            0 <= i < doc.parts@.len() ==> opt_bytes(#[trigger] r@[i]) == spec_part_number(
                doc.parts@,
                i,
            ),
{
    let mut result: Vec<Option<Vec<u8>>> = Vec::new();
    let mut theorem_like: u64 = 0;
    let mut section: u64 = 0;
    let mut subsection: u64 = 0;
    let mut i: usize = 0;
    proof {
        assert(doc.parts@.subrange(0, 0) =~= Seq::<DocumentPart>::empty());
    }
    while i < doc.parts.len()
        invariant
            i <= doc.parts@.len(),
            r_counters_ok(doc.parts@, i as int, theorem_like, section, subsection),
            result@.len() == i,
            forall|k: int|
                0 <= k < i ==> opt_bytes(#[trigger] result@[k]) == spec_part_number(
                    doc.parts@,
                    k,
                ),
        decreases doc.parts@.len() - i,
    {
        proof {
            let sub = doc.parts@.subrange(0, i + 1);
            assert(sub.drop_last() =~= doc.parts@.subrange(0, i as int));
            assert(sub.last() == doc.parts@[i as int]);
        }
        match &doc.parts[i] {
            DocumentPart::TheoremLike { .. } => {
                theorem_like = theorem_like + 1;
                result.push(Some(u64_to_dec(theorem_like)));
            },
            DocumentPart::Section { .. } => {
                section = section + 1;
                subsection = 0;
                result.push(Some(u64_to_dec(section)));
            },
            DocumentPart::Subsection { .. } => {
                subsection = subsection + 1;
                let mut number = u64_to_dec(section);
                number.push(46u8);
                let tail = u64_to_dec(subsection);
                push_bytes(&mut number, tail.as_slice());
                proof {
                    assert(number@ =~= dec_digits(section as nat) + seq![46u8] + dec_digits(
                        subsection as nat,
                    ));
                }
                result.push(Some(number));
            },
            _ => {
                result.push(None);
            },
        }
        i += 1;
    }
    result
}

/// The exec counters agree with the specification counters after `i` parts,
/// and stay small enough that incrementing cannot overflow.
pub open spec fn r_counters_ok(
    parts: Seq<DocumentPart>,
    i: int,
    theorem_like: u64,
    section: u64,
    subsection: u64,
) -> bool {
    let c = numbering_counters(parts.subrange(0, i));
    &&& theorem_like == c.theorem_like
    &&& section == c.section
    &&& subsection == c.subsection
    &&& theorem_like <= i
    &&& section <= i
    &&& subsection <= i
}

/// True when some span in `refs` denotes the text `t`.
pub open spec fn refs_contain(refs: Seq<Span>, src: Seq<u8>, t: Seq<u8>) -> bool {
    exists|k: int| 0 <= k < refs.len() && (#[trigger] refs[k]).text(src) == t
}

/// Checks whether some id in the list denotes the text `t`.
pub fn span_list_contains(ids: &Vec<Span>, src: &[u8], t: &[u8]) -> (r: bool)
    requires
        forall|k: int| 0 <= k < ids@.len() ==> (#[trigger] ids@[k]).wf(src@.len()),
    ensures
        r == refs_contain(ids@, src@, t@),
{
    let mut k: usize = 0;
    while k < ids.len()
        invariant
            k <= ids@.len(),
            forall|j: int| 0 <= j < ids@.len() ==> (#[trigger] ids@[j]).wf(src@.len()),
            forall|j: int| 0 <= j < k ==> (#[trigger] ids@[j]).text(src@) != t@,
        decreases ids@.len() - k,
    {
        if bytes_eq(ids[k].slice(src), t) {
            return true;
        }
        k += 1;
    }
    false
}

/// A formula is numbered exactly when it carries a label and that label is
/// referenced somewhere in the document.
pub open spec fn math_is_numbered(m: Math, refs: Seq<Span>, src: Seq<u8>) -> bool {
    match m.spec_label() {
        Some(l) => refs_contain(refs, src, l.text(src)),
        None => false,
    }
}

/// How many of the first `n` formulas are numbered.
pub open spec fn numbered_count(math: Seq<Math>, refs: Seq<Span>, src: Seq<u8>, n: int) -> nat
    decreases n,
{
    if n <= 0 {
        0
    } else {
        numbered_count(math, refs, src, n - 1) + if math_is_numbered(math[n - 1], refs, src) {
            1nat
        } else {
            0nat
        }
    }
}

/// The equation number string `(k)` of formula `i`, or `None` when the
/// formula is unlabeled or its label is never referenced. Numbers increment
/// only over the numbered subset, in appearance order: no number is spent on
/// a formula that shows none.
pub open spec fn spec_math_number(math: Seq<Math>, refs: Seq<Span>, src: Seq<u8>, i: int) -> Option<
    Seq<u8>,
>
    recommends
        0 <= i < math.len(),
{
    if math_is_numbered(math[i], refs, src) {
        Some(seq![40u8] + dec_digits(numbered_count(math, refs, src, i + 1)) + seq![41u8])
    } else {
        None
    }
}

/// Assigns equation numbers to the formulas of the registry: only labeled
/// formulas whose label is referenced receive one.
pub fn math_numbering(node_lists: &NodeLists, src: &[u8]) -> (r: Vec<Option<Vec<u8>>>)
    requires
        node_lists.wf(src@.len()),
    ensures
        r@.len() == node_lists.math@.len(),
        forall|i: int|
            0 <= i < node_lists.math@.len() ==> opt_bytes(#[trigger] r@[i]) == spec_math_number(
                node_lists.math@,
                node_lists.ref_ids@,
                src@,
                i,
            ),
{
    let mut result: Vec<Option<Vec<u8>>> = Vec::new();
    let mut count: u64 = 0;
    let mut i: usize = 0;
    while i < node_lists.math.len()
        invariant
            i <= node_lists.math@.len(),
            node_lists.wf(src@.len()),
            count == numbered_count(node_lists.math@, node_lists.ref_ids@, src@, i as int),
            count <= i,
            result@.len() == i,
            forall|k: int|
                0 <= k < i ==> opt_bytes(#[trigger] result@[k]) == spec_math_number(
                    node_lists.math@,
                    node_lists.ref_ids@,
                    src@,
                    k,
                ),
        decreases node_lists.math@.len() - i,
    {
        let math = &node_lists.math[i];
        let numbered = match math.label() {
            Some(label) => span_list_contains(&node_lists.ref_ids, src, label.slice(src)),
            None => false,
        };
        if numbered {
            count = count + 1;
            let mut number: Vec<u8> = Vec::new();
            number.push(40u8);
            let digits = u64_to_dec(count);
            push_bytes(&mut number, digits.as_slice());
            number.push(41u8);
            proof {
                assert(number@ =~= seq![40u8] + dec_digits(count as nat) + seq![41u8]);
            }
            result.push(Some(number));
        } else {
            result.push(None);
        }
        i += 1;
    }
    result
}

/// Computes the cache-relative image path of every formula of the registry
/// from its content digest alone; every formula gets one, numbered or not.
pub fn math_image_source(doc: &Document, node_lists: &NodeLists, src: &[u8]) -> (r: Vec<Vec<u8>>)
    requires
        doc.wf(src@.len()),
        node_lists.wf(src@.len()),
    ensures
        r@.len() == node_lists.math@.len(),
        forall|i: int|
            0 <= i < node_lists.math@.len() ==> (#[trigger] r@[i])@ == spec_image_path(
                spec_hash_math(doc.preamble@, src@, node_lists.math@[i]),
            ),
{
    let mut result: Vec<Vec<u8>> = Vec::new();
    let mut i: usize = 0;
    while i < node_lists.math.len()
        invariant
            i <= node_lists.math@.len(),
            doc.wf(src@.len()),
            node_lists.wf(src@.len()),
            result@.len() == i,
            forall|k: int|
                0 <= k < i ==> (#[trigger] result@[k])@ == spec_image_path(
                    spec_hash_math(doc.preamble@, src@, node_lists.math@[k]),
                ),
        decreases node_lists.math@.len() - i,
    {
        let digest = hash_math(src, &doc.preamble, &node_lists.math[i]);
        result.push(math_image_path(&digest));
        i += 1;
    }
    result
}

/// The rendered text of one first name: the letters, with a trailing dot
/// for an abbreviation.
pub open spec fn first_name_text(f: FirstName, src: Seq<u8>) -> Seq<u8> {
    match f {
        FirstName::Full(s) => s.text(src),
        FirstName::Abbreviation(s) => s.text(src) + seq![46u8],
    }
}

/// The rendered name components of a person, in display order: each first
/// name, then the last name. Author lists are ordered by these components.
pub open spec fn person_key(p: BibPerson, src: Seq<u8>) -> Seq<Seq<u8>> {
    Seq::new(
        p.first_names@.len() + 1,
        |i: int|
            if i < p.first_names@.len() {
                first_name_text(p.first_names@[i], src)
            } else {
                p.last_name.text(src)
            },
    )
}

/// Strict byte-wise lexicographic order on byte strings.
pub open spec fn lex_bytes_lt(a: Seq<u8>, b: Seq<u8>) -> bool
    decreases a.len(),
{
    if b.len() == 0 {
        false
    } else if a.len() == 0 {
        true
    } else if a[0] < b[0] {
        true
    } else if a[0] > b[0] {
        false
    } else {
        lex_bytes_lt(a.drop_first(), b.drop_first())
    }
}

/// Strict lexicographic order on component lists, components ordered by
/// [`lex_bytes_lt`]; components that are ordered neither way are treated as
/// equal.
pub open spec fn comps_lt(a: Seq<Seq<u8>>, b: Seq<Seq<u8>>) -> bool
    decreases a.len(),
{
    if b.len() == 0 {
        false
    } else if a.len() == 0 {
        true
    } else if lex_bytes_lt(a[0], b[0]) {
        true
    } else if lex_bytes_lt(b[0], a[0]) {
        false
    } else {
        comps_lt(a.drop_first(), b.drop_first())
    }
}

/// Strict lexicographic order on author lists, persons ordered by their
/// rendered name components.
pub open spec fn persons_lt(a: Seq<BibPerson>, b: Seq<BibPerson>, src: Seq<u8>) -> bool
    decreases a.len(),
{
    if b.len() == 0 {
        false
    } else if a.len() == 0 {
        true
    } else if comps_lt(person_key(a[0], src), person_key(b[0], src)) {
        true
    } else if comps_lt(person_key(b[0], src), person_key(a[0], src)) {
        false
    } else {
        persons_lt(a.drop_first(), b.drop_first(), src)
    }
}

/// The display order of the bibliography: entries without an author list
/// stand before entries with one; among entries with authors, author lists
/// are compared lexicographically.
pub open spec fn entry_le(x: BibEntry, y: BibEntry, src: Seq<u8>) -> bool {
    match (x.authors, y.authors) {
        (Option::None, _) => true,
        (Option::Some(_), Option::None) => false,
        (Option::Some(a), Option::Some(b)) => !persons_lt(b@, a@, src),
    }
}

pub proof fn lemma_lex_bytes_lt_asym(a: Seq<u8>, b: Seq<u8>)
    ensures
        !(lex_bytes_lt(a, b) && lex_bytes_lt(b, a)),
    decreases a.len(),
{
    if a.len() > 0 && b.len() > 0 && a[0] == b[0] {
        lemma_lex_bytes_lt_asym(a.drop_first(), b.drop_first());
    }
}

pub proof fn lemma_comps_lt_asym(a: Seq<Seq<u8>>, b: Seq<Seq<u8>>)
    ensures
        !(comps_lt(a, b) && comps_lt(b, a)),
    decreases a.len(),
{
    if a.len() > 0 && b.len() > 0 {
        lemma_lex_bytes_lt_asym(a[0], b[0]);
        if !lex_bytes_lt(a[0], b[0]) && !lex_bytes_lt(b[0], a[0]) {
            lemma_comps_lt_asym(a.drop_first(), b.drop_first());
        }
    }
}

pub proof fn lemma_persons_lt_asym(a: Seq<BibPerson>, b: Seq<BibPerson>, src: Seq<u8>)
    ensures
        !(persons_lt(a, b, src) && persons_lt(b, a, src)),
    decreases a.len(),
{
    if a.len() > 0 && b.len() > 0 {
        lemma_comps_lt_asym(person_key(a[0], src), person_key(b[0], src));
        if !comps_lt(person_key(a[0], src), person_key(b[0], src)) && !comps_lt(
            person_key(b[0], src),
            person_key(a[0], src),
        ) {
            lemma_persons_lt_asym(a.drop_first(), b.drop_first(), src);
        }
    }
}

/// The display order is total: any two entries are ordered one way or the
/// other.
pub proof fn lemma_entry_le_total(x: BibEntry, y: BibEntry, src: Seq<u8>)
    ensures
        entry_le(x, y, src) || entry_le(y, x, src),
{
    match (x.authors, y.authors) {
        (Option::Some(a), Option::Some(b)) => {
            lemma_persons_lt_asym(a@, b@, src);
        },
        _ => {},
    }
}

fn bytes_less(a: &[u8], b: &[u8]) -> (r: bool)
    ensures
        r == lex_bytes_lt(a@, b@),
    decreases a@.len(),
{
    if b.len() == 0 {
        false
    } else if a.len() == 0 {
        true
    } else if a[0] < b[0] {
        true
    } else if a[0] > b[0] {
        false
    } else {
        let r = bytes_less(&a[1..a.len()], &b[1..b.len()]);
        proof {
            assert(a@.subrange(1, a@.len() as int) =~= a@.drop_first());
            assert(b@.subrange(1, b@.len() as int) =~= b@.drop_first());
        }
        r
    }
}

/// The views of a list of byte vectors.
pub open spec fn vecs_view(s: Seq<Vec<u8>>) -> Seq<Seq<u8>> {
    Seq::new(s.len(), |i: int| s[i]@)
}

/// Builds the rendered name components of a person.
fn person_key_exec(p: &BibPerson, src: &[u8]) -> (r: Vec<Vec<u8>>)
    requires
        crate::ast::wf_bib_person(*p, src@.len()),
    ensures
        vecs_view(r@) == person_key(*p, src@),
{
    let mut r: Vec<Vec<u8>> = Vec::new();
    let mut i: usize = 0;
    while i < p.first_names.len()
        invariant
            i <= p.first_names@.len(),
            crate::ast::wf_bib_person(*p, src@.len()),
            r@.len() == i,
            forall|k: int| 0 <= k < i ==> (#[trigger] r@[k])@ == first_name_text(
                p.first_names@[k],
                src@,
            ),
        decreases p.first_names@.len() - i,
    {
        match &p.first_names[i] {
            FirstName::Full(s) => {
                r.push(vstd::slice::slice_to_vec(s.slice(src)));
            },
            FirstName::Abbreviation(s) => {
                let mut name = vstd::slice::slice_to_vec(s.slice(src));
                name.push(46u8);
                proof {
                    assert(name@ =~= first_name_text(p.first_names@[i as int], src@));
                }
                r.push(name);
            },
        }
        i += 1;
    }
    r.push(vstd::slice::slice_to_vec(p.last_name.slice(src)));
    proof {
        assert(vecs_view(r@) =~= person_key(*p, src@));
    }
    r
}

fn comps_less_from(a: &Vec<Vec<u8>>, b: &Vec<Vec<u8>>, i: usize) -> (r: bool)
    requires
        i <= a@.len(),
        i <= b@.len(),
    ensures
        r == comps_lt(vecs_view(a@).skip(i as int), vecs_view(b@).skip(i as int)),
    decreases a@.len() - i,
{
    proof {
        assert(vecs_view(a@).skip(i as int).len() == a@.len() - i);
        assert(vecs_view(b@).skip(i as int).len() == b@.len() - i);
    }
    if i >= b.len() {
        false
    } else if i >= a.len() {
        true
    } else {
        proof {
            assert(vecs_view(a@).skip(i as int)[0] == a@[i as int]@);
            assert(vecs_view(b@).skip(i as int)[0] == b@[i as int]@);
        }
        if bytes_less(a[i].as_slice(), b[i].as_slice()) {
            true
        } else if bytes_less(b[i].as_slice(), a[i].as_slice()) {
            false
        } else {
            let r = comps_less_from(a, b, i + 1);
            proof {
                assert(vecs_view(a@).skip(i as int).drop_first() =~= vecs_view(a@).skip(i + 1));
                assert(vecs_view(b@).skip(i as int).drop_first() =~= vecs_view(b@).skip(i + 1));
            }
            r
        }
    }
}

fn persons_less_from(a: &Vec<BibPerson>, b: &Vec<BibPerson>, src: &[u8], i: usize) -> (r: bool)
    requires
        i <= a@.len(),
        i <= b@.len(),
        forall|k: int| 0 <= k < a@.len() ==> crate::ast::wf_bib_person(#[trigger] a@[k], src@.len()),
        forall|k: int| 0 <= k < b@.len() ==> crate::ast::wf_bib_person(#[trigger] b@[k], src@.len()),
    ensures
        r == persons_lt(a@.skip(i as int), b@.skip(i as int), src@),
    decreases a@.len() - i,
{
    if i >= b.len() {
        false
    } else if i >= a.len() {
        true
    } else {
        proof {
            assert(a@.skip(i as int)[0] == a@[i as int]);
            assert(b@.skip(i as int)[0] == b@[i as int]);
        }
        let ka = person_key_exec(&a[i], src);
        let kb = person_key_exec(&b[i], src);
        proof {
            assert(vecs_view(ka@).skip(0) =~= person_key(a@[i as int], src@));
            assert(vecs_view(kb@).skip(0) =~= person_key(b@[i as int], src@));
        }
        if comps_less_from(&ka, &kb, 0) {
            true
        } else if comps_less_from(&kb, &ka, 0) {
            false
        } else {
            let r = persons_less_from(a, b, src, i + 1);
            proof {
                assert(a@.skip(i as int).drop_first() =~= a@.skip(i + 1));
                assert(b@.skip(i as int).drop_first() =~= b@.skip(i + 1));
            }
            r
        }
    }
}

/// Decides the display order of two bibliography entries.
fn entry_le_exec(x: &BibEntry, y: &BibEntry, src: &[u8]) -> (r: bool)
    requires
        x.wf(src@.len()),
        y.wf(src@.len()),
    ensures
        r == entry_le(*x, *y, src@),
{
    match (&x.authors, &y.authors) {
        (Option::None, _) => true,
        (Option::Some(_), Option::None) => false,
        (Option::Some(a), Option::Some(b)) => {
            let r = !persons_less_from(b, a, src, 0);
            proof {
                assert(b@.skip(0) =~= b@);
                assert(a@.skip(0) =~= a@);
            }
            r
        },
    }
}

/// An entry is cited when some `\cite` id in the document denotes its tag.
pub open spec fn cited(e: BibEntry, cites: Seq<Span>, tex: Seq<u8>, bib: Seq<u8>) -> bool {
    refs_contain(cites, tex, e.tag.text(bib))
}

/// The indices of the cited entries among the first `n`, in input order.
pub open spec fn cited_indices(
    entries: Seq<BibEntry>,
    cites: Seq<Span>,
    tex: Seq<u8>,
    bib: Seq<u8>,
    n: int,
) -> Seq<usize>
    decreases n,
{
    if n <= 0 {
        seq![]
    } else {
        let prefix = cited_indices(entries, cites, tex, bib, n - 1);
        if cited(entries[n - 1], cites, tex, bib) {
            prefix + seq![(n - 1) as usize]
        } else {
            prefix
        }
    }
}

proof fn lemma_insert_at(s: Seq<usize>, p: int, x: usize, k: int)
    requires
        0 <= p <= s.len(),
        0 <= k <= s.len(),
    ensures
        s.insert(p, x).len() == s.len() + 1,
        k < p ==> s.insert(p, x)[k] == s[k],
        k == p ==> s.insert(p, x)[k] == x,
        k > p ==> s.insert(p, x)[k] == s[k - 1],
{
}

proof fn lemma_insert_multiset(s: Seq<usize>, p: int, x: usize)
    requires
        0 <= p <= s.len(),
    ensures
        s.insert(p, x).to_multiset() == s.to_multiset().insert(x),
{
    broadcast use vstd::seq_lib::group_to_multiset_ensures;

}

/// Filters the bibliography down to the cited entries and sorts it for
/// display: entries without an author list first, the rest by lexicographic
/// comparison of their author lists. Returns indices into the parsed entry
/// list.
pub fn bib_entries(
    all_bib_entries: &Vec<BibEntry>,
    node_lists: &NodeLists,
    src: &[u8],
    bib_src: &[u8],
) -> (r: Vec<usize>)
    requires
        node_lists.wf(src@.len()),
        forall|k: int|
            0 <= k < all_bib_entries@.len() ==> (#[trigger] all_bib_entries@[k]).wf(
                bib_src@.len(),
            ),
    ensures
        forall|k: int| 0 <= k < r@.len() ==> (#[trigger] r@[k]) < all_bib_entries@.len(),
        forall|k: int|
            0 <= k && k + 1 < r@.len() ==> entry_le(
                all_bib_entries@[#[trigger] r@[k] as int],
                all_bib_entries@[r@[k + 1] as int],
                bib_src@,
            ),
        r@.to_multiset() == cited_indices(
            all_bib_entries@,
            node_lists.cite_ids@,
            src@,
            bib_src@,
            all_bib_entries@.len() as int,
        ).to_multiset(),
{
    broadcast use vstd::seq_lib::group_to_multiset_ensures;

    let ghost cites = node_lists.cite_ids@;
    let mut result: Vec<usize> = Vec::new();
    let mut idx: usize = 0;
    while idx < all_bib_entries.len()
        invariant
            idx <= all_bib_entries@.len(),
            node_lists.wf(src@.len()),
            cites == node_lists.cite_ids@,
            forall|k: int|
                0 <= k < all_bib_entries@.len() ==> (#[trigger] all_bib_entries@[k]).wf(
                    bib_src@.len(),
                ),
            forall|k: int| 0 <= k < result@.len() ==> (#[trigger] result@[k]) < all_bib_entries@.len(),
            forall|k: int|
                0 <= k && k + 1 < result@.len() ==> entry_le(
                    all_bib_entries@[#[trigger] result@[k] as int],
                    all_bib_entries@[result@[k + 1] as int],
                    bib_src@,
                ),
            result@.to_multiset() == cited_indices(
                all_bib_entries@,
                cites,
                src@,
                bib_src@,
                idx as int,
            ).to_multiset(),
        decreases all_bib_entries@.len() - idx,
    {
        let entry = &all_bib_entries[idx];
        if span_list_contains(&node_lists.cite_ids, src, entry.tag.slice(bib_src)) {
            let mut p: usize = result.len();
            while p > 0 && !entry_le_exec(
                &all_bib_entries[result[p - 1]],
                &all_bib_entries[idx],
                bib_src,
            )
                invariant
                    p <= result@.len(),
                    idx < all_bib_entries@.len(),
                    all_bib_entries@[idx as int].wf(bib_src@.len()),
                    forall|k: int|
                        0 <= k < all_bib_entries@.len() ==> (#[trigger] all_bib_entries@[k]).wf(
                            bib_src@.len(),
                        ),
                    forall|k: int|
                        0 <= k < result@.len() ==> (#[trigger] result@[k])
                            < all_bib_entries@.len(),
                    forall|j: int|
                        p <= j < result@.len() ==> !entry_le(
                            all_bib_entries@[#[trigger] result@[j] as int],
                            all_bib_entries@[idx as int],
                            bib_src@,
                        ),
                decreases p,
            {
                p -= 1;
            }
            let ghost before = result@;
            result.insert(p, idx);
            proof {
                let after = result@;
                let ins = before.insert(p as int, idx);
                assert(after == ins);
                lemma_insert_at(before, p as int, idx, 0);
                assert(after.len() == before.len() + 1);
                // sortedness of the new list
                assert forall|k: int| 0 <= k && k + 1 < after.len() implies entry_le(
                    all_bib_entries@[#[trigger] after[k] as int],
                    all_bib_entries@[after[k + 1] as int],
                    bib_src@,
                ) by {
                    lemma_insert_at(before, p as int, idx, k);
                    lemma_insert_at(before, p as int, idx, k + 1);
                    if k + 1 < p {
                        assert(ins[k] == before[k]);
                        assert(ins[k + 1] == before[k + 1]);
                    } else if k + 1 == p {
                        assert(ins[k] == before[k]);
                        assert(ins[k + 1] == idx);
                    } else if k == p {
                        assert(ins[k] == idx);
                        assert(ins[k + 1] == before[k]);
                        assert(!entry_le(
                            all_bib_entries@[before[k] as int],
                            all_bib_entries@[idx as int],
                            bib_src@,
                        ));
                        lemma_entry_le_total(
                            all_bib_entries@[before[k] as int],
                            all_bib_entries@[idx as int],
                            bib_src@,
                        );
                    } else {
                        assert(ins[k] == before[k - 1]);
                        assert(ins[k + 1] == before[k]);
                    }
                }
                // the multiset gains exactly the new index
                lemma_insert_multiset(before, p as int, idx);
                assert(ins.to_multiset() == before.to_multiset().insert(idx));
            }
        }
        proof {
            let full = cited_indices(all_bib_entries@, cites, src@, bib_src@, idx + 1);
            assert(full == if cited(all_bib_entries@[idx as int], cites, src@, bib_src@) {
                cited_indices(all_bib_entries@, cites, src@, bib_src@, idx as int) + seq![idx]
            } else {
                cited_indices(all_bib_entries@, cites, src@, bib_src@, idx as int)
            });
            if cited(all_bib_entries@[idx as int], cites, src@, bib_src@) {
                let prefix = cited_indices(all_bib_entries@, cites, src@, bib_src@, idx as int);
                assert(prefix + seq![idx] =~= prefix.push(idx));
                vstd::seq_lib::to_multiset_build(prefix, idx);
                assert((prefix.push(idx)).to_multiset() =~= prefix.to_multiset().insert(idx));
            }
        }
        idx += 1;
    }
    result
}

/// Builds the citation display text `[k]` for each displayed entry, where
/// `k` is its 1-based position in the sorted bibliography.
pub fn cite_display_text(
    order: &Vec<usize>,
    all_bib_entries: &Vec<BibEntry>,
    bib_src: &[u8],
) -> (r: Vec<(Vec<u8>, Vec<u8>)>)
    requires
        forall|k: int| 0 <= k < order@.len() ==> (#[trigger] order@[k]) < all_bib_entries@.len(),
        forall|k: int|
            0 <= k < all_bib_entries@.len() ==> (#[trigger] all_bib_entries@[k]).wf(
                bib_src@.len(),
            ),
    ensures
        r@.len() == order@.len(),
        forall|k: int|
            0 <= k < order@.len() ==> (#[trigger] r@[k]).0@ == all_bib_entries@[
                order@[k] as int
            ].tag.text(bib_src@) && r@[k].1@ == seq![91u8] + dec_digits((k + 1) as nat) + seq![
                93u8,
            ],
{
    let mut r: Vec<(Vec<u8>, Vec<u8>)> = Vec::new();
    let mut k: usize = 0;
    while k < order.len()
        invariant
            k <= order@.len(),
            forall|j: int| 0 <= j < order@.len() ==> (#[trigger] order@[j]) < all_bib_entries@.len(),
            forall|j: int|
                0 <= j < all_bib_entries@.len() ==> (#[trigger] all_bib_entries@[j]).wf(
                    bib_src@.len(),
                ),
            r@.len() == k,
            forall|j: int|
                0 <= j < k ==> (#[trigger] r@[j]).0@ == all_bib_entries@[
                    order@[j] as int
                ].tag.text(bib_src@) && r@[j].1@ == seq![91u8] + dec_digits((j + 1) as nat)
                    + seq![93u8],
        decreases order@.len() - k,
    {
        let entry = &all_bib_entries[order[k]];
        let key = vstd::slice::slice_to_vec(entry.tag.slice(bib_src));
        let mut value: Vec<u8> = Vec::new();
        value.push(91u8);
        let digits = u64_to_dec((k as u64) + 1);
        push_bytes(&mut value, digits.as_slice());
        value.push(93u8);
        proof {
            assert(value@ =~= seq![91u8] + dec_digits((k + 1) as nat) + seq![93u8]);
        }
        r.push((key, value));
        k += 1;
    }
    r
}

/// The label a document part may carry; only sections, subsections and
/// theorem-like blocks are labeled.
pub open spec fn part_label(p: DocumentPart) -> Option<Span> {
    match p {
        DocumentPart::TheoremLike { label, .. } => label,
        DocumentPart::Section { label, .. } => label,
        DocumentPart::Subsection { label, .. } => label,
        _ => None,
    }
}

/// The (label text, display text) pairs contributed by the first `n`
/// document parts: each labeled numbered part maps its label to its number.
pub open spec fn doc_label_entries(parts: Seq<DocumentPart>, src: Seq<u8>, n: int) -> Seq<
    (Seq<u8>, Seq<u8>),
>
    decreases n,
{
    if n <= 0 {
        seq![]
    } else {
        let prefix = doc_label_entries(parts, src, n - 1);
        match part_label(parts[n - 1]) {
            Some(l) => match spec_part_number(parts, n - 1) {
                Some(num) => prefix + seq![(l.text(src), num)],
                None => prefix,
            },
            None => prefix,
        }
    }
}

/// The pairs contributed by the first `n` items of one list: each labeled
/// item maps its label to its 1-based position.
pub open spec fn one_list_entries(labels: Seq<Option<Span>>, src: Seq<u8>, n: int) -> Seq<
    (Seq<u8>, Seq<u8>),
>
    decreases n,
{
    if n <= 0 {
        seq![]
    } else {
        let prefix = one_list_entries(labels, src, n - 1);
        match labels[n - 1] {
            Some(l) => prefix + seq![(l.text(src), dec_digits(n as nat))],
            None => prefix,
        }
    }
}

/// The pairs contributed by the first `n` item lists.
pub open spec fn item_label_entries(lists: Seq<Seq<Option<Span>>>, src: Seq<u8>, n: int) -> Seq<
    (Seq<u8>, Seq<u8>),
>
    decreases n,
{
    if n <= 0 {
        seq![]
    } else {
        item_label_entries(lists, src, n - 1) + one_list_entries(
            lists[n - 1],
            src,
            lists[n - 1].len() as int,
        )
    }
}

/// The pairs contributed by the first `n` formulas: each numbered formula
/// maps its label to its equation number.
pub open spec fn math_label_entries(
    math: Seq<Math>,
    refs: Seq<Span>,
    src: Seq<u8>,
    n: int,
) -> Seq<(Seq<u8>, Seq<u8>)>
    decreases n,
{
    if n <= 0 {
        seq![]
    } else {
        let prefix = math_label_entries(math, refs, src, n - 1);
        match math[n - 1].spec_label() {
            Some(l) => if refs_contain(refs, src, l.text(src)) {
                prefix + seq![(l.text(src), spec_math_number(math, refs, src, n - 1).unwrap())]
            } else {
                prefix
            },
            None => prefix,
        }
    }
}

pub open spec fn entries_view(s: Seq<(Vec<u8>, Vec<u8>)>) -> Seq<(Seq<u8>, Seq<u8>)> {
    Seq::new(s.len(), |i: int| (s[i].0@, s[i].1@))
}

pub open spec fn lists_view(s: Seq<Vec<Option<Span>>>) -> Seq<Seq<Option<Span>>> {
    Seq::new(s.len(), |i: int| s[i]@)
}

/// All (label, display text) pairs a reference site may resolve against, in
/// document order: labeled document parts, then labeled list items, then
/// numbered formulas. A lookup takes the first pair whose label matches, so
/// when two parts define the same label the first definition wins.
pub open spec fn spec_ref_entries(
    parts: Seq<DocumentPart>,
    lists: Seq<Seq<Option<Span>>>,
    math: Seq<Math>,
    refs: Seq<Span>,
    src: Seq<u8>,
) -> Seq<(Seq<u8>, Seq<u8>)> {
    doc_label_entries(parts, src, parts.len() as int) + item_label_entries(
        lists,
        src,
        lists.len() as int,
    ) + math_label_entries(math, refs, src, math.len() as int)
}

/// Builds the reference display table: what each `\ref`/`\eqref` site shows
/// for a given label. Section, subsection and theorem-like labels show the
/// part number; item labels show the item position; formula labels show the
/// equation number when the formula is numbered.
pub fn ref_display_text(
    doc: &Document,
    node_lists: &NodeLists,
    numbering: &Vec<Option<Vec<u8>>>,
    math_numbers: &Vec<Option<Vec<u8>>>,
    src: &[u8],
) -> (r: Vec<(Vec<u8>, Vec<u8>)>)
    requires
        doc.wf(src@.len()),
        node_lists.wf(src@.len()),
        numbering@.len() == doc.parts@.len(),
        forall|i: int|
            0 <= i < doc.parts@.len() ==> opt_bytes(#[trigger] numbering@[i]) == spec_part_number(
                doc.parts@,
                i,
            ),
        math_numbers@.len() == node_lists.math@.len(),
        forall|i: int|
            0 <= i < node_lists.math@.len() ==> opt_bytes(#[trigger] math_numbers@[i])
                == spec_math_number(node_lists.math@, node_lists.ref_ids@, src@, i),
    ensures
        entries_view(r@) == spec_ref_entries(
            doc.parts@,
            lists_view(node_lists.item_lists@),
            node_lists.math@,
            node_lists.ref_ids@,
            src@,
        ),
{
    let ghost parts = doc.parts@;
    let ghost lists = lists_view(node_lists.item_lists@);
    let ghost math = node_lists.math@;
    let ghost refs = node_lists.ref_ids@;
    let mut r: Vec<(Vec<u8>, Vec<u8>)> = Vec::new();
    let mut i: usize = 0;
    proof {
        assert(entries_view(r@) =~= doc_label_entries(parts, src@, 0));
    }
    while i < doc.parts.len()
        invariant
            i <= parts.len(),
            parts == doc.parts@,
            doc.wf(src@.len()),
            numbering@.len() == parts.len(),
            forall|k: int|
                0 <= k < parts.len() ==> opt_bytes(#[trigger] numbering@[k]) == spec_part_number(
                    parts,
                    k,
                ),
            entries_view(r@) == doc_label_entries(parts, src@, i as int),
        decreases parts.len() - i,
    {
        let label = match &doc.parts[i] {
            DocumentPart::TheoremLike { label, .. } => *label,
            DocumentPart::Section { label, .. } => *label,
            DocumentPart::Subsection { label, .. } => *label,
            _ => None,
        };
        proof {
            assert(label == part_label(parts[i as int]));
        }
        match label {
            Some(l) => {
                match &numbering[i] {
                    Some(num) => {
                        let key = vstd::slice::slice_to_vec(l.slice(src));
                        let value = vstd::slice::slice_to_vec(num.as_slice());
                        r.push((key, value));
                        proof {
                            assert(entries_view(r@) =~= doc_label_entries(parts, src@, i + 1));
                        }
                    },
                    None => {
                        proof {
                            assert(opt_bytes(numbering@[i as int]) == spec_part_number(
                                parts,
                                i as int,
                            ));
                            assert(false);
                        }
                    },
                }
            },
            None => {
                proof {
                    assert(entries_view(r@) =~= doc_label_entries(parts, src@, i + 1));
                }
            },
        }
        i += 1;
    }
    let ghost d_entries = doc_label_entries(parts, src@, parts.len() as int);
    let mut li: usize = 0;
    proof {
        assert(entries_view(r@) =~= d_entries + item_label_entries(lists, src@, 0));
    }
    while li < node_lists.item_lists.len()
        invariant
            li <= lists.len(),
            lists == lists_view(node_lists.item_lists@),
            node_lists.wf(src@.len()),
            entries_view(r@) == d_entries + item_label_entries(lists, src@, li as int),
        decreases lists.len() - li,
    {
        let labels = &node_lists.item_lists[li];
        let mut j: usize = 0;
        proof {
            assert(lists[li as int] == labels@);
            assert(entries_view(r@) =~= d_entries + item_label_entries(lists, src@, li as int)
                + one_list_entries(labels@, src@, 0));
        }
        while j < labels.len()
            invariant
                j <= labels@.len(),
                li < lists.len(),
                lists == lists_view(node_lists.item_lists@),
                labels@ == lists[li as int],
                node_lists.wf(src@.len()),
                entries_view(r@) == d_entries + item_label_entries(lists, src@, li as int)
                    + one_list_entries(labels@, src@, j as int),
            decreases labels@.len() - j,
        {
            match &labels[j] {
                Some(l) => {
                    proof {
                        assert(crate::ast::wf_span_opt(
                            node_lists.item_lists@[li as int]@[j as int],
                            src@.len(),
                        ));
                    }
                    let key = vstd::slice::slice_to_vec(l.slice(src));
                    let value = u64_to_dec((j as u64) + 1);
                    let ghost prev = r@;
                    r.push((key, value));
                    proof {
                        assert(value@ == dec_digits((j + 1) as nat));
                        assert(entries_view(r@) =~= entries_view(prev) + seq![
                            (l.text(src@), dec_digits((j + 1) as nat)),
                        ]);
                        assert(one_list_entries(labels@, src@, j + 1) == one_list_entries(
                            labels@,
                            src@,
                            j as int,
                        ) + seq![(l.text(src@), dec_digits((j + 1) as nat))]);
                        assert(entries_view(r@) =~= d_entries + item_label_entries(
                            lists,
                            src@,
                            li as int,
                        ) + one_list_entries(labels@, src@, j + 1));
                    }
                },
                None => {
                    proof {
                        assert(entries_view(r@) =~= d_entries + item_label_entries(
                            lists,
                            src@,
                            li as int,
                        ) + one_list_entries(labels@, src@, j + 1));
                    }
                },
            }
            j += 1;
        }
        proof {
            assert(one_list_entries(labels@, src@, labels@.len() as int) == one_list_entries(
                lists[li as int],
                src@,
                lists[li as int].len() as int,
            ));
            assert(entries_view(r@) =~= d_entries + item_label_entries(lists, src@, li + 1));
        }
        li += 1;
    }
    let ghost di_entries = d_entries + item_label_entries(lists, src@, lists.len() as int);
    let mut m: usize = 0;
    proof {
        assert(entries_view(r@) =~= di_entries + math_label_entries(math, refs, src@, 0));
    }
    while m < node_lists.math.len()
        invariant
            m <= math.len(),
            math == node_lists.math@,
            refs == node_lists.ref_ids@,
            node_lists.wf(src@.len()),
            math_numbers@.len() == math.len(),
            forall|k: int|
                0 <= k < math.len() ==> opt_bytes(#[trigger] math_numbers@[k])
                    == spec_math_number(math, refs, src@, k),
            entries_view(r@) == di_entries + math_label_entries(math, refs, src@, m as int),
        decreases math.len() - m,
    {
        match node_lists.math[m].label() {
            Some(l) => {
                if span_list_contains(&node_lists.ref_ids, src, l.slice(src)) {
                    match &math_numbers[m] {
                        Some(num) => {
                            let key = vstd::slice::slice_to_vec(l.slice(src));
                            let value = vstd::slice::slice_to_vec(num.as_slice());
                            let ghost prev = r@;
                            r.push((key, value));
                            proof {
                                assert(opt_bytes(math_numbers@[m as int]) == spec_math_number(
                                    math,
                                    refs,
                                    src@,
                                    m as int,
                                ));
                                assert(value@ == spec_math_number(
                                    math,
                                    refs,
                                    src@,
                                    m as int,
                                ).unwrap());
                                assert(entries_view(r@) =~= entries_view(prev) + seq![
                                    (l.text(src@), value@),
                                ]);
                                assert(math_label_entries(math, refs, src@, m + 1)
                                    == math_label_entries(math, refs, src@, m as int) + seq![
                                    (l.text(src@), spec_math_number(math, refs, src@, m as int).unwrap()),
                                ]);
                                assert(entries_view(r@) =~= di_entries + math_label_entries(
                                    math,
                                    refs,
                                    src@,
                                    m + 1,
                                ));
                            }
                        },
                        None => {
                            proof {
                                assert(opt_bytes(math_numbers@[m as int]) == spec_math_number(
                                    math,
                                    refs,
                                    src@,
                                    m as int,
                                ));
                                assert(false);
                            }
                        },
                    }
                } else {
                    proof {
                        assert(entries_view(r@) =~= di_entries + math_label_entries(
                            math,
                            refs,
                            src@,
                            m + 1,
                        ));
                    }
                }
            },
            None => {
                proof {
                    assert(entries_view(r@) =~= di_entries + math_label_entries(
                        math,
                        refs,
                        src@,
                        m + 1,
                    ));
                }
            },
        }
        m += 1;
    }
    r
}

/// The first display text recorded for a key, if any.
pub open spec fn lookup_entries(entries: Seq<(Seq<u8>, Seq<u8>)>, key: Seq<u8>) -> Option<Seq<u8>>
    decreases entries.len(),
{
    if entries.len() == 0 {
        None
    } else if entries[0].0 == key {
        Some(entries[0].1)
    } else {
        lookup_entries(entries.drop_first(), key)
    }
}

/// Looks a key up in a display table; the first matching pair wins.
pub fn lookup_display_text(entries: &Vec<(Vec<u8>, Vec<u8>)>, key: &[u8]) -> (r: Option<Vec<u8>>)
    ensures
        opt_bytes(r) == lookup_entries(entries_view(entries@), key@),
{
    let mut i: usize = 0;
    proof {
        assert(entries_view(entries@).skip(0) =~= entries_view(entries@));
    }
    while i < entries.len()
        invariant
            i <= entries@.len(),
            lookup_entries(entries_view(entries@), key@) == lookup_entries(
                entries_view(entries@).skip(i as int),
                key@,
            ),
            forall|k: int| 0 <= k < i ==> (#[trigger] entries@[k]).0@ != key@,
        decreases entries@.len() - i,
    {
        proof {
            assert(entries_view(entries@).skip(i as int)[0] == (
                entries@[i as int].0@,
                entries@[i as int].1@,
            ));
        }
        if bytes_eq(entries[i].0.as_slice(), key) {
            return Some(vstd::slice::slice_to_vec(entries[i].1.as_slice()));
        }
        proof {
            assert(entries_view(entries@).skip(i as int).drop_first() =~= entries_view(
                entries@,
            ).skip(i + 1));
        }
        i += 1;
    }
    proof {
        assert(entries_view(entries@).skip(entries@.len() as int).len() == 0);
    }
    None
}

/// The derived, read-only results of the analysis pass, consumed by
/// emission. Numbering tables are positional: entry `i` concerns document
/// part `i`, or formula `i` of the registry.
pub struct Analysis {
    /// The number string of each document part, or `None`.
    pub doc_part_numbering: Vec<Option<Vec<u8>>>,
    /// The equation number `(k)` of each formula, or `None`.
    pub math_numbering: Vec<Option<Vec<u8>>>,
    /// The cache-relative image path of each formula.
    pub math_image_source: Vec<Vec<u8>>,
    /// What each `\ref`/`\eqref` site shows, as (label, text) pairs; the
    /// first matching pair wins.
    pub ref_display_text: Vec<(Vec<u8>, Vec<u8>)>,
    /// The displayed bibliography: indices into the parsed entry list, in
    /// display order.
    pub bib_entries: Vec<usize>,
    /// What each `\cite` site shows, as (tag, text) pairs.
    pub cite_display_text: Vec<(Vec<u8>, Vec<u8>)>,
}

impl Analysis {
    /// Runs the analysis passes in their fixed order: part numbering, then
    /// formula numbering, then image paths, then reference display text,
    /// then the bibliography filter and sort, then citation display text.
    pub fn new(
        src: &[u8],
        bib_src: &[u8],
        doc: &Document,
        all_bib_entries: &Vec<BibEntry>,
        node_lists: &NodeLists,
    ) -> (r: Analysis)
        requires
            doc.wf(src@.len()),
            node_lists.wf(src@.len()),
            forall|k: int|
                0 <= k < all_bib_entries@.len() ==> (#[trigger] all_bib_entries@[k]).wf(
                    bib_src@.len(),
                ),
        ensures
            r.doc_part_numbering@.len() == doc.parts@.len(),
            forall|i: int|
                0 <= i < doc.parts@.len() ==> opt_bytes(#[trigger] r.doc_part_numbering@[i])
                    == spec_part_number(doc.parts@, i),
            r.math_numbering@.len() == node_lists.math@.len(),
            forall|i: int|
                0 <= i < node_lists.math@.len() ==> opt_bytes(#[trigger] r.math_numbering@[i])
                    == spec_math_number(node_lists.math@, node_lists.ref_ids@, src@, i),
            r.math_image_source@.len() == node_lists.math@.len(),
            forall|i: int|
                0 <= i < node_lists.math@.len() ==> (#[trigger] r.math_image_source@[i])@
                    == spec_image_path(
                    spec_hash_math(doc.preamble@, src@, node_lists.math@[i]),
                ),
            entries_view(r.ref_display_text@) == spec_ref_entries(
                doc.parts@,
                lists_view(node_lists.item_lists@),
                node_lists.math@,
                node_lists.ref_ids@,
                src@,
            ),
            forall|k: int|
                0 <= k < r.bib_entries@.len() ==> (#[trigger] r.bib_entries@[k])
                    < all_bib_entries@.len(),
            forall|k: int|
                0 <= k && k + 1 < r.bib_entries@.len() ==> entry_le(
                    all_bib_entries@[#[trigger] r.bib_entries@[k] as int],
                    all_bib_entries@[r.bib_entries@[k + 1] as int],
                    bib_src@,
                ),
            r.bib_entries@.to_multiset() == cited_indices(
                all_bib_entries@,
                node_lists.cite_ids@,
                src@,
                bib_src@,
                all_bib_entries@.len() as int,
            ).to_multiset(),
            r.cite_display_text@.len() == r.bib_entries@.len(),
            forall|k: int|
                0 <= k < r.bib_entries@.len() ==> (#[trigger] r.cite_display_text@[k]).0@
                    == all_bib_entries@[r.bib_entries@[k] as int].tag.text(bib_src@)
                    && r.cite_display_text@[k].1@ == seq![91u8] + dec_digits((k + 1) as nat)
                    + seq![93u8],
    {
        let doc_part_numbering = doc_part_numbering(doc);
        let math_numbering = math_numbering(node_lists, src);
        let math_image_source = math_image_source(doc, node_lists, src);
        let ref_display_text = ref_display_text(
            doc,
            node_lists,
            &doc_part_numbering,
            &math_numbering,
            src,
        );
        let bib_entries = bib_entries(all_bib_entries, node_lists, src, bib_src);
        let cite_display_text = cite_display_text(&bib_entries, all_bib_entries, bib_src);
        Analysis {
            doc_part_numbering,
            math_numbering,
            math_image_source,
            ref_display_text,
            bib_entries,
            cite_display_text,
        }
    }
}

/// The theorem-like counter never decreases along the document.
pub proof fn lemma_theorem_counter_monotone(parts: Seq<DocumentPart>, a: int, b: int)
    requires
        0 <= a <= b <= parts.len(),
    ensures
        numbering_counters(parts.subrange(0, a)).theorem_like <= numbering_counters(
            parts.subrange(0, b),
        ).theorem_like,
    decreases b - a,
{
    if a < b {
        lemma_theorem_counter_monotone(parts, a, b - 1);
        let sub = parts.subrange(0, b);
        assert(sub.drop_last() =~= parts.subrange(0, b - 1));
    }
}

/// Theorem-like numbers strictly increase across the whole document,
/// whatever mix of tags stands between them: a later theorem-like block
/// always shows a larger number.
pub proof fn theorem_numbering_increases(parts: Seq<DocumentPart>, i: int, j: int)
    requires
        0 <= i < j < parts.len(),
        parts[i] is TheoremLike,
        parts[j] is TheoremLike,
    ensures
        numbering_counters(parts.subrange(0, i + 1)).theorem_like < numbering_counters(
            parts.subrange(0, j + 1),
        ).theorem_like,
{
    lemma_theorem_counter_monotone(parts, i + 1, j);
    let sub = parts.subrange(0, j + 1);
    assert(sub.drop_last() =~= parts.subrange(0, j));
    assert(sub.last() == parts[j]);
}

/// Between two positions with no intervening section heading, the section
/// counter is unchanged and the subsection counter never decreases.
pub proof fn lemma_no_section_between(parts: Seq<DocumentPart>, a: int, b: int)
    requires
        0 <= a <= b <= parts.len(),
        forall|k: int| a <= k < b ==> !(#[trigger] parts[k] is Section),
    ensures
        numbering_counters(parts.subrange(0, b)).section == numbering_counters(
            parts.subrange(0, a),
        ).section,
        numbering_counters(parts.subrange(0, b)).subsection >= numbering_counters(
            parts.subrange(0, a),
        ).subsection,
    decreases b - a,
{
    if a < b {
        lemma_no_section_between(parts, a, b - 1);
        let sub = parts.subrange(0, b);
        assert(sub.drop_last() =~= parts.subrange(0, b - 1));
        assert(sub.last() == parts[b - 1]);
    }
}

/// Subsection numbers strictly increase within a section: between two
/// subsection headings with no section heading in between, the later one
/// shows a larger subsection number, under the same section number.
pub proof fn subsection_numbering_increases(parts: Seq<DocumentPart>, i: int, j: int)
    requires
        0 <= i < j < parts.len(),
        parts[i] is Subsection,
        parts[j] is Subsection,
        forall|k: int| i < k < j ==> !(#[trigger] parts[k] is Section),
    ensures
        numbering_counters(parts.subrange(0, i + 1)).subsection < numbering_counters(
            parts.subrange(0, j + 1),
        ).subsection,
        numbering_counters(parts.subrange(0, i + 1)).section == numbering_counters(
            parts.subrange(0, j + 1),
        ).section,
{
    lemma_no_section_between(parts, i + 1, j);
    let sub = parts.subrange(0, j + 1);
    assert(sub.drop_last() =~= parts.subrange(0, j));
    assert(sub.last() == parts[j]);
}

/// The subsection counter resets at a section heading: a subsection that
/// follows a section heading with no other sectioning heading in between is
/// numbered 1.
pub proof fn subsection_resets_at_section(parts: Seq<DocumentPart>, i: int, j: int)
    requires
        0 <= i < j < parts.len(),
        parts[i] is Section,
        parts[j] is Subsection,
        forall|k: int|
            i < k < j ==> !(#[trigger] parts[k] is Section) && !(parts[k] is Subsection),
    ensures
        numbering_counters(parts.subrange(0, j + 1)).subsection == 1,
{
    lemma_no_subsection_between(parts, i + 1, j);
    let sub_i = parts.subrange(0, i + 1);
    assert(sub_i.drop_last() =~= parts.subrange(0, i));
    assert(sub_i.last() == parts[i]);
    let sub = parts.subrange(0, j + 1);
    assert(sub.drop_last() =~= parts.subrange(0, j));
    assert(sub.last() == parts[j]);
}

/// Between two positions with neither a section nor a subsection heading,
/// both counters are unchanged.
pub proof fn lemma_no_subsection_between(parts: Seq<DocumentPart>, a: int, b: int)
    requires
        0 <= a <= b <= parts.len(),
        forall|k: int|
            a <= k < b ==> !(#[trigger] parts[k] is Section) && !(parts[k] is Subsection),
    ensures
        numbering_counters(parts.subrange(0, b)).section == numbering_counters(
            parts.subrange(0, a),
        ).section,
        numbering_counters(parts.subrange(0, b)).subsection == numbering_counters(
            parts.subrange(0, a),
        ).subsection,
    decreases b - a,
{
    if a < b {
        lemma_no_subsection_between(parts, a, b - 1);
        let sub = parts.subrange(0, b);
        assert(sub.drop_last() =~= parts.subrange(0, b - 1));
        assert(sub.last() == parts[b - 1]);
    }
}

/// Looking a key up in a concatenation: the left table decides when it
/// holds the key at all, else the right table does.
pub proof fn lemma_lookup_entries_concat(
    a: Seq<(Seq<u8>, Seq<u8>)>,
    b: Seq<(Seq<u8>, Seq<u8>)>,
    key: Seq<u8>,
)
    ensures
        lookup_entries(a + b, key) == (if exists|i: int|
            0 <= i < a.len() && (#[trigger] a[i]).0 == key {
            lookup_entries(a, key)
        } else {
            lookup_entries(b, key)
        }),
    decreases a.len(),
{
    if a.len() == 0 {
        assert(a + b =~= b);
    } else {
        assert((a + b).drop_first() =~= a.drop_first() + b);
        assert((a + b)[0] == a[0]);
        lemma_lookup_entries_concat(a.drop_first(), b, key);
        if a[0].0 == key {
        } else {
            if exists|i: int| 0 <= i < a.len() && (#[trigger] a[i]).0 == key {
                let i = choose|i: int| 0 <= i < a.len() && (#[trigger] a[i]).0 == key;
                assert(a.drop_first()[i - 1].0 == key);
            }
            if exists|i: int| 0 <= i < a.drop_first().len() && (#[trigger] a.drop_first()[
                i
            ]).0 == key {
                let i = choose|i: int|
                    0 <= i < a.drop_first().len() && (#[trigger] a.drop_first()[i]).0 == key;
                assert(a[i + 1].0 == key);
            }
        }
    }
}

/// A lookup returns the value of the first pair holding the key.
pub proof fn lemma_lookup_entries_first(entries: Seq<(Seq<u8>, Seq<u8>)>, key: Seq<u8>, i: int)
    requires
        0 <= i < entries.len(),
        entries[i].0 == key,
        forall|j: int| 0 <= j < i ==> (#[trigger] entries[j]).0 != key,
    ensures
        lookup_entries(entries, key) == Some(entries[i].1),
    decreases i,
{
    if i > 0 {
        assert(entries.drop_first()[i - 1] == entries[i]);
        assert(forall|j: int|
            0 <= j < i - 1 ==> (#[trigger] entries.drop_first()[j]).0 == entries[j + 1].0);
        lemma_lookup_entries_first(entries.drop_first(), key, i - 1);
    }
}

/// Earlier label entries are kept in place as further formulas are added.
proof fn lemma_math_entries_monotone(
    math: Seq<Math>,
    refs: Seq<Span>,
    src: Seq<u8>,
    m: int,
    n: int,
)
    requires
        0 <= m <= n,
    ensures
        math_label_entries(math, refs, src, m).len() <= math_label_entries(
            math,
            refs,
            src,
            n,
        ).len(),
        forall|e: int|
            0 <= e < math_label_entries(math, refs, src, m).len() ==> #[trigger] math_label_entries(
                math,
                refs,
                src,
                n,
            )[e] == math_label_entries(math, refs, src, m)[e],
    decreases n - m,
{
    if m < n {
        lemma_math_entries_monotone(math, refs, src, m, n - 1);
    }
}

/// The label entries of the first `n` formulas hold no key that differs
/// from every numbered formula's label among them.
proof fn lemma_math_entries_keys(
    math: Seq<Math>,
    refs: Seq<Span>,
    src: Seq<u8>,
    n: int,
    key: Seq<u8>,
)
    requires
        0 <= n <= math.len(),
        forall|j: int|
            0 <= j < n && math_is_numbered(#[trigger] math[j], refs, src) ==> math[
                j
            ].spec_label().unwrap().text(src) != key,
    ensures
        forall|e: int|
            0 <= e < math_label_entries(math, refs, src, n).len() ==> (
            #[trigger] math_label_entries(math, refs, src, n)[e]).0 != key,
    decreases n,
{
    if n > 0 {
        lemma_math_entries_keys(math, refs, src, n - 1, key);
        let prefix = math_label_entries(math, refs, src, n - 1);
        let whole = math_label_entries(math, refs, src, n);
        assert forall|e: int| 0 <= e < whole.len() implies (#[trigger] whole[e]).0 != key by {
            if e < prefix.len() {
                assert(whole[e] == prefix[e]);
            } else {
                assert(math_is_numbered(math[n - 1], refs, src));
            }
        }
    }
}

/// A reference to a label that only a numbered formula defines shows
/// exactly that formula's equation number: the rendered text at the
/// reference site equals the number beside the equation.
pub proof fn eqref_text_is_equation_number(
    parts: Seq<DocumentPart>,
    lists: Seq<Seq<Option<Span>>>,
    math: Seq<Math>,
    refs: Seq<Span>,
    src: Seq<u8>,
    i: int,
)
    requires
        0 <= i < math.len(),
        math_is_numbered(math[i], refs, src),
        // no document part defines the label
        forall|e: int|
            0 <= e < doc_label_entries(parts, src, parts.len() as int).len() ==> (
            #[trigger] doc_label_entries(parts, src, parts.len() as int)[e]).0 != math[
                i
            ].spec_label().unwrap().text(src),
        // no list item defines the label
        forall|e: int|
            0 <= e < item_label_entries(lists, src, lists.len() as int).len() ==> (
            #[trigger] item_label_entries(lists, src, lists.len() as int)[e]).0 != math[
                i
            ].spec_label().unwrap().text(src),
        // no earlier numbered formula shares the label
        forall|j: int|
            0 <= j < i && math_is_numbered(#[trigger] math[j], refs, src) ==> math[
                j
            ].spec_label().unwrap().text(src) != math[i].spec_label().unwrap().text(src),
    ensures
        lookup_entries(
            spec_ref_entries(parts, lists, math, refs, src),
            math[i].spec_label().unwrap().text(src),
        ) == Some(spec_math_number(math, refs, src, i).unwrap()),
{
    let key = math[i].spec_label().unwrap().text(src);
    let dl = doc_label_entries(parts, src, parts.len() as int);
    let il = item_label_entries(lists, src, lists.len() as int);
    let ml = math_label_entries(math, refs, src, math.len() as int);
    // the document-part and item tables hold no entry for the key
    assert(spec_ref_entries(parts, lists, math, refs, src) == dl + il + ml);
    assert((dl + il) + ml =~= dl + (il + ml));
    lemma_lookup_entries_concat(dl, il + ml, key);
    lemma_lookup_entries_concat(il, ml, key);
    assert forall|e: int| 0 <= e < (il + ml).len() && (#[trigger] (il + ml)[e]).0
        == key implies e >= il.len() by {
        if e < il.len() {
            assert((il + ml)[e] == il[e]);
        }
    }
    // formula i's entry stands first for the key in the formula table
    let prefix = math_label_entries(math, refs, src, i);
    lemma_math_entries_keys(math, refs, src, i, key);
    assert(math_label_entries(math, refs, src, i + 1) == prefix + seq![
        (key, spec_math_number(math, refs, src, i).unwrap()),
    ]);
    lemma_math_entries_monotone(math, refs, src, i + 1, math.len() as int);
    assert(ml[prefix.len() as int] == (key, spec_math_number(math, refs, src, i).unwrap()));
    assert forall|e: int| 0 <= e < prefix.len() implies (#[trigger] ml[e]).0 != key by {
        assert(ml[e] == math_label_entries(math, refs, src, i + 1)[e]);
        assert(math_label_entries(math, refs, src, i + 1)[e] == prefix[e]);
    }
    lemma_lookup_entries_first(ml, key, prefix.len() as int);
    // stitch the three tables together
    if exists|e: int| 0 <= e < dl.len() && (#[trigger] dl[e]).0 == key {
        let e = choose|e: int| 0 <= e < dl.len() && (#[trigger] dl[e]).0 == key;
        assert(false);
    }
    if exists|e: int| 0 <= e < il.len() && (#[trigger] il[e]).0 == key {
        let e = choose|e: int| 0 <= e < il.len() && (#[trigger] il[e]).0 == key;
        assert(false);
    }
}

/// Earlier entries of one list's label table are kept in place as further
/// items are added.
proof fn lemma_one_list_monotone(labels: Seq<Option<Span>>, src: Seq<u8>, m: int, n: int)
    requires
        0 <= m <= n,
    ensures
        one_list_entries(labels, src, m).len() <= one_list_entries(labels, src, n).len(),
        forall|e: int|
            0 <= e < one_list_entries(labels, src, m).len() ==> #[trigger] one_list_entries(
                labels,
                src,
                n,
            )[e] == one_list_entries(labels, src, m)[e],
    decreases n - m,
{
    if m < n {
        lemma_one_list_monotone(labels, src, m, n - 1);
    }
}

/// The label entries of the first `n` items hold no key that differs from
/// every labeled item's text among them.
proof fn lemma_one_list_keys(labels: Seq<Option<Span>>, src: Seq<u8>, n: int, key: Seq<u8>)
    requires
        0 <= n <= labels.len(),
        forall|j: int|
            0 <= j < n && (#[trigger] labels[j]) is Some ==> labels[j].unwrap().text(src)
                != key,
    ensures
        forall|e: int|
            0 <= e < one_list_entries(labels, src, n).len() ==> (#[trigger] one_list_entries(
                labels,
                src,
                n,
            )[e]).0 != key,
    decreases n,
{
    if n > 0 {
        lemma_one_list_keys(labels, src, n - 1, key);
        let prefix = one_list_entries(labels, src, n - 1);
        let whole = one_list_entries(labels, src, n);
        assert forall|e: int| 0 <= e < whole.len() implies (#[trigger] whole[e]).0 != key by {
            if e < prefix.len() {
                assert(whole[e] == prefix[e]);
            } else {
                assert(labels[n - 1] is Some);
            }
        }
    }
}

/// Earlier entries of the item label table are kept in place as further
/// lists are added.
proof fn lemma_item_entries_monotone(lists: Seq<Seq<Option<Span>>>, src: Seq<u8>, m: int, n: int)
    requires
        0 <= m <= n,
    ensures
        item_label_entries(lists, src, m).len() <= item_label_entries(lists, src, n).len(),
        forall|e: int|
            0 <= e < item_label_entries(lists, src, m).len() ==> #[trigger] item_label_entries(
                lists,
                src,
                n,
            )[e] == item_label_entries(lists, src, m)[e],
    decreases n - m,
{
    if m < n {
        lemma_item_entries_monotone(lists, src, m, n - 1);
    }
}

/// A reference to a label that only one list item defines shows exactly
/// that item's 1-based position in its list.
pub proof fn item_ref_text_is_position(
    parts: Seq<DocumentPart>,
    lists: Seq<Seq<Option<Span>>>,
    math: Seq<Math>,
    refs: Seq<Span>,
    src: Seq<u8>,
    li: int,
    j: int,
)
    requires
        0 <= li < lists.len(),
        0 <= j < lists[li].len(),
        lists[li][j] is Some,
        // no document part defines the label
        forall|e: int|
            0 <= e < doc_label_entries(parts, src, parts.len() as int).len() ==> (
            #[trigger] doc_label_entries(parts, src, parts.len() as int)[e]).0 != lists[li][
                j
            ].unwrap().text(src),
        // no earlier list defines it
        forall|e: int|
            0 <= e < item_label_entries(lists, src, li).len() ==> (
            #[trigger] item_label_entries(lists, src, li)[e]).0 != lists[li][j].unwrap().text(
                src,
            ),
        // no earlier item of the same list defines it
        forall|j2: int|
            0 <= j2 < j && (#[trigger] lists[li][j2]) is Some ==> lists[li][j2].unwrap().text(
                src,
            ) != lists[li][j].unwrap().text(src),
    ensures
        lookup_entries(
            spec_ref_entries(parts, lists, math, refs, src),
            lists[li][j].unwrap().text(src),
        ) == Some(dec_digits((j + 1) as nat)),
{
    let key = lists[li][j].unwrap().text(src);
    let dl = doc_label_entries(parts, src, parts.len() as int);
    let il = item_label_entries(lists, src, lists.len() as int);
    let ml = math_label_entries(math, refs, src, math.len() as int);
    assert(spec_ref_entries(parts, lists, math, refs, src) == dl + il + ml);
    assert((dl + il) + ml =~= dl + (il + ml));
    lemma_lookup_entries_concat(dl, il + ml, key);
    lemma_lookup_entries_concat(il, ml, key);
    // the entry for item j stands at a known index of the item table
    let base = item_label_entries(lists, src, li).len() as int;
    let off = one_list_entries(lists[li], src, j).len() as int;
    let labels = lists[li];
    assert(one_list_entries(labels, src, j + 1) == one_list_entries(labels, src, j) + seq![
        (key, dec_digits((j + 1) as nat)),
    ]);
    lemma_one_list_monotone(labels, src, j + 1, labels.len() as int);
    assert(one_list_entries(labels, src, labels.len() as int)[off] == (
        key,
        dec_digits((j + 1) as nat),
    ));
    assert(item_label_entries(lists, src, li + 1) == item_label_entries(lists, src, li)
        + one_list_entries(labels, src, labels.len() as int));
    lemma_item_entries_monotone(lists, src, li + 1, lists.len() as int);
    assert(il[base + off] == (key, dec_digits((j + 1) as nat)));
    // and no earlier entry holds the key
    lemma_one_list_keys(labels, src, j, key);
    assert forall|e: int| 0 <= e < base + off implies (#[trigger] il[e]).0 != key by {
        if e < base {
            assert(il[e] == item_label_entries(lists, src, li)[e]);
        } else {
            assert(il[e] == item_label_entries(lists, src, li + 1)[e]);
            assert(item_label_entries(lists, src, li + 1)[e] == one_list_entries(
                labels,
                src,
                labels.len() as int,
            )[e - base]);
            assert(one_list_entries(labels, src, labels.len() as int)[e - base]
                == one_list_entries(labels, src, j)[e - base]);
        }
    }
    lemma_lookup_entries_first(il, key, base + off);
    assert(il[base + off].1 == dec_digits((j + 1) as nat));
    // stitch the three tables together
    if exists|e: int| 0 <= e < dl.len() && (#[trigger] dl[e]).0 == key {
        let e = choose|e: int| 0 <= e < dl.len() && (#[trigger] dl[e]).0 == key;
        assert(false);
    }
    assert((il + ml)[base + off] == il[base + off]);
    assert(exists|e: int| 0 <= e < (il + ml).len() && (#[trigger] (il + ml)[e]).0 == key);
    assert(exists|e: int| 0 <= e < il.len() && (#[trigger] il[e]).0 == key);
}

} // verus!
