//! The document tree, the bibliography records, and the flat node registries
//! derived from one traversal of the tree.
//!
//! Every leaf token refers to the source buffer by a [`Span`]; a node is
//! well-formed with respect to a buffer length when all its spans lie inside
//! the buffer.
use crate::span::Span;
use vstd::prelude::*;

verus! {

/// Token text: either a view into the source buffer or owned bytes (used for
/// substituted text such as the built-in theorem display names).
#[derive(Debug, PartialEq, Eq)]
pub enum TokenText {
    Borrowed(Span),
    Owned(Vec<u8>),
}

impl TokenText {
    pub open spec fn wf(self, len: nat) -> bool {
        match self {
            TokenText::Borrowed(s) => s.wf(len),
            TokenText::Owned(_) => true,
        }
    }

    /// The text this token denotes, given the source buffer.
    pub open spec fn text(self, src: Seq<u8>) -> Seq<u8> {
        match self {
            TokenText::Borrowed(s) => s.text(src),
            TokenText::Owned(v) => v@,
        }
    }
}

/// A mathematical formula. `Inline` holds what stands between the two `$`
/// delimiters; `Display` and `Mathpar` hold the raw body of their environment
/// (after a leading label, when one is present).
#[derive(Debug, Clone, Copy, PartialEq, Eq)]
pub enum Math {
    Inline(Span),
    Display { source: Span, label: Option<Span> },
    Mathpar { source: Span, label: Option<Span> },
}

impl Math {
    pub open spec fn wf(self, len: nat) -> bool {
        match self {
            Math::Inline(s) => s.wf(len),
            Math::Display { source, label } => source.wf(len) && match label {
                Some(l) => l.wf(len),
                None => true,
            },
            Math::Mathpar { source, label } => source.wf(len) && match label {
                Some(l) => l.wf(len),
                None => true,
            },
        }
    }

    pub open spec fn spec_label(self) -> Option<Span> {
        match self {
            Math::Inline(_) => None,
            Math::Display { label, .. } => label,
            Math::Mathpar { label, .. } => label,
        }
    }

    /// The label of a display or mathpar formula; inline formulas are never
    /// labeled.
    pub fn label(&self) -> (r: Option<Span>)
        ensures
            r == self.spec_label(),
    {
        match self {
            Math::Inline(_) => None,
            Math::Display { label, .. } => *label,
            Math::Mathpar { label, .. } => *label,
        }
    }

    pub open spec fn spec_source(self) -> Span {
        match self {
            Math::Inline(s) => s,
            Math::Display { source, .. } => source,
            Math::Mathpar { source, .. } => source,
        }
    }

    /// The span holding the raw formula text.
    pub fn source_span(&self) -> (r: Span)
        ensures
            r == self.spec_source(),
    {
        match self {
            Math::Inline(s) => *s,
            Math::Display { source, .. } => *source,
            Math::Mathpar { source, .. } => *source,
        }
    }

    pub open spec fn spec_kind_byte(self) -> u8 {
        match self {
            Math::Inline(_) => 0,
            Math::Display { .. } => 1,
            Math::Mathpar { .. } => 2,
        }
    }

    /// The one-byte discriminant that separates the three formula kinds in
    /// the content digest.
    pub fn kind_byte(&self) -> (r: u8)
        ensures
            r == self.spec_kind_byte(),
    {
        match self {
            Math::Inline(_) => 0,
            Math::Display { .. } => 1,
            Math::Mathpar { .. } => 2,
        }
    }
}

/// One `\item` of a list: its paragraphs and an optional label. Its number is
/// positional (the 1-based index within the enclosing list), not stored here.
#[derive(Debug, PartialEq, Eq)]
pub struct Item {
    pub content: Vec<Paragraph>,
    pub label: Option<Span>,
}

pub type Paragraph = Vec<ParagraphPart>;

#[derive(Debug, PartialEq, Eq)]
pub enum ParagraphPart {
    InlineWhitespace(Span),
    TextToken(TokenText),
    Math(Math),
    Ref(Span),
    Cite { ids: Vec<Span>, text: Option<Paragraph> },
    Emph(Paragraph),
    Textbf(Paragraph),
    Textit(Paragraph),
    Texttt(Paragraph),
    Qed,
    Enumerate(Vec<Item>),
    Itemize(Vec<Item>),
    Todo,
    Footnote(Vec<Paragraph>),
    Href { text: Paragraph, link: Span },
    Code(Span),
}

#[derive(Debug, Clone, Copy, PartialEq, Eq, Structural)]
pub enum TheoremStyle {
    Theorem,
    Definition,
    Remark,
}

/// One configured theorem-like environment: its tag (the environment name),
/// its display name, and its style.
#[derive(Debug, PartialEq, Eq)]
pub struct TheoremLikeConfig {
    pub tag: Vec<u8>,
    pub name: Paragraph,
    pub style: TheoremStyle,
}

#[derive(Debug, PartialEq, Eq)]
pub enum DocumentPart {
    FreeParagraph(Paragraph),
    Title(Paragraph),
    Author(Paragraph),
    Date(),
    Maketitle(),
    Section { label: Option<Span>, name: Paragraph },
    Subsection { label: Option<Span>, name: Paragraph },
    Abstract(Vec<Paragraph>),
    TheoremLike {
        tag: Vec<u8>,
        note: Option<Paragraph>,
        content: Vec<Paragraph>,
        label: Option<Span>,
    },
    Proof(Vec<Paragraph>),
    Bibliography,
}

#[derive(Debug, PartialEq, Eq)]
pub struct DocumentConfig {
    pub theorem_like_configs: Vec<TheoremLikeConfig>,
}

/// A parsed document: the preamble as an ordered list of source lines (the
/// order matters to the preamble bisection), the ordered document parts, and
/// the configuration they were parsed under.
#[derive(Debug, PartialEq, Eq)]
pub struct Document {
    pub preamble: Vec<Span>,
    pub parts: Vec<DocumentPart>,
    pub config: DocumentConfig,
}

pub open spec fn wf_span_opt(s: Option<Span>, len: nat) -> bool {
    match s {
        Some(sp) => sp.wf(len),
        None => true,
    }
}

pub open spec fn wf_par_part(p: ParagraphPart, len: nat) -> bool
    decreases p,
{
    match p {
        ParagraphPart::InlineWhitespace(s) => s.wf(len),
        ParagraphPart::TextToken(t) => t.wf(len),
        ParagraphPart::Math(m) => m.wf(len),
        ParagraphPart::Ref(s) => s.wf(len),
        ParagraphPart::Cite { ids, text } => {
            &&& forall|i: int| 0 <= i < ids@.len() ==> (#[trigger] ids@[i]).wf(len)
            &&& match text {
                Some(par) => wf_paragraph(par@, len),
                None => true,
            }
        },
        ParagraphPart::Emph(par) => wf_paragraph(par@, len),
        ParagraphPart::Textbf(par) => wf_paragraph(par@, len),
        ParagraphPart::Textit(par) => wf_paragraph(par@, len),
        ParagraphPart::Texttt(par) => wf_paragraph(par@, len),
        ParagraphPart::Qed => true,
        ParagraphPart::Enumerate(items) => wf_items(items@, len),
        ParagraphPart::Itemize(items) => wf_items(items@, len),
        ParagraphPart::Todo => true,
        ParagraphPart::Footnote(pars) => wf_paragraphs(pars@, len),
        ParagraphPart::Href { text, link } => wf_paragraph(text@, len) && link.wf(len),
        ParagraphPart::Code(s) => s.wf(len),
    }
}

pub open spec fn wf_paragraph(par: Seq<ParagraphPart>, len: nat) -> bool
    decreases par,
{
    forall|i: int| 0 <= i < par.len() ==> wf_par_part(#[trigger] par[i], len)
}

pub open spec fn wf_paragraphs(pars: Seq<Paragraph>, len: nat) -> bool
    decreases pars,
{
    forall|i: int| 0 <= i < pars.len() ==> wf_paragraph((#[trigger] pars[i])@, len)
}

pub open spec fn wf_items(items: Seq<Item>, len: nat) -> bool
    decreases items,
{
    forall|i: int|
        0 <= i < items.len() ==> {
            &&& wf_paragraphs((#[trigger] items[i]).content@, len)
            &&& wf_span_opt(items[i].label, len)
        }
}

pub open spec fn wf_doc_part(p: DocumentPart, len: nat) -> bool {
    match p {
        DocumentPart::FreeParagraph(par) => wf_paragraph(par@, len),
        DocumentPart::Title(par) => wf_paragraph(par@, len),
        DocumentPart::Author(par) => wf_paragraph(par@, len),
        DocumentPart::Date() => true,
        DocumentPart::Maketitle() => true,
        DocumentPart::Section { label, name } => wf_span_opt(label, len) && wf_paragraph(
            name@,
            len,
        ),
        DocumentPart::Subsection { label, name } => wf_span_opt(label, len) && wf_paragraph(
            name@,
            len,
        ),
        DocumentPart::Abstract(pars) => wf_paragraphs(pars@, len),
        DocumentPart::TheoremLike { tag, note, content, label } => {
            &&& match note {
                Some(par) => wf_paragraph(par@, len),
                None => true,
            }
            &&& wf_paragraphs(content@, len)
            &&& wf_span_opt(label, len)
        },
        DocumentPart::Proof(pars) => wf_paragraphs(pars@, len),
        DocumentPart::Bibliography => true,
    }
}

impl Document {
    pub open spec fn wf(self, len: nat) -> bool {
        &&& forall|i: int| 0 <= i < self.preamble@.len() ==> (#[trigger] self.preamble@[i]).wf(len)
        &&& forall|i: int| 0 <= i < self.parts@.len() ==> wf_doc_part(#[trigger] self.parts@[i], len)
    }
}

/// What one traversal of a subtree contributes to the node registries: the
/// formulas in appearance order, the per-list item labels, the referenced
/// ids, and the cited ids.
#[verifier::ext_equal]
pub struct Collected {
    pub math: Seq<Math>,
    pub item_lists: Seq<Seq<Option<Span>>>,
    pub ref_ids: Seq<Span>,
    pub cite_ids: Seq<Span>,
}

impl Collected {
    pub open spec fn empty() -> Collected {
        Collected { math: seq![], item_lists: seq![], ref_ids: seq![], cite_ids: seq![] }
    }

    pub open spec fn cat(self, other: Collected) -> Collected {
        Collected {
            math: self.math + other.math,
            item_lists: self.item_lists + other.item_lists,
            ref_ids: self.ref_ids + other.ref_ids,
            cite_ids: self.cite_ids + other.cite_ids,
        }
    }
}

/// The labels of the items of one list, in order.
pub open spec fn labels_of_items(items: Seq<Item>) -> Seq<Option<Span>> {
    Seq::new(items.len(), |i: int| items[i].label)
}

pub open spec fn collect_par_part(p: ParagraphPart) -> Collected
    decreases p,
{
    match p {
        ParagraphPart::InlineWhitespace(_) => Collected::empty(),
        ParagraphPart::TextToken(_) => Collected::empty(),
        ParagraphPart::Math(m) => Collected {
            math: seq![m],
            item_lists: seq![],
            ref_ids: seq![],
            cite_ids: seq![],
        },
        ParagraphPart::Ref(s) => Collected {
            math: seq![],
            item_lists: seq![],
            ref_ids: seq![s],
            cite_ids: seq![],
        },
        ParagraphPart::Cite { ids, text } => {
            let cites = Collected {
                math: seq![],
                item_lists: seq![],
                ref_ids: seq![],
                cite_ids: ids@,
            };
            match text {
                Some(par) => cites.cat(collect_paragraph(par@)),
                None => cites,
            }
        },
        ParagraphPart::Emph(par) => collect_paragraph(par@),
        ParagraphPart::Textbf(par) => collect_paragraph(par@),
        ParagraphPart::Textit(par) => collect_paragraph(par@),
        ParagraphPart::Texttt(par) => collect_paragraph(par@),
        ParagraphPart::Qed => Collected::empty(),
        ParagraphPart::Enumerate(items) => {
            let list = Collected {
                math: seq![],
                item_lists: seq![labels_of_items(items@)],
                ref_ids: seq![],
                cite_ids: seq![],
            };
            list.cat(collect_items(items@))
        },
        ParagraphPart::Itemize(items) => {
            let list = Collected {
                math: seq![],
                item_lists: seq![labels_of_items(items@)],
                ref_ids: seq![],
                cite_ids: seq![],
            };
            list.cat(collect_items(items@))
        },
        ParagraphPart::Todo => Collected::empty(),
        ParagraphPart::Footnote(pars) => collect_paragraphs(pars@),
        ParagraphPart::Href { text, .. } => collect_paragraph(text@),
        ParagraphPart::Code(_) => Collected::empty(),
    }
}

pub open spec fn collect_paragraph(par: Seq<ParagraphPart>) -> Collected
    decreases par,
{
    if par.len() == 0 {
        Collected::empty()
    } else {
        collect_paragraph(par.drop_last()).cat(collect_par_part(par.last()))
    }
}

pub open spec fn collect_paragraphs(pars: Seq<Paragraph>) -> Collected
    decreases pars,
{
    if pars.len() == 0 {
        Collected::empty()
    } else {
        collect_paragraphs(pars.drop_last()).cat(collect_paragraph(pars.last()@))
    }
}

pub open spec fn collect_items(items: Seq<Item>) -> Collected
    decreases items,
{
    if items.len() == 0 {
        Collected::empty()
    } else {
        collect_items(items.drop_last()).cat(collect_paragraphs(items.last().content@))
    }
}

pub open spec fn collect_doc_part(p: DocumentPart) -> Collected {
    match p {
        DocumentPart::FreeParagraph(par) => collect_paragraph(par@),
        DocumentPart::Title(par) => collect_paragraph(par@),
        DocumentPart::Author(par) => collect_paragraph(par@),
        DocumentPart::Date() => Collected::empty(),
        DocumentPart::Maketitle() => Collected::empty(),
        DocumentPart::Section { name, .. } => collect_paragraph(name@),
        DocumentPart::Subsection { name, .. } => collect_paragraph(name@),
        DocumentPart::Abstract(pars) => collect_paragraphs(pars@),
        DocumentPart::TheoremLike { note, content, .. } => {
            let c = collect_paragraphs(content@);
            match note {
                Some(par) => collect_paragraph(par@).cat(c),
                None => c,
            }
        },
        DocumentPart::Proof(pars) => collect_paragraphs(pars@),
        DocumentPart::Bibliography => Collected::empty(),
    }
}

pub open spec fn collect_doc_parts(parts: Seq<DocumentPart>) -> Collected
    decreases parts,
{
    if parts.len() == 0 {
        Collected::empty()
    } else {
        collect_doc_parts(parts.drop_last()).cat(collect_doc_part(parts.last()))
    }
}

/// The flat registries produced by one traversal of a document: all formulas
/// in appearance order, the item labels of every list, and every referenced
/// and cited id (with repetitions; membership is all that is consulted).
pub struct NodeLists {
    pub math: Vec<Math>,
    pub item_lists: Vec<Vec<Option<Span>>>,
    pub ref_ids: Vec<Span>,
    pub cite_ids: Vec<Span>,
}

impl NodeLists {
    /// All spans of the registries lie inside a buffer of `len` bytes.
    pub open spec fn wf(self, len: nat) -> bool {
        &&& forall|i: int| 0 <= i < self.math@.len() ==> (#[trigger] self.math@[i]).wf(len)
        &&& forall|i: int, j: int|
            0 <= i < self.item_lists@.len() && 0 <= j < self.item_lists@[i]@.len()
                ==> wf_span_opt(#[trigger] self.item_lists@[i]@[j], len)
        &&& forall|i: int| 0 <= i < self.ref_ids@.len() ==> (#[trigger] self.ref_ids@[i]).wf(len)
        &&& forall|i: int| 0 <= i < self.cite_ids@.len() ==> (#[trigger] self.cite_ids@[i]).wf(
            len,
        )
    }

    pub open spec fn view_collected(self) -> Collected {
        Collected {
            math: self.math@,
            item_lists: Seq::new(self.item_lists@.len(), |i: int| self.item_lists@[i]@),
            ref_ids: self.ref_ids@,
            cite_ids: self.cite_ids@,
        }
    }

    /// Collects the registries of a whole document in one traversal.
    pub fn new(doc: &Document) -> (r: NodeLists)
        ensures
            r.view_collected() == collect_doc_parts(doc.parts@),
            forall|len: nat| doc.wf(len) ==> r.wf(len),
    {
        let mut result = NodeLists {
            math: Vec::new(),
            item_lists: Vec::new(),
            ref_ids: Vec::new(),
            cite_ids: Vec::new(),
        };
        assert(result.view_collected() =~~= Collected::empty());
        let mut i: usize = 0;
        while i < doc.parts.len()
            invariant
                i <= doc.parts@.len(),
                result.view_collected() == collect_doc_parts(doc.parts@.subrange(0, i as int)),
            decreases doc.parts@.len() - i,
        {
            result.add_doc_part(&doc.parts[i]);
            proof {
                let sub = doc.parts@.subrange(0, i + 1);
                assert(sub.drop_last() =~= doc.parts@.subrange(0, i as int));
                assert(sub.last() == doc.parts@[i as int]);
            }
            i += 1;
        }
        proof {
            assert(doc.parts@.subrange(0, doc.parts@.len() as int) =~= doc.parts@);
            assert forall|len: nat| doc.wf(len) implies result.wf(len) by {
                lemma_collect_doc_parts_wf(doc.parts@, len);
                let c = collect_doc_parts(doc.parts@);
                assert(result.math@ == c.math);
                assert(result.ref_ids@ == c.ref_ids);
                assert(result.cite_ids@ == c.cite_ids);
                assert forall|i: int, j: int|
                    0 <= i < result.item_lists@.len() && 0 <= j
                        < result.item_lists@[i]@.len() implies wf_span_opt(
                    #[trigger] result.item_lists@[i]@[j],
                    len,
                ) by {
                    assert(result.item_lists@[i]@ == c.item_lists[i]);
                }
            }
        }
        result
    }

    /// Adds the contributions of one document part, in traversal order.
    pub fn add_doc_part(&mut self, part: &DocumentPart)
        ensures
            final(self).view_collected() == old(self).view_collected().cat(
                collect_doc_part(*part),
            ),
    {
        match part {
            DocumentPart::Date() | DocumentPart::Maketitle() | DocumentPart::Bibliography => {
                proof {
                    assert(self.view_collected() =~~= self.view_collected().cat(
                        collect_doc_part(*part),
                    ));
                }
            },
            DocumentPart::FreeParagraph(par)
            | DocumentPart::Title(par)
            | DocumentPart::Author(par)
            | DocumentPart::Section { name: par, .. }
            | DocumentPart::Subsection { name: par, .. } => {
                self.add_paragraph(par);
            },
            DocumentPart::TheoremLike { content, note, .. } => {
                match note {
                    Some(par) => {
                        self.add_paragraph(par);
                    },
                    None => (),
                }
                self.add_paragraphs(content);
            },
            DocumentPart::Abstract(pars) | DocumentPart::Proof(pars) => {
                self.add_paragraphs(pars);
            },
        }
    }

    /// Adds the contributions of one paragraph part, in traversal order.
    pub fn add_par_part(&mut self, part: &ParagraphPart)
        ensures
            final(self).view_collected() == old(self).view_collected().cat(
                collect_par_part(*part),
            ),
        decreases *part,
    {
        match part {
            ParagraphPart::InlineWhitespace(_)
            | ParagraphPart::TextToken(_)
            | ParagraphPart::Qed
            | ParagraphPart::Todo
            | ParagraphPart::Code(_) => {
                proof {
                    assert(self.view_collected() =~~= self.view_collected().cat(
                        collect_par_part(*part),
                    ));
                }
            },
            ParagraphPart::Math(m) => {
                self.math.push(*m);
                proof {
                    assert(self.view_collected() =~~= old(self).view_collected().cat(
                        collect_par_part(*part),
                    ));
                }
            },
            ParagraphPart::Ref(s) => {
                self.ref_ids.push(*s);
                proof {
                    assert(self.view_collected() =~~= old(self).view_collected().cat(
                        collect_par_part(*part),
                    ));
                }
            },
            ParagraphPart::Cite { ids, text } => {
                let mut i: usize = 0;
                proof {
                    assert(self.cite_ids@ =~= old(self).cite_ids@ + ids@.subrange(0, 0));
                }
                while i < ids.len()
                    invariant
                        i <= ids@.len(),
                        self.math == old(self).math,
                        self.item_lists == old(self).item_lists,
                        self.ref_ids == old(self).ref_ids,
                        self.cite_ids@ == old(self).cite_ids@ + ids@.subrange(0, i as int),
                    decreases ids@.len() - i,
                {
                    self.cite_ids.push(ids[i]);
                    proof {
                        assert(old(self).cite_ids@ + ids@.subrange(0, i + 1) =~= (old(
                            self,
                        ).cite_ids@ + ids@.subrange(0, i as int)).push(ids@[i as int]));
                    }
                    i += 1;
                }
                proof {
                    assert(ids@.subrange(0, ids@.len() as int) =~= ids@);
                }
                match text {
                    Some(par) => {
                        self.add_paragraph(par);
                    },
                    None => (),
                }
                proof {
                    assert(self.view_collected() =~~= old(self).view_collected().cat(
                        collect_par_part(*part),
                    ));
                }
            },
            ParagraphPart::Emph(par) => {
                self.add_paragraph(par);
            },
            ParagraphPart::Textbf(par) => {
                self.add_paragraph(par);
            },
            ParagraphPart::Textit(par) => {
                self.add_paragraph(par);
            },
            ParagraphPart::Texttt(par) => {
                self.add_paragraph(par);
            },
            ParagraphPart::Href { text: par, .. } => {
                self.add_paragraph(par);
            },
            ParagraphPart::Enumerate(items) => {
                self.add_item_list(items);
                proof {
                    assert(self.view_collected() =~~= old(self).view_collected().cat(
                        collect_par_part(*part),
                    ));
                }
            },
            ParagraphPart::Itemize(items) => {
                self.add_item_list(items);
                proof {
                    assert(self.view_collected() =~~= old(self).view_collected().cat(
                        collect_par_part(*part),
                    ));
                }
            },
            ParagraphPart::Footnote(pars) => {
                self.add_paragraphs(pars);
            },
        }
    }

    /// Registers one itemize or enumerate list: its item labels, then the
    /// contributions of the item contents.
    fn add_item_list(&mut self, items: &Vec<Item>)
        ensures
            final(self).view_collected() == old(self).view_collected().cat(
                Collected {
                    math: seq![],
                    item_lists: seq![labels_of_items(items@)],
                    ref_ids: seq![],
                    cite_ids: seq![],
                },
            ).cat(collect_items(items@)),
        decreases items@,
    {
        let mut labels: Vec<Option<Span>> = Vec::new();
        let mut i: usize = 0;
        proof {
            assert(labels@ =~= labels_of_items(items@).subrange(0, 0));
        }
        while i < items.len()
            invariant
                i <= items@.len(),
                labels@ == labels_of_items(items@).subrange(0, i as int),
            decreases items@.len() - i,
        {
            labels.push(items[i].label);
            proof {
                assert(labels_of_items(items@).subrange(0, i + 1) =~= labels_of_items(
                    items@,
                ).subrange(0, i as int).push(items@[i as int].label));
            }
            i += 1;
        }
        proof {
            assert(labels@ =~= labels_of_items(items@));
        }
        self.item_lists.push(labels);
        let ghost mid = *self;
        proof {
            assert(mid.view_collected() =~~= old(self).view_collected().cat(
                Collected {
                    math: seq![],
                    item_lists: seq![labels_of_items(items@)],
                    ref_ids: seq![],
                    cite_ids: seq![],
                },
            ));
        }
        let mut j: usize = 0;
        proof {
            assert(self.view_collected() =~~= mid.view_collected().cat(
                collect_items(items@.subrange(0, 0)),
            ));
        }
        while j < items.len()
            invariant
                j <= items@.len(),
                mid.view_collected() == old(self).view_collected().cat(
                    Collected {
                        math: seq![],
                        item_lists: seq![labels_of_items(items@)],
                        ref_ids: seq![],
                        cite_ids: seq![],
                    },
                ),
                self.view_collected() == mid.view_collected().cat(
                    collect_items(items@.subrange(0, j as int)),
                ),
            decreases items@.len() - j,
        {
            self.add_paragraphs(&items[j].content);
            proof {
                let sub = items@.subrange(0, j + 1);
                assert(sub.drop_last() =~= items@.subrange(0, j as int));
                assert(sub.last() == items@[j as int]);
                assert(self.view_collected() =~~= mid.view_collected().cat(
                    collect_items(sub),
                ));
            }
            j += 1;
        }
        proof {
            assert(items@.subrange(0, items@.len() as int) =~= items@);
        }
    }

    fn add_paragraph(&mut self, par: &Paragraph)
        ensures
            final(self).view_collected() == old(self).view_collected().cat(
                collect_paragraph(par@),
            ),
        decreases par@,
    {
        let mut i: usize = 0;
        proof {
            assert(self.view_collected() =~~= old(self).view_collected().cat(
                collect_paragraph(par@.subrange(0, 0)),
            ));
        }
        while i < par.len()
            invariant
                i <= par@.len(),
                self.view_collected() == old(self).view_collected().cat(
                    collect_paragraph(par@.subrange(0, i as int)),
                ),
            decreases par@.len() - i,
        {
            self.add_par_part(&par[i]);
            proof {
                let sub = par@.subrange(0, i + 1);
                assert(sub.drop_last() =~= par@.subrange(0, i as int));
                assert(sub.last() == par@[i as int]);
                assert(self.view_collected() =~~= old(self).view_collected().cat(
                    collect_paragraph(sub),
                ));
            }
            i += 1;
        }
        proof {
            assert(par@.subrange(0, par@.len() as int) =~= par@);
        }
        proof {
            assert(self.view_collected() =~~= old(self).view_collected().cat(
                collect_paragraph(par@),
            ));
        }
    }

    fn add_paragraphs(&mut self, pars: &Vec<Paragraph>)
        ensures
            final(self).view_collected() == old(self).view_collected().cat(
                collect_paragraphs(pars@),
            ),
        decreases pars@,
    {
        let mut i: usize = 0;
        proof {
            assert(self.view_collected() =~~= old(self).view_collected().cat(
                collect_paragraphs(pars@.subrange(0, 0)),
            ));
        }
        while i < pars.len()
            invariant
                i <= pars@.len(),
                self.view_collected() == old(self).view_collected().cat(
                    collect_paragraphs(pars@.subrange(0, i as int)),
                ),
            decreases pars@.len() - i,
        {
            proof {
                assert(decreases_to!(pars@ => pars@[i as int]));
                assert(decreases_to!(pars@ => pars@[i as int]@));
            }
            self.add_paragraph(&pars[i]);
            proof {
                let sub = pars@.subrange(0, i + 1);
                assert(sub.drop_last() =~= pars@.subrange(0, i as int));
                assert(sub.last() == pars@[i as int]);
                assert(self.view_collected() =~~= old(self).view_collected().cat(
                    collect_paragraphs(sub),
                ));
            }
            i += 1;
        }
        proof {
            assert(pars@.subrange(0, pars@.len() as int) =~= pars@);
            assert(self.view_collected() =~~= old(self).view_collected().cat(
                collect_paragraphs(pars@),
            ));
        }
    }
}

/// All spans of a collection result lie inside a buffer of `len` bytes.
pub open spec fn collected_wf(c: Collected, len: nat) -> bool {
    &&& forall|i: int| 0 <= i < c.math.len() ==> (#[trigger] c.math[i]).wf(len)
    &&& forall|i: int, j: int|
        0 <= i < c.item_lists.len() && 0 <= j < c.item_lists[i].len() ==> wf_span_opt(
            #[trigger] c.item_lists[i][j],
            len,
        )
    &&& forall|i: int| 0 <= i < c.ref_ids.len() ==> (#[trigger] c.ref_ids[i]).wf(len)
    &&& forall|i: int| 0 <= i < c.cite_ids.len() ==> (#[trigger] c.cite_ids[i]).wf(len)
}

pub proof fn lemma_collect_par_part_wf(p: ParagraphPart, len: nat)
    requires
        wf_par_part(p, len),
    ensures
        collected_wf(collect_par_part(p), len),
    decreases p,
{
    match p {
        ParagraphPart::Cite { ids, text } => {
            match text {
                Some(par) => {
                    lemma_collect_paragraph_wf(par@, len);
                },
                None => {},
            }
        },
        ParagraphPart::Emph(par) => {
            lemma_collect_paragraph_wf(par@, len);
        },
        ParagraphPart::Textbf(par) => {
            lemma_collect_paragraph_wf(par@, len);
        },
        ParagraphPart::Textit(par) => {
            lemma_collect_paragraph_wf(par@, len);
        },
        ParagraphPart::Texttt(par) => {
            lemma_collect_paragraph_wf(par@, len);
        },
        ParagraphPart::Href { text, .. } => {
            lemma_collect_paragraph_wf(text@, len);
        },
        ParagraphPart::Enumerate(items) => {
            lemma_collect_items_wf(items@, len);
        },
        ParagraphPart::Itemize(items) => {
            lemma_collect_items_wf(items@, len);
        },
        ParagraphPart::Footnote(pars) => {
            lemma_collect_paragraphs_wf(pars@, len);
        },
        _ => {},
    }
}

pub proof fn lemma_collect_paragraph_wf(par: Seq<ParagraphPart>, len: nat)
    requires
        wf_paragraph(par, len),
    ensures
        collected_wf(collect_paragraph(par), len),
    decreases par,
{
    if par.len() > 0 {
        lemma_collect_paragraph_wf(par.drop_last(), len);
        lemma_collect_par_part_wf(par.last(), len);
    }
}

pub proof fn lemma_collect_paragraphs_wf(pars: Seq<Paragraph>, len: nat)
    requires
        wf_paragraphs(pars, len),
    ensures
        collected_wf(collect_paragraphs(pars), len),
    decreases pars,
{
    if pars.len() > 0 {
        lemma_collect_paragraphs_wf(pars.drop_last(), len);
        lemma_collect_paragraph_wf(pars.last()@, len);
    }
}

pub proof fn lemma_collect_items_wf(items: Seq<Item>, len: nat)
    requires
        wf_items(items, len),
    ensures
        collected_wf(collect_items(items), len),
    decreases items,
{
    if items.len() > 0 {
        lemma_collect_items_wf(items.drop_last(), len);
        lemma_collect_paragraphs_wf(items.last().content@, len);
    }
}

pub proof fn lemma_collect_doc_part_wf(p: DocumentPart, len: nat)
    requires
        wf_doc_part(p, len),
    ensures
        collected_wf(collect_doc_part(p), len),
{
    match p {
        DocumentPart::FreeParagraph(par) => {
            lemma_collect_paragraph_wf(par@, len);
        },
        DocumentPart::Title(par) => {
            lemma_collect_paragraph_wf(par@, len);
        },
        DocumentPart::Author(par) => {
            lemma_collect_paragraph_wf(par@, len);
        },
        DocumentPart::Section { name, .. } => {
            lemma_collect_paragraph_wf(name@, len);
        },
        DocumentPart::Subsection { name, .. } => {
            lemma_collect_paragraph_wf(name@, len);
        },
        DocumentPart::Abstract(pars) => {
            lemma_collect_paragraphs_wf(pars@, len);
        },
        DocumentPart::TheoremLike { note, content, .. } => {
            lemma_collect_paragraphs_wf(content@, len);
            match note {
                Some(par) => {
                    lemma_collect_paragraph_wf(par@, len);
                },
                None => {},
            }
        },
        DocumentPart::Proof(pars) => {
            lemma_collect_paragraphs_wf(pars@, len);
        },
        _ => {},
    }
}

pub proof fn lemma_collect_doc_parts_wf(parts: Seq<DocumentPart>, len: nat)
    requires
        forall|i: int| 0 <= i < parts.len() ==> wf_doc_part(#[trigger] parts[i], len),
    ensures
        collected_wf(collect_doc_parts(parts), len),
    decreases parts,
{
    if parts.len() > 0 {
        lemma_collect_doc_parts_wf(parts.drop_last(), len);
        lemma_collect_doc_part_wf(parts.last(), len);
    }
}

/// The kind of a bibliography entry.
#[derive(Debug, Clone, Copy, PartialEq, Eq, Structural)]
pub enum BibEntryType {
    Misc,
    Article,
    Book,
    Inproceedings,
    Thesis,
    Incollection,
}

/// A first name of a bibliography person: written out, or abbreviated (the
/// span holds the letters before the dot).
#[derive(Debug, Clone, Copy, PartialEq, Eq)]
pub enum FirstName {
    Full(Span),
    Abbreviation(Span),
}

#[derive(Debug, PartialEq, Eq)]
pub struct BibPerson {
    pub first_names: Vec<FirstName>,
    pub last_name: Span,
}

#[derive(Debug, Clone, Copy, PartialEq, Eq)]
pub struct BibPages {
    pub first: u64,
    pub last: Option<u64>,
}

/// One recognised field of a bibliography entry; `Unused` stands for an
/// accepted but discarded field.
#[derive(Debug, PartialEq, Eq)]
pub enum BibEntryItem {
    Title(Span),
    Year(Span),
    Authors(Vec<BibPerson>),
    Url(Span),
    Journal(Span),
    Booktitle(Span),
    Series(Span),
    Publisher(Span),
    Volume(Span),
    Number(Span),
    Pages(BibPages),
    Unused,
}

/// One bibliography record; spans refer to the bibliography source buffer.
#[derive(Debug, PartialEq, Eq)]
pub struct BibEntry {
    pub entry_type: BibEntryType,
    pub tag: Span,
    pub title: Option<Span>,
    pub year: Option<Span>,
    pub authors: Option<Vec<BibPerson>>,
    pub url: Option<Span>,
    pub journal: Option<Span>,
    pub booktitle: Option<Span>,
    pub series: Option<Span>,
    pub publisher: Option<Span>,
    pub volume: Option<Span>,
    pub number: Option<Span>,
    pub pages: Option<BibPages>,
}

pub open spec fn wf_first_name(f: FirstName, len: nat) -> bool {
    match f {
        FirstName::Full(s) => s.wf(len),
        FirstName::Abbreviation(s) => s.wf(len),
    }
}

pub open spec fn wf_bib_person(p: BibPerson, len: nat) -> bool {
    &&& forall|i: int| 0 <= i < p.first_names@.len() ==> wf_first_name(
        #[trigger] p.first_names@[i],
        len,
    )
    &&& p.last_name.wf(len)
}

impl BibEntry {
    pub open spec fn wf(self, len: nat) -> bool {
        &&& self.tag.wf(len)
        &&& wf_span_opt(self.title, len)
        &&& wf_span_opt(self.year, len)
        &&& match self.authors {
            Some(authors) => forall|i: int|
                0 <= i < authors@.len() ==> wf_bib_person(#[trigger] authors@[i], len),
            None => true,
        }
        &&& wf_span_opt(self.url, len)
        &&& wf_span_opt(self.journal, len)
        &&& wf_span_opt(self.booktitle, len)
        &&& wf_span_opt(self.series, len)
        &&& wf_span_opt(self.publisher, len)
        &&& wf_span_opt(self.volume, len)
        &&& wf_span_opt(self.number, len)
    }
}

} // verus!
