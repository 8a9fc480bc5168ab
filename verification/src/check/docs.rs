//! The rule on documentation blocks: no text should be written twice.

use vstd::prelude::*;
use crate::text::position;
use crate::text::lemma_position_is;
use crate::text::joined;
use crate::text::join;
use crate::text::texts_of;
use crate::lists::present;
use crate::lists::lemma_present_step;
use crate::manifest::Manifest;
use crate::manifest::DocView;
use crate::manifest::Doc;

verus! {

/// Why a documentation block fails.
#[derive(Debug, Clone, PartialEq, Eq)]
pub enum DocFailure {
    /// The ids of the blocks that hold one and the same text.
    DuplicateDocsBlock(Vec<String>),
}

pub enum DocFailureView {
    DuplicateDocsBlock(Seq<Seq<char>>),
}

impl View for DocFailure {
    type V = DocFailureView;

    open spec fn view(&self) -> DocFailureView {
        match self {
            DocFailure::DuplicateDocsBlock(ids) => DocFailureView::DuplicateDocsBlock(
                ids.deep_view(),
            ),
        }
    }
}

impl DeepView for DocFailure {
    type V = DocFailureView;

    open spec fn deep_view(&self) -> DocFailureView {
        self@
    }
}

impl DocFailureView {
    /// The text that reports the failure: its name and the ids.
    pub open spec fn text(self) -> Seq<char> {
        match self {
            DocFailureView::DuplicateDocsBlock(ids) => "DuplicateDocsBlock ("@ + joined(ids, ","@)
                + ")"@,
        }
    }
}

impl DocFailure {
    pub fn to_string(&self) -> (r: String)
        ensures
            r@ == self@.text(),
    {
        match self {
            DocFailure::DuplicateDocsBlock(ids) => {
                assert(texts_of(ids@) =~= ids.deep_view());
                "DuplicateDocsBlock (".to_owned().concat(join(ids, ",").as_str()).concat(")")
            },
        }
    }
}

/// A change to a documentation block. No rule on them has a fix.
#[derive(Debug, Clone, Copy, PartialEq, Eq, Structural)]
pub enum DocChange {
    Placeholder,
}

/// The outcome of the rules for one documentation block.
#[derive(Debug, Clone, PartialEq, Eq)]
pub struct DocResult {
    pub doc_name: String,
    pub failures: Vec<DocFailure>,
    pub changes: Vec<DocChange>,
}

impl DocResult {
    pub open spec fn passes(&self) -> bool {
        self.failures@.len() == 0
    }

    /// One line for each failure.
    pub open spec fn reasons(&self) -> Seq<Seq<char>> {
        Seq::new(self.failures@.len(), |i: int| self.failures@[i]@.text())
    }

    pub fn is_pass(&self) -> (r: bool)
        ensures
            r == self.passes(),
    {
        self.failures.len() == 0
    }

    pub fn is_failure(&self) -> (r: bool)
        ensures
            r == !self.passes(),
    {
        !self.is_pass()
    }

    pub fn changes(&self) -> (r: &Vec<DocChange>)
        ensures
            r == &self.changes,
    {
        &self.changes
    }

    pub fn failure_reasons(&self) -> (r: Vec<String>)
        ensures
            r.deep_view() == self.reasons(),
    {
        let mut out: Vec<String> = Vec::new();
        let mut i: usize = 0;
        while i < self.failures.len()
            invariant
                i <= self.failures.len(),
                out@.len() == i,
                forall|j: int| 0 <= j < i ==> (#[trigger] out@[j])@ == self.failures@[j]@.text(),
            decreases self.failures.len() - i,
        {
            out.push(self.failures[i].to_string());
            i = i + 1;
        }
        assert(out.deep_view() =~= self.reasons());
        out
    }
}

pub open spec fn doc_texts(docs: Seq<DocView>) -> Seq<Seq<char>> {
    Seq::new(docs.len(), |i: int| docs[i].block_contents)
}

/// The ids of the blocks whose text is `text`, in order.
pub open spec fn ids_with_text(docs: Seq<DocView>, text: Seq<char>) -> Seq<Seq<char>> {
    present(
        Seq::new(
            docs.len(),
            |i: int|
                if docs[i].block_contents == text {
                    Some(docs[i].unique_id)
                } else {
                    None
                },
        ),
    )
}

/// The failure that the block at `i` stands for: it is the first block of
/// its text, and other blocks hold the same text.
pub open spec fn duplicate_group(docs: Seq<DocView>, i: int) -> Option<DocFailureView> {
    if position(doc_texts(docs), docs[i].block_contents) == i && ids_with_text(
        docs,
        docs[i].block_contents,
    ).len() > 1 {
        Some(DocFailureView::DuplicateDocsBlock(ids_with_text(docs, docs[i].block_contents)))
    } else {
        None
    }
}

/// One failure for each text that several blocks hold, in the order in
/// which the texts first occur.
pub open spec fn duplicate_groups(docs: Seq<DocView>) -> Seq<DocFailureView> {
    present(Seq::new(docs.len(), |i: int| duplicate_group(docs, i)))
}

fn collect_ids_with_text(docs: &Vec<Doc>, text: &String) -> (r: Vec<String>)
    ensures
        r.deep_view() == ids_with_text(docs.deep_view(), text@),
{
    let ghost candidates = Seq::new(
        docs.deep_view().len(),
        |i: int|
            if docs.deep_view()[i].block_contents == text@ {
                Some(docs.deep_view()[i].unique_id)
            } else {
                None
            },
    );
    let mut out: Vec<String> = Vec::new();
    let mut i: usize = 0;
    assert(candidates.take(0) =~= Seq::empty());
    while i < docs.len()
        invariant
            i <= docs.len(),
            candidates == Seq::new(
                docs.deep_view().len(),
                |i: int|
                    if docs.deep_view()[i].block_contents == text@ {
                        Some(docs.deep_view()[i].unique_id)
                    } else {
                        None
                    },
            ),
            out.deep_view() == present(candidates.take(i as int)),
        decreases docs.len() - i,
    {
        proof {
            lemma_present_step(candidates, i as int);
        }
        if docs[i].block_contents == *text {
            let ghost before = out.deep_view();
            out.push(docs[i].unique_id.clone());
            assert(out.deep_view() =~= before.push(docs@[i as int]@.unique_id));
        }
        i = i + 1;
    }
    assert(candidates.take(docs.len() as int) =~= candidates);
    out
}

fn first_with_text(docs: &Vec<Doc>, text: &String) -> (r: usize)
    ensures
        r == position(doc_texts(docs.deep_view()), text@),
{
    let ghost texts = doc_texts(docs.deep_view());
    let mut i: usize = 0;
    while i < docs.len()
        invariant
            i <= docs.len(),
            texts == doc_texts(docs.deep_view()),
            forall|j: int| 0 <= j < i ==> #[trigger] texts[j] != text@,
        decreases docs.len() - i,
    {
        if docs[i].block_contents == *text {
            proof {
                lemma_position_is(texts, text@, i as int);
            }
            return i;
        }
        i = i + 1;
    }
    proof {
        lemma_position_is(texts, text@, i as int);
    }
    i
}

/// Finds the texts that several documentation blocks hold. There is no
/// result when no text is written twice.
pub fn duplicate_docs(manifest: &Manifest) -> (r: Option<Vec<DocFailure>>)
    ensures
        match r {
            Some(failures) => failures.deep_view() == duplicate_groups(manifest@.docs)
                && failures.len() > 0,
            None => duplicate_groups(manifest@.docs).len() == 0,
        },
{
    let docs = &manifest.docs;
    let ghost all = docs.deep_view();
    let ghost candidates = Seq::new(all.len(), |i: int| duplicate_group(all, i));
    let mut failures: Vec<DocFailure> = Vec::new();
    let mut i: usize = 0;
    assert(candidates.take(0) =~= Seq::empty());
    while i < docs.len()
        invariant
            i <= docs.len(),
            all == docs.deep_view(),
            candidates == Seq::new(all.len(), |i: int| duplicate_group(all, i)),
            failures.deep_view() == present(candidates.take(i as int)),
        decreases docs.len() - i,
    {
        proof {
            lemma_present_step(candidates, i as int);
        }
        let text = &docs[i].block_contents;
        assert(all[i as int].block_contents == text@);
        if first_with_text(docs, text) == i {
            let ids = collect_ids_with_text(docs, text);
            if ids.len() > 1 {
                let ghost before = failures.deep_view();
                let failure = DocFailure::DuplicateDocsBlock(ids);
                failures.push(failure);
                assert(failures.deep_view() =~= before.push(failure@));
            }
        }
        i = i + 1;
    }
    assert(candidates.take(docs.len() as int) =~= candidates);
    if failures.len() > 0 {
        Some(failures)
    } else {
        None
    }
}

} // verus!
