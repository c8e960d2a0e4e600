//! The formatter context: per-invocation configuration, group id allocation,
//! and comment attachment bookkeeping. Every comment must be claimed exactly
//! once across a full format pass; a missed one is detectable as a defect.

use vstd::prelude::*;
use crate::doc::{Doc, FormatElement, token, str_to_chars, hard_line, concat_elements, docs_of};
use crate::printer::{PrintConfig, FormatError};

verus! {

/// Where a comment attaches to its owning syntax node.
#[derive(Clone, Copy, PartialEq, Eq, Structural, Debug)]
pub enum CommentPlacement {
    Leading,
    Trailing,
    Dangling,
}

/// A source comment to carry over to the output.
pub struct Comment {
    pub text: String,
    pub placement: CommentPlacement,
    /// Whether the comment ends its line in the source, which forces a line
    /// break after it in the output.
    pub line_terminated: bool,
}

/// The document one comment renders to: its text, followed by a hard line
/// when the comment ends its line in the source.
pub open spec fn comment_doc(text: Seq<char>, line_terminated: bool) -> Doc {
    if line_terminated {
        Doc::Concat(seq![Doc::Text(text), Doc::HardLine])
    } else {
        Doc::Text(text)
    }
}

/// Builds the document for one comment.
pub fn comment_element(c: &Comment) -> (r: FormatElement)
    ensures
        r@ == comment_doc(c.text@, c.line_terminated),
{
    let text = FormatElement::Text(str_to_chars(c.text.as_str()));
    if c.line_terminated {
        let mut v: Vec<FormatElement> = Vec::new();
        v.push(text);
        v.push(hard_line());
        let ghost vv = v@;
        let r = concat_elements(v);
        proof {
            assert(docs_of(vv) =~= seq![Doc::Text(c.text@), Doc::HardLine]);
        }
        r
    } else {
        text
    }
}

/// The per-invocation formatter context, created once per top-level format
/// call: configuration, the comments attached to the tree, which of them have
/// been claimed, and a counter for fresh group ids.
pub struct Formatter {
    config: PrintConfig,
    comments: Vec<Comment>,
    consumed: Vec<bool>,
    next_group_id: u64,
}

impl Formatter {
    pub closed spec fn spec_config(self) -> PrintConfig {
        self.config
    }

    pub closed spec fn spec_comments(self) -> Seq<Comment> {
        self.comments@
    }

    /// Which comments have been claimed so far.
    pub closed spec fn spec_consumed(self) -> Seq<bool> {
        self.consumed@
    }

    pub closed spec fn spec_next_group_id(self) -> u64 {
        self.next_group_id
    }

    pub closed spec fn wf(self) -> bool {
        self.consumed@.len() == self.comments@.len()
    }

    /// What well-formedness gives callers: one claim mark per comment.
    pub proof fn lemma_wf_len(self)
        requires
            self.wf(),
        ensures
            self.spec_consumed().len() == self.spec_comments().len(),
    {
    }

    /// A fresh context: no comment claimed yet, group ids starting at zero.
    pub fn new(config: PrintConfig, comments: Vec<Comment>) -> (r: Formatter)
        ensures
            r.wf(),
            r.spec_config() == config,
            r.spec_comments() == comments@,
            r.spec_consumed().len() == comments@.len(),
            forall|i: int| 0 <= i < comments@.len() ==> !r.spec_consumed()[i],
            r.spec_next_group_id() == 0,
    {
        let n: usize = comments.len();
        let mut consumed: Vec<bool> = Vec::new();
        let mut i: usize = 0;
        while i < n
            invariant
                i <= n,
                consumed@.len() == i,
                forall|j: int| 0 <= j < i ==> !consumed@[j],
            decreases n - i,
        {
            consumed.push(false);
            i = i + 1;
        }
        Formatter { config, comments, consumed, next_group_id: 0 }
    }

    pub fn config(&self) -> (r: &PrintConfig)
        ensures
            *r == self.spec_config(),
    {
        &self.config
    }

    pub fn comment_count(&self) -> (r: usize)
        ensures
            r == self.spec_comments().len(),
    {
        self.comments.len()
    }

    pub fn comment_at(&self, i: usize) -> (r: &Comment)
        requires
            i < self.spec_comments().len(),
        ensures
            *r == self.spec_comments()[i as int],
    {
        &self.comments[i]
    }

    /// Claims comment `i` for emission. Returns true exactly when the claim
    /// is new: a second claim of the same comment reports false, so emitting
    /// a comment twice is detectable.
    pub fn claim_comment(&mut self, i: usize) -> (r: bool)
        requires
            old(self).wf(),
        ensures
            final(self).wf(),
            r == (i < old(self).spec_comments().len() && !old(self).spec_consumed()[i as int]),
            final(self).spec_comments() == old(self).spec_comments(),
            final(self).spec_config() == old(self).spec_config(),
            final(self).spec_next_group_id() == old(self).spec_next_group_id(),
            i < old(self).spec_comments().len() ==> final(self).spec_consumed() == old(
                self,
            ).spec_consumed().update(i as int, true),
            i >= old(self).spec_comments().len() ==> final(self).spec_consumed() == old(
                self,
            ).spec_consumed(),
    {
        if i < self.consumed.len() {
            let was: bool = self.consumed[i];
            self.consumed.set(i, true);
            !was
        } else {
            false
        }
    }

    /// Claims comment `i` and hands back its document; nothing when the
    /// comment was already claimed or does not exist.
    pub fn take_comment_element(&mut self, i: usize) -> (r: Option<FormatElement>)
        requires
            old(self).wf(),
        ensures
            final(self).wf(),
            final(self).spec_comments() == old(self).spec_comments(),
            final(self).spec_config() == old(self).spec_config(),
            final(self).spec_next_group_id() == old(self).spec_next_group_id(),
            r is Some <==> (i < old(self).spec_comments().len() && !old(self).spec_consumed()[i as int]),
            r matches Some(e) ==> e@ == comment_doc(
                old(self).spec_comments()[i as int].text@,
                old(self).spec_comments()[i as int].line_terminated,
            ),
            i < old(self).spec_comments().len() ==> final(self).spec_consumed() == old(
                self,
            ).spec_consumed().update(i as int, true),
            i >= old(self).spec_comments().len() ==> final(self).spec_consumed() == old(
                self,
            ).spec_consumed(),
    {
        if self.claim_comment(i) {
            Some(comment_element(&self.comments[i]))
        } else {
            None
        }
    }

    /// The first comment never claimed, if any: the unconsumed-comment
    /// defect check at the end of a pass.
    pub fn first_unconsumed(&self) -> (r: Option<usize>)
        requires
            self.wf(),
        ensures
            r is None <==> (forall|j: int|
                0 <= j < self.spec_consumed().len() ==> self.spec_consumed()[j]),
            r matches Some(j) ==> j < self.spec_consumed().len() && !self.spec_consumed()[j as int]
                && (forall|k: int| 0 <= k < j ==> self.spec_consumed()[k]),
    {
        let n: usize = self.consumed.len();
        let mut i: usize = 0;
        while i < n
            invariant
                n == self.spec_consumed().len(),
                i <= n,
                forall|k: int| 0 <= k < i ==> self.spec_consumed()[k],
            decreases n - i,
        {
            if !self.consumed[i] {
                return Some(i);
            }
            i = i + 1;
        }
        None
    }

    /// Comment preservation, checked at the end of a pass: succeeds exactly
    /// when every comment attached to the tree was claimed for emission;
    /// otherwise reports the first missed comment as a defect.
    pub fn check_comments_consumed(&self) -> (r: Result<(), FormatError>)
        requires
            self.wf(),
        ensures
            r is Ok <==> (forall|j: int|
                0 <= j < self.spec_consumed().len() ==> self.spec_consumed()[j]),
            r matches Err(e) ==> (e matches FormatError::UnconsumedComment(j)
                && j < self.spec_consumed().len() && !self.spec_consumed()[j as int]),
    {
        match self.first_unconsumed() {
            None => Ok(()),
            Some(j) => Err(FormatError::UnconsumedComment(j)),
        }
    }

    /// A fresh group id for a `Group` / `GroupBreakIf` pair, unique within
    /// this context.
    pub fn fresh_group_id(&mut self) -> (r: u64)
        requires
            old(self).wf(),
            old(self).spec_next_group_id() < u64::MAX,
        ensures
            final(self).wf(),
            r == old(self).spec_next_group_id(),
            final(self).spec_next_group_id() == old(self).spec_next_group_id() + 1,
            final(self).spec_comments() == old(self).spec_comments(),
            final(self).spec_consumed() == old(self).spec_consumed(),
            final(self).spec_config() == old(self).spec_config(),
    {
        let r = self.next_group_id;
        self.next_group_id = self.next_group_id + 1;
        r
    }

    /// A literal token, rendered through this context.
    pub fn format_token(&self, s: &str) -> (r: FormatElement)
        ensures
            r@ == Doc::Text(s@),
    {
        token(s)
    }
}

} // verus!
