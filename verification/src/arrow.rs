//! The per-syntax-node dispatch protocol, and its rule for arrow expressions:
//! each node variant renders itself to a document through the shared
//! formatter context. A rule must surface a missing grammar-guaranteed child
//! as a structural defect, and must claim each comment its node owns exactly
//! once, emitting leading comments before the node's content and trailing
//! comments after it.

use vstd::prelude::*;
use crate::doc::{Doc, FormatElement, docs_of, token, space_token, concat_elements};
use crate::context::{Formatter, Comment, comment_doc};
use crate::printer::FormatError;

verus! {

/// The comments a node owns, as indices into the context's table: valid when
/// each index names a real, still-unclaimed comment and no index repeats —
/// each comment is attached to exactly one place in the tree.
pub open spec fn claims_valid(claims: Seq<usize>, f: Formatter) -> bool {
    &&& (forall|k: int|
        0 <= k < claims.len() ==> #[trigger] claims[k] < f.spec_comments().len()
            && !f.spec_consumed()[claims[k] as int])
    &&& (forall|k1: int, k2: int| 0 <= k1 < k2 < claims.len() ==> claims[k1] != claims[k2])
}

/// After a successful dispatch the claimed set grew by exactly the node's
/// comments: each owned comment is now consumed, everything else unchanged.
pub open spec fn claimed_exactly(before: Seq<bool>, after: Seq<bool>, claims: Seq<usize>) -> bool {
    &&& after.len() == before.len()
    &&& (forall|i: int|
        0 <= i < before.len() ==> #[trigger] after[i] == (before[i] || claims.contains(
            i as usize,
        )))
}

/// The documents of the comments at the given indices, in order.
pub open spec fn comment_docs(comments: Seq<Comment>, idxs: Seq<usize>) -> Seq<Doc> {
    Seq::new(
        idxs.len(),
        |i: int|
            if 0 <= i < idxs.len() {
                comment_doc(
                    comments[idxs[i] as int].text@,
                    comments[idxs[i] as int].line_terminated,
                )
            } else {
                Doc::Empty
            },
    )
}

/// The dispatch protocol: every syntax-node variant exposes one operation
/// that builds its document from its children. The node is handed by value,
/// as its pre-formatted child documents move into the result. A node whose
/// grammar-guaranteed child is absent yields its structural defect instead
/// of a document, with the context untouched; a successful call claims the
/// node's comments exactly once and places them in the document.
pub trait ToFormatElement {
    /// The structural defect this node carries: a child the grammar
    /// guarantees that is absent from the tree, fatal to the operation.
    spec fn spec_structural_defect(&self) -> Option<FormatError>;

    /// The comments this node owns in the context's table, in emission
    /// order: leading ones first, then trailing ones.
    spec fn spec_claims(&self) -> Seq<usize>;

    /// The document this node is specified to render to, given the table of
    /// source comments.
    spec fn spec_format(&self, comments: Seq<Comment>) -> Doc;

    /// Builds the node's document: leading comments, then children
    /// interleaved with the node's own fixed tokens and layout primitives,
    /// then trailing comments; an absent optional child contributes nothing,
    /// an absent guaranteed child is reported.
    fn to_format_element(self, formatter: &mut Formatter) -> (r: Result<
        FormatElement,
        FormatError,
    >)
        requires
            old(formatter).wf(),
            claims_valid(self.spec_claims(), *old(formatter)),
        ensures
            final(formatter).wf(),
            final(formatter).spec_comments() == old(formatter).spec_comments(),
            final(formatter).spec_config() == old(formatter).spec_config(),
            r is Ok <==> self.spec_structural_defect() is None,
            (r matches Ok(e) ==> e@ == self.spec_format(old(formatter).spec_comments())),
            (r matches Err(d) ==> self.spec_structural_defect() == Some(d)),
            r is Err ==> final(formatter).spec_consumed() == old(formatter).spec_consumed(),
            r is Ok ==> claimed_exactly(
                old(formatter).spec_consumed(),
                final(formatter).spec_consumed(),
                self.spec_claims(),
            ),
    ;
}

impl Formatter {
    /// Formats a child node through the dispatch protocol.
    pub fn format_node<T: ToFormatElement>(&mut self, node: T) -> (r: Result<
        FormatElement,
        FormatError,
    >)
        requires
            old(self).wf(),
            claims_valid(node.spec_claims(), *old(self)),
        ensures
            final(self).wf(),
            final(self).spec_comments() == old(self).spec_comments(),
            final(self).spec_config() == old(self).spec_config(),
            r is Ok <==> node.spec_structural_defect() is None,
            (r matches Ok(e) ==> e@ == node.spec_format(old(self).spec_comments())),
            (r matches Err(d) ==> node.spec_structural_defect() == Some(d)),
            r is Err ==> final(self).spec_consumed() == old(self).spec_consumed(),
            r is Ok ==> claimed_exactly(
                old(self).spec_consumed(),
                final(self).spec_consumed(),
                node.spec_claims(),
            ),
    {
        node.to_format_element(self)
    }

    /// Claims the comments at the given indices, in order, and hands back
    /// their documents.
    fn claim_comment_elements(&mut self, idxs: &Vec<usize>) -> (r: Vec<FormatElement>)
        requires
            old(self).wf(),
            claims_valid(idxs@, *old(self)),
        ensures
            final(self).wf(),
            final(self).spec_comments() == old(self).spec_comments(),
            final(self).spec_config() == old(self).spec_config(),
            final(self).spec_next_group_id() == old(self).spec_next_group_id(),
            claimed_exactly(old(self).spec_consumed(), final(self).spec_consumed(), idxs@),
            docs_of(r@) == comment_docs(old(self).spec_comments(), idxs@),
    {
        let n: usize = idxs.len();
        let total: usize = self.comment_count();
        proof {
            old(self).lemma_wf_len();
        }
        let mut r: Vec<FormatElement> = Vec::new();
        let mut j: usize = 0;
        while j < n
            invariant
                self.wf(),
                n == idxs@.len(),
                total == old(self).spec_comments().len(),
                old(self).spec_consumed().len() == old(self).spec_comments().len(),
                j <= n,
                claims_valid(idxs@, *old(self)),
                self.spec_comments() == old(self).spec_comments(),
                self.spec_config() == old(self).spec_config(),
                self.spec_next_group_id() == old(self).spec_next_group_id(),
                claimed_exactly(
                    old(self).spec_consumed(),
                    self.spec_consumed(),
                    idxs@.subrange(0, j as int),
                ),
                r@.len() == j,
                forall|k: int|
                    0 <= k < j ==> #[trigger] docs_of(r@)[k] == comment_docs(
                        old(self).spec_comments(),
                        idxs@,
                    )[k],
            decreases n - j,
        {
            let idx = idxs[j];
            proof {
                assert(!idxs@.subrange(0, j as int).contains(idx)) by {
                    if idxs@.subrange(0, j as int).contains(idx) {
                        let k = idxs@.subrange(0, j as int).index_of(idx);
                        assert(idxs@.subrange(0, j as int)[k] == idx);
                        assert(idxs@[k] == idxs@[j as int]);
                    }
                }
                assert(!self.spec_consumed()[idx as int]);
            }
            let e = self.take_comment_element(idx).unwrap();
            let ghost r_pre = r@;
            r.push(e);
            j = j + 1;
            proof {
                assert(idxs@.subrange(0, j as int) =~= idxs@.subrange(0, j - 1).push(idx));
                let ghost s_now = idxs@.subrange(0, j as int);
                let ghost s_pre = idxs@.subrange(0, j - 1);
                assert forall|i: int|
                    0 <= i < old(self).spec_consumed().len() implies #[trigger] self.spec_consumed()[i]
                    == (old(self).spec_consumed()[i] || s_now.contains(i as usize)) by {
                    assert(i <= total);
                    if s_now.contains(i as usize) {
                        let k = s_now.index_of(i as usize);
                        assert(s_now[k] == i as usize);
                        if k < j - 1 {
                            assert(s_pre[k] == i as usize);
                            assert(s_pre.contains(i as usize));
                        } else {
                            assert(i as usize == idx);
                            assert(i == idx as int);
                        }
                    }
                    if s_pre.contains(i as usize) {
                        let k = s_pre.index_of(i as usize);
                        assert(s_pre[k] == i as usize);
                        assert(s_now[k] == i as usize);
                        assert(s_now.contains(i as usize));
                    }
                    if i == idx as int {
                        assert(s_now[j - 1] == idx);
                        assert(s_now.contains(i as usize));
                    }
                }
                assert forall|k: int|
                    0 <= k < j implies #[trigger] docs_of(r@)[k] == comment_docs(
                    old(self).spec_comments(),
                    idxs@,
                )[k] by {
                    if k < j - 1 {
                        assert(docs_of(r@)[k] == docs_of(r_pre)[k]);
                    }
                }
            }
        }
        proof {
            assert(idxs@.subrange(0, n as int) =~= idxs@);
            assert(docs_of(r@) =~= comment_docs(old(self).spec_comments(), idxs@));
        }
        r
    }
}

/// The parameters of an arrow expression: a single name, or a full parameter
/// list. Either child arrives as its already-formatted document.
pub enum ArrowParams {
    Name(FormatElement),
    ParameterList(FormatElement),
}

pub ghost enum ArrowParamsV {
    Name(Doc),
    ParameterList(Doc),
}

impl View for ArrowParams {
    type V = ArrowParamsV;

    open spec fn view(&self) -> ArrowParamsV {
        match self {
            ArrowParams::Name(e) => ArrowParamsV::Name(e@),
            ArrowParams::ParameterList(e) => ArrowParamsV::ParameterList(e@),
        }
    }
}

/// An arrow expression, as the dispatch rule reads it from the syntax tree:
/// the optional `async` keyword text, the parameters, the arrow token text,
/// the body's document, and the indices of the comments attached to this
/// node. The grammar guarantees the arrow token and the body; the `async`
/// keyword and the parameters are optional.
pub struct ArrowExpr {
    pub async_token: Option<String>,
    pub params: Option<ArrowParams>,
    pub fat_arrow_token: Option<String>,
    pub body: Option<FormatElement>,
    pub leading_comments: Vec<usize>,
    pub trailing_comments: Vec<usize>,
}

pub ghost struct ArrowExprV {
    pub async_token: Option<Seq<char>>,
    pub params: Option<ArrowParamsV>,
    pub fat_arrow_token: Option<Seq<char>>,
    pub body: Option<Doc>,
    pub leading_comments: Seq<usize>,
    pub trailing_comments: Seq<usize>,
}

pub open spec fn opt_str_view(o: Option<String>) -> Option<Seq<char>> {
    match o {
        Some(s) => Some(s@),
        None => None,
    }
}

impl View for ArrowExpr {
    type V = ArrowExprV;

    open spec fn view(&self) -> ArrowExprV {
        ArrowExprV {
            async_token: opt_str_view(self.async_token),
            params: match self.params {
                Some(p) => Some(p@),
                None => None,
            },
            fat_arrow_token: opt_str_view(self.fat_arrow_token),
            body: match self.body {
                Some(b) => Some(b@),
                None => None,
            },
            leading_comments: self.leading_comments@,
            trailing_comments: self.trailing_comments@,
        }
    }
}

/// The node's own content: the `async` keyword and a space when present; the
/// parameters, a lone name wrapped in parentheses; a space, the arrow token,
/// a space; then the body.
pub open spec fn arrow_core(a: ArrowExprV) -> Seq<Doc> {
    (match a.async_token {
        Some(t) => seq![Doc::Concat(seq![Doc::Text(t), Doc::Space])],
        None => Seq::<Doc>::empty(),
    }) + (match a.params {
        Some(ArrowParamsV::Name(n)) => seq![Doc::Text("("@), n, Doc::Text(")"@)],
        Some(ArrowParamsV::ParameterList(p)) => seq![p],
        None => Seq::<Doc>::empty(),
    }) + seq![Doc::Space] + (match a.fat_arrow_token {
        Some(t) => seq![Doc::Text(t)],
        None => Seq::<Doc>::empty(),
    }) + seq![Doc::Space] + (match a.body {
        Some(b) => seq![b],
        None => Seq::<Doc>::empty(),
    })
}

/// The document an arrow expression renders to: its leading comments, its
/// own content, then its trailing comments.
pub open spec fn arrow_doc(a: ArrowExprV, comments: Seq<Comment>) -> Doc {
    Doc::Concat(
        comment_docs(comments, a.leading_comments) + arrow_core(a) + comment_docs(
            comments,
            a.trailing_comments,
        ),
    )
}

impl ToFormatElement for ArrowExpr {
    /// The arrow token and the body are grammar-guaranteed: either one
    /// absent is a parser invariant violation.
    open spec fn spec_structural_defect(&self) -> Option<FormatError> {
        if self.fat_arrow_token is None || self.body is None {
            Some(FormatError::MissingChild)
        } else {
            None
        }
    }

    open spec fn spec_claims(&self) -> Seq<usize> {
        self.leading_comments@ + self.trailing_comments@
    }

    open spec fn spec_format(&self, comments: Seq<Comment>) -> Doc {
        arrow_doc(self@, comments)
    }

    fn to_format_element(self, formatter: &mut Formatter) -> (r: Result<
        FormatElement,
        FormatError,
    >) {
        let ghost sv = self@;
        let ghost comments0 = formatter.spec_comments();
        if self.fat_arrow_token.is_none() || self.body.is_none() {
            return Err(FormatError::MissingChild);
        }
        proof {
            lemma_claims_valid_split(sv.leading_comments, sv.trailing_comments, *formatter);
        }
        let mut lead = formatter.claim_comment_elements(&self.leading_comments);
        let ghost consumed1 = formatter.spec_consumed();

        let mut mid: Vec<FormatElement> = Vec::new();
        match self.async_token {
            Some(async_token) => {
                let mut pair: Vec<FormatElement> = Vec::new();
                pair.push(formatter.format_token(async_token.as_str()));
                pair.push(space_token());
                let ghost pv = pair@;
                let keyword = concat_elements(pair);
                proof {
                    assert(docs_of(pv) =~= seq![Doc::Text(async_token@), Doc::Space]);
                }
                mid.push(keyword);
            },
            None => {},
        }
        match self.params {
            Some(ArrowParams::Name(name)) => {
                mid.push(token("("));
                mid.push(name);
                mid.push(token(")"));
            },
            Some(ArrowParams::ParameterList(params)) => {
                mid.push(params);
            },
            None => {},
        }
        mid.push(space_token());
        match self.fat_arrow_token {
            Some(arrow) => {
                mid.push(formatter.format_token(arrow.as_str()));
            },
            None => {},
        }
        mid.push(space_token());
        match self.body {
            Some(body) => {
                mid.push(body);
            },
            None => {},
        }
        proof {
            assert(docs_of(mid@) =~= arrow_core(sv));
            old(formatter).lemma_wf_len();
            let all = sv.leading_comments + sv.trailing_comments;
            assert forall|k: int|
                0 <= k < sv.trailing_comments.len() implies #[trigger] sv.trailing_comments[k]
                < formatter.spec_comments().len() && !formatter.spec_consumed()[
                sv.trailing_comments[k] as int
            ] by {
                let kk = sv.leading_comments.len() + k;
                assert(all[kk] == sv.trailing_comments[k]);
                if sv.leading_comments.contains(sv.trailing_comments[k]) {
                    let k2 = sv.leading_comments.index_of(sv.trailing_comments[k]);
                    assert(sv.leading_comments[k2] == sv.trailing_comments[k]);
                    assert(all[k2] == all[kk]);
                }
            }
            assert forall|k1: int, k2: int|
                0 <= k1 < k2 < sv.trailing_comments.len() implies sv.trailing_comments[k1]
                != sv.trailing_comments[k2] by {
                assert(all[sv.leading_comments.len() + k1] == sv.trailing_comments[k1]);
                assert(all[sv.leading_comments.len() + k2] == sv.trailing_comments[k2]);
            }
            assert(claims_valid(sv.trailing_comments, *formatter));
        }
        let mut trail = formatter.claim_comment_elements(&self.trailing_comments);

        let ghost lead_v = lead@;
        let ghost mid_v = mid@;
        let ghost trail_v = trail@;
        let mut tokens: Vec<FormatElement> = Vec::new();
        tokens.append(&mut lead);
        tokens.append(&mut mid);
        tokens.append(&mut trail);
        let ghost tv = tokens@;
        let r = concat_elements(tokens);
        proof {
            assert(tv =~= lead_v + mid_v + trail_v);
            assert(docs_of(tv) =~= docs_of(lead_v) + docs_of(mid_v) + docs_of(trail_v));
            assert(docs_of(tv) =~= comment_docs(comments0, sv.leading_comments) + arrow_core(sv)
                + comment_docs(comments0, sv.trailing_comments));
            lemma_claimed_exactly_chain(
                old(formatter).spec_consumed(),
                consumed1,
                formatter.spec_consumed(),
                sv.leading_comments,
                sv.trailing_comments,
            );
        }
        Ok(r)
    }
}

/// Validity of a node's combined claim list carries to its leading part.
proof fn lemma_claims_valid_split(lead: Seq<usize>, trail: Seq<usize>, f: Formatter)
    requires
        claims_valid(lead + trail, f),
    ensures
        claims_valid(lead, f),
{
    assert forall|k: int| 0 <= k < lead.len() implies #[trigger] lead[k] < f.spec_comments().len()
        && !f.spec_consumed()[lead[k] as int] by {
        assert((lead + trail)[k] == lead[k]);
    }
    assert forall|k1: int, k2: int| 0 <= k1 < k2 < lead.len() implies lead[k1] != lead[k2] by {
        assert((lead + trail)[k1] == lead[k1] && (lead + trail)[k2] == lead[k2]);
    }
}

/// Two claim steps in sequence claim exactly the concatenation of their
/// lists.
proof fn lemma_claimed_exactly_chain(
    c0: Seq<bool>,
    c1: Seq<bool>,
    c2: Seq<bool>,
    lead: Seq<usize>,
    trail: Seq<usize>,
)
    requires
        claimed_exactly(c0, c1, lead),
        claimed_exactly(c1, c2, trail),
    ensures
        claimed_exactly(c0, c2, lead + trail),
{
    assert forall|i: int|
        0 <= i < c0.len() implies #[trigger] c2[i] == (c0[i] || (lead + trail).contains(
        i as usize,
    )) by {
        if lead.contains(i as usize) {
            let k = lead.index_of(i as usize);
            assert(lead[k] == i as usize);
            assert((lead + trail)[k] == i as usize);
        }
        if trail.contains(i as usize) {
            let k = trail.index_of(i as usize);
            assert(trail[k] == i as usize);
            assert((lead + trail)[lead.len() + k] == i as usize);
        }
        if (lead + trail).contains(i as usize) {
            let k = (lead + trail).index_of(i as usize);
            assert((lead + trail)[k] == i as usize);
            if k < lead.len() {
                assert(lead[k] == i as usize);
                assert(lead.contains(i as usize));
            } else {
                assert(trail[k - lead.len()] == i as usize);
                assert(trail.contains(i as usize));
            }
        }
    }
}

} // verus!
