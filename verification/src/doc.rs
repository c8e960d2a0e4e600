//! The document model: a tree of renderable primitives and composites,
//! built bottom-up by dispatch rules and consumed by the printer.

use vstd::prelude::*;

verus! {

broadcast use
    vstd::std_specs::vec::axiom_vec_index_decreases,
    vstd::std_specs::vec::axiom_vec_decreases_to_view,
    vstd::seq::axiom_seq_index_decreases;

/// Ghost mirror of `FormatElement`; every contract of this crate speaks of it.
pub ghost enum Doc {
    /// Renders nothing.
    Empty,
    /// Opaque literal content; never split or altered.
    Text(Seq<char>),
    /// One literal space.
    Space,
    /// A space when the enclosing group is flat, a newline plus indentation when broken.
    SoftLine,
    /// Always a newline plus indentation; forces enclosing groups to break.
    HardLine,
    /// A newline with no indentation, for pre-formatted embedded text.
    LiteralLine,
    /// Sequential composition.
    Concat(Seq<Doc>),
    /// Increases indentation by one unit for its subtree.
    Indent(Box<Doc>),
    /// The unit of breaking: rendered flat if it fits the remaining width, else broken.
    Group(Option<u64>, Box<Doc>),
    /// Alternating content and separator items, packed line by line.
    Fill(Seq<Doc>),
    /// Content rendered only if the group with the given id resolved to broken.
    GroupBreakIf(u64, Box<Doc>),
}

/// A renderable document element, the exec counterpart of `Doc`.
pub enum FormatElement {
    Empty,
    Text(Vec<char>),
    Space,
    SoftLine,
    HardLine,
    LiteralLine,
    Concat(Vec<FormatElement>),
    Indent(Box<FormatElement>),
    Group(Option<u64>, Box<FormatElement>),
    Fill(Vec<FormatElement>),
    GroupBreakIf(u64, Box<FormatElement>),
}

pub open spec fn doc_of(e: FormatElement) -> Doc
    decreases e,
{
    match e {
        FormatElement::Empty => Doc::Empty,
        FormatElement::Text(s) => Doc::Text(s@),
        FormatElement::Space => Doc::Space,
        FormatElement::SoftLine => Doc::SoftLine,
        FormatElement::HardLine => Doc::HardLine,
        FormatElement::LiteralLine => Doc::LiteralLine,
        FormatElement::Concat(v) => Doc::Concat(docs_of(v@)),
        FormatElement::Indent(b) => Doc::Indent(Box::new(doc_of(*b))),
        FormatElement::Group(id, b) => Doc::Group(id, Box::new(doc_of(*b))),
        FormatElement::Fill(v) => Doc::Fill(docs_of(v@)),
        FormatElement::GroupBreakIf(id, b) => Doc::GroupBreakIf(id, Box::new(doc_of(*b))),
    }
}

/// The documents of a sequence of elements, index by index.
pub open spec fn docs_of(v: Seq<FormatElement>) -> Seq<Doc>
    decreases v,
{
    Seq::new(v.len(), |i: int| if 0 <= i < v.len() { doc_of(v[i]) } else { Doc::Empty })
}

impl View for FormatElement {
    type V = Doc;

    open spec fn view(&self) -> Doc {
        doc_of(*self)
    }
}

/// The characters of a string slice, one by one.
pub fn str_to_chars(s: &str) -> (r: Vec<char>)
    ensures
        r@ == s@,
{
    let n: usize = s.unicode_len();
    let mut r: Vec<char> = Vec::new();
    let mut i: usize = 0;
    while i < n
        invariant
            n == s@.len(),
            i <= n,
            r@ == s@.subrange(0, i as int),
        decreases n - i,
    {
        r.push(s.get_char(i));
        i = i + 1;
        proof {
            assert(r@ =~= s@.subrange(0, i as int));
        }
    }
    proof {
        assert(r@ =~= s@);
    }
    r
}

pub fn empty_element() -> (r: FormatElement)
    ensures
        r@ == Doc::Empty,
{
    FormatElement::Empty
}

/// A literal token such as a keyword or punctuation.
pub fn token(s: &str) -> (r: FormatElement)
    ensures
        r@ == Doc::Text(s@),
{
    FormatElement::Text(str_to_chars(s))
}

pub fn space_token() -> (r: FormatElement)
    ensures
        r@ == Doc::Space,
{
    FormatElement::Space
}

pub fn soft_line() -> (r: FormatElement)
    ensures
        r@ == Doc::SoftLine,
{
    FormatElement::SoftLine
}

pub fn hard_line() -> (r: FormatElement)
    ensures
        r@ == Doc::HardLine,
{
    FormatElement::HardLine
}

pub fn literal_line() -> (r: FormatElement)
    ensures
        r@ == Doc::LiteralLine,
{
    FormatElement::LiteralLine
}

pub fn concat_elements(v: Vec<FormatElement>) -> (r: FormatElement)
    ensures
        r@ == Doc::Concat(docs_of(v@)),
{
    FormatElement::Concat(v)
}

pub fn indent(e: FormatElement) -> (r: FormatElement)
    ensures
        r@ == Doc::Indent(Box::new(e@)),
{
    FormatElement::Indent(Box::new(e))
}

pub fn group(e: FormatElement) -> (r: FormatElement)
    ensures
        r@ == Doc::Group(None, Box::new(e@)),
{
    FormatElement::Group(None, Box::new(e))
}

pub fn group_with_id(id: u64, e: FormatElement) -> (r: FormatElement)
    ensures
        r@ == Doc::Group(Some(id), Box::new(e@)),
{
    FormatElement::Group(Some(id), Box::new(e))
}

pub fn fill_elements(v: Vec<FormatElement>) -> (r: FormatElement)
    ensures
        r@ == Doc::Fill(docs_of(v@)),
{
    FormatElement::Fill(v)
}

pub fn group_break_if(id: u64, e: FormatElement) -> (r: FormatElement)
    ensures
        r@ == Doc::GroupBreakIf(id, Box::new(e@)),
{
    FormatElement::GroupBreakIf(id, Box::new(e))
}

} // verus!
