//! Flat-width measurement: how wide a document would be if every line
//! variant were rendered flat, and whether that fits a remaining budget.

use vstd::prelude::*;
use crate::doc::{Doc, FormatElement, doc_of, docs_of};

verus! {

broadcast use vstd::std_specs::vec::axiom_vec_index_decreases, vstd::seq::axiom_seq_index_decreases;

/// The resolved mode recorded for a group id: `Some(true)` means broken,
/// `Some(false)` flat, `None` not yet resolved. The latest record wins.
pub open spec fn mode_of(modes: Seq<(u64, bool)>, id: u64) -> Option<bool>
    decreases modes.len(),
{
    if modes.len() == 0 {
        None
    } else if modes.last().0 == id {
        Some(modes.last().1)
    } else {
        mode_of(modes.drop_last(), id)
    }
}

pub open spec fn add_width(a: Option<nat>, b: Option<nat>) -> Option<nat> {
    match (a, b) {
        (Some(x), Some(y)) => Some((x + y) as nat),
        _ => None,
    }
}

/// The width of `d` rendered flat, or `None` if `d` contains a hard or
/// literal line, which disqualifies flat rendering altogether.
pub open spec fn flat_width(d: Doc, modes: Seq<(u64, bool)>) -> Option<nat>
    decreases d,
{
    match d {
        Doc::Empty => Some(0 as nat),
        Doc::Text(s) => Some(s.len()),
        Doc::Space => Some(1 as nat),
        Doc::SoftLine => Some(1 as nat),
        Doc::HardLine => None,
        Doc::LiteralLine => None,
        Doc::Concat(v) => flat_width_seq(v, modes, 0),
        Doc::Indent(b) => flat_width(*b, modes),
        Doc::Group(_, b) => flat_width(*b, modes),
        Doc::Fill(v) => flat_width_seq(v, modes, 0),
        Doc::GroupBreakIf(id, b) => if mode_of(modes, id) == Some(true) {
            flat_width(*b, modes)
        } else {
            Some(0 as nat)
        },
    }
}

pub open spec fn flat_width_seq(v: Seq<Doc>, modes: Seq<(u64, bool)>, i: int) -> Option<nat>
    decreases v, v.len() - i,
{
    if i < 0 || i >= v.len() {
        Some(0 as nat)
    } else {
        add_width(flat_width(v[i], modes), flat_width_seq(v, modes, i + 1))
    }
}

/// A group fits when its flattened content ends within the configured width.
pub open spec fn group_fits(d: Doc, col: nat, max_width: nat, modes: Seq<(u64, bool)>) -> bool {
    flat_width(d, modes) matches Some(w) && col + w <= max_width
}

/// What remains of a width budget after flat content, `None` when the
/// content does not fit or cannot render flat.
pub open spec fn fits_post(w: Option<nat>, budget: nat, r: Option<usize>) -> bool {
    match w {
        Some(wv) => if wv <= budget {
            r matches Some(b) && b == budget - wv
        } else {
            r is None
        },
        None => r is None,
    }
}

pub fn lookup_mode(modes: &Vec<(u64, bool)>, id: u64) -> (r: Option<bool>)
    ensures
        r == mode_of(modes@, id),
{
    let mut i: usize = modes.len();
    proof {
        assert(modes@.subrange(0, modes@.len() as int) =~= modes@);
    }
    while i > 0
        invariant
            i <= modes@.len(),
            mode_of(modes@, id) == mode_of(modes@.subrange(0, i as int), id),
        decreases i,
    {
        proof {
            assert(modes@.subrange(0, i as int).drop_last() =~= modes@.subrange(0, i as int - 1));
        }
        i = i - 1;
        let p = modes[i];
        if p.0 == id {
            return Some(p.1);
        }
    }
    None
}

/// Simulates flat rendering of `e` against a remaining budget, stopping as
/// soon as a hard line is met or the budget is exceeded.
pub fn fits_rec(e: &FormatElement, budget: usize, modes: &Vec<(u64, bool)>) -> (r: Option<usize>)
    ensures
        fits_post(flat_width(e@, modes@), budget as nat, r),
    decreases e,
{
    match e {
        FormatElement::Empty => Some(budget),
        FormatElement::Text(s) => {
            let n = s.len();
            if n <= budget {
                Some(budget - n)
            } else {
                None
            }
        },
        FormatElement::Space => if budget >= 1 {
            Some(budget - 1)
        } else {
            None
        },
        FormatElement::SoftLine => if budget >= 1 {
            Some(budget - 1)
        } else {
            None
        },
        FormatElement::HardLine => None,
        FormatElement::LiteralLine => None,
        FormatElement::Concat(v) => fits_seq(v, 0, budget, modes),
        FormatElement::Indent(b) => fits_rec(b, budget, modes),
        FormatElement::Group(_, b) => fits_rec(b, budget, modes),
        FormatElement::Fill(v) => fits_seq(v, 0, budget, modes),
        FormatElement::GroupBreakIf(id, b) => {
            match lookup_mode(modes, *id) {
                Some(true) => fits_rec(b, budget, modes),
                _ => Some(budget),
            }
        },
    }
}

pub fn fits_seq(v: &Vec<FormatElement>, i: usize, budget: usize, modes: &Vec<(u64, bool)>) -> (r:
    Option<usize>)
    ensures
        fits_post(flat_width_seq(docs_of(v@), modes@, i as int), budget as nat, r),
    decreases v, v@.len() - i,
{
    if i >= v.len() {
        Some(budget)
    } else {
        proof {
            assert(docs_of(v@)[i as int] == doc_of(v@[i as int]));
        }
        match fits_rec(&v[i], budget, modes) {
            None => None,
            Some(b2) => fits_seq(v, i + 1, b2, modes),
        }
    }
}

/// Whether flat content of width `flat_width(e)` still ends within
/// `max_width` when started at column `col`.
pub fn fits_flat(e: &FormatElement, col: usize, max_width: usize, modes: &Vec<(u64, bool)>) -> (r:
    bool)
    ensures
        r == group_fits(e@, col as nat, max_width as nat, modes@),
{
    if col > max_width {
        false
    } else {
        fits_rec(e, max_width - col, modes).is_some()
    }
}

} // verus!
