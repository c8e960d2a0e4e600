//! The layout algorithm: walks a finished document with a line-width budget,
//! decides flat versus broken for each group, and emits the final text in a
//! single pass. The walk is structural recursion over the document, with
//! termination proved, so its depth is bounded by the document's depth.
//! Spaces and tabs left at the end of a line are trimmed when a soft or
//! hard line break ends it; literal lines pass through untrimmed, and text
//! tokens themselves are never altered.

use vstd::prelude::*;
use crate::doc::{Doc, FormatElement, doc_of, docs_of};
use crate::measure::{mode_of, add_width, flat_width, group_fits, lookup_mode, fits_rec,
    fits_flat};

verus! {

broadcast use
    vstd::std_specs::vec::axiom_vec_index_decreases,
    vstd::std_specs::vec::axiom_vec_decreases_to_view,
    vstd::seq::axiom_seq_index_decreases;

/// Whether indentation is emitted as spaces or as tabs.
#[derive(Clone, Copy, PartialEq, Eq, Structural)]
pub enum IndentStyle {
    Spaces,
    Tabs,
}

/// The configuration surface of one format invocation.
#[derive(Clone, Copy, PartialEq, Eq, Structural)]
pub struct PrintConfig {
    /// The maximum line width; fit checks compare against it.
    pub max_width: usize,
    /// Spaces per indentation unit; ignored when tabs are used.
    pub indent_width: usize,
    pub indent_style: IndentStyle,
}

/// A run of spaces.
pub open spec fn spaces(n: nat) -> Seq<char> {
    Seq::new(n, |i: int| ' ')
}

/// The characters one indentation unit adds. A tab stands for one unit and
/// counts one column.
pub open spec fn indent_unit(cfg: PrintConfig) -> Seq<char> {
    match cfg.indent_style {
        IndentStyle::Tabs => seq!['\t'],
        IndentStyle::Spaces => spaces(cfg.indent_width as nat),
    }
}

pub open spec fn is_line_ws(c: char) -> bool {
    c == ' ' || c == '\t'
}

/// Drops the spaces and tabs a line ends with; a newline stops it.
pub open spec fn trim_line_end(s: Seq<char>) -> Seq<char>
    decreases s.len(),
{
    if s.len() > 0 && is_line_ws(s.last()) {
        trim_line_end(s.drop_last())
    } else {
        s
    }
}

/// The printer's traversal state: emitted text, current column, the modes
/// recorded for resolved group ids, and the defects met so far.
#[verifier::ext_equal]
pub ghost struct PState {
    pub out: Seq<char>,
    pub col: nat,
    pub modes: Seq<(u64, bool)>,
    pub defects: Seq<u64>,
}

pub open spec fn with_text(st: PState, s: Seq<char>) -> PState {
    PState { out: st.out + s, col: st.col + s.len(), ..st }
}

pub open spec fn with_newline(st: PState, ind: Seq<char>) -> PState {
    PState { out: trim_line_end(st.out) + seq!['\n'] + ind, col: ind.len(), ..st }
}

pub open spec fn push_mode(st: PState, id: Option<u64>, broken: bool) -> PState {
    match id {
        Some(i) => PState { modes: st.modes.push((i, broken)), ..st },
        None => st,
    }
}

/// The width of the separator at `i + 1` plus the content item after it, the
/// pair a fill judges against the rest of the line.
pub open spec fn fill_pair_width(v: Seq<Doc>, i: int, modes: Seq<(u64, bool)>) -> Option<nat> {
    if i + 2 < v.len() {
        add_width(flat_width(v[i + 1], modes), flat_width(v[i + 2], modes))
    } else {
        flat_width(v[i + 1], modes)
    }
}

/// One step of the layout algorithm, the reference the executable printer is
/// proved against.
pub open spec fn print_doc(d: Doc, ind: Seq<char>, cfg: PrintConfig, flat: bool, st: PState) -> PState
    decreases d,
{
    match d {
        Doc::Empty => st,
        Doc::Text(s) => with_text(st, s),
        Doc::Space => with_text(st, seq![' ']),
        Doc::SoftLine => if flat {
            with_text(st, seq![' '])
        } else {
            with_newline(st, ind)
        },
        Doc::HardLine => with_newline(st, ind),
        Doc::LiteralLine => PState { out: st.out + seq!['\n'], col: 0 as nat, ..st },
        Doc::Concat(v) => print_seq(v, 0, ind, cfg, flat, st),
        Doc::Indent(b) => print_doc(*b, ind + indent_unit(cfg), cfg, flat, st),
        Doc::Group(id, b) => {
            let go_flat = flat || group_fits(*b, st.col, cfg.max_width as nat, st.modes);
            print_doc(*b, ind, cfg, go_flat, push_mode(st, id, !go_flat))
        },
        Doc::Fill(v) => if flat {
            print_seq(v, 0, ind, cfg, true, st)
        } else {
            print_fill(v, 0, ind, cfg, st)
        },
        Doc::GroupBreakIf(id, b) => match mode_of(st.modes, id) {
            Some(true) => print_doc(*b, ind, cfg, flat, st),
            Some(false) => st,
            None => PState { defects: st.defects.push(id), ..st },
        },
    }
}

pub open spec fn print_seq(v: Seq<Doc>, i: int, ind: Seq<char>, cfg: PrintConfig, flat: bool, st: PState) -> PState
    decreases v, v.len() - i,
{
    if i < 0 || i >= v.len() {
        st
    } else {
        print_seq(v, i + 1, ind, cfg, flat, print_doc(v[i], ind, cfg, flat, st))
    }
}

/// Fill packing: each content item is rendered flat; each separator renders
/// flat exactly when it and the following content item still fit the line.
pub open spec fn print_fill(v: Seq<Doc>, i: int, ind: Seq<char>, cfg: PrintConfig, st: PState) -> PState
    decreases v, v.len() - i,
{
    if i < 0 || i >= v.len() {
        st
    } else {
        let st1 = print_doc(v[i], ind, cfg, true, st);
        if i + 1 >= v.len() {
            st1
        } else {
            let sep_flat = fill_pair_width(v, i, st1.modes) matches Some(w)
                && st1.col + w <= cfg.max_width;
            let st2 = print_doc(v[i + 1], ind, cfg, sep_flat, st1);
            print_fill(v, i + 2, ind, cfg, st2)
        }
    }
}

pub open spec fn init_state() -> PState {
    PState { out: Seq::empty(), col: 0 as nat, modes: Seq::empty(), defects: Seq::empty() }
}

/// The state after printing a whole document: the root renders in broken
/// context, at column zero, with no indentation.
pub open spec fn print_outcome(d: Doc, cfg: PrintConfig) -> PState {
    print_doc(d, Seq::empty(), cfg, false, init_state())
}

/// The final text of a document: the outcome with the last line trimmed.
pub open spec fn rendered(d: Doc, cfg: PrintConfig) -> Seq<char> {
    trim_line_end(print_outcome(d, cfg).out)
}

/// The dangling `GroupBreakIf` targets met while printing, in order.
pub open spec fn print_defects(d: Doc, cfg: PrintConfig) -> Seq<u64> {
    print_outcome(d, cfg).defects
}

pub(crate) struct PrinterState {
    pub out: Vec<char>,
    pub col: usize,
    pub modes: Vec<(u64, bool)>,
    pub defects: Vec<u64>,
}

impl PrinterState {
    pub(crate) open spec fn abs(self) -> PState {
        PState { out: self.out@, col: self.col as nat, modes: self.modes@, defects: self.defects@ }
    }

    /// The column never exceeds what was emitted, which keeps it in machine
    /// range.
    pub(crate) open spec fn wf(self) -> bool {
        self.col <= self.out@.len()
    }
}

fn push_char(st: &mut PrinterState, c: char)
    requires
        old(st).wf(),
    ensures
        final(st).wf(),
        final(st).abs() == with_text(old(st).abs(), seq![c]),
{
    st.out.push(c);
    // Reading the length after the push bounds the column increment: the
    // column never exceeds what was emitted, and a vector's length is a usize.
    let grown: usize = st.out.len();
    st.col = st.col + 1;
    proof {
        assert(st.out@ =~= old(st).out@ + seq![c]);
        assert(st.abs() =~= with_text(old(st).abs(), seq![c]));
    }
}

fn push_text(st: &mut PrinterState, s: &Vec<char>)
    requires
        old(st).wf(),
    ensures
        final(st).wf(),
        final(st).abs() == with_text(old(st).abs(), s@),
{
    let n: usize = s.len();
    let mut j: usize = 0;
    while j < n
        invariant
            n == s@.len(),
            j <= n,
            st.wf(),
            st.out@ == old(st).out@ + s@.subrange(0, j as int),
            st.col == old(st).col + j,
            st.modes@ == old(st).modes@,
            st.defects@ == old(st).defects@,
        decreases n - j,
    {
        st.out.push(s[j]);
        let grown: usize = st.out.len();
        st.col = st.col + 1;
        j = j + 1;
        proof {
            assert(st.out@ =~= old(st).out@ + s@.subrange(0, j as int));
        }
    }
    proof {
        assert(s@.subrange(0, n as int) =~= s@);
        assert(st.abs() =~= with_text(old(st).abs(), s@));
    }
}

/// Drops the spaces and tabs the emitted text currently ends with.
fn trim_trailing_ws(out: &mut Vec<char>)
    ensures
        final(out)@ == trim_line_end(old(out)@),
{
    loop
        invariant
            trim_line_end(out@) == trim_line_end(old(out)@),
        decreases out@.len(),
    {
        let n: usize = out.len();
        if n == 0 {
            return ;
        }
        let c = out[n - 1];
        if c == ' ' || c == '\t' {
            out.pop();
        } else {
            return ;
        }
    }
}

fn emit_newline(st: &mut PrinterState, ind: &Vec<char>)
    requires
        old(st).wf(),
    ensures
        final(st).wf(),
        final(st).abs() == with_newline(old(st).abs(), ind@),
{
    st.col = 0;
    trim_trailing_ws(&mut st.out);
    st.out.push('\n');
    let ghost base = st.out@;
    let n: usize = ind.len();
    let mut j: usize = 0;
    proof {
        assert(st.out@ =~= base + ind@.subrange(0, 0));
    }
    while j < n
        invariant
            n == ind@.len(),
            j <= n,
            st.out@ == base + ind@.subrange(0, j as int),
            base == trim_line_end(old(st).out@) + seq!['\n'],
            st.col == 0,
            st.modes@ == old(st).modes@,
            st.defects@ == old(st).defects@,
        decreases n - j,
    {
        st.out.push(ind[j]);
        j = j + 1;
        proof {
            assert(st.out@ =~= base + ind@.subrange(0, j as int));
        }
    }
    st.col = n;
    proof {
        assert(ind@.subrange(0, n as int) =~= ind@);
        assert(st.out@ =~= trim_line_end(old(st).out@) + seq!['\n'] + ind@);
        assert(st.abs() =~= with_newline(old(st).abs(), ind@));
    }
}

fn emit_literal_newline(st: &mut PrinterState)
    requires
        old(st).wf(),
    ensures
        final(st).wf(),
        final(st).abs() == (PState {
            out: old(st).abs().out + seq!['\n'],
            col: 0 as nat,
            ..old(st).abs()
        }),
{
    st.col = 0;
    st.out.push('\n');
    proof {
        assert(st.out@ =~= old(st).out@ + seq!['\n']);
    }
}

/// Extends an indentation prefix by one unit.
fn extend_indent(ind: &Vec<char>, cfg: &PrintConfig) -> (r: Vec<char>)
    ensures
        r@ == ind@ + indent_unit(*cfg),
{
    let mut r: Vec<char> = Vec::new();
    let n: usize = ind.len();
    let mut j: usize = 0;
    proof {
        assert(r@ =~= ind@.subrange(0, 0));
    }
    while j < n
        invariant
            n == ind@.len(),
            j <= n,
            r@ == ind@.subrange(0, j as int),
        decreases n - j,
    {
        r.push(ind[j]);
        j = j + 1;
        proof {
            assert(r@ =~= ind@.subrange(0, j as int));
        }
    }
    proof {
        assert(r@ =~= ind@);
    }
    match cfg.indent_style {
        IndentStyle::Tabs => {
            r.push('\t');
            proof {
                assert(r@ =~= ind@ + indent_unit(*cfg));
            }
        },
        IndentStyle::Spaces => {
            let w: usize = cfg.indent_width;
            let mut k: usize = 0;
            proof {
                assert(r@ =~= ind@ + spaces(0));
            }
            while k < w
                invariant
                    k <= w,
                    r@ == ind@ + spaces(k as nat),
                decreases w - k,
            {
                r.push(' ');
                k = k + 1;
                proof {
                    assert(r@ =~= ind@ + spaces(k as nat));
                }
            }
        },
    }
    r
}

/// Whether the separator at `i + 1` and the content item after it still fit
/// the current line.
fn pair_fits(v: &Vec<FormatElement>, i: usize, col: usize, max_width: usize, modes: &Vec<(u64, bool)>) -> (r: bool)
    requires
        i + 1 < v@.len(),
    ensures
        r == (fill_pair_width(docs_of(v@), i as int, modes@) matches Some(w)
            && col + w <= max_width),
{
    proof {
        assert(docs_of(v@)[i as int + 1] == doc_of(v@[i as int + 1]));
        if i as int + 2 < v@.len() {
            assert(docs_of(v@)[i as int + 2] == doc_of(v@[i as int + 2]));
        }
    }
    if col > max_width {
        return false;
    }
    let n: usize = v.len();
    let budget: usize = max_width - col;
    match fits_rec(&v[i + 1], budget, modes) {
        None => false,
        Some(b2) => {
            if n - i >= 3 {
                fits_rec(&v[i + 2], b2, modes).is_some()
            } else {
                true
            }
        },
    }
}

fn print_elem(st: &mut PrinterState, e: &FormatElement, ind: &Vec<char>, cfg: &PrintConfig, flat: bool)
    requires
        old(st).wf(),
    ensures
        final(st).wf(),
        final(st).abs() == print_doc(e@, ind@, *cfg, flat, old(st).abs()),
    decreases e,
{
    match e {
        FormatElement::Empty => {},
        FormatElement::Text(s) => push_text(st, s),
        FormatElement::Space => push_char(st, ' '),
        FormatElement::SoftLine => {
            if flat {
                push_char(st, ' ');
            } else {
                emit_newline(st, ind);
            }
        },
        FormatElement::HardLine => emit_newline(st, ind),
        FormatElement::LiteralLine => emit_literal_newline(st),
        FormatElement::Concat(v) => print_elems(st, v, 0, ind, cfg, flat),
        FormatElement::Indent(b) => {
            let ind2 = extend_indent(ind, cfg);
            print_elem(st, b, &ind2, cfg, flat);
        },
        FormatElement::Group(id, b) => {
            let go_flat = if flat {
                true
            } else {
                fits_flat(b, st.col, cfg.max_width, &st.modes)
            };
            match id {
                Some(i) => st.modes.push((*i, !go_flat)),
                None => {},
            }
            print_elem(st, b, ind, cfg, go_flat);
        },
        FormatElement::Fill(v) => {
            if flat {
                print_elems(st, v, 0, ind, cfg, true);
            } else {
                print_fill_items(st, v, 0, ind, cfg);
            }
        },
        FormatElement::GroupBreakIf(id, b) => {
            match lookup_mode(&st.modes, *id) {
                Some(true) => print_elem(st, b, ind, cfg, flat),
                Some(false) => {},
                None => st.defects.push(*id),
            }
        },
    }
}

fn print_elems(st: &mut PrinterState, v: &Vec<FormatElement>, i: usize, ind: &Vec<char>, cfg: &PrintConfig, flat: bool)
    requires
        old(st).wf(),
        i <= v@.len(),
    ensures
        final(st).wf(),
        final(st).abs() == print_seq(docs_of(v@), i as int, ind@, *cfg, flat, old(st).abs()),
    decreases v, v@.len() - i,
{
    if i < v.len() {
        proof {
            assert(docs_of(v@)[i as int] == doc_of(v@[i as int]));
        }
        print_elem(st, &v[i], ind, cfg, flat);
        print_elems(st, v, i + 1, ind, cfg, flat);
    }
}

fn print_fill_items(st: &mut PrinterState, v: &Vec<FormatElement>, i: usize, ind: &Vec<char>, cfg: &PrintConfig)
    requires
        old(st).wf(),
    ensures
        final(st).wf(),
        final(st).abs() == print_fill(docs_of(v@), i as int, ind@, *cfg, old(st).abs()),
    decreases v, v@.len() - i,
{
    if i >= v.len() {
        return ;
    }
    proof {
        assert(docs_of(v@)[i as int] == doc_of(v@[i as int]));
    }
    print_elem(st, &v[i], ind, cfg, true);
    if i + 1 < v.len() {
        proof {
            assert(docs_of(v@)[i as int + 1] == doc_of(v@[i as int + 1]));
        }
        let sep_flat = pair_fits(v, i, st.col, cfg.max_width, &st.modes);
        print_elem(st, &v[i + 1], ind, cfg, sep_flat);
        print_fill_items(st, v, i + 2, ind, cfg);
    }
}

/// Relies on String's FromIterator implementation for char: collecting an
/// iterator of characters yields a string made of exactly those characters.
#[verifier::external_body]
fn chars_to_string(v: &Vec<char>) -> (r: String)
    ensures
        r@ == v@,
{
    v.iter().collect()
}

/// What one format invocation hands back: the text, and the construction-time
/// defects met while printing, for the caller to act on.
pub struct PrintResult {
    pub text: String,
    pub defects: Vec<u64>,
}

/// Prints a document against a width budget. Printing never fails: any
/// document produces output; dangling `GroupBreakIf` targets are reported in
/// `defects` in the order they were met.
pub fn print_document(e: &FormatElement, cfg: &PrintConfig) -> (r: PrintResult)
    ensures
        r.text@ == rendered(e@, *cfg),
        r.defects@ == print_defects(e@, *cfg),
{
    let mut st = PrinterState {
        out: Vec::new(),
        col: 0,
        modes: Vec::new(),
        defects: Vec::new(),
    };
    let empty_ind: Vec<char> = Vec::new();
    proof {
        assert(st.abs() =~= init_state());
        assert(empty_ind@ =~= Seq::<char>::empty());
    }
    print_elem(&mut st, e, &empty_ind, cfg, false);
    trim_trailing_ws(&mut st.out);
    let text = chars_to_string(&st.out);
    PrintResult { text, defects: st.defects }
}

/// The typed failure a caller may turn a defect into.
#[derive(Clone, Copy, PartialEq, Eq, Structural, Debug)]
pub enum FormatError {
    /// A `GroupBreakIf` referenced a group id that was never resolved.
    DanglingGroupBreakIf(u64),
    /// A comment attached to the tree was never emitted; carries its index.
    UnconsumedComment(usize),
    /// A child the grammar guarantees is absent from the tree: a parser
    /// invariant violation, fatal to the format operation.
    MissingChild,
}

/// Prints a document and fails on the first construction-time defect, so a
/// caller can fall back to the original source.
pub fn print_document_checked(e: &FormatElement, cfg: &PrintConfig) -> (r: Result<String, FormatError>)
    ensures
        r is Ok <==> print_defects(e@, *cfg).len() == 0,
        r matches Ok(s) ==> s@ == rendered(e@, *cfg),
        r matches Err(err) ==> err == FormatError::DanglingGroupBreakIf(print_defects(e@, *cfg)[0]),
{
    let out = print_document(e, cfg);
    if out.defects.len() == 0 {
        Ok(out.text)
    } else {
        Err(FormatError::DanglingGroupBreakIf(out.defects[0]))
    }
}

} // verus!
