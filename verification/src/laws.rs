//! Laws of the layout algorithm: how groups decide between flat and broken,
//! what flat rendering does to the line, and that printing is deterministic.

use vstd::prelude::*;
use crate::doc::Doc;
use crate::measure::{mode_of, flat_width, flat_width_seq, group_fits};
use crate::printer::{PState, PrintConfig, print_doc, print_seq, print_fill, push_mode, rendered,
    print_defects, trim_line_end, is_line_ws, indent_unit, fill_pair_width, print_outcome,
    init_state};

verus! {

broadcast use vstd::seq::axiom_seq_index_decreases;

/// Whether `d` holds a hard or literal line anywhere outside conditional
/// (`GroupBreakIf`) content.
pub open spec fn has_hard_line(d: Doc) -> bool
    decreases d,
{
    match d {
        Doc::HardLine => true,
        Doc::LiteralLine => true,
        Doc::Concat(v) => has_hard_line_seq(v, 0),
        Doc::Fill(v) => has_hard_line_seq(v, 0),
        Doc::Indent(b) => has_hard_line(*b),
        Doc::Group(_, b) => has_hard_line(*b),
        _ => false,
    }
}

pub open spec fn has_hard_line_seq(v: Seq<Doc>, i: int) -> bool
    decreases v, v.len() - i,
{
    0 <= i < v.len() && (has_hard_line(v[i]) || has_hard_line_seq(v, i + 1))
}

/// Whether `d` is free of `GroupBreakIf` content.
pub open spec fn no_break_refs(d: Doc) -> bool
    decreases d,
{
    match d {
        Doc::GroupBreakIf(_, _) => false,
        Doc::Concat(v) => no_break_refs_seq(v, 0),
        Doc::Fill(v) => no_break_refs_seq(v, 0),
        Doc::Indent(b) => no_break_refs(*b),
        Doc::Group(_, b) => no_break_refs(*b),
        _ => true,
    }
}

pub open spec fn no_break_refs_seq(v: Seq<Doc>, i: int) -> bool
    decreases v, v.len() - i,
{
    !(0 <= i < v.len()) || (no_break_refs(v[i]) && no_break_refs_seq(v, i + 1))
}

/// Whether every text token of `d` is free of raw newline characters.
pub open spec fn texts_line_free(d: Doc) -> bool
    decreases d,
{
    match d {
        Doc::Text(s) => forall|k: int| 0 <= k < s.len() ==> s[k] != '\n',
        Doc::Concat(v) => texts_line_free_seq(v, 0),
        Doc::Fill(v) => texts_line_free_seq(v, 0),
        Doc::Indent(b) => texts_line_free(*b),
        Doc::Group(_, b) => texts_line_free(*b),
        Doc::GroupBreakIf(_, b) => texts_line_free(*b),
        _ => true,
    }
}

pub open spec fn texts_line_free_seq(v: Seq<Doc>, i: int) -> bool
    decreases v, v.len() - i,
{
    !(0 <= i < v.len()) || (texts_line_free(v[i]) && texts_line_free_seq(v, i + 1))
}

/// Determinism: the rendered text and the reported defects are functions of
/// the document and the configuration alone, so two invocations on the same
/// pair are byte-identical.
pub proof fn lemma_print_deterministic(
    d: Doc,
    cfg: PrintConfig,
    r1: Seq<char>,
    r2: Seq<char>,
    e1: Seq<u64>,
    e2: Seq<u64>,
)
    requires
        r1 == rendered(d, cfg),
        r2 == rendered(d, cfg),
        e1 == print_defects(d, cfg),
        e2 == print_defects(d, cfg),
    ensures
        r1 == r2,
        e1 == e2,
{
}

/// Width respect, flat side: in broken context, a group whose flattened
/// content fits the remaining width resolves to flat — its id is recorded
/// flat and its content prints in flat mode.
pub proof fn lemma_group_fits_renders_flat(
    id: Option<u64>,
    body: Doc,
    ind: Seq<char>,
    cfg: PrintConfig,
    st: PState,
    w: nat,
)
    requires
        flat_width(body, st.modes) == Some(w),
        st.col + w <= cfg.max_width,
    ensures
        print_doc(Doc::Group(id, Box::new(body)), ind, cfg, false, st) == print_doc(
            body,
            ind,
            cfg,
            true,
            push_mode(st, id, false),
        ),
{
}

/// Width respect, broken side: in broken context, a group whose flattened
/// content does not fit — or cannot render flat at all — resolves to broken.
pub proof fn lemma_group_oversized_breaks(
    id: Option<u64>,
    body: Doc,
    ind: Seq<char>,
    cfg: PrintConfig,
    st: PState,
)
    requires
        !group_fits(body, st.col, cfg.max_width as nat, st.modes),
    ensures
        print_doc(Doc::Group(id, Box::new(body)), ind, cfg, false, st) == print_doc(
            body,
            ind,
            cfg,
            false,
            push_mode(st, id, true),
        ),
{
}

pub proof fn lemma_hard_line_unfit_seq(v: Seq<Doc>, i: int, modes: Seq<(u64, bool)>)
    requires
        has_hard_line_seq(v, i),
    ensures
        flat_width_seq(v, modes, i) is None,
    decreases v, v.len() - i,
{
    if has_hard_line(v[i]) {
        lemma_hard_line_unfit(v[i], modes);
    } else {
        lemma_hard_line_unfit_seq(v, i + 1, modes);
    }
}

/// A subtree holding a hard or literal line has no flat width.
pub proof fn lemma_hard_line_unfit(d: Doc, modes: Seq<(u64, bool)>)
    requires
        has_hard_line(d),
    ensures
        flat_width(d, modes) is None,
    decreases d,
{
    match d {
        Doc::Concat(v) => lemma_hard_line_unfit_seq(v, 0, modes),
        Doc::Fill(v) => lemma_hard_line_unfit_seq(v, 0, modes),
        Doc::Indent(b) => lemma_hard_line_unfit(*b, modes),
        Doc::Group(_, b) => lemma_hard_line_unfit(*b, modes),
        _ => {},
    }
}

/// Hard-line propagation: a subtree holding a hard line forces its nearest
/// enclosing group to break, whatever the flattened width would have been.
pub proof fn lemma_hard_line_forces_break(
    id: Option<u64>,
    body: Doc,
    ind: Seq<char>,
    cfg: PrintConfig,
    st: PState,
)
    requires
        has_hard_line(body),
    ensures
        flat_width(body, st.modes) is None,
        print_doc(Doc::Group(id, Box::new(body)), ind, cfg, false, st) == print_doc(
            body,
            ind,
            cfg,
            false,
            push_mode(st, id, true),
        ),
{
    lemma_hard_line_unfit(body, st.modes);
}

/// GroupBreakIf consistency: conditional content renders exactly when the
/// referenced group resolved to broken; an unresolved reference renders
/// nothing and is reported as a defect.
pub proof fn lemma_group_break_if_consistent(
    id: u64,
    body: Doc,
    ind: Seq<char>,
    cfg: PrintConfig,
    flat: bool,
    st: PState,
)
    ensures
        mode_of(st.modes, id) == Some(true) ==> print_doc(
            Doc::GroupBreakIf(id, Box::new(body)),
            ind,
            cfg,
            flat,
            st,
        ) == print_doc(body, ind, cfg, flat, st),
        mode_of(st.modes, id) == Some(false) ==> print_doc(
            Doc::GroupBreakIf(id, Box::new(body)),
            ind,
            cfg,
            flat,
            st,
        ) == st,
        mode_of(st.modes, id) is None ==> print_doc(
            Doc::GroupBreakIf(id, Box::new(body)),
            ind,
            cfg,
            flat,
            st,
        ) == (PState { defects: st.defects.push(id), ..st }),
{
}

/// Fill packing, the per-separator decision: after each content item, the
/// following separator renders flat exactly when it and the next content
/// item still fit the remaining line; otherwise that separator renders
/// broken, and packing continues with the item after it.
pub proof fn lemma_fill_separator_decision(
    v: Seq<Doc>,
    i: int,
    ind: Seq<char>,
    cfg: PrintConfig,
    st: PState,
)
    requires
        0 <= i,
        i + 1 < v.len(),
    ensures
        ({
            let st1 = print_doc(v[i], ind, cfg, true, st);
            let sep_flat = fill_pair_width(v, i, st1.modes) matches Some(w) && st1.col + w
                <= cfg.max_width;
            print_fill(v, i, ind, cfg, st) == print_fill(
                v,
                i + 2,
                ind,
                cfg,
                print_doc(v[i + 1], ind, cfg, sep_flat, st1),
            )
        }),
{
}

/// Flat width ignores resolved modes on documents free of `GroupBreakIf`.
pub proof fn lemma_flat_width_modes_irrelevant(d: Doc, m1: Seq<(u64, bool)>, m2: Seq<(u64, bool)>)
    requires
        no_break_refs(d),
    ensures
        flat_width(d, m1) == flat_width(d, m2),
    decreases d,
{
    match d {
        Doc::Concat(v) => lemma_flat_width_seq_modes_irrelevant(v, 0, m1, m2),
        Doc::Fill(v) => lemma_flat_width_seq_modes_irrelevant(v, 0, m1, m2),
        Doc::Indent(b) => lemma_flat_width_modes_irrelevant(*b, m1, m2),
        Doc::Group(_, b) => lemma_flat_width_modes_irrelevant(*b, m1, m2),
        _ => {},
    }
}

pub proof fn lemma_flat_width_seq_modes_irrelevant(
    v: Seq<Doc>,
    i: int,
    m1: Seq<(u64, bool)>,
    m2: Seq<(u64, bool)>,
)
    requires
        no_break_refs_seq(v, i),
    ensures
        flat_width_seq(v, m1, i) == flat_width_seq(v, m2, i),
    decreases v, v.len() - i,
{
    if 0 <= i < v.len() {
        lemma_flat_width_modes_irrelevant(v[i], m1, m2);
        lemma_flat_width_seq_modes_irrelevant(v, i + 1, m1, m2);
    }
}

/// Flat rendering stays on the current line: it appends exactly the flat
/// width in characters, none of them a newline, advances the column by the
/// same amount, and reports no defect.
pub proof fn lemma_flat_keeps_line(d: Doc, ind: Seq<char>, cfg: PrintConfig, st: PState, w: nat)
    requires
        no_break_refs(d),
        texts_line_free(d),
        flat_width(d, st.modes) == Some(w),
    ensures
        ({
            let st2 = print_doc(d, ind, cfg, true, st);
            &&& st2.out.len() == st.out.len() + w
            &&& st2.col == st.col + w
            &&& st2.defects == st.defects
            &&& st2.out.subrange(0, st.out.len() as int) == st.out
            &&& forall|k: int| st.out.len() <= k < st2.out.len() ==> st2.out[k] != '\n'
        }),
    decreases d,
{
    let st2 = print_doc(d, ind, cfg, true, st);
    match d {
        Doc::Empty => {
            assert(st2.out.subrange(0, st.out.len() as int) =~= st.out);
        },
        Doc::Text(s) => {
            assert(st2.out.subrange(0, st.out.len() as int) =~= st.out);
        },
        Doc::Space => {
            assert(st2.out.subrange(0, st.out.len() as int) =~= st.out);
        },
        Doc::SoftLine => {
            assert(st2.out.subrange(0, st.out.len() as int) =~= st.out);
        },
        Doc::Concat(v) => {
            lemma_flat_keeps_line_seq(v, 0, ind, cfg, st, w);
        },
        Doc::Fill(v) => {
            lemma_flat_keeps_line_seq(v, 0, ind, cfg, st, w);
        },
        Doc::Indent(b) => {
            lemma_flat_keeps_line(*b, ind + indent_unit(cfg), cfg, st, w);
        },
        Doc::Group(id, b) => {
            let st1 = push_mode(st, id, false);
            lemma_flat_width_modes_irrelevant(*b, st.modes, st1.modes);
            lemma_flat_keeps_line(*b, ind, cfg, st1, w);
        },
        _ => {},
    }
}

pub proof fn lemma_flat_keeps_line_seq(
    v: Seq<Doc>,
    i: int,
    ind: Seq<char>,
    cfg: PrintConfig,
    st: PState,
    w: nat,
)
    requires
        no_break_refs_seq(v, i),
        texts_line_free_seq(v, i),
        flat_width_seq(v, st.modes, i) == Some(w),
    ensures
        ({
            let st2 = print_seq(v, i, ind, cfg, true, st);
            &&& st2.out.len() == st.out.len() + w
            &&& st2.col == st.col + w
            &&& st2.defects == st.defects
            &&& st2.out.subrange(0, st.out.len() as int) == st.out
            &&& forall|k: int| st.out.len() <= k < st2.out.len() ==> st2.out[k] != '\n'
        }),
    decreases v, v.len() - i,
{
    let st2 = print_seq(v, i, ind, cfg, true, st);
    if !(0 <= i < v.len()) {
        assert(st2.out.subrange(0, st.out.len() as int) =~= st.out);
    } else {
        let st1 = print_doc(v[i], ind, cfg, true, st);
        match flat_width(v[i], st.modes) {
            Some(wi) => {
                lemma_flat_keeps_line(v[i], ind, cfg, st, wi);
                lemma_flat_width_seq_modes_irrelevant(v, i + 1, st.modes, st1.modes);
                match flat_width_seq(v, st1.modes, i + 1) {
                    Some(wr) => {
                        lemma_flat_keeps_line_seq(v, i + 1, ind, cfg, st1, wr);
                        assert forall|k: int| 0 <= k < st.out.len() implies st2.out[k]
                            == st.out[k] by {
                            assert(st1.out[k] == st1.out.subrange(0, st.out.len() as int)[k]);
                            assert(st2.out[k] == st2.out.subrange(0, st1.out.len() as int)[k]);
                        }
                        assert(st2.out.subrange(0, st.out.len() as int) =~= st.out);
                        assert forall|k: int|
                            st.out.len() <= k < st2.out.len() implies st2.out[k] != '\n' by {
                            if k < st1.out.len() {
                                assert(st2.out[k] == st2.out.subrange(
                                    0,
                                    st1.out.len() as int,
                                )[k]);
                            }
                        }
                    },
                    None => {
                        assert(false);
                    },
                }
            },
            None => {
                assert(false);
            },
        }
    }
}

/// Width respect, in full: a group whose flattened content fits the remaining
/// width renders flat on the current line — exactly its flat width is
/// appended, with no newline. Stated for unconditional content whose text
/// tokens carry no raw newline.
pub proof fn lemma_group_width_respect(
    id: Option<u64>,
    body: Doc,
    ind: Seq<char>,
    cfg: PrintConfig,
    st: PState,
    w: nat,
)
    requires
        no_break_refs(body),
        texts_line_free(body),
        flat_width(body, st.modes) == Some(w),
        st.col + w <= cfg.max_width,
    ensures
        ({
            let st2 = print_doc(Doc::Group(id, Box::new(body)), ind, cfg, false, st);
            &&& st2.out.len() == st.out.len() + w
            &&& st2.col == st.col + w
            &&& st2.out.subrange(0, st.out.len() as int) == st.out
            &&& forall|k: int| st.out.len() <= k < st2.out.len() ==> st2.out[k] != '\n'
        }),
{
    lemma_group_fits_renders_flat(id, body, ind, cfg, st, w);
    let st1 = push_mode(st, id, false);
    lemma_flat_width_modes_irrelevant(body, st.modes, st1.modes);
    lemma_flat_keeps_line(body, ind, cfg, st1, w);
}

/// Whether `d` is free of literal (pass-through) lines, the one primitive
/// whose surroundings are exempt from line-end trimming.
pub open spec fn no_literal_lines(d: Doc) -> bool
    decreases d,
{
    match d {
        Doc::LiteralLine => false,
        Doc::Concat(v) => no_literal_lines_seq(v, 0),
        Doc::Fill(v) => no_literal_lines_seq(v, 0),
        Doc::Indent(b) => no_literal_lines(*b),
        Doc::Group(_, b) => no_literal_lines(*b),
        Doc::GroupBreakIf(_, b) => no_literal_lines(*b),
        _ => true,
    }
}

pub open spec fn no_literal_lines_seq(v: Seq<Doc>, i: int) -> bool
    decreases v, v.len() - i,
{
    !(0 <= i < v.len()) || (no_literal_lines(v[i]) && no_literal_lines_seq(v, i + 1))
}

/// No character of `s` is a newline.
pub open spec fn no_newline(s: Seq<char>) -> bool {
    forall|k: int| 0 <= k < s.len() ==> s[k] != '\n'
}

/// No space or tab stands immediately before a newline anywhere in `s`.
pub open spec fn lines_trimmed(s: Seq<char>) -> bool {
    forall|k: int| 0 < k < s.len() && #[trigger] s[k] == '\n' ==> !is_line_ws(s[k - 1])
}

/// Trimming a line end takes a prefix, and what remains never ends in a
/// space or tab.
pub proof fn lemma_trim_line_end_prefix(s: Seq<char>)
    ensures
        trim_line_end(s).len() <= s.len(),
        trim_line_end(s) == s.subrange(0, trim_line_end(s).len() as int),
        trim_line_end(s).len() > 0 ==> !is_line_ws(trim_line_end(s).last()),
    decreases s.len(),
{
    if s.len() > 0 && is_line_ws(s.last()) {
        lemma_trim_line_end_prefix(s.drop_last());
        assert(s.drop_last() == s.subrange(0, s.len() - 1));
        assert(trim_line_end(s) == s.drop_last().subrange(
            0,
            trim_line_end(s).len() as int,
        ));
        assert(trim_line_end(s) =~= s.subrange(0, trim_line_end(s).len() as int));
    } else {
        assert(trim_line_end(s) =~= s.subrange(0, s.len() as int));
    }
}

pub proof fn lemma_append_keeps_lines_trimmed(a: Seq<char>, b: Seq<char>)
    requires
        lines_trimmed(a),
        no_newline(b),
    ensures
        lines_trimmed(a + b),
{
    assert forall|k: int| 0 < k < (a + b).len() && #[trigger] (a + b)[k] == '\n' implies !is_line_ws(
        (a + b)[k - 1],
    ) by {
        if k < a.len() {
        } else {
            assert((a + b)[k] == b[k - a.len()]);
        }
    }
}

pub proof fn lemma_newline_keeps_lines_trimmed(a: Seq<char>, ind: Seq<char>)
    requires
        lines_trimmed(a),
        no_newline(ind),
    ensures
        lines_trimmed(trim_line_end(a) + seq!['\n'] + ind),
{
    lemma_trim_line_end_prefix(a);
    let t = trim_line_end(a);
    let s = t + seq!['\n'] + ind;
    assert forall|k: int| 0 < k < s.len() && #[trigger] s[k] == '\n' implies !is_line_ws(s[k - 1]) by {
        if k < t.len() {
            assert(s[k] == a[k] && s[k - 1] == a[k - 1]);
        } else if k == t.len() {
            assert(s[k - 1] == t.last());
        } else {
            assert(s[k] == ind[k - t.len() - 1]);
        }
    }
}

/// Trailing-whitespace discipline, the inductive step: one printing step
/// keeps every line of the emitted text free of spaces or tabs before its
/// newline, for documents whose text tokens carry no raw newline and that
/// hold no literal pass-through line.
pub proof fn lemma_print_keeps_lines_trimmed(
    d: Doc,
    ind: Seq<char>,
    cfg: PrintConfig,
    flat: bool,
    st: PState,
)
    requires
        texts_line_free(d),
        no_literal_lines(d),
        lines_trimmed(st.out),
        no_newline(ind),
    ensures
        lines_trimmed(print_doc(d, ind, cfg, flat, st).out),
    decreases d,
{
    match d {
        Doc::Empty => {},
        Doc::Text(s) => {
            lemma_append_keeps_lines_trimmed(st.out, s);
        },
        Doc::Space => {
            lemma_append_keeps_lines_trimmed(st.out, seq![' ']);
        },
        Doc::SoftLine => {
            if flat {
                lemma_append_keeps_lines_trimmed(st.out, seq![' ']);
            } else {
                lemma_newline_keeps_lines_trimmed(st.out, ind);
            }
        },
        Doc::HardLine => {
            lemma_newline_keeps_lines_trimmed(st.out, ind);
        },
        Doc::LiteralLine => {},
        Doc::Concat(v) => {
            lemma_print_seq_keeps_lines_trimmed(v, 0, ind, cfg, flat, st);
        },
        Doc::Indent(b) => {
            assert(no_newline(ind + indent_unit(cfg)));
            lemma_print_keeps_lines_trimmed(*b, ind + indent_unit(cfg), cfg, flat, st);
        },
        Doc::Group(id, b) => {
            let go_flat = flat || group_fits(
                *b,
                st.col,
                cfg.max_width as nat,
                st.modes,
            );
            lemma_print_keeps_lines_trimmed(*b, ind, cfg, go_flat, push_mode(st, id, !go_flat));
        },
        Doc::Fill(v) => {
            if flat {
                lemma_print_seq_keeps_lines_trimmed(v, 0, ind, cfg, true, st);
            } else {
                lemma_print_fill_keeps_lines_trimmed(v, 0, ind, cfg, st);
            }
        },
        Doc::GroupBreakIf(id, b) => {
            match mode_of(st.modes, id) {
                Some(true) => {
                    lemma_print_keeps_lines_trimmed(*b, ind, cfg, flat, st);
                },
                _ => {},
            }
        },
    }
}

pub proof fn lemma_print_seq_keeps_lines_trimmed(
    v: Seq<Doc>,
    i: int,
    ind: Seq<char>,
    cfg: PrintConfig,
    flat: bool,
    st: PState,
)
    requires
        texts_line_free_seq(v, i),
        no_literal_lines_seq(v, i),
        lines_trimmed(st.out),
        no_newline(ind),
    ensures
        lines_trimmed(print_seq(v, i, ind, cfg, flat, st).out),
    decreases v, v.len() - i,
{
    if 0 <= i < v.len() {
        lemma_print_keeps_lines_trimmed(v[i], ind, cfg, flat, st);
        lemma_print_seq_keeps_lines_trimmed(v, i + 1, ind, cfg, flat, print_doc(
            v[i],
            ind,
            cfg,
            flat,
            st,
        ));
    }
}

pub proof fn lemma_print_fill_keeps_lines_trimmed(
    v: Seq<Doc>,
    i: int,
    ind: Seq<char>,
    cfg: PrintConfig,
    st: PState,
)
    requires
        texts_line_free_seq(v, i),
        no_literal_lines_seq(v, i),
        lines_trimmed(st.out),
        no_newline(ind),
    ensures
        lines_trimmed(print_fill(v, i, ind, cfg, st).out),
    decreases v, v.len() - i,
{
    if 0 <= i < v.len() {
        lemma_print_keeps_lines_trimmed(v[i], ind, cfg, true, st);
        let st1 = print_doc(v[i], ind, cfg, true, st);
        if i + 1 < v.len() {
            assert(texts_line_free_seq(v, i + 1));
            assert(texts_line_free(v[i + 1]) && texts_line_free_seq(v, i + 2));
            assert(no_literal_lines_seq(v, i + 1));
            assert(no_literal_lines(v[i + 1]) && no_literal_lines_seq(v, i + 2));
            let sep_flat = fill_pair_width(v, i, st1.modes) matches Some(w)
                && st1.col + w <= cfg.max_width;
            lemma_print_keeps_lines_trimmed(v[i + 1], ind, cfg, sep_flat, st1);
            let st2 = print_doc(v[i + 1], ind, cfg, sep_flat, st1);
            lemma_print_fill_keeps_lines_trimmed(v, i + 2, ind, cfg, st2);
        }
    }
}

/// Trailing-whitespace discipline, in full: in the rendered text no space or
/// tab stands immediately before a newline, and the text does not end with
/// one — for documents whose text tokens carry no raw newline and that hold
/// no literal pass-through line.
pub proof fn lemma_rendered_lines_trimmed(d: Doc, cfg: PrintConfig)
    requires
        texts_line_free(d),
        no_literal_lines(d),
    ensures
        lines_trimmed(rendered(d, cfg)),
        rendered(d, cfg).len() > 0 ==> !is_line_ws(rendered(d, cfg).last()),
{
    lemma_print_keeps_lines_trimmed(d, Seq::empty(), cfg, false, init_state());
    let out = print_outcome(d, cfg).out;
    lemma_trim_line_end_prefix(out);
    assert forall|k: int|
        0 < k < rendered(d, cfg).len() && #[trigger] rendered(d, cfg)[k] == '\n' implies !is_line_ws(
        rendered(d, cfg)[k - 1],
    ) by {
        assert(rendered(d, cfg)[k] == out[k] && rendered(d, cfg)[k - 1] == out[k - 1]);
    }
}

} // verus!
