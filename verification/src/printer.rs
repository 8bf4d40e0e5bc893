//! The layout printer: deterministic, width-aware rendering of a finished
//! document to text.
//!
//! The algorithm is stated twice: once as a pure mathematical model
//! (`doc_print` and its companions, over [`DocV`]) and once as executable
//! code proved equal to that model. A group's break decision is made by a
//! fits check: the group renders flat exactly when its whole subtree,
//! rendered flat, stays within the print width from the current column and
//! holds no hard line break.

use vstd::prelude::*;

use crate::doc::{doc_view, views_of, Doc, DocV, GroupMode, LineKind};
use crate::options::{FormatFailure, FormatOptions, IndentStyle};

verus! {

// ---------------------------------------------------------------------------
// Flat measurement: the width of a document when every line renders flat.
// ---------------------------------------------------------------------------

/// Caps a mathematical length at the machine word bound.
pub open spec fn cap_usize(n: nat) -> nat {
    if n <= usize::MAX as nat {
        n
    } else {
        usize::MAX as nat
    }
}

/// The number of columns the document occupies when rendered flat.
pub open spec fn flat_len(d: DocV) -> nat
    decreases d, 1nat, 0nat,
{
    match d {
        DocV::Empty => 0,
        DocV::Text(t) => t.len(),
        DocV::Space => 1,
        DocV::Line(k) => match k {
            LineKind::Soft => 0,
            LineKind::SoftOrSpace => 1,
            LineKind::Hard => 0,
            LineKind::EmptyIfBroken => 0,
        },
        DocV::Indent(c) => flat_len(*c),
        DocV::Group(c, _) => flat_len(*c),
        DocV::Fill(items, sep) => join_flat_len(items, flat_len(*sep), 0),
        DocV::Conditional(_, m, c) => if m is Flat {
            flat_len(*c)
        } else {
            0
        },
        DocV::LineSuffix(_) => 0,
        DocV::List(items) => seq_flat_len(items, 0),
    }
}

/// The flat width of the items from index `i` on, concatenated.
pub open spec fn seq_flat_len(items: Seq<DocV>, i: nat) -> nat
    decreases items, 0nat, (if i <= items.len() { items.len() - i } else { 0 }),
{
    if i >= items.len() {
        0
    } else {
        flat_len(items[i as int]) + seq_flat_len(items, i + 1)
    }
}

/// The flat width of the items from index `i` on, with a separator of width
/// `sep_len` in every gap.
pub open spec fn join_flat_len(items: Seq<DocV>, sep_len: nat, i: nat) -> nat
    decreases items, 0nat, (if i <= items.len() { items.len() - i } else { 0 }),
{
    if i >= items.len() {
        0
    } else {
        flat_len(items[i as int]) + (if i + 1 < items.len() {
            sep_len
        } else {
            0nat
        }) + join_flat_len(items, sep_len, i + 1)
    }
}

/// Whether the document contains a line that forces every enclosing group to
/// break, anywhere in its subtree.
pub open spec fn forced_break(d: DocV) -> bool
    decreases d, 1nat, 0nat,
{
    match d {
        DocV::Empty => false,
        DocV::Text(_) => false,
        DocV::Space => false,
        DocV::Line(k) => k is Hard || k is EmptyIfBroken,
        DocV::Indent(c) => forced_break(*c),
        DocV::Group(c, _) => forced_break(*c),
        DocV::Fill(items, sep) => seq_forced(items, 0) || (items.len() >= 2 && forced_break(
            *sep,
        )),
        DocV::Conditional(_, m, c) => if m is Flat {
            forced_break(*c)
        } else {
            false
        },
        DocV::LineSuffix(_) => false,
        DocV::List(items) => seq_forced(items, 0),
    }
}

/// Whether any of the items from index `i` on forces a break.
pub open spec fn seq_forced(items: Seq<DocV>, i: nat) -> bool
    decreases items, 0nat, (if i <= items.len() { items.len() - i } else { 0 }),
{
    if i >= items.len() {
        false
    } else {
        forced_break(items[i as int]) || seq_forced(items, i + 1)
    }
}

/// The fits check: a group renders flat exactly when its subtree holds no
/// forced break and its flat rendering ends at or within the print width.
pub open spec fn group_fits(c: DocV, col: nat, o: FormatOptions) -> bool {
    !forced_break(c) && col + flat_len(c) <= o.print_width
}

// ---------------------------------------------------------------------------
// Flat text: the verbatim rendering used for deferred line-suffix content.
// ---------------------------------------------------------------------------

/// The text of a document rendered flat, as deferred line-suffix content is:
/// every line collapses (a spacing line to one space), groups and
/// indentation are transparent, and nested deferrals or conditional content
/// contribute nothing.
pub open spec fn flat_text(d: DocV) -> Seq<char>
    decreases d, 1nat, 0nat,
{
    match d {
        DocV::Empty => Seq::empty(),
        DocV::Text(t) => t,
        DocV::Space => seq![' '],
        DocV::Line(k) => match k {
            LineKind::Soft => Seq::empty(),
            LineKind::SoftOrSpace => seq![' '],
            LineKind::Hard => seq![' '],
            LineKind::EmptyIfBroken => Seq::empty(),
        },
        DocV::Indent(c) => flat_text(*c),
        DocV::Group(c, _) => flat_text(*c),
        DocV::Fill(items, sep) => join_flat_text(items, flat_text(*sep), 0),
        DocV::Conditional(_, _, _) => Seq::empty(),
        DocV::LineSuffix(_) => Seq::empty(),
        DocV::List(items) => seq_flat_text(items, 0),
    }
}

/// The flat text of the items from index `i` on, concatenated.
pub open spec fn seq_flat_text(items: Seq<DocV>, i: nat) -> Seq<char>
    decreases items, 0nat, (if i <= items.len() { items.len() - i } else { 0 }),
{
    if i >= items.len() {
        Seq::empty()
    } else {
        flat_text(items[i as int]) + seq_flat_text(items, i + 1)
    }
}

/// The flat text of the items from index `i` on, with the separator's flat
/// text in every gap.
pub open spec fn join_flat_text(items: Seq<DocV>, sep_text: Seq<char>, i: nat) -> Seq<char>
    decreases items, 0nat, (if i <= items.len() { items.len() - i } else { 0 }),
{
    if i >= items.len() {
        Seq::empty()
    } else {
        flat_text(items[i as int]) + (if i + 1 < items.len() {
            sep_text
        } else {
            Seq::empty()
        }) + join_flat_text(items, sep_text, i + 1)
    }
}

// ---------------------------------------------------------------------------
// The printing state and its primitive transitions.
// ---------------------------------------------------------------------------

/// The model of the printer's state: the text written so far, the current
/// column, the queue of deferred line-suffix texts, and the decided modes of
/// the groups entered so far.
pub struct PState {
    pub out: Seq<char>,
    pub col: nat,
    pub pending: Seq<Seq<char>>,
    pub modes: Seq<(u64, GroupMode)>,
}

/// The state before anything is printed.
pub open spec fn init_state() -> PState {
    PState { out: Seq::empty(), col: 0, pending: Seq::empty(), modes: Seq::empty() }
}

/// The column never runs ahead of the text written, which keeps all column
/// arithmetic within the machine word.
pub open spec fn st_ok(st: PState) -> bool {
    st.col <= st.out.len()
}

/// Appends literal text and advances the column.
pub open spec fn push_text(st: PState, s: Seq<char>) -> PState {
    PState { out: st.out + s, col: st.col + s.len(), ..st }
}

/// `n` spaces.
pub open spec fn spaces(n: nat) -> Seq<char>
    decreases n,
{
    if n == 0 {
        Seq::empty()
    } else {
        spaces((n - 1) as nat).push(' ')
    }
}

/// One unit of indentation.
pub open spec fn unit_chars(o: FormatOptions) -> Seq<char> {
    match o.indent_style {
        IndentStyle::Tab => seq!['\t'],
        IndentStyle::Space => spaces(o.indent_width as nat),
    }
}

/// `ind` units of indentation.
pub open spec fn ind_chars(o: FormatOptions, ind: nat) -> Seq<char>
    decreases ind,
{
    if ind == 0 {
        Seq::empty()
    } else {
        ind_chars(o, (ind - 1) as nat) + unit_chars(o)
    }
}

/// All queued texts, concatenated in order.
pub open spec fn concat_all(p: Seq<Seq<char>>) -> Seq<char>
    decreases p,
{
    if p.len() == 0 {
        Seq::empty()
    } else {
        p[0] + concat_all(p.subrange(1, p.len() as int))
    }
}

/// A real line break: the deferred suffixes are flushed in order, then a
/// newline and the current indentation are written.
pub open spec fn do_break(o: FormatOptions, ind: nat, st: PState) -> PState {
    PState {
        out: st.out + concat_all(st.pending) + seq!['\n'] + ind_chars(o, ind),
        col: ind_chars(o, ind).len(),
        pending: Seq::empty(),
        modes: st.modes,
    }
}

/// Records a group's decided mode, keyed by its identity.
pub open spec fn record_mode(st: PState, id: u64, fits: bool) -> PState {
    PState {
        modes: st.modes.push((id, if fits {
            GroupMode::Flat
        } else {
            GroupMode::Broken
        })),
        ..st
    }
}

/// The decided mode of the group with the given identity, if any; a later
/// decision shadows an earlier one with the same identity.
pub open spec fn lookup_mode(modes: Seq<(u64, GroupMode)>, id: u64) -> Option<GroupMode>
    decreases modes,
{
    if modes.len() == 0 {
        None
    } else if modes.last().0 == id {
        Some(modes.last().1)
    } else {
        lookup_mode(modes.subrange(0, modes.len() - 1), id)
    }
}

/// One more indentation level, held below the machine word bound.
pub open spec fn inc_ind(ind: nat) -> nat {
    if ind < usize::MAX as nat {
        ind + 1
    } else {
        ind
    }
}

// ---------------------------------------------------------------------------
// The printing model.
// ---------------------------------------------------------------------------

/// Prints one document into the state. `flat` is the enclosing group's mode.
/// `None` reports an internal invariant violation: conditional content whose
/// group was never decided.
pub open spec fn doc_print(d: DocV, flat: bool, ind: nat, o: FormatOptions, st: PState) -> Option<
    PState,
>
    decreases d, 1nat, 0nat,
{
    match d {
        DocV::Empty => Some(st),
        DocV::Text(t) => Some(push_text(st, t)),
        DocV::Space => Some(
            if st.col == 0 {
                st
            } else {
                push_text(st, seq![' '])
            },
        ),
        DocV::Line(k) => Some(
            match k {
                LineKind::Soft => if flat {
                    st
                } else {
                    do_break(o, ind, st)
                },
                LineKind::SoftOrSpace => if flat {
                    push_text(st, seq![' '])
                } else {
                    do_break(o, ind, st)
                },
                LineKind::Hard => do_break(o, ind, st),
                LineKind::EmptyIfBroken => if flat {
                    st
                } else {
                    do_break(o, ind, st)
                },
            },
        ),
        DocV::Indent(c) => doc_print(*c, flat, inc_ind(ind), o, st),
        DocV::Group(c, id) => {
            let f = group_fits(*c, st.col, o);
            let st1 = match id {
                Some(g) => record_mode(st, g, f),
                None => st,
            };
            doc_print(*c, f, ind, o, st1)
        },
        DocV::Fill(_, _) => fill_print(d, 0, ind, o, st),
        DocV::Conditional(g, m, c) => match lookup_mode(st.modes, g) {
            None => None,
            Some(mode) => if mode == m {
                doc_print(*c, flat, ind, o, st)
            } else {
                Some(st)
            },
        },
        DocV::LineSuffix(c) => Some(PState { pending: st.pending.push(flat_text(*c)), ..st }),
        DocV::List(items) => seq_print(items, 0, flat, ind, o, st),
    }
}

/// Prints the items from index `i` on, in order, threading the state.
pub open spec fn seq_print(
    items: Seq<DocV>,
    i: nat,
    flat: bool,
    ind: nat,
    o: FormatOptions,
    st: PState,
) -> Option<PState>
    decreases items, 0nat, (if i <= items.len() { items.len() - i } else { 0 }),
{
    if i >= items.len() {
        Some(st)
    } else {
        match doc_print(items[i as int], flat, ind, o, st) {
            None => None,
            Some(st1) => seq_print(items, i + 1, flat, ind, o, st1),
        }
    }
}

/// Prints a fill from its `i`-th item on. Items render flat; each gap from
/// the second item on renders its separator flat when the separator and the
/// next item still fit on the current line, and broken when they do not.
pub open spec fn fill_print(d: DocV, i: nat, ind: nat, o: FormatOptions, st: PState) -> Option<
    PState,
>
    recommends
        d is Fill,
    decreases d, 0nat, (if d is Fill && i <= d->Fill_0.len() {
        d->Fill_0.len() - i
    } else {
        0
    }),
{
    if !(d is Fill) {
        Some(st)
    } else {
        let items = d->Fill_0;
        let sep = *d->Fill_1;
        if i >= items.len() {
            Some(st)
        } else if i == 0 {
            match doc_print(items[0], true, ind, o, st) {
                None => None,
                Some(st1) => fill_print(d, 1, ind, o, st1),
            }
        } else {
            let gap_fits = !forced_break(sep) && !forced_break(items[i as int]) && st.col
                + flat_len(sep) + flat_len(items[i as int]) <= o.print_width;
            match doc_print(sep, gap_fits, ind, o, st) {
                None => None,
                Some(st1) => match doc_print(items[i as int], true, ind, o, st1) {
                    None => None,
                    Some(st2) => fill_print(d, i + 1, ind, o, st2),
                },
            }
        }
    }
}

/// The whole rendering of a document: printed from an empty state in broken
/// mode at indentation zero, with any still-deferred suffixes flushed at the
/// end of the output.
pub open spec fn render_spec(d: DocV, o: FormatOptions) -> Option<Seq<char>> {
    match doc_print(d, false, 0, o, init_state()) {
        None => None,
        Some(st) => Some(st.out + concat_all(st.pending)),
    }
}

} // verus!

verus! {

// ---------------------------------------------------------------------------
// Executable measurement.
// ---------------------------------------------------------------------------

/// Addition capped at the machine word bound.
fn sat_add(a: usize, b: usize) -> (r: usize)
    ensures
        r as nat == cap_usize(a as nat + b as nat),
{
    if a <= usize::MAX - b {
        a + b
    } else {
        usize::MAX
    }
}

/// Capping commutes with addition: adding capped summands and capping again
/// gives the cap of the exact sum.
proof fn lemma_cap_add(a: nat, b: nat)
    ensures
        cap_usize(cap_usize(a) + cap_usize(b)) == cap_usize(a + b),
{
}

/// Computes the flat width of a document, capped at the machine word bound,
/// and whether it holds a forced break.
fn measure(d: &Doc) -> (r: (usize, bool))
    ensures
        r.0 as nat == cap_usize(flat_len(d@)),
        r.1 == forced_break(d@),
    decreases d, 1nat, 0nat,
{
    match d {
        Doc::Empty => (0, false),
        Doc::Text(t) => (t.len(), false),
        Doc::Space => (1, false),
        Doc::Line(k) => match k {
            LineKind::Soft => (0, false),
            LineKind::SoftOrSpace => (1, false),
            LineKind::Hard => (0, true),
            LineKind::EmptyIfBroken => (0, true),
        },
        Doc::Indent(c) => measure(&**c),
        Doc::Group(c, _) => measure(&**c),
        Doc::Fill(items, sep) => {
            let (sw, sf) = measure(&**sep);
            let (jw, jf) = measure_join(items, sw, Ghost(flat_len((&**sep)@)), 0);
            (jw, jf || (items.len() >= 2 && sf))
        },
        Doc::Conditional(_, m, c) => {
            let (w, f) = measure(&**c);
            match m {
                GroupMode::Flat => (w, f),
                GroupMode::Broken => (0, false),
            }
        },
        Doc::LineSuffix(_) => (0, false),
        Doc::List(items) => measure_list(items, 0),
    }
}

/// Measures the concatenation of the items from index `i` on.
fn measure_list(items: &Vec<Doc>, i: usize) -> (r: (usize, bool))
    requires
        i <= items.len(),
    ensures
        r.0 as nat == cap_usize(seq_flat_len(views_of(items@), i as nat)),
        r.1 == seq_forced(views_of(items@), i as nat),
    decreases items@, 0nat, items@.len() - i,
{
    if i == items.len() {
        (0, false)
    } else {
        let (w, f) = measure(&items[i]);
        let (rw, rf) = measure_list(items, i + 1);
        proof {
            lemma_cap_add(flat_len(views_of(items@)[i as int]), seq_flat_len(views_of(items@), i as nat + 1));
        }
        (sat_add(w, rw), f || rf)
    }
}

/// Measures the items from index `i` on, with a separator of capped width
/// `sep_cap` (the cap of `sep_exact`) in every gap.
fn measure_join(items: &Vec<Doc>, sep_cap: usize, Ghost(sep_exact): Ghost<nat>, i: usize) -> (r: (
    usize,
    bool,
))
    requires
        i <= items.len(),
        sep_cap as nat == cap_usize(sep_exact),
    ensures
        r.0 as nat == cap_usize(join_flat_len(views_of(items@), sep_exact, i as nat)),
        r.1 == seq_forced(views_of(items@), i as nat),
    decreases items@, 0nat, items@.len() - i,
{
    if i == items.len() {
        (0, false)
    } else {
        let (w, f) = measure(&items[i]);
        let (rw, rf) = measure_join(items, sep_cap, Ghost(sep_exact), i + 1);
        let ghost vs = views_of(items@);
        let gap = if i + 1 < items.len() {
            proof {
                lemma_cap_add(sep_exact, join_flat_len(vs, sep_exact, i as nat + 1));
            }
            sat_add(sep_cap, rw)
        } else {
            rw
        };
        proof {
            let rest: nat = if i as nat + 1 < vs.len() {
                sep_exact + join_flat_len(vs, sep_exact, i as nat + 1)
            } else {
                join_flat_len(vs, sep_exact, i as nat + 1)
            };
            lemma_cap_add(flat_len(vs[i as int]), rest);
        }
        (sat_add(w, gap), f || rf)
    }
}

/// Compares `col + exact` against the width, given only the capped value.
/// Exact below the machine bound because the width is.
fn cap_le(col: usize, wcap: usize, width: usize, Ghost(exact): Ghost<nat>) -> (r: bool)
    requires
        width < usize::MAX,
        wcap as nat == cap_usize(exact),
    ensures
        r == (col as nat + exact <= width as nat),
{
    col <= width && wcap <= width - col
}

/// The executable fits check for a group's content at the given column.
fn fits(c: &Doc, col: usize, o: &FormatOptions) -> (r: bool)
    requires
        o.wf(),
    ensures
        r == group_fits(c@, col as nat, *o),
{
    let (w, f) = measure(c);
    if f {
        false
    } else {
        cap_le(col, w, o.print_width, Ghost(flat_len(c@)))
    }
}

} // verus!

verus! {

// ---------------------------------------------------------------------------
// The executable printer state.
// ---------------------------------------------------------------------------

/// The printer's working state; its model is a [`PState`].
pub struct Printer {
    pub out: Vec<char>,
    pub col: usize,
    pub pending: Vec<Vec<char>>,
    pub modes: Vec<(u64, GroupMode)>,
}

impl View for Printer {
    type V = PState;

    open spec fn view(&self) -> PState {
        PState {
            out: self.out@,
            col: self.col as nat,
            pending: Seq::new(self.pending@.len(), |i: int| self.pending@[i]@),
            modes: self.modes@,
        }
    }
}

impl Printer {
    /// A printer that has written nothing yet.
    pub fn new() -> (r: Printer)
        ensures
            r@ == init_state(),
            st_ok(r@),
    {
        let r = Printer { out: Vec::new(), col: 0, pending: Vec::new(), modes: Vec::new() };
        proof {
            assert(r@.out =~= init_state().out);
            assert(r@.pending =~= init_state().pending);
            assert(r@.modes =~= init_state().modes);
        }
        r
    }
}

/// Appends one character and advances the column.
fn emit_char(st: &mut Printer, c: char)
    requires
        st_ok(old(st)@),
    ensures
        final(st)@ == push_text(old(st)@, seq![c]),
        st_ok(final(st)@),
{
    st.out.push(c);
    let n = st.out.len();
    proof {
        assert(st.col as nat + 1 <= n as nat);
    }
    st.col = st.col + 1;
    proof {
        assert(st.out@ =~= old(st).out@ + seq![c]);
    }
}

/// Appends literal text and advances the column by its length.
fn emit_text(st: &mut Printer, t: &Vec<char>)
    requires
        st_ok(old(st)@),
    ensures
        final(st)@ == push_text(old(st)@, t@),
        st_ok(final(st)@),
{
    let mut j: usize = 0;
    while j < t.len()
        invariant
            j <= t.len(),
            st.out@ == old(st).out@ + t@.subrange(0, j as int),
            st.col == old(st).col,
            st.pending == old(st).pending,
            st.modes == old(st).modes,
            st_ok(old(st)@),
        decreases t.len() - j,
    {
        let c = t[j];
        st.out.push(c);
        proof {
            assert(st.out@ =~= old(st).out@ + t@.subrange(0, j as int + 1));
        }
        j = j + 1;
    }
    let n = st.out.len();
    proof {
        assert(t@.subrange(0, t@.len() as int) =~= t@);
        assert(st.col as nat + t@.len() <= n as nat);
    }
    st.col = st.col + t.len();
}

/// `concat_all` is vstd's sequence flatten.
proof fn lemma_concat_is_flatten(p: Seq<Seq<char>>)
    ensures
        concat_all(p) == p.flatten(),
    decreases p.len(),
{
    if p.len() != 0 {
        lemma_concat_is_flatten(p.subrange(1, p.len() as int));
    }
}

/// Extending a flushed prefix by one queued text.
pub proof fn lemma_concat_prefix(p: Seq<Seq<char>>, k: int)
    requires
        0 <= k < p.len(),
    ensures
        concat_all(p.subrange(0, k + 1)) == concat_all(p.subrange(0, k)) + p[k],
{
    let q = p.subrange(0, k + 1);
    let q0 = p.subrange(0, k);
    lemma_concat_is_flatten(q);
    lemma_concat_is_flatten(q0);
    q.lemma_flatten_and_flatten_alt_are_equivalent();
    q0.lemma_flatten_and_flatten_alt_are_equivalent();
    assert(q.drop_last() =~= q0);
    assert(q.flatten_alt() == q.drop_last().flatten_alt().add(q.last()));
}

/// Flushes the queued suffix texts into the output, in order; the column is
/// left alone (a newline, if one follows, resets it).
fn flush_pending(st: &mut Printer)
    requires
        st_ok(old(st)@),
    ensures
        final(st).out@ == old(st)@.out + concat_all(old(st)@.pending),
        final(st).pending@.len() == 0,
        final(st).col == old(st).col,
        final(st).modes == old(st).modes,
        st_ok(final(st)@),
{
    let ghost p0: Seq<Seq<char>> = old(st)@.pending;
    let mut pend: Vec<Vec<char>> = Vec::new();
    core::mem::swap(&mut pend, &mut st.pending);
    let mut k: usize = 0;
    while k < pend.len()
        invariant
            k <= pend.len(),
            pend == old(st).pending,
            p0 == old(st)@.pending,
            p0.len() == pend@.len(),
            forall|i: int| 0 <= i < pend@.len() ==> p0[i] == pend@[i]@,
            st.out@ == old(st).out@ + concat_all(p0.subrange(0, k as int)),
            st.col == old(st).col,
            st.pending@.len() == 0,
            st.modes == old(st).modes,
            st_ok(old(st)@),
        decreases pend@.len() - k,
    {
        let ghost outk = st.out@;
        let mut j: usize = 0;
        while j < pend[k].len()
            invariant
                k < pend@.len(),
                j <= pend@[k as int]@.len(),
                st.out@ == outk + pend@[k as int]@.subrange(0, j as int),
                st.col == old(st).col,
                st.pending@.len() == 0,
                st.modes == old(st).modes,
            decreases pend@[k as int]@.len() - j,
        {
            let c = pend[k][j];
            st.out.push(c);
            proof {
                assert(st.out@ =~= outk + pend@[k as int]@.subrange(0, j as int + 1));
            }
            j = j + 1;
        }
        proof {
            assert(pend@[k as int]@.subrange(0, pend@[k as int]@.len() as int) =~= pend@[
                k as int
            ]@);
            lemma_concat_prefix(p0, k as int);
            assert(st.out@ =~= old(st).out@ + concat_all(p0.subrange(0, k as int + 1)));
        }
        k = k + 1;
    }
    proof {
        assert(p0.subrange(0, p0.len() as int) =~= p0);
        assert(old(st)@.out == old(st).out@);
    }
}

/// The length of a run of spaces.
proof fn lemma_spaces_len(n: nat)
    ensures
        spaces(n).len() == n,
    decreases n,
{
    if n > 0 {
        lemma_spaces_len((n - 1) as nat);
    }
}

/// Writes one unit of indentation.
fn emit_unit(o: &FormatOptions, st: &mut Printer)
    requires
        st_ok(old(st)@),
    ensures
        final(st).out@ == old(st).out@ + unit_chars(*o),
        final(st).col as nat == old(st).col as nat + unit_chars(*o).len(),
        final(st).pending == old(st).pending,
        final(st).modes == old(st).modes,
        st_ok(final(st)@),
{
    match o.indent_style {
        IndentStyle::Tab => {
            st.out.push('\t');
            let n = st.out.len();
            proof {
                assert(st.out@ =~= old(st).out@ + unit_chars(*o));
                assert(st.col as nat + 1 <= n as nat);
            }
            st.col = st.col + 1;
        },
        IndentStyle::Space => {
            let mut j: usize = 0;
            while j < o.indent_width
                invariant
                    j <= o.indent_width,
                    o.indent_style is Space,
                    st.out@ == old(st).out@ + spaces(j as nat),
                    st.col == old(st).col,
                    st.pending == old(st).pending,
                    st.modes == old(st).modes,
                    st_ok(old(st)@),
                decreases o.indent_width - j,
            {
                st.out.push(' ');
                proof {
                    lemma_spaces_len(j as nat);
                    assert(spaces(j as nat + 1) == spaces(j as nat).push(' '));
                    assert(st.out@ =~= old(st).out@ + spaces(j as nat + 1));
                }
                j = j + 1;
            }
            let n = st.out.len();
            proof {
                lemma_spaces_len(o.indent_width as nat);
                assert(st.col as nat + o.indent_width as nat <= n as nat);
            }
            st.col = st.col + o.indent_width;
        },
    }
}

/// Writes a real line break: flush, newline, indentation.
fn emit_break(o: &FormatOptions, ind: usize, st: &mut Printer)
    requires
        st_ok(old(st)@),
    ensures
        final(st)@ == do_break(*o, ind as nat, old(st)@),
        st_ok(final(st)@),
{
    flush_pending(st);
    st.out.push('\n');
    st.col = 0;
    let ghost base: Seq<char> = old(st)@.out + concat_all(old(st)@.pending) + seq!['\n'];
    proof {
        assert(st.out@ =~= base);
    }
    let mut lvl: usize = 0;
    while lvl < ind
        invariant
            lvl <= ind,
            st.out@ == base + ind_chars(*o, lvl as nat),
            st.col as nat == ind_chars(*o, lvl as nat).len(),
            st.pending@.len() == 0,
            st.modes == old(st).modes,
            st_ok(st@),
        decreases ind - lvl,
    {
        emit_unit(o, st);
        proof {
            assert(ind_chars(*o, lvl as nat + 1) == ind_chars(*o, lvl as nat) + unit_chars(*o));
            assert(st.out@ =~= base + ind_chars(*o, lvl as nat + 1));
        }
        lvl = lvl + 1;
    }
    proof {
        assert(final(st)@.out =~= do_break(*o, ind as nat, old(st)@).out);
        assert(final(st)@.pending =~= do_break(*o, ind as nat, old(st)@).pending);
    }
}

/// Looks a group's decided mode up, newest decision first.
fn lookup(modes: &Vec<(u64, GroupMode)>, id: u64) -> (r: Option<GroupMode>)
    ensures
        r == lookup_mode(modes@, id),
{
    let mut j = modes.len();
    proof {
        assert(modes@.subrange(0, modes@.len() as int) =~= modes@);
    }
    while j > 0
        invariant
            j <= modes@.len(),
            lookup_mode(modes@, id) == lookup_mode(modes@.subrange(0, j as int), id),
        decreases j,
    {
        j = j - 1;
        let e = modes[j];
        proof {
            assert(modes@.subrange(0, j as int + 1).last() == modes@[j as int]);
            assert(modes@.subrange(0, j as int + 1).subrange(0, j as int) =~= modes@.subrange(
                0,
                j as int,
            ));
        }
        if e.0 == id {
            return Some(e.1);
        }
    }
    None
}

} // verus!

verus! {

// ---------------------------------------------------------------------------
// Flat rendering of deferred content.
// ---------------------------------------------------------------------------

/// Appends the characters of `t`.
fn append_chars(acc: &mut Vec<char>, t: &Vec<char>)
    ensures
        final(acc)@ == old(acc)@ + t@,
{
    let mut j: usize = 0;
    while j < t.len()
        invariant
            j <= t.len(),
            acc@ == old(acc)@ + t@.subrange(0, j as int),
        decreases t.len() - j,
    {
        let c = t[j];
        acc.push(c);
        proof {
            assert(acc@ =~= old(acc)@ + t@.subrange(0, j as int + 1));
        }
        j = j + 1;
    }
    proof {
        assert(t@.subrange(0, t@.len() as int) =~= t@);
    }
}

/// Renders a document flat into `acc`, as deferred line-suffix content is.
fn render_flat_into(d: &Doc, acc: &mut Vec<char>)
    ensures
        final(acc)@ == old(acc)@ + flat_text(d@),
    decreases d, 1nat, 0nat,
{
    match d {
        Doc::Empty => {
            proof {
                assert(acc@ =~= acc@ + flat_text(d@));
            }
        },
        Doc::Text(t) => {
            append_chars(acc, t);
        },
        Doc::Space => {
            acc.push(' ');
            proof {
                assert(acc@ =~= old(acc)@ + flat_text(d@));
            }
        },
        Doc::Line(k) => {
            match k {
                LineKind::SoftOrSpace | LineKind::Hard => {
                    acc.push(' ');
                },
                LineKind::Soft | LineKind::EmptyIfBroken => {},
            }
            proof {
                assert(acc@ =~= old(acc)@ + flat_text(d@));
            }
        },
        Doc::Indent(c) => {
            render_flat_into(&**c, acc);
        },
        Doc::Group(c, _) => {
            render_flat_into(&**c, acc);
        },
        Doc::Fill(_, _) => {
            render_flat_fill(d, 0, acc);
        },
        Doc::Conditional(_, _, _) => {
            proof {
                assert(acc@ =~= acc@ + flat_text(d@));
            }
        },
        Doc::LineSuffix(_) => {
            proof {
                assert(acc@ =~= acc@ + flat_text(d@));
            }
        },
        Doc::List(items) => {
            render_flat_list(items, 0, acc);
            proof {
                assert(old(acc)@ + seq_flat_text(views_of(items@), 0) =~= old(
                    acc,
                )@ + flat_text(d@));
            }
        },
    }
}

/// Renders the items from index `i` on flat into `acc`.
fn render_flat_list(items: &Vec<Doc>, i: usize, acc: &mut Vec<char>)
    requires
        i <= items.len(),
    ensures
        final(acc)@ == old(acc)@ + seq_flat_text(views_of(items@), i as nat),
    decreases items@, 0nat, items@.len() - i,
{
    if i == items.len() {
        proof {
            assert(acc@ =~= acc@ + seq_flat_text(views_of(items@), i as nat));
        }
    } else {
        render_flat_into(&items[i], acc);
        render_flat_list(items, i + 1, acc);
        proof {
            assert(final(acc)@ =~= old(acc)@ + seq_flat_text(
                views_of(items@),
                i as nat,
            ));
        }
    }
}

/// Renders a fill's items from index `i` on flat into `acc`, with the
/// separator's flat text in every gap.
fn render_flat_fill(d: &Doc, i: usize, acc: &mut Vec<char>)
    requires
        d is Fill,
        i as nat <= d@->Fill_0.len(),
    ensures
        final(acc)@ == old(acc)@ + join_flat_text(d@->Fill_0, flat_text(*d@->Fill_1), i as nat),
    decreases d, 0nat, (if i as nat <= d@->Fill_0.len() {
        d@->Fill_0.len() - i as nat
    } else {
        0
    }),
{
    if let Doc::Fill(items, sep) = d {
        proof {
            assert(d@->Fill_0 == views_of(items@));
            assert(*d@->Fill_1 == (&**sep)@);
            assert(d@->Fill_0.len() == items@.len());
        }
        if i == items.len() {
            proof {
                assert(acc@ =~= acc@ + join_flat_text(
                    d@->Fill_0,
                    flat_text(*d@->Fill_1),
                    i as nat,
                ));
            }
        } else {
            render_flat_into(&items[i], acc);
            if i + 1 < items.len() {
                render_flat_into(&**sep, acc);
            }
            render_flat_fill(d, i + 1, acc);
            proof {
                assert(final(acc)@ =~= old(acc)@ + join_flat_text(
                    d@->Fill_0,
                    flat_text(*d@->Fill_1),
                    i as nat,
                ));
            }
        }
    } else {
        proof {
            assert(false);
        }
    }
}

// ---------------------------------------------------------------------------
// The executable printer, proved equal to the model.
// ---------------------------------------------------------------------------

/// Prints one document into the state; `false` reports an internal
/// invariant violation (conditional content whose group was never decided).
pub fn print_doc(d: &Doc, flat: bool, ind: usize, o: &FormatOptions, st: &mut Printer) -> (ok:
    bool)
    requires
        o.wf(),
        st_ok(old(st)@),
    ensures
        ok ==> doc_print(d@, flat, ind as nat, *o, old(st)@) == Some(final(st)@),
        ok ==> st_ok(final(st)@),
        !ok ==> doc_print(d@, flat, ind as nat, *o, old(st)@) is None,
    decreases d, 1nat, 0nat,
{
    match d {
        Doc::Empty => true,
        Doc::Text(t) => {
            emit_text(st, t);
            true
        },
        Doc::Space => {
            if st.col != 0 {
                emit_char(st, ' ');
            }
            true
        },
        Doc::Line(k) => {
            match k {
                LineKind::Soft => {
                    if !flat {
                        emit_break(o, ind, st);
                    }
                },
                LineKind::SoftOrSpace => {
                    if flat {
                        emit_char(st, ' ');
                    } else {
                        emit_break(o, ind, st);
                    }
                },
                LineKind::Hard => {
                    emit_break(o, ind, st);
                },
                LineKind::EmptyIfBroken => {
                    if !flat {
                        emit_break(o, ind, st);
                    }
                },
            }
            true
        },
        Doc::Indent(c) => {
            let ind2 = if ind < usize::MAX {
                ind + 1
            } else {
                ind
            };
            print_doc(&**c, flat, ind2, o, st)
        },
        Doc::Group(c, id) => {
            let f = fits(&**c, st.col, o);
            match id {
                Some(g) => {
                    st.modes.push((*g, if f {
                        GroupMode::Flat
                    } else {
                        GroupMode::Broken
                    }));
                },
                None => {},
            }
            print_doc(&**c, f, ind, o, st)
        },
        Doc::Fill(_, _) => print_fill(d, 0, ind, o, st),
        Doc::Conditional(g, m, c) => {
            match lookup(&st.modes, *g) {
                None => false,
                Some(mode) => {
                    if mode == *m {
                        print_doc(&**c, flat, ind, o, st)
                    } else {
                        true
                    }
                },
            }
        },
        Doc::LineSuffix(c) => {
            let mut buf: Vec<char> = Vec::new();
            render_flat_into(&**c, &mut buf);
            st.pending.push(buf);
            proof {
                assert(final(st)@.pending =~= old(st)@.pending.push(flat_text((&**c)@)));
            }
            true
        },
        Doc::List(items) => print_list(items, 0, flat, ind, o, st),
    }
}

/// Prints the items from index `i` on, in order.
fn print_list(
    items: &Vec<Doc>,
    i: usize,
    flat: bool,
    ind: usize,
    o: &FormatOptions,
    st: &mut Printer,
) -> (ok: bool)
    requires
        o.wf(),
        st_ok(old(st)@),
        i <= items.len(),
    ensures
        ok ==> seq_print(views_of(items@), i as nat, flat, ind as nat, *o, old(st)@)
            == Some(final(st)@),
        ok ==> st_ok(final(st)@),
        !ok ==> seq_print(views_of(items@), i as nat, flat, ind as nat, *o, old(st)@)
            is None,
    decreases items@, 0nat, items@.len() - i,
{
    if i == items.len() {
        true
    } else {
        let ok = print_doc(&items[i], flat, ind, o, st);
        if !ok {
            false
        } else {
            print_list(items, i + 1, flat, ind, o, st)
        }
    }
}

/// Prints a fill from its `i`-th item on.
fn print_fill(d: &Doc, i: usize, ind: usize, o: &FormatOptions, st: &mut Printer) -> (ok: bool)
    requires
        o.wf(),
        st_ok(old(st)@),
        d is Fill,
        i as nat <= d@->Fill_0.len(),
    ensures
        ok ==> fill_print(d@, i as nat, ind as nat, *o, old(st)@) == Some(final(st)@),
        ok ==> st_ok(final(st)@),
        !ok ==> fill_print(d@, i as nat, ind as nat, *o, old(st)@) is None,
    decreases d, 0nat, (if i as nat <= d@->Fill_0.len() {
        d@->Fill_0.len() - i as nat
    } else {
        0
    }),
{
    if let Doc::Fill(items, sep) = d {
        proof {
            assert(d@->Fill_0 == views_of(items@));
            assert(*d@->Fill_1 == (&**sep)@);
            assert(d@->Fill_0.len() == items@.len());
        }
        if i == items.len() {
            true
        } else if i == 0 {
            let ok = print_doc(&items[0], true, ind, o, st);
            if !ok {
                false
            } else {
                print_fill(d, 1, ind, o, st)
            }
        } else {
            let (sw, sf) = measure(&**sep);
            let (iw, inf) = measure(&items[i]);
            proof {
                lemma_cap_add(flat_len((&**sep)@), flat_len((&items[i as int])@));
            }
            let wsum = sat_add(sw, iw);
            let gf = !sf && !inf && cap_le(
                st.col,
                wsum,
                o.print_width,
                Ghost(flat_len((&**sep)@) + flat_len(doc_view(items@[i as int]))),
            );
            let ok = print_doc(&**sep, gf, ind, o, st);
            if !ok {
                false
            } else {
                let ok2 = print_doc(&items[i], true, ind, o, st);
                if !ok2 {
                    false
                } else {
                    print_fill(d, i + 1, ind, o, st)
                }
            }
        }
    } else {
        proof {
            assert(false);
        }
        false
    }
}

/// Formats a finished document: the whole-file entry point of the printer.
///
/// With valid options the result is exactly the model's rendering; invalid
/// options are rejected before anything is traversed, and an undecided
/// conditional-group reference aborts the file with an internal error.
pub fn print(d: &Doc, o: &FormatOptions) -> (r: Result<Vec<char>, FormatFailure>)
    ensures
        o.wf() ==> (match render_spec(d@, *o) {
            Some(s) => r matches Ok(v) && v@ == s,
            None => r matches Err(e) && e == FormatFailure::InvariantViolation,
        }),
        !o.wf() ==> (r matches Err(e) && e == FormatFailure::ConfigurationError),
{
    if !o.is_valid() {
        return Err(FormatFailure::ConfigurationError);
    }
    let mut st = Printer::new();
    let ok = print_doc(d, false, 0, o, &mut st);
    if !ok {
        return Err(FormatFailure::InvariantViolation);
    }
    flush_pending(&mut st);
    Ok(st.out)
}

} // verus!
