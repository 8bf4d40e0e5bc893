//! Laws of the layout printer, stated over its mathematical model and
//! proved once for all documents of the relevant shapes.

use vstd::prelude::*;

use crate::builders::{join_of, sep_elem, sep_elems, separated_view};
use crate::doc::{DocV, GroupMode, LineKind};
use crate::options::{FormatOptions, TrailingSeparator};
use crate::printer::{
    concat_all, do_break, doc_print, flat_len, flat_text, forced_break, group_fits, ind_chars,
    lookup_mode, push_text, record_mode, seq_flat_text, seq_forced, seq_print, PState,
};

verus! {

// ---------------------------------------------------------------------------
// Flat printing of plain content.
// ---------------------------------------------------------------------------

/// A document made only of text, spaces, lines, indentation and plain
/// concatenation: no group, fill, conditional content or deferred suffix.
pub open spec fn plain(d: DocV) -> bool
    decreases d, 1nat, 0nat,
{
    match d {
        DocV::Empty => true,
        DocV::Text(_) => true,
        DocV::Space => true,
        DocV::Line(_) => true,
        DocV::Indent(c) => plain(*c),
        DocV::List(items) => seq_plain(items, 0),
        DocV::Group(_, _) => false,
        DocV::Fill(_, _) => false,
        DocV::Conditional(_, _, _) => false,
        DocV::LineSuffix(_) => false,
    }
}

/// Whether the items from index `i` on are all plain.
pub open spec fn seq_plain(items: Seq<DocV>, i: nat) -> bool
    decreases items, 0nat, (if i <= items.len() { items.len() - i } else { 0 }),
{
    if i >= items.len() {
        true
    } else {
        plain(items[i as int]) && seq_plain(items, i + 1)
    }
}

/// Appending twice is appending the concatenation.
pub proof fn lemma_push_push(st: PState, a: Seq<char>, b: Seq<char>)
    ensures
        push_text(push_text(st, a), b) == push_text(st, a + b),
{
    assert(push_text(push_text(st, a), b).out =~= push_text(st, a + b).out);
}

/// Appending nothing changes nothing.
pub proof fn lemma_push_empty(st: PState)
    ensures
        push_text(st, Seq::<char>::empty()) == st,
{
    assert(push_text(st, Seq::<char>::empty()).out =~= st.out);
}

/// A plain document has as many flat columns as flat characters.
pub proof fn lemma_flat_text_len(d: DocV)
    requires
        plain(d),
        !forced_break(d),
    ensures
        flat_text(d).len() == flat_len(d),
    decreases d, 1nat, 0nat,
{
    match d {
        DocV::Indent(c) => lemma_flat_text_len(*c),
        DocV::List(items) => lemma_seq_flat_text_len(items, 0),
        _ => {},
    }
}

/// The list form of `lemma_flat_text_len`.
pub proof fn lemma_seq_flat_text_len(items: Seq<DocV>, i: nat)
    requires
        seq_plain(items, i),
        !seq_forced(items, i),
    ensures
        seq_flat_text(items, i).len() == crate::printer::seq_flat_len(items, i),
    decreases items, 0nat, (if i <= items.len() { items.len() - i } else { 0 }),
{
    if i < items.len() {
        lemma_flat_text_len(items[i as int]);
        lemma_seq_flat_text_len(items, i + 1);
    }
}

/// Flat printing writes exactly the flat text: a plain document without a
/// forced break, printed in flat mode away from the line start, appends its
/// flat text and moves nothing else.
pub proof fn lemma_flat_print(d: DocV, ind: nat, o: FormatOptions, st: PState)
    requires
        plain(d),
        !forced_break(d),
        st.col >= 1,
    ensures
        doc_print(d, true, ind, o, st) == Some(push_text(st, flat_text(d))),
    decreases d, 1nat, 0nat,
{
    match d {
        DocV::Empty => {
            lemma_push_empty(st);
        },
        DocV::Text(_) => {},
        DocV::Space => {},
        DocV::Line(k) => {
            if k is Soft || k is EmptyIfBroken {
                lemma_push_empty(st);
            }
        },
        DocV::Indent(c) => {
            lemma_flat_print(*c, crate::printer::inc_ind(ind), o, st);
        },
        DocV::List(items) => {
            lemma_flat_print_seq(items, 0, ind, o, st);
        },
        _ => {},
    }
}

/// The list form of `lemma_flat_print`.
pub proof fn lemma_flat_print_seq(items: Seq<DocV>, i: nat, ind: nat, o: FormatOptions, st: PState)
    requires
        seq_plain(items, i),
        !seq_forced(items, i),
        st.col >= 1,
    ensures
        seq_print(items, i, true, ind, o, st) == Some(push_text(st, seq_flat_text(items, i))),
    decreases items, 0nat, (if i <= items.len() { items.len() - i } else { 0 }),
{
    if i >= items.len() {
        lemma_push_empty(st);
    } else {
        lemma_flat_print(items[i as int], ind, o, st);
        let st1 = push_text(st, flat_text(items[i as int]));
        lemma_flat_print_seq(items, i + 1, ind, o, st1);
        lemma_push_push(st, flat_text(items[i as int]), seq_flat_text(items, i + 1));
    }
}

/// WIDTH RESPECT: a group of plain content whose flat rendering fits at the
/// current column prints flat, on the current line, and ends at a column
/// that does not exceed the print width. (A flat rendering wider than the
/// budget fails the fits check instead, and the group breaks.)
pub proof fn lemma_group_width_respect(
    c: DocV,
    id: Option<u64>,
    flat0: bool,
    ind: nat,
    o: FormatOptions,
    st: PState,
)
    requires
        plain(c),
        st.col >= 1,
        group_fits(c, st.col, o),
    ensures
        ({
            let st1 = match id {
                Some(g) => record_mode(st, g, true),
                None => st,
            };
            &&& doc_print(DocV::Group(Box::new(c), id), flat0, ind, o, st) == Some(
                push_text(st1, flat_text(c)),
            )
            &&& push_text(st1, flat_text(c)).col <= o.print_width
            &&& push_text(st1, flat_text(c)).out == st.out + flat_text(c)
        }),
{
    let st1 = match id {
        Some(g) => record_mode(st, g, true),
        None => st,
    };
    assert(st1.col == st.col);
    lemma_flat_print(c, ind, o, st1);
    lemma_flat_text_len(c);
}

} // verus!

verus! {

// ---------------------------------------------------------------------------
// Separated lists: the trailing-separator law, proved as exact renderings.
// ---------------------------------------------------------------------------

/// Literal items, one document per text.
pub open spec fn text_docs(ts: Seq<Seq<char>>) -> Seq<DocV> {
    Seq::new(ts.len(), |i: int| DocV::Text(ts[i]))
}

/// The elements a separated list of literal items is joined from, under the
/// omit-if-last trailing policy.
pub open spec fn sep_list_elems(ts: Seq<Seq<char>>, s: Seq<char>, id: u64) -> Seq<DocV> {
    join_of(
        DocV::Line(LineKind::SoftOrSpace),
        sep_elems(text_docs(ts), DocV::Text(s), TrailingSeparator::OmitIfLast, id),
    )
}

/// The one-line rendering of the items from `j` on: items joined by the
/// separator and one space, with no trailing separator.
pub open spec fn flat_tail(ts: Seq<Seq<char>>, s: Seq<char>, j: nat) -> Seq<char>
    decreases (if j <= ts.len() { ts.len() - j } else { 0 }),
{
    if j >= ts.len() {
        Seq::empty()
    } else if j + 1 == ts.len() {
        ts[j as int]
    } else {
        ts[j as int] + s + seq![' '] + flat_tail(ts, s, j + 1)
    }
}

/// The multi-line rendering of the items from `j` on: every item followed
/// by the separator, the trailing one included, with a line break between
/// items.
pub open spec fn broken_tail(ts: Seq<Seq<char>>, s: Seq<char>, nl: Seq<char>, j: nat) -> Seq<char>
    decreases (if j <= ts.len() { ts.len() - j } else { 0 }),
{
    if j >= ts.len() {
        Seq::empty()
    } else if j + 1 == ts.len() {
        ts[j as int] + s
    } else {
        ts[j as int] + s + nl + broken_tail(ts, s, nl, j + 1)
    }
}

/// What a line break writes: a newline and the current indentation.
pub open spec fn nl_chars(o: FormatOptions, ind: nat) -> Seq<char> {
    seq!['\n'] + ind_chars(o, ind)
}

/// The shape of a join over non-empty items: items at even positions, the
/// separator at odd ones.
pub proof fn lemma_join_shape(sep: DocV, items: Seq<DocV>)
    requires
        items.len() >= 1,
        forall|i: int| 0 <= i < items.len() ==> !((#[trigger] items[i]) is Empty),
    ensures
        join_of(sep, items).len() == 2 * items.len() - 1,
        forall|j: int|
            0 <= j < items.len() ==> #[trigger] join_of(sep, items)[2 * j] == items[j],
        forall|j: int|
            0 <= j < items.len() - 1 ==> #[trigger] join_of(sep, items)[2 * j + 1] == sep,
    decreases items.len(),
{
    if items.len() == 1 {
        assert(join_of(sep, items.drop_last()).len() == 0);
    } else {
        lemma_join_shape(sep, items.drop_last());
        let pre = join_of(sep, items.drop_last());
        assert(pre.len() == 2 * (items.len() - 1) - 1 >= 1);
        assert(join_of(sep, items) == pre + seq![sep, items.last()]);
        assert forall|j: int| 0 <= j < items.len() implies #[trigger] join_of(sep, items)[2 * j]
            == items[j] by {
            if j < items.len() - 1 {
                assert(pre[2 * j] == items.drop_last()[j]);
            }
        }
        assert forall|j: int| 0 <= j < items.len() - 1 implies #[trigger] join_of(sep, items)[2
            * j + 1] == sep by {
            if j < items.len() - 2 {
                assert(pre[2 * j + 1] == sep);
            }
        }
    }
}

/// Printing the tail of a separated list's elements in flat mode, from the
/// element of item `j` on, while the list's group is on record as flat.
proof fn lemma_sep_flat_from(
    ts: Seq<Seq<char>>,
    s: Seq<char>,
    id: u64,
    j: nat,
    ind: nat,
    o: FormatOptions,
    st: PState,
)
    requires
        ts.len() >= 1,
        j <= ts.len(),
        lookup_mode(st.modes, id) == Some(GroupMode::Flat),
    ensures
        seq_print(sep_list_elems(ts, s, id), 2 * j, true, ind, o, st) == Some(
            push_text(st, flat_tail(ts, s, j)),
        ),
    decreases ts.len() - j,
{
    let items = text_docs(ts);
    let elems = sep_elems(items, DocV::Text(s), TrailingSeparator::OmitIfLast, id);
    let sp = DocV::Line(LineKind::SoftOrSpace);
    let ll = sep_list_elems(ts, s, id);
    assert(forall|i: int| 0 <= i < elems.len() ==> !((#[trigger] elems[i]) is Empty));
    lemma_join_shape(sp, elems);
    if j == ts.len() {
        assert(2 * j >= ll.len());
        lemma_push_empty(st);
    } else {
        let tj = ts[j as int];
        let e = ll[2 * j as int];
        assert(e == sep_elem(
            items[j as int],
            DocV::Text(s),
            j == ts.len() - 1,
            TrailingSeparator::OmitIfLast,
            id,
        ));
        if j + 1 == ts.len() {
            // The last element: the item, then the conditional separator,
            // skipped because the group is on record as flat.
            let inner = seq![
                DocV::Text(tj),
                DocV::Conditional(id, GroupMode::Broken, Box::new(DocV::Text(s))),
            ];
            assert(e == DocV::List(inner));
            let st1 = push_text(st, tj);
            assert(doc_print(inner[0], true, ind, o, st) == Some(st1));
            assert(st1.modes == st.modes);
            assert(doc_print(inner[1], true, ind, o, st1) == Some(st1));
            assert(seq_print(inner, 2, true, ind, o, st1) == Some(st1));
            assert(seq_print(inner, 1, true, ind, o, st1) == Some(st1));
            assert(seq_print(inner, 0, true, ind, o, st) == Some(st1));
            assert(doc_print(e, true, ind, o, st) == Some(st1));
            assert(2 * j + 1 == ll.len());
            assert(seq_print(ll, 2 * j + 1, true, ind, o, st1) == Some(st1));
            assert(seq_print(ll, 2 * j, true, ind, o, st) == Some(st1));
        } else {
            // An inner element: the item and its separator, then the
            // spacing soft line, rendered as one space.
            let inner = seq![DocV::Text(tj), DocV::Text(s)];
            assert(e == DocV::List(inner));
            let st1 = push_text(st, tj);
            let st2 = push_text(st1, s);
            assert(inner[0] == DocV::Text(tj));
            assert(inner[1] == DocV::Text(s));
            assert(doc_print(DocV::Text(tj), true, ind, o, st) == Some(st1));
            assert(doc_print(DocV::Text(s), true, ind, o, st1) == Some(st2));
            assert(seq_print(inner, 2, true, ind, o, st2) == Some(st2));
            assert(seq_print(inner, 1, true, ind, o, st1) == Some(st2));
            assert(seq_print(inner, 0, true, ind, o, st) == Some(st2));
            assert(doc_print(e, true, ind, o, st) == Some(st2));
            assert(ll[2 * (j as int) + 1] == sp);
            let st3 = push_text(st2, seq![' ']);
            assert(doc_print(sp, true, ind, o, st2) == Some(st3));
            assert(st3.modes == st.modes);
            lemma_sep_flat_from(ts, s, id, j + 1, ind, o, st3);
            assert(2 * (j + 1) == 2 * j + 2);
            assert(seq_print(ll, 2 * j + 2, true, ind, o, st3) == Some(
                push_text(st3, flat_tail(ts, s, j + 1)),
            ));
            assert(seq_print(ll, 2 * j + 1, true, ind, o, st2) == Some(
                push_text(st3, flat_tail(ts, s, j + 1)),
            ));
            assert(seq_print(ll, 2 * j, true, ind, o, st) == Some(
                push_text(st3, flat_tail(ts, s, j + 1)),
            ));
            lemma_push_push(st, tj, s);
            lemma_push_push(st, tj + s, seq![' ']);
            lemma_push_push(st, tj + s + seq![' '], flat_tail(ts, s, j + 1));
            assert(tj + s + seq![' '] + flat_tail(ts, s, j + 1) == flat_tail(ts, s, j));
        }
    }
}

/// TRAILING SEPARATOR, one-line side: a separated list of literal items
/// under the omit-if-last policy whose elements fit at the current column
/// prints on one line, as the items joined by the separator and one space,
/// with no separator after the last item.
pub proof fn lemma_separated_flat(
    ts: Seq<Seq<char>>,
    s: Seq<char>,
    id: u64,
    flat0: bool,
    ind: nat,
    o: FormatOptions,
    st: PState,
)
    requires
        ts.len() >= 1,
        group_fits(DocV::List(sep_list_elems(ts, s, id)), st.col, o),
    ensures
        doc_print(
            separated_view(text_docs(ts), DocV::Text(s), TrailingSeparator::OmitIfLast, id),
            flat0,
            ind,
            o,
            st,
        ) == Some(push_text(record_mode(st, id, true), flat_tail(ts, s, 0))),
{
    let ll = sep_list_elems(ts, s, id);
    let d = separated_view(text_docs(ts), DocV::Text(s), TrailingSeparator::OmitIfLast, id);
    assert(d == DocV::Group(Box::new(DocV::List(ll)), Some(id)));
    let st1 = record_mode(st, id, true);
    assert(st1.modes.last() == (id, GroupMode::Flat));
    assert(lookup_mode(st1.modes, id) == Some(GroupMode::Flat));
    lemma_sep_flat_from(ts, s, id, 0, ind, o, st1);
    assert(doc_print(DocV::List(ll), true, ind, o, st1) == Some(
        push_text(st1, flat_tail(ts, s, 0)),
    ));
}

} // verus!

verus! {

/// Printing the tail of a separated list's elements in broken mode, from
/// the element of item `j` on, while the list's group is on record as
/// broken and nothing is deferred.
proof fn lemma_sep_broken_from(
    ts: Seq<Seq<char>>,
    s: Seq<char>,
    id: u64,
    j: nat,
    ind: nat,
    o: FormatOptions,
    st: PState,
)
    requires
        ts.len() >= 1,
        j < ts.len(),
        lookup_mode(st.modes, id) == Some(GroupMode::Broken),
        st.pending == Seq::<Seq<char>>::empty(),
    ensures
        seq_print(sep_list_elems(ts, s, id), 2 * j, false, ind, o, st) == Some(
            PState {
                out: st.out + broken_tail(ts, s, nl_chars(o, ind), j),
                col: ts[ts.len() - 1].len() + s.len() + (if j + 1 == ts.len() {
                    st.col
                } else {
                    ind_chars(o, ind).len()
                }),
                pending: Seq::empty(),
                modes: st.modes,
            },
        ),
    decreases ts.len() - j,
{
    let items = text_docs(ts);
    let elems = sep_elems(items, DocV::Text(s), TrailingSeparator::OmitIfLast, id);
    let sp = DocV::Line(LineKind::SoftOrSpace);
    let ll = sep_list_elems(ts, s, id);
    assert(forall|i: int| 0 <= i < elems.len() ==> !((#[trigger] elems[i]) is Empty));
    lemma_join_shape(sp, elems);
    let tj = ts[j as int];
    let e = ll[2 * j as int];
    assert(e == sep_elem(
        items[j as int],
        DocV::Text(s),
        j == ts.len() - 1,
        TrailingSeparator::OmitIfLast,
        id,
    ));
    if j + 1 == ts.len() {
        // The last element: the conditional separator renders, because the
        // group is on record as broken.
        let inner = seq![
            DocV::Text(tj),
            DocV::Conditional(id, GroupMode::Broken, Box::new(DocV::Text(s))),
        ];
        assert(e == DocV::List(inner));
        let st1 = push_text(st, tj);
        let st2 = push_text(st1, s);
        assert(inner[0] == DocV::Text(tj));
        assert(doc_print(inner[0], false, ind, o, st) == Some(st1));
        assert(st1.modes == st.modes);
        assert(inner[1] == DocV::Conditional(id, GroupMode::Broken, Box::new(DocV::Text(s))));
        assert(lookup_mode(st1.modes, id) == Some(GroupMode::Broken));
        assert(doc_print(DocV::Text(s), false, ind, o, st1) == Some(st2));
        assert(doc_print(inner[1], false, ind, o, st1) == Some(st2));
        assert(seq_print(inner, 2, false, ind, o, st2) == Some(st2));
        assert(seq_print(inner, 1, false, ind, o, st1) == Some(st2));
        assert(seq_print(inner, 0, false, ind, o, st) == Some(st2));
        assert(doc_print(e, false, ind, o, st) == Some(st2));
        assert(2 * j + 1 == ll.len());
        assert(seq_print(ll, 2 * j + 1, false, ind, o, st2) == Some(st2));
        assert(seq_print(ll, 2 * j, false, ind, o, st) == Some(st2));
        assert(st2.out =~= st.out + broken_tail(ts, s, nl_chars(o, ind), j));
        assert(st2.pending =~= Seq::<Seq<char>>::empty());
    } else {
        // An inner element, then the spacing soft line, rendered as a real
        // break: deferred content (there is none) flushed, a newline, the
        // current indentation.
        let inner = seq![DocV::Text(tj), DocV::Text(s)];
        assert(e == DocV::List(inner));
        let st1 = push_text(st, tj);
        let st2 = push_text(st1, s);
        assert(inner[0] == DocV::Text(tj));
        assert(inner[1] == DocV::Text(s));
        assert(doc_print(DocV::Text(tj), false, ind, o, st) == Some(st1));
        assert(doc_print(DocV::Text(s), false, ind, o, st1) == Some(st2));
        assert(seq_print(inner, 2, false, ind, o, st2) == Some(st2));
        assert(seq_print(inner, 1, false, ind, o, st1) == Some(st2));
        assert(seq_print(inner, 0, false, ind, o, st) == Some(st2));
        assert(doc_print(e, false, ind, o, st) == Some(st2));
        assert(ll[2 * (j as int) + 1] == sp);
        let st3 = do_break(o, ind, st2);
        assert(doc_print(sp, false, ind, o, st2) == Some(st3));
        assert(st2.pending =~= Seq::<Seq<char>>::empty());
        assert(concat_all(Seq::<Seq<char>>::empty()) == Seq::<char>::empty());
        assert(st3.out =~= st.out + (tj + s + nl_chars(o, ind)));
        assert(st3.modes == st.modes);
        lemma_sep_broken_from(ts, s, id, j + 1, ind, o, st3);
        assert(2 * (j + 1) == 2 * j + 2);
        let st4 = PState {
            out: st3.out + broken_tail(ts, s, nl_chars(o, ind), j + 1),
            col: ts[ts.len() - 1].len() + s.len() + (if j + 2 == ts.len() {
                st3.col
            } else {
                ind_chars(o, ind).len()
            }),
            pending: Seq::empty(),
            modes: st3.modes,
        };
        assert(seq_print(ll, 2 * j + 2, false, ind, o, st3) == Some(st4));
        assert(seq_print(ll, 2 * j + 1, false, ind, o, st2) == Some(st4));
        assert(seq_print(ll, 2 * j, false, ind, o, st) == Some(st4));
        assert(st3.col == ind_chars(o, ind).len());
        assert(st4.out =~= st.out + broken_tail(ts, s, nl_chars(o, ind), j));
    }
}

/// TRAILING SEPARATOR, multi-line side: the same separated list, forced to
/// break (its flat rendering does not fit), renders every separator — the
/// one after the last item included — with a newline and the current
/// indentation between items.
pub proof fn lemma_separated_broken(
    ts: Seq<Seq<char>>,
    s: Seq<char>,
    id: u64,
    flat0: bool,
    ind: nat,
    o: FormatOptions,
    st: PState,
)
    requires
        ts.len() >= 1,
        !group_fits(DocV::List(sep_list_elems(ts, s, id)), st.col, o),
        st.pending == Seq::<Seq<char>>::empty(),
    ensures
        doc_print(
            separated_view(text_docs(ts), DocV::Text(s), TrailingSeparator::OmitIfLast, id),
            flat0,
            ind,
            o,
            st,
        ) == Some(
            PState {
                out: st.out + broken_tail(ts, s, nl_chars(o, ind), 0),
                col: ts[ts.len() - 1].len() + s.len() + (if ts.len() == 1 {
                    st.col
                } else {
                    ind_chars(o, ind).len()
                }),
                pending: Seq::empty(),
                modes: record_mode(st, id, false).modes,
            },
        ),
{
    let ll = sep_list_elems(ts, s, id);
    let d = separated_view(text_docs(ts), DocV::Text(s), TrailingSeparator::OmitIfLast, id);
    assert(d == DocV::Group(Box::new(DocV::List(ll)), Some(id)));
    let st1 = record_mode(st, id, false);
    assert(st1.modes.last() == (id, GroupMode::Broken));
    assert(lookup_mode(st1.modes, id) == Some(GroupMode::Broken));
    lemma_sep_broken_from(ts, s, id, 0, ind, o, st1);
    assert(doc_print(DocV::List(ll), false, ind, o, st1) == seq_print(ll, 0, false, ind, o, st1));
}

} // verus!

verus! {

// ---------------------------------------------------------------------------
// Idempotence on literal content.
// ---------------------------------------------------------------------------

/// A document of already-laid-out lines: the pieces as literal text, a hard
/// break between consecutive pieces.
pub open spec fn lines_docs(ps: Seq<Seq<char>>) -> Seq<DocV>
    decreases ps.len(),
{
    if ps.len() == 0 {
        Seq::empty()
    } else if ps.len() == 1 {
        seq![DocV::Text(ps[0])]
    } else {
        lines_docs(ps.drop_last()) + seq![DocV::Line(LineKind::Hard), DocV::Text(ps.last())]
    }
}

/// The pieces joined back with newlines.
pub open spec fn unlines(ps: Seq<Seq<char>>) -> Seq<char>
    decreases ps.len(),
{
    if ps.len() == 0 {
        Seq::empty()
    } else if ps.len() == 1 {
        ps[0]
    } else {
        unlines(ps.drop_last()) + seq!['\n'] + ps.last()
    }
}

/// The newline-joined pieces from `j` on.
pub open spec fn unlines_from(ps: Seq<Seq<char>>, j: nat) -> Seq<char>
    decreases (if j <= ps.len() { ps.len() - j } else { 0 }),
{
    if j >= ps.len() {
        Seq::empty()
    } else if j + 1 == ps.len() {
        ps[j as int]
    } else {
        ps[j as int] + seq!['\n'] + unlines_from(ps, j + 1)
    }
}

/// The two spellings of the joined pieces are one.
pub proof fn lemma_unlines_agree(ps: Seq<Seq<char>>)
    requires
        ps.len() >= 1,
    ensures
        unlines(ps) == unlines_from(ps, 0),
    decreases ps.len(),
{
    if ps.len() > 1 {
        lemma_unlines_agree(ps.drop_last());
        lemma_unlines_from_snoc(ps, 0);
    }
}

/// Extending the pieces by one extends the joined text by a newline and it.
proof fn lemma_unlines_from_snoc(ps: Seq<Seq<char>>, j: nat)
    requires
        ps.len() >= 2,
        j < ps.len() - 1,
    ensures
        unlines_from(ps, j) == unlines_from(ps.drop_last(), j) + seq!['\n'] + ps.last(),
    decreases ps.len() - j,
{
    if j + 1 < ps.len() - 1 {
        lemma_unlines_from_snoc(ps, j + 1);
    } else {
        assert(unlines_from(ps.drop_last(), j) == ps[j as int]);
        assert(unlines_from(ps, j + 1) == ps.last());
    }
    assert(unlines_from(ps, j) =~= unlines_from(ps.drop_last(), j) + seq!['\n'] + ps.last());
}

/// The shape of a literal-lines document: pieces at even positions, hard
/// breaks at odd ones.
pub proof fn lemma_lines_shape(ps: Seq<Seq<char>>)
    requires
        ps.len() >= 1,
    ensures
        lines_docs(ps).len() == 2 * ps.len() - 1,
        forall|j: int|
            0 <= j < ps.len() ==> #[trigger] lines_docs(ps)[2 * j] == DocV::Text(ps[j]),
        forall|j: int|
            0 <= j < ps.len() - 1 ==> #[trigger] lines_docs(ps)[2 * j + 1] == DocV::Line(
                LineKind::Hard,
            ),
    decreases ps.len(),
{
    if ps.len() > 1 {
        lemma_lines_shape(ps.drop_last());
        assert forall|j: int| 0 <= j < ps.len() implies #[trigger] lines_docs(ps)[2 * j]
            == DocV::Text(ps[j]) by {
            if j < ps.len() - 1 {
                assert(lines_docs(ps.drop_last())[2 * j] == DocV::Text(ps.drop_last()[j]));
            }
        }
        assert forall|j: int| 0 <= j < ps.len() - 1 implies #[trigger] lines_docs(ps)[2 * j + 1]
            == DocV::Line(LineKind::Hard) by {
            if j < ps.len() - 2 {
                assert(lines_docs(ps.drop_last())[2 * j + 1] == DocV::Line(LineKind::Hard));
            }
        }
    }
}

/// Printing the literal lines from piece `j` on, at indentation zero with
/// nothing deferred.
proof fn lemma_lines_from(ps: Seq<Seq<char>>, j: nat, o: FormatOptions, st: PState)
    requires
        ps.len() >= 1,
        j < ps.len(),
        st.pending == Seq::<Seq<char>>::empty(),
    ensures
        seq_print(lines_docs(ps), 2 * j, false, 0, o, st) == Some(
            PState {
                out: st.out + unlines_from(ps, j),
                col: (if j + 1 == ps.len() {
                    st.col + ps[j as int].len()
                } else {
                    ps[ps.len() - 1].len() as nat
                }),
                pending: Seq::empty(),
                modes: st.modes,
            },
        ),
    decreases ps.len() - j,
{
    let ll = lines_docs(ps);
    lemma_lines_shape(ps);
    let st1 = push_text(st, ps[j as int]);
    assert(doc_print(ll[2 * j as int], false, 0, o, st) == Some(st1));
    if j + 1 == ps.len() {
        assert(2 * j + 1 == ll.len());
        assert(seq_print(ll, 2 * j + 1, false, 0, o, st1) == Some(st1));
        assert(seq_print(ll, 2 * j, false, 0, o, st) == Some(st1));
        assert(st1.out =~= st.out + unlines_from(ps, j));
        assert(st1.pending =~= Seq::<Seq<char>>::empty());
    } else {
        assert(ll[2 * (j as int) + 1] == DocV::Line(LineKind::Hard));
        let st2 = do_break(o, 0, st1);
        assert(doc_print(DocV::Line(LineKind::Hard), false, 0, o, st1) == Some(st2));
        assert(st1.pending =~= Seq::<Seq<char>>::empty());
        assert(concat_all(Seq::<Seq<char>>::empty()) == Seq::<char>::empty());
        assert(ind_chars(o, 0) == Seq::<char>::empty());
        assert(st2.out =~= st.out + (ps[j as int] + seq!['\n']));
        assert(st2.col == 0);
        assert(st2.modes == st.modes);
        lemma_lines_from(ps, j + 1, o, st2);
        assert(2 * (j + 1) == 2 * j + 2);
        let st3 = PState {
            out: st2.out + unlines_from(ps, j + 1),
            col: (if j + 2 == ps.len() {
                st2.col + ps[j as int + 1].len()
            } else {
                ps[ps.len() - 1].len() as nat
            }),
            pending: Seq::empty(),
            modes: st2.modes,
        };
        assert(seq_print(ll, 2 * j + 2, false, 0, o, st2) == Some(st3));
        assert(seq_print(ll, 2 * j + 1, false, 0, o, st1) == Some(st3));
        assert(seq_print(ll, 2 * j, false, 0, o, st) == Some(st3));
        assert(st3.out =~= st.out + unlines_from(ps, j));
        if j + 2 == ps.len() {
            assert(ps[j as int + 1].len() == ps[ps.len() - 1].len());
        }
    }
}

/// IDEMPOTENCE on literal content: a document of already-laid-out lines
/// renders to exactly those lines. So the printer's own output, read back
/// as literal lines, renders to byte-identical output: formatting what is
/// already formatted changes nothing.
pub proof fn lemma_literal_roundtrip(ps: Seq<Seq<char>>, o: FormatOptions)
    requires
        ps.len() >= 1,
    ensures
        crate::printer::render_spec(DocV::List(lines_docs(ps)), o) == Some(unlines(ps)),
{
    let init = crate::printer::init_state();
    assert(init.pending =~= Seq::<Seq<char>>::empty());
    lemma_lines_from(ps, 0, o, init);
    lemma_unlines_agree(ps);
    let stf = PState {
        out: init.out + unlines_from(ps, 0),
        col: (if 1 == ps.len() {
            init.col + ps[0].len()
        } else {
            ps[ps.len() - 1].len() as nat
        }),
        pending: Seq::empty(),
        modes: init.modes,
    };
    assert(doc_print(DocV::List(lines_docs(ps)), false, 0, o, init) == Some(stf));
    assert(concat_all(stf.pending) == Seq::<char>::empty());
    assert(stf.out + concat_all(stf.pending) =~= unlines(ps));
}

// ---------------------------------------------------------------------------
// Fill wrapping and deferred-content flushing.
// ---------------------------------------------------------------------------

/// FILL WRAPPING: in a fill of literal items joined by spacing soft lines,
/// the item after a gap stays on the current line exactly when one space
/// and the item still fit within the print width; otherwise the gap breaks
/// and the item begins on a fresh line, first on it, right after the
/// indentation.
pub proof fn lemma_fill_gap(
    fd: DocV,
    t: Seq<char>,
    i: nat,
    ind: nat,
    o: FormatOptions,
    st: PState,
)
    requires
        fd is Fill,
        *fd->Fill_1 == DocV::Line(LineKind::SoftOrSpace),
        1 <= i < fd->Fill_0.len(),
        fd->Fill_0[i as int] == DocV::Text(t),
        st.pending == Seq::<Seq<char>>::empty(),
    ensures
        st.col + 1 + t.len() <= o.print_width ==> crate::printer::fill_print(
            fd,
            i,
            ind,
            o,
            st,
        ) == crate::printer::fill_print(fd, i + 1, ind, o, push_text(st, seq![' '] + t)),
        st.col + 1 + t.len() > o.print_width ==> crate::printer::fill_print(
            fd,
            i,
            ind,
            o,
            st,
        ) == crate::printer::fill_print(
            fd,
            i + 1,
            ind,
            o,
            push_text(do_break(o, ind, st), t),
        ),
{
    let sep = *fd->Fill_1;
    let item = fd->Fill_0[i as int];
    assert(flat_len(sep) == 1);
    assert(flat_len(item) == t.len());
    assert(!forced_break(sep) && !forced_break(item));
    if st.col + 1 + t.len() <= o.print_width {
        let st1 = push_text(st, seq![' ']);
        assert(doc_print(sep, true, ind, o, st) == Some(st1));
        assert(doc_print(item, true, ind, o, st1) == Some(push_text(st1, t)));
        lemma_push_push(st, seq![' '], t);
    } else {
        let st1 = do_break(o, ind, st);
        assert(doc_print(sep, false, ind, o, st) == Some(st1));
        assert(doc_print(item, true, ind, o, st1) == Some(push_text(st1, t)));
    }
}

/// FORCED BREAKS: a group holding a hard line anywhere in its subtree can
/// never render flat, whatever the width: its mode is decided broken, and
/// recorded so before the content is printed.
pub proof fn lemma_hard_break_forces_broken(
    c: DocV,
    id: Option<u64>,
    flat0: bool,
    ind: nat,
    o: FormatOptions,
    st: PState,
)
    requires
        forced_break(c),
    ensures
        ({
            let st1 = match id {
                Some(g) => record_mode(st, g, false),
                None => st,
            };
            doc_print(DocV::Group(Box::new(c), id), flat0, ind, o, st) == doc_print(
                c,
                false,
                ind,
                o,
                st1,
            )
        }),
{
    assert(!group_fits(c, st.col, o));
}

/// TRIVIA FLUSHING: deferred line-suffix content is emitted exactly once,
/// verbatim, after everything queued before it and immediately before the
/// next real newline.
pub proof fn lemma_suffix_flush(c: DocV, flat: bool, ind: nat, o: FormatOptions, st: PState)
    ensures
        doc_print(
            DocV::List(seq![DocV::LineSuffix(Box::new(c)), DocV::Line(LineKind::Hard)]),
            flat,
            ind,
            o,
            st,
        ) == Some(
            PState {
                out: st.out + concat_all(st.pending) + flat_text(c) + seq!['\n'] + ind_chars(
                    o,
                    ind,
                ),
                col: ind_chars(o, ind).len(),
                pending: Seq::empty(),
                modes: st.modes,
            },
        ),
{
    let items = seq![DocV::LineSuffix(Box::new(c)), DocV::Line(LineKind::Hard)];
    let st1 = PState { pending: st.pending.push(flat_text(c)), ..st };
    assert(items[0] == DocV::LineSuffix(Box::new(c)));
    assert(doc_print(items[0], flat, ind, o, st) == Some(st1));
    let st2 = do_break(o, ind, st1);
    assert(doc_print(items[1], flat, ind, o, st1) == Some(st2));
    assert(seq_print(items, 2, flat, ind, o, st2) == Some(st2));
    assert(seq_print(items, 1, flat, ind, o, st1) == Some(st2));
    assert(seq_print(items, 0, flat, ind, o, st) == Some(st2));
    crate::printer::lemma_concat_prefix(st.pending.push(flat_text(c)), st.pending.len() as int);
    assert(st.pending.push(flat_text(c)).subrange(0, st.pending.len() as int) =~= st.pending);
    assert(st.pending.push(flat_text(c)).subrange(0, st.pending.len() as int + 1) =~= st
        .pending.push(flat_text(c)));
    assert(st2.out =~= st.out + concat_all(st.pending) + flat_text(c) + seq!['\n'] + ind_chars(
        o,
        ind,
    ));
    assert(st2.pending =~= Seq::<Seq<char>>::empty());
}

} // verus!

verus! {

/// The models of a sequence of text pieces.
pub open spec fn pieces_views(s: Seq<Vec<char>>) -> Seq<Seq<char>> {
    Seq::new(s.len(), |i: int| s[i]@)
}

/// The text a partial split accounts for: the finished pieces joined by
/// newlines, then the piece still being read.
pub open spec fn joined(vs: Seq<Seq<char>>, cur: Seq<char>) -> Seq<char> {
    if vs.len() == 0 {
        cur
    } else {
        unlines(vs) + seq!['\n'] + cur
    }
}

/// Splits rendered text into its lines: the pieces joined back with
/// newlines are the text again.
pub fn split_lines(t: &Vec<char>) -> (r: Vec<Vec<char>>)
    ensures
        r@.len() >= 1,
        unlines(pieces_views(r@)) == t@,
{
    let mut pieces: Vec<Vec<char>> = Vec::new();
    let mut cur: Vec<char> = Vec::new();
    let mut i: usize = 0;
    proof {
        assert(joined(pieces_views(pieces@), cur@) =~= t@.subrange(0, 0));
    }
    while i < t.len()
        invariant
            i <= t.len(),
            joined(pieces_views(pieces@), cur@) == t@.subrange(0, i as int),
        decreases t.len() - i,
    {
        let ghost vs0 = pieces_views(pieces@);
        let ghost cur0 = cur@;
        let c = t[i];
        if c == '\n' {
            pieces.push(cur);
            cur = Vec::new();
            proof {
                assert(pieces_views(pieces@) =~= vs0.push(cur0));
                assert(vs0.push(cur0).drop_last() =~= vs0);
                if vs0.len() == 0 {
                    assert(unlines(vs0.push(cur0)) == cur0);
                } else {
                    assert(unlines(vs0.push(cur0)) == unlines(vs0) + seq!['\n'] + cur0);
                }
                assert(joined(pieces_views(pieces@), cur@) =~= t@.subrange(0, i as int + 1));
            }
        } else {
            cur.push(c);
            proof {
                assert(joined(vs0, cur@) =~= t@.subrange(0, i as int + 1));
            }
        }
        i = i + 1;
    }
    proof {
        assert(t@.subrange(0, t@.len() as int) =~= t@);
    }
    let ghost vs1 = pieces_views(pieces@);
    let ghost cur1 = cur@;
    pieces.push(cur);
    proof {
        assert(pieces_views(pieces@) =~= vs1.push(cur1));
        assert(vs1.push(cur1).drop_last() =~= vs1);
        if vs1.len() == 0 {
            assert(unlines(vs1.push(cur1)) == cur1);
        } else {
            assert(unlines(vs1.push(cur1)) == unlines(vs1) + seq!['\n'] + cur1);
        }
    }
    pieces
}

/// Reads text pieces back as a literal-lines document: each piece verbatim,
/// a hard break between consecutive pieces.
pub fn lines_to_doc(pieces: &Vec<Vec<char>>) -> (r: crate::doc::Doc)
    ensures
        r@ == DocV::List(lines_docs(pieces_views(pieces@))),
{
    let ghost ps = pieces_views(pieces@);
    let mut out: Vec<crate::doc::Doc> = Vec::new();
    let mut i: usize = 0;
    proof {
        assert(crate::doc::views_of(out@) =~= lines_docs(ps.subrange(0, 0)));
    }
    while i < pieces.len()
        invariant
            i <= pieces@.len(),
            ps == pieces_views(pieces@),
            crate::doc::views_of(out@) == lines_docs(ps.subrange(0, i as int)),
        decreases pieces@.len() - i,
    {
        let ghost out0 = crate::doc::views_of(out@);
        if i > 0 {
            out.push(crate::doc::Doc::Line(LineKind::Hard));
        }
        let piece = crate::builders::clone_chars(&pieces[i]);
        out.push(crate::doc::Doc::Text(piece));
        proof {
            assert(ps.subrange(0, i as int + 1).drop_last() =~= ps.subrange(0, i as int));
            assert(ps.subrange(0, i as int + 1).last() == ps[i as int]);
            assert(ps[i as int] == pieces@[i as int]@);
            if i == 0 {
                assert(crate::doc::views_of(out@) =~= seq![DocV::Text(ps[0])]);
            } else {
                assert(crate::doc::views_of(out@) =~= out0 + seq![
                    DocV::Line(LineKind::Hard),
                    DocV::Text(ps[i as int]),
                ]);
            }
            assert(crate::doc::views_of(out@) =~= lines_docs(ps.subrange(0, i as int + 1)));
        }
        i = i + 1;
    }
    proof {
        assert(ps.subrange(0, ps.len() as int) =~= ps);
    }
    crate::doc::Doc::List(out)
}

} // verus!

verus! {

/// Content whose flat rendering the fits check fully accounts for: text,
/// spaces, lines, indentation, concatenation and nested groups; no fill,
/// no conditional content, no deferred suffix.
pub open spec fn solid(d: DocV) -> bool
    decreases d, 1nat, 0nat,
{
    match d {
        DocV::Empty => true,
        DocV::Text(_) => true,
        DocV::Space => true,
        DocV::Line(_) => true,
        DocV::Indent(c) => solid(*c),
        DocV::Group(c, _) => solid(*c),
        DocV::List(items) => seq_solid(items, 0),
        DocV::Fill(_, _) => false,
        DocV::Conditional(_, _, _) => false,
        DocV::LineSuffix(_) => false,
    }
}

/// Whether the items from index `i` on are all solid.
pub open spec fn seq_solid(items: Seq<DocV>, i: nat) -> bool
    decreases items, 0nat, (if i <= items.len() { items.len() - i } else { 0 }),
{
    if i >= items.len() {
        true
    } else {
        solid(items[i as int]) && seq_solid(items, i + 1)
    }
}

/// Solid content without a forced break, printed flat within the width
/// budget, appends exactly its flat text — nested groups included, since
/// each of them fits wherever the whole does — and defers nothing.
pub proof fn lemma_flat_print_solid(d: DocV, ind: nat, o: FormatOptions, st: PState)
    requires
        solid(d),
        !forced_break(d),
        st.col >= 1,
        st.col + flat_len(d) <= o.print_width,
    ensures
        ({
            let r = doc_print(d, true, ind, o, st);
            &&& r is Some
            &&& r->0.out == st.out + flat_text(d)
            &&& r->0.col == st.col + flat_len(d)
            &&& r->0.pending == st.pending
        }),
    decreases d, 1nat, 0nat,
{
    match d {
        DocV::Empty => {
            assert(st.out + flat_text(d) =~= st.out);
        },
        DocV::Text(_) => {},
        DocV::Space => {},
        DocV::Line(k) => {
            if k is Soft || k is EmptyIfBroken {
                assert(st.out + flat_text(d) =~= st.out);
            }
        },
        DocV::Indent(c) => {
            lemma_flat_print_solid(*c, crate::printer::inc_ind(ind), o, st);
        },
        DocV::Group(c, id) => {
            assert(group_fits(*c, st.col, o));
            let st1 = match id {
                Some(g) => record_mode(st, g, true),
                None => st,
            };
            lemma_flat_print_solid(*c, ind, o, st1);
        },
        DocV::List(items) => {
            lemma_flat_print_solid_seq(items, 0, ind, o, st);
        },
        _ => {},
    }
}

/// The list form of `lemma_flat_print_solid`.
pub proof fn lemma_flat_print_solid_seq(
    items: Seq<DocV>,
    i: nat,
    ind: nat,
    o: FormatOptions,
    st: PState,
)
    requires
        seq_solid(items, i),
        !seq_forced(items, i),
        st.col >= 1,
        st.col + crate::printer::seq_flat_len(items, i) <= o.print_width,
    ensures
        ({
            let r = seq_print(items, i, true, ind, o, st);
            &&& r is Some
            &&& r->0.out == st.out + seq_flat_text(items, i)
            &&& r->0.col == st.col + crate::printer::seq_flat_len(items, i)
            &&& r->0.pending == st.pending
        }),
    decreases items, 0nat, (if i <= items.len() { items.len() - i } else { 0 }),
{
    if i >= items.len() {
        assert(st.out + seq_flat_text(items, i) =~= st.out);
    } else {
        lemma_flat_print_solid(items[i as int], ind, o, st);
        let st1 = doc_print(items[i as int], true, ind, o, st)->0;
        lemma_flat_print_solid_seq(items, i + 1, ind, o, st1);
        assert(st1.out + seq_flat_text(items, i + 1) =~= st.out + seq_flat_text(items, i));
    }
}

/// WIDTH RESPECT, nested form: a group of solid content — nested groups
/// and all — whose flat rendering fits at the current column prints on the
/// current line and ends at a column that does not exceed the print width.
pub proof fn lemma_group_width_respect_solid(
    c: DocV,
    id: Option<u64>,
    flat0: bool,
    ind: nat,
    o: FormatOptions,
    st: PState,
)
    requires
        solid(c),
        st.col >= 1,
        group_fits(c, st.col, o),
    ensures
        ({
            let r = doc_print(DocV::Group(Box::new(c), id), flat0, ind, o, st);
            &&& r is Some
            &&& r->0.out == st.out + flat_text(c)
            &&& r->0.col == st.col + flat_len(c)
            &&& r->0.col <= o.print_width
            &&& r->0.pending == st.pending
        }),
{
    let st1 = match id {
        Some(g) => record_mode(st, g, true),
        None => st,
    };
    lemma_flat_print_solid(c, ind, o, st1);
}

} // verus!
