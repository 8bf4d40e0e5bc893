//! The builder vocabulary: the sanctioned constructors for recurring
//! document patterns, so every per-construct formatter produces structurally
//! consistent output.

use vstd::prelude::*;
use vstd::string::StrSliceExecFns;

use crate::doc::{views_of, Doc, DocV, GroupMode, LineKind};
use crate::options::TrailingSeparator;

verus! {

/// The characters of a string slice, as a vector.
pub fn chars_of(s: &str) -> (r: Vec<char>)
    ensures
        r@ == s@,
{
    let mut v: Vec<char> = Vec::new();
    let n = s.unicode_len();
    let mut i: usize = 0;
    while i < n
        invariant
            i <= n,
            n == s@.len(),
            v@ == s@.subrange(0, i as int),
        decreases n - i,
    {
        let c = s.get_char(i);
        v.push(c);
        proof {
            assert(v@ =~= s@.subrange(0, i as int + 1));
        }
        i = i + 1;
    }
    proof {
        assert(s@.subrange(0, s@.len() as int) =~= s@);
    }
    v
}

/// A copy of a character vector.
pub fn clone_chars(t: &Vec<char>) -> (r: Vec<char>)
    ensures
        r@ == t@,
{
    let mut v: Vec<char> = Vec::new();
    let mut i: usize = 0;
    while i < t.len()
        invariant
            i <= t.len(),
            v@ == t@.subrange(0, i as int),
        decreases t.len() - i,
    {
        let c = t[i];
        v.push(c);
        proof {
            assert(v@ =~= t@.subrange(0, i as int + 1));
        }
        i = i + 1;
    }
    proof {
        assert(t@.subrange(0, t@.len() as int) =~= t@);
    }
    v
}

/// A structurally equal copy of a document.
pub fn clone_doc(d: &Doc) -> (r: Doc)
    ensures
        r@ == d@,
    decreases d, 1nat, 0nat,
{
    match d {
        Doc::Empty => Doc::Empty,
        Doc::Text(t) => Doc::Text(clone_chars(t)),
        Doc::Space => Doc::Space,
        Doc::Line(k) => Doc::Line(*k),
        Doc::Indent(c) => Doc::Indent(Box::new(clone_doc(&**c))),
        Doc::Group(c, id) => Doc::Group(Box::new(clone_doc(&**c)), *id),
        Doc::Fill(items, sep) => Doc::Fill(clone_docs(items), Box::new(clone_doc(&**sep))),
        Doc::Conditional(g, m, c) => Doc::Conditional(*g, *m, Box::new(clone_doc(&**c))),
        Doc::LineSuffix(c) => Doc::LineSuffix(Box::new(clone_doc(&**c))),
        Doc::List(items) => Doc::List(clone_docs(items)),
    }
}

/// Structurally equal copies of a sequence of documents.
pub fn clone_docs(items: &Vec<Doc>) -> (r: Vec<Doc>)
    ensures
        r@.len() == items@.len(),
        views_of(r@) == views_of(items@),
    decreases items@, 0nat, 0nat,
{
    let mut r: Vec<Doc> = Vec::new();
    let mut i: usize = 0;
    while i < items.len()
        invariant
            i <= items@.len(),
            r@.len() == i,
            forall|j: int| 0 <= j < i ==> r@[j]@ == items@[j]@,
        decreases items@.len() - i,
    {
        let c = clone_doc(&items[i]);
        r.push(c);
        i = i + 1;
    }
    proof {
        assert(views_of(r@) =~= views_of(items@));
    }
    r
}

/// A document that contributes nothing.
pub fn empty_doc() -> (r: Doc)
    ensures
        r@ == DocV::Empty,
{
    Doc::Empty
}

/// A literal token.
pub fn text(s: &str) -> (r: Doc)
    ensures
        r@ == DocV::Text(s@),
{
    Doc::Text(chars_of(s))
}

/// A single elastic space.
pub fn space() -> (r: Doc)
    ensures
        r@ == DocV::Space,
{
    Doc::Space
}

/// A break candidate of the given kind.
pub fn line(k: LineKind) -> (r: Doc)
    ensures
        r@ == DocV::Line(k),
{
    Doc::Line(k)
}

/// Nothing when the enclosing group is flat, a newline when it is broken.
pub fn soft_line_break() -> (r: Doc)
    ensures
        r@ == DocV::Line(LineKind::Soft),
{
    Doc::Line(LineKind::Soft)
}

/// One space when the enclosing group is flat, a newline plus the current
/// indentation when it is broken.
pub fn soft_line_break_or_space() -> (r: Doc)
    ensures
        r@ == DocV::Line(LineKind::SoftOrSpace),
{
    Doc::Line(LineKind::SoftOrSpace)
}

/// An unconditional newline; forces every enclosing group to break.
pub fn hard_line_break() -> (r: Doc)
    ensures
        r@ == DocV::Line(LineKind::Hard),
{
    Doc::Line(LineKind::Hard)
}

/// One more indentation level for the child.
pub fn indent(d: Doc) -> (r: Doc)
    ensures
        r@ == DocV::Indent(Box::new(d@)),
{
    Doc::Indent(Box::new(d))
}

/// A break-decision boundary without an identity.
pub fn group(d: Doc) -> (r: Doc)
    ensures
        r@ == DocV::Group(Box::new(d@), None),
{
    Doc::Group(Box::new(d), None)
}

/// A break-decision boundary whose decision other content can refer to.
pub fn group_with_id(d: Doc, id: u64) -> (r: Doc)
    ensures
        r@ == DocV::Group(Box::new(d@), Some(id)),
{
    Doc::Group(Box::new(d), Some(id))
}

/// Content rendered only if the named group was decided broken.
pub fn if_group_broken(id: u64, d: Doc) -> (r: Doc)
    ensures
        r@ == DocV::Conditional(id, GroupMode::Broken, Box::new(d@)),
{
    Doc::Conditional(id, GroupMode::Broken, Box::new(d))
}

/// Content rendered only if the named group was decided flat.
pub fn if_group_flat(id: u64, d: Doc) -> (r: Doc)
    ensures
        r@ == DocV::Conditional(id, GroupMode::Flat, Box::new(d@)),
{
    Doc::Conditional(id, GroupMode::Flat, Box::new(d))
}

/// Content deferred until just before the next real newline, such as a
/// trailing same-line comment.
pub fn line_suffix(d: Doc) -> (r: Doc)
    ensures
        r@ == DocV::LineSuffix(Box::new(d@)),
{
    Doc::LineSuffix(Box::new(d))
}

/// Plain concatenation of already-assembled parts.
pub fn list(items: Vec<Doc>) -> (r: Doc)
    ensures
        r@ == DocV::List(views_of(items@)),
{
    Doc::List(items)
}

/// Greedy line packing of the items, with the separator in every gap.
pub fn fill(items: Vec<Doc>, separator: Doc) -> (r: Doc)
    ensures
        r@ == DocV::Fill(views_of(items@), Box::new(separator@)),
{
    Doc::Fill(items, Box::new(separator))
}

/// The interleaving a `join` produces: the separator stands between
/// consecutive non-empty items, and empty items vanish without one.
pub open spec fn join_of(sep: DocV, items: Seq<DocV>) -> Seq<DocV>
    decreases items.len(),
{
    if items.len() == 0 {
        Seq::empty()
    } else {
        let pre = join_of(sep, items.drop_last());
        let x = items.last();
        if x is Empty {
            pre
        } else if pre.len() == 0 {
            seq![x]
        } else {
            pre + seq![sep, x]
        }
    }
}

/// Whether a document is the empty document.
fn is_empty_doc(d: &Doc) -> (r: bool)
    ensures
        r == (d@ is Empty),
{
    match d {
        Doc::Empty => true,
        _ => false,
    }
}

/// Interleaves the separator between consecutive non-empty items, skipping
/// separators around empty ones.
pub fn join(separator: &Doc, items: Vec<Doc>) -> (r: Doc)
    ensures
        r@ == DocV::List(join_of(separator@, views_of(items@))),
{
    let ghost vs = views_of(items@);
    let mut out: Vec<Doc> = Vec::new();
    let mut i: usize = 0;
    proof {
        assert(views_of(out@) =~= join_of(separator@, vs.subrange(0, 0)));
    }
    while i < items.len()
        invariant
            i <= items@.len(),
            vs == views_of(items@),
            views_of(out@) == join_of(separator@, vs.subrange(0, i as int)),
        decreases items@.len() - i,
    {
        let ghost pre = join_of(separator@, vs.subrange(0, i as int));
        let ghost out0 = out@;
        if !is_empty_doc(&items[i]) {
            if out.len() > 0 {
                let s = clone_doc(separator);
                out.push(s);
            }
            let it = clone_doc(&items[i]);
            out.push(it);
        }
        proof {
            assert(vs.subrange(0, i as int + 1).drop_last() =~= vs.subrange(0, i as int));
            assert(vs.subrange(0, i as int + 1).last() == vs[i as int]);
            assert(out0.len() == pre.len());
            if vs[i as int] is Empty {
                assert(views_of(out@) =~= pre);
            } else if pre.len() == 0 {
                assert(views_of(out@) =~= seq![vs[i as int]]);
            } else {
                assert(views_of(out@) =~= pre + seq![separator@, vs[i as int]]);
            }
        }
        i = i + 1;
    }
    proof {
        assert(vs.subrange(0, vs.len() as int) =~= vs);
    }
    Doc::List(out)
}

/// `join` with no separator, for constructs whose children delimit
/// themselves.
pub fn format_list(items: Vec<Doc>) -> (r: Doc)
    ensures
        r@ == DocV::List(join_of(DocV::Empty, views_of(items@))),
{
    let sep = Doc::Empty;
    join(&sep, items)
}

/// One element of a separated list: the item, followed by the separator for
/// every non-last item, and for the last item by what the trailing policy
/// asks: the separator itself, nothing, or the separator only if the group
/// with the given identity broke.
pub open spec fn sep_elem(
    item: DocV,
    sep: DocV,
    last: bool,
    policy: TrailingSeparator,
    id: u64,
) -> DocV {
    if !last {
        DocV::List(seq![item, sep])
    } else {
        match policy {
            TrailingSeparator::Always => DocV::List(seq![item, sep]),
            TrailingSeparator::Never => item,
            TrailingSeparator::OmitIfLast => DocV::List(
                seq![item, DocV::Conditional(id, GroupMode::Broken, Box::new(sep))],
            ),
        }
    }
}

/// The elements a `format_separated` produces, in order.
pub open spec fn sep_elems(
    items: Seq<DocV>,
    sep: DocV,
    policy: TrailingSeparator,
    id: u64,
) -> Seq<DocV> {
    Seq::new(items.len(), |i: int| sep_elem(items[i], sep, i == items.len() - 1, policy, id))
}

/// Attaches the separator to each item of an ordered, conceptually
/// comma-separated sequence, the trailing one governed by the policy; the
/// caller joins the elements with soft lines and wraps them in the group
/// whose identity `group_id` names.
pub fn format_separated(
    items: Vec<Doc>,
    separator: &Doc,
    policy: TrailingSeparator,
    group_id: u64,
) -> (r: Vec<Doc>)
    ensures
        views_of(r@) == sep_elems(views_of(items@), separator@, policy, group_id),
{
    let ghost vs = views_of(items@);
    let mut r: Vec<Doc> = Vec::new();
    let mut i: usize = 0;
    while i < items.len()
        invariant
            i <= items@.len(),
            vs == views_of(items@),
            r@.len() == i,
            forall|j: int|
                0 <= j < i ==> r@[j]@ == sep_elem(
                    vs[j],
                    separator@,
                    j == vs.len() - 1,
                    policy,
                    group_id,
                ),
        decreases items@.len() - i,
    {
        let item = clone_doc(&items[i]);
        let last = i + 1 == items.len();
        let e: Doc = if !last {
            let mut pair: Vec<Doc> = Vec::new();
            pair.push(item);
            pair.push(clone_doc(separator));
            proof {
                assert(views_of(pair@) =~= seq![vs[i as int], separator@]);
            }
            Doc::List(pair)
        } else {
            match policy {
                TrailingSeparator::Always => {
                    let mut pair: Vec<Doc> = Vec::new();
                    pair.push(item);
                    pair.push(clone_doc(separator));
                    proof {
                        assert(views_of(pair@) =~= seq![vs[i as int], separator@]);
                    }
                    Doc::List(pair)
                },
                TrailingSeparator::Never => item,
                TrailingSeparator::OmitIfLast => {
                    let mut pair: Vec<Doc> = Vec::new();
                    pair.push(item);
                    let cond = Doc::Conditional(
                        group_id,
                        GroupMode::Broken,
                        Box::new(clone_doc(separator)),
                    );
                    pair.push(cond);
                    proof {
                        assert(views_of(pair@) =~= seq![
                            vs[i as int],
                            DocV::Conditional(group_id, GroupMode::Broken, Box::new(separator@)),
                        ]);
                    }
                    Doc::List(pair)
                },
            }
        };
        r.push(e);
        i = i + 1;
    }
    proof {
        assert(views_of(r@) =~= sep_elems(vs, separator@, policy, group_id));
    }
    r
}

/// The document a `separated_list` builds: nothing for an empty item list,
/// else the separated elements joined by spacing soft lines inside the group
/// whose identity the conditional trailing separator refers to.
pub open spec fn separated_view(
    items: Seq<DocV>,
    sep: DocV,
    policy: TrailingSeparator,
    id: u64,
) -> DocV {
    if items.len() == 0 {
        DocV::Empty
    } else {
        DocV::Group(
            Box::new(
                DocV::List(
                    join_of(DocV::Line(LineKind::SoftOrSpace), sep_elems(items, sep, policy, id)),
                ),
            ),
            Some(id),
        )
    }
}

/// A whole separated list: items with their separators, joined by
/// space-or-newline soft lines, inside a group with the given identity.
pub fn separated_list(
    items: Vec<Doc>,
    separator: &Doc,
    policy: TrailingSeparator,
    group_id: u64,
) -> (r: Doc)
    ensures
        r@ == separated_view(views_of(items@), separator@, policy, group_id),
{
    if items.len() == 0 {
        return Doc::Empty;
    }
    let elems = format_separated(items, separator, policy, group_id);
    let sep = soft_line_break_or_space();
    let joined = join(&sep, elems);
    group_with_id(joined, group_id)
}

} // verus!
