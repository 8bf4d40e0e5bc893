//! The document intermediate representation: the algebra of formatting
//! instructions that per-construct formatters emit and the printer consumes.

use vstd::prelude::*;

verus! {

/// How a breakable line renders, depending on the enclosing group's decision.
#[derive(Clone, Copy, PartialEq, Eq, Structural, Debug)]
pub enum LineKind {
    /// Nothing when the group is flat, a newline when it is broken.
    Soft,
    /// One space when the group is flat, a newline when it is broken.
    SoftOrSpace,
    /// Always a newline; forces the enclosing group to break.
    Hard,
    /// Nothing when the group is flat, but still forces it to break.
    EmptyIfBroken,
}

/// The break decision of a group: all its lines render flat, or all broken.
#[derive(Clone, Copy, PartialEq, Eq, Structural, Debug)]
pub enum GroupMode {
    Flat,
    Broken,
}

/// A document: one node of the formatting-instruction tree.
///
/// Immutable once built; constructed bottom-up by the builder vocabulary and
/// consumed by the printer.
pub enum Doc {
    /// Contributes nothing.
    Empty,
    /// A literal token, copied verbatim, never itself broken.
    Text(Vec<char>),
    /// A single elastic space; collapses to nothing at the start of a line.
    Space,
    /// A break candidate whose rendering follows the enclosing group's mode.
    Line(LineKind),
    /// Raises the indentation level of the child by one unit.
    Indent(Box<Doc>),
    /// The atomic break-decision boundary, with an optional identity that
    /// conditional content can refer to.
    Group(Box<Doc>, Option<u64>),
    /// Greedily packs the items onto lines, rendering the separator between
    /// them, breaking only where the next item would overflow the width.
    Fill(Vec<Doc>, Box<Doc>),
    /// Renders the child only if the group with the given identity was
    /// decided to the given mode.
    Conditional(u64, GroupMode, Box<Doc>),
    /// Content attached to the current position but deferred until just
    /// before the next real newline (or the end of the output).
    LineSuffix(Box<Doc>),
    /// Plain concatenation; separators, if any, were placed by the builders.
    List(Vec<Doc>),
}

/// The mathematical model of a document, with sequences for text and children.
pub enum DocV {
    Empty,
    Text(Seq<char>),
    Space,
    Line(LineKind),
    Indent(Box<DocV>),
    Group(Box<DocV>, Option<u64>),
    Fill(Seq<DocV>, Box<DocV>),
    Conditional(u64, GroupMode, Box<DocV>),
    LineSuffix(Box<DocV>),
    List(Seq<DocV>),
}

/// The model of a document value.
pub open spec fn doc_view(d: Doc) -> DocV
    decreases d, 1nat,
{
    match d {
        Doc::Empty => DocV::Empty,
        Doc::Text(t) => DocV::Text(t@),
        Doc::Space => DocV::Space,
        Doc::Line(k) => DocV::Line(k),
        Doc::Indent(c) => DocV::Indent(Box::new(doc_view(*c))),
        Doc::Group(c, id) => DocV::Group(Box::new(doc_view(*c)), id),
        Doc::Fill(items, sep) => DocV::Fill(views_of(items@), Box::new(doc_view(*sep))),
        Doc::Conditional(id, m, c) => DocV::Conditional(id, m, Box::new(doc_view(*c))),
        Doc::LineSuffix(c) => DocV::LineSuffix(Box::new(doc_view(*c))),
        Doc::List(items) => DocV::List(views_of(items@)),
    }
}

/// The models of a sequence of documents, element by element.
pub open spec fn views_of(s: Seq<Doc>) -> Seq<DocV>
    decreases s, 0nat,
{
    Seq::new(s.len(), |i: int| if 0 <= i < s.len() { doc_view(s[i]) } else { DocV::Empty })
}

impl View for Doc {
    type V = DocV;

    open spec fn view(&self) -> DocV {
        doc_view(*self)
    }
}

} // verus!
