//! The dispatch layer: the uniform capability "produce the document for this
//! syntax node, given the context". The core depends only on this
//! capability, never on concrete node kinds; each kind implements it once,
//! so absence is a build error, not a runtime one.

use vstd::prelude::*;

use crate::builders::{
    clone_chars, clone_docs, format_list, join_of, separated_list, separated_view, text,
};
use crate::doc::{views_of, Doc, DocV};
use crate::options::{FormatFailure, FormatOptions};

verus! {

/// Read-mostly state threaded through the whole traversal: the layout
/// configuration. Per-node overrides are passed explicitly, never through
/// hidden mutation.
pub struct FormatContext {
    pub options: FormatOptions,
}

impl FormatContext {
    pub fn new(options: FormatOptions) -> (r: FormatContext)
        ensures
            r.options == options,
    {
        FormatContext { options }
    }
}

/// The capability every formattable syntax-node kind provides.
pub trait Format {
    /// The document this node renders to, or a structural failure when the
    /// tree and the formatter catalogue are out of sync; a failure is fatal
    /// for the whole file.
    fn format(&self, ctx: &FormatContext) -> Result<Doc, FormatFailure>;
}

/// A list node whose children are conceptually separated by a declared
/// punctuation token, such as the specifiers of a named export: children
/// joined by space-or-newline soft lines, each followed by the separator,
/// the trailing one governed by the context's policy.
pub struct SeparatedElementList {
    /// The children, already formatted.
    pub elements: Vec<Doc>,
    /// The separator token's text; a list node whose declared separator is
    /// missing from the tree is structurally impossible input.
    pub separator: Option<Vec<char>>,
    /// The identity of the group the list's break decision belongs to.
    pub group_id: u64,
}

impl SeparatedElementList {
    /// Renders the list, or reports the missing separator token.
    pub fn format_doc(&self, ctx: &FormatContext) -> (r: Result<Doc, FormatFailure>)
        ensures
            self.separator is Some ==> (r matches Ok(d) && d@ == separated_view(
                views_of(self.elements@),
                DocV::Text(self.separator->0@),
                ctx.options.trailing_separator,
                self.group_id,
            )),
            self.separator is None ==> (r matches Err(e) && e
                == FormatFailure::StructuralMismatch),
    {
        match &self.separator {
            None => Err(FormatFailure::StructuralMismatch),
            Some(s) => {
                let sep = Doc::Text(clone_chars(s));
                Ok(
                    separated_list(
                        clone_docs(&self.elements),
                        &sep,
                        ctx.options.trailing_separator,
                        self.group_id,
                    ),
                )
            },
        }
    }
}

impl Format for SeparatedElementList {
    fn format(&self, ctx: &FormatContext) -> Result<Doc, FormatFailure> {
        self.format_doc(ctx)
    }
}

/// A list node whose children delimit themselves, such as a run of
/// attributes separated only by the whitespace they carry: plain
/// concatenation with no separator of its own.
pub struct SelfDelimitedList {
    /// The children, already formatted.
    pub elements: Vec<Doc>,
}

impl SelfDelimitedList {
    /// Renders the list.
    pub fn format_doc(&self) -> (r: Doc)
        ensures
            r@ == DocV::List(join_of(DocV::Empty, views_of(self.elements@))),
    {
        format_list(clone_docs(&self.elements))
    }
}

impl Format for SelfDelimitedList {
    fn format(&self, _ctx: &FormatContext) -> Result<Doc, FormatFailure> {
        Ok(self.format_doc())
    }
}

/// Formats a whole syntax tree: reject invalid options before the
/// traversal, let the tree render itself into a document through the
/// dispatch capability, and lay the document out.
///
/// Formatting is all-or-nothing per file: any failure surfaces as a single
/// structured error, never as partial output.
pub fn format<T: Format>(tree: &T, options: &FormatOptions) -> (r: Result<
    Vec<char>,
    FormatFailure,
>)
    ensures
        !options.wf() ==> (r matches Err(e) && e == FormatFailure::ConfigurationError),
{
    if !options.is_valid() {
        return Err(FormatFailure::ConfigurationError);
    }
    let ctx = FormatContext::new(*options);
    match tree.format(&ctx) {
        Err(e) => Err(e),
        Ok(doc) => crate::printer::print(&doc, options),
    }
}

} // verus!
