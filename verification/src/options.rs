//! Formatting configuration: print width, indentation, quoting, and the
//! trailing-separator policy. Read-only during a whole formatting call.

use vstd::prelude::*;

verus! {

/// The character used for one unit of indentation.
#[derive(Clone, Copy, PartialEq, Eq, Structural, Debug)]
pub enum IndentStyle {
    /// One tab character per level.
    Tab,
    /// `indent_width` spaces per level.
    Space,
}

/// The preferred quote character for string literals; carried for the
/// per-construct formatters, not read by the printer itself.
#[derive(Clone, Copy, PartialEq, Eq, Structural, Debug)]
pub enum QuoteStyle {
    Single,
    Double,
}

/// When a separated list renders a separator after its last item.
#[derive(Clone, Copy, PartialEq, Eq, Structural, Debug)]
pub enum TrailingSeparator {
    /// Always, whether the list is flat or broken.
    Always,
    /// Never.
    Never,
    /// Only when the enclosing group was decided broken (multi-line).
    OmitIfLast,
}

/// Layout configuration for one formatting call.
#[derive(Clone, Copy, PartialEq, Eq, Structural, Debug)]
pub struct FormatOptions {
    /// The column budget for a line, in characters.
    pub print_width: usize,
    pub indent_style: IndentStyle,
    /// Spaces per indentation level when `indent_style` is `Space`.
    pub indent_width: usize,
    pub quote_style: QuoteStyle,
    pub trailing_separator: TrailingSeparator,
}

impl FormatOptions {
    /// The valid domain of the options: a positive print width, held below
    /// the machine's address-space bound so column arithmetic stays exact.
    pub open spec fn wf(self) -> bool {
        1 <= self.print_width < usize::MAX
    }

    /// Says whether the options lie in their valid domain.
    pub fn is_valid(&self) -> (r: bool)
        ensures
            r == self.wf(),
    {
        1 <= self.print_width && self.print_width < usize::MAX
    }
}

impl Default for FormatOptions {
    /// A width of 80 columns, two-space indentation, double quotes, and a
    /// trailing separator only on broken lists.
    fn default() -> (r: Self)
        ensures
            r == (FormatOptions {
                print_width: 80,
                indent_style: IndentStyle::Space,
                indent_width: 2,
                quote_style: QuoteStyle::Double,
                trailing_separator: TrailingSeparator::OmitIfLast,
            }),
            r.wf(),
    {
        FormatOptions {
            print_width: 80,
            indent_style: IndentStyle::Space,
            indent_width: 2,
            quote_style: QuoteStyle::Double,
            trailing_separator: TrailingSeparator::OmitIfLast,
        }
    }
}

/// Why a whole-file formatting call was abandoned; there is never partial
/// output.
#[derive(Clone, Copy, PartialEq, Eq, Structural, Debug)]
pub enum FormatFailure {
    /// A per-construct formatter expected a child or token the tree does not
    /// have; the tree and the formatter catalogue are out of sync.
    StructuralMismatch,
    /// An internal builder or printer contract was broken, such as
    /// conditional content referring to a group that was never decided.
    InvariantViolation,
    /// An option outside its valid domain, such as a zero print width.
    ConfigurationError,
}

} // verus!
