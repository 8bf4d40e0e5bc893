use docfmt::builders::{
    chars_of, empty_doc, fill, group, group_with_id, hard_line_break, if_group_broken,
    if_group_flat, indent, join, line_suffix, list, separated_list, soft_line_break_or_space,
    text,
};
use docfmt::dispatch::{FormatContext, SelfDelimitedList, SeparatedElementList};
use docfmt::doc::Doc;
use docfmt::laws::{lines_to_doc, split_lines};
use docfmt::options::{
    FormatFailure, FormatOptions, IndentStyle, QuoteStyle, TrailingSeparator,
};
use docfmt::printer::print;
use docfmt::trivia::{attachment_of, split_between, with_trivia, Attachment, SourceComment};

fn opts(width: usize) -> FormatOptions {
    let mut o = FormatOptions::default();
    o.print_width = width;
    o
}

fn rendered(d: &Doc, o: &FormatOptions) -> String {
    print(d, o).unwrap().iter().collect::<String>()
}

fn comma_list(width: usize) -> (Doc, FormatOptions) {
    let items = vec![text("a"), text("b"), text("c")];
    let sep = text(",");
    let d = separated_list(items, &sep, TrailingSeparator::OmitIfLast, 1);
    (d, opts(width))
}

#[test]
fn plain_text_prints_verbatim() {
    let d = text("hello world");
    assert_eq!(rendered(&d, &opts(80)), "hello world");
}

#[test]
fn default_options() {
    let o = FormatOptions::default();
    assert_eq!(o.print_width, 80);
    assert!(matches!(o.indent_style, IndentStyle::Space));
    assert_eq!(o.indent_width, 2);
    assert!(matches!(o.quote_style, QuoteStyle::Double));
    assert!(matches!(o.trailing_separator, TrailingSeparator::OmitIfLast));
}

#[test]
fn zero_width_is_a_configuration_error() {
    let d = text("x");
    assert_eq!(print(&d, &opts(0)), Err(FormatFailure::ConfigurationError));
}

#[test]
fn separated_list_flat_no_trailing_separator() {
    let (d, o) = comma_list(80);
    assert_eq!(rendered(&d, &o), "a, b, c");
}

#[test]
fn separated_list_broken_has_trailing_separator() {
    let (d, o) = comma_list(3);
    assert_eq!(rendered(&d, &o), "a,\nb,\nc,");
}

#[test]
fn separated_list_empty_is_empty() {
    let sep = text(",");
    let d = separated_list(Vec::new(), &sep, TrailingSeparator::OmitIfLast, 1);
    assert_eq!(rendered(&d, &opts(80)), "");
    let d2 = separated_list(Vec::new(), &sep, TrailingSeparator::Always, 2);
    assert_eq!(rendered(&d2, &opts(80)), "");
}

#[test]
fn exact_width_still_fits() {
    // "a, b, c" is seven columns: at width 7 the boundary counts as fitting.
    let (d, o) = comma_list(7);
    assert_eq!(rendered(&d, &o), "a, b, c");
    let (d6, o6) = comma_list(6);
    assert_eq!(rendered(&d6, &o6), "a,\nb,\nc,");
}

#[test]
fn always_policy_keeps_separator_when_flat() {
    let items = vec![text("a"), text("b")];
    let sep = text(",");
    let d = separated_list(items, &sep, TrailingSeparator::Always, 4);
    assert_eq!(rendered(&d, &opts(80)), "a, b,");
}

#[test]
fn never_policy_drops_separator_when_broken() {
    let items = vec![text("a"), text("b")];
    let sep = text(",");
    let d = separated_list(items, &sep, TrailingSeparator::Never, 4);
    assert_eq!(rendered(&d, &opts(2)), "a,\nb");
}

#[test]
fn join_skips_separators_around_empty_items() {
    let sep = text("-");
    let d = join(&sep, vec![text("a"), empty_doc(), text("b")]);
    assert_eq!(rendered(&d, &opts(80)), "a-b");
}

#[test]
fn broken_group_indents_under_indent_node() {
    let inner = separated_list(
        vec![text("a"), text("b")],
        &text(","),
        TrailingSeparator::OmitIfLast,
        7,
    );
    let d = indent(inner);
    let mut o = opts(2);
    o.indent_width = 4;
    assert_eq!(rendered(&d, &o), "a,\n    b,");
}

#[test]
fn tab_indentation() {
    let inner = separated_list(
        vec![text("a"), text("b")],
        &text(","),
        TrailingSeparator::OmitIfLast,
        7,
    );
    let d = indent(inner);
    let mut o = opts(2);
    o.indent_style = IndentStyle::Tab;
    assert_eq!(rendered(&d, &o), "a,\n\tb,");
}

#[test]
fn space_collapses_at_line_start() {
    let d = list(vec![Doc::Space, text("a"), Doc::Space, text("b")]);
    assert_eq!(rendered(&d, &opts(80)), "a b");
}

#[test]
fn hard_break_forces_group_to_break() {
    let body = list(vec![
        text("a"),
        soft_line_break_or_space(),
        hard_line_break(),
        text("b"),
    ]);
    let d = group(body);
    // The hard line fails the fits check even at a generous width.
    assert_eq!(rendered(&d, &opts(80)), "a\n\nb");
}

#[test]
fn fill_wraps_exactly_where_needed() {
    let items = vec![text("aa"), text("bb"), text("cc")];
    let d = fill(items, soft_line_break_or_space());
    // Width five: "aa bb" fills the line; "cc" no longer fits after it.
    assert_eq!(rendered(&d, &opts(5)), "aa bb\ncc");
}

#[test]
fn fill_overflowing_item_stands_alone() {
    let items = vec![text("aaaaaaaa"), text("b")];
    let d = fill(items, soft_line_break_or_space());
    // The first item overflows on its own: irreducible, printed anyway.
    assert_eq!(rendered(&d, &opts(4)), "aaaaaaaa\nb");
}

#[test]
fn conditional_flat_content_renders_when_flat() {
    let body = list(vec![text("a"), if_group_flat(9, text("!")), if_group_broken(9, text("?"))]);
    let d = group_with_id(body, 9);
    assert_eq!(rendered(&d, &opts(80)), "a!");
}

#[test]
fn undecided_conditional_is_an_invariant_violation() {
    let d = if_group_broken(42, text("x"));
    assert_eq!(print(&d, &opts(80)), Err(FormatFailure::InvariantViolation));
}

#[test]
fn line_suffix_defers_to_before_next_hard_break() {
    let flat = separated_list(
        vec![text("a"), text("b")],
        &text(","),
        TrailingSeparator::OmitIfLast,
        3,
    );
    let d = list(vec![
        flat,
        text(";"),
        line_suffix(text(" // last")),
        hard_line_break(),
    ]);
    // The deferred comment appears after the list's closing content,
    // immediately before the newline, not in the middle of the list.
    assert_eq!(rendered(&d, &opts(80)), "a, b; // last\n");
}

#[test]
fn line_suffix_flushes_at_end_of_output() {
    let d = list(vec![text("a"), line_suffix(text(" // c"))]);
    assert_eq!(rendered(&d, &opts(80)), "a // c");
}

#[test]
fn formatting_formatted_output_is_identical() {
    for width in [3usize, 6, 7, 80] {
        let (d, o) = comma_list(width);
        let once = print(&d, &o).unwrap();
        let again = print(&lines_to_doc(&split_lines(&once)), &o).unwrap();
        assert_eq!(once, again);
    }
}

#[test]
fn comment_attachment_follows_blank_lines() {
    let near = SourceComment { content: chars_of("// near"), blank_line_before: false };
    let far = SourceComment { content: chars_of("// far"), blank_line_before: true };
    assert_eq!(attachment_of(&near), Attachment::Trailing);
    assert_eq!(attachment_of(&far), Attachment::Leading);
    let (trail, lead) = split_between(vec![near, far]);
    assert_eq!(trail.len(), 1);
    assert_eq!(lead.len(), 1);
    assert_eq!(trail[0].content.iter().collect::<String>(), "// near");
    assert_eq!(lead[0].content.iter().collect::<String>(), "// far");
}

#[test]
fn trivia_round_trip_keeps_every_comment_once() {
    let leading = vec![SourceComment {
        content: chars_of("// lead"),
        blank_line_before: true,
    }];
    let trailing = vec![SourceComment {
        content: chars_of("// trail"),
        blank_line_before: false,
    }];
    let d = list(vec![with_trivia(text("tok"), leading, trailing), hard_line_break()]);
    let out = rendered(&d, &opts(80));
    assert_eq!(out, "// lead\ntok// trail\n");
    assert_eq!(out.matches("// lead").count(), 1);
    assert_eq!(out.matches("// trail").count(), 1);
}

#[test]
fn dispatch_separated_element_list() {
    let node = SeparatedElementList {
        elements: vec![text("x"), text("y")],
        separator: Some(chars_of(",")),
        group_id: 11,
    };
    let out = docfmt::dispatch::format(&node, &opts(80)).unwrap();
    assert_eq!(out.iter().collect::<String>(), "x, y");
}

#[test]
fn dispatch_missing_separator_is_structural() {
    let node = SeparatedElementList {
        elements: vec![text("x")],
        separator: None,
        group_id: 11,
    };
    assert_eq!(docfmt::dispatch::format(&node, &opts(80)), Err(FormatFailure::StructuralMismatch));
}

#[test]
fn dispatch_self_delimited_list() {
    let node = SelfDelimitedList { elements: vec![text("a=\"1\""), Doc::Space, text("b")] };
    let ctx = FormatContext::new(opts(80));
    let d = node.format_doc();
    assert_eq!(rendered(&d, &ctx.options), "a=\"1\" b");
}

#[test]
fn dispatch_rejects_invalid_options_first() {
    let node = SeparatedElementList { elements: Vec::new(), separator: None, group_id: 0 };
    // Even though the node is structurally broken, the configuration is
    // checked before the traversal begins.
    assert_eq!(docfmt::dispatch::format(&node, &opts(0)), Err(FormatFailure::ConfigurationError));
}

#[test]
fn chars_of_round_trips() {
    let v = chars_of("ab\nc");
    assert_eq!(v, vec!['a', 'b', '\n', 'c']);
}

#[test]
fn nested_groups_decide_independently() {
    // The outer list breaks at width 8; the inner pair still fits flat.
    let inner = separated_list(
        vec![text("x"), text("y")],
        &text(","),
        TrailingSeparator::OmitIfLast,
        21,
    );
    let outer = separated_list(
        vec![text("first"), inner, text("second")],
        &text(";"),
        TrailingSeparator::Never,
        22,
    );
    assert_eq!(rendered(&outer, &opts(8)), "first;\nx, y;\nsecond");
    assert_eq!(rendered(&outer, &opts(80)), "first; x, y; second");
}
