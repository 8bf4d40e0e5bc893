//! Comment attachment: associating each comment from the source's trivia
//! stream with the nearest syntactically meaningful token, and rendering the
//! attached comments so they survive re-wrapping without migrating to the
//! wrong line.

use vstd::prelude::*;

use crate::doc::{doc_view, views_of, Doc, DocV, LineKind};

verus! {

/// Which neighbouring token a comment belongs to.
#[derive(Clone, Copy, PartialEq, Eq, Structural, Debug)]
pub enum Attachment {
    /// The comment trails the token before it.
    Trailing,
    /// The comment leads the token after it.
    Leading,
}

/// One comment lying between two tokens, as the syntax-tree provider hands
/// it over: its text (without delimiters that would close it), and whether a
/// blank line separates it from the token before it.
pub struct SourceComment {
    pub content: Vec<char>,
    /// A blank line stands between the preceding token and the comment.
    pub blank_line_before: bool,
}

/// The model of a comment.
pub struct CommentV {
    pub content: Seq<char>,
    pub blank_line_before: bool,
}

impl View for SourceComment {
    type V = CommentV;

    open spec fn view(&self) -> CommentV {
        CommentV { content: self.content@, blank_line_before: self.blank_line_before }
    }
}

/// The models of a sequence of comments.
pub open spec fn comment_views(s: Seq<SourceComment>) -> Seq<CommentV> {
    Seq::new(s.len(), |i: int| s[i]@)
}

/// The attachment rule: a comment belongs to the token that precedes it
/// when no blank line separates them, and otherwise to the token that
/// follows.
pub open spec fn attachment_rule(c: CommentV) -> Attachment {
    if !c.blank_line_before {
        Attachment::Trailing
    } else {
        Attachment::Leading
    }
}

/// Decides where one comment between two tokens attaches.
pub fn attachment_of(c: &SourceComment) -> (r: Attachment)
    ensures
        r == attachment_rule(c@),
{
    if !c.blank_line_before {
        Attachment::Trailing
    } else {
        Attachment::Leading
    }
}

/// The comments of the run that trail the preceding token, in source order.
pub open spec fn trailing_of(s: Seq<CommentV>) -> Seq<CommentV>
    decreases s.len(),
{
    if s.len() == 0 {
        Seq::empty()
    } else {
        trailing_of(s.drop_last()) + (if attachment_rule(s.last()) is Trailing {
            seq![s.last()]
        } else {
            Seq::empty()
        })
    }
}

/// The comments of the run that lead the following token, in source order.
pub open spec fn leading_of(s: Seq<CommentV>) -> Seq<CommentV>
    decreases s.len(),
{
    if s.len() == 0 {
        Seq::empty()
    } else {
        leading_of(s.drop_last()) + (if attachment_rule(s.last()) is Leading {
            seq![s.last()]
        } else {
            Seq::empty()
        })
    }
}

/// Splits the run of comments between two tokens into those that trail the
/// first and those that lead the second. Every comment lands in exactly one
/// of the two, in source order, by the attachment rule.
pub fn split_between(comments: Vec<SourceComment>) -> (r: (Vec<SourceComment>, Vec<SourceComment>))
    ensures
        comment_views(r.0@) == trailing_of(comment_views(comments@)),
        comment_views(r.1@) == leading_of(comment_views(comments@)),
{
    let ghost cs = comment_views(comments@);
    let mut trail: Vec<SourceComment> = Vec::new();
    let mut lead: Vec<SourceComment> = Vec::new();
    let mut i: usize = 0;
    proof {
        assert(comment_views(trail@) =~= trailing_of(cs.subrange(0, 0)));
        assert(comment_views(lead@) =~= leading_of(cs.subrange(0, 0)));
    }
    while i < comments.len()
        invariant
            i <= comments@.len(),
            cs == comment_views(comments@),
            comment_views(trail@) == trailing_of(cs.subrange(0, i as int)),
            comment_views(lead@) == leading_of(cs.subrange(0, i as int)),
        decreases comments@.len() - i,
    {
        let c = &comments[i];
        let copied = SourceComment {
            content: crate::builders::clone_chars(&c.content),
            blank_line_before: c.blank_line_before,
        };
        let ghost trail0 = comment_views(trail@);
        let ghost lead0 = comment_views(lead@);
        match attachment_of(c) {
            Attachment::Trailing => trail.push(copied),
            Attachment::Leading => lead.push(copied),
        }
        proof {
            assert(cs.subrange(0, i as int + 1).drop_last() =~= cs.subrange(0, i as int));
            assert(cs.subrange(0, i as int + 1).last() == cs[i as int]);
            assert(comment_views(trail@) =~= trailing_of(cs.subrange(0, i as int + 1)));
            assert(comment_views(lead@) =~= leading_of(cs.subrange(0, i as int + 1)));
        }
        i = i + 1;
    }
    proof {
        assert(cs.subrange(0, cs.len() as int) =~= cs);
    }
    (trail, lead)
}

/// The elements that render a token's own-line leading comments: each
/// comment's text on a line of its own, closed by a hard break.
pub open spec fn leading_docs(lead: Seq<CommentV>) -> Seq<DocV>
    decreases lead.len(),
{
    if lead.len() == 0 {
        Seq::empty()
    } else {
        leading_docs(lead.drop_last()) + seq![
            DocV::Text(lead.last().content),
            DocV::Line(LineKind::Hard),
        ]
    }
}

/// The elements that render a token's same-line trailing comments: each
/// comment's text deferred to just before the next real newline.
pub open spec fn trailing_docs(trail: Seq<CommentV>) -> Seq<DocV>
    decreases trail.len(),
{
    if trail.len() == 0 {
        Seq::empty()
    } else {
        trailing_docs(trail.drop_last()) + seq![
            DocV::LineSuffix(Box::new(DocV::Text(trail.last().content))),
        ]
    }
}

/// The document `with_trivia` builds: every leading comment exactly once on
/// its own line before the token, the token itself, and every trailing
/// comment exactly once as deferred content after it, all in source order.
pub open spec fn trivia_view(tok: DocV, lead: Seq<CommentV>, trail: Seq<CommentV>) -> DocV {
    DocV::List(leading_docs(lead) + seq![tok] + trailing_docs(trail))
}

/// Surrounds a token's document with its attached comments: own-line leading
/// comments before it, hard-line separated; same-line trailing comments
/// after it, deferred so re-wrapping cannot move them into the middle of a
/// line.
pub fn with_trivia(token: Doc, leading: Vec<SourceComment>, trailing: Vec<SourceComment>) -> (r:
    Doc)
    ensures
        r@ == trivia_view(token@, comment_views(leading@), comment_views(trailing@)),
{
    let ghost ls = comment_views(leading@);
    let ghost ts = comment_views(trailing@);
    let ghost tokv = token@;
    let mut out: Vec<Doc> = Vec::new();
    let mut i: usize = 0;
    proof {
        assert(views_of(out@) =~= leading_docs(ls.subrange(0, 0)));
    }
    while i < leading.len()
        invariant
            i <= leading@.len(),
            ls == comment_views(leading@),
            views_of(out@) == leading_docs(ls.subrange(0, i as int)),
        decreases leading@.len() - i,
    {
        let ghost out0 = views_of(out@);
        let c = crate::builders::clone_chars(&leading[i].content);
        out.push(Doc::Text(c));
        out.push(Doc::Line(LineKind::Hard));
        proof {
            assert(ls.subrange(0, i as int + 1).drop_last() =~= ls.subrange(0, i as int));
            assert(ls.subrange(0, i as int + 1).last() == ls[i as int]);
            assert(views_of(out@) =~= leading_docs(ls.subrange(0, i as int + 1)));
        }
        i = i + 1;
    }
    proof {
        assert(ls.subrange(0, ls.len() as int) =~= ls);
    }
    out.push(token);
    proof {
        assert(views_of(out@) =~= leading_docs(ls) + seq![tokv]);
    }
    let mut j: usize = 0;
    proof {
        assert(views_of(out@) =~= leading_docs(ls) + seq![tokv] + trailing_docs(
            ts.subrange(0, 0),
        ));
    }
    while j < trailing.len()
        invariant
            j <= trailing@.len(),
            ts == comment_views(trailing@),
            views_of(out@) == leading_docs(ls) + seq![tokv] + trailing_docs(
                ts.subrange(0, j as int),
            ),
        decreases trailing@.len() - j,
    {
        let ghost out0 = out@;
        let c = crate::builders::clone_chars(&trailing[j].content);
        out.push(Doc::LineSuffix(Box::new(Doc::Text(c))));
        proof {
            assert(ts.subrange(0, j as int + 1).drop_last() =~= ts.subrange(0, j as int));
            assert(ts.subrange(0, j as int + 1).last() == ts[j as int]);
            assert(ts[j as int] == trailing@[j as int]@);
            assert(c@ == ts[j as int].content);
            let e = DocV::LineSuffix(Box::new(DocV::Text(ts[j as int].content)));
            assert(trailing_docs(ts.subrange(0, j as int + 1)) == trailing_docs(
                ts.subrange(0, j as int),
            ) + seq![e]);
            assert(doc_view(Doc::Text(c)) == DocV::Text(c@));
            assert(doc_view(Doc::LineSuffix(Box::new(Doc::Text(c)))) == e);
            assert(views_of(out@) =~= views_of(out0).push(e));
            assert(views_of(out0).push(e) =~= leading_docs(ls) + seq![tokv] + (trailing_docs(
                ts.subrange(0, j as int),
            ) + seq![e]));
        }
        j = j + 1;
    }
    proof {
        assert(ts.subrange(0, ts.len() as int) =~= ts);
    }
    Doc::List(out)
}

} // verus!
