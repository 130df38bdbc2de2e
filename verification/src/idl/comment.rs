//! Comment definitions for Varlink interfaces.

use vstd::prelude::*;
use crate::text::str_eq;
use super::list::List;
use super::render::comment_text;
use vstd::string::StringExecFns;
use vstd::std_specs::cmp::PartialEqSpec;

verus! {

/// A comment in a Varlink interface.
#[derive(Debug, Clone, Copy)]
pub struct Comment<'a> {
    /// The comment text content (without the leading #).
    content: &'a str,
}

impl<'a> View for Comment<'a> {
    type V = Seq<char>;

    /// A comment is its text.
    open spec fn view(&self) -> Seq<char> {
        self.spec_content()@
    }
}

impl<'a> Comment<'a> {
    /// The text of the comment.
    pub closed spec fn spec_content(self) -> &'a str {
        self.content
    }

    /// Creates a new comment with the given text content (without # prefix).
    pub fn new(content: &'a str) -> (r: Self)
        ensures
            r.spec_content() == content,
    {
        Self { content }
    }

    /// Returns the comment text content.
    pub fn content(&self) -> (r: &'a str)
        ensures
            r == self.spec_content(),
    {
        self.content
    }

    /// Returns the comment text content.
    pub fn text(&self) -> (r: &'a str)
        ensures
            r == self.spec_content(),
    {
        self.content
    }
}

/// The texts of a sequence of comments.
pub open spec fn comments_model<'a>(s: Seq<Comment<'a>>) -> Seq<Seq<char>> {
    Seq::new(s.len(), |i: int| s[i]@)
}

/// Two sequences of comments have the same texts exactly when they are equally long and their
/// comments have pairwise the same texts.
pub proof fn lemma_comments_model_eq<'a, 'b>(a: Seq<Comment<'a>>, b: Seq<Comment<'b>>)
    ensures
        (comments_model(a) == comments_model(b)) <==> (a.len() == b.len() && forall|i: int|
            0 <= i < a.len() ==> #[trigger] a[i]@ == b[i]@),
{
    if a.len() == b.len() && forall|i: int| 0 <= i < a.len() ==> #[trigger] a[i]@ == b[i]@ {
        assert(comments_model(a) =~= comments_model(b));
    }
    if comments_model(a) == comments_model(b) {
        assert(comments_model(a).len() == a.len());
        assert forall|i: int| 0 <= i < a.len() implies #[trigger] a[i]@ == b[i]@ by {
            assert(comments_model(a)[i] == comments_model(b)[i]);
        }
    }
}

/// Two lists of comments are equal exactly when their texts are.
pub proof fn lemma_comment_list_eq<'a>(a: List<'a, Comment<'a>>, b: List<'a, Comment<'a>>)
    ensures
        a.eq_spec(&b) == (comments_model(a.items()) == comments_model(b.items())),
{
    let p = a.items();
    let q = b.items();
    lemma_comments_model_eq(p, q);
    if p.len() == q.len() {
        if forall|i: int| 0 <= i < p.len() ==> #[trigger] p[i].eq_spec(&q[i]) {
            assert forall|i: int| 0 <= i < p.len() implies #[trigger] p[i]@ == q[i]@ by {
                assert(p[i].eq_spec(&q[i]));
            }
        }
        if forall|i: int| 0 <= i < p.len() ==> #[trigger] p[i]@ == q[i]@ {
            assert forall|i: int| 0 <= i < p.len() implies #[trigger] p[i].eq_spec(&q[i]) by {
                assert(p[i]@ == q[i]@);
            }
        }
    }
}

impl<'a> PartialEq for Comment<'a> {
    fn eq(&self, other: &Self) -> (r: bool) {
        str_eq(self.content, other.content)
    }
}

impl<'a> vstd::std_specs::cmp::PartialEqSpecImpl for Comment<'a> {
    open spec fn obeys_eq_spec() -> bool {
        true
    }

    open spec fn eq_spec(&self, other: &Self) -> bool {
        self@ == other@
    }
}

impl<'a> Eq for Comment<'a> {
}


impl<'a> Comment<'a> {
    /// The IDL text of the comment: `#`, a space and its text.
    pub fn to_string(&self) -> (r: String)
        ensures
            r@ == comment_text(self@),
    {
        let mut out = String::from_str("# ");
        out.append(self.content);
        out
    }
}

} // verus!
