//! Posts as the library sees them: their rendered content, the requests that
//! create and update them, and the flags stored with them.
use vstd::prelude::*;

verus! {

/// What CommonMark rendering makes of the text `src`: its HTML.
pub uninterp spec fn markdown_html(src: Seq<char>) -> Seq<char>;

/// Relies on pulldown_cmark's `Parser::new` and `html::push_html`: the HTML of
/// the CommonMark text `src`, a function of `src` alone.
#[verifier::external_body]
fn render_markdown(src: &str) -> (r: String)
    ensures
        r@ == markdown_html(src@),
{
    let mut html = String::new();
    pulldown_cmark::html::push_html(&mut html, pulldown_cmark::Parser::new(src));
    html
}

/// The content of a post: its CommonMark source and the HTML rendered from it.
#[derive(Debug)]
pub struct PostContent {
    pub src: String,
    pub html: String,
}

impl PostContent {
    /// The content whose source is `src`.
    pub fn render(src: String) -> (r: PostContent)
        ensures
            r.src@ == src@,
            r.html@ == markdown_html(src@),
    {
        let html = render_markdown(src.as_str());
        PostContent { src, html }
    }
}

/// A request to create a post.
#[derive(Debug)]
pub struct Create {
    pub content: String,
}

/// A request to update a post: new content, or a change of its deleted mark.
#[derive(Debug)]
pub enum Update {
    Modify { content: String },
    Deleting { is_deleted: bool },
}

/// Whether the stored flags of a post mark it deleted: their lowest bit.
pub fn is_deleted(flags: u32) -> (r: bool)
    ensures
        r == (flags % 2 == 1),
{
    assert(flags & 1 == flags % 2) by (bit_vector);
    flags & 1 != 0
}

/// The stored flags of a post with the deleted mark `is_deleted`.
pub fn flags_of(is_deleted: bool) -> (r: u32)
    ensures
        r == (if is_deleted {
            1u32
        } else {
            0u32
        }),
{
    if is_deleted {
        1
    } else {
        0
    }
}

} // verus!
