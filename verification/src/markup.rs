//! Markup rendering: a post's raw text body converted to HTML by comrak,
//! treated as a pure function of the text.

use crate::error::{Error, ErrorKind};
use crate::post::{has_post_id, Post};
use crate::store::Store;
use vstd::prelude::*;

verus! {

/// What comrak renders a markdown text to, under its default options: a
/// function of the text alone.
pub uninterp spec fn markup_of(s: Seq<char>) -> Seq<char>;

/// Relies on `comrak::markdown_to_html` (comrak crate) with default
/// options: the rendered HTML is a deterministic function of the input
/// text.
#[verifier::external_body]
fn render_markup(s: &str) -> (r: String)
    ensures
        r@ == markup_of(s@),
{
    comrak::markdown_to_html(s, &comrak::Options::default())
}

impl Post {
    /// The post's body rendered as HTML; a miss is a not-found error.
    pub fn get_source_html(&self, store: &Store) -> (r: Result<String, Error>)
        ensures
            r is Ok <==> has_post_id(store@.posts, self.id@),
            r matches Ok(h) ==> exists|i: int|
                0 <= i < store@.posts.len() && (#[trigger] store@.posts[i]).id == self.id@ && h@
                    == markup_of(store@.posts[i].source),
            r matches Err(e) ==> e.kind == ErrorKind::NotFound,
    {
        let source = self.get_source(store)?;
        Ok(render_markup(source.as_str()))
    }
}

} // verus!
