//! Templates of new notes.

use crate::notes::frontmatter;
use crate::text;
use vstd::prelude::*;

verus! {

/// The body of a template with the value of each variable in place of its
/// placeholder `{{name}}`. The variables are applied in the order given.
pub fn render_body(body: &str, vars: &Vec<(String, String)>) -> (r: String)
    ensures
        r@ == frontmatter::render_text(body@, frontmatter::var_views(vars@)),
{
    let chars = text::chars_of(body);
    let r = frontmatter::render_chars(&chars, vars);
    text::string_of(&r)
}

} // verus!
