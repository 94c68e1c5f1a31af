//! What is written to files, and what is read from them.

use crate::notes::frontmatter::{document, document_text, yaml_text, Frontmatter, YamlError};
use crate::tags::parser::clean;
use crate::text;
use vstd::prelude::*;

verus! {

/// The text of a note: the front matter between fence lines, if there is
/// any, then the body.
pub fn write_note(fm: &Frontmatter, body: &str) -> (r: Result<String, YamlError>)
    ensures
        fm@.len() == 0 ==> (r matches Ok(t) && t@ == body@),
        fm@.len() > 0 ==> match yaml_text(fm@) {
            Some(yaml) => r matches Ok(t) && t@ == document_text(yaml, body@),
            None => r is Err,
        },
{
    if fm.is_empty() {
        Ok(body.to_owned())
    } else {
        match fm.to_yaml() {
            Ok(yaml) => Ok(document(yaml.as_str(), body)),
            Err(e) => Err(e),
        }
    }
}

/// The projects of a list of projects: its lines, trimmed, without those
/// that are empty.
pub fn read_projects(content: &str) -> (r: Vec<String>)
    ensures
        text::texts(r@) == clean(text::split(content@, '\n')),
{
    let chars = text::chars_of(content);
    let lines = text::split_on(&chars, '\n');
    let mut out: Vec<String> = Vec::new();
    let mut i: usize = 0;
    assert(text::pieces(lines@).take(0) == Seq::<Seq<char>>::empty());
    assert(text::texts(out@) == Seq::<Seq<char>>::empty());
    while i < lines.len()
        invariant
            i <= lines.len(),
            text::texts(out@) == clean(text::pieces(lines@).take(i as int)),
        decreases lines.len() - i,
    {
        let ghost before = text::pieces(lines@).take(i as int);
        let ghost now = text::pieces(lines@).take(i + 1);
        let ghost old_out = text::texts(out@);
        let line = text::trimmed(&lines[i]);
        proof {
            assert(now.drop_last() == before);
            assert(now.last() == lines@[i as int]@);
        }
        if line.len() > 0 {
            out.push(text::string_of(&line));
            assert(text::texts(out@) == old_out.push(line@));
        }
        i += 1;
    }
    assert(text::pieces(lines@).take(lines.len() as int) == text::pieces(lines@));
    out
}

} // verus!
