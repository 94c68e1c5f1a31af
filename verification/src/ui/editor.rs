//! Adding a tag to the note that is being edited.

use crate::commands::migrate::text_items;
use crate::notes::frontmatter::{
    document_parts, document_text_tight, document_tight, extract, scalar_views, with_entry,
    yaml_text, EntryView, Field, FieldView, Frontmatter, Scalar, ScalarView, YamlError,
};
use crate::tags::parser::{declared_list, lemma_declared, tag_keys, TagPath};
use crate::text;
use crate::vault::scan::contains_string;
use vstd::prelude::*;

verus! {

/// The texts as elements of a list.
pub open spec fn as_items(texts: Seq<Seq<char>>) -> Seq<ScalarView> {
    texts.map_values(|t: Seq<char>| ScalarView::Text(t))
}

/// The tags of a note with one more: the text elements of the list of tags
/// as they are, and `tag` after them unless it is among them.
pub open spec fn tags_with(fm: Seq<EntryView>, tag: Seq<char>) -> Seq<Seq<char>> {
    let existing = match declared_list(fm, tag_keys()) {
        Some(items) => text_items(items),
        None => Seq::empty(),
    };
    if existing.contains(tag) {
        existing
    } else {
        existing.push(tag)
    }
}

/// The front matter with `tag` among its tags. The tags are written under
/// `tags`, whatever key they were read from.
pub open spec fn front_matter_with_tag(fm: Seq<EntryView>, tag: Seq<char>) -> Seq<EntryView> {
    with_entry(fm, "tags"@, FieldView::List(as_items(tags_with(fm, tag))))
}

/// The text elements of a list, as they are.
pub fn texts_of(items: &Vec<Scalar>) -> (r: Vec<String>)
    ensures
        text::texts(r@) == text_items(scalar_views(items@)),
{
    let ghost views = scalar_views(items@);
    let mut out: Vec<String> = Vec::new();
    let mut i: usize = 0;
    assert(views.take(0) == Seq::<ScalarView>::empty());
    assert(text::texts(out@) == Seq::<Seq<char>>::empty());
    while i < items.len()
        invariant
            i <= items.len(),
            views == scalar_views(items@),
            text::texts(out@) == text_items(views.take(i as int)),
        decreases items.len() - i,
    {
        let ghost before = views.take(i as int);
        let ghost now = views.take(i + 1);
        let ghost old_texts = text::texts(out@);
        proof {
            assert(now.drop_last() == before);
            assert(now.last() == items@[i as int]@);
        }
        match &items[i] {
            Scalar::Text(t) => {
                out.push(t.clone());
                assert(text::texts(out@) == old_texts.push(t@));
            },
            Scalar::Other(_) => {},
        }
        i += 1;
    }
    assert(views.take(items.len() as int) == views);
    out
}

/// Puts `tag` among the tags of the front matter.
pub fn add_tag_to_front_matter(fm: &mut Frontmatter, tag: String)
    ensures
        final(fm)@ == front_matter_with_tag(old(fm)@, tag@),
{
    let mut tags: Vec<String> = match TagPath::key_in(fm) {
        Some(key) => match fm.get(key) {
            Some(Field::List(items)) => texts_of(items),
            _ => Vec::new(),
        },
        None => Vec::new(),
    };
    proof {
        lemma_declared(fm@, tag_keys());
    }
    assert(text::texts(tags@) == (match declared_list(fm@, tag_keys()) {
        Some(items) => text_items(items),
        None => Seq::empty(),
    }));
    if !contains_string(&tags, &tag) {
        let ghost before = text::texts(tags@);
        tags.push(tag);
        assert(text::texts(tags@) == before.push(tag@));
    }
    let ghost wanted = text::texts(tags@);
    let mut items: Vec<Scalar> = Vec::new();
    let mut i: usize = 0;
    while i < tags.len()
        invariant
            i <= tags.len(),
            wanted == text::texts(tags@),
            scalar_views(items@) == as_items(wanted.take(i as int)),
        decreases tags.len() - i,
    {
        let ghost before = scalar_views(items@);
        items.push(Scalar::Text(tags[i].clone()));
        assert(scalar_views(items@) == before.push(ScalarView::Text(tags@[i as int]@)));
        assert(as_items(wanted.take(i + 1)) =~= before.push(ScalarView::Text(tags@[i as int]@)));
        i += 1;
    }
    assert(wanted.take(tags.len() as int) == wanted);
    fm.insert("tags".to_owned(), Field::List(items));
}

/// Adds a tag to the text in the editor. Gives the new text, or `None` where
/// the front matter of the text cannot be read.
pub fn add_tag(content: &str, tag: String) -> (r: Result<Option<String>, YamlError>)
    ensures
        match document_parts(content@) {
            None => r matches Ok(None),
            Some((fm, body)) => match yaml_text(front_matter_with_tag(fm, tag@)) {
                Some(yaml) => r matches Ok(Some(t)) && t@ == document_text_tight(yaml, body),
                None => r is Err,
            },
        },
{
    let (mut fm, body) = match extract(content) {
        Ok(parts) => parts,
        Err(_) => {
            return Ok(None);
        },
    };
    assert(document_parts(content@) == Some((fm@, body@)));
    add_tag_to_front_matter(&mut fm, tag);
    match fm.to_yaml() {
        Ok(yaml) => Ok(Some(document_tight(yaml.as_str(), body.as_str()))),
        Err(e) => Err(e),
    }
}

} // verus!
