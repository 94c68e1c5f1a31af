//! Migrate: tags that were spread over the elements of a list, one segment
//! each, become one tag written with `/`.

use crate::notes::frontmatter::{
    document_parts, document_text_tight, document_tight, extract, lookup, scalar_views,
    with_entry, yaml_text, EntryView, Field, FieldView, Frontmatter, Scalar, ScalarView,
    YamlError,
};
use crate::tags::parser::{parse_segments, segments_of, slash, tag_keys};
use crate::text;
use vstd::prelude::*;

verus! {

/// True if every element of the list is a text.
pub open spec fn all_text(items: Seq<ScalarView>) -> bool {
    forall|i: int| 0 <= i < items.len() ==> (#[trigger] items[i]) is Text
}

/// The segments of all text elements of a list, one after the other.
pub open spec fn flat_parts(items: Seq<ScalarView>) -> Seq<Seq<char>>
    decreases items.len(),
{
    if items.len() == 0 {
        Seq::empty()
    } else {
        match items.last() {
            ScalarView::Text(t) => flat_parts(items.drop_last()) + segments_of(text::trim(t)),
            ScalarView::Other(_) => flat_parts(items.drop_last()),
        }
    }
}

/// The text elements of a list, as they are.
pub open spec fn text_items(items: Seq<ScalarView>) -> Seq<Seq<char>>
    decreases items.len(),
{
    if items.len() == 0 {
        Seq::empty()
    } else {
        match items.last() {
            ScalarView::Text(t) => text_items(items.drop_last()).push(t),
            ScalarView::Other(_) => text_items(items.drop_last()),
        }
    }
}

/// The one tag that a list of segments becomes; `None` where the list stays
/// as it is: an empty list; a single text with a `/` in it; a list with an
/// element that is no text; a list that gives one segment or none.
pub open spec fn migrated_tag(items: Seq<ScalarView>) -> Option<Seq<char>> {
    if items.len() == 0 {
        None
    } else if items.len() == 1 && items[0] is Text && items[0]->Text_0.contains('/') {
        None
    } else if !all_text(items) {
        None
    } else if flat_parts(items).len() <= 1 {
        None
    } else {
        Some(text::join(flat_parts(items), slash()))
    }
}

/// What is said of a migration: the old elements and the new tag.
pub open spec fn change_note(items: Seq<ScalarView>, new_tag: Seq<char>) -> Seq<char> {
    "["@ + text::join(text_items(items), ", "@) + "] \u{2192} ["@ + new_tag + "]"@
}

/// The front matter after the migration and what is said of it; `None`
/// where nothing is migrated. The keys are tried in their order; the first
/// list that can be migrated is, and no other.
pub open spec fn migrated(fm: Seq<EntryView>, keys: Seq<Seq<char>>) -> Option<
    (Seq<EntryView>, Seq<char>),
>
    decreases keys.len(),
{
    if keys.len() == 0 {
        None
    } else {
        match lookup(fm, keys[0]) {
            Some(FieldView::List(items)) => match migrated_tag(items) {
                Some(tag) => Some(
                    (
                        with_entry(fm, keys[0], FieldView::List(seq![ScalarView::Text(tag)])),
                        change_note(items, tag),
                    ),
                ),
                None => migrated(fm, keys.drop_first()),
            },
            _ => migrated(fm, keys.drop_first()),
        }
    }
}

/// True if `c` is one of the characters.
pub fn has_char(chars: &Vec<char>, c: char) -> (r: bool)
    ensures
        r == chars@.contains(c),
{
    let mut i: usize = 0;
    while i < chars.len()
        invariant
            i <= chars.len(),
            forall|j: int| 0 <= j < i ==> chars@[j] != c,
        decreases chars.len() - i,
    {
        if chars[i] == c {
            return true;
        }
        i += 1;
    }
    false
}

/// The one tag that a list of segments becomes.
pub fn migrate_items(items: &Vec<Scalar>) -> (r: Option<String>)
    ensures
        match r {
            Some(t) => migrated_tag(scalar_views(items@)) == Some(t@),
            None => migrated_tag(scalar_views(items@)) is None,
        },
{
    let ghost views = scalar_views(items@);
    if items.len() == 0 {
        return None;
    }
    if items.len() == 1 {
        assert(views[0] == items@[0]@);
        match &items[0] {
            Scalar::Text(s) => {
                if has_char(&text::chars_of(s.as_str()), '/') {
                    return None;
                }
            },
            Scalar::Other(_) => {},
        }
    }
    let mut parts: Vec<String> = Vec::new();
    let mut i: usize = 0;
    assert(views.take(0) == Seq::<ScalarView>::empty());
    assert(text::texts(parts@) == Seq::<Seq<char>>::empty());
    while i < items.len()
        invariant
            i <= items.len(),
            views == scalar_views(items@),
            all_text(views.take(i as int)),
            text::texts(parts@) == flat_parts(views.take(i as int)),
        decreases items.len() - i,
    {
        let ghost before = views.take(i as int);
        let ghost now = views.take(i + 1);
        proof {
            assert(now.drop_last() == before);
            assert(now.last() == items@[i as int]@);
        }
        match &items[i] {
            Scalar::Text(t) => {
                let trimmed = text::trimmed(&text::chars_of(t.as_str()));
                let mut found = parse_segments(&trimmed);
                let ghost first = text::texts(parts@);
                let ghost second = text::texts(found@);
                parts.append(&mut found);
                proof {
                    assert(text::texts(parts@) =~= first + second);
                    assert forall|j: int| 0 <= j < now.len() implies (#[trigger] now[j]) is Text by {
                        if j < i {
                            assert(now[j] == before[j]);
                        }
                    }
                }
            },
            Scalar::Other(_) => {
                assert(views[i as int] is Other);
                return None;
            },
        }
        i += 1;
    }
    assert(views.take(items.len() as int) == views);
    if parts.len() <= 1 {
        return None;
    }
    let sep: Vec<char> = vec!['/'];
    assert(sep@ =~= slash());
    Some(text::string_of(&text::join_strings(&parts, &sep)))
}

/// What is said of a migration.
pub fn describe(items: &Vec<Scalar>, new_tag: &str) -> (r: String)
    ensures
        r@ == change_note(scalar_views(items@), new_tag@),
{
    let ghost views = scalar_views(items@);
    let mut olds: Vec<String> = Vec::new();
    let mut i: usize = 0;
    assert(views.take(0) == Seq::<ScalarView>::empty());
    assert(text::texts(olds@) == Seq::<Seq<char>>::empty());
    while i < items.len()
        invariant
            i <= items.len(),
            views == scalar_views(items@),
            text::texts(olds@) == text_items(views.take(i as int)),
        decreases items.len() - i,
    {
        let ghost before = views.take(i as int);
        let ghost now = views.take(i + 1);
        let ghost old_texts = text::texts(olds@);
        proof {
            assert(now.drop_last() == before);
            assert(now.last() == items@[i as int]@);
        }
        match &items[i] {
            Scalar::Text(t) => {
                olds.push(t.clone());
                assert(text::texts(olds@) == old_texts.push(t@));
            },
            Scalar::Other(_) => {},
        }
        i += 1;
    }
    assert(views.take(items.len() as int) == views);
    let mut out = text::chars_of("[");
    text::append(&mut out, &text::join_strings(&olds, &text::chars_of(", ")));
    text::append(&mut out, &text::chars_of("] \u{2192} ["));
    text::append(&mut out, &text::chars_of(new_tag));
    text::append(&mut out, &text::chars_of("]"));
    assert(out@ =~= change_note(views, new_tag@));
    text::string_of(&out)
}

/// Migrates the front matter of a note. Gives what is said of the
/// migration, or `None` where nothing was migrated.
pub fn migrate_front_matter(fm: &mut Frontmatter) -> (r: Option<String>)
    ensures
        match migrated(old(fm)@, tag_keys()) {
            Some((after, note)) => r matches Some(n) && n@ == note && final(fm)@ == after,
            None => r is None && final(fm)@ == old(fm)@,
        },
{
    proof {
        reveal_with_fuel(migrated, 5);
    }
    match migrate_under(fm, "tags") {
        Some(note) => {
            return Some(note);
        },
        None => {},
    }
    match migrate_under(fm, "tag") {
        Some(note) => {
            return Some(note);
        },
        None => {},
    }
    match migrate_under(fm, "Tags") {
        Some(note) => {
            return Some(note);
        },
        None => {},
    }
    migrate_under(fm, "Tag")
}

/// Migrates the list under `key`, if there is one and it can be migrated.
/// Gives what is said of the migration.
pub fn migrate_under(fm: &mut Frontmatter, key: &str) -> (r: Option<String>)
    ensures
        match lookup(old(fm)@, key@) {
            Some(FieldView::List(items)) => match migrated_tag(items) {
                Some(tag) => r matches Some(n) && n@ == change_note(items, tag) && final(fm)@
                    == with_entry(old(fm)@, key@, FieldView::List(seq![ScalarView::Text(tag)])),
                None => r is None && final(fm)@ == old(fm)@,
            },
            _ => r is None && final(fm)@ == old(fm)@,
        },
{
    let found = match fm.get(key) {
        Some(Field::List(items)) => match migrate_items(items) {
            Some(tag) => Some((describe(items, tag.as_str()), tag)),
            None => None,
        },
        _ => None,
    };
    match found {
        Some((note, tag)) => {
            let mut list: Vec<Scalar> = Vec::new();
            let ghost tag_text = tag@;
            list.push(Scalar::Text(tag));
            assert(scalar_views(list@) =~= seq![ScalarView::Text(tag_text)]);
            fm.insert(key.to_owned(), Field::List(list));
            Some(note)
        },
        None => None,
    }
}

/// Migrates a note. Gives the new text of the note and what is said of the
/// migration, or `None` where the note stays as it is.
pub fn migrate_file_inner(content: &str) -> (r: Result<Option<(String, String)>, YamlError>)
    ensures
        match document_parts(content@) {
            None => r is Err,
            Some((fm, body)) => match migrated(fm, tag_keys()) {
                None => r matches Ok(None),
                Some((after, note)) => match yaml_text(after) {
                    Some(yaml) => r matches Ok(Some(out)) && out.0@ == document_text_tight(
                        yaml,
                        body,
                    ) && out.1@ == note,
                    None => r is Err,
                },
            },
        },
{
    let (mut fm, body) = match extract(content) {
        Ok(parts) => parts,
        Err(e) => {
            return Err(e);
        },
    };
    assert(document_parts(content@) == Some((fm@, body@)));
    let note = match migrate_front_matter(&mut fm) {
        Some(n) => n,
        None => {
            return Ok(None);
        },
    };
    match fm.to_yaml() {
        Ok(yaml) => Ok(Some((document_tight(yaml.as_str(), body.as_str()), note))),
        Err(e) => Err(e),
    }
}

} // verus!
