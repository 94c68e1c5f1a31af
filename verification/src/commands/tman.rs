//! The tag manager: which notes carry which tag, and how a tag gets a new
//! name in the front matter of a note.

use crate::groups::{
    add_member, distinct_keys, holds, lemma_group_holds, no_empty_group, sorted_texts, Group,
};
use crate::notes::frontmatter::{
    document_parts, document_text_tight, document_tight, extract, lookup, scalar_views,
    with_entry, yaml_text, EntryView, Field, FieldView, Frontmatter, Scalar, ScalarView,
    YamlError,
};
use crate::tags::parser::{declared_key, parse_segments, segments_of, slash, tag_keys, TagPath};
use crate::text;
use crate::vault::scan::ScanItem;
use vstd::prelude::*;

verus! {

/// What the tag manager cannot do.
#[derive(Debug, PartialEq, Eq, Structural)]
pub enum TmanError {
    /// The visual selector does not exist yet.
    NotImplemented,
}

/// How the tags are listed.
#[derive(Debug, PartialEq, Eq, Structural)]
pub enum Listing {
    /// All tags and the tags above them, in the order of their names.
    Flat,
    /// A menu of the tags, from which the notes of a tag can be opened.
    Interactive,
}

/// How the tags are listed: as a menu if archived tags are asked for, else
/// flat.
pub fn list_tags(include_archived: bool) -> (r: Listing)
    ensures
        r == (if include_archived {
            Listing::Interactive
        } else {
            Listing::Flat
        }),
{
    if include_archived {
        Listing::Interactive
    } else {
        Listing::Flat
    }
}

/// The visual selector: it does not exist yet, so this fails.
pub fn visual_selector() -> (r: Result<(), TmanError>)
    ensures
        r == Err::<(), TmanError>(TmanError::NotImplemented),
{
    Err(TmanError::NotImplemented)
}

/// True if tag `b` of note `a` has the written form `key`, and the note lies
/// at `file`.
pub open spec fn is_tag_of(items: Seq<ScanItem>, a: int, b: int, key: Seq<char>, file: Seq<char>) -> bool {
    &&& 0 <= a < items.len()
    &&& 0 <= b < items[a].secondary_tags@.len()
    &&& text::join(items[a].secondary_tags@[b]@, slash()) == key
    &&& items[a].path@ == file
}

/// True if one of the notes before note `i`, or note `i` among its tags
/// before tag `k`, carries the tag `key` and lies at `file`.
pub open spec fn tagged_before(
    items: Seq<ScanItem>,
    i: int,
    k: int,
    key: Seq<char>,
    file: Seq<char>,
) -> bool {
    exists|a: int, b: int| #[trigger]
        is_tag_of(items, a, b, key, file) && (a < i || (a == i && b < k))
}

/// True if one of the notes carries the tag `key` and lies at `file`.
pub open spec fn tagged(items: Seq<ScanItem>, key: Seq<char>, file: Seq<char>) -> bool {
    exists|a: int, b: int| #[trigger] is_tag_of(items, a, b, key, file)
}

/// Every tag that the groups list is carried by a note: where the groups
/// hold the notes of each tag and none of them is empty, each key is a tag
/// of the note at the first file of its group.
pub proof fn lemma_listed_tag_is_carried(items: Seq<ScanItem>, groups: Seq<Group>, j: int)
    requires
        forall|key: Seq<char>, file: Seq<char>|
            #[trigger] holds(groups, key, file) <==> tagged(items, key, file),
        no_empty_group(groups),
        0 <= j < groups.len(),
    ensures
        tagged(items, groups[j].key@, groups[j].members@[0]@),
{
    lemma_group_holds(groups, j);
}

/// The notes of each tag: for every secondary tag of the notes, by its
/// written form, the files of the notes that carry it. There is one group
/// for each tag that a note carries, and no other.
pub fn collect_all_tags(items: &Vec<ScanItem>) -> (r: Vec<Group>)
    ensures
        forall|key: Seq<char>, file: Seq<char>|
            #[trigger] holds(r@, key, file) <==> tagged(items@, key, file),
        distinct_keys(r@),
        no_empty_group(r@),
        forall|j: int| 0 <= j < r@.len() ==> sorted_texts(text::texts((#[trigger] r@[j]).members@)),
{
    let mut groups: Vec<Group> = Vec::new();
    let mut i: usize = 0;
    while i < items.len()
        invariant
            i <= items.len(),
            forall|key: Seq<char>, file: Seq<char>|
                #[trigger] holds(groups@, key, file) <==> tagged_before(
                    items@,
                    i as int,
                    0,
                    key,
                    file,
                ),
            distinct_keys(groups@),
            no_empty_group(groups@),
            forall|j: int|
                0 <= j < groups@.len() ==> sorted_texts(
                    text::texts((#[trigger] groups@[j]).members@),
                ),
        decreases items.len() - i,
    {
        let mut k: usize = 0;
        while k < items[i].secondary_tags.len()
            invariant
                i < items.len(),
                k <= items@[i as int].secondary_tags@.len(),
                forall|key: Seq<char>, file: Seq<char>|
                    #[trigger] holds(groups@, key, file) <==> tagged_before(
                        items@,
                        i as int,
                        k as int,
                        key,
                        file,
                    ),
                distinct_keys(groups@),
                no_empty_group(groups@),
                forall|j: int|
                    0 <= j < groups@.len() ==> sorted_texts(
                        text::texts((#[trigger] groups@[j]).members@),
                    ),
            decreases items@[i as int].secondary_tags@.len() - k,
        {
            let ghost before = groups@;
            let key = items[i].secondary_tags[k].to_slash_string();
            let file = items[i].path.clone();
            add_member(&mut groups, key, file);
            proof {
                assert forall|x: Seq<char>, f: Seq<char>| #[trigger] holds(groups@, x, f)
                    <==> tagged_before(items@, i as int, k + 1, x, f) by {
                    assert(holds(groups@, x, f) <==> holds(before, x, f) || (x == key@ && f
                        == file@));
                    assert(holds(before, x, f) <==> tagged_before(items@, i as int, k as int, x, f));
                    if tagged_before(items@, i as int, k + 1, x, f) {
                        let (a, b) = choose|a: int, b: int| #[trigger]
                            is_tag_of(items@, a, b, x, f) && (a < i || (a == i && b < k + 1));
                        if a == i && b == k {
                        } else {
                            assert(is_tag_of(items@, a, b, x, f) && (a < i || (a == i && b < k)));
                        }
                    }
                    if tagged_before(items@, i as int, k as int, x, f) {
                        let (a, b) = choose|a: int, b: int| #[trigger]
                            is_tag_of(items@, a, b, x, f) && (a < i || (a == i && b < k));
                        assert(is_tag_of(items@, a, b, x, f) && (a < i || (a == i && b < k + 1)));
                    }
                    if x == key@ && f == file@ {
                        assert(is_tag_of(items@, i as int, k as int, x, f));
                    }
                }
            }
            k += 1;
        }
        proof {
            assert forall|x: Seq<char>, f: Seq<char>| #[trigger] holds(groups@, x, f)
                <==> tagged_before(items@, i + 1, 0, x, f) by {
                assert(holds(groups@, x, f) <==> tagged_before(items@, i as int, k as int, x, f));
                if tagged_before(items@, i + 1, 0, x, f) {
                    let (a, b) = choose|a: int, b: int| #[trigger]
                        is_tag_of(items@, a, b, x, f) && (a < i + 1 || (a == i + 1 && b < 0));
                    assert(is_tag_of(items@, a, b, x, f) && (a < i || (a == i && b < k)));
                }
                if tagged_before(items@, i as int, k as int, x, f) {
                    let (a, b) = choose|a: int, b: int| #[trigger]
                        is_tag_of(items@, a, b, x, f) && (a < i || (a == i && b < k));
                    assert(is_tag_of(items@, a, b, x, f) && (a < i + 1 || (a == i + 1 && b < 0)));
                }
            }
        }
        i += 1;
    }
    proof {
        assert forall|x: Seq<char>, f: Seq<char>| #[trigger] holds(groups@, x, f) <==> tagged(
            items@,
            x,
            f,
        ) by {
            assert(holds(groups@, x, f) <==> tagged_before(items@, i as int, 0, x, f));
            if tagged(items@, x, f) {
                let (a, b) = choose|a: int, b: int| #[trigger] is_tag_of(items@, a, b, x, f);
                assert(is_tag_of(items@, a, b, x, f) && (a < i || (a == i && b < 0)));
            }
            if tagged_before(items@, i as int, 0, x, f) {
                let (a, b) = choose|a: int, b: int| #[trigger]
                    is_tag_of(items@, a, b, x, f) && (a < i || (a == i && b < 0));
                assert(is_tag_of(items@, a, b, x, f));
            }
        }
    }
    groups
}

/// True if one of the segments is `Archived`: such tags are left out of
/// listings.
pub fn is_archived(segments: &Vec<String>) -> (r: bool)
    ensures
        r == text::texts(segments@).contains("Archived"@),
{
    let mut i: usize = 0;
    while i < segments.len()
        invariant
            i <= segments.len(),
            forall|j: int| 0 <= j < i ==> text::texts(segments@)[j] != "Archived"@,
        decreases segments.len() - i,
    {
        if crate::paths::text_is(&segments[i], "Archived") {
            assert(text::texts(segments@)[i as int] == "Archived"@);
            return true;
        }
        i += 1;
    }
    false
}

/// The tag and the tags above it, as they are shown: for each prefix of the
/// segments that is not empty, its segments with `separator` between them;
/// the shortest first.
pub fn prefix_displays(segments: &Vec<String>, separator: &str) -> (r: Vec<String>)
    ensures
        r@.len() == segments@.len(),
        forall|k: int|
            0 <= k < r@.len() ==> (#[trigger] r@[k])@ == text::join(
                text::texts(segments@).take(k + 1),
                separator@,
            ),
{
    let sep = text::chars_of(separator);
    let mut out: Vec<String> = Vec::new();
    let mut k: usize = 0;
    while k < segments.len()
        invariant
            k <= segments.len(),
            sep@ == separator@,
            out@.len() == k,
            forall|j: int|
                0 <= j < k ==> (#[trigger] out@[j])@ == text::join(
                    text::texts(segments@).take(j + 1),
                    separator@,
                ),
        decreases segments.len() - k,
    {
        let prefix = crate::paths::head(segments, k + 1);
        out.push(text::string_of(&text::join_strings(&prefix, &sep)));
        k += 1;
    }
    out
}

/// The new segments of a tag when `old` is renamed to `new`; `None` where
/// the tag stays as it is. Without `recursive` only the tag `old` itself is
/// renamed; with it every tag below `old` moves below `new` as well.
pub open spec fn renamed_path(
    current: Seq<Seq<char>>,
    old: Seq<Seq<char>>,
    new: Seq<Seq<char>>,
    recursive: bool,
) -> Option<Seq<Seq<char>>> {
    if recursive {
        if old.is_prefix_of(current) {
            Some(new + current.skip(old.len() as int))
        } else {
            None
        }
    } else if current == old {
        Some(new)
    } else {
        None
    }
}

/// The list of tags after a rename, and whether a tag was renamed. Text
/// elements are trimmed; those that are renamed get their new written form.
/// Elements that are no text are dropped.
pub open spec fn renamed_items(
    items: Seq<ScalarView>,
    old: Seq<Seq<char>>,
    new: Seq<Seq<char>>,
    recursive: bool,
) -> (Seq<ScalarView>, bool)
    decreases items.len(),
{
    if items.len() == 0 {
        (Seq::empty(), false)
    } else {
        let rest = renamed_items(items.drop_last(), old, new, recursive);
        match items.last() {
            ScalarView::Text(t) => {
                let trimmed = text::trim(t);
                match renamed_path(segments_of(trimmed), old, new, recursive) {
                    Some(p) => (rest.0.push(ScalarView::Text(text::join(p, slash()))), true),
                    None => (rest.0.push(ScalarView::Text(trimmed)), rest.1),
                }
            },
            ScalarView::Other(_) => rest,
        }
    }
}

/// The front matter after a rename; `None` where no tag was renamed. Only
/// the list under the first of the tag keys that holds a list is looked at.
pub open spec fn renamed_front_matter(
    fm: Seq<EntryView>,
    old: Seq<Seq<char>>,
    new: Seq<Seq<char>>,
    recursive: bool,
) -> Option<Seq<EntryView>> {
    match declared_key(fm, tag_keys()) {
        Some(key) => match lookup(fm, key) {
            Some(FieldView::List(items)) => {
                let renamed = renamed_items(items, old, new, recursive);
                if renamed.1 {
                    Some(with_entry(fm, key, FieldView::List(renamed.0)))
                } else {
                    None
                }
            },
            _ => None,
        },
        None => None,
    }
}

/// True if `a` begins with `b`.
fn begins_with(a: &Vec<String>, b: &Vec<String>) -> (r: bool)
    ensures
        r == text::texts(b@).is_prefix_of(text::texts(a@)),
{
    crate::paths::starts_with(a, b)
}

/// The list of tags after a rename, and whether a tag was renamed.
pub fn rename_items(
    items: &Vec<Scalar>,
    old_path: &Vec<String>,
    new_path: &Vec<String>,
    recursive: bool,
) -> (r: (Vec<Scalar>, bool))
    ensures
        (scalar_views(r.0@), r.1) == renamed_items(
            scalar_views(items@),
            text::texts(old_path@),
            text::texts(new_path@),
            recursive,
        ),
{
    let ghost views = scalar_views(items@);
    let ghost old = text::texts(old_path@);
    let ghost new = text::texts(new_path@);
    let mut out: Vec<Scalar> = Vec::new();
    let mut any = false;
    let mut i: usize = 0;
    assert(views.take(0) == Seq::<ScalarView>::empty());
    assert(scalar_views(out@) == Seq::<ScalarView>::empty());
    let sep: Vec<char> = vec!['/'];
    assert(sep@ =~= slash());
    while i < items.len()
        invariant
            i <= items.len(),
            views == scalar_views(items@),
            old == text::texts(old_path@),
            new == text::texts(new_path@),
            sep@ == slash(),
            (scalar_views(out@), any) == renamed_items(views.take(i as int), old, new, recursive),
        decreases items.len() - i,
    {
        let ghost before = views.take(i as int);
        let ghost now = views.take(i + 1);
        let ghost old_out = scalar_views(out@);
        proof {
            assert(now.drop_last() == before);
            assert(now.last() == items@[i as int]@);
        }
        match &items[i] {
            Scalar::Text(t) => {
                let trimmed = text::trimmed(&text::chars_of(t.as_str()));
                let current = parse_segments(&trimmed);
                let should_update = if recursive {
                    begins_with(&current, old_path)
                } else {
                    crate::utils::vault::same_path(&current, old_path)
                };
                if should_update {
                    let mut updated = crate::paths::copy(new_path);
                    assert(new.take(new.len() as int) == new);
                    if recursive {
                        let mut rest = crate::paths::tail(&current, old_path.len());
                        let ghost first = text::texts(updated@);
                        let ghost second = text::texts(rest@);
                        updated.append(&mut rest);
                        assert(text::texts(updated@) =~= first + second);
                    }
                    let written = text::string_of(&text::join_strings(&updated, &sep));
                    let item = Scalar::Text(written);
                    out.push(item);
                    any = true;
                    assert(scalar_views(out@) == old_out.push(item@));
                } else {
                    let item = Scalar::Text(text::string_of(&trimmed));
                    out.push(item);
                    assert(scalar_views(out@) == old_out.push(item@));
                }
            },
            Scalar::Other(_) => {},
        }
        i += 1;
    }
    assert(views.take(items.len() as int) == views);
    (out, any)
}

/// Renames a tag in the front matter of a note. Says whether the front
/// matter was changed.
pub fn rename_in_front_matter(
    fm: &mut Frontmatter,
    old_path: &Vec<String>,
    new_path: &Vec<String>,
    recursive: bool,
) -> (r: bool)
    ensures
        match renamed_front_matter(
            old(fm)@,
            text::texts(old_path@),
            text::texts(new_path@),
            recursive,
        ) {
            Some(after) => r && final(fm)@ == after,
            None => !r && final(fm)@ == old(fm)@,
        },
{
    let key = match TagPath::key_in(fm) {
        Some(k) => k,
        None => {
            return false;
        },
    };
    let renamed = match fm.get(key) {
        Some(Field::List(items)) => rename_items(items, old_path, new_path, recursive),
        _ => {
            return false;
        },
    };
    if renamed.1 {
        fm.insert(key.to_owned(), Field::List(renamed.0));
        true
    } else {
        false
    }
}

/// Renames a tag in a note. Gives the new text of the note, or `None` where
/// the note stays as it is: where its front matter cannot be read, or holds
/// no tag that is renamed.
pub fn rename_tag(content: &str, old_path: &Vec<String>, new_path: &Vec<String>, recursive: bool) -> (r:
    Result<Option<String>, YamlError>)
    ensures
        match document_parts(content@) {
            None => r matches Ok(None),
            Some((fm, body)) => match renamed_front_matter(
                fm,
                text::texts(old_path@),
                text::texts(new_path@),
                recursive,
            ) {
                None => r matches Ok(None),
                Some(after) => match yaml_text(after) {
                    Some(yaml) => r matches Ok(Some(t)) && t@ == document_text_tight(yaml, body),
                    None => r is Err,
                },
            },
        },
{
    let (mut fm, body) = match extract(content) {
        Ok(parts) => parts,
        Err(_) => {
            return Ok(None);
        },
    };
    assert(document_parts(content@) == Some((fm@, body@)));
    if !rename_in_front_matter(&mut fm, old_path, new_path, recursive) {
        return Ok(None);
    }
    match fm.to_yaml() {
        Ok(yaml) => Ok(Some(document_tight(yaml.as_str(), body.as_str()))),
        Err(e) => Err(e),
    }
}

} // verus!
