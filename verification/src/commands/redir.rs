//! Redir: the place of a note follows the tag of the note.

use crate::commands::retag::{derived_tag, lemma_derived_tag, retagged_parts};
use crate::notes::config::{file_in, Config};
use crate::notes::frontmatter::{document_parts, extract, EntryView, YamlError};
use crate::paths;
use crate::tags::parser::{
    extract_primary_tag, frontmatter_tags, lemma_primary_tag_of_replaced, marker_close,
    primary_tag, slash, tag_views, valid_segments, TagPath,
};
use crate::text;
use vstd::prelude::*;

verus! {

/// Why a note could not be moved.
#[derive(Debug)]
pub enum RedirError {
    /// The path of the note does not end in a file name.
    InvalidFilename,
    /// There is a file at the destination already. Nothing is overwritten.
    DestinationExists,
    /// The front matter could not be read.
    Yaml(YamlError),
}

/// The tag that says where a note belongs.
#[derive(Debug)]
pub enum TagSelection {
    /// The note has no tag: it stays where it is.
    Nothing,
    /// The tag of the note.
    Tag(TagPath),
    /// The front matter declares several tags and the body has no primary
    /// tag: one of these is to be picked.
    Choose(Vec<TagPath>),
}

/// Where a note is to be moved.
#[derive(Clone, Debug)]
pub struct Destination {
    /// The directory that the tag stands for.
    pub dir: Vec<String>,
    /// The note in that directory.
    pub file: Vec<String>,
}

/// The tag that says where a note with these parts belongs: the primary tag
/// if there is one; else the tag that the front matter declares, if it
/// declares one only.
pub open spec fn selected(fm: Seq<EntryView>, body: Seq<char>) -> Option<Seq<Seq<char>>> {
    match primary_tag(body) {
        Some(p) => Some(p),
        None => if frontmatter_tags(fm).len() == 1 {
            Some(frontmatter_tags(fm)[0])
        } else {
            None
        },
    }
}

/// The directory that a tag stands for: the segments of the tag below the
/// directory of notes.
pub open spec fn tag_dir(notes_root: Seq<Seq<char>>, tag: Seq<Seq<char>>) -> Seq<Seq<char>> {
    notes_root + tag
}

/// Finds the tag that says where a note belongs.
pub fn select_tag(content: &str) -> (r: Result<TagSelection, RedirError>)
    ensures
        match document_parts(content@) {
            None => r matches Err(RedirError::Yaml(_)),
            Some((fm, body)) => match selected(fm, body) {
                Some(tag) => r matches Ok(TagSelection::Tag(t)) && t@ == tag && t.is_valid(),
                None => if frontmatter_tags(fm).len() == 0 {
                    r matches Ok(TagSelection::Nothing)
                } else {
                    r matches Ok(TagSelection::Choose(tags)) && tag_views(tags@)
                        == frontmatter_tags(fm)
                },
            },
        },
{
    let (fm, body) = match extract(content) {
        Ok(parts) => parts,
        Err(e) => {
            return Err(RedirError::Yaml(e));
        },
    };
    assert(document_parts(content@) == Some((fm@, body@)));
    match extract_primary_tag(body.as_str()) {
        Some(tag) => Ok(TagSelection::Tag(tag)),
        None => {
            let mut tags = TagPath::from_frontmatter(&fm);
            if tags.len() == 0 {
                Ok(TagSelection::Nothing)
            } else if tags.len() == 1 {
                let tag = tags.remove(0);
                Ok(TagSelection::Tag(tag))
            } else {
                Ok(TagSelection::Choose(tags))
            }
        },
    }
}

/// The tag that was picked among several; none if the pick was declined.
pub fn chosen_tag(tags: Vec<TagPath>, choice: Option<usize>) -> (r: Option<TagPath>)
    requires
        choice matches Some(i) ==> i < tags@.len(),
    ensures
        match choice {
            Some(i) => r matches Some(t) && t == tags@[i as int],
            None => r is None,
        },
{
    let mut tags = tags;
    match choice {
        Some(i) => Some(tags.remove(i)),
        None => None,
    }
}

/// The directory that `tag` stands for: its segments below the directory of
/// notes of the vault.
pub fn tag_directory(vault: &Vec<String>, config: &Config, tag: &TagPath) -> (r: Vec<String>)
    ensures
        text::texts(r@) == tag_dir(config.notes_root_of(text::texts(vault@)), tag@),
{
    let mut dir = config.notes_path(vault);
    let mut segments = paths::copy(&tag.0);
    let ghost first = text::texts(dir@);
    let ghost second = text::texts(segments@);
    dir.append(&mut segments);
    assert(text::texts(dir@) =~= first + second);
    dir
}

/// Where the note at `path` goes when `tag` is its tag: into the directory
/// that the tag stands for, under its own name. Fails if the path does not
/// end in a file name.
pub fn destination(vault: &Vec<String>, config: &Config, path: &Vec<String>, tag: &TagPath) -> (r:
    Result<Destination, RedirError>)
    ensures
        match paths::file_name_of(text::texts(path@)) {
            Some(name) => r matches Ok(d) && text::texts(d.dir@) == tag_dir(
                config.notes_root_of(text::texts(vault@)),
                tag@,
            ) && text::texts(d.file@) == text::texts(d.dir@).push(name),
            None => r matches Err(RedirError::InvalidFilename),
        },
{
    let name = match paths::file_name(path) {
        Some(n) => n,
        None => {
            return Err(RedirError::InvalidFilename);
        },
    };
    let dir = tag_directory(vault, config, tag);
    let file = file_in(&dir, name.as_str());
    Ok(Destination { dir, file })
}

/// Whether the note is to be moved. `same_place` says that the note lies in
/// the directory of its tag already: then it stays. `taken` says that there
/// is a file at the destination: then the move fails.
pub fn settle(same_place: bool, taken: bool) -> (r: Result<bool, RedirError>)
    ensures
        same_place ==> r matches Ok(false),
        !same_place && taken ==> r matches Err(RedirError::DestinationExists),
        !same_place && !taken ==> r matches Ok(true),
{
    if same_place {
        Ok(false)
    } else if taken {
        Err(RedirError::DestinationExists)
    } else {
        Ok(true)
    }
}

/// Redir undoes nothing that retag did. A note lies in the directories
/// `dirs` below the tag root, which is the directory of notes as well, and
/// the names of the directories are valid segments that hold neither ` }`
/// nor a line end. When the note has been retagged, whether that changed it
/// or not, the tag that redir selects is the tag of its place, and the
/// directory of that tag is the directory in which the note lies.
pub proof fn lemma_redir_after_retag(
    root: Seq<Seq<char>>,
    dirs: Seq<Seq<char>>,
    file: Seq<char>,
    fm: Seq<EntryView>,
    body: Seq<char>,
    date: Seq<char>,
    no_alias: bool,
)
    requires
        dirs.len() > 0,
        valid_segments(dirs),
        !text::contains(text::join(dirs, slash()), marker_close()),
        !text::join(dirs, slash()).contains('\n'),
    ensures
        ({
            let path = (root + dirs).push(file);
            let derived = text::join(dirs, slash());
            &&& derived_tag(root, path) == Some(derived)
            &&& match retagged_parts(fm, body, derived, date, no_alias) {
                Some((new_fm, new_body)) => selected(new_fm, new_body) == Some(dirs),
                None => selected(fm, body) == Some(dirs),
            }
            &&& paths::parent_of(path) == Some(tag_dir(root, dirs))
        }),
{
    let path = (root + dirs).push(file);
    let derived = text::join(dirs, slash());
    lemma_derived_tag(root, dirs, file, fm, body, date, no_alias);
    assert forall|i: int, j: int|
        0 <= i < dirs.len() && 0 <= j < dirs[i].len() implies #[trigger] dirs[i][j] != '/' by {
        assert(crate::tags::parser::valid_segment(dirs[i]));
    }
    assert(slash() =~= seq!['/']);
    text::lemma_split_join(dirs, '/');
    lemma_primary_tag_of_replaced(body, dirs);
    assert forall|i: int| 0 <= i < dirs.len() implies (#[trigger] dirs[i]).len() > 0 by {
        assert(crate::tags::parser::valid_segment(dirs[i]));
    }
    text::lemma_join_ends(dirs, slash());
    match retagged_parts(fm, body, derived, date, no_alias) {
        Some(_) => {},
        None => {
            let old = primary_tag(body)->0;
            let t = crate::tags::parser::primary_tag_text(body)->0;
            crate::tags::parser::lemma_segments_valid(text::trim(t));
            crate::tags::parser::lemma_segments_of_joined(old);
            crate::tags::parser::lemma_segments_of_joined(dirs);
        },
    }
    assert(path.drop_last() =~= root + dirs);
}

} // verus!
