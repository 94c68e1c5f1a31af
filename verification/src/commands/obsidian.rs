//! Notes for a work directory: which place in the vault mirrors it.

use crate::notes::config::Config;
use crate::paths;
use crate::tags::parser::slash;
use crate::text;
use vstd::prelude::*;

verus! {

/// Why no place in the vault could be found for a work directory.
#[derive(Debug, PartialEq, Eq)]
pub enum MappingError {
    /// No directory mappings are configured.
    NoMappings,
    /// No configured work directory holds the directory.
    NoMatch,
    /// The directory is the work directory of the mapping itself and the
    /// mapping has no documentation path: there is no tag to give.
    MappingRoot,
}

/// The place of the notes of a work directory.
#[derive(Clone, Debug)]
pub struct NotePlace {
    /// The tag of the notes, in its written form.
    pub tag: String,
    /// The directory of the notes.
    pub dir: Vec<String>,
}

/// True if prefix `i` is there, is not empty and is a prefix of `current`.
pub open spec fn prefix_matches(
    current: Seq<Seq<char>>,
    prefixes: Seq<Option<Seq<Seq<char>>>>,
    i: int,
) -> bool {
    0 <= i < prefixes.len() && prefixes[i] is Some && prefixes[i]->0.len() > 0
        && prefixes[i]->0.is_prefix_of(current)
}

/// True if prefix `i` is the one that wins: it matches, no matching prefix
/// is longer, and none of the same length stands before it.
pub open spec fn is_best(
    current: Seq<Seq<char>>,
    prefixes: Seq<Option<Seq<Seq<char>>>>,
    i: int,
) -> bool {
    &&& prefix_matches(current, prefixes, i)
    &&& forall|j: int| #[trigger]
        prefix_matches(current, prefixes, j) ==> prefixes[j]->0.len() <= prefixes[i]->0.len()
    &&& forall|j: int| #[trigger]
        prefix_matches(current, prefixes, j) && j < i ==> prefixes[j]->0.len() < prefixes[i]->0.len()
}

/// What a list of prefixes stands for.
pub open spec fn prefix_views(prefixes: Seq<Option<Vec<String>>>) -> Seq<Option<Seq<Seq<char>>>> {
    prefixes.map_values(
        |p: Option<Vec<String>>|
            match p {
                Some(v) => Some(text::texts(v@)),
                None => None,
            },
    )
}

/// The prefix that wins for `current`: the longest of those that are
/// prefixes of it, the first of them if several are as long. Prefixes that
/// are missing or empty never win.
pub fn longest_match(current: &Vec<String>, prefixes: &Vec<Option<Vec<String>>>) -> (r: Option<
    usize,
>)
    ensures
        match r {
            Some(i) => is_best(text::texts(current@), prefix_views(prefixes@), i as int),
            None => forall|j: int| !prefix_matches(text::texts(current@), prefix_views(prefixes@), j),
        },
{
    let ghost cur = text::texts(current@);
    let ghost views = prefix_views(prefixes@);
    let mut best: Option<usize> = None;
    let mut best_len: usize = 0;
    let mut i: usize = 0;
    while i < prefixes.len()
        invariant
            i <= prefixes.len(),
            cur == text::texts(current@),
            views == prefix_views(prefixes@),
            match best {
                Some(b) => b < i && prefix_matches(cur, views, b as int) && best_len == views[b as int]->0.len()
                    && (forall|j: int| #[trigger]
                    prefix_matches(cur, views, j) && j < i ==> views[j]->0.len() <= best_len) && (
                forall|j: int| #[trigger]
                    prefix_matches(cur, views, j) && j < b ==> views[j]->0.len() < best_len),
                None => best_len == 0 && forall|j: int| 0 <= j < i ==> !prefix_matches(cur, views, j),
            },
        decreases prefixes.len() - i,
    {
        match &prefixes[i] {
            Some(p) => {
                assert(views[i as int] == Some(text::texts(p@)));
                if paths::starts_with(current, p) && p.len() > best_len {
                    best = Some(i);
                    best_len = p.len();
                }
            },
            None => {
                assert(views[i as int] is None);
            },
        }
        i += 1;
    }
    best
}

/// The canonical work directories that go with the mappings: the one at the
/// place of each mapping, none where the list is shorter.
pub open spec fn work_prefixes(
    count: int,
    canonical: Seq<Option<Seq<Seq<char>>>>,
) -> Seq<Option<Seq<Seq<char>>>> {
    Seq::new(
        count as nat,
        |i: int|
            if i < canonical.len() {
                canonical[i]
            } else {
                None
            },
    )
}

/// The canonical work directories that go with `count` mappings.
pub fn resolved_prefixes(count: usize, canonical: &Vec<Option<Vec<String>>>) -> (r: Vec<
    Option<Vec<String>>,
>)
    ensures
        prefix_views(r@) == work_prefixes(count as int, prefix_views(canonical@)),
{
    let ghost want = work_prefixes(count as int, prefix_views(canonical@));
    let mut prefixes: Vec<Option<Vec<String>>> = Vec::new();
    let mut i: usize = 0;
    while i < count
        invariant
            i <= count,
            want == work_prefixes(count as int, prefix_views(canonical@)),
            prefix_views(prefixes@) == want.take(i as int),
        decreases count - i,
    {
        let ghost before = prefix_views(prefixes@);
        if i < canonical.len() {
            match &canonical[i] {
                Some(p) => {
                    let copy = paths::copy(p);
                    prefixes.push(Some(copy));
                    assert(prefix_views(prefixes@) == before.push(Some(text::texts(p@))));
                },
                None => {
                    prefixes.push(None);
                    assert(prefix_views(prefixes@) == before.push(None));
                },
            }
        } else {
            prefixes.push(None);
            assert(prefix_views(prefixes@) == before.push(None));
        }
        i += 1;
    }
    assert(want.take(count as int) == want);
    prefixes
}

/// Finds the mapping whose work directory holds `current`. `canonical[i]`
/// is the work directory of mapping `i` with links resolved, or `None` if
/// there is no such directory: that mapping is passed over. Of several work
/// directories that hold `current` the longest wins. Gives the work
/// directory and the documentation path of the mapping.
pub fn find_matching_mapping(
    current: &Vec<String>,
    config: &Config,
    canonical: &Vec<Option<Vec<String>>>,
) -> (r: Result<(Vec<String>, String), MappingError>)
    ensures
        match config.dir_mappings {
            None => r matches Err(MappingError::NoMappings),
            Some(mappings) => {
                let prefixes = work_prefixes(mappings@.len() as int, prefix_views(canonical@));
                if mappings@.len() == 0 {
                    r matches Err(MappingError::NoMappings)
                } else {
                    match r {
                        Ok((work, doc)) => exists|i: int|
                            #[trigger] is_best(text::texts(current@), prefixes, i) && prefixes[i] == Some(
                                text::texts(work@),
                            ) && doc@ == mappings@[i].1@,
                        Err(e) => e is NoMatch && forall|j: int|
                            !prefix_matches(text::texts(current@), prefixes, j),
                    }
                }
            },
        },
{
    let mappings = match &config.dir_mappings {
        Some(m) => m,
        None => {
            return Err(MappingError::NoMappings);
        },
    };
    if mappings.len() == 0 {
        return Err(MappingError::NoMappings);
    }
    let ghost want = work_prefixes(mappings@.len() as int, prefix_views(canonical@));
    let prefixes = resolved_prefixes(mappings.len(), canonical);
    match longest_match(current, &prefixes) {
        Some(b) => {
            match &prefixes[b] {
                Some(p) => {
                    let work = paths::copy(p);
                    let doc = mappings[b].1.clone();
                    assert(is_best(text::texts(current@), want, b as int));
                    Ok((work, doc))
                },
                None => Err(MappingError::NoMatch),
            }
        },
        None => Err(MappingError::NoMatch),
    }
}

/// The segments that a documentation path and a place below the work
/// directory give a tag: the pieces of the path that are not empty, then the
/// components of the place.
pub open spec fn place_segments(doc_subpath: Seq<char>, relative: Seq<Seq<char>>) -> Seq<
    Seq<char>,
> {
    nonempty(text::split(doc_subpath, '/')) + relative
}

/// The pieces that are not empty.
pub open spec fn nonempty(pieces: Seq<Seq<char>>) -> Seq<Seq<char>>
    decreases pieces.len(),
{
    if pieces.len() == 0 {
        Seq::empty()
    } else if pieces.last().len() == 0 {
        nonempty(pieces.drop_last())
    } else {
        nonempty(pieces.drop_last()).push(pieces.last())
    }
}

/// The directory in the vault that mirrors the place `relative` below a
/// work directory whose documentation path is `doc_subpath`.
pub open spec fn mirror_dir(
    tag_root: Seq<Seq<char>>,
    doc_subpath: Seq<char>,
    relative: Seq<Seq<char>>,
) -> Seq<Seq<char>> {
    paths::joined(paths::joined(tag_root, paths::components_of(doc_subpath)), relative)
}

/// The tag and the directory of the notes of a work directory: `relative` is
/// the place of the directory below the work directory of its mapping,
/// `doc_subpath` the documentation path of the mapping. Fails if there is no
/// segment to make a tag of.
pub fn note_place(
    vault: &Vec<String>,
    config: &Config,
    doc_subpath: &str,
    relative: &Vec<String>,
) -> (r: Result<NotePlace, MappingError>)
    ensures
        ({
            let segments = place_segments(doc_subpath@, text::texts(relative@));
            if segments.len() == 0 {
                r matches Err(MappingError::MappingRoot)
            } else {
                r matches Ok(place) && place.tag@ == text::join(segments, slash())
                    && text::texts(place.dir@) == mirror_dir(
                    config.tag_root_of(text::texts(vault@)),
                    doc_subpath@,
                    text::texts(relative@),
                )
            }
        }),
{
    let chars = text::chars_of(doc_subpath);
    let pieces = text::split_on(&chars, '/');
    let mut segments: Vec<String> = Vec::new();
    let mut i: usize = 0;
    assert(text::pieces(pieces@).take(0) == Seq::<Seq<char>>::empty());
    assert(text::texts(segments@) == Seq::<Seq<char>>::empty());
    while i < pieces.len()
        invariant
            i <= pieces.len(),
            text::texts(segments@) == nonempty(text::pieces(pieces@).take(i as int)),
        decreases pieces.len() - i,
    {
        let ghost before = text::pieces(pieces@).take(i as int);
        let ghost now = text::pieces(pieces@).take(i + 1);
        let ghost old_segments = text::texts(segments@);
        proof {
            assert(now.drop_last() == before);
            assert(now.last() == pieces@[i as int]@);
        }
        if pieces[i].len() > 0 {
            segments.push(text::string_of(&pieces[i]));
            assert(text::texts(segments@) == old_segments.push(pieces@[i as int]@));
        }
        i += 1;
    }
    assert(text::pieces(pieces@).take(pieces.len() as int) == text::pieces(pieces@));
    let mut rest = paths::copy(relative);
    let ghost first = text::texts(segments@);
    let ghost second = text::texts(rest@);
    segments.append(&mut rest);
    assert(text::texts(segments@) =~= first + second);
    if segments.len() == 0 {
        return Err(MappingError::MappingRoot);
    }
    let sep: Vec<char> = vec!['/'];
    assert(sep@ =~= slash());
    let tag = text::string_of(&text::join_strings(&segments, &sep));
    let tag_root = config.tag_root_path(vault);
    let below = paths::join(&tag_root, &paths::components(doc_subpath));
    let dir = paths::join(&below, relative);
    Ok(NotePlace { tag, dir })
}

} // verus!
