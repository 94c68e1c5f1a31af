//! Rename: a directory and the directory that mirrors it in the other tree
//! get a new name together.

use crate::commands::obsidian::{
    is_best, longest_match, mirror_dir, prefix_matches, prefix_views, resolved_prefixes,
    work_prefixes,
};
use crate::notes::config::Config;
use crate::paths;
use crate::text;
use vstd::prelude::*;

verus! {

/// Why a directory could not be renamed.
#[derive(Debug, PartialEq, Eq)]
pub enum RenameError {
    /// No directory mappings are configured.
    NoMappings,
    /// No mapping holds the directory.
    NoMatch,
    /// The directory lies in the vault but not below the tag root.
    OutsideTagRoot,
    /// The directory in the other tree is not there.
    CounterpartMissing,
    /// A directory has no parent in which it could get a new name.
    NoParent,
    /// The new name is taken in the other tree.
    CounterpartTargetExists,
    /// The new name is taken beside the directory itself.
    TargetExists,
}

/// The tree in which a directory lies.
#[derive(Clone, Debug, PartialEq, Eq)]
pub enum Side {
    /// The documentation tree: the vault.
    Vault,
    /// A work tree.
    Work,
}

/// One directory that is to get a new name.
#[derive(Clone, Debug)]
pub struct Move {
    pub from: Vec<String>,
    pub to: Vec<String>,
}

/// The two renames of a dual rename. The counterpart, the directory in the
/// other tree, is renamed first.
#[derive(Clone, Debug)]
pub struct RenamePlan {
    pub counterpart: Move,
    pub current: Move,
}

/// `path` with `name` in place of its last component.
pub open spec fn sibling(path: Seq<Seq<char>>, name: Seq<char>) -> Option<Seq<Seq<char>>> {
    match paths::parent_of(path) {
        Some(dir) => Some(paths::joined(dir, paths::components_of(name))),
        None => None,
    }
}

/// The documentation paths of the mappings, as prefixes.
pub open spec fn doc_prefixes(mappings: Seq<(String, String)>) -> Seq<Option<Seq<Seq<char>>>> {
    mappings.map_values(|m: (String, String)| Some(paths::components_of(m.1@)))
}

/// The work directory that mirrors the place `relative` below the tag root,
/// by mapping `i`: what is left of the place after the documentation path
/// of the mapping, below the work directory of the mapping.
pub open spec fn work_mirror(
    mappings: Seq<(String, String)>,
    relative: Seq<Seq<char>>,
    i: int,
) -> Seq<Seq<char>> {
    paths::joined(
        paths::components_of(mappings[i].0@),
        relative.skip(doc_prefixes(mappings)[i]->0.len() as int),
    )
}

/// The tree in which `current` lies: the vault if it lies in the vault, else
/// a work tree.
pub fn side_of(current: &Vec<String>, vault: &Vec<String>) -> (r: Side)
    ensures
        r is Vault <==> text::texts(vault@).is_prefix_of(text::texts(current@)),
{
    if paths::starts_with(current, vault) {
        Side::Vault
    } else {
        Side::Work
    }
}

/// The directory in the vault that mirrors the work directory `current_dir`:
/// the mapping whose work directory holds it is found, the longest if there
/// are several, and the place of `current_dir` below that work directory is
/// taken below the documentation path of the mapping, below `tag_root`.
/// `canonical[i]` is the work directory of mapping `i` with links resolved,
/// or `None` if there is no such directory.
pub fn rename_from_productive(
    config: &Config,
    canonical: &Vec<Option<Vec<String>>>,
    current_dir: &Vec<String>,
    tag_root: &Vec<String>,
) -> (r: Result<Vec<String>, RenameError>)
    ensures
        ({
            let mappings = config.dir_mappings;
            let prefixes = work_prefixes(mappings->0@.len() as int, prefix_views(canonical@));
            match r {
                Ok(dir) => mappings is Some && exists|i: int|
                    #[trigger] is_best(text::texts(current_dir@), prefixes, i) && text::texts(dir@)
                        == mirror_dir(
                        text::texts(tag_root@),
                        mappings->0@[i].1@,
                        text::texts(current_dir@).skip(prefixes[i]->0.len() as int),
                    ),
                Err(RenameError::NoMappings) => mappings is None,
                Err(RenameError::NoMatch) => mappings is Some && forall|j: int|
                    !prefix_matches(text::texts(current_dir@), prefixes, j),
                Err(_) => false,
            }
        }),
{
    let mappings = match &config.dir_mappings {
        Some(m) => m,
        None => {
            return Err(RenameError::NoMappings);
        },
    };
    let ghost want = work_prefixes(mappings@.len() as int, prefix_views(canonical@));
    let prefixes = resolved_prefixes(mappings.len(), canonical);
    match longest_match(current_dir, &prefixes) {
        Some(b) => {
            match &prefixes[b] {
                Some(p) => {
                    assert(is_best(text::texts(current_dir@), want, b as int));
                    assert(want[b as int] == Some(text::texts(p@)));
                    let relative = paths::tail(current_dir, p.len());
                    let below = paths::join(tag_root, &paths::components(mappings[b].1.as_str()));
                    Ok(paths::join(&below, &relative))
                },
                None => {
                    assert(prefix_views(prefixes@)[b as int] is None);
                    assert(prefix_matches(text::texts(current_dir@), want, b as int));
                    Err(RenameError::NoMatch)
                },
            }
        },
        None => Err(RenameError::NoMatch),
    }
}

/// The work directory that the directory `current_dir` of the vault
/// mirrors: the place of `current_dir` below `tag_root` is taken; the
/// mapping whose documentation path holds that place is found, the longest
/// if there are several; what is left of the place after the documentation
/// path is taken below the work directory of the mapping.
pub fn rename_from_vault(config: &Config, current_dir: &Vec<String>, tag_root: &Vec<String>) -> (r:
    Result<Vec<String>, RenameError>)
    ensures
        ({
            let relative = paths::stripped(text::texts(current_dir@), text::texts(tag_root@));
            match r {
                Ok(dir) => relative is Some && config.dir_mappings is Some && exists|i: int|
                    #[trigger] is_best(relative->0, doc_prefixes(config.dir_mappings->0@), i)
                        && text::texts(dir@) == work_mirror(
                        config.dir_mappings->0@,
                        relative->0,
                        i,
                    ),
                Err(RenameError::OutsideTagRoot) => relative is None,
                Err(RenameError::NoMappings) => relative is Some && config.dir_mappings is None,
                Err(RenameError::NoMatch) => relative is Some && config.dir_mappings is Some
                    && forall|j: int|
                    !prefix_matches(relative->0, doc_prefixes(config.dir_mappings->0@), j),
                Err(_) => false,
            }
        }),
{
    let relative = match paths::strip_prefix(current_dir, tag_root) {
        Some(rel) => rel,
        None => {
            return Err(RenameError::OutsideTagRoot);
        },
    };
    let mappings = match &config.dir_mappings {
        Some(m) => m,
        None => {
            return Err(RenameError::NoMappings);
        },
    };
    let prefixes = documentation_prefixes(mappings);
    let ghost rel = text::texts(relative@);
    let ghost want = doc_prefixes(mappings@);
    match longest_match(&relative, &prefixes) {
        Some(b) => {
            match &prefixes[b] {
                Some(p) => {
                    assert(want[b as int] == Some(text::texts(p@)));
                    let remainder = paths::tail(&relative, p.len());
                    let work = paths::components(mappings[b].0.as_str());
                    let dir = paths::join(&work, &remainder);
                    proof {
                        let place = paths::stripped(
                            text::texts(current_dir@),
                            text::texts(tag_root@),
                        )->0;
                        let table = config.dir_mappings->0@;
                        assert(place == rel);
                        assert(table == mappings@);
                        assert(is_best(place, doc_prefixes(table), b as int));
                        assert(text::texts(dir@) == work_mirror(table, place, b as int));
                    }
                    Ok(dir)
                },
                None => {
                    assert(prefix_matches(rel, want, b as int));
                    Err(RenameError::NoMatch)
                },
            }
        },
        None => Err(RenameError::NoMatch),
    }
}

/// The documentation paths of the mappings, as prefixes.
pub fn documentation_prefixes(mappings: &Vec<(String, String)>) -> (r: Vec<Option<Vec<String>>>)
    ensures
        prefix_views(r@) == doc_prefixes(mappings@),
{
    let ghost want = doc_prefixes(mappings@);
    let mut prefixes: Vec<Option<Vec<String>>> = Vec::new();
    let mut i: usize = 0;
    while i < mappings.len()
        invariant
            i <= mappings.len(),
            want == doc_prefixes(mappings@),
            prefix_views(prefixes@) == want.take(i as int),
        decreases mappings.len() - i,
    {
        let ghost before = prefix_views(prefixes@);
        let doc = paths::components(mappings[i].1.as_str());
        let ghost doc_view = text::texts(doc@);
        prefixes.push(Some(doc));
        assert(prefix_views(prefixes@) == before.push(Some(doc_view)));
        i += 1;
    }
    assert(want.take(mappings@.len() as int) == want);
    prefixes
}

/// `path` with `name` in place of its last component.
pub fn renamed(path: &Vec<String>, name: &str) -> (r: Option<Vec<String>>)
    ensures
        match r {
            Some(p) => sibling(text::texts(path@), name@) == Some(text::texts(p@)),
            None => sibling(text::texts(path@), name@) is None,
        },
{
    match paths::parent(path) {
        Some(dir) => Some(paths::join(&dir, &paths::components(name))),
        None => None,
    }
}

/// The two renames that give `current_dir` and its counterpart the name
/// `new_name`, each beside where it is. Fails if the counterpart is not
/// there, or if one of the two has no parent.
pub fn plan(
    counterpart: &Vec<String>,
    counterpart_exists: bool,
    current_dir: &Vec<String>,
    new_name: &str,
) -> (r: Result<RenamePlan, RenameError>)
    ensures
        if !counterpart_exists {
            r matches Err(RenameError::CounterpartMissing)
        } else {
            match (
                sibling(text::texts(counterpart@), new_name@),
                sibling(text::texts(current_dir@), new_name@),
            ) {
                (Some(a), Some(b)) => r matches Ok(p) && text::texts(p.counterpart.from@)
                    == text::texts(counterpart@) && text::texts(p.counterpart.to@) == a
                    && text::texts(p.current.from@) == text::texts(current_dir@) && text::texts(
                    p.current.to@,
                ) == b,
                _ => r matches Err(RenameError::NoParent),
            }
        },
{
    if !counterpart_exists {
        return Err(RenameError::CounterpartMissing);
    }
    let new_counterpart = match renamed(counterpart, new_name) {
        Some(p) => p,
        None => {
            return Err(RenameError::NoParent);
        },
    };
    let new_current = match renamed(current_dir, new_name) {
        Some(p) => p,
        None => {
            return Err(RenameError::NoParent);
        },
    };
    Ok(
        RenamePlan {
            counterpart: Move {
                from: paths::copy(counterpart),
                to: new_counterpart,
            },
            current: Move { from: paths::copy(current_dir), to: new_current },
        },
    )
}

/// Whether the renames may begin: neither new name may be taken. This is
/// settled before the first rename, so that a name that is taken stops both.
pub fn check_targets(counterpart_target_exists: bool, target_exists: bool) -> (r: Result<
    (),
    RenameError,
>)
    ensures
        counterpart_target_exists ==> r matches Err(RenameError::CounterpartTargetExists),
        !counterpart_target_exists && target_exists ==> r matches Err(RenameError::TargetExists),
        !counterpart_target_exists && !target_exists ==> r is Ok,
{
    if counterpart_target_exists {
        Err(RenameError::CounterpartTargetExists)
    } else if target_exists {
        Err(RenameError::TargetExists)
    } else {
        Ok(())
    }
}

/// A run of retag that follows a dual rename.
#[derive(Debug)]
pub struct RetagRun {
    /// The directory whose notes are retagged, with all that is below it.
    pub dir: Vec<String>,
    /// Whether the notes are rewritten without backups.
    pub no_backup: bool,
    /// Whether the former tags are dropped, not kept as aliases.
    pub no_alias: bool,
}

/// What follows a dual rename that went through: unless `no_retag`, the
/// notes below the new directory of the vault are retagged, so that their
/// tags follow the new name; no backups are made, and the former tags are
/// kept as aliases. With `no_retag` nothing follows.
pub fn cascade(plan: &RenamePlan, side: &Side, no_retag: bool) -> (r: Option<RetagRun>)
    ensures
        no_retag ==> r is None,
        !no_retag ==> (r matches Some(run) && run.no_backup && !run.no_alias && text::texts(
            run.dir@,
        ) == (match side {
            Side::Vault => text::texts(plan.current.to@),
            Side::Work => text::texts(plan.counterpart.to@),
        })),
{
    if no_retag {
        None
    } else {
        Some(RetagRun { dir: retag_dir(plan, side), no_backup: true, no_alias: false })
    }
}

/// The directory in which the notes are retagged after a dual rename: the
/// new directory of the vault.
pub fn retag_dir(plan: &RenamePlan, side: &Side) -> (r: Vec<String>)
    ensures
        text::texts(r@) == (match side {
            Side::Vault => text::texts(plan.current.to@),
            Side::Work => text::texts(plan.counterpart.to@),
        }),
{
    match side {
        Side::Vault => {
            paths::copy(&plan.current.to)
        },
        Side::Work => {
            paths::copy(&plan.counterpart.to)
        },
    }
}

} // verus!
