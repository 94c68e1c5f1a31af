//! The tree of the primary tags of the notes, and the directories in which
//! the notes of each primary tag lie.

use crate::groups::{
    add_member, distinct_keys, holds, lemma_group_holds, no_empty_group, sorted_texts, Group,
};
use crate::paths;
use crate::tags::cache::in_some_tag;
use crate::tags::parser::slash;
use crate::tags::tree::{is_prefix_of_path, TagNode};
use crate::text;
use crate::vault::scan::ScanItem;
use vstd::prelude::*;

verus! {

/// What is known of the primary tags of a vault.
#[derive(Debug)]
pub struct PrimaryTagCache {
    pub root: TagNode,
    pub dirs_by_tag: Vec<Group>,
}

/// The directory of a note as it is kept with its tag: the directory in
/// which the note lies, written from the vault on if it lies in the vault.
/// A path without a parent counts as the vault itself.
pub open spec fn note_dir(vault: Seq<Seq<char>>, path: Seq<Seq<char>>) -> Seq<char> {
    let dir = match paths::parent_of(path) {
        Some(p) => p,
        None => vault,
    };
    match paths::stripped(dir, vault) {
        Some(rel) => paths::written(rel),
        None => paths::written(dir),
    }
}

/// True if note `i` has the primary tag `key` and lies in `dir`.
pub open spec fn is_note_of(
    vault: Seq<Seq<char>>,
    items: Seq<ScanItem>,
    i: int,
    key: Seq<char>,
    dir: Seq<char>,
) -> bool {
    &&& 0 <= i < items.len()
    &&& items[i].primary_tag is Some
    &&& text::join(items[i].primary_tag->0@, slash()) == key
    &&& note_dir(vault, paths::components_of(items[i].path@)) == dir
}

/// True if one of the notes has the primary tag `key` and lies in `dir`.
pub open spec fn found_in(
    vault: Seq<Seq<char>>,
    items: Seq<ScanItem>,
    key: Seq<char>,
    dir: Seq<char>,
) -> bool {
    exists|i: int| #[trigger] is_note_of(vault, items, i, key, dir)
}

/// The primary tags of the notes that have one.
pub open spec fn primaries(items: Seq<ScanItem>) -> Seq<Seq<Seq<char>>>
    decreases items.len(),
{
    if items.len() == 0 {
        Seq::empty()
    } else {
        match items.last().primary_tag {
            Some(p) => primaries(items.drop_last()).push(p@),
            None => primaries(items.drop_last()),
        }
    }
}

/// Every tag that the groups list is the primary tag of a note: where the
/// groups hold what is found in the notes and none of them is empty, each
/// key is the primary tag of a note that lies in the first directory of its
/// group.
pub proof fn lemma_listed_tag_has_note(
    vault: Seq<Seq<char>>,
    items: Seq<ScanItem>,
    groups: Seq<Group>,
    j: int,
)
    requires
        forall|key: Seq<char>, dir: Seq<char>|
            #[trigger] holds(groups, key, dir) <==> found_in(vault, items, key, dir),
        no_empty_group(groups),
        0 <= j < groups.len(),
    ensures
        found_in(vault, items, groups[j].key@, groups[j].members@[0]@),
{
    lemma_group_holds(groups, j);
}

/// The directory of a note as it is kept with its tag.
pub fn dir_of_note(vault: &Vec<String>, path: &str) -> (r: String)
    ensures
        r@ == note_dir(text::texts(vault@), paths::components_of(path@)),
{
    let parts = paths::components(path);
    let dir = match paths::parent(&parts) {
        Some(p) => p,
        None => {
            paths::copy(vault)
        },
    };
    match paths::strip_prefix(&dir, vault) {
        Some(rel) => paths::to_text(&rel),
        None => paths::to_text(&dir),
    }
}

/// What is known of the primary tags of the notes: the tree of the primary
/// tags, and for each primary tag the directories in which its notes lie.
/// There is one group for each primary tag that a note has, and no other:
/// the groups have distinct keys, and each holds at least the directory of
/// one note of its tag.
pub fn collect(vault: &Vec<String>, items: &Vec<ScanItem>) -> (r: PrimaryTagCache)
    ensures
        r.root.name@ == "root"@,
        r.root.is_sorted(),
        forall|p: Seq<Seq<char>>|
            #[trigger] r.root.has_path(p) <==> in_some_tag(p, primaries(items@)),
        forall|key: Seq<char>, dir: Seq<char>|
            #[trigger] holds(r.dirs_by_tag@, key, dir) <==> found_in(
                text::texts(vault@),
                items@,
                key,
                dir,
            ),
        distinct_keys(r.dirs_by_tag@),
        no_empty_group(r.dirs_by_tag@),
        forall|j: int|
            0 <= j < r.dirs_by_tag@.len() ==> sorted_texts(
                text::texts((#[trigger] r.dirs_by_tag@[j]).members@),
            ),
{
    let mut root = TagNode::new("root".to_owned());
    let mut entries: Vec<Group> = Vec::new();
    let ghost v = text::texts(vault@);
    let mut i: usize = 0;
    assert(items@.take(0) == Seq::<ScanItem>::empty());
    while i < items.len()
        invariant
            i <= items.len(),
            v == text::texts(vault@),
            root.name@ == "root"@,
            root.is_sorted(),
            forall|p: Seq<Seq<char>>|
                #[trigger] root.has_path(p) <==> in_some_tag(p, primaries(items@.take(i as int))),
            forall|key: Seq<char>, dir: Seq<char>|
                #[trigger] holds(entries@, key, dir) <==> found_in(
                    v,
                    items@.take(i as int),
                    key,
                    dir,
                ),
            distinct_keys(entries@),
            no_empty_group(entries@),
            forall|j: int|
                0 <= j < entries@.len() ==> sorted_texts(
                    text::texts((#[trigger] entries@[j]).members@),
                ),
        decreases items.len() - i,
    {
        let ghost before_root = root;
        let ghost before_entries = entries@;
        let ghost seen = items@.take(i as int);
        let ghost now = items@.take(i + 1);
        proof {
            assert(now.drop_last() == seen);
            assert(now.last() == items@[i as int]);
        }
        match &items[i].primary_tag {
            Some(primary) => {
                root.insert_path(primary.0.as_slice());
                let dir = dir_of_note(vault, items[i].path.as_str());
                let key = primary.to_slash_string();
                add_member(&mut entries, key, dir);
                proof {
                    let tags = primaries(seen);
                    let more = primaries(now);
                    assert(more == tags.push(primary@));
                    assert forall|p: Seq<Seq<char>>| #[trigger] root.has_path(p) <==> in_some_tag(
                        p,
                        more,
                    ) by {
                        assert(root.has_path(p) <==> before_root.has_path(p) || is_prefix_of_path(
                            p,
                            primary@,
                        ));
                        if in_some_tag(p, more) {
                            let k = choose|k: int|
                                0 <= k < more.len() && is_prefix_of_path(p, #[trigger] more[k]);
                            if k < tags.len() {
                                assert(tags[k] == more[k]);
                                assert(in_some_tag(p, tags));
                            }
                        }
                        if in_some_tag(p, tags) {
                            let k = choose|k: int|
                                0 <= k < tags.len() && is_prefix_of_path(p, #[trigger] tags[k]);
                            assert(more[k] == tags[k]);
                        }
                        if is_prefix_of_path(p, primary@) {
                            assert(is_prefix_of_path(p, more[more.len() - 1]));
                        }
                    }
                    assert forall|k: Seq<char>, d: Seq<char>| #[trigger] holds(entries@, k, d)
                        <==> found_in(v, now, k, d) by {
                        assert(holds(entries@, k, d) <==> holds(before_entries, k, d) || (k
                            == key@ && d == dir@));
                        assert(holds(before_entries, k, d) <==> found_in(v, seen, k, d));
                        if found_in(v, now, k, d) {
                            let m = choose|m: int| #[trigger] is_note_of(v, now, m, k, d);
                            if m < seen.len() {
                                assert(seen[m] == now[m]);
                                assert(is_note_of(v, seen, m, k, d));
                            }
                        }
                        if found_in(v, seen, k, d) {
                            let m = choose|m: int| #[trigger] is_note_of(v, seen, m, k, d);
                            assert(now[m] == seen[m]);
                            assert(is_note_of(v, now, m, k, d));
                        }
                        if k == key@ && d == dir@ {
                            assert(is_note_of(v, now, i as int, k, d));
                        }
                    }
                }
            },
            None => {
                proof {
                    assert(primaries(now) == primaries(seen));
                    assert forall|k: Seq<char>, d: Seq<char>| #[trigger] holds(entries@, k, d)
                        <==> found_in(v, now, k, d) by {
                        assert(holds(before_entries, k, d) <==> found_in(v, seen, k, d));
                        if found_in(v, now, k, d) {
                            let m = choose|m: int| #[trigger] is_note_of(v, now, m, k, d);
                            assert(m < seen.len());
                            assert(seen[m] == now[m]);
                            assert(is_note_of(v, seen, m, k, d));
                        }
                        if found_in(v, seen, k, d) {
                            let m = choose|m: int| #[trigger] is_note_of(v, seen, m, k, d);
                            assert(now[m] == seen[m]);
                            assert(is_note_of(v, now, m, k, d));
                        }
                    }
                }
            },
        }
        i += 1;
    }
    assert(items@.take(items.len() as int) == items@);
    PrimaryTagCache { root, dirs_by_tag: entries }
}

} // verus!
