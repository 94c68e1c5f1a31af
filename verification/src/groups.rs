//! Groups: keys, each with the texts that belong to it.

use crate::text;
use vstd::prelude::*;

verus! {

/// A key and what belongs to it.
#[derive(Clone, Debug)]
pub struct Group {
    pub key: String,
    /// The members, in the order of strings, each once.
    pub members: Vec<String>,
}

/// True if the texts stand in the order of strings, each once.
pub open spec fn sorted_texts(list: Seq<Seq<char>>) -> bool {
    forall|j: int, k: int| 0 <= j < k < list.len() ==> text::lex_less(list[j], list[k])
}

/// True if the group of `key` holds `dir`.
pub open spec fn holds(entries: Seq<Group>, key: Seq<char>, dir: Seq<char>) -> bool {
    exists|j: int|
        0 <= j < entries.len() && (#[trigger] entries[j]).key@ == key && text::texts(
            entries[j].members@,
        ).contains(dir)
}

/// True if no two groups have the same key.
pub open spec fn distinct_keys(entries: Seq<Group>) -> bool {
    forall|j: int, k: int|
        0 <= j < k < entries.len() ==> (#[trigger] entries[j]).key@ != (#[trigger] entries[k]).key@
}

/// True if every group has a member.
pub open spec fn no_empty_group(entries: Seq<Group>) -> bool {
    forall|j: int| 0 <= j < entries.len() ==> (#[trigger] entries[j]).members@.len() > 0
}

/// A group that is not empty holds its first member under its key: where no
/// group is empty, every key is the key of something that is held.
pub proof fn lemma_group_holds(entries: Seq<Group>, j: int)
    requires
        no_empty_group(entries),
        0 <= j < entries.len(),
    ensures
        holds(entries, entries[j].key@, entries[j].members@[0]@),
{
    let members = text::texts(entries[j].members@);
    assert(members[0] == entries[j].members@[0]@);
    assert(members.contains(members[0]));
}

/// Where `s` stands in the list or, if it is not there, where it would have
/// to stand: the first position whose text does not come before `s`.
pub fn sorted_slot(list: &Vec<String>, s: &String) -> (r: (usize, bool))
    ensures
        r.0 <= list@.len(),
        forall|j: int| 0 <= j < r.0 ==> text::lex_less(#[trigger] text::texts(list@)[j], s@),
        r.1 ==> r.0 < list@.len() && text::texts(list@)[r.0 as int] == s@,
        !r.1 && r.0 < list@.len() ==> text::lex_less(s@, text::texts(list@)[r.0 as int]),
{
    let wanted = text::chars_of(s.as_str());
    let mut i: usize = 0;
    while i < list.len()
        invariant
            i <= list.len(),
            wanted@ == s@,
            forall|j: int| 0 <= j < i ==> text::lex_less(#[trigger] text::texts(list@)[j], s@),
        decreases list.len() - i,
    {
        let here = text::chars_of(list[i].as_str());
        if !text::comes_before(&here, &wanted) {
            let found = !text::comes_before(&wanted, &here);
            proof {
                text::lemma_lex_total(here@, wanted@);
            }
            return (i, found);
        }
        i += 1;
    }
    (i, false)
}

/// Where the group of `key` stands, if there is one.
pub fn find_key(entries: &Vec<Group>, key: &String) -> (r: Option<usize>)
    ensures
        match r {
            Some(i) => i < entries@.len() && entries@[i as int].key@ == key@,
            None => forall|j: int| 0 <= j < entries@.len() ==> (#[trigger] entries@[j]).key@ != key@,
        },
{
    let mut i: usize = 0;
    while i < entries.len()
        invariant
            i <= entries.len(),
            forall|j: int| 0 <= j < i ==> (#[trigger] entries@[j]).key@ != key@,
        decreases entries.len() - i,
    {
        if entries[i].key == *key {
            return Some(i);
        }
        i += 1;
    }
    None
}

/// Puts `s` into a list that is kept in the order of strings, unless it is
/// there.
pub fn insert_sorted(list: &mut Vec<String>, s: String)
    ensures
        forall|x: Seq<char>|
            #[trigger] text::texts(final(list)@).contains(x) <==> text::texts(old(list)@).contains(
                x,
            ) || x == s@,
        sorted_texts(text::texts(old(list)@)) ==> sorted_texts(text::texts(final(list)@)),
{
    let ghost before = text::texts(list@);
    let (i, found) = sorted_slot(list, &s);
    if found {
        assert forall|x: Seq<char>| #[trigger] text::texts(list@).contains(x) <==> before.contains(
            x,
        ) || x == s@ by {
            if x == s@ {
                assert(before[i as int] == x);
            }
        }
        return;
    }
    list.insert(i, s);
    proof {
        let after = text::texts(list@);
        assert(after =~= before.insert(i as int, s@));
        assert forall|x: Seq<char>| #[trigger] after.contains(x) <==> before.contains(x) || x
            == s@ by {
            if after.contains(x) {
                let k = choose|k: int| 0 <= k < after.len() && after[k] == x;
                if k < i {
                    assert(before[k] == x);
                } else if k > i {
                    assert(before[k - 1] == x);
                }
            }
            if before.contains(x) {
                let k = choose|k: int| 0 <= k < before.len() && before[k] == x;
                if k < i {
                    assert(after[k] == x);
                } else {
                    assert(after[k + 1] == x);
                }
            }
            if x == s@ {
                assert(after[i as int] == x);
            }
        }
        if sorted_texts(before) {
            assert forall|j: int, k: int| 0 <= j < k < after.len() implies text::lex_less(
                after[j],
                after[k],
            ) by {
                if k < i {
                } else if k == i {
                } else if j == i {
                    if k - 1 > i {
                        text::lemma_lex_transitive(s@, before[i as int], before[k - 1]);
                    }
                } else if j < i {
                    assert(after[k] == before[k - 1]);
                } else {
                    assert(after[j] == before[j - 1] && after[k] == before[k - 1]);
                }
            }
        }
    }
}

/// Puts `dir` into the group of `key`; the group is made if it is missing.
pub fn add_member(entries: &mut Vec<Group>, key: String, dir: String)
    ensures
        forall|k: Seq<char>, d: Seq<char>|
            #[trigger] holds(final(entries)@, k, d) <==> holds(old(entries)@, k, d) || (k == key@
                && d == dir@),
        distinct_keys(old(entries)@) ==> distinct_keys(final(entries)@),
        no_empty_group(old(entries)@) ==> no_empty_group(final(entries)@),
        (forall|j: int|
            0 <= j < old(entries)@.len() ==> sorted_texts(
                text::texts((#[trigger] old(entries)@[j]).members@),
            )) ==> (forall|j: int|
            0 <= j < final(entries)@.len() ==> sorted_texts(
                text::texts((#[trigger] final(entries)@[j]).members@),
            )),
{
    let ghost before = entries@;
    let at = find_key(entries, &key);
    if at.is_some() {
        let i = at.unwrap();
        let mut entry = entries.remove(i);
        let ghost old_dirs = text::texts(entry.members@);
        assert(entry == before[i as int]);
        insert_sorted(&mut entry.members, dir);
        let ghost new_dirs = text::texts(entry.members@);
        entries.insert(i, entry);
        proof {
            let after = entries@;
            assert(after.len() == before.len());
            assert forall|j: int| 0 <= j < after.len() && j != i implies after[j] == before[j] by {}
            assert(after[i as int].key@ == key@);
            assert forall|k: Seq<char>, d: Seq<char>| #[trigger] holds(after, k, d) <==> holds(
                before,
                k,
                d,
            ) || (k == key@ && d == dir@) by {
                if holds(after, k, d) {
                    let j = choose|j: int|
                        0 <= j < after.len() && (#[trigger] after[j]).key@ == k && text::texts(
                            after[j].members@,
                        ).contains(d);
                    if j == i {
                        assert(new_dirs.contains(d));
                        if old_dirs.contains(d) {
                            assert(before[i as int].key@ == k);
                            assert(holds(before, k, d));
                        }
                    } else {
                        assert(before[j] == after[j]);
                        assert(holds(before, k, d));
                    }
                }
                if holds(before, k, d) {
                    let j = choose|j: int|
                        0 <= j < before.len() && (#[trigger] before[j]).key@ == k && text::texts(
                            before[j].members@,
                        ).contains(d);
                    if j == i {
                        assert(old_dirs.contains(d));
                        assert(new_dirs.contains(d));
                        assert(after[i as int].key@ == k);
                    } else {
                        assert(after[j] == before[j]);
                    }
                    assert(holds(after, k, d));
                }
                if k == key@ && d == dir@ {
                    assert(new_dirs.contains(d));
                    assert(after[i as int].key@ == k);
                    assert(holds(after, k, d));
                }
            }
            if distinct_keys(before) {
                assert forall|j: int, k: int| 0 <= j < k < after.len() implies (
                #[trigger] after[j]).key@ != (#[trigger] after[k]).key@ by {
                    assert(after[j].key@ == before[j].key@);
                    assert(after[k].key@ == before[k].key@);
                }
            }
            if no_empty_group(before) {
                assert forall|j: int| 0 <= j < after.len() implies (
                #[trigger] after[j]).members@.len() > 0 by {
                    if j != i {
                        assert(after[j] == before[j]);
                    } else {
                        assert(new_dirs.contains(dir@));
                    }
                }
            }
            if forall|j: int|
                0 <= j < before.len() ==> sorted_texts(text::texts((#[trigger] before[j]).members@)) {
                assert forall|j: int| 0 <= j < after.len() implies sorted_texts(
                    text::texts((#[trigger] after[j]).members@),
                ) by {
                    if j != i {
                        assert(after[j] == before[j]);
                    } else {
                        assert(sorted_texts(text::texts(before[i as int].members@)));
                    }
                }
            }
        }
    } else {
        let mut dirs: Vec<String> = Vec::new();
        dirs.push(dir);
        let entry = Group { key, members: dirs };
        entries.push(entry);
        proof {
            let after = entries@;
            assert(text::texts(entry.members@) =~= seq![dir@]);
            assert(after[before.len() as int] == entry);
            assert forall|k: Seq<char>, d: Seq<char>| #[trigger] holds(after, k, d) <==> holds(
                before,
                k,
                d,
            ) || (k == key@ && d == dir@) by {
                if holds(after, k, d) {
                    let j = choose|j: int|
                        0 <= j < after.len() && (#[trigger] after[j]).key@ == k && text::texts(
                            after[j].members@,
                        ).contains(d);
                    if j < before.len() {
                        assert(before[j] == after[j]);
                        assert(holds(before, k, d));
                    } else {
                        let m = choose|m: int|
                            0 <= m < text::texts(entry.members@).len() && text::texts(
                                entry.members@,
                            )[m] == d;
                        assert(d == dir@);
                    }
                }
                if holds(before, k, d) {
                    let j = choose|j: int|
                        0 <= j < before.len() && (#[trigger] before[j]).key@ == k && text::texts(
                            before[j].members@,
                        ).contains(d);
                    assert(after[j] == before[j]);
                    assert(holds(after, k, d));
                }
                if k == key@ && d == dir@ {
                    assert(text::texts(entry.members@)[0] == d);
                    assert(holds(after, k, d));
                }
            }
            if no_empty_group(before) {
                assert forall|j: int| 0 <= j < after.len() implies (
                #[trigger] after[j]).members@.len() > 0 by {
                    if j < before.len() {
                        assert(after[j] == before[j]);
                    }
                }
            }
            if distinct_keys(before) {
                assert forall|j: int, k: int| 0 <= j < k < after.len() implies (
                #[trigger] after[j]).key@ != (#[trigger] after[k]).key@ by {
                    if k < before.len() {
                        assert(after[j] == before[j] && after[k] == before[k]);
                    } else {
                        assert(after[j] == before[j]);
                    }
                }
            }
            if forall|j: int|
                0 <= j < before.len() ==> sorted_texts(text::texts((#[trigger] before[j]).members@)) {
                assert forall|j: int| 0 <= j < after.len() implies sorted_texts(
                    text::texts((#[trigger] after[j]).members@),
                ) by {
                    if j < before.len() {
                        assert(after[j] == before[j]);
                    }
                }
            }
        }
    }
}

} // verus!
