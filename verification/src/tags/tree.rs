//! The prefix tree of tags: tags that begin alike share their first nodes.

use crate::text;
use vstd::prelude::*;

verus! {

/// A node of the tag tree. The root stands for the empty prefix; any other
/// node stands for the tag that the names from below the root down to it
/// spell.
#[derive(Debug)]
pub struct TagNode {
    pub name: String,
    /// The nodes below this one, in the order of their names.
    pub children: Vec<TagNode>,
}

/// True if `p` is one of the prefixes of `path` that are not empty.
pub open spec fn is_prefix_of_path(p: Seq<Seq<char>>, path: Seq<Seq<char>>) -> bool {
    0 < p.len() <= path.len() && p == path.take(p.len() as int)
}

/// What separates the names of a path that is shown.
pub open spec fn arrow() -> Seq<char> {
    " \u{2192} "@
}

/// A path that is shown, one name longer: the name alone if the path was
/// empty, else the path, the arrow, the name.
pub open spec fn shown(prefix: Seq<char>, name: Seq<char>) -> Seq<char> {
    if prefix.len() == 0 {
        name
    } else {
        prefix + arrow() + name
    }
}

impl TagNode {
    /// The paths below this node as they are shown, those through the
    /// children from `from` on: for each child its own path, then the paths
    /// below it, then those of the children after it. `prefix` is the path
    /// of this node as it is shown.
    pub open spec fn shown_paths(&self, from: int, prefix: Seq<char>) -> Seq<Seq<char>>
        decreases self, self.children@.len() - from,
    {
        if from < 0 || from >= self.children@.len() {
            Seq::empty()
        } else {
            let child = self.children@[from];
            let path = shown(prefix, child.name@);
            seq![path] + child.shown_paths(0, path) + self.shown_paths(from + 1, prefix)
        }
    }

    /// The names of the children, in their order.
    pub open spec fn child_names(&self) -> Seq<Seq<char>> {
        self.children@.map_values(|c: TagNode| c.name@)
    }

    /// True if the segments of `p` lead from this node down to a node.
    pub open spec fn has_path(&self, p: Seq<Seq<char>>) -> bool
        decreases p.len(),
    {
        p.len() > 0 && exists|i: int|
            0 <= i < self.children@.len() && (#[trigger] self.children@[i]).name@ == p[0] && (
            p.len() == 1 || self.children@[i].has_path(p.drop_first()))
    }

    /// True if, here and in every node below, the children stand in the
    /// order of their names and no two of them have the same name.
    pub open spec fn is_sorted(&self) -> bool
        decreases self,
    {
        &&& forall|j: int, k: int|
            0 <= j < k < self.children@.len() ==> text::lex_less(
                #[trigger] self.children@[j].name@,
                #[trigger] self.children@[k].name@,
            )
        &&& forall|j: int|
            0 <= j < self.children@.len() ==> (#[trigger] self.children@[j]).is_sorted()
    }

    /// A node without children.
    pub fn new(name: String) -> (r: Self)
        ensures
            r.name == name,
            r.children@.len() == 0,
            r.is_sorted(),
    {
        TagNode { name, children: Vec::new() }
    }

    /// A copy of the node and of all that is below it.
    pub fn copy(&self) -> (r: Self)
        ensures
            r.name@ == self.name@,
            r.children@.len() == self.children@.len(),
            forall|p: Seq<Seq<char>>| #[trigger] r.has_path(p) <==> self.has_path(p),
            self.is_sorted() ==> r.is_sorted(),
        decreases self,
    {
        let mut children: Vec<TagNode> = Vec::new();
        let mut i: usize = 0;
        while i < self.children.len()
            invariant
                i <= self.children.len(),
                children@.len() == i,
                forall|j: int|
                    0 <= j < i ==> (#[trigger] children@[j]).name@ == self.children@[j].name@,
                forall|j: int, p: Seq<Seq<char>>|
                    0 <= j < i ==> (#[trigger] children@[j].has_path(p) <==> self.children@[j].has_path(
                        p,
                    )),
                forall|j: int|
                    0 <= j < i && self.children@[j].is_sorted() ==> (#[trigger] children@[j]).is_sorted(),
            decreases self.children.len() - i,
        {
            let child = self.children[i].copy();
            children.push(child);
            i += 1;
        }
        let r = TagNode { name: self.name.clone(), children };
        proof {
            assert forall|p: Seq<Seq<char>>| #[trigger] r.has_path(p) <==> self.has_path(p) by {
                if r.has_path(p) {
                    let j = choose|j: int|
                        0 <= j < r.children@.len() && (#[trigger] r.children@[j]).name@ == p[0] && (
                        p.len() == 1 || r.children@[j].has_path(p.drop_first()));
                    assert(self.children@[j].name@ == p[0]);
                    if p.len() > 1 {
                        assert(r.children@[j].has_path(p.drop_first()));
                        assert(self.children@[j].has_path(p.drop_first()));
                    }
                }
                if self.has_path(p) {
                    let j = choose|j: int|
                        0 <= j < self.children@.len() && (#[trigger] self.children@[j]).name@
                            == p[0] && (p.len() == 1 || self.children@[j].has_path(p.drop_first()));
                    assert(r.children@[j].name@ == p[0]);
                    if p.len() > 1 {
                        assert(self.children@[j].has_path(p.drop_first()));
                        assert(r.children@[j].has_path(p.drop_first()));
                    }
                }
            }
            if self.is_sorted() {
                assert forall|j: int, k: int| 0 <= j < k < r.children@.len() implies text::lex_less(
                    #[trigger] r.children@[j].name@,
                    #[trigger] r.children@[k].name@,
                ) by {
                    assert(text::lex_less(self.children@[j].name@, self.children@[k].name@));
                }
                assert forall|j: int| 0 <= j < r.children@.len() implies (
                #[trigger] r.children@[j]).is_sorted() by {
                    assert(self.children@[j].is_sorted());
                }
            }
        }
        r
    }

    /// Where the child named `name` stands or, if there is none, where it
    /// would have to stand: the first position whose child does not come
    /// before `name`.
    pub fn slot(&self, name: &Vec<char>) -> (r: (usize, bool))
        ensures
            r.0 <= self.children@.len(),
            forall|j: int|
                0 <= j < r.0 ==> text::lex_less((#[trigger] self.children@[j]).name@, name@),
            r.1 ==> r.0 < self.children@.len() && self.children@[r.0 as int].name@ == name@,
            !r.1 && r.0 < self.children@.len() ==> text::lex_less(
                name@,
                self.children@[r.0 as int].name@,
            ),
    {
        let mut i: usize = 0;
        while i < self.children.len()
            invariant
                i <= self.children@.len(),
                forall|j: int|
                    0 <= j < i ==> text::lex_less((#[trigger] self.children@[j]).name@, name@),
            decreases self.children.len() - i,
        {
            let child_name = text::chars_of(self.children[i].name.as_str());
            if !text::comes_before(&child_name, name) {
                let found = !text::comes_before(name, &child_name);
                proof {
                    text::lemma_lex_total(child_name@, name@);
                }
                return (i, found);
            }
            i += 1;
        }
        (i, false)
    }

    /// Puts a path into the tree, one node for each segment: the nodes that
    /// are there are kept, those that are missing are made, each in the place
    /// that the order of the names gives it. An empty path changes nothing.
    pub fn insert_path(&mut self, path: &[String])
        ensures
            final(self).name == old(self).name,
            forall|p: Seq<Seq<char>>|
                #[trigger] final(self).has_path(p) <==> old(self).has_path(p) || is_prefix_of_path(
                    p,
                    text::texts(path@),
                ),
            old(self).is_sorted() ==> final(self).is_sorted(),
    {
        self.insert_from(path, 0);
        assert(text::texts(path@).skip(0) == text::texts(path@));
    }

    /// Puts the segments of `path` from position `from` on into the tree.
    pub fn insert_from(&mut self, path: &[String], from: usize)
        requires
            from <= path@.len(),
        ensures
            final(self).name == old(self).name,
            forall|p: Seq<Seq<char>>|
                #[trigger] final(self).has_path(p) <==> old(self).has_path(p) || is_prefix_of_path(
                    p,
                    text::texts(path@).skip(from as int),
                ),
            old(self).is_sorted() ==> final(self).is_sorted(),
        decreases path@.len() - from,
    {
        if from >= path.len() {
            return;
        }
        let ghost rest = text::texts(path@).skip(from as int);
        let ghost tail = text::texts(path@).skip(from + 1);
        let ghost before = old(self).children@;
        let first = &path[from];
        let first_chars = text::chars_of(first.as_str());
        let (i, found) = self.slot(&first_chars);
        let mut child = if found {
            self.children.remove(i)
        } else {
            TagNode::new(first.clone())
        };
        let ghost child_before = child;
        child.insert_from(path, from + 1);
        self.children.insert(i, child);
        proof {
            assert(rest[0] == first@);
            assert(rest.drop_first() == tail);
            let after = self.children@;
            assert(child.name@ == first@);
            assert forall|p: Seq<Seq<char>>| #[trigger] self.has_path(p) implies old(
                self,
            ).has_path(p) || is_prefix_of_path(p, rest) by {
                let j = choose|j: int|
                    0 <= j < after.len() && (#[trigger] after[j]).name@ == p[0] && (p.len() == 1
                        || after[j].has_path(p.drop_first()));
                if j == i {
                    if p.len() == 1 {
                        assert(p =~= rest.take(1));
                    } else if child_before.has_path(p.drop_first()) {
                        assert(before[i as int] == child_before);
                        assert(old(self).has_path(p));
                    } else {
                        let q = p.drop_first();
                        assert(is_prefix_of_path(q, tail));
                        assert forall|k: int| 0 <= k < p.len() implies p[k] == rest[k] by {
                            if k > 0 {
                                assert(p[k] == q[k - 1]);
                                assert(q[k - 1] == tail.take(q.len() as int)[k - 1]);
                            }
                        }
                        assert(p =~= rest.take(p.len() as int));
                    }
                } else {
                    let m = if found || j < i {
                        j
                    } else {
                        j - 1
                    };
                    assert(before[m] == after[j]);
                    assert(old(self).has_path(p));
                }
            }
            assert forall|p: Seq<Seq<char>>|
                old(self).has_path(p) || is_prefix_of_path(p, rest) implies #[trigger] self.has_path(
                p,
            ) by {
                if is_prefix_of_path(p, rest) {
                    assert(p[0] == rest.take(p.len() as int)[0]);
                    assert(after[i as int].name@ == p[0]);
                    if p.len() > 1 {
                        let q = p.drop_first();
                        assert forall|k: int| 0 <= k < q.len() implies q[k] == tail[k] by {
                            assert(q[k] == p[k + 1]);
                            assert(p[k + 1] == rest.take(p.len() as int)[k + 1]);
                        }
                        assert(q =~= tail.take(q.len() as int));
                        assert(is_prefix_of_path(q, tail));
                        assert(after[i as int].has_path(q));
                    }
                    assert(self.has_path(p));
                } else {
                    let j = choose|j: int|
                        0 <= j < before.len() && (#[trigger] before[j]).name@ == p[0] && (p.len()
                            == 1 || before[j].has_path(p.drop_first()));
                    if found && j == i {
                        assert(before[i as int] == child_before);
                        assert(after[i as int].name@ == p[0]);
                        if p.len() > 1 {
                            assert(child_before.has_path(p.drop_first()));
                            assert(after[i as int].has_path(p.drop_first()));
                        }
                        assert(self.has_path(p));
                    } else {
                        let m = if found || j < i {
                            j
                        } else {
                            j + 1
                        };
                        assert(after[m] == before[j]);
                        assert(self.has_path(p));
                    }
                }
            }
            assert forall|p: Seq<Seq<char>>| #[trigger] self.has_path(p) <==> old(
                self,
            ).has_path(p) || is_prefix_of_path(p, rest) by {
                if self.has_path(p) {
                    assert(old(self).has_path(p) || is_prefix_of_path(p, rest));
                }
                if old(self).has_path(p) || is_prefix_of_path(p, rest) {
                    assert(self.has_path(p));
                }
            }
            if old(self).is_sorted() {
                assert forall|j: int, k: int| 0 <= j < k < after.len() implies text::lex_less(
                    #[trigger] after[j].name@,
                    #[trigger] after[k].name@,
                ) by {
                    if found {
                        assert(after[j].name@ == before[j].name@);
                        assert(after[k].name@ == before[k].name@);
                    } else if k < i {
                        assert(after[j] == before[j] && after[k] == before[k]);
                    } else if k == i {
                        assert(after[j] == before[j]);
                    } else if j == i {
                        assert(after[k] == before[k - 1]);
                        if k - 1 > i {
                            text::lemma_lex_transitive(
                                first@,
                                before[i as int].name@,
                                before[k - 1].name@,
                            );
                        }
                    } else if j < i {
                        assert(after[j] == before[j] && after[k] == before[k - 1]);
                    } else {
                        assert(after[j] == before[j - 1] && after[k] == before[k - 1]);
                    }
                }
                assert forall|j: int| 0 <= j < after.len() implies (#[trigger] after[j]).is_sorted(
                ) by {
                    if j == i {
                        if found {
                            assert(before[i as int] == child_before);
                        }
                    } else if found {
                        assert(after[j] == before[j]);
                    } else if j < i {
                        assert(after[j] == before[j]);
                    } else {
                        assert(after[j] == before[j - 1]);
                    }
                }
            }
        }
    }

    /// Adds to `out` every path below this node as it is shown, a node
    /// before the nodes below it, the children in their order.
    pub fn collect_all_paths(&self, current_prefix: &str, out: &mut Vec<String>)
        ensures
            text::texts(final(out)@) == text::texts(old(out)@) + self.shown_paths(
                0,
                current_prefix@,
            ),
        decreases self,
    {
        let ghost start = text::texts(out@);
        let prefix = text::chars_of(current_prefix);
        let mut i: usize = 0;
        assert(start + self.shown_paths(0, current_prefix@) == text::texts(out@)
            + self.shown_paths(0, current_prefix@));
        while i < self.children.len()
            invariant
                i <= self.children.len(),
                prefix@ == current_prefix@,
                start + self.shown_paths(0, current_prefix@) == text::texts(out@)
                    + self.shown_paths(i as int, current_prefix@),
            decreases self.children.len() - i,
        {
            let child = &self.children[i];
            let ghost before = text::texts(out@);
            let mut path: Vec<char> = Vec::new();
            if prefix.len() > 0 {
                text::append(&mut path, &prefix);
                text::append(&mut path, &text::chars_of(" \u{2192} "));
            }
            text::append(&mut path, &text::chars_of(child.name.as_str()));
            assert(path@ =~= shown(current_prefix@, child.name@));
            let shown_path = text::string_of(&path);
            out.push(shown_path.clone());
            let ghost pushed = text::texts(out@);
            assert(pushed == before.push(path@));
            child.collect_all_paths(shown_path.as_str(), out);
            proof {
                let rest = self.shown_paths(i + 1, current_prefix@);
                let below = child.shown_paths(0, path@);
                assert(text::texts(out@) == pushed + below);
                assert(before + (seq![path@] + below + rest) =~= (before.push(path@) + below)
                    + rest);
            }
            i += 1;
        }
        assert(text::texts(out@) + Seq::<Seq<char>>::empty() =~= text::texts(out@));
    }

    /// The names of the children, in their order.
    pub fn get_children_names(&self) -> (r: Vec<String>)
        ensures
            text::texts(r@) == self.child_names(),
    {
        let mut names: Vec<String> = Vec::new();
        let mut i: usize = 0;
        while i < self.children.len()
            invariant
                i <= self.children.len(),
                text::texts(names@) == self.child_names().take(i as int),
            decreases self.children.len() - i,
        {
            let ghost before = text::texts(names@);
            names.push(self.children[i].name.clone());
            assert(text::texts(names@) == before.push(self.children@[i as int].name@));
            i += 1;
        }
        assert(self.child_names().take(self.children.len() as int) == self.child_names());
        names
    }

    /// The first child named `name`.
    pub fn get_child(&self, name: &str) -> (r: Option<&TagNode>)
        ensures
            match r {
                Some(c) => exists|i: int|
                    0 <= i < self.children@.len() && self.children@[i] == *c && c.name@ == name@
                        && forall|j: int| 0 <= j < i ==> self.children@[j].name@ != name@,
                None => forall|j: int|
                    0 <= j < self.children@.len() ==> self.children@[j].name@ != name@,
            },
    {
        let wanted = name.to_owned();
        let mut i: usize = 0;
        while i < self.children.len()
            invariant
                i <= self.children.len(),
                wanted@ == name@,
                forall|j: int| 0 <= j < i ==> self.children@[j].name@ != name@,
            decreases self.children.len() - i,
        {
            if self.children[i].name == wanted {
                return Some(&self.children[i]);
            }
            i += 1;
        }
        None
    }
}

} // verus!
