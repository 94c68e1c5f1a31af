//! The tree of all tags that the front matter of the notes declares.

use crate::notes::frontmatter::{document_parts, extract};
use crate::tags::parser::{frontmatter_tags, tag_views, TagPath};
use crate::tags::tree::{is_prefix_of_path, TagNode};
use crate::vault::scan::Document;
use vstd::prelude::*;

verus! {

/// True if `p` is a prefix, not empty, of one of `tags`.
pub open spec fn in_some_tag(p: Seq<Seq<char>>, tags: Seq<Seq<Seq<char>>>) -> bool {
    exists|k: int| 0 <= k < tags.len() && is_prefix_of_path(p, #[trigger] tags[k])
}

/// The tags that the front matter of a document declares; none where the
/// front matter cannot be read.
pub open spec fn declared_tags(document: Seq<char>) -> Seq<Seq<Seq<char>>> {
    match document_parts(document) {
        Some((fm, _)) => frontmatter_tags(fm),
        None => Seq::empty(),
    }
}

/// The tags that the front matter of the documents declares, document by
/// document.
pub open spec fn all_declared(documents: Seq<Document>) -> Seq<Seq<Seq<char>>>
    decreases documents.len(),
{
    if documents.len() == 0 {
        Seq::empty()
    } else {
        all_declared(documents.drop_last()) + declared_tags(documents.last().content@)
    }
}

/// Puts each of `tags` into the tree.
pub fn insert_all(root: &mut TagNode, tags: &Vec<TagPath>)
    ensures
        final(root).name == old(root).name,
        forall|p: Seq<Seq<char>>|
            #[trigger] final(root).has_path(p) <==> old(root).has_path(p) || in_some_tag(
                p,
                tag_views(tags@),
            ),
        old(root).is_sorted() ==> final(root).is_sorted(),
{
    let mut i: usize = 0;
    while i < tags.len()
        invariant
            i <= tags.len(),
            root.name == old(root).name,
            forall|p: Seq<Seq<char>>|
                #[trigger] root.has_path(p) <==> old(root).has_path(p) || in_some_tag(
                    p,
                    tag_views(tags@).take(i as int),
                ),
            old(root).is_sorted() ==> root.is_sorted(),
        decreases tags.len() - i,
    {
        let ghost before = *root;
        let ghost seen = tag_views(tags@).take(i as int);
        let ghost now = tag_views(tags@).take(i + 1);
        root.insert_path(tags[i].0.as_slice());
        proof {
            assert(now.drop_last() == seen);
            assert(now.last() == tags@[i as int]@);
            assert forall|p: Seq<Seq<char>>| #[trigger] root.has_path(p) <==> old(root).has_path(p)
                || in_some_tag(p, now) by {
                if in_some_tag(p, now) {
                    let k = choose|k: int|
                        0 <= k < now.len() && is_prefix_of_path(p, #[trigger] now[k]);
                    if k < seen.len() {
                        assert(seen[k] == now[k]);
                        assert(in_some_tag(p, seen));
                    }
                }
                if in_some_tag(p, seen) {
                    let k = choose|k: int|
                        0 <= k < seen.len() && is_prefix_of_path(p, #[trigger] seen[k]);
                    assert(now[k] == seen[k]);
                }
                if is_prefix_of_path(p, tags@[i as int]@) {
                    assert(is_prefix_of_path(p, now[now.len() - 1]));
                }
                assert(root.has_path(p) <==> before.has_path(p) || is_prefix_of_path(
                    p,
                    tags@[i as int]@,
                ));
            }
        }
        i += 1;
    }
    assert(tag_views(tags@).take(tags.len() as int) == tag_views(tags@));
}

/// The tree of the tags that the front matter of the documents declares:
/// its paths are the tags and their prefixes. Documents whose front matter
/// cannot be read add nothing.
pub fn collect(documents: &Vec<Document>) -> (r: TagNode)
    ensures
        r.name@ == "root"@,
        r.is_sorted(),
        forall|p: Seq<Seq<char>>|
            #[trigger] r.has_path(p) <==> in_some_tag(p, all_declared(documents@)),
{
    let mut root = TagNode::new("root".to_owned());
    let mut i: usize = 0;
    assert(documents@.take(0) == Seq::<Document>::empty());
    while i < documents.len()
        invariant
            i <= documents.len(),
            root.name@ == "root"@,
            root.is_sorted(),
            forall|p: Seq<Seq<char>>|
                #[trigger] root.has_path(p) <==> in_some_tag(
                    p,
                    all_declared(documents@.take(i as int)),
                ),
        decreases documents.len() - i,
    {
        let ghost before = root;
        let ghost seen = all_declared(documents@.take(i as int));
        let ghost found = declared_tags(documents@[i as int].content@);
        proof {
            assert(documents@.take(i + 1).drop_last() == documents@.take(i as int));
            assert(documents@.take(i + 1).last() == documents@[i as int]);
        }
        match extract(documents[i].content.as_str()) {
            Ok((fm, body)) => {
                assert(document_parts(documents@[i as int].content@) == Some((fm@, body@)));
                let tags = TagPath::from_frontmatter(&fm);
                assert(tag_views(tags@) == found);
                insert_all(&mut root, &tags);
            },
            Err(_) => {
                assert(found == Seq::<Seq<Seq<char>>>::empty());
            },
        }
        proof {
            assert forall|p: Seq<Seq<char>>| #[trigger] root.has_path(p) <==> in_some_tag(
                p,
                seen + found,
            ) by {
                assert(root.has_path(p) <==> before.has_path(p) || in_some_tag(p, found));
                let both = seen + found;
                if in_some_tag(p, both) {
                    let k = choose|k: int|
                        0 <= k < both.len() && is_prefix_of_path(p, #[trigger] both[k]);
                    if k < seen.len() {
                        assert(seen[k] == both[k]);
                        assert(in_some_tag(p, seen));
                    } else {
                        assert(found[k - seen.len()] == both[k]);
                        assert(in_some_tag(p, found));
                    }
                }
                if in_some_tag(p, seen) {
                    let k = choose|k: int|
                        0 <= k < seen.len() && is_prefix_of_path(p, #[trigger] seen[k]);
                    assert(both[k] == seen[k]);
                }
                if in_some_tag(p, found) {
                    let k = choose|k: int|
                        0 <= k < found.len() && is_prefix_of_path(p, #[trigger] found[k]);
                    assert(both[k + seen.len()] == found[k]);
                }
            }
        }
        i += 1;
    }
    assert(documents@.take(documents.len() as int) == documents@);
    root
}

} // verus!
