//! The tag scanner: the primary tag and the secondary tags of a note.

use crate::notes::frontmatter::{document_parts, extract, EntryView, Frontmatter};
use crate::tags::parser::{
    extract_primary_tag, frontmatter_tags, primary_tag, segments_of, slash, tag_views,
    TagPath,
};
use crate::text;
use vstd::prelude::*;

verus! {

/// What the scanner found in one note.
#[derive(Clone, Debug)]
pub struct ScanItem {
    /// Where the note lies.
    pub path: String,
    /// The tag of the marker at the head of the body.
    pub primary_tag: Option<TagPath>,
    /// The tags of the front matter, then those written inline in the body,
    /// then the primary tag; no tag twice.
    pub secondary_tags: Vec<TagPath>,
}

/// A note as it was read: where it lies and what it holds.
#[derive(Clone, Debug)]
pub struct Document {
    pub path: String,
    pub content: String,
}

/// The characters that an inline tag is made of.
pub open spec fn is_tag_char(c: char) -> bool {
    ('a' <= c <= 'z') || ('A' <= c <= 'Z') || ('0' <= c <= '9') || c == '_' || c == '-' || c
        == '/'
}

/// Where the run of tag characters ends that begins at `from`.
pub open spec fn tag_run(s: Seq<char>, from: int) -> int
    decreases s.len() - from,
{
    if 0 <= from < s.len() && is_tag_char(s[from]) {
        tag_run(s, from + 1)
    } else {
        from
    }
}

/// The inline tags of a line from position `i` on: after each `#` the run of
/// tag characters is read as a written tag; a run that holds no segment
/// gives no tag. The scan goes on after the run.
pub open spec fn line_tags_from(s: Seq<char>, i: int) -> Seq<Seq<Seq<char>>>
    decreases s.len() - i,
{
    if i < 0 || i >= s.len() {
        Seq::empty()
    } else if s[i] == '#' {
        let end = tag_run(s, i + 1);
        if i < end <= s.len() {
            let segs = segments_of(s.subrange(i + 1, end));
            if segs.len() > 0 {
                seq![segs] + line_tags_from(s, end)
            } else {
                line_tags_from(s, end)
            }
        } else {
            Seq::empty()
        }
    } else {
        line_tags_from(s, i + 1)
    }
}

/// The inline tags of a line.
pub open spec fn line_tags(s: Seq<char>) -> Seq<Seq<Seq<char>>> {
    line_tags_from(s, 0)
}

/// A line that opens or closes a fenced code block: after its leading
/// whitespace it begins with three backticks or three tildes.
pub open spec fn is_fence_line(line: Seq<char>) -> bool {
    let t = text::trim_start(line);
    text::starts_with(t, seq!['`', '`', '`']) || text::starts_with(t, seq!['~', '~', '~'])
}

/// The inline tags of some lines, read in order. `in_code` says whether the
/// first line stands inside a fenced code block. Every fence line switches
/// between inside and outside; fence lines and lines inside hold no tag.
pub open spec fn lines_tags(lines: Seq<Seq<char>>, in_code: bool) -> Seq<Seq<Seq<char>>>
    decreases lines.len(),
{
    if lines.len() == 0 {
        Seq::empty()
    } else if is_fence_line(lines[0]) {
        lines_tags(lines.drop_first(), !in_code)
    } else if in_code {
        lines_tags(lines.drop_first(), true)
    } else {
        line_tags(lines[0]) + lines_tags(lines.drop_first(), false)
    }
}

/// The inline tags of a body.
pub open spec fn body_tags(body: Seq<char>) -> Seq<Seq<Seq<char>>> {
    lines_tags(text::split(body, '\n'), false)
}

/// The written form of a tag.
pub open spec fn written(tag: Seq<Seq<char>>) -> Seq<char> {
    text::join(tag, slash())
}

/// True if one of `tags` has the written form `key`.
pub open spec fn has_written(tags: Seq<Seq<Seq<char>>>, key: Seq<char>) -> bool {
    exists|j: int| 0 <= j < tags.len() && written(#[trigger] tags[j]) == key
}

/// The tags without those whose written form an earlier tag has.
pub open spec fn dedupe(tags: Seq<Seq<Seq<char>>>) -> Seq<Seq<Seq<char>>>
    decreases tags.len(),
{
    if tags.len() == 0 {
        Seq::empty()
    } else if has_written(tags.drop_last(), written(tags.last())) {
        dedupe(tags.drop_last())
    } else {
        dedupe(tags.drop_last()).push(tags.last())
    }
}

/// The front matter and the body as the scanner takes them: those of the
/// document, or nothing at all where the front matter cannot be read.
pub open spec fn scanned_parts(document: Seq<char>) -> (Seq<EntryView>, Seq<char>) {
    match document_parts(document) {
        Some(parts) => parts,
        None => (Seq::empty(), Seq::empty()),
    }
}

/// The primary tag of the parts of a document.
pub open spec fn primary_of(parts: (Seq<EntryView>, Seq<char>)) -> Option<Seq<Seq<char>>> {
    primary_tag(parts.1)
}

/// The secondary tags of the parts of a document: the tags that the front
/// matter declares, the inline tags of the body and the primary tag, in this
/// order, each written form once.
pub open spec fn secondary_of(parts: (Seq<EntryView>, Seq<char>)) -> Seq<Seq<Seq<char>>> {
    let declared = frontmatter_tags(parts.0) + body_tags(parts.1);
    match primary_tag(parts.1) {
        Some(p) => dedupe(declared.push(p)),
        None => dedupe(declared),
    }
}

/// Deduplicating loses no tag and keeps none twice: the written forms of
/// what is left are those of the tags, each once.
pub proof fn lemma_dedupe(tags: Seq<Seq<Seq<char>>>)
    ensures
        forall|key: Seq<char>| #[trigger] has_written(dedupe(tags), key) <==> has_written(tags, key),
        forall|i: int, j: int|
            0 <= i < j < dedupe(tags).len() ==> written(#[trigger] dedupe(tags)[i]) != written(
                #[trigger] dedupe(tags)[j],
            ),
    decreases tags.len(),
{
    if tags.len() > 0 {
        let init = tags.drop_last();
        let last = tags.last();
        let out = dedupe(tags);
        let before = dedupe(init);
        lemma_dedupe(init);
        assert forall|key: Seq<char>| #[trigger] has_written(out, key) <==> has_written(
            tags,
            key,
        ) by {
            if has_written(out, key) {
                let j = choose|j: int| 0 <= j < out.len() && written(#[trigger] out[j]) == key;
                if j < before.len() {
                    assert(before[j] == out[j]);
                    assert(has_written(before, key));
                    assert(has_written(init, key));
                    let m = choose|m: int| 0 <= m < init.len() && written(#[trigger] init[m]) == key;
                    assert(tags[m] == init[m]);
                } else {
                    assert(written(tags[tags.len() - 1]) == key);
                }
            }
            if has_written(tags, key) {
                let m = choose|m: int| 0 <= m < tags.len() && written(#[trigger] tags[m]) == key;
                if m < init.len() {
                    assert(init[m] == tags[m]);
                    assert(has_written(init, key));
                } else {
                    assert(key == written(last));
                }
                if has_written(init, key) {
                    assert(has_written(before, key));
                    let j = choose|j: int|
                        0 <= j < before.len() && written(#[trigger] before[j]) == key;
                    assert(out[j] == before[j]);
                } else {
                    assert(out == before.push(last));
                    assert(written(out[out.len() - 1]) == key);
                }
            }
        }
        assert forall|i: int, j: int| 0 <= i < j < out.len() implies written(#[trigger] out[i])
            != written(#[trigger] out[j]) by {
            if j < before.len() {
                assert(out[i] == before[i] && out[j] == before[j]);
            } else {
                assert(out == before.push(last));
                assert(out[i] == before[i]);
                if written(before[i]) == written(last) {
                    assert(has_written(before, written(last)));
                    assert(has_written(init, written(last)));
                }
            }
        }
    }
}

/// The secondary tags of a note hold its primary tag.
pub proof fn lemma_secondary_holds_primary(parts: (Seq<EntryView>, Seq<char>))
    requires
        primary_of(parts) is Some,
    ensures
        has_written(secondary_of(parts), written(primary_of(parts)->0)),
{
    let p = primary_tag(parts.1)->0;
    let all = (frontmatter_tags(parts.0) + body_tags(parts.1)).push(p);
    lemma_dedupe(all);
    assert(written(all[all.len() - 1]) == written(p));
    assert(has_written(all, written(p)));
}

/// Inside a fenced code block nothing is a tag: lines that follow an
/// opening fence line hold no tag, up to and with the next fence line.
pub proof fn lemma_inside_fence(inside: Seq<Seq<char>>, close: Seq<char>, rest: Seq<Seq<char>>)
    requires
        forall|i: int| 0 <= i < inside.len() ==> !is_fence_line(#[trigger] inside[i]),
        is_fence_line(close),
    ensures
        lines_tags(inside + seq![close] + rest, true) == lines_tags(rest, false),
    decreases inside.len(),
{
    let all = inside + seq![close] + rest;
    if inside.len() == 0 {
        assert(all[0] == close);
        assert(all.drop_first() =~= rest);
    } else {
        assert(all[0] == inside[0]);
        let tail = inside.drop_first();
        assert(all.drop_first() =~= tail + seq![close] + rest);
        assert forall|i: int| 0 <= i < tail.len() implies !is_fence_line(#[trigger] tail[i]) by {
            assert(tail[i] == inside[i + 1]);
        }
        lemma_inside_fence(tail, close, rest);
    }
}

/// A fenced code block adds no tags to a body: the lines from an opening
/// fence line through the next fence line count for nothing.
pub proof fn lemma_fenced_block(
    open: Seq<char>,
    inside: Seq<Seq<char>>,
    close: Seq<char>,
    rest: Seq<Seq<char>>,
)
    requires
        is_fence_line(open),
        forall|i: int| 0 <= i < inside.len() ==> !is_fence_line(#[trigger] inside[i]),
        is_fence_line(close),
    ensures
        lines_tags(seq![open] + inside + seq![close] + rest, false) == lines_tags(rest, false),
{
    let all = seq![open] + inside + seq![close] + rest;
    assert(all[0] == open);
    assert(all.drop_first() =~= inside + seq![close] + rest);
    lemma_inside_fence(inside, close, rest);
}

/// True for the characters that an inline tag is made of.
pub fn char_is_tag_char(c: char) -> (r: bool)
    ensures
        r == is_tag_char(c),
{
    ('a' <= c && c <= 'z') || ('A' <= c && c <= 'Z') || ('0' <= c && c <= '9') || c == '_' || c
        == '-' || c == '/'
}

/// The inline tags of a line: every `#` that is followed by letters, digits,
/// `_`, `-` or `/` gives the tag written after it.
pub fn extract_hash_tags_from_line(line: &str) -> (r: Vec<TagPath>)
    ensures
        tag_views(r@) == line_tags(line@),
{
    let chars = text::chars_of(line);
    hash_tags_of(&chars)
}

/// The inline tags of the characters of a line.
pub fn hash_tags_of(chars: &Vec<char>) -> (r: Vec<TagPath>)
    ensures
        tag_views(r@) == line_tags(chars@),
{
    let mut tags: Vec<TagPath> = Vec::new();
    let mut i: usize = 0;
    assert(tag_views(tags@) + line_tags(chars@) == line_tags(chars@));
    while i < chars.len()
        invariant
            i <= chars.len(),
            line_tags(chars@) == tag_views(tags@) + line_tags_from(chars@, i as int),
        decreases chars.len() - i,
    {
        if chars[i] == '#' {
            let start = i + 1;
            let mut end: usize = start;
            while end < chars.len() && char_is_tag_char(chars[end])
                invariant
                    start <= end <= chars.len(),
                    tag_run(chars@, start as int) == tag_run(chars@, end as int),
                decreases chars.len() - end,
            {
                end += 1;
            }
            let ghost before = tag_views(tags@);
            let run = text::slice(chars, start, end);
            match TagPath::parse_chars(&run) {
                Some(tag) => {
                    tags.push(tag);
                    proof {
                        assert(tag_views(tags@) == before.push(tag@));
                        assert(before + (seq![tag@] + line_tags_from(chars@, end as int))
                            == before.push(tag@) + line_tags_from(chars@, end as int));
                    }
                },
                None => {},
            }
            i = end;
        } else {
            i += 1;
        }
    }
    assert(tag_views(tags@) + Seq::<Seq<Seq<char>>>::empty() == tag_views(tags@));
    tags
}

/// True if the line opens or closes a fenced code block.
pub fn line_is_fence(line: &Vec<char>) -> (r: bool)
    ensures
        r == is_fence_line(line@),
{
    let t = text::trimmed_start(line);
    let ticks: Vec<char> = vec!['`', '`', '`'];
    let tildes: Vec<char> = vec!['~', '~', '~'];
    assert(ticks@ =~= seq!['`', '`', '`'] && tildes@ =~= seq!['~', '~', '~']);
    text::has_at(&t, &ticks, 0) || text::has_at(&t, &tildes, 0)
}

/// The inline tags of a body: those of its lines outside fenced code blocks.
pub fn extract_body_tags(body: &str) -> (r: Vec<TagPath>)
    ensures
        tag_views(r@) == body_tags(body@),
{
    let chars = text::chars_of(body);
    let lines = text::split_on(&chars, '\n');
    let mut tags: Vec<TagPath> = Vec::new();
    let mut in_code_block = false;
    let mut i: usize = 0;
    let ghost all = text::pieces(lines@);
    assert(all.skip(0) == all);
    assert(tag_views(tags@) + body_tags(body@) == body_tags(body@));
    while i < lines.len()
        invariant
            i <= lines.len(),
            all == text::pieces(lines@),
            body_tags(body@) == tag_views(tags@) + lines_tags(all.skip(i as int), in_code_block),
        decreases lines.len() - i,
    {
        let ghost left = all.skip(i as int);
        let ghost before = tag_views(tags@);
        proof {
            assert(left[0] == lines@[i as int]@);
            assert(left.drop_first() == all.skip(i + 1));
        }
        if line_is_fence(&lines[i]) {
            in_code_block = !in_code_block;
        } else if !in_code_block {
            let mut found = hash_tags_of(&lines[i]);
            let ghost found_views = tag_views(found@);
            tags.append(&mut found);
            proof {
                assert(tag_views(tags@) == before + found_views);
                assert(before + (found_views + lines_tags(all.skip(i + 1), false)) == (before
                    + found_views) + lines_tags(all.skip(i + 1), false));
            }
        }
        i += 1;
    }
    assert(tag_views(tags@) + Seq::<Seq<Seq<char>>>::empty() == tag_views(tags@));
    tags
}

/// The tags without those whose written form an earlier tag has; the tags
/// that stay keep their order.
pub fn dedupe_tags(tags: Vec<TagPath>) -> (r: Vec<TagPath>)
    ensures
        tag_views(r@) == dedupe(tag_views(tags@)),
{
    let ghost all = tag_views(tags@);
    let mut seen: Vec<String> = Vec::new();
    let mut out: Vec<TagPath> = Vec::new();
    assert(tag_views(out@) == Seq::<Seq<Seq<char>>>::empty());
    for tag in it: tags
        invariant
            tag_views(it.seq()) == all,
            tag_views(out@) == dedupe(all.take(it.index() as int)),
            forall|key: Seq<char>|
                text::texts(seen@).contains(key) <==> has_written(
                    all.take(it.index() as int),
                    key,
                ),
    {
        let ghost before = all.take(it.index() as int);
        let ghost now = all.take(it.index() + 1);
        let ghost old_out = tag_views(out@);
        let ghost old_seen = text::texts(seen@);
        let key = tag.to_slash_string();
        proof {
            assert(all[it.index() as int] == tag@);
            assert(now.drop_last() == before);
            assert(now.last() == tag@);
        }
        let known = contains_string(&seen, &key);
        if !known {
            seen.push(key);
            out.push(tag);
            proof {
                assert(tag_views(out@) == old_out.push(tag@));
                assert(text::texts(seen@) == old_seen.push(key@));
            }
        }
        proof {
            let new_seen = text::texts(seen@);
            assert forall|k: Seq<char>| new_seen.contains(k) implies has_written(now, k) by {
                if old_seen.contains(k) {
                    assert(has_written(before, k));
                    let j = choose|j: int|
                        0 <= j < before.len() && written(#[trigger] before[j]) == k;
                    assert(now[j] == before[j]);
                } else {
                    let j = choose|j: int| 0 <= j < new_seen.len() && new_seen[j] == k;
                    if j < old_seen.len() {
                        assert(old_seen[j] == k);
                    }
                    assert(written(now[now.len() - 1]) == k);
                }
            }
            assert forall|k: Seq<char>| has_written(now, k) implies new_seen.contains(k) by {
                let j = choose|j: int| 0 <= j < now.len() && written(#[trigger] now[j]) == k;
                if j < before.len() {
                    assert(before[j] == now[j]);
                    assert(has_written(before, k));
                    assert(old_seen.contains(k));
                    let m = choose|m: int| 0 <= m < old_seen.len() && old_seen[m] == k;
                    assert(new_seen[m] == k);
                } else {
                    assert(k == key@);
                    if known {
                        assert(new_seen == old_seen);
                    } else {
                        assert(new_seen[new_seen.len() - 1] == k);
                    }
                }
            }
        }
    }
    proof {
        assert(all.take(all.len() as int) == all);
    }
    out
}

/// True if one of `list` holds the text of `s`.
pub fn contains_string(list: &Vec<String>, s: &String) -> (r: bool)
    ensures
        r == text::texts(list@).contains(s@),
{
    let mut i: usize = 0;
    while i < list.len()
        invariant
            i <= list.len(),
            forall|j: int| 0 <= j < i ==> text::texts(list@)[j] != s@,
        decreases list.len() - i,
    {
        if list[i] == *s {
            assert(text::texts(list@)[i as int] == s@);
            return true;
        }
        i += 1;
    }
    false
}

/// What the scanner finds in a document: its primary tag and its secondary
/// tags. A document whose front matter cannot be read has no tags.
pub fn scan_document(document: &Document) -> (r: ScanItem)
    ensures
        r.path@ == document.path@,
        match r.primary_tag {
            Some(p) => primary_of(scanned_parts(document.content@)) == Some(p@),
            None => primary_of(scanned_parts(document.content@)) is None,
        },
        tag_views(r.secondary_tags@) == secondary_of(scanned_parts(document.content@)),
{
    let (fm, body) = match extract(document.content.as_str()) {
        Ok(parts) => parts,
        Err(_) => (Frontmatter::new(), String::new()),
    };
    assert((fm@, body@) == scanned_parts(document.content@));
    let primary = extract_primary_tag(body.as_str());
    let mut secondary = TagPath::from_frontmatter(&fm);
    let mut inline = extract_body_tags(body.as_str());
    let ghost declared = tag_views(secondary@);
    let ghost inline_views = tag_views(inline@);
    secondary.append(&mut inline);
    assert(tag_views(secondary@) == declared + inline_views);
    match &primary {
        Some(p) => {
            let ghost before = tag_views(secondary@);
            let copy = p.clone();
            secondary.push(copy);
            assert(tag_views(secondary@) == before.push(p@));
        },
        None => {},
    }
    let secondary = dedupe_tags(secondary);
    ScanItem { path: document.path.clone(), primary_tag: primary, secondary_tags: secondary }
}

/// What the scanner finds in each of the documents, in their order.
pub fn scan_tags(documents: &Vec<Document>) -> (r: Vec<ScanItem>)
    ensures
        r@.len() == documents@.len(),
        forall|i: int|
            0 <= i < r@.len() ==> {
                let item = #[trigger] r@[i];
                let parts = scanned_parts(documents@[i].content@);
                &&& item.path@ == documents@[i].path@
                &&& match item.primary_tag {
                    Some(p) => primary_of(parts) == Some(p@),
                    None => primary_of(parts) is None,
                }
                &&& tag_views(item.secondary_tags@) == secondary_of(parts)
            },
{
    let mut items: Vec<ScanItem> = Vec::new();
    let mut i: usize = 0;
    while i < documents.len()
        invariant
            i <= documents.len(),
            items@.len() == i,
            forall|k: int|
                0 <= k < i ==> {
                    let item = #[trigger] items@[k];
                    let parts = scanned_parts(documents@[k].content@);
                    &&& item.path@ == documents@[k].path@
                    &&& match item.primary_tag {
                        Some(p) => primary_of(parts) == Some(p@),
                        None => primary_of(parts) is None,
                    }
                    &&& tag_views(item.secondary_tags@) == secondary_of(parts)
                },
        decreases documents.len() - i,
    {
        let item = scan_document(&documents[i]);
        items.push(item);
        i += 1;
    }
    items
}

} // verus!
