//! Tag paths and the primary tag marker of a note's body.

use crate::notes::frontmatter::{lookup, EntryView, Field, FieldView, Frontmatter, Scalar, ScalarView};
use crate::text;
use vstd::prelude::*;

verus! {

/// A hierarchical tag: its segments from the root down, as in
/// `["project", "client", "acme"]`.
#[derive(Debug, Hash)]
pub struct TagPath(pub Vec<String>);

impl View for TagPath {
    type V = Seq<Seq<char>>;

    open spec fn view(&self) -> Seq<Seq<char>> {
        text::texts(self.0@)
    }
}

/// The separator of the segments in the written form of a tag.
pub open spec fn slash() -> Seq<char> {
    seq!['/']
}

/// What opens the primary tag marker of a body.
pub open spec fn marker_open() -> Seq<char> {
    seq!['{', ' ', '#']
}

/// What closes the primary tag marker of a body.
pub open spec fn marker_close() -> Seq<char> {
    seq![' ', '}']
}

/// What follows the primary tag marker when one is written.
pub open spec fn marker_gap() -> Seq<char> {
    seq!['\n', '\n']
}

/// A segment is not empty, holds no `/` and has no whitespace at either end.
pub open spec fn valid_segment(s: Seq<char>) -> bool {
    s.len() > 0 && text::is_trimmed(s) && forall|j: int| 0 <= j < s.len() ==> s[j] != '/'
}

/// The pieces trimmed, without those that are empty after trimming.
pub open spec fn clean(pieces: Seq<Seq<char>>) -> Seq<Seq<char>>
    decreases pieces.len(),
{
    if pieces.len() == 0 {
        Seq::empty()
    } else {
        let t = text::trim(pieces.last());
        if t.len() == 0 {
            clean(pieces.drop_last())
        } else {
            clean(pieces.drop_last()).push(t)
        }
    }
}

/// The segments that a written tag stands for: the text is split at each
/// `/`, every piece is trimmed and empty pieces are dropped.
pub open spec fn segments_of(t: Seq<char>) -> Seq<Seq<char>> {
    clean(text::split(t, '/'))
}

/// True if every one of `segs` is a valid segment.
pub open spec fn valid_segments(segs: Seq<Seq<char>>) -> bool {
    forall|i: int| 0 <= i < segs.len() ==> valid_segment(#[trigger] segs[i])
}

/// The first line of a text: what stands before its first line end.
pub open spec fn first_line(t: Seq<char>) -> Seq<char> {
    t.take(text::index_of(t, '\n'))
}

/// Where the primary tag marker closes in a body that has no leading
/// whitespace: the place of the first ` }` of the first line, when that line
/// begins with `{ #`. A ` }` on a later line closes nothing.
pub open spec fn marker_end(t: Seq<char>) -> Option<int> {
    if text::starts_with(first_line(t), marker_open()) {
        text::find(first_line(t), marker_close())
    } else {
        None
    }
}

/// The text of the primary tag marker: what stands between `{ #` and the
/// first ` }` of the first line, when the body begins with `{ #` after its
/// leading whitespace and the marker closes on that line.
pub open spec fn primary_tag_text(body: Seq<char>) -> Option<Seq<char>> {
    let t = text::trim_start(body);
    match marker_end(t) {
        Some(end) => Some(t.subrange(3, end)),
        None => None,
    }
}

/// The segments of the primary tag of a body, if it has one.
pub open spec fn primary_tag(body: Seq<char>) -> Option<Seq<Seq<char>>> {
    match primary_tag_text(body) {
        Some(t) => {
            let segs = segments_of(text::trim(t));
            if segs.len() > 0 {
                Some(segs)
            } else {
                None
            }
        },
        None => None,
    }
}

/// The line that carries `tag` as primary tag, with the blank line after it.
pub open spec fn marker_line(tag: Seq<Seq<char>>) -> Seq<char> {
    marker_open() + text::join(tag, slash()) + marker_close() + marker_gap()
}

/// What is left of a body when its primary tag marker and the whitespace
/// around it are taken away; the body without leading whitespace if it has
/// no marker.
pub open spec fn body_after_marker(body: Seq<char>) -> Seq<char> {
    let t = text::trim_start(body);
    match marker_end(t) {
        Some(end) => text::trim_start(t.skip(end + 2)),
        None => t,
    }
}

/// The body with `tag` as its primary tag.
pub open spec fn with_primary_tag(body: Seq<char>, tag: Seq<Seq<char>>) -> Seq<char> {
    marker_line(tag) + body_after_marker(body)
}

/// What a list of tags stands for.
pub open spec fn tag_views(tags: Seq<TagPath>) -> Seq<Seq<Seq<char>>> {
    tags.map_values(|t: TagPath| t@)
}

/// The keys under which the front matter may declare tags, in the order in
/// which they are tried.
pub open spec fn tag_keys() -> Seq<Seq<char>> {
    seq!["tags"@, "tag"@, "Tags"@, "Tag"@]
}

/// The list under the first of `keys` that holds a list. A key that is
/// missing, or holds anything but a list, is passed over.
pub open spec fn declared_list(fm: Seq<EntryView>, keys: Seq<Seq<char>>) -> Option<
    Seq<ScalarView>,
>
    decreases keys.len(),
{
    if keys.len() == 0 {
        None
    } else {
        match lookup(fm, keys[0]) {
            Some(FieldView::List(items)) => Some(items),
            _ => declared_list(fm, keys.drop_first()),
        }
    }
}

/// The first of `keys` that holds a list.
pub open spec fn declared_key(fm: Seq<EntryView>, keys: Seq<Seq<char>>) -> Option<Seq<char>>
    decreases keys.len(),
{
    if keys.len() == 0 {
        None
    } else {
        match lookup(fm, keys[0]) {
            Some(FieldView::List(_)) => Some(keys[0]),
            _ => declared_key(fm, keys.drop_first()),
        }
    }
}

/// The tags that the elements of a list declare: each text element is one
/// tag of its own, read from its written form; elements that are no text,
/// or hold no segment, declare nothing.
pub open spec fn tags_of_items(items: Seq<ScalarView>) -> Seq<Seq<Seq<char>>>
    decreases items.len(),
{
    if items.len() == 0 {
        Seq::empty()
    } else {
        let rest = tags_of_items(items.drop_last());
        match items.last() {
            ScalarView::Text(t) => {
                let segs = segments_of(text::trim(t));
                if segs.len() > 0 {
                    rest.push(segs)
                } else {
                    rest
                }
            },
            ScalarView::Other(_) => rest,
        }
    }
}

/// The tags that a front matter declares.
pub open spec fn frontmatter_tags(fm: Seq<EntryView>) -> Seq<Seq<Seq<char>>> {
    match declared_list(fm, tag_keys()) {
        Some(items) => tags_of_items(items),
        None => Seq::empty(),
    }
}

/// The key that holds the list of tags is the key under which that list is
/// found.
pub proof fn lemma_declared(fm: Seq<EntryView>, keys: Seq<Seq<char>>)
    ensures
        match declared_key(fm, keys) {
            Some(key) => lookup(fm, key) matches Some(FieldView::List(items)) && declared_list(
                fm,
                keys,
            ) == Some(items),
            None => declared_list(fm, keys) is None,
        },
    decreases keys.len(),
{
    if keys.len() > 0 {
        lemma_declared(fm, keys.drop_first());
    }
}

/// Cleaning leaves valid segments as they are.
pub proof fn lemma_clean_valid(segs: Seq<Seq<char>>)
    requires
        valid_segments(segs),
    ensures
        clean(segs) == segs,
    decreases segs.len(),
{
    if segs.len() > 0 {
        let init = segs.drop_last();
        assert forall|i: int| 0 <= i < init.len() implies valid_segment(#[trigger] init[i]) by {
            assert(init[i] == segs[i]);
        }
        lemma_clean_valid(init);
        assert(valid_segment(segs[segs.len() - 1]));
        text::lemma_trim_of_trimmed(segs.last());
        assert(init.push(segs.last()) == segs);
    } else {
        assert(segs == Seq::<Seq<char>>::empty());
    }
}

/// Cleaning pieces that hold no `/` gives valid segments.
pub proof fn lemma_clean_gives_valid(pieces: Seq<Seq<char>>)
    requires
        forall|i: int, j: int|
            0 <= i < pieces.len() && 0 <= j < pieces[i].len() ==> #[trigger] pieces[i][j] != '/',
    ensures
        valid_segments(clean(pieces)),
    decreases pieces.len(),
{
    if pieces.len() > 0 {
        let init = pieces.drop_last();
        assert forall|i: int, j: int|
            0 <= i < init.len() && 0 <= j < init[i].len() implies #[trigger] init[i][j] != '/' by {
            assert(init[i] == pieces[i]);
        }
        lemma_clean_gives_valid(init);
        let last = pieces.last();
        let t = text::trim(last);
        text::lemma_trim(last);
        if t.len() > 0 {
            assert forall|j: int| 0 <= j < t.len() implies t[j] != '/' by {
                assert(t[j] == last[text::leading_spaces(last) + j]);
                assert(last == pieces[pieces.len() - 1]);
            }
            assert(valid_segment(t));
            assert forall|i: int| 0 <= i < clean(pieces).len() implies valid_segment(
                #[trigger] clean(pieces)[i],
            ) by {
                if i < clean(init).len() {
                    assert(clean(pieces)[i] == clean(init)[i]);
                }
            }
        }
    }
}

/// What a written tag stands for is made of valid segments.
pub proof fn lemma_segments_valid(t: Seq<char>)
    ensures
        valid_segments(segments_of(t)),
{
    text::lemma_split_pieces(t, '/');
    lemma_clean_gives_valid(text::split(t, '/'));
}

/// The segments that a written tag stands for.
pub fn parse_segments(t: &Vec<char>) -> (out: Vec<String>)
    ensures
        text::texts(out@) == segments_of(t@),
{
    let parts = text::split_on(t, '/');
    let mut out: Vec<String> = Vec::new();
    let mut i: usize = 0;
    assert(text::pieces(parts@).take(0) == Seq::<Seq<char>>::empty());
    assert(text::texts(out@) == Seq::<Seq<char>>::empty());
    while i < parts.len()
        invariant
            i <= parts.len(),
            text::texts(out@) == clean(text::pieces(parts@).take(i as int)),
        decreases parts.len() - i,
    {
        let ghost before = text::pieces(parts@).take(i as int);
        let ghost now = text::pieces(parts@).take(i + 1);
        let ghost old_out = text::texts(out@);
        let p = text::trimmed(&parts[i]);
        proof {
            assert(now.drop_last() == before);
            assert(now.last() == parts@[i as int]@);
        }
        if p.len() > 0 {
            let s = text::string_of(&p);
            out.push(s);
            assert(text::texts(out@) == old_out.push(p@));
        }
        i += 1;
    }
    assert(text::pieces(parts@).take(parts.len() as int) == text::pieces(parts@));
    out
}

impl TagPath {
    /// True if the path has at least one segment and all its segments are
    /// valid.
    pub open spec fn is_valid(&self) -> bool {
        self@.len() > 0 && valid_segments(self@)
    }

    /// Reads a tag from its written form. Fails if no segment is left after
    /// trimming.
    pub fn parse(written: &str) -> (r: Option<TagPath>)
        ensures
            match r {
                Some(p) => p@ == segments_of(written@) && p.is_valid(),
                None => segments_of(written@).len() == 0,
            },
    {
        let chars = text::chars_of(written);
        TagPath::parse_chars(&chars)
    }

    /// Reads a tag from the characters of its written form.
    pub fn parse_chars(written: &Vec<char>) -> (r: Option<TagPath>)
        ensures
            match r {
                Some(p) => p@ == segments_of(written@) && p.is_valid(),
                None => segments_of(written@).len() == 0,
            },
    {
        let parts = parse_segments(written);
        proof {
            lemma_segments_valid(written@);
        }
        if parts.len() == 0 {
            None
        } else {
            Some(TagPath(parts))
        }
    }

    /// The tags that the front matter declares: the elements of the list
    /// under the first of the keys `tags`, `tag`, `Tags`, `Tag` that holds a
    /// list. Each element is a tag of its own.
    pub fn from_frontmatter(fm: &Frontmatter) -> (r: Vec<TagPath>)
        ensures
            tag_views(r@) == frontmatter_tags(fm@),
            forall|i: int| 0 <= i < r@.len() ==> (#[trigger] r@[i]).is_valid(),
    {
        proof {
            lemma_declared(fm@, tag_keys());
        }
        let found = match TagPath::key_in(fm) {
            Some(key) => fm.get(key),
            None => None,
        };
        match found {
            Some(Field::List(items)) => TagPath::from_items(items),
            _ => {
                let r: Vec<TagPath> = Vec::new();
                assert(tag_views(r@) == Seq::<Seq<Seq<char>>>::empty());
                r
            },
        }
    }

    /// The first of the keys `tags`, `tag`, `Tags`, `Tag` that holds a list
    /// in the front matter.
    pub fn key_in(fm: &Frontmatter) -> (r: Option<&'static str>)
        ensures
            match r {
                Some(k) => declared_key(fm@, tag_keys()) == Some(k@) && lookup(fm@, k@) matches Some(
                    FieldView::List(_),
                ),
                None => declared_key(fm@, tag_keys()) is None,
            },
    {
        proof {
            reveal_with_fuel(declared_key, 5);
        }
        if TagPath::holds_list(fm, "tags") {
            Some("tags")
        } else if TagPath::holds_list(fm, "tag") {
            Some("tag")
        } else if TagPath::holds_list(fm, "Tags") {
            Some("Tags")
        } else if TagPath::holds_list(fm, "Tag") {
            Some("Tag")
        } else {
            None
        }
    }

    /// True if the front matter holds a list under `key`.
    pub fn holds_list(fm: &Frontmatter, key: &str) -> (r: bool)
        ensures
            r == (lookup(fm@, key@) matches Some(FieldView::List(_))),
    {
        match fm.get(key) {
            Some(Field::List(_)) => true,
            _ => false,
        }
    }

    /// The tags that the elements of a list declare.
    pub fn from_items(items: &Vec<Scalar>) -> (r: Vec<TagPath>)
        ensures
            tag_views(r@) == tags_of_items(crate::notes::frontmatter::scalar_views(items@)),
            forall|i: int| 0 <= i < r@.len() ==> (#[trigger] r@[i]).is_valid(),
    {
        let ghost views = crate::notes::frontmatter::scalar_views(items@);
        let mut r: Vec<TagPath> = Vec::new();
        let mut i: usize = 0;
        assert(views.take(0) == Seq::<ScalarView>::empty());
        assert(tag_views(r@) == Seq::<Seq<Seq<char>>>::empty());
        while i < items.len()
            invariant
                i <= items.len(),
                views == crate::notes::frontmatter::scalar_views(items@),
                tag_views(r@) == tags_of_items(views.take(i as int)),
                forall|j: int| 0 <= j < r@.len() ==> (#[trigger] r@[j]).is_valid(),
            decreases items.len() - i,
        {
            let ghost before = views.take(i as int);
            let ghost now = views.take(i + 1);
            let ghost old_r = tag_views(r@);
            proof {
                assert(now.drop_last() == before);
                assert(now.last() == items@[i as int]@);
            }
            match &items[i] {
                Scalar::Text(t) => {
                    let chars = text::chars_of(t.as_str());
                    let trimmed = text::trimmed(&chars);
                    match TagPath::parse_chars(&trimmed) {
                        Some(tag) => {
                            r.push(tag);
                            assert(tag_views(r@) == old_r.push(tag@));
                        },
                        None => {},
                    }
                },
                Scalar::Other(_) => {},
            }
            i += 1;
        }
        assert(views.take(items.len() as int) == views);
        r
    }

    /// The written form of the tag: its segments with `/` between them.
    pub fn to_slash_string(&self) -> (r: String)
        ensures
            r@ == text::join(self@, slash()),
    {
        let sep: Vec<char> = vec!['/'];
        assert(sep@ =~= slash());
        let joined = text::join_strings(&self.0, &sep);
        text::string_of(&joined)
    }

    /// The segments with `separator` between them.
    pub fn to_string_with_separator(&self, separator: &str) -> (r: String)
        ensures
            r@ == text::join(self@, separator@),
    {
        let sep = text::chars_of(separator);
        let joined = text::join_strings(&self.0, &sep);
        text::string_of(&joined)
    }

    /// True if the segments of `other` are the first segments of this tag.
    pub fn starts_with(&self, other: &TagPath) -> (r: bool)
        ensures
            r == other@.is_prefix_of(self@),
    {
        if other.0.len() > self.0.len() {
            return false;
        }
        let mut i: usize = 0;
        while i < other.0.len()
            invariant
                i <= other.0.len() <= self.0.len(),
                forall|k: int| 0 <= k < i ==> self@[k] == #[trigger] other@[k],
            decreases other.0.len() - i,
        {
            if self.0[i] != other.0[i] {
                assert(self@[i as int] != other@[i as int]);
                assert(self@.subrange(0, other@.len() as int)[i as int] == self@[i as int]);
                return false;
            }
            i += 1;
        }
        assert(other@ =~= self@.subrange(0, other@.len() as int));
        true
    }
}

impl Clone for TagPath {
    fn clone(&self) -> (r: Self)
        ensures
            r@ == self@,
    {
        let mut parts: Vec<String> = Vec::new();
        let mut i: usize = 0;
        while i < self.0.len()
            invariant
                i <= self.0.len(),
                parts@ == self.0@.take(i as int),
            decreases self.0.len() - i,
        {
            parts.push(self.0[i].clone());
            i += 1;
        }
        assert(self.0@.take(self.0.len() as int) == self.0@);
        TagPath(parts)
    }
}

impl PartialEq for TagPath {
    fn eq(&self, other: &Self) -> (r: bool) {
        if self.0.len() != other.0.len() {
            assert(self@.len() != other@.len());
            return false;
        }
        let mut i: usize = 0;
        while i < self.0.len()
            invariant
                i <= self.0.len(),
                self.0.len() == other.0.len(),
                forall|k: int| 0 <= k < i ==> self@[k] == #[trigger] other@[k],
            decreases self.0.len() - i,
        {
            if self.0[i] != other.0[i] {
                assert(self@[i as int] != other@[i as int]);
                return false;
            }
            i += 1;
        }
        assert(self@ =~= other@);
        true
    }
}

impl vstd::std_specs::cmp::PartialEqSpecImpl for TagPath {
    open spec fn obeys_eq_spec() -> bool {
        true
    }

    open spec fn eq_spec(&self, other: &Self) -> bool {
        self@ == other@
    }
}

impl Eq for TagPath {

}

impl From<Vec<String>> for TagPath {
    fn from(parts: Vec<String>) -> (r: Self) {
        TagPath(parts)
    }
}

impl vstd::std_specs::convert::FromSpecImpl<Vec<String>> for TagPath {
    open spec fn obeys_from_spec() -> bool {
        true
    }

    open spec fn from_spec(parts: Vec<String>) -> Self {
        TagPath(parts)
    }
}

/// Where the primary tag marker closes in a body that has no leading
/// whitespace.
pub fn find_marker_end(t: &Vec<char>) -> (r: Option<usize>)
    ensures
        match r {
            Some(end) => marker_end(t@) == Some(end as int) && 3 <= end && end + 2 <= t.len(),
            None => marker_end(t@) is None,
        },
{
    let open: Vec<char> = vec!['{', ' ', '#'];
    let close: Vec<char> = vec![' ', '}'];
    assert(open@ =~= marker_open() && close@ =~= marker_close());
    let line_end = text::position_of(t, '\n');
    let line = text::slice(t, 0, line_end);
    assert(line@ == first_line(t@));
    if !text::has_at(&line, &open, 0) {
        return None;
    }
    proof {
        lemma_marker_end(t@);
    }
    text::find_in(&line, &close)
}

/// The primary tag of a body: the tag of the marker `{ #tag/path }` that
/// is the first line of the body after its leading whitespace. `None` if the
/// body begins otherwise, if the marker is not closed by ` }` on that line,
/// or if it holds no segment.
pub fn extract_primary_tag(body: &str) -> (r: Option<TagPath>)
    ensures
        match r {
            Some(p) => primary_tag(body@) == Some(p@) && p.is_valid(),
            None => primary_tag(body@) is None,
        },
{
    let chars = text::chars_of(body);
    let t = text::trimmed_start(&chars);
    match find_marker_end(&t) {
        None => None,
        Some(end) => {
            let inner = text::slice(&t, 3, end);
            let tag_text = text::trimmed(&inner);
            TagPath::parse_chars(&tag_text)
        },
    }
}

/// The body with `new_tag` as its primary tag: a marker that is there is
/// replaced, with the whitespace after it; otherwise the marker is put in
/// front of the body, whose leading whitespace is dropped.
pub fn replace_primary_tag(body: &str, new_tag: &TagPath) -> (r: String)
    ensures
        r@ == with_primary_tag(body@, new_tag@),
{
    let chars = text::chars_of(body);
    let t = text::trimmed_start(&chars);
    let open: Vec<char> = vec!['{', ' ', '#'];
    let close: Vec<char> = vec![' ', '}'];
    let gap: Vec<char> = vec!['\n', '\n'];
    let sep: Vec<char> = vec!['/'];
    assert(open@ =~= marker_open() && close@ =~= marker_close());
    assert(gap@ =~= marker_gap() && sep@ =~= slash());
    let mut out: Vec<char> = Vec::new();
    text::append(&mut out, &open);
    let joined = text::join_strings(&new_tag.0, &sep);
    text::append(&mut out, &joined);
    text::append(&mut out, &close);
    text::append(&mut out, &gap);
    assert(out@ == marker_line(new_tag@));
    let rest = match find_marker_end(&t) {
        Some(end) => {
            let after = text::slice(&t, end + 2, t.len());
            text::trimmed_start(&after)
        },
        None => t,
    };
    text::append(&mut out, &rest);
    text::string_of(&out)
}

/// The marker closes after its first three characters and before the end
/// of the first line.
pub proof fn lemma_marker_end(t: Seq<char>)
    ensures
        match marker_end(t) {
            Some(end) => 3 <= end && end + 2 <= text::index_of(t, '\n') <= t.len(),
            None => true,
        },
{
    let line = first_line(t);
    text::lemma_index_of_bounds(t, '\n');
    text::lemma_find_from(line, marker_close(), 0);
    match marker_end(t) {
        Some(end) => {
            let head = line.subrange(0, 3);
            assert(head == marker_open());
            assert(head[0] == line[0] && head[1] == line[1] && head[2] == line[2]);
            let m = line.subrange(end, end + 2);
            assert(m == marker_close());
            assert(m[0] == line[end] && m[1] == line[end + 1]);
        },
        None => {},
    }
}

/// Reading the written form of a valid tag gives the tag back.
pub proof fn lemma_parse_of_written(p: TagPath)
    requires
        p.is_valid(),
    ensures
        segments_of(text::join(p@, slash())) == p@,
{
    lemma_segments_of_joined(p@);
}

/// The segments of what valid segments are joined to are those segments.
pub proof fn lemma_segments_of_joined(segs: Seq<Seq<char>>)
    requires
        segs.len() > 0,
        valid_segments(segs),
    ensures
        segments_of(text::join(segs, slash())) == segs,
{
    assert forall|i: int, j: int|
        0 <= i < segs.len() && 0 <= j < segs[i].len() implies #[trigger] segs[i][j] != '/' by {
        assert(valid_segment(segs[i]));
    }
    text::lemma_split_join(segs, '/');
    lemma_clean_valid(segs);
}

/// A body that was given a primary tag has that tag, when the tag is valid
/// and its written form holds neither ` }` nor a line end.
pub proof fn lemma_primary_tag_of_replaced(body: Seq<char>, tag: Seq<Seq<char>>)
    requires
        tag.len() > 0,
        valid_segments(tag),
        !text::contains(text::join(tag, slash()), marker_close()),
        !text::join(tag, slash()).contains('\n'),
    ensures
        primary_tag(with_primary_tag(body, tag)) == Some(tag),
{
    let j = text::join(tag, slash());
    let rest = marker_gap() + body_after_marker(body);
    let n = with_primary_tag(body, tag);
    let k = j.len() as int;
    assert(n =~= marker_open() + j + marker_close() + rest);
    assert(n[0] == '{' && n[1] == ' ' && n[2] == '#');
    assert(n[3 + k] == ' ' && n[4 + k] == '}');
    assert(n[5 + k] == '\n');
    text::lemma_leading_spaces(n, 0);
    assert(n.skip(0) == n);
    assert forall|i: int| 0 <= i < 5 + k implies #[trigger] n[i] != '\n' by {
        if 3 <= i < 3 + k {
            assert(n[i] == j[i - 3]);
            assert(j.contains(j[i - 3]));
        }
    }
    text::lemma_index_of(n, '\n', 5 + k);
    let line = first_line(n);
    assert(line =~= marker_open() + j + marker_close());
    assert(line.subrange(0, 3) =~= marker_open());
    assert(line.subrange(3 + k, 5 + k) =~= marker_close());
    text::lemma_find_from(j, marker_close(), 0);
    assert forall|i: int| 0 <= i < 3 + k implies !text::matches_at(line, marker_close(), i) by {
        if text::matches_at(line, marker_close(), i) {
            let m = line.subrange(i, i + 2);
            assert(m[0] == line[i] && m[1] == line[i + 1]);
            if 3 <= i && i + 2 <= 3 + k {
                assert(j.subrange(i - 3, i - 1) =~= m);
                assert(text::matches_at(j, marker_close(), i - 3));
            }
        }
    }
    text::lemma_find_from_is(line, marker_close(), 0, 3 + k);
    assert(marker_end(n) == Some(3 + k));
    assert(n.subrange(3, 3 + k) =~= j);
    assert forall|i: int| 0 <= i < tag.len() implies (#[trigger] tag[i]).len() > 0 by {
        assert(valid_segment(tag[i]));
    }
    text::lemma_join_ends(tag, slash());
    assert(valid_segment(tag[0]) && valid_segment(tag[tag.len() - 1]));
    text::lemma_trim_of_trimmed(j);
    lemma_segments_of_joined(tag);
}

} // verus!
