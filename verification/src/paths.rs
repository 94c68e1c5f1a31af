//! Places in the file system, as lists of components.
//!
//! A path is the list of its components from the outermost on. The root of
//! the file system is the component `/`; a path is absolute if it begins with
//! it. The library never touches the file system: it works out where things
//! are to be, and leaves it to its caller to look and to move.

use crate::text;
use vstd::prelude::*;

verus! {

/// The component that stands for the root of the file system.
pub open spec fn root() -> Seq<char> {
    seq!['/']
}

/// The component that stands for the directory one is in.
pub open spec fn here() -> Seq<char> {
    seq!['.']
}

/// The component that stands for the directory above.
pub open spec fn above() -> Seq<char> {
    seq!['.', '.']
}

/// True if the path begins at the root of the file system.
pub open spec fn is_absolute(path: Seq<Seq<char>>) -> bool {
    path.len() > 0 && path[0] == root()
}

/// The pieces that name something: those that are neither empty nor `.`.
pub open spec fn naming_pieces(pieces: Seq<Seq<char>>) -> Seq<Seq<char>>
    decreases pieces.len(),
{
    if pieces.len() == 0 {
        Seq::empty()
    } else if pieces.last().len() == 0 || pieces.last() == here() {
        naming_pieces(pieces.drop_last())
    } else {
        naming_pieces(pieces.drop_last()).push(pieces.last())
    }
}

/// The components of a written path. The text is split at each `/`; empty
/// pieces and `.` pieces are dropped. A text that begins with `/` gives the
/// root as first component; a text whose first piece is `.` gives `.` as
/// first component.
pub open spec fn components_of(s: Seq<char>) -> Seq<Seq<char>> {
    let pieces = text::split(s, '/');
    if s.len() > 0 && s[0] == '/' {
        seq![root()] + naming_pieces(pieces)
    } else if pieces[0] == here() {
        seq![here()] + naming_pieces(pieces)
    } else {
        naming_pieces(pieces)
    }
}

/// `rel` below `base`; `rel` itself if it is absolute. A `.` at the head of
/// `rel` is dropped unless `base` is empty.
pub open spec fn joined(base: Seq<Seq<char>>, rel: Seq<Seq<char>>) -> Seq<Seq<char>> {
    if is_absolute(rel) {
        rel
    } else if base.len() > 0 && rel.len() > 0 && rel[0] == here() {
        base + rel.drop_first()
    } else {
        base + rel
    }
}

/// The path without its last component. The root and the empty path have no
/// parent.
pub open spec fn parent_of(path: Seq<Seq<char>>) -> Option<Seq<Seq<char>>> {
    if path.len() == 0 || (path.len() == 1 && path[0] == root()) {
        None
    } else {
        Some(path.drop_last())
    }
}

/// The last component, if it names something: it is neither the root nor `.`
/// nor `..`.
pub open spec fn file_name_of(path: Seq<Seq<char>>) -> Option<Seq<char>> {
    if path.len() == 0 || path.last() == root() || path.last() == here() || path.last()
        == above() {
        None
    } else {
        Some(path.last())
    }
}

/// What is left of `path` after `prefix`, if `path` begins with it.
pub open spec fn stripped(path: Seq<Seq<char>>, prefix: Seq<Seq<char>>) -> Option<
    Seq<Seq<char>>,
> {
    if prefix.is_prefix_of(path) {
        Some(path.skip(prefix.len() as int))
    } else {
        None
    }
}

/// The written form of a path: its components with `/` between them, the
/// root written once.
pub open spec fn written(path: Seq<Seq<char>>) -> Seq<char> {
    if is_absolute(path) {
        root() + text::join(path.drop_first(), root())
    } else {
        text::join(path, root())
    }
}

/// True if the text of `s` is `t`.
pub fn text_is(s: &String, t: &str) -> (r: bool)
    ensures
        r == (s@ == t@),
{
    let owned = t.to_owned();
    *s == owned
}

/// The components of a written path.
pub fn components(written_path: &str) -> (r: Vec<String>)
    ensures
        text::texts(r@) == components_of(written_path@),
{
    let chars = text::chars_of(written_path);
    let parts = text::split_on(&chars, '/');
    let dot: Vec<char> = vec!['.'];
    let slash: Vec<char> = vec!['/'];
    assert(dot@ =~= here() && slash@ =~= root());
    let mut out: Vec<String> = Vec::new();
    proof {
        text::lemma_split_pieces(chars@, '/');
    }
    let ghost head: Seq<Seq<char>> = if chars@.len() > 0 && chars@[0] == '/' {
        seq![root()]
    } else if text::pieces(parts@)[0] == here() {
        seq![here()]
    } else {
        Seq::empty()
    };
    if chars.len() > 0 && chars[0] == '/' {
        out.push(text::string_of(&slash));
    } else if same_chars(&parts[0], &dot) {
        out.push(text::string_of(&dot));
    }
    assert(text::texts(out@) =~= head);
    let mut i: usize = 0;
    assert(text::pieces(parts@).take(0) == Seq::<Seq<char>>::empty());
    while i < parts.len()
        invariant
            i <= parts.len(),
            dot@ == here(),
            text::texts(out@) == head + naming_pieces(text::pieces(parts@).take(i as int)),
        decreases parts.len() - i,
    {
        let ghost before = text::pieces(parts@).take(i as int);
        let ghost now = text::pieces(parts@).take(i + 1);
        let ghost old_out = text::texts(out@);
        proof {
            assert(now.drop_last() == before);
            assert(now.last() == parts@[i as int]@);
        }
        if parts[i].len() > 0 && !same_chars(&parts[i], &dot) {
            out.push(text::string_of(&parts[i]));
            proof {
                assert(text::texts(out@) == old_out.push(parts@[i as int]@));
                assert(head + naming_pieces(before).push(parts@[i as int]@) == (head
                    + naming_pieces(before)).push(parts@[i as int]@));
            }
        }
        i += 1;
    }
    assert(text::pieces(parts@).take(parts.len() as int) == text::pieces(parts@));
    out
}

/// True if the two hold the same characters.
pub fn same_chars(a: &Vec<char>, b: &Vec<char>) -> (r: bool)
    ensures
        r == (a@ == b@),
{
    if a.len() != b.len() {
        return false;
    }
    let mut i: usize = 0;
    while i < a.len()
        invariant
            i <= a.len(),
            a.len() == b.len(),
            forall|j: int| 0 <= j < i ==> a@[j] == b@[j],
        decreases a.len() - i,
    {
        if a[i] != b[i] {
            return false;
        }
        i += 1;
    }
    assert(a@ =~= b@);
    true
}

/// True if `path` begins with the components of `prefix`.
pub fn starts_with(path: &Vec<String>, prefix: &Vec<String>) -> (r: bool)
    ensures
        r == text::texts(prefix@).is_prefix_of(text::texts(path@)),
{
    if prefix.len() > path.len() {
        return false;
    }
    let ghost a = text::texts(path@);
    let ghost b = text::texts(prefix@);
    let mut i: usize = 0;
    while i < prefix.len()
        invariant
            i <= prefix.len() <= path.len(),
            a == text::texts(path@),
            b == text::texts(prefix@),
            forall|j: int| 0 <= j < i ==> a[j] == b[j],
        decreases prefix.len() - i,
    {
        if path[i] != prefix[i] {
            assert(a[i as int] != b[i as int]);
            assert(a.subrange(0, b.len() as int)[i as int] == a[i as int]);
            return false;
        }
        i += 1;
    }
    assert(b =~= a.subrange(0, b.len() as int));
    true
}

/// A copy of the components of `path` from `from` on.
pub fn tail(path: &Vec<String>, from: usize) -> (r: Vec<String>)
    requires
        from <= path.len(),
    ensures
        text::texts(r@) == text::texts(path@).skip(from as int),
{
    let mut out: Vec<String> = Vec::new();
    let mut i: usize = from;
    while i < path.len()
        invariant
            from <= i <= path.len(),
            text::texts(out@) == text::texts(path@).subrange(from as int, i as int),
        decreases path.len() - i,
    {
        let ghost before = text::texts(out@);
        out.push(path[i].clone());
        assert(text::texts(out@) == before.push(path@[i as int]@));
        i += 1;
    }
    assert(text::texts(path@).subrange(from as int, path.len() as int) == text::texts(path@).skip(
        from as int,
    ));
    out
}

/// A copy of the first `count` components of `path`.
pub fn head(path: &Vec<String>, count: usize) -> (r: Vec<String>)
    requires
        count <= path.len(),
    ensures
        text::texts(r@) == text::texts(path@).take(count as int),
{
    let mut out: Vec<String> = Vec::new();
    let mut i: usize = 0;
    while i < count
        invariant
            i <= count <= path.len(),
            text::texts(out@) == text::texts(path@).take(i as int),
        decreases count - i,
    {
        let ghost before = text::texts(out@);
        out.push(path[i].clone());
        assert(text::texts(out@) == before.push(path@[i as int]@));
        i += 1;
    }
    out
}

/// A copy of `path`.
pub fn copy(path: &Vec<String>) -> (r: Vec<String>)
    ensures
        text::texts(r@) == text::texts(path@),
{
    head(path, path.len())
}

/// What is left of `path` after `prefix`, if `path` begins with it.
pub fn strip_prefix(path: &Vec<String>, prefix: &Vec<String>) -> (r: Option<Vec<String>>)
    ensures
        match r {
            Some(rest) => stripped(text::texts(path@), text::texts(prefix@)) == Some(
                text::texts(rest@),
            ),
            None => stripped(text::texts(path@), text::texts(prefix@)) is None,
        },
{
    if starts_with(path, prefix) {
        Some(tail(path, prefix.len()))
    } else {
        None
    }
}

/// `rel` below `base`; `rel` itself if it is absolute.
pub fn join(base: &Vec<String>, rel: &Vec<String>) -> (r: Vec<String>)
    ensures
        text::texts(r@) == joined(text::texts(base@), text::texts(rel@)),
{
    proof {
        reveal_strlit("/");
        reveal_strlit(".");
        assert("/"@ =~= root() && "."@ =~= here());
    }
    let absolute = rel.len() > 0 && text_is(&rel[0], "/");
    let skip_here = !absolute && base.len() > 0 && rel.len() > 0 && text_is(&rel[0], ".");
    let mut out: Vec<String> = if absolute {
        Vec::new()
    } else {
        copy(base)
    };
    let mut rest = if skip_here {
        tail(rel, 1)
    } else {
        tail(rel, 0)
    };
    let ghost first = text::texts(out@);
    let ghost second = text::texts(rest@);
    out.append(&mut rest);
    proof {
        assert(text::texts(out@) =~= first + second);
        assert(text::texts(rel@).skip(0) == text::texts(rel@));
        if skip_here {
            assert(text::texts(rel@).skip(1) == text::texts(rel@).drop_first());
        }
        if absolute {
            assert(first + second =~= second);
        }
    }
    out
}

/// The path without its last component.
pub fn parent(path: &Vec<String>) -> (r: Option<Vec<String>>)
    ensures
        match r {
            Some(p) => parent_of(text::texts(path@)) == Some(text::texts(p@)),
            None => parent_of(text::texts(path@)) is None,
        },
{
    proof {
        reveal_strlit("/");
        assert("/"@ =~= root());
    }
    if path.len() == 0 || (path.len() == 1 && text_is(&path[0], "/")) {
        None
    } else {
        let p = head(path, path.len() - 1);
        Some(p)
    }
}

/// The last component, if it names something.
pub fn file_name(path: &Vec<String>) -> (r: Option<String>)
    ensures
        match r {
            Some(name) => file_name_of(text::texts(path@)) == Some(name@),
            None => file_name_of(text::texts(path@)) is None,
        },
{
    proof {
        reveal_strlit("/");
        reveal_strlit(".");
        reveal_strlit("..");
        assert("/"@ =~= root() && "."@ =~= here() && ".."@ =~= above());
    }
    if path.len() == 0 {
        return None;
    }
    let last = &path[path.len() - 1];
    assert(text::texts(path@).last() == last@);
    if text_is(last, "/") || text_is(last, ".") || text_is(last, "..") {
        None
    } else {
        Some(last.clone())
    }
}

/// The written form of a path.
pub fn to_text(path: &Vec<String>) -> (r: String)
    ensures
        r@ == written(text::texts(path@)),
{
    proof {
        reveal_strlit("/");
        assert("/"@ =~= root());
    }
    let slash: Vec<char> = vec!['/'];
    assert(slash@ =~= root());
    if path.len() > 0 && text_is(&path[0], "/") {
        let rest = tail(path, 1);
        let joined_rest = text::join_strings(&rest, &slash);
        let mut out: Vec<char> = vec!['/'];
        text::append(&mut out, &joined_rest);
        assert(text::texts(path@).skip(1) == text::texts(path@).drop_first());
        text::string_of(&out)
    } else {
        let out = text::join_strings(path, &slash);
        text::string_of(&out)
    }
}

} // verus!
