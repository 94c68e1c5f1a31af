//! Character-level text operations shared by the scanners and engines.
//!
//! Text is modelled as `Seq<char>`. The executable functions work on
//! `Vec<char>` and state their results over that model.

use vstd::prelude::*;

verus! {

/// True for the characters that Unicode gives the White_Space property.
pub open spec fn is_space(c: char) -> bool {
    let n = c as u32;
    ||| 0x09 <= n <= 0x0D
    ||| n == 0x20
    ||| n == 0x85
    ||| n == 0xA0
    ||| n == 0x1680
    ||| 0x2000 <= n <= 0x200A
    ||| n == 0x2028
    ||| n == 0x2029
    ||| n == 0x202F
    ||| n == 0x205F
    ||| n == 0x3000
}

/// How many whitespace characters stand at the start of `s`.
pub open spec fn leading_spaces(s: Seq<char>) -> nat
    decreases s.len(),
{
    if s.len() > 0 && is_space(s[0]) {
        1 + leading_spaces(s.drop_first())
    } else {
        0
    }
}

/// How many whitespace characters stand at the end of `s`.
pub open spec fn trailing_spaces(s: Seq<char>) -> nat
    decreases s.len(),
{
    if s.len() > 0 && is_space(s.last()) {
        1 + trailing_spaces(s.drop_last())
    } else {
        0
    }
}

/// `s` without its leading whitespace.
pub open spec fn trim_start(s: Seq<char>) -> Seq<char> {
    s.skip(leading_spaces(s) as int)
}

/// `s` without its trailing whitespace.
pub open spec fn trim_end(s: Seq<char>) -> Seq<char> {
    s.take(s.len() - trailing_spaces(s))
}

/// `s` without whitespace at either end.
pub open spec fn trim(s: Seq<char>) -> Seq<char> {
    trim_end(trim_start(s))
}

/// True if `s` neither starts nor ends with whitespace.
pub open spec fn is_trimmed(s: Seq<char>) -> bool {
    s.len() > 0 ==> !is_space(s[0]) && !is_space(s.last())
}

/// True if `pat` stands in `s` at position `i`.
pub open spec fn matches_at(s: Seq<char>, pat: Seq<char>, i: int) -> bool {
    0 <= i && i + pat.len() <= s.len() && s.subrange(i, i + pat.len()) == pat
}

/// True if `s` begins with `pat`.
pub open spec fn starts_with(s: Seq<char>, pat: Seq<char>) -> bool {
    matches_at(s, pat, 0)
}

/// True if `s` ends with `pat`.
pub open spec fn ends_with(s: Seq<char>, pat: Seq<char>) -> bool {
    matches_at(s, pat, s.len() - pat.len())
}

/// The first position at or after `from` at which `pat` stands in `s`.
pub open spec fn find_from(s: Seq<char>, pat: Seq<char>, from: int) -> Option<int>
    decreases s.len() - from + 1,
{
    if from < 0 || from + pat.len() > s.len() {
        None
    } else if matches_at(s, pat, from) {
        Some(from)
    } else {
        find_from(s, pat, from + 1)
    }
}

/// `s` with `rep` in place of each `pat`, found from left to right and not
/// overlapping. An empty pattern stands nowhere.
pub open spec fn replace_all(s: Seq<char>, pat: Seq<char>, rep: Seq<char>) -> Seq<char>
    decreases s.len(),
{
    if pat.len() == 0 {
        s
    } else {
        match find_from(s, pat, 0) {
            Some(i) => if 0 <= i && i + pat.len() <= s.len() {
                s.take(i) + rep + replace_all(s.skip(i + pat.len()), pat, rep)
            } else {
                s
            },
            None => s,
        }
    }
}

/// True if `a` comes before `b` in the order of strings: character by
/// character, by code point; a text comes after each of its proper prefixes.
pub open spec fn lex_less(a: Seq<char>, b: Seq<char>) -> bool
    decreases a.len(),
{
    if b.len() == 0 {
        false
    } else if a.len() == 0 {
        true
    } else if a[0] != b[0] {
        a[0] < b[0]
    } else {
        lex_less(a.drop_first(), b.drop_first())
    }
}

/// The digit that writes a number below ten.
pub open spec fn digit_of(n: nat) -> char {
    if n == 0 {
        '0'
    } else if n == 1 {
        '1'
    } else if n == 2 {
        '2'
    } else if n == 3 {
        '3'
    } else if n == 4 {
        '4'
    } else if n == 5 {
        '5'
    } else if n == 6 {
        '6'
    } else if n == 7 {
        '7'
    } else if n == 8 {
        '8'
    } else {
        '9'
    }
}

/// A number written in base ten, without leading zeros.
pub open spec fn digits_of(n: nat) -> Seq<char>
    decreases n,
{
    if n < 10 {
        seq![digit_of(n)]
    } else {
        digits_of(n / 10).push(digit_of(n % 10))
    }
}

/// The first position at which `pat` stands in `s`.
pub open spec fn find(s: Seq<char>, pat: Seq<char>) -> Option<int> {
    find_from(s, pat, 0)
}

/// True if `pat` stands somewhere in `s`.
pub open spec fn contains(s: Seq<char>, pat: Seq<char>) -> bool {
    find(s, pat) is Some
}

/// The position of the first `c` in `s`, or the length of `s` if there is none.
pub open spec fn index_of(s: Seq<char>, c: char) -> int
    decreases s.len(),
{
    if s.len() == 0 || s[0] == c {
        0
    } else {
        1 + index_of(s.drop_first(), c)
    }
}

/// The pieces of `s` between occurrences of `sep`. There is always at least
/// one piece; pieces may be empty.
pub open spec fn split(s: Seq<char>, sep: char) -> Seq<Seq<char>>
    decreases s.len(),
{
    let i = index_of(s, sep);
    if 0 <= i < s.len() {
        seq![s.take(i)] + split(s.skip(i + 1), sep)
    } else {
        seq![s]
    }
}

/// The parts, with `sep` between each two neighbours.
pub open spec fn join(parts: Seq<Seq<char>>, sep: Seq<char>) -> Seq<char>
    decreases parts.len(),
{
    if parts.len() == 0 {
        Seq::empty()
    } else if parts.len() == 1 {
        parts[0]
    } else {
        join(parts.drop_last(), sep) + sep + parts.last()
    }
}

/// The whitespace at the start ends at the first character that is none.
pub proof fn lemma_leading_spaces(s: Seq<char>, k: int)
    requires
        0 <= k <= s.len(),
        forall|j: int| 0 <= j < k ==> is_space(#[trigger] s[j]),
        k < s.len() ==> !is_space(s[k]),
    ensures
        leading_spaces(s) == k,
    decreases s.len(),
{
    if k > 0 {
        let t = s.drop_first();
        assert forall|j: int| 0 <= j < k - 1 implies is_space(#[trigger] t[j]) by {
            assert(t[j] == s[j + 1]);
        }
        lemma_leading_spaces(t, k - 1);
    }
}

/// The whitespace at the end begins after the last character that is none.
pub proof fn lemma_trailing_spaces(s: Seq<char>, k: int)
    requires
        0 <= k <= s.len(),
        forall|j: int| s.len() - k <= j < s.len() ==> is_space(#[trigger] s[j]),
        k < s.len() ==> !is_space(s[s.len() - k - 1]),
    ensures
        trailing_spaces(s) == k,
    decreases s.len(),
{
    if k > 0 {
        let t = s.drop_last();
        assert forall|j: int| t.len() - (k - 1) <= j < t.len() implies is_space(#[trigger] t[j]) by {
            assert(t[j] == s[j]);
        }
        lemma_trailing_spaces(t, k - 1);
    }
}

/// Where the leading whitespace of `s` ends.
pub proof fn lemma_leading_spaces_bounds(s: Seq<char>)
    ensures
        leading_spaces(s) <= s.len(),
        forall|j: int| 0 <= j < leading_spaces(s) ==> is_space(#[trigger] s[j]),
        leading_spaces(s) < s.len() ==> !is_space(s[leading_spaces(s) as int]),
    decreases s.len(),
{
    if s.len() > 0 && is_space(s[0]) {
        let t = s.drop_first();
        lemma_leading_spaces_bounds(t);
        assert forall|j: int| 0 <= j < leading_spaces(s) implies is_space(#[trigger] s[j]) by {
            if j > 0 {
                assert(s[j] == t[j - 1]);
            }
        }
        if leading_spaces(s) < s.len() {
            assert(s[leading_spaces(s) as int] == t[leading_spaces(t) as int]);
        }
    }
}

/// Where the trailing whitespace of `s` begins.
pub proof fn lemma_trailing_spaces_bounds(s: Seq<char>)
    ensures
        trailing_spaces(s) <= s.len(),
        forall|j: int| s.len() - trailing_spaces(s) <= j < s.len() ==> is_space(#[trigger] s[j]),
        trailing_spaces(s) < s.len() ==> !is_space(s[s.len() - trailing_spaces(s) - 1]),
    decreases s.len(),
{
    if s.len() > 0 && is_space(s.last()) {
        let t = s.drop_last();
        lemma_trailing_spaces_bounds(t);
        assert forall|j: int| s.len() - trailing_spaces(s) <= j < s.len() implies is_space(
            #[trigger] s[j],
        ) by {
            if j < s.len() - 1 {
                assert(s[j] == t[j]);
            }
        }
        if trailing_spaces(s) < s.len() {
            assert(s[s.len() - trailing_spaces(s) - 1] == t[t.len() - trailing_spaces(t) - 1]);
        }
    }
}

/// A trimmed text is a stretch of the text it was trimmed from, and has no
/// whitespace at either end.
pub proof fn lemma_trim(s: Seq<char>)
    ensures
        is_trimmed(trim(s)),
        leading_spaces(s) + trim(s).len() <= s.len(),
        trim(s) == s.subrange(
            leading_spaces(s) as int,
            (leading_spaces(s) + trim(s).len()) as int,
        ),
{
    lemma_leading_spaces_bounds(s);
    let t = trim_start(s);
    lemma_trailing_spaces_bounds(t);
    let r = trim(s);
    if r.len() > 0 {
        assert(r[0] == t[0]);
        assert(t[0] == s[leading_spaces(s) as int]);
        assert(r.last() == t[t.len() - trailing_spaces(t) - 1]);
    }
}

/// Trimming leaves a trimmed text unchanged.
pub proof fn lemma_trim_of_trimmed(s: Seq<char>)
    requires
        is_trimmed(s),
    ensures
        trim(s) == s,
{
    lemma_leading_spaces(s, 0);
    assert(s.skip(0) == s);
    lemma_trailing_spaces(s, 0);
    assert(s.take(s.len() as int) == s);
}

/// What `find_from` returns is the first match at or after `from`.
pub proof fn lemma_find_from(s: Seq<char>, pat: Seq<char>, from: int)
    requires
        0 <= from,
    ensures
        match find_from(s, pat, from) {
            Some(i) => from <= i && matches_at(s, pat, i) && forall|j: int|
                from <= j < i ==> !matches_at(s, pat, j),
            None => forall|j: int| from <= j ==> !matches_at(s, pat, j),
        },
    decreases s.len() - from + 1,
{
    if from + pat.len() > s.len() {
    } else if matches_at(s, pat, from) {
    } else {
        lemma_find_from(s, pat, from + 1);
    }
}

/// A first match determines `find_from`.
pub proof fn lemma_find_from_is(s: Seq<char>, pat: Seq<char>, from: int, i: int)
    requires
        0 <= from <= i,
        matches_at(s, pat, i),
        forall|j: int| from <= j < i ==> !matches_at(s, pat, j),
    ensures
        find_from(s, pat, from) == Some(i),
    decreases i - from,
{
    if from < i {
        lemma_find_from_is(s, pat, from + 1, i);
    }
}

/// No match at or after `from` means `find_from` is `None`.
pub proof fn lemma_find_from_none(s: Seq<char>, pat: Seq<char>, from: int)
    requires
        0 <= from,
        forall|j: int| from <= j ==> !matches_at(s, pat, j),
    ensures
        find_from(s, pat, from) is None,
    decreases s.len() - from + 1,
{
    if from + pat.len() <= s.len() {
        lemma_find_from_none(s, pat, from + 1);
    }
}

/// The first place of a character is where `index_of` points.
pub proof fn lemma_index_of(s: Seq<char>, c: char, k: int)
    requires
        0 <= k <= s.len(),
        forall|j: int| 0 <= j < k ==> #[trigger] s[j] != c,
        k < s.len() ==> s[k] == c,
    ensures
        index_of(s, c) == k,
    decreases s.len(),
{
    if k > 0 {
        let t = s.drop_first();
        assert forall|j: int| 0 <= j < k - 1 implies #[trigger] t[j] != c by {
            assert(t[j] == s[j + 1]);
        }
        lemma_index_of(t, c, k - 1);
    }
}

/// Where `index_of` points the character stands, if it points into the text,
/// and does not stand before.
pub proof fn lemma_index_of_bounds(s: Seq<char>, c: char)
    ensures
        0 <= index_of(s, c) <= s.len(),
        forall|j: int| 0 <= j < index_of(s, c) ==> #[trigger] s[j] != c,
        index_of(s, c) < s.len() ==> s[index_of(s, c)] == c,
    decreases s.len(),
{
    if s.len() == 0 || s[0] == c {
    } else {
        let t = s.drop_first();
        lemma_index_of_bounds(t, c);
        assert forall|j: int| 0 <= j < index_of(s, c) implies #[trigger] s[j] != c by {
            if j > 0 {
                assert(s[j] == t[j - 1]);
            }
        }
    }
}

/// There is at least one piece, and no piece holds the separator.
pub proof fn lemma_split_pieces(s: Seq<char>, sep: char)
    ensures
        split(s, sep).len() >= 1,
        forall|i: int, j: int|
            0 <= i < split(s, sep).len() && 0 <= j < split(s, sep)[i].len() ==> #[trigger] split(
                s,
                sep,
            )[i][j] != sep,
    decreases s.len(),
{
    lemma_index_of_bounds(s, sep);
    let k = index_of(s, sep);
    if 0 <= k < s.len() {
        let rest = split(s.skip(k + 1), sep);
        lemma_split_pieces(s.skip(k + 1), sep);
        assert forall|i: int, j: int|
            0 <= i < split(s, sep).len() && 0 <= j < split(s, sep)[i].len() implies #[trigger] split(
            s,
            sep,
        )[i][j] != sep by {
            if i == 0 {
                assert(split(s, sep)[0] == s.take(k));
                assert(s.take(k)[j] == s[j]);
            } else {
                assert(split(s, sep)[i] == rest[i - 1]);
            }
        }
    } else {
        assert(split(s, sep) == seq![s]);
    }
}

/// What parts that are not empty are joined to begins as the first part
/// and ends as the last.
pub proof fn lemma_join_ends(parts: Seq<Seq<char>>, sep: Seq<char>)
    requires
        parts.len() > 0,
        forall|i: int| 0 <= i < parts.len() ==> (#[trigger] parts[i]).len() > 0,
    ensures
        join(parts, sep).len() > 0,
        join(parts, sep)[0] == parts[0][0],
        join(parts, sep).last() == parts.last().last(),
    decreases parts.len(),
{
    if parts.len() > 1 {
        let init = parts.drop_last();
        assert forall|i: int| 0 <= i < init.len() implies (#[trigger] init[i]).len() > 0 by {
            assert(init[i] == parts[i]);
        }
        lemma_join_ends(init, sep);
        assert(parts.last() == parts[parts.len() - 1]);
        assert(init[0] == parts[0]);
    }
}

/// Searching from `from` on is searching in what stands from `from` on.
pub proof fn lemma_find_skip(s: Seq<char>, pat: Seq<char>, from: int)
    requires
        0 <= from <= s.len(),
    ensures
        find(s.skip(from), pat) == match find_from(s, pat, from) {
            Some(i) => Some(i - from),
            None => None,
        },
{
    let t = s.skip(from);
    assert forall|j: int| 0 <= j implies matches_at(t, pat, j) == matches_at(s, pat, j + from) by {
        if j + pat.len() <= t.len() {
            assert(t.subrange(j, j + pat.len()) =~= s.subrange(j + from, j + from + pat.len()));
        }
    }
    lemma_find_from(s, pat, from);
    match find_from(s, pat, from) {
        Some(i) => {
            assert(matches_at(t, pat, i - from));
            assert forall|j: int| 0 <= j < i - from implies !matches_at(t, pat, j) by {
                assert(!matches_at(s, pat, j + from));
            }
            lemma_find_from_is(t, pat, 0, i - from);
        },
        None => {
            assert forall|j: int| 0 <= j implies !matches_at(t, pat, j) by {
                assert(!matches_at(s, pat, j + from));
            }
            lemma_find_from_none(t, pat, 0);
        },
    }
}

/// Of two texts that differ, one comes before the other.
pub proof fn lemma_lex_total(a: Seq<char>, b: Seq<char>)
    ensures
        lex_less(a, b) || a == b || lex_less(b, a),
    decreases a.len(),
{
    if a.len() == 0 || b.len() == 0 {
        if a.len() == 0 && b.len() == 0 {
            assert(a =~= b);
        }
    } else if a[0] == b[0] {
        lemma_lex_total(a.drop_first(), b.drop_first());
        if a.drop_first() == b.drop_first() {
            assert(a =~= seq![a[0]] + a.drop_first());
            assert(b =~= seq![b[0]] + b.drop_first());
        }
    }
}

/// What comes before a text comes before all that the text comes before.
pub proof fn lemma_lex_transitive(a: Seq<char>, b: Seq<char>, c: Seq<char>)
    requires
        lex_less(a, b),
        lex_less(b, c),
    ensures
        lex_less(a, c),
    decreases a.len(),
{
    if a.len() > 0 && a[0] == b[0] && b[0] == c[0] {
        lemma_lex_transitive(a.drop_first(), b.drop_first(), c.drop_first());
    }
}

/// `join` unfolds at its first part as well as at its last.
pub proof fn lemma_join_first(parts: Seq<Seq<char>>, sep: Seq<char>)
    requires
        parts.len() >= 2,
    ensures
        join(parts, sep) == parts[0] + sep + join(parts.drop_first(), sep),
    decreases parts.len(),
{
    if parts.len() == 2 {
        assert(parts.drop_last() == seq![parts[0]]);
        assert(parts.drop_first() == seq![parts[1]]);
        assert(join(parts.drop_last(), sep) == parts[0]);
        assert(join(parts.drop_first(), sep) == parts[1]);
    } else {
        let init = parts.drop_last();
        lemma_join_first(init, sep);
        assert(init.drop_first() == parts.drop_first().drop_last());
        assert(parts.drop_first().last() == parts.last());
        assert(join(parts, sep) == (parts[0] + sep + join(init.drop_first(), sep)) + sep
            + parts.last());
        assert(join(parts.drop_first(), sep) == join(init.drop_first(), sep) + sep + parts.last());
        assert((parts[0] + sep + join(init.drop_first(), sep)) + sep + parts.last() == parts[0]
            + sep + (join(init.drop_first(), sep) + sep + parts.last()));
    }
}

/// Joining the pieces of a text with the separator gives the text back.
pub proof fn lemma_join_split(s: Seq<char>, sep: char)
    ensures
        join(split(s, sep), seq![sep]) == s,
    decreases s.len(),
{
    lemma_index_of_bounds(s, sep);
    let i = index_of(s, sep);
    if 0 <= i < s.len() {
        let rest = s.skip(i + 1);
        lemma_join_split(rest, sep);
        lemma_split_pieces(rest, sep);
        let parts = split(s, sep);
        assert(parts.drop_first() == split(rest, sep));
        lemma_join_first(parts, seq![sep]);
        assert(s.take(i) + seq![sep] + rest =~= s);
    }
}

/// Splitting what `join` put together gives the parts back, when no part
/// holds the separator.
pub proof fn lemma_split_join(parts: Seq<Seq<char>>, sep: char)
    requires
        parts.len() >= 1,
        forall|i: int, j: int|
            0 <= i < parts.len() && 0 <= j < parts[i].len() ==> #[trigger] parts[i][j] != sep,
    ensures
        split(join(parts, seq![sep]), sep) == parts,
    decreases parts.len(),
{
    let whole = join(parts, seq![sep]);
    if parts.len() == 1 {
        assert(whole == parts[0]);
        lemma_index_of(whole, sep, whole.len() as int);
        assert(parts == seq![parts[0]]);
    } else {
        let rest = parts.drop_first();
        lemma_join_first(parts, seq![sep]);
        let tail = join(rest, seq![sep]);
        assert(whole == parts[0] + seq![sep] + tail);
        let k = parts[0].len() as int;
        assert forall|j: int| 0 <= j < k implies #[trigger] whole[j] != sep by {
            assert(whole[j] == parts[0][j]);
        }
        assert(whole[k] == sep);
        lemma_index_of(whole, sep, k);
        assert(whole.take(k) == parts[0]);
        assert(whole.skip(k + 1) == tail);
        assert forall|i: int, j: int|
            0 <= i < rest.len() && 0 <= j < rest[i].len() implies #[trigger] rest[i][j] != sep by {
            assert(rest[i] == parts[i + 1]);
        }
        lemma_split_join(rest, sep);
        assert(seq![parts[0]] + rest == parts);
    }
}

/// True for the characters that Unicode gives the White_Space property.
pub fn char_is_space(c: char) -> (r: bool)
    ensures
        r == is_space(c),
{
    let n: u32 = c as u32;
    (0x09 <= n && n <= 0x0D) || n == 0x20 || n == 0x85 || n == 0xA0 || n == 0x1680 || (0x2000 <= n
        && n <= 0x200A) || n == 0x2028 || n == 0x2029 || n == 0x202F || n == 0x205F || n == 0x3000
}

/// The characters of `s`, in order.
pub fn chars_of(s: &str) -> (out: Vec<char>)
    ensures
        out@ == s@,
{
    let mut out: Vec<char> = Vec::new();
    for c in it: s.chars()
        invariant
            out@ == it.seq().take(it.index() as int),
            it.seq() == s@,
    {
        out.push(c);
    }
    out
}

/// A copy of the characters of `v` from `from` up to `to`.
pub fn slice(v: &Vec<char>, from: usize, to: usize) -> (out: Vec<char>)
    requires
        from <= to <= v.len(),
    ensures
        out@ == v@.subrange(from as int, to as int),
{
    let mut out: Vec<char> = Vec::new();
    let mut i: usize = from;
    while i < to
        invariant
            from <= i <= to <= v.len(),
            out@ == v@.subrange(from as int, i as int),
        decreases to - i,
    {
        out.push(v[i]);
        i += 1;
    }
    out
}

/// Appends the characters of `src` to `dst`.
pub fn append(dst: &mut Vec<char>, src: &Vec<char>)
    ensures
        final(dst)@ == old(dst)@ + src@,
{
    let mut i: usize = 0;
    while i < src.len()
        invariant
            i <= src.len(),
            dst@ == old(dst)@ + src@.take(i as int),
        decreases src.len() - i,
    {
        dst.push(src[i]);
        i += 1;
    }
    assert(src@.take(src.len() as int) == src@);
}

/// The number of whitespace characters at the start of `v`.
pub fn count_leading_spaces(v: &Vec<char>) -> (k: usize)
    ensures
        k == leading_spaces(v@),
        k <= v.len(),
{
    let mut k: usize = 0;
    while k < v.len() && char_is_space(v[k])
        invariant
            k <= v.len(),
            forall|j: int| 0 <= j < k ==> is_space(#[trigger] v@[j]),
        decreases v.len() - k,
    {
        k += 1;
    }
    proof {
        lemma_leading_spaces(v@, k as int);
    }
    k
}

/// `v` without its leading whitespace.
pub fn trimmed_start(v: &Vec<char>) -> (out: Vec<char>)
    ensures
        out@ == trim_start(v@),
{
    let k = count_leading_spaces(v);
    slice(v, k, v.len())
}

/// `v` without whitespace at either end.
pub fn trimmed(v: &Vec<char>) -> (out: Vec<char>)
    ensures
        out@ == trim(v@),
{
    let from = count_leading_spaces(v);
    let mut to: usize = v.len();
    while to > from && char_is_space(v[to - 1])
        invariant
            from <= to <= v.len(),
            forall|j: int| to <= j < v.len() ==> is_space(#[trigger] v@[j]),
        decreases to,
    {
        to -= 1;
    }
    proof {
        let t = trim_start(v@);
        assert(t == v@.skip(from as int));
        let k = (v.len() - to) as int;
        assert forall|j: int| t.len() - k <= j < t.len() implies is_space(#[trigger] t[j]) by {
            assert(t[j] == v@[j + from]);
        }
        if k < t.len() {
            assert(t[t.len() - k - 1] == v@[to - 1]);
        }
        lemma_trailing_spaces(t, k);
        assert(t.take(t.len() - k) == v@.subrange(from as int, to as int));
    }
    slice(v, from, to)
}

/// `v` without its trailing whitespace.
pub fn trimmed_end(v: &Vec<char>) -> (out: Vec<char>)
    ensures
        out@ == trim_end(v@),
{
    let mut to: usize = v.len();
    while to > 0 && char_is_space(v[to - 1])
        invariant
            to <= v.len(),
            forall|j: int| to <= j < v.len() ==> is_space(#[trigger] v@[j]),
        decreases to,
    {
        to -= 1;
    }
    proof {
        lemma_trailing_spaces(v@, v.len() - to);
    }
    slice(v, 0, to)
}

/// The strings of a list of character vectors.
pub fn strings_of(parts: &Vec<Vec<char>>) -> (out: Vec<String>)
    ensures
        texts(out@) == pieces(parts@),
{
    let mut out: Vec<String> = Vec::new();
    let mut i: usize = 0;
    while i < parts.len()
        invariant
            i <= parts.len(),
            texts(out@) == pieces(parts@).take(i as int),
        decreases parts.len() - i,
    {
        let ghost before = texts(out@);
        out.push(string_of(&parts[i]));
        assert(texts(out@) == before.push(parts@[i as int]@));
        i += 1;
    }
    assert(pieces(parts@).take(parts.len() as int) == pieces(parts@));
    out
}

/// The parts, with `sep` between each two neighbours.
pub fn join_chars(parts: &Vec<Vec<char>>, sep: &Vec<char>) -> (out: Vec<char>)
    ensures
        out@ == join(pieces(parts@), sep@),
{
    let mut out: Vec<char> = Vec::new();
    let mut i: usize = 0;
    while i < parts.len()
        invariant
            i <= parts.len(),
            out@ == join(pieces(parts@).take(i as int), sep@),
        decreases parts.len() - i,
    {
        let ghost before = pieces(parts@).take(i as int);
        let ghost now = pieces(parts@).take(i + 1);
        if i > 0 {
            append(&mut out, sep);
        }
        append(&mut out, &parts[i]);
        proof {
            assert(now.drop_last() == before);
            assert(now.last() == parts@[i as int]@);
            if i == 0 {
                assert(out@ == now[0]);
            }
        }
        i += 1;
    }
    assert(pieces(parts@).take(parts.len() as int) == pieces(parts@));
    out
}

/// True if `pat` stands in `v` at position `i`.
pub fn has_at(v: &Vec<char>, pat: &Vec<char>, i: usize) -> (r: bool)
    ensures
        r == matches_at(v@, pat@, i as int),
{
    if pat.len() > v.len() || i > v.len() - pat.len() {
        return false;
    }
    let mut j: usize = 0;
    while j < pat.len()
        invariant
            j <= pat.len(),
            i + pat.len() <= v.len(),
            forall|k: int| 0 <= k < j ==> v@[i + k] == #[trigger] pat@[k],
        decreases pat.len() - j,
    {
        if v[i + j] != pat[j] {
            proof {
                let sub = v@.subrange(i as int, i + pat.len());
                assert(sub[j as int] == v@[i + j]);
            }
            return false;
        }
        j += 1;
    }
    assert(v@.subrange(i as int, i + pat.len()) =~= pat@);
    true
}

/// The first position at or after `from` at which `pat` stands in `v`.
pub fn find_in_from(v: &Vec<char>, pat: &Vec<char>, from: usize) -> (r: Option<usize>)
    ensures
        match r {
            Some(i) => find_from(v@, pat@, from as int) == Some(i as int) && from <= i && i
                + pat.len() <= v.len(),
            None => find_from(v@, pat@, from as int) is None,
        },
{
    if from > v.len() {
        proof {
            lemma_find_from_none(v@, pat@, from as int);
        }
        return None;
    }
    let mut i: usize = from;
    loop
        invariant
            from <= i <= v.len(),
            forall|j: int| from <= j < i ==> !matches_at(v@, pat@, j),
        decreases v.len() - i,
    {
        if has_at(v, pat, i) {
            proof {
                lemma_find_from_is(v@, pat@, from as int, i as int);
            }
            return Some(i);
        }
        if i == v.len() {
            proof {
                lemma_find_from_none(v@, pat@, from as int);
            }
            return None;
        }
        i += 1;
    }
}

/// The first position at which `pat` stands in `v`.
pub fn find_in(v: &Vec<char>, pat: &Vec<char>) -> (r: Option<usize>)
    ensures
        match r {
            Some(i) => find(v@, pat@) == Some(i as int) && i + pat.len() <= v.len(),
            None => find(v@, pat@) is None,
        },
{
    find_in_from(v, pat, 0)
}

/// The position of the first `c` in `v`, or the length of `v` if there is
/// none.
pub fn position_of(v: &Vec<char>, c: char) -> (r: usize)
    ensures
        r == index_of(v@, c),
        r <= v.len(),
{
    let mut i: usize = 0;
    while i < v.len() && v[i] != c
        invariant
            i <= v.len(),
            forall|j: int| 0 <= j < i ==> #[trigger] v@[j] != c,
        decreases v.len() - i,
    {
        i += 1;
    }
    proof {
        lemma_index_of(v@, c, i as int);
    }
    i
}

/// The pieces of `v` between occurrences of `sep`.
pub fn split_on(v: &Vec<char>, sep: char) -> (out: Vec<Vec<char>>)
    ensures
        pieces(out@) == split(v@, sep),
{
    let mut out: Vec<Vec<char>> = Vec::new();
    let mut start: usize = 0;
    assert(v@.skip(0) == v@);
    assert(pieces(out@) + split(v@, sep) == split(v@, sep));
    loop
        invariant_except_break
            start <= v.len(),
            split(v@, sep) == pieces(out@) + split(v@.skip(start as int), sep),
        ensures
            pieces(out@) == split(v@, sep),
        decreases v.len() - start,
    {
        let mut i: usize = start;
        while i < v.len() && v[i] != sep
            invariant
                start <= i <= v.len(),
                forall|j: int| start <= j < i ==> #[trigger] v@[j] != sep,
            decreases v.len() - i,
        {
            i += 1;
        }
        let ghost rest = v@.skip(start as int);
        proof {
            assert forall|j: int| 0 <= j < i - start implies #[trigger] rest[j] != sep by {
                assert(rest[j] == v@[j + start]);
            }
            lemma_index_of(rest, sep, i - start);
            assert(rest.take(i - start) == v@.subrange(start as int, i as int));
        }
        let piece = slice(v, start, i);
        let ghost before = pieces(out@);
        out.push(piece);
        proof {
            assert(pieces(out@) == before.push(piece@));
        }
        if i == v.len() {
            proof {
                assert(rest.take(rest.len() as int) == rest);
                assert(before + seq![rest] == before.push(rest));
            }
            break;
        }
        proof {
            assert(rest.skip(i - start + 1) == v@.skip(i + 1));
            assert(before + (seq![piece@] + split(v@.skip(i + 1), sep)) == before.push(piece@)
                + split(v@.skip(i + 1), sep));
        }
        start = i + 1;
    }
    out
}

/// `v` with `rep` in place of each `pat`.
pub fn replaced(v: &Vec<char>, pat: &Vec<char>, rep: &Vec<char>) -> (out: Vec<char>)
    ensures
        out@ == replace_all(v@, pat@, rep@),
{
    if pat.len() == 0 {
        return slice(v, 0, v.len());
    }
    let mut out: Vec<char> = Vec::new();
    let mut pos: usize = 0;
    assert(v@.skip(0) == v@);
    loop
        invariant_except_break
            pos <= v.len(),
            pat.len() > 0,
            replace_all(v@, pat@, rep@) == out@ + replace_all(v@.skip(pos as int), pat@, rep@),
        ensures
            out@ == replace_all(v@, pat@, rep@),
        decreases v.len() - pos,
    {
        let ghost rest = v@.skip(pos as int);
        let ghost before = out@;
        proof {
            lemma_find_skip(v@, pat@, pos as int);
        }
        match find_in_from(v, pat, pos) {
            Some(i) => {
                let kept = slice(v, pos, i);
                append(&mut out, &kept);
                append(&mut out, rep);
                proof {
                    assert(rest.take(i - pos) == v@.subrange(pos as int, i as int));
                    assert(rest.skip(i - pos + pat.len()) == v@.skip(i + pat.len()));
                    assert(before + (rest.take(i - pos) + rep@ + replace_all(
                        v@.skip(i + pat.len()),
                        pat@,
                        rep@,
                    )) == out@ + replace_all(v@.skip(i + pat.len()), pat@, rep@));
                }
                pos = i + pat.len();
            },
            None => {
                let kept = slice(v, pos, v.len());
                append(&mut out, &kept);
                break;
            },
        }
    }
    out
}

/// True if `a` comes before `b` in the order of strings.
pub fn comes_before(a: &Vec<char>, b: &Vec<char>) -> (r: bool)
    ensures
        r == lex_less(a@, b@),
{
    let mut i: usize = 0;
    assert(a@.skip(0) == a@ && b@.skip(0) == b@);
    while i < a.len() && i < b.len()
        invariant
            i <= a.len(),
            i <= b.len(),
            lex_less(a@, b@) == lex_less(a@.skip(i as int), b@.skip(i as int)),
        decreases a.len() - i,
    {
        let ghost x = a@.skip(i as int);
        let ghost y = b@.skip(i as int);
        assert(x[0] == a@[i as int] && y[0] == b@[i as int]);
        if a[i] != b[i] {
            return a[i] < b[i];
        }
        assert(x.drop_first() == a@.skip(i + 1));
        assert(y.drop_first() == b@.skip(i + 1));
        i += 1;
    }
    i < b.len()
}

/// True if `v` ends with `pat`.
pub fn has_suffix(v: &Vec<char>, pat: &Vec<char>) -> (r: bool)
    ensures
        r == ends_with(v@, pat@),
{
    if pat.len() > v.len() {
        return false;
    }
    has_at(v, pat, v.len() - pat.len())
}

/// The digit that writes a number below ten.
pub fn digit(n: u64) -> (r: char)
    requires
        n < 10,
    ensures
        r == digit_of(n as nat),
{
    if n == 0 {
        '0'
    } else if n == 1 {
        '1'
    } else if n == 2 {
        '2'
    } else if n == 3 {
        '3'
    } else if n == 4 {
        '4'
    } else if n == 5 {
        '5'
    } else if n == 6 {
        '6'
    } else if n == 7 {
        '7'
    } else if n == 8 {
        '8'
    } else {
        '9'
    }
}

/// A number written in base ten.
pub fn number_text(n: u64) -> (r: Vec<char>)
    ensures
        r@ == digits_of(n as nat),
    decreases n,
{
    if n < 10 {
        let mut out: Vec<char> = Vec::new();
        out.push(digit(n));
        out
    } else {
        let mut out = number_text(n / 10);
        out.push(digit(n % 10));
        out
    }
}

/// The texts that a list of character vectors stands for.
pub open spec fn pieces(v: Seq<Vec<char>>) -> Seq<Seq<char>> {
    v.map_values(|p: Vec<char>| p@)
}

/// The texts that a list of strings stands for.
pub open spec fn texts(v: Seq<String>) -> Seq<Seq<char>> {
    v.map_values(|s: String| s@)
}

/// Builds the string that holds the characters of `v`, by `String::from_iter`,
/// which collects the characters it is given in their order.
#[verifier::external_body]
pub(crate) fn string_of(v: &Vec<char>) -> (s: String)
    ensures
        s@ == v@,
{
    String::from_iter(v)
}

/// The parts, with `sep` between each two neighbours.
pub fn join_strings(parts: &Vec<String>, sep: &Vec<char>) -> (out: Vec<char>)
    ensures
        out@ == join(texts(parts@), sep@),
{
    let mut out: Vec<char> = Vec::new();
    let mut i: usize = 0;
    while i < parts.len()
        invariant
            i <= parts.len(),
            out@ == join(texts(parts@).take(i as int), sep@),
        decreases parts.len() - i,
    {
        let ghost before = texts(parts@).take(i as int);
        let ghost now = texts(parts@).take(i + 1);
        if i > 0 {
            append(&mut out, sep);
        }
        let part = chars_of(parts[i].as_str());
        append(&mut out, &part);
        proof {
            assert(now.drop_last() == before);
            assert(now.last() == parts@[i as int]@);
            if i == 0 {
                assert(out@ == now[0]);
            }
        }
        i += 1;
    }
    assert(texts(parts@).take(parts.len() as int) == texts(parts@));
    out
}

} // verus!
