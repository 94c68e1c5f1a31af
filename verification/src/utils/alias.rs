//! Command aliases: which names are free, and how the command line of an
//! alias falls into arguments.

use crate::paths;
use crate::text;
use vstd::prelude::*;

verus! {

/// The command line of an alias cannot be split.
#[derive(Debug, PartialEq, Eq, Structural)]
pub enum AliasError {
    /// A quote is opened and not closed.
    UnclosedQuote,
}

/// True for the words that no alias may take: the names of commands.
pub open spec fn is_reserved(word: Seq<char>) -> bool {
    word == "dialy"@ || word == "last"@ || word == "tag"@ || word == "retag"@ || word == "redir"@
        || word == "cache"@ || word == "tasks"@ || word == "alias"@
}

/// Where the splitter stands in a command line.
pub struct SplitState {
    /// The arguments that are complete.
    pub args: Seq<Seq<char>>,
    /// The argument that is being read.
    pub current: Seq<char>,
    /// Inside single quotes.
    pub in_single: bool,
    /// Inside double quotes.
    pub in_double: bool,
}

/// The state before the first character.
pub open spec fn start() -> SplitState {
    SplitState { args: Seq::empty(), current: Seq::empty(), in_single: false, in_double: false }
}

/// The state with the argument that is being read closed, if it is not
/// empty.
pub open spec fn closed(st: SplitState) -> SplitState {
    if st.current.len() > 0 {
        SplitState { args: st.args.push(st.current), current: Seq::empty(), ..st }
    } else {
        st
    }
}

/// The state after the characters of `s` from `i` on. A single quote
/// outside double quotes, and a double quote outside single quotes, opens or
/// closes a quoted stretch and is dropped. A backslash outside single
/// quotes is dropped, and the character after it is taken as it is.
/// Whitespace outside quotes ends an argument. Any other character belongs
/// to the argument.
pub open spec fn scan(s: Seq<char>, i: int, st: SplitState) -> SplitState
    decreases s.len() - i,
{
    if i < 0 || i >= s.len() {
        st
    } else {
        let c = s[i];
        if c == '\'' && !st.in_double {
            scan(s, i + 1, SplitState { in_single: !st.in_single, ..st })
        } else if c == '"' && !st.in_single {
            scan(s, i + 1, SplitState { in_double: !st.in_double, ..st })
        } else if c == '\\' && !st.in_single {
            if i + 1 < s.len() {
                scan(s, i + 2, SplitState { current: st.current.push(s[i + 1]), ..st })
            } else {
                scan(s, i + 1, st)
            }
        } else if text::is_space(c) && !st.in_single && !st.in_double {
            scan(s, i + 1, closed(st))
        } else {
            scan(s, i + 1, SplitState { current: st.current.push(c), ..st })
        }
    }
}

/// The arguments of a command line; `None` if a quote stays open.
pub open spec fn arguments(s: Seq<char>) -> Option<Seq<Seq<char>>> {
    let end = scan(s, 0, start());
    if end.in_single || end.in_double {
        None
    } else {
        Some(closed(end).args)
    }
}

/// True if `word` is one of the words that no alias may take.
pub fn is_reserved_word(word: &str) -> (r: bool)
    ensures
        r == is_reserved(word@),
{
    let w = word.to_owned();
    paths::text_is(&w, "dialy") || paths::text_is(&w, "last") || paths::text_is(&w, "tag")
        || paths::text_is(&w, "retag") || paths::text_is(&w, "redir") || paths::text_is(
        &w,
        "cache",
    ) || paths::text_is(&w, "tasks") || paths::text_is(&w, "alias")
}

/// Splits the command line of an alias into its arguments, as a shell
/// would: quotes keep whitespace inside an argument, a backslash takes the
/// next character as it is. Fails if a quote stays open.
pub fn split_command_line(input: &str) -> (r: Result<Vec<String>, AliasError>)
    ensures
        match arguments(input@) {
            Some(args) => r matches Ok(v) && text::texts(v@) == args,
            None => r matches Err(AliasError::UnclosedQuote),
        },
{
    let chars = text::chars_of(input);
    let mut args: Vec<String> = Vec::new();
    let mut current: Vec<char> = Vec::new();
    let mut in_single = false;
    let mut in_double = false;
    let mut i: usize = 0;
    assert(text::texts(args@) =~= Seq::<Seq<char>>::empty());
    while i < chars.len()
        invariant
            i <= chars.len(),
            scan(chars@, 0, start()) == scan(
                chars@,
                i as int,
                SplitState { args: text::texts(args@), current: current@, in_single, in_double },
            ),
        decreases chars.len() - i,
    {
        let c = chars[i];
        let ghost before = text::texts(args@);
        if c == '\'' && !in_double {
            in_single = !in_single;
            i += 1;
        } else if c == '"' && !in_single {
            in_double = !in_double;
            i += 1;
        } else if c == '\\' && !in_single {
            if i + 1 < chars.len() {
                current.push(chars[i + 1]);
                i += 2;
            } else {
                i += 1;
            }
        } else if text::char_is_space(c) && !in_single && !in_double {
            if current.len() > 0 {
                args.push(text::string_of(&current));
                assert(text::texts(args@) == before.push(current@));
                current = Vec::new();
            }
            i += 1;
        } else {
            current.push(c);
            i += 1;
        }
    }
    if in_single || in_double {
        return Err(AliasError::UnclosedQuote);
    }
    if current.len() > 0 {
        let ghost before = text::texts(args@);
        args.push(text::string_of(&current));
        assert(text::texts(args@) == before.push(current@));
    }
    Ok(args)
}

} // verus!
