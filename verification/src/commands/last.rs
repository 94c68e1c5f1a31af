//! The notes that were edited last: how long ago a note was edited.

use crate::text;
use vstd::prelude::*;

verus! {

/// How long ago something happened, in words: `seconds` is the time that
/// has passed. Less than a minute is a few seconds; then whole minutes up to
/// an hour, whole hours up to a day, whole days up to a week; after that the
/// moment itself, as `stamp` writes it.
pub open spec fn ago(seconds: int, stamp: Seq<char>) -> Seq<char> {
    if seconds < 60 {
        "hace unos segundos"@
    } else if seconds < 3600 {
        "hace "@ + text::digits_of((seconds / 60) as nat) + " min"@
    } else if seconds < 86400 {
        "hace "@ + text::digits_of((seconds / 3600) as nat) + " horas"@
    } else if seconds < 604800 {
        "hace "@ + text::digits_of((seconds / 86400) as nat) + " días"@
    } else {
        stamp
    }
}

/// How long ago something happened, in words.
pub fn format_time(seconds: i64, stamp: &str) -> (r: String)
    ensures
        r@ == ago(seconds as int, stamp@),
{
    if seconds < 60 {
        "hace unos segundos".to_owned()
    } else if seconds < 604800 {
        let (count, unit): (u64, &str) = if seconds < 3600 {
            ((seconds / 60) as u64, " min")
        } else if seconds < 86400 {
            ((seconds / 3600) as u64, " horas")
        } else {
            ((seconds / 86400) as u64, " días")
        };
        let mut out = text::chars_of("hace ");
        text::append(&mut out, &text::number_text(count));
        text::append(&mut out, &text::chars_of(unit));
        assert(out@ =~= ago(seconds as int, stamp@));
        text::string_of(&out)
    } else {
        stamp.to_owned()
    }
}

} // verus!
