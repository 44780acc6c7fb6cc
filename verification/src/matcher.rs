//! The pattern matcher behind the extractor and the rewrite engine.

use vstd::prelude::*;

use crate::text::on_boundaries;

verus! {

/// The byte offsets at which one capture group matched: where it starts and
/// where it ends.
pub type Span = (usize, usize);

/// What the regular expression `pattern` finds in `haystack`: `None` where
/// the pattern is not accepted; else one row for each match, from left to
/// right and without overlap, and in each row the span of each of the first
/// `groups` capture groups, group 0 being the whole match and `None` standing
/// for a group that took no part in the match. The matcher is the `regex`
/// crate; nothing is said here of what a given pattern matches.
pub uninterp spec fn captures_of(pattern: Seq<char>, haystack: Seq<char>, groups: nat) -> Option<
    Seq<Seq<Option<Span>>>,
>;

/// The rows of spans that a list of matches holds.
pub open spec fn rows_of(found: Seq<Vec<Option<Span>>>) -> Seq<Seq<Option<Span>>> {
    Seq::new(found.len(), |i: int| found[i]@)
}

/// What holds of every row of matches in `haystack`: it has one entry for
/// each of the `groups` groups, the whole match is present, and every span
/// delimits whole characters of the haystack.
pub open spec fn well_formed_row(haystack: Seq<char>, groups: nat, row: Seq<Option<Span>>) -> bool {
    &&& row.len() == groups
    &&& groups > 0 ==> row[0] is Some
    &&& forall|g: int|
        0 <= g < row.len() ==> (#[trigger] row[g] matches Some(span) ==> on_boundaries(
            haystack,
            span.0 as int,
            span.1 as int,
        ))
}

/// Compiles `pattern` with `regex::Regex::new` and walks `haystack` with
/// `Regex::captures_iter`, reading each group with `Captures::get` and its
/// offsets with `Match::start` and `Match::end`.
///
/// Verus takes on trust what is said of the result. It is `None` where the
/// pattern does not compile. Otherwise it is the list of matches named by
/// [`captures_of`]: the same pattern and haystack always give the same
/// matches. Each row has `groups` entries, group 0 is always present, and
/// the offsets of a match are ordered, lie within the haystack and fall on
/// character boundaries.
#[verifier::external_body]
pub(crate) fn captures(pattern: &str, haystack: &str, groups: usize) -> (found: Option<
    Vec<Vec<Option<Span>>>,
>)
    ensures
        match found {
            Some(all) => captures_of(pattern@, haystack@, groups as nat) == Some(rows_of(all@)),
            None => captures_of(pattern@, haystack@, groups as nat) is None,
        },
        found matches Some(all) ==> forall|i: int|
            0 <= i < all.len() ==> well_formed_row(haystack@, groups as nat, #[trigger] all[i]@),
{
    let re = regex::Regex::new(pattern).ok()?;
    Some(
        re.captures_iter(haystack).map(
            |caps| (0..groups).map(|g| caps.get(g).map(|m| (m.start(), m.end()))).collect(),
        ).collect(),
    )
}

/// The characters that mean something in a pattern.
pub open spec fn is_meta_character(c: char) -> bool {
    ||| c == '\\'
    ||| c == '.'
    ||| c == '+'
    ||| c == '*'
    ||| c == '?'
    ||| c == '('
    ||| c == ')'
    ||| c == '|'
    ||| c == '['
    ||| c == ']'
    ||| c == '{'
    ||| c == '}'
    ||| c == '^'
    ||| c == '$'
    ||| c == '#'
    ||| c == '&'
    ||| c == '-'
    ||| c == '~'
}

/// `text` as a pattern that matches `text` itself: a backslash stands before
/// every character that means something in a pattern.
pub open spec fn escaped(text: Seq<char>) -> Seq<char>
    decreases text.len(),
{
    if text.len() == 0 {
        Seq::empty()
    } else if is_meta_character(text.last()) {
        escaped(text.drop_last()) + seq!['\\', text.last()]
    } else {
        escaped(text.drop_last()).push(text.last())
    }
}

/// Calls `regex::escape`, which copies `text` and puts a backslash before
/// each of the eighteen meta characters of the pattern syntax. Verus takes
/// on trust that the result is [`escaped`].
#[verifier::external_body]
pub(crate) fn escape(text: &str) -> (out: String)
    ensures
        out@ == escaped(text@),
{
    regex::escape(text)
}

} // verus!
