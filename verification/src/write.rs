//! The rewrite engine: decides whether the generated region of a file is up
//! to date, and replaces or appends it where it is not.

use vstd::prelude::*;
use vstd::string::StringExecFns;
use vstd::utf8::encode_utf8;

use crate::codegen::{generate, generated};
use crate::fingerprint::{fingerprint, fingerprint_of, hex, lemma_hex_unique, push_hex};
use crate::matcher::{captures, captures_of, escape, escaped, rows_of, well_formed_row, Span};
use crate::parser::{parse, parsed, Declarations, ParseError, ParseFailure, Parsed};
use crate::string_utils::{
    column_of, lemma_places_in_order, line_of, not_behind, Position, StringPositions,
};
use crate::text::{
    byte_slice, contains_bytes, lemma_encode_concat, lemma_ends_are_boundaries, occurs, occurs_at,
    on_boundaries, slice,
};

verus! {

/// The names of the files that write mode looks into: those that end in
/// `.ts` or `.tsx`, in either case of each letter.
pub const TYPESCRIPT_FILE_PATTERN: &'static str = r"\.[Tt][Ss][Xx]?$";

/// Whether a file of this name is a TypeScript source. No name is one where
/// the matcher does not accept the pattern.
pub open spec fn is_typescript_name(name: Seq<char>) -> bool {
    captures_of(TYPESCRIPT_FILE_PATTERN@, name, 1) matches Some(rows) && rows.len() > 0
}

/// Whether write mode looks into a file of this name.
pub fn is_typescript_file(name: &str) -> (yes: bool)
    ensures
        yes == is_typescript_name(name@),
{
    match captures(TYPESCRIPT_FILE_PATTERN, name, 1) {
        Some(rows) => rows.len() > 0,
        None => false,
    }
}

/// How the header of a generated region starts, up to the fingerprint.
pub const PREFIX_PRE_HASH: &'static str = "\n//#region enum-ts generated <";

/// How the header of a generated region ends, behind the fingerprint.
pub const PREFIX_POST_HASH: &'static str = ">\n";

/// The footer of a generated region.
pub const SUFFIX: &'static str = "\n//#endregion";

/// What stands for the fingerprint in the pattern of a region: any run of
/// word characters, also an empty one.
pub const ANY_HASH: &'static str = r"(?P<hash>\w*)";

/// What stands for the generated code in the pattern of a region: as little
/// of anything as will do.
pub const ANY_CODE: &'static str = r"[\s\S]*?";

/// The header of the region that holds the code for `fingerprint`.
pub open spec fn header(fingerprint: u64) -> Seq<char> {
    PREFIX_PRE_HASH@ + hex(fingerprint as nat) + PREFIX_POST_HASH@
}

/// The generated region of a file with the declarations `found`: header,
/// code and footer.
pub open spec fn region(found: Declarations) -> Seq<char> {
    header(fingerprint_of(found)) + generated(found) + SUFFIX@
}

/// The pattern of a generated region, whatever its fingerprint and code.
pub open spec fn region_pattern() -> Seq<char> {
    escaped(PREFIX_PRE_HASH@) + ANY_HASH@ + escaped(PREFIX_POST_HASH@) + ANY_CODE@ + escaped(
        SUFFIX@,
    )
}

/// The bytes of `text` that a new region takes the place of, given the
/// matches of the region pattern in the text: the first region, or nothing
/// at the end of the text.
pub open spec fn bounds_among(text: Seq<char>, rows: Seq<Seq<Option<Span>>>) -> (int, int) {
    let end = encode_utf8(text).len() as int;
    if rows.len() == 0 {
        (end, end)
    } else {
        match rows[0][0] {
            Some((first, last)) => (first as int, last as int),
            None => (end, end),
        }
    }
}

/// Whether `text` holds the header of the region for the declarations
/// `found`.
pub open spec fn up_to_date(text: Seq<char>, found: Declarations) -> bool {
    occurs(encode_utf8(header(fingerprint_of(found))), encode_utf8(text))
}

/// The region that is due in `text`, which declares `found`: none where
/// nothing is declared, and none where the text holds the header for what it
/// declares and no rewrite is forced.
pub open spec fn region_due(text: Seq<char>, found: Declarations, force: bool) -> Option<
    Seq<char>,
> {
    if found.enums.len() == 0 {
        None
    } else if !force && up_to_date(text, found) {
        None
    } else {
        Some(region(found))
    }
}

/// What is to be done to `text`: nothing, where no region is due; else the
/// byte range to replace and the region to put there.
pub open spec fn edit_of(text: Seq<char>, force: bool) -> Result<
    Option<(int, int, Seq<char>)>,
    ParseFailure,
> {
    match parsed(text) {
        Err(failure) => Err(failure),
        Ok(found) => match region_due(text, found, force) {
            None => Ok(None),
            Some(put) => match captures_of(region_pattern(), text, 1) {
                None => Err(ParseFailure::Pattern),
                Some(rows) => Ok(
                    Some((bounds_among(text, rows).0, bounds_among(text, rows).1, put)),
                ),
            },
        },
    }
}

/// `text` with the bytes from `start` to `end` replaced by `put`.
pub open spec fn spliced(text: Seq<char>, start: int, end: int, put: Seq<char>) -> Seq<char> {
    byte_slice(text, 0, start) + put + byte_slice(text, end, encode_utf8(text).len() as int)
}

/// The new text of a file, or `None` where the file is to be left as it is.
pub open spec fn rewritten(text: Seq<char>, force: bool) -> Result<Option<Seq<char>>, ParseFailure> {
    match edit_of(text, force) {
        Err(failure) => Err(failure),
        Ok(None) => Ok(None),
        Ok(Some((start, end, put))) => Ok(Some(spliced(text, start, end, put))),
    }
}

/// The header of the region for `fingerprint`.
fn header_for(fingerprint: u64) -> (out: String)
    ensures
        out@ == header(fingerprint),
{
    let mut out = String::from_str(PREFIX_PRE_HASH);
    push_hex(&mut out, fingerprint);
    out.append(PREFIX_POST_HASH);
    out
}

/// The pattern of a generated region, whatever its fingerprint and code.
pub fn region_pattern_text() -> (pattern: String)
    ensures
        pattern@ == region_pattern(),
{
    let mut pattern = escape(PREFIX_PRE_HASH);
    pattern.append(ANY_HASH);
    pattern.append(escape(PREFIX_POST_HASH).as_str());
    pattern.append(ANY_CODE);
    pattern.append(escape(SUFFIX).as_str());
    pattern
}

/// Picks the bytes that a new region takes the place of from the matches
/// of the region pattern in `contents`.
pub fn region_bounds(contents: &str, rows: &Vec<Vec<Option<Span>>>) -> (bounds: (usize, usize))
    requires
        forall|i: int| 0 <= i < rows.len() ==> well_formed_row(contents@, 1, #[trigger] rows[i]@),
    ensures
        bounds_among(contents@, rows_of(rows@)) == (bounds.0 as int, bounds.1 as int),
        on_boundaries(contents@, bounds.0 as int, bounds.1 as int),
{
    if rows.len() > 0 {
        if let Some(span) = rows[0][0] {
            return span;
        }
    }
    proof {
        lemma_ends_are_boundaries(contents@);
    }
    let end: usize = contents.as_bytes().len();
    (end, end)
}

/// Makes the region that is due in `contents`, which declares `found`, or
/// tells that none is.
pub fn make_region(contents: &str, found: Parsed, force: bool) -> (put: Option<String>)
    ensures
        match put {
            Some(text) => region_due(contents@, found@, force) == Some(text@),
            None => region_due(contents@, found@, force) is None,
        },
{
    if found.enums.len() == 0 {
        return None;
    }
    let prefix = header_for(fingerprint(&found));
    if !force && contains_bytes(contents.as_bytes(), prefix.as_str().as_bytes()) {
        return None;
    }
    let mut to_write = prefix;
    to_write.append(generate(found).as_str());
    to_write.append(SUFFIX);
    Some(to_write)
}

/// Decides what is to be done to `contents`: the byte offsets between which
/// it changes and the region that goes there, or `None` where it stays as it
/// is.
pub fn make_edit_offsets(contents: &str, force: bool) -> (edit: Result<
    Option<(usize, usize, String)>,
    ParseError,
>)
    ensures
        match edit {
            Ok(Some((start, end, put))) => {
                &&& edit_of(contents@, force) matches Ok(Some(model))
                &&& model == (start as int, end as int, put@)
                &&& on_boundaries(contents@, start as int, end as int)
            },
            Ok(None) => edit_of(contents@, force) matches Ok(None),
            Err(error) => edit_of(contents@, force) matches Err(failure) && failure == error@,
        },
{
    let found = match parse(contents) {
        Err(error) => {
            return Err(error);
        },
        Ok(found) => found,
    };
    let to_write = match make_region(contents, found, force) {
        None => {
            return Ok(None);
        },
        Some(to_write) => to_write,
    };
    let pattern = region_pattern_text();
    match captures(pattern.as_str(), contents, 1) {
        None => Err(ParseError::Pattern),
        Some(rows) => {
            let (start, end) = region_bounds(contents, &rows);
            Ok(Some((start, end, to_write)))
        },
    }
}

/// Whether `place` is the line and column of the byte at `offset` in `text`.
pub open spec fn is_place(text: Seq<char>, offset: int, place: Position) -> bool {
    &&& place.line == line_of(encode_utf8(text), offset)
    &&& place.col == column_of(encode_utf8(text), offset)
}

/// Decides what is to be done to `contents`, for an editor that applies the
/// change itself: the places between which the text changes, in lines and
/// columns, and the region that goes there. The first place is never behind
/// the second.
pub fn make_edit(contents: &str, force: bool) -> (edit: Result<
    Option<(Position, Position, String)>,
    ParseError,
>)
    requires
        encode_utf8(contents@).len() < usize::MAX,
    ensures
        match edit {
            Ok(Some((from, to, put))) => {
                &&& edit_of(contents@, force) matches Ok(Some((start, end, text)))
                &&& text == put@
                &&& on_boundaries(contents@, start, end)
                &&& is_place(contents@, start, from)
                &&& is_place(contents@, end, to)
                &&& not_behind(from, to)
            },
            Ok(None) => edit_of(contents@, force) matches Ok(None),
            Err(error) => edit_of(contents@, force) matches Err(failure) && failure == error@,
        },
{
    match make_edit_offsets(contents, force) {
        Err(error) => Err(error),
        Ok(None) => Ok(None),
        Ok(Some((start_offset, end_offset, to_insert))) => {
            let str_pos = StringPositions::new(contents);
            let from = str_pos.position(start_offset);
            let to = str_pos.position(end_offset);
            proof {
                lemma_places_in_order(
                    encode_utf8(contents@),
                    start_offset as int,
                    end_offset as int,
                );
            }
            Ok(Some((from, to, to_insert)))
        },
    }
}

/// Copies `contents` with the bytes from `start` to `end` replaced by `put`.
pub fn splice(contents: &str, start: usize, end: usize, put: &str) -> (out: String)
    requires
        on_boundaries(contents@, start as int, end as int),
    ensures
        out@ == spliced(contents@, start as int, end as int, put@),
{
    proof {
        lemma_ends_are_boundaries(contents@);
    }
    let before = slice(contents, 0, start);
    let after = slice(contents, end, contents.as_bytes().len());
    let mut out = String::from_str(before);
    out.append(put);
    out.append(after);
    out
}

/// Brings the generated region of `contents` up to date. The result is the
/// whole new text, or `None` where nothing changes: where the text declares
/// no enum, or where it holds the header for its declarations already and
/// `force` is not set.
pub fn rewrite(contents: &str, force: bool) -> (out: Result<Option<String>, ParseError>)
    ensures
        match out {
            Ok(Some(text)) => rewritten(contents@, force) matches Ok(Some(model)) && model == text@,
            Ok(None) => rewritten(contents@, force) matches Ok(None),
            Err(error) => rewritten(contents@, force) matches Err(failure) && failure == error@,
        },
{
    match make_edit_offsets(contents, force) {
        Err(error) => Err(error),
        Ok(None) => Ok(None),
        Ok(Some((start_offset, end_offset, content))) => {
            Ok(Some(splice(contents, start_offset, end_offset, content.as_str())))
        },
    }
}

/// The header of a region tells the fingerprint: two headers are the same
/// only for the same fingerprint. So the region that is written for a file
/// opens differently whenever the hash of what the file declares differs.
pub proof fn lemma_header_tells_fingerprint(a: u64, b: u64)
    requires
        header(a) == header(b),
    ensures
        a == b,
{
    let first = hex(a as nat);
    let second = hex(b as nat);
    let left = PREFIX_PRE_HASH@ + first + PREFIX_POST_HASH@;
    let right = PREFIX_PRE_HASH@ + second + PREFIX_POST_HASH@;
    assert(left.len() == right.len());
    assert(first =~= left.subrange(
        PREFIX_PRE_HASH@.len() as int,
        PREFIX_PRE_HASH@.len() as int + first.len(),
    ));
    assert(second =~= right.subrange(
        PREFIX_PRE_HASH@.len() as int,
        PREFIX_PRE_HASH@.len() as int + second.len(),
    ));
    lemma_hex_unique(a as nat, b as nat);
}

/// The text of a file after a run that forces nothing: the new text where
/// the run changes the file, else the text as it was.
pub open spec fn after_run(text: Seq<char>) -> Seq<char> {
    match rewritten(text, false) {
        Ok(Some(out)) => out,
        _ => text,
    }
}

/// A text that holds what is put into it holds every part of it.
proof fn lemma_spliced_holds(text: Seq<char>, start: int, end: int, head: Seq<char>, rest: Seq<char>)
    ensures
        occurs(encode_utf8(head), encode_utf8(spliced(text, start, end, head + rest))),
{
    let before = byte_slice(text, 0, start);
    let after = byte_slice(text, end, encode_utf8(text).len() as int);
    let out = spliced(text, start, end, head + rest);
    assert(out =~= (before + head) + (rest + after));
    lemma_encode_concat(before + head, rest + after);
    lemma_encode_concat(before, head);
    let at = encode_utf8(before).len() as int;
    assert(encode_utf8(out).subrange(at, at + encode_utf8(head).len()) =~= encode_utf8(head));
    assert(occurs_at(encode_utf8(head), encode_utf8(out), at));
}

/// A file that holds the header for what it declares is left as it is by a
/// run that forces nothing.
pub proof fn lemma_up_to_date_is_kept(text: Seq<char>)
    requires
        parsed(text) matches Ok(found) && up_to_date(text, found),
    ensures
        rewritten(text, false) matches Ok(None),
{
}

/// Whether what a run writes for `text` is read as `text` itself was: where
/// the new text declares anything, its fingerprint is that of `text`.
pub open spec fn reads_alike(text: Seq<char>) -> bool {
    rewritten(text, false) matches Ok(Some(out)) ==> (parsed(out) matches Ok(again) ==> (
    again.enums.len() == 0 || fingerprint_of(again) == fingerprint_of(parsed(text)->Ok_0)))
}

/// Running twice comes to the same as running once: a second run changes
/// nothing. This holds of every text whose new text is read as the text
/// itself was. What is left out are the texts in which the new region is
/// read otherwise: it takes the place of a declaration that stood in the
/// region before it, or something in it is itself read as a declaration.
pub proof fn lemma_rewrite_idempotent(text: Seq<char>)
    requires
        reads_alike(text),
    ensures
        after_run(after_run(text)) == after_run(text),
{
    match rewritten(text, false) {
        Ok(Some(out)) => {
            let found = parsed(text)->Ok_0;
            let (start, end) = bounds_among(text, captures_of(region_pattern(), text, 1)->0);
            assert(out == spliced(text, start, end, region(found)));
            match parsed(out) {
                Ok(again) => {
                    if again.enums.len() > 0 {
                        let head = header(fingerprint_of(found));
                        let rest = generated(found) + SUFFIX@;
                        assert(region(found) =~= head + rest);
                        lemma_spliced_holds(text, start, end, head, rest);
                        assert(up_to_date(out, again));
                    }
                },
                Err(_) => {},
            }
        },
        _ => {},
    }
}

} // verus!
