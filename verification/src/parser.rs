//! The extractor: recovers enum declarations from free-form source text.

use vstd::prelude::*;
use vstd::string::StringExecFns;

use crate::matcher::{captures, captures_of, rows_of, well_formed_row, Span};
use crate::text::{
    byte_slice, lines, on_boundaries, slice, split_lines, string_of, texts, to_chars,
};

verus! {

/// A declaration: `[export] type Name[<Generics>] = Enum<{ Body }>`, found
/// at the start of a line, its body running up to the first line that opens
/// with `}>`. Its groups are the export keyword, the name, the generics and
/// the body.
pub const DECLARATION_PATTERN: &'static str =
    r"\n(?P<export>export\s+)?type[\s]+(?P<name>\w+)(?:<(?P<generics>[\w\s,]+)>)?\s*=\s*Enum<\{(?P<variants>[\s\S]+?)\n\}>";

/// The indentation of the first line of a body: the tabs and spaces that
/// follow the line break with which the body opens.
pub const INDENT_PATTERN: &'static str = r"^\n([\t ]+)";

/// A variant of an unindented body: `Tag: contents` at the start of a line.
/// The contents end at a line break, a comma or a semicolon, unless indented
/// lines follow: then they run up to the next line that opens with a closing
/// bracket. Its groups are the tag and the contents.
pub const VARIANT_PATTERN: &'static str =
    r"\n(?P<name>\w+):\s*(?P<contents>[^\n;,]+(?:\n[ \t]+[\s\S]+?\n[\]\}>]+)?)";

/// The number of groups of [`DECLARATION_PATTERN`], the whole match counted.
pub const DECLARATION_GROUPS: usize = 5;

/// The group of [`DECLARATION_PATTERN`] that holds the export keyword.
pub const EXPORT_GROUP: usize = 1;

/// The group of [`DECLARATION_PATTERN`] that holds the name.
pub const NAME_GROUP: usize = 2;

/// The group of [`DECLARATION_PATTERN`] that holds the generics.
pub const GENERICS_GROUP: usize = 3;

/// The group of [`DECLARATION_PATTERN`] that holds the body.
pub const BODY_GROUP: usize = 4;

/// The number of groups of [`INDENT_PATTERN`], the whole match counted.
pub const INDENT_GROUPS: usize = 2;

/// The group of [`INDENT_PATTERN`] that holds the indentation.
pub const UNIT_GROUP: usize = 1;

/// The number of groups of [`VARIANT_PATTERN`], the whole match counted.
pub const VARIANT_GROUPS: usize = 3;

/// The group of [`VARIANT_PATTERN`] that holds the tag.
pub const TAG_GROUP: usize = 1;

/// The group of [`VARIANT_PATTERN`] that holds the contents.
pub const CONTENTS_GROUP: usize = 2;

/// One `Enum<{ .. }>` declaration as it is written in a source file.
#[derive(Debug, Hash)]
pub struct TSEnum {
    /// The declared type name.
    pub name: String,
    /// The generic parameters without their angle brackets, if any.
    pub generics: Option<String>,
    /// Tag and contents type of each variant, in declaration order.
    pub variants: Vec<(String, String)>,
    /// Whether the declaration is exported.
    pub export: bool,
}

/// Everything the extractor found in one file.
#[derive(Debug, Hash)]
pub struct Parsed {
    /// The declarations, in file order.
    pub enums: Vec<TSEnum>,
    /// The whitespace that makes one level of indentation in the file.
    pub indent: String,
}

/// The mathematical content of a [`TSEnum`].
pub struct Declaration {
    pub name: Seq<char>,
    pub generics: Option<Seq<char>>,
    pub variants: Seq<(Seq<char>, Seq<char>)>,
    pub export: bool,
}

/// The mathematical content of a [`Parsed`].
pub struct Declarations {
    pub enums: Seq<Declaration>,
    pub indent: Seq<char>,
}

/// The character sequences of a list of tag and contents pairs.
pub open spec fn variants_view(variants: Seq<(String, String)>) -> Seq<(Seq<char>, Seq<char>)> {
    Seq::new(variants.len(), |i: int| (variants[i].0@, variants[i].1@))
}

impl View for TSEnum {
    type V = Declaration;

    open spec fn view(&self) -> Declaration {
        Declaration {
            name: self.name@,
            generics: match self.generics {
                Some(g) => Some(g@),
                None => None,
            },
            variants: variants_view(self.variants@),
            export: self.export,
        }
    }
}

impl View for Parsed {
    type V = Declarations;

    open spec fn view(&self) -> Declarations {
        Declarations {
            enums: Seq::new(self.enums.len() as nat, |i: int| self.enums[i]@),
            indent: self.indent@,
        }
    }
}

/// Why a source text cannot be read.
#[derive(Debug)]
pub enum ParseError {
    /// The matcher did not accept one of the patterns of the grammar.
    Pattern,
    /// The body of a declaration does not open with a line break and an
    /// indented first line.
    NoIndent,
    /// A line of a body does not start with the indentation of the first one.
    IrregularIndent { line: String },
}

/// The mathematical content of a [`ParseError`].
pub enum ParseFailure {
    Pattern,
    NoIndent,
    IrregularIndent { line: Seq<char> },
}

impl View for ParseError {
    type V = ParseFailure;

    open spec fn view(&self) -> ParseFailure {
        match *self {
            ParseError::Pattern => ParseFailure::Pattern,
            ParseError::NoIndent => ParseFailure::NoIndent,
            ParseError::IrregularIndent { line } => ParseFailure::IrregularIndent { line: line@ },
        }
    }
}

/// The text of an error, as it is shown to the user.
pub open spec fn failure_message(failure: ParseFailure) -> Seq<char> {
    match failure {
        ParseFailure::Pattern => "the pattern matcher rejected a pattern"@,
        ParseFailure::NoIndent => "at least one variant + indented"@,
        ParseFailure::IrregularIndent { line } => "line indentation is irregular:>>>"@ + line
            + "<<<"@,
    }
}

impl ParseError {
    /// Describes the error; an irregular line is quoted in full.
    pub fn message(&self) -> (text: String)
        ensures
            text@ == failure_message(self@),
    {
        match self {
            ParseError::Pattern => String::from_str("the pattern matcher rejected a pattern"),
            ParseError::NoIndent => String::from_str("at least one variant + indented"),
            ParseError::IrregularIndent { line } => {
                let mut text = String::from_str("line indentation is irregular:>>>");
                text.append(line.as_str());
                text.append("<<<");
                text
            },
        }
    }
}

/// Whether a line of a body can be unindented by `unit`: it is empty or
/// starts with the unit.
pub open spec fn regular(line: Seq<char>, unit: Seq<char>) -> bool {
    line.len() == 0 || unit.is_prefix_of(line)
}

/// The position of the first line that cannot be unindented by `unit`.
pub open spec fn first_irregular(body: Seq<Seq<char>>, unit: Seq<char>) -> Option<int>
    decreases body.len(),
{
    if body.len() == 0 {
        None
    } else {
        match first_irregular(body.drop_last(), unit) {
            Some(i) => Some(i),
            None => if regular(body.last(), unit) {
                None
            } else {
                Some(body.len() - 1)
            },
        }
    }
}

/// What a regular line becomes: nothing where it is empty, else a line break
/// and the line without the unit at its start.
pub open spec fn unindented_line(line: Seq<char>, unit: Seq<char>) -> Seq<char> {
    if line.len() == 0 {
        Seq::empty()
    } else {
        seq!['\n'] + line.skip(unit.len() as int)
    }
}

/// The first `count` lines of a body, unindented and joined.
pub open spec fn unindented_lines(body: Seq<Seq<char>>, unit: Seq<char>, count: nat) -> Seq<char>
    decreases count,
{
    if count == 0 {
        Seq::empty()
    } else {
        unindented_lines(body, unit, (count - 1) as nat) + unindented_line(body[count - 1], unit)
    }
}

/// The body of a declaration with the indentation `unit` taken from the
/// start of each of its lines, or the complaint about the first line that
/// does not start with it.
pub open spec fn unindented(body: Seq<char>, unit: Seq<char>) -> Result<Seq<char>, ParseFailure> {
    let all = lines(body);
    match first_irregular(all, unit) {
        Some(i) => Err(ParseFailure::IrregularIndent { line: all[i] }),
        None => Ok(unindented_lines(all, unit, all.len())),
    }
}

/// `first_irregular` finds the least position of a line that is not regular.
proof fn lemma_first_irregular(body: Seq<Seq<char>>, unit: Seq<char>)
    ensures
        match first_irregular(body, unit) {
            Some(i) => 0 <= i < body.len() && !regular(body[i], unit) && forall|j: int|
                0 <= j < i ==> regular(#[trigger] body[j], unit),
            None => forall|j: int| 0 <= j < body.len() ==> regular(#[trigger] body[j], unit),
        },
    decreases body.len(),
{
    if body.len() > 0 {
        lemma_first_irregular(body.drop_last(), unit);
        assert forall|j: int| 0 <= j < body.len() - 1 implies body.drop_last()[j] == body[j] by {}
        match first_irregular(body.drop_last(), unit) {
            Some(i) => {
                assert(body.drop_last()[i] == body[i]);
                assert forall|j: int| 0 <= j < i implies regular(#[trigger] body[j], unit) by {
                    assert(body.drop_last()[j] == body[j]);
                }
            },
            None => {
                assert forall|j: int| 0 <= j < body.len() - 1 implies regular(
                    #[trigger] body[j],
                    unit,
                ) by {
                    assert(body.drop_last()[j] == body[j]);
                }
            },
        }
    }
}

/// What unindenting comes to. It succeeds on the bodies of which every line
/// is empty or starts with the unit, and then each line that is not empty
/// has lost the unit at its start and nothing else. On any other body the
/// error is the first line that is not empty and does not start with the
/// unit.
pub proof fn lemma_unindent_outcome(body: Seq<char>, unit: Seq<char>)
    ensures
        match unindented(body, unit) {
            Ok(flat) => {
                &&& forall|i: int|
                    0 <= i < lines(body).len() ==> regular(#[trigger] lines(body)[i], unit)
                &&& flat == unindented_lines(lines(body), unit, lines(body).len())
            },
            Err(failure) => exists|i: int|
                {
                    &&& 0 <= i < lines(body).len()
                    &&& failure == (ParseFailure::IrregularIndent { line: #[trigger] lines(body)[i] })
                    &&& !regular(lines(body)[i], unit)
                    &&& forall|j: int| 0 <= j < i ==> regular(#[trigger] lines(body)[j], unit)
                },
        },
{
    lemma_first_irregular(lines(body), unit);
}

/// Whether `line` starts with `unit`.
fn starts_with(line: &Vec<char>, unit: &Vec<char>) -> (starts: bool)
    ensures
        starts == unit@.is_prefix_of(line@),
{
    if unit.len() > line.len() {
        return false;
    }
    let mut i: usize = 0;
    while i < unit.len()
        invariant
            i <= unit.len() <= line.len(),
            forall|j: int| 0 <= j < i ==> unit[j] == line[j],
        decreases unit.len() - i,
    {
        if unit[i] != line[i] {
            return false;
        }
        i += 1;
    }
    true
}

/// Takes the indentation `unit` from the start of every line of `body`. Each
/// line that is not empty comes out behind a line break of its own; empty
/// lines leave nothing. A line that is not empty and does not start with the
/// unit is an error, and the first such line is reported.
pub fn unindent(body: &str, unit: &str) -> (flat: Result<String, ParseError>)
    ensures
        match flat {
            Ok(text) => unindented(body@, unit@) matches Ok(model) && model == text@,
            Err(error) => unindented(body@, unit@) matches Err(failure) && failure == error@,
        },
{
    let all = split_lines(body);
    let prefix = to_chars(unit);
    let mut out = String::new();
    let n: usize = all.len();
    let ghost body_lines = lines(body@);
    let mut i: usize = 0;
    while i < n
        invariant
            n == all.len(),
            i <= n,
            body_lines == lines(body@),
            body_lines == texts(all@),
            prefix@ == unit@,
            first_irregular(body_lines.take(i as int), unit@) is None,
            out@ == unindented_lines(body_lines, unit@, i as nat),
        decreases n - i,
    {
        let line = to_chars(all[i].as_str());
        proof {
            assert(body_lines.take(i + 1).drop_last() =~= body_lines.take(i as int));
        }
        if line.len() > 0 {
            if !starts_with(&line, &prefix) {
                let quoted = string_of(&line, 0, line.len());
                proof {
                    assert(quoted@ =~= line@);
                    lemma_irregular_prefix(body_lines, unit@, i + 1);
                }
                return Err(ParseError::IrregularIndent { line: quoted });
            }
            out.push('\n');
            let rest = string_of(&line, prefix.len(), line.len());
            out.append(rest.as_str());
        }
        i += 1;
    }
    proof {
        assert(body_lines.take(n as int) =~= body_lines);
    }
    Ok(out)
}

/// The text of a capture group: empty for a group that took no part in the
/// match.
pub open spec fn group_text(text: Seq<char>, span: Option<Span>) -> Seq<char> {
    match span {
        Some(found) => byte_slice(text, found.0 as int, found.1 as int),
        None => Seq::empty(),
    }
}

/// The part of `text` that a capture group matched.
pub fn group<'a>(text: &'a str, span: &Option<Span>) -> (part: &'a str)
    requires
        *span matches Some(found) ==> on_boundaries(text@, found.0 as int, found.1 as int),
    ensures
        part@ == group_text(text@, *span),
{
    match span {
        Some(found) => slice(text, found.0, found.1),
        None => {
            proof {
                reveal_strlit("");
            }
            ""
        },
    }
}

/// Tag and contents of each variant that was matched in `flat`.
pub open spec fn variant_pairs(flat: Seq<char>, rows: Seq<Seq<Option<Span>>>) -> Seq<
    (Seq<char>, Seq<char>),
> {
    Seq::new(
        rows.len(),
        |i: int|
            (
                group_text(flat, rows[i][TAG_GROUP as int]),
                group_text(flat, rows[i][CONTENTS_GROUP as int]),
            ),
    )
}

/// Reads tag and contents of every variant that was matched in the
/// unindented body `flat`.
pub fn variants_from(flat: &str, found: &Vec<Vec<Option<Span>>>) -> (variants: Vec<
    (String, String),
>)
    requires
        forall|i: int|
            0 <= i < found.len() ==> well_formed_row(
                flat@,
                VARIANT_GROUPS as nat,
                #[trigger] found[i]@,
            ),
    ensures
        variants_view(variants@) == variant_pairs(flat@, rows_of(found@)),
{
    let mut variants: Vec<(String, String)> = Vec::new();
    let n: usize = found.len();
    for i in 0..n
        invariant
            n == found.len(),
            forall|k: int|
                0 <= k < found.len() ==> well_formed_row(
                    flat@,
                    VARIANT_GROUPS as nat,
                    #[trigger] found[k]@,
                ),
            variants.len() == i,
            forall|k: int|
                0 <= k < i ==> (#[trigger] variants[k]).0@ == group_text(
                    flat@,
                    found[k][TAG_GROUP as int],
                ) && variants[k].1@ == group_text(flat@, found[k][CONTENTS_GROUP as int]),
    {
        let row = &found[i];
        let tag = String::from_str(group(flat, &row[TAG_GROUP]));
        let contents = String::from_str(group(flat, &row[CONTENTS_GROUP]));
        variants.push((tag, contents));
    }
    variants
}

/// The indentation unit among the matches of [`INDENT_PATTERN`] in a body:
/// what the first match holds in its group, if there is a match.
pub open spec fn unit_among(body: Seq<char>, indents: Seq<Seq<Option<Span>>>) -> Option<Seq<char>> {
    if indents.len() == 0 {
        None
    } else {
        Some(group_text(body, indents[0][UNIT_GROUP as int]))
    }
}

/// The declaration that is made of one match of [`DECLARATION_PATTERN`] in
/// `source` and of the matches of [`VARIANT_PATTERN`] in its unindented body
/// `flat`.
pub open spec fn assembled(
    source: Seq<char>,
    row: Seq<Option<Span>>,
    flat: Seq<char>,
    found: Seq<Seq<Option<Span>>>,
) -> Declaration {
    Declaration {
        name: group_text(source, row[NAME_GROUP as int]),
        generics: match row[GENERICS_GROUP as int] {
            Some(_) => Some(group_text(source, row[GENERICS_GROUP as int])),
            None => None,
        },
        variants: variant_pairs(flat, found),
        export: row[EXPORT_GROUP as int] is Some,
    }
}

/// The declaration that one match of [`DECLARATION_PATTERN`] stands for, and
/// the indentation unit of its body. The unit is what [`INDENT_PATTERN`]
/// finds at the start of the body; the variants are what [`VARIANT_PATTERN`]
/// finds in the unindented body.
pub open spec fn declaration_at(source: Seq<char>, row: Seq<Option<Span>>) -> Result<
    (Declaration, Seq<char>),
    ParseFailure,
> {
    let body = group_text(source, row[BODY_GROUP as int]);
    match captures_of(INDENT_PATTERN@, body, INDENT_GROUPS as nat) {
        None => Err(ParseFailure::Pattern),
        Some(indents) => match unit_among(body, indents) {
            None => Err(ParseFailure::NoIndent),
            Some(unit) => match unindented(body, unit) {
                Err(failure) => Err(failure),
                Ok(flat) => match captures_of(VARIANT_PATTERN@, flat, VARIANT_GROUPS as nat) {
                    None => Err(ParseFailure::Pattern),
                    Some(found) => Ok((assembled(source, row, flat, found), unit)),
                },
            },
        },
    }
}

/// The first `count` matches of a file read as declarations: the first
/// failure, if there is one; else the declarations in file order, with the
/// indentation unit of the last one.
pub open spec fn collected(source: Seq<char>, rows: Seq<Seq<Option<Span>>>, count: nat) -> Result<
    Declarations,
    ParseFailure,
>
    decreases count,
{
    if count == 0 {
        Ok(Declarations { enums: Seq::empty(), indent: Seq::empty() })
    } else {
        match collected(source, rows, (count - 1) as nat) {
            Err(failure) => Err(failure),
            Ok(before) => match declaration_at(source, rows[count - 1]) {
                Err(failure) => Err(failure),
                Ok((decl, unit)) => Ok(
                    Declarations { enums: before.enums.push(decl), indent: unit },
                ),
            },
        }
    }
}

/// What the extractor makes of a source text.
pub open spec fn parsed(source: Seq<char>) -> Result<Declarations, ParseFailure> {
    match captures_of(DECLARATION_PATTERN@, source, DECLARATION_GROUPS as nat) {
        None => Err(ParseFailure::Pattern),
        Some(rows) => collected(source, rows, rows.len()),
    }
}

/// Picks the indentation unit of a body from the matches of
/// [`INDENT_PATTERN`] in it.
pub fn unit_from<'a>(body: &'a str, indents: &Vec<Vec<Option<Span>>>) -> (unit: Option<&'a str>)
    requires
        forall|i: int|
            0 <= i < indents.len() ==> well_formed_row(
                body@,
                INDENT_GROUPS as nat,
                #[trigger] indents[i]@,
            ),
    ensures
        match unit {
            Some(text) => unit_among(body@, rows_of(indents@)) == Some(text@),
            None => unit_among(body@, rows_of(indents@)) is None,
        },
{
    if indents.len() == 0 {
        None
    } else {
        Some(group(body, &indents[0][UNIT_GROUP]))
    }
}

/// Makes a declaration of one match of [`DECLARATION_PATTERN`] in `source`
/// and of the matches of [`VARIANT_PATTERN`] in its unindented body `flat`.
pub fn assemble(
    source: &str,
    row: &Vec<Option<Span>>,
    flat: &str,
    found: &Vec<Vec<Option<Span>>>,
) -> (ts_enum: TSEnum)
    requires
        well_formed_row(source@, DECLARATION_GROUPS as nat, row@),
        forall|i: int|
            0 <= i < found.len() ==> well_formed_row(
                flat@,
                VARIANT_GROUPS as nat,
                #[trigger] found[i]@,
            ),
    ensures
        ts_enum@ == assembled(source@, row@, flat@, rows_of(found@)),
{
    let generics = match &row[GENERICS_GROUP] {
        Some(_) => Some(String::from_str(group(source, &row[GENERICS_GROUP]))),
        None => None,
    };
    TSEnum {
        name: String::from_str(group(source, &row[NAME_GROUP])),
        generics,
        variants: variants_from(flat, found),
        export: row[EXPORT_GROUP].is_some(),
    }
}

/// Reads one match of [`DECLARATION_PATTERN`] in `source`: finds the
/// indentation unit of the body, unindents the body and reads its variants.
pub fn declaration(source: &str, row: &Vec<Option<Span>>) -> (read: Result<
    (TSEnum, String),
    ParseError,
>)
    requires
        well_formed_row(source@, DECLARATION_GROUPS as nat, row@),
    ensures
        match read {
            Ok((ts_enum, unit)) => declaration_at(source@, row@) matches Ok(model) && model == (
                ts_enum@,
                unit@,
            ),
            Err(error) => declaration_at(source@, row@) matches Err(failure) && failure == error@,
        },
{
    let body = group(source, &row[BODY_GROUP]);
    let indents = match captures(INDENT_PATTERN, body, INDENT_GROUPS) {
        None => {
            return Err(ParseError::Pattern);
        },
        Some(indents) => indents,
    };
    let unit = match unit_from(body, &indents) {
        None => {
            return Err(ParseError::NoIndent);
        },
        Some(unit) => unit,
    };
    let flat = match unindent(body, unit) {
        Err(error) => {
            return Err(error);
        },
        Ok(flat) => flat,
    };
    let found = match captures(VARIANT_PATTERN, flat.as_str(), VARIANT_GROUPS) {
        None => {
            return Err(ParseError::Pattern);
        },
        Some(found) => found,
    };
    Ok((assemble(source, row, flat.as_str(), &found), String::from_str(unit)))
}

/// Finds the enum declarations of a source text. A text without
/// declarations gives an empty result; a declaration whose body is not
/// indented line by line as its first line is gives an error.
pub fn parse(source: &str) -> (read: Result<Parsed, ParseError>)
    ensures
        match read {
            Ok(found) => parsed(source@) matches Ok(model) && model == found@,
            Err(error) => parsed(source@) matches Err(failure) && failure == error@,
        },
{
    let rows = match captures(DECLARATION_PATTERN, source, DECLARATION_GROUPS) {
        None => {
            return Err(ParseError::Pattern);
        },
        Some(rows) => rows,
    };
    let mut enums: Vec<TSEnum> = Vec::new();
    let mut indent = String::new();
    let n: usize = rows.len();
    assert((Parsed { enums, indent })@.enums =~= Seq::empty());
    for i in 0..n
        invariant
            n == rows.len(),
            captures_of(DECLARATION_PATTERN@, source@, DECLARATION_GROUPS as nat) == Some(
                rows_of(rows@),
            ),
            forall|k: int|
                0 <= k < rows.len() ==> well_formed_row(
                    source@,
                    DECLARATION_GROUPS as nat,
                    #[trigger] rows[k]@,
                ),
            collected(source@, rows_of(rows@), i as nat) == Ok::<Declarations, ParseFailure>(
                (Parsed { enums, indent })@,
            ),
    {
        let ghost before = (Parsed { enums, indent })@;
        match declaration(source, &rows[i]) {
            Err(error) => {
                proof {
                    lemma_collected_failure(source@, rows_of(rows@), (i + 1) as nat, n as nat);
                }
                return Err(error);
            },
            Ok((ts_enum, unit)) => {
                enums.push(ts_enum);
                indent = unit;
                assert((Parsed { enums, indent })@.enums =~= before.enums.push(ts_enum@));
            },
        }
    }
    Ok(Parsed { indent, enums })
}

/// Once reading has failed, what follows does not change the failure.
proof fn lemma_collected_failure(
    source: Seq<char>,
    rows: Seq<Seq<Option<Span>>>,
    count: nat,
    more: nat,
)
    requires
        count <= more,
        collected(source, rows, count) is Err,
    ensures
        collected(source, rows, more) == collected(source, rows, count),
    decreases more,
{
    if count < more {
        lemma_collected_failure(source, rows, count, (more - 1) as nat);
    }
}

/// An irregular line among the first `count` lines is the first irregular
/// line of the whole body.
proof fn lemma_irregular_prefix(body: Seq<Seq<char>>, unit: Seq<char>, count: int)
    requires
        0 <= count <= body.len(),
        first_irregular(body.take(count), unit) is Some,
    ensures
        first_irregular(body, unit) == first_irregular(body.take(count), unit),
    decreases body.len() - count,
{
    if count == body.len() {
        assert(body.take(count) =~= body);
    } else {
        assert(body.drop_last().take(count) =~= body.take(count));
        lemma_irregular_prefix(body.drop_last(), unit, count);
    }
}

} // verus!
