//! The generator: renders declarations into TypeScript helper code.

use vstd::prelude::*;
use vstd::seq_lib::lemma_concat_associative;
use vstd::string::StringExecFns;

use crate::parser::{Declaration, Declarations, Parsed, TSEnum};
use crate::text::{
    holds, is_whitespace, lemma_holds_extended, lemma_holds_inner, lemma_holds_joined,
    lemma_holds_reindented, lemma_holds_within, reindent, reindented, same_text, trim,
    trim_start, trimmed,
};

pub mod apply_match;
pub mod creators;
pub mod type_aliases;
pub mod type_guards;

verus! {

/// Bumped whenever the shape of the generated code changes.
pub const CODE_GEN_VERSION: usize = 6;

/// The bracketed generic parameter list built from the declared generics and
/// an optional extra parameter: `""`, `"<O, E>"`, `"<R>"` or `"<O, E, R>"`.
pub open spec fn braced(generics: Option<Seq<char>>, extra: Option<char>) -> Seq<char> {
    match (generics, extra) {
        (None, None) => Seq::empty(),
        (None, Some(r)) => "<"@.push(r) + ">"@,
        (Some(g), None) => "<"@ + g + ">"@,
        (Some(g), Some(r)) => ("<"@ + g + ", "@).push(r) + ">"@,
    }
}

/// The visibility keyword in front of an emitted item.
pub open spec fn export_keyword(export: bool) -> Seq<char> {
    if export {
        "export "@
    } else {
        Seq::empty()
    }
}

/// Whether a variant carries no contents: its contents type is `null`.
pub open spec fn is_unit(contents: Seq<char>) -> bool {
    contents == "null"@
}

/// Whether `contents` is the contents type of a variant without contents.
pub fn is_unit_variant(contents: &String) -> (unit: bool)
    ensures
        unit == is_unit(contents@),
{
    same_text(contents.as_str(), "null")
}

/// Renders the generic parameter list of a declaration, with `extra` as one
/// more parameter at the end when it is given.
pub fn braced_generic(generics: &Option<String>, extra_generic_opt: Option<char>) -> (out: String)
    ensures
        out@ == braced(
            match *generics {
                Some(g) => Some(g@),
                None => None,
            },
            extra_generic_opt,
        ),
{
    match generics {
        None => match extra_generic_opt {
            None => String::new(),
            Some(extra) => {
                let mut s = String::from_str("<");
                s.push(extra);
                s.append(">");
                s
            },
        },
        Some(gen) => {
            let mut s = String::from_str("<");
            s.append(gen.as_str());
            if let Some(extra_generic) = extra_generic_opt {
                s.append(", ");
                s.push(extra_generic);
            }
            s.append(">");
            s
        },
    }
}

/// A text buffer that knows the indentation unit of the file it writes for.
pub struct Source {
    indent: String,
    code: String,
}

impl Source {
    /// The indentation unit of the buffer.
    pub closed spec fn unit(&self) -> Seq<char> {
        self.indent@
    }

    /// The text gathered so far.
    pub closed spec fn text(&self) -> Seq<char> {
        self.code@
    }

    /// An empty buffer for a file indented by `indent`.
    pub fn new(indent: String) -> (src: Source)
        ensures
            src.unit() == indent@,
            src.text() == Seq::<char>::empty(),
    {
        Source { indent, code: String::new() }
    }

    /// An empty buffer with the indentation unit of this one.
    pub fn new_with_same_settings(&self) -> (src: Source)
        ensures
            src.unit() == self.unit(),
            src.text() == Seq::<char>::empty(),
    {
        Source { code: String::new(), indent: self.indent.clone() }
    }

    /// Appends `s` where the text ends.
    pub fn push(&mut self, s: &str)
        ensures
            final(self).unit() == old(self).unit(),
            final(self).text() == old(self).text() + s@,
    {
        self.code.append(s);
    }

    /// Appends `s` on a new line.
    pub fn ln_push(&mut self, s: &str)
        ensures
            final(self).unit() == old(self).unit(),
            final(self).text() == old(self).text() + "\n"@ + s@,
    {
        self.code.append("\n");
        self.code.append(s);
    }

    /// Appends `s` on a new line, indented by one unit.
    pub fn ln_push_1(&mut self, s: &str)
        ensures
            final(self).unit() == old(self).unit(),
            final(self).text() == old(self).text() + "\n"@ + old(self).unit() + s@,
    {
        self.code.append("\n");
        self.code.append(self.indent.as_str());
        self.code.append(s);
    }

    /// Absorbs the text of `other` as it is.
    pub fn push_source(&mut self, other: Source)
        ensures
            final(self).unit() == old(self).unit(),
            final(self).text() == old(self).text() + other.text(),
    {
        let text = other.finish();
        self.code.append(text.as_str());
    }

    /// Absorbs the text of `other`, each of its lines indented by one unit.
    pub fn push_source_1(&mut self, other: Source)
        ensures
            final(self).unit() == old(self).unit(),
            final(self).text() == old(self).text() + reindent(other.text(), old(self).unit()),
    {
        let text = other.finish();
        let shifted = reindented(text.as_str(), self.indent.as_str());
        self.code.append(shifted.as_str());
    }

    /// Absorbs the text of `other`, each of its lines indented by two units.
    pub fn push_source_2(&mut self, other: Source)
        ensures
            final(self).unit() == old(self).unit(),
            final(self).text() == old(self).text() + reindent(
                other.text(),
                old(self).unit() + old(self).unit(),
            ),
    {
        let text = other.finish();
        let mut pad = self.indent.clone();
        pad.append(self.indent.as_str());
        let shifted = reindented(text.as_str(), pad.as_str());
        self.code.append(shifted.as_str());
    }

    /// The gathered text, untrimmed.
    pub fn finish(self) -> (code: String)
        ensures
            code@ == self.text(),
    {
        self.code
    }
}

impl Clone for Source {
    /// A second buffer with the same unit and the same text.
    fn clone(&self) -> (copy: Source)
        ensures
            copy.unit() == self.unit(),
            copy.text() == self.text(),
    {
        Source { indent: self.indent.clone(), code: self.code.clone() }
    }
}

/// What stands inside the namespace of a declaration, before it is
/// indented: the aliases, the constructors, the type guards and the two
/// combinators, in this order.
pub open spec fn members(decl: Declaration, unit: Seq<char>) -> Seq<char> {
    type_aliases::aliases(decl, decl.variants.len()) + creators::creators(
        decl,
        unit,
        decl.variants.len(),
    ) + type_guards::guards(decl, unit, decl.variants.len()) + apply_match::combinators(decl, unit)
}

/// Everything emitted for one declaration: one namespace block of its name,
/// exported as the declaration is, with all its members between the opening
/// line and the closing brace, indented by one unit.
pub open spec fn declaration_text(decl: Declaration, unit: Seq<char>) -> Seq<char> {
    "\n"@ + export_keyword(decl.export) + "namespace "@ + decl.name + " {"@ + reindent(
        members(decl, unit),
        unit,
    ) + "\n"@ + "}"@
}

/// The code of the first `count` declarations, a line break between one
/// declaration and the next.
pub open spec fn rendered(parsed: Declarations, count: nat) -> Seq<char>
    decreases count,
{
    if count == 0 {
        Seq::empty()
    } else if count == 1 {
        declaration_text(parsed.enums[0], parsed.indent)
    } else {
        rendered(parsed, (count - 1) as nat) + "\n"@ + declaration_text(
            parsed.enums[count - 1],
            parsed.indent,
        )
    }
}

/// The generated code of a file: the code of its declarations in file
/// order, trimmed at both ends.
pub open spec fn generated(parsed: Declarations) -> Seq<char> {
    trim(rendered(parsed, parsed.enums.len()))
}

/// How the code of a declaration opens and closes: with a line break and
/// then a letter, and with the closing brace.
proof fn lemma_declaration_text_ends(decl: Declaration, unit: Seq<char>)
    ensures
        declaration_text(decl, unit).len() >= 2,
        declaration_text(decl, unit)[0] == '\n',
        !is_whitespace(declaration_text(decl, unit)[1]),
        declaration_text(decl, unit).last() == '}',
{
    reveal_strlit("\n");
    reveal_strlit("export ");
    reveal_strlit("namespace ");
    reveal_strlit("}");
    let opening = "\n"@ + export_keyword(decl.export) + "namespace "@;
    let rest = decl.name + " {"@ + reindent(members(decl, unit), unit) + "\n"@ + "}"@;
    assert(opening.len() >= 2);
    assert(opening[0] == '\n');
    assert(opening[1] == 'e' || opening[1] == 'n');
    assert(declaration_text(decl, unit) =~= opening + rest);
}

/// The code of one or more declarations opens and closes as the code of one
/// declaration does.
proof fn lemma_rendered_ends(parsed: Declarations, count: nat)
    requires
        count > 0,
    ensures
        rendered(parsed, count).len() >= 2,
        rendered(parsed, count)[0] == '\n',
        !is_whitespace(rendered(parsed, count)[1]),
        rendered(parsed, count).last() == '}',
    decreases count,
{
    if count == 1 {
        lemma_declaration_text_ends(parsed.enums[0], parsed.indent);
    } else {
        lemma_rendered_ends(parsed, (count - 1) as nat);
        lemma_declaration_text_ends(parsed.enums[count - 1], parsed.indent);
    }
}

/// The code of one or more declarations is not empty.
proof fn lemma_rendered_nonempty(parsed: Declarations, count: nat)
    requires
        count > 0,
    ensures
        rendered(parsed, count).len() > 0,
{
    lemma_rendered_ends(parsed, count);
}

/// Trimming takes nothing from the generated code but the line break that
/// opens it.
pub proof fn lemma_generated_opens_with_namespace(parsed: Declarations)
    requires
        parsed.enums.len() > 0,
    ensures
        generated(parsed) == rendered(parsed, parsed.enums.len()).drop_first(),
{
    let all = rendered(parsed, parsed.enums.len());
    lemma_rendered_ends(parsed, parsed.enums.len());
    assert(is_whitespace('\n'));
    assert(!is_whitespace('}'));
    assert(all.drop_first()[0] == all[1]);
    assert(trim_start(all) == trim_start(all.drop_first()));
    assert(trim_start(all.drop_first()) == all.drop_first());
    assert(all.drop_first().last() == all.last());
}

/// The code of the first `count` declarations holds the code of each of
/// them.
proof fn lemma_rendered_holds_declaration(parsed: Declarations, index: int, count: nat)
    requires
        0 <= index < count <= parsed.enums.len(),
    ensures
        holds(rendered(parsed, count), declaration_text(parsed.enums[index], parsed.indent)),
    decreases count,
{
    let wanted = declaration_text(parsed.enums[index], parsed.indent);
    let last = declaration_text(parsed.enums[count - 1], parsed.indent);
    if count == 1 {
        lemma_holds_extended(Seq::empty(), wanted, wanted);
        assert(Seq::<char>::empty() + wanted =~= wanted);
    } else {
        let before = rendered(parsed, (count - 1) as nat);
        if index < count - 1 {
            lemma_rendered_holds_declaration(parsed, index, (count - 1) as nat);
        }
        lemma_holds_extended(before, "\n"@, wanted);
        lemma_holds_extended(before + "\n"@, last, wanted);
    }
}

/// The output holds the members of every declaration, indented by one unit.
pub proof fn lemma_output_holds_members(parsed: Declarations, index: int)
    requires
        0 <= index < parsed.enums.len(),
    ensures
        holds(
            generated(parsed),
            reindent(members(parsed.enums[index], parsed.indent), parsed.indent),
        ),
{
    let decl = parsed.enums[index];
    let unit = parsed.indent;
    let inner = reindent(members(decl, unit), unit);
    let opening = "\n"@ + export_keyword(decl.export) + "namespace "@ + decl.name + " {"@;
    lemma_generated_opens_with_namespace(parsed);
    lemma_rendered_holds_declaration(parsed, index, parsed.enums.len());
    assert(opening.len() > 0) by {
        reveal_strlit("\n");
    }
    lemma_concat_associative(opening + inner, "\n"@, "}"@);
    lemma_holds_inner(rendered(parsed, parsed.enums.len()), opening, inner, "\n"@ + "}"@);
}

/// The output holds the constructor and the type guard of every variant of
/// every declaration, indented by one unit. The constructor stores its
/// parameter under the tag of its variant, and the guard tests that one tag.
pub proof fn lemma_output_holds_constructor_and_guard(
    parsed: Declarations,
    index: int,
    variant: int,
)
    requires
        0 <= index < parsed.enums.len(),
        0 <= variant < parsed.enums[index].variants.len(),
    ensures
        holds(
            generated(parsed),
            reindent(
                creators::creator(
                    parsed.enums[index],
                    parsed.enums[index].variants[variant],
                    parsed.indent,
                ),
                parsed.indent,
            ),
        ),
        holds(
            generated(parsed),
            reindent(
                type_guards::guard(
                    parsed.enums[index],
                    parsed.enums[index].variants[variant],
                    parsed.indent,
                ),
                parsed.indent,
            ),
        ),
{
    let decl = parsed.enums[index];
    let unit = parsed.indent;
    let count = decl.variants.len();
    let aliases = type_aliases::aliases(decl, count);
    let made = creators::creators(decl, unit, count);
    let tested = type_guards::guards(decl, unit, count);
    let combined = apply_match::combinators(decl, unit);
    let all = members(decl, unit);
    lemma_output_holds_members(parsed, index);
    creators::lemma_constructor_of_every_variant(decl, unit, variant, count);
    type_guards::lemma_guard_of_every_variant(decl, unit, variant, count);
    lemma_holds_joined(aliases, made, tested + combined);
    assert(aliases + made + (tested + combined) =~= all);
    lemma_holds_joined(aliases + made, tested, combined);
    lemma_holds_within(all, made, creators::creator(decl, decl.variants[variant], unit));
    lemma_holds_within(all, tested, type_guards::guard(decl, decl.variants[variant], unit));
    lemma_holds_reindented(all, creators::creator(decl, decl.variants[variant], unit), unit);
    lemma_holds_reindented(all, type_guards::guard(decl, decl.variants[variant], unit), unit);
    lemma_holds_within(
        generated(parsed),
        reindent(all, unit),
        reindent(creators::creator(decl, decl.variants[variant], unit), unit),
    );
    lemma_holds_within(
        generated(parsed),
        reindent(all, unit),
        reindent(type_guards::guard(decl, decl.variants[variant], unit), unit),
    );
}

/// The output holds the dispatcher of every declaration, and in it the link
/// of every variant: the test of the variant's tag and the call of the
/// handler of that tag, the links in declaration order. It also holds
/// `match`, which forwards to `apply`. Each stands there as the generator
/// indents it.
pub proof fn lemma_output_holds_dispatch(parsed: Declarations, index: int, variant: int)
    requires
        0 <= index < parsed.enums.len(),
        0 <= variant < parsed.enums[index].variants.len(),
    ensures
        holds(
            generated(parsed),
            reindent(
                reindent(
                    apply_match::dispatch(parsed.enums[index], parsed.indent),
                    parsed.indent + parsed.indent,
                ),
                parsed.indent,
            ),
        ),
        holds(
            generated(parsed),
            reindent(
                reindent(
                    apply_match::branch(parsed.enums[index].variants[variant], parsed.indent),
                    parsed.indent + parsed.indent,
                ),
                parsed.indent,
            ),
        ),
        holds(
            generated(parsed),
            reindent(apply_match::match_text(parsed.enums[index], parsed.indent), parsed.indent),
        ),
{
    let decl = parsed.enums[index];
    let unit = parsed.indent;
    let count = decl.variants.len();
    let all = members(decl, unit);
    let before = type_aliases::aliases(decl, count) + creators::creators(decl, unit, count)
        + type_guards::guards(decl, unit, count);
    let apply = apply_match::apply_text(decl, unit);
    let forward = apply_match::match_text(decl, unit);
    let chain = apply_match::dispatch(decl, unit);
    let link = apply_match::branch(decl.variants[variant], unit);
    let shifted = reindent(chain, unit + unit);
    let nothing = Seq::<char>::empty();
    lemma_output_holds_members(parsed, index);
    apply_match::lemma_dispatch_tests_every_variant(decl, unit, variant);
    apply_match::lemma_apply_holds_dispatch(decl, unit);
    // the members hold `apply` and `match`
    lemma_holds_joined(before, apply, forward);
    assert(before + apply + forward =~= all);
    lemma_holds_joined(before + apply, forward, nothing);
    assert(before + apply + forward + nothing =~= all);
    // `apply` holds the chain, and the chain holds the link
    lemma_holds_within(all, apply, shifted);
    lemma_holds_reindented(chain, link, unit + unit);
    lemma_holds_within(all, shifted, reindent(link, unit + unit));
    // and so does the output, one unit further in
    lemma_holds_reindented(all, shifted, unit);
    lemma_holds_reindented(all, reindent(link, unit + unit), unit);
    lemma_holds_reindented(all, forward, unit);
    lemma_holds_within(generated(parsed), reindent(all, unit), reindent(shifted, unit));
    lemma_holds_within(
        generated(parsed),
        reindent(all, unit),
        reindent(reindent(link, unit + unit), unit),
    );
    lemma_holds_within(generated(parsed), reindent(all, unit), reindent(forward, unit));
}

/// Renders everything that is emitted for one declaration.
pub fn generate_declaration(ts_enum: &TSEnum, indent: &String) -> (code: String)
    ensures
        code@ == declaration_text(ts_enum@, indent@),
{
    let mut ns_src = Source::new(indent.clone());
    ns_src.ln_push("");
    if ts_enum.export {
        ns_src.push("export ");
    }
    proof {
        reveal_strlit("");
        assert(ns_src.text() =~= "\n"@ + export_keyword(ts_enum.export));
    }
    ns_src.push("namespace ");
    ns_src.push(ts_enum.name.as_str());
    ns_src.push(" {");

    let mut nested_src = ns_src.new_with_same_settings();
    type_aliases::generate(ts_enum, &mut nested_src);
    assert(nested_src.text() =~= type_aliases::aliases(ts_enum@, ts_enum@.variants.len()));
    creators::generate(ts_enum, &mut nested_src);
    type_guards::generate(ts_enum, &mut nested_src);
    apply_match::generate(ts_enum, &mut nested_src);
    ns_src.push_source_1(nested_src);
    ns_src.ln_push("}");
    ns_src.finish()
}

/// Renders the helper code for every declaration of a file.
pub fn generate(parsed: Parsed) -> (code: String)
    ensures
        code@ == generated(parsed@),
{
    let mut code = String::new();
    let n: usize = parsed.enums.len();
    for i in 0..n
        invariant
            n == parsed.enums.len(),
            code@ == rendered(parsed@, i as nat),
    {
        let ghost before = code@;
        let ns_code = generate_declaration(&parsed.enums[i], &parsed.indent);
        assert(ns_code@ == declaration_text(parsed@.enums[i as int], parsed@.indent));
        proof {
            if i > 0 {
                lemma_rendered_nonempty(parsed@, i as nat);
            }
        }
        if !code.as_str().is_empty() {
            code.append("\n");
        }
        assert(code@ == if i == 0 {
            before
        } else {
            before + "\n"@
        });
        code.append(ns_code.as_str());
        assert(before.len() == 0 ==> before + ns_code@ =~= ns_code@);
    }
    trimmed(code.as_str())
}

} // verus!
