//! The two dispatch combinators of a declaration: `apply` takes one handler
//! per variant and returns a function on values; `match` takes the value
//! first and forwards to `apply`.

use vstd::prelude::*;

use crate::codegen::{braced, braced_generic, is_unit, is_unit_variant, Source};
use crate::parser::{Declaration, TSEnum};
use crate::text::{holds, holds_at, lemma_holds_joined, reindent};

verus! {

/// The parameter list and result of one handler: no parameter for a variant
/// without contents.
pub open spec fn handler_signature(decl: Declaration, variant: (Seq<char>, Seq<char>)) -> Seq<
    char,
> {
    if is_unit(variant.1) {
        "(): R;"@
    } else {
        "(content: "@ + variant.0 + braced(decl.generics, None) + "): R;"@
    }
}

/// The member of the handler record that belongs to one variant.
pub open spec fn handler(decl: Declaration, variant: (Seq<char>, Seq<char>)) -> Seq<char> {
    "\n"@ + variant.0 + handler_signature(decl, variant)
}

/// The handler members of the first `count` variants, each line indented by
/// `pad`.
pub open spec fn handlers(decl: Declaration, pad: Seq<char>, count: nat) -> Seq<char>
    decreases count,
{
    if count == 0 {
        Seq::empty()
    } else {
        handlers(decl, pad, (count - 1) as nat) + reindent(
            handler(decl, decl.variants[count - 1]),
            pad,
        )
    }
}

/// How the handler of one variant is called on a value that carries its tag.
pub open spec fn branch_call(variant: (Seq<char>, Seq<char>)) -> Seq<char> {
    if is_unit(variant.1) {
        "()"@
    } else {
        "(item."@ + variant.0 + ")"@
    }
}

/// One link of the dispatch chain: the test of one tag, the call of its
/// handler, and the colon that opens the alternative.
pub open spec fn branch(variant: (Seq<char>, Seq<char>), unit: Seq<char>) -> Seq<char> {
    "\""@ + variant.0 + "\" in item"@ + "\n"@ + unit + "? fns."@ + variant.0 + branch_call(variant)
        + "\n"@ + unit + ": "@
}

/// The links of the first `count` variants, in declaration order.
pub open spec fn branches(decl: Declaration, unit: Seq<char>, count: nat) -> Seq<char>
    decreases count,
{
    if count == 0 {
        Seq::empty()
    } else {
        branches(decl, unit, (count - 1) as nat) + branch(decl.variants[count - 1], unit)
    }
}

/// The return statement of the dispatcher: the tags are tested in
/// declaration order, and a value that carries none of them reaches the
/// failed assertion at the end of the chain.
pub open spec fn dispatch(decl: Declaration, unit: Seq<char>) -> Seq<char> {
    "\n"@ + "return "@ + branches(decl, unit, decl.variants.len())
        + "(console.assert(false, unexpected, item) as never);"@
}

/// Where the link of the variant at `index` starts in the return statement
/// of the dispatcher.
pub open spec fn branch_offset(decl: Declaration, unit: Seq<char>, index: nat) -> nat {
    ("\n"@ + "return "@).len() + branches(decl, unit, index).len()
}

/// The links of the first variants open the links of all of them.
proof fn lemma_branches_prefix(decl: Declaration, unit: Seq<char>, count: nat, total: nat)
    requires
        count <= total,
    ensures
        branches(decl, unit, count).is_prefix_of(branches(decl, unit, total)),
    decreases total,
{
    if count < total {
        lemma_branches_prefix(decl, unit, count, (total - 1) as nat);
        let shorter = branches(decl, unit, (total - 1) as nat);
        let longer = branches(decl, unit, total);
        assert(shorter.is_prefix_of(longer));
        assert(branches(decl, unit, count) =~= longer.subrange(
            0,
            branches(decl, unit, count).len() as int,
        ));
    } else {
        assert(branches(decl, unit, total) =~= branches(decl, unit, total).subrange(
            0,
            branches(decl, unit, total).len() as int,
        ));
    }
}

/// The dispatcher leaves out no variant: the link that tests the tag of a
/// variant and calls its handler stands in the return statement, and it
/// stands there before the link of the variant declared next.
pub proof fn lemma_dispatch_tests_every_variant(decl: Declaration, unit: Seq<char>, index: int)
    requires
        0 <= index < decl.variants.len(),
    ensures
        dispatch(decl, unit).subrange(
            branch_offset(decl, unit, index as nat) as int,
            branch_offset(decl, unit, index as nat) as int + branch(
                decl.variants[index],
                unit,
            ).len(),
        ) == branch(decl.variants[index], unit),
        branch_offset(decl, unit, index as nat) < branch_offset(decl, unit, (index + 1) as nat)
            <= dispatch(decl, unit).len(),
        holds(dispatch(decl, unit), branch(decl.variants[index], unit)),
{
    let link = branch(decl.variants[index], unit);
    let all = branches(decl, unit, decl.variants.len());
    let at = branch_offset(decl, unit, index as nat) as int;
    lemma_branches_prefix(decl, unit, (index + 1) as nat, decl.variants.len());
    assert(link.len() > 0) by {
        reveal_strlit(": ");
    }
    let before = branches(decl, unit, index as nat);
    let upto = branches(decl, unit, (index + 1) as nat);
    assert(upto == before + link);
    assert(upto =~= all.subrange(0, upto.len() as int));
    assert forall|k: int| 0 <= k < link.len() implies dispatch(decl, unit)[at + k] == link[k] by {
        assert(dispatch(decl, unit)[at + k] == all[before.len() + k]);
        assert(all[before.len() + k] == upto[before.len() + k]);
    }
    assert(dispatch(decl, unit).subrange(at, at + link.len()) =~= link);
    assert(holds_at(dispatch(decl, unit), link, at));
}

/// `apply` up to the opening of its handler record.
pub open spec fn apply_head(decl: Declaration) -> Seq<char> {
    "\n"@ + "const unexpected = \"Unexpected Enum variant for "@ + decl.name + braced(
        decl.generics,
        None,
    ) + "\";"@ + "\n"@ + "export function apply"@ + braced(decl.generics, Some('R')) + "(fns: {"@
}

/// The whole of `apply`.
pub open spec fn apply_text(decl: Declaration, unit: Seq<char>) -> Seq<char> {
    apply_head(decl) + handlers(decl, unit, decl.variants.len()) + "\n}): (value: "@ + decl.name
        + braced(decl.generics, None) + ") => R {"@ + "\n"@ + unit + "return function match"@
        + decl.name + "Apply(item) {"@ + reindent(dispatch(decl, unit), unit + unit) + "\n"@ + unit
        + "};"@ + "\n"@ + "}"@
}

/// `apply` holds the return statement of the dispatcher, indented by two
/// units.
pub proof fn lemma_apply_holds_dispatch(decl: Declaration, unit: Seq<char>)
    ensures
        holds(apply_text(decl, unit), reindent(dispatch(decl, unit), unit + unit)),
{
    let before = apply_head(decl) + handlers(decl, unit, decl.variants.len()) + "\n}): (value: "@
        + decl.name + braced(decl.generics, None) + ") => R {"@ + "\n"@ + unit
        + "return function match"@ + decl.name + "Apply(item) {"@;
    let after = "\n"@ + unit + "};"@ + "\n"@ + "}"@;
    let chain = reindent(dispatch(decl, unit), unit + unit);
    lemma_holds_joined(before, chain, after);
    assert(before + chain + after =~= apply_text(decl, unit));
}

/// `match` up to the opening of its handler record.
pub open spec fn match_head(decl: Declaration, unit: Seq<char>) -> Seq<char> {
    "\n"@ + "export function match"@ + braced(decl.generics, Some('R')) + "("@ + "\n"@ + unit
        + "value: "@ + decl.name + braced(decl.generics, None) + ","@ + "\n"@ + unit + "fns: {"@
}

/// The whole of `match`.
pub open spec fn match_text(decl: Declaration, unit: Seq<char>) -> Seq<char> {
    match_head(decl, unit) + handlers(decl, unit + unit, decl.variants.len()) + "\n"@ + unit
        + "}"@ + "\n"@ + "): R {"@ + "\n"@ + unit + "return apply(fns)(value);"@ + "\n"@ + "}"@
}

/// Both combinators, `apply` first.
pub open spec fn combinators(decl: Declaration, unit: Seq<char>) -> Seq<char> {
    apply_text(decl, unit) + match_text(decl, unit)
}

/// The handler member of the variant at `index`, in a buffer of its own.
fn handler_source(ts_enum: &TSEnum, index: usize, braced_gen: &String, src: &Source) -> (item:
    Source)
    requires
        index < ts_enum.variants.len(),
        braced_gen@ == braced(ts_enum@.generics, None),
    ensures
        item.unit() == src.unit(),
        item.text() == handler(ts_enum@, ts_enum@.variants[index as int]),
{
    let t_name = &ts_enum.variants[index].0;
    let content = &ts_enum.variants[index].1;
    let mut item = src.new_with_same_settings();
    item.ln_push(t_name.as_str());
    assert(item.text() =~= "\n"@ + t_name@);
    let ghost named = item.text();
    if !is_unit_variant(content) {
        item.push("(content: ");
        item.push(t_name.as_str());
        item.push(braced_gen.as_str());
        item.push("): R;");
    } else {
        item.push("(): R;");
    }
    assert(item.text() =~= named + handler_signature(ts_enum@, ts_enum@.variants[index as int]));
    item
}

/// The link of the dispatch chain for the variant at `index`, in a buffer of
/// its own.
fn branch_source(ts_enum: &TSEnum, index: usize, src: &Source) -> (item: Source)
    requires
        index < ts_enum.variants.len(),
    ensures
        item.unit() == src.unit(),
        item.text() == branch(ts_enum@.variants[index as int], src.unit()),
{
    let t_name = &ts_enum.variants[index].0;
    let content = &ts_enum.variants[index].1;
    let mut item = src.new_with_same_settings();
    item.push("\"");
    assert(item.text() =~= "\""@);
    item.push(t_name.as_str());
    item.push("\" in item");
    item.ln_push_1("? fns.");
    item.push(t_name.as_str());
    let ghost called = item.text();
    if !is_unit_variant(content) {
        item.push("(item.");
        item.push(t_name.as_str());
        item.push(")");
    } else {
        item.push("()");
    }
    assert(item.text() =~= called + branch_call(ts_enum@.variants[index as int]));
    item.ln_push_1(": ");
    item
}

/// Appends `apply` and `match` for `ts_enum` to `src`.
pub fn generate(ts_enum: &TSEnum, src: &mut Source)
    ensures
        final(src).unit() == old(src).unit(),
        final(src).text() == old(src).text() + combinators(ts_enum@, old(src).unit()),
{
    let ghost decl = ts_enum@;
    let ghost unit = src.unit();
    let name = ts_enum.name.as_str();
    let braced_gen = braced_generic(&ts_enum.generics, None);
    let braced_gen_r = braced_generic(&ts_enum.generics, Some('R'));
    let n: usize = ts_enum.variants.len();

    let mut apply_src = src.new_with_same_settings();
    apply_src.ln_push("const unexpected = \"Unexpected Enum variant for ");
    assert(apply_src.text() =~= "\n"@ + "const unexpected = \"Unexpected Enum variant for "@);
    apply_src.push(name);
    apply_src.push(braced_gen.as_str());
    apply_src.push("\";");
    apply_src.ln_push("export function apply");
    apply_src.push(braced_gen_r.as_str());
    apply_src.push("(fns: {");

    let mut match_src = src.new_with_same_settings();
    match_src.ln_push("export function match");
    assert(match_src.text() =~= "\n"@ + "export function match"@);
    match_src.push(braced_gen_r.as_str());
    match_src.push("(");
    match_src.ln_push_1("value: ");
    match_src.push(name);
    match_src.push(braced_gen.as_str());
    match_src.push(",");
    match_src.ln_push_1("fns: {");

    for i in 0..n
        invariant
            n == ts_enum.variants.len(),
            decl == ts_enum@,
            unit == src.unit(),
            braced_gen@ == braced(decl.generics, None),
            apply_src.unit() == unit,
            match_src.unit() == unit,
            apply_src.text() == apply_head(decl) + handlers(decl, unit, i as nat),
            match_src.text() == match_head(decl, unit) + handlers(decl, unit + unit, i as nat),
    {
        let variant_fn_src = handler_source(ts_enum, i, &braced_gen, src);
        apply_src.push_source_1(variant_fn_src.clone());
        match_src.push_source_2(variant_fn_src);
    }

    apply_src.push("\n}): (value: ");
    apply_src.push(name);
    apply_src.push(braced_gen.as_str());
    apply_src.push(") => R {");
    apply_src.ln_push_1("return function match");
    apply_src.push(name);
    apply_src.push("Apply(item) {");

    let mut variant_check_src = src.new_with_same_settings();
    variant_check_src.ln_push("return ");
    assert(variant_check_src.text() =~= "\n"@ + "return "@);
    for i in 0..n
        invariant
            n == ts_enum.variants.len(),
            decl == ts_enum@,
            unit == src.unit(),
            variant_check_src.unit() == unit,
            variant_check_src.text() == "\n"@ + "return "@ + branches(decl, unit, i as nat),
    {
        let link = branch_source(ts_enum, i, src);
        variant_check_src.push_source(link);
    }
    variant_check_src.push("(console.assert(false, unexpected, item) as never);");
    apply_src.push_source_2(variant_check_src);
    apply_src.ln_push_1("};");
    apply_src.ln_push("}");

    match_src.ln_push_1("}");
    match_src.ln_push("): R {");
    match_src.ln_push_1("return apply(fns)(value);");
    match_src.ln_push("}");

    src.push_source(apply_src);
    src.push_source(match_src);
}

} // verus!
