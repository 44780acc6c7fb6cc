//! One constructor per variant: it wraps the contents in a record whose only
//! key is the variant's tag.

use vstd::prelude::*;

use crate::codegen::{braced, braced_generic, export_keyword, is_unit, is_unit_variant, Source};
use crate::parser::{Declaration, TSEnum};
use crate::text::{holds, holds_at};

verus! {

/// The parameter list of a constructor: empty for a variant without contents.
pub open spec fn creator_parameter(decl: Declaration, variant: (Seq<char>, Seq<char>)) -> Seq<
    char,
> {
    if is_unit(variant.1) {
        Seq::empty()
    } else {
        "contents: "@ + variant.0 + braced(decl.generics, None)
    }
}

/// What a constructor stores under the tag: its parameter, or `null`.
pub open spec fn creator_value(variant: (Seq<char>, Seq<char>)) -> Seq<char> {
    if is_unit(variant.1) {
        ": null };"@
    } else {
        ": contents };"@
    }
}

/// The constructor of one variant, written for the indentation unit `unit`.
pub open spec fn creator(decl: Declaration, variant: (Seq<char>, Seq<char>), unit: Seq<char>) -> Seq<
    char,
> {
    let generics = braced(decl.generics, None);
    "\n"@ + export_keyword(decl.export) + "function "@ + variant.0 + generics + "("@
        + creator_parameter(decl, variant) + "): { "@ + variant.0 + ": "@ + variant.0 + generics
        + " } {"@ + "\n"@ + unit + "return { "@ + variant.0 + creator_value(variant) + "\n"@ + "}"@
}

/// The constructors of the first `count` variants, in declaration order.
pub open spec fn creators(decl: Declaration, unit: Seq<char>, count: nat) -> Seq<char>
    decreases count,
{
    if count == 0 {
        Seq::empty()
    } else {
        creators(decl, unit, (count - 1) as nat) + creator(decl, decl.variants[count - 1], unit)
    }
}

/// Every variant has its constructor: the constructor of the variant at
/// `index` stands among the constructors of a declaration, behind those of
/// the variants declared before it.
pub proof fn lemma_constructor_of_every_variant(
    decl: Declaration,
    unit: Seq<char>,
    index: int,
    count: nat,
)
    requires
        0 <= index < count <= decl.variants.len(),
    ensures
        creators(decl, unit, count).subrange(
            creators(decl, unit, index as nat).len() as int,
            creators(decl, unit, (index + 1) as nat).len() as int,
        ) == creator(decl, decl.variants[index], unit),
        holds(creators(decl, unit, count), creator(decl, decl.variants[index], unit)),
    decreases count,
{
    let before = creators(decl, unit, index as nat);
    let made = creator(decl, decl.variants[index], unit);
    lemma_creators_grow(decl, unit, (index + 1) as nat, count);
    assert(creators(decl, unit, (index + 1) as nat) == before + made);
    assert(holds_at(creators(decl, unit, count), made, before.len() as int)) by {
        lemma_constructor_stands(decl, unit, index, count);
    }
}

/// The constructor of the variant at `index` stands behind the constructors
/// of the variants before it.
proof fn lemma_constructor_stands(decl: Declaration, unit: Seq<char>, index: int, count: nat)
    requires
        0 <= index < count <= decl.variants.len(),
    ensures
        creators(decl, unit, count).subrange(
            creators(decl, unit, index as nat).len() as int,
            creators(decl, unit, (index + 1) as nat).len() as int,
        ) == creator(decl, decl.variants[index], unit),
    decreases count,
{
    let before = creators(decl, unit, index as nat);
    let made = creator(decl, decl.variants[index], unit);
    if index + 1 == count {
        assert(creators(decl, unit, count) == before + made);
        assert((before + made).subrange(before.len() as int, (before + made).len() as int)
            =~= made);
    } else {
        lemma_constructor_stands(decl, unit, index, (count - 1) as nat);
        let shorter = creators(decl, unit, (count - 1) as nat);
        let longer = creators(decl, unit, count);
        assert(creators(decl, unit, (index + 1) as nat).len() <= shorter.len()) by {
            lemma_creators_grow(decl, unit, (index + 1) as nat, (count - 1) as nat);
        }
        assert(longer.subrange(before.len() as int, (before + made).len() as int)
            =~= shorter.subrange(before.len() as int, (before + made).len() as int));
    }
}

/// The constructors of more variants are no shorter.
proof fn lemma_creators_grow(decl: Declaration, unit: Seq<char>, count: nat, more: nat)
    requires
        count <= more,
    ensures
        creators(decl, unit, count).len() <= creators(decl, unit, more).len(),
    decreases more,
{
    if count < more {
        lemma_creators_grow(decl, unit, count, (more - 1) as nat);
    }
}

/// Appends the constructor of every variant of `ts_enum` to `src`.
pub fn generate(ts_enum: &TSEnum, src: &mut Source)
    ensures
        final(src).unit() == old(src).unit(),
        final(src).text() == old(src).text() + creators(
            ts_enum@,
            old(src).unit(),
            ts_enum@.variants.len(),
        ),
{
    let braced_gen = braced_generic(&ts_enum.generics, None);
    let n: usize = ts_enum.variants.len();
    for i in 0..n
        invariant
            n == ts_enum.variants.len(),
            braced_gen@ == braced(ts_enum@.generics, None),
            src.unit() == old(src).unit(),
            src.text() == old(src).text() + creators(ts_enum@, old(src).unit(), i as nat),
    {
        let t_name = &ts_enum.variants[i].0;
        let contents = &ts_enum.variants[i].1;
        let unit = is_unit_variant(contents);
        let mut item = src.new_with_same_settings();
        item.ln_push("");
        if ts_enum.export {
            item.push("export ");
        }
        proof {
            reveal_strlit("");
            assert(item.text() =~= "\n"@ + export_keyword(ts_enum.export));
        }
        item.push("function ");
        item.push(t_name.as_str());
        item.push(braced_gen.as_str());
        item.push("(");
        let ghost opened = item.text();
        if !unit {
            item.push("contents: ");
            item.push(t_name.as_str());
            item.push(braced_gen.as_str());
        }
        assert(item.text() =~= opened + creator_parameter(ts_enum@, ts_enum@.variants[i as int]));
        item.push("): { ");
        item.push(t_name.as_str());
        item.push(": ");
        item.push(t_name.as_str());
        item.push(braced_gen.as_str());
        item.push(" } {");
        item.ln_push_1("return { ");
        item.push(t_name.as_str());
        if !unit {
            item.push(": contents };");
        } else {
            item.push(": null };");
        }
        item.ln_push("}");
        src.push_source(item);
    }
}

} // verus!
