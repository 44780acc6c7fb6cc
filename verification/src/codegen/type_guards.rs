//! One type guard per variant: it tells whether a value carries the
//! variant's tag.

use vstd::prelude::*;

use crate::codegen::{braced, braced_generic, export_keyword, Source};
use crate::parser::{Declaration, TSEnum};
use crate::text::{holds, holds_at};

verus! {

/// The type guard of one variant, written for the indentation unit `unit`.
/// The test is on the presence of the tag, not on the shape of the contents.
pub open spec fn guard(decl: Declaration, variant: (Seq<char>, Seq<char>), unit: Seq<char>) -> Seq<
    char,
> {
    let generics = braced(decl.generics, None);
    "\n"@ + export_keyword(decl.export) + "function is"@ + variant.0 + generics + "("@ + "item: "@
        + decl.name + generics + "): item is { "@ + variant.0 + ": "@ + variant.0 + generics
        + " } {"@ + "\n"@ + unit + "return item != null && \""@ + variant.0 + "\" in item;"@ + "\n"@
        + "}"@
}

/// The type guards of the first `count` variants, in declaration order.
pub open spec fn guards(decl: Declaration, unit: Seq<char>, count: nat) -> Seq<char>
    decreases count,
{
    if count == 0 {
        Seq::empty()
    } else {
        guards(decl, unit, (count - 1) as nat) + guard(decl, decl.variants[count - 1], unit)
    }
}

/// Every variant has its type guard: the guard of the variant at `index`
/// stands among the guards of a declaration, behind those of the variants
/// declared before it.
pub proof fn lemma_guard_of_every_variant(
    decl: Declaration,
    unit: Seq<char>,
    index: int,
    count: nat,
)
    requires
        0 <= index < count <= decl.variants.len(),
    ensures
        guards(decl, unit, count).subrange(
            guards(decl, unit, index as nat).len() as int,
            guards(decl, unit, (index + 1) as nat).len() as int,
        ) == guard(decl, decl.variants[index], unit),
        holds(guards(decl, unit, count), guard(decl, decl.variants[index], unit)),
    decreases count,
{
    let before = guards(decl, unit, index as nat);
    let made = guard(decl, decl.variants[index], unit);
    lemma_guards_grow(decl, unit, (index + 1) as nat, count);
    assert(guards(decl, unit, (index + 1) as nat) == before + made);
    assert(holds_at(guards(decl, unit, count), made, before.len() as int)) by {
        lemma_guard_stands(decl, unit, index, count);
    }
}

/// The guard of the variant at `index` stands behind the guards of the
/// variants before it.
proof fn lemma_guard_stands(decl: Declaration, unit: Seq<char>, index: int, count: nat)
    requires
        0 <= index < count <= decl.variants.len(),
    ensures
        guards(decl, unit, count).subrange(
            guards(decl, unit, index as nat).len() as int,
            guards(decl, unit, (index + 1) as nat).len() as int,
        ) == guard(decl, decl.variants[index], unit),
    decreases count,
{
    let before = guards(decl, unit, index as nat);
    let made = guard(decl, decl.variants[index], unit);
    if index + 1 == count {
        assert(guards(decl, unit, count) == before + made);
        assert((before + made).subrange(before.len() as int, (before + made).len() as int)
            =~= made);
    } else {
        lemma_guard_stands(decl, unit, index, (count - 1) as nat);
        let shorter = guards(decl, unit, (count - 1) as nat);
        let longer = guards(decl, unit, count);
        assert(guards(decl, unit, (index + 1) as nat).len() <= shorter.len()) by {
            lemma_guards_grow(decl, unit, (index + 1) as nat, (count - 1) as nat);
        }
        assert(longer.subrange(before.len() as int, (before + made).len() as int)
            =~= shorter.subrange(before.len() as int, (before + made).len() as int));
    }
}

/// The guards of more variants are no shorter.
proof fn lemma_guards_grow(decl: Declaration, unit: Seq<char>, count: nat, more: nat)
    requires
        count <= more,
    ensures
        guards(decl, unit, count).len() <= guards(decl, unit, more).len(),
    decreases more,
{
    if count < more {
        lemma_guards_grow(decl, unit, count, (more - 1) as nat);
    }
}

/// Appends the type guard of every variant of `ts_enum` to `src`.
pub fn generate(ts_enum: &TSEnum, src: &mut Source)
    ensures
        final(src).unit() == old(src).unit(),
        final(src).text() == old(src).text() + guards(
            ts_enum@,
            old(src).unit(),
            ts_enum@.variants.len(),
        ),
{
    let braced_gen = braced_generic(&ts_enum.generics, None);
    let n: usize = ts_enum.variants.len();
    for i in 0..n
        invariant
            n == ts_enum.variants.len(),
            braced_gen@ == braced(ts_enum@.generics, None),
            src.unit() == old(src).unit(),
            src.text() == old(src).text() + guards(ts_enum@, old(src).unit(), i as nat),
    {
        let t_name = &ts_enum.variants[i].0;
        let mut item = src.new_with_same_settings();
        item.ln_push("");
        if ts_enum.export {
            item.push("export ");
        }
        proof {
            reveal_strlit("");
            assert(item.text() =~= "\n"@ + export_keyword(ts_enum.export));
        }
        item.push("function is");
        item.push(t_name.as_str());
        item.push(braced_gen.as_str());
        item.push("(");
        item.push("item: ");
        item.push(ts_enum.name.as_str());
        item.push(braced_gen.as_str());
        item.push("): item is { ");
        item.push(t_name.as_str());
        item.push(": ");
        item.push(t_name.as_str());
        item.push(braced_gen.as_str());
        item.push(" } {");
        item.ln_push_1("return item != null && \"");
        item.push(t_name.as_str());
        item.push("\" in item;");
        item.ln_push("}");
        src.push_source(item);
    }
}

} // verus!
