//! One type alias per variant, naming the variant's contents type.

use vstd::prelude::*;

use crate::codegen::{braced, braced_generic, export_keyword, Source};
use crate::parser::{Declaration, TSEnum};

verus! {

/// The alias of one variant: `type <Tag><Generics> = <contents>;` on a line
/// of its own.
pub open spec fn alias(decl: Declaration, variant: (Seq<char>, Seq<char>)) -> Seq<char> {
    "\n"@ + export_keyword(decl.export) + "type "@ + variant.0 + braced(decl.generics, None)
        + " = "@ + variant.1 + ";"@
}

/// The aliases of the first `count` variants, in declaration order.
pub open spec fn aliases(decl: Declaration, count: nat) -> Seq<char>
    decreases count,
{
    if count == 0 {
        Seq::empty()
    } else {
        aliases(decl, (count - 1) as nat) + alias(decl, decl.variants[count - 1])
    }
}

/// Appends the aliases of every variant of `ts_enum` to `src`.
pub fn generate(ts_enum: &TSEnum, src: &mut Source)
    ensures
        final(src).unit() == old(src).unit(),
        final(src).text() == old(src).text() + aliases(ts_enum@, ts_enum@.variants.len()),
{
    let braced_gen = braced_generic(&ts_enum.generics, None);
    let n: usize = ts_enum.variants.len();
    for i in 0..n
        invariant
            n == ts_enum.variants.len(),
            braced_gen@ == braced(ts_enum@.generics, None),
            src.unit() == old(src).unit(),
            src.text() == old(src).text() + aliases(ts_enum@, i as nat),
    {
        let t_name = &ts_enum.variants[i].0;
        let contents = &ts_enum.variants[i].1;
        src.ln_push("");
        if ts_enum.export {
            src.push("export ");
        }
        src.push("type ");
        src.push(t_name.as_str());
        src.push(braced_gen.as_str());
        src.push(" = ");
        src.push(contents.as_str());
        src.push(";");
        proof {
            reveal_strlit("");
        }
    }
}

} // verus!
