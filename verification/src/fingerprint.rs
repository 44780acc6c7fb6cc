//! The fingerprint of what a file declares: a hash over the declarations and
//! the two version constants, written in hexadecimal into the header of the
//! generated region.

use std::collections::hash_map::DefaultHasher;
use std::hash::Hasher;
use vstd::bytes::{
    lemma_auto_spec_u64_to_from_le_bytes, spec_u64_from_le_bytes, spec_u64_to_le_bytes,
    u64_to_le_bytes,
};
use vstd::prelude::*;
use vstd::seq_lib::lemma_concat_associative;
use vstd::std_specs::hash::DefaultHasherAdditionalSpecFns;
use vstd::utf8::{
    encode_scalar, encode_utf8, encode_utf8_decode_utf8, last_continuation_byte,
    leading_byte_width_1, leading_byte_width_2, leading_byte_width_3, leading_byte_width_4,
    second_last_continuation_byte, third_last_continuation_byte,
};

use crate::codegen::CODE_GEN_VERSION;
use crate::parser::{Declaration, Declarations, Parsed, TSEnum};

verus! {

/// Bumped whenever the shape of a declaration, as the extractor reads it,
/// changes.
pub const ENUM_STRUCTURE_VERSION: usize = 2;

/// The byte that ends a text: no UTF-8 encoding holds it.
pub const END_OF_TEXT: u8 = 0xFF;

/// A text as it enters the hash: its UTF-8 encoding and the end mark.
pub open spec fn text_code(s: Seq<char>) -> Seq<u8> {
    encode_utf8(s).push(END_OF_TEXT)
}

/// The generics of a declaration as they enter the hash: a zero where there
/// are none, else a one and the text.
pub open spec fn generics_code(generics: Option<Seq<char>>) -> Seq<u8> {
    match generics {
        None => seq![0u8],
        Some(s) => seq![1u8] + text_code(s),
    }
}

/// The variants of a declaration as they enter the hash: a one before each
/// variant's tag and contents, a zero behind the last.
pub open spec fn variants_code(variants: Seq<(Seq<char>, Seq<char>)>) -> Seq<u8>
    decreases variants.len(),
{
    if variants.len() == 0 {
        seq![0u8]
    } else {
        seq![1u8] + text_code(variants[0].0) + text_code(variants[0].1) + variants_code(
            variants.drop_first(),
        )
    }
}

/// The byte that stands for a flag.
pub open spec fn flag_code(flag: bool) -> u8 {
    if flag {
        1u8
    } else {
        0u8
    }
}

/// A declaration as it enters the hash.
pub open spec fn declaration_code(decl: Declaration) -> Seq<u8> {
    text_code(decl.name) + generics_code(decl.generics) + seq![flag_code(decl.export)]
        + variants_code(decl.variants)
}

/// A list of declarations as it enters the hash: a one before each
/// declaration, a zero behind the last.
pub open spec fn declarations_code(enums: Seq<Declaration>) -> Seq<u8>
    decreases enums.len(),
{
    if enums.len() == 0 {
        seq![0u8]
    } else {
        seq![1u8] + declaration_code(enums[0]) + declarations_code(enums.drop_first())
    }
}

/// Two version numbers as they enter the hash: eight bytes each, the low
/// byte first.
pub open spec fn versions_code(structure: u64, code_gen: u64) -> Seq<u8> {
    spec_u64_to_le_bytes(structure) + spec_u64_to_le_bytes(code_gen)
}

/// Everything that would be hashed for a file under the given versions of
/// the declaration shape and of the generated code: its declarations, its
/// indentation unit and the two versions.
pub open spec fn message_under(parsed: Declarations, structure: u64, code_gen: u64) -> Seq<u8> {
    declarations_code(parsed.enums) + text_code(parsed.indent) + versions_code(structure, code_gen)
}

/// Everything that is hashed for a file: its declarations, its indentation
/// unit and the two version constants.
pub open spec fn message(parsed: Declarations) -> Seq<u8> {
    message_under(parsed, ENUM_STRUCTURE_VERSION as u64, CODE_GEN_VERSION as u64)
}

/// The fingerprint of a file: the hash of its message, fed to the hasher in
/// one piece.
pub open spec fn fingerprint_of(parsed: Declarations) -> u64 {
    DefaultHasher::spec_finish(seq![message(parsed)])
}

/// No byte of the UTF-8 encoding of a scalar is the end mark.
proof fn lemma_scalar_bytes(scalar: u32)
    ensures
        leading_byte_width_1(scalar) != END_OF_TEXT,
        leading_byte_width_2(scalar) != END_OF_TEXT,
        leading_byte_width_3(scalar) != END_OF_TEXT,
        leading_byte_width_4(scalar) != END_OF_TEXT,
        last_continuation_byte(scalar) != END_OF_TEXT,
        second_last_continuation_byte(scalar) != END_OF_TEXT,
        third_last_continuation_byte(scalar) != END_OF_TEXT,
{
    assert((scalar & 0x7F) as u8 != 0xFFu8) by (bit_vector);
    assert(0xC0u8 | ((scalar >> 6) & 0x1F) as u8 != 0xFFu8) by (bit_vector);
    assert(0xE0u8 | ((scalar >> 12) & 0x0F) as u8 != 0xFFu8) by (bit_vector);
    assert(0xF0u8 | ((scalar >> 18) & 0x7) as u8 != 0xFFu8) by (bit_vector);
    assert(0x80u8 | (scalar & 0x3F) as u8 != 0xFFu8) by (bit_vector);
    assert(0x80u8 | ((scalar >> 6) & 0x3F) as u8 != 0xFFu8) by (bit_vector);
    assert(0x80u8 | ((scalar >> 12) & 0x3F) as u8 != 0xFFu8) by (bit_vector);
}

/// The UTF-8 encoding of a text never holds the end mark.
proof fn lemma_no_end_mark(s: Seq<char>)
    ensures
        forall|i: int| 0 <= i < encode_utf8(s).len() ==> encode_utf8(s)[i] != END_OF_TEXT,
    decreases s.len(),
{
    if s.len() > 0 {
        let scalar = s[0] as u32;
        let head = encode_scalar(scalar);
        lemma_scalar_bytes(scalar);
        lemma_no_end_mark(s.drop_first());
        assert forall|i: int| 0 <= i < encode_utf8(s).len() implies encode_utf8(s)[i]
            != END_OF_TEXT by {
            if i < head.len() {
                assert(encode_utf8(s)[i] == head[i]);
            } else {
                assert(encode_utf8(s)[i] == encode_utf8(s.drop_first())[i - head.len()]);
            }
        }
    }
}

/// A coded text can be read back from the front of any byte sequence that
/// starts with it: two texts whose codes are followed by anything agree, and
/// so does what follows them, if the two sequences as a whole agree.
proof fn lemma_text_code_unique(a: Seq<char>, b: Seq<char>, after_a: Seq<u8>, after_b: Seq<u8>)
    requires
        text_code(a) + after_a == text_code(b) + after_b,
    ensures
        a == b,
        after_a == after_b,
{
    let bytes_a = encode_utf8(a);
    let bytes_b = encode_utf8(b);
    let left = text_code(a) + after_a;
    let right = text_code(b) + after_b;
    lemma_no_end_mark(a);
    lemma_no_end_mark(b);
    if bytes_a.len() < bytes_b.len() {
        assert(left[bytes_a.len() as int] == END_OF_TEXT);
        assert(right[bytes_a.len() as int] == bytes_b[bytes_a.len() as int]);
    }
    if bytes_b.len() < bytes_a.len() {
        assert(right[bytes_b.len() as int] == END_OF_TEXT);
        assert(left[bytes_b.len() as int] == bytes_a[bytes_b.len() as int]);
    }
    assert(bytes_a.len() == bytes_b.len());
    assert forall|i: int| 0 <= i < bytes_a.len() implies bytes_a[i] == bytes_b[i] by {
        assert(left[i] == bytes_a[i]);
        assert(right[i] == bytes_b[i]);
    }
    assert(bytes_a =~= bytes_b);
    encode_utf8_decode_utf8(a);
    encode_utf8_decode_utf8(b);
    assert(left.len() == right.len());
    assert forall|i: int| 0 <= i < after_a.len() implies after_a[i] == after_b[i] by {
        assert(left[bytes_a.len() + 1 + i] == after_a[i]);
        assert(right[bytes_b.len() + 1 + i] == after_b[i]);
    }
    assert(after_a =~= after_b);
}

/// A byte can be read back from the front of a byte sequence.
proof fn lemma_byte_unique(a: u8, b: u8, after_a: Seq<u8>, after_b: Seq<u8>)
    requires
        seq![a] + after_a == seq![b] + after_b,
    ensures
        a == b,
        after_a == after_b,
{
    let left = seq![a] + after_a;
    let right = seq![b] + after_b;
    assert(left[0] == a);
    assert(right[0] == b);
    assert(left.drop_first() =~= after_a);
    assert(right.drop_first() =~= after_b);
}

/// Coded generics can be read back from the front of a byte sequence.
proof fn lemma_generics_code_unique(
    a: Option<Seq<char>>,
    b: Option<Seq<char>>,
    after_a: Seq<u8>,
    after_b: Seq<u8>,
)
    requires
        generics_code(a) + after_a == generics_code(b) + after_b,
    ensures
        a == b,
        after_a == after_b,
{
    let rest_a = match a {
        Some(text) => text_code(text) + after_a,
        None => after_a,
    };
    let rest_b = match b {
        Some(text) => text_code(text) + after_b,
        None => after_b,
    };
    assert(generics_code(a) + after_a == seq![generics_code(a)[0]] + rest_a) by {
        assert(generics_code(a) + after_a =~= seq![generics_code(a)[0]] + rest_a);
    }
    assert(generics_code(b) + after_b == seq![generics_code(b)[0]] + rest_b) by {
        assert(generics_code(b) + after_b =~= seq![generics_code(b)[0]] + rest_b);
    }
    lemma_byte_unique(generics_code(a)[0], generics_code(b)[0], rest_a, rest_b);
    match (a, b) {
        (Some(text_a), Some(text_b)) => {
            lemma_text_code_unique(text_a, text_b, after_a, after_b);
        },
        _ => {},
    }
}

/// The code of a list of variants that is not empty, and what follows it,
/// taken apart.
proof fn lemma_variants_code_parts(variants: Seq<(Seq<char>, Seq<char>)>, after: Seq<u8>)
    requires
        variants.len() > 0,
    ensures
        variants_code(variants) + after == seq![1u8] + (text_code(variants[0].0) + (text_code(
            variants[0].1,
        ) + (variants_code(variants.drop_first()) + after))),
{
    let tag = text_code(variants[0].0);
    let contents = text_code(variants[0].1);
    let rest = variants_code(variants.drop_first());
    lemma_concat_associative(seq![1u8] + tag + contents, rest, after);
    lemma_concat_associative(seq![1u8] + tag, contents, rest + after);
    lemma_concat_associative(seq![1u8], tag, contents + (rest + after));
}

/// Coded variants can be read back from the front of a byte sequence.
proof fn lemma_variants_code_unique(
    a: Seq<(Seq<char>, Seq<char>)>,
    b: Seq<(Seq<char>, Seq<char>)>,
    after_a: Seq<u8>,
    after_b: Seq<u8>,
)
    requires
        variants_code(a) + after_a == variants_code(b) + after_b,
    ensures
        a == b,
        after_a == after_b,
    decreases a.len(),
{
    if a.len() == 0 && b.len() == 0 {
        lemma_byte_unique(0u8, 0u8, after_a, after_b);
        assert(a =~= b);
    } else if a.len() == 0 {
        lemma_variants_code_parts(b, after_b);
        let rest_b = text_code(b[0].0) + (text_code(b[0].1) + (variants_code(b.drop_first())
            + after_b));
        lemma_byte_unique(0u8, 1u8, after_a, rest_b);
    } else if b.len() == 0 {
        lemma_variants_code_parts(a, after_a);
        let rest_a = text_code(a[0].0) + (text_code(a[0].1) + (variants_code(a.drop_first())
            + after_a));
        lemma_byte_unique(1u8, 0u8, rest_a, after_b);
    } else {
        lemma_variants_code_parts(a, after_a);
        lemma_variants_code_parts(b, after_b);
        let tail_a = variants_code(a.drop_first()) + after_a;
        let tail_b = variants_code(b.drop_first()) + after_b;
        let contents_a = text_code(a[0].1) + tail_a;
        let contents_b = text_code(b[0].1) + tail_b;
        lemma_byte_unique(1u8, 1u8, text_code(a[0].0) + contents_a, text_code(b[0].0) + contents_b);
        lemma_text_code_unique(a[0].0, b[0].0, contents_a, contents_b);
        lemma_text_code_unique(a[0].1, b[0].1, tail_a, tail_b);
        lemma_variants_code_unique(a.drop_first(), b.drop_first(), after_a, after_b);
        assert(a =~= seq![a[0]] + a.drop_first());
        assert(b =~= seq![b[0]] + b.drop_first());
    }
}

/// The code of a declaration, and what follows it, taken apart.
proof fn lemma_declaration_code_parts(decl: Declaration, after: Seq<u8>)
    ensures
        declaration_code(decl) + after == text_code(decl.name) + (generics_code(decl.generics) + (
        seq![flag_code(decl.export)] + (variants_code(decl.variants) + after))),
{
    let name = text_code(decl.name);
    let generics = generics_code(decl.generics);
    let export = seq![flag_code(decl.export)];
    let variants = variants_code(decl.variants);
    lemma_concat_associative(name + generics + export, variants, after);
    lemma_concat_associative(name + generics, export, variants + after);
    lemma_concat_associative(name, generics, export + (variants + after));
}

/// A coded declaration can be read back from the front of a byte sequence.
proof fn lemma_declaration_code_unique(
    a: Declaration,
    b: Declaration,
    after_a: Seq<u8>,
    after_b: Seq<u8>,
)
    requires
        declaration_code(a) + after_a == declaration_code(b) + after_b,
    ensures
        a == b,
        after_a == after_b,
{
    lemma_declaration_code_parts(a, after_a);
    lemma_declaration_code_parts(b, after_b);
    let variants_a = variants_code(a.variants) + after_a;
    let variants_b = variants_code(b.variants) + after_b;
    let export_a = seq![flag_code(a.export)] + variants_a;
    let export_b = seq![flag_code(b.export)] + variants_b;
    lemma_text_code_unique(
        a.name,
        b.name,
        generics_code(a.generics) + export_a,
        generics_code(b.generics) + export_b,
    );
    lemma_generics_code_unique(a.generics, b.generics, export_a, export_b);
    lemma_byte_unique(flag_code(a.export), flag_code(b.export), variants_a, variants_b);
    lemma_variants_code_unique(a.variants, b.variants, after_a, after_b);
}

/// The code of a list of declarations that is not empty, and what follows
/// it, taken apart.
proof fn lemma_declarations_code_parts(enums: Seq<Declaration>, after: Seq<u8>)
    requires
        enums.len() > 0,
    ensures
        declarations_code(enums) + after == seq![1u8] + (declaration_code(enums[0]) + (
        declarations_code(enums.drop_first()) + after)),
{
    let first = declaration_code(enums[0]);
    let rest = declarations_code(enums.drop_first());
    lemma_concat_associative(seq![1u8] + first, rest, after);
    lemma_concat_associative(seq![1u8], first, rest + after);
}

/// A coded list of declarations can be read back from the front of a byte
/// sequence.
proof fn lemma_declarations_code_unique(
    a: Seq<Declaration>,
    b: Seq<Declaration>,
    after_a: Seq<u8>,
    after_b: Seq<u8>,
)
    requires
        declarations_code(a) + after_a == declarations_code(b) + after_b,
    ensures
        a == b,
        after_a == after_b,
    decreases a.len(),
{
    if a.len() == 0 && b.len() == 0 {
        lemma_byte_unique(0u8, 0u8, after_a, after_b);
        assert(a =~= b);
    } else if a.len() == 0 {
        lemma_declarations_code_parts(b, after_b);
        lemma_byte_unique(
            0u8,
            1u8,
            after_a,
            declaration_code(b[0]) + (declarations_code(b.drop_first()) + after_b),
        );
    } else if b.len() == 0 {
        lemma_declarations_code_parts(a, after_a);
        lemma_byte_unique(
            1u8,
            0u8,
            declaration_code(a[0]) + (declarations_code(a.drop_first()) + after_a),
            after_b,
        );
    } else {
        lemma_declarations_code_parts(a, after_a);
        lemma_declarations_code_parts(b, after_b);
        let rest_a = declarations_code(a.drop_first()) + after_a;
        let rest_b = declarations_code(b.drop_first()) + after_b;
        lemma_byte_unique(1u8, 1u8, declaration_code(a[0]) + rest_a, declaration_code(b[0]) + rest_b);
        lemma_declaration_code_unique(a[0], b[0], rest_a, rest_b);
        lemma_declarations_code_unique(a.drop_first(), b.drop_first(), after_a, after_b);
        assert(a =~= seq![a[0]] + a.drop_first());
        assert(b =~= seq![b[0]] + b.drop_first());
    }
}

/// Two version numbers can be read back from their code.
proof fn lemma_versions_code_unique(
    structure_a: u64,
    code_gen_a: u64,
    structure_b: u64,
    code_gen_b: u64,
)
    requires
        versions_code(structure_a, code_gen_a) == versions_code(structure_b, code_gen_b),
    ensures
        structure_a == structure_b,
        code_gen_a == code_gen_b,
{
    lemma_auto_spec_u64_to_from_le_bytes();
    let left = versions_code(structure_a, code_gen_a);
    let right = versions_code(structure_b, code_gen_b);
    assert(left.subrange(0, 8) =~= spec_u64_to_le_bytes(structure_a));
    assert(right.subrange(0, 8) =~= spec_u64_to_le_bytes(structure_b));
    assert(left.subrange(8, 16) =~= spec_u64_to_le_bytes(code_gen_a));
    assert(right.subrange(8, 16) =~= spec_u64_to_le_bytes(code_gen_b));
    assert(spec_u64_from_le_bytes(spec_u64_to_le_bytes(structure_a)) == structure_a);
    assert(spec_u64_from_le_bytes(spec_u64_to_le_bytes(structure_b)) == structure_b);
    assert(spec_u64_from_le_bytes(spec_u64_to_le_bytes(code_gen_a)) == code_gen_a);
    assert(spec_u64_from_le_bytes(spec_u64_to_le_bytes(code_gen_b)) == code_gen_b);
}

/// Two files are hashed to the same message only if they declare the same
/// under the same versions: a change of a name, of a generic list, of an
/// export flag, of a variant's tag or contents, of the number or order of
/// variants or declarations, of the indentation unit, or of one of the two
/// versions changes the message. The fingerprint is the hash of the message,
/// so it changes too unless the hash collides.
pub proof fn lemma_message_injective(
    a: Declarations,
    structure_a: u64,
    code_gen_a: u64,
    b: Declarations,
    structure_b: u64,
    code_gen_b: u64,
)
    requires
        message_under(a, structure_a, code_gen_a) == message_under(b, structure_b, code_gen_b),
    ensures
        a == b,
        structure_a == structure_b,
        code_gen_a == code_gen_b,
{
    let versions_a = versions_code(structure_a, code_gen_a);
    let versions_b = versions_code(structure_b, code_gen_b);
    let tail_a = text_code(a.indent) + versions_a;
    let tail_b = text_code(b.indent) + versions_b;
    lemma_concat_associative(declarations_code(a.enums), text_code(a.indent), versions_a);
    lemma_concat_associative(declarations_code(b.enums), text_code(b.indent), versions_b);
    lemma_declarations_code_unique(a.enums, b.enums, tail_a, tail_b);
    lemma_text_code_unique(a.indent, b.indent, versions_a, versions_b);
    lemma_versions_code_unique(structure_a, code_gen_a, structure_b, code_gen_b);
}

/// Appends `bytes` to `out`.
fn put_bytes(out: &mut Vec<u8>, bytes: &[u8])
    ensures
        final(out)@ == old(out)@ + bytes@,
{
    let n: usize = bytes.len();
    for i in 0..n
        invariant
            n == bytes.len(),
            out@ == old(out)@ + bytes@.take(i as int),
    {
        out.push(bytes[i]);
    }
}

/// Appends the code of `text` to `out`.
fn put_text(out: &mut Vec<u8>, text: &str)
    ensures
        final(out)@ == old(out)@ + text_code(text@),
{
    put_bytes(out, text.as_bytes());
    out.push(END_OF_TEXT);
}

/// Appends the code of a declaration to `out`.
fn put_declaration(out: &mut Vec<u8>, ts_enum: &TSEnum)
    ensures
        final(out)@ == old(out)@ + declaration_code(ts_enum@),
{
    let ghost start = out@;
    put_text(out, ts_enum.name.as_str());
    match &ts_enum.generics {
        None => {
            out.push(0u8);
        },
        Some(generics) => {
            out.push(1u8);
            put_text(out, generics.as_str());
        },
    }
    out.push(if ts_enum.export {
        1u8
    } else {
        0u8
    });
    let ghost head = text_code(ts_enum@.name) + generics_code(ts_enum@.generics) + seq![
        flag_code(ts_enum@.export),
    ];
    let ghost variants = ts_enum@.variants;
    let n: usize = ts_enum.variants.len();
    proof {
        assert(variants.skip(0) =~= variants);
    }
    for i in 0..n
        invariant
            n == ts_enum.variants.len(),
            variants == ts_enum@.variants,
            out@ + variants_code(variants.skip(i as int)) == start + head + variants_code(variants),
    {
        let ghost rest = variants.skip(i as int);
        out.push(1u8);
        put_text(out, ts_enum.variants[i].0.as_str());
        put_text(out, ts_enum.variants[i].1.as_str());
        proof {
            assert(rest.drop_first() =~= variants.skip(i + 1));
        }
    }
    out.push(0u8);
    proof {
        assert(start + head + variants_code(variants) =~= start + declaration_code(ts_enum@));
    }
}

/// The bytes that are hashed for `parsed`.
pub fn message_bytes(parsed: &Parsed) -> (out: Vec<u8>)
    ensures
        out@ == message(parsed@),
{
    let mut out: Vec<u8> = Vec::new();
    let ghost enums = parsed@.enums;
    let n: usize = parsed.enums.len();
    proof {
        assert(enums.skip(0) =~= enums);
    }
    for i in 0..n
        invariant
            n == parsed.enums.len(),
            enums == parsed@.enums,
            out@ + declarations_code(enums.skip(i as int)) == declarations_code(enums),
    {
        let ghost rest = enums.skip(i as int);
        out.push(1u8);
        put_declaration(&mut out, &parsed.enums[i]);
        proof {
            assert(rest.drop_first() =~= enums.skip(i + 1));
        }
    }
    out.push(0u8);
    put_text(&mut out, parsed.indent.as_str());
    let structure = u64_to_le_bytes(ENUM_STRUCTURE_VERSION as u64);
    put_bytes(&mut out, structure.as_slice());
    let code_gen = u64_to_le_bytes(CODE_GEN_VERSION as u64);
    put_bytes(&mut out, code_gen.as_slice());
    out
}

/// Hashes what `parsed` declares, together with the two version constants.
/// Equal declarations always give the same fingerprint.
pub fn fingerprint(parsed: &Parsed) -> (hash: u64)
    ensures
        hash == fingerprint_of(parsed@),
{
    let bytes = message_bytes(parsed);
    let mut hasher = DefaultHasher::new();
    hasher.write(bytes.as_slice());
    hasher.finish()
}

/// The hexadecimal digit for a value below sixteen, in lower case.
pub open spec fn hex_digit(value: nat) -> char {
    if value < 10 {
        (('0' as u8) + value) as char
    } else {
        (('a' as u8) + (value - 10)) as char
    }
}

/// A number in hexadecimal, in lower case and without leading zeros.
pub open spec fn hex(n: nat) -> Seq<char>
    decreases n,
{
    if n < 16 {
        seq![hex_digit(n)]
    } else {
        hex(n / 16).push(hex_digit(n % 16))
    }
}

/// Different values below sixteen have different digits.
proof fn lemma_hex_digit_unique(a: nat, b: nat)
    requires
        a < 16,
        b < 16,
        hex_digit(a) == hex_digit(b),
    ensures
        a == b,
{
}

/// A number in hexadecimal has at least one digit.
proof fn lemma_hex_nonempty(n: nat)
    ensures
        hex(n).len() >= 1,
    decreases n,
{
    if n >= 16 {
        lemma_hex_nonempty(n / 16);
    }
}

/// Different numbers are written differently.
pub proof fn lemma_hex_unique(a: nat, b: nat)
    requires
        hex(a) == hex(b),
    ensures
        a == b,
    decreases a,
{
    lemma_hex_nonempty(a / 16);
    lemma_hex_nonempty(b / 16);
    assert(hex(a).last() == hex_digit(a % 16));
    assert(hex(b).last() == hex_digit(b % 16));
    lemma_hex_digit_unique(a % 16, b % 16);
    if a >= 16 && b >= 16 {
        assert(hex(a).drop_last() =~= hex(a / 16));
        assert(hex(b).drop_last() =~= hex(b / 16));
        lemma_hex_unique(a / 16, b / 16);
    } else if a >= 16 {
        assert(hex(a).len() >= 2);
        assert(hex(b).len() == 1);
    } else if b >= 16 {
        assert(hex(b).len() >= 2);
        assert(hex(a).len() == 1);
    }
}

/// Appends `n` in hexadecimal to `out`.
pub fn push_hex(out: &mut String, n: u64)
    ensures
        final(out)@ == old(out)@ + hex(n as nat),
    decreases n,
{
    if n >= 16 {
        push_hex(out, n / 16);
    }
    let digit: u8 = (n % 16) as u8;
    let c: char = if digit < 10 {
        (48u8 + digit) as char
    } else {
        (97u8 + (digit - 10)) as char
    };
    out.push(c);
}

} // verus!
