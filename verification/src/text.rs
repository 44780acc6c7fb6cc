//! Text utilities on which the extractor, the generator and the rewrite
//! engine are built: characters and lines, re-indenting and trimming, and
//! the byte offsets of a UTF-8 text.

use vstd::prelude::*;
use vstd::string::StringExecFns;
use vstd::utf8::{
    decode_utf8, encode_utf8, encode_utf8_decode_utf8, encode_utf8_valid_utf8, is_char_boundary,
    is_char_boundary_iff_not_is_continuation_byte, is_char_boundary_start_end_of_seq, valid_utf8,
    valid_utf8_split,
};

verus! {

/// `String::push` of the standard library appends the character at the end
/// of the string and changes nothing else. Verus takes this on trust.
pub assume_specification[ String::push ](s: &mut String, ch: char)
    ensures
        final(s)@ == old(s)@.push(ch),
;

/// Whether two string slices hold the same characters.
pub fn same_text(a: &str, b: &str) -> (same: bool)
    ensures
        same == (a@ == b@),
{
    String::from_str(a) == String::from_str(b)
}

/// The characters of `s`, one by one.
pub fn to_chars(s: &str) -> (chars: Vec<char>)
    ensures
        chars@ == s@,
{
    let mut chars: Vec<char> = Vec::new();
    for c in it: s.chars()
        invariant
            it.seq() == s@,
            chars@ == s@.take(it.index()),
    {
        chars.push(c);
    }
    chars
}

/// The string made of `chars[from..to]`.
pub fn string_of(chars: &Vec<char>, from: usize, to: usize) -> (out: String)
    requires
        from <= to <= chars.len(),
    ensures
        out@ == chars@.subrange(from as int, to as int),
{
    let mut out = String::new();
    let mut i: usize = from;
    while i < to
        invariant
            from <= i <= to <= chars.len(),
            out@ == chars@.subrange(from as int, i as int),
        decreases to - i,
    {
        out.push(chars[i]);
        i += 1;
    }
    out
}

/// The text `s` with `pad` inserted after every line break.
pub open spec fn reindent(s: Seq<char>, pad: Seq<char>) -> Seq<char>
    decreases s.len(),
{
    if s.len() == 0 {
        Seq::empty()
    } else if s.last() == '\n' {
        reindent(s.drop_last(), pad) + seq!['\n'] + pad
    } else {
        reindent(s.drop_last(), pad).push(s.last())
    }
}

/// Re-indenting goes through a text piece by piece: what is joined and then
/// re-indented is what is re-indented and then joined.
pub proof fn lemma_reindent_concat(a: Seq<char>, b: Seq<char>, pad: Seq<char>)
    ensures
        reindent(a + b, pad) == reindent(a, pad) + reindent(b, pad),
    decreases b.len(),
{
    if b.len() == 0 {
        assert(a + b =~= a);
    } else {
        assert((a + b).drop_last() =~= a + b.drop_last());
        lemma_reindent_concat(a, b.drop_last(), pad);
    }
}

/// Whether `part` stands in `text` at the position `at`.
pub open spec fn holds_at(text: Seq<char>, part: Seq<char>, at: int) -> bool {
    0 <= at && at + part.len() <= text.len() && text.subrange(at, at + part.len()) == part
}

/// Whether `part` stands somewhere in `text`, character for character.
pub open spec fn holds(text: Seq<char>, part: Seq<char>) -> bool {
    exists|at: int| holds_at(text, part, at)
}

/// A text holds what it was joined of.
pub proof fn lemma_holds_joined(before: Seq<char>, part: Seq<char>, after: Seq<char>)
    ensures
        holds_at(before + part + after, part, before.len() as int),
        holds(before + part + after, part),
{
    assert((before + part + after).subrange(
        before.len() as int,
        before.len() as int + part.len(),
    ) =~= part);
}

/// What stands in a part of a text stands in the text.
pub proof fn lemma_holds_within(text: Seq<char>, part: Seq<char>, piece: Seq<char>)
    requires
        holds(text, part),
        holds(part, piece),
    ensures
        holds(text, piece),
{
    let outer = choose|at: int| holds_at(text, part, at);
    let inner = choose|at: int| holds_at(part, piece, at);
    assert(text.subrange(outer + inner, outer + inner + piece.len()) =~= text.subrange(
        outer,
        outer + part.len(),
    ).subrange(inner, inner + piece.len()));
    assert(holds_at(text, piece, outer + inner));
}

/// What a text holds is still held when more is joined to the text, and so
/// is what is joined.
pub proof fn lemma_holds_extended(text: Seq<char>, more: Seq<char>, part: Seq<char>)
    ensures
        holds(text + more, more),
        holds(text, part) ==> holds(text + more, part),
{
    assert(holds_at(text + more, more, text.len() as int)) by {
        assert((text + more).subrange(text.len() as int, text.len() as int + more.len())
            =~= more);
    }
    if holds(text, part) {
        let at = choose|at: int| holds_at(text, part, at);
        assert(holds_at(text + more, part, at)) by {
            assert((text + more).subrange(at, at + part.len()) =~= text.subrange(
                at,
                at + part.len(),
            ));
        }
    }
}

/// A text that holds an opening, an inner part and a closing in a row holds
/// the inner part behind its first character, if the opening is not empty.
pub proof fn lemma_holds_inner(
    text: Seq<char>,
    opening: Seq<char>,
    inner: Seq<char>,
    closing: Seq<char>,
)
    requires
        holds(text, opening + inner + closing),
        opening.len() > 0,
    ensures
        holds(text.drop_first(), inner),
{
    let whole = opening + inner + closing;
    let at = choose|at: int| holds_at(text, whole, at);
    let inside = at + opening.len() - 1;
    assert(text.drop_first().subrange(inside, inside + inner.len()) =~= whole.subrange(
        opening.len() as int,
        opening.len() as int + inner.len(),
    ));
    assert(whole.subrange(opening.len() as int, opening.len() as int + inner.len()) =~= inner);
    assert(holds_at(text.drop_first(), inner, inside));
}

/// Where a text holds a part, the re-indented text holds the re-indented
/// part.
pub proof fn lemma_holds_reindented(text: Seq<char>, part: Seq<char>, pad: Seq<char>)
    requires
        holds(text, part),
    ensures
        holds(reindent(text, pad), reindent(part, pad)),
{
    let at = choose|at: int| holds_at(text, part, at);
    let before = text.subrange(0, at);
    let after = text.subrange(at + part.len(), text.len() as int);
    assert(text =~= before + part + after);
    lemma_reindent_concat(before + part, after, pad);
    lemma_reindent_concat(before, part, pad);
    lemma_holds_joined(reindent(before, pad), reindent(part, pad), reindent(after, pad));
}

/// Copies `s`, putting `pad` after every line break.
pub fn reindented(s: &str, pad: &str) -> (out: String)
    ensures
        out@ == reindent(s@, pad@),
{
    let mut out = String::new();
    for c in it: s.chars()
        invariant
            it.seq() == s@,
            out@ == reindent(s@.take(it.index()), pad@),
    {
        proof {
            let n = it.index();
            assert(s@.take(n + 1).drop_last() =~= s@.take(n));
        }
        out.push(c);
        if c == '\n' {
            out.append(pad);
        }
    }
    proof {
        assert(s@.take(s@.len() as int) =~= s@);
    }
    out
}

/// The characters with the Unicode property `White_Space`: what `trim`
/// removes at both ends of a text.
pub open spec fn is_whitespace(c: char) -> bool {
    let code = c as u32;
    ||| 0x09 <= code <= 0x0D
    ||| code == 0x20
    ||| code == 0x85
    ||| code == 0xA0
    ||| code == 0x1680
    ||| 0x2000 <= code <= 0x200A
    ||| code == 0x2028
    ||| code == 0x2029
    ||| code == 0x202F
    ||| code == 0x205F
    ||| code == 0x3000
}

/// Whether `c` is a whitespace character.
pub fn is_space(c: char) -> (space: bool)
    ensures
        space == is_whitespace(c),
{
    let code: u32 = c as u32;
    (0x09 <= code && code <= 0x0D) || code == 0x20 || code == 0x85 || code == 0xA0 || code
        == 0x1680 || (0x2000 <= code && code <= 0x200A) || code == 0x2028 || code == 0x2029 || code
        == 0x202F || code == 0x205F || code == 0x3000
}

/// `s` without the whitespace at its start.
pub open spec fn trim_start(s: Seq<char>) -> Seq<char>
    decreases s.len(),
{
    if s.len() > 0 && is_whitespace(s[0]) {
        trim_start(s.drop_first())
    } else {
        s
    }
}

/// `s` without the whitespace at its end.
pub open spec fn trim_end(s: Seq<char>) -> Seq<char>
    decreases s.len(),
{
    if s.len() > 0 && is_whitespace(s.last()) {
        trim_end(s.drop_last())
    } else {
        s
    }
}

/// `s` without the whitespace at its start and at its end.
pub open spec fn trim(s: Seq<char>) -> Seq<char> {
    trim_end(trim_start(s))
}

/// Skipping a run of whitespace at the start of `s` is part of trimming it.
proof fn lemma_trim_start_skip(s: Seq<char>, n: int)
    requires
        0 <= n <= s.len(),
        forall|k: int| 0 <= k < n ==> is_whitespace(s[k]),
    ensures
        trim_start(s) == trim_start(s.skip(n)),
    decreases n,
{
    if n == 0 {
        assert(s.skip(0) =~= s);
    } else {
        assert(s.drop_first().skip(n - 1) =~= s.skip(n));
        lemma_trim_start_skip(s.drop_first(), n - 1);
    }
}

/// Dropping a run of whitespace at the end of `s` is part of trimming it.
proof fn lemma_trim_end_take(s: Seq<char>, n: int)
    requires
        0 <= n <= s.len(),
        forall|k: int| n <= k < s.len() ==> is_whitespace(s[k]),
    ensures
        trim_end(s) == trim_end(s.take(n)),
    decreases s.len() - n,
{
    if n == s.len() {
        assert(s.take(n) =~= s);
    } else {
        assert(s.drop_last().take(n) =~= s.take(n));
        lemma_trim_end_take(s.drop_last(), n);
    }
}

/// Copies `s` without the whitespace at its two ends.
pub fn trimmed(s: &str) -> (out: String)
    ensures
        out@ == trim(s@),
{
    let chars = to_chars(s);
    let n: usize = chars.len();
    let mut from: usize = 0;
    while from < n && is_space(chars[from])
        invariant
            n == chars.len(),
            from <= n,
            forall|k: int| 0 <= k < from ==> is_whitespace(chars[k]),
        decreases n - from,
    {
        from += 1;
    }
    let mut to: usize = n;
    while from < to && is_space(chars[to - 1])
        invariant
            n == chars.len(),
            from <= to <= n,
            forall|k: int| to <= k < n ==> is_whitespace(chars[k]),
        decreases to,
    {
        to -= 1;
    }
    proof {
        let rest = s@.skip(from as int);
        lemma_trim_start_skip(s@, from as int);
        lemma_trim_end_take(rest, to - from);
    }
    string_of(&chars, from, to)
}

/// The character sequences of a list of strings.
pub open spec fn texts(strings: Seq<String>) -> Seq<Seq<char>> {
    Seq::new(strings.len(), |i: int| strings[i]@)
}

/// The position of the first line break of `s`, or its length where it has
/// none.
pub open spec fn first_break(s: Seq<char>) -> int
    decreases s.len(),
{
    if s.len() == 0 || s[0] == '\n' {
        0
    } else {
        1 + first_break(s.drop_first())
    }
}

/// The first line break lies within the text, or at its end.
pub proof fn lemma_first_break_bounds(s: Seq<char>)
    ensures
        0 <= first_break(s) <= s.len(),
        first_break(s) < s.len() ==> s[first_break(s)] == '\n',
        forall|j: int| 0 <= j < first_break(s) ==> s[j] != '\n',
    decreases s.len(),
{
    if s.len() == 0 || s[0] == '\n' {
    } else {
        lemma_first_break_bounds(s.drop_first());
        assert forall|j: int| 0 <= j < first_break(s) implies s[j] != '\n' by {
            if j > 0 {
                assert(s[j] == s.drop_first()[j - 1]);
            }
        }
    }
}

/// The first line break of `s` is at `k` when a line break stands there, or
/// `s` ends there, and none stands before.
proof fn lemma_first_break(s: Seq<char>, k: int)
    requires
        0 <= k <= s.len(),
        forall|j: int| 0 <= j < k ==> s[j] != '\n',
        k < s.len() ==> s[k] == '\n',
    ensures
        first_break(s) == k,
    decreases k,
{
    if k > 0 {
        lemma_first_break(s.drop_first(), k - 1);
    }
}

/// A line without the carriage return that stood before its line break.
pub open spec fn without_return(line: Seq<char>) -> Seq<char> {
    if line.len() > 0 && line.last() == '\r' {
        line.drop_last()
    } else {
        line
    }
}

/// The lines of `s`. A line ends at a line feed, or at a carriage return and
/// a line feed, neither of which belongs to it; the last line needs no line
/// ending, and an empty text has no line.
pub open spec fn lines(s: Seq<char>) -> Seq<Seq<char>>
    decreases s.len(),
{
    if s.len() == 0 {
        Seq::empty()
    } else {
        let k = first_break(s);
        if k >= s.len() {
            seq![s]
        } else {
            proof {
                lemma_first_break_bounds(s);
            }
            seq![without_return(s.take(k))] + lines(s.skip(k + 1))
        }
    }
}

/// Splits `s` into its lines.
pub fn split_lines(s: &str) -> (out: Vec<String>)
    ensures
        texts(out@) == lines(s@),
{
    let chars = to_chars(s);
    let n: usize = chars.len();
    let mut out: Vec<String> = Vec::new();
    let mut pos: usize = 0;
    proof {
        assert(s@.skip(0) =~= s@);
    }
    while pos < n
        invariant
            n == chars.len(),
            chars@ == s@,
            pos <= n,
            texts(out@) + lines(s@.skip(pos as int)) == lines(s@),
        decreases n - pos,
    {
        let ghost rest = s@.skip(pos as int);
        let mut k: usize = pos;
        while k < n && chars[k] != '\n'
            invariant
                n == chars.len(),
                pos <= k <= n,
                forall|j: int| pos <= j < k ==> chars[j] != '\n',
            decreases n - k,
        {
            k += 1;
        }
        proof {
            lemma_first_break(rest, k - pos);
        }
        if k == n {
            out.push(string_of(&chars, pos, n));
            pos = n;
        } else {
            let end: usize = if k > pos && chars[k - 1] == '\r' {
                (k - 1) as usize
            } else {
                k
            };
            out.push(string_of(&chars, pos, end));
            proof {
                assert(s@.subrange(pos as int, end as int) =~= without_return(rest.take(k - pos)));
                assert(rest.skip(k - pos + 1) =~= s@.skip(k + 1));
            }
            pos = k + 1;
        }
    }
    out
}

/// Whether the byte offsets `start` and `end` delimit a run of whole
/// characters in the UTF-8 encoding of `text`.
pub open spec fn on_boundaries(text: Seq<char>, start: int, end: int) -> bool {
    let bytes = encode_utf8(text);
    &&& 0 <= start <= end <= bytes.len()
    &&& is_char_boundary(bytes, start)
    &&& is_char_boundary(bytes, end)
}

/// The characters that the bytes `start..end` of the UTF-8 encoding of
/// `text` hold.
pub open spec fn byte_slice(text: Seq<char>, start: int, end: int) -> Seq<char> {
    decode_utf8(encode_utf8(text).subrange(start, end))
}

/// A character boundary of a text is one of each prefix that reaches it.
proof fn lemma_boundary_in_prefix(bytes: Seq<u8>, start: int, end: int)
    requires
        valid_utf8(bytes),
        0 <= start <= end <= bytes.len(),
        is_char_boundary(bytes, start),
        is_char_boundary(bytes, end),
    ensures
        valid_utf8(bytes.subrange(0, end)),
        is_char_boundary(bytes.subrange(0, end), start),
{
    let prefix = bytes.subrange(0, end);
    valid_utf8_split(bytes, end);
    if start == end {
        is_char_boundary_start_end_of_seq(prefix);
    } else {
        is_char_boundary_iff_not_is_continuation_byte(bytes, start);
        is_char_boundary_iff_not_is_continuation_byte(prefix, start);
    }
}

/// The start and the end of a text are character boundaries.
pub proof fn lemma_ends_are_boundaries(text: Seq<char>)
    ensures
        on_boundaries(text, 0, 0),
        on_boundaries(text, encode_utf8(text).len() as int, encode_utf8(text).len() as int),
{
    encode_utf8_valid_utf8(text);
    is_char_boundary_start_end_of_seq(encode_utf8(text));
}

/// The part of `text` between two byte offsets that lie on character
/// boundaries.
pub fn slice<'a>(text: &'a str, start: usize, end: usize) -> (part: &'a str)
    requires
        on_boundaries(text@, start as int, end as int),
    ensures
        part@ == byte_slice(text@, start as int, end as int),
        encode_utf8(part@) == encode_utf8(text@).subrange(start as int, end as int),
{
    proof {
        encode_utf8_valid_utf8(text@);
        lemma_boundary_in_prefix(encode_utf8(text@), start as int, end as int);
    }
    let (head, _) = text.split_at(end);
    let (_, part) = head.split_at(start);
    proof {
        assert(encode_utf8(part@) =~= encode_utf8(text@).subrange(start as int, end as int));
        encode_utf8_decode_utf8(part@);
    }
    part
}

/// The encoding of two texts in a row is the encoding of the first and then
/// that of the second.
pub proof fn lemma_encode_concat(a: Seq<char>, b: Seq<char>)
    ensures
        encode_utf8(a + b) == encode_utf8(a) + encode_utf8(b),
    decreases a.len(),
{
    if a.len() == 0 {
        assert(a + b =~= b);
        assert(encode_utf8(a) + encode_utf8(b) =~= encode_utf8(b));
    } else {
        assert((a + b).drop_first() =~= a.drop_first() + b);
        lemma_encode_concat(a.drop_first(), b);
        assert(encode_utf8(a + b) =~= encode_utf8(a) + encode_utf8(b));
    }
}

/// Whether `needle` stands in `hay` at the offset `at`.
pub open spec fn occurs_at(needle: Seq<u8>, hay: Seq<u8>, at: int) -> bool {
    0 <= at && at + needle.len() <= hay.len() && hay.subrange(at, at + needle.len()) == needle
}

/// Whether `needle` stands somewhere in `hay`.
pub open spec fn occurs(needle: Seq<u8>, hay: Seq<u8>) -> bool {
    exists|at: int| occurs_at(needle, hay, at)
}

/// Whether `needle` stands in `hay` at the offset `at`.
fn found_at(hay: &[u8], needle: &[u8], at: usize) -> (found: bool)
    requires
        at + needle.len() <= hay.len(),
    ensures
        found == occurs_at(needle@, hay@, at as int),
{
    let m: usize = needle.len();
    let mut j: usize = 0;
    while j < m
        invariant
            m == needle.len(),
            at + m <= hay.len(),
            j <= m,
            forall|k: int| 0 <= k < j ==> hay[at + k] == needle[k],
        decreases m - j,
    {
        if hay[at + j] != needle[j] {
            return false;
        }
        j += 1;
    }
    assert(hay@.subrange(at as int, at + m) =~= needle@);
    true
}

/// Whether the bytes `needle` stand somewhere in `hay`.
pub fn contains_bytes(hay: &[u8], needle: &[u8]) -> (found: bool)
    ensures
        found == occurs(needle@, hay@),
{
    let n: usize = hay.len();
    let m: usize = needle.len();
    if m > n {
        return false;
    }
    let last: usize = n - m;
    let mut at: usize = 0;
    loop
        invariant
            n == hay.len(),
            m == needle.len(),
            m <= n,
            last == n - m,
            at <= last,
            forall|k: int| 0 <= k < at ==> !occurs_at(needle@, hay@, k),
        decreases last - at,
    {
        if found_at(hay, needle, at) {
            return true;
        }
        if at == last {
            return false;
        }
        at += 1;
    }
}

} // verus!
