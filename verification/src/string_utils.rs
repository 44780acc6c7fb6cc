//! The position mapper: from byte offsets in a text to lines and columns.

use vstd::prelude::*;
use vstd::utf8::encode_utf8;

verus! {

/// A place in a text. Lines and columns are counted from one, columns in
/// bytes.
#[derive(Debug, Clone, Copy, PartialEq, Eq)]
pub struct Position {
    pub line: usize,
    pub col: usize,
}

/// The byte that ends a line.
pub const LINE_FEED: u8 = 10;

/// How many line feeds stand among the first `offset` bytes.
pub open spec fn breaks_before(bytes: Seq<u8>, offset: int) -> int
    decreases offset,
{
    if offset <= 0 {
        0
    } else if bytes[offset - 1] == LINE_FEED {
        breaks_before(bytes, offset - 1) + 1
    } else {
        breaks_before(bytes, offset - 1)
    }
}

/// Where the line that holds the byte at `offset` starts: behind the last
/// line feed before `offset`, or at the start of the text.
pub open spec fn line_start(bytes: Seq<u8>, offset: int) -> int
    decreases offset,
{
    if offset <= 0 {
        0
    } else if bytes[offset - 1] == LINE_FEED {
        offset
    } else {
        line_start(bytes, offset - 1)
    }
}

/// The line of the byte at `offset`, counted from one.
pub open spec fn line_of(bytes: Seq<u8>, offset: int) -> int {
    breaks_before(bytes, offset) + 1
}

/// The column of the byte at `offset`, counted from one.
pub open spec fn column_of(bytes: Seq<u8>, offset: int) -> int {
    offset - line_start(bytes, offset) + 1
}

/// Two offsets with no line feed between them lie on one line.
proof fn lemma_same_line(bytes: Seq<u8>, from: int, to: int)
    requires
        0 <= from <= to <= bytes.len(),
        forall|j: int| from <= j < to ==> bytes[j] != LINE_FEED,
    ensures
        breaks_before(bytes, to) == breaks_before(bytes, from),
        line_start(bytes, to) == line_start(bytes, from),
    decreases to - from,
{
    if from < to {
        lemma_same_line(bytes, from, to - 1);
    }
}

/// Whether the place `from` lies before the place `to`, or is the same.
pub open spec fn not_behind(from: Position, to: Position) -> bool {
    from.line < to.line || (from.line == to.line && from.col <= to.col)
}

/// Places keep the order of their offsets: a later offset lies on a later
/// line, or on the same line at a column that is no smaller.
pub proof fn lemma_places_in_order(bytes: Seq<u8>, from: int, to: int)
    requires
        0 <= from <= to <= bytes.len(),
    ensures
        line_of(bytes, from) <= line_of(bytes, to),
        line_of(bytes, from) == line_of(bytes, to) ==> column_of(bytes, from) <= column_of(
            bytes,
            to,
        ),
    decreases to - from,
{
    if from < to {
        lemma_places_in_order(bytes, from, to - 1);
    }
}

/// The line starts of a text, found in one pass over it.
pub struct StringPositions<'a> {
    text: &'a str,
    line_starts: Vec<usize>,
}

impl<'a> StringPositions<'a> {
    /// The bytes of the text that was scanned.
    pub closed spec fn bytes(&self) -> Seq<u8> {
        encode_utf8(self.text@)
    }

    /// The table holds the start of every line, in order: the start of the
    /// text, and the place behind each line feed.
    #[verifier::type_invariant]
    spec fn well_formed(&self) -> bool {
        let bytes = encode_utf8(self.text@);
        let starts = self.line_starts@;
        &&& bytes.len() < usize::MAX
        &&& starts.len() >= 1
        &&& starts[0] == 0
        &&& forall|k: int| 0 <= k < starts.len() ==> #[trigger] starts[k] <= bytes.len()
        &&& forall|k: int| 1 <= k < starts.len() ==> bytes[#[trigger] starts[k] - 1] == LINE_FEED
        &&& forall|k: int|
            0 <= k < starts.len() ==> breaks_before(bytes, #[trigger] starts[k] as int) == k
        &&& forall|k: int, j: int|
            #![trigger starts[k], bytes[j]]
            0 <= k < starts.len() - 1 && starts[k] <= j < starts[k + 1] - 1 ==> bytes[j]
                != LINE_FEED
        &&& forall|j: int| starts.last() <= j < bytes.len() ==> bytes[j] != LINE_FEED
    }

    /// Scans `text` and records where its lines start.
    pub fn new(text: &'a str) -> (positions: StringPositions<'a>)
        requires
            encode_utf8(text@).len() < usize::MAX,
        ensures
            positions.bytes() == encode_utf8(text@),
    {
        let bytes = text.as_bytes();
        let n: usize = bytes.len();
        let mut line_starts: Vec<usize> = Vec::new();
        line_starts.push(0);
        let mut i: usize = 0;
        while i < n
            invariant
                n == bytes.len(),
                n < usize::MAX,
                bytes@ == encode_utf8(text@),
                i <= n,
                line_starts.len() >= 1,
                line_starts[0] == 0,
                forall|k: int| 0 <= k < line_starts.len() ==> #[trigger] line_starts[k] <= i,
                forall|k: int|
                    1 <= k < line_starts.len() ==> bytes[#[trigger] line_starts[k] - 1]
                        == LINE_FEED,
                forall|k: int|
                    0 <= k < line_starts.len() ==> breaks_before(
                        bytes@,
                        #[trigger] line_starts[k] as int,
                    ) == k,
                forall|k: int, j: int|
                    #![trigger line_starts[k], bytes[j]]
                    0 <= k < line_starts.len() - 1 && line_starts[k] <= j < line_starts[k + 1] - 1
                        ==> bytes[j] != LINE_FEED,
                forall|j: int| line_starts@.last() <= j < i ==> bytes[j] != LINE_FEED,
            decreases n - i,
        {
            if bytes[i] == LINE_FEED {
                proof {
                    lemma_same_line(bytes@, line_starts@.last() as int, i as int);
                }
                line_starts.push(i + 1);
            }
            i += 1;
        }
        StringPositions { text, line_starts }
    }

    /// The line and column of the byte at `offset`, which may be the end of
    /// the text.
    pub fn position(&self, offset: usize) -> (place: Position)
        requires
            offset <= self.bytes().len(),
        ensures
            place.line == line_of(self.bytes(), offset as int),
            place.col == column_of(self.bytes(), offset as int),
    {
        proof {
            use_type_invariant(self);
        }
        let ghost bytes = encode_utf8(self.text@);
        let count: usize = self.line_starts.len();
        let mut k: usize = 0;
        while k + 1 < count && self.line_starts[k + 1] <= offset
            invariant
                count == self.line_starts.len(),
                k < count,
                self.line_starts[k as int] <= offset,
            decreases count - k,
        {
            k += 1;
        }
        let start: usize = self.line_starts[k];
        proof {
            lemma_same_line(bytes, start as int, offset as int);
        }
        Position { line: k + 1, col: offset - start + 1 }
    }

    /// The line and column of the byte at `offset`; the end of the text is a
    /// place too, and nothing lies beyond it.
    pub fn get_pos(&self, offset: usize) -> (position: Option<Position>)
        ensures
            position is Some <==> offset <= self.bytes().len(),
            position matches Some(place) ==> place.line == line_of(self.bytes(), offset as int)
                && place.col == column_of(self.bytes(), offset as int),
    {
        proof {
            use_type_invariant(self);
        }
        if offset > self.text.len() {
            None
        } else {
            Some(self.position(offset))
        }
    }
}

} // verus!
