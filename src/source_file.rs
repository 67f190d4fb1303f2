use vstd::prelude::*;
use vstd::string::StringSliceAdditionalSpecFns;

verus! {

/// Whether byte offset `k` of `b` begins a line: the text start, the byte after
/// a `\n`, or the byte after a `\r` that no `\n` follows.
pub open spec fn is_line_start(b: Seq<u8>, k: int) -> bool {
    0 <= k <= b.len() && (k == 0 || b[k - 1] == 10u8 || (b[k - 1] == 13u8 && (k == b.len()
        || b[k + 0] != 10u8)))
}

/// A table of line starts of `b`: it begins at 0, grows strictly, and lists
/// exactly the line starts of `b`.
pub open spec fn is_line_table(b: Seq<u8>, t: Seq<usize>) -> bool {
    &&& t.len() >= 1
    &&& t[0] == 0
    &&& forall|i: int, j: int| 0 <= i < j < t.len() ==> t[i] < t[j]
    &&& forall|i: int| 0 <= i < t.len() ==> is_line_start(b, t[i] as int)
    &&& forall|k: int| is_line_start(b, k) ==> exists|i: int| 0 <= i < t.len() && t[i] == k
}

/// A named source text with its line index, built once.
pub struct SourceFile {
    name: String,
    text: String,
    line_starts: Vec<usize>,
}

impl SourceFile {
    /// The line-start table that the index holds.
    pub closed spec fn table(&self) -> Seq<usize> {
        self.line_starts@
    }

    /// The UTF-8 bytes of the text.
    pub closed spec fn bytes(&self) -> Seq<u8> {
        vstd::utf8::encode_utf8(self.text@)
    }

    /// The text as characters.
    pub closed spec fn text_view(&self) -> Seq<char> {
        self.text@
    }

    /// The index lists exactly the line starts of the text.
    pub open spec fn wf(&self) -> bool {
        is_line_table(self.bytes(), self.table()) && self.bytes().len() <= usize::MAX
    }

    /// Builds the file and its line index in one pass over the bytes.
    pub fn new(name: String, text: String) -> (r: SourceFile)
        ensures
            r.wf(),
            r.bytes() == vstd::utf8::encode_utf8(text@),
            r.text_view() == text@,
    {
        let b = text.as_str().as_bytes();
        let n = b.len();
        let mut t: Vec<usize> = Vec::new();
        t.push(0);
        let mut i: usize = 0;
        assert(t@[0] == 0);
        while i < n
            invariant
                b@ == vstd::utf8::encode_utf8(text@),
                n == b@.len(),
                0 <= i <= n,
                t@.len() >= 1,
                t@[0] == 0,
                forall|p: int, q: int| 0 <= p < q < t@.len() ==> t@[p] < t@[q],
                forall|p: int| 0 <= p < t@.len() ==> t@[p] <= i,
                forall|p: int| 0 <= p < t@.len() ==> is_line_start(b@, t@[p] as int),
                forall|m: int|
                    0 <= m <= i && is_line_start(b@, m) ==> exists|p: int|
                        0 <= p < t@.len() && t@[p] == m,
            decreases n - i,
        {
            let ghost t0 = t@;
            let c = b[i];
            let starts = c == 10u8 || (c == 13u8 && (i + 1 == n || b[i + 1] != 10u8));
            if starts {
                t.push(i + 1);
                assert(t@[t@.len() - 1] == i + 1);
            }
            assert forall|m: int| 0 <= m <= i + 1 && is_line_start(b@, m) implies exists|p: int|
                0 <= p < t@.len() && t@[p] == m by {
                if m == i + 1 {
                    assert(t@[t@.len() - 1] == i + 1);
                } else {
                    let p = choose|p: int| 0 <= p < t0.len() && t0[p] == m;
                    assert(t@[p] == m);
                }
            }
            i = i + 1;
        }
        assert forall|m: int| is_line_start(b@, m) implies exists|p: int|
            0 <= p < t@.len() && t@[p] == m by {
            assert(m <= i);
        }
        SourceFile { name, text, line_starts: t }
    }

    /// `(line, col)` is the 1-based position of byte offset `o`: `line` is the
    /// line whose start is the last one at or before `o`, and `col` counts bytes
    /// from that start.
    pub open spec fn locates(&self, o: int, line: int, col: int) -> bool {
        let t = self.table();
        &&& 1 <= line <= t.len()
        &&& t[line - 1] <= o
        &&& (line == t.len() || o < t[line])
        &&& col == o - t[line - 1] + 1
    }

    /// The 1-based position of byte offset `o`.
    pub open spec fn position(&self, o: int) -> (int, int) {
        choose|p: (int, int)| self.locates(o, p.0, p.1)
    }

    /// The byte offset that a 1-based `(line, col)` stands for.
    pub open spec fn offset_spec(&self, line: int, col: int) -> int {
        self.table()[line - 1] + col - 1
    }

    /// Translates a byte offset to its 1-based line and column.
    pub fn line_col(&self, offset: usize) -> (r: (usize, usize))
        requires
            self.wf(),
            offset <= self.bytes().len(),
            offset < usize::MAX,
        ensures
            self.locates(offset as int, r.0 as int, r.1 as int),
    {
        let t = &self.line_starts;
        let mut p: usize = 0;
        while p < t.len() - 1 && t[p + 1] <= offset
            invariant
                self.wf(),
                t@ == self.table(),
                p < t@.len(),
                t@[p as int] <= offset,
            decreases t@.len() - p,
        {
            p = p + 1;
        }
        (p + 1, offset - t[p] + 1)
    }

    /// Translates a 1-based line and column back to a byte offset.
    pub fn offset(&self, line: usize, col: usize) -> (r: usize)
        requires
            self.wf(),
            1 <= line <= self.table().len(),
            1 <= col,
            self.offset_spec(line as int, col as int) <= self.bytes().len(),
        ensures
            r == self.offset_spec(line as int, col as int),
    {
        self.line_starts[line - 1] + (col - 1)
    }

    pub fn name(&self) -> &str {
        self.name.as_str()
    }

    pub fn source_text(&self) -> (r: &str)
        ensures
            r@ == self.text_view(),
            r.spec_bytes() == self.bytes(),
    {
        self.text.as_str()
    }

    /// The number of lines.
    pub fn line_count(&self) -> (r: usize)
        ensures
            r == self.table().len(),
    {
        self.line_starts.len()
    }
}

/// A later offset never has an earlier position.
pub proof fn lemma_position_monotone(
    f: &SourceFile,
    o1: int,
    line1: int,
    col1: int,
    o2: int,
    line2: int,
    col2: int,
)
    requires
        f.wf(),
        o1 <= o2,
        f.locates(o1, line1, col1),
        f.locates(o2, line2, col2),
    ensures
        line1 < line2 || (line1 == line2 && col1 <= col2),
{
    let t = f.table();
    if line2 < line1 {
        assert(t[line2 as int] <= t[line1 - 1]);
    }
}

/// Translating a located position back through the line index gives the
/// offset it was located from, and each offset has exactly one position.
pub proof fn lemma_span_fidelity(f: &SourceFile, o: int, line: int, col: int, line2: int, col2: int)
    requires
        f.wf(),
        f.locates(o, line, col),
        f.locates(o, line2, col2),
    ensures
        f.offset_spec(line, col) == o,
        line == line2 && col == col2,
{
    let t = f.table();
    if line < line2 {
        assert(t[line as int] <= t[line2 - 1]);
    } else if line2 < line {
        assert(t[line2 as int] <= t[line - 1]);
    }
}

} // verus!
