use vstd::prelude::*;
use crate::source_file::{SourceFile, lemma_span_fidelity};
use crate::syntax::SyntaxTree;

verus! {

/// One reported issue: a message and a 1-based source span.
#[derive(Debug, Clone, PartialEq, Eq)]
pub struct Violation {
    pub message: String,
    pub start_line: usize,
    pub start_col: usize,
    pub end_line: usize,
    pub end_col: usize,
}

/// Every node's range lies inside the source text, so that each node can be
/// located through the file's line index, and nodes come in order of their
/// start.
pub open spec fn tree_fits(tree: &SyntaxTree, src: &SourceFile) -> bool {
    &&& tree.wf()
    &&& src.wf()
    &&& src.bytes().len() < usize::MAX
    &&& forall|i: int|
        0 <= i < tree.len() ==> #[trigger] tree.nodes@[i].start <= tree.nodes@[i].end
            <= src.bytes().len()
    &&& forall|i: int| 0 < i < tree.len() ==> tree.nodes@[i - 1].start <= #[trigger] tree.nodes@[i].start
}

/// `v` carries message `msg` and points at byte offset `o` of `src`, as a span
/// that starts and ends there.
pub open spec fn violation_at(v: Violation, msg: Seq<char>, src: &SourceFile, o: int) -> bool {
    &&& v.message@ == msg
    &&& src.locates(o, v.start_line as int, v.start_col as int)
    &&& v.end_line == v.start_line
    &&& v.end_col == v.start_col
}

impl Violation {
    /// A violation at the given 1-based line and column.
    pub fn new(message: String, line: usize, col: usize) -> (r: Violation)
        ensures
            r.message@ == message@,
            r.start_line == line && r.start_col == col,
            r.end_line == line && r.end_col == col,
    {
        Violation { message, start_line: line, start_col: col, end_line: line, end_col: col }
    }

    /// A field-by-field copy.
    pub fn copied(&self) -> (r: Violation)
        ensures
            r == *self,
    {
        Violation {
            message: self.message.clone(),
            start_line: self.start_line,
            start_col: self.start_col,
            end_line: self.end_line,
            end_col: self.end_col,
        }
    }

    /// A violation anchored at the first byte of node `i`.
    pub fn from_node(message: String, tree: &SyntaxTree, i: usize, src: &SourceFile) -> (r:
        Violation)
        requires
            tree_fits(tree, src),
            i < tree.len(),
        ensures
            violation_at(r, message@, src, tree.start(i as int)),
    {
        assert(tree.nodes@[i as int].start <= tree.nodes@[i as int].end);
        let (line, col) = src.line_col(tree.nodes[i].start);
        Violation::new(message, line, col)
    }
}

/// A violation reported at a node starts where the node starts: its line and
/// column translate back through the line index to the node's first byte.
pub proof fn lemma_violation_span(
    v: Violation,
    msg: Seq<char>,
    tree: &SyntaxTree,
    src: &SourceFile,
    i: int,
)
    requires
        tree_fits(tree, src),
        0 <= i < tree.len(),
        violation_at(v, msg, src, tree.start(i)),
    ensures
        src.offset_spec(v.start_line as int, v.start_col as int) == tree.start(i),
{
    lemma_span_fidelity(
        src,
        tree.start(i),
        v.start_line as int,
        v.start_col as int,
        v.start_line as int,
        v.start_col as int,
    );
}

} // verus!
