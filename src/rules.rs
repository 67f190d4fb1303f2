use vstd::prelude::*;
use crate::source_file::{SourceFile, lemma_position_monotone};
use crate::syntax::SyntaxTree;
use crate::violation::{Violation, violation_at, tree_fits};

verus! {

/// The indices below `n` of the nodes that satisfy `p`, in increasing order.
pub open spec fn nodes_where(p: spec_fn(int) -> bool, n: int) -> Seq<int>
    decreases n,
{
    if n <= 0 {
        seq![]
    } else if p(n - 1) {
        nodes_where(p, n - 1).push(n - 1)
    } else {
        nodes_where(p, n - 1)
    }
}

/// `r` holds one violation for each node below `n` that satisfies `p`, in node
/// order, each with message `msg` of its node and anchored at the node's first
/// byte.
pub open spec fn reports_upto(
    r: Seq<Violation>,
    tree: &SyntaxTree,
    src: &SourceFile,
    p: spec_fn(int) -> bool,
    msg: spec_fn(int) -> Seq<char>,
    n: int,
) -> bool {
    let idx = nodes_where(p, n);
    &&& r.len() == idx.len()
    &&& forall|k: int|
        0 <= k < r.len() ==> violation_at(#[trigger] r[k], msg(idx[k]), src, tree.start(idx[k]))
}

/// `reports_upto` over the whole tree.
pub open spec fn reports(
    r: Seq<Violation>,
    tree: &SyntaxTree,
    src: &SourceFile,
    p: spec_fn(int) -> bool,
    msg: spec_fn(int) -> Seq<char>,
) -> bool {
    reports_upto(r, tree, src, p, msg, tree.len())
}

/// The violations of `r` come in order of their start line and column.
pub open spec fn in_position_order(r: Seq<Violation>) -> bool {
    forall|a: int, b: int|
        0 <= a < b < r.len() ==> (#[trigger] r[a]).start_line < (#[trigger] r[b]).start_line || (
        r[a].start_line == r[b].start_line && r[a].start_col <= r[b].start_col)
}

/// The indices that `nodes_where` lists increase and stay below `n`.
pub proof fn lemma_nodes_where_increasing(p: spec_fn(int) -> bool, n: int)
    ensures
        forall|a: int, b: int|
            0 <= a < b < nodes_where(p, n).len() ==> #[trigger] nodes_where(p, n)[a]
                < #[trigger] nodes_where(p, n)[b],
        forall|a: int|
            0 <= a < nodes_where(p, n).len() ==> 0 <= #[trigger] nodes_where(p, n)[a] < n,
    decreases n,
{
    if n > 0 {
        lemma_nodes_where_increasing(p, n - 1);
        let prev = nodes_where(p, n - 1);
        let cur = nodes_where(p, n);
        if p(n - 1) {
            assert(cur == prev.push(n - 1));
            assert forall|a: int| 0 <= a < cur.len() implies 0 <= #[trigger] cur[a] < n by {
                if a < prev.len() {
                    assert(cur[a] == prev[a]);
                }
            }
            assert forall|a: int, b: int| 0 <= a < b < cur.len() implies #[trigger] cur[a]
                < #[trigger] cur[b] by {
                assert(cur[a] == prev[a]);
                if b < prev.len() {
                    assert(cur[b] == prev[b]);
                }
            }
        } else {
            assert(cur == prev);
            assert forall|a: int| 0 <= a < cur.len() implies 0 <= #[trigger] cur[a] < n by {
                assert(cur[a] == prev[a]);
            }
        }
    }
}

/// In a tree that fits its source, a later node starts no earlier.
pub proof fn lemma_starts_ordered(tree: &SyntaxTree, src: &SourceFile, i: int, j: int)
    requires
        tree_fits(tree, src),
        0 <= i <= j < tree.len(),
    ensures
        tree.start(i) <= tree.start(j),
    decreases j - i,
{
    if i < j {
        lemma_starts_ordered(tree, src, i, j - 1);
        assert(tree.nodes@[j - 1].start <= tree.nodes@[j].start);
    }
}

/// A rule's report on a tree that fits its source comes in position order.
pub proof fn lemma_reports_ordered(
    r: Seq<Violation>,
    tree: &SyntaxTree,
    src: &SourceFile,
    p: spec_fn(int) -> bool,
    msg: spec_fn(int) -> Seq<char>,
)
    requires
        tree_fits(tree, src),
        reports(r, tree, src, p, msg),
    ensures
        in_position_order(r),
{
    let idx = nodes_where(p, tree.len());
    lemma_nodes_where_increasing(p, tree.len());
    assert forall|a: int, b: int| 0 <= a < b < r.len() implies (#[trigger] r[a]).start_line < (
    #[trigger] r[b]).start_line || (r[a].start_line == r[b].start_line && r[a].start_col
        <= r[b].start_col) by {
        lemma_starts_ordered(tree, src, idx[a], idx[b]);
        assert(violation_at(r[a], msg(idx[a]), src, tree.start(idx[a])));
        assert(violation_at(r[b], msg(idx[b]), src, tree.start(idx[b])));
        lemma_position_monotone(
            src,
            tree.start(idx[a]),
            r[a].start_line as int,
            r[a].start_col as int,
            tree.start(idx[b]),
            r[b].start_line as int,
            r[b].start_col as int,
        );
    }
}

/// Node `i` is a module, submodule or program.
pub open spec fn is_scope(tree: &SyntaxTree, i: int) -> bool {
    tree.kind(i) == "module"@ || tree.kind(i) == "submodule"@ || tree.kind(i) == "program"@
}

/// Node `i` is a function or subroutine.
pub open spec fn is_procedure(tree: &SyntaxTree, i: int) -> bool {
    tree.kind(i) == "function"@ || tree.kind(i) == "subroutine"@
}

/// Whether node `i` is a module, submodule or program.
pub fn scope_at(tree: &SyntaxTree, i: usize) -> (r: bool)
    requires
        i < tree.len(),
    ensures
        r == is_scope(tree, i as int),
{
    tree.kind_is(i, "module") || tree.kind_is(i, "submodule") || tree.kind_is(i, "program")
}

/// Whether node `i` is a function or subroutine.
pub fn procedure_at(tree: &SyntaxTree, i: usize) -> (r: bool)
    requires
        i < tree.len(),
    ensures
        r == is_procedure(tree, i as int),
{
    tree.kind_is(i, "function") || tree.kind_is(i, "subroutine")
}

/// How a rule finds its violations.
#[derive(Debug, Clone, Copy, PartialEq, Eq)]
pub enum Method {
    /// Called once for each node whose kind the rule subscribes to.
    Node,
    /// Called once with the whole tree, walking it by itself.
    Tree,
    /// A structural pattern matched over the whole tree.
    Query,
}

} // verus!
