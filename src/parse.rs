use vstd::prelude::*;
use vstd::string::StringSliceAdditionalSpecFns;
use tree_sitter::{Parser, Tree};
use crate::source_file::SourceFile;
use crate::syntax::{SyntaxNode, SyntaxTree};
use crate::violation::tree_fits;

verus! {

#[verifier::external_type_specification]
#[verifier::external_body]
pub struct ExTree(Tree);

/// A node as the parser lists it: kind, start byte, end byte, and the pre-order
/// index of its parent.
pub type NodeRecord = (Seq<char>, usize, usize, Option<usize>);

/// The nodes of a parsed tree, in pre-order (the root first).
pub uninterp spec fn nodes_of(t: Tree) -> Seq<NodeRecord>;

/// The nodes of the tree that the Fortran grammar gives a text, in pre-order.
pub uninterp spec fn fortran_tree(text: Seq<u8>) -> Seq<NodeRecord>;

/// Relies on tree_sitter::Parser::parse with the Fortran grammar of
/// tree_sitter_fortran: the grammar's ABI version lies in the range that
/// `Parser::set_language` accepts, and `parse` yields a tree whenever a
/// language is set, so a tree always comes back; it depends on the text alone.
#[verifier::external_body]
fn fortran_parse(text: &str) -> (r: Tree)
    requires
        text.spec_bytes().len() < u32::MAX,
    ensures
        nodes_of(r) == fortran_tree(text.spec_bytes()),
{
    let mut parser = Parser::new();
    parser.set_language(&tree_sitter_fortran::LANGUAGE.into()).expect("supported ABI version");
    parser.parse(text, None).expect("a parser with a language yields a tree")
}

/// Relies on tree_sitter::Node::descendant_count of the root: the number of
/// nodes of the tree, the root included.
#[verifier::external_body]
fn node_count(t: &Tree) -> (r: usize)
    ensures
        r == nodes_of(*t).len(),
{
    t.root_node().descendant_count()
}

/// Relies on tree_sitter::TreeCursor::goto_descendant: the node at pre-order
/// index `i`, read through `Node::kind`, `start_byte` and `end_byte`, with its
/// parent's pre-order index from `goto_parent` and `descendant_index`.
#[verifier::external_body]
fn node_record(t: &Tree, i: usize) -> (r: (String, usize, usize, Option<usize>))
    requires
        i < nodes_of(*t).len(),
    ensures
        r.0@ == nodes_of(*t)[i as int].0,
        r.1 == nodes_of(*t)[i as int].1,
        r.2 == nodes_of(*t)[i as int].2,
        r.3 == nodes_of(*t)[i as int].3,
{
    let mut c = t.walk();
    c.goto_descendant(i);
    let n = c.node();
    let parent = if c.goto_parent() { Some(c.descendant_index()) } else { None };
    (n.kind().to_owned(), n.start_byte(), n.end_byte(), parent)
}

/// Record `i` of `recs` has an earlier parent (none for the root), an ordered
/// range inside a text of `len` bytes, and starts no earlier than record
/// `i - 1`.
pub open spec fn rec_ok(recs: Seq<NodeRecord>, i: int, len: int) -> bool {
    &&& (if i == 0 {
        recs[i].3 is None
    } else {
        (recs[i].3 matches Some(p) && p < i)
    })
    &&& recs[i].1 <= recs[i].2 <= len
    &&& (i > 0 ==> recs[i - 1].1 <= recs[i].1)
}

/// `recs` describes a tree in pre-order that lies inside a text of `len`
/// bytes.
pub open spec fn records_ok(recs: Seq<NodeRecord>, len: int) -> bool {
    &&& recs.len() >= 1
    &&& forall|i: int| 0 <= i < recs.len() ==> #[trigger] rec_ok(recs, i, len)
}

/// Node `j` of `t` lists exactly the nodes below `n` whose parent it is, in
/// increasing order.
pub open spec fn children_exact(t: &SyntaxTree, j: int, n: int) -> bool {
    &&& forall|a: int, b: int|
        0 <= a < b < t.children(j).len() ==> t.children(j)[a] < t.children(j)[b]
    &&& forall|c: usize|
        t.children(j).contains(c) <==> (c < n && t.parent(c as int) == Some(j as usize))
}

/// The arena holds the records' nodes, index for index, and each node lists
/// its children in order.
pub open spec fn arena_matches(t: &SyntaxTree, recs: Seq<NodeRecord>) -> bool {
    &&& t.len() == recs.len()
    &&& forall|i: int|
        0 <= i < t.len() ==> {
            &&& #[trigger] t.kind(i) == recs[i].0
            &&& t.nodes@[i].start == recs[i].1
            &&& t.nodes@[i].end == recs[i].2
            &&& t.parent(i) == recs[i].3
        }
    &&& forall|j: int| 0 <= j < t.len() ==> #[trigger] children_exact(t, j, t.len())
}

/// Copies a parsed tree into an arena, node by node in pre-order; none where
/// the records do not describe a tree inside a text of `len` bytes.
fn build_arena(tree: &Tree, len: usize) -> (r: Option<SyntaxTree>)
    ensures
        r is Some <==> records_ok(nodes_of(*tree), len as int),
        r matches Some(t) ==> arena_matches(&t, nodes_of(*tree)) && t.wf(),
{
    let ghost recs = nodes_of(*tree);
    let n = node_count(tree);
    if n == 0 {
        return None;
    }
    let mut t = SyntaxTree { nodes: Vec::new() };
    let mut i: usize = 0;
    while i < n
        invariant
            recs == nodes_of(*tree),
            n == recs.len(),
            i <= n,
            t.len() == i,
            forall|q: int| 0 <= q < i ==> #[trigger] rec_ok(recs, q, len as int),
            forall|q: int|
                0 <= q < i ==> {
                    &&& #[trigger] t.kind(q) == recs[q].0
                    &&& t.nodes@[q].start == recs[q].1
                    &&& t.nodes@[q].end == recs[q].2
                    &&& t.parent(q) == recs[q].3
                },
            forall|j: int| 0 <= j < i ==> #[trigger] children_exact(&t, j, i as int),
            i > 0 ==> t.wf(),
        decreases n - i,
    {
        let (kind, start, end, parent) = node_record(tree, i);
        proof {
            if i > 0 {
                assert(t.kind(i - 1) == recs[i - 1].0);
            }
        }
        let parent_ok = if i == 0 {
            parent.is_none()
        } else {
            match parent {
                Some(p) => p < i,
                None => false,
            }
        };
        if !parent_ok || start > end || end > len || (i > 0 && start < t.nodes[i - 1].start) {
            assert(!rec_ok(recs, i as int, len as int));
            return None;
        }
        assert(rec_ok(recs, i as int, len as int));
        let ghost old_t = t;
        t.nodes.push(SyntaxNode { kind, start, end, parent, children: Vec::new() });
        match parent {
            Some(p) => {
                t.nodes[p].children.push(i);
            },
            None => {},
        }
        proof {
            assert forall|q: int| 0 <= q < i implies #[trigger] t.parent(q) == old_t.parent(q) by {}
            assert forall|q: int| 0 <= q < i + 1 implies {
                &&& #[trigger] t.kind(q) == recs[q].0
                &&& t.nodes@[q].start == recs[q].1
                &&& t.nodes@[q].end == recs[q].2
                &&& t.parent(q) == recs[q].3
            } by {
                if q < i {
                    assert(old_t.kind(q) == recs[q].0);
                    assert(t.nodes@[q].kind == old_t.nodes@[q].kind);
                    assert(t.nodes@[q].start == old_t.nodes@[q].start);
                    assert(t.nodes@[q].end == old_t.nodes@[q].end);
                }
            }
            assert(t.parent(i as int) == parent);
            assert forall|j: int| 0 <= j < i + 1 implies #[trigger] children_exact(&t, j, i + 1) by {
                if j == i {
                    assert(t.children(j).len() == 0);
                    assert forall|c: usize|
                        t.children(j).contains(c) <==> (c < i + 1 && t.parent(c as int) == Some(
                            j as usize,
                        )) by {
                        if c < i + 1 && t.parent(c as int) == Some(j as usize) {
                            if c < i {
                                assert(old_t.parent(c as int) == recs[c as int].3);
                                assert(rec_ok(recs, c as int, len as int));
                            }
                        }
                    }
                } else if parent == Some(j as usize) {
                    assert(children_exact(&old_t, j, i as int));
                    assert(t.children(j) == old_t.children(j).push(i));
                    assert forall|c: usize|
                        t.children(j).contains(c) <==> (c < i + 1 && t.parent(c as int) == Some(
                            j as usize,
                        )) by {
                        if c == i {
                            assert(t.children(j)[t.children(j).len() - 1] == c);
                        } else if t.children(j).contains(c) {
                            let a = choose|a: int| 0 <= a < t.children(j).len() && t.children(j)[a] == c;
                            assert(old_t.children(j)[a] == c);
                        } else if c < i && t.parent(c as int) == Some(j as usize) {
                            assert(old_t.children(j).contains(c));
                            let a = choose|a: int| 0 <= a < old_t.children(j).len() && old_t.children(j)[a] == c;
                            assert(t.children(j)[a] == c);
                        }
                    }
                    assert forall|a: int, b: int|
                        0 <= a < b < t.children(j).len() implies t.children(j)[a] < t.children(j)[b] by {
                        if b == t.children(j).len() - 1 {
                            assert(old_t.children(j).contains(old_t.children(j)[a]));
                        }
                    }
                } else {
                    assert(children_exact(&old_t, j, i as int));
                    assert(t.children(j) == old_t.children(j));
                    assert forall|c: usize|
                        t.children(j).contains(c) <==> (c < i + 1 && t.parent(c as int) == Some(
                            j as usize,
                        )) by {
                        if c < i {
                            assert(t.parent(c as int) == old_t.parent(c as int));
                        }
                    }
                }
            }
            assert forall|j: int, a: int|
                0 <= j < t.len() && 0 <= a < t.children(j).len() implies {
                    let c = #[trigger] t.children(j)[a];
                    &&& j < c < t.len()
                    &&& t.parent(c as int) == Some(j as usize)
                } by {
                let c = t.children(j)[a];
                assert(children_exact(&t, j, i + 1));
                assert(t.children(j).contains(c));
                if c < i {
                    assert(rec_ok(recs, c as int, len as int));
                }
            }
            assert forall|q: int| 0 < q < t.len() implies (#[trigger] t.parent(q) matches Some(p) && p
                < q) by {
                assert(rec_ok(recs, q, len as int));
            }
            assert(rec_ok(recs, 0, len as int));
            assert(t.wf());
        }
        i = i + 1;
    }
    Some(t)
}

/// Why a source file yielded no syntax tree.
#[derive(Debug, Clone, Copy, PartialEq, Eq)]
pub enum ParseError {
    /// The text is too long for the parser's 32-bit offsets.
    TooLarge,
    /// The parser's nodes do not form a tree in pre-order inside the text.
    Malformed,
}

/// The text can be parsed: it fits the parser's offsets and the grammar's
/// nodes form a tree inside it.
pub open spec fn parses(b: Seq<u8>) -> bool {
    b.len() < u32::MAX && records_ok(fortran_tree(b), b.len() as int)
}

/// Parses a source file into an arena that holds the Fortran grammar's tree
/// of its text.
pub fn parse(src: &SourceFile) -> (r: Result<SyntaxTree, ParseError>)
    requires
        src.wf(),
    ensures
        r is Ok <==> parses(src.bytes()),
        r == Err::<SyntaxTree, ParseError>(ParseError::TooLarge) <==> src.bytes().len() >= u32::MAX,
        r matches Ok(t) ==> arena_matches(&t, fortran_tree(src.bytes())) && tree_fits(&t, src),
{
    let text = src.source_text();
    let len = text.len();
    if len >= 0xFFFF_FFFF {
        return Err(ParseError::TooLarge);
    }
    let tree = fortran_parse(text);
    match build_arena(&tree, len) {
        Some(arena) => {
            proof {
                let recs = fortran_tree(src.bytes());
                assert forall|i: int| 0 <= i < arena.len() implies #[trigger] arena.nodes@[i].start
                    <= arena.nodes@[i].end <= src.bytes().len() by {
                    assert(arena.kind(i) == recs[i].0);
                    assert(rec_ok(recs, i, len as int));
                }
                assert forall|i: int| 0 < i < arena.len() implies arena.nodes@[i - 1].start
                    <= #[trigger] arena.nodes@[i].start by {
                    assert(arena.kind(i) == recs[i].0);
                    assert(arena.kind(i - 1) == recs[i - 1].0);
                    assert(rec_ok(recs, i, len as int));
                }
            }
            Ok(arena)
        },
        None => Err(ParseError::Malformed),
    }
}

} // verus!
