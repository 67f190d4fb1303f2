use vstd::prelude::*;

verus! {

/// One node of a syntax tree: its kind, its byte range `[start, end)`, its
/// parent's index and its children's indices, in source order.
pub struct SyntaxNode {
    pub kind: String,
    pub start: usize,
    pub end: usize,
    pub parent: Option<usize>,
    pub children: Vec<usize>,
}

/// A syntax tree held as an arena of nodes; the root has index 0 and every
/// node comes after its parent.
pub struct SyntaxTree {
    pub nodes: Vec<SyntaxNode>,
}

impl SyntaxTree {
    pub open spec fn len(&self) -> int {
        self.nodes@.len() as int
    }

    pub open spec fn kind(&self, i: int) -> Seq<char> {
        self.nodes@[i].kind@
    }

    pub open spec fn parent(&self, i: int) -> Option<usize> {
        self.nodes@[i].parent
    }

    pub open spec fn children(&self, i: int) -> Seq<usize> {
        self.nodes@[i].children@
    }

    pub open spec fn start(&self, i: int) -> int {
        self.nodes@[i].start as int
    }

    /// Node `i` has a parent, and that parent has kind `k`.
    pub open spec fn parent_is(&self, i: int, k: Seq<char>) -> bool {
        match self.parent(i) {
            Some(p) => self.kind(p as int) == k,
            None => false,
        }
    }

    /// The arena is a tree: the root comes first, every other node has an
    /// earlier parent, and each child lists its parent back.
    pub open spec fn wf(&self) -> bool {
        &&& self.len() >= 1
        &&& self.parent(0) is None
        &&& forall|i: int|
            0 < i < self.len() ==> (#[trigger] self.parent(i) matches Some(p) && p < i)
        &&& forall|i: int, j: int|
            0 <= i < self.len() && 0 <= j < self.children(i).len() ==> {
                let c = #[trigger] self.children(i)[j];
                &&& i < c < self.len()
                &&& self.parent(c as int) == Some(i as usize)
            }
    }

    /// Node `c` is an implicit statement with a `none` child.
    pub open spec fn is_implicit_none(&self, c: int) -> bool {
        &&& self.kind(c) == "implicit_statement"@
        &&& exists|m: int|
            0 <= m < self.children(c).len() && #[trigger] self.kind(self.children(c)[m] as int)
                == "none"@
    }

    /// Node `i` has an implicit-none statement among its children.
    pub open spec fn has_implicit_none(&self, i: int) -> bool {
        exists|j: int|
            0 <= j < self.children(i).len() && #[trigger] self.is_implicit_none(
                self.children(i)[j] as int,
            )
    }

    /// The number of nodes.
    pub fn node_count(&self) -> (r: usize)
        ensures
            r == self.len(),
    {
        self.nodes.len()
    }

    /// Whether node `i` has kind `k`.
    pub fn kind_is(&self, i: usize, k: &str) -> (r: bool)
        requires
            i < self.len(),
        ensures
            r == (self.kind(i as int) == k@),
    {
        let name = k.to_owned();
        self.nodes[i].kind.eq(&name)
    }

    /// Whether node `i` has a parent of kind `k`.
    pub fn parent_kind_is(&self, i: usize, k: &str) -> (r: bool)
        requires
            self.wf(),
            i < self.len(),
        ensures
            r == self.parent_is(i as int, k@),
    {
        match self.nodes[i].parent {
            Some(p) => {
                if i == 0 {
                    false
                } else {
                    assert(self.parent(i as int) matches Some(q) && q < i);
                    self.kind_is(p, k)
                }
            },
            None => false,
        }
    }

    /// Whether node `c` is an implicit statement that says `none`.
    pub fn is_implicit_none_stmt(&self, c: usize) -> (r: bool)
        requires
            self.wf(),
            c < self.len(),
        ensures
            r == self.is_implicit_none(c as int),
    {
        if !self.kind_is(c, "implicit_statement") {
            return false;
        }
        let ch = &self.nodes[c].children;
        let mut m: usize = 0;
        while m < ch.len()
            invariant
                self.wf(),
                c < self.len(),
                ch@ == self.children(c as int),
                self.kind(c as int) == "implicit_statement"@,
                m <= ch@.len(),
                forall|q: int| 0 <= q < m ==> self.kind(ch@[q] as int) != "none"@,
            decreases ch@.len() - m,
        {
            assert(ch@[m as int] < self.len());
            if self.kind_is(ch[m], "none") {
                assert(self.kind(self.children(c as int)[m as int] as int) == "none"@);
                return true;
            }
            m = m + 1;
        }
        false
    }

    /// Whether one of node `i`'s children is an implicit statement that says
    /// `none`.
    pub fn child_is_implicit_none(&self, i: usize) -> (r: bool)
        requires
            self.wf(),
            i < self.len(),
        ensures
            r == self.has_implicit_none(i as int),
    {
        let ch = &self.nodes[i].children;
        let mut j: usize = 0;
        while j < ch.len()
            invariant
                self.wf(),
                i < self.len(),
                ch@ == self.children(i as int),
                j <= ch@.len(),
                forall|q: int| 0 <= q < j ==> !self.is_implicit_none(ch@[q] as int),
            decreases ch@.len() - j,
        {
            assert(ch@[j as int] < self.len());
            if self.is_implicit_none_stmt(ch[j]) {
                return true;
            }
            j = j + 1;
        }
        false
    }
}

} // verus!
