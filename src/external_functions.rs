use vstd::prelude::*;
use vstd::string::StringExecFns;
use crate::rules::{in_position_order, lemma_reports_ordered, is_procedure, procedure_at, reports, reports_upto};
use crate::settings::Settings;
use crate::source_file::SourceFile;
use crate::syntax::SyntaxTree;
use crate::violation::{Violation, tree_fits, violation_at};

verus! {

/// Node `i` sits directly under the translation unit, outside any module or
/// program.
pub open spec fn at_file_scope(tree: &SyntaxTree, i: int) -> bool {
    tree.parent_is(i, "translation_unit"@)
}

pub open spec fn external_pred(tree: &SyntaxTree) -> spec_fn(int) -> bool {
    |i: int| is_procedure(tree, i) && at_file_scope(tree, i)
}

pub open spec fn external_msg(tree: &SyntaxTree) -> spec_fn(int) -> Seq<char> {
    |i: int| tree.kind(i) + " not contained within (sub)module or program"@
}

/// A function or subroutine directly at file scope is reported, and one
/// placed among a scope's internal procedures (as a `contains` block holds
/// them) is not.
pub proof fn lemma_external_only_at_file_scope(tree: &SyntaxTree, i: usize, p: usize)
    requires
        tree.wf(),
        i < tree.len(),
        is_procedure(tree, i as int),
        tree.parent(i as int) == Some(p),
    ensures
        tree.kind(p as int) == "translation_unit"@ ==> (external_pred(tree))(i as int),
        tree.kind(p as int) == "internal_procedures"@ ==> !(external_pred(tree))(i as int),
{
    reveal_strlit("translation_unit");
    reveal_strlit("internal_procedures");
    assert("translation_unit"@.len() == 16 && "internal_procedures"@.len() == 19);
}

/// Functions and subroutines must be contained in a (sub)module or program.
pub struct ExternalFunction {}

impl ExternalFunction {
    pub fn new(_settings: &Settings) -> ExternalFunction {
        ExternalFunction {  }
    }

    pub fn explain(&self) -> (r: &'static str)
        ensures
            r@ == "Functions and subroutines should be contained within (sub)modules or programs.
Fortran compilers are unable to perform type checks and conversions on functions
defined outside of these scopes, and this is a common source of bugs."@,
    {
        "Functions and subroutines should be contained within (sub)modules or programs.
Fortran compilers are unable to perform type checks and conversions on functions
defined outside of these scopes, and this is a common source of bugs."
    }

    /// The node kinds this rule is called on.
    pub fn entrypoints(&self) -> (r: Vec<&'static str>)
        ensures
            r@.len() == 2,
            r@[0]@ == "function"@,
            r@[1]@ == "subroutine"@,
    {
        vec!["function", "subroutine"]
    }

    /// Checks one node: a violation where it stands directly at file scope.
    pub fn check(&self, tree: &SyntaxTree, i: usize, src: &SourceFile) -> (r: Option<
        Vec<Violation>,
    >)
        requires
            tree_fits(tree, src),
            i < tree.len(),
        ensures
            r is Some <==> at_file_scope(tree, i as int),
            r matches Some(v) ==> v@.len() == 1 && violation_at(
                v@[0],
                (external_msg(tree))(i as int),
                src,
                tree.start(i as int),
            ),
    {
        if tree.parent_kind_is(i, "translation_unit") {
            let msg = tree.nodes[i].kind.clone().concat(
                " not contained within (sub)module or program",
            );
            let mut v: Vec<Violation> = Vec::new();
            v.push(Violation::from_node(msg, tree, i, src));
            Some(v)
        } else {
            None
        }
    }

    /// Runs the rule over every node of an entrypoint kind.
    pub fn apply(&self, tree: &SyntaxTree, src: &SourceFile) -> (r: Vec<Violation>)
        requires
            tree_fits(tree, src),
        ensures
            reports(r@, tree, src, external_pred(tree), external_msg(tree)),
            in_position_order(r@),
    {
        let mut r: Vec<Violation> = Vec::new();
        let n = tree.nodes.len();
        let mut i: usize = 0;
        while i < n
            invariant
                tree_fits(tree, src),
                n == tree.len(),
                i <= n,
                reports_upto(r@, tree, src, external_pred(tree), external_msg(tree), i as int),
            decreases n - i,
        {
            if procedure_at(tree, i) {
                match self.check(tree, i, src) {
                    Some(v) => {
                        let mut v = v;
                        match v.pop() {
                            Some(x) => r.push(x),
                            None => {},
                        }
                    },
                    None => {},
                }
            }
            i = i + 1;
        }
        proof {
            lemma_reports_ordered(r@, tree, src, external_pred(tree), external_msg(tree));
        }
        r
    }
}

} // verus!
