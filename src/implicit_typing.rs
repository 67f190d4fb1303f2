use vstd::prelude::*;
use vstd::string::StringExecFns;
use crate::rules::{Method, in_position_order, lemma_reports_ordered, is_scope, is_procedure, scope_at, procedure_at, reports, reports_upto};
use crate::source_file::SourceFile;
use crate::syntax::SyntaxTree;
use crate::violation::{Violation, tree_fits, violation_at};

verus! {

/// Node `i` is a module, submodule or program with a body and no
/// implicit-none statement of its own.
pub open spec fn missing_implicit_none(tree: &SyntaxTree, i: int) -> bool {
    is_scope(tree, i) && tree.children(i).len() != 0 && !tree.has_implicit_none(i)
}

pub open spec fn missing_pred(tree: &SyntaxTree) -> spec_fn(int) -> bool {
    |i: int| missing_implicit_none(tree, i)
}

pub open spec fn missing_msg(tree: &SyntaxTree) -> spec_fn(int) -> Seq<char> {
    |i: int| tree.kind(i) + " missing 'implicit none'"@
}

/// A violation at node `i` where it lacks an implicit-none statement.
pub fn implicit_none_not_found(tree: &SyntaxTree, i: usize, src: &SourceFile) -> (r: Option<
    Violation,
>)
    requires
        tree_fits(tree, src),
        i < tree.len(),
    ensures
        r is Some <==> !tree.has_implicit_none(i as int),
        r matches Some(v) ==> violation_at(v, (missing_msg(tree))(i as int), src, tree.start(i as int)),
{
    if !tree.child_is_implicit_none(i) {
        let msg = tree.nodes[i].kind.clone().concat(" missing 'implicit none'");
        Some(Violation::from_node(msg, tree, i, src))
    } else {
        None
    }
}

/// Reports each module, submodule and program that has a body but does not
/// say `implicit none`.
pub fn implicit_typing(tree: &SyntaxTree, src: &SourceFile) -> (r: Vec<Violation>)
    requires
        tree_fits(tree, src),
    ensures
        reports(r@, tree, src, missing_pred(tree), missing_msg(tree)),
        in_position_order(r@),
{
    let mut r: Vec<Violation> = Vec::new();
    let n = tree.nodes.len();
    let mut i: usize = 0;
    while i < n
        invariant
            tree_fits(tree, src),
            n == tree.len(),
            i <= n,
            reports_upto(r@, tree, src, missing_pred(tree), missing_msg(tree), i as int),
        decreases n - i,
    {
        // Each scope ends with an empty node of the same kind; only scopes
        // with children are checked.
        if scope_at(tree, i) && tree.nodes[i].children.len() != 0 {
            match implicit_none_not_found(tree, i, src) {
                Some(v) => r.push(v),
                None => {},
            }
        }
        i = i + 1;
    }
    proof {
        lemma_reports_ordered(r@, tree, src, missing_pred(tree), missing_msg(tree));
    }
    r
}

/// Modules, submodules and programs must say `implicit none`.
pub struct ImplicitTyping {}

impl ImplicitTyping {
    pub fn method(&self) -> (r: Method)
        ensures
            r == Method::Tree,
    {
        Method::Tree
    }

    pub fn explain(&self) -> (r: &'static str)
        ensures
            r@ == "'implicit none' should be used in all modules and programs, as implicit typing
reduces the readability of code and increases the chances of typing errors."@,
    {
        "'implicit none' should be used in all modules and programs, as implicit typing
reduces the readability of code and increases the chances of typing errors."
    }

    pub fn apply(&self, tree: &SyntaxTree, src: &SourceFile) -> (r: Vec<Violation>)
        requires
            tree_fits(tree, src),
        ensures
            reports(r@, tree, src, missing_pred(tree), missing_msg(tree)),
            in_position_order(r@),
    {
        implicit_typing(tree, src)
    }
}

/// Node `i` is a function or subroutine declared in an interface block, with
/// no implicit-none statement of its own.
pub open spec fn interface_missing_implicit_none(tree: &SyntaxTree, i: int) -> bool {
    is_procedure(tree, i) && tree.parent_is(i, "interface"@) && !tree.has_implicit_none(i)
}

pub open spec fn interface_pred(tree: &SyntaxTree) -> spec_fn(int) -> bool {
    |i: int| interface_missing_implicit_none(tree, i)
}

pub open spec fn interface_msg(tree: &SyntaxTree) -> spec_fn(int) -> Seq<char> {
    |i: int| "interface "@ + tree.kind(i) + " missing 'implicit none'"@
}

/// A violation at node `i` where it is declared in an interface block and
/// lacks an implicit-none statement of its own.
pub fn interface_implicit_none_not_found(tree: &SyntaxTree, i: usize, src: &SourceFile) -> (r:
    Option<Violation>)
    requires
        tree_fits(tree, src),
        i < tree.len(),
    ensures
        r is Some <==> tree.parent_is(i as int, "interface"@) && !tree.has_implicit_none(i as int),
        r matches Some(v) ==> violation_at(v, (interface_msg(tree))(i as int), src, tree.start(i as int)),
{
    if tree.parent_kind_is(i, "interface") && !tree.child_is_implicit_none(i) {
        let msg = "interface ".to_owned().concat(tree.nodes[i].kind.as_str()).concat(
            " missing 'implicit none'",
        );
        Some(Violation::from_node(msg, tree, i, src))
    } else {
        None
    }
}

/// Reports each function and subroutine of an interface block that does not
/// say `implicit none` itself, whatever its enclosing scope says.
pub fn interface_implicit_typing(tree: &SyntaxTree, src: &SourceFile) -> (r: Vec<Violation>)
    requires
        tree_fits(tree, src),
    ensures
        reports(r@, tree, src, interface_pred(tree), interface_msg(tree)),
        in_position_order(r@),
{
    let mut r: Vec<Violation> = Vec::new();
    let n = tree.nodes.len();
    let mut i: usize = 0;
    while i < n
        invariant
            tree_fits(tree, src),
            n == tree.len(),
            i <= n,
            reports_upto(r@, tree, src, interface_pred(tree), interface_msg(tree), i as int),
        decreases n - i,
    {
        if procedure_at(tree, i) {
            match interface_implicit_none_not_found(tree, i, src) {
                Some(v) => r.push(v),
                None => {},
            }
        }
        i = i + 1;
    }
    proof {
        lemma_reports_ordered(r@, tree, src, interface_pred(tree), interface_msg(tree));
    }
    r
}

/// Interface functions and subroutines must say `implicit none` themselves.
pub struct InterfaceImplicitTyping {}

impl InterfaceImplicitTyping {
    pub fn method(&self) -> (r: Method)
        ensures
            r == Method::Tree,
    {
        Method::Tree
    }

    pub fn explain(&self) -> (r: &'static str)
        ensures
            r@ == "Interface functions and subroutines require 'implicit none', even if they are
inside a module that uses 'implicit none'."@,
    {
        "Interface functions and subroutines require 'implicit none', even if they are
inside a module that uses 'implicit none'."
    }

    pub fn apply(&self, tree: &SyntaxTree, src: &SourceFile) -> (r: Vec<Violation>)
        requires
            tree_fits(tree, src),
        ensures
            reports(r@, tree, src, interface_pred(tree), interface_msg(tree)),
            in_position_order(r@),
    {
        interface_implicit_typing(tree, src)
    }
}

/// The scope that makes node `i` superfluous: `i` is an implicit-none
/// statement of a function or subroutine that sits among the internal
/// procedures of a module, submodule or program which itself says
/// `implicit none`.
pub open spec fn superfluous_scope(tree: &SyntaxTree, i: int) -> Option<int> {
    if !tree.is_implicit_none(i) {
        None
    } else {
        match tree.parent(i) {
            Some(p) => match tree.parent(p as int) {
                Some(q) => match tree.parent(q as int) {
                    Some(s) => if is_procedure(tree, p as int) && tree.kind(q as int)
                        == "internal_procedures"@ && is_scope(tree, s as int)
                        && tree.has_implicit_none(s as int) {
                        Some(s as int)
                    } else {
                        None
                    },
                    None => None,
                },
                None => None,
            },
            None => None,
        }
    }
}

pub open spec fn superfluous_pred(tree: &SyntaxTree) -> spec_fn(int) -> bool {
    |i: int| superfluous_scope(tree, i) is Some
}

pub open spec fn superfluous_msg(tree: &SyntaxTree) -> spec_fn(int) -> Seq<char> {
    |i: int|
        "'implicit none' is set on the enclosing "@ + tree.kind(superfluous_scope(tree, i)->0)
            + ", and isn't needed here"@
}

/// Finds the scope that makes node `i` superfluous, if any.
pub fn enclosing_implicit_none(tree: &SyntaxTree, i: usize) -> (r: Option<usize>)
    requires
        tree.wf(),
        i < tree.len(),
    ensures
        r matches Some(s) ==> superfluous_scope(tree, i as int) == Some(s as int) && s < i,
        r is None ==> superfluous_scope(tree, i as int) is None,
{
    if !tree.is_implicit_none_stmt(i) || i == 0 {
        return None;
    }
    let p = match tree.nodes[i].parent {
        Some(p) => p,
        None => return None,
    };
    if p == 0 {
        return None;
    }
    let q = match tree.nodes[p].parent {
        Some(q) => q,
        None => return None,
    };
    if q == 0 {
        return None;
    }
    let s = match tree.nodes[q].parent {
        Some(s) => s,
        None => return None,
    };
    if procedure_at(tree, p) && tree.kind_is(q, "internal_procedures") && scope_at(tree, s)
        && tree.child_is_implicit_none(s) {
        Some(s)
    } else {
        None
    }
}

/// Reports each implicit-none statement of a contained function or subroutine
/// whose enclosing module, submodule or program already says `implicit none`.
pub fn superfluous_implicit_none(tree: &SyntaxTree, src: &SourceFile) -> (r: Vec<Violation>)
    requires
        tree_fits(tree, src),
    ensures
        reports(r@, tree, src, superfluous_pred(tree), superfluous_msg(tree)),
        in_position_order(r@),
{
    let mut r: Vec<Violation> = Vec::new();
    let n = tree.nodes.len();
    let mut i: usize = 0;
    while i < n
        invariant
            tree_fits(tree, src),
            n == tree.len(),
            i <= n,
            reports_upto(r@, tree, src, superfluous_pred(tree), superfluous_msg(tree), i as int),
        decreases n - i,
    {
        match enclosing_implicit_none(tree, i) {
            Some(s) => {
                let msg = "'implicit none' is set on the enclosing ".to_owned().concat(
                    tree.nodes[s].kind.as_str(),
                ).concat(", and isn't needed here");
                let v = Violation::from_node(msg, tree, i, src);
                r.push(v);
            },
            None => {},
        }
        i = i + 1;
    }
    proof {
        lemma_reports_ordered(r@, tree, src, superfluous_pred(tree), superfluous_msg(tree));
    }
    r
}

/// In a module, submodule or program that says `implicit none` (statement
/// `o`), the `implicit none` statement `i` of a contained function or
/// subroutine `f` is reported, with the enclosing scope's kind in the message,
/// while `o` itself is not.
pub proof fn lemma_superfluous_inner_only(
    tree: &SyntaxTree,
    s: usize,
    q: usize,
    f: usize,
    i: usize,
    o: usize,
)
    requires
        tree.wf(),
        s < tree.len() && q < tree.len() && f < tree.len() && i < tree.len() && o < tree.len(),
        is_scope(tree, s as int),
        tree.kind(q as int) == "internal_procedures"@,
        is_procedure(tree, f as int),
        tree.parent(q as int) == Some(s),
        tree.parent(f as int) == Some(q),
        tree.parent(i as int) == Some(f),
        tree.is_implicit_none(i as int),
        tree.is_implicit_none(o as int),
        tree.children(s as int).contains(o),
    ensures
        (superfluous_pred(tree))(i as int),
        (superfluous_msg(tree))(i as int) == "'implicit none' is set on the enclosing "@
            + tree.kind(s as int) + ", and isn't needed here"@,
        !(superfluous_pred(tree))(o as int),
{
    let j = choose|j: int| 0 <= j < tree.children(s as int).len() && tree.children(s as int)[j] == o;
    assert(tree.is_implicit_none(tree.children(s as int)[j] as int));
    assert(tree.has_implicit_none(s as int));
    assert(superfluous_scope(tree, i as int) == Some(s as int));
    assert(tree.parent(o as int) == Some(s));
    reveal_strlit("module");
    reveal_strlit("submodule");
    reveal_strlit("program");
    reveal_strlit("function");
    reveal_strlit("subroutine");
    assert("module"@.len() == 6 && "submodule"@.len() == 9 && "program"@.len() == 7);
    assert("function"@.len() == 8 && "subroutine"@.len() == 10);
    assert(!is_procedure(tree, s as int));
}

/// Contained functions and subroutines need not repeat the `implicit none` of
/// their enclosing scope.
pub struct SuperfluousImplicitNone {}

impl SuperfluousImplicitNone {
    pub fn method(&self) -> (r: Method)
        ensures
            r == Method::Query,
    {
        Method::Query
    }

    pub fn explain(&self) -> (r: &'static str)
        ensures
            r@ == "If a module has 'implicit none' set, it is not necessary to set it in contained
functions and subroutines (except when using interfaces)."@,
    {
        "If a module has 'implicit none' set, it is not necessary to set it in contained
functions and subroutines (except when using interfaces)."
    }

    pub fn apply(&self, tree: &SyntaxTree, src: &SourceFile) -> (r: Vec<Violation>)
        requires
            tree_fits(tree, src),
        ensures
            reports(r@, tree, src, superfluous_pred(tree), superfluous_msg(tree)),
            in_position_order(r@),
    {
        superfluous_implicit_none(tree, src)
    }
}

} // verus!
