use vstd::prelude::*;
use crate::external_functions::{ExternalFunction, external_pred, external_msg};
use crate::implicit_typing::{superfluous_scope, 
    implicit_typing, interface_implicit_typing, superfluous_implicit_none, missing_pred,
    missing_msg, interface_pred, interface_msg, superfluous_pred, superfluous_msg,
};
use crate::parse::{ParseError, parse, parses, arena_matches, children_exact, fortran_tree, NodeRecord};
use crate::rules::{Method, nodes_where, reports, is_scope, is_procedure};
use crate::selector::{RegisteredRule, Registry};
use crate::source_file::{SourceFile, lemma_span_fidelity};
use crate::syntax::SyntaxTree;
use crate::violation::{Violation, tree_fits, violation_at};

verus! {

/// The rules that the registry knows, in registry order.
#[derive(Debug, Clone, Copy, PartialEq, Eq, Structural)]
pub enum RuleKind {
    ExternalFunction,
    ImplicitTyping,
    InterfaceImplicitTyping,
    SuperfluousImplicitNone,
}

pub open spec fn ordinal(r: RuleKind) -> int {
    match r {
        RuleKind::ExternalFunction => 0,
        RuleKind::ImplicitTyping => 1,
        RuleKind::InterfaceImplicitTyping => 2,
        RuleKind::SuperfluousImplicitNone => 3,
    }
}

pub open spec fn code_of(r: RuleKind) -> Seq<char> {
    match r {
        RuleKind::ExternalFunction => "M001"@,
        RuleKind::ImplicitTyping => "T001"@,
        RuleKind::InterfaceImplicitTyping => "T002"@,
        RuleKind::SuperfluousImplicitNone => "T003"@,
    }
}

pub open spec fn rule_pred(r: RuleKind, tree: &SyntaxTree) -> spec_fn(int) -> bool {
    match r {
        RuleKind::ExternalFunction => external_pred(tree),
        RuleKind::ImplicitTyping => missing_pred(tree),
        RuleKind::InterfaceImplicitTyping => interface_pred(tree),
        RuleKind::SuperfluousImplicitNone => superfluous_pred(tree),
    }
}

pub open spec fn rule_msg(r: RuleKind, tree: &SyntaxTree) -> spec_fn(int) -> Seq<char> {
    match r {
        RuleKind::ExternalFunction => external_msg(tree),
        RuleKind::ImplicitTyping => missing_msg(tree),
        RuleKind::InterfaceImplicitTyping => interface_msg(tree),
        RuleKind::SuperfluousImplicitNone => superfluous_msg(tree),
    }
}

impl RuleKind {
    /// The stable code of the rule.
    pub fn code(&self) -> (r: &'static str)
        ensures
            r@ == code_of(*self),
    {
        match self {
            RuleKind::ExternalFunction => "M001",
            RuleKind::ImplicitTyping => "T001",
            RuleKind::InterfaceImplicitTyping => "T002",
            RuleKind::SuperfluousImplicitNone => "T003",
        }
    }

    pub fn rank(&self) -> (r: u8)
        ensures
            r == ordinal(*self),
    {
        match self {
            RuleKind::ExternalFunction => 0,
            RuleKind::ImplicitTyping => 1,
            RuleKind::InterfaceImplicitTyping => 2,
            RuleKind::SuperfluousImplicitNone => 3,
        }
    }

    /// How the rule finds its violations.
    pub fn method(&self) -> (r: Method)
        ensures
            r == (match *self {
                RuleKind::ExternalFunction => Method::Node,
                RuleKind::SuperfluousImplicitNone => Method::Query,
                _ => Method::Tree,
            }),
    {
        match self {
            RuleKind::ExternalFunction => Method::Node,
            RuleKind::SuperfluousImplicitNone => Method::Query,
            _ => Method::Tree,
        }
    }

    /// The rule at index `k` of the registry.
    pub fn from_index(k: usize) -> (r: Option<RuleKind>)
        ensures
            r is Some <==> k < 4,
            r matches Some(x) ==> ordinal(x) == k,
    {
        if k == 0 {
            Some(RuleKind::ExternalFunction)
        } else if k == 1 {
            Some(RuleKind::ImplicitTyping)
        } else if k == 2 {
            Some(RuleKind::InterfaceImplicitTyping)
        } else if k == 3 {
            Some(RuleKind::SuperfluousImplicitNone)
        } else {
            None
        }
    }

    /// Runs the rule over a whole tree.
    pub fn run(&self, tree: &SyntaxTree, src: &SourceFile) -> (r: Vec<Violation>)
        requires
            tree_fits(tree, src),
        ensures
            reports(r@, tree, src, rule_pred(*self, tree), rule_msg(*self, tree)),
    {
        match self {
            RuleKind::ExternalFunction => (ExternalFunction {  }).apply(tree, src),
            RuleKind::ImplicitTyping => implicit_typing(tree, src),
            RuleKind::InterfaceImplicitTyping => interface_implicit_typing(tree, src),
            RuleKind::SuperfluousImplicitNone => superfluous_implicit_none(tree, src),
        }
    }
}

/// The built-in registry: every rule above, in the same order, none of them
/// preview-only.
pub fn default_registry() -> (r: Registry)
    ensures
        r.rules@.len() == 4,
        forall|k: int| 0 <= k < 4 ==> !(#[trigger] r.rules@[k]).preview,
        forall|x: RuleKind| (#[trigger] r.rules@[ordinal(x)]).code@ == code_of(x),
{
    let mut rules: Vec<RegisteredRule> = Vec::new();
    let mut k: usize = 0;
    while k < 4
        invariant
            k <= 4,
            rules@.len() == k,
            forall|j: int| 0 <= j < k ==> !(#[trigger] rules@[j]).preview,
            forall|x: RuleKind| ordinal(x) < k ==> (#[trigger] rules@[ordinal(x)]).code@ == code_of(x),
        decreases 4 - k,
    {
        match RuleKind::from_index(k) {
            Some(rule) => rules.push(RegisteredRule { code: rule.code().to_owned(), preview: false }),
            None => {},
        }
        k = k + 1;
    }
    Registry { rules }
}

/// One violation together with the rule that reported it.
#[derive(Debug, Clone, PartialEq, Eq)]
pub struct Diagnostic {
    pub rule: RuleKind,
    pub violation: Violation,
}

/// What a diagnostic says: rule, message, start line and column, end line and
/// column.
pub type DiagView = (RuleKind, Seq<char>, int, int, int, int);

pub open spec fn view_of(d: Diagnostic) -> DiagView {
    (
        d.rule,
        d.violation.message@,
        d.violation.start_line as int,
        d.violation.start_col as int,
        d.violation.end_line as int,
        d.violation.end_col as int,
    )
}

/// What `rule` reports on a tree, in node order.
pub open spec fn expected_rule(rule: RuleKind, tree: &SyntaxTree, src: &SourceFile) -> Seq<DiagView> {
    nodes_where(rule_pred(rule, tree), tree.len()).map_values(
        |i: int|
            {
                let p = src.position(tree.start(i));
                (rule, rule_msg(rule, tree)(i), p.0, p.1, p.0, p.1)
            },
    )
}

/// What the rules report, rule after rule.
pub open spec fn expected_all(rules: Seq<RuleKind>, tree: &SyntaxTree, src: &SourceFile) -> Seq<
    DiagView,
>
    decreases rules.len(),
{
    if rules.len() == 0 {
        seq![]
    } else {
        expected_all(rules.drop_last(), tree, src) + expected_rule(rules.last(), tree, src)
    }
}

/// Report order: by start line, then start column, then rule.
pub open spec fn key_le(a: DiagView, b: DiagView) -> bool {
    a.2 < b.2 || (a.2 == b.2 && (a.3 < b.3 || (a.3 == b.3 && ordinal(a.0) <= ordinal(b.0))))
}

/// Where `d` goes among the first `n` entries of `s`: after the last one that
/// does not come after it.
pub open spec fn insert_pos(s: Seq<DiagView>, d: DiagView, n: int) -> int
    decreases n,
{
    if n <= 0 {
        0
    } else if key_le(s[n - 1], d) {
        n
    } else {
        insert_pos(s, d, n - 1)
    }
}

/// `s` with `d` added in report order, unless `s` already holds it.
pub open spec fn insert_view(s: Seq<DiagView>, d: DiagView) -> Seq<DiagView> {
    if s.contains(d) {
        s
    } else {
        s.insert(insert_pos(s, d, s.len() as int), d)
    }
}

/// The diagnostics of `s` in report order, each once.
pub open spec fn sorted_unique(s: Seq<DiagView>) -> Seq<DiagView>
    decreases s.len(),
{
    if s.len() == 0 {
        s
    } else {
        insert_view(sorted_unique(s.drop_last()), s.last())
    }
}

/// `s` is in report order.
pub open spec fn in_report_order(s: Seq<DiagView>) -> bool {
    forall|a: int, b: int| 0 <= a < b < s.len() ==> key_le(#[trigger] s[a], #[trigger] s[b])
}

/// No diagnostic of `s` appears twice.
pub open spec fn no_repeats(s: Seq<DiagView>) -> bool {
    forall|a: int, b: int| 0 <= a < b < s.len() ==> #[trigger] s[a] != #[trigger] s[b]
}

proof fn lemma_insert_pos(s: Seq<DiagView>, d: DiagView, n: int)
    requires
        0 <= n <= s.len(),
    ensures
        0 <= insert_pos(s, d, n) <= n,
        forall|k: int| insert_pos(s, d, n) <= k < n ==> !key_le(#[trigger] s[k], d),
        insert_pos(s, d, n) > 0 ==> key_le(s[insert_pos(s, d, n) - 1], d),
    decreases n,
{
    if n > 0 && !key_le(s[n - 1], d) {
        lemma_insert_pos(s, d, n - 1);
    }
}

proof fn lemma_insert_view(s: Seq<DiagView>, d: DiagView)
    requires
        in_report_order(s),
        no_repeats(s),
    ensures
        in_report_order(insert_view(s, d)),
        no_repeats(insert_view(s, d)),
        forall|x: DiagView| insert_view(s, d).contains(x) <==> (s.contains(x) || x == d),
{
    if !s.contains(d) {
        let p = insert_pos(s, d, s.len() as int);
        lemma_insert_pos(s, d, s.len() as int);
        let r = s.insert(p, d);
        assert forall|a: int, b: int| 0 <= a < b < r.len() implies key_le(#[trigger] r[a], #[trigger] r[b]) by {
            if b == p {
                assert(key_le(s[p - 1], d));
                assert(a == p - 1 || key_le(s[a], s[p - 1]));
            } else if a == p {
                assert(!key_le(s[b - 1], d));
            } else if a < p && b > p {
                assert(key_le(s[p - 1], d));
                assert(a == p - 1 || key_le(s[a], s[p - 1]));
                assert(!key_le(s[b - 1], d));
            }
        }
        assert forall|a: int, b: int| 0 <= a < b < r.len() implies #[trigger] r[a] != #[trigger] r[b] by {
            if a == p {
                assert(s.contains(r[b]) ==> r[b] != d);
                assert(r[b] == s[b - 1]);
            } else if b == p {
                assert(r[a] == s[a]);
            }
        }
        assert forall|x: DiagView| r.contains(x) <==> (s.contains(x) || x == d) by {
            if r.contains(x) {
                let k = choose|k: int| 0 <= k < r.len() && r[k] == x;
                if k < p {
                    assert(s[k] == x);
                } else if k > p {
                    assert(s[k - 1] == x);
                }
            }
            if s.contains(x) {
                let k = choose|k: int| 0 <= k < s.len() && s[k] == x;
                if k < p {
                    assert(r[k] == x);
                } else {
                    assert(r[k + 1] == x);
                }
            }
            if x == d {
                assert(r[p] == x);
            }
        }
    }
}

/// The engine's order, stated directly: `sorted_unique(s)` is in report order,
/// holds no diagnostic twice, and holds exactly the diagnostics of `s`.
pub proof fn lemma_sorted_unique(s: Seq<DiagView>)
    ensures
        in_report_order(sorted_unique(s)),
        no_repeats(sorted_unique(s)),
        forall|x: DiagView| sorted_unique(s).contains(x) <==> s.contains(x),
    decreases s.len(),
{
    if s.len() > 0 {
        lemma_sorted_unique(s.drop_last());
        lemma_insert_view(sorted_unique(s.drop_last()), s.last());
        assert forall|x: DiagView| sorted_unique(s).contains(x) <==> s.contains(x) by {
            if s.drop_last().contains(x) {
                let k = choose|k: int| 0 <= k < s.drop_last().len() && s.drop_last()[k] == x;
                assert(s[k] == x);
            }
            if s.contains(x) && x != s.last() {
                let k = choose|k: int| 0 <= k < s.len() && s[k] == x;
                assert(s.drop_last()[k] == x);
            }
        }
    }
}

/// Whether `a` comes no later than `b` in report order.
fn comes_before(a: &Diagnostic, b: &Diagnostic) -> (r: bool)
    ensures
        r == key_le(view_of(*a), view_of(*b)),
{
    let (x, y) = (&a.violation, &b.violation);
    x.start_line < y.start_line || (x.start_line == y.start_line && (x.start_col < y.start_col || (
    x.start_col == y.start_col && a.rule.rank() <= b.rule.rank())))
}

/// Whether `a` and `b` say the same thing.
fn same_diagnostic(a: &Diagnostic, b: &Diagnostic) -> (r: bool)
    ensures
        r == (view_of(*a) == view_of(*b)),
{
    let (x, y) = (&a.violation, &b.violation);
    a.rule == b.rule && x.message.eq(&y.message) && x.start_line == y.start_line && x.start_col
        == y.start_col && x.end_line == y.end_line && x.end_col == y.end_col
}

/// Adds `d` to `out` in report order, unless `out` already holds the same.
fn insert_diagnostic(out: &mut Vec<Diagnostic>, d: Diagnostic)
    ensures
        final(out)@.map_values(|e: Diagnostic| view_of(e)) == insert_view(
            old(out)@.map_values(|e: Diagnostic| view_of(e)),
            view_of(d),
        ),
{
    let ghost s = out@.map_values(|e: Diagnostic| view_of(e));
    let mut a: usize = 0;
    while a < out.len()
        invariant
            s == out@.map_values(|e: Diagnostic| view_of(e)),
            a <= out@.len(),
            forall|q: int| 0 <= q < a ==> s[q] != view_of(d),
        decreases out@.len() - a,
    {
        if same_diagnostic(&out[a], &d) {
            assert(s[a as int] == view_of(d));
            assert(s.contains(view_of(d)));
            return;
        }
        a = a + 1;
    }
    assert(!s.contains(view_of(d)));
    let mut p: usize = out.len();
    while p > 0 && !comes_before(&out[p - 1], &d)
        invariant
            s == out@.map_values(|e: Diagnostic| view_of(e)),
            p <= out@.len(),
            insert_pos(s, view_of(d), s.len() as int) == insert_pos(s, view_of(d), p as int),
        decreases p,
    {
        p = p - 1;
    }
    assert(insert_pos(s, view_of(d), p as int) == p);
    let ghost v = view_of(d);
    out.insert(p, d);
    assert(out@.map_values(|e: Diagnostic| view_of(e)) =~= s.insert(p as int, v));
}

/// `reports` pins down what a rule's violations say.
proof fn lemma_reports_view(
    rule: RuleKind,
    tree: &SyntaxTree,
    src: &SourceFile,
    r: Seq<Violation>,
    i: int,
)
    requires
        tree_fits(tree, src),
        reports(r, tree, src, rule_pred(rule, tree), rule_msg(rule, tree)),
        0 <= i < r.len(),
    ensures
        r.len() == expected_rule(rule, tree, src).len(),
        view_of(Diagnostic { rule, violation: r[i] }) == expected_rule(rule, tree, src)[i],
{
    let idx = nodes_where(rule_pred(rule, tree), tree.len());
    let v = r[i];
    let o = tree.start(idx[i]);
    assert(violation_at(v, rule_msg(rule, tree)(idx[i]), src, o));
    assert(src.locates(o, v.start_line as int, v.start_col as int));
    let w = (v.start_line as int, v.start_col as int);
    assert(src.locates(o, w.0, w.1));
    let p = src.position(o);
    assert(src.locates(o, p.0, p.1));
    lemma_span_fidelity(src, o, p.0, p.1, v.start_line as int, v.start_col as int);
}

/// Runs the rules over one file and reports what they find in report order:
/// by start line, start column and rule, each distinct diagnostic once.
pub fn check_file(rules: &Vec<RuleKind>, tree: &SyntaxTree, src: &SourceFile) -> (r: Vec<
    Diagnostic,
>)
    requires
        tree_fits(tree, src),
    ensures
        r@.map_values(|e: Diagnostic| view_of(e)) == sorted_unique(
            expected_all(rules@, tree, src),
        ),
        in_report_order(r@.map_values(|e: Diagnostic| view_of(e))),
        no_repeats(r@.map_values(|e: Diagnostic| view_of(e))),
        forall|x: DiagView|
            r@.map_values(|e: Diagnostic| view_of(e)).contains(x) <==> expected_all(
                rules@,
                tree,
                src,
            ).contains(x),
{
    proof {
        lemma_sorted_unique(expected_all(rules@, tree, src));
    }
    let mut out: Vec<Diagnostic> = Vec::new();
    let mut j: usize = 0;
    assert(out@.map_values(|e: Diagnostic| view_of(e)) =~= sorted_unique(
        expected_all(rules@.take(0), tree, src),
    ));
    while j < rules.len()
        invariant
            tree_fits(tree, src),
            j <= rules@.len(),
            out@.map_values(|e: Diagnostic| view_of(e)) == sorted_unique(
                expected_all(rules@.take(j as int), tree, src),
            ),
        decreases rules@.len() - j,
    {
        let rule = rules[j];
        let vs = rule.run(tree, src);
        let ghost before = expected_all(rules@.take(j as int), tree, src);
        let ghost exp = expected_rule(rule, tree, src);
        proof {
            if vs@.len() > 0 {
                lemma_reports_view(rule, tree, src, vs@, 0);
            } else {
                assert(vs@.len() == nodes_where(rule_pred(rule, tree), tree.len()).len());
            }
        }
        let mut i: usize = 0;
        while i < vs.len()
            invariant
                tree_fits(tree, src),
                reports(vs@, tree, src, rule_pred(rule, tree), rule_msg(rule, tree)),
                vs@.len() == exp.len(),
                exp == expected_rule(rule, tree, src),
                i <= vs@.len(),
                out@.map_values(|e: Diagnostic| view_of(e)) == sorted_unique(
                    before + exp.take(i as int),
                ),
            decreases vs@.len() - i,
        {
            let d = Diagnostic { rule, violation: vs[i].copied() };
            proof {
                lemma_reports_view(rule, tree, src, vs@, i as int);
                let s = before + exp.take(i as int);
                assert((before + exp.take(i + 1)).drop_last() =~= s);
                assert((before + exp.take(i + 1)).last() == exp[i as int]);
            }
            insert_diagnostic(&mut out, d);
            i = i + 1;
        }
        proof {
            assert(exp.take(vs@.len() as int) =~= exp);
            assert(rules@.take(j + 1).drop_last() =~= rules@.take(j as int));
            assert(rules@.take(j + 1).last() == rule);
        }
        j = j + 1;
    }
    assert(rules@.take(rules@.len() as int) =~= rules@);
    out
}

/// Parses one file and runs the rules over it; a file that does not parse is
/// reported as such and no rule runs on it.
pub fn check_source(rules: &Vec<RuleKind>, src: &SourceFile) -> (r: Result<
    Vec<Diagnostic>,
    ParseError,
>)
    requires
        src.wf(),
    ensures
        r is Ok <==> parses(src.bytes()),
        r == Err::<Vec<Diagnostic>, ParseError>(ParseError::TooLarge) <==> src.bytes().len()
            >= u32::MAX,
        r matches Ok(d) ==> exists|t: SyntaxTree|
            arena_matches(&t, fortran_tree(src.bytes())) && tree_fits(&t, src)
                && d@.map_values(|e: Diagnostic| view_of(e)) == sorted_unique(
                expected_all(rules@, &t, src),
            ),
{
    match parse(src) {
        Ok(tree) => {
            let d = check_file(rules, &tree, src);
            assert(arena_matches(&tree, fortran_tree(src.bytes())) && tree_fits(&tree, src));
            Ok(d)
        },
        Err(e) => Err(e),
    }
}

/// Running the engine twice on the same rules, tree and source gives the same
/// diagnostics in the same order.
pub proof fn lemma_deterministic(
    rules: Seq<RuleKind>,
    tree: &SyntaxTree,
    src: &SourceFile,
    r1: Seq<Diagnostic>,
    r2: Seq<Diagnostic>,
)
    requires
        r1.map_values(|e: Diagnostic| view_of(e)) == sorted_unique(expected_all(rules, tree, src)),
        r2.map_values(|e: Diagnostic| view_of(e)) == sorted_unique(expected_all(rules, tree, src)),
    ensures
        r1.len() == r2.len(),
        forall|k: int| 0 <= k < r1.len() ==> view_of(#[trigger] r1[k]) == view_of(r2[k]),
{
    let m1 = r1.map_values(|e: Diagnostic| view_of(e));
    let m2 = r2.map_values(|e: Diagnostic| view_of(e));
    assert(m1.len() == r1.len() && m2.len() == r2.len());
    assert forall|k: int| 0 <= k < r1.len() implies view_of(#[trigger] r1[k]) == view_of(r2[k]) by {
        assert(r1.map_values(|e: Diagnostic| view_of(e))[k] == view_of(r1[k]));
        assert(r2.map_values(|e: Diagnostic| view_of(e))[k] == view_of(r2[k]));
    }
}

} // verus!

verus! {

/// Two fitting trees that hold the same parser records.
pub open spec fn same_records(t1: &SyntaxTree, t2: &SyntaxTree, src: &SourceFile, recs: Seq<NodeRecord>) -> bool {
    tree_fits(t1, src) && tree_fits(t2, src) && arena_matches(t1, recs) && arena_matches(t2, recs)
}

proof fn lemma_same_node(t1: &SyntaxTree, t2: &SyntaxTree, src: &SourceFile, recs: Seq<NodeRecord>, i: int)
    requires
        same_records(t1, t2, src, recs),
        0 <= i < t1.len(),
    ensures
        t1.kind(i) == t2.kind(i),
        t1.start(i) == t2.start(i),
        t1.parent(i) == t2.parent(i),
        forall|c: usize| t1.children(i).contains(c) <==> t2.children(i).contains(c),
        forall|c: usize| t1.children(i).contains(c) ==> c < t1.len(),
{
    assert(t1.kind(i) == recs[i].0 && t2.kind(i) == recs[i].0);
    assert(children_exact(t1, i, t1.len()) && children_exact(t2, i, t2.len()));
    assert forall|c: usize| t1.children(i).contains(c) <==> t2.children(i).contains(c) by {
        if c < t1.len() {
            assert(t1.kind(c as int) == recs[c as int].0 && t2.kind(c as int) == recs[c as int].0);
        }
    }
}

proof fn lemma_implicit_none_one_way(a: &SyntaxTree, b: &SyntaxTree, src: &SourceFile, recs: Seq<NodeRecord>, x: int)
    requires
        same_records(a, b, src, recs),
        0 <= x < a.len(),
    ensures
        a.is_implicit_none(x) ==> b.is_implicit_none(x),
{
    lemma_same_node(a, b, src, recs, x);
    if a.is_implicit_none(x) {
        let m = choose|m: int| 0 <= m < a.children(x).len() && #[trigger] a.kind(a.children(x)[m] as int) == "none"@;
        let y = a.children(x)[m];
        assert(a.children(x).contains(y));
        assert(b.children(x).contains(y));
        let m2 = choose|m2: int| 0 <= m2 < b.children(x).len() && b.children(x)[m2] == y;
        lemma_same_node(a, b, src, recs, y as int);
        assert(b.kind(b.children(x)[m2] as int) == "none"@);
    }
}

proof fn lemma_has_implicit_none_one_way(a: &SyntaxTree, b: &SyntaxTree, src: &SourceFile, recs: Seq<NodeRecord>, i: int)
    requires
        same_records(a, b, src, recs),
        0 <= i < a.len(),
    ensures
        a.has_implicit_none(i) ==> b.has_implicit_none(i),
        a.children(i).len() != 0 ==> b.children(i).len() != 0,
{
    lemma_same_node(a, b, src, recs, i);
    if a.children(i).len() != 0 {
        assert(a.children(i).contains(a.children(i)[0]));
        assert(b.children(i).contains(a.children(i)[0]));
    }
    if a.has_implicit_none(i) {
        let j = choose|j: int| 0 <= j < a.children(i).len() && #[trigger] a.is_implicit_none(a.children(i)[j] as int);
        let x = a.children(i)[j];
        assert(a.children(i).contains(x));
        assert(b.children(i).contains(x));
        let j2 = choose|j2: int| 0 <= j2 < b.children(i).len() && b.children(i)[j2] == x;
        lemma_implicit_none_one_way(a, b, src, recs, x as int);
        assert(b.is_implicit_none(b.children(i)[j2] as int));
    }
}

proof fn lemma_same_implicit_none(t1: &SyntaxTree, t2: &SyntaxTree, src: &SourceFile, recs: Seq<NodeRecord>, i: int)
    requires
        same_records(t1, t2, src, recs),
        0 <= i < t1.len(),
    ensures
        t1.is_implicit_none(i) == t2.is_implicit_none(i),
        t1.has_implicit_none(i) == t2.has_implicit_none(i),
        (t1.children(i).len() != 0) == (t2.children(i).len() != 0),
{
    lemma_implicit_none_one_way(t1, t2, src, recs, i);
    lemma_implicit_none_one_way(t2, t1, src, recs, i);
    lemma_has_implicit_none_one_way(t1, t2, src, recs, i);
    lemma_has_implicit_none_one_way(t2, t1, src, recs, i);
}

proof fn lemma_same_pred(t1: &SyntaxTree, t2: &SyntaxTree, src: &SourceFile, recs: Seq<NodeRecord>, rule: RuleKind, i: int)
    requires
        same_records(t1, t2, src, recs),
        0 <= i < t1.len(),
    ensures
        rule_pred(rule, t1)(i) == rule_pred(rule, t2)(i),
        rule_pred(rule, t1)(i) ==> rule_msg(rule, t1)(i) == rule_msg(rule, t2)(i),
        t1.start(i) == t2.start(i),
{
    lemma_same_node(t1, t2, src, recs, i);
    lemma_same_implicit_none(t1, t2, src, recs, i);
    if let Some(p) = t1.parent(i) {
        assert(p < i);
        lemma_same_node(t1, t2, src, recs, p as int);
        if let Some(q) = t1.parent(p as int) {
            assert(q < p);
            lemma_same_node(t1, t2, src, recs, q as int);
            if let Some(s) = t1.parent(q as int) {
                assert(s < q);
                lemma_same_node(t1, t2, src, recs, s as int);
                lemma_same_implicit_none(t1, t2, src, recs, s as int);
            }
        }
    }
    assert(superfluous_scope(t1, i) == superfluous_scope(t2, i));
}

proof fn lemma_same_nodes_where(p1: spec_fn(int) -> bool, p2: spec_fn(int) -> bool, n: int)
    requires
        forall|i: int| 0 <= i < n ==> #[trigger] p1(i) == p2(i),
    ensures
        nodes_where(p1, n) == nodes_where(p2, n),
    decreases n,
{
    if n > 0 {
        lemma_same_nodes_where(p1, p2, n - 1);
    }
}

proof fn lemma_same_expected(t1: &SyntaxTree, t2: &SyntaxTree, src: &SourceFile, recs: Seq<NodeRecord>, rules: Seq<RuleKind>)
    requires
        same_records(t1, t2, src, recs),
    ensures
        expected_all(rules, t1, src) == expected_all(rules, t2, src),
    decreases rules.len(),
{
    if rules.len() > 0 {
        lemma_same_expected(t1, t2, src, recs, rules.drop_last());
        let rule = rules.last();
        assert forall|i: int| 0 <= i < t1.len() implies #[trigger] rule_pred(rule, t1)(i) == rule_pred(rule, t2)(i) by {
            lemma_same_pred(t1, t2, src, recs, rule, i);
        }
        lemma_same_nodes_where(rule_pred(rule, t1), rule_pred(rule, t2), t1.len());
        let idx = nodes_where(rule_pred(rule, t1), t1.len());
        crate::rules::lemma_nodes_where_increasing(rule_pred(rule, t1), t1.len());
        assert forall|k: int| 0 <= k < idx.len() implies rule_pred(rule, t1)(#[trigger] idx[k]) by {
            lemma_nodes_where_holds(rule_pred(rule, t1), t1.len(), k);
        }
        assert forall|k: int| 0 <= k < idx.len() implies #[trigger] expected_rule(rule, t1, src)[k] == expected_rule(rule, t2, src)[k] by {
            lemma_same_pred(t1, t2, src, recs, rule, idx[k]);
        }
        assert(expected_rule(rule, t1, src) =~= expected_rule(rule, t2, src));
    }
}

proof fn lemma_nodes_where_holds(p: spec_fn(int) -> bool, n: int, k: int)
    requires
        0 <= k < nodes_where(p, n).len(),
    ensures
        p(nodes_where(p, n)[k]),
    decreases n,
{
    if n > 0 {
        if p(n - 1) && k == nodes_where(p, n - 1).len() {
        } else {
            lemma_nodes_where_holds(p, n - 1, k);
        }
    }
}

/// Running the engine twice on the same source text and rules gives the same
/// diagnostics in the same order: whatever arena each run builds, it holds
/// the parser's tree of that text.
pub proof fn lemma_check_source_deterministic(
    rules: Seq<RuleKind>,
    src: &SourceFile,
    t1: &SyntaxTree,
    t2: &SyntaxTree,
    d1: Seq<Diagnostic>,
    d2: Seq<Diagnostic>,
)
    requires
        arena_matches(t1, fortran_tree(src.bytes())) && tree_fits(t1, src),
        arena_matches(t2, fortran_tree(src.bytes())) && tree_fits(t2, src),
        d1.map_values(|e: Diagnostic| view_of(e)) == sorted_unique(expected_all(rules, t1, src)),
        d2.map_values(|e: Diagnostic| view_of(e)) == sorted_unique(expected_all(rules, t2, src)),
    ensures
        d1.len() == d2.len(),
        forall|k: int| 0 <= k < d1.len() ==> view_of(#[trigger] d1[k]) == view_of(d2[k]),
{
    lemma_same_expected(t1, t2, src, fortran_tree(src.bytes()), rules);
    lemma_deterministic(rules, t1, src, d1, d2);
}

} // verus!
