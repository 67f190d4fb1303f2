use vstd::prelude::*;

verus! {

/// A user token naming rules: an exact code, a code prefix, or every rule.
#[derive(Debug, Clone, PartialEq, Eq)]
pub enum RuleSelector {
    All,
    Prefix(String),
    Code(String),
}

/// One rule of a registry: its code and whether it is preview-only.
#[derive(Debug, Clone, PartialEq, Eq)]
pub struct RegisteredRule {
    pub code: String,
    pub preview: bool,
}

/// The catalog of rules that selectors resolve against.
pub struct Registry {
    pub rules: Vec<RegisteredRule>,
}

/// The selector lists of a selection.
#[derive(Debug, Clone, Copy, PartialEq, Eq)]
pub enum SelectorList {
    Select,
    ExtendSelect,
    Ignore,
    ExtendIgnore,
    FileIgnore,
}

/// Why a set of selectors could not be resolved.
#[derive(Debug, Clone, Copy, PartialEq, Eq)]
pub enum SelectorError {
    /// No registered code equals, or starts with, the selector at this index
    /// of this list.
    Unmatched(SelectorList, usize),
}

/// `p` is a prefix of `s`.
pub open spec fn is_prefix(p: Seq<char>, s: Seq<char>) -> bool {
    p.len() <= s.len() && s.subrange(0, p.len() as int) == p
}

/// Selector `sel` picks registered rule `k`; `All` skips preview-only rules
/// unless preview mode is on.
pub open spec fn picks(reg: &Registry, sel: RuleSelector, k: int, preview: bool) -> bool {
    match sel {
        RuleSelector::All => !reg.rules@[k].preview || preview,
        RuleSelector::Prefix(p) => is_prefix(p@, reg.rules@[k].code@),
        RuleSelector::Code(c) => c@ == reg.rules@[k].code@,
    }
}

/// Some selector of `sels` picks rule `k`.
pub open spec fn any_picks(reg: &Registry, sels: Seq<RuleSelector>, k: int, preview: bool) -> bool {
    exists|j: int| 0 <= j < sels.len() && #[trigger] picks(reg, sels[j], k, preview)
}

/// A code or prefix that no registered code equals or starts with.
pub open spec fn unmatched(reg: &Registry, sel: RuleSelector) -> bool {
    match sel {
        RuleSelector::All => false,
        _ => forall|k: int| 0 <= k < reg.rules@.len() ==> !#[trigger] picks(reg, sel, k, true),
    }
}

/// Some selector of `sels` is unmatched.
pub open spec fn any_unmatched(reg: &Registry, sels: Seq<RuleSelector>) -> bool {
    exists|j: int| 0 <= j < sels.len() && #[trigger] unmatched(reg, sels[j])
}

/// The five selector lists that decide which rules run on a file.
pub struct Selection {
    pub select: Option<Vec<RuleSelector>>,
    pub extend_select: Vec<RuleSelector>,
    pub ignore: Vec<RuleSelector>,
    pub extend_ignore: Vec<RuleSelector>,
    pub file_ignore: Vec<RuleSelector>,
}

/// The selected seed: the `select` list where one is given, else every stable
/// rule (and every rule in preview mode).
pub open spec fn seeded(reg: &Registry, s: &Selection, k: int, preview: bool) -> bool {
    match s.select {
        Some(v) => any_picks(reg, v@, k, preview),
        None => !reg.rules@[k].preview || preview,
    }
}

/// Rule `k` runs: seeded or added by `extend_select`, and removed by none of
/// `ignore`, `extend_ignore` and the per-file ignores.
pub open spec fn enabled(reg: &Registry, s: &Selection, k: int, preview: bool) -> bool {
    &&& (seeded(reg, s, k, preview) || any_picks(reg, s.extend_select@, k, preview))
    &&& !any_picks(reg, s.ignore@, k, preview)
    &&& !any_picks(reg, s.extend_ignore@, k, preview)
    &&& !any_picks(reg, s.file_ignore@, k, preview)
}

/// Some list of the selection holds an unmatched selector.
pub open spec fn selection_unmatched(reg: &Registry, s: &Selection) -> bool {
    ||| (s.select matches Some(v) && any_unmatched(reg, v@))
    ||| any_unmatched(reg, s.extend_select@)
    ||| any_unmatched(reg, s.ignore@)
    ||| any_unmatched(reg, s.extend_ignore@)
    ||| any_unmatched(reg, s.file_ignore@)
}

/// Whether `p` is a prefix of `s`.
fn prefix_of(p: &String, s: &String) -> (r: bool)
    ensures
        r == is_prefix(p@, s@),
{
    let a = p.as_str();
    let b = s.as_str();
    let n = a.unicode_len();
    if n > b.unicode_len() {
        return false;
    }
    let mut i: usize = 0;
    while i < n
        invariant
            a@ == p@,
            b@ == s@,
            n == p@.len(),
            n <= s@.len(),
            i <= n,
            forall|j: int| 0 <= j < i ==> p@[j] == s@[j],
        decreases n - i,
    {
        if a.get_char(i) != b.get_char(i) {
            assert(s@.subrange(0, n as int)[i as int] != p@[i as int]);
            return false;
        }
        i = i + 1;
    }
    assert(s@.subrange(0, n as int) =~= p@);
    true
}

/// `sel` is how `token` reads against the registry: `ALL`, a registered
/// code, or else a prefix.
pub open spec fn parsed_as(reg: &Registry, token: Seq<char>, sel: RuleSelector) -> bool {
    if token == "ALL"@ {
        sel == RuleSelector::All
    } else if exists|k: int| 0 <= k < reg.rules@.len() && #[trigger] reg.rules@[k].code@ == token {
        sel matches RuleSelector::Code(c) && c@ == token
    } else {
        sel matches RuleSelector::Prefix(p) && p@ == token
    }
}

impl Registry {
    /// Whether selector `sel` picks rule `k`.
    pub fn selects(&self, sel: &RuleSelector, k: usize, preview: bool) -> (r: bool)
        requires
            k < self.rules@.len(),
        ensures
            r == picks(self, *sel, k as int, preview),
    {
        match sel {
            RuleSelector::All => !self.rules[k].preview || preview,
            RuleSelector::Prefix(p) => prefix_of(p, &self.rules[k].code),
            RuleSelector::Code(c) => c.eq(&self.rules[k].code),
        }
    }

    /// Whether some selector of `sels` picks rule `k`.
    pub fn any_selects(&self, sels: &Vec<RuleSelector>, k: usize, preview: bool) -> (r: bool)
        requires
            k < self.rules@.len(),
        ensures
            r == any_picks(self, sels@, k as int, preview),
    {
        let mut j: usize = 0;
        while j < sels.len()
            invariant
                k < self.rules@.len(),
                j <= sels@.len(),
                forall|q: int| 0 <= q < j ==> !picks(self, sels@[q], k as int, preview),
            decreases sels@.len() - j,
        {
            if self.selects(&sels[j], k, preview) {
                return true;
            }
            j = j + 1;
        }
        false
    }

    /// The first selector of `sels` that picks no registered rule, if any.
    pub fn find_unmatched(&self, sels: &Vec<RuleSelector>) -> (r: Option<usize>)
        ensures
            r is None <==> !any_unmatched(self, sels@),
            r matches Some(j) ==> j < sels@.len() && unmatched(self, sels@[j as int]),
    {
        let mut j: usize = 0;
        while j < sels.len()
            invariant
                j <= sels@.len(),
                forall|q: int| 0 <= q < j ==> !unmatched(self, #[trigger] sels@[q]),
            decreases sels@.len() - j,
        {
            let sel = &sels[j];
            match sel {
                RuleSelector::All => {},
                _ => {
                    let mut k: usize = 0;
                    let mut found = false;
                    while k < self.rules.len() && !found
                        invariant
                            k <= self.rules@.len(),
                            found ==> !unmatched(self, *sel),
                            !found ==> forall|m: int| 0 <= m < k ==> !picks(self, *sel, m, true),
                            j < sels@.len(),
                            *sel == sels@[j as int],
                            sel !is All,
                        decreases self.rules@.len() - k + if found { 0int } else { 1int },
                    {
                        if self.selects(sel, k, true) {
                            found = true;
                        } else {
                            k = k + 1;
                        }
                    }
                    if !found {
                        assert(unmatched(self, sels@[j as int]));
                        return Some(j);
                    }
                },
            }
            j = j + 1;
        }
        None
    }
}

/// The rule indices of `v` are strictly increasing, each below `n`, and are
/// exactly those for which `sel` holds.
pub open spec fn lists_exactly(v: Seq<usize>, n: int, sel: spec_fn(int) -> bool) -> bool {
    &&& forall|a: int, b: int| 0 <= a < b < v.len() ==> v[a] < v[b]
    &&& forall|a: int| 0 <= a < v.len() ==> v[a] < n && sel(v[a] as int)
    &&& forall|k: int| 0 <= k < n && #[trigger] sel(k) ==> exists|a: int| 0 <= a < v.len() && v[a] == k
}

pub open spec fn enabled_pred(reg: &Registry, s: &Selection, preview: bool) -> spec_fn(int) -> bool {
    |k: int| enabled(reg, s, k, preview)
}

impl Registry {
    /// Reads a selector token: `ALL`, a registered code, or else a prefix.
    pub fn parse_selector(&self, token: &str) -> (r: RuleSelector)
        ensures
            parsed_as(self, token@, r),
    {
        let t = token.to_owned();
        if t.eq(&"ALL".to_owned()) {
            return RuleSelector::All;
        }
        let mut k: usize = 0;
        while k < self.rules.len()
            invariant
                t@ == token@,
                token@ != "ALL"@,
                k <= self.rules@.len(),
                forall|m: int| 0 <= m < k ==> self.rules@[m].code@ != token@,
            decreases self.rules@.len() - k,
        {
            if self.rules[k].code.eq(&t) {
                return RuleSelector::Code(t);
            }
            k = k + 1;
        }
        RuleSelector::Prefix(t)
    }

    /// Whether rule `k` runs under selection `s`.
    pub fn is_enabled(&self, s: &Selection, k: usize, preview: bool) -> (r: bool)
        requires
            k < self.rules@.len(),
        ensures
            r == enabled(self, s, k as int, preview),
    {
        let seeded = match &s.select {
            Some(v) => self.any_selects(v, k, preview),
            None => !self.rules[k].preview || preview,
        };
        (seeded || self.any_selects(&s.extend_select, k, preview)) && !self.any_selects(
            &s.ignore,
            k,
            preview,
        ) && !self.any_selects(&s.extend_ignore, k, preview) && !self.any_selects(
            &s.file_ignore,
            k,
            preview,
        )
    }

    /// Resolves a selection to the indices of the rules that run, in registry
    /// order; fails on the first selector that matches no registered code.
    pub fn resolve(&self, s: &Selection, preview: bool) -> (r: Result<Vec<usize>, SelectorError>)
        ensures
            r is Err <==> selection_unmatched(self, s),
            r matches Err(SelectorError::Unmatched(list, j)) ==> match list {
                SelectorList::Select => s.select matches Some(v) && j < v@.len() && unmatched(
                    self,
                    v@[j as int],
                ),
                SelectorList::ExtendSelect => j < s.extend_select@.len() && unmatched(
                    self,
                    s.extend_select@[j as int],
                ),
                SelectorList::Ignore => j < s.ignore@.len() && unmatched(self, s.ignore@[j as int]),
                SelectorList::ExtendIgnore => j < s.extend_ignore@.len() && unmatched(
                    self,
                    s.extend_ignore@[j as int],
                ),
                SelectorList::FileIgnore => j < s.file_ignore@.len() && unmatched(
                    self,
                    s.file_ignore@[j as int],
                ),
            },
            r matches Ok(v) ==> lists_exactly(
                v@,
                self.rules@.len() as int,
                enabled_pred(self, s, preview),
            ),
    {
        match &s.select {
            Some(v) => {
                match self.find_unmatched(v) {
                    Some(j) => return Err(SelectorError::Unmatched(SelectorList::Select, j)),
                    None => {},
                }
            },
            None => {},
        }
        match self.find_unmatched(&s.extend_select) {
            Some(j) => return Err(SelectorError::Unmatched(SelectorList::ExtendSelect, j)),
            None => {},
        }
        match self.find_unmatched(&s.ignore) {
            Some(j) => return Err(SelectorError::Unmatched(SelectorList::Ignore, j)),
            None => {},
        }
        match self.find_unmatched(&s.extend_ignore) {
            Some(j) => return Err(SelectorError::Unmatched(SelectorList::ExtendIgnore, j)),
            None => {},
        }
        match self.find_unmatched(&s.file_ignore) {
            Some(j) => return Err(SelectorError::Unmatched(SelectorList::FileIgnore, j)),
            None => {},
        }
        let mut out: Vec<usize> = Vec::new();
        let mut k: usize = 0;
        while k < self.rules.len()
            invariant
                k <= self.rules@.len(),
                forall|a: int, b: int| 0 <= a < b < out@.len() ==> out@[a] < out@[b],
                forall|a: int|
                    0 <= a < out@.len() ==> out@[a] < k && enabled(self, s, out@[a] as int, preview),
                forall|m: int|
                    0 <= m < k && enabled(self, s, m, preview) ==> exists|a: int|
                        0 <= a < out@.len() && out@[a] == m,
            decreases self.rules@.len() - k,
        {
            let ghost old_out = out@;
            if self.is_enabled(s, k, preview) {
                out.push(k);
                assert(out@[out@.len() - 1] == k);
            }
            assert forall|m: int|
                0 <= m < k + 1 && enabled(self, s, m, preview) implies exists|a: int|
                    0 <= a < out@.len() && out@[a] == m by {
                if m < k {
                    let a = choose|a: int| 0 <= a < old_out.len() && old_out[a] == m;
                    assert(out@[a] == m);
                } else {
                    assert(out@[out@.len() - 1] == k);
                }
            }
            k = k + 1;
        }
        Ok(out)
    }
}

/// With `select = [a]`, `extend_select = [b]` and `ignore = [a]`, for two
/// different codes, exactly the rules with code `b` run: the ignore list wins
/// over the select list, and the extension survives.
pub proof fn lemma_selector_precedence(
    reg: &Registry,
    s: &Selection,
    a: String,
    b: String,
    k: int,
    preview: bool,
)
    requires
        a@ != b@,
        0 <= k < reg.rules@.len(),
        s.select matches Some(v) && v@ == seq![RuleSelector::Code(a)],
        s.extend_select@ == seq![RuleSelector::Code(b)],
        s.ignore@ == seq![RuleSelector::Code(a)],
        s.extend_ignore@.len() == 0,
        s.file_ignore@.len() == 0,
    ensures
        enabled(reg, s, k, preview) <==> reg.rules@[k].code@ == b@,
{
    let v = s.select->0;
    assert(any_picks(reg, v@, k, preview) <==> picks(reg, v@[0], k, preview));
    assert(any_picks(reg, s.extend_select@, k, preview) <==> picks(
        reg,
        s.extend_select@[0],
        k,
        preview,
    ));
    assert(any_picks(reg, s.ignore@, k, preview) <==> picks(reg, s.ignore@[0], k, preview));
}

/// A prefix selector picks exactly the registered codes that start with it,
/// and `ALL` outside preview mode picks exactly the stable rules.
pub proof fn lemma_prefix_expansion(reg: &Registry, p: String, k: int)
    requires
        0 <= k < reg.rules@.len(),
    ensures
        picks(reg, RuleSelector::Prefix(p), k, false) <==> is_prefix(p@, reg.rules@[k].code@),
        picks(reg, RuleSelector::All, k, false) <==> !reg.rules@[k].preview,
{
}

} // verus!
