use vstd::prelude::*;

verus! {

/// Replaces the bytes `[start, end)` of a text by `content`.
#[derive(Debug, Clone, PartialEq, Eq)]
pub struct Edit {
    pub start: usize,
    pub end: usize,
    pub content: Vec<u8>,
}

/// Whether a fix keeps the code's meaning.
#[derive(Debug, Clone, Copy, PartialEq, Eq, Structural)]
pub enum Applicability {
    Safe,
    Unsafe,
}

/// The edits that resolve one violation, with their safety.
#[derive(Debug, Clone, PartialEq, Eq)]
pub struct Fix {
    pub edits: Vec<Edit>,
    pub applicability: Applicability,
}

/// Why a set of edits was not applied; the text is then left as it was.
#[derive(Debug, Clone, Copy, PartialEq, Eq, Structural)]
pub enum FixError {
    /// An edit's range is reversed or runs past the text.
    OutOfRange,
    /// Two edits touch the same bytes, or start at the same offset.
    Overlap,
}

/// Whether a fix of this safety is applied: safe ones always, unsafe ones
/// only when asked for.
pub open spec fn applies(a: Applicability, unsafe_fixes: bool) -> bool {
    a == Applicability::Safe || unsafe_fixes
}

pub fn fix_applies(fix: &Fix, unsafe_fixes: bool) -> (r: bool)
    ensures
        r == applies(fix.applicability, unsafe_fixes),
{
    match fix.applicability {
        Applicability::Safe => true,
        Applicability::Unsafe => unsafe_fixes,
    }
}

pub open spec fn in_range(e: Edit, n: int) -> bool {
    e.start <= e.end <= n
}

pub open spec fn overlap(a: Edit, b: Edit) -> bool {
    a.start == b.start || (a.start < b.end && b.start < a.end)
}

/// Every edit lies inside a text of `n` bytes.
pub open spec fn all_in_range(edits: Seq<Edit>, n: int) -> bool {
    forall|i: int| 0 <= i < edits.len() ==> in_range(#[trigger] edits[i], n)
}

/// No two edits overlap.
pub open spec fn disjoint(edits: Seq<Edit>) -> bool {
    forall|i: int, j: int|
        0 <= i < edits.len() && 0 <= j < edits.len() && i != j ==> !overlap(
            #[trigger] edits[i],
            #[trigger] edits[j],
        )
}

/// The text from byte `pos` on, with the edits that start there or later
/// applied: an edit's content replaces its range; an insertion comes before
/// the byte it stands at.
pub open spec fn applied_from(text: Seq<u8>, edits: Seq<Edit>, pos: int) -> Seq<u8>
    decreases text.len() + 1 - pos, 
{
    if pos < 0 || pos > text.len() {
        seq![]
    } else if exists|i: int| 0 <= i < edits.len() && edits[i].start == pos {
        let e = edits[choose|i: int| 0 <= i < edits.len() && edits[i].start == pos];
        if e.end > pos && e.end <= text.len() {
            e.content@ + applied_from(text, edits, e.end as int)
        } else if e.end > pos {
            e.content@
        } else if pos < text.len() {
            e.content@ + seq![text[pos]] + applied_from(text, edits, pos + 1)
        } else {
            e.content@
        }
    } else if pos < text.len() {
        seq![text[pos]] + applied_from(text, edits, pos + 1)
    } else {
        seq![]
    }
}

/// The index of the edit that starts at `pos`, if one does.
fn edit_at(edits: &Vec<Edit>, pos: usize) -> (r: Option<usize>)
    ensures
        r is None <==> !exists|i: int| 0 <= i < edits@.len() && edits@[i].start == pos,
        r matches Some(i) ==> i < edits@.len() && edits@[i as int].start == pos,
{
    let mut i: usize = 0;
    while i < edits.len()
        invariant
            i <= edits@.len(),
            forall|q: int| 0 <= q < i ==> edits@[q].start != pos,
        decreases edits@.len() - i,
    {
        if edits[i].start == pos {
            return Some(i);
        }
        i = i + 1;
    }
    None
}

/// Applies a set of edits to a text in one pass, or rejects the whole set
/// where an edit runs past the text or two edits overlap.
pub fn apply_edits(text: &Vec<u8>, edits: &Vec<Edit>) -> (r: Result<Vec<u8>, FixError>)
    ensures
        r == Err::<Vec<u8>, FixError>(FixError::OutOfRange) <==> !all_in_range(
            edits@,
            text@.len() as int,
        ),
        r == Err::<Vec<u8>, FixError>(FixError::Overlap) <==> all_in_range(
            edits@,
            text@.len() as int,
        ) && !disjoint(edits@),
        r matches Ok(out) ==> out@ == applied_from(text@, edits@, 0),
{
    let n = text.len();
    let mut i: usize = 0;
    while i < edits.len()
        invariant
            i <= edits@.len(),
            n == text@.len(),
            forall|q: int| 0 <= q < i ==> in_range(#[trigger] edits@[q], n as int),
        decreases edits@.len() - i,
    {
        if edits[i].start > edits[i].end || edits[i].end > n {
            return Err(FixError::OutOfRange);
        }
        i = i + 1;
    }
    let mut i: usize = 0;
    while i < edits.len()
        invariant
            i <= edits@.len(),
            n == text@.len(),
            all_in_range(edits@, n as int),
            forall|a: int, b: int|
                0 <= a < i && 0 <= b < edits@.len() && a != b ==> !overlap(
                    #[trigger] edits@[a],
                    #[trigger] edits@[b],
                ),
        decreases edits@.len() - i,
    {
        let mut j: usize = 0;
        while j < edits.len()
            invariant
                i < edits@.len(),
                j <= edits@.len(),
                n == text@.len(),
                all_in_range(edits@, n as int),
                forall|a: int, b: int|
                    0 <= a < i && 0 <= b < edits@.len() && a != b ==> !overlap(
                        #[trigger] edits@[a],
                        #[trigger] edits@[b],
                    ),
                forall|b: int| 0 <= b < j && i != b ==> !overlap(edits@[i as int], #[trigger] edits@[b]),
            decreases edits@.len() - j,
        {
            if i != j {
                let (a, b) = (&edits[i], &edits[j]);
                if a.start == b.start || (a.start < b.end && b.start < a.end) {
                    assert(overlap(edits@[i as int], edits@[j as int]));
                    return Err(FixError::Overlap);
                }
            }
            j = j + 1;
        }
        i = i + 1;
    }
    let ghost t = text@;
    let ghost es = edits@;
    let mut out: Vec<u8> = Vec::new();
    let mut pos: usize = 0;
    let mut done = false;
    while !done
        invariant
            n == t.len(),
            t == text@,
            es == edits@,
            all_in_range(es, n as int),
            disjoint(es),
            pos <= n,
            done ==> out@ == applied_from(t, es, 0),
            !done ==> out@ + applied_from(t, es, pos as int) == applied_from(t, es, 0),
        decreases n + 1 - pos + if done { 0int } else { 1int },
    {
        let ghost before = out@;
        match edit_at(edits, pos) {
            Some(k) => {
                proof {
                    let c = choose|q: int| 0 <= q < es.len() && es[q].start == pos;
                    if c != k as int {
                        assert(overlap(es[c], es[k as int]));
                    }
                }
                let e = &edits[k];
                let mut m: usize = 0;
                while m < e.content.len()
                    invariant
                        m <= e.content@.len(),
                        out@ == before + e.content@.subrange(0, m as int),
                    decreases e.content@.len() - m,
                {
                    out.push(e.content[m]);
                    assert(out@ =~= before + e.content@.subrange(0, m + 1));
                    m = m + 1;
                }
                assert(e.content@.subrange(0, m as int) =~= e.content@);
                if e.end > pos {
                    assert(out@ + applied_from(t, es, e.end as int) =~= before + applied_from(t, es, pos as int));
                    pos = e.end;
                } else if pos < n {
                    let ghost mid = out@;
                    out.push(text[pos]);
                    assert(out@ + applied_from(t, es, pos + 1) =~= before + applied_from(t, es, pos as int));
                    pos = pos + 1;
                } else {
                    assert(out@ =~= before + applied_from(t, es, pos as int));
                    done = true;
                }
            },
            None => {
                if pos < n {
                    out.push(text[pos]);
                    assert(out@ + applied_from(t, es, pos + 1) =~= before + applied_from(t, es, pos as int));
                    pos = pos + 1;
                } else {
                    assert(applied_from(t, es, pos as int) =~= seq![]);
                    assert(out@ =~= before + applied_from(t, es, pos as int));
                    done = true;
                }
            },
        }
    }
    Ok(out)
}

/// With no edits, the text from `pos` on comes out as it is.
proof fn lemma_no_edits_from(text: Seq<u8>, pos: int)
    requires
        0 <= pos <= text.len(),
    ensures
        applied_from(text, seq![], pos) == text.subrange(pos, text.len() as int),
    decreases text.len() - pos,
{
    let none: Seq<Edit> = seq![];
    assert(!exists|i: int| 0 <= i < none.len() && none[i].start == pos);
    if pos < text.len() {
        lemma_no_edits_from(text, pos + 1);
        assert(seq![text[pos]] + text.subrange(pos + 1, text.len() as int) =~= text.subrange(
            pos,
            text.len() as int,
        ));
    } else {
        assert(text.subrange(pos, text.len() as int) =~= seq![]);
    }
}

/// Fixing a text once no fix applies leaves it unchanged: running the fixer
/// again on fixed output whose violations carry no applicable fix is a no-op.
pub proof fn lemma_refix_is_noop(text: Seq<u8>, fixes: Seq<Fix>, unsafe_fixes: bool)
    requires
        forall|i: int|
            0 <= i < fixes.len() ==> !applies(#[trigger] fixes[i].applicability, unsafe_fixes),
    ensures
        chosen_edits(fixes, unsafe_fixes) == Seq::<Edit>::empty(),
        applied_from(text, chosen_edits(fixes, unsafe_fixes), 0) == text,
    decreases fixes.len(),
{
    if fixes.len() > 0 {
        let rest = fixes.subrange(1, fixes.len() as int);
        assert forall|i: int|
            0 <= i < rest.len() implies !applies(#[trigger] rest[i].applicability, unsafe_fixes) by {
            assert(rest[i] == fixes[i + 1]);
        }
        lemma_refix_is_noop(text, rest, unsafe_fixes);
        assert(!applies(fixes[0].applicability, unsafe_fixes));
        assert(chosen_edits(fixes, unsafe_fixes) =~= Seq::<Edit>::empty());
    }
    lemma_no_edits_from(text, 0);
    assert(text.subrange(0, text.len() as int) =~= text);
}

/// The edits of the fixes that apply, fix after fix.
pub open spec fn chosen_edits(fixes: Seq<Fix>, unsafe_fixes: bool) -> Seq<Edit>
    decreases fixes.len(),
{
    if fixes.len() == 0 {
        seq![]
    } else {
        (if applies(fixes[0].applicability, unsafe_fixes) {
            fixes[0].edits@
        } else {
            seq![]
        }) + chosen_edits(fixes.subrange(1, fixes.len() as int), unsafe_fixes)
    }
}

/// How many of the fixes apply.
pub open spec fn chosen_count(fixes: Seq<Fix>, unsafe_fixes: bool) -> int
    decreases fixes.len(),
{
    if fixes.len() == 0 {
        0
    } else {
        (if applies(fixes[0].applicability, unsafe_fixes) {
            1int
        } else {
            0int
        }) + chosen_count(fixes.subrange(1, fixes.len() as int), unsafe_fixes)
    }
}

/// Applies every safe fix, and the unsafe ones too where `unsafe_fixes` is
/// set, in one pass; returns the fixed text and the number of fixes applied.
/// A set of edits that overlap or run past the text is rejected whole.
pub fn apply_fixes(text: &Vec<u8>, fixes: Vec<Fix>, unsafe_fixes: bool) -> (r: Result<
    (Vec<u8>, usize),
    FixError,
>)
    ensures
        r == Err::<(Vec<u8>, usize), FixError>(FixError::OutOfRange) <==> !all_in_range(
            chosen_edits(fixes@, unsafe_fixes),
            text@.len() as int,
        ),
        r == Err::<(Vec<u8>, usize), FixError>(FixError::Overlap) <==> all_in_range(
            chosen_edits(fixes@, unsafe_fixes),
            text@.len() as int,
        ) && !disjoint(chosen_edits(fixes@, unsafe_fixes)),
        r matches Ok((out, n)) ==> out@ == applied_from(
            text@,
            chosen_edits(fixes@, unsafe_fixes),
            0,
        ) && n == chosen_count(fixes@, unsafe_fixes),
{
    let ghost all = fixes@;
    let total = fixes.len();
    let mut rest = fixes;
    let mut edits: Vec<Edit> = Vec::new();
    let mut count: usize = 0;
    while rest.len() > 0
        invariant
            edits@ + chosen_edits(rest@, unsafe_fixes) == chosen_edits(all, unsafe_fixes),
            count + chosen_count(rest@, unsafe_fixes) == chosen_count(all, unsafe_fixes),
            count <= all.len() - rest@.len(),
            rest@.len() <= all.len(),
            all.len() == total,
        decreases rest@.len(),
    {
        let ghost before = rest@;
        let mut f = rest.remove(0);
        assert(before.subrange(1, before.len() as int) =~= rest@);
        if fix_applies(&f, unsafe_fixes) {
            let ghost e0 = edits@;
            edits.append(&mut f.edits);
            assert(edits@ + chosen_edits(rest@, unsafe_fixes) =~= e0 + chosen_edits(before, unsafe_fixes));
            count = count + 1;
        } else {
            assert(edits@ + chosen_edits(rest@, unsafe_fixes) =~= edits@ + chosen_edits(before, unsafe_fixes));
        }
    }
    assert(edits@ =~= chosen_edits(all, unsafe_fixes));
    match apply_edits(text, &edits) {
        Ok(out) => Ok((out, count)),
        Err(e) => Err(e),
    }
}

} // verus!
