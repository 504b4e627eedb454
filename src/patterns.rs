//! Grouping of mechanical changes that removed the same token.
use vstd::prelude::*;
use vstd::utf8::encode_utf8;
use crate::classify::{
    contains_str, dedup, lemma_dedup_contains, strs_view, CategorizedChange, CategorizedView, ChangeCategory,
};

verus! {

/// A token removed by several mechanical changes, with their positions.
#[derive(Debug, Clone)]
pub struct PatternGroup {
    pub token: String,
    pub members: Vec<usize>,
}

pub struct PatternView {
    pub token: Seq<char>,
    pub members: Seq<usize>,
}

impl View for PatternGroup {
    type V = PatternView;

    open spec fn view(&self) -> PatternView {
        PatternView { token: self.token@, members: self.members@ }
    }
}

/// The views of a sequence of changes.
pub open spec fn changes_view(cs: Seq<CategorizedChange>) -> Seq<CategorizedView> {
    cs.map_values(|c: CategorizedChange| c@)
}

/// The views of a sequence of groups.
pub open spec fn groups_view(gs: Seq<PatternGroup>) -> Seq<PatternView> {
    gs.map_values(|g: PatternGroup| g@)
}

/// Whether a token is long enough to form a pattern: three UTF-8 bytes or
/// more.
pub open spec fn is_long(t: Seq<char>) -> bool {
    encode_utf8(t).len() >= 3
}

/// Whether `t` is long enough to form a pattern.
pub fn token_is_long(t: &String) -> (r: bool)
    ensures
        r == is_long(t@),
{
    let ts = t.as_str();
    let b = ts.as_bytes();
    b.len() >= 3
}

/// The long tokens of `ts`, in order.
pub open spec fn long_tokens(ts: Seq<Seq<char>>) -> Seq<Seq<char>>
    decreases ts.len(),
{
    if ts.len() == 0 {
        seq![]
    } else if is_long(ts.last()) {
        long_tokens(ts.drop_last()).push(ts.last())
    } else {
        long_tokens(ts.drop_last())
    }
}

/// The long removed tokens of the mechanical changes, change by change.
pub open spec fn occurrences(cs: Seq<CategorizedView>) -> Seq<Seq<char>>
    decreases cs.len(),
{
    if cs.len() == 0 {
        seq![]
    } else if cs.last().category == ChangeCategory::Mechanical {
        occurrences(cs.drop_last()) + long_tokens(cs.last().removed)
    } else {
        occurrences(cs.drop_last())
    }
}

/// The positions of the mechanical changes that removed the long token `t`,
/// ascending.
pub open spec fn members(cs: Seq<CategorizedView>, t: Seq<char>) -> Seq<usize>
    decreases cs.len(),
{
    if cs.len() == 0 {
        seq![]
    } else if cs.last().category == ChangeCategory::Mechanical && is_long(t)
        && cs.last().removed.contains(t) {
        members(cs.drop_last(), t).push((cs.len() - 1) as usize)
    } else {
        members(cs.drop_last(), t)
    }
}

/// The groups of the tokens of `ts` that have exactly `m` members, in the
/// order of `ts`.
pub open spec fn groups_of_size(ts: Seq<Seq<char>>, cs: Seq<CategorizedView>, m: nat) -> Seq<
    PatternView,
>
    decreases ts.len(),
{
    if ts.len() == 0 {
        seq![]
    } else if members(cs, ts.last()).len() == m {
        groups_of_size(ts.drop_last(), cs, m).push(
            PatternView { token: ts.last(), members: members(cs, ts.last()) },
        )
    } else {
        groups_of_size(ts.drop_last(), cs, m)
    }
}

/// The groups with `m` members or fewer but at least two, largest first.
pub open spec fn groups_down_from(ts: Seq<Seq<char>>, cs: Seq<CategorizedView>, m: nat) -> Seq<
    PatternView,
>
    decreases m,
{
    if m < 2 {
        seq![]
    } else {
        groups_of_size(ts, cs, m) + groups_down_from(ts, cs, (m - 1) as nat)
    }
}

/// The pattern groups of a batch: every long token removed by at least two
/// mechanical changes, with their positions; larger groups first, and groups
/// of one size in the order in which their tokens were first seen.
pub open spec fn pattern_groups(cs: Seq<CategorizedView>) -> Seq<PatternView> {
    groups_down_from(dedup(occurrences(cs)), cs, cs.len())
}

/// The distinct long tokens removed by the mechanical changes, in the order
/// in which they are first seen.
fn candidate_tokens(changes: &[CategorizedChange]) -> (r: Vec<String>)
    ensures
        strs_view(r@) == dedup(occurrences(changes_view(changes@))),
{
    let ghost cs = changes_view(changes@);
    let mut r: Vec<String> = Vec::new();
    let ghost mut seen: Seq<Seq<char>> = seq![];
    let mut i: usize = 0;
    while i < changes.len()
        invariant
            i <= changes.len(),
            cs == changes_view(changes@),
            seen == occurrences(cs.take(i as int)),
            strs_view(r@) == dedup(seen),
        decreases changes.len() - i,
    {
        let c = &changes[i];
        assert(cs[i as int] == c@);
        assert(cs.take(i + 1).drop_last() =~= cs.take(i as int));
        if c.category == ChangeCategory::Mechanical {
            let ghost base = seen;
            let ghost ts = strs_view(c.removed_tokens@);
            let mut j: usize = 0;
            while j < c.removed_tokens.len()
                invariant
                    j <= c.removed_tokens.len(),
                    ts == strs_view(c.removed_tokens@),
                    seen == base + long_tokens(ts.take(j as int)),
                    strs_view(r@) == dedup(seen),
                decreases c.removed_tokens.len() - j,
            {
                let t = &c.removed_tokens[j];
                assert(ts.take(j + 1).drop_last() =~= ts.take(j as int));
                assert(ts.take(j + 1).last() == t@);
                if token_is_long(t) {
                    let ghost before = r@;
                    if !contains_str(&r, t) {
                        r.push(t.clone());
                        assert(strs_view(r@) =~= strs_view(before).push(t@));
                    }
                    proof {
                        assert((seen.push(t@)).drop_last() =~= seen);
                        assert(base + long_tokens(ts.take(j + 1)) =~= seen.push(t@));
                        seen = seen.push(t@);
                    }
                }
                j = j + 1;
            }
            assert(ts.take(c.removed_tokens.len() as int) =~= ts);
        }
        i = i + 1;
    }
    assert(cs.take(changes.len() as int) =~= cs);
    r
}

/// The positions of the mechanical changes that removed the long token `t`.
fn token_members(changes: &[CategorizedChange], t: &String) -> (r: Vec<usize>)
    ensures
        r@ == members(changes_view(changes@), t@),
{
    let ghost cs = changes_view(changes@);
    let long = token_is_long(t);
    let mut r: Vec<usize> = Vec::new();
    let mut i: usize = 0;
    while i < changes.len()
        invariant
            i <= changes.len(),
            cs == changes_view(changes@),
            long == is_long(t@),
            r@ == members(cs.take(i as int), t@),
        decreases changes.len() - i,
    {
        let c = &changes[i];
        assert(cs[i as int] == c@);
        assert(cs.take(i + 1).drop_last() =~= cs.take(i as int));
        assert(cs.take(i + 1).last() == c@);
        if c.category == ChangeCategory::Mechanical && long && contains_str(&c.removed_tokens, t) {
            r.push(i);
        }
        i = i + 1;
    }
    assert(cs.take(changes.len() as int) =~= cs);
    r
}

/// A copy of `v`.
fn copy_positions(v: &Vec<usize>) -> (r: Vec<usize>)
    ensures
        r@ == v@,
{
    let mut r: Vec<usize> = Vec::new();
    let mut k: usize = 0;
    while k < v.len()
        invariant
            k <= v.len(),
            r@ == v@.take(k as int),
        decreases v.len() - k,
    {
        r.push(v[k]);
        assert(r@ =~= v@.take(k + 1));
        k = k + 1;
    }
    assert(v@.take(v.len() as int) =~= v@);
    r
}

/// Groups the mechanical changes of a batch by the long tokens they removed:
/// one group per token removed by two or more of them, largest first, ties in
/// first-seen order.
pub fn detect_patterns(changes: &[CategorizedChange]) -> (r: Vec<PatternGroup>)
    ensures
        groups_view(r@) == pattern_groups(changes_view(changes@)),
{
    let ghost cs = changes_view(changes@);
    let cands = candidate_tokens(changes);
    let ghost ts = strs_view(cands@);
    let mut mems: Vec<Vec<usize>> = Vec::new();
    let mut k: usize = 0;
    while k < cands.len()
        invariant
            k <= cands.len(),
            cs == changes_view(changes@),
            ts == strs_view(cands@),
            mems.len() == k,
            forall|q: int| 0 <= q < k ==> (#[trigger] mems@[q])@ == members(cs, ts[q]),
        decreases cands.len() - k,
    {
        let m = token_members(changes, &cands[k]);
        mems.push(m);
        k = k + 1;
    }
    let mut r: Vec<PatternGroup> = Vec::new();
    let mut m: usize = changes.len();
    assert(groups_view(r@) + groups_down_from(ts, cs, m as nat) =~= groups_down_from(ts, cs, cs.len()));
    while m >= 2
        invariant
            m <= changes.len(),
            cs == changes_view(changes@),
            ts == strs_view(cands@),
            mems.len() == cands.len(),
            forall|q: int| 0 <= q < cands.len() ==> (#[trigger] mems@[q])@ == members(cs, ts[q]),
            groups_view(r@) + groups_down_from(ts, cs, m as nat) == groups_down_from(ts, cs, cs.len()),
        decreases m,
    {
        let ghost start = groups_view(r@);
        let mut k: usize = 0;
        while k < cands.len()
            invariant
                2 <= m <= changes.len(),
                k <= cands.len(),
                cs == changes_view(changes@),
                ts == strs_view(cands@),
                mems.len() == cands.len(),
                forall|q: int| 0 <= q < cands.len() ==> (#[trigger] mems@[q])@ == members(cs, ts[q]),
                groups_view(r@) == start + groups_of_size(ts.take(k as int), cs, m as nat),
            decreases cands.len() - k,
        {
            assert(ts.take(k + 1).drop_last() =~= ts.take(k as int));
            assert(ts.take(k + 1).last() == cands@[k as int]@);
            assert(mems@[k as int]@ == members(cs, ts[k as int]));
            if mems[k].len() == m {
                let g = PatternGroup { token: cands[k].clone(), members: copy_positions(&mems[k]) };
                let ghost before = r@;
                r.push(g);
                assert(groups_view(r@) =~= groups_view(before).push(g@));
            }
            k = k + 1;
        }
        assert(ts.take(cands.len() as int) =~= ts);
        assert(groups_view(r@) + groups_down_from(ts, cs, (m - 1) as nat) =~= start + groups_down_from(ts, cs, m as nat));
        m = m - 1;
    }
    r
}


proof fn lemma_members_len(cs: Seq<CategorizedView>, t: Seq<char>)
    ensures
        members(cs, t).len() <= cs.len(),
    decreases cs.len(),
{
    if cs.len() > 0 {
        lemma_members_len(cs.drop_last(), t);
    }
}

proof fn lemma_long_tokens_contains(ts: Seq<Seq<char>>, t: Seq<char>)
    requires
        is_long(t),
        ts.contains(t),
    ensures
        long_tokens(ts).contains(t),
    decreases ts.len(),
{
    let q = choose|q: int| 0 <= q < ts.len() && ts[q] == t;
    if q == ts.len() - 1 {
        assert(long_tokens(ts).last() == t);
    } else {
        assert(ts.drop_last()[q] == t);
        lemma_long_tokens_contains(ts.drop_last(), t);
        let l = long_tokens(ts.drop_last());
        let k = choose|k: int| 0 <= k < l.len() && l[k] == t;
        if is_long(ts.last()) {
            assert(l.push(ts.last())[k] == t);
        }
    }
}

proof fn lemma_members_seen(cs: Seq<CategorizedView>, t: Seq<char>)
    requires
        members(cs, t).len() > 0,
    ensures
        occurrences(cs).contains(t),
    decreases cs.len(),
{
    let prev = occurrences(cs.drop_last());
    if cs.last().category == ChangeCategory::Mechanical && is_long(t) && cs.last().removed.contains(
        t,
    ) {
        lemma_long_tokens_contains(cs.last().removed, t);
        let l = long_tokens(cs.last().removed);
        let k = choose|k: int| 0 <= k < l.len() && l[k] == t;
        assert((prev + l)[prev.len() + k] == t);
    } else {
        lemma_members_seen(cs.drop_last(), t);
        let k = choose|k: int| 0 <= k < prev.len() && prev[k] == t;
        if cs.last().category == ChangeCategory::Mechanical {
            assert((prev + long_tokens(cs.last().removed))[k] == t);
        }
    }
}

/// Whether a group for `t` stands in `gs`.
pub open spec fn has_group(gs: Seq<PatternView>, t: Seq<char>) -> bool {
    exists|i: int| 0 <= i < gs.len() && gs[i].token == t
}

/// Every group of `gs` lists the members of its token, between two and `m`
/// of them, and its token is one of `ts`.
pub open spec fn groups_faithful(
    gs: Seq<PatternView>,
    ts: Seq<Seq<char>>,
    cs: Seq<CategorizedView>,
    lo: nat,
    m: nat,
) -> bool {
    forall|i: int|
        0 <= i < gs.len() ==> {
            &&& (#[trigger] gs[i]).members == members(cs, gs[i].token)
            &&& lo <= gs[i].members.len() <= m
            &&& ts.contains(gs[i].token)
        }
}

proof fn lemma_groups_of_size(ts: Seq<Seq<char>>, cs: Seq<CategorizedView>, m: nat, t: Seq<char>)
    ensures
        groups_faithful(groups_of_size(ts, cs, m), ts, cs, m, m),
        ts.contains(t) && members(cs, t).len() == m ==> has_group(groups_of_size(ts, cs, m), t),
    decreases ts.len(),
{
    if ts.len() > 0 {
        let rest = ts.drop_last();
        lemma_groups_of_size(rest, cs, m, t);
        let gs0 = groups_of_size(rest, cs, m);
        let gs = groups_of_size(ts, cs, m);
        assert forall|i: int| 0 <= i < gs.len() implies {
            &&& (#[trigger] gs[i]).members == members(cs, gs[i].token)
            &&& m <= gs[i].members.len() <= m
            &&& ts.contains(gs[i].token)
        } by {
            if i < gs0.len() {
                assert(gs[i] == gs0[i]);
                let q = choose|q: int| 0 <= q < rest.len() && rest[q] == gs0[i].token;
                assert(ts[q] == rest[q]);
            } else {
                assert(ts[ts.len() - 1] == ts.last());
            }
        }
        if ts.contains(t) && members(cs, t).len() == m {
            if t == ts.last() {
                assert(gs[gs.len() - 1].token == t);
            } else {
                let q = choose|q: int| 0 <= q < ts.len() && ts[q] == t;
                assert(rest[q] == t);
                let i = choose|i: int| 0 <= i < gs0.len() && gs0[i].token == t;
                if members(cs, ts.last()).len() == m {
                    assert(gs[i] == gs0[i]);
                }
            }
        }
    }
}

proof fn lemma_groups_down_from(ts: Seq<Seq<char>>, cs: Seq<CategorizedView>, m: nat, t: Seq<char>)
    ensures
        groups_faithful(groups_down_from(ts, cs, m), ts, cs, 2, m),
        ts.contains(t) && 2 <= members(cs, t).len() <= m ==> has_group(
            groups_down_from(ts, cs, m),
            t,
        ),
    decreases m,
{
    if m >= 2 {
        let m1 = (m - 1) as nat;
        lemma_groups_of_size(ts, cs, m, t);
        lemma_groups_down_from(ts, cs, m1, t);
        let a = groups_of_size(ts, cs, m);
        let b = groups_down_from(ts, cs, m1);
        assert forall|i: int| 0 <= i < (a + b).len() implies {
            &&& (#[trigger] (a + b)[i]).members == members(cs, (a + b)[i].token)
            &&& 2 <= (a + b)[i].members.len() <= m
            &&& ts.contains((a + b)[i].token)
        } by {
            if i < a.len() {
                assert((a + b)[i] == a[i]);
            } else {
                assert((a + b)[i] == b[i - a.len()]);
            }
        }
        if ts.contains(t) && 2 <= members(cs, t).len() <= m {
            if members(cs, t).len() == m {
                let i = choose|i: int| 0 <= i < a.len() && a[i].token == t;
                assert((a + b)[i] == a[i]);
            } else {
                let i = choose|i: int| 0 <= i < b.len() && b[i].token == t;
                assert((a + b)[a.len() + i] == b[i]);
            }
        }
    }
}

/// A token forms a pattern group exactly when it is long and at least two
/// mechanical changes removed it, and then the group lists exactly the
/// positions of those changes; so a token removed by one change forms none.
pub proof fn lemma_group_iff_repeated(cs: Seq<CategorizedView>, t: Seq<char>)
    ensures
        has_group(pattern_groups(cs), t) <==> members(cs, t).len() >= 2,
        forall|i: int|
            0 <= i < pattern_groups(cs).len() ==> (#[trigger] pattern_groups(cs)[i]).members
                == members(cs, pattern_groups(cs)[i].token),
{
    let ts = dedup(occurrences(cs));
    lemma_groups_down_from(ts, cs, cs.len(), t);
    lemma_members_len(cs, t);
    lemma_dedup_contains(occurrences(cs));
    if members(cs, t).len() >= 2 {
        lemma_members_seen(cs, t);
    }
    let gs = pattern_groups(cs);
    if has_group(gs, t) {
        let i = choose|i: int| 0 <= i < gs.len() && gs[i].token == t;
        assert(gs[i].members == members(cs, t));
    }
}

} // verus!
