//! The triage report of a pull request's semantic changes.
use vstd::prelude::*;
use crate::classify::{
    categorize, categorize_change, CategorizedChange, CategorizedView, ChangeCategory, SemChange,
    SemChangeView, strs_view,
};
use crate::patterns::{
    changes_view, detect_patterns, groups_down_from, groups_of_size, groups_view, members,
    pattern_groups, PatternGroup, PatternView,
};
use crate::text::{
    append, append_decimal, append_pad_right, decimal, join, join_strings, pad_right, same_text,
    last_segment, short_path,
};

verus! {

/// Counts of a semantic diff, by kind of change.
#[derive(Debug, Clone, Copy)]
pub struct SemSummary {
    pub added: u64,
    pub modified: u64,
    pub deleted: u64,
    pub renamed: u64,
    pub moved: u64,
    pub file_count: u64,
}

/// What the semantic-diff engine reports: an optional summary and the
/// changes, if it found any.
#[derive(Debug, Clone)]
pub struct SemOutput {
    pub summary: Option<SemSummary>,
    pub changes: Option<Vec<crate::classify::SemChange>>,
}

/// The first three tokens of `ts`, or all of them if fewer.
pub open spec fn top3(ts: Seq<Seq<char>>) -> Seq<Seq<char>> {
    if ts.len() <= 3 {
        ts
    } else {
        ts.take(3)
    }
}

/// The removed and added tokens of a change, at most three of each:
/// "-a,b,c +d,e", leaving out an empty side.
pub open spec fn token_summary(c: CategorizedView) -> Seq<char> {
    if c.removed.len() > 0 && c.added.len() > 0 {
        "-"@ + join(top3(c.removed), ","@) + " +"@ + join(top3(c.added), ","@)
    } else if c.removed.len() > 0 {
        "-"@ + join(top3(c.removed), ","@)
    } else {
        "+"@ + join(top3(c.added), ","@)
    }
}

/// A similarity in whole percent, rounded to nearest with ties to even.
pub open spec fn percent(shared: nat, total: nat) -> nat {
    if total == 0 {
        0
    } else {
        let q = (100 * shared) / total;
        let rem = (100 * shared) % total;
        if 2 * rem > total || (2 * rem == total && q % 2 == 1) {
            q + 1
        } else {
            q
        }
    }
}

/// The mark of a mechanical change: deleted, renamed, or anything else.
pub open spec fn mechanical_icon(change_type: Seq<char>) -> Seq<char> {
    if change_type == "deleted"@ {
        "\u{2296}"@
    } else if change_type == "renamed"@ {
        "\u{21bb}"@
    } else {
        "\u{2206}"@
    }
}

/// The row of a mechanical change that no group claimed.
pub open spec fn mechanical_line(c: CategorizedView) -> Seq<char> {
    let icon = mechanical_icon(c.change_type);
    let sp = last_segment(c.file_path);
    if c.change_type == "deleted"@ {
        "  "@ + icon + " "@ + sp + " "@ + c.entity_name + " \u{2014} deleted"@
    } else if c.removed.len() > 0 || c.added.len() > 0 {
        "  "@ + icon + " "@ + pad_right(sp, 20) + " "@ + pad_right(c.entity_name, 30) + " ("@
            + token_summary(c) + ")"@
    } else {
        "  "@ + icon + " "@ + pad_right(sp, 20) + " "@ + c.entity_name + " (sim "@ + decimal(
            percent(c.shared, c.total),
        ) + "%)"@
    }
}

/// The row of a new-logic change.
pub open spec fn new_logic_line(c: CategorizedView) -> Seq<char> {
    "  \u{2295} "@ + pad_right(last_segment(c.file_path), 20) + " "@ + c.entity_name + " \u{2014} "@
        + c.entity_type
}

/// What a behavioral row shows: the value change, else the token changes,
/// else the similarity.
pub open spec fn behavioral_detail(c: CategorizedView) -> Seq<char> {
    match c.value_change {
        Some((old_value, new_value)) => old_value + " \u{2192} "@ + new_value,
        None => if c.removed.len() > 0 || c.added.len() > 0 {
            token_summary(c)
        } else {
            "sim "@ + decimal(percent(c.shared, c.total)) + "%"@
        },
    }
}

/// The row of a behavioral change.
pub open spec fn behavioral_line(c: CategorizedView) -> Seq<char> {
    "  \u{2206} "@ + pad_right(last_segment(c.file_path), 20) + " "@ + pad_right(c.entity_name, 30)
        + " "@ + behavioral_detail(c)
}

/// The first three items of `v`, or all of them if fewer.
fn top_tokens(v: &Vec<String>) -> (r: String)
    ensures
        r@ == join(top3(strs_view(v@)), ","@),
{
    let mut parts: Vec<String> = Vec::new();
    let mut k: usize = 0;
    let n: usize = if v.len() <= 3 { v.len() } else { 3 };
    while k < n
        invariant
            k <= n <= v.len(),
            n == if v.len() <= 3 { v.len() } else { 3 },
            parts@.map_values(|p: String| p@) == strs_view(v@).take(k as int),
        decreases n - k,
    {
        let ghost before = parts@;
        let c = v[k].clone();
        parts.push(c);
        assert(parts@.map_values(|p: String| p@) =~= before.map_values(|p: String| p@).push(c@));
        assert(parts@.map_values(|p: String| p@) =~= strs_view(v@).take(k + 1));
        k = k + 1;
    }
    assert(strs_view(v@).take(n as int) =~= top3(strs_view(v@)));
    join_strings(&parts, ",")
}

fn append_token_summary(s: &mut String, c: &CategorizedChange)
    requires
        c.removed_tokens.len() > 0 || c.added_tokens.len() > 0,
    ensures
        final(s)@ == old(s)@ + token_summary(c@),
{
    assert(strs_view(c.removed_tokens@).len() == c.removed_tokens.len());
    assert(strs_view(c.added_tokens@).len() == c.added_tokens.len());
    if c.removed_tokens.len() > 0 {
        append(s, "-");
        append(s, top_tokens(&c.removed_tokens).as_str());
        if c.added_tokens.len() > 0 {
            append(s, " +");
            append(s, top_tokens(&c.added_tokens).as_str());
        }
    } else {
        append(s, "+");
        append(s, top_tokens(&c.added_tokens).as_str());
    }
    assert(s@ =~= old(s)@ + token_summary(c@));
}

fn percent_of(shared: usize, total: usize) -> (r: u128)
    ensures
        r as nat == percent(shared as nat, total as nat),
{
    if total == 0 {
        return 0;
    }
    let num: u128 = (shared as u128) * 100;
    let q: u128 = num / (total as u128);
    let rem: u128 = num % (total as u128);
    let up = 2 * rem > total as u128 || (2 * rem == total as u128 && q % 2 == 1);
    if up {
        q + 1
    } else {
        q
    }
}

fn icon_of(change_type: &str) -> (r: &'static str)
    ensures
        r@ == mechanical_icon(change_type@),
{
    if same_text(change_type, "deleted") {
        "\u{2296}"
    } else if same_text(change_type, "renamed") {
        "\u{21bb}"
    } else {
        "\u{2206}"
    }
}

/// Renders the row of an unclaimed mechanical change.
pub fn format_mechanical_line(c: &CategorizedChange) -> (r: String)
    ensures
        r@ == mechanical_line(c@),
{
    let icon = icon_of(c.change_type.as_str());
    let sp = short_path(c.file_path.as_str());
    let mut s = String::new();
    append(&mut s, "  ");
    append(&mut s, icon);
    append(&mut s, " ");
    assert(strs_view(c.removed_tokens@).len() == c.removed_tokens.len());
    assert(strs_view(c.added_tokens@).len() == c.added_tokens.len());
    if same_text(c.change_type.as_str(), "deleted") {
        append(&mut s, sp.as_str());
        append(&mut s, " ");
        append(&mut s, c.entity_name.as_str());
        append(&mut s, " \u{2014} deleted");
    } else if c.removed_tokens.len() > 0 || c.added_tokens.len() > 0 {
        append_pad_right(&mut s, sp.as_str(), 20);
        append(&mut s, " ");
        append_pad_right(&mut s, c.entity_name.as_str(), 30);
        append(&mut s, " (");
        append_token_summary(&mut s, c);
        append(&mut s, ")");
    } else {
        append_pad_right(&mut s, sp.as_str(), 20);
        append(&mut s, " ");
        append(&mut s, c.entity_name.as_str());
        append(&mut s, " (sim ");
        append_decimal(&mut s, percent_of(c.sim_shared, c.sim_union));
        append(&mut s, "%)");
    }
    assert(s@ =~= mechanical_line(c@));
    s
}

/// Renders the row of a new-logic change.
pub fn format_new_logic_line(c: &CategorizedChange) -> (r: String)
    ensures
        r@ == new_logic_line(c@),
{
    let sp = short_path(c.file_path.as_str());
    let mut s = String::new();
    append(&mut s, "  \u{2295} ");
    append_pad_right(&mut s, sp.as_str(), 20);
    append(&mut s, " ");
    append(&mut s, c.entity_name.as_str());
    append(&mut s, " \u{2014} ");
    append(&mut s, c.entity_type.as_str());
    assert(s@ =~= new_logic_line(c@));
    s
}

/// Renders the row of a behavioral change.
pub fn format_behavioral_line(c: &CategorizedChange) -> (r: String)
    ensures
        r@ == behavioral_line(c@),
{
    let sp = short_path(c.file_path.as_str());
    let mut s = String::new();
    append(&mut s, "  \u{2206} ");
    append_pad_right(&mut s, sp.as_str(), 20);
    append(&mut s, " ");
    append_pad_right(&mut s, c.entity_name.as_str(), 30);
    append(&mut s, " ");
    let ghost head = s@;
    assert(strs_view(c.removed_tokens@).len() == c.removed_tokens.len());
    assert(strs_view(c.added_tokens@).len() == c.added_tokens.len());
    match &c.value_change {
        Some((old_value, new_value)) => {
            append(&mut s, old_value.as_str());
            append(&mut s, " \u{2192} ");
            append(&mut s, new_value.as_str());
        },
        None => {
            if c.removed_tokens.len() > 0 || c.added_tokens.len() > 0 {
                append_token_summary(&mut s, c);
            } else {
                append(&mut s, "sim ");
                append_decimal(&mut s, percent_of(c.sim_shared, c.sim_union));
                append(&mut s, "%");
            }
        },
    }
    assert(s@ =~= head + behavioral_detail(c@));
    assert(s@ =~= behavioral_line(c@));
    s
}


/// The positions of `ms` that are not in `taken`, in order.
pub open spec fn unclaimed(ms: Seq<usize>, taken: Seq<usize>) -> Seq<usize>
    decreases ms.len(),
{
    if ms.len() == 0 {
        seq![]
    } else if taken.contains(ms.last()) {
        unclaimed(ms.drop_last(), taken)
    } else {
        unclaimed(ms.drop_last(), taken).push(ms.last())
    }
}

/// The groups that are rendered, and the positions they claim: in order, each
/// group claims its members that no earlier group claimed, and is rendered
/// with them when it claims at least one. A change is thus listed under the
/// first, and so the largest, group that holds it, and under no other.
pub open spec fn claim(gs: Seq<PatternView>) -> (Seq<PatternView>, Seq<usize>)
    decreases gs.len(),
{
    if gs.len() == 0 {
        (seq![], seq![])
    } else {
        let (rs, taken) = claim(gs.drop_last());
        let fresh = unclaimed(gs.last().members, taken);
        if fresh.len() > 0 {
            (rs.push(PatternView { token: gs.last().token, members: fresh }), taken + fresh)
        } else {
            (rs, taken)
        }
    }
}

proof fn lemma_unclaimed_fresh(ms: Seq<usize>, taken: Seq<usize>)
    ensures
        forall|x: usize| #[trigger] unclaimed(ms, taken).contains(x) ==> !taken.contains(x),
    decreases ms.len(),
{
    if ms.len() > 0 {
        lemma_unclaimed_fresh(ms.drop_last(), taken);
        let u = unclaimed(ms.drop_last(), taken);
        if !taken.contains(ms.last()) {
            assert forall|x: usize| #[trigger] u.push(ms.last()).contains(x) implies !taken.contains(
                x,
            ) by {
                let q = choose|q: int| 0 <= q < u.len() + 1 && u.push(ms.last())[q] == x;
                if q < u.len() {
                    assert(u[q] == x);
                    assert(u.contains(x));
                } else {
                    assert(x == ms.last());
                }
            }
        }
    }
}

/// Every change is listed under at most one rendered group, and every
/// position a rendered group lists is one it claimed.
pub proof fn lemma_claimed_once(gs: Seq<PatternView>)
    ensures
        forall|i: int, j: int, x: usize|
            #![trigger claim(gs).0[i].members.contains(x), claim(gs).0[j].members.contains(x)]
            0 <= i < j < claim(gs).0.len() && claim(gs).0[i].members.contains(x)
                ==> !claim(gs).0[j].members.contains(x),
        forall|i: int, x: usize|
            0 <= i < claim(gs).0.len() && #[trigger] claim(gs).0[i].members.contains(x)
                ==> claim(gs).1.contains(x),
    decreases gs.len(),
{
    if gs.len() > 0 {
        lemma_claimed_once(gs.drop_last());
        let (rs, taken) = claim(gs.drop_last());
        let fresh = unclaimed(gs.last().members, taken);
        lemma_unclaimed_fresh(gs.last().members, taken);
        if fresh.len() > 0 {
            let ng = PatternView { token: gs.last().token, members: fresh };
            let rs2 = rs.push(ng);
            let t2 = taken + fresh;
            assert forall|i: int, x: usize|
                0 <= i < rs2.len() && #[trigger] rs2[i].members.contains(x) implies t2.contains(
                x,
            ) by {
                if i < rs.len() {
                    assert(rs2[i] == rs[i]);
                    let q = choose|q: int| 0 <= q < taken.len() && taken[q] == x;
                    assert(t2[q] == x);
                } else {
                    let q = choose|q: int| 0 <= q < fresh.len() && fresh[q] == x;
                    assert(t2[taken.len() + q] == x);
                }
            }
            assert forall|i: int, j: int, x: usize|
                #![trigger rs2[i].members.contains(x), rs2[j].members.contains(x)]
                0 <= i < j < rs2.len() && rs2[i].members.contains(x) implies !rs2[
                j].members.contains(x) by {
                assert(rs2[i] == rs[i]);
                if j < rs.len() {
                    assert(rs2[j] == rs[j]);
                } else {
                    assert(taken.contains(x));
                }
            }
        }
    }
}

/// Whether every member of every group is below `n`.
pub open spec fn members_below(gs: Seq<PatternView>, n: nat) -> bool {
    forall|i: int, j: int|
        0 <= i < gs.len() && 0 <= j < gs[i].members.len() ==> (#[trigger] gs[i].members[j]) < n
}

proof fn lemma_unclaimed_below(ms: Seq<usize>, taken: Seq<usize>, n: nat)
    requires
        forall|j: int| 0 <= j < ms.len() ==> (#[trigger] ms[j]) < n,
    ensures
        forall|j: int|
            0 <= j < unclaimed(ms, taken).len() ==> (#[trigger] unclaimed(ms, taken)[j]) < n,
    decreases ms.len(),
{
    if ms.len() > 0 {
        assert(forall|j: int| 0 <= j < ms.drop_last().len() ==> ms.drop_last()[j] == ms[j]);
        lemma_unclaimed_below(ms.drop_last(), taken, n);
        assert(ms.last() == ms[ms.len() - 1]);
        let u = unclaimed(ms.drop_last(), taken);
        if !taken.contains(ms.last()) {
            assert forall|j: int| 0 <= j < u.push(ms.last()).len() implies (#[trigger] u.push(
                ms.last(),
            )[j]) < n by {
                if j < u.len() {
                    assert(u.push(ms.last())[j] == u[j]);
                }
            }
        }
    }
}

fn contains_usize(v: &Vec<usize>, x: usize) -> (r: bool)
    ensures
        r == v@.contains(x),
{
    let mut k: usize = 0;
    while k < v.len()
        invariant
            k <= v.len(),
            forall|j: int| 0 <= j < k ==> v@[j] != x,
        decreases v.len() - k,
    {
        if v[k] == x {
            return true;
        }
        k = k + 1;
    }
    false
}

/// Assigns each change to at most one rendered group: the first, and so the
/// largest, group that holds it. Returns the rendered groups with the
/// members they claimed, and all claimed positions.
pub fn claim_groups(groups: &Vec<PatternGroup>) -> (r: (Vec<PatternGroup>, Vec<usize>))
    ensures
        groups_view(r.0@) == claim(groups_view(groups@)).0,
        r.1@ == claim(groups_view(groups@)).1,
{
    let ghost gs = groups_view(groups@);
    let mut rendered: Vec<PatternGroup> = Vec::new();
    let mut taken: Vec<usize> = Vec::new();
    let mut k: usize = 0;
    while k < groups.len()
        invariant
            k <= groups.len(),
            gs == groups_view(groups@),
            (groups_view(rendered@), taken@) == claim(gs.take(k as int)),
        decreases groups.len() - k,
    {
        let g = &groups[k];
        assert(gs[k as int] == g@);
        assert(gs.take(k + 1).drop_last() =~= gs.take(k as int));
        assert(gs.take(k + 1).last() == g@);
        let mut fresh: Vec<usize> = Vec::new();
        let mut j: usize = 0;
        while j < g.members.len()
            invariant
                j <= g.members.len(),
                fresh@ == unclaimed(g.members@.take(j as int), taken@),
            decreases g.members.len() - j,
        {
            assert(g.members@.take(j + 1).drop_last() =~= g.members@.take(j as int));
            if !contains_usize(&taken, g.members[j]) {
                fresh.push(g.members[j]);
            }
            j = j + 1;
        }
        assert(g.members@.take(g.members.len() as int) =~= g.members@);
        if fresh.len() > 0 {
            let mut t: usize = 0;
            let ghost before = taken@;
            while t < fresh.len()
                invariant
                    t <= fresh.len(),
                    taken@ == before + fresh@.take(t as int),
                decreases fresh.len() - t,
            {
                taken.push(fresh[t]);
                assert(taken@ =~= before + fresh@.take(t + 1));
                t = t + 1;
            }
            assert(fresh@.take(fresh.len() as int) =~= fresh@);
            let ghost rbefore = rendered@;
            let ng = PatternGroup { token: g.token.clone(), members: fresh };
            rendered.push(ng);
            assert(groups_view(rendered@) =~= groups_view(rbefore).push(ng@));
        }
        k = k + 1;
    }
    assert(gs.take(groups.len() as int) =~= gs);
    (rendered, taken)
}

proof fn lemma_claim_below(gs: Seq<PatternView>, n: nat)
    requires
        members_below(gs, n),
    ensures
        members_below(claim(gs).0, n),
    decreases gs.len(),
{
    if gs.len() > 0 {
        assert forall|i: int, j: int|
            0 <= i < gs.drop_last().len() && 0 <= j < gs.drop_last()[i].members.len() implies (
            #[trigger] gs.drop_last()[i].members[j]) < n by {
            assert(gs.drop_last()[i] == gs[i]);
        }
        lemma_claim_below(gs.drop_last(), n);
        let (rs, taken) = claim(gs.drop_last());
        let g = gs.last();
        assert forall|j: int| 0 <= j < g.members.len() implies (#[trigger] g.members[j]) < n by {
            assert(gs[gs.len() - 1].members[j] < n);
        }
        lemma_unclaimed_below(g.members, taken, n);
        let fresh = unclaimed(g.members, taken);
        if fresh.len() > 0 {
            let rs2 = rs.push(PatternView { token: g.token, members: fresh });
            assert forall|i: int, j: int|
                0 <= i < rs2.len() && 0 <= j < rs2[i].members.len() implies (
                #[trigger] rs2[i].members[j]) < n by {
                if i < rs.len() {
                    assert(rs2[i] == rs[i]);
                }
            }
        }
    }
}

proof fn lemma_members_below(cs: Seq<CategorizedView>, t: Seq<char>)
    ensures
        forall|j: int| 0 <= j < members(cs, t).len() ==> (#[trigger] members(cs, t)[j]) < cs.len(),
    decreases cs.len(),
{
    if cs.len() > 0 {
        lemma_members_below(cs.drop_last(), t);
        let u = members(cs.drop_last(), t);
        let x = (cs.len() - 1) as usize;
        assert forall|j: int| 0 <= j < u.push(x).len() implies (#[trigger] u.push(x)[j]) < cs.len() by {
            if j < u.len() {
                assert(u.push(x)[j] == u[j]);
            }
        }
    }
}

proof fn lemma_groups_of_size_below(ts: Seq<Seq<char>>, cs: Seq<CategorizedView>, m: nat)
    ensures
        members_below(groups_of_size(ts, cs, m), cs.len()),
    decreases ts.len(),
{
    if ts.len() > 0 {
        lemma_groups_of_size_below(ts.drop_last(), cs, m);
        lemma_members_below(cs, ts.last());
        let rs = groups_of_size(ts.drop_last(), cs, m);
        if members(cs, ts.last()).len() == m {
            let rs2 = rs.push(PatternView { token: ts.last(), members: members(cs, ts.last()) });
            assert forall|i: int, j: int|
                0 <= i < rs2.len() && 0 <= j < rs2[i].members.len() implies (
                #[trigger] rs2[i].members[j]) < cs.len() by {
                if i < rs.len() {
                    assert(rs2[i] == rs[i]);
                }
            }
        }
    }
}

proof fn lemma_pattern_groups_below(ts: Seq<Seq<char>>, cs: Seq<CategorizedView>, m: nat)
    ensures
        members_below(groups_down_from(ts, cs, m), cs.len()),
    decreases m,
{
    if m >= 2 {
        lemma_groups_of_size_below(ts, cs, m);
        lemma_pattern_groups_below(ts, cs, (m - 1) as nat);
        let a = groups_of_size(ts, cs, m);
        let b = groups_down_from(ts, cs, (m - 1) as nat);
        assert forall|i: int, j: int|
            0 <= i < (a + b).len() && 0 <= j < (a + b)[i].members.len() implies (#[trigger] (a
            + b)[i].members[j]) < cs.len() by {
            if i < a.len() {
                assert((a + b)[i] == a[i]);
            } else {
                assert((a + b)[i] == b[i - a.len()]);
            }
        }
    }
}

/// Where the members of a group are: their file names when there are at
/// most three, otherwise their number.
pub open spec fn group_files(g: PatternView, cs: Seq<CategorizedView>) -> Seq<char> {
    if g.members.len() <= 3 {
        join(g.members.map_values(|i: usize| last_segment(cs[i as int].file_path)), ", "@)
    } else {
        decimal(g.members.len()) + " files"@
    }
}

/// The row of a rendered group.
pub open spec fn group_line(g: PatternView, cs: Seq<CategorizedView>) -> Seq<char> {
    "  \u{2296} "@ + g.token + " removed from "@ + group_files(g, cs)
}

/// Renders the row of a group of changes that removed the same token.
pub fn format_group_line(g: &PatternGroup, changes: &Vec<CategorizedChange>) -> (r: String)
    requires
        forall|j: int| 0 <= j < g.members.len() ==> (#[trigger] g.members@[j]) < changes.len(),
    ensures
        r@ == group_line(g@, changes_view(changes@)),
{
    let ghost cs = changes_view(changes@);
    let mut s = String::new();
    append(&mut s, "  \u{2296} ");
    append(&mut s, g.token.as_str());
    append(&mut s, " removed from ");
    if g.members.len() <= 3 {
        let mut names: Vec<String> = Vec::new();
        let mut k: usize = 0;
        while k < g.members.len()
            invariant
                k <= g.members.len(),
                cs == changes_view(changes@),
                forall|j: int| 0 <= j < g.members.len() ==> (#[trigger] g.members@[j]) < changes.len(),
                names@.map_values(|p: String| p@) == g.members@.take(k as int).map_values(
                    |i: usize| last_segment(cs[i as int].file_path),
                ),
            decreases g.members.len() - k,
        {
            let i = g.members[k];
            assert(cs[i as int] == changes@[i as int]@);
            let name = short_path(changes[i].file_path.as_str());
            let ghost before = names@;
            names.push(name);
            assert(names@.map_values(|p: String| p@) =~= before.map_values(|p: String| p@).push(
                name@,
            ));
            assert(g.members@.take(k + 1).map_values(|i: usize| last_segment(cs[i as int].file_path))
                =~= g.members@.take(k as int).map_values(
                |i: usize| last_segment(cs[i as int].file_path),
            ).push(last_segment(cs[g.members@[k as int] as int].file_path)));
            k = k + 1;
        }
        assert(g.members@.take(g.members.len() as int) =~= g.members@);
        append(&mut s, join_strings(&names, ", ").as_str());
    } else {
        append_decimal(&mut s, g.members.len() as u128);
        append(&mut s, " files");
    }
    assert(s@ =~= group_line(g@, cs));
    s
}


/// The rows of the mechanical changes that no rendered group claimed.
pub open spec fn mechanical_rows(cs: Seq<CategorizedView>, taken: Seq<usize>) -> Seq<Seq<char>>
    decreases cs.len(),
{
    if cs.len() == 0 {
        seq![]
    } else if cs.last().category == ChangeCategory::Mechanical && !taken.contains(
        (cs.len() - 1) as usize,
    ) {
        mechanical_rows(cs.drop_last(), taken).push(mechanical_line(cs.last()))
    } else {
        mechanical_rows(cs.drop_last(), taken)
    }
}

/// The rows of the new-logic changes, or of the behavioral ones.
pub open spec fn category_rows(cs: Seq<CategorizedView>, cat: ChangeCategory) -> Seq<Seq<char>>
    decreases cs.len(),
{
    if cs.len() == 0 {
        seq![]
    } else if cs.last().category == cat {
        category_rows(cs.drop_last(), cat).push(
            if cat == ChangeCategory::NewLogic {
                new_logic_line(cs.last())
            } else {
                behavioral_line(cs.last())
            },
        )
    } else {
        category_rows(cs.drop_last(), cat)
    }
}

/// The number of changes of a category.
pub open spec fn count_category(cs: Seq<CategorizedView>, cat: ChangeCategory) -> nat
    decreases cs.len(),
{
    if cs.len() == 0 {
        0
    } else {
        count_category(cs.drop_last(), cat) + if cs.last().category == cat {
            1nat
        } else {
            0nat
        }
    }
}

/// A report section: a title with the category's count, its rows and an
/// empty line; nothing when it has no rows.
pub open spec fn section(head: Seq<char>, count: nat, rows: Seq<Seq<char>>) -> Seq<Seq<char>> {
    if rows.len() == 0 {
        seq![]
    } else {
        seq![head + decimal(count) + " changes):"@] + rows + seq![seq![]]
    }
}

/// The triage report: an optional headline, then the mechanical changes
/// (rendered groups first, then unclaimed changes one by one), the new logic
/// and the behavioral changes, each section only when it has rows.
pub open spec fn smart_report(file_count: Option<u64>, changes: Option<Seq<SemChangeView>>) -> Seq<
    char,
> {
    match changes {
        None => "No semantic changes found."@,
        Some(chs) => {
            let cs = chs.map_values(|c: SemChangeView| categorize(c));
            let (rendered, taken) = claim(pattern_groups(cs));
            let mech = rendered.map_values(|g: PatternView| group_line(g, cs)) + mechanical_rows(
                cs,
                taken,
            );
            let head = match file_count {
                Some(n) => seq![
                    "Smart Review: "@ + decimal(chs.len()) + " changes across "@ + decimal(
                        n as nat,
                    ) + " files\n"@,
                ],
                None => seq![],
            };
            join(
                head + section(
                    "MECHANICAL (skip \u{2014} "@,
                    count_category(cs, ChangeCategory::Mechanical),
                    mech,
                ) + section(
                    "NEW LOGIC (read these \u{2014} "@,
                    count_category(cs, ChangeCategory::NewLogic),
                    category_rows(cs, ChangeCategory::NewLogic),
                ) + section(
                    "BEHAVIORAL CHANGES (verify \u{2014} "@,
                    count_category(cs, ChangeCategory::Behavioral),
                    category_rows(cs, ChangeCategory::Behavioral),
                ),
                "\n"@,
            )
        },
    }
}

/// The views of a sequence of strings.
pub open spec fn texts(v: Seq<String>) -> Seq<Seq<char>> {
    v.map_values(|p: String| p@)
}

fn push_text(v: &mut Vec<String>, s: String)
    ensures
        texts(final(v)@) == texts(old(v)@).push(s@),
{
    let ghost before = v@;
    v.push(s);
    assert(texts(v@) =~= texts(before).push(s@));
}

fn push_section(out: &mut Vec<String>, head: &str, count: usize, rows: Vec<String>)
    ensures
        texts(final(out)@) == texts(old(out)@) + section(head@, count as nat, texts(rows@)),
{
    if rows.len() == 0 {
        assert(texts(rows@).len() == 0);
        assert(texts(out@) =~= texts(old(out)@) + section(head@, count as nat, texts(rows@)));
        return;
    }
    let mut title = String::new();
    append(&mut title, head);
    append_decimal(&mut title, count as u128);
    append(&mut title, " changes):");
    push_text(out, title);
    let mut k: usize = 0;
    let ghost start = texts(out@);
    while k < rows.len()
        invariant
            k <= rows.len(),
            texts(out@) == start + texts(rows@).take(k as int),
        decreases rows.len() - k,
    {
        push_text(out, rows[k].clone());
        assert(texts(rows@).take(k + 1) =~= texts(rows@).take(k as int).push(rows@[k as int]@));
        assert(texts(out@) =~= start + texts(rows@).take(k + 1));
        k = k + 1;
    }
    assert(texts(rows@).take(rows.len() as int) =~= texts(rows@));
    push_text(out, String::new());
    assert(texts(out@) =~= texts(old(out)@) + section(head@, count as nat, texts(rows@)));
}

/// Renders the triage report of a semantic diff: changes are classified,
/// repeated mechanical edits are grouped, and the rest is listed by category.
pub fn format_smart_output(parsed: &SemOutput) -> (r: String)
    ensures
        r@ == smart_report(
            match parsed.summary {
                Some(s) => Some(s.file_count),
                None => None,
            },
            match parsed.changes {
                Some(v) => Some(v@.map_values(|c: SemChange| c@)),
                None => None,
            },
        ),
{
    let changes = match &parsed.changes {
        Some(c) => c,
        None => {
            return String::from_str("No semantic changes found.");
        },
    };
    let ghost chs = changes@.map_values(|c: SemChange| c@);
    let mut categorized: Vec<CategorizedChange> = Vec::new();
    let mut k: usize = 0;
    while k < changes.len()
        invariant
            k <= changes.len(),
            chs == changes@.map_values(|c: SemChange| c@),
            changes_view(categorized@) == chs.take(k as int).map_values(
                |c: SemChangeView| categorize(c),
            ),
        decreases changes.len() - k,
    {
        let c = categorize_change(&changes[k]);
        let ghost before = categorized@;
        categorized.push(c);
        assert(changes_view(categorized@) =~= changes_view(before).push(c@));
        assert(chs.take(k + 1).map_values(|c: SemChangeView| categorize(c)) =~= chs.take(
            k as int,
        ).map_values(|c: SemChangeView| categorize(c)).push(categorize(chs[k as int])));
        k = k + 1;
    }
    assert(chs.take(changes.len() as int) =~= chs);
    let ghost cs = changes_view(categorized@);
    assert(cs =~= chs.map_values(|c: SemChangeView| categorize(c)));
    let patterns = detect_patterns(categorized.as_slice());
    proof {
        lemma_pattern_groups_below(
            crate::classify::dedup(crate::patterns::occurrences(cs)),
            cs,
            cs.len(),
        );
        lemma_claim_below(pattern_groups(cs), cs.len());
    }
    let (rendered, taken) = claim_groups(&patterns);
    let ghost rv = groups_view(rendered@);
    let mut mech: Vec<String> = Vec::new();
    let mut k: usize = 0;
    while k < rendered.len()
        invariant
            k <= rendered.len(),
            cs == changes_view(categorized@),
            rv == groups_view(rendered@),
            members_below(rv, cs.len()),
            texts(mech@) == rv.take(k as int).map_values(|g: PatternView| group_line(g, cs)),
        decreases rendered.len() - k,
    {
        assert(rv[k as int] == rendered@[k as int]@);
        assert forall|j: int| 0 <= j < rendered@[k as int].members.len() implies (
        #[trigger] rendered@[k as int].members@[j]) < categorized.len() by {
            assert(rv[k as int].members[j] < cs.len());
        }
        let line = format_group_line(&rendered[k], &categorized);
        push_text(&mut mech, line);
        assert(rv.take(k + 1).map_values(|g: PatternView| group_line(g, cs)) =~= rv.take(
            k as int,
        ).map_values(|g: PatternView| group_line(g, cs)).push(group_line(rv[k as int], cs)));
        k = k + 1;
    }
    assert(rv.take(rendered.len() as int) =~= rv);
    let ghost groups_part = texts(mech@);
    let mut new_rows: Vec<String> = Vec::new();
    let mut behavioral_rows: Vec<String> = Vec::new();
    let mut n_mech: usize = 0;
    let mut n_new: usize = 0;
    let mut n_beh: usize = 0;
    let mut i: usize = 0;
    while i < categorized.len()
        invariant
            i <= categorized.len(),
            cs == changes_view(categorized@),
            texts(mech@) == groups_part + mechanical_rows(cs.take(i as int), taken@),
            texts(new_rows@) == category_rows(cs.take(i as int), ChangeCategory::NewLogic),
            texts(behavioral_rows@) == category_rows(cs.take(i as int), ChangeCategory::Behavioral),
            n_mech == count_category(cs.take(i as int), ChangeCategory::Mechanical),
            n_new == count_category(cs.take(i as int), ChangeCategory::NewLogic),
            n_beh == count_category(cs.take(i as int), ChangeCategory::Behavioral),
            n_mech <= i,
            n_new <= i,
            n_beh <= i,
        decreases categorized.len() - i,
    {
        let c = &categorized[i];
        assert(cs[i as int] == c@);
        assert(cs.take(i + 1).drop_last() =~= cs.take(i as int));
        assert(cs.take(i + 1).last() == c@);
        assert(cs.take(i + 1).len() - 1 == i);
        match c.category {
            ChangeCategory::Mechanical => {
                n_mech = n_mech + 1;
                if !contains_usize(&taken, i) {
                    let ghost before = texts(mech@);
                    push_text(&mut mech, format_mechanical_line(c));
                    assert(texts(mech@) =~= groups_part + mechanical_rows(cs.take(i + 1), taken@));
                } else {
                    assert(texts(mech@) =~= groups_part + mechanical_rows(cs.take(i + 1), taken@));
                }
            },
            ChangeCategory::NewLogic => {
                n_new = n_new + 1;
                push_text(&mut new_rows, format_new_logic_line(c));
            },
            ChangeCategory::Behavioral => {
                n_beh = n_beh + 1;
                push_text(&mut behavioral_rows, format_behavioral_line(c));
            },
        }
        i = i + 1;
    }
    assert(cs.take(categorized.len() as int) =~= cs);
    let mut out: Vec<String> = Vec::new();
    match &parsed.summary {
        Some(s) => {
            let mut head = String::new();
            append(&mut head, "Smart Review: ");
            append_decimal(&mut head, changes.len() as u128);
            append(&mut head, " changes across ");
            append_decimal(&mut head, s.file_count as u128);
            append(&mut head, " files\n");
            push_text(&mut out, head);
        },
        None => {},
    }
    let ghost head_part = texts(out@);
    push_section(&mut out, "MECHANICAL (skip \u{2014} ", n_mech, mech);
    push_section(&mut out, "NEW LOGIC (read these \u{2014} ", n_new, new_rows);
    push_section(&mut out, "BEHAVIORAL CHANGES (verify \u{2014} ", n_beh, behavioral_rows);
    let r = join_strings(&out, "\n");
    proof {
        let spec_file_count = match parsed.summary {
            Some(s) => Some(s.file_count),
            None => None,
        };
        let head = match spec_file_count {
            Some(n) => seq![
                "Smart Review: "@ + decimal(chs.len()) + " changes across "@ + decimal(n as nat)
                    + " files\n"@,
            ],
            None => seq![],
        };
        assert(head_part =~= head);
    }
    r
}


/// The mark of a change in the plain listing.
pub open spec fn change_icon(change_type: Seq<char>) -> Seq<char> {
    if change_type == "added"@ {
        "\u{2295}"@
    } else if change_type == "modified"@ {
        "\u{2206}"@
    } else if change_type == "renamed"@ {
        "\u{21bb}"@
    } else if change_type == "deleted"@ {
        "\u{2296}"@
    } else if change_type == "moved"@ {
        "\u{2192}"@
    } else {
        "?"@
    }
}

/// The name shown for a change: a moved or renamed entity names its old
/// file when it is known.
pub open spec fn change_name(c: SemChangeView) -> Seq<char> {
    if (c.change_type == "moved"@ || c.change_type == "renamed"@) && c.old_file_path is Some {
        c.entity_name + " (from "@ + c.old_file_path->Some_0 + ")"@
    } else {
        c.entity_name
    }
}

/// One row of the plain listing.
pub open spec fn change_row(c: SemChangeView) -> Seq<char> {
    "  "@ + change_icon(c.change_type) + " "@ + pad_right(c.entity_type, 12) + " "@ + pad_right(
        change_name(c),
        35,
    ) + " "@ + c.file_path
}

/// One count of the summary line, or nothing when it is zero.
pub open spec fn count_part(n: u64, word: Seq<char>) -> Seq<Seq<char>> {
    if n > 0 {
        seq![decimal(n as nat) + " "@ + word]
    } else {
        seq![]
    }
}

/// The non-zero counts of a summary, in a fixed order.
pub open spec fn summary_parts(s: SemSummary) -> Seq<Seq<char>> {
    count_part(s.added, "added"@) + count_part(s.modified, "modified"@) + count_part(
        s.deleted,
        "deleted"@,
    ) + count_part(s.renamed, "renamed"@) + count_part(s.moved, "moved"@)
}

/// The plain listing of a semantic diff: a summary line and an empty line
/// when there is a summary, then one row per change.
pub open spec fn sem_listing(summary: Option<SemSummary>, changes: Option<Seq<SemChangeView>>) -> Seq<
    char,
> {
    let head = match summary {
        Some(s) => seq![
            "Semantic: "@ + join(summary_parts(s), ", "@) + " across "@ + decimal(
                s.file_count as nat,
            ) + " files"@,
            seq![],
        ],
        None => seq![],
    };
    let rows = match changes {
        Some(cs) => cs.map_values(|c: SemChangeView| change_row(c)),
        None => seq![],
    };
    join(head + rows, "\n"@)
}

fn push_count(parts: &mut Vec<String>, n: u64, word: &str)
    ensures
        texts(final(parts)@) == texts(old(parts)@) + count_part(n, word@),
{
    if n > 0 {
        let mut p = String::new();
        append_decimal(&mut p, n as u128);
        append(&mut p, " ");
        append(&mut p, word);
        push_text(parts, p);
    } else {
        assert(texts(parts@) =~= texts(old(parts)@) + count_part(n, word@));
    }
}

fn change_icon_of(change_type: &str) -> (r: &'static str)
    ensures
        r@ == change_icon(change_type@),
{
    if same_text(change_type, "added") {
        "\u{2295}"
    } else if same_text(change_type, "modified") {
        "\u{2206}"
    } else if same_text(change_type, "renamed") {
        "\u{21bb}"
    } else if same_text(change_type, "deleted") {
        "\u{2296}"
    } else if same_text(change_type, "moved") {
        "\u{2192}"
    } else {
        "?"
    }
}

/// Renders one row of the plain listing.
pub fn format_change_row(c: &SemChange) -> (r: String)
    ensures
        r@ == change_row(c@),
{
    let mut name = String::new();
    append(&mut name, c.entity_name.as_str());
    if same_text(c.change_type.as_str(), "moved") || same_text(c.change_type.as_str(), "renamed") {
        match &c.old_file_path {
            Some(o) => {
                append(&mut name, " (from ");
                append(&mut name, o.as_str());
                append(&mut name, ")");
            },
            None => {},
        }
    }
    assert(name@ =~= change_name(c@));
    let mut s = String::new();
    append(&mut s, "  ");
    append(&mut s, change_icon_of(c.change_type.as_str()));
    append(&mut s, " ");
    append_pad_right(&mut s, c.entity_type.as_str(), 12);
    append(&mut s, " ");
    append_pad_right(&mut s, name.as_str(), 35);
    append(&mut s, " ");
    append(&mut s, c.file_path.as_str());
    assert(s@ =~= change_row(c@));
    s
}

/// Renders the plain listing of a semantic diff.
pub fn format_sem_listing(parsed: &SemOutput) -> (r: String)
    ensures
        r@ == sem_listing(
            parsed.summary,
            match parsed.changes {
                Some(v) => Some(v@.map_values(|c: SemChange| c@)),
                None => None,
            },
        ),
{
    let mut lines: Vec<String> = Vec::new();
    assert(texts(lines@) =~= Seq::<Seq<char>>::empty());
    match &parsed.summary {
        Some(sm) => {
            let mut parts: Vec<String> = Vec::new();
            assert(texts(parts@) =~= Seq::<Seq<char>>::empty());
            push_count(&mut parts, sm.added, "added");
            push_count(&mut parts, sm.modified, "modified");
            push_count(&mut parts, sm.deleted, "deleted");
            push_count(&mut parts, sm.renamed, "renamed");
            push_count(&mut parts, sm.moved, "moved");
            assert(texts(parts@) =~= summary_parts(*sm));
            let mut head = String::new();
            append(&mut head, "Semantic: ");
            append(&mut head, join_strings(&parts, ", ").as_str());
            append(&mut head, " across ");
            append_decimal(&mut head, sm.file_count as u128);
            append(&mut head, " files");
            let ghost hv = head@;
            push_text(&mut lines, head);
            push_text(&mut lines, String::new());
            assert(texts(lines@) =~= seq![hv, Seq::<char>::empty()]);
        },
        None => {},
    }
    let ghost head_part = texts(lines@);
    assert(head_part == match parsed.summary {
        Some(s) => seq![
            "Semantic: "@ + join(summary_parts(s), ", "@) + " across "@ + decimal(
                s.file_count as nat,
            ) + " files"@,
            seq![],
        ],
        None => Seq::<Seq<char>>::empty(),
    });
    match &parsed.changes {
        Some(cs) => {
            let ghost cv = cs@.map_values(|c: SemChange| c@);
            let mut k: usize = 0;
            while k < cs.len()
                invariant
                    k <= cs.len(),
                    cv == cs@.map_values(|c: SemChange| c@),
                    texts(lines@) == head_part + cv.take(k as int).map_values(
                        |c: SemChangeView| change_row(c),
                    ),
                decreases cs.len() - k,
            {
                assert(cv[k as int] == cs@[k as int]@);
                push_text(&mut lines, format_change_row(&cs[k]));
                assert(cv.take(k + 1).map_values(|c: SemChangeView| change_row(c)) =~= cv.take(
                    k as int,
                ).map_values(|c: SemChangeView| change_row(c)).push(change_row(cv[k as int])));
                k = k + 1;
            }
            assert(cv.take(cs.len() as int) =~= cv);
        },
        None => {
            assert(texts(lines@) =~= head_part + Seq::<Seq<char>>::empty());
        },
    }
    join_strings(&lines, "\n")
}


/// How a run of the semantic-diff engine for a smart review went: there was
/// nothing to hand it, it failed with a message, or it reported.
pub enum EngineRun {
    NothingToAnalyze,
    Failed(String),
    Finished(SemOutput),
}

/// The text of a smart review for each outcome of the engine run.
pub fn smart_review_text(run: &EngineRun) -> (r: String)
    ensures
        match run {
            EngineRun::NothingToAnalyze => r@ == "No files to analyze."@,
            EngineRun::Failed(e) => r@ == "Smart analysis failed: "@ + e@,
            EngineRun::Finished(p) => r@ == smart_report(
                match p.summary {
                    Some(s) => Some(s.file_count),
                    None => None,
                },
                match p.changes {
                    Some(v) => Some(v@.map_values(|c: SemChange| c@)),
                    None => None,
                },
            ),
        },
{
    match run {
        EngineRun::NothingToAnalyze => String::from_str("No files to analyze."),
        EngineRun::Failed(e) => {
            let mut s = String::new();
            append(&mut s, "Smart analysis failed: ");
            append(&mut s, e.as_str());
            s
        },
        EngineRun::Finished(p) => format_smart_output(p),
    }
}

} // verus!
