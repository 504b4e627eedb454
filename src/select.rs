//! Which files a command looks at: the files worth reading after triage,
//! filters, noise, and the inputs handed to the semantic-diff engine.
use vstd::prelude::*;
use vstd::string::StringExecFns;
use crate::classify::{
    categorize, categorize_change, opt_view, strs_view, ChangeCategory,
    SemChange, SemChangeView,
};
use crate::github::{CodeSearchItem, PrFile, PrFileView, TextMatch};
use crate::noise::{is_noise_file, is_noise_path, standard_rules};
use crate::search::{
    find_in, find_text, fold_lines, folded, folded_lines, line_hits, match_lines, matches_view,
    split_lines, MatchView, SearchMatch,
};
use crate::text::{chars_of, lines_of, lowercase, same_text};

verus! {

/// Lexicographic order of texts by character code, which is the order of
/// their UTF-8 bytes.
pub open spec fn lex_lt(a: Seq<char>, b: Seq<char>) -> bool
    decreases a.len(),
{
    if a.len() == 0 {
        b.len() > 0
    } else if b.len() == 0 {
        false
    } else if a[0] != b[0] {
        a[0] < b[0]
    } else {
        lex_lt(a.drop_first(), b.drop_first())
    }
}

proof fn lemma_lex_irreflexive(a: Seq<char>)
    ensures
        !lex_lt(a, a),
    decreases a.len(),
{
    if a.len() > 0 {
        lemma_lex_irreflexive(a.drop_first());
    }
}

proof fn lemma_lex_transitive(a: Seq<char>, b: Seq<char>, c: Seq<char>)
    requires
        lex_lt(a, b),
        lex_lt(b, c),
    ensures
        lex_lt(a, c),
    decreases a.len(),
{
    if a.len() > 0 && b.len() > 0 && c.len() > 0 && a[0] == b[0] && b[0] == c[0] {
        lemma_lex_transitive(a.drop_first(), b.drop_first(), c.drop_first());
    }
}

proof fn lemma_lex_total(a: Seq<char>, b: Seq<char>)
    requires
        a != b,
    ensures
        lex_lt(a, b) || lex_lt(b, a),
    decreases a.len(),
{
    if a.len() > 0 && b.len() > 0 && a[0] == b[0] {
        if a.drop_first() == b.drop_first() {
            assert(a =~= seq![a[0]] + a.drop_first());
            assert(b =~= seq![b[0]] + b.drop_first());
        }
        lemma_lex_total(a.drop_first(), b.drop_first());
    } else if a.len() == 0 && b.len() == 0 {
        assert(a =~= b);
    } else if a.len() > 0 && b.len() > 0 {
        assert(a[0] < b[0] || b[0] < a[0]);
    }
}

/// Whether `a` sorts before `b`.
pub fn text_less(a: &str, b: &str) -> (r: bool)
    ensures
        r == lex_lt(a@, b@),
{
    let ac = chars_of(a);
    let bc = chars_of(b);
    let mut k: usize = 0;
    assert(ac@.skip(0) =~= ac@);
    assert(bc@.skip(0) =~= bc@);
    while k < ac.len() && k < bc.len() && ac[k] == bc[k]
        invariant
            ac@ == a@,
            bc@ == b@,
            k <= ac.len(),
            k <= bc.len(),
            lex_lt(a@, b@) == lex_lt(ac@.skip(k as int), bc@.skip(k as int)),
        decreases ac.len() - k,
    {
        assert(ac@.skip(k as int).drop_first() =~= ac@.skip(k + 1));
        assert(bc@.skip(k as int).drop_first() =~= bc@.skip(k + 1));
        k = k + 1;
    }
    proof {
        let sa = ac@.skip(k as int);
        let sb = bc@.skip(k as int);
        assert(sa.len() == ac.len() - k);
        assert(sb.len() == bc.len() - k);
        if k < ac.len() && k < bc.len() {
            assert(sa[0] == ac@[k as int]);
            assert(sb[0] == bc@[k as int]);
        }
    }
    if k == ac.len() {
        k < bc.len()
    } else if k == bc.len() {
        false
    } else {
        ac[k] < bc[k]
    }
}

/// Strictly ascending, hence without duplicates.
pub open spec fn strictly_sorted(v: Seq<Seq<char>>) -> bool {
    forall|i: int, j: int| 0 <= i < j < v.len() ==> lex_lt(#[trigger] v[i], #[trigger] v[j])
}

/// Adds `x` to a strictly sorted vector at its place, unless it is there.
fn insert_sorted(v: &mut Vec<String>, x: String)
    requires
        strictly_sorted(strs_view(old(v)@)),
    ensures
        strictly_sorted(strs_view(final(v)@)),
        forall|y: Seq<char>|
            strs_view(final(v)@).contains(y) <==> (strs_view(old(v)@).contains(y) || y == x@),
{
    let ghost sv = strs_view(v@);
    let mut p: usize = 0;
    while p < v.len() && text_less(v[p].as_str(), x.as_str())
        invariant
            p <= v.len(),
            sv == strs_view(v@),
            v@ == old(v)@,
            forall|i: int| 0 <= i < p ==> lex_lt(#[trigger] sv[i], x@),
        decreases v.len() - p,
    {
        assert(sv[p as int] == v@[p as int]@);
        p = p + 1;
    }
    if p < v.len() && same_text(v[p].as_str(), x.as_str()) {
        assert(sv[p as int] == x@);
        assert(forall|y: Seq<char>| sv.contains(y) <==> (sv.contains(y) || y == x@));
        return;
    }
    proof {
        if p < v.len() {
            assert(sv[p as int] == v@[p as int]@);
            lemma_lex_total(sv[p as int], x@);
            assert forall|j: int| p <= j < sv.len() implies lex_lt(x@, #[trigger] sv[j]) by {
                if j > p {
                    lemma_lex_transitive(x@, sv[p as int], sv[j]);
                }
            }
        }
    }
    let ghost xv = x@;
    v.insert(p, x);
    proof {
        let nv = strs_view(v@);
        assert(nv =~= sv.insert(p as int, xv));
        assert forall|i: int, j: int| 0 <= i < j < nv.len() implies lex_lt(
            #[trigger] nv[i],
            #[trigger] nv[j],
        ) by {
            if j < p {
            } else if j == p {
            } else if i < p {
                assert(nv[j] == sv[j - 1]);
                lemma_lex_transitive(sv[i], xv, sv[j - 1]);
            } else if i == p {
                assert(nv[j] == sv[j - 1]);
            } else {
                assert(nv[i] == sv[i - 1]);
                assert(nv[j] == sv[j - 1]);
            }
        }
        assert forall|y: Seq<char>| nv.contains(y) <==> (sv.contains(y) || y == xv) by {
            if nv.contains(y) {
                let q = choose|q: int| 0 <= q < nv.len() && nv[q] == y;
                if q < p {
                    assert(sv[q] == y);
                } else if q > p {
                    assert(sv[q - 1] == y);
                }
            }
            if sv.contains(y) {
                let q = choose|q: int| 0 <= q < sv.len() && sv[q] == y;
                if q < p {
                    assert(nv[q] == y);
                } else {
                    assert(nv[q + 1] == y);
                }
            }
            if y == xv {
                assert(nv[p as int] == y);
            }
        }
    }
}

/// Whether some change outside the mechanical category touches `path`.
pub open spec fn worth_reading(cs: Seq<SemChangeView>, path: Seq<char>) -> bool {
    exists|i: int|
        0 <= i < cs.len() && categorize(cs[i]).category != ChangeCategory::Mechanical
            && cs[i].file_path == path
}

/// The files to read after triage: the paths of the changes that are not
/// mechanical, sorted and without duplicates.
pub fn smart_files(changes: &[SemChange]) -> (r: Vec<String>)
    ensures
        strictly_sorted(strs_view(r@)),
        forall|p: Seq<char>|
            strs_view(r@).contains(p) <==> worth_reading(changes@.map_values(|c: SemChange| c@), p),
{
    let ghost cv = changes@.map_values(|c: SemChange| c@);
    let mut r: Vec<String> = Vec::new();
    let mut k: usize = 0;
    assert(strs_view(r@) =~= Seq::<Seq<char>>::empty());
    while k < changes.len()
        invariant
            k <= changes.len(),
            cv == changes@.map_values(|c: SemChange| c@),
            strictly_sorted(strs_view(r@)),
            forall|p: Seq<char>|
                strs_view(r@).contains(p) <==> worth_reading(cv.take(k as int), p),
        decreases changes.len() - k,
    {
        let c = categorize_change(&changes[k]);
        assert(cv[k as int] == changes@[k as int]@);
        let ghost before = strs_view(r@);
        if c.category != ChangeCategory::Mechanical {
            insert_sorted(&mut r, c.file_path.clone());
        }
        assert forall|p: Seq<char>|
            strs_view(r@).contains(p) <==> worth_reading(cv.take(k + 1), p) by {
            let t = cv.take(k + 1);
            if worth_reading(t, p) {
                let i = choose|i: int|
                    0 <= i < t.len() && categorize(t[i]).category != ChangeCategory::Mechanical
                        && t[i].file_path == p;
                if i < k {
                    assert(cv.take(k as int)[i] == t[i]);
                }
            }
            if worth_reading(cv.take(k as int), p) {
                let i = choose|i: int|
                    0 <= i < k && categorize(cv.take(k as int)[i]).category
                        != ChangeCategory::Mechanical && cv.take(k as int)[i].file_path == p;
                assert(t[i] == cv.take(k as int)[i]);
            }
            if c.category != ChangeCategory::Mechanical && p == c.file_path@ {
                assert(t[k as int] == cv[k as int]);
            }
        }
        k = k + 1;
    }
    assert(cv.take(changes.len() as int) =~= cv);
    r
}

/// A file handed to the semantic-diff engine: its path, status, and the
/// content before and after the change.
#[derive(Debug, Clone)]
pub struct SemFileInput {
    pub file_path: String,
    pub status: String,
    pub old_file_path: Option<String>,
    pub before_content: Option<String>,
    pub after_content: Option<String>,
}

/// The engine's status word for a file status: removed files are deleted,
/// added and renamed ones keep their word, anything else is modified.
pub open spec fn engine_status(status: Seq<char>) -> Seq<char> {
    if status == "added"@ {
        "added"@
    } else if status == "removed"@ {
        "deleted"@
    } else if status == "renamed"@ {
        "renamed"@
    } else {
        "modified"@
    }
}

fn clone_opt(o: &Option<String>) -> (r: Option<String>)
    ensures
        opt_view(r) == opt_view(*o),
{
    match o {
        Some(s) => Some(s.clone()),
        None => None,
    }
}

/// The engine inputs for (path, status, before, after) file pairs, in order.
pub fn sem_inputs_from_pairs(pairs: &[(String, String, Option<String>, Option<String>)]) -> (r:
    Vec<SemFileInput>)
    ensures
        r@.len() == pairs@.len(),
        forall|i: int|
            0 <= i < pairs@.len() ==> {
                let p = #[trigger] pairs@[i];
                &&& r@[i].file_path@ == p.0@
                &&& r@[i].status@ == engine_status(p.1@)
                &&& r@[i].old_file_path is None
                &&& opt_view(r@[i].before_content) == opt_view(p.2)
                &&& opt_view(r@[i].after_content) == opt_view(p.3)
            },
{
    let mut r: Vec<SemFileInput> = Vec::new();
    let mut k: usize = 0;
    while k < pairs.len()
        invariant
            k <= pairs.len(),
            r@.len() == k,
            forall|i: int|
                0 <= i < k ==> {
                    let p = #[trigger] pairs@[i];
                    &&& r@[i].file_path@ == p.0@
                    &&& r@[i].status@ == engine_status(p.1@)
                    &&& r@[i].old_file_path is None
                    &&& opt_view(r@[i].before_content) == opt_view(p.2)
                    &&& opt_view(r@[i].after_content) == opt_view(p.3)
                },
        decreases pairs.len() - k,
    {
        let p = &pairs[k];
        let st = p.1.as_str();
        let status = if same_text(st, "added") {
            String::from_str("added")
        } else if same_text(st, "removed") {
            String::from_str("deleted")
        } else if same_text(st, "renamed") {
            String::from_str("renamed")
        } else {
            String::from_str("modified")
        };
        r.push(
            SemFileInput {
                file_path: p.0.clone(),
                status,
                old_file_path: None,
                before_content: clone_opt(&p.2),
                after_content: clone_opt(&p.3),
            },
        );
        k = k + 1;
    }
    r
}


/// Whether `name` contains one of the filters.
pub open spec fn matches_filter(name: Seq<char>, filters: Seq<Seq<char>>) -> bool {
    exists|i: int| 0 <= i < filters.len() && find_text(name, filters[i]) is Some
}

/// Whether `name` contains one of the filters as a substring.
pub fn name_matches(name: &str, filters: &[String]) -> (r: bool)
    ensures
        r == matches_filter(name@, filters@.map_values(|f: String| f@)),
{
    let ghost fv = filters@.map_values(|f: String| f@);
    let cs = chars_of(name);
    let mut k: usize = 0;
    while k < filters.len()
        invariant
            k <= filters.len(),
            cs@ == name@,
            fv == filters@.map_values(|f: String| f@),
            forall|i: int| 0 <= i < k ==> find_text(name@, #[trigger] fv[i]) is None,
        decreases filters.len() - k,
    {
        assert(fv[k as int] == filters@[k as int]@);
        if find_in(&cs, filters[k].as_str()).is_some() {
            return true;
        }
        k = k + 1;
    }
    false
}

/// Whether `name` is one of `names`.
pub open spec fn listed(name: Seq<char>, names: Seq<Seq<char>>) -> bool {
    names.contains(name)
}

/// Whether the diff command shows a file: one that matches a filter when
/// filters are given; otherwise one on the smart list when that list is in use
/// and not empty; otherwise every file.
pub open spec fn diff_shows(
    f: PrFileView,
    filters: Seq<Seq<char>>,
    use_smart: bool,
    smart_list: Seq<Seq<char>>,
) -> bool {
    if filters.len() > 0 {
        matches_filter(f.filename, filters)
    } else if use_smart && smart_list.len() > 0 {
        listed(f.filename, smart_list)
    } else {
        true
    }
}

/// The files that a predicate keeps, in order.
pub open spec fn kept_files(
    fs: Seq<PrFileView>,
    filters: Seq<Seq<char>>,
    use_smart: bool,
    smart_list: Seq<Seq<char>>,
    include_all: bool,
) -> Seq<PrFileView>
    decreases fs.len(),
{
    if fs.len() == 0 {
        seq![]
    } else {
        let f = fs.last();
        let rest = kept_files(fs.drop_last(), filters, use_smart, smart_list, include_all);
        if diff_shows(f, filters, use_smart, smart_list) && (include_all || !is_noise_path(
            standard_rules(),
            f.filename,
        )) {
            rest.push(f)
        } else {
            rest
        }
    }
}

/// The number of files that the filters show but the noise rule hides.
pub open spec fn hidden_noise(
    fs: Seq<PrFileView>,
    filters: Seq<Seq<char>>,
    use_smart: bool,
    smart_list: Seq<Seq<char>>,
    include_all: bool,
) -> nat
    decreases fs.len(),
{
    if fs.len() == 0 {
        0
    } else {
        let f = fs.last();
        hidden_noise(fs.drop_last(), filters, use_smart, smart_list, include_all) + if diff_shows(
            f,
            filters,
            use_smart,
            smart_list,
        ) && !include_all && is_noise_path(standard_rules(), f.filename) {
            1nat
        } else {
            0nat
        }
    }
}

fn copy_file(f: &PrFile) -> (r: PrFile)
    ensures
        r@ == f@,
{
    PrFile {
        filename: f.filename.clone(),
        status: f.status.clone(),
        additions: f.additions,
        deletions: f.deletions,
        patch: clone_opt(&f.patch),
    }
}

/// The files the diff command shows, and how many noise files it skipped.
pub fn select_diff_files(
    files: &[PrFile],
    file_filters: &[String],
    use_smart: bool,
    smart_list: &[String],
    include_all: bool,
) -> (r: (Vec<PrFile>, usize))
    ensures
        r.0@.map_values(|f: PrFile| f@) == kept_files(
            files@.map_values(|f: PrFile| f@),
            file_filters@.map_values(|f: String| f@),
            use_smart,
            smart_list@.map_values(|f: String| f@),
            include_all,
        ),
        r.1 as nat == hidden_noise(
            files@.map_values(|f: PrFile| f@),
            file_filters@.map_values(|f: String| f@),
            use_smart,
            smart_list@.map_values(|f: String| f@),
            include_all,
        ),
{
    let ghost fv = files@.map_values(|f: PrFile| f@);
    let ghost filt = file_filters@.map_values(|f: String| f@);
    let ghost sl = smart_list@.map_values(|f: String| f@);
    let mut out: Vec<PrFile> = Vec::new();
    let mut skipped: usize = 0;
    let mut k: usize = 0;
    assert(out@.map_values(|f: PrFile| f@) =~= Seq::<PrFileView>::empty());
    while k < files.len()
        invariant
            k <= files.len(),
            skipped <= k,
            fv == files@.map_values(|f: PrFile| f@),
            filt == file_filters@.map_values(|f: String| f@),
            sl == smart_list@.map_values(|f: String| f@),
            out@.map_values(|f: PrFile| f@) == kept_files(fv.take(k as int), filt, use_smart, sl, include_all),
            skipped as nat == hidden_noise(fv.take(k as int), filt, use_smart, sl, include_all),
        decreases files.len() - k,
    {
        let f = &files[k];
        assert(fv[k as int] == f@);
        assert(fv.take(k + 1).drop_last() =~= fv.take(k as int));
        assert(fv.take(k + 1).last() == f@);
        let shown = if file_filters.len() > 0 {
            name_matches(f.filename.as_str(), file_filters)
        } else if use_smart && smart_list.len() > 0 {
            let mut found = false;
            let mut j: usize = 0;
            while j < smart_list.len()
                invariant
                    j <= smart_list.len(),
                    sl == smart_list@.map_values(|f: String| f@),
                    found == exists|q: int| 0 <= q < j && sl[q] == f.filename@,
                decreases smart_list.len() - j,
            {
                assert(sl[j as int] == smart_list@[j as int]@);
                if same_text(smart_list[j].as_str(), f.filename.as_str()) {
                    found = true;
                }
                j = j + 1;
            }
            found
        } else {
            true
        };
        assert(shown == diff_shows(f@, filt, use_smart, sl));
        if shown {
            if include_all || !is_noise_file(f.filename.as_str()) {
                let ghost before = out@;
                let c = copy_file(f);
                out.push(c);
                assert(out@.map_values(|f: PrFile| f@) =~= before.map_values(|f: PrFile| f@).push(c@));
            } else {
                skipped = skipped + 1;
            }
        }
        k = k + 1;
    }
    assert(fv.take(files.len() as int) =~= fv);
    (out, skipped)
}

/// The paths a search covers among the changed files: those that match a
/// filter when filters are given, and no noise unless it is included.
pub open spec fn search_paths(fs: Seq<PrFileView>, filters: Seq<Seq<char>>, include_all: bool) -> Seq<
    Seq<char>,
>
    decreases fs.len(),
{
    if fs.len() == 0 {
        seq![]
    } else {
        let f = fs.last();
        let rest = search_paths(fs.drop_last(), filters, include_all);
        if (filters.len() == 0 || matches_filter(f.filename, filters)) && (include_all
            || !is_noise_path(standard_rules(), f.filename)) {
            rest.push(f.filename)
        } else {
            rest
        }
    }
}

/// The changed-file paths that a search covers.
pub fn select_search_paths(files: &[PrFile], file_filters: &[String], include_all: bool) -> (r: Vec<
    String,
>)
    ensures
        strs_view(r@) == search_paths(
            files@.map_values(|f: PrFile| f@),
            file_filters@.map_values(|f: String| f@),
            include_all,
        ),
{
    let ghost fv = files@.map_values(|f: PrFile| f@);
    let ghost filt = file_filters@.map_values(|f: String| f@);
    let mut out: Vec<String> = Vec::new();
    let mut k: usize = 0;
    assert(strs_view(out@) =~= Seq::<Seq<char>>::empty());
    while k < files.len()
        invariant
            k <= files.len(),
            fv == files@.map_values(|f: PrFile| f@),
            filt == file_filters@.map_values(|f: String| f@),
            strs_view(out@) == search_paths(fv.take(k as int), filt, include_all),
        decreases files.len() - k,
    {
        let f = &files[k];
        assert(fv[k as int] == f@);
        assert(fv.take(k + 1).drop_last() =~= fv.take(k as int));
        assert(fv.take(k + 1).last() == f@);
        if (file_filters.len() == 0 || name_matches(f.filename.as_str(), file_filters)) && (
        include_all || !is_noise_file(f.filename.as_str())) {
            let ghost before = out@;
            let c = f.filename.clone();
            out.push(c);
            assert(strs_view(out@) =~= strs_view(before).push(c@));
        }
        k = k + 1;
    }
    assert(fv.take(files.len() as int) =~= fv);
    out
}

/// The paths a structural search fetches: the changed files' paths and
/// those of the code-search hits that are not among them (noise only when
/// included), sorted and without duplicates.
pub fn merge_search_paths(pr_paths: &Vec<String>, items: &[CodeSearchItem], include_all: bool) -> (r:
    Vec<String>)
    ensures
        strictly_sorted(strs_view(r@)),
        forall|p: Seq<char>|
            strs_view(r@).contains(p) <==> (strs_view(pr_paths@).contains(p) || exists|i: int|
                0 <= i < items@.len() && items@[i].path@ == p && (include_all || !is_noise_path(
                    standard_rules(),
                    p,
                ))),
{
    let mut r: Vec<String> = Vec::new();
    assert(strs_view(r@) =~= Seq::<Seq<char>>::empty());
    let mut k: usize = 0;
    while k < pr_paths.len()
        invariant
            k <= pr_paths.len(),
            strictly_sorted(strs_view(r@)),
            forall|p: Seq<char>|
                strs_view(r@).contains(p) <==> strs_view(pr_paths@).take(k as int).contains(p),
        decreases pr_paths.len() - k,
    {
        let ghost before = strs_view(r@);
        insert_sorted(&mut r, pr_paths[k].clone());
        proof {
            let t = strs_view(pr_paths@).take(k + 1);
            assert(t =~= strs_view(pr_paths@).take(k as int).push(pr_paths@[k as int]@));
            assert forall|p: Seq<char>| strs_view(r@).contains(p) <==> t.contains(p) by {
                if t.contains(p) {
                    let q = choose|q: int| 0 <= q < t.len() && t[q] == p;
                    if q < k {
                        assert(strs_view(pr_paths@).take(k as int)[q] == p);
                    }
                }
                if strs_view(pr_paths@).take(k as int).contains(p) {
                    let q = choose|q: int| 0 <= q < k && strs_view(pr_paths@).take(k as int)[q] == p;
                    assert(t[q] == p);
                }
                if p == pr_paths@[k as int]@ {
                    assert(t[k as int] == p);
                }
            }
        }
        k = k + 1;
    }
    assert(strs_view(pr_paths@).take(pr_paths.len() as int) =~= strs_view(pr_paths@));
    let mut k: usize = 0;
    while k < items.len()
        invariant
            k <= items.len(),
            strictly_sorted(strs_view(r@)),
            forall|p: Seq<char>|
                strs_view(r@).contains(p) <==> (strs_view(pr_paths@).contains(p) || exists|i: int|
                    0 <= i < k && items@[i].path@ == p && (include_all || !is_noise_path(
                        standard_rules(),
                        p,
                    ))),
        decreases items.len() - k,
    {
        let path = &items[k].path;
        if include_all || !is_noise_file(path.as_str()) {
            insert_sorted(&mut r, path.clone());
        }
        k = k + 1;
    }
    r
}

/// Turns one text fragment of a code-search hit into matches: each line of
/// the fragment that contains the pattern, numbered within its fragment,
/// without context.
pub fn fragment_matches(path: &String, fragment: &str, pattern: &str, case_sensitive: bool) -> (r:
    Vec<SearchMatch>)
    ensures
        matches_view(r@) == line_hits(
            path@,
            lines_of(fragment@),
            folded_lines(lines_of(fragment@), case_sensitive),
            folded(pattern@, case_sensitive),
            0,
            lines_of(fragment@).len() as int,
        ),
{
    let pat = if case_sensitive {
        String::from_str(pattern)
    } else {
        lowercase(pattern)
    };
    let lines = split_lines(fragment);
    let hays = fold_lines(&lines, case_sensitive);
    match_lines(path, &lines, &hays, pat.as_str(), 0)
}

/// The hits of the fragments `tms` of one code-search item, in order.
pub open spec fn fragments_hits(
    path: Seq<char>,
    tms: Seq<TextMatch>,
    pattern: Seq<char>,
    case_sensitive: bool,
) -> Seq<MatchView>
    decreases tms.len(),
{
    if tms.len() == 0 {
        seq![]
    } else {
        let ls = lines_of(tms.last().fragment@);
        fragments_hits(path, tms.drop_last(), pattern, case_sensitive) + line_hits(
            path,
            ls,
            folded_lines(ls, case_sensitive),
            folded(pattern, case_sensitive),
            0,
            ls.len() as int,
        )
    }
}

/// The hits of code search outside the changed files: items whose path is
/// among `pr_paths`, or is noise when noise is not included, are skipped.
pub open spec fn code_hits(
    items: Seq<CodeSearchItem>,
    pr_paths: Seq<Seq<char>>,
    pattern: Seq<char>,
    case_sensitive: bool,
    include_all: bool,
) -> Seq<MatchView>
    decreases items.len(),
{
    if items.len() == 0 {
        seq![]
    } else {
        let it = items.last();
        let rest = code_hits(items.drop_last(), pr_paths, pattern, case_sensitive, include_all);
        if pr_paths.contains(it.path@) || (!include_all && is_noise_path(
            standard_rules(),
            it.path@,
        )) {
            rest
        } else {
            match it.text_matches {
                Some(tms) => rest + fragments_hits(it.path@, tms@, pattern, case_sensitive),
                None => rest,
            }
        }
    }
}

/// Matches from code-search fragments of files outside the pull request.
pub fn code_search_matches(
    items: &[CodeSearchItem],
    pr_paths: &Vec<String>,
    pattern: &str,
    case_sensitive: bool,
    include_all: bool,
) -> (r: Vec<SearchMatch>)
    ensures
        matches_view(r@) == code_hits(
            items@,
            strs_view(pr_paths@),
            pattern@,
            case_sensitive,
            include_all,
        ),
{
    let mut out: Vec<SearchMatch> = Vec::new();
    assert(matches_view(out@) =~= Seq::<MatchView>::empty());
    let mut k: usize = 0;
    while k < items.len()
        invariant
            k <= items.len(),
            matches_view(out@) == code_hits(
                items@.take(k as int),
                strs_view(pr_paths@),
                pattern@,
                case_sensitive,
                include_all,
            ),
        decreases items.len() - k,
    {
        let it = &items[k];
        assert(items@.take(k + 1).drop_last() =~= items@.take(k as int));
        assert(items@.take(k + 1).last() == *it);
        let skip = crate::classify::contains_str(pr_paths, &it.path) || (!include_all
            && is_noise_file(it.path.as_str()));
        if !skip {
            match &it.text_matches {
                Some(tms) => {
                    let ghost start = matches_view(out@);
                    let mut j: usize = 0;
                    while j < tms.len()
                        invariant
                            j <= tms.len(),
                            matches_view(out@) == start + fragments_hits(
                                it.path@,
                                tms@.take(j as int),
                                pattern@,
                                case_sensitive,
                            ),
                        decreases tms.len() - j,
                    {
                        assert(tms@.take(j + 1).drop_last() =~= tms@.take(j as int));
                        assert(tms@.take(j + 1).last() == tms@[j as int]);
                        let found = fragment_matches(
                            &it.path,
                            tms[j].fragment.as_str(),
                            pattern,
                            case_sensitive,
                        );
                        let ghost before = matches_view(out@);
                        let mut q: usize = 0;
                        while q < found.len()
                            invariant
                                q <= found.len(),
                                matches_view(out@) == before + matches_view(found@).take(q as int),
                            decreases found.len() - q,
                        {
                            let ghost prev = out@;
                            let m = found[q].clone_match();
                            out.push(m);
                            assert(matches_view(out@) =~= matches_view(prev).push(m@));
                            assert(matches_view(found@).take(q + 1) =~= matches_view(found@).take(
                                q as int,
                            ).push(found@[q as int]@));
                            q = q + 1;
                        }
                        assert(matches_view(found@).take(found.len() as int) =~= matches_view(
                            found@,
                        ));
                        j = j + 1;
                    }
                    assert(tms@.take(tms.len() as int) =~= tms@);
                },
                None => {},
            }
        }
        k = k + 1;
    }
    assert(items@.take(items.len() as int) =~= items@);
    out
}


/// The engine inputs of a smart review: none when there are no file pairs,
/// since then there is nothing to analyze.
pub fn smart_review_inputs(pairs: &[(String, String, Option<String>, Option<String>)]) -> (r:
    Option<Vec<SemFileInput>>)
    ensures
        pairs@.len() == 0 <==> r is None,
        r matches Some(v) ==> v@.len() == pairs@.len() && forall|i: int|
            0 <= i < pairs@.len() ==> {
                let p = #[trigger] pairs@[i];
                &&& v@[i].file_path@ == p.0@
                &&& v@[i].status@ == engine_status(p.1@)
                &&& v@[i].old_file_path is None
                &&& opt_view(v@[i].before_content) == opt_view(p.2)
                &&& opt_view(v@[i].after_content) == opt_view(p.3)
            },
{
    if pairs.len() == 0 {
        None
    } else {
        Some(sem_inputs_from_pairs(pairs))
    }
}

} // verus!
