//! Plain-text search across fetched file contents, and its rendering.
use vstd::prelude::*;
use vstd::string::{StrSliceExecFns, StringExecFns};
use vstd::utf8::{encode_scalar, encode_utf8};
use crate::classify::{dedup, first_index, strs_view, trim, words};
use crate::text::{
    append, append_decimal, chars_of, decimal, has_at, join, join_strings, lines_of, lit_at,
    lower_of, lowercase, next_line, same_text, string_of,
};

verus! {

/// One search hit: file, 1-based line, 1-based column counted in UTF-8 bytes,
/// the matched line or node, and the lines of context around it.
#[derive(Debug, Clone)]
pub struct SearchMatch {
    pub file: String,
    pub line: usize,
    pub column: usize,
    pub text: String,
    pub context_before: Vec<String>,
    pub context_after: Vec<String>,
}

pub struct MatchView {
    pub file: Seq<char>,
    pub line: nat,
    pub column: nat,
    pub text: Seq<char>,
    pub context_before: Seq<Seq<char>>,
    pub context_after: Seq<Seq<char>>,
}

impl View for SearchMatch {
    type V = MatchView;

    open spec fn view(&self) -> MatchView {
        MatchView {
            file: self.file@,
            line: self.line as nat,
            column: self.column as nat,
            text: self.text@,
            context_before: strs_view(self.context_before@),
            context_after: strs_view(self.context_after@),
        }
    }
}

impl SearchMatch {
    /// A copy of this match.
    pub fn clone_match(&self) -> (r: SearchMatch)
        ensures
            r@ == self@,
    {
        SearchMatch {
            file: self.file.clone(),
            line: self.line,
            column: self.column,
            text: self.text.clone(),
            context_before: copy_strings(&self.context_before),
            context_after: copy_strings(&self.context_after),
        }
    }
}

fn copy_strings(v: &Vec<String>) -> (r: Vec<String>)
    ensures
        strs_view(r@) == strs_view(v@),
{
    let r = copy_range(v, 0, v.len());
    assert(strs_view(v@).subrange(0, v.len() as int) =~= strs_view(v@));
    r
}

/// The views of a sequence of matches.
pub open spec fn matches_view(ms: Seq<SearchMatch>) -> Seq<MatchView> {
    ms.map_values(|m: SearchMatch| m@)
}

/// The first position at or after `i` where `n` occurs in `h`.
pub open spec fn find_from(h: Seq<char>, n: Seq<char>, i: int) -> Option<nat>
    decreases h.len() + 1 - i,
{
    if i < 0 || i + n.len() > h.len() {
        None
    } else if lit_at(h, i, n) {
        Some(i as nat)
    } else {
        find_from(h, n, i + 1)
    }
}

/// The first position where `n` occurs in `h`, if it does.
pub open spec fn find_text(h: Seq<char>, n: Seq<char>) -> Option<nat> {
    find_from(h, n, 0)
}

/// Executable form of `find_text`.
pub fn find_in(h: &Vec<char>, n: &str) -> (r: Option<usize>)
    ensures
        match find_text(h@, n@) {
            Some(i) => r matches Some(j) && j as nat == i,
            None => r is None,
        },
        r matches Some(i) ==> i + n@.len() <= h@.len() && (n@.len() == 0 ==> i == 0),
{
    let nc = chars_of(n);
    if nc.len() > h.len() {
        return None;
    }
    let last = h.len() - nc.len();
    let mut i: usize = 0;
    if nc.len() == 0 {
        assert(h@.subrange(0, 0) =~= n@);
    }
    loop
        invariant
            nc@ == n@,
            last == h.len() - nc.len(),
            i <= last,
            nc.len() == 0 ==> i == 0,
            nc.len() == 0 ==> lit_at(h@, 0, n@),
            find_text(h@, n@) == find_from(h@, n@, i as int),
        decreases last - i,
    {
        if has_at(h, i, n) {
            return Some(i);
        }
        if i == last {
            assert(find_from(h@, n@, i + 1) is None);
            return None;
        }
        i = i + 1;
    }
}

/// The lines of a text, each as a string.
pub fn split_lines(s: &str) -> (r: Vec<String>)
    ensures
        strs_view(r@) == lines_of(s@),
{
    let cs = chars_of(s);
    let mut out: Vec<String> = Vec::new();
    let mut pos: usize = 0;
    assert(cs@.skip(0) =~= cs@);
    assert(strs_view(out@) =~= Seq::<Seq<char>>::empty());
    while pos < cs.len()
        invariant
            cs@ == s@,
            pos <= cs.len(),
            strs_view(out@) + lines_of(cs@.skip(pos as int)) == lines_of(s@),
        decreases cs.len() - pos,
    {
        let (line, next) = next_line(&cs, pos);
        let t = string_of(&line, 0, line.len());
        assert(line@.subrange(0, line@.len() as int) =~= line@);
        let ghost before = out@;
        out.push(t);
        assert(strs_view(out@) =~= strs_view(before).push(t@));
        assert(strs_view(out@) + lines_of(cs@.skip(next as int)) =~= strs_view(before) + (seq![line@]
            + lines_of(cs@.skip(next as int))));
        pos = next;
    }
    assert(cs@.skip(pos as int) =~= Seq::<char>::empty());
    assert(strs_view(out@) =~= lines_of(s@));
    out
}

/// The text compared in a search: as it is, or in lower case.
pub open spec fn folded(s: Seq<char>, case_sensitive: bool) -> Seq<char> {
    if case_sensitive {
        s
    } else {
        lower_of(s)
    }
}

/// The first line of context before line `i`.
pub open spec fn context_start(i: int, ctx: nat) -> int {
    if i >= ctx {
        i - ctx
    } else {
        0
    }
}

/// One past the last line of context after line `i` of `n` lines.
pub open spec fn context_end(i: int, ctx: nat, n: int) -> int {
    if i + ctx + 1 <= n {
        i + ctx + 1
    } else {
        n
    }
}

/// The hits in lines `0..k` of one file, in order: line `i` is a hit when
/// `pat` occurs in its compared form `hays[i]`, and its column is one past
/// the number of UTF-8 bytes of `hays[i]` before the first occurrence.
pub open spec fn line_hits(
    file: Seq<char>,
    lines: Seq<Seq<char>>,
    hays: Seq<Seq<char>>,
    pat: Seq<char>,
    ctx: nat,
    k: int,
) -> Seq<MatchView>
    decreases k,
{
    if k <= 0 || k > lines.len() {
        seq![]
    } else {
        let i = k - 1;
        let earlier = line_hits(file, lines, hays, pat, ctx, i);
        match find_text(hays[i], pat) {
            Some(col) => earlier.push(
                MatchView {
                    file,
                    line: k as nat,
                    column: encode_utf8(hays[i].take(col as int)).len() + 1,
                    text: lines[i],
                    context_before: lines.subrange(context_start(i, ctx), i),
                    context_after: lines.subrange(i + 1, context_end(i, ctx, lines.len() as int)),
                },
            ),
            None => earlier,
        }
    }
}

/// The compared forms of `lines`: as they are, or in lower case.
pub open spec fn folded_lines(lines: Seq<Seq<char>>, case_sensitive: bool) -> Seq<Seq<char>> {
    lines.map_values(|l: Seq<char>| folded(l, case_sensitive))
}

/// The hits of a text search over files `0..k`, file by file.
pub open spec fn grep_hits(
    files: Seq<(Seq<char>, Seq<char>)>,
    pattern: Seq<char>,
    case_sensitive: bool,
    ctx: nat,
) -> Seq<MatchView>
    decreases files.len(),
{
    if files.len() == 0 {
        seq![]
    } else {
        let (path, content) = files.last();
        let ls = lines_of(content);
        grep_hits(files.drop_last(), pattern, case_sensitive, ctx) + line_hits(
            path,
            ls,
            folded_lines(ls, case_sensitive),
            folded(pattern, case_sensitive),
            ctx,
            ls.len() as int,
        )
    }
}

fn copy_range(v: &Vec<String>, from: usize, to: usize) -> (r: Vec<String>)
    requires
        from <= to <= v.len(),
    ensures
        strs_view(r@) == strs_view(v@).subrange(from as int, to as int),
{
    let mut r: Vec<String> = Vec::new();
    let mut k = from;
    while k < to
        invariant
            from <= k <= to <= v.len(),
            strs_view(r@) == strs_view(v@).subrange(from as int, k as int),
        decreases to - k,
    {
        let ghost before = r@;
        let c = v[k].clone();
        r.push(c);
        assert(strs_view(r@) =~= strs_view(before).push(c@));
        assert(strs_view(v@).subrange(from as int, k + 1) =~= strs_view(v@).subrange(
            from as int,
            k as int,
        ).push(v@[k as int]@));
        k = k + 1;
    }
    r
}

/// The compared forms of `lines`: copies, or lower-case forms.
pub fn fold_lines(lines: &Vec<String>, case_sensitive: bool) -> (r: Vec<String>)
    ensures
        strs_view(r@) == folded_lines(strs_view(lines@), case_sensitive),
        r@.len() == lines@.len(),
{
    let ghost ls = strs_view(lines@);
    let mut r: Vec<String> = Vec::new();
    let mut k: usize = 0;
    assert(strs_view(r@) =~= Seq::<Seq<char>>::empty());
    while k < lines.len()
        invariant
            k <= lines.len(),
            ls == strs_view(lines@),
            strs_view(r@) == folded_lines(ls.take(k as int), case_sensitive),
        decreases lines.len() - k,
    {
        assert(ls[k as int] == lines@[k as int]@);
        let h = if case_sensitive {
            lines[k].clone()
        } else {
            lowercase(lines[k].as_str())
        };
        let ghost before = r@;
        r.push(h);
        assert(strs_view(r@) =~= strs_view(before).push(h@));
        assert(folded_lines(ls.take(k + 1), case_sensitive) =~= folded_lines(
            ls.take(k as int),
            case_sensitive,
        ).push(folded(ls[k as int], case_sensitive)));
        k = k + 1;
    }
    assert(ls.take(lines.len() as int) =~= ls);
    assert(strs_view(r@).len() == r@.len());
    r
}

proof fn lemma_encode_concat(a: Seq<char>, b: Seq<char>)
    ensures
        encode_utf8(a + b) == encode_utf8(a) + encode_utf8(b),
    decreases a.len(),
{
    if a.len() > 0 {
        lemma_encode_concat(a.drop_first(), b);
        assert((a + b).drop_first() =~= a.drop_first() + b);
        assert(encode_utf8(a) + encode_utf8(b) =~= encode_scalar(a[0] as u32) + (encode_utf8(
            a.drop_first(),
        ) + encode_utf8(b)));
    } else {
        assert(a + b =~= b);
        assert(encode_utf8(a) + encode_utf8(b) =~= encode_utf8(b));
    }
}

/// The UTF-8 byte offset of character position `col` in `s`.
fn byte_offset(s: &str, col: usize) -> (r: usize)
    requires
        col < s@.len(),
    ensures
        r as nat == encode_utf8(s@.take(col as int)).len(),
        r < usize::MAX,
{
    let head = s.substring_char(0, col);
    let whole = s.as_bytes().len();
    let r = head.as_bytes().len();
    proof {
        let t = s@.take(col as int);
        let rest = s@.skip(col as int);
        assert(t + rest =~= s@);
        lemma_encode_concat(t, rest);
        assert(encode_scalar(rest[0] as u32).len() >= 1);
        assert(encode_utf8(rest).len() >= 1);
        assert(head@ =~= t);
    }
    r
}

/// Finds the lines of one file whose compared form `hays[i]` contains `pat`,
/// with `ctx` lines of context on each side. The caller chooses the compared
/// forms, so this decides hits for given values, whatever folding made them.
pub fn match_lines(
    file: &String,
    lines: &Vec<String>,
    hays: &Vec<String>,
    pat: &str,
    ctx: usize,
) -> (r: Vec<SearchMatch>)
    requires
        hays.len() == lines.len(),
    ensures
        matches_view(r@) == line_hits(
            file@,
            strs_view(lines@),
            strs_view(hays@),
            pat@,
            ctx as nat,
            lines.len() as int,
        ),
{
    let ghost ls = strs_view(lines@);
    let ghost hs = strs_view(hays@);
    let mut out: Vec<SearchMatch> = Vec::new();
    assert(matches_view(out@) =~= Seq::<MatchView>::empty());
    let mut i: usize = 0;
    while i < lines.len()
        invariant
            i <= lines.len(),
            hays.len() == lines.len(),
            ls == strs_view(lines@),
            hs == strs_view(hays@),
            matches_view(out@) == line_hits(file@, ls, hs, pat@, ctx as nat, i as int),
        decreases lines.len() - i,
    {
        assert(ls[i as int] == lines@[i as int]@);
        assert(hs[i as int] == hays@[i as int]@);
        let hc = chars_of(hays[i].as_str());
        let hl = hc.len();
        match find_in(&hc, pat) {
            Some(col) => {
                assert(col + pat@.len() <= hl);
                let column: usize = if pat.unicode_len() == 0 {
                    proof {
                        assert(hs[i as int].take(0) =~= Seq::<char>::empty());
                    }
                    1
                } else {
                    byte_offset(hays[i].as_str(), col) + 1
                };
                let start_line: usize = if i >= ctx { i - ctx } else { 0 };
                let end_line: usize = if ctx < lines.len() - i { i + ctx + 1 } else { lines.len() };
                let m = SearchMatch {
                    file: file.clone(),
                    line: i + 1,
                    column,
                    text: lines[i].clone(),
                    context_before: copy_range(lines, start_line, i),
                    context_after: copy_range(lines, i + 1, end_line),
                };
                let ghost before = out@;
                out.push(m);
                assert(matches_view(out@) =~= matches_view(before).push(m@));
                assert(line_hits(file@, ls, hs, pat@, ctx as nat, i + 1) == line_hits(
                    file@,
                    ls,
                    hs,
                    pat@,
                    ctx as nat,
                    i as int,
                ).push(m@));
            },
            None => {
                assert(line_hits(file@, ls, hs, pat@, ctx as nat, i + 1) == line_hits(
                    file@,
                    ls,
                    hs,
                    pat@,
                    ctx as nat,
                    i as int,
                ));
            },
        }
        i = i + 1;
    }
    out
}

/// Searches each file's lines for `pattern`, ignoring case unless asked not
/// to, and keeps `context_lines` lines of context on each side of a hit.
/// Columns count UTF-8 bytes of the compared line from 1.
pub fn grep_files(
    files: &[(String, String)],
    pattern: &str,
    case_sensitive: bool,
    context_lines: usize,
) -> (r: Vec<SearchMatch>)
    ensures
        matches_view(r@) == grep_hits(
            files@.map_values(|f: (String, String)| (f.0@, f.1@)),
            pattern@,
            case_sensitive,
            context_lines as nat,
        ),
{
    let ghost fv = files@.map_values(|f: (String, String)| (f.0@, f.1@));
    let pat = if case_sensitive {
        String::from_str(pattern)
    } else {
        lowercase(pattern)
    };
    let mut out: Vec<SearchMatch> = Vec::new();
    let mut f: usize = 0;
    assert(matches_view(out@) =~= Seq::<MatchView>::empty());
    while f < files.len()
        invariant
            f <= files.len(),
            fv == files@.map_values(|f: (String, String)| (f.0@, f.1@)),
            pat@ == folded(pattern@, case_sensitive),
            matches_view(out@) == grep_hits(fv.take(f as int), pattern@, case_sensitive, context_lines as nat),
        decreases files.len() - f,
    {
        let (path, content) = (&files[f].0, &files[f].1);
        assert(fv[f as int] == (path@, content@));
        assert(fv.take(f + 1).drop_last() =~= fv.take(f as int));
        assert(fv.take(f + 1).last() == fv[f as int]);
        let lines = split_lines(content.as_str());
        let hays = fold_lines(&lines, case_sensitive);
        let mut found = match_lines(path, &lines, &hays, pat.as_str(), context_lines);
        let ghost before = out@;
        let ghost fm = found@;
        out.append(&mut found);
        assert(matches_view(out@) =~= matches_view(before) + matches_view(fm));
        f = f + 1;
    }
    assert(fv.take(files.len() as int) =~= fv);
    out
}

/// A row of context: file, line number, a dash, the text.
pub open spec fn context_row(file: Seq<char>, n: nat, text: Seq<char>) -> Seq<char> {
    file + ":"@ + decimal(n) + "- "@ + text
}

/// The rows of the match at `k`: an empty row where the file changes, the
/// context before, the hit itself, the context after.
pub open spec fn match_block(ms: Seq<MatchView>, k: int) -> Seq<Seq<char>> {
    let m = ms[k];
    let sep: Seq<Seq<char>> = if k > 0 && m.file != ms[k - 1].file {
        seq![seq![]]
    } else {
        seq![]
    };
    sep + Seq::new(
        m.context_before.len(),
        |j: int| context_row(m.file, (m.line - m.context_before.len() + j) as nat, m.context_before[j]),
    ) + seq![m.file + ":"@ + decimal(m.line) + ":"@ + m.text] + Seq::new(
        m.context_after.len(),
        |j: int| context_row(m.file, (m.line + 1 + j) as nat, m.context_after[j]),
    )
}

/// The rows of the first `k` matches.
pub open spec fn match_rows(ms: Seq<MatchView>, k: int) -> Seq<Seq<char>>
    decreases k,
{
    if k <= 0 {
        seq![]
    } else {
        match_rows(ms, k - 1) + match_block(ms, k - 1)
    }
}

/// The grep-style listing of the matches, with a closing count of matches
/// and of distinct files.
pub open spec fn matches_text(ms: Seq<MatchView>) -> Seq<char> {
    if ms.len() == 0 {
        "No matches found."@
    } else {
        join(
            match_rows(ms, ms.len() as int) + seq![
                "\n"@ + decimal(ms.len()) + " matches across "@ + decimal(
                    dedup(ms.map_values(|m: MatchView| m.file)).len(),
                ) + " files"@,
            ],
            "\n"@,
        )
    }
}

fn row_with_number(file: &str, n: u128, mark: &str, text: &str) -> (r: String)
    ensures
        r@ == file@ + ":"@ + decimal(n as nat) + mark@ + text@,
{
    let mut s = String::new();
    append(&mut s, file);
    append(&mut s, ":");
    append_decimal(&mut s, n);
    append(&mut s, mark);
    append(&mut s, text);
    s
}

fn push_row(v: &mut Vec<String>, s: String)
    ensures
        strs_view(final(v)@) == strs_view(old(v)@).push(s@),
{
    let ghost before = v@;
    v.push(s);
    assert(strs_view(v@) =~= strs_view(before).push(s@));
}

/// Renders matches grep-style: `file:line:text` for a hit, `file:line- text`
/// for context, an empty row between files, and a closing count.
pub fn format_matches(matches: &[SearchMatch]) -> (r: String)
    requires
        forall|k: int|
            0 <= k < matches@.len() ==> (#[trigger] matches@[k]).context_before@.len()
                <= matches@[k].line,
    ensures
        r@ == matches_text(matches_view(matches@)),
{
    let ghost ms = matches_view(matches@);
    if matches.len() == 0 {
        return String::from_str("No matches found.");
    }
    let mut rows: Vec<String> = Vec::new();
    let mut files: Vec<String> = Vec::new();
    let mut k: usize = 0;
    assert(strs_view(rows@) =~= Seq::<Seq<char>>::empty());
    assert(strs_view(files@) =~= Seq::<Seq<char>>::empty());
    while k < matches.len()
        invariant
            k <= matches.len(),
            ms == matches_view(matches@),
            forall|q: int|
                0 <= q < matches@.len() ==> (#[trigger] matches@[q]).context_before@.len()
                    <= matches@[q].line,
            strs_view(rows@) == match_rows(ms, k as int),
            strs_view(files@) == dedup(ms.take(k as int).map_values(|m: MatchView| m.file)),
        decreases matches.len() - k,
    {
        let m = &matches[k];
        assert(ms[k as int] == m@);
        let ghost start = strs_view(rows@);
        if k > 0 && !same_text(m.file.as_str(), matches[k - 1].file.as_str()) {
            assert(ms[k - 1] == matches@[k - 1]@);
            push_row(&mut rows, String::new());
        } else {
            proof {
                if k > 0 {
                    assert(ms[k - 1] == matches@[k - 1]@);
                }
            }
        }
        let ghost sep_part = strs_view(rows@);
        let nb = m.context_before.len();
        let mut j: usize = 0;
        while j < nb
            invariant
                j <= nb,
                nb == m.context_before@.len(),
                nb <= m.line,
                strs_view(rows@) == sep_part + Seq::new(
                    j as nat,
                    |q: int| context_row(m.file@, (m.line - nb + q) as nat, m.context_before@[q]@),
                ),
            decreases nb - j,
        {
            let row = row_with_number(
                m.file.as_str(),
                (m.line - nb + j) as u128,
                "- ",
                m.context_before[j].as_str(),
            );
            push_row(&mut rows, row);
            assert(strs_view(rows@) =~= sep_part + Seq::new(
                (j + 1) as nat,
                |q: int| context_row(m.file@, (m.line - nb + q) as nat, m.context_before@[q]@),
            ));
            j = j + 1;
        }
        let ghost before_part = strs_view(rows@);
        push_row(&mut rows, row_with_number(m.file.as_str(), m.line as u128, ":", m.text.as_str()));
        let ghost main_part = strs_view(rows@);
        let na = m.context_after.len();
        let mut j: usize = 0;
        while j < na
            invariant
                j <= na,
                na == m.context_after@.len(),
                strs_view(rows@) == main_part + Seq::new(
                    j as nat,
                    |q: int| context_row(m.file@, (m.line + 1 + q) as nat, m.context_after@[q]@),
                ),
            decreases na - j,
        {
            let row = row_with_number(
                m.file.as_str(),
                (m.line as u128) + 1 + (j as u128),
                "- ",
                m.context_after[j].as_str(),
            );
            push_row(&mut rows, row);
            assert(strs_view(rows@) =~= main_part + Seq::new(
                (j + 1) as nat,
                |q: int| context_row(m.file@, (m.line + 1 + q) as nat, m.context_after@[q]@),
            ));
            j = j + 1;
        }
        proof {
            let mv = ms[k as int];
            assert(mv.context_before =~= strs_view(m.context_before@));
            assert(Seq::new(
                nb as nat,
                |q: int| context_row(m.file@, (m.line - nb + q) as nat, m.context_before@[q]@),
            ) =~= Seq::new(
                mv.context_before.len(),
                |q: int| context_row(mv.file, (mv.line - mv.context_before.len() + q) as nat, mv.context_before[q]),
            ));
            assert(Seq::new(
                na as nat,
                |q: int| context_row(m.file@, (m.line + 1 + q) as nat, m.context_after@[q]@),
            ) =~= Seq::new(
                mv.context_after.len(),
                |q: int| context_row(mv.file, (mv.line + 1 + q) as nat, mv.context_after[q]),
            ));
            assert(strs_view(rows@) =~= start + match_block(ms, k as int));
        }
        let ghost fbefore = files@;
        if !crate::classify::contains_str(&files, &m.file) {
            files.push(m.file.clone());
        }
        proof {
            let fs = ms.take(k + 1).map_values(|m: MatchView| m.file);
            assert(fs.drop_last() =~= ms.take(k as int).map_values(|m: MatchView| m.file));
            assert(fs.last() == m.file@);
            assert(strs_view(files@) =~= dedup(fs));
        }
        k = k + 1;
    }
    assert(ms.take(matches.len() as int) =~= ms);
    let mut summary = String::new();
    append(&mut summary, "\n");
    append_decimal(&mut summary, matches.len() as u128);
    append(&mut summary, " matches across ");
    append_decimal(&mut summary, files.len() as u128);
    append(&mut summary, " files");
    assert(strs_view(files@).len() == files@.len());
    let ghost srow = summary@;
    push_row(&mut rows, summary);
    assert(rows@.map_values(|p: String| p@) =~= strs_view(rows@));
    assert(strs_view(rows@) =~= match_rows(ms, ms.len() as int) + seq![srow]);
    join_strings(&rows, "\n")
}

/// `s` without the opening parentheses at its end.
pub open spec fn strip_open_parens(s: Seq<char>) -> Seq<char>
    decreases s.len(),
{
    if s.len() > 0 && s.last() == '(' {
        strip_open_parens(s.drop_last())
    } else {
        s
    }
}

/// The plain-text keyword of a structural pattern: what stands before its
/// first meta-variable, trimmed and without trailing `(`; failing that, its
/// first word; failing that, the whole pattern.
pub open spec fn search_keyword(pattern: Seq<char>) -> Seq<char> {
    let k = strip_open_parens(trim(pattern.take(first_index(pattern, '$') as int)));
    if k.len() > 0 {
        k
    } else if words(pattern).len() > 0 {
        words(pattern)[0]
    } else {
        pattern
    }
}

/// Picks a keyword of a structural pattern for a plain-text pre-filter.
pub fn extract_search_keyword(pattern: &str) -> (r: String)
    ensures
        r@ == search_keyword(pattern@),
{
    let cs = chars_of(pattern);
    let mut end: usize = 0;
    assert(cs@.skip(0) =~= cs@);
    while end < cs.len() && cs[end] != '$'
        invariant
            end <= cs.len(),
            cs@ == pattern@,
            first_index(pattern@, '$') == end + first_index(cs@.skip(end as int), '$'),
        decreases cs.len() - end,
    {
        assert(cs@.skip(end as int).drop_first() =~= cs@.skip(end + 1));
        end = end + 1;
    }
    let head = string_of(&cs, 0, end);
    assert(cs@.subrange(0, end as int) =~= pattern@.take(first_index(pattern@, '$') as int));
    let hc = chars_of(head.as_str());
    let (i, j) = crate::classify::trim_range(&hc, 0, hc.len());
    assert(hc@.subrange(0, hc.len() as int) =~= hc@);
    let mut e = j;
    while e > i && hc[e - 1] == '('
        invariant
            i <= e <= j <= hc.len(),
            strip_open_parens(hc@.subrange(i as int, j as int)) == strip_open_parens(
                hc@.subrange(i as int, e as int),
            ),
        decreases e - i,
    {
        assert(hc@.subrange(i as int, e as int).drop_last() =~= hc@.subrange(i as int, e - 1));
        e = e - 1;
    }
    if e > i {
        return string_of(&hc, i, e);
    }
    let ws = crate::classify::split_words(pattern);
    if ws.len() > 0 {
        assert(strs_view(ws@)[0] == ws@[0]@);
        ws[0].clone()
    } else {
        String::from_str(pattern)
    }
}

} // verus!
