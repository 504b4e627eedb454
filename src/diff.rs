//! Unified-diff hunk parsing and the set of lines open to inline comments.
use vstd::prelude::*;
use crate::text::{
    chars_of, has_at, lines_of, lit_at, next_line, number_at, parse_number_at, string_of,
};

verus! {

/// What a diff line does to the file.
#[derive(Clone, Copy, Debug, PartialEq, Eq, Structural)]
pub enum LineKind {
    Context,
    Add,
    Delete,
}

/// One line of a hunk, with its numbers in the old and the new file.
#[derive(Debug, Clone)]
pub struct DiffLine {
    pub kind: LineKind,
    pub content: String,
    pub old_line: Option<u64>,
    pub new_line: Option<u64>,
}

/// One hunk of a unified diff: its header, its ranges, and its lines.
#[derive(Debug, Clone)]
pub struct DiffHunk {
    pub header: String,
    pub old_start: u64,
    pub old_count: u64,
    pub new_start: u64,
    pub new_count: u64,
    pub lines: Vec<DiffLine>,
}

pub struct LineView {
    pub kind: LineKind,
    pub content: Seq<char>,
    pub old_line: Option<u64>,
    pub new_line: Option<u64>,
}

pub struct HunkView {
    pub header: Seq<char>,
    pub old_start: u64,
    pub old_count: u64,
    pub new_start: u64,
    pub new_count: u64,
    pub lines: Seq<LineView>,
}

impl View for DiffLine {
    type V = LineView;

    open spec fn view(&self) -> LineView {
        LineView {
            kind: self.kind,
            content: self.content@,
            old_line: self.old_line,
            new_line: self.new_line,
        }
    }
}

impl View for DiffHunk {
    type V = HunkView;

    open spec fn view(&self) -> HunkView {
        HunkView {
            header: self.header@,
            old_start: self.old_start,
            old_count: self.old_count,
            new_start: self.new_start,
            new_count: self.new_count,
            lines: self.lines@.map_values(|l: DiffLine| l@),
        }
    }
}

/// The views of a sequence of hunks.
pub open spec fn hunks_view(hs: Seq<DiffHunk>) -> Seq<HunkView> {
    hs.map_values(|h: DiffHunk| h@)
}

/// The optional ",count" after a start number; a missing count means 1.
pub open spec fn count_at(s: Seq<char>, i: int) -> Option<(u64, int)> {
    if 0 <= i < s.len() && s[i] == ',' {
        number_at(s, i + 1)
    } else {
        Some((1u64, i))
    }
}

/// The numbers of a hunk header `@@ -O[,OC] +N[,NC] @@...`, as
/// `(O, OC, N, NC)`; absent when the line is not such a header.
pub open spec fn parse_header(s: Seq<char>) -> Option<(u64, u64, u64, u64)> {
    if !lit_at(s, 0, "@@ -"@) {
        None
    } else {
        match number_at(s, 4) {
            None => None,
            Some((o, i1)) => match count_at(s, i1) {
                None => None,
                Some((oc, i2)) => if !lit_at(s, i2, " +"@) {
                    None
                } else {
                    match number_at(s, i2 + 2) {
                        None => None,
                        Some((n, i3)) => match count_at(s, i3) {
                            None => None,
                            Some((nc, i4)) => if !lit_at(s, i4, " @@"@) {
                                None
                            } else {
                                Some((o, oc, n, nc))
                            },
                        },
                    }
                },
            },
        }
    }
}

/// Lines that carry diff metadata and are never recorded: the no-newline
/// marker, file headers, index lines, mode, rename and similarity notes.
pub open spec fn is_metadata(s: Seq<char>) -> bool {
    ||| lit_at(s, 0, "\\"@)
    ||| lit_at(s, 0, "---"@)
    ||| lit_at(s, 0, "+++"@)
    ||| lit_at(s, 0, "index "@)
    ||| lit_at(s, 0, "diff --git "@)
    ||| lit_at(s, 0, "old mode "@)
    ||| lit_at(s, 0, "new mode "@)
    ||| lit_at(s, 0, "new file mode "@)
    ||| lit_at(s, 0, "deleted file mode "@)
    ||| lit_at(s, 0, "similarity index "@)
    ||| lit_at(s, 0, "rename from "@)
    ||| lit_at(s, 0, "rename to "@)
}

/// The state of the parser between two lines: the finished hunks, the open
/// hunk if any, and the next old and new line numbers.
pub struct ParseState {
    pub done: Seq<HunkView>,
    pub cur: Option<HunkView>,
    pub old_next: u64,
    pub new_next: u64,
}

/// The finished hunks, followed by the open one if there is one.
pub open spec fn closed_hunks(st: ParseState) -> Seq<HunkView> {
    match st.cur {
        Some(h) => st.done.push(h),
        None => st.done,
    }
}

/// The state after the open hunk has been closed.
pub open spec fn close(st: ParseState) -> ParseState {
    ParseState { done: closed_hunks(st), cur: None, ..st }
}

/// The open hunk with one more line.
pub open spec fn with_line(h: HunkView, l: LineView) -> HunkView {
    HunkView { lines: h.lines.push(l), ..h }
}

/// The content of a context line: the line without its leading space.
pub open spec fn context_content(s: Seq<char>) -> Seq<char> {
    if s.len() > 0 && s[0] == ' ' {
        s.skip(1)
    } else {
        s
    }
}

/// One step of the parser on one line of the patch. A hunk is closed where
/// one of its counters would pass the largest 64-bit value.
pub open spec fn step(st: ParseState, s: Seq<char>) -> ParseState {
    if lit_at(s, 0, "@@"@) {
        match parse_header(s) {
            Some((o, oc, n, nc)) => ParseState {
                done: closed_hunks(st),
                cur: Some(
                    HunkView {
                        header: s,
                        old_start: o,
                        old_count: oc,
                        new_start: n,
                        new_count: nc,
                        lines: seq![],
                    },
                ),
                old_next: o,
                new_next: n,
            },
            None => close(st),
        }
    } else if st.cur is None || is_metadata(s) {
        st
    } else {
        let h = st.cur->Some_0;
        if s.len() > 0 && s[0] == '+' {
            if st.new_next == u64::MAX {
                close(st)
            } else {
                ParseState {
                    cur: Some(with_line(h, LineView {
                        kind: LineKind::Add,
                        content: s.skip(1),
                        old_line: None,
                        new_line: Some(st.new_next),
                    })),
                    new_next: (st.new_next + 1) as u64,
                    ..st
                }
            }
        } else if s.len() > 0 && s[0] == '-' {
            if st.old_next == u64::MAX {
                close(st)
            } else {
                ParseState {
                    cur: Some(with_line(h, LineView {
                        kind: LineKind::Delete,
                        content: s.skip(1),
                        old_line: Some(st.old_next),
                        new_line: None,
                    })),
                    old_next: (st.old_next + 1) as u64,
                    ..st
                }
            }
        } else {
            if st.old_next == u64::MAX || st.new_next == u64::MAX {
                close(st)
            } else {
                ParseState {
                    cur: Some(with_line(h, LineView {
                        kind: LineKind::Context,
                        content: context_content(s),
                        old_line: Some(st.old_next),
                        new_line: Some(st.new_next),
                    })),
                    old_next: (st.old_next + 1) as u64,
                    new_next: (st.new_next + 1) as u64,
                    ..st
                }
            }
        }
    }
}

/// The parser's state before any line.
pub open spec fn initial_state() -> ParseState {
    ParseState { done: seq![], cur: None, old_next: 0, new_next: 0 }
}

/// The parser's state after the lines `ls`, in order.
pub open spec fn run(ls: Seq<Seq<char>>) -> ParseState
    decreases ls.len(),
{
    if ls.len() == 0 {
        initial_state()
    } else {
        step(run(ls.drop_last()), ls.last())
    }
}

/// The hunks of a patch text, in the order in which they stand in it.
pub open spec fn parse_model(patch: Seq<char>) -> Seq<HunkView> {
    closed_hunks(run(lines_of(patch)))
}


fn parse_count_at(s: &Vec<char>, i: usize) -> (r: Option<(u64, usize)>)
    ensures
        match count_at(s@, i as int) {
            None => r is None,
            Some((v, e)) => match r {
                Some((rv, re)) => rv == v && re as int == e,
                None => false,
            },
        },
{
    if i < s.len() && s[i] == ',' {
        parse_number_at(s, i + 1)
    } else {
        Some((1, i))
    }
}

/// Reads the numbers of a hunk header line.
pub fn parse_hunk_header(s: &Vec<char>) -> (r: Option<(u64, u64, u64, u64)>)
    ensures
        r == parse_header(s@),
{
    if !has_at(s, 0, "@@ -") {
        return None;
    }
    let (o, i1) = match parse_number_at(s, 4) {
        None => return None,
        Some(x) => x,
    };
    let (oc, i2) = match parse_count_at(s, i1) {
        None => return None,
        Some(x) => x,
    };
    if !has_at(s, i2, " +") {
        return None;
    }
    let len = s.len();
    proof {
        reveal_strlit(" +");
        assert(i2 + 2 <= len);
    }
    let (n, i3) = match parse_number_at(s, i2 + 2) {
        None => return None,
        Some(x) => x,
    };
    let (nc, i4) = match parse_count_at(s, i3) {
        None => return None,
        Some(x) => x,
    };
    if !has_at(s, i4, " @@") {
        return None;
    }
    Some((o, oc, n, nc))
}

fn line_is_metadata(s: &Vec<char>) -> (r: bool)
    ensures
        r == is_metadata(s@),
{
    has_at(s, 0, "\\") || has_at(s, 0, "---") || has_at(s, 0, "+++") || has_at(s, 0, "index ")
        || has_at(s, 0, "diff --git ") || has_at(s, 0, "old mode ") || has_at(s, 0, "new mode ")
        || has_at(s, 0, "new file mode ") || has_at(s, 0, "deleted file mode ")
        || has_at(s, 0, "similarity index ") || has_at(s, 0, "rename from ")
        || has_at(s, 0, "rename to ")
}

/// Parses the unified diff of one file into its hunks. Lines before the first
/// header, metadata lines and the lines after a malformed header are skipped;
/// parsing never fails, and an empty patch has no hunks.
pub fn parse_patch(patch: &str) -> (r: Vec<DiffHunk>)
    ensures
        hunks_view(r@) == parse_model(patch@),
{
    let s = chars_of(patch);
    let mut done: Vec<DiffHunk> = Vec::new();
    let mut open = false;
    let mut header = String::new();
    let mut os: u64 = 0;
    let mut oc: u64 = 0;
    let mut ns: u64 = 0;
    let mut nc: u64 = 0;
    let mut lines: Vec<DiffLine> = Vec::new();
    let mut old_next: u64 = 0;
    let mut new_next: u64 = 0;
    let mut pos: usize = 0;
    let ghost mut seen: Seq<Seq<char>> = seq![];
    proof {
        assert(s@.skip(0) =~= s@);
        assert(hunks_view(done@) =~= Seq::<HunkView>::empty());
    }
    while pos < s.len()
        invariant
            s@ == patch@,
            pos <= s.len(),
            seen + lines_of(s@.skip(pos as int)) == lines_of(patch@),
            run(seen) == (ParseState {
                done: hunks_view(done@),
                cur: if open {
                    Some(
                        HunkView {
                            header: header@,
                            old_start: os,
                            old_count: oc,
                            new_start: ns,
                            new_count: nc,
                            lines: lines@.map_values(|l: DiffLine| l@),
                        },
                    )
                } else {
                    None
                },
                old_next,
                new_next,
            }),
        decreases s.len() - pos,
    {
        let (line, next) = next_line(&s, pos);
        let ghost st = run(seen);
        proof {
            assert((seen.push(line@)).drop_last() =~= seen);
            assert(seen.push(line@) + lines_of(s@.skip(next as int)) =~= seen + (seq![line@]
                + lines_of(s@.skip(next as int))));
            seen = seen.push(line@);
        }
        if has_at(&line, 0, "@@") {
            if open {
                let h = DiffHunk {
                    header: header,
                    old_start: os,
                    old_count: oc,
                    new_start: ns,
                    new_count: nc,
                    lines: lines,
                };
                done.push(h);
                proof {
                    assert(hunks_view(done@) =~= closed_hunks(st));
                }
                header = String::new();
                lines = Vec::new();
            }
            match parse_hunk_header(&line) {
                Some((o, c1, n, c2)) => {
                    open = true;
                    header = string_of(&line, 0, line.len());
                    proof {
                        assert(line@.subrange(0, line@.len() as int) =~= line@);
                    }
                    os = o;
                    oc = c1;
                    ns = n;
                    nc = c2;
                    lines = Vec::new();
                    proof {
                        assert(lines@.map_values(|l: DiffLine| l@) =~= Seq::<LineView>::empty());
                    }
                    old_next = o;
                    new_next = n;
                },
                None => {
                    open = false;
                },
            }
        } else if !open || line_is_metadata(&line) {
        } else if line.len() > 0 && line[0] == '+' {
            if new_next == u64::MAX {
                done.push(DiffHunk {
                    header: header,
                    old_start: os,
                    old_count: oc,
                    new_start: ns,
                    new_count: nc,
                    lines: lines,
                });
                proof {
                    assert(hunks_view(done@) =~= closed_hunks(st));
                }
                header = String::new();
                lines = Vec::new();
                open = false;
            } else {
                let l = DiffLine {
                    kind: LineKind::Add,
                    content: string_of(&line, 1, line.len()),
                    old_line: None,
                    new_line: Some(new_next),
                };
                let ghost before = lines@;
                lines.push(l);
                proof {
                    assert(line@.subrange(1, line@.len() as int) =~= line@.skip(1));
                    assert(lines@.map_values(|l: DiffLine| l@) =~= before.map_values(
                        |l: DiffLine| l@,
                    ).push(l@));
                }
                new_next = new_next + 1;
            }
        } else if line.len() > 0 && line[0] == '-' {
            if old_next == u64::MAX {
                done.push(DiffHunk {
                    header: header,
                    old_start: os,
                    old_count: oc,
                    new_start: ns,
                    new_count: nc,
                    lines: lines,
                });
                proof {
                    assert(hunks_view(done@) =~= closed_hunks(st));
                }
                header = String::new();
                lines = Vec::new();
                open = false;
            } else {
                let l = DiffLine {
                    kind: LineKind::Delete,
                    content: string_of(&line, 1, line.len()),
                    old_line: Some(old_next),
                    new_line: None,
                };
                let ghost before = lines@;
                lines.push(l);
                proof {
                    assert(line@.subrange(1, line@.len() as int) =~= line@.skip(1));
                    assert(lines@.map_values(|l: DiffLine| l@) =~= before.map_values(
                        |l: DiffLine| l@,
                    ).push(l@));
                }
                old_next = old_next + 1;
            }
        } else {
            if old_next == u64::MAX || new_next == u64::MAX {
                done.push(DiffHunk {
                    header: header,
                    old_start: os,
                    old_count: oc,
                    new_start: ns,
                    new_count: nc,
                    lines: lines,
                });
                proof {
                    assert(hunks_view(done@) =~= closed_hunks(st));
                }
                header = String::new();
                lines = Vec::new();
                open = false;
            } else {
                let from: usize = if line.len() > 0 && line[0] == ' ' { 1 } else { 0 };
                let l = DiffLine {
                    kind: LineKind::Context,
                    content: string_of(&line, from, line.len()),
                    old_line: Some(old_next),
                    new_line: Some(new_next),
                };
                let ghost before = lines@;
                lines.push(l);
                proof {
                    assert(line@.subrange(from as int, line@.len() as int) =~= context_content(
                        line@,
                    ));
                    assert(lines@.map_values(|l: DiffLine| l@) =~= before.map_values(
                        |l: DiffLine| l@,
                    ).push(l@));
                }
                old_next = old_next + 1;
                new_next = new_next + 1;
            }
        }
        pos = next;
    }
    proof {
        assert(s@.skip(pos as int) =~= Seq::<char>::empty());
        assert(seen =~= lines_of(patch@));
    }
    let ghost st = run(seen);
    if open {
        done.push(DiffHunk {
            header: header,
            old_start: os,
            old_count: oc,
            new_start: ns,
            new_count: nc,
            lines: lines,
        });
        proof {
            assert(hunks_view(done@) =~= closed_hunks(st));
        }
    }
    done
}


/// Whether some Add or Context line of `hs` carries new-file line `n`.
pub open spec fn carries_new_line(hs: Seq<HunkView>, n: u64) -> bool {
    exists|i: int, j: int|
        0 <= i < hs.len() && 0 <= j < hs[i].lines.len() && hs[i].lines[j].kind != LineKind::Delete
            && hs[i].lines[j].new_line == Some(n)
}

/// Whether `v` holds `x`.
pub fn contains_u64(v: &Vec<u64>, x: u64) -> (r: bool)
    ensures
        r == v@.contains(x),
{
    let mut k: usize = 0;
    while k < v.len()
        invariant
            k <= v.len(),
            forall|j: int| 0 <= j < k ==> v@[j] != x,
        decreases v.len() - k,
    {
        if v[k] == x {
            return true;
        }
        k = k + 1;
    }
    false
}

/// The new-file line numbers on which an inline comment may be placed: those
/// of every Add and Context line, each once. Delete lines give none.
pub fn commentable_lines(hunks: &[DiffHunk]) -> (r: Vec<u64>)
    ensures
        r@.no_duplicates(),
        forall|n: u64| r@.contains(n) <==> carries_new_line(hunks_view(hunks@), n),
{
    let ghost hs = hunks_view(hunks@);
    let mut r: Vec<u64> = Vec::new();
    let mut i: usize = 0;
    while i < hunks.len()
        invariant
            i <= hunks.len(),
            hs == hunks_view(hunks@),
            r@.no_duplicates(),
            forall|n: u64|
                r@.contains(n) <==> exists|a: int, b: int|
                    0 <= a < i && 0 <= b < hs[a].lines.len() && hs[a].lines[b].kind
                        != LineKind::Delete && hs[a].lines[b].new_line == Some(n),
        decreases hunks.len() - i,
    {
        let h = &hunks[i];
        let mut j: usize = 0;
        while j < h.lines.len()
            invariant
                i < hunks.len(),
                j <= h.lines.len(),
                *h == hunks@[i as int],
                hs == hunks_view(hunks@),
                r@.no_duplicates(),
                forall|n: u64|
                    r@.contains(n) <==> exists|a: int, b: int|
                        (0 <= a < i && 0 <= b < hs[a].lines.len() || a == i && 0 <= b < j)
                            && hs[a].lines[b].kind != LineKind::Delete && hs[a].lines[b].new_line
                            == Some(n),
            decreases h.lines.len() - j,
        {
            let l = &h.lines[j];
            assert(hs[i as int].lines[j as int] == l@);
            let ghost before = r@;
            if l.kind != LineKind::Delete {
                if let Some(n) = l.new_line {
                    if !contains_u64(&r, n) {
                        r.push(n);
                        assert forall|m: u64| r@.contains(m) implies before.contains(m) || m == n by {
                            let q = choose|q: int| 0 <= q < r@.len() && r@[q] == m;
                            if q < before.len() {
                                assert(before[q] == m);
                            }
                        }
                        assert(r@[before.len() as int] == n);
                    }
                }
            }
            assert forall|m: u64|
                r@.contains(m) <==> exists|a: int, b: int|
                    (0 <= a < i && 0 <= b < hs[a].lines.len() || a == i && 0 <= b < j + 1)
                        && hs[a].lines[b].kind != LineKind::Delete && hs[a].lines[b].new_line
                        == Some(m) by {
                if r@.contains(m) {
                    if !before.contains(m) {
                        assert(hs[i as int].lines[j as int].new_line == Some(m));
                    }
                }
                if exists|a: int, b: int|
                    (0 <= a < i && 0 <= b < hs[a].lines.len() || a == i && 0 <= b < j + 1)
                        && hs[a].lines[b].kind != LineKind::Delete && hs[a].lines[b].new_line
                        == Some(m) {
                    let (a, b) = choose|a: int, b: int|
                        (0 <= a < i && 0 <= b < hs[a].lines.len() || a == i && 0 <= b < j + 1)
                            && hs[a].lines[b].kind != LineKind::Delete && hs[a].lines[b].new_line
                            == Some(m);
                    if a == i && b == j {
                        assert(r@.contains(m));
                    } else {
                        assert(before.contains(m));
                        let q = choose|q: int| 0 <= q < before.len() && before[q] == m;
                        assert(r@[q] == m);
                    }
                }
            }
            j = j + 1;
        }
        i = i + 1;
    }
    r
}

/// The number of lines of `ls` that stand in the new file.
pub open spec fn new_side_count(ls: Seq<LineView>) -> nat
    decreases ls.len(),
{
    if ls.len() == 0 {
        0
    } else {
        new_side_count(ls.drop_last()) + if ls.last().kind != LineKind::Delete {
            1nat
        } else {
            0nat
        }
    }
}

/// The number of lines of `ls` that stand in the old file.
pub open spec fn old_side_count(ls: Seq<LineView>) -> nat
    decreases ls.len(),
{
    if ls.len() == 0 {
        0
    } else {
        old_side_count(ls.drop_last()) + if ls.last().kind != LineKind::Add {
            1nat
        } else {
            0nat
        }
    }
}

/// Each line of `h` carries the numbers of its kind, counted from the
/// hunk's starts: the line numbers run `N, N+1, ...` and `O, O+1, ...`.
pub open spec fn numbered(h: HunkView) -> bool {
    forall|j: int|
        0 <= j < h.lines.len() ==> {
            &&& (h.lines[j].kind != LineKind::Delete <==> h.lines[j].new_line is Some)
            &&& (h.lines[j].kind != LineKind::Add <==> h.lines[j].old_line is Some)
            &&& (h.lines[j].new_line is Some ==> h.lines[j].new_line->Some_0 == h.new_start
                + new_side_count(h.lines.take(j)))
            &&& (h.lines[j].old_line is Some ==> h.lines[j].old_line->Some_0 == h.old_start
                + old_side_count(h.lines.take(j)))
        }
}

/// What holds of every parser state: finished hunks are numbered, and the
/// open one is numbered with the counters just past its last line.
pub open spec fn state_numbered(st: ParseState) -> bool {
    &&& forall|i: int| 0 <= i < st.done.len() ==> numbered(#[trigger] st.done[i])
    &&& match st.cur {
        Some(h) => numbered(h) && st.new_next == h.new_start + new_side_count(h.lines)
            && st.old_next == h.old_start + old_side_count(h.lines),
        None => true,
    }
}

proof fn lemma_with_line_numbered(h: HunkView, l: LineView)
    requires
        numbered(h),
        l.kind != LineKind::Delete <==> l.new_line is Some,
        l.kind != LineKind::Add <==> l.old_line is Some,
        l.new_line is Some ==> l.new_line->Some_0 == h.new_start + new_side_count(h.lines),
        l.old_line is Some ==> l.old_line->Some_0 == h.old_start + old_side_count(h.lines),
    ensures
        numbered(with_line(h, l)),
{
    let h2 = with_line(h, l);
    assert forall|j: int| 0 <= j < h2.lines.len() implies #[trigger] h2.lines.take(j) == h.lines.take(
        j,
    ) || j == h.lines.len() by {
        if j < h.lines.len() {
            assert(h2.lines.take(j) =~= h.lines.take(j));
        }
    }
    assert(h2.lines.take(h.lines.len() as int) =~= h.lines);
}

proof fn lemma_run_numbered(ls: Seq<Seq<char>>)
    ensures
        state_numbered(run(ls)),
    decreases ls.len(),
{
    if ls.len() > 0 {
        lemma_run_numbered(ls.drop_last());
        let st = run(ls.drop_last());
        let s = ls.last();
        assert(closed_hunks(st).len() == st.done.len() + if st.cur is Some { 1int } else { 0int });
        assert forall|i: int| 0 <= i < closed_hunks(st).len() implies numbered(
            #[trigger] closed_hunks(st)[i],
        ) by {
            if i < st.done.len() {
                assert(closed_hunks(st)[i] == st.done[i]);
            }
        }
        if !lit_at(s, 0, "@@"@) && st.cur is Some && !is_metadata(s) {
            let h = st.cur->Some_0;
            assert(h.lines.push(arbitrary()).take(h.lines.len() as int) =~= h.lines);
            if s.len() > 0 && s[0] == '+' {
                if st.new_next != u64::MAX {
                    let l = LineView {
                        kind: LineKind::Add,
                        content: s.skip(1),
                        old_line: None,
                        new_line: Some(st.new_next),
                    };
                    lemma_with_line_numbered(h, l);
                    assert(with_line(h, l).lines.drop_last() =~= h.lines);
                }
            } else if s.len() > 0 && s[0] == '-' {
                if st.old_next != u64::MAX {
                    let l = LineView {
                        kind: LineKind::Delete,
                        content: s.skip(1),
                        old_line: Some(st.old_next),
                        new_line: None,
                    };
                    lemma_with_line_numbered(h, l);
                    assert(with_line(h, l).lines.drop_last() =~= h.lines);
                }
            } else if st.old_next != u64::MAX && st.new_next != u64::MAX {
                let l = LineView {
                    kind: LineKind::Context,
                    content: context_content(s),
                    old_line: Some(st.old_next),
                    new_line: Some(st.new_next),
                };
                lemma_with_line_numbered(h, l);
                assert(with_line(h, l).lines.drop_last() =~= h.lines);
            }
        } else if lit_at(s, 0, "@@"@) {
            match parse_header(s) {
                Some((o, oc, n, nc)) => {
                    let h = HunkView {
                        header: s,
                        old_start: o,
                        old_count: oc,
                        new_start: n,
                        new_count: nc,
                        lines: seq![],
                    };
                    assert(numbered(h));
                },
                None => {},
            }
        }
    }
}

proof fn lemma_new_side_count_grows(ls: Seq<LineView>, j: int, k: int)
    requires
        0 <= j < k <= ls.len(),
        ls[j].kind != LineKind::Delete,
    ensures
        new_side_count(ls.take(k)) >= new_side_count(ls.take(j)) + 1,
    decreases k - j,
{
    assert(ls.take(k).drop_last() =~= ls.take(k - 1));
    if k - 1 > j {
        lemma_new_side_count_grows(ls, j, k - 1);
    } else {
        assert(ls.take(k).last() == ls[j]);
    }
}

proof fn lemma_old_side_count_grows(ls: Seq<LineView>, j: int, k: int)
    requires
        0 <= j < k <= ls.len(),
        ls[j].kind != LineKind::Add,
    ensures
        old_side_count(ls.take(k)) >= old_side_count(ls.take(j)) + 1,
    decreases k - j,
{
    assert(ls.take(k).drop_last() =~= ls.take(k - 1));
    if k - 1 > j {
        lemma_old_side_count_grows(ls, j, k - 1);
    } else {
        assert(ls.take(k).last() == ls[j]);
    }
}

/// In every hunk of a parsed patch, the new-file numbers of the Add and
/// Context lines run up by one from the header's new start, so they strictly
/// increase; the old-file numbers of the Delete and Context lines do the same
/// from the old start. Add lines carry no old number, Delete lines no new one.
pub proof fn lemma_line_numbers_ascend(patch: Seq<char>)
    ensures
        forall|i: int|
            0 <= i < parse_model(patch).len() ==> numbered(#[trigger] parse_model(patch)[i]),
        forall|i: int, j: int, k: int|
            #![trigger parse_model(patch)[i].lines[j], parse_model(patch)[i].lines[k]]
            0 <= i < parse_model(patch).len() && 0 <= j < k < parse_model(patch)[i].lines.len()
                && parse_model(patch)[i].lines[j].new_line is Some
                && parse_model(patch)[i].lines[k].new_line is Some
                ==> parse_model(patch)[i].lines[j].new_line->Some_0
                < parse_model(patch)[i].lines[k].new_line->Some_0,
        forall|i: int, j: int, k: int|
            #![trigger parse_model(patch)[i].lines[j], parse_model(patch)[i].lines[k]]
            0 <= i < parse_model(patch).len() && 0 <= j < k < parse_model(patch)[i].lines.len()
                && parse_model(patch)[i].lines[j].old_line is Some
                && parse_model(patch)[i].lines[k].old_line is Some
                ==> parse_model(patch)[i].lines[j].old_line->Some_0
                < parse_model(patch)[i].lines[k].old_line->Some_0,
{
    let st = run(lines_of(patch));
    lemma_run_numbered(lines_of(patch));
    let hs = parse_model(patch);
    assert forall|i: int| 0 <= i < hs.len() implies numbered(#[trigger] hs[i]) by {
        if i < st.done.len() {
            assert(hs[i] == st.done[i]);
        }
    }
    assert forall|i: int, j: int, k: int|
        0 <= i < hs.len() && 0 <= j < k < hs[i].lines.len() && hs[i].lines[j].new_line is Some
            && hs[i].lines[k].new_line is Some implies hs[i].lines[j].new_line->Some_0
        < hs[i].lines[k].new_line->Some_0 by {
        assert(numbered(hs[i]));
        lemma_new_side_count_grows(hs[i].lines, j, k);
    }
    assert forall|i: int, j: int, k: int|
        0 <= i < hs.len() && 0 <= j < k < hs[i].lines.len() && hs[i].lines[j].old_line is Some
            && hs[i].lines[k].old_line is Some implies hs[i].lines[j].old_line->Some_0
        < hs[i].lines[k].old_line->Some_0 by {
        assert(numbered(hs[i]));
        lemma_old_side_count_grows(hs[i].lines, j, k);
    }
}

/// No commentable line of a parsed patch comes from a Delete line: Delete
/// lines carry no new-file number, so every number in the commentable set
/// (see `commentable_lines`) is that of an Add or Context line.
pub proof fn lemma_commentable_excludes_deletes(patch: Seq<char>)
    ensures
        forall|i: int, j: int|
            0 <= i < parse_model(patch).len() && 0 <= j < parse_model(patch)[i].lines.len()
                && parse_model(patch)[i].lines[j].kind == LineKind::Delete
                ==> parse_model(patch)[i].lines[j].new_line is None,
{
    lemma_line_numbers_ascend(patch);
    let hs = parse_model(patch);
    assert forall|i: int, j: int|
        0 <= i < hs.len() && 0 <= j < hs[i].lines.len() && hs[i].lines[j].kind == LineKind::Delete
            implies hs[i].lines[j].new_line is None by {
        assert(numbered(hs[i]));
    }
}

/// Parsing depends on the text alone: equal patch texts give equal hunks.
pub proof fn lemma_parse_deterministic(a: Seq<char>, b: Seq<char>)
    requires
        a == b,
    ensures
        parse_model(a) == parse_model(b),
{
}

} // verus!
