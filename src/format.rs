//! Terminal rendering of pull-request metadata, stat tables and diffs.
use vstd::prelude::*;
use crate::diff::{
    hunks_view, lemma_line_numbers_ascend, new_side_count, numbered, parse_model, parse_patch,
    DiffHunk, HunkView, LineKind, LineView,
};
use crate::github::{PrFile, PrFileView, PullRequest};
use crate::text::{
    append, append_decimal, append_pad_left, decimal, decimal_string, join, join_strings,
    pad_left, same_text,
};

verus! {

/// The number shown for a diff line: its new-file line, or 0.
pub open spec fn shown_number(l: LineView) -> nat {
    match l.new_line {
        Some(n) => n as nat,
        None => 0,
    }
}

/// The rendering of one diff line: new-file number, a bar, the sign, the text.
pub open spec fn diff_line_text(l: LineView) -> Seq<char> {
    match l.kind {
        LineKind::Add => pad_left(decimal(shown_number(l)), 4) + " | +"@ + l.content,
        LineKind::Delete => "     | -"@ + l.content,
        LineKind::Context => pad_left(decimal(shown_number(l)), 4) + " |  "@ + l.content,
    }
}

/// The rows of a hunk's rendering: its header, then one row per line.
pub open spec fn hunk_rows(h: HunkView) -> Seq<Seq<char>> {
    seq![h.header] + h.lines.map_values(|l: LineView| diff_line_text(l))
}

/// The rendering of a hunk: its rows, one per text line.
pub open spec fn hunk_text(h: HunkView) -> Seq<char> {
    join(hunk_rows(h), "\n"@)
}

/// In the rendering of every hunk of a parsed patch, the row of an Add or
/// Context line shows, right-aligned in four columns, the hunk's new start
/// plus the number of Add and Context lines before it, so these rows read
/// N, N+1, N+2, ...; a Delete row shows no number.
pub proof fn lemma_rendered_numbers_ascend(patch: Seq<char>)
    ensures
        forall|i: int, j: int|
            #![trigger parse_model(patch)[i].lines[j]]
            0 <= i < parse_model(patch).len() && 0 <= j < parse_model(patch)[i].lines.len() ==> {
                let h = parse_model(patch)[i];
                let l = h.lines[j];
                hunk_rows(h)[j + 1] == if l.kind == LineKind::Delete {
                    "     | -"@ + l.content
                } else {
                    pad_left(decimal((h.new_start + new_side_count(h.lines.take(j))) as nat), 4)
                        + if l.kind == LineKind::Add {
                        " | +"@
                    } else {
                        " |  "@
                    } + l.content
                }
            },
{
    lemma_line_numbers_ascend(patch);
    let pm = parse_model(patch);
    assert forall|i: int, j: int|
        #![trigger pm[i].lines[j]]
        0 <= i < pm.len() && 0 <= j < pm[i].lines.len() implies {
        let h = pm[i];
        let l = h.lines[j];
        hunk_rows(h)[j + 1] == if l.kind == LineKind::Delete {
            "     | -"@ + l.content
        } else {
            pad_left(decimal((h.new_start + new_side_count(h.lines.take(j))) as nat), 4)
                + if l.kind == LineKind::Add {
                " | +"@
            } else {
                " |  "@
            } + l.content
        }
    } by {
        let h = pm[i];
        assert(numbered(h));
        assert(hunk_rows(h)[j + 1] == diff_line_text(h.lines[j]));
    }
}

/// Renders one hunk with new-file line numbers.
pub fn format_hunk(hunk: &DiffHunk) -> (r: String)
    ensures
        r@ == hunk_text(hunk@),
{
    let ghost h = hunk@;
    let mut rows: Vec<String> = Vec::new();
    rows.push(hunk.header.clone());
    let mut k: usize = 0;
    while k < hunk.lines.len()
        invariant
            k <= hunk.lines.len(),
            h == hunk@,
            rows@.map_values(|p: String| p@) == seq![h.header] + h.lines.take(k as int).map_values(
                |l: LineView| diff_line_text(l),
            ),
        decreases hunk.lines.len() - k,
    {
        let line = &hunk.lines[k];
        assert(h.lines[k as int] == line@);
        let mut row = String::new();
        let n: u64 = match line.new_line {
            Some(n) => n,
            None => 0,
        };
        match line.kind {
            LineKind::Add => {
                append_pad_left(&mut row, decimal_string(n).as_str(), 4);
                append(&mut row, " | +");
            },
            LineKind::Delete => {
                append(&mut row, "     | -");
            },
            LineKind::Context => {
                append_pad_left(&mut row, decimal_string(n).as_str(), 4);
                append(&mut row, " |  ");
            },
        }
        append(&mut row, line.content.as_str());
        assert(row@ =~= diff_line_text(line@));
        let ghost before = rows@;
        rows.push(row);
        assert(rows@.map_values(|p: String| p@) =~= before.map_values(|p: String| p@).push(
            diff_line_text(line@),
        ));
        assert(h.lines.take(k + 1).map_values(|l: LineView| diff_line_text(l)) =~= h.lines.take(
            k as int,
        ).map_values(|l: LineView| diff_line_text(l)).push(diff_line_text(h.lines[k as int])));
        k = k + 1;
    }
    assert(h.lines.take(hunk.lines.len() as int) =~= h.lines);
    join_strings(&rows, "\n")
}

/// The rendering of one file's diff: a deleted file by its size, a file
/// without a patch as "(no diff)", otherwise its file headers and hunks.
pub open spec fn numbered_diff_text(f: PrFileView) -> Seq<char> {
    if f.status == "removed"@ {
        "deleted: "@ + f.filename + " ("@ + decimal(f.deletions as nat) + " lines)"@
    } else {
        match f.patch {
            Some(p) => if p.len() > 0 {
                join(
                    seq!["--- a/"@ + f.filename, "+++ b/"@ + f.filename] + parse_model(p).map_values(
                        |h: HunkView| hunk_text(h),
                    ),
                    "\n"@,
                )
            } else {
                "--- a/"@ + f.filename + "\n+++ b/"@ + f.filename + "\n(no diff)"@
            },
            None => "--- a/"@ + f.filename + "\n+++ b/"@ + f.filename + "\n(no diff)"@,
        }
    }
}

/// Renders one file's diff with new-file line numbers.
pub fn format_line_numbered_diff(file: &PrFile) -> (r: String)
    ensures
        r@ == numbered_diff_text(file@),
{
    if same_text(file.status.as_str(), "removed") {
        let mut out = String::new();
        append(&mut out, "deleted: ");
        append(&mut out, file.filename.as_str());
        append(&mut out, " (");
        append_decimal(&mut out, file.deletions as u128);
        append(&mut out, " lines)");
        return out;
    }
    let patch = match &file.patch {
        Some(p) => if !p.as_str().is_empty() {
            p
        } else {
            let mut out = String::new();
            append(&mut out, "--- a/");
            append(&mut out, file.filename.as_str());
            append(&mut out, "\n+++ b/");
            append(&mut out, file.filename.as_str());
            append(&mut out, "\n(no diff)");
            return out;
        },
        None => {
            let mut out = String::new();
            append(&mut out, "--- a/");
            append(&mut out, file.filename.as_str());
            append(&mut out, "\n+++ b/");
            append(&mut out, file.filename.as_str());
            append(&mut out, "\n(no diff)");
            return out;
        },
    };
    let hunks = parse_patch(patch.as_str());
    let ghost hv = hunks_view(hunks@);
    let mut rows: Vec<String> = Vec::new();
    let mut first = String::new();
    append(&mut first, "--- a/");
    append(&mut first, file.filename.as_str());
    let mut second = String::new();
    append(&mut second, "+++ b/");
    append(&mut second, file.filename.as_str());
    rows.push(first);
    rows.push(second);
    let ghost heads = seq!["--- a/"@ + file.filename@, "+++ b/"@ + file.filename@];
    assert(rows@.map_values(|p: String| p@) =~= heads);
    let mut k: usize = 0;
    while k < hunks.len()
        invariant
            k <= hunks.len(),
            hv == hunks_view(hunks@),
            rows@.map_values(|p: String| p@) == heads + hv.take(k as int).map_values(
                |h: HunkView| hunk_text(h),
            ),
        decreases hunks.len() - k,
    {
        let t = format_hunk(&hunks[k]);
        assert(hv[k as int] == hunks@[k as int]@);
        let ghost before = rows@;
        rows.push(t);
        assert(rows@.map_values(|p: String| p@) =~= before.map_values(|p: String| p@).push(t@));
        assert(hv.take(k + 1).map_values(|h: HunkView| hunk_text(h)) =~= hv.take(k as int).map_values(
            |h: HunkView| hunk_text(h),
        ).push(hunk_text(hv[k as int])));
        k = k + 1;
    }
    assert(hv.take(hunks.len() as int) =~= hv);
    join_strings(&rows, "\n")
}

/// The metadata header: number, title, state, branches, line totals and the
/// number of changed files.
pub open spec fn metadata_text(
    number: u64,
    title: Seq<char>,
    state: Seq<char>,
    base_ref: Seq<char>,
    head_ref: Seq<char>,
    additions: u64,
    deletions: u64,
    changed_files: u64,
) -> Seq<char> {
    "#"@ + decimal(number as nat) + " "@ + title + "  ["@ + state + "]\n"@ + base_ref + " \u{2190} "@
        + head_ref + "  +"@ + decimal(additions as nat) + " -"@ + decimal(deletions as nat) + "  "@
        + decimal(changed_files as nat) + " files"@
}

/// Renders the metadata header of a pull request.
pub fn format_metadata(pr: &PullRequest) -> (r: String)
    ensures
        r@ == metadata_text(
            pr.number,
            pr.title@,
            pr.state@,
            pr.base_ref@,
            pr.head_ref@,
            pr.additions,
            pr.deletions,
            pr.changed_files,
        ),
{
    let mut out = String::new();
    append(&mut out, "#");
    append_decimal(&mut out, pr.number as u128);
    append(&mut out, " ");
    append(&mut out, pr.title.as_str());
    append(&mut out, "  [");
    append(&mut out, pr.state.as_str());
    append(&mut out, "]\n");
    append(&mut out, pr.base_ref.as_str());
    append(&mut out, " \u{2190} ");
    append(&mut out, pr.head_ref.as_str());
    append(&mut out, "  +");
    append_decimal(&mut out, pr.additions as u128);
    append(&mut out, " -");
    append_decimal(&mut out, pr.deletions as u128);
    append(&mut out, "  ");
    append_decimal(&mut out, pr.changed_files as u128);
    append(&mut out, " files");
    out
}

/// The count of deleted lines as a stat table shows it: negated, and a bare
/// "0" when nothing was deleted.
pub open spec fn negated_count(n: u64) -> Seq<char> {
    if n == 0 {
        "0"@
    } else {
        "-"@ + decimal(n as nat)
    }
}

/// One row of the stat table: status, signed line counts, file name.
pub open spec fn stat_row(f: PrFileView) -> Seq<char> {
    " "@ + pad_left(f.status, 9) + "  "@ + pad_left("+"@ + decimal(f.additions as nat), 4) + " "@
        + pad_left(negated_count(f.deletions), 4) + "  "@ + f.filename
}

/// Renders the file stat table, one row per file.
pub fn format_stat_table(files: &[PrFile]) -> (r: String)
    ensures
        r@ == join(files@.map_values(|f: PrFile| stat_row(f@)), "\n"@),
{
    let mut rows: Vec<String> = Vec::new();
    let mut k: usize = 0;
    while k < files.len()
        invariant
            k <= files.len(),
            rows@.map_values(|p: String| p@) == files@.take(k as int).map_values(
                |f: PrFile| stat_row(f@),
            ),
        decreases files.len() - k,
    {
        let f = &files[k];
        let mut row = String::new();
        append(&mut row, " ");
        append_pad_left(&mut row, f.status.as_str(), 9);
        append(&mut row, "  ");
        let mut added = String::new();
        append(&mut added, "+");
        append_decimal(&mut added, f.additions as u128);
        append_pad_left(&mut row, added.as_str(), 4);
        append(&mut row, " ");
        let mut removed = String::new();
        if f.deletions == 0 {
            append(&mut removed, "0");
        } else {
            append(&mut removed, "-");
            append_decimal(&mut removed, f.deletions as u128);
        }
        append_pad_left(&mut row, removed.as_str(), 4);
        append(&mut row, "  ");
        append(&mut row, f.filename.as_str());
        assert(row@ =~= stat_row(f@));
        let ghost before = rows@;
        rows.push(row);
        assert(rows@.map_values(|p: String| p@) =~= before.map_values(|p: String| p@).push(
            stat_row(f@),
        ));
        assert(files@.take(k + 1).map_values(|f: PrFile| stat_row(f@)) =~= files@.take(
            k as int,
        ).map_values(|f: PrFile| stat_row(f@)).push(stat_row(files@[k as int]@)));
        k = k + 1;
    }
    assert(files@.take(files.len() as int) =~= files@);
    join_strings(&rows, "\n")
}

} // verus!
