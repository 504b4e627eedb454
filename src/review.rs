//! Review comments: checking proposed inline comments against the diff, and
//! building the reviews that are posted.
use vstd::prelude::*;
use vstd::string::StringExecFns;
use crate::diff::{carries_new_line, commentable_lines, contains_u64, parse_model, parse_patch, hunks_view};
use crate::github::{CreateReview, PrFile, PrFileView, ReviewCommentInput};
use crate::text::{append, append_decimal, decimal, same_text};

verus! {

/// A proposed inline comment, as the comments file gives it.
#[derive(Debug, Clone)]
pub struct CommentInput {
    pub path: String,
    pub line: u64,
    pub body: String,
    pub start_line: Option<u64>,
}

pub struct CommentView {
    pub path: Seq<char>,
    pub line: u64,
    pub body: Seq<char>,
    pub start_line: Option<u64>,
}

impl View for CommentInput {
    type V = CommentView;

    open spec fn view(&self) -> CommentView {
        CommentView { path: self.path@, line: self.line, body: self.body@, start_line: self.start_line }
    }
}

impl View for ReviewCommentInput {
    type V = CommentView;

    open spec fn view(&self) -> CommentView {
        CommentView { path: self.path@, line: self.line, body: self.body@, start_line: self.start_line }
    }
}

/// The body of a review whose comments file gives none.
pub fn default_body() -> (r: String)
    ensures
        r@ == "Review from gh-agent"@,
{
    String::from_str("Review from gh-agent")
}

/// The position of the first file named `path`, or the number of files.
pub open spec fn find_file(files: Seq<PrFileView>, path: Seq<char>) -> nat
    decreases files.len(),
{
    if files.len() == 0 {
        0
    } else if files[0].filename == path {
        0
    } else {
        1 + find_file(files.drop_first(), path)
    }
}

/// The hunks of a file's patch; none without a patch.
pub open spec fn file_hunks(f: PrFileView) -> Seq<crate::diff::HunkView> {
    match f.patch {
        Some(p) => parse_model(p),
        None => seq![],
    }
}

/// Why a proposed comment is kept or skipped.
pub enum Verdict {
    Accepted,
    NotCommentable,
    NotChanged,
}

/// A comment is accepted when its file is changed and its line is a
/// commentable line of that file's diff.
pub open spec fn verdict(files: Seq<PrFileView>, c: CommentView) -> Verdict {
    let i = find_file(files, c.path) as int;
    if i >= files.len() {
        Verdict::NotChanged
    } else if carries_new_line(file_hunks(files[i]), c.line) {
        Verdict::Accepted
    } else {
        Verdict::NotCommentable
    }
}

/// The warning for a skipped comment.
pub open spec fn skip_warning(c: CommentView, v: Verdict) -> Seq<char> {
    match v {
        Verdict::NotCommentable => "SKIP: "@ + c.path + ":"@ + decimal(c.line as nat)
            + " is not a commentable line (not in diff)"@,
        _ => "SKIP: "@ + c.path + " is not a changed file in this PR"@,
    }
}

/// The accepted comments, in order.
pub open spec fn accepted(files: Seq<PrFileView>, cs: Seq<CommentView>) -> Seq<CommentView>
    decreases cs.len(),
{
    if cs.len() == 0 {
        seq![]
    } else if verdict(files, cs.last()) is Accepted {
        accepted(files, cs.drop_last()).push(cs.last())
    } else {
        accepted(files, cs.drop_last())
    }
}

/// The warnings for the skipped comments, in order.
pub open spec fn warnings(files: Seq<PrFileView>, cs: Seq<CommentView>) -> Seq<Seq<char>>
    decreases cs.len(),
{
    if cs.len() == 0 {
        seq![]
    } else if verdict(files, cs.last()) is Accepted {
        warnings(files, cs.drop_last())
    } else {
        warnings(files, cs.drop_last()).push(skip_warning(cs.last(), verdict(files, cs.last())))
    }
}

/// The comments that survived validation, and a warning for each other one.
pub struct Validated {
    pub comments: Vec<ReviewCommentInput>,
    pub warnings: Vec<String>,
}

proof fn lemma_find_file(files: Seq<PrFileView>, path: Seq<char>, k: int)
    requires
        0 <= k <= files.len(),
        forall|j: int| 0 <= j < k ==> files[j].filename != path,
        k == files.len() || files[k].filename == path,
    ensures
        find_file(files, path) == k,
    decreases k,
{
    if k > 0 {
        assert(forall|j: int| 0 <= j < k - 1 ==> files.drop_first()[j] == files[j + 1]);
        lemma_find_file(files.drop_first(), path, k - 1);
    }
}

/// Checks each proposed comment against the commentable lines of its file's
/// diff. Accepted comments keep their order; each skipped one gives a warning.
pub fn validate_comments(files: &[PrFile], comments: &[CommentInput]) -> (r: Validated)
    ensures
        r.comments@.map_values(|c: ReviewCommentInput| c@) == accepted(
            files@.map_values(|f: PrFile| f@),
            comments@.map_values(|c: CommentInput| c@),
        ),
        r.warnings@.map_values(|w: String| w@) == warnings(
            files@.map_values(|f: PrFile| f@),
            comments@.map_values(|c: CommentInput| c@),
        ),
{
    let ghost fv = files@.map_values(|f: PrFile| f@);
    let ghost cv = comments@.map_values(|c: CommentInput| c@);
    let lines = commentable_by_file(files);
    let mut out: Vec<ReviewCommentInput> = Vec::new();
    let mut warns: Vec<String> = Vec::new();
    let mut i: usize = 0;
    while i < comments.len()
        invariant
            i <= comments.len(),
            fv == files@.map_values(|f: PrFile| f@),
            cv == comments@.map_values(|c: CommentInput| c@),
            lines.len() == files.len(),
            forall|q: int|
                0 <= q < files.len() ==> {
                    &&& (#[trigger] lines@[q]).0@ == files@[q].filename@
                    &&& forall|n: u64|
                        lines@[q].1@.contains(n) <==> carries_new_line(file_hunks(files@[q]@), n)
                },
            out@.map_values(|c: ReviewCommentInput| c@) == accepted(fv, cv.take(i as int)),
            warns@.map_values(|w: String| w@) == warnings(fv, cv.take(i as int)),
        decreases comments.len() - i,
    {
        let c = &comments[i];
        assert(cv[i as int] == c@);
        assert(cv.take(i + 1).drop_last() =~= cv.take(i as int));
        assert(cv.take(i + 1).last() == c@);
        let mut j: usize = 0;
        while j < files.len() && !same_text(files[j].filename.as_str(), c.path.as_str())
            invariant
                j <= files.len(),
                fv == files@.map_values(|f: PrFile| f@),
                forall|q: int| 0 <= q < j ==> fv[q].filename != c.path@,
            decreases files.len() - j,
        {
            assert(fv[j as int] == files@[j as int]@);
            j = j + 1;
        }
        proof {
            if j < files.len() {
                assert(fv[j as int] == files@[j as int]@);
            }
            lemma_find_file(fv, c.path@, j as int);
        }
        let ghost wbefore = warns@;
        let ghost obefore = out@;
        if j == files.len() {
            let mut w = String::new();
            append(&mut w, "SKIP: ");
            append(&mut w, c.path.as_str());
            append(&mut w, " is not a changed file in this PR");
            assert(w@ =~= skip_warning(c@, verdict(fv, c@)));
            warns.push(w);
            assert(warns@.map_values(|w: String| w@) =~= wbefore.map_values(|w: String| w@).push(
                skip_warning(c@, verdict(fv, c@)),
            ));
        } else if contains_u64(&lines[j].1, c.line) {
            let v = ReviewCommentInput {
                path: c.path.clone(),
                line: c.line,
                body: c.body.clone(),
                start_line: c.start_line,
            };
            out.push(v);
            assert(out@.map_values(|c: ReviewCommentInput| c@) =~= obefore.map_values(
                |c: ReviewCommentInput| c@,
            ).push(c@));
        } else {
            let mut w = String::new();
            append(&mut w, "SKIP: ");
            append(&mut w, c.path.as_str());
            append(&mut w, ":");
            append_decimal(&mut w, c.line as u128);
            append(&mut w, " is not a commentable line (not in diff)");
            assert(w@ =~= skip_warning(c@, verdict(fv, c@)));
            warns.push(w);
            assert(warns@.map_values(|w: String| w@) =~= wbefore.map_values(|w: String| w@).push(
                skip_warning(c@, verdict(fv, c@)),
            ));
        }
        i = i + 1;
    }
    assert(cv.take(comments.len() as int) =~= cv);
    Validated { comments: out, warnings: warns }
}

/// The review to post for the validated comments: none when no comment
/// survived, so that a batch posts as long as one comment is valid.
pub fn assemble_review(commit_id: String, body: String, comments: Vec<ReviewCommentInput>) -> (r:
    Option<CreateReview>)
    ensures
        comments@.len() == 0 <==> r is None,
        r matches Some(rv) ==> rv.commit_id == commit_id && rv.event@ == "COMMENT"@ && rv.body
            == body && rv.comments == comments,
{
    if comments.len() == 0 {
        None
    } else {
        Some(
            CreateReview {
                commit_id,
                event: String::from_str("COMMENT"),
                body,
                comments,
            },
        )
    }
}

/// The body of a suggestion comment: one fenced `suggestion` block around the
/// replacement text.
pub open spec fn suggestion_body(replacement: Seq<char>) -> Seq<char> {
    "```suggestion\n"@ + replacement + "\n```"@
}

/// The review that proposes `replacement` for lines `line_start..=line_end`
/// of `file`; a one-line span has no start line.
pub fn suggestion_review(
    commit_id: String,
    file: &str,
    line_start: u64,
    line_end: u64,
    replacement: &str,
) -> (r: CreateReview)
    ensures
        r.commit_id == commit_id,
        r.event@ == "COMMENT"@,
        r.body@ == "Suggestion from gh-agent"@,
        r.comments@.len() == 1,
        r.comments@[0]@ == (CommentView {
            path: file@,
            line: line_end,
            body: suggestion_body(replacement@),
            start_line: if line_start == line_end { None } else { Some(line_start) },
        }),
{
    let mut body = String::new();
    append(&mut body, "```suggestion\n");
    append(&mut body, replacement);
    append(&mut body, "\n```");
    let start_line = if line_start == line_end {
        None
    } else {
        Some(line_start)
    };
    let comment = ReviewCommentInput { path: String::from_str(file), line: line_end, body, start_line };
    let mut comments: Vec<ReviewCommentInput> = Vec::new();
    comments.push(comment);
    CreateReview {
        commit_id,
        event: String::from_str("COMMENT"),
        body: String::from_str("Suggestion from gh-agent"),
        comments,
    }
}


/// The commentable new-file lines of each file, in file order: the
/// machine-readable form of a pull request's diff.
pub fn commentable_by_file(files: &[PrFile]) -> (r: Vec<(String, Vec<u64>)>)
    ensures
        r@.len() == files@.len(),
        forall|i: int|
            0 <= i < files@.len() ==> {
                &&& (#[trigger] r@[i]).0@ == files@[i].filename@
                &&& r@[i].1@.no_duplicates()
                &&& forall|n: u64|
                    r@[i].1@.contains(n) <==> carries_new_line(file_hunks(files@[i]@), n)
            },
{
    let mut r: Vec<(String, Vec<u64>)> = Vec::new();
    let mut k: usize = 0;
    while k < files.len()
        invariant
            k <= files.len(),
            r@.len() == k,
            forall|i: int|
                0 <= i < k ==> {
                    &&& (#[trigger] r@[i]).0@ == files@[i].filename@
                    &&& r@[i].1@.no_duplicates()
                    &&& forall|n: u64|
                        r@[i].1@.contains(n) <==> carries_new_line(file_hunks(files@[i]@), n)
                },
        decreases files.len() - k,
    {
        let f = &files[k];
        let cl = match &f.patch {
            Some(p) => {
                let hs = parse_patch(p.as_str());
                commentable_lines(hs.as_slice())
            },
            None => {
                let hs: Vec<crate::diff::DiffHunk> = Vec::new();
                assert(hunks_view(hs@) =~= Seq::<crate::diff::HunkView>::empty());
                commentable_lines(hs.as_slice())
            },
        };
        r.push((f.filename.clone(), cl));
        k = k + 1;
    }
    r
}

/// Checks the proposed comments against the diff and builds the review to
/// post: none when no comment survived. The warnings name every skipped
/// comment, in order.
pub fn prepare_review(
    commit_id: String,
    body: String,
    files: &[PrFile],
    comments: &[CommentInput],
) -> (r: (Option<CreateReview>, Vec<String>))
    ensures
        r.1@.map_values(|w: String| w@) == warnings(
            files@.map_values(|f: PrFile| f@),
            comments@.map_values(|c: CommentInput| c@),
        ),
        accepted(files@.map_values(|f: PrFile| f@), comments@.map_values(|c: CommentInput| c@)).len()
            == 0 <==> r.0 is None,
        r.0 matches Some(rv) ==> rv.commit_id == commit_id && rv.event@ == "COMMENT"@ && rv.body
            == body && rv.comments@.map_values(|c: ReviewCommentInput| c@) == accepted(
            files@.map_values(|f: PrFile| f@),
            comments@.map_values(|c: CommentInput| c@),
        ),
{
    let checked = validate_comments(files, comments);
    let ghost acc = checked.comments@;
    assert(acc.map_values(|c: ReviewCommentInput| c@).len() == acc.len());
    let review = assemble_review(commit_id, body, checked.comments);
    (review, checked.warnings)
}


proof fn lemma_none_accepted(files: Seq<PrFileView>, cs: Seq<CommentView>)
    requires
        forall|i: int| 0 <= i < cs.len() ==> !(verdict(files, #[trigger] cs[i]) is Accepted),
    ensures
        accepted(files, cs).len() == 0,
    decreases cs.len(),
{
    if cs.len() > 0 {
        assert(forall|i: int| 0 <= i < cs.drop_last().len() ==> cs.drop_last()[i] == cs[i]);
        lemma_none_accepted(files, cs.drop_last());
        assert(cs.last() == cs[cs.len() - 1]);
    }
}

/// A comment on a changed file whose line no Add or Context record of that
/// file's patch carries (so also a line that only a Delete record numbers)
/// is skipped with the not-commentable warning; and when every comment is
/// skipped no review is owed (see `prepare_review`).
pub proof fn lemma_uncommentable_comments_skipped(files: Seq<PrFileView>, cs: Seq<CommentView>)
    ensures
        forall|i: int|
            0 <= i < cs.len() && find_file(files, cs[i].path) < files.len() && !carries_new_line(
                file_hunks(files[find_file(files, cs[i].path) as int]),
                cs[i].line,
            ) ==> verdict(files, #[trigger] cs[i]) is NotCommentable && skip_warning(
                cs[i],
                verdict(files, cs[i]),
            ) == "SKIP: "@ + cs[i].path + ":"@ + decimal(cs[i].line as nat)
                + " is not a commentable line (not in diff)"@,
        (forall|i: int| 0 <= i < cs.len() ==> !(verdict(files, #[trigger] cs[i]) is Accepted))
            ==> accepted(files, cs).len() == 0,
{
    if forall|i: int| 0 <= i < cs.len() ==> !(verdict(files, #[trigger] cs[i]) is Accepted) {
        lemma_none_accepted(files, cs);
    }
}

} // verus!
