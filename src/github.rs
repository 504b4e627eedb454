//! Pull-request data as the GitHub API hands it over, and the computations
//! made on it between requests.
use vstd::prelude::*;
use vstd::string::StringExecFns;
use vstd::utf8::{decode_utf8, encode_utf8, valid_utf8};
use crate::classify::{is_space, opt_view, space_char, first_index};
use crate::text::{append, chars_of, has_at, lines_of, lit_at, lower_of, lowercase, next_line, push_char, same_text, string_of};

verus! {

/// Pull-request metadata and its changed files.
#[derive(Debug, Clone)]
pub struct PullRequest {
    pub number: u64,
    pub title: String,
    pub body: Option<String>,
    pub state: String,
    pub additions: u64,
    pub deletions: u64,
    pub changed_files: u64,
    pub head_ref: String,
    pub base_ref: String,
    pub head_sha: String,
    pub files: Vec<PrFile>,
}

/// One changed file of a pull request, with its patch when it was fetched.
#[derive(Debug, Clone)]
pub struct PrFile {
    pub filename: String,
    pub status: String,
    pub additions: u64,
    pub deletions: u64,
    pub patch: Option<String>,
}

pub struct PrFileView {
    pub filename: Seq<char>,
    pub status: Seq<char>,
    pub additions: u64,
    pub deletions: u64,
    pub patch: Option<Seq<char>>,
}

impl View for PrFile {
    type V = PrFileView;

    open spec fn view(&self) -> PrFileView {
        PrFileView {
            filename: self.filename@,
            status: self.status@,
            additions: self.additions,
            deletions: self.deletions,
            patch: opt_view(self.patch),
        }
    }
}

/// A file's content as the contents endpoint returns it: base64 text.
#[derive(Debug, Clone)]
pub struct FileContent {
    pub content: Option<String>,
    pub encoding: Option<String>,
}

/// A review to post: one commit, one event, a body and inline comments.
#[derive(Debug, Clone)]
pub struct CreateReview {
    pub commit_id: String,
    pub event: String,
    pub body: String,
    pub comments: Vec<ReviewCommentInput>,
}

/// One inline comment of a review; `start_line` opens a multi-line span.
#[derive(Debug, Clone)]
pub struct ReviewCommentInput {
    pub path: String,
    pub line: u64,
    pub body: String,
    pub start_line: Option<u64>,
}

/// The answer to a posted review.
#[derive(Debug, Clone)]
pub struct CreateReviewResponse {
    pub id: u64,
    pub html_url: String,
}

/// The answer of code search.
#[derive(Debug, Clone)]
pub struct CodeSearchResponse {
    pub total_count: u64,
    pub items: Vec<CodeSearchItem>,
}

/// One file found by code search.
#[derive(Debug, Clone)]
pub struct CodeSearchItem {
    pub name: String,
    pub path: String,
    pub repository: CodeSearchRepo,
    pub html_url: String,
    pub text_matches: Option<Vec<TextMatch>>,
}

/// The repository of a code-search hit.
#[derive(Debug, Clone)]
pub struct CodeSearchRepo {
    pub full_name: String,
}

/// A fragment of a file that matched a code search.
#[derive(Debug, Clone)]
pub struct TextMatch {
    pub fragment: String,
    pub matches: Vec<TextMatchLocation>,
}

/// The offsets of one match inside a fragment.
#[derive(Debug, Clone)]
pub struct TextMatchLocation {
    pub indices: Vec<u64>,
}


/// The status word of a GraphQL change type: the known kinds by name,
/// anything else in lower case.
pub open spec fn change_status(ct: Seq<char>) -> Seq<char> {
    if ct == "ADDED"@ {
        "added"@
    } else if ct == "DELETED"@ || ct == "REMOVED"@ {
        "removed"@
    } else if ct == "MODIFIED"@ || ct == "CHANGED"@ {
        "modified"@
    } else if ct == "RENAMED"@ {
        "renamed"@
    } else if ct == "COPIED"@ {
        "copied"@
    } else {
        lower_of(ct)
    }
}

/// Maps a GraphQL change type to the status word that REST uses.
pub fn map_change_type(ct: &str) -> (r: String)
    ensures
        r@ == change_status(ct@),
{
    if same_text(ct, "ADDED") {
        String::from_str("added")
    } else if same_text(ct, "DELETED") || same_text(ct, "REMOVED") {
        String::from_str("removed")
    } else if same_text(ct, "MODIFIED") || same_text(ct, "CHANGED") {
        String::from_str("modified")
    } else if same_text(ct, "RENAMED") {
        String::from_str("renamed")
    } else if same_text(ct, "COPIED") {
        String::from_str("copied")
    } else {
        lowercase(ct)
    }
}

/// Splits `owner/repo` at its first slash; absent when it has none.
pub fn split_repo(repo: &str) -> (r: Option<(String, String)>)
    ensures
        first_index(repo@, '/') < repo@.len() <==> r is Some,
        r matches Some((owner, name)) ==> owner@ == repo@.take(first_index(repo@, '/') as int)
            && name@ == repo@.skip(first_index(repo@, '/') as int + 1),
{
    let cs = chars_of(repo);
    let mut k: usize = 0;
    assert(cs@.skip(0) =~= cs@);
    while k < cs.len() && cs[k] != '/'
        invariant
            k <= cs.len(),
            cs@ == repo@,
            first_index(repo@, '/') == k + first_index(cs@.skip(k as int), '/'),
        decreases cs.len() - k,
    {
        assert(cs@.skip(k as int).drop_first() =~= cs@.skip(k + 1));
        k = k + 1;
    }
    if k == cs.len() {
        None
    } else {
        assert(cs@.subrange(0, k as int) =~= repo@.take(k as int));
        assert(cs@.subrange(k + 1, cs.len() as int) =~= repo@.skip(k + 1));
        Some((string_of(&cs, 0, k), string_of(&cs, k + 1, cs.len())))
    }
}

/// What a base64 text decodes to under the standard alphabet with padding;
/// absent when it is not valid base64.
pub uninterp spec fn base64_decoded(s: Seq<char>) -> Option<Seq<u8>>;

/// `base64::DecodeError`, the error of a failed decode; it is carried, never
/// looked into.
#[verifier::external_type_specification]
#[verifier::external_body]
pub struct ExDecodeError(base64::DecodeError);

/// Relies on `base64::Engine::decode` with the `STANDARD` engine: it succeeds
/// exactly on valid base64 and then returns the decoded bytes.
#[verifier::external_body]
fn decode_base64(s: &str) -> (r: Result<Vec<u8>, base64::DecodeError>)
    ensures
        r is Ok <==> base64_decoded(s@) is Some,
        r matches Ok(v) ==> v@ == base64_decoded(s@)->Some_0,
{
    base64::Engine::decode(&base64::engine::general_purpose::STANDARD, s)
}

/// Relies on `String::from_utf8`: it succeeds exactly on valid UTF-8 and then
/// holds the decoded characters.
#[verifier::external_body]
fn utf8_string(b: Vec<u8>) -> (r: Option<String>)
    ensures
        r is Some <==> valid_utf8(b@),
        r matches Some(s) ==> s@ == decode_utf8(b@),
{
    String::from_utf8(b).ok()
}

/// Why a file's content could not be read.
#[derive(Debug, Clone, Copy, PartialEq, Eq, Structural)]
pub enum ContentError {
    /// The content is not valid base64.
    Base64,
    /// The decoded bytes are not valid UTF-8.
    NotUtf8,
}

/// `s` without its white-space characters.
pub open spec fn without_spaces(s: Seq<char>) -> Seq<char>
    decreases s.len(),
{
    if s.len() == 0 {
        s
    } else if is_space(s.last()) {
        without_spaces(s.drop_last())
    } else {
        without_spaces(s.drop_last()).push(s.last())
    }
}

/// The text of a file's content: its base64 with white space removed,
/// decoded, read as UTF-8. Missing content reads as empty base64.
pub open spec fn content_text(content: Option<Seq<char>>) -> Result<Seq<char>, ContentError> {
    let encoded = match content {
        Some(c) => without_spaces(c),
        None => seq![],
    };
    match base64_decoded(encoded) {
        None => Err(ContentError::Base64),
        Some(bytes) => if valid_utf8(bytes) {
            Ok(decode_utf8(bytes))
        } else {
            Err(ContentError::NotUtf8)
        },
    }
}

/// Decodes the content the contents endpoint returned.
pub fn decode_file_content(fc: &FileContent) -> (r: Result<String, ContentError>)
    ensures
        match content_text(opt_view(fc.content)) {
            Ok(t) => r matches Ok(s) && s@ == t,
            Err(e) => r == Err::<String, ContentError>(e),
        },
{
    let mut cleaned = String::new();
    match &fc.content {
        Some(c) => {
            let cs = chars_of(c.as_str());
            let mut k: usize = 0;
            while k < cs.len()
                invariant
                    k <= cs.len(),
                    cs@ == c@,
                    cleaned@ == without_spaces(cs@.take(k as int)),
                decreases cs.len() - k,
            {
                assert(cs@.take(k + 1).drop_last() =~= cs@.take(k as int));
                if !space_char(cs[k]) {
                    push_char(&mut cleaned, cs[k]);
                }
                k = k + 1;
            }
            assert(cs@.take(cs.len() as int) =~= c@);
        },
        None => {
            assert(cleaned@ =~= Seq::<char>::empty());
        },
    }
    match decode_base64(cleaned.as_str()) {
        Err(_) => Err(ContentError::Base64),
        Ok(bytes) => match utf8_string(bytes) {
            Some(s) => Ok(s),
            None => Err(ContentError::NotUtf8),
        },
    }
}

/// Bytes that percent-encoding keeps as they are: ASCII letters, digits and
/// `-`, `.`, `_`, `~`.
pub open spec fn is_unreserved(b: u8) -> bool {
    ||| 0x30 <= b <= 0x39
    ||| 0x41 <= b <= 0x5a
    ||| 0x61 <= b <= 0x7a
    ||| b == 0x2d
    ||| b == 0x2e
    ||| b == 0x5f
    ||| b == 0x7e
}

/// The upper-case hexadecimal digit of `d`, for `d` below 16.
pub open spec fn hex_digit(d: u8) -> char {
    if d < 10 {
        (0x30 + d) as char
    } else {
        (0x37 + d) as char
    }
}

/// Percent-encoding of bytes: a kept byte stands for itself, every other one
/// becomes `%` and two upper-case hexadecimal digits.
pub open spec fn percent_encode(bs: Seq<u8>) -> Seq<char>
    decreases bs.len(),
{
    if bs.len() == 0 {
        seq![]
    } else {
        let b = bs.last();
        percent_encode(bs.drop_last()) + if is_unreserved(b) {
            seq![b as char]
        } else {
            seq!['%', hex_digit(b / 16), hex_digit(b % 16)]
        }
    }
}

/// Relies on `urlencoding::encode`: it percent-encodes the UTF-8 bytes of
/// the text.
#[verifier::external_body]
fn encode_query(s: &str) -> (r: String)
    ensures
        r@ == percent_encode(encode_utf8(s@)),
{
    urlencoding::encode(s).into_owned()
}

/// The code-search query: the text, the repository, and an optional path.
pub open spec fn search_query(query: Seq<char>, repo: Seq<char>, path_prefix: Option<Seq<char>>) -> Seq<
    char,
> {
    match path_prefix {
        Some(p) => query + " repo:"@ + repo + " path:"@ + p,
        None => query + " repo:"@ + repo,
    }
}

/// The code-search URL under `base_url`, one page of up to 100 results.
pub fn code_search_url(base_url: &str, query: &str, repo: &str, path_prefix: Option<&str>) -> (r:
    String)
    ensures
        r@ == base_url@ + "/search/code?q="@ + percent_encode(encode_utf8(
            search_query(
                query@,
                repo@,
                match path_prefix {
                    Some(p) => Some(p@),
                    None => None,
                },
            ),
        )) + "&per_page=100"@,
{
    let mut q = String::new();
    append(&mut q, query);
    append(&mut q, " repo:");
    append(&mut q, repo);
    match path_prefix {
        Some(p) => {
            append(&mut q, " path:");
            append(&mut q, p);
        },
        None => {},
    }
    let encoded = encode_query(q.as_str());
    let mut url = String::new();
    append(&mut url, base_url);
    append(&mut url, "/search/code?q=");
    append(&mut url, encoded.as_str());
    append(&mut url, "&per_page=100");
    url
}


/// The state of the raw-diff splitter between two lines: the patches saved
/// so far by file name, the current file, and its patch so far.
pub struct RawDiffState {
    pub files: Seq<(Seq<char>, Seq<char>)>,
    pub cur: Option<Seq<char>>,
    pub patch: Seq<char>,
}

/// The position of the entry for `name`, or the number of entries.
pub open spec fn entry_index(files: Seq<(Seq<char>, Seq<char>)>, name: Seq<char>) -> nat
    decreases files.len(),
{
    if files.len() == 0 {
        0
    } else if files[0].0 == name {
        0
    } else {
        1 + entry_index(files.drop_first(), name)
    }
}

/// `files` with the patch of `name` set: replaced in place if the name is
/// there, added at the end otherwise.
pub open spec fn upsert(files: Seq<(Seq<char>, Seq<char>)>, name: Seq<char>, patch: Seq<char>) -> Seq<
    (Seq<char>, Seq<char>),
> {
    let i = entry_index(files, name) as int;
    if i < files.len() {
        files.update(i, (name, patch))
    } else {
        files.push((name, patch))
    }
}

/// The entries after the current file's patch is saved, if it has one.
pub open spec fn save_patch(st: RawDiffState) -> Seq<(Seq<char>, Seq<char>)> {
    match st.cur {
        Some(f) => if st.patch.len() > 0 {
            upsert(st.files, f, st.patch)
        } else {
            st.files
        },
        None => st.files,
    }
}

/// File-level lines of a git diff that are not part of a patch.
pub open spec fn is_file_header(line: Seq<char>) -> bool {
    ||| lit_at(line, 0, "--- "@)
    ||| lit_at(line, 0, "+++ "@)
    ||| lit_at(line, 0, "index "@)
    ||| lit_at(line, 0, "new file"@)
    ||| lit_at(line, 0, "deleted file"@)
    ||| lit_at(line, 0, "old mode"@)
    ||| lit_at(line, 0, "new mode"@)
    ||| lit_at(line, 0, "similarity"@)
    ||| lit_at(line, 0, "rename "@)
}

/// One step of the splitter: `diff --git` saves the current patch and starts
/// over, `+++ b/` names the file, and while a file is named every hunk header
/// and every line that is not a file header joins its patch.
pub open spec fn raw_step(st: RawDiffState, line: Seq<char>) -> RawDiffState {
    if lit_at(line, 0, "diff --git "@) {
        RawDiffState { files: save_patch(st), cur: None, patch: seq![] }
    } else if lit_at(line, 0, "+++ b/"@) {
        RawDiffState { cur: Some(line.skip(6)), ..st }
    } else if st.cur is Some && (lit_at(line, 0, "@@"@) || !is_file_header(line)) {
        RawDiffState {
            patch: if st.patch.len() > 0 {
                st.patch.push('\n') + line
            } else {
                line
            },
            ..st
        }
    } else {
        st
    }
}

/// The splitter's state after the lines `ls`.
pub open spec fn raw_run(ls: Seq<Seq<char>>) -> RawDiffState
    decreases ls.len(),
{
    if ls.len() == 0 {
        RawDiffState { files: seq![], cur: None, patch: seq![] }
    } else {
        raw_step(raw_run(ls.drop_last()), ls.last())
    }
}

/// The per-file patches of a whole pull-request diff, by file name.
pub open spec fn raw_patches(raw: Seq<char>) -> Seq<(Seq<char>, Seq<char>)> {
    save_patch(raw_run(lines_of(raw)))
}

/// The views of a sequence of (name, patch) pairs.
pub open spec fn pairs_view(v: Seq<(String, String)>) -> Seq<(Seq<char>, Seq<char>)> {
    v.map_values(|p: (String, String)| (p.0@, p.1@))
}

proof fn lemma_entry_index(files: Seq<(Seq<char>, Seq<char>)>, name: Seq<char>, k: int)
    requires
        0 <= k <= files.len(),
        forall|j: int| 0 <= j < k ==> files[j].0 != name,
        k == files.len() || files[k].0 == name,
    ensures
        entry_index(files, name) == k,
    decreases k,
{
    if k > 0 {
        assert(forall|j: int| 0 <= j < k - 1 ==> files.drop_first()[j] == files[j + 1]);
        lemma_entry_index(files.drop_first(), name, k - 1);
    }
}

fn upsert_patch(files: &mut Vec<(String, String)>, name: String, patch: String)
    ensures
        pairs_view(final(files)@) == upsert(pairs_view(old(files)@), name@, patch@),
{
    let ghost fv = pairs_view(files@);
    let mut k: usize = 0;
    while k < files.len() && !same_text(files[k].0.as_str(), name.as_str())
        invariant
            k <= files.len(),
            files@ == old(files)@,
            fv == pairs_view(files@),
            forall|j: int| 0 <= j < k ==> fv[j].0 != name@,
        decreases files.len() - k,
    {
        assert(fv[k as int] == (files@[k as int].0@, files@[k as int].1@));
        k = k + 1;
    }
    proof {
        if k < files.len() {
            assert(fv[k as int] == (files@[k as int].0@, files@[k as int].1@));
        }
        lemma_entry_index(fv, name@, k as int);
    }
    let ghost np = (name@, patch@);
    if k < files.len() {
        files[k] = (name, patch);
        assert(pairs_view(files@) =~= fv.update(k as int, np));
    } else {
        files.push((name, patch));
        assert(pairs_view(files@) =~= fv.push(np));
    }
}

fn line_is_file_header(line: &Vec<char>) -> (r: bool)
    ensures
        r == is_file_header(line@),
{
    has_at(line, 0, "--- ") || has_at(line, 0, "+++ ") || has_at(line, 0, "index ") || has_at(
        line,
        0,
        "new file",
    ) || has_at(line, 0, "deleted file") || has_at(line, 0, "old mode") || has_at(
        line,
        0,
        "new mode",
    ) || has_at(line, 0, "similarity") || has_at(line, 0, "rename ")
}

/// Splits the raw unified diff of a whole pull request into one patch per
/// file, keyed by the file's new name; files without patch lines are left out.
pub fn parse_raw_diff(raw: &str) -> (r: Vec<(String, String)>)
    ensures
        pairs_view(r@) == raw_patches(raw@),
{
    let s = chars_of(raw);
    let mut files: Vec<(String, String)> = Vec::new();
    let mut cur: Option<String> = None;
    let mut patch = String::new();
    let mut pos: usize = 0;
    let ghost mut seen: Seq<Seq<char>> = seq![];
    proof {
        assert(s@.skip(0) =~= s@);
        assert(pairs_view(files@) =~= Seq::<(Seq<char>, Seq<char>)>::empty());
    }
    while pos < s.len()
        invariant
            s@ == raw@,
            pos <= s.len(),
            seen + lines_of(s@.skip(pos as int)) == lines_of(raw@),
            raw_run(seen) == (RawDiffState { files: pairs_view(files@), cur: opt_view(cur), patch: patch@ }),
        decreases s.len() - pos,
    {
        let (line, next) = next_line(&s, pos);
        let ghost st = raw_run(seen);
        proof {
            assert((seen.push(line@)).drop_last() =~= seen);
            assert(seen.push(line@) + lines_of(s@.skip(next as int)) =~= seen + (seq![line@]
                + lines_of(s@.skip(next as int))));
            seen = seen.push(line@);
        }
        if has_at(&line, 0, "diff --git ") {
            match cur {
                Some(f) => {
                    if !patch.as_str().is_empty() {
                        upsert_patch(&mut files, f, patch);
                    }
                },
                None => {},
            }
            cur = None;
            patch = String::new();
        } else if has_at(&line, 0, "+++ b/") {
            proof {
                reveal_strlit("+++ b/");
            }
            cur = Some(string_of(&line, 6, line.len()));
            assert(line@.subrange(6, line@.len() as int) =~= line@.skip(6));
        } else if cur.is_some() && (has_at(&line, 0, "@@") || !line_is_file_header(&line)) {
            let ghost before = patch@;
            if !patch.as_str().is_empty() {
                push_char(&mut patch, '\n');
            }
            let text = string_of(&line, 0, line.len());
            assert(line@.subrange(0, line@.len() as int) =~= line@);
            append(&mut patch, text.as_str());
            assert(patch@ =~= if before.len() > 0 { before.push('\n') + line@ } else { line@ });
        }
        pos = next;
    }
    proof {
        assert(s@.skip(pos as int) =~= Seq::<char>::empty());
        assert(seen =~= lines_of(raw@));
    }
    match cur {
        Some(f) => {
            if !patch.as_str().is_empty() {
                upsert_patch(&mut files, f, patch);
            }
        },
        None => {},
    }
    files
}

/// The patch recorded for `name`, if any.
pub open spec fn patch_for(files: Seq<(Seq<char>, Seq<char>)>, name: Seq<char>) -> Option<Seq<char>> {
    let i = entry_index(files, name) as int;
    if i < files.len() {
        Some(files[i].1)
    } else {
        None
    }
}

/// Gives each file the patch recorded for its name, keeping its own patch
/// where none is recorded.
pub fn attach_patches(files: Vec<PrFile>, patches: &Vec<(String, String)>) -> (r: Vec<PrFile>)
    ensures
        r@.len() == files@.len(),
        forall|i: int|
            0 <= i < files@.len() ==> {
                let f = #[trigger] files@[i]@;
                r@[i]@ == (PrFileView {
                    patch: match patch_for(pairs_view(patches@), f.filename) {
                        Some(p) => Some(p),
                        None => f.patch,
                    },
                    ..f
                })
            },
{
    let ghost pv = pairs_view(patches@);
    let mut out: Vec<PrFile> = Vec::new();
    let mut k: usize = 0;
    let ghost orig = files@;
    let mut files = files;
    while k < files.len()
        invariant
            k <= files.len(),
            files@ == orig,
            pv == pairs_view(patches@),
            out@.len() == k,
            forall|i: int|
                0 <= i < k ==> {
                    let f = #[trigger] orig[i]@;
                    out@[i]@ == (PrFileView {
                        patch: match patch_for(pv, f.filename) {
                            Some(p) => Some(p),
                            None => f.patch,
                        },
                        ..f
                    })
                },
        decreases files.len() - k,
    {
        let f = &files[k];
        let mut j: usize = 0;
        while j < patches.len() && !same_text(patches[j].0.as_str(), f.filename.as_str())
            invariant
                j <= patches.len(),
                pv == pairs_view(patches@),
                forall|q: int| 0 <= q < j ==> pv[q].0 != f.filename@,
            decreases patches.len() - j,
        {
            assert(pv[j as int] == (patches@[j as int].0@, patches@[j as int].1@));
            j = j + 1;
        }
        proof {
            if j < patches.len() {
                assert(pv[j as int] == (patches@[j as int].0@, patches@[j as int].1@));
            }
            lemma_entry_index(pv, f.filename@, j as int);
        }
        let patch = if j < patches.len() {
            Some(patches[j].1.clone())
        } else {
            match &f.patch {
                Some(p) => Some(p.clone()),
                None => None,
            }
        };
        let nf = PrFile {
            filename: f.filename.clone(),
            status: f.status.clone(),
            additions: f.additions,
            deletions: f.deletions,
            patch,
        };
        out.push(nf);
        k = k + 1;
    }
    out
}

} // verus!
