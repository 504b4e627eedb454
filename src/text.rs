//! Character-level helpers shared by the parsers and renderers.
use vstd::prelude::*;
use vstd::string::{StrSliceExecFns, StringExecFns};

verus! {

/// Relies on `String::push`: appends one character at the end.
#[verifier::external_body]
pub(crate) fn push_char(s: &mut String, c: char)
    ensures
        final(s)@ == old(s)@.push(c),
{
    s.push(c);
}

/// The characters of `s`, in order.
pub fn chars_of(s: &str) -> (r: Vec<char>)
    ensures
        r@ == s@,
{
    let mut r: Vec<char> = Vec::new();
    for c in it: s.chars()
        invariant
            r@ == it.seq().subrange(0, it.index() as int),
    {
        r.push(c);
    }
    r
}


/// True when `p` occurs in `s` at position `i`.
pub open spec fn lit_at(s: Seq<char>, i: int, p: Seq<char>) -> bool {
    0 <= i && i + p.len() <= s.len() && s.subrange(i, i + p.len()) == p
}

/// Executable form of `lit_at`.
pub fn has_at(s: &Vec<char>, i: usize, p: &str) -> (r: bool)
    ensures
        r == lit_at(s@, i as int, p@),
{
    let pc = chars_of(p);
    if i > s.len() || pc.len() > s.len() - i {
        return false;
    }
    let mut k: usize = 0;
    while k < pc.len()
        invariant
            i + pc.len() <= s.len(),
            k <= pc.len(),
            pc@ == p@,
            forall|j: int| 0 <= j < k ==> s@[i + j] == pc@[j],
        decreases pc.len() - k,
    {
        if s[i + k] != pc[k] {
            assert(s@.subrange(i as int, i + pc.len())[k as int] != p@[k as int]);
            return false;
        }
        k = k + 1;
    }
    assert(s@.subrange(i as int, i + pc.len()) =~= p@);
    true
}

/// The characters `s[from..to]` as a new string.
pub fn string_of(s: &Vec<char>, from: usize, to: usize) -> (r: String)
    requires
        from <= to <= s.len(),
    ensures
        r@ == s@.subrange(from as int, to as int),
{
    let mut r = String::new();
    let mut k: usize = from;
    while k < to
        invariant
            from <= k <= to <= s.len(),
            r@ == s@.subrange(from as int, k as int),
        decreases to - k,
    {
        push_char(&mut r, s[k]);
        assert(s@.subrange(from as int, k + 1) =~= s@.subrange(from as int, k as int).push(s@[k as int]));
        k = k + 1;
    }
    r
}

/// Whether `c` is a decimal digit.
pub open spec fn is_digit(c: char) -> bool {
    '0' <= c && c <= '9'
}

/// The value of the decimal digit `c`.
pub open spec fn digit_value(c: char) -> nat {
    (c as u32 - '0' as u32) as nat
}

/// The value of a run of decimal digits, most significant first.
pub open spec fn decimal_value(ds: Seq<char>) -> nat
    decreases ds.len(),
{
    if ds.len() == 0 {
        0
    } else {
        decimal_value(ds.drop_last()) * 10 + digit_value(ds.last())
    }
}

/// The length of the run of digits that starts at `i`.
pub open spec fn digit_run(s: Seq<char>, i: int) -> nat
    decreases s.len() - i,
{
    if 0 <= i < s.len() && is_digit(s[i]) {
        1 + digit_run(s, i + 1)
    } else {
        0
    }
}

/// The unsigned number written at `i`, and the position after it: absent when
/// no digit stands there or the value does not fit in 64 bits.
pub open spec fn number_at(s: Seq<char>, i: int) -> Option<(u64, int)> {
    let n = digit_run(s, i);
    let v = decimal_value(s.subrange(i, i + n));
    if n == 0 || v > u64::MAX {
        None
    } else {
        Some((v as u64, i + n))
    }
}

proof fn lemma_digit_run(s: Seq<char>, i: int, j: int)
    requires
        0 <= i <= j <= s.len(),
        forall|k: int| i <= k < j ==> is_digit(s[k]),
        j == s.len() || !is_digit(s[j]),
    ensures
        digit_run(s, i) == j - i,
    decreases j - i,
{
    if i < j {
        lemma_digit_run(s, i + 1, j);
    }
}

/// Executable form of `number_at`.
pub fn parse_number_at(s: &Vec<char>, i: usize) -> (r: Option<(u64, usize)>)
    ensures
        match number_at(s@, i as int) {
            None => r is None,
            Some((v, e)) => match r {
                Some((rv, re)) => rv == v && re as int == e,
                None => false,
            },
        },
{
    let mut j: usize = i;
    let mut v: u64 = 0;
    let mut overflow = false;
    if i > s.len() {
        return None;
    }
    while j < s.len() && '0' <= s[j] && s[j] <= '9'
        invariant
            i <= j <= s.len(),
            forall|k: int| i <= k < j ==> is_digit(s@[k]),
            !overflow ==> v as nat == decimal_value(s@.subrange(i as int, j as int)),
            overflow ==> decimal_value(s@.subrange(i as int, j as int)) > u64::MAX,
        decreases s.len() - j,
    {
        let d = (s[j] as u32 - '0' as u32) as u64;
        let ghost before = s@.subrange(i as int, j as int);
        assert(s@.subrange(i as int, j + 1).drop_last() =~= before);
        if !overflow {
            if v > (u64::MAX - d) / 10 {
                overflow = true;
            } else {
                v = v * 10 + d;
            }
        }
        j = j + 1;
    }
    proof {
        lemma_digit_run(s@, i as int, j as int);
    }
    if j == i || overflow {
        None
    } else {
        Some((v, j))
    }
}


/// The position of the first line feed in `s`, or its length if it has none.
pub open spec fn first_newline(s: Seq<char>) -> nat
    decreases s.len(),
{
    if s.len() == 0 {
        0
    } else if s[0] == '\n' {
        0
    } else {
        1 + first_newline(s.drop_first())
    }
}

/// The text of the line that ends at `k`, with the carriage return of a
/// "\r\n" ending removed.
pub open spec fn line_text(s: Seq<char>, k: int) -> Seq<char> {
    if k < s.len() && k > 0 && s[k - 1] == '\r' {
        s.take(k - 1)
    } else {
        s.take(k)
    }
}

/// The lines of a text: split at each line feed, a final line feed ends the
/// last line instead of opening an empty one, and "\r\n" counts as one ending.
pub open spec fn lines_of(s: Seq<char>) -> Seq<Seq<char>>
    decreases s.len(),
{
    if s.len() == 0 {
        seq![]
    } else {
        let k = first_newline(s) as int;
        if k >= s.len() {
            seq![line_text(s, k)]
        } else {
            seq![line_text(s, k)] + lines_of(s.skip(k + 1))
        }
    }
}

proof fn lemma_first_newline(s: Seq<char>, k: int)
    requires
        0 <= k <= s.len(),
        forall|j: int| 0 <= j < k ==> s[j] != '\n',
        k == s.len() || s[k] == '\n',
    ensures
        first_newline(s) == k,
    decreases k,
{
    if k > 0 {
        assert(forall|j: int| 0 <= j < k - 1 ==> s.drop_first()[j] == s[j + 1]);
        lemma_first_newline(s.drop_first(), k - 1);
    }
}

/// Finds the end of the line that starts at `pos`: the index of the next line
/// feed, or the length of `s`.
pub fn line_end(s: &Vec<char>, pos: usize) -> (k: usize)
    requires
        pos <= s.len(),
    ensures
        pos <= k <= s.len(),
        k == pos + first_newline(s@.skip(pos as int)),
{
    let mut k: usize = pos;
    while k < s.len() && s[k] != '\n'
        invariant
            pos <= k <= s.len(),
            forall|j: int| pos <= j < k ==> s@[j] != '\n',
        decreases s.len() - k,
    {
        k = k + 1;
    }
    proof {
        lemma_first_newline(s@.skip(pos as int), k - pos);
    }
    k
}

/// Cuts `s[pos..]` into its first line and the position after that line;
/// the lines of the rest are those of the text after that position.
pub fn next_line(s: &Vec<char>, pos: usize) -> (r: (Vec<char>, usize))
    requires
        pos < s.len(),
    ensures
        pos < r.1 <= s.len(),
        lines_of(s@.skip(pos as int)) == seq![r.0@] + lines_of(s@.skip(r.1 as int)),
{
    let k = line_end(s, pos);
    let mut stop = k;
    if k < s.len() && k > pos && s[k - 1] == '\r' {
        stop = k - 1;
    }
    let mut line: Vec<char> = Vec::new();
    let mut j: usize = pos;
    while j < stop
        invariant
            pos <= j <= stop <= k <= s.len(),
            line@ == s@.subrange(pos as int, j as int),
        decreases stop - j,
    {
        line.push(s[j]);
        j = j + 1;
        assert(line@ =~= s@.subrange(pos as int, j as int));
    }
    let next = if k < s.len() { k + 1 } else { k };
    proof {
        let t = s@.skip(pos as int);
        assert(t.len() > 0);
        assert(line@ =~= line_text(t, k - pos));
        if k < s.len() {
            assert(t.skip(k - pos + 1) =~= s@.skip(next as int));
        } else {
            assert(s@.skip(next as int) =~= Seq::<char>::empty());
            assert(lines_of(s@.skip(next as int)) =~= Seq::<Seq<char>>::empty());
            assert(seq![line@] + lines_of(s@.skip(next as int)) =~= seq![line@]);
        }
    }
    (line, next)
}


/// The character of the decimal digit `d`.
pub open spec fn digit_char(d: nat) -> char {
    if d == 0 {
        '0'
    } else if d == 1 {
        '1'
    } else if d == 2 {
        '2'
    } else if d == 3 {
        '3'
    } else if d == 4 {
        '4'
    } else if d == 5 {
        '5'
    } else if d == 6 {
        '6'
    } else if d == 7 {
        '7'
    } else if d == 8 {
        '8'
    } else {
        '9'
    }
}

/// The decimal numeral of `n`, without leading zeros.
pub open spec fn decimal(n: nat) -> Seq<char>
    decreases n,
{
    if n < 10 {
        seq![digit_char(n)]
    } else {
        decimal(n / 10).push(digit_char(n % 10))
    }
}

/// `n` spaces.
pub open spec fn spaces(n: nat) -> Seq<char> {
    Seq::new(n, |i: int| ' ')
}

/// `s` padded with spaces on the left to at least `w` characters.
pub open spec fn pad_left(s: Seq<char>, w: nat) -> Seq<char> {
    if s.len() >= w {
        s
    } else {
        spaces((w - s.len()) as nat) + s
    }
}

/// `s` padded with spaces on the right to at least `w` characters.
pub open spec fn pad_right(s: Seq<char>, w: nat) -> Seq<char> {
    if s.len() >= w {
        s
    } else {
        s + spaces((w - s.len()) as nat)
    }
}

/// The items of `parts` with `sep` between each two.
pub open spec fn join(parts: Seq<Seq<char>>, sep: Seq<char>) -> Seq<char>
    decreases parts.len(),
{
    if parts.len() == 0 {
        seq![]
    } else if parts.len() == 1 {
        parts[0]
    } else {
        join(parts.drop_last(), sep) + sep + parts.last()
    }
}

/// Appends `t` to `s`.
pub fn append(s: &mut String, t: &str)
    ensures
        final(s)@ == old(s)@ + t@,
{
    s.append(t);
}

fn digit_to_char(d: u128) -> (c: char)
    requires
        d < 10,
    ensures
        c == digit_char(d as nat),
{
    if d == 0 {
        '0'
    } else if d == 1 {
        '1'
    } else if d == 2 {
        '2'
    } else if d == 3 {
        '3'
    } else if d == 4 {
        '4'
    } else if d == 5 {
        '5'
    } else if d == 6 {
        '6'
    } else if d == 7 {
        '7'
    } else if d == 8 {
        '8'
    } else {
        '9'
    }
}

/// Appends the decimal numeral of `n` to `s`.
pub fn append_decimal(s: &mut String, n: u128)
    ensures
        final(s)@ == old(s)@ + decimal(n as nat),
    decreases n,
{
    if n >= 10 {
        append_decimal(s, n / 10);
    }
    push_char(s, digit_to_char(n % 10));
    proof {
        if n >= 10 {
            assert(old(s)@ + decimal(n as nat) =~= old(s)@ + decimal((n / 10) as nat) + seq![
                digit_char((n % 10) as nat),
            ]);
        }
    }
}

/// The decimal numeral of `n`.
pub fn decimal_string(n: u64) -> (r: String)
    ensures
        r@ == decimal(n as nat),
{
    let mut r = String::new();
    append_decimal(&mut r, n as u128);
    assert(r@ =~= decimal(n as nat));
    r
}

/// Appends `n` spaces to `s`.
pub fn append_spaces(s: &mut String, n: usize)
    ensures
        final(s)@ == old(s)@ + spaces(n as nat),
{
    let mut k: usize = 0;
    while k < n
        invariant
            k <= n,
            s@ == old(s)@ + spaces(k as nat),
        decreases n - k,
    {
        push_char(s, ' ');
        k = k + 1;
        assert(s@ =~= old(s)@ + spaces(k as nat));
    }
}

/// Appends `t`, padded on the left to `w` characters, to `s`.
pub fn append_pad_left(s: &mut String, t: &str, w: usize)
    ensures
        final(s)@ == old(s)@ + pad_left(t@, w as nat),
{
    let n = t.unicode_len();
    if n < w {
        append_spaces(s, w - n);
    }
    append(s, t);
    assert(s@ =~= old(s)@ + pad_left(t@, w as nat));
}

/// Appends `t`, padded on the right to `w` characters, to `s`.
pub fn append_pad_right(s: &mut String, t: &str, w: usize)
    ensures
        final(s)@ == old(s)@ + pad_right(t@, w as nat),
{
    let n = t.unicode_len();
    append(s, t);
    if n < w {
        append_spaces(s, w - n);
    }
    assert(s@ =~= old(s)@ + pad_right(t@, w as nat));
}

/// The items of `parts` joined with `sep`.
pub fn join_strings(parts: &Vec<String>, sep: &str) -> (r: String)
    ensures
        r@ == join(parts@.map_values(|p: String| p@), sep@),
{
    let ghost ps = parts@.map_values(|p: String| p@);
    let mut r = String::new();
    let mut k: usize = 0;
    while k < parts.len()
        invariant
            k <= parts.len(),
            ps == parts@.map_values(|p: String| p@),
            r@ == join(ps.take(k as int), sep@),
        decreases parts.len() - k,
    {
        assert(ps.take(k + 1).drop_last() =~= ps.take(k as int));
        assert(ps.take(k + 1).last() == parts@[k as int]@);
        if k > 0 {
            append(&mut r, sep);
        } else {
            assert(r@ =~= Seq::<char>::empty());
        }
        append(&mut r, parts[k].as_str());
        k = k + 1;
    }
    assert(ps.take(parts.len() as int) =~= ps);
    r
}

/// The last segment of a slash-separated path.
pub open spec fn last_segment(p: Seq<char>) -> Seq<char>
    decreases p.len(),
{
    if p.len() == 0 {
        p
    } else if p.last() == '/' {
        seq![]
    } else {
        last_segment(p.drop_last()).push(p.last())
    }
}

/// The part of `path` after its last slash, or all of it.
pub fn short_path(path: &str) -> (r: String)
    ensures
        r@ == last_segment(path@),
{
    let cs = chars_of(path);
    let mut k: usize = cs.len();
    assert(cs@.take(k as int) =~= path@);
    assert(last_segment(path@) =~= last_segment(cs@.take(k as int)) + cs@.subrange(k as int, cs.len() as int));
    while k > 0 && cs[k - 1] != '/'
        invariant
            k <= cs.len(),
            cs@ == path@,
            last_segment(path@) == last_segment(cs@.take(k as int)) + cs@.subrange(k as int, cs.len() as int),
        decreases k,
    {
        assert(cs@.take(k as int).drop_last() =~= cs@.take(k - 1));
        assert(cs@.subrange(k - 1, cs.len() as int) =~= seq![cs@[k - 1]] + cs@.subrange(k as int, cs.len() as int));
        assert(last_segment(cs@.take(k - 1)) + cs@.subrange(k - 1, cs.len() as int) =~= last_segment(cs@.take(k - 1)).push(cs@[k - 1]) + cs@.subrange(k as int, cs.len() as int));
        k = k - 1;
    }
    if k > 0 {
        assert(cs@.take(k as int).last() == '/');
    }
    string_of(&cs, k, cs.len())
}


/// Whether two texts are equal.
pub fn same_text(a: &str, b: &str) -> (r: bool)
    ensures
        r == (a@ == b@),
{
    let ac = chars_of(a);
    let bc = chars_of(b);
    if ac.len() != bc.len() {
        assert(a@.len() != b@.len());
        return false;
    }
    let mut k: usize = 0;
    while k < ac.len()
        invariant
            ac@ == a@,
            bc@ == b@,
            ac.len() == bc.len(),
            k <= ac.len(),
            forall|j: int| 0 <= j < k ==> ac@[j] == bc@[j],
        decreases ac.len() - k,
    {
        if ac[k] != bc[k] {
            return false;
        }
        k = k + 1;
    }
    assert(a@ =~= b@);
    true
}


/// The lower-case form of a text, as `str::to_lowercase` gives it.
pub uninterp spec fn lower_of(s: Seq<char>) -> Seq<char>;

/// Relies on `str::to_lowercase`: the result depends on the characters alone,
/// and an empty text stays empty.
#[verifier::external_body]
pub(crate) fn lowercase(s: &str) -> (r: String)
    ensures
        r@ == lower_of(s@),
        s@.len() == 0 ==> r@.len() == 0,
{
    s.to_lowercase()
}

} // verus!
