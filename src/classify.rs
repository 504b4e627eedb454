//! Tokens, Jaccard similarity and literal-value changes of one changed entity.
use vstd::prelude::*;
use crate::text::{chars_of, lines_of, next_line, string_of};

verus! {

/// The views of a sequence of strings.
pub open spec fn strs_view(v: Seq<String>) -> Seq<Seq<char>> {
    v.map_values(|s: String| s@)
}

/// Unicode white space, as `char::is_whitespace` defines it.
pub open spec fn is_space(c: char) -> bool {
    let u = c as u32;
    ||| 0x09 <= u <= 0x0d
    ||| u == 0x20
    ||| u == 0x85
    ||| u == 0xa0
    ||| u == 0x1680
    ||| 0x2000 <= u <= 0x200a
    ||| u == 0x2028
    ||| u == 0x2029
    ||| u == 0x202f
    ||| u == 0x205f
    ||| u == 0x3000
}

/// Executable form of `is_space`.
pub fn space_char(c: char) -> (r: bool)
    ensures
        r == is_space(c),
{
    let u = c as u32;
    (0x09 <= u && u <= 0x0d) || u == 0x20 || u == 0x85 || u == 0xa0 || u == 0x1680 || (0x2000
        <= u && u <= 0x200a) || u == 0x2028 || u == 0x2029 || u == 0x202f || u == 0x205f || u
        == 0x3000
}

/// The words of `s` read so far, and the word being read.
pub open spec fn words_state(s: Seq<char>) -> (Seq<Seq<char>>, Seq<char>)
    decreases s.len(),
{
    if s.len() == 0 {
        (seq![], seq![])
    } else {
        let (ws, cur) = words_state(s.drop_last());
        if is_space(s.last()) {
            if cur.len() > 0 {
                (ws.push(cur), seq![])
            } else {
                (ws, seq![])
            }
        } else {
            (ws, cur.push(s.last()))
        }
    }
}

/// The maximal runs of non-space characters of `s`, in order.
pub open spec fn words(s: Seq<char>) -> Seq<Seq<char>> {
    let (ws, cur) = words_state(s);
    if cur.len() > 0 {
        ws.push(cur)
    } else {
        ws
    }
}

/// `s` with every repeated item after its first occurrence left out.
pub open spec fn dedup(s: Seq<Seq<char>>) -> Seq<Seq<char>>
    decreases s.len(),
{
    if s.len() == 0 {
        seq![]
    } else {
        let d = dedup(s.drop_last());
        if d.contains(s.last()) {
            d
        } else {
            d.push(s.last())
        }
    }
}

/// The distinct tokens of a text, in the order of their first occurrence.
pub open spec fn tokens(s: Seq<char>) -> Seq<Seq<char>> {
    dedup(words(s))
}

/// The items of `a` that are not in `b`, in order.
pub open spec fn minus(a: Seq<Seq<char>>, b: Seq<Seq<char>>) -> Seq<Seq<char>>
    decreases a.len(),
{
    if a.len() == 0 {
        seq![]
    } else if b.contains(a.last()) {
        minus(a.drop_last(), b)
    } else {
        minus(a.drop_last(), b).push(a.last())
    }
}

/// The items of `a` that are also in `b`, in order.
pub open spec fn common(a: Seq<Seq<char>>, b: Seq<Seq<char>>) -> Seq<Seq<char>>
    decreases a.len(),
{
    if a.len() == 0 {
        seq![]
    } else if b.contains(a.last()) {
        common(a.drop_last(), b).push(a.last())
    } else {
        common(a.drop_last(), b)
    }
}

pub proof fn lemma_dedup_contains(s: Seq<Seq<char>>)
    ensures
        dedup(s).no_duplicates(),
        forall|x: Seq<char>| dedup(s).contains(x) <==> s.contains(x),
    decreases s.len(),
{
    if s.len() > 0 {
        lemma_dedup_contains(s.drop_last());
        let d = dedup(s.drop_last());
        assert forall|x: Seq<char>| dedup(s).contains(x) <==> s.contains(x) by {
            if s.drop_last().contains(x) {
                let q = choose|q: int| 0 <= q < s.drop_last().len() && s.drop_last()[q] == x;
                assert(s[q] == x);
            }
            if s.contains(x) {
                let q = choose|q: int| 0 <= q < s.len() && s[q] == x;
                if q < s.len() - 1 {
                    assert(s.drop_last()[q] == x);
                }
            }
            if !d.contains(s.last()) {
                assert(d.push(s.last())[d.len() as int] == s.last());
                if d.push(s.last()).contains(x) {
                    let q = choose|q: int| 0 <= q < d.len() + 1 && d.push(s.last())[q] == x;
                    if q < d.len() {
                        assert(d[q] == x);
                    }
                }
                if d.contains(x) {
                    let q = choose|q: int| 0 <= q < d.len() && d[q] == x;
                    assert(d.push(s.last())[q] == x);
                }
            }
        }
    }
}

/// Whether `v` holds a string equal to `x`.
pub fn contains_str(v: &Vec<String>, x: &String) -> (r: bool)
    ensures
        r == strs_view(v@).contains(x@),
{
    let mut k: usize = 0;
    while k < v.len()
        invariant
            k <= v.len(),
            forall|j: int| 0 <= j < k ==> v@[j]@ != x@,
        decreases v.len() - k,
    {
        if v[k] == *x {
            assert(strs_view(v@)[k as int] == x@);
            return true;
        }
        k = k + 1;
    }
    assert forall|j: int| 0 <= j < strs_view(v@).len() implies strs_view(v@)[j] != x@ by {
        assert(strs_view(v@)[j] == v@[j]@);
    }
    false
}

/// Adds `x` at the end of `v` unless `v` holds it already.
fn push_new(v: &mut Vec<String>, x: String)
    ensures
        strs_view(final(v)@) == if strs_view(old(v)@).contains(x@) {
            strs_view(old(v)@)
        } else {
            strs_view(old(v)@).push(x@)
        },
{
    if !contains_str(v, &x) {
        let ghost before = v@;
        v.push(x);
        assert(strs_view(v@) =~= strs_view(before).push(x@));
    }
}

/// Splits a text into its words: the maximal runs of non-space characters.
pub fn split_words(s: &str) -> (r: Vec<String>)
    ensures
        strs_view(r@) == words(s@),
{
    let cs = chars_of(s);
    let mut r: Vec<String> = Vec::new();
    let mut start: usize = 0;
    let mut k: usize = 0;
    assert(strs_view(r@) =~= Seq::<Seq<char>>::empty());
    while k < cs.len()
        invariant
            cs@ == s@,
            start <= k <= cs.len(),
            words_state(cs@.take(k as int)) == (strs_view(r@), cs@.subrange(start as int, k as int)),
        decreases cs.len() - k,
    {
        proof {
            assert(cs@.take(k + 1).drop_last() =~= cs@.take(k as int));
            assert(cs@.take(k + 1).last() == cs@[k as int]);
        }
        if space_char(cs[k]) {
            if start < k {
                let w = string_of(&cs, start, k);
                let ghost before = r@;
                r.push(w);
                assert(strs_view(r@) =~= strs_view(before).push(w@));
            }
            start = k + 1;
            proof {
                assert(cs@.subrange(start as int, k + 1) =~= Seq::<char>::empty());
            }
        } else {
            proof {
                assert(cs@.subrange(start as int, k + 1) =~= cs@.subrange(start as int, k as int).push(
                    cs@[k as int],
                ));
            }
        }
        k = k + 1;
    }
    proof {
        assert(cs@.take(k as int) =~= s@);
    }
    if start < k {
        let w = string_of(&cs, start, k);
        let ghost before = r@;
        r.push(w);
        assert(strs_view(r@) =~= strs_view(before).push(w@));
    }
    r
}

/// Splits a text at white space into its distinct tokens, in order of first
/// occurrence.
pub fn tokenize(s: &str) -> (r: Vec<String>)
    ensures
        strs_view(r@) == tokens(s@),
{
    let ws = split_words(s);
    let ghost wv = strs_view(ws@);
    let mut r: Vec<String> = Vec::new();
    let mut k: usize = 0;
    assert(strs_view(r@) =~= Seq::<Seq<char>>::empty());
    while k < ws.len()
        invariant
            k <= ws.len(),
            wv == strs_view(ws@),
            wv == words(s@),
            strs_view(r@) == dedup(wv.take(k as int)),
        decreases ws.len() - k,
    {
        assert(wv.take(k + 1).drop_last() =~= wv.take(k as int));
        assert(wv.take(k + 1).last() == ws@[k as int]@);
        push_new(&mut r, ws[k].clone());
        k = k + 1;
    }
    assert(wv.take(ws.len() as int) =~= wv);
    r
}

/// The items of `a` that are not in `b`, in order.
pub fn strs_minus(a: &Vec<String>, b: &Vec<String>) -> (r: Vec<String>)
    ensures
        strs_view(r@) == minus(strs_view(a@), strs_view(b@)),
{
    let mut r: Vec<String> = Vec::new();
    let mut k: usize = 0;
    while k < a.len()
        invariant
            k <= a.len(),
            strs_view(r@) == minus(strs_view(a@).take(k as int), strs_view(b@)),
        decreases a.len() - k,
    {
        proof {
            assert(strs_view(a@).take(k + 1).drop_last() =~= strs_view(a@).take(k as int));
        }
        if !contains_str(b, &a[k]) {
            let ghost before = r@;
            r.push(a[k].clone());
            assert(strs_view(r@) =~= strs_view(before).push(a@[k as int]@));
        }
        k = k + 1;
    }
    assert(strs_view(a@).take(a.len() as int) =~= strs_view(a@));
    r
}

/// The number of items of `a` that are also in `b`.
pub fn count_common(a: &Vec<String>, b: &Vec<String>) -> (r: usize)
    ensures
        r == common(strs_view(a@), strs_view(b@)).len(),
{
    let mut r: usize = 0;
    let mut k: usize = 0;
    while k < a.len()
        invariant
            k <= a.len(),
            r == common(strs_view(a@).take(k as int), strs_view(b@)).len(),
            r <= k,
        decreases a.len() - k,
    {
        proof {
            assert(strs_view(a@).take(k + 1).drop_last() =~= strs_view(a@).take(k as int));
        }
        if contains_str(b, &a[k]) {
            r = r + 1;
        }
        k = k + 1;
    }
    assert(strs_view(a@).take(a.len() as int) =~= strs_view(a@));
    r
}


/// Jaccard similarity of the token sets of two texts, as the pair
/// (size of the intersection, size of the union); two texts without any token
/// are fully similar, (1, 1).
pub open spec fn similarity(before: Seq<char>, after: Seq<char>) -> (nat, nat) {
    let a = tokens(before);
    let b = tokens(after);
    let total = b.len() + minus(a, b).len();
    if total == 0 {
        (1, 1)
    } else {
        (common(a, b).len(), total)
    }
}

proof fn lemma_common_within(a: Seq<Seq<char>>, b: Seq<Seq<char>>)
    requires
        a.no_duplicates(),
    ensures
        common(a, b).no_duplicates(),
        forall|x: Seq<char>| common(a, b).contains(x) ==> a.contains(x) && b.contains(x),
    decreases a.len(),
{
    if a.len() > 0 {
        let p = a.drop_last();
        assert forall|i: int, j: int| 0 <= i < j < p.len() implies p[i] != p[j] by {
            assert(p[i] == a[i] && p[j] == a[j]);
        }
        lemma_common_within(p, b);
        let c = common(p, b);
        assert forall|x: Seq<char>| common(a, b).contains(x) implies a.contains(x) && b.contains(x) by {
            if c.contains(x) {
                assert(p.contains(x) && b.contains(x));
                let q = choose|q: int| 0 <= q < p.len() && p[q] == x;
                assert(a[q] == x);
            } else {
                assert(b.contains(a.last()));
                let q = choose|q: int| 0 <= q < common(a, b).len() && common(a, b)[q] == x;
                assert(common(a, b) == c.push(a.last()));
                if q < c.len() {
                    assert(c[q] == x);
                }
                assert(x == a.last());
                assert(a[a.len() - 1] == x);
            }
        }
        if b.contains(a.last()) {
            assert(!c.contains(a.last())) by {
                if c.contains(a.last()) {
                    let q = choose|q: int| 0 <= q < p.len() && p[q] == a.last();
                    assert(a[q] == a[a.len() - 1]);
                }
            }
            assert forall|i: int, j: int| 0 <= i < j < c.push(a.last()).len() implies c.push(
                a.last(),
            )[i] != c.push(a.last())[j] by {
                if j == c.len() {
                    assert(c.push(a.last())[i] == c[i]);
                }
            }
        }
    }
}

/// A similarity lies between 0 and 1: its shared count is at most its total,
/// and the total is positive.
pub proof fn lemma_similarity_in_unit_range(before: Seq<char>, after: Seq<char>)
    ensures
        similarity(before, after).0 <= similarity(before, after).1,
        similarity(before, after).1 > 0,
{
    let a = tokens(before);
    let b = tokens(after);
    lemma_dedup_contains(words(before));
    lemma_dedup_contains(words(after));
    lemma_common_within(a, b);
    let c = common(a, b);
    c.unique_seq_to_set();
    b.unique_seq_to_set();
    vstd::seq_lib::seq_to_set_is_finite(b);
    assert(c.to_set().subset_of(b.to_set()));
    vstd::set_lib::lemma_len_subset(c.to_set(), b.to_set());
}

/// `a` followed by `b`.
fn concat_strs(a: &Vec<String>, b: &Vec<String>) -> (r: Vec<String>)
    ensures
        strs_view(r@) == strs_view(a@) + strs_view(b@),
{
    let mut r: Vec<String> = Vec::new();
    let mut k: usize = 0;
    while k < a.len()
        invariant
            k <= a.len(),
            strs_view(r@) == strs_view(a@).take(k as int),
        decreases a.len() - k,
    {
        let ghost before = r@;
        let c = a[k].clone();
        r.push(c);
        assert(strs_view(r@) =~= strs_view(before).push(c@));
        assert(strs_view(a@).take(k + 1) =~= strs_view(a@).take(k as int).push(a@[k as int]@));
        k = k + 1;
    }
    let mut k: usize = 0;
    while k < b.len()
        invariant
            k <= b.len(),
            strs_view(r@) == strs_view(a@) + strs_view(b@).take(k as int),
        decreases b.len() - k,
    {
        let ghost before = r@;
        let c = b[k].clone();
        r.push(c);
        assert(strs_view(r@) =~= strs_view(before).push(c@));
        assert(strs_view(b@).take(k + 1) =~= strs_view(b@).take(k as int).push(b@[k as int]@));
        assert(strs_view(r@) =~= strs_view(a@) + strs_view(b@).take(k + 1));
        k = k + 1;
    }
    assert(strs_view(a@) =~= strs_view(a@).take(a.len() as int));
    assert(strs_view(b@) =~= strs_view(b@).take(b.len() as int));
    r
}

/// The Jaccard similarity of the token sets of two texts, as the pair
/// (shared tokens, tokens in either).
pub fn jaccard_similarity(before: &str, after: &str) -> (r: (usize, usize))
    ensures
        r.0 as nat == similarity(before@, after@).0,
        r.1 as nat == similarity(before@, after@).1,
        r.0 <= r.1,
        r.1 > 0,
{
    proof {
        lemma_similarity_in_unit_range(before@, after@);
    }
    let a = tokenize(before);
    let b = tokenize(after);
    let only_before = strs_minus(&a, &b);
    let total = concat_strs(&b, &only_before);
    assert(strs_view(total@).len() == total@.len());
    assert(strs_view(b@).len() == b@.len());
    if total.len() == 0 {
        return (1, 1);
    }
    let shared = count_common(&a, &b);
    (shared, total.len())
}

/// The tokens of `before` missing from `after`, and those of `after` missing
/// from `before`.
pub fn token_diff(before: &str, after: &str) -> (r: (Vec<String>, Vec<String>))
    ensures
        strs_view(r.0@) == minus(tokens(before@), tokens(after@)),
        strs_view(r.1@) == minus(tokens(after@), tokens(before@)),
{
    let a = tokenize(before);
    let b = tokenize(after);
    (strs_minus(&a, &b), strs_minus(&b, &a))
}

/// `s` without its leading white space.
pub open spec fn trim_start(s: Seq<char>) -> Seq<char>
    decreases s.len(),
{
    if s.len() > 0 && is_space(s[0]) {
        trim_start(s.drop_first())
    } else {
        s
    }
}

/// `s` without its trailing white space.
pub open spec fn trim_end(s: Seq<char>) -> Seq<char>
    decreases s.len(),
{
    if s.len() > 0 && is_space(s.last()) {
        trim_end(s.drop_last())
    } else {
        s
    }
}

/// `s` without white space at either end.
pub open spec fn trim(s: Seq<char>) -> Seq<char> {
    trim_end(trim_start(s))
}

/// `s` without the semicolons at its end.
pub open spec fn strip_semicolons(s: Seq<char>) -> Seq<char>
    decreases s.len(),
{
    if s.len() > 0 && s.last() == ';' {
        strip_semicolons(s.drop_last())
    } else {
        s
    }
}

/// A short value: at most two lines and under 200 characters once trimmed.
pub open spec fn is_short(s: Seq<char>) -> bool {
    lines_of(trim(s)).len() <= 2 && trim(s).len() < 200
}

/// The statement that a value change compares: trimmed, without a final
/// semicolon run, trimmed again.
pub open spec fn value_core(s: Seq<char>) -> Seq<char> {
    trim(strip_semicolons(trim(s)))
}

/// The position of the first `c` in `s`, or its length if it has none.
pub open spec fn first_index(s: Seq<char>, c: char) -> nat
    decreases s.len(),
{
    if s.len() == 0 {
        0
    } else if s[0] == c {
        0
    } else {
        1 + first_index(s.drop_first(), c)
    }
}

/// The value of a statement: what follows its first `=`, trimmed, or the
/// whole statement if it has none.
pub open spec fn rhs(s: Seq<char>) -> Seq<char> {
    let k = first_index(s, '=') as int;
    if k < s.len() {
        trim(s.skip(k + 1))
    } else {
        s
    }
}

/// The old and new literal value of a short change: present when both sides
/// are short and their statements differ.
pub open spec fn value_change(before: Seq<char>, after: Seq<char>) -> Option<
    (Seq<char>, Seq<char>),
> {
    if !is_short(before) || !is_short(after) {
        None
    } else {
        let b = value_core(before);
        let a = value_core(after);
        if b == a {
            None
        } else {
            Some((rhs(b), rhs(a)))
        }
    }
}

/// The bounds of `trim(s[from..to])` within `s`.
pub fn trim_range(s: &Vec<char>, from: usize, to: usize) -> (r: (usize, usize))
    requires
        from <= to <= s.len(),
    ensures
        from <= r.0 <= r.1 <= to,
        s@.subrange(r.0 as int, r.1 as int) == trim(s@.subrange(from as int, to as int)),
{
    let mut i = from;
    while i < to && space_char(s[i])
        invariant
            from <= i <= to <= s.len(),
            trim_start(s@.subrange(from as int, to as int)) == trim_start(
                s@.subrange(i as int, to as int),
            ),
        decreases to - i,
    {
        assert(s@.subrange(i as int, to as int).drop_first() =~= s@.subrange(i + 1, to as int));
        i = i + 1;
    }
    let mut j = to;
    while j > i && space_char(s[j - 1])
        invariant
            from <= i <= j <= to <= s.len(),
            trim_end(s@.subrange(i as int, to as int)) == trim_end(s@.subrange(i as int, j as int)),
        decreases j - i,
    {
        assert(s@.subrange(i as int, j as int).drop_last() =~= s@.subrange(i as int, j - 1));
        j = j - 1;
    }
    (i, j)
}

/// The end of `strip_semicolons(s[from..to])` within `s`.
fn strip_semicolons_end(s: &Vec<char>, from: usize, to: usize) -> (r: usize)
    requires
        from <= to <= s.len(),
    ensures
        from <= r <= to,
        s@.subrange(from as int, r as int) == strip_semicolons(s@.subrange(from as int, to as int)),
{
    let mut j = to;
    while j > from && s[j - 1] == ';'
        invariant
            from <= j <= to <= s.len(),
            strip_semicolons(s@.subrange(from as int, to as int)) == strip_semicolons(
                s@.subrange(from as int, j as int),
            ),
        decreases j - from,
    {
        assert(s@.subrange(from as int, j as int).drop_last() =~= s@.subrange(from as int, j - 1));
        j = j - 1;
    }
    j
}

/// The number of lines of `s`, as `str::lines` counts them.
pub fn count_lines(s: &Vec<char>) -> (r: usize)
    ensures
        r == lines_of(s@).len(),
{
    let mut pos: usize = 0;
    let mut n: usize = 0;
    assert(s@.skip(0) =~= s@);
    while pos < s.len()
        invariant
            pos <= s.len(),
            n <= pos,
            n + lines_of(s@.skip(pos as int)).len() == lines_of(s@).len(),
        decreases s.len() - pos,
    {
        let (_line, next) = next_line(s, pos);
        n = n + 1;
        pos = next;
    }
    assert(s@.skip(pos as int) =~= Seq::<char>::empty());
    n
}

/// The part of `s` between the given bounds, as a vector.
fn sub_vec(s: &Vec<char>, from: usize, to: usize) -> (r: Vec<char>)
    requires
        from <= to <= s.len(),
    ensures
        r@ == s@.subrange(from as int, to as int),
{
    let mut r: Vec<char> = Vec::new();
    let mut k = from;
    while k < to
        invariant
            from <= k <= to <= s.len(),
            r@ == s@.subrange(from as int, k as int),
        decreases to - k,
    {
        r.push(s[k]);
        assert(r@ =~= s@.subrange(from as int, k + 1));
        k = k + 1;
    }
    r
}

/// Whether `s` is short: at most two lines and under 200 characters once
/// trimmed.
pub fn is_short_value(content: &str) -> (r: bool)
    ensures
        r == is_short(content@),
{
    let cs = chars_of(content);
    let (i, j) = trim_range(&cs, 0, cs.len());
    assert(cs@.subrange(0, cs.len() as int) =~= content@);
    let t = sub_vec(&cs, i, j);
    count_lines(&t) <= 2 && j - i < 200
}

/// The bounds of `value_core(s)` within the characters of `s`.
fn core_bounds(cs: &Vec<char>) -> (r: (usize, usize))
    ensures
        r.0 <= r.1 <= cs.len(),
        cs@.subrange(r.0 as int, r.1 as int) == value_core(cs@),
{
    let (i, j) = trim_range(cs, 0, cs.len());
    assert(cs@.subrange(0, cs.len() as int) =~= cs@);
    let j2 = strip_semicolons_end(cs, i, j);
    trim_range(cs, i, j2)
}

/// Whether two ranges of characters are equal.
fn range_eq(a: &Vec<char>, a0: usize, a1: usize, b: &Vec<char>, b0: usize, b1: usize) -> (r: bool)
    requires
        a0 <= a1 <= a.len(),
        b0 <= b1 <= b.len(),
    ensures
        r == (a@.subrange(a0 as int, a1 as int) == b@.subrange(b0 as int, b1 as int)),
{
    if a1 - a0 != b1 - b0 {
        assert(a@.subrange(a0 as int, a1 as int).len() != b@.subrange(b0 as int, b1 as int).len());
        return false;
    }
    let mut k: usize = 0;
    while k < a1 - a0
        invariant
            a0 <= a1 <= a.len(),
            b0 <= b1 <= b.len(),
            a1 - a0 == b1 - b0,
            k <= a1 - a0,
            forall|j: int| 0 <= j < k ==> #[trigger] a@[a0 + j] == b@[b0 + j],
        decreases a1 - a0 - k,
    {
        if a[a0 + k] != b[b0 + k] {
            assert(a@.subrange(a0 as int, a1 as int)[k as int] != b@.subrange(b0 as int, b1 as int)[k as int]);
            return false;
        }
        k = k + 1;
    }
    assert forall|j: int| 0 <= j < a1 - a0 implies a@.subrange(a0 as int, a1 as int)[j]
        == b@.subrange(b0 as int, b1 as int)[j] by {
        assert(a@[a0 + j] == b@[b0 + j]);
    }
    assert(a@.subrange(a0 as int, a1 as int) =~= b@.subrange(b0 as int, b1 as int));
    true
}

/// The value of the statement `s[from..to]`, as `rhs` gives it.
fn rhs_string(s: &Vec<char>, from: usize, to: usize) -> (r: String)
    requires
        from <= to <= s.len(),
    ensures
        r@ == rhs(s@.subrange(from as int, to as int)),
{
    let ghost t = s@.subrange(from as int, to as int);
    let mut k = from;
    while k < to && s[k] != '='
        invariant
            from <= k <= to <= s.len(),
            t == s@.subrange(from as int, to as int),
            first_index(t, '=') == (k - from) + first_index(s@.subrange(k as int, to as int), '='),
        decreases to - k,
    {
        assert(s@.subrange(k as int, to as int).drop_first() =~= s@.subrange(k + 1, to as int));
        k = k + 1;
    }
    if k < to {
        assert(t.skip(k - from + 1) =~= s@.subrange(k + 1, to as int));
        let (i, j) = trim_range(s, k + 1, to);
        string_of(s, i, j)
    } else {
        string_of(s, from, to)
    }
}

/// The literal value that a short change replaces, and the one it puts in.
pub fn extract_value_change(before: &str, after: &str) -> (r: Option<(String, String)>)
    ensures
        match value_change(before@, after@) {
            None => r is None,
            Some((b, a)) => match r {
                Some((rb, ra)) => rb@ == b && ra@ == a,
                None => false,
            },
        },
{
    if !is_short_value(before) || !is_short_value(after) {
        return None;
    }
    let bc = chars_of(before);
    let ac = chars_of(after);
    let (b0, b1) = core_bounds(&bc);
    let (a0, a1) = core_bounds(&ac);
    if range_eq(&bc, b0, b1, &ac, a0, a1) {
        None
    } else {
        Some((rhs_string(&bc, b0, b1), rhs_string(&ac, a0, a1)))
    }
}


/// Triage category of a changed entity.
#[derive(Clone, Copy, Debug, PartialEq, Eq, Structural)]
pub enum ChangeCategory {
    Mechanical,
    NewLogic,
    Behavioral,
}

/// One entity-level change, as the semantic-diff engine reports it.
#[derive(Debug, Clone)]
pub struct SemChange {
    pub change_type: String,
    pub entity_type: String,
    pub entity_name: String,
    pub file_path: String,
    pub old_file_path: Option<String>,
    pub before_content: Option<String>,
    pub after_content: Option<String>,
}

/// A change with its category, its similarity as (shared tokens, tokens in
/// either side), its token differences and its literal-value change.
#[derive(Debug, Clone)]
pub struct CategorizedChange {
    pub category: ChangeCategory,
    pub change_type: String,
    pub entity_type: String,
    pub entity_name: String,
    pub file_path: String,
    pub sim_shared: usize,
    pub sim_union: usize,
    pub removed_tokens: Vec<String>,
    pub added_tokens: Vec<String>,
    pub value_change: Option<(String, String)>,
}

/// The view of an optional string.
pub open spec fn opt_view(o: Option<String>) -> Option<Seq<char>> {
    match o {
        Some(s) => Some(s@),
        None => None,
    }
}

pub struct SemChangeView {
    pub change_type: Seq<char>,
    pub entity_type: Seq<char>,
    pub entity_name: Seq<char>,
    pub file_path: Seq<char>,
    pub old_file_path: Option<Seq<char>>,
    pub before: Option<Seq<char>>,
    pub after: Option<Seq<char>>,
}

pub struct CategorizedView {
    pub category: ChangeCategory,
    pub change_type: Seq<char>,
    pub entity_type: Seq<char>,
    pub entity_name: Seq<char>,
    pub file_path: Seq<char>,
    pub shared: nat,
    pub total: nat,
    pub removed: Seq<Seq<char>>,
    pub added: Seq<Seq<char>>,
    pub value_change: Option<(Seq<char>, Seq<char>)>,
}

impl View for SemChange {
    type V = SemChangeView;

    open spec fn view(&self) -> SemChangeView {
        SemChangeView {
            change_type: self.change_type@,
            entity_type: self.entity_type@,
            entity_name: self.entity_name@,
            file_path: self.file_path@,
            old_file_path: opt_view(self.old_file_path),
            before: opt_view(self.before_content),
            after: opt_view(self.after_content),
        }
    }
}

impl View for CategorizedChange {
    type V = CategorizedView;

    open spec fn view(&self) -> CategorizedView {
        CategorizedView {
            category: self.category,
            change_type: self.change_type@,
            entity_type: self.entity_type@,
            entity_name: self.entity_name@,
            file_path: self.file_path@,
            shared: self.sim_shared as nat,
            total: self.sim_union as nat,
            removed: strs_view(self.removed_tokens@),
            added: strs_view(self.added_tokens@),
            value_change: match self.value_change {
                Some((a, b)) => Some((a@, b@)),
                None => None,
            },
        }
    }
}

/// The category that a similarity (shared, total) gives when no literal value
/// changed: above 0.8 mechanical, under 0.5 new logic, otherwise behavioral.
pub open spec fn category_by_similarity(shared: nat, total: nat) -> ChangeCategory {
    if 5 * shared > 4 * total {
        ChangeCategory::Mechanical
    } else if 2 * shared < total {
        ChangeCategory::NewLogic
    } else {
        ChangeCategory::Behavioral
    }
}

/// The classification of one change. Without a before side the entity is
/// new logic with similarity 0; without an after side, or with neither, it
/// is mechanical with similarity 1; with both, a literal-value change makes
/// it behavioral, and otherwise its similarity decides.
pub open spec fn categorize(c: SemChangeView) -> CategorizedView {
    let base = CategorizedView {
        category: ChangeCategory::Mechanical,
        change_type: c.change_type,
        entity_type: c.entity_type,
        entity_name: c.entity_name,
        file_path: c.file_path,
        shared: 1,
        total: 1,
        removed: seq![],
        added: seq![],
        value_change: None,
    };
    match (c.before, c.after) {
        (None, Some(_)) => CategorizedView { category: ChangeCategory::NewLogic, shared: 0, ..base },
        (Some(b), Some(a)) => {
            let (shared, total) = similarity(b, a);
            let vc = value_change(b, a);
            CategorizedView {
                category: if vc is Some {
                    ChangeCategory::Behavioral
                } else {
                    category_by_similarity(shared, total)
                },
                shared,
                total,
                removed: minus(tokens(b), tokens(a)),
                added: minus(tokens(a), tokens(b)),
                value_change: vc,
                ..base
            }
        },
        _ => base,
    }
}

/// Classifies one change by comparing its before and after content.
pub fn categorize_change(c: &SemChange) -> (r: CategorizedChange)
    ensures
        r@ == categorize(c@),
        r.sim_shared <= r.sim_union,
        r.sim_union > 0,
{
    let mut r = CategorizedChange {
        category: ChangeCategory::Mechanical,
        change_type: c.change_type.clone(),
        entity_type: c.entity_type.clone(),
        entity_name: c.entity_name.clone(),
        file_path: c.file_path.clone(),
        sim_shared: 1,
        sim_union: 1,
        removed_tokens: Vec::new(),
        added_tokens: Vec::new(),
        value_change: None,
    };
    proof {
        assert(strs_view(r.removed_tokens@) =~= Seq::<Seq<char>>::empty());
        assert(strs_view(r.added_tokens@) =~= Seq::<Seq<char>>::empty());
    }
    match &c.before_content {
        None => {
            if c.after_content.is_some() {
                r.category = ChangeCategory::NewLogic;
                r.sim_shared = 0;
            }
        },
        Some(before) => match &c.after_content {
            None => {},
            Some(after) => {
                let (shared, total) = jaccard_similarity(before.as_str(), after.as_str());
                let (removed, added) = token_diff(before.as_str(), after.as_str());
                let vc = extract_value_change(before.as_str(), after.as_str());
                r.category = if vc.is_some() {
                    ChangeCategory::Behavioral
                } else if (shared as u128) * 5 > (total as u128) * 4 {
                    ChangeCategory::Mechanical
                } else if (shared as u128) * 2 < total as u128 {
                    ChangeCategory::NewLogic
                } else {
                    ChangeCategory::Behavioral
                };
                r.sim_shared = shared;
                r.sim_union = total;
                r.removed_tokens = removed;
                r.added_tokens = added;
                r.value_change = vc;
            },
        },
    }
    r
}

proof fn lemma_common_minus_of_subset(a: Seq<Seq<char>>, b: Seq<Seq<char>>)
    requires
        forall|i: int| 0 <= i < a.len() ==> b.contains(#[trigger] a[i]),
    ensures
        common(a, b) == a,
        minus(a, b) == Seq::<Seq<char>>::empty(),
    decreases a.len(),
{
    if a.len() > 0 {
        assert(forall|i: int| 0 <= i < a.drop_last().len() ==> a.drop_last()[i] == a[i]);
        lemma_common_minus_of_subset(a.drop_last(), b);
        assert(b.contains(a[a.len() - 1]));
        assert(a.drop_last().push(a.last()) =~= a);
    }
}

/// A text is fully similar to itself: its similarity has as many shared
/// tokens as tokens in all, a ratio of exactly 1.
pub proof fn lemma_self_similarity(x: Seq<char>)
    ensures
        similarity(x, x).0 == similarity(x, x).1,
        similarity(x, x).1 > 0,
{
    let a = tokens(x);
    assert forall|i: int| 0 <= i < a.len() implies a.contains(#[trigger] a[i]) by {}
    lemma_common_minus_of_subset(a, a);
}

/// Classification depends on the change alone: equal changes are classified
/// alike.
pub proof fn lemma_categorize_deterministic(a: SemChangeView, b: SemChangeView)
    requires
        a == b,
    ensures
        categorize(a) == categorize(b),
{
}

} // verus!
