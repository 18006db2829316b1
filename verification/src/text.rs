//! Character-level text model: whitespace, line splitting, and the
//! line-cleaning rules that the SLOP parser builds on, together with the
//! executable helpers that realize them.

use vstd::prelude::*;
use vstd::string::StrSliceExecFns;

verus! {

/// The Unicode `White_Space` code points: the characters that
/// leading-whitespace stripping removes from a line.
pub open spec fn is_slop_ws(c: char) -> bool {
    let u = c as u32;
    u == 0x09 || u == 0x0a || u == 0x0b || u == 0x0c || u == 0x0d || u == 0x20 || u == 0x85
        || u == 0xa0 || u == 0x1680 || (0x2000 <= u && u <= 0x200a) || u == 0x2028 || u == 0x2029
        || u == 0x202f || u == 0x205f || u == 0x3000
}

/// Decides [`is_slop_ws`].
pub fn is_ws_char(c: char) -> (r: bool)
    ensures
        r == is_slop_ws(c),
{
    let u = c as u32;
    u == 0x09 || u == 0x0a || u == 0x0b || u == 0x0c || u == 0x0d || u == 0x20 || u == 0x85
        || u == 0xa0 || u == 0x1680 || (0x2000 <= u && u <= 0x200a) || u == 0x2028 || u == 0x2029
        || u == 0x202f || u == 0x205f || u == 0x3000
}

/// Index of the first occurrence of `c` in `s`, or `-1` if `c` does not occur.
pub open spec fn find_char(s: Seq<char>, c: char) -> int
    decreases s.len(),
{
    if s.len() == 0 {
        -1
    } else if s[0] == c {
        0
    } else if find_char(s.drop_first(), c) < 0 {
        -1
    } else {
        1 + find_char(s.drop_first(), c)
    }
}

/// `find_char` returns either `-1` (no occurrence) or the first index of `c`.
pub proof fn lemma_find_char(s: Seq<char>, c: char)
    ensures
        find_char(s, c) >= 0 ==> find_char(s, c) < s.len() && s[find_char(s, c)] == c && (forall|
            i: int,
        | 0 <= i < find_char(s, c) ==> s[i] != c),
        find_char(s, c) < 0 ==> find_char(s, c) == -1 && (forall|i: int|
            0 <= i < s.len() ==> s[i] != c),
    decreases s.len(),
{
    if s.len() > 0 && s[0] != c {
        lemma_find_char(s.drop_first(), c);
        assert(forall|i: int| 1 <= i < s.len() ==> s[i] == s.drop_first()[i - 1]);
    }
}

/// If `c` first occurs at index `k`, then `find_char` returns `k`.
pub proof fn lemma_find_char_is(s: Seq<char>, c: char, k: int)
    requires
        0 <= k < s.len(),
        s[k] == c,
        forall|i: int| 0 <= i < k ==> s[i] != c,
    ensures
        find_char(s, c) == k,
    decreases s.len(),
{
    if k > 0 {
        assert(forall|i: int| 0 <= i < k - 1 ==> s.drop_first()[i] == s[i + 1]);
        lemma_find_char_is(s.drop_first(), c, k - 1);
    }
}

/// Index of the first occurrence of `c` in `cs`, if any.
pub fn find_char_in(cs: &Vec<char>, c: char) -> (r: Option<usize>)
    ensures
        match r {
            Some(i) => find_char(cs@, c) == i as int,
            None => find_char(cs@, c) == -1,
        },
{
    let mut i: usize = 0;
    while i < cs.len()
        invariant
            i <= cs@.len(),
            forall|j: int| 0 <= j < i ==> cs@[j] != c,
        decreases cs@.len() - i,
    {
        if cs[i] == c {
            proof {
                lemma_find_char_is(cs@, c, i as int);
            }
            return Some(i);
        }
        i += 1;
    }
    proof {
        lemma_find_char(cs@, c);
    }
    None
}

/// Removes one trailing carriage return, if present.
pub open spec fn cr_strip(s: Seq<char>) -> Seq<char> {
    if s.len() > 0 && s[s.len() - 1] == '\r' {
        s.drop_last()
    } else {
        s
    }
}

/// Length of the maximal whitespace prefix of `s`.
pub open spec fn ws_prefix_len(s: Seq<char>) -> int
    decreases s.len(),
{
    if s.len() > 0 && is_slop_ws(s[0]) {
        1 + ws_prefix_len(s.drop_first())
    } else {
        0
    }
}

/// `ws_prefix_len` marks the first non-whitespace character.
pub proof fn lemma_ws_prefix(s: Seq<char>)
    ensures
        0 <= ws_prefix_len(s) <= s.len(),
        forall|i: int| 0 <= i < ws_prefix_len(s) ==> is_slop_ws(s[i]),
        ws_prefix_len(s) < s.len() ==> !is_slop_ws(s[ws_prefix_len(s)]),
    decreases s.len(),
{
    if s.len() > 0 && is_slop_ws(s[0]) {
        lemma_ws_prefix(s.drop_first());
        assert(forall|i: int| 1 <= i < s.len() ==> s[i] == s.drop_first()[i - 1]);
    }
}

/// If the whitespace prefix of `s` ends exactly at `k`, then
/// `ws_prefix_len` returns `k`.
pub proof fn lemma_ws_prefix_is(s: Seq<char>, k: int)
    requires
        0 <= k <= s.len(),
        forall|i: int| 0 <= i < k ==> is_slop_ws(s[i]),
        k < s.len() ==> !is_slop_ws(s[k]),
    ensures
        ws_prefix_len(s) == k,
    decreases s.len(),
{
    if k > 0 {
        assert(forall|i: int| 0 <= i < s.len() - 1 ==> s.drop_first()[i] == s[i + 1]);
        lemma_ws_prefix_is(s.drop_first(), k - 1);
    }
}

/// Removes the leading whitespace of `s`.
pub open spec fn trim_start(s: Seq<char>) -> Seq<char> {
    s.skip(ws_prefix_len(s))
}

/// The cleaned form of a raw input line: one trailing carriage return
/// removed, then leading whitespace stripped.
pub open spec fn clean_line(s: Seq<char>) -> Seq<char> {
    trim_start(cr_strip(s))
}

/// A text that fits on one line: it holds no newline.
pub open spec fn line_safe(s: Seq<char>) -> bool {
    forall|i: int| 0 <= i < s.len() ==> s[i] != '\n'
}

/// Cleaning a line keeps it newline-free, keeps its first character
/// non-whitespace, and only drops characters.
pub proof fn lemma_clean_line_shape(s: Seq<char>)
    ensures
        line_safe(s) ==> line_safe(clean_line(s)),
        clean_line(s).len() > 0 ==> !is_slop_ws(clean_line(s)[0]),
{
    let c = cr_strip(s);
    assert(forall|x: int| 0 <= x < c.len() ==> c[x] == s[x]);
    lemma_ws_prefix(c);
    let w = ws_prefix_len(c);
    assert(forall|x: int| 0 <= x < clean_line(s).len() ==> clean_line(s)[x] == c[x + w]);
}

/// Every line of a split text is newline-free.
pub proof fn lemma_split_lines_safe(s: Seq<char>)
    ensures
        forall|m: int| 0 <= m < split_lines(s).len() ==> line_safe(#[trigger] split_lines(s)[m]),
    decreases s.len(),
{
    if s.len() == 0 {
    } else if s[0] == '\n' {
        lemma_split_lines_safe(s.drop_first());
        assert(forall|m: int|
            1 <= m < split_lines(s).len() ==> split_lines(s)[m] == split_lines(s.drop_first())[m
                - 1]);
        assert(line_safe(split_lines(s)[0]));
    } else {
        lemma_split_lines_safe(s.drop_first());
        let rest = split_lines(s.drop_first());
        lemma_split_lines_nonempty(s.drop_first());
        assert(split_lines(s)[0] == seq![s[0]] + rest[0]);
        assert(line_safe(seq![s[0]] + rest[0]));
        assert(forall|m: int| 1 <= m < split_lines(s).len() ==> split_lines(s)[m] == rest[m]);
    }
}

/// A line that ends in no carriage return and starts with no whitespace is
/// left unchanged by cleaning.
pub proof fn lemma_clean_line_noop(s: Seq<char>)
    requires
        s.len() > 0 ==> s[s.len() - 1] != '\r',
        s.len() > 0 ==> !is_slop_ws(s[0]),
    ensures
        clean_line(s) == s,
{
    assert(cr_strip(s) == s);
    assert(ws_prefix_len(s) == 0);
    assert(s.skip(0) =~= s);
}

/// The lines of `s`: maximal `'\n'`-free runs, with the separators removed.
/// There is always one line more than there are `'\n'` characters, so the
/// result is never empty.
pub open spec fn split_lines(s: Seq<char>) -> Seq<Seq<char>>
    decreases s.len(),
{
    if s.len() == 0 {
        seq![Seq::<char>::empty()]
    } else if s[0] == '\n' {
        seq![Seq::<char>::empty()] + split_lines(s.drop_first())
    } else {
        let rest = split_lines(s.drop_first());
        seq![seq![s[0]] + rest[0]] + rest.drop_first()
    }
}

/// `split_lines` never returns an empty sequence of lines.
pub proof fn lemma_split_lines_nonempty(s: Seq<char>)
    ensures
        split_lines(s).len() >= 1,
    decreases s.len(),
{
    if s.len() > 0 {
        lemma_split_lines_nonempty(s.drop_first());
    }
}

/// Splitting a newline-terminated line off the front: if `l` holds no
/// newline, the lines of `l + "\n" + rest` are `l` followed by the lines of
/// `rest`.
pub proof fn lemma_split_lines_step(l: Seq<char>, rest: Seq<char>)
    requires
        forall|i: int| 0 <= i < l.len() ==> l[i] != '\n',
    ensures
        split_lines(l + seq!['\n'] + rest) == seq![l] + split_lines(rest),
    decreases l.len(),
{
    let s = l + seq!['\n'] + rest;
    if l.len() == 0 {
        assert(s[0] == '\n');
        assert(s.drop_first() =~= rest);
        assert(l =~= Seq::<char>::empty());
        assert(split_lines(s) == seq![Seq::<char>::empty()] + split_lines(s.drop_first()));
        assert(split_lines(s) =~= seq![l] + split_lines(rest));
    } else {
        assert(s[0] == l[0]);
        assert(s[0] != '\n');
        assert(forall|i: int| 0 <= i < l.len() - 1 ==> l.drop_first()[i] == l[i + 1]);
        assert(s.drop_first() =~= l.drop_first() + seq!['\n'] + rest);
        lemma_split_lines_step(l.drop_first(), rest);
        let r = split_lines(s.drop_first());
        assert(r == seq![l.drop_first()] + split_lines(rest));
        lemma_split_lines_nonempty(rest);
        assert(r[0] == l.drop_first());
        assert(seq![s[0]] + r[0] =~= l);
        assert(r.drop_first() =~= split_lines(rest));
        assert(split_lines(s) == seq![seq![s[0]] + r[0]] + r.drop_first());
        assert(split_lines(s) =~~= seq![l] + split_lines(rest));
    }
}

/// A copy of `line` with one trailing carriage return removed, if present.
pub fn cr_strip_line(line: &Vec<char>) -> (r: Vec<char>)
    ensures
        r@ == cr_strip(line@),
{
    let mut end: usize = line.len();
    if end > 0 && line[end - 1] == '\r' {
        end -= 1;
        proof {
            assert(cr_strip(line@) =~= line@.subrange(0, end as int));
        }
    } else {
        proof {
            assert(cr_strip(line@) =~= line@.subrange(0, end as int));
        }
    }
    copy_range(line, 0, end)
}

/// The cleaned form of `line`: one trailing carriage return removed, then
/// leading whitespace stripped.
pub fn clean_up_line(line: &Vec<char>) -> (r: Vec<char>)
    ensures
        r@ == clean_line(line@),
{
    let mut end: usize = line.len();
    if end > 0 && line[end - 1] == '\r' {
        end -= 1;
    }
    let ghost c = cr_strip(line@);
    proof {
        assert(c =~= line@.subrange(0, end as int));
    }
    let mut start: usize = 0;
    while start < end && is_ws_char(line[start])
        invariant
            start <= end <= line@.len(),
            c == line@.subrange(0, end as int),
            forall|j: int| 0 <= j < start ==> is_slop_ws(c[j]),
        decreases end - start,
    {
        start += 1;
    }
    proof {
        lemma_ws_prefix_is(c, start as int);
        assert(line@.subrange(start as int, end as int) =~= c.skip(start as int));
    }
    copy_range(line, start, end)
}

/// The characters of `s`, in order, as a vector.
pub fn chars_of_str(s: &str) -> (r: Vec<char>)
    ensures
        r@ == s@,
{
    let n = s.unicode_len();
    let mut r: Vec<char> = Vec::new();
    let mut i: usize = 0;
    while i < n
        invariant
            i <= n,
            n == s@.len(),
            r@ == s@.take(i as int),
        decreases n - i,
    {
        let c = s.get_char(i);
        r.push(c);
        proof {
            assert(s@.take(i + 1) =~= s@.take(i as int).push(s@[i as int]));
        }
        i += 1;
    }
    proof {
        assert(s@.take(n as int) =~= s@);
    }
    r
}

/// Relies on `<String as FromIterator<char>>::from_iter` (through
/// `Iterator::collect`): collecting characters builds the string of exactly
/// those characters, in order.
#[verifier::external_body]
pub(crate) fn string_from_chars(cs: &Vec<char>) -> (r: String)
    ensures
        r@ == cs@,
{
    cs.iter().collect()
}

/// Whether two string slices hold the same characters.
pub fn str_eq(a: &str, b: &str) -> (r: bool)
    ensures
        r == (a@ == b@),
{
    let n = a.unicode_len();
    let m = b.unicode_len();
    if n != m {
        return false;
    }
    let mut i: usize = 0;
    while i < n
        invariant
            i <= n,
            n == a@.len(),
            n == b@.len(),
            forall|j: int| 0 <= j < i ==> a@[j] == b@[j],
        decreases n - i,
    {
        if a.get_char(i) != b.get_char(i) {
            return false;
        }
        i += 1;
    }
    proof {
        assert(a@ =~= b@);
    }
    true
}

/// The characters of `cs` from `from` (inclusive) to `to` (exclusive).
pub fn copy_range(cs: &Vec<char>, from: usize, to: usize) -> (r: Vec<char>)
    requires
        from <= to <= cs@.len(),
    ensures
        r@ == cs@.subrange(from as int, to as int),
{
    let mut r: Vec<char> = Vec::new();
    let mut i: usize = from;
    while i < to
        invariant
            from <= i <= to <= cs@.len(),
            r@ == cs@.subrange(from as int, i as int),
        decreases to - i,
    {
        r.push(cs[i]);
        proof {
            assert(cs@.subrange(from as int, i + 1) =~= cs@.subrange(from as int, i as int).push(
                cs@[i as int],
            ));
        }
        i += 1;
    }
    r
}

/// The view of each line vector, as a sequence of character sequences.
pub open spec fn lines_view(lines: Seq<Vec<char>>) -> Seq<Seq<char>> {
    lines.map_values(|l: Vec<char>| l@)
}

/// Prefixing the first of a non-empty family of lines.
spec fn prepend_first(p: Seq<char>, ls: Seq<Seq<char>>) -> Seq<Seq<char>> {
    seq![p + ls[0]] + ls.drop_first()
}

/// Splits `cs` into its lines.
pub fn split_lines_exec(cs: &Vec<char>) -> (r: Vec<Vec<char>>)
    ensures
        lines_view(r@) == split_lines(cs@),
        r@.len() >= 1,
{
    let mut lines: Vec<Vec<char>> = Vec::new();
    let mut cur: Vec<char> = Vec::new();
    let mut i: usize = 0;
    proof {
        assert(cs@.skip(0) =~= cs@);
        lemma_split_lines_nonempty(cs@);
        assert(prepend_first(cur@, split_lines(cs@)) =~= split_lines(cs@));
        assert(lines_view(lines@) + prepend_first(cur@, split_lines(cs@)) =~= split_lines(cs@));
    }
    while i < cs.len()
        invariant
            i <= cs@.len(),
            split_lines(cs@) == lines_view(lines@) + prepend_first(
                cur@,
                split_lines(cs@.skip(i as int)),
            ),
        decreases cs@.len() - i,
    {
        let c = cs[i];
        proof {
            let tail = cs@.skip(i as int);
            assert(tail.len() > 0);
            assert(tail[0] == cs@[i as int]);
            assert(tail.drop_first() =~= cs@.skip(i + 1));
        }
        if c == '\n' {
            proof {
                let tail = cs@.skip(i as int);
                let rest = split_lines(cs@.skip(i + 1));
                assert(split_lines(tail) =~= seq![Seq::<char>::empty()] + rest);
                lemma_split_lines_nonempty(cs@.skip(i + 1));
                assert(prepend_first(cur@, split_lines(tail)) =~= seq![cur@] + rest);
                assert(lines_view(lines@.push(cur)) =~= lines_view(lines@).push(cur@));
            }
            let done = cur;
            lines.push(done);
            cur = Vec::new();
            proof {
                let rest = split_lines(cs@.skip(i + 1));
                assert(prepend_first(Seq::<char>::empty(), rest) =~= rest);
                lemma_split_lines_nonempty(cs@.skip(i + 1));
                assert(split_lines(cs@) =~= lines_view(lines@) + prepend_first(
                    Seq::<char>::empty(),
                    rest,
                ));
            }
        } else {
            proof {
                let tail = cs@.skip(i as int);
                let rest = split_lines(cs@.skip(i + 1));
                lemma_split_lines_nonempty(cs@.skip(i + 1));
                assert(split_lines(tail) =~= seq![seq![tail[0]] + rest[0]] + rest.drop_first());
                assert(cur@ + (seq![c] + rest[0]) =~= cur@.push(c) + rest[0]);
                assert(prepend_first(cur@, split_lines(tail)) =~= prepend_first(
                    cur@.push(c),
                    rest,
                ));
            }
            cur.push(c);
        }
        i += 1;
    }
    proof {
        assert(cs@.skip(cs@.len() as int) =~= Seq::<char>::empty());
        assert(split_lines(Seq::<char>::empty()) =~= seq![Seq::<char>::empty()]);
        let rest = split_lines(cs@.skip(cs@.len() as int));
        assert(prepend_first(cur@, rest) =~= seq![cur@]);
        assert(lines_view(lines@.push(cur)) =~= lines_view(lines@).push(cur@));
    }
    lines.push(cur);
    proof {
        assert(lines_view(lines@) =~= split_lines(cs@));
    }
    lines
}

} // verus!
