//! Character-level text handling: line splitting, comment cutting and
//! conversion between strings and character vectors.

use vstd::prelude::*;

verus! {

/// First index `j >= i` with `s[j] == c`, or -1 when there is none.
pub open spec fn find_from(s: Seq<char>, c: char, i: int) -> int
    decreases s.len() - i,
{
    if i < 0 || i >= s.len() {
        -1
    } else if s[i] == c {
        i
    } else {
        find_from(s, c, i + 1)
    }
}

/// What `find_from` returns, stated without recursion.
pub proof fn lemma_find_from(s: Seq<char>, c: char, i: int)
    requires
        0 <= i,
    ensures
        ({
            let r = find_from(s, c, i);
            &&& r == -1 || (i <= r < s.len() && s[r] == c)
            &&& forall|j: int| i <= j < (if r == -1 { s.len() as int } else { r }) ==> s[j] != c
        }),
    decreases s.len() - i,
{
    if i < s.len() && s[i] != c {
        lemma_find_from(s, c, i + 1);
    }
}

/// Drops one carriage return that ends a line.
pub open spec fn strip_cr(line: Seq<char>) -> Seq<char> {
    if line.len() > 0 && line.last() == '\r' {
        line.drop_last()
    } else {
        line
    }
}

/// The lines of `t` from position `pos` on, as `str::lines` gives them:
/// split at `\n`, a `\r` before the `\n` removed, no empty line after a
/// final line ending.
pub open spec fn lines_from(t: Seq<char>, pos: int) -> Seq<Seq<char>>
    decreases t.len() - pos
    via lines_from_decreases
{
    if pos < 0 || pos >= t.len() {
        Seq::empty()
    } else {
        let k = find_from(t, '\n', pos);
        if k < 0 {
            seq![t.subrange(pos, t.len() as int)]
        } else {
            seq![strip_cr(t.subrange(pos, k))] + lines_from(t, k + 1)
        }
    }
}

#[via_fn]
proof fn lines_from_decreases(t: Seq<char>, pos: int) {
    if 0 <= pos {
        lemma_find_from(t, '\n', pos);
    }
}

/// The lines of a whole text.
pub open spec fn lines_of(t: Seq<char>) -> Seq<Seq<char>> {
    lines_from(t, 0)
}

/// A line with everything from its first `%` on removed.
pub open spec fn cut_comment(line: Seq<char>) -> Seq<char> {
    let k = find_from(line, '%', 0);
    if k < 0 {
        line
    } else {
        line.subrange(0, k)
    }
}

/// The views of a vector of character vectors.
pub open spec fn views_of(v: Seq<Vec<char>>) -> Seq<Seq<char>> {
    v.map_values(|l: Vec<char>| l@)
}

/// The characters of a string.
pub fn chars_of(s: &str) -> (r: Vec<char>)
    ensures
        r@ == s@,
{
    let mut v: Vec<char> = Vec::new();
    for c in it: s.chars()
        invariant
            v@ == it.seq().subrange(0, it.index() as int),
    {
        v.push(c);
    }
    v
}

/// Relies on `FromIterator<char>` for `String`: the string holds the
/// characters in the order given.
#[verifier::external_body]
pub fn text_of(v: &Vec<char>) -> (r: String)
    ensures
        r@ == v@,
{
    v.iter().collect()
}

/// Index of the first `c` in `s` at or after `i`, or `None`.
pub fn find_char(s: &Vec<char>, c: char, i: usize) -> (r: Option<usize>)
    ensures
        match r {
            Some(k) => find_from(s@, c, i as int) == k as int,
            None => find_from(s@, c, i as int) == -1,
        },
{
    let mut j: usize = i;
    while j < s.len()
        invariant
            i <= j,
            find_from(s@, c, i as int) == find_from(s@, c, j as int),
        decreases s.len() - j,
    {
        if s[j] == c {
            return Some(j);
        }
        j = j + 1;
    }
    None
}

/// The characters of `s` from `from` up to `to`.
pub fn slice_of(s: &Vec<char>, from: usize, to: usize) -> (r: Vec<char>)
    requires
        from <= to <= s.len(),
    ensures
        r@ == s@.subrange(from as int, to as int),
{
    let mut v: Vec<char> = Vec::new();
    let mut j: usize = from;
    while j < to
        invariant
            from <= j <= to <= s.len(),
            v@ == s@.subrange(from as int, j as int),
        decreases to - j,
    {
        v.push(s[j]);
        j = j + 1;
    }
    v
}

/// Appends the characters of `s` to `out`.
pub fn push_all(out: &mut Vec<char>, s: &Vec<char>)
    ensures
        final(out)@ == old(out)@ + s@,
{
    let mut j: usize = 0;
    while j < s.len()
        invariant
            j <= s.len(),
            out@ == old(out)@ + s@.subrange(0, j as int),
        decreases s.len() - j,
    {
        out.push(s[j]);
        j = j + 1;
    }
}

/// Splits a text into lines, as `lines_of` states.
pub fn split_lines(t: &Vec<char>) -> (r: Vec<Vec<char>>)
    ensures
        views_of(r@) == lines_of(t@),
{
    let mut acc: Vec<Vec<char>> = Vec::new();
    let mut pos: usize = 0;
    while pos < t.len()
        invariant
            pos <= t.len(),
            lines_of(t@) == views_of(acc@) + lines_from(t@, pos as int),
        decreases t.len() - pos,
    {
        let ghost old_acc = acc@;
        match find_char(t, '\n', pos) {
            Some(k) => {
                proof { lemma_find_from(t@, '\n', pos as int); }
                let mut line = slice_of(t, pos, k);
                if line.len() > 0 && line[line.len() - 1] == '\r' {
                    line.pop();
                }
                acc.push(line);
                assert(views_of(acc@) =~= views_of(old_acc) + seq![strip_cr(t@.subrange(pos as int, k as int))]);
                pos = k + 1;
            },
            None => {
                let line = slice_of(t, pos, t.len());
                acc.push(line);
                assert(views_of(acc@) =~= views_of(old_acc) + seq![t@.subrange(pos as int, t.len() as int)]);
                pos = t.len();
            },
        }
    }
    assert(lines_from(t@, pos as int) == Seq::<Seq<char>>::empty());
    assert(views_of(acc@) =~= lines_of(t@));
    acc
}

/// Cuts a line at its first `%`, as `cut_comment` states.
pub fn cut_comment_of(line: &Vec<char>) -> (r: Vec<char>)
    ensures
        r@ == cut_comment(line@),
{
    match find_char(line, '%', 0) {
        Some(k) => {
            proof { lemma_find_from(line@, '%', 0); }
            slice_of(line, 0, k)
        },
        None => line.clone(),
    }
}

} // verus!
