//! Recognition of the two inclusion directives within a line.

use vstd::prelude::*;
use crate::text::{find_from, lemma_find_from, find_char, slice_of};

verus! {

/// The two inclusion directives.
#[derive(Clone, Copy, Debug, PartialEq, Eq, Structural)]
pub enum Directive {
    /// `\input{name}`: the text is spliced in as it is.
    Input,
    /// `\include{name}`: the text is spliced in between page breaks.
    Include,
}

/// The command word of a directive, backslash included.
pub open spec fn command_of(d: Directive) -> Seq<char> {
    match d {
        Directive::Input => seq!['\\', 'i', 'n', 'p', 'u', 't'],
        Directive::Include => seq!['\\', 'i', 'n', 'c', 'l', 'u', 'd', 'e'],
    }
}

/// The characters with the Unicode `White_Space` property.
pub open spec fn is_space(c: char) -> bool {
    let u = c as u32;
    (0x9 <= u <= 0xd) || u == 0x20 || u == 0x85 || u == 0xa0 || u == 0x1680 || (0x2000 <= u
        <= 0x200a) || u == 0x2028 || u == 0x2029 || u == 0x202f || u == 0x205f || u == 0x3000
}

/// First index `j >= i` of `s` that does not hold white space, or `s.len()`.
pub open spec fn skip_space(s: Seq<char>, i: int) -> int
    decreases s.len() - i,
{
    if i < 0 || i >= s.len() {
        s.len() as int
    } else if is_space(s[i]) {
        skip_space(s, i + 1)
    } else {
        i
    }
}

/// The argument of directive `d` when its command word starts at index `i`
/// of `s`: the command word, optional white space, `{`, one or more
/// characters other than `}`, and `}`.
pub open spec fn match_at(s: Seq<char>, d: Directive, i: int) -> Option<Seq<char>> {
    let cmd = command_of(d);
    if 0 <= i && i + cmd.len() <= s.len() && s.subrange(i, i + cmd.len()) == cmd {
        let k = skip_space(s, i + cmd.len());
        if k < s.len() && s[k] == '{' {
            let m = find_from(s, '}', k + 1);
            if m > k + 1 {
                Some(s.subrange(k + 1, m))
            } else {
                None
            }
        } else {
            None
        }
    } else {
        None
    }
}

/// The argument of the leftmost occurrence of directive `d` in `s` at or
/// after index `i`.
pub open spec fn first_match_from(s: Seq<char>, d: Directive, i: int) -> Option<Seq<char>>
    decreases s.len() - i,
{
    if i < 0 || i >= s.len() {
        None
    } else {
        match match_at(s, d, i) {
            Some(name) => Some(name),
            None => first_match_from(s, d, i + 1),
        }
    }
}

/// The directive that a line carries: `\input` is looked for first, and
/// `\include` only where no `\input` occurs.
pub open spec fn directive_of(s: Seq<char>) -> Option<(Directive, Seq<char>)> {
    match first_match_from(s, Directive::Input, 0) {
        Some(name) => Some((Directive::Input, name)),
        None => match first_match_from(s, Directive::Include, 0) {
            Some(name) => Some((Directive::Include, name)),
            None => None,
        },
    }
}

fn is_space_char(c: char) -> (r: bool)
    ensures
        r == is_space(c),
{
    let u = c as u32;
    (0x9 <= u && u <= 0xd) || u == 0x20 || u == 0x85 || u == 0xa0 || u == 0x1680 || (0x2000 <= u
        && u <= 0x200a) || u == 0x2028 || u == 0x2029 || u == 0x202f || u == 0x205f || u == 0x3000
}

fn command_chars(d: Directive) -> (r: Vec<char>)
    ensures
        r@ == command_of(d),
{
    let r = match d {
        Directive::Input => vec!['\\', 'i', 'n', 'p', 'u', 't'],
        Directive::Include => vec!['\\', 'i', 'n', 'c', 'l', 'u', 'd', 'e'],
    };
    assert(r@ =~= command_of(d));
    r
}

/// Whether `s` holds `w` at index `i`.
fn occurs_at(s: &Vec<char>, w: &Vec<char>, i: usize) -> (r: bool)
    ensures
        r == (i + w@.len() <= s@.len() && s@.subrange(i as int, i + w@.len()) == w@),
{
    if w.len() > s.len() || i > s.len() - w.len() {
        return false;
    }
    let mut j: usize = 0;
    while j < w.len()
        invariant
            j <= w.len(),
            i + w.len() <= s.len(),
            forall|q: int| 0 <= q < j ==> s@[i + q] == w@[q],
        decreases w.len() - j,
    {
        if s[i + j] != w[j] {
            assert(s@.subrange(i as int, i + w@.len())[j as int] != w@[j as int]);
            return false;
        }
        j = j + 1;
    }
    assert(s@.subrange(i as int, i + w@.len()) =~= w@);
    true
}

fn skip_space_from(s: &Vec<char>, i: usize) -> (r: usize)
    ensures
        r as int == skip_space(s@, i as int),
{
    let mut j: usize = i;
    if j > s.len() {
        return s.len();
    }
    while j < s.len()
        invariant
            j <= s.len(),
            skip_space(s@, i as int) == skip_space(s@, j as int),
        decreases s.len() - j,
    {
        if !is_space_char(s[j]) {
            return j;
        }
        j = j + 1;
    }
    j
}

fn match_directive_at(s: &Vec<char>, cmd: &Vec<char>, d: Directive, i: usize) -> (r: Option<
    Vec<char>,
>)
    requires
        cmd@ == command_of(d),
    ensures
        match r {
            Some(v) => match_at(s@, d, i as int) == Some(v@),
            None => match_at(s@, d, i as int) is None,
        },
{
    if !occurs_at(s, cmd, i) {
        return None;
    }
    let n = cmd.len();
    let len = s.len();
    assert(i + n <= len);
    let k = skip_space_from(s, i + n);
    if k >= s.len() || s[k] != '{' {
        return None;
    }
    match find_char(s, '}', k + 1) {
        Some(m) => {
            proof { lemma_find_from(s@, '}', k + 1); }
            if m > k + 1 {
                Some(slice_of(s, k + 1, m))
            } else {
                None
            }
        },
        None => None,
    }
}

/// The argument of the leftmost occurrence of directive `d` in `s`.
pub fn first_match(s: &Vec<char>, d: Directive) -> (r: Option<Vec<char>>)
    ensures
        match r {
            Some(v) => first_match_from(s@, d, 0) == Some(v@),
            None => first_match_from(s@, d, 0) is None,
        },
{
    let cmd = command_chars(d);
    let mut i: usize = 0;
    while i < s.len()
        invariant
            first_match_from(s@, d, 0) == first_match_from(s@, d, i as int),
            cmd@ == command_of(d),
        decreases s.len() - i,
    {
        match match_directive_at(s, &cmd, d, i) {
            Some(name) => {
                return Some(name);
            },
            None => {},
        }
        i = i + 1;
    }
    None
}

/// The directive that a line carries, with its argument.
pub fn find_directive(s: &Vec<char>) -> (r: Option<(Directive, Vec<char>)>)
    ensures
        match r {
            Some((d, v)) => directive_of(s@) == Some((d, v@)),
            None => directive_of(s@) is None,
        },
{
    match first_match(s, Directive::Input) {
        Some(name) => Some((Directive::Input, name)),
        None => match first_match(s, Directive::Include) {
            Some(name) => Some((Directive::Include, name)),
            None => None,
        },
    }
}

} // verus!
