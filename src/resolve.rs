//! Finding the file that a directive names.

use vstd::prelude::*;
use crate::files::{FileState, FileTable, FileView};
use crate::paths::{join_path, joined};
use crate::text::{chars_of, push_all, text_of};

verus! {

/// Where a directive's name leads.
#[derive(Debug)]
pub enum Resolution {
    /// The first candidate path that exists.
    Found(String),
    /// No candidate path exists.
    NotFound,
    /// This candidate path has not been probed yet; it decides the answer.
    Unknown(String),
}

/// The mathematical value of a `Resolution`.
pub enum ResolutionView {
    Found(Seq<char>),
    NotFound,
    Unknown(Seq<char>),
}

impl View for Resolution {
    type V = ResolutionView;

    open spec fn view(&self) -> ResolutionView {
        match self {
            Resolution::Found(p) => ResolutionView::Found(p@),
            Resolution::NotFound => ResolutionView::NotFound,
            Resolution::Unknown(p) => ResolutionView::Unknown(p@),
        }
    }
}

/// Number of suffixes that are tried.
pub const SUFFIX_COUNT: usize = 3;

/// The suffixes tried in turn: none, `.tex`, `.latex`.
pub open spec fn suffix(k: int) -> Seq<char> {
    if k == 0 {
        Seq::empty()
    } else if k == 1 {
        seq!['.', 't', 'e', 'x']
    } else {
        seq!['.', 'l', 'a', 't', 'e', 'x']
    }
}

/// The path tried for `name` with suffix number `k`.
pub open spec fn candidate(base: Seq<char>, name: Seq<char>, k: int) -> Seq<char> {
    joined(base, name + suffix(k))
}

/// Resolution of `name` against the table, trying suffixes from number `k` on.
pub open spec fn resolve_from(
    tbl: Map<Seq<char>, FileView>,
    base: Seq<char>,
    name: Seq<char>,
    k: int,
) -> ResolutionView
    decreases SUFFIX_COUNT - k,
{
    if k < 0 || k >= SUFFIX_COUNT {
        ResolutionView::NotFound
    } else {
        let c = candidate(base, name, k);
        if !tbl.contains_key(c) {
            ResolutionView::Unknown(c)
        } else if tbl[c] is Missing {
            resolve_from(tbl, base, name, k + 1)
        } else {
            ResolutionView::Found(c)
        }
    }
}

/// The first candidate path, in suffix order, that exists.
pub open spec fn resolve(
    tbl: Map<Seq<char>, FileView>,
    base: Seq<char>,
    name: Seq<char>,
) -> ResolutionView {
    resolve_from(tbl, base, name, 0)
}

/// A found path is one that the table knows to exist.
pub proof fn lemma_resolve_found(
    tbl: Map<Seq<char>, FileView>,
    base: Seq<char>,
    name: Seq<char>,
    k: int,
)
    ensures
        resolve_from(tbl, base, name, k) is Found ==> {
            let p = resolve_from(tbl, base, name, k)->Found_0;
            tbl.contains_key(p) && !(tbl[p] is Missing)
        },
    decreases SUFFIX_COUNT - k,
{
    if 0 <= k < SUFFIX_COUNT {
        lemma_resolve_found(tbl, base, name, k + 1);
    }
}

fn suffix_chars(k: usize) -> (r: Vec<char>)
    ensures
        r@ == suffix(k as int),
{
    let r = if k == 0 {
        Vec::new()
    } else if k == 1 {
        vec!['.', 't', 'e', 'x']
    } else {
        vec!['.', 'l', 'a', 't', 'e', 'x']
    };
    assert(r@ =~= suffix(k as int));
    r
}

/// Finds the file that `filename` names in `base_dir`: the name as it is,
/// then with `.tex`, then with `.latex`, the first that exists.
pub fn resolve_latex_file_path(tbl: &FileTable, base_dir: &str, filename: &str) -> (r: Resolution)
    ensures
        r@ == resolve(tbl@, base_dir@, filename@),
{
    let name = chars_of(filename);
    let mut k: usize = 0;
    while k < SUFFIX_COUNT
        invariant
            name@ == filename@,
            resolve(tbl@, base_dir@, filename@) == resolve_from(tbl@, base_dir@, filename@, k as int),
        decreases SUFFIX_COUNT - k,
    {
        let mut full = name.clone();
        push_all(&mut full, &suffix_chars(k));
        let full_text = text_of(&full);
        let path = join_path(base_dir, full_text.as_str());
        match tbl.lookup(&path) {
            None => {
                return Resolution::Unknown(path);
            },
            Some(FileState::Missing) => {},
            Some(_) => {
                return Resolution::Found(path);
            },
        }
        k = k + 1;
    }
    Resolution::NotFound
}

} // verus!
