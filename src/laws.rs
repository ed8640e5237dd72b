//! Properties of expansion that hold for every file table and every text.

use vstd::prelude::*;
use crate::directive::{directive_of, Directive};
use crate::expand::{expand_lines, line_action, line_outcome, render, LineAction, Outcome, Piece};
use crate::files::FileView;
use crate::paths::joined;
use crate::resolve::{resolve, suffix, ResolutionView};
use crate::text::{cut_comment, find_from, lines_of};

verus! {

/// The paths of the begin markers among `ps`, in order.
pub open spec fn begins(ps: Seq<Piece>) -> Seq<Seq<char>>
    decreases ps.len(),
{
    if ps.len() == 0 {
        Seq::empty()
    } else {
        begins(ps.drop_last()) + match ps.last() {
            Piece::Begin(p) => seq![p],
            _ => Seq::empty(),
        }
    }
}

proof fn lemma_begins_concat(a: Seq<Piece>, b: Seq<Piece>)
    ensures
        begins(a + b) == begins(a) + begins(b),
    decreases b.len(),
{
    if b.len() == 0 {
        assert(a + b =~= a);
        assert(begins(a) + begins(b) =~= begins(a));
    } else {
        lemma_begins_concat(a, b.drop_last());
        assert((a + b).drop_last() =~= a + b.drop_last());
        assert(begins(a + b) =~= begins(a) + begins(b));
    }
}

proof fn lemma_begins_single(x: Piece)
    ensures
        begins(seq![x]) == match x {
            Piece::Begin(p) => seq![p],
            _ => Seq::<Seq<char>>::empty(),
        },
{
    assert(seq![x].drop_last() =~= Seq::<Piece>::empty());
    assert(begins(seq![x]) =~= begins(Seq::<Piece>::empty()) + match x {
        Piece::Begin(p) => seq![p],
        _ => Seq::<Seq<char>>::empty(),
    });
}

/// What holds of the pieces and taken paths of a finished expansion that
/// started with `visited` taken: no path taken twice, each begin marker
/// names a distinct path, and the begin markers name exactly the newly
/// taken paths whose text could be read.
pub open spec fn markers_exact(
    tbl: Map<Seq<char>, FileView>,
    visited: Set<Seq<char>>,
    o: Outcome,
) -> bool {
    match o {
        Outcome::Need(_) => true,
        Outcome::Done(ps, added) => {
            &&& added.disjoint(visited)
            &&& begins(ps).no_duplicates()
            &&& forall|x: Seq<char>| #[trigger]
                begins(ps).contains(x) <==> (added.contains(x) && tbl.contains_key(x)
                    && tbl[x] is Text)
        },
    }
}

/// Each file is spliced in at most once: its begin marker appears once,
/// and the begin markers are exactly the files that the traversal took and
/// could read; no file taken before is taken again.
pub proof fn lemma_expand_markers(
    tbl: Map<Seq<char>, FileView>,
    lines: Seq<Seq<char>>,
    base: Seq<char>,
    keep_comments: bool,
    visited: Set<Seq<char>>,
)
    requires
        tbl.dom().finite(),
    ensures
        markers_exact(tbl, visited, expand_lines(tbl, lines, base, keep_comments, visited)),
    decreases crate::expand::untaken(tbl, visited), lines.len(),
{
    if lines.len() > 0 {
        lemma_line_markers(tbl, lines[0], base, keep_comments, visited);
        match line_outcome(tbl, lines[0], base, keep_comments, visited) {
            Outcome::Done(ps1, a1) => {
                crate::expand::lemma_untaken_mono(tbl, visited, visited.union(a1));
                let rest = lines.drop_first();
                let v1 = visited.union(a1);
                lemma_expand_markers(tbl, rest, base, keep_comments, v1);
                match expand_lines(tbl, rest, base, keep_comments, v1) {
                    Outcome::Done(ps2, a2) => {
                        lemma_begins_concat(ps1, ps2);
                        let b1 = begins(ps1);
                        let b2 = begins(ps2);
                        assert forall|i: int, j: int|
                            0 <= i < (b1 + b2).len() && 0 <= j < (b1 + b2).len() && i != j
                                implies (b1 + b2)[i] != (b1 + b2)[j] by {
                            if i < b1.len() && j >= b1.len() {
                                assert(b1.contains(b1[i]));
                                assert(b2.contains(b2[j - b1.len()]));
                            } else if j < b1.len() && i >= b1.len() {
                                assert(b1.contains(b1[j]));
                                assert(b2.contains(b2[i - b1.len()]));
                            }
                        }
                        assert forall|x: Seq<char>| #[trigger]
                            (b1 + b2).contains(x) <==> (a1.union(a2).contains(x)
                                && tbl.contains_key(x) && tbl[x] is Text) by {
                            if b1.contains(x) {
                                let i = choose|i: int| 0 <= i < b1.len() && b1[i] == x;
                                assert((b1 + b2)[i] == x);
                            }
                            if b2.contains(x) {
                                let i = choose|i: int| 0 <= i < b2.len() && b2[i] == x;
                                assert((b1 + b2)[b1.len() + i] == x);
                            }
                            if (b1 + b2).contains(x) {
                                let i = choose|i: int| 0 <= i < (b1 + b2).len() && (b1 + b2)[i] == x;
                                if i < b1.len() {
                                    assert(b1[i] == x);
                                } else {
                                    assert(b2[i - b1.len()] == x);
                                }
                            }
                        }
                    },
                    Outcome::Need(_) => {},
                }
            },
            Outcome::Need(_) => {},
        }
    }
}

/// The same properties for the expansion of one line.
pub proof fn lemma_line_markers(
    tbl: Map<Seq<char>, FileView>,
    line: Seq<char>,
    base: Seq<char>,
    keep_comments: bool,
    visited: Set<Seq<char>>,
)
    requires
        tbl.dom().finite(),
    ensures
        markers_exact(tbl, visited, line_outcome(tbl, line, base, keep_comments, visited)),
    decreases crate::expand::untaken(tbl, visited), 0nat,
{
    let scanned = if keep_comments {
        line
    } else {
        cut_comment(line)
    };
    match directive_of(scanned) {
        Some((d, name)) => {
            crate::resolve::lemma_resolve_found(tbl, base, name, 0);
        },
        None => {},
    }
    match line_action(tbl, line, base, keep_comments, visited) {
        LineAction::Plain(t) => {
            lemma_begins_single(Piece::Line(t));
        },
        LineAction::Unresolved => {
            lemma_begins_single(Piece::Line(line));
        },
        LineAction::Already(name) => {
            lemma_begins_single(Piece::Already(name));
        },
        LineAction::Unreadable(p) => {
            lemma_begins_single(Piece::Line(line));
        },
        LineAction::Pending(_) => {},
        LineAction::Descend(d, p, c) => {
            let v1 = visited.insert(p);
            crate::expand::lemma_untaken_drop(tbl, visited, visited, p);
            lemma_expand_markers(tbl, lines_of(c), crate::expand::dir_of(p, base), keep_comments, v1);
            match expand_lines(tbl, lines_of(c), crate::expand::dir_of(p, base), keep_comments, v1) {
                Outcome::Done(ips, ia) => {
                    let op = crate::expand::opening(d, p);
                    let cl = crate::expand::closing(d, p);
                    lemma_begins_concat(op, ips);
                    lemma_begins_concat(op + ips, cl);
                    let bi = begins(ips);
                    match d {
                        Directive::Input => {
                            lemma_begins_single(Piece::Begin(p));
                            lemma_begins_single(Piece::End(p));
                        },
                        Directive::Include => {
                            assert(op == seq![Piece::PageBreak].push(Piece::Begin(p)));
                            lemma_begins_single(Piece::PageBreak);
                            assert(cl == seq![Piece::End(p)].push(Piece::PageBreak));
                            lemma_begins_single(Piece::End(p));
                            assert(seq![Piece::End(p)].push(Piece::PageBreak).drop_last() =~= seq![Piece::End(p)]);
                            assert(seq![Piece::PageBreak].push(Piece::Begin(p)).drop_last() =~= seq![Piece::PageBreak]);
                        },
                    }
                    assert(begins(op) =~= seq![p]);
                    assert(begins(cl) =~= Seq::<Seq<char>>::empty());
                    let all = seq![p] + bi;
                    assert(begins(op + ips + cl) =~= all);
                    assert(!bi.contains(p));
                    assert forall|i: int, j: int|
                        0 <= i < all.len() && 0 <= j < all.len() && i != j implies all[i] != all[j] by {
                        if i == 0 {
                            assert(bi.contains(all[j]));
                        } else if j == 0 {
                            assert(bi.contains(all[i]));
                        } else {
                            assert(all[i] == bi[i - 1] && all[j] == bi[j - 1]);
                        }
                    }
                    assert forall|x: Seq<char>| #[trigger]
                        all.contains(x) <==> (ia.insert(p).contains(x) && tbl.contains_key(x)
                            && tbl[x] is Text) by {
                        if bi.contains(x) {
                            let i = choose|i: int| 0 <= i < bi.len() && bi[i] == x;
                            assert(all[i + 1] == x);
                        }
                        if x == p {
                            assert(all[0] == x);
                        }
                        if all.contains(x) && x != p {
                            let i = choose|i: int| 0 <= i < all.len() && all[i] == x;
                            assert(bi[i - 1] == x);
                        }
                    }
                },
                Outcome::Need(_) => {},
            }
        },
    }
}

/// The existing file that the directive of `line` names, if any.
pub open spec fn referenced(
    tbl: Map<Seq<char>, FileView>,
    line: Seq<char>,
    base: Seq<char>,
    keep_comments: bool,
) -> Option<Seq<char>> {
    match directive_of(if keep_comments { line } else { cut_comment(line) }) {
        Some((_, name)) => match resolve(tbl, base, name) {
            ResolutionView::Found(p) => Some(p),
            _ => None,
        },
        None => None,
    }
}

/// No existing file that a directive names is passed over: once the
/// expansion is done, each such file was taken before or by it.
pub proof fn lemma_references_taken(
    tbl: Map<Seq<char>, FileView>,
    lines: Seq<Seq<char>>,
    base: Seq<char>,
    keep_comments: bool,
    visited: Set<Seq<char>>,
)
    requires
        tbl.dom().finite(),
    ensures
        expand_lines(tbl, lines, base, keep_comments, visited) matches Outcome::Done(_, added)
            ==> forall|i: int|
            0 <= i < lines.len() && (#[trigger] referenced(tbl, lines[i], base, keep_comments)) is Some
                ==> visited.union(added).contains(
                referenced(tbl, lines[i], base, keep_comments)->0,
            ),
    decreases crate::expand::untaken(tbl, visited), lines.len(),
{
    if lines.len() > 0 {
        match line_outcome(tbl, lines[0], base, keep_comments, visited) {
            Outcome::Done(ps1, a1) => {
                let rest = lines.drop_first();
                let v1 = visited.union(a1);
                crate::expand::lemma_untaken_mono(tbl, visited, v1);
                lemma_references_taken(tbl, rest, base, keep_comments, v1);
                match expand_lines(tbl, rest, base, keep_comments, v1) {
                    Outcome::Done(ps2, a2) => {
                        assert(v1.union(a2) =~= visited.union(a1.union(a2)));
                        assert forall|i: int|
                            0 <= i < lines.len() && (#[trigger] referenced(
                                tbl,
                                lines[i],
                                base,
                                keep_comments,
                            )) is Some implies visited.union(a1.union(a2)).contains(
                            referenced(tbl, lines[i], base, keep_comments)->0,
                        ) by {
                            if i > 0 {
                                assert(lines[i] == rest[i - 1]);
                            }
                        }
                    },
                    Outcome::Need(_) => {},
                }
            },
            Outcome::Need(_) => {},
        }
    }
}

/// A directive whose file was already taken gives one marker that names the
/// file as the directive wrote it, and takes nothing: nothing is read again,
/// so a file that includes itself, directly or not, ends in that marker.
pub proof fn lemma_already_included(
    tbl: Map<Seq<char>, FileView>,
    line: Seq<char>,
    base: Seq<char>,
    keep_comments: bool,
    visited: Set<Seq<char>>,
    d: Directive,
    name: Seq<char>,
    p: Seq<char>,
)
    requires
        tbl.dom().finite(),
        directive_of(if keep_comments { line } else { cut_comment(line) }) == Some((d, name)),
        resolve(tbl, base, name) == ResolutionView::Found(p),
        visited.contains(p),
    ensures
        line_outcome(tbl, line, base, keep_comments, visited) == Outcome::Done(
            seq![Piece::Already(name)],
            Set::empty(),
        ),
{
}

/// The text of a file taken by a directive is preceded by its begin marker
/// and followed by its end marker; `\include` puts a page break right
/// before the begin marker and right after the end marker, `\input` puts
/// none.
pub proof fn lemma_page_breaks(
    tbl: Map<Seq<char>, FileView>,
    line: Seq<char>,
    base: Seq<char>,
    keep_comments: bool,
    visited: Set<Seq<char>>,
)
    requires
        tbl.dom().finite(),
        line_action(tbl, line, base, keep_comments, visited) is Descend,
        line_outcome(tbl, line, base, keep_comments, visited) is Done,
    ensures
        ({
            let (d, p, c) = match line_action(tbl, line, base, keep_comments, visited) {
                LineAction::Descend(d, p, c) => (d, p, c),
                _ => (Directive::Input, Seq::empty(), Seq::empty()),
            };
            let inner = expand_lines(tbl, lines_of(c), crate::expand::dir_of(p, base), keep_comments, visited.insert(p))->Done_0;
            let ps = line_outcome(tbl, line, base, keep_comments, visited)->Done_0;
            &&& d == Directive::Include ==> ps == seq![Piece::PageBreak, Piece::Begin(p)] + inner + seq![Piece::End(p), Piece::PageBreak]
            &&& d == Directive::Input ==> ps == seq![Piece::Begin(p)] + inner + seq![Piece::End(p)]
        }),
{
}

/// With comments cut, a line that starts with `%` becomes an empty line;
/// with comments kept, a line without a directive is kept as it is,
/// comment included.
pub proof fn lemma_comment_lines(
    tbl: Map<Seq<char>, FileView>,
    line: Seq<char>,
    base: Seq<char>,
    visited: Set<Seq<char>>,
)
    requires
        tbl.dom().finite(),
    ensures
        line.len() > 0 && line[0] == '%' ==> line_outcome(tbl, line, base, false, visited)
            == Outcome::Done(seq![Piece::Line(Seq::empty())], Set::empty()),
        render(seq![Piece::Line(Seq::<char>::empty())]) == seq!['\n'],
        directive_of(line) is None ==> line_outcome(tbl, line, base, true, visited)
            == Outcome::Done(seq![Piece::Line(line)], Set::empty()),
{
    if line.len() > 0 && line[0] == '%' {
        assert(find_from(line, '%', 0) == 0);
        assert(cut_comment(line) =~= Seq::<char>::empty());
        assert(directive_of(Seq::<char>::empty()) is None);
    }
    assert(render(Seq::<Piece>::empty()) == Seq::<char>::empty());
    assert(seq![Piece::Line(Seq::<char>::empty())].drop_last() =~= Seq::<Piece>::empty());
    assert(Seq::<char>::empty() + Seq::<char>::empty() + seq!['\n'] =~= seq!['\n']);
}

/// The name as written is tried first: where it names an existing file,
/// that file is chosen, whatever exists with a suffix added.
pub proof fn lemma_bare_name_first(tbl: Map<Seq<char>, FileView>, base: Seq<char>, name: Seq<char>)
    requires
        tbl.contains_key(joined(base, name)),
        !(tbl[joined(base, name)] is Missing),
    ensures
        resolve(tbl, base, name) == ResolutionView::Found(joined(base, name)),
{
    assert(name + suffix(0) =~= name);
}

} // verus!
