//! Depth-first expansion of inclusion directives.

use vstd::prelude::*;
use crate::directive::{directive_of, find_directive, Directive};
use crate::files::{FileState, FileTable, FileView};
use crate::paths::{parent_dir, parent_of};
use crate::resolve::{lemma_resolve_found, resolve, resolve_latex_file_path, Resolution, ResolutionView};
use crate::text::{chars_of, cut_comment, cut_comment_of, lines_of, push_all, split_lines, text_of, views_of};

verus! {

/// One unit of the flattened output, each rendered as one line.
pub enum Piece {
    /// A line of source text.
    Line(Seq<char>),
    /// The forced page break that brackets an `\include`.
    PageBreak,
    /// The marker before the text of the file at this path.
    Begin(Seq<char>),
    /// The marker after the text of the file at this path.
    End(Seq<char>),
    /// The marker that stands for a directive, named as written, whose file
    /// was already taken.
    Already(Seq<char>),
}

/// The text of one piece, line ending included.
pub open spec fn piece_text(p: Piece) -> Seq<char> {
    match p {
        Piece::Line(t) => t + seq!['\n'],
        Piece::PageBreak => "\\clearpage"@ + seq!['\n'],
        Piece::Begin(path) => "% BEGIN INCLUDED FILE: "@ + path + seq!['\n'],
        Piece::End(path) => "% END INCLUDED FILE: "@ + path + seq!['\n'],
        Piece::Already(name) => "% ALREADY INCLUDED: "@ + name + seq!['\n'],
    }
}

/// The text of a sequence of pieces.
pub open spec fn render(ps: Seq<Piece>) -> Seq<char>
    decreases ps.len(),
{
    if ps.len() == 0 {
        Seq::empty()
    } else {
        render(ps.drop_last()) + piece_text(ps.last())
    }
}

/// What becomes of one line, given the paths taken so far.
pub enum LineAction {
    /// No directive: the (possibly cut) line is kept.
    Plain(Seq<char>),
    /// A directive whose name leads to no file: the line is kept as written.
    Unresolved,
    /// The answer depends on this path, not probed yet.
    Pending(Seq<char>),
    /// A directive whose file was already taken: a marker naming it as written.
    Already(Seq<char>),
    /// A directive whose file exists but cannot be read: the path is taken
    /// and the line is kept as written.
    Unreadable(Seq<char>),
    /// A directive whose file is taken now: its text at this path is expanded.
    Descend(Directive, Seq<char>, Seq<char>),
}

/// The decision taken for one line.
pub open spec fn line_action(
    tbl: Map<Seq<char>, FileView>,
    line: Seq<char>,
    base: Seq<char>,
    keep_comments: bool,
    visited: Set<Seq<char>>,
) -> LineAction {
    let scanned = if keep_comments {
        line
    } else {
        cut_comment(line)
    };
    match directive_of(scanned) {
        None => LineAction::Plain(scanned),
        Some((d, name)) => match resolve(tbl, base, name) {
            ResolutionView::NotFound => LineAction::Unresolved,
            ResolutionView::Unknown(p) => LineAction::Pending(p),
            ResolutionView::Found(p) => if visited.contains(p) {
                LineAction::Already(name)
            } else {
                match tbl[p] {
                    FileView::Text(c) => LineAction::Descend(d, p, c),
                    _ => LineAction::Unreadable(p),
                }
            },
        },
    }
}

/// The result of expanding some lines: the pieces and the paths newly
/// taken, or the first path that must be probed before going on.
pub enum Outcome {
    Done(Seq<Piece>, Set<Seq<char>>),
    Need(Seq<char>),
}

/// `ps` and `added`, followed by the outcome `o`.
pub open spec fn prefixed(ps: Seq<Piece>, added: Set<Seq<char>>, o: Outcome) -> Outcome {
    match o {
        Outcome::Need(p) => Outcome::Need(p),
        Outcome::Done(qs, more) => Outcome::Done(ps + qs, added.union(more)),
    }
}

/// The directory against which the directives of the file at `path` are
/// resolved.
pub open spec fn dir_of(path: Seq<char>, base: Seq<char>) -> Seq<char> {
    match parent_of(path) {
        Some(d) => d,
        None => base,
    }
}

/// The pieces that open the text of an included file.
pub open spec fn opening(d: Directive, path: Seq<char>) -> Seq<Piece> {
    match d {
        Directive::Input => seq![Piece::Begin(path)],
        Directive::Include => seq![Piece::PageBreak, Piece::Begin(path)],
    }
}

/// The pieces that close the text of an included file.
pub open spec fn closing(d: Directive, path: Seq<char>) -> Seq<Piece> {
    match d {
        Directive::Input => seq![Piece::End(path)],
        Directive::Include => seq![Piece::End(path), Piece::PageBreak],
    }
}

/// Number of known paths not taken yet: it bounds the depth of expansion.
pub open spec fn untaken(tbl: Map<Seq<char>, FileView>, visited: Set<Seq<char>>) -> nat {
    tbl.dom().difference(visited).len()
}

/// The pieces of an included file's text, bracketed as directive `d` asks,
/// or the path that must be probed first.
pub open spec fn descended(d: Directive, p: Seq<char>, inner: Outcome) -> Outcome {
    match inner {
        Outcome::Need(q) => Outcome::Need(q),
        Outcome::Done(ps, added) => Outcome::Done(
            opening(d, p) + ps + closing(d, p),
            added.insert(p),
        ),
    }
}

/// Expansion of one line, with `visited` the paths taken so far.
pub open spec fn line_outcome(
    tbl: Map<Seq<char>, FileView>,
    line: Seq<char>,
    base: Seq<char>,
    keep_comments: bool,
    visited: Set<Seq<char>>,
) -> Outcome
    decreases untaken(tbl, visited), 0nat
    when tbl.dom().finite()
    via line_outcome_decreases
{
    match line_action(tbl, line, base, keep_comments, visited) {
        LineAction::Plain(t) => Outcome::Done(seq![Piece::Line(t)], Set::empty()),
        LineAction::Unresolved => Outcome::Done(seq![Piece::Line(line)], Set::empty()),
        LineAction::Pending(p) => Outcome::Need(p),
        LineAction::Already(name) => Outcome::Done(seq![Piece::Already(name)], Set::empty()),
        LineAction::Unreadable(p) => Outcome::Done(seq![Piece::Line(line)], set![p]),
        LineAction::Descend(d, p, c) => descended(
            d,
            p,
            expand_lines(tbl, lines_of(c), dir_of(p, base), keep_comments, visited.insert(p)),
        ),
    }
}

/// Expansion of `lines`, in order, with `visited` the paths taken so far.
pub open spec fn expand_lines(
    tbl: Map<Seq<char>, FileView>,
    lines: Seq<Seq<char>>,
    base: Seq<char>,
    keep_comments: bool,
    visited: Set<Seq<char>>,
) -> Outcome
    decreases untaken(tbl, visited), lines.len()
    when tbl.dom().finite()
    via expand_lines_decreases
{
    if lines.len() == 0 {
        Outcome::Done(Seq::empty(), Set::empty())
    } else {
        match line_outcome(tbl, lines[0], base, keep_comments, visited) {
            Outcome::Need(p) => Outcome::Need(p),
            Outcome::Done(ps, added) => prefixed(
                ps,
                added,
                expand_lines(tbl, lines.drop_first(), base, keep_comments, visited.union(added)),
            ),
        }
    }
}

/// Taking more paths never adds to the untaken ones.
pub proof fn lemma_untaken_mono(tbl: Map<Seq<char>, FileView>, v: Set<Seq<char>>, w: Set<Seq<char>>)
    requires
        tbl.dom().finite(),
        v.subset_of(w),
    ensures
        untaken(tbl, w) <= untaken(tbl, v),
{
    vstd::set_lib::lemma_len_subset(tbl.dom().difference(w), tbl.dom().difference(v));
}

/// Taking a known path that was not taken leaves fewer untaken paths.
pub proof fn lemma_untaken_drop(
    tbl: Map<Seq<char>, FileView>,
    v: Set<Seq<char>>,
    w: Set<Seq<char>>,
    p: Seq<char>,
)
    requires
        tbl.dom().finite(),
        v.subset_of(w),
        tbl.contains_key(p),
        !w.contains(p),
    ensures
        untaken(tbl, w.insert(p)) < untaken(tbl, v),
{
    let dv = tbl.dom().difference(v);
    assert(tbl.dom().difference(w.insert(p)).subset_of(dv.remove(p)));
    vstd::set_lib::lemma_len_subset(tbl.dom().difference(w.insert(p)), dv.remove(p));
}

#[via_fn]
proof fn line_outcome_decreases(
    tbl: Map<Seq<char>, FileView>,
    line: Seq<char>,
    base: Seq<char>,
    keep_comments: bool,
    visited: Set<Seq<char>>,
) {
    let scanned = if keep_comments {
        line
    } else {
        cut_comment(line)
    };
    match directive_of(scanned) {
        Some((d, name)) => {
            lemma_resolve_found(tbl, base, name, 0);
            match resolve(tbl, base, name) {
                ResolutionView::Found(p) => {
                    if !visited.contains(p) {
                        lemma_untaken_drop(tbl, visited, visited, p);
                    }
                },
                _ => {},
            }
        },
        None => {},
    }
}

#[via_fn]
proof fn expand_lines_decreases(
    tbl: Map<Seq<char>, FileView>,
    lines: Seq<Seq<char>>,
    base: Seq<char>,
    keep_comments: bool,
    visited: Set<Seq<char>>,
) {
    assert forall|a: Set<Seq<char>>| #[trigger]
        untaken(tbl, visited.union(a)) <= untaken(tbl, visited) by {
        lemma_untaken_mono(tbl, visited, visited.union(a));
    }
}

/// Rendering one more piece appends its text.
pub proof fn lemma_render_push(ps: Seq<Piece>, x: Piece)
    ensures
        render(ps.push(x)) == render(ps) + piece_text(x),
{
    assert(ps.push(x).drop_last() =~= ps);
}

/// Rendering distributes over concatenation.
pub proof fn lemma_render_concat(a: Seq<Piece>, b: Seq<Piece>)
    ensures
        render(a + b) == render(a) + render(b),
    decreases b.len(),
{
    if b.len() == 0 {
        assert(a + b =~= a);
        assert(render(a) + render(b) =~= render(a));
    } else {
        lemma_render_concat(a, b.drop_last());
        assert((a + b).drop_last() =~= a + b.drop_last());
        assert(render(a + b) =~= render(a) + render(b));
    }
}

/// The paths held by a list of paths.
pub open spec fn paths_of(v: Seq<String>) -> Set<Seq<char>> {
    Set::new(|p: Seq<char>| exists|i: int| 0 <= i < v.len() && v[i]@ == p)
}

fn contains_path(v: &Vec<String>, p: &String) -> (r: bool)
    ensures
        r == paths_of(v@).contains(p@),
{
    let mut i: usize = 0;
    while i < v.len()
        invariant
            i <= v.len(),
            forall|j: int| 0 <= j < i ==> v@[j]@ != p@,
        decreases v.len() - i,
    {
        if v[i] == *p {
            return true;
        }
        i = i + 1;
    }
    false
}

fn add_path(v: &mut Vec<String>, p: String)
    ensures
        paths_of(final(v)@) == paths_of(old(v)@).insert(p@),
{
    let ghost before = v@;
    let ghost q = p@;
    v.push(p);
    assert(v@[before.len() as int]@ == q);
    assert forall|x: Seq<char>| #[trigger] paths_of(v@).contains(x) == paths_of(before).insert(
        p@,
    ).contains(x) by {
        if paths_of(before).contains(x) {
            let j = choose|j: int| 0 <= j < before.len() && before[j]@ == x;
            assert(v@[j] == before[j]);
        }
        if paths_of(v@).contains(x) {
            let j = choose|j: int| 0 <= j < v@.len() && v@[j]@ == x;
            if j < before.len() {
                assert(v@[j] == before[j]);
            }
        }
    }
    assert(paths_of(v@) =~= paths_of(before).insert(p@));
}

/// Nothing in front changes nothing.
proof fn lemma_prefixed_empty(o: Outcome)
    ensures
        prefixed(Seq::empty(), Set::empty(), o) == o,
{
    match o {
        Outcome::Done(qs, more) => {
            assert(Seq::<Piece>::empty() + qs =~= qs);
            assert(Set::<Seq<char>>::empty().union(more) =~= more);
        },
        Outcome::Need(_) => {},
    }
}

/// Putting pieces in front, twice, is putting their concatenation in front.
proof fn lemma_prefixed_twice(
    a: Seq<Piece>,
    sa: Set<Seq<char>>,
    b: Seq<Piece>,
    sb: Set<Seq<char>>,
    o: Outcome,
)
    ensures
        prefixed(a, sa, prefixed(b, sb, o)) == prefixed(a + b, sa.union(sb), o),
{
    match o {
        Outcome::Done(qs, more) => {
            assert(a + (b + qs) =~= (a + b) + qs);
            assert(sa.union(sb.union(more)) =~= sa.union(sb).union(more));
        },
        Outcome::Need(_) => {},
    }
}

/// Appends the text of a piece whose words are `word`, followed by `tail`
/// and a line ending.
fn push_line(out: &mut Vec<char>, word: &str, tail: &Vec<char>)
    ensures
        final(out)@ == old(out)@ + word@ + tail@ + seq!['\n'],
{
    push_all(out, &chars_of(word));
    push_all(out, tail);
    out.push('\n');
    assert(out@ =~= old(out)@ + word@ + tail@ + seq!['\n']);
}

/// Appends a line of source text.
fn push_source_line(out: &mut Vec<char>, line: &Vec<char>)
    ensures
        final(out)@ == old(out)@ + render(seq![Piece::Line(line@)]),
{
    push_all(out, line);
    out.push('\n');
    proof {
        assert(seq![Piece::Line(line@)] =~= Seq::<Piece>::empty().push(Piece::Line(line@)));
        lemma_render_push(Seq::empty(), Piece::Line(line@));
    }
    assert(out@ =~= old(out)@ + render(seq![Piece::Line(line@)]));
}

/// Expands the text of the file at `p`, already taken, bracketed as
/// directive `d` asks.
fn include_file(
    tbl: &FileTable,
    d: Directive,
    p: &String,
    content: &String,
    base: &str,
    keep_comments: bool,
    visited: &mut Vec<String>,
    out: &mut Vec<char>,
) -> (need: Option<String>)
    requires
        paths_of(old(visited)@).contains(p@),
    ensures
        match descended(
            d,
            p@,
            expand_lines(tbl@, lines_of(content@), dir_of(p@, base@), keep_comments, paths_of(old(visited)@)),
        ) {
            Outcome::Need(q) => need is Some && need->0@ == q,
            Outcome::Done(ps, added) => {
                &&& need is None
                &&& final(out)@ == old(out)@ + render(ps)
                &&& paths_of(final(visited)@) == paths_of(old(visited)@).union(added)
            },
        },
    decreases untaken(tbl@, paths_of(old(visited)@)), 2nat,
{
    proof {
        tbl.lemma_finite();
    }
    let ghost start = out@;
    let ghost v0 = paths_of(visited@);
    let ghost mut ps: Seq<Piece> = Seq::empty();
    if d == Directive::Include {
        push_line(out, "\\clearpage", &Vec::new());
        proof {
            lemma_render_push(ps, Piece::PageBreak);
            ps = ps.push(Piece::PageBreak);
        }
        assert(out@ =~= start + render(ps));
    }
    let p_chars = chars_of(p.as_str());
    push_line(out, "% BEGIN INCLUDED FILE: ", &p_chars);
    proof {
        lemma_render_push(ps, Piece::Begin(p@));
        ps = ps.push(Piece::Begin(p@));
    }
    assert(out@ =~= start + render(ps));
    assert(ps =~= opening(d, p@));
    let parent = parent_dir(p.as_str());
    let dir: &str = match &parent {
        Some(dp) => dp.as_str(),
        None => base,
    };
    let content_chars = chars_of(content.as_str());
    let inner = expand_recursive(tbl, &content_chars, dir, keep_comments, visited, out);
    if inner.is_some() {
        return inner;
    }
    let ghost inner_o = expand_lines(
        tbl@,
        lines_of(content@),
        dir_of(p@, base@),
        keep_comments,
        v0,
    );
    proof {
        lemma_render_concat(ps, inner_o->Done_0);
        ps = ps + inner_o->Done_0;
        assert(paths_of(visited@) =~= v0.union(inner_o->Done_1.insert(p@)));
    }
    assert(out@ =~= start + render(ps));
    push_line(out, "% END INCLUDED FILE: ", &p_chars);
    proof {
        lemma_render_push(ps, Piece::End(p@));
        ps = ps.push(Piece::End(p@));
    }
    assert(out@ =~= start + render(ps));
    if d == Directive::Include {
        push_line(out, "\\clearpage", &Vec::new());
        proof {
            lemma_render_push(ps, Piece::PageBreak);
            ps = ps.push(Piece::PageBreak);
        }
        assert(out@ =~= start + render(ps));
    }
    assert(ps =~= opening(d, p@) + inner_o->Done_0 + closing(d, p@));
    None
}

/// Expands one line, appending to `out` and recording taken paths in
/// `visited`; returns the first path that must be probed before the
/// expansion can finish, if any.
fn expand_line(
    tbl: &FileTable,
    line: &Vec<char>,
    base: &str,
    keep_comments: bool,
    visited: &mut Vec<String>,
    out: &mut Vec<char>,
) -> (need: Option<String>)
    ensures
        match line_outcome(tbl@, line@, base@, keep_comments, paths_of(old(visited)@)) {
            Outcome::Need(p) => need is Some && need->0@ == p,
            Outcome::Done(ps, added) => {
                &&& need is None
                &&& final(out)@ == old(out)@ + render(ps)
                &&& paths_of(final(visited)@) == paths_of(old(visited)@).union(added)
            },
        },
    decreases untaken(tbl@, paths_of(old(visited)@)), 0nat,
{
    proof {
        tbl.lemma_finite();
    }
    let ghost vi = paths_of(visited@);
    let ghost start = out@;
    let scanned = if keep_comments {
        line.clone()
    } else {
        cut_comment_of(line)
    };
    match find_directive(&scanned) {
        None => {
            push_source_line(out, &scanned);
            assert(paths_of(visited@) =~= vi.union(Set::empty()));
            None
        },
        Some((d, name)) => {
            let name_text = text_of(&name);
            match resolve_latex_file_path(tbl, base, name_text.as_str()) {
                Resolution::Unknown(p) => Some(p),
                Resolution::NotFound => {
                    push_source_line(out, line);
                    assert(paths_of(visited@) =~= vi.union(Set::empty()));
                    None
                },
                Resolution::Found(p) => {
                    if contains_path(visited, &p) {
                        push_line(out, "% ALREADY INCLUDED: ", &name);
                        proof {
                            let ps = seq![Piece::Already(name@)];
                            assert(ps =~= Seq::<Piece>::empty().push(Piece::Already(name@)));
                            lemma_render_push(Seq::empty(), Piece::Already(name@));
                            assert(out@ =~= start + render(ps));
                            assert(paths_of(visited@) =~= vi.union(Set::empty()));
                        }
                        return None;
                    }
                    proof {
                        lemma_resolve_found(tbl@, base@, name@, 0);
                        lemma_untaken_drop(tbl@, vi, vi, p@);
                    }
                    add_path(visited, p.clone());
                    match tbl.lookup(&p) {
                        Some(FileState::Text(content)) => {
                            let need = include_file(tbl, d, &p, &content, base, keep_comments, visited, out);
                            proof {
                                let o = expand_lines(tbl@, lines_of(content@), dir_of(p@, base@), keep_comments, vi.insert(p@));
                                if let Outcome::Done(ps, a) = o {
                                    assert(paths_of(visited@) =~= vi.union(a.insert(p@)));
                                }
                            }
                            need
                        },
                        _ => {
                            push_source_line(out, line);
                            assert(paths_of(visited@) =~= vi.union(set![p@]));
                            None
                        },
                    }
                },
            }
        },
    }
}

/// Expands `text`, appending to `out` and recording taken paths in
/// `visited`; returns the first path that must be probed before the
/// expansion can finish, if any.
fn expand_recursive(
    tbl: &FileTable,
    text: &Vec<char>,
    base: &str,
    keep_comments: bool,
    visited: &mut Vec<String>,
    out: &mut Vec<char>,
) -> (need: Option<String>)
    ensures
        match expand_lines(tbl@, lines_of(text@), base@, keep_comments, paths_of(old(visited)@)) {
            Outcome::Need(p) => need is Some && need->0@ == p,
            Outcome::Done(ps, added) => {
                &&& need is None
                &&& final(out)@ == old(out)@ + render(ps)
                &&& paths_of(final(visited)@) == paths_of(old(visited)@).union(added)
            },
        },
    decreases untaken(tbl@, paths_of(old(visited)@)), 1nat,
{
    proof {
        tbl.lemma_finite();
    }
    let lines = split_lines(text);
    let ghost lv = views_of(lines@);
    let ghost v0 = paths_of(visited@);
    let ghost out0 = out@;
    let ghost mut done_ps: Seq<Piece> = Seq::empty();
    let ghost mut done_a: Set<Seq<char>> = Set::empty();
    assert(lv.subrange(0, lv.len() as int) =~= lv);
    proof {
        lemma_prefixed_empty(expand_lines(tbl@, lv, base@, keep_comments, v0));
    }
    let mut i: usize = 0;
    while i < lines.len()
        invariant
            i <= lines.len(),
            lv == views_of(lines@),
            lv == lines_of(text@),
            tbl@.dom().finite(),
            out@ == out0 + render(done_ps),
            paths_of(visited@) == v0.union(done_a),
            expand_lines(tbl@, lv, base@, keep_comments, v0) == prefixed(
                done_ps,
                done_a,
                expand_lines(tbl@, lv.subrange(i as int, lv.len() as int), base@, keep_comments, paths_of(visited@)),
            ),
            v0 == paths_of(old(visited)@),
            out0 == old(out)@,
        decreases lines.len() - i,
    {
        let ghost vi = paths_of(visited@);
        let ghost rest = lv.subrange(i as int, lv.len() as int);
        assert(rest[0] == lines@[i as int]@);
        assert(rest.drop_first() =~= lv.subrange(i + 1, lv.len() as int));
        proof {
            lemma_untaken_mono(tbl@, v0, vi);
        }
        let ghost one = line_outcome(tbl@, rest[0], base@, keep_comments, vi);
        let need = expand_line(tbl, &lines[i], base, keep_comments, visited, out);
        if need.is_some() {
            return need;
        }
        proof {
            lemma_render_concat(done_ps, one->Done_0);
            lemma_prefixed_twice(
                done_ps,
                done_a,
                one->Done_0,
                one->Done_1,
                expand_lines(tbl@, rest.drop_first(), base@, keep_comments, vi.union(one->Done_1)),
            );
            done_ps = done_ps + one->Done_0;
            done_a = done_a.union(one->Done_1);
            assert(paths_of(visited@) =~= v0.union(done_a));
        }
        i = i + 1;
    }
    None
}

/// The result of an expansion over what is known of the file system.
#[derive(Debug)]
pub enum Expansion {
    /// The flattened text.
    Complete(String),
    /// This path must be probed, and the table extended, before the
    /// expansion can finish.
    NeedsFile(String),
}

/// The mathematical value of an `Expansion`.
pub enum ExpansionView {
    Complete(Seq<char>),
    NeedsFile(Seq<char>),
}

impl View for Expansion {
    type V = ExpansionView;

    open spec fn view(&self) -> ExpansionView {
        match self {
            Expansion::Complete(t) => ExpansionView::Complete(t@),
            Expansion::NeedsFile(p) => ExpansionView::NeedsFile(p@),
        }
    }
}

/// Why the expansion of a file failed.
#[derive(Debug)]
pub enum ExpandError {
    /// The file to expand, at this path, is missing or cannot be read.
    CannotRead(String),
}

/// The expansion of `content`, whose directives resolve against `base`,
/// starting with no path taken.
pub open spec fn expansion_of(
    tbl: Map<Seq<char>, FileView>,
    content: Seq<char>,
    base: Seq<char>,
    keep_comments: bool,
) -> ExpansionView {
    match expand_lines(tbl, lines_of(content), base, keep_comments, Set::empty()) {
        Outcome::Need(p) => ExpansionView::NeedsFile(p),
        Outcome::Done(ps, _) => ExpansionView::Complete(render(ps)),
    }
}

/// The directory of the file to expand: its parent, or `.` when it has none.
pub open spec fn entry_dir(path: Seq<char>) -> Seq<char> {
    match parent_of(path) {
        Some(d) => d,
        None => "."@,
    }
}

/// The expansion of the file at `path`: its path is asked for where the
/// table does not know it, and it is an error, naming the path, where the
/// file is missing or unreadable.
pub open spec fn file_expansion(
    tbl: Map<Seq<char>, FileView>,
    path: Seq<char>,
    keep_comments: bool,
) -> Result<ExpansionView, Seq<char>> {
    if !tbl.contains_key(path) {
        Ok(ExpansionView::NeedsFile(path))
    } else {
        match tbl[path] {
            FileView::Text(c) => Ok(expansion_of(tbl, c, entry_dir(path), keep_comments)),
            _ => Err(path),
        }
    }
}

/// Expands `content`, whose directives resolve against `base_dir`: the
/// flattened text, or the first path that the table does not know yet.
pub fn expand_latex_content(tbl: &FileTable, content: &str, base_dir: &str, keep_comments: bool) -> (r:
    Expansion)
    ensures
        r@ == expansion_of(tbl@, content@, base_dir@, keep_comments),
{
    let mut visited: Vec<String> = Vec::new();
    let mut out: Vec<char> = Vec::new();
    let text = chars_of(content);
    assert(paths_of(visited@) =~= Set::empty());
    match expand_recursive(tbl, &text, base_dir, keep_comments, &mut visited, &mut out) {
        Some(p) => Expansion::NeedsFile(p),
        None => {
            assert(out@ =~= Seq::<char>::empty() + out@);
            Expansion::Complete(text_of(&out))
        },
    }
}

/// Expands the file at `file_path`, whose directives resolve against its
/// directory. The file must be in the table: where it is not, its path is
/// asked for; where it is missing or unreadable, that is the error.
pub fn expand_latex_file(tbl: &FileTable, file_path: &str, keep_comments: bool) -> (r: Result<
    Expansion,
    ExpandError,
>)
    ensures
        match r {
            Ok(e) => file_expansion(tbl@, file_path@, keep_comments) == Ok::<ExpansionView, Seq<char>>(e@),
            Err(ExpandError::CannotRead(p)) => file_expansion(tbl@, file_path@, keep_comments) == Err::<ExpansionView, Seq<char>>(p@),
        },
{
    let path = file_path.to_owned();
    match tbl.lookup(&path) {
        None => Ok(Expansion::NeedsFile(path)),
        Some(FileState::Text(content)) => {
            let parent = parent_dir(file_path);
            let here = ".".to_owned();
            let dir: &str = match &parent {
                Some(dp) => dp.as_str(),
                None => here.as_str(),
            };
            Ok(expand_latex_content(tbl, content.as_str(), dir, keep_comments))
        },
        Some(_) => Err(ExpandError::CannotRead(path)),
    }
}

} // verus!
