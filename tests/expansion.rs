use latexpand::{
    expand_latex_content, expand_latex_file, find_directive, resolve_latex_file_path, Directive,
    ExpandError, Expansion, FileState, FileTable, Resolution,
};

/// Expands `entry` against an in-memory file system: `files` are readable,
/// `unreadable` exist but cannot be read, anything else is missing.
fn run(
    files: &[(&str, &str)],
    unreadable: &[&str],
    entry: &str,
    keep_comments: bool,
) -> Result<String, ExpandError> {
    let mut tbl = FileTable::new();
    for _ in 0..1000 {
        match expand_latex_file(&tbl, entry, keep_comments) {
            Ok(Expansion::Complete(text)) => return Ok(text),
            Ok(Expansion::NeedsFile(path)) => {
                let state = if let Some((_, text)) = files.iter().find(|(p, _)| *p == path) {
                    FileState::Text(text.to_string())
                } else if unreadable.contains(&path.as_str()) {
                    FileState::Unreadable
                } else {
                    FileState::Missing
                };
                tbl.insert(path, state);
            }
            Err(e) => return Err(e),
        }
    }
    panic!("expansion asked for too many paths");
}

fn expand(files: &[(&str, &str)], entry: &str, keep_comments: bool) -> String {
    run(files, &[], entry, keep_comments).unwrap()
}

fn chars(s: &str) -> Vec<char> {
    s.chars().collect()
}

#[test]
fn test_basic_expansion() {
    let main = r"
\documentclass{article}
\begin{document}
\input{chapter1}
\end{document}
        ";
    let chapter = r"
\chapter{First Chapter}
This is the first chapter.
        ";
    let result = expand(&[("doc/main.tex", main), ("doc/chapter1.tex", chapter)], "doc/main.tex", true);
    assert!(result.contains("First Chapter"));
    assert!(result.contains("BEGIN INCLUDED FILE"));
}

#[test]
fn input_splices_file_between_markers() {
    let result = expand(
        &[("doc/main.tex", "\\input{chapter1}"), ("doc/chapter1.tex", "Hello")],
        "doc/main.tex",
        false,
    );
    assert_eq!(
        result,
        "% BEGIN INCLUDED FILE: doc/chapter1.tex\nHello\n% END INCLUDED FILE: doc/chapter1.tex\n"
    );
}

#[test]
fn include_adds_page_breaks() {
    let result = expand(
        &[("doc/main.tex", "\\include{intro}"), ("doc/intro.tex", "Intro text")],
        "doc/main.tex",
        false,
    );
    assert_eq!(
        result,
        "\\clearpage\n% BEGIN INCLUDED FILE: doc/intro.tex\nIntro text\n% END INCLUDED FILE: doc/intro.tex\n\\clearpage\n"
    );
}

#[test]
fn missing_file_leaves_line() {
    let result = expand(&[("doc/main.tex", "a\n\\input{missing}\nb")], "doc/main.tex", false);
    assert_eq!(result, "a\n\\input{missing}\nb\n");
}

#[test]
fn missing_file_keeps_comment_of_directive_line() {
    let result = expand(&[("doc/main.tex", "\\input{missing} % why")], "doc/main.tex", false);
    assert_eq!(result, "\\input{missing} % why\n");
}

#[test]
fn bare_name_is_preferred() {
    let files = [
        ("doc/main.tex", "\\input{chapter1}"),
        ("doc/chapter1", "bare"),
        ("doc/chapter1.tex", "suffixed"),
    ];
    let result = expand(&files, "doc/main.tex", false);
    assert_eq!(result, "% BEGIN INCLUDED FILE: doc/chapter1\nbare\n% END INCLUDED FILE: doc/chapter1\n");
}

#[test]
fn latex_suffix_is_tried_last() {
    let files = [("doc/main.tex", "\\input{appendix}"), ("doc/appendix.latex", "late")];
    let result = expand(&files, "doc/main.tex", false);
    assert_eq!(
        result,
        "% BEGIN INCLUDED FILE: doc/appendix.latex\nlate\n% END INCLUDED FILE: doc/appendix.latex\n"
    );
}

#[test]
fn resolver_reports_first_unknown_candidate() {
    let mut tbl = FileTable::new();
    match resolve_latex_file_path(&tbl, "doc", "ch") {
        Resolution::Unknown(p) => assert_eq!(p, "doc/ch"),
        other => panic!("unexpected {:?}", other),
    }
    tbl.insert("doc/ch".to_string(), FileState::Missing);
    match resolve_latex_file_path(&tbl, "doc", "ch") {
        Resolution::Unknown(p) => assert_eq!(p, "doc/ch.tex"),
        other => panic!("unexpected {:?}", other),
    }
    tbl.insert("doc/ch.tex".to_string(), FileState::Unreadable);
    match resolve_latex_file_path(&tbl, "doc", "ch") {
        Resolution::Found(p) => assert_eq!(p, "doc/ch.tex"),
        other => panic!("unexpected {:?}", other),
    }
}

#[test]
fn resolver_finds_nothing() {
    let mut tbl = FileTable::new();
    tbl.insert("d/x".to_string(), FileState::Missing);
    tbl.insert("d/x.tex".to_string(), FileState::Missing);
    tbl.insert("d/x.latex".to_string(), FileState::Missing);
    assert!(matches!(resolve_latex_file_path(&tbl, "d", "x"), Resolution::NotFound));
}

#[test]
fn cycle_ends_in_already_included() {
    let files = [
        ("doc/main.tex", "\\input{a}"),
        ("doc/a.tex", "A\n\\input{b}"),
        ("doc/b.tex", "B\n\\input{a}"),
    ];
    let result = expand(&files, "doc/main.tex", false);
    assert_eq!(
        result,
        "% BEGIN INCLUDED FILE: doc/a.tex\nA\n% BEGIN INCLUDED FILE: doc/b.tex\nB\n% ALREADY INCLUDED: a\n% END INCLUDED FILE: doc/b.tex\n% END INCLUDED FILE: doc/a.tex\n"
    );
}

#[test]
fn self_inclusion_terminates() {
    let files = [("doc/main.tex", "\\input{self}"), ("doc/self.tex", "S\n\\include{self}")];
    let result = expand(&files, "doc/main.tex", false);
    assert_eq!(
        result,
        "% BEGIN INCLUDED FILE: doc/self.tex\nS\n% ALREADY INCLUDED: self\n% END INCLUDED FILE: doc/self.tex\n"
    );
}

#[test]
fn diamond_includes_shared_file_once() {
    let files = [
        ("doc/main.tex", "\\input{a}\n\\input{b}"),
        ("doc/a.tex", "\\input{c}"),
        ("doc/b.tex", "\\input{c.tex}"),
        ("doc/c.tex", "C"),
    ];
    let result = expand(&files, "doc/main.tex", false);
    assert_eq!(result.matches("% BEGIN INCLUDED FILE: doc/c.tex").count(), 1);
    assert_eq!(result.matches("% BEGIN INCLUDED FILE: ").count(), 3);
    assert!(result.contains("% ALREADY INCLUDED: c.tex\n"));
}

#[test]
fn entry_file_is_not_marked_taken() {
    let files = [("doc/main.tex", "M\n\\input{sub}"), ("doc/sub.tex", "\\input{main}")];
    let result = expand(&files, "doc/main.tex", false);
    assert_eq!(result.matches("% BEGIN INCLUDED FILE: doc/main.tex").count(), 1);
    assert!(result.contains("% ALREADY INCLUDED: sub\n"));
}

#[test]
fn comment_line_becomes_empty_when_cut() {
    let files = [("doc/main.tex", "x\n% only a comment\ny % tail")];
    assert_eq!(expand(&files, "doc/main.tex", false), "x\n\ny \n");
}

#[test]
fn comment_line_kept_verbatim() {
    let files = [("doc/main.tex", "x\n% only a comment\ny % tail")];
    assert_eq!(expand(&files, "doc/main.tex", true), "x\n% only a comment\ny % tail\n");
}

#[test]
fn commented_directive_is_not_expanded() {
    let files = [("doc/main.tex", "% \\input{a}"), ("doc/a.tex", "A")];
    assert_eq!(expand(&files, "doc/main.tex", false), "\n");
}

#[test]
fn commented_directive_is_expanded_when_comments_kept() {
    let files = [("doc/main.tex", "% \\input{a}"), ("doc/a.tex", "A")];
    assert_eq!(
        expand(&files, "doc/main.tex", true),
        "% BEGIN INCLUDED FILE: doc/a.tex\nA\n% END INCLUDED FILE: doc/a.tex\n"
    );
}

#[test]
fn unreadable_file_leaves_line_and_is_taken() {
    let result = run(
        &[("doc/main.tex", "\\input{locked}\n\\input{locked}")],
        &["doc/locked.tex"],
        "doc/main.tex",
        false,
    )
    .unwrap();
    assert_eq!(result, "\\input{locked}\n% ALREADY INCLUDED: locked\n");
}

#[test]
fn missing_entry_is_an_error() {
    match run(&[], &[], "doc/none.tex", false) {
        Err(ExpandError::CannotRead(p)) => assert_eq!(p, "doc/none.tex"),
        other => panic!("unexpected {:?}", other),
    }
}

#[test]
fn unreadable_entry_is_an_error() {
    match run(&[], &["doc/dir.tex"], "doc/dir.tex", false) {
        Err(ExpandError::CannotRead(p)) => assert_eq!(p, "doc/dir.tex"),
        other => panic!("unexpected {:?}", other),
    }
}

#[test]
fn unknown_entry_is_asked_for() {
    let tbl = FileTable::new();
    match expand_latex_file(&tbl, "doc/main.tex", false) {
        Ok(Expansion::NeedsFile(p)) => assert_eq!(p, "doc/main.tex"),
        other => panic!("unexpected {:?}", other),
    }
}

#[test]
fn nested_files_resolve_in_their_own_directory() {
    let files = [
        ("doc/main.tex", "\\input{sub/part}"),
        ("doc/sub/part.tex", "\\input{leaf}"),
        ("doc/sub/leaf.tex", "L"),
    ];
    let result = expand(&files, "doc/main.tex", false);
    assert_eq!(
        result,
        "% BEGIN INCLUDED FILE: doc/sub/part.tex\n% BEGIN INCLUDED FILE: doc/sub/leaf.tex\nL\n% END INCLUDED FILE: doc/sub/leaf.tex\n% END INCLUDED FILE: doc/sub/part.tex\n"
    );
}

#[test]
fn entry_without_directory_resolves_against_empty_parent() {
    let files = [("main.tex", "\\input{a}"), ("a.tex", "A")];
    assert_eq!(expand(&files, "main.tex", false), "% BEGIN INCLUDED FILE: a.tex\nA\n% END INCLUDED FILE: a.tex\n");
}

#[test]
fn text_after_directive_is_dropped() {
    let files = [("doc/main.tex", "before \\input {a} after"), ("doc/a.tex", "A")];
    assert_eq!(
        expand(&files, "doc/main.tex", false),
        "% BEGIN INCLUDED FILE: doc/a.tex\nA\n% END INCLUDED FILE: doc/a.tex\n"
    );
}

#[test]
fn crlf_line_endings_are_removed() {
    let files = [("doc/main.tex", "a\r\nb\r\n\r\nc\r")];
    assert_eq!(expand(&files, "doc/main.tex", true), "a\nb\n\nc\r\n");
}

#[test]
fn empty_entry_gives_empty_text() {
    assert_eq!(expand(&[("doc/main.tex", "")], "doc/main.tex", false), "");
}

#[test]
fn content_expansion_with_base_dir() {
    let mut tbl = FileTable::new();
    tbl.insert("base/x".to_string(), FileState::Missing);
    tbl.insert("base/x.tex".to_string(), FileState::Text("X".to_string()));
    match expand_latex_content(&tbl, "1\n\\input{x}\n2\n", "base", false) {
        Expansion::Complete(t) => assert_eq!(
            t,
            "1\n% BEGIN INCLUDED FILE: base/x.tex\nX\n% END INCLUDED FILE: base/x.tex\n2\n"
        ),
        other => panic!("unexpected {:?}", other),
    }
}

#[test]
fn directive_forms() {
    assert_eq!(
        find_directive(&chars("\\input{a}")).map(|(d, n)| (d, n.into_iter().collect::<String>())),
        Some((Directive::Input, "a".to_string()))
    );
    assert_eq!(
        find_directive(&chars("x \\include \t{b c}y")).map(|(d, n)| (d, n.into_iter().collect::<String>())),
        Some((Directive::Include, "b c".to_string()))
    );
    assert_eq!(find_directive(&chars("\\input{}")), None);
    assert_eq!(find_directive(&chars("\\input{a")), None);
    assert_eq!(find_directive(&chars("\\inputx{a}")), None);
    assert_eq!(find_directive(&chars("\\includegraphics{fig}")), None);
}

#[test]
fn input_wins_over_include_on_one_line() {
    assert_eq!(
        find_directive(&chars("\\include{a} \\input{b}")).map(|(d, n)| (d, n.into_iter().collect::<String>())),
        Some((Directive::Input, "b".to_string()))
    );
}
