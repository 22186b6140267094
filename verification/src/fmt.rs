//! The `fmt` subcommand: sheets are normalized only when none of them has a
//! lint error, and a sheet is rewritten only when its text changes.
use vstd::prelude::*;
use crate::check::{lint_error_lines, lint_error_texts};
use crate::lint::{lint_content, lint_spec};
use crate::model::strings_view;
use crate::parser::{parse, parse_spec, ParseError};
use crate::text::{chars_of, concat_map, lemma_concat_map_step, same, string_of};
use crate::writer::sheet_text;

verus! {

/// The normalized text of a sheet, or `None` when it is normalized already.
pub fn format_sheet(content: &str, filename: &str) -> (r: Result<Option<String>, ParseError>)
    ensures
        match (r, parse_spec(content@, filename@)) {
            (Ok(None), Ok(ss)) => sheet_text(ss) == content@,
            (Ok(Some(t)), Ok(ss)) => t@ == sheet_text(ss) && t@ != content@,
            (Err(e), Err(se)) => e@ == se,
            _ => false,
        },
{
    match parse(content, filename) {
        Err(e) => Err(e),
        Ok(sheet) => {
            let out = crate::writer::write(&sheet);
            let a = chars_of(out.as_str());
            let b = chars_of(content);
            if same(a.as_slice(), b.as_slice()) {
                Ok(None)
            } else {
                Ok(Some(out))
            }
        },
    }
}

/// The outcome of formatting a set of sheets.
pub enum FmtOutcome {
    /// Some sheet has lint errors; these are their lines, and nothing is written.
    Aborted(Vec<String>),
    /// The sheet at this index does not parse.
    ParseFailed(usize, ParseError),
    /// For each sheet, its new text when it changes.
    Formatted(Vec<Option<String>>),
}

/// The lines reported for the lint errors of all sheets (file name, content).
pub open spec fn all_error_lines(files: Seq<(Seq<char>, Seq<char>)>) -> Seq<Seq<char>> {
    concat_map(files, |i: int, f: (Seq<char>, Seq<char>)| lint_error_texts(false, lint_spec(f.1, f.0)))
}

/// Sheets as (file name, content) pairs of character sequences.
pub open spec fn files_view(v: Seq<(String, String)>) -> Seq<(Seq<char>, Seq<char>)> {
    v.map_values(|p: (String, String)| (p.0@, p.1@))
}

fn error_lines_of(files: &Vec<(String, String)>) -> (lines: Vec<String>)
    ensures
        strings_view(lines@) == all_error_lines(files_view(files@)),
{
    let ghost fv = files_view(files@);
    let ghost f = |i: int, p: (Seq<char>, Seq<char>)| lint_error_texts(false, lint_spec(p.1, p.0));
    let mut lines: Vec<String> = Vec::new();
    let mut i: usize = 0;
    assert(fv.take(0) =~= Seq::<(Seq<char>, Seq<char>)>::empty());
    while i < files.len()
        invariant
            i <= files@.len(),
            fv == files_view(files@),
            f == (|i: int, p: (Seq<char>, Seq<char>)| lint_error_texts(false, lint_spec(p.1, p.0))),
            strings_view(lines@) == concat_map(fv.take(i as int), f),
        decreases files.len() - i,
    {
        let diags = lint_content(files[i].1.as_str(), files[i].0.as_str());
        let mut more = lint_error_lines(false, &diags);
        let ghost before = lines@;
        let ghost added = more@;
        proof {
            lemma_concat_map_step(fv, f, i as int);
            assert(fv[i as int] == (files@[i as int].0@, files@[i as int].1@));
        }
        lines.append(&mut more);
        assert(lines@ == before + added);
        assert(strings_view(lines@) =~= strings_view(before) + strings_view(added));
        i += 1;
    }
    assert(fv.take(files@.len() as int) =~= fv);
    lines
}

/// Whether formatting gave `out` for the sheet `file` (file name, content).
pub open spec fn formatted_as(out: Option<String>, file: (String, String)) -> bool {
    match (out, parse_spec(file.1@, file.0@)) {
        (None, Ok(ss)) => sheet_text(ss) == file.1@,
        (Some(t), Ok(ss)) => t@ == sheet_text(ss) && t@ != file.1@,
        _ => false,
    }
}

fn format_all(files: &Vec<(String, String)>) -> (r: FmtOutcome)
    ensures
        match r {
            FmtOutcome::Aborted(_) => false,
            FmtOutcome::ParseFailed(i, e) => {
                &&& i < files@.len()
                &&& parse_spec(files@[i as int].1@, files@[i as int].0@) == Err::<crate::model::SheetV, _>(e@)
                &&& forall|j: int| 0 <= j < i ==> parse_spec(#[trigger] files@[j].1@, files@[j].0@) is Ok
            },
            FmtOutcome::Formatted(outs) => {
                &&& outs@.len() == files@.len()
                &&& forall|j: int| 0 <= j < files@.len() ==> formatted_as(#[trigger] outs@[j], files@[j])
            },
        },
{
    let mut outs: Vec<Option<String>> = Vec::new();
    let mut k: usize = 0;
    while k < files.len()
        invariant
            k <= files@.len(),
            outs@.len() == k,
            forall|j: int| 0 <= j < k ==> formatted_as(#[trigger] outs@[j], files@[j]),
        decreases files.len() - k,
    {
        match format_sheet(files[k].1.as_str(), files[k].0.as_str()) {
            Err(e) => {
                assert forall|j: int| 0 <= j < k implies parse_spec(#[trigger] files@[j].1@, files@[j].0@) is Ok by {
                    assert(formatted_as(outs@[j], files@[j]));
                }
                return FmtOutcome::ParseFailed(k, e);
            },
            Ok(o) => {
                outs.push(o);
            },
        }
        k += 1;
    }
    FmtOutcome::Formatted(outs)
}

/// Format the sheets `files` (file name, content of each): abort with the
/// lint error lines when there are any, else normalize each sheet.
pub fn run(files: &Vec<(String, String)>) -> (r: FmtOutcome)
    ensures
        match r {
            FmtOutcome::Aborted(lines) => {
                &&& all_error_lines(files_view(files@)).len() > 0
                &&& strings_view(lines@) == all_error_lines(files_view(files@))
            },
            FmtOutcome::ParseFailed(i, e) => {
                &&& all_error_lines(files_view(files@)).len() == 0
                &&& i < files@.len()
                &&& parse_spec(files@[i as int].1@, files@[i as int].0@) == Err::<crate::model::SheetV, _>(e@)
                &&& forall|j: int| 0 <= j < i ==> parse_spec(#[trigger] files@[j].1@, files@[j].0@) is Ok
            },
            FmtOutcome::Formatted(outs) => {
                &&& all_error_lines(files_view(files@)).len() == 0
                &&& outs@.len() == files@.len()
                &&& forall|j: int| 0 <= j < files@.len() ==> formatted_as(#[trigger] outs@[j], files@[j])
            },
        },
{
    let lines = error_lines_of(files);
    if lines.len() > 0 {
        return FmtOutcome::Aborted(lines);
    }
    format_all(files)
}

} // verus!
