//! The `list` command: show facts in file order.
use vstd::prelude::*;
use crate::check::{display_path_colored, display_path_text, id_width, id_width_spec, tag_suffix, tag_suffix_chars};
use crate::color::{code_dim, enabled, paint, painted};
use crate::get::path_fact_labels;
use crate::id::{assign_spec, assign, ids_assigned};
use crate::locate::{copy_opt_string, labels_view};
use crate::model::{
    all_sheet_facts, display_name_of, opt_view, sheet_facts_view, sheets_facts, sheets_view, strings_view, FactSheet,
    PathFact, SheetV,
};
use crate::tags::{eval_spec, expr_error_message, matches_tag_expr, parse_expr_spec, validate_tag_expr};
use crate::text::{
    chars_of, chars_of_strings, concat2, concat_map, eq_ic, eq_ignore_case, join, join_with, lemma_concat_map_step,
    pad_right, padded, same, split_char, split_on, string_of, vv,
};

verus! {

/// Options for the list command.
pub struct ListOptions {
    pub file_filter: Option<String>,
    pub section_filter: Option<String>,
    pub has_command: bool,
    pub manual: bool,
    pub tags_expr: Option<String>,
}

/// Whether the filter's segments equal, ignoring ASCII case, the path's segments
/// from `start` on.
pub open spec fn segments_match(fp: Seq<Seq<char>>, pp: Seq<Seq<char>>, start: int) -> bool {
    forall|k: int| 0 <= k < fp.len() ==> eq_ignore_case(#[trigger] fp[k], pp[start + k])
}

/// Whether a `/`-separated section filter matches a `/`-separated section path:
/// its segments occur, ignoring ASCII case, as a contiguous run of the path's.
pub open spec fn section_matches_spec(path: Seq<char>, filter: Seq<char>) -> bool {
    let pp = split_char(path, '/');
    let fp = split_char(filter, '/');
    fp.len() > 0 && fp.len() <= pp.len() && exists|start: int|
        0 <= start <= pp.len() - fp.len() && #[trigger] segments_match(fp, pp, start)
}

/// Match a section filter against a path at any depth.
///
/// The filter is split by `/` into segments and matched as a contiguous
/// sub-path of the full section path. Children of matched sections are
/// included. Matching is case-insensitive.
pub fn section_matches(path_str: &str, filter: &str) -> (b: bool)
    ensures
        b == section_matches_spec(path_str@, filter@),
{
    let pp = split_on(chars_of(path_str).as_slice(), '/');
    let fp = split_on(chars_of(filter).as_slice(), '/');
    let ghost ppv = vv(pp@);
    let ghost fpv = vv(fp@);
    if fp.len() == 0 || fp.len() > pp.len() {
        return false;
    }
    let mut start: usize = 0;
    while start <= pp.len() - fp.len()
        invariant
            fp@.len() <= pp@.len(),
            ppv == vv(pp@),
            fpv == vv(fp@),
            ppv == split_char(path_str@, '/'),
            fpv == split_char(filter@, '/'),
            start <= pp@.len() - fp@.len() + 1,
            forall|s: int| 0 <= s < start ==> !#[trigger] segments_match(fpv, ppv, s),
        decreases pp@.len() - fp@.len() + 1 - start,
    {
        let mut k: usize = 0;
        let mut all = true;
        while k < fp.len()
            invariant
                k <= fp@.len(),
                start + fp@.len() <= pp@.len(),
                ppv == vv(pp@),
                fpv == vv(fp@),
                all == forall|j: int| 0 <= j < k ==> eq_ignore_case(#[trigger] fpv[j], ppv[start + j]),
            decreases fp.len() - k,
        {
            assert(start + k < pp@.len());
            assert(pp.len() == pp@.len());
            let idx: usize = start + k;
            proof {
                assert(fpv[k as int] == fp@[k as int]@);
                assert(ppv[idx as int] == pp@[idx as int]@);
            }
            if !eq_ic(fp[k].as_slice(), pp[idx].as_slice()) {
                all = false;
            }
            k += 1;
        }
        if all {
            assert(segments_match(fpv, ppv, start as int));
            return true;
        }
        start += 1;
    }
    false
}

/// The line shown for a fact: its dimmed, padded id, two spaces, its place and
/// label, and its tags.
pub open spec fn fact_line_text(
    on: bool,
    dn: Seq<char>,
    path: Seq<Seq<char>>,
    id: Seq<char>,
    label: Seq<char>,
    tags: Seq<Seq<char>>,
    id_width: nat,
) -> Seq<char> {
    painted(code_dim(), pad_right(id, id_width), on) + seq![' ', ' '] + display_path_text(on, dn, path, label) + tag_suffix(
        on,
        tags,
    )
}

/// Format a single fact line for display.
pub fn format_fact_line(
    on: bool,
    sheet: &FactSheet,
    section_path: &[String],
    id: &str,
    label: &str,
    tags: &[String],
    id_width: usize,
) -> (r: String)
    ensures
        r@ == fact_line_text(
            on,
            display_name_of(sheet.filename@),
            strings_view(section_path@),
            id@,
            label@,
            strings_view(tags@),
            id_width as nat,
        ),
{
    let dimc = vec!['2'];
    assert(dimc@ =~= code_dim());
    let dim_id = paint(dimc.as_slice(), padded(chars_of(id).as_slice(), id_width).as_slice(), on);
    let two = vec![' ', ' '];
    assert(two@ =~= seq![' ', ' ']);
    let head = concat2(dim_id.as_slice(), two.as_slice());
    let place = display_path_colored(on, sheet, section_path, label);
    let body = concat2(head.as_slice(), chars_of(place.as_str()).as_slice());
    string_of(concat2(body.as_slice(), tag_suffix_chars(on, tags).as_slice()).as_slice())
}

/// Whether the sheet passes the file filter: its name, or its name with `.facts` added.
pub open spec fn file_matches(filename: Seq<char>, filter: Option<Seq<char>>) -> bool {
    match filter {
        Some(f) => filename == f || filename == f + ".facts"@,
        None => true,
    }
}

/// The file filter `f` keeps a sheet exactly when the sheet's file name is `f`
/// itself or `f` followed by `.facts`; with no filter every sheet is kept.
pub proof fn law_file_filter(opts: ListOptions, filename: Seq<char>, pf: PathFact)
    ensures
        opt_view(opts.file_filter) matches Some(f) ==> (file_matches(filename, Some(f)) <==> (filename == f || filename
            == f + ".facts"@)),
        opt_view(opts.file_filter) matches Some(f) ==> (filename == f ==> file_matches(filename, Some(f))),
        opt_view(opts.file_filter) matches Some(f) ==> (filename == f + ".facts"@ ==> file_matches(filename, Some(f))),
        opts.file_filter is None ==> file_matches(filename, None),
        list_selected(opts, filename, pf) ==> file_matches(filename, opt_view(opts.file_filter)),
{
}

/// Whether a fact of a sheet named `filename` passes the filters of the options.
pub open spec fn list_selected(opts: ListOptions, filename: Seq<char>, pf: PathFact) -> bool {
    &&& file_matches(filename, opt_view(opts.file_filter))
    &&& match opt_view(opts.section_filter) {
        Some(s) => section_matches_spec(join(pf.0, seq!['/']), s),
        None => true,
    }
    &&& !(opts.has_command && pf.1.command is None)
    &&& !(opts.manual && pf.1.command is Some)
    &&& match opt_view(opts.tags_expr) {
        Some(e) => match parse_expr_spec(e) {
            Ok(x) => eval_spec(x, pf.1.tags),
            Err(_) => false,
        },
        None => true,
    }
}

/// The lines listed: one per selected fact, in file order, with the id at its position.
pub open spec fn listing(opts: ListOptions, on: bool, ss: Seq<SheetV>, ids: Seq<Seq<char>>, w: nat) -> Seq<Seq<char>> {
    concat_map(
        sheets_facts(ss),
        |k: int, e: (int, PathFact)|
            if list_selected(opts, ss[e.0].filename, e.1) {
                seq![fact_line_text(on, display_name_of(ss[e.0].filename), e.1.0, ids[k], e.1.1.label, e.1.1.tags, w)]
            } else {
                seq![]
            },
    )
}

/// Why the options are refused, if they are: a tag expression that does not parse.
pub open spec fn list_options_error(opts: ListOptions) -> Option<Seq<char>> {
    match opt_view(opts.tags_expr) {
        Some(e) => match parse_expr_spec(e) {
            Err(x) => Some("invalid tag expression: "@ + expr_error_message(x)),
            Ok(_) => None,
        },
        None => None,
    }
}

fn file_filter_matches(filename: &str, filter: &Option<String>) -> (b: bool)
    ensures
        b == file_matches(filename@, opt_view(*filter)),
{
    match filter {
        Some(f) => {
            let n = chars_of(filename);
            let fc = chars_of(f.as_str());
            same(n.as_slice(), fc.as_slice()) || same(n.as_slice(), concat2(fc.as_slice(), chars_of(".facts").as_slice()).as_slice())
        },
        None => true,
    }
}

/// The lines `list` shows for `sheets`, computing IDs over all their facts.
pub fn list_lines(opts: &ListOptions, sheets: &Vec<FactSheet>) -> (r: Result<Vec<String>, String>)
    ensures
        match list_options_error(*opts) {
            Some(m) => r matches Err(e) && e@ == m,
            None => exists|on: bool|
                #![trigger listing(*opts, on, sheets_view(sheets@), assign_spec(path_fact_labels(sheets_facts(sheets_view(sheets@)))), id_width_spec(assign_spec(path_fact_labels(sheets_facts(sheets_view(sheets@))))))]
                r matches Ok(lines) && strings_view(lines@) == listing(
                    *opts,
                    on,
                    sheets_view(sheets@),
                    assign_spec(path_fact_labels(sheets_facts(sheets_view(sheets@)))),
                    id_width_spec(assign_spec(path_fact_labels(sheets_facts(sheets_view(sheets@))))),
                ),
        },
{
    match &opts.tags_expr {
        Some(expr) => match validate_tag_expr(expr.as_str()) {
            Ok(()) => {},
            Err(m) => {
                return Err(string_of(concat2(chars_of("invalid tag expression: ").as_slice(), chars_of(m.as_str()).as_slice()).as_slice()));
            },
        },
        None => {},
    }
    let flat = all_sheet_facts(sheets);
    let ghost fs = sheet_facts_view(flat@);
    let ghost ss = sheets_view(sheets@);
    assert forall|j: int| 0 <= j < fs.len() implies 0 <= #[trigger] fs[j].0 < ss.len() by {
        assert(fs[j].0 == flat@[j].0 as int);
    }
    let mut labels: Vec<(String, Option<String>)> = Vec::new();
    let mut i: usize = 0;
    while i < flat.len()
        invariant
            i <= flat@.len(),
            fs == sheet_facts_view(flat@),
            labels_view(labels@) =~= path_fact_labels(fs.take(i as int)),
        decreases flat.len() - i,
    {
        let ghost l0 = labels_view(labels@);
        labels.push((flat[i].2.label.clone(), copy_opt_string(&flat[i].2.explicit_id)));
        proof {
            assert(labels_view(labels@) =~= l0.push((fs[i as int].1.1.label, fs[i as int].1.1.explicit_id)));
            assert(path_fact_labels(fs.take(i + 1)) =~= path_fact_labels(fs.take(i as int)).push(
                (fs[i as int].1.1.label, fs[i as int].1.1.explicit_id),
            ));
        }
        i += 1;
    }
    assert(fs.take(i as int) =~= fs);
    let ids = assign(&labels);
    let ghost iv = strings_view(ids@);
    let w = id_width(&ids);
    let on = enabled();
    let ghost f = |k: int, e: (int, PathFact)|
        if list_selected(*opts, ss[e.0].filename, e.1) {
            seq![fact_line_text(on, display_name_of(ss[e.0].filename), e.1.0, iv[k], e.1.1.label, e.1.1.tags, w as nat)]
        } else {
            seq![]
        };
    let mut out: Vec<String> = Vec::new();
    let mut k: usize = 0;
    while k < flat.len()
        invariant
            k <= flat@.len(),
            fs == sheet_facts_view(flat@),
            fs =~= sheets_facts(ss),
            ss == sheets_view(sheets@),
            iv == strings_view(ids@),
            iv.len() == fs.len(),
            forall|j: int| 0 <= j < fs.len() ==> 0 <= #[trigger] fs[j].0 < ss.len(),
            f == (|k: int, e: (int, PathFact)|
                if list_selected(*opts, ss[e.0].filename, e.1) {
                    seq![fact_line_text(on, display_name_of(ss[e.0].filename), e.1.0, iv[k], e.1.1.label, e.1.1.tags, w as nat)]
                } else {
                    seq![]
                }),
            strings_view(out@) =~= concat_map(fs.take(k as int), f),
        decreases flat.len() - k,
    {
        proof {
            lemma_concat_map_step(fs, f, k as int);
        }
        let sheet = &sheets[flat[k].0];
        let path = &flat[k].1;
        let fact = flat[k].2;
        let ghost e = fs[k as int];
        proof {
            assert(ss[e.0] == sheet@);
        }
        let mut keep = file_filter_matches(sheet.filename.as_str(), &opts.file_filter);
        match &opts.section_filter {
            Some(s) => {
                let slash = vec!['/'];
                assert(slash@ =~= seq!['/']);
                let joined = join_with(&chars_of_strings(path.as_slice()), slash.as_slice());
                if !section_matches(string_of(joined.as_slice()).as_str(), s.as_str()) {
                    keep = false;
                }
            },
            None => {},
        }
        if opts.has_command && fact.command.is_none() {
            keep = false;
        }
        if opts.manual && fact.command.is_some() {
            keep = false;
        }
        match &opts.tags_expr {
            Some(expr) => {
                if !matches_tag_expr(expr.as_str(), fact.tags.as_slice()) {
                    keep = false;
                }
            },
            None => {},
        }
        assert(keep == list_selected(*opts, ss[e.0].filename, e.1));
        if keep {
            let line = format_fact_line(on, sheet, path.as_slice(), ids[k].as_str(), fact.label.as_str(), fact.tags.as_slice(), w);
            let ghost o0 = strings_view(out@);
            out.push(line);
            assert(strings_view(out@) =~= o0.push(line@));
        }
        k += 1;
    }
    assert(fs.take(k as int) =~= fs);
    assert(ids_assigned(path_fact_labels(sheets_facts(ss)), iv));
    assert(strings_view(out@) == listing(*opts, on, ss, iv, id_width_spec(iv)));
    Ok(out)
}

} // verus!
