//! The `check` command: which command-facts to run, and how each result and the
//! summary are shown. Running the commands is left to the caller.
use vstd::prelude::*;
use crate::color::{code_bold, code_dim, code_green, code_red, code_yellow, enabled, paint, painted};
use crate::lint::{DiagV, LintDiagnostic, Severity, diags_view};
use crate::model::{
    display_name_of, opt_view, sheet_facts, sheets_facts, sheets_view, strings_view, path_facts_view, Fact, FactSheet,
    PathFact, SheetV, SheetFact, sheet_facts_view, all_sheet_facts, copy_strings,
};
use crate::tags::{eval_search_spec, eval_spec, matches_search_expr, matches_tag_expr, parse_expr_spec, validate_tag_expr, expr_error_message};
use crate::text::{
    chars_of, chars_of_strings, concat2, concat3, concat_map, decimal, decimal_chars, i32_chars, int_text, join, join_with,
    lemma_concat_map_step, lines, lower_seq, pad_right, padded, space_chars, spaces, split_lines, string_of, strings_of,
    trim, trimmed, vv,
};

verus! {

/// Options for the check command.
pub struct CheckOptions {
    pub tags_expr: Option<String>,
    pub search_expr: Option<String>,
    pub depth: Option<usize>,
    pub timeout: Option<u64>,
}

/// How a command-fact fared.
pub enum CheckStatus {
    Passed { command: String },
    Failed { command: String, exit_code: i32, stderr: String },
    Manual,
}

/// Result of running a single command-fact.
pub struct CheckResult {
    pub id: String,
    pub display_path: String,
    pub tags: Vec<String>,
    pub status: CheckStatus,
}

/// A fact chosen to be checked: what is shown for it and its command, if any.
pub struct CheckItem {
    pub id: String,
    pub display_path: String,
    pub tags: Vec<String>,
    pub command: Option<String>,
}

pub struct ItemV {
    pub id: Seq<char>,
    pub display_path: Seq<char>,
    pub tags: Seq<Seq<char>>,
    pub command: Option<Seq<char>>,
}

impl View for CheckItem {
    type V = ItemV;

    open spec fn view(&self) -> ItemV {
        ItemV {
            id: self.id@,
            display_path: self.display_path@,
            tags: strings_view(self.tags@),
            command: opt_view(self.command),
        }
    }
}

// ---------------------------------------------------------------------------
// Display of a fact's place
// ---------------------------------------------------------------------------

/// The parts of a fact's place: the file (unless it is the default file), then its sections.
pub open spec fn display_parts(dn: Seq<char>, path: Seq<Seq<char>>) -> Seq<Seq<char>> {
    if dn.len() == 0 { path } else { seq![dn] + path }
}

/// ` > ` with the `>` dimmed when `on`.
pub open spec fn arrow_sep(on: bool) -> Seq<char> {
    seq![' '] + painted(code_dim(), seq!['>'], on) + seq![' ']
}

/// Each part in bold when `on`.
pub open spec fn bold_parts(parts: Seq<Seq<char>>, on: bool) -> Seq<Seq<char>> {
    parts.map_values(|p: Seq<char>| painted(code_bold(), p, on))
}

/// File > section > label, colored when `on`.
pub open spec fn display_path_text(on: bool, dn: Seq<char>, path: Seq<Seq<char>>, label: Seq<char>) -> Seq<char> {
    let parts = display_parts(dn, path);
    if parts.len() == 0 {
        label
    } else {
        join(bold_parts(parts, on), arrow_sep(on)) + arrow_sep(on) + label
    }
}

/// File > section > label, without color.
pub open spec fn display_path_plain(dn: Seq<char>, path: Seq<Seq<char>>, label: Seq<char>) -> Seq<char> {
    join(display_parts(dn, path).push(label), seq![' ', '>', ' '])
}

fn parts_of(sheet: &FactSheet, section_path: &[String]) -> (r: Vec<Vec<char>>)
    ensures
        vv(r@) == display_parts(display_name_of(sheet.filename@), strings_view(section_path@)),
{
    let dn = chars_of(sheet.display_name());
    let path = chars_of_strings(section_path);
    if dn.len() == 0 {
        path
    } else {
        let mut parts: Vec<Vec<char>> = Vec::new();
        parts.push(dn);
        let mut path = path;
        let ghost p0 = vv(path@);
        parts.append(&mut path);
        assert(vv(parts@) =~= seq![dn@] + p0);
        parts
    }
}

fn arrow_sep_chars(on: bool) -> (r: Vec<char>)
    ensures
        r@ == arrow_sep(on),
{
    let a = concat2(vec![' '].as_slice(), paint(vec!['2'].as_slice(), vec!['>'].as_slice(), on).as_slice());
    concat2(a.as_slice(), vec![' '].as_slice())
}

fn bold_all(parts: &Vec<Vec<char>>, on: bool) -> (r: Vec<Vec<char>>)
    ensures
        vv(r@) =~= bold_parts(vv(parts@), on),
{
    let mut r: Vec<Vec<char>> = Vec::new();
    let code = vec!['1'];
    assert(code@ =~= code_bold());
    let mut i: usize = 0;
    while i < parts.len()
        invariant
            i <= parts@.len(),
            code@ == code_bold(),
            vv(r@) =~= bold_parts(vv(parts@), on).take(i as int),
        decreases parts.len() - i,
    {
        let b = paint(code.as_slice(), parts[i].as_slice(), on);
        let ghost r0 = vv(r@);
        r.push(b);
        proof {
            assert(vv(parts@)[i as int] == parts@[i as int]@);
            assert(vv(r@) =~= r0.push(b@));
            assert(bold_parts(vv(parts@), on).take(i + 1) =~= bold_parts(vv(parts@), on).take(i as int).push(b@));
        }
        i += 1;
    }
    assert(bold_parts(vv(parts@), on).take(i as int) =~= bold_parts(vv(parts@), on));
    r
}

/// Format the display path for a fact (file > section > label), colored when `on`.
pub fn display_path_colored(on: bool, sheet: &FactSheet, section_path: &[String], label: &str) -> (r: String)
    ensures
        r@ == display_path_text(on, display_name_of(sheet.filename@), strings_view(section_path@), label@),
{
    let parts = parts_of(sheet, section_path);
    if parts.len() == 0 {
        return string_of(chars_of(label).as_slice());
    }
    let sep = arrow_sep_chars(on);
    let joined = join_with(&bold_all(&parts, on), sep.as_slice());
    let head = concat2(joined.as_slice(), sep.as_slice());
    string_of(concat2(head.as_slice(), chars_of(label).as_slice()).as_slice())
}

/// Format the display path for a fact (file > section > label).
pub fn format_display_path(sheet: &FactSheet, section_path: &[String], label: &str) -> (r: String)
    ensures
        r@ == display_path_text(true, display_name_of(sheet.filename@), strings_view(section_path@), label@)
            || r@ == display_path_text(false, display_name_of(sheet.filename@), strings_view(section_path@), label@),
{
    display_path_colored(enabled(), sheet, section_path, label)
}

/// Format the display path without color.
pub fn format_display_path_plain(sheet: &FactSheet, section_path: &[String], label: &str) -> (r: String)
    ensures
        r@ == display_path_plain(display_name_of(sheet.filename@), strings_view(section_path@), label@),
{
    let mut parts = parts_of(sheet, section_path);
    let ghost p0 = vv(parts@);
    parts.push(chars_of(label));
    assert(vv(parts@) =~= p0.push(label@));
    string_of(join_with(&parts, vec![' ', '>', ' '].as_slice()).as_slice())
}

// ---------------------------------------------------------------------------
// Tags and search text
// ---------------------------------------------------------------------------

/// Each tag with an `@` in front.
pub open spec fn at_words(tags: Seq<Seq<char>>) -> Seq<Seq<char>> {
    tags.map_values(|t: Seq<char>| seq!['@'] + t)
}

/// Two spaces and the dimmed `@tag`s, or nothing when there are no tags.
pub open spec fn tag_suffix(on: bool, tags: Seq<Seq<char>>) -> Seq<char> {
    if tags.len() == 0 {
        seq![]
    } else {
        seq![' ', ' '] + painted(code_dim(), join(at_words(tags), seq![' ']), on)
    }
}

fn at_word_list(tags: &Vec<Vec<char>>) -> (r: Vec<Vec<char>>)
    ensures
        vv(r@) =~= at_words(vv(tags@)),
{
    let mut r: Vec<Vec<char>> = Vec::new();
    let at = vec!['@'];
    assert(at@ =~= seq!['@']);
    let mut i: usize = 0;
    while i < tags.len()
        invariant
            i <= tags@.len(),
            at@ == seq!['@'],
            vv(r@) =~= at_words(vv(tags@)).take(i as int),
        decreases tags.len() - i,
    {
        let w = concat2(at.as_slice(), tags[i].as_slice());
        let ghost r0 = vv(r@);
        r.push(w);
        proof {
            assert(vv(tags@)[i as int] == tags@[i as int]@);
            assert(vv(r@) =~= r0.push(w@));
            assert(at_words(vv(tags@)).take(i + 1) =~= at_words(vv(tags@)).take(i as int).push(w@));
        }
        i += 1;
    }
    assert(at_words(vv(tags@)).take(i as int) =~= at_words(vv(tags@)));
    r
}

/// Format tag suffix for display (dimmed @tag @tag).
pub fn tag_suffix_chars(on: bool, tags: &[String]) -> (r: Vec<char>)
    ensures
        r@ == tag_suffix(on, strings_view(tags@)),
{
    if tags.len() == 0 {
        return Vec::new();
    }
    let words = at_word_list(&chars_of_strings(tags));
    let sp = vec![' '];
    assert(sp@ =~= seq![' ']);
    let joined = join_with(&words, sp.as_slice());
    let two = vec![' ', ' '];
    assert(two@ =~= seq![' ', ' ']);
    let code = vec!['2'];
    assert(code@ =~= code_dim());
    concat2(two.as_slice(), paint(code.as_slice(), joined.as_slice(), on).as_slice())
}

/// The text a search expression is matched against: sections, label and tags.
pub open spec fn haystack(path: Seq<Seq<char>>, label: Seq<char>, tags: Seq<Seq<char>>) -> Seq<char> {
    join(path.push(label) + tags, seq![' '])
}

/// The text a search expression is matched against: sections, label and tags.
pub fn build_search_haystack(section_path: &[String], label: &str, tags: &[String]) -> (r: String)
    ensures
        r@ == haystack(strings_view(section_path@), label@, strings_view(tags@)),
{
    let mut parts = chars_of_strings(section_path);
    let ghost pp = vv(parts@);
    parts.push(chars_of(label));
    assert(vv(parts@) =~= pp.push(label@));
    let mut t = chars_of_strings(tags);
    let ghost p0 = vv(parts@);
    let ghost t0 = vv(t@);
    parts.append(&mut t);
    assert(vv(parts@) =~= p0 + t0);
    let sp = vec![' '];
    assert(sp@ =~= seq![' ']);
    string_of(join_with(&parts, sp.as_slice()).as_slice())
}

// ---------------------------------------------------------------------------
// Which facts are checked
// ---------------------------------------------------------------------------

/// Whether a fact passes the tag, depth and search filters.
pub open spec fn fact_selected(
    tags_expr: Option<Seq<char>>,
    search_expr: Option<Seq<char>>,
    depth: Option<usize>,
    pf: PathFact,
) -> bool {
    &&& match tags_expr {
        Some(e) => match parse_expr_spec(e) {
            Ok(x) => eval_spec(x, pf.1.tags),
            Err(_) => false,
        },
        None => true,
    }
    &&& match depth {
        Some(d) => pf.0.len() <= d,
        None => true,
    }
    &&& match search_expr {
        Some(e) => match parse_expr_spec(e) {
            Ok(x) => eval_search_spec(x, lower_seq(haystack(pf.0, pf.1.label, pf.1.tags))),
            Err(_) => false,
        },
        None => true,
    }
}

/// What is shown and run for a selected fact.
pub open spec fn item_for(on: bool, sh: SheetV, id: Seq<char>, pf: PathFact) -> ItemV {
    ItemV {
        id,
        display_path: display_path_text(on, display_name_of(sh.filename), pf.0, pf.1.label),
        tags: pf.1.tags,
        command: pf.1.command,
    }
}

/// The facts to check, in file order, each with the id at its position.
pub open spec fn selection(opts: CheckOptions, on: bool, ss: Seq<SheetV>, ids: Seq<Seq<char>>) -> Seq<ItemV> {
    concat_map(
        sheets_facts(ss),
        |k: int, e: (int, PathFact)|
            if fact_selected(opt_view(opts.tags_expr), opt_view(opts.search_expr), opts.depth, e.1) {
                seq![item_for(on, ss[e.0], ids[k], e.1)]
            } else {
                seq![]
            },
    )
}

pub open spec fn items_view(v: Seq<CheckItem>) -> Seq<ItemV> {
    v.map_values(|c: CheckItem| c@)
}

fn copy_opt(o: &Option<String>) -> (r: Option<String>)
    ensures
        opt_view(r) == opt_view(*o),
{
    match o {
        Some(s) => Some(s.clone()),
        None => None,
    }
}

/// The facts to check, in file order; `ids` holds the id of every fact of every
/// sheet, in the same order.
pub fn select_facts(opts: &CheckOptions, sheets: &Vec<FactSheet>, ids: &Vec<String>, on: bool) -> (r: Vec<CheckItem>)
    requires
        ids@.len() == sheets_facts(sheets_view(sheets@)).len(),
    ensures
        items_view(r@) =~= selection(*opts, on, sheets_view(sheets@), strings_view(ids@)),
{
    let flat = all_sheet_facts(sheets);
    let ghost fs = sheet_facts_view(flat@);
    assert forall|j: int| 0 <= j < fs.len() implies 0 <= #[trigger] fs[j].0 < sheets_view(sheets@).len() by {
        assert(fs[j].0 == flat@[j].0 as int);
    }
    let ghost ss = sheets_view(sheets@);
    let ghost f = |k: int, e: (int, PathFact)|
        if fact_selected(opt_view(opts.tags_expr), opt_view(opts.search_expr), opts.depth, e.1) {
            seq![item_for(on, ss[e.0], strings_view(ids@)[k], e.1)]
        } else {
            seq![]
        };
    let mut r: Vec<CheckItem> = Vec::new();
    let mut k: usize = 0;
    while k < flat.len()
        invariant
            k <= flat@.len(),
            fs == sheet_facts_view(flat@),
            fs =~= sheets_facts(ss),
            ss == sheets_view(sheets@),
            ids@.len() == fs.len(),
            f == (|k: int, e: (int, PathFact)|
                if fact_selected(opt_view(opts.tags_expr), opt_view(opts.search_expr), opts.depth, e.1) {
                    seq![item_for(on, ss[e.0], strings_view(ids@)[k], e.1)]
                } else {
                    seq![]
                }),
            forall|j: int| 0 <= j < fs.len() ==> 0 <= #[trigger] fs[j].0 < ss.len(),
            items_view(r@) =~= concat_map(fs.take(k as int), f),
        decreases flat.len() - k,
    {
        proof {
            lemma_concat_map_step(fs, f, k as int);
        }
        let sheet_idx = flat[k].0;
        let path = &flat[k].1;
        let fact = flat[k].2;
        let ghost e = fs[k as int];
        assert(e == (sheet_idx as int, (strings_view(path@), fact@)));
        let mut keep = true;
        match &opts.tags_expr {
            Some(expr) => {
                if !matches_tag_expr(expr.as_str(), fact.tags.as_slice()) {
                    keep = false;
                }
            },
            None => {},
        }
        match opts.depth {
            Some(d) => {
                if path.len() > d {
                    keep = false;
                }
            },
            None => {},
        }
        match &opts.search_expr {
            Some(expr) => {
                let hay = build_search_haystack(path.as_slice(), fact.label.as_str(), fact.tags.as_slice());
                if !matches_search_expr(expr.as_str(), hay.as_str()) {
                    keep = false;
                }
            },
            None => {},
        }
        assert(keep == fact_selected(opt_view(opts.tags_expr), opt_view(opts.search_expr), opts.depth, e.1));
        if keep {
            let display_path = display_path_colored(on, &sheets[sheet_idx], path.as_slice(), fact.label.as_str());
            let item = CheckItem {
                id: ids[k].clone(),
                display_path,
                tags: copy_strings(&fact.tags),
                command: copy_opt(&fact.command),
            };
            let ghost r0 = items_view(r@);
            r.push(item);
            proof {
                assert(ss[sheet_idx as int] == sheets@[sheet_idx as int]@);
                assert(item@ == item_for(on, ss[e.0], strings_view(ids@)[k as int], e.1));
                assert(items_view(r@) =~= r0.push(item@));
            }
        }
        k += 1;
    }
    assert(fs.take(k as int) =~= fs);
    r
}

// ---------------------------------------------------------------------------
// Showing results
// ---------------------------------------------------------------------------

/// Abstract value of a status.
pub enum StatusV {
    Passed(Seq<char>),
    Failed(Seq<char>, int, Seq<char>),
    Manual,
}

pub struct ResultV {
    pub id: Seq<char>,
    pub display_path: Seq<char>,
    pub tags: Seq<Seq<char>>,
    pub status: StatusV,
}

impl View for CheckResult {
    type V = ResultV;

    open spec fn view(&self) -> ResultV {
        ResultV {
            id: self.id@,
            display_path: self.display_path@,
            tags: strings_view(self.tags@),
            status: match self.status {
                CheckStatus::Passed { command } => StatusV::Passed(command@),
                CheckStatus::Failed { command, exit_code, stderr } => StatusV::Failed(command@, exit_code as int, stderr@),
                CheckStatus::Manual => StatusV::Manual,
            },
        }
    }
}

/// How a finished command fared: passed on exit code 0, else failed with its
/// trimmed error output.
pub open spec fn status_spec(command: Seq<char>, exit_code: int, stderr: Seq<char>) -> StatusV {
    if exit_code == 0 {
        StatusV::Passed(command)
    } else {
        StatusV::Failed(command, exit_code, trim(stderr))
    }
}

/// A fact's command passed exactly when it exited with code 0; every other exit
/// code is a failure that reports that code and the command.
pub proof fn law_passed_iff_exit_zero(command: Seq<char>, exit_code: int, stderr: Seq<char>)
    ensures
        (status_spec(command, exit_code, stderr) is Passed) <==> exit_code == 0,
        exit_code == 0 ==> status_spec(command, exit_code, stderr) == StatusV::Passed(command),
        exit_code != 0 ==> (status_spec(command, exit_code, stderr) matches StatusV::Failed(c, k, _) && c == command && k
            == exit_code),
        !(status_spec(command, exit_code, stderr) is Manual),
{
}

/// The result of a selected fact: `outcome` is the exit code and error output of
/// its command, or `None` for a fact without a command.
pub fn result_for(item: &CheckItem, outcome: Option<(i32, String)>) -> (r: CheckResult)
    ensures
        r@.id == item@.id,
        r@.display_path == item@.display_path,
        r@.tags == item@.tags,
        r@.status == match (item@.command, outcome) {
            (Some(c), Some((code, err))) => status_spec(c, code as int, err@),
            _ => StatusV::Manual,
        },
{
    let status = match (&item.command, outcome) {
        (Some(c), Some((code, err))) => {
            if code == 0 {
                CheckStatus::Passed { command: c.clone() }
            } else {
                let t = trimmed(chars_of(err.as_str()).as_slice());
                CheckStatus::Failed { command: c.clone(), exit_code: code, stderr: string_of(t.as_slice()) }
            }
        },
        _ => CheckStatus::Manual,
    };
    CheckResult {
        id: item.id.clone(),
        display_path: item.display_path.clone(),
        tags: copy_strings(&item.tags),
        status,
    }
}

/// A detail line of a failed result: indent, dimmed key, a space, the text.
pub open spec fn detail_line(on: bool, indent: nat, key: Seq<char>, text: Seq<char>) -> Seq<char> {
    spaces(indent) + painted(code_dim(), key, on) + seq![' '] + text
}

/// The lines shown for one result.
pub open spec fn result_text(on: bool, r: ResultV, id_width: nat, indent: nat) -> Seq<Seq<char>> {
    let pid = pad_right(r.id, id_width);
    let suffix = tag_suffix(on, r.tags);
    match r.status {
        StatusV::Passed(c) => seq![
            "  "@ + painted(code_green(), "✓ "@ + pid, on) + " "@ + r.display_path + " "@ + painted(
                code_dim(),
                "("@ + c + ")"@,
                on,
            ) + suffix,
        ],
        StatusV::Failed(c, code, err) => seq![
            "  "@ + painted(code_red(), "✗ "@ + pid, on) + " "@ + r.display_path + suffix,
            detail_line(on, indent, "exit:"@, int_text(code)),
            detail_line(on, indent, "command:"@, c),
        ] + if err.len() == 0 {
            seq![]
        } else {
            lines(err).map_values(|l: Seq<char>| detail_line(on, indent, "stderr:"@, l))
        },
        StatusV::Manual => seq!["  "@ + painted(code_yellow(), "? "@ + pid, on) + " "@ + r.display_path + suffix],
    }
}

fn detail_chars(on: bool, indent: usize, key: &str, text: &[char]) -> (r: Vec<char>)
    ensures
        r@ == detail_line(on, indent as nat, key@, text@),
{
    let code = vec!['2'];
    assert(code@ =~= code_dim());
    let a = concat2(space_chars(indent).as_slice(), paint(code.as_slice(), chars_of(key).as_slice(), on).as_slice());
    let sp = vec![' '];
    assert(sp@ =~= seq![' ']);
    let b = concat2(a.as_slice(), sp.as_slice());
    concat2(b.as_slice(), text)
}

fn cat(a: Vec<char>, b: &[char]) -> (r: Vec<char>)
    ensures
        r@ == a@ + b@,
{
    concat2(a.as_slice(), b)
}

/// The lines shown for one result.
pub fn result_lines(on: bool, r: &CheckResult, id_width: usize, detail_indent: usize) -> (out: Vec<String>)
    ensures
        strings_view(out@) =~= result_text(on, r@, id_width as nat, detail_indent as nat),
{
    let pid = padded(chars_of(r.id.as_str()).as_slice(), id_width);
    let suffix = tag_suffix_chars(on, r.tags.as_slice());
    let dp = chars_of(r.display_path.as_str());
    let mut out: Vec<String> = Vec::new();
    match &r.status {
        CheckStatus::Passed { command } => {
            let green = vec!['3', '2'];
            assert(green@ =~= code_green());
            let dimc = vec!['2'];
            assert(dimc@ =~= code_dim());
            let mark = paint(green.as_slice(), cat(chars_of("✓ "), pid.as_slice()).as_slice(), on);
            let cmd = paint(dimc.as_slice(), concat3("(", chars_of(command.as_str()).as_slice(), ")").as_slice(), on);
            let l = cat(cat(cat(cat(cat(chars_of("  "), mark.as_slice()), chars_of(" ").as_slice()), dp.as_slice()), chars_of(" ").as_slice()), cmd.as_slice());
            let l = cat(l, suffix.as_slice());
            out.push(string_of(l.as_slice()));
        },
        CheckStatus::Failed { command, exit_code, stderr } => {
            let red = vec!['3', '1'];
            assert(red@ =~= code_red());
            let mark = paint(red.as_slice(), cat(chars_of("✗ "), pid.as_slice()).as_slice(), on);
            let l = cat(cat(cat(cat(chars_of("  "), mark.as_slice()), chars_of(" ").as_slice()), dp.as_slice()), suffix.as_slice());
            out.push(string_of(l.as_slice()));
            out.push(string_of(detail_chars(on, detail_indent, "exit:", i32_chars(*exit_code).as_slice()).as_slice()));
            out.push(string_of(detail_chars(on, detail_indent, "command:", chars_of(command.as_str()).as_slice()).as_slice()));
            let err = chars_of(stderr.as_str());
            let ghost head = strings_view(out@);
            if err.len() > 0 {
                let ls = split_lines(err.as_slice());
                let ghost lv = vv(ls@);
                let ghost g = |l: Seq<char>| detail_line(on, detail_indent as nat, "stderr:"@, l);
                let mut i: usize = 0;
                while i < ls.len()
                    invariant
                        i <= ls@.len(),
                        lv == vv(ls@),
                        g == (|l: Seq<char>| detail_line(on, detail_indent as nat, "stderr:"@, l)),
                        strings_view(out@) =~= head + lv.take(i as int).map_values(g),
                    decreases ls.len() - i,
                {
                    let d = detail_chars(on, detail_indent, "stderr:", ls[i].as_slice());
                    let ghost o0 = strings_view(out@);
                    out.push(string_of(d.as_slice()));
                    proof {
                        assert(lv[i as int] == ls@[i as int]@);
                        assert(strings_view(out@) =~= o0.push(d@));
                        assert(lv.take(i + 1).map_values(g) =~= lv.take(i as int).map_values(g).push(g(lv[i as int])));
                    }
                    i += 1;
                }
                assert(lv.take(i as int) =~= lv);
            }
        },
        CheckStatus::Manual => {
            let yellow = vec!['3', '3'];
            assert(yellow@ =~= code_yellow());
            let mark = paint(yellow.as_slice(), cat(chars_of("? "), pid.as_slice()).as_slice(), on);
            let l = cat(cat(cat(cat(chars_of("  "), mark.as_slice()), chars_of(" ").as_slice()), dp.as_slice()), suffix.as_slice());
            out.push(string_of(l.as_slice()));
        },
    }
    out
}

// ---------------------------------------------------------------------------
// Summary
// ---------------------------------------------------------------------------

pub open spec fn count_passed(rs: Seq<ResultV>) -> nat
    decreases rs.len(),
{
    if rs.len() == 0 { 0 } else { count_passed(rs.drop_last()) + if rs.last().status is Passed { 1nat } else { 0nat } }
}

pub open spec fn count_failed(rs: Seq<ResultV>) -> nat
    decreases rs.len(),
{
    if rs.len() == 0 { 0 } else { count_failed(rs.drop_last()) + if rs.last().status is Failed { 1nat } else { 0nat } }
}

pub open spec fn count_manual(rs: Seq<ResultV>) -> nat
    decreases rs.len(),
{
    if rs.len() == 0 { 0 } else { count_manual(rs.drop_last()) + if rs.last().status is Manual { 1nat } else { 0nat } }
}

pub open spec fn results_view(v: Seq<CheckResult>) -> Seq<ResultV> {
    v.map_values(|r: CheckResult| r@)
}

/// Whether the check succeeded: no result failed.
pub fn all_passed(results: &Vec<CheckResult>) -> (b: bool)
    ensures
        b == (count_failed(results_view(results@)) == 0),
{
    let (_, failed, _) = count_results(results);
    failed == 0
}

/// The numbers of passed, failed and manual results.
pub fn count_results(results: &Vec<CheckResult>) -> (r: (usize, usize, usize))
    ensures
        r.0 == count_passed(results_view(results@)),
        r.1 == count_failed(results_view(results@)),
        r.2 == count_manual(results_view(results@)),
{
    let ghost rv = results_view(results@);
    let mut p: usize = 0;
    let mut f: usize = 0;
    let mut m: usize = 0;
    let mut i: usize = 0;
    while i < results.len()
        invariant
            i <= results@.len(),
            rv == results_view(results@),
            p == count_passed(rv.take(i as int)),
            f == count_failed(rv.take(i as int)),
            m == count_manual(rv.take(i as int)),
            p + f + m <= i,
        decreases results.len() - i,
    {
        proof {
            assert(rv.take(i + 1).drop_last() =~= rv.take(i as int));
            assert(rv.take(i + 1).last() == results@[i as int]@);
        }
        match &results[i].status {
            CheckStatus::Passed { .. } => p += 1,
            CheckStatus::Failed { .. } => f += 1,
            CheckStatus::Manual => m += 1,
        }
        i += 1;
    }
    assert(rv.take(i as int) =~= rv);
    (p, f, m)
}

/// The lines shown after all results: a blank line, the counts, and a reminder
/// about facts without a command.
pub open spec fn summary_text(on: bool, passed: nat, failed: nat, manual: nat) -> Seq<Seq<char>> {
    let counts = painted(code_green(), decimal(passed) + " passed"@, on) + ", "@ + painted(
        code_red(),
        decimal(failed) + " failed"@,
        on,
    ) + ", "@ + painted(code_yellow(), decimal(manual) + " manual"@, on);
    let noun = if manual == 1 { "fact has"@ } else { "facts have"@ };
    seq![seq![], painted(code_bold(), counts, on)] + if manual > 0 {
        seq![
            painted(
                code_yellow(),
                decimal(manual) + " "@ + noun
                    + " no command — verify each against the code and state PASS or FAIL with a one-line reason."@,
                on,
            ),
        ]
    } else {
        seq![]
    }
}

/// The lines shown after all results.
pub fn summary_lines(on: bool, passed: usize, failed: usize, manual: usize) -> (out: Vec<String>)
    ensures
        strings_view(out@) =~= summary_text(on, passed as nat, failed as nat, manual as nat),
{
    let green = vec!['3', '2'];
    assert(green@ =~= code_green());
    let red = vec!['3', '1'];
    assert(red@ =~= code_red());
    let yellow = vec!['3', '3'];
    assert(yellow@ =~= code_yellow());
    let boldc = vec!['1'];
    assert(boldc@ =~= code_bold());
    let a = paint(green.as_slice(), cat(decimal_chars(passed), chars_of(" passed").as_slice()).as_slice(), on);
    let b = paint(red.as_slice(), cat(decimal_chars(failed), chars_of(" failed").as_slice()).as_slice(), on);
    let c = paint(yellow.as_slice(), cat(decimal_chars(manual), chars_of(" manual").as_slice()).as_slice(), on);
    let counts = cat(cat(cat(cat(a, chars_of(", ").as_slice()), b.as_slice()), chars_of(", ").as_slice()), c.as_slice());
    let mut out: Vec<String> = Vec::new();
    out.push(String::new());
    out.push(string_of(paint(boldc.as_slice(), counts.as_slice(), on).as_slice()));
    if manual > 0 {
        let noun = if manual == 1 { chars_of("fact has") } else { chars_of("facts have") };
        let t = cat(
            cat(cat(decimal_chars(manual), chars_of(" ").as_slice()), noun.as_slice()),
            chars_of(" no command — verify each against the code and state PASS or FAIL with a one-line reason.").as_slice(),
        );
        out.push(string_of(paint(yellow.as_slice(), t.as_slice(), on).as_slice()));
    }
    out
}

// ---------------------------------------------------------------------------
// Lint errors before checking
// ---------------------------------------------------------------------------

/// Where a diagnostic points: `file:line`, or the file alone.
pub open spec fn location_text(d: DiagV) -> Seq<char> {
    match d.line {
        Some(n) => d.file + ":"@ + decimal(n),
        None => d.file,
    }
}

/// The line shown for a lint error.
pub open spec fn lint_error_text(on: bool, d: DiagV) -> Seq<char> {
    painted(code_bold(), location_text(d), on) + ": "@ + painted(code_red(), "error"@, on) + ": "@ + d.message
}

/// The lines shown for the errors (not the warnings) among `ds`.
pub open spec fn lint_error_texts(on: bool, ds: Seq<DiagV>) -> Seq<Seq<char>> {
    concat_map(ds, |i: int, d: DiagV| if d.severity == Severity::Error { seq![lint_error_text(on, d)] } else { seq![] })
}

/// The lines shown for the lint errors that stop a check.
pub fn lint_error_lines(on: bool, diags: &Vec<LintDiagnostic>) -> (out: Vec<String>)
    ensures
        strings_view(out@) =~= lint_error_texts(on, diags_view(diags@)),
{
    let ghost dv = diags_view(diags@);
    let ghost f = |i: int, d: DiagV| if d.severity == Severity::Error { seq![lint_error_text(on, d)] } else { seq![] };
    let boldc = vec!['1'];
    assert(boldc@ =~= code_bold());
    let red = vec!['3', '1'];
    assert(red@ =~= code_red());
    let mut out: Vec<String> = Vec::new();
    let mut i: usize = 0;
    while i < diags.len()
        invariant
            i <= diags@.len(),
            dv == diags_view(diags@),
            boldc@ == code_bold(),
            red@ == code_red(),
            f == (|i: int, d: DiagV| if d.severity == Severity::Error { seq![lint_error_text(on, d)] } else { seq![] }),
            strings_view(out@) =~= concat_map(dv.take(i as int), f),
        decreases diags.len() - i,
    {
        proof {
            lemma_concat_map_step(dv, f, i as int);
        }
        let d = &diags[i];
        if d.severity == Severity::Error {
            let file = chars_of(d.file.as_str());
            let loc = match d.line {
                Some(n) => cat(cat(file, chars_of(":").as_slice()), decimal_chars(n).as_slice()),
                None => file,
            };
            let t = cat(cat(cat(paint(boldc.as_slice(), loc.as_slice(), on), chars_of(": ").as_slice()), paint(red.as_slice(), chars_of("error").as_slice(), on).as_slice()), chars_of(": ").as_slice());
            let t = cat(t, chars_of(d.message.as_str()).as_slice());
            let ghost o0 = strings_view(out@);
            out.push(string_of(t.as_slice()));
            proof {
                assert(dv[i as int] == d@);
                assert(strings_view(out@) =~= o0.push(t@));
            }
        }
        i += 1;
    }
    assert(dv.take(i as int) =~= dv);
    out
}

// ---------------------------------------------------------------------------
// Id column width and option checks
// ---------------------------------------------------------------------------

/// The widest id in bytes (`str::len`).
pub open spec fn max_id_bytes(ids: Seq<Seq<char>>) -> nat
    decreases ids.len(),
{
    if ids.len() <= 1 {
        if ids.len() == 1 { vstd::utf8::encode_utf8(ids[0]).len() } else { 0 }
    } else {
        let a = max_id_bytes(ids.drop_last());
        let b = vstd::utf8::encode_utf8(ids.last()).len();
        if a >= b { a } else { b }
    }
}

/// Width of the id column: the widest id, or 3 when there are none.
pub open spec fn id_width_spec(ids: Seq<Seq<char>>) -> nat {
    if ids.len() == 0 { 3 } else { max_id_bytes(ids) }
}

/// Width of the id column: the widest id, or 3 when there are none.
pub fn id_width(ids: &Vec<String>) -> (w: usize)
    ensures
        w == id_width_spec(strings_view(ids@)),
{
    let ghost iv = strings_view(ids@);
    if ids.len() == 0 {
        return 3;
    }
    let mut w: usize = ids[0].as_str().as_bytes().len();
    let mut i: usize = 1;
    assert(iv.take(1) =~= seq![iv[0]]);
    while i < ids.len()
        invariant
            1 <= i <= ids@.len(),
            iv == strings_view(ids@),
            w == max_id_bytes(iv.take(i as int)),
        decreases ids.len() - i,
    {
        assert(iv.take(i + 1).drop_last() =~= iv.take(i as int));
        let b = ids[i].as_str().as_bytes().len();
        if b > w {
            w = b;
        }
        i += 1;
    }
    assert(iv.take(i as int) =~= iv);
    w
}

/// Why the options are refused: a tag or search expression that does not parse.
pub open spec fn options_error(opts: CheckOptions) -> Option<Seq<char>> {
    match opt_view(opts.tags_expr) {
        Some(e) if parse_expr_spec(e) is Err => Some(
            "invalid tag expression: "@ + expr_error_message(parse_expr_spec(e)->Err_0),
        ),
        _ => match opt_view(opts.search_expr) {
            Some(e) if parse_expr_spec(e) is Err => Some(
                "invalid search expression: "@ + expr_error_message(parse_expr_spec(e)->Err_0),
            ),
            _ => None,
        },
    }
}

/// Validate the tag and search expressions up front.
pub fn validate_options(opts: &CheckOptions) -> (r: Result<(), String>)
    ensures
        match options_error(*opts) {
            Some(m) => r matches Err(e) && e@ == m,
            None => r is Ok,
        },
{
    match &opts.tags_expr {
        Some(expr) => match validate_tag_expr(expr.as_str()) {
            Ok(()) => {},
            Err(m) => {
                return Err(string_of(cat(chars_of("invalid tag expression: "), chars_of(m.as_str()).as_slice()).as_slice()));
            },
        },
        None => {},
    }
    match &opts.search_expr {
        Some(expr) => match validate_tag_expr(expr.as_str()) {
            Ok(()) => {},
            Err(m) => {
                return Err(string_of(cat(chars_of("invalid search expression: "), chars_of(m.as_str()).as_slice()).as_slice()));
            },
        },
        None => {},
    }
    Ok(())
}

} // verus!
