//! Checks that fact sheets are well formed.
//!
//! Reports clear messages for structural issues without running any
//! validation commands. Checks:
//! - Unparseable lines (not headings, facts, or blank)
//! - Invalid mapping keys (only id, label, command, tags are allowed)
//! - Mixed inline + mapping tags on the same fact
//! - Tags not written in brackets, empty mapping values, double `@` tags
//! - Unrecognized continuation lines in mapping facts
//! - Duplicate mapping keys within a single fact
//! - Duplicate explicit ids and empty labels
//! - Sheets that do not parse (reported unless a check above found an error)
use vstd::prelude::*;
use crate::model::{FactSheet, opt_view, sheet_facts, PathFact, path_facts_view, Fact, SheetV};
use crate::check::location_text;
use crate::color::{code_bold, code_green, code_red, code_yellow, paint, painted};
use crate::parser::{
    dash, dash_space, two_spaces, colon_space, is_mapping_line, starts_with_known_key, strip_dash,
    key_label, key_command, key_id, key_tags, key_colon, inline_tags, is_known_key, strip_bom,
    parse_spec, ParseErrV, ContextV, is_single_line_mapping, has_known_key_prefix, known_key,
    without_dash, inline_parts, kw_dash_space, kw_two_spaces, kw_colon_space, parse, parse_error_text,
    kw_label_cs, kw_tags_cs, kw_tags_colon, kw_label_colon, kw_command_colon, kw_id_colon, key_colon_space,
};
use crate::text::{
    all_ws, contains, find, find_char, lines, starts_with, ends_with, trim, trim_start, words, decimal,
    chars_of, string_of, split_lines, split_words, is_blank, has_prefix, has_suffix, find_seq, find_ch,
    slice_of, trimmed, trimmed_start, same, vv, concat3, concat2, decimal_chars, join_with,
};

verus! {

/// Options for the lint command.
pub struct LintOptions {
    /// Lint a specific file instead of all *.facts files.
    pub file: Option<String>,
}

/// How serious a diagnostic is.
#[derive(Debug, PartialEq, Eq, Structural, Clone, Copy)]
pub enum Severity {
    Error,
    Warning,
}

/// A single lint diagnostic.
#[derive(Debug)]
pub struct LintDiagnostic {
    pub file: String,
    pub line: Option<usize>,
    pub message: String,
    pub severity: Severity,
}

/// Abstract value of a diagnostic.
pub struct DiagV {
    pub file: Seq<char>,
    pub line: Option<nat>,
    pub message: Seq<char>,
    pub severity: Severity,
}

impl View for LintDiagnostic {
    type V = DiagV;

    open spec fn view(&self) -> DiagV {
        DiagV {
            file: self.file@,
            line: match self.line {
                Some(n) => Some(n as nat),
                None => None,
            },
            message: self.message@,
            severity: self.severity,
        }
    }
}

pub open spec fn diags_view(v: Seq<LintDiagnostic>) -> Seq<DiagV> {
    v.map_values(|d: LintDiagnostic| d@)
}

/// One diagnostic, as a sequence of length one.
pub open spec fn one(file: Seq<char>, line: Option<nat>, message: Seq<char>, severity: Severity) -> Seq<DiagV> {
    seq![DiagV { file, line, message, severity }]
}

/// The diagnostics `f` gives for each element of `xs` (with its index), in order.
pub open spec fn gather<A>(xs: Seq<A>, f: spec_fn(int, A) -> Seq<DiagV>) -> Seq<DiagV>
    decreases xs.len(),
{
    if xs.len() == 0 {
        seq![]
    } else {
        gather(xs.drop_last(), f) + f(xs.len() - 1, xs.last())
    }
}

pub proof fn lemma_gather_step<A>(xs: Seq<A>, f: spec_fn(int, A) -> Seq<DiagV>, i: int)
    requires
        0 <= i < xs.len(),
    ensures
        gather(xs.take(i + 1), f) == gather(xs.take(i), f) + f(i, xs[i]),
{
    assert(xs.take(i + 1).drop_last() =~= xs.take(i));
}

fn new_diag(file: &[char], line: Option<usize>, message: Vec<char>, severity: Severity) -> (r: LintDiagnostic)
    ensures
        r@ == (DiagV {
            file: file@,
            line: match line {
                Some(n) => Some(n as nat),
                None => None,
            },
            message: message@,
            severity,
        }),
{
    LintDiagnostic { file: string_of(file), line, message: string_of(message.as_slice()), severity }
}

fn push_diag(diagnostics: &mut Vec<LintDiagnostic>, d: LintDiagnostic)
    ensures
        diags_view(final(diagnostics)@) == diags_view(old(diagnostics)@).push(d@),
{
    diagnostics.push(d);
    assert(diags_view(diagnostics@) =~= diags_view(old(diagnostics)@).push(d@));
}

// ---------------------------------------------------------------------------
// Line ending check
// ---------------------------------------------------------------------------

pub open spec fn crlf_diags(content: Seq<char>, file: Seq<char>) -> Seq<DiagV> {
    if contains(content, seq!['\r', '\n']) {
        one(file, None, "file uses CRLF line endings; facts normalizes to LF on write"@, Severity::Warning)
    } else {
        seq![]
    }
}

/// Check if the file content contains CRLF line endings.
///
/// The facts writer always normalizes to LF, so CRLF input will not
/// round-trip byte-for-byte. Warn early so users know to convert.
pub fn check_crlf(content: &str, filename: &str, diagnostics: &mut Vec<LintDiagnostic>)
    ensures
        diags_view(final(diagnostics)@) == diags_view(old(diagnostics)@) + crlf_diags(content@, filename@),
{
    let c = chars_of(content);
    let f = chars_of(filename);
    crlf_chars(c.as_slice(), f.as_slice(), diagnostics);
}

fn crlf_chars(content: &[char], file: &[char], diagnostics: &mut Vec<LintDiagnostic>)
    ensures
        diags_view(final(diagnostics)@) == diags_view(old(diagnostics)@) + crlf_diags(content@, file@),
{
    let crlf = vec!['\r', '\n'];
    if find_seq(content, crlf.as_slice()).is_some() {
        let m = chars_of("file uses CRLF line endings; facts normalizes to LF on write");
        push_diag(diagnostics, new_diag(file, None, m, Severity::Warning));
    } else {
        assert(diags_view(diagnostics@) =~= diags_view(diagnostics@) + seq![]);
    }
}

// ---------------------------------------------------------------------------
// Line structure
// ---------------------------------------------------------------------------

/// A line that holds nothing: blank, or a heading.
pub open spec fn is_blank_or_heading(line: Seq<char>) -> bool {
    all_ws(line) || starts_with(trim_start(line), seq!['#'])
}

/// A line that starts a fact: `- ...` or a lone `-`.
pub open spec fn starts_fact(line: Seq<char>) -> bool {
    starts_with(line, dash_space()) || line == dash()
}

pub open spec fn structure_diag(file: Seq<char>, i: int, line: Seq<char>) -> Seq<DiagV> {
    if is_blank_or_heading(line) || starts_fact(line) || starts_with(line, two_spaces()) {
        seq![]
    } else {
        one(
            file,
            Some((i + 1) as nat),
            "unexpected line (not a heading, fact, or blank): "@ + trim(line),
            Severity::Error,
        )
    }
}

pub open spec fn structure_diags(ls: Seq<Seq<char>>, file: Seq<char>) -> Seq<DiagV> {
    gather(ls, |i: int, l: Seq<char>| structure_diag(file, i, l))
}

fn blank_or_heading(line: &[char]) -> (b: bool)
    ensures
        b == is_blank_or_heading(line@),
{
    if is_blank(line) {
        return true;
    }
    let t = trimmed_start(line);
    let b = t.len() > 0 && t[0] == '#';
    if t.len() > 0 {
        assert(t@.subrange(0, 1) =~= seq![t@[0]]);
        if !b {
            assert(t@.subrange(0, 1)[0] != seq!['#'][0]);
        }
    }
    b
}

fn fact_start(line: &[char]) -> (b: bool)
    ensures
        b == starts_fact(line@),
{
    if line.len() == 1 {
        assert(line@ =~= seq![line@[0]]);
    }
    has_prefix(line, kw_dash_space().as_slice()) || (line.len() == 1 && line[0] == '-')
}

/// Check that every non-blank line is either a heading or a fact line.
fn check_line_structure(ls: &Vec<Vec<char>>, file: &[char], diagnostics: &mut Vec<LintDiagnostic>)
    ensures
        diags_view(final(diagnostics)@) == diags_view(old(diagnostics)@) + structure_diags(vv(ls@), file@),
{
    let ghost f = |i: int, l: Seq<char>| structure_diag(file@, i, l);
    let ghost d0 = diags_view(diagnostics@);
    let mut i: usize = 0;
    while i < ls.len()
        invariant
            i <= ls@.len(),
            f == (|i: int, l: Seq<char>| structure_diag(file@, i, l)),
            diags_view(diagnostics@) == d0 + gather(vv(ls@).take(i as int), f),
        decreases ls.len() - i,
    {
        let line = ls[i].as_slice();
        proof {
            lemma_gather_step(vv(ls@), f, i as int);
            assert(vv(ls@)[i as int] == line@);
        }
        if blank_or_heading(line) || fact_start(line) || has_prefix(line, kw_two_spaces().as_slice()) {
            assert(diags_view(diagnostics@) =~= d0 + gather(vv(ls@).take(i + 1), f));
        } else {
            let m = concat2(
                chars_of("unexpected line (not a heading, fact, or blank): ").as_slice(),
                trimmed(line).as_slice(),
            );
            push_diag(diagnostics, new_diag(file, Some(i + 1), m, Severity::Error));
            assert(diags_view(diagnostics@) =~= d0 + gather(vv(ls@).take(i + 1), f));
        }
        i += 1;
    }
    assert(vv(ls@).take(i as int) =~= vv(ls@));
}

// ---------------------------------------------------------------------------
// Fact line groups
// ---------------------------------------------------------------------------

/// The lines of one fact and the number of its first line.
pub struct GroupV {
    pub lines: Seq<Seq<char>>,
    pub start: nat,
}

/// The fact groups of the first `n` lines: each starts at a fact line and takes
/// the indented lines after it; blank lines and headings are passed over.
pub open spec fn groups_upto(ls: Seq<Seq<char>>, n: nat) -> Seq<GroupV>
    decreases n,
{
    if n == 0 {
        seq![]
    } else {
        let g = groups_upto(ls, (n - 1) as nat);
        let line = ls[n - 1];
        if is_blank_or_heading(line) {
            g
        } else if starts_fact(line) {
            g.push(GroupV { lines: seq![line], start: n })
        } else if starts_with(line, two_spaces()) && g.len() > 0 {
            g.update(g.len() - 1, GroupV { lines: g.last().lines.push(line), start: g.last().start })
        } else {
            g
        }
    }
}

pub open spec fn fact_groups(ls: Seq<Seq<char>>) -> Seq<GroupV> {
    groups_upto(ls, ls.len())
}

/// A group of lines forming a single fact.
struct FactLineGroup {
    lines: Vec<Vec<char>>,
    start_line: usize,
}

impl View for FactLineGroup {
    type V = GroupV;

    closed spec fn view(&self) -> GroupV {
        GroupV { lines: vv(self.lines@), start: self.start_line as nat }
    }
}

spec fn groups_view(v: Seq<FactLineGroup>) -> Seq<GroupV> {
    v.map_values(|g: FactLineGroup| g@)
}

spec fn groups_wf(gs: Seq<GroupV>, n: nat) -> bool {
    forall|k: int| 0 <= k < gs.len() ==> #[trigger] gs[k].lines.len() >= 1 && gs[k].start + gs[k].lines.len() <= n + 1
        && gs[k].start >= 1
}

spec fn groups_ok(gs: Seq<GroupV>) -> bool {
    forall|k: int| 0 <= k < gs.len() ==> #[trigger] gs[k].lines.len() >= 1 && gs[k].start + gs[k].lines.len() <= usize::MAX + 1
}

proof fn lemma_groups_wf(ls: Seq<Seq<char>>, n: nat)
    requires
        n <= ls.len(),
    ensures
        groups_wf(groups_upto(ls, n), n),
    decreases n,
{
    if n > 0 {
        lemma_groups_wf(ls, (n - 1) as nat);
    }
}

fn copy_line(l: &Vec<char>) -> (r: Vec<char>)
    ensures
        r@ == l@,
{
    slice_of(l.as_slice(), 0, l.len())
}

/// Group content lines into fact entries (each starting with `- `).
fn group_fact_lines(ls: &Vec<Vec<char>>) -> (r: Vec<FactLineGroup>)
    ensures
        groups_view(r@) == fact_groups(vv(ls@)),
        groups_ok(groups_view(r@)),
{
    let ghost lv = vv(ls@);
    let mut groups: Vec<FactLineGroup> = Vec::new();
    let mut i: usize = 0;
    while i < ls.len()
        invariant
            i <= ls@.len(),
            lv == vv(ls@),
            groups_view(groups@) == groups_upto(lv, i as nat),
        decreases ls.len() - i,
    {
        let line = &ls[i];
        let ghost g0 = groups_view(groups@);
        if blank_or_heading(line.as_slice()) {
        } else if fact_start(line.as_slice()) {
            groups.push(FactLineGroup { lines: vec![copy_line(line)], start_line: i + 1 });
            proof {
                let ng = groups@.last();
                assert(vv(ng.lines@) =~= seq![lv[i as int]]);
                assert(groups_view(groups@) =~= g0.push(GroupV { lines: seq![lv[i as int]], start: (i + 1) as nat }));
            }
        } else if has_prefix(line.as_slice(), kw_two_spaces().as_slice()) && groups.len() > 0 {
            let last = groups.len() - 1;
            let mut g = groups.remove(last);
            let ghost gl = g@;
            g.lines.push(copy_line(line));
            proof {
                assert(vv(g.lines@) =~= gl.lines.push(lv[i as int]));
            }
            groups.push(g);
            proof {
                assert(groups_view(groups@) =~= g0.update(
                    g0.len() - 1,
                    GroupV { lines: g0.last().lines.push(lv[i as int]), start: g0.last().start },
                ));
            }
        }
        i += 1;
    }
    proof {
        lemma_groups_wf(lv, ls@.len());
    }
    groups
}

// ---------------------------------------------------------------------------
// Unknown keys
// ---------------------------------------------------------------------------

/// The unknown-key diagnostic for one `key: value` line, if its key is unknown.
pub open spec fn key_diag(file: Seq<char>, line: Seq<char>, num: nat) -> Seq<DiagV> {
    match find(line, colon_space()) {
        Some(p) => {
            let key = line.take(p as int);
            if find_char(key, ' ') is None && key.len() > 0 && !is_known_key(key) {
                one(
                    file,
                    Some(num),
                    "unknown key '"@ + key + "' in fact mapping (allowed: id, label, command, tags)"@,
                    Severity::Error,
                )
            } else {
                seq![]
            }
        },
        None => seq![],
    }
}

pub open spec fn group_key_diags(file: Seq<char>, g: GroupV) -> Seq<DiagV> {
    if g.lines.len() < 2 {
        let c = strip_dash(g.lines[0]);
        if is_mapping_line(c) { key_diag(file, c, g.start) } else { seq![] }
    } else {
        key_diag(file, strip_dash(g.lines[0]), g.start) + gather(
            g.lines.drop_first(),
            |k: int, l: Seq<char>| key_diag(file, trim(l), (g.start + k + 1) as nat),
        )
    }
}

pub open spec fn invalid_key_diags(gs: Seq<GroupV>, file: Seq<char>) -> Seq<DiagV> {
    gather(gs, |i: int, g: GroupV| group_key_diags(file, g))
}

/// Check a single key: value line for unknown keys.
fn check_keys_in_line(line: &[char], file: &[char], line_num: usize, diagnostics: &mut Vec<LintDiagnostic>)
    ensures
        diags_view(final(diagnostics)@) == diags_view(old(diagnostics)@) + key_diag(file@, line@, line_num as nat),
{
    match find_seq(line, kw_colon_space().as_slice()) {
        Some(p) => {
            let key = slice_of(line, 0, p);
            assert(key@ =~= line@.take(p as int));
            if find_ch(key.as_slice(), ' ').is_none() && key.len() > 0 && !known_key(key.as_slice()) {
                let m = concat3("unknown key '", key.as_slice(), "' in fact mapping (allowed: id, label, command, tags)");
                push_diag(diagnostics, new_diag(file, Some(line_num), m, Severity::Error));
                return;
            }
        },
        None => {},
    }
    assert(diags_view(diagnostics@) =~= diags_view(diagnostics@) + seq![]);
}

fn check_group_keys(g: &FactLineGroup, file: &[char], diagnostics: &mut Vec<LintDiagnostic>)
    requires
        g@.lines.len() >= 1,
        g@.start + g@.lines.len() <= usize::MAX + 1,
    ensures
        diags_view(final(diagnostics)@) == diags_view(old(diagnostics)@) + group_key_diags(file@, g@),
{
    let ghost gv = g@;
    assert(gv.lines == vv(g.lines@));
    assert(gv.start == g.start_line);
    if g.lines.len() < 2 {
        let c = without_dash(g.lines[0].as_slice());
        if is_single_line_mapping(c.as_slice()) {
            check_keys_in_line(c.as_slice(), file, g.start_line, diagnostics);
        } else {
            assert(diags_view(diagnostics@) =~= diags_view(diagnostics@) + seq![]);
        }
        return;
    }
    let first = without_dash(g.lines[0].as_slice());
    check_keys_in_line(first.as_slice(), file, g.start_line, diagnostics);
    let ghost rest = gv.lines.drop_first();
    let ghost f = |k: int, l: Seq<char>| key_diag(file@, trim(l), (gv.start + k + 1) as nat);
    let ghost d1 = diags_view(diagnostics@);
    let mut j: usize = 1;
    assert(rest.take(0) =~= seq![]);
    while j < g.lines.len()
        invariant
            1 <= j <= g.lines@.len(),
            gv == g@,
            gv.lines == vv(g.lines@),
            gv.start == g.start_line,
            g.start_line + g.lines@.len() <= usize::MAX + 1,
            rest == gv.lines.drop_first(),
            f == (|k: int, l: Seq<char>| key_diag(file@, trim(l), (gv.start + k + 1) as nat)),
            diags_view(diagnostics@) == d1 + gather(rest.take(j - 1), f),
        decreases g.lines.len() - j,
    {
        proof {
            lemma_gather_step(rest, f, j - 1);
            assert(rest[j - 1] == g.lines@[j as int]@);
        }
        let t = trimmed(g.lines[j].as_slice());
        check_keys_in_line(t.as_slice(), file, g.start_line + j, diagnostics);
        j += 1;
    }
    assert(rest.take(j - 1) =~= rest);
}

// ---------------------------------------------------------------------------
// Mixed inline and mapping tags
// ---------------------------------------------------------------------------

pub open spec fn dash_label_cs() -> Seq<char> {
    dash_space() + key_colon_space(key_label())
}

/// The value of a `- label: ` or `label: ` line (already trimmed).
pub open spec fn label_value(t: Seq<char>) -> Option<Seq<char>> {
    if starts_with(t, dash_label_cs()) {
        Some(t.skip(9))
    } else if starts_with(t, key_colon_space(key_label())) {
        Some(t.skip(7))
    } else {
        None
    }
}

/// A label line of a fact that carries an inline `@tag`.
pub open spec fn has_inline_tag(l: Seq<char>) -> bool {
    match label_value(trim(l)) {
        Some(v) => inline_tags(v).len() > 0,
        None => false,
    }
}

/// A `tags:` line.
pub open spec fn is_tags_line(l: Seq<char>) -> bool {
    let st = strip_dash(trim(l));
    starts_with(st, key_colon_space(key_tags())) || st == key_colon(key_tags())
}

pub open spec fn group_mixed_diags(file: Seq<char>, g: GroupV) -> Seq<DiagV> {
    if g.lines.len() >= 2 && (exists|k: int| 0 <= k < g.lines.len() && has_inline_tag(#[trigger] g.lines[k]))
        && (exists|k: int| 0 <= k < g.lines.len() && is_tags_line(#[trigger] g.lines[k])) {
        one(file, Some(g.start), "mixed inline and mapping tags on the same fact"@, Severity::Warning)
    } else {
        seq![]
    }
}

pub open spec fn mixed_tag_diags(gs: Seq<GroupV>, file: Seq<char>) -> Seq<DiagV> {
    gather(gs, |i: int, g: GroupV| group_mixed_diags(file, g))
}

fn kw_dash_label_cs() -> (r: Vec<char>)
    ensures
        r@ == dash_label_cs(),
{
    concat2(kw_dash_space().as_slice(), kw_label_cs().as_slice())
}

fn line_has_inline_tag(l: &[char]) -> (b: bool)
    ensures
        b == has_inline_tag(l@),
{
    let t = trimmed(l);
    let v = if has_prefix(t.as_slice(), kw_dash_label_cs().as_slice()) {
        slice_of(t.as_slice(), 9, t.len())
    } else if has_prefix(t.as_slice(), kw_label_cs().as_slice()) {
        slice_of(t.as_slice(), 7, t.len())
    } else {
        return false;
    };
    let (_, tags) = inline_parts(v.as_slice());
    tags.len() > 0
}

fn line_is_tags(l: &[char]) -> (b: bool)
    ensures
        b == is_tags_line(l@),
{
    let t = trimmed(l);
    let st = without_dash(t.as_slice());
    has_prefix(st.as_slice(), kw_tags_cs().as_slice()) || same(st.as_slice(), kw_tags_colon().as_slice())
}

fn check_group_mixed(g: &FactLineGroup, file: &[char], diagnostics: &mut Vec<LintDiagnostic>)
    ensures
        diags_view(final(diagnostics)@) == diags_view(old(diagnostics)@) + group_mixed_diags(file@, g@),
{
    let ghost gl = g@.lines;
    assert(gl == vv(g.lines@));
    let mut inline = false;
    let mut mapping = false;
    if g.lines.len() >= 2 {
        let mut k: usize = 0;
        while k < g.lines.len()
            invariant
                k <= g.lines@.len(),
                gl == vv(g.lines@),
                inline == (exists|j: int| 0 <= j < k && has_inline_tag(#[trigger] gl[j])),
                mapping == (exists|j: int| 0 <= j < k && is_tags_line(#[trigger] gl[j])),
            decreases g.lines.len() - k,
        {
            assert(gl[k as int] == g.lines@[k as int]@);
            if line_has_inline_tag(g.lines[k].as_slice()) {
                inline = true;
            }
            if line_is_tags(g.lines[k].as_slice()) {
                mapping = true;
            }
            k += 1;
        }
    }
    if inline && mapping {
        let m = chars_of("mixed inline and mapping tags on the same fact");
        push_diag(diagnostics, new_diag(file, Some(g.start_line), m, Severity::Warning));
    } else {
        assert(diags_view(diagnostics@) =~= diags_view(diagnostics@) + seq![]);
    }
}

// ---------------------------------------------------------------------------
// Tags without brackets
// ---------------------------------------------------------------------------

pub open spec fn bare_tags_diag(file: Seq<char>, l: Seq<char>, num: nat) -> Seq<DiagV> {
    let st = strip_dash(trim(l));
    if starts_with(st, key_colon_space(key_tags())) {
        let v = trim(st.skip(6));
        if !(v.len() == 0 || (starts_with(v, seq!['[']) && ends_with(v, seq![']']))) {
            one(file, Some(num), "tags should use bracket syntax: tags: ["@ + v + "]"@, Severity::Warning)
        } else {
            seq![]
        }
    } else {
        seq![]
    }
}

pub open spec fn group_bare_diags(file: Seq<char>, g: GroupV) -> Seq<DiagV> {
    gather(g.lines, |k: int, l: Seq<char>| bare_tags_diag(file, l, (g.start + k) as nat))
}

pub open spec fn bare_tag_diags(gs: Seq<GroupV>, file: Seq<char>) -> Seq<DiagV> {
    gather(gs, |i: int, g: GroupV| group_bare_diags(file, g))
}

fn check_bare_line(l: &[char], file: &[char], num: usize, diagnostics: &mut Vec<LintDiagnostic>)
    ensures
        diags_view(final(diagnostics)@) == diags_view(old(diagnostics)@) + bare_tags_diag(file@, l@, num as nat),
{
    let t = trimmed(l);
    let st = without_dash(t.as_slice());
    if has_prefix(st.as_slice(), kw_tags_cs().as_slice()) {
        let v = trimmed(slice_of(st.as_slice(), 6, st.len()).as_slice());
        let open_b = vec!['['];
        let close_b = vec![']'];
        if !(v.len() == 0 || (has_prefix(v.as_slice(), open_b.as_slice()) && has_suffix(v.as_slice(), close_b.as_slice()))) {
            let m = concat3("tags should use bracket syntax: tags: [", v.as_slice(), "]");
            push_diag(diagnostics, new_diag(file, Some(num), m, Severity::Warning));
            return;
        }
    }
    assert(diags_view(diagnostics@) =~= diags_view(diagnostics@) + seq![]);
}

// ---------------------------------------------------------------------------
// Unknown continuation lines
// ---------------------------------------------------------------------------

/// A `key: value` line whose key is a single word.
pub open spec fn is_word_key_line(t: Seq<char>) -> bool {
    match find(t, colon_space()) {
        Some(p) => find_char(t.take(p as int), ' ') is None && p > 0,
        None => false,
    }
}

pub open spec fn continuation_diag(file: Seq<char>, l: Seq<char>, num: nat) -> Seq<DiagV> {
    let t = trim(l);
    if t.len() == 0 || starts_with_known_key(t) || is_word_key_line(t) {
        seq![]
    } else {
        one(file, Some(num), "unrecognized continuation line in mapping fact: "@ + t, Severity::Warning)
    }
}

pub open spec fn group_continuation_diags(file: Seq<char>, g: GroupV) -> Seq<DiagV> {
    if g.lines.len() >= 2 && starts_with_known_key(strip_dash(g.lines[0])) {
        gather(g.lines.drop_first(), |k: int, l: Seq<char>| continuation_diag(file, l, (g.start + k + 1) as nat))
    } else {
        seq![]
    }
}

pub open spec fn continuation_diags(gs: Seq<GroupV>, file: Seq<char>) -> Seq<DiagV> {
    gather(gs, |i: int, g: GroupV| group_continuation_diags(file, g))
}

fn word_key_line(t: &[char]) -> (b: bool)
    ensures
        b == is_word_key_line(t@),
{
    match find_seq(t, kw_colon_space().as_slice()) {
        Some(p) => {
            let key = slice_of(t, 0, p);
            assert(key@ =~= t@.take(p as int));
            find_ch(key.as_slice(), ' ').is_none() && p > 0
        },
        None => false,
    }
}

fn check_continuation_line(l: &[char], file: &[char], num: usize, diagnostics: &mut Vec<LintDiagnostic>)
    ensures
        diags_view(final(diagnostics)@) == diags_view(old(diagnostics)@) + continuation_diag(file@, l@, num as nat),
{
    let t = trimmed(l);
    if t.len() == 0 || has_known_key_prefix(t.as_slice()) || word_key_line(t.as_slice()) {
        assert(diags_view(diagnostics@) =~= diags_view(diagnostics@) + seq![]);
    } else {
        let m = concat2(chars_of("unrecognized continuation line in mapping fact: ").as_slice(), t.as_slice());
        push_diag(diagnostics, new_diag(file, Some(num), m, Severity::Warning));
    }
}

// ---------------------------------------------------------------------------
// Duplicate mapping keys
// ---------------------------------------------------------------------------

/// Number of lines of `ls` that start with `p`.
pub open spec fn count_starting(ls: Seq<Seq<char>>, p: Seq<char>) -> nat
    decreases ls.len(),
{
    if ls.len() == 0 {
        0
    } else {
        count_starting(ls.drop_last(), p) + if starts_with(ls.last(), p) { 1nat } else { 0nat }
    }
}

/// The lines of a mapping fact as its keys are read: the first without its dash,
/// the others trimmed.
pub open spec fn key_lines(g: GroupV) -> Seq<Seq<char>> {
    seq![strip_dash(g.lines[0])] + g.lines.drop_first().map_values(|l: Seq<char>| trim(l))
}

pub open spec fn dup_key_diag(file: Seq<char>, g: GroupV, key: Seq<char>) -> Seq<DiagV> {
    let c = count_starting(key_lines(g), key_colon(key));
    if c > 1 {
        one(
            file,
            Some(g.start),
            "duplicate key '"@ + key + "' in mapping fact (appears "@ + decimal(c) + " times)"@,
            Severity::Warning,
        )
    } else {
        seq![]
    }
}

/// Duplicate-key warnings of one fact, one per repeated key, in the order
/// label, command, id, tags.
pub open spec fn group_dup_key_diags(file: Seq<char>, g: GroupV) -> Seq<DiagV> {
    if g.lines.len() >= 2 && starts_with_known_key(strip_dash(g.lines[0])) {
        dup_key_diag(file, g, key_label()) + dup_key_diag(file, g, key_command()) + dup_key_diag(file, g, key_id())
            + dup_key_diag(file, g, key_tags())
    } else {
        seq![]
    }
}

pub open spec fn dup_key_diags(gs: Seq<GroupV>, file: Seq<char>) -> Seq<DiagV> {
    gather(gs, |i: int, g: GroupV| group_dup_key_diags(file, g))
}

fn count_key(kl: &Vec<Vec<char>>, p: &[char]) -> (c: usize)
    ensures
        c == count_starting(vv(kl@), p@),
{
    let mut c: usize = 0;
    let mut i: usize = 0;
    while i < kl.len()
        invariant
            i <= kl@.len(),
            c == count_starting(vv(kl@).take(i as int), p@),
            c <= i,
        decreases kl.len() - i,
    {
        assert(vv(kl@).take(i + 1).drop_last() =~= vv(kl@).take(i as int));
        if has_prefix(kl[i].as_slice(), p) {
            c += 1;
        }
        i += 1;
    }
    assert(vv(kl@).take(i as int) =~= vv(kl@));
    c
}

fn check_dup_key(
    kl: &Vec<Vec<char>>,
    key: Vec<char>,
    g: &FactLineGroup,
    file: &[char],
    diagnostics: &mut Vec<LintDiagnostic>,
)
    requires
        g@.lines.len() >= 1,
        vv(kl@) == key_lines(g@),
    ensures
        diags_view(final(diagnostics)@) == diags_view(old(diagnostics)@) + dup_key_diag(file@, g@, key@),
{
    let mut kc = copy_line(&key);
    kc.push(':');
    assert(kc@ == key_colon(key@));
    let c = count_key(kl, kc.as_slice());
    if c > 1 {
        let mut m = concat3("duplicate key '", key.as_slice(), "' in mapping fact (appears ");
        let mut rest = concat2(decimal_chars(c).as_slice(), chars_of(" times)").as_slice());
        let ghost m0 = m@;
        m.append(&mut rest);
        push_diag(diagnostics, new_diag(file, Some(g.start_line), m, Severity::Warning));
        assert(m@ == m0 + decimal(c as nat) + " times)"@);
    } else {
        assert(diags_view(diagnostics@) =~= diags_view(diagnostics@) + seq![]);
    }
}

fn check_group_dup_keys(g: &FactLineGroup, file: &[char], diagnostics: &mut Vec<LintDiagnostic>)
    requires
        g@.lines.len() >= 1,
    ensures
        diags_view(final(diagnostics)@) == diags_view(old(diagnostics)@) + group_dup_key_diags(file@, g@),
{
    let ghost gv = g@;
    assert(gv.lines == vv(g.lines@));
    let first = without_dash(g.lines[0].as_slice());
    if !(g.lines.len() >= 2 && has_known_key_prefix(first.as_slice())) {
        assert(diags_view(diagnostics@) =~= diags_view(diagnostics@) + seq![]);
        return;
    }
    let mut kl: Vec<Vec<char>> = Vec::new();
    kl.push(first);
    let mut j: usize = 1;
    while j < g.lines.len()
        invariant
            1 <= j <= g.lines@.len(),
            gv.lines == vv(g.lines@),
            vv(kl@) =~= seq![strip_dash(gv.lines[0])] + gv.lines.subrange(1, j as int).map_values(|l: Seq<char>| trim(l)),
        decreases g.lines.len() - j,
    {
        let ghost k0 = vv(kl@);
        kl.push(trimmed(g.lines[j].as_slice()));
        proof {
            assert(vv(kl@) =~= k0.push(trim(gv.lines[j as int])));
            assert(gv.lines.subrange(1, j + 1).map_values(|l: Seq<char>| trim(l)) =~= gv.lines.subrange(1, j as int).map_values(
                |l: Seq<char>| trim(l),
            ).push(trim(gv.lines[j as int])));
        }
        j += 1;
    }
    assert(gv.lines.subrange(1, j as int) =~= gv.lines.drop_first());
    let ghost d0 = diags_view(diagnostics@);
    check_dup_key(&kl, vec!['l', 'a', 'b', 'e', 'l'], g, file, diagnostics);
    check_dup_key(&kl, vec!['c', 'o', 'm', 'm', 'a', 'n', 'd'], g, file, diagnostics);
    check_dup_key(&kl, vec!['i', 'd'], g, file, diagnostics);
    check_dup_key(&kl, vec!['t', 'a', 'g', 's'], g, file, diagnostics);
    proof {
        let l = dup_key_diag(file@, gv, key_label());
        let c = dup_key_diag(file@, gv, key_command());
        let i = dup_key_diag(file@, gv, key_id());
        let t = dup_key_diag(file@, gv, key_tags());
        assert(diags_view(diagnostics@) =~= d0 + (l + c + i + t));
    }
}

// ---------------------------------------------------------------------------
// Mapping keys with no value
// ---------------------------------------------------------------------------

/// `key:` followed by nothing but white space.
pub open spec fn is_empty_value(st: Seq<char>, key: Seq<char>) -> bool {
    starts_with(st, key_colon(key)) && all_ws(st.skip(key.len() + 1int))
}

/// The first of label, command, id, tags that `st` gives no value.
pub open spec fn empty_value_key(st: Seq<char>) -> Option<Seq<char>> {
    if is_empty_value(st, key_label()) {
        Some(key_label())
    } else if is_empty_value(st, key_command()) {
        Some(key_command())
    } else if is_empty_value(st, key_id()) {
        Some(key_id())
    } else if is_empty_value(st, key_tags()) {
        Some(key_tags())
    } else {
        None
    }
}

pub open spec fn empty_value_diag(file: Seq<char>, l: Seq<char>, num: nat) -> Seq<DiagV> {
    match empty_value_key(strip_dash(trim(l))) {
        Some(k) => one(file, Some(num), "key '"@ + k + "' has no value"@, Severity::Warning),
        None => seq![],
    }
}

pub open spec fn group_empty_value_diags(file: Seq<char>, g: GroupV) -> Seq<DiagV> {
    gather(g.lines, |k: int, l: Seq<char>| empty_value_diag(file, l, (g.start + k) as nat))
}

pub open spec fn empty_value_diags(gs: Seq<GroupV>, file: Seq<char>) -> Seq<DiagV> {
    gather(gs, |i: int, g: GroupV| group_empty_value_diags(file, g))
}

fn empty_value(st: &[char], key: &Vec<char>) -> (b: bool)
    ensures
        b == is_empty_value(st@, key@),
{
    let mut kc = copy_line(key);
    kc.push(':');
    assert(kc@ == key_colon(key@));
    if has_prefix(st, kc.as_slice()) {
        let rest = slice_of(st, kc.len(), st.len());
        assert(rest@ =~= st@.skip(key@.len() + 1int));
        is_blank(rest.as_slice())
    } else {
        false
    }
}

fn check_empty_value_line(l: &[char], file: &[char], num: usize, diagnostics: &mut Vec<LintDiagnostic>)
    ensures
        diags_view(final(diagnostics)@) == diags_view(old(diagnostics)@) + empty_value_diag(file@, l@, num as nat),
{
    let t = trimmed(l);
    let st = without_dash(t.as_slice());
    let keys: Vec<Vec<char>> = vec![
        vec!['l', 'a', 'b', 'e', 'l'],
        vec!['c', 'o', 'm', 'm', 'a', 'n', 'd'],
        vec!['i', 'd'],
        vec!['t', 'a', 'g', 's'],
    ];
    let ghost kv = seq![key_label(), key_command(), key_id(), key_tags()];
    assert(vv(keys@) =~= kv);
    let mut k: usize = 0;
    while k < 4
        invariant
            k <= 4,
            keys@.len() == 4,
            vv(keys@) == kv,
            kv == seq![key_label(), key_command(), key_id(), key_tags()],
            st@ == strip_dash(trim(l@)),
            forall|j: int| 0 <= j < k ==> !is_empty_value(st@, #[trigger] kv[j]),
            diags_view(diagnostics@) == diags_view(old(diagnostics)@),
        decreases 4 - k,
    {
        assert(kv[k as int] == keys@[k as int]@);
        if empty_value(st.as_slice(), &keys[k]) {
            let m = concat3("key '", keys[k].as_slice(), "' has no value");
            assert(m@ == "key '"@ + kv[k as int] + "' has no value"@);
            let d = new_diag(file, Some(num), m, Severity::Warning);
            push_diag(diagnostics, d);
            assert(st@ == strip_dash(trim(l@)));
            assert(empty_value_key(st@) == Some(kv[k as int]));
            assert(d@ == DiagV { file: file@, line: Some(num as nat), message: "key '"@ + kv[k as int] + "' has no value"@, severity: Severity::Warning });
            assert(diags_view(diagnostics@) =~= diags_view(old(diagnostics)@) + empty_value_diag(file@, l@, num as nat));
            return;
        }
        k += 1;
    }
    assert(empty_value_key(st@) is None);
    assert(diags_view(diagnostics@) =~= diags_view(diagnostics@) + seq![]);
}

// ---------------------------------------------------------------------------
// Per-line checks over every line of a group
// ---------------------------------------------------------------------------

/// Which per-line check to run over a group's lines.
enum LineCheck {
    Bare,
    EmptyValue,
    Continuation,
}

spec fn line_check_diag(c: LineCheck, file: Seq<char>, l: Seq<char>, num: nat) -> Seq<DiagV> {
    match c {
        LineCheck::Bare => bare_tags_diag(file, l, num),
        LineCheck::EmptyValue => empty_value_diag(file, l, num),
        LineCheck::Continuation => continuation_diag(file, l, num),
    }
}

fn run_line_check(c: &LineCheck, l: &[char], file: &[char], num: usize, diagnostics: &mut Vec<LintDiagnostic>)
    ensures
        diags_view(final(diagnostics)@) == diags_view(old(diagnostics)@) + line_check_diag(*c, file@, l@, num as nat),
{
    match c {
        LineCheck::Bare => check_bare_line(l, file, num, diagnostics),
        LineCheck::EmptyValue => check_empty_value_line(l, file, num, diagnostics),
        LineCheck::Continuation => check_continuation_line(l, file, num, diagnostics),
    }
}

/// Runs `c` over the lines of `g` from index `from`, numbering them from the group's start.
fn check_lines_from(
    c: &LineCheck,
    g: &FactLineGroup,
    from: usize,
    file: &[char],
    diagnostics: &mut Vec<LintDiagnostic>,
)
    requires
        from <= g@.lines.len(),
        g@.start + g@.lines.len() <= usize::MAX + 1,
    ensures
        diags_view(final(diagnostics)@) == diags_view(old(diagnostics)@) + gather(
            g@.lines.skip(from as int),
            |k: int, l: Seq<char>| line_check_diag(*c, file@, l, (g@.start + from + k) as nat),
        ),
{
    let ghost gv = g@;
    assert(gv.lines == vv(g.lines@));
    let ghost xs = gv.lines.skip(from as int);
    let ghost f = |k: int, l: Seq<char>| line_check_diag(*c, file@, l, (gv.start + from + k) as nat);
    let ghost d0 = diags_view(diagnostics@);
    let mut j: usize = from;
    assert(xs.take(0) =~= seq![]);
    while j < g.lines.len()
        invariant
            from <= j <= g.lines@.len(),
            gv == g@,
            gv.lines == vv(g.lines@),
            g.start_line + g.lines@.len() <= usize::MAX + 1,
            xs == gv.lines.skip(from as int),
            f == (|k: int, l: Seq<char>| line_check_diag(*c, file@, l, (gv.start + from + k) as nat)),
            diags_view(diagnostics@) == d0 + gather(xs.take(j - from), f),
        decreases g.lines.len() - j,
    {
        proof {
            lemma_gather_step(xs, f, j - from);
            assert(xs[j - from] == g.lines@[j as int]@);
        }
        run_line_check(c, g.lines[j].as_slice(), file, g.start_line + j, diagnostics);
        j += 1;
    }
    assert(xs.take(j - from) =~= xs);
}

// ---------------------------------------------------------------------------
// Checks over fact groups
// ---------------------------------------------------------------------------

/// Which check to run over each fact group.
enum GroupCheck {
    Keys,
    Mixed,
    Bare,
    Continuation,
    DupKeys,
    EmptyValue,
}

spec fn group_check_diags(c: GroupCheck, file: Seq<char>, g: GroupV) -> Seq<DiagV> {
    match c {
        GroupCheck::Keys => group_key_diags(file, g),
        GroupCheck::Mixed => group_mixed_diags(file, g),
        GroupCheck::Bare => group_bare_diags(file, g),
        GroupCheck::Continuation => group_continuation_diags(file, g),
        GroupCheck::DupKeys => group_dup_key_diags(file, g),
        GroupCheck::EmptyValue => group_empty_value_diags(file, g),
    }
}

fn run_group_check(c: &GroupCheck, g: &FactLineGroup, file: &[char], diagnostics: &mut Vec<LintDiagnostic>)
    requires
        g@.lines.len() >= 1,
        g@.start + g@.lines.len() <= usize::MAX + 1,
    ensures
        diags_view(final(diagnostics)@) == diags_view(old(diagnostics)@) + group_check_diags(*c, file@, g@),
{
    match c {
        GroupCheck::Keys => check_group_keys(g, file, diagnostics),
        GroupCheck::Mixed => check_group_mixed(g, file, diagnostics),
        GroupCheck::Bare => {
            check_lines_from(&LineCheck::Bare, g, 0, file, diagnostics);
            proof {
                assert(g@.lines.skip(0) =~= g@.lines);
                assert((|k: int, l: Seq<char>| line_check_diag(LineCheck::Bare, file@, l, (g@.start + 0 + k) as nat))
                    =~= (|k: int, l: Seq<char>| bare_tags_diag(file@, l, (g@.start + k) as nat)));
            }
        },
        GroupCheck::EmptyValue => {
            check_lines_from(&LineCheck::EmptyValue, g, 0, file, diagnostics);
            proof {
                assert(g@.lines.skip(0) =~= g@.lines);
                assert((|k: int, l: Seq<char>| line_check_diag(LineCheck::EmptyValue, file@, l, (g@.start + 0 + k) as nat))
                    =~= (|k: int, l: Seq<char>| empty_value_diag(file@, l, (g@.start + k) as nat)));
            }
        },
        GroupCheck::Continuation => {
            assert(g@.lines == vv(g.lines@));
            let first = without_dash(g.lines[0].as_slice());
            if g.lines.len() >= 2 && has_known_key_prefix(first.as_slice()) {
                check_lines_from(&LineCheck::Continuation, g, 1, file, diagnostics);
                proof {
                    assert(g@.lines.skip(1) =~= g@.lines.drop_first());
                    assert((|k: int, l: Seq<char>| line_check_diag(LineCheck::Continuation, file@, l, (g@.start + 1 + k) as nat))
                        =~= (|k: int, l: Seq<char>| continuation_diag(file@, l, (g@.start + k + 1) as nat)));
                }
            } else {
                assert(diags_view(diagnostics@) =~= diags_view(diagnostics@) + seq![]);
            }
        },
        GroupCheck::DupKeys => check_group_dup_keys(g, file, diagnostics),
    }
}

/// Runs `c` over every fact group, in order.
fn check_groups(c: &GroupCheck, groups: &Vec<FactLineGroup>, file: &[char], diagnostics: &mut Vec<LintDiagnostic>)
    requires
        groups_ok(groups_view(groups@)),
    ensures
        diags_view(final(diagnostics)@) == diags_view(old(diagnostics)@) + gather(
            groups_view(groups@),
            |i: int, g: GroupV| group_check_diags(*c, file@, g),
        ),
{
    let ghost gs = groups_view(groups@);
    let ghost f = |i: int, g: GroupV| group_check_diags(*c, file@, g);
    let ghost d0 = diags_view(diagnostics@);
    let mut i: usize = 0;
    while i < groups.len()
        invariant
            i <= groups@.len(),
            gs == groups_view(groups@),
            groups_ok(gs),
            f == (|i: int, g: GroupV| group_check_diags(*c, file@, g)),
            diags_view(diagnostics@) == d0 + gather(gs.take(i as int), f),
        decreases groups.len() - i,
    {
        proof {
            lemma_gather_step(gs, f, i as int);
            assert(gs[i as int] == groups@[i as int]@);
        }
        assert(groups_ok(gs));
        run_group_check(c, &groups[i], file, diagnostics);
        i += 1;
    }
    assert(gs.take(i as int) =~= gs);
}

// ---------------------------------------------------------------------------
// Double `@` tags
// ---------------------------------------------------------------------------

/// The text of a fact or label line in which `@` words are looked for.
pub open spec fn at_text(t: Seq<char>) -> Option<Seq<char>> {
    if starts_with(t, dash_space()) {
        Some(t.skip(2))
    } else if starts_with(t, key_colon_space(key_label())) {
        Some(t.skip(7))
    } else {
        None
    }
}

/// `w` without its leading `@` characters.
pub open spec fn strip_ats(w: Seq<char>) -> Seq<char>
    decreases w.len(),
{
    if w.len() > 0 && w[0] == '@' { strip_ats(w.drop_first()) } else { w }
}

pub open spec fn double_at_word_diag(file: Seq<char>, num: nat, w: Seq<char>) -> Seq<DiagV> {
    let tag = strip_ats(w);
    if starts_with(w, seq!['@', '@']) && tag.len() > 0 {
        one(file, Some(num), "double-@ tag '@@"@ + tag + "' should be '@"@ + tag + "'"@, Severity::Warning)
    } else {
        seq![]
    }
}

pub open spec fn double_at_line_diags(file: Seq<char>, i: int, l: Seq<char>) -> Seq<DiagV> {
    match at_text(trim(l)) {
        Some(x) => gather(words(x), |k: int, w: Seq<char>| double_at_word_diag(file, (i + 1) as nat, w)),
        None => seq![],
    }
}

pub open spec fn double_at_diags(ls: Seq<Seq<char>>, file: Seq<char>) -> Seq<DiagV> {
    gather(ls, |i: int, l: Seq<char>| double_at_line_diags(file, i, l))
}

/// `w` without its leading `@` characters.
pub(crate) fn without_ats(w: &[char]) -> (r: Vec<char>)
    ensures
        r@ == strip_ats(w@),
{
    let mut i: usize = 0;
    assert(w@.skip(0) =~= w@);
    while i < w.len() && w[i] == '@'
        invariant
            i <= w@.len(),
            strip_ats(w@) == strip_ats(w@.skip(i as int)),
        decreases w.len() - i,
    {
        assert(w@.skip(i as int).drop_first() =~= w@.skip(i + 1));
        i += 1;
    }
    let r = slice_of(w, i, w.len());
    assert(r@ =~= w@.skip(i as int));
    if i < w.len() {
        assert(w@.skip(i as int)[0] == w@[i as int]);
    }
    r
}

fn check_double_at_line(l: &[char], file: &[char], num: usize, diagnostics: &mut Vec<LintDiagnostic>)
    requires
        num >= 1,
    ensures
        diags_view(final(diagnostics)@) == diags_view(old(diagnostics)@) + double_at_line_diags(file@, num - 1, l@),
{
    let t = trimmed(l);
    let x = if has_prefix(t.as_slice(), kw_dash_space().as_slice()) {
        slice_of(t.as_slice(), 2, t.len())
    } else if has_prefix(t.as_slice(), kw_label_cs().as_slice()) {
        slice_of(t.as_slice(), 7, t.len())
    } else {
        assert(diags_view(diagnostics@) =~= diags_view(diagnostics@) + seq![]);
        return;
    };
    let ws = split_words(x.as_slice());
    let ghost wv = vv(ws@);
    let ghost f = |k: int, w: Seq<char>| double_at_word_diag(file@, num as nat, w);
    let ghost d0 = diags_view(diagnostics@);
    let two_ats = vec!['@', '@'];
    let mut k: usize = 0;
    while k < ws.len()
        invariant
            k <= ws@.len(),
            wv == vv(ws@),
            two_ats@ == seq!['@', '@'],
            f == (|k: int, w: Seq<char>| double_at_word_diag(file@, num as nat, w)),
            diags_view(diagnostics@) == d0 + gather(wv.take(k as int), f),
        decreases ws.len() - k,
    {
        proof {
            lemma_gather_step(wv, f, k as int);
            assert(wv[k as int] == ws@[k as int]@);
        }
        let w = ws[k].as_slice();
        let tag = without_ats(w);
        if has_prefix(w, two_ats.as_slice()) && tag.len() > 0 {
            let mut m = concat3("double-@ tag '@@", tag.as_slice(), "' should be '@");
            let mut rest = concat3("", tag.as_slice(), "'");
            proof {
                reveal_strlit("");
                assert(rest@ =~= tag@ + "'"@);
            }
            let ghost m0 = m@;
            m.append(&mut rest);
            proof {
                assert(m@ =~= "double-@ tag '@@"@ + tag@ + "' should be '@"@ + tag@ + "'"@);
            }
            push_diag(diagnostics, new_diag(file, Some(num), m, Severity::Warning));
            assert(diags_view(diagnostics@) =~= d0 + gather(wv.take(k + 1), f));
        } else {
            assert(diags_view(diagnostics@) =~= diags_view(diagnostics@) + seq![]);
        }
        k += 1;
    }
    assert(wv.take(k as int) =~= wv);
}

fn check_double_at_tags(ls: &Vec<Vec<char>>, file: &[char], diagnostics: &mut Vec<LintDiagnostic>)
    ensures
        diags_view(final(diagnostics)@) == diags_view(old(diagnostics)@) + double_at_diags(vv(ls@), file@),
{
    let ghost f = |i: int, l: Seq<char>| double_at_line_diags(file@, i, l);
    let ghost d0 = diags_view(diagnostics@);
    let mut i: usize = 0;
    while i < ls.len()
        invariant
            i <= ls@.len(),
            f == (|i: int, l: Seq<char>| double_at_line_diags(file@, i, l)),
            diags_view(diagnostics@) == d0 + gather(vv(ls@).take(i as int), f),
        decreases ls.len() - i,
    {
        proof {
            lemma_gather_step(vv(ls@), f, i as int);
            assert(vv(ls@)[i as int] == ls@[i as int]@);
        }
        check_double_at_line(ls[i].as_slice(), file, i + 1, diagnostics);
        i += 1;
    }
    assert(vv(ls@).take(i as int) =~= vv(ls@));
}

// ---------------------------------------------------------------------------
// Duplicate explicit ids
// ---------------------------------------------------------------------------

/// The explicit ids of `pfs`, in order.
pub open spec fn explicit_ids(pfs: Seq<PathFact>) -> Seq<Seq<char>>
    decreases pfs.len(),
{
    if pfs.len() == 0 {
        seq![]
    } else {
        let r = explicit_ids(pfs.drop_last());
        match pfs.last().1.explicit_id {
            Some(x) => r.push(x),
            None => r,
        }
    }
}

/// Index of the entry for `x` in a tally, if it has one.
pub open spec fn key_index(t: Seq<(Seq<char>, nat)>, x: Seq<char>) -> Option<nat>
    decreases t.len(),
{
    if t.len() == 0 {
        None
    } else if t[0].0 == x {
        Some(0)
    } else {
        match key_index(t.drop_first(), x) {
            Some(k) => Some(k + 1),
            None => None,
        }
    }
}

/// Each distinct id with the number of times it occurs, in order of first occurrence.
pub open spec fn tally(ids: Seq<Seq<char>>) -> Seq<(Seq<char>, nat)>
    decreases ids.len(),
{
    if ids.len() == 0 {
        seq![]
    } else {
        let t = tally(ids.drop_last());
        let x = ids.last();
        match key_index(t, x) {
            Some(k) => t.update(k as int, (x, t[k as int].1 + 1)),
            None => t.push((x, 1nat)),
        }
    }
}

pub open spec fn dup_id_diag(file: Seq<char>, e: (Seq<char>, nat)) -> Seq<DiagV> {
    if e.1 > 1 {
        one(file, None, "duplicate explicit id '"@ + e.0 + "' appears "@ + decimal(e.1) + " times"@, Severity::Warning)
    } else {
        seq![]
    }
}

/// One warning per explicit id that more than one fact of the sheet carries, in
/// order of the id's first occurrence.
pub open spec fn dup_id_diags(file: Seq<char>, sh: SheetV) -> Seq<DiagV> {
    gather(tally(explicit_ids(sheet_facts(sh))), |i: int, e: (Seq<char>, nat)| dup_id_diag(file, e))
}

pub open spec fn empty_label_diag(file: Seq<char>, pf: PathFact) -> Seq<DiagV> {
    if all_ws(pf.1.label) {
        one(file, None, "fact has empty label"@, Severity::Warning)
    } else {
        seq![]
    }
}

/// One warning per fact whose label is blank.
pub open spec fn empty_label_diags(file: Seq<char>, sh: SheetV) -> Seq<DiagV> {
    gather(sheet_facts(sh), |i: int, pf: PathFact| empty_label_diag(file, pf))
}

spec fn tally_view(v: Seq<(Vec<char>, usize)>) -> Seq<(Seq<char>, nat)> {
    v.map_values(|p: (Vec<char>, usize)| (p.0@, p.1 as nat))
}

proof fn lemma_key_index(t: Seq<(Seq<char>, nat)>, x: Seq<char>, i: int)
    requires
        0 <= i <= t.len(),
        forall|j: int| 0 <= j < i ==> #[trigger] t[j].0 != x,
    ensures
        i < t.len() && t[i].0 == x ==> key_index(t, x) == Some(i as nat),
        i == t.len() ==> key_index(t, x) is None,
    decreases i,
{
    if t.len() > 0 && i > 0 {
        assert forall|j: int| 0 <= j < i - 1 implies #[trigger] t.drop_first()[j].0 != x by {
            assert(t.drop_first()[j] == t[j + 1]);
        }
        lemma_key_index(t.drop_first(), x, i - 1);
    }
}

fn find_key(t: &Vec<(Vec<char>, usize)>, x: &[char]) -> (r: Option<usize>)
    ensures
        match r {
            Some(k) => key_index(tally_view(t@), x@) == Some(k as nat) && k < t@.len(),
            None => key_index(tally_view(t@), x@) is None,
        },
{
    let ghost tv = tally_view(t@);
    let mut i: usize = 0;
    while i < t.len()
        invariant
            i <= t@.len(),
            tv == tally_view(t@),
            forall|j: int| 0 <= j < i ==> #[trigger] tv[j].0 != x@,
        decreases t.len() - i,
    {
        if same(t[i].0.as_slice(), x) {
            proof {
                lemma_key_index(tv, x@, i as int);
            }
            return Some(i);
        }
        i += 1;
    }
    proof {
        lemma_key_index(tv, x@, i as int);
    }
    None
}

/// Check for duplicate explicit IDs across all facts in the sheet.
fn check_duplicate_ids(sheet: &FactSheet, file: &[char], diagnostics: &mut Vec<LintDiagnostic>)
    ensures
        diags_view(final(diagnostics)@) == diags_view(old(diagnostics)@) + dup_id_diags(file@, sheet@),
{
    let all = sheet.all_facts();
    let ghost pfs = path_facts_view(all@);
    let mut table: Vec<(Vec<char>, usize)> = Vec::new();
    let mut i: usize = 0;
    while i < all.len()
        invariant
            i <= all@.len(),
            pfs == path_facts_view(all@),
            pfs == sheet_facts(sheet@),
            tally_view(table@) == tally(explicit_ids(pfs.take(i as int))),
            forall|k: int| 0 <= k < table@.len() ==> #[trigger] table@[k].1 <= i,
        decreases all.len() - i,
    {
        let ghost t0 = tally_view(table@);
        proof {
            assert(pfs.take(i + 1).drop_last() =~= pfs.take(i as int));
            assert(pfs.take(i + 1).last() == pfs[i as int]);
        }
        let ghost prev_ids = explicit_ids(pfs.take(i as int));
        proof {
            assert(pfs[i as int] == (crate::model::strings_view(all@[i as int].0@), all@[i as int].1@));
        }
        match &all[i].1.explicit_id {
            Some(id) => {
                let x = chars_of(id.as_str());
                proof {
                    assert(pfs[i as int].1.explicit_id == Some(x@));
                    let ni = explicit_ids(pfs.take(i + 1));
                    assert(ni == prev_ids.push(x@));
                    assert(ni.drop_last() =~= prev_ids);
                    assert(tally(ni) == match key_index(t0, x@) {
                        Some(k) => t0.update(k as int, (x@, t0[k as int].1 + 1)),
                        None => t0.push((x@, 1nat)),
                    });
                }
                match find_key(&table, x.as_slice()) {
                    Some(k) => {
                        let c = table[k].1;
                        table.set(k, (x, c + 1));
                        proof {
                            assert(tally_view(table@) =~= t0.update(k as int, (x@, t0[k as int].1 + 1)));
                        }
                    },
                    None => {
                        table.push((x, 1));
                        proof {
                            assert(tally_view(table@) =~= t0.push((x@, 1nat)));
                        }
                    },
                }
            },
            None => {
                assert(pfs[i as int].1.explicit_id is None);
                assert(explicit_ids(pfs.take(i + 1)) == prev_ids);
            },
        }
        i += 1;
    }
    assert(pfs.take(i as int) =~= pfs);
    let ghost tv = tally_view(table@);
    let ghost f = |i: int, e: (Seq<char>, nat)| dup_id_diag(file@, e);
    let ghost d0 = diags_view(diagnostics@);
    let mut j: usize = 0;
    while j < table.len()
        invariant
            j <= table@.len(),
            tv == tally_view(table@),
            f == (|i: int, e: (Seq<char>, nat)| dup_id_diag(file@, e)),
            diags_view(diagnostics@) == d0 + gather(tv.take(j as int), f),
        decreases table.len() - j,
    {
        proof {
            lemma_gather_step(tv, f, j as int);
        }
        let c = table[j].1;
        assert(tv[j as int] == (table@[j as int].0@, c as nat));
        if c > 1 {
            let mut m = concat3("duplicate explicit id '", table[j].0.as_slice(), "' appears ");
            let mut rest = concat2(decimal_chars(c).as_slice(), chars_of(" times").as_slice());
            let ghost m0 = m@;
            m.append(&mut rest);
            assert(m@ =~= "duplicate explicit id '"@ + tv[j as int].0 + "' appears "@ + decimal(c as nat) + " times"@);
            push_diag(diagnostics, new_diag(file, None, m, Severity::Warning));
            assert(diags_view(diagnostics@) =~= d0 + gather(tv.take(j + 1), f));
        } else {
            assert(diags_view(diagnostics@) =~= d0 + gather(tv.take(j + 1), f));
        }
        j += 1;
    }
    assert(tv.take(j as int) =~= tv);
}

/// Check for facts with empty or whitespace-only labels.
///
/// The `add` command rejects empty labels, but hand-edited files can
/// contain `- ` (dash-space with nothing after it). Warn about these.
fn check_empty_labels(sheet: &FactSheet, file: &[char], diagnostics: &mut Vec<LintDiagnostic>)
    ensures
        diags_view(final(diagnostics)@) == diags_view(old(diagnostics)@) + empty_label_diags(file@, sheet@),
{
    let all = sheet.all_facts();
    let ghost pfs = path_facts_view(all@);
    let ghost f = |i: int, pf: PathFact| empty_label_diag(file@, pf);
    let ghost d0 = diags_view(diagnostics@);
    let mut i: usize = 0;
    while i < all.len()
        invariant
            i <= all@.len(),
            pfs == path_facts_view(all@),
            pfs == sheet_facts(sheet@),
            f == (|i: int, pf: PathFact| empty_label_diag(file@, pf)),
            diags_view(diagnostics@) == d0 + gather(pfs.take(i as int), f),
        decreases all.len() - i,
    {
        proof {
            lemma_gather_step(pfs, f, i as int);
        }
        let label = chars_of(all[i].1.label.as_str());
        if is_blank(label.as_slice()) {
            push_diag(diagnostics, new_diag(file, None, chars_of("fact has empty label"), Severity::Warning));
        } else {
            assert(diags_view(diagnostics@) =~= diags_view(diagnostics@) + seq![]);
        }
        i += 1;
    }
    assert(pfs.take(i as int) =~= pfs);
}

// ---------------------------------------------------------------------------
// The whole file
// ---------------------------------------------------------------------------

/// The diagnostics of the line-level checks, in the order they run.
pub open spec fn line_level_diags(c: Seq<char>, file: Seq<char>) -> Seq<DiagV> {
    let ls = lines(c);
    let gs = fact_groups(ls);
    crlf_diags(c, file) + structure_diags(ls, file) + invalid_key_diags(gs, file) + mixed_tag_diags(gs, file)
        + bare_tag_diags(gs, file) + continuation_diags(gs, file) + dup_key_diags(gs, file) + empty_value_diags(
        gs,
        file,
    ) + double_at_diags(ls, file)
}

/// Whether some diagnostic is an error.
pub open spec fn any_error(d: Seq<DiagV>) -> bool {
    exists|j: int| 0 <= j < d.len() && (#[trigger] d[j]).severity == Severity::Error
}

/// All diagnostics of one file: those of the line-level checks; when none of
/// them is an error, the parser's error for a file that does not parse; and
/// when there are none at all, for a file that parses, the sheet checks.
pub open spec fn lint_spec(content: Seq<char>, file: Seq<char>) -> Seq<DiagV> {
    let c = strip_bom(content);
    let d = line_level_diags(c, file);
    if d.len() > 0 {
        match parse_spec(c, file) {
            Ok(_) => d,
            Err(e) => if any_error(d) {
                d
            } else {
                d + one(file, None, "failed to parse: "@ + parse_error_text(e), Severity::Error)
            },
        }
    } else {
        match parse_spec(c, file) {
            Ok(sh) => dup_id_diags(file, sh) + empty_label_diags(file, sh),
            Err(e) => one(file, None, "failed to parse: "@ + parse_error_text(e), Severity::Error),
        }
    }
}

/// Every line number among the diagnostics `d` is a line of a file of `n` lines.
pub open spec fn lines_within(d: Seq<DiagV>, n: nat) -> bool {
    forall|j: int| 0 <= j < d.len() ==> ((#[trigger] d[j]).line matches Some(k) ==> 1 <= k && k <= n)
}

/// Every diagnostic of `d` names `file` and, where it names a line, a line of
/// a file of `n` lines.
pub open spec fn placed_in(file: Seq<char>, d: Seq<DiagV>, n: nat) -> bool {
    forall|j: int| 0 <= j < d.len() ==> (#[trigger] d[j]).file == file && (d[j].line matches Some(k) ==> 1 <= k && k <= n)
}


proof fn lemma_lines_concat(a: Seq<DiagV>, b: Seq<DiagV>, n: nat, file: Seq<char>)
    requires
        placed_in(file, a, n),
        placed_in(file, b, n),
    ensures
        placed_in(file, a + b, n),
{
    assert forall|j: int| 0 <= j < (a + b).len() implies (#[trigger] (a + b)[j]).file == file && ((a + b)[j].line matches Some(k) ==> 1 <= k
        && k <= n) by {
        if j < a.len() {
            assert((a + b)[j] == a[j]);
        } else {
            assert((a + b)[j] == b[j - a.len()]);
        }
    }
}

proof fn lemma_gather_lines<A>(xs: Seq<A>, f: spec_fn(int, A) -> Seq<DiagV>, n: nat, file: Seq<char>)
    requires
        forall|i: int| 0 <= i < xs.len() ==> placed_in(file, #[trigger] f(i, xs[i]), n),
    ensures
        placed_in(file, gather(xs, f), n),
    decreases xs.len(),
{
    if xs.len() > 0 {
        let ys = xs.drop_last();
        assert forall|i: int| 0 <= i < ys.len() implies placed_in(file, #[trigger] f(i, ys[i]), n) by {
            assert(ys[i] == xs[i]);
            assert(placed_in(file, f(i, xs[i]), n));
        }
        lemma_gather_lines(ys, f, n, file);
        assert(placed_in(file, f(xs.len() - 1, xs[xs.len() - 1]), n));
        assert(xs.last() == xs[xs.len() - 1]);
        lemma_lines_concat(gather(ys, f), f(xs.len() - 1, xs.last()), n, file);
    }
}

proof fn lemma_lines_structure(ls: Seq<Seq<char>>, file: Seq<char>)
    ensures
        placed_in(file, structure_diags(ls, file), ls.len()),
{
    let f = |i: int, l: Seq<char>| structure_diag(file, i, l);
    assert forall|i: int| 0 <= i < ls.len() implies placed_in(file, #[trigger] f(i, ls[i]), ls.len()) by {}
    lemma_gather_lines(ls, f, ls.len(), file);
}

proof fn lemma_lines_double_at(ls: Seq<Seq<char>>, file: Seq<char>)
    ensures
        placed_in(file, double_at_diags(ls, file), ls.len()),
{
    let f = |i: int, l: Seq<char>| double_at_line_diags(file, i, l);
    assert forall|i: int| 0 <= i < ls.len() implies placed_in(file, #[trigger] f(i, ls[i]), ls.len()) by {
        match at_text(trim(ls[i])) {
            Some(x) => {
                let g = |k: int, w: Seq<char>| double_at_word_diag(file, (i + 1) as nat, w);
                let ws = words(x);
                assert forall|k: int| 0 <= k < ws.len() implies placed_in(file, #[trigger] g(k, ws[k]), ls.len()) by {}
                lemma_gather_lines(ws, g, ls.len(), file);
            },
            None => {},
        }
    }
    lemma_gather_lines(ls, f, ls.len(), file);
}

/// A fact group of a file of `n` lines: its lines are lines `start` to
/// `start + len - 1` of the file.
pub open spec fn group_within(g: GroupV, n: nat) -> bool {
    g.lines.len() >= 1 && g.start >= 1 && g.start + g.lines.len() <= n + 1
}

proof fn lemma_lines_group(file: Seq<char>, g: GroupV, n: nat)
    requires
        group_within(g, n),
    ensures
        placed_in(file, group_key_diags(file, g), n),
        placed_in(file, group_mixed_diags(file, g), n),
        placed_in(file, group_bare_diags(file, g), n),
        placed_in(file, group_continuation_diags(file, g), n),
        placed_in(file, group_dup_key_diags(file, g), n),
        placed_in(file, group_empty_value_diags(file, g), n),
{
    let rest = g.lines.drop_first();
    let fk = |k: int, l: Seq<char>| key_diag(file, trim(l), (g.start + k + 1) as nat);
    assert forall|k: int| 0 <= k < rest.len() implies placed_in(file, #[trigger] fk(k, rest[k]), n) by {}
    lemma_gather_lines(rest, fk, n, file);
    assert(placed_in(file, key_diag(file, strip_dash(g.lines[0]), g.start), n));
    lemma_lines_concat(key_diag(file, strip_dash(g.lines[0]), g.start), gather(rest, fk), n, file);
    let fb = |k: int, l: Seq<char>| bare_tags_diag(file, l, (g.start + k) as nat);
    assert forall|k: int| 0 <= k < g.lines.len() implies placed_in(file, #[trigger] fb(k, g.lines[k]), n) by {}
    lemma_gather_lines(g.lines, fb, n, file);
    let fc = |k: int, l: Seq<char>| continuation_diag(file, l, (g.start + k + 1) as nat);
    assert forall|k: int| 0 <= k < rest.len() implies placed_in(file, #[trigger] fc(k, rest[k]), n) by {}
    lemma_gather_lines(rest, fc, n, file);
    let d1 = dup_key_diag(file, g, key_label());
    let d2 = dup_key_diag(file, g, key_command());
    let d3 = dup_key_diag(file, g, key_id());
    let d4 = dup_key_diag(file, g, key_tags());
    assert(placed_in(file, d1, n) && placed_in(file, d2, n) && placed_in(file, d3, n) && placed_in(file, d4, n));
    lemma_lines_concat(d1, d2, n, file);
    lemma_lines_concat(d1 + d2, d3, n, file);
    lemma_lines_concat(d1 + d2 + d3, d4, n, file);
    let fe = |k: int, l: Seq<char>| empty_value_diag(file, l, (g.start + k) as nat);
    assert forall|k: int| 0 <= k < g.lines.len() implies placed_in(file, #[trigger] fe(k, g.lines[k]), n) by {}
    lemma_gather_lines(g.lines, fe, n, file);
}

proof fn lemma_lines_groups(gs: Seq<GroupV>, file: Seq<char>, n: nat)
    requires
        groups_wf(gs, n),
    ensures
        placed_in(file, invalid_key_diags(gs, file), n),
        placed_in(file, mixed_tag_diags(gs, file), n),
        placed_in(file, bare_tag_diags(gs, file), n),
        placed_in(file, continuation_diags(gs, file), n),
        placed_in(file, dup_key_diags(gs, file), n),
        placed_in(file, empty_value_diags(gs, file), n),
{
    assert forall|i: int| 0 <= i < gs.len() implies #[trigger] group_within(gs[i], n) by {}
    let f1 = |i: int, g: GroupV| group_key_diags(file, g);
    let f2 = |i: int, g: GroupV| group_mixed_diags(file, g);
    let f3 = |i: int, g: GroupV| group_bare_diags(file, g);
    let f4 = |i: int, g: GroupV| group_continuation_diags(file, g);
    let f5 = |i: int, g: GroupV| group_dup_key_diags(file, g);
    let f6 = |i: int, g: GroupV| group_empty_value_diags(file, g);
    assert forall|i: int| 0 <= i < gs.len() implies placed_in(file, #[trigger] f1(i, gs[i]), n) by {
        lemma_lines_group(file, gs[i], n);
    }
    assert forall|i: int| 0 <= i < gs.len() implies placed_in(file, #[trigger] f2(i, gs[i]), n) by {
        lemma_lines_group(file, gs[i], n);
    }
    assert forall|i: int| 0 <= i < gs.len() implies placed_in(file, #[trigger] f3(i, gs[i]), n) by {
        lemma_lines_group(file, gs[i], n);
    }
    assert forall|i: int| 0 <= i < gs.len() implies placed_in(file, #[trigger] f4(i, gs[i]), n) by {
        lemma_lines_group(file, gs[i], n);
    }
    assert forall|i: int| 0 <= i < gs.len() implies placed_in(file, #[trigger] f5(i, gs[i]), n) by {
        lemma_lines_group(file, gs[i], n);
    }
    assert forall|i: int| 0 <= i < gs.len() implies placed_in(file, #[trigger] f6(i, gs[i]), n) by {
        lemma_lines_group(file, gs[i], n);
    }
    lemma_gather_lines(gs, f1, n, file);
    lemma_gather_lines(gs, f2, n, file);
    lemma_gather_lines(gs, f3, n, file);
    lemma_gather_lines(gs, f4, n, file);
    lemma_gather_lines(gs, f5, n, file);
    lemma_gather_lines(gs, f6, n, file);
}

proof fn lemma_lint_placed(content: Seq<char>, file: Seq<char>)
    ensures
        placed_in(file, lint_spec(content, file), lines(strip_bom(content)).len()),
{
    let c = strip_bom(content);
    let ls = lines(c);
    let n = ls.len();
    let gs = fact_groups(ls);
    lemma_groups_wf(ls, n);
    lemma_lines_groups(gs, file, n);
    lemma_lines_structure(ls, file);
    lemma_lines_double_at(ls, file);
    let a0 = crlf_diags(c, file);
    assert(placed_in(file, a0, n));
    lemma_lines_concat(a0, structure_diags(ls, file), n, file);
    let a1 = a0 + structure_diags(ls, file);
    lemma_lines_concat(a1, invalid_key_diags(gs, file), n, file);
    let a2 = a1 + invalid_key_diags(gs, file);
    lemma_lines_concat(a2, mixed_tag_diags(gs, file), n, file);
    let a3 = a2 + mixed_tag_diags(gs, file);
    lemma_lines_concat(a3, bare_tag_diags(gs, file), n, file);
    let a4 = a3 + bare_tag_diags(gs, file);
    lemma_lines_concat(a4, continuation_diags(gs, file), n, file);
    let a5 = a4 + continuation_diags(gs, file);
    lemma_lines_concat(a5, dup_key_diags(gs, file), n, file);
    let a6 = a5 + dup_key_diags(gs, file);
    lemma_lines_concat(a6, empty_value_diags(gs, file), n, file);
    let a7 = a6 + empty_value_diags(gs, file);
    lemma_lines_concat(a7, double_at_diags(ls, file), n, file);
    let d = line_level_diags(c, file);
    assert(d == a7 + double_at_diags(ls, file));
    match parse_spec(c, file) {
        Ok(sh) => {
            if d.len() == 0 {
                let fi = |i: int, e: (Seq<char>, nat)| dup_id_diag(file, e);
                let t = tally(explicit_ids(sheet_facts(sh)));
                assert forall|i: int| 0 <= i < t.len() implies placed_in(file, #[trigger] fi(i, t[i]), n) by {}
                lemma_gather_lines(t, fi, n, file);
                let fl = |i: int, pf: PathFact| empty_label_diag(file, pf);
                let pfs = sheet_facts(sh);
                assert forall|i: int| 0 <= i < pfs.len() implies placed_in(file, #[trigger] fl(i, pfs[i]), n) by {}
                lemma_gather_lines(pfs, fl, n, file);
                lemma_lines_concat(dup_id_diags(file, sh), empty_label_diags(file, sh), n, file);
            }
        },
        Err(e) => {
            let m = one(file, None, "failed to parse: "@ + parse_error_text(e), Severity::Error);
            assert(placed_in(file, m, n));
            lemma_lines_concat(d, m, n, file);
        },
    }
}

/// Every diagnostic that names a line names a line of the file: a number from
/// 1 to the number of lines (after a leading byte order mark is dropped).
pub proof fn law_lint_lines_in_range(content: Seq<char>, file: Seq<char>)
    ensures
        lines_within(lint_spec(content, file), lines(strip_bom(content)).len()),
{
    lemma_lint_placed(content, file);
}

/// Every diagnostic of a file names the file it was given.
pub proof fn law_lint_names_the_file(content: Seq<char>, file: Seq<char>)
    ensures
        forall|j: int| 0 <= j < lint_spec(content, file).len() ==> (#[trigger] lint_spec(content, file)[j]).file == file,
{
    lemma_lint_placed(content, file);
}

/// Lint validates that a sheet parses: when no diagnostic of a file is an
/// error, the file parses.
pub proof fn law_lint_without_errors_parses(content: Seq<char>, file: Seq<char>)
    requires
        !any_error(lint_spec(content, file)),
    ensures
        parse_spec(strip_bom(content), file) is Ok,
{
    let c = strip_bom(content);
    let d = line_level_diags(c, file);
    if parse_spec(c, file) is Err {
        let e = parse_spec(c, file)->Err_0;
        let m = one(file, None, "failed to parse: "@ + parse_error_text(e), Severity::Error);
        if d.len() > 0 {
            if !any_error(d) {
                assert((d + m)[d.len() as int] == m[0]);
            }
        } else {
            assert(m[0].severity == Severity::Error);
        }
    }
}

/// An empty file has nothing to report.
pub proof fn law_empty_file_is_clean(file: Seq<char>)
    ensures
        lint_spec(seq![], file) == Seq::<DiagV>::empty(),
{
    let c: Seq<char> = seq![];
    assert(strip_bom(c) == c);
    assert(lines(c) == Seq::<Seq<char>>::empty());
    assert(line_level_diags(c, file) == Seq::<DiagV>::empty());
    assert(parse_spec(c, file) is Ok);
}

/// Lint a single file's content and return diagnostics.
pub fn lint_content(content: &str, filename: &str) -> (r: Vec<LintDiagnostic>)
    ensures
        diags_view(r@) == lint_spec(content@, filename@),
{
    let mut diagnostics: Vec<LintDiagnostic> = Vec::new();
    let all = chars_of(content);
    let c = if all.len() > 0 && all[0] == '\u{FEFF}' {
        slice_of(all.as_slice(), 1, all.len())
    } else {
        all
    };
    assert(c@ =~= strip_bom(content@));
    let file = chars_of(filename);
    let ls = split_lines(c.as_slice());
    let groups = group_fact_lines(&ls);
    let ghost gs = groups_view(groups@);
    crlf_chars(c.as_slice(), file.as_slice(), &mut diagnostics);
    check_line_structure(&ls, file.as_slice(), &mut diagnostics);
    check_groups(&GroupCheck::Keys, &groups, file.as_slice(), &mut diagnostics);
    check_groups(&GroupCheck::Mixed, &groups, file.as_slice(), &mut diagnostics);
    check_groups(&GroupCheck::Bare, &groups, file.as_slice(), &mut diagnostics);
    check_groups(&GroupCheck::Continuation, &groups, file.as_slice(), &mut diagnostics);
    check_groups(&GroupCheck::DupKeys, &groups, file.as_slice(), &mut diagnostics);
    check_groups(&GroupCheck::EmptyValue, &groups, file.as_slice(), &mut diagnostics);
    check_double_at_tags(&ls, file.as_slice(), &mut diagnostics);
    proof {
        let fl = file@;
        assert((|i: int, g: GroupV| group_check_diags(GroupCheck::Keys, fl, g)) =~= (|i: int, g: GroupV| group_key_diags(fl, g)));
        assert((|i: int, g: GroupV| group_check_diags(GroupCheck::Mixed, fl, g)) =~= (|i: int, g: GroupV| group_mixed_diags(fl, g)));
        assert((|i: int, g: GroupV| group_check_diags(GroupCheck::Bare, fl, g)) =~= (|i: int, g: GroupV| group_bare_diags(fl, g)));
        assert((|i: int, g: GroupV| group_check_diags(GroupCheck::Continuation, fl, g)) =~= (|i: int, g: GroupV| group_continuation_diags(fl, g)));
        assert((|i: int, g: GroupV| group_check_diags(GroupCheck::DupKeys, fl, g)) =~= (|i: int, g: GroupV| group_dup_key_diags(fl, g)));
        assert((|i: int, g: GroupV| group_check_diags(GroupCheck::EmptyValue, fl, g)) =~= (|i: int, g: GroupV| group_empty_value_diags(fl, g)));
        assert(diags_view(diagnostics@) =~= line_level_diags(c@, fl));
    }
    let text = string_of(c.as_slice());
    let structural_ok = diagnostics.len() == 0;
    let has_error = error_present(&diagnostics);
    match parse(text.as_str(), filename) {
        Ok(sheet) => {
            if structural_ok {
                check_duplicate_ids(&sheet, file.as_slice(), &mut diagnostics);
                check_empty_labels(&sheet, file.as_slice(), &mut diagnostics);
            }
        },
        Err(e) => {
            if !has_error {
                let m = concat2(chars_of("failed to parse: ").as_slice(), chars_of(e.to_string().as_str()).as_slice());
                push_diag(&mut diagnostics, new_diag(file.as_slice(), None, m, Severity::Error));
            }
        },
    }
    diagnostics
}

/// Whether some diagnostic in `v` is an error.
pub fn error_present(v: &Vec<LintDiagnostic>) -> (r: bool)
    ensures
        r == any_error(diags_view(v@)),
{
    let mut i: usize = 0;
    while i < v.len()
        invariant
            i <= v.len(),
            forall|j: int| 0 <= j < i ==> (#[trigger] diags_view(v@)[j]).severity != Severity::Error,
        decreases v.len() - i,
    {
        if v[i].severity == Severity::Error {
            assert(diags_view(v@)[i as int].severity == Severity::Error);
            return true;
        }
        i = i + 1;
    }
    false
}

// ---------------------------------------------------------------------------
// Reporting
// ---------------------------------------------------------------------------

/// The word that names a severity, colored when `on`.
pub open spec fn severity_word(on: bool, s: Severity) -> Seq<char> {
    match s {
        Severity::Error => painted(code_red(), "error"@, on),
        Severity::Warning => painted(code_yellow(), "warning"@, on),
    }
}

/// The line reported for one diagnostic: its location, its severity, its message.
pub open spec fn diagnostic_text(on: bool, d: DiagV) -> Seq<char> {
    painted(code_bold(), location_text(d), on) + ": "@ + severity_word(on, d.severity) + ": "@ + d.message
}

/// The line reported for one diagnostic.
pub fn diagnostic_line(on: bool, d: &LintDiagnostic) -> (r: String)
    ensures
        r@ == diagnostic_text(on, d@),
{
    let boldc = vec!['1'];
    assert(boldc@ =~= code_bold());
    let file = chars_of(d.file.as_str());
    let loc = match d.line {
        Some(n) => concat2(concat2(file.as_slice(), chars_of(":").as_slice()).as_slice(), decimal_chars(n).as_slice()),
        None => file,
    };
    let word = match d.severity {
        Severity::Error => {
            let red = vec!['3', '1'];
            assert(red@ =~= code_red());
            paint(red.as_slice(), chars_of("error").as_slice(), on)
        },
        Severity::Warning => {
            let yellow = vec!['3', '3'];
            assert(yellow@ =~= code_yellow());
            paint(yellow.as_slice(), chars_of("warning").as_slice(), on)
        },
    };
    let sep = chars_of(": ");
    let t = concat2(paint(boldc.as_slice(), loc.as_slice(), on).as_slice(), sep.as_slice());
    let t = concat2(concat2(t.as_slice(), word.as_slice()).as_slice(), sep.as_slice());
    let t = concat2(t.as_slice(), chars_of(d.message.as_str()).as_slice());
    string_of(t.as_slice())
}

/// How many of `ds` have severity `s`.
pub open spec fn count_of(ds: Seq<DiagV>, s: Severity) -> nat
    decreases ds.len(),
{
    if ds.len() == 0 {
        0
    } else {
        count_of(ds.drop_last(), s) + if ds.last().severity == s { 1nat } else { 0nat }
    }
}

/// An `s` after a noun, unless there is exactly one.
pub open spec fn plural(n: nat) -> Seq<char> {
    if n == 1 { seq![] } else { seq!['s'] }
}

/// `n` and a noun, in the plural unless `n` is one.
pub open spec fn counted(n: nat, noun: Seq<char>) -> Seq<char> {
    decimal(n) + " "@ + noun + plural(n)
}

/// The closing summary of a lint run: the number of errors and of warnings,
/// each shown only when there are any.
pub open spec fn summary_of(ds: Seq<DiagV>) -> Seq<char> {
    let e = count_of(ds, Severity::Error);
    let w = count_of(ds, Severity::Warning);
    if e > 0 && w > 0 {
        counted(e, "error"@) + ", "@ + counted(w, "warning"@)
    } else if e > 0 {
        counted(e, "error"@)
    } else if w > 0 {
        counted(w, "warning"@)
    } else {
        seq![]
    }
}

fn plural_chars(n: usize) -> (r: Vec<char>)
    ensures
        r@ == plural(n as nat),
{
    if n == 1 {
        let v: Vec<char> = Vec::new();
        assert(v@ =~= Seq::<char>::empty());
        v
    } else {
        let v = vec!['s'];
        assert(v@ =~= seq!['s']);
        v
    }
}

fn counted_chars(n: usize, noun: &str) -> (r: Vec<char>)
    ensures
        r@ == counted(n as nat, noun@),
{
    let t = concat2(decimal_chars(n).as_slice(), chars_of(" ").as_slice());
    let t = concat2(t.as_slice(), chars_of(noun).as_slice());
    concat2(t.as_slice(), plural_chars(n).as_slice())
}

/// The summary of a lint run, and whether it found no error.
pub fn lint_summary(diags: &Vec<LintDiagnostic>) -> (r: (String, bool))
    ensures
        r.0@ == summary_of(diags_view(diags@)),
        r.1 == (count_of(diags_view(diags@), Severity::Error) == 0),
{
    let ghost dv = diags_view(diags@);
    let mut e: usize = 0;
    let mut w: usize = 0;
    let mut i: usize = 0;
    while i < diags.len()
        invariant
            i <= diags@.len(),
            dv == diags_view(diags@),
            e == count_of(dv.take(i as int), Severity::Error),
            w == count_of(dv.take(i as int), Severity::Warning),
            e + w <= i,
        decreases diags.len() - i,
    {
        proof {
            assert(dv.take(i + 1).drop_last() =~= dv.take(i as int));
            assert(dv.take(i + 1).last() == diags@[i as int]@);
        }
        match diags[i].severity {
            Severity::Error => e = e + 1,
            Severity::Warning => w = w + 1,
        }
        i += 1;
    }
    assert(dv.take(diags@.len() as int) =~= dv);
    let text = if e > 0 && w > 0 {
        concat2(concat2(counted_chars(e, "error").as_slice(), chars_of(", ").as_slice()).as_slice(), counted_chars(w, "warning").as_slice())
    } else if e > 0 {
        counted_chars(e, "error")
    } else if w > 0 {
        counted_chars(w, "warning")
    } else {
        let v: Vec<char> = Vec::new();
        assert(v@ =~= Seq::<char>::empty());
        v
    };
    (string_of(text.as_slice()), e == 0)
}

/// The line shown when no file has a diagnostic.
pub open spec fn passed_text(on: bool, count: nat) -> Seq<char> {
    painted(code_green(), decimal(count) + " file"@ + plural(count) + " passed"@, on)
}

/// The line shown when the `count` files linted have no diagnostic.
pub fn passed_message(on: bool, count: usize) -> (r: String)
    ensures
        r@ == passed_text(on, count as nat),
{
    let green = vec!['3', '2'];
    assert(green@ =~= code_green());
    let t = concat2(decimal_chars(count).as_slice(), chars_of(" file").as_slice());
    let t = concat2(concat2(t.as_slice(), plural_chars(count).as_slice()).as_slice(), chars_of(" passed").as_slice());
    string_of(paint(green.as_slice(), t.as_slice(), on).as_slice())
}

// ---------------------------------------------------------------------------
// Explicit ids shared across files
// ---------------------------------------------------------------------------

/// Strict lexicographic order of character sequences by code point. UTF-8
/// keeps code point order byte by byte, so this is the order of `str`'s `<`.
pub open spec fn str_lt(a: Seq<char>, b: Seq<char>) -> bool
    decreases a.len(),
{
    if a.len() == 0 {
        b.len() > 0
    } else if b.len() == 0 {
        false
    } else if a[0] != b[0] {
        (a[0] as u32) < (b[0] as u32)
    } else {
        str_lt(a.drop_first(), b.drop_first())
    }
}

proof fn lemma_str_lt_irrefl(a: Seq<char>)
    ensures
        !str_lt(a, a),
    decreases a.len(),
{
    if a.len() > 0 {
        lemma_str_lt_irrefl(a.drop_first());
    }
}

proof fn lemma_str_lt_trans(a: Seq<char>, b: Seq<char>, c: Seq<char>)
    requires
        str_lt(a, b),
        str_lt(b, c),
    ensures
        str_lt(a, c),
    decreases a.len(),
{
    if a.len() > 0 && b.len() > 0 && c.len() > 0 && a[0] == b[0] && b[0] == c[0] {
        lemma_str_lt_trans(a.drop_first(), b.drop_first(), c.drop_first());
    }
}

proof fn lemma_str_lt_total(a: Seq<char>, b: Seq<char>)
    requires
        a != b,
    ensures
        str_lt(a, b) || str_lt(b, a),
    decreases a.len(),
{
    if a.len() > 0 && b.len() > 0 {
        if a[0] == b[0] {
            if a.drop_first() == b.drop_first() {
                assert(a =~= seq![a[0]] + a.drop_first());
                assert(b =~= seq![b[0]] + b.drop_first());
            }
            lemma_str_lt_total(a.drop_first(), b.drop_first());
        } else {
            vstd::utf8::char_u32_cast(a[0], a[0] as u32);
            vstd::utf8::char_u32_cast(b[0], b[0] as u32);
        }
    } else if a.len() == 0 && b.len() == 0 {
        assert(a =~= b);
    }
}

proof fn lemma_str_lt_asym(a: Seq<char>, b: Seq<char>)
    requires
        str_lt(a, b),
    ensures
        !str_lt(b, a),
{
    if str_lt(b, a) {
        lemma_str_lt_trans(a, b, a);
        lemma_str_lt_irrefl(a);
    }
}

/// Each element comes strictly before the next.
pub open spec fn strictly_sorted(l: Seq<Seq<char>>) -> bool {
    forall|i: int, j: int| 0 <= i < j < l.len() ==> str_lt(#[trigger] l[i], #[trigger] l[j])
}

/// The elements of `s` in strictly increasing order.
pub open spec fn sorted_of(s: Set<Seq<char>>) -> Seq<Seq<char>> {
    choose|l: Seq<Seq<char>>| strictly_sorted(l) && l.to_set() == s
}

proof fn lemma_sorted_unique(a: Seq<Seq<char>>, b: Seq<Seq<char>>)
    requires
        strictly_sorted(a),
        strictly_sorted(b),
        a.to_set() == b.to_set(),
    ensures
        a == b,
    decreases a.len(),
{
    if a.len() == 0 {
        if b.len() > 0 {
            assert(b.to_set().contains(b[0]));
        }
        assert(a =~= b);
    } else {
        assert(a.to_set().contains(a[0]));
        assert(b.to_set().contains(a[0]));
        let j = choose|j: int| 0 <= j < b.len() && b[j] == a[0];
        assert(b.to_set().contains(b[0]));
        assert(a.to_set().contains(b[0]));
        let i = choose|i: int| 0 <= i < a.len() && a[i] == b[0];
        if j > 0 {
            assert(str_lt(b[0], b[j]));
            if i > 0 {
                assert(str_lt(a[0], a[i]));
                lemma_str_lt_asym(a[0], b[0]);
            } else {
                lemma_str_lt_irrefl(a[0]);
            }
        }
        assert(b[0] == a[0]);
        let a1 = a.drop_first();
        let b1 = b.drop_first();
        assert forall|x: Seq<char>| a1.to_set().contains(x) <==> b1.to_set().contains(x) by {
            if a1.to_set().contains(x) {
                let k = choose|k: int| 0 <= k < a1.len() && a1[k] == x;
                assert(str_lt(a[0], a[k + 1]));
                lemma_str_lt_irrefl(a[0]);
                assert(a.to_set().contains(x));
                assert(b.to_set().contains(x));
                let m = choose|m: int| 0 <= m < b.len() && b[m] == x;
                assert(m != 0);
                assert(b1[m - 1] == x);
            }
            if b1.to_set().contains(x) {
                let k = choose|k: int| 0 <= k < b1.len() && b1[k] == x;
                assert(str_lt(b[0], b[k + 1]));
                lemma_str_lt_irrefl(b[0]);
                assert(b.to_set().contains(x));
                assert(a.to_set().contains(x));
                let m = choose|m: int| 0 <= m < a.len() && a[m] == x;
                assert(m != 0);
                assert(a1[m - 1] == x);
            }
        }
        assert(a1.to_set() =~= b1.to_set());
        assert(strictly_sorted(a1)) by {
            assert forall|p: int, q: int| 0 <= p < q < a1.len() implies str_lt(#[trigger] a1[p], #[trigger] a1[q]) by {
                assert(str_lt(a[p + 1], a[q + 1]));
            }
        }
        assert(strictly_sorted(b1)) by {
            assert forall|p: int, q: int| 0 <= p < q < b1.len() implies str_lt(#[trigger] b1[p], #[trigger] b1[q]) by {
                assert(str_lt(b[p + 1], b[q + 1]));
            }
        }
        lemma_sorted_unique(a1, b1);
        assert(a =~= seq![a[0]] + a1);
        assert(b =~= seq![b[0]] + b1);
    }
}

proof fn lemma_sorted_of(l: Seq<Seq<char>>)
    requires
        strictly_sorted(l),
    ensures
        sorted_of(l.to_set()) == l,
{
    let c = sorted_of(l.to_set());
    assert(strictly_sorted(c) && c.to_set() == l.to_set());
    lemma_sorted_unique(c, l);
}

fn lt_chars(a: &[char], b: &[char]) -> (r: bool)
    ensures
        r == str_lt(a@, b@),
{
    let mut i: usize = 0;
    assert(a@.skip(0) =~= a@);
    assert(b@.skip(0) =~= b@);
    while i < a.len() && i < b.len()
        invariant
            i <= a@.len(),
            i <= b@.len(),
            a@.take(i as int) == b@.take(i as int),
            str_lt(a@, b@) == str_lt(a@.skip(i as int), b@.skip(i as int)),
        decreases a.len() - i,
    {
        let x = a[i];
        let y = b[i];
        assert(a@.skip(i as int)[0] == x && b@.skip(i as int)[0] == y);
        if x != y {
            return (x as u32) < (y as u32);
        }
        assert(a@.skip(i as int).drop_first() =~= a@.skip(i + 1));
        assert(b@.skip(i as int).drop_first() =~= b@.skip(i + 1));
        assert(a@.take(i + 1) =~= a@.take(i as int).push(x));
        assert(b@.take(i + 1) =~= b@.take(i as int).push(y));
        i += 1;
    }
    a.len() < b.len()
}

/// `l` with `x` put in its place, unless it is there already.
fn insert_sorted(l: &mut Vec<Vec<char>>, x: Vec<char>)
    requires
        strictly_sorted(vv(old(l)@)),
    ensures
        strictly_sorted(vv(final(l)@)),
        vv(final(l)@).to_set() == vv(old(l)@).to_set().insert(x@),
{
    let ghost v0 = vv(l@);
    let mut p: usize = 0;
    while p < l.len() && lt_chars(l[p].as_slice(), x.as_slice())
        invariant
            p <= l@.len(),
            v0 == vv(l@),
            forall|k: int| 0 <= k < p ==> str_lt(#[trigger] v0[k], x@),
        decreases l.len() - p,
    {
        p += 1;
    }
    if p < l.len() && same(l[p].as_slice(), x.as_slice()) {
        assert(v0[p as int] == x@);
        assert(v0.to_set().insert(x@) =~= v0.to_set());
        return;
    }
    proof {
        if p < v0.len() {
            assert(v0[p as int] != x@);
            lemma_str_lt_total(v0[p as int], x@);
        }
    }
    l.insert(p, x);
    let ghost v1 = vv(l@);
    assert(v1 =~= v0.insert(p as int, x@));
    assert forall|i: int, j: int| 0 <= i < j < v1.len() implies str_lt(#[trigger] v1[i], #[trigger] v1[j]) by {
        if j < p {
        } else if j == p {
        } else if i < p {
            assert(v1[j] == v0[j - 1]);
            assert(str_lt(v0[i], x@));
            if j - 1 > p {
                assert(str_lt(v0[p as int], v0[j - 1]));
                lemma_str_lt_trans(x@, v0[p as int], v0[j - 1]);
            }
            lemma_str_lt_trans(v0[i], x@, v0[j - 1]);
        } else if i == p {
            if j - 1 > p {
                assert(str_lt(v0[p as int], v0[j - 1]));
                lemma_str_lt_trans(x@, v0[p as int], v0[j - 1]);
            }
        } else {
            assert(str_lt(v0[i - 1], v0[j - 1]));
        }
    }
    assert forall|y: Seq<char>| v1.to_set().contains(y) <==> v0.to_set().insert(x@).contains(y) by {
        if v1.to_set().contains(y) {
            let k = choose|k: int| 0 <= k < v1.len() && v1[k] == y;
            if k < p {
                assert(v0[k] == y);
            } else if k > p {
                assert(v0[k - 1] == y);
            }
        }
        if v0.to_set().contains(y) {
            let k = choose|k: int| 0 <= k < v0.len() && v0[k] == y;
            if k < p {
                assert(v1[k] == y);
            } else {
                assert(v1[k + 1] == y);
            }
        }
        if y == x@ {
            assert(v1[p as int] == y);
        }
    }
    assert(v1.to_set() =~= v0.to_set().insert(x@));
}

/// The explicit ids of the facts of a sheet file (name, content), in order,
/// each with the file's name; none when the file does not parse.
pub open spec fn file_id_pairs(f: (Seq<char>, Seq<char>)) -> Seq<(Seq<char>, Seq<char>)> {
    match parse_spec(f.1, f.0) {
        Ok(sh) => crate::text::concat_map(sheet_facts(sh), id_pair_of(f.0)),
        Err(_) => seq![],
    }
}

/// The explicit id of a fact of the file `name`, paired with that name.
pub open spec fn id_pair_of(name: Seq<char>) -> spec_fn(int, PathFact) -> Seq<(Seq<char>, Seq<char>)> {
    |j: int, pf: PathFact| match pf.1.explicit_id {
        Some(x) => seq![(x, name)],
        None => seq![],
    }
}

/// Every explicit id of every file with the name of its file, in file order.
pub open spec fn id_pairs(files: Seq<(Seq<char>, Seq<char>)>) -> Seq<(Seq<char>, Seq<char>)> {
    crate::text::concat_map(files, |i: int, f: (Seq<char>, Seq<char>)| file_id_pairs(f))
}

/// The distinct ids of `occ`, in order of first occurrence.
pub open spec fn ids_in_order(occ: Seq<(Seq<char>, Seq<char>)>) -> Seq<Seq<char>>
    decreases occ.len(),
{
    if occ.len() == 0 {
        seq![]
    } else {
        let d = ids_in_order(occ.drop_last());
        if d.contains(occ.last().0) { d } else { d.push(occ.last().0) }
    }
}

/// The names of the files in which `occ` has the id `x`.
pub open spec fn names_with(occ: Seq<(Seq<char>, Seq<char>)>, x: Seq<char>) -> Set<Seq<char>>
    decreases occ.len(),
{
    if occ.len() == 0 {
        Set::empty()
    } else {
        let s = names_with(occ.drop_last(), x);
        if occ.last().0 == x { s.insert(occ.last().1) } else { s }
    }
}

/// The warning for an explicit id that several files use, naming those files in order.
pub open spec fn shared_id_warning(x: Seq<char>, names: Seq<Seq<char>>) -> DiagV {
    let listed = crate::text::join(names, ", "@);
    DiagV {
        file: listed,
        line: None,
        message: "duplicate explicit id '"@ + x + "' appears across files: "@ + listed,
        severity: Severity::Warning,
    }
}

/// The warnings for explicit ids used in more than one file of `files` (name,
/// content), in order of each id's first use.
pub open spec fn cross_file_spec(files: Seq<(Seq<char>, Seq<char>)>) -> Seq<DiagV> {
    let occ = id_pairs(files);
    crate::text::concat_map(
        ids_in_order(occ),
        |k: int, x: Seq<char>| {
            let names = sorted_of(names_with(occ, x));
            if names.len() > 1 { seq![shared_id_warning(x, names)] } else { seq![] }
        },
    )
}

/// Pairs of character vectors as pairs of sequences.
pub open spec fn pairs_view(v: Seq<(Vec<char>, Vec<char>)>) -> Seq<(Seq<char>, Seq<char>)> {
    v.map_values(|p: (Vec<char>, Vec<char>)| (p.0@, p.1@))
}

/// Sheet files (name, content) as pairs of sequences.
pub open spec fn named_view(v: Seq<(String, String)>) -> Seq<(Seq<char>, Seq<char>)> {
    v.map_values(|p: (String, String)| (p.0@, p.1@))
}

fn push_pair(out: &mut Vec<(Vec<char>, Vec<char>)>, a: Vec<char>, b: Vec<char>)
    ensures
        pairs_view(final(out)@) == pairs_view(old(out)@).push((a@, b@)),
{
    let ghost before = pairs_view(out@);
    out.push((a, b));
    assert(pairs_view(out@) =~= before.push((a@, b@)));
}

fn id_pairs_of(files: &Vec<(String, String)>) -> (r: Vec<(Vec<char>, Vec<char>)>)
    ensures
        pairs_view(r@) == id_pairs(named_view(files@)),
{
    let ghost fv = named_view(files@);
    let ghost f = |i: int, f: (Seq<char>, Seq<char>)| file_id_pairs(f);
    let mut out: Vec<(Vec<char>, Vec<char>)> = Vec::new();
    let mut i: usize = 0;
    assert(fv.take(0) =~= Seq::<(Seq<char>, Seq<char>)>::empty());
    while i < files.len()
        invariant
            i <= files@.len(),
            fv == named_view(files@),
            f == (|i: int, f: (Seq<char>, Seq<char>)| file_id_pairs(f)),
            pairs_view(out@) == crate::text::concat_map(fv.take(i as int), f),
        decreases files.len() - i,
    {
        proof {
            crate::text::lemma_concat_map_step(fv, f, i as int);
            assert(fv[i as int] == (files@[i as int].0@, files@[i as int].1@));
        }
        let ghost base = pairs_view(out@);
        let name = files[i].0.as_str();
        match parse(files[i].1.as_str(), name) {
            Err(_) => {
                assert(file_id_pairs(fv[i as int]) =~= Seq::<(Seq<char>, Seq<char>)>::empty());
                assert(pairs_view(out@) =~= base + file_id_pairs(fv[i as int]));
            },
            Ok(sheet) => {
                let facts = sheet.all_facts();
                let ghost pfs = path_facts_view(facts@);
                let ghost g = id_pair_of(name@);
                let mut j: usize = 0;
                assert(pfs.take(0) =~= Seq::<PathFact>::empty());
                while j < facts.len()
                    invariant
                        j <= facts@.len(),
                        pfs == path_facts_view(facts@),
                        g == id_pair_of(name@),
                        pairs_view(out@) == base + crate::text::concat_map(pfs.take(j as int), g),
                    decreases facts.len() - j,
                {
                    proof {
                        crate::text::lemma_concat_map_step(pfs, g, j as int);
                        assert(pfs[j as int].1 == facts@[j as int].1@);
                    }
                    let ghost before = pairs_view(out@);
                    match &facts[j].1.explicit_id {
                        Some(x) => {
                            push_pair(&mut out, chars_of(x.as_str()), chars_of(name));
                            assert(pairs_view(out@) =~= before + g(j as int, pfs[j as int]));
                        },
                        None => {
                            assert(pairs_view(out@) =~= before + g(j as int, pfs[j as int]));
                        },
                    }
                    j += 1;
                }
                assert(pfs.take(facts@.len() as int) =~= pfs);
                assert(pfs == sheet_facts(sheet@));
            },
        }
        i += 1;
    }
    assert(fv.take(files@.len() as int) =~= fv);
    out
}

/// The ids of the groups.
pub open spec fn group_ids(g: Seq<(Vec<char>, Vec<Vec<char>>)>) -> Seq<Seq<char>> {
    g.map_values(|p: (Vec<char>, Vec<Vec<char>>)| p.0@)
}

/// Each group holds, in order and once each, the names of the files that use its id in `occ`.
pub open spec fn id_groups_ok(g: Seq<(Vec<char>, Vec<Vec<char>>)>, occ: Seq<(Seq<char>, Seq<char>)>) -> bool {
    &&& group_ids(g) == ids_in_order(occ)
    &&& group_ids(g).no_duplicates()
    &&& forall|k: int| 0 <= k < g.len() ==> {
        &&& strictly_sorted(vv((#[trigger] g[k]).1@))
        &&& vv(g[k].1@).to_set() == names_with(occ, g[k].0@)
    }
}

fn find_group(groups: &Vec<(Vec<char>, Vec<Vec<char>>)>, x: &[char]) -> (r: Option<usize>)
    ensures
        match r {
            Some(k) => k < groups@.len() && groups@[k as int].0@ == x@,
            None => !group_ids(groups@).contains(x@),
        },
{
    let mut k: usize = 0;
    while k < groups.len()
        invariant
            k <= groups@.len(),
            forall|m: int| 0 <= m < k ==> groups@[m].0@ != x@,
        decreases groups.len() - k,
    {
        if same(groups[k].0.as_slice(), x) {
            return Some(k);
        }
        k += 1;
    }
    assert forall|m: int| 0 <= m < group_ids(groups@).len() implies group_ids(groups@)[m] != x@ by {
        assert(group_ids(groups@)[m] == groups@[m].0@);
    }
    None
}

fn group_ids_of(occ: &Vec<(Vec<char>, Vec<char>)>) -> (r: Vec<(Vec<char>, Vec<Vec<char>>)>)
    ensures
        id_groups_ok(r@, pairs_view(occ@)),
{
    let ghost ov = pairs_view(occ@);
    let mut groups: Vec<(Vec<char>, Vec<Vec<char>>)> = Vec::new();
    let mut t: usize = 0;
    assert(ov.take(0) =~= Seq::<(Seq<char>, Seq<char>)>::empty());
    assert(group_ids(groups@) =~= Seq::<Seq<char>>::empty());
    while t < occ.len()
        invariant
            t <= occ@.len(),
            ov == pairs_view(occ@),
            id_groups_ok(groups@, ov.take(t as int)),
        decreases occ.len() - t,
    {
        let ghost prev = ov.take(t as int);
        let ghost now = ov.take(t + 1);
        let ghost g0 = groups@;
        assert(now.drop_last() =~= prev);
        assert(now.last() == (occ@[t as int].0@, occ@[t as int].1@));
        let x = crate::text::copy_chars(occ[t].0.as_slice());
        let n = crate::text::copy_chars(occ[t].1.as_slice());
        match find_group(&groups, x.as_slice()) {
            Some(g) => {
                let (gid, mut list) = groups.remove(g);
                insert_sorted(&mut list, n);
                groups.insert(g, (gid, list));
                proof {
                    assert(groups@ =~= g0.update(g as int, (gid, list)));
                    assert(group_ids(g0)[g as int] == x@);
                    assert(group_ids(groups@) =~= group_ids(g0));
                    assert(ids_in_order(now) == ids_in_order(prev));
                    assert forall|k: int| 0 <= k < groups@.len() implies {
                        &&& strictly_sorted(vv((#[trigger] groups@[k]).1@))
                        &&& vv(groups@[k].1@).to_set() == names_with(now, groups@[k].0@)
                    } by {
                        if k != g {
                            assert(groups@[k] == g0[k]);
                            assert(group_ids(g0)[k] == g0[k].0@);
                            assert(g0[k].0@ != x@);
                        }
                    }
                }
            },
            None => {
                let mut one: Vec<Vec<char>> = Vec::new();
                one.push(n);
                let ghost nv = n@;
                proof {
                    assert(vv(one@) =~= seq![nv]);
                    assert(vv(one@).to_set() =~= Set::<Seq<char>>::empty().insert(nv)) by {
                        assert forall|y: Seq<char>| vv(one@).to_set().contains(y) <==> Set::<Seq<char>>::empty().insert(nv).contains(y) by {
                            if y == nv {
                                assert(vv(one@)[0] == y);
                            }
                        }
                    }
                }
                groups.push((x, one));
                proof {
                    assert(group_ids(groups@) =~= group_ids(g0).push(x@));
                    assert(ids_in_order(now) == ids_in_order(prev).push(x@));
                    assert forall|k: int| 0 <= k < groups@.len() implies {
                        &&& strictly_sorted(vv((#[trigger] groups@[k]).1@))
                        &&& vv(groups@[k].1@).to_set() == names_with(now, groups@[k].0@)
                    } by {
                        if k < g0.len() {
                            assert(groups@[k] == g0[k]);
                            assert(group_ids(g0)[k] == g0[k].0@);
                            assert(g0[k].0@ != x@);
                        } else {
                            lemma_names_absent(prev, x@);
                        }
                    }
                }
            },
        }
        t += 1;
    }
    assert(ov.take(occ@.len() as int) =~= ov);
    groups
}

proof fn lemma_names_absent(occ: Seq<(Seq<char>, Seq<char>)>, x: Seq<char>)
    requires
        !ids_in_order(occ).contains(x),
    ensures
        names_with(occ, x) == Set::<Seq<char>>::empty(),
    decreases occ.len(),
{
    if occ.len() > 0 {
        let d = ids_in_order(occ.drop_last());
        let e = ids_in_order(occ);
        if d.contains(x) {
            let i = choose|i: int| 0 <= i < d.len() && d[i] == x;
            if !d.contains(occ.last().0) {
                assert(e == d.push(occ.last().0));
                assert(e[i] == x);
            }
            assert(e.contains(x));
        }
        if occ.last().0 == x {
            assert(e == d.push(x));
            assert(e[d.len() as int] == x);
        }
        lemma_names_absent(occ.drop_last(), x);
    }
}

/// Warnings for explicit ids that more than one of `files` (name, content)
/// uses, each naming the files in order; ids in order of first use.
pub fn cross_file_duplicate_ids(files: &Vec<(String, String)>) -> (r: Vec<LintDiagnostic>)
    ensures
        diags_view(r@) == cross_file_spec(named_view(files@)),
{
    let occ = id_pairs_of(files);
    let ghost ov = pairs_view(occ@);
    let groups = group_ids_of(&occ);
    let ghost h = |k: int, x: Seq<char>| {
        let names = sorted_of(names_with(ov, x));
        if names.len() > 1 { seq![shared_id_warning(x, names)] } else { seq![] }
    };
    let ghost gi = group_ids(groups@);
    let sep = chars_of(", ");
    let mut out: Vec<LintDiagnostic> = Vec::new();
    let mut k: usize = 0;
    assert(gi.take(0) =~= Seq::<Seq<char>>::empty());
    while k < groups.len()
        invariant
            k <= groups@.len(),
            gi == group_ids(groups@),
            ov == pairs_view(occ@),
            id_groups_ok(groups@, ov),
            sep@ == ", "@,
            h == (|k: int, x: Seq<char>| {
                let names = sorted_of(names_with(ov, x));
                if names.len() > 1 { seq![shared_id_warning(x, names)] } else { seq![] }
            }),
            diags_view(out@) == crate::text::concat_map(gi.take(k as int), h),
        decreases groups.len() - k,
    {
        proof {
            crate::text::lemma_concat_map_step(gi, h, k as int);
            assert(gi[k as int] == groups@[k as int].0@);
            assert(strictly_sorted(vv(groups@[k as int].1@)));
            lemma_sorted_of(vv(groups@[k as int].1@));
        }
        let ghost before = diags_view(out@);
        if groups[k].1.len() > 1 {
            let listed = join_with(&groups[k].1, sep.as_slice());
            let msg = concat3("duplicate explicit id '", groups[k].0.as_slice(), "' appears across files: ");
            let msg = concat2(msg.as_slice(), listed.as_slice());
            let d = LintDiagnostic {
                file: string_of(listed.as_slice()),
                line: None,
                message: string_of(msg.as_slice()),
                severity: Severity::Warning,
            };
            out.push(d);
            assert(diags_view(out@) =~= before.push(d@));
            assert(d@ == shared_id_warning(gi[k as int], vv(groups@[k as int].1@)));
        } else {
            assert(diags_view(out@) =~= before + Seq::<DiagV>::empty());
        }
        k += 1;
    }
    assert(gi.take(groups@.len() as int) =~= gi);
    out
}

} // verus!
