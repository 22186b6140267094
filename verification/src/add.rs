//! The `add` command: append a fact to a file and section.
use vstd::prelude::*;
use crate::lint::strip_ats;
use crate::model::{
    facts_view, lemma_section_children, opt_view, secs_view, section_view, sheets_facts, sheets_view, strings_view,
    copy_strings, all_sheet_facts, sheet_facts_view, Fact, FactSheet, FactV, PathFact, Section, SectionV, SheetV,
    section_facts, sections_facts, sheet_facts,
};
use crate::parser::{extract_inline_tags, inline_label, inline_tags};
use crate::text::{
    all_ws, chars_of, concat2, concat3, contains_seq, ends_with, eq_ic, eq_ignore_case, find_char, has_suffix, is_blank,
    is_ws, is_whitespace, same, split_char, split_on, starts_with, string_of, strings_of, trim, trimmed, vv,
};
use crate::writer::{fact_to_raw, raw_of};

verus! {

/// Options for the add subcommand.
pub struct AddOptions {
    /// The fact label text.
    pub label: String,
    /// Target file (default: ".facts").
    pub file: Option<String>,
    /// Target section path (e.g. "cli/add"). Created if needed.
    pub section: Option<String>,
    /// Validation command.
    pub command: Option<String>,
    /// Explicit ID override.
    pub id: Option<String>,
    /// Tags to add.
    pub tags: Vec<String>,
}

// ---------------------------------------------------------------------------
// Tags given on the command line
// ---------------------------------------------------------------------------

/// The pieces of a comma-separated list, trimmed and without leading `@`s.
pub open spec fn tag_candidates(s: Seq<char>) -> Seq<Seq<char>> {
    split_char(s, ',').map_values(|p: Seq<char>| strip_ats(trim(p)))
}

/// The non-empty elements of `ps`, in order.
pub open spec fn nonempty_only(ps: Seq<Seq<char>>) -> Seq<Seq<char>>
    decreases ps.len(),
{
    if ps.len() == 0 {
        seq![]
    } else if ps.last().len() == 0 {
        nonempty_only(ps.drop_last())
    } else {
        nonempty_only(ps.drop_last()).push(ps.last())
    }
}

/// The tags named by a comma-separated list.
pub open spec fn parsed_tags(s: Seq<char>) -> Seq<Seq<char>> {
    nonempty_only(tag_candidates(s))
}

/// Why a tag is refused, if it is.
pub open spec fn tag_error(t: Seq<char>) -> Option<Seq<char>> {
    if exists|i: int| 0 <= i < t.len() && is_ws(#[trigger] t[i]) {
        Some("tag '"@ + t + "' cannot contain whitespace"@)
    } else if find_char(t, '(') is Some || find_char(t, ')') is Some {
        Some("tag '"@ + t + "' cannot contain parentheses"@)
    } else if t == seq!['n', 'o', 't'] || t == seq!['a', 'n', 'd'] || t == seq!['o', 'r'] {
        Some("tag name conflicts with filter operator: "@ + t)
    } else {
        None
    }
}

/// The error of the first refused tag, if any.
pub open spec fn first_tag_error(ts: Seq<Seq<char>>) -> Option<Seq<char>>
    decreases ts.len(),
{
    if ts.len() == 0 {
        None
    } else {
        match tag_error(ts[0]) {
            Some(m) => Some(m),
            None => first_tag_error(ts.drop_first()),
        }
    }
}

fn has_ws(t: &[char]) -> (b: bool)
    ensures
        b == exists|i: int| 0 <= i < t@.len() && is_ws(#[trigger] t@[i]),
{
    let mut i: usize = 0;
    while i < t.len()
        invariant
            i <= t@.len(),
            forall|j: int| 0 <= j < i ==> !is_ws(#[trigger] t@[j]),
        decreases t.len() - i,
    {
        if is_whitespace(t[i]) {
            return true;
        }
        i += 1;
    }
    false
}

fn check_tag(t: &[char]) -> (r: Option<Vec<char>>)
    ensures
        match (r, tag_error(t@)) {
            (Some(m), Some(e)) => m@ == e,
            (None, None) => true,
            _ => false,
        },
{
    if has_ws(t) {
        return Some(concat3("tag '", t, "' cannot contain whitespace"));
    }
    if crate::text::find_ch(t, '(').is_some() || crate::text::find_ch(t, ')').is_some() {
        return Some(concat3("tag '", t, "' cannot contain parentheses"));
    }
    let not_w = vec!['n', 'o', 't'];
    let and_w = vec!['a', 'n', 'd'];
    let or_w = vec!['o', 'r'];
    assert(not_w@ =~= seq!['n', 'o', 't']);
    assert(and_w@ =~= seq!['a', 'n', 'd']);
    assert(or_w@ =~= seq!['o', 'r']);
    if same(t, not_w.as_slice()) || same(t, and_w.as_slice()) || same(t, or_w.as_slice()) {
        return Some(concat2(chars_of("tag name conflicts with filter operator: ").as_slice(), t));
    }
    None
}

fn strip_leading_ats(w: &[char]) -> (r: Vec<char>)
    ensures
        r@ == strip_ats(w@),
{
    let mut i: usize = 0;
    assert(w@.skip(0) =~= w@);
    while i < w.len() && w[i] == '@'
        invariant
            i <= w@.len(),
            strip_ats(w@) == strip_ats(w@.skip(i as int)),
        decreases w.len() - i,
    {
        assert(w@.skip(i as int).drop_first() =~= w@.skip(i + 1));
        i += 1;
    }
    let r = crate::text::slice_of(w, i, w.len());
    assert(r@ =~= w@.skip(i as int));
    if i < w.len() {
        assert(w@.skip(i as int)[0] == w@[i as int]);
    }
    r
}

proof fn lemma_nonempty_only(ps: Seq<Seq<char>>)
    ensures
        forall|i: int| 0 <= i < nonempty_only(ps).len() ==> #[trigger] nonempty_only(ps)[i].len() > 0
            && ps.contains(nonempty_only(ps)[i]),
    decreases ps.len(),
{
    if ps.len() > 0 {
        lemma_nonempty_only(ps.drop_last());
        let r = nonempty_only(ps);
        let q = nonempty_only(ps.drop_last());
        assert forall|i: int| 0 <= i < r.len() implies #[trigger] r[i].len() > 0 && ps.contains(r[i]) by {
            if i < q.len() {
                assert(r[i] == q[i]);
                let j = choose|j: int| 0 <= j < ps.drop_last().len() && ps.drop_last()[j] == q[i];
                assert(ps[j] == q[i]);
            } else {
                assert(ps[ps.len() - 1] == r[i]);
            }
        }
    }
}

proof fn lemma_first_tag_error_none(ts: Seq<Seq<char>>)
    requires
        first_tag_error(ts) is None,
    ensures
        forall|i: int| 0 <= i < ts.len() ==> tag_error(#[trigger] ts[i]) is None,
    decreases ts.len(),
{
    if ts.len() > 0 {
        lemma_first_tag_error_none(ts.drop_first());
        assert forall|i: int| 0 <= i < ts.len() implies tag_error(#[trigger] ts[i]) is None by {
            if i > 0 {
                assert(ts[i] == ts.drop_first()[i - 1]);
            }
        }
    }
}

/// What `parse_tags` accepts is a list of well-formed tags: each is
/// non-empty, has no leading `@`, no white space and no parenthesis, and is
/// none of the operator words `not`, `and`, `or`.
pub proof fn law_parsed_tags_are_well_formed(s: Seq<char>)
    requires
        first_tag_error(parsed_tags(s)) is None,
    ensures
        forall|i: int| 0 <= i < parsed_tags(s).len() ==> {
            let t = #[trigger] parsed_tags(s)[i];
            &&& t.len() > 0
            &&& t[0] != '@'
            &&& tag_error(t) is None
        },
{
    let cands = tag_candidates(s);
    lemma_nonempty_only(cands);
    lemma_first_tag_error_none(parsed_tags(s));
    assert forall|i: int| 0 <= i < parsed_tags(s).len() implies {
        let t = #[trigger] parsed_tags(s)[i];
        &&& t.len() > 0
        &&& t[0] != '@'
        &&& tag_error(t) is None
    } by {
        let t = parsed_tags(s)[i];
        let j = choose|j: int| 0 <= j < cands.len() && cands[j] == t;
        crate::parser::lemma_strip_ats_untagged(trim(split_char(s, ',')[j]));
    }
}

/// Parse a comma-separated tags string into a list of tags.
/// Returns an error if any tag contains whitespace, a parenthesis, or is an
/// operator name.
pub fn parse_tags(tags_str: &str) -> (r: Result<Vec<String>, String>)
    ensures
        match first_tag_error(parsed_tags(tags_str@)) {
            Some(m) => r matches Err(e) && e@ == m,
            None => r matches Ok(v) && strings_view(v@) == parsed_tags(tags_str@),
        },
{
    let pieces = split_on(chars_of(tags_str).as_slice(), ',');
    let ghost cands = tag_candidates(tags_str@);
    assert(cands.len() == pieces@.len());
    let mut tags: Vec<Vec<char>> = Vec::new();
    let mut i: usize = 0;
    while i < pieces.len()
        invariant
            i <= pieces@.len(),
            cands == tag_candidates(tags_str@),
            cands.len() == pieces@.len(),
            vv(pieces@) =~= split_char(tags_str@, ','),
            vv(tags@) =~= nonempty_only(cands.take(i as int)),
        decreases pieces.len() - i,
    {
        let t = strip_leading_ats(trimmed(pieces[i].as_slice()).as_slice());
        proof {
            assert(cands[i as int] == strip_ats(trim(vv(pieces@)[i as int])));
            assert(cands.take(i + 1).drop_last() =~= cands.take(i as int));
            assert(cands.take(i + 1).last() == t@);
        }
        if t.len() > 0 {
            let ghost t0 = vv(tags@);
            tags.push(t);
            assert(vv(tags@) =~= t0.push(cands[i as int]));
        }
        i += 1;
    }
    assert(cands.take(i as int) =~= cands);
    let ghost ts = vv(tags@);
    let mut k: usize = 0;
    assert(ts.skip(0) =~= ts);
    while k < tags.len()
        invariant
            k <= tags@.len(),
            ts == vv(tags@),
            ts == parsed_tags(tags_str@),
            first_tag_error(ts) == first_tag_error(ts.skip(k as int)),
        decreases tags.len() - k,
    {
        proof {
            assert(ts.skip(k as int)[0] == tags@[k as int]@);
            assert(ts.skip(k as int).drop_first() =~= ts.skip(k + 1));
        }
        match check_tag(tags[k].as_slice()) {
            Some(m) => {
                return Err(string_of(m.as_slice()));
            },
            None => {},
        }
        k += 1;
    }
    assert(ts.skip(k as int) =~= seq![]);
    Ok(strings_of(&tags))
}

// ---------------------------------------------------------------------------
// Placing a fact under a section path
// ---------------------------------------------------------------------------

/// Index of the first section whose title equals `name` ignoring ASCII case.
pub open spec fn title_index(secs: Seq<SectionV>, name: Seq<char>) -> Option<nat>
    decreases secs.len(),
{
    if secs.len() == 0 {
        None
    } else if eq_ignore_case(secs[0].title, name) {
        Some(0)
    } else {
        match title_index(secs.drop_first(), name) {
            Some(k) => Some(k + 1),
            None => None,
        }
    }
}

/// `n` `#` characters.
pub open spec fn hashes(n: nat) -> Seq<char> {
    Seq::new(n, |i: int| '#')
}

/// A section made for a path component that did not exist yet.
pub open spec fn fresh_section(name: Seq<char>, depth: nat, facts: Seq<FactV>, children: Seq<SectionV>) -> SectionV {
    SectionV {
        title: name,
        depth,
        facts,
        children,
        raw_heading: hashes(depth) + seq![' '] + name,
        blank_lines_before: 1,
    }
}

/// `secs` with the section path `parts` made to exist (matching titles without
/// regard to ASCII case, creating the missing ones) and `f` appended, with no
/// blank line before it, to the facts of the last one.
pub open spec fn with_path(secs: Seq<SectionV>, parts: Seq<Seq<char>>, depth: nat, f: FactV) -> Seq<SectionV>
    decreases parts.len(),
{
    if parts.len() == 0 {
        secs
    } else {
        let name = parts[0];
        let f0 = FactV { blank_lines_before: 0, ..f };
        match title_index(secs, name) {
            Some(k) => {
                let s = secs[k as int];
                if parts.len() == 1 {
                    secs.update(k as int, SectionV { facts: s.facts.push(f0), ..s })
                } else {
                    secs.update(k as int, SectionV { children: with_path(s.children, parts.drop_first(), depth + 1, f), ..s })
                }
            },
            None => if parts.len() == 1 {
                secs.push(fresh_section(name, depth, seq![f0], seq![]))
            } else {
                secs.push(fresh_section(name, depth, seq![], with_path(seq![], parts.drop_first(), depth + 1, f)))
            },
        }
    }
}

proof fn lemma_title_index(secs: Seq<SectionV>, name: Seq<char>, i: int)
    requires
        0 <= i <= secs.len(),
        forall|j: int| 0 <= j < i ==> !eq_ignore_case(#[trigger] secs[j].title, name),
    ensures
        i < secs.len() && eq_ignore_case(secs[i].title, name) ==> title_index(secs, name) == Some(i as nat),
        i == secs.len() ==> title_index(secs, name) is None,
    decreases i,
{
    if secs.len() > 0 && i > 0 {
        assert forall|j: int| 0 <= j < i - 1 implies !eq_ignore_case(#[trigger] secs.drop_first()[j].title, name) by {
            assert(secs.drop_first()[j] == secs[j + 1]);
        }
        lemma_title_index(secs.drop_first(), name, i - 1);
    }
}

fn find_title(secs: &Vec<Section>, name: &[char]) -> (r: Option<usize>)
    ensures
        match r {
            Some(k) => title_index(secs_view(secs@), name@) == Some(k as nat) && k < secs@.len(),
            None => title_index(secs_view(secs@), name@) is None,
        },
{
    let ghost sv = secs_view(secs@);
    let mut i: usize = 0;
    while i < secs.len()
        invariant
            i <= secs@.len(),
            sv == secs_view(secs@),
            forall|j: int| 0 <= j < i ==> !eq_ignore_case(#[trigger] sv[j].title, name@),
        decreases secs.len() - i,
    {
        let t = chars_of(secs[i].title.as_str());
        if eq_ic(t.as_slice(), name) {
            proof {
                lemma_title_index(sv, name@, i as int);
            }
            return Some(i);
        }
        i += 1;
    }
    proof {
        lemma_title_index(sv, name@, i as int);
    }
    None
}

fn heading_for(name: &[char], depth: usize) -> (r: Vec<char>)
    ensures
        r@ == hashes(depth as nat) + seq![' '] + name@,
{
    let mut h: Vec<char> = Vec::new();
    let mut i: usize = 0;
    while i < depth
        invariant
            i <= depth,
            h@ =~= hashes(i as nat),
        decreases depth - i,
    {
        h.push('#');
        i += 1;
    }
    h.push(' ');
    concat2(h.as_slice(), name)
}

/// Recursively ensure the section path exists and append the fact to the leaf.
fn ensure_section_path(sections: &mut Vec<Section>, parts: &Vec<Vec<char>>, start: usize, depth: usize, fact: Fact)
    requires
        start < parts@.len(),
        depth + parts@.len() - start <= usize::MAX,
    ensures
        secs_view(final(sections)@) =~= with_path(secs_view(old(sections)@), vv(parts@).skip(start as int), depth as nat, fact@),
    decreases parts@.len() - start,
{
    let ghost q = vv(parts@).skip(start as int);
    let ghost old_v = secs_view(sections@);
    let ghost fv = fact@;
    let name = &parts[start];
    assert(q[0] == name@);
    let existing_idx = find_title(sections, name.as_slice());
    let mut fact = fact;
    if start == parts.len() - 1 {
        fact.blank_lines_before = 0;
        let ghost f0 = fact@;
        assert(f0 == FactV { blank_lines_before: 0, ..fv });
        match existing_idx {
            Some(idx) => {
                let mut s = sections.remove(idx);
                let ghost sv = section_view(s);
                proof {
                    lemma_section_children(s);
                }
                s.facts.push(fact);
                proof {
                    lemma_section_children(s);
                    assert(facts_view(s.facts@) =~= sv.facts.push(f0));
                    assert(section_view(s) =~~= SectionV { facts: sv.facts.push(f0), ..sv });
                }
                sections.insert(idx, s);
                assert(secs_view(sections@) =~= old_v.update(idx as int, section_view(s)));
            },
            None => {
                let section = Section {
                    title: string_of(name.as_slice()),
                    depth,
                    facts: vec![fact],
                    children: Vec::new(),
                    raw_heading: string_of(heading_for(name.as_slice(), depth).as_slice()),
                    blank_lines_before: 1,
                };
                proof {
                    lemma_section_children(section);
                    assert(secs_view(section.children@) =~= seq![]);
                    assert(facts_view(section.facts@) =~= seq![f0]);
                    assert(section_view(section) =~~= fresh_section(name@, depth as nat, seq![f0], seq![]));
                }
                sections.push(section);
                assert(secs_view(sections@) =~= old_v.push(section_view(section)));
            },
        }
    } else {
        assert(q.drop_first() =~= vv(parts@).skip(start + 1));
        match existing_idx {
            Some(idx) => {
                let mut s = sections.remove(idx);
                let ghost sv = section_view(s);
                proof {
                    lemma_section_children(s);
                }
                ensure_section_path(&mut s.children, parts, start + 1, depth + 1, fact);
                proof {
                    lemma_section_children(s);
                    assert(section_view(s) =~~= SectionV {
                        children: with_path(sv.children, q.drop_first(), (depth + 1) as nat, fv),
                        ..sv
                    });
                }
                sections.insert(idx, s);
                assert(secs_view(sections@) =~= old_v.update(idx as int, section_view(s)));
            },
            None => {
                let mut section = Section {
                    title: string_of(name.as_slice()),
                    depth,
                    facts: Vec::new(),
                    children: Vec::new(),
                    raw_heading: string_of(heading_for(name.as_slice(), depth).as_slice()),
                    blank_lines_before: 1,
                };
                proof {
                    lemma_section_children(section);
                    assert(secs_view(section.children@) =~= seq![]);
                }
                ensure_section_path(&mut section.children, parts, start + 1, depth + 1, fact);
                proof {
                    lemma_section_children(section);
                    assert(facts_view(section.facts@) =~= seq![]);
                    assert(section_view(section) =~~= fresh_section(
                        name@,
                        depth as nat,
                        seq![],
                        with_path(seq![], q.drop_first(), (depth + 1) as nat, fv),
                    ));
                }
                sections.push(section);
                assert(secs_view(sections@) =~= old_v.push(section_view(section)));
            },
        }
    }
}

/// The components of a section path: split at `/`, each trimmed.
pub open spec fn section_parts(path: Seq<char>) -> Seq<Seq<char>> {
    split_char(path, '/').map_values(|p: Seq<char>| trim(p))
}

/// Why a section path is refused, if it is.
pub open spec fn section_path_error(path: Seq<char>) -> Option<Seq<char>> {
    let ps = section_parts(path);
    if exists|i: int| 0 <= i < ps.len() && (#[trigger] ps[i]).len() == 0 {
        Some("section path cannot contain empty components"@)
    } else if ps.len() > 6 {
        Some("section path too deep (max 6 levels)"@)
    } else {
        None
    }
}

/// What is wrong with a section path, if anything: an empty component, or
/// more than six levels.
pub fn section_path_problem(section_path: &str) -> (r: Option<String>)
    ensures
        opt_view(r) == section_path_error(section_path@),
{
    let pieces = split_on(chars_of(section_path).as_slice(), '/');
    let ghost ps = section_parts(section_path@);
    let mut any_empty = false;
    let mut i: usize = 0;
    while i < pieces.len()
        invariant
            i <= pieces@.len(),
            ps == section_parts(section_path@),
            vv(pieces@) =~= split_char(section_path@, '/'),
            ps.len() == pieces@.len(),
            any_empty == exists|j: int| 0 <= j < i && (#[trigger] ps[j]).len() == 0,
        decreases pieces.len() - i,
    {
        let t = trimmed(pieces[i].as_slice());
        assert(ps[i as int] == t@);
        if t.len() == 0 {
            any_empty = true;
        }
        i += 1;
    }
    if any_empty {
        return Some(string_of(chars_of("section path cannot contain empty components").as_slice()));
    }
    if pieces.len() > 6 {
        return Some(string_of(chars_of("section path too deep (max 6 levels)").as_slice()));
    }
    None
}

/// Add a fact to a section, creating the section path if needed.
pub fn add_to_section(sheet: &mut FactSheet, section_path: &str, fact: Fact) -> (r: Result<(), String>)
    ensures
        match section_path_error(section_path@) {
            Some(m) => r matches Err(e) && e@ == m && final(sheet)@ == old(sheet)@,
            None => r is Ok && final(sheet)@ == (SheetV {
                sections: with_path(old(sheet)@.sections, section_parts(section_path@), 1, fact@),
                ..old(sheet)@
            }),
        },
{
    let pieces = split_on(chars_of(section_path).as_slice(), '/');
    let ghost ps = section_parts(section_path@);
    let mut parts: Vec<Vec<char>> = Vec::new();
    let mut any_empty = false;
    let mut i: usize = 0;
    while i < pieces.len()
        invariant
            i <= pieces@.len(),
            ps == section_parts(section_path@),
            vv(pieces@) =~= split_char(section_path@, '/'),
            vv(parts@) =~= ps.take(i as int),
            any_empty == exists|j: int| 0 <= j < i && (#[trigger] ps[j]).len() == 0,
        decreases pieces.len() - i,
    {
        let t = trimmed(pieces[i].as_slice());
        assert(ps[i as int] == t@);
        if t.len() == 0 {
            any_empty = true;
        }
        let ghost p0 = vv(parts@);
        parts.push(t);
        assert(vv(parts@) =~= p0.push(ps[i as int]));
        assert(ps.take(i + 1) =~= ps.take(i as int).push(ps[i as int]));
        i += 1;
    }
    assert(ps.take(i as int) =~= ps);
    if any_empty {
        return Err(string_of(chars_of("section path cannot contain empty components").as_slice()));
    }
    if parts.len() > 6 {
        return Err(string_of(chars_of("section path too deep (max 6 levels)").as_slice()));
    }
    assert(vv(parts@).skip(0) =~= vv(parts@));
    ensure_section_path(&mut sheet.sections, &parts, 0, 1, fact);
    Ok(())
}

// ---------------------------------------------------------------------------
// The new fact and the sheet it goes into
// ---------------------------------------------------------------------------

/// Whether `s` holds a line break.
pub open spec fn has_line_break(s: Seq<char>) -> bool {
    find_char(s, '\n') is Some || find_char(s, '\r') is Some
}

/// The file named by the options, `.facts` when none is.
pub open spec fn file_option(opts: AddOptions) -> Seq<char> {
    match opt_view(opts.file) {
        Some(f) => f,
        None => ".facts"@,
    }
}

/// Why the options are refused before any file is read, if they are.
pub open spec fn add_error(opts: AddOptions) -> Option<Seq<char>> {
    let f = file_option(opts);
    if has_line_break(opts.label@) {
        Some("label cannot contain newlines"@)
    } else if all_ws(inline_label(opts.label@)) {
        Some("label cannot be empty"@)
    } else if opt_view(opts.command) matches Some(c) && all_ws(c) {
        Some("command cannot be empty"@)
    } else if opt_view(opts.id) matches Some(i) && all_ws(i) {
        Some("ID cannot be empty"@)
    } else if starts_with(f, seq!['/']) {
        Some("file path must be relative, not absolute"@)
    } else if find_char(f, '/') is Some || find_char(f, '\\') is Some {
        Some("file must be in the project root (no subdirectory paths)"@)
    } else {
        None
    }
}

/// The file the fact goes into: the named file, with `.facts` added unless it ends so.
pub open spec fn target_filename(opts: AddOptions) -> Seq<char> {
    let f = file_option(opts);
    if ends_with(f, ".facts"@) { f } else { f + ".facts"@ }
}

/// The file a fact is added to: the given name unchanged when it already ends
/// in `.facts`, else that name with `.facts` appended; `.facts` when none is
/// given. Either way it ends in `.facts`.
pub proof fn law_target_file_name(opts: AddOptions)
    ensures
        opt_view(opts.file) matches Some(f) ==> (ends_with(f, ".facts"@) ==> target_filename(opts) == f),
        opt_view(opts.file) matches Some(f) ==> (!ends_with(f, ".facts"@) ==> target_filename(opts) == f + ".facts"@),
        opt_view(opts.file) is None ==> target_filename(opts) == ".facts"@,
        ends_with(target_filename(opts), ".facts"@),
{
    reveal_strlit(".facts");
    let f = file_option(opts);
    if opts.file is None {
        assert(ends_with(f, ".facts"@)) by {
            assert(f.subrange(0, 6) =~= f);
        }
    }
    if !ends_with(f, ".facts"@) {
        let g = f + ".facts"@;
        assert(g.subrange(g.len() - 6, g.len() as int) =~= ".facts"@);
    }
}

/// `a` followed by the elements of `b` that are not already there, in order.
pub open spec fn merged_tags(a: Seq<Seq<char>>, b: Seq<Seq<char>>) -> Seq<Seq<char>>
    decreases b.len(),
{
    if b.len() == 0 {
        a
    } else {
        let m = merged_tags(a, b.drop_last());
        if m.contains(b.last()) { m } else { m.push(b.last()) }
    }
}

/// The fact the options describe: inline tags taken out of the label and merged
/// with the given tags; a mapping when a command or id is given; its text as the
/// writer renders it.
pub open spec fn new_fact_v(opts: AddOptions) -> FactV {
    let f0 = FactV {
        explicit_id: opt_view(opts.id),
        label: inline_label(opts.label@),
        command: opt_view(opts.command),
        tags: merged_tags(inline_tags(opts.label@), strings_view(opts.tags@)),
        is_plain: !(opts.command is Some || opts.id is Some),
        raw: seq![],
        blank_lines_before: 0,
    };
    FactV { raw: raw_of(f0), ..f0 }
}

/// Whether some fact of `ss` carries the explicit id `id`.
pub open spec fn id_in_use(ss: Seq<SheetV>, id: Seq<char>) -> bool {
    exists|k: int| 0 <= k < sheets_facts(ss).len() && (#[trigger] sheets_facts(ss)[k]).1.1.explicit_id == Some(id)
}

/// The sheet after the add, or why it failed.
pub open spec fn add_spec(opts: AddOptions, existing: Seq<SheetV>, target: Option<SheetV>) -> Result<SheetV, Seq<char>> {
    match add_error(opts) {
        Some(m) => Err(m),
        None => if opt_view(opts.id) is Some && id_in_use(existing, opt_view(opts.id)->Some_0) {
            Err("ID already exists: "@ + opt_view(opts.id)->Some_0)
        } else {
            let sh = match target {
                Some(t) => t,
                None => SheetV { filename: target_filename(opts), preamble: seq![], sections: seq![] },
            };
            match opt_view(opts.section) {
                Some(p) => match section_path_error(p) {
                    Some(m) => Err(m),
                    None => Ok(SheetV { sections: with_path(sh.sections, section_parts(p), 1, new_fact_v(opts)), ..sh }),
                },
                None => Ok(SheetV { preamble: sh.preamble.push(new_fact_v(opts)), ..sh }),
            }
        },
    }
}

fn has_ch(s: &[char], c: char) -> (b: bool)
    ensures
        b == (find_char(s@, c) is Some),
{
    crate::text::find_ch(s, c).is_some()
}

/// Check the options before any file is read; on success give the file the fact goes into.
pub fn validate(opts: &AddOptions) -> (r: Result<String, String>)
    ensures
        match add_error(*opts) {
            Some(m) => r matches Err(e) && e@ == m,
            None => r matches Ok(f) && f@ == target_filename(*opts),
        },
{
    let label = chars_of(opts.label.as_str());
    if has_ch(label.as_slice(), '\n') || has_ch(label.as_slice(), '\r') {
        return Err(string_of(chars_of("label cannot contain newlines").as_slice()));
    }
    let (stripped, _) = extract_inline_tags(opts.label.as_str());
    if is_blank(chars_of(stripped.as_str()).as_slice()) {
        return Err(string_of(chars_of("label cannot be empty").as_slice()));
    }
    match &opts.command {
        Some(c) => {
            if is_blank(chars_of(c.as_str()).as_slice()) {
                return Err(string_of(chars_of("command cannot be empty").as_slice()));
            }
        },
        None => {},
    }
    match &opts.id {
        Some(i) => {
            if is_blank(chars_of(i.as_str()).as_slice()) {
                return Err(string_of(chars_of("ID cannot be empty").as_slice()));
            }
        },
        None => {},
    }
    let f = match &opts.file {
        Some(f) => chars_of(f.as_str()),
        None => chars_of(".facts"),
    };
    assert(f@ == file_option(*opts));
    if f.len() > 0 && f[0] == '/' {
        assert(f@.subrange(0, 1) =~= seq!['/']);
        return Err(string_of(chars_of("file path must be relative, not absolute").as_slice()));
    }
    if f.len() > 0 {
        assert(f@.subrange(0, 1) =~= seq![f@[0]]);
        assert(!starts_with(f@, seq!['/'])) by {
            if starts_with(f@, seq!['/']) {
                assert(f@.subrange(0, 1)[0] == seq!['/'][0]);
            }
        }
    }
    if has_ch(f.as_slice(), '/') || has_ch(f.as_slice(), '\\') {
        return Err(string_of(chars_of("file must be in the project root (no subdirectory paths)").as_slice()));
    }
    let ext = chars_of(".facts");
    if has_suffix(f.as_slice(), ext.as_slice()) {
        Ok(string_of(f.as_slice()))
    } else {
        Ok(string_of(concat2(f.as_slice(), ext.as_slice()).as_slice()))
    }
}

fn copy_opt(o: &Option<String>) -> (r: Option<String>)
    ensures
        opt_view(r) == opt_view(*o),
{
    match o {
        Some(s) => Some(s.clone()),
        None => None,
    }
}

/// `a` followed by the tags of `b` that are not already there.
pub fn merge_tags(a: Vec<Vec<char>>, b: &Vec<Vec<char>>) -> (r: Vec<Vec<char>>)
    ensures
        vv(r@) == merged_tags(vv(a@), vv(b@)),
{
    let mut r = a;
    let ghost av = vv(r@);
    let mut i: usize = 0;
    while i < b.len()
        invariant
            i <= b@.len(),
            vv(r@) == merged_tags(av, vv(b@).take(i as int)),
        decreases b.len() - i,
    {
        proof {
            assert(vv(b@).take(i + 1).drop_last() =~= vv(b@).take(i as int));
            assert(vv(b@).take(i + 1).last() == b@[i as int]@);
        }
        if !contains_seq(&r, b[i].as_slice()) {
            let ghost r0 = vv(r@);
            r.push(crate::text::copy_chars(b[i].as_slice()));
            assert(vv(r@) =~= r0.push(b@[i as int]@));
        }
        i += 1;
    }
    assert(vv(b@).take(i as int) =~= vv(b@));
    r
}

/// The fact the options describe.
pub fn new_fact(opts: &AddOptions) -> (f: Fact)
    ensures
        f@ == new_fact_v(*opts),
{
    let (clean_label, inline) = extract_inline_tags(opts.label.as_str());
    let combined = merge_tags(crate::text::chars_of_strings(inline.as_slice()), &crate::text::chars_of_strings(opts.tags.as_slice()));
    let needs_mapping = opts.command.is_some() || opts.id.is_some();
    let mut fact = Fact {
        explicit_id: copy_opt(&opts.id),
        label: clean_label,
        command: copy_opt(&opts.command),
        tags: strings_of(&combined),
        is_plain: !needs_mapping,
        raw: String::new(),
        blank_lines_before: 0,
    };
    let raw = fact_to_raw(&fact);
    fact.raw = raw;
    fact
}

/// Whether some fact of the sheets carries the explicit id `id`.
pub fn id_exists(sheets: &Vec<FactSheet>, id: &str) -> (b: bool)
    ensures
        b == id_in_use(sheets_view(sheets@), id@),
{
    let flat = all_sheet_facts(sheets);
    let ghost fs = sheet_facts_view(flat@);
    let t = chars_of(id);
    let mut k: usize = 0;
    while k < flat.len()
        invariant
            k <= flat@.len(),
            fs == sheet_facts_view(flat@),
            fs =~= sheets_facts(sheets_view(sheets@)),
            t@ == id@,
            forall|j: int| 0 <= j < k ==> (#[trigger] fs[j]).1.1.explicit_id != Some(id@),
        decreases flat.len() - k,
    {
        match &flat[k].2.explicit_id {
            Some(e) => {
                if same(chars_of(e.as_str()).as_slice(), t.as_slice()) {
                    assert(fs[k as int].1.1.explicit_id == Some(id@));
                    return true;
                }
            },
            None => {},
        }
        k += 1;
    }
    false
}

/// Add the fact the options describe. `existing` holds the sheets whose explicit
/// ids it must not repeat; `target` is the sheet of the target file when that
/// file exists. Gives the target sheet as it is after the add.
pub fn run(opts: &AddOptions, existing: &Vec<FactSheet>, target: Option<FactSheet>) -> (r: Result<FactSheet, String>)
    ensures
        match (r, add_spec(*opts, sheets_view(existing@), match target {
            Some(t) => Some(t@),
            None => None,
        })) {
            (Ok(sh), Ok(v)) => sh@ == v,
            (Err(e), Err(m)) => e@ == m,
            _ => false,
        },
{
    let filename = match validate(opts) {
        Ok(f) => f,
        Err(e) => {
            return Err(e);
        },
    };
    match &opts.id {
        Some(i) => {
            if id_exists(existing, i.as_str()) {
                return Err(string_of(crate::text::concat2(chars_of("ID already exists: ").as_slice(), chars_of(i.as_str()).as_slice()).as_slice()));
            }
        },
        None => {},
    }
    let mut sheet = match target {
        Some(t) => t,
        None => {
            let fresh = FactSheet { filename, preamble: Vec::new(), sections: Vec::new() };
            assert(facts_view(fresh.preamble@) =~= seq![]);
            assert(secs_view(fresh.sections@) =~= seq![]);
            fresh
        },
    };
    let fact = new_fact(opts);
    let ghost before = sheet@;
    match &opts.section {
        Some(p) => {
            match add_to_section(&mut sheet, p.as_str(), fact) {
                Ok(()) => {},
                Err(e) => {
                    return Err(e);
                },
            }
        },
        None => {
            sheet.preamble.push(fact);
            assert(facts_view(sheet.preamble@) =~= before.preamble.push(fact@));
            assert(sheet@ =~~= SheetV { preamble: before.preamble.push(fact@), ..before });
        },
    }
    Ok(sheet)
}

pub proof fn lemma_title_index_bound(secs: Seq<SectionV>, name: Seq<char>)
    ensures
        title_index(secs, name) matches Some(k) ==> k < secs.len() && eq_ignore_case(secs[k as int].title, name),
    decreases secs.len(),
{
    if secs.len() > 0 {
        lemma_title_index_bound(secs.drop_first(), name);
        match title_index(secs.drop_first(), name) {
            Some(k) => {
                assert(secs.drop_first()[k as int] == secs[k as int + 1]);
            },
            None => {},
        }
    }
}

/// A section path whose titles are `parts`, each matched without regard to
/// ASCII case.
pub open spec fn path_matches(q: Seq<Seq<char>>, parts: Seq<Seq<char>>) -> bool {
    q.len() == parts.len() && forall|i: int| 0 <= i < q.len() ==> eq_ignore_case(#[trigger] q[i], parts[i])
}

pub proof fn lemma_section_parts_nonempty(p: Seq<char>)
    ensures
        section_parts(p).len() > 0,
{
    assert(split_char(p, '/').len() > 0);
}

proof fn lemma_in_sections(ss: Seq<SectionV>, names: Seq<Seq<char>>, k: int, x: PathFact)
    requires
        0 <= k < ss.len(),
        section_facts(ss[k], names).contains(x),
    ensures
        sections_facts(ss, names).contains(x),
    decreases k,
{
    let a = section_facts(ss[0], names);
    let b = sections_facts(ss.drop_first(), names);
    assert(sections_facts(ss, names) == a + b);
    if k == 0 {
        let i = choose|i: int| 0 <= i < a.len() && a[i] == x;
        assert((a + b)[i] == x);
    } else {
        assert(ss.drop_first()[k - 1] == ss[k]);
        lemma_in_sections(ss.drop_first(), names, k - 1, x);
        let i = choose|i: int| 0 <= i < b.len() && b[i] == x;
        assert((a + b)[a.len() + i] == x);
    }
}

proof fn lemma_own_fact(s: SectionV, names: Seq<Seq<char>>, j: int)
    requires
        0 <= j < s.facts.len(),
    ensures
        section_facts(s, names).contains((names.push(s.title), s.facts[j])),
{
    let path = names.push(s.title);
    let own = s.facts.map_values(|g: FactV| (path, g));
    assert(section_facts(s, names) == own + sections_facts(s.children, path));
    assert((own + sections_facts(s.children, path))[j] == (path, s.facts[j]));
}

proof fn lemma_child_fact(s: SectionV, names: Seq<Seq<char>>, x: PathFact)
    requires
        sections_facts(s.children, names.push(s.title)).contains(x),
    ensures
        section_facts(s, names).contains(x),
{
    let path = names.push(s.title);
    let own = s.facts.map_values(|g: FactV| (path, g));
    let kids = sections_facts(s.children, path);
    assert(section_facts(s, names) == own + kids);
    let i = choose|i: int| 0 <= i < kids.len() && kids[i] == x;
    assert((own + kids)[own.len() + i] == x);
}

pub proof fn lemma_with_path_has(secs: Seq<SectionV>, parts: Seq<Seq<char>>, depth: nat, f: FactV, names: Seq<Seq<char>>)
    requires
        parts.len() > 0,
        f.blank_lines_before == 0,
    ensures
        exists|p: Seq<Seq<char>>| sections_facts(with_path(secs, parts, depth, f), names).contains((p, f)),
        exists|q: Seq<Seq<char>>|
            path_matches(q, parts) && #[trigger] sections_facts(with_path(secs, parts, depth, f), names).contains((names + q, f)),
    decreases parts.len(),
{
    let name = parts[0];
    let f0 = FactV { blank_lines_before: 0, ..f };
    assert(f0 == f);
    let r = with_path(secs, parts, depth, f);
    match title_index(secs, name) {
        Some(k) => {
            lemma_title_index_bound(secs, name);
            let s = secs[k as int];
            if parts.len() == 1 {
                let s2 = SectionV { facts: s.facts.push(f0), ..s };
                assert(r == secs.update(k as int, s2));
                lemma_own_fact(s2, names, s.facts.len() as int);
                assert(s2.facts[s.facts.len() as int] == f);
                lemma_in_sections(r, names, k as int, (names.push(s2.title), f));
                let q = seq![s.title];
                assert(names + q =~= names.push(s2.title));
                assert(path_matches(q, parts));
            } else {
                let c2 = with_path(s.children, parts.drop_first(), depth + 1, f);
                let s2 = SectionV { children: c2, ..s };
                assert(r == secs.update(k as int, s2));
                lemma_with_path_has(s.children, parts.drop_first(), depth + 1, f, names.push(s.title));
                let p = choose|p: Seq<Seq<char>>| sections_facts(c2, names.push(s.title)).contains((p, f));
                lemma_child_fact(s2, names, (p, f));
                lemma_in_sections(r, names, k as int, (p, f));
                let q1 = choose|q: Seq<Seq<char>>|
                    path_matches(q, parts.drop_first()) && #[trigger] sections_facts(c2, names.push(s.title)).contains((names.push(s.title) + q, f));
                lemma_child_fact(s2, names, (names.push(s.title) + q1, f));
                lemma_in_sections(r, names, k as int, (names.push(s.title) + q1, f));
                let q = seq![s.title] + q1;
                assert(names + q =~= names.push(s.title) + q1);
                assert forall|i: int| 0 <= i < q.len() implies eq_ignore_case(#[trigger] q[i], parts[i]) by {
                    if i > 0 {
                        assert(q[i] == q1[i - 1]);
                        assert(parts[i] == parts.drop_first()[i - 1]);
                    }
                }
                assert(path_matches(q, parts));
            }
        },
        None => {
            if parts.len() == 1 {
                let s2 = fresh_section(name, depth, seq![f0], seq![]);
                assert(r == secs.push(s2));
                lemma_own_fact(s2, names, 0);
                lemma_in_sections(r, names, secs.len() as int, (names.push(s2.title), f));
                let q = seq![name];
                assert(names + q =~= names.push(s2.title));
                assert(eq_ignore_case(name, parts[0]));
                assert(path_matches(q, parts));
            } else {
                let c2 = with_path(seq![], parts.drop_first(), depth + 1, f);
                let s2 = fresh_section(name, depth, seq![], c2);
                assert(r == secs.push(s2));
                lemma_with_path_has(seq![], parts.drop_first(), depth + 1, f, names.push(name));
                let p = choose|p: Seq<Seq<char>>| sections_facts(c2, names.push(name)).contains((p, f));
                lemma_child_fact(s2, names, (p, f));
                lemma_in_sections(r, names, secs.len() as int, (p, f));
                let q1 = choose|q: Seq<Seq<char>>|
                    path_matches(q, parts.drop_first()) && #[trigger] sections_facts(c2, names.push(name)).contains((names.push(name) + q, f));
                lemma_child_fact(s2, names, (names.push(name) + q1, f));
                lemma_in_sections(r, names, secs.len() as int, (names.push(name) + q1, f));
                let q = seq![name] + q1;
                assert(names + q =~= names.push(name) + q1);
                assert forall|i: int| 0 <= i < q.len() implies eq_ignore_case(#[trigger] q[i], parts[i]) by {
                    if i > 0 {
                        assert(q[i] == q1[i - 1]);
                        assert(parts[i] == parts.drop_first()[i - 1]);
                    }
                }
                assert(path_matches(q, parts));
            }
        },
    }
}

/// A fact that `add` puts into a sheet is then among the sheet's facts as
/// `list`, `get` and `check` read them, with the label, id, command and tags
/// that were given.
pub proof fn law_added_fact_is_listed(opts: AddOptions, existing: Seq<SheetV>, target: Option<SheetV>)
    requires
        add_spec(opts, existing, target) is Ok,
    ensures
        exists|k: int|
            0 <= k < sheet_facts(add_spec(opts, existing, target)->Ok_0).len() && (#[trigger] sheet_facts(
                add_spec(opts, existing, target)->Ok_0,
            )[k]).1 == new_fact_v(opts),
{
    let r = add_spec(opts, existing, target)->Ok_0;
    let f = new_fact_v(opts);
    let sh = match target {
        Some(t) => t,
        None => SheetV { filename: target_filename(opts), preamble: seq![], sections: seq![] },
    };
    let pre = r.preamble.map_values(|g: FactV| (Seq::<Seq<char>>::empty(), g));
    let secs = sections_facts(r.sections, seq![]);
    assert(sheet_facts(r) == pre + secs);
    match opt_view(opts.section) {
        Some(p) => {
            let parts = section_parts(p);
            lemma_section_parts_nonempty(p);
            assert(r.sections == with_path(sh.sections, parts, 1, f));
            lemma_with_path_has(sh.sections, parts, 1, f, seq![]);
            let q = choose|q: Seq<Seq<char>>| secs.contains((q, f));
            let i = choose|i: int| 0 <= i < secs.len() && secs[i] == (q, f);
            assert((pre + secs)[pre.len() + i] == (q, f));
        },
        None => {
            assert(r.preamble == sh.preamble.push(f));
            assert((pre + secs)[sh.preamble.len() as int].1 == f);
        },
    }
}

} // verus!
