//! Write-back serializer for .facts files.
//!
//! Produces byte-for-byte deterministic output: parse then write with no
//! changes yields identical content.
use vstd::prelude::*;
use crate::model::{
    facts_view, lemma_section_children, secs_view, section_view, strings_view, Fact, FactSheet, FactV, Section, SectionV,
    SheetV,
};
use crate::text::{all_ws, chars_of, chars_of_string, find_char, join, join_with, lines, strip_cr, string_of, vv};
use crate::parser::{
    block_sections, body_facts, dash_space, entries_facts, has_known_key_prefix, key_colon_space, key_id, key_command,
    key_label, key_tags, kw_dash_space, kw_id_cs, kw_command_cs, kw_label_cs, kw_tags_cs, starts_with_known_key, forest, parse_spec, strip_bom, subtree_len, entries_from, entry_fact, group, heading, items, newline, starts_entry, EntryV, FactLineV,
    ItemV, SecBlockV,
};

verus! {

/// `n` newline characters.
pub open spec fn newlines(n: nat) -> Seq<char> {
    Seq::new(n, |i: int| '\n')
}

/// A fact as written: its blank lines, its raw text, a newline.
pub open spec fn fact_text(f: FactV) -> Seq<char> {
    newlines(f.blank_lines_before) + f.raw + seq!['\n']
}

/// The facts as written, in order.
pub open spec fn facts_text(fs: Seq<FactV>) -> Seq<char>
    decreases fs.len(),
{
    if fs.len() == 0 {
        seq![]
    } else {
        fact_text(fs[0]) + facts_text(fs.drop_first())
    }
}

/// A section's own text: blank lines, heading line, its facts.
pub open spec fn heading_text(s: SectionV) -> Seq<char> {
    newlines(s.blank_lines_before) + s.raw_heading + seq!['\n'] + facts_text(s.facts)
}

/// A section and its subsections as written.
pub open spec fn section_text(s: SectionV) -> Seq<char>
    decreases s, 1nat,
{
    heading_text(s) + sections_text(s.children)
}

/// Sections as written, in order.
pub open spec fn sections_text(ss: Seq<SectionV>) -> Seq<char>
    decreases ss, 0nat,
{
    if ss.len() == 0 {
        seq![]
    } else {
        proof {
            assert(decreases_to!(ss => ss[0]));
        }
        section_text(ss[0]) + sections_text(ss.drop_first())
    }
}

/// The text of a whole sheet, ending with a newline unless empty.
pub open spec fn sheet_text(sh: SheetV) -> Seq<char> {
    let out = facts_text(sh.preamble) + sections_text(sh.sections);
    if out.len() > 0 && out.last() != '\n' { out.push('\n') } else { out }
}

} // verus!

verus! {

/// Appends `n` newlines.
fn push_newlines(out: &mut Vec<char>, n: usize)
    ensures
        final(out)@ =~= old(out)@ + newlines(n as nat),
{
    let mut i: usize = 0;
    while i < n
        invariant
            i <= n,
            out@ =~= old(out)@ + newlines(i as nat),
        decreases n - i,
    {
        out.push('\n');
        i += 1;
    }
}

/// Write a list of facts.
fn write_facts(out: &mut Vec<char>, facts: &Vec<Fact>, is_preamble: bool)
    ensures
        final(out)@ =~= old(out)@ + facts_text(facts_view(facts@)),
{
    let ghost fs = facts_view(facts@);
    let mut i: usize = 0;
    assert(fs.skip(0) =~= fs);
    while i < facts.len()
        invariant
            i <= facts@.len(),
            fs == facts_view(facts@),
            old(out)@ + facts_text(fs) =~= out@ + facts_text(fs.skip(i as int)),
        decreases facts.len() - i,
    {
        let fact = &facts[i];
        let ghost q = fs.skip(i as int);
        proof {
            assert(q.drop_first() =~= fs.skip(i + 1));
            assert(q[0] == fact@);
        }
        // Blank lines before fact
        let blanks = if is_preamble && i == 0 && fact.blank_lines_before == 0 {
            0
        } else {
            fact.blank_lines_before
        };
        push_newlines(out, blanks);
        let raw = chars_of_string(&fact.raw);
        out.extend_from_slice(raw.as_slice());
        out.push('\n');
        i += 1;
    }
    assert(fs.skip(i as int) =~= seq![]);
}

/// Write a section and its children recursively.
fn write_section(out: &mut Vec<char>, section: &Section)
    ensures
        final(out)@ =~= old(out)@ + section_text(section_view(*section)),
    decreases section,
{
    push_newlines(out, section.blank_lines_before);
    let raw = chars_of_string(&section.raw_heading);
    out.extend_from_slice(raw.as_slice());
    out.push('\n');
    write_facts(out, &section.facts, false);
    let ghost mid = out@;
    let ghost kids = secs_view(section.children@);
    let mut i: usize = 0;
    assert(kids.skip(0) =~= kids);
    while i < section.children.len()
        invariant
            i <= section.children@.len(),
            kids == secs_view(section.children@),
            mid + sections_text(kids) =~= out@ + sections_text(kids.skip(i as int)),
        decreases section.children.len() - i,
    {
        let ghost q = kids.skip(i as int);
        proof {
            assert(q.drop_first() =~= kids.skip(i + 1));
            assert(q[0] == section_view(section.children@[i as int]));
        }
        write_section(out, &section.children[i]);
        i += 1;
    }
    proof {
        assert(kids.skip(i as int) =~= seq![]);
        lemma_section_children(*section);
    }
}

/// Serialize a FactSheet back to the .facts format.
pub fn write(sheet: &FactSheet) -> (s: String)
    ensures
        s@ == sheet_text(sheet@),
{
    let mut out: Vec<char> = Vec::new();
    // Preamble facts (before any heading)
    write_facts(&mut out, &sheet.preamble, true);
    // Sections
    let ghost mid = out@;
    let ghost secs = secs_view(sheet.sections@);
    let mut i: usize = 0;
    assert(secs.skip(0) =~= secs);
    while i < sheet.sections.len()
        invariant
            i <= sheet.sections@.len(),
            secs == secs_view(sheet.sections@),
            mid + sections_text(secs) =~= out@ + sections_text(secs.skip(i as int)),
        decreases sheet.sections.len() - i,
    {
        let ghost q = secs.skip(i as int);
        proof {
            assert(q.drop_first() =~= secs.skip(i + 1));
            assert(q[0] == section_view(sheet.sections@[i as int]));
        }
        write_section(&mut out, &sheet.sections[i]);
        i += 1;
    }
    assert(secs.skip(i as int) =~= seq![]);
    // Ensure file ends with a trailing newline
    let n = out.len();
    if n > 0 && out[n - 1] != '\n' {
        out.push('\n');
    }
    string_of(out.as_slice())
}

} // verus!

verus! {

// ---------------------------------------------------------------------------
// Round trip: writing a parsed canonical file gives the file back
// ---------------------------------------------------------------------------

/// Whether a sheet writes out as nothing but white space: the file would hold
/// no fact any more.
pub fn writes_blank(sheet: &FactSheet) -> (b: bool)
    ensures
        b == all_ws(sheet_text(sheet@)),
{
    let s = write(sheet);
    crate::text::is_blank(chars_of(s.as_str()).as_slice())
}

/// The text stored for a sheet: its written form, or nothing at all when that
/// is only white space.
pub fn stored_text(sheet: &FactSheet) -> (s: String)
    ensures
        s@ == (if all_ws(sheet_text(sheet@)) { Seq::<char>::empty() } else { sheet_text(sheet@) }),
{
    let s = write(sheet);
    if crate::text::is_blank(chars_of(s.as_str()).as_slice()) {
        string_of(Vec::<char>::new().as_slice())
    } else {
        s
    }
}

/// Lines with a newline after each.
pub open spec fn lines_text(ls: Seq<Seq<char>>) -> Seq<char>
    decreases ls.len(),
{
    if ls.len() == 0 { seq![] } else { ls[0] + seq!['\n'] + lines_text(ls.drop_first()) }
}

/// Whether a non-blank line neither is a heading nor starts a fact, so that
/// it can only continue the fact above it.
pub open spec fn is_continuation(l: Seq<char>) -> bool {
    !all_ws(l) && heading(l) is None && !starts_entry(l)
}

/// A file in the form the writer produces: no carriage return at the end of
/// a line (a `\r\n` ending) and no byte order mark, every line ended by a
/// newline, blank lines empty, no blank line at the end, and no blank line
/// right before a continuation line. A carriage return inside a line is kept.
pub open spec fn is_canonical(c: Seq<char>) -> bool {
    let ls = lines(c);
    &&& forall|i: int| 0 <= i && i + 1 < c.len() && #[trigger] c[i] == '\r' ==> c[i + 1] != '\n'
    &&& (c.len() > 0 ==> c[0] != '\u{FEFF}' && c.last() == '\n')
    &&& forall|i: int| 0 <= i < ls.len() && all_ws(#[trigger] ls[i]) ==> ls[i].len() == 0
    &&& (ls.len() > 0 ==> !all_ws(ls.last()))
    &&& forall|i: int| 0 < i < ls.len() && is_continuation(#[trigger] ls[i]) ==> !all_ws(ls[i - 1])
}

proof fn lemma_find_char_props(s: Seq<char>, c: char)
    ensures
        match find_char(s, c) {
            Some(k) => k < s.len() && s[k as int] == c && forall|j: int| 0 <= j < k ==> s[j] != c,
            None => forall|j: int| 0 <= j < s.len() ==> s[j] != c,
        },
    decreases s.len(),
{
    if s.len() > 0 && s[0] != c {
        lemma_find_char_props(s.drop_first(), c);
        match find_char(s.drop_first(), c) {
            Some(k) => {
                assert forall|j: int| 0 <= j < k + 1 implies s[j] != c by {
                    if j > 0 {
                        assert(s[j] == s.drop_first()[j - 1]);
                    }
                }
            },
            None => {
                assert forall|j: int| 0 <= j < s.len() implies s[j] != c by {
                    if j > 0 {
                        assert(s[j] == s.drop_first()[j - 1]);
                    }
                }
            },
        }
    }
}

/// Step A: a file without `\r\n` that ends with a newline is its lines, each followed by a newline.
proof fn lemma_lines_text(c: Seq<char>)
    requires
        forall|i: int| 0 <= i && i + 1 < c.len() && #[trigger] c[i] == '\r' ==> c[i + 1] != '\n',
        c.len() > 0 ==> c.last() == '\n',
    ensures
        lines_text(lines(c)) == c,
    decreases c.len(),
{
    if c.len() > 0 {
        lemma_find_char_props(c, '\n');
        let k = find_char(c, '\n')->Some_0;
        let rest = c.skip(k as int + 1);
        assert(k > 0 ==> c.take(k as int).last() != '\r');
        assert(strip_cr(c.take(k as int)) == c.take(k as int));
        assert forall|i: int| 0 <= i && i + 1 < rest.len() && #[trigger] rest[i] == '\r' implies rest[i + 1] != '\n' by {
            assert(rest[i] == c[k + 1 + i]);
            assert(rest[i + 1] == c[k + 1 + i + 1]);
        }
        if rest.len() > 0 {
            assert(rest.last() == c.last());
        }
        lemma_lines_text(rest);
        assert(lines(c).drop_first() == lines(rest));
        assert(c =~= c.take(k as int) + seq!['\n'] + rest);
    }
}

/// The text of one item.
pub open spec fn item_text(it: ItemV) -> Seq<char> {
    match it {
        ItemV::Heading(h) => newlines(h.blanks) + h.raw + seq!['\n'],
        ItemV::Body(f) => newlines(f.blanks) + f.raw + seq!['\n'],
    }
}

pub open spec fn items_text(its: Seq<ItemV>) -> Seq<char>
    decreases its.len(),
{
    if its.len() == 0 { seq![] } else { item_text(its[0]) + items_text(its.drop_first()) }
}

/// Step B: the items of canonical lines give back the lines.
proof fn lemma_items_text(ls: Seq<Seq<char>>, b: nat)
    requires
        forall|i: int| 0 <= i < ls.len() && all_ws(#[trigger] ls[i]) ==> ls[i].len() == 0,
        ls.len() > 0 ==> !all_ws(ls.last()),
        ls.len() == 0 ==> b == 0,
    ensures
        items_text(items(ls, b)) == newlines(b) + lines_text(ls),
    decreases ls.len(),
{
    if ls.len() == 0 {
        assert(newlines(0) + seq![] =~= seq![]);
    } else {
        let rest = ls.drop_first();
        assert forall|i: int| 0 <= i < rest.len() && all_ws(#[trigger] rest[i]) implies rest[i].len() == 0 by {
            assert(rest[i] == ls[i + 1]);
        }
        if rest.len() > 0 {
            assert(rest.last() == ls.last());
        }
        if all_ws(ls[0]) {
            assert(ls[0].len() == 0);
            assert(rest.len() > 0);
            lemma_items_text(rest, b + 1);
            assert(newlines(b + 1) =~= newlines(b) + seq!['\n']);
            assert(ls[0] + seq!['\n'] =~= seq!['\n']);
            assert(newlines(b + 1) + lines_text(rest) =~= newlines(b) + (ls[0] + seq!['\n'] + lines_text(rest)));
        } else {
            lemma_items_text(rest, 0);
            assert(newlines(0) + lines_text(rest) =~= lines_text(rest));
            let it = items(ls, b)[0];
            assert(item_text(it) =~= newlines(b) + ls[0] + seq!['\n']);
            assert(items(ls, b).drop_first() == items(rest, 0));
            assert(newlines(b) + ls[0] + seq!['\n'] + lines_text(rest) =~= newlines(b) + (ls[0] + seq!['\n'] + lines_text(rest)));
        }
    }
}

} // verus!

verus! {

/// Continuation body lines carry no blank lines before them.
pub open spec fn items_tight(its: Seq<ItemV>) -> bool {
    forall|i: int| 0 <= i < its.len() ==> match #[trigger] its[i] {
        ItemV::Body(f) => !starts_entry(f.raw) ==> f.blanks == 0,
        ItemV::Heading(_) => true,
    }
}

/// Step C: canonical lines give items whose continuation lines are tight.
proof fn lemma_items_tight(ls: Seq<Seq<char>>, b: nat)
    requires
        forall|i: int| 0 < i < ls.len() && is_continuation(#[trigger] ls[i]) ==> !all_ws(ls[i - 1]),
        ls.len() > 0 && is_continuation(ls[0]) ==> b == 0,
    ensures
        items_tight(items(ls, b)),
    decreases ls.len(),
{
    if ls.len() > 0 {
        let rest = ls.drop_first();
        assert forall|i: int| 0 < i < rest.len() && is_continuation(#[trigger] rest[i]) implies !all_ws(rest[i - 1]) by {
            assert(rest[i] == ls[i + 1]);
            assert(rest[i - 1] == ls[i]);
        }
        if all_ws(ls[0]) {
            if rest.len() > 0 && is_continuation(rest[0]) {
                assert(rest[0] == ls[1]);
            }
            lemma_items_tight(rest, b + 1);
        } else {
            lemma_items_tight(rest, 0);
            let its = items(ls, b);
            assert(its.drop_first() == items(rest, 0));
            assert forall|i: int| 0 <= i < its.len() implies match #[trigger] its[i] {
                ItemV::Body(f) => !starts_entry(f.raw) ==> f.blanks == 0,
                ItemV::Heading(_) => true,
            } by {
                if i > 0 {
                    assert(its[i] == items(rest, 0)[i - 1]);
                }
            }
        }
    }
}

/// A body line as written.
pub open spec fn body_line_text(f: FactLineV) -> Seq<char> {
    newlines(f.blanks) + f.raw + seq!['\n']
}

pub open spec fn body_text(fls: Seq<FactLineV>) -> Seq<char>
    decreases fls.len(),
{
    if fls.len() == 0 { seq![] } else { body_line_text(fls[0]) + body_text(fls.drop_first()) }
}

pub open spec fn block_text(b: SecBlockV) -> Seq<char> {
    newlines(b.head.blanks) + b.head.raw + seq!['\n'] + body_text(b.body)
}

pub open spec fn blocks_text(bs: Seq<SecBlockV>) -> Seq<char>
    decreases bs.len(),
{
    if bs.len() == 0 { seq![] } else { block_text(bs[0]) + blocks_text(bs.drop_first()) }
}

/// Body lines whose continuation lines are tight.
pub open spec fn body_tight(fls: Seq<FactLineV>) -> bool {
    forall|i: int| 0 <= i < fls.len() ==> (!starts_entry(#[trigger] fls[i].raw) ==> fls[i].blanks == 0)
}

/// Step D: grouping keeps the text, and tight items give tight bodies.
proof fn lemma_group_text(its: Seq<ItemV>)
    ensures
        items_text(its) == body_text(group(its).0) + blocks_text(group(its).1),
        items_tight(its) ==> body_tight(group(its).0)
            && forall|j: int| 0 <= j < group(its).1.len() ==> body_tight(#[trigger] group(its).1[j].body),
    decreases its.len(),
{
    if its.len() == 0 {
        assert(body_text(seq![]) + blocks_text(seq![]) =~= seq![]);
    } else {
        let rest = its.drop_first();
        lemma_group_text(rest);
        let (pre, secs) = group(rest);
        if items_tight(its) {
            assert forall|i: int| 0 <= i < rest.len() implies match #[trigger] rest[i] {
                ItemV::Body(f) => !starts_entry(f.raw) ==> f.blanks == 0,
                ItemV::Heading(_) => true,
            } by {
                assert(rest[i] == its[i + 1]);
            }
            assert(items_tight(rest));
        }
        match its[0] {
            ItemV::Body(fl) => {
                let p2 = seq![fl] + pre;
                assert(p2.drop_first() =~= pre);
                assert(body_text(p2) == body_line_text(fl) + body_text(pre));
                assert(item_text(its[0]) == body_line_text(fl));
                assert(items_text(its) =~= body_text(p2) + blocks_text(secs));
                if items_tight(its) {
                    assert forall|i: int| 0 <= i < p2.len() && !starts_entry(#[trigger] p2[i].raw) implies p2[i].blanks == 0 by {
                        if i == 0 {
                            assert(its[0] == ItemV::Body(fl));
                        } else {
                            assert(p2[i] == pre[i - 1]);
                        }
                    }
                }
            },
            ItemV::Heading(h) => {
                let b = SecBlockV { head: h, body: pre };
                let s2 = seq![b] + secs;
                assert(s2.drop_first() =~= secs);
                assert(blocks_text(s2) == block_text(b) + blocks_text(secs));
                assert(body_text(seq![]) =~= seq![]);
                assert(items_text(its) =~= body_text(seq![]) + blocks_text(s2));
                if items_tight(its) {
                    assert(body_tight(seq![]));
                    assert forall|j: int| 0 <= j < s2.len() implies body_tight(#[trigger] s2[j].body) by {
                        if j > 0 {
                            assert(s2[j] == secs[j - 1]);
                        }
                    }
                }
            },
        }
    }
}

} // verus!

verus! {

pub open spec fn entry_text(e: EntryV) -> Seq<char> {
    newlines(e.blanks) + join(e.lines, newline()) + seq!['\n']
}

pub open spec fn entries_text(es: Seq<EntryV>) -> Seq<char>
    decreases es.len(),
{
    if es.len() == 0 { seq![] } else { entry_text(es[0]) + entries_text(es.drop_first()) }
}

proof fn lemma_entries_text_push(es: Seq<EntryV>, e: EntryV)
    ensures
        entries_text(es.push(e)) == entries_text(es) + entry_text(e),
    decreases es.len(),
{
    if es.len() == 0 {
        assert(es.push(e).drop_first() =~= seq![]);
        assert(es.push(e)[0] == e);
        assert(entries_text(es.push(e).drop_first()) == Seq::<char>::empty());
        assert(entries_text(es) == Seq::<char>::empty());
        assert(entry_text(e) + Seq::<char>::empty() =~= Seq::<char>::empty() + entry_text(e));
    } else {
        assert(es.push(e).drop_first() =~= es.drop_first().push(e));
        assert(es.push(e)[0] == es[0]);
        lemma_entries_text_push(es.drop_first(), e);
        assert(entry_text(es[0]) + (entries_text(es.drop_first()) + entry_text(e)) =~= entry_text(es[0])
            + entries_text(es.drop_first()) + entry_text(e));
    }
}

/// Step E: grouping tight body lines into entries keeps the text.
proof fn lemma_entries_text(fls: Seq<FactLineV>, acc: Seq<EntryV>)
    requires
        body_tight(fls),
        forall|j: int| 0 <= j < acc.len() ==> (#[trigger] acc[j]).lines.len() >= 1,
        entries_from(fls, acc) is Ok,
    ensures
        entries_text(entries_from(fls, acc)->Ok_0) == entries_text(acc) + body_text(fls),
        forall|j: int| 0 <= j < (entries_from(fls, acc)->Ok_0).len()
            ==> (#[trigger] (entries_from(fls, acc)->Ok_0)[j]).lines.len() >= 1,
    decreases fls.len(),
{
    if fls.len() == 0 {
        assert(entries_text(acc) + seq![] =~= entries_text(acc));
    } else {
        let rest = fls.drop_first();
        assert forall|i: int| 0 <= i < rest.len() && !starts_entry(#[trigger] rest[i].raw) implies rest[i].blanks == 0 by {
            assert(rest[i] == fls[i + 1]);
        }
        let l = fls[0].raw;
        if starts_entry(l) {
            let e = EntryV { lines: seq![l], blanks: fls[0].blanks };
            let acc2 = acc.push(e);
            assert forall|j: int| 0 <= j < acc2.len() implies (#[trigger] acc2[j]).lines.len() >= 1 by {
                if j < acc.len() {
                    assert(acc2[j] == acc[j]);
                }
            }
            lemma_entries_text(rest, acc2);
            lemma_entries_text_push(acc, e);
            assert(join(seq![l], newline()) == l);
            assert(entry_text(e) == body_line_text(fls[0]));
            assert(entries_text(acc2) + body_text(rest) =~= entries_text(acc) + (body_line_text(fls[0]) + body_text(rest)));
        } else {
            let last = acc.last();
            let last2 = EntryV { lines: last.lines.push(l), blanks: last.blanks };
            let acc2 = acc.update(acc.len() - 1, last2);
            assert forall|j: int| 0 <= j < acc2.len() implies (#[trigger] acc2[j]).lines.len() >= 1 by {
                if j < acc.len() - 1 {
                    assert(acc2[j] == acc[j]);
                }
            }
            lemma_entries_text(rest, acc2);
            assert(acc2 =~= acc.drop_last().push(last2));
            assert(acc =~= acc.drop_last().push(last));
            lemma_entries_text_push(acc.drop_last(), last2);
            lemma_entries_text_push(acc.drop_last(), last);
            assert(last.lines.push(l).drop_last() =~= last.lines);
            assert(join(last.lines.push(l), newline()) == join(last.lines, newline()) + newline() + l);
            assert(fls[0].blanks == 0);
            assert(body_line_text(fls[0]) =~= l + seq!['\n']);
            assert(entry_text(last2) =~= entry_text(last) + body_line_text(fls[0]));
            assert(entries_text(acc2) + body_text(rest) =~= entries_text(acc) + (body_line_text(fls[0]) + body_text(rest)));
        }
    }
}

/// Facts of entries have the entries' text.
proof fn lemma_entries_facts_text(es: Seq<EntryV>)
    requires
        forall|j: int| 0 <= j < es.len() ==> (#[trigger] es[j]).lines.len() >= 1,
        entries_facts(es) is Ok,
    ensures
        facts_text(entries_facts(es)->Ok_0) == entries_text(es),
    decreases es.len(),
{
    if es.len() > 0 {
        let rest = es.drop_first();
        assert forall|j: int| 0 <= j < rest.len() implies (#[trigger] rest[j]).lines.len() >= 1 by {
            assert(rest[j] == es[j + 1]);
        }
        lemma_entries_facts_text(rest);
        let e = es[0];
        let f = entry_fact(e)->Ok_0;
        if e.lines.len() == 1 {
            assert(join(e.lines, newline()) == e.lines[0]);
        }
        assert(fact_text(f) == entry_text(e));
        let fs = entries_facts(es)->Ok_0;
        assert(fs.drop_first() =~= entries_facts(rest)->Ok_0);
    }
}

/// Step E for a whole body.
proof fn lemma_body_facts_text(fls: Seq<FactLineV>)
    requires
        body_tight(fls),
        body_facts(fls) is Ok,
    ensures
        facts_text(body_facts(fls)->Ok_0) == body_text(fls),
{
    let acc: Seq<EntryV> = seq![];
    lemma_entries_text(fls, acc);
    let es = entries_from(fls, acc)->Ok_0;
    lemma_entries_facts_text(es);
    assert(entries_text(acc) + body_text(fls) =~= body_text(fls));
}

} // verus!

verus! {

/// Sections' own texts in order, ignoring their children.
pub open spec fn flat_text(ss: Seq<SectionV>) -> Seq<char>
    decreases ss.len(),
{
    if ss.len() == 0 { seq![] } else { heading_text(ss[0]) + flat_text(ss.drop_first()) }
}

proof fn lemma_flat_text_append(a: Seq<SectionV>, b: Seq<SectionV>)
    ensures
        flat_text(a + b) == flat_text(a) + flat_text(b),
    decreases a.len(),
{
    if a.len() == 0 {
        assert(a + b =~= b);
        assert(seq![] + flat_text(b) =~= flat_text(b));
    } else {
        assert((a + b).drop_first() =~= a.drop_first() + b);
        assert((a + b)[0] == a[0]);
        lemma_flat_text_append(a.drop_first(), b);
        assert(heading_text(a[0]) + (flat_text(a.drop_first()) + flat_text(b)) =~= heading_text(a[0])
            + flat_text(a.drop_first()) + flat_text(b));
    }
}

/// Step G: the tree of sections is written as the flat sections were.
proof fn lemma_forest_text(f: Seq<SectionV>)
    ensures
        sections_text(forest(f)) == flat_text(f),
    decreases f.len(),
{
    if f.len() > 0 {
        let n = subtree_len(f.drop_first(), f[0].depth);
        lemma_subtree_le(f.drop_first(), f[0].depth);
        let mid = f.subrange(1, n as int + 1);
        let rest = f.skip(n as int + 1);
        lemma_forest_text(mid);
        lemma_forest_text(rest);
        let x = SectionV { children: forest(mid), ..f[0] };
        let t = forest(f);
        assert(t == seq![x] + forest(rest));
        assert(t[0] == x);
        assert(t.drop_first() =~= forest(rest));
        assert(heading_text(x) == heading_text(f[0]));
        assert(section_text(x) == heading_text(f[0]) + flat_text(mid));
        assert(f.drop_first() =~= mid + rest);
        lemma_flat_text_append(mid, rest);
        assert(sections_text(t) =~= heading_text(f[0]) + flat_text(f.drop_first()));
    }
}

proof fn lemma_subtree_le(s: Seq<SectionV>, d: nat)
    ensures
        subtree_len(s, d) <= s.len(),
    decreases s.len(),
{
    if s.len() > 0 && s[0].depth > d {
        lemma_subtree_le(s.drop_first(), d);
    }
}

/// Step F: sections made from tight blocks have the blocks' text.
proof fn lemma_block_sections_text(bs: Seq<SecBlockV>)
    requires
        forall|j: int| 0 <= j < bs.len() ==> body_tight(#[trigger] bs[j].body),
        block_sections(bs) is Ok,
    ensures
        flat_text(block_sections(bs)->Ok_0) == blocks_text(bs),
    decreases bs.len(),
{
    if bs.len() > 0 {
        let rest = bs.drop_first();
        assert forall|j: int| 0 <= j < rest.len() implies body_tight(#[trigger] rest[j].body) by {
            assert(rest[j] == bs[j + 1]);
        }
        lemma_block_sections_text(rest);
        assert(body_tight(bs[0].body));
        lemma_body_facts_text(bs[0].body);
        let ss = block_sections(bs)->Ok_0;
        assert(ss.drop_first() =~= block_sections(rest)->Ok_0);
        assert(heading_text(ss[0]) =~= block_text(bs[0]));
    }
}

/// Writing what was parsed from a file in canonical form gives that file back,
/// character for character.
pub proof fn law_parse_write_roundtrip(content: Seq<char>, filename: Seq<char>)
    requires
        is_canonical(content),
        parse_spec(content, filename) is Ok,
    ensures
        sheet_text(parse_spec(content, filename)->Ok_0) == content,
{
    let c = strip_bom(content);
    assert(c == content);
    let ls = lines(c);
    lemma_lines_text(c);
    lemma_items_text(ls, 0);
    assert(newlines(0) + lines_text(ls) =~= lines_text(ls));
    if ls.len() > 0 && is_continuation(ls[0]) {
    }
    lemma_items_tight(ls, 0);
    let its = items(ls, 0);
    lemma_group_text(its);
    let (pre, blocks) = group(its);
    lemma_body_facts_text(pre);
    lemma_block_sections_text(blocks);
    let flat = block_sections(blocks)->Ok_0;
    lemma_forest_text(flat);
    let sh = parse_spec(content, filename)->Ok_0;
    assert(facts_text(sh.preamble) + sections_text(sh.sections) == content);
}

} // verus!

verus! {

// ---------------------------------------------------------------------------
// Single facts
// ---------------------------------------------------------------------------

/// Whether a plain label would be read back as a mapping when written as `- {label}`.
pub open spec fn ambiguous_as_plain(label: Seq<char>) -> bool {
    starts_with_known_key(label) || (label.len() > 0 && label[0] == '{' && label.last() == '}')
}

/// `[a, b]`: the tags in brackets, separated by a comma and a space.
pub open spec fn tag_list(tags: Seq<Seq<char>>) -> Seq<char> {
    seq!['['] + join(tags, seq![',', ' ']) + seq![']']
}

/// `\n  tags: [a, b]` when there are tags, nothing otherwise.
pub open spec fn tags_line(tags: Seq<Seq<char>>) -> Seq<char> {
    if tags.len() == 0 {
        seq![]
    } else {
        seq!['\n', ' ', ' '] + key_colon_space(key_tags()) + tag_list(tags)
    }
}

/// ` @a @b`: each tag after a space and an `@`.
pub open spec fn inline_tag_suffix(tags: Seq<Seq<char>>) -> Seq<char>
    decreases tags.len(),
{
    if tags.len() == 0 {
        seq![]
    } else {
        inline_tag_suffix(tags.drop_last()) + seq![' ', '@'] + tags.last()
    }
}

/// The raw text of a fact written on its own.
pub open spec fn raw_of(f: FactV) -> Seq<char> {
    let head = dash_space() + key_colon_space(key_label()) + f.label;
    if f.is_plain {
        if ambiguous_as_plain(f.label) {
            head + tags_line(f.tags)
        } else {
            dash_space() + f.label + inline_tag_suffix(f.tags)
        }
    } else {
        head + (match f.explicit_id {
            Some(id) => seq!['\n', ' ', ' '] + key_colon_space(key_id()) + id,
            None => seq![],
        }) + (match f.command {
            Some(c) => seq!['\n', ' ', ' '] + key_colon_space(key_command()) + c,
            None => seq![],
        }) + tags_line(f.tags)
    }
}

/// Check if a plain fact label would be misinterpreted as a mapping key
/// when written as `- {label}`.
pub fn is_ambiguous_as_plain(label: &str) -> (b: bool)
    ensures
        b == ambiguous_as_plain(label@),
{
    ambiguous_chars(chars_of(label).as_slice())
}

/// Whether a plain label, as characters, would be read back as a mapping.
fn ambiguous_chars(label: &[char]) -> (b: bool)
    ensures
        b == ambiguous_as_plain(label@),
{
    if has_known_key_prefix(label) {
        return true;
    }
    let n = label.len();
    n > 0 && label[0] == '{' && label[n - 1] == '}'
}

/// The tags joined as `[a, b]`.
fn push_tag_list(out: &mut Vec<char>, tags: &Vec<String>)
    ensures
        final(out)@ =~= old(out)@ + tag_list(strings_view(tags@)),
{
    let mut parts: Vec<Vec<char>> = Vec::new();
    let mut i: usize = 0;
    while i < tags.len()
        invariant
            i <= tags@.len(),
            vv(parts@) =~= strings_view(tags@).take(i as int),
        decreases tags.len() - i,
    {
        let ghost old_p = vv(parts@);
        parts.push(chars_of_string(&tags[i]));
        proof {
            assert(vv(parts@) =~= old_p.push(tags@[i as int]@));
            assert(strings_view(tags@).take(i + 1) =~= strings_view(tags@).take(i as int).push(tags@[i as int]@));
        }
        i += 1;
    }
    assert(strings_view(tags@).take(i as int) =~= strings_view(tags@));
    let sep = vec![',', ' '];
    let joined = join_with(&parts, sep.as_slice());
    out.push('[');
    out.extend_from_slice(joined.as_slice());
    out.push(']');
}

/// Appends `\n  tags: [...]` when there are tags.
fn push_tags_line(out: &mut Vec<char>, tags: &Vec<String>)
    ensures
        final(out)@ =~= old(out)@ + tags_line(strings_view(tags@)),
{
    if tags.len() > 0 {
        out.push('\n');
        out.push(' ');
        out.push(' ');
        out.extend_from_slice(kw_tags_cs().as_slice());
        push_tag_list(out, tags);
    }
}

/// Serialize a single new fact to its raw text representation.
/// This is used when creating facts via the `add` command.
pub fn fact_to_raw(fact: &Fact) -> (s: String)
    ensures
        s@ == raw_of(fact@),
{
    let label = chars_of_string(&fact.label);
    let mut out: Vec<char> = Vec::new();
    if fact.is_plain {
        // If the label would be misinterpreted as a mapping key on re-parse,
        // write it as a mapping fact with an explicit `label:` key instead.
        if ambiguous_chars(label.as_slice()) {
            out.extend_from_slice(kw_dash_space().as_slice());
            out.extend_from_slice(kw_label_cs().as_slice());
            out.extend_from_slice(label.as_slice());
            push_tags_line(&mut out, &fact.tags);
            return string_of(out.as_slice());
        }
        // Plain string fact; tags go inline.
        out.extend_from_slice(kw_dash_space().as_slice());
        out.extend_from_slice(label.as_slice());
        let ghost start = out@;
        let mut i: usize = 0;
        while i < fact.tags.len()
            invariant
                i <= fact.tags@.len(),
                out@ =~= start + inline_tag_suffix(strings_view(fact.tags@).take(i as int)),
            decreases fact.tags.len() - i,
        {
            out.push(' ');
            out.push('@');
            let t = chars_of_string(&fact.tags[i]);
            out.extend_from_slice(t.as_slice());
            proof {
                let tv = strings_view(fact.tags@);
                assert(tv.take(i + 1).drop_last() =~= tv.take(i as int));
                assert(tv.take(i + 1).last() == t@);
            }
            i += 1;
        }
        assert(strings_view(fact.tags@).take(i as int) =~= strings_view(fact.tags@));
        string_of(out.as_slice())
    } else {
        // Mapping fact
        out.extend_from_slice(kw_dash_space().as_slice());
        out.extend_from_slice(kw_label_cs().as_slice());
        out.extend_from_slice(label.as_slice());
        if let Some(id) = &fact.explicit_id {
            out.push('\n');
            out.push(' ');
            out.push(' ');
            out.extend_from_slice(kw_id_cs().as_slice());
            out.extend_from_slice(chars_of_string(id).as_slice());
        }
        if let Some(cmd) = &fact.command {
            out.push('\n');
            out.push(' ');
            out.push(' ');
            out.extend_from_slice(kw_command_cs().as_slice());
            out.extend_from_slice(chars_of_string(cmd).as_slice());
        }
        push_tags_line(&mut out, &fact.tags);
        string_of(out.as_slice())
    }
}

} // verus!

verus! {

// ---------------------------------------------------------------------------
// Read-back: a written mapping fact parses to the same fields
// ---------------------------------------------------------------------------

/// A value that can stand on one line of a mapping: no line break in it.
pub open spec fn one_line(s: Seq<char>) -> bool {
    forall|i: int| 0 <= i < s.len() ==> #[trigger] s[i] != '\n' && s[i] != '\r'
}

proof fn lemma_lines_of_text(ls: Seq<Seq<char>>)
    requires
        forall|i: int| 0 <= i < ls.len() ==> one_line(#[trigger] ls[i]),
    ensures
        lines(lines_text(ls)) == ls,
    decreases ls.len(),
{
    if ls.len() > 0 {
        let l = ls[0];
        let rest = ls.drop_first();
        let c = lines_text(ls);
        assert(one_line(l));
        assert forall|i: int| 0 <= i < rest.len() implies one_line(#[trigger] rest[i]) by {
            assert(rest[i] == ls[i + 1]);
        }
        lemma_lines_of_text(rest);
        assert(c =~= l + seq!['\n'] + lines_text(rest));
        lemma_find_char_props(c, '\n');
        assert(c[l.len() as int] == '\n');
        let k = find_char(c, '\n')->Some_0;
        if k < l.len() {
            assert(c[k as int] == l[k as int]);
        }
        assert(k == l.len());
        assert(c.take(k as int) =~= l);
        if l.len() > 0 {
            assert(l.last() == l[l.len() - 1]);
        }
        assert(strip_cr(l) == l);
        assert(c.skip(k as int + 1) =~= lines_text(rest));
    }
}

proof fn lemma_lines_text_push(ls: Seq<Seq<char>>, l: Seq<char>)
    ensures
        lines_text(ls.push(l)) == lines_text(ls) + l + seq!['\n'],
    decreases ls.len(),
{
    if ls.len() == 0 {
        assert(ls.push(l).drop_first() =~= Seq::<Seq<char>>::empty());
        assert(ls.push(l)[0] == l);
        assert(lines_text(Seq::<Seq<char>>::empty()) == Seq::<char>::empty());
        assert(lines_text(ls) == Seq::<char>::empty());
        assert(lines_text(ls.push(l)) =~= l + seq!['\n']);
    } else {
        lemma_lines_text_push(ls.drop_first(), l);
        assert(ls.push(l).drop_first() =~= ls.drop_first().push(l));
        assert(lines_text(ls.push(l)) =~= lines_text(ls) + l + seq!['\n']);
    }
}

} // verus!

verus! {

/// The line of a mapping fact that holds `key` and its value, indented.
pub open spec fn key_line(key: Seq<char>, v: Seq<char>) -> Seq<char> {
    crate::parser::two_spaces() + key_colon_space(key) + v
}

/// The lines of a written mapping fact: the label line, then the id, command
/// and tags lines that it has.
pub open spec fn mapping_lines(f: FactV) -> Seq<Seq<char>> {
    let a = seq![dash_space() + key_colon_space(key_label()) + f.label];
    let b = match f.explicit_id {
        Some(i) => a.push(key_line(key_id(), i)),
        None => a,
    };
    let c = match f.command {
        Some(x) => b.push(key_line(key_command(), x)),
        None => b,
    };
    if f.tags.len() == 0 { c } else { c.push(key_line(key_tags(), tag_list(f.tags))) }
}

proof fn lemma_mapping_text(f: FactV)
    requires
        !f.is_plain,
    ensures
        raw_of(f) + seq!['\n'] == lines_text(mapping_lines(f)),
{
    let head = dash_space() + key_colon_space(key_label()) + f.label;
    let a = seq![head];
    assert(a.drop_first() =~= Seq::<Seq<char>>::empty());
    assert(lines_text(Seq::<Seq<char>>::empty()) == Seq::<char>::empty());
    assert(lines_text(a) == a[0] + seq!['\n'] + lines_text(a.drop_first()));
    assert(lines_text(a) =~= head + seq!['\n']);
    let idp: Seq<char> = match f.explicit_id {
        Some(id) => seq!['\n', ' ', ' '] + key_colon_space(key_id()) + id,
        None => seq![],
    };
    let cp: Seq<char> = match f.command {
        Some(c) => seq!['\n', ' ', ' '] + key_colon_space(key_command()) + c,
        None => seq![],
    };
    let b = match f.explicit_id {
        Some(i) => a.push(key_line(key_id(), i)),
        None => a,
    };
    match f.explicit_id {
        Some(i) => {
            lemma_lines_text_push(a, key_line(key_id(), i));
            assert(lines_text(b) =~= head + idp + seq!['\n']);
        },
        None => {
            assert(lines_text(b) =~= head + idp + seq!['\n']);
        },
    }
    let c = match f.command {
        Some(x) => b.push(key_line(key_command(), x)),
        None => b,
    };
    match f.command {
        Some(x) => {
            lemma_lines_text_push(b, key_line(key_command(), x));
            assert(lines_text(c) =~= head + idp + cp + seq!['\n']);
        },
        None => {
            assert(lines_text(c) =~= head + idp + cp + seq!['\n']);
        },
    }
    if f.tags.len() > 0 {
        lemma_lines_text_push(c, key_line(key_tags(), tag_list(f.tags)));
        assert(lines_text(mapping_lines(f)) =~= head + idp + cp + tags_line(f.tags) + seq!['\n']);
    } else {
        assert(lines_text(mapping_lines(f)) =~= head + idp + cp + tags_line(f.tags) + seq!['\n']);
    }
    assert(raw_of(f) =~= head + idp + cp + tags_line(f.tags));
}

} // verus!

verus! {

/// A line that is neither blank nor a heading.
pub open spec fn body_line(l: Seq<char>) -> bool {
    !all_ws(l) && heading(l) is None
}

proof fn lemma_items_body(ls: Seq<Seq<char>>)
    requires
        forall|i: int| 0 <= i < ls.len() ==> body_line(#[trigger] ls[i]),
    ensures
        items(ls, 0) == ls.map_values(|l: Seq<char>| ItemV::Body(FactLineV { raw: l, blanks: 0 })),
        group(items(ls, 0)) == (ls.map_values(|l: Seq<char>| FactLineV { raw: l, blanks: 0 }), Seq::<SecBlockV>::empty()),
    decreases ls.len(),
{
    if ls.len() > 0 {
        let rest = ls.drop_first();
        assert forall|i: int| 0 <= i < rest.len() implies body_line(#[trigger] rest[i]) by {
            assert(rest[i] == ls[i + 1]);
        }
        lemma_items_body(rest);
        assert(body_line(ls[0]));
        assert(items(ls, 0) =~= ls.map_values(|l: Seq<char>| ItemV::Body(FactLineV { raw: l, blanks: 0 })));
        let its = items(ls, 0);
        assert(its.drop_first() =~= items(rest, 0));
        assert(group(items(ls, 0)).0 =~= ls.map_values(|l: Seq<char>| FactLineV { raw: l, blanks: 0 }));
    }
}

/// A continuation line: indented by two spaces, so it does not start a fact.
pub open spec fn continues(l: Seq<char>) -> bool {
    crate::text::starts_with(l, crate::parser::two_spaces()) && !starts_entry(l)
}

proof fn lemma_entries_continue(fls: Seq<FactLineV>, acc: Seq<EntryV>)
    requires
        acc.len() > 0,
        forall|i: int| 0 <= i < fls.len() ==> continues(#[trigger] fls[i].raw),
    ensures
        entries_from(fls, acc) == Ok::<Seq<EntryV>, Seq<char>>(acc.update(
            acc.len() - 1,
            EntryV { lines: acc.last().lines + fls.map_values(|fl: FactLineV| fl.raw), blanks: acc.last().blanks },
        )),
    decreases fls.len(),
{
    if fls.len() == 0 {
        assert(acc.last().lines + fls.map_values(|fl: FactLineV| fl.raw) =~= acc.last().lines);
        assert(acc.update(acc.len() - 1, EntryV { lines: acc.last().lines, blanks: acc.last().blanks }) =~= acc);
    } else {
        let rest = fls.drop_first();
        assert forall|i: int| 0 <= i < rest.len() implies continues(#[trigger] rest[i].raw) by {
            assert(rest[i] == fls[i + 1]);
        }
        assert(continues(fls[0].raw));
        let last = acc.last();
        let acc2 = acc.update(acc.len() - 1, EntryV { lines: last.lines.push(fls[0].raw), blanks: last.blanks });
        lemma_entries_continue(rest, acc2);
        assert(acc2.last() == EntryV { lines: last.lines.push(fls[0].raw), blanks: last.blanks });
        assert(last.lines.push(fls[0].raw) + rest.map_values(|fl: FactLineV| fl.raw) =~= last.lines + fls.map_values(
            |fl: FactLineV| fl.raw,
        ));
        assert(acc2.update(
            acc2.len() - 1,
            EntryV { lines: acc2.last().lines + rest.map_values(|fl: FactLineV| fl.raw), blanks: acc2.last().blanks },
        ) =~= acc.update(
            acc.len() - 1,
            EntryV { lines: last.lines + fls.map_values(|fl: FactLineV| fl.raw), blanks: last.blanks },
        ));
    }
}

} // verus!

verus! {

proof fn lemma_head_line(label: Seq<char>)
    requires
        one_line(label),
    ensures
        ({
            let l = dash_space() + key_colon_space(key_label()) + label;
            &&& one_line(l)
            &&& body_line(l)
            &&& starts_entry(l)
            &&& crate::parser::strip_dash(l) == key_colon_space(key_label()) + label
        }),
{
    let l = dash_space() + key_colon_space(key_label()) + label;
    let p = dash_space() + key_colon_space(key_label());
    assert(p =~= seq!['-', ' ', 'l', 'a', 'b', 'e', 'l', ':', ' ']);
    assert forall|i: int| 0 <= i < l.len() implies #[trigger] l[i] != '\n' && l[i] != '\r' by {
        if i >= p.len() {
            assert(l[i] == label[i - p.len()]);
        }
    }
    assert(l[0] == '-');
    assert(!crate::text::is_ws('-'));
    assert(!all_ws(l));
    assert(crate::text::trim_start(l) == l);
    assert(heading(l) is None);
    assert(l.subrange(0, 2) =~= dash_space());
    assert(l.skip(2) =~= key_colon_space(key_label()) + label);
}

proof fn lemma_key_line(key: Seq<char>, v: Seq<char>)
    requires
        key.len() > 0,
        key[0] != '#' && !crate::text::is_ws(key[0]),
        one_line(key),
        one_line(v),
    ensures
        ({
            let l = key_line(key, v);
            &&& one_line(l)
            &&& body_line(l)
            &&& continues(l)
            &&& crate::text::trim_start(l) == key_colon_space(key) + v
        }),
{
    let l = key_line(key, v);
    let k = key_colon_space(key);
    assert(l =~= seq![' ', ' '] + (k + v));
    assert forall|i: int| 0 <= i < l.len() implies #[trigger] l[i] != '\n' && l[i] != '\r' by {
        if 2 <= i < 2 + key.len() {
            assert(l[i] == key[i - 2]);
        } else if i >= 2 + k.len() {
            assert(l[i] == v[i - 2 - k.len()]);
        }
    }
    assert(l[2] == key[0]);
    assert(!all_ws(l));
    assert(crate::text::is_ws(' '));
    assert(l.drop_first().drop_first() =~= k + v);
    assert(crate::text::trim_start(l) == crate::text::trim_start(l.drop_first()));
    assert(crate::text::trim_start(l.drop_first()) == crate::text::trim_start(l.drop_first().drop_first()));
    assert((k + v)[0] == key[0]);
    assert(crate::text::trim_start(k + v) == k + v);
    assert(heading(l) is None);
    assert(l.subrange(0, 2) =~= crate::parser::two_spaces());
    assert(l[0] == ' ');
    if crate::text::starts_with(l, dash_space()) {
        assert(l.subrange(0, 2)[0] == '-');
    }
    assert(l != crate::parser::dash());
}

} // verus!

verus! {

proof fn lemma_not_prefix(s: Seq<char>, p: Seq<char>)
    requires
        s.len() > 0,
        p.len() > 0,
        s[0] != p[0],
    ensures
        !crate::text::starts_with(s, p),
{
    if crate::text::starts_with(s, p) {
        assert(s.subrange(0, p.len() as int)[0] == p[0]);
    }
}

proof fn lemma_prefix(p: Seq<char>, v: Seq<char>)
    ensures
        crate::text::starts_with(p + v, p),
        (p + v).skip(p.len() as int) == v,
{
    assert((p + v).subrange(0, p.len() as int) =~= p);
    assert((p + v).skip(p.len() as int) =~= v);
}

proof fn lemma_step_label(st: crate::parser::MapState, v: Seq<char>)
    ensures
        crate::parser::kv_step(st, key_colon_space(key_label()) + v) == Ok::<crate::parser::MapState, crate::parser::FactErrV>(
            crate::parser::MapState {
                label: Some(crate::parser::inline_label(v)),
                tags: st.tags + crate::parser::inline_tags(v),
                ..st
            },
        ),
{
    let p = key_colon_space(key_label());
    assert(p.len() == 7);
    lemma_prefix(p, v);
}

proof fn lemma_step_id(st: crate::parser::MapState, v: Seq<char>)
    ensures
        crate::parser::kv_step(st, key_colon_space(key_id()) + v) == Ok::<crate::parser::MapState, crate::parser::FactErrV>(
            crate::parser::MapState { id: Some(v), ..st },
        ),
{
    let p = key_colon_space(key_id());
    let kv = p + v;
    assert(p.len() == 4);
    assert(kv[0] == 'i');
    lemma_not_prefix(kv, key_colon_space(key_label()));
    lemma_not_prefix(kv, crate::parser::key_colon(key_label()));
    lemma_not_prefix(kv, key_colon_space(key_command()));
    lemma_prefix(p, v);
}

proof fn lemma_step_command(st: crate::parser::MapState, v: Seq<char>)
    ensures
        crate::parser::kv_step(st, key_colon_space(key_command()) + v) == Ok::<crate::parser::MapState, crate::parser::FactErrV>(
            crate::parser::MapState { command: Some(v), ..st },
        ),
{
    let p = key_colon_space(key_command());
    let kv = p + v;
    assert(p.len() == 9);
    assert(kv[0] == 'c');
    lemma_not_prefix(kv, key_colon_space(key_label()));
    lemma_not_prefix(kv, crate::parser::key_colon(key_label()));
    lemma_prefix(p, v);
}

proof fn lemma_step_tags(st: crate::parser::MapState, v: Seq<char>)
    ensures
        crate::parser::kv_step(st, key_colon_space(key_tags()) + v) == Ok::<crate::parser::MapState, crate::parser::FactErrV>(
            crate::parser::MapState { tags: st.tags + crate::parser::bracket_tags(v), ..st },
        ),
{
    let p = key_colon_space(key_tags());
    let kv = p + v;
    assert(p.len() == 6);
    assert(kv[0] == 't');
    lemma_not_prefix(kv, key_colon_space(key_label()));
    lemma_not_prefix(kv, crate::parser::key_colon(key_label()));
    lemma_not_prefix(kv, key_colon_space(key_command()));
    lemma_not_prefix(kv, key_colon_space(key_id()));
    lemma_prefix(p, v);
}

proof fn lemma_fold_push(st: crate::parser::MapState, kvs: Seq<Seq<char>>, k: Seq<char>)
    ensures
        crate::parser::kv_fold(st, kvs.push(k)) == match crate::parser::kv_fold(st, kvs) {
            Ok(s2) => crate::parser::kv_step(s2, k),
            Err(e) => Err(e),
        },
    decreases kvs.len(),
{
    if kvs.len() == 0 {
        assert(kvs.push(k).drop_first() =~= Seq::<Seq<char>>::empty());
        assert(kvs.push(k)[0] == k);
        match crate::parser::kv_step(st, k) {
            Ok(s2) => {
                assert(crate::parser::kv_fold(s2, Seq::<Seq<char>>::empty()) == Ok::<crate::parser::MapState, crate::parser::FactErrV>(s2));
            },
            Err(e) => {},
        }
    } else {
        assert(kvs.push(k).drop_first() =~= kvs.drop_first().push(k));
        assert(kvs.push(k)[0] == kvs[0]);
        match crate::parser::kv_step(st, kvs[0]) {
            Ok(s1) => {
                lemma_fold_push(s1, kvs.drop_first(), k);
            },
            Err(e) => {},
        }
    }
}

proof fn lemma_kv_lines_push(ls: Seq<Seq<char>>, x: Seq<char>)
    requires
        ls.len() > 0,
    ensures
        crate::parser::kv_lines(ls.push(x)) == crate::parser::kv_lines(ls).push(crate::text::trim_start(x)),
{
    assert(ls.push(x)[0] == ls[0]);
    assert(ls.push(x).drop_first() =~= ls.drop_first().push(x));
    assert(crate::parser::kv_lines(ls.push(x)) =~= crate::parser::kv_lines(ls).push(crate::text::trim_start(x)));
}

} // verus!

verus! {

/// The `key: value` lines of a written mapping fact, as the parser reads them.
pub open spec fn mapping_kvs(f: FactV) -> Seq<Seq<char>> {
    let a = seq![key_colon_space(key_label()) + f.label];
    let b = match f.explicit_id {
        Some(i) => a.push(key_colon_space(key_id()) + i),
        None => a,
    };
    let c = match f.command {
        Some(x) => b.push(key_colon_space(key_command()) + x),
        None => b,
    };
    if f.tags.len() == 0 { c } else { c.push(key_colon_space(key_tags()) + tag_list(f.tags)) }
}

/// Lines that the parser reads as one fact entry.
pub open spec fn entry_lines(ls: Seq<Seq<char>>) -> bool {
    &&& ls.len() > 0
    &&& starts_entry(ls[0])
    &&& forall|i: int| 0 <= i < ls.len() ==> one_line(#[trigger] ls[i]) && body_line(ls[i])
    &&& forall|i: int| 1 <= i < ls.len() ==> continues(#[trigger] ls[i])
}

proof fn lemma_entry_lines_push(ls: Seq<Seq<char>>, x: Seq<char>)
    requires
        entry_lines(ls),
        one_line(x),
        body_line(x),
        continues(x),
    ensures
        entry_lines(ls.push(x)),
{
    let l2 = ls.push(x);
    assert(l2[0] == ls[0]);
    assert forall|i: int| 0 <= i < l2.len() implies one_line(#[trigger] l2[i]) && body_line(l2[i]) by {
        if i < ls.len() {
            assert(l2[i] == ls[i]);
        }
    }
    assert forall|i: int| 1 <= i < l2.len() implies continues(#[trigger] l2[i]) by {
        if i < ls.len() {
            assert(l2[i] == ls[i]);
        }
    }
}

/// A fact that the writer renders as a mapping and that reads back whole: its
/// label, ID, command and tags stand on one line each; its label holds no
/// `@` word and no run of spaces (it is what the parser makes of it); its
/// tags are non-empty, have no white space and no comma, and none repeats.
pub open spec fn readable_mapping(f: FactV) -> bool {
    &&& !f.is_plain
    &&& one_line(f.label)
    &&& crate::parser::inline_label(f.label) == f.label
    &&& crate::parser::inline_tags(f.label) == Seq::<Seq<char>>::empty()
    &&& (f.explicit_id matches Some(i) ==> one_line(i))
    &&& (f.command matches Some(c) ==> one_line(c))
    &&& forall|i: int| 0 <= i < f.tags.len() ==> plain_tag(#[trigger] f.tags[i])
    &&& forall|i: int, j: int| 0 <= i < j < f.tags.len() ==> #[trigger] f.tags[i] != #[trigger] f.tags[j]
}

/// A tag that can stand in a `[a, b]` list: non-empty, no white space, no comma.
pub open spec fn plain_tag(t: Seq<char>) -> bool {
    t.len() > 0 && forall|i: int| 0 <= i < t.len() ==> !crate::text::is_ws(#[trigger] t[i]) && t[i] != ','
}

proof fn lemma_mapping_lines(f: FactV)
    requires
        readable_mapping(f),
    ensures
        entry_lines(mapping_lines(f)),
        mapping_lines(f)[0] == dash_space() + key_colon_space(key_label()) + f.label,
        crate::parser::kv_lines(mapping_lines(f)) == mapping_kvs(f),
{
    lemma_head_line(f.label);
    let a = seq![dash_space() + key_colon_space(key_label()) + f.label];
    let ka = seq![key_colon_space(key_label()) + f.label];
    assert(a.drop_first() =~= Seq::<Seq<char>>::empty());
    assert(crate::parser::kv_lines(a) =~= ka);
    assert(entry_lines(a));
    let b = match f.explicit_id {
        Some(i) => a.push(key_line(key_id(), i)),
        None => a,
    };
    let kb = match f.explicit_id {
        Some(i) => ka.push(key_colon_space(key_id()) + i),
        None => ka,
    };
    match f.explicit_id {
        Some(i) => {
            lemma_key_line(key_id(), i);
            lemma_entry_lines_push(a, key_line(key_id(), i));
            lemma_kv_lines_push(a, key_line(key_id(), i));
        },
        None => {},
    }
    let c = match f.command {
        Some(x) => b.push(key_line(key_command(), x)),
        None => b,
    };
    let kc = match f.command {
        Some(x) => kb.push(key_colon_space(key_command()) + x),
        None => kb,
    };
    match f.command {
        Some(x) => {
            lemma_key_line(key_command(), x);
            lemma_entry_lines_push(b, key_line(key_command(), x));
            lemma_kv_lines_push(b, key_line(key_command(), x));
        },
        None => {},
    }
    if f.tags.len() > 0 {
        lemma_tag_list_one_line(f.tags);
        lemma_key_line(key_tags(), tag_list(f.tags));
        lemma_entry_lines_push(c, key_line(key_tags(), tag_list(f.tags)));
        lemma_kv_lines_push(c, key_line(key_tags(), tag_list(f.tags)));
    }
}

proof fn lemma_join_one_line(ts: Seq<Seq<char>>)
    requires
        forall|i: int| 0 <= i < ts.len() ==> plain_tag(#[trigger] ts[i]),
    ensures
        one_line(join(ts, seq![',', ' '])),
    decreases ts.len(),
{
    if ts.len() == 1 {
        assert(plain_tag(ts[0]));
        assert(join(ts, seq![',', ' ']) == ts[0]);
        assert forall|i: int| 0 <= i < ts[0].len() implies #[trigger] ts[0][i] != '\n' && ts[0][i] != '\r' by {
            assert(!crate::text::is_ws(ts[0][i]));
        }
    } else if ts.len() > 1 {
        let r = ts.drop_last();
        assert forall|i: int| 0 <= i < r.len() implies plain_tag(#[trigger] r[i]) by {
            assert(r[i] == ts[i]);
        }
        lemma_join_one_line(r);
        let last = ts.last();
        assert(plain_tag(ts[ts.len() - 1]));
        let j = join(ts, seq![',', ' ']);
        let jr = join(r, seq![',', ' ']);
        assert(j == jr + seq![',', ' '] + last);
        assert forall|i: int| 0 <= i < j.len() implies #[trigger] j[i] != '\n' && j[i] != '\r' by {
            if i < jr.len() {
                assert(j[i] == jr[i]);
            } else if i >= jr.len() + 2 {
                assert(j[i] == last[i - jr.len() - 2]);
                assert(!crate::text::is_ws(last[i - jr.len() - 2]));
            }
        }
    }
}

proof fn lemma_tag_list_one_line(ts: Seq<Seq<char>>)
    requires
        ts.len() > 0,
        forall|i: int| 0 <= i < ts.len() ==> plain_tag(#[trigger] ts[i]),
    ensures
        one_line(tag_list(ts)),
{
    lemma_join_one_line(ts);
    let j = join(ts, seq![',', ' ']);
    let t = tag_list(ts);
    assert forall|i: int| 0 <= i < t.len() implies #[trigger] t[i] != '\n' && t[i] != '\r' by {
        if 1 <= i < t.len() - 1 {
            assert(t[i] == j[i - 1]);
        }
    }
}

} // verus!

verus! {

proof fn lemma_join_front(ts: Seq<Seq<char>>, sep: Seq<char>)
    requires
        ts.len() >= 2,
    ensures
        join(ts, sep) == ts[0] + sep + join(ts.drop_first(), sep),
    decreases ts.len(),
{
    if ts.len() == 2 {
        let r = ts.drop_last();
        assert(r.len() == 1);
        assert(join(r, sep) == r[0]);
        assert(ts.drop_first().len() == 1);
        assert(join(ts.drop_first(), sep) == ts.drop_first()[0]);
        assert(join(ts, sep) =~= ts[0] + sep + join(ts.drop_first(), sep));
    } else {
        let r = ts.drop_last();
        lemma_join_front(r, sep);
        assert(r.drop_first() =~= ts.drop_first().drop_last());
        assert(ts.drop_first().last() == ts.last());
        assert(join(ts.drop_first(), sep) == join(ts.drop_first().drop_last(), sep) + sep + ts.drop_first().last());
        assert(join(ts, sep) =~= ts[0] + sep + join(ts.drop_first(), sep));
    }
}

/// No comma in `s`.
pub open spec fn comma_free(s: Seq<char>) -> bool {
    forall|i: int| 0 <= i < s.len() ==> #[trigger] s[i] != ','
}

proof fn lemma_split_none(s: Seq<char>)
    requires
        comma_free(s),
    ensures
        crate::text::split_char(s, ',') == seq![s],
{
    lemma_find_char_props(s, ',');
}

proof fn lemma_split_at_comma(a: Seq<char>, b: Seq<char>)
    requires
        comma_free(a),
    ensures
        crate::text::split_char(a + seq![','] + b, ',') == seq![a] + crate::text::split_char(b, ','),
{
    let s = a + seq![','] + b;
    lemma_find_char_props(s, ',');
    assert(s[a.len() as int] == ',');
    let k = find_char(s, ',')->Some_0;
    if k < a.len() {
        assert(s[k as int] == a[k as int]);
    }
    assert(k == a.len());
    assert(s.take(k as int) =~= a);
    assert(s.skip(k as int + 1) =~= b);
}

proof fn lemma_split_join(p: Seq<char>, ts: Seq<Seq<char>>)
    requires
        ts.len() > 0,
        comma_free(p),
        forall|i: int| 0 <= i < ts.len() ==> plain_tag(#[trigger] ts[i]),
    ensures
        crate::text::split_char(p + join(ts, seq![',', ' ']), ',') == seq![p + ts[0]] + ts.drop_first().map_values(
            |t: Seq<char>| seq![' '] + t,
        ),
    decreases ts.len(),
{
    assert(plain_tag(ts[0]));
    assert(comma_free(p + ts[0])) by {
        assert forall|i: int| 0 <= i < (p + ts[0]).len() implies #[trigger] (p + ts[0])[i] != ',' by {
            if i >= p.len() {
                assert((p + ts[0])[i] == ts[0][i - p.len()]);
            }
        }
    }
    if ts.len() == 1 {
        assert(join(ts, seq![',', ' ']) == ts[0]);
        lemma_split_none(p + ts[0]);
        assert(ts.drop_first().map_values(|t: Seq<char>| seq![' '] + t) =~= Seq::<Seq<char>>::empty());
        assert(seq![p + ts[0]] + Seq::<Seq<char>>::empty() =~= seq![p + ts[0]]);
    } else {
        let rest = ts.drop_first();
        lemma_join_front(ts, seq![',', ' ']);
        let jr = join(rest, seq![',', ' ']);
        assert(p + join(ts, seq![',', ' ']) =~= (p + ts[0]) + seq![','] + (seq![' '] + jr));
        lemma_split_at_comma(p + ts[0], seq![' '] + jr);
        assert forall|i: int| 0 <= i < rest.len() implies plain_tag(#[trigger] rest[i]) by {
            assert(rest[i] == ts[i + 1]);
        }
        assert(comma_free(seq![' ']));
        lemma_split_join(seq![' '], rest);
        assert(seq![p + ts[0]] + (seq![seq![' '] + rest[0]] + rest.drop_first().map_values(|t: Seq<char>| seq![' '] + t))
            =~= seq![p + ts[0]] + rest.map_values(|t: Seq<char>| seq![' '] + t));
    }
}

proof fn lemma_trim_plain(t: Seq<char>)
    requires
        plain_tag(t),
    ensures
        crate::text::trim(t) == t,
        crate::text::trim(seq![' '] + t) == t,
{
    assert(!crate::text::is_ws(t[0]));
    assert(!crate::text::is_ws(t[t.len() - 1]));
    assert(crate::text::trim_start(t) == t);
    assert(crate::text::trim_end(t) == t);
    assert(crate::text::is_ws(' '));
    assert((seq![' '] + t).drop_first() =~= t);
    assert(crate::text::trim_start(seq![' '] + t) == crate::text::trim_start(t));
}

proof fn lemma_nonempty_trims(ps: Seq<Seq<char>>, ts: Seq<Seq<char>>)
    requires
        ps.len() == ts.len(),
        forall|i: int| 0 <= i < ts.len() ==> crate::text::trim(#[trigger] ps[i]) == ts[i] && ts[i].len() > 0,
    ensures
        crate::parser::nonempty_trims(ps) == ts,
    decreases ps.len(),
{
    if ps.len() > 0 {
        assert(crate::text::trim(ps[0]) == ts[0] && ts[0].len() > 0);
        assert forall|i: int| 0 <= i < ts.drop_first().len() implies crate::text::trim(#[trigger] ps.drop_first()[i]) == ts.drop_first()[i]
            && ts.drop_first()[i].len() > 0 by {
            assert(ps.drop_first()[i] == ps[i + 1]);
            assert(crate::text::trim(ps[i + 1]) == ts[i + 1] && ts[i + 1].len() > 0);
        }
        lemma_nonempty_trims(ps.drop_first(), ts.drop_first());
        assert(crate::parser::nonempty_trims(ps) =~= ts);
    }
}

proof fn lemma_bracket_tag_list(ts: Seq<Seq<char>>)
    requires
        ts.len() > 0,
        forall|i: int| 0 <= i < ts.len() ==> plain_tag(#[trigger] ts[i]),
    ensures
        crate::parser::bracket_tags(tag_list(ts)) == ts,
{
    let j = join(ts, seq![',', ' ']);
    let v = tag_list(ts);
    assert(v[0] == '[');
    assert(v[v.len() - 1] == ']');
    assert(crate::text::trim_start(v) == v);
    assert(crate::text::trim_end(v) == v);
    assert(crate::text::trim(v) == v);
    assert(v.subrange(1, v.len() - 1) =~= j);
    assert(comma_free(Seq::<char>::empty()));
    lemma_split_join(Seq::<char>::empty(), ts);
    assert(Seq::<char>::empty() + j =~= j);
    let ps = crate::text::split_char(j, ',');
    assert(Seq::<char>::empty() + ts[0] =~= ts[0]);
    assert(ps.len() == ts.len());
    assert forall|i: int| 0 <= i < ts.len() implies crate::text::trim(#[trigger] ps[i]) == ts[i] && ts[i].len() > 0 by {
        lemma_trim_plain(ts[i]);
        if i > 0 {
            assert(ps[i] == seq![' '] + ts.drop_first()[i - 1]);
            assert(ts.drop_first()[i - 1] == ts[i]);
        } else {
            assert(ps[0] == ts[0]);
        }
    }
    lemma_nonempty_trims(ps, ts);
}

proof fn lemma_dedup_distinct(s: Seq<Seq<char>>, kept: Seq<Seq<char>>)
    requires
        forall|i: int, j: int| 0 <= i < j < s.len() ==> #[trigger] s[i] != #[trigger] s[j],
        forall|i: int| 0 <= i < s.len() ==> !kept.contains(#[trigger] s[i]),
    ensures
        crate::parser::dedup_from(s, kept) == kept + s,
    decreases s.len(),
{
    if s.len() == 0 {
        assert(kept + s =~= kept);
    } else {
        let r = s.drop_first();
        let k2 = kept.push(s[0]);
        assert forall|i: int, j: int| 0 <= i < j < r.len() implies #[trigger] r[i] != #[trigger] r[j] by {
            assert(r[i] == s[i + 1] && r[j] == s[j + 1]);
        }
        assert forall|i: int| 0 <= i < r.len() implies !k2.contains(#[trigger] r[i]) by {
            assert(r[i] == s[i + 1]);
            assert(s[0] != s[i + 1]);
            assert(!kept.contains(s[i + 1]));
            if k2.contains(r[i]) {
                let m = choose|m: int| 0 <= m < k2.len() && k2[m] == r[i];
                if m < kept.len() {
                    assert(kept[m] == r[i]);
                }
            }
        }
        lemma_dedup_distinct(r, k2);
        assert(k2 + r =~= kept + s);
    }
}

} // verus!

verus! {

proof fn lemma_fold_mapping(f: FactV)
    requires
        readable_mapping(f),
    ensures
        crate::parser::kv_fold(crate::parser::map_state0(), mapping_kvs(f)) == Ok::<
            crate::parser::MapState,
            crate::parser::FactErrV,
        >(crate::parser::MapState { label: Some(f.label), command: f.command, id: f.explicit_id, tags: f.tags }),
{
    let st0 = crate::parser::map_state0();
    let ka = seq![key_colon_space(key_label()) + f.label];
    let e: Seq<Seq<char>> = seq![];
    assert(ka =~= e.push(key_colon_space(key_label()) + f.label));
    lemma_fold_push(st0, e, key_colon_space(key_label()) + f.label);
    lemma_step_label(st0, f.label);
    let st1 = crate::parser::MapState { label: Some(f.label), command: None, id: None, tags: seq![] };
    assert(st0.tags + crate::parser::inline_tags(f.label) =~= Seq::<Seq<char>>::empty());
    assert(crate::parser::kv_fold(st0, ka) == Ok::<crate::parser::MapState, crate::parser::FactErrV>(st1));
    let kb = match f.explicit_id {
        Some(i) => ka.push(key_colon_space(key_id()) + i),
        None => ka,
    };
    let st2 = crate::parser::MapState { id: f.explicit_id, ..st1 };
    match f.explicit_id {
        Some(i) => {
            lemma_fold_push(st0, ka, key_colon_space(key_id()) + i);
            lemma_step_id(st1, i);
        },
        None => {},
    }
    assert(crate::parser::kv_fold(st0, kb) == Ok::<crate::parser::MapState, crate::parser::FactErrV>(st2));
    let kc = match f.command {
        Some(x) => kb.push(key_colon_space(key_command()) + x),
        None => kb,
    };
    let st3 = crate::parser::MapState { command: f.command, ..st2 };
    match f.command {
        Some(x) => {
            lemma_fold_push(st0, kb, key_colon_space(key_command()) + x);
            lemma_step_command(st2, x);
        },
        None => {},
    }
    assert(crate::parser::kv_fold(st0, kc) == Ok::<crate::parser::MapState, crate::parser::FactErrV>(st3));
    if f.tags.len() > 0 {
        lemma_fold_push(st0, kc, key_colon_space(key_tags()) + tag_list(f.tags));
        lemma_step_tags(st3, tag_list(f.tags));
        lemma_bracket_tag_list(f.tags);
        assert(st3.tags + crate::parser::bracket_tags(tag_list(f.tags)) =~= f.tags);
    } else {
        assert(st3.tags =~= f.tags);
    }
}

/// A fact that the writer renders as a mapping parses back, written on its
/// own, to one fact of the preamble with the same label, ID, command and
/// tags, when those fields can be read back whole (`readable_mapping`).
pub proof fn law_written_mapping_fact_reads_back(f: FactV, filename: Seq<char>)
    requires
        readable_mapping(f),
    ensures
        parse_spec(raw_of(f) + seq!['\n'], filename) matches Ok(sh) && {
            &&& sh.sections.len() == 0
            &&& sh.preamble.len() == 1
            &&& sh.preamble[0].label == f.label
            &&& sh.preamble[0].explicit_id == f.explicit_id
            &&& sh.preamble[0].command == f.command
            &&& sh.preamble[0].tags == f.tags
            &&& !sh.preamble[0].is_plain
        },
{
    let c = raw_of(f) + seq!['\n'];
    let ml = mapping_lines(f);
    lemma_mapping_text(f);
    lemma_mapping_lines(f);
    assert(c[0] == ml[0][0]) by {
        assert(lines_text(ml) == ml[0] + seq!['\n'] + lines_text(ml.drop_first()));
        assert(ml[0][0] == '-');
    }
    assert(strip_bom(c) == c);
    lemma_lines_of_text(ml);
    lemma_items_body(ml);
    let fls = ml.map_values(|l: Seq<char>| FactLineV { raw: l, blanks: 0 });
    let acc = seq![EntryV { lines: seq![ml[0]], blanks: 0 }];
    assert(starts_entry(fls[0].raw));
    assert(entries_from(fls, seq![]) == entries_from(fls.drop_first(), acc)) by {
        assert(Seq::<EntryV>::empty().push(EntryV { lines: seq![fls[0].raw], blanks: fls[0].blanks }) =~= acc);
    }
    assert forall|i: int| 0 <= i < fls.drop_first().len() implies continues(#[trigger] fls.drop_first()[i].raw) by {
        assert(fls.drop_first()[i].raw == ml[i + 1]);
    }
    lemma_entries_continue(fls.drop_first(), acc);
    assert(seq![ml[0]] + fls.drop_first().map_values(|fl: FactLineV| fl.raw) =~= ml);
    let e = EntryV { lines: ml, blanks: 0 };
    assert(acc.update(0, EntryV { lines: ml, blanks: 0 }) =~= seq![e]);
    assert(entries_from(fls, seq![]) == Ok::<Seq<EntryV>, Seq<char>>(seq![e]));
    lemma_fold_mapping(f);
    let content = crate::parser::strip_dash(ml[0]);
    if ml.len() == 1 {
        assert(content == key_colon_space(key_label()) + f.label);
        lemma_prefix(crate::parser::key_colon(key_label()), seq![' '] + f.label);
        assert(content =~= crate::parser::key_colon(key_label()) + (seq![' '] + f.label));
        assert(starts_with_known_key(content));
        assert(crate::parser::is_mapping_line(content));
    }
    let fact = crate::parser::mapping_fact(ml, 0)->Ok_0;
    assert(entry_fact(e) == crate::parser::mapping_fact(ml, 0));
    assert(entries_facts(seq![e]) == Ok::<Seq<FactV>, crate::parser::FactErrV>(seq![fact])) by {
        assert(crate::parser::kv_lines(ml) == mapping_kvs(f));
        assert(crate::parser::mapping_fact(ml, 0) is Ok);
        assert(seq![e][0] == e);
        assert(seq![e].drop_first() =~= Seq::<EntryV>::empty());
        assert(entries_facts(Seq::<EntryV>::empty()) == Ok::<Seq<FactV>, crate::parser::FactErrV>(Seq::<FactV>::empty()));
        assert(seq![fact] + Seq::<FactV>::empty() =~= seq![fact]);
    }
    assert(body_facts(fls) == Ok::<Seq<FactV>, crate::parser::FactErrV>(seq![fact]));
    assert(block_sections(Seq::<SecBlockV>::empty()) == Ok::<Seq<SectionV>, crate::parser::ParseErrV>(Seq::<SectionV>::empty()));
    assert(forest(Seq::<SectionV>::empty()) == Seq::<SectionV>::empty());
    lemma_dedup_distinct(f.tags, seq![]);
    assert(Seq::<Seq<char>>::empty() + f.tags =~= f.tags);
}

} // verus!

verus! {

/// `@` and then the tag: how a tag is written inline.
pub open spec fn at_word(t: Seq<char>) -> Seq<char> {
    seq!['@'] + t
}

proof fn lemma_word_len_full(w: Seq<char>)
    requires
        forall|i: int| 0 <= i < w.len() ==> !crate::text::is_ws(#[trigger] w[i]),
    ensures
        crate::text::word_len(w) == w.len(),
    decreases w.len(),
{
    if w.len() > 0 {
        assert forall|i: int| 0 <= i < w.drop_first().len() implies !crate::text::is_ws(#[trigger] w.drop_first()[i]) by {
            assert(w.drop_first()[i] == w[i + 1]);
        }
        lemma_word_len_full(w.drop_first());
    }
}

proof fn lemma_words_of_at_word(t: Seq<char>)
    requires
        plain_tag(t),
    ensures
        crate::text::words(seq![' '] + at_word(t)) == seq![at_word(t)],
{
    let w = at_word(t);
    assert(!crate::text::is_ws('@'));
    assert forall|i: int| 0 <= i < w.len() implies !crate::text::is_ws(#[trigger] w[i]) by {
        if i > 0 {
            assert(w[i] == t[i - 1]);
        }
    }
    lemma_word_len_full(w);
    assert(crate::text::is_ws(' '));
    assert((seq![' '] + w).drop_first() =~= w);
    assert(crate::text::trim_start(seq![' '] + w) == crate::text::trim_start(w));
    assert(crate::text::trim_start(w) == w);
    assert(w.take(w.len() as int) =~= w);
    assert(w.skip(w.len() as int) =~= Seq::<char>::empty());
    assert(crate::text::trim_start(Seq::<char>::empty()) == Seq::<char>::empty());
    assert(crate::text::words(Seq::<char>::empty()) == Seq::<Seq<char>>::empty());
    assert(crate::text::words(seq![' '] + w) =~= seq![w]);
}

proof fn lemma_words_suffix(label: Seq<char>, ts: Seq<Seq<char>>)
    requires
        forall|i: int| 0 <= i < ts.len() ==> plain_tag(#[trigger] ts[i]),
    ensures
        crate::text::words(label + inline_tag_suffix(ts)) == crate::text::words(label) + ts.map_values(
            |t: Seq<char>| at_word(t),
        ),
        ts.len() > 0 ==> inline_tag_suffix(ts)[0] == ' ',
    decreases ts.len(),
{
    if ts.len() == 0 {
        assert(label + inline_tag_suffix(ts) =~= label);
        assert(crate::text::words(label) + ts.map_values(|t: Seq<char>| at_word(t)) =~= crate::text::words(label));
    } else {
        let d = ts.drop_last();
        assert forall|i: int| 0 <= i < d.len() implies plain_tag(#[trigger] d[i]) by {
            assert(d[i] == ts[i]);
        }
        lemma_words_suffix(label, d);
        let last = ts.last();
        assert(plain_tag(ts[ts.len() - 1]));
        let x = label + inline_tag_suffix(d);
        let tail = seq![' '] + at_word(last);
        assert(label + inline_tag_suffix(ts) =~= x + tail);
        crate::text::lemma_words_concat(x, tail);
        lemma_words_of_at_word(last);
        assert(ts.map_values(|t: Seq<char>| at_word(t)) =~= d.map_values(|t: Seq<char>| at_word(t)).push(at_word(last)));
        assert(crate::text::words(label + inline_tag_suffix(ts)) =~= crate::text::words(label) + ts.map_values(
            |t: Seq<char>| at_word(t),
        ));
        if d.len() == 0 {
            assert(inline_tag_suffix(ts) =~= seq![' ', '@'] + last);
        } else {
            assert(inline_tag_suffix(ts)[0] == inline_tag_suffix(d)[0]);
        }
    }
}

proof fn lemma_at_words_split(ts: Seq<Seq<char>>)
    requires
        forall|i: int| 0 <= i < ts.len() ==> plain_tag(#[trigger] ts[i]) && ts[i][0] != '@',
    ensures
        crate::parser::plain_words(ts.map_values(|t: Seq<char>| at_word(t))) == Seq::<Seq<char>>::empty(),
        crate::parser::at_tags(ts.map_values(|t: Seq<char>| at_word(t))) == ts,
    decreases ts.len(),
{
    if ts.len() > 0 {
        let r = ts.drop_first();
        assert forall|i: int| 0 <= i < r.len() implies plain_tag(#[trigger] r[i]) && r[i][0] != '@' by {
            assert(r[i] == ts[i + 1]);
        }
        lemma_at_words_split(r);
        let m = ts.map_values(|t: Seq<char>| at_word(t));
        assert(m.drop_first() =~= r.map_values(|t: Seq<char>| at_word(t)));
        let w = at_word(ts[0]);
        assert(m[0] == w);
        assert(plain_tag(ts[0]) && ts[0][0] != '@');
        assert(w.drop_first() =~= ts[0]);
        assert(crate::lint::strip_ats(ts[0]) == ts[0]);
        assert(crate::lint::strip_ats(w) == ts[0]);
        assert(crate::parser::at_tags(m) =~= ts);
    }
}

proof fn lemma_not_key_prefix(label: Seq<char>, suffix: Seq<char>, kc: Seq<char>)
    requires
        !crate::text::starts_with(label, kc),
        forall|i: int| 0 <= i < kc.len() ==> #[trigger] kc[i] != ' ',
        suffix.len() == 0 || suffix[0] == ' ',
    ensures
        !crate::text::starts_with(label + suffix, kc),
{
    if crate::text::starts_with(label + suffix, kc) {
        if kc.len() <= label.len() {
            assert(label.subrange(0, kc.len() as int) =~= (label + suffix).subrange(0, kc.len() as int));
        } else {
            assert((label + suffix).subrange(0, kc.len() as int)[label.len() as int] == kc[label.len() as int]);
            assert((label + suffix)[label.len() as int] == suffix[0]);
        }
    }
}

/// A plain fact that reads back whole: no ID and no command; a label on one
/// line that starts with neither a mapping key nor `{`, holds no `@` word and
/// no run of spaces; tags that are non-empty, have no white space and no
/// comma, do not start with `@`, and do not repeat.
pub open spec fn readable_plain(f: FactV) -> bool {
    &&& f.is_plain
    &&& f.explicit_id is None
    &&& f.command is None
    &&& f.label.len() > 0
    &&& f.label[0] != '{'
    &&& one_line(f.label)
    &&& crate::parser::inline_label(f.label) == f.label
    &&& crate::parser::inline_tags(f.label) == Seq::<Seq<char>>::empty()
    &&& forall|i: int| 0 <= i < f.tags.len() ==> plain_tag(#[trigger] f.tags[i]) && f.tags[i][0] != '@'
    &&& forall|i: int, j: int| 0 <= i < j < f.tags.len() ==> #[trigger] f.tags[i] != #[trigger] f.tags[j]
}

proof fn lemma_plain_line(f: FactV)
    requires
        readable_plain(f),
        !ambiguous_as_plain(f.label),
    ensures
        ({
            let l = dash_space() + f.label + inline_tag_suffix(f.tags);
            let c = f.label + inline_tag_suffix(f.tags);
            &&& one_line(l)
            &&& body_line(l)
            &&& starts_entry(l)
            &&& crate::parser::strip_dash(l) == c
            &&& !crate::parser::is_mapping_line(c)
            &&& crate::parser::inline_label(c) == f.label
            &&& crate::parser::inline_tags(c) == f.tags
        }),
{
    let sfx = inline_tag_suffix(f.tags);
    let c = f.label + sfx;
    let l = dash_space() + f.label + sfx;
    assert(l =~= dash_space() + c);
    lemma_words_suffix(f.label, f.tags);
    lemma_at_words_split(f.tags);
    let m = f.tags.map_values(|t: Seq<char>| at_word(t));
    crate::parser::lemma_words_split(crate::text::words(f.label), m);
    assert(crate::parser::plain_words(crate::text::words(f.label)) + Seq::<Seq<char>>::empty() =~= crate::parser::plain_words(
        crate::text::words(f.label),
    ));
    assert(Seq::<Seq<char>>::empty() + f.tags =~= f.tags);
    // one line: the suffix has no line break
    assert forall|i: int| 0 <= i < l.len() implies #[trigger] l[i] != '\n' && l[i] != '\r' by {
        if 2 <= i < 2 + f.label.len() {
            assert(l[i] == f.label[i - 2]);
        } else if i >= 2 + f.label.len() {
            assert(l[i] == sfx[i - 2 - f.label.len()]);
            lemma_suffix_chars(f.tags, i - 2 - f.label.len());
        }
    }
    assert(l[0] == '-');
    assert(!crate::text::is_ws('-'));
    assert(!all_ws(l));
    assert(crate::text::trim_start(l) == l);
    assert(heading(l) is None);
    assert(l.subrange(0, 2) =~= dash_space());
    assert(l.skip(2) =~= c);
    // not a mapping line
    if f.tags.len() == 0 {
        assert(sfx.len() == 0);
    }
    let kl = crate::parser::key_colon(key_label());
    let kcm = crate::parser::key_colon(key_command());
    let ki = crate::parser::key_colon(key_id());
    let kt = crate::parser::key_colon(key_tags());
    assert(kl =~= seq!['l', 'a', 'b', 'e', 'l', ':']);
    assert(kcm =~= seq!['c', 'o', 'm', 'm', 'a', 'n', 'd', ':']);
    assert(ki =~= seq!['i', 'd', ':']);
    assert(kt =~= seq!['t', 'a', 'g', 's', ':']);
    lemma_not_key_prefix(f.label, sfx, kl);
    lemma_not_key_prefix(f.label, sfx, kcm);
    lemma_not_key_prefix(f.label, sfx, ki);
    lemma_not_key_prefix(f.label, sfx, kt);
    assert(c[0] == f.label[0]);
    assert(one_line(l));
    assert(body_line(l));
    assert(starts_entry(l));
    assert(crate::parser::strip_dash(l) == c);
    assert(!crate::parser::is_mapping_line(c));
    assert(crate::parser::inline_label(c) == f.label);
    assert(crate::parser::inline_tags(c) == f.tags);
}

proof fn lemma_suffix_chars(ts: Seq<Seq<char>>, k: int)
    requires
        forall|i: int| 0 <= i < ts.len() ==> plain_tag(#[trigger] ts[i]),
        0 <= k < inline_tag_suffix(ts).len(),
    ensures
        inline_tag_suffix(ts)[k] != '\n' && inline_tag_suffix(ts)[k] != '\r',
    decreases ts.len(),
{
    let d = ts.drop_last();
    assert forall|i: int| 0 <= i < d.len() implies plain_tag(#[trigger] d[i]) by {
        assert(d[i] == ts[i]);
    }
    let a = inline_tag_suffix(d);
    let last = ts.last();
    assert(plain_tag(ts[ts.len() - 1]));
    assert(inline_tag_suffix(ts) == a + seq![' ', '@'] + last);
    if k < a.len() {
        lemma_suffix_chars(d, k);
        assert(inline_tag_suffix(ts)[k] == a[k]);
    } else if k >= a.len() + 2 {
        assert(inline_tag_suffix(ts)[k] == last[k - a.len() - 2]);
        assert(!crate::text::is_ws(last[k - a.len() - 2]));
    }
}

/// A written plain fact reads back, written on its own, to one fact of the
/// preamble with the same label and tags and neither ID nor command: plain
/// again, or a mapping when its label would read as one (`ambiguous_as_plain`).
pub proof fn law_written_plain_fact_reads_back(f: FactV, filename: Seq<char>)
    requires
        readable_plain(f),
    ensures
        parse_spec(raw_of(f) + seq!['\n'], filename) matches Ok(sh) && {
            &&& sh.sections.len() == 0
            &&& sh.preamble.len() == 1
            &&& sh.preamble[0].label == f.label
            &&& sh.preamble[0].explicit_id is None
            &&& sh.preamble[0].command is None
            &&& sh.preamble[0].tags == f.tags
            &&& sh.preamble[0].is_plain == !ambiguous_as_plain(f.label)
        },
{
    if ambiguous_as_plain(f.label) {
        let g = FactV { is_plain: false, ..f };
        assert(raw_of(f) == raw_of(g));
        assert(readable_mapping(g)) by {
            assert forall|i: int| 0 <= i < g.tags.len() implies plain_tag(#[trigger] g.tags[i]) by {
                assert(plain_tag(f.tags[i]));
            }
        }
        law_written_mapping_fact_reads_back(g, filename);
    } else {
        lemma_plain_line(f);
        let l = dash_space() + f.label + inline_tag_suffix(f.tags);
        assert(raw_of(f) == l);
        let ml = seq![l];
        let c = raw_of(f) + seq!['\n'];
        assert(ml.drop_first() =~= Seq::<Seq<char>>::empty());
        assert(lines_text(Seq::<Seq<char>>::empty()) == Seq::<char>::empty());
        assert(lines_text(ml) == ml[0] + seq!['\n'] + lines_text(ml.drop_first()));
        assert(c =~= lines_text(ml));
        assert(c[0] == '-');
        assert(strip_bom(c) == c);
        lemma_lines_of_text(ml);
        lemma_items_body(ml);
        let fls = ml.map_values(|x: Seq<char>| FactLineV { raw: x, blanks: 0 });
        let e = EntryV { lines: ml, blanks: 0 };
        assert(fls[0].raw == l);
        assert(fls.drop_first() =~= Seq::<FactLineV>::empty());
        assert(entries_from(fls.drop_first(), seq![e]) == Ok::<Seq<EntryV>, Seq<char>>(seq![e]));
        assert(Seq::<EntryV>::empty().push(EntryV { lines: seq![fls[0].raw], blanks: fls[0].blanks }) =~= seq![e]);
        assert(entries_from(fls, seq![]) == Ok::<Seq<EntryV>, Seq<char>>(seq![e]));
        let fact = FactV {
            explicit_id: None,
            label: f.label,
            command: None,
            tags: f.tags,
            is_plain: true,
            raw: l,
            blank_lines_before: 0,
        };
        assert(entry_fact(e) == Ok::<FactV, crate::parser::FactErrV>(fact));
        assert(entries_facts(seq![e]) == Ok::<Seq<FactV>, crate::parser::FactErrV>(seq![fact])) by {
            assert(seq![e][0] == e);
            assert(seq![e].drop_first() =~= Seq::<EntryV>::empty());
            assert(entries_facts(Seq::<EntryV>::empty()) == Ok::<Seq<FactV>, crate::parser::FactErrV>(Seq::<FactV>::empty()));
            assert(seq![fact] + Seq::<FactV>::empty() =~= seq![fact]);
        }
        assert(body_facts(fls) == Ok::<Seq<FactV>, crate::parser::FactErrV>(seq![fact]));
        assert(block_sections(Seq::<SecBlockV>::empty()) == Ok::<Seq<SectionV>, crate::parser::ParseErrV>(Seq::<SectionV>::empty()));
        assert(forest(Seq::<SectionV>::empty()) == Seq::<SectionV>::empty());
    }
}

} // verus!

verus! {

// ---------------------------------------------------------------------------
// The scaffolded file parses to one `project` section
// ---------------------------------------------------------------------------

/// The lines of one scaffolded fact: `- label` alone, or the label and command
/// of a mapping.
pub open spec fn sfact_lines(f: crate::init::SFactV) -> Seq<Seq<char>> {
    match f.1 {
        Some(c) => seq![dash_space() + key_colon_space(key_label()) + f.0, key_line(key_command(), c)],
        None => seq![dash_space() + f.0],
    }
}

/// The lines of scaffolded facts, in order.
pub open spec fn facts_lines(fs: Seq<crate::init::SFactV>) -> Seq<Seq<char>>
    decreases fs.len(),
{
    if fs.len() == 0 { seq![] } else { facts_lines(fs.drop_last()) + sfact_lines(fs.last()) }
}

/// The facts of the stacks, in order.
pub open spec fn stacks_facts(ss: Seq<crate::init::StackV>) -> Seq<crate::init::SFactV>
    decreases ss.len(),
{
    if ss.len() == 0 { seq![] } else { stacks_facts(ss.drop_last()) + ss.last().facts }
}

/// The lines of the stacks' parts: a blank line before the facts of each.
pub open spec fn stacks_lines(ss: Seq<crate::init::StackV>) -> Seq<Seq<char>>
    decreases ss.len(),
{
    if ss.len() == 0 {
        seq![]
    } else {
        stacks_lines(ss.drop_last()) + (seq![Seq::<char>::empty()] + facts_lines(ss.last().facts))
    }
}

proof fn lemma_lines_text_concat(a: Seq<Seq<char>>, b: Seq<Seq<char>>)
    ensures
        lines_text(a + b) == lines_text(a) + lines_text(b),
    decreases a.len(),
{
    if a.len() == 0 {
        assert(a + b =~= b);
        assert(lines_text(a) + lines_text(b) =~= lines_text(b));
    } else {
        lemma_lines_text_concat(a.drop_first(), b);
        assert((a + b).drop_first() =~= a.drop_first() + b);
        assert((a + b)[0] == a[0]);
        assert(lines_text(a + b) =~= lines_text(a) + lines_text(b));
    }
}

proof fn lemma_sfact_text(f: crate::init::SFactV)
    ensures
        crate::init::sfact_text(f) == lines_text(sfact_lines(f)),
{
    reveal_strlit("- label: ");
    reveal_strlit("\n  command: ");
    reveal_strlit("\n");
    reveal_strlit("- ");
    let ls = sfact_lines(f);
    assert(lines_text(Seq::<Seq<char>>::empty()) == Seq::<char>::empty());
    match f.1 {
        Some(c) => {
            assert(ls.drop_first().drop_first() =~= Seq::<Seq<char>>::empty());
            assert(lines_text(ls.drop_first()) == ls[1] + seq!['\n'] + lines_text(ls.drop_first().drop_first()));
            assert(lines_text(ls) == ls[0] + seq!['\n'] + lines_text(ls.drop_first()));
            assert(crate::init::sfact_text(f) =~= lines_text(ls));
        },
        None => {
            assert(ls.drop_first() =~= Seq::<Seq<char>>::empty());
            assert(lines_text(ls) == ls[0] + seq!['\n'] + lines_text(ls.drop_first()));
            assert(crate::init::sfact_text(f) =~= lines_text(ls));
        },
    }
}

proof fn lemma_facts_text(fs: Seq<crate::init::SFactV>)
    ensures
        crate::text::concat_map(fs, |i: int, f: crate::init::SFactV| crate::init::sfact_text(f)) == lines_text(facts_lines(fs)),
    decreases fs.len(),
{
    if fs.len() == 0 {
        assert(lines_text(Seq::<Seq<char>>::empty()) == Seq::<char>::empty());
    } else {
        lemma_facts_text(fs.drop_last());
        lemma_sfact_text(fs.last());
        lemma_lines_text_concat(facts_lines(fs.drop_last()), sfact_lines(fs.last()));
    }
}

proof fn lemma_stack_text(s: crate::init::StackV)
    ensures
        crate::init::stack_text(s) == lines_text(seq![Seq::<char>::empty()] + facts_lines(s.facts)),
{
    lemma_facts_text(s.facts);
    let x = seq![Seq::<char>::empty()] + facts_lines(s.facts);
    assert(x.drop_first() =~= facts_lines(s.facts));
    assert(x[0] == Seq::<char>::empty());
    assert(lines_text(x) == x[0] + seq!['\n'] + lines_text(x.drop_first()));
    assert(crate::init::stack_text(s) =~= lines_text(x));
}

proof fn lemma_stacks_text(ss: Seq<crate::init::StackV>)
    ensures
        crate::text::concat_map(ss, |i: int, s: crate::init::StackV| crate::init::stack_text(s)) == lines_text(stacks_lines(ss)),
    decreases ss.len(),
{
    if ss.len() == 0 {
        assert(lines_text(Seq::<Seq<char>>::empty()) == Seq::<char>::empty());
    } else {
        lemma_stacks_text(ss.drop_last());
        lemma_stack_text(ss.last());
        lemma_lines_text_concat(stacks_lines(ss.drop_last()), seq![Seq::<char>::empty()] + facts_lines(ss.last().facts));
    }
}

/// The title line of the scaffolded file.
pub open spec fn project_line() -> Seq<char> {
    seq!['#', ' ', 'p', 'r', 'o', 'j', 'e', 'c', 't']
}

/// The fact a scaffold holds when no stack is found.
pub open spec fn default_fact() -> crate::init::SFactV {
    ("project is set up and ready for development"@, None)
}

/// The facts of the scaffolded file: the stacks' facts, or the default one.
pub open spec fn scaffold_facts(ss: Seq<crate::init::StackV>) -> Seq<crate::init::SFactV> {
    if ss.len() == 0 { seq![default_fact()] } else { stacks_facts(ss) }
}

/// The body lines of the scaffolded file, after its title.
pub open spec fn scaffold_body(ss: Seq<crate::init::StackV>) -> Seq<Seq<char>> {
    if ss.len() == 0 { seq![Seq::<char>::empty()] + sfact_lines(default_fact()) } else { stacks_lines(ss) }
}

proof fn lemma_scaffold_text(ss: Seq<crate::init::StackV>)
    ensures
        crate::init::facts_content(ss) == lines_text(seq![project_line()] + scaffold_body(ss)),
{
    reveal_strlit("# project\n");
    reveal_strlit("# project\n\n- project is set up and ready for development\n");
    reveal_strlit("project is set up and ready for development");
    let b = scaffold_body(ss);
    let all = seq![project_line()] + b;
    assert(all.drop_first() =~= b);
    assert(all[0] == project_line());
    assert(lines_text(all) == all[0] + seq!['\n'] + lines_text(b));
    if ss.len() == 0 {
        lemma_sfact_text(default_fact());
        let d = sfact_lines(default_fact());
        assert(b.drop_first() =~= d);
        assert(lines_text(b) == b[0] + seq!['\n'] + lines_text(d));
        reveal_strlit("- ");
        reveal_strlit("\n");
        assert(crate::init::facts_content(ss) =~= lines_text(all));
    } else {
        lemma_stacks_text(ss);
        assert(crate::init::facts_content(ss) =~= lines_text(all));
    }
}

} // verus!

verus! {

/// The non-empty lines of `ls`, in order.
pub open spec fn nonblank(ls: Seq<Seq<char>>) -> Seq<Seq<char>>
    decreases ls.len(),
{
    if ls.len() == 0 {
        seq![]
    } else if ls[0].len() == 0 {
        nonblank(ls.drop_first())
    } else {
        seq![ls[0]] + nonblank(ls.drop_first())
    }
}

proof fn lemma_nonblank_concat(a: Seq<Seq<char>>, b: Seq<Seq<char>>)
    ensures
        nonblank(a + b) == nonblank(a) + nonblank(b),
    decreases a.len(),
{
    if a.len() == 0 {
        assert(a + b =~= b);
        assert(nonblank(a) + nonblank(b) =~= nonblank(b));
    } else {
        lemma_nonblank_concat(a.drop_first(), b);
        assert((a + b).drop_first() =~= a.drop_first() + b);
        assert((a + b)[0] == a[0]);
        assert(nonblank(a + b) =~= nonblank(a) + nonblank(b));
    }
}

proof fn lemma_nonblank_full(ls: Seq<Seq<char>>)
    requires
        forall|i: int| 0 <= i < ls.len() ==> (#[trigger] ls[i]).len() > 0,
    ensures
        nonblank(ls) == ls,
    decreases ls.len(),
{
    if ls.len() > 0 {
        assert forall|i: int| 0 <= i < ls.drop_first().len() implies (#[trigger] ls.drop_first()[i]).len() > 0 by {
            assert(ls.drop_first()[i] == ls[i + 1]);
        }
        lemma_nonblank_full(ls.drop_first());
        assert(ls[0].len() > 0);
        assert(nonblank(ls) =~= ls);
    }
}

/// A scaffolded fact that reads back as written: its label on one line, the
/// parser's label of itself, with no inline tag, and not read as a mapping
/// when the fact has no command; its command on one line.
pub open spec fn scaffold_fact_ok(f: crate::init::SFactV) -> bool {
    &&& one_line(f.0)
    &&& crate::parser::inline_label(f.0) == f.0
    &&& crate::parser::inline_tags(f.0) == Seq::<Seq<char>>::empty()
    &&& (f.1 is None ==> !crate::parser::is_mapping_line(f.0))
    &&& (f.1 matches Some(c) ==> one_line(c))
}

/// A line of a scaffolded body: blank, or a line of a fact.
pub open spec fn scaffold_line(l: Seq<char>) -> bool {
    l.len() == 0 || (one_line(l) && body_line(l))
}

proof fn lemma_plain_head(label: Seq<char>)
    requires
        one_line(label),
    ensures
        ({
            let l = dash_space() + label;
            &&& one_line(l)
            &&& body_line(l)
            &&& starts_entry(l)
            &&& crate::parser::strip_dash(l) == label
        }),
{
    let l = dash_space() + label;
    assert forall|i: int| 0 <= i < l.len() implies #[trigger] l[i] != '\n' && l[i] != '\r' by {
        if i >= 2 {
            assert(l[i] == label[i - 2]);
        }
    }
    assert(l[0] == '-');
    assert(!crate::text::is_ws('-'));
    assert(!all_ws(l));
    assert(crate::text::trim_start(l) == l);
    assert(heading(l) is None);
    assert(l.subrange(0, 2) =~= dash_space());
    assert(l.skip(2) =~= label);
}

proof fn lemma_sfact_lines_ok(f: crate::init::SFactV)
    requires
        scaffold_fact_ok(f),
    ensures
        ({
            let ls = sfact_lines(f);
            &&& 1 <= ls.len() <= 2
            &&& starts_entry(ls[0])
            &&& forall|i: int| 0 <= i < ls.len() ==> #[trigger] ls[i].len() > 0 && one_line(ls[i]) && body_line(ls[i])
            &&& ls.len() == 2 ==> continues(ls[1])
        }),
{
    let ls = sfact_lines(f);
    match f.1 {
        Some(c) => {
            lemma_head_line(f.0);
            lemma_key_line(key_command(), c);
            assert(ls[0] == dash_space() + key_colon_space(key_label()) + f.0);
            assert(ls[1] == key_line(key_command(), c));
            assert(ls[0][0] == '-');
            assert(ls[1][0] == ' ');
        },
        None => {
            lemma_plain_head(f.0);
            assert(ls[0][0] == '-');
        },
    }
}

proof fn lemma_facts_lines_concat(a: Seq<crate::init::SFactV>, b: Seq<crate::init::SFactV>)
    ensures
        facts_lines(a + b) == facts_lines(a) + facts_lines(b),
    decreases b.len(),
{
    if b.len() == 0 {
        assert(a + b =~= a);
        assert(facts_lines(a) + facts_lines(b) =~= facts_lines(a));
    } else {
        lemma_facts_lines_concat(a, b.drop_last());
        assert((a + b).drop_last() =~= a + b.drop_last());
        assert((a + b).last() == b.last());
        assert(facts_lines(a + b) =~= facts_lines(a) + facts_lines(b));
    }
}

proof fn lemma_facts_lines_ok(fs: Seq<crate::init::SFactV>)
    requires
        forall|i: int| 0 <= i < fs.len() ==> scaffold_fact_ok(#[trigger] fs[i]),
    ensures
        forall|i: int| 0 <= i < facts_lines(fs).len() ==> (#[trigger] facts_lines(fs)[i]).len() > 0 && one_line(facts_lines(fs)[i])
            && body_line(facts_lines(fs)[i]),
    decreases fs.len(),
{
    if fs.len() > 0 {
        let d = fs.drop_last();
        assert forall|i: int| 0 <= i < d.len() implies scaffold_fact_ok(#[trigger] d[i]) by {
            assert(d[i] == fs[i]);
        }
        lemma_facts_lines_ok(d);
        assert(scaffold_fact_ok(fs[fs.len() - 1]));
        lemma_sfact_lines_ok(fs.last());
        let a = facts_lines(d);
        let b = sfact_lines(fs.last());
        assert forall|i: int| 0 <= i < facts_lines(fs).len() implies (#[trigger] facts_lines(fs)[i]).len() > 0 && one_line(
            facts_lines(fs)[i],
        ) && body_line(facts_lines(fs)[i]) by {
            if i < a.len() {
                assert(facts_lines(fs)[i] == a[i]);
            } else {
                assert(facts_lines(fs)[i] == b[i - a.len()]);
            }
        }
    }
}

/// Every fact of every stack reads back as written.
pub open spec fn stacks_ok(ss: Seq<crate::init::StackV>) -> bool {
    forall|i: int, j: int| 0 <= i < ss.len() && 0 <= j < ss[i].facts.len() ==> scaffold_fact_ok(#[trigger] ss[i].facts[j])
}

proof fn lemma_stacks_lines(ss: Seq<crate::init::StackV>)
    requires
        stacks_ok(ss),
    ensures
        forall|i: int| 0 <= i < stacks_lines(ss).len() ==> scaffold_line(#[trigger] stacks_lines(ss)[i]),
        nonblank(stacks_lines(ss)) == facts_lines(stacks_facts(ss)),
    decreases ss.len(),
{
    if ss.len() > 0 {
        let d = ss.drop_last();
        assert forall|i: int, j: int| 0 <= i < d.len() && 0 <= j < d[i].facts.len() implies scaffold_fact_ok(
            #[trigger] d[i].facts[j],
        ) by {
            assert(d[i] == ss[i]);
        }
        lemma_stacks_lines(d);
        let last = ss.last();
        assert forall|j: int| 0 <= j < last.facts.len() implies scaffold_fact_ok(#[trigger] last.facts[j]) by {
            assert(last == ss[ss.len() - 1]);
        }
        lemma_facts_lines_ok(last.facts);
        let a = stacks_lines(d);
        let fl = facts_lines(last.facts);
        let b = seq![Seq::<char>::empty()] + fl;
        assert forall|i: int| 0 <= i < stacks_lines(ss).len() implies scaffold_line(#[trigger] stacks_lines(ss)[i]) by {
            if i < a.len() {
                assert(stacks_lines(ss)[i] == a[i]);
            } else if i > a.len() {
                assert(stacks_lines(ss)[i] == fl[i - a.len() - 1]);
            } else {
                assert(stacks_lines(ss)[i] == Seq::<char>::empty());
            }
        }
        lemma_nonblank_concat(a, b);
        lemma_nonblank_concat(seq![Seq::<char>::empty()], fl);
        assert(seq![Seq::<char>::empty()].drop_first() =~= Seq::<Seq<char>>::empty());
        assert(nonblank(seq![Seq::<char>::empty()]) == nonblank(Seq::<Seq<char>>::empty()));
        lemma_nonblank_full(fl);
        lemma_facts_lines_concat(stacks_facts(d), last.facts);
        assert(nonblank(stacks_lines(ss)) =~= facts_lines(stacks_facts(ss)));
    }
}

} // verus!

verus! {

proof fn lemma_items_group(ls: Seq<Seq<char>>, b: nat)
    requires
        forall|i: int| 0 <= i < ls.len() ==> scaffold_line(#[trigger] ls[i]),
    ensures
        group(items(ls, b)).1 == Seq::<SecBlockV>::empty(),
        group(items(ls, b)).0.map_values(|fl: FactLineV| fl.raw) == nonblank(ls),
    decreases ls.len(),
{
    if ls.len() > 0 {
        let rest = ls.drop_first();
        assert forall|i: int| 0 <= i < rest.len() implies scaffold_line(#[trigger] rest[i]) by {
            assert(rest[i] == ls[i + 1]);
        }
        assert(scaffold_line(ls[0]));
        if ls[0].len() == 0 {
            assert(all_ws(ls[0]));
            lemma_items_group(rest, b + 1);
        } else {
            lemma_items_group(rest, 0);
            let its = items(ls, b);
            assert(its.drop_first() =~= items(rest, 0));
            assert(group(its).0.map_values(|fl: FactLineV| fl.raw) =~= nonblank(ls));
        }
    } else {
        assert(group(items(ls, b)).0.map_values(|fl: FactLineV| fl.raw) =~= nonblank(ls));
    }
}

proof fn lemma_entries_split(a: Seq<FactLineV>, b: Seq<FactLineV>, acc: Seq<EntryV>)
    ensures
        entries_from(a + b, acc) == match entries_from(a, acc) {
            Ok(acc2) => entries_from(b, acc2),
            Err(e) => Err(e),
        },
    decreases a.len(),
{
    if a.len() == 0 {
        assert(a + b =~= b);
    } else {
        assert((a + b).drop_first() =~= a.drop_first() + b);
        assert((a + b)[0] == a[0]);
        let l = a[0].raw;
        if starts_entry(l) {
            lemma_entries_split(a.drop_first(), b, acc.push(EntryV { lines: seq![l], blanks: a[0].blanks }));
        } else if crate::text::starts_with(l, crate::parser::two_spaces()) && acc.len() > 0 {
            let last = acc.last();
            lemma_entries_split(
                a.drop_first(),
                b,
                acc.update(acc.len() - 1, EntryV { lines: last.lines.push(l), blanks: last.blanks }),
            );
        }
    }
}

proof fn lemma_entries_group(fls: Seq<FactLineV>, acc: Seq<EntryV>, f: crate::init::SFactV)
    requires
        fls.map_values(|fl: FactLineV| fl.raw) == sfact_lines(f),
        scaffold_fact_ok(f),
    ensures
        entries_from(fls, acc) == Ok::<Seq<EntryV>, Seq<char>>(acc.push(EntryV { lines: sfact_lines(f), blanks: fls[0].blanks })),
{
    lemma_sfact_lines_ok(f);
    let ls = sfact_lines(f);
    assert(fls.len() == ls.len());
    assert(fls[0].raw == ls[0]);
    let acc1 = acc.push(EntryV { lines: seq![ls[0]], blanks: fls[0].blanks });
    assert(entries_from(fls, acc) == entries_from(fls.drop_first(), acc1));
    if ls.len() == 1 {
        assert(fls.drop_first() =~= Seq::<FactLineV>::empty());
        assert(ls =~= seq![ls[0]]);
    } else {
        let r = fls.drop_first();
        assert(r[0].raw == ls[1]);
        assert(continues(ls[1]));
        assert(r.drop_first() =~= Seq::<FactLineV>::empty());
        let acc2 = acc1.update(acc1.len() - 1, EntryV { lines: seq![ls[0]].push(ls[1]), blanks: fls[0].blanks });
        assert(entries_from(r, acc1) == entries_from(r.drop_first(), acc2));
        assert(seq![ls[0]].push(ls[1]) =~= ls);
        assert(acc2 =~= acc.push(EntryV { lines: ls, blanks: fls[0].blanks }));
    }
}

proof fn lemma_entries_all(fls: Seq<FactLineV>, acc: Seq<EntryV>, fs: Seq<crate::init::SFactV>)
    requires
        fls.map_values(|fl: FactLineV| fl.raw) == facts_lines(fs),
        forall|i: int| 0 <= i < fs.len() ==> scaffold_fact_ok(#[trigger] fs[i]),
    ensures
        entries_from(fls, acc) matches Ok(r) && r.len() == acc.len() + fs.len() && (forall|k: int|
            0 <= k < acc.len() ==> #[trigger] r[k] == acc[k]) && (forall|j: int|
            0 <= j < fs.len() ==> #[trigger] r[acc.len() + j].lines == sfact_lines(fs[j])),
    decreases fs.len(),
{
    if fs.len() == 0 {
        assert(fls.len() == 0);
        assert(fls =~= Seq::<FactLineV>::empty());
    } else {
        let d = fs.drop_last();
        let last = fs.last();
        assert forall|i: int| 0 <= i < d.len() implies scaffold_fact_ok(#[trigger] d[i]) by {
            assert(d[i] == fs[i]);
        }
        assert(scaffold_fact_ok(fs[fs.len() - 1]));
        let n1 = facts_lines(d).len();
        let raws = fls.map_values(|fl: FactLineV| fl.raw);
        assert(raws == facts_lines(d) + sfact_lines(last));
        assert(fls.len() == raws.len());
        assert(fls.len() == n1 + sfact_lines(last).len());
        let a = fls.take(n1 as int);
        let b = fls.skip(n1 as int);
        assert(fls =~= a + b);
        assert forall|i: int| 0 <= i < a.len() implies (#[trigger] a[i]).raw == facts_lines(d)[i] by {
            assert(a[i] == fls[i]);
            assert(raws[i] == fls[i].raw);
        }
        assert(a.map_values(|fl: FactLineV| fl.raw) =~= facts_lines(d));
        assert forall|i: int| 0 <= i < b.len() implies (#[trigger] b[i]).raw == sfact_lines(last)[i] by {
            assert(b[i] == fls[n1 + i]);
            assert(raws[n1 + i] == fls[n1 + i].raw);
        }
        assert(b.map_values(|fl: FactLineV| fl.raw) =~= sfact_lines(last));
        lemma_entries_all(a, acc, d);
        let r1 = entries_from(a, acc)->Ok_0;
        lemma_entries_split(a, b, acc);
        lemma_entries_group(b, r1, last);
        let r = entries_from(fls, acc)->Ok_0;
        assert(r == r1.push(EntryV { lines: sfact_lines(last), blanks: b[0].blanks }));
        assert forall|k: int| 0 <= k < acc.len() implies #[trigger] r[k] == acc[k] by {
            assert(r[k] == r1[k]);
        }
        assert forall|j: int| 0 <= j < fs.len() implies #[trigger] r[acc.len() + j].lines == sfact_lines(fs[j]) by {
            if j < d.len() {
                assert(r[acc.len() + j] == r1[acc.len() + j]);
                assert(d[j] == fs[j]);
            }
        }
    }
}

proof fn lemma_entries_facts_ok(es: Seq<EntryV>)
    requires
        forall|j: int| 0 <= j < es.len() ==> entry_fact(#[trigger] es[j]) is Ok,
    ensures
        entries_facts(es) matches Ok(fs) && fs.len() == es.len() && forall|j: int|
            0 <= j < es.len() ==> #[trigger] fs[j] == entry_fact(es[j])->Ok_0,
    decreases es.len(),
{
    if es.len() > 0 {
        let r = es.drop_first();
        assert forall|j: int| 0 <= j < r.len() implies entry_fact(#[trigger] r[j]) is Ok by {
            assert(r[j] == es[j + 1]);
        }
        lemma_entries_facts_ok(r);
        assert(entry_fact(es[0]) is Ok);
        let fs = entries_facts(es)->Ok_0;
        let fr = entries_facts(r)->Ok_0;
        assert forall|j: int| 0 <= j < es.len() implies #[trigger] fs[j] == entry_fact(es[j])->Ok_0 by {
            if j > 0 {
                assert(fs[j] == fr[j - 1]);
                assert(r[j - 1] == es[j]);
            }
        }
    }
}

proof fn lemma_entry_fact_ok(f: crate::init::SFactV, b: nat)
    requires
        scaffold_fact_ok(f),
    ensures
        entry_fact(EntryV { lines: sfact_lines(f), blanks: b }) matches Ok(g) && g.label == f.0 && g.command == f.1,
{
    let ls = sfact_lines(f);
    let e = EntryV { lines: ls, blanks: b };
    match f.1 {
        Some(c) => {
            lemma_head_line(f.0);
            lemma_key_line(key_command(), c);
            let st0 = crate::parser::map_state0();
            let k0 = key_colon_space(key_label()) + f.0;
            let k1 = key_colon_space(key_command()) + c;
            let a = seq![ls[0]];
            assert(a.drop_first() =~= Seq::<Seq<char>>::empty());
            assert(crate::parser::kv_lines(a) =~= seq![k0]);
            assert(ls =~= a.push(ls[1]));
            lemma_kv_lines_push(a, ls[1]);
            assert(crate::parser::kv_lines(ls) =~= seq![k0, k1]);
            let e0: Seq<Seq<char>> = seq![];
            assert(seq![k0] =~= e0.push(k0));
            assert(seq![k0, k1] =~= seq![k0].push(k1));
            lemma_fold_push(st0, e0, k0);
            lemma_fold_push(st0, seq![k0], k1);
            lemma_step_label(st0, f.0);
            let st1 = crate::parser::MapState { label: Some(f.0), tags: st0.tags + Seq::<Seq<char>>::empty(), ..st0 };
            lemma_step_command(st1, c);
            assert(crate::parser::mapping_fact(ls, b) is Ok);
        },
        None => {
            lemma_plain_head(f.0);
        },
    }
}

/// The title `project`.
pub open spec fn project_title() -> Seq<char> {
    seq!['p', 'r', 'o', 'j', 'e', 'c', 't']
}

proof fn lemma_project_heading()
    ensures
        heading(project_line()) == Some((1nat, project_title())),
        !all_ws(project_line()),
        one_line(project_line()),
{
    let t = project_line();
    assert(!crate::text::is_ws('#'));
    assert(crate::text::trim_start(t) == t);
    assert(crate::parser::hash_run(t.drop_first()) == 0) by {
        assert(t.drop_first()[0] == ' ');
    }
    assert(crate::parser::hash_run(t) == 1);
    let r = t.skip(1);
    assert(crate::text::is_ws(' '));
    assert(r.drop_first() =~= project_title());
    assert(crate::text::trim_start(r) == crate::text::trim_start(project_title()));
    assert(!crate::text::is_ws('p'));
    assert(crate::text::trim_start(project_title()) == project_title());
    assert(!crate::text::is_ws('t'));
    assert(project_title().last() == 't');
    assert(crate::text::trim_end(project_title()) == project_title());
}

} // verus!

verus! {

proof fn lemma_scaffold_body(ss: Seq<crate::init::StackV>)
    requires
        stacks_ok(ss),
    ensures
        forall|i: int| 0 <= i < scaffold_body(ss).len() ==> scaffold_line(#[trigger] scaffold_body(ss)[i]),
        nonblank(scaffold_body(ss)) == facts_lines(scaffold_facts(ss)),
        forall|j: int| 0 <= j < scaffold_facts(ss).len() ==> scaffold_fact_ok(#[trigger] scaffold_facts(ss)[j]),
{
    if ss.len() == 0 {
        lemma_default_ok();
        let d = sfact_lines(default_fact());
        lemma_sfact_lines_ok(default_fact());
        let b = scaffold_body(ss);
        assert forall|i: int| 0 <= i < b.len() implies scaffold_line(#[trigger] b[i]) by {
            if i > 0 {
                assert(b[i] == d[i - 1]);
            }
        }
        lemma_nonblank_concat(seq![Seq::<char>::empty()], d);
        assert(seq![Seq::<char>::empty()].drop_first() =~= Seq::<Seq<char>>::empty());
        lemma_nonblank_full(d);
        let one = seq![default_fact()];
        assert(one.drop_last() =~= Seq::<crate::init::SFactV>::empty());
        assert(one.last() == default_fact());
        assert(facts_lines(Seq::<crate::init::SFactV>::empty()) == Seq::<Seq<char>>::empty());
        assert(facts_lines(one) =~= d);
        assert(nonblank(Seq::<Seq<char>>::empty()) == Seq::<Seq<char>>::empty());
        assert(nonblank(seq![Seq::<char>::empty()]) == Seq::<Seq<char>>::empty());
        assert(b =~= seq![Seq::<char>::empty()] + d);
        assert(nonblank(b) =~= facts_lines(scaffold_facts(ss)));
    } else {
        lemma_stacks_lines(ss);
        lemma_stacks_facts_ok(ss);
    }
}

proof fn lemma_stacks_facts_ok(ss: Seq<crate::init::StackV>)
    requires
        stacks_ok(ss),
    ensures
        forall|j: int| 0 <= j < stacks_facts(ss).len() ==> scaffold_fact_ok(#[trigger] stacks_facts(ss)[j]),
    decreases ss.len(),
{
    if ss.len() > 0 {
        let d = ss.drop_last();
        assert forall|i: int, j: int| 0 <= i < d.len() && 0 <= j < d[i].facts.len() implies scaffold_fact_ok(
            #[trigger] d[i].facts[j],
        ) by {
            assert(d[i] == ss[i]);
        }
        lemma_stacks_facts_ok(d);
        let a = stacks_facts(d);
        let last = ss.last();
        assert forall|j: int| 0 <= j < stacks_facts(ss).len() implies scaffold_fact_ok(#[trigger] stacks_facts(ss)[j]) by {
            if j < a.len() {
                assert(stacks_facts(ss)[j] == a[j]);
            } else {
                assert(stacks_facts(ss)[j] == last.facts[j - a.len()]);
                assert(last == ss[ss.len() - 1]);
            }
        }
    }
}

/// The scaffolded file parses to one section titled `project`, of depth one,
/// with no subsection and no fact before it, whose facts are the stacks'
/// facts in order (or the default fact when no stack is found), each with its
/// label and command, when those read back as written (`scaffold_fact_ok`).
pub proof fn law_scaffold_parses(stacks: Seq<crate::init::StackV>, filename: Seq<char>)
    requires
        stacks_ok(stacks),
    ensures
        parse_spec(crate::init::facts_content(stacks), filename) matches Ok(sh) && {
            &&& sh.preamble.len() == 0
            &&& sh.sections.len() == 1
            &&& sh.sections[0].title == project_title()
            &&& sh.sections[0].depth == 1
            &&& sh.sections[0].children.len() == 0
            &&& sh.sections[0].facts.len() == scaffold_facts(stacks).len()
            &&& forall|j: int|
                0 <= j < scaffold_facts(stacks).len() ==> (#[trigger] sh.sections[0].facts[j]).label == scaffold_facts(
                    stacks,
                )[j].0 && sh.sections[0].facts[j].command == scaffold_facts(stacks)[j].1
        },
{
    let ff = scaffold_facts(stacks);
    let body = scaffold_body(stacks);
    let ls = seq![project_line()] + body;
    lemma_scaffold_text(stacks);
    lemma_scaffold_body(stacks);
    lemma_project_heading();
    assert forall|i: int| 0 <= i < ls.len() implies one_line(#[trigger] ls[i]) by {
        if i > 0 {
            assert(ls[i] == body[i - 1]);
            assert(scaffold_line(body[i - 1]));
        }
    }
    lemma_lines_of_text(ls);
    let c = crate::init::facts_content(stacks);
    assert(c[0] == '#') by {
        assert(lines_text(ls) == ls[0] + seq!['\n'] + lines_text(ls.drop_first()));
    }
    assert(strip_bom(c) == c);
    let h = crate::parser::HeadingV { title: project_title(), depth: 1, raw: project_line(), blanks: 0 };
    assert(ls.drop_first() =~= body);
    assert(items(ls, 0) == seq![ItemV::Heading(h)] + items(body, 0));
    lemma_items_group(body, 0);
    let fls = group(items(body, 0)).0;
    let its = items(ls, 0);
    assert(its.drop_first() =~= items(body, 0));
    assert(group(its) == (Seq::<FactLineV>::empty(), seq![SecBlockV { head: h, body: fls }] + Seq::<SecBlockV>::empty()));
    assert(seq![SecBlockV { head: h, body: fls }] + Seq::<SecBlockV>::empty() =~= seq![SecBlockV { head: h, body: fls }]);
    assert(entries_from(Seq::<FactLineV>::empty(), Seq::<EntryV>::empty()) == Ok::<Seq<EntryV>, Seq<char>>(Seq::<EntryV>::empty()));
    assert(entries_facts(Seq::<EntryV>::empty()) == Ok::<Seq<FactV>, crate::parser::FactErrV>(Seq::<FactV>::empty()));
    assert(body_facts(Seq::<FactLineV>::empty()) == Ok::<Seq<FactV>, crate::parser::FactErrV>(Seq::<FactV>::empty()));
    lemma_entries_all(fls, Seq::<EntryV>::empty(), ff);
    let es = entries_from(fls, Seq::<EntryV>::empty())->Ok_0;
    assert forall|j: int| 0 <= j < es.len() implies entry_fact(#[trigger] es[j]) is Ok by {
        assert(es[0 + j].lines == sfact_lines(ff[j]));
        assert(es[j] == EntryV { lines: sfact_lines(ff[j]), blanks: es[j].blanks });
        lemma_entry_fact_ok(ff[j], es[j].blanks);
    }
    lemma_entries_facts_ok(es);
    let facts = entries_facts(es)->Ok_0;
    assert(body_facts(fls) == Ok::<Seq<FactV>, crate::parser::FactErrV>(facts));
    let blk = SecBlockV { head: h, body: fls };
    let sec = SectionV {
        title: project_title(),
        depth: 1,
        facts: facts,
        children: seq![],
        raw_heading: project_line(),
        blank_lines_before: 0,
    };
    assert(seq![blk].drop_first() =~= Seq::<SecBlockV>::empty());
    assert(block_sections(Seq::<SecBlockV>::empty()) == Ok::<Seq<SectionV>, crate::parser::ParseErrV>(Seq::<SectionV>::empty()));
    assert(seq![sec] + Seq::<SectionV>::empty() =~= seq![sec]);
    assert(block_sections(seq![blk]) == Ok::<Seq<SectionV>, crate::parser::ParseErrV>(seq![sec]));
    let flat = seq![sec];
    assert(subtree_len(flat.drop_first(), 1) == 0);
    assert(flat.subrange(1, 1) =~= Seq::<SectionV>::empty());
    assert(flat.skip(1) =~= Seq::<SectionV>::empty());
    assert(forest(Seq::<SectionV>::empty()) == Seq::<SectionV>::empty());
    assert(forest(flat) =~= seq![sec]);
    assert forall|j: int| 0 <= j < ff.len() implies (#[trigger] facts[j]).label == ff[j].0 && facts[j].command == ff[j].1 by {
        assert(es[0 + j].lines == sfact_lines(ff[j]));
        assert(es[j] == EntryV { lines: sfact_lines(ff[j]), blanks: es[j].blanks });
        lemma_entry_fact_ok(ff[j], es[j].blanks);
    }
}

} // verus!

verus! {

/// A word that stands alone: non-empty, no white space, no leading `@`.
pub open spec fn bare_word(w: Seq<char>) -> bool {
    w.len() > 0 && w[0] != '@' && forall|i: int| 0 <= i < w.len() ==> !crate::text::is_ws(#[trigger] w[i])
}

proof fn lemma_words_word(w: Seq<char>)
    requires
        bare_word(w),
    ensures
        crate::text::words(w) == seq![w],
        crate::text::words(seq![' '] + w) == seq![w],
{
    lemma_word_len_full(w);
    assert(!crate::text::is_ws(w[0]));
    assert(crate::text::trim_start(w) == w);
    assert(crate::text::is_ws(' '));
    assert((seq![' '] + w).drop_first() =~= w);
    assert(crate::text::trim_start(seq![' '] + w) == crate::text::trim_start(w));
    assert(w.take(w.len() as int) =~= w);
    assert(w.skip(w.len() as int) =~= Seq::<char>::empty());
    assert(crate::text::trim_start(Seq::<char>::empty()) == Seq::<char>::empty());
    assert(crate::text::words(Seq::<char>::empty()) == Seq::<Seq<char>>::empty());
    assert(crate::text::words(w) =~= seq![w]);
}

proof fn lemma_spaced_words(ws: Seq<Seq<char>>)
    requires
        ws.len() > 0,
        forall|i: int| 0 <= i < ws.len() ==> bare_word(#[trigger] ws[i]),
    ensures
        crate::text::words(join(ws, seq![' '])) == ws,
        crate::parser::plain_words(ws) == ws,
        crate::parser::at_tags(ws) == Seq::<Seq<char>>::empty(),
        one_line(join(ws, seq![' '])),
        join(ws, seq![' '])[0] == ws[0][0],
    decreases ws.len(),
{
    assert(bare_word(ws[0]));
    if ws.len() == 1 {
        lemma_words_word(ws[0]);
        assert(join(ws, seq![' ']) == ws[0]);
        assert(ws =~= seq![ws[0]]);
        assert(ws.drop_first() =~= Seq::<Seq<char>>::empty());
        assert(!crate::parser::is_at_word(ws[0]));
        assert(crate::parser::plain_words(ws.drop_first()) == Seq::<Seq<char>>::empty());
        assert(crate::parser::at_tags(ws.drop_first()) == Seq::<Seq<char>>::empty());
        assert(crate::parser::plain_words(ws) =~= ws);
        assert(crate::parser::at_tags(ws) =~= Seq::<Seq<char>>::empty());
        assert forall|i: int| 0 <= i < ws[0].len() implies #[trigger] ws[0][i] != '\n' && ws[0][i] != '\r' by {
            assert(!crate::text::is_ws(ws[0][i]));
        }
    } else {
        let d = ws.drop_last();
        let last = ws.last();
        assert forall|i: int| 0 <= i < d.len() implies bare_word(#[trigger] d[i]) by {
            assert(d[i] == ws[i]);
        }
        assert(bare_word(ws[ws.len() - 1]));
        lemma_spaced_words(d);
        lemma_words_word(last);
        let jd = join(d, seq![' ']);
        assert(join(ws, seq![' ']) == jd + seq![' '] + last);
        assert(join(ws, seq![' ']) =~= jd + (seq![' '] + last));
        crate::text::lemma_words_concat(jd, seq![' '] + last);
        assert(ws =~= d + seq![last]);
        crate::parser::lemma_words_split(d, seq![last]);
        assert(seq![last].drop_first() =~= Seq::<Seq<char>>::empty());
        assert(!crate::parser::is_at_word(last));
        assert(seq![last][0] == last);
        assert(crate::parser::plain_words(seq![last].drop_first()) == Seq::<Seq<char>>::empty());
        assert(crate::parser::at_tags(seq![last].drop_first()) == Seq::<Seq<char>>::empty());
        assert(crate::parser::plain_words(seq![last]) =~= seq![last]);
        assert(crate::parser::at_tags(seq![last]) =~= Seq::<Seq<char>>::empty());
        let j = join(ws, seq![' ']);
        assert forall|i: int| 0 <= i < j.len() implies #[trigger] j[i] != '\n' && j[i] != '\r' by {
            if i < jd.len() {
                assert(j[i] == jd[i]);
            } else if i > jd.len() {
                assert(j[i] == last[i - jd.len() - 1]);
                assert(!crate::text::is_ws(last[i - jd.len() - 1]));
            }
        }
        assert(j[0] == jd[0]);
    }
}

proof fn lemma_default_ok()
    ensures
        scaffold_fact_ok(default_fact()),
{
    reveal_strlit("project is set up and ready for development");
    let ws: Seq<Seq<char>> = seq![
        seq!['p', 'r', 'o', 'j', 'e', 'c', 't'],
        seq!['i', 's'],
        seq!['s', 'e', 't'],
        seq!['u', 'p'],
        seq!['a', 'n', 'd'],
        seq!['r', 'e', 'a', 'd', 'y'],
        seq!['f', 'o', 'r'],
        seq!['d', 'e', 'v', 'e', 'l', 'o', 'p', 'm', 'e', 'n', 't'],
    ];
    assert forall|i: int| 0 <= i < ws.len() implies bare_word(#[trigger] ws[i]) by {
        assert forall|k: int| 0 <= k < ws[i].len() implies !crate::text::is_ws(#[trigger] ws[i][k]) by {
            assert(ws[i][k] != ' ');
        }
    }
    lemma_spaced_words(ws);
    let s = join(ws, seq![' ']);
    reveal_with_fuel(join, 9);
    assert(s =~= default_fact().0);
    assert(s[0] == 'p');
    let kl = crate::parser::key_colon(key_label());
    let kc = crate::parser::key_colon(key_command());
    let ki = crate::parser::key_colon(key_id());
    let kt = crate::parser::key_colon(key_tags());
    lemma_not_prefix(s, kl);
    lemma_not_prefix(s, kc);
    lemma_not_prefix(s, ki);
    lemma_not_prefix(s, kt);
    assert(!crate::parser::is_mapping_line(s));
}

} // verus!
