//! Parser for .facts files.
//!
//! Strategy: extract headings as structure first, then parse each section's
//! body lines as YAML sequence items.
use vstd::prelude::*;
use crate::model::{
    facts_view, lemma_section_children, secs_view, section_view, strings_view, Fact, FactSheet, FactV, Section, SectionV, SheetV,
};
use crate::text::{
    all_ws, find, find_char, has_prefix, join, join_with, lines, same, slice_of, split_char, split_words,
    chars_of, contains_seq, find_ch, find_seq, is_blank, lemma_skip_drop_first, opt_string_of, split_lines, split_on, string_of, strings_of, starts_with, trim, trim_start, trimmed, trimmed_start, vv, words,
};

verus! {

// ---------------------------------------------------------------------------
// Keywords
// ---------------------------------------------------------------------------

pub open spec fn dash_space() -> Seq<char> { seq!['-', ' '] }
pub open spec fn dash() -> Seq<char> { seq!['-'] }
pub open spec fn two_spaces() -> Seq<char> { seq![' ', ' '] }
pub open spec fn colon_space() -> Seq<char> { seq![':', ' '] }
pub open spec fn newline() -> Seq<char> { seq!['\n'] }
pub open spec fn single_space() -> Seq<char> { seq![' '] }
pub open spec fn key_label() -> Seq<char> { seq!['l', 'a', 'b', 'e', 'l'] }
pub open spec fn key_command() -> Seq<char> { seq!['c', 'o', 'm', 'm', 'a', 'n', 'd'] }
pub open spec fn key_id() -> Seq<char> { seq!['i', 'd'] }
pub open spec fn key_tags() -> Seq<char> { seq!['t', 'a', 'g', 's'] }

/// `key` followed by a colon.
pub open spec fn key_colon(key: Seq<char>) -> Seq<char> { key.push(':') }

/// `key` followed by a colon and a space.
pub open spec fn key_colon_space(key: Seq<char>) -> Seq<char> { key.push(':').push(' ') }

/// One of the four mapping keys.
pub open spec fn is_known_key(k: Seq<char>) -> bool {
    k == key_label() || k == key_command() || k == key_id() || k == key_tags()
}

/// Starts with one of `label:`, `command:`, `id:`, `tags:`.
pub open spec fn starts_with_known_key(s: Seq<char>) -> bool {
    starts_with(s, key_colon(key_label())) || starts_with(s, key_colon(key_command()))
        || starts_with(s, key_colon(key_id())) || starts_with(s, key_colon(key_tags()))
}

/// A line's content after one leading `- `, if it has one.
pub open spec fn strip_dash(l: Seq<char>) -> Seq<char> {
    if starts_with(l, dash_space()) { l.skip(2) } else { l }
}

// ---------------------------------------------------------------------------
// Inline tags
// ---------------------------------------------------------------------------

/// Whether a word is an inline tag marker (starts with `@`).
pub open spec fn is_at_word(w: Seq<char>) -> bool {
    w.len() > 0 && w[0] == '@'
}

/// The words of a label that are not `@` words.
pub open spec fn plain_words(ws: Seq<Seq<char>>) -> Seq<Seq<char>>
    decreases ws.len(),
{
    if ws.len() == 0 {
        seq![]
    } else if is_at_word(ws[0]) {
        plain_words(ws.drop_first())
    } else {
        seq![ws[0]] + plain_words(ws.drop_first())
    }
}

/// The tags named by the `@` words (every leading `@` removed; a word of `@`
/// alone names none).
pub open spec fn at_tags(ws: Seq<Seq<char>>) -> Seq<Seq<char>>
    decreases ws.len(),
{
    if ws.len() == 0 {
        seq![]
    } else if is_at_word(ws[0]) && crate::lint::strip_ats(ws[0]).len() > 0 {
        seq![crate::lint::strip_ats(ws[0])] + at_tags(ws.drop_first())
    } else {
        at_tags(ws.drop_first())
    }
}

/// The label of `s` with its `@` words removed and words joined by one space.
pub open spec fn inline_label(s: Seq<char>) -> Seq<char> {
    join(plain_words(words(s)), single_space())
}

/// The tags written inline in `s` as `@tag` words.
pub open spec fn inline_tags(s: Seq<char>) -> Seq<Seq<char>> {
    at_tags(words(s))
}

// ---------------------------------------------------------------------------
// Headings
// ---------------------------------------------------------------------------

/// Number of leading `#` characters.
pub open spec fn hash_run(s: Seq<char>) -> nat
    decreases s.len(),
{
    if s.len() > 0 && s[0] == '#' { 1 + hash_run(s.drop_first()) } else { 0 }
}

/// `Some((depth, title))` when `line` is a heading: optional leading white space,
/// one or more `#`, then a title that is not blank.
pub open spec fn heading(line: Seq<char>) -> Option<(nat, Seq<char>)> {
    let t = trim_start(line);
    if t.len() > 0 && t[0] == '#' {
        let d = hash_run(t);
        let rest = trim(t.skip(d as int));
        if rest.len() == 0 { None } else { Some((d, rest)) }
    } else {
        None
    }
}

// ---------------------------------------------------------------------------
// Lines into items and blocks
// ---------------------------------------------------------------------------

/// A line of a fact body with the count of blank lines just before it.
pub struct FactLineV {
    pub raw: Seq<char>,
    pub blanks: nat,
}

/// A heading line with its title, depth and preceding blank lines.
pub struct HeadingV {
    pub title: Seq<char>,
    pub depth: nat,
    pub raw: Seq<char>,
    pub blanks: nat,
}

/// A non-blank line of the file.
pub enum ItemV {
    Heading(HeadingV),
    Body(FactLineV),
}

/// The non-blank lines of `ls`, classified, each with the number of blank
/// lines right before it (`blanks` counts those seen before `ls` starts).
pub open spec fn items(ls: Seq<Seq<char>>, blanks: nat) -> Seq<ItemV>
    decreases ls.len(),
{
    if ls.len() == 0 {
        seq![]
    } else if all_ws(ls[0]) {
        items(ls.drop_first(), blanks + 1)
    } else {
        match heading(ls[0]) {
            Some((d, t)) => seq![ItemV::Heading(HeadingV { title: t, depth: d, raw: ls[0], blanks })]
                + items(ls.drop_first(), 0),
            None => seq![ItemV::Body(FactLineV { raw: ls[0], blanks })] + items(ls.drop_first(), 0),
        }
    }
}

/// A section block: its heading and its body lines.
pub struct SecBlockV {
    pub head: HeadingV,
    pub body: Seq<FactLineV>,
}

/// The body lines before the first heading, and the section blocks.
pub open spec fn group(its: Seq<ItemV>) -> (Seq<FactLineV>, Seq<SecBlockV>)
    decreases its.len(),
{
    if its.len() == 0 {
        (seq![], seq![])
    } else {
        let (pre, secs) = group(its.drop_first());
        match its[0] {
            ItemV::Body(fl) => (seq![fl] + pre, secs),
            ItemV::Heading(h) => (seq![], seq![SecBlockV { head: h, body: pre }] + secs),
        }
    }
}

// ---------------------------------------------------------------------------
// Body lines into entries
// ---------------------------------------------------------------------------

/// The lines of one fact entry and the blank lines before it.
pub struct EntryV {
    pub lines: Seq<Seq<char>>,
    pub blanks: nat,
}

/// Whether a body line starts a new fact (`- ...` or a lone `-`).
pub open spec fn starts_entry(l: Seq<char>) -> bool {
    starts_with(l, dash_space()) || l == dash()
}

/// Groups body lines into entries after those in `acc`; a line that neither
/// starts an entry nor continues one (two-space indent) is returned as the error.
pub open spec fn entries_from(fls: Seq<FactLineV>, acc: Seq<EntryV>) -> Result<Seq<EntryV>, Seq<char>>
    decreases fls.len(),
{
    if fls.len() == 0 {
        Ok(acc)
    } else {
        let l = fls[0].raw;
        if starts_entry(l) {
            entries_from(fls.drop_first(), acc.push(EntryV { lines: seq![l], blanks: fls[0].blanks }))
        } else if starts_with(l, two_spaces()) && acc.len() > 0 {
            let last = acc.last();
            entries_from(
                fls.drop_first(),
                acc.update(acc.len() - 1, EntryV { lines: last.lines.push(l), blanks: last.blanks }),
            )
        } else {
            Err(l)
        }
    }
}

// ---------------------------------------------------------------------------
// Facts
// ---------------------------------------------------------------------------

/// Why a fact could not be parsed.
pub enum FactErrV {
    UnexpectedLine(Seq<char>),
    EmptyLabel,
    UnknownKey(Seq<char>),
    MissingLabel,
}

/// Whether single-line content is written as a mapping: it starts with a known
/// key and a colon, or it is `{...}` whose content starts with a known key.
pub open spec fn is_mapping_line(content: Seq<char>) -> bool {
    starts_with_known_key(content) || (content.len() >= 2 && content[0] == '{'
        && content.last() == '}' && starts_with_known_key(
        trim_start(content.subrange(1, content.len() - 1)),
    ))
}

/// The fields collected while reading a mapping fact.
pub struct MapState {
    pub label: Option<Seq<char>>,
    pub command: Option<Seq<char>>,
    pub id: Option<Seq<char>>,
    pub tags: Seq<Seq<char>>,
}

/// The trimmed, non-empty pieces.
pub open spec fn nonempty_trims(parts: Seq<Seq<char>>) -> Seq<Seq<char>>
    decreases parts.len(),
{
    if parts.len() == 0 {
        seq![]
    } else if trim(parts[0]).len() > 0 {
        seq![trim(parts[0])] + nonempty_trims(parts.drop_first())
    } else {
        nonempty_trims(parts.drop_first())
    }
}

/// The tags of a `tags:` value written `[a, b]`; no tags otherwise.
pub open spec fn bracket_tags(val: Seq<char>) -> Seq<Seq<char>> {
    let v = trim(val);
    if v.len() >= 2 && v[0] == '[' && v.last() == ']' {
        nonempty_trims(split_char(v.subrange(1, v.len() - 1), ','))
    } else {
        seq![]
    }
}

/// Reads one `key: value` line of a mapping fact.
pub open spec fn kv_step(st: MapState, kv: Seq<char>) -> Result<MapState, FactErrV> {
    if starts_with(kv, key_colon_space(key_label())) {
        let v = kv.skip(7);
        Ok(MapState { label: Some(inline_label(v)), tags: st.tags + inline_tags(v), ..st })
    } else if starts_with(kv, key_colon(key_label())) && trim(kv) == key_colon(key_label()) {
        Err(FactErrV::EmptyLabel)
    } else if starts_with(kv, key_colon_space(key_command())) {
        Ok(MapState { command: Some(kv.skip(9)), ..st })
    } else if starts_with(kv, key_colon_space(key_id())) {
        Ok(MapState { id: Some(kv.skip(4)), ..st })
    } else if starts_with(kv, key_colon_space(key_tags())) {
        Ok(MapState { tags: st.tags + bracket_tags(kv.skip(6)), ..st })
    } else if kv.len() > 0 {
        match find(kv, colon_space()) {
            Some(p) => {
                let key = kv.take(p as int);
                if find_char(key, ' ') is None && !is_known_key(key) {
                    Err(FactErrV::UnknownKey(key))
                } else {
                    Ok(st)
                }
            },
            None => Ok(st),
        }
    } else {
        Ok(st)
    }
}

/// Reads the `key: value` lines in order; the first refused line stops it.
pub open spec fn kv_fold(st: MapState, kvs: Seq<Seq<char>>) -> Result<MapState, FactErrV>
    decreases kvs.len(),
{
    if kvs.len() == 0 {
        Ok(st)
    } else {
        match kv_step(st, kvs[0]) {
            Ok(st2) => kv_fold(st2, kvs.drop_first()),
            Err(e) => Err(e),
        }
    }
}

/// `s` with repeated entries removed, first occurrences kept in order, after `kept`.
pub open spec fn dedup_from(s: Seq<Seq<char>>, kept: Seq<Seq<char>>) -> Seq<Seq<char>>
    decreases s.len(),
{
    if s.len() == 0 {
        kept
    } else if kept.contains(s[0]) {
        dedup_from(s.drop_first(), kept)
    } else {
        dedup_from(s.drop_first(), kept.push(s[0]))
    }
}

/// The key-value lines of a mapping fact: the first line without `- `,
/// the others without leading white space.
pub open spec fn kv_lines(lines: Seq<Seq<char>>) -> Seq<Seq<char>> {
    seq![strip_dash(lines[0])] + lines.drop_first().map_values(|l: Seq<char>| trim_start(l))
}

/// The fields before any key is read.
pub open spec fn map_state0() -> MapState {
    MapState { label: None, command: None, id: None, tags: seq![] }
}

/// The fact a mapping entry denotes.
pub open spec fn mapping_fact(lines: Seq<Seq<char>>, blanks: nat) -> Result<FactV, FactErrV> {
    let st0 = map_state0();
    match kv_fold(st0, kv_lines(lines)) {
        Err(e) => Err(e),
        Ok(st) => match st.label {
            None => Err(FactErrV::MissingLabel),
            Some(label) => Ok(FactV {
                explicit_id: st.id,
                label,
                command: st.command,
                tags: dedup_from(st.tags, seq![]),
                is_plain: false,
                raw: join(lines, newline()),
                blank_lines_before: blanks,
            }),
        },
    }
}

/// The fact an entry denotes.
pub open spec fn entry_fact(e: EntryV) -> Result<FactV, FactErrV> {
    if e.lines.len() == 1 {
        let content = strip_dash(e.lines[0]);
        if is_mapping_line(content) {
            mapping_fact(e.lines, e.blanks)
        } else {
            Ok(FactV {
                explicit_id: None,
                label: inline_label(content),
                command: None,
                tags: inline_tags(content),
                is_plain: true,
                raw: e.lines[0],
                blank_lines_before: e.blanks,
            })
        }
    } else {
        mapping_fact(e.lines, e.blanks)
    }
}

/// The facts of the entries, or the error of the first that fails.
pub open spec fn entries_facts(es: Seq<EntryV>) -> Result<Seq<FactV>, FactErrV>
    decreases es.len(),
{
    if es.len() == 0 {
        Ok(seq![])
    } else {
        match entry_fact(es[0]) {
            Err(e) => Err(e),
            Ok(f) => match entries_facts(es.drop_first()) {
                Err(e) => Err(e),
                Ok(fs) => Ok(seq![f] + fs),
            },
        }
    }
}

/// The facts of a block body.
pub open spec fn body_facts(fls: Seq<FactLineV>) -> Result<Seq<FactV>, FactErrV> {
    match entries_from(fls, seq![]) {
        Err(l) => Err(FactErrV::UnexpectedLine(l)),
        Ok(es) => entries_facts(es),
    }
}

// ---------------------------------------------------------------------------
// Sections and the sheet
// ---------------------------------------------------------------------------

/// Where a parse error was found.
pub enum ContextV {
    Preamble,
    Section(Seq<char>),
}

pub struct ParseErrV {
    pub context: ContextV,
    pub cause: FactErrV,
}

/// The flat sections of the blocks (no children yet), or the first error.
pub open spec fn block_sections(bs: Seq<SecBlockV>) -> Result<Seq<SectionV>, ParseErrV>
    decreases bs.len(),
{
    if bs.len() == 0 {
        Ok(seq![])
    } else {
        let b = bs[0];
        match body_facts(b.body) {
            Err(e) => Err(ParseErrV { context: ContextV::Section(b.head.title), cause: e }),
            Ok(fs) => match block_sections(bs.drop_first()) {
                Err(e) => Err(e),
                Ok(rest) => Ok(seq![SectionV {
                    title: b.head.title,
                    depth: b.head.depth,
                    facts: fs,
                    children: seq![],
                    raw_heading: b.head.raw,
                    blank_lines_before: b.head.blanks,
                }] + rest),
            },
        }
    }
}

/// Number of sections after the first that are deeper than it (its subtree).
pub open spec fn subtree_len(flat: Seq<SectionV>, d: nat) -> nat
    decreases flat.len(),
{
    if flat.len() == 0 || flat[0].depth <= d {
        0
    } else {
        1 + subtree_len(flat.drop_first(), d)
    }
}

/// The tree of flat sections: each section's children are the sections after
/// it that are deeper, up to the next one that is not.
pub open spec fn forest(flat: Seq<SectionV>) -> Seq<SectionV>
    decreases flat.len(),
{
    if flat.len() == 0 {
        seq![]
    } else {
        let n = subtree_len(flat.drop_first(), flat[0].depth);
        if n + 1 <= flat.len() {
            let kids = forest(flat.subrange(1, n as int + 1));
            seq![SectionV { children: kids, ..flat[0] }] + forest(flat.skip(n as int + 1))
        } else {
            seq![]
        }
    }
}

/// The sections of a tree in file order (each before its children, children
/// before the next sibling), each with its children left out.
pub open spec fn preorder(ss: Seq<SectionV>) -> Seq<SectionV>
    decreases ss,
{
    if ss.len() == 0 {
        seq![]
    } else {
        proof {
            assert(decreases_to!(ss => ss[0]));
        }
        seq![SectionV { children: seq![], ..ss[0] }] + preorder(ss[0].children) + preorder(ss.drop_first())
    }
}

/// Every section in `ss`, and every section below them, is deeper than `d`,
/// and each section's children are deeper than it.
pub open spec fn deeper_than(ss: Seq<SectionV>, d: nat) -> bool
    decreases ss,
{
    if ss.len() == 0 {
        true
    } else {
        proof {
            assert(decreases_to!(ss => ss[0]));
        }
        ss[0].depth > d && deeper_than(ss[0].children, ss[0].depth) && deeper_than(ss.drop_first(), d)
    }
}

/// Each section of the tree has children deeper than itself, at every level.
pub open spec fn nested(ss: Seq<SectionV>) -> bool
    decreases ss,
{
    if ss.len() == 0 {
        true
    } else {
        proof {
            assert(decreases_to!(ss => ss[0]));
        }
        deeper_than(ss[0].children, ss[0].depth) && nested(ss.drop_first())
    }
}

proof fn lemma_subtree_len(flat: Seq<SectionV>, d: nat)
    ensures
        subtree_len(flat, d) <= flat.len(),
        forall|i: int| 0 <= i < subtree_len(flat, d) ==> #[trigger] flat[i].depth > d,
    decreases flat.len(),
{
    if flat.len() > 0 && flat[0].depth > d {
        lemma_subtree_len(flat.drop_first(), d);
        assert forall|i: int| 0 <= i < subtree_len(flat, d) implies #[trigger] flat[i].depth > d by {
            if i > 0 {
                assert(flat[i] == flat.drop_first()[i - 1]);
            }
        }
    }
}

proof fn lemma_forest_deeper(flat: Seq<SectionV>, d: nat)
    requires
        forall|i: int| 0 <= i < flat.len() ==> #[trigger] flat[i].depth > d,
    ensures
        deeper_than(forest(flat), d),
    decreases flat.len(),
{
    if flat.len() > 0 {
        let n = subtree_len(flat.drop_first(), flat[0].depth);
        lemma_subtree_len(flat.drop_first(), flat[0].depth);
        let kids = flat.subrange(1, n as int + 1);
        let rest = flat.skip(n as int + 1);
        assert forall|i: int| 0 <= i < kids.len() implies #[trigger] kids[i].depth > flat[0].depth by {
            assert(kids[i] == flat.drop_first()[i]);
        }
        assert forall|i: int| 0 <= i < rest.len() implies #[trigger] rest[i].depth > d by {
            assert(rest[i] == flat[n + 1 + i]);
        }
        lemma_forest_deeper(kids, flat[0].depth);
        lemma_forest_deeper(rest, d);
        let f = forest(flat);
        assert(f[0].children == forest(kids));
        assert(f.drop_first() =~= forest(rest));
    }
}

proof fn lemma_forest_nested(flat: Seq<SectionV>)
    ensures
        nested(forest(flat)),
    decreases flat.len(),
{
    if flat.len() > 0 {
        let n = subtree_len(flat.drop_first(), flat[0].depth);
        lemma_subtree_len(flat.drop_first(), flat[0].depth);
        let kids = flat.subrange(1, n as int + 1);
        let rest = flat.skip(n as int + 1);
        assert forall|i: int| 0 <= i < kids.len() implies #[trigger] kids[i].depth > flat[0].depth by {
            assert(kids[i] == flat.drop_first()[i]);
        }
        lemma_forest_deeper(kids, flat[0].depth);
        lemma_forest_nested(rest);
        let f = forest(flat);
        assert(f[0].children == forest(kids));
        assert(f.drop_first() =~= forest(rest));
    }
}

proof fn lemma_forest_preorder(flat: Seq<SectionV>)
    requires
        forall|i: int| 0 <= i < flat.len() ==> (#[trigger] flat[i]).children.len() == 0,
    ensures
        preorder(forest(flat)) == flat,
    decreases flat.len(),
{
    if flat.len() > 0 {
        let n = subtree_len(flat.drop_first(), flat[0].depth);
        lemma_subtree_len(flat.drop_first(), flat[0].depth);
        let kids = flat.subrange(1, n as int + 1);
        let rest = flat.skip(n as int + 1);
        assert forall|i: int| 0 <= i < kids.len() implies (#[trigger] kids[i]).children.len() == 0 by {
            assert(kids[i] == flat[i + 1]);
        }
        assert forall|i: int| 0 <= i < rest.len() implies (#[trigger] rest[i]).children.len() == 0 by {
            assert(rest[i] == flat[n + 1 + i]);
        }
        lemma_forest_preorder(kids);
        lemma_forest_preorder(rest);
        let f = forest(flat);
        assert(f[0].children == forest(kids));
        assert(f.drop_first() =~= forest(rest));
        assert(flat[0].children =~= seq![]);
        assert(SectionV { children: seq![], ..f[0] } == flat[0]);
        assert(flat =~= seq![flat[0]] + kids + rest);
    }
}

proof fn lemma_block_sections_flat(bs: Seq<SecBlockV>)
    requires
        block_sections(bs) is Ok,
    ensures
        block_sections(bs)->Ok_0.len() == bs.len(),
        forall|i: int| 0 <= i < bs.len() ==> {
            let s = #[trigger] block_sections(bs)->Ok_0[i];
            &&& s.children.len() == 0
            &&& s.title == bs[i].head.title
            &&& s.depth == bs[i].head.depth
        },
    decreases bs.len(),
{
    if bs.len() > 0 {
        lemma_block_sections_flat(bs.drop_first());
        let r = block_sections(bs)->Ok_0;
        let rest = block_sections(bs.drop_first())->Ok_0;
        assert forall|i: int| 0 <= i < bs.len() implies {
            let s = #[trigger] block_sections(bs)->Ok_0[i];
            &&& s.children.len() == 0
            &&& s.title == bs[i].head.title
            &&& s.depth == bs[i].head.depth
        } by {
            if i > 0 {
                assert(r[i] == rest[i - 1]);
                assert(bs[i] == bs.drop_first()[i - 1]);
            }
        }
    }
}

/// Sections nest by heading depth in file order: in a parsed sheet each
/// section's children are deeper than it, at every level, and the sections
/// listed in order, each before its children, are the headings of the file in
/// the order they occur, with their titles and depths.
pub proof fn law_sections_nest_in_file_order(content: Seq<char>, filename: Seq<char>)
    requires
        parse_spec(content, filename) is Ok,
    ensures
        ({
            let secs = parse_spec(content, filename)->Ok_0.sections;
            let blocks = group(items(lines(strip_bom(content)), 0)).1;
            &&& nested(secs)
            &&& preorder(secs).len() == blocks.len()
            &&& forall|i: int| 0 <= i < blocks.len() ==> {
                &&& (#[trigger] preorder(secs)[i]).title == blocks[i].head.title
                &&& preorder(secs)[i].depth == blocks[i].head.depth
            }
        }),
{
    let blocks = group(items(lines(strip_bom(content)), 0)).1;
    lemma_block_sections_flat(blocks);
    let flat = block_sections(blocks)->Ok_0;
    lemma_forest_nested(flat);
    lemma_forest_preorder(flat);
}

/// `content` without one leading byte order mark.
pub open spec fn strip_bom(content: Seq<char>) -> Seq<char> {
    if content.len() > 0 && content[0] == '\u{FEFF}' { content.drop_first() } else { content }
}

/// The sheet a file's content denotes, or the first error.
pub open spec fn parse_spec(content: Seq<char>, filename: Seq<char>) -> Result<SheetV, ParseErrV> {
    let (pre, blocks) = group(items(lines(strip_bom(content)), 0));
    match body_facts(pre) {
        Err(e) => Err(ParseErrV { context: ContextV::Preamble, cause: e }),
        Ok(pf) => match block_sections(blocks) {
            Err(e) => Err(e),
            Ok(flat) => Ok(SheetV { filename, preamble: pf, sections: forest(flat) }),
        },
    }
}

} // verus!

verus! {

// ---------------------------------------------------------------------------
// Executable keywords
// ---------------------------------------------------------------------------

pub(crate) fn kw_dash_space() -> (r: Vec<char>) ensures r@ == dash_space() { vec!['-', ' '] }
pub(crate) fn kw_two_spaces() -> (r: Vec<char>) ensures r@ == two_spaces() { vec![' ', ' '] }
pub(crate) fn kw_colon_space() -> (r: Vec<char>) ensures r@ == colon_space() { vec![':', ' '] }
pub(crate) fn kw_label_colon() -> (r: Vec<char>) ensures r@ == key_colon(key_label()) {
    vec!['l', 'a', 'b', 'e', 'l', ':']
}
pub(crate) fn kw_command_colon() -> (r: Vec<char>) ensures r@ == key_colon(key_command()) {
    vec!['c', 'o', 'm', 'm', 'a', 'n', 'd', ':']
}
pub(crate) fn kw_id_colon() -> (r: Vec<char>) ensures r@ == key_colon(key_id()) {
    vec!['i', 'd', ':']
}
pub(crate) fn kw_tags_colon() -> (r: Vec<char>) ensures r@ == key_colon(key_tags()) {
    vec!['t', 'a', 'g', 's', ':']
}
pub(crate) fn kw_label_cs() -> (r: Vec<char>) ensures r@ == key_colon_space(key_label()) {
    vec!['l', 'a', 'b', 'e', 'l', ':', ' ']
}
pub(crate) fn kw_command_cs() -> (r: Vec<char>) ensures r@ == key_colon_space(key_command()) {
    vec!['c', 'o', 'm', 'm', 'a', 'n', 'd', ':', ' ']
}
pub(crate) fn kw_id_cs() -> (r: Vec<char>) ensures r@ == key_colon_space(key_id()) {
    vec!['i', 'd', ':', ' ']
}
pub(crate) fn kw_tags_cs() -> (r: Vec<char>) ensures r@ == key_colon_space(key_tags()) {
    vec!['t', 'a', 'g', 's', ':', ' ']
}

/// Whether `k` is one of the four mapping keys.
pub(crate) fn known_key(k: &[char]) -> (b: bool)
    ensures
        b == is_known_key(k@),
{
    let l = vec!['l', 'a', 'b', 'e', 'l'];
    let c = vec!['c', 'o', 'm', 'm', 'a', 'n', 'd'];
    let i = vec!['i', 'd'];
    let t = vec!['t', 'a', 'g', 's'];
    same(k, l.as_slice()) || same(k, c.as_slice()) || same(k, i.as_slice()) || same(k, t.as_slice())
}

/// Whether `s` starts with one of `label:`, `command:`, `id:`, `tags:`.
pub(crate) fn has_known_key_prefix(s: &[char]) -> (b: bool)
    ensures
        b == starts_with_known_key(s@),
{
    has_prefix(s, kw_label_colon().as_slice()) || has_prefix(s, kw_command_colon().as_slice())
        || has_prefix(s, kw_id_colon().as_slice()) || has_prefix(s, kw_tags_colon().as_slice())
}

/// The content of a line after one leading `- `.
pub(crate) fn without_dash(l: &[char]) -> (r: Vec<char>)
    ensures
        r@ =~= strip_dash(l@),
{
    if has_prefix(l, kw_dash_space().as_slice()) {
        slice_of(l, 2, l.len())
    } else {
        slice_of(l, 0, l.len())
    }
}

// ---------------------------------------------------------------------------
// Inline tags
// ---------------------------------------------------------------------------

/// Splits words into the plain words and the inline tags.
fn partition_words(ws: &Vec<Vec<char>>) -> (r: (Vec<Vec<char>>, Vec<Vec<char>>))
    ensures
        vv(r.0@) =~= plain_words(vv(ws@)),
        vv(r.1@) =~= at_tags(vv(ws@)),
{
    let mut parts: Vec<Vec<char>> = Vec::new();
    let mut tags: Vec<Vec<char>> = Vec::new();
    let mut i = ws.len();
    assert(vv(ws@).skip(i as int) =~= seq![]);
    while i > 0
        invariant
            i <= ws@.len(),
            vv(parts@) =~= plain_words(vv(ws@).skip(i as int)),
            vv(tags@) =~= at_tags(vv(ws@).skip(i as int)),
        decreases i,
    {
        i -= 1;
        let w = &ws[i];
        let ghost s = vv(ws@).skip(i as int);
        proof {
            assert(s.drop_first() =~= vv(ws@).skip(i + 1));
            assert(s[0] == w@);
        }
        if w.len() > 0 && w[0] == '@' {
            let t = crate::lint::without_ats(w.as_slice());
            if t.len() > 0 {
                let ghost old_tags = vv(tags@);
                tags.insert(0, t);
                proof {
                    assert(vv(tags@) =~= seq![t@] + old_tags);
                }
            }
        } else {
            let ghost old_parts = vv(parts@);
            parts.insert(0, w.clone());
            proof {
                assert(vv(parts@) =~= seq![w@] + old_parts);
            }
        }
    }
    assert(vv(ws@).skip(0) =~= vv(ws@));
    (parts, tags)
}

/// The label of `s` without its `@tag` words, and the inline tags.
pub(crate) fn inline_parts(s: &[char]) -> (r: (Vec<char>, Vec<Vec<char>>))
    ensures
        r.0@ =~= inline_label(s@),
        vv(r.1@) =~= inline_tags(s@),
{
    let ws = split_words(s);
    let (parts, tags) = partition_words(&ws);
    let sp = vec![' '];
    assert(sp@ =~= single_space());
    let label = join_with(&parts, sp.as_slice());
    (label, tags)
}

} // verus!

verus! {

// ---------------------------------------------------------------------------
// Headings, items and blocks
// ---------------------------------------------------------------------------

/// The depth and title of a heading line, on characters.
fn heading_chars(line: &[char]) -> (r: Option<(usize, Vec<char>)>)
    ensures
        match (r, heading(line@)) {
            (Some((d, t)), Some((sd, st))) => d == sd && t@ == st,
            (None, None) => true,
            _ => false,
        },
{
    let ts = trimmed_start(line);
    if !(ts.len() > 0 && ts[0] == '#') {
        return None;
    }
    let n = ts.len();
    let mut depth: usize = 0;
    assert(ts@.skip(0) =~= ts@);
    while depth < n && ts[depth] == '#'
        invariant
            n == ts@.len(),
            depth <= n,
            hash_run(ts@) == depth + hash_run(ts@.skip(depth as int)),
        decreases n - depth,
    {
        proof {
            lemma_skip_drop_first(ts@, depth as int);
        }
        depth += 1;
    }
    proof {
        assert(ts@.skip(0) =~= ts@);
        if depth < n {
            assert(ts@.skip(depth as int)[0] == ts@[depth as int]);
        }
        assert(hash_run(ts@.skip(depth as int)) == 0);
    }
    let after = slice_of(ts.as_slice(), depth, n);
    let rest = trimmed(after.as_slice());
    if rest.len() == 0 {
        return None;
    }
    Some((depth, rest))
}

/// Parse a heading line. Returns (depth, title) if it's a heading.
pub fn parse_heading(line: &str) -> (r: Option<(usize, String)>)
    ensures
        match (r, heading(line@)) {
            (Some((d, t)), Some((sd, st))) => d == sd && t@ == st,
            (None, None) => true,
            _ => false,
        },
{
    let v = chars_of(line);
    match heading_chars(v.as_slice()) {
        Some((d, t)) => Some((d, string_of(t.as_slice()))),
        None => None,
    }
}

/// A raw fact line (may span multiple lines for mappings).
struct FactLine {
    raw: Vec<char>,
    blank_lines_before: usize,
}

impl View for FactLine {
    type V = FactLineV;

    closed spec fn view(&self) -> FactLineV {
        FactLineV { raw: self.raw@, blanks: self.blank_lines_before as nat }
    }
}

/// A heading with its title, depth, raw line and preceding blank lines.
struct Heading {
    title: Vec<char>,
    depth: usize,
    raw: Vec<char>,
    blank_lines_before: usize,
}

impl View for Heading {
    type V = HeadingV;

    closed spec fn view(&self) -> HeadingV {
        HeadingV {
            title: self.title@,
            depth: self.depth as nat,
            raw: self.raw@,
            blanks: self.blank_lines_before as nat,
        }
    }
}

/// A non-blank line, classified.
enum Item {
    Heading(Heading),
    Body(FactLine),
}

impl View for Item {
    type V = ItemV;

    closed spec fn view(&self) -> ItemV {
        match self {
            Item::Heading(h) => ItemV::Heading(h@),
            Item::Body(f) => ItemV::Body(f@),
        }
    }
}

/// Intermediate block representation: a section heading and its body lines.
struct Block {
    head: Heading,
    fact_lines: Vec<FactLine>,
}

impl View for Block {
    type V = SecBlockV;

    closed spec fn view(&self) -> SecBlockV {
        SecBlockV { head: self.head@, body: self.fact_lines@.map_values(|f: FactLine| f@) }
    }
}

spec fn items_view(v: Seq<Item>) -> Seq<ItemV> {
    v.map_values(|i: Item| i@)
}

spec fn lines_view(v: Seq<FactLine>) -> Seq<FactLineV> {
    v.map_values(|f: FactLine| f@)
}

spec fn blocks_view(v: Seq<Block>) -> Seq<SecBlockV> {
    v.map_values(|b: Block| b@)
}

/// Classifies the non-blank lines of a file.
fn line_items(lines: &Vec<Vec<char>>) -> (r: Vec<Item>)
    ensures
        items_view(r@) =~= items(vv(lines@), 0),
{
    let mut r: Vec<Item> = Vec::new();
    let mut blank_count: usize = 0;
    let mut i: usize = 0;
    assert(vv(lines@).skip(0) =~= vv(lines@));
    while i < lines.len()
        invariant
            i <= lines@.len(),
            blank_count <= i,
            items(vv(lines@), 0) =~= items_view(r@) + items(vv(lines@).skip(i as int), blank_count as nat),
        decreases lines.len() - i,
    {
        let line = &lines[i];
        let ghost s = vv(lines@).skip(i as int);
        proof {
            assert(s.drop_first() =~= vv(lines@).skip(i + 1));
            assert(s[0] == line@);
        }
        if is_blank(line.as_slice()) {
            blank_count += 1;
        } else {
            let ghost old_r = items_view(r@);
            match heading_chars(line.as_slice()) {
                Some((depth, title)) => {
                    r.push(Item::Heading(Heading {
                        title,
                        depth,
                        raw: line.clone(),
                        blank_lines_before: blank_count,
                    }));
                },
                None => {
                    r.push(Item::Body(FactLine { raw: line.clone(), blank_lines_before: blank_count }));
                },
            }
            proof {
                assert(items_view(r@) =~= old_r.push(items_view(r@).last()));
            }
            blank_count = 0;
        }
        i += 1;
    }
    proof {
        assert(vv(lines@).skip(i as int).len() == 0);
        assert(items_view(r@) + seq![] =~= items_view(r@));
    }
    r
}

/// Split file lines into blocks: the preamble's body lines and the section blocks.
fn split_into_blocks(lines: &Vec<Vec<char>>) -> (r: (Vec<FactLine>, Vec<Block>))
    ensures
        (lines_view(r.0@), blocks_view(r.1@)) == group(items(vv(lines@), 0)),
{
    let mut its = line_items(lines);
    let ghost all = items_view(its@);
    let mut pre: Vec<FactLine> = Vec::new();
    let mut blocks: Vec<Block> = Vec::new();
    assert(all.skip(its@.len() as int) =~= seq![]);
    while its.len() > 0
        invariant
            all.len() >= its@.len(),
            items_view(its@) =~= all.take(its@.len() as int),
            (lines_view(pre@), blocks_view(blocks@)) == group(all.skip(its@.len() as int)),
        decreases its.len(),
    {
        let k = its.len();
        let item = its.pop().unwrap();
        let ghost s = all.skip(k - 1);
        proof {
            assert(s.drop_first() =~= all.skip(k as int));
            assert(s[0] == all[k - 1]);
            assert(all.take(k as int)[k - 1] == item@);
            assert(items_view(its@) =~= all.take(k - 1));
        }
        match item {
            Item::Body(fl) => {
                let ghost old_pre = lines_view(pre@);
                pre.insert(0, fl);
                proof {
                    assert(lines_view(pre@) =~= seq![pre@[0]@] + old_pre);
                }
            },
            Item::Heading(h) => {
                let body = pre;
                pre = Vec::new();
                let ghost old_blocks = blocks_view(blocks@);
                blocks.insert(0, Block { head: h, fact_lines: body });
                proof {
                    assert(blocks_view(blocks@) =~= seq![blocks@[0]@] + old_blocks);
                    assert(lines_view(pre@) =~= seq![]);
                }
            },
        }
    }
    assert(all.skip(0) =~= all);
    (pre, blocks)
}

} // verus!

verus! {

// ---------------------------------------------------------------------------
// Entries and facts
// ---------------------------------------------------------------------------

/// The lines of one fact entry.
struct Entry {
    lines: Vec<Vec<char>>,
    blank_lines_before: usize,
}

impl View for Entry {
    type V = EntryV;

    closed spec fn view(&self) -> EntryV {
        EntryV { lines: vv(self.lines@), blanks: self.blank_lines_before as nat }
    }
}

spec fn entries_view(v: Seq<Entry>) -> Seq<EntryV> {
    v.map_values(|e: Entry| e@)
}

/// Group body lines into fact entries: a `- ` line starts a new fact,
/// two-space indented lines continue it.
fn group_entries(fls: &Vec<FactLine>) -> (r: Result<Vec<Entry>, Vec<char>>)
    ensures
        match (r, entries_from(lines_view(fls@), seq![])) {
            (Ok(es), Ok(ses)) => entries_view(es@) =~= ses,
            (Err(l), Err(sl)) => l@ == sl,
            _ => false,
        },
        r matches Ok(es) ==> forall|j: int| 0 <= j < es@.len() ==> es@[j].lines@.len() >= 1,
{
    let mut acc: Vec<Entry> = Vec::new();
    let mut i: usize = 0;
    let ghost all = lines_view(fls@);
    assert(all.skip(0) =~= all);
    let ds = kw_dash_space();
    let ts = kw_two_spaces();
    assert(entries_view(acc@) =~= seq![]);
    while i < fls.len()
        invariant
            i <= fls@.len(),
            all == lines_view(fls@),
            ds@ == dash_space(),
            ts@ == two_spaces(),
            entries_from(all, seq![]) == entries_from(all.skip(i as int), entries_view(acc@)),
            forall|j: int| 0 <= j < acc@.len() ==> acc@[j].lines@.len() >= 1,
        decreases fls.len() - i,
    {
        let line = &fls[i].raw;
        let ghost s = all.skip(i as int);
        proof {
            assert(s.drop_first() =~= all.skip(i + 1));
            assert(s[0] == fls@[i as int]@);
        }
        let lone_dash = line.len() == 1 && line[0] == '-';
        proof {
            assert(lone_dash == (line@ =~= dash()));
        }
        if has_prefix(line.as_slice(), ds.as_slice()) || lone_dash {
            let ghost old_acc = entries_view(acc@);
            let mut first: Vec<Vec<char>> = Vec::new();
            first.push(line.clone());
            assert(vv(first@) =~= seq![line@]);
            acc.push(Entry { lines: first, blank_lines_before: fls[i].blank_lines_before });
            proof {
                assert(entries_view(acc@) =~= old_acc.push(
                    EntryV { lines: seq![line@], blanks: fls@[i as int].blank_lines_before as nat },
                ));
            }
        } else if has_prefix(line.as_slice(), ts.as_slice()) && acc.len() > 0 {
            let ghost old_acc = entries_view(acc@);
            let mut last = acc.pop().unwrap();
            let ghost old_last = last@;
            last.lines.push(line.clone());
            acc.push(last);
            proof {
                assert(vv(last.lines@) =~= old_last.lines.push(line@));
                assert(entries_view(acc@) =~= old_acc.update(
                    old_acc.len() - 1,
                    EntryV { lines: old_last.lines.push(line@), blanks: old_last.blanks },
                ));
            }
        } else {
            return Err(line.clone());
        }
        i += 1;
    }
    assert(all.skip(i as int).len() == 0);
    Ok(acc)
}

/// Why a fact could not be parsed.
#[derive(Debug)]
pub enum FactError {
    /// A body line that neither starts a fact nor continues one.
    UnexpectedLine(String),
    /// A `label:` key with no value.
    EmptyLabel,
    /// A `key: value` line with a key other than id, label, command, tags.
    UnknownKey(String),
    /// A mapping fact without a `label` key.
    MissingLabel,
}

impl View for FactError {
    type V = FactErrV;

    open spec fn view(&self) -> FactErrV {
        match self {
            FactError::UnexpectedLine(l) => FactErrV::UnexpectedLine(l@),
            FactError::EmptyLabel => FactErrV::EmptyLabel,
            FactError::UnknownKey(k) => FactErrV::UnknownKey(k@),
            FactError::MissingLabel => FactErrV::MissingLabel,
        }
    }
}

/// Check if a single-line content (after `- `) is a mapping entry.
pub(crate) fn is_single_line_mapping(content: &[char]) -> (b: bool)
    ensures
        b == is_mapping_line(content@),
{
    if has_known_key_prefix(content) {
        return true;
    }
    let n = content.len();
    if n >= 2 && content[0] == '{' && content[n - 1] == '}' {
        let inner = slice_of(content, 1, n - 1);
        let t = trimmed_start(inner.as_slice());
        return has_known_key_prefix(t.as_slice());
    }
    false
}

/// Executable form of `MapState`.
struct MapFields {
    label: Option<Vec<char>>,
    command: Option<Vec<char>>,
    id: Option<Vec<char>>,
    tags: Vec<Vec<char>>,
}

spec fn ov(o: Option<Vec<char>>) -> Option<Seq<char>> {
    match o {
        Some(v) => Some(v@),
        None => None,
    }
}

impl View for MapFields {
    type V = MapState;

    closed spec fn view(&self) -> MapState {
        MapState { label: ov(self.label), command: ov(self.command), id: ov(self.id), tags: vv(self.tags@) }
    }
}

/// The trimmed, non-empty pieces.
fn keep_nonempty_trims(parts: &Vec<Vec<char>>) -> (r: Vec<Vec<char>>)
    ensures
        vv(r@) =~= nonempty_trims(vv(parts@)),
{
    let mut r: Vec<Vec<char>> = Vec::new();
    let mut i = parts.len();
    assert(vv(parts@).skip(i as int) =~= seq![]);
    while i > 0
        invariant
            i <= parts@.len(),
            vv(r@) =~= nonempty_trims(vv(parts@).skip(i as int)),
        decreases i,
    {
        i -= 1;
        let ghost s = vv(parts@).skip(i as int);
        proof {
            assert(s.drop_first() =~= vv(parts@).skip(i + 1));
            assert(s[0] == parts@[i as int]@);
        }
        let t = trimmed(parts[i].as_slice());
        if t.len() > 0 {
            let ghost old_r = vv(r@);
            r.insert(0, t);
            proof {
                assert(vv(r@) =~= seq![r@[0]@] + old_r);
            }
        }
    }
    assert(vv(parts@).skip(0) =~= vv(parts@));
    r
}

/// Parse a YAML inline list `[tag1, tag2]`.
fn parse_bracket_tags(val: &[char]) -> (r: Vec<Vec<char>>)
    ensures
        vv(r@) =~= bracket_tags(val@),
{
    let v = trimmed(val);
    let n = v.len();
    if n >= 2 && v[0] == '[' && v[n - 1] == ']' {
        let inner = slice_of(v.as_slice(), 1, n - 1);
        let parts = split_on(inner.as_slice(), ',');
        keep_nonempty_trims(&parts)
    } else {
        Vec::new()
    }
}

/// Whether `s` contains the character `c`.
fn has_char(s: &[char], c: char) -> (b: bool)
    ensures
        b == (find_char(s@, c) is Some),
{
    find_ch(s, c).is_some()
}

/// Reads one `key: value` line of a mapping fact.
fn read_kv(st: &mut MapFields, kv: &[char]) -> (r: Result<(), FactError>)
    ensures
        match (r, kv_step(old(st)@, kv@)) {
            (Ok(()), Ok(s2)) => final(st)@ == s2,
            (Err(e), Err(se)) => e@ == se,
            _ => false,
        },
{
    if has_prefix(kv, kw_label_cs().as_slice()) {
        let v = slice_of(kv, 7, kv.len());
        let (clean_label, inline) = inline_parts(v.as_slice());
        st.label = Some(clean_label);
        let ghost old_tags = vv(st.tags@);
        let mut inline = inline;
        st.tags.append(&mut inline);
        proof {
            assert(vv(st.tags@) =~= old_tags + inline_tags(kv@.skip(7)));
        }
        Ok(())
    } else if has_prefix(kv, kw_label_colon().as_slice()) && same(trimmed(kv).as_slice(), kw_label_colon().as_slice()) {
        Err(FactError::EmptyLabel)
    } else if has_prefix(kv, kw_command_cs().as_slice()) {
        st.command = Some(slice_of(kv, 9, kv.len()));
        Ok(())
    } else if has_prefix(kv, kw_id_cs().as_slice()) {
        st.id = Some(slice_of(kv, 4, kv.len()));
        Ok(())
    } else if has_prefix(kv, kw_tags_cs().as_slice()) {
        let v = slice_of(kv, 6, kv.len());
        let mut more = parse_bracket_tags(v.as_slice());
        let ghost old_tags = vv(st.tags@);
        st.tags.append(&mut more);
        proof {
            assert(vv(st.tags@) =~= old_tags + bracket_tags(kv@.skip(6)));
        }
        Ok(())
    } else if kv.len() > 0 {
        match find_seq(kv, kw_colon_space().as_slice()) {
            Some(p) => {
                let key = slice_of(kv, 0, p);
                if !has_char(key.as_slice(), ' ') && !known_key(key.as_slice()) {
                    Err(FactError::UnknownKey(string_of(key.as_slice())))
                } else {
                    Ok(())
                }
            },
            None => Ok(()),
        }
    } else {
        Ok(())
    }
}

} // verus!

verus! {

/// Reads the `key: value` lines in order.
fn read_kvs(kvs: &Vec<Vec<char>>) -> (r: Result<MapFields, FactError>)
    ensures
        match (r, kv_fold(map_state0(), vv(kvs@))) {
            (Ok(st), Ok(ss)) => st@ == ss,
            (Err(e), Err(se)) => e@ == se,
            _ => false,
        },
{
    let mut st = MapFields { label: None, command: None, id: None, tags: Vec::new() };
    let ghost st0 = map_state0();
    assert(st@ == st0) by {
        assert(vv(st.tags@) =~= seq![]);
    }
    let mut i: usize = 0;
    assert(vv(kvs@).skip(0) =~= vv(kvs@));
    while i < kvs.len()
        invariant
            i <= kvs@.len(),
            st0 == map_state0(),
            kv_fold(st0, vv(kvs@)) == kv_fold(st@, vv(kvs@).skip(i as int)),
        decreases kvs.len() - i,
    {
        let ghost s = vv(kvs@).skip(i as int);
        proof {
            assert(s.drop_first() =~= vv(kvs@).skip(i + 1));
            assert(s[0] == kvs@[i as int]@);
        }
        let ghost pre = st@;
        match read_kv(&mut st, kvs[i].as_slice()) {
            Ok(()) => {},
            Err(e) => {
                assert(kv_fold(pre, s) == Err::<MapState, FactErrV>(e@));
                return Err(e);
            },
        }
        i += 1;
    }
    assert(vv(kvs@).skip(i as int).len() == 0);
    Ok(st)
}

/// `s` with repeats removed, first occurrences kept in order.
fn dedup_tags(s: &Vec<Vec<char>>) -> (r: Vec<Vec<char>>)
    ensures
        vv(r@) =~= dedup_from(vv(s@), seq![]),
{
    let mut kept: Vec<Vec<char>> = Vec::new();
    let mut i: usize = 0;
    assert(vv(s@).skip(0) =~= vv(s@));
    assert(vv(kept@) =~= seq![]);
    while i < s.len()
        invariant
            i <= s@.len(),
            dedup_from(vv(s@), seq![]) == dedup_from(vv(s@).skip(i as int), vv(kept@)),
        decreases s.len() - i,
    {
        let ghost q = vv(s@).skip(i as int);
        proof {
            assert(q.drop_first() =~= vv(s@).skip(i + 1));
            assert(q[0] == s@[i as int]@);
        }
        if !contains_seq(&kept, s[i].as_slice()) {
            let ghost old_k = vv(kept@);
            kept.push(s[i].clone());
            proof {
                assert(vv(kept@) =~= old_k.push(s@[i as int]@));
            }
        }
        i += 1;
    }
    assert(vv(s@).skip(i as int).len() == 0);
    kept
}

/// The lines joined with newlines.
fn join_lines(lines: &Vec<Vec<char>>) -> (r: Vec<char>)
    ensures
        r@ =~= join(vv(lines@), newline()),
{
    let nl = vec!['\n'];
    assert(nl@ =~= newline());
    join_with(lines, nl.as_slice())
}

/// Parse a mapping fact (multi-line or single-line mapping).
fn parse_mapping_fact(lines: &Vec<Vec<char>>, blank_lines_before: usize) -> (r: Result<Fact, FactError>)
    requires
        lines@.len() >= 1,
    ensures
        match (r, mapping_fact(vv(lines@), blank_lines_before as nat)) {
            (Ok(f), Ok(sf)) => f@ == sf,
            (Err(e), Err(se)) => e@ == se,
            _ => false,
        },
{
    let raw = join_lines(lines);
    let mut kvs: Vec<Vec<char>> = Vec::new();
    kvs.push(without_dash(lines[0].as_slice()));
    let mut i: usize = 1;
    while i < lines.len()
        invariant
            1 <= i <= lines@.len(),
            vv(kvs@) =~= seq![strip_dash(lines@[0]@)] + vv(lines@).drop_first().take(i - 1).map_values(
                |l: Seq<char>| trim_start(l),
            ),
        decreases lines.len() - i,
    {
        let t = trimmed_start(lines[i].as_slice());
        let ghost old_k = vv(kvs@);
        kvs.push(t);
        proof {
            assert(vv(lines@).drop_first().take(i as int) =~= vv(lines@).drop_first().take(i - 1).push(lines@[i as int]@));
            assert(vv(kvs@) =~= old_k.push(t@));
        }
        i += 1;
    }
    proof {
        assert(vv(lines@).drop_first().take(i - 1) =~= vv(lines@).drop_first());
        assert(vv(kvs@) =~= kv_lines(vv(lines@)));
    }
    let st = match read_kvs(&kvs) {
        Ok(st) => st,
        Err(e) => {
            return Err(e);
        },
    };
    let label = match &st.label {
        Some(l) => string_of(l.as_slice()),
        None => {
            return Err(FactError::MissingLabel);
        },
    };
    let tags = dedup_tags(&st.tags);
    Ok(Fact {
        explicit_id: opt_string_of(&st.id),
        label,
        command: opt_string_of(&st.command),
        tags: strings_of(&tags),
        is_plain: false,
        raw: string_of(raw.as_slice()),
        blank_lines_before,
    })
}

/// Parse a single fact from its raw lines.
fn parse_single_fact(lines: &Vec<Vec<char>>, blank_lines_before: usize) -> (r: Result<Fact, FactError>)
    requires
        lines@.len() >= 1,
    ensures
        match (r, entry_fact(EntryV { lines: vv(lines@), blanks: blank_lines_before as nat })) {
            (Ok(f), Ok(sf)) => f@ == sf,
            (Err(e), Err(se)) => e@ == se,
            _ => false,
        },
{
    if lines.len() == 1 {
        let content = without_dash(lines[0].as_slice());
        if is_single_line_mapping(content.as_slice()) {
            return parse_mapping_fact(lines, blank_lines_before);
        }
        let (label, inline_tags) = inline_parts(content.as_slice());
        return Ok(Fact {
            explicit_id: None,
            label: string_of(label.as_slice()),
            command: None,
            tags: strings_of(&inline_tags),
            is_plain: true,
            raw: string_of(lines[0].as_slice()),
            blank_lines_before,
        });
    }
    parse_mapping_fact(lines, blank_lines_before)
}

/// Parse fact lines into Fact structs.
fn parse_facts(fls: &Vec<FactLine>) -> (r: Result<Vec<Fact>, FactError>)
    ensures
        match (r, body_facts(lines_view(fls@))) {
            (Ok(fs), Ok(sfs)) => facts_view(fs@) =~= sfs,
            (Err(e), Err(se)) => e@ == se,
            _ => false,
        },
{
    let entries = match group_entries(fls) {
        Ok(es) => es,
        Err(l) => {
            return Err(FactError::UnexpectedLine(string_of(l.as_slice())));
        },
    };
    let ghost es = entries_view(entries@);
    let mut facts: Vec<Fact> = Vec::new();
    let mut i: usize = 0;
    assert(es.skip(0) =~= es);
    assert(facts_view(facts@) =~= seq![]);
    while i < entries.len()
        invariant
            i <= entries@.len(),
            es == entries_view(entries@),
            body_facts(lines_view(fls@)) == entries_facts(es),
            forall|j: int| 0 <= j < entries@.len() ==> entries@[j].lines@.len() >= 1,
            entries_facts(es) == match entries_facts(es.skip(i as int)) {
                Ok(fs) => Ok(facts_view(facts@) + fs),
                Err(e) => Err(e),
            },
        decreases entries.len() - i,
    {
        let ghost q = es.skip(i as int);
        proof {
            assert(q.drop_first() =~= es.skip(i + 1));
            assert(q[0] == entries@[i as int]@);
        }
        let f = match parse_single_fact(&entries[i].lines, entries[i].blank_lines_before) {
            Ok(f) => f,
            Err(e) => {
                assert(entries_facts(q) == Err::<Seq<FactV>, FactErrV>(e@));
                return Err(e);
            },
        };
        let ghost old_f = facts_view(facts@);
        facts.push(f);
        proof {
            assert(facts_view(facts@) =~= old_f.push(f@));
            match entries_facts(es.skip(i + 1)) {
                Ok(fs) => {
                    assert(old_f + (seq![f@] + fs) =~= old_f.push(f@) + fs);
                },
                Err(_) => {},
            }
        }
        i += 1;
    }
    proof {
        assert(es.skip(i as int).len() == 0);
        assert(facts_view(facts@) + seq![] =~= facts_view(facts@));
    }
    Ok(facts)
}

} // verus!

verus! {

// ---------------------------------------------------------------------------
// Hierarchy
// ---------------------------------------------------------------------------

proof fn lemma_subtree_split(s: Seq<SectionV>, d: nat, c: int)
    requires
        0 <= c <= s.len(),
        forall|j: int| 0 <= j < c ==> s[j].depth > d,
    ensures
        subtree_len(s, d) == c + subtree_len(s.skip(c), d),
    decreases c,
{
    if c > 0 {
        assert(s.drop_first().skip(c - 1) =~= s.skip(c));
        lemma_subtree_split(s.drop_first(), d, c - 1);
    } else {
        assert(s.skip(0) =~= s);
    }
}

proof fn lemma_subtree_bound(s: Seq<SectionV>, d: nat, k: int)
    requires
        0 <= k <= s.len(),
        k < s.len() ==> s[k].depth <= d,
    ensures
        subtree_len(s, d) <= k,
        subtree_len(s.take(k), d) == subtree_len(s, d),
    decreases k,
{
    if k == 0 {
        assert(s.take(0).len() == 0);
    } else if s[0].depth <= d {
        assert(s.take(k)[0] == s[0]);
    } else {
        assert(s.take(k).drop_first() =~= s.drop_first().take(k - 1));
        lemma_subtree_bound(s.drop_first(), d, k - 1);
    }
}

/// Builds the sibling subtrees at the front of `q`: all of it when `top`,
/// otherwise the sections deeper than `parent`.
fn build_level(q: &mut std::collections::VecDeque<Section>, parent: usize, top: bool) -> (r: Vec<Section>)
    ensures
        ({
            let w = secs_view(old(q)@);
            let m = if top { w.len() } else { subtree_len(w, parent as nat) };
            &&& m <= w.len()
            &&& final(q)@ =~= old(q)@.skip(m as int)
            &&& secs_view(r@) =~= forest(w.take(m as int))
        }),
    decreases old(q)@.len(),
{
    broadcast use vstd::std_specs::vecdeque::group_vec_dequeue_axioms;
    let ghost w = secs_view(q@);
    let ghost q0 = q@;
    let ghost m: nat = if top { w.len() } else { subtree_len(w, parent as nat) };
    let mut r: Vec<Section> = Vec::new();
    proof {
        if !top {
            lemma_subtree_bound(w, parent as nat, w.len() as int);
        }
        assert(q0.skip(0) =~= q0);
        assert(w.take(m as int).skip(0) =~= w.take(m as int));
        assert(secs_view(r@) =~= seq![]);
    }
    while q.len() > 0 && (top || q[0].depth > parent)
        invariant
            w == secs_view(q0),
            q0 == old(q)@,
            m == (if top { w.len() } else { subtree_len(w, parent as nat) }),
            m <= w.len(),
            q@.len() <= q0.len(),
            q0.len() - q@.len() <= m,
            q@ =~= q0.skip(q0.len() - q@.len()),
            !top ==> forall|j: int| 0 <= j < q0.len() - q@.len() ==> w[j].depth > parent,
            forest(w.take(m as int)) =~= secs_view(r@) + forest(w.take(m as int).skip(q0.len() - q@.len())),
        decreases q@.len(),
    {
        let ghost c: int = q0.len() - q@.len();
        let mut s = q.pop_front().unwrap();
        let ghost sv = section_view(s);
        let ghost sq = secs_view(q@);
        proof {
            assert(sv == w[c]);
            assert(sq =~= w.skip(c + 1));
            if !top {
                lemma_subtree_split(w, parent as nat, c);
                assert(w.skip(c)[0] == w[c]);
                assert(c < m);
            }
        }
        let kids = build_level(q, s.depth, false);
        let ghost n = subtree_len(sq, s.depth as nat);
        let ghost wm = w.take(m as int);
        proof {
            let k = m - c - 1;
            assert(0 <= k <= sq.len());
            if k < sq.len() {
                assert(!top);
                assert(sq[k] == w[m as int]);
                lemma_subtree_end(w, parent as nat);
            }
            lemma_subtree_bound(sq, s.depth as nat, k);
            assert(wm.skip(c).drop_first() =~= sq.take(k));
            assert(wm.skip(c)[0] == w[c]);
            assert(wm.skip(c).subrange(1, n as int + 1) =~= sq.take(n as int));
            assert(wm.skip(c).skip(n as int + 1) =~= wm.skip(c + n + 1));
        }
        s.children = kids;
        let ghost old_r = secs_view(r@);
        r.push(s);
        proof {
            lemma_section_children(s);
            assert(section_view(s) == SectionV { children: forest(sq.take(n as int)), ..w[c] });
            assert(secs_view(r@) =~= old_r.push(section_view(s)));
            if !top {
                assert forall|j: int| 0 <= j < c + n + 1 implies w[j].depth > parent by {
                    if j > c {
                        lemma_subtree_split(w, parent as nat, c);
                        assert(sq[j - c - 1] == w[j]);
                        if sq[j - c - 1].depth <= parent {
                            assert(false) by {
                                lemma_subtree_prefix_deep(sq, s.depth as nat, j - c - 1);
                            }
                        }
                    }
                }
            }
        }
    }
    proof {
        let c = q0.len() - q@.len();
        if !top && c < m {
            assert(q@.len() > 0);
            assert(q@[0] == q0[c]);
            lemma_subtree_split(w, parent as nat, c);
            assert(w.skip(c)[0] == w[c]);
        }
        assert(c == m);
        assert(w.take(m as int).skip(c) =~= seq![]);
        assert(secs_view(r@) + seq![] =~= secs_view(r@));
    }
    r
}

proof fn lemma_subtree_end(s: Seq<SectionV>, d: nat)
    ensures
        subtree_len(s, d) <= s.len(),
        subtree_len(s, d) < s.len() ==> s[subtree_len(s, d) as int].depth <= d,
    decreases s.len(),
{
    if s.len() > 0 && s[0].depth > d {
        lemma_subtree_end(s.drop_first(), d);
    }
}

proof fn lemma_subtree_prefix_deep(s: Seq<SectionV>, d: nat, j: int)
    requires
        0 <= j < subtree_len(s, d),
    ensures
        j < s.len(),
        s[j].depth > d,
    decreases j,
{
    assert(s.len() > 0 && s[0].depth > d);
    if j > 0 {
        lemma_subtree_prefix_deep(s.drop_first(), d, j - 1);
        assert(s.drop_first()[j - 1] == s[j]);
    }
}

/// Build a tree hierarchy from flat sections based on depth.
fn build_hierarchy(flat: Vec<Section>) -> (r: Vec<Section>)
    ensures
        secs_view(r@) =~= forest(secs_view(flat@)),
{
    broadcast use vstd::std_specs::vecdeque::group_vec_dequeue_axioms;
    let mut q: std::collections::VecDeque<Section> = std::collections::VecDeque::new();
    let ghost f = flat@;
    for s in it: flat
        invariant
            f == it.seq(),
            q@ =~= it.seq().take(it.index() as int),
    {
        q.push_back(s);
    }
    assert(q@ =~= f);
    let r = build_level(&mut q, 0, true);
    proof {
        assert(secs_view(f).take(f.len() as int) =~= secs_view(f));
    }
    r
}

} // verus!

verus! {

// ---------------------------------------------------------------------------
// The sheet
// ---------------------------------------------------------------------------

/// Where a parse error was found.
#[derive(Debug)]
pub enum ParseContext {
    /// Among the facts before the first heading.
    Preamble,
    /// In the section with this heading.
    Section(String),
}

/// A .facts file that could not be parsed: where, and why.
#[derive(Debug)]
pub struct ParseError {
    pub context: ParseContext,
    pub cause: FactError,
}

impl View for ParseError {
    type V = ParseErrV;

    open spec fn view(&self) -> ParseErrV {
        ParseErrV {
            context: match self.context {
                ParseContext::Preamble => ContextV::Preamble,
                ParseContext::Section(h) => ContextV::Section(h@),
            },
            cause: self.cause@,
        }
    }
}

/// The flat sections of the blocks.
fn parse_blocks(blocks: &Vec<Block>) -> (r: Result<Vec<Section>, ParseError>)
    ensures
        match (r, block_sections(blocks_view(blocks@))) {
            (Ok(ss), Ok(sss)) => secs_view(ss@) =~= sss,
            (Err(e), Err(se)) => e@ == se,
            _ => false,
        },
{
    let ghost bs = blocks_view(blocks@);
    let mut flat: Vec<Section> = Vec::new();
    let mut i: usize = 0;
    assert(bs.skip(0) =~= bs);
    assert(secs_view(flat@) =~= seq![]);
    while i < blocks.len()
        invariant
            i <= blocks@.len(),
            bs == blocks_view(blocks@),
            block_sections(bs) == match block_sections(bs.skip(i as int)) {
                Ok(ss) => Ok(secs_view(flat@) + ss),
                Err(e) => Err(e),
            },
        decreases blocks.len() - i,
    {
        let ghost q = bs.skip(i as int);
        proof {
            assert(q.drop_first() =~= bs.skip(i + 1));
            assert(q[0] == blocks@[i as int]@);
        }
        let b = &blocks[i];
        let facts = match parse_facts(&b.fact_lines) {
            Ok(fs) => fs,
            Err(e) => {
                let err = ParseError { context: ParseContext::Section(string_of(b.head.title.as_slice())), cause: e };
                assert(block_sections(q) == Err::<Seq<SectionV>, ParseErrV>(err@));
                return Err(err);
            },
        };
        let sec = Section {
            title: string_of(b.head.title.as_slice()),
            depth: b.head.depth,
            facts,
            children: Vec::new(),
            raw_heading: string_of(b.head.raw.as_slice()),
            blank_lines_before: b.head.blank_lines_before,
        };
        let ghost old_f = secs_view(flat@);
        flat.push(sec);
        proof {
            lemma_section_children(sec);
            assert(section_view(sec).children =~= seq![]);
            let hv = blocks@[i as int]@.head;
            match body_facts(blocks@[i as int]@.body) {
                Ok(fs) => {
                    assert(section_view(sec) =~~= SectionV {
                        title: hv.title,
                        depth: hv.depth,
                        facts: fs,
                        children: seq![],
                        raw_heading: hv.raw,
                        blank_lines_before: hv.blanks,
                    });
                },
                Err(_) => {},
            }
            assert(secs_view(flat@) =~= old_f.push(section_view(sec)));
            match block_sections(bs.skip(i + 1)) {
                Ok(ss) => {
                    assert(old_f + (seq![section_view(sec)] + ss) =~= old_f.push(section_view(sec)) + ss);
                },
                Err(_) => {},
            }
        }
        i += 1;
    }
    proof {
        assert(bs.skip(i as int).len() == 0);
        assert(secs_view(flat@) + seq![] =~= secs_view(flat@));
    }
    Ok(flat)
}

/// Parse a .facts file from its content and filename.
pub fn parse(content: &str, filename: &str) -> (r: Result<FactSheet, ParseError>)
    ensures
        match (r, parse_spec(content@, filename@)) {
            (Ok(sheet), Ok(ss)) => sheet@ == ss,
            (Err(e), Err(se)) => e@ == se,
            _ => false,
        },
{
    let all = chars_of(content);
    // Strip UTF-8 BOM if present (editors like Notepad may prepend it).
    let body = if all.len() > 0 && all[0] == '\u{FEFF}' {
        slice_of(all.as_slice(), 1, all.len())
    } else {
        all
    };
    assert(body@ =~= strip_bom(content@));
    let lines = split_lines(body.as_slice());
    let (pre, blocks) = split_into_blocks(&lines);
    let preamble = match parse_facts(&pre) {
        Ok(fs) => fs,
        Err(e) => {
            return Err(ParseError { context: ParseContext::Preamble, cause: e });
        },
    };
    let flat = match parse_blocks(&blocks) {
        Ok(ss) => ss,
        Err(e) => {
            return Err(e);
        },
    };
    let sections = build_hierarchy(flat);
    let sheet = FactSheet { filename: string_of(chars_of(filename).as_slice()), preamble, sections };
    assert(sheet@ =~~= SheetV {
        filename: filename@,
        preamble: facts_view(sheet.preamble@),
        sections: secs_view(sheet.sections@),
    });
    Ok(sheet)
}

} // verus!

verus! {

/// Extract inline @tags from a string, returning (cleaned_label, tags).
pub fn extract_inline_tags(s: &str) -> (r: (String, Vec<String>))
    ensures
        r.0@ == inline_label(s@),
        strings_view(r.1@) == inline_tags(s@),
{
    let (label, tags) = inline_parts(chars_of(s).as_slice());
    (string_of(label.as_slice()), strings_of(&tags))
}

proof fn lemma_plain_words_untagged(ws: Seq<Seq<char>>)
    ensures
        forall|i: int| 0 <= i < plain_words(ws).len() ==> !is_at_word(#[trigger] plain_words(ws)[i]),
    decreases ws.len(),
{
    if ws.len() > 0 {
        lemma_plain_words_untagged(ws.drop_first());
        let rest = plain_words(ws.drop_first());
        if !is_at_word(ws[0]) {
            assert forall|i: int| 0 <= i < plain_words(ws).len() implies !is_at_word(#[trigger] plain_words(ws)[i]) by {
                if i > 0 {
                    assert(plain_words(ws)[i] == rest[i - 1]);
                }
            }
        }
    }
}

pub proof fn lemma_strip_ats_untagged(w: Seq<char>)
    ensures
        !is_at_word(crate::lint::strip_ats(w)),
    decreases w.len(),
{
    if w.len() > 0 && w[0] == '@' {
        lemma_strip_ats_untagged(w.drop_first());
    }
}

proof fn lemma_at_tags_untagged(ws: Seq<Seq<char>>)
    ensures
        forall|i: int| 0 <= i < at_tags(ws).len() ==> #[trigger] at_tags(ws)[i].len() > 0 && !is_at_word(at_tags(ws)[i]),
    decreases ws.len(),
{
    if ws.len() > 0 {
        lemma_at_tags_untagged(ws.drop_first());
        lemma_strip_ats_untagged(ws[0]);
        let rest = at_tags(ws.drop_first());
        if is_at_word(ws[0]) && crate::lint::strip_ats(ws[0]).len() > 0 {
            assert forall|i: int| 0 <= i < at_tags(ws).len() implies #[trigger] at_tags(ws)[i].len() > 0 && !is_at_word(at_tags(ws)[i]) by {
                if i > 0 {
                    assert(at_tags(ws)[i] == rest[i - 1]);
                }
            }
        }
    }
}

/// Splitting a list of words in two splits its plain words and its `@` tags
/// the same way.
pub proof fn lemma_words_split(a: Seq<Seq<char>>, b: Seq<Seq<char>>)
    ensures
        plain_words(a + b) == plain_words(a) + plain_words(b),
        at_tags(a + b) == at_tags(a) + at_tags(b),
    decreases a.len(),
{
    if a.len() == 0 {
        assert(a + b =~= b);
        assert(plain_words(a) + plain_words(b) =~= plain_words(b));
        assert(at_tags(a) + at_tags(b) =~= at_tags(b));
    } else {
        lemma_words_split(a.drop_first(), b);
        assert((a + b).drop_first() =~= a.drop_first() + b);
        assert((a + b)[0] == a[0]);
        assert(plain_words(a + b) =~= plain_words(a) + plain_words(b));
        assert(at_tags(a + b) =~= at_tags(a) + at_tags(b));
    }
}

/// Inline tags leave no `@` word in the label: the label that
/// `extract_inline_tags` gives is its plain words joined by single spaces, and
/// none of those words starts with `@`; every tag it gives is non-empty and
/// has no leading `@`.
pub proof fn law_inline_label_has_no_tag_words(s: Seq<char>)
    ensures
        inline_label(s) == join(plain_words(words(s)), single_space()),
        forall|i: int| 0 <= i < plain_words(words(s)).len() ==> !is_at_word(#[trigger] plain_words(words(s))[i]),
        forall|i: int| 0 <= i < inline_tags(s).len() ==> #[trigger] inline_tags(s)[i].len() > 0 && !is_at_word(inline_tags(s)[i]),
{
    lemma_plain_words_untagged(words(s));
    lemma_at_tags_untagged(words(s));
}

} // verus!

verus! {

/// The text of a parse error: where it was found.
pub open spec fn parse_error_text(e: ParseErrV) -> Seq<char> {
    match e.context {
        ContextV::Preamble => "failed to parse preamble facts"@,
        ContextV::Section(h) => "failed to parse section '"@ + h + "'"@,
    }
}

/// The text of the reason a fact could not be parsed.
pub open spec fn fact_error_text(e: FactErrV) -> Seq<char> {
    match e {
        FactErrV::UnexpectedLine(l) => "unexpected line (not a fact or continuation): "@ + l,
        FactErrV::EmptyLabel => "fact has empty label"@,
        FactErrV::UnknownKey(k) => "unknown key '"@ + k + "' in fact mapping"@,
        FactErrV::MissingLabel => "mapping fact missing required 'label' key"@,
    }
}

impl FactError {
    /// The reason as text.
    pub fn to_string(&self) -> (r: String)
        ensures
            r@ == fact_error_text(self@),
    {
        let v = match self {
            FactError::UnexpectedLine(l) => {
                crate::text::concat2(
                    chars_of("unexpected line (not a fact or continuation): ").as_slice(),
                    chars_of(l.as_str()).as_slice(),
                )
            },
            FactError::EmptyLabel => chars_of("fact has empty label"),
            FactError::UnknownKey(k) => crate::text::concat3(
                "unknown key '",
                chars_of(k.as_str()).as_slice(),
                "' in fact mapping",
            ),
            FactError::MissingLabel => chars_of("mapping fact missing required 'label' key"),
        };
        string_of(v.as_slice())
    }
}

impl ParseError {
    /// Where the error was found, as text.
    pub fn to_string(&self) -> (r: String)
        ensures
            r@ == parse_error_text(self@),
    {
        let v = match &self.context {
            ParseContext::Preamble => chars_of("failed to parse preamble facts"),
            ParseContext::Section(h) => crate::text::concat3(
                "failed to parse section '",
                chars_of(h.as_str()).as_slice(),
                "'",
            ),
        };
        string_of(v.as_slice())
    }

    /// Where the error was found and why, as `where: why`.
    pub fn chain_string(&self) -> (r: String)
        ensures
            r@ == parse_error_text(self@) + ": "@ + fact_error_text(self@.cause),
    {
        let a = chars_of(self.to_string().as_str());
        let b = chars_of(self.cause.to_string().as_str());
        let v = crate::text::concat2(crate::text::concat2(a.as_slice(), chars_of(": ").as_slice()).as_slice(), b.as_slice());
        string_of(v.as_slice())
    }
}

} // verus!
