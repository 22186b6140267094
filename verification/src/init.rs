//! The `init` command's logic: which stacks a project uses, the facts scaffolded
//! for them, and the agent-docs section kept in AGENTS.md.
//!
//! Detects well-known framework/runtime combos from marker files, config files
//! and declared dependencies in the project root, as recorded in a [`Probe`].
use vstd::prelude::*;
use crate::model::{opt_view, strings_view};
use crate::text::{
    all_ws, chars_of, concat2, concat3, contains, copy_chars, ends_with, find, find_char, find_seq, has_prefix,
    has_suffix, is_blank, join, join_with, lemma_find_bound, lines, same, slice_of, split_lines, starts_with,
    string_of, trim, trim_start, trimmed, trimmed_start, vv,
};

verus! {

// ---------------------------------------------------------------------------
// JSON and TOML scanning
// ---------------------------------------------------------------------------

/// `s` in double quotes.
pub open spec fn quoted(s: Seq<char>) -> Seq<char> {
    seq!['"'] + s + seq!['"']
}

/// Index of the `}` that closes the braces opened in `s` from `i` on, with
/// `depth` braces open before `i`.
pub open spec fn closing_brace(s: Seq<char>, i: nat, depth: int) -> Option<nat>
    decreases s.len() - i,
{
    if i >= s.len() {
        None
    } else if s[i as int] == '{' {
        closing_brace(s, i + 1, depth + 1)
    } else if s[i as int] == '}' {
        if depth - 1 == 0 { Some(i) } else { closing_brace(s, i + 1, depth - 1) }
    } else {
        closing_brace(s, i + 1, depth)
    }
}

/// Scan for `"section": { ... }` from `from` on, and tell whether `"key"` occurs
/// inside the first such object whose braces close.
pub open spec fn json_scan(c: Seq<char>, section: Seq<char>, key: Seq<char>, from: nat) -> bool
    decreases c.len() - from,
{
    let sp = quoted(section);
    if from > c.len() {
        false
    } else {
        match find(c.skip(from as int), sp) {
            None => false,
            Some(pos) => {
                let next = from + pos + sp.len();
                proof {
                    lemma_find_bound(c.skip(from as int), sp);
                }
                let t = trim_start(c.skip(next as int));
                if !(t.len() > 0 && t[0] == ':') {
                    json_scan(c, section, key, next)
                } else {
                    let ac = trim_start(t.drop_first());
                    if !(ac.len() > 0 && ac[0] == '{') {
                        json_scan(c, section, key, next)
                    } else {
                        match closing_brace(ac, 0, 0) {
                            Some(i) => contains(ac.take(i as int), quoted(key)),
                            None => json_scan(c, section, key, next),
                        }
                    }
                }
            },
        }
    }
}

/// Whether `"section": { ... }` in the JSON text holds `"key"`.
pub open spec fn json_has_key(c: Seq<char>, section: Seq<char>, key: Seq<char>) -> bool {
    json_scan(c, section, key, 0)
}

fn quote(s: &[char]) -> (r: Vec<char>)
    ensures
        r@ == quoted(s@),
{
    let q = vec!['"'];
    assert(q@ =~= seq!['"']);
    concat2(concat2(q.as_slice(), s).as_slice(), q.as_slice())
}

fn closing_brace_exec(s: &[char]) -> (r: Option<usize>)
    ensures
        match r {
            Some(i) => closing_brace(s@, 0, 0) == Some(i as nat) && i < s@.len(),
            None => closing_brace(s@, 0, 0) is None,
        },
{
    let mut depth: i128 = 0;
    let mut i: usize = 0;
    while i < s.len()
        invariant
            i <= s@.len(),
            -(i as int) <= depth <= i,
            closing_brace(s@, 0, 0) == closing_brace(s@, i as nat, depth as int),
        decreases s.len() - i,
    {
        if s[i] == '{' {
            depth = depth + 1;
        } else if s[i] == '}' {
            if depth - 1 == 0 {
                return Some(i);
            }
            depth = depth - 1;
        }
        i += 1;
    }
    None
}

fn json_has_key_chars(c: &[char], section: &[char], key: &[char]) -> (b: bool)
    ensures
        b == json_has_key(c@, section@, key@),
{
    let sp = quote(section);
    let kp = quote(key);
    let mut from: usize = 0;
    while from <= c.len()
        invariant
            from <= c@.len() + 1,
            sp@ == quoted(section@),
            kp@ == quoted(key@),
            json_has_key(c@, section@, key@) == json_scan(c@, section@, key@, from as nat),
        decreases c@.len() + 1 - from,
    {
        let rest = slice_of(c, from, c.len());
        assert(rest@ =~= c@.skip(from as int));
        let pos = match find_seq(rest.as_slice(), sp.as_slice()) {
            None => {
                return false;
            },
            Some(p) => p,
        };
        let next = from + pos + sp.len();
        proof {
            lemma_find_bound(c@.skip(from as int), sp@);
        }
        let after = slice_of(c, next, c.len());
        assert(after@ =~= c@.skip(next as int));
        let t = trimmed_start(after.as_slice());
        if !(t.len() > 0 && t[0] == ':') {
            from = next;
            continue;
        }
        let tail = slice_of(t.as_slice(), 1, t.len());
        assert(tail@ =~= t@.drop_first());
        let ac = trimmed_start(tail.as_slice());
        if !(ac.len() > 0 && ac[0] == '{') {
            from = next;
            continue;
        }
        match closing_brace_exec(ac.as_slice()) {
            Some(i) => {
                let inner = slice_of(ac.as_slice(), 0, i);
                assert(inner@ =~= ac@.take(i as int));
                return find_seq(inner.as_slice(), kp.as_slice()).is_some();
            },
            None => {
                from = next;
            },
        }
    }
    false
}

/// Check if JSON content has a key within a named object section.
///
/// Scans for `"section": { ... }` and checks if `"key"` appears inside.
/// Handles nested braces and skips false matches (string values, nested keys).
pub fn json_section_has_key(content: &str, section: &str, key: &str) -> (b: bool)
    ensures
        b == json_has_key(content@, section@, key@),
{
    json_has_key_chars(chars_of(content).as_slice(), chars_of(section).as_slice(), chars_of(key).as_slice())
}

/// Whether the `scripts` object of package JSON declares `script`.
pub open spec fn has_script(c: Seq<char>, script: Seq<char>) -> bool {
    json_has_key(c, "scripts"@, script)
}

/// Whether package JSON declares `dep` among its dependencies or dev dependencies.
pub open spec fn has_dep(c: Seq<char>, dep: Seq<char>) -> bool {
    json_has_key(c, "dependencies"@, dep) || json_has_key(c, "devDependencies"@, dep)
}

pub fn json_has_script(content: &str, script: &str) -> (b: bool)
    ensures
        b == has_script(content@, script@),
{
    json_section_has_key(content, "scripts", script)
}

pub fn json_has_dep(content: &str, dep: &str) -> (b: bool)
    ensures
        b == has_dep(content@, dep@),
{
    json_section_has_key(content, "dependencies", dep) || json_section_has_key(content, "devDependencies", dep)
}

/// Whether the TOML text has a `[section]` or `[section.*]` header line.
pub open spec fn has_toml_section(c: Seq<char>, section: Seq<char>) -> bool {
    exists|i: int|
        0 <= i < lines(c).len() && ({
            let t = trim(#[trigger] lines(c)[i]);
            t == seq!['['] + section + seq![']'] || starts_with(t, seq!['['] + section + seq!['.'])
        })
}

/// Check if TOML content has a section header matching `[section]` or `[section.*]`.
pub fn toml_has_section(content: &str, section: &str) -> (b: bool)
    ensures
        b == has_toml_section(content@, section@),
{
    let ls = split_lines(chars_of(content).as_slice());
    let s = chars_of(section);
    let open = vec!['['];
    assert(open@ =~= seq!['[']);
    let exact = concat2(concat2(open.as_slice(), s.as_slice()).as_slice(), vec![']'].as_slice());
    let prefix = concat2(concat2(open.as_slice(), s.as_slice()).as_slice(), vec!['.'].as_slice());
    assert(exact@ =~= seq!['['] + section@ + seq![']']);
    assert(prefix@ =~= seq!['['] + section@ + seq!['.']);
    let mut i: usize = 0;
    while i < ls.len()
        invariant
            i <= ls@.len(),
            vv(ls@) =~= lines(content@),
            exact@ == seq!['['] + section@ + seq![']'],
            prefix@ == seq!['['] + section@ + seq!['.'],
            forall|j: int| 0 <= j < i ==> !({
                let t = trim(#[trigger] lines(content@)[j]);
                t == seq!['['] + section@ + seq![']'] || starts_with(t, seq!['['] + section@ + seq!['.'])
            }),
        decreases ls.len() - i,
    {
        let t = trimmed(ls[i].as_slice());
        assert(lines(content@)[i as int] == ls@[i as int]@);
        if same(t.as_slice(), exact.as_slice()) || has_prefix(t.as_slice(), prefix.as_slice()) {
            return true;
        }
        i += 1;
    }
    false
}

// ---------------------------------------------------------------------------
// Dependency lists
// ---------------------------------------------------------------------------

/// A character that may follow a package name in a requirement (version
/// specifiers, extras, markers).
pub open spec fn is_spec_char(c: char) -> bool {
    c == '>' || c == '<' || c == '=' || c == '!' || c == '~' || c == '[' || c == ' ' || c == ';'
}

/// Whether a requirement line names the package `dep`.
pub open spec fn dep_line_spec(line: Seq<char>, dep: Seq<char>) -> bool {
    starts_with(line, dep) && (line.len() == dep.len() || is_spec_char(line[dep.len() as int]))
}

/// Check if a dependency line matches a package name.
/// Handles version specifiers: `pkg`, `pkg>=1.0`, `pkg[extra]`, `pkg ==2`, etc.
pub fn dep_line_matches(line: &str, dep: &str) -> (b: bool)
    ensures
        b == dep_line_spec(line@, dep@),
{
    dep_line_chars(chars_of(line).as_slice(), chars_of(dep).as_slice())
}

fn dep_line_chars(line: &[char], dep: &[char]) -> (b: bool)
    ensures
        b == dep_line_spec(line@, dep@),
{
    if !has_prefix(line, dep) {
        return false;
    }
    if line.len() == dep.len() {
        return true;
    }
    let c = line[dep.len()];
    c == '>' || c == '<' || c == '=' || c == '!' || c == '~' || c == '[' || c == ' ' || c == ';'
}

/// `s` without leading `c`s.
pub open spec fn strip_leading(s: Seq<char>, c: char) -> Seq<char>
    decreases s.len(),
{
    if s.len() > 0 && s[0] == c { strip_leading(s.drop_first(), c) } else { s }
}

/// `s` without trailing `c`s.
pub open spec fn strip_trailing(s: Seq<char>, c: char) -> Seq<char>
    decreases s.len(),
{
    if s.len() > 0 && s.last() == c { strip_trailing(s.drop_last(), c) } else { s }
}

/// `s` without leading or trailing `c`s.
pub open spec fn strip_both(s: Seq<char>, c: char) -> Seq<char> {
    strip_trailing(strip_leading(s, c), c)
}

/// A pyproject line cleaned of list punctuation and quotes.
pub open spec fn pyproject_item(line: Seq<char>) -> Seq<char> {
    strip_both(strip_both(trim(strip_trailing(trim(strip_leading(trim(line), '-')), ',')), '"'), '\'')
}

fn without_leading(s: &[char], c: char) -> (r: Vec<char>)
    ensures
        r@ == strip_leading(s@, c),
{
    let mut i: usize = 0;
    assert(s@.skip(0) =~= s@);
    while i < s.len() && s[i] == c
        invariant
            i <= s@.len(),
            strip_leading(s@, c) == strip_leading(s@.skip(i as int), c),
        decreases s.len() - i,
    {
        assert(s@.skip(i as int).drop_first() =~= s@.skip(i + 1));
        i += 1;
    }
    let r = slice_of(s, i, s.len());
    assert(r@ =~= s@.skip(i as int));
    if i < s.len() {
        assert(s@.skip(i as int)[0] == s@[i as int]);
    }
    r
}

fn without_trailing(s: &[char], c: char) -> (r: Vec<char>)
    ensures
        r@ == strip_trailing(s@, c),
{
    let mut n: usize = s.len();
    assert(s@.take(s@.len() as int) =~= s@);
    while n > 0 && s[n - 1] == c
        invariant
            n <= s@.len(),
            strip_trailing(s@, c) == strip_trailing(s@.take(n as int), c),
        decreases n,
    {
        assert(s@.take(n as int).drop_last() =~= s@.take(n - 1));
        n -= 1;
    }
    let r = slice_of(s, 0, n);
    assert(r@ =~= s@.take(n as int));
    if n > 0 {
        assert(s@.take(n as int).last() == s@[n - 1]);
    }
    r
}

fn without_both(s: &[char], c: char) -> (r: Vec<char>)
    ensures
        r@ == strip_both(s@, c),
{
    without_trailing(without_leading(s, c).as_slice(), c)
}

/// Whether a pyproject.toml mentions `dep` on a line of its own in a dependency list.
pub open spec fn dep_in_pyproject_spec(c: Seq<char>, dep: Seq<char>) -> bool {
    exists|i: int| 0 <= i < lines(c).len() && dep_line_spec(pyproject_item(#[trigger] lines(c)[i]), dep)
}

/// Check if a pyproject.toml mentions a dependency anywhere in its dep arrays.
pub fn dep_in_pyproject(content: &str, dep: &str) -> (b: bool)
    ensures
        b == dep_in_pyproject_spec(content@, dep@),
{
    let ls = split_lines(chars_of(content).as_slice());
    let d = chars_of(dep);
    let mut i: usize = 0;
    while i < ls.len()
        invariant
            i <= ls@.len(),
            vv(ls@) =~= lines(content@),
            d@ == dep@,
            forall|j: int| 0 <= j < i ==> !dep_line_spec(pyproject_item(#[trigger] lines(content@)[j]), dep@),
        decreases ls.len() - i,
    {
        assert(lines(content@)[i as int] == ls@[i as int]@);
        let a = without_leading(trimmed(ls[i].as_slice()).as_slice(), '-');
        let b = without_trailing(trimmed(a.as_slice()).as_slice(), ',');
        let t = without_both(without_both(trimmed(b.as_slice()).as_slice(), '"').as_slice(), '\'');
        if dep_line_chars(t.as_slice(), d.as_slice()) {
            return true;
        }
        i += 1;
    }
    false
}

/// Whether a requirements line lists `dep` (blank, comment and option lines never do).
pub open spec fn requirement_line_spec(line: Seq<char>, dep: Seq<char>) -> bool {
    let t = trim(line);
    !(t.len() == 0 || starts_with(t, seq!['#']) || starts_with(t, seq!['-'])) && dep_line_spec(t, dep)
}

/// Whether a requirements.txt file lists `dep`.
pub open spec fn dep_in_requirements_spec(c: Seq<char>, dep: Seq<char>) -> bool {
    exists|i: int| 0 <= i < lines(c).len() && requirement_line_spec(#[trigger] lines(c)[i], dep)
}

/// Check if a requirements.txt file lists a dependency.
pub fn dep_in_requirements(content: &str, dep: &str) -> (b: bool)
    ensures
        b == dep_in_requirements_spec(content@, dep@),
{
    let ls = split_lines(chars_of(content).as_slice());
    let d = chars_of(dep);
    let hash = vec!['#'];
    assert(hash@ =~= seq!['#']);
    let dash = vec!['-'];
    assert(dash@ =~= seq!['-']);
    let mut i: usize = 0;
    while i < ls.len()
        invariant
            i <= ls@.len(),
            vv(ls@) =~= lines(content@),
            d@ == dep@,
            hash@ == seq!['#'],
            dash@ == seq!['-'],
            forall|j: int| 0 <= j < i ==> !requirement_line_spec(#[trigger] lines(content@)[j], dep@),
        decreases ls.len() - i,
    {
        assert(lines(content@)[i as int] == ls@[i as int]@);
        let t = trimmed(ls[i].as_slice());
        if !(t.len() == 0 || has_prefix(t.as_slice(), hash.as_slice()) || has_prefix(t.as_slice(), dash.as_slice()))
            && dep_line_chars(t.as_slice(), d.as_slice()) {
            return true;
        }
        i += 1;
    }
    false
}

// ---------------------------------------------------------------------------
// What detection reads of a project
// ---------------------------------------------------------------------------

/// What stack detection reads of a project root, as plain values.
pub struct Probe {
    /// Paths, relative to the root, that exist (files or directories).
    pub existing: Vec<String>,
    /// Paths, relative to the root, that are directories.
    pub dirs: Vec<String>,
    /// Readable text files, relative to the root, with their contents.
    pub contents: Vec<(String, String)>,
    /// Names of the entries of the root directory.
    pub entries: Vec<String>,
}

pub struct ProbeV {
    pub existing: Seq<Seq<char>>,
    pub dirs: Seq<Seq<char>>,
    pub contents: Seq<(Seq<char>, Seq<char>)>,
    pub entries: Seq<Seq<char>>,
}

impl View for Probe {
    type V = ProbeV;

    open spec fn view(&self) -> ProbeV {
        ProbeV {
            existing: strings_view(self.existing@),
            dirs: strings_view(self.dirs@),
            contents: self.contents@.map_values(|p: (String, String)| (p.0@, p.1@)),
            entries: strings_view(self.entries@),
        }
    }
}

/// The config files whose contents detection reads.
pub fn config_files() -> (r: Vec<&'static str>)
    ensures
        r@.len() == 7,
{
    vec!["deno.json", "deno.jsonc", "package.json", "pyproject.toml", "requirements.txt", "composer.json", "pubspec.yaml"]
}

/// Whether `name` exists.
pub open spec fn p_exists(p: ProbeV, name: Seq<char>) -> bool {
    p.existing.contains(name)
}

/// Whether `name` is a directory.
pub open spec fn p_dir(p: ProbeV, name: Seq<char>) -> bool {
    p.dirs.contains(name)
}

/// The contents of `name`, when it could be read.
pub open spec fn read_in(cs: Seq<(Seq<char>, Seq<char>)>, name: Seq<char>) -> Option<Seq<char>>
    decreases cs.len(),
{
    if cs.len() == 0 {
        None
    } else if cs[0].0 == name {
        Some(cs[0].1)
    } else {
        read_in(cs.drop_first(), name)
    }
}

pub open spec fn p_read(p: ProbeV, name: Seq<char>) -> Option<Seq<char>> {
    read_in(p.contents, name)
}

/// The contents of `name`, or nothing when it could not be read.
pub open spec fn p_read_or_empty(p: ProbeV, name: Seq<char>) -> Seq<char> {
    match p_read(p, name) {
        Some(c) => c,
        None => seq![],
    }
}

/// Whether an entry of the root ends with `suffix`.
pub open spec fn p_glob(p: ProbeV, suffix: Seq<char>) -> bool {
    exists|i: int| 0 <= i < p.entries.len() && ends_with(#[trigger] p.entries[i], suffix)
}

fn names_contain(v: &Vec<String>, name: &str) -> (b: bool)
    ensures
        b == strings_view(v@).contains(name@),
{
    let n = chars_of(name);
    let mut i: usize = 0;
    while i < v.len()
        invariant
            i <= v@.len(),
            n@ == name@,
            forall|j: int| 0 <= j < i ==> strings_view(v@)[j] != name@,
        decreases v.len() - i,
    {
        if same(chars_of(v[i].as_str()).as_slice(), n.as_slice()) {
            assert(strings_view(v@)[i as int] == name@);
            return true;
        }
        i += 1;
    }
    false
}

fn file_exists(p: &Probe, name: &str) -> (b: bool)
    ensures
        b == p_exists(p@, name@),
{
    names_contain(&p.existing, name)
}

fn is_dir(p: &Probe, name: &str) -> (b: bool)
    ensures
        b == p_dir(p@, name@),
{
    names_contain(&p.dirs, name)
}

fn read_file(p: &Probe, name: &str) -> (r: Option<String>)
    ensures
        match r {
            Some(c) => p_read(p@, name@) == Some(c@),
            None => p_read(p@, name@) is None,
        },
{
    let ghost cs = p@.contents;
    let n = chars_of(name);
    let mut i: usize = 0;
    assert(cs.skip(0) =~= cs);
    while i < p.contents.len()
        invariant
            i <= p.contents@.len(),
            cs == p@.contents,
            n@ == name@,
            read_in(cs, name@) == read_in(cs.skip(i as int), name@),
        decreases p.contents.len() - i,
    {
        assert(cs.skip(i as int)[0] == (p.contents@[i as int].0@, p.contents@[i as int].1@));
        assert(cs.skip(i as int).drop_first() =~= cs.skip(i + 1));
        if same(chars_of(p.contents[i].0.as_str()).as_slice(), n.as_slice()) {
            return Some(p.contents[i].1.clone());
        }
        i += 1;
    }
    None
}

fn read_or_empty(p: &Probe, name: &str) -> (r: String)
    ensures
        r@ == p_read_or_empty(p@, name@),
{
    match read_file(p, name) {
        Some(c) => c,
        None => String::new(),
    }
}

fn has_glob(p: &Probe, suffix: &str) -> (b: bool)
    ensures
        b == p_glob(p@, suffix@),
{
    let sfx = chars_of(suffix);
    let mut i: usize = 0;
    while i < p.entries.len()
        invariant
            i <= p.entries@.len(),
            sfx@ == suffix@,
            forall|j: int| 0 <= j < i ==> !ends_with(#[trigger] p@.entries[j], suffix@),
        decreases p.entries.len() - i,
    {
        assert(p@.entries[i as int] == p.entries@[i as int]@);
        if has_suffix(chars_of(p.entries[i].as_str()).as_slice(), sfx.as_slice()) {
            return true;
        }
        i += 1;
    }
    false
}

// ---------------------------------------------------------------------------
// Stacks and their facts
// ---------------------------------------------------------------------------

/// A detected project stack.
#[derive(Debug, PartialEq)]
pub struct DetectedStack {
    pub name: &'static str,
    pub marker: &'static str,
    pub facts: Vec<StackFact>,
}

/// A fact to scaffold for a detected stack.
#[derive(Debug, PartialEq)]
pub struct StackFact {
    pub label: String,
    pub command: Option<String>,
}

/// A scaffolded fact: its label and command.
pub type SFactV = (Seq<char>, Option<Seq<char>>);

pub struct StackV {
    pub name: Seq<char>,
    pub marker: Seq<char>,
    pub facts: Seq<SFactV>,
}

impl View for StackFact {
    type V = SFactV;

    open spec fn view(&self) -> SFactV {
        (self.label@, opt_view(self.command))
    }
}

pub open spec fn sfacts_view(v: Seq<StackFact>) -> Seq<SFactV> {
    v.map_values(|f: StackFact| f@)
}

impl View for DetectedStack {
    type V = StackV;

    open spec fn view(&self) -> StackV {
        StackV { name: self.name@, marker: self.marker@, facts: sfacts_view(self.facts@) }
    }
}

pub open spec fn stacks_view(v: Seq<DetectedStack>) -> Seq<StackV> {
    v.map_values(|s: DetectedStack| s@)
}

/// A fact with a command.
pub open spec fn sf(label: Seq<char>, command: Seq<char>) -> SFactV {
    (label, Some(command))
}

fn sfact(label: &str, command: &str) -> (r: StackFact)
    ensures
        r@ == sf(label@, command@),
{
    StackFact { label: label.to_string(), command: Some(command.to_string()) }
}

fn sfact_v(label: &str, command: Vec<char>) -> (r: StackFact)
    ensures
        r@ == sf(label@, command@),
{
    StackFact { label: label.to_string(), command: Some(string_of(command.as_slice())) }
}

fn push_fact(v: &mut Vec<StackFact>, f: StackFact)
    ensures
        sfacts_view(final(v)@) == sfacts_view(old(v)@).push(f@),
{
    v.push(f);
    assert(sfacts_view(v@) =~= sfacts_view(old(v)@).push(f@));
}

fn stack(name: &'static str, marker: &'static str, facts: Vec<StackFact>) -> (r: DetectedStack)
    ensures
        r@ == (StackV { name: name@, marker: marker@, facts: sfacts_view(facts@) }),
{
    DetectedStack { name, marker, facts }
}

// ---------------------------------------------------------------------------
// Package managers and runners
// ---------------------------------------------------------------------------

/// A JavaScript package manager.
#[derive(PartialEq, Eq, Structural, Clone, Copy)]
pub enum JsPm {
    Npm,
    Yarn,
    Pnpm,
    Bun,
}

/// The command that runs a package script.
pub open spec fn pm_run(pm: JsPm, script: Seq<char>) -> Seq<char> {
    match pm {
        JsPm::Npm => "npm run "@ + script,
        JsPm::Yarn => "yarn "@ + script,
        JsPm::Pnpm => "pnpm run "@ + script,
        JsPm::Bun => "bun run "@ + script,
    }
}

/// The command that runs the tests.
pub open spec fn pm_test(pm: JsPm) -> Seq<char> {
    match pm {
        JsPm::Npm => "npm test"@,
        JsPm::Yarn => "yarn test"@,
        JsPm::Pnpm => "pnpm test"@,
        JsPm::Bun => "bun test"@,
    }
}

/// The command that runs a package binary.
pub open spec fn pm_exec(pm: JsPm, bin: Seq<char>) -> Seq<char> {
    match pm {
        JsPm::Npm => "npx "@ + bin,
        JsPm::Yarn => "yarn "@ + bin,
        JsPm::Pnpm => "pnpm exec "@ + bin,
        JsPm::Bun => "bunx "@ + bin,
    }
}

impl JsPm {
    fn run(&self, script: &str) -> (r: Vec<char>)
        ensures
            r@ == pm_run(*self, script@),
    {
        let head = match self {
            JsPm::Npm => chars_of("npm run "),
            JsPm::Yarn => chars_of("yarn "),
            JsPm::Pnpm => chars_of("pnpm run "),
            JsPm::Bun => chars_of("bun run "),
        };
        concat2(head.as_slice(), chars_of(script).as_slice())
    }

    fn test(&self) -> (r: &'static str)
        ensures
            r@ == pm_test(*self),
    {
        match self {
            JsPm::Npm => "npm test",
            JsPm::Yarn => "yarn test",
            JsPm::Pnpm => "pnpm test",
            JsPm::Bun => "bun test",
        }
    }

    fn exec(&self, bin: &str) -> (r: Vec<char>)
        ensures
            r@ == pm_exec(*self, bin@),
    {
        let head = match self {
            JsPm::Npm => chars_of("npx "),
            JsPm::Yarn => chars_of("yarn "),
            JsPm::Pnpm => chars_of("pnpm exec "),
            JsPm::Bun => chars_of("bunx "),
        };
        concat2(head.as_slice(), chars_of(bin).as_slice())
    }
}

/// The package manager a lock file names.
pub open spec fn js_pm_spec(p: ProbeV) -> JsPm {
    if p_exists(p, "pnpm-lock.yaml"@) {
        JsPm::Pnpm
    } else if p_exists(p, "yarn.lock"@) {
        JsPm::Yarn
    } else if p_exists(p, "bun.lockb"@) || p_exists(p, "bun.lock"@) {
        JsPm::Bun
    } else {
        JsPm::Npm
    }
}

fn detect_js_pm(p: &Probe) -> (r: JsPm)
    ensures
        r == js_pm_spec(p@),
{
    if file_exists(p, "pnpm-lock.yaml") {
        JsPm::Pnpm
    } else if file_exists(p, "yarn.lock") {
        JsPm::Yarn
    } else if file_exists(p, "bun.lockb") || file_exists(p, "bun.lock") {
        JsPm::Bun
    } else {
        JsPm::Npm
    }
}

/// How Python tools are run.
#[derive(PartialEq, Eq, Structural, Clone, Copy)]
pub enum PyRunner {
    Poetry,
    Pdm,
    Uv,
    Direct,
}

/// The command that runs a Python tool.
pub open spec fn py_cmd(r: PyRunner, tool: Seq<char>) -> Seq<char> {
    match r {
        PyRunner::Poetry => "poetry run "@ + tool,
        PyRunner::Pdm => "pdm run "@ + tool,
        PyRunner::Uv => "uv run "@ + tool,
        PyRunner::Direct => tool,
    }
}

impl PyRunner {
    fn cmd(&self, tool: &str) -> (r: Vec<char>)
        ensures
            r@ == py_cmd(*self, tool@),
    {
        match self {
            PyRunner::Poetry => concat2(chars_of("poetry run ").as_slice(), chars_of(tool).as_slice()),
            PyRunner::Pdm => concat2(chars_of("pdm run ").as_slice(), chars_of(tool).as_slice()),
            PyRunner::Uv => concat2(chars_of("uv run ").as_slice(), chars_of(tool).as_slice()),
            PyRunner::Direct => chars_of(tool),
        }
    }
}

/// The runner a lock file or pyproject section names.
pub open spec fn py_runner_spec(p: ProbeV, pyproject: Seq<char>) -> PyRunner {
    if p_exists(p, "poetry.lock"@) || has_toml_section(pyproject, "tool.poetry"@) {
        PyRunner::Poetry
    } else if p_exists(p, "pdm.lock"@) {
        PyRunner::Pdm
    } else if p_exists(p, "uv.lock"@) {
        PyRunner::Uv
    } else {
        PyRunner::Direct
    }
}

fn detect_py_runner(p: &Probe, pyproject: &str) -> (r: PyRunner)
    ensures
        r == py_runner_spec(p@, pyproject@),
{
    if file_exists(p, "poetry.lock") || toml_has_section(pyproject, "tool.poetry") {
        PyRunner::Poetry
    } else if file_exists(p, "pdm.lock") {
        PyRunner::Pdm
    } else if file_exists(p, "uv.lock") {
        PyRunner::Uv
    } else {
        PyRunner::Direct
    }
}

// ---------------------------------------------------------------------------
// Detectors
// ---------------------------------------------------------------------------

/// One fact when `b` holds, none otherwise.
pub open spec fn when(b: bool, f: SFactV) -> Seq<SFactV> {
    if b { seq![f] } else { seq![] }
}

pub open spec fn deno_spec(p: ProbeV) -> Option<StackV> {
    if !(p_exists(p, "deno.json"@) || p_exists(p, "deno.jsonc"@)) {
        None
    } else {
        let cfg = if p_exists(p, "deno.json"@) { "deno.json"@ } else { "deno.jsonc"@ };
        let c = p_read_or_empty(p, cfg);
        Some(StackV {
            name: "Deno"@,
            marker: "deno.json"@,
            facts: when(json_has_key(c, "tasks"@, "build"@), sf("project builds successfully"@, "deno task build"@))
                + seq![if json_has_key(c, "tasks"@, "test"@) { sf("all tests pass"@, "deno task test"@) } else { sf("all tests pass"@, "deno test"@) }]
                + seq![if json_has_key(c, "tasks"@, "lint"@) { sf("code passes linting"@, "deno task lint"@) } else { sf("code passes linting"@, "deno lint"@) }]
                + seq![sf("code is formatted"@, "deno fmt --check"@)],
        })
    }
}

fn detect_deno(p: &Probe) -> (r: Option<DetectedStack>)
    ensures
        match (r, deno_spec(p@)) {
            (Some(s), Some(v)) => s@ == v,
            (None, None) => true,
            _ => false,
        },
{
    let cfg = if file_exists(p, "deno.json") {
        "deno.json"
    } else if file_exists(p, "deno.jsonc") {
        "deno.jsonc"
    } else {
        return None;
    };
    let content = read_or_empty(p, cfg);
    let c = content.as_str();
    let mut facts: Vec<StackFact> = Vec::new();
    let ghost f0 = sfacts_view(facts@);
    if json_section_has_key(c, "tasks", "build") {
        push_fact(&mut facts, sfact("project builds successfully", "deno task build"));
    }
    let ghost f1 = sfacts_view(facts@);
    if json_section_has_key(c, "tasks", "test") {
        push_fact(&mut facts, sfact("all tests pass", "deno task test"));
    } else {
        push_fact(&mut facts, sfact("all tests pass", "deno test"));
    }
    let ghost f2 = sfacts_view(facts@);
    if json_section_has_key(c, "tasks", "lint") {
        push_fact(&mut facts, sfact("code passes linting", "deno task lint"));
    } else {
        push_fact(&mut facts, sfact("code passes linting", "deno lint"));
    }
    push_fact(&mut facts, sfact("code is formatted", "deno fmt --check"));
    let r = stack("Deno", "deno.json", facts);
    assert(r@.facts =~= deno_spec(p@)->Some_0.facts);
    Some(r)
}

/// The framework a package.json names through its dependencies.
pub open spec fn node_name(c: Seq<char>) -> Seq<char> {
    if has_dep(c, "next"@) {
        "Next.js"@
    } else if has_dep(c, "nuxt"@) {
        "Nuxt"@
    } else if has_dep(c, "@sveltejs/kit"@) {
        "SvelteKit"@
    } else if has_dep(c, "@remix-run/node"@) || has_dep(c, "remix"@) {
        "Remix"@
    } else {
        "Node.js"@
    }
}

pub open spec fn node_test(c: Seq<char>, pm: JsPm) -> Seq<SFactV> {
    if has_script(c, "test"@) {
        seq![sf("all tests pass"@, pm_test(pm))]
    } else if has_dep(c, "vitest"@) {
        seq![sf("all tests pass"@, pm_exec(pm, "vitest run"@))]
    } else if has_dep(c, "jest"@) {
        seq![sf("all tests pass"@, pm_exec(pm, "jest"@))]
    } else if has_dep(c, "mocha"@) {
        seq![sf("all tests pass"@, pm_exec(pm, "mocha"@))]
    } else {
        seq![]
    }
}

pub open spec fn node_lint(c: Seq<char>, pm: JsPm) -> Seq<SFactV> {
    if has_script(c, "lint"@) {
        seq![sf("code passes linting"@, pm_run(pm, "lint"@))]
    } else if has_dep(c, "@biomejs/biome"@) {
        seq![sf("code passes linting"@, pm_exec(pm, "biome check"@))]
    } else if has_dep(c, "eslint"@) {
        seq![sf("code passes linting"@, pm_exec(pm, "eslint ."@))]
    } else {
        seq![]
    }
}

pub open spec fn node_types(c: Seq<char>, pm: JsPm) -> Seq<SFactV> {
    if has_dep(c, "typescript"@) {
        if has_script(c, "typecheck"@) {
            seq![sf("type checking passes"@, pm_run(pm, "typecheck"@))]
        } else if has_script(c, "type-check"@) {
            seq![sf("type checking passes"@, pm_run(pm, "type-check"@))]
        } else if has_script(c, "types"@) {
            seq![sf("type checking passes"@, pm_run(pm, "types"@))]
        } else {
            seq![sf("type checking passes"@, pm_exec(pm, "tsc --noEmit"@))]
        }
    } else {
        seq![]
    }
}

pub open spec fn node_format(c: Seq<char>, pm: JsPm) -> Seq<SFactV> {
    if has_script(c, "format:check"@) {
        seq![sf("code is formatted"@, pm_run(pm, "format:check"@))]
    } else if has_dep(c, "prettier"@) {
        seq![sf("code is formatted"@, pm_exec(pm, "prettier --check ."@))]
    } else {
        seq![]
    }
}

pub open spec fn node_facts(c: Seq<char>, pm: JsPm) -> Seq<SFactV> {
    let fs = when(has_script(c, "build"@), sf("project builds successfully"@, pm_run(pm, "build"@))) + node_test(c, pm)
        + node_lint(c, pm) + node_types(c, pm) + node_format(c, pm);
    if fs.len() == 0 {
        seq![sf("project uses "@ + node_name(c), "test -f package.json"@)]
    } else {
        fs
    }
}

pub open spec fn node_spec(p: ProbeV) -> Option<StackV> {
    match p_read(p, "package.json"@) {
        None => None,
        Some(c) => if p_exists(p, "deno.json"@) || p_exists(p, "deno.jsonc"@) {
            None
        } else {
            Some(StackV { name: node_name(c), marker: "package.json"@, facts: node_facts(c, js_pm_spec(p)) })
        },
    }
}

fn node_name_exec(c: &str) -> (r: &'static str)
    ensures
        r@ == node_name(c@),
{
    if json_has_dep(c, "next") {
        "Next.js"
    } else if json_has_dep(c, "nuxt") {
        "Nuxt"
    } else if json_has_dep(c, "@sveltejs/kit") {
        "SvelteKit"
    } else if json_has_dep(c, "@remix-run/node") || json_has_dep(c, "remix") {
        "Remix"
    } else {
        "Node.js"
    }
}

fn push_node_test(facts: &mut Vec<StackFact>, c: &str, pm: JsPm)
    ensures
        sfacts_view(final(facts)@) == sfacts_view(old(facts)@) + node_test(c@, pm),
{
    if json_has_script(c, "test") {
        push_fact(facts, sfact("all tests pass", pm.test()));
    } else if json_has_dep(c, "vitest") {
        push_fact(facts, sfact_v("all tests pass", pm.exec("vitest run")));
    } else if json_has_dep(c, "jest") {
        push_fact(facts, sfact_v("all tests pass", pm.exec("jest")));
    } else if json_has_dep(c, "mocha") {
        push_fact(facts, sfact_v("all tests pass", pm.exec("mocha")));
    }
    assert(sfacts_view(facts@) =~= sfacts_view(old(facts)@) + node_test(c@, pm));
}

fn push_node_lint(facts: &mut Vec<StackFact>, c: &str, pm: JsPm)
    ensures
        sfacts_view(final(facts)@) == sfacts_view(old(facts)@) + node_lint(c@, pm),
{
    if json_has_script(c, "lint") {
        push_fact(facts, sfact_v("code passes linting", pm.run("lint")));
    } else if json_has_dep(c, "@biomejs/biome") {
        push_fact(facts, sfact_v("code passes linting", pm.exec("biome check")));
    } else if json_has_dep(c, "eslint") {
        push_fact(facts, sfact_v("code passes linting", pm.exec("eslint .")));
    }
    assert(sfacts_view(facts@) =~= sfacts_view(old(facts)@) + node_lint(c@, pm));
}

fn push_node_types(facts: &mut Vec<StackFact>, c: &str, pm: JsPm)
    ensures
        sfacts_view(final(facts)@) == sfacts_view(old(facts)@) + node_types(c@, pm),
{
    if json_has_dep(c, "typescript") {
        if json_has_script(c, "typecheck") {
            push_fact(facts, sfact_v("type checking passes", pm.run("typecheck")));
        } else if json_has_script(c, "type-check") {
            push_fact(facts, sfact_v("type checking passes", pm.run("type-check")));
        } else if json_has_script(c, "types") {
            push_fact(facts, sfact_v("type checking passes", pm.run("types")));
        } else {
            push_fact(facts, sfact_v("type checking passes", pm.exec("tsc --noEmit")));
        }
    }
    assert(sfacts_view(facts@) =~= sfacts_view(old(facts)@) + node_types(c@, pm));
}

fn push_node_format(facts: &mut Vec<StackFact>, c: &str, pm: JsPm)
    ensures
        sfacts_view(final(facts)@) == sfacts_view(old(facts)@) + node_format(c@, pm),
{
    if json_has_script(c, "format:check") {
        push_fact(facts, sfact_v("code is formatted", pm.run("format:check")));
    } else if json_has_dep(c, "prettier") {
        push_fact(facts, sfact_v("code is formatted", pm.exec("prettier --check .")));
    }
    assert(sfacts_view(facts@) =~= sfacts_view(old(facts)@) + node_format(c@, pm));
}

fn detect_node(p: &Probe) -> (r: Option<DetectedStack>)
    ensures
        match (r, node_spec(p@)) {
            (Some(s), Some(v)) => s@ == v,
            (None, None) => true,
            _ => false,
        },
{
    let content = match read_file(p, "package.json") {
        Some(c) => c,
        None => {
            return None;
        },
    };
    if file_exists(p, "deno.json") || file_exists(p, "deno.jsonc") {
        return None;
    }
    let c = content.as_str();
    let pm = detect_js_pm(p);
    let name = node_name_exec(c);
    let mut facts: Vec<StackFact> = Vec::new();
    if json_has_script(c, "build") {
        push_fact(&mut facts, sfact_v("project builds successfully", pm.run("build")));
    }
    assert(sfacts_view(facts@) =~= when(has_script(c@, "build"@), sf("project builds successfully"@, pm_run(pm, "build"@))));
    push_node_test(&mut facts, c, pm);
    push_node_lint(&mut facts, c, pm);
    push_node_types(&mut facts, c, pm);
    push_node_format(&mut facts, c, pm);
    if facts.len() == 0 {
        let label = concat2(chars_of("project uses ").as_slice(), chars_of(name).as_slice());
        push_fact(&mut facts, StackFact { label: string_of(label.as_slice()), command: Some("test -f package.json".to_string()) });
    }
    let r = stack(name, "package.json", facts);
    assert(r@.facts =~= node_facts(c@, pm));
    Some(r)
}

pub open spec fn rust_spec(p: ProbeV) -> Option<StackV> {
    if !p_exists(p, "Cargo.toml"@) {
        None
    } else {
        Some(StackV {
            name: "Rust/Cargo"@,
            marker: "Cargo.toml"@,
            facts: seq![
                sf("project compiles successfully"@, "cargo check"@),
                sf("all tests pass"@, "cargo test --quiet"@),
                sf("code is formatted"@, "cargo fmt --check"@),
            ] + when(
                p_exists(p, "clippy.toml"@) || p_exists(p, ".clippy.toml"@),
                sf("clippy passes"@, "cargo clippy -- -D warnings"@),
            ),
        })
    }
}

fn detect_rust(p: &Probe) -> (r: Option<DetectedStack>)
    ensures
        match (r, rust_spec(p@)) {
            (Some(s), Some(v)) => s@ == v,
            (None, None) => true,
            _ => false,
        },
{
    if !file_exists(p, "Cargo.toml") {
        return None;
    }
    let mut facts: Vec<StackFact> = Vec::new();
    push_fact(&mut facts, sfact("project compiles successfully", "cargo check"));
    push_fact(&mut facts, sfact("all tests pass", "cargo test --quiet"));
    push_fact(&mut facts, sfact("code is formatted", "cargo fmt --check"));
    if file_exists(p, "clippy.toml") || file_exists(p, ".clippy.toml") {
        push_fact(&mut facts, sfact("clippy passes", "cargo clippy -- -D warnings"));
    }
    let r = stack("Rust/Cargo", "Cargo.toml", facts);
    assert(r@.facts =~= rust_spec(p@)->Some_0.facts);
    Some(r)
}

pub open spec fn pyproject_facts(p: ProbeV, c: Seq<char>) -> Seq<SFactV> {
    let r = py_runner_spec(p, c);
    let has_ruff = has_toml_section(c, "tool.ruff"@) || p_exists(p, "ruff.toml"@) || p_exists(p, ".ruff.toml"@)
        || dep_in_pyproject_spec(c, "ruff"@);
    let ruff_format = has_toml_section(c, "tool.ruff.format"@);
    let fs = when(
        has_toml_section(c, "tool.pytest"@) || p_exists(p, "conftest.py"@) || p_exists(p, "pytest.ini"@)
            || dep_in_pyproject_spec(c, "pytest"@),
        sf("all tests pass"@, py_cmd(r, "pytest --quiet"@)),
    ) + (if has_ruff {
        seq![sf("code passes linting"@, py_cmd(r, "ruff check ."@))] + when(
            ruff_format,
            sf("code is formatted"@, py_cmd(r, "ruff format --check ."@)),
        )
    } else {
        when(
            has_toml_section(c, "tool.flake8"@) || dep_in_pyproject_spec(c, "flake8"@),
            sf("code passes linting"@, py_cmd(r, "flake8"@)),
        )
    }) + (if has_toml_section(c, "tool.mypy"@) || p_exists(p, "mypy.ini"@) || dep_in_pyproject_spec(c, "mypy"@) {
        seq![sf("type checking passes"@, py_cmd(r, "mypy ."@))]
    } else {
        when(
            has_toml_section(c, "tool.pyright"@) || p_exists(p, "pyrightconfig.json"@) || dep_in_pyproject_spec(
                c,
                "pyright"@,
            ),
            sf("type checking passes"@, py_cmd(r, "pyright"@)),
        )
    }) + when(
        !ruff_format && (has_toml_section(c, "tool.black"@) || dep_in_pyproject_spec(c, "black"@)),
        sf("code is formatted"@, py_cmd(r, "black --check ."@)),
    );
    if fs.len() == 0 {
        seq![sf("project uses Python"@, "test -f pyproject.toml"@)]
    } else {
        fs
    }
}

fn push_py_lint(facts: &mut Vec<StackFact>, p: &Probe, c: &str, r: PyRunner)
    ensures
        sfacts_view(final(facts)@) == sfacts_view(old(facts)@) + (if has_toml_section(c@, "tool.ruff"@) || p_exists(
            p@,
            "ruff.toml"@,
        ) || p_exists(p@, ".ruff.toml"@) || dep_in_pyproject_spec(c@, "ruff"@) {
            seq![sf("code passes linting"@, py_cmd(r, "ruff check ."@))] + when(
                has_toml_section(c@, "tool.ruff.format"@),
                sf("code is formatted"@, py_cmd(r, "ruff format --check ."@)),
            )
        } else {
            when(
                has_toml_section(c@, "tool.flake8"@) || dep_in_pyproject_spec(c@, "flake8"@),
                sf("code passes linting"@, py_cmd(r, "flake8"@)),
            )
        }),
{
    let has_ruff = toml_has_section(c, "tool.ruff") || file_exists(p, "ruff.toml") || file_exists(p, ".ruff.toml")
        || dep_in_pyproject(c, "ruff");
    if has_ruff {
        push_fact(facts, sfact_v("code passes linting", r.cmd("ruff check .")));
        if toml_has_section(c, "tool.ruff.format") {
            push_fact(facts, sfact_v("code is formatted", r.cmd("ruff format --check .")));
        }
    } else if toml_has_section(c, "tool.flake8") || dep_in_pyproject(c, "flake8") {
        push_fact(facts, sfact_v("code passes linting", r.cmd("flake8")));
    }
    assert(sfacts_view(facts@) =~= sfacts_view(old(facts)@) + (if has_ruff {
        seq![sf("code passes linting"@, py_cmd(r, "ruff check ."@))] + when(
            has_toml_section(c@, "tool.ruff.format"@),
            sf("code is formatted"@, py_cmd(r, "ruff format --check ."@)),
        )
    } else {
        when(
            has_toml_section(c@, "tool.flake8"@) || dep_in_pyproject_spec(c@, "flake8"@),
            sf("code passes linting"@, py_cmd(r, "flake8"@)),
        )
    }));
}

fn push_py_types(facts: &mut Vec<StackFact>, p: &Probe, c: &str, r: PyRunner)
    ensures
        sfacts_view(final(facts)@) == sfacts_view(old(facts)@) + (if has_toml_section(c@, "tool.mypy"@) || p_exists(
            p@,
            "mypy.ini"@,
        ) || dep_in_pyproject_spec(c@, "mypy"@) {
            seq![sf("type checking passes"@, py_cmd(r, "mypy ."@))]
        } else {
            when(
                has_toml_section(c@, "tool.pyright"@) || p_exists(p@, "pyrightconfig.json"@) || dep_in_pyproject_spec(
                    c@,
                    "pyright"@,
                ),
                sf("type checking passes"@, py_cmd(r, "pyright"@)),
            )
        }),
{
    if toml_has_section(c, "tool.mypy") || file_exists(p, "mypy.ini") || dep_in_pyproject(c, "mypy") {
        push_fact(facts, sfact_v("type checking passes", r.cmd("mypy .")));
    } else if toml_has_section(c, "tool.pyright") || file_exists(p, "pyrightconfig.json") || dep_in_pyproject(c, "pyright") {
        push_fact(facts, sfact_v("type checking passes", r.cmd("pyright")));
    } else {
        assert(sfacts_view(facts@) =~= sfacts_view(old(facts)@) + seq![]);
    }
}

fn detect_python_pyproject(p: &Probe, pyproject: &str) -> (r: DetectedStack)
    ensures
        r@ == (StackV { name: "Python (pyproject.toml)"@, marker: "pyproject.toml"@, facts: pyproject_facts(p@, pyproject@) }),
{
    let runner = detect_py_runner(p, pyproject);
    let c = pyproject;
    let mut facts: Vec<StackFact> = Vec::new();
    if toml_has_section(c, "tool.pytest") || file_exists(p, "conftest.py") || file_exists(p, "pytest.ini") || dep_in_pyproject(c, "pytest") {
        push_fact(&mut facts, sfact_v("all tests pass", runner.cmd("pytest --quiet")));
    }
    let ghost a = sfacts_view(facts@);
    push_py_lint(&mut facts, p, c, runner);
    push_py_types(&mut facts, p, c, runner);
    let ghost b = sfacts_view(facts@);
    if !toml_has_section(c, "tool.ruff.format") && (toml_has_section(c, "tool.black") || dep_in_pyproject(c, "black")) {
        push_fact(&mut facts, sfact_v("code is formatted", runner.cmd("black --check .")));
    }
    if facts.len() == 0 {
        push_fact(&mut facts, sfact("project uses Python", "test -f pyproject.toml"));
    }
    let r = stack("Python (pyproject.toml)", "pyproject.toml", facts);
    assert(r@.facts =~= pyproject_facts(p@, pyproject@));
    r
}

pub open spec fn requirements_facts(p: ProbeV, reqs: Seq<char>) -> Seq<SFactV> {
    let fs = when(
        p_exists(p, "conftest.py"@) || p_exists(p, "pytest.ini"@) || dep_in_requirements_spec(reqs, "pytest"@),
        sf("all tests pass"@, "python -m pytest --quiet"@),
    ) + (if p_exists(p, "ruff.toml"@) || p_exists(p, ".ruff.toml"@) || dep_in_requirements_spec(reqs, "ruff"@) {
        seq![sf("code passes linting"@, "ruff check ."@)]
    } else {
        when(dep_in_requirements_spec(reqs, "flake8"@), sf("code passes linting"@, "flake8"@))
    }) + (if p_exists(p, "mypy.ini"@) || p_exists(p, ".mypy.ini"@) || dep_in_requirements_spec(reqs, "mypy"@) {
        seq![sf("type checking passes"@, "mypy ."@)]
    } else {
        when(dep_in_requirements_spec(reqs, "pyright"@), sf("type checking passes"@, "pyright"@))
    }) + when(dep_in_requirements_spec(reqs, "black"@), sf("code is formatted"@, "black --check ."@));
    if fs.len() == 0 {
        seq![sf("project uses Python"@, "test -f requirements.txt"@)]
    } else {
        fs
    }
}

fn detect_python_requirements(p: &Probe) -> (r: DetectedStack)
    ensures
        r@ == (StackV {
            name: "Python (requirements.txt)"@,
            marker: "requirements.txt"@,
            facts: requirements_facts(p@, p_read_or_empty(p@, "requirements.txt"@)),
        }),
{
    let reqs = read_or_empty(p, "requirements.txt");
    let c = reqs.as_str();
    let mut facts: Vec<StackFact> = Vec::new();
    if file_exists(p, "conftest.py") || file_exists(p, "pytest.ini") || dep_in_requirements(c, "pytest") {
        push_fact(&mut facts, sfact("all tests pass", "python -m pytest --quiet"));
    }
    let ghost a = sfacts_view(facts@);
    if file_exists(p, "ruff.toml") || file_exists(p, ".ruff.toml") || dep_in_requirements(c, "ruff") {
        push_fact(&mut facts, sfact("code passes linting", "ruff check ."));
    } else if dep_in_requirements(c, "flake8") {
        push_fact(&mut facts, sfact("code passes linting", "flake8"));
    }
    let ghost b = sfacts_view(facts@);
    if file_exists(p, "mypy.ini") || file_exists(p, ".mypy.ini") || dep_in_requirements(c, "mypy") {
        push_fact(&mut facts, sfact("type checking passes", "mypy ."));
    } else if dep_in_requirements(c, "pyright") {
        push_fact(&mut facts, sfact("type checking passes", "pyright"));
    }
    let ghost d = sfacts_view(facts@);
    if dep_in_requirements(c, "black") {
        push_fact(&mut facts, sfact("code is formatted", "black --check ."));
    }
    if facts.len() == 0 {
        push_fact(&mut facts, sfact("project uses Python", "test -f requirements.txt"));
    }
    let r = stack("Python (requirements.txt)", "requirements.txt", facts);
    assert(r@.facts =~= requirements_facts(p@, c@));
    r
}

pub open spec fn python_spec(p: ProbeV) -> Option<StackV> {
    match p_read(p, "pyproject.toml"@) {
        Some(c) => Some(StackV { name: "Python (pyproject.toml)"@, marker: "pyproject.toml"@, facts: pyproject_facts(p, c) }),
        None => if p_exists(p, "requirements.txt"@) {
            Some(StackV {
                name: "Python (requirements.txt)"@,
                marker: "requirements.txt"@,
                facts: requirements_facts(p, p_read_or_empty(p, "requirements.txt"@)),
            })
        } else {
            None
        },
    }
}

fn detect_python(p: &Probe) -> (r: Option<DetectedStack>)
    ensures
        match (r, python_spec(p@)) {
            (Some(s), Some(v)) => s@ == v,
            (None, None) => true,
            _ => false,
        },
{
    match read_file(p, "pyproject.toml") {
        Some(c) => {
            return Some(detect_python_pyproject(p, c.as_str()));
        },
        None => {},
    }
    if file_exists(p, "requirements.txt") {
        return Some(detect_python_requirements(p));
    }
    None
}

pub open spec fn java_maven_spec(p: ProbeV) -> Option<StackV> {
    if !(p_exists(p, "pom.xml"@)) {
        None
    } else {
        Some(StackV { name: "Java (Maven)"@, marker: "pom.xml"@, facts: seq![sf("project compiles successfully"@, "mvn compile -q"@), sf("all tests pass"@, "mvn test -q"@)] })
    }
}

fn detect_java_maven(p: &Probe) -> (r: Option<DetectedStack>)
    ensures
        match (r, java_maven_spec(p@)) {
            (Some(s), Some(v)) => s@ == v,
            (None, None) => true,
            _ => false,
        },
{
    if !(file_exists(p, "pom.xml")) {
        return None;
    }
    let mut facts: Vec<StackFact> = Vec::new();
    push_fact(&mut facts, sfact("project compiles successfully", "mvn compile -q"));
    push_fact(&mut facts, sfact("all tests pass", "mvn test -q"));
    let r = stack("Java (Maven)", "pom.xml", facts);
    assert(r@.facts =~= java_maven_spec(p@)->Some_0.facts);
    Some(r)
}

pub open spec fn java_gradle_spec(p: ProbeV) -> Option<StackV> {
    if !(p_exists(p, "build.gradle"@) || p_exists(p, "build.gradle.kts"@)) {
        None
    } else {
        Some(StackV { name: "Java (Gradle)"@, marker: "build.gradle"@, facts: seq![sf("project compiles successfully"@, "./gradlew compileJava --quiet"@), sf("all tests pass"@, "./gradlew test --quiet"@)] })
    }
}

fn detect_java_gradle(p: &Probe) -> (r: Option<DetectedStack>)
    ensures
        match (r, java_gradle_spec(p@)) {
            (Some(s), Some(v)) => s@ == v,
            (None, None) => true,
            _ => false,
        },
{
    if !(file_exists(p, "build.gradle") || file_exists(p, "build.gradle.kts")) {
        return None;
    }
    let mut facts: Vec<StackFact> = Vec::new();
    push_fact(&mut facts, sfact("project compiles successfully", "./gradlew compileJava --quiet"));
    push_fact(&mut facts, sfact("all tests pass", "./gradlew test --quiet"));
    let r = stack("Java (Gradle)", "build.gradle", facts);
    assert(r@.facts =~= java_gradle_spec(p@)->Some_0.facts);
    Some(r)
}

pub open spec fn elixir_spec(p: ProbeV) -> Option<StackV> {
    if !(p_exists(p, "mix.exs"@)) {
        None
    } else {
        Some(StackV { name: "Elixir"@, marker: "mix.exs"@, facts: seq![sf("project compiles successfully"@, "mix compile --warnings-as-errors"@), sf("all tests pass"@, "mix test"@)] })
    }
}

fn detect_elixir(p: &Probe) -> (r: Option<DetectedStack>)
    ensures
        match (r, elixir_spec(p@)) {
            (Some(s), Some(v)) => s@ == v,
            (None, None) => true,
            _ => false,
        },
{
    if !(file_exists(p, "mix.exs")) {
        return None;
    }
    let mut facts: Vec<StackFact> = Vec::new();
    push_fact(&mut facts, sfact("project compiles successfully", "mix compile --warnings-as-errors"));
    push_fact(&mut facts, sfact("all tests pass", "mix test"));
    let r = stack("Elixir", "mix.exs", facts);
    assert(r@.facts =~= elixir_spec(p@)->Some_0.facts);
    Some(r)
}

pub open spec fn swift_spec(p: ProbeV) -> Option<StackV> {
    if !(p_exists(p, "Package.swift"@)) {
        None
    } else {
        Some(StackV { name: "Swift"@, marker: "Package.swift"@, facts: seq![sf("project builds successfully"@, "swift build"@), sf("all tests pass"@, "swift test"@)] })
    }
}

fn detect_swift(p: &Probe) -> (r: Option<DetectedStack>)
    ensures
        match (r, swift_spec(p@)) {
            (Some(s), Some(v)) => s@ == v,
            (None, None) => true,
            _ => false,
        },
{
    if !(file_exists(p, "Package.swift")) {
        return None;
    }
    let mut facts: Vec<StackFact> = Vec::new();
    push_fact(&mut facts, sfact("project builds successfully", "swift build"));
    push_fact(&mut facts, sfact("all tests pass", "swift test"));
    let r = stack("Swift", "Package.swift", facts);
    assert(r@.facts =~= swift_spec(p@)->Some_0.facts);
    Some(r)
}

pub open spec fn dotnet_spec(p: ProbeV) -> Option<StackV> {
    if !(p_glob(p, ".csproj"@)) {
        None
    } else {
        Some(StackV { name: "C# (.NET)"@, marker: "*.csproj"@, facts: seq![sf("project builds successfully"@, "dotnet build --nologo -q"@), sf("all tests pass"@, "dotnet test --nologo -q"@)] })
    }
}

fn detect_dotnet(p: &Probe) -> (r: Option<DetectedStack>)
    ensures
        match (r, dotnet_spec(p@)) {
            (Some(s), Some(v)) => s@ == v,
            (None, None) => true,
            _ => false,
        },
{
    if !(has_glob(p, ".csproj")) {
        return None;
    }
    let mut facts: Vec<StackFact> = Vec::new();
    push_fact(&mut facts, sfact("project builds successfully", "dotnet build --nologo -q"));
    push_fact(&mut facts, sfact("all tests pass", "dotnet test --nologo -q"));
    let r = stack("C# (.NET)", "*.csproj", facts);
    assert(r@.facts =~= dotnet_spec(p@)->Some_0.facts);
    Some(r)
}

pub open spec fn zig_spec(p: ProbeV) -> Option<StackV> {
    if !(p_exists(p, "build.zig"@)) {
        None
    } else {
        Some(StackV { name: "Zig"@, marker: "build.zig"@, facts: seq![sf("project builds successfully"@, "zig build"@), sf("all tests pass"@, "zig build test"@)] })
    }
}

fn detect_zig(p: &Probe) -> (r: Option<DetectedStack>)
    ensures
        match (r, zig_spec(p@)) {
            (Some(s), Some(v)) => s@ == v,
            (None, None) => true,
            _ => false,
        },
{
    if !(file_exists(p, "build.zig")) {
        return None;
    }
    let mut facts: Vec<StackFact> = Vec::new();
    push_fact(&mut facts, sfact("project builds successfully", "zig build"));
    push_fact(&mut facts, sfact("all tests pass", "zig build test"));
    let r = stack("Zig", "build.zig", facts);
    assert(r@.facts =~= zig_spec(p@)->Some_0.facts);
    Some(r)
}

pub open spec fn gleam_spec(p: ProbeV) -> Option<StackV> {
    if !(p_exists(p, "gleam.toml"@)) {
        None
    } else {
        Some(StackV { name: "Gleam"@, marker: "gleam.toml"@, facts: seq![sf("project builds successfully"@, "gleam build"@), sf("all tests pass"@, "gleam test"@)] })
    }
}

fn detect_gleam(p: &Probe) -> (r: Option<DetectedStack>)
    ensures
        match (r, gleam_spec(p@)) {
            (Some(s), Some(v)) => s@ == v,
            (None, None) => true,
            _ => false,
        },
{
    if !(file_exists(p, "gleam.toml")) {
        return None;
    }
    let mut facts: Vec<StackFact> = Vec::new();
    push_fact(&mut facts, sfact("project builds successfully", "gleam build"));
    push_fact(&mut facts, sfact("all tests pass", "gleam test"));
    let r = stack("Gleam", "gleam.toml", facts);
    assert(r@.facts =~= gleam_spec(p@)->Some_0.facts);
    Some(r)
}

pub open spec fn docker_spec(p: ProbeV) -> Option<StackV> {
    if !(p_exists(p, "Dockerfile"@)) {
        None
    } else {
        Some(StackV { name: "Docker"@, marker: "Dockerfile"@, facts: seq![sf("Docker image builds"@, "docker build -t facts-check ."@)] })
    }
}

fn detect_docker(p: &Probe) -> (r: Option<DetectedStack>)
    ensures
        match (r, docker_spec(p@)) {
            (Some(s), Some(v)) => s@ == v,
            (None, None) => true,
            _ => false,
        },
{
    if !(file_exists(p, "Dockerfile")) {
        return None;
    }
    let mut facts: Vec<StackFact> = Vec::new();
    push_fact(&mut facts, sfact("Docker image builds", "docker build -t facts-check ."));
    let r = stack("Docker", "Dockerfile", facts);
    assert(r@.facts =~= docker_spec(p@)->Some_0.facts);
    Some(r)
}

pub open spec fn terraform_spec(p: ProbeV) -> Option<StackV> {
    if !(p_glob(p, ".tf"@)) {
        None
    } else {
        Some(StackV { name: "Terraform"@, marker: "*.tf"@, facts: seq![sf("Terraform configuration is valid"@, "terraform validate"@), sf("Terraform is formatted"@, "terraform fmt -check"@)] })
    }
}

fn detect_terraform(p: &Probe) -> (r: Option<DetectedStack>)
    ensures
        match (r, terraform_spec(p@)) {
            (Some(s), Some(v)) => s@ == v,
            (None, None) => true,
            _ => false,
        },
{
    if !(has_glob(p, ".tf")) {
        return None;
    }
    let mut facts: Vec<StackFact> = Vec::new();
    push_fact(&mut facts, sfact("Terraform configuration is valid", "terraform validate"));
    push_fact(&mut facts, sfact("Terraform is formatted", "terraform fmt -check"));
    let r = stack("Terraform", "*.tf", facts);
    assert(r@.facts =~= terraform_spec(p@)->Some_0.facts);
    Some(r)
}

pub open spec fn go_spec(p: ProbeV) -> Option<StackV> {
    if !p_exists(p, "go.mod"@) {
        None
    } else {
        Some(StackV {
            name: "Go"@,
            marker: "go.mod"@,
            facts: seq![
                sf("project builds successfully"@, "go build ./..."@),
                sf("all tests pass"@, "go test ./..."@),
                sf("code is formatted"@, "test -z \"$(gofmt -l .)\""@),
            ] + when(
                p_exists(p, ".golangci.yml"@) || p_exists(p, ".golangci.yaml"@) || p_exists(p, ".golangci.toml"@),
                sf("linter passes"@, "golangci-lint run"@),
            ),
        })
    }
}

fn detect_go(p: &Probe) -> (r: Option<DetectedStack>)
    ensures
        match (r, go_spec(p@)) {
            (Some(s), Some(v)) => s@ == v,
            (None, None) => true,
            _ => false,
        },
{
    if !file_exists(p, "go.mod") {
        return None;
    }
    let mut facts: Vec<StackFact> = Vec::new();
    push_fact(&mut facts, sfact("project builds successfully", "go build ./..."));
    push_fact(&mut facts, sfact("all tests pass", "go test ./..."));
    push_fact(&mut facts, sfact("code is formatted", "test -z \"$(gofmt -l .)\""));
    if file_exists(p, ".golangci.yml") || file_exists(p, ".golangci.yaml") || file_exists(p, ".golangci.toml") {
        push_fact(&mut facts, sfact("linter passes", "golangci-lint run"));
    }
    let r = stack("Go", "go.mod", facts);
    assert(r@.facts =~= go_spec(p@)->Some_0.facts);
    Some(r)
}

pub open spec fn ruby_spec(p: ProbeV) -> Option<StackV> {
    if !p_exists(p, "Gemfile"@) {
        None
    } else {
        Some(StackV {
            name: "Ruby"@,
            marker: "Gemfile"@,
            facts: seq![sf("dependencies are installed"@, "bundle check"@)] + (if p_exists(p, "Rakefile"@) {
                seq![sf("all tests pass"@, "bundle exec rake test"@)]
            } else {
                when(p_dir(p, "spec"@), sf("all tests pass"@, "bundle exec rspec"@))
            }) + when(p_exists(p, ".rubocop.yml"@), sf("code passes linting"@, "bundle exec rubocop"@)),
        })
    }
}

fn detect_ruby(p: &Probe) -> (r: Option<DetectedStack>)
    ensures
        match (r, ruby_spec(p@)) {
            (Some(s), Some(v)) => s@ == v,
            (None, None) => true,
            _ => false,
        },
{
    if !file_exists(p, "Gemfile") {
        return None;
    }
    let mut facts: Vec<StackFact> = Vec::new();
    push_fact(&mut facts, sfact("dependencies are installed", "bundle check"));
    if file_exists(p, "Rakefile") {
        push_fact(&mut facts, sfact("all tests pass", "bundle exec rake test"));
    } else if is_dir(p, "spec") {
        push_fact(&mut facts, sfact("all tests pass", "bundle exec rspec"));
    }
    let ghost a = sfacts_view(facts@);
    if file_exists(p, ".rubocop.yml") {
        push_fact(&mut facts, sfact("code passes linting", "bundle exec rubocop"));
    }
    let r = stack("Ruby", "Gemfile", facts);
    assert(r@.facts =~= ruby_spec(p@)->Some_0.facts);
    Some(r)
}

pub open spec fn php_spec(p: ProbeV) -> Option<StackV> {
    if !p_exists(p, "composer.json"@) {
        None
    } else {
        let c = p_read_or_empty(p, "composer.json"@);
        Some(StackV {
            name: "PHP (Composer)"@,
            marker: "composer.json"@,
            facts: seq![sf("dependencies are installed"@, "test -d vendor"@)] + (if has_script(c, "test"@) {
                seq![sf("all tests pass"@, "composer test"@)]
            } else {
                when(
                    p_exists(p, "phpunit.xml"@) || p_exists(p, "phpunit.xml.dist"@),
                    sf("all tests pass"@, "./vendor/bin/phpunit"@),
                )
            }) + when(has_script(c, "lint"@), sf("code passes linting"@, "composer lint"@)),
        })
    }
}

fn detect_php(p: &Probe) -> (r: Option<DetectedStack>)
    ensures
        match (r, php_spec(p@)) {
            (Some(s), Some(v)) => s@ == v,
            (None, None) => true,
            _ => false,
        },
{
    if !file_exists(p, "composer.json") {
        return None;
    }
    let content = read_or_empty(p, "composer.json");
    let c = content.as_str();
    let mut facts: Vec<StackFact> = Vec::new();
    push_fact(&mut facts, sfact("dependencies are installed", "test -d vendor"));
    if json_has_script(c, "test") {
        push_fact(&mut facts, sfact("all tests pass", "composer test"));
    } else if file_exists(p, "phpunit.xml") || file_exists(p, "phpunit.xml.dist") {
        push_fact(&mut facts, sfact("all tests pass", "./vendor/bin/phpunit"));
    }
    let ghost a = sfacts_view(facts@);
    if json_has_script(c, "lint") {
        push_fact(&mut facts, sfact("code passes linting", "composer lint"));
    }
    let r = stack("PHP (Composer)", "composer.json", facts);
    assert(r@.facts =~= php_spec(p@)->Some_0.facts);
    Some(r)
}

/// Whether a Dart project is a Flutter one.
pub open spec fn is_flutter(p: ProbeV) -> bool {
    p_exists(p, "lib/main.dart"@) || match p_read(p, "pubspec.yaml"@) {
        Some(c) => contains(c, "flutter:"@),
        None => false,
    }
}

pub open spec fn dart_spec(p: ProbeV) -> Option<StackV> {
    if !p_exists(p, "pubspec.yaml"@) {
        None
    } else if is_flutter(p) {
        Some(StackV {
            name: "Flutter"@,
            marker: "pubspec.yaml"@,
            facts: seq![sf("all tests pass"@, "flutter test"@), sf("code passes analysis"@, "flutter analyze"@)],
        })
    } else {
        Some(StackV {
            name: "Dart"@,
            marker: "pubspec.yaml"@,
            facts: seq![sf("all tests pass"@, "dart test"@), sf("code passes analysis"@, "dart analyze"@)],
        })
    }
}

fn detect_dart(p: &Probe) -> (r: Option<DetectedStack>)
    ensures
        match (r, dart_spec(p@)) {
            (Some(s), Some(v)) => s@ == v,
            (None, None) => true,
            _ => false,
        },
{
    if !file_exists(p, "pubspec.yaml") {
        return None;
    }
    let flutter = file_exists(p, "lib/main.dart") || match read_file(p, "pubspec.yaml") {
        Some(c) => find_seq(chars_of(c.as_str()).as_slice(), chars_of("flutter:").as_slice()).is_some(),
        None => false,
    };
    let mut facts: Vec<StackFact> = Vec::new();
    if flutter {
        push_fact(&mut facts, sfact("all tests pass", "flutter test"));
        push_fact(&mut facts, sfact("code passes analysis", "flutter analyze"));
        let r = stack("Flutter", "pubspec.yaml", facts);
        assert(r@.facts =~= dart_spec(p@)->Some_0.facts);
        Some(r)
    } else {
        push_fact(&mut facts, sfact("all tests pass", "dart test"));
        push_fact(&mut facts, sfact("code passes analysis", "dart analyze"));
        let r = stack("Dart", "pubspec.yaml", facts);
        assert(r@.facts =~= dart_spec(p@)->Some_0.facts);
        Some(r)
    }
}

pub open spec fn opt_seq(o: Option<StackV>) -> Seq<StackV> {
    match o {
        Some(s) => seq![s],
        None => seq![],
    }
}

/// The stacks a project uses, in detector order.
pub open spec fn stacks_spec(p: ProbeV) -> Seq<StackV> {
    opt_seq(deno_spec(p)) + opt_seq(node_spec(p)) + opt_seq(rust_spec(p)) + opt_seq(python_spec(p)) + opt_seq(go_spec(p))
        + opt_seq(ruby_spec(p)) + opt_seq(java_maven_spec(p)) + opt_seq(java_gradle_spec(p)) + opt_seq(elixir_spec(p))
        + opt_seq(php_spec(p)) + opt_seq(swift_spec(p)) + opt_seq(dotnet_spec(p)) + opt_seq(zig_spec(p)) + opt_seq(
        gleam_spec(p),
    ) + opt_seq(dart_spec(p)) + opt_seq(docker_spec(p)) + opt_seq(terraform_spec(p))
}

fn push_stack(v: &mut Vec<DetectedStack>, o: Option<DetectedStack>, ghost_o: Ghost<Option<StackV>>)
    requires
        match (o, ghost_o@) {
            (Some(s), Some(g)) => s@ == g,
            (None, None) => true,
            _ => false,
        },
    ensures
        stacks_view(final(v)@) == stacks_view(old(v)@) + opt_seq(ghost_o@),
{
    match o {
        Some(s) => {
            v.push(s);
            assert(stacks_view(v@) =~= stacks_view(old(v)@) + opt_seq(ghost_o@));
        },
        None => {
            assert(stacks_view(v@) =~= stacks_view(old(v)@) + opt_seq(ghost_o@));
        },
    }
}

/// The stacks a project uses, as the probe shows it.
pub fn detect_stacks(p: &Probe) -> (r: Vec<DetectedStack>)
    ensures
        stacks_view(r@) =~= stacks_spec(p@),
{
    let mut v: Vec<DetectedStack> = Vec::new();
    push_stack(&mut v, detect_deno(p), Ghost(deno_spec(p@)));
    push_stack(&mut v, detect_node(p), Ghost(node_spec(p@)));
    push_stack(&mut v, detect_rust(p), Ghost(rust_spec(p@)));
    push_stack(&mut v, detect_python(p), Ghost(python_spec(p@)));
    push_stack(&mut v, detect_go(p), Ghost(go_spec(p@)));
    push_stack(&mut v, detect_ruby(p), Ghost(ruby_spec(p@)));
    push_stack(&mut v, detect_java_maven(p), Ghost(java_maven_spec(p@)));
    push_stack(&mut v, detect_java_gradle(p), Ghost(java_gradle_spec(p@)));
    push_stack(&mut v, detect_elixir(p), Ghost(elixir_spec(p@)));
    push_stack(&mut v, detect_php(p), Ghost(php_spec(p@)));
    push_stack(&mut v, detect_swift(p), Ghost(swift_spec(p@)));
    push_stack(&mut v, detect_dotnet(p), Ghost(dotnet_spec(p@)));
    push_stack(&mut v, detect_zig(p), Ghost(zig_spec(p@)));
    push_stack(&mut v, detect_gleam(p), Ghost(gleam_spec(p@)));
    push_stack(&mut v, detect_dart(p), Ghost(dart_spec(p@)));
    push_stack(&mut v, detect_docker(p), Ghost(docker_spec(p@)));
    push_stack(&mut v, detect_terraform(p), Ghost(terraform_spec(p@)));
    v
}

// ---------------------------------------------------------------------------
// The scaffolded file
// ---------------------------------------------------------------------------

/// The lines of one scaffolded fact.
pub open spec fn sfact_text(f: SFactV) -> Seq<char> {
    match f.1 {
        Some(c) => "- label: "@ + f.0 + "\n  command: "@ + c + "\n"@,
        None => "- "@ + f.0 + "\n"@,
    }
}

/// A blank line, then the facts of a stack.
pub open spec fn stack_text(s: StackV) -> Seq<char> {
    seq!['\n'] + crate::text::concat_map(s.facts, |i: int, f: SFactV| sfact_text(f))
}

/// The content of a scaffolded `.facts` file.
pub open spec fn facts_content(stacks: Seq<StackV>) -> Seq<char> {
    if stacks.len() == 0 {
        "# project\n\n- project is set up and ready for development\n"@
    } else {
        "# project\n"@ + crate::text::concat_map(stacks, |i: int, s: StackV| stack_text(s))
    }
}

fn sfact_chars(f: &StackFact) -> (r: Vec<char>)
    ensures
        r@ == sfact_text(f@),
{
    match &f.command {
        Some(c) => {
            let a = concat3("- label: ", chars_of(f.label.as_str()).as_slice(), "\n  command: ");
            concat2(concat2(a.as_slice(), chars_of(c.as_str()).as_slice()).as_slice(), chars_of("\n").as_slice())
        },
        None => concat3("- ", chars_of(f.label.as_str()).as_slice(), "\n"),
    }
}

fn stack_chars(s: &DetectedStack) -> (r: Vec<char>)
    ensures
        r@ == stack_text(s@),
{
    let ghost fv = sfacts_view(s.facts@);
    let ghost g = |i: int, f: SFactV| sfact_text(f);
    let mut out: Vec<char> = vec!['\n'];
    assert(out@ =~= seq!['\n']);
    let mut i: usize = 0;
    while i < s.facts.len()
        invariant
            i <= s.facts@.len(),
            fv == sfacts_view(s.facts@),
            g == (|i: int, f: SFactV| sfact_text(f)),
            out@ =~= seq!['\n'] + crate::text::concat_map(fv.take(i as int), g),
        decreases s.facts.len() - i,
    {
        proof {
            crate::text::lemma_concat_map_step(fv, g, i as int);
        }
        let mut t = sfact_chars(&s.facts[i]);
        out.append(&mut t);
        i += 1;
    }
    assert(fv.take(i as int) =~= fv);
    out
}

/// The content of a scaffolded `.facts` file for the detected stacks.
pub fn generate_facts_content(stacks: &[DetectedStack]) -> (r: String)
    ensures
        r@ == facts_content(stacks_view(stacks@)),
{
    if stacks.len() == 0 {
        return string_of(chars_of("# project\n\n- project is set up and ready for development\n").as_slice());
    }
    let ghost sv = stacks_view(stacks@);
    let ghost g = |i: int, s: StackV| stack_text(s);
    let mut out = chars_of("# project\n");
    let ghost head = out@;
    let mut i: usize = 0;
    while i < stacks.len()
        invariant
            i <= stacks@.len(),
            sv == stacks_view(stacks@),
            g == (|i: int, s: StackV| stack_text(s)),
            head == "# project\n"@,
            out@ =~= head + crate::text::concat_map(sv.take(i as int), g),
        decreases stacks.len() - i,
    {
        proof {
            crate::text::lemma_concat_map_step(sv, g, i as int);
        }
        let mut t = stack_chars(&stacks[i]);
        out.append(&mut t);
        i += 1;
    }
    assert(sv.take(i as int) =~= sv);
    string_of(out.as_slice())
}

// ---------------------------------------------------------------------------
// Agent docs (AGENTS.md)
// ---------------------------------------------------------------------------

/// The section of agent docs that describes fact-driven development.
pub const AGENT_DOCS_SECTION: &'static str = "\
<!-- facts:start -->
## Fact-driven development

This project uses [facts](https://github.com/av/facts) for specification and documentation. All work flows through the fact sheet — it is the source of truth.

**Every change starts with a fact.** Facts are the spec — they define what \"done\" means. Code that isn't described by a fact is unverifiable and will be treated as incorrect. The skill `facts skills show facts` has the full format spec and command reference.

1. `facts list` — read the current spec to orient. Fact sheets can be large — use filters to focus: `--section \"cli/init\"`, `--tags \"draft\"`, `--file api.facts`, `--manual`. Read only the section relevant to your task, not the entire sheet.
2. `facts add` — write facts describing what should be true when done. Each fact is a testable claim. You are not ready to write code until this step is complete.
3. Implement the code to make those facts true
4. `facts check --tags \"<tag>\"` or `facts get <id>` — verify your changes. Never run bare `facts check` unless asked.
5. `facts edit <id> --add-tag implemented` — mark verified facts done

Step 4 only works if step 2 happened. If you skipped step 2, go back now — you cannot verify work that has no fact.

**Manual facts (`?` in check output):** these have no command, so you verify them by reading the relevant code. For each `?` fact: read what it claims, check the code, report PASS or FAIL with a one-line reason. Reporting \"N manual\" without verifying each one is not acceptable.

**Lifecycle:** `@draft` → `@spec` → `@implemented`

**Domain:** the `## domain` section in `.facts` defines the project's entities and relations — read it first to learn the vocabulary.

**Skills** (invoke via `facts skills show <name>`):
- `facts-refine` — sharpen `@draft` facts into `@spec` with the user
- `facts-discover` — scan the codebase and sync facts to reality (only when explicitly asked)
- `facts-implement` — implement `@spec` facts in code, verify, tag `@implemented`
<!-- facts:end -->";

/// The files that may hold agent docs, in the order they are looked at; the
/// last one is created when none of them exists.
pub fn agent_md_files() -> (r: Vec<&'static str>)
    ensures
        r@.len() == 1,
        r@[0]@ == "AGENTS.md"@,
{
    vec!["AGENTS.md"]
}

pub open spec fn section_start() -> Seq<char> {
    "<!-- facts:start -->"@
}

pub open spec fn section_end() -> Seq<char> {
    "<!-- facts:end -->"@
}

/// Where the facts section of agent docs lies: its start and the index just past
/// its end marker, when both markers are there.
pub open spec fn section_bounds(c: Seq<char>) -> Option<(nat, nat)> {
    match find(c, section_start()) {
        None => None,
        Some(start) => match find(c.skip(start as int), section_end()) {
            None => None,
            Some(rel) => Some((start, start + rel + section_end().len())),
        },
    }
}

/// What installing the facts section does to an agent doc.
pub enum DocUpdate {
    /// The section is there and current.
    Unchanged,
    /// The section was there and is replaced by the current one.
    Replaced(String),
    /// There was no section; the current one is appended.
    Appended(String),
}

pub enum DocUpdateV {
    Unchanged,
    Replaced(Seq<char>),
    Appended(Seq<char>),
}

impl View for DocUpdate {
    type V = DocUpdateV;

    open spec fn view(&self) -> DocUpdateV {
        match self {
            DocUpdate::Unchanged => DocUpdateV::Unchanged,
            DocUpdate::Replaced(s) => DocUpdateV::Replaced(s@),
            DocUpdate::Appended(s) => DocUpdateV::Appended(s@),
        }
    }
}

/// The text of an agent doc without a facts section, with the section appended
/// after one blank line.
pub open spec fn appended_doc(c: Seq<char>) -> Seq<char> {
    let c1 = if !ends_with(c, seq!['\n']) && c.len() > 0 { c.push('\n') } else { c };
    let c2 = if c1.len() > 0 { c1.push('\n') } else { c1 };
    c2 + AGENT_DOCS_SECTION@ + seq!['\n']
}

/// What installing the facts section does to an agent doc with content `c`.
pub open spec fn doc_update_spec(c: Seq<char>) -> DocUpdateV {
    match section_bounds(c) {
        Some((start, end)) => if c.subrange(start as int, end as int) == AGENT_DOCS_SECTION@ {
            DocUpdateV::Unchanged
        } else {
            DocUpdateV::Replaced(c.take(start as int) + AGENT_DOCS_SECTION@ + c.skip(end as int))
        },
        None => DocUpdateV::Appended(appended_doc(c)),
    }
}

fn bounds(c: &[char]) -> (r: Option<(usize, usize)>)
    ensures
        match (r, section_bounds(c@)) {
            (Some((s, e)), Some((s2, e2))) => s == s2 && e == e2 && s <= e <= c@.len(),
            (None, None) => true,
            _ => false,
        },
{
    let st = chars_of("<!-- facts:start -->");
    let en = chars_of("<!-- facts:end -->");
    match find_seq(c, st.as_slice()) {
        None => None,
        Some(start) => {
            let rest = slice_of(c, start, c.len());
            assert(rest@ =~= c@.skip(start as int));
            match find_seq(rest.as_slice(), en.as_slice()) {
                None => None,
                Some(rel) => Some((start, start + rel + en.len())),
            }
        },
    }
}

/// Install the facts section into an agent doc whose content is `content`. A doc
/// that has the start marker must have the end marker after it.
pub fn agent_doc_update(content: &str) -> (r: DocUpdate)
    requires
        find(content@, section_start()) is Some ==> section_bounds(content@) is Some,
    ensures
        r@ == doc_update_spec(content@),
{
    let c = chars_of(content);
    let section = chars_of(AGENT_DOCS_SECTION);
    match bounds(c.as_slice()) {
        Some((start, end)) => {
            let existing = slice_of(c.as_slice(), start, end);
            if same(existing.as_slice(), section.as_slice()) {
                DocUpdate::Unchanged
            } else {
                let before = slice_of(c.as_slice(), 0, start);
                let after = slice_of(c.as_slice(), end, c.len());
                let v = concat2(concat2(before.as_slice(), section.as_slice()).as_slice(), after.as_slice());
                assert(v@ =~= c@.take(start as int) + AGENT_DOCS_SECTION@ + c@.skip(end as int));
                DocUpdate::Replaced(string_of(v.as_slice()))
            }
        },
        None => {
            let mut v = copy_chars(c.as_slice());
            let nl = vec!['\n'];
            assert(nl@ =~= seq!['\n']);
            let ghost c0 = c@;
            if !has_suffix(v.as_slice(), nl.as_slice()) && v.len() > 0 {
                v.push('\n');
            }
            let ghost c1 = v@;
            assert(c1 == if !ends_with(c0, seq!['\n']) && c0.len() > 0 { c0.push('\n') } else { c0 });
            if v.len() > 0 {
                v.push('\n');
            }
            let ghost c2 = v@;
            assert(c2 == if c1.len() > 0 { c1.push('\n') } else { c1 });
            let mut sec = copy_chars(section.as_slice());
            v.append(&mut sec);
            v.push('\n');
            assert(v@ =~= c2 + AGENT_DOCS_SECTION@ + seq!['\n']);
            DocUpdate::Appended(string_of(v.as_slice()))
        },
    }
}

/// The content of a new agent doc: just the facts section.
pub fn new_agent_doc() -> (r: String)
    ensures
        r@ == AGENT_DOCS_SECTION@ + seq!['\n'],
{
    let mut v = chars_of(AGENT_DOCS_SECTION);
    v.push('\n');
    string_of(v.as_slice())
}

/// An agent doc with its facts section removed: the text before and after it,
/// without the line breaks that joined them, separated by one blank line; empty
/// when nothing else was there. `None` when the doc has no complete section.
pub open spec fn without_section_spec(c: Seq<char>) -> Option<Seq<char>> {
    match section_bounds(c) {
        None => None,
        Some((start, end)) => {
            let before = crate::init::strip_trailing(c.take(start as int), '\n');
            let after = crate::init::strip_leading(c.skip(end as int), '\n');
            Some(
                if before.len() == 0 && after.len() == 0 {
                    seq![]
                } else if before.len() == 0 {
                    after + seq!['\n']
                } else if after.len() == 0 {
                    before + seq!['\n']
                } else {
                    before + seq!['\n', '\n'] + after + seq!['\n']
                },
            )
        },
    }
}

/// The agent doc without its facts section (see `without_section_spec`).
pub fn without_agent_docs(content: &str) -> (r: Option<String>)
    ensures
        match (r, without_section_spec(content@)) {
            (Some(s), Some(v)) => s@ == v,
            (None, None) => true,
            _ => false,
        },
{
    let c = chars_of(content);
    match bounds(c.as_slice()) {
        None => None,
        Some((start, end)) => {
            let head = slice_of(c.as_slice(), 0, start);
            let tail = slice_of(c.as_slice(), end, c.len());
            assert(head@ =~= c@.take(start as int));
            assert(tail@ =~= c@.skip(end as int));
            let before = without_trailing(head.as_slice(), '\n');
            let after = without_leading(tail.as_slice(), '\n');
            let v = if before.len() == 0 && after.len() == 0 {
                Vec::new()
            } else if before.len() == 0 {
                concat2(after.as_slice(), vec!['\n'].as_slice())
            } else if after.len() == 0 {
                concat2(before.as_slice(), vec!['\n'].as_slice())
            } else {
                concat2(concat2(concat2(before.as_slice(), vec!['\n', '\n'].as_slice()).as_slice(), after.as_slice()).as_slice(), vec!['\n'].as_slice())
            };
            Some(string_of(v.as_slice()))
        },
    }
}

// ---------------------------------------------------------------------------
// Setting a project up
// ---------------------------------------------------------------------------

/// What the project root holds under the name `.facts`.
#[derive(PartialEq, Eq, Structural, Debug, Clone, Copy)]
pub enum FactsFile {
    Missing,
    File,
    Other,
}

/// What `init` does about `.facts`: the content to write, if any, and the line
/// that reports it.
pub struct FactsPlan {
    pub write: Option<String>,
    pub message: String,
}

/// The names of the detected stacks.
pub open spec fn stack_names(stacks: Seq<StackV>) -> Seq<Seq<char>> {
    stacks.map_values(|s: StackV| s.name)
}

/// The report of a newly created `.facts`.
pub open spec fn create_message(stacks: Seq<StackV>) -> Seq<char> {
    if stacks.len() == 0 {
        "  create  .facts (no frameworks detected)"@
    } else {
        "  create  .facts (detected: "@ + join(stack_names(stacks), ", "@) + ")"@
    }
}

fn names_of(stacks: &Vec<DetectedStack>) -> (r: Vec<Vec<char>>)
    ensures
        vv(r@) =~= stack_names(stacks_view(stacks@)),
{
    let mut r: Vec<Vec<char>> = Vec::new();
    let mut i: usize = 0;
    while i < stacks.len()
        invariant
            i <= stacks@.len(),
            vv(r@) =~= stack_names(stacks_view(stacks@)).take(i as int),
        decreases stacks.len() - i,
    {
        let ghost before = vv(r@);
        r.push(chars_of(stacks[i].name));
        proof {
            assert(vv(r@) =~= before.push(stacks@[i as int].name@));
            assert(stack_names(stacks_view(stacks@)).take(i + 1) =~= stack_names(stacks_view(stacks@)).take(
                i as int,
            ).push(stacks@[i as int].name@));
        }
        i += 1;
    }
    assert(stack_names(stacks_view(stacks@)).take(stacks@.len() as int) =~= stack_names(stacks_view(stacks@)));
    r
}

/// Set up `.facts` in a project root whose `.facts` is `facts` and whose files
/// `probe` shows: an existing sheet is kept, a missing one is scaffolded from the
/// detected stacks, and anything else under that name is an error.
pub fn run(facts: FactsFile, probe: &Probe) -> (r: Result<FactsPlan, String>)
    ensures
        facts == FactsFile::Other <==> r is Err,
        r matches Err(e) ==> e@ == ".facts exists but is not a file"@,
        facts == FactsFile::File ==> (r matches Ok(p) && p.write is None && p.message@
            == "  skip  .facts (already exists)"@),
        facts == FactsFile::Missing ==> (r matches Ok(p) && (p.write matches Some(c) && c@
            == facts_content(stacks_spec(probe@))) && p.message@ == create_message(
            stacks_spec(probe@),
        )),
{
    match facts {
        FactsFile::Other => Err(string_of(chars_of(".facts exists but is not a file").as_slice())),
        FactsFile::File => Ok(
            FactsPlan {
                write: None,
                message: string_of(chars_of("  skip  .facts (already exists)").as_slice()),
            },
        ),
        FactsFile::Missing => {
            let stacks = detect_stacks(probe);
            let content = generate_facts_content(stacks.as_slice());
            let message = if stacks.len() == 0 {
                string_of(chars_of("  create  .facts (no frameworks detected)").as_slice())
            } else {
                let names = names_of(&stacks);
                let sep = chars_of(", ");
                let joined = join_with(&names, sep.as_slice());
                let v = concat3("  create  .facts (detected: ", joined.as_slice(), ")");
                string_of(v.as_slice())
            };
            Ok(FactsPlan { write: Some(content), message })
        },
    }
}

/// `run` for a project root given directly, as the setup tests use it.
pub fn run_test_init(facts: FactsFile, probe: &Probe) -> (r: Result<FactsPlan, String>)
    ensures
        facts == FactsFile::Other <==> r is Err,
        r matches Err(e) ==> e@ == ".facts exists but is not a file"@,
        facts == FactsFile::File ==> (r matches Ok(p) && p.write is None && p.message@
            == "  skip  .facts (already exists)"@),
        facts == FactsFile::Missing ==> (r matches Ok(p) && (p.write matches Some(c) && c@
            == facts_content(stacks_spec(probe@))) && p.message@ == create_message(
            stacks_spec(probe@),
        )),
{
    run(facts, probe)
}

/// Installing one file: whether to write it, and the line that reports it.
pub struct InstallStep {
    pub write: bool,
    pub message: String,
}

/// Install the skill `name` with text `content` over `existing`, the text of
/// its `SKILL.md` when there is one: a current file is left alone.
pub fn skill_install(name: &str, existing: Option<&str>, content: &str) -> (r: InstallStep)
    ensures
        match existing {
            None => r.write && r.message@ == "  create  .agents/skills/"@ + name@ + "/SKILL.md"@,
            Some(e) => if e@ == content@ {
                !r.write && r.message@ == "  skip  .agents/skills/"@ + name@ + "/SKILL.md (up to date)"@
            } else {
                r.write && r.message@ == "  update  .agents/skills/"@ + name@ + "/SKILL.md"@
            },
        },
{
    let n = chars_of(name);
    match existing {
        None => InstallStep {
            write: true,
            message: string_of(concat3("  create  .agents/skills/", n.as_slice(), "/SKILL.md").as_slice()),
        },
        Some(e) => {
            let ev = chars_of(e);
            let cv = chars_of(content);
            if same(ev.as_slice(), cv.as_slice()) {
                InstallStep {
                    write: false,
                    message: string_of(
                        concat3("  skip  .agents/skills/", n.as_slice(), "/SKILL.md (up to date)").as_slice(),
                    ),
                }
            } else {
                InstallStep {
                    write: true,
                    message: string_of(concat3("  update  .agents/skills/", n.as_slice(), "/SKILL.md").as_slice()),
                }
            }
        },
    }
}

/// The line that reports what installing the facts section did to the agent doc `name`.
pub fn doc_update_message(name: &str, update: &DocUpdate) -> (r: String)
    ensures
        r@ == match update@ {
            DocUpdateV::Unchanged => "  skip  "@ + name@ + " (facts section up to date)"@,
            DocUpdateV::Replaced(_) => "  update  "@ + name@ + " (facts section updated)"@,
            DocUpdateV::Appended(_) => "  update  "@ + name@ + " (added facts section)"@,
        },
{
    let n = chars_of(name);
    let v = match update {
        DocUpdate::Unchanged => concat3("  skip  ", n.as_slice(), " (facts section up to date)"),
        DocUpdate::Replaced(_) => concat3("  update  ", n.as_slice(), " (facts section updated)"),
        DocUpdate::Appended(_) => concat3("  update  ", n.as_slice(), " (added facts section)"),
    };
    string_of(v.as_slice())
}

/// The line that reports a newly created agent doc `name`.
pub fn new_doc_message(name: &str) -> (r: String)
    ensures
        r@ == "  create  "@ + name@ + " (with facts section)"@,
{
    let n = chars_of(name);
    string_of(concat3("  create  ", n.as_slice(), " (with facts section)").as_slice())
}

} // verus!
