//! The `skills` subcommand: listing and showing the bundled agent skills.
use vstd::prelude::*;
use vstd::utf8::encode_scalar;
use vstd::utf8::encode_utf8;
use crate::text::{
    chars_of, concat_map, find_ch, find_char, has_prefix, join, join_with, lemma_concat_map_step,
    lines, pad_right, padded, same, slice_of, split_lines, starts_with, string_of, trim, trim_end,
    trimmed, trimmed_end, vv,
};

verus! {

/// Number of bytes in the UTF-8 encoding of `c`.
pub open spec fn char_utf8_len(c: char) -> nat {
    encode_scalar(c as u32).len()
}

/// Number of bytes in the UTF-8 encoding of `s` (`str::len`).
pub open spec fn utf8_len(s: Seq<char>) -> nat {
    encode_utf8(s).len()
}

/// The byte width of one character.
fn char_width(c: char) -> (w: usize)
    ensures
        w == char_utf8_len(c),
        1 <= w <= 4,
{
    proof {
        vstd::utf8::char_is_scalar(c);
    }
    let u = c as u32;
    if u <= 0x7f {
        1
    } else if u <= 0x7ff {
        2
    } else if u <= 0xffff {
        3
    } else {
        4
    }
}

proof fn lemma_utf8_len_push(s: Seq<char>, c: char)
    ensures
        utf8_len(s.push(c)) == utf8_len(s) + char_utf8_len(c),
    decreases s.len(),
{
    let t = s.push(c);
    assert(t[0] == (if s.len() == 0 { c } else { s[0] }));
    assert(encode_utf8(t) == encode_scalar(t[0] as u32) + encode_utf8(t.drop_first()));
    if s.len() == 0 {
        assert(t.drop_first() =~= Seq::<char>::empty());
        assert(encode_utf8(Seq::<char>::empty()).len() == 0);
    } else {
        assert(t.drop_first() =~= s.drop_first().push(c));
        assert(encode_utf8(s) == encode_scalar(s[0] as u32) + encode_utf8(s.drop_first()));
        lemma_utf8_len_push(s.drop_first(), c);
    }
}

proof fn lemma_char_width_pos(c: char)
    ensures
        char_utf8_len(c) >= 1,
{
    vstd::utf8::char_is_scalar(c);
}

/// Each character adds at least one byte, so a longer prefix is longer in bytes.
proof fn lemma_utf8_len_take_mono(s: Seq<char>, i: int, j: int)
    requires
        0 <= i < j <= s.len(),
    ensures
        utf8_len(s.take(i)) < utf8_len(s.take(j)),
    decreases j - i,
{
    assert(s.take(j) =~= s.take(j - 1).push(s[j - 1]));
    lemma_utf8_len_push(s.take(j - 1), s[j - 1]);
    lemma_char_width_pos(s[j - 1]);
    if i < j - 1 {
        lemma_utf8_len_take_mono(s, i, j - 1);
    }
}

/// ASCII white space as `u8::is_ascii_whitespace` knows it.
pub open spec fn is_ascii_ws(c: char) -> bool {
    c == '\t' || c == '\n' || c == '\x0C' || c == '\r' || c == ' '
}

/// The longest description shown in the skill list, in bytes.
pub open spec fn max_desc_bytes() -> nat {
    72
}

/// A place where a long description may be cut: an ASCII blank that starts within
/// the first `max_desc_bytes` bytes, past the first byte.
pub open spec fn space_cut(full: Seq<char>, k: int) -> bool {
    1 <= k < full.len() && utf8_len(full.take(k)) <= max_desc_bytes() && is_ascii_ws(full[k])
}

/// `k` is the last place where `full` may be cut at a blank.
pub open spec fn last_space_cut(full: Seq<char>, k: int) -> bool {
    space_cut(full, k) && forall|j: int| #[trigger] space_cut(full, j) ==> j <= k
}

/// `k` characters of `full` take exactly `max_desc_bytes` bytes.
pub open spec fn limit_point(full: Seq<char>, k: int) -> bool {
    0 <= k <= full.len() && utf8_len(full.take(k)) == max_desc_bytes()
}

/// Where a long description is cut: at the last blank that may cut it, or else
/// exactly after `max_desc_bytes` bytes.
pub open spec fn cut_point(full: Seq<char>) -> int {
    if exists|k: int| space_cut(full, k) {
        choose|k: int| last_space_cut(full, k)
    } else {
        choose|k: int| limit_point(full, k)
    }
}

/// A description as the skill list shows it: whole when it fits in
/// `max_desc_bytes` bytes, else cut, stripped of trailing white space and ended
/// with an ellipsis.
pub open spec fn shortened(full: Seq<char>) -> Seq<char> {
    if utf8_len(full) <= max_desc_bytes() {
        full
    } else {
        trim_end(full.take(cut_point(full))) + seq!['\u{2026}']
    }
}

/// A long description with no blank to cut at must have a character boundary
/// exactly at `max_desc_bytes` bytes (slicing there otherwise panics).
pub open spec fn can_shorten(full: Seq<char>) -> bool {
    utf8_len(full) > max_desc_bytes() && !(exists|k: int| space_cut(full, k)) ==> exists|k: int|
        limit_point(full, k)
}

/// The description parts collected from the lines `ls` from line `i` on, in the
/// state (`in_fm`: inside the front matter, `in_desc`: inside the description).
pub open spec fn desc_scan(
    ls: Seq<Seq<char>>,
    i: int,
    in_fm: bool,
    in_desc: bool,
    parts: Seq<Seq<char>>,
) -> Seq<Seq<char>>
    decreases ls.len() - i,
{
    if i < 0 || i >= ls.len() {
        parts
    } else {
        let line = ls[i];
        let t = trim(line);
        if t == "---"@ {
            if in_fm {
                parts
            } else {
                desc_scan(ls, i + 1, true, in_desc, parts)
            }
        } else if !in_fm {
            desc_scan(ls, i + 1, in_fm, in_desc, parts)
        } else if starts_with(t, "description:"@) {
            let rest = trim(t.skip("description:"@.len() as int));
            let parts2 = if rest.len() > 0 && rest != ">"@ && rest != "|"@ {
                parts.push(rest)
            } else {
                parts
            };
            desc_scan(ls, i + 1, in_fm, true, parts2)
        } else if in_desc {
            if (t.len() > 0 && find_char(t, ':') is None) || starts_with(t, " "@) || starts_with(
                line,
                "  "@,
            ) {
                desc_scan(ls, i + 1, in_fm, in_desc, parts.push(t))
            } else {
                parts
            }
        } else {
            desc_scan(ls, i + 1, in_fm, in_desc, parts)
        }
    }
}

/// The full description of a skill: the `description:` value of its front
/// matter and its continuation lines, joined with single spaces.
pub open spec fn full_description(content: Seq<char>) -> Seq<char> {
    join(desc_scan(lines(content), 0, false, false, seq![]), " "@)
}

/// The one-line description of a skill, as the skill list shows it.
pub open spec fn description(content: Seq<char>) -> Seq<char> {
    shortened(full_description(content))
}

fn description_parts(content: &str) -> (r: Vec<Vec<char>>)
    ensures
        vv(r@) == desc_scan(lines(content@), 0, false, false, seq![]),
{
    let c = chars_of(content);
    let ls = split_lines(c.as_slice());
    let ghost l = vv(ls@);
    let ghost target = desc_scan(l, 0, false, false, seq![]);
    let dashes = chars_of("---");
    let key = chars_of("description:");
    let gt = chars_of(">");
    let bar = chars_of("|");
    let sp1 = chars_of(" ");
    let sp2 = chars_of("  ");
    let mut in_fm = false;
    let mut in_desc = false;
    let mut parts: Vec<Vec<char>> = Vec::new();
    let mut i: usize = 0;
    assert(vv(parts@) =~= Seq::<Seq<char>>::empty());
    while i < ls.len()
        invariant
            i <= ls@.len(),
            l == vv(ls@),
            l == lines(content@),
            target == desc_scan(l, 0, false, false, seq![]),
            dashes@ == "---"@,
            key@ == "description:"@,
            gt@ == ">"@,
            bar@ == "|"@,
            sp1@ == " "@,
            sp2@ == "  "@,
            desc_scan(l, i as int, in_fm, in_desc, vv(parts@)) == target,
        decreases ls.len() - i,
    {
        let line = &ls[i];
        assert(line@ == l[i as int]);
        let t = trimmed(line.as_slice());
        if same(t.as_slice(), dashes.as_slice()) {
            if in_fm {
                assert(trim(l[i as int]) == "---"@);
                assert(desc_scan(l, i as int, in_fm, in_desc, vv(parts@)) == vv(parts@));
                return parts;
            }
            in_fm = true;
        } else if !in_fm {
        } else if has_prefix(t.as_slice(), key.as_slice()) {
            in_desc = true;
            let tail = slice_of(t.as_slice(), key.len(), t.len());
            assert(tail@ =~= t@.skip("description:"@.len() as int));
            let rest = trimmed(tail.as_slice());
            if rest.len() > 0 && !same(rest.as_slice(), gt.as_slice()) && !same(
                rest.as_slice(),
                bar.as_slice(),
            ) {
                let ghost before = vv(parts@);
                parts.push(rest);
                assert(vv(parts@) =~= before.push(rest@));
            }
        } else if in_desc {
            let has_colon = find_ch(t.as_slice(), ':').is_some();
            if (t.len() > 0 && !has_colon) || has_prefix(t.as_slice(), sp1.as_slice()) || has_prefix(
                line.as_slice(),
                sp2.as_slice(),
            ) {
                let ghost before = vv(parts@);
                parts.push(t);
                assert(vv(parts@) =~= before.push(trim(l[i as int])));
            } else {
                return parts;
            }
        }
        i += 1;
    }
    parts
}

proof fn lemma_past_limit(full: Seq<char>, i: int, off: nat, k: int)
    requires
        0 <= i <= k <= full.len(),
        off == utf8_len(full.take(i)),
        off > max_desc_bytes(),
    ensures
        utf8_len(full.take(k)) > max_desc_bytes(),
        !space_cut(full, k),
{
    if i < k {
        lemma_utf8_len_take_mono(full, i, k);
    }
}

/// The facts gathered by one pass over a description, up to the first
/// character that starts past `max_desc_bytes` bytes.
pub open spec fn scanned(f: Seq<char>, i: int, off: nat, cand: Option<usize>, at_limit: Option<usize>) -> bool {
    &&& 0 <= i <= f.len()
    &&& off == utf8_len(f.take(i))
    &&& (off > max_desc_bytes() || i == f.len())
    &&& match cand {
        Some(k) => space_cut(f, k as int) && k < i,
        None => true,
    }
    &&& forall|k: int| 0 <= k < i && #[trigger] space_cut(f, k) ==> (cand matches Some(m) && k <= m)
    &&& match at_limit {
        Some(k) => k <= i && utf8_len(f.take(k as int)) == max_desc_bytes(),
        None => true,
    }
    &&& forall|k: int|
        0 <= k < i && #[trigger] utf8_len(f.take(k)) == max_desc_bytes() ==> at_limit is Some
}

fn scan_description(full: &[char]) -> (r: (usize, usize, Option<usize>, Option<usize>))
    ensures
        scanned(full@, r.0 as int, r.1 as nat, r.2, r.3),
{
    let ghost f = full@;
    let n = full.len();
    let mut off: usize = 0;
    let mut i: usize = 0;
    let mut cand: Option<usize> = None;
    let mut at_limit: Option<usize> = None;
    assert(f.take(0) =~= Seq::<char>::empty());
    while i < n && off <= 72
        invariant
            f == full@,
            n == f.len(),
            i <= n,
            off == utf8_len(f.take(i as int)),
            match cand {
                Some(k) => space_cut(f, k as int) && k < i,
                None => true,
            },
            forall|k: int| 0 <= k < i && #[trigger] space_cut(f, k) ==> (cand matches Some(m) && k <= m),
            match at_limit {
                Some(k) => k <= i && utf8_len(f.take(k as int)) == max_desc_bytes(),
                None => true,
            },
            forall|k: int|
                0 <= k < i && #[trigger] utf8_len(f.take(k)) == max_desc_bytes() ==> at_limit is Some,
        decreases n - i,
    {
        let c = full[i];
        if i >= 1 && (c == '\t' || c == '\n' || c == '\x0C' || c == '\r' || c == ' ') {
            cand = Some(i);
        }
        if off == 72 {
            at_limit = Some(i);
        }
        proof {
            assert(f.take(i + 1) =~= f.take(i as int).push(c));
            lemma_utf8_len_push(f.take(i as int), c);
        }
        off = off + char_width(c);
        i = i + 1;
    }
    (i, off, cand, at_limit)
}

proof fn lemma_scanned_long(f: Seq<char>, i: int, off: nat, cand: Option<usize>, at_limit: Option<usize>)
    requires
        scanned(f, i, off, cand, at_limit),
        off > max_desc_bytes(),
    ensures
        utf8_len(f) > max_desc_bytes(),
{
    if i < f.len() {
        lemma_utf8_len_take_mono(f, i, f.len() as int);
    }
    assert(f.take(f.len() as int) =~= f);
}

proof fn lemma_scanned_space(f: Seq<char>, i: int, off: nat, m: usize, at_limit: Option<usize>)
    requires
        scanned(f, i, off, Some(m), at_limit),
        off > max_desc_bytes(),
    ensures
        cut_point(f) == m,
{
    assert(space_cut(f, m as int));
    assert forall|j: int| #[trigger] space_cut(f, j) implies j <= m by {
        if j >= i {
            lemma_past_limit(f, i, off, j);
        }
    }
    assert(last_space_cut(f, m as int));
    let k2 = cut_point(f);
    assert(last_space_cut(f, k2));
    assert(k2 <= m);
    assert(m <= k2);
}

proof fn lemma_scanned_limit(f: Seq<char>, i: int, off: nat, at_limit: Option<usize>)
    requires
        scanned(f, i, off, None, at_limit),
        off > max_desc_bytes(),
        can_shorten(f),
    ensures
        at_limit matches Some(m) && cut_point(f) == m,
{
    lemma_scanned_long(f, i, off, None, at_limit);
    assert forall|k: int| !space_cut(f, k) by {
        if i <= k <= f.len() {
            lemma_past_limit(f, i, off, k);
        }
    }
    let k0 = choose|k: int| limit_point(f, k);
    if k0 >= i {
        lemma_past_limit(f, i, off, k0);
    }
    assert(at_limit is Some);
    let m = at_limit.unwrap();
    let k2 = cut_point(f);
    assert(limit_point(f, k2));
    if k2 < m {
        lemma_utf8_len_take_mono(f, k2, m as int);
    } else if k2 > m {
        lemma_utf8_len_take_mono(f, m as int, k2);
    }
}

/// The one-line description of a skill, as the skill list shows it.
fn extract_description(content: &str) -> (r: String)
    requires
        can_shorten(full_description(content@)),
    ensures
        r@ == description(content@),
{
    let parts = description_parts(content);
    let sep = chars_of(" ");
    let full = join_with(&parts, sep.as_slice());
    let ghost f = full@;
    assert(f == full_description(content@));
    let (i, off, cand, at_limit) = scan_description(full.as_slice());
    if off <= 72 {
        assert(f.take(f.len() as int) =~= f);
        return string_of(full.as_slice());
    }
    proof {
        lemma_scanned_long(f, i as int, off as nat, cand, at_limit);
    }
    let m: usize = match cand {
        Some(m) => {
            proof {
                lemma_scanned_space(f, i as int, off as nat, m, at_limit);
            }
            m
        },
        None => {
            proof {
                lemma_scanned_limit(f, i as int, off as nat, at_limit);
            }
            at_limit.unwrap()
        },
    };
    let head = slice_of(full.as_slice(), 0, m);
    let mut out = trimmed_end(head.as_slice());
    out.push('\u{2026}');
    assert(head@ =~= f.take(m as int));
    string_of(out.as_slice())
}

/// What the `skills` subcommand is asked to do.
pub enum SkillsAction {
    /// List the skills with their descriptions.
    List,
    /// Show the text of one skill.
    Show { name: String },
    /// Install or update the skills in the project.
    Update,
}

/// What the `skills` subcommand produces: text to print, or the request to
/// install the skills into the project.
pub enum SkillsOutput {
    Print(String),
    Install,
}

/// Skills as (name, text) pairs of character sequences.
pub open spec fn skills_view(v: Seq<(String, String)>) -> Seq<(Seq<char>, Seq<char>)> {
    v.map_values(|p: (String, String)| (p.0@, p.1@))
}

/// The line of the skill list for one skill: the name padded to 20 characters,
/// a space and the description.
pub open spec fn list_line(name: Seq<char>, content: Seq<char>) -> Seq<char> {
    pad_right(name, 20) + " "@ + description(content) + "\n"@
}

/// The whole skill list, with the closing hints.
pub open spec fn list_text(skills: Seq<(Seq<char>, Seq<char>)>) -> Seq<char> {
    concat_map(skills, |i: int, p: (Seq<char>, Seq<char>)| list_line(p.0, p.1)) + "\n"@
        + "Use `facts skills show <name>` to read a skill.\n"@
        + "Use `facts skills update` to install or update skills in your project.\n"@
}

/// The text of the first skill called `name`, if any.
pub open spec fn find_skill(skills: Seq<(Seq<char>, Seq<char>)>, name: Seq<char>) -> Option<Seq<char>>
    decreases skills.len(),
{
    if skills.len() == 0 {
        None
    } else if skills[0].0 == name {
        Some(skills[0].1)
    } else {
        find_skill(skills.drop_first(), name)
    }
}

/// Every skill's description can be shown in the list.
pub open spec fn all_listable(skills: Seq<(Seq<char>, Seq<char>)>) -> bool {
    forall|i: int| 0 <= i < skills.len() ==> can_shorten(#[trigger] full_description(skills[i].1))
}

fn list_text_of(skills: &Vec<(String, String)>) -> (r: String)
    requires
        all_listable(skills_view(skills@)),
    ensures
        r@ == list_text(skills_view(skills@)),
{
    let ghost sv = skills_view(skills@);
    let ghost f = |i: int, p: (Seq<char>, Seq<char>)| list_line(p.0, p.1);
    let mut out: Vec<char> = Vec::new();
    let mut i: usize = 0;
    let sp = chars_of(" ");
    let nl = chars_of("\n");
    assert(sv.take(0) =~= Seq::<(Seq<char>, Seq<char>)>::empty());
    while i < skills.len()
        invariant
            i <= skills@.len(),
            sv == skills_view(skills@),
            all_listable(sv),
            f == (|i: int, p: (Seq<char>, Seq<char>)| list_line(p.0, p.1)),
            sp@ == " "@,
            nl@ == "\n"@,
            out@ == concat_map(sv.take(i as int), f),
        decreases skills.len() - i,
    {
        let name = chars_of(skills[i].0.as_str());
        assert(sv[i as int].1 == skills@[i as int].1@);
        assert(can_shorten(full_description(sv[i as int].1)));
        let desc = extract_description(skills[i].1.as_str());
        let d = chars_of(desc.as_str());
        let mut line = padded(name.as_slice(), 20);
        line.extend_from_slice(sp.as_slice());
        line.extend_from_slice(d.as_slice());
        line.extend_from_slice(nl.as_slice());
        proof {
            assert(sv[i as int] == (skills@[i as int].0@, skills@[i as int].1@));
            assert(line@ == list_line(sv[i as int].0, sv[i as int].1));
            lemma_concat_map_step(sv, f, i as int);
        }
        out.extend_from_slice(line.as_slice());
        i += 1;
    }
    assert(sv.take(skills@.len() as int) =~= sv);
    let tail1 = chars_of("\n");
    let tail2 = chars_of("Use `facts skills show <name>` to read a skill.\n");
    let tail3 = chars_of("Use `facts skills update` to install or update skills in your project.\n");
    out.extend_from_slice(tail1.as_slice());
    out.extend_from_slice(tail2.as_slice());
    out.extend_from_slice(tail3.as_slice());
    string_of(out.as_slice())
}

fn find_skill_exec(skills: &Vec<(String, String)>, name: &str) -> (r: Option<String>)
    ensures
        match (r, find_skill(skills_view(skills@), name@)) {
            (Some(s), Some(c)) => s@ == c,
            (None, None) => true,
            _ => false,
        },
{
    let ghost sv = skills_view(skills@);
    let n = chars_of(name);
    let mut i: usize = 0;
    assert(sv.skip(0) =~= sv);
    while i < skills.len()
        invariant
            i <= skills@.len(),
            sv == skills_view(skills@),
            n@ == name@,
            find_skill(sv, name@) == find_skill(sv.skip(i as int), name@),
        decreases skills.len() - i,
    {
        let k = chars_of(skills[i].0.as_str());
        assert(sv.skip(i as int)[0] == sv[i as int]);
        assert(sv.skip(i as int).drop_first() =~= sv.skip(i + 1));
        if same(k.as_slice(), n.as_slice()) {
            return Some(skills[i].1.clone());
        }
        i += 1;
    }
    None
}

/// Run the `skills` subcommand over the bundled skills (name and text of each).
/// Listing needs every description to be one that can be shortened.
pub fn run(action: &SkillsAction, skills: &Vec<(String, String)>) -> (r: Result<SkillsOutput, String>)
    requires
        action is List ==> all_listable(skills_view(skills@)),
    ensures
        match action {
            SkillsAction::List => r matches Ok(SkillsOutput::Print(t)) && t@ == list_text(skills_view(skills@)),
            SkillsAction::Show { name } => match find_skill(skills_view(skills@), name@) {
                Some(c) => r matches Ok(SkillsOutput::Print(t)) && t@ == c,
                None => r matches Err(e) && e@ == "unknown skill '"@ + name@
                    + "'. Run `facts skills` to see available skills."@,
            },
            SkillsAction::Update => r matches Ok(SkillsOutput::Install),
        },
{
    match action {
        SkillsAction::List => Ok(SkillsOutput::Print(list_text_of(skills))),
        SkillsAction::Show { name } => match find_skill_exec(skills, name.as_str()) {
            Some(c) => Ok(SkillsOutput::Print(c)),
            None => {
                let mut e = chars_of("unknown skill '");
                let mut m = chars_of(name.as_str());
                let mut t = chars_of("'. Run `facts skills` to see available skills.");
                e.append(&mut m);
                e.append(&mut t);
                Err(string_of(e.as_slice()))
            },
        },
        SkillsAction::Update => Ok(SkillsOutput::Install),
    }
}

/// Whether the description of a skill with text `content` can be shown in the
/// skill list (see `can_shorten`).
pub fn description_fits(content: &str) -> (b: bool)
    ensures
        b == can_shorten(full_description(content@)),
{
    let parts = description_parts(content);
    let sep = chars_of(" ");
    let full = join_with(&parts, sep.as_slice());
    let ghost f = full@;
    assert(f == full_description(content@));
    let (i, off, cand, at_limit) = scan_description(full.as_slice());
    if off <= 72 {
        assert(f.take(f.len() as int) =~= f);
        return true;
    }
    proof {
        lemma_scanned_long(f, i as int, off as nat, cand, at_limit);
    }
    match cand {
        Some(m) => {
            assert(space_cut(f, m as int));
            true
        },
        None => {
            proof {
                if can_shorten(f) {
                    lemma_scanned_limit(f, i as int, off as nat, at_limit);
                }
                if at_limit is Some {
                    assert(limit_point(f, at_limit.unwrap() as int));
                }
            }
            at_limit.is_some()
        },
    }
}

/// Whether every skill of `skills` can be shown in the skill list.
pub fn can_list(skills: &Vec<(String, String)>) -> (b: bool)
    ensures
        b == all_listable(skills_view(skills@)),
{
    let ghost sv = skills_view(skills@);
    let mut i: usize = 0;
    while i < skills.len()
        invariant
            i <= skills@.len(),
            sv == skills_view(skills@),
            forall|j: int| 0 <= j < i ==> can_shorten(#[trigger] full_description(sv[j].1)),
        decreases skills.len() - i,
    {
        assert(sv[i as int].1 == skills@[i as int].1@);
        if !description_fits(skills[i].1.as_str()) {
            return false;
        }
        i += 1;
    }
    true
}

} // verus!
