//! Core data model for fact sheets.
use vstd::prelude::*;

verus! {

/// A parsed .facts file.
#[derive(Debug)]
pub struct FactSheet {
    /// The file name (e.g. ".facts", "cli.facts").
    pub filename: String,
    /// Top-level facts (before any heading).
    pub preamble: Vec<Fact>,
    /// Sections defined by headings.
    pub sections: Vec<Section>,
}

/// A section defined by a heading.
#[derive(Debug)]
pub struct Section {
    /// The heading text (without # prefix).
    pub title: String,
    /// The heading depth (number of # characters).
    pub depth: usize,
    /// Facts in this section (not including subsections).
    pub facts: Vec<Fact>,
    /// Child sections.
    pub children: Vec<Section>,
    /// The heading line as written, for deterministic write-back.
    pub raw_heading: String,
    /// Blank lines before this section's heading.
    pub blank_lines_before: usize,
}

/// A single fact.
#[derive(Debug)]
pub struct Fact {
    /// Explicit ID (from `id` key in mapping), if any.
    pub explicit_id: Option<String>,
    /// The label text (tags stripped).
    pub label: String,
    /// Optional validation command.
    pub command: Option<String>,
    /// Tags (from both inline and mapping sources).
    pub tags: Vec<String>,
    /// Whether this fact was written as a plain string (vs mapping).
    pub is_plain: bool,
    /// The raw line(s) as read, for deterministic write-back.
    pub raw: String,
    /// Blank lines before this fact.
    pub blank_lines_before: usize,
}

/// Abstract value of a fact: every text field as a character sequence.
pub struct FactV {
    pub explicit_id: Option<Seq<char>>,
    pub label: Seq<char>,
    pub command: Option<Seq<char>>,
    pub tags: Seq<Seq<char>>,
    pub is_plain: bool,
    pub raw: Seq<char>,
    pub blank_lines_before: nat,
}

/// Abstract value of a section and its subtree.
pub struct SectionV {
    pub title: Seq<char>,
    pub depth: nat,
    pub facts: Seq<FactV>,
    pub children: Seq<SectionV>,
    pub raw_heading: Seq<char>,
    pub blank_lines_before: nat,
}

/// Abstract value of a fact sheet.
pub struct SheetV {
    pub filename: Seq<char>,
    pub preamble: Seq<FactV>,
    pub sections: Seq<SectionV>,
}

pub open spec fn opt_view(o: Option<String>) -> Option<Seq<char>> {
    match o {
        Some(s) => Some(s@),
        None => None,
    }
}

pub open spec fn strings_view(v: Seq<String>) -> Seq<Seq<char>> {
    v.map_values(|s: String| s@)
}

impl View for Fact {
    type V = FactV;

    open spec fn view(&self) -> FactV {
        FactV {
            explicit_id: opt_view(self.explicit_id),
            label: self.label@,
            command: opt_view(self.command),
            tags: strings_view(self.tags@),
            is_plain: self.is_plain,
            raw: self.raw@,
            blank_lines_before: self.blank_lines_before as nat,
        }
    }
}

pub open spec fn facts_view(v: Seq<Fact>) -> Seq<FactV> {
    v.map_values(|f: Fact| f@)
}

pub open spec fn section_view(s: Section) -> SectionV
    decreases s,
{
    SectionV {
        title: s.title@,
        depth: s.depth as nat,
        facts: facts_view(s.facts@),
        children: Seq::new(
            s.children@.len(),
            |i: int|
                if 0 <= i < s.children@.len() {
                    proof {
                        assert(decreases_to!(s.children => s.children@));
                        assert(decreases_to!(s.children@ => s.children@[i]));
                    }
                    section_view(s.children@[i])
                } else {
                    arbitrary()
                },
        ),
        raw_heading: s.raw_heading@,
        blank_lines_before: s.blank_lines_before as nat,
    }
}

} // verus!

verus! {

/// Abstract values of a sequence of sections.
pub open spec fn secs_view(v: Seq<Section>) -> Seq<SectionV> {
    v.map_values(|s: Section| section_view(s))
}

pub proof fn lemma_section_children(s: Section)
    ensures
        section_view(s).children =~= secs_view(s.children@),
{
}

} // verus!

verus! {

impl View for FactSheet {
    type V = SheetV;

    open spec fn view(&self) -> SheetV {
        SheetV {
            filename: self.filename@,
            preamble: facts_view(self.preamble@),
            sections: secs_view(self.sections@),
        }
    }
}

} // verus!

verus! {

/// A fact with the titles of the sections that hold it.
pub type PathFact = (Seq<Seq<char>>, FactV);

/// The facts of a section and its subsections in file order, each with its section path.
pub open spec fn section_facts(s: SectionV, parent: Seq<Seq<char>>) -> Seq<PathFact>
    decreases s, 1nat,
{
    let path = parent.push(s.title);
    s.facts.map_values(|f: FactV| (path, f)) + sections_facts(s.children, path)
}

/// The facts of sections and their subsections in file order.
pub open spec fn sections_facts(ss: Seq<SectionV>, parent: Seq<Seq<char>>) -> Seq<PathFact>
    decreases ss, 0nat,
{
    if ss.len() == 0 {
        seq![]
    } else {
        proof {
            assert(decreases_to!(ss => ss[0]));
        }
        section_facts(ss[0], parent) + sections_facts(ss.drop_first(), parent)
    }
}

/// All facts of a sheet in file order, each with its section path.
pub open spec fn sheet_facts(sh: SheetV) -> Seq<PathFact> {
    sh.preamble.map_values(|f: FactV| (Seq::<Seq<char>>::empty(), f)) + sections_facts(sh.sections, seq![])
}

/// The abstract values of `all_facts`' result.
pub open spec fn path_facts_view(v: Seq<(Vec<String>, &Fact)>) -> Seq<PathFact> {
    v.map_values(|p: (Vec<String>, &Fact)| (strings_view(p.0@), p.1@))
}

/// A copy of a list of strings.
pub fn copy_strings(v: &Vec<String>) -> (r: Vec<String>)
    ensures
        strings_view(r@) =~= strings_view(v@),
{
    let mut r: Vec<String> = Vec::new();
    let mut i: usize = 0;
    while i < v.len()
        invariant
            i <= v@.len(),
            strings_view(r@) =~= strings_view(v@).take(i as int),
        decreases v.len() - i,
    {
        let s = v[i].clone();
        let ghost old_r = strings_view(r@);
        r.push(s);
        proof {
            assert(strings_view(r@) =~= old_r.push(v@[i as int]@));
            assert(strings_view(v@).take(i + 1) =~= strings_view(v@).take(i as int).push(v@[i as int]@));
        }
        i += 1;
    }
    r
}

impl FactSheet {
    /// Iterate over all facts in file order, yielding (section_path, &Fact).
    pub fn all_facts(&self) -> (r: Vec<(Vec<String>, &Fact)>)
        ensures
            path_facts_view(r@) =~= sheet_facts(self@),
    {
        let mut result: Vec<(Vec<String>, &Fact)> = Vec::new();
        let mut i: usize = 0;
        while i < self.preamble.len()
            invariant
                i <= self.preamble@.len(),
                path_facts_view(result@) =~= facts_view(self.preamble@).take(i as int).map_values(
                    |f: FactV| (Seq::<Seq<char>>::empty(), f),
                ),
            decreases self.preamble.len() - i,
        {
            let ghost old_r = path_facts_view(result@);
            let no_path: Vec<String> = Vec::new();
            assert(strings_view(no_path@) =~= Seq::<Seq<char>>::empty());
            result.push((no_path, &self.preamble[i]));
            proof {
                assert(path_facts_view(result@) =~= old_r.push((Seq::<Seq<char>>::empty(), self.preamble@[i as int]@)));
                assert(facts_view(self.preamble@).take(i + 1) =~= facts_view(self.preamble@).take(i as int).push(
                    self.preamble@[i as int]@,
                ));
            }
            i += 1;
        }
        assert(facts_view(self.preamble@).take(i as int) =~= facts_view(self.preamble@));
        let ghost mid = path_facts_view(result@);
        let ghost secs = secs_view(self.sections@);
        let empty: Vec<String> = Vec::new();
        let mut k: usize = 0;
        assert(secs.skip(0) =~= secs);
        assert(strings_view(empty@) =~= seq![]);
        while k < self.sections.len()
            invariant
                k <= self.sections@.len(),
                secs == secs_view(self.sections@),
                strings_view(empty@) == Seq::<Seq<char>>::empty(),
                mid + sections_facts(secs, seq![]) =~= path_facts_view(result@) + sections_facts(secs.skip(k as int), seq![]),
            decreases self.sections.len() - k,
        {
            let ghost q = secs.skip(k as int);
            proof {
                assert(q.drop_first() =~= secs.skip(k + 1));
                assert(q[0] == section_view(self.sections@[k as int]));
            }
            Self::collect_facts(&self.sections[k], &empty, &mut result);
            k += 1;
        }
        assert(secs.skip(k as int) =~= seq![]);
        result
    }

    fn collect_facts<'a>(section: &'a Section, parent_path: &Vec<String>, result: &mut Vec<(Vec<String>, &'a Fact)>)
        ensures
            path_facts_view(final(result)@) =~= path_facts_view(old(result)@) + section_facts(
                section_view(*section),
                strings_view(parent_path@),
            ),
        decreases section,
    {
        let mut path = copy_strings(parent_path);
        path.push(section.title.clone());
        let ghost pv = strings_view(parent_path@).push(section.title@);
        assert(strings_view(path@) =~= pv);
        let ghost start = path_facts_view(result@);
        let mut i: usize = 0;
        while i < section.facts.len()
            invariant
                i <= section.facts@.len(),
                strings_view(path@) == pv,
                path_facts_view(result@) =~= start + facts_view(section.facts@).take(i as int).map_values(
                    |f: FactV| (pv, f),
                ),
            decreases section.facts.len() - i,
        {
            let ghost old_r = path_facts_view(result@);
            let p = copy_strings(&path);
            result.push((p, &section.facts[i]));
            proof {
                assert(path_facts_view(result@) =~= old_r.push((pv, section.facts@[i as int]@)));
                assert(facts_view(section.facts@).take(i + 1) =~= facts_view(section.facts@).take(i as int).push(
                    section.facts@[i as int]@,
                ));
            }
            i += 1;
        }
        assert(facts_view(section.facts@).take(i as int) =~= facts_view(section.facts@));
        let ghost mid = path_facts_view(result@);
        let ghost kids = secs_view(section.children@);
        let mut k: usize = 0;
        assert(kids.skip(0) =~= kids);
        while k < section.children.len()
            invariant
                k <= section.children@.len(),
                kids == secs_view(section.children@),
                strings_view(path@) == pv,
                mid + sections_facts(kids, pv) =~= path_facts_view(result@) + sections_facts(kids.skip(k as int), pv),
            decreases section.children.len() - k,
        {
            let ghost q = kids.skip(k as int);
            proof {
                assert(q.drop_first() =~= kids.skip(k + 1));
                assert(q[0] == section_view(section.children@[k as int]));
            }
            Self::collect_facts(&section.children[k], &path, result);
            k += 1;
        }
        proof {
            assert(kids.skip(k as int) =~= seq![]);
            lemma_section_children(*section);
        }
    }

    /// Get the display name for the file (empty string for ".facts").
    pub fn display_name(&self) -> (r: &str)
        ensures
            r@ == display_name_of(self.filename@),
    {
        let dot_facts = String::from_str(".facts");
        if self.filename == dot_facts {
            proof {
                reveal_strlit("");
            }
            ""
        } else {
            self.filename.as_str()
        }
    }
}

/// The name shown for a file: empty for the default `.facts`.
pub open spec fn display_name_of(filename: Seq<char>) -> Seq<char> {
    if filename == ".facts"@ { seq![] } else { filename }
}

} // verus!

verus! {

/// Abstract values of a list of sheets.
pub open spec fn sheets_view(v: Seq<FactSheet>) -> Seq<SheetV> {
    v.map_values(|s: FactSheet| s@)
}

/// Every fact of every sheet in order, each with the index of its sheet.
pub open spec fn sheets_facts(ss: Seq<SheetV>) -> Seq<(int, PathFact)> {
    crate::text::concat_map(ss, |i: int, sh: SheetV| sheet_facts(sh).map_values(|pf: PathFact| (i, pf)))
}

} // verus!

verus! {

/// A fact of one of several sheets: the sheet's index, its section path, the fact.
pub type SheetFact<'a> = (usize, Vec<String>, &'a Fact);

pub open spec fn sheet_facts_view(v: Seq<SheetFact>) -> Seq<(int, PathFact)> {
    v.map_values(|e: SheetFact| (e.0 as int, (strings_view(e.1@), e.2@)))
}

/// Every fact of every sheet, in order, with the index of its sheet and its section path.
pub fn all_sheet_facts<'a>(sheets: &'a Vec<FactSheet>) -> (r: Vec<SheetFact<'a>>)
    ensures
        sheet_facts_view(r@) =~= sheets_facts(sheets_view(sheets@)),
        forall|j: int| 0 <= j < r@.len() ==> (#[trigger] r@[j]).0 < sheets@.len(),
{
    let ghost ss = sheets_view(sheets@);
    let ghost f = |i: int, sh: SheetV| sheet_facts(sh).map_values(|pf: PathFact| (i, pf));
    let mut r: Vec<SheetFact<'a>> = Vec::new();
    let mut i: usize = 0;
    while i < sheets.len()
        invariant
            i <= sheets@.len(),
            ss == sheets_view(sheets@),
            f == (|i: int, sh: SheetV| sheet_facts(sh).map_values(|pf: PathFact| (i, pf))),
            sheet_facts_view(r@) =~= crate::text::concat_map(ss.take(i as int), f),
            forall|j: int| 0 <= j < r@.len() ==> (#[trigger] r@[j]).0 < sheets@.len(),
        decreases sheets.len() - i,
    {
        proof {
            crate::text::lemma_concat_map_step(ss, f, i as int);
        }
        let fs = sheets[i].all_facts();
        let ghost r0 = sheet_facts_view(r@);
        let ghost pf = path_facts_view(fs@);
        let mut j: usize = 0;
        while j < fs.len()
            invariant
                j <= fs@.len(),
                i < sheets@.len(),
                pf == path_facts_view(fs@),
                sheet_facts_view(r@) =~= r0 + pf.take(j as int).map_values(|p: PathFact| (i as int, p)),
                forall|j: int| 0 <= j < r@.len() ==> (#[trigger] r@[j]).0 < sheets@.len(),
            decreases fs.len() - j,
        {
            let path = copy_strings(&fs[j].0);
            let ghost before = sheet_facts_view(r@);
            r.push((i, path, fs[j].1));
            proof {
                assert(sheet_facts_view(r@) =~= before.push((i as int, pf[j as int])));
                assert(pf.take(j + 1).map_values(|p: PathFact| (i as int, p)) =~= pf.take(j as int).map_values(
                    |p: PathFact| (i as int, p),
                ).push((i as int, pf[j as int])));
            }
            j += 1;
        }
        proof {
            assert(pf.take(j as int) =~= pf);
            assert(ss[i as int] == sheets@[i as int]@);
        }
        i += 1;
    }
    assert(ss.take(i as int) =~= ss);
    r
}

} // verus!

verus! {

/// A copy of a fact.
pub fn copy_fact(f: &Fact) -> (r: Fact)
    ensures
        r@ == f@,
{
    Fact {
        explicit_id: match &f.explicit_id {
            Some(s) => Some(s.clone()),
            None => None,
        },
        label: f.label.clone(),
        command: match &f.command {
            Some(s) => Some(s.clone()),
            None => None,
        },
        tags: copy_strings(&f.tags),
        is_plain: f.is_plain,
        raw: f.raw.clone(),
        blank_lines_before: f.blank_lines_before,
    }
}

} // verus!
