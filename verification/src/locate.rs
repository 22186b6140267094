//! Shared fact-location utilities for mutation commands (remove, edit).
//!
//! Provides a way to address individual facts by their position in a
//! FactSheet and navigate to them for reading or mutation.
use vstd::prelude::*;
use crate::model::{opt_view, Fact, FactSheet, FactV, Section, SectionV, SheetV, section_view, secs_view, facts_view, lemma_section_children};
use crate::text::{concat_map, lemma_concat_map_step};

verus! {

/// Location of a fact within a FactSheet.
#[derive(Debug, Clone)]
pub enum FactLocation {
    Preamble(usize),
    /// Section path as indices at each level, plus fact index within that section.
    Section(Vec<usize>, usize),
}

/// Abstract value of a fact location.
pub enum LocV {
    Preamble(nat),
    Section(Seq<usize>, nat),
}

impl View for FactLocation {
    type V = LocV;

    open spec fn view(&self) -> LocV {
        match self {
            FactLocation::Preamble(i) => LocV::Preamble(*i as nat),
            FactLocation::Section(p, j) => LocV::Section(p@, *j as nat),
        }
    }
}

/// Whether `path` names a section: each index is in range at its level.
pub open spec fn valid_path(secs: Seq<Section>, path: Seq<usize>) -> bool
    decreases path.len(),
{
    path.len() >= 1 && path[0] < secs.len() && (path.len() == 1 || valid_path(
        secs[path[0] as int].children@,
        path.drop_first(),
    ))
}

/// The section `path` names.
pub open spec fn nav(secs: Seq<Section>, path: Seq<usize>) -> Section
    recommends
        valid_path(secs, path),
    decreases path.len(),
{
    if path.len() <= 1 {
        secs[path[0] as int]
    } else {
        nav(secs[path[0] as int].children@, path.drop_first())
    }
}

/// Navigate to a section by index path.
pub fn navigate_to_section<'a>(sections: &'a [Section], path: &[usize]) -> (r: &'a Section)
    requires
        valid_path(sections@, path@),
    ensures
        *r == nav(sections@, path@),
{
    assert(path@.skip(0) =~= path@);
    nav_from(sections, path, 0)
}

/// `new` is `old` with the section at `path` replaced by `s`; all else is kept.
pub open spec fn replaced_at(old: Seq<Section>, new: Seq<Section>, path: Seq<usize>, s: Section) -> bool
    decreases path.len(),
{
    &&& path.len() >= 1
    &&& new.len() == old.len()
    &&& path[0] < old.len()
    &&& forall|j: int| 0 <= j < old.len() && j != path[0] ==> #[trigger] new[j] == old[j]
    &&& if path.len() == 1 {
        new[path[0] as int] == s
    } else {
        let o = old[path[0] as int];
        let n = new[path[0] as int];
        &&& n.title == o.title
        &&& n.depth == o.depth
        &&& n.facts == o.facts
        &&& n.raw_heading == o.raw_heading
        &&& n.blank_lines_before == o.blank_lines_before
        &&& replaced_at(o.children@, n.children@, path.drop_first(), s)
    }
}

/// Navigate to a mutable section by index path.
pub fn navigate_to_section_mut<'a>(sections: &'a mut Vec<Section>, path: &[usize]) -> (r: &'a mut Section)
    requires
        valid_path(old(sections)@, path@),
    ensures
        *r == nav(old(sections)@, path@),
        replaced_at(old(sections)@, final(sections)@, path@, *final(r)),
        valid_path(final(sections)@, path@),
        nav(final(sections)@, path@) == *final(r),
{
    assert(path@.skip(0) =~= path@);
    nav_mut_from(sections, path, 0)
}

fn nav_mut_from<'a>(sections: &'a mut Vec<Section>, path: &[usize], start: usize) -> (r: &'a mut Section)
    requires
        start < path@.len(),
        valid_path(old(sections)@, path@.skip(start as int)),
    ensures
        *r == nav(old(sections)@, path@.skip(start as int)),
        replaced_at(old(sections)@, final(sections)@, path@.skip(start as int), *final(r)),
        valid_path(final(sections)@, path@.skip(start as int)),
        nav(final(sections)@, path@.skip(start as int)) == *final(r),
    decreases path@.len() - start,
{
    let i = path[start];
    assert(path@.skip(start as int)[0] == path@[start as int]);
    if start + 1 == path.len() {
        &mut sections[i]
    } else {
        assert(path@.skip(start as int).drop_first() =~= path@.skip(start + 1));
        let sec = &mut sections[i];
        nav_mut_from(&mut sec.children, path, start + 1)
    }
}

fn nav_from<'a>(sections: &'a [Section], path: &[usize], start: usize) -> (r: &'a Section)
    requires
        start < path@.len(),
        valid_path(sections@, path@.skip(start as int)),
    ensures
        *r == nav(sections@, path@.skip(start as int)),
    decreases path@.len() - start,
{
    let i = path[start];
    assert(path@.skip(start as int)[0] == path@[start as int]);
    if start + 1 == path.len() {
        &sections[i]
    } else {
        assert(path@.skip(start as int).drop_first() =~= path@.skip(start + 1));
        nav_from(sections[i].children.as_slice(), path, start + 1)
    }
}

/// Whether `loc` addresses a fact of `sheet`.
pub open spec fn valid_location(sheet: FactSheet, loc: LocV) -> bool {
    match loc {
        LocV::Preamble(i) => i < sheet.preamble@.len(),
        LocV::Section(p, j) => valid_path(sheet.sections@, p) && j < nav(sheet.sections@, p).facts@.len(),
    }
}

/// The fact that `loc` addresses.
pub open spec fn fact_at(sheet: FactSheet, loc: LocV) -> Fact {
    match loc {
        LocV::Preamble(i) => sheet.preamble@[i as int],
        LocV::Section(p, j) => nav(sheet.sections@, p).facts@[j as int],
    }
}

/// `new` is `old` with the fact at `loc` replaced by `f`; all else is kept.
pub open spec fn fact_replaced(old: FactSheet, new: FactSheet, loc: LocV, f: Fact) -> bool {
    &&& new.filename == old.filename
    &&& match loc {
        LocV::Preamble(i) => {
            &&& new.preamble@ == old.preamble@.update(i as int, f)
            &&& new.sections == old.sections
        },
        LocV::Section(p, j) => {
            let o = nav(old.sections@, p);
            let n = nav(new.sections@, p);
            &&& new.preamble == old.preamble
            &&& replaced_at(old.sections@, new.sections@, p, n)
            &&& n.title == o.title
            &&& n.depth == o.depth
            &&& n.children == o.children
            &&& n.raw_heading == o.raw_heading
            &&& n.blank_lines_before == o.blank_lines_before
            &&& n.facts@ == o.facts@.update(j as int, f)
        },
    }
}

/// Get a reference to a fact at a given location.
pub fn get_fact<'a>(sheet: &'a FactSheet, location: &FactLocation) -> (r: &'a Fact)
    requires
        valid_location(*sheet, location@),
    ensures
        *r == fact_at(*sheet, location@),
{
    match location {
        FactLocation::Preamble(idx) => &sheet.preamble[*idx],
        FactLocation::Section(path, fact_idx) => {
            let section = navigate_to_section(sheet.sections.as_slice(), path.as_slice());
            &section.facts[*fact_idx]
        },
    }
}

/// Get a mutable reference to a fact at a given location.
pub fn get_fact_mut<'a>(sheet: &'a mut FactSheet, location: &FactLocation) -> (r: &'a mut Fact)
    requires
        valid_location(*old(sheet), location@),
    ensures
        *r == fact_at(*old(sheet), location@),
        fact_replaced(*old(sheet), *final(sheet), location@, *final(r)),
{
    match location {
        FactLocation::Preamble(idx) => &mut sheet.preamble[*idx],
        FactLocation::Section(path, fact_idx) => {
            let section = navigate_to_section_mut(&mut sheet.sections, path.as_slice());
            &mut section.facts[*fact_idx]
        },
    }
}

/// A fact found under a list of sections: its section path, its index there, and the fact.
pub type LocatedFact = (Seq<usize>, nat, Fact);

/// The facts under `secs[i..]` and their subsections in file order, with their paths
/// (each prefixed by `parent`).
pub open spec fn located_from(secs: Seq<Section>, parent: Seq<usize>, i: nat) -> Seq<LocatedFact>
    decreases secs, secs.len() - i,
{
    if i >= secs.len() {
        seq![]
    } else {
        let s = secs[i as int];
        let path = parent.push(i as usize);
        proof {
            assert(decreases_to!(secs => secs[i as int]));
            assert(decreases_to!(secs[i as int] => secs[i as int].children));
            assert(decreases_to!(secs[i as int].children => secs[i as int].children@));
        }
        Seq::new(s.facts@.len(), |j: int| (path, j as nat, s.facts@[j])) + located_from(
            s.children@,
            path,
            0,
        ) + located_from(secs, parent, i + 1)
    }
}

/// The facts under `secs` and their subsections in file order, with their paths.
pub open spec fn located_facts(secs: Seq<Section>, parent: Seq<usize>) -> Seq<LocatedFact> {
    located_from(secs, parent, 0)
}

/// The label and explicit id of a located fact, as recorded for id assignment.
pub open spec fn label_entry(e: LocatedFact) -> (Seq<char>, Option<Seq<char>>) {
    (e.2.label@, opt_view(e.2.explicit_id))
}

/// The location recorded for a located fact of sheet `sheet_idx`.
pub open spec fn location_entry(sheet_idx: usize, e: LocatedFact) -> (usize, LocV) {
    (sheet_idx, LocV::Section(e.0, e.1))
}

pub open spec fn labels_view(v: Seq<(String, Option<String>)>) -> Seq<(Seq<char>, Option<Seq<char>>)> {
    v.map_values(|p: (String, Option<String>)| (p.0@, opt_view(p.1)))
}

pub open spec fn locations_view(v: Seq<(usize, FactLocation)>) -> Seq<(usize, LocV)> {
    v.map_values(|p: (usize, FactLocation)| (p.0, p.1@))
}

pub proof fn lemma_map_add<A, B>(a: Seq<A>, b: Seq<A>, f: spec_fn(A) -> B)
    ensures
        (a + b).map_values(f) =~= a.map_values(f) + b.map_values(f),
{
}

fn copy_indices(v: &[usize]) -> (r: Vec<usize>)
    ensures
        r@ == v@,
{
    let mut r: Vec<usize> = Vec::new();
    let mut i: usize = 0;
    while i < v.len()
        invariant
            i <= v@.len(),
            r@ =~= v@.take(i as int),
        decreases v.len() - i,
    {
        r.push(v[i]);
        i += 1;
    }
    assert(v@.take(i as int) =~= v@);
    r
}

pub(crate) fn copy_opt_string(o: &Option<String>) -> (r: Option<String>)
    ensures
        opt_view(r) == opt_view(*o),
{
    match o {
        Some(s) => Some(s.clone()),
        None => None,
    }
}

/// Recursively collect fact locations and labels from sections.
pub fn collect_section_locations(
    sheet_idx: usize,
    sections: &[Section],
    parent_indices: &[usize],
    all_labels: &mut Vec<(String, Option<String>)>,
    locations: &mut Vec<(usize, FactLocation)>,
)
    ensures
        labels_view(final(all_labels)@) =~= labels_view(old(all_labels)@) + located_facts(
            sections@,
            parent_indices@,
        ).map_values(|e: LocatedFact| label_entry(e)),
        locations_view(final(locations)@) =~= locations_view(old(locations)@) + located_facts(
            sections@,
            parent_indices@,
        ).map_values(|e: LocatedFact| location_entry(sheet_idx, e)),
    decreases sections@,
{
    let ghost secs = sections@;
    let ghost parent = parent_indices@;
    let ghost fl = |e: LocatedFact| label_entry(e);
    let ghost fo = |e: LocatedFact| location_entry(sheet_idx, e);
    let ghost l0 = labels_view(all_labels@);
    let ghost o0 = locations_view(locations@);
    let mut sec_idx: usize = 0;
    while sec_idx < sections.len()
        invariant
            sec_idx <= secs.len(),
            secs == sections@,
            parent == parent_indices@,
            fl == (|e: LocatedFact| label_entry(e)),
            fo == (|e: LocatedFact| location_entry(sheet_idx, e)),
            l0 + located_from(secs, parent, 0).map_values(fl) =~= labels_view(all_labels@) + located_from(
                secs,
                parent,
                sec_idx as nat,
            ).map_values(fl),
            o0 + located_from(secs, parent, 0).map_values(fo) =~= locations_view(locations@) + located_from(
                secs,
                parent,
                sec_idx as nat,
            ).map_values(fo),
        decreases sections.len() - sec_idx,
    {
        let section = &sections[sec_idx];
        let mut path = copy_indices(parent_indices);
        path.push(sec_idx);
        let ghost pv = parent.push(sec_idx);
        let ghost block = Seq::new(section.facts@.len(), |j: int| (pv, j as nat, section.facts@[j]));
        let ghost sub = located_from(section.children@, pv, 0);
        let ghost rest = located_from(secs, parent, (sec_idx + 1) as nat);
        assert(located_from(secs, parent, sec_idx as nat) == block + sub + rest);
        let ghost lk = labels_view(all_labels@);
        let ghost ok = locations_view(locations@);
        let mut fact_idx: usize = 0;
        while fact_idx < section.facts.len()
            invariant
                fact_idx <= section.facts@.len(),
                path@ == pv,
                block == Seq::new(section.facts@.len(), |j: int| (pv, j as nat, section.facts@[j])),
                fl == (|e: LocatedFact| label_entry(e)),
                fo == (|e: LocatedFact| location_entry(sheet_idx, e)),
                labels_view(all_labels@) =~= lk + block.take(fact_idx as int).map_values(fl),
                locations_view(locations@) =~= ok + block.take(fact_idx as int).map_values(fo),
            decreases section.facts.len() - fact_idx,
        {
            let fact = &section.facts[fact_idx];
            let ghost la = labels_view(all_labels@);
            let ghost lo = locations_view(locations@);
            all_labels.push((fact.label.clone(), copy_opt_string(&fact.explicit_id)));
            locations.push((sheet_idx, FactLocation::Section(copy_indices(path.as_slice()), fact_idx)));
            proof {
                assert(block.take(fact_idx + 1) =~= block.take(fact_idx as int).push(block[fact_idx as int]));
                assert(labels_view(all_labels@) =~= la.push(fl(block[fact_idx as int])));
                assert(locations_view(locations@) =~= lo.push(fo(block[fact_idx as int])));
            }
            fact_idx += 1;
        }
        assert(block.take(fact_idx as int) =~= block);
        collect_section_locations(sheet_idx, section.children.as_slice(), path.as_slice(), all_labels, locations);
        proof {
            lemma_map_add(block + sub, rest, fl);
            lemma_map_add(block, sub, fl);
            lemma_map_add(block + sub, rest, fo);
            lemma_map_add(block, sub, fo);
        }
        sec_idx += 1;
    }
}

/// Each entry of `located_from(secs, parent, i)` carries `parent` followed by a path
/// that names a section of `secs`, and that section holds the entry's fact at its index.
pub proof fn lemma_located_from_addresses(secs: Seq<Section>, parent: Seq<usize>, i: nat, k: int)
    requires
        0 <= k < located_from(secs, parent, i).len(),
        secs.len() <= usize::MAX,
    ensures
        ({
            let e = located_from(secs, parent, i)[k];
            let q = e.0.skip(parent.len() as int);
            &&& e.0.len() > parent.len()
            &&& e.0.take(parent.len() as int) == parent
            &&& valid_path(secs, q)
            &&& e.1 < nav(secs, q).facts@.len()
            &&& nav(secs, q).facts@[e.1 as int] == e.2
        }),
    decreases secs, secs.len() - i,
{
    let s = secs[i as int];
    let path = parent.push(i as usize);
    assert(s.children.len() == s.children@.len());
    assert(decreases_to!(secs => secs[i as int]));
    assert(decreases_to!(secs[i as int] => secs[i as int].children));
    assert(decreases_to!(secs[i as int].children => secs[i as int].children@));
    let block = Seq::new(s.facts@.len(), |j: int| (path, j as nat, s.facts@[j]));
    let sub = located_from(s.children@, path, 0);
    let rest = located_from(secs, parent, i + 1);
    assert(located_from(secs, parent, i) == block + sub + rest);
    let e = located_from(secs, parent, i)[k];
    if k < block.len() {
        assert(e == block[k]);
        assert(e.0.skip(parent.len() as int) =~= seq![i as usize]);
        assert(e.0.take(parent.len() as int) =~= parent);
    } else if k < block.len() + sub.len() {
        assert(e == sub[k - block.len()]);
        lemma_located_from_addresses(s.children@, path, 0, k - block.len());
        let q2 = e.0.skip(path.len() as int);
        let q = e.0.skip(parent.len() as int);
        assert(e.0.take(path.len() as int) == path);
        assert(q.drop_first() =~= q2);
        assert(q[0] == e.0[parent.len() as int]);
        assert(e.0[parent.len() as int] == path[parent.len() as int]);
        assert(e.0.take(parent.len() as int) =~= e.0.take(path.len() as int).take(parent.len() as int));
        assert(path.take(parent.len() as int) =~= parent);
    } else {
        assert(e == rest[k - block.len() - sub.len()]);
        lemma_located_from_addresses(secs, parent, i + 1, k - block.len() - sub.len());
    }
}

proof fn lemma_path_concat(secs: Seq<Section>, a: Seq<usize>, q: Seq<usize>)
    requires
        valid_path(secs, a),
        valid_path(nav(secs, a).children@, q),
    ensures
        valid_path(secs, a + q),
        nav(secs, a + q) == nav(nav(secs, a).children@, q),
    decreases a.len(),
{
    let aq = a + q;
    assert(aq[0] == a[0]);
    if a.len() == 1 {
        assert(aq.drop_first() =~= q);
    } else {
        lemma_path_concat(secs[a[0] as int].children@, a.drop_first(), q);
        assert(aq.drop_first() =~= a.drop_first() + q);
    }
}

/// The sections at `parent` in `sheet`: its top-level sections when `parent`
/// is empty, else the children of the section that `parent` names.
pub open spec fn sections_at(sheet: FactSheet, parent: Seq<usize>) -> Seq<Section> {
    if parent.len() == 0 { sheet.sections@ } else { nav(sheet.sections@, parent).children@ }
}

/// Every location that `collect_section_locations` records, for any sheet index
/// and starting at any section path of the sheet, addresses through `get_fact`
/// exactly the fact whose label and id it records beside it.
pub proof fn law_collected_locations_address_facts(sheet: FactSheet, sheet_idx: usize, parent: Seq<usize>, k: int)
    requires
        parent.len() == 0 || valid_path(sheet.sections@, parent),
        0 <= k < located_facts(sections_at(sheet, parent), parent).len(),
    ensures
        ({
            let e = located_facts(sections_at(sheet, parent), parent)[k];
            let loc = location_entry(sheet_idx, e);
            &&& loc.0 == sheet_idx
            &&& valid_location(sheet, loc.1)
            &&& fact_at(sheet, loc.1) == e.2
            &&& label_entry(e) == (fact_at(sheet, loc.1).label@, opt_view(fact_at(sheet, loc.1).explicit_id))
        }),
{
    let secs = sections_at(sheet, parent);
    assert(sheet.sections.len() == sheet.sections@.len());
    if parent.len() > 0 {
        let s = nav(sheet.sections@, parent);
        assert(s.children.len() == s.children@.len());
    }
    lemma_located_from_addresses(secs, parent, 0, k);
    let e = located_facts(secs, parent)[k];
    let q = e.0.skip(parent.len() as int);
    assert(e.0 =~= parent + q);
    if parent.len() == 0 {
        assert(e.0.skip(0) =~= e.0);
    } else {
        lemma_path_concat(sheet.sections@, parent, q);
    }
}

// ---------------------------------------------------------------------------
// Every fact of several sheets
// ---------------------------------------------------------------------------

/// A fact of one of several sheets: the sheet's index, its location there, the fact.
pub type SheetLocated = (usize, LocV, Fact);

/// The facts of sheet `i`, preamble first, each with its location.
pub open spec fn sheet_located(i: int, sh: FactSheet) -> Seq<SheetLocated> {
    Seq::new(sh.preamble@.len(), |j: int| (i as usize, LocV::Preamble(j as nat), sh.preamble@[j])) + located_facts(
        sh.sections@,
        seq![],
    ).map_values(|e: LocatedFact| (i as usize, LocV::Section(e.0, e.1), e.2))
}

/// The facts of all sheets in file order, each with its sheet and location.
pub open spec fn all_located(ss: Seq<FactSheet>) -> Seq<SheetLocated> {
    concat_map(ss, |i: int, sh: FactSheet| sheet_located(i, sh))
}

/// The labels and explicit ids of located facts, as ids are assigned from them.
pub open spec fn located_labels(es: Seq<SheetLocated>) -> Seq<(Seq<char>, Option<Seq<char>>)> {
    es.map_values(|e: SheetLocated| (e.2.label@, opt_view(e.2.explicit_id)))
}

/// The sheets and locations of located facts.
pub open spec fn located_places(es: Seq<SheetLocated>) -> Seq<(usize, LocV)> {
    es.map_values(|e: SheetLocated| (e.0, e.1))
}

/// The labels and locations of every fact of every sheet, in file order.
pub fn locate_all(sheets: &Vec<FactSheet>) -> (r: (Vec<(String, Option<String>)>, Vec<(usize, FactLocation)>))
    ensures
        labels_view(r.0@) =~= located_labels(all_located(sheets@)),
        locations_view(r.1@) =~= located_places(all_located(sheets@)),
{
    let ghost f = |i: int, sh: FactSheet| sheet_located(i, sh);
    let mut labels: Vec<(String, Option<String>)> = Vec::new();
    let mut locations: Vec<(usize, FactLocation)> = Vec::new();
    let mut i: usize = 0;
    while i < sheets.len()
        invariant
            i <= sheets@.len(),
            f == (|i: int, sh: FactSheet| sheet_located(i, sh)),
            labels_view(labels@) =~= located_labels(concat_map(sheets@.take(i as int), f)),
            locations_view(locations@) =~= located_places(concat_map(sheets@.take(i as int), f)),
        decreases sheets.len() - i,
    {
        proof {
            lemma_concat_map_step(sheets@, f, i as int);
        }
        let sheet = &sheets[i];
        let ghost pre = Seq::new(sheet.preamble@.len(), |j: int| (i as usize, LocV::Preamble(j as nat), sheet.preamble@[j]));
        let ghost l0 = labels_view(labels@);
        let ghost o0 = locations_view(locations@);
        let mut j: usize = 0;
        while j < sheet.preamble.len()
            invariant
                j <= sheet.preamble@.len(),
                i < sheets@.len(),
                sheet == &sheets@[i as int],
                pre == Seq::new(sheet.preamble@.len(), |j: int| (i as usize, LocV::Preamble(j as nat), sheet.preamble@[j])),
                labels_view(labels@) =~= l0 + located_labels(pre.take(j as int)),
                locations_view(locations@) =~= o0 + located_places(pre.take(j as int)),
            decreases sheet.preamble.len() - j,
        {
            let fact = &sheet.preamble[j];
            let ghost la = labels_view(labels@);
            let ghost lo = locations_view(locations@);
            labels.push((fact.label.clone(), copy_opt_string(&fact.explicit_id)));
            locations.push((i, FactLocation::Preamble(j)));
            proof {
                assert(pre.take(j + 1) =~= pre.take(j as int).push(pre[j as int]));
                assert(labels_view(labels@) =~= la.push((fact.label@, opt_view(fact.explicit_id))));
                assert(locations_view(locations@) =~= lo.push((i, LocV::Preamble(j as nat))));
            }
            j += 1;
        }
        assert(pre.take(j as int) =~= pre);
        let ghost l1 = labels_view(labels@);
        let ghost o1 = locations_view(locations@);
        collect_section_locations(i, sheet.sections.as_slice(), Vec::new().as_slice(), &mut labels, &mut locations);
        proof {
            let lf = located_facts(sheet.sections@, seq![]);
            let sec = lf.map_values(|e: LocatedFact| (i as usize, LocV::Section(e.0, e.1), e.2));
            assert(sheet_located(i as int, *sheet) == pre + sec);
            assert(located_labels(sec) =~= lf.map_values(|e: LocatedFact| label_entry(e)));
            assert(located_places(sec) =~= lf.map_values(|e: LocatedFact| location_entry(i, e)));
            lemma_map_add(concat_map(sheets@.take(i as int), f), pre + sec, |e: SheetLocated| (e.2.label@, opt_view(e.2.explicit_id)));
            lemma_map_add(pre, sec, |e: SheetLocated| (e.2.label@, opt_view(e.2.explicit_id)));
            lemma_map_add(concat_map(sheets@.take(i as int), f), pre + sec, |e: SheetLocated| (e.0, e.1));
            lemma_map_add(pre, sec, |e: SheetLocated| (e.0, e.1));
        }
        i += 1;
    }
    assert(sheets@.take(i as int) =~= sheets@);
    (labels, locations)
}

/// Every fact of every sheet is found again at the place recorded for it.
pub proof fn law_all_located_addresses(ss: Seq<FactSheet>, p: int)
    requires
        0 <= p < all_located(ss).len(),
        ss.len() <= usize::MAX,
    ensures
        ({
            let e = all_located(ss)[p];
            &&& e.0 < ss.len()
            &&& valid_location(ss[e.0 as int], e.1)
            &&& fact_at(ss[e.0 as int], e.1) == e.2
        }),
    decreases ss.len(),
{
    let f = |i: int, sh: FactSheet| sheet_located(i, sh);
    let n = ss.len() - 1;
    let head = concat_map(ss.drop_last(), f);
    let tail = sheet_located(n, ss.last());
    assert(all_located(ss) == head + tail);
    assert forall|i: int| 0 <= i < ss.drop_last().len() implies #[trigger] ss.drop_last()[i] == ss[i] by {}
    if p < head.len() {
        law_all_located_addresses(ss.drop_last(), p);
        assert(all_located(ss)[p] == head[p]);
    } else {
        let q = p - head.len();
        let sh = ss.last();
        let pre_len = sh.preamble@.len();
        assert(all_located(ss)[p] == tail[q]);
        if q >= pre_len {
            let k = q - pre_len;
            assert(sh.sections.len() == sh.sections@.len());
            assert(sections_at(sh, seq![]) == sh.sections@);
            law_collected_locations_address_facts(sh, (ss.len() - 1) as usize, seq![], k);
        }
    }
}

// ---------------------------------------------------------------------------
// Paths over abstract sections
// ---------------------------------------------------------------------------

/// Whether `path` names a section of the abstract sections `secs`.
pub open spec fn valid_path_v(secs: Seq<SectionV>, path: Seq<usize>) -> bool
    decreases path.len(),
{
    path.len() >= 1 && path[0] < secs.len() && (path.len() == 1 || valid_path_v(
        secs[path[0] as int].children,
        path.drop_first(),
    ))
}

/// The abstract section `path` names.
pub open spec fn nav_v(secs: Seq<SectionV>, path: Seq<usize>) -> SectionV
    decreases path.len(),
{
    if path.len() <= 1 {
        secs[path[0] as int]
    } else {
        nav_v(secs[path[0] as int].children, path.drop_first())
    }
}

/// A path names a section exactly when it names one in the abstract view, and
/// it names the view of that section.
pub proof fn lemma_nav_view(secs: Seq<Section>, path: Seq<usize>)
    ensures
        valid_path(secs, path) == valid_path_v(secs_view(secs), path),
        valid_path(secs, path) ==> nav_v(secs_view(secs), path) == section_view(nav(secs, path)),
    decreases path.len(),
{
    if path.len() >= 1 && path[0] < secs.len() {
        let s = secs[path[0] as int];
        lemma_section_children(s);
        if path.len() > 1 {
            lemma_nav_view(s.children@, path.drop_first());
        }
    }
}

/// Whether `loc` addresses a fact of the abstract sheet `sh`.
pub open spec fn valid_location_v(sh: SheetV, loc: LocV) -> bool {
    match loc {
        LocV::Preamble(i) => i < sh.preamble.len(),
        LocV::Section(p, j) => valid_path_v(sh.sections, p) && j < nav_v(sh.sections, p).facts.len(),
    }
}

pub proof fn lemma_location_view(sheet: FactSheet, loc: LocV)
    ensures
        valid_location(sheet, loc) == valid_location_v(sheet@, loc),
        valid_location(sheet, loc) ==> fact_at(sheet, loc)@ == match loc {
            LocV::Preamble(i) => sheet@.preamble[i as int],
            LocV::Section(p, j) => nav_v(sheet@.sections, p).facts[j as int],
        },
{
    match loc {
        LocV::Preamble(i) => {},
        LocV::Section(p, j) => {
            lemma_nav_view(sheet.sections@, p);
        },
    }
}

// ---------------------------------------------------------------------------
// Replacing a fact in abstract sheets
// ---------------------------------------------------------------------------

/// `secs` with fact `j` of the section at `p` replaced by `f`.
pub open spec fn secs_with_fact(secs: Seq<SectionV>, p: Seq<usize>, j: nat, f: FactV) -> Seq<SectionV>
    decreases p.len(),
{
    if p.len() == 0 {
        secs
    } else {
        let s = secs[p[0] as int];
        if p.len() == 1 {
            secs.update(p[0] as int, SectionV { facts: s.facts.update(j as int, f), ..s })
        } else {
            secs.update(p[0] as int, SectionV { children: secs_with_fact(s.children, p.drop_first(), j, f), ..s })
        }
    }
}

/// `sh` with the fact at `loc` replaced by `f`.
pub open spec fn sheet_with_fact(sh: SheetV, loc: LocV, f: FactV) -> SheetV {
    match loc {
        LocV::Preamble(i) => SheetV { preamble: sh.preamble.update(i as int, f), ..sh },
        LocV::Section(p, j) => SheetV { sections: secs_with_fact(sh.sections, p, j, f), ..sh },
    }
}

/// The fact at `loc` of the abstract sheet `sh`.
pub open spec fn fact_at_v(sh: SheetV, loc: LocV) -> FactV {
    match loc {
        LocV::Preamble(i) => sh.preamble[i as int],
        LocV::Section(p, j) => nav_v(sh.sections, p).facts[j as int],
    }
}

/// Replacing a fact keeps every path and the number of facts of every section.
pub proof fn lemma_with_fact_keeps_paths(secs: Seq<SectionV>, p: Seq<usize>, j: nat, f: FactV, q: Seq<usize>)
    requires
        valid_path_v(secs, p),
        j < nav_v(secs, p).facts.len(),
    ensures
        valid_path_v(secs_with_fact(secs, p, j, f), q) == valid_path_v(secs, q),
        valid_path_v(secs, q) ==> nav_v(secs_with_fact(secs, p, j, f), q).facts.len() == nav_v(secs, q).facts.len(),
    decreases q.len(),
{
    let n = secs_with_fact(secs, p, j, f);
    if q.len() >= 1 && q[0] < secs.len() {
        if q[0] != p[0] {
            assert(n[q[0] as int] == secs[q[0] as int]);
        } else if p.len() > 1 && q.len() > 1 {
            lemma_with_fact_keeps_paths(secs[p[0] as int].children, p.drop_first(), j, f, q.drop_first());
        }
    }
}

/// Replacing a fact keeps every location valid.
pub proof fn lemma_with_fact_keeps_locations(sh: SheetV, loc: LocV, f: FactV, loc2: LocV)
    requires
        valid_location_v(sh, loc),
    ensures
        valid_location_v(sheet_with_fact(sh, loc, f), loc2) == valid_location_v(sh, loc2),
{
    match (loc, loc2) {
        (LocV::Section(p, j), LocV::Section(q, k)) => {
            lemma_with_fact_keeps_paths(sh.sections, p, j, f, q);
        },
        _ => {},
    }
}

fn set_in_sections(secs: &mut Vec<Section>, path: &[usize], start: usize, j: usize, f: Fact)
    requires
        start < path@.len(),
        valid_path_v(secs_view(old(secs)@), path@.skip(start as int)),
        j < nav_v(secs_view(old(secs)@), path@.skip(start as int)).facts.len(),
    ensures
        secs_view(final(secs)@) =~= secs_with_fact(secs_view(old(secs)@), path@.skip(start as int), j as nat, f@),
    decreases path@.len() - start,
{
    let ghost q = path@.skip(start as int);
    let ghost old_v = secs_view(secs@);
    let ghost fv = f@;
    let i = path[start];
    assert(q[0] == path@[start as int]);
    let mut s = secs.remove(i);
    let ghost sv = section_view(s);
    proof {
        lemma_section_children(s);
    }
    if start == path.len() - 1 {
        s.facts.set(j, f);
        proof {
            lemma_section_children(s);
            assert(facts_view(s.facts@) =~= sv.facts.update(j as int, fv));
            assert(section_view(s) =~~= SectionV { facts: sv.facts.update(j as int, fv), ..sv });
        }
    } else {
        assert(q.drop_first() =~= path@.skip(start + 1));
        set_in_sections(&mut s.children, path, start + 1, j, f);
        proof {
            lemma_section_children(s);
            assert(section_view(s) =~~= SectionV {
                children: secs_with_fact(sv.children, q.drop_first(), j as nat, fv),
                ..sv
            });
        }
    }
    secs.insert(i, s);
    assert(secs_view(secs@) =~= old_v.update(i as int, section_view(s)));
}

/// Replace the fact at a location.
pub fn set_fact(sheet: &mut FactSheet, location: &FactLocation, f: Fact)
    requires
        valid_location_v(old(sheet)@, location@),
    ensures
        final(sheet)@ == sheet_with_fact(old(sheet)@, location@, f@),
{
    let ghost v0 = sheet@;
    let ghost fv = f@;
    match location {
        FactLocation::Preamble(idx) => {
            sheet.preamble.set(*idx, f);
            assert(facts_view(sheet.preamble@) =~= v0.preamble.update(*idx as int, fv));
        },
        FactLocation::Section(path, fact_idx) => {
            assert(path@.skip(0) =~= path@);
            set_in_sections(&mut sheet.sections, path.as_slice(), 0, *fact_idx, f);
        },
    }
    assert(sheet@ =~~= sheet_with_fact(v0, location@, fv));
}

/// The labels and explicit ids of facts found under sections.
pub open spec fn located_fact_labels(es: Seq<LocatedFact>) -> Seq<(Seq<char>, Option<Seq<char>>)> {
    es.map_values(|e: LocatedFact| label_entry(e))
}

/// The labels and explicit ids of facts with their section paths.
pub open spec fn path_labels(fs: Seq<crate::model::PathFact>) -> Seq<(Seq<char>, Option<Seq<char>>)> {
    fs.map_values(|pf: crate::model::PathFact| (pf.1.label, pf.1.explicit_id))
}

proof fn lemma_located_labels_from(secs: Seq<Section>, parent: Seq<usize>, i: nat, names: Seq<Seq<char>>)
    requires
        i <= secs.len(),
    ensures
        located_fact_labels(located_from(secs, parent, i)) == path_labels(
            crate::model::sections_facts(secs_view(secs).skip(i as int), names),
        ),
    decreases secs, secs.len() - i,
{
    let ss = secs_view(secs).skip(i as int);
    if i >= secs.len() {
        assert(ss.len() == 0);
        assert(located_fact_labels(located_from(secs, parent, i)) =~= Seq::empty());
        assert(path_labels(crate::model::sections_facts(ss, names)) =~= Seq::empty());
    } else {
        let s = secs[i as int];
        let path = parent.push(i as usize);
        assert(decreases_to!(secs => secs[i as int]));
        assert(decreases_to!(secs[i as int] => secs[i as int].children));
        assert(decreases_to!(secs[i as int].children => secs[i as int].children@));
        lemma_section_children(s);
        let sv = section_view(s);
        assert(ss[0] == sv);
        let names2 = names.push(sv.title);
        lemma_located_labels_from(s.children@, path, 0, names2);
        lemma_located_labels_from(secs, parent, i + 1, names);
        assert(secs_view(s.children@).skip(0) =~= secs_view(s.children@));
        assert(ss.drop_first() =~= secs_view(secs).skip((i + 1) as int));
        let own = Seq::new(s.facts@.len(), |j: int| (path, j as nat, s.facts@[j]));
        let kids = located_from(s.children@, path, 0);
        let rest = located_from(secs, parent, i + 1);
        lemma_map_add(own + kids, rest, |e: LocatedFact| label_entry(e));
        lemma_map_add(own, kids, |e: LocatedFact| label_entry(e));
        let pown = sv.facts.map_values(|f: FactV| (names2, f));
        let pkids = crate::model::sections_facts(sv.children, names2);
        let prest = crate::model::sections_facts(ss.drop_first(), names);
        assert(crate::model::section_facts(sv, names) == pown + pkids);
        assert(crate::model::sections_facts(ss, names) == pown + pkids + prest);
        lemma_map_add(pown + pkids, prest, |pf: crate::model::PathFact| (pf.1.label, pf.1.explicit_id));
        lemma_map_add(pown, pkids, |pf: crate::model::PathFact| (pf.1.label, pf.1.explicit_id));
        assert(located_fact_labels(own) =~= path_labels(pown));
    }
}

proof fn lemma_sheet_labels(i: int, sh: FactSheet)
    ensures
        located_labels(sheet_located(i, sh)) == path_labels(crate::model::sheet_facts(sh@)),
{
    let pre = Seq::new(sh.preamble@.len(), |j: int| (i as usize, LocV::Preamble(j as nat), sh.preamble@[j]));
    let lf = located_facts(sh.sections@, seq![]);
    let sec = lf.map_values(|e: LocatedFact| (i as usize, LocV::Section(e.0, e.1), e.2));
    lemma_map_add(pre, sec, |e: SheetLocated| (e.2.label@, opt_view(e.2.explicit_id)));
    lemma_located_labels_from(sh.sections@, seq![], 0, seq![]);
    assert(secs_view(sh.sections@).skip(0) =~= secs_view(sh.sections@));
    assert(sh@.sections == secs_view(sh.sections@));
    let ppre = sh@.preamble.map_values(|f: FactV| (Seq::<Seq<char>>::empty(), f));
    let psec = crate::model::sections_facts(sh@.sections, seq![]);
    lemma_map_add(ppre, psec, |pf: crate::model::PathFact| (pf.1.label, pf.1.explicit_id));
    assert(located_labels(sec) =~= located_fact_labels(lf));
    assert(located_labels(pre) =~= path_labels(ppre));
}

/// The editing commands (which find facts by location) and the reading
/// commands (which list them by section path) see the same labels in the same
/// order, so the ID table they compute is the same, position by position: the
/// ID that a reading command shows for a fact is the ID under which an editing
/// command finds that same fact.
pub proof fn law_ids_agree_across_commands(ss: Seq<FactSheet>)
    ensures
        located_labels(all_located(ss)) == crate::get::path_fact_labels(
            crate::model::sheets_facts(crate::model::sheets_view(ss)),
        ),
        crate::id::assign_spec(located_labels(all_located(ss))) == crate::id::assign_spec(
            crate::get::path_fact_labels(crate::model::sheets_facts(crate::model::sheets_view(ss))),
        ),
    decreases ss.len(),
{
    let f = |i: int, sh: FactSheet| sheet_located(i, sh);
    let g = |i: int, sh: SheetV| crate::model::sheet_facts(sh).map_values(|pf: crate::model::PathFact| (i, pf));
    let sv = crate::model::sheets_view(ss);
    if ss.len() == 0 {
        assert(located_labels(all_located(ss)) =~= Seq::empty());
        assert(crate::get::path_fact_labels(crate::model::sheets_facts(sv)) =~= Seq::empty());
    } else {
        let n = ss.len() - 1;
        law_ids_agree_across_commands(ss.drop_last());
        assert(crate::model::sheets_view(ss.drop_last()) =~= sv.drop_last());
        assert(all_located(ss) == all_located(ss.drop_last()) + sheet_located(n, ss[n]));
        lemma_map_add(all_located(ss.drop_last()), sheet_located(n, ss[n]), |e: SheetLocated| (e.2.label@, opt_view(e.2.explicit_id)));
        lemma_sheet_labels(n, ss[n]);
        let last = crate::model::sheet_facts(sv[n]).map_values(|pf: crate::model::PathFact| (n, pf));
        assert(crate::model::sheets_facts(sv) == crate::model::sheets_facts(sv.drop_last()) + last);
        lemma_map_add(crate::model::sheets_facts(sv.drop_last()), last, |e: (int, crate::model::PathFact)| (e.1.1.label, e.1.1.explicit_id));
        assert(sv[n] == ss[n]@);
        assert(crate::get::path_fact_labels(last) =~= path_labels(crate::model::sheet_facts(ss[n]@)));
    }
}

} // verus!
