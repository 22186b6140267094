//! The `remove` command: remove a fact by ID, and the sections it leaves empty.
use vstd::prelude::*;
use crate::id::{assign_spec, assign, first_index, ids_assigned, position_of};
use crate::locate::{
    all_located, fact_at, get_fact, lemma_location_view, lemma_nav_view, locate_all, located_labels, located_places,
    labels_view, locations_view, law_all_located_addresses, nav_v, valid_location, valid_location_v, valid_path_v,
    FactLocation, LocV,
};
use crate::model::{
    facts_view, lemma_section_children, secs_view, section_view, sheets_view, strings_view, FactSheet, FactV, Section,
    SectionV, SheetV,
};
use crate::text::{chars_of, concat3, string_of};

verus! {

/// `secs` with fact `j` of the section at `path` removed, and with that section
/// and each ancestor that is left with no facts and no subsections removed too.
pub open spec fn removed_from(secs: Seq<SectionV>, path: Seq<usize>, j: nat) -> Seq<SectionV>
    decreases path.len(),
{
    if path.len() == 0 {
        secs
    } else {
        let i = path[0] as int;
        let s = secs[i];
        let s2 = if path.len() == 1 {
            SectionV { facts: s.facts.remove(j as int), ..s }
        } else {
            SectionV { children: removed_from(s.children, path.drop_first(), j), ..s }
        };
        if s2.facts.len() == 0 && s2.children.len() == 0 {
            secs.remove(i)
        } else {
            secs.update(i, s2)
        }
    }
}

/// The sheet without the fact at `loc`.
pub open spec fn sheet_without(sh: SheetV, loc: LocV) -> SheetV {
    match loc {
        LocV::Preamble(i) => SheetV { preamble: sh.preamble.remove(i as int), ..sh },
        LocV::Section(p, j) => SheetV { sections: removed_from(sh.sections, p, j), ..sh },
    }
}

fn remove_from(secs: &mut Vec<Section>, path: &[usize], start: usize, j: usize)
    requires
        start < path@.len(),
        valid_path_v(secs_view(old(secs)@), path@.skip(start as int)),
        j < nav_v(secs_view(old(secs)@), path@.skip(start as int)).facts.len(),
    ensures
        secs_view(final(secs)@) =~= removed_from(secs_view(old(secs)@), path@.skip(start as int), j as nat),
    decreases path@.len() - start,
{
    let ghost q = path@.skip(start as int);
    let ghost old_v = secs_view(secs@);
    let i = path[start];
    assert(q[0] == path@[start as int]);
    let mut s = secs.remove(i);
    let ghost sv = section_view(s);
    proof {
        lemma_section_children(s);
    }
    if start + 1 == path.len() {
        s.facts.remove(j);
        proof {
            lemma_section_children(s);
            assert(facts_view(s.facts@) =~= sv.facts.remove(j as int));
            assert(section_view(s) =~~= SectionV { facts: sv.facts.remove(j as int), ..sv });
        }
    } else {
        assert(q.drop_first() =~= path@.skip(start + 1));
        remove_from(&mut s.children, path, start + 1, j);
        proof {
            lemma_section_children(s);
            assert(section_view(s) =~~= SectionV {
                children: removed_from(sv.children, q.drop_first(), j as nat),
                ..sv
            });
        }
    }
    if !(s.facts.len() == 0 && s.children.len() == 0) {
        secs.insert(i, s);
        assert(secs_view(secs@) =~= old_v.update(i as int, section_view(s)));
    } else {
        assert(secs_view(secs@) =~= old_v.remove(i as int));
    }
}

/// Remove a fact at the given location. Also removes empty sections.
pub fn remove_fact(sheet: &mut FactSheet, location: &FactLocation)
    requires
        valid_location(*old(sheet), location@),
    ensures
        final(sheet)@ == sheet_without(old(sheet)@, location@),
{
    proof {
        lemma_location_view(*sheet, location@);
    }
    let ghost v0 = sheet@;
    match location {
        FactLocation::Preamble(idx) => {
            sheet.preamble.remove(*idx);
            assert(facts_view(sheet.preamble@) =~= v0.preamble.remove(*idx as int));
        },
        FactLocation::Section(path, fact_idx) => {
            assert(path@.skip(0) =~= path@);
            remove_from(&mut sheet.sections, path.as_slice(), 0, *fact_idx);
        },
    }
    assert(sheet@ =~~= sheet_without(v0, location@));
}

/// What a removal did: the sheet it changed and the label of the removed fact.
pub struct Removed {
    pub sheet_index: usize,
    pub label: String,
}

/// The text of the error for an ID that no fact has.
pub open spec fn no_fact_error(target: Seq<char>) -> Seq<char> {
    "no fact found with ID '"@ + target + "'"@
}

/// Remove the fact whose ID is `target_id` from `sheets`, computing IDs over all
/// facts of all sheets; on success say which sheet changed and what was removed.
pub fn run(target_id: &str, sheets: &mut Vec<FactSheet>) -> (r: Result<Removed, String>)
    ensures
        match first_index(
                assign_spec(located_labels(all_located(old(sheets)@))),
                target_id@,
            ) {
                None => r matches Err(e) && e@ == no_fact_error(target_id@) && final(sheets)@ == old(sheets)@,
                Some(p) => {
                    let e = all_located(old(sheets)@)[p as int];
                    &&& r matches Ok(rm)
                    &&& rm.sheet_index == e.0
                    &&& rm.label@ == e.2.label@
                    &&& sheets_view(final(sheets)@) == sheets_view(old(sheets)@).update(
                        e.0 as int,
                        sheet_without(old(sheets)@[e.0 as int]@, e.1),
                    )
                },
            },
{
    let ghost all = all_located(sheets@);
    let (labels, locations) = locate_all(sheets);
    let ids = assign(&labels);
    let ghost iv = strings_view(ids@);
    assert(labels_view(labels@) == located_labels(all));
    match position_of(&ids, target_id) {
        None => {
            let m = concat3("no fact found with ID '", chars_of(target_id).as_slice(), "'");
            assert(ids_assigned(located_labels(all), iv));
            Err(string_of(m.as_slice()))
        },
        Some(p) => {
            proof {
                assert(located_places(all).len() == all.len());
                assert(sheets.len() == sheets@.len());
                law_all_located_addresses(sheets@, p as int);
            }
            let k = locations[p].0;
            let loc = &locations[p].1;
            assert(locations_view(locations@)[p as int] == (k, loc@));
            let ghost e = all[p as int];
            assert(located_places(all)[p as int] == (e.0, e.1));
            let label = get_fact(&sheets[k], loc).label.clone();
            let ghost old_sheets = sheets_view(sheets@);
            let mut sheet = sheets.remove(k);
            remove_fact(&mut sheet, loc);
            let ghost nv = sheet@;
            sheets.insert(k, sheet);
            assert(sheets_view(sheets@) =~= old_sheets.update(k as int, nv));
            assert(ids_assigned(located_labels(all), iv));
            Ok(Removed { sheet_index: k, label })
        },
    }
}

/// The facts of sections and their subsections in file order.
pub open spec fn flat_facts(ss: Seq<SectionV>) -> Seq<FactV>
    decreases ss, 0nat,
{
    if ss.len() == 0 {
        seq![]
    } else {
        proof {
            assert(decreases_to!(ss => ss[0]));
        }
        section_flat(ss[0]) + flat_facts(ss.drop_first())
    }
}

/// The facts of a section and its subsections in file order.
pub open spec fn section_flat(s: SectionV) -> Seq<FactV>
    decreases s, 1nat,
{
    s.facts + flat_facts(s.children)
}

/// The facts of a sheet in file order.
pub open spec fn sheet_flat(sh: SheetV) -> Seq<FactV> {
    sh.preamble + flat_facts(sh.sections)
}

/// Where the fact at `(path, j)` under `ss` stands among `flat_facts(ss)`.
pub open spec fn flat_index(ss: Seq<SectionV>, path: Seq<usize>, j: nat) -> int
    decreases path.len(),
{
    if path.len() == 0 {
        0
    } else {
        let i = path[0] as int;
        let s = ss[i];
        flat_facts(ss.take(i)).len() + if path.len() == 1 {
            j as int
        } else {
            s.facts.len() + flat_index(s.children, path.drop_first(), j)
        }
    }
}

/// Where the fact at `loc` stands among the facts of the sheet.
pub open spec fn sheet_flat_index(sh: SheetV, loc: LocV) -> int {
    match loc {
        LocV::Preamble(i) => i as int,
        LocV::Section(p, j) => sh.preamble.len() + flat_index(sh.sections, p, j),
    }
}

pub proof fn lemma_flat_concat(a: Seq<SectionV>, b: Seq<SectionV>)
    ensures
        flat_facts(a + b) == flat_facts(a) + flat_facts(b),
    decreases a.len(),
{
    if a.len() == 0 {
        assert(a + b =~= b);
    } else {
        assert((a + b).drop_first() =~= a.drop_first() + b);
        assert((a + b)[0] == a[0]);
        lemma_flat_concat(a.drop_first(), b);
    }
}

pub proof fn lemma_flat_split(ss: Seq<SectionV>, i: int)
    requires
        0 <= i < ss.len(),
    ensures
        flat_facts(ss) == flat_facts(ss.take(i)) + section_flat(ss[i]) + flat_facts(ss.skip(i + 1)),
{
    assert(ss =~= ss.take(i) + (seq![ss[i]] + ss.skip(i + 1)));
    lemma_flat_concat(ss.take(i), seq![ss[i]] + ss.skip(i + 1));
    lemma_flat_concat(seq![ss[i]], ss.skip(i + 1));
    assert(seq![ss[i]].drop_first() =~= Seq::<SectionV>::empty());
    assert(flat_facts(seq![ss[i]]) == section_flat(ss[i]) + flat_facts(Seq::<SectionV>::empty()));
}

proof fn lemma_flat_removed(ss: Seq<SectionV>, path: Seq<usize>, j: nat)
    requires
        valid_path_v(ss, path),
        j < nav_v(ss, path).facts.len(),
    ensures
        0 <= flat_index(ss, path, j) < flat_facts(ss).len(),
        flat_facts(removed_from(ss, path, j)) == flat_facts(ss).remove(flat_index(ss, path, j)),
    decreases path.len(),
{
    let i = path[0] as int;
    let s = ss[i];
    let a = flat_facts(ss.take(i));
    let c = flat_facts(ss.skip(i + 1));
    lemma_flat_split(ss, i);
    let (s2, k) = if path.len() == 1 {
        (SectionV { facts: s.facts.remove(j as int), ..s }, j as int)
    } else {
        lemma_flat_removed(s.children, path.drop_first(), j);
        (
            SectionV { children: removed_from(s.children, path.drop_first(), j), ..s },
            s.facts.len() + flat_index(s.children, path.drop_first(), j),
        )
    };
    assert(0 <= k < section_flat(s).len());
    assert(section_flat(s2) =~= section_flat(s).remove(k));
    let r = removed_from(ss, path, j);
    if s2.facts.len() == 0 && s2.children.len() == 0 {
        assert(r == ss.remove(i));
        assert(ss.remove(i) =~= ss.take(i) + ss.skip(i + 1));
        lemma_flat_concat(ss.take(i), ss.skip(i + 1));
        assert(flat_facts(s2.children) =~= Seq::<FactV>::empty());
        assert(section_flat(s2) =~= Seq::<FactV>::empty());
    } else {
        assert(r == ss.update(i, s2));
        lemma_flat_split(r, i);
        assert(r.take(i) =~= ss.take(i));
        assert(r.skip(i + 1) =~= ss.skip(i + 1));
    }
    assert(flat_facts(r) =~= (a + section_flat(s) + c).remove(a.len() + k));
}

/// The facts of a list of facts with their section paths.
pub open spec fn facts_of(fs: Seq<crate::model::PathFact>) -> Seq<FactV> {
    fs.map_values(|pf: crate::model::PathFact| pf.1)
}

proof fn lemma_sections_flat(ss: Seq<SectionV>, names: Seq<Seq<char>>)
    ensures
        facts_of(crate::model::sections_facts(ss, names)) == flat_facts(ss),
    decreases ss, 0nat,
{
    if ss.len() > 0 {
        assert(decreases_to!(ss => ss[0]));
        lemma_section_flat(ss[0], names);
        lemma_sections_flat(ss.drop_first(), names);
        let a = crate::model::section_facts(ss[0], names);
        let b = crate::model::sections_facts(ss.drop_first(), names);
        assert(facts_of(a + b) =~= facts_of(a) + facts_of(b));
    } else {
        assert(facts_of(crate::model::sections_facts(ss, names)) =~= Seq::<FactV>::empty());
    }
}

proof fn lemma_section_flat(s: SectionV, names: Seq<Seq<char>>)
    ensures
        facts_of(crate::model::section_facts(s, names)) == section_flat(s),
    decreases s, 1nat,
{
    let path = names.push(s.title);
    assert(decreases_to!(s => s.children));
    lemma_sections_flat(s.children, path);
    let own = s.facts.map_values(|f: FactV| (path, f));
    let kids = crate::model::sections_facts(s.children, path);
    assert(facts_of(own + kids) =~= facts_of(own) + facts_of(kids));
    assert(facts_of(own) =~= s.facts);
}

/// The facts of a sheet, as `list` and `get` read them, are its facts in file order.
pub proof fn lemma_sheet_flat_listed(sh: SheetV)
    ensures
        facts_of(crate::model::sheet_facts(sh)) == sheet_flat(sh),
{
    lemma_sections_flat(sh.sections, seq![]);
    let pre = sh.preamble.map_values(|f: FactV| (Seq::<Seq<char>>::empty(), f));
    let sec = crate::model::sections_facts(sh.sections, seq![]);
    assert(facts_of(pre + sec) =~= facts_of(pre) + facts_of(sec));
    assert(facts_of(pre) =~= sh.preamble);
}

/// The fact at `(path, j)` stands at `flat_index(ss, path, j)` among the facts of `ss`.
pub proof fn lemma_flat_at(ss: Seq<SectionV>, path: Seq<usize>, j: nat)
    requires
        valid_path_v(ss, path),
        j < nav_v(ss, path).facts.len(),
    ensures
        0 <= flat_index(ss, path, j) < flat_facts(ss).len(),
        flat_facts(ss)[flat_index(ss, path, j)] == nav_v(ss, path).facts[j as int],
    decreases path.len(),
{
    let i = path[0] as int;
    let s = ss[i];
    lemma_flat_split(ss, i);
    let a = flat_facts(ss.take(i));
    let c = flat_facts(ss.skip(i + 1));
    if path.len() == 1 {
        assert((a + section_flat(s) + c)[a.len() + j as int] == s.facts[j as int]);
    } else {
        lemma_flat_at(s.children, path.drop_first(), j);
        let k = s.facts.len() + flat_index(s.children, path.drop_first(), j);
        assert(section_flat(s)[k] == flat_facts(s.children)[flat_index(s.children, path.drop_first(), j)]);
        assert((a + section_flat(s) + c)[a.len() + k] == section_flat(s)[k]);
    }
}

/// Removing the fact at a location removes exactly that fact from the sheet:
/// every other fact is still there, in the same order, whatever empty
/// sections go with it.
pub proof fn law_remove_drops_only_that_fact(sh: SheetV, loc: LocV)
    requires
        valid_location_v(sh, loc),
    ensures
        0 <= sheet_flat_index(sh, loc) < sheet_flat(sh).len(),
        sheet_flat(sheet_without(sh, loc)) == sheet_flat(sh).remove(sheet_flat_index(sh, loc)),
        facts_of(crate::model::sheet_facts(sheet_without(sh, loc))) == facts_of(crate::model::sheet_facts(sh)).remove(
            sheet_flat_index(sh, loc),
        ),
        sheet_flat(sh)[sheet_flat_index(sh, loc)] == crate::locate::fact_at_v(sh, loc),
{
    lemma_sheet_flat_listed(sh);
    lemma_sheet_flat_listed(sheet_without(sh, loc));
    match loc {
        LocV::Preamble(i) => {
            assert(sheet_flat(sheet_without(sh, loc)) =~= sheet_flat(sh).remove(i as int));
        },
        LocV::Section(p, j) => {
            lemma_flat_removed(sh.sections, p, j);
            lemma_flat_at(sh.sections, p, j);
            assert(sheet_flat(sheet_without(sh, loc)) =~= sheet_flat(sh).remove(sheet_flat_index(sh, loc)));
        },
    }
}

} // verus!
