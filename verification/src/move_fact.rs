//! The `move` command: relocate a fact by ID to a different section or file.
use vstd::prelude::*;
use crate::add::{
    path_matches,
    section_path_problem,
    fresh_section, lemma_title_index_bound, title_index,
    add_to_section, lemma_section_parts_nonempty, lemma_with_path_has, section_parts, section_path_error, with_path,
};
use crate::id::{assign_spec, assign, first_index, ids_assigned, position_of};
use crate::locate::{
    all_located, fact_at, get_fact, law_all_located_addresses, lemma_location_view, locate_all, located_labels,
    located_places,
    locations_view, labels_view, FactLocation, LocV,
};
use crate::model::{
    copy_strings, facts_view, opt_view, secs_view, sections_facts, sheet_facts, sheets_view, strings_view, Fact,
    FactSheet, FactV, SectionV, SheetV,
};
use crate::remove::{
    flat_facts, lemma_flat_concat, lemma_flat_split, section_flat,
    law_remove_drops_only_that_fact, no_fact_error, remove_fact, sheet_flat, sheet_flat_index, sheet_without,
};
use crate::text::{chars_of, concat2, concat3, ends_with, has_suffix, same, string_of};
use crate::writer::{fact_to_raw, raw_of};

verus! {

/// Options for the move subcommand.
pub struct MoveOptions {
    /// The ID of the fact to move.
    pub target_id: String,
    /// Target section path (e.g. "cli/check"). Created if needed.
    pub target_section: Option<String>,
    /// Target .facts file (e.g. "api.facts").
    pub target_file: Option<String>,
}

/// What a move did.
pub struct Moved {
    /// The ID of the moved fact.
    pub id: String,
    /// The sheet the fact was taken from.
    pub source_index: usize,
    /// The sheet the fact was put into.
    pub target_index: usize,
    /// Whether that sheet is new (appended to the sheets).
    pub created: bool,
}

/// The moved fact: its properties kept, its text rendered afresh, no blank line before it.
pub open spec fn moved_fact_v(f: FactV) -> FactV {
    let g = FactV { raw: seq![], blank_lines_before: 0, ..f };
    FactV { raw: raw_of(g), ..g }
}

/// The name of the target file: the given file with `.facts` added unless it
/// ends so, or the source file when none is given.
pub open spec fn target_name(opts: MoveOptions, source: Seq<char>) -> Seq<char> {
    match opt_view(opts.target_file) {
        Some(f) => if ends_with(f, ".facts"@) { f } else { f + ".facts"@ },
        None => source,
    }
}

/// Index of the first sheet named `name`.
pub open spec fn sheet_named(ss: Seq<SheetV>, name: Seq<char>) -> Option<nat>
    decreases ss.len(),
{
    if ss.len() == 0 {
        None
    } else if ss[0].filename == name {
        Some(0)
    } else {
        match sheet_named(ss.drop_first(), name) {
            Some(k) => Some(k + 1),
            None => None,
        }
    }
}

/// `sh` with `f` placed under the section path, or in the preamble when none is given.
pub open spec fn placed(sh: SheetV, section: Option<Seq<char>>, f: FactV) -> Result<SheetV, Seq<char>> {
    match section {
        Some(p) => match section_path_error(p) {
            Some(m) => Err(m),
            None => Ok(SheetV { sections: with_path(sh.sections, section_parts(p), 1, f), ..sh }),
        },
        None => Ok(SheetV { preamble: sh.preamble.push(f), ..sh }),
    }
}

/// The text of the error for options that name neither a section nor a file.
pub open spec fn no_target_error() -> Seq<char> {
    "must provide at least one of --section or --file"@
}

/// The sheets after moving the fact at position `p` of all facts, or why it failed.
pub open spec fn move_spec(opts: MoveOptions, ss: Seq<FactSheet>, p: nat) -> Result<Seq<SheetV>, Seq<char>> {
    let e = all_located(ss)[p as int];
    let vs = sheets_view(ss);
    let src = e.0 as int;
    let f = moved_fact_v(e.2@);
    let name = target_name(opts, vs[src].filename);
    let vs1 = vs.update(src, sheet_without(vs[src], e.1));
    match sheet_named(vs, name) {
        Some(t) => match placed(vs1[t as int], opt_view(opts.target_section), f) {
            Ok(sh) => Ok(vs1.update(t as int, sh)),
            Err(m) => Err(m),
        },
        None => match placed(SheetV { filename: name, preamble: seq![], sections: seq![] }, opt_view(opts.target_section), f) {
            Ok(sh) => Ok(vs1.push(sh)),
            Err(m) => Err(m),
        },
    }
}

proof fn lemma_sheet_named(ss: Seq<SheetV>, name: Seq<char>, i: int)
    requires
        0 <= i <= ss.len(),
        forall|j: int| 0 <= j < i ==> #[trigger] ss[j].filename != name,
    ensures
        i < ss.len() && ss[i].filename == name ==> sheet_named(ss, name) == Some(i as nat),
        i == ss.len() ==> sheet_named(ss, name) is None,
    decreases i,
{
    if ss.len() > 0 && i > 0 {
        assert forall|j: int| 0 <= j < i - 1 implies #[trigger] ss.drop_first()[j].filename != name by {
            assert(ss.drop_first()[j] == ss[j + 1]);
        }
        lemma_sheet_named(ss.drop_first(), name, i - 1);
    }
}

fn find_sheet(sheets: &Vec<FactSheet>, name: &[char]) -> (r: Option<usize>)
    ensures
        match r {
            Some(k) => sheet_named(sheets_view(sheets@), name@) == Some(k as nat) && k < sheets@.len(),
            None => sheet_named(sheets_view(sheets@), name@) is None,
        },
{
    let ghost sv = sheets_view(sheets@);
    let mut i: usize = 0;
    while i < sheets.len()
        invariant
            i <= sheets@.len(),
            sv == sheets_view(sheets@),
            forall|j: int| 0 <= j < i ==> #[trigger] sv[j].filename != name@,
        decreases sheets.len() - i,
    {
        if same(chars_of(sheets[i].filename.as_str()).as_slice(), name) {
            proof {
                lemma_sheet_named(sv, name@, i as int);
            }
            return Some(i);
        }
        i += 1;
    }
    proof {
        lemma_sheet_named(sv, name@, i as int);
    }
    None
}

fn copy_opt(o: &Option<String>) -> (r: Option<String>)
    ensures
        opt_view(r) == opt_view(*o),
{
    match o {
        Some(s) => Some(s.clone()),
        None => None,
    }
}

/// The fact as it is moved: its properties, rendered afresh.
fn moved_fact(f: &Fact) -> (r: Fact)
    ensures
        r@ == moved_fact_v(f@),
{
    let mut m = Fact {
        explicit_id: copy_opt(&f.explicit_id),
        label: f.label.clone(),
        command: copy_opt(&f.command),
        tags: copy_strings(&f.tags),
        is_plain: f.is_plain,
        raw: String::new(),
        blank_lines_before: 0,
    };
    let raw = fact_to_raw(&m);
    m.raw = raw;
    m
}

/// Place `f` in `sheet` under the section path, or in its preamble.
fn place(sheet: &mut FactSheet, section: &Option<String>, f: Fact) -> (r: Result<(), String>)
    ensures
        match placed(old(sheet)@, opt_view(*section), f@) {
            Ok(sh) => r is Ok && final(sheet)@ == sh,
            Err(m) => r matches Err(e) && e@ == m,
        },
{
    match section {
        Some(p) => add_to_section(sheet, p.as_str(), f),
        None => {
            let ghost before = sheet@;
            sheet.preamble.push(f);
            assert(facts_view(sheet.preamble@) =~= before.preamble.push(f@));
            assert(sheet@ =~~= SheetV { preamble: before.preamble.push(f@), ..before });
            Ok(())
        },
    }
}

/// Move the fact whose ID is `opts.target_id`, computing IDs over all facts of all
/// sheets. A target file that is not among the sheets is appended as a new sheet.
pub fn run(opts: &MoveOptions, sheets: &mut Vec<FactSheet>) -> (r: Result<Moved, String>)
    ensures
        opts.target_section is None && opts.target_file is None ==> (r matches Err(e) && e@ == no_target_error()),
        !(opts.target_section is None && opts.target_file is None) ==> match first_index(
                assign_spec(located_labels(all_located(old(sheets)@))),
                opts.target_id@,
            ) {
                None => r matches Err(e) && e@ == no_fact_error(opts.target_id@),
                Some(p) => match move_spec(*opts, old(sheets)@, p) {
                    Ok(vs) => r matches Ok(m) && sheets_view(final(sheets)@) == vs && m.id@ == opts.target_id@
                        && m.source_index == all_located(old(sheets)@)[p as int].0
                        && m.target_index < vs.len(),
                    Err(msg) => r matches Err(e) && e@ == msg,
                },
            },
        r is Err ==> final(sheets)@ == old(sheets)@,
{
    if opts.target_section.is_none() && opts.target_file.is_none() {
        return Err(string_of(chars_of("must provide at least one of --section or --file").as_slice()));
    }
    let ghost all = all_located(sheets@);
    let ghost old_sheets = sheets@;
    let (labels, locations) = locate_all(sheets);
    let ids = assign(&labels);
    let ghost iv = strings_view(ids@);
    assert(labels_view(labels@) == located_labels(all));
    let p = match position_of(&ids, opts.target_id.as_str()) {
        None => {
            assert(ids_assigned(located_labels(all), iv));
            return Err(string_of(concat3("no fact found with ID '", chars_of(opts.target_id.as_str()).as_slice(), "'").as_slice()));
        },
        Some(p) => p,
    };
    proof {
        assert(located_places(all).len() == all.len());
        assert(sheets.len() == sheets@.len());
        law_all_located_addresses(sheets@, p as int);
    }
    match &opts.target_section {
        Some(sp) => match section_path_problem(sp.as_str()) {
            Some(m) => {
                assert(move_spec(*opts, sheets@, p as nat) == Err::<Seq<SheetV>, Seq<char>>(m@));
                return Err(m);
            },
            None => {},
        },
        None => {},
    }
    let src = locations[p].0;
    let loc = &locations[p].1;
    assert(locations_view(locations@)[p as int] == (src, loc@));
    assert(located_places(all)[p as int] == (all[p as int].0, all[p as int].1));
    let moved = moved_fact(get_fact(&sheets[src], loc));
    let name = match &opts.target_file {
        Some(f) => {
            let fc = chars_of(f.as_str());
            let ext = chars_of(".facts");
            if has_suffix(fc.as_slice(), ext.as_slice()) { fc } else { concat2(fc.as_slice(), ext.as_slice()) }
        },
        None => chars_of(sheets[src].filename.as_str()),
    };
    let ghost vs = sheets_view(sheets@);
    assert(name@ == target_name(*opts, vs[src as int].filename));
    let target = find_sheet(sheets, name.as_slice());
    let mut source = sheets.remove(src);
    remove_fact(&mut source, loc);
    sheets.insert(src, source);
    let ghost vs1 = sheets_view(sheets@);
    assert(vs1 =~= vs.update(src as int, sheet_without(vs[src as int], all[p as int].1)));
    assert(ids_assigned(located_labels(all), iv));
    match target {
        Some(t) => {
            let mut sheet = sheets.remove(t);
            let res = place(&mut sheet, &opts.target_section, moved);
            let ghost placed_v = sheet@;
            sheets.insert(t, sheet);
            match res {
                Ok(()) => {
                    assert(sheets_view(sheets@) =~= vs1.update(t as int, placed_v));
                    Ok(Moved { id: opts.target_id.clone(), source_index: src, target_index: t, created: false })
                },
                Err(e) => Err(e),
            }
        },
        None => {
            let mut sheet = FactSheet { filename: string_of(name.as_slice()), preamble: Vec::new(), sections: Vec::new() };
            assert(facts_view(sheet.preamble@) =~= seq![]);
            assert(secs_view(sheet.sections@) =~= seq![]);
            assert(sheet@ =~~= SheetV { filename: name@, preamble: seq![], sections: seq![] });
            match place(&mut sheet, &opts.target_section, moved) {
                Ok(()) => {
                    let t = sheets.len();
                    let ghost placed_v = sheet@;
                    sheets.push(sheet);
                    assert(sheets_view(sheets@) =~= vs1.push(placed_v));
                    Ok(Moved { id: opts.target_id.clone(), source_index: src, target_index: t, created: true })
                },
                Err(e) => Err(e),
            }
        },
    }
}

proof fn lemma_placed_has(sh: SheetV, section: Option<Seq<char>>, f: FactV)
    requires
        placed(sh, section, f) is Ok,
        f.blank_lines_before == 0,
    ensures
        exists|k: int|
            0 <= k < sheet_facts(placed(sh, section, f)->Ok_0).len() && (#[trigger] sheet_facts(
                placed(sh, section, f)->Ok_0,
            )[k]).1 == f,
{
    let r = placed(sh, section, f)->Ok_0;
    let pre = r.preamble.map_values(|g: FactV| (Seq::<Seq<char>>::empty(), g));
    let secs = sections_facts(r.sections, seq![]);
    assert(sheet_facts(r) == pre + secs);
    match section {
        Some(p) => {
            lemma_section_parts_nonempty(p);
            lemma_with_path_has(sh.sections, section_parts(p), 1, f, seq![]);
            let q = choose|q: Seq<Seq<char>>| secs.contains((q, f));
            let i = choose|i: int| 0 <= i < secs.len() && secs[i] == (q, f);
            assert((pre + secs)[pre.len() + i] == (q, f));
        },
        None => {
            assert((pre + secs)[sh.preamble.len() as int].1 == f);
        },
    }
}

/// The sheet that a move puts the fact into: the first sheet with the target
/// name, or a new sheet after all the others.
pub open spec fn move_target(opts: MoveOptions, ss: Seq<FactSheet>, p: nat) -> int {
    let vs = sheets_view(ss);
    let name = target_name(opts, vs[all_located(ss)[p as int].0 as int].filename);
    match sheet_named(vs, name) {
        Some(t) => t as int,
        None => vs.len() as int,
    }
}

/// A moved fact is found again in the sheet it was moved to, with the label,
/// id, command and tags it had; moved to another sheet, it leaves its source
/// sheet with every other fact in place.
pub proof fn law_moved_fact_is_listed(opts: MoveOptions, ss: Seq<FactSheet>, p: nat)
    requires
        p < all_located(ss).len(),
        ss.len() <= usize::MAX,
        move_spec(opts, ss, p) is Ok,
    ensures
        ({
            let vs2 = move_spec(opts, ss, p)->Ok_0;
            let t = move_target(opts, ss, p);
            let f = all_located(ss)[p as int].2@;
            &&& 0 <= t < vs2.len()
            &&& exists|k: int|
                0 <= k < sheet_facts(vs2[t]).len() && {
                    let g = (#[trigger] sheet_facts(vs2[t])[k]).1;
                    &&& g.label == f.label
                    &&& g.explicit_id == f.explicit_id
                    &&& g.command == f.command
                    &&& g.tags == f.tags
                }
            &&& t != all_located(ss)[p as int].0 ==> sheet_flat(vs2[all_located(ss)[p as int].0 as int]) == sheet_flat(
                sheets_view(ss)[all_located(ss)[p as int].0 as int],
            ).remove(sheet_flat_index(sheets_view(ss)[all_located(ss)[p as int].0 as int], all_located(ss)[p as int].1))
        }),
{
    let e = all_located(ss)[p as int];
    law_all_located_addresses(ss, p as int);
    let vs = sheets_view(ss);
    let src = e.0 as int;
    let f = moved_fact_v(e.2@);
    let name = target_name(opts, vs[src].filename);
    let vs1 = vs.update(src, sheet_without(vs[src], e.1));
    assert(vs1.len() == vs.len());
    let vs2 = move_spec(opts, ss, p)->Ok_0;
    let t = move_target(opts, ss, p);
    let sh = match sheet_named(vs, name) {
        Some(t0) => {
            lemma_sheet_named_bound(vs, name);
            vs1[t0 as int]
        },
        None => SheetV { filename: name, preamble: seq![], sections: seq![] },
    };
    assert(placed(sh, opt_view(opts.target_section), f) is Ok);
    assert(vs2[t] == placed(sh, opt_view(opts.target_section), f)->Ok_0);
    lemma_placed_has(sh, opt_view(opts.target_section), f);
    let k = choose|k: int|
        0 <= k < sheet_facts(vs2[t]).len() && (#[trigger] sheet_facts(vs2[t])[k]).1 == f;
    assert(sheet_facts(vs2[t])[k].1 == f);
    lemma_location_view(ss[src], e.1);
    law_remove_drops_only_that_fact(vs[src], e.1);
    if t != src {
        assert(vs2[src] == vs1[src]);
    }
}

proof fn lemma_placed_where(sh: SheetV, section: Option<Seq<char>>, f: FactV)
    requires
        placed(sh, section, f) is Ok,
        f.blank_lines_before == 0,
    ensures
        exists|k: int|
            0 <= k < sheet_facts(placed(sh, section, f)->Ok_0).len() && (#[trigger] sheet_facts(
                placed(sh, section, f)->Ok_0,
            )[k]).1 == f && match section {
                Some(p) => path_matches(sheet_facts(placed(sh, section, f)->Ok_0)[k].0, section_parts(p)),
                None => sheet_facts(placed(sh, section, f)->Ok_0)[k].0 == Seq::<Seq<char>>::empty(),
            },
{
    let r = placed(sh, section, f)->Ok_0;
    let pre = r.preamble.map_values(|g: FactV| (Seq::<Seq<char>>::empty(), g));
    let secs = sections_facts(r.sections, seq![]);
    assert(sheet_facts(r) == pre + secs);
    match section {
        Some(p) => {
            lemma_section_parts_nonempty(p);
            lemma_with_path_has(sh.sections, section_parts(p), 1, f, seq![]);
            let q = choose|q: Seq<Seq<char>>|
                path_matches(q, section_parts(p)) && #[trigger] secs.contains((Seq::<Seq<char>>::empty() + q, f));
            assert(Seq::<Seq<char>>::empty() + q =~= q);
            let i = choose|i: int| 0 <= i < secs.len() && secs[i] == (q, f);
            assert((pre + secs)[pre.len() + i] == (q, f));
        },
        None => {
            assert((pre + secs)[sh.preamble.len() as int] == (Seq::<Seq<char>>::empty(), f));
        },
    }
}

/// A moved fact lands where the move names: under the named section path
/// (titles matched without regard to ASCII case, the missing ones created) or,
/// with no section named, in the preamble of the target sheet, with the label,
/// id, command and tags it had. Moved within its own file, the file is its old
/// content with the fact taken from its old place and then placed anew.
pub proof fn law_moved_fact_lands_in_target(opts: MoveOptions, ss: Seq<FactSheet>, p: nat)
    requires
        p < all_located(ss).len(),
        ss.len() <= usize::MAX,
        move_spec(opts, ss, p) is Ok,
    ensures
        ({
            let vs = sheets_view(ss);
            let vs2 = move_spec(opts, ss, p)->Ok_0;
            let t = move_target(opts, ss, p);
            let e = all_located(ss)[p as int];
            let f = e.2@;
            &&& 0 <= t < vs2.len()
            &&& exists|k: int|
                0 <= k < sheet_facts(vs2[t]).len() && {
                    let g = #[trigger] sheet_facts(vs2[t])[k];
                    &&& g.1.label == f.label
                    &&& g.1.explicit_id == f.explicit_id
                    &&& g.1.command == f.command
                    &&& g.1.tags == f.tags
                    &&& match opt_view(opts.target_section) {
                        Some(sp) => path_matches(g.0, section_parts(sp)),
                        None => g.0 == Seq::<Seq<char>>::empty(),
                    }
                }
            &&& t == e.0 ==> {
                &&& vs2[t] == placed(sheet_without(vs[t], e.1), opt_view(opts.target_section), moved_fact_v(f))->Ok_0
                &&& sheet_flat(sheet_without(vs[t], e.1)) == sheet_flat(vs[t]).remove(sheet_flat_index(vs[t], e.1))
            }
        }),
{
    let e = all_located(ss)[p as int];
    law_all_located_addresses(ss, p as int);
    let vs = sheets_view(ss);
    let src = e.0 as int;
    let f = moved_fact_v(e.2@);
    let name = target_name(opts, vs[src].filename);
    let vs1 = vs.update(src, sheet_without(vs[src], e.1));
    assert(vs1.len() == vs.len());
    let vs2 = move_spec(opts, ss, p)->Ok_0;
    let t = move_target(opts, ss, p);
    let sh = match sheet_named(vs, name) {
        Some(t0) => {
            lemma_sheet_named_bound(vs, name);
            vs1[t0 as int]
        },
        None => SheetV { filename: name, preamble: seq![], sections: seq![] },
    };
    assert(placed(sh, opt_view(opts.target_section), f) is Ok);
    assert(vs2[t] == placed(sh, opt_view(opts.target_section), f)->Ok_0);
    lemma_placed_where(sh, opt_view(opts.target_section), f);
    let k = choose|k: int|
        0 <= k < sheet_facts(vs2[t]).len() && (#[trigger] sheet_facts(vs2[t])[k]).1 == f && match opt_view(
            opts.target_section,
        ) {
            Some(sp) => path_matches(sheet_facts(vs2[t])[k].0, section_parts(sp)),
            None => sheet_facts(vs2[t])[k].0 == Seq::<Seq<char>>::empty(),
        };
    assert(sheet_facts(vs2[t])[k].1 == f);
    lemma_location_view(ss[src], e.1);
    law_remove_drops_only_that_fact(vs[src], e.1);
}

/// The target file of a move: the given file name unchanged when it already
/// ends in `.facts`, else that name with `.facts` appended; the source file when
/// none is given. A move into a file that is already among the sheets puts the
/// fact into the first sheet of that name and adds no sheet.
pub proof fn law_move_target_file(opts: MoveOptions, ss: Seq<FactSheet>, p: nat)
    requires
        p < all_located(ss).len(),
        ss.len() <= usize::MAX,
    ensures
        forall|src: Seq<char>|
            #![trigger target_name(opts, src)]
            opt_view(opts.target_file) matches Some(f) ==> (ends_with(f, ".facts"@) ==> target_name(opts, src) == f),
        forall|src: Seq<char>|
            #![trigger target_name(opts, src)]
            opt_view(opts.target_file) matches Some(f) ==> (!ends_with(f, ".facts"@) ==> target_name(opts, src) == f
                + ".facts"@),
        forall|src: Seq<char>| #![trigger target_name(opts, src)] opts.target_file is None ==> target_name(opts, src) == src,
        opt_view(opts.target_file) matches Some(f) ==> (ends_with(f, ".facts"@) ==> (sheet_named(sheets_view(ss), f) matches Some(
            t,
        ) ==> move_target(opts, ss, p) == t && t < ss.len() && ss[t as int].filename@ == f && (move_spec(opts, ss, p) matches Ok(
            vs2,
        ) ==> vs2.len() == ss.len() && vs2[t as int].filename == f))),
{
    let vs = sheets_view(ss);
    lemma_sheet_named_bound(vs, target_name(opts, vs[all_located(ss)[p as int].0 as int].filename));
    law_all_located_addresses(ss, p as int);
    match opt_view(opts.target_file) {
        Some(f) => {
            if ends_with(f, ".facts"@) {
                lemma_sheet_named_bound(vs, f);
                lemma_sheet_named_is(vs, f);
                match sheet_named(vs, f) {
                    Some(t) => {
                        let e = all_located(ss)[p as int];
                        let src = e.0 as int;
                        let w = sheet_without(vs[src], e.1);
                        let vs1 = vs.update(src, w);
                        assert(vs1[t as int].filename == f);
                        if move_spec(opts, ss, p) is Ok {
                            let sh = placed(vs1[t as int], opt_view(opts.target_section), moved_fact_v(e.2@))->Ok_0;
                            assert(sh.filename == f) by {
                                match opt_view(opts.target_section) {
                                    Some(_) => {},
                                    None => {},
                                }
                            }
                        }
                    },
                    None => {},
                }
            }
        },
        None => {},
    }
}

proof fn lemma_sheet_named_is(ss: Seq<SheetV>, name: Seq<char>)
    ensures
        sheet_named(ss, name) matches Some(k) ==> k < ss.len() && ss[k as int].filename == name,
    decreases ss.len(),
{
    if ss.len() > 0 {
        lemma_sheet_named_is(ss.drop_first(), name);
        match sheet_named(ss.drop_first(), name) {
            Some(k) => {
                assert(ss.drop_first()[k as int] == ss[k as int + 1]);
            },
            None => {},
        }
    }
}

/// The number of facts in all the sheets.
pub open spec fn total_facts(vs: Seq<SheetV>) -> nat
    decreases vs.len(),
{
    if vs.len() == 0 { 0 } else { total_facts(vs.drop_last()) + sheet_flat(vs.last()).len() }
}

proof fn lemma_total_update(vs: Seq<SheetV>, i: int, x: SheetV)
    requires
        0 <= i < vs.len(),
    ensures
        total_facts(vs.update(i, x)) + sheet_flat(vs[i]).len() == total_facts(vs) + sheet_flat(x).len(),
    decreases vs.len(),
{
    let u = vs.update(i, x);
    if i < vs.len() - 1 {
        lemma_total_update(vs.drop_last(), i, x);
        assert(u.drop_last() =~= vs.drop_last().update(i, x));
    } else {
        assert(u.drop_last() =~= vs.drop_last());
    }
}

proof fn lemma_total_push(vs: Seq<SheetV>, x: SheetV)
    ensures
        total_facts(vs.push(x)) == total_facts(vs) + sheet_flat(x).len(),
{
    assert(vs.push(x).drop_last() =~= vs);
}

proof fn lemma_flat_update(ss: Seq<SectionV>, k: int, s: SectionV)
    requires
        0 <= k < ss.len(),
    ensures
        flat_facts(ss.update(k, s)).len() + section_flat(ss[k]).len() == flat_facts(ss).len() + section_flat(s).len(),
{
    let u = ss.update(k, s);
    lemma_flat_split(ss, k);
    lemma_flat_split(u, k);
    assert(u.take(k) =~= ss.take(k));
    assert(u.skip(k + 1) =~= ss.skip(k + 1));
}

proof fn lemma_flat_push(ss: Seq<SectionV>, s: SectionV)
    ensures
        flat_facts(ss.push(s)).len() == flat_facts(ss).len() + section_flat(s).len(),
{
    let one = seq![s];
    lemma_flat_concat(ss, one);
    assert(ss.push(s) =~= ss + one);
    assert(one.drop_first() =~= Seq::<SectionV>::empty());
    assert(flat_facts(one.drop_first()) == Seq::<FactV>::empty());
    assert(flat_facts(one) == section_flat(one[0]) + flat_facts(one.drop_first()));
    assert(flat_facts(one) =~= section_flat(s));
}

proof fn lemma_with_path_count(secs: Seq<SectionV>, parts: Seq<Seq<char>>, depth: nat, f: FactV)
    requires
        parts.len() > 0,
    ensures
        flat_facts(with_path(secs, parts, depth, f)).len() == flat_facts(secs).len() + 1,
    decreases parts.len(),
{
    let name = parts[0];
    let f0 = FactV { blank_lines_before: 0, ..f };
    match title_index(secs, name) {
        Some(k) => {
            lemma_title_index_bound(secs, name);
            let s = secs[k as int];
            if parts.len() == 1 {
                let s2 = SectionV { facts: s.facts.push(f0), ..s };
                lemma_flat_update(secs, k as int, s2);
            } else {
                let s2 = SectionV { children: with_path(s.children, parts.drop_first(), depth + 1, f), ..s };
                lemma_with_path_count(s.children, parts.drop_first(), depth + 1, f);
                lemma_flat_update(secs, k as int, s2);
            }
        },
        None => {
            if parts.len() == 1 {
                let n = fresh_section(name, depth, seq![f0], seq![]);
                lemma_flat_push(secs, n);
                assert(flat_facts(n.children) == Seq::<FactV>::empty());
            } else {
                let kids = with_path(seq![], parts.drop_first(), depth + 1, f);
                let n = fresh_section(name, depth, seq![], kids);
                lemma_with_path_count(seq![], parts.drop_first(), depth + 1, f);
                lemma_flat_push(secs, n);
                assert(flat_facts(Seq::<SectionV>::empty()) == Seq::<FactV>::empty());
            }
        },
    }
}

proof fn lemma_placed_count(sh: SheetV, section: Option<Seq<char>>, f: FactV)
    requires
        placed(sh, section, f) is Ok,
    ensures
        sheet_flat(placed(sh, section, f)->Ok_0).len() == sheet_flat(sh).len() + 1,
{
    match section {
        Some(p) => {
            lemma_section_parts_nonempty(p);
            lemma_with_path_count(sh.sections, section_parts(p), 1, f);
        },
        None => {},
    }
}

/// A move keeps the number of facts: the sheets after a move hold as many
/// facts, all together, as before it.
pub proof fn law_move_keeps_fact_count(opts: MoveOptions, ss: Seq<FactSheet>, p: nat)
    requires
        p < all_located(ss).len(),
        ss.len() <= usize::MAX,
        move_spec(opts, ss, p) is Ok,
    ensures
        total_facts(move_spec(opts, ss, p)->Ok_0) == total_facts(sheets_view(ss)),
{
    let e = all_located(ss)[p as int];
    law_all_located_addresses(ss, p as int);
    let vs = sheets_view(ss);
    let src = e.0 as int;
    let f = moved_fact_v(e.2@);
    let name = target_name(opts, vs[src].filename);
    let w = sheet_without(vs[src], e.1);
    let vs1 = vs.update(src, w);
    lemma_location_view(ss[src], e.1);
    law_remove_drops_only_that_fact(vs[src], e.1);
    assert(sheet_flat(w).len() + 1 == sheet_flat(vs[src]).len());
    lemma_total_update(vs, src, w);
    match sheet_named(vs, name) {
        Some(t) => {
            lemma_sheet_named_bound(vs, name);
            lemma_placed_count(vs1[t as int], opt_view(opts.target_section), f);
            lemma_total_update(vs1, t as int, placed(vs1[t as int], opt_view(opts.target_section), f)->Ok_0);
        },
        None => {
            let empty = SheetV { filename: name, preamble: seq![], sections: seq![] };
            lemma_placed_count(empty, opt_view(opts.target_section), f);
            assert(sheet_flat(empty).len() == 0);
            lemma_total_push(vs1, placed(empty, opt_view(opts.target_section), f)->Ok_0);
        },
    }
}

proof fn lemma_sheet_named_bound(ss: Seq<SheetV>, name: Seq<char>)
    ensures
        sheet_named(ss, name) matches Some(k) ==> k < ss.len(),
    decreases ss.len(),
{
    if ss.len() > 0 {
        lemma_sheet_named_bound(ss.drop_first(), name);
    }
}

} // verus!
