//! The `edit` command: modify facts by ID.
use vstd::prelude::*;
use crate::add::{has_line_break, merge_tags, merged_tags};
use crate::id::{assign_spec, assign, first_index, ids_assigned, position_of};
use crate::locate::{
    all_located, fact_at, fact_at_v, get_fact, law_all_located_addresses, lemma_location_view,
    lemma_with_fact_keeps_locations, locate_all, located_labels, located_places, labels_view, locations_view, set_fact,
    sheet_with_fact, valid_location_v, FactLocation, LocV, nav_v, secs_with_fact, valid_path_v,
};
use crate::model::{copy_fact, copy_strings, opt_view, sheets_view, strings_view, Fact, FactSheet, FactV, SectionV, SheetV};
use crate::parser::{extract_inline_tags, inline_label, inline_tags};
use crate::remove::{
    flat_facts, flat_index, lemma_flat_at, lemma_flat_split, no_fact_error, section_flat, sheet_flat, sheet_flat_index,
};
use crate::text::{all_ws, chars_of, chars_of_strings, concat2, concat3, contains_seq, find_ch, is_blank, string_of, strings_of, vv};
use crate::writer::{fact_to_raw, raw_of};

verus! {

/// Options for the edit subcommand.
pub struct EditOptions {
    /// The ID(s) of the fact(s) to edit.
    pub target_ids: Vec<String>,
    /// New label (replaces existing).
    pub label: Option<String>,
    /// New command (replaces existing).
    pub command: Option<String>,
    /// New explicit ID (replaces existing).
    pub new_id: Option<String>,
    /// New tags (replaces all existing).
    pub tags: Option<Vec<String>>,
    /// Tags to add (appended to existing, deduplicated).
    pub add_tags: Option<Vec<String>>,
    /// Tags to remove.
    pub remove_tags: Option<Vec<String>>,
}

pub open spec fn opt_strings(o: Option<Vec<String>>) -> Option<Seq<Seq<char>>> {
    match o {
        Some(v) => Some(strings_view(v@)),
        None => None,
    }
}

/// The elements of `ts` that are not in `rm`, in order.
pub open spec fn without_tags(ts: Seq<Seq<char>>, rm: Seq<Seq<char>>) -> Seq<Seq<char>>
    decreases ts.len(),
{
    if ts.len() == 0 {
        seq![]
    } else {
        let r = without_tags(ts.drop_last(), rm);
        if rm.contains(ts.last()) { r } else { r.push(ts.last()) }
    }
}

/// The fact after the edits the options ask for: a new label (its inline tags
/// added), command or id; tags replaced, added and removed; and a plain fact
/// that gets a command or id becomes a mapping.
pub open spec fn edited_v(f: FactV, opts: EditOptions) -> FactV {
    let f1 = match opt_view(opts.label) {
        Some(l) => FactV { label: inline_label(l), tags: merged_tags(f.tags, inline_tags(l)), ..f },
        None => f,
    };
    let f2 = match opt_view(opts.command) {
        Some(c) => FactV { command: Some(c), ..f1 },
        None => f1,
    };
    let f3 = match opt_view(opts.new_id) {
        Some(n) => FactV { explicit_id: Some(n), ..f2 },
        None => f2,
    };
    let f4 = match opt_strings(opts.tags) {
        Some(ts) => FactV { tags: ts, ..f3 },
        None => f3,
    };
    let f5 = match opt_strings(opts.add_tags) {
        Some(ts) => FactV { tags: merged_tags(f4.tags, ts), ..f4 },
        None => f4,
    };
    let f6 = match opt_strings(opts.remove_tags) {
        Some(ts) => FactV { tags: without_tags(f5.tags, ts), ..f5 },
        None => f5,
    };
    if f6.is_plain && (f6.command is Some || f6.explicit_id is Some) {
        FactV { is_plain: false, ..f6 }
    } else {
        f6
    }
}

fn remove_tag_list(ts: &Vec<Vec<char>>, rm: &Vec<Vec<char>>) -> (r: Vec<Vec<char>>)
    ensures
        vv(r@) == without_tags(vv(ts@), vv(rm@)),
{
    let mut r: Vec<Vec<char>> = Vec::new();
    let mut i: usize = 0;
    while i < ts.len()
        invariant
            i <= ts@.len(),
            vv(r@) == without_tags(vv(ts@).take(i as int), vv(rm@)),
        decreases ts.len() - i,
    {
        proof {
            assert(vv(ts@).take(i + 1).drop_last() =~= vv(ts@).take(i as int));
            assert(vv(ts@).take(i + 1).last() == ts@[i as int]@);
        }
        if !contains_seq(rm, ts[i].as_slice()) {
            let ghost r0 = vv(r@);
            r.push(crate::text::copy_chars(ts[i].as_slice()));
            assert(vv(r@) =~= r0.push(ts@[i as int]@));
        }
        i += 1;
    }
    assert(vv(ts@).take(i as int) =~= vv(ts@));
    r
}

/// Apply edits to a fact based on the options.
pub fn apply_edits(fact: &mut Fact, opts: &EditOptions)
    ensures
        final(fact)@ == edited_v(old(fact)@, *opts),
{
    let ghost f0 = fact@;
    let mut tags = chars_of_strings(fact.tags.as_slice());
    match &opts.label {
        Some(new_label) => {
            let (clean, inline) = extract_inline_tags(new_label.as_str());
            fact.label = clean;
            tags = merge_tags(tags, &chars_of_strings(inline.as_slice()));
        },
        None => {},
    }
    match &opts.command {
        Some(c) => {
            fact.command = Some(c.clone());
        },
        None => {},
    }
    match &opts.new_id {
        Some(n) => {
            fact.explicit_id = Some(n.clone());
        },
        None => {},
    }
    match &opts.tags {
        Some(ts) => {
            tags = chars_of_strings(ts.as_slice());
        },
        None => {},
    }
    match &opts.add_tags {
        Some(ts) => {
            tags = merge_tags(tags, &chars_of_strings(ts.as_slice()));
        },
        None => {},
    }
    match &opts.remove_tags {
        Some(ts) => {
            tags = remove_tag_list(&tags, &chars_of_strings(ts.as_slice()));
        },
        None => {},
    }
    fact.tags = strings_of(&tags);
    if fact.is_plain {
        if fact.command.is_some() || fact.explicit_id.is_some() {
            fact.is_plain = false;
        }
    }
    assert(fact@ =~~= edited_v(f0, *opts));
}

// ---------------------------------------------------------------------------
// Editing by ID
// ---------------------------------------------------------------------------

/// Why the options are refused before any file is read, if they are.
pub open spec fn edit_options_error(opts: EditOptions) -> Option<Seq<char>> {
    let n = opts.target_ids@.len();
    if n == 0 {
        Some("at least one ID is required"@)
    } else if n > 1 && opts.new_id is Some {
        Some("--new-id cannot be used with multiple IDs"@)
    } else if n > 1 && opts.label is Some {
        Some("--label cannot be used with multiple IDs"@)
    } else if opt_view(opts.label) matches Some(l) && has_line_break(l) {
        Some("label cannot contain newlines"@)
    } else if opt_view(opts.label) matches Some(l) && all_ws(inline_label(l)) {
        Some("label cannot be empty"@)
    } else if opt_view(opts.command) matches Some(c) && all_ws(c) {
        Some("command cannot be empty"@)
    } else if opt_view(opts.new_id) matches Some(i) && all_ws(i) {
        Some("ID cannot be empty"@)
    } else {
        None
    }
}

/// The positions of the facts that the targets name, in order, or the error for
/// the first target that no fact has.
pub open spec fn resolve_all(ids: Seq<Seq<char>>, targets: Seq<Seq<char>>) -> Result<Seq<nat>, Seq<char>>
    decreases targets.len(),
{
    if targets.len() == 0 {
        Ok(seq![])
    } else {
        match first_index(ids, targets[0]) {
            None => Err(no_fact_error(targets[0])),
            Some(p) => match resolve_all(ids, targets.drop_first()) {
                Ok(ps) => Ok(seq![p] + ps),
                Err(e) => Err(e),
            },
        }
    }
}

/// Whether a fact other than the edited ones already carries the explicit id `n`.
pub open spec fn id_conflict(labels: Seq<(Seq<char>, Option<Seq<char>>)>, ps: Seq<nat>, n: Seq<char>) -> bool {
    exists|i: int| 0 <= i < labels.len() && !ps.contains(i as nat) && (#[trigger] labels[i]).1 == Some(n)
}

/// The fact as it is written back after editing.
pub open spec fn rerendered(f: FactV) -> FactV {
    FactV { raw: raw_of(f), ..f }
}

/// The sheets after editing the facts at positions `ps` one after the other.
pub open spec fn apply_all(vs: Seq<SheetV>, places: Seq<(usize, LocV)>, ps: Seq<nat>, opts: EditOptions) -> Seq<SheetV>
    decreases ps.len(),
{
    if ps.len() == 0 {
        vs
    } else {
        let prev = apply_all(vs, places, ps.drop_last(), opts);
        let (k, loc) = places[ps.last() as int];
        prev.update(k as int, sheet_with_fact(prev[k as int], loc, rerendered(edited_v(fact_at_v(prev[k as int], loc), opts))))
    }
}

/// The sheets of the edited facts, each once, in order of first edit.
pub open spec fn touched(places: Seq<(usize, LocV)>, ps: Seq<nat>) -> Seq<usize>
    decreases ps.len(),
{
    if ps.len() == 0 {
        seq![]
    } else {
        let t = touched(places, ps.drop_last());
        let k = places[ps.last() as int].0;
        if t.contains(k) { t } else { t.push(k) }
    }
}

/// Edit the facts whose IDs the options name, computing IDs over all facts of all
/// sheets; on success give the indices of the sheets that changed.
pub fn run(opts: &EditOptions, sheets: &mut Vec<FactSheet>) -> (r: Result<Vec<usize>, String>)
    ensures
        match edit_options_error(*opts) {
            Some(m) => r matches Err(e) && e@ == m,
            None => match resolve_all(
                    assign_spec(located_labels(all_located(old(sheets)@))),
                    strings_view(opts.target_ids@),
                ) {
                    Err(m) => r matches Err(e) && e@ == m,
                    Ok(ps) => if opt_view(opts.new_id) is Some && id_conflict(
                        located_labels(all_located(old(sheets)@)),
                        ps,
                        opt_view(opts.new_id)->Some_0,
                    ) {
                        r matches Err(e) && e@ == "ID already exists: "@ + opt_view(opts.new_id)->Some_0
                    } else {
                        &&& r matches Ok(changed)
                        &&& changed@ == touched(located_places(all_located(old(sheets)@)), ps)
                        &&& sheets_view(final(sheets)@) == apply_all(
                            sheets_view(old(sheets)@),
                            located_places(all_located(old(sheets)@)),
                            ps,
                            *opts,
                        )
                    },
                },
        },
        r is Err ==> final(sheets)@ == old(sheets)@,
{
    match check_options(opts) {
        Some(m) => {
            return Err(m);
        },
        None => {},
    }
    let ghost s0 = sheets@;
    let ghost all = all_located(sheets@);
    let ghost places = located_places(all);
    let ghost vs0 = sheets_view(sheets@);
    let (labels, locations) = locate_all(sheets);
    let ids = assign(&labels);
    let ghost iv = strings_view(ids@);
    let ghost targets = strings_view(opts.target_ids@);
    assert(ids_assigned(located_labels(all), iv));
    // Resolve all target IDs before making any changes.
    let mut resolved: Vec<usize> = Vec::new();
    let mut t: usize = 0;
    assert(targets.skip(0) =~= targets);
    while t < opts.target_ids.len()
        invariant
            t <= targets.len(),
            targets == strings_view(opts.target_ids@),
            iv == strings_view(ids@),
            iv.len() == all.len(),
            ids_assigned(located_labels(all), iv),
            sheets@ == s0,
            all == all_located(s0),
            edit_options_error(*opts) is None,
            forall|j: int| 0 <= j < resolved@.len() ==> resolved@[j] < all.len(),
            resolve_all(iv, targets) == match resolve_all(iv, targets.skip(t as int)) {
                Ok(ps) => Ok(resolved@.map_values(|x: usize| x as nat) + ps),
                Err(e) => Err(e),
            },
        decreases opts.target_ids.len() - t,
    {
        proof {
            assert(targets.skip(t as int)[0] == opts.target_ids@[t as int]@);
            assert(targets.skip(t as int).drop_first() =~= targets.skip(t + 1));
        }
        match position_of(&ids, opts.target_ids[t].as_str()) {
            None => {
                assert(resolve_all(iv, targets.skip(t as int)) == Err::<Seq<nat>, Seq<char>>(no_fact_error(targets[t as int])));
                assert(resolve_all(iv, targets) == Err::<Seq<nat>, Seq<char>>(no_fact_error(targets[t as int])));
                assert(ids_assigned(located_labels(all_located(s0)), iv));
                return Err(string_of(concat3("no fact found with ID '", chars_of(opts.target_ids[t].as_str()).as_slice(), "'").as_slice()));
            },
            Some(p) => {
                let ghost r0 = resolved@.map_values(|x: usize| x as nat);
                resolved.push(p);
                proof {
                    assert(resolved@.map_values(|x: usize| x as nat) =~= r0.push(p as nat));
                    match resolve_all(iv, targets.skip(t + 1)) {
                        Ok(ps) => {
                            assert(r0 + (seq![p as nat] + ps) =~= r0.push(p as nat) + ps);
                        },
                        Err(_) => {},
                    }
                }
            },
        }
        t += 1;
    }
    let ghost ps = resolved@.map_values(|x: usize| x as nat);
    assert(targets.skip(t as int) =~= seq![]);
    assert(resolve_all(iv, targets) == Ok::<Seq<nat>, Seq<char>>(ps)) by {
        assert(ps + seq![] =~= ps);
    }
    // Reject an id that another fact already has.
    match &opts.new_id {
        Some(n) => {
            let nc = chars_of(n.as_str());
            let mut i: usize = 0;
            while i < labels.len()
                invariant
                    i <= labels@.len(),
                    labels_view(labels@) == located_labels(all),
                    nc@ == n@,
                    ps == resolved@.map_values(|x: usize| x as nat),
                    ids_assigned(located_labels(all), iv),
                    resolve_all(iv, targets) == Ok::<Seq<nat>, Seq<char>>(ps),
                    sheets@ == s0,
                    all == all_located(s0),
                    targets == strings_view(opts.target_ids@),
                    edit_options_error(*opts) is None,
                    opts.new_id == Some(*n),
                    forall|j: int| 0 <= j < i ==> !(!ps.contains(j as nat) && (#[trigger] located_labels(all)[j]).1 == Some(n@)),
                decreases labels.len() - i,
            {
                let mut in_resolved = false;
                let mut k: usize = 0;
                while k < resolved.len()
                    invariant
                        k <= resolved@.len(),
                        in_resolved == exists|m: int| 0 <= m < k && resolved@[m] == i,
                    decreases resolved.len() - k,
                {
                    if resolved[k] == i {
                        in_resolved = true;
                    }
                    k += 1;
                }
                proof {
                    if in_resolved {
                        let m = choose|m: int| 0 <= m < resolved@.len() && resolved@[m] == i;
                        assert(ps[m] == i as nat);
                    } else {
                        assert forall|m: int| 0 <= m < ps.len() implies ps[m] != i as nat by {
                            assert(resolved@[m] != i);
                        }
                    }
                    assert(located_labels(all)[i as int] == (labels@[i as int].0@, opt_view(labels@[i as int].1)));
                }
                match &labels[i].1 {
                    Some(e) => {
                        if !in_resolved && crate::text::same(chars_of(e.as_str()).as_slice(), nc.as_slice()) {
                            assert(!ps.contains(i as nat));
                            assert(located_labels(all)[i as int].1 == Some(n@));
                            assert(id_conflict(located_labels(all), ps, n@));
                            return Err(string_of(concat2(chars_of("ID already exists: ").as_slice(), nc.as_slice()).as_slice()));
                        }
                    },
                    None => {},
                }
                i += 1;
            }
        },
        None => {},
    }
    // Apply edits to all resolved facts.
    proof {
        assert(sheets.len() == sheets@.len());
        assert forall|q: int| 0 <= q < places.len() implies (#[trigger] places[q]).0 < sheets@.len()
            && valid_location_v(vs0[places[q].0 as int], places[q].1) by {
            law_all_located_addresses(sheets@, q);
            lemma_location_view(sheets@[all[q].0 as int], all[q].1);
        }
    }
    let mut changed: Vec<usize> = Vec::new();
    let mut i: usize = 0;
    while i < resolved.len()
        invariant
            i <= resolved@.len(),
            ps == resolved@.map_values(|x: usize| x as nat),
            forall|j: int| 0 <= j < resolved@.len() ==> resolved@[j] < places.len(),
            locations_view(locations@) == places,
            places.len() == all.len(),
            sheets@.len() == vs0.len(),
            sheets_view(sheets@) == apply_all(vs0, places, ps.take(i as int), *opts),
            changed@ == touched(places, ps.take(i as int)),
            forall|q: int| 0 <= q < places.len() ==> (#[trigger] places[q]).0 < sheets@.len()
                && valid_location_v(sheets_view(sheets@)[places[q].0 as int], places[q].1),
        decreases resolved.len() - i,
    {
        let p = resolved[i];
        let k = locations[p].0;
        let loc = &locations[p].1;
        let ghost cur = sheets_view(sheets@);
        proof {
            assert(places[p as int] == (k, loc@));
            assert(ps.take(i + 1).drop_last() =~= ps.take(i as int));
            assert(ps.take(i + 1).last() == p as nat);
            lemma_location_view(sheets@[k as int], loc@);
        }
        let mut fact = copy_fact(get_fact(&sheets[k], loc));
        apply_edits(&mut fact, opts);
        let raw = fact_to_raw(&fact);
        fact.raw = raw;
        let ghost fv = fact@;
        let mut sheet = sheets.remove(k);
        set_fact(&mut sheet, loc, fact);
        sheets.insert(k, sheet);
        proof {
            assert(sheets_view(sheets@) =~= cur.update(k as int, sheet_with_fact(cur[k as int], loc@, fv)));
            assert forall|q: int| 0 <= q < places.len() implies (#[trigger] places[q]).0 < sheets@.len()
                && valid_location_v(sheets_view(sheets@)[places[q].0 as int], places[q].1) by {
                if places[q].0 == k {
                    lemma_with_fact_keeps_locations(cur[k as int], loc@, fv, places[q].1);
                }
            }
        }
        let mut seen = false;
        let mut m: usize = 0;
        while m < changed.len()
            invariant
                m <= changed@.len(),
                seen == exists|x: int| 0 <= x < m && changed@[x] == k,
            decreases changed.len() - m,
        {
            if changed[m] == k {
                seen = true;
            }
            m += 1;
        }
        if !seen {
            changed.push(k);
        }
        i += 1;
    }
    assert(ps.take(i as int) =~= ps);
    Ok(changed)
}

/// The error that the edit options give before any sheet is read, if any.
pub fn check_options(opts: &EditOptions) -> (r: Option<String>)
    ensures
        match (r, edit_options_error(*opts)) {
            (Some(e), Some(m)) => e@ == m,
            (None, None) => true,
            _ => false,
        },
{
    let n = opts.target_ids.len();
    if n == 0 {
        return Some(string_of(chars_of("at least one ID is required").as_slice()));
    }
    if n > 1 {
        if opts.new_id.is_some() {
            return Some(string_of(chars_of("--new-id cannot be used with multiple IDs").as_slice()));
        }
        if opts.label.is_some() {
            return Some(string_of(chars_of("--label cannot be used with multiple IDs").as_slice()));
        }
    }
    match &opts.label {
        Some(l) => {
            let lc = chars_of(l.as_str());
            if find_ch(lc.as_slice(), '\n').is_some() || find_ch(lc.as_slice(), '\r').is_some() {
                return Some(string_of(chars_of("label cannot contain newlines").as_slice()));
            }
            let (stripped, _) = extract_inline_tags(l.as_str());
            if is_blank(chars_of(stripped.as_str()).as_slice()) {
                return Some(string_of(chars_of("label cannot be empty").as_slice()));
            }
        },
        None => {},
    }
    match &opts.command {
        Some(c) => {
            if is_blank(chars_of(c.as_str()).as_slice()) {
                return Some(string_of(chars_of("command cannot be empty").as_slice()));
            }
        },
        None => {},
    }
    match &opts.new_id {
        Some(i) => {
            if is_blank(chars_of(i.as_str()).as_slice()) {
                return Some(string_of(chars_of("ID cannot be empty").as_slice()));
            }
        },
        None => {},
    }
    None
}

proof fn lemma_flat_with_fact(ss: Seq<SectionV>, path: Seq<usize>, j: nat, f: FactV)
    requires
        valid_path_v(ss, path),
        j < nav_v(ss, path).facts.len(),
    ensures
        0 <= flat_index(ss, path, j) < flat_facts(ss).len(),
        flat_facts(secs_with_fact(ss, path, j, f)) == flat_facts(ss).update(flat_index(ss, path, j), f),
    decreases path.len(),
{
    let i = path[0] as int;
    let s = ss[i];
    let a = flat_facts(ss.take(i));
    let c = flat_facts(ss.skip(i + 1));
    lemma_flat_split(ss, i);
    let (s2, k) = if path.len() == 1 {
        (SectionV { facts: s.facts.update(j as int, f), ..s }, j as int)
    } else {
        lemma_flat_with_fact(s.children, path.drop_first(), j, f);
        (
            SectionV { children: secs_with_fact(s.children, path.drop_first(), j, f), ..s },
            s.facts.len() + flat_index(s.children, path.drop_first(), j),
        )
    };
    assert(0 <= k < section_flat(s).len());
    assert(section_flat(s2) =~= section_flat(s).update(k, f));
    let r = secs_with_fact(ss, path, j, f);
    assert(r == ss.update(i, s2));
    lemma_flat_split(r, i);
    assert(r.take(i) =~= ss.take(i));
    assert(r.skip(i + 1) =~= ss.skip(i + 1));
    assert(flat_facts(r) =~= (a + section_flat(s) + c).update(a.len() + k, f));
}

proof fn lemma_merged_has(a: Seq<Seq<char>>, b: Seq<Seq<char>>)
    ensures
        forall|t: Seq<char>| a.contains(t) ==> #[trigger] merged_tags(a, b).contains(t),
        forall|t: Seq<char>| b.contains(t) ==> #[trigger] merged_tags(a, b).contains(t),
    decreases b.len(),
{
    if b.len() > 0 {
        lemma_merged_has(a, b.drop_last());
        let m = merged_tags(a, b.drop_last());
        assert forall|t: Seq<char>| a.contains(t) implies #[trigger] merged_tags(a, b).contains(t) by {
            assert(m.contains(t));
            if !m.contains(b.last()) {
                let j = choose|j: int| 0 <= j < m.len() && m[j] == t;
                assert(m.push(b.last())[j] == t);
            }
        }
        assert forall|t: Seq<char>| b.contains(t) implies #[trigger] merged_tags(a, b).contains(t) by {
            let j = choose|j: int| 0 <= j < b.len() && b[j] == t;
            if j < b.len() - 1 {
                assert(b.drop_last()[j] == t);
                assert(m.contains(t));
                if !m.contains(b.last()) {
                    let k = choose|k: int| 0 <= k < m.len() && m[k] == t;
                    assert(m.push(b.last())[k] == t);
                }
            } else if !m.contains(b.last()) {
                assert(m.push(b.last())[m.len() as int] == t);
            }
        }
    }
}

proof fn lemma_without(ts: Seq<Seq<char>>, rm: Seq<Seq<char>>)
    ensures
        forall|t: Seq<char>| rm.contains(t) ==> !(#[trigger] without_tags(ts, rm).contains(t)),
        forall|t: Seq<char>| ts.contains(t) && !rm.contains(t) ==> #[trigger] without_tags(ts, rm).contains(t),
    decreases ts.len(),
{
    if ts.len() > 0 {
        lemma_without(ts.drop_last(), rm);
        let r = without_tags(ts.drop_last(), rm);
        assert forall|t: Seq<char>| rm.contains(t) implies !(#[trigger] without_tags(ts, rm).contains(t)) by {
            assert(!r.contains(t));
            if !rm.contains(ts.last()) {
                if r.push(ts.last()).contains(t) {
                    let j = choose|j: int| 0 <= j < r.len() + 1 && r.push(ts.last())[j] == t;
                    if j < r.len() {
                        assert(r[j] == t);
                    }
                }
            }
        }
        assert forall|t: Seq<char>| ts.contains(t) && !rm.contains(t) implies #[trigger] without_tags(ts, rm).contains(t) by {
            let j = choose|j: int| 0 <= j < ts.len() && ts[j] == t;
            if j < ts.len() - 1 {
                assert(ts.drop_last()[j] == t);
                assert(ts.drop_last().contains(t));
                assert(r.contains(t));
                let k = choose|k: int| 0 <= k < r.len() && r[k] == t;
                if !rm.contains(ts.last()) {
                    assert(r.push(ts.last())[k] == t);
                }
            } else {
                assert(r.push(ts.last())[r.len() as int] == t);
            }
        }
    }
}

/// What an edit does to tags and to the plain form: every tag asked to be
/// removed is gone; every tag asked to be added, and not also asked to be
/// removed, is there; tags replaced and neither added nor removed are exactly
/// the given ones; with no tag option and no new label the tags stay as they
/// were; and an edited fact is plain exactly when it was plain and has neither
/// a command nor an explicit id.
pub proof fn law_edit_tags_and_plain_form(f: FactV, opts: EditOptions)
    ensures
        ({
            let g = edited_v(f, opts);
            &&& forall|t: Seq<char>|
                #![trigger g.tags.contains(t)]
                opt_strings(opts.remove_tags) matches Some(rm) && rm.contains(t) ==> !g.tags.contains(t)
            &&& forall|t: Seq<char>|
                #![trigger g.tags.contains(t)]
                opt_strings(opts.add_tags) matches Some(ad) && ad.contains(t) && !(opt_strings(opts.remove_tags) matches Some(
                    rm,
                ) && rm.contains(t)) ==> g.tags.contains(t)
            &&& (opts.add_tags is None && opts.remove_tags is None ==> (opt_strings(opts.tags) matches Some(ts) ==> g.tags
                == ts))
            &&& (opts.label is None && opts.tags is None && opts.add_tags is None && opts.remove_tags is None ==> g.tags
                == f.tags)
            &&& (g.is_plain == (f.is_plain && g.command is None && g.explicit_id is None))
        }),
{
    let f1 = match opt_view(opts.label) {
        Some(l) => FactV { label: inline_label(l), tags: merged_tags(f.tags, inline_tags(l)), ..f },
        None => f,
    };
    let f2 = match opt_view(opts.command) {
        Some(c) => FactV { command: Some(c), ..f1 },
        None => f1,
    };
    let f3 = match opt_view(opts.new_id) {
        Some(n) => FactV { explicit_id: Some(n), ..f2 },
        None => f2,
    };
    let f4 = match opt_strings(opts.tags) {
        Some(ts) => FactV { tags: ts, ..f3 },
        None => f3,
    };
    let f5 = match opt_strings(opts.add_tags) {
        Some(ts) => FactV { tags: merged_tags(f4.tags, ts), ..f4 },
        None => f4,
    };
    match opt_strings(opts.add_tags) {
        Some(ts) => lemma_merged_has(f4.tags, ts),
        None => {},
    }
    match opt_strings(opts.remove_tags) {
        Some(rm) => lemma_without(f5.tags, rm),
        None => {},
    }
}

/// No element of `s` occurs twice.
pub open spec fn no_repeats(s: Seq<Seq<char>>) -> bool {
    forall|i: int, j: int| 0 <= i < j < s.len() ==> #[trigger] s[i] != #[trigger] s[j]
}

proof fn lemma_merged_no_repeats(a: Seq<Seq<char>>, b: Seq<Seq<char>>)
    requires
        no_repeats(a),
    ensures
        no_repeats(merged_tags(a, b)),
    decreases b.len(),
{
    if b.len() > 0 {
        lemma_merged_no_repeats(a, b.drop_last());
        let m = merged_tags(a, b.drop_last());
        if !m.contains(b.last()) {
            let m2 = m.push(b.last());
            assert forall|i: int, j: int| 0 <= i < j < m2.len() implies #[trigger] m2[i] != #[trigger] m2[j] by {
                if j == m.len() {
                    assert(m2[i] == m[i]);
                    if m[i] == b.last() {
                        assert(m.contains(b.last()));
                    }
                } else {
                    assert(m2[i] == m[i] && m2[j] == m[j]);
                }
            }
        }
    }
}

proof fn lemma_without_no_repeats(ts: Seq<Seq<char>>, rm: Seq<Seq<char>>)
    requires
        no_repeats(ts),
    ensures
        no_repeats(without_tags(ts, rm)),
        forall|t: Seq<char>| #[trigger] without_tags(ts, rm).contains(t) ==> ts.contains(t),
    decreases ts.len(),
{
    if ts.len() > 0 {
        let d = ts.drop_last();
        assert forall|i: int, j: int| 0 <= i < j < d.len() implies #[trigger] d[i] != #[trigger] d[j] by {
            assert(d[i] == ts[i] && d[j] == ts[j]);
        }
        lemma_without_no_repeats(d, rm);
        let r = without_tags(d, rm);
        assert forall|t: Seq<char>| #[trigger] without_tags(ts, rm).contains(t) implies ts.contains(t) by {
            let w = without_tags(ts, rm);
            let k = choose|k: int| 0 <= k < w.len() && w[k] == t;
            if k < r.len() {
                assert(w[k] == r[k]);
                assert(r.contains(t));
                let m = choose|m: int| 0 <= m < d.len() && d[m] == t;
                assert(ts[m] == t);
            } else {
                assert(ts[ts.len() - 1] == t);
            }
        }
        if !rm.contains(ts.last()) {
            let r2 = r.push(ts.last());
            assert forall|i: int, j: int| 0 <= i < j < r2.len() implies #[trigger] r2[i] != #[trigger] r2[j] by {
                if j == r.len() {
                    assert(r2[i] == r[i]);
                    if r[i] == ts.last() {
                        assert(r.contains(ts.last()));
                        assert(d.contains(ts.last()));
                        let m = choose|m: int| 0 <= m < d.len() && d[m] == ts.last();
                        assert(ts[m] == ts[ts.len() - 1]);
                    }
                } else {
                    assert(r2[i] == r[i] && r2[j] == r[j]);
                }
            }
        }
    }
}

/// An edit changes only what it is asked to: with no new label the label is
/// kept, with no new command the command, with no new id the explicit id; and
/// it brings in no repeated tag when the fact's tags and any replacement list
/// have none.
pub proof fn law_edit_keeps_what_is_not_asked(f: FactV, opts: EditOptions)
    ensures
        ({
            let g = edited_v(f, opts);
            &&& (opts.label is None ==> g.label == f.label)
            &&& (opts.command is None ==> g.command == f.command)
            &&& (opts.new_id is None ==> g.explicit_id == f.explicit_id)
            &&& (no_repeats(f.tags) && (opt_strings(opts.tags) matches Some(ts) ==> no_repeats(ts)) ==> no_repeats(
                g.tags,
            ))
        }),
{
    let f1 = match opt_view(opts.label) {
        Some(l) => FactV { label: inline_label(l), tags: merged_tags(f.tags, inline_tags(l)), ..f },
        None => f,
    };
    let f4tags = match opt_strings(opts.tags) {
        Some(ts) => ts,
        None => f1.tags,
    };
    let f5tags = match opt_strings(opts.add_tags) {
        Some(ts) => merged_tags(f4tags, ts),
        None => f4tags,
    };
    if no_repeats(f.tags) && (opt_strings(opts.tags) matches Some(ts) ==> no_repeats(ts)) {
        match opt_view(opts.label) {
            Some(l) => lemma_merged_no_repeats(f.tags, inline_tags(l)),
            None => {},
        }
        match opt_strings(opts.add_tags) {
            Some(ts) => lemma_merged_no_repeats(f4tags, ts),
            None => {},
        }
        match opt_strings(opts.remove_tags) {
            Some(rm) => lemma_without_no_repeats(f5tags, rm),
            None => {},
        }
    }
}

/// Editing the fact at a location replaces exactly that fact: every other fact
/// of the sheet stays as it was, in the same order.
pub proof fn law_edit_replaces_only_that_fact(sh: SheetV, loc: LocV, f: FactV)
    requires
        valid_location_v(sh, loc),
    ensures
        0 <= sheet_flat_index(sh, loc) < sheet_flat(sh).len(),
        sheet_flat(sheet_with_fact(sh, loc, f)) == sheet_flat(sh).update(sheet_flat_index(sh, loc), f),
        sheet_flat(sh)[sheet_flat_index(sh, loc)] == fact_at_v(sh, loc),
{
    match loc {
        LocV::Preamble(i) => {
            assert(sheet_flat(sheet_with_fact(sh, loc, f)) =~= sheet_flat(sh).update(i as int, f));
        },
        LocV::Section(p, j) => {
            lemma_flat_with_fact(sh.sections, p, j, f);
            lemma_flat_at(sh.sections, p, j);
            assert(sheet_flat(sheet_with_fact(sh, loc, f)) =~= sheet_flat(sh).update(sheet_flat_index(sh, loc), f));
        },
    }
}

} // verus!
