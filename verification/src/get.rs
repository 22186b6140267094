//! The `get` command: look up a single fact by ID and show its details.
use vstd::prelude::*;
use crate::id::{assign_spec, assign, first_index, ids_assigned, position_of};
use crate::locate::{labels_view, copy_opt_string};
use crate::model::{
    all_sheet_facts, opt_view, sheet_facts_view, sheets_facts, sheets_view, strings_view, PathFact, FactSheet, SheetV,
};
use crate::remove::no_fact_error;
use crate::text::{chars_of, chars_of_strings, concat2, concat3, join, join_with, string_of};

verus! {

/// The labels and explicit ids of facts, as ids are assigned from them.
pub open spec fn path_fact_labels(fs: Seq<(int, PathFact)>) -> Seq<(Seq<char>, Option<Seq<char>>)> {
    fs.map_values(|e: (int, PathFact)| (e.1.1.label, e.1.1.explicit_id))
}

/// The lines shown for a fact: label, section path, file, then id, command and
/// tags where it has them.
pub open spec fn detail_lines(ss: Seq<SheetV>, e: (int, PathFact)) -> Seq<Seq<char>> {
    let f = e.1.1;
    let path = e.1.0;
    seq!["label: "@ + f.label] + (if path.len() > 0 {
        seq!["section: "@ + join(path, seq!['/'])]
    } else {
        seq![]
    }) + seq!["file: "@ + ss[e.0].filename] + (match f.explicit_id {
        Some(i) => seq!["id: "@ + i],
        None => seq![],
    }) + (match f.command {
        Some(c) => seq!["command: "@ + c],
        None => seq![],
    }) + (if f.tags.len() > 0 {
        seq!["tags: ["@ + join(f.tags, seq![',', ' ']) + "]"@]
    } else {
        seq![]
    })
}

fn push_line(out: &mut Vec<String>, v: Vec<char>)
    ensures
        strings_view(final(out)@) == strings_view(old(out)@).push(v@),
{
    out.push(string_of(v.as_slice()));
    assert(strings_view(out@) =~= strings_view(old(out)@).push(v@));
}

/// Look up the fact whose ID is `target_id`, computing IDs over all facts of all
/// sheets, and give the lines that describe it.
pub fn run(target_id: &str, sheets: &Vec<FactSheet>) -> (r: Result<Vec<String>, String>)
    ensures
        match first_index(
                assign_spec(path_fact_labels(sheets_facts(sheets_view(sheets@)))),
                target_id@,
            ) {
                None => r matches Err(e) && e@ == no_fact_error(target_id@),
                Some(p) => r matches Ok(lines) && strings_view(lines@) == detail_lines(
                    sheets_view(sheets@),
                    sheets_facts(sheets_view(sheets@))[p as int],
                ),
            },
{
    let flat = all_sheet_facts(sheets);
    let ghost fs = sheet_facts_view(flat@);
    let mut labels: Vec<(String, Option<String>)> = Vec::new();
    let mut i: usize = 0;
    while i < flat.len()
        invariant
            i <= flat@.len(),
            fs == sheet_facts_view(flat@),
            labels_view(labels@) =~= path_fact_labels(fs.take(i as int)),
        decreases flat.len() - i,
    {
        let ghost l0 = labels_view(labels@);
        labels.push((flat[i].2.label.clone(), copy_opt_string(&flat[i].2.explicit_id)));
        proof {
            assert(labels_view(labels@) =~= l0.push((fs[i as int].1.1.label, fs[i as int].1.1.explicit_id)));
            assert(path_fact_labels(fs.take(i + 1)) =~= path_fact_labels(fs.take(i as int)).push(
                (fs[i as int].1.1.label, fs[i as int].1.1.explicit_id),
            ));
        }
        i += 1;
    }
    assert(fs.take(i as int) =~= fs);
    let ids = assign(&labels);
    let ghost iv = strings_view(ids@);
    assert(ids_assigned(path_fact_labels(sheets_facts(sheets_view(sheets@))), iv));
    let p = match position_of(&ids, target_id) {
        None => {
            return Err(string_of(concat3("no fact found with ID '", chars_of(target_id).as_slice(), "'").as_slice()));
        },
        Some(p) => p,
    };
    let fact = flat[p].2;
    let path = chars_of_strings(flat[p].1.as_slice());
    let ghost e = fs[p as int];
    let mut out: Vec<String> = Vec::new();
    push_line(&mut out, concat2(chars_of("label: ").as_slice(), chars_of(fact.label.as_str()).as_slice()));
    if path.len() > 0 {
        let slash = vec!['/'];
        assert(slash@ =~= seq!['/']);
        push_line(&mut out, concat2(chars_of("section: ").as_slice(), join_with(&path, slash.as_slice()).as_slice()));
    }
    proof {
        assert(sheets_view(sheets@)[e.0] == sheets@[flat@[p as int].0 as int]@);
    }
    push_line(&mut out, concat2(chars_of("file: ").as_slice(), chars_of(sheets[flat[p].0].filename.as_str()).as_slice()));
    match &fact.explicit_id {
        Some(i) => push_line(&mut out, concat2(chars_of("id: ").as_slice(), chars_of(i.as_str()).as_slice())),
        None => {},
    }
    match &fact.command {
        Some(c) => push_line(&mut out, concat2(chars_of("command: ").as_slice(), chars_of(c.as_str()).as_slice())),
        None => {},
    }
    if fact.tags.len() > 0 {
        let sep = vec![',', ' '];
        assert(sep@ =~= seq![',', ' ']);
        let list = join_with(&chars_of_strings(fact.tags.as_slice()), sep.as_slice());
        push_line(&mut out, concat3("tags: [", list.as_slice(), "]"));
    }
    assert(strings_view(out@) =~= detail_lines(sheets_view(sheets@), e));
    Ok(out)
}

/// The IDs of all facts of the sheets, in order, as every command computes them.
pub fn sheet_ids(sheets: &Vec<FactSheet>) -> (ids: Vec<String>)
    ensures
        strings_view(ids@) == assign_spec(path_fact_labels(sheets_facts(sheets_view(sheets@)))),
        ids@.len() == sheets_facts(sheets_view(sheets@)).len(),
{
    let flat = all_sheet_facts(sheets);
    let ghost fs = sheet_facts_view(flat@);
    let mut labels: Vec<(String, Option<String>)> = Vec::new();
    let mut i: usize = 0;
    while i < flat.len()
        invariant
            i <= flat@.len(),
            fs == sheet_facts_view(flat@),
            labels_view(labels@) =~= path_fact_labels(fs.take(i as int)),
        decreases flat.len() - i,
    {
        let ghost l0 = labels_view(labels@);
        labels.push((flat[i].2.label.clone(), copy_opt_string(&flat[i].2.explicit_id)));
        proof {
            assert(labels_view(labels@) =~= l0.push((fs[i as int].1.1.label, fs[i as int].1.1.explicit_id)));
            assert(path_fact_labels(fs.take(i + 1)) =~= path_fact_labels(fs.take(i as int)).push(
                (fs[i as int].1.1.label, fs[i as int].1.1.explicit_id),
            ));
        }
        i += 1;
    }
    assert(fs.take(i as int) =~= fs);
    let ids = assign(&labels);
    proof {
        assert(ids_assigned(path_fact_labels(sheets_facts(sheets_view(sheets@))), strings_view(ids@)));
    }
    ids
}

} // verus!
