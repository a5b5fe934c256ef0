//! The bookkeeping of pushes: which cells each writer pushed into, and what
//! each target got from each writer.
use crate::language::ast::{entries_view, names_view, values_view, EvaluatedValue, Val};
use crate::language::keyed::{
    assoc_put, assoc_remove, contains_name, entry_keys, insert_sorted, key_position, keys_of,
    lookup_or, sorted_insert,
};
use crate::maps::sequences::add_all_once;
use crate::reactive::model::{concat_values, deliver, deliver_all, pushed_targets, values_for};
use crate::reactive::sheet::{inboxes_view, pushes_view, targets_view};
use vstd::prelude::*;

verus! {

/// The model of names that are there or not.
pub open spec fn optional_names(names: Option<Vec<String>>) -> Option<Seq<Seq<char>>> {
    match names {
        Some(ns) => Some(names_view(ns@)),
        None => None,
    }
}

/// All the values of the entries, entry after entry.
pub fn all_values(entries: &Vec<(String, Vec<EvaluatedValue>)>) -> (r: Vec<EvaluatedValue>)
    ensures
        values_view(r@) == concat_values(pushes_view(entries@), entries.len() as int),
{
    let mut out: Vec<EvaluatedValue> = Vec::new();
    let mut i: usize = 0;
    assert(values_view(out@) =~= Seq::empty());
    while i < entries.len()
        invariant
            i <= entries.len(),
            values_view(out@) == concat_values(pushes_view(entries@), i as int),
        decreases entries.len() - i,
    {
        let ghost start = values_view(out@);
        let values = &entries[i].1;
        let mut j: usize = 0;
        assert(values_view(values@).take(0) =~= Seq::empty());
        assert(start + Seq::<Val>::empty() =~= start);
        while j < values.len()
            invariant
                j <= values.len(),
                values_view(out@) == start + values_view(values@).take(j as int),
            decreases values.len() - j,
        {
            let ghost before = values_view(out@);
            out.push(values[j].duplicate());
            assert(values_view(out@) =~= before.push(values@[j as int]@));
            assert(start + values_view(values@).take(j + 1) =~= (start + values_view(values@).take(
                j as int,
            )).push(values@[j as int]@));
            j = j + 1;
        }
        assert(values_view(values@).take(values.len() as int) =~= values_view(values@));
        i = i + 1;
    }
    out
}

/// The values that the writers pushed into `target`, in the order of the
/// writers' names.
pub fn inbox_of(
    inboxes: &Vec<(String, Vec<(String, Vec<EvaluatedValue>)>)>,
    target: &String,
) -> (r: Vec<EvaluatedValue>)
    ensures
        ({
            let writers = lookup_or(inboxes_view(inboxes@), target@, Seq::empty());
            values_view(r@) == concat_values(writers, writers.len() as int)
        }),
{
    proof {
        assert(keys_of(inboxes_view(inboxes@)) =~= entry_keys(inboxes@));
    }
    let i = key_position(inboxes, target);
    if i < inboxes.len() {
        all_values(&inboxes[i].1)
    } else {
        let out: Vec<EvaluatedValue> = Vec::new();
        assert(values_view(out@) =~= Seq::empty());
        out
    }
}

/// The targets of the pushes, each once, in the order of the first push
/// into each.
pub fn push_targets(pushes: &Vec<(String, EvaluatedValue)>) -> (r: Vec<String>)
    ensures
        names_view(r@) == pushed_targets(entries_view(pushes@), pushes.len() as int),
{
    let mut out: Vec<String> = Vec::new();
    let mut i: usize = 0;
    assert(names_view(out@) =~= Seq::empty());
    while i < pushes.len()
        invariant
            i <= pushes.len(),
            names_view(out@) == pushed_targets(entries_view(pushes@), i as int),
        decreases pushes.len() - i,
    {
        if !contains_name(&out, &pushes[i].0) {
            let ghost before = names_view(out@);
            out.push(pushes[i].0.clone());
            assert(names_view(out@) =~= before.push(pushes@[i as int].0@));
        }
        i = i + 1;
    }
    out
}

/// Puts each of `more` at the end of `base`, unless it is there already.
pub fn add_names_once(base: &mut Vec<String>, more: &Vec<String>)
    ensures
        names_view(final(base)@) == add_all_once(
            names_view(old(base)@),
            names_view(more@),
            more.len() as int,
        ),
{
    let mut i: usize = 0;
    while i < more.len()
        invariant
            i <= more.len(),
            names_view(base@) == add_all_once(names_view(old(base)@), names_view(more@), i as int),
        decreases more.len() - i,
    {
        if !contains_name(base, &more[i]) {
            let ghost before = names_view(base@);
            base.push(more[i].clone());
            assert(names_view(base@) =~= before.push(more@[i as int]@));
        }
        i = i + 1;
    }
}

/// Makes `targets` the cells that `writer` pushed into, and hands out the
/// cells that it had pushed into before.
pub fn replace_targets(
    list: &mut Vec<(String, Vec<String>)>,
    writer: &String,
    targets: Vec<String>,
) -> (before: Vec<String>)
    ensures
        targets_view(final(list)@) == assoc_put(
            targets_view(old(list)@),
            writer@,
            names_view(targets@),
        ),
        names_view(before@) == lookup_or(targets_view(old(list)@), writer@, Seq::empty()),
{
    proof {
        assert(keys_of(targets_view(list@)) =~= entry_keys(list@));
    }
    let i = key_position(list, writer);
    if i < list.len() {
        let (_, before) = list.remove(i);
        list.insert(i, (writer.clone(), targets));
        assert(targets_view(list@) =~= targets_view(old(list)@).update(
            i as int,
            (writer@, names_view(targets@)),
        ));
        before
    } else {
        list.push((writer.clone(), targets));
        assert(targets_view(list@) =~= targets_view(old(list)@).push(
            (writer@, names_view(targets@)),
        ));
        let before: Vec<String> = Vec::new();
        assert(names_view(before@) =~= Seq::empty());
        before
    }
}

/// Puts `values` into `target` in the place of what `writer` pushed there
/// before. With no values, what it pushed before is taken out.
pub fn deliver_to(
    inboxes: &mut Vec<(String, Vec<(String, Vec<EvaluatedValue>)>)>,
    target: &String,
    writer: &String,
    values: Vec<EvaluatedValue>,
)
    ensures
        inboxes_view(final(inboxes)@) == deliver(
            inboxes_view(old(inboxes)@),
            target@,
            writer@,
            values_view(values@),
        ),
{
    proof {
        assert(keys_of(inboxes_view(inboxes@)) =~= entry_keys(inboxes@));
    }
    let i = key_position(inboxes, target);
    let found = i < inboxes.len();
    let mut entry: Vec<(String, Vec<EvaluatedValue>)> = if found {
        inboxes.remove(i).1
    } else {
        Vec::new()
    };
    let ghost before = pushes_view(entry@);
    proof {
        assert(before =~= lookup_or(inboxes_view(old(inboxes)@), target@, Seq::empty()));
        assert(keys_of(before) =~= entry_keys(entry@));
    }
    if values.len() > 0 {
        insert_sorted(&mut entry, writer.clone(), values);
        assert(pushes_view(entry@) =~= sorted_insert(before, writer@, values_view(values@)));
    } else {
        let j = key_position(&entry, writer);
        if j < entry.len() {
            entry.remove(j);
        }
        assert(pushes_view(entry@) =~= assoc_remove(before, writer@));
    }
    if found {
        inboxes.insert(i, (target.clone(), entry));
        assert(inboxes_view(inboxes@) =~= inboxes_view(old(inboxes)@).update(
            i as int,
            (target@, pushes_view(entry@)),
        ));
    } else {
        inboxes.push((target.clone(), entry));
        assert(inboxes_view(inboxes@) =~= inboxes_view(old(inboxes)@).push(
            (target@, pushes_view(entry@)),
        ));
    }
}

/// The values that were pushed into `target`, in order.
pub fn pushed_into(pushes: &Vec<(String, EvaluatedValue)>, target: &String) -> (r: Vec<
    EvaluatedValue,
>)
    ensures
        values_view(r@) == values_for(entries_view(pushes@), target@, pushes.len() as int),
{
    let mut out: Vec<EvaluatedValue> = Vec::new();
    let mut i: usize = 0;
    assert(values_view(out@) =~= Seq::empty());
    while i < pushes.len()
        invariant
            i <= pushes.len(),
            values_view(out@) == values_for(entries_view(pushes@), target@, i as int),
        decreases pushes.len() - i,
    {
        if pushes[i].0 == *target {
            let ghost before = values_view(out@);
            out.push(pushes[i].1.duplicate());
            assert(values_view(out@) =~= before.push(pushes@[i as int].1@));
        }
        i = i + 1;
    }
    out
}

/// Delivers to each of `targets` what `writer` pushed into it.
pub fn deliver_pushes(
    inboxes: &mut Vec<(String, Vec<(String, Vec<EvaluatedValue>)>)>,
    targets: &Vec<String>,
    writer: &String,
    pushes: &Vec<(String, EvaluatedValue)>,
)
    ensures
        inboxes_view(final(inboxes)@) == deliver_all(
            inboxes_view(old(inboxes)@),
            names_view(targets@),
            writer@,
            entries_view(pushes@),
            targets.len() as int,
        ),
{
    let mut i: usize = 0;
    while i < targets.len()
        invariant
            i <= targets.len(),
            inboxes_view(inboxes@) == deliver_all(
                inboxes_view(old(inboxes)@),
                names_view(targets@),
                writer@,
                entries_view(pushes@),
                i as int,
            ),
        decreases targets.len() - i,
    {
        let values = pushed_into(pushes, &targets[i]);
        deliver_to(inboxes, &targets[i], writer, values);
        i = i + 1;
    }
}

} // verus!
