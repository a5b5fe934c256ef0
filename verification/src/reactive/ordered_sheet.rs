//! The records in a sheet are in key order: those in the values of the
//! cells, in their expressions and in the inboxes. The rules of the engine
//! keep them so.
use crate::language::ast::{Expr, Val};
use crate::language::keyed::{
    assoc_put, assoc_remove, find_from_found, keys_of, lookup_or, position_of, sorted_insert,
};
use crate::language::ordered::{
    ordered_entries, ordered_expr, ordered_val, ordered_vals, parse_ordered, sorted_insert_entries,
};
use crate::language::ordered_eval::{eval_ordered, ordered_env, ordered_fx};
use crate::language::parser::parse_spec;
use crate::language::semantics::Env;
use crate::maps::pairmap::without_right;
use crate::maps::sequences::{add_all_once, add_once};
use crate::reactive::language::no_effects;
use crate::reactive::model::{
    concat_values, deliver, deliver_all, pushed_targets, values_for, SheetModel,
};
use crate::reactive::rules::circular_dependency;
use vstd::prelude::*;

verus! {

/// Whether the values that every writer has in every inbox are ordered.
pub open spec fn ordered_inboxes(inboxes: Seq<(Seq<char>, Seq<(Seq<char>, Seq<Val>)>)>) -> bool {
    forall|i: int, j: int|
        0 <= i < inboxes.len() && 0 <= j < inboxes[i].1.len() ==> ordered_vals(
            (#[trigger] inboxes[i].1[j]).1,
        )
}

/// Whether the values of every writer are ordered.
pub open spec fn ordered_writers(writers: Seq<(Seq<char>, Seq<Val>)>) -> bool {
    forall|j: int| 0 <= j < writers.len() ==> ordered_vals((#[trigger] writers[j]).1)
}

impl SheetModel {
    /// Whether every record in the sheet is in key order: in the values of
    /// the cells, in their expressions and in the inboxes.
    pub open spec fn records_ordered(self) -> bool {
        &&& forall|i: int|
            0 <= i < self.cells.len() ==> ((#[trigger] self.cells[i]).value matches Ok(v)
                ==> ordered_val(v))
        &&& forall|i: int|
            0 <= i < self.cells.len() ==> ((#[trigger] self.cells[i]).parsed matches Some(e)
                ==> ordered_expr(e))
        &&& ordered_inboxes(self.targets_from_writer)
    }
}

/// The values of ordered writers, one writer after the other, are ordered.
pub proof fn concat_ordered(writers: Seq<(Seq<char>, Seq<Val>)>, n: int)
    requires
        ordered_writers(writers),
    ensures
        ordered_vals(concat_values(writers, n)),
    decreases n,
{
    if 0 < n <= writers.len() {
        concat_ordered(writers, n - 1);
        let before = concat_values(writers, n - 1);
        let last = writers[n - 1].1;
        assert(ordered_vals(last));
        let all = before + last;
        assert forall|k: int| 0 <= k < all.len() implies ordered_val(#[trigger] all[k]) by {
            if k < before.len() {
                assert(ordered_val(before[k]));
            } else {
                assert(ordered_val(last[k - before.len()]));
            }
        }
    }
}

/// The writers of an inbox among ordered inboxes are ordered.
pub proof fn writers_ordered(
    inboxes: Seq<(Seq<char>, Seq<(Seq<char>, Seq<Val>)>)>,
    target: Seq<char>,
)
    requires
        ordered_inboxes(inboxes),
    ensures
        ordered_writers(lookup_or(inboxes, target, Seq::empty())),
{
    let writers = lookup_or(inboxes, target, Seq::empty());
    let i = position_of(keys_of(inboxes), target);
    find_from_found(keys_of(inboxes), target, 0);
    assert forall|j: int| 0 <= j < writers.len() implies ordered_vals((#[trigger] writers[j]).1) by {
        assert(ordered_vals(inboxes[i].1[j].1));
    }
}

/// The values pushed into a target are ordered when all pushed values are.
pub proof fn values_for_ordered(pushes: Seq<(Seq<char>, Val)>, target: Seq<char>, n: int)
    requires
        ordered_entries(pushes),
    ensures
        ordered_vals(values_for(pushes, target, n)),
    decreases n,
{
    if 0 < n <= pushes.len() {
        values_for_ordered(pushes, target, n - 1);
        assert(ordered_val(pushes[n - 1].1));
    }
}

/// A delivery of ordered values into ordered inboxes leaves ordered
/// inboxes.
pub proof fn deliver_ordered(
    inboxes: Seq<(Seq<char>, Seq<(Seq<char>, Seq<Val>)>)>,
    target: Seq<char>,
    writer: Seq<char>,
    values: Seq<Val>,
)
    requires
        ordered_inboxes(inboxes),
        ordered_vals(values),
    ensures
        ordered_inboxes(deliver(inboxes, target, writer, values)),
{
    let before = lookup_or(inboxes, target, Seq::empty());
    writers_ordered(inboxes, target);
    let after = if values.len() > 0 {
        sorted_insert(before, writer, values)
    } else {
        assoc_remove(before, writer)
    };
    assert forall|j: int| 0 <= j < after.len() implies ordered_vals((#[trigger] after[j]).1) by {
        if values.len() > 0 {
            sorted_insert_entries(before, writer, values, j);
        } else {
            let p = position_of(keys_of(before), writer);
            find_from_found(keys_of(before), writer, 0);
            if p < before.len() {
                if j < p {
                    assert(after[j] == before[j]);
                } else {
                    assert(after[j] == before[j + 1]);
                }
            }
        }
    }
    let result = assoc_put(inboxes, target, after);
    let i = position_of(keys_of(inboxes), target);
    find_from_found(keys_of(inboxes), target, 0);
    assert forall|x: int, y: int|
        0 <= x < result.len() && 0 <= y < result[x].1.len() implies ordered_vals(
        (#[trigger] result[x].1[y]).1,
    ) by {
        if x < inboxes.len() && x != i {
            assert(result[x] == inboxes[x]);
            assert(ordered_vals(inboxes[x].1[y].1));
        } else {
            assert(result[x].1 == after);
            assert(ordered_vals(after[y].1));
        }
    }
}

/// Deliveries of ordered values into ordered inboxes leave ordered inboxes.
pub proof fn deliver_all_ordered(
    inboxes: Seq<(Seq<char>, Seq<(Seq<char>, Seq<Val>)>)>,
    targets: Seq<Seq<char>>,
    writer: Seq<char>,
    pushes: Seq<(Seq<char>, Val)>,
    n: int,
)
    requires
        ordered_inboxes(inboxes),
        ordered_entries(pushes),
    ensures
        ordered_inboxes(deliver_all(inboxes, targets, writer, pushes, n)),
    decreases n,
{
    if 0 < n <= targets.len() {
        deliver_all_ordered(inboxes, targets, writer, pushes, n - 1);
        values_for_ordered(pushes, targets[n - 1], pushes.len() as int);
        deliver_ordered(
            deliver_all(inboxes, targets, writer, pushes, n - 1),
            targets[n - 1],
            writer,
            values_for(pushes, targets[n - 1], pushes.len() as int),
        );
    }
}

/// Evaluating an ordered expression in an ordered sheet with an ordered
/// inbox gives an ordered value and pushes ordered values.
pub proof fn evaluate_ordered(s: SheetModel, inbox: Seq<Val>, e: Expr)
    requires
        s.records_ordered(),
        ordered_vals(inbox),
        ordered_expr(e),
    ensures
        s.evaluate(inbox, e).0 matches Ok(v) ==> ordered_val(v),
        ordered_entries(s.evaluate(inbox, e).1.pushes),
{
    let env = Env { cells: s.cells, inbox };
    assert(ordered_env(env));
    let none: Seq<(Seq<char>, Val)> = Seq::empty();
    assert(ordered_entries(none));
    assert(ordered_fx(no_effects()));
    eval_ordered(s.max_depth, env, none, no_effects(), e);
}

/// A sheet without cells and pushes is ordered.
pub proof fn empty_sheet_ordered(s: SheetModel)
    requires
        s.cells.len() == 0,
        s.targets_from_writer.len() == 0,
    ensures
        s.records_ordered(),
{
}

/// Replacing the value of a cell by an error or an ordered value keeps the
/// sheet ordered.
pub proof fn with_value_ordered(s: SheetModel, name: Seq<char>, value: Result<Val, Seq<char>>)
    requires
        s.records_ordered(),
        value matches Ok(v) ==> ordered_val(v),
    ensures
        s.with_value(name, value).records_ordered(),
{
    let after = s.with_value(name, value);
    assert forall|i: int| 0 <= i < after.cells.len() implies ((#[trigger] after.cells[i]).value matches Ok(
        v,
    ) ==> ordered_val(v)) by {
        if !(s.has_cell(name) && i == s.index_of(name)) {
            assert(after.cells[i].value == s.cells[i].value);
        }
    }
    assert forall|i: int| 0 <= i < after.cells.len() implies ((#[trigger] after.cells[i]).parsed matches Some(
        e,
    ) ==> ordered_expr(e)) by {
        assert(after.cells[i].parsed == s.cells[i].parsed);
    }
}

/// Replacing the text of a cell keeps the sheet ordered.
pub proof fn with_text_ordered(s: SheetModel, name: Seq<char>, text: Seq<char>)
    requires
        s.records_ordered(),
    ensures
        s.with_text(name, text).records_ordered(),
{
    let after = s.with_text(name, text);
    parse_ordered(text);
    assert forall|i: int| 0 <= i < after.cells.len() implies ((#[trigger] after.cells[i]).value matches Ok(
        v,
    ) ==> ordered_val(v)) by {
        if !(s.has_cell(name) && i == s.index_of(name)) {
            assert(after.cells[i].value == s.cells[i].value);
        } else {
            assert(s.cells[i].value matches Ok(v) ==> ordered_val(v));
        }
    }
    assert forall|i: int| 0 <= i < after.cells.len() implies ((#[trigger] after.cells[i]).parsed matches Some(
        e,
    ) ==> ordered_expr(e)) by {
        if !(s.has_cell(name) && i == s.index_of(name)) {
            assert(after.cells[i].parsed == s.cells[i].parsed);
        }
    }
}

/// Recomputing a cell keeps the sheet ordered.
pub proof fn recompute_ordered(s: SheetModel, name: Seq<char>)
    requires
        s.records_ordered(),
    ensures
        s.recompute(name).0.records_ordered(),
{
    let cleared = SheetModel { reads: without_right(s.reads, name, s.reads.len() as int), ..s };
    assert(cleared.records_ordered());
    if cleared.cell(name) matches Some(cell) && cell.parsed is Some {
        let e = cleared.cell(name)->0.parsed->0;
        let i = cleared.index_of(name);
        assert(cleared.cells[i].parsed matches Some(x) ==> ordered_expr(x));
        writers_ordered(cleared.targets_from_writer, name);
        let writers = lookup_or(cleared.targets_from_writer, name, Seq::empty());
        concat_ordered(writers, writers.len() as int);
        evaluate_ordered(cleared, cleared.inbox_of(name), e);
        let (value, fx) = cleared.evaluate(cleared.inbox_of(name), e);
        with_value_ordered(cleared, name, value);
        let old_targets = lookup_or(s.writer_to_targets, name, Seq::empty());
        let new_targets = pushed_targets(fx.pushes, fx.pushes.len() as int);
        let touched = add_all_once(old_targets, new_targets, new_targets.len() as int);
        deliver_all_ordered(s.targets_from_writer, touched, name, fx.pushes, touched.len() as int);
    }
}

/// Propagating a change keeps the sheet ordered.
pub proof fn propagate_ordered(
    s: SheetModel,
    queue: Seq<Seq<char>>,
    visited: Seq<Seq<char>>,
    steps: nat,
)
    requires
        s.records_ordered(),
    ensures
        s.propagate(queue, visited, steps).0.records_ordered(),
    decreases steps,
{
    if steps > 0 && queue.len() > 0 {
        let name = queue[0];
        let rest = queue.drop_first();
        if !visited.contains(name) || !s.on_read_cycle(name) {
            let (next, touched) = s.recompute(name);
            recompute_ordered(s, name);
            propagate_ordered(
                next,
                next.enqueue_dependents(rest, name, touched),
                add_once(visited, name),
                (steps - 1) as nat,
            );
        } else {
            let marked = s.with_value(name, Err(circular_dependency()));
            with_value_ordered(s, name, Err(circular_dependency()));
            propagate_ordered(marked, rest, visited, (steps - 1) as nat);
        }
    }
}

/// Updating a cell keeps the sheet ordered.
pub proof fn update_cell_ordered(s: SheetModel, name: Seq<char>, text: Seq<char>)
    requires
        s.records_ordered(),
    ensures
        s.update_cell(name, text).0.records_ordered(),
{
    if s.has_cell(name) {
        with_text_ordered(s, name, text);
        propagate_ordered(s.with_text(name, text), seq![name], Seq::empty(), s.max_steps);
    }
}

/// Adding a cell keeps the sheet ordered.
pub proof fn add_cell_ordered(s: SheetModel, name: Seq<char>, text: Seq<char>)
    requires
        s.records_ordered(),
    ensures
        s.add_cell(name, text).records_ordered(),
{
    let after = s.add_cell(name, text);
    parse_ordered(text);
    if parse_spec(text) is Ok {
        let none: Seq<Val> = Seq::empty();
        assert(ordered_vals(none));
        evaluate_ordered(s, none, parse_spec(text)->Ok_0);
    }
    assert forall|i: int| 0 <= i < after.cells.len() implies ((#[trigger] after.cells[i]).value matches Ok(
        v,
    ) ==> ordered_val(v)) by {
        if i < s.cells.len() {
            assert(after.cells[i] == s.cells[i]);
        }
    }
    assert forall|i: int| 0 <= i < after.cells.len() implies ((#[trigger] after.cells[i]).parsed matches Some(
        e,
    ) ==> ordered_expr(e)) by {
        if i < s.cells.len() {
            assert(after.cells[i] == s.cells[i]);
        }
    }
}

} // verus!
