//! What holds of a sheet after every operation, and the proofs that the
//! rules of the engine keep it so.
use crate::language::ast::Val;
use crate::language::keyed::{
    assoc_put, assoc_remove, find_from_found, keys_of, lookup_after_insert, lookup_after_put,
    lookup_after_remove, lookup_or, position_of, position_of_contains, remove_keeps_order,
    sorted_insert, sorted_insert_keeps_order, sorted_keys_distinct, strictly_sorted,
};
use crate::language::parser::parse_spec;
use crate::maps::pairmap::{without_right, without_right_contains, without_right_distinct};
use crate::maps::sequences::{
    add_all_once, add_all_once_contains, add_once, add_once_contains, add_once_distinct,
    push_contains,
};
use crate::reactive::model::{
    add_reads, cell_names, deliver, deliver_all, pushed_targets, values_for, SheetModel,
};
use crate::reactive::rules::circular_dependency;
use vstd::prelude::*;

verus! {

/// The values that `writer` has in the inbox of `target`.
pub open spec fn pushed_from(
    inboxes: Seq<(Seq<char>, Seq<(Seq<char>, Seq<Val>)>)>,
    target: Seq<char>,
    writer: Seq<char>,
) -> Seq<Val> {
    lookup_or(lookup_or(inboxes, target, Seq::empty()), writer, Seq::empty())
}

/// Whether the writers of every inbox are in the order of their names.
pub open spec fn inboxes_sorted(inboxes: Seq<(Seq<char>, Seq<(Seq<char>, Seq<Val>)>)>) -> bool {
    forall|i: int| 0 <= i < inboxes.len() ==> strictly_sorted(keys_of(#[trigger] inboxes[i].1))
}

impl SheetModel {
    /// The cells that the writer pushed into when it was last evaluated.
    pub open spec fn targets_of(self, writer: Seq<char>) -> Seq<Seq<char>> {
        lookup_or(self.writer_to_targets, writer, Seq::empty())
    }

    /// The values that `writer` has in the inbox of `target`.
    pub open spec fn pushed_from(self, target: Seq<char>, writer: Seq<char>) -> Seq<Val> {
        pushed_from(self.targets_from_writer, target, writer)
    }

    /// Whether the two records of pushes agree: a writer has a cell among
    /// its targets exactly when it has values in the inbox of that cell.
    pub open spec fn pushes_consistent(self) -> bool {
        forall|writer: Seq<char>, target: Seq<char>|
            #![trigger self.pushed_from(target, writer)]
            self.targets_of(writer).contains(target) <==> self.pushed_from(target, writer).len() > 0
    }

    /// Whether no two cells have one name.
    pub open spec fn names_distinct(self) -> bool {
        cell_names(self.cells).no_duplicates()
    }

    /// Whether every cell whose text does not parse has an error for a
    /// value.
    pub open spec fn failures_are_errors(self) -> bool {
        forall|i: int|
            0 <= i < self.cells.len() ==> (#[trigger] self.cells[i]).parsed is None
                ==> self.cells[i].value is Err
    }

    /// Whether every cell that reads is a cell of the sheet.
    pub open spec fn readers_exist(self) -> bool {
        forall|edge: (Seq<char>, Seq<char>)|
            #[trigger] self.reads.contains(edge) ==> cell_names(self.cells).contains(edge.1)
    }

    /// The invariant of a sheet.
    pub open spec fn wf(self) -> bool {
        &&& self.names_distinct()
        &&& self.reads.no_duplicates()
        &&& self.readers_exist()
        &&& self.failures_are_errors()
        &&& inboxes_sorted(self.targets_from_writer)
        &&& self.pushes_consistent()
    }
}

/// A cell is among the targets of pushes exactly when values were pushed
/// into it.
pub proof fn values_for_nonempty(pushes: Seq<(Seq<char>, Val)>, target: Seq<char>, n: int)
    requires
        0 <= n <= pushes.len(),
    ensures
        values_for(pushes, target, n).len() > 0 <==> pushed_targets(pushes, n).contains(target),
    decreases n,
{
    if n > 0 {
        values_for_nonempty(pushes, target, n - 1);
        add_once_contains(pushed_targets(pushes, n - 1), pushes[n - 1].0);
    }
}

/// What one delivery does to the inboxes: the writer's values in the
/// target's inbox are the delivered ones, and all else is as before.
pub proof fn deliver_effect(
    inboxes: Seq<(Seq<char>, Seq<(Seq<char>, Seq<Val>)>)>,
    target: Seq<char>,
    writer: Seq<char>,
    values: Seq<Val>,
    t: Seq<char>,
    w: Seq<char>,
)
    requires
        inboxes_sorted(inboxes),
    ensures
        inboxes_sorted(deliver(inboxes, target, writer, values)),
        pushed_from(deliver(inboxes, target, writer, values), t, w) == if t == target && w
            == writer {
            values
        } else {
            pushed_from(inboxes, t, w)
        },
{
    let before = lookup_or(inboxes, target, Seq::empty());
    let i = position_of(keys_of(inboxes), target);
    find_from_found(keys_of(inboxes), target, 0);
    if i < inboxes.len() {
        assert(before == inboxes[i].1);
    }
    assert(strictly_sorted(keys_of(before)));
    let after = if values.len() > 0 {
        sorted_insert(before, writer, values)
    } else {
        assoc_remove(before, writer)
    };
    if values.len() > 0 {
        sorted_insert_keeps_order(before, writer, values);
        lookup_after_insert(before, writer, values, w);
    } else {
        remove_keeps_order(before, writer);
        sorted_keys_distinct(keys_of(before));
        lookup_after_remove(before, writer, w);
        assert(values =~= Seq::empty());
    }
    let result = assoc_put(inboxes, target, after);
    lookup_after_put(inboxes, target, after, t);
    assert forall|k: int| 0 <= k < result.len() implies strictly_sorted(
        keys_of(#[trigger] result[k].1),
    ) by {
        if k < inboxes.len() && k != i {
            assert(result[k] == inboxes[k]);
        }
    }
}

/// What the deliveries of one writer do to the inboxes: in the inbox of
/// each target delivered to, the writer's values are those it pushed there,
/// and all else is as before.
pub proof fn deliver_all_effect(
    inboxes: Seq<(Seq<char>, Seq<(Seq<char>, Seq<Val>)>)>,
    targets: Seq<Seq<char>>,
    writer: Seq<char>,
    pushes: Seq<(Seq<char>, Val)>,
    n: int,
    t: Seq<char>,
    w: Seq<char>,
)
    requires
        inboxes_sorted(inboxes),
        0 <= n <= targets.len(),
    ensures
        inboxes_sorted(deliver_all(inboxes, targets, writer, pushes, n)),
        pushed_from(deliver_all(inboxes, targets, writer, pushes, n), t, w) == if w == writer
            && targets.take(n).contains(t) {
            values_for(pushes, t, pushes.len() as int)
        } else {
            pushed_from(inboxes, t, w)
        },
    decreases n,
{
    if n > 0 {
        deliver_all_effect(inboxes, targets, writer, pushes, n - 1, t, w);
        let before = deliver_all(inboxes, targets, writer, pushes, n - 1);
        let last = targets[n - 1];
        deliver_effect(before, last, writer, values_for(pushes, last, pushes.len() as int), t, w);
        let shorter = targets.take(n - 1);
        assert(targets.take(n) =~= shorter.push(last));
        push_contains(shorter, last);
    } else {
        assert(targets.take(0) =~= Seq::empty());
    }
}

/// Recording reads in read edges of which none is there twice leaves read
/// edges of which none is there twice.
pub proof fn add_reads_distinct(
    reads: Seq<(Seq<char>, Seq<char>)>,
    names: Seq<Seq<char>>,
    reader: Seq<char>,
    n: int,
)
    requires
        reads.no_duplicates(),
    ensures
        add_reads(reads, names, reader, n).no_duplicates(),
    decreases n,
{
    if 0 < n <= names.len() {
        add_reads_distinct(reads, names, reader, n - 1);
        add_once_distinct(add_reads(reads, names, reader, n - 1), (names[n - 1], reader));
    }
}

/// A sheet without cells, read edges and pushes satisfies the invariant.
pub proof fn empty_sheet_wf(s: SheetModel)
    requires
        s.cells.len() == 0,
        s.reads.len() == 0,
        s.writer_to_targets.len() == 0,
        s.targets_from_writer.len() == 0,
    ensures
        s.wf(),
{
    assert forall|writer: Seq<char>, target: Seq<char>|
        #![trigger s.pushed_from(target, writer)]
        s.targets_of(writer).contains(target) <==> s.pushed_from(target, writer).len() > 0 by {
        find_from_found(keys_of(s.writer_to_targets), writer, 0);
        find_from_found(keys_of(s.targets_from_writer), target, 0);
        let none: Seq<(Seq<char>, Seq<Val>)> = Seq::empty();
        find_from_found(keys_of(none), writer, 0);
    }
}

/// Replacing the value of a cell keeps the names of the cells, and keeps
/// the invariant when the value is an error or the text of the cell parses.
pub proof fn with_value_keeps_wf(s: SheetModel, name: Seq<char>, value: Result<Val, Seq<char>>)
    requires
        s.wf(),
        value is Err || (s.cell(name) matches Some(c) && c.parsed is Some),
    ensures
        s.with_value(name, value).wf(),
        cell_names(s.with_value(name, value).cells) == cell_names(s.cells),
{
    let after = s.with_value(name, value);
    assert(cell_names(after.cells) =~= cell_names(s.cells));
    assert forall|writer: Seq<char>, target: Seq<char>|
        #![trigger after.pushed_from(target, writer)]
        after.targets_of(writer).contains(target) <==> after.pushed_from(target, writer).len()
            > 0 by {
        assert(s.targets_of(writer).contains(target) <==> s.pushed_from(target, writer).len() > 0);
    }
}

/// Replacing the text of a cell keeps the names of the cells and the
/// invariant.
pub proof fn with_text_keeps_wf(s: SheetModel, name: Seq<char>, text: Seq<char>)
    requires
        s.wf(),
    ensures
        s.with_text(name, text).wf(),
        cell_names(s.with_text(name, text).cells) == cell_names(s.cells),
{
    let after = s.with_text(name, text);
    assert(cell_names(after.cells) =~= cell_names(s.cells));
    assert forall|writer: Seq<char>, target: Seq<char>|
        #![trigger after.pushed_from(target, writer)]
        after.targets_of(writer).contains(target) <==> after.pushed_from(target, writer).len()
            > 0 by {
        assert(s.targets_of(writer).contains(target) <==> s.pushed_from(target, writer).len() > 0);
    }
}

/// Recomputing a cell keeps the names of the cells and the invariant.
pub proof fn recompute_keeps_wf(s: SheetModel, name: Seq<char>)
    requires
        s.wf(),
    ensures
        s.recompute(name).0.wf(),
        cell_names(s.recompute(name).0.cells) == cell_names(s.cells),
{
    let after = s.recompute(name).0;
    let cleared = SheetModel {
        reads: without_right(s.reads, name, s.reads.len() as int),
        ..s
    };
    assert forall|writer: Seq<char>, target: Seq<char>|
        #![trigger cleared.pushed_from(target, writer)]
        cleared.targets_of(writer).contains(target) <==> cleared.pushed_from(target, writer).len()
            > 0 by {
        assert(s.targets_of(writer).contains(target) <==> s.pushed_from(target, writer).len() > 0);
    }
    without_right_distinct(s.reads, name, s.reads.len() as int);
    without_right_contains(s.reads, name, s.reads.len() as int);
    assert(s.reads.take(s.reads.len() as int) =~= s.reads);
    assert(cleared.wf());
    if cleared.cell(name) matches Some(cell) && cell.parsed is Some {
        let e = cleared.cell(name)->0.parsed->0;
        let (value, fx) = cleared.evaluate(cleared.inbox_of(name), e);
        let valued = cleared.with_value(name, value);
        with_value_keeps_wf(cleared, name, value);
        add_reads_distinct(valued.reads, fx.reads, name, fx.reads.len() as int);
        add_reads_contains(valued.reads, fx.reads, name, fx.reads.len() as int);
        position_of_contains(cell_names(s.cells), name);
        let old_targets = lookup_or(s.writer_to_targets, name, Seq::empty());
        let new_targets = pushed_targets(fx.pushes, fx.pushes.len() as int);
        let touched = add_all_once(old_targets, new_targets, new_targets.len() as int);
        assert(cell_names(after.cells) =~= cell_names(s.cells));
        assert(after.cells == valued.cells);
        add_all_once_contains(old_targets, new_targets, new_targets.len() as int);
        assert(new_targets.take(new_targets.len() as int) =~= new_targets);
        assert(touched.take(touched.len() as int) =~= touched);
        deliver_all_effect(
            s.targets_from_writer,
            touched,
            name,
            fx.pushes,
            touched.len() as int,
            name,
            name,
        );
        assert forall|writer: Seq<char>, target: Seq<char>|
            #![trigger after.pushed_from(target, writer)]
            after.targets_of(writer).contains(target) <==> after.pushed_from(target, writer).len()
                > 0 by {
            lookup_after_put(s.writer_to_targets, name, new_targets, writer);
            deliver_all_effect(
                s.targets_from_writer,
                touched,
                name,
                fx.pushes,
                touched.len() as int,
                target,
                writer,
            );
            values_for_nonempty(fx.pushes, target, fx.pushes.len() as int);
            assert(s.targets_of(writer).contains(target) <==> s.pushed_from(target, writer).len()
                > 0);
        }
    }
}

/// Propagating a change keeps the names of the cells and the invariant.
pub proof fn propagate_keeps_wf(
    s: SheetModel,
    queue: Seq<Seq<char>>,
    visited: Seq<Seq<char>>,
    steps: nat,
)
    requires
        s.wf(),
    ensures
        s.propagate(queue, visited, steps).0.wf(),
        cell_names(s.propagate(queue, visited, steps).0.cells) == cell_names(s.cells),
    decreases steps,
{
    if steps > 0 && queue.len() > 0 {
        let name = queue[0];
        let rest = queue.drop_first();
        if !visited.contains(name) || !s.on_read_cycle(name) {
            let (next, touched) = s.recompute(name);
            recompute_keeps_wf(s, name);
            propagate_keeps_wf(
                next,
                next.enqueue_dependents(rest, name, touched),
                add_once(visited, name),
                (steps - 1) as nat,
            );
        } else {
            let marked = s.with_value(name, Err(circular_dependency()));
            with_value_keeps_wf(s, name, Err(circular_dependency()));
            propagate_keeps_wf(marked, rest, visited, (steps - 1) as nat);
        }
    }
}

/// Updating a cell keeps the invariant, and no cell comes or goes.
pub proof fn update_cell_keeps_wf(s: SheetModel, name: Seq<char>, text: Seq<char>)
    requires
        s.wf(),
    ensures
        s.update_cell(name, text).0.wf(),
        cell_names(s.update_cell(name, text).0.cells) == cell_names(s.cells),
{
    if s.has_cell(name) {
        with_text_keeps_wf(s, name, text);
        propagate_keeps_wf(s.with_text(name, text), seq![name], Seq::empty(), s.max_steps);
    }
}

/// Adding a cell under a name that the sheet accepts keeps the invariant;
/// the new cell comes after the others, which stay.
pub proof fn add_cell_keeps_wf(s: SheetModel, name: Seq<char>, text: Seq<char>)
    requires
        s.wf(),
        s.accepts(name),
    ensures
        s.add_cell(name, text).wf(),
        cell_names(s.add_cell(name, text).cells) == cell_names(s.cells).push(name),
{
    let after = s.add_cell(name, text);
    let names = cell_names(s.cells);
    if parse_spec(text) is Ok {
        let fx = s.evaluate(Seq::empty(), parse_spec(text)->Ok_0).1;
        add_reads_distinct(s.reads, fx.reads, name, fx.reads.len() as int);
        add_reads_contains(s.reads, fx.reads, name, fx.reads.len() as int);
    }
    push_contains(cell_names(s.cells), name);
    assert(cell_names(after.cells) =~= names.push(name));
    position_of_contains(names, name);
    find_from_found(names, name, 0);
    assert(!names.contains(name));
    assert forall|i: int, j: int|
        0 <= i < names.push(name).len() && 0 <= j < names.push(name).len() && i
            != j implies names.push(name)[i] != names.push(name)[j] by {
        if i < names.len() && j < names.len() {
            assert(names[i] != names[j]);
        } else if i < names.len() {
            if names[i] == name {
                assert(names.contains(name));
            }
        } else {
            if names[j] == name {
                assert(names.contains(name));
            }
        }
    }
    assert forall|i: int| 0 <= i < after.cells.len() && (#[trigger] after.cells[i]).parsed
        is None implies after.cells[i].value is Err by {
        if i < s.cells.len() {
            assert(after.cells[i] == s.cells[i]);
        }
    }
    assert forall|writer: Seq<char>, target: Seq<char>|
        #![trigger after.pushed_from(target, writer)]
        after.targets_of(writer).contains(target) <==> after.pushed_from(target, writer).len()
            > 0 by {
        assert(s.targets_of(writer).contains(target) <==> s.pushed_from(target, writer).len() > 0);
    }
}

/// What the read edges hold after a reader has read the first `n` of
/// `names`: the edges from before, and one from each of the names to the
/// reader.
pub proof fn add_reads_contains(
    reads: Seq<(Seq<char>, Seq<char>)>,
    names: Seq<Seq<char>>,
    reader: Seq<char>,
    n: int,
)
    requires
        0 <= n <= names.len(),
    ensures
        forall|p: (Seq<char>, Seq<char>)|
            #[trigger] add_reads(reads, names, reader, n).contains(p) <==> reads.contains(p) || (
            p.1 == reader && names.take(n).contains(p.0)),
    decreases n,
{
    if n > 0 {
        add_reads_contains(reads, names, reader, n - 1);
        let before = add_reads(reads, names, reader, n - 1);
        let shorter = names.take(n - 1);
        assert(names.take(n) =~= shorter.push(names[n - 1]));
        push_contains(shorter, names[n - 1]);
        add_once_contains(before, (names[n - 1], reader));
        assert forall|p: (Seq<char>, Seq<char>)|
            #[trigger] add_reads(reads, names, reader, n).contains(p) <==> reads.contains(p) || (
            p.1 == reader && names.take(n).contains(p.0)) by {
            assert(before.contains(p) <==> reads.contains(p) || (p.1 == reader
                && shorter.contains(p.0)));
        }
    } else {
        assert(names.take(0) =~= Seq::empty());
    }
}

/// After a cell is recomputed, the read edges into it are the reads of its
/// evaluation: a cell without an expression reads nothing. The read edges
/// into the other cells are as before.
pub proof fn recompute_sets_reads(s: SheetModel, name: Seq<char>, read: Seq<char>, reader: Seq<char>)
    ensures
        s.recompute(name).0.reads.contains((read, reader)) <==> if reader == name {
            s.cell(name) matches Some(cell) && cell.parsed matches Some(e) && s.evaluate(
                s.inbox_of(name),
                e,
            ).1.reads.contains(read)
        } else {
            s.reads.contains((read, reader))
        },
{
    let cleared = SheetModel { reads: without_right(s.reads, name, s.reads.len() as int), ..s };
    without_right_contains(s.reads, name, s.reads.len() as int);
    assert(s.reads.take(s.reads.len() as int) =~= s.reads);
    assert(cleared.reads.contains((read, reader)) <==> reader != name && s.reads.contains(
        (read, reader),
    ));
    if cleared.cell(name) matches Some(cell) && cell.parsed is Some {
        let e = cleared.cell(name)->0.parsed->0;
        let (value, fx) = cleared.evaluate(cleared.inbox_of(name), e);
        add_reads_contains(cleared.reads, fx.reads, name, fx.reads.len() as int);
        assert(fx.reads.take(fx.reads.len() as int) =~= fx.reads);
    }
}

/// A recomputed cell has the value that its expression evaluates to, in
/// the sheet as it is when the cell is recomputed and with the inbox that
/// the cell has then.
pub proof fn recompute_sets_value(s: SheetModel, name: Seq<char>)
    requires
        s.has_cell(name),
        s.cells[s.index_of(name)].parsed is Some,
    ensures
        s.recompute(name).0.value_of(name) == Some(
            s.evaluate(s.inbox_of(name), s.cells[s.index_of(name)].parsed->Some_0).0,
        ),
{
    let cleared = SheetModel { reads: without_right(s.reads, name, s.reads.len() as int), ..s };
    if cleared.cell(name) matches Some(cell) && cell.parsed is Some {
        let e = cleared.cell(name)->0.parsed->0;
        let (value, fx) = cleared.evaluate(cleared.inbox_of(name), e);
        let valued = cleared.with_value(name, value);
        let after = s.recompute(name).0;
        let i = s.index_of(name);
        assert(cell_names(valued.cells) =~= cell_names(s.cells));
        assert(after.cells == valued.cells);
        assert(after.index_of(name) == i);
        assert(after.cells[i].value == value);
        assert(after.has_cell(name));
        assert(after.value_of(name) == Some(value));
    }
}

/// A propagation visits no cell twice for the first time: the cells
/// visited come after those visited before, none is there twice, and at
/// most one is added for each step.
pub proof fn propagate_visits(
    s: SheetModel,
    queue: Seq<Seq<char>>,
    visited: Seq<Seq<char>>,
    steps: nat,
)
    requires
        visited.no_duplicates(),
    ensures
        ({
            let all = s.propagate(queue, visited, steps).1;
            &&& all.no_duplicates()
            &&& visited.len() <= all.len() <= visited.len() + steps
            &&& all.take(visited.len() as int) == visited
        }),
    decreases steps,
{
    if steps > 0 && queue.len() > 0 {
        let name = queue[0];
        let rest = queue.drop_first();
        if !visited.contains(name) || !s.on_read_cycle(name) {
            let (next, touched) = s.recompute(name);
            let more = add_once(visited, name);
            add_once_distinct(visited, name);
            propagate_visits(
                next,
                next.enqueue_dependents(rest, name, touched),
                more,
                (steps - 1) as nat,
            );
            let all = s.propagate(queue, visited, steps).1;
            assert(all.take(visited.len() as int) =~= all.take(more.len() as int).take(
                visited.len() as int,
            ));
            assert(more.take(visited.len() as int) =~= visited);
        } else {
            propagate_visits(
                s.with_value(name, Err(circular_dependency())),
                rest,
                visited,
                (steps - 1) as nat,
            );
        }
    } else {
        assert(visited.take(visited.len() as int) =~= visited);
    }
}

/// An update visits at most as many cells as the sheet allows steps, none
/// of them twice for the first time, and the updated cell first.
pub proof fn update_cell_visits(s: SheetModel, name: Seq<char>, text: Seq<char>)
    ensures
        ({
            let visited = s.update_cell(name, text).1;
            &&& visited.no_duplicates()
            &&& visited.len() <= s.max_steps
            &&& s.has_cell(name) && s.max_steps > 0 ==> visited.len() > 0 && visited[0] == name
            &&& !s.has_cell(name) ==> visited.len() == 0
        }),
{
    if s.has_cell(name) {
        let edited = s.with_text(name, text);
        let none: Seq<Seq<char>> = Seq::empty();
        propagate_visits(edited, seq![name], none, s.max_steps);
        if s.max_steps > 0 {
            let (next, touched) = edited.recompute(name);
            let first = add_once(none, name);
            assert(first =~= seq![name]);
            propagate_visits(
                next,
                next.enqueue_dependents(seq![name].drop_first(), name, touched),
                first,
                (s.max_steps - 1) as nat,
            );
            let all = s.update_cell(name, text).1;
            assert(all.take(1)[0] == name);
        }
    }
}

/// A propagation that ends because the queue is empty gives the same with
/// any greater number of steps: the limit on the steps cuts a propagation
/// short and changes nothing else.
pub proof fn settled_propagation_is_final(
    s: SheetModel,
    queue: Seq<Seq<char>>,
    visited: Seq<Seq<char>>,
    steps: nat,
    more: nat,
)
    requires
        s.settles(queue, visited, steps),
        steps <= more,
    ensures
        s.settles(queue, visited, more),
        s.propagate(queue, visited, more) == s.propagate(queue, visited, steps),
    decreases steps,
{
    if queue.len() > 0 {
        let name = queue[0];
        let rest = queue.drop_first();
        if !visited.contains(name) || !s.on_read_cycle(name) {
            let (next, touched) = s.recompute(name);
            settled_propagation_is_final(
                next,
                next.enqueue_dependents(rest, name, touched),
                add_once(visited, name),
                (steps - 1) as nat,
                (more - 1) as nat,
            );
        } else {
            settled_propagation_is_final(
                s.with_value(name, Err(circular_dependency())),
                rest,
                visited,
                (steps - 1) as nat,
                (more - 1) as nat,
            );
        }
    }
}

} // verus!
