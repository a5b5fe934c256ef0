//! The mathematical model of a sheet, which the contracts of the engine and
//! of the interpreter are stated over.
use crate::language::ast::{Expr, Val};
use crate::language::keyed::{assoc_put, assoc_remove, lookup_or, position_of, sorted_insert};
use crate::language::s_exprs::expr_text;
use crate::maps::sequences::add_once;
use vstd::prelude::*;

verus! {

/// The model of a cell: its name, its source text, the expression that the
/// text parses to, if it parses, and its value or error.
pub struct CellModel {
    pub name: Seq<char>,
    pub text: Seq<char>,
    pub parsed: Option<Expr>,
    pub value: Result<Val, Seq<char>>,
}

/// The model of a sheet.
pub struct SheetModel {
    /// The cells, in the order in which they were added.
    pub cells: Seq<CellModel>,
    /// The read edges, each as the cell that is read and the cell that reads
    /// it.
    pub reads: Seq<(Seq<char>, Seq<char>)>,
    /// For each writer, the cells that it pushed into when it was last
    /// evaluated.
    pub writer_to_targets: Seq<(Seq<char>, Seq<Seq<char>>)>,
    /// For each target, the values that each writer pushed into it when the
    /// writer was last evaluated, in the order of the writers' names.
    pub targets_from_writer: Seq<(Seq<char>, Seq<(Seq<char>, Seq<Val>)>)>,
    /// How deep an evaluation may nest.
    pub max_depth: nat,
    /// How many cells one update may visit.
    pub max_steps: nat,
}

/// The names of the cells, in order.
pub open spec fn cell_names(cells: Seq<CellModel>) -> Seq<Seq<char>> {
    Seq::new(cells.len(), |i: int| cells[i].name)
}

/// The cells as entries from name to value, in order.
pub open spec fn cell_values(cells: Seq<CellModel>) -> Seq<(Seq<char>, Result<Val, Seq<char>>)> {
    Seq::new(cells.len(), |i: int| (cells[i].name, cells[i].value))
}

/// The value of the first cell with the given name.
pub open spec fn cell_value(cells: Seq<CellModel>, name: Seq<char>) -> Option<
    Result<Val, Seq<char>>,
> {
    let i = position_of(cell_names(cells), name);
    if 0 <= i < cells.len() {
        Some(cells[i].value)
    } else {
        None
    }
}

impl SheetModel {
    /// The position of the cell with the given name among the cells; their
    /// number when there is none.
    pub open spec fn index_of(self, name: Seq<char>) -> int {
        position_of(cell_names(self.cells), name)
    }

    /// Whether the sheet has a cell with the given name.
    pub open spec fn has_cell(self, name: Seq<char>) -> bool {
        0 <= self.index_of(name) < self.cells.len()
    }

    /// The cell with the given name.
    pub open spec fn cell(self, name: Seq<char>) -> Option<CellModel> {
        if self.has_cell(name) {
            Some(self.cells[self.index_of(name)])
        } else {
            None
        }
    }

    /// The value of the cell with the given name.
    pub open spec fn value_of(self, name: Seq<char>) -> Option<Result<Val, Seq<char>>> {
        match self.cell(name) {
            Some(c) => Some(c.value),
            None => None,
        }
    }

    /// The source text of the cell with the given name.
    pub open spec fn text_of(self, name: Seq<char>) -> Option<Seq<char>> {
        match self.cell(name) {
            Some(c) => Some(c.text),
            None => None,
        }
    }

    /// The s-expression of the expression of the cell with the given name;
    /// `No ast` when there is no such cell or its text does not parse.
    pub open spec fn ast_text_of(self, name: Seq<char>) -> Seq<char> {
        match self.cell(name) {
            Some(c) => match c.parsed {
                Some(e) => expr_text(e),
                None => "No ast"@,
            },
            None => "No ast"@,
        }
    }
}

/// All the values in the entries, entry after entry.
pub open spec fn concat_values(entries: Seq<(Seq<char>, Seq<Val>)>, n: int) -> Seq<Val>
    decreases n,
{
    if n <= 0 || n > entries.len() {
        Seq::empty()
    } else {
        concat_values(entries, n - 1) + entries[n - 1].1
    }
}

/// The read edges after `reader` has read the first `n` of `names`.
pub open spec fn add_reads(
    reads: Seq<(Seq<char>, Seq<char>)>,
    names: Seq<Seq<char>>,
    reader: Seq<char>,
    n: int,
) -> Seq<(Seq<char>, Seq<char>)>
    decreases n,
{
    if n <= 0 || n > names.len() {
        reads
    } else {
        add_once(add_reads(reads, names, reader, n - 1), (names[n - 1], reader))
    }
}

/// The values among the first `n` pushes that went into `target`, in order.
pub open spec fn values_for(pushes: Seq<(Seq<char>, Val)>, target: Seq<char>, n: int) -> Seq<Val>
    decreases n,
{
    if n <= 0 || n > pushes.len() {
        Seq::empty()
    } else if pushes[n - 1].0 == target {
        values_for(pushes, target, n - 1).push(pushes[n - 1].1)
    } else {
        values_for(pushes, target, n - 1)
    }
}

/// The targets of the first `n` pushes, each once, in the order of the
/// first push into each.
pub open spec fn pushed_targets(pushes: Seq<(Seq<char>, Val)>, n: int) -> Seq<Seq<char>>
    decreases n,
{
    if n <= 0 || n > pushes.len() {
        Seq::empty()
    } else {
        add_once(pushed_targets(pushes, n - 1), pushes[n - 1].0)
    }
}

/// The inboxes after `writer` has put `values` into `target` in the place
/// of what it pushed there before. With no values, what it pushed before
/// is taken out.
pub open spec fn deliver(
    inboxes: Seq<(Seq<char>, Seq<(Seq<char>, Seq<Val>)>)>,
    target: Seq<char>,
    writer: Seq<char>,
    values: Seq<Val>,
) -> Seq<(Seq<char>, Seq<(Seq<char>, Seq<Val>)>)> {
    let before = lookup_or(inboxes, target, Seq::empty());
    let after = if values.len() > 0 {
        sorted_insert(before, writer, values)
    } else {
        assoc_remove(before, writer)
    };
    assoc_put(inboxes, target, after)
}

/// The inboxes after `writer` has delivered to the first `n` of `targets`
/// what it pushed into each.
pub open spec fn deliver_all(
    inboxes: Seq<(Seq<char>, Seq<(Seq<char>, Seq<Val>)>)>,
    targets: Seq<Seq<char>>,
    writer: Seq<char>,
    pushes: Seq<(Seq<char>, Val)>,
    n: int,
) -> Seq<(Seq<char>, Seq<(Seq<char>, Seq<Val>)>)>
    decreases n,
{
    if n <= 0 || n > targets.len() {
        inboxes
    } else {
        deliver(
            deliver_all(inboxes, targets, writer, pushes, n - 1),
            targets[n - 1],
            writer,
            values_for(pushes, targets[n - 1], pushes.len() as int),
        )
    }
}

/// The queue with those of the first `n` of `names` that name a cell put at
/// its end, each unless it is waiting already.
pub open spec fn enqueue_cells(
    queue: Seq<Seq<char>>,
    names: Seq<Seq<char>>,
    cells: Seq<Seq<char>>,
    n: int,
) -> Seq<Seq<char>>
    decreases n,
{
    if n <= 0 || n > names.len() {
        queue
    } else if cells.contains(names[n - 1]) {
        add_once(enqueue_cells(queue, names, cells, n - 1), names[n - 1])
    } else {
        enqueue_cells(queue, names, cells, n - 1)
    }
}

} // verus!
