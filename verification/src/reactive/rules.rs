//! The rules of the engine, as functions on the model of a sheet: what
//! adding a cell, recomputing a cell and updating a cell do.
use crate::language::ast::{Expr, Val};
use crate::language::keyed::{assoc_put, lookup_or};
use crate::language::parser::{parse_spec, valid_name};
use crate::language::semantics::{eval, Env};
use crate::maps::pairmap::{rights_of, without_right};
use crate::maps::sequences::{add_all_once, add_once};
use crate::reactive::language::{no_effects, Effects};
use crate::reactive::model::{
    add_reads, cell_names, concat_values, deliver_all, enqueue_cells, pushed_targets, CellModel,
    SheetModel,
};
use vstd::prelude::*;

verus! {

/// The message of the error of a cell on a read cycle.
pub open spec fn circular_dependency() -> Seq<char> {
    "Circular dependency"@
}

/// Whether `chain` is a chain of reads: each of its cells reads the next.
pub open spec fn is_read_chain(reads: Seq<(Seq<char>, Seq<char>)>, chain: Seq<Seq<char>>) -> bool {
    &&& chain.len() >= 1
    &&& forall|i: int|
        #![trigger chain[i]]
        0 <= i < chain.len() - 1 ==> reads.contains((chain[i + 1], chain[i]))
}

/// Whether `from` reads `to`, or reads a cell that reads `to`, and so on.
pub open spec fn reaches(reads: Seq<(Seq<char>, Seq<char>)>, from: Seq<char>, to: Seq<char>) -> bool {
    exists|chain: Seq<Seq<char>>|
        is_read_chain(reads, chain) && chain.len() >= 2 && chain[0] == from && #[trigger] chain.last()
            == to
}

impl SheetModel {
    /// The values that were pushed into the cell: those of each writer, in
    /// the order of the writers' names.
    pub open spec fn inbox_of(self, name: Seq<char>) -> Seq<Val> {
        let writers = lookup_or(self.targets_from_writer, name, Seq::empty());
        concat_values(writers, writers.len() as int)
    }

    /// The sheet with the value of the cell replaced.
    pub open spec fn with_value(self, name: Seq<char>, value: Result<Val, Seq<char>>) -> SheetModel {
        if self.has_cell(name) {
            let i = self.index_of(name);
            SheetModel { cells: self.cells.update(i, CellModel { value, ..self.cells[i] }), ..self }
        } else {
            self
        }
    }

    /// The sheet with the text of the cell replaced, and with it what the
    /// text parses to. A text that does not parse leaves the cell with the
    /// parse error for a value; one that parses leaves the value as it is.
    pub open spec fn with_text(self, name: Seq<char>, text: Seq<char>) -> SheetModel {
        if self.has_cell(name) {
            let i = self.index_of(name);
            let cell = self.cells[i];
            let edited = match parse_spec(text) {
                Ok(e) => CellModel { text, parsed: Some(e), ..cell },
                Err(m) => CellModel { text, parsed: None, value: Err(m), ..cell },
            };
            SheetModel { cells: self.cells.update(i, edited), ..self }
        } else {
            self
        }
    }

    /// What evaluating the expression of a cell with the given inbox gives,
    /// and what it reads and pushes.
    pub open spec fn evaluate(self, inbox: Seq<Val>, e: Expr) -> (Result<Val, Seq<char>>, Effects) {
        eval(self.max_depth, Env { cells: self.cells, inbox }, Seq::empty(), no_effects(), e)
    }

    /// Whether the cell reads itself, directly or through other cells.
    pub open spec fn on_read_cycle(self, name: Seq<char>) -> bool {
        reaches(self.reads, name, name)
    }

    /// Whether a cell with this name can be added: the name is valid and
    /// not taken.
    pub open spec fn accepts(self, name: Seq<char>) -> bool {
        valid_name(name) && !self.has_cell(name)
    }

    /// The sheet after a cell with the given name and text is added. The
    /// text is evaluated against the sheet as it was, with an empty inbox;
    /// what it reads becomes read edges, and what it pushes is dropped.
    pub open spec fn add_cell(self, name: Seq<char>, text: Seq<char>) -> SheetModel {
        match parse_spec(text) {
            Ok(e) => {
                let (value, fx) = self.evaluate(Seq::empty(), e);
                SheetModel {
                    cells: self.cells.push(CellModel { name, text, parsed: Some(e), value }),
                    reads: add_reads(self.reads, fx.reads, name, fx.reads.len() as int),
                    ..self
                }
            },
            Err(m) => SheetModel {
                cells: self.cells.push(CellModel { name, text, parsed: None, value: Err(m) }),
                ..self
            },
        }
    }

    /// The sheet after the cell is recomputed, and the cells whose inboxes
    /// the recomputation touched. The read edges into the cell are dropped
    /// first. A cell that does not exist or whose text does not parse is
    /// not evaluated, and its pushes stay as they are.
    pub open spec fn recompute(self, name: Seq<char>) -> (SheetModel, Option<Seq<Seq<char>>>) {
        let cleared = SheetModel {
            reads: without_right(self.reads, name, self.reads.len() as int),
            ..self
        };
        match cleared.cell(name) {
            Some(cell) => match cell.parsed {
                Some(e) => {
                    let (value, fx) = cleared.evaluate(cleared.inbox_of(name), e);
                    let valued = cleared.with_value(name, value);
                    let old_targets = lookup_or(self.writer_to_targets, name, Seq::empty());
                    let new_targets = pushed_targets(fx.pushes, fx.pushes.len() as int);
                    let touched = add_all_once(
                        old_targets,
                        new_targets,
                        new_targets.len() as int,
                    );
                    (
                        SheetModel {
                            reads: add_reads(valued.reads, fx.reads, name, fx.reads.len() as int),
                            writer_to_targets: assoc_put(
                                self.writer_to_targets,
                                name,
                                new_targets,
                            ),
                            targets_from_writer: deliver_all(
                                self.targets_from_writer,
                                touched,
                                name,
                                fx.pushes,
                                touched.len() as int,
                            ),
                            ..valued
                        },
                        Some(touched),
                    )
                },
                None => (cleared, None),
            },
            None => (cleared, None),
        }
    }

    /// The queue after the cells that depend on a recomputed cell are put
    /// at its end: first the touched cells that exist, then the cells that
    /// read the cell.
    pub open spec fn enqueue_dependents(
        self,
        queue: Seq<Seq<char>>,
        name: Seq<char>,
        touched: Option<Seq<Seq<char>>>,
    ) -> Seq<Seq<char>> {
        let pushed = match touched {
            Some(targets) => enqueue_cells(
                queue,
                targets,
                cell_names(self.cells),
                targets.len() as int,
            ),
            None => queue,
        };
        let readers = rights_of(self.reads, name, self.reads.len() as int);
        add_all_once(pushed, readers, readers.len() as int)
    }

    /// The sheet after the cells in the queue and their dependents are
    /// recomputed, and the cells visited, in the order of their first
    /// visit. A cell that comes up again while it is on a read cycle gets
    /// the error `Circular dependency` and its dependents are not enqueued.
    /// At most `steps` cells are taken from the queue.
    pub open spec fn propagate(
        self,
        queue: Seq<Seq<char>>,
        visited: Seq<Seq<char>>,
        steps: nat,
    ) -> (SheetModel, Seq<Seq<char>>)
        decreases steps,
    {
        if steps == 0 || queue.len() == 0 {
            (self, visited)
        } else {
            let name = queue[0];
            let rest = queue.drop_first();
            if !visited.contains(name) || !self.on_read_cycle(name) {
                let (next, touched) = self.recompute(name);
                next.propagate(
                    next.enqueue_dependents(rest, name, touched),
                    add_once(visited, name),
                    (steps - 1) as nat,
                )
            } else {
                self.with_value(name, Err(circular_dependency())).propagate(
                    rest,
                    visited,
                    (steps - 1) as nat,
                )
            }
        }
    }

    /// Whether a propagation ends because the queue is empty, and not
    /// because the steps are used up.
    pub open spec fn settles(self, queue: Seq<Seq<char>>, visited: Seq<Seq<char>>, steps: nat) -> bool
        decreases steps,
    {
        if queue.len() == 0 {
            true
        } else if steps == 0 {
            false
        } else {
            let name = queue[0];
            let rest = queue.drop_first();
            if !visited.contains(name) || !self.on_read_cycle(name) {
                let (next, touched) = self.recompute(name);
                next.settles(
                    next.enqueue_dependents(rest, name, touched),
                    add_once(visited, name),
                    (steps - 1) as nat,
                )
            } else {
                self.with_value(name, Err(circular_dependency())).settles(
                    rest,
                    visited,
                    (steps - 1) as nat,
                )
            }
        }
    }

    /// The sheet after the text of the cell is replaced and the change is
    /// propagated, and the cells that were visited. Nothing changes when
    /// there is no such cell.
    pub open spec fn update_cell(self, name: Seq<char>, text: Seq<char>) -> (
        SheetModel,
        Seq<Seq<char>>,
    ) {
        if self.has_cell(name) {
            self.with_text(name, text).propagate(seq![name], Seq::empty(), self.max_steps)
        } else {
            (self, Seq::empty())
        }
    }
}

} // verus!
