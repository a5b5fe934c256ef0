//! The sheet: cell storage, the dependency graph and the propagation of
//! changes.
use crate::language::ast::{entries_view, names_view, values_view, AST, EvaluatedValue, Val};
use crate::language::errors::Error;
use crate::language::keyed::{position_of, position_of_contains};
use crate::language::parser::{parse, validate_name};
use crate::language::s_exprs::{value_result, ToSExpr};
use crate::language::treewalk::{InterpreterCtx, Scope};
use crate::maps::fastqueue::{views, FastQueue};
use crate::maps::pairmap::{rights_of, PairMap};
use crate::maps::sequences::add_all_once;
use crate::reactive::cell_id::cell_id_equality;
pub use crate::reactive::cell_id::CellId;
use crate::reactive::cycles::{holds_cell, is_on_cycle};
use crate::reactive::invariants::{add_cell_keeps_wf, empty_sheet_wf, update_cell_keeps_wf};
use crate::reactive::language::ReactiveContext;
use crate::reactive::model::{add_reads, cell_names, enqueue_cells, CellModel, SheetModel};
use crate::reactive::ordered_sheet::{add_cell_ordered, empty_sheet_ordered, update_cell_ordered};
use crate::reactive::pushes::{
    add_names_once, deliver_pushes, inbox_of, optional_names, push_targets, replace_targets,
};
use crate::reactive::rules::circular_dependency;
use vstd::laws_eq::obeys_view_eq;
use vstd::prelude::*;

verus! {

/// How deep an evaluation may nest in a sheet made by `Sheet::new`.
pub const DEFAULT_MAX_DEPTH: usize = 100;

/// How many cells one update may visit in a sheet made by `Sheet::new`.
pub const DEFAULT_MAX_STEPS: usize = 100000;

/// A cell: a named slot with a source text, the expression it parses to and
/// its current value.
pub struct Cell {
    pub name: String,
    pub raw_contents: String,
    pub value: Result<EvaluatedValue, Error>,
    pub parsed: Option<AST>,
}

impl View for Cell {
    type V = CellModel;

    open spec fn view(&self) -> CellModel {
        CellModel {
            name: self.name@,
            text: self.raw_contents@,
            parsed: match self.parsed {
                Some(ast) => Some(ast@),
                None => None,
            },
            value: value_result(self.value),
        }
    }
}

/// The models of a list of cells.
pub open spec fn cells_view(s: Seq<Cell>) -> Seq<CellModel> {
    Seq::new(s.len(), |i: int| s[i]@)
}

/// The model of the targets of each writer.
pub open spec fn targets_view(s: Seq<(String, Vec<String>)>) -> Seq<(Seq<char>, Seq<Seq<char>>)> {
    Seq::new(s.len(), |i: int| (s[i].0@, names_view(s[i].1@)))
}

/// The model of the values pushed under each name.
pub open spec fn pushes_view(s: Seq<(String, Vec<EvaluatedValue>)>) -> Seq<
    (Seq<char>, Seq<Val>),
> {
    Seq::new(s.len(), |i: int| (s[i].0@, values_view(s[i].1@)))
}

/// The model of the writers of each target.
pub open spec fn inboxes_view(s: Seq<(String, Vec<(String, Vec<EvaluatedValue>)>)>) -> Seq<
    (Seq<char>, Seq<(Seq<char>, Seq<Val>)>),
> {
    Seq::new(s.len(), |i: int| (s[i].0@, pushes_view(s[i].1@)))
}

/// A sheet: the cells, who reads whom, and who pushes what into whom.
pub struct Sheet {
    pub(crate) cells: Vec<Cell>,
    pub(crate) read_relations: PairMap<CellId, CellId>,
    pub(crate) writer_to_targets: Vec<(String, Vec<String>)>,
    pub(crate) targets_from_writer: Vec<(String, Vec<(String, Vec<EvaluatedValue>)>)>,
    pub(crate) max_depth: usize,
    pub(crate) max_steps: usize,
}

impl View for Sheet {
    type V = SheetModel;

    closed spec fn view(&self) -> SheetModel {
        SheetModel {
            cells: cells_view(self.cells@),
            reads: self.read_relations@,
            writer_to_targets: targets_view(self.writer_to_targets@),
            targets_from_writer: inboxes_view(self.targets_from_writer@),
            max_depth: self.max_depth as nat,
            max_steps: self.max_steps as nat,
        }
    }
}

/// The model of what a lookup of a cell's value gives.
pub open spec fn value_view(r: Option<&Result<EvaluatedValue, Error>>) -> Option<
    Result<Val, Seq<char>>,
> {
    match r {
        Some(v) => Some(value_result(*v)),
        None => None,
    }
}

/// The model of what a lookup of a text gives.
pub open spec fn text_view(r: Option<&str>) -> Option<Seq<char>> {
    match r {
        Some(s) => Some(s@),
        None => None,
    }
}

impl Sheet {
    /// A new, empty sheet with the default limits.
    pub fn new() -> (sheet: Sheet)
        ensures
            sheet@.cells.len() == 0,
            sheet@.reads.len() == 0,
            sheet@.writer_to_targets.len() == 0,
            sheet@.targets_from_writer.len() == 0,
            sheet@.max_depth == DEFAULT_MAX_DEPTH,
            sheet@.max_steps == DEFAULT_MAX_STEPS,
            sheet@.wf(),
            sheet@.records_ordered(),
    {
        Sheet::with_limits(DEFAULT_MAX_DEPTH, DEFAULT_MAX_STEPS)
    }

    /// A new, empty sheet in which an evaluation nests at most `max_depth`
    /// deep and one update visits at most `max_steps` cells.
    pub fn with_limits(max_depth: usize, max_steps: usize) -> (sheet: Sheet)
        ensures
            sheet@.cells.len() == 0,
            sheet@.reads.len() == 0,
            sheet@.writer_to_targets.len() == 0,
            sheet@.targets_from_writer.len() == 0,
            sheet@.max_depth == max_depth,
            sheet@.max_steps == max_steps,
            sheet@.wf(),
            sheet@.records_ordered(),
    {
        let sheet = Sheet {
            cells: Vec::new(),
            read_relations: PairMap::new(),
            writer_to_targets: Vec::new(),
            targets_from_writer: Vec::new(),
            max_depth,
            max_steps,
        };
        proof {
            empty_sheet_wf(sheet@);
            empty_sheet_ordered(sheet@);
        }
        sheet
    }

    /// Finds the cell with the given name.
    pub(crate) fn cell_position(&self, name: &String) -> (i: usize)
        ensures
            i == self@.index_of(name@),
            i <= self.cells.len(),
            i < self.cells.len() ==> self.cells@[i as int].name@ == name@,
    {
        let ghost names = cell_names(self@.cells);
        let mut i: usize = 0;
        while i < self.cells.len()
            invariant
                i <= self.cells.len(),
                names == cell_names(self@.cells),
                names.len() == self.cells.len(),
                forall|j: int| 0 <= j < names.len() ==> names[j] == self.cells@[j].name@,
                position_of(names, name@) == crate::language::keyed::find_from(
                    names,
                    name@,
                    i as int,
                ),
            decreases self.cells.len() - i,
        {
            if self.cells[i].name == *name {
                return i;
            }
            i = i + 1;
        }
        i
    }

    /// The current value of the cell, or its error; nothing when there is no
    /// such cell.
    pub fn get_cell_value(&self, id: &CellId) -> (r: Option<&Result<EvaluatedValue, Error>>)
        ensures
            value_view(r) == self@.value_of(id@),
    {
        let i = self.cell_position(&id.0);
        if i < self.cells.len() {
            Some(&self.cells[i].value)
        } else {
            None
        }
    }

    /// The source text of the cell; nothing when there is no such cell.
    pub fn get_cell_text(&self, id: &CellId) -> (r: Option<&str>)
        ensures
            text_view(r) == self@.text_of(id@),
    {
        let i = self.cell_position(&id.0);
        if i < self.cells.len() {
            Some(self.cells[i].raw_contents.as_str())
        } else {
            None
        }
    }

    /// The name of the cell; nothing when there is no such cell.
    pub fn get_cell_name(&self, id: &CellId) -> (r: Option<&str>)
        ensures
            text_view(r) == if self@.has_cell(id@) {
                Some(id@)
            } else {
                None
            },
    {
        let i = self.cell_position(&id.0);
        if i < self.cells.len() {
            Some(self.cells[i].name.as_str())
        } else {
            None
        }
    }

    /// The expression of the cell as an s-expression; `No ast` when there is
    /// no such cell or its text does not parse.
    pub fn get_ast_s_expr(&self, id: &CellId) -> (r: String)
        ensures
            r@ == self@.ast_text_of(id@),
    {
        let i = self.cell_position(&id.0);
        if i < self.cells.len() {
            match &self.cells[i].parsed {
                Some(ast) => ast.to_s_expr(),
                None => "No ast".to_owned(),
            }
        } else {
            "No ast".to_owned()
        }
    }

    /// Evaluates an expression against the sheet with the given inbox, and
    /// hands out the value, the cells read and the values pushed.
    fn evaluate_expression(&self, ast: &AST, inbox: &Vec<EvaluatedValue>) -> (r: (
        Result<EvaluatedValue, Error>,
        Vec<CellId>,
        Vec<(String, EvaluatedValue)>,
    ))
        ensures
            ({
                let (value, fx) = self@.evaluate(values_view(inbox@), ast@);
                &&& value_result(r.0) == value
                &&& views(r.1@) == fx.reads
                &&& entries_view(r.2@) == fx.pushes
            }),
    {
        let context = ReactiveContext::new(self, inbox);
        let mut interpreter = InterpreterCtx::new(context);
        let mut scope = Scope::new();
        let value = interpreter.evaluate(&mut scope, ast, self.max_depth);
        let (reads, pushes) = interpreter.into_context().into_effects();
        (value, reads, pushes)
    }

    /// Records that `reader` has read the cells `reads`.
    fn insert_reads(&mut self, reads: &Vec<CellId>, reader: &CellId)
        ensures
            final(self)@ == (SheetModel {
                reads: add_reads(old(self)@.reads, views(reads@), reader@, reads.len() as int),
                ..old(self)@
            }),
    {
        proof {
            cell_id_equality();
        }
        let mut i: usize = 0;
        while i < reads.len()
            invariant
                i <= reads.len(),
                obeys_view_eq::<CellId>(),
                self@ == (SheetModel {
                    reads: add_reads(old(self)@.reads, views(reads@), reader@, i as int),
                    ..old(self)@
                }),
            decreases reads.len() - i,
        {
            self.read_relations.insert(reads[i].clone(), reader.clone());
            i = i + 1;
        }
    }

    /// Adds a cell with the given name and text. The text is parsed and
    /// evaluated against the sheet with an empty inbox, and what it reads
    /// is recorded. Gives the new cell's identifier, or nothing when the
    /// name is not valid or is taken; the sheet is then as it was.
    pub fn add_cell(&mut self, name: String, contents: &str) -> (r: Option<CellId>)
        ensures
            match r {
                Some(id) => old(self)@.accepts(name@) && id@ == name@ && final(self)@ == old(
                    self,
                )@.add_cell(name@, contents@),
                None => !old(self)@.accepts(name@) && final(self)@ == old(self)@,
            },
            old(self)@.wf() ==> final(self)@.wf(),
            old(self)@.records_ordered() ==> final(self)@.records_ordered(),
    {
        proof {
            if old(self)@.wf() && old(self)@.accepts(name@) {
                add_cell_keeps_wf(old(self)@, name@, contents@);
            }
            if old(self)@.records_ordered() {
                add_cell_ordered(old(self)@, name@, contents@);
            }
        }
        if !validate_name(name.as_str()) {
            return None;
        }
        let i = self.cell_position(&name);
        if i < self.cells.len() {
            return None;
        }
        let id = CellId(name.clone());
        let (value, parsed, reads) = match parse(contents) {
            Ok(ast) => {
                let inbox: Vec<EvaluatedValue> = Vec::new();
                assert(values_view(inbox@) =~= Seq::empty());
                let (value, reads, _) = self.evaluate_expression(&ast, &inbox);
                (value, Some(ast), reads)
            },
            Err(e) => (Err(e), None, Vec::new()),
        };
        let cell = Cell { name, raw_contents: contents.to_owned(), value, parsed };
        let ghost before = self.cells@;
        self.cells.push(cell);
        assert(cells_view(self.cells@) =~= cells_view(before).push(cell@));
        self.insert_reads(&reads, &id);
        Some(id)
    }

    /// Replaces the value of the cell at position `i`.
    fn set_value(&mut self, i: usize, value: Result<EvaluatedValue, Error>)
        requires
            i < old(self)@.cells.len(),
        ensures
            final(self)@ == (SheetModel {
                cells: old(self)@.cells.update(
                    i as int,
                    CellModel { value: value_result(value), ..old(self)@.cells[i as int] },
                ),
                ..old(self)@
            }),
    {
        let cell = self.cells.remove(i);
        let edited = Cell {
            name: cell.name,
            raw_contents: cell.raw_contents,
            value,
            parsed: cell.parsed,
        };
        self.cells.insert(i, edited);
        assert(cells_view(self.cells@) =~= cells_view(old(self).cells@).update(i as int, edited@));
    }

    /// Recomputes the cell: drops the read edges into it, evaluates its
    /// expression with its inbox, stores the value, records what it read
    /// and delivers what it pushed. Hands out the cells whose inboxes it
    /// touched; nothing when the cell does not exist or has no expression.
    pub(crate) fn recompute_cell(&mut self, id: &CellId) -> (r: Option<Vec<String>>)
        ensures
            (final(self)@, optional_names(r)) == old(self)@.recompute(id@),
    {
        proof {
            cell_id_equality();
        }
        self.read_relations.delete_with_right(id);
        let i = self.cell_position(&id.0);
        if i >= self.cells.len() {
            return None;
        }
        let inbox = inbox_of(&self.targets_from_writer, &id.0);
        let (value, reads, pushes) = match &self.cells[i].parsed {
            Some(ast) => self.evaluate_expression(ast, &inbox),
            None => {
                return None;
            },
        };
        self.set_value(i, value);
        self.insert_reads(&reads, id);
        let new_targets = push_targets(&pushes);
        let mut touched = replace_targets(&mut self.writer_to_targets, &id.0, push_targets(&pushes));
        add_names_once(&mut touched, &new_targets);
        deliver_pushes(&mut self.targets_from_writer, &touched, &id.0, &pushes);
        Some(touched)
    }

    /// Whether the cell reads itself, directly or through other cells.
    pub(crate) fn has_cyclic_dependency(&self, id: &CellId) -> (r: bool)
        ensures
            r == self@.on_read_cycle(id@),
    {
        is_on_cycle(&self.read_relations, id)
    }

    /// Replaces the text of the cell at position `i` and what it parses to.
    fn set_text(&mut self, i: usize, contents: &str)
        requires
            i < old(self)@.cells.len(),
            i == old(self)@.index_of(old(self)@.cells[i as int].name),
        ensures
            final(self)@ == old(self)@.with_text(old(self)@.cells[i as int].name, contents@),
    {
        let cell = self.cells.remove(i);
        let edited = match parse(contents) {
            Ok(ast) => Cell {
                name: cell.name,
                raw_contents: contents.to_owned(),
                value: cell.value,
                parsed: Some(ast),
            },
            Err(e) => Cell {
                name: cell.name,
                raw_contents: contents.to_owned(),
                value: Err(e),
                parsed: None,
            },
        };
        self.cells.insert(i, edited);
        assert(cells_view(self.cells@) =~= cells_view(old(self).cells@).update(i as int, edited@));
    }

    /// Gives the cell the error of a cell on a read cycle.
    fn mark_circular(&mut self, id: &CellId)
        ensures
            final(self)@ == old(self)@.with_value(id@, Err(circular_dependency())),
    {
        let i = self.cell_position(&id.0);
        if i < self.cells.len() {
            self.set_value(i, Err(Error::with_message("Circular dependency")));
        }
    }

    /// Puts those of `targets` that name a cell at the end of the queue.
    fn enqueue_existing(&self, queue: &mut FastQueue<CellId>, targets: &Vec<String>)
        ensures
            final(queue)@ == enqueue_cells(
                old(queue)@,
                names_view(targets@),
                cell_names(self@.cells),
                targets.len() as int,
            ),
    {
        proof {
            cell_id_equality();
        }
        let mut i: usize = 0;
        while i < targets.len()
            invariant
                i <= targets.len(),
                obeys_view_eq::<CellId>(),
                queue@ == enqueue_cells(
                    old(queue)@,
                    names_view(targets@),
                    cell_names(self@.cells),
                    i as int,
                ),
            decreases targets.len() - i,
        {
            proof {
                position_of_contains(cell_names(self@.cells), targets@[i as int]@);
            }
            if self.cell_position(&targets[i]) < self.cells.len() {
                queue.push(CellId(targets[i].clone()));
            }
            i = i + 1;
        }
    }

    /// Puts the cells that read the cell at the end of the queue.
    fn enqueue_readers(&self, queue: &mut FastQueue<CellId>, id: &CellId)
        ensures
            ({
                let readers = rights_of(self@.reads, id@, self@.reads.len() as int);
                final(queue)@ == add_all_once(old(queue)@, readers, readers.len() as int)
            }),
    {
        proof {
            cell_id_equality();
        }
        let readers = self.read_relations.get_with_left(id);
        let mut i: usize = 0;
        while i < readers.len()
            invariant
                i <= readers.len(),
                obeys_view_eq::<CellId>(),
                views(readers@) == rights_of(self@.reads, id@, self@.reads.len() as int),
                queue@ == add_all_once(old(queue)@, views(readers@), i as int),
            decreases readers.len() - i,
        {
            queue.push(readers[i].clone());
            i = i + 1;
        }
    }

    /// Replaces the text of the cell and recomputes the cell and the cells
    /// that depend on it, breadth first. Hands out the cells that were
    /// visited, in the order of their first visit. Nothing changes when
    /// there is no such cell.
    pub fn update_cell(&mut self, id: &CellId, contents: &str) -> (visited: Vec<CellId>)
        ensures
            (final(self)@, views(visited@)) == old(self)@.update_cell(id@, contents@),
            old(self)@.wf() ==> final(self)@.wf(),
            old(self)@.records_ordered() ==> final(self)@.records_ordered(),
    {
        proof {
            cell_id_equality();
            if old(self)@.wf() {
                update_cell_keeps_wf(old(self)@, id@, contents@);
            }
            if old(self)@.records_ordered() {
                update_cell_ordered(old(self)@, id@, contents@);
            }
        }
        let mut visited: Vec<CellId> = Vec::new();
        assert(views(visited@) =~= Seq::empty());
        let i = self.cell_position(&id.0);
        if i >= self.cells.len() {
            return visited;
        }
        self.set_text(i, contents);
        let mut to_evaluate: FastQueue<CellId> = FastQueue::new();
        to_evaluate.push(id.clone());
        assert(to_evaluate@ =~= seq![id@]);
        let mut steps = self.max_steps;
        while steps > 0 && !to_evaluate.is_empty()
            invariant
                obeys_view_eq::<CellId>(),
                old(self)@.update_cell(id@, contents@) == self@.propagate(
                    to_evaluate@,
                    views(visited@),
                    steps as nat,
                ),
            decreases steps,
        {
            let next = match to_evaluate.pop() {
                Some(next) => next,
                None => {
                    return visited;
                },
            };
            steps = steps - 1;
            let first = !holds_cell(&visited, &next);
            if first || !self.has_cyclic_dependency(&next) {
                if first {
                    let ghost before = views(visited@);
                    visited.push(next.clone());
                    assert(views(visited@) =~= before.push(next@));
                }
                let touched = self.recompute_cell(&next);
                match touched {
                    Some(targets) => {
                        self.enqueue_existing(&mut to_evaluate, &targets);
                    },
                    None => {},
                }
                self.enqueue_readers(&mut to_evaluate, &next);
            } else {
                self.mark_circular(&next);
            }
        }
        visited
    }
}

} // verus!
