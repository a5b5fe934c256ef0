//! What an evaluation sees of the sheet and what it leaves behind: the
//! cells it read and the values it pushed.
use crate::language::ast::{entries_view, values_view, EvaluatedValue, Val};
use crate::language::errors::Error;
use crate::maps::fastqueue::{same, views};
use crate::reactive::cell_id::{cell_id_equality, CellId};
use crate::reactive::model::SheetModel;
use crate::reactive::sheet::{value_view, Sheet};
use vstd::prelude::*;

verus! {

/// The model of what an evaluation leaves behind.
pub struct Effects {
    /// The names of the cells that were read, each once, in the order of the
    /// first read.
    pub reads: Seq<Seq<char>>,
    /// The pushes, each as the target and the value, in the order in which
    /// they were made.
    pub pushes: Seq<(Seq<char>, Val)>,
}

/// The effects after a read of the cell `name`.
pub open spec fn record_read(fx: Effects, name: Seq<char>) -> Effects {
    if fx.reads.contains(name) {
        fx
    } else {
        Effects { reads: fx.reads.push(name), pushes: fx.pushes }
    }
}

/// The effects after a push of `value` into the cell `target`.
pub open spec fn record_push(fx: Effects, target: Seq<char>, value: Val) -> Effects {
    Effects { reads: fx.reads, pushes: fx.pushes.push((target, value)) }
}

/// The effects of an evaluation that has not begun.
pub open spec fn no_effects() -> Effects {
    Effects { reads: Seq::empty(), pushes: Seq::empty() }
}

/// The context of one evaluation of a cell: the sheet, which it only reads,
/// the values that were pushed into the cell, and the reads and pushes that
/// the evaluation has made so far.
pub struct ReactiveContext<'a> {
    pub(crate) ctx: &'a Sheet,
    pub(crate) pushed_values: &'a Vec<EvaluatedValue>,
    pub(crate) reads: Vec<CellId>,
    pub(crate) pushes: Vec<(String, EvaluatedValue)>,
}

impl<'a> ReactiveContext<'a> {
    /// The sheet that the evaluation reads.
    pub closed spec fn sheet(&self) -> SheetModel {
        self.ctx@
    }

    /// The values that were pushed into the cell under evaluation.
    pub closed spec fn inbox(&self) -> Seq<Val> {
        values_view(self.pushed_values@)
    }

    /// The reads and pushes made so far.
    pub closed spec fn effects(&self) -> Effects {
        Effects { reads: views(self.reads@), pushes: entries_view(self.pushes@) }
    }

    /// The context of an evaluation that has not begun.
    pub fn new(ctx: &'a Sheet, pushed_values: &'a Vec<EvaluatedValue>) -> (r: ReactiveContext<'a>)
        ensures
            r.sheet() == ctx@,
            r.inbox() == values_view(pushed_values@),
            r.effects() == no_effects(),
    {
        let r = ReactiveContext { ctx, pushed_values, reads: Vec::new(), pushes: Vec::new() };
        assert(r.effects().reads =~= Seq::empty());
        assert(r.effects().pushes =~= Seq::empty());
        r
    }

    /// Records that the cell `name` was read.
    pub fn add_read_by_name(&mut self, name: &str)
        ensures
            final(self).sheet() == old(self).sheet(),
            final(self).inbox() == old(self).inbox(),
            final(self).effects() == record_read(old(self).effects(), name@),
    {
        let id = CellId::new(name);
        proof {
            cell_id_equality();
        }
        let mut i: usize = 0;
        while i < self.reads.len()
            invariant
                i <= self.reads.len(),
                id@ == name@,
                vstd::laws_eq::obeys_view_eq::<CellId>(),
                forall|j: int| 0 <= j < i ==> views(self.reads@)[j] != name@,
            decreases self.reads.len() - i,
        {
            if same(&self.reads[i], &id) {
                assert(views(self.reads@)[i as int] == name@);
                return ;
            }
            i = i + 1;
        }
        self.reads.push(id);
        assert(views(self.reads@) =~= views(old(self).reads@).push(name@));
    }

    /// Reads the cell `name`: records the read, whether or not there is such
    /// a cell, and hands out the cell's value or error.
    pub fn read_cell_by_name(&mut self, name: &str) -> (r: Option<
        (CellId, &'a Result<EvaluatedValue, Error>),
    >)
        ensures
            final(self).sheet() == old(self).sheet(),
            final(self).inbox() == old(self).inbox(),
            final(self).effects() == record_read(old(self).effects(), name@),
            match r {
                Some((id, value)) => id@ == name@ && old(self).sheet().value_of(name@) == Some(
                    crate::language::s_exprs::value_result(*value),
                ),
                None => old(self).sheet().value_of(name@) is None,
            },
    {
        let id = CellId::new(name);
        self.add_read_by_name(name);
        let sheet: &'a Sheet = self.ctx;
        match sheet.get_cell_value(&id) {
            Some(value) => Some((id, value)),
            None => None,
        }
    }

    /// Looks at the cell `name` without recording a read.
    pub fn peek_cell_by_name(&self, name: &str) -> (r: Option<&'a Result<EvaluatedValue, Error>>)
        ensures
            value_view(r) == self.sheet().value_of(name@),
    {
        let id = CellId::new(name);
        let sheet: &'a Sheet = self.ctx;
        sheet.get_cell_value(&id)
    }

    /// Ends the evaluation and hands out what it read and what it pushed.
    pub fn into_effects(self) -> (r: (Vec<CellId>, Vec<(String, EvaluatedValue)>))
        ensures
            views(r.0@) == self.effects().reads,
            entries_view(r.1@) == self.effects().pushes,
    {
        (self.reads, self.pushes)
    }

    /// The values that were pushed into the cell under evaluation.
    pub fn get_pushes(&self) -> (r: &Vec<EvaluatedValue>)
        ensures
            values_view(r@) == self.inbox(),
    {
        self.pushed_values
    }

    /// Pushes `value` into the cell `target`.
    pub fn add_push_by_name(&mut self, target: &str, value: &EvaluatedValue)
        ensures
            final(self).sheet() == old(self).sheet(),
            final(self).inbox() == old(self).inbox(),
            final(self).effects() == record_push(old(self).effects(), target@, value@),
    {
        let pushed = value.duplicate();
        self.pushes.push((target.to_owned(), pushed));
        assert(entries_view(self.pushes@) =~= entries_view(old(self).pushes@).push(
            (target@, value@),
        ));
    }
}

/// An intermediate representation of cell texts: something that a text
/// parses to and that can be evaluated in the context of a sheet. What
/// parsing and evaluating give is for each representation to say.
pub trait IntermediateRep: Sized {
    /// The values of the representation.
    type Value;

    /// The errors of the representation.
    type Error;

    /// Whether `r` is what `text` parses to.
    spec fn parses_to(text: Seq<char>, r: Result<Self, Self::Error>) -> bool;

    /// Whether an evaluation that may nest `depth` deep, in a sheet and with
    /// an inbox, after the effects `before`, gives `r` and leaves the
    /// effects `after`.
    spec fn evaluates_to(
        &self,
        sheet: SheetModel,
        inbox: Seq<Val>,
        depth: nat,
        before: Effects,
        r: Result<Self::Value, Self::Error>,
        after: Effects,
    ) -> bool;

    /// Whether `e` is the error with the given message.
    spec fn is_error(message: Seq<char>, e: Self::Error) -> bool;

    /// Parses a text.
    fn parse(text: &str) -> (r: Result<Self, Self::Error>)
        ensures
            Self::parses_to(text@, r),
    ;

    /// Evaluates the representation in the given context, nesting at most
    /// `depth` deep, and hands the context back with the reads and pushes
    /// of the evaluation added.
    fn evaluate<'a>(&self, ctx: ReactiveContext<'a>, depth: usize) -> (r: (
        Result<Self::Value, Self::Error>,
        ReactiveContext<'a>,
    ))
        ensures
            r.1.sheet() == ctx.sheet(),
            r.1.inbox() == ctx.inbox(),
            self.evaluates_to(
                ctx.sheet(),
                ctx.inbox(),
                depth as nat,
                ctx.effects(),
                r.0,
                r.1.effects(),
            ),
    ;

    /// The error with the given message.
    fn make_error(message: &str) -> (e: Self::Error)
        ensures
            Self::is_error(message@, e),
    ;
}

} // verus!
