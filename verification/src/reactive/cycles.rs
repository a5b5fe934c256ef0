//! Read cycles: whether a cell reads itself, directly or through other
//! cells.
use crate::maps::fastqueue::{same, views, FastQueue};
use crate::maps::pairmap::{lefts_of, PairMap};
use crate::maps::sequences::{drop_first_contains, push_contains};
use crate::reactive::cell_id::{cell_id_equality, CellId};
use crate::reactive::rules::{is_read_chain, reaches};
use vstd::laws_eq::obeys_view_eq;
use vstd::prelude::*;

verus! {

/// The left item of every pair with the right item `right` among the first
/// `n` pairs is among `lefts_of`.
pub proof fn lefts_of_has<A, B>(pairs: Seq<(A, B)>, right: B, n: int, j: int)
    requires
        0 <= j < n <= pairs.len(),
        pairs[j].1 == right,
    ensures
        lefts_of(pairs, right, n).contains(pairs[j].0),
    decreases n,
{
    let prev = lefts_of(pairs, right, n - 1);
    let last = pairs[n - 1];
    if j == n - 1 {
        let cur = prev.push(last.0);
        assert(cur[prev.len() as int] == pairs[j].0);
    } else {
        lefts_of_has(pairs, right, n - 1, j);
        let i = choose|i: int| 0 <= i < prev.len() && prev[i] == pairs[j].0;
        if last.1 == right {
            let cur = prev.push(last.0);
            assert(cur[i] == pairs[j].0);
        }
    }
}

/// Every item among `lefts_of` is the left item of a pair with the right
/// item `right`.
pub proof fn lefts_of_from<A, B>(pairs: Seq<(A, B)>, right: B, n: int, a: A)
    requires
        0 <= n <= pairs.len(),
        lefts_of(pairs, right, n).contains(a),
    ensures
        pairs.contains((a, right)),
    decreases n,
{
    if n > 0 {
        let prev = lefts_of(pairs, right, n - 1);
        let last = pairs[n - 1];
        if last.1 == right {
            let cur = prev.push(last.0);
            let i = choose|i: int| 0 <= i < cur.len() && cur[i] == a;
            if i == prev.len() {
                assert(last == (a, right));
            } else {
                assert(prev[i] == a);
                lefts_of_from(pairs, right, n - 1, a);
            }
        } else {
            lefts_of_from(pairs, right, n - 1, a);
        }
    }
}

/// A cell that `x` reads is reached from `from` when `x` is `from` or is
/// reached from it.
pub proof fn reaches_step(
    reads: Seq<(Seq<char>, Seq<char>)>,
    from: Seq<char>,
    x: Seq<char>,
    m: Seq<char>,
)
    requires
        x == from || reaches(reads, from, x),
        reads.contains((m, x)),
    ensures
        reaches(reads, from, m),
{
    if reaches(reads, from, x) {
        let chain = choose|chain: Seq<Seq<char>>|
            is_read_chain(reads, chain) && chain.len() >= 2 && chain[0] == from
                && #[trigger] chain.last() == x;
        let longer = chain.push(m);
        assert forall|i: int| #![trigger longer[i]] 0 <= i < longer.len() - 1 implies reads.contains(
            (longer[i + 1], longer[i]),
        ) by {
            if i < chain.len() - 1 {
                assert(reads.contains((chain[i + 1], chain[i])));
            }
        }
        assert(longer.last() == m);
    } else {
        let chain = seq![from, m];
        assert forall|i: int| #![trigger chain[i]] 0 <= i < chain.len() - 1 implies reads.contains(
            (chain[i + 1], chain[i]),
        ) by {}
        assert(chain.last() == m);
    }
}

/// A cell that is reached is read by some cell.
pub proof fn reached_is_read(reads: Seq<(Seq<char>, Seq<char>)>, from: Seq<char>, x: Seq<char>)
    requires
        reaches(reads, from, x),
    ensures
        exists|j: int| 0 <= j < reads.len() && (#[trigger] reads[j]).0 == x,
{
    let chain = choose|chain: Seq<Seq<char>>|
        is_read_chain(reads, chain) && chain.len() >= 2 && chain[0] == from
            && #[trigger] chain.last() == x;
    let i = chain.len() - 2;
    let reader = chain[i];
    assert(reads.contains((chain[i + 1], reader)));
    let j = choose|j: int| 0 <= j < reads.len() && reads[j] == (x, reader);
    assert(reads[j].0 == x);
}

/// Whether the set holds every cell that a cell of the set reads.
pub open spec fn closed_under_reads(reads: Seq<(Seq<char>, Seq<char>)>, cells: Seq<Seq<char>>) -> bool {
    forall|m: Seq<char>, x: Seq<char>|
        #![trigger reads.contains((m, x))]
        cells.contains(x) && reads.contains((m, x)) ==> cells.contains(m)
}

/// A chain of reads that starts in a set closed under reads stays in it.
pub proof fn chain_stays(
    reads: Seq<(Seq<char>, Seq<char>)>,
    cells: Seq<Seq<char>>,
    chain: Seq<Seq<char>>,
    i: int,
)
    requires
        closed_under_reads(reads, cells),
        is_read_chain(reads, chain),
        cells.contains(chain[0]),
        0 <= i < chain.len(),
    ensures
        cells.contains(chain[i]),
    decreases i,
{
    if i > 0 {
        chain_stays(reads, cells, chain, i - 1);
        let reader = chain[i - 1];
        assert(reads.contains((chain[i - 1 + 1], reader)));
    }
}

/// A cell is on no read cycle when it belongs to a set that is closed
/// under reads and in which no cell reads it.
pub proof fn closed_set_has_no_cycle(
    reads: Seq<(Seq<char>, Seq<char>)>,
    cells: Seq<Seq<char>>,
    c: Seq<char>,
)
    requires
        closed_under_reads(reads, cells),
        cells.contains(c),
        forall|x: Seq<char>| #![trigger reads.contains((c, x))] cells.contains(x) ==> !reads.contains((c, x)),
    ensures
        !reaches(reads, c, c),
{
    if reaches(reads, c, c) {
        let chain = choose|chain: Seq<Seq<char>>|
            is_read_chain(reads, chain) && chain.len() >= 2 && chain[0] == c
                && #[trigger] chain.last() == c;
        let i = chain.len() - 2;
        chain_stays(reads, cells, chain, i);
        let reader = chain[i];
        assert(reads.contains((chain[i + 1], reader)));
        assert(false);
    }
}

/// A list without repetitions of cells that are `c` or are read by some
/// cell is no longer than the read edges are many, and one.
pub proof fn visited_is_bounded(
    reads: Seq<(Seq<char>, Seq<char>)>,
    cells: Seq<Seq<char>>,
    c: Seq<char>,
)
    requires
        cells.no_duplicates(),
        forall|x: Seq<char>|
            #[trigger] cells.contains(x) ==> x == c || exists|j: int|
                0 <= j < reads.len() && (#[trigger] reads[j]).0 == x,
    ensures
        cells.len() <= reads.len() + 1,
{
    let universe = Seq::new(reads.len(), |j: int| reads[j].0).push(c);
    assert forall|x: Seq<char>| cells.to_set().contains(x) implies universe.to_set().contains(x) by {
        assert(cells.contains(x));
        if x == c {
            assert(universe[reads.len() as int] == c);
        } else {
            let j = choose|j: int| 0 <= j < reads.len() && (#[trigger] reads[j]).0 == x;
            assert(universe[j] == x);
        }
        assert(universe.contains(x));
    }
    cells.unique_seq_to_set();
    universe.lemma_cardinality_of_set();
    vstd::seq_lib::seq_to_set_is_finite(universe);
    vstd::set_lib::lemma_len_subset(cells.to_set(), universe.to_set());
}

/// Whether `cells` holds a cell with the name of `id`.
pub fn holds_cell(cells: &Vec<CellId>, id: &CellId) -> (r: bool)
    ensures
        r == views(cells@).contains(id@),
{
    proof {
        cell_id_equality();
    }
    let mut i: usize = 0;
    while i < cells.len()
        invariant
            i <= cells.len(),
            obeys_view_eq::<CellId>(),
            forall|j: int| 0 <= j < i ==> views(cells@)[j] != id@,
        decreases cells.len() - i,
    {
        if same(&cells[i], id) {
            assert(views(cells@)[i as int] == id@);
            return true;
        }
        i = i + 1;
    }
    false
}

/// Decides whether the cell reads itself, directly or through other cells,
/// by a breadth-first walk from the cell along the read edges: the cell is
/// on a cycle exactly when the walk comes upon it again.
pub fn is_on_cycle(relation: &PairMap<CellId, CellId>, id: &CellId) -> (r: bool)
    ensures
        r == reaches(relation@, id@, id@),
{
    proof {
        cell_id_equality();
    }
    let ghost reads = relation@;
    let ghost c = id@;
    let mut to_evaluate: FastQueue<CellId> = FastQueue::new();
    let mut visited: Vec<CellId> = Vec::new();
    to_evaluate.push(id.clone());
    assert(to_evaluate@ =~= seq![c]);
    assert(views(visited@) =~= Seq::empty());
    loop
        invariant
            obeys_view_eq::<CellId>(),
            reads == relation@,
            c == id@,
            views(visited@).no_duplicates(),
            views(visited@).len() <= reads.len() + 1,
            views(visited@).contains(c) || (views(visited@).len() == 0 && to_evaluate@ == seq![c]),
            forall|x: Seq<char>|
                #[trigger] views(visited@).contains(x) ==> x == c || reaches(reads, c, x),
            views(visited@).contains(c) ==> forall|x: Seq<char>|
                #[trigger] to_evaluate@.contains(x) ==> reaches(reads, c, x),
            forall|m: Seq<char>, x: Seq<char>|
                #![trigger reads.contains((m, x))]
                views(visited@).contains(x) && reads.contains((m, x)) ==> views(
                    visited@,
                ).contains(m) || to_evaluate@.contains(m),
            forall|x: Seq<char>|
                #![trigger reads.contains((c, x))]
                views(visited@).contains(x) && reads.contains((c, x)) ==> to_evaluate@.contains(c),
        decreases reads.len() + 1 - views(visited@).len(), to_evaluate@.len(),
    {
        let ghost seen = views(visited@);
        let ghost waiting = to_evaluate@;
        let next = match to_evaluate.pop() {
            Some(next) => next,
            None => {
                proof {
                    assert(!waiting.contains(c));
                    assert(seen.contains(c));
                    closed_set_has_no_cycle(reads, seen, c);
                }
                return false;
            },
        };
        let ghost nx = next@;
        let ghost rest = to_evaluate@;
        proof {
            drop_first_contains(waiting);
            assert(waiting.contains(nx));
            if !seen.contains(c) {
                assert(rest.len() == 0);
            }
        }
        if !holds_cell(&visited, &next) {
            let deps = relation.get_with_right(&next);
            visited.push(next);
            let ghost now = views(visited@);
            proof {
                assert(now =~= seen.push(nx));
                push_contains(seen, nx);
                assert(now.contains(c));
                assert(nx == c || reaches(reads, c, nx));
                assert forall|x: Seq<char>| #[trigger] now.contains(x) implies x == c || exists|
                    j: int,
                | 0 <= j < reads.len() && (#[trigger] reads[j]).0 == x by {
                    if x != c {
                        reached_is_read(reads, c, x);
                    }
                }
                visited_is_bounded(reads, now, c);
            }
            let mut k: usize = 0;
            while k < deps.len()
                invariant
                    k <= deps.len(),
                    obeys_view_eq::<CellId>(),
                    now == views(visited@),
                    now.contains(c),
                    nx == c || reaches(reads, c, nx),
                    views(deps@) == lefts_of(reads, nx, reads.len() as int),
                    forall|x: Seq<char>| #[trigger] to_evaluate@.contains(x) ==> reaches(reads, c, x),
                    forall|m: Seq<char>, x: Seq<char>|
                        #![trigger reads.contains((m, x))]
                        now.contains(x) && x != nx && reads.contains((m, x)) ==> now.contains(m)
                            || to_evaluate@.contains(m),
                    forall|x: Seq<char>|
                        #![trigger reads.contains((c, x))]
                        now.contains(x) && x != nx && reads.contains((c, x))
                            ==> to_evaluate@.contains(c),
                    forall|j: int| 0 <= j < k ==> to_evaluate@.contains(#[trigger] views(deps@)[j]),
                decreases deps.len() - k,
            {
                let ghost before = to_evaluate@;
                let ghost d = views(deps@)[k as int];
                proof {
                    assert(lefts_of(reads, nx, reads.len() as int).contains(d));
                    lefts_of_from(reads, nx, reads.len() as int, d);
                    reaches_step(reads, c, nx, d);
                    push_contains(before, d);
                }
                to_evaluate.push(deps[k].clone());
                k = k + 1;
            }
            proof {
                assert forall|m: Seq<char>| reads.contains((m, nx)) implies to_evaluate@.contains(
                    m,
                ) by {
                    let j = choose|j: int| 0 <= j < reads.len() && reads[j] == (m, nx);
                    lefts_of_has(reads, nx, reads.len() as int, j);
                    let lefts = views(deps@);
                    let i = choose|i: int| 0 <= i < lefts.len() && lefts[i] == m;
                    assert(to_evaluate@.contains(lefts[i]));
                }
            }
        } else if same(&next, id) {
            return true;
        }
    }
}

} // verus!
