//! The movement solver: from a leader piece and a drag direction, build the
//! reference-counted graph of pieces linked through beams, then prune it to
//! the maximal legally movable subset.

use vstd::prelude::*;

use crate::board::Board;
use crate::element::{BeamTarget, BeamTargetKind, DirectionSet, Manipulator, Piece, TileKind};
use crate::grid::{
    count_some, count_true, lemma_count_some_bounds, lemma_count_some_update,
    lemma_count_true_bounds, lemma_count_true_update, Grid, GridMap, GridSet,
};
use crate::{BoardCoords, Dimensions, Direction, Tint};

verus! {

/// The manipulator at a cell, if any.
pub open spec fn sp_manip_at(b: Board, c: BoardCoords) -> Option<Manipulator> {
    match b.pieces.spec_get(c) {
        Some(Piece::Manipulator(m)) => Some(m),
        _ => None,
    }
}

/// The cached targets a piece at `c` holds in place, in direction order;
/// empty unless the cell holds a manipulator.
pub open spec fn sp_targets_at(b: Board, c: BoardCoords) -> Seq<BeamTarget> {
    match sp_manip_at(b, c) {
        Some(m) => m.spec_targets(),
        None => Seq::empty(),
    }
}

/// Reference counts saturate instead of overflowing.
pub open spec fn sp_inc(n: u32) -> u32 {
    if n == u32::MAX {
        n
    } else {
        (n + 1) as u32
    }
}

/// Reference counts saturate instead of underflowing.
pub open spec fn sp_dec(n: u32) -> u32 {
    if n == 0 {
        0u32
    } else {
        (n - 1) as u32
    }
}

/// The graph and visited set have one slot per board cell.
pub open spec fn sp_state_ok(b: Board, g: Seq<Option<u32>>, vis: Seq<bool>) -> bool {
    g.len() == b.dims.area() && vis.len() == b.dims.area()
}

/// One gather visit: bump the cell's reference count, and descend through
/// the manipulator's piece targets unless the cell is already on the current
/// recursion path (`vis`).
pub open spec fn sp_gather(
    b: Board,
    c: BoardCoords,
    g: Seq<Option<u32>>,
    vis: Seq<bool>,
) -> Seq<Option<u32>>
    decreases vis.len() - count_true(vis), 0int, 0int,
        via sp_gather_decreases
{
    if !sp_state_ok(b, g, vis) || !b.dims.spec_contains(c) {
        g
    } else {
        let i = b.dims.spec_index(c);
        let rc = match g[i] {
            Some(n) => n,
            None => 0u32,
        };
        let g1 = g.update(i, Some(sp_inc(rc)));
        if vis[i] {
            g1
        } else {
            sp_gather_list(b, sp_targets_at(b, c), 0, g1, vis.update(i, true))
        }
    }
}

/// Fold `sp_gather` over the piece-kind targets of a target list, from
/// position `k` on.
pub open spec fn sp_gather_list(
    b: Board,
    ts: Seq<BeamTarget>,
    k: int,
    g: Seq<Option<u32>>,
    vis: Seq<bool>,
) -> Seq<Option<u32>>
    decreases vis.len() - count_true(vis), 1int, ts.len() - k,
{
    if k < 0 || k >= ts.len() {
        g
    } else {
        let t = ts[k];
        let g1 = if t.kind is Piece {
            sp_gather(b, t.coords, g, vis)
        } else {
            g
        };
        sp_gather_list(b, ts, k + 1, g1, vis)
    }
}

#[via_fn]
proof fn sp_gather_decreases(b: Board, c: BoardCoords, g: Seq<Option<u32>>, vis: Seq<bool>) {
    if sp_state_ok(b, g, vis) && b.dims.spec_contains(c) {
        let i = b.dims.spec_index(c);
        crate::lemma_index_in_range(b.dims, c);
        lemma_count_true_bounds(vis);
        if !vis[i] {
            lemma_count_true_update(vis, i, true);
            lemma_count_true_bounds(vis.update(i, true));
        }
    }
}

/// `sp_gather` never changes the graph's length.
pub proof fn lemma_gather_len(b: Board, c: BoardCoords, g: Seq<Option<u32>>, vis: Seq<bool>)
    ensures
        sp_gather(b, c, g, vis).len() == g.len(),
    decreases vis.len() - count_true(vis), 0int, 0int,
{
    if sp_state_ok(b, g, vis) && b.dims.spec_contains(c) {
        let i = b.dims.spec_index(c);
        crate::lemma_index_in_range(b.dims, c);
        lemma_count_true_bounds(vis);
        if !vis[i] {
            let rc = match g[i] {
                Some(n) => n,
                None => 0u32,
            };
            lemma_count_true_update(vis, i, true);
            lemma_count_true_bounds(vis.update(i, true));
            lemma_gather_list_len(
                b,
                sp_targets_at(b, c),
                0,
                g.update(i, Some(sp_inc(rc))),
                vis.update(i, true),
            );
        }
    }
}

pub proof fn lemma_gather_list_len(
    b: Board,
    ts: Seq<BeamTarget>,
    k: int,
    g: Seq<Option<u32>>,
    vis: Seq<bool>,
)
    ensures
        sp_gather_list(b, ts, k, g, vis).len() == g.len(),
    decreases vis.len() - count_true(vis), 1int, ts.len() - k,
{
    if 0 <= k < ts.len() {
        let t = ts[k];
        let g1 = if t.kind is Piece {
            sp_gather(b, t.coords, g, vis)
        } else {
            g
        };
        if t.kind is Piece {
            lemma_gather_len(b, t.coords, g, vis);
        }
        lemma_gather_list_len(b, ts, k + 1, g1, vis);
    }
}

/// Graph and on-path set freshly sized for a board.
pub open spec fn sp_empty_counts(b: Board) -> Seq<Option<u32>> {
    Seq::new(b.dims.area() as nat, |i: int| None::<u32>)
}

pub open spec fn sp_empty_marks(b: Board) -> Seq<bool> {
    Seq::new(b.dims.area() as nat, |i: int| false)
}

/// The reference-count graph the solver starts from: one gather run from
/// the leader over an empty graph.
pub open spec fn sp_gathered(b: Board, leader: BoardCoords) -> Seq<Option<u32>> {
    sp_gather(b, leader, sp_empty_counts(b), sp_empty_marks(b))
}

/// Recursively gather the candidate move group: count one reference per
/// beam link that holds a piece in the group, marking the current recursion
/// path in `visited` so that beam cycles terminate.
fn gather(board: &Board, coords: BoardCoords, graph: &mut GridMap<u32>, visited: &mut GridSet)
    requires
        board.wf(),
        board.targets_ready(),
        board.dims.spec_contains(coords),
        old(graph).wf(),
        old(graph).spec_dims() == board.dims,
        old(visited).wf(),
        old(visited).spec_dims() == board.dims,
    ensures
        final(graph).wf(),
        final(graph).spec_dims() == board.dims,
        final(visited).wf(),
        final(visited).spec_dims() == board.dims,
        final(visited)@ == old(visited)@,
        final(graph)@ == sp_gather(*board, coords, old(graph)@, old(visited)@),
    decreases board.dims.area() - count_true(old(visited)@),
{
    proof {
        crate::lemma_index_in_range(board.dims, coords);
        lemma_count_true_bounds(old(visited)@);
    }
    let ghost i = board.dims.spec_index(coords);
    let rc = match graph.get(coords) {
        Some(n) => n,
        None => 0u32,
    };
    let bumped = if rc == u32::MAX {
        rc
    } else {
        rc + 1
    };
    graph.set(coords, Some(bumped));

    if visited.contains(coords) {
        return ;
    }
    visited.insert(coords);
    proof {
        lemma_count_true_update(old(visited)@, i, true);
    }

    if let Some(Piece::Manipulator(m)) = board.pieces.get(coords) {
        let ghost vis1 = visited@;
        let ghost g1 = graph@;
        proof {
            assert(m.targets_ok()) by {
                assert(board.pieces@[i] == Some(Piece::Manipulator(m)));
            }
        }
        let ts = m.iter_targets();
        let n = ts.len();
        let mut k: usize = 0;
        while k < n
            invariant
                board.wf(),
                board.targets_ready(),
                board.dims.spec_contains(coords),
                i == board.dims.spec_index(coords),
                0 <= i < vis1.len(),
                graph.wf(),
                graph.spec_dims() == board.dims,
                visited.wf(),
                visited.spec_dims() == board.dims,
                visited@ == vis1,
                vis1 == old(visited)@.update(i, true),
                count_true(vis1) == count_true(old(visited)@) + 1,
                count_true(old(visited)@) >= 0,
                board.pieces.spec_get(coords) == Some(Piece::Manipulator(m)),
                m.targets_ok(),
                ts@ == sp_targets_at(*board, coords),
                n == ts@.len(),
                k <= n,
                sp_gather_list(*board, ts@, k as int, graph@, vis1) == sp_gather_list(
                    *board,
                    ts@,
                    0,
                    g1,
                    vis1,
                ),
            decreases n - k,
        {
            let t = ts[k];
            if matches!(t.kind, BeamTargetKind::Piece) {
                proof {
                    lemma_count_true_bounds(vis1);
                    assert(board.target_valid(t)) by {
                        assert(board.pieces@[i] == Some(Piece::Manipulator(m)));
                        assert(t == m.spec_targets()[k as int]);
                        lemma_target_in_spec_targets(m, k as int);
                    }
                }
                gather(board, t.coords, graph, visited);
            }
            k = k + 1;
        }
    }
    visited.remove(coords);
    proof {
        assert(visited@ =~= old(visited)@);
    }
}

/// Whether the pruning scan must drop the piece at `c` for drag direction
/// `d`: any border in the way, the board edge, a tint-mismatched destination
/// tile or a Collector under a particle, or a destination occupied by a
/// piece outside the candidate graph.
pub open spec fn sp_should_prune(
    b: Board,
    g: Seq<Option<u32>>,
    c: BoardCoords,
    d: Direction,
) -> bool {
    if b.spec_border_at(c, d) is Some {
        true
    } else {
        match b.spec_neighbor(c, d) {
            None => true,
            Some(n) => {
                let particle_block = match b.pieces.spec_get(c) {
                    Some(Piece::Particle(p)) => (match b.tiles.spec_get(n) {
                        Some(t) => t.tint != Tint::White && t.tint != p.tint,
                        None => false,
                    }) || (b.tiles.spec_get(c) matches Some(t2) && t2.kind is Collector),
                    _ => false,
                };
                if particle_block {
                    true
                } else if b.pieces.spec_get(n) is None {
                    false
                } else {
                    g[b.dims.spec_index(n)] is None
                }
            },
        }
    }
}

/// Decrement the reference count stored at slot `i`, if there is one.
pub open spec fn sp_dec_entry(g: Seq<Option<u32>>, i: int) -> Seq<Option<u32>> {
    if 0 <= i < g.len() && g[i] is Some {
        g.update(i, Some(sp_dec(g[i]->Some_0)))
    } else {
        g
    }
}

/// Decrement the counts of the piece-kind targets of `ts`, from position
/// `k` on.
pub open spec fn sp_dec_targets(
    dims: Dimensions,
    g: Seq<Option<u32>>,
    ts: Seq<BeamTarget>,
    k: int,
) -> Seq<Option<u32>>
    decreases ts.len() - k,
{
    if k < 0 || k >= ts.len() {
        g
    } else {
        let t = ts[k];
        let g1 = if t.kind is Piece && dims.spec_contains(t.coords) {
            sp_dec_entry(g, dims.spec_index(t.coords))
        } else {
            g
        };
        sp_dec_targets(dims, g1, ts, k + 1)
    }
}

/// Remove a pruned cell from the graph and release the references its beams
/// held on other pieces.
pub open spec fn sp_remove_cell(b: Board, g: Seq<Option<u32>>, c: BoardCoords) -> Seq<
    Option<u32>,
> {
    let g1 = g.update(b.dims.spec_index(c), None);
    sp_dec_targets(b.dims, g1, sp_targets_at(b, c), 0)
}

/// Outcome of one pruning scan over all cells.
pub ghost struct PassResult {
    pub graph: Seq<Option<u32>>,
    pub pruned: bool,
    pub stopped: bool,
}

/// One scan from cell index `i` on: remove every node whose count is zero
/// or which fails the drag legality test, releasing its references as it
/// goes; stop the whole run early when `stop` is removed.
pub open spec fn sp_pass(
    b: Board,
    d: Direction,
    stop: Option<BoardCoords>,
    g: Seq<Option<u32>>,
    i: int,
) -> PassResult
    decreases b.dims.area() - i,
{
    if i < 0 || i >= b.dims.area() {
        PassResult { graph: g, pruned: false, stopped: false }
    } else {
        let c = b.dims.spec_coords(i);
        let entry = if i < g.len() {
            g[i]
        } else {
            None
        };
        if entry is Some && (entry->Some_0 == 0 || sp_should_prune(b, g, c, d)) {
            let g1 = sp_remove_cell(b, g, c);
            if stop == Some(c) {
                PassResult { graph: g1, pruned: true, stopped: true }
            } else {
                let rest = sp_pass(b, d, stop, g1, i + 1);
                PassResult { graph: rest.graph, pruned: true, stopped: rest.stopped }
            }
        } else {
            sp_pass(b, d, stop, g, i + 1)
        }
    }
}

/// Repeat pruning scans until one removes nothing, or the scan stops early
/// on `stop`.
pub open spec fn sp_prune(
    b: Board,
    d: Direction,
    stop: Option<BoardCoords>,
    g: Seq<Option<u32>>,
) -> Seq<Option<u32>>
    decreases count_some(g),
        via sp_prune_decreases
{
    let p = sp_pass(b, d, stop, g, 0);
    if p.stopped || !p.pruned {
        p.graph
    } else {
        sp_prune(b, d, stop, p.graph)
    }
}

#[via_fn]
proof fn sp_prune_decreases(b: Board, d: Direction, stop: Option<BoardCoords>, g: Seq<
    Option<u32>,
>) {
    lemma_count_some_bounds(g);
    let p = sp_pass(b, d, stop, g, 0);
    if !p.stopped && p.pruned {
        lemma_pass_props(b, d, stop, g, 0);
        lemma_count_some_bounds(p.graph);
    }
}

/// Releasing beam references never changes the graph's length or its number
/// of members, and leaves empty slots empty.
pub proof fn lemma_dec_targets_props(dims: Dimensions, g: Seq<Option<u32>>, ts: Seq<BeamTarget>, k: int)
    ensures
        sp_dec_targets(dims, g, ts, k).len() == g.len(),
        count_some(sp_dec_targets(dims, g, ts, k)) == count_some(g),
        forall|j: int|
            0 <= j < g.len() && g[j] is None ==> #[trigger] sp_dec_targets(dims, g, ts, k)[j]
                is None,
    decreases ts.len() - k,
{
    if 0 <= k < ts.len() {
        let t = ts[k];
        let g1 = if t.kind is Piece && dims.spec_contains(t.coords) {
            sp_dec_entry(g, dims.spec_index(t.coords))
        } else {
            g
        };
        if t.kind is Piece && dims.spec_contains(t.coords) {
            let i = dims.spec_index(t.coords);
            if 0 <= i < g.len() && g[i] is Some {
                lemma_count_some_update(g, i, Some(sp_dec(g[i]->Some_0)));
            }
        }
        lemma_dec_targets_props(dims, g1, ts, k + 1);
    }
}

/// One pruning scan never grows the graph, removes at least one member when
/// it reports a removal, leaves the graph alone when it reports none, and
/// leaves empty slots empty.
pub proof fn lemma_pass_props(
    b: Board,
    d: Direction,
    stop: Option<BoardCoords>,
    g: Seq<Option<u32>>,
    i: int,
)
    ensures
        ({
            let p = sp_pass(b, d, stop, g, i);
            &&& p.graph.len() == g.len()
            &&& count_some(p.graph) <= count_some(g)
            &&& (p.pruned ==> count_some(p.graph) < count_some(g))
            &&& (!p.pruned ==> p.graph == g)
            &&& forall|j: int|
                0 <= j < g.len() && g[j] is None ==> #[trigger] p.graph[j] is None
        }),
    decreases b.dims.area() - i,
{
    if 0 <= i < b.dims.area() {
        let c = b.dims.spec_coords(i);
        let entry = if i < g.len() {
            g[i]
        } else {
            None
        };
        if entry is Some && (entry->Some_0 == 0 || sp_should_prune(b, g, c, d)) {
            let g0 = g.update(b.dims.spec_index(c), None);
            let g1 = sp_remove_cell(b, g, c);
            crate::lemma_coords_of_index(b.dims, i);
            lemma_count_some_update(g, i, None);
            lemma_dec_targets_props(b.dims, g0, sp_targets_at(b, c), 0);
            if stop != Some(c) {
                lemma_pass_props(b, d, stop, g1, i + 1);
            }
        } else {
            lemma_pass_props(b, d, stop, g, i + 1);
        }
    }
}

/// Pruning never re-adds a removed slot.
pub proof fn lemma_prune_none(
    b: Board,
    d: Direction,
    stop: Option<BoardCoords>,
    g: Seq<Option<u32>>,
    j: int,
)
    requires
        0 <= j < g.len(),
        g[j] is None,
    ensures
        sp_prune(b, d, stop, g)[j] is None,
    decreases count_some(g),
{
    lemma_count_some_bounds(g);
    let p = sp_pass(b, d, stop, g, 0);
    lemma_pass_props(b, d, stop, g, 0);
    if !(p.stopped || !p.pruned) {
        lemma_count_some_bounds(p.graph);
        lemma_prune_none(b, d, stop, p.graph, j);
    }
}

/// Compare one scan run with an early stop at `l` against the same scan run
/// to completion: as long as `l` is not removed they agree, and once `l` is
/// removed it stays out of the completed run too.
pub proof fn lemma_pass_stop(b: Board, d: Direction, l: BoardCoords, g: Seq<Option<u32>>, i: int)
    requires
        b.dims.spec_contains(l),
        g.len() == b.dims.area(),
    ensures
        ({
            let ps = sp_pass(b, d, Some(l), g, i);
            let pn = sp_pass(b, d, None, g, i);
            if ps.stopped {
                &&& ps.graph[b.dims.spec_index(l)] is None
                &&& pn.graph[b.dims.spec_index(l)] is None
                &&& pn.pruned
            } else {
                ps == pn
            }
        }),
    decreases b.dims.area() - i,
{
    crate::lemma_index_in_range(b.dims, l);
    let il = b.dims.spec_index(l);
    if 0 <= i < b.dims.area() {
        let c = b.dims.spec_coords(i);
        crate::lemma_coords_of_index(b.dims, i);
        let entry = if i < g.len() {
            g[i]
        } else {
            None
        };
        if entry is Some && (entry->Some_0 == 0 || sp_should_prune(b, g, c, d)) {
            let g0 = g.update(i, None);
            let g1 = sp_remove_cell(b, g, c);
            lemma_dec_targets_props(b.dims, g0, sp_targets_at(b, c), 0);
            if c == l {
                assert(g1[il] is None);
                lemma_pass_props(b, d, None, g1, i + 1);
            } else {
                lemma_pass_stop(b, d, l, g1, i + 1);
                lemma_pass_props(b, d, Some(l), g1, i + 1);
            }
        } else {
            lemma_pass_stop(b, d, l, g, i + 1);
        }
    }
}

/// Whether the leader survives pruning does not depend on the early stop:
/// the run stopped at the leader and the run to completion agree on it.
pub proof fn lemma_prune_stop(b: Board, d: Direction, l: BoardCoords, g: Seq<Option<u32>>)
    requires
        b.dims.spec_contains(l),
        g.len() == b.dims.area(),
    ensures
        ({
            let il = b.dims.spec_index(l);
            (sp_prune(b, d, Some(l), g)[il] is Some) <==> (sp_prune(b, d, None, g)[il] is Some)
        }),
    decreases count_some(g),
{
    crate::lemma_index_in_range(b.dims, l);
    let il = b.dims.spec_index(l);
    lemma_count_some_bounds(g);
    let ps = sp_pass(b, d, Some(l), g, 0);
    let pn = sp_pass(b, d, None, g, 0);
    lemma_pass_stop(b, d, l, g, 0);
    lemma_pass_props(b, d, Some(l), g, 0);
    lemma_pass_props(b, d, None, g, 0);
    if ps.stopped {
        // The stopped run ends here with the leader removed; the full run
        // goes on, but a removed slot never comes back.
        lemma_count_some_bounds(pn.graph);
        lemma_prune_none(b, d, None, pn.graph, il);
    } else {
        if ps.pruned {
            lemma_count_some_bounds(ps.graph);
            lemma_prune_stop(b, d, l, ps.graph);
        }
    }
}

/// The reference-count graph a full solver run leaves behind: gather from
/// the leader, then prune to completion.
pub open spec fn sp_move_graph(b: Board, leader: BoardCoords, d: Direction) -> Seq<Option<u32>> {
    sp_prune(b, d, None, sp_gathered(b, leader))
}

/// Whether cell `c` belongs to the move set of `leader` dragged in `d`.
pub open spec fn sp_move_set_contains(
    b: Board,
    leader: BoardCoords,
    d: Direction,
    c: BoardCoords,
) -> bool {
    sp_move_graph(b, leader, d)[b.dims.spec_index(c)] is Some
}

/// Whether the leader survives a solver run with an early stop on itself:
/// the drag is allowed exactly when it does.
pub open spec fn sp_can_move(b: Board, leader: BoardCoords, d: Direction) -> bool {
    sp_prune(b, d, Some(leader), sp_gathered(b, leader))[b.dims.spec_index(leader)] is Some
}

/// The gathered graph has one slot per cell.
pub proof fn lemma_gathered_len(b: Board, leader: BoardCoords)
    ensures
        sp_gathered(b, leader).len() == b.dims.area(),
{
    lemma_gather_len(b, leader, sp_empty_counts(b), sp_empty_marks(b));
}

/// A drag is allowed for a leader exactly when the leader itself belongs to
/// the move set the solver computes for that drag.
pub proof fn lemma_can_move_iff_leader_in_move_set(b: Board, leader: BoardCoords, d: Direction)
    requires
        b.wf(),
        b.dims.spec_contains(leader),
    ensures
        sp_can_move(b, leader, d) <==> sp_move_set_contains(b, leader, d, leader),
{
    lemma_gathered_len(b, leader);
    lemma_prune_stop(b, d, leader, sp_gathered(b, leader));
}

/// The reference-counted, beam-linked candidate group for one leader piece,
/// ready to be pruned for a drag direction.
#[derive(Clone)]
pub struct MoveSolver<'b> {
    board: &'b Board,
    leader: BoardCoords,
    graph: GridMap<u32>,
}

impl<'b> MoveSolver<'b> {
    pub closed spec fn wf(self) -> bool {
        &&& self.board.wf()
        &&& self.board.targets_ready()
        &&& self.board.dims.spec_contains(self.leader)
        &&& self.graph.wf()
        &&& self.graph.spec_dims() == self.board.dims
        &&& self.graph@ == sp_gathered(*self.board, self.leader)
    }

    pub closed spec fn spec_board(self) -> Board {
        *self.board
    }

    pub closed spec fn spec_leader(self) -> BoardCoords {
        self.leader
    }

    /// Gather the candidate group reachable from `leader` through beam
    /// links.
    pub fn new(board: &'b Board, leader: BoardCoords) -> (s: MoveSolver<'b>)
        requires
            board.wf(),
            board.targets_ready(),
            board.dims.spec_contains(leader),
        ensures
            s.wf(),
            s.spec_board() == *board,
            s.spec_leader() == leader,
    {
        let mut graph = GridMap::<u32>::like(&board.pieces);
        let mut visited = GridSet::like(&board.pieces);
        proof {
            assert(graph@ =~= sp_empty_counts(*board));
            assert(visited@ =~= sp_empty_marks(*board));
        }
        gather(board, leader, &mut graph, &mut visited);
        MoveSolver { board, leader, graph }
    }

    /// Repeat pruning scans until none removes anything, stopping the whole
    /// run early as soon as `stop_coords` is removed.
    fn prune(&mut self, drag_direction: Direction, stop_coords: Option<BoardCoords>)
        requires
            old(self).board.wf(),
            old(self).board.targets_ready(),
            old(self).graph.wf(),
            old(self).graph.spec_dims() == old(self).board.dims,
        ensures
            final(self).board == old(self).board,
            final(self).leader == old(self).leader,
            final(self).graph.wf(),
            final(self).graph.spec_dims() == old(self).board.dims,
            final(self).graph@ == sp_prune(
                *old(self).board,
                drag_direction,
                stop_coords,
                old(self).graph@,
            ),
    {
        let board = self.board;
        let ghost goal = sp_prune(*board, drag_direction, stop_coords, old(self).graph@);
        let mut pruned = true;
        loop
            invariant
                board == self.board,
                board == old(self).board,
                self.leader == old(self).leader,
                board.wf(),
                board.targets_ready(),
                self.graph.wf(),
                self.graph.spec_dims() == board.dims,
                goal == sp_prune(*board, drag_direction, stop_coords, old(self).graph@),
                pruned ==> sp_prune(*board, drag_direction, stop_coords, self.graph@) == goal,
                !pruned ==> self.graph@ == goal,
            ensures
                self.graph@ == goal,
                board == self.board,
                self.leader == old(self).leader,
                self.graph.wf(),
                self.graph.spec_dims() == board.dims,
            decreases count_some(self.graph@) + (if pruned {
                1int
            } else {
                0int
            }),
        {
            if !pruned {
                break ;
            }
            let ghost g0 = self.graph@;
            let (removed, stopped) = prune_pass(
                board,
                &mut self.graph,
                drag_direction,
                stop_coords,
            );
            proof {
                lemma_pass_props(*board, drag_direction, stop_coords, g0, 0);
                lemma_count_some_bounds(g0);
                lemma_count_some_bounds(self.graph@);
            }
            if stopped {
                proof {
                    assert(self.graph@ == goal);
                }
                return ;
            }
            pruned = removed;
        }
    }

    /// Run pruning with an early stop on the leader and report whether the
    /// leader survives: whether this drag is allowed.
    pub fn can_move(self, direction: Direction) -> (r: bool)
        requires
            self.wf(),
        ensures
            r == sp_can_move(self.spec_board(), self.spec_leader(), direction),
    {
        proof {
            crate::lemma_index_in_range(self.board.dims, self.leader);
            lemma_gathered_len(*self.board, self.leader);
        }
        let mut solver = self;
        solver.prune(direction, Some(solver.leader));
        solver.graph.get(solver.leader).is_some()
    }

    /// Run pruning to completion: the surviving graph members form the move
    /// set.
    pub fn drag(self, direction: Direction) -> (result: GridSet)
        requires
            self.wf(),
        ensures
            result.wf(),
            result.spec_dims() == self.spec_board().dims,
            forall|c: BoardCoords|
                self.spec_board().dims.spec_contains(c) ==> (#[trigger] result.spec_contains(c)
                    <==> sp_move_set_contains(self.spec_board(), self.spec_leader(), direction, c)),
    {
        let board = self.board;
        let ghost leader = self.leader;
        proof {
            lemma_gathered_len(*board, leader);
        }
        let mut solver = self;
        solver.prune(direction, None);

        let mut result = GridSet::like(&solver.graph);
        let cells = board.dims.iter();
        let n = cells.len();
        let mut k: usize = 0;
        while k < n
            invariant
                board.wf(),
                solver.graph.wf(),
                solver.graph.spec_dims() == board.dims,
                solver.graph@ == sp_move_graph(*board, leader, direction),
                solver.graph@.len() == board.dims.area(),
                result.wf(),
                result.spec_dims() == board.dims,
                n == cells@.len(),
                n == board.dims.area(),
                k <= n,
                forall|j: int|
                    0 <= j < n ==> #[trigger] cells@[j] == board.dims.spec_coords(j)
                        && board.dims.spec_contains(cells@[j]) && board.dims.spec_index(cells@[j])
                        == j,
                forall|j: int|
                    0 <= j < k ==> (#[trigger] result@[j] <==> solver.graph@[j] is Some),
                forall|j: int| k <= j < n ==> !(#[trigger] result@[j]),
            decreases n - k,
        {
            let c = cells[k];
            proof {
                crate::lemma_index_in_range(board.dims, c);
            }
            if solver.graph.get(c).is_some() {
                result.insert(c);
            }
            k = k + 1;
        }
        proof {
            assert forall|c: BoardCoords| board.dims.spec_contains(c) implies (
            #[trigger] result.spec_contains(c) <==> sp_move_set_contains(
                *board,
                leader,
                direction,
                c,
            )) by {
                crate::lemma_index_in_range(board.dims, c);
            }
        }
        result
    }
}

impl Board {
    /// The set of directions in which the piece at `coords` may be dragged:
    /// exactly those for which a solver run keeps the leader in the pruned
    /// graph.
    pub fn compute_allowed_moves(&self, coords: BoardCoords) -> (r: DirectionSet)
        requires
            self.wf(),
            self.targets_ready(),
            self.dims.spec_contains(coords),
        ensures
            forall|d: Direction| #[trigger] r.spec_contains(d) == sp_can_move(*self, coords, d),
    {
        let mut result = DirectionSet::empty();
        if MoveSolver::new(self, coords).can_move(Direction::Up) {
            result.insert(Direction::Up);
        }
        if MoveSolver::new(self, coords).can_move(Direction::Left) {
            result.insert(Direction::Left);
        }
        if MoveSolver::new(self, coords).can_move(Direction::Down) {
            result.insert(Direction::Down);
        }
        if MoveSolver::new(self, coords).can_move(Direction::Right) {
            result.insert(Direction::Right);
        }
        proof {
            assert forall|d: Direction| #[trigger]
                result.spec_contains(d) == sp_can_move(*self, coords, d) by {
                match d {
                    Direction::Up => {},
                    Direction::Left => {},
                    Direction::Down => {},
                    Direction::Right => {},
                }
            }
        }
        result
    }

    /// The exact group of pieces that moves together when the piece at
    /// `piece_coords` is dragged in `direction`.
    pub fn compute_move_set(&self, piece_coords: BoardCoords, direction: Direction) -> (r: GridSet)
        requires
            self.wf(),
            self.targets_ready(),
            self.dims.spec_contains(piece_coords),
        ensures
            r.wf(),
            r.spec_dims() == self.dims,
            forall|c: BoardCoords|
                self.dims.spec_contains(c) ==> (#[trigger] r.spec_contains(c)
                    == sp_move_set_contains(*self, piece_coords, direction, c)),
    {
        MoveSolver::new(self, piece_coords).drag(direction)
    }
}

/// One pruning scan over all cells in row-major order, releasing the beam
/// references of each removed node; reports whether anything was removed
/// and whether the scan stopped early on `stop_coords`.
fn prune_pass(
    board: &Board,
    graph: &mut GridMap<u32>,
    direction: Direction,
    stop_coords: Option<BoardCoords>,
) -> (r: (bool, bool))
    requires
        board.wf(),
        board.targets_ready(),
        old(graph).wf(),
        old(graph).spec_dims() == board.dims,
    ensures
        final(graph).wf(),
        final(graph).spec_dims() == board.dims,
        ({
            let p = sp_pass(*board, direction, stop_coords, old(graph)@, 0);
            final(graph)@ == p.graph && r.0 == p.pruned && r.1 == p.stopped
        }),
{
    let ghost goal = sp_pass(*board, direction, stop_coords, old(graph)@, 0);
    let mut pruned = false;
    let cells = board.dims.iter();
    let n = cells.len();
    let mut i: usize = 0;
    while i < n
        invariant
            board.wf(),
            board.targets_ready(),
            graph.wf(),
            graph.spec_dims() == board.dims,
            n == cells@.len(),
            n == board.dims.area(),
            i <= n,
            forall|j: int|
                0 <= j < n ==> #[trigger] cells@[j] == board.dims.spec_coords(j)
                    && board.dims.spec_contains(cells@[j]) && board.dims.spec_index(cells@[j])
                    == j,
            goal == sp_pass(*board, direction, stop_coords, old(graph)@, 0),
            ({
                let p = sp_pass(*board, direction, stop_coords, graph@, i as int);
                &&& p.graph == goal.graph
                &&& (pruned || p.pruned) == goal.pruned
                &&& p.stopped == goal.stopped
            }),
        decreases n - i,
    {
        let c = cells[i];
        proof {
            crate::lemma_index_in_range(board.dims, c);
        }
        let ghost g_at = graph@;
        if let Some(rc) = graph.get(c) {
            let should = if rc == 0 {
                true
            } else {
                should_prune(board, graph, c, direction)
            };
            if should {
                graph.set(c, None);
                let ghost g0 = graph@;
                if let Some(Piece::Manipulator(m)) = board.pieces.get(c) {
                    proof {
                        assert(m.targets_ok()) by {
                            assert(board.pieces@[board.dims.spec_index(c)] == Some(
                                Piece::Manipulator(m),
                            ));
                        }
                    }
                    let ts = m.iter_targets();
                    let tn = ts.len();
                    let mut k: usize = 0;
                    while k < tn
                        invariant
                            board.wf(),
                            board.targets_ready(),
                            graph.wf(),
                            graph.spec_dims() == board.dims,
                            graph@.len() == g0.len(),
                            board.dims.spec_contains(c),
                            board.pieces.spec_get(c) == Some(Piece::Manipulator(m)),
                            m.targets_ok(),
                            ts@ == sp_targets_at(*board, c),
                            tn == ts@.len(),
                            k <= tn,
                            sp_dec_targets(board.dims, graph@, ts@, k as int) == sp_dec_targets(
                                board.dims,
                                g0,
                                ts@,
                                0,
                            ),
                        decreases tn - k,
                    {
                        let t = ts[k];
                        if matches!(t.kind, BeamTargetKind::Piece) {
                            proof {
                                crate::lemma_index_in_range(board.dims, c);
                                assert(board.target_valid(t)) by {
                                    assert(board.pieces@[board.dims.spec_index(c)] == Some(
                                        Piece::Manipulator(m),
                                    ));
                                    assert(t == m.spec_targets()[k as int]);
                                    lemma_target_in_spec_targets(m, k as int);
                                }
                                crate::lemma_index_in_range(board.dims, t.coords);
                            }
                            if let Some(rc2) = graph.get(t.coords) {
                                let dec = if rc2 == 0 {
                                    0
                                } else {
                                    rc2 - 1
                                };
                                graph.set(t.coords, Some(dec));
                            }
                        }
                        k = k + 1;
                    }
                }
                proof {
                    assert(graph@ == sp_remove_cell(*board, g_at, c));
                }
                let is_stop = match stop_coords {
                    Some(sc) => sc.row == c.row && sc.col == c.col,
                    None => false,
                };
                if is_stop {
                    return (true, true);
                }
                pruned = true;
            }
        }
        i = i + 1;
    }
    (pruned, false)
}

/// The drag-direction legality test for one candidate node: any border in
/// the way, the board edge, a tint or Collector constraint on a particle,
/// or a destination held by a piece outside the graph.
fn should_prune(
    board: &Board,
    graph: &GridMap<u32>,
    coords: BoardCoords,
    direction: Direction,
) -> (r: bool)
    requires
        board.wf(),
        graph.wf(),
        graph.spec_dims() == board.dims,
        board.dims.spec_contains(coords),
    ensures
        r == sp_should_prune(*board, graph@, coords, direction),
{
    let border_coords = coords.to_border_coords(direction);
    let border_orientation = direction.orientation().flip();
    proof {
        board.lemma_border_coords_contained(coords, direction);
    }
    if board.borders(border_orientation).get(border_coords).is_some() {
        return true;
    }
    let neighbor = match board.neighbor(coords, direction) {
        Some(n) => n,
        None => {
            return true;
        },
    };
    if let Some(Piece::Particle(particle)) = board.pieces.get(coords) {
        if let Some(tile) = board.tiles.get(neighbor) {
            if (tile.tint != Tint::White) && (tile.tint != particle.tint) {
                return true;
            }
        }
        if let Some(tile_here) = board.tiles.get(coords) {
            if matches!(tile_here.kind, TileKind::Collector) {
                return true;
            }
        }
    }
    proof {
        crate::lemma_index_in_range(board.dims, neighbor);
    }
    if board.pieces.get(neighbor).is_none() {
        return false;
    }
    graph.get(neighbor).is_none()
}

/// Each entry of a manipulator's target list is the cached target of one of
/// its emitter directions.
pub proof fn lemma_target_in_spec_targets(m: Manipulator, k: int)
    requires
        m.targets_ok(),
        0 <= k < m.spec_targets().len(),
    ensures
        exists|d: Direction|
            m.spec_emits(d) && #[trigger] m.spec_target(d) == Some(m.spec_targets()[k]),
{
    let up = m.spec_dir_target(Direction::Up);
    let left = m.spec_dir_target(Direction::Left);
    let down = m.spec_dir_target(Direction::Down);
    let right = m.spec_dir_target(Direction::Right);
    let t = m.spec_targets()[k];
    if k < up.len() {
        assert(t == up[k]);
        assert(m.spec_emits(Direction::Up) && m.spec_target(Direction::Up) == Some(t));
    } else if k < up.len() + left.len() {
        assert(t == left[k - up.len()]);
        assert(m.spec_emits(Direction::Left) && m.spec_target(Direction::Left) == Some(t));
    } else if k < up.len() + left.len() + down.len() {
        assert(t == down[k - up.len() - left.len()]);
        assert(m.spec_emits(Direction::Down) && m.spec_target(Direction::Down) == Some(t));
    } else {
        assert(t == right[k - up.len() - left.len() - down.len()]);
        assert(m.spec_emits(Direction::Right) && m.spec_target(Direction::Right) == Some(t));
    }
}

} // verus!
