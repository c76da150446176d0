//! Support analysis: pieces are supported when they can be reached, through
//! beam links, from some piece resting directly on a tile; everything else
//! must fall.

use vstd::prelude::*;

use crate::board::Board;
use crate::element::{BeamTargetKind, Piece};
use crate::grid::{count_true, lemma_count_true_bounds, lemma_count_true_update, Grid, GridQueue, GridSet};
use crate::movement::{lemma_target_in_spec_targets, sp_targets_at};
use crate::BoardCoords;

verus! {

/// The manipulator at `u` holds a cached piece-kind target at `v`.
pub open spec fn sp_beam_link(b: Board, u: BoardCoords, v: BoardCoords) -> bool {
    exists|k: int|
        0 <= k < sp_targets_at(b, u).len() && #[trigger] sp_targets_at(b, u)[k].kind is Piece
            && sp_targets_at(b, u)[k].coords == v
}

/// A piece resting directly on a tile.
pub open spec fn sp_anchored(b: Board, c: BoardCoords) -> bool {
    b.dims.spec_contains(c) && b.pieces.spec_get(c) is Some && b.tiles.spec_get(c) is Some
}

/// A chain of beam links through piece cells, starting at an anchored piece.
pub open spec fn sp_support_path(b: Board, p: Seq<BoardCoords>) -> bool {
    &&& p.len() > 0
    &&& sp_anchored(b, p[0])
    &&& forall|i: int| 0 <= i < p.len() - 1 ==> sp_beam_link(b, #[trigger] p[i], p[i + 1])
    &&& forall|i: int|
        0 <= i < p.len() ==> b.dims.spec_contains(#[trigger] p[i]) && b.pieces.spec_get(
            p[i],
        ) is Some
}

/// A cell is supported when a support path ends on it.
pub open spec fn sp_supported(b: Board, c: BoardCoords) -> bool {
    exists|p: Seq<BoardCoords>| sp_support_path(b, p) && p.last() == c
}

/// A piece resting directly on a tile is always supported, by the
/// single-cell path.
pub proof fn lemma_anchored_supported(b: Board, c: BoardCoords)
    requires
        sp_anchored(b, c),
    ensures
        sp_supported(b, c),
{
    let p = seq![c];
    assert(sp_support_path(b, p));
    assert(p.last() == c);
}

/// A beam link from a supported cell extends its path by one cell.
pub proof fn lemma_supported_step(b: Board, u: BoardCoords, v: BoardCoords)
    requires
        sp_supported(b, u),
        sp_beam_link(b, u, v),
        b.dims.spec_contains(v),
        b.pieces.spec_get(v) is Some,
    ensures
        sp_supported(b, v),
{
    let p = choose|p: Seq<BoardCoords>| sp_support_path(b, p) && p.last() == u;
    let p2 = p.push(v);
    assert forall|i: int| 0 <= i < p2.len() - 1 implies sp_beam_link(b, #[trigger] p2[i], p2[i + 1]) by {
        if i < p.len() - 1 {
            assert(p2[i] == p[i] && p2[i + 1] == p[i + 1]);
        } else {
            assert(p2[i] == p.last() && p2[i + 1] == v);
        }
    }
    assert(sp_support_path(b, p2));
    assert(p2.last() == v);
}

/// The markings are sound: only piece cells are marked, anchored cells are
/// never marked, and every unmarked piece cell is genuinely supported.
spec fn inv_marks(b: Board, u: GridSet) -> bool {
    &&& u.wf()
    &&& u.spec_dims() == b.dims
    &&& forall|c: BoardCoords|
        b.dims.spec_contains(c) && #[trigger] u.spec_contains(c) ==> b.pieces.spec_get(c) is Some
    &&& forall|c: BoardCoords|
        b.dims.spec_contains(c) && sp_anchored(b, c) ==> !(#[trigger] u.spec_contains(c))
    &&& forall|c: BoardCoords|
        b.dims.spec_contains(c) && b.pieces.spec_get(c) is Some && !(#[trigger] u.spec_contains(c))
            ==> sp_supported(b, c)
}

/// Queued cells are reached piece cells.
spec fn inv_queue(b: Board, u: GridSet, q: Seq<BoardCoords>) -> bool {
    forall|j: int|
        0 <= j < q.len() ==> b.dims.spec_contains(#[trigger] q[j]) && b.pieces.spec_get(
            q[j],
        ) is Some && !u.spec_contains(q[j])
}

/// All beam links out of `c` lead to unmarked cells.
spec fn closed_cell(b: Board, u: GridSet, c: BoardCoords) -> bool {
    forall|v: BoardCoords|
        #[trigger] sp_beam_link(b, c, v) && b.dims.spec_contains(v) ==> !u.spec_contains(v)
}

/// Every reached cell that is neither queued nor the exception has all its
/// links closed.
spec fn inv_closure(b: Board, u: GridSet, q: Seq<BoardCoords>, ex: Option<BoardCoords>) -> bool {
    forall|c: BoardCoords|
        b.dims.spec_contains(c) && b.pieces.spec_get(c) is Some && !(#[trigger] u.spec_contains(c))
            && !q.contains(c) && Some(c) != ex ==> closed_cell(b, u, c)
}

/// In a state where every anchored cell is cleared and cleared piece cells
/// only link to cleared cells, the end of any support path is cleared.
proof fn lemma_path_reached(b: Board, u: GridSet, p: Seq<BoardCoords>)
    requires
        u.spec_dims() == b.dims,
        sp_support_path(b, p),
        forall|c: BoardCoords|
            b.dims.spec_contains(c) && sp_anchored(b, c) ==> !(#[trigger] u.spec_contains(c)),
        forall|c: BoardCoords|
            b.dims.spec_contains(c) && b.pieces.spec_get(c) is Some && !(#[trigger] u.spec_contains(
                c,
            )) ==> closed_cell(b, u, c),
    ensures
        !u.spec_contains(p.last()),
    decreases p.len(),
{
    if p.len() == 1 {
        assert(p.last() == p[0]);
    } else {
        let q = p.drop_last();
        assert(sp_support_path(b, q)) by {
            assert(q[0] == p[0]);
            assert forall|i: int| 0 <= i < q.len() - 1 implies sp_beam_link(
                b,
                #[trigger] q[i],
                q[i + 1],
            ) by {
                assert(q[i] == p[i] && q[i + 1] == p[i + 1]);
            }
            assert forall|i: int| 0 <= i < q.len() implies b.dims.spec_contains(#[trigger] q[i])
                && b.pieces.spec_get(q[i]) is Some by {
                assert(q[i] == p[i]);
            }
        }
        lemma_path_reached(b, u, q);
        let prev = p[p.len() - 2];
        let last = p.last();
        assert(q.last() == prev);
        assert(sp_beam_link(b, prev, last));
        assert(closed_cell(b, u, prev));
    }
}

/// Follow the beam links of the manipulator `m` at reached cell `c`: every
/// still-marked piece target becomes reached and queued.
fn visit_targets(
    board: &Board,
    c: BoardCoords,
    m: crate::element::Manipulator,
    unsupported: &mut GridSet,
    support_queue: &mut GridQueue,
)
    requires
        board.wf(),
        board.targets_ready(),
        board.dims.spec_contains(c),
        board.pieces.spec_get(c) == Some(Piece::Manipulator(m)),
        inv_marks(*board, *old(unsupported)),
        old(support_queue).wf(),
        inv_queue(*board, *old(unsupported), old(support_queue)@),
        !old(unsupported).spec_contains(c),
        sp_supported(*board, c),
    ensures
        final(support_queue).wf(),
        inv_marks(*board, *final(unsupported)),
        inv_queue(*board, *final(unsupported), final(support_queue)@),
        closed_cell(*board, *final(unsupported), c),
        forall|cc: BoardCoords|
            board.dims.spec_contains(cc) && #[trigger] final(unsupported).spec_contains(cc) ==> old(unsupported).spec_contains(cc),
        forall|cc: BoardCoords|
            old(support_queue)@.contains(cc) ==> #[trigger] final(support_queue)@.contains(cc),
        forall|cc: BoardCoords|
            board.dims.spec_contains(cc) && old(unsupported).spec_contains(cc) && !final(unsupported).spec_contains(cc) ==> #[trigger] final(support_queue)@.contains(cc),
        count_true(final(unsupported)@) < count_true(old(unsupported)@) || (*final(unsupported)
            == *old(unsupported) && final(support_queue)@ == old(support_queue)@),
{
    proof {
        crate::lemma_index_in_range(board.dims, c);
        assert(m.targets_ok()) by {
            assert(board.pieces@[board.dims.spec_index(c)] == Some(Piece::Manipulator(m)));
        }
    }
    let ts = m.iter_targets();
    let tn = ts.len();
    let mut t_idx: usize = 0;
    while t_idx < tn
        invariant
            board.wf(),
            board.targets_ready(),
            board.dims.spec_contains(c),
            board.pieces.spec_get(c) == Some(Piece::Manipulator(m)),
            m.targets_ok(),
            ts@ == sp_targets_at(*board, c),
            tn == ts@.len(),
            t_idx <= tn,
            support_queue.wf(),
            inv_marks(*board, *unsupported),
            inv_queue(*board, *unsupported, support_queue@),
            !unsupported.spec_contains(c),
            sp_supported(*board, c),
            forall|cc: BoardCoords|
                board.dims.spec_contains(cc) && #[trigger] unsupported.spec_contains(cc) ==> old(unsupported).spec_contains(cc),
            forall|cc: BoardCoords|
                old(support_queue)@.contains(cc) ==> #[trigger] support_queue@.contains(cc),
            forall|cc: BoardCoords|
                board.dims.spec_contains(cc) && old(unsupported).spec_contains(cc)
                    && !unsupported.spec_contains(cc) ==> #[trigger] support_queue@.contains(cc),
            forall|j: int|
                0 <= j < t_idx && (#[trigger] ts@[j]).kind is Piece ==> !unsupported.spec_contains(
                    ts@[j].coords,
                ),
            count_true(unsupported@) < count_true(old(unsupported)@) || (*unsupported == *old(
                unsupported,
            ) && support_queue@ == old(support_queue)@),
        decreases tn - t_idx,
    {
        let t = ts[t_idx];
        if matches!(t.kind, BeamTargetKind::Piece) {
            proof {
                crate::lemma_index_in_range(board.dims, c);
                assert(board.target_valid(t)) by {
                    assert(board.pieces@[board.dims.spec_index(c)] == Some(Piece::Manipulator(m)));
                    assert(t == m.spec_targets()[t_idx as int]);
                    lemma_target_in_spec_targets(m, t_idx as int);
                }
                crate::lemma_index_in_range(board.dims, t.coords);
                assert(sp_beam_link(*board, c, t.coords)) by {
                    assert(sp_targets_at(*board, c)[t_idx as int] == t);
                }
            }
            if unsupported.contains(t.coords) {
                let ghost marks_before = unsupported@;
                let ghost queue_before = support_queue@;
                support_queue.push(t.coords);
                unsupported.remove(t.coords);
                proof {
                    lemma_supported_step(*board, c, t.coords);
                    lemma_count_true_update(
                        marks_before,
                        board.dims.spec_index(t.coords),
                        false,
                    );
                    lemma_count_true_bounds(marks_before);
                    assert(support_queue@.contains(t.coords)) by {
                        assert(support_queue@.last() == t.coords);
                    }
                    assert forall|cc: BoardCoords|
                        queue_before.contains(cc) implies #[trigger] support_queue@.contains(
                        cc,
                    ) by {
                        let wi = choose|wi: int|
                            0 <= wi < queue_before.len() && queue_before[wi] == cc;
                        assert(support_queue@[wi] == cc);
                    }
                    assert forall|cc: BoardCoords|
                        board.dims.spec_contains(cc) && old(unsupported).spec_contains(cc)
                            && !unsupported.spec_contains(cc) implies
                        #[trigger] support_queue@.contains(cc) by {
                        if cc != t.coords {
                            assert(queue_before.contains(cc));
                            let wi = choose|wi: int|
                                0 <= wi < queue_before.len() && queue_before[wi] == cc;
                            assert(support_queue@[wi] == cc);
                        }
                    }
                }
            }
        }
        t_idx = t_idx + 1;
    }
    proof {
        assert forall|v: BoardCoords|
            #[trigger] sp_beam_link(*board, c, v) && board.dims.spec_contains(v) implies
        !unsupported.spec_contains(v) by {
            let ws = sp_targets_at(*board, c);
            let k = choose|k: int|
                0 <= k < ws.len() && (#[trigger] ws[k]).kind is Piece && ws[k].coords == v;
            assert(ts@[k].kind is Piece && ts@[k].coords == v);
        }
    }
}

/// Seed a traversal with every piece resting on a tile, follow beam links
/// outward, and return the set of pieces never reached: those must fall.
pub fn unsupported_pieces(board: &Board) -> (r: GridSet)
    requires
        board.wf(),
        board.targets_ready(),
    ensures
        r.wf(),
        r.spec_dims() == board.dims,
        forall|c: BoardCoords|
            board.dims.spec_contains(c) ==> (#[trigger] r.spec_contains(c) <==> (
            board.pieces.spec_get(c) is Some && !sp_supported(*board, c))),
        // a piece resting directly on a tile is never unsupported
        forall|c: BoardCoords| sp_anchored(*board, c) ==> !(#[trigger] r.spec_contains(c)),
{
    let mut unsupported = GridSet::like(&board.pieces);
    let mut support_queue = GridQueue::for_grid(&unsupported);

    proof {
        assert forall|c: BoardCoords| board.dims.spec_contains(c) implies !unsupported.spec_contains(
            c,
        ) by {
            crate::lemma_index_in_range(board.dims, c);
        }
    }
    let cells = board.dims.iter();
    let n = cells.len();
    let mut k: usize = 0;
    while k < n
        invariant
            board.wf(),
            board.targets_ready(),
            unsupported.wf(),
            unsupported.spec_dims() == board.dims,
            support_queue.wf(),
            n == cells@.len(),
            n == board.dims.area(),
            k <= n,
            forall|j: int|
                0 <= j < n ==> #[trigger] cells@[j] == board.dims.spec_coords(j)
                    && board.dims.spec_contains(cells@[j]) && board.dims.spec_index(cells@[j])
                    == j,
            forall|c: BoardCoords|
                board.dims.spec_contains(c) && #[trigger] unsupported.spec_contains(c) ==> {
                    &&& board.pieces.spec_get(c) is Some
                    &&& board.tiles.spec_get(c) is None
                    &&& board.dims.spec_index(c) < k
                },
            forall|c: BoardCoords|
                board.dims.spec_contains(c) && board.dims.spec_index(c) < k
                    && board.pieces.spec_get(c) is Some && board.tiles.spec_get(c) is None
                    ==> #[trigger] unsupported.spec_contains(c),
            inv_queue(*board, unsupported, support_queue@),
            forall|j: int|
                0 <= j < support_queue@.len() ==> sp_anchored(*board, #[trigger] support_queue@[j]),
            forall|c: BoardCoords|
                #![trigger support_queue@.contains(c)]
                board.dims.spec_contains(c) && board.dims.spec_index(c) < k && sp_anchored(
                    *board,
                    c,
                ) ==> support_queue@.contains(c),
        decreases n - k,
    {
        let c = cells[k];
        proof {
            crate::lemma_index_in_range(board.dims, c);
            crate::lemma_index_coords_roundtrip(board.dims, c);
        }
        let ghost queue_before = support_queue@;
        if board.pieces.get(c).is_some() {
            if board.tiles.get(c).is_some() {
                support_queue.push(c);
                proof {
                    lemma_anchored_supported(*board, c);
                    assert(support_queue@.contains(c)) by {
                        assert(support_queue@.last() == c);
                    }
                }
            } else {
                unsupported.insert(c);
            }
        }
        proof {
            assert forall|cc: BoardCoords| queue_before.contains(cc) implies
            #[trigger] support_queue@.contains(cc) by {
                let wi = choose|wi: int|
                    0 <= wi < queue_before.len() && queue_before[wi] == cc;
                assert(support_queue@[wi] == cc);
            }
            assert forall|cc: BoardCoords|
                board.dims.spec_contains(cc) && board.dims.spec_index(cc) < k + 1 && sp_anchored(
                    *board,
                    cc,
                ) implies #[trigger] support_queue@.contains(cc) by {
                crate::lemma_index_coords_roundtrip(board.dims, cc);
                if board.dims.spec_index(cc) < k {
                    assert(queue_before.contains(cc));
                } else {
                    assert(cc == c);
                }
            }
        }
        k = k + 1;
    }

    proof {
        assert forall|c: BoardCoords|
            board.dims.spec_contains(c) && board.pieces.spec_get(c) is Some && !(
            #[trigger] unsupported.spec_contains(c)) implies sp_supported(*board, c) by {
            crate::lemma_index_in_range(board.dims, c);
            if board.tiles.spec_get(c) is Some {
                lemma_anchored_supported(*board, c);
            }
        }
        assert(inv_marks(*board, unsupported));
        assert forall|c: BoardCoords|
            board.dims.spec_contains(c) && board.pieces.spec_get(c) is Some && !(
            #[trigger] unsupported.spec_contains(c)) && !support_queue@.contains(c) && Some(c)
            != None::<BoardCoords> implies closed_cell(*board, unsupported, c) by {
            crate::lemma_index_in_range(board.dims, c);
            assert(sp_anchored(*board, c));
            assert(support_queue@.contains(c));
        }
        assert(inv_closure(*board, unsupported, support_queue@, None));
    }

    loop
        invariant
            board.wf(),
            board.targets_ready(),
            support_queue.wf(),
            inv_marks(*board, unsupported),
            inv_queue(*board, unsupported, support_queue@),
            inv_closure(*board, unsupported, support_queue@, None),
        ensures
            support_queue@.len() == 0,
            inv_marks(*board, unsupported),
            inv_closure(*board, unsupported, support_queue@, None),
        decreases count_true(unsupported@), support_queue@.len(),
    {
        proof {
            lemma_count_true_bounds(unsupported@);
        }
        let ghost queue_popped = support_queue@;
        let popped = support_queue.pop();
        let c = match popped {
            Some(c) => c,
            None => {
                break ;
            },
        };
        proof {
            crate::lemma_index_in_range(board.dims, c);
            // every reached cell out of the shortened queue, other than c,
            // already had its links closed
            assert forall|cc: BoardCoords|
                board.dims.spec_contains(cc) && board.pieces.spec_get(cc) is Some && !(
                #[trigger] unsupported.spec_contains(cc)) && !support_queue@.contains(cc) && Some(
                cc,
            ) != Some(c) implies closed_cell(*board, unsupported, cc) by {
                if queue_popped.contains(cc) {
                    let wi = choose|wi: int|
                        0 <= wi < queue_popped.len() && queue_popped[wi] == cc;
                    if wi == 0 {
                        assert(cc == c);
                    } else {
                        assert(support_queue@[wi - 1] == cc);
                    }
                }
            }
            assert(inv_closure(*board, unsupported, support_queue@, Some(c)));
        }
        let ghost set_c = unsupported;
        let ghost queue_c = support_queue@;
        proof {
            assert(inv_closure(*board, set_c, queue_c, Some(c)));
        }

        let piece = board.pieces.get(c);
        if let Some(Piece::Manipulator(m)) = piece {
            visit_targets(board, c, m, &mut unsupported, &mut support_queue);
            proof {
                lemma_count_true_bounds(unsupported@);
                assert forall|cc: BoardCoords|
                    board.dims.spec_contains(cc) && board.pieces.spec_get(cc) is Some && !(
                    #[trigger] unsupported.spec_contains(cc)) && !support_queue@.contains(cc)
                    && Some(cc) != None::<BoardCoords> implies closed_cell(
                    *board,
                    unsupported,
                    cc,
                ) by {
                    if cc != c {
                        if set_c.spec_contains(cc) {
                            // a cell reached during the visit is queued now
                            assert(support_queue@.contains(cc));
                        } else {
                            // a cell reached before the visit kept its
                            // closed links: marks only shrank
                            assert(!queue_c.contains(cc));
                            assert(closed_cell(*board, set_c, cc));
                            assert forall|v: BoardCoords|
                                #[trigger] sp_beam_link(*board, cc, v)
                                    && board.dims.spec_contains(v) implies
                            !unsupported.spec_contains(v) by {
                                assert(!set_c.spec_contains(v));
                            }
                        }
                    }
                }
                assert(inv_closure(*board, unsupported, support_queue@, None));
            }
        } else {
            proof {
                assert(sp_targets_at(*board, c) =~= Seq::<crate::element::BeamTarget>::empty());
                assert(closed_cell(*board, unsupported, c)) by {
                    assert forall|v: BoardCoords|
                        #[trigger] sp_beam_link(*board, c, v) && board.dims.spec_contains(
                            v,
                        ) implies !unsupported.spec_contains(v) by {
                        assert(sp_targets_at(*board, c).len() == 0);
                    }
                }
                assert(inv_closure(*board, unsupported, support_queue@, None));
            }
        }
    }

    proof {
        assert forall|c: BoardCoords| board.dims.spec_contains(c) implies (
        #[trigger] unsupported.spec_contains(c) <==> (board.pieces.spec_get(c) is Some
            && !sp_supported(*board, c))) by {
            if unsupported.spec_contains(c) {
                if sp_supported(*board, c) {
                    let p = choose|p: Seq<BoardCoords>|
                        sp_support_path(*board, p) && p.last() == c;
                    lemma_path_reached(*board, unsupported, p);
                }
            }
        }
    }
    proof {
        assert forall|c: BoardCoords| sp_anchored(*board, c) implies !(
        #[trigger] unsupported.spec_contains(c)) by {
            lemma_anchored_supported(*board, c);
        }
    }
    unsupported
}

impl Board {
    /// The pieces no longer held up by anything: not reachable, through
    /// beam links, from any piece resting on a tile.
    pub fn unsupported_pieces(&self) -> (r: GridSet)
        requires
            self.wf(),
            self.targets_ready(),
        ensures
            r.wf(),
            r.spec_dims() == self.dims,
            forall|c: BoardCoords|
                self.dims.spec_contains(c) ==> (#[trigger] r.spec_contains(c) <==> (
                self.pieces.spec_get(c) is Some && !sp_supported(*self, c))),
            forall|c: BoardCoords| sp_anchored(*self, c) ==> !(#[trigger] r.spec_contains(c)),
    {
        unsupported_pieces(self)
    }
}

} // verus!
