//! Level progress: a small outcome state machine over two counters, the
//! manipulators remaining and the particles not yet collected.

use vstd::prelude::*;

use crate::board::Board;
use crate::element::{Piece, TileKind};
use crate::{BoardCoords, Tint};

verus! {

/// How a finished level ended, ordered by severity: a higher-ranked outcome
/// replaces a lower-ranked one recorded in the same update.
#[derive(Debug, Clone, Copy, PartialEq, Eq, Structural)]
pub enum LevelOutcome {
    NoManipulatorsLeft,
    ParticleLost,
    Victory,
}

/// Severity rank of an outcome: `NoManipulatorsLeft` < `ParticleLost` <
/// `Victory`.
pub open spec fn sp_severity(o: LevelOutcome) -> int {
    match o {
        LevelOutcome::NoManipulatorsLeft => 0,
        LevelOutcome::ParticleLost => 1,
        LevelOutcome::Victory => 2,
    }
}

/// Keep the more severe of the recorded and the new outcome.
pub open spec fn sp_max_outcome(cur: Option<LevelOutcome>, new: LevelOutcome) -> Option<
    LevelOutcome,
> {
    match cur {
        None => Some(new),
        Some(o) => if sp_severity(new) > sp_severity(o) {
            Some(new)
        } else {
            Some(o)
        },
    }
}

/// Counters that track a level towards its outcome.
#[derive(Debug, Clone, Copy, PartialEq, Eq, Structural)]
pub struct LevelProgress {
    pub manipulators_left: usize,
    pub uncollected_particles: usize,
    pub outcome: Option<LevelOutcome>,
}

/// The progress state after recording an outcome candidate.
pub open spec fn sp_update_outcome(p: LevelProgress, o: LevelOutcome) -> LevelProgress {
    LevelProgress {
        manipulators_left: p.manipulators_left,
        uncollected_particles: p.uncollected_particles,
        outcome: sp_max_outcome(p.outcome, o),
    }
}

/// The progress state after a particle reaches a Collector: one fewer
/// uncollected particle, and Victory once none remain.
pub open spec fn sp_particle_collected(p: LevelProgress) -> LevelProgress {
    let q = LevelProgress {
        manipulators_left: p.manipulators_left,
        uncollected_particles: (p.uncollected_particles - 1) as usize,
        outcome: p.outcome,
    };
    if q.uncollected_particles == 0 {
        sp_update_outcome(q, LevelOutcome::Victory)
    } else {
        q
    }
}

/// The progress state after a piece is removed from the board: a lost
/// particle records `ParticleLost` at once, a lost manipulator decrements
/// the count, and running out of manipulators records `NoManipulatorsLeft`.
pub open spec fn sp_piece_lost(p: LevelProgress, piece: Piece) -> LevelProgress {
    let q = match piece {
        Piece::Particle(_) => sp_update_outcome(p, LevelOutcome::ParticleLost),
        Piece::Manipulator(_) => LevelProgress {
            manipulators_left: (p.manipulators_left - 1) as usize,
            uncollected_particles: p.uncollected_particles,
            outcome: p.outcome,
        },
    };
    if q.manipulators_left == 0 {
        sp_update_outcome(q, LevelOutcome::NoManipulatorsLeft)
    } else {
        q
    }
}

/// Whether cell `i` holds a manipulator.
pub open spec fn sp_manip_cell(b: Board, i: int) -> bool {
    b.pieces@[i] matches Some(Piece::Manipulator(_))
}

/// Whether cell `i` holds a particle that is not resting on a Collector
/// tile of matching or white tint.
pub open spec fn sp_uncollected_cell(b: Board, i: int) -> bool {
    match b.pieces@[i] {
        Some(Piece::Particle(p)) => !(b.tiles@[i] matches Some(t) && t.kind is Collector && (t.tint
            == Tint::White || t.tint == p.tint)),
        _ => false,
    }
}

/// Number of manipulators among the first `i` cells.
pub open spec fn sp_count_manips(b: Board, i: int) -> int
    decreases i,
{
    if i <= 0 {
        0
    } else {
        sp_count_manips(b, i - 1) + if sp_manip_cell(b, i - 1) {
            1int
        } else {
            0int
        }
    }
}

/// Number of uncollected particles among the first `i` cells.
pub open spec fn sp_count_uncollected(b: Board, i: int) -> int
    decreases i,
{
    if i <= 0 {
        0
    } else {
        sp_count_uncollected(b, i - 1) + if sp_uncollected_cell(b, i - 1) {
            1int
        } else {
            0int
        }
    }
}

impl LevelProgress {
    /// Count the manipulators and the uncollected particles of a freshly
    /// loaded board; no outcome yet.
    pub fn new(board: &Board) -> (r: LevelProgress)
        requires
            board.wf(),
        ensures
            r.manipulators_left == sp_count_manips(*board, board.dims.area()),
            r.uncollected_particles == sp_count_uncollected(*board, board.dims.area()),
            r.outcome is None,
    {
        let mut manipulators_left: usize = 0;
        let mut uncollected_particles: usize = 0;
        let cells = board.dims.iter();
        let n = cells.len();
        let mut k: usize = 0;
        while k < n
            invariant
                board.wf(),
                n == cells@.len(),
                n == board.dims.area(),
                k <= n,
                forall|j: int|
                    0 <= j < n ==> #[trigger] cells@[j] == board.dims.spec_coords(j)
                        && board.dims.spec_contains(cells@[j]) && board.dims.spec_index(cells@[j])
                        == j,
                manipulators_left == sp_count_manips(*board, k as int),
                uncollected_particles == sp_count_uncollected(*board, k as int),
                manipulators_left <= k,
                uncollected_particles <= k,
            decreases n - k,
        {
            let c = cells[k];
            proof {
                crate::lemma_index_in_range(board.dims, c);
            }
            match board.pieces.get(c) {
                Some(Piece::Particle(particle)) => {
                    let collected = match board.tiles.get(c) {
                        Some(tile) => matches!(tile.kind, TileKind::Collector) && (tile.tint
                            == Tint::White || tile.tint == particle.tint),
                        None => false,
                    };
                    if !collected {
                        uncollected_particles = uncollected_particles + 1;
                    }
                },
                Some(Piece::Manipulator(_)) => {
                    manipulators_left = manipulators_left + 1;
                },
                None => {},
            }
            k = k + 1;
        }
        LevelProgress { manipulators_left, uncollected_particles, outcome: None }
    }

    /// Record that a particle came to rest on a Collector.
    pub fn particle_collected(&mut self)
        requires
            old(self).uncollected_particles >= 1,
        ensures
            *final(self) == sp_particle_collected(*old(self)),
    {
        self.uncollected_particles = self.uncollected_particles - 1;
        if self.uncollected_particles == 0 {
            self.update_outcome(LevelOutcome::Victory);
        }
    }

    /// Record that a piece was removed from the board.
    pub fn piece_lost(&mut self, piece: &Piece)
        requires
            piece is Manipulator ==> old(self).manipulators_left >= 1,
        ensures
            *final(self) == sp_piece_lost(*old(self), *piece),
    {
        match piece {
            Piece::Particle(_) => self.update_outcome(LevelOutcome::ParticleLost),
            Piece::Manipulator(_) => {
                self.manipulators_left = self.manipulators_left - 1;
            },
        }
        if self.manipulators_left == 0 {
            self.update_outcome(LevelOutcome::NoManipulatorsLeft);
        }
    }

    /// Record an outcome candidate, keeping the more severe one.
    pub fn update_outcome(&mut self, outcome: LevelOutcome)
        ensures
            *final(self) == sp_update_outcome(*old(self), outcome),
    {
        let replace = match self.outcome {
            None => true,
            Some(o) => severity(outcome) > severity(o),
        };
        if replace {
            self.outcome = Some(outcome);
        }
    }
}

fn severity(o: LevelOutcome) -> (r: u8)
    ensures
        r == sp_severity(o),
{
    match o {
        LevelOutcome::NoManipulatorsLeft => 0,
        LevelOutcome::ParticleLost => 1,
        LevelOutcome::Victory => 2,
    }
}

/// Static campaign data: tiers of named levels, each level a name and a
/// PBC1 code.
pub type CampaignData<'d> = &'d [(&'d str, &'d [(&'d str, &'d str)])];

/// Identity of one level within a campaign.
#[derive(Debug, Default, Clone)]
pub struct LevelMetadata {
    pub id: Option<usize>,
    pub name: Option<String>,
    pub next: Option<usize>,
}

/// All levels of a campaign, flattened, plus the tiers that group them.
pub struct LevelCampaign {
    pub levels: Vec<CampaignLevel>,
    pub tiers: Vec<CampaignTier>,
}

pub struct CampaignLevel {
    pub name: String,
    pub board: Board,
}

pub struct CampaignTier {
    pub name: String,
    pub levels: Vec<usize>,
}

/// Number of levels in the tiers before tier `t`.
pub open spec fn sp_levels_before(data: Seq<(&str, &[(&str, &str)])>, t: int) -> int
    decreases t,
{
    if t <= 0 {
        0
    } else {
        sp_levels_before(data, t - 1) + data[t - 1].1@.len()
    }
}

/// Level (ti, jj) of the data sits, fully decoded, at its flattened index.
pub open spec fn sp_level_entry_ok(
    data: Seq<(&str, &[(&str, &str)])>,
    levels: Seq<CampaignLevel>,
    ti: int,
    jj: int,
) -> bool {
    let idx = sp_levels_before(data, ti) + jj;
    &&& 0 <= idx < levels.len()
    &&& levels[idx].name@ == data[ti].1@[jj].0@
    &&& crate::pbc1::sp_decode_post(data[ti].1@[jj].1@, Ok(levels[idx].board))
}

pub proof fn lemma_levels_before_mono(data: Seq<(&str, &[(&str, &str)])>, a: int, b: int)
    requires
        0 <= a <= b,
    ensures
        sp_levels_before(data, a) <= sp_levels_before(data, b),
    decreases b - a,
{
    if a < b {
        lemma_levels_before_mono(data, a, b - 1);
    }
}

impl LevelCampaign {
    /// Decode every level of the campaign data, in tier order; the first
    /// code that fails to decode rejects the whole campaign.
    pub fn from_static(tier_data: CampaignData<'_>) -> (r: Result<
        LevelCampaign,
        crate::pbc1::Pbc1DecodeError,
    >)
        ensures
            r matches Ok(c) ==> {
                &&& c.tiers@.len() == tier_data@.len()
                &&& c.levels@.len() == sp_levels_before(tier_data@, tier_data@.len() as int)
                &&& forall|t: int|
                    0 <= t < tier_data@.len() ==> {
                        let tier = #[trigger] c.tiers@[t];
                        &&& tier.name@ == tier_data@[t].0@
                        &&& tier.levels@.len() == tier_data@[t].1@.len()
                        &&& forall|j: int|
                            0 <= j < tier.levels@.len() ==> #[trigger] tier.levels@[j]
                                == sp_levels_before(tier_data@, t) + j
                    }
                &&& forall|t: int, j: int|
                    0 <= t < tier_data@.len() && 0 <= j < tier_data@[t].1@.len()
                        ==> #[trigger] sp_level_entry_ok(tier_data@, c.levels@, t, j)
            },
            r matches Err(e) ==> exists|t: int, j: int|
                0 <= t < tier_data@.len() && 0 <= j < tier_data@[t].1@.len()
                    && crate::pbc1::sp_decode_post(
                    #[trigger] tier_data@[t].1@[j].1@,
                    Err(e),
                ),
    {
        let mut levels: Vec<CampaignLevel> = Vec::new();
        let mut tiers: Vec<CampaignTier> = Vec::new();

        let n_tiers = tier_data.len();
        let mut t: usize = 0;
        while t < n_tiers
            invariant
                n_tiers == tier_data@.len(),
                t <= n_tiers,
                tiers@.len() == t,
                levels@.len() == sp_levels_before(tier_data@, t as int),
                forall|ti: int|
                    0 <= ti < t ==> {
                        let tier = #[trigger] tiers@[ti];
                        &&& tier.name@ == tier_data@[ti].0@
                        &&& tier.levels@.len() == tier_data@[ti].1@.len()
                        &&& forall|j: int|
                            0 <= j < tier.levels@.len() ==> #[trigger] tier.levels@[j]
                                == sp_levels_before(tier_data@, ti) + j
                    },
                forall|ti: int, j: int|
                    0 <= ti < t && 0 <= j < tier_data@[ti].1@.len()
                        ==> #[trigger] sp_level_entry_ok(tier_data@, levels@, ti, j),
            decreases n_tiers - t,
        {
            let (name, level_data) = tier_data[t];
            let mut tier_levels: Vec<usize> = Vec::new();
            let ghost base = sp_levels_before(tier_data@, t as int);
            let n_levels = level_data.len();
            let mut j: usize = 0;
            while j < n_levels
                invariant
                    n_tiers == tier_data@.len(),
                    t < n_tiers,
                    level_data == tier_data@[t as int].1,
                    n_levels == level_data@.len(),
                    j <= n_levels,
                    base == sp_levels_before(tier_data@, t as int),
                    tier_levels@.len() == j,
                    levels@.len() == base + j,
                    forall|k: int| 0 <= k < j ==> #[trigger] tier_levels@[k] == base + k,
                    forall|ti: int, jj: int|
                        0 <= ti < t && 0 <= jj < tier_data@[ti].1@.len()
                            ==> #[trigger] sp_level_entry_ok(tier_data@, levels@, ti, jj),
                    forall|jj: int|
                        0 <= jj < j ==> #[trigger] sp_level_entry_ok(
                            tier_data@,
                            levels@,
                            t as int,
                            jj,
                        ),
                decreases n_levels - j,
            {
                let (level_name, pbc) = level_data[j];
                let board = match Board::from_pbc1(pbc) {
                    Ok(board) => board,
                    Err(e) => {
                        proof {
                            assert(0 <= t < tier_data@.len() && 0 <= j < tier_data@[
                                t as int].1@.len() && crate::pbc1::sp_decode_post(
                                tier_data@[t as int].1@[j as int].1@,
                                Err(e),
                            ));
                        }
                        return Err(e);
                    },
                };
                tier_levels.push(levels.len());
                let ghost levels0 = levels@;
                let entry_name = level_name.to_owned();
                levels.push(CampaignLevel { name: entry_name, board });
                proof {
                    assert forall|ti: int, jj: int|
                        0 <= ti < t && 0 <= jj < tier_data@[ti].1@.len() implies
                    #[trigger] sp_level_entry_ok(tier_data@, levels@, ti, jj) by {
                        assert(sp_level_entry_ok(tier_data@, levels0, ti, jj));
                        let idx = sp_levels_before(tier_data@, ti) + jj;
                        assert(levels@[idx] == levels0[idx]);
                    }
                    assert forall|jj: int| 0 <= jj < j + 1 implies #[trigger] sp_level_entry_ok(
                        tier_data@,
                        levels@,
                        t as int,
                        jj,
                    ) by {
                        if jj < j {
                            assert(sp_level_entry_ok(tier_data@, levels0, t as int, jj));
                            assert(levels@[base + jj] == levels0[base + jj]);
                        } else {
                            assert(levels@[base + jj] == levels@.last());
                        }
                    }
                }
                j = j + 1;
            }
            proof {
                lemma_levels_before_mono(tier_data@, 0, t as int);
                assert(sp_levels_before(tier_data@, t as int + 1) == base + n_levels);
            }
            tiers.push(CampaignTier { name: name.to_owned(), levels: tier_levels });
            t = t + 1;
        }
        Ok(LevelCampaign { levels, tiers })
    }

    /// The identity of the level at `level_idx`, with its successor when
    /// one exists.
    pub fn metadata(&self, level_idx: usize) -> (r: LevelMetadata)
        requires
            level_idx < self.levels@.len(),
        ensures
            r.id == Some(level_idx),
            r.name matches Some(n) && n@ == self.levels@[level_idx as int].name@,
            r.next == (if level_idx + 1 < self.levels@.len() {
                Some((level_idx + 1) as usize)
            } else {
                None::<usize>
            }),
    {
        let n = self.levels.len();
        let next_idx = level_idx + 1;
        LevelMetadata {
            id: Some(level_idx),
            name: Some(self.levels[level_idx].name.clone()),
            next: if next_idx < n {
                Some(next_idx)
            } else {
                None
            },
        }
    }
}

/// Collecting the last uncollected particle always ends the level in
/// Victory, even when a particle is lost within the same update, whichever
/// of the two is recorded first.
pub proof fn lemma_victory_overrides_particle_loss(p: LevelProgress, lost: Piece)
    requires
        p.uncollected_particles == 1,
        lost is Particle,
    ensures
        sp_particle_collected(sp_piece_lost(p, lost)).outcome == Some(LevelOutcome::Victory),
        sp_piece_lost(sp_particle_collected(p), lost).outcome == Some(LevelOutcome::Victory),
{
}

} // verus!
