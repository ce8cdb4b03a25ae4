//! Verified engine for the 4x4 sliding-tile merge puzzle.
//!
//! The board is a flat row-major sequence of 16 cells; a cell holds 0 when
//! empty, otherwise a power of 2. Each directional move compacts and merges
//! tiles toward one edge, then spawns a fresh tile in a random free cell.

use vstd::prelude::*;

mod laws;
mod model;
mod render;
mod rng;

pub use render::cell_str;
pub use render::dec_str;
pub use render::digit_char;
pub use render::render_spec;
pub use render::row_str;
pub use render::spaces;

pub use laws::lemma_full_board_move_stuck;
pub use laws::lemma_sweep_result_unique;
pub use laws::lemma_unchanged_move_spawns;

pub use model::BoardModel;
pub use model::MoveConfig;
pub use model::SCORE_CAP;
pub use model::SUM_CAP;
pub use model::compare_spec;
pub use model::count_zeros;
pub use model::down_config;
pub use model::init_at;
pub use model::init_post;
pub use model::is_change;
pub use model::is_pow2;
pub use model::left_config;
pub use model::move_post;
pub use model::right_config;
pub use model::spawned;
pub use model::spawned_at;
pub use model::sum_cells;
pub use model::sweep_result;
pub use model::up_config;
pub use model::valid_config;
pub use model::wf;

use model::changed_upto;
use model::iter_pass;
use model::lemma_cell_le_sum;
use model::lemma_pass_upto_unchanged;
use model::lemma_phi_compare;
use model::lemma_phi_upto_nonneg;
use model::lemma_pow2_double;
use model::lemma_sum_upto_all_zero;
use model::lemma_sum_upto_update;
use model::lemma_zeros_upto_all_zero;
use model::lemma_zeros_upto_bounds;
use model::lemma_zeros_upto_nonzero;
use model::lemma_zeros_upto_update;
use model::pass_changed;
use model::pass_spec;
use model::pass_upto;
use model::phi;
use model::src_ix;
use model::zeros_upto;

verus! {

/// The engine's owned state: the 16 cells, the score, and a cached count of
/// the empty cells.
pub struct GameData {
    board: Vec<u32>,
    points: u32,
    nr_of_free_slots: u8,
}

impl View for GameData {
    type V = BoardModel;

    closed spec fn view(&self) -> BoardModel {
        BoardModel {
            cells: self.board@,
            score: self.points as int,
            free: self.nr_of_free_slots as int,
        }
    }
}

impl GameData {
    /// The game is lost exactly when no free cell remains.
    pub fn lost_game(&mut self) -> (r: bool)
        ensures
            *final(self) == *old(self),
            r == (old(self)@.free == 0),
    {
        self.nr_of_free_slots == 0
    }

    /// The board and score rendered as a fixed-width text grid.
    pub fn to_string(&self) -> (out: String)
        requires
            wf(self@),
        ensures
            out@ == render_spec(self@.cells, self@.score),
    {
        render::render_board(&self.board, self.points)
    }

    /// Value of the cell at flat index `i`.
    pub fn get(&self, i: usize) -> (v: u32)
        requires
            wf(self@),
            i < 16,
        ensures
            v == self@.cells[i as int],
    {
        self.board[i]
    }

    /// Current score.
    pub fn score(&self) -> (s: u32)
        ensures
            s as int == self@.score,
    {
        self.points
    }

    /// Cached number of empty cells.
    pub fn free_slots(&self) -> (f: u8)
        ensures
            f as int == self@.free,
    {
        self.nr_of_free_slots
    }

    /// Builds a state from explicit cells and score, counting the free cells.
    pub fn from_parts(board: Vec<u32>, points: u32) -> (g: GameData)
        requires
            board@.len() == 16,
            forall|i: int| 0 <= i < 16 ==> board@[i] == 0 || is_pow2(board@[i] as int),
        ensures
            wf(g@),
            g@.cells == board@,
            g@.score == points as int,
    {
        let mut free: u8 = 0;
        let mut i: usize = 0;
        while i < 16
            invariant
                i <= 16,
                board@.len() == 16,
                free as int == zeros_upto(board@, i as int),
            decreases 16 - i,
        {
            proof {
                lemma_zeros_upto_bounds(board@, i as int);
            }
            if board[i] == 0 {
                free = free + 1;
            }
            i = i + 1;
        }
        GameData { board, points, nr_of_free_slots: free }
    }

    /// One comparison of the source cell `a` against the destination cell `b`,
    /// as the sweep performs it; reports whether anything changed.
    pub fn compare_slots(&mut self, a: usize, b: usize) -> (r: bool)
        requires
            wf(old(self)@),
            a < 16,
            b < 16,
            a != b,
            old(self)@.cells[a as int] != 0 && old(self)@.cells[a as int] == old(self)@.cells[b as int]
                ==> old(self)@.cells[b as int] + old(self)@.cells[a as int] <= u32::MAX
                && old(self)@.score + old(self)@.cells[b as int] + old(self)@.cells[a as int]
                <= u32::MAX,
        ensures
            wf(final(self)@),
            final(self)@ == compare_spec(old(self)@, a as int, b as int),
            r == is_change(old(self)@, a as int, b as int),
            sum_cells(final(self)@.cells) == sum_cells(old(self)@.cells),
            final(self)@.free >= old(self)@.free,
            final(self)@.score >= old(self)@.score,
    {
        let ghost m0 = self@;
        if self.board[a] == 0 {
            return false;
        }
        if self.board[b] == 0 {
            let va = self.board[a];
            self.board[b] = va;
            self.board[a] = 0;
            proof {
                let c1 = m0.cells.update(b as int, va);
                lemma_zeros_upto_update(m0.cells, b as int, va, 16);
                lemma_zeros_upto_update(c1, a as int, 0u32, 16);
                lemma_sum_upto_update(m0.cells, b as int, va, 16);
                lemma_sum_upto_update(c1, a as int, 0u32, 16);
            }
            return true;
        }
        if self.board[b] == self.board[a] {
            let vb = self.board[b];
            let newv = vb + vb;
            self.board[b] = newv;
            self.board[a] = 0;
            proof {
                let c1 = m0.cells.update(b as int, newv);
                lemma_zeros_upto_update(m0.cells, b as int, newv, 16);
                lemma_zeros_upto_update(c1, a as int, 0u32, 16);
                lemma_sum_upto_update(m0.cells, b as int, newv, 16);
                lemma_sum_upto_update(c1, a as int, 0u32, 16);
                lemma_zeros_upto_nonzero(m0.cells, a as int, 16);
                lemma_pow2_double(vb as int);
            }
            self.nr_of_free_slots = self.nr_of_free_slots + 1;
            self.points = self.points + newv;
            return true;
        }
        false
    }

    /// Spawns one fresh tile, of value 2 or 4, in a uniformly chosen free
    /// cell, and spends one free slot.
    pub fn fill_rand_value(&mut self)
        requires
            wf(old(self)@),
            old(self)@.free > 0,
        ensures
            wf(final(self)@),
            spawned(old(self)@, final(self)@),
    {
        let ghost m0 = self@;
        let r = rng::rand_below(self.nr_of_free_slots);
        let mut remaining: u8 = r;
        let mut i: usize = 0;
        while i < 16 && !(self.board[i] == 0 && remaining == 0)
            invariant
                wf(self@),
                self@ == m0,
                i <= 16,
                (r as int) < m0.free,
                remaining as int == r as int - zeros_upto(m0.cells, i as int),
            decreases 16 - i,
        {
            if self.board[i] == 0 {
                remaining = remaining - 1;
            }
            i = i + 1;
        }
        proof {
            if i == 16 {
                assert(zeros_upto(m0.cells, 16) == r - remaining);
                assert(false);
            }
        }
        let small = rng::rand_spawn_is_small();
        let v: u32 = if small {
            2
        } else {
            4
        };
        self.board[i] = v;
        self.nr_of_free_slots = self.nr_of_free_slots - 1;
        proof {
            lemma_zeros_upto_update(m0.cells, i as int, v, 16);
            assert(is_pow2(1int));
            assert(is_pow2(2int));
            assert(is_pow2(4int));
            assert(spawned_at(m0, self@, i as int));
        }
    }

    /// Starts a game: an empty board, two independently chosen random cells
    /// set to 2 (they may coincide), a zero score.
    pub fn init() -> (g: GameData)
        ensures
            wf(g@),
            g@.score == 0,
            sum_cells(g@.cells) <= 4,
            init_post(g@),
    {
        let s1 = rng::rand_below(16) as usize;
        let s2 = rng::rand_below(16) as usize;
        let mut board: Vec<u32> = Vec::new();
        let mut k: usize = 0;
        while k < 16
            invariant
                board@.len() == k,
                k <= 16,
                forall|t: int| 0 <= t < k ==> board@[t] == 0u32,
            decreases 16 - k,
        {
            board.push(0);
            k = k + 1;
        }
        proof {
            assert(board@ =~= Seq::new(16, |t: int| 0u32));
        }
        let ghost zeros = board@;
        board[s1] = 2;
        board[s2] = 2;
        let free: u8 = if s1 != s2 {
            14
        } else {
            15
        };
        let g = GameData { board, points: 0, nr_of_free_slots: free };
        proof {
            let c1 = zeros.update(s1 as int, 2u32);
            lemma_zeros_upto_all_zero(zeros, 16);
            lemma_zeros_upto_update(zeros, s1 as int, 2u32, 16);
            lemma_zeros_upto_update(c1, s2 as int, 2u32, 16);
            lemma_sum_upto_all_zero(zeros, 16);
            lemma_sum_upto_update(zeros, s1 as int, 2u32, 16);
            lemma_sum_upto_update(c1, s2 as int, 2u32, 16);
            assert(is_pow2(1int));
            assert(is_pow2(2int));
            assert(init_at(g@, s1 as int, s2 as int));
        }
        g
    }

    /// One directional move: sweep passes run until the board is stable, then
    /// the game is declared lost if no cell is free, otherwise one fresh tile
    /// spawns. Returns whether the game goes on.
    #[verifier::rlimit(60)]
    pub fn move_(&mut self, checks: [usize; 12], off: usize, diff: bool) -> (r: bool)
        requires
            wf(old(self)@),
            valid_config((MoveConfig { checks: checks@, off: off as int, diff })),
            sum_cells(old(self)@.cells) <= SUM_CAP as int,
            old(self)@.score <= SCORE_CAP as int,
        ensures
            wf(final(self)@),
            move_post(
                old(self)@,
                (MoveConfig { checks: checks@, off: off as int, diff }),
                final(self)@,
                r,
            ),
            final(self)@.score >= old(self)@.score,
    {
        let ghost cfg = MoveConfig { checks: checks@, off: off as int, diff };
        let ghost m0 = self@;
        let ghost mut n_passes: nat = 0;
        let mut change = true;
        proof {
            lemma_phi_upto_nonneg(self@.cells, cfg, 16);
        }
        while change
            invariant
                wf(self@),
                wf(m0),
                checks@ == cfg.checks,
                off as int == cfg.off,
                diff == cfg.diff,
                valid_config(cfg),
                self@ == iter_pass(m0, cfg, n_passes),
                sum_cells(self@.cells) == sum_cells(m0.cells),
                sum_cells(m0.cells) <= SUM_CAP as int,
                m0.score <= SCORE_CAP as int,
                self@.free >= m0.free,
                self@.score >= m0.score,
                self@.score <= m0.score + 2 * (SUM_CAP as int) * (self@.free - m0.free),
                phi(self@, cfg) >= 0,
                !change ==> !pass_changed(self@, cfg),
            decreases phi(self@, cfg) + (if change {
                1int
            } else {
                0int
            }),
        {
            change = false;
            let ghost p0 = self@;
            let mut k: usize = 0;
            while k < 12
                invariant
                    k <= 12,
                    wf(self@),
                    wf(m0),
                    checks@ == cfg.checks,
                    off as int == cfg.off,
                    diff == cfg.diff,
                    valid_config(cfg),
                    p0 == iter_pass(m0, cfg, n_passes),
                    self@ == pass_upto(p0, cfg, k as int),
                    change == changed_upto(p0, cfg, k as int),
                    sum_cells(self@.cells) == sum_cells(m0.cells),
                    sum_cells(m0.cells) <= SUM_CAP as int,
                    m0.score <= SCORE_CAP as int,
                    self@.free >= m0.free,
                    self@.score >= m0.score,
                    self@.score <= m0.score + 2 * (SUM_CAP as int) * (self@.free - m0.free),
                    phi(self@, cfg) <= phi(p0, cfg) - (if change {
                        1int
                    } else {
                        0int
                    }),
                decreases 12 - k,
            {
                let i = checks[k];
                let s = if !diff {
                    i + off
                } else {
                    i - off
                };
                let ghost prev = self@;
                proof {
                    assert(0 <= cfg.checks[k as int] < 16 && 0 <= src_ix(
                        cfg.checks[k as int] as int,
                        cfg.off,
                        cfg.diff,
                    ) < 16);
                    assert(s as int == src_ix(i as int, cfg.off, cfg.diff));
                    lemma_cell_le_sum(prev.cells, s as int, 16);
                    lemma_cell_le_sum(prev.cells, i as int, 16);
                    assert(prev.cells[s as int] <= SUM_CAP as int);
                    assert(prev.cells[i as int] <= SUM_CAP as int);
                    lemma_zeros_upto_bounds(prev.cells, 16);
                    lemma_zeros_upto_bounds(m0.cells, 16);
                    assert(0 <= prev.free - m0.free <= 16);
                    assert(2 * (SUM_CAP as int) * (prev.free - m0.free) <= 2 * (SUM_CAP as int)
                        * 16) by (nonlinear_arith)
                        requires 0 <= prev.free - m0.free <= 16;
                    assert(prev.score <= (SCORE_CAP as int) + 2 * (SUM_CAP as int) * 16);
                    lemma_phi_compare(prev, cfg, s as int, i as int);
                }
                let c = self.compare_slots(s, i);
                if c {
                    change = true;
                }
                proof {
                    assert(self@ == compare_spec(prev, s as int, i as int));
                    if prev.cells[s as int] != 0 && prev.cells[i as int] == prev.cells[s as int] {
                        assert(self@.score == prev.score + prev.cells[i as int] + prev.cells[
                            s as int
                        ]);
                        assert(self@.free == prev.free + 1);
                        assert(2 * (SUM_CAP as int) * (self@.free - m0.free) == 2 * (SUM_CAP as int)
                            * (prev.free - m0.free) + 2 * (SUM_CAP as int)) by (nonlinear_arith)
                            requires self@.free == prev.free + 1;
                    }
                }
                k = k + 1;
            }
            proof {
                assert(self@ == pass_spec(p0, cfg));
                n_passes = n_passes + 1;
                assert(self@ == iter_pass(m0, cfg, n_passes));
                if !change {
                    lemma_pass_upto_unchanged(p0, cfg, 12);
                    assert(self@ == p0);
                    assert(!pass_changed(self@, cfg));
                }
                lemma_phi_upto_nonneg(self@.cells, cfg, 16);
            }
        }
        let ghost stable = self@;
        proof {
            assert(stable == iter_pass(m0, cfg, n_passes));
            assert(sweep_result(m0, cfg, stable));
        }
        if self.lost_game() {
            proof {
                assert(move_post(m0, cfg, self@, false));
            }
            return false;
        }
        self.fill_rand_value();
        proof {
            assert(spawned(stable, self@));
            assert(move_post(m0, cfg, self@, true));
        }
        true
    }

    /// Move every tile upward as far as it goes, merging equal neighbours.
    pub fn up(&mut self) -> (r: bool)
        requires
            wf(old(self)@),
            sum_cells(old(self)@.cells) <= SUM_CAP as int,
            old(self)@.score <= SCORE_CAP as int,
        ensures
            wf(final(self)@),
            move_post(old(self)@, up_config(), final(self)@, r),
            final(self)@.score >= old(self)@.score,
    {
        let checks: [usize; 12] = [0, 1, 2, 3, 4, 5, 6, 7, 8, 9, 10, 11];
        proof {
            assert(checks@ =~= up_config().checks);
            assert(valid_config(up_config()));
        }
        self.move_(checks, 4, false)
    }

    /// Move every tile downward as far as it goes, merging equal neighbours.
    pub fn down(&mut self) -> (r: bool)
        requires
            wf(old(self)@),
            sum_cells(old(self)@.cells) <= SUM_CAP as int,
            old(self)@.score <= SCORE_CAP as int,
        ensures
            wf(final(self)@),
            move_post(old(self)@, down_config(), final(self)@, r),
            final(self)@.score >= old(self)@.score,
    {
        let checks: [usize; 12] = [12, 13, 14, 15, 8, 9, 10, 11, 4, 5, 6, 7];
        proof {
            assert(checks@ =~= down_config().checks);
            assert(valid_config(down_config()));
        }
        self.move_(checks, 4, true)
    }

    /// Move every tile leftward as far as it goes, merging equal neighbours.
    pub fn left(&mut self) -> (r: bool)
        requires
            wf(old(self)@),
            sum_cells(old(self)@.cells) <= SUM_CAP as int,
            old(self)@.score <= SCORE_CAP as int,
        ensures
            wf(final(self)@),
            move_post(old(self)@, left_config(), final(self)@, r),
            final(self)@.score >= old(self)@.score,
    {
        let checks: [usize; 12] = [0, 4, 8, 12, 1, 5, 9, 13, 2, 6, 10, 14];
        proof {
            assert(checks@ =~= left_config().checks);
            assert(valid_config(left_config()));
        }
        self.move_(checks, 1, false)
    }

    /// Move every tile rightward as far as it goes, merging equal neighbours.
    pub fn right(&mut self) -> (r: bool)
        requires
            wf(old(self)@),
            sum_cells(old(self)@.cells) <= SUM_CAP as int,
            old(self)@.score <= SCORE_CAP as int,
        ensures
            wf(final(self)@),
            move_post(old(self)@, right_config(), final(self)@, r),
            final(self)@.score >= old(self)@.score,
    {
        let checks: [usize; 12] = [3, 7, 11, 15, 2, 6, 10, 14, 1, 5, 9, 13];
        proof {
            assert(checks@ =~= right_config().checks);
            assert(valid_config(right_config()));
        }
        self.move_(checks, 1, true)
    }
}

} // verus!
