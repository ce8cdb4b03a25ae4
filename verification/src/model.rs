//! Mathematical model of the board: the cell sequence, the score, and the
//! free-cell count, together with the spec functions that describe one
//! compaction step, one sweep pass, and iterated passes until stability.

use vstd::prelude::*;

verus! {

/// Abstract state of the engine: cells in row-major order, the score, and the
/// cached number of empty cells.
#[verifier::ext_equal]
pub struct BoardModel {
    pub cells: Seq<u32>,
    pub score: int,
    pub free: int,
}

/// A directional sweep configuration: the traversal order of the twelve
/// destination cells, the index offset to the source neighbour, and whether
/// the source lies at `index - offset` (`diff`) or `index + offset`.
pub struct MoveConfig {
    pub checks: Seq<usize>,
    pub off: int,
    pub diff: bool,
}

/// Cap on the board sum under which every merge fits comfortably in `u32`.
pub const SUM_CAP: u32 = 0x0100_0000;

/// Cap on the score under which one whole move cannot overflow the score.
pub const SCORE_CAP: u32 = 0xD000_0000;

/// Number of zero cells among the first `n` cells.
pub open spec fn zeros_upto(cells: Seq<u32>, n: int) -> int
    decreases n,
{
    if n <= 0 {
        0
    } else {
        zeros_upto(cells, n - 1) + if cells[n - 1] == 0 {
            1int
        } else {
            0int
        }
    }
}

/// Number of zero cells in the whole board.
pub open spec fn count_zeros(cells: Seq<u32>) -> int {
    zeros_upto(cells, cells.len() as int)
}

/// `v` is a positive power of two.
pub open spec fn is_pow2(v: int) -> bool
    decreases v,
{
    if v <= 0 {
        false
    } else if v == 1 {
        true
    } else {
        v % 2 == 0 && is_pow2(v / 2)
    }
}

/// Sum of the first `n` cell values.
pub open spec fn sum_upto(cells: Seq<u32>, n: int) -> int
    decreases n,
{
    if n <= 0 {
        0
    } else {
        sum_upto(cells, n - 1) + cells[n - 1]
    }
}

/// Sum of all cell values.
pub open spec fn sum_cells(cells: Seq<u32>) -> int {
    sum_upto(cells, cells.len() as int)
}

/// Well-formed engine state: 16 cells, the free count caches the exact number
/// of zero cells, and every nonzero cell is a power of two.
pub open spec fn wf(m: BoardModel) -> bool {
    &&& m.cells.len() == 16
    &&& m.free == count_zeros(m.cells)
    &&& forall|i: int| 0 <= i < 16 ==> m.cells[i] == 0 || is_pow2(m.cells[i] as int)
    &&& 0 <= m.score
}

/// Index of the source cell one step farther from the destination edge.
pub open spec fn src_ix(i: int, off: int, diff: bool) -> int {
    if diff {
        i - off
    } else {
        i + off
    }
}

/// The configuration addresses twelve in-range destination cells, each with an
/// in-range, distinct source neighbour.
pub open spec fn valid_config(cfg: MoveConfig) -> bool {
    &&& cfg.checks.len() == 12
    &&& cfg.off >= 1
    &&& forall|k: int|
        0 <= k < 12 ==> 0 <= #[trigger] cfg.checks[k] < 16
            && 0 <= src_ix(cfg.checks[k] as int, cfg.off, cfg.diff) < 16
            && src_ix(cfg.checks[k] as int, cfg.off, cfg.diff) != cfg.checks[k] as int
}

/// One comparison of a source cell `a` against a destination cell `b`:
/// an empty source is left alone; a value moves into an empty destination;
/// equal values merge, doubling the destination, freeing the source and
/// adding the merged value to the score; unequal occupied cells stay put.
pub open spec fn compare_spec(m: BoardModel, a: int, b: int) -> BoardModel {
    if m.cells[a] == 0 {
        m
    } else if m.cells[b] == 0 {
        BoardModel {
            cells: m.cells.update(b, m.cells[a]).update(a, 0u32),
            score: m.score,
            free: m.free,
        }
    } else if m.cells[b] == m.cells[a] {
        BoardModel {
            cells: m.cells.update(b, (m.cells[b] + m.cells[a]) as u32).update(a, 0u32),
            score: m.score + m.cells[b] + m.cells[a],
            free: m.free + 1,
        }
    } else {
        m
    }
}

/// The comparison of source `a` against destination `b` alters the state.
pub open spec fn is_change(m: BoardModel, a: int, b: int) -> bool {
    m.cells[a] != 0 && (m.cells[b] == 0 || m.cells[b] == m.cells[a])
}

/// State after the first `k` comparisons of one sweep pass.
pub open spec fn pass_upto(m: BoardModel, cfg: MoveConfig, k: int) -> BoardModel
    decreases k,
{
    if k <= 0 {
        m
    } else {
        let prev = pass_upto(m, cfg, k - 1);
        compare_spec(
            prev,
            src_ix(cfg.checks[k - 1] as int, cfg.off, cfg.diff),
            cfg.checks[k - 1] as int,
        )
    }
}

/// Whether any of the first `k` comparisons of one sweep pass alters the state.
pub open spec fn changed_upto(m: BoardModel, cfg: MoveConfig, k: int) -> bool
    decreases k,
{
    if k <= 0 {
        false
    } else {
        changed_upto(m, cfg, k - 1) || is_change(
            pass_upto(m, cfg, k - 1),
            src_ix(cfg.checks[k - 1] as int, cfg.off, cfg.diff),
            cfg.checks[k - 1] as int,
        )
    }
}

/// State after one full sweep pass.
pub open spec fn pass_spec(m: BoardModel, cfg: MoveConfig) -> BoardModel {
    pass_upto(m, cfg, cfg.checks.len() as int)
}

/// Whether one full sweep pass alters the state.
pub open spec fn pass_changed(m: BoardModel, cfg: MoveConfig) -> bool {
    changed_upto(m, cfg, cfg.checks.len() as int)
}

/// State after `n` sweep passes.
pub open spec fn iter_pass(m: BoardModel, cfg: MoveConfig, n: nat) -> BoardModel
    decreases n,
{
    if n == 0 {
        m
    } else {
        pass_spec(iter_pass(m, cfg, (n - 1) as nat), cfg)
    }
}

/// `s` is the stable state the sweep reaches from `m0`: some number of passes
/// leads to it, and one more pass changes nothing.
pub open spec fn sweep_result(m0: BoardModel, cfg: MoveConfig, s: BoardModel) -> bool {
    &&& exists|n: nat| s == #[trigger] iter_pass(m0, cfg, n)
    &&& !pass_changed(s, cfg)
}

/// `m1` is `s` with the formerly empty cell `j` now holding a fresh tile of
/// value 2 or 4; the free count drops by one and the score is unchanged.
pub open spec fn spawned_at(s: BoardModel, m1: BoardModel, j: int) -> bool {
    &&& 0 <= j < s.cells.len()
    &&& s.cells[j] == 0
    &&& (m1.cells == s.cells.update(j, 2u32) || m1.cells == s.cells.update(j, 4u32))
    &&& m1.free == s.free - 1
    &&& m1.score == s.score
}

/// One fresh tile was spawned somewhere in an empty cell of `s`.
pub open spec fn spawned(s: BoardModel, m1: BoardModel) -> bool {
    exists|j: int| #[trigger] spawned_at(s, m1, j)
}

/// Full effect of one directional move from `m0` to `m1` returning `r`:
/// the sweep runs to a stable state `s`; if no cell is free the move reports
/// a lost game and leaves `s` as is, otherwise it spawns one tile and
/// reports that the game goes on.
pub open spec fn move_post(m0: BoardModel, cfg: MoveConfig, m1: BoardModel, r: bool) -> bool {
    exists|s: BoardModel|
        {
            &&& #[trigger] sweep_result(m0, cfg, s)
            &&& if s.free == 0 {
                r == false && m1 == s
            } else {
                r == true && spawned(s, m1)
            }
        }
}

/// `m` is a starting state whose two opening tiles of value 2 landed on cells
/// `i` and `j` (possibly the same cell) of an otherwise empty board.
pub open spec fn init_at(m: BoardModel, i: int, j: int) -> bool {
    &&& 0 <= i < 16
    &&& 0 <= j < 16
    &&& m.cells == Seq::new(16, |t: int| 0u32).update(i, 2u32).update(j, 2u32)
    &&& m.free == (if i == j {
        15int
    } else {
        14int
    })
    &&& m.score == 0
}

/// `m` is a starting state: an empty board but for two opening tiles.
pub open spec fn init_post(m: BoardModel) -> bool {
    exists|i: int, j: int| #[trigger] init_at(m, i, j)
}

/// Traversal order for an upward move: sources sit one row below.
pub open spec fn up_config() -> MoveConfig {
    MoveConfig { checks: seq![0usize, 1, 2, 3, 4, 5, 6, 7, 8, 9, 10, 11], off: 4, diff: false }
}

/// Traversal order for a downward move: sources sit one row above.
pub open spec fn down_config() -> MoveConfig {
    MoveConfig { checks: seq![12usize, 13, 14, 15, 8, 9, 10, 11, 4, 5, 6, 7], off: 4, diff: true }
}

/// Traversal order for a leftward move: sources sit one column to the right.
pub open spec fn left_config() -> MoveConfig {
    MoveConfig { checks: seq![0usize, 4, 8, 12, 1, 5, 9, 13, 2, 6, 10, 14], off: 1, diff: false }
}

/// Traversal order for a rightward move: sources sit one column to the left.
pub open spec fn right_config() -> MoveConfig {
    MoveConfig { checks: seq![3usize, 7, 11, 15, 2, 6, 10, 14, 1, 5, 9, 13], off: 1, diff: true }
}

/// Distance weight of cell `i` against the direction of motion: strictly
/// larger on the source side of every comparison, so that each change during
/// a sweep strictly lowers the potential `phi`.
pub open spec fn dir_weight(cfg: MoveConfig, i: int) -> int {
    if cfg.diff {
        15 - i
    } else {
        i
    }
}

/// Potential of the first `n` cells: each occupied cell contributes its
/// direction weight plus one.
pub open spec fn phi_upto(cells: Seq<u32>, cfg: MoveConfig, n: int) -> int
    decreases n,
{
    if n <= 0 {
        0
    } else {
        phi_upto(cells, cfg, n - 1) + if cells[n - 1] != 0 {
            dir_weight(cfg, n - 1) + 1
        } else {
            0int
        }
    }
}

/// Potential of the whole board; every sweep change strictly decreases it.
pub open spec fn phi(m: BoardModel, cfg: MoveConfig) -> int {
    phi_upto(m.cells, cfg, m.cells.len() as int)
}

/// Effect of a single cell update on the potential of a prefix.
pub proof fn lemma_phi_upto_update(cells: Seq<u32>, cfg: MoveConfig, i: int, v: u32, n: int)
    requires
        0 <= i < cells.len(),
        0 <= n <= cells.len(),
    ensures
        phi_upto(cells.update(i, v), cfg, n) == phi_upto(cells, cfg, n) + if i < n {
            (if v != 0 {
                dir_weight(cfg, i) + 1
            } else {
                0int
            }) - (if cells[i] != 0 {
                dir_weight(cfg, i) + 1
            } else {
                0int
            })
        } else {
            0int
        },
    decreases n,
{
    if n > 0 {
        lemma_phi_upto_update(cells, cfg, i, v, n - 1);
    }
}

/// The potential of a prefix of at most 16 cells is nonnegative.
pub proof fn lemma_phi_upto_nonneg(cells: Seq<u32>, cfg: MoveConfig, n: int)
    requires
        0 <= n <= 16,
    ensures
        phi_upto(cells, cfg, n) >= 0,
    decreases n,
{
    if n > 0 {
        lemma_phi_upto_nonneg(cells, cfg, n - 1);
    }
}

/// One comparison never raises the potential, and lowers it strictly when it
/// changes the state.
pub proof fn lemma_phi_compare(m: BoardModel, cfg: MoveConfig, a: int, b: int)
    requires
        m.cells.len() == 16,
        0 <= a < 16,
        0 <= b < 16,
        a != b,
        a == src_ix(b, cfg.off, cfg.diff),
        cfg.off >= 1,
        m.cells[a] != 0 && m.cells[a] == m.cells[b] ==> m.cells[b] + m.cells[a] <= u32::MAX,
    ensures
        phi(compare_spec(m, a, b), cfg) <= phi(m, cfg) - if is_change(m, a, b) {
            1int
        } else {
            0int
        },
{
    if m.cells[a] != 0 {
        if m.cells[b] == 0 {
            let c1 = m.cells.update(b, m.cells[a]);
            lemma_phi_upto_update(m.cells, cfg, b, m.cells[a], 16);
            lemma_phi_upto_update(c1, cfg, a, 0u32, 16);
        } else if m.cells[b] == m.cells[a] {
            let nv = (m.cells[b] + m.cells[a]) as u32;
            let c1 = m.cells.update(b, nv);
            lemma_phi_upto_update(m.cells, cfg, b, nv, 16);
            lemma_phi_upto_update(c1, cfg, a, 0u32, 16);
        }
    }
}

/// Effect of a single cell update on the zero count of a prefix.
pub proof fn lemma_zeros_upto_update(cells: Seq<u32>, i: int, v: u32, n: int)
    requires
        0 <= i < cells.len(),
        0 <= n <= cells.len(),
    ensures
        zeros_upto(cells.update(i, v), n) == zeros_upto(cells, n) + if i < n {
            (if v == 0 {
                1int
            } else {
                0int
            }) - (if cells[i] == 0 {
                1int
            } else {
                0int
            })
        } else {
            0int
        },
    decreases n,
{
    if n > 0 {
        lemma_zeros_upto_update(cells, i, v, n - 1);
    }
}

/// The zero count of a prefix lies between 0 and the prefix length.
pub proof fn lemma_zeros_upto_bounds(cells: Seq<u32>, n: int)
    requires
        0 <= n <= cells.len(),
    ensures
        0 <= zeros_upto(cells, n) <= n,
    decreases n,
{
    if n > 0 {
        lemma_zeros_upto_bounds(cells, n - 1);
    }
}

/// A prefix holding a nonzero cell has fewer zeros than its length.
pub proof fn lemma_zeros_upto_nonzero(cells: Seq<u32>, i: int, n: int)
    requires
        0 <= i < n <= cells.len(),
        cells[i] != 0,
    ensures
        zeros_upto(cells, n) <= n - 1,
    decreases n,
{
    lemma_zeros_upto_bounds(cells, n - 1);
    if i < n - 1 {
        lemma_zeros_upto_nonzero(cells, i, n - 1);
    }
}

/// A prefix of all-zero cells counts its full length.
pub proof fn lemma_zeros_upto_all_zero(cells: Seq<u32>, n: int)
    requires
        0 <= n <= cells.len(),
        forall|k: int| 0 <= k < n ==> cells[k] == 0,
    ensures
        zeros_upto(cells, n) == n,
    decreases n,
{
    if n > 0 {
        lemma_zeros_upto_all_zero(cells, n - 1);
    }
}

/// Effect of a single cell update on the sum of a prefix.
pub proof fn lemma_sum_upto_update(cells: Seq<u32>, i: int, v: u32, n: int)
    requires
        0 <= i < cells.len(),
        0 <= n <= cells.len(),
    ensures
        sum_upto(cells.update(i, v), n) == sum_upto(cells, n) + if i < n {
            v - cells[i]
        } else {
            0int
        },
    decreases n,
{
    if n > 0 {
        lemma_sum_upto_update(cells, i, v, n - 1);
    }
}

/// A prefix of all-zero cells sums to zero.
pub proof fn lemma_sum_upto_all_zero(cells: Seq<u32>, n: int)
    requires
        0 <= n <= cells.len(),
        forall|k: int| 0 <= k < n ==> cells[k] == 0,
    ensures
        sum_upto(cells, n) == 0,
    decreases n,
{
    if n > 0 {
        lemma_sum_upto_all_zero(cells, n - 1);
    }
}

/// Every cell of a prefix is at most the prefix sum, which is nonnegative.
pub proof fn lemma_cell_le_sum(cells: Seq<u32>, i: int, n: int)
    requires
        0 <= n <= cells.len(),
        0 <= i < cells.len(),
    ensures
        sum_upto(cells, n) >= 0,
        i < n ==> cells[i] <= sum_upto(cells, n),
    decreases n,
{
    if n > 0 {
        lemma_cell_le_sum(cells, i, n - 1);
    }
}

/// Doubling keeps a value a power of two.
pub proof fn lemma_pow2_double(v: int)
    requires
        is_pow2(v),
    ensures
        is_pow2(2 * v),
{
    assert(v >= 1);
    assert((2 * v) % 2 == 0);
    assert((2 * v) / 2 == v);
}

/// A pass whose every comparison changed nothing leaves the state unchanged.
pub proof fn lemma_pass_upto_unchanged(m: BoardModel, cfg: MoveConfig, k: int)
    requires
        !changed_upto(m, cfg, k),
    ensures
        pass_upto(m, cfg, k) == m,
    decreases k,
{
    if k > 0 {
        lemma_pass_upto_unchanged(m, cfg, k - 1);
    }
}

/// A prefix with zero count 0 holds no zero cell.
pub proof fn lemma_no_zeros(cells: Seq<u32>, n: int)
    requires
        0 <= n <= cells.len(),
        zeros_upto(cells, n) == 0,
    ensures
        forall|i: int| 0 <= i < n ==> cells[i] != 0,
    decreases n,
{
    if n > 0 {
        lemma_zeros_upto_bounds(cells, n - 1);
        lemma_no_zeros(cells, n - 1);
    }
}

/// On a board with no empty cell and no equal neighbours along the direction
/// of motion, a sweep pass changes nothing.
pub proof fn lemma_full_pass_id(m: BoardModel, cfg: MoveConfig, k: int)
    requires
        valid_config(cfg),
        m.cells.len() == 16,
        0 <= k <= 12,
        forall|i: int| 0 <= i < 16 ==> m.cells[i] != 0,
        forall|t: int|
            0 <= t < 12 ==> m.cells[src_ix(#[trigger] cfg.checks[t] as int, cfg.off, cfg.diff)]
                != m.cells[cfg.checks[t] as int],
    ensures
        pass_upto(m, cfg, k) == m,
        !changed_upto(m, cfg, k),
    decreases k,
{
    if k > 0 {
        lemma_full_pass_id(m, cfg, k - 1);
    }
}

/// Iterated passes compose: `n + k` passes are `k` passes after `n` passes.
pub proof fn lemma_iter_pass_split(m: BoardModel, cfg: MoveConfig, n: nat, k: nat)
    ensures
        iter_pass(m, cfg, n + k) == iter_pass(iter_pass(m, cfg, n), cfg, k),
    decreases k,
{
    if k > 0 {
        lemma_iter_pass_split(m, cfg, n, (k - 1) as nat);
    }
}

/// Iterating the pass over a fixpoint stays at the fixpoint.
pub proof fn lemma_iter_pass_fixpoint(m: BoardModel, cfg: MoveConfig, n: nat)
    requires
        pass_spec(m, cfg) == m,
    ensures
        iter_pass(m, cfg, n) == m,
    decreases n,
{
    if n > 0 {
        lemma_iter_pass_fixpoint(m, cfg, (n - 1) as nat);
    }
}

} // verus!

