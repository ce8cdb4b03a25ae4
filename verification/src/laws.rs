//! Laws of the move operation, stated over its contract: how a move behaves
//! on a board it cannot alter, both when the board is full and when free
//! cells remain.

use vstd::prelude::*;

use crate::model::BoardModel;
use crate::model::MoveConfig;
use crate::model::iter_pass;
use crate::model::lemma_full_pass_id;
use crate::model::lemma_iter_pass_fixpoint;
use crate::model::lemma_iter_pass_split;
use crate::model::lemma_no_zeros;
use crate::model::lemma_pass_upto_unchanged;
use crate::model::move_post;
use crate::model::pass_changed;
use crate::model::pass_spec;
use crate::model::spawned;
use crate::model::src_ix;
use crate::model::sweep_result;
use crate::model::valid_config;
use crate::model::wf;

verus! {

/// Law: the stable state a sweep reaches is unique, so the move contract
/// determines the whole outcome of a move up to the randomly spawned tile.
pub proof fn lemma_sweep_result_unique(
    m0: BoardModel,
    cfg: MoveConfig,
    s1: BoardModel,
    s2: BoardModel,
)
    requires
        sweep_result(m0, cfg, s1),
        sweep_result(m0, cfg, s2),
    ensures
        s1 == s2,
{
    let n1 = choose|n: nat| s1 == iter_pass(m0, cfg, n);
    let n2 = choose|n: nat| s2 == iter_pass(m0, cfg, n);
    lemma_pass_upto_unchanged(s1, cfg, cfg.checks.len() as int);
    lemma_pass_upto_unchanged(s2, cfg, cfg.checks.len() as int);
    if n1 <= n2 {
        lemma_iter_pass_split(m0, cfg, n1, (n2 - n1) as nat);
        lemma_iter_pass_fixpoint(s1, cfg, (n2 - n1) as nat);
    } else {
        lemma_iter_pass_split(m0, cfg, n2, (n1 - n2) as nat);
        lemma_iter_pass_fixpoint(s2, cfg, (n1 - n2) as nat);
    }
}

/// Law: a move on a fully occupied board with no equal neighbours along the
/// direction of motion reports a lost game and leaves the state untouched.
/// (A full board that still has equal neighbours merges them instead, frees
/// cells, and the game goes on.)
pub proof fn lemma_full_board_move_stuck(
    m0: BoardModel,
    cfg: MoveConfig,
    m1: BoardModel,
    r: bool,
)
    requires
        wf(m0),
        valid_config(cfg),
        m0.free == 0,
        forall|t: int|
            0 <= t < 12 ==> m0.cells[src_ix(#[trigger] cfg.checks[t] as int, cfg.off, cfg.diff)]
                != m0.cells[cfg.checks[t] as int],
        move_post(m0, cfg, m1, r),
    ensures
        r == false,
        m1 == m0,
{
    lemma_no_zeros(m0.cells, 16);
    lemma_full_pass_id(m0, cfg, 12);
    assert(pass_spec(m0, cfg) == m0);
    assert forall|n: nat| #[trigger] iter_pass(m0, cfg, n) == m0 by {
        lemma_iter_pass_fixpoint(m0, cfg, n);
    }
}

/// Law: a move whose sweep cannot change the board still spawns one fresh
/// tile, as long as a free cell remains.
pub proof fn lemma_unchanged_move_spawns(
    m0: BoardModel,
    cfg: MoveConfig,
    m1: BoardModel,
    r: bool,
)
    requires
        wf(m0),
        valid_config(cfg),
        !pass_changed(m0, cfg),
        m0.free > 0,
        move_post(m0, cfg, m1, r),
    ensures
        r == true,
        spawned(m0, m1),
{
    lemma_pass_upto_unchanged(m0, cfg, 12);
    assert(pass_spec(m0, cfg) == m0);
    assert forall|n: nat| #[trigger] iter_pass(m0, cfg, n) == m0 by {
        lemma_iter_pass_fixpoint(m0, cfg, n);
    }
}

} // verus!
