//! The greedy policy: finish boxes, else play safe, else concede the
//! smallest risk.

use vstd::prelude::*;

use crate::ai::{
    MoveGenerator, WallStatistics, choose_wall_index, collect_wall_statistics, exists_tier,
    max_adj_spec, ws_matches,
};
use crate::game::Board;

verus! {

/// Picks by fixed counter priority with a uniformly random tie-break:
/// a box-completing wall if any, else a safe wall (counter 0 or 1),
/// else a risky wall (counter 2).
#[derive(Clone, Copy, Debug)]
pub struct GreadyAlgorithmPlayer {}

impl Default for GreadyAlgorithmPlayer {
    fn default() -> (r: Self)
        ensures
            r == (GreadyAlgorithmPlayer {  }),
    {
        GreadyAlgorithmPlayer {  }
    }
}

impl GreadyAlgorithmPlayer {
    /// The greedy move: `None` exactly on a finished board; otherwise
    /// an unclicked wall from the best non-empty counter tier.
    pub fn next_move(&self, board: &Board) -> (r: Option<(usize, usize)>)
        requires
            board.wf(),
        ensures
            r is Some <==> !board@.all_clicked(),
            r matches Some(m) ==> {
                &&& board@.valid_wall(m.0 as int, m.1 as int)
                &&& !board@.clicked(m.0 as int, m.1 as int)
                &&& (exists_tier(board@, 3, 3) ==> max_adj_spec(board@, m.0 as int, m.1 as int)
                    == 3)
                &&& (!exists_tier(board@, 3, 3) && exists_tier(board@, 0, 1) ==> max_adj_spec(
                    board@,
                    m.0 as int,
                    m.1 as int,
                ) <= 1)
                &&& (!exists_tier(board@, 3, 3) && !exists_tier(board@, 0, 1) ==> max_adj_spec(
                    board@,
                    m.0 as int,
                    m.1 as int,
                ) == 2)
            },
    {
        let ghost v = board@;
        if board.all_is_clicked() {
            return None;
        }
        let walls = collect_wall_statistics(board);

        if let Some(ws) = choose_wall_index(&walls, 3, 3) {
            proof {
                assert(ws_matches(v, ws)) by {
                    let k = choose|k: int| 0 <= k < walls@.len() && walls@[k] == ws;
                    assert(ws_matches(v, walls@[k]));
                }
                assert(exists_tier(v, 3, 3)) by {
                    assert(v.valid_wall(ws.row as int, ws.col as int) && !v.clicked(
                        ws.row as int,
                        ws.col as int,
                    ) && 3 <= max_adj_spec(v, ws.row as int, ws.col as int) <= 3);
                }
            }
            return Some((ws.row, ws.col));
        }
        proof {
            assert(!exists_tier(v, 3, 3)) by {
                if exists_tier(v, 3, 3) {
                    let (wr, wc) = choose|wr: int, wc: int|
                        v.valid_wall(wr, wc) && !(#[trigger] v.clicked(wr, wc)) && 3
                            <= max_adj_spec(v, wr, wc) <= 3;
                    let k = choose|k: int|
                        0 <= k < walls@.len() && (#[trigger] walls@[k]).row == wr && walls@[k].col
                            == wc;
                    assert(ws_matches(v, walls@[k]));
                    assert(3 <= walls@[k].max_adjacent_counter <= 3);
                }
            }
        }

        if let Some(ws) = choose_wall_index(&walls, 0, 1) {
            proof {
                assert(ws_matches(v, ws)) by {
                    let k = choose|k: int| 0 <= k < walls@.len() && walls@[k] == ws;
                    assert(ws_matches(v, walls@[k]));
                }
            }
            return Some((ws.row, ws.col));
        }
        proof {
            assert(!exists_tier(v, 0, 1)) by {
                if exists_tier(v, 0, 1) {
                    let (wr, wc) = choose|wr: int, wc: int|
                        v.valid_wall(wr, wc) && !(#[trigger] v.clicked(wr, wc)) && 0
                            <= max_adj_spec(v, wr, wc) <= 1;
                    let k = choose|k: int|
                        0 <= k < walls@.len() && (#[trigger] walls@[k]).row == wr && walls@[k].col
                            == wc;
                    assert(ws_matches(v, walls@[k]));
                    assert(0 <= walls@[k].max_adjacent_counter <= 1);
                }
            }
        }

        if let Some(ws) = choose_wall_index(&walls, 2, 2) {
            proof {
                assert(ws_matches(v, ws)) by {
                    let k = choose|k: int| 0 <= k < walls@.len() && walls@[k] == ws;
                    assert(ws_matches(v, walls@[k]));
                }
            }
            return Some((ws.row, ws.col));
        }

        // Unreachable: every unclicked wall's counter lies in one of
        // the three tiers, and the board is not finished.
        proof {
            let (wr, wc) = choose|wr: int, wc: int|
                v.valid_wall(wr, wc) && !(#[trigger] v.clicked(wr, wc));
            let k = choose|k: int|
                0 <= k < walls@.len() && (#[trigger] walls@[k]).row == wr && walls@[k].col == wc;
            assert(ws_matches(v, walls@[k]) && walls@[k].max_adjacent_counter <= 3);
            assert(false);
        }
        None
    }
}

impl MoveGenerator for GreadyAlgorithmPlayer {
    /// The greedy policy always finds a move when one exists.
    open spec fn complete_for(&self, board: Board) -> bool {
        true
    }

    fn next_move(&self, board: &Board) -> (r: Option<(usize, usize)>) {
        GreadyAlgorithmPlayer::next_move(self, board)
    }
}

} // verus!
