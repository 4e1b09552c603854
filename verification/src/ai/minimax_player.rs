//! The plain minimax policy: depth-limited adversarial search with
//! alpha-beta pruning.

use vstd::prelude::*;

use crate::ai::{
    MAX_MINMAX_DEPTH, MoveGenerator, collect_wall_statistics, filter_walls, max_adj_spec,
    wall_priority_spec, ws_matches, ws_scan_before, ws_scan_ordered,
};
use crate::game::{Board, BoardV, Player, lemma_click_decreases_unclicked,
    lemma_score_conservation, lemma_unclicked_nonneg, unclicked_total};

verus! {

/// Every entry of `r` is an unclicked wall of the board, every
/// unclicked wall appears exactly once, and the entries come sorted by
/// wall priority - completing walls first, safe walls second, risky
/// walls last - which makes alpha-beta pruning effective.
#[verifier::rlimit(100)]
pub fn available_moves(board: &Board) -> (r: Vec<(usize, usize)>)
    requires
        board.wf(),
    ensures
        forall|k: int|
            0 <= k < r@.len() ==> board@.valid_wall((#[trigger] r@[k]).0 as int, r@[k].1 as int)
                && !board@.clicked(r@[k].0 as int, r@[k].1 as int),
        forall|wr: int, wc: int|
            board@.valid_wall(wr, wc) && !board@.clicked(wr, wc) ==> exists|k: int|
                0 <= k < r@.len() && (#[trigger] r@[k]).0 == wr && r@[k].1 == wc,
        forall|k1: int, k2: int|
            0 <= k1 < k2 < r@.len() ==> wall_priority_spec(
                max_adj_spec(board@, (#[trigger] r@[k1]).0 as int, r@[k1].1 as int),
            ) <= wall_priority_spec(
                max_adj_spec(board@, (#[trigger] r@[k2]).0 as int, r@[k2].1 as int),
            ),
        forall|k1: int, k2: int| 0 <= k1 < k2 < r@.len() ==> r@[k1] != r@[k2],
{
    let ghost v = board@;
    let walls = collect_wall_statistics(board);
    let mut tiers: Vec<crate::ai::WallStatistics> = filter_walls(&walls, 3, 3);
    let ghost g3 = tiers@;
    let mut safe = filter_walls(&walls, 0, 1);
    let ghost g01 = safe@;
    let mut risky = filter_walls(&walls, 2, 2);
    let ghost g2 = risky@;
    tiers.append(&mut safe);
    tiers.append(&mut risky);
    let ghost all = tiers@;
    proof {
        assert(all =~= g3 + g01 + g2);
        assert forall|k: int| 0 <= k < all.len() implies ws_matches(v, #[trigger] all[k]) by {
            let ws = all[k];
            if k < g3.len() {
                assert(ws == g3[k]);
                assert(walls@.contains(ws));
            } else if k < g3.len() + g01.len() {
                assert(ws == g01[k - g3.len()]);
                assert(walls@.contains(ws));
            } else {
                assert(ws == g2[k - g3.len() - g01.len()]);
                assert(walls@.contains(ws));
            }
            let k2 = choose|k2: int| 0 <= k2 < walls@.len() && walls@[k2] == ws;
        }
    }
    let mut r: Vec<(usize, usize)> = Vec::new();
    let mut i: usize = 0;
    while i < tiers.len()
        invariant
            tiers@ == all,
            forall|k: int| 0 <= k < all.len() ==> ws_matches(v, #[trigger] all[k]),
            i <= all.len(),
            r@.len() == i,
            forall|k: int|
                0 <= k < i as int ==> (#[trigger] r@[k]) == (all[k].row, all[k].col),
        decreases all.len() - i,
    {
        let ws = tiers[i];
        r.push((ws.row, ws.col));
        i = i + 1;
    }
    proof {
        // The three segments carry distinct counter classes, so the
        // list is sorted by priority.
        assert forall|k1: int, k2: int|
            0 <= k1 < k2 < r@.len() implies wall_priority_spec(
            max_adj_spec(v, (#[trigger] r@[k1]).0 as int, r@[k1].1 as int),
        ) <= wall_priority_spec(
            max_adj_spec(v, (#[trigger] r@[k2]).0 as int, r@[k2].1 as int),
        ) by {
            assert(r@[k1] == (all[k1].row, all[k1].col));
            assert(r@[k2] == (all[k2].row, all[k2].col));
            assert(ws_matches(v, all[k1]));
            assert(ws_matches(v, all[k2]));
            if k1 < g3.len() {
                assert(all[k1] == g3[k1]);
            } else if k1 < g3.len() + g01.len() {
                assert(all[k1] == g01[k1 - g3.len()]);
            } else {
                assert(all[k1] == g2[k1 - g3.len() - g01.len()]);
            }
            if k2 < g3.len() {
                assert(all[k2] == g3[k2]);
            } else if k2 < g3.len() + g01.len() {
                assert(all[k2] == g01[k2 - g3.len()]);
            } else {
                assert(all[k2] == g2[k2 - g3.len() - g01.len()]);
            }
        }
        // No wall appears twice: the walls list holds each wall once,
        // in scan order, and the three counter classes are disjoint.
        assert forall|k1: int, k2: int| 0 <= k1 < k2 < r@.len() implies r@[k1] != r@[k2] by {
            assert(r@[k1] == (all[k1].row, all[k1].col));
            assert(r@[k2] == (all[k2].row, all[k2].col));
            if all[k1].row == all[k2].row && all[k1].col == all[k2].col {
                assert(walls@.contains(all[k1]));
                assert(walls@.contains(all[k2]));
                let j1 = choose|j1: int| 0 <= j1 < walls@.len() && walls@[j1] == all[k1];
                let j2 = choose|j2: int| 0 <= j2 < walls@.len() && walls@[j2] == all[k2];
                if j1 < j2 {
                    assert(ws_scan_before(walls@[j1], walls@[j2].row as int, walls@[j2].col
                        as int));
                    assert(false);
                } else if j2 < j1 {
                    assert(ws_scan_before(walls@[j2], walls@[j1].row as int, walls@[j1].col
                        as int));
                    assert(false);
                }
                assert(all[k1] == all[k2]);
                // The same wall cannot sit in two different segments.
                if k1 < g3.len() {
                    assert(all[k1] == g3[k1]);
                    assert(all[k1].max_adjacent_counter == 3);
                } else if k1 < g3.len() + g01.len() {
                    assert(all[k1] == g01[k1 - g3.len()]);
                    assert(all[k1].max_adjacent_counter <= 1);
                } else {
                    assert(all[k1] == g2[k1 - g3.len() - g01.len()]);
                    assert(all[k1].max_adjacent_counter == 2);
                }
                if k2 < g3.len() {
                    assert(all[k2] == g3[k2]);
                    assert(all[k2].max_adjacent_counter == 3);
                } else if k2 < g3.len() + g01.len() {
                    assert(all[k2] == g01[k2 - g3.len()]);
                    assert(all[k2].max_adjacent_counter <= 1);
                } else {
                    assert(all[k2] == g2[k2 - g3.len() - g01.len()]);
                    assert(all[k2].max_adjacent_counter == 2);
                }
                // Within one segment, the segment is in scan order.
                assert(ws_scan_ordered(g3));
                assert(ws_scan_ordered(g01));
                assert(ws_scan_ordered(g2));
                assert(false);
            }
        }
        assert forall|wr: int, wc: int|
            v.valid_wall(wr, wc) && !v.clicked(wr, wc) implies exists|k: int|
            0 <= k < r@.len() && (#[trigger] r@[k]).0 == wr && r@[k].1 == wc by {
            let k0 = choose|k0: int|
                0 <= k0 < walls@.len() && (#[trigger] walls@[k0]).row == wr && walls@[k0].col
                    == wc;
            let ws = walls@[k0];
            assert(ws.max_adjacent_counter <= 3);
            assert(ws_matches(v, ws));
            assert(exists|k1: int| 0 <= k1 < all.len() && all[k1] == ws) by {
                if ws.max_adjacent_counter == 3 {
                    assert(g3.contains(ws));
                    let i3 = choose|i3: int| 0 <= i3 < g3.len() && g3[i3] == ws;
                    assert(all[i3] == ws);
                } else if ws.max_adjacent_counter <= 1 {
                    assert(g01.contains(ws));
                    let i01 = choose|i01: int| 0 <= i01 < g01.len() && g01[i01] == ws;
                    assert(all[g3.len() + i01] == ws);
                } else {
                    assert(g2.contains(ws));
                    let i2 = choose|i2: int| 0 <= i2 < g2.len() && g2[i2] == ws;
                    assert(all[g3.len() + g01.len() + i2] == ws);
                }
            }
            let k1 = choose|k1: int| 0 <= k1 < all.len() && all[k1] == ws;
            assert(r@[k1] == (ws.row, ws.col));
        }
    }
    r
}

/// Depth-limited minimax with alpha-beta pruning, without memoization.
#[derive(Clone, Copy, Debug)]
pub struct MinimaxPlayer {
    pub max_depth: usize,
}

impl Default for MinimaxPlayer {
    fn default() -> (r: Self)
        ensures
            r.max_depth == MAX_MINMAX_DEPTH,
    {
        MinimaxPlayer { max_depth: MAX_MINMAX_DEPTH }
    }
}

impl MinimaxPlayer {
    pub fn new() -> (r: Self)
        ensures
            r.max_depth == MAX_MINMAX_DEPTH,
    {
        MinimaxPlayer { max_depth: MAX_MINMAX_DEPTH }
    }

    /// Leaf evaluation: the CPU's lead over the human, in points.
    fn evaluate(&self, board: &Board) -> (r: i32)
        requires
            board.wf(),
            board@.width * board@.height <= i32::MAX,
        ensures
            r == board@.statistics.cpu_points - board@.statistics.player1_points,
            -(board@.width * board@.height) <= r <= board@.width * board@.height,
    {
        proof {
            lemma_score_conservation(board@);
        }
        let stats = self.get_statistics_of(board);
        (stats.cpu_points as i32) - (stats.player1_points as i32)
    }

    /// The statistics of the board, read through its public method.
    fn get_statistics_of(&self, board: &Board) -> (r: crate::game::GameStatistics)
        ensures
            r.player1_points == board@.statistics.player1_points,
            r.cpu_points == board@.statistics.cpu_points,
    {
        board.get_statistics()
    }

    /// The search itself.  A move that completes a box keeps the
    /// depth, the maximizing flag and the mover; a normal move spends
    /// one level of depth and hands the turn to the opponent.  This
    /// variant prunes on the lenient cutoff `beta <= alpha`,
    /// consistently in both branches.  The
    /// returned move, if any, is an unclicked wall of the board, and
    /// one is always returned below the depth limit on an unfinished
    /// board.
    #[verifier::rlimit(100)]
    fn minimax(
        &self,
        board: &Board,
        depth: usize,
        maximizing_player: bool,
        alpha: i32,
        beta: i32,
        player: Player,
    ) -> (r: (i32, Option<(usize, usize)>))
        requires
            board.wf(),
            board@.width * board@.height < i32::MAX,
            player != Player::Player2,
        ensures
            r.1 matches Some(m) ==> board@.valid_wall(m.0 as int, m.1 as int) && !board@.clicked(
                m.0 as int,
                m.1 as int,
            ),
            -(board@.width * board@.height) <= r.0 <= board@.width * board@.height,
            depth > 0 && !board@.all_clicked() ==> r.1 is Some,
            depth == 0 || board@.all_clicked() ==> r.0 == board@.statistics.cpu_points
                - board@.statistics.player1_points && r.1 is None,
        decreases depth, unclicked_total(board@.walls),
    {
        let ghost v = board@;
        let ghost wh = v.width * v.height;
        if depth == 0 || board.all_is_clicked() {
            return (self.evaluate(board), None);
        }

        let mut best_score: i32 = if maximizing_player {
            i32::MIN
        } else {
            i32::MAX
        };
        let mut best_move: Option<(usize, usize)> = None;
        let mut alpha = alpha;
        let mut beta = beta;

        let moves = available_moves(board);
        proof {
            let (wr, wc) = choose|wr: int, wc: int|
                v.valid_wall(wr, wc) && !(#[trigger] v.clicked(wr, wc));
            assert(exists|k: int|
                0 <= k < moves@.len() && (#[trigger] moves@[k]).0 == wr && moves@[k].1 == wc);
            assert(moves@.len() > 0);
        }
        let mut idx: usize = 0;
        while idx < moves.len()
            invariant_except_break
                board.wf(),
                v == board@,
                wh == v.width * v.height,
                wh < i32::MAX,
                player != Player::Player2,
                depth >= 1,
                moves@.len() > 0,
                idx <= moves@.len(),
                forall|k: int|
                    0 <= k < moves@.len() ==> v.valid_wall((#[trigger] moves@[k]).0 as int,
                    moves@[k].1 as int) && !v.clicked(moves@[k].0 as int, moves@[k].1 as int),
                idx > 0 ==> best_move is Some,
                best_move is None ==> best_score == (if maximizing_player {
                    i32::MIN
                } else {
                    i32::MAX
                }),
                best_move is Some ==> -wh <= best_score <= wh,
                best_move matches Some(m) ==> v.valid_wall(m.0 as int, m.1 as int) && !v.clicked(
                    m.0 as int,
                    m.1 as int,
                ),
            ensures
                best_move is Some,
                -wh <= best_score <= wh,
                best_move matches Some(m) ==> v.valid_wall(m.0 as int, m.1 as int) && !v.clicked(
                    m.0 as int,
                    m.1 as int,
                ),
            decreases moves@.len() - idx,
        {
            let (row, col) = moves[idx];
            let mut new_board = board.clone();
            let ghost pre = new_board@;
            let click = new_board.click_wall(row, col, player);
            let additional_move = match click {
                Ok(b) => b,
                Err(_) => {
                    proof {
                        assert(false);
                    }
                    false
                },
            };

            let (score, _) = if additional_move {
                proof {
                    lemma_click_decreases_unclicked(pre, new_board@, row as int, col as int);
                    lemma_unclicked_nonneg(new_board@.walls);
                }
                self.minimax(&new_board, depth, maximizing_player, alpha, beta, player)
            } else {
                self.minimax(
                    &new_board,
                    depth - 1,
                    !maximizing_player,
                    alpha,
                    beta,
                    player.opponent(),
                )
            };

            proof {
                assert(-wh <= score <= wh);
            }
            if maximizing_player {
                if score > best_score {
                    best_score = score;
                    best_move = Some((row, col));
                    alpha = if alpha >= best_score {
                        alpha
                    } else {
                        best_score
                    };
                    if beta <= alpha {
                        idx = idx + 1;
                        break;
                    }
                }
            } else {
                if score < best_score {
                    best_score = score;
                    best_move = Some((row, col));
                    beta = if beta <= best_score {
                        beta
                    } else {
                        best_score
                    };
                    if beta <= alpha {
                        idx = idx + 1;
                        break;
                    }
                }
            }
            idx = idx + 1;
        }

        (best_score, best_move)
    }

    /// The minimax move: the best move of a depth-limited search with
    /// the CPU as the maximizing player.
    pub fn next_move(&self, board: &Board) -> (r: Option<(usize, usize)>)
        requires
            board.wf(),
        ensures
            board@.all_clicked() ==> r is None,
            r matches Some(m) ==> board@.valid_wall(m.0 as int, m.1 as int) && !board@.clicked(
                m.0 as int,
                m.1 as int,
            ),
            self.max_depth >= 1 && board@.width * board@.height < i32::MAX
                && !board@.all_clicked() ==> r is Some,
    {
        if board.width * board.height >= (i32::MAX as usize) {
            return None;
        }
        let (_, best_move) = self.minimax(
            board,
            self.max_depth,
            true,
            i32::MIN,
            i32::MAX,
            Player::CPU,
        );
        best_move
    }
}

impl MoveGenerator for MinimaxPlayer {
    /// The search proposes a move whenever it has any depth to look
    /// ahead and the score fits the evaluation type.
    open spec fn complete_for(&self, board: Board) -> bool {
        self.max_depth >= 1 && board@.width * board@.height < i32::MAX
    }

    fn next_move(&self, board: &Board) -> (r: Option<(usize, usize)>) {
        MinimaxPlayer::next_move(self, board)
    }
}

} // verus!
