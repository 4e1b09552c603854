//! The region-counting policy: greedy tiers refined by how large a
//! region a wall opens.

use vstd::prelude::*;

use crate::ai::{
    MoveGenerator, WallStatistics, build_region_size_map, choose_wall_index,
    collect_wall_statistics, exists_tier, max_adj_spec, random_below, ws_matches,
};
use crate::game::Board;

verus! {

/// Like the greedy policy, but a box-completing wall is chosen to open
/// the largest region, and a forced risky wall to open the smallest,
/// both measured by forward simulation; ties are broken at random.
#[derive(Clone, Copy, Debug)]
pub struct RegionCountingPlayer {}

impl Default for RegionCountingPlayer {
    fn default() -> (r: Self)
        ensures
            r == (RegionCountingPlayer {  }),
    {
        RegionCountingPlayer {  }
    }
}

/// Among the measured walls, a uniformly random one of those whose
/// region size is the largest (or, with `prefer_large` false, the
/// smallest).
fn pick_by_region_size(sized: &Vec<(WallStatistics, usize)>, prefer_large: bool) -> (r:
    WallStatistics)
    requires
        sized@.len() > 0,
    ensures
        exists|k: int|
            0 <= k < sized@.len() && (#[trigger] sized@[k]).0 == r && (forall|j: int|
                0 <= j < sized@.len() ==> (if prefer_large {
                    (#[trigger] sized@[j]).1 <= sized@[k].1
                } else {
                    (#[trigger] sized@[j]).1 >= sized@[k].1
                })),
{
    let mut best: usize = sized[0].1;
    let mut i: usize = 1;
    while i < sized.len()
        invariant
            sized@.len() > 0,
            i <= sized@.len(),
            exists|k: int| 0 <= k < sized@.len() && (#[trigger] sized@[k]).1 == best,
            forall|j: int|
                0 <= j < i as int ==> (if prefer_large {
                    (#[trigger] sized@[j]).1 <= best
                } else {
                    (#[trigger] sized@[j]).1 >= best
                }),
        decreases sized@.len() - i,
    {
        let size = sized[i].1;
        if (prefer_large && size > best) || (!prefer_large && size < best) {
            best = size;
        }
        i = i + 1;
    }
    let mut candidates: Vec<WallStatistics> = Vec::new();
    let mut j: usize = 0;
    while j < sized.len()
        invariant
            j <= sized@.len(),
            forall|j: int|
                0 <= j < sized@.len() ==> (if prefer_large {
                    (#[trigger] sized@[j]).1 <= best
                } else {
                    (#[trigger] sized@[j]).1 >= best
                }),
            forall|k: int|
                0 <= k < candidates@.len() ==> sized@.contains(
                    ((#[trigger] candidates@[k]), best),
                ),
            forall|k: int|
                0 <= k < j as int && (#[trigger] sized@[k]).1 == best ==> candidates@.len() > 0,
        decreases sized@.len() - j,
    {
        if sized[j].1 == best {
            let ghost prev = candidates@;
            candidates.push(sized[j].0);
            proof {
                assert(forall|k: int|
                    0 <= k < prev.len() ==> #[trigger] candidates@[k] == prev[k]);
                assert(candidates@[candidates@.len() - 1] == sized@[j as int].0);
                assert(sized@[j as int] == (sized@[j as int].0, best));
                assert(sized@.contains((candidates@[candidates@.len() - 1], best)));
            }
        }
        j = j + 1;
    }
    proof {
        let k = choose|k: int| 0 <= k < sized@.len() && (#[trigger] sized@[k]).1 == best;
        assert(candidates@.len() > 0);
    }
    let idx = random_below(candidates.len());
    let picked = candidates[idx];
    proof {
        assert(sized@.contains((picked, best)));
        let k2 = choose|k2: int| 0 <= k2 < sized@.len() && sized@[k2] == (picked, best);
        assert(sized@[k2].0 == picked && sized@[k2].1 == best);
    }
    picked
}

impl RegionCountingPlayer {
    /// The region-counting move: `None` exactly on a finished board;
    /// otherwise an unclicked wall from the best non-empty counter
    /// tier, where the completing and risky tiers are refined by the
    /// simulated region size.
    pub fn next_move(&self, board: &Board) -> (r: Option<(usize, usize)>)
        requires
            board.wf(),
        ensures
            r is Some <==> !board@.all_clicked(),
            r matches Some(m) ==> {
                &&& board@.valid_wall(m.0 as int, m.1 as int)
                &&& !board@.clicked(m.0 as int, m.1 as int)
                &&& (exists_tier(board@, 3, 3) ==> max_adj_spec(board@, m.0 as int, m.1 as int)
                    == 3)
                &&& (!exists_tier(board@, 3, 3) && exists_tier(board@, 0, 1) ==> max_adj_spec(
                    board@,
                    m.0 as int,
                    m.1 as int,
                ) <= 1)
                &&& (!exists_tier(board@, 3, 3) && !exists_tier(board@, 0, 1) ==> max_adj_spec(
                    board@,
                    m.0 as int,
                    m.1 as int,
                ) == 2)
            },
    {
        let ghost v = board@;
        if board.all_is_clicked() {
            return None;
        }
        let walls = collect_wall_statistics(board);

        let completing = build_region_size_map(board, &walls, 3, 3);
        if completing.len() > 0 {
            let ws = pick_by_region_size(&completing, true);
            proof {
                let k = choose|k: int|
                    0 <= k < completing@.len() && (#[trigger] completing@[k]).0 == ws;
                assert(ws_matches(v, ws) && ws.max_adjacent_counter == 3);
                assert(exists_tier(v, 3, 3)) by {
                    assert(v.valid_wall(ws.row as int, ws.col as int) && !v.clicked(
                        ws.row as int,
                        ws.col as int,
                    ) && 3 <= max_adj_spec(v, ws.row as int, ws.col as int) <= 3);
                }
            }
            return Some((ws.row, ws.col));
        }
        proof {
            assert(!exists_tier(v, 3, 3)) by {
                if exists_tier(v, 3, 3) {
                    let (wr, wc) = choose|wr: int, wc: int|
                        v.valid_wall(wr, wc) && !(#[trigger] v.clicked(wr, wc)) && 3
                            <= max_adj_spec(v, wr, wc) <= 3;
                    let k = choose|k: int|
                        0 <= k < walls@.len() && (#[trigger] walls@[k]).row == wr && walls@[k].col
                            == wc;
                    assert(ws_matches(v, walls@[k]));
                    assert(3 <= walls@[k].max_adjacent_counter <= 3);
                    assert(exists|j: int|
                        0 <= j < completing@.len() && (#[trigger] completing@[j]).0 == walls@[k]);
                }
            }
        }

        if let Some(ws) = choose_wall_index(&walls, 0, 1) {
            proof {
                assert(ws_matches(v, ws)) by {
                    let k = choose|k: int| 0 <= k < walls@.len() && walls@[k] == ws;
                    assert(ws_matches(v, walls@[k]));
                }
            }
            return Some((ws.row, ws.col));
        }
        proof {
            assert(!exists_tier(v, 0, 1)) by {
                if exists_tier(v, 0, 1) {
                    let (wr, wc) = choose|wr: int, wc: int|
                        v.valid_wall(wr, wc) && !(#[trigger] v.clicked(wr, wc)) && 0
                            <= max_adj_spec(v, wr, wc) <= 1;
                    let k = choose|k: int|
                        0 <= k < walls@.len() && (#[trigger] walls@[k]).row == wr && walls@[k].col
                            == wc;
                    assert(ws_matches(v, walls@[k]));
                    assert(0 <= walls@[k].max_adjacent_counter <= 1);
                }
            }
        }

        let risky = build_region_size_map(board, &walls, 2, 2);
        if risky.len() > 0 {
            let ws = pick_by_region_size(&risky, false);
            proof {
                let k = choose|k: int| 0 <= k < risky@.len() && (#[trigger] risky@[k]).0 == ws;
                assert(ws_matches(v, ws) && ws.max_adjacent_counter == 2);
            }
            return Some((ws.row, ws.col));
        }

        // Unreachable: some wall is unclicked and every unclicked
        // wall's counter lies in one of the three tiers.
        proof {
            let (wr, wc) = choose|wr: int, wc: int|
                v.valid_wall(wr, wc) && !(#[trigger] v.clicked(wr, wc));
            let k = choose|k: int|
                0 <= k < walls@.len() && (#[trigger] walls@[k]).row == wr && walls@[k].col == wc;
            assert(ws_matches(v, walls@[k]) && walls@[k].max_adjacent_counter <= 3);
            if 2 <= walls@[k].max_adjacent_counter <= 2 {
                assert(exists|j: int|
                    0 <= j < risky@.len() && (#[trigger] risky@[j]).0 == walls@[k]);
            }
            assert(false);
        }
        None
    }
}

impl MoveGenerator for RegionCountingPlayer {
    /// The region-counting policy always finds a move when one exists.
    open spec fn complete_for(&self, board: Board) -> bool {
        true
    }

    fn next_move(&self, board: &Board) -> (r: Option<(usize, usize)>) {
        RegionCountingPlayer::next_move(self, board)
    }
}

} // verus!
