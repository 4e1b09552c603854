//! Computer opponents: policies that pick the next wall to click.

use vstd::prelude::*;

use crate::game::{
    Board, BoardV, Difficulty, Player, lemma_expected_cells_valid, lemma_score_conservation,
    lemma_unclicked_nonneg, unclicked_total,
};

pub mod greedy_algorithm_player;
pub mod minimax_player;
pub mod minmax_player;
pub mod region_counting_player;

verus! {

/// Search depth of the minimax opponents on the hardest difficulty.
pub const MAX_MINMAX_DEPTH: usize = 3;

/// The largest cell counter among the cells adjacent to wall `(r, c)`:
/// the single signal every policy reasons over.
pub open spec fn max_adj_spec(v: BoardV, r: int, c: int) -> int {
    let s = v.expected_cells(r, c);
    if s.len() == 1 {
        v.cells[s[0].0 as int][s[0].1 as int].counter as int
    } else {
        let c0 = v.cells[s[0].0 as int][s[0].1 as int].counter as int;
        let c1 = v.cells[s[1].0 as int][s[1].1 as int].counter as int;
        if c0 >= c1 {
            c0
        } else {
            c1
        }
    }
}

/// One unclicked wall with the highest counter of its adjacent cells.
#[derive(Clone, Copy, Debug, PartialEq, Eq, Structural)]
pub struct WallStatistics {
    pub row: usize,
    pub col: usize,
    pub max_adjacent_counter: usize,
}

impl WallStatistics {
    pub fn new(row: usize, col: usize, max_adjacent_counter: usize) -> (r: Self)
        ensures
            r == (WallStatistics { row, col, max_adjacent_counter }),
    {
        WallStatistics { row, col, max_adjacent_counter }
    }
}

/// `ws` correctly describes one unclicked wall of the board.
pub open spec fn ws_matches(v: BoardV, ws: WallStatistics) -> bool {
    &&& v.valid_wall(ws.row as int, ws.col as int)
    &&& !v.clicked(ws.row as int, ws.col as int)
    &&& ws.max_adjacent_counter == max_adj_spec(v, ws.row as int, ws.col as int)
}

/// `a` lies strictly before position `(r, c)` in scan order: walls are
/// scanned row by row and, within a row, column by column.
pub open spec fn ws_scan_before(a: WallStatistics, r: int, c: int) -> bool {
    (a.row as int) < r || (a.row as int == r && (a.col as int) < c)
}

/// The entries come in strictly increasing scan order, so no wall
/// appears twice.
pub open spec fn ws_scan_ordered(s: Seq<WallStatistics>) -> bool {
    forall|k1: int, k2: int|
        0 <= k1 < k2 < s.len() ==> ws_scan_before(
            #[trigger] s[k1],
            (#[trigger] s[k2]).row as int,
            s[k2].col as int,
        )
}

/// Some unclicked wall of the board has its largest adjacent counter
/// between `lo` and `hi`.
pub open spec fn exists_tier(v: BoardV, lo: int, hi: int) -> bool {
    exists|r: int, c: int|
        v.valid_wall(r, c) && !(#[trigger] v.clicked(r, c)) && lo <= max_adj_spec(v, r, c) <= hi
}

/// Relies on quad_rand::gen_range: a 32-bit draw scaled into the
/// half-open range `[0, n)` stays strictly below `n`.
#[verifier::external_body]
fn random_below(n: usize) -> (r: usize)
    requires
        1 <= n,
    ensures
        r < n,
{
    quad_rand::gen_range(0, n)
}

/// The walls whose largest adjacent counter lies between `lo` and `hi`.
pub fn filter_walls(walls: &Vec<WallStatistics>, lo: usize, hi: usize) -> (r: Vec<WallStatistics>)
    ensures
        forall|k: int|
            0 <= k < r@.len() ==> walls@.contains(#[trigger] r@[k]) && lo
                <= r@[k].max_adjacent_counter <= hi,
        forall|k: int|
            0 <= k < walls@.len() && lo <= (#[trigger] walls@[k]).max_adjacent_counter <= hi
                ==> r@.contains(walls@[k]),
        ws_scan_ordered(walls@) ==> ws_scan_ordered(r@),
{
    let mut r: Vec<WallStatistics> = Vec::new();
    let mut i: usize = 0;
    while i < walls.len()
        invariant
            i <= walls@.len(),
            forall|k: int|
                0 <= k < r@.len() ==> walls@.contains(#[trigger] r@[k]) && lo
                    <= r@[k].max_adjacent_counter <= hi,
            forall|k: int|
                0 <= k < i as int && lo <= (#[trigger] walls@[k]).max_adjacent_counter <= hi
                    ==> r@.contains(walls@[k]),
            forall|k: int|
                0 <= k < r@.len() ==> exists|j: int|
                    0 <= j < i as int && walls@[j] == #[trigger] r@[k],
            ws_scan_ordered(walls@) ==> ws_scan_ordered(r@),
        decreases walls@.len() - i,
    {
        let ws = walls[i];
        if lo <= ws.max_adjacent_counter && ws.max_adjacent_counter <= hi {
            let ghost prev = r@;
            r.push(ws);
            proof {
                assert(walls@.contains(walls@[i as int]));
                assert(r@[r@.len() - 1] == walls@[i as int]);
                assert(forall|k: int| 0 <= k < prev.len() ==> #[trigger] r@[k] == prev[k]);
                assert forall|x: WallStatistics| prev.contains(x) implies r@.contains(x) by {
                    let ix = choose|ix: int| 0 <= ix < prev.len() && prev[ix] == x;
                    assert(r@[ix] == x);
                }
                if ws_scan_ordered(walls@) {
                    assert forall|k1: int, k2: int|
                        0 <= k1 < k2 < r@.len() implies ws_scan_before(
                        #[trigger] r@[k1],
                        (#[trigger] r@[k2]).row as int,
                        r@[k2].col as int,
                    ) by {
                        if k2 == r@.len() - 1 {
                            let j1 = choose|j1: int|
                                0 <= j1 < i as int && walls@[j1] == r@[k1];
                            assert(ws_scan_before(
                                walls@[j1],
                                walls@[i as int].row as int,
                                walls@[i as int].col as int,
                            ));
                        }
                    }
                }
            }
        }
        i = i + 1;
    }
    r
}

/// A uniformly random wall among those whose largest adjacent counter
/// lies between `lo` and `hi`; `None` exactly when there is none.
pub fn choose_wall_index(walls: &Vec<WallStatistics>, lo: usize, hi: usize) -> (r: Option<
    WallStatistics,
>)
    ensures
        r matches Some(ws) ==> walls@.contains(ws) && lo <= ws.max_adjacent_counter <= hi,
        r is Some <==> exists|k: int|
            0 <= k < walls@.len() && lo <= (#[trigger] walls@[k]).max_adjacent_counter <= hi,
{
    let candidates = filter_walls(walls, lo, hi);
    if candidates.len() == 0 {
        proof {
            assert forall|k: int|
                0 <= k < walls@.len() implies !(lo
                <= (#[trigger] walls@[k]).max_adjacent_counter <= hi) by {
                if lo <= walls@[k].max_adjacent_counter <= hi {
                    assert(candidates@.contains(walls@[k]));
                }
            }
        }
        None
    } else {
        let i = random_below(candidates.len());
        Some(candidates[i])
    }
}

/// Describe every unclicked wall of the board: its coordinates and the
/// largest counter among its adjacent cells.  The list is complete and
/// every entry's counter is at most 3.
#[verifier::rlimit(60)]
pub fn collect_wall_statistics(board: &Board) -> (r: Vec<WallStatistics>)
    requires
        board.wf(),
    ensures
        forall|k: int|
            0 <= k < r@.len() ==> ws_matches(board@, #[trigger] r@[k])
                && r@[k].max_adjacent_counter <= 3,
        forall|wr: int, wc: int|
            board@.valid_wall(wr, wc) && !board@.clicked(wr, wc) ==> exists|k: int|
                0 <= k < r@.len() && (#[trigger] r@[k]).row == wr && r@[k].col == wc,
        ws_scan_ordered(r@),
{
    let ghost v = board@;
    let mut r: Vec<WallStatistics> = Vec::new();
    let mut row: usize = 0;
    while row < board.walls.len()
        invariant
            board.wf(),
            v == board@,
            row <= board.walls@.len(),
            forall|k: int|
                0 <= k < r@.len() ==> ws_matches(v, #[trigger] r@[k])
                    && r@[k].max_adjacent_counter <= 3,
            forall|wr: int, wc: int|
                v.valid_wall(wr, wc) && wr < row as int && !v.clicked(wr, wc) ==> exists|k: int|
                    0 <= k < r@.len() && (#[trigger] r@[k]).row == wr && r@[k].col == wc,
            ws_scan_ordered(r@),
            forall|k: int| 0 <= k < r@.len() ==> ws_scan_before(#[trigger] r@[k], row as int, 0),
        decreases board.walls@.len() - row,
    {
        let mut col: usize = 0;
        while col < board.walls[row].len()
            invariant
                board.wf(),
                v == board@,
                row < board.walls@.len(),
                col <= board.walls@[row as int]@.len(),
                forall|k: int|
                    0 <= k < r@.len() ==> ws_matches(v, #[trigger] r@[k])
                        && r@[k].max_adjacent_counter <= 3,
                forall|wr: int, wc: int|
                    v.valid_wall(wr, wc) && wr < row as int && !v.clicked(wr, wc) ==> exists|k: int|
                        0 <= k < r@.len() && (#[trigger] r@[k]).row == wr && r@[k].col == wc,
                forall|wc: int|
                    0 <= wc < col as int && !v.clicked(row as int, wc) ==> exists|k: int|
                        0 <= k < r@.len() && (#[trigger] r@[k]).row == row as int && r@[k].col
                            == wc,
                ws_scan_ordered(r@),
                forall|k: int|
                    0 <= k < r@.len() ==> ws_scan_before(#[trigger] r@[k], row as int, col as int),
            decreases board.walls@[row as int]@.len() - col,
        {
            proof {
                assert(v.walls[row as int][col as int] == board.walls@[row as int]@[col as int]@);
                assert(v.valid_wall(row as int, col as int));
                lemma_expected_cells_valid(v, row as int, col as int);
            }
            if !board.walls[row][col].is_clicked {
                let wall = &board.walls[row][col];
                proof {
                    assert(wall@ == v.walls[row as int][col as int]);
                    assert(wall.adjacent_cells@ == v.expected_cells(row as int, col as int));
                    assert(board.cells@.len() == v.cells.len());
                    assert(forall|x: int|
                        0 <= x < v.cells.len() ==> (#[trigger] board.cells@[x])@.len()
                            == v.cells[x].len());
                }
                let (i0, j0) = wall.adjacent_cells[0];
                proof {
                    assert(v.valid_cell(i0 as int, j0 as int));
                    assert(board.cells@[i0 as int]@[j0 as int] == v.cells[i0 as int][j0 as int]);
                }
                let c0 = board.cells[i0][j0].counter;
                let mut max_counter = c0;
                if wall.adjacent_cells.len() > 1 {
                    let (i1, j1) = wall.adjacent_cells[1];
                    proof {
                        assert(v.valid_cell(i1 as int, j1 as int));
                        assert(board.cells@[i1 as int]@[j1 as int] == v.cells[i1 as int][j1
                            as int]);
                    }
                    let c1 = board.cells[i1][j1].counter;
                    if c1 > max_counter {
                        max_counter = c1;
                    }
                }
                proof {
                    let s = v.expected_cells(row as int, col as int);
                    assert(wall.adjacent_cells@ == s);
                    lemma_unclicked_neighbor_bound(v, row as int, col as int);
                    assert(max_counter as int == max_adj_spec(v, row as int, col as int));
                }
                let ghost prev = r@;
                r.push(WallStatistics::new(wall.id.0, wall.id.1, max_counter));
                proof {
                    assert(r@[r@.len() - 1].row == row as int && r@[r@.len() - 1].col
                        == col as int);
                    assert(forall|k: int| 0 <= k < prev.len() ==> #[trigger] r@[k] == prev[k]);
                    assert forall|wr: int, wc: int|
                        v.valid_wall(wr, wc) && wr < row as int && !v.clicked(wr, wc) implies
                    exists|k: int|
                        0 <= k < r@.len() && (#[trigger] r@[k]).row == wr && r@[k].col == wc by {
                        let k0 = choose|k0: int|
                            0 <= k0 < prev.len() && (#[trigger] prev[k0]).row == wr
                                && prev[k0].col == wc;
                        assert(r@[k0].row == wr && r@[k0].col == wc);
                    }
                    assert forall|wc: int|
                        0 <= wc < col as int && !v.clicked(row as int, wc) implies exists|k: int|
                        0 <= k < r@.len() && (#[trigger] r@[k]).row == row as int && r@[k].col
                            == wc by {
                        let k0 = choose|k0: int|
                            0 <= k0 < prev.len() && (#[trigger] prev[k0]).row == row as int
                                && prev[k0].col == wc;
                        assert(r@[k0].row == row as int && r@[k0].col == wc);
                    }
                }
            }
            col = col + 1;
        }
        row = row + 1;
    }
    r
}

/// Both neighbours of an unclicked wall have counters of at most 3.
proof fn lemma_unclicked_neighbor_bound(v: BoardV, r: int, c: int)
    requires
        v.wf(),
        v.valid_wall(r, c),
        !v.clicked(r, c),
    ensures
        forall|k: int|
            0 <= k < v.expected_cells(r, c).len() ==> (#[trigger] v.cells[v.expected_cells(
                r,
                c,
            )[k].0 as int][v.expected_cells(r, c)[k].1 as int]).counter <= 3,
{
    lemma_expected_cells_valid(v, r, c);
    assert forall|k: int|
        0 <= k < v.expected_cells(r, c).len() implies (#[trigger] v.cells[v.expected_cells(
        r,
        c,
    )[k].0 as int][v.expected_cells(r, c)[k].1 as int]).counter <= 3 by {
        let cell = v.expected_cells(r, c)[k];
        crate::game::lemma_unclicked_neighbor_counter(v, r, c, cell.0 as int, cell.1 as int);
    }
}

/// The largest adjacent counter of a wall is an upper bound for, and
/// is achieved by, the counters of the cells it touches.
#[verifier::rlimit(100)]
proof fn lemma_max_adj_achieved(v: BoardV, r: int, c: int)
    requires
        v.wf(),
        v.valid_wall(r, c),
    ensures
        exists|k: int|
            0 <= k < v.expected_cells(r, c).len() && v.cells[(#[trigger] v.expected_cells(
                r,
                c,
            )[k]).0 as int][v.expected_cells(r, c)[k].1 as int].counter == max_adj_spec(v, r, c),
        forall|k: int|
            0 <= k < v.expected_cells(r, c).len() ==> v.cells[(#[trigger] v.expected_cells(
                r,
                c,
            )[k]).0 as int][v.expected_cells(r, c)[k].1 as int].counter <= max_adj_spec(v, r, c),
{
    lemma_expected_cells_valid(v, r, c);
    let s = v.expected_cells(r, c);
    if s.len() == 1 {
        assert(v.cells[s[0].0 as int][s[0].1 as int].counter == max_adj_spec(v, r, c));
    } else {
        let c0 = v.cells[s[0].0 as int][s[0].1 as int].counter as int;
        let c1 = v.cells[s[1].0 as int][s[1].1 as int].counter as int;
        if c0 >= c1 {
            assert(v.cells[s[0].0 as int][s[0].1 as int].counter == max_adj_spec(v, r, c));
        } else {
            assert(v.cells[s[1].0 as int][s[1].1 as int].counter == max_adj_spec(v, r, c));
        }
    }
}

/// A wall whose largest adjacent counter is three completes a box.
proof fn lemma_max3_completes(v: BoardV, r: int, c: int)
    requires
        v.wf(),
        v.valid_wall(r, c),
        !v.clicked(r, c),
        max_adj_spec(v, r, c) == 3,
    ensures
        v.completes_any(r, c),
{
    lemma_max_adj_achieved(v, r, c);
    lemma_expected_cells_valid(v, r, c);
    let s = v.expected_cells(r, c);
    let k = choose|k: int|
        0 <= k < s.len() && v.cells[(#[trigger] s[k]).0 as int][s[k].1 as int].counter
            == max_adj_spec(v, r, c);
    let cell = s[k];
    assert(v.completes_cell(r, c, cell.0 as int, cell.1 as int));
}

/// A cell whose counter stands at three puts a box-completing wall on
/// offer: the board is not finished and the completing tier is
/// non-empty.
proof fn lemma_cell3_gives_tier3(v: BoardV, i: int, j: int)
    requires
        v.wf(),
        v.valid_cell(i, j),
        v.cells[i][j].counter == 3,
    ensures
        exists_tier(v, 3, 3),
        !v.all_clicked(),
{
    crate::game::lemma_count3_cell_has_unclicked_wall(v, i, j);
    let (r, c) = choose|r: int, c: int|
        v.valid_wall(r, c) && !(#[trigger] v.clicked(r, c)) && v.wall_touches_cell(r, c, i, j);
    crate::game::lemma_touch_iff_adjacent(v, r, c, i, j);
    lemma_max_adj_achieved(v, r, c);
    let s = v.expected_cells(r, c);
    assert(s.contains((i as usize, j as usize)));
    let k = choose|k: int| 0 <= k < s.len() && s[k] == (i as usize, j as usize);
    assert(v.cells[s[k].0 as int][s[k].1 as int].counter == 3);
    assert(max_adj_spec(v, r, c) >= 3);
    crate::game::lemma_unclicked_neighbor_counter(v, r, c, i, j);
    lemma_expected_cells_valid(v, r, c);
    assert(max_adj_spec(v, r, c) <= 3) by {
        let k2 = choose|k2: int|
            0 <= k2 < s.len() && v.cells[(#[trigger] s[k2]).0 as int][s[k2].1 as int].counter
                == max_adj_spec(v, r, c);
        crate::game::lemma_unclicked_neighbor_counter(
            v,
            r,
            c,
            s[k2].0 as int,
            s[k2].1 as int,
        );
    }
    assert(v.valid_wall(r, c) && !v.clicked(r, c) && 3 <= max_adj_spec(v, r, c) <= 3);
}

/// One step of the auto-play that measures a region: click the given
/// wall and, if the click completed a box, ask the greedy policy for
/// the follow-up move.  `None` means the run is over.
#[verifier::rlimit(100)]
fn greedy_auto_step(sim: &mut Board, row: usize, col: usize, player: Player) -> (r: Option<
    (usize, usize),
>)
    requires
        old(sim).wf(),
    ensures
        final(sim).wf(),
        final(sim)@.width == old(sim)@.width,
        final(sim)@.height == old(sim)@.height,
        old(sim)@.statistics.cpu_points <= final(sim)@.statistics.cpu_points,
        r is Some ==> unclicked_total(final(sim)@.walls) < unclicked_total(old(sim)@.walls),
        r is None ==> final(sim)@.statistics.cpu_points == old(sim)@.statistics.cpu_points,
        r is Some ==> old(sim)@.valid_wall(row as int, col as int) && !old(sim)@.clicked(
            row as int,
            col as int,
        ) && old(sim)@.completes_any(row as int, col as int),
        player == Player::CPU ==> final(sim)@.statistics.player1_points
            == old(sim)@.statistics.player1_points && final(sim)@.statistics.player2_points
            == old(sim)@.statistics.player2_points,
        old(sim)@.valid_wall(row as int, col as int) && !old(sim)@.clicked(row as int, col as int)
            && old(sim)@.completes_any(row as int, col as int) && player == Player::CPU ==> (
        r is Some && final(sim)@.statistics.cpu_points >= old(sim)@.statistics.cpu_points + 1),
{
    let ghost pre = sim@;
    let res = sim.click_wall(row, col, player);
    match res {
        Ok(true) => {
            proof {
                crate::game::lemma_click_decreases_unclicked(pre, sim@, row as int, col as int);
                assert(pre.completes_any(row as int, col as int));
                if player == Player::CPU {
                    crate::game::lemma_completes_delta_pos(pre, row as int, col as int);
                    assert(0 <= pre.completed_delta(row as int, col as int) <= 2);
                    assert(sim@.statistics.cpu_points >= pre.statistics.cpu_points + 1);
                }
            }
            let move_generator = greedy_algorithm_player::GreadyAlgorithmPlayer::default();
            match move_generator.next_move(sim) {
                Some(m) => Some(m),
                None => Some((row, col)),
            }
        },
        Ok(false) => {
            proof {
                if pre.valid_wall(row as int, col as int) && !pre.clicked(row as int, col as int) {
                    assert(!pre.completes_any(row as int, col as int));
                }
            }
            None
        },
        Err(_) => None,
    }
}

/// How many extra cells the CPU claims when it opens the region at
/// `wall`: clone the board, click the wall, and let the greedy policy
/// auto-play the run of bonus moves that follows.
///
/// The greedy tie-break is random, so the exact size cannot be
/// promised; what holds of every outcome is promised: the size never
/// exceeds the number of cells, and a wall that completes a box
/// (counter 3), or that raises a neighbour to three (counter 2) so
/// that the forced follow-up completes it, claims at least one cell.
/// The simulation always terminates because every successful click
/// removes one unclicked wall.
#[verifier::rlimit(100)]
pub fn find_region_size(board: &Board, wall: &WallStatistics) -> (r: usize)
    requires
        board.wf(),
        ws_matches(board@, *wall),
    ensures
        r <= board@.width * board@.height,
        wall.max_adjacent_counter == 3 ==> r >= 1,
        wall.max_adjacent_counter == 2 ==> r >= 1,
{
    let mut sim = board.clone();
    let mut row = wall.row;
    let mut col = wall.col;
    let player = Player::CPU;
    let move_generator = greedy_algorithm_player::GreadyAlgorithmPlayer::default();

    let starting_points = sim.statistics.cpu_points;
    proof {
        lemma_score_conservation(sim@);
    }
    // Whether the next click of the loop is known to complete a box,
    // and whether a point has already been banked.
    let ghost mut pending: bool = false;
    let ghost mut achieved: bool = false;
    proof {
        if wall.max_adjacent_counter == 3 {
            lemma_max3_completes(sim@, row as int, col as int);
            pending = true;
        }
    }
    if wall.max_adjacent_counter == 2 {
        let ghost pre0 = sim@;
        let first = sim.click_wall(row, col, player);
        if first.is_ok() {
            proof {
                // The opened neighbour now stands at three, so the
                // greedy follow-up is a box-completing wall.
                lemma_max_adj_achieved(pre0, row as int, col as int);
                lemma_expected_cells_valid(pre0, row as int, col as int);
                let s = pre0.expected_cells(row as int, col as int);
                let k = choose|k: int|
                    0 <= k < s.len() && pre0.cells[(#[trigger] s[k]).0 as int][s[k].1
                        as int].counter == max_adj_spec(pre0, row as int, col as int);
                crate::game::lemma_click_raises_touched_counter(
                    pre0,
                    sim@,
                    row as int,
                    col as int,
                    s[k].0 as int,
                    s[k].1 as int,
                );
                lemma_cell3_gives_tier3(sim@, s[k].0 as int, s[k].1 as int);
            }
            if let Some((r2, c2)) = move_generator.next_move(&sim) {
                row = r2;
                col = c2;
                proof {
                    lemma_max3_completes(sim@, row as int, col as int);
                    pending = true;
                }
            } else {
                proof {
                    assert(false);
                }
            }
        } else {
            proof {
                assert(false);
            }
        }
    }
    loop
        invariant
            sim.wf(),
            sim@.width == board@.width,
            sim@.height == board@.height,
            player == Player::CPU,
            starting_points <= sim@.statistics.cpu_points,
            achieved ==> starting_points + 1 <= sim@.statistics.cpu_points,
            pending ==> sim@.valid_wall(row as int, col as int) && !sim@.clicked(
                row as int,
                col as int,
            ) && sim@.completes_any(row as int, col as int),
            (wall.max_adjacent_counter == 3 || wall.max_adjacent_counter == 2) ==> (pending
                || achieved),
        ensures
            sim.wf(),
            sim@.width == board@.width,
            sim@.height == board@.height,
            starting_points <= sim@.statistics.cpu_points,
            (wall.max_adjacent_counter == 3 || wall.max_adjacent_counter == 2)
                ==> starting_points + 1 <= sim@.statistics.cpu_points,
        decreases unclicked_total(sim@.walls),
    {
        proof {
            lemma_unclicked_nonneg(sim@.walls);
        }
        let ghost was_pending = pending;
        let ghost pre_points = sim@.statistics.cpu_points;
        match greedy_auto_step(&mut sim, row, col, player) {
            Some((r2, c2)) => {
                proof {
                    lemma_unclicked_nonneg(sim@.walls);
                    if was_pending {
                        achieved = true;
                    }
                    pending = false;
                }
                row = r2;
                col = c2;
            },
            None => {
                proof {
                    if was_pending {
                        assert(false);
                    }
                }
                break;
            },
        }
    }
    proof {
        lemma_score_conservation(sim@);
    }
    sim.statistics.cpu_points - starting_points
}

/// For every wall of the tier between `lo` and `hi`, the size of the
/// region that opening it yields, measured by simulation.
#[verifier::rlimit(100)]
pub fn build_region_size_map(
    board: &Board,
    walls: &Vec<WallStatistics>,
    lo: usize,
    hi: usize,
) -> (r: Vec<(WallStatistics, usize)>)
    requires
        board.wf(),
        forall|k: int| 0 <= k < walls@.len() ==> ws_matches(board@, #[trigger] walls@[k]),
    ensures
        forall|k: int|
            0 <= k < r@.len() ==> ws_matches(board@, (#[trigger] r@[k]).0) && lo
                <= r@[k].0.max_adjacent_counter <= hi,
        forall|k: int|
            0 <= k < r@.len() ==> (#[trigger] r@[k]).1 <= board@.width * board@.height && ((
            r@[k].0.max_adjacent_counter == 3 || r@[k].0.max_adjacent_counter == 2) ==> r@[k].1
                >= 1),
        forall|k: int|
            0 <= k < walls@.len() && lo <= (#[trigger] walls@[k]).max_adjacent_counter <= hi
                ==> exists|j: int| 0 <= j < r@.len() && (#[trigger] r@[j]).0 == walls@[k],
        ws_scan_ordered(walls@) ==> forall|k1: int, k2: int|
            0 <= k1 < k2 < r@.len() ==> (#[trigger] r@[k1]).0 != (#[trigger] r@[k2]).0,
{
    let mut r: Vec<(WallStatistics, usize)> = Vec::new();
    let mut i: usize = 0;
    while i < walls.len()
        invariant
            board.wf(),
            forall|k: int| 0 <= k < walls@.len() ==> ws_matches(board@, #[trigger] walls@[k]),
            i <= walls@.len(),
            forall|k: int|
                0 <= k < r@.len() ==> ws_matches(board@, (#[trigger] r@[k]).0) && lo
                    <= r@[k].0.max_adjacent_counter <= hi,
            forall|k: int|
                0 <= k < r@.len() ==> (#[trigger] r@[k]).1 <= board@.width * board@.height && ((
                r@[k].0.max_adjacent_counter == 3 || r@[k].0.max_adjacent_counter == 2)
                    ==> r@[k].1 >= 1),
            forall|k: int|
                0 <= k < i as int && lo <= (#[trigger] walls@[k]).max_adjacent_counter <= hi
                    ==> exists|j: int| 0 <= j < r@.len() && (#[trigger] r@[j]).0 == walls@[k],
            forall|k: int|
                0 <= k < r@.len() ==> exists|j: int|
                    0 <= j < i as int && walls@[j] == (#[trigger] r@[k]).0,
            ws_scan_ordered(walls@) ==> forall|k1: int, k2: int|
                0 <= k1 < k2 < r@.len() ==> (#[trigger] r@[k1]).0 != (#[trigger] r@[k2]).0,
        decreases walls@.len() - i,
    {
        let ws = walls[i];
        if lo <= ws.max_adjacent_counter && ws.max_adjacent_counter <= hi {
            let size = find_region_size(board, &ws);
            let ghost prev = r@;
            r.push((ws, size));
            proof {
                assert(forall|k: int| 0 <= k < prev.len() ==> #[trigger] r@[k] == prev[k]);
                assert(r@[r@.len() - 1].0 == walls@[i as int]);
                if ws_scan_ordered(walls@) {
                    assert forall|k1: int, k2: int|
                        0 <= k1 < k2 < r@.len() implies (#[trigger] r@[k1]).0 != (
                    #[trigger] r@[k2]).0 by {
                        if k2 == r@.len() - 1 {
                            let j1 = choose|j1: int|
                                0 <= j1 < i as int && walls@[j1] == r@[k1].0;
                            assert(ws_scan_before(
                                walls@[j1],
                                walls@[i as int].row as int,
                                walls@[i as int].col as int,
                            ));
                        }
                    }
                }
                assert forall|k: int|
                    0 <= k < i as int + 1 && lo <= (#[trigger] walls@[k]).max_adjacent_counter
                        <= hi implies exists|j: int|
                    0 <= j < r@.len() && (#[trigger] r@[j]).0 == walls@[k] by {
                    if k < i as int {
                        let j0 = choose|j0: int|
                            0 <= j0 < prev.len() && (#[trigger] prev[j0]).0 == walls@[k];
                        assert(r@[j0].0 == walls@[k]);
                    } else {
                        assert(r@[r@.len() - 1].0 == walls@[k]);
                    }
                }
            }
        }
        i = i + 1;
    }
    r
}

/// The canonical preference order over counter classes: box-completing
/// walls first, safe walls second, risky walls last.
pub open spec fn wall_priority_spec(m: int) -> int {
    if m == 3 {
        0int
    } else if m <= 1 {
        1int
    } else {
        2int
    }
}

/// The preference rank of a wall: 0 for counter 3, 1 for counters 0
/// and 1, 2 for counter 2.
pub fn wall_priority(ws: &WallStatistics) -> (r: usize)
    requires
        ws.max_adjacent_counter <= 3,
    ensures
        r == wall_priority_spec(ws.max_adjacent_counter as int),
{
    if ws.max_adjacent_counter == 3 {
        0
    } else if ws.max_adjacent_counter <= 1 {
        1
    } else {
        2
    }
}

/// A policy that picks the next wall to click.
///
/// Every policy returns `None` on a finished board and only ever
/// proposes a wall that has not been clicked; a policy whose
/// `complete_for` holds for a board is guaranteed to propose a move
/// whenever one exists.
pub trait MoveGenerator {
    /// Whether this policy always finds a move on this board.
    spec fn complete_for(&self, board: Board) -> bool;

    fn next_move(&self, board: &Board) -> (r: Option<(usize, usize)>)
        requires
            board.wf(),
        ensures
            board@.all_clicked() ==> r is None,
            r matches Some(m) ==> board@.valid_wall(m.0 as int, m.1 as int) && !board@.clicked(
                m.0 as int,
                m.1 as int,
            ),
            self.complete_for(*board) && !board@.all_clicked() ==> r is Some,
    ;
}

/// The game mode chosen in the menu: against the machine or between
/// two people at one screen.
#[derive(Clone, Debug)]
pub enum GameMode {
    OnePlayer(CpuPlayer),
    TwoPlayer,
}

/// The machine opponent for a difficulty level.
#[derive(Clone, Copy, Debug)]
pub enum CpuPlayer {
    Greedy(greedy_algorithm_player::GreadyAlgorithmPlayer),
    RegionCounting(region_counting_player::RegionCountingPlayer),
    Minmax(minmax_player::MinmaxPlayer),
}

/// The policy for a difficulty level: greedy on easy, region counting
/// on medium, memoized minimax on hard.
pub fn get_cpu_player(difficulty: &Difficulty) -> (r: CpuPlayer)
    ensures
        *difficulty == Difficulty::Easy ==> r is Greedy,
        *difficulty == Difficulty::Medium ==> r is RegionCounting,
        *difficulty == Difficulty::Hard ==> (r matches CpuPlayer::Minmax(p) && p.max_depth
            == MAX_MINMAX_DEPTH),
{
    match difficulty {
        Difficulty::Easy => CpuPlayer::Greedy(
            greedy_algorithm_player::GreadyAlgorithmPlayer::default(),
        ),
        Difficulty::Medium => CpuPlayer::RegionCounting(
            region_counting_player::RegionCountingPlayer::default(),
        ),
        Difficulty::Hard => CpuPlayer::Minmax(minmax_player::MinmaxPlayer::new()),
    }
}

impl MoveGenerator for CpuPlayer {
    open spec fn complete_for(&self, board: Board) -> bool {
        match *self {
            CpuPlayer::Greedy(p) => p.complete_for(board),
            CpuPlayer::RegionCounting(p) => p.complete_for(board),
            CpuPlayer::Minmax(p) => p.complete_for(board),
        }
    }

    fn next_move(&self, board: &Board) -> (r: Option<(usize, usize)>) {
        match self {
            CpuPlayer::Greedy(p) => p.next_move(board),
            CpuPlayer::RegionCounting(p) => p.next_move(board),
            CpuPlayer::Minmax(p) => p.next_move(board),
        }
    }
}

} // verus!
