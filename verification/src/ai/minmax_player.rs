//! The memoized minimax policy: depth-limited adversarial search with
//! alpha-beta pruning and a transposition table.

use std::collections::HashMap;
use std::collections::hash_map::DefaultHasher;
use std::hash::Hasher;

use vstd::std_specs::hash::DefaultHasherAdditionalSpecFns;

use vstd::prelude::*;

use crate::ai::{
    MAX_MINMAX_DEPTH, MoveGenerator, choose_wall_index, collect_wall_statistics, random_below,
    ws_matches,
};
use crate::game::{
    Board, BoardV, Cell, Player, WallV, lemma_click_decreases_unclicked,
    lemma_score_conservation, lemma_unclicked_nonneg, unclicked_total,
};
use crate::ai::minimax_player::available_moves;

verus! {

/// The transposition table: a state hash mapped to the best result
/// computed for that state.
pub type MinmaxCache = HashMap<u64, MinmaxBestMoves>;

/// `(r, c)` addresses a wall of a `width` by `height` board.
pub open spec fn valid_wall_coord(width: int, height: int, r: int, c: int) -> bool {
    0 <= r <= 2 * height && 0 <= c < (if r % 2 == 0 {
        width
    } else {
        width + 1
    })
}

/// What the search maintains about every transposition-table entry:
/// scores stay within the evaluation range and recorded moves address
/// walls of the board's grid.  The clicked state of those walls is
/// deliberately not claimed: a hash collision can pair an entry with
/// the wrong position, so the user of an entry re-checks its moves.
pub open spec fn cache_entries_ok(c: Map<u64, MinmaxBestMoves>, width: int, height: int) -> bool {
    forall|h: u64|
        #[trigger] c.dom().contains(h) ==> {
            &&& -(width * height) <= c[h].score <= width * height
            &&& forall|k: int|
                0 <= k < c[h].moves@.len() ==> valid_wall_coord(
                    width,
                    height,
                    (#[trigger] c[h].moves@[k]).0 as int,
                    c[h].moves@[k].1 as int,
                )
        }
}

/// The best score found for a node together with every move that
/// reaches it.
#[derive(Debug)]
pub struct MinmaxBestMoves {
    pub score: i32,
    pub moves: Vec<(usize, usize)>,
}

/// Copy a list of moves element by element.
fn copy_moves(v: &[(usize, usize)]) -> (r: Vec<(usize, usize)>)
    ensures
        r@ == v@,
{
    let mut r: Vec<(usize, usize)> = Vec::new();
    let mut i: usize = 0;
    while i < v.len()
        invariant
            i <= v@.len(),
            r@ == v@.subrange(0, i as int),
        decreases v@.len() - i,
    {
        r.push(v[i]);
        i = i + 1;
        proof {
            assert(r@ =~= v@.subrange(0, i as int));
        }
    }
    proof {
        assert(r@ =~= v@);
    }
    r
}

impl MinmaxBestMoves {
    pub fn new(score: i32, moves: &[(usize, usize)]) -> (r: Self)
        ensures
            r.score == score,
            r.moves@ == moves@,
    {
        MinmaxBestMoves { score, moves: copy_moves(moves) }
    }
}

impl Clone for MinmaxBestMoves {
    fn clone(&self) -> (r: Self)
        ensures
            r.score == self.score,
            r.moves@ == self.moves@,
    {
        MinmaxBestMoves { score: self.score, moves: copy_moves(self.moves.as_slice()) }
    }
}

/// One node of the search: the remaining depth, whose turn it is in
/// the adversarial framing, and the mover's identity.
#[derive(Clone, Copy, Debug)]
pub struct MinmaxParamters {
    pub depth: usize,
    pub is_maximizing_player: bool,
    pub player: Player,
}

impl MinmaxParamters {
    pub fn new(depth: usize, is_maximizing_player: bool, player: Player) -> (r: Self)
        ensures
            r == (MinmaxParamters { depth, is_maximizing_player, player }),
    {
        MinmaxParamters { depth, is_maximizing_player, player }
    }
}

/// One byte per owner: 0 unowned, then the three parties in order.
pub open spec fn owner_byte(owner: Option<Player>) -> u8 {
    match owner {
        None => 0u8,
        Some(Player::Player1) => 1u8,
        Some(Player::Player2) => 2u8,
        Some(Player::CPU) => 3u8,
    }
}

/// One byte per party.
pub open spec fn player_byte(p: Player) -> u8 {
    match p {
        Player::Player1 => 1u8,
        Player::Player2 => 2u8,
        Player::CPU => 3u8,
    }
}

/// The clicked bits of the first `n` walls of one row, one byte each.
pub open spec fn wall_row_bytes(row: Seq<WallV>, n: int) -> Seq<u8>
    decreases n,
{
    if n <= 0 {
        Seq::<u8>::empty()
    } else {
        wall_row_bytes(row, n - 1).push(
            if row[n - 1].is_clicked {
                1u8
            } else {
                0u8
            },
        )
    }
}

/// The clicked bits of the first `n` wall rows, row-major.
pub open spec fn walls_bytes(walls: Seq<Seq<WallV>>, n: int) -> Seq<u8>
    decreases n,
{
    if n <= 0 {
        Seq::<u8>::empty()
    } else {
        walls_bytes(walls, n - 1) + wall_row_bytes(walls[n - 1], walls[n - 1].len() as int)
    }
}

/// The owners of the first `n` cells of one row, one byte each.
pub open spec fn cell_row_bytes(row: Seq<Cell>, n: int) -> Seq<u8>
    decreases n,
{
    if n <= 0 {
        Seq::<u8>::empty()
    } else {
        cell_row_bytes(row, n - 1).push(owner_byte(row[n - 1].owner))
    }
}

/// The owners of the first `n` cell rows, row-major.
pub open spec fn cells_bytes(cells: Seq<Seq<Cell>>, n: int) -> Seq<u8>
    decreases n,
{
    if n <= 0 {
        Seq::<u8>::empty()
    } else {
        cells_bytes(cells, n - 1) + cell_row_bytes(cells[n - 1], cells[n - 1].len() as int)
    }
}

/// `k` little-endian base-256 digits of `d`.
pub open spec fn depth_bytes(d: int, k: int) -> Seq<u8>
    decreases k,
{
    if k <= 0 {
        Seq::<u8>::empty()
    } else {
        seq![(d % 256) as u8] + depth_bytes(d / 256, k - 1)
    }
}

/// The serialized search node: a function of exactly the walls'
/// clicked bits and the cells' owners in row-major order, the
/// remaining depth, the maximizing flag and the mover - the five
/// fields whose omission would let different nodes collide
/// systematically.
pub open spec fn state_bytes_spec(v: BoardV, params: MinmaxParamters) -> Seq<u8> {
    walls_bytes(v.walls, v.walls.len() as int) + cells_bytes(v.cells, v.cells.len() as int)
        + depth_bytes(params.depth as int, 8) + seq![
        if params.is_maximizing_player {
            1u8
        } else {
            0u8
        },
        player_byte(params.player),
    ]
}

/// The transposition key of a search node: the standard hasher's
/// digest of the serialized state, hence itself a deterministic
/// function of exactly those five fields.
pub open spec fn hash_state_spec(v: BoardV, params: MinmaxParamters) -> u64 {
    DefaultHasher::spec_finish(seq![state_bytes_spec(v, params)])
}

/// Serialize the search node for the transposition table, exactly
/// [`state_bytes_spec`].
#[verifier::rlimit(100)]
fn state_bytes(board: &Board, params: MinmaxParamters) -> (r: Vec<u8>)
    requires
        board.wf(),
    ensures
        r@ == state_bytes_spec(board@, params),
{
    let ghost v = board@;
    let mut bytes: Vec<u8> = Vec::new();
    let mut row: usize = 0;
    while row < board.walls.len()
        invariant
            board.wf(),
            v == board@,
            row <= board.walls@.len(),
            bytes@ == walls_bytes(v.walls, row as int),
        decreases board.walls@.len() - row,
    {
        let mut col: usize = 0;
        while col < board.walls[row].len()
            invariant
                board.wf(),
                v == board@,
                row < board.walls@.len(),
                col <= board.walls@[row as int]@.len(),
                bytes@ == walls_bytes(v.walls, row as int) + wall_row_bytes(
                    v.walls[row as int],
                    col as int,
                ),
            decreases board.walls@[row as int]@.len() - col,
        {
            proof {
                assert(board.walls@[row as int]@[col as int]@ == v.walls[row as int][col as int]);
            }
            if board.walls[row][col].is_clicked {
                bytes.push(1);
            } else {
                bytes.push(0);
            }
            col = col + 1;
            proof {
                assert(bytes@ =~= walls_bytes(v.walls, row as int) + wall_row_bytes(
                    v.walls[row as int],
                    col as int,
                ));
            }
        }
        row = row + 1;
        proof {
            assert(board.walls@[row as int - 1]@.len() == v.walls[row as int - 1].len());
            assert(bytes@ =~= walls_bytes(v.walls, row as int));
        }
    }
    proof {
        assert(board.walls@.len() == v.walls.len());
    }
    let ghost walls_part = bytes@;
    let mut i: usize = 0;
    while i < board.cells.len()
        invariant
            board.wf(),
            v == board@,
            i <= board.cells@.len(),
            bytes@ == walls_part + cells_bytes(v.cells, i as int),
        decreases board.cells@.len() - i,
    {
        let mut j: usize = 0;
        while j < board.cells[i].len()
            invariant
                board.wf(),
                v == board@,
                i < board.cells@.len(),
                j <= board.cells@[i as int]@.len(),
                bytes@ == walls_part + cells_bytes(v.cells, i as int) + cell_row_bytes(
                    v.cells[i as int],
                    j as int,
                ),
            decreases board.cells@[i as int]@.len() - j,
        {
            proof {
                assert(board.cells@[i as int]@[j as int] == v.cells[i as int][j as int]);
            }
            match board.cells[i][j].owner {
                None => bytes.push(0),
                Some(Player::Player1) => bytes.push(1),
                Some(Player::Player2) => bytes.push(2),
                Some(Player::CPU) => bytes.push(3),
            }
            j = j + 1;
            proof {
                assert(bytes@ =~= walls_part + cells_bytes(v.cells, i as int) + cell_row_bytes(
                    v.cells[i as int],
                    j as int,
                ));
            }
        }
        i = i + 1;
        proof {
            assert(board.cells@[i as int - 1]@.len() == v.cells[i as int - 1].len());
            assert(bytes@ =~= walls_part + cells_bytes(v.cells, i as int));
        }
    }
    proof {
        assert(board.cells@.len() == v.cells.len());
    }
    let ghost grid_part = bytes@;
    let ghost depth0 = params.depth as int;
    let mut depth = params.depth;
    let mut k: usize = 0;
    while k < 8
        invariant
            k <= 8,
            bytes@ + depth_bytes(depth as int, 8 - k as int) == grid_part + depth_bytes(depth0, 8),
        decreases 8 - k,
    {
        bytes.push((depth % 256) as u8);
        depth = depth / 256;
        k = k + 1;
        proof {
            assert(bytes@ + depth_bytes(depth as int, 8 - k as int) =~= grid_part + depth_bytes(
                depth0,
                8,
            ));
        }
    }
    proof {
        assert(bytes@ =~= grid_part + depth_bytes(depth0, 8));
    }
    if params.is_maximizing_player {
        bytes.push(1);
    } else {
        bytes.push(0);
    }
    match params.player {
        Player::Player1 => bytes.push(1),
        Player::Player2 => bytes.push(2),
        Player::CPU => bytes.push(3),
    }
    proof {
        assert(bytes@ =~= state_bytes_spec(v, params));
    }
    bytes
}

/// Relies on std's DefaultHasher as specified by vstd: the digest is
/// a function of the written bytes, so the key is a deterministic
/// function of exactly the serialized fields.
fn hash_state(board: &Board, params: MinmaxParamters) -> (r: u64)
    requires
        board.wf(),
    ensures
        r == hash_state_spec(board@, params),
{
    let bytes = state_bytes(board, params);
    let mut hasher = DefaultHasher::new();
    hasher.write(bytes.as_slice());
    proof {
        assert(hasher@ =~= seq![state_bytes_spec(board@, params)]);
    }
    hasher.finish()
}

/// Depth-limited minimax with alpha-beta pruning and a transposition
/// table, fresh per top-level move request.
#[derive(Clone, Copy, Debug)]
pub struct MinmaxPlayer {
    pub max_depth: usize,
}

impl Default for MinmaxPlayer {
    fn default() -> (r: Self)
        ensures
            r.max_depth == MAX_MINMAX_DEPTH,
    {
        MinmaxPlayer { max_depth: MAX_MINMAX_DEPTH }
    }
}

impl MinmaxPlayer {
    pub fn new() -> (r: Self)
        ensures
            r.max_depth == MAX_MINMAX_DEPTH,
    {
        MinmaxPlayer { max_depth: MAX_MINMAX_DEPTH }
    }

    /// Leaf evaluation: the CPU's lead over the human, in points.
    fn evaluate(&self, board: &Board) -> (r: i32)
        requires
            board.wf(),
            board@.width * board@.height <= i32::MAX,
        ensures
            r == board@.statistics.cpu_points - board@.statistics.player1_points,
            -(board@.width * board@.height) <= r <= board@.width * board@.height,
    {
        proof {
            lemma_score_conservation(board@);
        }
        let stats = board.get_statistics();
        (stats.cpu_points as i32) - (stats.player1_points as i32)
    }

    /// The search.  A move that completes a box keeps the depth, the
    /// maximizing flag and the mover; a normal move spends one level
    /// of depth and hands the turn to the opponent.  Pruning uses the
    /// strict cutoff `beta < alpha`, consistently in both branches.  Every node looks
    /// its hash up in the table before doing any work and stores its
    /// result afterwards; a hash collision can hand back moves that
    /// do not fit the board, so the caller re-checks them.
    #[verifier::rlimit(100)]
    fn minmax(
        &self,
        board: &Board,
        params: MinmaxParamters,
        alpha: i32,
        beta: i32,
        cache: &mut MinmaxCache,
    ) -> (r: MinmaxBestMoves)
        requires
            board.wf(),
            board@.width * board@.height < i32::MAX,
            params.player != Player::Player2,
            cache_entries_ok(old(cache)@, board@.width, board@.height),
        ensures
            cache_entries_ok(final(cache)@, board@.width, board@.height),
            -(board@.width * board@.height) <= r.score <= board@.width * board@.height,
            forall|k: int|
                0 <= k < r.moves@.len() ==> valid_wall_coord(
                    board@.width,
                    board@.height,
                    (#[trigger] r.moves@[k]).0 as int,
                    r.moves@[k].1 as int,
                ),
            old(cache)@.dom().subset_of(final(cache)@.dom()),
            final(cache)@.dom().contains(hash_state_spec(board@, params)),
            final(cache)@[hash_state_spec(board@, params)].score == r.score,
            final(cache)@[hash_state_spec(board@, params)].moves@ == r.moves@,
            old(cache)@.dom().contains(hash_state_spec(board@, params)) ==> {
                &&& final(cache)@ == old(cache)@
                &&& r.score == old(cache)@[hash_state_spec(board@, params)].score
                &&& r.moves@ == old(cache)@[hash_state_spec(board@, params)].moves@
            },
            (params.depth == 0 || board@.all_clicked()) && !old(cache)@.dom().contains(
                hash_state_spec(board@, params),
            ) ==> r.score == board@.statistics.cpu_points - board@.statistics.player1_points
                && r.moves@.len() == 0,
        decreases params.depth, unclicked_total(board@.walls),
    {
        let ghost v = board@;
        let ghost wh = v.width * v.height;
        let hash = hash_state(board, params);
        if let Some(result) = cache.get(&hash) {
            proof {
                assert(cache@.dom().contains(hash));
                assert(cache@[hash] == *result);
            }
            return result.clone();
        }
        proof {
            assert(!cache@.dom().contains(hash));
        }

        if params.depth == 0 || board.all_is_clicked() {
            let result = MinmaxBestMoves::new(self.evaluate(board), &[]);
            let reply = result.clone();
            let ghost pre_cache = cache@;
            cache.insert(hash, result);
            proof {
                assert forall|h: u64| #[trigger] cache@.dom().contains(h) implies {
                    &&& -wh <= cache@[h].score <= wh
                    &&& forall|k: int|
                        0 <= k < cache@[h].moves@.len() ==> valid_wall_coord(
                            v.width,
                            v.height,
                            (#[trigger] cache@[h].moves@[k]).0 as int,
                            cache@[h].moves@[k].1 as int,
                        )
                } by {
                    if h != hash {
                        assert(pre_cache.dom().contains(h));
                    }
                }
            }
            return reply;
        }

        let mut best_score: i32 = if params.is_maximizing_player {
            i32::MIN
        } else {
            i32::MAX
        };
        let mut best_moves: Vec<(usize, usize)> = Vec::new();
        let mut alpha = alpha;
        let mut beta = beta;

        let moves = available_moves(board);
        proof {
            let (wr, wc) = choose|wr: int, wc: int|
                v.valid_wall(wr, wc) && !(#[trigger] v.clicked(wr, wc));
            assert(exists|k: int|
                0 <= k < moves@.len() && (#[trigger] moves@[k]).0 == wr && moves@[k].1 == wc);
            assert(moves@.len() > 0);
        }
        let ghost dom0 = cache@.dom();
        let mut idx: usize = 0;
        while idx < moves.len()
            invariant_except_break
                board.wf(),
                v == board@,
                wh == v.width * v.height,
                wh < i32::MAX,
                params.player != Player::Player2,
                params.depth >= 1,
                moves@.len() > 0,
                idx <= moves@.len(),
                forall|k: int|
                    0 <= k < moves@.len() ==> v.valid_wall((#[trigger] moves@[k]).0 as int,
                    moves@[k].1 as int) && !v.clicked(moves@[k].0 as int, moves@[k].1 as int),
                cache_entries_ok(cache@, v.width, v.height),
                dom0.subset_of(cache@.dom()),
                idx > 0 ==> -wh <= best_score <= wh,
                idx == 0 ==> best_score == (if params.is_maximizing_player {
                    i32::MIN
                } else {
                    i32::MAX
                }),
                forall|k: int|
                    0 <= k < best_moves@.len() ==> valid_wall_coord(
                        v.width,
                        v.height,
                        (#[trigger] best_moves@[k]).0 as int,
                        best_moves@[k].1 as int,
                    ),
            ensures
                cache_entries_ok(cache@, v.width, v.height),
                dom0.subset_of(cache@.dom()),
                -wh <= best_score <= wh,
                forall|k: int|
                    0 <= k < best_moves@.len() ==> valid_wall_coord(
                        v.width,
                        v.height,
                        (#[trigger] best_moves@[k]).0 as int,
                        best_moves@[k].1 as int,
                    ),
            decreases moves@.len() - idx,
        {
            let ghost pre_dom = cache@.dom();
            let (row, col) = moves[idx];
            let mut new_board = board.clone();
            let ghost pre = new_board@;
            let click = new_board.click_wall(row, col, params.player);
            let additional_move = match click {
                Ok(b) => b,
                Err(_) => {
                    proof {
                        assert(false);
                    }
                    false
                },
            };

            let cur_best = if additional_move {
                proof {
                    lemma_click_decreases_unclicked(pre, new_board@, row as int, col as int);
                    lemma_unclicked_nonneg(new_board@.walls);
                }
                self.minmax(
                    &new_board,
                    MinmaxParamters::new(
                        params.depth,
                        params.is_maximizing_player,
                        params.player,
                    ),
                    alpha,
                    beta,
                    cache,
                )
            } else {
                self.minmax(
                    &new_board,
                    MinmaxParamters::new(
                        params.depth - 1,
                        !params.is_maximizing_player,
                        params.player.opponent(),
                    ),
                    alpha,
                    beta,
                    cache,
                )
            };

            proof {
                assert(dom0.subset_of(cache@.dom())) by {
                    assert forall|h: u64| dom0.contains(h) implies cache@.dom().contains(
                        h,
                    ) by {
                        assert(pre_dom.contains(h));
                    }
                }
            }
            if cur_best.score == best_score {
                best_moves.push((row, col));
            }
            if params.is_maximizing_player {
                if cur_best.score > best_score {
                    best_score = cur_best.score;
                    best_moves = Vec::new();
                    best_moves.push((row, col));
                    alpha = if alpha >= best_score {
                        alpha
                    } else {
                        best_score
                    };
                    if beta < alpha {
                        idx = idx + 1;
                        break;
                    }
                }
            } else if cur_best.score < best_score {
                best_score = cur_best.score;
                best_moves = Vec::new();
                best_moves.push((row, col));
                beta = if beta <= best_score {
                    beta
                } else {
                    best_score
                };
                if beta < alpha {
                    idx = idx + 1;
                    break;
                }
            }
            idx = idx + 1;
        }

        let result = MinmaxBestMoves::new(best_score, best_moves.as_slice());
        let reply = result.clone();
        let ghost pre_cache = cache@;
        cache.insert(hash, result);
        proof {
            assert(old(cache)@.dom().subset_of(cache@.dom())) by {
                assert forall|h: u64| old(cache)@.dom().contains(h) implies cache@.dom().contains(
                    h,
                ) by {
                    assert(dom0.contains(h));
                    assert(pre_cache.dom().contains(h));
                }
            }
            assert forall|h: u64| #[trigger] cache@.dom().contains(h) implies {
                &&& -wh <= cache@[h].score <= wh
                &&& forall|k: int|
                    0 <= k < cache@[h].moves@.len() ==> valid_wall_coord(
                        v.width,
                        v.height,
                        (#[trigger] cache@[h].moves@[k]).0 as int,
                        cache@[h].moves@[k].1 as int,
                    )
            } by {
                if h != hash {
                    assert(pre_cache.dom().contains(h));
                }
            }
        }
        reply
    }

    /// The minmax move: a uniformly random choice among the moves the
    /// search recorded as optimal.  A transposition-table collision
    /// can surface moves for a different state, so every candidate is
    /// re-checked against the board and, should none survive, any
    /// legal wall is played instead.
    #[verifier::rlimit(100)]
    pub fn next_move(&self, board: &Board) -> (r: Option<(usize, usize)>)
        requires
            board.wf(),
        ensures
            board@.all_clicked() ==> r is None,
            r matches Some(m) ==> board@.valid_wall(m.0 as int, m.1 as int) && !board@.clicked(
                m.0 as int,
                m.1 as int,
            ),
            board@.width * board@.height < i32::MAX && !board@.all_clicked() ==> r is Some,
    {
        let ghost v = board@;
        if board.width * board.height >= (i32::MAX as usize) {
            return None;
        }
        let mut cache: MinmaxCache = HashMap::new();
        let best = self.minmax(
            board,
            MinmaxParamters::new(self.max_depth, true, Player::CPU),
            i32::MIN,
            i32::MAX,
            &mut cache,
        );

        let mut legal: Vec<(usize, usize)> = Vec::new();
        let mut i: usize = 0;
        while i < best.moves.len()
            invariant
                board.wf(),
                v == board@,
                i <= best.moves@.len(),
                forall|k: int|
                    0 <= k < legal@.len() ==> v.valid_wall((#[trigger] legal@[k]).0 as int,
                    legal@[k].1 as int) && !v.clicked(legal@[k].0 as int, legal@[k].1 as int),
            decreases best.moves@.len() - i,
        {
            let (row, col) = best.moves[i];
            if !(row > 2 * board.height || (row % 2 == 0 && col >= board.width) || col
                > board.width) {
                proof {
                    assert(v.valid_wall(row as int, col as int));
                    assert(board.walls@.len() == v.walls.len());
                    assert(board.walls@[row as int]@.len() == v.walls[row as int].len());
                    assert(board.walls@[row as int]@[col as int]@ == v.walls[row as int][col
                        as int]);
                }
                if !board.walls[row][col].is_clicked {
                    legal.push((row, col));
                }
            }
            i = i + 1;
        }

        if legal.len() > 0 {
            let pick = random_below(legal.len());
            return Some((legal[pick].0, legal[pick].1));
        }

        let walls = collect_wall_statistics(board);
        if let Some(ws) = choose_wall_index(&walls, 0, 3) {
            proof {
                assert(ws_matches(v, ws)) by {
                    let k = choose|k: int| 0 <= k < walls@.len() && walls@[k] == ws;
                    assert(ws_matches(v, walls@[k]));
                }
            }
            return Some((ws.row, ws.col));
        }
        proof {
            if !v.all_clicked() {
                let (wr, wc) = choose|wr: int, wc: int|
                    v.valid_wall(wr, wc) && !(#[trigger] v.clicked(wr, wc));
                let k = choose|k: int|
                    0 <= k < walls@.len() && (#[trigger] walls@[k]).row == wr && walls@[k].col
                        == wc;
                assert(ws_matches(v, walls@[k]) && walls@[k].max_adjacent_counter <= 3);
                assert(false);
            }
        }
        None
    }
}

impl MoveGenerator for MinmaxPlayer {
    /// The search proposes a move whenever the score fits the
    /// evaluation type; an empty search result falls back to a random
    /// legal wall.
    open spec fn complete_for(&self, board: Board) -> bool {
        board@.width * board@.height < i32::MAX
    }

    fn next_move(&self, board: &Board) -> (r: Option<(usize, usize)>) {
        MinmaxPlayer::next_move(self, board)
    }
}

} // verus!
