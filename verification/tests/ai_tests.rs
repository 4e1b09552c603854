use dots_and_boxes::ai::greedy_algorithm_player::GreadyAlgorithmPlayer;
use dots_and_boxes::ai::minimax_player::MinimaxPlayer;
use dots_and_boxes::ai::minmax_player::MinmaxPlayer;
use dots_and_boxes::ai::region_counting_player::RegionCountingPlayer;
use dots_and_boxes::ai::{
    CpuPlayer, MoveGenerator, WallStatistics, collect_wall_statistics, find_region_size,
    get_cpu_player,
};
use dots_and_boxes::game::{Board, Difficulty, Player};

#[test]
fn find_region_size_works_correctly() {
    let mut board = Board::new(3, 3);
    let player = Player::CPU;
    let _ = board.click_wall(0, 2, player);
    let _ = board.click_wall(1, 0, player);
    let _ = board.click_wall(1, 1, player);
    let _ = board.click_wall(1, 3, player);
    let _ = board.click_wall(2, 1, player);
    let _ = board.click_wall(3, 0, player);
    let _ = board.click_wall(3, 2, player);
    let _ = board.click_wall(4, 2, player);
    let _ = board.click_wall(5, 0, player);
    let _ = board.click_wall(5, 1, player);
    let _ = board.click_wall(5, 3, player);
    let _ = board.click_wall(6, 1, player);

    let expected_region_sizes = [1, 3, 3, 1, 3, 3, 3, 1, 3, 3, 1, 3];
    let walls = [
        WallStatistics::new(0, 0, 2),
        WallStatistics::new(0, 1, 2),
        WallStatistics::new(1, 2, 2),
        WallStatistics::new(2, 0, 2),
        WallStatistics::new(2, 2, 2),
        WallStatistics::new(3, 1, 2),
        WallStatistics::new(3, 3, 2),
        WallStatistics::new(4, 0, 2),
        WallStatistics::new(4, 1, 2),
        WallStatistics::new(5, 2, 2),
        WallStatistics::new(6, 0, 2),
        WallStatistics::new(6, 2, 2),
    ];
    for (idx, wall) in walls.iter().enumerate() {
        assert_eq!(expected_region_sizes[idx], find_region_size(&board, wall));
    }
}

#[test]
fn find_region_size_works_for_almost_closed_cells() {
    let mut board = Board::new(3, 3);
    let player = Player::CPU;
    let _ = board.click_wall(0, 0, player);
    let _ = board.click_wall(0, 2, player);
    let _ = board.click_wall(1, 0, player);
    let _ = board.click_wall(1, 1, player);
    let _ = board.click_wall(1, 3, player);
    let _ = board.click_wall(2, 1, player);
    let _ = board.click_wall(3, 0, player);
    let _ = board.click_wall(3, 2, player);
    let _ = board.click_wall(4, 2, player);
    let _ = board.click_wall(5, 0, player);
    let _ = board.click_wall(5, 1, player);
    let _ = board.click_wall(5, 3, player);
    let _ = board.click_wall(6, 1, player);

    let expected_region_size = 1;
    let wall = WallStatistics::new(2, 0, 3);
    assert_eq!(expected_region_size, find_region_size(&board, &wall));
}

#[test]
fn find_region_size_works_for_loop_regions() {
    let mut board = Board::new(3, 3);
    let player = Player::CPU;
    let _ = board.click_wall(0, 0, player);
    let _ = board.click_wall(0, 1, player);
    let _ = board.click_wall(1, 0, player);
    let _ = board.click_wall(1, 2, player);
    let _ = board.click_wall(3, 0, player);
    let _ = board.click_wall(3, 2, player);
    let _ = board.click_wall(4, 0, player);
    let _ = board.click_wall(4, 1, player);

    let expected_region_size = 4;
    let wall = WallStatistics::new(1, 1, 2);
    assert_eq!(expected_region_size, find_region_size(&board, &wall));
}

#[test]
fn greedy_algorithm_player_when_all_is_clicked_there_is_no_other_move() {
    let mut board = Board::new(1, 1);
    let player = Player::Player1;
    let _ = board.click_wall(0, 0, player);
    let _ = board.click_wall(1, 0, player);
    let _ = board.click_wall(1, 1, player);
    let _ = board.click_wall(2, 0, player);
    assert!(board.all_is_clicked());
    let gready_algorithm_player = GreadyAlgorithmPlayer::default();
    let next_move = gready_algorithm_player.next_move(&board);
    assert!(next_move.is_none());
}

#[test]
fn greedy_algorithm_player_first_take_wall_next_to_almost_closed_cell() {
    let mut board = Board::new(1, 2);
    let player = Player::Player1;
    let _ = board.click_wall(0, 0, player);
    let _ = board.click_wall(1, 0, player);
    let _ = board.click_wall(1, 1, player);
    let gready_algorithm_player = GreadyAlgorithmPlayer::default();
    let next_move = gready_algorithm_player.next_move(&board);
    assert_eq!(next_move, Some((2, 0)));
}

#[test]
fn greedy_algorithm_player_when_no_wall_next_to_almost_closed_cell_take_the_one_with_smallest_counter()
{
    let mut board = Board::new(2, 2);
    let player = Player::Player1;
    let _ = board.click_wall(0, 0, player);
    let _ = board.click_wall(1, 0, player);
    let gready_algorithm_player = GreadyAlgorithmPlayer::default();
    let mut valid_moves: Vec<(usize, usize)> = vec![
        (0, 1),
        (1, 2),
        (2, 1),
        (3, 0),
        (3, 1),
        (3, 2),
        (4, 0),
        (4, 1),
    ];
    let mut next_move = gready_algorithm_player.next_move(&board);
    assert!(valid_moves.contains(&next_move.expect("the move is possible")));
    if let Some((row, col)) = next_move {
        valid_moves.retain(|valid_move| *valid_move != (row, col));
        let _ = board.click_wall(row, col, player);
        next_move = gready_algorithm_player.next_move(&board);
        assert!(valid_moves.contains(&next_move.expect("the move is possible")));
    }
}

#[test]
fn greedy_algorithm_player_when_no_other_option_take_wall_with_counter_2() {
    let mut board = Board::new(1, 2);
    let player = Player::Player1;
    let _ = board.click_wall(0, 0, player);
    let _ = board.click_wall(1, 0, player);
    let _ = board.click_wall(1, 1, player);
    let _ = board.click_wall(2, 0, player);
    let _ = board.click_wall(4, 0, player);
    let valid_moves: Vec<(usize, usize)> = vec![(3, 0), (3, 1)];
    let gready_algorithm_player = GreadyAlgorithmPlayer::default();
    let next_move = gready_algorithm_player.next_move(&board);
    assert!(valid_moves.contains(&next_move.expect("the move is possible")));
}

#[test]
fn next_move_will_take_wall_opening_the_smallest_region() {
    let mut board = Board::new(3, 3);
    let player = Player::CPU;
    let _ = board.click_wall(0, 2, player);
    let _ = board.click_wall(1, 0, player);
    let _ = board.click_wall(1, 1, player);
    let _ = board.click_wall(1, 3, player);
    let _ = board.click_wall(2, 1, player);
    let _ = board.click_wall(3, 0, player);
    let _ = board.click_wall(3, 2, player);
    let _ = board.click_wall(4, 2, player);
    let _ = board.click_wall(5, 0, player);
    let _ = board.click_wall(5, 1, player);
    let _ = board.click_wall(5, 3, player);
    let _ = board.click_wall(6, 1, player);
    let expected_moves = [(0, 0), (2, 0), (4, 0), (6, 0)];
    let move_generator = RegionCountingPlayer::default();
    let next_move = move_generator.next_move(&board);
    assert!(next_move.is_some() && expected_moves.contains(&next_move.unwrap()));
}

#[test]
fn next_move_will_take_wall_opening_the_biggest_region() {
    let mut board = Board::new(3, 3);
    let player = Player::CPU;
    let _ = board.click_wall(0, 1, player);
    let _ = board.click_wall(0, 2, player);
    let _ = board.click_wall(1, 0, player);
    let _ = board.click_wall(1, 1, player);
    let _ = board.click_wall(1, 3, player);
    let _ = board.click_wall(2, 0, player);
    let _ = board.click_wall(2, 1, player);
    let _ = board.click_wall(3, 0, player);
    let _ = board.click_wall(3, 2, player);
    let _ = board.click_wall(4, 2, player);
    let _ = board.click_wall(5, 0, player);
    let _ = board.click_wall(5, 1, player);
    let _ = board.click_wall(5, 3, player);
    let _ = board.click_wall(6, 1, player);
    let expected_moves = [(0, 0), (1, 2), (2, 2), (3, 3)];
    let move_generator = RegionCountingPlayer::default();
    let next_move = move_generator.next_move(&board);
    assert!(next_move.is_some() && expected_moves.contains(&next_move.unwrap()));
}

fn perform_all_moves(move_generator: &impl MoveGenerator, board: &mut Board, player: Player) {
    let (mut row, mut col) = move_generator
        .next_move(board)
        .expect("there is a move available");
    while let Ok(true) = board.click_wall(row, col, player) {
        if let Some((r, c)) = move_generator.next_move(board) {
            row = r;
            col = c;
        } else {
            break;
        }
    }
}

#[test]
fn minmax_player_load_board() {
    let s = " XXXXX XXXXX XXXXX
X     |     X     |
X     |     X     |
X     |     X     |
X     |     X     |
X     |     X     |
 ----- ----- -----
X     |     X     X
X     |     X     X
X     |     X     X
X     |     X     X
X     |     X     X
 XXXXX XXXXX -----
XAAAAAXCCCCCX     X
XAAAAAXCCCCCX     X
XAAAAAXCCCCCX     X
XAAAAAXCCCCCX     X
XAAAAAXCCCCCX     X
 XXXXX XXXXX XXXXX";
    let mut board = Board::from_text(s).expect("the dump decodes");
    perform_all_moves(&MinmaxPlayer::new(), &mut board, Player::CPU);
    assert_eq!(
        " XXXXX XXXXX XXXXX
X     |     X     X
X     |     X     X
X     |     X     X
X     |     X     X
X     |     X     X
 ----- ----- -----
X     |     X     X
X     |     X     X
X     |     X     X
X     |     X     X
X     |     X     X
 XXXXX XXXXX XXXXX
XAAAAAXCCCCCXCCCCCX
XAAAAAXCCCCCXCCCCCX
XAAAAAXCCCCCXCCCCCX
XAAAAAXCCCCCXCCCCCX
XAAAAAXCCCCCXCCCCCX
 XXXXX XXXXX XXXXX
",
        board.to_text()
    );
}

#[test]
fn minimax_player_load_board() {
    let s = " XXXXX XXXXX XXXXX
X     |     X     |
X     |     X     |
X     |     X     |
X     |     X     |
X     |     X     |
 ----- ----- -----
X     |     X     X
X     |     X     X
X     |     X     X
X     |     X     X
X     |     X     X
 XXXXX XXXXX -----
XAAAAAXCCCCCX     X
XAAAAAXCCCCCX     X
XAAAAAXCCCCCX     X
XAAAAAXCCCCCX     X
XAAAAAXCCCCCX     X
 XXXXX XXXXX XXXXX";
    let mut board = Board::from_text(s).expect("the dump decodes");
    let minimax = MinimaxPlayer::new();
    perform_all_moves(&minimax, &mut board, Player::CPU);
    assert_eq!(
        " XXXXX XXXXX XXXXX
X     |     X     X
X     |     X     X
X     |     X     X
X     |     X     X
X     |     X     X
 ----- ----- -----
X     |     X     X
X     |     X     X
X     |     X     X
X     |     X     X
X     |     X     X
 XXXXX XXXXX XXXXX
XAAAAAXCCCCCXCCCCCX
XAAAAAXCCCCCXCCCCCX
XAAAAAXCCCCCXCCCCCX
XAAAAAXCCCCCXCCCCCX
XAAAAAXCCCCCXCCCCCX
 XXXXX XXXXX XXXXX
",
        board.to_text()
    );
}

#[test]
fn double_cell_should_be_taken_in_the_middle() {
    let s = " ----- XXXXX -----
X     |     X     X
X     |     X     X
X     |     X     X
X     |     X     X
X     |     X     X
 XXXXX ----- -----
|     X     X     X
|     X     X     X
|     X     X     X
|     X     X     X
|     X     X     X
 ----- ----- -----
|     X     |     X
|     X     |     X
|     X     |     X
|     X     |     X
|     X     |     X
 XXXXX XXXXX XXXXX";
    let mut board = Board::from_text(s).expect("the dump decodes");
    perform_all_moves(&MinmaxPlayer::new(), &mut board, Player::CPU);
    assert_eq!(
        " ----- XXXXX -----
X     |     X     X
X     |     X     X
X     |     X     X
X     |     X     X
X     |     X     X
 XXXXX ----- -----
|     X     X     X
|     X     X     X
|     X     X     X
|     X     X     X
|     X     X     X
 XXXXX ----- -----
|     X     |     X
|     X     |     X
|     X     |     X
|     X     |     X
|     X     |     X
 XXXXX XXXXX XXXXX
",
        board.to_text()
    );
}

#[test]
fn every_policy_only_proposes_unclicked_walls() {
    let policies: Vec<CpuPlayer> = vec![
        get_cpu_player(&Difficulty::Easy),
        get_cpu_player(&Difficulty::Medium),
        get_cpu_player(&Difficulty::Hard),
    ];
    for seed in 0u64..4 {
        quad_rand::srand(seed);
        for policy in &policies {
            let mut board = Board::new(3, 2);
            let mut player = Player::Player1;
            while !board.all_is_clicked() {
                let (row, col) = policy.next_move(&board).expect("a move exists");
                assert!(!board.walls[row][col].is_clicked);
                let bonus = board
                    .click_wall(row, col, player)
                    .expect("the proposed move is legal");
                if !bonus {
                    player = player.opponent();
                }
            }
            assert!(policy.next_move(&board).is_none());
        }
    }
}

#[test]
fn get_cpu_player_maps_each_difficulty() {
    assert!(matches!(get_cpu_player(&Difficulty::Easy), CpuPlayer::Greedy(_)));
    assert!(matches!(
        get_cpu_player(&Difficulty::Medium),
        CpuPlayer::RegionCounting(_)
    ));
    assert!(matches!(get_cpu_player(&Difficulty::Hard), CpuPlayer::Minmax(_)));
}

fn play_game(
    first_player_move_generator: impl MoveGenerator,
    second_player_move_generator: impl MoveGenerator,
) -> dots_and_boxes::game::GameStatistics {
    let width = 5;
    let height = 5;
    let mut board = Board::new(width, height);
    while !board.all_is_clicked() {
        perform_all_moves(&first_player_move_generator, &mut board, Player::Player1);
        if board.all_is_clicked() {
            break;
        }
        perform_all_moves(&second_player_move_generator, &mut board, Player::CPU);
    }
    let stats = board.get_statistics();
    println!("{}", board.to_text());
    println!("{stats:?}");
    stats
}

#[test]
fn gready_vs_minmax() {
    let sample_move_generator = GreadyAlgorithmPlayer::default();
    let tested_move_generator = MinmaxPlayer::new();
    let stats = play_game(sample_move_generator, tested_move_generator);
    assert_eq!(Some(Player::CPU), stats.winner);
}

#[test]
fn region_vs_minmax() {
    let sample_move_generator = RegionCountingPlayer::default();
    let tested_move_generator = MinmaxPlayer::new();
    let stats = play_game(sample_move_generator, tested_move_generator);
    assert_eq!(Some(Player::CPU), stats.winner);
}
