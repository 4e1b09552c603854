use dots_and_boxes::game::ParseError;
use dots_and_boxes::game::{Board, ClickError, Direction, Joint, Player, get_bit_mask};

#[test]
fn when_initialized_no_wall_clicked_is_true() {
    let joint = Joint::new(0, 0);
    assert!(!joint.north_wall_clicked);
    assert!(!joint.east_wall_clicked);
    assert!(!joint.south_wall_clicked);
    assert!(!joint.west_wall_clicked);
}

#[test]
fn setting_north_wall_clicked_works_correctly() {
    let mut joint = Joint::new(0, 0);
    joint.set_wall_clicked(Direction::North);
    assert!(joint.north_wall_clicked);
    assert!(!joint.east_wall_clicked);
    assert!(!joint.south_wall_clicked);
    assert!(!joint.west_wall_clicked);
}

#[test]
fn setting_east_wall_clicked_works_correctly() {
    let mut joint = Joint::new(0, 0);
    joint.set_wall_clicked(Direction::East);
    assert!(!joint.north_wall_clicked);
    assert!(joint.east_wall_clicked);
    assert!(!joint.south_wall_clicked);
    assert!(!joint.west_wall_clicked);
}

#[test]
fn setting_south_wall_clicked_works_correctly() {
    let mut joint = Joint::new(0, 0);
    joint.set_wall_clicked(Direction::South);
    assert!(!joint.north_wall_clicked);
    assert!(!joint.east_wall_clicked);
    assert!(joint.south_wall_clicked);
    assert!(!joint.west_wall_clicked);
}

#[test]
fn setting_west_wall_clicked_works_correctly() {
    let mut joint = Joint::new(0, 0);
    joint.set_wall_clicked(Direction::West);
    assert!(!joint.north_wall_clicked);
    assert!(!joint.east_wall_clicked);
    assert!(!joint.south_wall_clicked);
    assert!(joint.west_wall_clicked);
}

#[test]
fn mod_joint_masks_are_generated_correctly() {
    for expected_mask in 0..16 {
        let mut joint = Joint::new(0, 0);
        joint.north_wall_clicked = expected_mask & 8 > 0;
        joint.east_wall_clicked = expected_mask & 4 > 0;
        joint.south_wall_clicked = expected_mask & 2 > 0;
        joint.west_wall_clicked = expected_mask & 1 > 0;
        assert_eq!(expected_mask, joint.get_joint_mask());
    }
}

#[test]
fn board_renderer_joint_masks_are_generated_correctly() {
    let expected_masks = [
        "0000".to_string(),
        "0001".to_string(),
        "0010".to_string(),
        "0011".to_string(),
        "0100".to_string(),
        "0101".to_string(),
        "0110".to_string(),
        "0111".to_string(),
        "1000".to_string(),
        "1001".to_string(),
        "1010".to_string(),
        "1011".to_string(),
        "1100".to_string(),
        "1101".to_string(),
        "1110".to_string(),
        "1111".to_string(),
    ];
    for (n, expected_mask) in expected_masks.iter().enumerate() {
        assert_eq!(expected_mask, &get_bit_mask(n));
    }
}

#[test]
fn clicking_the_same_wall_twice_is_rejected_and_harmless() {
    let mut board = Board::new(2, 2);
    assert_eq!(Ok(false), board.click_wall(0, 0, Player::Player1));
    let before = board.to_text();
    assert_eq!(
        Err(ClickError::AlreadyClicked),
        board.click_wall(0, 0, Player::Player2)
    );
    assert_eq!(before, board.to_text());
    let stats = board.get_statistics();
    assert_eq!(0, stats.player1_points + stats.player2_points + stats.cpu_points);
}

#[test]
fn out_of_range_clicks_are_rejected() {
    let mut board = Board::new(2, 2);
    assert_eq!(
        Err(ClickError::InvalidCoordinates),
        board.click_wall(5, 0, Player::Player1)
    );
    assert_eq!(
        Err(ClickError::InvalidCoordinates),
        board.click_wall(0, 2, Player::Player1)
    );
    assert_eq!(
        Err(ClickError::InvalidCoordinates),
        board.click_wall(1, 3, Player::Player1)
    );
    assert_eq!(Ok(false), board.click_wall(1, 2, Player::Player1));
}

#[test]
fn bonus_move_is_reported_exactly_when_a_box_closes() {
    let mut board = Board::new(1, 1);
    let player = Player::CPU;
    assert_eq!(Ok(false), board.click_wall(0, 0, player));
    assert_eq!(Ok(false), board.click_wall(1, 0, player));
    assert_eq!(Ok(false), board.click_wall(1, 1, player));
    assert!(!board.all_is_clicked());
    assert_eq!(Ok(true), board.click_wall(2, 0, player));
    assert!(board.all_is_clicked());
    let stats = board.get_statistics();
    assert_eq!(1, stats.cpu_points);
    assert_eq!(Some(Player::CPU), stats.winner);
}

#[test]
fn scores_count_exactly_the_closed_boxes() {
    let mut board = Board::new(2, 1);
    let p = Player::Player1;
    let q = Player::Player2;
    let clicks = [(0, 0), (1, 0), (1, 1), (0, 1), (1, 2)];
    for (r, c) in clicks {
        let _ = board.click_wall(r, c, p);
        let stats = board.get_statistics();
        let mut closed = 0;
        for row in &board.cells {
            for cell in row {
                if cell.counter == 4 {
                    closed += 1;
                }
            }
        }
        assert_eq!(
            closed,
            stats.player1_points + stats.player2_points + stats.cpu_points
        );
    }
    assert_eq!(Ok(true), board.click_wall(2, 0, q));
    let stats = board.get_statistics();
    assert_eq!(1, stats.player2_points);
    assert_eq!(Some(Player::Player2), stats.winner);
}

#[test]
fn winner_rule_is_asymmetric_between_the_parties() {
    let mut board = Board::new(3, 1);
    // Give Player1 one box, the CPU one box, Player2 one box.
    let _ = board.click_wall(0, 0, Player::Player1);
    let _ = board.click_wall(1, 0, Player::Player1);
    let _ = board.click_wall(1, 1, Player::Player1);
    let _ = board.click_wall(2, 0, Player::Player1);
    let _ = board.click_wall(0, 1, Player::CPU);
    let _ = board.click_wall(1, 2, Player::CPU);
    let _ = board.click_wall(2, 1, Player::CPU);
    let _ = board.click_wall(0, 2, Player::Player2);
    let _ = board.click_wall(1, 3, Player::Player2);
    let _ = board.click_wall(2, 2, Player::Player2);
    let stats = board.get_statistics();
    assert_eq!(1, stats.player1_points);
    assert_eq!(1, stats.player2_points);
    assert_eq!(1, stats.cpu_points);
    // A three-way tie has no Player2 path: the Player1-CPU tie stands.
    assert_eq!(None, stats.winner);
}

#[test]
fn text_round_trip_preserves_the_board() {
    let mut board = Board::new(3, 3);
    let player = Player::CPU;
    for (r, c) in [(0, 0), (1, 0), (1, 1), (2, 0), (0, 2), (3, 1), (5, 2), (6, 1)] {
        let _ = board.click_wall(r, c, player);
    }
    let _ = board.click_wall(4, 1, Player::Player1);
    let text = board.to_text();
    let decoded = Board::from_text(&text).expect("the dump decodes");
    assert_eq!(text, decoded.to_text());
    assert_eq!(board.width, decoded.width);
    assert_eq!(board.height, decoded.height);
    for r in 0..board.walls.len() {
        for c in 0..board.walls[r].len() {
            assert_eq!(board.walls[r][c].is_clicked, decoded.walls[r][c].is_clicked);
        }
    }
    for i in 0..board.cells.len() {
        for j in 0..board.cells[i].len() {
            assert_eq!(board.cells[i][j].counter, decoded.cells[i][j].counter);
            assert_eq!(board.cells[i][j].owner, decoded.cells[i][j].owner);
        }
    }
    for a in 0..board.joints.len() {
        for b in 0..board.joints[a].len() {
            assert_eq!(
                board.joints[a][b].get_joint_mask(),
                decoded.joints[a][b].get_joint_mask()
            );
        }
    }
    assert_eq!(board.get_statistics(), decoded.get_statistics());
}

#[test]
fn decoding_rejects_bad_input() {
    assert!(matches!(Board::from_text(""), Err(ParseError::EmptyInput)));
    assert!(matches!(Board::from_text("junk"), Err(ParseError::BadShape)));
    // An owner letter on an open box is not a reachable state.
    let mut board = Board::new(1, 1);
    let _ = board.click_wall(0, 0, Player::Player1);
    let text = board.to_text().replace("     ", "AAAAA");
    assert!(matches!(Board::from_text(&text), Err(ParseError::InvalidState)));
}
