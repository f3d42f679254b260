use chackad::board::Board;
use chackad::board::Color;
use chackad::game::Game;
use chackad::move_button::MoveButton;
use chackad::piece::Piece;
use chackad::piece::PieceType;

#[test]
fn board_size_x_valid() {
    let board: Board = Board::new(8, 1);
    assert_eq!(board.size_x, 8);
    let board: Board = Board::new(1, 1);
    assert_eq!(board.size_x, 1);
    let board: Board = Board::new(1000, 1);
    assert_eq!(board.size_x, 1000);
}

#[test]
fn board_size_y_valid() {
    let board: Board = Board::new(1, 8);
    assert_eq!(board.size_y, 8);
    let board: Board = Board::new(1, 1);
    assert_eq!(board.size_y, 1);
    let board: Board = Board::new(1, 1000);
    assert_eq!(board.size_y, 1000);
}

#[test]
fn test_pawn_forward() {
    let mut board = Board::new(8, 8);
    let pawn = Piece::new(&mut board, PieceType::Pawn, 0, 1, true);
    pawn.check_to(0, 2, &board, PieceType::Queen);
}

#[test]
fn test_pawn_forward2() {
    let mut board = Board::new(8, 8);
    let pawn = Piece::new(&mut board, PieceType::Pawn, 0, 1, true);
    pawn.check_to(0, 3, &board, PieceType::Queen);
}

#[test]
fn test_pawn_capture() {
    let mut board = Board::new(8, 8);
    let pawn1 = Piece::new(&mut board, PieceType::Pawn, 0, 1, true);
    let _pawn2 = Piece::new(&mut board, PieceType::Pawn, 1, 2, true);
    pawn1.check_to(1, 2, &board, PieceType::Queen);
}

#[test]
fn test_pawn_promotion() {
    let mut board = Board::new(8, 8);
    let pawn1 = Piece::new(&mut board, PieceType::Pawn, 0, 6, true);
    pawn1.check_to(0, 7, &board, PieceType::Queen);
}

#[test]
fn create_regular_game() {
    let mut game = Game::new();
    game.regular_chess_setup();
}

#[test]
fn make_moves_in_game() {
    let mut game = Game::new();
    game.regular_chess_setup();
}

#[test]
fn fresh_board_all_empty_with_original_flags() {
    let board = Board::new(8, 8);
    for x in 0..8 {
        for y in 0..8 {
            assert!(board.is_empty_tile(x, y));
            assert!(board.check_orig(x, y));
        }
    }
    let board = Board::new(3, 7);
    for x in 0..3 {
        for y in 0..7 {
            assert!(board.is_empty_tile(x, y));
            assert!(board.check_orig(x, y));
        }
    }
}

#[test]
fn try_new_accepts_valid_dimensions() {
    assert!(Board::try_new(1, 1).is_some());
    assert!(Board::try_new(8, 8).is_some());
    assert!(Board::try_new(1_000_000, 1).is_some());
    assert!(Board::try_new(1, 1_000_000).is_some());
}

#[test]
fn try_new_rejects_bad_dimensions() {
    assert!(Board::try_new(0, 8).is_none());
    assert!(Board::try_new(8, 0).is_none());
    assert!(Board::try_new(0, 0).is_none());
    assert!(Board::try_new(1_000_001, 8).is_none());
    assert!(Board::try_new(8, 1_000_001).is_none());
}

#[test]
fn tile_color_matches_coordinate_parity() {
    let board = Board::new(8, 8);
    for x in 0..8usize {
        for y in 0..8usize {
            let white = board.tiles[x * board.size_y + y].color == Color::White;
            assert_eq!(white, (x + y) % 2 == 0);
        }
    }
}

#[test]
fn pawn_single_and_double_step_targets() {
    let mut board = Board::new(8, 8);
    let pawn = Piece::new(&mut board, PieceType::Pawn, 0, 1, true);
    assert!(pawn.check_to(0, 2, &board, PieceType::Pawn));
    assert!(pawn.check_to(0, 3, &board, PieceType::Pawn));
    assert!(!pawn.check_to(0, 4, &board, PieceType::Pawn));
}

#[test]
fn pawn_promotion_choices_on_far_rank() {
    let mut board = Board::new(8, 8);
    let pawn = Piece::new(&mut board, PieceType::Pawn, 0, 6, true);
    assert!(pawn.check_to(0, 7, &board, PieceType::Queen));
    assert!(pawn.check_to(0, 7, &board, PieceType::Rook));
    assert!(pawn.check_to(0, 7, &board, PieceType::Knight));
    assert!(pawn.check_to(0, 7, &board, PieceType::Bishop));
    assert!(!pawn.check_to(0, 7, &board, PieceType::Pawn));
    assert!(!pawn.check_to(0, 7, &board, PieceType::King));
}

#[test]
fn pawn_capture_only_diagonal_enemy() {
    let mut board = Board::new(8, 8);
    let pawn = Piece::new(&mut board, PieceType::Pawn, 4, 3, true);
    let _enemy = Piece::new(&mut board, PieceType::Pawn, 5, 4, false);
    let _own = Piece::new(&mut board, PieceType::Pawn, 3, 4, true);
    assert!(pawn.check_to(5, 4, &board, PieceType::Pawn));
    assert!(!pawn.check_to(3, 4, &board, PieceType::Pawn));
}

#[test]
fn rook_blocked_by_intervening_piece() {
    let mut board = Board::new(8, 8);
    let rook = Piece::new(&mut board, PieceType::Rook, 0, 0, true);
    let _blocker = Piece::new(&mut board, PieceType::Pawn, 0, 3, false);
    assert!(rook.check_to(0, 2, &board, PieceType::Rook));
    assert!(rook.check_to(0, 3, &board, PieceType::Rook));
    assert!(!rook.check_to(0, 4, &board, PieceType::Rook));
    assert!(rook.check_to(5, 0, &board, PieceType::Rook));
    assert!(!rook.check_to(1, 1, &board, PieceType::Rook));
}

#[test]
fn bishop_moves_diagonally_both_ways() {
    let mut board = Board::new(8, 8);
    let bishop = Piece::new(&mut board, PieceType::Bishop, 3, 3, true);
    assert!(bishop.check_to(6, 6, &board, PieceType::Bishop));
    assert!(bishop.check_to(0, 0, &board, PieceType::Bishop));
    assert!(bishop.check_to(0, 6, &board, PieceType::Bishop));
    assert!(bishop.check_to(6, 0, &board, PieceType::Bishop));
    assert!(!bishop.check_to(3, 6, &board, PieceType::Bishop));
    let _blocker = Piece::new(&mut board, PieceType::Pawn, 5, 5, true);
    assert!(bishop.check_to(4, 4, &board, PieceType::Bishop));
    assert!(!bishop.check_to(5, 5, &board, PieceType::Bishop));
    assert!(!bishop.check_to(6, 6, &board, PieceType::Bishop));
}

#[test]
fn knight_moves_onto_empty_or_enemy_only() {
    let mut board = Board::new(8, 8);
    let knight = Piece::new(&mut board, PieceType::Knight, 4, 4, true);
    assert!(knight.check_to(6, 5, &board, PieceType::Knight));
    assert!(knight.check_to(2, 3, &board, PieceType::Knight));
    assert!(knight.check_to(5, 6, &board, PieceType::Knight));
    assert!(!knight.check_to(5, 5, &board, PieceType::Knight));
    let _own = Piece::new(&mut board, PieceType::Pawn, 6, 5, true);
    let _enemy = Piece::new(&mut board, PieceType::Pawn, 2, 3, false);
    assert!(!knight.check_to(6, 5, &board, PieceType::Knight));
    assert!(knight.check_to(2, 3, &board, PieceType::Knight));
}

#[test]
fn king_single_step_only() {
    let mut board = Board::new(8, 8);
    let king = Piece::new(&mut board, PieceType::King, 4, 4, true);
    assert!(king.check_to(5, 5, &board, PieceType::King));
    assert!(king.check_to(4, 5, &board, PieceType::King));
    assert!(king.check_to(3, 3, &board, PieceType::King));
    assert!(!king.check_to(4, 4, &board, PieceType::King));
    assert!(!king.check_to(7, 5, &board, PieceType::King));
}

#[test]
fn queen_combines_rook_and_bishop() {
    let mut board = Board::new(8, 8);
    let queen = Piece::new(&mut board, PieceType::Queen, 3, 3, true);
    assert!(queen.check_to(3, 7, &board, PieceType::Queen));
    assert!(queen.check_to(7, 7, &board, PieceType::Queen));
    assert!(queen.check_to(0, 3, &board, PieceType::Queen));
    assert!(!queen.check_to(5, 4, &board, PieceType::Queen));
    assert!(!queen.check_to(3, 7, &board, PieceType::Rook));
}

#[test]
fn starting_position_has_twenty_moves() {
    let mut game = Game::new();
    game.regular_chess_setup();
    assert!(game.is_whites_turn());
    assert_eq!(game.all_moves.len(), 20);
}

#[test]
fn applied_move_flips_turn_and_updates_board() {
    let mut game = Game::new();
    game.regular_chess_setup();
    assert!(game.is_whites_turn());
    let applied = game.next((4, 1), (4, 3, PieceType::Pawn));
    assert!(applied);
    assert!(!game.is_whites_turn());
    assert!(game.board().is_empty_tile(4, 1));
    assert!(!game.board().is_empty_tile(4, 3));
    assert!(game.board().is_piece_white(4, 3));
}

#[test]
fn illegal_request_is_rejected_without_change() {
    let mut game = Game::new();
    game.regular_chess_setup();
    // the rook on a1 is boxed in
    assert!(!game.next((0, 0), (0, 4, PieceType::Rook)));
    assert!(game.is_whites_turn());
    // unknown origin
    assert!(!game.next((4, 4), (4, 5, PieceType::Pawn)));
    assert!(game.is_whites_turn());
    // wrong piece type for the origin
    assert!(!game.next((4, 1), (4, 3, PieceType::Rook)));
    assert!(game.is_whites_turn());
    assert!(!game.board().is_empty_tile(4, 1));
}

#[test]
fn capture_removes_opponent_piece() {
    let mut game = Game::new();
    game.regular_chess_setup();
    assert!(game.next((4, 1), (4, 3, PieceType::Pawn)));
    assert!(game.next((3, 6), (3, 4, PieceType::Pawn)));
    assert_eq!(game.black_pieces().len(), 16);
    assert!(game.next((4, 3), (3, 4, PieceType::Pawn)));
    assert_eq!(game.black_pieces().len(), 15);
    assert_eq!(game.white_pieces().len(), 16);
    assert!(!game.board().is_empty_tile(3, 4));
    assert!(game.board().is_piece_white(3, 4));
}

#[test]
fn pinned_piece_moves_are_filtered() {
    let mut game = Game::new();
    game.regular_chess_setup();
    assert!(game.next((4, 1), (4, 3, PieceType::Pawn)));
    assert!(game.next((3, 6), (3, 4, PieceType::Pawn)));
    assert!(game.next((4, 3), (3, 4, PieceType::Pawn)));
    assert!(game.next((3, 7), (3, 4, PieceType::Queen)));
    assert!(game.next((1, 0), (2, 2, PieceType::Knight)));
    assert!(game.next((3, 4), (4, 4, PieceType::Queen)));
    // white's king on e1 is in check from the queen on e5; the knight on c3
    // may block on e4 or e2, but may not wander off the check line
    game.calc_all_moves();
    let knight_moves = game.moves_from((2, 2));
    assert!(knight_moves.contains(&(4, 3, PieceType::Knight)));
    assert!(knight_moves.contains(&(4, 1, PieceType::Knight)));
    assert!(!knight_moves.contains(&(0, 3, PieceType::Knight)));
    assert!(!knight_moves.contains(&(1, 4, PieceType::Knight)));
    assert!(!knight_moves.contains(&(3, 4, PieceType::Knight)));
}

#[test]
fn fools_mate_is_terminal_and_rejects_requests() {
    let mut game = Game::new();
    game.regular_chess_setup();
    assert!(game.next((5, 1), (5, 2, PieceType::Pawn)));
    assert!(game.next((4, 6), (4, 4, PieceType::Pawn)));
    assert!(game.next((6, 1), (6, 3, PieceType::Pawn)));
    assert!(game.next((3, 7), (7, 3, PieceType::Queen)));
    game.calc_all_moves();
    assert!(game.no_moves());
    assert!(!game.next((4, 1), (4, 2, PieceType::Pawn)));
    assert!(!game.next((6, 0), (5, 2, PieceType::Knight)));
    assert!(game.is_whites_turn());
}

#[test]
fn coords_from_string_valid_and_invalid() {
    assert_eq!(Game::get_coords_from_string("a1".to_string()), Some((0, 0)));
    assert_eq!(Game::get_coords_from_string("h8".to_string()), Some((7, 7)));
    assert_eq!(Game::get_coords_from_string("A1".to_string()), Some((0, 0)));
    assert_eq!(Game::get_coords_from_string("e2".to_string()), Some((4, 1)));
    assert_eq!(Board::get_coords_from_string("z9".to_string()), Some((25, 8)));
    assert_eq!(Game::get_coords_from_string("a0".to_string()), None);
    assert_eq!(Game::get_coords_from_string("1a".to_string()), None);
    assert_eq!(Game::get_coords_from_string("".to_string()), None);
    assert_eq!(Game::get_coords_from_string("a".to_string()), None);
    assert_eq!(Game::get_coords_from_string("a12".to_string()), None);
}

#[test]
fn string_from_coords_round_trips() {
    assert_eq!(Game::get_string_from_coords(0, 0), "a1");
    assert_eq!(Game::get_string_from_coords(7, 7), "h8");
    assert_eq!(Board::get_string_from_coords(4, 1), "e2");
    for x in 0..8 {
        for y in 0..8 {
            let s = Board::get_string_from_coords(x, y);
            assert_eq!(Board::get_coords_from_string(s), Some((x, y)));
        }
    }
}

#[test]
fn move_button_reports_its_move() {
    let b = MoveButton::new((4, 1), (4, 3, PieceType::Pawn));
    assert_eq!(b.from(), (4, 1));
    assert_eq!(b.to(), (4, 3, PieceType::Pawn));
    assert!(b.inside(4, 3));
    assert!(!b.inside(4, 1));
    assert!(!b.inside(3, 3));
}

#[test]
fn castling_needs_original_flags_and_free_target() {
    let mut game = Game::new();
    game.regular_chess_setup();
    // the king's target square is occupied by its own knight: rejected
    assert!(!game.next((4, 0), (6, 0, PieceType::King)));
    // clear g1, answer with a quiet move, then castle kingside
    assert!(game.next((6, 0), (5, 2, PieceType::Knight)));
    assert!(game.next((0, 6), (0, 5, PieceType::Pawn)));
    assert!(game.next((4, 0), (6, 0, PieceType::King)));
    assert!(game.board().is_empty_tile(4, 0));
    assert!(!game.board().is_empty_tile(6, 0));
    assert!(game.board().is_piece_white(6, 0));
    // the king has left its home square: its original-piece flag is gone
    assert!(!game.board().check_orig(4, 0));
}
