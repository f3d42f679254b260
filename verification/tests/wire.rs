use chackad::codec::decode_frame;
use chackad::codec::decode_square;
use chackad::codec::encode_control_frame;
use chackad::codec::encode_promotion_frame;
use chackad::codec::encode_square;
use chackad::codec::encode_standard_frame;
use chackad::codec::ControlCode;
use chackad::codec::WireMove;
use chackad::codec::WireMsg;
use chackad::game::Game;
use chackad::piece::PieceType;

#[test]
fn square_encoding_round_trips_every_square() {
    for x in 0..8u8 {
        for y in 0..8u8 {
            let b = encode_square(x, y);
            assert_eq!(decode_square(b), (x, y));
        }
    }
}

#[test]
fn square_encoding_packs_bits() {
    assert_eq!(encode_square(0, 0), 0);
    assert_eq!(encode_square(7, 0), 7);
    assert_eq!(encode_square(0, 7), 56);
    assert_eq!(encode_square(3, 2), 19);
}

#[test]
fn standard_frame_round_trips() {
    let frame = encode_standard_frame((4, 1), (4, 3));
    assert_eq!(frame.len(), 4);
    assert_eq!(frame[0], 1);
    assert_eq!(frame[1], 0);
    let msg = decode_frame(&frame);
    assert_eq!(
        msg,
        Some(WireMsg::Move(WireMove::Standard { origin: (4, 1), target: (4, 3) }))
    );
}

#[test]
fn promotion_frame_round_trips() {
    let frame = encode_promotion_frame((6, 6), (6, 7), PieceType::Knight);
    assert_eq!(frame.len(), 5);
    assert_eq!(frame[1], 2);
    assert_eq!(frame[4], 0);
    let msg = decode_frame(&frame);
    assert_eq!(
        msg,
        Some(WireMsg::Move(WireMove::Promotion {
            origin: (6, 6),
            target: (6, 7),
            promo: PieceType::Knight,
        }))
    );
}

#[test]
fn promotion_codes_map_as_documented() {
    let frame = vec![1u8, 2, 0, 8, 3];
    match decode_frame(&frame) {
        Some(WireMsg::Move(WireMove::Promotion { promo, .. })) => {
            assert_eq!(promo, PieceType::Queen);
        }
        other => panic!("unexpected decode: {:?}", other),
    }
    let frame = vec![1u8, 2, 0, 8, 2];
    match decode_frame(&frame) {
        Some(WireMsg::Move(WireMove::Promotion { promo, .. })) => {
            assert_eq!(promo, PieceType::Rook);
        }
        other => panic!("unexpected decode: {:?}", other),
    }
}

#[test]
fn control_frames_round_trip() {
    for c in [
        ControlCode::Decline,
        ControlCode::Undo,
        ControlCode::Accept,
        ControlCode::Checkmate,
        ControlCode::Draw,
        ControlCode::Resign,
    ] {
        let frame = encode_control_frame(c);
        assert_eq!(frame.len(), 1);
        assert_eq!(decode_frame(&frame), Some(WireMsg::Control(c)));
    }
}

#[test]
fn malformed_frames_decode_to_nothing() {
    assert_eq!(decode_frame(&vec![]), None);
    assert_eq!(decode_frame(&vec![1u8]), None);
    assert_eq!(decode_frame(&vec![7u8]), None);
    assert_eq!(decode_frame(&vec![0u8, 0, 0, 0]), None);
    assert_eq!(decode_frame(&vec![1u8, 9, 0, 0]), None);
    assert_eq!(decode_frame(&vec![1u8, 2, 0, 0]), None);
    assert_eq!(decode_frame(&vec![1u8, 0, 0]), None);
    assert_eq!(decode_frame(&vec![1u8, 0, 0, 0, 0, 0]), None);
}

#[test]
fn castle_tags_decode_and_are_not_applied() {
    assert_eq!(
        decode_frame(&vec![1u8, 3, 0, 0]),
        Some(WireMsg::Move(WireMove::KingsideCastle))
    );
    assert_eq!(
        decode_frame(&vec![1u8, 4, 0, 0]),
        Some(WireMsg::Move(WireMove::QueensideCastle))
    );
    let mut game = Game::new();
    game.regular_chess_setup();
    assert!(!game.apply_wire_move(WireMove::KingsideCastle));
    assert!(game.is_whites_turn());
}

#[test]
fn wire_move_applies_when_legal_and_reports_when_not() {
    let mut game = Game::new();
    game.regular_chess_setup();
    let legal = WireMove::Standard { origin: (4, 1), target: (4, 3) };
    assert!(game.apply_wire_move(legal));
    assert!(!game.is_whites_turn());
    assert!(game.board().is_empty_tile(4, 1));
    assert!(!game.board().is_empty_tile(4, 3));
    // a rook shut in by its own pawns cannot move: report, do not apply
    let illegal = WireMove::Standard { origin: (0, 7), target: (0, 4) };
    assert!(!game.apply_wire_move(illegal));
    assert!(!game.is_whites_turn());
    // an empty origin square resolves to nothing
    let vacant = WireMove::Standard { origin: (4, 4), target: (4, 5) };
    assert!(!game.apply_wire_move(vacant));
}

#[test]
fn wire_promotion_move_promotes_the_pawn() {
    let mut game = Game::new();
    game.regular_chess_setup();
    // walk the white g-pawn to g6, capture through h7 and promote on h8
    assert!(game.next((6, 1), (6, 3, PieceType::Pawn)));
    assert!(game.next((0, 6), (0, 4, PieceType::Pawn)));
    assert!(game.next((6, 3), (6, 4, PieceType::Pawn)));
    assert!(game.next((0, 4), (0, 3, PieceType::Pawn)));
    assert!(game.next((6, 4), (6, 5, PieceType::Pawn)));
    assert!(game.next((0, 3), (0, 2, PieceType::Pawn)));
    assert!(game.next((6, 5), (7, 6, PieceType::Pawn)));
    assert!(game.next((0, 7), (0, 4, PieceType::Rook)));
    let promo = WireMove::Promotion { origin: (7, 6), target: (6, 7), promo: PieceType::Queen };
    assert!(game.apply_wire_move(promo));
    assert!(!game.board().is_empty_tile(6, 7));
    assert!(game.board().is_piece_white(6, 7));
}
