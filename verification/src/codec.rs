//! The move-sync protocol: a compact binary encoding of a single move
//! (origin square, target square, move kind, promotion choice) used to relay
//! a move between two game instances, and the session control codes carried
//! as single bytes.
use crate::piece::PieceType;
use vstd::prelude::*;

verus! {

/// Session control codes carried as a single byte outside a move frame.
#[derive(Clone, Copy, PartialEq, Eq, Structural, Debug)]
pub enum ControlCode {
    Decline,
    Undo,
    Accept,
    Checkmate,
    Draw,
    Resign,
}

/// A move as carried on the wire.
#[derive(Clone, Copy, PartialEq, Eq, Debug)]
pub enum WireMove {
    Standard { origin: (u8, u8), target: (u8, u8) },
    EnPassant { origin: (u8, u8), target: (u8, u8) },
    Promotion { origin: (u8, u8), target: (u8, u8), promo: PieceType },
    KingsideCastle,
    QueensideCastle,
}

/// A decoded frame: a session control code or a move.
#[derive(Clone, Copy, PartialEq, Eq, Debug)]
pub enum WireMsg {
    Control(ControlCode),
    Move(WireMove),
}

/// A square packed into one byte: the file in the low three bits, the rank
/// shifted above them.
pub open spec fn spec_encode_square(x: u8, y: u8) -> u8 {
    x | (y << 3)
}

pub open spec fn spec_decode_file(b: u8) -> u8 {
    b & 7
}

pub open spec fn spec_decode_rank(b: u8) -> u8 {
    b >> 3
}

/// Decoding a packed square yields the file and rank it was made of: the
/// round trip is the identity on every square of an 8 by 8 board.
pub proof fn lemma_square_round_trip(x: u8, y: u8)
    requires
        x < 8,
        y < 8,
    ensures
        spec_decode_file(spec_encode_square(x, y)) == x,
        spec_decode_rank(spec_encode_square(x, y)) == y,
{
    assert((x | (y << 3)) & 7 == x) by (bit_vector)
        requires
            x < 8,
            y < 8,
    ;
    assert((x | (y << 3)) >> 3 == y) by (bit_vector)
        requires
            x < 8,
            y < 8,
    ;
}

/// Pack a square into one byte.
pub fn encode_square(x: u8, y: u8) -> (r: u8)
    requires
        x < 8,
        y < 8,
    ensures
        r == spec_encode_square(x, y),
{
    x | (y << 3)
}

/// Unpack a square byte into file and rank.
pub fn decode_square(b: u8) -> (r: (u8, u8))
    ensures
        r.0 == spec_decode_file(b),
        r.1 == spec_decode_rank(b),
        r.0 < 8,
        r.1 < 32,
{
    proof {
        assert(b & 7 < 8 && b >> 3 < 32) by (bit_vector);
    }
    (b & 7, b >> 3)
}

/// The byte of a session control code.
pub open spec fn spec_control_byte(c: ControlCode) -> u8 {
    match c {
        ControlCode::Decline => 0,
        ControlCode::Undo => 2,
        ControlCode::Accept => 3,
        ControlCode::Checkmate => 4,
        ControlCode::Draw => 5,
        ControlCode::Resign => 6,
    }
}

/// The control code of a byte, if it names one.
pub open spec fn spec_decode_control(b: u8) -> Option<ControlCode> {
    if b == 0 {
        Some(ControlCode::Decline)
    } else if b == 2 {
        Some(ControlCode::Undo)
    } else if b == 3 {
        Some(ControlCode::Accept)
    } else if b == 4 {
        Some(ControlCode::Checkmate)
    } else if b == 5 {
        Some(ControlCode::Draw)
    } else if b == 6 {
        Some(ControlCode::Resign)
    } else {
        None
    }
}

pub fn encode_control(c: ControlCode) -> (r: u8)
    ensures
        r == spec_control_byte(c),
{
    match c {
        ControlCode::Decline => 0,
        ControlCode::Undo => 2,
        ControlCode::Accept => 3,
        ControlCode::Checkmate => 4,
        ControlCode::Draw => 5,
        ControlCode::Resign => 6,
    }
}

pub fn decode_control(b: u8) -> (r: Option<ControlCode>)
    ensures
        r == spec_decode_control(b),
{
    match b {
        0 => Some(ControlCode::Decline),
        2 => Some(ControlCode::Undo),
        3 => Some(ControlCode::Accept),
        4 => Some(ControlCode::Checkmate),
        5 => Some(ControlCode::Draw),
        6 => Some(ControlCode::Resign),
        _ => None,
    }
}

/// Every control code survives the trip through its byte.
pub proof fn lemma_control_round_trip(c: ControlCode)
    ensures
        spec_decode_control(spec_control_byte(c)) == Some(c),
{
}

/// The promotion piece a payload byte selects: knight, bishop or rook for 0,
/// 1 or 2, the queen for anything else.
pub open spec fn spec_decode_promo(b: u8) -> PieceType {
    if b == 0 {
        PieceType::Knight
    } else if b == 1 {
        PieceType::Bishop
    } else if b == 2 {
        PieceType::Rook
    } else {
        PieceType::Queen
    }
}

/// The payload byte of a promotion piece.
pub open spec fn spec_promo_byte(t: PieceType) -> u8 {
    match t {
        PieceType::Knight => 0,
        PieceType::Bishop => 1,
        PieceType::Rook => 2,
        _ => 3,
    }
}

pub fn decode_promo(b: u8) -> (r: PieceType)
    ensures
        r == spec_decode_promo(b),
{
    match b {
        0 => PieceType::Knight,
        1 => PieceType::Bishop,
        2 => PieceType::Rook,
        _ => PieceType::Queen,
    }
}

pub fn encode_promo(t: PieceType) -> (r: u8)
    ensures
        r == spec_promo_byte(t),
{
    match t {
        PieceType::Knight => 0,
        PieceType::Bishop => 1,
        PieceType::Rook => 2,
        _ => 3,
    }
}

/// Every promotion choice survives the trip through its payload byte.
pub proof fn lemma_promo_round_trip(t: PieceType)
    requires
        t == PieceType::Knight || t == PieceType::Bishop || t == PieceType::Rook || t
            == PieceType::Queen,
    ensures
        spec_decode_promo(spec_promo_byte(t)) == t,
{
}

/// What a received frame means: a single byte is a control code; four or
/// five bytes starting with the marker byte 1 are a move, tagged by the
/// second byte with kind-specific payload. Anything else is malformed.
pub open spec fn spec_decode_frame(s: Seq<u8>) -> Option<WireMsg> {
    if s.len() == 1 {
        match spec_decode_control(s[0]) {
            Some(c) => Some(WireMsg::Control(c)),
            None => None,
        }
    } else if s.len() == 4 || s.len() == 5 {
        if s[0] != 1 {
            None
        } else if s[1] == 0 {
            Some(
                WireMsg::Move(
                    WireMove::Standard {
                        origin: (spec_decode_file(s[2]), spec_decode_rank(s[2])),
                        target: (spec_decode_file(s[3]), spec_decode_rank(s[3])),
                    },
                ),
            )
        } else if s[1] == 1 {
            Some(
                WireMsg::Move(
                    WireMove::EnPassant {
                        origin: (spec_decode_file(s[2]), spec_decode_rank(s[2])),
                        target: (spec_decode_file(s[3]), spec_decode_rank(s[3])),
                    },
                ),
            )
        } else if s[1] == 2 {
            if s.len() == 5 {
                Some(
                    WireMsg::Move(
                        WireMove::Promotion {
                            origin: (spec_decode_file(s[2]), spec_decode_rank(s[2])),
                            target: (spec_decode_file(s[3]), spec_decode_rank(s[3])),
                            promo: spec_decode_promo(s[4]),
                        },
                    ),
                )
            } else {
                None
            }
        } else if s[1] == 3 {
            Some(WireMsg::Move(WireMove::KingsideCastle))
        } else if s[1] == 4 {
            Some(WireMsg::Move(WireMove::QueensideCastle))
        } else {
            None
        }
    } else {
        None
    }
}

/// Decode a received frame.
pub fn decode_frame(buf: &Vec<u8>) -> (r: Option<WireMsg>)
    ensures
        r == spec_decode_frame(buf@),
{
    if buf.len() == 1 {
        match decode_control(buf[0]) {
            Some(c) => Some(WireMsg::Control(c)),
            None => None,
        }
    } else if buf.len() == 4 || buf.len() == 5 {
        if buf[0] != 1 {
            return None;
        }
        let tag = buf[1];
        if tag == 0 || tag == 1 {
            let origin = decode_square(buf[2]);
            let target = decode_square(buf[3]);
            if tag == 0 {
                Some(WireMsg::Move(WireMove::Standard { origin, target }))
            } else {
                Some(WireMsg::Move(WireMove::EnPassant { origin, target }))
            }
        } else if tag == 2 {
            if buf.len() == 5 {
                let origin = decode_square(buf[2]);
                let target = decode_square(buf[3]);
                let promo = decode_promo(buf[4]);
                Some(WireMsg::Move(WireMove::Promotion { origin, target, promo }))
            } else {
                None
            }
        } else if tag == 3 {
            Some(WireMsg::Move(WireMove::KingsideCastle))
        } else if tag == 4 {
            Some(WireMsg::Move(WireMove::QueensideCastle))
        } else {
            None
        }
    } else {
        None
    }
}

/// Encode a standard move of two squares: marker byte, tag 0, packed origin,
/// packed target. Decoding the frame yields the move back.
pub fn encode_standard_frame(origin: (u8, u8), target: (u8, u8)) -> (r: Vec<u8>)
    requires
        origin.0 < 8,
        origin.1 < 8,
        target.0 < 8,
        target.1 < 8,
    ensures
        r@.len() == 4,
        r@[0] == 1,
        r@[1] == 0,
        r@[2] == spec_encode_square(origin.0, origin.1),
        r@[3] == spec_encode_square(target.0, target.1),
        spec_decode_frame(r@) == Some(WireMsg::Move(WireMove::Standard { origin, target })),
{
    let mut v: Vec<u8> = Vec::new();
    v.push(1);
    v.push(0);
    v.push(encode_square(origin.0, origin.1));
    v.push(encode_square(target.0, target.1));
    proof {
        lemma_square_round_trip(origin.0, origin.1);
        lemma_square_round_trip(target.0, target.1);
    }
    v
}

/// Encode a promotion move: marker byte, tag 2, packed origin, packed
/// target, promotion payload byte. Decoding the frame yields the move back.
pub fn encode_promotion_frame(origin: (u8, u8), target: (u8, u8), promo: PieceType) -> (r: Vec<u8>)
    requires
        origin.0 < 8,
        origin.1 < 8,
        target.0 < 8,
        target.1 < 8,
        promo == PieceType::Knight || promo == PieceType::Bishop || promo == PieceType::Rook
            || promo == PieceType::Queen,
    ensures
        r@.len() == 5,
        r@[0] == 1,
        r@[1] == 2,
        r@[2] == spec_encode_square(origin.0, origin.1),
        r@[3] == spec_encode_square(target.0, target.1),
        r@[4] == spec_promo_byte(promo),
        spec_decode_frame(r@) == Some(WireMsg::Move(WireMove::Promotion { origin, target, promo })),
{
    let mut v: Vec<u8> = Vec::new();
    v.push(1);
    v.push(2);
    v.push(encode_square(origin.0, origin.1));
    v.push(encode_square(target.0, target.1));
    v.push(encode_promo(promo));
    proof {
        lemma_square_round_trip(origin.0, origin.1);
        lemma_square_round_trip(target.0, target.1);
        lemma_promo_round_trip(promo);
    }
    v
}

/// Encode a session control code as its single byte.
pub fn encode_control_frame(c: ControlCode) -> (r: Vec<u8>)
    ensures
        r@.len() == 1,
        r@[0] == spec_control_byte(c),
        spec_decode_frame(r@) == Some(WireMsg::Control(c)),
{
    let mut v: Vec<u8> = Vec::new();
    v.push(encode_control(c));
    proof {
        lemma_control_round_trip(c);
    }
    v
}

} // verus!
