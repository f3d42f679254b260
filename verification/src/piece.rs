//! Pieces: a colored, typed unit with a position. Owns the per-piece-type
//! legality predicates ("can this piece reach square `(x, y)`, possibly with a
//! promotion choice") and the mutation that executes a move on a board.
use crate::board::Board;
use crate::board::BoardView;
use crate::board::Tile;
use vstd::math::abs;
use vstd::math::max;
use vstd::math::min;
use vstd::prelude::*;

verus! {

#[derive(Clone, Copy, PartialEq, Eq, Structural, Debug)]
pub enum PieceType {
    Pawn,
    Rook,
    Knight,
    Bishop,
    Queen,
    King,
}

#[derive(Clone, Copy, PartialEq, Eq, Structural, Debug)]
pub struct Piece {
    pub piece_type: PieceType,
    pub pos_x: usize,
    pub pos_y: usize,
    pub is_white: bool,
}

/// The piece stands on a square of the board.
pub open spec fn on_board(p: Piece, b: BoardView) -> bool {
    b.in_bounds(p.pos_x as int, p.pos_y as int)
}

/// The target square is not occupied by the mover's own color.
pub open spec fn free_for(b: BoardView, x: int, y: int, white: bool) -> bool {
    b.empty_at(x, y) || b.white_at(x, y) != white
}

/// Every square strictly between the two rows, in the one file, is empty.
pub open spec fn clear_file_between(b: BoardView, x: int, y1: int, y2: int) -> bool {
    forall|i: int| min(y1, y2) < i < max(y1, y2) ==> b.empty_at(x, i)
}

/// Every square strictly between the two files, in the one rank, is empty.
pub open spec fn clear_rank_between(b: BoardView, y: int, x1: int, x2: int) -> bool {
    forall|i: int| min(x1, x2) < i < max(x1, x2) ==> b.empty_at(i, y)
}

/// Row of the diagonal through `(px, py)` and `(tx, ty)` at file `x`.
pub open spec fn diag_y(px: int, py: int, tx: int, ty: int, x: int) -> int {
    if (tx >= px) == (ty >= py) {
        py + (x - px)
    } else {
        py - (x - px)
    }
}

/// Every square strictly between the two endpoints of the diagonal is empty.
pub open spec fn clear_diag_between(b: BoardView, px: int, py: int, tx: int, ty: int) -> bool {
    forall|x: int|
        min(px, tx) < x < max(px, tx) ==> b.empty_at(x, #[trigger] diag_y(px, py, tx, ty, x))
}

/// Rook-shaped move: same rank or same file, the target not occupied by the
/// mover's own color, every intervening square strictly empty.
pub open spec fn rook_path_ok(p: Piece, tx: int, ty: int, b: BoardView) -> bool {
    let px = p.pos_x as int;
    let py = p.pos_y as int;
    &&& free_for(b, tx, ty, p.is_white)
    &&& ({
        ||| (tx == px && ty != py && clear_file_between(b, tx, py, ty))
        ||| (ty == py && tx != px && clear_rank_between(b, ty, px, tx))
    })
}

/// Bishop-shaped move: equal absolute delta in x and y, the target not
/// occupied by the mover's own color, every intervening square strictly empty.
pub open spec fn bishop_path_ok(p: Piece, tx: int, ty: int, b: BoardView) -> bool {
    let px = p.pos_x as int;
    let py = p.pos_y as int;
    &&& free_for(b, tx, ty, p.is_white)
    &&& tx != px
    &&& abs(tx - px) == abs(ty - py)
    &&& clear_diag_between(b, px, py, tx, ty)
}

/// The far rank a pawn of the given color promotes on.
pub open spec fn far_rank(b: BoardView, white: bool) -> int {
    if white {
        b.size_y - 1
    } else {
        0
    }
}

/// The selector a pawn move must carry: plain `Pawn` unless the move lands on
/// the far rank, where a promotion choice among rook, knight, bishop and
/// queen is required.
pub open spec fn pawn_promo_ok(b: BoardView, white: bool, ty: int, promo: PieceType) -> bool {
    if ty == far_rank(b, white) {
        promo != PieceType::Pawn && promo != PieceType::King
    } else {
        promo == PieceType::Pawn
    }
}

/// Pawn move: one square forward onto an empty tile; or a diagonal one-square
/// capture onto an enemy-occupied tile; or a two-square forward move from the
/// pawn's starting rank with both tiles empty. "Forward" is +1 in y for
/// white, -1 for black.
pub open spec fn pawn_legal(p: Piece, tx: int, ty: int, b: BoardView, promo: PieceType) -> bool {
    let px = p.pos_x as int;
    let py = p.pos_y as int;
    &&& pawn_promo_ok(b, p.is_white, ty, promo)
    &&& if p.is_white {
        ||| (tx == px && ty == py + 1 && b.empty_at(tx, ty))
        ||| (ty == py + 1 && abs(tx - px) == 1 && !b.empty_at(tx, ty) && !b.white_at(tx, ty))
        ||| (tx == px && ty == py + 2 && py == 1 && b.empty_at(tx, ty) && b.empty_at(tx, py + 1))
    } else {
        ||| (tx == px && ty == py - 1 && b.empty_at(tx, ty))
        ||| (ty == py - 1 && abs(tx - px) == 1 && !b.empty_at(tx, ty) && b.white_at(tx, ty))
        ||| (tx == px && ty == py - 2 && py == b.size_y - 2 && b.empty_at(tx, ty) && b.empty_at(
            tx,
            py - 1,
        ))
    }
}

pub open spec fn rook_legal(p: Piece, tx: int, ty: int, b: BoardView, promo: PieceType) -> bool {
    promo == PieceType::Rook && rook_path_ok(p, tx, ty, b)
}

pub open spec fn bishop_legal(p: Piece, tx: int, ty: int, b: BoardView, promo: PieceType) -> bool {
    promo == PieceType::Bishop && bishop_path_ok(p, tx, ty, b)
}

/// Queen move: legal iff legal as a rook or as a bishop.
pub open spec fn queen_legal(p: Piece, tx: int, ty: int, b: BoardView, promo: PieceType) -> bool {
    promo == PieceType::Queen && (rook_path_ok(p, tx, ty, b) || bishop_path_ok(p, tx, ty, b))
}

/// Knight move: exact (2, 1) or (1, 2) delta pattern onto an empty or
/// enemy-occupied square.
pub open spec fn knight_legal(p: Piece, tx: int, ty: int, b: BoardView, promo: PieceType) -> bool {
    let dx = abs(tx - p.pos_x as int);
    let dy = abs(ty - p.pos_y as int);
    &&& promo == PieceType::Knight
    &&& (b.empty_at(tx, ty) || b.white_at(tx, ty) != p.is_white)
    &&& ((dx == 2 && dy == 1) || (dx == 1 && dy == 2))
}

/// King move: a one-square step in any direction onto a square not occupied
/// by the mover's own color; or castling, a two-square horizontal step where
/// the king's square and the corresponding edge square both still carry the
/// original-piece flag.
pub open spec fn king_legal(p: Piece, tx: int, ty: int, b: BoardView, promo: PieceType) -> bool {
    let px = p.pos_x as int;
    let py = p.pos_y as int;
    &&& promo == PieceType::King
    &&& free_for(b, tx, ty, p.is_white)
    &&& ({
        ||| (abs(tx - px) <= 1 && abs(ty - py) <= 1 && !(tx == px && ty == py))
        ||| (ty == py && tx == px + 2 && b.orig_at(px, py) && b.orig_at(b.size_x - 1, py))
        ||| (ty == py && tx == px - 2 && b.orig_at(px, py) && b.orig_at(0, py))
    })
}

/// Whether the piece may reach `(tx, ty)` carrying selector `promo`, by
/// movement rules alone (king safety is not considered here). Out-of-bounds
/// targets are never legal. For non-pawns the selector must equal the piece's
/// own type.
pub open spec fn piece_legal(p: Piece, tx: int, ty: int, b: BoardView, promo: PieceType) -> bool {
    &&& b.in_bounds(tx, ty)
    &&& match p.piece_type {
        PieceType::Pawn => pawn_legal(p, tx, ty, b, promo),
        PieceType::Rook => rook_legal(p, tx, ty, b, promo),
        PieceType::Knight => knight_legal(p, tx, ty, b, promo),
        PieceType::Bishop => bishop_legal(p, tx, ty, b, promo),
        PieceType::Queen => queen_legal(p, tx, ty, b, promo),
        PieceType::King => king_legal(p, tx, ty, b, promo),
    }
}

/// A pawn move landing on the far rank must carry a promotion choice among
/// rook, knight, bishop and queen; `Pawn` and `King` selectors are rejected
/// there.
pub proof fn lemma_pawn_promotion(p: Piece, tx: int, ty: int, b: BoardView, promo: PieceType)
    requires
        p.piece_type == PieceType::Pawn,
        ty == far_rank(b, p.is_white),
    ensures
        piece_legal(p, tx, ty, b, promo) ==> (promo == PieceType::Rook || promo
            == PieceType::Knight || promo == PieceType::Bishop || promo == PieceType::Queen),
        promo == PieceType::Pawn || promo == PieceType::King ==> !piece_legal(p, tx, ty, b, promo),
{
}

/// Any legal move changes the square the piece stands on.
pub proof fn lemma_legal_move_moves(p: Piece, tx: int, ty: int, b: BoardView, promo: PieceType)
    requires
        piece_legal(p, tx, ty, b, promo),
    ensures
        !(tx == p.pos_x as int && ty == p.pos_y as int),
{
}

/// No legal move targets a square occupied by the mover's own color.
pub proof fn lemma_legal_target_free(p: Piece, tx: int, ty: int, b: BoardView, promo: PieceType)
    requires
        piece_legal(p, tx, ty, b, promo),
    ensures
        free_for(b, tx, ty, p.is_white),
{
}

impl Piece {
    /// A new piece placed on the board: its square becomes occupied with the
    /// piece's color.
    pub fn new(board: &mut Board, piece_type: PieceType, pos_x: usize, pos_y: usize, is_white: bool) -> (r: Piece)
        requires
            old(board).inv(),
            old(board)@.in_bounds(pos_x as int, pos_y as int),
        ensures
            final(board).inv(),
            final(board).size_x == old(board).size_x,
            final(board).size_y == old(board).size_y,
            final(board)@ == old(board)@.update_tile(
                pos_x as int,
                pos_y as int,
                Tile {
                    color: old(board)@.tile(pos_x as int, pos_y as int).color,
                    is_empty: false,
                    piece_is_white: is_white,
                    has_orig_piece: old(board)@.tile(pos_x as int, pos_y as int).has_orig_piece,
                },
            ),
            r == (Piece { piece_type, pos_x, pos_y, is_white }),
    {
        board.set_emptiness(pos_x, pos_y, false);
        board.set_piece_is_white(pos_x, pos_y, is_white);
        proof {
            crate::board::lemma_flat_index(old(board)@.size_x, old(board)@.size_y, pos_x as int, pos_y as int);
            assert(board@ =~= old(board)@.update_tile(
                pos_x as int,
                pos_y as int,
                Tile {
                    color: old(board)@.tile(pos_x as int, pos_y as int).color,
                    is_empty: false,
                    piece_is_white: is_white,
                    has_orig_piece: old(board)@.tile(pos_x as int, pos_y as int).has_orig_piece,
                },
            ));
        }
        Piece { piece_type, pos_x, pos_y, is_white }
    }

    /// Execute a move on the board: unconditional mutation, invoked only
    /// after the move was checked legal (or speculatively on a snapshot
    /// during check-safety probing). Marks the origin empty, the target
    /// occupied with the mover's color, clears the original-piece flag on
    /// both, moves the piece and sets its type to the selector.
    pub fn move_to(&mut self, to_x: usize, to_y: usize, board: &mut Board, promotion: PieceType)
        requires
            old(board).inv(),
            on_board(*old(self), old(board)@),
            old(board)@.in_bounds(to_x as int, to_y as int),
        ensures
            final(board).inv(),
            final(board).size_x == old(board).size_x,
            final(board).size_y == old(board).size_y,
            final(board)@ == old(board)@.with_move(
                old(self).pos_x as int,
                old(self).pos_y as int,
                to_x as int,
                to_y as int,
                old(self).is_white,
            ),
            final(self).pos_x == to_x,
            final(self).pos_y == to_y,
            final(self).piece_type == promotion,
            final(self).is_white == old(self).is_white,
    {
        board.set_emptiness(to_x, to_y, false);
        board.set_piece_is_white(to_x, to_y, self.is_white);
        board.false_orig_piece(to_x, to_y);
        board.set_emptiness(self.pos_x, self.pos_y, true);
        board.false_orig_piece(self.pos_x, self.pos_y);
        proof {
            crate::board::lemma_flat_index(old(board)@.size_x, old(board)@.size_y, old(self).pos_x as int, old(self).pos_y as int);
            crate::board::lemma_flat_index(old(board)@.size_x, old(board)@.size_y, to_x as int, to_y as int);
            assert(board@ =~= old(board)@.with_move(
                old(self).pos_x as int,
                old(self).pos_y as int,
                to_x as int,
                to_y as int,
                old(self).is_white,
            ));
        }
        self.pos_x = to_x;
        self.pos_y = to_y;
        self.piece_type = promotion;
    }

    /// Read-only legality predicate: dispatches on the piece's type. False
    /// for any out-of-bounds target.
    pub fn check_to(&self, to_x: usize, to_y: usize, board: &Board, promotion: PieceType) -> (r: bool)
        requires
            board.inv(),
            on_board(*self, board@),
        ensures
            r == piece_legal(*self, to_x as int, to_y as int, board@, promotion),
    {
        if !board.is_valid_tile(to_x, to_y) {
            return false;
        }
        match self.piece_type {
            PieceType::Pawn => self.check_pawn(to_x, to_y, board, promotion),
            PieceType::Rook => self.check_rook(to_x, to_y, board, promotion),
            PieceType::Knight => self.check_knight(to_x, to_y, board, promotion),
            PieceType::Bishop => self.check_bishop(to_x, to_y, board, promotion),
            PieceType::Queen => self.check_queen(to_x, to_y, board, promotion),
            PieceType::King => self.check_king(to_x, to_y, board, promotion),
        }
    }

    fn check_pawn(&self, to_x: usize, to_y: usize, board: &Board, promotion: PieceType) -> (r: bool)
        requires
            board.inv(),
            on_board(*self, board@),
            board@.in_bounds(to_x as int, to_y as int),
        ensures
            r == pawn_legal(*self, to_x as int, to_y as int, board@, promotion),
    {
        let on_far_rank = if self.is_white {
            to_y == board.size_y - 1
        } else {
            to_y == 0
        };
        let promo_ok = if on_far_rank {
            promotion != PieceType::Pawn && promotion != PieceType::King
        } else {
            promotion == PieceType::Pawn
        };
        if !promo_ok {
            return false;
        }
        if self.is_white {
            if to_x == self.pos_x && to_y == self.pos_y + 1 {
                return board.is_empty_tile(to_x, to_y);
            }
            if to_y == self.pos_y + 1 && (to_x + 1 == self.pos_x || to_x == self.pos_x + 1) {
                return !board.is_empty_tile(to_x, to_y) && !board.is_piece_white(to_x, to_y);
            }
            if to_x == self.pos_x && to_y == self.pos_y + 2 && self.pos_y == 1 {
                return board.is_empty_tile(to_x, to_y) && board.is_empty_tile(to_x, self.pos_y + 1);
            }
            false
        } else {
            if to_x == self.pos_x && to_y + 1 == self.pos_y {
                return board.is_empty_tile(to_x, to_y);
            }
            if to_y + 1 == self.pos_y && (to_x + 1 == self.pos_x || to_x == self.pos_x + 1) {
                return !board.is_empty_tile(to_x, to_y) && board.is_piece_white(to_x, to_y);
            }
            if to_x == self.pos_x && to_y + 2 == self.pos_y && self.pos_y == board.size_y - 2 {
                return board.is_empty_tile(to_x, to_y) && board.is_empty_tile(to_x, to_y + 1);
            }
            false
        }
    }

    #[verifier::loop_isolation(false)]
    fn check_rook(&self, to_x: usize, to_y: usize, board: &Board, promotion: PieceType) -> (r: bool)
        requires
            board.inv(),
            on_board(*self, board@),
            board@.in_bounds(to_x as int, to_y as int),
        ensures
            r == rook_legal(*self, to_x as int, to_y as int, board@, promotion),
    {
        if promotion != PieceType::Rook {
            return false;
        }
        if !board.is_empty_tile(to_x, to_y) && board.is_piece_white(to_x, to_y) == self.is_white {
            return false;
        }
        if to_x == self.pos_x && to_y != self.pos_y {
            let lo = if to_y > self.pos_y {
                self.pos_y
            } else {
                to_y
            };
            let hi = if to_y > self.pos_y {
                to_y
            } else {
                self.pos_y
            };
            let mut i = lo + 1;
            while i < hi
                invariant
                    lo < i <= hi,
                    forall|j: int| lo < j < i ==> board@.empty_at(to_x as int, j),
                decreases hi - i,
            {
                if !board.is_empty_tile(to_x, i) {
                    return false;
                }
                i = i + 1;
            }
            return true;
        }
        if to_y == self.pos_y && to_x != self.pos_x {
            let lo = if to_x > self.pos_x {
                self.pos_x
            } else {
                to_x
            };
            let hi = if to_x > self.pos_x {
                to_x
            } else {
                self.pos_x
            };
            let mut i = lo + 1;
            while i < hi
                invariant
                    lo < i <= hi,
                    forall|j: int| lo < j < i ==> board@.empty_at(j, to_y as int),
                decreases hi - i,
            {
                if !board.is_empty_tile(i, to_y) {
                    return false;
                }
                i = i + 1;
            }
            return true;
        }
        false
    }

    fn check_knight(&self, to_x: usize, to_y: usize, board: &Board, promotion: PieceType) -> (r: bool)
        requires
            board.inv(),
            on_board(*self, board@),
            board@.in_bounds(to_x as int, to_y as int),
        ensures
            r == knight_legal(*self, to_x as int, to_y as int, board@, promotion),
    {
        if promotion != PieceType::Knight {
            return false;
        }
        if !board.is_empty_tile(to_x, to_y) && board.is_piece_white(to_x, to_y) == self.is_white {
            return false;
        }
        let adx = if to_x >= self.pos_x {
            to_x - self.pos_x
        } else {
            self.pos_x - to_x
        };
        let ady = if to_y >= self.pos_y {
            to_y - self.pos_y
        } else {
            self.pos_y - to_y
        };
        (adx == 2 && ady == 1) || (adx == 1 && ady == 2)
    }

    #[verifier::loop_isolation(false)]
    fn check_bishop(&self, to_x: usize, to_y: usize, board: &Board, promotion: PieceType) -> (r: bool)
        requires
            board.inv(),
            on_board(*self, board@),
            board@.in_bounds(to_x as int, to_y as int),
        ensures
            r == bishop_legal(*self, to_x as int, to_y as int, board@, promotion),
    {
        if promotion != PieceType::Bishop {
            return false;
        }
        if !board.is_empty_tile(to_x, to_y) && board.is_piece_white(to_x, to_y) == self.is_white {
            return false;
        }
        let px = self.pos_x;
        let py = self.pos_y;
        let adx = if to_x >= px {
            to_x - px
        } else {
            px - to_x
        };
        let ady = if to_y >= py {
            to_y - py
        } else {
            py - to_y
        };
        if to_x == px || adx != ady {
            return false;
        }
        let up = (to_x >= px) == (to_y >= py);
        let lo = if to_x > px {
            px
        } else {
            to_x
        };
        let hi = if to_x > px {
            to_x
        } else {
            px
        };
        let mut x = lo + 1;
        while x < hi
            invariant
                lo < x <= hi,
                forall|j: int|
                    lo < j < x ==> board@.empty_at(
                        j,
                        #[trigger] diag_y(px as int, py as int, to_x as int, to_y as int, j),
                    ),
            decreases hi - x,
        {
            let yy = if up {
                if x >= px {
                    py + (x - px)
                } else {
                    py - (px - x)
                }
            } else {
                if x >= px {
                    py - (x - px)
                } else {
                    py + (px - x)
                }
            };
            assert(yy as int == diag_y(px as int, py as int, to_x as int, to_y as int, x as int));
            assert(board@.in_bounds(x as int, yy as int));
            if !board.is_empty_tile(x, yy) {
                return false;
            }
            x = x + 1;
        }
        true
    }

    fn check_queen(&self, to_x: usize, to_y: usize, board: &Board, promotion: PieceType) -> (r: bool)
        requires
            board.inv(),
            on_board(*self, board@),
            board@.in_bounds(to_x as int, to_y as int),
        ensures
            r == queen_legal(*self, to_x as int, to_y as int, board@, promotion),
    {
        if promotion != PieceType::Queen {
            return false;
        }
        self.check_rook(to_x, to_y, board, PieceType::Rook) || self.check_bishop(
            to_x,
            to_y,
            board,
            PieceType::Bishop,
        )
    }

    fn check_king(&self, to_x: usize, to_y: usize, board: &Board, promotion: PieceType) -> (r: bool)
        requires
            board.inv(),
            on_board(*self, board@),
            board@.in_bounds(to_x as int, to_y as int),
        ensures
            r == king_legal(*self, to_x as int, to_y as int, board@, promotion),
    {
        if promotion != PieceType::King {
            return false;
        }
        if !board.is_empty_tile(to_x, to_y) && board.is_piece_white(to_x, to_y) == self.is_white {
            return false;
        }
        let adx = if to_x >= self.pos_x {
            to_x - self.pos_x
        } else {
            self.pos_x - to_x
        };
        let ady = if to_y >= self.pos_y {
            to_y - self.pos_y
        } else {
            self.pos_y - to_y
        };
        if adx <= 1 && ady <= 1 && !(adx == 0 && ady == 0) {
            return true;
        }
        if to_y == self.pos_y && to_x == self.pos_x + 2 && board.check_orig(self.pos_x, self.pos_y)
            && board.check_orig(board.size_x - 1, self.pos_y) {
            return true;
        }
        if to_y == self.pos_y && self.pos_x >= 2 && to_x == self.pos_x - 2 && board.check_orig(
            self.pos_x,
            self.pos_y,
        ) && board.check_orig(0, self.pos_y) {
            return true;
        }
        false
    }
}

} // verus!
