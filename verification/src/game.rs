//! The game: two piece collections, the active board, whose-turn state and
//! the derived legal-move map. Computes pseudo-legal moves, filters out moves
//! leaving the mover's own king in check, executes moves (including captures)
//! and detects terminal positions.
use crate::board::Board;
use crate::board::BoardView;
use crate::board::Tile;
use crate::piece::Piece;
use crate::piece::PieceType;
use crate::piece::on_board;
use crate::piece::piece_legal;
use vstd::prelude::*;

verus! {

/// One legal-move entry: an origin square paired with a target square and the
/// resulting piece type (the piece's own type, or the chosen promotion type
/// for a pawn reaching the far rank).
pub type MoveEntry = ((usize, usize), (usize, usize, PieceType));

/// The piece stands on the given square.
pub open spec fn sits_at(p: Piece, x: int, y: int) -> bool {
    p.pos_x as int == x && p.pos_y as int == y
}

/// Index `i` of the collection holds a piece on the given square.
pub open spec fn piece_index_at(s: Seq<Piece>, x: int, y: int, i: int) -> bool {
    0 <= i < s.len() && sits_at(s[i], x, y)
}

/// Some piece of the collection stands on the given square.
pub open spec fn occupied_by(s: Seq<Piece>, x: int, y: int) -> bool {
    exists|i: int| piece_index_at(s, x, y, i)
}

/// Every piece of the collection has the given color and stands on the board.
pub open spec fn pieces_ok(s: Seq<Piece>, b: BoardView, white: bool) -> bool {
    forall|i: int|
        0 <= i < s.len() ==> (#[trigger] s[i]).is_white == white && b.in_bounds(
            s[i].pos_x as int,
            s[i].pos_y as int,
        )
}

/// No two pieces of the collection share a square.
pub open spec fn distinct_positions(s: Seq<Piece>) -> bool {
    forall|i: int, j: int|
        #![trigger s[i], s[j]]
        0 <= i < j < s.len() ==> !(s[i].pos_x == s[j].pos_x && s[i].pos_y == s[j].pos_y)
}

/// The square of the first king in the collection from index `i` on; `(0, 0)`
/// when there is none.
pub open spec fn king_square_from(s: Seq<Piece>, i: int) -> (int, int)
    decreases s.len() - i,
{
    if i < 0 || i >= s.len() {
        (0, 0)
    } else if s[i].piece_type == PieceType::King {
        (s[i].pos_x as int, s[i].pos_y as int)
    } else {
        king_square_from(s, i + 1)
    }
}

/// The square of the first king in the collection; `(0, 0)` when there is
/// none.
pub open spec fn king_square(s: Seq<Piece>) -> (int, int) {
    king_square_from(s, 0)
}

/// Pushing a piece adds exactly its square to the occupied set.
pub proof fn lemma_occupied_push(s: Seq<Piece>, p: Piece, x: int, y: int)
    ensures
        occupied_by(s.push(p), x, y) == (occupied_by(s, x, y) || sits_at(p, x, y)),
{
    if occupied_by(s.push(p), x, y) {
        let i = choose|i: int| piece_index_at(s.push(p), x, y, i);
        if i < s.len() {
            assert(piece_index_at(s, x, y, i));
        } else {
            assert(s.push(p)[i] == p);
        }
    }
    if occupied_by(s, x, y) {
        let i = choose|i: int| piece_index_at(s, x, y, i);
        assert(piece_index_at(s.push(p), x, y, i));
    }
    if sits_at(p, x, y) {
        assert(piece_index_at(s.push(p), x, y, s.len() as int));
    }
}

/// A square is occupied by a concatenation exactly when one of the halves
/// occupies it.
pub proof fn lemma_occupied_concat(s1: Seq<Piece>, s2: Seq<Piece>, x: int, y: int)
    ensures
        occupied_by(s1 + s2, x, y) == (occupied_by(s1, x, y) || occupied_by(s2, x, y)),
{
    if occupied_by(s1 + s2, x, y) {
        let i = choose|i: int| piece_index_at(s1 + s2, x, y, i);
        if i < s1.len() {
            assert((s1 + s2)[i] == s1[i]);
            assert(piece_index_at(s1, x, y, i));
        } else {
            assert((s1 + s2)[i] == s2[i - s1.len()]);
            assert(piece_index_at(s2, x, y, i - s1.len()));
        }
    }
    if occupied_by(s1, x, y) {
        let i = choose|i: int| piece_index_at(s1, x, y, i);
        assert((s1 + s2)[i] == s1[i]);
        assert(piece_index_at(s1 + s2, x, y, i));
    }
    if occupied_by(s2, x, y) {
        let i = choose|i: int| piece_index_at(s2, x, y, i);
        assert((s1 + s2)[s1.len() + i] == s2[i]);
        assert(piece_index_at(s1 + s2, x, y, s1.len() + i));
    }
}

/// A pushed sequence contains an element exactly when the old one does or the
/// element is the pushed one.
pub proof fn lemma_push_contains<T>(s: Seq<T>, v: T, e: T)
    ensures
        s.push(v).contains(e) == (s.contains(e) || e == v),
{
    if s.push(v).contains(e) {
        let k = choose|k: int| 0 <= k < s.push(v).len() && s.push(v)[k] == e;
        if k < s.len() {
            assert(s[k] == e);
        }
    }
    if s.contains(e) {
        let k = choose|k: int| 0 <= k < s.len() && s[k] == e;
        assert(s.push(v)[k] == e);
    }
    if e == v {
        assert(s.push(v)[s.len() as int] == e);
    }
}

/// Updating one piece changes occupancy only at its old and new squares.
pub proof fn lemma_occupied_update_frame(s: Seq<Piece>, mi: int, q: Piece, x: int, y: int)
    requires
        0 <= mi < s.len(),
        !sits_at(q, x, y),
        !sits_at(s[mi], x, y),
    ensures
        occupied_by(s.update(mi, q), x, y) == occupied_by(s, x, y),
{
    let s2 = s.update(mi, q);
    if occupied_by(s2, x, y) {
        let k = choose|k: int| piece_index_at(s2, x, y, k);
        assert(k != mi);
        assert(piece_index_at(s, x, y, k));
    }
    if occupied_by(s, x, y) {
        let k = choose|k: int| piece_index_at(s, x, y, k);
        assert(k != mi);
        assert(piece_index_at(s2, x, y, k));
    }
}

/// Removing one piece changes occupancy only at its square.
pub proof fn lemma_occupied_remove_frame(s: Seq<Piece>, c: int, x: int, y: int)
    requires
        0 <= c < s.len(),
        !sits_at(s[c], x, y),
    ensures
        occupied_by(s.remove(c), x, y) == occupied_by(s, x, y),
{
    s.remove_ensures(c);
    let s2 = s.remove(c);
    if occupied_by(s2, x, y) {
        let k = choose|k: int| piece_index_at(s2, x, y, k);
        if k < c {
            assert(piece_index_at(s, x, y, k));
        } else {
            assert(s2[k] == s[k + 1]);
            assert(piece_index_at(s, x, y, k + 1));
        }
    }
    if occupied_by(s, x, y) {
        let k = choose|k: int| piece_index_at(s, x, y, k);
        assert(k != c);
        if k < c {
            assert(s2[k] == s[k]);
            assert(piece_index_at(s2, x, y, k));
        } else {
            assert(s2[k - 1] == s[k]);
            assert(piece_index_at(s2, x, y, k - 1));
        }
    }
}

/// After removing the unique piece of a collection standing on a square, no
/// piece of it stands there.
pub proof fn lemma_occupied_remove_gone(s: Seq<Piece>, c: int, x: int, y: int)
    requires
        0 <= c < s.len(),
        sits_at(s[c], x, y),
        forall|k: int| piece_index_at(s, x, y, k) ==> k == c,
    ensures
        !occupied_by(s.remove(c), x, y),
{
    s.remove_ensures(c);
    let s2 = s.remove(c);
    if occupied_by(s2, x, y) {
        let k = choose|k: int| piece_index_at(s2, x, y, k);
        if k < c {
            assert(piece_index_at(s, x, y, k));
        } else {
            assert(s2[k] == s[k + 1]);
            assert(piece_index_at(s, x, y, k + 1));
        }
    }
}

/// The piece order of a standard back rank, by file: rook, knight, bishop,
/// queen, king, bishop, knight, rook.
pub open spec fn spec_back_rank_type(k: int) -> PieceType {
    if k == 0 || k == 7 {
        PieceType::Rook
    } else if k == 1 || k == 6 {
        PieceType::Knight
    } else if k == 2 || k == 5 {
        PieceType::Bishop
    } else if k == 3 {
        PieceType::Queen
    } else {
        PieceType::King
    }
}

/// White's sixteen pieces in their standard places: eight pawns on rank 1,
/// then rook, knight, bishop, queen, king, bishop, knight, rook on rank 0.
pub open spec fn standard_white_pieces() -> Seq<Piece> {
    seq![
        Piece { piece_type: PieceType::Pawn, pos_x: 0, pos_y: 1, is_white: true },
        Piece { piece_type: PieceType::Pawn, pos_x: 1, pos_y: 1, is_white: true },
        Piece { piece_type: PieceType::Pawn, pos_x: 2, pos_y: 1, is_white: true },
        Piece { piece_type: PieceType::Pawn, pos_x: 3, pos_y: 1, is_white: true },
        Piece { piece_type: PieceType::Pawn, pos_x: 4, pos_y: 1, is_white: true },
        Piece { piece_type: PieceType::Pawn, pos_x: 5, pos_y: 1, is_white: true },
        Piece { piece_type: PieceType::Pawn, pos_x: 6, pos_y: 1, is_white: true },
        Piece { piece_type: PieceType::Pawn, pos_x: 7, pos_y: 1, is_white: true },
        Piece { piece_type: PieceType::Rook, pos_x: 0, pos_y: 0, is_white: true },
        Piece { piece_type: PieceType::Knight, pos_x: 1, pos_y: 0, is_white: true },
        Piece { piece_type: PieceType::Bishop, pos_x: 2, pos_y: 0, is_white: true },
        Piece { piece_type: PieceType::Queen, pos_x: 3, pos_y: 0, is_white: true },
        Piece { piece_type: PieceType::King, pos_x: 4, pos_y: 0, is_white: true },
        Piece { piece_type: PieceType::Bishop, pos_x: 5, pos_y: 0, is_white: true },
        Piece { piece_type: PieceType::Knight, pos_x: 6, pos_y: 0, is_white: true },
        Piece { piece_type: PieceType::Rook, pos_x: 7, pos_y: 0, is_white: true },
    ]
}

/// Black's sixteen pieces in their standard places: eight pawns on rank 6,
/// then rook, knight, bishop, queen, king, bishop, knight, rook on rank 7.
pub open spec fn standard_black_pieces() -> Seq<Piece> {
    seq![
        Piece { piece_type: PieceType::Pawn, pos_x: 0, pos_y: 6, is_white: false },
        Piece { piece_type: PieceType::Pawn, pos_x: 1, pos_y: 6, is_white: false },
        Piece { piece_type: PieceType::Pawn, pos_x: 2, pos_y: 6, is_white: false },
        Piece { piece_type: PieceType::Pawn, pos_x: 3, pos_y: 6, is_white: false },
        Piece { piece_type: PieceType::Pawn, pos_x: 4, pos_y: 6, is_white: false },
        Piece { piece_type: PieceType::Pawn, pos_x: 5, pos_y: 6, is_white: false },
        Piece { piece_type: PieceType::Pawn, pos_x: 6, pos_y: 6, is_white: false },
        Piece { piece_type: PieceType::Pawn, pos_x: 7, pos_y: 6, is_white: false },
        Piece { piece_type: PieceType::Rook, pos_x: 0, pos_y: 7, is_white: false },
        Piece { piece_type: PieceType::Knight, pos_x: 1, pos_y: 7, is_white: false },
        Piece { piece_type: PieceType::Bishop, pos_x: 2, pos_y: 7, is_white: false },
        Piece { piece_type: PieceType::Queen, pos_x: 3, pos_y: 7, is_white: false },
        Piece { piece_type: PieceType::King, pos_x: 4, pos_y: 7, is_white: false },
        Piece { piece_type: PieceType::Bishop, pos_x: 5, pos_y: 7, is_white: false },
        Piece { piece_type: PieceType::Knight, pos_x: 6, pos_y: 7, is_white: false },
        Piece { piece_type: PieceType::Rook, pos_x: 7, pos_y: 7, is_white: false },
    ]
}

pub struct Game {
    pub white_pieces: Vec<Piece>,
    pub black_pieces: Vec<Piece>,
    pub board: Board,
    pub all_moves: Vec<MoveEntry>,
    pub whites_turn: bool,
}

impl Game {
    /// The side to move.
    pub open spec fn mover_pieces(self) -> Seq<Piece> {
        if self.whites_turn {
            self.white_pieces@
        } else {
            self.black_pieces@
        }
    }

    /// The side not to move.
    pub open spec fn opponent_pieces(self) -> Seq<Piece> {
        if self.whites_turn {
            self.black_pieces@
        } else {
            self.white_pieces@
        }
    }

    /// Both collections, white first.
    pub open spec fn all_pieces(self) -> Seq<Piece> {
        self.white_pieces@ + self.black_pieces@
    }

    /// Well-formedness: the board is well-formed, every piece has its
    /// collection's color and stands on the board, no two pieces share a
    /// square, a square is empty exactly when no piece stands on it, and an
    /// occupied square's color flag matches the occupant.
    pub open spec fn wf(self) -> bool {
        &&& self.board.inv()
        &&& pieces_ok(self.white_pieces@, self.board@, true)
        &&& pieces_ok(self.black_pieces@, self.board@, false)
        &&& distinct_positions(self.all_pieces())
        &&& forall|x: int, y: int|
            self.board@.in_bounds(x, y) ==> (#[trigger] self.board@.empty_at(x, y) <==> !occupied_by(
                self.all_pieces(),
                x,
                y,
            ))
        &&& forall|x: int, y: int|
            self.board@.in_bounds(x, y) && !self.board@.empty_at(x, y) ==> (
            #[trigger] self.board@.white_at(x, y) <==> occupied_by(self.white_pieces@, x, y))
    }

    /// The square the mover's king stands on after the candidate move: the
    /// target if the moved piece ends as the king, else the king's unchanged
    /// square.
    pub open spec fn king_square_after(self, tx: int, ty: int, t: PieceType) -> (int, int) {
        if t == PieceType::King {
            (tx, ty)
        } else {
            king_square(self.mover_pieces())
        }
    }

    /// Opponent piece `j`, not itself captured by the candidate move, can
    /// reach the mover's king square on the board as it stands after the
    /// move.
    pub open spec fn attacks_after(self, p: Piece, tx: int, ty: int, t: PieceType, j: int) -> bool {
        let b2 = self.board@.with_move(p.pos_x as int, p.pos_y as int, tx, ty, p.is_white);
        let k = self.king_square_after(tx, ty, t);
        let d = self.opponent_pieces()[j];
        &&& !sits_at(d, tx, ty)
        &&& piece_legal(d, k.0, k.1, b2, d.piece_type)
    }

    /// The candidate move leaves the mover's own king attacked by some
    /// surviving opponent piece.
    pub open spec fn leaves_in_check(self, p: Piece, tx: int, ty: int, t: PieceType) -> bool {
        exists|j: int|
            0 <= j < self.opponent_pieces().len() && #[trigger] self.attacks_after(p, tx, ty, t, j)
    }

    /// The piece may make the move: legal by movement rules and free of
    /// self-check.
    pub open spec fn full_legal(self, p: Piece, tx: int, ty: int, t: PieceType) -> bool {
        &&& piece_legal(p, tx, ty, self.board@, t)
        &&& !self.leaves_in_check(p, tx, ty, t)
    }

    /// Some piece of the side to move stands on the origin square and may
    /// make the move.
    pub open spec fn move_entry_allowed(self, fx: int, fy: int, tx: int, ty: int, t: PieceType) -> bool {
        exists|i: int|
            piece_index_at(self.mover_pieces(), fx, fy, i) && self.full_legal(
                #[trigger] self.mover_pieces()[i],
                tx,
                ty,
                t,
            )
    }

    /// The entry names a move the current position allows.
    pub open spec fn entry_allowed(self, e: MoveEntry) -> bool {
        self.move_entry_allowed(e.0.0 as int, e.0.1 as int, e.1.0 as int, e.1.1 as int, e.1.2)
    }

    /// A fresh game: an 8 by 8 board, no pieces, white to move, no moves
    /// computed.
    pub fn new() -> (g: Game)
        ensures
            g.wf(),
            g.whites_turn,
            g.white_pieces@.len() == 0,
            g.black_pieces@.len() == 0,
            g.all_moves@.len() == 0,
            g.board.size_x == 8,
            g.board.size_y == 8,
    {
        let g = Game {
            white_pieces: Vec::new(),
            black_pieces: Vec::new(),
            board: Board::new(8, 8),
            all_moves: Vec::new(),
            whites_turn: true,
        };
        proof {
            assert forall|x: int, y: int| g.board@.in_bounds(x, y) implies g.board@.empty_at(x, y) by {
                assert(g.board@.tile(x, y) == crate::board::init_tile(x, y));
            }
        }
        g
    }

    /// The active board.
    pub fn board(&self) -> (r: &Board)
        ensures
            r == &self.board,
    {
        &self.board
    }

    /// Whether white is the side to move.
    pub fn is_whites_turn(&self) -> (r: bool)
        ensures
            r == self.whites_turn,
    {
        self.whites_turn
    }

    /// White's pieces.
    pub fn white_pieces(&self) -> (r: &Vec<Piece>)
        ensures
            r == &self.white_pieces,
    {
        &self.white_pieces
    }

    /// Black's pieces.
    pub fn black_pieces(&self) -> (r: &Vec<Piece>)
        ensures
            r == &self.black_pieces,
    {
        &self.black_pieces
    }

    /// Whether the stored legal-move map is empty: the terminal condition for
    /// the position the map was computed for.
    pub fn no_moves(&self) -> (r: bool)
        ensures
            r == (self.all_moves@.len() == 0),
    {
        self.all_moves.len() == 0
    }

    /// Coordinates denoted by two characters of algebraic notation; see
    /// `Board::get_coords_from_string`.
    pub fn get_coords_from_string(s: String) -> (r: Option<(usize, usize)>)
        ensures
            r == crate::board::spec_coords_of(s@),
    {
        Board::get_coords_from_string(s)
    }

    /// Algebraic notation for coordinates; see
    /// `Board::get_string_from_coords`.
    pub fn get_string_from_coords(x: usize, y: usize) -> (r: String)
        requires
            x < 26,
            y < 9,
        ensures
            r@.len() == 2,
            r@[0] as u32 == 97 + x,
            r@[1] as u32 == 49 + y,
    {
        Board::get_string_from_coords(x, y)
    }

    /// The square of the side to move's first king; `(0, 0)` when there is
    /// none.
    #[verifier::loop_isolation(false)]
    fn find_king(&self) -> (r: (usize, usize))
        requires
            self.wf(),
        ensures
            r.0 as int == king_square(self.mover_pieces()).0,
            r.1 as int == king_square(self.mover_pieces()).1,
    {
        let pieces = if self.whites_turn {
            &self.white_pieces
        } else {
            &self.black_pieces
        };
        let n = pieces.len();
        let mut i: usize = 0;
        while i < n
            invariant
                i <= n,
                king_square(self.mover_pieces()) == king_square_from(self.mover_pieces(), i as int),
            decreases n - i,
        {
            if pieces[i].piece_type == PieceType::King {
                return (pieces[i].pos_x, pieces[i].pos_y);
            }
            i = i + 1;
        }
        (0, 0)
    }

    /// Whether the candidate move would leave the mover's own king attacked:
    /// probes the move on a snapshot of the board, then asks whether any
    /// surviving opponent piece reaches the king's resulting square.
    #[verifier::loop_isolation(false)]
    fn leaves_check(&self, p: Piece, to_x: usize, to_y: usize, t: PieceType) -> (r: bool)
        requires
            self.wf(),
            on_board(p, self.board@),
            self.board@.in_bounds(to_x as int, to_y as int),
        ensures
            r == self.leaves_in_check(p, to_x as int, to_y as int, t),
    {
        let mut probe_board = self.board.snapshot();
        let mut probe_piece = p;
        probe_piece.move_to(to_x, to_y, &mut probe_board, t);
        let king_pos = if t == PieceType::King {
            (to_x, to_y)
        } else {
            self.find_king()
        };
        let opp = if self.whites_turn {
            &self.black_pieces
        } else {
            &self.white_pieces
        };
        let n = opp.len();
        let mut j: usize = 0;
        while j < n
            invariant
                j <= n,
                forall|jj: int|
                    0 <= jj < j ==> !self.attacks_after(p, to_x as int, to_y as int, t, jj),
            decreases n - j,
        {
            let d = opp[j];
            if !(d.pos_x == to_x && d.pos_y == to_y) {
                if d.check_to(king_pos.0, king_pos.1, &probe_board, d.piece_type) {
                    proof {
                        assert(self.attacks_after(p, to_x as int, to_y as int, t, j as int));
                    }
                    return true;
                }
            }
            j = j + 1;
        }
        false
    }

    /// Entries already emitted while enumerating moves: the move is allowed,
    /// its piece index is below `pi`, or it is piece `pi`'s and its target
    /// cell lies lexicographically before `(cx, cy)`.
    spec fn allowed_upto(self, pi: int, cx: int, cy: int, e: MoveEntry) -> bool {
        exists|i: int|
            piece_index_at(self.mover_pieces(), e.0.0 as int, e.0.1 as int, i) && self.full_legal(
                #[trigger] self.mover_pieces()[i],
                e.1.0 as int,
                e.1.1 as int,
                e.1.2,
            ) && (i < pi || (i == pi && ((e.1.0 as int) < cx || ((e.1.0 as int) == cx && (e.1.1
                as int) < cy))))
    }

    /// The entry is piece `pi`'s move into exactly the cell `(x, y)`, and the
    /// move is allowed.
    spec fn cell_new(self, pi: int, x: int, y: int, e: MoveEntry) -> bool {
        let p = self.mover_pieces()[pi];
        &&& e.0.0 == p.pos_x
        &&& e.0.1 == p.pos_y
        &&& e.1.0 as int == x
        &&& e.1.1 as int == y
        &&& self.full_legal(p, x, y, e.1.2)
    }

    /// Finishing cell `(x, y)` of piece `pi` extends the emitted set by
    /// exactly that piece's allowed moves into that cell.
    proof fn lemma_cell_step(self, pi: int, x: int, y: int, e: MoveEntry)
        requires
            0 <= pi < self.mover_pieces().len(),
        ensures
            self.allowed_upto(pi, x, y + 1, e) == (self.allowed_upto(pi, x, y, e)
                || self.cell_new(pi, x, y, e)),
    {
        let s = self.mover_pieces();
        if self.allowed_upto(pi, x, y + 1, e) {
            let i = choose|i: int|
                piece_index_at(s, e.0.0 as int, e.0.1 as int, i) && self.full_legal(
                    s[i],
                    e.1.0 as int,
                    e.1.1 as int,
                    e.1.2,
                ) && (i < pi || (i == pi && ((e.1.0 as int) < x || ((e.1.0 as int) == x && (e.1.1
                    as int) < y + 1))));
            if i < pi || (e.1.0 as int) < x || ((e.1.0 as int) == x && (e.1.1 as int) < y) {
                assert(self.allowed_upto(pi, x, y, e));
            } else {
                assert(i == pi && e.1.0 as int == x && e.1.1 as int == y);
                assert(self.cell_new(pi, x, y, e));
            }
        }
        if self.allowed_upto(pi, x, y, e) {
            let i = choose|i: int|
                piece_index_at(s, e.0.0 as int, e.0.1 as int, i) && self.full_legal(
                    s[i],
                    e.1.0 as int,
                    e.1.1 as int,
                    e.1.2,
                ) && (i < pi || (i == pi && ((e.1.0 as int) < x || ((e.1.0 as int) == x && (e.1.1
                    as int) < y))));
            assert(self.allowed_upto(pi, x, y + 1, e));
        }
        if self.cell_new(pi, x, y, e) {
            assert(piece_index_at(s, e.0.0 as int, e.0.1 as int, pi) && self.full_legal(
                s[pi],
                e.1.0 as int,
                e.1.1 as int,
                e.1.2,
            ) && (pi < pi || (pi == pi && ((e.1.0 as int) < x || ((e.1.0 as int) == x && (e.1.1
                as int) < y + 1)))));
        }
    }

    /// Finishing the last cell of a file moves the bound to the next file.
    proof fn lemma_file_end(self, pi: int, x: int, e: MoveEntry)
        requires
            0 <= pi < self.mover_pieces().len(),
        ensures
            self.allowed_upto(pi, x, self.board@.size_y, e) == self.allowed_upto(pi, x + 1, 0, e),
    {
        let s = self.mover_pieces();
        let sy = self.board@.size_y;
        if self.allowed_upto(pi, x, sy, e) {
            let i = choose|i: int|
                piece_index_at(s, e.0.0 as int, e.0.1 as int, i) && self.full_legal(
                    s[i],
                    e.1.0 as int,
                    e.1.1 as int,
                    e.1.2,
                ) && (i < pi || (i == pi && ((e.1.0 as int) < x || ((e.1.0 as int) == x && (e.1.1
                    as int) < sy))));
            assert(self.allowed_upto(pi, x + 1, 0, e));
        }
        if self.allowed_upto(pi, x + 1, 0, e) {
            let i = choose|i: int|
                piece_index_at(s, e.0.0 as int, e.0.1 as int, i) && self.full_legal(
                    s[i],
                    e.1.0 as int,
                    e.1.1 as int,
                    e.1.2,
                ) && (i < pi || (i == pi && ((e.1.0 as int) < x + 1 || ((e.1.0 as int) == x + 1 && (
                e.1.1 as int) < 0))));
            if i == pi {
                // the move's target is on the board, so its rank is below sy
                assert(self.board@.in_bounds(e.1.0 as int, e.1.1 as int));
            }
            assert(self.allowed_upto(pi, x, sy, e));
        }
    }

    /// Finishing the last file of a piece moves the bound to the next piece.
    proof fn lemma_piece_end(self, pi: int, e: MoveEntry)
        requires
            0 <= pi < self.mover_pieces().len(),
        ensures
            self.allowed_upto(pi, self.board@.size_x, 0, e) == self.allowed_upto(pi + 1, 0, 0, e),
    {
        let s = self.mover_pieces();
        let sx = self.board@.size_x;
        if self.allowed_upto(pi, sx, 0, e) {
            let i = choose|i: int|
                piece_index_at(s, e.0.0 as int, e.0.1 as int, i) && self.full_legal(
                    s[i],
                    e.1.0 as int,
                    e.1.1 as int,
                    e.1.2,
                ) && (i < pi || (i == pi && ((e.1.0 as int) < sx || ((e.1.0 as int) == sx && (e.1.1
                    as int) < 0))));
            assert(self.allowed_upto(pi + 1, 0, 0, e));
        }
        if self.allowed_upto(pi + 1, 0, 0, e) {
            let i = choose|i: int|
                piece_index_at(s, e.0.0 as int, e.0.1 as int, i) && self.full_legal(
                    s[i],
                    e.1.0 as int,
                    e.1.1 as int,
                    e.1.2,
                ) && (i < pi + 1 || (i == pi + 1 && ((e.1.0 as int) < 0 || ((e.1.0 as int) == 0 && (
                e.1.1 as int) < 0))));
            if i == pi {
                assert(self.board@.in_bounds(e.1.0 as int, e.1.1 as int));
            }
            assert(self.allowed_upto(pi, sx, 0, e));
        }
    }

    /// Having passed the last piece, the emitted set is exactly the allowed
    /// set.
    proof fn lemma_enumeration_done(self, e: MoveEntry)
        ensures
            self.allowed_upto(self.mover_pieces().len() as int, 0, 0, e) == self.entry_allowed(e),
    {
        let s = self.mover_pieces();
        if self.allowed_upto(s.len() as int, 0, 0, e) {
            let i = choose|i: int|
                piece_index_at(s, e.0.0 as int, e.0.1 as int, i) && self.full_legal(
                    s[i],
                    e.1.0 as int,
                    e.1.1 as int,
                    e.1.2,
                ) && (i < s.len() || (i == s.len() && ((e.1.0 as int) < 0 || ((e.1.0 as int) == 0
                    && (e.1.1 as int) < 0))));
            assert(self.entry_allowed(e));
        }
        if self.entry_allowed(e) {
            let i = choose|i: int|
                piece_index_at(s, e.0.0 as int, e.0.1 as int, i) && self.full_legal(
                    s[i],
                    e.1.0 as int,
                    e.1.1 as int,
                    e.1.2,
                );
            assert(self.allowed_upto(s.len() as int, 0, 0, e));
        }
    }

    /// Append the entry when the piece may make the move, else leave the
    /// collection unchanged.
    fn maybe_push(&self, out: &mut Vec<MoveEntry>, p: Piece, x: usize, y: usize, t: PieceType)
        requires
            self.wf(),
            on_board(p, self.board@),
        ensures
            final(out)@ == (if self.full_legal(p, x as int, y as int, t) {
                old(out)@.push(((p.pos_x, p.pos_y), (x, y, t)))
            } else {
                old(out)@
            }),
    {
        if p.check_to(x, y, &self.board, t) {
            if !self.leaves_check(p, x, y, t) {
                out.push(((p.pos_x, p.pos_y), (x, y, t)));
            }
        }
    }

    /// Recompute the legal-move map for the side to move: for every owned
    /// piece, every board square and every piece type, keep exactly the moves
    /// that are legal by movement rules and leave the mover's own king safe.
    #[verifier::loop_isolation(false)]
    pub fn calc_all_moves(&mut self)
        requires
            old(self).wf(),
        ensures
            final(self).wf(),
            final(self).board == old(self).board,
            final(self).white_pieces == old(self).white_pieces,
            final(self).black_pieces == old(self).black_pieces,
            final(self).whites_turn == old(self).whites_turn,
            forall|e: MoveEntry|
                final(self).all_moves@.contains(e) <==> old(self).entry_allowed(e),
    {
        let mut out: Vec<MoveEntry> = Vec::new();
        let n = if self.whites_turn {
            self.white_pieces.len()
        } else {
            self.black_pieces.len()
        };
        let mut pi: usize = 0;
        while pi < n
            invariant
                pi <= n,
                n == self.mover_pieces().len(),
                forall|e: MoveEntry|
                    out@.contains(e) <==> self.allowed_upto(pi as int, 0, 0, e),
            decreases n - pi,
        {
            let p = if self.whites_turn {
                self.white_pieces[pi]
            } else {
                self.black_pieces[pi]
            };
            let sx = self.board.size_x;
            let sy = self.board.size_y;
            let mut x: usize = 0;
            while x < sx
                invariant
                    x <= sx,
                    forall|e: MoveEntry|
                        out@.contains(e) <==> self.allowed_upto(pi as int, x as int, 0, e),
                decreases sx - x,
            {
                let mut y: usize = 0;
                while y < sy
                    invariant
                        y <= sy,
                        forall|e: MoveEntry|
                            out@.contains(e) <==> self.allowed_upto(pi as int, x as int, y as int, e),
                    decreases sy - y,
                {
                    let ghost o0 = out@;
                    self.maybe_push(&mut out, p, x, y, PieceType::Pawn);
                    let ghost o1 = out@;
                    self.maybe_push(&mut out, p, x, y, PieceType::Rook);
                    let ghost o2 = out@;
                    self.maybe_push(&mut out, p, x, y, PieceType::Knight);
                    let ghost o3 = out@;
                    self.maybe_push(&mut out, p, x, y, PieceType::Bishop);
                    let ghost o4 = out@;
                    self.maybe_push(&mut out, p, x, y, PieceType::Queen);
                    let ghost o5 = out@;
                    self.maybe_push(&mut out, p, x, y, PieceType::King);
                    proof {
                        let xi = x as int;
                        let yi = y as int;
                        let pii = pi as int;
                        assert forall|e: MoveEntry|
                            out@.contains(e) <==> self.allowed_upto(pii, xi, yi + 1, e) by {
                            lemma_push_contains(o0, ((p.pos_x, p.pos_y), (x, y, PieceType::Pawn)), e);
                            lemma_push_contains(o1, ((p.pos_x, p.pos_y), (x, y, PieceType::Rook)), e);
                            lemma_push_contains(o2, ((p.pos_x, p.pos_y), (x, y, PieceType::Knight)), e);
                            lemma_push_contains(o3, ((p.pos_x, p.pos_y), (x, y, PieceType::Bishop)), e);
                            lemma_push_contains(o4, ((p.pos_x, p.pos_y), (x, y, PieceType::Queen)), e);
                            lemma_push_contains(o5, ((p.pos_x, p.pos_y), (x, y, PieceType::King)), e);
                            self.lemma_cell_step(pii, xi, yi, e);
                            if self.cell_new(pii, xi, yi, e) {
                                match e.1.2 {
                                    PieceType::Pawn => {},
                                    PieceType::Rook => {},
                                    PieceType::Knight => {},
                                    PieceType::Bishop => {},
                                    PieceType::Queen => {},
                                    PieceType::King => {},
                                }
                            }
                        }
                    }
                    y = y + 1;
                }
                proof {
                    assert forall|e: MoveEntry|
                        out@.contains(e) <==> self.allowed_upto(pi as int, x as int + 1, 0, e) by {
                        self.lemma_file_end(pi as int, x as int, e);
                    }
                }
                x = x + 1;
            }
            proof {
                assert forall|e: MoveEntry|
                    out@.contains(e) <==> self.allowed_upto(pi as int + 1, 0, 0, e) by {
                    self.lemma_piece_end(pi as int, e);
                }
            }
            pi = pi + 1;
        }
        proof {
            assert forall|e: MoveEntry| out@.contains(e) <==> self.entry_allowed(e) by {
                self.lemma_enumeration_done(e);
            }
        }
        self.all_moves = out;
    }

    /// Well-formedness survives executing an allowed move: `self` is the
    /// state after the move, `pre` the state before it.
    proof fn lemma_move_now_wf(
        self,
        pre: Game,
        from: (usize, usize),
        to: (usize, usize, PieceType),
        mi: int,
        ci: Option<int>,
    )
        requires
            pre.wf(),
            self.whites_turn == pre.whites_turn,
            self.board.inv(),
            self.board@ == pre.board@.with_move(
                from.0 as int,
                from.1 as int,
                to.0 as int,
                to.1 as int,
                pre.whites_turn,
            ),
            piece_index_at(pre.mover_pieces(), from.0 as int, from.1 as int, mi),
            piece_legal(pre.mover_pieces()[mi], to.0 as int, to.1 as int, pre.board@, to.2),
            (if pre.whites_turn {
                self.white_pieces@
            } else {
                self.black_pieces@
            }) == pre.mover_pieces().update(
                mi,
                Piece { piece_type: to.2, pos_x: to.0, pos_y: to.1, is_white: pre.whites_turn },
            ),
            (match ci {
                Some(c) => piece_index_at(pre.opponent_pieces(), to.0 as int, to.1 as int, c) && (
                if pre.whites_turn {
                    self.black_pieces@
                } else {
                    self.white_pieces@
                }) == pre.opponent_pieces().remove(c),
                None => !occupied_by(pre.opponent_pieces(), to.0 as int, to.1 as int) && (if pre.whites_turn {
                    self.black_pieces@
                } else {
                    self.white_pieces@
                }) == pre.opponent_pieces(),
            }),
        ensures
            self.wf(),
    {
        let turn = pre.whites_turn;
        let fx = from.0 as int;
        let fy = from.1 as int;
        let tx = to.0 as int;
        let ty = to.1 as int;
        let moved = Piece { piece_type: to.2, pos_x: to.0, pos_y: to.1, is_white: turn };
        let preW = pre.white_pieces@;
        let preB = pre.black_pieces@;
        let postW = self.white_pieces@;
        let postB = self.black_pieces@;
        let moverPre = pre.mover_pieces();
        let oppPre = pre.opponent_pieces();
        let moverPost = moverPre.update(mi, moved);
        let oppPost = if turn {
            postB
        } else {
            postW
        };
        let wlenPre = preW.len() as int;
        let wlenPost = postW.len() as int;
        crate::piece::lemma_legal_move_moves(moverPre[mi], tx, ty, pre.board@, to.2);
        crate::piece::lemma_legal_target_free(moverPre[mi], tx, ty, pre.board@, to.2);
        if let Some(c) = ci {
            oppPre.remove_ensures(c);
        }
        assert(pre.board@.in_bounds(fx, fy)) by {
            if turn {
                assert(preW[mi].is_white == true);
            } else {
                assert(preB[mi].is_white == false);
            }
        }
        // U1: the mover's piece on the origin square is unique
        assert forall|k: int| piece_index_at(moverPre, fx, fy, k) implies k == mi by {
            if turn {
                pre.lemma_white_unique(fx, fy, k, mi);
            } else {
                pre.lemma_black_unique(fx, fy, k, mi);
            }
        }
        // U3: no mover-side piece stands on the target square before the move
        assert(!occupied_by(moverPre, tx, ty)) by {
            if occupied_by(moverPre, tx, ty) {
                let k = choose|k: int| piece_index_at(moverPre, tx, ty, k);
                if pre.board@.empty_at(tx, ty) {
                    if turn {
                        assert(pre.all_pieces()[k] == preW[k]);
                        assert(piece_index_at(pre.all_pieces(), tx, ty, k));
                    } else {
                        assert(pre.all_pieces()[wlenPre + k] == preB[k]);
                        assert(piece_index_at(pre.all_pieces(), tx, ty, wlenPre + k));
                    }
                    assert(occupied_by(pre.all_pieces(), tx, ty));
                } else {
                    if turn {
                        assert(occupied_by(preW, tx, ty));
                    } else {
                        assert(occupied_by(preB, tx, ty));
                        pre.lemma_colors_disjoint(tx, ty);
                    }
                }
            }
        }
        // U4: after a capture, no opponent piece stands on the target square
        assert(!occupied_by(oppPost, tx, ty)) by {
            match ci {
                Some(c) => {
                    assert forall|k: int| piece_index_at(oppPre, tx, ty, k) implies k == c by {
                        if turn {
                            pre.lemma_black_unique(tx, ty, k, c);
                        } else {
                            pre.lemma_white_unique(tx, ty, k, c);
                        }
                    }
                    lemma_occupied_remove_gone(oppPre, c, tx, ty);
                },
                None => {},
            }
        }
        // U6: no opponent piece stands on the origin square, before or after
        assert(!occupied_by(oppPre, fx, fy)) by {
            if occupied_by(oppPre, fx, fy) {
                assert(occupied_by(moverPre, fx, fy));
                assert(occupied_by(preW, fx, fy) && occupied_by(preB, fx, fy));
                pre.lemma_colors_disjoint(fx, fy);
            }
        }
        assert(!occupied_by(oppPost, fx, fy)) by {
            match ci {
                Some(c) => {
                    lemma_occupied_remove_frame(oppPre, c, fx, fy);
                },
                None => {},
            }
        }
        // F3: on the origin square the mover's side is gone
        assert(!occupied_by(moverPost, fx, fy)) by {
            if occupied_by(moverPost, fx, fy) {
                let k = choose|k: int| piece_index_at(moverPost, fx, fy, k);
                if k != mi {
                    assert(piece_index_at(moverPre, fx, fy, k));
                }
            }
        }
        // F4: the moved piece stands on the target square
        assert(occupied_by(moverPost, tx, ty)) by {
            assert(piece_index_at(moverPost, tx, ty, mi));
        }
        // sides after the move
        assert(if turn {
            postW == moverPost && postB == oppPost
        } else {
            postB == moverPost && postW == oppPost
        });
        // pieces of each color are well-placed and well-colored
        assert(pieces_ok(postW, self.board@, true) && pieces_ok(postB, self.board@, false)) by {
            assert(self.board@.size_x == pre.board@.size_x && self.board@.size_y
                == pre.board@.size_y);
            assert forall|i: int| 0 <= i < moverPost.len() implies (#[trigger] moverPost[i]).is_white
                == turn && self.board@.in_bounds(moverPost[i].pos_x as int, moverPost[i].pos_y as int) by {
                if i != mi {
                    assert(moverPost[i] == moverPre[i]);
                }
            }
            assert forall|i: int| 0 <= i < oppPost.len() implies (#[trigger] oppPost[i]).is_white
                == !turn && self.board@.in_bounds(oppPost[i].pos_x as int, oppPost[i].pos_y as int) by {
                match ci {
                    Some(c) => {
                        if i < c {
                            assert(oppPost[i] == oppPre[i]);
                        } else {
                            assert(oppPost[i] == oppPre[i + 1]);
                        }
                    },
                    None => {
                        assert(oppPost[i] == oppPre[i]);
                    },
                }
            }
        }
        // no two pieces share a square
        assert(distinct_positions(self.all_pieces())) by {
            let postAll = postW + postB;
            // within the mover's side
            assert forall|i: int, j: int|
                #![trigger moverPost[i], moverPost[j]]
                0 <= i < j < moverPost.len() implies !(moverPost[i].pos_x == moverPost[j].pos_x
                && moverPost[i].pos_y == moverPost[j].pos_y) by {
                if i == mi {
                    if sits_at(moverPre[j], tx, ty) {
                        assert(piece_index_at(moverPre, tx, ty, j));
                    }
                } else if j == mi {
                    if sits_at(moverPre[i], tx, ty) {
                        assert(piece_index_at(moverPre, tx, ty, i));
                    }
                } else {
                    if turn {
                        assert(pre.all_pieces()[i] == preW[i]);
                        assert(pre.all_pieces()[j] == preW[j]);
                    } else {
                        assert(pre.all_pieces()[wlenPre + i] == preB[i]);
                        assert(pre.all_pieces()[wlenPre + j] == preB[j]);
                    }
                }
            }
            // within the opponent's side
            assert forall|i: int, j: int|
                #![trigger oppPost[i], oppPost[j]]
                0 <= i < j < oppPost.len() implies !(oppPost[i].pos_x == oppPost[j].pos_x
                && oppPost[i].pos_y == oppPost[j].pos_y) by {
                let i2: int = match ci {
                    Some(c) => if i < c { i } else { i + 1 },
                    None => i,
                };
                let j2: int = match ci {
                    Some(c) => if j < c { j } else { j + 1 },
                    None => j,
                };
                assert(oppPost[i] == oppPre[i2] && oppPost[j] == oppPre[j2] && i2 < j2);
                if turn {
                    assert(pre.all_pieces()[wlenPre + i2] == preB[i2]);
                    assert(pre.all_pieces()[wlenPre + j2] == preB[j2]);
                } else {
                    assert(pre.all_pieces()[i2] == preW[i2]);
                    assert(pre.all_pieces()[j2] == preW[j2]);
                }
            }
            // across the two sides
            assert forall|i: int, j: int|
                #![trigger moverPost[i], oppPost[j]]
                0 <= i < moverPost.len() && 0 <= j < oppPost.len() implies !(moverPost[i].pos_x
                == oppPost[j].pos_x && moverPost[i].pos_y == oppPost[j].pos_y) by {
                let j2: int = match ci {
                    Some(c) => if j < c { j } else { j + 1 },
                    None => j,
                };
                assert(oppPost[j] == oppPre[j2]);
                if moverPost[i].pos_x == oppPost[j].pos_x && moverPost[i].pos_y
                    == oppPost[j].pos_y {
                    if i == mi {
                        assert(piece_index_at(oppPost, tx, ty, j));
                    } else {
                        assert(moverPost[i] == moverPre[i]);
                        let x0 = moverPre[i].pos_x as int;
                        let y0 = moverPre[i].pos_y as int;
                        assert(piece_index_at(moverPre, x0, y0, i));
                        assert(piece_index_at(oppPre, x0, y0, j2));
                        assert(occupied_by(preW, x0, y0) && occupied_by(preB, x0, y0));
                        pre.lemma_colors_disjoint(x0, y0);
                    }
                }
            }
            assert forall|i: int, j: int|
                #![trigger postAll[i], postAll[j]]
                0 <= i < j < postAll.len() implies !(postAll[i].pos_x == postAll[j].pos_x
                && postAll[i].pos_y == postAll[j].pos_y) by {
                if i < wlenPost {
                    assert(postAll[i] == postW[i]);
                } else {
                    assert(postAll[i] == postB[i - wlenPost]);
                }
                if j < wlenPost {
                    assert(postAll[j] == postW[j]);
                } else {
                    assert(postAll[j] == postB[j - wlenPost]);
                }
            }
        }
        // squares are empty exactly when unoccupied, and color flags match
        assert forall|x: int, y: int| self.board@.in_bounds(x, y) implies ((
        #[trigger] self.board@.empty_at(x, y) <==> !occupied_by(self.all_pieces(), x, y)) && ((
        !self.board@.empty_at(x, y)) ==> (self.board@.white_at(x, y) <==> occupied_by(
            postW,
            x,
            y,
        )))) by {
            crate::board::lemma_with_move_read(pre.board@, fx, fy, tx, ty, turn, x, y);
            lemma_occupied_concat(postW, postB, x, y);
            lemma_occupied_concat(preW, preB, x, y);
            if x == fx && y == fy {
                assert(self.board@.empty_at(x, y));
                assert(!occupied_by(moverPost, x, y) && !occupied_by(oppPost, x, y));
            } else if x == tx && y == ty {
                assert(!self.board@.empty_at(x, y));
                assert(occupied_by(moverPost, x, y));
                assert(self.board@.white_at(x, y) == turn);
                if turn {
                    assert(occupied_by(postW, x, y));
                } else {
                    assert(!occupied_by(postW, x, y));
                }
            } else {
                lemma_occupied_update_frame(moverPre, mi, moved, x, y);
                match ci {
                    Some(c) => {
                        lemma_occupied_remove_frame(oppPre, c, x, y);
                    },
                    None => {},
                }
                assert(occupied_by(moverPost, x, y) == occupied_by(moverPre, x, y));
                assert(occupied_by(oppPost, x, y) == occupied_by(oppPre, x, y));
                assert(self.board@.tile(x, y) == pre.board@.tile(x, y));
                assert(pre.board@.empty_at(x, y) == self.board@.empty_at(x, y));
                assert(pre.board@.white_at(x, y) == self.board@.white_at(x, y));
                assert(occupied_by(postW, x, y) == occupied_by(preW, x, y));
                assert(occupied_by(postB, x, y) == occupied_by(preB, x, y));
                assert(occupied_by(postW + postB, x, y) == occupied_by(preW + preB, x, y));
            }
        }
    }

    /// Two white pieces on the same square are the same piece.
    proof fn lemma_white_unique(self, x: int, y: int, i: int, j: int)
        requires
            self.wf(),
            piece_index_at(self.white_pieces@, x, y, i),
            piece_index_at(self.white_pieces@, x, y, j),
        ensures
            i == j,
    {
        assert(self.all_pieces()[i] == self.white_pieces@[i]);
        assert(self.all_pieces()[j] == self.white_pieces@[j]);
    }

    /// Two black pieces on the same square are the same piece.
    proof fn lemma_black_unique(self, x: int, y: int, i: int, j: int)
        requires
            self.wf(),
            piece_index_at(self.black_pieces@, x, y, i),
            piece_index_at(self.black_pieces@, x, y, j),
        ensures
            i == j,
    {
        let w = self.white_pieces@.len() as int;
        assert(self.all_pieces()[w + i] == self.black_pieces@[i]);
        assert(self.all_pieces()[w + j] == self.black_pieces@[j]);
    }

    /// A square occupied by a white piece is not occupied by a black piece.
    proof fn lemma_colors_disjoint(self, x: int, y: int)
        requires
            self.wf(),
        ensures
            !(occupied_by(self.white_pieces@, x, y) && occupied_by(self.black_pieces@, x, y)),
    {
        if occupied_by(self.white_pieces@, x, y) && occupied_by(self.black_pieces@, x, y) {
            let i = choose|i: int| piece_index_at(self.white_pieces@, x, y, i);
            let j = choose|j: int| piece_index_at(self.black_pieces@, x, y, j);
            let w = self.white_pieces@.len() as int;
            assert(self.all_pieces()[i] == self.white_pieces@[i]);
            assert(self.all_pieces()[w + j] == self.black_pieces@[j]);
        }
    }

    /// First index of a piece standing on the given square, if any.
    #[verifier::loop_isolation(false)]
    fn find_piece_at(pieces: &Vec<Piece>, x: usize, y: usize) -> (r: Option<usize>)
        ensures
            r is Some ==> piece_index_at(pieces@, x as int, y as int, r->Some_0 as int),
            r is None ==> !occupied_by(pieces@, x as int, y as int),
    {
        let n = pieces.len();
        let mut i: usize = 0;
        while i < n
            invariant
                i <= n,
                forall|k: int| 0 <= k < i ==> !sits_at(#[trigger] pieces@[k], x as int, y as int),
            decreases n - i,
        {
            if pieces[i].pos_x == x && pieces[i].pos_y == y {
                return Some(i);
            }
            i = i + 1;
        }
        None
    }

    /// Execute the allowed move: remove any opponent piece on the target
    /// square (capture), then move the origin piece there, promoting it to
    /// the entry's type. The turn and the stored move map are untouched.
    fn move_now(&mut self, from: (usize, usize), to: (usize, usize, PieceType))
        requires
            old(self).wf(),
            old(self).move_entry_allowed(
                from.0 as int,
                from.1 as int,
                to.0 as int,
                to.1 as int,
                to.2,
            ),
        ensures
            final(self).wf(),
            final(self).whites_turn == old(self).whites_turn,
            final(self).all_moves == old(self).all_moves,
            final(self).board.size_x == old(self).board.size_x,
            final(self).board.size_y == old(self).board.size_y,
            final(self).board@ == old(self).board@.with_move(
                from.0 as int,
                from.1 as int,
                to.0 as int,
                to.1 as int,
                old(self).whites_turn,
            ),
            exists|i: int|
                piece_index_at(old(self).mover_pieces(), from.0 as int, from.1 as int, i) && (if old(
                    self,
                ).whites_turn {
                    final(self).white_pieces@
                } else {
                    final(self).black_pieces@
                }) == old(self).mover_pieces().update(
                    i,
                    Piece {
                        piece_type: to.2,
                        pos_x: to.0,
                        pos_y: to.1,
                        is_white: old(self).whites_turn,
                    },
                ),
            (if occupied_by(old(self).opponent_pieces(), to.0 as int, to.1 as int) {
                exists|j: int|
                    piece_index_at(old(self).opponent_pieces(), to.0 as int, to.1 as int, j) && (
                    if old(self).whites_turn {
                        final(self).black_pieces@
                    } else {
                        final(self).white_pieces@
                    }) == old(self).opponent_pieces().remove(j)
            } else {
                (if old(self).whites_turn {
                    final(self).black_pieces@
                } else {
                    final(self).white_pieces@
                }) == old(self).opponent_pieces()
            }),
    {
        let ghost pre = *old(self);
        let fx = from.0;
        let fy = from.1;
        let tx = to.0;
        let ty = to.1;
        let ghost fxi = fx as int;
        let ghost fyi = fy as int;
        let ghost txi = tx as int;
        let ghost tyi = ty as int;
        let ghost moverPre = pre.mover_pieces();
        let ghost oppPre = pre.opponent_pieces();
        proof {
            // the witness of the allowed move
            let w = choose|i: int|
                piece_index_at(moverPre, fxi, fyi, i) && pre.full_legal(moverPre[i], txi, tyi, to.2);
            assert(piece_legal(moverPre[w], txi, tyi, pre.board@, to.2));
            crate::piece::lemma_legal_move_moves(moverPre[w], txi, tyi, pre.board@, to.2);
            crate::piece::lemma_legal_target_free(moverPre[w], txi, tyi, pre.board@, to.2);
        }
        let white_turn = self.whites_turn;
        // capture: remove the opponent piece on the target square, if any
        let cap = if white_turn {
            Self::find_piece_at(&self.black_pieces, tx, ty)
        } else {
            Self::find_piece_at(&self.white_pieces, tx, ty)
        };
        match cap {
            Some(ci) => {
                if white_turn {
                    self.black_pieces.remove(ci);
                } else {
                    self.white_pieces.remove(ci);
                }
                proof {
                    oppPre.remove_ensures(ci as int);
                }
            },
            None => {},
        }
        // the mover's own pieces are untouched so far
        let mi_opt = if white_turn {
            Self::find_piece_at(&self.white_pieces, fx, fy)
        } else {
            Self::find_piece_at(&self.black_pieces, fx, fy)
        };
        let mi = match mi_opt {
            Some(mi) => mi,
            None => {
                proof {
                    let w = choose|i: int|
                        piece_index_at(moverPre, fxi, fyi, i) && pre.full_legal(
                            moverPre[i],
                            txi,
                            tyi,
                            to.2,
                        );
                    assert(occupied_by(moverPre, fxi, fyi));
                }
                vstd::pervasive::unreached()
            },
        };
        let mut p = if white_turn {
            self.white_pieces[mi]
        } else {
            self.black_pieces[mi]
        };
        proof {
            // the found piece is the witness piece: same side, same square
            let w = choose|i: int|
                piece_index_at(moverPre, fxi, fyi, i) && pre.full_legal(moverPre[i], txi, tyi, to.2);
            if white_turn {
                pre.lemma_white_unique(fxi, fyi, w, mi as int);
            } else {
                pre.lemma_black_unique(fxi, fyi, w, mi as int);
            }
            assert(pre.full_legal(p, txi, tyi, to.2));
            assert(p.is_white == white_turn);
        }
        p.move_to(tx, ty, &mut self.board, to.2);
        if white_turn {
            self.white_pieces[mi] = p;
        } else {
            self.black_pieces[mi] = p;
        }
        proof {
            let gci: Option<int> = match cap {
                Some(c) => Some(c as int),
                None => None,
            };
            self.lemma_move_now_wf(pre, from, to, mi as int, gci);
        }
    }

    /// How an applied move relates the new state to the old one: the turn
    /// flips exactly once; the origin square becomes empty and the target
    /// square holds the mover's color; the moved piece now stands on the
    /// target with the entry's type; any opponent piece that stood on the
    /// target is gone; nothing else changes.
    pub open spec fn move_applied_state(pre: Game, post: Game, from: (usize, usize), to: (usize, usize, PieceType)) -> bool {
        &&& post.whites_turn == !pre.whites_turn
        &&& post.board@ == pre.board@.with_move(
            from.0 as int,
            from.1 as int,
            to.0 as int,
            to.1 as int,
            pre.whites_turn,
        )
        &&& post.board@.empty_at(from.0 as int, from.1 as int)
        &&& !post.board@.empty_at(to.0 as int, to.1 as int)
        &&& post.board@.white_at(to.0 as int, to.1 as int) == pre.whites_turn
        &&& exists|i: int|
            piece_index_at(pre.mover_pieces(), from.0 as int, from.1 as int, i) && (if pre.whites_turn {
                post.white_pieces@
            } else {
                post.black_pieces@
            }) == pre.mover_pieces().update(
                i,
                Piece { piece_type: to.2, pos_x: to.0, pos_y: to.1, is_white: pre.whites_turn },
            )
        &&& (if occupied_by(pre.opponent_pieces(), to.0 as int, to.1 as int) {
            exists|j: int|
                piece_index_at(pre.opponent_pieces(), to.0 as int, to.1 as int, j) && (if pre.whites_turn {
                    post.black_pieces@
                } else {
                    post.white_pieces@
                }) == pre.opponent_pieces().remove(j)
        } else {
            (if pre.whites_turn {
                post.black_pieces@
            } else {
                post.white_pieces@
            }) == pre.opponent_pieces()
        })
    }

    /// Place a new piece of the given color on an empty square: the piece
    /// joins its color's collection and the square becomes occupied.
    fn add_piece(&mut self, piece_type: PieceType, x: usize, y: usize, white: bool)
        requires
            old(self).wf(),
            old(self).board@.in_bounds(x as int, y as int),
            old(self).board@.empty_at(x as int, y as int),
        ensures
            final(self).wf(),
            final(self).whites_turn == old(self).whites_turn,
            final(self).all_moves == old(self).all_moves,
            final(self).board.size_x == old(self).board.size_x,
            final(self).board.size_y == old(self).board.size_y,
            forall|x2: int, y2: int|
                old(self).board@.in_bounds(x2, y2) && !(x2 == x as int && y2 == y as int)
                    ==> final(self).board@.tile(x2, y2) == old(self).board@.tile(x2, y2),
            !final(self).board@.empty_at(x as int, y as int),
            final(self).board@.white_at(x as int, y as int) == white,
            final(self).board@.orig_at(x as int, y as int) == old(self).board@.orig_at(
                x as int,
                y as int,
            ),
            white ==> final(self).white_pieces@ == old(self).white_pieces@.push(
                Piece { piece_type, pos_x: x, pos_y: y, is_white: true },
            ) && final(self).black_pieces@ == old(self).black_pieces@,
            !white ==> final(self).black_pieces@ == old(self).black_pieces@.push(
                Piece { piece_type, pos_x: x, pos_y: y, is_white: false },
            ) && final(self).white_pieces@ == old(self).white_pieces@,
    {
        let ghost pre = *old(self);
        let p = Piece::new(&mut self.board, piece_type, x, y, white);
        if white {
            self.white_pieces.push(p);
        } else {
            self.black_pieces.push(p);
        }
        proof {
            let xi = x as int;
            let yi = y as int;
            let preW = pre.white_pieces@;
            let preB = pre.black_pieces@;
            let postW = self.white_pieces@;
            let postB = self.black_pieces@;
            let placed = Tile {
                color: pre.board@.tile(xi, yi).color,
                is_empty: false,
                piece_is_white: white,
                has_orig_piece: pre.board@.tile(xi, yi).has_orig_piece,
            };
            assert forall|x2: int, y2: int| pre.board@.in_bounds(x2, y2) implies #[trigger] self.board@.tile(
                x2,
                y2,
            ) == (if x2 == xi && y2 == yi {
                placed
            } else {
                pre.board@.tile(x2, y2)
            }) by {
                crate::board::lemma_update_tile_read(pre.board@, xi, yi, placed, x2, y2);
            }
            // the square was empty, so no piece of either color stood on it
            assert(!occupied_by(preW, xi, yi) && !occupied_by(preB, xi, yi)) by {
                lemma_occupied_concat(preW, preB, xi, yi);
            }
            // colors and bounds
            assert(pieces_ok(postW, self.board@, true) && pieces_ok(postB, self.board@, false)) by {
                assert forall|i: int| 0 <= i < postW.len() implies (#[trigger] postW[i]).is_white
                    == true && self.board@.in_bounds(postW[i].pos_x as int, postW[i].pos_y as int) by {
                    if !(white && i == preW.len()) {
                        assert(postW[i] == preW[i]);
                    }
                }
                assert forall|i: int| 0 <= i < postB.len() implies (#[trigger] postB[i]).is_white
                    == false && self.board@.in_bounds(postB[i].pos_x as int, postB[i].pos_y as int) by {
                    if !(!white && i == preB.len()) {
                        assert(postB[i] == preB[i]);
                    }
                }
            }
            // distinct positions: the new piece stands on a square nobody held
            assert(distinct_positions(self.all_pieces())) by {
                let preAll = preW + preB;
                let postAll = postW + postB;
                let wlenPre = preW.len() as int;
                let wlenPost = postW.len() as int;
                assert forall|i: int, j: int|
                    #![trigger postAll[i], postAll[j]]
                    0 <= i < j < postAll.len() implies !(postAll[i].pos_x == postAll[j].pos_x
                    && postAll[i].pos_y == postAll[j].pos_y) by {
                    let newIdx: int = if white {
                        wlenPre
                    } else {
                        postAll.len() - 1
                    };
                    let i2: int = if white {
                        if i < wlenPre {
                            i
                        } else {
                            i - 1
                        }
                    } else {
                        i
                    };
                    let j2: int = if white {
                        if j < wlenPre {
                            j
                        } else {
                            j - 1
                        }
                    } else {
                        j
                    };
                    if i < wlenPost {
                        assert(postAll[i] == postW[i]);
                    } else {
                        assert(postAll[i] == postB[i - wlenPost]);
                    }
                    if j < wlenPost {
                        assert(postAll[j] == postW[j]);
                    } else {
                        assert(postAll[j] == postB[j - wlenPost]);
                    }
                    if i == newIdx {
                        assert(postAll[i] == p);
                        if postAll[j].pos_x == p.pos_x && postAll[j].pos_y == p.pos_y {
                            assert(postAll[j] == preAll[j2]);
                            assert(piece_index_at(preAll, xi, yi, j2));
                            lemma_occupied_concat(preW, preB, xi, yi);
                        }
                    } else if j == newIdx {
                        assert(postAll[j] == p);
                        if postAll[i].pos_x == p.pos_x && postAll[i].pos_y == p.pos_y {
                            assert(postAll[i] == preAll[i2]);
                            assert(piece_index_at(preAll, xi, yi, i2));
                            lemma_occupied_concat(preW, preB, xi, yi);
                        }
                    } else {
                        assert(postAll[i] == preAll[i2]);
                        assert(postAll[j] == preAll[j2]);
                        assert(0 <= i2 < j2 < preAll.len());
                    }
                }
            }
            // occupancy and color flags, square by square
            assert forall|x2: int, y2: int| self.board@.in_bounds(x2, y2) implies ((
            #[trigger] self.board@.empty_at(x2, y2) <==> !occupied_by(self.all_pieces(), x2, y2))
                && ((!self.board@.empty_at(x2, y2)) ==> (self.board@.white_at(x2, y2)
                <==> occupied_by(postW, x2, y2)))) by {
                lemma_occupied_concat(postW, postB, x2, y2);
                lemma_occupied_concat(preW, preB, x2, y2);
                lemma_occupied_push(preW, p, x2, y2);
                lemma_occupied_push(preB, p, x2, y2);
                if x2 == xi && y2 == yi {
                    assert(occupied_by(if white {
                        postW
                    } else {
                        postB
                    }, x2, y2)) by {
                        assert(sits_at(p, x2, y2));
                    }
                } else {
                    assert(pre.board@.empty_at(x2, y2) == self.board@.empty_at(x2, y2));
                    assert(pre.board@.white_at(x2, y2) == self.board@.white_at(x2, y2));
                }
            }
        }
    }

    /// Set up the standard starting position: a fresh 8 by 8 board, sixteen
    /// pieces per side, white to move, and the legal-move map computed for
    /// it.
    /// The standard back-rank piece for a file.
    fn back_rank_type(k: usize) -> (t: PieceType)
        requires
            k < 8,
        ensures
            t == spec_back_rank_type(k as int),
    {
        match k {
            0 => PieceType::Rook,
            1 => PieceType::Knight,
            2 => PieceType::Bishop,
            3 => PieceType::Queen,
            4 => PieceType::King,
            5 => PieceType::Bishop,
            6 => PieceType::Knight,
            _ => PieceType::Rook,
        }
    }

    #[verifier::rlimit(60)]
    pub fn regular_chess_setup(&mut self)
        ensures
            final(self).wf(),
            final(self).whites_turn,
            final(self).board.size_x == 8,
            final(self).board.size_y == 8,
            final(self).white_pieces@ == standard_white_pieces(),
            final(self).black_pieces@ == standard_black_pieces(),
            forall|x: int, y: int|
                final(self).board@.in_bounds(x, y) ==> #[trigger] final(self).board@.orig_at(x, y),
            forall|e: MoveEntry|
                final(self).all_moves@.contains(e) <==> final(self).entry_allowed(e),
    {
        self.board = Board::new(8, 8);
        self.white_pieces = Vec::new();
        self.black_pieces = Vec::new();
        self.all_moves = Vec::new();
        self.whites_turn = true;
        proof {
            assert forall|x: int, y: int| self.board@.in_bounds(x, y) implies self.board@.empty_at(
                x,
                y,
            ) && self.board@.orig_at(x, y) by {
                assert(self.board@.tile(x, y) == crate::board::init_tile(x, y));
            }
        }
        let mut i: usize = 0;
        #[verifier::loop_isolation(false)]
        while i < 8
            invariant
                i <= 8,
                self.wf(),
                self.whites_turn,
                self.board.size_x == 8,
                self.board.size_y == 8,
                self.all_moves@.len() == 0,
                self.black_pieces@.len() == 0,
                self.white_pieces@ == standard_white_pieces().subrange(0, i as int),
                forall|x: int, y: int|
                    self.board@.in_bounds(x, y) ==> #[trigger] self.board@.orig_at(x, y),
                forall|x: int, y: int|
                    self.board@.in_bounds(x, y) && !(y == 1 && 0 <= x < i)
                        ==> #[trigger] self.board@.empty_at(x, y),
            decreases 8 - i,
        {
            let ghost pre_board = self.board@;
            let ghost pre_x = i as int;
            let ghost pre_y = 1int;
            self.add_piece(PieceType::Pawn, i, 1, true);
            proof {
                assert(self.white_pieces@ =~= standard_white_pieces().subrange(0, i + 1));
                assert forall|x: int, y: int|
                    self.board@.in_bounds(x, y) && !(y == 1 && 0 <= x < i + 1)
                        implies #[trigger] self.board@.empty_at(x, y) by {
                    assert(self.board@.tile(x, y) == pre_board.tile(x, y));
                }
                assert forall|x: int, y: int| self.board@.in_bounds(x, y) implies #[trigger] self.board@.orig_at(
                    x,
                    y,
                ) by {
                    assert(pre_board.orig_at(x, y));
                    if !(x == pre_x && y == pre_y) {
                        assert(self.board@.tile(x, y) == pre_board.tile(x, y));
                    }
                }
            }
            i = i + 1;
        }
        let mut k: usize = 0;
        #[verifier::loop_isolation(false)]
        while k < 8
            invariant
                k <= 8,
                self.wf(),
                self.whites_turn,
                self.board.size_x == 8,
                self.board.size_y == 8,
                self.all_moves@.len() == 0,
                self.black_pieces@.len() == 0,
                self.white_pieces@ == standard_white_pieces().subrange(0, 8 + k as int),
                forall|x: int, y: int|
                    self.board@.in_bounds(x, y) ==> #[trigger] self.board@.orig_at(x, y),
                forall|x: int, y: int|
                    self.board@.in_bounds(x, y) && !(y == 1) && !(y == 0 && 0 <= x < k)
                        ==> #[trigger] self.board@.empty_at(x, y),
            decreases 8 - k,
        {
            let ghost pre_board = self.board@;
            let ghost pre_x = k as int;
            let ghost pre_y = 0int;
            let t = Self::back_rank_type(k);
            self.add_piece(t, k, 0, true);
            proof {
                assert(self.white_pieces@ =~= standard_white_pieces().subrange(0, 8 + k + 1));
                assert forall|x: int, y: int|
                    self.board@.in_bounds(x, y) && !(y == 1) && !(y == 0 && 0 <= x < k + 1)
                        implies #[trigger] self.board@.empty_at(x, y) by {
                    assert(self.board@.tile(x, y) == pre_board.tile(x, y));
                }
                assert forall|x: int, y: int| self.board@.in_bounds(x, y) implies #[trigger] self.board@.orig_at(
                    x,
                    y,
                ) by {
                    assert(pre_board.orig_at(x, y));
                    if !(x == pre_x && y == pre_y) {
                        assert(self.board@.tile(x, y) == pre_board.tile(x, y));
                    }
                }
            }
            k = k + 1;
        }
        proof {
            assert(self.white_pieces@ =~= standard_white_pieces());
        }
        let mut j: usize = 0;
        #[verifier::loop_isolation(false)]
        while j < 8
            invariant
                j <= 8,
                self.wf(),
                self.whites_turn,
                self.board.size_x == 8,
                self.board.size_y == 8,
                self.all_moves@.len() == 0,
                self.white_pieces@ == standard_white_pieces(),
                self.black_pieces@ == standard_black_pieces().subrange(0, j as int),
                forall|x: int, y: int|
                    self.board@.in_bounds(x, y) ==> #[trigger] self.board@.orig_at(x, y),
                forall|x: int, y: int|
                    self.board@.in_bounds(x, y) && !(y == 1 || y == 0) && !(y == 6 && 0 <= x < j)
                        ==> #[trigger] self.board@.empty_at(x, y),
            decreases 8 - j,
        {
            let ghost pre_board = self.board@;
            let ghost pre_x = j as int;
            let ghost pre_y = 6int;
            self.add_piece(PieceType::Pawn, j, 6, false);
            proof {
                assert(self.black_pieces@ =~= standard_black_pieces().subrange(0, j + 1));
                assert forall|x: int, y: int|
                    self.board@.in_bounds(x, y) && !(y == 1 || y == 0) && !(y == 6 && 0 <= x < j
                        + 1) implies #[trigger] self.board@.empty_at(x, y) by {
                    assert(self.board@.tile(x, y) == pre_board.tile(x, y));
                }
                assert forall|x: int, y: int| self.board@.in_bounds(x, y) implies #[trigger] self.board@.orig_at(
                    x,
                    y,
                ) by {
                    assert(pre_board.orig_at(x, y));
                    if !(x == pre_x && y == pre_y) {
                        assert(self.board@.tile(x, y) == pre_board.tile(x, y));
                    }
                }
            }
            j = j + 1;
        }
        let mut m: usize = 0;
        #[verifier::loop_isolation(false)]
        while m < 8
            invariant
                m <= 8,
                self.wf(),
                self.whites_turn,
                self.board.size_x == 8,
                self.board.size_y == 8,
                self.all_moves@.len() == 0,
                self.white_pieces@ == standard_white_pieces(),
                self.black_pieces@ == standard_black_pieces().subrange(0, 8 + m as int),
                forall|x: int, y: int|
                    self.board@.in_bounds(x, y) ==> #[trigger] self.board@.orig_at(x, y),
                forall|x: int, y: int|
                    self.board@.in_bounds(x, y) && !(y == 1 || y == 0 || y == 6) && !(y == 7 && 0
                        <= x < m) ==> #[trigger] self.board@.empty_at(x, y),
            decreases 8 - m,
        {
            let ghost pre_board = self.board@;
            let ghost pre_x = m as int;
            let ghost pre_y = 7int;
            let t = Self::back_rank_type(m);
            self.add_piece(t, m, 7, false);
            proof {
                assert(self.black_pieces@ =~= standard_black_pieces().subrange(0, 8 + m + 1));
                assert forall|x: int, y: int|
                    self.board@.in_bounds(x, y) && !(y == 1 || y == 0 || y == 6) && !(y == 7 && 0
                        <= x < m + 1) implies #[trigger] self.board@.empty_at(x, y) by {
                    assert(self.board@.tile(x, y) == pre_board.tile(x, y));
                }
                assert forall|x: int, y: int| self.board@.in_bounds(x, y) implies #[trigger] self.board@.orig_at(
                    x,
                    y,
                ) by {
                    assert(pre_board.orig_at(x, y));
                    if !(x == pre_x && y == pre_y) {
                        assert(self.board@.tile(x, y) == pre_board.tile(x, y));
                    }
                }
            }
            m = m + 1;
        }
        proof {
            assert(self.black_pieces@ =~= standard_black_pieces());
        }
        let ghost placed = *self;
        self.calc_all_moves();
        proof {
            assert forall|e: MoveEntry|
                self.all_moves@.contains(e) <==> self.entry_allowed(e) by {
                Game::lemma_allowed_congruence(
                    placed,
                    *self,
                    e.0.0 as int,
                    e.0.1 as int,
                    e.1.0 as int,
                    e.1.1 as int,
                    e.1.2,
                );
                assert(placed.entry_allowed(e) == self.entry_allowed(e));
                assert(self.all_moves@.contains(e) == placed.entry_allowed(e));
            }
        }
    }

    /// Whether a move is allowed depends only on the pieces, the board and
    /// the turn, never on the stored move map.
    proof fn lemma_allowed_congruence(g1: Game, g2: Game, fx: int, fy: int, tx: int, ty: int, t: PieceType)
        requires
            g1.white_pieces@ == g2.white_pieces@,
            g1.black_pieces@ == g2.black_pieces@,
            g1.board@ == g2.board@,
            g1.whites_turn == g2.whites_turn,
        ensures
            g1.move_entry_allowed(fx, fy, tx, ty, t) == g2.move_entry_allowed(fx, fy, tx, ty, t),
    {
        assert(g1.mover_pieces() == g2.mover_pieces());
        assert(g1.opponent_pieces() == g2.opponent_pieces());
        assert forall|p: Piece|
            #[trigger] g1.leaves_in_check(p, tx, ty, t) == g2.leaves_in_check(p, tx, ty, t) by {
            if g1.leaves_in_check(p, tx, ty, t) {
                let j = choose|j: int|
                    0 <= j < g1.opponent_pieces().len() && g1.attacks_after(p, tx, ty, t, j);
                assert(g2.attacks_after(p, tx, ty, t, j));
            }
            if g2.leaves_in_check(p, tx, ty, t) {
                let j = choose|j: int|
                    0 <= j < g2.opponent_pieces().len() && g2.attacks_after(p, tx, ty, t, j);
                assert(g1.attacks_after(p, tx, ty, t, j));
            }
        }
        if g1.move_entry_allowed(fx, fy, tx, ty, t) {
            let i = choose|i: int|
                piece_index_at(g1.mover_pieces(), fx, fy, i) && g1.full_legal(
                    g1.mover_pieces()[i],
                    tx,
                    ty,
                    t,
                );
            assert(piece_index_at(g2.mover_pieces(), fx, fy, i) && g2.full_legal(
                g2.mover_pieces()[i],
                tx,
                ty,
                t,
            ));
        }
        if g2.move_entry_allowed(fx, fy, tx, ty, t) {
            let i = choose|i: int|
                piece_index_at(g2.mover_pieces(), fx, fy, i) && g2.full_legal(
                    g2.mover_pieces()[i],
                    tx,
                    ty,
                    t,
                );
            assert(piece_index_at(g1.mover_pieces(), fx, fy, i) && g1.full_legal(
                g1.mover_pieces()[i],
                tx,
                ty,
                t,
            ));
        }
    }

    /// Whether the collection holds an entry equal to `(from, to)`.
    #[verifier::loop_isolation(false)]
    fn contains_entry(entries: &Vec<MoveEntry>, from: (usize, usize), to: (usize, usize, PieceType)) -> (r: bool)
        ensures
            r == entries@.contains((from, to)),
    {
        let n = entries.len();
        let mut k: usize = 0;
        while k < n
            invariant
                k <= n,
                forall|j: int| 0 <= j < k ==> entries@[j] != (from, to),
            decreases n - k,
        {
            let e = entries[k];
            if e.0.0 == from.0 && e.0.1 == from.1 && e.1.0 == to.0 && e.1.1 == to.1 && e.1.2
                == to.2 {
                proof {
                    assert(entries@[k as int] == (from, to));
                }
                return true;
            }
            k = k + 1;
        }
        proof {
            if entries@.contains((from, to)) {
                let j = choose|j: int| 0 <= j < entries@.len() && entries@[j] == (from, to);
                assert(entries@[j] != (from, to));
            }
        }
        false
    }

    /// Request a move. The legal-move map is recomputed for the current
    /// position first; the move is applied exactly when the map holds it,
    /// and is a no-op otherwise. Returns whether it was applied. After an
    /// applied move the stored map still describes the position the move was
    /// requested in; the next request recomputes it.
    pub fn next(&mut self, from: (usize, usize), to: (usize, usize, PieceType)) -> (applied: bool)
        requires
            old(self).wf(),
        ensures
            final(self).wf(),
            applied == old(self).entry_allowed((from, to)),
            forall|e: MoveEntry|
                final(self).all_moves@.contains(e) <==> old(self).entry_allowed(e),
            applied ==> Game::move_applied_state(*old(self), *final(self), from, to),
            !applied ==> final(self).board@ == old(self).board@,
            !applied ==> final(self).white_pieces@ == old(self).white_pieces@,
            !applied ==> final(self).black_pieces@ == old(self).black_pieces@,
            !applied ==> final(self).whites_turn == old(self).whites_turn,
    {
        self.calc_all_moves();
        let found = Self::contains_entry(&self.all_moves, from, to);
        if found {
            let ghost pre = *old(self);
            proof {
                assert(pre.entry_allowed((from, to)));
                let w = choose|i: int|
                    piece_index_at(pre.mover_pieces(), from.0 as int, from.1 as int, i)
                        && pre.full_legal(pre.mover_pieces()[i], to.0 as int, to.1 as int, to.2);
                crate::piece::lemma_legal_move_moves(
                    pre.mover_pieces()[w],
                    to.0 as int,
                    to.1 as int,
                    pre.board@,
                    to.2,
                );
                if pre.whites_turn {
                    assert(pre.white_pieces@[w].is_white == true);
                } else {
                    assert(pre.black_pieces@[w].is_white == false);
                }
                assert(pre.board@.in_bounds(from.0 as int, from.1 as int));
                assert(pre.board@.in_bounds(to.0 as int, to.1 as int));
                Game::lemma_allowed_congruence(
                    pre,
                    *self,
                    from.0 as int,
                    from.1 as int,
                    to.0 as int,
                    to.1 as int,
                    to.2,
                );
            }
            self.move_now(from, to);
            self.whites_turn = !self.whites_turn;
            proof {
                crate::board::lemma_with_move_read(
                    pre.board@,
                    from.0 as int,
                    from.1 as int,
                    to.0 as int,
                    to.1 as int,
                    pre.whites_turn,
                    from.0 as int,
                    from.1 as int,
                );
                crate::board::lemma_with_move_read(
                    pre.board@,
                    from.0 as int,
                    from.1 as int,
                    to.0 as int,
                    to.1 as int,
                    pre.whites_turn,
                    to.0 as int,
                    to.1 as int,
                );
            }
            true
        } else {
            false
        }
    }

    /// The ordered targets the stored legal-move map holds for an origin
    /// square.
    #[verifier::loop_isolation(false)]
    pub fn moves_from(&self, from: (usize, usize)) -> (r: Vec<(usize, usize, PieceType)>)
        ensures
            forall|m: (usize, usize, PieceType)|
                r@.contains(m) <==> self.all_moves@.contains((from, m)),
    {
        let mut r: Vec<(usize, usize, PieceType)> = Vec::new();
        let n = self.all_moves.len();
        let mut k: usize = 0;
        while k < n
            invariant
                k <= n,
                forall|m: (usize, usize, PieceType)|
                    r@.contains(m) <==> exists|j: int|
                        0 <= j < k && self.all_moves@[j] == ((from, m)),
            decreases n - k,
        {
            let ghost r0 = r@;
            let e = self.all_moves[k];
            if e.0.0 == from.0 && e.0.1 == from.1 {
                r.push(e.1);
                proof {
                    assert(self.all_moves@[k as int] == ((from, e.1)));
                }
            }
            proof {
                assert forall|m: (usize, usize, PieceType)|
                    r@.contains(m) <==> exists|j: int|
                        0 <= j < k + 1 && self.all_moves@[j] == ((from, m)) by {
                    lemma_push_contains(r0, e.1, m);
                    if r@.contains(m) {
                        if r0.contains(m) {
                            let j = choose|j: int|
                                0 <= j < k && self.all_moves@[j] == ((from, m));
                            assert(self.all_moves@[j] == ((from, m)));
                        } else {
                            assert(self.all_moves@[k as int] == ((from, m)));
                        }
                    }
                    if exists|j: int| 0 <= j < k + 1 && self.all_moves@[j] == ((from, m)) {
                        let j = choose|j: int| 0 <= j < k + 1 && self.all_moves@[j] == ((from, m));
                        if j < k {
                            assert(exists|j2: int|
                                0 <= j2 < k && self.all_moves@[j2] == ((from, m)));
                        } else {
                            assert(e == ((from, m)));
                        }
                    }
                }
            }
            k = k + 1;
        }
        proof {
            assert forall|m: (usize, usize, PieceType)|
                r@.contains(m) <==> self.all_moves@.contains((from, m)) by {
                if r@.contains(m) {
                    let j = choose|j: int| 0 <= j < n && self.all_moves@[j] == ((from, m));
                    assert(self.all_moves@.contains((from, m)));
                }
                if self.all_moves@.contains((from, m)) {
                    let j = choose|j: int|
                        0 <= j < self.all_moves@.len() && self.all_moves@[j] == ((from, m));
                    assert(exists|j2: int| 0 <= j2 < n && self.all_moves@[j2] == ((from, m)));
                }
            }
        }
        r
    }

    /// The move request a wire move resolves to: for a standard or
    /// en-passant frame the resulting type is that of the piece standing on
    /// the origin square; a promotion frame names its own type; castle tags
    /// resolve to nothing.
    pub open spec fn wire_request_matches(self, m: crate::codec::WireMove, req: MoveEntry) -> bool {
        match m {
            crate::codec::WireMove::Standard { origin, target } => exists|i: int|
                piece_index_at(self.mover_pieces(), origin.0 as int, origin.1 as int, i) && req
                    == (((origin.0 as usize, origin.1 as usize), (
                    target.0 as usize,
                    target.1 as usize,
                    #[trigger] self.mover_pieces()[i].piece_type,
                ))),
            crate::codec::WireMove::EnPassant { origin, target } => exists|i: int|
                piece_index_at(self.mover_pieces(), origin.0 as int, origin.1 as int, i) && req
                    == (((origin.0 as usize, origin.1 as usize), (
                    target.0 as usize,
                    target.1 as usize,
                    #[trigger] self.mover_pieces()[i].piece_type,
                ))),
            crate::codec::WireMove::Promotion { origin, target, promo } => req == ((
                (origin.0 as usize, origin.1 as usize),
                (target.0 as usize, target.1 as usize, promo),
            )),
            _ => false,
        }
    }

    /// The wire move resolves to a request the current position allows.
    pub open spec fn wire_move_allowed(self, m: crate::codec::WireMove) -> bool {
        exists|req: MoveEntry| #[trigger] self.wire_request_matches(m, req) && self.entry_allowed(req)
    }

    /// Replay a move decoded from the wire: resolve it against the engine's
    /// own representation, validate it against the recomputed legal-move map
    /// and apply it. Returns whether it was applied, so that the caller can
    /// report an illegal move back to the peer instead of silently dropping
    /// it.
    pub fn apply_wire_move(&mut self, m: crate::codec::WireMove) -> (applied: bool)
        requires
            old(self).wf(),
        ensures
            final(self).wf(),
            applied == old(self).wire_move_allowed(m),
            applied ==> exists|req: MoveEntry|
                #[trigger] old(self).wire_request_matches(m, req) && Game::move_applied_state(
                    *old(self),
                    *final(self),
                    req.0,
                    req.1,
                ),
            !applied ==> final(self).board@ == old(self).board@,
            !applied ==> final(self).white_pieces@ == old(self).white_pieces@,
            !applied ==> final(self).black_pieces@ == old(self).black_pieces@,
            !applied ==> final(self).whites_turn == old(self).whites_turn,
    {
        let ghost pre = *old(self);
        match m {
            crate::codec::WireMove::Standard { origin, target }
            | crate::codec::WireMove::EnPassant { origin, target } => {
                let mover = if self.whites_turn {
                    &self.white_pieces
                } else {
                    &self.black_pieces
                };
                match Self::find_piece_at(mover, origin.0 as usize, origin.1 as usize) {
                    Some(i) => {
                        let t = mover[i].piece_type;
                        let from = (origin.0 as usize, origin.1 as usize);
                        let to = (target.0 as usize, target.1 as usize, t);
                        let ghost req = (from, to);
                        proof {
                            assert(pre.wire_request_matches(m, req));
                        }
                        let applied = self.next(from, to);
                        proof {
                            if applied {
                                assert(pre.wire_move_allowed(m));
                            } else {
                                if pre.wire_move_allowed(m) {
                                    let req2 = choose|req2: MoveEntry|
                                        pre.wire_request_matches(m, req2) && pre.entry_allowed(
                                            req2,
                                        );
                                    let j = choose|j: int|
                                        piece_index_at(
                                            pre.mover_pieces(),
                                            origin.0 as int,
                                            origin.1 as int,
                                            j,
                                        ) && req2 == ((from, (
                                            target.0 as usize,
                                            target.1 as usize,
                                            pre.mover_pieces()[j].piece_type,
                                        )));
                                    if pre.whites_turn {
                                        pre.lemma_white_unique(
                                            origin.0 as int,
                                            origin.1 as int,
                                            j,
                                            i as int,
                                        );
                                    } else {
                                        pre.lemma_black_unique(
                                            origin.0 as int,
                                            origin.1 as int,
                                            j,
                                            i as int,
                                        );
                                    }
                                    assert(req2 == req);
                                }
                            }
                        }
                        applied
                    },
                    None => {
                        proof {
                            if pre.wire_move_allowed(m) {
                                let req2 = choose|req2: MoveEntry|
                                    pre.wire_request_matches(m, req2) && pre.entry_allowed(req2);
                                let j = choose|j: int|
                                    piece_index_at(
                                        pre.mover_pieces(),
                                        origin.0 as int,
                                        origin.1 as int,
                                        j,
                                    ) && req2 == (((origin.0 as usize, origin.1 as usize), (
                                        target.0 as usize,
                                        target.1 as usize,
                                        pre.mover_pieces()[j].piece_type,
                                    )));
                                assert(occupied_by(
                                    pre.mover_pieces(),
                                    origin.0 as int,
                                    origin.1 as int,
                                ));
                            }
                        }
                        false
                    },
                }
            },
            crate::codec::WireMove::Promotion { origin, target, promo } => {
                let from = (origin.0 as usize, origin.1 as usize);
                let to = (target.0 as usize, target.1 as usize, promo);
                let ghost req = (from, to);
                proof {
                    assert(pre.wire_request_matches(m, req));
                }
                let applied = self.next(from, to);
                proof {
                    if !applied && pre.wire_move_allowed(m) {
                        let req2 = choose|req2: MoveEntry|
                            pre.wire_request_matches(m, req2) && pre.entry_allowed(req2);
                        assert(req2 == req);
                    }
                }
                applied
            },
            crate::codec::WireMove::KingsideCastle | crate::codec::WireMove::QueensideCastle => {
                proof {
                    if pre.wire_move_allowed(m) {
                        let req2 = choose|req2: MoveEntry|
                            pre.wire_request_matches(m, req2) && pre.entry_allowed(req2);
                    }
                }
                false
            },
        }
    }

    /// No entry of a current legal-move map leaves the mover's own king in
    /// check: whatever piece stands on the entry's origin square, making the
    /// entry's move keeps the king safe.
    pub proof fn lemma_legal_moves_check_safe(self, e: MoveEntry)
        requires
            self.wf(),
            forall|e2: MoveEntry| self.all_moves@.contains(e2) ==> #[trigger] self.entry_allowed(e2),
            self.all_moves@.contains(e),
        ensures
            forall|i: int|
                piece_index_at(self.mover_pieces(), e.0.0 as int, e.0.1 as int, i)
                    ==> !self.leaves_in_check(
                    #[trigger] self.mover_pieces()[i],
                    e.1.0 as int,
                    e.1.1 as int,
                    e.1.2,
                ),
    {
        assert(self.entry_allowed(e));
        let w = choose|w: int|
            piece_index_at(self.mover_pieces(), e.0.0 as int, e.0.1 as int, w) && self.full_legal(
                self.mover_pieces()[w],
                e.1.0 as int,
                e.1.1 as int,
                e.1.2,
            );
        assert forall|i: int|
            piece_index_at(self.mover_pieces(), e.0.0 as int, e.0.1 as int, i)
                implies !self.leaves_in_check(
                #[trigger] self.mover_pieces()[i],
                e.1.0 as int,
                e.1.1 as int,
                e.1.2,
            ) by {
            if self.whites_turn {
                self.lemma_white_unique(e.0.0 as int, e.0.1 as int, i, w);
            } else {
                self.lemma_black_unique(e.0.0 as int, e.0.1 as int, i, w);
            }
        }
    }

    /// A terminal position: when the recomputed legal-move map is empty, no
    /// request is allowed, so every request is rejected.
    pub proof fn lemma_terminal_rejects(self, from: (usize, usize), to: (usize, usize, PieceType))
        requires
            forall|e: MoveEntry| self.all_moves@.contains(e) <==> #[trigger] self.entry_allowed(e),
            self.all_moves@.len() == 0,
        ensures
            !self.entry_allowed((from, to)),
    {
        if self.entry_allowed(((from, to))) {
            assert(self.all_moves@.contains(((from, to))));
            let k = choose|k: int| 0 <= k < self.all_moves@.len() && self.all_moves@[k] == ((from, to));
        }
    }
}

} // verus!
